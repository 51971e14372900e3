//! Extension-priority rule tables ("presets") for the deduplication pass.
//!
//! A rule is a pair of a superior extension list and an inferior extension
//! list: the presence of a non-empty file with a superior extension makes the
//! sibling files with an inferior extension redundant. A preset is an ordered
//! sequence of such rules, evaluated in table order.

use vstd::prelude::*;
use crate::text::clone_string_vec;

verus! {

/// The `oraja` preset as a mathematical value.
pub open spec fn spec_rule_oraja() -> Seq<(Seq<Seq<char>>, Seq<Seq<char>>)> {
    seq![
        (seq!["mp4"@], seq!["avi"@, "wmv"@, "mpg"@, "mpeg"@]),
        (seq!["avi"@], seq!["wmv"@, "mpg"@, "mpeg"@]),
        (seq!["flac"@, "wav"@], seq!["ogg"@]),
        (seq!["flac"@], seq!["wav"@]),
        (seq!["mpg"@], seq!["wmv"@]),
    ]
}

/// The preset that keeps `wav` files and drops their `flac` siblings.
pub open spec fn spec_rule_wav_fill_flac() -> Seq<(Seq<Seq<char>>, Seq<Seq<char>>)> {
    seq![(seq!["wav"@], seq!["flac"@])]
}

/// The preset that keeps `mpg` files and drops their `wmv` siblings.
pub open spec fn spec_rule_mpg_fill_wmv() -> Seq<(Seq<Seq<char>>, Seq<Seq<char>>)> {
    seq![(seq!["mpg"@], seq!["wmv"@])]
}

/// The ordered list of named presets offered for selection.
pub open spec fn spec_rule_presets() -> Seq<Seq<(Seq<Seq<char>>, Seq<Seq<char>>)>> {
    seq![spec_rule_oraja(), spec_rule_wav_fill_flac(), spec_rule_mpg_fill_wmv()]
}

/// The `oraja` preset: video priority `mp4 > avi > wmv/mpg/mpeg` plus
/// `mpg > wmv`, and audio priority `flac/wav > ogg` plus `flac > wav`.
pub fn get_remove_media_rule_oraja() -> (r: Vec<(Vec<String>, Vec<String>)>)
    ensures
        r.deep_view() == spec_rule_oraja(),
{
    let r = vec![
        (
            vec!["mp4".to_owned()],
            vec!["avi".to_owned(), "wmv".to_owned(), "mpg".to_owned(), "mpeg".to_owned()],
        ),
        (vec!["avi".to_owned()], vec!["wmv".to_owned(), "mpg".to_owned(), "mpeg".to_owned()]),
        (vec!["flac".to_owned(), "wav".to_owned()], vec!["ogg".to_owned()]),
        (vec!["flac".to_owned()], vec!["wav".to_owned()]),
        (vec!["mpg".to_owned()], vec!["wmv".to_owned()]),
    ];
    proof {
        assert(r.deep_view() =~~= spec_rule_oraja());
    }
    r
}

/// The preset that keeps `wav` files and drops their `flac` siblings.
pub fn get_remove_media_rule_wav_fill_flac() -> (r: Vec<(Vec<String>, Vec<String>)>)
    ensures
        r.deep_view() == spec_rule_wav_fill_flac(),
{
    let r = vec![(vec!["wav".to_owned()], vec!["flac".to_owned()])];
    proof {
        assert(r.deep_view() =~~= spec_rule_wav_fill_flac());
    }
    r
}

/// The preset that keeps `mpg` files and drops their `wmv` siblings.
pub fn get_remove_media_rule_mpg_fill_wmv() -> (r: Vec<(Vec<String>, Vec<String>)>)
    ensures
        r.deep_view() == spec_rule_mpg_fill_wmv(),
{
    let r = vec![(vec!["mpg".to_owned()], vec!["wmv".to_owned()])];
    proof {
        assert(r.deep_view() =~~= spec_rule_mpg_fill_wmv());
    }
    r
}

/// All named presets, in selection order.
pub fn get_remove_media_file_rules() -> (r: Vec<Vec<(Vec<String>, Vec<String>)>>)
    ensures
        r.deep_view() == spec_rule_presets(),
{
    let r = vec![
        get_remove_media_rule_oraja(),
        get_remove_media_rule_wav_fill_flac(),
        get_remove_media_rule_mpg_fill_wmv(),
    ];
    proof {
        assert(r.deep_view() =~~= spec_rule_presets());
    }
    r
}

/// Copies a rule table.
pub fn clone_media_rule(v: &Vec<(Vec<String>, Vec<String>)>) -> (r: Vec<(Vec<String>, Vec<String>)>)
    ensures
        r.deep_view() == v.deep_view(),
{
    let mut r: Vec<(Vec<String>, Vec<String>)> = Vec::new();
    let mut i: usize = 0;
    while i < v.len()
        invariant
            i <= v@.len(),
            r@.len() == i,
            forall|j: int| 0 <= j < i ==> r.deep_view()[j] == v.deep_view()[j],
        decreases v@.len() - i,
    {
        let sup = clone_string_vec(&v[i].0);
        let inf = clone_string_vec(&v[i].1);
        r.push((sup, inf));
        i += 1;
    }
    proof {
        assert(r.deep_view() =~= v.deep_view());
    }
    r
}

/// The preset picked by a numeric selection: the table at `selection`, or
/// the first table when the selection is out of range.
pub fn select_media_rule(rules: &Vec<Vec<(Vec<String>, Vec<String>)>>, selection: usize) -> (r: Vec<
    (Vec<String>, Vec<String>),
>)
    requires
        rules@.len() > 0,
    ensures
        r.deep_view() == if selection < rules@.len() {
            rules.deep_view()[selection as int]
        } else {
            rules.deep_view()[0]
        },
{
    if selection < rules.len() {
        clone_media_rule(&rules[selection])
    } else {
        clone_media_rule(&rules[0])
    }
}

} // verus!
