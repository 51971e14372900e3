//! Planning for the merge of bucketed sibling folders back into their base
//! folder, inside one root directory.
//!
//! A direct child whose name ends with `]` is a merge candidate: the text
//! before its last `[`, minus the separating character, is its base name.
//! The candidate is skipped when the base name is empty, when no sibling of
//! that base name exists, or when more than two siblings start with
//! `"<base> ["` (ambiguous grouping — the planner does not guess). Collected
//! pairs are then gated: a base name that is the destination of two pairs
//! aborts the whole plan, whatever the pairs' order, and every offending
//! base name is reported.

use vstd::prelude::*;
use crate::text::{
    spec_ends_with, spec_last_index_of, spec_starts_with, str_ends_with, str_eq,
    str_last_index_of, str_starts_with, vec_contains_str,
};
use vstd::string::StrSliceExecFns;
use vstd::string::StringExecFns;

verus! {

/// The base name of a bucketed child: the text before its last `[`, minus
/// the one character separating the two.
pub open spec fn spec_vb_base(name: Seq<char>) -> Seq<char> {
    name.subrange(0, spec_last_index_of(name, '[') - 1)
}

/// How many of `names`, from index `i` on, start with `"<base> ["`.
pub open spec fn spec_prefix_count(names: Seq<Seq<char>>, base: Seq<char>, i: int) -> int
    decreases names.len() - i,
{
    if i < 0 || i >= names.len() {
        0
    } else {
        (if spec_starts_with(names[i], base + seq![' ', '[']) {
            1int
        } else {
            0int
        }) + spec_prefix_count(names, base, i + 1)
    }
}

/// True iff `name` yields a merge pair among the sibling names `names`: it
/// is bucketed (ends with `]`), its base name is non-empty, a sibling of
/// exactly the base name exists, and at most two siblings group under
/// `"<base> ["`.
pub open spec fn spec_vb_eligible(names: Seq<Seq<char>>, name: Seq<char>) -> bool {
    let k = spec_last_index_of(name, '[');
    &&& spec_ends_with(name, ']')
    &&& k >= 2
    &&& names.contains(spec_vb_base(name))
    &&& spec_prefix_count(names, spec_vb_base(name), 0) <= 2
}

/// The (bucketed child, base name) pairs collected from `names`, from index
/// `i` on, in listing order.
pub open spec fn spec_vb_pairs(names: Seq<Seq<char>>, i: int) -> Seq<(Seq<char>, Seq<char>)>
    decreases names.len() - i,
{
    if i < 0 || i >= names.len() {
        Seq::empty()
    } else if spec_vb_eligible(names, names[i]) {
        seq![(names[i], spec_vb_base(names[i]))] + spec_vb_pairs(names, i + 1)
    } else {
        spec_vb_pairs(names, i + 1)
    }
}

/// Counts the members of `names` that start with `"<base> ["`.
fn count_prefixed(names: &Vec<String>, base: &str) -> (n: usize)
    ensures
        n == spec_prefix_count(names.deep_view(), base@, 0),
{
    let prefix = String::from_str(base).concat(" [");
    proof {
        reveal_strlit(" [");
        assert(prefix@ =~= base@ + seq![' ', '[']);
    }
    let ghost total = spec_prefix_count(names.deep_view(), base@, 0);
    let mut n: usize = 0;
    let mut i: usize = 0;
    while i < names.len()
        invariant
            i <= names@.len(),
            n <= i,
            prefix@ == base@ + seq![' ', '['],
            n + spec_prefix_count(names.deep_view(), base@, i as int) == total,
        decreases names@.len() - i,
    {
        proof {
            assert(names@[i as int]@ == names.deep_view()[i as int]);
        }
        if str_starts_with(names[i].as_str(), prefix.as_str()) {
            n += 1;
        }
        i += 1;
    }
    n
}

/// Collects the (bucketed child, base name) merge pairs of one root's
/// direct children, in listing order, skipping ambiguous groupings.
pub fn collect_merge_pairs(dir_names: &Vec<String>) -> (pairs: Vec<(String, String)>)
    ensures
        pairs.deep_view() == spec_vb_pairs(dir_names.deep_view(), 0),
{
    let ghost total = spec_vb_pairs(dir_names.deep_view(), 0);
    let mut pairs: Vec<(String, String)> = Vec::new();
    let mut i: usize = 0;
    while i < dir_names.len()
        invariant
            i <= dir_names@.len(),
            pairs.deep_view() + spec_vb_pairs(dir_names.deep_view(), i as int) =~= total,
        decreases dir_names@.len() - i,
    {
        let ghost pre = pairs.deep_view();
        let name = &dir_names[i];
        proof {
            assert(name@ == dir_names.deep_view()[i as int]);
        }
        let mut took: bool = false;
        if str_ends_with(name.as_str(), ']') {
            if let Some(k) = str_last_index_of(name.as_str(), '[') {
                if k >= 2 {
                    let base = name.substring_char(0, k - 1);
                    proof {
                        assert(base@ == spec_vb_base(name@));
                    }
                    if vec_contains_str(dir_names, base) {
                        let cnt = count_prefixed(dir_names, base);
                        if cnt <= 2 {
                            pairs.push((name.clone(), base.to_owned()));
                            took = true;
                            proof {
                                assert(spec_vb_eligible(dir_names.deep_view(), name@));
                                assert(pairs.deep_view() =~= pre.push((name@, spec_vb_base(name@))));
                                assert(pairs.deep_view() + spec_vb_pairs(
                                    dir_names.deep_view(),
                                    i + 1,
                                ) =~= total);
                            }
                        }
                    }
                }
            }
        }
        if !took {
            proof {
                assert(!spec_vb_eligible(dir_names.deep_view(), name@));
            }
        }
        i += 1;
    }
    proof {
        assert(pairs.deep_view() =~= total);
    }
    pairs
}

/// The destinations that occur more than once among `pairs`, from index `i`
/// on: every pair whose base name already appeared as an earlier pair's base
/// contributes its base name.
pub open spec fn spec_duplicate_destinations(pairs: Seq<(Seq<char>, Seq<char>)>, i: int) -> Seq<
    Seq<char>,
>
    decreases pairs.len() - i,
{
    if i < 0 || i >= pairs.len() {
        Seq::empty()
    } else if exists|j: int| 0 <= j < i && (#[trigger] pairs[j]).1 == pairs[i].1 {
        seq![pairs[i].1] + spec_duplicate_destinations(pairs, i + 1)
    } else {
        spec_duplicate_destinations(pairs, i + 1)
    }
}

proof fn lemma_duplicate_destinations_empty(pairs: Seq<(Seq<char>, Seq<char>)>, i: int)
    requires
        0 <= i <= pairs.len(),
    ensures
        spec_duplicate_destinations(pairs, i).len() == 0 <==> (forall|a: int, b: int|
            0 <= a < b < pairs.len() && i <= b ==> (#[trigger] pairs[a]).1 != (
            #[trigger] pairs[b]).1),
    decreases pairs.len() - i,
{
    if i < pairs.len() {
        lemma_duplicate_destinations_empty(pairs, i + 1);
    }
}

/// True iff some pair among the first `upto` has destination `target`.
fn dest_seen(pairs: &Vec<(String, String)>, upto: usize, target: &str) -> (r: bool)
    requires
        upto <= pairs@.len(),
    ensures
        r == exists|j: int| 0 <= j < upto && (#[trigger] pairs.deep_view()[j]).1 == target@,
{
    let mut j: usize = 0;
    while j < upto
        invariant
            j <= upto,
            upto <= pairs@.len(),
            forall|p: int| 0 <= p < j ==> (#[trigger] pairs.deep_view()[p]).1 != target@,
        decreases upto - j,
    {
        if str_eq(pairs[j].1.as_str(), target) {
            assert(pairs.deep_view()[j as int].1 == target@);
            return true;
        }
        j += 1;
    }
    false
}

/// Scans the collected pairs for base names that are the destination of
/// more than one pair — regardless of where in the list the two pairs
/// stand — and returns every repeated occurrence's base name. An empty
/// result means all destinations are distinct.
pub fn find_duplicate_destinations(pairs: &Vec<(String, String)>) -> (dups: Vec<String>)
    ensures
        dups.deep_view() == spec_duplicate_destinations(pairs.deep_view(), 0),
        dups@.len() == 0 <==> (forall|a: int, b: int|
            0 <= a < b < pairs.deep_view().len() ==> (#[trigger] pairs.deep_view()[a]).1 != (
            #[trigger] pairs.deep_view()[b]).1),
{
    let ghost total = spec_duplicate_destinations(pairs.deep_view(), 0);
    let mut dups: Vec<String> = Vec::new();
    let mut i: usize = 0;
    while i < pairs.len()
        invariant
            i <= pairs@.len(),
            dups.deep_view() + spec_duplicate_destinations(pairs.deep_view(), i as int) =~= total,
        decreases pairs@.len() - i,
    {
        let ghost pre = dups.deep_view();
        let seen = dest_seen(pairs, i, pairs[i].1.as_str());
        proof {
            assert(pairs@[i as int].1@ == pairs.deep_view()[i as int].1);
        }
        if seen {
            dups.push(pairs[i].1.clone());
            proof {
                assert(dups.deep_view() =~= pre.push(pairs.deep_view()[i as int].1));
                assert(dups.deep_view() + spec_duplicate_destinations(pairs.deep_view(), i + 1)
                    =~= total);
            }
        }
        i += 1;
    }
    proof {
        assert(dups.deep_view() =~= total);
        lemma_duplicate_destinations_empty(pairs.deep_view(), 0);
    }
    dups
}

/// Plans the whole merge of bucketed siblings under one root: collects the
/// pairs, then applies the all-or-nothing gate. `Ok` holds the pairs, with
/// all destinations distinct; `Err` holds the repeated destinations, and no
/// merge is to be performed.
pub fn plan_merge_split_folders(dir_names: &Vec<String>) -> (r: Result<
    Vec<(String, String)>,
    Vec<String>,
>)
    ensures
        (r is Ok) <==> spec_duplicate_destinations(
            spec_vb_pairs(dir_names.deep_view(), 0),
            0,
        ).len() == 0,
        r matches Ok(pairs) ==> pairs.deep_view() == spec_vb_pairs(dir_names.deep_view(), 0) && (
        forall|a: int, b: int|
            0 <= a < b < pairs.deep_view().len() ==> (#[trigger] pairs.deep_view()[a]).1 != (
            #[trigger] pairs.deep_view()[b]).1),
        r matches Err(dups) ==> dups.deep_view() == spec_duplicate_destinations(
            spec_vb_pairs(dir_names.deep_view(), 0),
            0,
        ) && dups@.len() > 0,
{
    let pairs = collect_merge_pairs(dir_names);
    let dups = find_duplicate_destinations(&pairs);
    if dups.len() == 0 {
        Ok(pairs)
    } else {
        Err(dups)
    }
}

} // verus!
