//! Planning for splitting a pack into bucket directories, and for the undo
//! scan that finds the bucket directories to merge back.
//!
//! Splitting a root directory `R` moves every direct child into a sibling
//! directory of `R` named `"<R> [<bucket>]"`, where the bucket comes from the
//! first-character classifier. The undo scan looks at `R`'s siblings and
//! selects every name of that shape as a merge source.

use vstd::prelude::*;
use crate::classify::{spec_classify, first_char_rules_find};
use crate::text::{spec_ends_with, spec_starts_with, str_ends_with, str_starts_with};
use vstd::string::StringExecFns;

verus! {

/// The name of the bucket directory that child `child` of root `root` is
/// moved into: `"<root> [<bucket of child>]"`.
pub open spec fn spec_bucket_dir_name(root: Seq<char>, child: Seq<char>) -> Seq<char> {
    root + seq![' ', '['] + spec_classify(child) + seq![']']
}

/// The name of the bucket directory for `child_name` under `root_name`.
pub fn bucket_dir_name(root_name: &str, child_name: &str) -> (r: String)
    ensures
        r@ == spec_bucket_dir_name(root_name@, child_name@),
{
    let bucket = first_char_rules_find(child_name);
    let r = String::from_str(root_name).concat(" [").concat(bucket).concat("]");
    proof {
        reveal_strlit(" [");
        reveal_strlit("]");
        assert(r@ =~= spec_bucket_dir_name(root_name@, child_name@));
    }
    r
}

/// Plans a split of `root_name`'s children: one (child, bucket directory)
/// pair per child, in listing order. Refused — with no pair produced — when
/// the root path ends with `]`, the guard against re-splitting an already
/// bucketed directory.
pub fn plan_split_folders(root_path: &str, root_name: &str, child_names: &Vec<String>) -> (r:
    Option<Vec<(String, String)>>)
    ensures
        r is None <==> spec_ends_with(root_path@, ']'),
        r matches Some(pairs) ==> {
            &&& pairs@.len() == child_names@.len()
            &&& forall|j: int|
                0 <= j < pairs@.len() ==> (#[trigger] pairs.deep_view()[j]).0
                    == child_names.deep_view()[j] && pairs.deep_view()[j].1
                    == spec_bucket_dir_name(root_name@, child_names.deep_view()[j])
        },
{
    if str_ends_with(root_path, ']') {
        return None;
    }
    let mut pairs: Vec<(String, String)> = Vec::new();
    let mut i: usize = 0;
    while i < child_names.len()
        invariant
            i <= child_names@.len(),
            pairs@.len() == i,
            forall|j: int|
                0 <= j < i ==> (#[trigger] pairs@[j]).0@ == child_names@[j]@ && pairs@[j].1@
                    == spec_bucket_dir_name(root_name@, child_names@[j]@),
        decreases child_names@.len() - i,
    {
        let target = bucket_dir_name(root_name, child_names[i].as_str());
        pairs.push((child_names[i].clone(), target));
        i += 1;
    }
    Some(pairs)
}

/// True iff `name` has the shape `"<root> [...]"`: it starts with
/// `"<root> ["` and ends with `]`.
pub open spec fn spec_is_undo_candidate(root: Seq<char>, name: Seq<char>) -> bool {
    spec_starts_with(name, root + seq![' ', '[']) && spec_ends_with(name, ']')
}

/// The sibling names that the undo scan selects, from index `i` on, in
/// listing order.
pub open spec fn spec_undo_candidates(root: Seq<char>, names: Seq<Seq<char>>, i: int) -> Seq<
    Seq<char>,
>
    decreases names.len() - i,
{
    if i < 0 || i >= names.len() {
        Seq::empty()
    } else if spec_is_undo_candidate(root, names[i]) {
        seq![names[i]] + spec_undo_candidates(root, names, i + 1)
    } else {
        spec_undo_candidates(root, names, i + 1)
    }
}

/// Scans the sibling names of root `root_name` and returns, in listing
/// order, every name of the shape `"<root_name> [...]"`: the bucket
/// directories that an undo merges back into the root.
pub fn plan_undo_split(root_name: &str, sibling_names: &Vec<String>) -> (srcs: Vec<String>)
    ensures
        srcs.deep_view() == spec_undo_candidates(root_name@, sibling_names.deep_view(), 0),
{
    let prefix = String::from_str(root_name).concat(" [");
    proof {
        reveal_strlit(" [");
        assert(prefix@ =~= root_name@ + seq![' ', '[']);
    }
    let ghost total = spec_undo_candidates(root_name@, sibling_names.deep_view(), 0);
    let mut srcs: Vec<String> = Vec::new();
    let mut i: usize = 0;
    while i < sibling_names.len()
        invariant
            i <= sibling_names@.len(),
            prefix@ == root_name@ + seq![' ', '['],
            srcs.deep_view() + spec_undo_candidates(
                root_name@,
                sibling_names.deep_view(),
                i as int,
            ) =~= total,
        decreases sibling_names@.len() - i,
    {
        let ghost pre = srcs.deep_view();
        let name = &sibling_names[i];
        proof {
            assert(name@ == sibling_names.deep_view()[i as int]);
        }
        if str_starts_with(name.as_str(), prefix.as_str()) && str_ends_with(name.as_str(), ']') {
            srcs.push(name.clone());
            proof {
                assert(spec_is_undo_candidate(root_name@, sibling_names.deep_view()[i as int]));
                assert(srcs.deep_view() =~= pre.push(sibling_names.deep_view()[i as int]));
                assert(srcs.deep_view() + spec_undo_candidates(
                    root_name@,
                    sibling_names.deep_view(),
                    i + 1,
                ) =~= total);
            }
        } else {
            proof {
                assert(!spec_is_undo_candidate(root_name@, sibling_names.deep_view()[i as int]));
            }
        }
        i += 1;
    }
    proof {
        assert(srcs.deep_view() =~= total);
    }
    srcs
}

} // verus!
