//! Planning for relocating work folders: moving every work of one root into
//! another root, flattening one level of nesting, and pairing same-named
//! works of two roots.

use vstd::prelude::*;
use crate::text::{spec_contains, str_contains, str_eq, clone_string_vec};

verus! {

/// The decision of a cross-root move: nothing to do because source and
/// destination are the same root; one merge per work folder; or — when the
/// source root has no work subfolder at all — one merge of the whole source
/// root into the destination root.
pub enum WorksMovePlan {
    NoOp,
    MoveEach(Vec<String>),
    MergeWholeRoot,
}

/// Decides a cross-root move. Moving a root into itself is a no-op success;
/// otherwise every work subfolder is merged into the equally named folder of
/// the destination root, and a source root without work subfolders is itself
/// merged into the destination root as a single work.
pub fn plan_move_works(root_from: &str, root_to: &str, subdir_names: &Vec<String>) -> (p:
    WorksMovePlan)
    ensures
        (p is NoOp) <==> root_from@ == root_to@,
        root_from@ != root_to@ && subdir_names@.len() > 0 ==> (p matches WorksMovePlan::MoveEach(v)
            && v.deep_view() == subdir_names.deep_view()),
        root_from@ != root_to@ && subdir_names@.len() == 0 ==> (p is MergeWholeRoot),
{
    if str_eq(root_from, root_to) {
        WorksMovePlan::NoOp
    } else if subdir_names.len() > 0 {
        WorksMovePlan::MoveEach(clone_string_vec(subdir_names))
    } else {
        WorksMovePlan::MergeWholeRoot
    }
}

/// The flattening moves for the intermediate folder at `children[i]`, from
/// grandchild index `j` on: each grandchild pairs with its intermediate
/// folder's name.
pub open spec fn spec_child_moves(child: (Seq<char>, Seq<Seq<char>>), j: int) -> Seq<
    (Seq<char>, Seq<char>),
>
    decreases child.1.len() - j,
{
    if j < 0 || j >= child.1.len() {
        Seq::empty()
    } else {
        seq![(child.0, child.1[j])] + spec_child_moves(child, j + 1)
    }
}

/// The flattening moves of a whole root, from intermediate folder index `i`
/// on: for every intermediate folder, every grandchild work in it, in
/// listing order.
pub open spec fn spec_flatten_moves(children: Seq<(Seq<char>, Seq<Seq<char>>)>, i: int) -> Seq<
    (Seq<char>, Seq<char>),
>
    decreases children.len() - i,
{
    if i < 0 || i >= children.len() {
        Seq::empty()
    } else {
        spec_child_moves(children[i], 0) + spec_flatten_moves(children, i + 1)
    }
}

/// Plans the removal of one nesting level: for every direct child directory
/// (an intermediate folder) of the root, and every work directory inside
/// it, one (intermediate folder, work) move of the work up into the root.
/// Emptied intermediate folders are for the caller to re-list and prune
/// after performing the moves of each folder.
pub fn plan_move_out(children: &Vec<(String, Vec<String>)>) -> (moves: Vec<(String, String)>)
    ensures
        moves.deep_view() == spec_flatten_moves(children.deep_view(), 0),
{
    let ghost total = spec_flatten_moves(children.deep_view(), 0);
    let mut moves: Vec<(String, String)> = Vec::new();
    let mut i: usize = 0;
    while i < children.len()
        invariant
            i <= children@.len(),
            moves.deep_view() + spec_flatten_moves(children.deep_view(), i as int) =~= total,
        decreases children@.len() - i,
    {
        let ghost pre_outer = moves.deep_view();
        let ghost c = children.deep_view()[i as int];
        let cname = &children[i].0;
        let grand = &children[i].1;
        proof {
            assert(cname@ == c.0);
            assert(grand.deep_view() == c.1);
        }
        let mut j: usize = 0;
        while j < grand.len()
            invariant
                j <= grand@.len(),
                cname@ == c.0,
                grand.deep_view() == c.1,
                moves.deep_view() + spec_child_moves(c, j as int) =~= pre_outer
                    + spec_child_moves(c, 0),
            decreases grand@.len() - j,
        {
            let ghost pre = moves.deep_view();
            moves.push((cname.clone(), grand[j].clone()));
            proof {
                assert(grand@[j as int]@ == c.1[j as int]);
                assert(moves.deep_view() =~= pre.push((c.0, c.1[j as int])));
                assert(moves.deep_view() + spec_child_moves(c, j + 1) =~= pre_outer
                    + spec_child_moves(c, 0));
            }
            j += 1;
        }
        proof {
            assert(moves.deep_view() =~= pre_outer + spec_child_moves(c, 0));
            assert(moves.deep_view() + spec_flatten_moves(children.deep_view(), i + 1) =~= total);
        }
        i += 1;
    }
    proof {
        assert(moves.deep_view() =~= total);
    }
    moves
}

/// The index of the first member of `tos`, from index `j` on, that holds
/// `from` as a substring; `-1` if none does.
pub open spec fn spec_first_containing(tos: Seq<Seq<char>>, from: Seq<char>, j: int) -> int
    decreases tos.len() - j,
{
    if j < 0 || j >= tos.len() {
        -1
    } else if spec_contains(tos[j], from) {
        j
    } else {
        spec_first_containing(tos, from, j + 1)
    }
}

/// The same-name merge pairs, from source index `i` on: every source folder
/// pairs with the first destination folder whose name contains it as a
/// substring; unmatched source folders are skipped.
pub open spec fn spec_same_name_pairs(
    froms: Seq<Seq<char>>,
    tos: Seq<Seq<char>>,
    i: int,
) -> Seq<(Seq<char>, Seq<char>)>
    decreases froms.len() - i,
{
    if i < 0 || i >= froms.len() {
        Seq::empty()
    } else {
        let m = spec_first_containing(tos, froms[i], 0);
        (if m >= 0 {
            seq![(froms[i], tos[m])]
        } else {
            Seq::empty()
        }) + spec_same_name_pairs(froms, tos, i + 1)
    }
}

/// Pairs the subfolders of a source root with subfolders of a destination
/// root: each source name pairs with the first destination name containing
/// it as a substring, in destination listing order; source names with no
/// match yield no pair.
pub fn pair_works_with_same_name(from_subdirs: &Vec<String>, to_subdirs: &Vec<String>) -> (pairs:
    Vec<(String, String)>)
    ensures
        pairs.deep_view() == spec_same_name_pairs(
            from_subdirs.deep_view(),
            to_subdirs.deep_view(),
            0,
        ),
{
    let ghost froms = from_subdirs.deep_view();
    let ghost tos = to_subdirs.deep_view();
    let ghost total = spec_same_name_pairs(froms, tos, 0);
    let mut pairs: Vec<(String, String)> = Vec::new();
    let mut i: usize = 0;
    while i < from_subdirs.len()
        invariant
            i <= from_subdirs@.len(),
            froms == from_subdirs.deep_view(),
            tos == to_subdirs.deep_view(),
            total == spec_same_name_pairs(froms, tos, 0),
            pairs.deep_view() + spec_same_name_pairs(froms, tos, i as int) =~= total,
        decreases from_subdirs@.len() - i,
    {
        let ghost pre = pairs.deep_view();
        let from_name = &from_subdirs[i];
        proof {
            assert(from_name@ == froms[i as int]);
        }
        let mut j: usize = 0;
        let mut found: bool = false;
        while j < to_subdirs.len() && !found
            invariant
                j <= to_subdirs@.len(),
                tos == to_subdirs.deep_view(),
                from_name@ == froms[i as int],
                !found ==> spec_first_containing(tos, froms[i as int], 0)
                    == spec_first_containing(tos, froms[i as int], j as int),
                found ==> j < tos.len() && spec_first_containing(tos, froms[i as int], 0)
                    == j && spec_contains(tos[j as int], froms[i as int]),
            decreases to_subdirs@.len() - j + (if found {
                0int
            } else {
                1int
            }),
        {
            proof {
                assert(to_subdirs@[j as int]@ == tos[j as int]);
            }
            if str_contains(to_subdirs[j].as_str(), from_name.as_str()) {
                found = true;
            } else {
                j += 1;
            }
        }
        if found {
            pairs.push((from_name.clone(), to_subdirs[j].clone()));
            proof {
                assert(pairs.deep_view() =~= pre.push((froms[i as int], tos[j as int])));
                assert(pairs.deep_view() + spec_same_name_pairs(froms, tos, i + 1) =~= total);
            }
        } else {
            proof {
                assert(spec_first_containing(tos, froms[i as int], 0) == -1);
            }
        }
        i += 1;
    }
    proof {
        assert(pairs.deep_view() =~= total);
    }
    pairs
}

} // verus!
