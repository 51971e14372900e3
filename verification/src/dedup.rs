//! The deduplication evaluator: given the regular files of one work folder
//! and an extension-priority rule table, compute which files to delete.
//!
//! For every file whose (ASCII-lowercased) extension is superior in some
//! rule, and whose size is not zero, every existing sibling file with an
//! inferior extension substituted is scheduled for deletion — at most once,
//! even when several superior files or several rules target it. The result
//! is a pure plan: a list of (file kept, file to delete) pairs in evaluation
//! order.

use vstd::prelude::*;
use crate::text::{
    spec_ext_of, spec_lower_eq, spec_with_ext, ext_of, str_lower_eq, vec_contains_str, with_ext,
};

verus! {

/// One regular file of a work folder: its base name and its size in bytes.
pub struct FileEntry {
    pub name: String,
    pub size: u64,
}

/// The mathematical content of a `FileEntry`.
pub struct FileMeta {
    pub name: Seq<char>,
    pub size: u64,
}

impl View for FileEntry {
    type V = FileMeta;

    open spec fn view(&self) -> FileMeta {
        FileMeta { name: self.name@, size: self.size }
    }
}

impl DeepView for FileEntry {
    type V = FileMeta;

    open spec fn deep_view(&self) -> FileMeta {
        self@
    }
}

/// The names of a listing's files, in listing order.
pub open spec fn spec_file_names(files: Seq<FileMeta>) -> Seq<Seq<char>> {
    files.map_values(|f: FileMeta| f.name)
}

/// True iff extension `ext` ASCII-lowercases to a member of `sups`.
pub open spec fn spec_ext_matches(ext: Seq<char>, sups: Seq<Seq<char>>) -> bool {
    exists|k: int| 0 <= k < sups.len() && spec_lower_eq(ext, #[trigger] sups[k])
}

/// The deletion targets of a pair list.
pub open spec fn spec_targets(pairs: Seq<(Seq<char>, Seq<char>)>) -> Seq<Seq<char>> {
    pairs.map_values(|p: (Seq<char>, Seq<char>)| p.1)
}

/// Scheduling pass over the inferior extensions of one rule, for the
/// superior file `fname`, starting at extension index `k`: returns the
/// (keep, delete) pairs emitted and the updated already-scheduled list.
pub open spec fn spec_sched_exts(
    fname: Seq<char>,
    names: Seq<Seq<char>>,
    infs: Seq<Seq<char>>,
    k: int,
    sched: Seq<Seq<char>>,
) -> (Seq<(Seq<char>, Seq<char>)>, Seq<Seq<char>>)
    decreases infs.len() - k,
{
    if k < 0 || k >= infs.len() {
        (Seq::empty(), sched)
    } else {
        let target = spec_with_ext(fname, infs[k]);
        if names.contains(target) && !sched.contains(target) {
            let rec = spec_sched_exts(fname, names, infs, k + 1, sched.push(target));
            (seq![(fname, target)] + rec.0, rec.1)
        } else {
            spec_sched_exts(fname, names, infs, k + 1, sched)
        }
    }
}

/// Scheduling pass over the rule table for one file `f`, starting at rule
/// index `j`: a rule contributes only if `f`'s extension is superior in it
/// and `f` is not empty.
pub open spec fn spec_sched_rules(
    f: FileMeta,
    names: Seq<Seq<char>>,
    rules: Seq<(Seq<Seq<char>>, Seq<Seq<char>>)>,
    j: int,
    sched: Seq<Seq<char>>,
) -> (Seq<(Seq<char>, Seq<char>)>, Seq<Seq<char>>)
    decreases rules.len() - j,
{
    if j < 0 || j >= rules.len() {
        (Seq::empty(), sched)
    } else if spec_ext_matches(spec_ext_of(f.name), rules[j].0) && f.size != 0 {
        let r1 = spec_sched_exts(f.name, names, rules[j].1, 0, sched);
        let r2 = spec_sched_rules(f, names, rules, j + 1, r1.1);
        (r1.0 + r2.0, r2.1)
    } else {
        spec_sched_rules(f, names, rules, j + 1, sched)
    }
}

/// Scheduling pass over the listing, starting at file index `i`.
pub open spec fn spec_sched_files(
    files: Seq<FileMeta>,
    names: Seq<Seq<char>>,
    rules: Seq<(Seq<Seq<char>>, Seq<Seq<char>>)>,
    i: int,
    sched: Seq<Seq<char>>,
) -> (Seq<(Seq<char>, Seq<char>)>, Seq<Seq<char>>)
    decreases files.len() - i,
{
    if i < 0 || i >= files.len() {
        (Seq::empty(), sched)
    } else {
        let r1 = spec_sched_rules(files[i], names, rules, 0, sched);
        let r2 = spec_sched_files(files, names, rules, i + 1, r1.1);
        (r1.0 + r2.0, r2.1)
    }
}

/// The full deletion plan of one work folder's listing under a rule table.
pub open spec fn spec_removal_plan(
    files: Seq<FileMeta>,
    rules: Seq<(Seq<Seq<char>>, Seq<Seq<char>>)>,
) -> Seq<(Seq<char>, Seq<char>)> {
    spec_sched_files(files, spec_file_names(files), rules, 0, Seq::empty()).0
}

proof fn lemma_concat_contains<A>(a: Seq<A>, b: Seq<A>, x: A)
    ensures
        (a + b).contains(x) <==> a.contains(x) || b.contains(x),
{
    if a.contains(x) {
        let i = choose|i: int| 0 <= i < a.len() && a[i] == x;
        assert((a + b)[i] == x);
    }
    if b.contains(x) {
        let i = choose|i: int| 0 <= i < b.len() && b[i] == x;
        assert((a + b)[a.len() + i] == x);
    }
    if (a + b).contains(x) {
        let i = choose|i: int| 0 <= i < (a + b).len() && (a + b)[i] == x;
        if i < a.len() {
            assert(a[i] == x);
        } else {
            assert(b[i - a.len()] == x);
        }
    }
}

proof fn lemma_sched_exts_props(
    fname: Seq<char>,
    names: Seq<Seq<char>>,
    infs: Seq<Seq<char>>,
    k: int,
    sched: Seq<Seq<char>>,
)
    ensures
        ({
            let r = spec_sched_exts(fname, names, infs, k, sched);
            &&& r.1 == sched + spec_targets(r.0)
            &&& forall|x: int|
                0 <= x < r.0.len() ==> (#[trigger] r.0[x]).0 == fname && names.contains(r.0[x].1)
                    && !sched.contains(r.0[x].1)
            &&& forall|x: int, y: int| 0 <= x < y < r.0.len() ==> r.0[x].1 != r.0[y].1
        }),
    decreases infs.len() - k,
{
    let r = spec_sched_exts(fname, names, infs, k, sched);
    if k < 0 || k >= infs.len() {
        assert(r.1 =~= sched + spec_targets(r.0));
    } else {
        let target = spec_with_ext(fname, infs[k]);
        if names.contains(target) && !sched.contains(target) {
            lemma_sched_exts_props(fname, names, infs, k + 1, sched.push(target));
            let rec = spec_sched_exts(fname, names, infs, k + 1, sched.push(target));
            assert(r.0 == seq![(fname, target)] + rec.0);
            assert(spec_targets(r.0) =~= seq![target] + spec_targets(rec.0));
            assert(r.1 =~= sched + spec_targets(r.0)) by {
                assert(rec.1 == sched.push(target) + spec_targets(rec.0));
                assert(sched.push(target) + spec_targets(rec.0) =~= sched + (seq![target]
                    + spec_targets(rec.0)));
            }
            assert forall|x: int| 0 <= x < r.0.len() implies (#[trigger] r.0[x]).0 == fname
                && names.contains(r.0[x].1) && !sched.contains(r.0[x].1) by {
                if x == 0 {
                } else {
                    assert(r.0[x] == rec.0[x - 1]);
                    assert(!sched.push(target).contains(rec.0[x - 1].1));
                    lemma_concat_contains(sched, seq![target], rec.0[x - 1].1);
                    assert(sched.push(target) =~= sched + seq![target]);
                }
            }
            assert forall|x: int, y: int| 0 <= x < y < r.0.len() implies r.0[x].1 != r.0[y].1 by {
                if x == 0 {
                    assert(r.0[y] == rec.0[y - 1]);
                    assert(!sched.push(target).contains(rec.0[y - 1].1));
                    assert(sched.push(target)[sched.len() as int] == target);
                    assert(sched.push(target).contains(target));
                } else {
                    assert(r.0[x] == rec.0[x - 1]);
                    assert(r.0[y] == rec.0[y - 1]);
                }
            }
        } else {
            lemma_sched_exts_props(fname, names, infs, k + 1, sched);
        }
    }
}

proof fn lemma_sched_rules_props(
    f: FileMeta,
    names: Seq<Seq<char>>,
    rules: Seq<(Seq<Seq<char>>, Seq<Seq<char>>)>,
    j: int,
    sched: Seq<Seq<char>>,
)
    ensures
        ({
            let r = spec_sched_rules(f, names, rules, j, sched);
            &&& r.1 == sched + spec_targets(r.0)
            &&& forall|x: int|
                0 <= x < r.0.len() ==> (#[trigger] r.0[x]).0 == f.name && names.contains(r.0[x].1)
                    && !sched.contains(r.0[x].1)
            &&& forall|x: int, y: int| 0 <= x < y < r.0.len() ==> r.0[x].1 != r.0[y].1
            &&& f.size == 0 ==> r.0.len() == 0
        }),
    decreases rules.len() - j,
{
    let r = spec_sched_rules(f, names, rules, j, sched);
    if j < 0 || j >= rules.len() {
        assert(r.1 =~= sched + spec_targets(r.0));
    } else if spec_ext_matches(spec_ext_of(f.name), rules[j].0) && f.size != 0 {
        let r1 = spec_sched_exts(f.name, names, rules[j].1, 0, sched);
        let r2 = spec_sched_rules(f, names, rules, j + 1, r1.1);
        lemma_sched_exts_props(f.name, names, rules[j].1, 0, sched);
        lemma_sched_rules_props(f, names, rules, j + 1, r1.1);
        assert(r.0 == r1.0 + r2.0);
        assert(spec_targets(r.0) =~= spec_targets(r1.0) + spec_targets(r2.0));
        assert(r.1 =~= sched + spec_targets(r.0)) by {
            assert(r2.1 == r1.1 + spec_targets(r2.0));
            assert(r1.1 == sched + spec_targets(r1.0));
            assert((sched + spec_targets(r1.0)) + spec_targets(r2.0) =~= sched + (spec_targets(
                r1.0,
            ) + spec_targets(r2.0)));
        }
        assert forall|x: int| 0 <= x < r.0.len() implies (#[trigger] r.0[x]).0 == f.name
            && names.contains(r.0[x].1) && !sched.contains(r.0[x].1) by {
            if x < r1.0.len() {
                assert(r.0[x] == r1.0[x]);
            } else {
                assert(r.0[x] == r2.0[x - r1.0.len()]);
                assert(!r1.1.contains(r2.0[x - r1.0.len()].1));
                lemma_concat_contains(sched, spec_targets(r1.0), r2.0[x - r1.0.len()].1);
            }
        }
        assert forall|x: int, y: int| 0 <= x < y < r.0.len() implies r.0[x].1 != r.0[y].1 by {
            if y < r1.0.len() {
            } else if x >= r1.0.len() {
                assert(r.0[x] == r2.0[x - r1.0.len()]);
                assert(r.0[y] == r2.0[y - r1.0.len()]);
            } else {
                assert(r.0[x] == r1.0[x]);
                assert(r.0[y] == r2.0[y - r1.0.len()]);
                assert(!r1.1.contains(r2.0[y - r1.0.len()].1));
                lemma_concat_contains(sched, spec_targets(r1.0), r2.0[y - r1.0.len()].1);
                assert(spec_targets(r1.0)[x] == r1.0[x].1);
                assert(spec_targets(r1.0).contains(r1.0[x].1));
            }
        }
    } else {
        lemma_sched_rules_props(f, names, rules, j + 1, sched);
    }
}

proof fn lemma_sched_files_props(
    files: Seq<FileMeta>,
    names: Seq<Seq<char>>,
    rules: Seq<(Seq<Seq<char>>, Seq<Seq<char>>)>,
    i: int,
    sched: Seq<Seq<char>>,
)
    ensures
        ({
            let r = spec_sched_files(files, names, rules, i, sched);
            &&& r.1 == sched + spec_targets(r.0)
            &&& forall|x: int|
                0 <= x < r.0.len() ==> (exists|j: int|
                    i <= j < files.len() && (#[trigger] files[j]).name == (#[trigger] r.0[x]).0
                        && files[j].size != 0) && names.contains(r.0[x].1) && !sched.contains(
                    r.0[x].1,
                )
            &&& forall|x: int, y: int| 0 <= x < y < r.0.len() ==> r.0[x].1 != r.0[y].1
        }),
    decreases files.len() - i,
{
    let r = spec_sched_files(files, names, rules, i, sched);
    if i < 0 || i >= files.len() {
        assert(r.1 =~= sched + spec_targets(r.0));
    } else {
        let r1 = spec_sched_rules(files[i], names, rules, 0, sched);
        let r2 = spec_sched_files(files, names, rules, i + 1, r1.1);
        lemma_sched_rules_props(files[i], names, rules, 0, sched);
        lemma_sched_files_props(files, names, rules, i + 1, r1.1);
        assert(r.0 == r1.0 + r2.0);
        assert(spec_targets(r.0) =~= spec_targets(r1.0) + spec_targets(r2.0));
        assert(r.1 =~= sched + spec_targets(r.0)) by {
            assert(r2.1 == r1.1 + spec_targets(r2.0));
            assert(r1.1 == sched + spec_targets(r1.0));
            assert((sched + spec_targets(r1.0)) + spec_targets(r2.0) =~= sched + (spec_targets(
                r1.0,
            ) + spec_targets(r2.0)));
        }
        assert forall|x: int| 0 <= x < r.0.len() implies (exists|j: int|
            i <= j < files.len() && (#[trigger] files[j]).name == (#[trigger] r.0[x]).0
                && files[j].size != 0) && names.contains(r.0[x].1) && !sched.contains(r.0[x].1) by {
            if x < r1.0.len() {
                assert(r.0[x] == r1.0[x]);
                assert(r1.0[x].0 == files[i].name);
                if files[i].size == 0 {
                    assert(r1.0.len() == 0);
                }
                assert(files[i].name == r.0[x].0 && files[i].size != 0);
            } else {
                assert(r.0[x] == r2.0[x - r1.0.len()]);
                assert(!r1.1.contains(r2.0[x - r1.0.len()].1));
                lemma_concat_contains(sched, spec_targets(r1.0), r2.0[x - r1.0.len()].1);
            }
        }
        assert forall|x: int, y: int| 0 <= x < y < r.0.len() implies r.0[x].1 != r.0[y].1 by {
            if y < r1.0.len() {
            } else if x >= r1.0.len() {
                assert(r.0[x] == r2.0[x - r1.0.len()]);
                assert(r.0[y] == r2.0[y - r1.0.len()]);
            } else {
                assert(r.0[x] == r1.0[x]);
                assert(r.0[y] == r2.0[y - r1.0.len()]);
                assert(!r1.1.contains(r2.0[y - r1.0.len()].1));
                lemma_concat_contains(sched, spec_targets(r1.0), r2.0[y - r1.0.len()].1);
                assert(spec_targets(r1.0)[x] == r1.0[x].1);
                assert(spec_targets(r1.0).contains(r1.0[x].1));
            }
        }
    }
}

/// True iff `ext` ASCII-lowercases to a member of `sups`.
fn ext_in_list(ext: &str, sups: &Vec<String>) -> (r: bool)
    ensures
        r == spec_ext_matches(ext@, sups.deep_view()),
{
    let mut k: usize = 0;
    while k < sups.len()
        invariant
            k <= sups@.len(),
            forall|j: int| 0 <= j < k ==> !spec_lower_eq(ext@, #[trigger] sups.deep_view()[j]),
        decreases sups@.len() - k,
    {
        if str_lower_eq(ext, sups[k].as_str()) {
            assert(spec_lower_eq(ext@, sups.deep_view()[k as int]));
            return true;
        }
        k += 1;
    }
    false
}

fn sched_exts_exec(
    fname: &str,
    names: &Vec<String>,
    infs: &Vec<String>,
    sched: &mut Vec<String>,
    out: &mut Vec<(String, String)>,
)
    ensures
        final(out).deep_view() == old(out).deep_view() + spec_sched_exts(
            fname@,
            names.deep_view(),
            infs.deep_view(),
            0,
            old(sched).deep_view(),
        ).0,
        final(sched).deep_view() == spec_sched_exts(
            fname@,
            names.deep_view(),
            infs.deep_view(),
            0,
            old(sched).deep_view(),
        ).1,
{
    let ghost orig_out = out.deep_view();
    let ghost total = spec_sched_exts(
        fname@,
        names.deep_view(),
        infs.deep_view(),
        0,
        sched.deep_view(),
    );
    let mut k: usize = 0;
    while k < infs.len()
        invariant
            k <= infs@.len(),
            out.deep_view() + spec_sched_exts(
                fname@,
                names.deep_view(),
                infs.deep_view(),
                k as int,
                sched.deep_view(),
            ).0 =~= orig_out + total.0,
            spec_sched_exts(
                fname@,
                names.deep_view(),
                infs.deep_view(),
                k as int,
                sched.deep_view(),
            ).1 == total.1,
        decreases infs@.len() - k,
    {
        let ghost pre_sched = sched.deep_view();
        let ghost pre_out = out.deep_view();
        let target = with_ext(fname, infs[k].as_str());
        let hit = vec_contains_str(names, target.as_str());
        let seen = vec_contains_str(sched, target.as_str());
        if hit && !seen {
            let pair = (fname.to_owned(), target.clone());
            out.push(pair);
            sched.push(target);
            proof {
                assert(sched.deep_view() =~= pre_sched.push(
                    spec_with_ext(fname@, infs.deep_view()[k as int]),
                ));
                assert(out.deep_view() =~= pre_out.push(
                    (fname@, spec_with_ext(fname@, infs.deep_view()[k as int])),
                ));
                assert(out.deep_view() + spec_sched_exts(
                    fname@,
                    names.deep_view(),
                    infs.deep_view(),
                    k + 1,
                    sched.deep_view(),
                ).0 =~= orig_out + total.0);
            }
        }
        k += 1;
    }
    proof {
        assert(out.deep_view() =~= orig_out + total.0);
    }
}

fn sched_rules_exec(
    f: &FileEntry,
    names: &Vec<String>,
    rules: &Vec<(Vec<String>, Vec<String>)>,
    sched: &mut Vec<String>,
    out: &mut Vec<(String, String)>,
)
    ensures
        final(out).deep_view() == old(out).deep_view() + spec_sched_rules(
            f@,
            names.deep_view(),
            rules.deep_view(),
            0,
            old(sched).deep_view(),
        ).0,
        final(sched).deep_view() == spec_sched_rules(
            f@,
            names.deep_view(),
            rules.deep_view(),
            0,
            old(sched).deep_view(),
        ).1,
{
    let ghost orig_out = out.deep_view();
    let ghost total = spec_sched_rules(
        f@,
        names.deep_view(),
        rules.deep_view(),
        0,
        sched.deep_view(),
    );
    let mut j: usize = 0;
    while j < rules.len()
        invariant
            j <= rules@.len(),
            out.deep_view() + spec_sched_rules(
                f@,
                names.deep_view(),
                rules.deep_view(),
                j as int,
                sched.deep_view(),
            ).0 =~= orig_out + total.0,
            spec_sched_rules(
                f@,
                names.deep_view(),
                rules.deep_view(),
                j as int,
                sched.deep_view(),
            ).1 == total.1,
        decreases rules@.len() - j,
    {
        let ghost pre_sched = sched.deep_view();
        let ghost pre_out = out.deep_view();
        let ext = ext_of(f.name.as_str());
        let applies = ext_in_list(ext, &rules[j].0);
        if applies && f.size != 0 {
            sched_exts_exec(f.name.as_str(), names, &rules[j].1, sched, out);
            proof {
                let r1 = spec_sched_exts(
                    f@.name,
                    names.deep_view(),
                    rules.deep_view()[j as int].1,
                    0,
                    pre_sched,
                );
                let r2 = spec_sched_rules(
                    f@,
                    names.deep_view(),
                    rules.deep_view(),
                    j + 1,
                    r1.1,
                );
                assert(spec_sched_rules(
                    f@,
                    names.deep_view(),
                    rules.deep_view(),
                    j as int,
                    pre_sched,
                ).0 == r1.0 + r2.0);
                assert(out.deep_view() + r2.0 =~= orig_out + total.0) by {
                    assert(out.deep_view() =~= pre_out + r1.0);
                    assert((pre_out + r1.0) + r2.0 =~= pre_out + (r1.0 + r2.0));
                }
            }
        }
        j += 1;
    }
    proof {
        assert(out.deep_view() =~= orig_out + total.0);
    }
}

/// Computes the deletion plan of one work folder: a list of
/// (file kept, file to delete) pairs, in evaluation order.
///
/// Guarantees, beyond matching the plan's definition exactly: no file is
/// scheduled for deletion twice, every scheduled deletion names a file that
/// was present in the listing, and every deletion is justified by a
/// non-empty file of the listing that the plan keeps as its witness.
pub fn workdir_compute_removals(
    files: &Vec<FileEntry>,
    rule: &Vec<(Vec<String>, Vec<String>)>,
) -> (pairs: Vec<(String, String)>)
    ensures
        pairs.deep_view() == spec_removal_plan(files.deep_view(), rule.deep_view()),
        forall|a: int, b: int|
            0 <= a < b < pairs.deep_view().len() ==> (#[trigger] pairs.deep_view()[a]).1 != (
            #[trigger] pairs.deep_view()[b]).1,
        forall|a: int|
            0 <= a < pairs.deep_view().len() ==> exists|j: int|
                0 <= j < files.deep_view().len() && (#[trigger] files.deep_view()[j]).name == (
                #[trigger] pairs.deep_view()[a]).0 && files.deep_view()[j].size != 0,
        forall|a: int|
            0 <= a < pairs.deep_view().len() ==> spec_file_names(files.deep_view()).contains(
                (#[trigger] pairs.deep_view()[a]).1,
            ),
{
    let mut names: Vec<String> = Vec::new();
    let mut i: usize = 0;
    while i < files.len()
        invariant
            i <= files@.len(),
            names@.len() == i,
            forall|j: int| 0 <= j < i ==> names@[j]@ == files@[j].name@,
        decreases files@.len() - i,
    {
        names.push(files[i].name.clone());
        i += 1;
    }
    proof {
        assert(names.deep_view() =~= spec_file_names(files.deep_view()));
    }
    let mut sched: Vec<String> = Vec::new();
    let mut out: Vec<(String, String)> = Vec::new();
    let ghost total = spec_sched_files(
        files.deep_view(),
        names.deep_view(),
        rule.deep_view(),
        0,
        Seq::empty(),
    );
    proof {
        assert(sched.deep_view() =~= Seq::<Seq<char>>::empty());
        assert(out.deep_view() =~= Seq::<(Seq<char>, Seq<char>)>::empty());
    }
    let mut i: usize = 0;
    while i < files.len()
        invariant
            i <= files@.len(),
            names.deep_view() == spec_file_names(files.deep_view()),
            out.deep_view() + spec_sched_files(
                files.deep_view(),
                names.deep_view(),
                rule.deep_view(),
                i as int,
                sched.deep_view(),
            ).0 =~= total.0,
            spec_sched_files(
                files.deep_view(),
                names.deep_view(),
                rule.deep_view(),
                i as int,
                sched.deep_view(),
            ).1 == total.1,
        decreases files@.len() - i,
    {
        let ghost pre_sched = sched.deep_view();
        let ghost pre_out = out.deep_view();
        sched_rules_exec(&files[i], &names, rule, &mut sched, &mut out);
        proof {
            let r1 = spec_sched_rules(
                files.deep_view()[i as int],
                names.deep_view(),
                rule.deep_view(),
                0,
                pre_sched,
            );
            let r2 = spec_sched_files(
                files.deep_view(),
                names.deep_view(),
                rule.deep_view(),
                i + 1,
                r1.1,
            );
            assert(spec_sched_files(
                files.deep_view(),
                names.deep_view(),
                rule.deep_view(),
                i as int,
                pre_sched,
            ).0 == r1.0 + r2.0);
            assert(out.deep_view() + r2.0 =~= total.0) by {
                assert(out.deep_view() =~= pre_out + r1.0);
                assert((pre_out + r1.0) + r2.0 =~= pre_out + (r1.0 + r2.0));
            }
        }
        i += 1;
    }
    proof {
        assert(out.deep_view() =~= total.0);
        lemma_sched_files_props(
            files.deep_view(),
            names.deep_view(),
            rule.deep_view(),
            0,
            Seq::empty(),
        );
    }
    out
}

/// True iff `f` would remain after the deletions in `removed` and has an
/// extension that ASCII-lowercases to `ext`.
pub open spec fn spec_remains_with_ext(
    f: FileMeta,
    removed: Seq<Seq<char>>,
    ext: Seq<char>,
) -> bool {
    !removed.contains(f.name) && spec_lower_eq(spec_ext_of(f.name), ext)
}

/// How many files of `files`, from index `i` on, remain after the deletions
/// in `removed` and carry extension `ext` (ASCII case-insensitively).
pub open spec fn spec_remaining_count(
    files: Seq<FileMeta>,
    removed: Seq<Seq<char>>,
    ext: Seq<char>,
    i: int,
) -> int
    decreases files.len() - i,
{
    if i < 0 || i >= files.len() {
        0
    } else {
        (if spec_remains_with_ext(files[i], removed, ext) {
            1int
        } else {
            0int
        }) + spec_remaining_count(files, removed, ext, i + 1)
    }
}

/// Counts the files that would remain after the planned deletions and whose
/// extension ASCII-lowercases to `ext` — the post-pass diagnostic that warns
/// when more than one final video file is left.
pub fn count_remaining_with_ext(files: &Vec<FileEntry>, removed: &Vec<String>, ext: &str) -> (n:
    usize)
    ensures
        n == spec_remaining_count(files.deep_view(), removed.deep_view(), ext@, 0),
{
    let ghost total = spec_remaining_count(files.deep_view(), removed.deep_view(), ext@, 0);
    let mut n: usize = 0;
    let mut i: usize = 0;
    while i < files.len()
        invariant
            i <= files@.len(),
            n <= i,
            n + spec_remaining_count(files.deep_view(), removed.deep_view(), ext@, i as int)
                == total,
        decreases files@.len() - i,
    {
        let fext = ext_of(files[i].name.as_str());
        let gone = vec_contains_str(removed, files[i].name.as_str());
        if !gone && str_lower_eq(fext, ext) {
            n += 1;
        }
        i += 1;
    }
    n
}

} // verus!
