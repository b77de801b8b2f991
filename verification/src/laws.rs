//! Structural laws of the dependency index and its queries, proved once
//! over the mathematical model, so they hold of every run.

use vstd::prelude::*;

use crate::feature::FeatureView;
use crate::resolver::DepResolverView;
use crate::resolver::assoc_contains;
use crate::resolver::assoc_get;
use crate::resolver::deps_of_spec;
use crate::resolver::filter_deps;
use crate::resolver::keep_dep;
use crate::resolver::toplevel_spec;
use crate::resolver::distinct_keys;
use crate::resolver::invert_local;
use crate::resolver::lemma_toplevel_membership;
use crate::index::ScannedModuleView;
use crate::index::gather_spec;
use crate::index::module_report_spec;
use crate::index::toplevel_report_spec;
use crate::parser::extract_spec;

verus! {

/// The reported dependencies of a filtered requirement list never include
/// the module's own name.
proof fn lemma_filter_no_self(
    deps: Seq<FeatureView>,
    module: Seq<char>,
    local_only: bool,
    present: Seq<Seq<char>>,
)
    ensures
        !filter_deps(deps, module, local_only, present).contains(module),
    decreases deps.len(),
{
    if deps.len() > 0 {
        lemma_filter_no_self(deps.drop_last(), module, local_only, present);
        let f = filter_deps(deps, module, local_only, present);
        let fd = filter_deps(deps.drop_last(), module, local_only, present);
        if f.contains(module) {
            let i = choose|i: int| 0 <= i < f.len() && f[i] == module;
            if i < fd.len() {
                assert(fd.contains(module));
            } else {
                assert(keep_dep(deps.last(), module, local_only, present));
                assert(f[i] == deps.last().name);
            }
        }
    }
}

/// A module's own name never appears in its own reported dependency list,
/// whatever the stored list, the filtering mode and the present set.
pub proof fn lemma_no_self_dependency(
    v: DepResolverView,
    module: Seq<char>,
    local_only: bool,
    present: Seq<Seq<char>>,
)
    ensures
        !deps_of_spec(v, module, local_only, present).contains(module),
{
    let stored = match assoc_get(v.fwd, module) {
        Some(l) => l,
        None => Seq::<FeatureView>::empty(),
    };
    lemma_filter_no_self(stored, module, local_only, present);
}

/// A name some module locally depends on — a reverse key — is never
/// reported toplevel.
pub proof fn lemma_dependency_target_not_toplevel(v: DepResolverView, d: Seq<char>)
    requires
        assoc_contains(v.rev, d),
    ensures
        !toplevel_spec(v.fwd, v.rev).contains(d),
{
    lemma_toplevel_membership(v.fwd, v.rev);
}

/// When every dependency target is itself a recorded module — no external
/// requirements resolved anywhere — the toplevel modules and the
/// depended-upon modules partition the recorded modules exactly: together
/// they cover every forward key, and no module is both.
pub proof fn lemma_toplevel_partition(v: DepResolverView)
    requires
        forall|k: Seq<char>| #[trigger] assoc_contains(v.rev, k) ==> assoc_contains(v.fwd, k),
    ensures
        forall|k: Seq<char>| #[trigger] assoc_contains(v.fwd, k) <==> (toplevel_spec(
            v.fwd,
            v.rev,
        ).contains(k) || assoc_contains(v.rev, k)),
        forall|k: Seq<char>|
            !(#[trigger] toplevel_spec(v.fwd, v.rev).contains(k) && assoc_contains(v.rev, k)),
{
    lemma_toplevel_membership(v.fwd, v.rev);
}

/// Without `local_only`, the reported list is the stored requirement names
/// filtered only by self-exclusion: order and duplicates are preserved, and
/// the query-time present set plays no part.
pub proof fn lemma_order_and_duplicates_preserved(
    deps: Seq<FeatureView>,
    module: Seq<char>,
    present: Seq<Seq<char>>,
)
    ensures
        filter_deps(deps, module, false, present) == deps.map_values(
            |d: FeatureView| d.name,
        ).filter(|n: Seq<char>| n != module),
    decreases deps.len(),
{
    reveal(Seq::filter);
    let names = deps.map_values(|d: FeatureView| d.name);
    if deps.len() == 0 {
        assert(names =~= Seq::<Seq<char>>::empty());
    } else {
        lemma_order_and_duplicates_preserved(deps.drop_last(), module, present);
        assert(names.drop_last() =~= deps.drop_last().map_values(|d: FeatureView| d.name));
        assert(names.last() == deps.last().name);
        if keep_dep(deps.last(), module, false, present) {
            assert(filter_deps(deps, module, false, present) =~= names.drop_last().filter(
                |n: Seq<char>| n != module,
            ).push(names.last()));
        } else {
            assert(filter_deps(deps, module, false, present) + Seq::<Seq<char>>::empty()
                =~= filter_deps(deps, module, false, present));
        }
    }
}

/// Under `local_only`, every reported dependency name is in the query-time
/// present set: a module whose file is gone by query time is excluded, even
/// where it resolved at build time.
pub proof fn lemma_local_only_reports_present(
    v: DepResolverView,
    module: Seq<char>,
    present: Seq<Seq<char>>,
)
    ensures
        forall|n: Seq<char>|
            #[trigger] deps_of_spec(v, module, true, present).contains(n) ==> present.contains(n),
{
    let stored = match assoc_get(v.fwd, module) {
        Some(l) => l,
        None => Seq::<FeatureView>::empty(),
    };
    lemma_filter_local_only_present(stored, module, present);
}

/// Filtering with `local_only` keeps only names of the present set.
proof fn lemma_filter_local_only_present(
    deps: Seq<FeatureView>,
    module: Seq<char>,
    present: Seq<Seq<char>>,
)
    ensures
        forall|n: Seq<char>|
            #[trigger] filter_deps(deps, module, true, present).contains(n) ==> present.contains(
                n,
            ),
    decreases deps.len(),
{
    if deps.len() > 0 {
        lemma_filter_local_only_present(deps.drop_last(), module, present);
        let f = filter_deps(deps, module, true, present);
        let fd = filter_deps(deps.drop_last(), module, true, present);
        assert forall|n: Seq<char>| #[trigger] f.contains(n) implies present.contains(n) by {
            let i = choose|i: int| 0 <= i < f.len() && f[i] == n;
            if i < fd.len() {
                assert(fd.contains(n));
            } else {
                assert(keep_dep(deps.last(), module, true, present));
                assert(f[i] == deps.last().name);
            }
        }
    }
}

/// With distinct forward keys, the toplevel listing names every qualifying
/// module exactly once.
pub proof fn lemma_toplevel_no_duplicates(
    fwd: Seq<(Seq<char>, Seq<FeatureView>)>,
    rev: Seq<(Seq<char>, Seq<Seq<char>>)>,
)
    requires
        distinct_keys(fwd),
    ensures
        forall|i: int, j: int|
            0 <= i < j < toplevel_spec(fwd, rev).len() ==> toplevel_spec(fwd, rev)[i]
                != toplevel_spec(fwd, rev)[j],
    decreases fwd.len(),
{
    if fwd.len() > 0 {
        let d = fwd.drop_last();
        assert(distinct_keys(d)) by {
            assert(forall|i: int| 0 <= i < d.len() ==> d[i] == fwd[i]);
        }
        lemma_toplevel_no_duplicates(d, rev);
        lemma_toplevel_membership(d, rev);
        let t = toplevel_spec(fwd, rev);
        let td = toplevel_spec(d, rev);
        assert forall|i: int, j: int| 0 <= i < j < t.len() implies t[i] != t[j] by {
            if j < td.len() {
                assert(t[i] == td[i] && t[j] == td[j]);
            } else {
                assert(t[j] == fwd.last().0);
                assert(t[i] == td[i]);
                assert(td.contains(td[i]));
                if td[i] == fwd.last().0 {
                    let l = choose|l: int| 0 <= l < d.len() && d[l].0 == fwd.last().0;
                    assert(fwd[l].0 == fwd[fwd.len() - 1].0);
                }
            }
        }
    }
}

/// The reverse map is derived data: for any scan, inverting the locally
/// resolved edges of the forward map the scan records, entry by entry in
/// recording order, reconstructs the reverse map exactly.
pub proof fn lemma_reverse_is_derived(
    ms: Seq<ScannedModuleView>,
    dir: Seq<char>,
    siblings: Seq<Seq<char>>,
)
    ensures
        gather_spec(ms, dir, siblings).rev == invert_local(gather_spec(ms, dir, siblings).fwd),
    decreases ms.len(),
{
    if ms.len() > 0 {
        lemma_reverse_is_derived(ms.drop_last(), dir, siblings);
        let prev = gather_spec(ms.drop_last(), dir, siblings);
        match ms.last().lines {
            None => {},
            Some(ls) => {
                let e = (ms.last().name, extract_spec(ls, dir, siblings));
                assert(prev.fwd.push(e).drop_last() =~= prev.fwd);
                assert(prev.fwd.push(e).last() == e);
            },
        }
    }
}

/// The whole build is a function of the scan data alone: two runs over
/// equal scan data, with equal options and equal present sets, report
/// equally — on an unchanged directory the output is identical.
pub proof fn lemma_run_deterministic(
    ms1: Seq<ScannedModuleView>,
    ms2: Seq<ScannedModuleView>,
    dir: Seq<char>,
    siblings: Seq<Seq<char>>,
    local_only: bool,
    present: Seq<Seq<char>>,
)
    requires
        ms1 == ms2,
    ensures
        module_report_spec(ms1, dir, siblings, local_only, present) == module_report_spec(
            ms2,
            dir,
            siblings,
            local_only,
            present,
        ),
        toplevel_report_spec(ms1, dir, siblings) == toplevel_report_spec(ms2, dir, siblings),
{
}

} // verus!
