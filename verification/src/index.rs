//! Building the index from a directory scan, and answering one run's
//! requested report.
//!
//! The caller scans the target directory and hands over, for each module
//! file found, its name and its source lines — or no lines, where the file
//! could not be read. A module whose lines could not be read contributes no
//! forward entry and no edges; the remaining modules are indexed unaffected.

use vstd::prelude::*;

use crate::feature::Feature;
use crate::parser::extract_spec;
use crate::parser::extract_requires;
use crate::resolver::DepResolver;
use crate::resolver::DepResolverView;
use crate::resolver::add_edges;
use crate::resolver::assoc_contains;
use crate::resolver::deps_of_spec;
use crate::resolver::toplevel_spec;

verus! {

/// Mathematical model of one scanned module: its name and its source
/// lines, or no lines where the file could not be read.
pub ghost struct ScannedModuleView {
    pub name: Seq<char>,
    pub lines: Option<Seq<Seq<char>>>,
}

/// One module file found by the directory scan: the base name without the
/// source suffix, and the file's text lines in original order — `None`
/// where the file could not be read, which leaves the module out of the
/// index without stopping the run.
pub struct ScannedModule {
    pub name: String,
    pub lines: Option<Vec<String>>,
}

impl View for ScannedModule {
    type V = ScannedModuleView;

    open spec fn view(&self) -> ScannedModuleView {
        ScannedModuleView {
            name: self.name@,
            lines: match self.lines {
                Some(ls) => Some(ls.deep_view()),
                None => None,
            },
        }
    }
}

impl DeepView for ScannedModule {
    type V = ScannedModuleView;

    open spec fn deep_view(&self) -> ScannedModuleView {
        self.view()
    }
}

/// The recognized run options: restrict reported dependencies to modules
/// still present locally, or report only the toplevel modules.
pub struct Options {
    pub local_only: bool,
    pub toplevel: bool,
}

/// No two scanned modules share a name — files directly in one directory
/// are distinct.
pub open spec fn distinct_names(ms: Seq<ScannedModuleView>) -> bool {
    forall|i: int, j: int| 0 <= i < j < ms.len() ==> ms[i].name != ms[j].name
}

/// The index a scan builds: each readable module's requirement list is
/// recorded in scan order; unreadable modules are left out.
pub open spec fn gather_spec(
    ms: Seq<ScannedModuleView>,
    dir: Seq<char>,
    siblings: Seq<Seq<char>>,
) -> DepResolverView
    decreases ms.len(),
{
    if ms.len() == 0 {
        DepResolverView {
            fwd: Seq::empty(),
            rev: Seq::empty(),
        }
    } else {
        let prev = gather_spec(ms.drop_last(), dir, siblings);
        match ms.last().lines {
            None => prev,
            Some(ls) => DepResolverView {
                fwd: prev.fwd.push((ms.last().name, extract_spec(ls, dir, siblings))),
                rev: add_edges(prev.rev, ms.last().name, extract_spec(ls, dir, siblings)),
            },
        }
    }
}

/// Every forward key the scan records is the name of a scanned module.
pub proof fn lemma_gather_fwd_keys(
    ms: Seq<ScannedModuleView>,
    dir: Seq<char>,
    siblings: Seq<Seq<char>>,
)
    ensures
        forall|k: Seq<char>|
            #[trigger] assoc_contains(gather_spec(ms, dir, siblings).fwd, k) ==> exists|i: int|
                0 <= i < ms.len() && ms[i].name == k,
    decreases ms.len(),
{
    if ms.len() > 0 {
        let d = ms.drop_last();
        lemma_gather_fwd_keys(d, dir, siblings);
        let prev = gather_spec(d, dir, siblings);
        let cur = gather_spec(ms, dir, siblings);
        assert forall|k: Seq<char>| #[trigger] assoc_contains(cur.fwd, k) implies exists|i: int|
            0 <= i < ms.len() && ms[i].name == k by {
            let j = choose|j: int| 0 <= j < cur.fwd.len() && cur.fwd[j].0 == k;
            if ms.last().lines is Some && j == cur.fwd.len() - 1 {
                assert(ms[ms.len() - 1].name == k);
            } else {
                assert(prev.fwd[j].0 == k);
                assert(assoc_contains(prev.fwd, k));
                let i = choose|i: int| 0 <= i < d.len() && d[i].name == k;
                assert(ms[i].name == k);
            }
        }
    }
}

/// Build the index over one directory scan: run extraction and resolution
/// for each readable module and record the outcome, in scan order.
pub fn gather_dependencies(modules: &Vec<ScannedModule>, dir: &str, siblings: &Vec<String>)
    -> (r: DepResolver)
    requires
        distinct_names(modules.deep_view()),
    ensures
        r.wf(),
        r@ == gather_spec(modules.deep_view(), dir@, siblings.deep_view()),
{
    let ghost mv = modules.deep_view();
    let mut depgraph = DepResolver::new();
    proof {
        assert(depgraph@ == gather_spec(mv.take(0), dir@, siblings.deep_view())) by {
            assert(mv.take(0) =~= Seq::<ScannedModuleView>::empty());
        }
    }
    let n = modules.len();
    let mut i: usize = 0;
    while i < n
        invariant
            i <= n,
            n == modules@.len(),
            mv == modules.deep_view(),
            distinct_names(mv),
            depgraph.wf(),
            depgraph@ == gather_spec(mv.take(i as int), dir@, siblings.deep_view()),
        decreases n - i,
    {
        proof {
            assert(mv.take(i + 1).drop_last() =~= mv.take(i as int));
            assert(mv.take(i + 1).last() == mv[i as int]);
        }
        let m = &modules[i];
        proof {
            assert(m@ == mv[i as int]);
        }
        match &m.lines {
            Some(lines) => {
                let feats = extract_requires(lines, dir, siblings);
                let feat = Feature::new(m.name.as_str(), None);
                proof {
                    lemma_gather_fwd_keys(mv.take(i as int), dir@, siblings.deep_view());
                    assert(!assoc_contains(depgraph@.fwd, m@.name)) by {
                        if assoc_contains(depgraph@.fwd, m@.name) {
                            let j = choose|j: int|
                                0 <= j < mv.take(i as int).len() && mv.take(i as int)[j].name
                                    == m@.name;
                            assert(mv[j].name == mv[i as int].name);
                        }
                    }
                }
                depgraph.depend(&feat, feats);
            },
            None => {},
        }
        i += 1;
    }
    proof {
        assert(mv.take(n as int) =~= mv);
    }
    depgraph
}

/// Mathematical model of one reported line: a module and its reported
/// dependency names.
pub ghost struct ModuleDepsView {
    pub name: Seq<char>,
    pub deps: Seq<Seq<char>>,
}

/// One line of the per-module report: a scanned module's name and its
/// reported dependency names, filtered as the options say.
pub struct ModuleDeps {
    pub name: String,
    pub deps: Vec<String>,
}

impl View for ModuleDeps {
    type V = ModuleDepsView;

    open spec fn view(&self) -> ModuleDepsView {
        ModuleDepsView { name: self.name@, deps: self.deps.deep_view() }
    }
}

impl DeepView for ModuleDeps {
    type V = ModuleDepsView;

    open spec fn deep_view(&self) -> ModuleDepsView {
        self.view()
    }
}

/// A whole run's result: one entry per scanned module, or only the
/// toplevel module names, as the options requested.
pub enum Report {
    Modules(Vec<ModuleDeps>),
    Toplevel(Vec<String>),
}

/// The per-module report of a scan: every scanned module in scan order,
/// readable or not, with its reported dependency names.
pub open spec fn module_report_spec(
    ms: Seq<ScannedModuleView>,
    dir: Seq<char>,
    siblings: Seq<Seq<char>>,
    local_only: bool,
    present: Seq<Seq<char>>,
) -> Seq<ModuleDepsView> {
    let idx = gather_spec(ms, dir, siblings);
    Seq::new(
        ms.len(),
        |i: int| ModuleDepsView {
            name: ms[i].name,
            deps: deps_of_spec(idx, ms[i].name, local_only, present),
        },
    )
}

/// The toplevel report of a scan.
pub open spec fn toplevel_report_spec(
    ms: Seq<ScannedModuleView>,
    dir: Seq<char>,
    siblings: Seq<Seq<char>>,
) -> Seq<Seq<char>> {
    let idx = gather_spec(ms, dir, siblings);
    toplevel_spec(idx.fwd, idx.rev)
}

/// Run the whole build over one directory scan and answer the requested
/// report. `siblings` holds the module names whose source file sat beside
/// the scanned modules at build time; `local_present` holds the names whose
/// source file exists directly under the target directory at query time —
/// the two existence checks are deliberately independent.
pub fn resolve_dependencies(
    modules: &Vec<ScannedModule>,
    dir: &str,
    siblings: &Vec<String>,
    opts: &Options,
    local_present: &Vec<String>,
) -> (r: Report)
    requires
        distinct_names(modules.deep_view()),
    ensures
        opts.toplevel ==> (r matches Report::Toplevel(names) && names.deep_view()
            == toplevel_report_spec(modules.deep_view(), dir@, siblings.deep_view())),
        !opts.toplevel ==> (r matches Report::Modules(list) && list.deep_view()
            == module_report_spec(
            modules.deep_view(),
            dir@,
            siblings.deep_view(),
            opts.local_only,
            local_present.deep_view(),
        )),
{
    let ghost mv = modules.deep_view();
    let resolver = gather_dependencies(modules, dir, siblings);
    if opts.toplevel {
        Report::Toplevel(resolver.toplevel_features())
    } else {
        let ghost expect = module_report_spec(
            mv,
            dir@,
            siblings.deep_view(),
            opts.local_only,
            local_present.deep_view(),
        );
        let n = modules.len();
        let mut list: Vec<ModuleDeps> = Vec::new();
        let mut i: usize = 0;
        while i < n
            invariant
                i <= n,
                n == modules@.len(),
                mv == modules.deep_view(),
                resolver@ == gather_spec(mv, dir@, siblings.deep_view()),
                expect == module_report_spec(
                    mv,
                    dir@,
                    siblings.deep_view(),
                    opts.local_only,
                    local_present.deep_view(),
                ),
                list.deep_view() =~= expect.take(i as int),
            decreases n - i,
        {
            let ghost pre = list.deep_view();
            let m = &modules[i];
            proof {
                assert(m@ == mv[i as int]);
            }
            let deps = resolver.dependencies_of(m.name.as_str(), opts.local_only, local_present);
            let entry = ModuleDeps { name: m.name.clone(), deps };
            list.push(entry);
            proof {
                assert(list.deep_view() =~= pre.push(expect[i as int]));
                assert(list.deep_view() =~= expect.take(i + 1));
            }
            i += 1;
        }
        proof {
            assert(expect.take(n as int) =~= expect);
            assert(list.deep_view() == expect);
        }
        Report::Modules(list)
    }
}

} // verus!
