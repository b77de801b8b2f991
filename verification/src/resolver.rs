//! The dependency index and its queries.
//!
//! Two mappings are built together, both kept as association lists in
//! insertion order. The forward map takes a module name to its declared
//! requirement list, in file order with duplicates preserved; every module
//! recorded becomes a queryable node. The reverse map takes a dependency
//! name to the modules that declared it, and records an edge only when the
//! requirement resolved to a local module: external names are never reverse
//! keys, so that "toplevel" means "not depended upon by any scanned module".

use vstd::prelude::*;

use crate::feature::Feature;
use crate::feature::FeatureView;

verus! {

/// Mathematical model of the index: the two association lists, keyed by
/// name, in insertion order.
pub ghost struct DepResolverView {
    pub fwd: Seq<(Seq<char>, Seq<FeatureView>)>,
    pub rev: Seq<(Seq<char>, Seq<Seq<char>>)>,
}

/// Whether `k` is a key of the association list `m`.
pub open spec fn assoc_contains<V>(m: Seq<(Seq<char>, V)>, k: Seq<char>) -> bool {
    exists|i: int| 0 <= i < m.len() && m[i].0 == k
}

/// The value bound to `k` in `m`, taking the first binding.
pub open spec fn assoc_get<V>(m: Seq<(Seq<char>, V)>, k: Seq<char>) -> Option<V>
    decreases m.len(),
{
    if m.len() == 0 {
        None
    } else if m[0].0 == k {
        Some(m[0].1)
    } else {
        assoc_get(m.drop_first(), k)
    }
}

/// The position of the first binding of `k` in `m`.
pub open spec fn assoc_index<V>(m: Seq<(Seq<char>, V)>, k: Seq<char>) -> int
    decreases m.len(),
{
    if m.len() == 0 {
        0
    } else if m[0].0 == k {
        0
    } else {
        1 + assoc_index(m.drop_first(), k)
    }
}

/// No key is bound twice.
pub open spec fn distinct_keys<V>(m: Seq<(Seq<char>, V)>) -> bool {
    forall|i: int, j: int| 0 <= i < j < m.len() ==> m[i].0 != m[j].0
}

/// A binding at `i`, with no earlier binding of the same key, is the one
/// `assoc_get` returns.
pub proof fn lemma_assoc_get_at<V>(m: Seq<(Seq<char>, V)>, k: Seq<char>, i: int)
    requires
        0 <= i < m.len(),
        m[i].0 == k,
        forall|j: int| 0 <= j < i ==> m[j].0 != k,
    ensures
        assoc_get(m, k) == Some(m[i].1),
        assoc_index(m, k) == i,
    decreases i,
{
    if i > 0 {
        lemma_assoc_get_at(m.drop_first(), k, i - 1);
    }
}

/// A key bound nowhere has no value.
pub proof fn lemma_assoc_get_none<V>(m: Seq<(Seq<char>, V)>, k: Seq<char>)
    requires
        forall|j: int| 0 <= j < m.len() ==> m[j].0 != k,
    ensures
        assoc_get(m, k) is None,
    decreases m.len(),
{
    if m.len() > 0 {
        lemma_assoc_get_none(m.drop_first(), k);
    }
}

/// `assoc_get` finds a value exactly for the keys of the list, at the
/// position `assoc_index` gives.
pub proof fn lemma_assoc_contains_get<V>(m: Seq<(Seq<char>, V)>, k: Seq<char>)
    ensures
        assoc_contains(m, k) <==> assoc_get(m, k) is Some,
        assoc_contains(m, k) ==> {
            let i = assoc_index(m, k);
            0 <= i < m.len() && m[i].0 == k && assoc_get(m, k) == Some(m[i].1)
                && forall|j: int| 0 <= j < i ==> m[j].0 != k
        },
    decreases m.len(),
{
    if m.len() > 0 && m[0].0 != k {
        let d = m.drop_first();
        lemma_assoc_contains_get(d, k);
        assert(forall|j: int| 0 <= j < d.len() ==> d[j] == m[j + 1]);
        assert(assoc_contains(m, k) ==> assoc_contains(d, k)) by {
            if assoc_contains(m, k) {
                let i = choose|i: int| 0 <= i < m.len() && m[i].0 == k;
                assert(d[i - 1].0 == k);
            }
        }
        assert(assoc_contains(d, k) ==> assoc_contains(m, k)) by {
            if assoc_contains(d, k) {
                let i = choose|i: int| 0 <= i < d.len() && d[i].0 == k;
                assert(m[i + 1].0 == k);
            }
        }
        if assoc_contains(m, k) {
            let i = assoc_index(m, k);
            let id = assoc_index(d, k);
            assert(i == 1 + id);
            assert(m[i].0 == d[id].0);
            assert(forall|j: int| 0 <= j < i ==> m[j].0 != k) by {
                assert(forall|j: int| 1 <= j < i ==> m[j].0 == d[j - 1].0 && d[j - 1].0 != k);
            }
        }
    }
}

/// The dependency index: forward map (module name to its declared
/// requirement list) and reverse map (locally resolved dependency name to
/// the modules that declared it), both in insertion order.
pub struct DepResolver {
    pub cache: Vec<(String, Vec<Feature>)>,
    pub rev_cache: Vec<(String, Vec<String>)>,
}

impl View for DepResolver {
    type V = DepResolverView;

    open spec fn view(&self) -> DepResolverView {
        DepResolverView { fwd: self.cache.deep_view(), rev: self.rev_cache.deep_view() }
    }
}

impl DepResolver {
    /// Both maps bind each key at most once.
    pub open spec fn wf(&self) -> bool {
        distinct_keys(self@.fwd) && distinct_keys(self@.rev)
    }

    /// An empty index.
    pub fn new() -> (r: DepResolver)
        ensures
            r.wf(),
            r@.fwd == Seq::<(Seq<char>, Seq<FeatureView>)>::empty(),
            r@.rev == Seq::<(Seq<char>, Seq<Seq<char>>)>::empty(),
    {
        let r = DepResolver { cache: Vec::new(), rev_cache: Vec::new() };
        proof {
            assert(r@.fwd =~= Seq::<(Seq<char>, Seq<FeatureView>)>::empty());
            assert(r@.rev =~= Seq::<(Seq<char>, Seq<Seq<char>>)>::empty());
        }
        r
    }
}

/// One locally resolved edge `module -> dep` recorded in the reverse map:
/// the declaring module's name is appended to the existing binding of `dep`,
/// or a new binding is opened at the end.
pub open spec fn add_edge(
    rev: Seq<(Seq<char>, Seq<Seq<char>>)>,
    dep: Seq<char>,
    module: Seq<char>,
) -> Seq<(Seq<char>, Seq<Seq<char>>)> {
    if assoc_contains(rev, dep) {
        let i = assoc_index(rev, dep);
        rev.update(i, (dep, rev[i].1.push(module)))
    } else {
        rev.push((dep, seq![module]))
    }
}

/// The reverse-map effect of recording `module`'s requirement list: one
/// edge per locally resolved requirement, in list order; requirements that
/// did not resolve locally record nothing.
pub open spec fn add_edges(
    rev: Seq<(Seq<char>, Seq<Seq<char>>)>,
    module: Seq<char>,
    deps: Seq<FeatureView>,
) -> Seq<(Seq<char>, Seq<Seq<char>>)>
    decreases deps.len(),
{
    if deps.len() == 0 {
        rev
    } else {
        let rev1 = if deps[0].path is Some {
            add_edge(rev, deps[0].name, module)
        } else {
            rev
        };
        add_edges(rev1, module, deps.drop_first())
    }
}

/// Recording one more requirement at the end of the list applies its edge
/// after all earlier ones.
proof fn lemma_add_edges_push(
    rev: Seq<(Seq<char>, Seq<Seq<char>>)>,
    module: Seq<char>,
    deps: Seq<FeatureView>,
    d: FeatureView,
)
    ensures
        add_edges(rev, module, deps.push(d)) == (if d.path is Some {
            add_edge(add_edges(rev, module, deps), d.name, module)
        } else {
            add_edges(rev, module, deps)
        }),
    decreases deps.len(),
{
    if deps.len() == 0 {
        let e = Seq::<FeatureView>::empty();
        let rev1 = if d.path is Some {
            add_edge(rev, d.name, module)
        } else {
            rev
        };
        assert(deps.push(d)[0] == d);
        assert(deps.push(d).drop_first() =~= e);
        assert(add_edges(rev1, module, e) == rev1);
        assert(add_edges(rev, module, deps) == rev);
    } else {
        assert(deps.push(d)[0] == deps[0]);
        assert(deps.push(d).drop_first() =~= deps.drop_first().push(d));
        let rev1 = if deps[0].path is Some {
            add_edge(rev, deps[0].name, module)
        } else {
            rev
        };
        lemma_add_edges_push(rev1, module, deps.drop_first(), d);
        assert(add_edges(rev, module, deps.push(d)) == add_edges(
            rev1,
            module,
            deps.drop_first().push(d),
        ));
        assert(add_edges(rev, module, deps) == add_edges(rev1, module, deps.drop_first()));
    }
}

/// Recording an edge neither drops a key nor duplicates one: the keys
/// afterwards are the old keys plus the dependency's name.
proof fn lemma_add_edge_keys(
    rev: Seq<(Seq<char>, Seq<Seq<char>>)>,
    dep: Seq<char>,
    module: Seq<char>,
)
    requires
        distinct_keys(rev),
    ensures
        distinct_keys(add_edge(rev, dep, module)),
        forall|k: Seq<char>|
            assoc_contains(add_edge(rev, dep, module), k) <==> (assoc_contains(rev, k) || k
                == dep),
{
    let r = add_edge(rev, dep, module);
    if assoc_contains(rev, dep) {
        lemma_assoc_contains_get(rev, dep);
        assert(forall|j: int| 0 <= j < r.len() ==> r[j].0 == rev[j].0);
        assert forall|k: Seq<char>| assoc_contains(r, k) implies assoc_contains(rev, k) || k
            == dep by {
            let j = choose|j: int| 0 <= j < r.len() && r[j].0 == k;
            assert(rev[j].0 == k);
        }
        assert forall|k: Seq<char>| assoc_contains(rev, k) || k == dep implies assoc_contains(
            r,
            k,
        ) by {
            let j = choose|j: int| 0 <= j < rev.len() && rev[j].0 == k;
            assert(r[j].0 == k);
        }
    } else {
        assert(forall|j: int| 0 <= j < rev.len() ==> r[j] == rev[j]);
        assert(r[rev.len() as int].0 == dep);
        assert forall|k: Seq<char>| assoc_contains(r, k) implies assoc_contains(rev, k) || k
            == dep by {
            let j = choose|j: int| 0 <= j < r.len() && r[j].0 == k;
            if j < rev.len() {
                assert(rev[j].0 == k);
            }
        }
        assert forall|k: Seq<char>| assoc_contains(rev, k) || k == dep implies assoc_contains(
            r,
            k,
        ) by {
            if assoc_contains(rev, k) {
                let j = choose|j: int| 0 <= j < rev.len() && rev[j].0 == k;
                assert(r[j].0 == k);
            } else {
                assert(r[rev.len() as int].0 == k);
            }
        }
    }
}

/// Recording a whole requirement list keeps the reverse keys distinct.
proof fn lemma_add_edges_distinct(
    rev: Seq<(Seq<char>, Seq<Seq<char>>)>,
    module: Seq<char>,
    deps: Seq<FeatureView>,
)
    requires
        distinct_keys(rev),
    ensures
        distinct_keys(add_edges(rev, module, deps)),
    decreases deps.len(),
{
    if deps.len() > 0 {
        let rev1 = if deps[0].path is Some {
            add_edge(rev, deps[0].name, module)
        } else {
            rev
        };
        if deps[0].path is Some {
            lemma_add_edge_keys(rev, deps[0].name, module);
        }
        lemma_add_edges_distinct(rev1, module, deps.drop_first());
    }
}

impl DepResolver {
    /// Record one module's declared requirement list. The list becomes the
    /// module's forward entry, in file order with duplicates preserved, and
    /// each locally resolved requirement appends the module to that
    /// dependency's reverse entry, in insertion order.
    pub fn depend(&mut self, feat: &Feature, dependencies: Vec<Feature>)
        requires
            old(self).wf(),
            !assoc_contains(old(self)@.fwd, feat@.name),
        ensures
            final(self).wf(),
            final(self)@.fwd == old(self)@.fwd.push((feat@.name, dependencies.deep_view())),
            final(self)@.rev == add_edges(old(self)@.rev, feat@.name, dependencies.deep_view()),
    {
        let ghost dv = dependencies.deep_view();
        let n = dependencies.len();
        let mut i: usize = 0;
        while i < n
            invariant
                i <= n,
                n == dependencies@.len(),
                dv == dependencies.deep_view(),
                self.cache == old(self).cache,
                distinct_keys(self@.rev),
                self@.rev == add_edges(old(self)@.rev, feat@.name, dv.take(i as int)),
            decreases n - i,
        {
            proof {
                assert(dv.take(i + 1) =~= dv.take(i as int).push(dv[i as int]));
                lemma_add_edges_push(old(self)@.rev, feat@.name, dv.take(i as int), dv[i as int]);
            }
            let ghost pre_rev = self@.rev;
            let ghost pre_sh = self.rev_cache@;
            let dep = &dependencies[i];
            proof {
                assert(dv[i as int] == dependencies@[i as int].deep_view());
                assert(dep@ == dv[i as int]);
            }
            if dep.path.is_some() {
                proof {
                    assert(dep@.path is Some);
                }
                match find_key(&self.rev_cache, dep.name.as_str()) {
                    Some(idx) => {
                        proof {
                            assert(forall|j: int|
                                0 <= j < pre_rev.len() ==> pre_rev[j].0 == pre_sh[j].0@);
                            assert(pre_rev[idx as int].0 == dep@.name);
                            assert(forall|j: int| 0 <= j < idx ==> pre_rev[j].0 != dep@.name);
                            lemma_assoc_get_at(pre_rev, dep@.name, idx as int);
                            assert(assoc_contains(pre_rev, dep@.name));
                        }
                        let mut entry = self.rev_cache.remove(idx);
                        entry.1.push(feat.name.clone());
                        self.rev_cache.insert(idx, entry);
                        proof {
                            let upd = (
                                dep@.name,
                                pre_rev[idx as int].1.push(feat@.name),
                            );
                            assert(self.rev_cache@ =~= pre_sh.update(
                                idx as int,
                                self.rev_cache@[idx as int],
                            ));
                            assert(self.rev_cache@[idx as int].0 == pre_sh[idx as int].0);
                            assert(self.rev_cache@[idx as int].1@ =~= pre_sh[idx as int].1@.push(
                                feat.name,
                            ));
                            assert(self.rev_cache@[idx as int].deep_view().1 =~= upd.1);
                            assert(self@.rev =~= pre_rev.update(idx as int, upd));
                            lemma_add_edge_keys(pre_rev, dep@.name, feat@.name);
                        }
                    },
                    None => {
                        proof {
                            assert(forall|j: int|
                                0 <= j < pre_rev.len() ==> pre_rev[j].0 == pre_sh[j].0@);
                            assert(!assoc_contains(pre_rev, dep@.name));
                        }
                        let mut v: Vec<String> = Vec::new();
                        v.push(feat.name.clone());
                        self.rev_cache.push((dep.name.clone(), v));
                        proof {
                            let ne = (dep@.name, seq![feat@.name]);
                            assert(self.rev_cache@[pre_sh.len() as int].deep_view().1
                                =~= ne.1);
                            assert(self@.rev =~= pre_rev.push(ne));
                            lemma_add_edge_keys(pre_rev, dep@.name, feat@.name);
                        }
                    },
                }
            } else {
                proof {
                    assert(dep@.path is None);
                }
            }
            i += 1;
        }
        let ghost pre_fwd = self@.fwd;
        let ghost pre_cache = self.cache@;
        self.cache.push((feat.name.clone(), dependencies));
        proof {
            assert(dv.take(n as int) =~= dv);
            assert(self.cache@[pre_cache.len() as int].deep_view().1 =~= dv);
            assert(self@.fwd =~= pre_fwd.push((feat@.name, dv)));
            assert(distinct_keys(self@.fwd)) by {
                assert(forall|j: int|
                    0 <= j < pre_fwd.len() ==> self@.fwd[j].0 == pre_fwd[j].0);
                assert(forall|j: int| 0 <= j < pre_fwd.len() ==> pre_fwd[j].0 != feat@.name);
            }
        }
    }
}

/// Whether one stored requirement is reported by `dependencies_of`: the
/// module's own name is always left out, and under `local_only` only
/// requirements that resolved locally and whose module is still present
/// under the target directory are kept.
pub open spec fn keep_dep(
    d: FeatureView,
    module: Seq<char>,
    local_only: bool,
    present: Seq<Seq<char>>,
) -> bool {
    d.name != module && (!local_only || (d.path is Some && present.contains(d.name)))
}

/// The reported dependency names of a stored requirement list, in stored
/// order, duplicates preserved.
pub open spec fn filter_deps(
    deps: Seq<FeatureView>,
    module: Seq<char>,
    local_only: bool,
    present: Seq<Seq<char>>,
) -> Seq<Seq<char>>
    decreases deps.len(),
{
    if deps.len() == 0 {
        Seq::empty()
    } else {
        filter_deps(deps.drop_last(), module, local_only, present) + (if keep_dep(
            deps.last(),
            module,
            local_only,
            present,
        ) {
            seq![deps.last().name]
        } else {
            Seq::empty()
        })
    }
}

/// What `dependencies_of` returns: the module's stored requirement list
/// (empty for an unknown module), filtered as `keep_dep` says.
pub open spec fn deps_of_spec(
    v: DepResolverView,
    module: Seq<char>,
    local_only: bool,
    present: Seq<Seq<char>>,
) -> Seq<Seq<char>> {
    let stored = match assoc_get(v.fwd, module) {
        Some(l) => l,
        None => Seq::empty(),
    };
    filter_deps(stored, module, local_only, present)
}

/// The toplevel modules: forward keys in insertion order that are not
/// reverse keys, i.e. modules no scanned module locally depends on.
pub open spec fn toplevel_spec(
    fwd: Seq<(Seq<char>, Seq<FeatureView>)>,
    rev: Seq<(Seq<char>, Seq<Seq<char>>)>,
) -> Seq<Seq<char>>
    decreases fwd.len(),
{
    if fwd.len() == 0 {
        Seq::empty()
    } else {
        toplevel_spec(fwd.drop_last(), rev) + (if assoc_contains(rev, fwd.last().0) {
            Seq::empty()
        } else {
            seq![fwd.last().0]
        })
    }
}

/// The reverse map that inverting the forward map's locally resolved edges
/// yields, entry by entry in recording order.
pub open spec fn invert_local(fwd: Seq<(Seq<char>, Seq<FeatureView>)>) -> Seq<
    (Seq<char>, Seq<Seq<char>>),
>
    decreases fwd.len(),
{
    if fwd.len() == 0 {
        Seq::empty()
    } else {
        add_edges(invert_local(fwd.drop_last()), fwd.last().0, fwd.last().1)
    }
}

/// A name is toplevel exactly when it is a forward key and not a reverse
/// key.
pub proof fn lemma_toplevel_membership(
    fwd: Seq<(Seq<char>, Seq<FeatureView>)>,
    rev: Seq<(Seq<char>, Seq<Seq<char>>)>,
)
    ensures
        forall|k: Seq<char>|
            #[trigger] toplevel_spec(fwd, rev).contains(k) <==> (assoc_contains(fwd, k)
                && !assoc_contains(rev, k)),
    decreases fwd.len(),
{
    if fwd.len() > 0 {
        let d = fwd.drop_last();
        lemma_toplevel_membership(d, rev);
        let t = toplevel_spec(fwd, rev);
        let td = toplevel_spec(d, rev);
        assert forall|k: Seq<char>| #[trigger] t.contains(k) implies assoc_contains(fwd, k)
            && !assoc_contains(rev, k) by {
            let i = choose|i: int| 0 <= i < t.len() && t[i] == k;
            if i < td.len() {
                assert(td.contains(k));
                let j = choose|j: int| 0 <= j < d.len() && d[j].0 == k;
                assert(fwd[j].0 == k);
            } else {
                assert(k == fwd.last().0);
                assert(fwd[fwd.len() - 1].0 == k);
            }
        }
        assert forall|k: Seq<char>| assoc_contains(fwd, k) && !assoc_contains(rev, k)
            implies #[trigger] t.contains(k) by {
            let i = choose|i: int| 0 <= i < fwd.len() && fwd[i].0 == k;
            if i < fwd.len() - 1 {
                assert(d[i].0 == k);
                assert(assoc_contains(d, k));
                assert(td.contains(k));
                let j = choose|j: int| 0 <= j < td.len() && td[j] == k;
                assert(t[j] == k);
            } else {
                assert(!assoc_contains(rev, fwd.last().0));
                assert(t[td.len() as int] == k);
            }
        }
    }
}

/// A copy of a stored requirement list.
fn clone_features(v: &Vec<Feature>) -> (r: Vec<Feature>)
    ensures
        r.deep_view() == v.deep_view(),
{
    let n = v.len();
    let mut r: Vec<Feature> = Vec::new();
    let mut i: usize = 0;
    while i < n
        invariant
            i <= n,
            n == v@.len(),
            r.deep_view() =~= v.deep_view().take(i as int),
        decreases n - i,
    {
        let ghost pre = r.deep_view();
        let c = v[i].clone();
        proof {
            assert(c.deep_view() == v.deep_view()[i as int]);
        }
        r.push(c);
        proof {
            assert(r.deep_view() =~= pre.push(v.deep_view()[i as int]));
            assert(r.deep_view() =~= v.deep_view().take(i + 1));
        }
        i += 1;
    }
    proof {
        assert(v.deep_view().take(n as int) =~= v.deep_view());
    }
    r
}

impl DepResolver {
    /// The stored requirement list of a module, as recorded: unfiltered, in
    /// file order, duplicates preserved; empty for a module never recorded.
    pub fn dependencies(&self, feat: &Feature) -> (r: Vec<Feature>)
        ensures
            r.deep_view() == match assoc_get(self@.fwd, feat@.name) {
                Some(l) => l,
                None => Seq::<FeatureView>::empty(),
            },
    {
        match find_key(&self.cache, feat.name.as_str()) {
            Some(idx) => {
                proof {
                    assert(forall|j: int|
                        0 <= j < self@.fwd.len() ==> self@.fwd[j].0 == self.cache@[j].0@);
                    lemma_assoc_get_at(self@.fwd, feat@.name, idx as int);
                    assert(self@.fwd[idx as int].1 == self.cache@[idx as int].1.deep_view());
                }
                clone_features(&self.cache[idx].1)
            },
            None => {
                proof {
                    assert(forall|j: int|
                        0 <= j < self@.fwd.len() ==> self@.fwd[j].0 == self.cache@[j].0@);
                    lemma_assoc_get_none(self@.fwd, feat@.name);
                }
                let r: Vec<Feature> = Vec::new();
                proof {
                    assert(r.deep_view() =~= Seq::<FeatureView>::empty());
                }
                r
            },
        }
    }

    /// The reported dependency list of a module: the stored list with the
    /// module's own name left out and, under `local_only`, restricted to
    /// requirements that resolved locally and whose module name is in
    /// `local_present` — the names whose source file exists directly under
    /// the target scan directory at query time, as the caller found them.
    pub fn dependencies_of(&self, module: &str, local_only: bool, local_present: &Vec<String>)
        -> (r: Vec<String>)
        ensures
            r.deep_view() == deps_of_spec(self@, module@, local_only, local_present.deep_view()),
            !r.deep_view().contains(module@),
    {
        proof {
            crate::laws::lemma_no_self_dependency(
                self@,
                module@,
                local_only,
                local_present.deep_view(),
            );
        }
        let stored: Vec<Feature> = match find_key(&self.cache, module) {
            Some(idx) => {
                proof {
                    assert(forall|j: int|
                        0 <= j < self@.fwd.len() ==> self@.fwd[j].0 == self.cache@[j].0@);
                    lemma_assoc_get_at(self@.fwd, module@, idx as int);
                    assert(self@.fwd[idx as int].1 == self.cache@[idx as int].1.deep_view());
                }
                clone_features(&self.cache[idx].1)
            },
            None => {
                proof {
                    assert(forall|j: int|
                        0 <= j < self@.fwd.len() ==> self@.fwd[j].0 == self.cache@[j].0@);
                    lemma_assoc_get_none(self@.fwd, module@);
                }
                Vec::new()
            },
        };
        let ghost sv = stored.deep_view();
        proof {
            assert(sv == match assoc_get(self@.fwd, module@) {
                Some(l) => l,
                None => Seq::<FeatureView>::empty(),
            }) by {
                if assoc_get(self@.fwd, module@) is None {
                    assert(sv =~= Seq::<FeatureView>::empty());
                }
            }
        }
        let n = stored.len();
        let mut r: Vec<String> = Vec::new();
        let mut i: usize = 0;
        while i < n
            invariant
                i <= n,
                n == stored@.len(),
                sv == stored.deep_view(),
                r.deep_view() == filter_deps(
                    sv.take(i as int),
                    module@,
                    local_only,
                    local_present.deep_view(),
                ),
            decreases n - i,
        {
            let ghost pre = r.deep_view();
            proof {
                assert(sv.take(i + 1).drop_last() =~= sv.take(i as int));
                assert(sv.take(i + 1).last() == sv[i as int]);
            }
            let d = &stored[i];
            proof {
                assert(d@ == sv[i as int]);
            }
            let keep = !crate::feature::str_equal(d.name.as_str(), module) && (!local_only || (
            d.path.is_some() && crate::feature::contains_name(local_present, d.name.as_str())));
            proof {
                assert((d.path.is_some()) == (d@.path is Some));
                assert(keep == keep_dep(d@, module@, local_only, local_present.deep_view()));
            }
            if keep {
                r.push(d.name.clone());
                proof {
                    assert(r.deep_view() =~= pre.push(d@.name));
                    assert(pre.push(d@.name) =~= pre + seq![d@.name]);
                }
            } else {
                proof {
                    assert(pre + Seq::<Seq<char>>::empty() =~= pre);
                }
            }
            i += 1;
        }
        proof {
            assert(sv.take(n as int) =~= sv);
        }
        r
    }

    /// The toplevel modules: every recorded module that no other recorded
    /// module locally depends on, in recording order, each exactly once.
    pub fn toplevel_features(&self) -> (r: Vec<String>)
        ensures
            r.deep_view() == toplevel_spec(self@.fwd, self@.rev),
    {
        let n = self.cache.len();
        let mut r: Vec<String> = Vec::new();
        let mut i: usize = 0;
        while i < n
            invariant
                i <= n,
                n == self.cache@.len(),
                r.deep_view() == toplevel_spec(self@.fwd.take(i as int), self@.rev),
            decreases n - i,
        {
            let ghost pre = r.deep_view();
            proof {
                assert(self@.fwd.take(i + 1).drop_last() =~= self@.fwd.take(i as int));
                assert(self@.fwd.take(i + 1).last() == self@.fwd[i as int]);
            }
            let name = &self.cache[i].0;
            proof {
                assert(self@.fwd[i as int].0 == name@);
            }
            match find_key(&self.rev_cache, name.as_str()) {
                Some(idx) => {
                    proof {
                        assert(self@.rev[idx as int].0 == self.rev_cache@[idx as int].0@);
                        assert(self@.rev[idx as int].0 == name@);
                        assert(assoc_contains(self@.rev, name@));
                        assert(pre + Seq::<Seq<char>>::empty() =~= pre);
                    }
                },
                None => {
                    proof {
                        assert(forall|j: int|
                            0 <= j < self@.rev.len() ==> self@.rev[j].0 == self.rev_cache@[j].0@);
                        assert(!assoc_contains(self@.rev, name@));
                    }
                    r.push(name.clone());
                    proof {
                        assert(r.deep_view() =~= pre + seq![name@]);
                    }
                },
            }
            i += 1;
        }
        proof {
            assert(self@.fwd.take(n as int) =~= self@.fwd);
        }
        r
    }
}

/// Position of the first binding of `k` in an association vector, if any.
fn find_key<V>(m: &Vec<(String, V)>, k: &str) -> (r: Option<usize>)
    ensures
        match r {
            Some(i) => {
                &&& (i as int) < m@.len()
                &&& m@[i as int].0@ == k@
                &&& forall|j: int| 0 <= j < i ==> m@[j].0@ != k@
            },
            None => forall|j: int| 0 <= j < m@.len() ==> m@[j].0@ != k@,
        },
{
    let n = m.len();
    let mut i: usize = 0;
    while i < n
        invariant
            i <= n,
            n == m@.len(),
            forall|j: int| 0 <= j < i ==> m@[j].0@ != k@,
        decreases n - i,
    {
        if crate::feature::str_equal(m[i].0.as_str(), k) {
            return Some(i);
        }
        i += 1;
    }
    None
}

} // verus!
