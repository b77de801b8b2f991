//! A `Feature` is a reference to a requirement or module: its bare name and,
//! when a sibling module file with that name is present, the location of the
//! compiled artifact derived from that sibling (the source suffix `el`
//! rewritten to the artifact suffix `elc`). A missing location means the
//! requirement names a module not present among the scanned files.

use vstd::prelude::*;

verus! {

/// Mathematical model of a `Feature`: the name and the optional resolved
/// artifact location, both as character sequences.
pub ghost struct FeatureView {
    pub name: Seq<char>,
    pub path: Option<Seq<char>>,
}

/// A requirement or module reference. Identity for graph purposes is by
/// `name` alone; `path` records how the reference resolved.
pub struct Feature {
    pub name: String,
    pub path: Option<String>,
}

impl View for Feature {
    type V = FeatureView;

    open spec fn view(&self) -> FeatureView {
        FeatureView {
            name: self.name@,
            path: match self.path {
                Some(p) => Some(p@),
                None => None,
            },
        }
    }
}

impl DeepView for Feature {
    type V = FeatureView;

    open spec fn deep_view(&self) -> FeatureView {
        self.view()
    }
}

impl Feature {
    /// Build a reference from a name and an optional resolved location.
    pub fn new(name: &str, path: Option<String>) -> (f: Feature)
        ensures
            f@.name == name@,
            f@.path == path.deep_view(),
    {
        Feature { name: String::from_str(name), path }
    }

    /// The bare name as declared.
    pub fn name(&self) -> (r: &str)
        ensures
            r@ == self@.name,
    {
        self.name.as_str()
    }

    /// The resolved artifact location, if the requirement resolved locally.
    pub fn path_buf(&self) -> (r: &Option<String>)
        ensures
            r.deep_view() == self@.path,
    {
        &self.path
    }
}

impl Clone for Feature {
    fn clone(&self) -> (r: Self)
        ensures
            r@ == self@,
    {
        Feature {
            name: self.name.clone(),
            path: match &self.path {
                Some(p) => Some(p.clone()),
                None => None,
            },
        }
    }
}

/// The artifact location recorded for a locally resolved requirement:
/// `<dir>/<name>.elc`.
pub open spec fn artifact_path(dir: Seq<char>, name: Seq<char>) -> Seq<char> {
    dir + seq!['/'] + name + seq!['.', 'e', 'l', 'c']
}

/// How a requirement token resolves against the modules present beside the
/// declaring module: local when a sibling module of that name exists, with
/// the artifact location recorded; external (no location) otherwise.
pub open spec fn resolve_spec(name: Seq<char>, dir: Seq<char>, siblings: Seq<Seq<char>>)
    -> FeatureView {
    FeatureView {
        name,
        path: if siblings.contains(name) {
            Some(artifact_path(dir, name))
        } else {
            None
        },
    }
}

/// Whether `name` occurs in `names`.
pub fn contains_name(names: &Vec<String>, name: &str) -> (b: bool)
    ensures
        b == names.deep_view().contains(name@),
{
    let n = names.len();
    let mut i: usize = 0;
    while i < n
        invariant
            i <= n,
            n == names@.len(),
            forall|j: int| 0 <= j < i ==> names.deep_view()[j] != name@,
        decreases n - i,
    {
        if str_equal(names[i].as_str(), name) {
            assert(names.deep_view()[i as int] == name@);
            return true;
        }
        i += 1;
    }
    false
}

/// Character-for-character equality of two string slices.
pub fn str_equal(a: &str, b: &str) -> (r: bool)
    ensures
        r == (a@ == b@),
{
    let na = a.unicode_len();
    let nb = b.unicode_len();
    if na != nb {
        return false;
    }
    let mut i: usize = 0;
    while i < na
        invariant
            i <= na,
            na == a@.len(),
            na == b@.len(),
            forall|j: int| 0 <= j < i ==> a@[j] == b@[j],
        decreases na - i,
    {
        if a.get_char(i) != b.get_char(i) {
            return false;
        }
        i += 1;
    }
    assert(a@ =~= b@);
    true
}

/// Build the artifact location `<dir>/<name>.elc` for a locally resolved
/// requirement.
pub fn make_artifact_path(dir: &str, name: &str) -> (r: String)
    ensures
        r@ == artifact_path(dir@, name@),
{
    proof {
        reveal_strlit("/");
        reveal_strlit(".elc");
        assert("/"@ =~= seq!['/']);
        assert(".elc"@ =~= seq!['.', 'e', 'l', 'c']);
    }
    let mut r = String::from_str(dir);
    r.append("/");
    r.append(name);
    r.append(".elc");
    assert(r@ =~= artifact_path(dir@, name@));
    r
}

/// Resolve one requirement token against the sibling modules present in the
/// declaring module's directory.
pub fn resolve_requirement(name: &str, dir: &str, siblings: &Vec<String>) -> (f: Feature)
    ensures
        f@ == resolve_spec(name@, dir@, siblings.deep_view()),
{
    if contains_name(siblings, name) {
        Feature::new(name, Some(make_artifact_path(dir, name)))
    } else {
        Feature::new(name, None)
    }
}

} // verus!
