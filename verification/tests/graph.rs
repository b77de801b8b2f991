use eldep::feature::Feature;
use eldep::index::gather_dependencies;
use eldep::index::ScannedModule;
use eldep::resolver::DepResolver;

fn module(name: &str, lines: &[&str]) -> ScannedModule {
    ScannedModule {
        name: name.to_string(),
        lines: Some(lines.iter().map(|l| l.to_string()).collect()),
    }
}

fn names(v: &[String], expect: &[&str]) -> bool {
    v.len() == expect.len() && v.iter().zip(expect.iter()).all(|(a, b)| a == b)
}

#[test]
fn scenario_three_modules() {
    // a requires b; b requires nothing; c requires a module that is absent.
    let modules = vec![
        module("a", &["(require 'b)"]),
        module("b", &[]),
        module("c", &["(require 'nonexistent)"]),
    ];
    let siblings = vec!["a".to_string(), "b".to_string(), "c".to_string()];
    let r = gather_dependencies(&modules, "d", &siblings);

    let a_deps = r.dependencies(&Feature::new("a", None));
    assert_eq!(a_deps.len(), 1);
    assert_eq!(a_deps[0].name(), "b");
    assert_eq!(a_deps[0].path_buf(), &Some("d/b.elc".to_string()));

    assert_eq!(r.dependencies(&Feature::new("b", None)).len(), 0);

    let c_deps = r.dependencies(&Feature::new("c", None));
    assert_eq!(c_deps.len(), 1);
    assert_eq!(c_deps[0].name(), "nonexistent");
    assert_eq!(c_deps[0].path_buf(), &None);

    assert!(names(&r.dependencies_of("c", false, &vec![]), &["nonexistent"]));
    assert!(names(&r.dependencies_of("c", true, &siblings), &[]));

    assert!(names(&r.toplevel_features(), &["a", "c"]));
}

#[test]
fn order_and_duplicates_preserved() {
    // x declares a, b, a and itself; self-reference is filtered, the rest
    // keeps declaration order and the duplicate.
    let modules = vec![
        module("x", &["(require 'a)", "(require 'b)", "(require 'a)", "(require 'x)"]),
        module("a", &[]),
        module("b", &[]),
    ];
    let siblings = vec!["x".to_string(), "a".to_string(), "b".to_string()];
    let r = gather_dependencies(&modules, "d", &siblings);
    assert!(names(&r.dependencies_of("x", false, &vec![]), &["a", "b", "a"]));
}

#[test]
fn local_only_excludes_files_gone_by_query_time() {
    // y and z both resolved when the index was built; by query time z's
    // file is gone from the target directory.
    let modules = vec![
        module("x", &["(require 'y)", "(require 'z)"]),
        module("y", &[]),
        module("z", &[]),
    ];
    let siblings = vec!["x".to_string(), "y".to_string(), "z".to_string()];
    let r = gather_dependencies(&modules, "d", &siblings);
    let present = vec!["x".to_string(), "y".to_string()];
    assert!(names(&r.dependencies_of("x", true, &present), &["y"]));
    assert!(names(&r.dependencies_of("x", false, &present), &["y", "z"]));
}

#[test]
fn unknown_module_has_no_dependencies() {
    let modules = vec![module("a", &[])];
    let siblings = vec!["a".to_string()];
    let r = gather_dependencies(&modules, "d", &siblings);
    assert_eq!(r.dependencies_of("ghost-module", false, &vec![]).len(), 0);
}

#[test]
fn unreadable_module_is_omitted_from_the_index() {
    let modules = vec![
        ScannedModule { name: "broken".to_string(), lines: None },
        module("a", &["(require 'broken)"]),
    ];
    let siblings = vec!["broken".to_string(), "a".to_string()];
    let r = gather_dependencies(&modules, "d", &siblings);
    // broken contributes no forward entry ...
    assert_eq!(r.dependencies(&Feature::new("broken", None)).len(), 0);
    // ... but its file was present, so a's requirement still resolved
    // locally, and broken is depended upon, hence not toplevel.
    assert!(names(&r.toplevel_features(), &["a"]));
}

#[test]
fn depended_upon_module_is_not_toplevel() {
    let modules = vec![
        module("app", &["(require 'lib)"]),
        module("lib", &["(require 'util)"]),
        module("util", &[]),
    ];
    let siblings = vec!["app".to_string(), "lib".to_string(), "util".to_string()];
    let r = gather_dependencies(&modules, "d", &siblings);
    // Only app is toplevel: lib and util are dependency targets, and with
    // no external requirement the toplevel and depended-upon modules
    // partition the scanned set.
    assert!(names(&r.toplevel_features(), &["app"]));
}

#[test]
fn external_requirement_never_blocks_toplevel() {
    // b requires an absent module; that external name must not make any
    // scanned module non-toplevel.
    let modules = vec![module("a", &[]), module("b", &["(require 'a)", "(require 'gone)"])];
    let siblings = vec!["a".to_string(), "b".to_string()];
    let r = gather_dependencies(&modules, "d", &siblings);
    assert!(names(&r.toplevel_features(), &["b"]));
}

#[test]
fn depend_records_reverse_edges_for_local_features_only() {
    let mut r = DepResolver::new();
    let a = Feature::new("a", None);
    let deps = vec![
        Feature::new("b", Some("d/b.elc".to_string())),
        Feature::new("ext", None),
    ];
    r.depend(&a, deps);
    let b_holder = Feature::new("b", None);
    r.depend(&b_holder, vec![]);
    let ext_holder = Feature::new("ext", None);
    r.depend(&ext_holder, vec![]);
    // b is depended upon; ext was not locally resolved, so it stays
    // toplevel even though a declared it.
    let tops = r.toplevel_features();
    assert!(names(&tops, &["a", "ext"]));
}
