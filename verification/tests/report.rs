use eldep::index::resolve_dependencies;
use eldep::index::Options;
use eldep::index::Report;
use eldep::index::ScannedModule;

fn module(name: &str, lines: &[&str]) -> ScannedModule {
    ScannedModule {
        name: name.to_string(),
        lines: Some(lines.iter().map(|l| l.to_string()).collect()),
    }
}

fn per_module(r: Report) -> Vec<(String, Vec<String>)> {
    match r {
        Report::Modules(list) => list.into_iter().map(|e| (e.name, e.deps)).collect(),
        Report::Toplevel(_) => panic!("expected a per-module report"),
    }
}

fn toplevel(r: Report) -> Vec<String> {
    match r {
        Report::Toplevel(names) => names,
        Report::Modules(_) => panic!("expected a toplevel report"),
    }
}

#[test]
fn empty_directory_reports_nothing() {
    let modules: Vec<ScannedModule> = vec![];
    let siblings: Vec<String> = vec![];
    let opts = Options { local_only: false, toplevel: false };
    let r = resolve_dependencies(&modules, "d", &siblings, &opts, &vec![]);
    assert_eq!(per_module(r).len(), 0);
    let opts = Options { local_only: false, toplevel: true };
    let r = resolve_dependencies(&modules, "d", &siblings, &opts, &vec![]);
    assert_eq!(toplevel(r).len(), 0);
}

#[test]
fn per_module_report_covers_every_scanned_module() {
    let modules = vec![
        module("a", &["(require 'b)"]),
        module("b", &[]),
        module("c", &["(require 'nonexistent)"]),
        ScannedModule { name: "broken".to_string(), lines: None },
    ];
    let siblings = vec![
        "a".to_string(),
        "b".to_string(),
        "c".to_string(),
        "broken".to_string(),
    ];
    let opts = Options { local_only: false, toplevel: false };
    let r = resolve_dependencies(&modules, "d", &siblings, &opts, &vec![]);
    let lines = per_module(r);
    assert_eq!(lines.len(), 4);
    assert_eq!(lines[0], ("a".to_string(), vec!["b".to_string()]));
    assert_eq!(lines[1], ("b".to_string(), vec![]));
    assert_eq!(lines[2], ("c".to_string(), vec!["nonexistent".to_string()]));
    // The unreadable module still gets a line, with no dependencies.
    assert_eq!(lines[3], ("broken".to_string(), vec![]));
}

#[test]
fn toplevel_report_lists_undepended_modules() {
    let modules = vec![
        module("a", &["(require 'b)"]),
        module("b", &[]),
        module("c", &["(require 'nonexistent)"]),
    ];
    let siblings = vec!["a".to_string(), "b".to_string(), "c".to_string()];
    let opts = Options { local_only: false, toplevel: true };
    let r = resolve_dependencies(&modules, "d", &siblings, &opts, &vec![]);
    assert_eq!(toplevel(r), vec!["a".to_string(), "c".to_string()]);
}

#[test]
fn local_only_report_excludes_absent_files() {
    let modules = vec![
        module("x", &["(require 'y)", "(require 'z)"]),
        module("y", &[]),
        module("z", &[]),
    ];
    let siblings = vec!["x".to_string(), "y".to_string(), "z".to_string()];
    let present = vec!["x".to_string(), "y".to_string()];
    let opts = Options { local_only: true, toplevel: false };
    let r = resolve_dependencies(&modules, "d", &siblings, &opts, &present);
    let lines = per_module(r);
    assert_eq!(lines[0], ("x".to_string(), vec!["y".to_string()]));
}

#[test]
fn unchanged_input_reports_identically() {
    let make_modules = || {
        vec![
            module("a", &["(require 'b)", "(require 'cl-lib)"]),
            module("b", &["(require 'a)"]),
        ]
    };
    let siblings = vec!["a".to_string(), "b".to_string()];
    let opts = Options { local_only: false, toplevel: false };
    let first = per_module(resolve_dependencies(&make_modules(), "d", &siblings, &opts, &vec![]));
    let second = per_module(resolve_dependencies(&make_modules(), "d", &siblings, &opts, &vec![]));
    assert_eq!(first, second);
    let opts = Options { local_only: false, toplevel: true };
    let first = toplevel(resolve_dependencies(&make_modules(), "d", &siblings, &opts, &vec![]));
    let second = toplevel(resolve_dependencies(&make_modules(), "d", &siblings, &opts, &vec![]));
    assert_eq!(first, second);
}
