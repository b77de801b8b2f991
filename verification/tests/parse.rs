use eldep::parser::parse_require_line;
use eldep::parser::extract_requires;
use eldep::feature::Feature;
use eldep::feature::resolve_requirement;

#[test]
fn plain_declaration() {
    assert_eq!(parse_require_line("(require 'foo)"), Some("foo".to_string()));
}

#[test]
fn trailing_text_is_ignored() {
    assert_eq!(
        parse_require_line("(require 'foo) ;; comment"),
        Some("foo".to_string())
    );
}

#[test]
fn leading_whitespace_does_not_declare() {
    assert_eq!(parse_require_line("  (require 'foo)"), None);
}

#[test]
fn unclosed_declaration_does_not_declare() {
    assert_eq!(parse_require_line("(require 'foo"), None);
}

#[test]
fn empty_name_does_not_declare() {
    assert_eq!(parse_require_line("(require ')"), None);
}

#[test]
fn hyphen_underscore_digits_allowed() {
    assert_eq!(
        parse_require_line("(require 'foo-bar_2)"),
        Some("foo-bar_2".to_string())
    );
}

#[test]
fn dot_stops_the_name() {
    assert_eq!(parse_require_line("(require 'foo.bar)"), None);
}

#[test]
fn non_ascii_letter_stops_the_name() {
    assert_eq!(parse_require_line("(require 'a\u{00f1}ejo)"), None);
}

#[test]
fn empty_line_does_not_declare() {
    assert_eq!(parse_require_line(""), None);
}

#[test]
fn single_letter_name() {
    assert_eq!(parse_require_line("(require 'a)"), Some("a".to_string()));
}

#[test]
fn resolution_local_and_external() {
    let siblings = vec!["dash".to_string(), "s".to_string()];
    let local = resolve_requirement("dash", "lisp", &siblings);
    assert_eq!(local.name(), "dash");
    assert_eq!(local.path_buf(), &Some("lisp/dash.elc".to_string()));
    let external = resolve_requirement("cl-lib", "lisp", &siblings);
    assert_eq!(external.name(), "cl-lib");
    assert_eq!(external.path_buf(), &None);
}

#[test]
fn feature_new_keeps_name_and_path() {
    let f = Feature::new("ivy", Some("lisp/ivy.elc".to_string()));
    assert_eq!(f.name(), "ivy");
    assert_eq!(f.path_buf(), &Some("lisp/ivy.elc".to_string()));
}

#[test]
fn extraction_keeps_order_and_duplicates() {
    let lines = vec![
        "(require 'a)".to_string(),
        ";; nothing here".to_string(),
        "(require 'b)".to_string(),
        "(defun f ())".to_string(),
        "(require 'a)".to_string(),
    ];
    let siblings = vec!["a".to_string()];
    let feats = extract_requires(&lines, "d", &siblings);
    let names: Vec<&str> = feats.iter().map(|f| f.name()).collect();
    assert_eq!(names, vec!["a", "b", "a"]);
    assert_eq!(feats[0].path_buf(), &Some("d/a.elc".to_string()));
    assert_eq!(feats[1].path_buf(), &None);
}
