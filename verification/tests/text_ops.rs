use poodle::text::base_name;
use poodle::text::cut_at_char;
use poodle::text::path_join;
use poodle::text::str_contains_fragment;
use poodle::text::str_has_suffix;

#[test]
fn contains_finds_inner_fragment() {
    assert!(str_contains_fragment("com/foo/Bar.class", "Bar.class"));
    assert!(str_contains_fragment("BarBar.class", "Bar.class"));
    assert!(!str_contains_fragment("Baz.class", "Bar.class"));
    assert!(str_contains_fragment("anything", ""));
    assert!(!str_contains_fragment("", "x"));
}

#[test]
fn suffix_checks() {
    assert!(str_has_suffix("lib/inner.jar", ".jar"));
    assert!(!str_has_suffix("inner.jarx", ".jar"));
    assert!(!str_has_suffix("ar", ".jar"));
    assert!(str_has_suffix("x", ""));
}

#[test]
fn base_name_strips_path() {
    assert_eq!(base_name("com/foo/Bar.class"), "Bar.class");
    assert_eq!(base_name("Bar.class"), "Bar.class");
    assert_eq!(base_name("a/b/"), "");
    assert_eq!(base_name(""), "");
}

#[test]
fn path_join_inserts_separator() {
    assert_eq!(path_join("outer.jar", "lib/inner.jar"), "outer.jar/lib/inner.jar");
    assert_eq!(path_join("", "inner.jar"), "inner.jar");
}

#[test]
fn cut_at_char_takes_head() {
    assert_eq!(cut_at_char("com/foo/Bar.java:42", ':'), "com/foo/Bar.java");
    assert_eq!(cut_at_char("no-colon", ':'), "no-colon");
    assert_eq!(cut_at_char(":rest", ':'), "");
}
