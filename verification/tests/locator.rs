use std::io::Cursor;
use std::io::Write;

use poodle::HotSwapError;
use poodle::jar_utils::derive_fragment;
use poodle::jar_utils::extract_class_files_from_directory;
use poodle::jar_utils::is_container_file_name;
use poodle::jar_utils::process_directory;
use poodle::jar_utils::process_jar_archive;
use poodle::jar_utils::rewrite_extension;

fn make_jar(entries: &[(&str, &[u8])]) -> Vec<u8> {
    let mut w = zip::ZipWriter::new(Cursor::new(Vec::new()));
    let opts = zip::write::SimpleFileOptions::default();
    for (name, data) in entries {
        w.start_file(*name, opts).unwrap();
        w.write_all(data).unwrap();
    }
    w.finish().unwrap().into_inner()
}

#[test]
fn deep_nesting_is_found_with_full_containing_path() {
    let class_bytes = b"\xca\xfe\xba\xbeBARCODE";
    let inner = make_jar(&[("com/foo/Bar.class", class_bytes)]);
    let mid = make_jar(&[("lib/inner.jar", &inner)]);
    let outer = make_jar(&[("mid.jar", &mid)]);

    let files = vec![(String::from("outer.jar"), outer)];
    let (matches, err) = process_directory(&files, "Bar.class", 16);
    assert!(err.is_none());
    assert_eq!(matches.len(), 1);
    let m = &matches[0].info;
    assert_eq!(m.parent_jar_file_name, "outer.jar");
    assert_eq!(m.jar_file_name, "outer.jar/mid.jar/lib/inner.jar");
    assert_eq!(m.class_file_name, "Bar.class");
    assert_eq!(m.class_file_path, "outer.jar/mid.jar/lib/inner.jar/com/foo/Bar.class");
    assert_eq!(m.java_process_list_str, "");
    assert_eq!(matches[0].data, class_bytes);
}

#[test]
fn corrupt_nested_container_aborts_and_keeps_earlier_matches() {
    let outer = make_jar(&[
        ("com/foo/Bar.class", b"EARLY".as_slice()),
        ("broken.jar", b"this is not a container".as_slice()),
        ("com/foo/Late.class", b"LATE".as_slice()),
    ]);
    let archive = zip::ZipArchive::new(Cursor::new(outer)).unwrap();
    let (matches, err) = process_jar_archive(archive, "Bar.class", "outer.jar", "outer.jar", 16);
    assert_eq!(err, Some(HotSwapError::ContainerFormatError));
    assert_eq!(matches.len(), 1);
    assert_eq!(matches[0].info.class_file_name, "Bar.class");
}

#[test]
fn fragment_derivation_and_substring_matching() {
    assert_eq!(derive_fragment("com/foo/Bar.java:42"), "Bar.class");
    assert_eq!(derive_fragment("Plain.java"), "Plain.class");
    assert_eq!(derive_fragment("NoExtension"), "NoExtension");
    assert_eq!(rewrite_extension("a/b/C.java"), "a/b/C.class");
    assert_eq!(rewrite_extension("a/b/C.kt"), "a/b/C.kt");

    let jar = make_jar(&[
        ("com/foo/Bar.class", b"ONE".as_slice()),
        ("com/foo/BarBar.class", b"TWO".as_slice()),
        ("com/foo/Unrelated.class", b"THREE".as_slice()),
    ]);
    let files = vec![(String::from("app.jar"), jar)];
    let (matches, err) = extract_class_files_from_directory(&files, "com/foo/Bar.java:42", 16);
    assert!(err.is_none());
    let names: Vec<&str> = matches.iter().map(|m| m.info.class_file_name.as_str()).collect();
    assert_eq!(names, vec!["Bar.class", "BarBar.class"]);
}

#[test]
fn nested_container_is_descended_never_matched() {
    // The nested container's own name contains the fragment, but only the
    // member inside it may match.
    let inner = make_jar(&[("Bar.class", b"IN".as_slice())]);
    let outer = make_jar(&[("Bar.class.jar", &inner)]);
    let files = vec![(String::from("outer.jar"), outer)];
    let (matches, err) = process_directory(&files, "Bar.class", 16);
    assert!(err.is_none());
    assert_eq!(matches.len(), 1);
    assert_eq!(matches[0].info.class_file_path, "outer.jar/Bar.class.jar/Bar.class");
}

#[test]
fn walk_over_nothing_succeeds_with_empty_manifest() {
    let files: Vec<(String, Vec<u8>)> = Vec::new();
    let (matches, err) = process_directory(&files, "Bar.class", 16);
    assert!(err.is_none());
    assert!(matches.is_empty());
}

#[test]
fn zero_matches_yields_empty_manifest() {
    let jar = make_jar(&[("com/foo/Other.class", b"X".as_slice())]);
    let files = vec![(String::from("app.jar"), jar)];
    let (matches, err) = process_directory(&files, "Missing.class", 16);
    assert!(err.is_none());
    assert!(matches.is_empty());
}

#[test]
fn container_file_names() {
    assert!(is_container_file_name("sub/dir/app.jar"));
    assert!(!is_container_file_name("app.war"));
    assert!(!is_container_file_name("jar"));
}

#[test]
fn nesting_beyond_depth_allowance_is_a_container_failure() {
    let inner = make_jar(&[("Bar.class", b"IN".as_slice())]);
    let outer = make_jar(&[("inner.jar", &inner)]);
    let files = vec![(String::from("outer.jar"), outer)];
    let (matches, err) = process_directory(&files, "Bar.class", 0);
    assert_eq!(err, Some(HotSwapError::ContainerFormatError));
    assert!(matches.is_empty());
}

#[test]
fn top_level_corrupt_container_fails_directory_walk() {
    let good = make_jar(&[("com/foo/Bar.class", b"OK".as_slice())]);
    let files = vec![
        (String::from("good.jar"), good),
        (String::from("bad.jar"), b"garbage".to_vec()),
    ];
    let (matches, err) = process_directory(&files, "Bar.class", 16);
    assert_eq!(err, Some(HotSwapError::ContainerFormatError));
    assert_eq!(matches.len(), 1);
    assert_eq!(matches[0].info.parent_jar_file_name, "good.jar");
}
