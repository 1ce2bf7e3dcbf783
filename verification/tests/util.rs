//! Path helpers.

use stemjail::jail::util::{nest_path, TmpWorkDir};
use stemjail::path::{is_absolute, path_relative_from, path_starts_with, str_eq};

#[test]
fn test_nest_path() {
    let foo = "/foo";
    let bar = "bar";
    let qux = "../qux";

    let foobar = String::from("/foo/bar");
    assert_eq!(nest_path(foo, bar), foobar);
    let foofoo = String::from("/foo/foo");
    assert_eq!(nest_path(foo, foo), foofoo);
    let barfoo = String::from("bar/foo");
    assert_eq!(nest_path(bar, foo), barfoo);
    let barbar = String::from("bar/bar");
    assert_eq!(nest_path(bar, bar), barbar);
    let fooqux = String::from("/foo/../qux");
    assert_eq!(nest_path(foo, qux), fooqux);
    let barqux = String::from("bar/../qux");
    assert_eq!(nest_path(bar, qux), barqux);
    let quxfoo = String::from("../qux/foo");
    assert_eq!(nest_path(qux, foo), quxfoo);
    let quxbar = String::from("../qux/bar");
    assert_eq!(nest_path(qux, bar), quxbar);
}

#[test]
fn util_test_nest_path() {
    let foo = "/foo";
    let bar = "bar";
    let qux = "../qux";

    assert_eq!(nest_path(foo, bar), String::from("/foo/bar"));
    assert_eq!(nest_path(foo, foo), String::from("/foo/foo"));
    assert_eq!(nest_path(bar, foo), String::from("bar/foo"));
    assert_eq!(nest_path(bar, bar), String::from("bar/bar"));
    assert_eq!(nest_path(foo, qux), String::from("/foo/../qux"));
    assert_eq!(nest_path(bar, qux), String::from("bar/../qux"));
    assert_eq!(nest_path(qux, foo), String::from("../qux/foo"));
    assert_eq!(nest_path(qux, bar), String::from("../qux/bar"));
}

#[test]
fn test_path_predicates() {
    assert!(is_absolute("/tmp"));
    assert!(!is_absolute("tmp"));
    assert!(!is_absolute(""));
    assert!(path_starts_with("/proc/1", "/proc"));
    assert!(path_starts_with("/proc", "/proc"));
    assert!(path_starts_with("/proc/1", "/"));
    assert!(!path_starts_with("/proc1", "/proc"));
    assert!(!path_starts_with("/pro", "/proc"));
    assert!(str_eq("abc", "abc"));
    assert!(!str_eq("abc", "abd"));
}

#[test]
fn test_path_relative_from() {
    assert_eq!(path_relative_from("/foo/bar", "/foo"), Some(String::from("bar")));
    assert_eq!(path_relative_from("/foo", "/foo"), Some(String::new()));
    assert_eq!(path_relative_from("/foo", "/"), Some(String::from("foo")));
    assert_eq!(path_relative_from("/foobar", "/foo"), None);
}

#[test]
fn test_tmp_work_dir() {
    let mut d = TmpWorkDir::new("mount");
    assert!(!d.path().starts_with('/'));
    // "./tmp_" + "mount" + "_" + twelve random characters.
    assert_eq!(d.path().chars().count(), 5 + 19);
    assert!(!d.needs_unmount());
    d.unmount(true);
    assert!(d.needs_unmount());
    d.unmount(false);
    assert!(!d.needs_unmount());
}

#[test]
fn test_u64_to_dec() {
    assert_eq!(stemjail::text::u64_to_dec(0), String::from("0"));
    assert_eq!(stemjail::text::u64_to_dec(7), String::from("7"));
    assert_eq!(stemjail::text::u64_to_dec(1234), String::from("1234"));
    assert_eq!(stemjail::text::u64_to_dec(18446744073709551615), String::from("18446744073709551615"));
}
