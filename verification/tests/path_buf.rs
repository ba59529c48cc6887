use path_rs::{Component, Path, PathBuf};
use std::str::FromStr;

fn joined(base: &str, other: &str) -> String {
    String::from(Path::new(base).join(Path::new(other)))
}

fn resolved(base: &str, other: &str) -> String {
    String::from(Path::new(base).resolve(Path::new(other)))
}

fn pushed(base: &str, component: Component<'_>) -> String {
    let mut buf = PathBuf::from(base);
    buf.push_component(component);
    String::from(buf)
}

fn popped(base: &str) -> String {
    let mut buf = PathBuf::from(base);
    buf.pop();
    String::from(buf)
}

#[test]
fn join_relative_with_current() {
    let path1 = PathBuf::from("/home/hello");
    let path2 = PathBuf::from("./join");
    let expected = PathBuf::from("/home/hello/join");

    assert_eq!(path1.as_path().join(path2.as_path()), expected);
    assert_eq!(joined("/home/hello", "./join"), "/home/hello/join");
}

#[test]
fn join_relative_with_parent() {
    let path1 = PathBuf::from("/home/hello");
    let path2 = PathBuf::from("../user");
    let expected = PathBuf::from("/home/user");

    assert_eq!(path1.as_path().join(path2.as_path()), expected);
    assert_eq!(joined("/home/hello", "../user"), "/home/user");
}

#[test]
fn join_absolute_replaces_base() {
    let path1 = PathBuf::from("/home/hello");
    let path2 = PathBuf::from("/usr/bin");
    let expected = PathBuf::from("/usr/bin");

    assert_eq!(path1.as_path().join(path2.as_path()), expected);
    assert_eq!(joined("/home/hello", "/usr/bin"), "/usr/bin");
}

#[test]
fn join_keeps_an_absolute_path_as_written() {
    assert_eq!(joined("/home", "/usr//./bin/"), "/usr//./bin/");
}

#[test]
fn join_with_empty_path_keeps_base() {
    assert_eq!(joined("/home/hello", ""), "/home/hello");
    assert_eq!(joined("a//b/", ""), "a//b/");
}

#[test]
fn join_folds_separators_of_the_right_side() {
    assert_eq!(joined("/home", "a//b/"), "/home/a/b");
    assert_eq!(joined("/home/", "a"), "/home/a");
    assert_eq!(joined("/", "a"), "/a");
}

#[test]
fn join_does_not_climb_above_root() {
    assert_eq!(joined("/", ".."), "/");
    assert_eq!(joined("/", "../../a"), "/a");
}

#[test]
fn resolve_applies_every_component() {
    assert_eq!(resolved("/home/hello", "./join"), "/home/hello/join");
    assert_eq!(resolved("/home/hello", "../user"), "/home/user");
    assert_eq!(resolved("/home/hello", "/usr/./lib/../bin"), "/usr/bin");
    assert_eq!(resolved("/home/hello", "/"), "/");
    assert_eq!(resolved("a/b", ""), "a/b");
}

#[test]
fn push_component_root_replaces_text() {
    assert_eq!(pushed("/home/hello", Component::Root), "/");
    assert_eq!(pushed("", Component::Root), "/");
}

#[test]
fn push_component_current_changes_nothing() {
    assert_eq!(pushed("/home/hello", Component::Current), "/home/hello");
    assert_eq!(pushed("", Component::Current), "");
}

#[test]
fn push_component_parent_at_root_changes_nothing() {
    assert_eq!(pushed("/", Component::Parent), "/");
}

#[test]
fn push_component_parent_pops() {
    assert_eq!(pushed("/home/hello", Component::Parent), "/home");
    assert_eq!(pushed("/home", Component::Parent), "");
    assert_eq!(pushed("hello", Component::Parent), "hello");
}

#[test]
fn push_component_name_pushes() {
    assert_eq!(pushed("/home", Component::Name("hello")), "/home/hello");
    assert_eq!(pushed("/home/", Component::Name("hello")), "/home/hello");
    assert_eq!(pushed("/", Component::Name("hello")), "/hello");
    assert_eq!(pushed("", Component::Name("hello")), "/hello");
}

#[test]
fn push_inserts_one_separator() {
    let mut buf = PathBuf::from("a");
    buf.push("b");
    assert_eq!(buf.as_str(), "a/b");
    buf.push("привет");
    assert_eq!(buf.as_str(), "a/b/привет");

    let mut buf = PathBuf::from("a//");
    buf.push("b");
    assert_eq!(buf.as_str(), "a//b");
}

#[test]
fn pop_cuts_at_last_inner_separator() {
    assert_eq!(popped("/home/hello"), "/home");
    assert_eq!(popped("/home/hello//"), "/home");
    assert_eq!(popped("a/b/c"), "a/b");
    assert_eq!(popped("a//b"), "a/");
    assert_eq!(popped("/домой/привет"), "/домой");
}

#[test]
fn pop_without_inner_separator_changes_nothing() {
    assert_eq!(popped("hello"), "hello");
    assert_eq!(popped("hello/"), "hello/");
    assert_eq!(popped("/"), "/");
    assert_eq!(popped("//"), "//");
    assert_eq!(popped(""), "");
}

#[test]
fn push_components_applies_what_is_left() {
    let mut buf = PathBuf::from("/x");
    let mut rest = Path::new("a/b/../c").components();
    rest.next();
    buf.push_components(rest);

    assert_eq!(buf.as_str(), "/x/c");
}

#[test]
fn conversions_keep_the_text() {
    let text = String::from("/home//hello/");
    let buf = PathBuf::from(text.clone());

    assert_eq!(buf.as_str(), "/home//hello/");
    assert_eq!(buf.as_path().as_str(), "/home//hello/");
    assert_eq!(String::from(buf.clone()), text);
    assert_eq!(Path::new("a/b").to_owned().as_str(), "a/b");
    assert_eq!(PathBuf::from_str("a/./b").unwrap().as_str(), "a/./b");
}

#[test]
fn buffers_compare_by_components() {
    assert_eq!(PathBuf::from("/home//hello/"), PathBuf::from("/home/hello"));
    assert_ne!(PathBuf::from("/home/./hello"), PathBuf::from("/home/hello"));
    assert_ne!(PathBuf::from("home/hello"), PathBuf::from("/home/hello"));
}
