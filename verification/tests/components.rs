use path_rs::{Component, Components, Path};

fn forward(text: &str) -> Vec<Component<'_>> {
    let mut components = Path::new(text).components();
    let mut out = Vec::new();
    while let Some(component) = components.next() {
        out.push(component);
    }
    out
}

fn backward(text: &str) -> Vec<Component<'_>> {
    let mut components = Path::new(text).components();
    let mut out = Vec::new();
    while let Some(component) = components.next_back() {
        out.push(component);
    }
    out
}

fn same_lists(a: &[Component<'_>], b: &[Component<'_>]) -> bool {
    a.len() == b.len() && a.iter().zip(b.iter()).all(|(x, y)| x == y)
}

fn is_name(component: &Component<'_>, expected: &str) -> bool {
    matches!(component, Component::Name(name) if *name == expected)
}

#[test]
fn components_of_absolute_path() {
    let got = forward("/home/hello");

    assert_eq!(got.len(), 3);
    assert!(matches!(got[0], Component::Root));
    assert!(is_name(&got[1], "home"));
    assert!(is_name(&got[2], "hello"));
}

#[test]
fn components_of_relative_path_with_dots() {
    let got = forward("./a/../b.txt");

    assert_eq!(got.len(), 4);
    assert!(matches!(got[0], Component::Current));
    assert!(is_name(&got[1], "a"));
    assert!(matches!(got[2], Component::Parent));
    assert!(is_name(&got[3], "b.txt"));
}

#[test]
fn components_of_empty_path() {
    assert!(forward("").is_empty());
    assert!(backward("").is_empty());
}

#[test]
fn components_of_root() {
    let got = forward("/");

    assert_eq!(got.len(), 1);
    assert!(matches!(got[0], Component::Root));
    assert!(same_lists(&backward("/"), &got));
    assert!(same_lists(&forward("///"), &got));
}

#[test]
fn three_dots_are_a_name() {
    let got = forward("...");

    assert_eq!(got.len(), 1);
    assert!(is_name(&got[0], "..."));
}

#[test]
fn backward_is_forward_reversed() {
    for text in [
        "",
        "/",
        "a",
        "/a",
        "a/b/c",
        "/home//hello/",
        "./home////hello",
        "../home/hello",
        "/home/..////./etc/../usr/share/./fonts",
        "//a//",
        "/домой/привет.txt",
    ] {
        let mut reversed = backward(text);
        reversed.reverse();
        assert!(same_lists(&forward(text), &reversed), "{}", text);
    }
}

#[test]
fn separators_do_not_change_components() {
    let plain = forward("/home/hello");

    assert!(same_lists(&forward("/home//hello"), &plain));
    assert!(same_lists(&forward("/home/hello/"), &plain));
    assert!(same_lists(&forward("//home///hello//"), &plain));
    assert!(!same_lists(&forward("home/hello"), &plain));
}

#[test]
fn mixed_directions_yield_each_component_once() {
    let mut components = Path::new("/a/b/c").components();

    assert!(matches!(components.next(), Some(Component::Root)));
    assert!(is_name(&components.next_back().unwrap(), "c"));
    assert!(is_name(&components.next().unwrap(), "a"));
    assert!(is_name(&components.next_back().unwrap(), "b"));
    assert!(components.next().is_none());
    assert!(components.next_back().is_none());
}

#[test]
fn root_comes_last_from_the_back() {
    let mut components = Path::new("/a").components();

    assert!(is_name(&components.next_back().unwrap(), "a"));
    assert!(matches!(components.next_back(), Some(Component::Root)));
    assert!(components.next_back().is_none());
    assert!(components.next().is_none());
}

#[test]
fn root_is_not_yielded_twice() {
    let mut components = Path::new("/").components();

    assert!(matches!(components.next(), Some(Component::Root)));
    assert!(components.next_back().is_none());
    assert!(components.next().is_none());
}

#[test]
fn cursors_compare_by_what_is_left() {
    let mut left = Path::new("/x/home/hello").components();
    let right = Path::new("home//hello/").components();

    assert!(left != right);
    left.next();
    left.next();
    assert!(left == right);
    assert!(left.clone() == left);
}

#[test]
fn from_str_makes_a_full_cursor() {
    let a = Components::from_str("a/./b");
    let b = Path::new("a/./b").components();

    assert!(a == b);
    assert!(a != Components::from_str("a/b"));
}

#[test]
fn component_from_str_classifies() {
    assert!(matches!(Component::from_str("."), Component::Current));
    assert!(matches!(Component::from_str(".."), Component::Parent));
    assert!(is_name(&Component::from_str("..."), "..."));
    assert!(is_name(&Component::from_str("name"), "name"));
}

#[test]
fn components_are_equal_by_kind_and_name() {
    assert_eq!(Component::Root, Component::Root);
    assert_eq!(Component::Name("a"), Component::Name("a"));
    assert_ne!(Component::Name("a"), Component::Name("b"));
    assert_ne!(Component::Name("a"), Component::Name("ab"));
    assert_ne!(Component::Current, Component::Parent);
    assert_ne!(Component::Root, Component::Name("/"));
}
