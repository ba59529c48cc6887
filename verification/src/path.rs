//! A borrowed path and the queries on its last component.

use crate::components::{components_of, starts_at_root, Component, ComponentView, Components};
use crate::lexical::{DOT, SEPARATOR};
use crate::slicing::slice_between;
use vstd::prelude::*;
use vstd::string::*;

verus! {

/// The bytes of an optional piece of text.
pub open spec fn bytes_of(text: Option<&str>) -> Option<Seq<u8>> {
    match text {
        Some(t) => Some(t.spec_bytes()),
        None => None,
    }
}

/// The name `..`, which is never split at its dots.
pub open spec fn dot_dot() -> Seq<u8> {
    seq![DOT, DOT]
}

/// A file name split at its last dot into the parts before and behind it.
/// A name without a dot is all "behind"; a name whose only dot is its first
/// byte, and the name `..`, are all "before".
pub open spec fn rsplit_at_dot(name: Seq<u8>) -> (Option<Seq<u8>>, Option<Seq<u8>>) {
    if name == dot_dot() {
        (Some(name), None)
    } else {
        match name.index_of_last(DOT) {
            None => (None, Some(name)),
            Some(at) => if at == 0 {
                (Some(name), None)
            } else {
                (Some(name.take(at)), Some(name.skip(at + 1)))
            },
        }
    }
}

/// A file name split at its first dot that is not its first byte, into the
/// parts before and behind that dot. Without such a dot, and for the name
/// `..`, the whole name is "before" and nothing is "behind".
pub open spec fn split_at_dot(name: Seq<u8>) -> (Seq<u8>, Option<Seq<u8>>) {
    if name.len() == 0 || name == dot_dot() {
        (name, None)
    } else {
        match name.drop_first().index_of_first(DOT) {
            None => (name, None),
            Some(at) => (name.take(at + 1), Some(name.skip(at + 2))),
        }
    }
}

/// The file name of a path text: its last component, if that is a name.
pub open spec fn file_name_of(bytes: Seq<u8>) -> Option<Seq<u8>> {
    let components = components_of(bytes);
    if components.len() > 0 && components.last() is Name {
        Some(components.last()->Name_0)
    } else {
        None
    }
}

/// The file name of a path text without its extension.
pub open spec fn file_stem_of(bytes: Seq<u8>) -> Option<Seq<u8>> {
    match file_name_of(bytes) {
        None => None,
        Some(name) => {
            let (before, after) = rsplit_at_dot(name);
            if before is Some {
                before
            } else {
                after
            }
        },
    }
}

/// The extension of a path text's file name: what stands behind the last
/// dot of the name, unless that dot starts the name.
pub open spec fn extension_of(bytes: Seq<u8>) -> Option<Seq<u8>> {
    match file_name_of(bytes) {
        None => None,
        Some(name) => {
            let (before, after) = rsplit_at_dot(name);
            if before is Some {
                after
            } else {
                None
            }
        },
    }
}

/// The file name of a path text up to its first dot, a leading dot aside.
pub open spec fn file_prefix_of(bytes: Seq<u8>) -> Option<Seq<u8>> {
    match file_name_of(bytes) {
        None => None,
        Some(name) => Some(split_at_dot(name).0),
    }
}

/// Whether `file` is the name `..`.
fn is_dot_dot(file: &str) -> (yes: bool)
    ensures
        yes == (file.spec_bytes() == dot_dot()),
{
    let bytes = file.as_bytes();
    if bytes.len() == 2 && bytes[0] == DOT && bytes[1] == DOT {
        assert(bytes@ =~= dot_dot());
        true
    } else {
        assert(dot_dot().len() == 2 && dot_dot()[0] == DOT && dot_dot()[1] == DOT);
        false
    }
}

/// Splits a file name at its first dot, not counting a dot that starts it.
pub fn split_file_at_dot<'a>(file: &'a str) -> (parts: (&'a str, Option<&'a str>))
    ensures
        parts.0.spec_bytes() == split_at_dot(file.spec_bytes()).0,
        bytes_of(parts.1) == split_at_dot(file.spec_bytes()).1,
{
    let bytes = file.as_bytes();
    let len = bytes.len();
    if len == 0 || is_dot_dot(file) {
        return (file, None);
    }
    let ghost rest = bytes@.drop_first();
    let mut at: usize = 1;
    while at < len && bytes[at] != DOT
        invariant
            1 <= at <= len,
            len == bytes@.len(),
            forall|k: int| 1 <= k < at ==> bytes@[k] != DOT,
        decreases len - at,
    {
        at += 1;
    }
    proof {
        rest.index_of_first_ensures(DOT);
        if at < len {
            assert(rest[at - 1] == DOT);
            assert(rest.contains(DOT));
            let found = rest.index_of_first(DOT)->0;
            if found < at - 1 {
                assert(bytes@[found + 1] == rest[found]);
            }
            assert(found == at - 1);
        } else {
            if rest.contains(DOT) {
                let k = choose|k: int| 0 <= k < rest.len() && rest[k] == DOT;
                assert(bytes@[k + 1] == rest[k]);
            }
        }
    }
    if at == len {
        return (file, None);
    }
    let before = slice_between(file, 0, at);
    let after = slice_between(file, at + 1, len);
    (before, Some(after))
}

/// Splits a file name at its last dot, unless that dot starts the name.
pub fn rsplit_file_at_dot<'a>(file: &'a str) -> (parts: (Option<&'a str>, Option<&'a str>))
    ensures
        bytes_of(parts.0) == rsplit_at_dot(file.spec_bytes()).0,
        bytes_of(parts.1) == rsplit_at_dot(file.spec_bytes()).1,
{
    if is_dot_dot(file) {
        return (Some(file), None);
    }
    let bytes = file.as_bytes();
    let len = bytes.len();
    let mut end: usize = len;
    while end > 0 && bytes[end - 1] != DOT
        invariant
            end <= len,
            len == bytes@.len(),
            forall|k: int| end <= k < len ==> bytes@[k] != DOT,
        decreases end,
    {
        end -= 1;
    }
    proof {
        bytes@.index_of_last_ensures(DOT);
        if end > 0 {
            assert(bytes@[end - 1] == DOT);
            assert(bytes@.contains(DOT));
            assert(bytes@.index_of_last(DOT)->0 == end - 1);
        } else {
            if bytes@.contains(DOT) {
                let k = choose|k: int| 0 <= k < bytes@.len() && bytes@[k] == DOT;
                assert(bytes@[k] != DOT);
            }
        }
    }
    if end == 0 {
        return (None, Some(file));
    }
    let at = end - 1;
    if at == 0 {
        return (Some(file), None);
    }
    let before = slice_between(file, 0, at);
    let after = slice_between(file, end, len);
    (Some(before), Some(after))
}

/// A borrowed path: a view of `/`-separated text that it does not own.
#[derive(Debug, Clone, Copy)]
pub struct Path<'a> {
    text: &'a str,
}

impl<'a> View for Path<'a> {
    type V = Seq<u8>;

    /// The bytes of the path's text.
    closed spec fn view(&self) -> Seq<u8> {
        self.text.spec_bytes()
    }
}

impl<'a> Path<'a> {
    /// Views `s` as a path.
    pub fn new(s: &'a str) -> (path: Path<'a>)
        ensures
            path@ == s.spec_bytes(),
    {
        Path { text: s }
    }

    /// The text of the path.
    pub fn as_str(&self) -> (text: &'a str)
        ensures
            text.spec_bytes() == self@,
    {
        self.text
    }

    /// A fresh cursor over the components of the path.
    pub fn components(&self) -> (components: Components<'a>)
        ensures
            components@ == components_of(self@),
    {
        Components::from_str(self.text)
    }

    /// The file name without its extension.
    pub fn file_stem(&self) -> (stem: Option<&'a str>)
        ensures
            bytes_of(stem) == file_stem_of(self@),
    {
        match self.file_name() {
            None => None,
            Some(name) => {
                let (before, after) = rsplit_file_at_dot(name);
                if before.is_some() {
                    before
                } else {
                    after
                }
            },
        }
    }

    /// The file name up to its first dot, a leading dot aside.
    pub fn file_prefix(&self) -> (prefix: Option<&'a str>)
        ensures
            bytes_of(prefix) == file_prefix_of(self@),
    {
        match self.file_name() {
            None => None,
            Some(name) => {
                let (before, _after) = split_file_at_dot(name);
                Some(before)
            },
        }
    }

    /// The last component of the path, if it is a name.
    pub fn file_name(&self) -> (name: Option<&'a str>)
        ensures
            bytes_of(name) == file_name_of(self@),
    {
        let mut components = self.components();
        match components.next_back() {
            Some(Component::Name(name)) => Some(name),
            _ => None,
        }
    }

    /// What stands behind the last dot of the file name, unless that dot
    /// starts the name.
    #[must_use]
    pub fn extension(&self) -> (extension: Option<&'a str>)
        ensures
            bytes_of(extension) == extension_of(self@),
    {
        match self.file_name() {
            None => None,
            Some(name) => {
                let (before, after) = rsplit_file_at_dot(name);
                if before.is_some() {
                    after
                } else {
                    None
                }
            },
        }
    }

    /// Whether the path starts with a separator.
    pub fn is_absolute(&self) -> (absolute: bool)
        ensures
            absolute == starts_at_root(self@),
    {
        let bytes = self.text.as_bytes();
        bytes.len() > 0 && bytes[0] == SEPARATOR
    }

    /// Whether the path does not start with a separator.
    pub fn is_relative(&self) -> (relative: bool)
        ensures
            relative == !starts_at_root(self@),
    {
        !self.is_absolute()
    }
}

impl<'a> PartialEq for Path<'a> {
    /// Two paths are equal when they have the same components, one for one.
    fn eq(&self, other: &Self) -> (same: bool) {
        self.components() == other.components()
    }
}

impl<'a> vstd::std_specs::cmp::PartialEqSpecImpl for Path<'a> {
    open spec fn obeys_eq_spec() -> bool {
        true
    }

    open spec fn eq_spec(&self, other: &Self) -> bool {
        components_of(self@) == components_of(other@)
    }
}

} // verus!
