//! Equality between paths, owned paths and plain text. Whatever the two
//! sides are, they are equal when their texts have the same components.

use crate::components::components_of;
use crate::path::Path;
use crate::path_buf::PathBuf;
use vstd::prelude::*;
use vstd::std_specs::cmp::PartialEqSpecImpl;
use vstd::string::*;
use vstd::utf8::*;

verus! {

impl<'a, 'b> PartialEq<&'b str> for Path<'a> {
    fn eq(&self, other: &&'b str) -> (same: bool) {
        *self == Path::new(*other)
    }
}

impl<'a, 'b> PartialEqSpecImpl<&'b str> for Path<'a> {
    open spec fn obeys_eq_spec() -> bool {
        true
    }

    open spec fn eq_spec(&self, other: &&'b str) -> bool {
        components_of(self@) == components_of(other.spec_bytes())
    }
}

impl<'a, 'b> PartialEq<Path<'a>> for &'b str {
    fn eq(&self, other: &Path<'a>) -> (same: bool) {
        Path::new(*self) == *other
    }
}

impl<'a, 'b> PartialEqSpecImpl<Path<'a>> for &'b str {
    open spec fn obeys_eq_spec() -> bool {
        true
    }

    open spec fn eq_spec(&self, other: &Path<'a>) -> bool {
        components_of(self.spec_bytes()) == components_of(other@)
    }
}

impl<'a> PartialEq<String> for Path<'a> {
    fn eq(&self, other: &String) -> (same: bool) {
        *self == Path::new(other.as_str())
    }
}

impl<'a> PartialEqSpecImpl<String> for Path<'a> {
    open spec fn obeys_eq_spec() -> bool {
        true
    }

    open spec fn eq_spec(&self, other: &String) -> bool {
        components_of(self@) == components_of(encode_utf8(other@))
    }
}

impl<'a> PartialEq<Path<'a>> for String {
    fn eq(&self, other: &Path<'a>) -> (same: bool) {
        Path::new(self.as_str()) == *other
    }
}

impl<'a> PartialEqSpecImpl<Path<'a>> for String {
    open spec fn obeys_eq_spec() -> bool {
        true
    }

    open spec fn eq_spec(&self, other: &Path<'a>) -> bool {
        components_of(encode_utf8(self@)) == components_of(other@)
    }
}

impl<'a> PartialEq<PathBuf> for Path<'a> {
    fn eq(&self, other: &PathBuf) -> (same: bool) {
        *self == other.as_path()
    }
}

impl<'a> PartialEqSpecImpl<PathBuf> for Path<'a> {
    open spec fn obeys_eq_spec() -> bool {
        true
    }

    open spec fn eq_spec(&self, other: &PathBuf) -> bool {
        components_of(self@) == components_of(other@)
    }
}

impl<'a> PartialEq<Path<'a>> for PathBuf {
    fn eq(&self, other: &Path<'a>) -> (same: bool) {
        self.as_path() == *other
    }
}

impl<'a> PartialEqSpecImpl<Path<'a>> for PathBuf {
    open spec fn obeys_eq_spec() -> bool {
        true
    }

    open spec fn eq_spec(&self, other: &Path<'a>) -> bool {
        components_of(self@) == components_of(other@)
    }
}

} // verus!
