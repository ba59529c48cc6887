//! An owned, growable path, and the operations that build one path from
//! another: pushing components, joining and resolving.

use crate::components::{
    components_of, starts_at_root, Component, ComponentView, Components,
};
use crate::lexical::{lemma_trim_end_is, trim_end, SEPARATOR};
use crate::path::Path;
use crate::slicing::slice_between;
use vstd::prelude::*;
use vstd::string::*;
use vstd::utf8::*;

verus! {

/// The text `/`, as bytes.
pub open spec fn root_text() -> Seq<u8> {
    seq![SEPARATOR]
}

/// A path text with the segment `s` appended, behind a separator unless the
/// text already ends with one.
pub open spec fn push_bytes(buf: Seq<u8>, s: Seq<u8>) -> Seq<u8> {
    if buf.len() > 0 && buf.last() == SEPARATOR {
        buf + s
    } else {
        buf + root_text() + s
    }
}

/// A path text without its last segment: cut at the last separator that is
/// followed by a segment. A text without such a separator stays as it is.
pub open spec fn pop_bytes(buf: Seq<u8>) -> Seq<u8> {
    match trim_end(buf).index_of_last(SEPARATOR) {
        Some(at) => buf.take(at),
        None => buf,
    }
}

/// A path text after one component has been applied to it.
pub open spec fn push_component_bytes(buf: Seq<u8>, component: ComponentView) -> Seq<u8> {
    match component {
        ComponentView::Root => root_text(),
        ComponentView::Current => buf,
        ComponentView::Parent => if buf == root_text() {
            buf
        } else {
            pop_bytes(buf)
        },
        ComponentView::Name(name) => push_bytes(buf, name),
    }
}

/// A path text after the components of a list have been applied to it, from
/// the first to the last.
pub open spec fn fold_components(buf: Seq<u8>, components: Seq<ComponentView>) -> Seq<u8>
    decreases components.len(),
{
    if components.len() == 0 {
        buf
    } else {
        fold_components(push_component_bytes(buf, components.first()), components.drop_first())
    }
}

/// The text of `base` joined with `other`: `other` itself where it starts at
/// the root, else `base` with the components of `other` applied to it.
pub open spec fn join_bytes(base: Seq<u8>, other: Seq<u8>) -> Seq<u8> {
    if starts_at_root(other) {
        other
    } else {
        fold_components(base, components_of(other))
    }
}

/// The text of `other` resolved against `base`: `base` with every component
/// of `other` applied to it, the root included.
pub open spec fn resolve_bytes(base: Seq<u8>, other: Seq<u8>) -> Seq<u8> {
    fold_components(base, components_of(other))
}

/// The encoding of a text made of two parts is the encoding of the first
/// followed by that of the second.
pub proof fn lemma_encode_concat(a: Seq<char>, b: Seq<char>)
    ensures
        encode_utf8(a + b) == encode_utf8(a) + encode_utf8(b),
    decreases a.len(),
{
    if a.len() == 0 {
        assert(a + b =~= b);
        assert(encode_utf8(a) + encode_utf8(b) =~= encode_utf8(b));
    } else {
        assert((a + b).drop_first() =~= a.drop_first() + b);
        lemma_encode_concat(a.drop_first(), b);
        assert(encode_utf8(a + b) =~= encode_utf8(a) + encode_utf8(b));
    }
}

/// The string literal `/` is encoded as the one byte `SEPARATOR`.
pub proof fn lemma_root_literal()
    ensures
        encode_utf8("/"@) == root_text(),
{
    reveal_strlit("/");
    let chars = "/"@;
    assert(is_ascii_chars(chars));
    is_ascii_chars_encode_utf8(chars);
    assert(encode_utf8(chars) =~= root_text());
}

/// An owned path: a growable buffer that holds the path's text.
#[derive(Debug)]
pub struct PathBuf {
    text: String,
}

impl View for PathBuf {
    type V = Seq<u8>;

    /// The bytes of the buffer's text.
    closed spec fn view(&self) -> Seq<u8> {
        encode_utf8(self.text@)
    }
}

impl PathBuf {
    /// The buffer that holds `text`.
    pub closed spec fn holding(text: String) -> PathBuf {
        PathBuf { text }
    }

    /// The text that the buffer holds.
    pub closed spec fn text(self) -> String {
        self.text
    }

    /// The view of a buffer is the encoding of its text.
    pub proof fn lemma_view_is_encoded_text(self)
        ensures
            self@ == encode_utf8(self.text()@),
            PathBuf::holding(self.text()) == self,
    {
    }

    /// A buffer holds the text that it was made of.
    pub proof fn lemma_holding_text(text: String)
        ensures
            PathBuf::holding(text).text() == text,
    {
    }

    /// The buffer's text, borrowed.
    pub fn as_str(&self) -> (text: &str)
        ensures
            text.spec_bytes() == self@,
    {
        self.text.as_str()
    }

    /// The buffer seen as a borrowed path.
    pub fn as_path(&self) -> (path: Path<'_>)
        ensures
            path@ == self@,
    {
        Path::new(self.text.as_str())
    }

    /// Appends the segment `s`, behind a separator unless the buffer ends
    /// with one.
    pub fn push(&mut self, s: &str)
        ensures
            final(self)@ == push_bytes(old(self)@, s.spec_bytes()),
    {
        let bytes = self.text.as_str().as_bytes();
        let len = bytes.len();
        let ends_with_separator = len > 0 && bytes[len - 1] == SEPARATOR;
        let ghost before = self.text@;
        if !ends_with_separator {
            self.text.append("/");
            proof {
                lemma_encode_concat(before, "/"@);
                lemma_root_literal();
            }
        }
        let ghost middle = self.text@;
        self.text.append(s);
        proof {
            lemma_encode_concat(middle, s@);
        }
    }

    /// Removes the last segment together with the separator before it. A
    /// buffer without such a separator stays as it is.
    pub fn pop(&mut self)
        ensures
            final(self)@ == pop_bytes(old(self)@),
    {
        let text = self.text.as_str();
        let bytes = text.as_bytes();
        let len = bytes.len();
        let mut end: usize = len;
        while end > 0 && bytes[end - 1] == SEPARATOR
            invariant
                end <= len,
                len == bytes@.len(),
                forall|k: int| end <= k < len ==> bytes@[k] == SEPARATOR,
            decreases end,
        {
            end -= 1;
        }
        let ghost trimmed = bytes@.take(end as int);
        proof {
            lemma_trim_end_is(bytes@, end as int);
        }
        let mut at: usize = end;
        while at > 0 && bytes[at - 1] != SEPARATOR
            invariant
                at <= end <= len,
                len == bytes@.len(),
                forall|k: int| at <= k < end ==> bytes@[k] != SEPARATOR,
            decreases at,
        {
            at -= 1;
        }
        proof {
            trimmed.index_of_last_ensures(SEPARATOR);
            if at > 0 {
                assert(trimmed[at - 1] == SEPARATOR);
                assert(trimmed.contains(SEPARATOR));
                assert(trimmed.index_of_last(SEPARATOR)->0 == at - 1);
            } else {
                if trimmed.contains(SEPARATOR) {
                    let k = choose|k: int| 0 <= k < trimmed.len() && trimmed[k] == SEPARATOR;
                    assert(bytes@[k] != SEPARATOR);
                }
            }
        }
        if at == 0 {
            return ;
        }
        let kept = slice_between(text, 0, at - 1).to_owned();
        self.text = kept;
    }

    /// Applies the components that `components` has yet to yield, front to
    /// back.
    pub fn push_components(&mut self, components: Components<'_>)
        ensures
            final(self)@ == fold_components(old(self)@, components@),
    {
        let mut rest = components;
        loop
            invariant_except_break
                fold_components(self@, rest@) == fold_components(old(self)@, components@),
            ensures
                self@ == fold_components(old(self)@, components@),
            decreases rest@.len(),
        {
            match rest.next() {
                None => {
                    break ;
                },
                Some(component) => {
                    self.push_component(component);
                },
            }
        }
    }

    /// Applies one component: the root replaces the text by `/`, `.` changes
    /// nothing, `..` removes the last segment unless the text is `/`, and a
    /// name is appended.
    pub fn push_component(&mut self, component: Component<'_>)
        ensures
            final(self)@ == push_component_bytes(old(self)@, component@),
            component@ is Parent && old(self)@ == root_text() ==> final(self)@ == old(self)@,
    {
        match component {
            Component::Root => {
                proof {
                    lemma_root_literal();
                }
                self.text = "/".to_owned();
            },
            Component::Current => {},
            Component::Parent => {
                let bytes = self.text.as_str().as_bytes();
                if bytes.len() == 1 && bytes[0] == SEPARATOR {
                    assert(bytes@ =~= root_text());
                    return ;
                }
                assert(bytes@ != root_text()) by {
                    assert(root_text().len() == 1 && root_text()[0] == SEPARATOR);
                }
                self.pop()
            },
            Component::Name(name) => { self.push(name) },
        }
    }
}

impl PartialEq for PathBuf {
    /// Two buffers are equal when their texts have the same components.
    fn eq(&self, other: &Self) -> (same: bool) {
        self.as_path() == other.as_path()
    }
}

impl vstd::std_specs::cmp::PartialEqSpecImpl for PathBuf {
    open spec fn obeys_eq_spec() -> bool {
        true
    }

    open spec fn eq_spec(&self, other: &Self) -> bool {
        components_of(self@) == components_of(other@)
    }
}

impl From<String> for PathBuf {
    /// A buffer that holds `value`.
    fn from(value: String) -> (buf: PathBuf)
        ensures
            buf@ == encode_utf8(value@),
    {
        PathBuf { text: value }
    }
}

impl vstd::std_specs::convert::FromSpecImpl<String> for PathBuf {
    open spec fn obeys_from_spec() -> bool {
        true
    }

    open spec fn from_spec(v: String) -> PathBuf {
        PathBuf::holding(v)
    }
}

impl<'a> From<&'a str> for PathBuf {
    /// A buffer that holds a copy of `value`.
    fn from(value: &'a str) -> (buf: PathBuf)
        ensures
            buf@ == value.spec_bytes(),
    {
        PathBuf { text: value.to_owned() }
    }
}

impl<'a> vstd::std_specs::convert::FromSpecImpl<&'a str> for PathBuf {
    /// A fresh buffer is known by its text alone, so no one value is named
    /// as the result: the contract of `from` says what it holds.
    open spec fn obeys_from_spec() -> bool {
        false
    }

    open spec fn from_spec(v: &'a str) -> PathBuf {
        arbitrary()
    }
}

impl From<PathBuf> for String {
    /// The text of `value`.
    fn from(value: PathBuf) -> (text: String)
        ensures
            encode_utf8(text@) == value@,
    {
        value.text
    }
}

impl vstd::std_specs::convert::FromSpecImpl<PathBuf> for String {
    open spec fn obeys_from_spec() -> bool {
        true
    }

    open spec fn from_spec(v: PathBuf) -> String {
        v.text()
    }
}

impl<'a> From<Path<'a>> for String {
    /// A copy of the text of `value`.
    fn from(value: Path<'a>) -> (text: String)
        ensures
            encode_utf8(text@) == value@,
    {
        value.as_str().to_owned()
    }
}

impl<'a> vstd::std_specs::convert::FromSpecImpl<Path<'a>> for String {
    open spec fn obeys_from_spec() -> bool {
        false
    }

    open spec fn from_spec(v: Path<'a>) -> String {
        arbitrary()
    }
}

impl core::str::FromStr for PathBuf {
    type Err = ();

    /// A buffer that holds a copy of `s`. Every text is a path: this never
    /// fails.
    fn from_str(s: &str) -> (parsed: Result<Self, Self::Err>)
        ensures
            parsed is Ok,
            parsed->Ok_0@ == s.spec_bytes(),
    {
        Ok(PathBuf::from(s))
    }
}

impl Clone for PathBuf {
    /// A second buffer with the same text.
    fn clone(&self) -> (copy: Self)
        ensures
            copy@ == self@,
    {
        PathBuf { text: self.text.clone() }
    }
}

impl<'a> Path<'a> {
    /// An owned copy of the path.
    pub fn to_owned(&self) -> (buf: PathBuf)
        ensures
            buf@ == self@,
    {
        PathBuf::from(self.as_str())
    }

    /// Joins `path` to this path. An absolute `path` replaces this path;
    /// the components of a relative one are applied to a copy of it.
    pub fn join(&self, path: Path<'_>) -> (joined: PathBuf)
        ensures
            joined@ == join_bytes(self@, path@),
    {
        if path.is_absolute() {
            path.to_owned()
        } else {
            let mut buf = self.to_owned();
            buf.push_components(path.components());
            buf
        }
    }

    /// Resolves `other` against this path: every component of `other`, the
    /// root included, is applied to a copy of this path. Nothing but the two
    /// texts is looked at.
    pub fn resolve(&self, other: Path<'_>) -> (resolved: PathBuf)
        ensures
            resolved@ == resolve_bytes(self@, other@),
    {
        let mut buf = self.to_owned();
        buf.push_components(other.components());
        buf
    }
}

} // verus!
