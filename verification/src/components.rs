//! The components of a path and the double-ended cursor that produces them.

use crate::lexical::{
    all_separators, is_segment, lemma_segments_concat, lemma_segments_first,
    lemma_segments_of_segment, lemma_segments_of_separators, lemma_segments_skip_separators,
    segments, DOT, SEPARATOR,
};
use crate::slicing::{is_cut, slice_between};
use vstd::prelude::*;
use vstd::string::*;

verus! {

/// One lexical unit of a path.
#[derive(Debug, Clone, Copy)]
pub enum Component<'a> {
    /// The leading `/` of an absolute path.
    Root,
    /// The segment `.`.
    Current,
    /// The segment `..`.
    Parent,
    /// Any other segment.
    Name(&'a str),
}

/// What a `Component` stands for: its kind and, for a name, the name's bytes.
pub enum ComponentView {
    Root,
    Current,
    Parent,
    Name(Seq<u8>),
}

impl<'a> View for Component<'a> {
    type V = ComponentView;

    open spec fn view(&self) -> ComponentView {
        match *self {
            Component::Root => ComponentView::Root,
            Component::Current => ComponentView::Current,
            Component::Parent => ComponentView::Parent,
            Component::Name(name) => ComponentView::Name(name.spec_bytes()),
        }
    }
}

/// The component that a segment stands for.
pub open spec fn classify(segment: Seq<u8>) -> ComponentView {
    if segment == seq![DOT] {
        ComponentView::Current
    } else if segment == seq![DOT, DOT] {
        ComponentView::Parent
    } else {
        ComponentView::Name(segment)
    }
}

/// The components that a list of segments stands for, one for one.
pub open spec fn classify_all(segments: Seq<Seq<u8>>) -> Seq<ComponentView> {
    segments.map_values(|segment: Seq<u8>| classify(segment))
}

/// Whether a path text starts with a separator.
pub open spec fn starts_at_root(bytes: Seq<u8>) -> bool {
    bytes.len() > 0 && bytes[0] == SEPARATOR
}

/// The root component, where `present`, as a list of one or no element.
pub open spec fn root_part(present: bool) -> Seq<ComponentView> {
    if present {
        seq![ComponentView::Root]
    } else {
        Seq::empty()
    }
}

/// The components of a path text, front to back: the root if the text
/// starts with a separator, then one component for each segment.
pub open spec fn components_of(bytes: Seq<u8>) -> Seq<ComponentView> {
    root_part(starts_at_root(bytes)) + classify_all(segments(bytes))
}

/// Whether two byte slices hold the same bytes.
pub fn same_bytes(a: &[u8], b: &[u8]) -> (same: bool)
    ensures
        same == (a@ == b@),
{
    if a.len() != b.len() {
        return false;
    }
    let mut i: usize = 0;
    while i < a.len()
        invariant
            a.len() == b.len(),
            i <= a.len(),
            forall|k: int| 0 <= k < i ==> a@[k] == b@[k],
        decreases a.len() - i,
    {
        if a[i] != b[i] {
            return false;
        }
        i += 1;
    }
    assert(a@ =~= b@);
    true
}

impl<'a> Component<'a> {
    /// Classifies one segment of a path.
    pub fn from_str(s: &'a str) -> (component: Component<'a>)
        requires
            is_segment(s.spec_bytes()),
        ensures
            component@ == classify(s.spec_bytes()),
    {
        let bytes = s.as_bytes();
        if bytes.len() == 1 && bytes[0] == DOT {
            assert(bytes@ =~= seq![DOT]);
            Component::Current
        } else if bytes.len() == 2 && bytes[0] == DOT && bytes[1] == DOT {
            assert(bytes@ =~= seq![DOT, DOT]);
            Component::Parent
        } else {
            assert(bytes@ != seq![DOT]) by {
                if bytes@ == seq![DOT] {
                    assert(seq![DOT].len() == 1);
                    assert(seq![DOT][0] == DOT);
                }
            }
            assert(bytes@ != seq![DOT, DOT]) by {
                if bytes@ == seq![DOT, DOT] {
                    assert(seq![DOT, DOT].len() == 2);
                    assert(seq![DOT, DOT][0] == DOT);
                    assert(seq![DOT, DOT][1] == DOT);
                }
            }
            Component::Name(s)
        }
    }
}

impl<'a> PartialEq for Component<'a> {
    /// Two components are equal when they are of the same kind and, if they
    /// are names, hold the same bytes.
    fn eq(&self, other: &Self) -> (same: bool) {
        match (*self, *other) {
            (Component::Root, Component::Root) => true,
            (Component::Current, Component::Current) => true,
            (Component::Parent, Component::Parent) => true,
            (Component::Name(a), Component::Name(b)) => same_bytes(a.as_bytes(), b.as_bytes()),
            _ => false,
        }
    }
}

impl<'a> vstd::std_specs::cmp::PartialEqSpecImpl for Component<'a> {
    open spec fn obeys_eq_spec() -> bool {
        true
    }

    open spec fn eq_spec(&self, other: &Self) -> bool {
        self@ == other@
    }
}

impl<'a> Eq for Component<'a> {

}

/// Classifying a list of segments that consists of two parts classifies
/// each part.
pub proof fn lemma_classify_all_concat(a: Seq<Seq<u8>>, b: Seq<Seq<u8>>)
    ensures
        classify_all(a + b) == classify_all(a) + classify_all(b),
        classify_all(seq![]) == Seq::<ComponentView>::empty(),
{
    assert(classify_all(a + b) =~= classify_all(a) + classify_all(b));
    assert(classify_all(seq![]) =~= Seq::<ComponentView>::empty());
}

/// A list of one segment classifies to a list of one component.
pub proof fn lemma_classify_all_one(segment: Seq<u8>)
    ensures
        classify_all(seq![segment]) == seq![classify(segment)],
{
    assert(classify_all(seq![segment]) =~= seq![classify(segment)]);
}

/// A double-ended cursor over the components of a path. It borrows the
/// path's text and yields each component once, from whichever end is asked.
#[derive(Debug)]
pub struct Components<'a> {
    text: &'a str,
    front: usize,
    back: usize,
    has_root: bool,
}

impl<'a> View for Components<'a> {
    type V = Seq<ComponentView>;

    /// The components that have not been yielded yet, front to back.
    closed spec fn view(&self) -> Seq<ComponentView> {
        root_part(self.has_root) + classify_all(
            segments(self.text.spec_bytes().subrange(self.front as int, self.back as int)),
        )
    }
}

impl<'a> Components<'a> {
    /// The cursor's window lies within its text and is bounded by places
    /// where the text may be cut.
    #[verifier::type_invariant]
    spec fn wf(&self) -> bool {
        &&& self.front <= self.back <= self.text.spec_bytes().len()
        &&& is_cut(self.text.spec_bytes(), self.front as int)
        &&& is_cut(self.text.spec_bytes(), self.back as int)
    }

    /// A cursor over all components of the path text `s`.
    pub fn from_str(s: &'a str) -> (components: Components<'a>)
        ensures
            components@ == components_of(s.spec_bytes()),
    {
        let bytes = s.as_bytes();
        let has_root = bytes.len() > 0 && bytes[0] == SEPARATOR;
        assert(bytes@.subrange(0, bytes@.len() as int) =~= bytes@);
        Components { text: s, front: 0, back: bytes.len(), has_root }
    }

    /// Yields the first remaining component, if any is left.
    pub fn next(&mut self) -> (item: Option<Component<'a>>)
        ensures
            old(self)@.len() == 0 ==> item is None && final(self)@ == old(self)@,
            old(self)@.len() > 0 ==> item is Some && item->0@ == old(self)@.first()
                && final(self)@ == old(self)@.drop_first(),
    {
        proof {
            use_type_invariant(&*self);
        }
        let ghost bytes = self.text.spec_bytes();
        let ghost rest = classify_all(segments(bytes.subrange(self.front as int, self.back as int)));
        if self.has_root {
            self.has_root = false;
            assert(rest =~= (seq![ComponentView::Root] + rest).drop_first());
            return Some(Component::Root);
        }
        assert(self@ =~= rest);
        let raw = self.text.as_bytes();
        let front = self.front;
        let back = self.back;
        let mut start: usize = front;
        while start < back && raw[start] == SEPARATOR
            invariant
                raw@ == bytes,
                front <= start <= back <= bytes.len(),
                forall|k: int| front <= k < start ==> bytes[k] == SEPARATOR,
            decreases back - start,
        {
            start += 1;
        }
        let ghost window = bytes.subrange(front as int, back as int);
        let ghost tail = bytes.subrange(start as int, back as int);
        proof {
            lemma_segments_skip_separators(window, start - front);
            assert(window.skip(start - front) =~= tail);
        }
        if start == back {
            self.front = start;
            proof {
                assert(tail =~= Seq::<u8>::empty());
                lemma_classify_all_concat(seq![], seq![]);
                assert(segments(tail) =~= Seq::<Seq<u8>>::empty());
            }
            return None;
        }
        let mut end: usize = start;
        while end < back && raw[end] != SEPARATOR
            invariant
                raw@ == bytes,
                start <= end <= back <= bytes.len(),
                forall|k: int| start <= k < end ==> bytes[k] != SEPARATOR,
            decreases back - end,
        {
            end += 1;
        }
        let ghost segment = bytes.subrange(start as int, end as int);
        let ghost after = bytes.subrange(end as int, back as int);
        proof {
            lemma_segments_first(tail, end - start);
            assert(tail.take(end - start) =~= segment);
            assert(tail.skip(end - start) =~= after);
            lemma_classify_all_concat(seq![segment], segments(after));
            lemma_classify_all_one(segment);
            assert(classify_all(segments(after)) =~= (seq![classify(segment)] + classify_all(
                segments(after),
            )).drop_first());
        }
        let name = slice_between(self.text, start, end);
        self.front = end;
        Some(Component::from_str(name))
    }

    /// Yields the last remaining component, if any is left.
    pub fn next_back(&mut self) -> (item: Option<Component<'a>>)
        ensures
            old(self)@.len() == 0 ==> item is None && final(self)@ == old(self)@,
            old(self)@.len() > 0 ==> item is Some && item->0@ == old(self)@.last()
                && final(self)@ == old(self)@.drop_last(),
    {
        proof {
            use_type_invariant(&*self);
        }
        let ghost bytes = self.text.spec_bytes();
        let raw = self.text.as_bytes();
        let front = self.front;
        let back = self.back;
        let mut end: usize = back;
        while end > front && raw[end - 1] == SEPARATOR
            invariant
                raw@ == bytes,
                front <= end <= back <= bytes.len(),
                forall|k: int| end <= k < back ==> bytes[k] == SEPARATOR,
            decreases end,
        {
            end -= 1;
        }
        let ghost window = bytes.subrange(front as int, back as int);
        let ghost head = bytes.subrange(front as int, end as int);
        let ghost trail = bytes.subrange(end as int, back as int);
        proof {
            assert(all_separators(trail));
            lemma_segments_of_separators(trail);
            lemma_segments_concat(head, trail);
            assert(head + trail =~= window);
            assert(segments(head) + Seq::<Seq<u8>>::empty() =~= segments(head));
        }
        if end == front {
            proof {
                assert(head =~= Seq::<u8>::empty());
                assert(segments(window) =~= Seq::<Seq<u8>>::empty());
                lemma_classify_all_concat(seq![], seq![]);
            }
            if self.has_root {
                self.has_root = false;
                assert(old(self)@ =~= seq![ComponentView::Root]);
                assert(self@ =~= old(self)@.drop_last());
                return Some(Component::Root);
            }
            assert(old(self)@ =~= Seq::<ComponentView>::empty());
            return None;
        }
        let mut start: usize = end;
        while start > front && raw[start - 1] != SEPARATOR
            invariant
                raw@ == bytes,
                front <= start <= end <= bytes.len(),
                forall|k: int| start <= k < end ==> bytes[k] != SEPARATOR,
            decreases start,
        {
            start -= 1;
        }
        let ghost before = bytes.subrange(front as int, start as int);
        let ghost segment = bytes.subrange(start as int, end as int);
        proof {
            assert(before + segment =~= head);
            lemma_segments_concat(before, segment);
            lemma_segments_of_segment(segment);
            lemma_classify_all_concat(segments(before), seq![segment]);
            lemma_classify_all_one(segment);
            let kept = root_part(self.has_root) + classify_all(segments(before));
            assert(old(self)@ =~= kept + seq![classify(segment)]);
            assert(kept =~= (kept + seq![classify(segment)]).drop_last());
        }
        let name = slice_between(self.text, start, end);
        self.back = start;
        Some(Component::from_str(name))
    }
}

impl<'a> Clone for Components<'a> {
    /// A second cursor at the same place of the same text.
    fn clone(&self) -> (copy: Self)
        ensures
            copy@ == self@,
    {
        proof {
            use_type_invariant(self);
        }
        Components {
            text: self.text,
            front: self.front,
            back: self.back,
            has_root: self.has_root,
        }
    }
}

impl<'a> PartialEq for Components<'a> {
    /// Two cursors are equal when the components they have yet to yield are
    /// the same, one for one and in the same order.
    fn eq(&self, other: &Self) -> (same: bool) {
        let mut left = self.clone();
        let mut right = other.clone();
        let mut verdict: bool = true;
        let ghost mut seen: Seq<ComponentView> = Seq::empty();
        assert(self@ =~= seen + left@);
        assert(other@ =~= seen + right@);
        loop
            invariant_except_break
                self@ == seen + left@,
                other@ == seen + right@,
            ensures
                verdict == (self@ == other@),
            decreases left@.len(),
        {
            let ghost left_before = left@;
            let ghost right_before = right@;
            let a = left.next();
            let b = right.next();
            match (a, b) {
                (None, None) => {
                    verdict = true;
                    break ;
                },
                (Some(x), Some(y)) => {
                    if !(x == y) {
                        proof {
                            assert(self@[seen.len() as int] == x@);
                            assert(other@[seen.len() as int] == y@);
                        }
                        verdict = false;
                        break ;
                    }
                    proof {
                        assert(seen + left_before =~= seen.push(x@) + left@);
                        assert(seen + right_before =~= seen.push(y@) + right@);
                        seen = seen.push(x@);
                    }
                },
                _ => {
                    proof {
                        assert(self@.len() != other@.len());
                    }
                    verdict = false;
                    break ;
                },
            }
        }
        verdict
    }
}

impl<'a> vstd::std_specs::cmp::PartialEqSpecImpl for Components<'a> {
    open spec fn obeys_eq_spec() -> bool {
        true
    }

    open spec fn eq_spec(&self, other: &Self) -> bool {
        self@ == other@
    }
}

} // verus!
