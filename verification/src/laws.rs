//! Laws of the component decomposition, proved once for all paths.

use crate::components::{classify, classify_all, components_of, root_part, starts_at_root, ComponentView};
use crate::lexical::{
    is_segment, lemma_segments_are_segments, lemma_segments_concat, lemma_segments_of_separators,
    segments, DOT, SEPARATOR,
};
use crate::path_buf::{push_component_bytes, root_text};
use vstd::prelude::*;

verus! {

/// The order in which a cursor that holds `remaining` yields its components
/// when it is asked from the front until nothing is left.
pub open spec fn front_to_back(remaining: Seq<ComponentView>) -> Seq<ComponentView>
    decreases remaining.len(),
{
    if remaining.len() == 0 {
        Seq::empty()
    } else {
        seq![remaining.first()] + front_to_back(remaining.drop_first())
    }
}

/// The order in which a cursor that holds `remaining` yields its components
/// when it is asked from the back until nothing is left.
pub open spec fn back_to_front(remaining: Seq<ComponentView>) -> Seq<ComponentView>
    decreases remaining.len(),
{
    if remaining.len() == 0 {
        Seq::empty()
    } else {
        seq![remaining.last()] + back_to_front(remaining.drop_last())
    }
}

/// Asked from the front, a cursor yields what it holds, in order.
pub proof fn lemma_front_to_back(remaining: Seq<ComponentView>)
    ensures
        front_to_back(remaining) == remaining,
    decreases remaining.len(),
{
    if remaining.len() > 0 {
        lemma_front_to_back(remaining.drop_first());
        assert(seq![remaining.first()] + remaining.drop_first() =~= remaining);
    }
}

/// Asked from the back, a cursor yields what it holds, in reverse order.
pub proof fn lemma_back_to_front(remaining: Seq<ComponentView>)
    ensures
        back_to_front(remaining) == remaining.reverse(),
    decreases remaining.len(),
{
    if remaining.len() > 0 {
        lemma_back_to_front(remaining.drop_last());
        assert(seq![remaining.last()] + remaining.drop_last().reverse() =~= remaining.reverse());
    } else {
        assert(remaining.reverse() =~= Seq::<ComponentView>::empty());
    }
}

/// Walking the components of a path from the front gives the same list as
/// walking them from the back and reversing what came out.
pub proof fn lemma_directions_agree(path: Seq<u8>)
    ensures
        front_to_back(components_of(path)) == back_to_front(components_of(path)).reverse(),
        front_to_back(components_of(path)) == components_of(path),
{
    let all = components_of(path);
    lemma_front_to_back(all);
    lemma_back_to_front(all);
    assert(all.reverse().reverse() =~= all);
}

/// A separator that follows another changes no component: a path with `/`
/// between `left` and `right` has the components of the path with `//`
/// there.
pub proof fn lemma_repeated_separator(left: Seq<u8>, right: Seq<u8>)
    ensures
        components_of(left + seq![SEPARATOR, SEPARATOR] + right) == components_of(
            left + seq![SEPARATOR] + right,
        ),
{
    let one = seq![SEPARATOR] + right;
    let two = seq![SEPARATOR, SEPARATOR] + right;
    assert(left + seq![SEPARATOR] + right =~= left + one);
    assert(left + seq![SEPARATOR, SEPARATOR] + right =~= left + two);
    lemma_segments_concat(left, one);
    lemma_segments_concat(left, two);
    assert(one.drop_first() =~= right);
    assert(two.drop_first() =~= one);
    assert(segments(two) == segments(one));
    assert(starts_at_root(left + one) == starts_at_root(left + two));
}

/// A separator at the end of a path that is not empty changes no component.
pub proof fn lemma_trailing_separator(path: Seq<u8>)
    requires
        path.len() > 0,
    ensures
        components_of(path + seq![SEPARATOR]) == components_of(path),
{
    let tail = seq![SEPARATOR];
    lemma_segments_concat(path, tail);
    lemma_segments_of_separators(tail);
    assert(segments(path) + Seq::<Seq<u8>>::empty() =~= segments(path));
    assert(starts_at_root(path + tail) == starts_at_root(path));
}

/// The shape of every component list: the root stands first or nowhere,
/// and it stands there exactly for a path that starts with a separator; a
/// name is never empty, holds no separator, and is neither `.` nor `..`.
pub proof fn lemma_components_shape(path: Seq<u8>)
    ensures
        starts_at_root(path) <==> components_of(path).len() > 0 && components_of(path).first()
            == ComponentView::Root,
        forall|k: int|
            0 < k < components_of(path).len() ==> #[trigger] components_of(path)[k]
                != ComponentView::Root,
        forall|k: int|
            0 <= k < components_of(path).len() ==> (#[trigger] components_of(path)[k]
                matches ComponentView::Name(name) ==> is_segment(name) && name != seq![DOT] && name
                != seq![DOT, DOT]),
{
    let all = components_of(path);
    let segs = segments(path);
    let root = root_part(starts_at_root(path));
    lemma_segments_are_segments(path);
    assert forall|k: int| 0 <= k < all.len() && k >= root.len() implies all[k] == classify(
        segs[k - root.len()],
    ) && is_segment(segs[k - root.len()]) by {
        assert(classify_all(segs)[k - root.len()] == classify(segs[k - root.len()]));
    }
}

/// At the root, the parent component changes nothing.
pub proof fn lemma_parent_of_root()
    ensures
        push_component_bytes(root_text(), ComponentView::Parent) == root_text(),
{
}

} // verus!
