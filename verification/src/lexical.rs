//! The lexical structure of a path, stated over its bytes: the separator,
//! the segments between separators, and the lemmas that let a parser walk
//! the text from either end.

use vstd::prelude::*;

verus! {

/// The byte `/`, which separates the segments of a path.
pub const SEPARATOR: u8 = 0x2f;

/// The byte `.`, of which the special segments `.` and `..` are made.
pub const DOT: u8 = 0x2e;

/// A segment is a non-empty run of bytes without a separator.
pub open spec fn is_segment(s: Seq<u8>) -> bool {
    &&& s.len() > 0
    &&& forall|i: int| 0 <= i < s.len() ==> s[i] != SEPARATOR
}

/// Whether every byte of `s` is a separator.
pub open spec fn all_separators(s: Seq<u8>) -> bool {
    forall|i: int| 0 <= i < s.len() ==> s[i] == SEPARATOR
}

/// The number of bytes at the start of `s` that precede its first separator.
pub open spec fn run_len(s: Seq<u8>) -> int
    decreases s.len(),
{
    if s.len() == 0 || s[0] == SEPARATOR {
        0
    } else {
        1 + run_len(s.drop_first())
    }
}

/// The segments of `s` from left to right: what is left of `s` when it is
/// cut at every separator and the empty pieces are thrown away.
pub open spec fn segments(s: Seq<u8>) -> Seq<Seq<u8>>
    decreases s.len(),
{
    if s.len() == 0 {
        Seq::empty()
    } else if s[0] == SEPARATOR {
        segments(s.drop_first())
    } else {
        proof {
            lemma_run_len(s);
        }
        seq![s.take(run_len(s))] + segments(s.skip(run_len(s)))
    }
}

/// `s` without the separators at its end.
pub open spec fn trim_end(s: Seq<u8>) -> Seq<u8>
    decreases s.len(),
{
    if s.len() > 0 && s.last() == SEPARATOR {
        trim_end(s.drop_last())
    } else {
        s
    }
}

/// `run_len` stops at the first separator, or at the end where there is none.
pub proof fn lemma_run_len(s: Seq<u8>)
    ensures
        0 <= run_len(s) <= s.len(),
        forall|i: int| 0 <= i < run_len(s) ==> s[i] != SEPARATOR,
        run_len(s) < s.len() ==> s[run_len(s)] == SEPARATOR,
        s.len() > 0 && s[0] != SEPARATOR ==> run_len(s) > 0,
    decreases s.len(),
{
    if s.len() == 0 || s[0] == SEPARATOR {
    } else {
        let t = s.drop_first();
        lemma_run_len(t);
        assert forall|i: int| 0 <= i < run_len(s) implies s[i] != SEPARATOR by {
            if i > 0 {
                assert(s[i] == t[i - 1]);
            }
        }
        if run_len(s) < s.len() {
            assert(s[run_len(s)] == t[run_len(t)]);
        }
    }
}

/// A separator-free prefix that ends at a separator, or at the end of `s`,
/// has the length `run_len(s)`.
pub proof fn lemma_run_len_is(s: Seq<u8>, n: int)
    requires
        0 <= n <= s.len(),
        forall|i: int| 0 <= i < n ==> s[i] != SEPARATOR,
        n == s.len() || s[n] == SEPARATOR,
    ensures
        run_len(s) == n,
{
    lemma_run_len(s);
    if run_len(s) < n {
        assert(s[run_len(s)] == SEPARATOR);
    } else if n < run_len(s) {
        assert(s[n] != SEPARATOR);
    }
}

/// Separators at the start of `s` contribute no segment.
pub proof fn lemma_segments_skip_separators(s: Seq<u8>, k: int)
    requires
        0 <= k <= s.len(),
        forall|i: int| 0 <= i < k ==> s[i] == SEPARATOR,
    ensures
        segments(s) == segments(s.skip(k)),
    decreases k,
{
    if k == 0 {
        assert(s.skip(0) =~= s);
    } else {
        let t = s.drop_first();
        assert forall|i: int| 0 <= i < k - 1 implies t[i] == SEPARATOR by {
            assert(t[i] == s[i + 1]);
        }
        lemma_segments_skip_separators(t, k - 1);
        assert(t.skip(k - 1) =~= s.skip(k));
    }
}

/// A text made of separators alone has no segment.
pub proof fn lemma_segments_of_separators(s: Seq<u8>)
    requires
        all_separators(s),
    ensures
        segments(s) == Seq::<Seq<u8>>::empty(),
{
    lemma_segments_skip_separators(s, s.len() as int);
    assert(s.skip(s.len() as int) =~= Seq::<u8>::empty());
}

/// Where `s` starts with a separator-free run of `n` bytes that ends at a
/// separator or at the end of `s`, that run is the first segment.
pub proof fn lemma_segments_first(s: Seq<u8>, n: int)
    requires
        0 < n <= s.len(),
        forall|i: int| 0 <= i < n ==> s[i] != SEPARATOR,
        n == s.len() || s[n] == SEPARATOR,
    ensures
        segments(s) == seq![s.take(n)] + segments(s.skip(n)),
{
    lemma_run_len_is(s, n);
    assert(s[0] != SEPARATOR);
}

/// A segment is the one segment of itself.
pub proof fn lemma_segments_of_segment(s: Seq<u8>)
    requires
        is_segment(s),
    ensures
        segments(s) == seq![s],
{
    let n = s.len() as int;
    lemma_segments_first(s, n);
    assert(s.take(n) =~= s);
    assert(s.skip(n) =~= Seq::<u8>::empty());
    assert(seq![s] + Seq::<Seq<u8>>::empty() =~= seq![s]);
}

/// Whether no segment can straddle the place where `a` and `b` meet.
pub open spec fn splits_cleanly(a: Seq<u8>, b: Seq<u8>) -> bool {
    a.len() == 0 || b.len() == 0 || a.last() == SEPARATOR || b[0] == SEPARATOR
}

/// Where two texts meet at a separator, the segments of the whole are those
/// of the first followed by those of the second.
pub proof fn lemma_segments_concat(a: Seq<u8>, b: Seq<u8>)
    requires
        splits_cleanly(a, b),
    ensures
        segments(a + b) == segments(a) + segments(b),
    decreases a.len(),
{
    let ab = a + b;
    if a.len() == 0 {
        assert(ab =~= b);
        assert(segments(a) + segments(b) =~= segments(b));
    } else if b.len() == 0 {
        assert(ab =~= a);
        assert(segments(a) + segments(b) =~= segments(a));
    } else if a[0] == SEPARATOR {
        let t = a.drop_first();
        assert(ab.drop_first() =~= t + b);
        if t.len() > 0 {
            assert(t.last() == a.last());
        }
        lemma_segments_concat(t, b);
    } else {
        lemma_run_len(a);
        let n = run_len(a);
        let t = a.skip(n);
        assert forall|i: int| 0 <= i < n implies ab[i] != SEPARATOR by {
            assert(ab[i] == a[i]);
        }
        if n == a.len() {
            assert(a.last() == a[n - 1]);
            assert(ab[n] == b[0]);
        } else {
            assert(ab[n] == a[n]);
        }
        lemma_segments_first(ab, n);
        assert(ab.take(n) =~= a.take(n));
        assert(ab.skip(n) =~= t + b);
        if t.len() > 0 {
            assert(t.last() == a.last());
        }
        lemma_segments_concat(t, b);
        assert(segments(ab) =~= segments(a) + segments(b));
    }
}

/// Every element of `segments(s)` is a segment.
pub proof fn lemma_segments_are_segments(s: Seq<u8>)
    ensures
        forall|k: int| 0 <= k < segments(s).len() ==> is_segment(#[trigger] segments(s)[k]),
    decreases s.len(),
{
    if s.len() == 0 {
        assert(segments(s).len() == 0);
    } else if s[0] == SEPARATOR {
        lemma_segments_are_segments(s.drop_first());
        assert(segments(s) == segments(s.drop_first()));
    } else {
        lemma_run_len(s);
        let n = run_len(s);
        let rest = segments(s.skip(n));
        assert(segments(s) == seq![s.take(n)] + rest);
        lemma_segments_are_segments(s.skip(n));
        assert(is_segment(s.take(n)));
        assert forall|k: int| 0 <= k < segments(s).len() implies is_segment(
            #[trigger] segments(s)[k],
        ) by {
            if k > 0 {
                assert(segments(s)[k] == rest[k - 1]);
            }
        }
    }
}

/// `trim_end(s)` is the prefix of `s` that ends behind its last byte other
/// than a separator.
pub proof fn lemma_trim_end_is(s: Seq<u8>, n: int)
    requires
        0 <= n <= s.len(),
        forall|i: int| n <= i < s.len() ==> s[i] == SEPARATOR,
        n == 0 || s[n - 1] != SEPARATOR,
    ensures
        trim_end(s) == s.take(n),
    decreases s.len(),
{
    if n == s.len() {
        assert(s.take(n) =~= s);
    } else {
        let t = s.drop_last();
        lemma_trim_end_is(t, n);
        assert(t.take(n) =~= s.take(n));
    }
}

} // verus!
