//! Stable sorting by a comparison, and the lexicographic order of text.
use vstd::prelude::*;

verus! {

broadcast use {vstd::seq_lib::to_multiset_build, vstd::seq_lib::to_multiset_insert};

/// `s` with `x` placed after every element, counted from the end, that does
/// not come after it: after the last run of greater elements' predecessor.
pub open spec fn insert_sorted<T>(s: Seq<T>, x: T, le: spec_fn(T, T) -> bool) -> Seq<T>
    decreases s.len(),
{
    if s.len() == 0 {
        seq![x]
    } else if le(s.last(), x) {
        s.push(x)
    } else {
        insert_sorted(s.drop_last(), x, le).push(s.last())
    }
}

/// The stable sort of `s` by `le`: each element in turn inserted into the
/// sorted run of those before it.
pub open spec fn sorted_by<T>(s: Seq<T>, le: spec_fn(T, T) -> bool) -> Seq<T>
    decreases s.len(),
{
    if s.len() == 0 {
        Seq::empty()
    } else {
        insert_sorted(sorted_by(s.drop_last(), le), s.last(), le)
    }
}

pub open spec fn is_sorted_by<T>(s: Seq<T>, le: spec_fn(T, T) -> bool) -> bool {
    forall|i: int, j: int| 0 <= i < j < s.len() ==> le(#[trigger] s[i], #[trigger] s[j])
}

/// `le` orders every pair, and transitively.
pub open spec fn total_preorder<T>(le: spec_fn(T, T) -> bool) -> bool {
    &&& forall|a: T, b: T| #[trigger] le(a, b) || le(b, a)
    &&& forall|a: T, b: T, c: T| #[trigger] le(a, b) && #[trigger] le(b, c) ==> le(a, c)
}

proof fn lemma_insert_sorted_keeps<T>(s: Seq<T>, x: T, le: spec_fn(T, T) -> bool)
    ensures
        insert_sorted(s, x, le).to_multiset() == s.to_multiset().insert(x),
        insert_sorted(s, x, le).len() == s.len() + 1,
    decreases s.len(),
{
    if s.len() == 0 {
        assert(seq![x] =~= Seq::<T>::empty().push(x));
        assert(s =~= Seq::<T>::empty());
    } else if le(s.last(), x) {
    } else {
        lemma_insert_sorted_keeps(s.drop_last(), x, le);
        assert(s.drop_last().push(s.last()) =~= s);
        assert(s.drop_last().to_multiset().insert(x).insert(s.last()) =~= s.drop_last().to_multiset().insert(
            s.last(),
        ).insert(x));
    }
}

proof fn lemma_insert_sorted_sorted<T>(s: Seq<T>, x: T, le: spec_fn(T, T) -> bool)
    requires
        total_preorder(le),
        is_sorted_by(s, le),
    ensures
        is_sorted_by(insert_sorted(s, x, le), le),
        forall|k: int| 0 <= k < insert_sorted(s, x, le).len() ==> (#[trigger] insert_sorted(s, x, le)[k] == x
            || s.contains(insert_sorted(s, x, le)[k])),
    decreases s.len(),
{
    let r = insert_sorted(s, x, le);
    if s.len() == 0 {
    } else if le(s.last(), x) {
        assert forall|i: int, j: int| 0 <= i < j < r.len() implies le(#[trigger] r[i], #[trigger] r[j]) by {
            if j == s.len() {
                if i < s.len() - 1 {
                    assert(le(s[i], s[s.len() - 1]));
                }
            }
        }
        assert forall|k: int| 0 <= k < r.len() implies (#[trigger] r[k] == x || s.contains(r[k])) by {
            if k < s.len() {
                assert(s[k] == r[k]);
            }
        }
    } else {
        let t = s.drop_last();
        lemma_insert_sorted_sorted(t, x, le);
        let q = insert_sorted(t, x, le);
        assert(le(x, s.last()));
        assert forall|i: int, j: int| 0 <= i < j < r.len() implies le(#[trigger] r[i], #[trigger] r[j]) by {
            if j == r.len() - 1 {
                assert(r[j] == s.last());
                if q[i] == x {
                } else {
                    assert(t.contains(q[i]));
                    let k = choose|k: int| 0 <= k < t.len() && t[k] == q[i];
                    assert(s[k] == t[k]);
                    assert(le(s[k], s[s.len() - 1]));
                }
            } else {
                assert(r[i] == q[i] && r[j] == q[j]);
            }
        }
        assert forall|k: int| 0 <= k < r.len() implies (#[trigger] r[k] == x || s.contains(r[k])) by {
            if k == r.len() - 1 {
                assert(s[s.len() - 1] == r[k]);
            } else {
                assert(r[k] == q[k]);
                if q[k] != x {
                    assert(t.contains(q[k]));
                    let m = choose|m: int| 0 <= m < t.len() && t[m] == q[k];
                    assert(s[m] == t[m]);
                }
            }
        }
    }
}

/// A stable sort by a total preorder puts its elements in order and keeps
/// each element as often as it was there.
pub proof fn lemma_sorted_by<T>(s: Seq<T>, le: spec_fn(T, T) -> bool)
    requires
        total_preorder(le),
    ensures
        is_sorted_by(sorted_by(s, le), le),
        sorted_by(s, le).to_multiset() == s.to_multiset(),
        sorted_by(s, le).len() == s.len(),
    decreases s.len(),
{
    if s.len() == 0 {
        assert(sorted_by(s, le) =~= Seq::<T>::empty());
        assert(s =~= Seq::<T>::empty());
    } else {
        lemma_sorted_by(s.drop_last(), le);
        lemma_insert_sorted_sorted(sorted_by(s.drop_last(), le), s.last(), le);
        lemma_insert_sorted_keeps(sorted_by(s.drop_last(), le), s.last(), le);
        assert(s.drop_last().push(s.last()) =~= s);
    }
}

/// Sorts `v` stably by the comparison `le`, which answers as `spec_le`; see
/// `sorted_by`.
pub fn insertion_sort<T, F: Fn(&T, &T) -> bool>(v: Vec<T>, le: F, Ghost(spec_le): Ghost<spec_fn(T, T) -> bool>) -> (r: Vec<T>)
    requires
        forall|a: &T, b: &T| #[trigger] le.requires((a, b)),
        forall|a: &T, b: &T, x: bool| #[trigger] le.ensures((a, b), x) ==> x == spec_le(*a, *b),
    ensures
        r@ == sorted_by(v@, spec_le),
{
    let ghost s = v@;
    let mut rest = v;
    let mut out: Vec<T> = Vec::new();
    let ghost n = s.len();
    assert(s.skip(0) =~= s);
    assert(sorted_by(s.take(0), spec_le) =~= out@);
    while rest.len() > 0
        invariant
            rest.len() <= n,
            n == s.len(),
            rest@ == s.skip(n - rest.len()),
            out@ == sorted_by(s.take(n - rest.len()), spec_le),
            forall|a: &T, b: &T| #[trigger] le.requires((a, b)),
            forall|a: &T, b: &T, x: bool| #[trigger] le.ensures((a, b), x) ==> x == spec_le(*a, *b),
        decreases rest.len(),
    {
        let ghost k = n - rest.len();
        let ghost before = rest@;
        let x = rest.remove(0);
        proof {
            assert(rest@ =~= before.skip(1));
            assert(rest@ =~= s.skip(k + 1));
            assert(s.take(k + 1).drop_last() =~= s.take(k));
            assert(s.take(k + 1).last() == x);
        }
        let ghost o = out@;
        let mut i = out.len();
        assert(o.take(i as int) =~= o);
        assert(o.skip(i as int) =~= Seq::<T>::empty());
        while i > 0
            invariant
                i <= out.len(),
                out@ == o,
                insert_sorted(o.take(i as int), x, spec_le) + o.skip(i as int) == insert_sorted(o, x, spec_le),
                forall|a: &T, b: &T| #[trigger] le.requires((a, b)),
                forall|a: &T, b: &T, y: bool| #[trigger] le.ensures((a, b), y) ==> y == spec_le(*a, *b),
            ensures
                i == 0 || spec_le(o[i - 1], x),
            decreases i,
        {
            let fits = le(&out[i - 1], &x);
            if fits {
                break;
            }
            proof {
                let t = o.take(i as int);
                assert(t.drop_last() =~= o.take(i - 1));
                assert(t.last() == o[i - 1]);
                assert(insert_sorted(t, x, spec_le) == insert_sorted(o.take(i - 1), x, spec_le).push(o[i - 1]));
                assert(o.skip(i - 1) =~= seq![o[i - 1]] + o.skip(i as int));
                assert(insert_sorted(o.take(i - 1), x, spec_le) + o.skip(i - 1) =~= insert_sorted(
                    o.take(i - 1),
                    x,
                    spec_le,
                ).push(o[i - 1]) + o.skip(i as int));
            }
            i -= 1;
        }
        proof {
            let t = o.take(i as int);
            if i == 0 {
                assert(t =~= Seq::<T>::empty());
            } else {
                assert(spec_le(o[i - 1], x));
                assert(t.last() == o[i - 1]);
            }
            assert(insert_sorted(t, x, spec_le) =~= t.push(x));
            assert(o.insert(i as int, x) =~= t.push(x) + o.skip(i as int));
        }
        out.insert(i, x);
    }
    assert(s.take(n as int) =~= s);
    out
}

// ---------------------------------------------------------------------------
// The order of text
// ---------------------------------------------------------------------------

/// `a` comes no later than `b` in the order of text by code points, which is
/// the order of `str` comparison.
pub open spec fn text_le(a: Seq<char>, b: Seq<char>) -> bool
    decreases a.len(),
{
    if a.len() == 0 {
        true
    } else if b.len() == 0 {
        false
    } else if (a[0] as u32) != (b[0] as u32) {
        (a[0] as u32) < (b[0] as u32)
    } else {
        text_le(a.drop_first(), b.drop_first())
    }
}

/// The order of text orders every pair, and transitively.
pub proof fn lemma_text_le_total_preorder(a: Seq<char>, b: Seq<char>, c: Seq<char>)
    ensures
        text_le(a, b) || text_le(b, a),
        text_le(a, b) && text_le(b, c) ==> text_le(a, c),
    decreases a.len(),
{
    if a.len() > 0 && b.len() > 0 {
        let c1 = if c.len() > 0 {
            c.drop_first()
        } else {
            b.drop_first()
        };
        lemma_text_le_total_preorder(a.drop_first(), b.drop_first(), c1);
    }
}

pub fn text_le_exec(a: &str, b: &str) -> (r: bool)
    ensures
        r == text_le(a@, b@),
{
    let x = crate::text::chars_of(a);
    let y = crate::text::chars_of(b);
    let mut i: usize = 0;
    assert(x@.skip(0) =~= x@ && y@.skip(0) =~= y@);
    while i < x.len() && i < y.len() && (x[i] as u32) == (y[i] as u32)
        invariant
            i <= x.len(),
            i <= y.len(),
            text_le(x@, y@) == text_le(x@.skip(i as int), y@.skip(i as int)),
        decreases x.len() - i,
    {
        proof {
            assert(x@.skip(i as int).drop_first() =~= x@.skip(i + 1));
            assert(y@.skip(i as int).drop_first() =~= y@.skip(i + 1));
        }
        i += 1;
    }
    if i == x.len() {
        true
    } else if i == y.len() {
        false
    } else {
        (x[i] as u32) < (y[i] as u32)
    }
}

} // verus!
