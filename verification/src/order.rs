//! Stable sorting by a key, and the lexicographic order of text.
use vstd::prelude::*;
use vstd::seq_lib::lemma_multiset_commutative;

verus! {

/// Items ordered by a key that forms a total preorder.
pub trait SortKey: Sized {
    /// `self` may come before `other`.
    spec fn key_le(&self, other: &Self) -> bool;

    proof fn lemma_key_total(a: &Self, b: &Self)
        ensures
            a.key_le(b) || b.key_le(a),
    ;

    proof fn lemma_key_transitive(a: &Self, b: &Self, c: &Self)
        requires
            a.key_le(b),
            b.key_le(c),
        ensures
            a.key_le(c),
    ;

    fn le(&self, other: &Self) -> (r: bool)
        ensures
            r == self.key_le(other),
    ;
}

pub open spec fn sorted_by_key<T: SortKey>(s: Seq<T>) -> bool {
    forall|i: int, j: int| 0 <= i < j < s.len() ==> s[i].key_le(&s[j])
}

/// The keys of `a` and `b` come before each other both ways.
pub open spec fn same_key<T: SortKey>(a: T, b: T) -> bool {
    a.key_le(&b) && b.key_le(&a)
}

/// Holds of the items whose key is that of `x`.
pub open spec fn key_of<T: SortKey>(x: T) -> spec_fn(T) -> bool {
    |y: T| same_key(y, x)
}

/// The items of `s` whose key is that of `x`, in their order in `s`.
pub open spec fn key_class<T: SortKey>(s: Seq<T>, x: T) -> Seq<T> {
    s.filter(key_of(x))
}

proof fn lemma_insert_multiset<T>(s: Seq<T>, p: int, x: T)
    requires
        0 <= p <= s.len(),
    ensures
        s.insert(p, x).to_multiset() =~= s.to_multiset().insert(x),
{
    broadcast use vstd::seq_lib::group_to_multiset_ensures;

    let a = s.take(p);
    let b = s.skip(p);
    assert(s.insert(p, x) =~= a.push(x) + b);
    assert(s =~= a + b);
    lemma_multiset_commutative(a.push(x), b);
    lemma_multiset_commutative(a, b);
}

/// A filter that holds of no item keeps nothing.
proof fn lemma_filter_none<T>(s: Seq<T>, f: spec_fn(T) -> bool)
    requires
        forall|k: int| 0 <= k < s.len() ==> !f(#[trigger] s[k]),
    ensures
        s.filter(f) == Seq::<T>::empty(),
    decreases s.len(),
{
    reveal(Seq::filter);
    if s.len() > 0 {
        let t = s.drop_last();
        assert forall|k: int| 0 <= k < t.len() implies !f(#[trigger] t[k]) by {
            assert(t[k] == s[k]);
        }
        lemma_filter_none(t, f);
        assert(!f(s[s.len() - 1]));
    }
    assert(s.filter(f) =~= Seq::<T>::empty());
}

/// Inserting `x` after every item whose key comes before it, and before
/// the rest, appends `x` to its key class and leaves the other classes as
/// they were.
proof fn lemma_insert_key_class<T: SortKey>(out: Seq<T>, p: int, x: T, z: T)
    requires
        sorted_by_key(out),
        0 <= p <= out.len(),
        forall|k: int| 0 <= k < p ==> #[trigger] out[k].key_le(&x),
        p < out.len() ==> !out[p].key_le(&x),
    ensures
        key_class(out.insert(p, x), z) == if same_key(x, z) {
            key_class(out, z).push(x)
        } else {
            key_class(out, z)
        },
{
    let f = key_of(z);
    let a = out.take(p);
    let b = out.skip(p);
    assert(out =~= a + b);
    assert(out.insert(p, x) =~= a.push(x) + b);
    Seq::filter_distributes_over_add(a, b, f);
    Seq::filter_distributes_over_add(a.push(x), b, f);
    a.lemma_filter_push(x, f);
    if same_key(x, z) {
        assert forall|k: int| 0 <= k < b.len() implies !f(#[trigger] b[k]) by {
            assert(b[k] == out[p + k]);
            if same_key(out[p + k], z) {
                T::lemma_key_transitive(&out[p + k], &z, &x);
                if k > 0 {
                    T::lemma_key_transitive(&out[p], &out[p + k], &x);
                }
            }
        }
        lemma_filter_none(b, f);
        assert(b.filter(f) =~= Seq::<T>::empty());
        assert(a.filter(f) + b.filter(f) =~= a.filter(f));
        assert(a.filter(f).push(x) + b.filter(f) =~= a.filter(f).push(x));
    }
}

/// Sorts by key; items with equal keys keep their order.
pub fn sort_by_key<T: SortKey>(v: Vec<T>) -> (r: Vec<T>)
    ensures
        sorted_by_key(r@),
        r@.to_multiset() == v@.to_multiset(),
        forall|x: T| #[trigger] key_class(r@, x) == key_class(v@, x),
{
    broadcast use vstd::seq_lib::group_to_multiset_ensures;

    let mut rest = v;
    let mut out: Vec<T> = Vec::new();
    let ghost orig = rest@;
    let ghost mut done: int = 0;
    assert(orig.skip(0) =~= orig);
    proof {
        assert forall|z: T| #[trigger] key_class(out@, z) == key_class(orig.take(0), z) by {
            assert(orig.take(0) =~= out@);
        }
    }
    while rest.len() > 0
        invariant
            sorted_by_key(out@),
            out@.to_multiset().add(rest@.to_multiset()) == orig.to_multiset(),
            0 <= done <= orig.len(),
            rest@ == orig.skip(done),
            forall|z: T| #[trigger] key_class(out@, z) == key_class(orig.take(done), z),
        decreases rest@.len(),
    {
        let ghost before_rest = rest@;
        let x = rest.remove(0);
        proof {
            before_rest.to_multiset_ensures();
        }
        assert(rest@ =~= before_rest.remove(0));
        assert(rest@.to_multiset() =~= before_rest.to_multiset().remove(x));
        assert(before_rest.contains(x));
        assert(before_rest.to_multiset().count(x) > 0);
        assert(x == orig[done]);
        let mut p: usize = 0;
        while p < out.len() && out[p].le(&x)
            invariant
                p <= out@.len(),
                forall|k: int| 0 <= k < p ==> #[trigger] out@[k].key_le(&x),
            decreases out.len() - p,
        {
            p += 1;
        }
        let ghost before_out = out@;
        proof {
            if p < out@.len() {
                T::lemma_key_total(&out@[p as int], &x);
            }
            lemma_insert_multiset(before_out, p as int, x);
            assert forall|z: T| #[trigger] key_class(before_out.insert(p as int, x), z)
                == key_class(orig.take(done + 1), z) by {
                lemma_insert_key_class(before_out, p as int, x, z);
                assert(orig.take(done + 1) =~= orig.take(done).push(x));
                orig.take(done).lemma_filter_push(x, key_of(z));
            }
            assert(rest@ =~= orig.skip(done + 1));
            done = done + 1;
        }
        out.insert(p, x);
        assert(out@.to_multiset().add(rest@.to_multiset()) =~= orig.to_multiset());
        proof {
            assert forall|i: int, j: int| 0 <= i < j < out@.len() implies out@[i].key_le(
                &out@[j],
            ) by {
                if j < p {
                    assert(out@[i] == before_out[i] && out@[j] == before_out[j]);
                } else if j == p {
                    assert(out@[i] == before_out[i]);
                } else if i < p {
                    assert(out@[i] == before_out[i] && out@[j] == before_out[j - 1]);
                    T::lemma_key_transitive(&before_out[i], &x, &before_out[p as int]);
                    if j - 1 > p {
                        T::lemma_key_transitive(&before_out[i], &before_out[p as int], &before_out[j - 1]);
                    }
                } else if i == p {
                    assert(out@[j] == before_out[j - 1]);
                    if j - 1 > p {
                        T::lemma_key_transitive(&x, &before_out[p as int], &before_out[j - 1]);
                    }
                } else {
                    assert(out@[i] == before_out[i - 1] && out@[j] == before_out[j - 1]);
                }
            }
        }
    }
    proof {
        assert(rest@ =~= Seq::<T>::empty());
        assert(rest@.to_multiset() =~= vstd::multiset::Multiset::<T>::empty());
        assert(orig.take(orig.len() as int) =~= orig);
    }
    out
}

// ---------------------------------------------------------------------
// Text order
// ---------------------------------------------------------------------

/// `a` sorts before or equal to `b` character by character, as `String`'s
/// `Ord` orders text (UTF-8 byte order is code point order).
pub open spec fn text_le(a: Seq<char>, b: Seq<char>) -> bool
    decreases a.len(),
{
    if a.len() == 0 {
        true
    } else if b.len() == 0 {
        false
    } else if a[0] != b[0] {
        a[0] < b[0]
    } else {
        text_le(a.drop_first(), b.drop_first())
    }
}

pub proof fn lemma_text_le_total(a: Seq<char>, b: Seq<char>)
    ensures
        text_le(a, b) || text_le(b, a),
    decreases a.len(),
{
    if a.len() > 0 && b.len() > 0 && a[0] == b[0] {
        lemma_text_le_total(a.drop_first(), b.drop_first());
    }
}

pub proof fn lemma_text_le_transitive(a: Seq<char>, b: Seq<char>, c: Seq<char>)
    requires
        text_le(a, b),
        text_le(b, c),
    ensures
        text_le(a, c),
    decreases a.len(),
{
    if a.len() > 0 && b.len() > 0 && c.len() > 0 && a[0] == b[0] && b[0] == c[0] {
        lemma_text_le_transitive(a.drop_first(), b.drop_first(), c.drop_first());
    }
}

pub proof fn lemma_text_le_antisymmetric(a: Seq<char>, b: Seq<char>)
    requires
        text_le(a, b),
        text_le(b, a),
    ensures
        a == b,
    decreases a.len(),
{
    if a.len() > 0 && b.len() > 0 {
        lemma_text_le_antisymmetric(a.drop_first(), b.drop_first());
        assert(a =~= seq![a[0]] + a.drop_first());
        assert(b =~= seq![b[0]] + b.drop_first());
    }
}

/// Compares two texts: `text_le`.
pub fn chars_le(a: &[char], b: &[char]) -> (r: bool)
    ensures
        r == text_le(a@, b@),
{
    let mut i: usize = 0;
    assert(a@.skip(0) =~= a@ && b@.skip(0) =~= b@);
    while i < a.len() && i < b.len() && a[i] == b[i]
        invariant
            i <= a@.len(),
            i <= b@.len(),
            text_le(a@, b@) == text_le(a@.skip(i as int), b@.skip(i as int)),
        decreases a.len() - i,
    {
        assert(a@.skip(i as int).drop_first() =~= a@.skip(i + 1));
        assert(b@.skip(i as int).drop_first() =~= b@.skip(i + 1));
        i += 1;
    }
    let ghost sa = a@.skip(i as int);
    let ghost sb = b@.skip(i as int);
    if i == a.len() {
        assert(sa.len() == 0);
        true
    } else if i == b.len() {
        false
    } else {
        assert(sa[0] == a@[i as int] && sb[0] == b@[i as int]);
        a[i] < b[i]
    }
}

/// Compares two strings: `text_le`.
pub fn str_le(a: &str, b: &str) -> (r: bool)
    ensures
        r == text_le(a@, b@),
{
    let ca = crate::text::chars_of(a);
    let cb = crate::text::chars_of(b);
    chars_le(&ca, &cb)
}

} // verus!
