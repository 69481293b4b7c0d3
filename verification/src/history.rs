//! Fixed-size history of the most recent samples, and the minute-bucket
//! rotation rule of the long-term aggregators.
use std::collections::VecDeque;
use vstd::prelude::*;

verus! {

/// How many samples a buffer made with `capacity` holds at most: a buffer
/// made with capacity 0 still keeps the newest sample.
pub open spec fn retained(capacity: usize) -> nat {
    if capacity == 0 {
        1
    } else {
        capacity as nat
    }
}

/// The last `n` elements of `s`, or all of `s` when it is shorter.
pub open spec fn keep_last<T>(s: Seq<T>, n: nat) -> Seq<T> {
    if s.len() > n {
        s.skip(s.len() - n)
    } else {
        s
    }
}

/// A ring buffer of the most recent samples of a metric, oldest first.
pub struct RingBuffer<T> {
    data: VecDeque<T>,
    capacity: usize,
}

impl<T> View for RingBuffer<T> {
    type V = Seq<T>;

    closed spec fn view(&self) -> Seq<T> {
        self.data@
    }
}

impl<T> RingBuffer<T> {
    #[verifier::type_invariant]
    closed spec fn within_capacity(self) -> bool {
        self.data@.len() <= retained(self.capacity)
    }

    /// The capacity the buffer was made with.
    pub closed spec fn spec_capacity(self) -> usize {
        self.capacity
    }

    pub fn new(capacity: usize) -> (r: Self)
        ensures
            r@ == Seq::<T>::empty(),
            r.spec_capacity() == capacity,
    {
        RingBuffer { data: VecDeque::with_capacity(capacity), capacity }
    }

    /// Appends `value`, dropping the oldest sample when the buffer is full.
    pub fn push(&mut self, value: T)
        ensures
            final(self)@ == keep_last(old(self)@.push(value), retained(old(self).spec_capacity())),
            final(self).spec_capacity() == old(self).spec_capacity(),
    {
        proof {
            use_type_invariant(&*self);
        }
        let mut data = VecDeque::new();
        std::mem::swap(&mut data, &mut self.data);
        let ghost before = data@;
        if data.len() >= self.capacity {
            data.pop_front();
        }
        data.push_back(value);
        proof {
            let b = retained(self.capacity);
            let s = before.push(value);
            if before.len() >= self.capacity {
                if before.len() > 0 {
                    assert(data@ =~= s.skip(s.len() - b));
                } else {
                    assert(data@ =~= s);
                }
            } else {
                assert(data@ =~= s);
            }
        }
        self.data = data;
    }

    /// The buffer's contents as its two internal slices, in order.
    pub fn as_slice_pair(&self) -> (r: (&[T], &[T]))
        ensures
            r.0@ + r.1@ == self@,
    {
        deque_as_slices(&self.data)
    }

    pub fn len(&self) -> (r: usize)
        ensures
            r == self@.len(),
            r <= retained(self.spec_capacity()),
    {
        proof {
            use_type_invariant(self);
        }
        self.data.len()
    }

    pub fn is_empty(&self) -> (r: bool)
        ensures
            r == (self@.len() == 0),
    {
        self.data.len() == 0
    }

    pub fn capacity(&self) -> (r: usize)
        ensures
            r == self.spec_capacity(),
    {
        self.capacity
    }

    pub fn clear(&mut self)
        ensures
            final(self)@ == Seq::<T>::empty(),
            final(self).spec_capacity() == old(self).spec_capacity(),
    {
        let mut data = VecDeque::new();
        std::mem::swap(&mut data, &mut self.data);
        data.clear();
        self.data = data;
    }
}

impl<T: Copy> RingBuffer<T> {
    /// A copy of the contents, oldest first.
    pub fn to_vec(&self) -> (r: Vec<T>)
        ensures
            r@ == self@,
    {
        self.latest(self.data.len())
    }

    /// The most recent `max_points` samples (all of them when there are
    /// fewer), oldest first.
    pub fn latest(&self, max_points: usize) -> (r: Vec<T>)
        ensures
            r@ == keep_last(self@, max_points as nat),
    {
        let n = self.data.len();
        let skip = n.saturating_sub(max_points);
        let mut r: Vec<T> = Vec::new();
        let mut i = skip;
        while i < n
            invariant
                n == self.data@.len(),
                skip <= i <= n,
                r@ == self.data@.subrange(skip as int, i as int),
            decreases n - i,
        {
            r.push(self.data[i]);
            assert(self.data@.subrange(skip as int, i + 1) =~= self.data@.subrange(
                skip as int,
                i as int,
            ).push(self.data@[i as int]));
            i += 1;
        }
        assert(r@ =~= keep_last(self.data@, max_points as nat));
        r
    }

    /// The newest sample.
    pub fn last(&self) -> (r: Option<T>)
        ensures
            r == if self@.len() == 0 {
                None
            } else {
                Some(self@.last())
            },
    {
        let n = self.data.len();
        if n == 0 {
            None
        } else {
            Some(self.data[n - 1])
        }
    }
}

/// Calls `VecDeque::as_slices`, which the standard library documents as
/// returning the deque's contents, in order, as two slices.
#[verifier::external_body]
fn deque_as_slices<T>(d: &VecDeque<T>) -> (r: (&[T], &[T]))
    ensures
        r.0@ + r.1@ == d@,
{
    d.as_slices()
}

/// The contents after pushing every value of `xs`, in order, onto a buffer
/// holding `s` that keeps `n` samples.
pub open spec fn push_all<T>(s: Seq<T>, xs: Seq<T>, n: nat) -> Seq<T>
    decreases xs.len(),
{
    if xs.len() == 0 {
        s
    } else {
        push_all(keep_last(s.push(xs[0]), n), xs.drop_first(), n)
    }
}

/// Law: whatever came before, a buffer holds exactly the most recent
/// samples pushed onto it, at most as many as it retains.
pub proof fn lemma_push_all_keeps_latest<T>(s: Seq<T>, xs: Seq<T>, n: nat)
    requires
        n >= 1,
        s.len() <= n,
    ensures
        push_all(s, xs, n) == keep_last(s + xs, n),
    decreases xs.len(),
{
    if xs.len() == 0 {
        assert(s + xs =~= s);
    } else {
        let s1 = keep_last(s.push(xs[0]), n);
        lemma_push_all_keeps_latest(s1, xs.drop_first(), n);
        lemma_keep_last_append(s.push(xs[0]), xs.drop_first(), n);
        assert(s.push(xs[0]) + xs.drop_first() =~= s + xs);
    }
}

/// Law: pushing `xs` in order onto a new buffer that keeps `n` samples
/// leaves the last `min(|xs|, n)` of them, oldest first: the newest is the
/// last one pushed, and the buffer is empty only when nothing was pushed.
pub proof fn lemma_pushes_onto_new_buffer<T>(xs: Seq<T>, n: nat)
    requires
        n >= 1,
    ensures
        ({
            let b = push_all(Seq::empty(), xs, n);
            let k = if xs.len() < n {
                xs.len()
            } else {
                n
            };
            &&& b.len() == k
            &&& b == xs.subrange(xs.len() - k, xs.len() as int)
            &&& xs.len() > 0 ==> b.last() == xs.last()
            &&& (b.len() == 0 <==> xs.len() == 0)
        }),
{
    lemma_push_all_keeps_latest(Seq::empty(), xs, n);
    assert(Seq::<T>::empty() + xs =~= xs);
    let k = if xs.len() < n {
        xs.len()
    } else {
        n
    };
    assert(keep_last(xs, n) =~= xs.subrange(xs.len() - k, xs.len() as int));
}

/// Trimming before appending more does not change what is kept at the end.
pub proof fn lemma_keep_last_append<T>(a: Seq<T>, b: Seq<T>, n: nat)
    ensures
        keep_last(keep_last(a, n) + b, n) == keep_last(a + b, n),
{
    let ka = keep_last(a, n);
    if a.len() > n {
        let lhs = keep_last(ka + b, n);
        let rhs = keep_last(a + b, n);
        assert(lhs.len() == rhs.len());
        assert forall|i: int| 0 <= i < lhs.len() implies lhs[i] == rhs[i] by {
            let total_a = (a + b).len();
            let total_k = (ka + b).len();
            let ia = i + (total_a - rhs.len());
            let ik = i + (total_k - lhs.len());
            if ik < ka.len() {
                assert((ka + b)[ik] == ka[ik]);
                assert(ka[ik] == a[ik + (a.len() - n)]);
                assert((a + b)[ia] == a[ia]);
            } else {
                assert((ka + b)[ik] == b[ik - ka.len()]);
                assert((a + b)[ia] == b[ia - a.len()]);
            }
        }
        assert(lhs =~= rhs);
    }
}

/// Law: the newest sample of a buffer is the one pushed last.
pub proof fn lemma_push_then_last<T>(s: Seq<T>, v: T, n: nat)
    requires
        n >= 1,
    ensures
        keep_last(s.push(v), n).len() > 0,
        keep_last(s.push(v), n).last() == v,
        keep_last(s.push(v), n).len() == if s.len() + 1 > n { n } else { s.len() + 1 },
{
}

// ---------------------------------------------------------------------
// Minute buckets of the long-term aggregators
// ---------------------------------------------------------------------

/// What a new sample does to the minute bucket being filled.
#[derive(PartialEq, Eq, Structural, Clone, Copy, Debug)]
pub enum BucketRotation {
    /// The minute moved on and the current bucket holds samples: close it
    /// and start a new one at the new minute.
    Finalize { minute: u64 },
    /// Still the very first minute: keep filling the current bucket.
    Stay,
    /// Keep the current bucket, now labelled with the new minute.
    Relabel { minute: u64 },
}

/// Decides the bucket rotation for a sample taken `elapsed_secs` after the
/// aggregator started, given the minute the current bucket belongs to and
/// how many samples it holds.
pub fn bucket_rotation(current_minute: u64, current_count: u32, elapsed_secs: u64) -> (r:
    BucketRotation)
    ensures
        r == (if elapsed_secs / 60 > current_minute && current_count > 0 {
            BucketRotation::Finalize { minute: elapsed_secs / 60 }
        } else if current_minute == 0 && elapsed_secs / 60 == 0 {
            BucketRotation::Stay
        } else {
            BucketRotation::Relabel { minute: elapsed_secs / 60 }
        }),
{
    let minute = elapsed_secs / 60;
    if minute > current_minute && current_count > 0 {
        BucketRotation::Finalize { minute }
    } else if current_minute == 0 && minute == 0 {
        BucketRotation::Stay
    } else {
        BucketRotation::Relabel { minute }
    }
}

} // verus!
