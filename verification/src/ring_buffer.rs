//! Fixed-capacity ring buffers that remember the most recent values pushed.
use vstd::prelude::*;

verus! {

/// The slot that lies `i` steps behind `tail` in a ring of `size` slots.
pub open spec fn ring_slot(tail: int, i: int, size: int) -> int {
    if tail >= i { tail - i } else { tail - i + size }
}

/// A ring of `size` slots; `push` overwrites the oldest slot.
pub struct RingBuffer<T> {
    contents: Vec<T>,
    tail: usize,
    size: usize,
}

impl<T> RingBuffer<T> {
    /// The buffer's internal consistency: one value per slot, and `tail` names a slot.
    pub closed spec fn wf(&self) -> bool {
        &&& self.contents.len() == self.size
        &&& (self.size == 0 ==> self.tail == 0)
        &&& (self.size > 0 ==> self.tail < self.size)
    }

    /// The number of slots.
    pub closed spec fn capacity(&self) -> nat {
        self.size as nat
    }

    /// The index of the most recently written slot.
    pub closed spec fn cursor(&self) -> int {
        self.tail as int
    }

    /// The slots, the most recently written first.
    pub closed spec fn recent(&self) -> Seq<T> {
        Seq::new(
            self.size as nat,
            |i: int| self.contents@[ring_slot(self.tail as int, i, self.size as int)],
        )
    }
}

impl<T: Clone> RingBuffer<T> {
    /// A ring of `size` slots, each holding a clone of `default`.
    pub fn new(default: T, size: usize) -> (r: Self)
        ensures
            r.wf(),
            r.capacity() == size,
            r.cursor() == 0,
            r.recent().len() == size,
            forall|i: int| 0 <= i < size ==> cloned(default, #[trigger] r.recent()[i]),
    {
        let contents = vec![default; size];
        let tail = 0usize;
        let r = RingBuffer { contents, tail, size };
        assert forall|i: int| 0 <= i < size implies cloned(default, #[trigger] r.recent()[i]) by {
            assert(r.recent()[i] == r.contents@[ring_slot(0, i, size as int)]);
        }
        r
    }

    /// Writes `value` into the slot after the current one, which becomes the most recent.
    pub fn push(&mut self, value: T)
        requires
            old(self).wf(),
            old(self).capacity() > 0,
        ensures
            final(self).wf(),
            final(self).capacity() == old(self).capacity(),
            final(self).cursor() == if old(self).cursor() + 1 == old(self).capacity() {
                0
            } else {
                old(self).cursor() + 1
            },
            final(self).recent() == seq![value] + old(self).recent().take(
                old(self).capacity() - 1,
            ),
    {
        let ghost old_self = *self;
        self.inc_tail();
        let t = self.tail;
        self.contents.set(t, value);
        proof {
            let s = self.size as int;
            let expected = seq![value] + old_self.recent().take(s - 1);
            assert forall|i: int| 0 <= i < s implies #[trigger] self.recent()[i] == expected[i] by {
                if i > 0 {
                    assert(expected[i] == old_self.recent()[i - 1]);
                    assert(ring_slot(self.tail as int, i, s) == ring_slot(
                        old_self.tail as int,
                        i - 1,
                        s,
                    ));
                }
            }
            assert(self.recent() =~= expected);
        }
    }

    fn inc_tail(&mut self)
        requires
            old(self).wf(),
            old(self).size > 0,
        ensures
            final(self).size == old(self).size,
            final(self).contents == old(self).contents,
            final(self).tail == if old(self).tail + 1 == old(self).size {
                0
            } else {
                old(self).tail + 1
            },
    {
        if self.tail + 1 == self.contents.len() {
            self.tail = 0;
        } else {
            self.tail = self.tail + 1;
        }
    }

    /// The value written `idx` pushes before the most recent one (`idx == 0` is the most
    /// recent), or `None` when `idx` is not smaller than the capacity.
    pub fn get(&self, idx: usize) -> (r: Option<&T>)
        requires
            self.wf(),
        ensures
            idx < self.capacity() ==> r == Some(&self.recent()[idx as int]),
            idx >= self.capacity() ==> r is None,
    {
        if idx >= self.size {
            return None;
        }
        let out = if self.tail >= idx {
            self.tail - idx
        } else {
            self.contents.len() - (idx - self.tail)
        };
        Some(&self.contents[out])
    }
}

/// A ring buffer that also counts its pushes, so that values can be read back by the
/// index of their push (the first value pushed has index 0), as long as they are among
/// the most recent `capacity` values.
pub struct RingBufferVec<T: Clone> {
    ring_buffer: RingBuffer<T>,
    size: usize,
    pushed: Ghost<Seq<T>>,
    fill: Ghost<T>,
    laps: Ghost<nat>,
}

impl<T: Clone> RingBufferVec<T> {
    /// The buffer's internal consistency: the slots hold the most recent pushes, the
    /// slots not yet written hold clones of the fill value, and `tail` is the count of
    /// pushes modulo the capacity.
    pub closed spec fn wf(&self) -> bool {
        let s = self.ring_buffer.capacity() as int;
        let n = self.size as int;
        let recent = self.ring_buffer.recent();
        &&& self.ring_buffer.wf()
        &&& self.pushed@.len() == n
        &&& n == self.laps@ * s + self.ring_buffer.cursor()
        &&& recent.len() == s
        &&& forall|j: int| 0 <= j < s && j < n ==> #[trigger] recent[j] == self.pushed@[n - 1 - j]
        &&& forall|j: int| n <= j < s ==> cloned(self.fill@, #[trigger] recent[j])
    }

    /// Every value pushed so far, in push order.
    pub closed spec fn pushed(&self) -> Seq<T> {
        self.pushed@
    }

    /// How many of the most recent values are kept.
    pub closed spec fn capacity(&self) -> nat {
        self.ring_buffer.capacity()
    }

    /// The value that the slots were filled with before any push.
    pub closed spec fn fill(&self) -> T {
        self.fill@
    }
}

impl<T: Clone> RingBufferVec<T> {
    /// An empty buffer that keeps the last `size` values pushed.
    pub fn new(default: T, size: usize) -> (r: Self)
        ensures
            r.wf(),
            r.pushed() == Seq::<T>::empty(),
            r.capacity() == size,
            r.fill() == default,
    {
        let ghost fill = default;
        let ring_buffer = RingBuffer::new(default, size);
        RingBufferVec {
            ring_buffer,
            size: 0,
            pushed: Ghost(Seq::empty()),
            fill: Ghost(fill),
            laps: Ghost(0),
        }
    }

    /// The number of values pushed so far.
    pub fn len(&self) -> (r: usize)
        requires
            self.wf(),
        ensures
            r == self.pushed().len(),
    {
        self.size
    }

    /// Appends `value`.
    pub fn push(&mut self, value: T)
        requires
            old(self).wf(),
            old(self).capacity() > 0,
            old(self).pushed().len() < usize::MAX,
        ensures
            final(self).wf(),
            final(self).pushed() == old(self).pushed().push(value),
            final(self).capacity() == old(self).capacity(),
            final(self).fill() == old(self).fill(),
    {
        let ghost old_self = *self;
        let ghost old_rb = self.ring_buffer;
        let new_size = self.size + 1;
        let ghost new_pushed = self.pushed@.push(value);
        let ghost s = self.ring_buffer.capacity() as int;
        let ghost new_laps: nat = if old_rb.cursor() + 1 == s {
            (self.laps@ + 1) as nat
        } else {
            self.laps@
        };
        self.ring_buffer.push(value);
        proof {
            let laps = old_self.laps@;
            if old_rb.cursor() + 1 == s {
                assert(laps * s + s == (laps + 1) * s) by (nonlinear_arith);
            }
            let recent = self.ring_buffer.recent();
            let n = new_size as int;
            assert forall|j: int| 0 <= j < s && j < n implies #[trigger] recent[j]
                == new_pushed[n - 1 - j] by {
                if j > 0 {
                    assert(recent[j] == old_rb.recent()[j - 1]);
                }
            }
            assert forall|j: int| n <= j < s implies cloned(old_self.fill@, #[trigger] recent[j]) by {
                assert(recent[j] == old_rb.recent()[j - 1]);
            }
        }
        self.size = new_size;
        self.pushed = Ghost(new_pushed);
        self.laps = Ghost(new_laps);
    }

    /// The value of push number `idx`, while it is among the most recent `capacity` values.
    /// `idx == len()` is accepted too: it reads the slot that the next push will write.
    pub fn get(&self, idx: usize) -> (r: Option<&T>)
        requires
            self.wf(),
            self.capacity() > 0 || idx != self.pushed().len(),
        ensures
            r is None <==> (idx > self.pushed().len() || idx + self.capacity()
                < self.pushed().len()),
            r matches Some(v) ==> {
                &&& idx < self.pushed().len() ==> *v == self.pushed()[idx as int]
                &&& idx == self.pushed().len() ==> if self.pushed().len() >= self.capacity() {
                    *v == self.pushed()[self.pushed().len() - self.capacity()]
                } else {
                    cloned(self.fill(), *v)
                }
            },
    {
        let cap = self.ring_buffer.size;
        if idx > self.size || self.size - idx > cap {
            return None;
        }
        let ghost s = cap as int;
        let ghost n = self.size as int;
        let ghost c = n - idx - 1;
        let mut j: i128 = self.ring_buffer.tail as i128 - idx as i128 - 1;
        let ghost mut m: int = self.laps@ as int;
        while j < 0
            invariant
                s == cap as int,
                c == n - idx - 1,
                j == c - m * s,
                j < s,
                s > 0 || j >= 0,
            decreases (if j < 0 { -j } else { 0 }),
        {
            assert((m - 1) * s == m * s - s) by (nonlinear_arith);
            j = cap as i128 + j;
            proof { m = m - 1; }
        }
        assert(-1 <= c < s);
        assert((c >= 0 ==> j == c) && (c < 0 ==> j == s - 1)) by (nonlinear_arith)
            requires
                j == c - m * s,
                0 <= j < s,
                -1 <= c < s,
                s > 0,
        ;
        let r = self.ring_buffer.get(j as usize);
        proof {
            let recent = self.ring_buffer.recent();
            if c >= 0 {
                assert(j == c);
                assert(recent[c] == self.pushed@[n - 1 - c]);
            } else {
                assert(j == s - 1);
                if n >= s {
                    assert(recent[s - 1] == self.pushed@[n - 1 - (s - 1)]);
                } else {
                    assert(cloned(self.fill@, recent[s - 1]));
                }
            }
        }
        r
    }
}

/// A push is read back first: after `push(value)`, `get(0)` gives `value`, and what
/// `get(i)` gave before, `get(i + 1)` gives now (the oldest value drops out).
pub proof fn law_ring_push_then_get<T>(before: RingBuffer<T>, after: RingBuffer<T>, value: T, i: int)
    requires
        before.wf(),
        before.capacity() > 0,
        after.recent() == seq![value] + before.recent().take(before.capacity() - 1),
        0 <= i < before.capacity() - 1,
    ensures
        after.recent()[0] == value,
        after.recent()[i + 1] == before.recent()[i],
{
}

/// Values are read back by their push index: after `push(value)` on a buffer of `n`
/// values, value number `n` is `value` and every earlier value keeps its number.
pub proof fn law_push_then_get<T: Clone>(before: RingBufferVec<T>, after: RingBufferVec<T>, value: T, i: int)
    requires
        after.pushed() == before.pushed().push(value),
        0 <= i < before.pushed().len(),
    ensures
        after.pushed()[before.pushed().len() as int] == value,
        after.pushed()[i] == before.pushed()[i],
{
}

/// A run of pushes is read back in order: when each buffer of `bufs` is the one before it
/// after pushing the next value of `vals`, the last buffer holds the first one's values
/// followed by `vals`.
pub proof fn law_pushes_then_get<T: Clone>(bufs: Seq<RingBufferVec<T>>, vals: Seq<T>)
    requires
        bufs.len() == vals.len() + 1,
        forall|i: int| 0 <= i < vals.len() ==> (#[trigger] bufs[i + 1]).pushed() == bufs[i].pushed().push(vals[i]),
    ensures
        bufs.last().pushed() == bufs[0].pushed() + vals,
    decreases vals.len(),
{
    if vals.len() == 0 {
        assert(bufs[0].pushed() + vals =~= bufs[0].pushed());
    } else {
        let n = vals.len() - 1;
        law_pushes_then_get(bufs.drop_last(), vals.drop_last());
        assert(bufs.drop_last().last() == bufs[n]);
        assert(bufs[n + 1].pushed() == bufs[n].pushed().push(vals[n]));
        assert(bufs[0].pushed() + vals =~= (bufs[0].pushed() + vals.drop_last()).push(vals[n]));
    }
}

} // verus!
