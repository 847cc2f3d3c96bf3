//! A seeded source of piece numbers that remembers what it has drawn, so that the
//! upcoming pieces can be previewed before they are taken.
use vstd::prelude::*;
use oorandom::Rand64;
use crate::ring_buffer::RingBufferVec;

verus! {

/// The increment of a generator made by `Rand64::new`: its default increment shifted left
/// by one, with the lowest bit set.
pub open spec fn pcg_increment() -> u128 {
    0x5FC1C2D3_FF7A0DC6_B7860F7A_9A5F029F
}

/// One step of the generator's state: times its multiplier, plus the increment, modulo
/// `2^128`.
pub open spec fn pcg_step(state: u128) -> u128 {
    ((state as int * 47026247687942121848144207491837523525int + pcg_increment() as int)
        % 0x1_0000_0000_0000_0000_0000_0000_0000_0000int) as u128
}

/// The state that `oorandom::Rand64::new(seed)` starts from, as `Rand64::state` gives it:
/// from state 0 one step, then the seed added, then one more step.
pub open spec fn rand64_seeded(seed: u128) -> (u128, u128) {
    (pcg_step(((pcg_step(0) as int + seed as int) % 0x1_0000_0000_0000_0000_0000_0000_0000_0000int) as u128), pcg_increment())
}

/// What `oorandom::Rand64::rand_range(0..bound)` gives on the generator with state `state`:
/// the number drawn and the generator's state afterwards.
pub uninterp spec fn rand64_range(state: (u128, u128), bound: u64) -> (u64, (u128, u128));

/// Calls `oorandom::Rand64::new` and reads the generator's state with `Rand64::state`: per
/// its source (`new_inc` with the default increment), the state `rand64_seeded(seed)`.
#[verifier::external_body]
fn seeded_state(seed: u128) -> (r: (u128, u128))
    ensures
        r == rand64_seeded(seed),
{
    Rand64::new(seed).state()
}

/// Makes the generator with state `state` (`Rand64::from_state`), calls
/// `Rand64::rand_range` on `0..bound` and reads the new state. The result depends on the
/// state and the bound alone and is named `rand64_range`; its source returns a number in the
/// range and panics on an empty range, hence `bound > 0`. Which number comes out is left
/// unsaid.
#[verifier::external_body]
fn draw_below(state: (u128, u128), bound: u64) -> (r: (u64, (u128, u128)))
    requires
        bound > 0,
    ensures
        r == rand64_range(state, bound),
        r.0 < bound,
{
    let mut rng = Rand64::from_state(state);
    let v = rng.rand_range(0..bound);
    (v, rng.state())
}

/// The bound that `rand_range` is given for a randomizer with bound `max`.
pub open spec fn draw_bound(max: i32) -> u64 {
    max as u64
}

/// The first `n` numbers drawn below `bound` from the generator state `start`, and the state
/// after them.
pub open spec fn draw_run(start: (u128, u128), bound: u64, n: nat) -> (Seq<i32>, (u128, u128))
    decreases n,
{
    if n == 0 {
        (Seq::empty(), start)
    } else {
        let p = draw_run(start, bound, (n - 1) as nat);
        let d = rand64_range(p.1, bound);
        (p.0.push(d.0 as i32), d.1)
    }
}

/// Draw number `i` of a randomizer with bound `max` whose generator started from `start`.
pub open spec fn nth_draw(start: (u128, u128), max: i32, i: int) -> i32 {
    draw_run(start, draw_bound(max), (i + 1) as nat).0[i]
}

/// Later draws never change earlier ones.
pub proof fn lemma_draw_run_prefix(start: (u128, u128), bound: u64, n: nat, m: nat)
    requires
        n <= m,
    ensures
        draw_run(start, bound, m).0.len() == m,
        draw_run(start, bound, m).0.take(n as int) == draw_run(start, bound, n).0,
    decreases m,
{
    if m > 0 {
        lemma_draw_run_prefix(start, bound, (m - 1) as nat, (m - 1) as nat);
        if n < m {
            lemma_draw_run_prefix(start, bound, n, (m - 1) as nat);
            assert(draw_run(start, bound, m).0.take(n as int) =~= draw_run(start, bound, (m - 1) as nat).0.take(n as int));
        } else {
            assert(draw_run(start, bound, m).0.take(n as int) =~= draw_run(start, bound, m).0);
        }
    } else {
        assert(draw_run(start, bound, m).0.take(n as int) =~= Seq::<i32>::empty());
    }
}

/// How many of the most recent draws are remembered.
pub const QUEUE_LEN: usize = 100;

/// What every draw of a randomizer with bound `max` satisfies: for a positive bound,
/// it lies in `0..max`.
pub open spec fn valid_draw(max: i32, v: i32) -> bool {
    max > 0 ==> 0 <= v < max
}

/// A randomizer draws numbers below `max`, remembers them by their draw index, and hands
/// them out in order with `next`.
pub struct Randomizer {
    queue: RingBufferVec<i32>,
    max: i32,
    current: i32,
    state: (u128, u128),
    start: Ghost<(u128, u128)>,
}

impl Randomizer {
    /// The randomizer's internal consistency.
    pub closed spec fn wf(&self) -> bool {
        &&& self.queue.wf()
        &&& self.queue.capacity() == QUEUE_LEN
        &&& self.queue.pushed().len() <= i32::MAX
        &&& self.current >= 0
        &&& self.queue.pushed() == draw_run(self.start@, draw_bound(self.max), self.queue.pushed().len()).0
        &&& self.state == draw_run(self.start@, draw_bound(self.max), self.queue.pushed().len()).1
        &&& forall|k: int|
            0 <= k < self.queue.pushed().len() ==> valid_draw(
                self.max,
                #[trigger] self.queue.pushed()[k],
            )
    }

    /// Every number drawn so far, by draw index.
    pub closed spec fn draws(&self) -> Seq<i32> {
        self.queue.pushed()
    }

    /// The generator state the draws started from.
    pub closed spec fn start(&self) -> (u128, u128) {
        self.start@
    }

    /// The bound that draws stay below.
    pub closed spec fn max(&self) -> i32 {
        self.max
    }

    /// The draw index that `next` hands out next.
    pub closed spec fn position(&self) -> int {
        self.current as int
    }

    /// Whether `get(i)` can be answered: `i` is a draw index that is not yet forgotten.
    pub open spec fn can_get(&self, i: int) -> bool {
        &&& self.max() != 0
        &&& 0 <= i < i32::MAX
        &&& i + QUEUE_LEN >= self.draws().len()
    }

    /// What `get(i)` leaves behind: the draws before it are kept, draws are added up to
    /// index `i`, each of them below the bound.
    pub open spec fn extends_to(&self, old: Randomizer, i: int) -> bool {
        &&& self.wf()
        &&& self.max() == old.max()
        &&& self.start() == old.start()
        &&& self.position() == old.position()
        &&& self.draws().len() == if old.draws().len() > i {
            old.draws().len() as int
        } else {
            i + 1
        }
        &&& self.draws().take(old.draws().len() as int) == old.draws()
    }

    /// The position of a well-formed randomizer is not negative.
    pub proof fn lemma_position_nonneg(&self)
        requires
            self.wf(),
        ensures
            self.position() >= 0,
    {
    }

    /// Every draw is below the bound.
    pub proof fn lemma_draws_valid(&self)
        requires
            self.wf(),
        ensures
            forall|k: int| 0 <= k < self.draws().len() ==> valid_draw(self.max(), #[trigger] self.draws()[k]),
    {
    }

    /// Draws are kept: after `get(i)`, every draw made before it is unchanged, so asking
    /// again for a draw index gives the same number.
    pub proof fn law_draws_kept(r0: Randomizer, r1: Randomizer, i: int, k: int)
        requires
            r1.extends_to(r0, i),
            0 <= k < r0.draws().len(),
        ensures
            r1.draws()[k] == r0.draws()[k],
    {
        assert(r1.draws().take(r0.draws().len() as int)[k] == r1.draws()[k]);
    }

    /// Draws follow from the seed: draw number `i` of a randomizer made with bound `max` and
    /// seed `seed` is `nth_draw(rand64_seeded(seed), max, i)`, whatever was asked of it
    /// before; two randomizers with the same bound and seed give the same draws.
    pub proof fn law_draws_from_seed(r: Randomizer, seed: u128, k: int)
        requires
            r.wf(),
            r.start() == rand64_seeded(seed),
            0 <= k < r.draws().len(),
        ensures
            r.draws()[k] == nth_draw(rand64_seeded(seed), r.max(), k),
    {
        lemma_draw_run_prefix(r.start@, draw_bound(r.max), (k + 1) as nat, r.queue.pushed().len());
        assert(r.draws().take(k + 1)[k] == r.draws()[k]);
    }

    /// A randomizer with nothing drawn yet.
    pub fn new(max: i32, seed: u128) -> (r: Randomizer)
        ensures
            r.wf(),
            r.draws() == Seq::<i32>::empty(),
            r.max() == max,
            r.position() == 0,
            r.start() == rand64_seeded(seed),
    {
        let state = seeded_state(seed);
        Randomizer { queue: RingBufferVec::new(0, QUEUE_LEN), max, current: 0, state, start: Ghost(state) }
    }

    /// The draw with index `i`; draws up to index `i` are made first where needed.
    pub fn get(&mut self, i: i32) -> (r: i32)
        requires
            old(self).wf(),
            old(self).can_get(i as int),
        ensures
            final(self).extends_to(*old(self), i as int),
            r == final(self).draws()[i as int],
            r == nth_draw(old(self).start(), old(self).max(), i as int),
    {
        let ghost old_draws = self.queue.pushed();
        while (self.queue.len() as i32) < i + 1
            invariant
                self.wf(),
                0 <= i < i32::MAX,
                self.max == old(self).max,
                self.start == old(self).start,
                self.max != 0,
                self.current == old(self).current,
                self.queue.pushed().len() <= if old_draws.len() > i {
                    old_draws.len() as int
                } else {
                    i + 1
                },
                self.queue.pushed().len() >= old_draws.len(),
                self.queue.pushed().take(old_draws.len() as int) == old_draws,
                old_draws == old(self).draws(),
            decreases i + 1 - self.queue.pushed().len(),
        {
            let m = self.max;
            let bound = #[verifier::truncate] (m as u64);
            assert(m != 0 ==> bound != 0) by (bit_vector)
                requires
                    bound == m as u64,
            ;
            assert(m > 0 ==> bound == m) by (bit_vector)
                requires
                    bound == m as u64,
            ;
            assert(bound == draw_bound(m));
            let (new_num, next_state) = draw_below(self.state, bound);
            let v = #[verifier::truncate] (new_num as i32);
            let ghost before = self.queue.pushed();
            self.queue.push(v);
            self.state = next_state;
            proof {
                assert(self.queue.pushed() =~= draw_run(self.start@, draw_bound(self.max), self.queue.pushed().len()).0);
                assert(self.queue.pushed().take(old_draws.len() as int) =~= before.take(
                    old_draws.len() as int,
                ));
                assert forall|k: int| 0 <= k < self.queue.pushed().len() implies valid_draw(
                    self.max,
                    #[trigger] self.queue.pushed()[k],
                ) by {
                    if k < before.len() {
                        assert(self.queue.pushed()[k] == before[k]);
                    }
                }
            }
        }
        let r = self.queue.get(i as usize);
        proof {
            lemma_draw_run_prefix(self.start@, draw_bound(self.max), (i + 1) as nat, self.queue.pushed().len());
            assert(self.queue.pushed().take(i + 1)[i as int] == self.queue.pushed()[i as int]);
        }
        *r.unwrap()
    }

    /// The bound that draws stay below.
    pub fn bound(&self) -> (r: i32)
        ensures
            r == self.max(),
    {
        self.max
    }

    /// Whether `get(i)` can be answered (see `can_get`).
    pub fn can_get_now(&self, i: i32) -> (r: bool)
        requires
            self.wf(),
        ensures
            r == self.can_get(i as int),
    {
        let n = self.queue.len();
        self.max != 0 && 0 <= i && i < i32::MAX && (i as usize) + QUEUE_LEN >= n
    }

    /// The draw index that `next` hands out next.
    pub fn position_now(&self) -> (r: i32)
        ensures
            r == self.position(),
    {
        self.current
    }

    /// The index of the draw that `next` handed out last (`-1` before the first).
    pub fn current_pointer(&self) -> (r: i32)
        requires
            self.wf(),
        ensures
            r == self.position() - 1,
    {
        self.current - 1
    }

    /// Hands out the next draw in order.
    pub fn next(&mut self) -> (r: i32)
        requires
            old(self).wf(),
            old(self).can_get(old(self).position()),
        ensures
            final(self).wf(),
            final(self).max() == old(self).max(),
            final(self).position() == old(self).position() + 1,
            final(self).draws().len() == if old(self).draws().len() > old(self).position() {
                old(self).draws().len() as int
            } else {
                old(self).position() + 1
            },
            final(self).draws().take(old(self).draws().len() as int) == old(self).draws(),
            final(self).start() == old(self).start(),
            r == final(self).draws()[old(self).position()],
            r == nth_draw(old(self).start(), old(self).max(), old(self).position()),
    {
        let a = self.get(self.current);
        self.current = self.current + 1;
        a
    }
}

} // verus!
