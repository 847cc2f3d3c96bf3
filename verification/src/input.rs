//! Timing rules for keys held down by the player.
use vstd::prelude::*;

verus! {

/// A key pressed at `time` counts as just pressed at `current` when at most three
/// milliseconds have passed.
pub fn key_just_pressed(current: &u64, time: &u64) -> (r: bool)
    requires
        *time <= *current,
    ensures
        r == (*current - *time <= 3),
{
    (*current - *time) <= 3
}

/// A sideways key held since `time` repeats its move at `current` once the delayed auto
/// shift `das` has passed, on every millisecond that is a multiple of the auto repeat rate
/// `arr` after the press.
pub fn auto_repeat_due(current: u64, time: u64, das: u64, arr: u64) -> (r: bool)
    requires
        time <= current,
        arr > 0,
    ensures
        r == (current - time > das && (current - time) % (arr as int) == 0),
{
    let held = current - time;
    held > das && held % arr < 1
}

/// The keys the games react to.
#[derive(Clone, Copy, PartialEq, Eq, Debug, Structural)]
pub enum Key {
    Left,
    Right,
    /// Turns clockwise.
    Z,
    /// Turns anticlockwise.
    X,
    /// Drops the piece.
    Space,
    /// Any other key.
    Other,
}

/// What a key asks of the game.
#[derive(Clone, Copy, PartialEq, Eq, Debug, Structural)]
pub enum Action {
    MoveLeft,
    MoveRight,
    TurnRight,
    TurnLeft,
    HardDrop,
}

/// The move of a sideways key.
pub open spec fn move_of(k: Key) -> Action {
    if k == Key::Left { Action::MoveLeft } else { Action::MoveRight }
}

/// Whether `k` is among the keys of `keys`.
pub open spec fn key_in(keys: Seq<(Key, u64)>, k: Key) -> bool {
    exists|i: int| 0 <= i < keys.len() && (#[trigger] keys[i]).0 == k
}

/// What the held key `e` repeats at `now`: its move, when it is a sideways key whose repeat
/// is due.
pub open spec fn repeat_action(e: (Key, u64), now: u64, das: u64, arr: u64) -> Seq<Action> {
    let held = now - e.1;
    if held > das && held % (arr as int) == 0 && (e.0 == Key::Left || e.0 == Key::Right) {
        seq![move_of(e.0)]
    } else {
        Seq::empty()
    }
}

/// The moves repeated by the held keys `rep`, in their order.
pub open spec fn repeat_actions(rep: Seq<(Key, u64)>, now: u64, das: u64, arr: u64) -> Seq<Action>
    decreases rep.len(),
{
    if rep.len() == 0 {
        Seq::empty()
    } else {
        repeat_actions(rep.drop_last(), now, das, arr) + repeat_action(rep.last(), now, das, arr)
    }
}

/// Going through the pressed keys `pressed` in order, with the held keys `rep`: the actions,
/// the keys still pressed, and the held keys. A sideways key not yet held moves once and
/// starts to be held; a held one does nothing more here. The turning and dropping keys act
/// and are released. Other keys stay pressed.
pub open spec fn press_step(pressed: Seq<(Key, u64)>, rep: Seq<(Key, u64)>) -> (Seq<Action>, Seq<(Key, u64)>, Seq<(Key, u64)>)
    decreases pressed.len(),
{
    if pressed.len() == 0 {
        (Seq::empty(), Seq::empty(), rep)
    } else {
        let p = press_step(pressed.drop_last(), rep);
        let e = pressed.last();
        if e.0 == Key::Left || e.0 == Key::Right {
            if key_in(p.2, e.0) {
                (p.0, p.1.push(e), p.2)
            } else {
                (p.0.push(move_of(e.0)), p.1.push(e), p.2.push(e))
            }
        } else if e.0 == Key::Z {
            (p.0.push(Action::TurnRight), p.1, p.2)
        } else if e.0 == Key::X {
            (p.0.push(Action::TurnLeft), p.1, p.2)
        } else if e.0 == Key::Space {
            (p.0.push(Action::HardDrop), p.1, p.2)
        } else {
            (p.0, p.1.push(e), p.2)
        }
    }
}

/// One round of key handling at `now`: first the moves repeated by the held keys, then what
/// the pressed keys do; with the keys still pressed and the keys held afterwards.
pub open spec fn key_step_spec(pressed: Seq<(Key, u64)>, rep: Seq<(Key, u64)>, now: u64, das: u64, arr: u64) -> (Seq<Action>, Seq<(Key, u64)>, Seq<(Key, u64)>) {
    let p = press_step(pressed, rep);
    (repeat_actions(rep, now, das, arr) + p.0, p.1, p.2)
}

/// Whether `k` is among the keys of `keys`.
fn has_key_now(keys: &Vec<(Key, u64)>, k: Key) -> (r: bool)
    ensures
        r == key_in(keys@, k),
{
    let mut i: usize = 0;
    while i < keys.len()
        invariant
            i <= keys@.len(),
            forall|j: int| 0 <= j < i ==> (#[trigger] keys@[j]).0 != k,
        decreases keys@.len() - i,
    {
        if keys[i].0 == k {
            return true;
        }
        i = i + 1;
    }
    false
}

/// One round of key handling at `now` (see `key_step_spec`): `pressed` are the keys pressed
/// with their press times, `repeating` the sideways keys held with theirs.
pub fn key_step(pressed: &Vec<(Key, u64)>, repeating: &Vec<(Key, u64)>, now: u64, das: u64, arr: u64) -> (r: (Vec<Action>, Vec<(Key, u64)>, Vec<(Key, u64)>))
    requires
        forall|i: int| 0 <= i < repeating@.len() ==> (#[trigger] repeating@[i]).1 <= now,
        arr > 0,
    ensures
        (r.0@, r.1@, r.2@) == key_step_spec(pressed@, repeating@, now, das, arr),
{
    let mut actions: Vec<Action> = Vec::new();
    let mut i: usize = 0;
    while i < repeating.len()
        invariant
            i <= repeating@.len(),
            arr > 0,
            forall|j: int| 0 <= j < repeating@.len() ==> (#[trigger] repeating@[j]).1 <= now,
            actions@ == repeat_actions(repeating@.take(i as int), now, das, arr),
        decreases repeating@.len() - i,
    {
        let (k, t) = repeating[i];
        assert(repeating@.take(i + 1).drop_last() =~= repeating@.take(i as int));
        if auto_repeat_due(now, t, das, arr) {
            if k == Key::Left {
                actions.push(Action::MoveLeft);
            } else if k == Key::Right {
                actions.push(Action::MoveRight);
            }
        }
        i = i + 1;
        assert(actions@ =~= repeat_actions(repeating@.take(i as int), now, das, arr));
    }
    assert(repeating@.take(repeating@.len() as int) =~= repeating@);
    let ghost rep_actions = actions@;
    let mut press_actions: Vec<Action> = Vec::new();
    let mut still: Vec<(Key, u64)> = Vec::new();
    let mut held: Vec<(Key, u64)> = Vec::new();
    let mut j: usize = 0;
    while j < repeating.len()
        invariant
            j <= repeating@.len(),
            held@ == repeating@.take(j as int),
        decreases repeating@.len() - j,
    {
        held.push(repeating[j]);
        j = j + 1;
        assert(held@ =~= repeating@.take(j as int));
    }
    assert(repeating@.take(repeating@.len() as int) =~= repeating@);
    let mut i: usize = 0;
    while i < pressed.len()
        invariant
            i <= pressed@.len(),
            (press_actions@, still@, held@) == press_step(pressed@.take(i as int), repeating@),
        decreases pressed@.len() - i,
    {
        let e = pressed[i];
        assert(pressed@.take(i + 1).drop_last() =~= pressed@.take(i as int));
        assert(pressed@.take(i + 1).last() == e);
        let k = e.0;
        if k == Key::Left || k == Key::Right {
            if has_key_now(&held, k) {
                still.push(e);
            } else {
                press_actions.push(if k == Key::Left { Action::MoveLeft } else { Action::MoveRight });
                still.push(e);
                held.push(e);
            }
        } else if k == Key::Z {
            press_actions.push(Action::TurnRight);
        } else if k == Key::X {
            press_actions.push(Action::TurnLeft);
        } else if k == Key::Space {
            press_actions.push(Action::HardDrop);
        } else {
            still.push(e);
        }
        i = i + 1;
    }
    assert(pressed@.take(pressed@.len() as int) =~= pressed@);
    let mut all = actions;
    let mut q: usize = 0;
    while q < press_actions.len()
        invariant
            q <= press_actions@.len(),
            all@ == rep_actions + press_actions@.take(q as int),
        decreases press_actions@.len() - q,
    {
        all.push(press_actions[q]);
        q = q + 1;
        assert(all@ =~= rep_actions + press_actions@.take(q as int));
    }
    assert(press_actions@.take(press_actions@.len() as int) =~= press_actions@);
    (all, still, held)
}

/// A key that stays pressed after a round: any but the turning and dropping keys.
pub open spec fn stays_pressed(e: (Key, u64)) -> bool {
    e.0 != Key::Z && e.0 != Key::X && e.0 != Key::Space
}

/// A sideways key.
pub open spec fn sideways(k: Key) -> bool {
    k == Key::Left || k == Key::Right
}

/// What going through the pressed keys does to the key lists (see `law_key_step_keys`).
proof fn lemma_press_step_keys(pressed: Seq<(Key, u64)>, rep: Seq<(Key, u64)>)
    ensures
        press_step(pressed, rep).1 == pressed.filter(|e: (Key, u64)| stays_pressed(e)),
        press_step(pressed, rep).2.len() >= rep.len(),
        press_step(pressed, rep).2.take(rep.len() as int) == rep,
        forall|k: int| rep.len() <= k < press_step(pressed, rep).2.len() ==> {
            &&& sideways((#[trigger] press_step(pressed, rep).2[k]).0)
            &&& !key_in(rep, press_step(pressed, rep).2[k].0)
            &&& pressed.contains(press_step(pressed, rep).2[k])
        },
        forall|i: int| 0 <= i < pressed.len() && sideways((#[trigger] pressed[i]).0) ==> key_in(press_step(pressed, rep).2, pressed[i].0),
    decreases pressed.len(),
{
    reveal_with_fuel(Seq::filter, 1);
    if pressed.len() == 0 {
        assert(rep.take(rep.len() as int) =~= rep);
    } else {
        let d = pressed.drop_last();
        let e = pressed.last();
        lemma_press_step_keys(d, rep);
        let p = press_step(d, rep);
        let q = press_step(pressed, rep);
        assert(pressed.filter(|e: (Key, u64)| stays_pressed(e)) == if stays_pressed(e) {
            d.filter(|e: (Key, u64)| stays_pressed(e)).push(e)
        } else {
            d.filter(|e: (Key, u64)| stays_pressed(e))
        });
        assert forall|k: int| rep.len() <= k < q.2.len() implies {
            &&& sideways((#[trigger] q.2[k]).0)
            &&& !key_in(rep, q.2[k].0)
            &&& pressed.contains(q.2[k])
        } by {
            if k < p.2.len() {
                assert(q.2[k] == p.2[k]);
                let w = choose|w: int| 0 <= w < d.len() && d[w] == p.2[k];
                assert(pressed[w] == d[w]);
            } else {
                assert(q.2[k] == e);
                assert(pressed[pressed.len() - 1] == e);
                if key_in(rep, e.0) {
                    let w = choose|w: int| 0 <= w < rep.len() && (#[trigger] rep[w]).0 == e.0;
                    assert(p.2.take(rep.len() as int)[w] == p.2[w]);
                    assert(key_in(p.2, e.0));
                }
            }
        }
        assert(q.2.take(rep.len() as int) =~= rep) by {
            assert forall|k: int| 0 <= k < rep.len() implies q.2[k] == p.2[k] by {}
            assert(p.2.take(rep.len() as int) =~= q.2.take(rep.len() as int));
        }
        assert forall|i: int| 0 <= i < pressed.len() && sideways((#[trigger] pressed[i]).0) implies key_in(q.2, pressed[i].0) by {
            if i < d.len() {
                assert(pressed[i] == d[i]);
                let w = choose|w: int| 0 <= w < p.2.len() && (#[trigger] p.2[w]).0 == d[i].0;
                assert(q.2[w] == p.2[w]);
            } else {
                assert(pressed[i] == e);
                if key_in(p.2, e.0) {
                    let w = choose|w: int| 0 <= w < p.2.len() && (#[trigger] p.2[w]).0 == e.0;
                    assert(q.2[w] == p.2[w]);
                } else {
                    assert(q.2[p.2.len() as int] == e);
                }
            }
        }
    }
}

/// What a round of key handling does to the key lists: the turning and dropping keys are
/// released and every other pressed key stays pressed, in order; the held keys stay held,
/// and the keys that start to be held are the sideways keys pressed and not yet held, so
/// that afterwards every sideways key pressed is held.
pub proof fn law_key_step_keys(pressed: Seq<(Key, u64)>, rep: Seq<(Key, u64)>, now: u64, das: u64, arr: u64)
    ensures
        key_step_spec(pressed, rep, now, das, arr).1 == pressed.filter(|e: (Key, u64)| stays_pressed(e)),
        key_step_spec(pressed, rep, now, das, arr).2.take(rep.len() as int) == rep,
        forall|k: int| rep.len() <= k < key_step_spec(pressed, rep, now, das, arr).2.len() ==> {
            &&& sideways((#[trigger] key_step_spec(pressed, rep, now, das, arr).2[k]).0)
            &&& !key_in(rep, key_step_spec(pressed, rep, now, das, arr).2[k].0)
            &&& pressed.contains(key_step_spec(pressed, rep, now, das, arr).2[k])
        },
        forall|i: int| 0 <= i < pressed.len() && sideways((#[trigger] pressed[i]).0) ==> key_in(
            key_step_spec(pressed, rep, now, das, arr).2,
            pressed[i].0,
        ),
{
    lemma_press_step_keys(pressed, rep);
}

} // verus!
