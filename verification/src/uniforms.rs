//! Packing of the pulse and trail histories into the fixed-size flat arrays
//! that the shader's uniform arrays receive.

use vstd::prelude::*;

use crate::history::{PULSE_MAX, TRAIL_MAX};

verus! {

/// Pulse slots in the shader's uniform array (four components each).
pub const PULSE_SLOTS: usize = 10;

/// Trail slots in the shader's uniform array (three components each).
pub const TRAIL_SLOTS: usize = 16;

/// Component `k` (0..4) of a pulse `(x, y, birth, sign)`.
pub open spec fn quad_component<T>(q: (T, T, T, T), k: int) -> T {
    if k == 0 {
        q.0
    } else if k == 1 {
        q.1
    } else if k == 2 {
        q.2
    } else {
        q.3
    }
}

/// Component `k` (0..3) of a trail point `(x, y, time)`.
pub open spec fn triple_component<T>(p: (T, T, T), k: int) -> T {
    if k == 0 {
        p.0
    } else if k == 1 {
        p.1
    } else {
        p.2
    }
}

/// Entry `j` of the flat pulse array: component `j % 4` of pulse `j / 4` when
/// that pulse is among the first `PULSE_SLOTS` ones, else `zero`.
pub open spec fn packed_pulse_entry<T>(pulses: Seq<(T, T, T, T)>, zero: T, j: int) -> T {
    if j / 4 < pulses.len() {
        quad_component(pulses[j / 4], j % 4)
    } else {
        zero
    }
}

/// Entry `j` of the flat trail array: component `j % 3` of point `j / 3` when
/// that point is among the first `TRAIL_SLOTS` ones, else `zero`.
pub open spec fn packed_trail_entry<T>(trail: Seq<(T, T, T)>, zero: T, j: int) -> T {
    if j / 3 < trail.len() {
        triple_component(trail[j / 3], j % 3)
    } else {
        zero
    }
}

/// Flattens the first `PULSE_SLOTS` pulses into an array of `4 * PULSE_SLOTS`
/// entries, padding unused slots with `zero`; also returns how many pulses
/// were packed.
pub fn pack_pulses<T: Copy>(pulses: &[(T, T, T, T)], zero: T) -> (r: (Vec<T>, usize))
    ensures
        r.1 == if pulses@.len() < PULSE_SLOTS { pulses@.len() as int } else { PULSE_SLOTS as int },
        r.0@.len() == 4 * PULSE_SLOTS,
        forall|j: int| 0 <= j < 4 * PULSE_SLOTS ==> #[trigger] r.0@[j] == packed_pulse_entry(pulses@, zero, j),
{
    let n = pulses.len();
    let count = if n < PULSE_SLOTS { n } else { PULSE_SLOTS };
    let mut flat: Vec<T> = Vec::new();
    let mut i: usize = 0;
    while i < PULSE_SLOTS
        invariant
            i <= PULSE_SLOTS,
            n == pulses@.len(),
            flat@.len() == 4 * i,
            forall|j: int| 0 <= j < 4 * i ==> #[trigger] flat@[j] == packed_pulse_entry(pulses@, zero, j),
        decreases PULSE_SLOTS - i,
    {
        if i < n {
            let p = pulses[i];
            flat.push(p.0);
            flat.push(p.1);
            flat.push(p.2);
            flat.push(p.3);
        } else {
            flat.push(zero);
            flat.push(zero);
            flat.push(zero);
            flat.push(zero);
        }
        assert forall|j: int| 4 * i <= j < 4 * i + 4 implies #[trigger] flat@[j]
            == packed_pulse_entry(pulses@, zero, j) by {
            assert(j / 4 == i as int);
            assert(j % 4 == j - 4 * i);
        }
        i = i + 1;
    }
    (flat, count)
}

/// Flattens the first `TRAIL_SLOTS` trail points into an array of
/// `3 * TRAIL_SLOTS` entries, padding unused slots with `zero`; also returns
/// how many points were packed.
pub fn pack_trail<T: Copy>(trail: &[(T, T, T)], zero: T) -> (r: (Vec<T>, usize))
    ensures
        r.1 == if trail@.len() < TRAIL_SLOTS { trail@.len() as int } else { TRAIL_SLOTS as int },
        r.0@.len() == 3 * TRAIL_SLOTS,
        forall|j: int| 0 <= j < 3 * TRAIL_SLOTS ==> #[trigger] r.0@[j] == packed_trail_entry(trail@, zero, j),
{
    let n = trail.len();
    let count = if n < TRAIL_SLOTS { n } else { TRAIL_SLOTS };
    let mut flat: Vec<T> = Vec::new();
    let mut i: usize = 0;
    while i < TRAIL_SLOTS
        invariant
            i <= TRAIL_SLOTS,
            n == trail@.len(),
            flat@.len() == 3 * i,
            forall|j: int| 0 <= j < 3 * i ==> #[trigger] flat@[j] == packed_trail_entry(trail@, zero, j),
        decreases TRAIL_SLOTS - i,
    {
        if i < n {
            let p = trail[i];
            flat.push(p.0);
            flat.push(p.1);
            flat.push(p.2);
        } else {
            flat.push(zero);
            flat.push(zero);
            flat.push(zero);
        }
        assert forall|j: int| 3 * i <= j < 3 * i + 3 implies #[trigger] flat@[j]
            == packed_trail_entry(trail@, zero, j) by {
            assert(j / 3 == i as int);
            assert(j % 3 == j - 3 * i);
        }
        i = i + 1;
    }
    (flat, count)
}

/// Slot `i` of the packed pulse array holds pulse `i`, component by component,
/// for every pulse that fits; every slot past the last pulse holds `zero`.
pub proof fn lemma_pulse_slots<T>(pulses: Seq<(T, T, T, T)>, zero: T, i: int, k: int)
    requires
        0 <= i,
        0 <= k < 4,
    ensures
        i < pulses.len() ==> packed_pulse_entry(pulses, zero, 4 * i + k) == quad_component(pulses[i], k),
        i >= pulses.len() ==> packed_pulse_entry(pulses, zero, 4 * i + k) == zero,
{
    assert((4 * i + k) / 4 == i);
    assert((4 * i + k) % 4 == k);
}

/// Slot `i` of the packed trail array holds trail point `i`, component by
/// component, for every point that fits; every slot past the last point holds
/// `zero`.
pub proof fn lemma_trail_slots<T>(trail: Seq<(T, T, T)>, zero: T, i: int, k: int)
    requires
        0 <= i,
        0 <= k < 3,
    ensures
        i < trail.len() ==> packed_trail_entry(trail, zero, 3 * i + k) == triple_component(trail[i], k),
        i >= trail.len() ==> packed_trail_entry(trail, zero, 3 * i + k) == zero,
{
    assert((3 * i + k) / 3 == i);
    assert((3 * i + k) % 3 == k);
}

/// A pulse history within its bound has every one of its pulses drawn: the
/// packed array holds each of them, in order, component by component.
pub proof fn lemma_kept_pulses_all_packed<T>(pulses: Seq<(T, T, T, T)>, zero: T)
    requires
        pulses.len() <= PULSE_MAX,
    ensures
        pulses.len() <= PULSE_SLOTS,
        forall|i: int, k: int|
            0 <= i < pulses.len() && 0 <= k < 4 ==> #[trigger] packed_pulse_entry(pulses, zero, 4 * i + k)
                == quad_component(pulses[i], k),
{
    assert forall|i: int, k: int| 0 <= i < pulses.len() && 0 <= k < 4 implies #[trigger] packed_pulse_entry(
        pulses,
        zero,
        4 * i + k,
    ) == quad_component(pulses[i], k) by {
        lemma_pulse_slots(pulses, zero, i, k);
    }
}

/// A trail within its bound has every one of its points drawn: the packed
/// array holds each of them, in order, component by component.
pub proof fn lemma_kept_trail_all_packed<T>(trail: Seq<(T, T, T)>, zero: T)
    requires
        trail.len() <= TRAIL_MAX,
    ensures
        trail.len() <= TRAIL_SLOTS,
        forall|i: int, k: int|
            0 <= i < trail.len() && 0 <= k < 3 ==> #[trigger] packed_trail_entry(trail, zero, 3 * i + k)
                == triple_component(trail[i], k),
{
    assert forall|i: int, k: int| 0 <= i < trail.len() && 0 <= k < 3 implies #[trigger] packed_trail_entry(
        trail,
        zero,
        3 * i + k,
    ) == triple_component(trail[i], k) by {
        lemma_trail_slots(trail, zero, i, k);
    }
}

} // verus!
