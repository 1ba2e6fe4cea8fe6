//! Bounded, oldest-first histories (click pulses, cursor trail).

use vstd::prelude::*;

verus! {

/// Most click pulses kept alive at once.
pub const PULSE_MAX: usize = 10;

/// Most cursor-trail points kept at once.
pub const TRAIL_MAX: usize = 16;

/// The history `s` after `item` is appended and, when that makes it longer
/// than `cap`, its oldest entry is dropped.
pub open spec fn pushed_bounded<T>(s: Seq<T>, item: T, cap: nat) -> Seq<T> {
    let grown = s.push(item);
    if grown.len() > cap {
        grown.drop_first()
    } else {
        grown
    }
}

/// The history obtained by pushing `items`, in order, onto an empty history
/// bounded by `cap`.
pub open spec fn replay_bounded<T>(items: Seq<T>, cap: nat) -> Seq<T>
    decreases items.len(),
{
    if items.len() == 0 {
        Seq::empty()
    } else {
        pushed_bounded(replay_bounded(items.drop_last(), cap), items.last(), cap)
    }
}

/// The last `min(len, cap)` entries of `items`.
pub open spec fn most_recent<T>(items: Seq<T>, cap: nat) -> Seq<T> {
    if items.len() <= cap {
        items
    } else {
        items.skip(items.len() - cap)
    }
}

/// Appends `item` to the history `buf`, then drops the oldest entry if the
/// history has grown past `cap`.
pub fn push_bounded<T>(buf: &mut Vec<T>, item: T, cap: usize)
    ensures
        final(buf)@ == pushed_bounded(old(buf)@, item, cap as nat),
{
    buf.push(item);
    if buf.len() > cap {
        buf.remove(0);
    }
}

/// A history that fits its bound still fits it after a push, and the pushed
/// item is its newest entry whenever the bound is not zero.
pub proof fn lemma_push_keeps_bound<T>(s: Seq<T>, item: T, cap: nat)
    requires
        s.len() <= cap,
    ensures
        pushed_bounded(s, item, cap).len() <= cap,
        cap > 0 ==> pushed_bounded(s, item, cap).last() == item,
        cap > 0 ==> pushed_bounded(s, item, cap).len() == if s.len() < cap { s.len() + 1 } else { cap },
{
}

/// Pushing any sequence of items onto an empty history bounded by `cap` leaves
/// exactly the `cap` most recent items (all of them when there are fewer),
/// oldest first.
pub proof fn lemma_replay_keeps_most_recent<T>(items: Seq<T>, cap: nat)
    ensures
        replay_bounded(items, cap) == most_recent(items, cap),
    decreases items.len(),
{
    if items.len() > 0 {
        let prefix = items.drop_last();
        lemma_replay_keeps_most_recent(prefix, cap);
        let grown = most_recent(prefix, cap).push(items.last());
        if prefix.len() < cap {
            assert(grown =~= items);
        } else {
            assert(grown.drop_first() =~= items.skip(items.len() - cap));
        }
    }
}

/// The entries of `s` whose flag in `mask` is set, in their order.
pub open spec fn select<T>(s: Seq<T>, mask: Seq<bool>) -> Seq<T>
    decreases s.len(),
{
    if s.len() == 0 {
        Seq::empty()
    } else {
        let rest = select(s.drop_last(), mask);
        if mask[s.len() - 1] {
            rest.push(s.last())
        } else {
            rest
        }
    }
}

/// Selecting never lengthens a history.
pub proof fn lemma_select_len<T>(s: Seq<T>, mask: Seq<bool>)
    ensures
        select(s, mask).len() <= s.len(),
    decreases s.len(),
{
    if s.len() > 0 {
        lemma_select_len(s.drop_last(), mask);
    }
}

/// How many of the first `n` answers in `mask` are `true`.
pub open spec fn count_kept(mask: Seq<bool>, n: int) -> nat
    decreases n,
{
    if n <= 0 {
        0
    } else {
        count_kept(mask, n - 1) + if mask[n - 1] { 1nat } else { 0nat }
    }
}

/// Counting more answers never counts fewer kept ones, and a kept answer
/// before `m` counts strictly below the count at `m`.
pub proof fn lemma_count_kept_mono(mask: Seq<bool>, i: int, m: int)
    requires
        0 <= i <= m,
    ensures
        count_kept(mask, i) <= count_kept(mask, m),
        i < m && mask[i] ==> count_kept(mask, i) < count_kept(mask, m),
    decreases m - i,
{
    if i < m {
        lemma_count_kept_mono(mask, i + 1, m);
    }
}

/// Appending an entry to a history appends it to the selection exactly when
/// its own answer is `true`, whatever the other entries are.
pub proof fn lemma_select_push<T>(s: Seq<T>, x: T, mask: Seq<bool>)
    ensures
        select(s.push(x), mask) == if mask[s.len() as int] {
            select(s, mask).push(x)
        } else {
            select(s, mask)
        },
{
    assert(s.push(x).drop_last() =~= s);
}

/// The selection holds one entry per `true` answer.
pub proof fn lemma_select_len_counts<T>(s: Seq<T>, mask: Seq<bool>)
    ensures
        select(s, mask).len() == count_kept(mask, s.len() as int),
    decreases s.len(),
{
    if s.len() > 0 {
        lemma_select_len_counts(s.drop_last(), mask);
    }
}

/// Every entry whose answer is `true` is in the selection, at the position
/// given by the number of kept entries before it (so kept entries stay in
/// their order).
pub proof fn lemma_select_position<T>(s: Seq<T>, mask: Seq<bool>, i: int)
    requires
        0 <= i < s.len(),
        mask[i],
    ensures
        count_kept(mask, i) < select(s, mask).len(),
        select(s, mask)[count_kept(mask, i) as int] == s[i],
    decreases s.len(),
{
    let n = s.len() as int;
    let rest = select(s.drop_last(), mask);
    lemma_select_len_counts(s.drop_last(), mask);
    if i < n - 1 {
        lemma_select_position(s.drop_last(), mask, i);
        lemma_count_kept_mono(mask, i, n - 1);
    }
}

/// When every answer is `true`, the selection is the whole history.
pub proof fn lemma_select_all_kept<T>(s: Seq<T>, mask: Seq<bool>)
    requires
        forall|i: int| 0 <= i < s.len() ==> mask[i],
    ensures
        select(s, mask) == s,
    decreases s.len(),
{
    if s.len() > 0 {
        lemma_select_all_kept(s.drop_last(), mask);
        assert(s.drop_last().push(s.last()) =~= s);
    }
}

/// When every answer is `false`, the selection is empty.
pub proof fn lemma_select_none_kept<T>(s: Seq<T>, mask: Seq<bool>)
    requires
        forall|i: int| 0 <= i < s.len() ==> !mask[i],
    ensures
        select(s, mask) == Seq::<T>::empty(),
    decreases s.len(),
{
    if s.len() > 0 {
        lemma_select_none_kept(s.drop_last(), mask);
    }
}

/// Keeps, in their order, exactly the entries of `buf` for which `keep`
/// answers `true`; `keep` is asked once about each entry.
pub fn retain_where<T: Copy, F: Fn(&T) -> bool>(buf: &mut Vec<T>, keep: F)
    requires
        forall|i: int| 0 <= i < old(buf)@.len() ==> keep.requires((&old(buf)@[i],)),
    ensures
        exists|mask: Seq<bool>|
            {
                &&& mask.len() == old(buf)@.len()
                &&& forall|i: int|
                    0 <= i < mask.len() ==> keep.ensures((&old(buf)@[i],), #[trigger] mask[i])
                &&& final(buf)@ == select(old(buf)@, mask)
                &&& final(buf)@.len() == count_kept(mask, old(buf)@.len() as int)
                &&& forall|i: int|
                    0 <= i < old(buf)@.len() && mask[i] ==> final(buf)@[count_kept(mask, i) as int]
                        == old(buf)@[i]
            },
        final(buf)@.len() <= old(buf)@.len(),
{
    let ghost orig = buf@;
    let ghost mut mask: Seq<bool> = Seq::empty();
    let mut kept: Vec<T> = Vec::new();
    let n = buf.len();
    let mut i: usize = 0;
    while i < n
        invariant
            i <= n,
            n == orig.len(),
            buf@ == orig,
            mask.len() == i,
            forall|j: int| 0 <= j < orig.len() ==> keep.requires((&orig[j],)),
            forall|j: int| 0 <= j < i ==> keep.ensures((&orig[j],), #[trigger] mask[j]),
            kept@ == select(orig.take(i as int), mask),
        decreases n - i,
    {
        let x = buf[i];
        let k = keep(&x);
        proof {
            let before = mask;
            mask = mask.push(k);
            assert(orig.take(i + 1).drop_last() =~= orig.take(i as int));
            lemma_select_prefix(orig.take(i as int), mask, before);
        }
        if k {
            kept.push(x);
        }
        i = i + 1;
    }
    proof {
        assert(orig.take(n as int) =~= orig);
        lemma_select_len(orig, mask);
        lemma_select_len_counts(orig, mask);
        assert forall|j: int| 0 <= j < orig.len() && mask[j] implies kept@[count_kept(mask, j) as int]
            == orig[j] by {
            lemma_select_position(orig, mask, j);
        }
    }
    *buf = kept;
}

/// Selection looks only at the flags of the entries it selects from.
pub proof fn lemma_select_prefix<T>(s: Seq<T>, m1: Seq<bool>, m2: Seq<bool>)
    requires
        m1.len() >= s.len(),
        m2.len() >= s.len(),
        forall|j: int| 0 <= j < s.len() ==> m1[j] == m2[j],
    ensures
        select(s, m1) == select(s, m2),
    decreases s.len(),
{
    if s.len() > 0 {
        lemma_select_prefix(s.drop_last(), m1, m2);
    }
}

/// A history of at most `bound()` entries, oldest first: pushing past the
/// bound drops the oldest entry.
pub struct BoundedHistory<T> {
    items: Vec<T>,
    cap: usize,
}

impl<T> View for BoundedHistory<T> {
    type V = Seq<T>;

    closed spec fn view(&self) -> Seq<T> {
        self.items@
    }
}

impl<T> BoundedHistory<T> {
    #[verifier::type_invariant]
    spec fn within_bound(self) -> bool {
        self.items@.len() <= self.cap
    }

    /// The most entries this history keeps.
    pub closed spec fn bound(&self) -> nat {
        self.cap as nat
    }

    /// An empty history that keeps at most `cap` entries.
    pub fn new(cap: usize) -> (h: Self)
        ensures
            h@ == Seq::<T>::empty(),
            h.bound() == cap,
    {
        BoundedHistory { items: Vec::new(), cap }
    }

    /// The most entries this history keeps.
    pub fn cap(&self) -> (cap: usize)
        ensures
            cap == self.bound(),
    {
        self.cap
    }

    /// How many entries the history holds; never more than its bound.
    pub fn len(&self) -> (n: usize)
        ensures
            n == self@.len(),
            n <= self.bound(),
    {
        proof {
            use_type_invariant(self);
        }
        self.items.len()
    }

    /// The entries, oldest first.
    pub fn items(&self) -> (s: &[T])
        ensures
            s@ == self@,
            s@.len() <= self.bound(),
    {
        proof {
            use_type_invariant(self);
        }
        self.items.as_slice()
    }

    /// The newest entry, if any.
    pub fn last(&self) -> (r: Option<&T>)
        ensures
            r == if self@.len() == 0 { None } else { Some(&self@.last()) },
    {
        let n = self.items.len();
        if n == 0 {
            None
        } else {
            Some(&self.items[n - 1])
        }
    }

    /// Appends `item` as the newest entry, dropping the oldest one if the
    /// history would otherwise exceed its bound.
    pub fn push(&mut self, item: T)
        ensures
            final(self)@ == pushed_bounded(old(self)@, item, old(self).bound()),
            final(self).bound() == old(self).bound(),
            final(self)@.len() <= final(self).bound(),
    {
        proof {
            use_type_invariant(&*self);
        }
        let mut items = Vec::new();
        std::mem::swap(&mut items, &mut self.items);
        push_bounded(&mut items, item, self.cap);
        proof {
            lemma_push_keeps_bound(old(self)@, item, self.cap as nat);
        }
        self.items = items;
    }
}

impl<T: Copy> BoundedHistory<T> {
    /// Keeps, in their order, exactly the entries for which `keep` answers
    /// `true`; `keep` is asked once about each entry.
    pub fn retain_where<F: Fn(&T) -> bool>(&mut self, keep: F)
        requires
            forall|i: int| 0 <= i < old(self)@.len() ==> keep.requires((&old(self)@[i],)),
        ensures
            exists|mask: Seq<bool>|
                {
                    &&& mask.len() == old(self)@.len()
                    &&& forall|i: int|
                        0 <= i < mask.len() ==> keep.ensures((&old(self)@[i],), #[trigger] mask[i])
                    &&& final(self)@ == select(old(self)@, mask)
                    &&& final(self)@.len() == count_kept(mask, old(self)@.len() as int)
                    &&& forall|i: int|
                        0 <= i < old(self)@.len() && mask[i] ==> final(self)@[count_kept(mask, i) as int]
                            == old(self)@[i]
                },
            final(self).bound() == old(self).bound(),
            final(self)@.len() <= old(self)@.len(),
    {
        proof {
            use_type_invariant(&*self);
        }
        let mut items = Vec::new();
        std::mem::swap(&mut items, &mut self.items);
        assert(items@ == old(self)@);
        retain_where(&mut items, keep);
        self.items = items;
    }
}

} // verus!
