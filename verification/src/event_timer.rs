//! A queue of events that fire after a number of frames. Each entry stores its
//! delay after the entry before it, so the deadline of an entry is the sum of
//! the delays up to and including it.
use vstd::prelude::*;

use std::collections::VecDeque;
use vstd::std_specs::cmp::PartialEqSpec;

verus! {

/// `a - b`, or 0 when `b` is larger.
pub open spec fn sat_sub(a: u32, b: u32) -> u32 {
    if a >= b {
        (a - b) as u32
    } else {
        0
    }
}

/// The sum of the first `n` delays.
pub open spec fn delay_sum<T>(s: Seq<(u32, T)>, n: int) -> int
    decreases n,
{
    if n <= 0 {
        0
    } else {
        delay_sum(s, n - 1) + s[n - 1].0
    }
}

/// The deadline of entry `i`: the delays up to and including it.
pub open spec fn deadline<T>(s: Seq<(u32, T)>, i: int) -> int {
    delay_sum(s, i + 1)
}

/// The entries after `update(elapsed)`: going from the front, each delay
/// loses `elapsed` (down to 0) until the delays passed cover `remaining`.
pub open spec fn updated<T>(s: Seq<(u32, T)>, elapsed: u32, remaining: u32) -> Seq<(u32, T)>
    decreases s.len(),
{
    if s.len() == 0 {
        s
    } else {
        let head = (sat_sub(s[0].0, elapsed), s[0].1);
        let rem = sat_sub(remaining, s[0].0);
        if rem == 0 {
            seq![head] + s.drop_first()
        } else {
            seq![head] + updated(s.drop_first(), elapsed, rem)
        }
    }
}

/// The number of leading entries whose deadline is at most `d`, counting from `i`.
pub open spec fn insert_pos<T>(s: Seq<(u32, T)>, d: u32, i: int) -> int
    decreases s.len() - i,
{
    if i < 0 || i >= s.len() || delay_sum(s, i + 1) > d {
        i
    } else {
        insert_pos(s, d, i + 1)
    }
}

/// The entries after `add(d, event)`: the event goes after every entry due no
/// later than `d`, and the entry after it keeps its deadline.
pub open spec fn added<T>(s: Seq<(u32, T)>, d: u32, event: T) -> Seq<(u32, T)> {
    let p = insert_pos(s, d, 0);
    let delay = (d - delay_sum(s, p)) as u32;
    let s1 = if p < s.len() {
        s.update(p, (sat_sub(s[p].0, delay), s[p].1))
    } else {
        s
    };
    s1.insert(p, (delay, event))
}

/// The entries after removing entry `i`: its delay moves to the entry after it.
pub open spec fn removed_at<T>(s: Seq<(u32, T)>, i: int) -> Seq<(u32, T)> {
    let s1 = s.remove(i);
    if i < s1.len() {
        s1.update(i, ((s1[i].0 + s[i].0) as u32, s1[i].1))
    } else {
        s1
    }
}

/// The first entry, from `i` on, whose event equals `event`; the length if none.
pub open spec fn first_match<T: PartialEq>(s: Seq<(u32, T)>, event: T, i: int) -> int
    decreases s.len() - i,
{
    if i < 0 || i >= s.len() {
        s.len() as int
    } else if s[i].1.eq_spec(&event) {
        i
    } else {
        first_match(s, event, i + 1)
    }
}

pub proof fn lemma_delay_sum_mono<T>(s: Seq<(u32, T)>, i: int, j: int)
    requires
        0 <= i <= j <= s.len(),
    ensures
        0 <= delay_sum(s, i) <= delay_sum(s, j),
    decreases j,
{
    if j > i {
        lemma_delay_sum_mono(s, i, j - 1);
    } else if i > 0 {
        lemma_delay_sum_mono(s, 0, i - 1);
    }
}

/// Events with their deadlines, in firing order.
#[derive(Debug, Clone)]
pub struct Timer<T>(VecDeque<(u32, T)>);

impl<T> Timer<T> {
    /// The entries, front first: each with its delay after the entry before.
    pub closed spec fn view(&self) -> Seq<(u32, T)> {
        self.0@
    }

    /// Every deadline fits in a `u32`.
    pub open spec fn wf(&self) -> bool {
        delay_sum(self@, self@.len() as int) <= u32::MAX
    }

    /// A timer with no events.
    pub fn new() -> (r: Timer<T>)
        ensures
            r@ == Seq::<(u32, T)>::empty(),
            r.wf(),
    {
        Timer(VecDeque::new())
    }

    /// Frames until the first event is due, if there is one.
    pub fn next_in(&self) -> (r: Option<u32>)
        ensures
            r == (if self@.len() == 0 {
                None
            } else {
                Some(self@[0].0)
            }),
    {
        if self.0.len() == 0 {
            None
        } else {
            Some(self.0[0].0)
        }
    }

    /// Lets `elapsed` frames pass (see `updated`).
    pub fn update(&mut self, elapsed: u32)
        requires
            old(self).wf(),
        ensures
            final(self)@ == updated(old(self)@, elapsed, elapsed),
            final(self).wf(),
    {
        let ghost s0 = self@;
        let n = self.0.len();
        let mut remaining = elapsed;
        let mut i: usize = 0;
        proof {
            assert(s0.subrange(0, 0) =~= Seq::<(u32, T)>::empty());
            assert(s0.skip(0) =~= s0);
        }
        while i < n
            invariant_except_break
                remaining > 0 || i == 0 && elapsed == 0,
                updated(s0, elapsed, elapsed) == self@.subrange(0, i as int) + updated(
                    s0.skip(i as int),
                    elapsed,
                    remaining,
                ),
                forall|k: int| i <= k < n ==> self@[k] == s0[k],
            invariant
                n == s0.len(),
                i <= n,
                self@.len() == n,
                forall|k: int| 0 <= k < n ==> self@[k].0 <= s0[k].0,
            ensures
                self@ == updated(s0, elapsed, elapsed),
            decreases n - i,
        {
            let (delta, event) = self.0.remove(i).unwrap();
            let temp = delta;
            let new_delta = delta.saturating_sub(elapsed);
            self.0.insert(i, (new_delta, event));
            remaining = remaining.saturating_sub(temp);
            proof {
                let t = s0.skip(i as int);
                assert(t[0] == s0[i as int]);
                assert(t.drop_first() =~= s0.skip(i + 1));
            }
            if remaining == 0 {
                proof {
                    assert(updated(s0, elapsed, elapsed) =~= self@);
                }
                break;
            }
            proof {
                assert(self@.subrange(0, i + 1) =~= self@.subrange(0, i as int) + seq![self@[i as int]]);
            }
            i = i + 1;
        }
        proof {
            lemma_sum_le(self@, s0, n as int);
        }
    }

    /// Schedules `event` to fire `d` frames from now, after every event due
    /// no later than that (see `added`).
    pub fn add(&mut self, d: u32, event: T)
        requires
            old(self).wf(),
        ensures
            final(self)@ == added(old(self)@, d, event),
            final(self).wf(),
    {
        let ghost s0 = self@;
        let n = self.0.len();
        let mut sum: u32 = 0;
        let mut i: usize = 0;
        while i < n
            invariant_except_break
                insert_pos(s0, d, 0) == insert_pos(s0, d, i as int),
            invariant
                n == s0.len(),
                i <= n,
                self@ == s0,
                sum == delay_sum(s0, i as int),
                sum <= d,
                delay_sum(s0, n as int) <= u32::MAX,
            ensures
                insert_pos(s0, d, 0) == i,
                sum == delay_sum(s0, i as int),
                sum <= d,
            decreases n - i,
        {
            let delta = self.0[i].0;
            proof {
                lemma_delay_sum_mono(s0, i + 1, n as int);
            }
            if sum + delta > d {
                break;
            }
            sum = sum + delta;
            i = i + 1;
        }
        let insertion_point = i;
        let insertion_delta = d - sum;
        if insertion_point < n {
            let (delta, next) = self.0.remove(insertion_point).unwrap();
            self.0.insert(insertion_point, (delta.saturating_sub(insertion_delta), next));
            proof {
                assert(self@ =~= s0.update(insertion_point as int, (sat_sub(s0[insertion_point as int].0, insertion_delta), s0[insertion_point as int].1)));
            }
        }
        self.0.insert(insertion_point, (insertion_delta, event));
        proof {
            lemma_added_sums(s0, d, event);
        }
    }

    /// Takes the first event if it is due now.
    pub fn poll(&mut self) -> (r: Option<T>)
        ensures
            old(self)@.len() > 0 && old(self)@[0].0 == 0 ==> r == Some(old(self)@[0].1)
                && final(self)@ == old(self)@.drop_first(),
            !(old(self)@.len() > 0 && old(self)@[0].0 == 0) ==> r is None
                && final(self)@ == old(self)@,
            old(self).wf() ==> final(self).wf(),
    {
        if self.0.len() == 0 {
            return None;
        }
        if self.0[0].0 == 0 {
            let r = match self.0.pop_front() {
                Some((_, event)) => Some(event),
                None => None,
            };
            proof {
                assert(self@ =~= old(self)@.drop_first());
                lemma_drop_first_sum(old(self)@);
            }
            r
        } else {
            None
        }
    }
}

impl<T: PartialEq> Timer<T> {
    /// Cancels the first entry whose event equals `event` and returns its
    /// deadline; its delay passes to the entry after it.
    pub fn remove(&mut self, event: T) -> (r: Option<u32>)
        requires
            old(self).wf(),
        ensures
            final(self).wf(),
            match r {
                None => final(self)@ == old(self)@,
                Some(t) => exists|i: int|
                    0 <= i < old(self)@.len() && t == deadline(old(self)@, i) && final(self)@
                        == removed_at(old(self)@, i),
            },
            T::obeys_eq_spec() ==> {
                let i = first_match(old(self)@, event, 0);
                &&& r is None <==> i == old(self)@.len()
                &&& i < old(self)@.len() ==> r == Some(deadline(old(self)@, i) as u32)
                    && final(self)@ == removed_at(old(self)@, i)
            },
    {
        let ghost s0 = self@;
        let n = self.0.len();
        let mut sum: u32 = 0;
        let mut target: Option<usize> = None;
        let mut i: usize = 0;
        while i < n
            invariant_except_break
                target is None,
                sum == delay_sum(s0, i as int),
                T::obeys_eq_spec() ==> first_match(s0, event, 0) == first_match(s0, event, i as int),
            invariant
                n == s0.len(),
                i <= n,
                self@ == s0,
                delay_sum(s0, n as int) <= u32::MAX,
            ensures
                match target {
                    None => i == n && (T::obeys_eq_spec() ==> first_match(s0, event, 0) == n),
                    Some(t) => t == i && i < n && sum == delay_sum(s0, i + 1) && (T::obeys_eq_spec()
                        ==> first_match(s0, event, 0) == i),
                },
            decreases n - i,
        {
            proof {
                lemma_delay_sum_mono(s0, i + 1, n as int);
            }
            sum = sum + self.0[i].0;
            if self.0[i].1 == event {
                target = Some(i);
                break;
            }
            i = i + 1;
        }
        let index = match target {
            Some(index) => index,
            None => {
                return None;
            },
        };
        let (delta, _) = match self.0.remove(index) {
            Some(entry) => entry,
            None => {
                return None;
            },
        };
        if index < self.0.len() {
            let (next_delta, next) = self.0.remove(index).unwrap();
            proof {
                lemma_delay_sum_mono(s0, index + 2, n as int);
                lemma_delay_sum_mono(s0, 0, index as int);
                assert(delay_sum(s0, index + 2) == delay_sum(s0, index + 1) + s0[index + 1].0);
                assert(delay_sum(s0, index + 1) == delay_sum(s0, index as int) + s0[index as int].0);
                assert(s0.remove(index as int)[index as int] == s0[index + 1]);
            }
            self.0.insert(index, (next_delta + delta, next));
        }
        proof {
            assert(self@ =~= removed_at(s0, index as int));
            lemma_removed_sums(s0, index as int);
        }
        Some(sum)
    }
}


/// Lowering delays never raises a sum of them.
pub proof fn lemma_sum_le<T>(a: Seq<(u32, T)>, b: Seq<(u32, T)>, n: int)
    requires
        a.len() == b.len(),
        0 <= n <= a.len(),
        forall|k: int| 0 <= k < a.len() ==> a[k].0 <= b[k].0,
    ensures
        delay_sum(a, n) <= delay_sum(b, n),
    decreases n,
{
    if n > 0 {
        lemma_sum_le(a, b, n - 1);
    }
}

pub proof fn lemma_drop_first_sum<T>(s: Seq<(u32, T)>)
    requires
        s.len() > 0,
    ensures
        delay_sum(s.drop_first(), s.len() - 1) == delay_sum(s, s.len() as int) - s[0].0,
{
    lemma_shift_sum(s, s.len() as int);
}

proof fn lemma_shift_sum<T>(s: Seq<(u32, T)>, n: int)
    requires
        1 <= n <= s.len(),
    ensures
        delay_sum(s.drop_first(), n - 1) == delay_sum(s, n) - s[0].0,
    decreases n,
{
    let df = s.drop_first();
    assert(delay_sum(s, n) == delay_sum(s, n - 1) + s[n - 1].0);
    if n > 1 {
        lemma_shift_sum(s, n - 1);
        assert(df[n - 2] == s[n - 1]);
        assert(delay_sum(df, n - 1) == delay_sum(df, n - 2) + df[n - 2].0);
    } else {
        assert(delay_sum(s, 0) == 0);
        assert(delay_sum(df, 0) == 0);
    }
}

/// The insertion point lies after every entry due no later than `d` and, if
/// inside the queue, at an entry due later.
pub proof fn lemma_insert_pos<T>(s: Seq<(u32, T)>, d: u32, i: int)
    requires
        0 <= i <= s.len(),
    ensures
        i <= insert_pos(s, d, i) <= s.len(),
        forall|j: int| i <= j < insert_pos(s, d, i) ==> #[trigger] delay_sum(s, j + 1) <= d,
        insert_pos(s, d, i) < s.len() ==> delay_sum(s, insert_pos(s, d, i) + 1) > d,
    decreases s.len() - i,
{
    if i < s.len() && delay_sum(s, i + 1) <= d {
        lemma_insert_pos(s, d, i + 1);
    }
}

/// The deadlines after `add(d, event)`: those before the insertion point are
/// kept, the new entry is due at `d`, and those after it are kept, one place on.
pub proof fn lemma_added_deadlines<T>(s: Seq<(u32, T)>, d: u32, event: T, k: int)
    requires
        0 <= k <= s.len() + 1,
    ensures
        added(s, d, event).len() == s.len() + 1,
        0 <= insert_pos(s, d, 0) <= s.len(),
        delay_sum(s, insert_pos(s, d, 0)) <= d,
        k <= insert_pos(s, d, 0) ==> delay_sum(added(s, d, event), k) == delay_sum(s, k),
        k == insert_pos(s, d, 0) + 1 ==> delay_sum(added(s, d, event), k) == d,
        k > insert_pos(s, d, 0) + 1 ==> delay_sum(added(s, d, event), k) == delay_sum(s, k - 1),
    decreases k,
{
    let p = insert_pos(s, d, 0);
    lemma_insert_pos(s, d, 0);
    lemma_delay_sum_mono(s, 0, p);
    if p > 0 {
        assert(delay_sum(s, (p - 1) + 1) <= d);
    }
    let delay = (d - delay_sum(s, p)) as u32;
    let t = added(s, d, event);
    if k > 0 {
        lemma_added_deadlines(s, d, event, k - 1);
        assert(delay_sum(t, k) == delay_sum(t, k - 1) + t[k - 1].0);
        if k - 1 < p {
            assert(t[k - 1] == s[k - 1]);
        } else if k - 1 == p {
            assert(0 <= delay_sum(s, p) <= d);
            assert(delay == d - delay_sum(s, p));
            let s1 = if p < s.len() {
                s.update(p, (sat_sub(s[p].0, delay), s[p].1))
            } else {
                s
            };
            assert(t == s1.insert(p, (delay, event)));
            assert(t[p] == (delay, event));
            assert(delay_sum(t, k - 1) == delay_sum(s, p));
        } else if k - 1 == p + 1 {
            assert(delay_sum(s, p + 1) == delay_sum(s, p) + s[p].0);
            assert(t[k - 1].0 == s[p].0 - delay);
        } else {
            assert(t[k - 1] == s[k - 2]);
        }
    }
}

/// The deadlines after removing entry `i`: those before it are kept and those
/// after it are kept, one place back.
pub proof fn lemma_removed_deadlines<T>(s: Seq<(u32, T)>, i: int, k: int)
    requires
        0 <= i < s.len(),
        0 <= k <= s.len() - 1,
        delay_sum(s, s.len() as int) <= u32::MAX,
    ensures
        removed_at(s, i).len() == s.len() - 1,
        k <= i ==> delay_sum(removed_at(s, i), k) == delay_sum(s, k),
        k > i ==> delay_sum(removed_at(s, i), k) == delay_sum(s, k + 1),
    decreases k,
{
    if i + 1 < s.len() {
        lemma_delay_sum_mono(s, i + 2, s.len() as int);
        lemma_delay_sum_mono(s, 0, i);
    }
    let t = removed_at(s, i);
    if k > 0 {
        lemma_removed_deadlines(s, i, k - 1);
        assert(delay_sum(t, k) == delay_sum(t, k - 1) + t[k - 1].0);
        if k - 1 < i {
            assert(t[k - 1] == s[k - 1]);
        } else if k - 1 == i {
            assert(delay_sum(s, i + 2) == delay_sum(s, i + 1) + s[i + 1].0);
            assert(delay_sum(s, i + 1) == delay_sum(s, i) + s[i].0);
            assert(s.remove(i)[i] == s[i + 1]);
            assert(t[k - 1].0 == s[i + 1].0 + s[i].0);
        } else {
            assert(t[k - 1] == s[k]);
        }
    }
}

/// Adding keeps every deadline in a `u32`.
pub proof fn lemma_added_sums<T>(s: Seq<(u32, T)>, d: u32, event: T)
    requires
        delay_sum(s, s.len() as int) <= u32::MAX,
    ensures
        delay_sum(added(s, d, event), s.len() + 1int) <= u32::MAX,
{
    lemma_added_deadlines(s, d, event, s.len() + 1int);
}

/// Removing keeps every deadline in a `u32`.
pub proof fn lemma_removed_sums<T>(s: Seq<(u32, T)>, i: int)
    requires
        0 <= i < s.len(),
        delay_sum(s, s.len() as int) <= u32::MAX,
    ensures
        delay_sum(removed_at(s, i), s.len() - 1) <= u32::MAX,
{
    lemma_removed_deadlines(s, i, s.len() - 1);
    lemma_delay_sum_mono(s, s.len() - 1, s.len() as int);
}

/// Adding an event keeps the queue in deadline order, first come first
/// served: the new entry lands after every entry due no later than its own
/// deadline and before the first one due later, is due after `d` frames, and
/// every other entry keeps its event and its deadline.
pub proof fn law_add_keeps_deadline_order<T>(s: Seq<(u32, T)>, d: u32, event: T, i: int)
    requires
        0 <= i <= s.len(),
    ensures
        ({
            let p = insert_pos(s, d, 0);
            let t = added(s, d, event);
            &&& t.len() == s.len() + 1
            &&& forall|j: int| 0 <= j < p ==> #[trigger] deadline(s, j) <= d
            &&& p < s.len() ==> deadline(s, p) > d
            &&& t[p].1 == event
            &&& deadline(t, p) == d
            &&& i < p ==> t[i].1 == s[i].1 && deadline(t, i) == deadline(s, i)
            &&& p < i ==> t[i].1 == s[i - 1].1 && deadline(t, i) == deadline(s, i - 1)
        }),
{
    let p = insert_pos(s, d, 0);
    lemma_insert_pos(s, d, 0);
    lemma_added_deadlines(s, d, event, i + 1);
    lemma_added_deadlines(s, d, event, p + 1);
    assert forall|j: int| 0 <= j < p implies #[trigger] deadline(s, j) <= d by {
        assert(delay_sum(s, j + 1) <= d);
    }
}

/// Removing an entry keeps the event and the deadline of every other entry.
pub proof fn law_remove_keeps_other_deadlines<T>(s: Seq<(u32, T)>, i: int, j: int)
    requires
        0 <= i < s.len(),
        0 <= j < s.len() - 1,
        delay_sum(s, s.len() as int) <= u32::MAX,
    ensures
        ({
            let t = removed_at(s, i);
            &&& j < i ==> t[j].1 == s[j].1 && deadline(t, j) == deadline(s, j)
            &&& j >= i ==> t[j].1 == s[j + 1].1 && deadline(t, j) == deadline(s, j + 1)
        }),
{
    lemma_removed_deadlines(s, i, j + 1);
}

/// Removing an event undoes adding it: when `event` equals itself and no
/// entry holds an equal event, the entry that `add(d, event)` made is the
/// first match for `event`, it is due at `d`, and taking it out gives back
/// the queue as it was, delays included.
pub proof fn law_remove_undoes_add<T: PartialEq>(s: Seq<(u32, T)>, d: u32, event: T)
    requires
        event.eq_spec(&event),
        forall|i: int| 0 <= i < s.len() ==> !(#[trigger] s[i].1).eq_spec(&event),
    ensures
        ({
            let p = insert_pos(s, d, 0);
            let t = added(s, d, event);
            &&& first_match(t, event, 0) == p
            &&& deadline(t, p) == d
            &&& removed_at(t, p) == s
        }),
{
    let p = insert_pos(s, d, 0);
    let t = added(s, d, event);
    lemma_insert_pos(s, d, 0);
    lemma_added_deadlines(s, d, event, p + 1);
    lemma_delay_sum_mono(s, 0, p);
    if p > 0 {
        assert(delay_sum(s, (p - 1) + 1) <= d);
    }
    let delay = (d - delay_sum(s, p)) as u32;
    let s1 = if p < s.len() {
        s.update(p, (sat_sub(s[p].0, delay), s[p].1))
    } else {
        s
    };
    assert(t == s1.insert(p, (delay, event)));
    assert(t[p] == (delay, event));
    assert forall|j: int| 0 <= j < p implies !(#[trigger] t[j].1).eq_spec(&event) by {
        assert(t[j] == s[j]);
    }
    lemma_first_match_at(t, event, 0, p);
    assert(t.remove(p) =~= s1);
    if p < s.len() {
        assert(delay_sum(s, p + 1) == delay_sum(s, p) + s[p].0);
        assert(removed_at(t, p) =~= s);
    } else {
        assert(removed_at(t, p) =~= s);
    }
}

/// Where no entry from `i` to before `p` matches and entry `p` does, the
/// first match from `i` on is `p`.
proof fn lemma_first_match_at<T: PartialEq>(s: Seq<(u32, T)>, event: T, i: int, p: int)
    requires
        0 <= i <= p < s.len(),
        s[p].1.eq_spec(&event),
        forall|j: int| i <= j < p ==> !(#[trigger] s[j].1).eq_spec(&event),
    ensures
        first_match(s, event, i) == p,
    decreases p - i,
{
    if i < p {
        lemma_first_match_at(s, event, i + 1, p);
    }
}

/// Letting one frame pass brings every event one frame closer, down to due
/// now, and keeps every event in its place.
pub proof fn law_update_by_one_frame<T>(s: Seq<(u32, T)>, i: int)
    requires
        0 <= i < s.len(),
    ensures
        updated(s, 1, 1).len() == s.len(),
        updated(s, 1, 1)[i].1 == s[i].1,
        deadline(updated(s, 1, 1), i) == if deadline(s, i) > 0 {
            deadline(s, i) - 1
        } else {
            0
        },
    decreases s.len(),
{
    let t = updated(s, 1, 1);
    let df = s.drop_first();
    lemma_updated_len(s, 1, 1);
    lemma_delay_sum_mono(df, 0, i);
    lemma_shift_sum(s, i + 1);
    lemma_shift_sum(t, i + 1);
    if s[0].0 >= 1 {
        assert(t =~= seq![((s[0].0 - 1) as u32, s[0].1)] + df);
        assert(t.drop_first() =~= df);
    } else {
        let r = updated(df, 1, 1);
        assert(t =~= seq![(0u32, s[0].1)] + r);
        assert(t.drop_first() =~= r);
        if i > 0 {
            law_update_by_one_frame(df, i - 1);
            lemma_updated_len(df, 1, 1);
        } else {
            lemma_updated_len(df, 1, 1);
        }
    }
}

pub proof fn lemma_updated_len<T>(s: Seq<(u32, T)>, elapsed: u32, remaining: u32)
    ensures
        updated(s, elapsed, remaining).len() == s.len(),
    decreases s.len(),
{
    if s.len() > 0 {
        lemma_updated_len(s.drop_first(), elapsed, sat_sub(remaining, s[0].0));
    }
}

} // verus!
