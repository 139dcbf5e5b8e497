//! The timer schedule: timers ordered by the time they are due, taken off
//! in batches when their time comes, and put back when they repeat.

use vstd::prelude::*;

verus! {

/// A schedule entry: the time a timer is due and the timer's handle.
pub type ScheduleEntry = (i64, usize);

/// The entries are in order of due time; timers due at the same time stay
/// side by side.
pub open spec fn sorted(s: Seq<ScheduleEntry>) -> bool {
    forall|i: int, j: int| 0 <= i < j < s.len() ==> #[trigger] s[i].0 <= #[trigger] s[j].0
}

/// `p` splits the entries into those due at or before `t` and those due
/// after it.
pub open spec fn splits_at(s: Seq<ScheduleEntry>, t: i64, p: int) -> bool {
    &&& 0 <= p <= s.len()
    &&& forall|i: int| 0 <= i < p ==> #[trigger] s[i].0 <= t
    &&& forall|i: int| p <= i < s.len() ==> #[trigger] s[i].0 > t
}

/// `i` is the first entry that holds `entry`.
pub open spec fn first_entry(s: Seq<ScheduleEntry>, entry: ScheduleEntry, i: int) -> bool {
    &&& 0 <= i < s.len()
    &&& s[i] == entry
    &&& forall|j: int| 0 <= j < i ==> #[trigger] s[j] != entry
}

/// What becomes of a timer once its tick has run.
#[derive(PartialEq, Eq, Structural, Clone, Copy, Debug)]
pub enum TickOutcome {
    /// The timer was invalidated meanwhile: leave it alone.
    Skip,
    /// The timer goes back into the schedule, due at the given time.
    Reschedule(i64),
    /// The timer is done and is destroyed.
    Destroy,
}

/// Decides what becomes of a timer after its tick: an invalidated timer is
/// left alone; a timer whose tick asks to go on and that repeats is due
/// again `secs` after `now`; any other is destroyed.
pub fn after_tick(still_valid: bool, should_continue: bool, repeat: bool, now: i64, secs: u64) -> (r:
    TickOutcome)
    requires
        should_continue && repeat ==> i64::MIN <= now + (secs as i64) <= i64::MAX,
    ensures
        r == (if !still_valid {
            TickOutcome::Skip
        } else if should_continue && repeat {
            TickOutcome::Reschedule((now + (secs as i64)) as i64)
        } else {
            TickOutcome::Destroy
        }),
{
    if !still_valid {
        TickOutcome::Skip
    } else if should_continue && repeat {
        TickOutcome::Reschedule(now + secs as i64)
    } else {
        TickOutcome::Destroy
    }
}

/// The schedule of timers, in order of due time; several timers may be due
/// at the same time.
pub struct TimerManager {
    timers: Vec<ScheduleEntry>,
}

impl TimerManager {
    /// The entries, in order of due time.
    pub closed spec fn view(&self) -> Seq<ScheduleEntry> {
        self.timers@
    }

    /// An empty schedule.
    pub fn new() -> (r: Self)
        ensures
            r.view() == Seq::<ScheduleEntry>::empty(),
    {
        TimerManager { timers: Vec::new() }
    }

    /// The number of entries.
    pub fn len(&self) -> (r: usize)
        ensures
            r == self.view().len(),
    {
        self.timers.len()
    }

    /// The entry at `index`.
    pub fn entry_at(&self, index: usize) -> (r: ScheduleEntry)
        requires
            index < self.view().len(),
        ensures
            r == self.view()[index as int],
    {
        self.timers[index]
    }

    /// The position after the last entry due at or before `t`.
    fn upper_bound(&self, t: i64) -> (r: usize)
        requires
            sorted(self.view()),
        ensures
            splits_at(self.view(), t, r as int),
    {
        let mut i: usize = 0;
        while i < self.timers.len() && self.timers[i].0 <= t
            invariant
                i <= self.view().len(),
                sorted(self.view()),
                forall|j: int| 0 <= j < i ==> #[trigger] self.view()[j].0 <= t,
            decreases self.timers.len() - i,
        {
            i = i + 1;
        }
        proof {
            if i < self.view().len() {
                assert forall|j: int| i <= j < self.view().len() implies #[trigger] self.view()[j].0 > t by {
                    if j > i {
                        assert(self.view()[i as int].0 <= self.view()[j].0);
                    }
                }
            }
        }
        i
    }

    /// Puts `timer` into the schedule, due at `trigger`: after every timer
    /// due at or before that time and before every later one.
    pub fn insert(&mut self, trigger: i64, timer: usize)
        requires
            sorted(old(self).view()),
        ensures
            sorted(final(self).view()),
            exists|p: int| splits_at(old(self).view(), trigger, p) && final(self).view() == old(self).view().insert(
                p,
                (trigger, timer),
            ),
    {
        let p = self.upper_bound(trigger);
        let ghost s = self.view();
        self.timers.insert(p, (trigger, timer));
        proof {
            let u = self.view();
            assert(u =~= s.insert(p as int, (trigger, timer)));
            assert forall|i: int, j: int| 0 <= i < j < u.len() implies #[trigger] u[i].0 <= #[trigger] u[j].0 by {
                if i < p {
                    assert(u[i] == s[i]);
                } else if i > p {
                    assert(u[i] == s[i - 1]);
                }
                if j < p {
                    assert(u[j] == s[j]);
                } else if j > p {
                    assert(u[j] == s[j - 1]);
                }
            }
            assert(splits_at(s, trigger, p as int));
        }
    }

    /// Adds a timer that is due `secs` after `now`, after the timers already
    /// due by then; gives the time it is due.
    pub fn add_timer(&mut self, timer: usize, secs: u64, now: i64) -> (r: i64)
        requires
            sorted(old(self).view()),
            i64::MIN <= now + (secs as i64) <= i64::MAX,
        ensures
            r == now + (secs as i64),
            sorted(final(self).view()),
            exists|p: int| splits_at(old(self).view(), r, p) && final(self).view() == old(self).view().insert(
                p,
                (r, timer),
            ),
    {
        let trigger = now + secs as i64;
        self.insert(trigger, timer);
        trigger
    }

    /// Takes every timer due at or before `now` off the schedule; gives them
    /// in order of due time.
    pub fn take_due(&mut self, now: i64) -> (r: Vec<ScheduleEntry>)
        requires
            sorted(old(self).view()),
        ensures
            sorted(final(self).view()),
            splits_at(old(self).view(), now, r@.len() as int),
            r@ == old(self).view().take(r@.len() as int),
            final(self).view() == old(self).view().skip(r@.len() as int),
    {
        let ghost s = self.view();
        let n = self.upper_bound(now);
        let mut due = self.timers.split_off(n);
        std::mem::swap(&mut due, &mut self.timers);
        proof {
            assert(due@ =~= s.take(n as int));
            assert(self.view() =~= s.skip(n as int));
            assert forall|i: int, j: int| 0 <= i < j < self.view().len() implies #[trigger] self.view()[i].0
                <= #[trigger] self.view()[j].0 by {
                assert(self.view()[i] == s[i + n]);
                assert(self.view()[j] == s[j + n]);
            }
        }
        due
    }

    /// Takes `timer`, due at `trigger`, off the schedule (0 standing for a
    /// timer not scheduled); says whether it was there.
    pub fn del_timer(&mut self, timer: usize, trigger: i64) -> (r: bool)
        requires
            sorted(old(self).view()),
        ensures
            sorted(final(self).view()),
            r == (trigger != 0 && old(self).view().contains((trigger, timer))),
            r ==> exists|i: int| first_entry(old(self).view(), (trigger, timer), i) && final(self).view()
                == old(self).view().remove(i),
            !r ==> final(self).view() == old(self).view(),
    {
        let ghost s = self.view();
        if trigger == 0 {
            return false;
        }
        let mut i: usize = 0;
        while i < self.timers.len()
            invariant
                self.view() == s,
                old(self).view() == s,
                sorted(s),
                trigger != 0,
                i <= s.len(),
                forall|j: int| 0 <= j < i ==> #[trigger] s[j] != (trigger, timer),
            decreases self.timers.len() - i,
        {
            if self.timers[i].0 == trigger && self.timers[i].1 == timer {
                let _gone = self.timers.remove(i);
                proof {
                    let u = self.view();
                    assert(u =~= s.remove(i as int));
                    assert(s[i as int] == (trigger, timer));
                    assert(first_entry(s, (trigger, timer), i as int));
                    assert(s.contains((trigger, timer)));
                    assert forall|a: int, b: int| 0 <= a < b < u.len() implies #[trigger] u[a].0 <= #[trigger] u[b].0 by {
                        let a2 = if a < i { a } else { a + 1 };
                        let b2 = if b < i { b } else { b + 1 };
                        assert(u[a] == s[a2] && u[b] == s[b2]);
                    }
                }
                return true;
            }
            i = i + 1;
        }
        proof {
            if s.contains((trigger, timer)) {
                let k = choose|k: int| 0 <= k < s.len() && s[k] == (trigger, timer);
                assert(s[k] != (trigger, timer));
            }
        }
        false
    }
}

/// Every timer in the schedule is handed out by the first tick at or after
/// its due time: when a tick takes the entries due by `now` (the first `k`),
/// each entry due by `now` is among them, timers due at the same time
/// included.
pub proof fn law_due_timers_are_taken(s: Seq<ScheduleEntry>, k: int, now: i64, j: int)
    requires
        splits_at(s, now, k),
        0 <= j < s.len(),
        s[j].0 <= now,
    ensures
        j < k,
        s.take(k)[j] == s[j],
{
}

/// Adding a timer keeps every timer already in the schedule: the entries
/// before the new one stay where they were, those after it move up by one.
pub proof fn law_insert_keeps_timers(s: Seq<ScheduleEntry>, p: int, e: ScheduleEntry, i: int)
    requires
        0 <= p <= s.len(),
        0 <= i < s.len(),
    ensures
        s.insert(p, e)[p] == e,
        s.insert(p, e)[if i < p { i } else { i + 1 }] == s[i],
        s.insert(p, e).len() == s.len() + 1,
{
}

} // verus!
