//! The bookkeeping of the poll engine: the array of watched descriptors
//! handed to `poll()`, and for each descriptor its place in that array.
//! Removing a descriptor moves the last entry into its place.

use vstd::prelude::*;

verus! {

/// The number of descriptors the engine can watch: descriptors from 0 up
/// to this bound, not included.
pub const MAX_POLL_FDS: usize = 1024;

/// A watched descriptor as `poll()` takes it: the descriptor, the events
/// asked for and the events that came.
#[derive(Clone, Copy, Debug, PartialEq, Eq, Structural)]
pub struct PollFd {
    pub fd: i32,
    pub events: i16,
    pub revents: i16,
}

/// Whether some entry watches the descriptor.
pub open spec fn watched(s: Seq<PollFd>, fd: int) -> bool {
    exists|i: int| 0 <= i < s.len() && #[trigger] s[i].fd == fd
}

/// No descriptor is watched twice.
pub open spec fn distinct_fds(s: Seq<PollFd>) -> bool {
    forall|i: int, j: int| 0 <= i < s.len() && 0 <= j < s.len() && i != j ==> #[trigger] s[i].fd != #[trigger] s[j].fd
}

/// The entries after the one at `i` is removed by moving the last entry
/// into its place.
pub open spec fn swap_removed(s: Seq<PollFd>, i: int) -> Seq<PollFd> {
    if i == s.len() - 1 {
        s.drop_last()
    } else {
        s.update(i, s.last()).drop_last()
    }
}

/// The entries after the events asked for on `fd` become `events`.
pub open spec fn events_changed(s: Seq<PollFd>, fd: int, events: i16) -> Seq<PollFd> {
    Seq::new(s.len(), |i: int| if s[i].fd == fd {
        PollFd { fd: s[i].fd, events, revents: s[i].revents }
    } else {
        s[i]
    })
}

/// The place table holds entry `i`.
pub open spec fn maps_to(m: Option<usize>, i: int) -> bool {
    m matches Some(k) && k == i
}

/// The descriptors watched by `poll()`.
pub struct PollEngine {
    events: Vec<PollFd>,
    fd_mappings: Vec<Option<usize>>,
}

impl PollEngine {
    /// The array handed to `poll()`, in order.
    pub closed spec fn entries(&self) -> Seq<PollFd> {
        self.events@
    }

    /// The place of each descriptor matches the array: every entry's
    /// descriptor is in range and maps to the entry, and every mapped
    /// descriptor names an entry that watches it.
    pub closed spec fn wf(&self) -> bool {
        &&& self.fd_mappings@.len() == MAX_POLL_FDS
        &&& forall|i: int|
            0 <= i < self.events@.len() ==> 0 <= #[trigger] self.events@[i].fd < MAX_POLL_FDS
                && maps_to(self.fd_mappings@[self.events@[i].fd as int], i)
        &&& forall|f: int|
            0 <= f < MAX_POLL_FDS ==> match #[trigger] self.fd_mappings@[f] {
                Some(k) => k < self.events@.len() && self.events@[k as int].fd == f,
                None => true,
            }
    }

    /// A well-formed engine watches each descriptor at most once, and only
    /// descriptors in range.
    pub proof fn lemma_wf_entries(&self)
        requires
            self.wf(),
        ensures
            distinct_fds(self.entries()),
            forall|i: int| 0 <= i < self.entries().len() ==> 0 <= #[trigger] self.entries()[i].fd < MAX_POLL_FDS,
    {
        let e = self.events@;
        assert forall|i: int, j: int| 0 <= i < e.len() && 0 <= j < e.len() && i != j implies #[trigger] e[i].fd
            != #[trigger] e[j].fd by {
            assert(maps_to(self.fd_mappings@[e[i].fd as int], i));
            assert(maps_to(self.fd_mappings@[e[j].fd as int], j));
        }
    }

    /// Whether the descriptor is mapped, read from the place table.
    proof fn lemma_mapped_iff_watched(&self, fd: int)
        requires
            self.wf(),
            0 <= fd < MAX_POLL_FDS,
        ensures
            self.fd_mappings@[fd] is Some <==> watched(self.events@, fd),
            self.fd_mappings@[fd] matches Some(k) ==> k < self.events@.len() && self.events@[k as int].fd == fd,
    {
        if watched(self.events@, fd) {
            let i = choose|i: int| 0 <= i < self.events@.len() && #[trigger] self.events@[i].fd == fd;
            assert(maps_to(self.fd_mappings@[self.events@[i].fd as int], i));
        }
        if self.fd_mappings@[fd] is Some {
            let k = self.fd_mappings@[fd]->0;
            assert(self.events@[k as int].fd == fd);
        }
    }

    /// An engine watching nothing.
    pub fn new() -> (r: Self)
        ensures
            r.wf(),
            r.entries() == Seq::<PollFd>::empty(),
    {
        let mut fd_mappings: Vec<Option<usize>> = Vec::new();
        let mut i: usize = 0;
        while i < MAX_POLL_FDS
            invariant
                i <= MAX_POLL_FDS,
                fd_mappings@.len() == i,
                forall|k: int| 0 <= k < i ==> #[trigger] fd_mappings@[k] is None,
            decreases MAX_POLL_FDS - i,
        {
            fd_mappings.push(None);
            i = i + 1;
        }
        PollEngine { events: Vec::new(), fd_mappings }
    }

    /// Starts watching `fd` for `events`: false, and nothing changed, where
    /// `fd` is out of range or watched already.
    pub fn add_fd(&mut self, fd: i32, events: i16) -> (r: bool)
        requires
            old(self).wf(),
        ensures
            final(self).wf(),
            r == (0 <= fd < MAX_POLL_FDS && !watched(old(self).entries(), fd as int)),
            r ==> final(self).entries() == old(self).entries().push(PollFd { fd, events, revents: 0 }),
            !r ==> final(self).entries() == old(self).entries(),
    {
        if fd < 0 || fd as usize >= MAX_POLL_FDS {
            proof {
                if watched(self.events@, fd as int) {
                    let i = choose|i: int| 0 <= i < self.events@.len() && #[trigger] self.events@[i].fd == fd;
                    assert(0 <= self.events@[i].fd < MAX_POLL_FDS);
                }
            }
            return false;
        }
        let f = fd as usize;
        proof {
            self.lemma_mapped_iff_watched(f as int);
        }
        if self.fd_mappings[f].is_some() {
            return false;
        }
        let index = self.events.len();
        let ghost old_events = self.events@;
        let ghost old_map = self.fd_mappings@;
        self.fd_mappings.set(f, Some(index));
        self.events.push(PollFd { fd, events, revents: 0 });
        proof {
            assert forall|i: int| 0 <= i < self.events@.len() implies 0 <= #[trigger] self.events@[i].fd < MAX_POLL_FDS
                && maps_to(self.fd_mappings@[self.events@[i].fd as int], i) by {
                if i < old_events.len() {
                    assert(old_events[i] == self.events@[i]);
                    assert(maps_to(old_map[old_events[i].fd as int], i));
                }
            }
            assert forall|g: int| 0 <= g < MAX_POLL_FDS implies match #[trigger] self.fd_mappings@[g] {
                Some(k) => k < self.events@.len() && self.events@[k as int].fd == g,
                None => true,
            } by {
                if g != f as int {
                    assert(self.fd_mappings@[g] == old_map[g]);
                    if old_map[g] is Some {
                        let k = old_map[g]->0;
                        assert(self.events@[k as int] == old_events[k as int]);
                    }
                }
            }
        }
        true
    }

    /// Asks for `events` on the watched `fd`: false, and nothing changed,
    /// where `fd` is not watched.
    pub fn mod_fd(&mut self, fd: i32, events: i16) -> (r: bool)
        requires
            old(self).wf(),
        ensures
            final(self).wf(),
            r == watched(old(self).entries(), fd as int),
            final(self).entries() == events_changed(old(self).entries(), fd as int, events),
    {
        let ghost old_events = self.events@;
        if fd < 0 || fd as usize >= MAX_POLL_FDS {
            proof {
                if watched(self.events@, fd as int) {
                    let i = choose|i: int| 0 <= i < self.events@.len() && #[trigger] self.events@[i].fd == fd;
                    assert(0 <= self.events@[i].fd < MAX_POLL_FDS);
                }
                assert forall|i: int| 0 <= i < old_events.len() implies old_events[i].fd != fd by {
                    assert(0 <= old_events[i].fd < MAX_POLL_FDS);
                }
                assert(events_changed(old_events, fd as int, events) =~= old_events);
            }
            return false;
        }
        let f = fd as usize;
        proof {
            self.lemma_mapped_iff_watched(f as int);
        }
        match self.fd_mappings[f] {
            None => {
                proof {
                    assert forall|i: int| 0 <= i < old_events.len() implies old_events[i].fd != fd by {
                        assert(maps_to(self.fd_mappings@[old_events[i].fd as int], i));
                    }
                    assert(events_changed(old_events, fd as int, events) =~= old_events);
                }
                false
            },
            Some(index) => {
                proof {
                    assert forall|i: int| 0 <= i < old_events.len() && i != index implies old_events[i].fd != fd by {
                        assert(maps_to(self.fd_mappings@[old_events[i].fd as int], i));
                    }
                }
                let old_entry = self.events[index];
                self.events.set(index, PollFd { fd: old_entry.fd, events, revents: old_entry.revents });
                proof {
                    assert(self.events@ =~= events_changed(old_events, fd as int, events));
                }
                true
            },
        }
    }

    /// Stops watching `fd`, moving the last entry into its place: false,
    /// and nothing changed, where `fd` is not watched.
    pub fn del_fd(&mut self, fd: i32) -> (r: bool)
        requires
            old(self).wf(),
        ensures
            final(self).wf(),
            r == watched(old(self).entries(), fd as int),
            r ==> exists|i: int|
                0 <= i < old(self).entries().len() && #[trigger] old(self).entries()[i].fd == fd
                    && final(self).entries() == swap_removed(old(self).entries(), i),
            !r ==> final(self).entries() == old(self).entries(),
    {
        if fd < 0 || fd as usize >= MAX_POLL_FDS {
            proof {
                if watched(self.events@, fd as int) {
                    let i = choose|i: int| 0 <= i < self.events@.len() && #[trigger] self.events@[i].fd == fd;
                    assert(0 <= self.events@[i].fd < MAX_POLL_FDS);
                }
            }
            return false;
        }
        let f = fd as usize;
        proof {
            self.lemma_mapped_iff_watched(f as int);
        }
        let index = match self.fd_mappings[f] {
            None => {
                return false;
            },
            Some(index) => index,
        };
        let ghost old_events = self.events@;
        let ghost old_map = self.fd_mappings@;
        assert(old_events[index as int].fd == fd);
        let last_index = self.events.len() - 1;
        if index != last_index {
            let last = self.events[last_index];
            proof {
                assert(old_map[last.fd as int] == Some(last_index));
            }
            self.events.set(index, last);
            self.fd_mappings.set(last.fd as usize, Some(index));
        }
        self.events.pop();
        self.fd_mappings.set(f, None);
        proof {
            let n = old_events.len();
            let lastfd = old_events[n - 1].fd;
            assert(self.events@ =~= swap_removed(old_events, index as int));
            assert forall|i: int| 0 <= i < self.events@.len() implies 0 <= #[trigger] self.events@[i].fd < MAX_POLL_FDS
                && maps_to(self.fd_mappings@[self.events@[i].fd as int], i) by {
                if i == index as int {
                    assert(self.events@[i] == old_events[n - 1]);
                    assert(maps_to(old_map[lastfd as int], (n - 1)));
                } else {
                    assert(self.events@[i] == old_events[i]);
                    assert(maps_to(old_map[old_events[i].fd as int], i));
                    assert(maps_to(old_map[lastfd as int], (n - 1)));
                }
            }
            assert forall|g: int| 0 <= g < MAX_POLL_FDS implies match #[trigger] self.fd_mappings@[g] {
                Some(k) => k < self.events@.len() && self.events@[k as int].fd == g,
                None => true,
            } by {
                if g != f as int && !(index != last_index && g == lastfd as int) {
                    assert(self.fd_mappings@[g] == old_map[g]);
                    if old_map[g] is Some {
                        let k = old_map[g]->0;
                        assert(old_events[k as int].fd == g);
                        assert(maps_to(old_map[lastfd as int], (n - 1)));
                        assert(k != index);
                        assert(k as int != n - 1);
                        assert(self.events@[k as int] == old_events[k as int]);
                    }
                }
            }
            assert(old(self).entries()[index as int].fd == fd);
            assert(self.entries() == swap_removed(old(self).entries(), index as int));
            assert(old(self).entries()[index as int].fd == fd);
            assert(self.entries() == swap_removed(old(self).entries(), index as int));
        }
        true
    }

    /// Records the events that `poll()` reported for the entry at `index`.
    pub fn set_revents(&mut self, index: usize, revents: i16)
        requires
            old(self).wf(),
        ensures
            final(self).wf(),
            index < old(self).entries().len() ==> final(self).entries() == old(self).entries().update(
                index as int,
                PollFd { fd: old(self).entries()[index as int].fd, events: old(self).entries()[index as int].events, revents },
            ),
            index >= old(self).entries().len() ==> final(self).entries() == old(self).entries(),
    {
        if index < self.events.len() {
            let e = self.events[index];
            let ghost old_events = self.events@;
            self.events.set(index, PollFd { fd: e.fd, events: e.events, revents });
            proof {
                assert forall|i: int| 0 <= i < self.events@.len() implies #[trigger] self.events@[i].fd == old_events[i].fd by {}
            }
        }
    }

    /// The number of watched descriptors.
    pub fn get_fd_count(&self) -> (r: usize)
        ensures
            r == self.entries().len(),
    {
        self.events.len()
    }

    /// The entry at `index`, if there is one.
    pub fn get_pollfd(&self, index: usize) -> (r: Option<PollFd>)
        ensures
            index < self.entries().len() ==> r == Some(self.entries()[index as int]),
            index >= self.entries().len() ==> r is None,
    {
        if index < self.events.len() {
            Some(self.events[index])
        } else {
            None
        }
    }
}

/// Removing the descriptor that was added last gives back the entries from
/// before it was added.
pub proof fn law_del_undoes_add(s: Seq<PollFd>, x: PollFd)
    ensures
        swap_removed(s.push(x), s.len() as int) == s,
{
    assert(s.push(x).drop_last() =~= s);
}

/// Removing a descriptor stops watching it and keeps watching every other
/// descriptor, asking for the same events.
pub proof fn law_del_keeps_others(s: Seq<PollFd>, i: int, g: int)
    requires
        distinct_fds(s),
        0 <= i < s.len(),
        g != s[i].fd,
    ensures
        !watched(swap_removed(s, i), s[i].fd as int),
        watched(swap_removed(s, i), g) == watched(s, g),
        forall|j: int| 0 <= j < swap_removed(s, i).len() && #[trigger] swap_removed(s, i)[j].fd == g
            ==> exists|k: int| 0 <= k < s.len() && #[trigger] s[k] == swap_removed(s, i)[j],
{
    let t = swap_removed(s, i);
    let n = s.len();
    assert(t.len() == n - 1);
    assert forall|j: int| 0 <= j < t.len() implies #[trigger] t[j] == (if j == i { s[n - 1] } else { s[j] }) by {}
    if watched(t, s[i].fd as int) {
        let j = choose|j: int| 0 <= j < t.len() && #[trigger] t[j].fd == s[i].fd;
        if j == i {
            assert(s[n - 1].fd == s[i].fd);
        } else {
            assert(s[j].fd == s[i].fd);
        }
    }
    if watched(s, g) {
        let k = choose|k: int| 0 <= k < s.len() && #[trigger] s[k].fd == g;
        if k == n - 1 {
            if i != n - 1 {
                assert(t[i].fd == g);
            }
        } else {
            assert(k != i);
            assert(t[k].fd == g);
        }
    }
    if watched(t, g) {
        let j = choose|j: int| 0 <= j < t.len() && #[trigger] t[j].fd == g;
        if j == i {
            assert(s[n - 1].fd == g);
        } else {
            assert(s[j].fd == g);
        }
    }
    assert forall|j: int| 0 <= j < t.len() && #[trigger] t[j].fd == g
        implies exists|k: int| 0 <= k < s.len() && #[trigger] s[k] == t[j] by {
        if j == i {
            assert(s[n - 1] == t[j]);
        } else {
            assert(s[j] == t[j]);
        }
    }
}

/// Asking for other events on a descriptor keeps the same descriptors,
/// in the same order.
pub proof fn law_mod_keeps_descriptors(s: Seq<PollFd>, fd: int, events: i16, g: int)
    ensures
        events_changed(s, fd, events).len() == s.len(),
        forall|j: int| 0 <= j < s.len() ==> #[trigger] events_changed(s, fd, events)[j].fd == s[j].fd,
        watched(events_changed(s, fd, events), g) == watched(s, g),
{
    let t = events_changed(s, fd, events);
    assert forall|j: int| 0 <= j < s.len() implies #[trigger] t[j].fd == s[j].fd by {}
    if watched(s, g) {
        let k = choose|k: int| 0 <= k < s.len() && #[trigger] s[k].fd == g;
        assert(t[k].fd == g);
    }
    if watched(t, g) {
        let k = choose|k: int| 0 <= k < t.len() && #[trigger] t[k].fd == g;
        assert(s[k].fd == g);
    }
}

} // verus!
