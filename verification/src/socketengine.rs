//! The decisions of the socket engines: which kernel events an event mask
//! asks for, how a change of mask changes the watched sets and filters, and
//! the traffic counters. The engines make the system calls.

use vstd::prelude::*;

verus! {

/// Do not read.
pub const FD_WANT_NO_READ: i32 = 0x1;
/// Read when the socket is readable.
pub const FD_WANT_POLL_READ: i32 = 0x2;
/// Read at once, then when readable.
pub const FD_WANT_FAST_READ: i32 = 0x4;
/// Read on edge-triggered readiness.
pub const FD_WANT_EDGE_READ: i32 = 0x8;
/// Do not write.
pub const FD_WANT_NO_WRITE: i32 = 0x10;
/// Write when the socket is writable.
pub const FD_WANT_POLL_WRITE: i32 = 0x20;
/// Write at once, then when writable.
pub const FD_WANT_FAST_WRITE: i32 = 0x40;
/// Write on edge-triggered readiness.
pub const FD_WANT_EDGE_WRITE: i32 = 0x80;
/// Write once when writable.
pub const FD_WANT_SINGLE_WRITE: i32 = 0x100;

/// The mask asks for reading on readiness.
pub open spec fn wants_poll_read(m: i32) -> bool {
    m & (FD_WANT_POLL_READ | FD_WANT_FAST_READ) != 0
}

/// The mask asks for writing on readiness.
pub open spec fn wants_poll_write(m: i32) -> bool {
    m & (FD_WANT_POLL_WRITE | FD_WANT_FAST_WRITE | FD_WANT_SINGLE_WRITE) != 0
}

/// The epoll event bits for an event mask, given the values of `EPOLLIN`,
/// `EPOLLOUT` and `EPOLLET`: level-triggered when the mask asks for any
/// poll-style or single write, edge-triggered otherwise.
pub open spec fn spec_mask_to_epoll(m: i32, epollin: u32, epollout: u32, epollet: u32) -> u32 {
    if m & (FD_WANT_POLL_READ | FD_WANT_POLL_WRITE | FD_WANT_SINGLE_WRITE) != 0 {
        (if wants_poll_read(m) { epollin } else { 0u32 }) | (if wants_poll_write(m) {
            epollout
        } else {
            0u32
        })
    } else {
        epollet | (if m & (FD_WANT_FAST_READ | FD_WANT_EDGE_READ) != 0 { epollin } else { 0u32 }) | (
        if m & (FD_WANT_FAST_WRITE | FD_WANT_EDGE_WRITE) != 0 {
            epollout
        } else {
            0u32
        })
    }
}

/// The epoll event bits for an event mask.
pub fn mask_to_epoll(event_mask: i32, epollin: u32, epollout: u32, epollet: u32) -> (r: u32)
    ensures
        r == spec_mask_to_epoll(event_mask, epollin, epollout, epollet),
{
    let mut rv: u32 = 0;
    if event_mask & (FD_WANT_POLL_READ | FD_WANT_POLL_WRITE | FD_WANT_SINGLE_WRITE) != 0 {
        let a: u32 = if event_mask & (FD_WANT_POLL_READ | FD_WANT_FAST_READ) != 0 { epollin } else { 0 };
        let b: u32 = if event_mask & (FD_WANT_POLL_WRITE | FD_WANT_FAST_WRITE | FD_WANT_SINGLE_WRITE) != 0 {
            epollout
        } else {
            0
        };
        rv = a | b;
    } else {
        let a: u32 = if event_mask & (FD_WANT_FAST_READ | FD_WANT_EDGE_READ) != 0 { epollin } else { 0 };
        let b: u32 = if event_mask & (FD_WANT_FAST_WRITE | FD_WANT_EDGE_WRITE) != 0 { epollout } else { 0 };
        rv = epollet | a | b;
    }
    rv
}

/// The poll event bits for an event mask, given the values of `POLLIN` and
/// `POLLOUT`.
pub fn mask_to_poll(event_mask: i32, pollin: i32, pollout: i32) -> (r: i32)
    ensures
        r == (if wants_poll_read(event_mask) { pollin } else { 0i32 }) | (if wants_poll_write(
            event_mask,
        ) {
            pollout
        } else {
            0i32
        }),
{
    let a: i32 = if event_mask & (FD_WANT_POLL_READ | FD_WANT_FAST_READ) != 0 { pollin } else { 0 };
    let b: i32 = if event_mask & (FD_WANT_POLL_WRITE | FD_WANT_FAST_WRITE | FD_WANT_SINGLE_WRITE) != 0 {
        pollout
    } else {
        0
    };
    a | b
}

/// How a change of event mask changes the select engine's sets: for the
/// read set and for the write set, nothing (`None`) where the mask's bits
/// for it are unchanged, else whether the socket is now in it.
pub fn select_set_changes(old_mask: i32, new_mask: i32) -> (r: (Option<bool>, Option<bool>))
    ensures
        r.0 == (if (old_mask ^ new_mask) & (FD_WANT_POLL_READ | FD_WANT_FAST_READ) != 0 {
            Some(wants_poll_read(new_mask))
        } else {
            None
        }),
        r.1 == (if (old_mask ^ new_mask) & (FD_WANT_POLL_WRITE | FD_WANT_FAST_WRITE
            | FD_WANT_SINGLE_WRITE) != 0 {
            Some(wants_poll_write(new_mask))
        } else {
            None
        }),
{
    let diff = old_mask ^ new_mask;
    let r = if diff & (FD_WANT_POLL_READ | FD_WANT_FAST_READ) != 0 {
        Some(new_mask & (FD_WANT_POLL_READ | FD_WANT_FAST_READ) != 0)
    } else {
        None
    };
    let w = if diff & (FD_WANT_POLL_WRITE | FD_WANT_FAST_WRITE | FD_WANT_SINGLE_WRITE) != 0 {
        Some(new_mask & (FD_WANT_POLL_WRITE | FD_WANT_FAST_WRITE | FD_WANT_SINGLE_WRITE) != 0)
    } else {
        None
    };
    (r, w)
}

/// The kqueue write filter changes for a change of event mask: whether a
/// poll-style write filter is added (`Some(true)`) or deleted
/// (`Some(false)`), and whether a one-shot write filter is added.
pub fn kqueue_write_changes(old_mask: i32, new_mask: i32) -> (r: (Option<bool>, bool))
    ensures
        r.0 == (if new_mask & FD_WANT_POLL_WRITE != 0 && old_mask & FD_WANT_POLL_WRITE == 0 {
            Some(true)
        } else if old_mask & FD_WANT_POLL_WRITE != 0 && new_mask & FD_WANT_POLL_WRITE == 0 {
            Some(false)
        } else {
            None
        }),
        r.1 == (new_mask & (FD_WANT_FAST_WRITE | FD_WANT_SINGLE_WRITE) != 0 && old_mask & (
        FD_WANT_FAST_WRITE | FD_WANT_SINGLE_WRITE) == 0),
{
    let poll = if (new_mask & FD_WANT_POLL_WRITE) != 0 && (old_mask & FD_WANT_POLL_WRITE) == 0 {
        Some(true)
    } else if (old_mask & FD_WANT_POLL_WRITE) != 0 && (new_mask & FD_WANT_POLL_WRITE) == 0 {
        Some(false)
    } else {
        None
    };
    let oneshot = (new_mask & (FD_WANT_FAST_WRITE | FD_WANT_SINGLE_WRITE)) != 0 && (old_mask & (
    FD_WANT_FAST_WRITE | FD_WANT_SINGLE_WRITE)) == 0;
    (poll, oneshot)
}

/// The write filter that kqueue gets when a socket is added: none where
/// the mask asks for no writing, else one that is one-shot (`Some(true)`)
/// where it asks for fast or single writes.
pub fn kqueue_add_write_filter(event_mask: i32) -> (r: Option<bool>)
    ensures
        r == (if wants_poll_write(event_mask) {
            Some(event_mask & (FD_WANT_FAST_WRITE | FD_WANT_SINGLE_WRITE) != 0)
        } else {
            None
        }),
{
    if event_mask & (FD_WANT_POLL_WRITE | FD_WANT_FAST_WRITE | FD_WANT_SINGLE_WRITE) != 0 {
        Some(event_mask & (FD_WANT_FAST_WRITE | FD_WANT_SINGLE_WRITE) != 0)
    } else {
        None
    }
}

/// The traffic counters of the socket engine.
pub struct IoCounters {
    pub read_events: u64,
    pub write_events: u64,
    pub error_events: u64,
    pub indata: usize,
    pub outdata: usize,
}

impl IoCounters {
    /// All counters at zero.
    pub fn new() -> (r: Self)
        ensures
            r.read_events == 0 && r.write_events == 0 && r.error_events == 0 && r.indata == 0
                && r.outdata == 0,
    {
        IoCounters { read_events: 0, write_events: 0, error_events: 0, indata: 0, outdata: 0 }
    }

    /// Counts a read that returned `len`: one read event; the bytes read
    /// where it read some; one error event where it failed.
    pub fn update_read(&mut self, len: isize)
        requires
            old(self).read_events < u64::MAX,
            len < 0 ==> old(self).error_events < u64::MAX,
            len > 0 ==> old(self).indata + len <= usize::MAX,
        ensures
            final(self).read_events == old(self).read_events + 1,
            final(self).indata == (if len > 0 { old(self).indata + len } else { old(self).indata as int }),
            final(self).error_events == (if len < 0 {
                old(self).error_events + 1
            } else {
                old(self).error_events as int
            }),
            final(self).write_events == old(self).write_events,
            final(self).outdata == old(self).outdata,
    {
        self.read_events = self.read_events + 1;
        if len > 0 {
            self.indata = self.indata + len as usize;
        } else if len < 0 {
            self.error_events = self.error_events + 1;
        }
    }

    /// Counts a write that returned `len`: one write event; the bytes
    /// written where it wrote some; one error event where it failed.
    pub fn update_write(&mut self, len: isize)
        requires
            old(self).write_events < u64::MAX,
            len < 0 ==> old(self).error_events < u64::MAX,
            len > 0 ==> old(self).outdata + len <= usize::MAX,
        ensures
            final(self).write_events == old(self).write_events + 1,
            final(self).outdata == (if len > 0 { old(self).outdata + len } else { old(self).outdata as int }),
            final(self).error_events == (if len < 0 {
                old(self).error_events + 1
            } else {
                old(self).error_events as int
            }),
            final(self).read_events == old(self).read_events,
            final(self).indata == old(self).indata,
    {
        self.write_events = self.write_events + 1;
        if len > 0 {
            self.outdata = self.outdata + len as usize;
        } else if len < 0 {
            self.error_events = self.error_events + 1;
        }
    }
}

} // verus!
