//! The bookkeeping of the select engine: the read, write and error sets
//! handed to `select()`, and the highest descriptor it watches.

use vstd::prelude::*;
use crate::socketengine::{
    select_set_changes, wants_poll_read, wants_poll_write, FD_WANT_FAST_READ, FD_WANT_FAST_WRITE,
    FD_WANT_POLL_READ, FD_WANT_POLL_WRITE, FD_WANT_SINGLE_WRITE,
};

verus! {

/// The number of descriptors a set can hold: descriptors from 0 up to this
/// bound, not included.
pub const FD_SETSIZE: usize = 1024;

/// The sets that `select()` watches, one flag per descriptor.
pub struct SelectEngine {
    read_set: Vec<bool>,
    write_set: Vec<bool>,
    error_set: Vec<bool>,
    max_fd: i32,
}

/// A set with every flag clear.
pub open spec fn empty_set() -> Seq<bool> {
    Seq::new(FD_SETSIZE as nat, |i: int| false)
}

impl SelectEngine {
    /// The read set.
    pub closed spec fn reads(&self) -> Seq<bool> {
        self.read_set@
    }

    /// The write set.
    pub closed spec fn writes(&self) -> Seq<bool> {
        self.write_set@
    }

    /// The error set.
    pub closed spec fn errors(&self) -> Seq<bool> {
        self.error_set@
    }

    /// The highest descriptor, as kept.
    pub closed spec fn max(&self) -> i32 {
        self.max_fd
    }

    /// Each set has a flag for every descriptor in range.
    pub open spec fn wf(&self) -> bool {
        &&& self.reads().len() == FD_SETSIZE
        &&& self.writes().len() == FD_SETSIZE
        &&& self.errors().len() == FD_SETSIZE
    }

    /// Empty sets, with 0 as the highest descriptor.
    pub fn new() -> (r: Self)
        ensures
            r.wf(),
            r.reads() == empty_set(),
            r.writes() == empty_set(),
            r.errors() == empty_set(),
            r.max() == 0,
    {
        let mut read_set: Vec<bool> = Vec::new();
        let mut write_set: Vec<bool> = Vec::new();
        let mut error_set: Vec<bool> = Vec::new();
        let mut i: usize = 0;
        while i < FD_SETSIZE
            invariant
                i <= FD_SETSIZE,
                read_set@ == Seq::new(i as nat, |k: int| false),
                write_set@ == Seq::new(i as nat, |k: int| false),
                error_set@ == Seq::new(i as nat, |k: int| false),
            decreases FD_SETSIZE - i,
        {
            read_set.push(false);
            write_set.push(false);
            error_set.push(false);
            proof {
                assert(read_set@ =~= Seq::new((i + 1) as nat, |k: int| false));
                assert(write_set@ =~= Seq::new((i + 1) as nat, |k: int| false));
                assert(error_set@ =~= Seq::new((i + 1) as nat, |k: int| false));
            }
            i = i + 1;
        }
        SelectEngine { read_set, write_set, error_set, max_fd: 0 }
    }

    /// Watches `fd` for errors, and for reading and writing as the event
    /// mask asks, raising the highest descriptor to it: false, and nothing
    /// changed, where `fd` is out of range.
    pub fn add_fd(&mut self, fd: i32, event_mask: i32) -> (r: bool)
        requires
            old(self).wf(),
        ensures
            final(self).wf(),
            r == (0 <= fd < FD_SETSIZE),
            r ==> {
                &&& final(self).errors() == old(self).errors().update(fd as int, true)
                &&& final(self).reads() == (if wants_poll_read(event_mask) {
                    old(self).reads().update(fd as int, true)
                } else {
                    old(self).reads()
                })
                &&& final(self).writes() == (if wants_poll_write(event_mask) {
                    old(self).writes().update(fd as int, true)
                } else {
                    old(self).writes()
                })
                &&& final(self).max() == (if fd > old(self).max() { fd } else { old(self).max() })
            },
            !r ==> final(self).reads() == old(self).reads() && final(self).writes() == old(self).writes()
                && final(self).errors() == old(self).errors() && final(self).max() == old(self).max(),
    {
        if fd < 0 || fd as usize >= FD_SETSIZE {
            return false;
        }
        let f = fd as usize;
        self.error_set.set(f, true);
        if event_mask & (FD_WANT_POLL_READ | FD_WANT_FAST_READ) != 0 {
            self.read_set.set(f, true);
        }
        if event_mask & (FD_WANT_POLL_WRITE | FD_WANT_FAST_WRITE | FD_WANT_SINGLE_WRITE) != 0 {
            self.write_set.set(f, true);
        }
        if fd > self.max_fd {
            self.max_fd = fd;
        }
        true
    }

    /// Moves `fd` into or out of the read and write sets where its event
    /// mask changed them: false, and nothing changed, where `fd` is out of
    /// range.
    pub fn mod_fd(&mut self, fd: i32, old_mask: i32, new_mask: i32) -> (r: bool)
        requires
            old(self).wf(),
        ensures
            final(self).wf(),
            r == (0 <= fd < FD_SETSIZE),
            final(self).errors() == old(self).errors(),
            final(self).max() == old(self).max(),
            r ==> {
                let (rc, wc) = (
                    if (old_mask ^ new_mask) & (FD_WANT_POLL_READ | FD_WANT_FAST_READ) != 0 {
                        Some(wants_poll_read(new_mask))
                    } else {
                        None::<bool>
                    },
                    if (old_mask ^ new_mask) & (FD_WANT_POLL_WRITE | FD_WANT_FAST_WRITE | FD_WANT_SINGLE_WRITE) != 0 {
                        Some(wants_poll_write(new_mask))
                    } else {
                        None::<bool>
                    },
                );
                &&& final(self).reads() == (match rc {
                    Some(b) => old(self).reads().update(fd as int, b),
                    None => old(self).reads(),
                })
                &&& final(self).writes() == (match wc {
                    Some(b) => old(self).writes().update(fd as int, b),
                    None => old(self).writes(),
                })
            },
            !r ==> final(self).reads() == old(self).reads() && final(self).writes() == old(self).writes(),
    {
        if fd < 0 || fd as usize >= FD_SETSIZE {
            return false;
        }
        let f = fd as usize;
        let (rc, wc) = select_set_changes(old_mask, new_mask);
        match rc {
            Some(b) => {
                self.read_set.set(f, b);
            },
            None => {},
        }
        match wc {
            Some(b) => {
                self.write_set.set(f, b);
            },
            None => {},
        }
        true
    }

    /// Takes `fd` out of every set; where it was the highest descriptor,
    /// the highest goes down by one. False, and nothing changed, where `fd`
    /// is out of range.
    pub fn del_fd(&mut self, fd: i32) -> (r: bool)
        requires
            old(self).wf(),
        ensures
            final(self).wf(),
            r == (0 <= fd < FD_SETSIZE),
            r ==> {
                &&& final(self).reads() == old(self).reads().update(fd as int, false)
                &&& final(self).writes() == old(self).writes().update(fd as int, false)
                &&& final(self).errors() == old(self).errors().update(fd as int, false)
                &&& final(self).max() == (if fd == old(self).max() { fd - 1 } else { old(self).max() as int })
            },
            !r ==> final(self).reads() == old(self).reads() && final(self).writes() == old(self).writes()
                && final(self).errors() == old(self).errors() && final(self).max() == old(self).max(),
    {
        if fd < 0 || fd as usize >= FD_SETSIZE {
            return false;
        }
        let f = fd as usize;
        self.read_set.set(f, false);
        self.write_set.set(f, false);
        self.error_set.set(f, false);
        if fd == self.max_fd {
            self.max_fd = self.max_fd - 1;
        }
        true
    }

    /// The highest descriptor, as kept.
    pub fn get_max_fd(&self) -> (r: i32)
        ensures
            r == self.max(),
    {
        self.max_fd
    }

    /// Whether `fd` is in the read, write and error sets.
    pub fn in_sets(&self, fd: usize) -> (r: (bool, bool, bool))
        requires
            self.wf(),
            fd < FD_SETSIZE,
        ensures
            r == (self.reads()[fd as int], self.writes()[fd as int], self.errors()[fd as int]),
    {
        (self.read_set[fd], self.write_set[fd], self.error_set[fd])
    }
}

/// What `select()` reported for a descriptor as bits: 1 for readable, 2
/// for writable, 4 for an error; 0 for a descriptor out of range.
pub fn select_event_bits(fd: i32, readable: bool, writable: bool, error: bool) -> (r: i32)
    ensures
        r == (if 0 <= fd < FD_SETSIZE {
            (if readable { 1int } else { 0int }) + (if writable { 2int } else { 0int }) + (if error { 4int } else { 0int })
        } else {
            0int
        }),
{
    if fd < 0 || fd as usize >= FD_SETSIZE {
        return 0;
    }
    let mut result: i32 = 0;
    if readable {
        result = result + 1;
    }
    if writable {
        result = result + 2;
    }
    if error {
        result = result + 4;
    }
    result
}

/// Taking out of a set a descriptor that was just put into it, and was not
/// in it before, gives back the set from before.
pub proof fn law_del_undoes_add(set: Seq<bool>, fd: int)
    requires
        0 <= fd < set.len(),
        !set[fd],
    ensures
        set.update(fd, true).update(fd, false) == set,
{
    assert(set.update(fd, true).update(fd, false) =~= set);
}

} // verus!
