//! Logging: the names and severities of log levels, the state of the log
//! manager (its loggers, the highest level any wants, and the messages
//! cached before the loggers open), and the registry of file log methods.
//! Emitting the messages is left to the caller.

use std::collections::HashMap;
use vstd::prelude::*;

verus! {

/// The severity under which a message is emitted.
#[derive(PartialEq, Eq, Structural, Clone, Copy, Debug)]
pub enum TraceLevel {
    Error,
    Warn,
    Info,
    Debug,
    Trace,
}

/// The severity of a log level for the log methods: critical, warning,
/// normal, debug and raw I/O (levels 0 to 4) are error, warning, info,
/// debug and trace; any other level is info.
pub open spec fn spec_trace_level(level: u8) -> TraceLevel {
    if level == 0 {
        TraceLevel::Error
    } else if level == 1 {
        TraceLevel::Warn
    } else if level == 2 {
        TraceLevel::Info
    } else if level == 3 {
        TraceLevel::Debug
    } else if level == 4 {
        TraceLevel::Trace
    } else {
        TraceLevel::Info
    }
}

/// The severity of a log level for the log methods and the log manager.
pub fn trace_level(level: u8) -> (r: TraceLevel)
    ensures
        r == spec_trace_level(level),
{
    if level == 0 {
        TraceLevel::Error
    } else if level == 1 {
        TraceLevel::Warn
    } else if level == 2 {
        TraceLevel::Info
    } else if level == 3 {
        TraceLevel::Debug
    } else if level == 4 {
        TraceLevel::Trace
    } else {
        TraceLevel::Info
    }
}

/// The severity of a log level for messages the core logs directly: as
/// for the log methods, but raw I/O is debug.
pub fn core_trace_level(level: u8) -> (r: TraceLevel)
    ensures
        r == (if level == 4 {
            TraceLevel::Debug
        } else {
            spec_trace_level(level)
        }),
{
    if level == 4 {
        TraceLevel::Debug
    } else {
        trace_level(level)
    }
}

/// The name of a log level.
pub fn log_level_to_string(level: u8) -> (r: &'static str)
    ensures
        r@ == (if level == 0 {
            "critical"@
        } else if level == 1 {
            "warning"@
        } else if level == 2 {
            "normal"@
        } else if level == 3 {
            "debug"@
        } else if level == 4 {
            "rawio"@
        } else {
            "unknown"@
        }),
{
    if level == 0 {
        "critical"
    } else if level == 1 {
        "warning"
    } else if level == 2 {
        "normal"
    } else if level == 3 {
        "debug"
    } else if level == 4 {
        "rawio"
    } else {
        "unknown"
    }
}

/// A logger known to the log manager.
#[derive(Clone, Copy, Debug, PartialEq, Eq, Structural)]
pub struct LoggerInfo {
    /// The highest level it logs.
    pub level: u8,
    /// The log method it writes with.
    pub method_handle: usize,
    /// Whether it came from the configuration.
    pub config: bool,
    /// Whether it no longer logs.
    pub dead: bool,
}

/// A message kept until the loggers open.
pub struct CachedMessage {
    pub time: i64,
    pub level: u8,
    pub type_str: String,
    pub message: String,
}

/// A cached message as its time, level, type and text.
pub open spec fn cached_view(m: CachedMessage) -> (i64, u8, Seq<char>, Seq<char>) {
    (m.time, m.level, m.type_str@, m.message@)
}

/// Cached messages as views.
pub open spec fn cache_view(c: Seq<CachedMessage>) -> Seq<(i64, u8, Seq<char>, Seq<char>)> {
    Seq::new(c.len(), |i: int| cached_view(c[i]))
}

/// The highest level of the loggers that are not dead, or 0.
pub open spec fn max_live_level(l: Seq<LoggerInfo>) -> u8
    decreases l.len(),
{
    if l.len() == 0 {
        0
    } else {
        let m = max_live_level(l.drop_last());
        if !l.last().dead && l.last().level > m {
            l.last().level
        } else {
            m
        }
    }
}

/// The loggers that did not come from the configuration, in order.
pub open spec fn non_config_loggers(l: Seq<LoggerInfo>) -> Seq<LoggerInfo>
    decreases l.len(),
{
    if l.len() == 0 {
        l
    } else if l.last().config {
        non_config_loggers(l.drop_last())
    } else {
        non_config_loggers(l.drop_last()).push(l.last())
    }
}

/// The state of the log manager.
pub struct LogManagerState {
    /// The loggers, in the order they were added.
    pub loggers: Vec<LoggerInfo>,
    /// The highest level that any logger wants.
    pub maxlevel: u8,
    /// Whether a message is being written (messages written meanwhile are
    /// dropped).
    pub logging: bool,
    /// Whether messages are cached until the loggers open.
    pub caching: bool,
    /// The cached messages.
    pub cache: Vec<CachedMessage>,
}

impl LogManagerState {
    /// The state at start-up: no loggers, level 0, caching.
    pub fn new() -> (r: Self)
        ensures
            r.loggers@.len() == 0,
            r.maxlevel == 0,
            !r.logging,
            r.caching,
            r.cache@.len() == 0,
    {
        Self { loggers: Vec::new(), maxlevel: 0, logging: false, caching: true, cache: Vec::new() }
    }

    /// Handles a message written at `time`: gives whether to emit it. While
    /// a message is being written, and when no logger wants the level and
    /// messages are no longer cached, it is dropped; else it is emitted,
    /// and cached while caching.
    pub fn write(&mut self, level: u8, type_str: String, message: String, time: i64) -> (r: bool)
        ensures
            r == (!old(self).logging && !(old(self).maxlevel < level && !old(self).caching)),
            final(self).loggers@ == old(self).loggers@,
            final(self).maxlevel == old(self).maxlevel,
            final(self).logging == old(self).logging,
            final(self).caching == old(self).caching,
            cache_view(final(self).cache@) == (if r && old(self).caching {
                cache_view(old(self).cache@).push((time, level, type_str@, message@))
            } else {
                cache_view(old(self).cache@)
            }),
    {
        if self.logging {
            return false;
        }
        if self.maxlevel < level && !self.caching {
            return false;
        }
        if self.caching {
            let ghost before = cache_view(self.cache@);
            self.cache.push(CachedMessage { time, level, type_str, message });
            proof {
                assert(cache_view(self.cache@) =~= before.push((time, level, type_str@, message@)));
            }
        }
        true
    }

    /// Adds the logger of debug mode (raw I/O with protocol debugging, else
    /// debug), which sets the highest level.
    pub fn enable_debug_mode(&mut self, forceprotodebug: bool)
        ensures
            final(self).loggers@ == old(self).loggers@.push(
                LoggerInfo {
                    level: if forceprotodebug {
                        4u8
                    } else {
                        3u8
                    },
                    method_handle: 0,
                    config: false,
                    dead: false,
                },
            ),
            final(self).maxlevel == (if forceprotodebug {
                4u8
            } else {
                3u8
            }),
            final(self).logging == old(self).logging,
            final(self).caching == old(self).caching,
            final(self).cache@ == old(self).cache@,
    {
        let level: u8 = if forceprotodebug {
            4
        } else {
            3
        };
        self.loggers.push(LoggerInfo { level, method_handle: 0, config: false, dead: false });
        self.maxlevel = level;
    }

    /// Recomputes the highest level from the loggers that are not dead.
    pub fn check_level(&mut self) -> (r: u8)
        ensures
            r == max_live_level(old(self).loggers@),
            final(self).maxlevel == r,
            final(self).loggers@ == old(self).loggers@,
            final(self).logging == old(self).logging,
            final(self).caching == old(self).caching,
            final(self).cache@ == old(self).cache@,
    {
        let mut newmax: u8 = 0;
        let mut i: usize = 0;
        while i < self.loggers.len()
            invariant
                i <= self.loggers@.len(),
                newmax == max_live_level(self.loggers@.take(i as int)),
            decreases self.loggers.len() - i,
        {
            let l = self.loggers[i];
            proof {
                assert(self.loggers@.take(i + 1).drop_last() =~= self.loggers@.take(i as int));
            }
            if !l.dead && l.level > newmax {
                newmax = l.level;
            }
            i = i + 1;
        }
        proof {
            assert(self.loggers@.take(i as int) =~= self.loggers@);
        }
        self.maxlevel = newmax;
        newmax
    }

    /// Adds a logger, raising the highest level to its level.
    pub fn add_logger(&mut self, level: u8, method_handle: usize, config: bool)
        ensures
            final(self).loggers@ == old(self).loggers@.push(
                LoggerInfo { level, method_handle, config, dead: false },
            ),
            final(self).maxlevel == (if level > old(self).maxlevel {
                level
            } else {
                old(self).maxlevel
            }),
            final(self).logging == old(self).logging,
            final(self).caching == old(self).caching,
            final(self).cache@ == old(self).cache@,
    {
        self.loggers.push(LoggerInfo { level, method_handle, config, dead: false });
        if level > self.maxlevel {
            self.maxlevel = level;
        }
    }

    /// Opens the logs: where log methods are required and messages are
    /// cached, caching ends and the cached messages are handed back to be
    /// emitted, in order; else nothing changes.
    pub fn open_logs(&mut self, requiremethods: bool) -> (r: Vec<CachedMessage>)
        ensures
            requiremethods && old(self).caching ==> {
                &&& cache_view(r@) == cache_view(old(self).cache@)
                &&& final(self).cache@.len() == 0
                &&& !final(self).caching
            },
            !(requiremethods && old(self).caching) ==> {
                &&& r@.len() == 0
                &&& final(self).cache@ == old(self).cache@
                &&& final(self).caching == old(self).caching
            },
            final(self).loggers@ == old(self).loggers@,
            final(self).maxlevel == old(self).maxlevel,
            final(self).logging == old(self).logging,
    {
        if requiremethods && self.caching {
            let mut taken: Vec<CachedMessage> = Vec::new();
            std::mem::swap(&mut taken, &mut self.cache);
            self.caching = false;
            taken
        } else {
            Vec::new()
        }
    }

    /// Closes the logs: the loggers from the configuration are removed.
    pub fn close_logs(&mut self)
        ensures
            final(self).loggers@ == non_config_loggers(old(self).loggers@),
            final(self).maxlevel == old(self).maxlevel,
            final(self).logging == old(self).logging,
            final(self).caching == old(self).caching,
            final(self).cache@ == old(self).cache@,
    {
        let mut kept: Vec<LoggerInfo> = Vec::new();
        let mut i: usize = 0;
        while i < self.loggers.len()
            invariant
                i <= self.loggers@.len(),
                kept@ == non_config_loggers(self.loggers@.take(i as int)),
            decreases self.loggers.len() - i,
        {
            let l = self.loggers[i];
            proof {
                assert(self.loggers@.take(i + 1).drop_last() =~= self.loggers@.take(i as int));
            }
            if !l.config {
                kept.push(l);
            }
            i = i + 1;
        }
        proof {
            assert(self.loggers@.take(i as int) =~= self.loggers@);
        }
        self.loggers = kept;
    }

    /// The highest level that any logger wants.
    pub fn get_maxlevel(&self) -> (r: u8)
        ensures
            r == self.maxlevel,
    {
        self.maxlevel
    }
}

/// Where a file log method writes.
#[allow(non_camel_case_types)]
#[derive(PartialEq, Eq, Structural, Clone, Copy, Debug)]
pub enum FileMethodTarget {
    FILE,
    STDOUT,
    STDERR,
}

impl FileMethodTarget {
    /// The target that a kind number names: 1 for standard output, 2 for
    /// standard error, any other for a file.
    pub fn from_kind(kind: u8) -> (r: Self)
        ensures
            r == (if kind == 1 {
                FileMethodTarget::STDOUT
            } else if kind == 2 {
                FileMethodTarget::STDERR
            } else {
                FileMethodTarget::FILE
            }),
    {
        if kind == 1 {
            FileMethodTarget::STDOUT
        } else if kind == 2 {
            FileMethodTarget::STDERR
        } else {
            FileMethodTarget::FILE
        }
    }

    /// The number that stands for the target across the C++ boundary.
    pub fn value(&self) -> (r: u8)
        ensures
            r == (match self {
                FileMethodTarget::FILE => 0u8,
                FileMethodTarget::STDOUT => 1u8,
                FileMethodTarget::STDERR => 2u8,
            }),
    {
        match self {
            FileMethodTarget::FILE => 0,
            FileMethodTarget::STDOUT => 1,
            FileMethodTarget::STDERR => 2,
        }
    }
}

/// A file log method: where it writes, and the name of its target.
pub struct FileMethodHandle {
    pub target: FileMethodTarget,
    pub name: String,
}

/// What is registered under a handle: the method's target and name.
pub open spec fn method_view(h: FileMethodHandle) -> (FileMethodTarget, Seq<char>) {
    (h.target, h.name@)
}

/// The file log methods by handle, with the next handle to give out.
pub struct FileMethodRegistry {
    handles: HashMap<usize, FileMethodHandle>,
    next_id: usize,
}

impl FileMethodRegistry {
    /// The registered methods by handle.
    pub closed spec fn methods(&self) -> Map<usize, (FileMethodTarget, Seq<char>)> {
        self.handles@.map_values(|h: FileMethodHandle| method_view(h))
    }

    /// The handle that the next method gets.
    pub closed spec fn next_handle(&self) -> usize {
        self.next_id
    }

    #[verifier::type_invariant]
    spec fn well_formed(self) -> bool {
        &&& self.next_id >= 1
        &&& forall|k: usize| #[trigger] self.handles@.contains_key(k) ==> k < self.next_id
    }

    /// A registry with no methods, whose first handle is 1.
    pub fn new() -> (r: Self)
        ensures
            r.methods() == Map::<usize, (FileMethodTarget, Seq<char>)>::empty(),
            r.next_handle() == 1,
    {
        let r = FileMethodRegistry { handles: HashMap::new(), next_id: 1 };
        proof {
            assert(r.methods() =~= Map::<usize, (FileMethodTarget, Seq<char>)>::empty());
        }
        r
    }

    /// Whether a method can still be made: handles are not exhausted.
    pub fn can_create(&self) -> (r: bool)
        ensures
            r == (self.next_handle() < usize::MAX),
    {
        self.next_id < usize::MAX
    }

    /// Creates a method writing to `target_name`, of the kind given,
    /// under a new handle, one that no method has; none for an empty target
    /// name.
    pub fn create(&mut self, target_name: &str, kind: u8) -> (r: Option<usize>)
        requires
            old(self).next_handle() < usize::MAX,
        ensures
            target_name@.len() == 0 ==> r is None && final(self).methods() == old(self).methods()
                && final(self).next_handle() == old(self).next_handle(),
            target_name@.len() > 0 ==> {
                &&& r == Some(old(self).next_handle())
                &&& !old(self).methods().contains_key(old(self).next_handle())
                &&& final(self).methods() == old(self).methods().insert(
                    old(self).next_handle(),
                    (
                        if kind == 1 {
                            FileMethodTarget::STDOUT
                        } else if kind == 2 {
                            FileMethodTarget::STDERR
                        } else {
                            FileMethodTarget::FILE
                        },
                        target_name@,
                    ),
                )
                &&& final(self).next_handle() == old(self).next_handle() + 1
            },
    {
        proof {
            use_type_invariant(&*self);
        }
        if target_name.is_empty() {
            return None;
        }
        let id = self.next_id;
        let handle = FileMethodHandle {
            target: FileMethodTarget::from_kind(kind),
            name: target_name.to_owned(),
        };
        let ghost before = self.methods();
        let ghost hv = method_view(handle);
        let mut handles: HashMap<usize, FileMethodHandle> = HashMap::new();
        std::mem::swap(&mut handles, &mut self.handles);
        let ghost old_handles = handles@;
        handles.insert(id, handle);
        proof {
            assert(!old_handles.contains_key(id));
            assert forall|k: usize| #[trigger] handles@.contains_key(k) implies k < id + 1 by {
                if k != id {
                    assert(old_handles.contains_key(k));
                }
            }
        }
        self.next_id = id + 1;
        self.handles = handles;
        proof {
            assert(self.methods() =~= before.insert(id, hv));
        }
        Some(id)
    }

    /// Whether a method is registered under `id`.
    pub fn contains(&self, id: usize) -> (r: bool)
        ensures
            r == self.methods().contains_key(id),
    {
        self.handles.contains_key(&id)
    }

    /// Destroys the method registered under `id`, if there is one.
    pub fn destroy(&mut self, id: usize)
        ensures
            final(self).methods() == old(self).methods().remove(id),
            final(self).next_handle() == old(self).next_handle(),
    {
        proof {
            use_type_invariant(&*self);
        }
        let ghost before = self.methods();
        let mut handles: HashMap<usize, FileMethodHandle> = HashMap::new();
        std::mem::swap(&mut handles, &mut self.handles);
        let ghost old_handles = handles@;
        let _removed = handles.remove(&id);
        proof {
            assert forall|k: usize| #[trigger] handles@.contains_key(k) implies k < self.next_id by {
                assert(old_handles.contains_key(k));
            }
        }
        self.handles = handles;
        proof {
            assert(self.methods() =~= before.remove(id));
        }
    }
}

} // verus!
