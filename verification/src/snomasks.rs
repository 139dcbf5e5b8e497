//! Server notice masks: the letters that name them, their descriptions,
//! and the stacking of repeated notices. Sending the notices, and asking
//! modules about them, is left to the caller.

use vstd::prelude::*;
use crate::text::{push_char, push_decimal, decimal, str_equals};

verus! {

/// The slot of a snomask letter in either case: a to z are 0 to 25.
pub open spec fn spec_slot_any_case(letter: u8) -> Option<int> {
    if 'a' as u8 <= letter <= 'z' as u8 {
        Some(letter - 'a' as u8)
    } else if 'A' as u8 <= letter <= 'Z' as u8 {
        Some(letter - 'A' as u8)
    } else {
        None
    }
}

/// The slot of a snomask letter in either case.
pub fn slot_any_case(letter: u8) -> (r: Option<usize>)
    ensures
        match spec_slot_any_case(letter) {
            Some(s) => r == Some(s as usize),
            None => r is None,
        },
{
    if 'a' as u8 <= letter && letter <= 'z' as u8 {
        Some((letter - 'a' as u8) as usize)
    } else if 'A' as u8 <= letter && letter <= 'Z' as u8 {
        Some((letter - 'A' as u8) as usize)
    } else {
        None
    }
}

/// Whether a char names a snomask: an ASCII letter.
pub fn is_snomask(c: u8) -> (r: bool)
    ensures
        r == spec_slot_any_case(c) is Some,
{
    ('a' as u8 <= c && c <= 'z' as u8) || ('A' as u8 <= c && c <= 'Z' as u8)
}

/// A server notice mask: its description, and the last notice sent with
/// how often it was repeated.
pub struct Snomask {
    pub description: String,
    pub last_message: String,
    pub last_letter: u8,
    pub count: u32,
}

/// A notice to send: the letter, the description and the text.
pub struct SnoNotice {
    pub letter: u8,
    pub description: String,
    pub message: String,
}

/// The description under which a notice of the snomask goes out: prefixed
/// by `REMOTE` for an uppercase letter; the snomask's description, or
/// `SNO-` and the lowercase letter where it has none.
pub open spec fn spec_description(description: Seq<char>, letter: u8) -> Seq<char> {
    let prefix = if 'A' as u8 <= letter <= 'Z' as u8 {
        "REMOTE"@
    } else {
        Seq::empty()
    };
    let lower: u8 = if 'A' as u8 <= letter <= 'Z' as u8 {
        (letter + 32) as u8
    } else {
        letter
    };
    prefix + if description.len() > 0 {
        description
    } else {
        "SNO-"@ + seq![lower as char]
    }
}

/// The notice that a message was repeated `count` times.
pub open spec fn repeated_message(count: u32) -> Seq<char> {
    "(last message repeated "@ + decimal(count as nat) + " times)"@
}

impl Snomask {
    /// A snomask with no description and no notice sent.
    pub fn new() -> (r: Self)
        ensures
            r.description@.len() == 0,
            r.last_message@.len() == 0,
            r.last_letter == 0,
            r.count == 0,
    {
        Snomask { description: String::new(), last_message: String::new(), last_letter: 0, count: 0 }
    }

    /// The description under which a notice with the given letter goes
    /// out.
    pub fn get_description(&self, letter: u8) -> (r: String)
        ensures
            r@ == spec_description(self.description@, letter),
    {
        let mut ret = String::new();
        let upper = 'A' as u8 <= letter && letter <= 'Z' as u8;
        if upper {
            ret.append("REMOTE");
        }
        if !self.description.as_str().is_empty() {
            ret.append(self.description.as_str());
        } else {
            ret.append("SNO-");
            let lower: u8 = if upper {
                letter + 32
            } else {
                letter
            };
            push_char(&mut ret, lower as char);
        }
        proof {
            assert(Seq::<char>::empty() + "REMOTE"@ =~= "REMOTE"@);
            assert(Seq::<char>::empty() + self.description@ =~= self.description@);
            assert(Seq::<char>::empty() + "SNO-"@ =~= "SNO-"@);
        }
        ret
    }

    /// Ends a run of repeated notices: where the last notice was repeated,
    /// a notice saying how often is given back to send; the last notice is
    /// forgotten.
    pub fn flush(&mut self) -> (r: Option<SnoNotice>)
        ensures
            old(self).count > 1 ==> (r matches Some(n) && n.letter == old(self).last_letter
                && n.description@ == spec_description(old(self).description@, old(self).last_letter)
                && n.message@ == repeated_message(old(self).count)),
            old(self).count <= 1 ==> r is None,
            final(self).description == old(self).description,
            final(self).last_message@.len() == 0,
            final(self).last_letter == old(self).last_letter,
            final(self).count == 0,
    {
        let r = if self.count > 1 {
            let letter = self.last_letter;
            let description = self.get_description(letter);
            let mut message = String::new();
            message.append("(last message repeated ");
            push_decimal(&mut message, self.count as u64);
            message.append(" times)");
            proof {
                assert(Seq::<char>::empty() + "(last message repeated "@ =~= "(last message repeated "@);
            }
            Some(SnoNotice { letter, description, message })
        } else {
            None
        };
        self.last_message = String::new();
        self.count = 0;
        r
    }
}

/// The first step of sending a notice.
pub enum SendStep {
    /// The notice repeats the last one and was counted; nothing to send.
    Stacked,
    /// The run of repeats was ended (with a notice to send about it, if
    /// any); the notice goes out under the description unless a module
    /// takes it.
    Flushed { repeated: Option<SnoNotice>, description: String },
}

/// The number after `n`, staying at the largest.
pub open spec fn saturating_next(n: u32) -> u32 {
    if n < u32::MAX {
        (n + 1) as u32
    } else {
        n
    }
}

impl Snomask {
    /// Starts sending a notice: a notice with the same text and letter as
    /// the last one is counted as a repeat where stacking is allowed; else
    /// the run of repeats ends.
    pub fn begin_send(&mut self, message: &str, letter: u8, no_snotice_stack: bool) -> (r: SendStep)
        ensures
            (!no_snotice_stack && message@ == old(self).last_message@ && letter
                == old(self).last_letter) ==> (r is Stacked && final(self).count == saturating_next(
                old(self).count) && final(self).last_message == old(self).last_message
                && final(self).last_letter == old(self).last_letter && final(self).description
                == old(self).description),
            !(!no_snotice_stack && message@ == old(self).last_message@ && letter
                == old(self).last_letter) ==> (match r {
                SendStep::Flushed { repeated, description } => {
                    &&& description@ == spec_description(old(self).description@, letter)
                    &&& (old(self).count > 1 ==> (repeated matches Some(n) && n.letter
                        == old(self).last_letter && n.message@ == repeated_message(old(self).count)
                        && n.description@ == spec_description(old(self).description@, old(self).last_letter)))
                    &&& (old(self).count <= 1 ==> repeated is None)
                },
                SendStep::Stacked => false,
            } && final(self).description == old(self).description && final(self).last_message@.len()
                == 0 && final(self).last_letter == old(self).last_letter && final(self).count == 0),
    {
        if !no_snotice_stack && str_equals(message, self.last_message.as_str()) && letter == self.last_letter {
            if self.count < u32::MAX {
                self.count = self.count + 1;
            }
            return SendStep::Stacked;
        }
        let repeated = self.flush();
        let description = self.get_description(letter);
        SendStep::Flushed { repeated, description }
    }

    /// Finishes sending a notice after its first step ended the run of
    /// repeats: unless a module took it, the notice is given back to send
    /// and becomes the last notice, counted once more.
    pub fn finish_send(&mut self, message: &str, letter: u8, taken_by_module: bool) -> (r: Option<SnoNotice>)
        ensures
            taken_by_module ==> r is None && final(self).description == old(self).description
                && final(self).last_message == old(self).last_message && final(self).last_letter
                == old(self).last_letter && final(self).count == old(self).count,
            !taken_by_module ==> (r matches Some(n) && n.letter == letter && n.message@ == message@
                && n.description@ == spec_description(old(self).description@, letter))
                && final(self).description == old(self).description && final(self).last_message@
                == message@ && final(self).last_letter == letter && final(self).count
                == saturating_next(old(self).count),
    {
        if taken_by_module {
            return None;
        }
        let description = self.get_description(letter);
        self.last_message = message.to_owned();
        self.last_letter = letter;
        if self.count < u32::MAX {
            self.count = self.count + 1;
        }
        Some(SnoNotice { letter, description, message: message.to_owned() })
    }
}

/// The descriptions that the snomask manager starts with: a, c, k, o, q
/// and r are announcements, connections, kills, oper-ups, quits and
/// rehashes.
pub open spec fn initial_description(slot: int) -> Seq<char> {
    if slot == 0 {
        "ANNOUNCEMENT"@
    } else if slot == 2 {
        "CONNECT"@
    } else if slot == 10 {
        "KILL"@
    } else if slot == 14 {
        "OPER"@
    } else if slot == 16 {
        "QUIT"@
    } else if slot == 17 {
        "REHASH"@
    } else {
        Seq::empty()
    }
}

/// The 26 snomasks, one per letter.
pub struct SnomaskManager {
    masks: Vec<Snomask>,
}

impl SnomaskManager {
    /// The snomasks by slot.
    pub closed spec fn masks(&self) -> Seq<Snomask> {
        self.masks@
    }

    /// The manager with its built-in descriptions and no notices sent.
    pub fn new() -> (r: Self)
        ensures
            r.masks().len() == 26,
            forall|i: int| 0 <= i < 26 ==> #[trigger] r.masks()[i].description@ == initial_description(i)
                && r.masks()[i].last_message@.len() == 0 && r.masks()[i].count == 0,
    {
        let mut masks: Vec<Snomask> = Vec::new();
        let mut i: usize = 0;
        while i < 26
            invariant
                i <= 26,
                masks@.len() == i,
                forall|k: int| 0 <= k < i ==> #[trigger] masks@[k].description@ == initial_description(k)
                    && masks@[k].last_message@.len() == 0 && masks@[k].count == 0,
            decreases 26 - i,
        {
            let mut m = Snomask::new();
            if i == 0 {
                m.description = String::from_str("ANNOUNCEMENT");
            } else if i == 2 {
                m.description = String::from_str("CONNECT");
            } else if i == 10 {
                m.description = String::from_str("KILL");
            } else if i == 14 {
                m.description = String::from_str("OPER");
            } else if i == 16 {
                m.description = String::from_str("QUIT");
            } else if i == 17 {
                m.description = String::from_str("REHASH");
            } else {
                proof {
                    assert(initial_description(i as int) == Seq::<char>::empty());
                }
            }
            let ghost before = masks@;
            masks.push(m);
            proof {
                assert forall|k: int| 0 <= k < i + 1 implies #[trigger] masks@[k].description@ == initial_description(k)
                    && masks@[k].last_message@.len() == 0 && masks@[k].count == 0 by {
                    if k < i {
                        assert(masks@[k] == before[k]);
                    }
                }
            }
            i = i + 1;
        }
        SnomaskManager { masks }
    }

    /// Gives a lowercase snomask its description; other letters change
    /// nothing.
    pub fn enable(&mut self, letter: u8, description: &str)
        ensures
            final(self).masks().len() == old(self).masks().len(),
            forall|i: int|
                0 <= i < old(self).masks().len() && i != letter - 'a' as u8 ==> #[trigger] final(self).masks()[i]
                    == old(self).masks()[i],
            'a' as u8 <= letter <= 'z' as u8 && (letter - ('a' as u8)) < old(self).masks().len() ==> {
                let i = letter - 'a' as u8;
                &&& final(self).masks()[i].description@ == description@
                &&& final(self).masks()[i].last_message == old(self).masks()[i].last_message
                &&& final(self).masks()[i].last_letter == old(self).masks()[i].last_letter
                &&& final(self).masks()[i].count == old(self).masks()[i].count
            },
            !('a' as u8 <= letter <= 'z' as u8 && (letter - ('a' as u8)) < old(self).masks().len()) ==> final(self).masks() == old(self).masks(),
    {
        if 'a' as u8 <= letter && letter <= 'z' as u8 && ((letter - 'a' as u8) as usize) < self.masks.len() {
            let slot = (letter - 'a' as u8) as usize;
            let mut masks: Vec<Snomask> = Vec::new();
            std::mem::swap(&mut masks, &mut self.masks);
            let mut m = masks.remove(slot);
            m.description = description.to_owned();
            masks.insert(slot, m);
            self.masks = masks;
        }
    }
}


/// Whether a snomask letter can be used: it names a snomask, the snomask
/// exists, and it has a description.
pub fn snomask_is_usable(ch: u8, description: Option<&str>) -> (r: bool)
    ensures
        r == (spec_slot_any_case(ch) is Some && (description matches Some(d) && d@.len() > 0)),
{
    if !is_snomask(ch) {
        return false;
    }
    match description {
        Some(d) => !d.is_empty(),
        None => false,
    }
}

} // verus!
