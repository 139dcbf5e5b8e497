//! The ban cache: per-address records of a ban (or of its absence), each
//! with an expiry time, looked up and pruned against the current time.

use vstd::prelude::*;
use vstd::string::StringSliceAdditionalSpecFns;
use crate::stringutils::StdString;
use crate::text::str_equals;

verus! {

/// How long a hit lives when no duration is given: one day.
pub const DEFAULT_HIT_SECONDS: i64 = 86400;

/// The duration a hit lives for, given `seconds` (0 meaning the default).
pub open spec fn hit_duration(seconds: i64) -> int {
    if seconds != 0 {
        seconds as int
    } else {
        DEFAULT_HIT_SECONDS as int
    }
}

/// A cached result of a ban check: the type of ban, the reason (empty for
/// a negative hit, one that found no ban) and when the entry expires.
#[allow(non_snake_case)]
pub struct BanCacheHit {
    pub Type: StdString,
    pub Reason: StdString,
    pub Expiry: i64,
}

/// A hit as its type bytes, reason bytes and expiry time.
pub type HitView = (Seq<u8>, Seq<u8>, i64);

/// A cache entry as the address it is for and its hit.
pub type EntryView = (Seq<char>, HitView);

/// The view of a hit.
pub open spec fn hit_view(h: BanCacheHit) -> HitView {
    (h.Type.view(), h.Reason.view(), h.Expiry)
}

/// A hit is positive when it records a ban, that is when it has a reason.
pub open spec fn is_positive_hit(h: HitView) -> bool {
    h.1.len() > 0
}

/// A hit has expired once the time reaches its expiry.
pub open spec fn is_expired_hit(h: HitView, now: i64) -> bool {
    now >= h.2
}

impl BanCacheHit {
    /// A hit of the given type and reason, made at `now`, that lives for
    /// `seconds` (or a day, where `seconds` is 0).
    pub fn new(type_str: &str, reason: &str, seconds: i64, now: i64) -> (r: Self)
        requires
            i64::MIN <= now + hit_duration(seconds) <= i64::MAX,
        ensures
            hit_view(r) == (type_str.spec_bytes(), reason.spec_bytes(), (now + hit_duration(
                seconds,
            )) as i64),
    {
        let expiry = now + if seconds != 0 {
            seconds
        } else {
            DEFAULT_HIT_SECONDS
        };
        BanCacheHit {
            Type: StdString::from_vec(vstd::slice::slice_to_vec(type_str.as_bytes())),
            Reason: StdString::from_vec(vstd::slice::slice_to_vec(reason.as_bytes())),
            Expiry: expiry,
        }
    }

    /// Whether the hit records a ban.
    #[allow(non_snake_case)]
    pub fn IsPositive(&self) -> (r: bool)
        ensures
            r == is_positive_hit(hit_view(*self)),
    {
        !self.Reason.is_empty()
    }
}

/// Whether the hit has expired at `now`.
pub fn is_expired(hit: &BanCacheHit, now: i64) -> (r: bool)
    ensures
        r == is_expired_hit(hit_view(*hit), now),
{
    now >= hit.Expiry
}

/// No address has two entries.
pub open spec fn unique_addresses(s: Seq<EntryView>) -> bool {
    forall|i: int, j: int| 0 <= i < j < s.len() ==> #[trigger] s[i].0 != #[trigger] s[j].0
}

/// The position of the entry for `ip`, if there is one.
pub open spec fn entry_index(s: Seq<EntryView>, ip: Seq<char>) -> Option<int> {
    if exists|i: int| 0 <= i < s.len() && #[trigger] s[i].0 == ip {
        Some(choose|i: int| 0 <= i < s.len() && #[trigger] s[i].0 == ip)
    } else {
        None
    }
}

/// The hit cached for `ip`, if there is one.
pub open spec fn cached_hit(s: Seq<EntryView>, ip: Seq<char>) -> Option<HitView> {
    match entry_index(s, ip) {
        Some(i) => Some(s[i].1),
        None => None,
    }
}

/// The entries after adding a hit for `ip`: unchanged where `ip` already
/// has one.
pub open spec fn spec_add_hit(s: Seq<EntryView>, ip: Seq<char>, h: HitView) -> Seq<EntryView> {
    if cached_hit(s, ip) is Some {
        s
    } else {
        s.push((ip, h))
    }
}

/// What a lookup of `ip` at `now` finds: the cached hit, unless it has
/// expired.
pub open spec fn spec_get_hit(s: Seq<EntryView>, ip: Seq<char>, now: i64) -> Option<HitView> {
    match cached_hit(s, ip) {
        Some(h) => if is_expired_hit(h, now) {
            None
        } else {
            Some(h)
        },
        None => None,
    }
}

/// The entries after a lookup of `ip` at `now`: its entry goes where it
/// has expired.
pub open spec fn spec_after_get(s: Seq<EntryView>, ip: Seq<char>, now: i64) -> Seq<EntryView> {
    match entry_index(s, ip) {
        Some(i) => if is_expired_hit(s[i].1, now) {
            s.remove(i)
        } else {
            s
        },
        None => s,
    }
}

/// A hit that a removal of entries targets: with `positive`, the positive
/// hits of the given type; without, every negative hit.
pub open spec fn is_removal_target(h: HitView, type_bytes: Seq<u8>, positive: bool) -> bool {
    if positive {
        is_positive_hit(h) && h.0 == type_bytes
    } else {
        !is_positive_hit(h)
    }
}

/// An entry that a removal of entries at `now` keeps: neither expired nor
/// targeted.
pub open spec fn is_kept_entry(e: EntryView, type_bytes: Seq<u8>, positive: bool, now: i64) -> bool {
    !is_expired_hit(e.1, now) && !is_removal_target(e.1, type_bytes, positive)
}

/// The entries that a removal of entries at `now` keeps, in order.
pub open spec fn spec_remove_entries(
    s: Seq<EntryView>,
    type_bytes: Seq<u8>,
    positive: bool,
    now: i64,
) -> Seq<EntryView> {
    s.filter(|e: EntryView| is_kept_entry(e, type_bytes, positive, now))
}

/// The view of a stored entry.
pub open spec fn entry_view(e: (String, Box<BanCacheHit>)) -> EntryView {
    (e.0@, hit_view(*e.1))
}

/// A manager for the ban cache: it adds, looks up and removes cached hits.
pub struct BanCacheManager {
    ban_hash: Vec<(String, Box<BanCacheHit>)>,
}

impl BanCacheManager {
    /// The entries, in the order they were added.
    pub closed spec fn view(&self) -> Seq<EntryView> {
        self.ban_hash@.map_values(|e: (String, Box<BanCacheHit>)| entry_view(e))
    }

    /// No address has two entries.
    pub open spec fn well_formed(&self) -> bool {
        unique_addresses(self.view())
    }

    /// An empty cache.
    pub fn new() -> (r: Self)
        ensures
            r.well_formed(),
            r.view() == Seq::<EntryView>::empty(),
    {
        let r = BanCacheManager { ban_hash: Vec::new() };
        proof {
            assert(r.view() =~= Seq::<EntryView>::empty());
        }
        r
    }

    /// The number of entries.
    pub fn len(&self) -> (r: usize)
        ensures
            r == self.view().len(),
    {
        self.ban_hash.len()
    }

    /// The hit of the entry at `index`.
    pub fn hit_at(&self, index: usize) -> (r: &BanCacheHit)
        requires
            index < self.view().len(),
        ensures
            hit_view(*r) == self.view()[index as int].1,
    {
        &*self.ban_hash[index].1
    }

    /// The position of the entry for `ip`.
    pub fn find(&self, ip: &str) -> (r: Option<usize>)
        requires
            self.well_formed(),
        ensures
            match r {
                Some(i) => i < self.view().len() && self.view()[i as int].0 == ip@ && entry_index(
                    self.view(),
                    ip@,
                ) == Some(i as int),
                None => entry_index(self.view(), ip@) is None,
            },
    {
        let mut i: usize = 0;
        while i < self.ban_hash.len()
            invariant
                i <= self.view().len(),
                self.view().len() == self.ban_hash@.len(),
                self.well_formed(),
                forall|j: int| 0 <= j < i ==> #[trigger] self.view()[j].0 != ip@,
            decreases self.ban_hash.len() - i,
        {
            assert(self.view()[i as int] == entry_view(self.ban_hash@[i as int]));
            if str_equals(self.ban_hash[i].0.as_str(), ip) {
                proof {
                    lemma_entry_index(self.view(), ip@, i as int);
                }
                return Some(i);
            }
            i = i + 1;
        }
        None
    }

    /// Adds a hit for `ip`, made at `now`; returns the position of the new
    /// entry, or nothing where `ip` already has one.
    #[allow(non_snake_case)]
    pub fn AddHit(&mut self, ip: &str, type_str: &str, reason: &str, seconds: i64, now: i64) -> (r:
        Option<usize>)
        requires
            old(self).well_formed(),
            i64::MIN <= now + hit_duration(seconds) <= i64::MAX,
        ensures
            final(self).well_formed(),
            final(self).view() == spec_add_hit(
                old(self).view(),
                ip@,
                (type_str.spec_bytes(), reason.spec_bytes(), (now + hit_duration(seconds)) as i64),
            ),
            r is Some <==> cached_hit(old(self).view(), ip@) is None,
            r matches Some(i) ==> i == old(self).view().len(),
    {
        if self.find(ip).is_some() {
            return None;
        }
        let hit = Box::new(BanCacheHit::new(type_str, reason, seconds, now));
        let index = self.ban_hash.len();
        let ghost before = self.view();
        self.ban_hash.push((String::from_str(ip), hit));
        proof {
            assert(self.view() =~= before.push(
                (ip@, (type_str.spec_bytes(), reason.spec_bytes(), (now + hit_duration(seconds)) as i64)),
            ));
            assert forall|i: int, j: int| 0 <= i < j < self.view().len() implies #[trigger] self.view()[i].0
                != #[trigger] self.view()[j].0 by {
                if j == before.len() {
                    assert(before[i].0 != ip@);
                }
            }
        }
        Some(index)
    }

    /// Removes the entry for `ip` where it has expired at `now`; says
    /// whether it did.
    #[allow(non_snake_case)]
    pub fn RemoveIfExpiredByIp(&mut self, ip: &str, now: i64) -> (r: bool)
        requires
            old(self).well_formed(),
        ensures
            final(self).well_formed(),
            final(self).view() == spec_after_get(old(self).view(), ip@, now),
            r == (cached_hit(old(self).view(), ip@) matches Some(h) && is_expired_hit(h, now)),
    {
        let i = match self.find(ip) {
            Some(i) => i,
            None => return false,
        };
        assert(self.view()[i as int] == entry_view(self.ban_hash@[i as int]));
        let h: &BanCacheHit = &self.ban_hash[i].1;
        assert(hit_view(*h) == self.view()[i as int].1);
        let e = is_expired(h, now);
        assert(e == is_expired_hit(self.view()[i as int].1, now));
        if !e {
            return false;
        }
        let ghost before = self.view();
        let _gone = self.ban_hash.remove(i);
        proof {
            assert(self.view() =~= before.remove(i as int));
            lemma_remove_unique(before, i as int);
        }
        true
    }

    /// Looks up the hit for `ip` at `now`: an expired entry is removed and
    /// not returned. Returns the position of the live entry.
    #[allow(non_snake_case)]
    pub fn GetHit(&mut self, ip: &str, now: i64) -> (r: Option<usize>)
        requires
            old(self).well_formed(),
        ensures
            final(self).well_formed(),
            final(self).view() == spec_after_get(old(self).view(), ip@, now),
            match spec_get_hit(old(self).view(), ip@, now) {
                Some(h) => r matches Some(i) && i < final(self).view().len() && final(self).view()[i as int]
                    == (ip@, h),
                None => r is None,
            },
    {
        if self.find(ip).is_none() {
            return None;
        }
        if self.RemoveIfExpiredByIp(ip, now) {
            return None;
        }
        self.find(ip)
    }

    /// Removes the expired entries and those that the removal targets: with
    /// `positive`, the positive hits of type `type_str`; without, every
    /// negative hit.
    #[allow(non_snake_case)]
    pub fn RemoveEntries(&mut self, type_str: &str, positive: bool, now: i64)
        requires
            old(self).well_formed(),
        ensures
            final(self).well_formed(),
            final(self).view() == spec_remove_entries(
                old(self).view(),
                type_str.spec_bytes(),
                positive,
                now,
            ),
    {
        let ghost orig = self.view();
        let ghost ty = type_str.spec_bytes();
        let ghost keep = |e: EntryView| is_kept_entry(e, ty, positive, now);
        let mut i: usize = 0;
        let ghost mut j: int = 0;
        while i < self.ban_hash.len()
            invariant
                0 <= j <= orig.len(),
                i <= self.view().len(),
                self.view().len() == self.ban_hash@.len(),
                self.view() == orig.take(j).filter(keep) + orig.skip(j),
                i == orig.take(j).filter(keep).len(),
                unique_addresses(self.view()),
                ty == type_str.spec_bytes(),
                forall|e: EntryView| #[trigger] keep(e) == is_kept_entry(e, ty, positive, now),
            decreases self.ban_hash.len() - i,
        {
            let ghost before = self.view();
            let ghost done = orig.take(j).filter(keep);
            proof {
                reveal(Seq::filter);
                assert(before[i as int] == orig[j]);
                assert(orig.take(j + 1).drop_last() =~= orig.take(j));
                assert(orig.take(j + 1).last() == orig[j]);
            }
            assert(before[i as int] == entry_view(self.ban_hash@[i as int]));
            let hit: &BanCacheHit = &self.ban_hash[i].1;
            assert(hit_view(*hit) == orig[j].1);
            let remove = if is_expired(hit, now) {
                true
            } else if positive {
                hit.IsPositive() && crate::stringutils::std_string_bytes_eq(&hit.Type, type_str)
            } else {
                !hit.IsPositive()
            };
            if remove {
                let _gone = self.ban_hash.remove(i);
                proof {
                    assert(self.view() =~= before.remove(i as int));
                    lemma_remove_unique(before, i as int);
                    assert(!keep(orig[j]));
                    assert(self.view() =~= done + orig.skip(j + 1));
                    assert(orig.skip(j) =~= seq![orig[j]] + orig.skip(j + 1));
                    j = j + 1;
                }
            } else {
                i = i + 1;
                proof {
                    assert(keep(orig[j]));
                    assert(orig.take(j + 1).filter(keep) =~= done.push(orig[j]));
                    assert(self.view() =~= done.push(orig[j]) + orig.skip(j + 1));
                    j = j + 1;
                }
            }
        }
        proof {
            assert(orig.skip(j).len() == 0);
            assert(orig.take(j) =~= orig);
            assert(self.view() =~= orig.filter(keep));
        }
    }
}

/// With unique addresses, the entry for an address is the one that holds it.
proof fn lemma_entry_index(s: Seq<EntryView>, ip: Seq<char>, i: int)
    requires
        unique_addresses(s),
        0 <= i < s.len(),
        s[i].0 == ip,
    ensures
        entry_index(s, ip) == Some(i),
{
    let k = choose|k: int| 0 <= k < s.len() && #[trigger] s[k].0 == ip;
    assert(s[k].0 == s[i].0);
}

/// Removing an entry keeps the addresses unique.
proof fn lemma_remove_unique(s: Seq<EntryView>, i: int)
    requires
        unique_addresses(s),
        0 <= i < s.len(),
    ensures
        unique_addresses(s.remove(i)),
{
    let v = s.remove(i);
    assert forall|a: int, b: int| 0 <= a < b < v.len() implies #[trigger] v[a].0 != #[trigger] v[b].0 by {
        let a2 = if a < i { a } else { a + 1 };
        let b2 = if b < i { b } else { b + 1 };
        assert(v[a] == s[a2]);
        assert(v[b] == s[b2]);
    }
}

/// A hit added for an address that had none is what a lookup of that
/// address finds, until the hit expires.
pub proof fn law_add_then_get(s: Seq<EntryView>, ip: Seq<char>, h: HitView, now: i64)
    requires
        unique_addresses(s),
        cached_hit(s, ip) is None,
    ensures
        spec_get_hit(spec_add_hit(s, ip, h), ip, now) == (if is_expired_hit(h, now) {
            None
        } else {
            Some(h)
        }),
        unique_addresses(spec_add_hit(s, ip, h)),
{
    let t = s.push((ip, h));
    assert(spec_add_hit(s, ip, h) == t);
    assert forall|i: int, j: int| 0 <= i < j < t.len() implies #[trigger] t[i].0 != #[trigger] t[j].0 by {
        if j == s.len() {
            assert(t[i] == s[i]);
            if s[i].0 == ip {
                assert(exists|k: int| 0 <= k < s.len() && #[trigger] s[k].0 == ip);
            }
        } else {
            assert(t[i] == s[i] && t[j] == s[j]);
        }
    }
    lemma_entry_index(t, ip, s.len() as int);
}

/// A lookup that finds an expired hit drops it: the lookup returns
/// nothing, and the address has no entry afterwards.
pub proof fn law_expired_hit_is_dropped(s: Seq<EntryView>, ip: Seq<char>, now: i64)
    requires
        unique_addresses(s),
        cached_hit(s, ip) matches Some(h) && is_expired_hit(h, now),
    ensures
        spec_get_hit(s, ip, now) is None,
        cached_hit(spec_after_get(s, ip, now), ip) is None,
        unique_addresses(spec_after_get(s, ip, now)),
{
    let i = entry_index(s, ip)->0;
    assert(0 <= i < s.len() && s[i].0 == ip);
    let t = s.remove(i);
    assert(spec_after_get(s, ip, now) == t);
    lemma_remove_unique(s, i);
    if exists|k: int| 0 <= k < t.len() && #[trigger] t[k].0 == ip {
        let k = choose|k: int| 0 <= k < t.len() && #[trigger] t[k].0 == ip;
        let k2 = if k < i { k } else { k + 1 };
        assert(t[k] == s[k2]);
    }
}

/// A removal of entries at `now` leaves exactly the entries that are
/// neither expired nor targeted, and only entries that were there.
pub proof fn law_remove_entries(s: Seq<EntryView>, type_bytes: Seq<u8>, positive: bool, now: i64)
    ensures
        forall|e: EntryView|
            #[trigger] spec_remove_entries(s, type_bytes, positive, now).contains(e) <==> (s.contains(e)
                && is_kept_entry(e, type_bytes, positive, now)),
{
    let p = |e: EntryView| is_kept_entry(e, type_bytes, positive, now);
    let r = s.filter(p);
    assert forall|e: EntryView| #[trigger] r.contains(e) <==> (s.contains(e) && is_kept_entry(
        e,
        type_bytes,
        positive,
        now,
    )) by {
        if r.contains(e) {
            s.lemma_filter_contains_rev(p, e);
            let k = choose|k: int| 0 <= k < r.len() && r[k] == e;
            s.lemma_filter_pred(p, k);
        }
        if s.contains(e) && p(e) {
            let k = choose|k: int| 0 <= k < s.len() && s[k] == e;
            s.lemma_filter_contains(p, k);
        }
    }
}

/// The ban cache module: the manager it owns.
pub struct BanCacheModule {
    pub manager: BanCacheManager,
}

impl BanCacheModule {
    /// A module with an empty cache.
    pub fn new() -> (r: Self)
        ensures
            r.manager.well_formed(),
            r.manager.view() == Seq::<EntryView>::empty(),
    {
        BanCacheModule { manager: BanCacheManager::new() }
    }
}

} // verus!
