//! Storage behind extensible objects: the per-object map from extension
//! item to value, and the registry of extension items by name.

use vstd::prelude::*;
use vstd::string::StringSliceAdditionalSpecFns;
use vstd::utf8::encode_utf8;
use crate::hashcomp::{ci_eq, equals};

verus! {

/// The first index at or after `from` whose entry has the key `key`.
pub open spec fn key_pos(s: Seq<(usize, usize)>, key: usize, from: int) -> Option<int>
    decreases s.len() - from,
{
    if from < 0 || from >= s.len() {
        None
    } else if s[from].0 == key {
        Some(from)
    } else {
        key_pos(s, key, from + 1)
    }
}

/// The value stored under `key`, or 0 where none is.
pub open spec fn store_get(s: Seq<(usize, usize)>, key: usize) -> usize {
    match key_pos(s, key, 0) {
        Some(i) => s[i].1,
        None => 0,
    }
}

/// The entries after setting `key` to `value`: the entry of the key is
/// updated in place, or a new entry is appended.
pub open spec fn store_set(s: Seq<(usize, usize)>, key: usize, value: usize) -> Seq<(usize, usize)> {
    match key_pos(s, key, 0) {
        Some(i) => s.update(i, (key, value)),
        None => s.push((key, value)),
    }
}

/// The entries after removing `key`, the others keeping their order.
pub open spec fn store_unset(s: Seq<(usize, usize)>, key: usize) -> Seq<(usize, usize)> {
    match key_pos(s, key, 0) {
        Some(i) => s.remove(i),
        None => s,
    }
}

/// No key occurs in two entries.
pub open spec fn unique_keys(s: Seq<(usize, usize)>) -> bool {
    forall|i: int, j: int| 0 <= i < j < s.len() ==> #[trigger] s[i].0 != #[trigger] s[j].0
}

proof fn lemma_key_pos(s: Seq<(usize, usize)>, key: usize, from: int)
    requires
        0 <= from,
    ensures
        match key_pos(s, key, from) {
            Some(i) => from <= i < s.len() && s[i].0 == key && forall|j: int|
                from <= j < i ==> #[trigger] s[j].0 != key,
            None => forall|j: int| from <= j < s.len() ==> #[trigger] s[j].0 != key,
        },
    decreases s.len() - from,
{
    if from < s.len() && s[from].0 != key {
        lemma_key_pos(s, key, from + 1);
    }
}

proof fn lemma_key_pos_is(s: Seq<(usize, usize)>, key: usize, from: int, r: Option<int>)
    requires
        0 <= from,
        match r {
            Some(i) => from <= i < s.len() && s[i].0 == key && forall|j: int|
                from <= j < i ==> #[trigger] s[j].0 != key,
            None => forall|j: int| from <= j < s.len() ==> #[trigger] s[j].0 != key,
        },
    ensures
        key_pos(s, key, from) == r,
    decreases s.len() - from,
{
    lemma_key_pos(s, key, from);
    if from < s.len() && s[from].0 != key {
        lemma_key_pos_is(s, key, from + 1, r);
    }
}

/// What is read back after a write: setting a key makes it read as the
/// value set and leaves every other key as it was; removing a key makes it
/// read as 0 and leaves every other key as it was; both keep the keys
/// distinct.
pub proof fn law_store_read_after_write(s: Seq<(usize, usize)>, key: usize, value: usize, other: usize)
    requires
        unique_keys(s),
    ensures
        store_get(store_set(s, key, value), key) == value,
        other != key ==> store_get(store_set(s, key, value), other) == store_get(s, other),
        store_get(store_unset(s, key), key) == 0,
        other != key ==> store_get(store_unset(s, key), other) == store_get(s, other),
        unique_keys(store_set(s, key, value)),
        unique_keys(store_unset(s, key)),
{
    lemma_key_pos(s, key, 0);
    lemma_key_pos(s, other, 0);
    let t = store_set(s, key, value);
    let u = store_unset(s, key);
    match key_pos(s, key, 0) {
        Some(i) => {
            assert(t == s.update(i, (key, value)));
            lemma_key_pos_is(t, key, 0, Some(i));
            if other != key {
                lemma_key_pos_is(t, other, 0, key_pos(s, other, 0));
            }
            assert(u == s.remove(i));
            lemma_key_pos_is(u, key, 0, None);
            if other != key {
                match key_pos(s, other, 0) {
                    Some(k) => {
                        if k < i {
                            lemma_key_pos_is(u, other, 0, Some(k));
                        } else {
                            assert(u[k - 1] == s[k]);
                            assert forall|j: int| 0 <= j < k - 1 implies #[trigger] u[j].0 != other by {
                                if j < i {
                                    assert(u[j] == s[j]);
                                } else {
                                    assert(u[j] == s[j + 1]);
                                }
                            }
                            lemma_key_pos_is(u, other, 0, Some(k - 1));
                        }
                    },
                    None => {
                        assert forall|j: int| 0 <= j < u.len() implies #[trigger] u[j].0 != other by {
                            if j < i {
                                assert(u[j] == s[j]);
                            } else {
                                assert(u[j] == s[j + 1]);
                            }
                        }
                        lemma_key_pos_is(u, other, 0, None);
                    },
                }
            }
            assert forall|a: int, b: int| 0 <= a < b < u.len() implies #[trigger] u[a].0
                != #[trigger] u[b].0 by {
                let a2 = if a < i { a } else { a + 1 };
                let b2 = if b < i { b } else { b + 1 };
                assert(u[a] == s[a2]);
                assert(u[b] == s[b2]);
                assert(s[a2].0 != s[b2].0);
            }
            assert forall|a: int, b: int| 0 <= a < b < t.len() implies #[trigger] t[a].0
                != #[trigger] t[b].0 by {
                assert(s[a].0 != s[b].0);
            }
        },
        None => {
            assert(t == s.push((key, value)));
            lemma_key_pos_is(t, key, 0, Some(s.len() as int));
            if other != key {
                lemma_key_pos_is(t, other, 0, key_pos(s, other, 0));
            }
            assert(u == s);
            assert forall|a: int, b: int| 0 <= a < b < t.len() implies #[trigger] t[a].0
                != #[trigger] t[b].0 by {
                if b < s.len() {
                    assert(s[a].0 != s[b].0);
                }
            }
        },
    }
}

/// The values attached to one extensible object, keyed by extension item.
pub struct ExtensibleStore {
    entries: Vec<(usize, usize)>,
}

impl View for ExtensibleStore {
    type V = Seq<(usize, usize)>;

    closed spec fn view(&self) -> Seq<(usize, usize)> {
        self.entries@
    }
}

impl ExtensibleStore {
    #[verifier::type_invariant]
    spec fn well_formed(self) -> bool {
        unique_keys(self.entries@)
    }

    /// An empty store.
    pub fn new() -> (r: Self)
        ensures
            r@ == Seq::<(usize, usize)>::empty(),
    {
        ExtensibleStore { entries: Vec::new() }
    }

    fn position(&self, key: usize) -> (r: Option<usize>)
        ensures
            r matches Some(p) ==> key_pos(self@, key, 0) == Some(p as int) && p < self@.len()
                && self@[p as int].0 == key,
            r is None ==> key_pos(self@, key, 0) is None,
    {
        proof {
            lemma_key_pos(self@, key, 0);
        }
        let mut i: usize = 0;
        while i < self.entries.len()
            invariant
                i <= self.entries@.len(),
                key_pos(self.entries@, key, 0) == key_pos(self.entries@, key, i as int),
            decreases self.entries.len() - i,
        {
            if self.entries[i].0 == key {
                return Some(i);
            }
            i = i + 1;
        }
        None
    }

    /// The value set for `key`, or 0 if it is unset.
    pub fn get_raw(&self, key: usize) -> (r: usize)
        ensures
            r == store_get(self@, key),
    {
        match self.position(key) {
            Some(i) => self.entries[i].1,
            None => 0,
        }
    }

    /// Sets `key` to `value`, returning the previous value (0 if unset).
    pub fn set_raw(&mut self, key: usize, value: usize) -> (r: usize)
        ensures
            r == store_get(old(self)@, key),
            final(self)@ == store_set(old(self)@, key, value),
    {
        proof {
            use_type_invariant(&*self);
            law_store_read_after_write(self@, key, value, key);
        }
        match self.position(key) {
            Some(i) => {
                let old = self.entries[i].1;
                let mut entries = Vec::new();
                std::mem::swap(&mut entries, &mut self.entries);
                entries.set(i, (key, value));
                self.entries = entries;
                old
            },
            None => {
                let mut entries = Vec::new();
                std::mem::swap(&mut entries, &mut self.entries);
                entries.push((key, value));
                self.entries = entries;
                0
            },
        }
    }

    /// Removes `key`, returning the value that was set (0 if unset).
    pub fn unset_raw(&mut self, key: usize) -> (r: usize)
        ensures
            r == store_get(old(self)@, key),
            final(self)@ == store_unset(old(self)@, key),
    {
        proof {
            use_type_invariant(&*self);
            law_store_read_after_write(self@, key, 0, key);
        }
        match self.position(key) {
            Some(i) => {
                let mut entries = Vec::new();
                std::mem::swap(&mut entries, &mut self.entries);
                let e = entries.remove(i);
                self.entries = entries;
                e.1
            },
            None => 0,
        }
    }

    /// Whether no value is set.
    pub fn is_empty(&self) -> (r: bool)
        ensures
            r == (self@.len() == 0),
    {
        self.entries.len() == 0
    }

    /// The number of values set.
    pub fn len(&self) -> (r: usize)
        ensures
            r == self@.len(),
    {
        self.entries.len()
    }

    /// The key and value of the entry at `idx`, in the order of setting.
    pub fn entry_at(&self, idx: usize) -> (r: Option<(usize, usize)>)
        ensures
            idx < self@.len() ==> r == Some(self@[idx as int]),
            idx >= self@.len() ==> r is None,
    {
        if idx < self.entries.len() {
            Some(self.entries[idx])
        } else {
            None
        }
    }

    /// Unsets every key.
    pub fn clear(&mut self)
        ensures
            final(self)@ == Seq::<(usize, usize)>::empty(),
    {
        self.entries = Vec::new();
    }
}


/// Whether two extension names are equal under ASCII case folding.
pub open spec fn names_match(a: Seq<char>, b: Seq<char>) -> bool {
    ci_eq(encode_utf8(a), encode_utf8(b))
}

/// A registration: the name, the extension item and the module that
/// created it.
pub type Registration = (Seq<char>, usize, usize);

/// The first index at or after `from` whose registration's name matches
/// `name`.
pub open spec fn name_pos(s: Seq<Registration>, name: Seq<char>, from: int) -> Option<int>
    decreases s.len() - from,
{
    if from < 0 || from >= s.len() {
        None
    } else if names_match(s[from].0, name) {
        Some(from)
    } else {
        name_pos(s, name, from + 1)
    }
}

/// The registrations that a module did not create, in order.
pub open spec fn kept_registrations(s: Seq<Registration>, module: usize) -> Seq<Registration>
    decreases s.len(),
{
    if s.len() == 0 {
        s
    } else if s.last().2 == module {
        kept_registrations(s.drop_last(), module)
    } else {
        kept_registrations(s.drop_last(), module).push(s.last())
    }
}

/// The items of the registrations that a module created, in order.
pub open spec fn removed_items(s: Seq<Registration>, module: usize) -> Seq<usize>
    decreases s.len(),
{
    if s.len() == 0 {
        Seq::empty()
    } else if s.last().2 == module {
        removed_items(s.drop_last(), module).push(s.last().1)
    } else {
        removed_items(s.drop_last(), module)
    }
}

/// The registry of extension items by case-insensitive name.
pub struct ExtensionManagerStore {
    types: Vec<(String, usize, usize)>,
}

impl ExtensionManagerStore {
    /// The registrations in the order they were made.
    pub closed spec fn view(&self) -> Seq<Registration> {
        Seq::new(self.types@.len(), |i: int| (self.types@[i].0@, self.types@[i].1, self.types@[i].2))
    }

    /// An empty registry.
    pub fn new() -> (r: Self)
        ensures
            r.view() == Seq::<Registration>::empty(),
    {
        ExtensionManagerStore { types: Vec::new() }
    }

    /// The index of the registration whose name matches `name` case
    /// insensitively.
    pub fn find_index(&self, name: &str) -> (r: Option<usize>)
        ensures
            r matches Some(p) ==> name_pos(self.view(), name@, 0) == Some(p as int) && p
                < self.view().len(),
            r is None ==> name_pos(self.view(), name@, 0) is None,
    {
        let mut i: usize = 0;
        while i < self.types.len()
            invariant
                i <= self.types@.len(),
                name_pos(self.view(), name@, 0) == name_pos(self.view(), name@, i as int),
            decreases self.types.len() - i,
        {
            if equals(self.types[i].0.as_str(), name) {
                return Some(i);
            }
            i = i + 1;
        }
        None
    }

    /// Registers `item` under `name` for the module `creator`; false, and
    /// nothing registered, if a registration with the same name (ignoring
    /// ASCII case) exists.
    pub fn register(&mut self, name: &str, item: usize, creator: usize) -> (r: bool)
        ensures
            r == (name_pos(old(self).view(), name@, 0) is None),
            r ==> final(self).view() == old(self).view().push((name@, item, creator)),
            !r ==> final(self).view() == old(self).view(),
    {
        if self.find_index(name).is_some() {
            return false;
        }
        let ghost before = self.view();
        self.types.push((name.to_owned(), item, creator));
        proof {
            assert(self.view() =~= before.push((name@, item, creator)));
        }
        true
    }

    /// The item registered under `name` (ignoring ASCII case), or 0.
    pub fn get_item(&self, name: &str) -> (r: usize)
        ensures
            r == match name_pos(self.view(), name@, 0) {
                Some(i) => self.view()[i].1,
                None => 0,
            },
    {
        match self.find_index(name) {
            Some(i) => self.types[i].1,
            None => 0,
        }
    }

    /// The number of registrations.
    pub fn len(&self) -> (r: usize)
        ensures
            r == self.view().len(),
    {
        self.types.len()
    }

    /// The name of the registration at `idx`.
    pub fn name_at(&self, idx: usize) -> (r: Option<String>)
        ensures
            idx < self.view().len() ==> (r matches Some(n) && n@ == self.view()[idx as int].0),
            idx >= self.view().len() ==> r is None,
    {
        if idx < self.types.len() {
            Some(self.types[idx].0.clone())
        } else {
            None
        }
    }

    /// The item of the registration at `idx`.
    pub fn entry_at(&self, idx: usize) -> (r: Option<usize>)
        ensures
            idx < self.view().len() ==> r == Some(self.view()[idx as int].1),
            idx >= self.view().len() ==> r is None,
    {
        if idx < self.types.len() {
            Some(self.types[idx].1)
        } else {
            None
        }
    }

    /// Removes every registration that `module_ptr` created, keeping the
    /// others in order, and returns the removed items in order.
    pub fn begin_unregister(&mut self, module_ptr: usize) -> (r: Vec<usize>)
        ensures
            final(self).view() == kept_registrations(old(self).view(), module_ptr),
            r@ == removed_items(old(self).view(), module_ptr),
    {
        let ghost all = self.view();
        let mut old_types: Vec<(String, usize, usize)> = Vec::new();
        std::mem::swap(&mut old_types, &mut self.types);
        let mut removed: Vec<usize> = Vec::new();
        let mut i: usize = 0;
        while i < old_types.len()
            invariant
                i <= old_types@.len(),
                all.len() == old_types@.len(),
                forall|k: int| 0 <= k < all.len() ==> #[trigger] all[k] == (old_types@[k].0@, old_types@[k].1, old_types@[k].2),
                self.view() == kept_registrations(all.take(i as int), module_ptr),
                removed@ == removed_items(all.take(i as int), module_ptr),
            decreases old_types.len() - i,
        {
            let ghost before = self.view();
            proof {
                assert(all.take(i + 1).drop_last() =~= all.take(i as int));
                assert(all.take(i + 1).last() == all[i as int]);
            }
            if old_types[i].2 == module_ptr {
                removed.push(old_types[i].1);
            } else {
                let entry = (old_types[i].0.clone(), old_types[i].1, old_types[i].2);
                self.types.push(entry);
                proof {
                    assert(self.view() =~= before.push(all[i as int]));
                }
            }
            i = i + 1;
        }
        proof {
            assert(all.take(old_types@.len() as int) =~= all);
        }
        removed
    }
}


proof fn lemma_name_pos(s: Seq<Registration>, name: Seq<char>, from: int)
    requires
        0 <= from,
    ensures
        match name_pos(s, name, from) {
            Some(i) => from <= i < s.len() && names_match(s[i].0, name) && forall|j: int|
                from <= j < i ==> !names_match(#[trigger] s[j].0, name),
            None => forall|j: int| from <= j < s.len() ==> !names_match(#[trigger] s[j].0, name),
        },
    decreases s.len() - from,
{
    if from < s.len() && !names_match(s[from].0, name) {
        lemma_name_pos(s, name, from + 1);
    }
}

/// A registration is found again by any name equal to its own ignoring
/// ASCII case: after a successful registration of `name`, looking up
/// `query` gives the registered item, and registering `query` is refused.
pub proof fn law_register_then_lookup(
    s: Seq<Registration>,
    name: Seq<char>,
    item: usize,
    creator: usize,
    query: Seq<char>,
)
    requires
        name_pos(s, name, 0) is None,
        names_match(name, query),
    ensures
        name_pos(s.push((name, item, creator)), query, 0) == Some(s.len() as int),
        s.push((name, item, creator))[s.len() as int].1 == item,
{
    let t = s.push((name, item, creator));
    lemma_name_pos(s, name, 0);
    lemma_name_pos(t, query, 0);
    assert forall|j: int| 0 <= j < s.len() implies !names_match(#[trigger] t[j].0, query) by {
        assert(t[j] == s[j]);
        crate::hashcomp::law_equals_is_equivalence(
            encode_utf8(s[j].0),
            encode_utf8(query),
            encode_utf8(name),
        );
    }
    crate::hashcomp::law_equals_is_equivalence(encode_utf8(name), encode_utf8(query), encode_utf8(name));
    assert(t[s.len() as int].0 == name);
    match name_pos(t, query, 0) {
        Some(i) => {
            if i < s.len() {
                assert(!names_match(t[i].0, query));
            }
        },
        None => {
            assert(!names_match(t[s.len() as int].0, query));
        },
    }
}

} // verus!
