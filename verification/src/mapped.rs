use vstd::prelude::*;
use vstd::std_specs::cmp::PartialEqSpec;
use crate::error::Error;
use crate::listed::{List, Listed};

verus! {

/// The first position at or after `from` whose key equals `key`, or
/// -1 when no later entry matches. Equality is the key type's own
/// `==`, read through its specification.
pub open spec fn first_key_from<K: PartialEq, V>(
    entries: Seq<(K, V)>,
    key: K,
    from: int,
) -> int
    decreases entries.len() - from,
{
    if from < 0 || from >= entries.len() {
        -1
    } else if entries[from].0.eq_spec(&key) {
        from
    } else {
        first_key_from(entries, key, from + 1)
    }
}

/// The position of the entry `key` addresses, or -1 when absent.
pub open spec fn key_index<K: PartialEq, V>(entries: Seq<(K, V)>, key: K) -> int {
    first_key_from(entries, key, 0)
}

/// What storing `key -> value` does to an entry list: an entry with a
/// matching key is replaced in place, anything else appends.
pub open spec fn spec_set<K: PartialEq, V>(entries: Seq<(K, V)>, key: K, value: V) -> Seq<
    (K, V),
> {
    let i = key_index(entries, key);
    if i < 0 {
        entries.push((key, value))
    } else {
        entries.update(i, (key, value))
    }
}

/// The entry list a sequence of stores builds up, first store first.
pub open spec fn built_entries<K: PartialEq, V>(input: Seq<(K, V)>) -> Seq<(K, V)>
    decreases input.len(),
{
    if input.len() == 0 {
        Seq::empty()
    } else {
        spec_set(built_entries(input.drop_last()), input.last().0, input.last().1)
    }
}

proof fn lemma_first_key_bounds<K: PartialEq, V>(entries: Seq<(K, V)>, key: K, from: int)
    ensures
        ({
            let r = first_key_from(entries, key, from);
            r == -1 || (from <= r < entries.len() && entries[r].0.eq_spec(&key))
        }),
    decreases entries.len() - from,
{
    if !(from < 0 || from >= entries.len()) && !entries[from].0.eq_spec(&key) {
        lemma_first_key_bounds(entries, key, from + 1);
    }
}

/// Read access shared by finished maps and map builders: `entries`
/// is the key-value list in insertion order, and every accessor is
/// specified against it. Lookups take the first entry whose key
/// equals the one asked for; the stores below never leave two such
/// entries behind.
pub trait MappedTrait<K: PartialEq + Clone, V: Clone>: Sized {
    /// The entries, in insertion order.
    spec fn entries(&self) -> Seq<(K, V)>;

    /// Applies `action` to a clone of every entry, in order.
    fn for_each<F: Fn(K, V)>(&self, action: F)
        requires
            K::obeys_eq_spec(),
            self.entries().len() <= i32::MAX,
            forall|k: K, v: V| call_requires(action, (k, v)),
    ;

    /// The value stored under `key`, or an error when the key is
    /// absent.
    fn get(&self, key: K) -> (r: Result<V, Error>)
        requires
            K::obeys_eq_spec(),
        ensures
            key_index(self.entries(), key) < 0 <==> r is Err,
            key_index(self.entries(), key) >= 0 ==> (r matches Ok(v) && cloned::<V>(
                self.entries()[key_index(self.entries(), key)].1,
                v,
            )),
    ;

    /// The value stored under `key`, or `fallback` when absent.
    fn get_or(&self, key: K, fallback: V) -> (r: V)
        requires
            K::obeys_eq_spec(),
        ensures
            key_index(self.entries(), key) < 0 ==> r == fallback,
            key_index(self.entries(), key) >= 0 ==> cloned::<V>(
                self.entries()[key_index(self.entries(), key)].1,
                r,
            ),
    ;

    /// Whether any entry's key equals `key`.
    fn has(&self, key: K) -> (r: bool)
        requires
            K::obeys_eq_spec(),
        ensures
            r == (key_index(self.entries(), key) >= 0),
    ;

    /// The keys, in insertion order.
    fn keys(&self) -> (r: Listed<K>)
        requires
            self.entries().len() <= i32::MAX,
        ensures
            r@.len() == self.entries().len(),
            forall|i: int|
                0 <= i < r@.len() ==> cloned::<K>(self.entries()[i].0, #[trigger] r@[i]),
    ;

    /// The number of entries, which must fit an `i32`.
    fn len(&self) -> (r: i32)
        requires
            self.entries().len() <= i32::MAX,
        ensures
            r == self.entries().len(),
    ;

    /// The entries as a list of pairs, in insertion order.
    fn to_list(&self) -> (r: List<(K, V)>)
        requires
            self.entries().len() <= i32::MAX,
        ensures
            r@.len() == self.entries().len(),
            forall|i: int|
                #![trigger r@[i]]
                0 <= i < r@.len() ==> cloned::<K>(self.entries()[i].0, r@[i].0) && cloned::<V>(
                    self.entries()[i].1,
                    r@[i].1,
                ),
    ;

    /// A finished map holding a clone of the entries.
    fn to_map(&self) -> (r: Mapping<K, V>)
        requires
            self.entries().len() <= i32::MAX,
        ensures
            r.spec_entries().len() == self.entries().len(),
            forall|i: int|
                #![trigger r.spec_entries()[i]]
                0 <= i < r.spec_entries().len() ==> cloned::<K>(
                    self.entries()[i].0,
                    r.spec_entries()[i].0,
                ) && cloned::<V>(self.entries()[i].1, r.spec_entries()[i].1),
    ;

    /// A builder holding a clone of the entries.
    fn to_map_builder(&self) -> (r: MapBuilder<K, V>)
        requires
            self.entries().len() <= i32::MAX,
        ensures
            r.spec_entries().len() == self.entries().len(),
            forall|i: int|
                #![trigger r.spec_entries()[i]]
                0 <= i < r.spec_entries().len() ==> cloned::<K>(
                    self.entries()[i].0,
                    r.spec_entries()[i].0,
                ) && cloned::<V>(self.entries()[i].1, r.spec_entries()[i].1),
    ;

    /// The values, in insertion order.
    fn values(&self) -> (r: Listed<V>)
        requires
            self.entries().len() <= i32::MAX,
        ensures
            r@.len() == self.entries().len(),
            forall|i: int|
                0 <= i < r@.len() ==> cloned::<V>(self.entries()[i].1, #[trigger] r@[i]),
    ;
}

/// An insertion-ordered map, fixed once built.
pub struct Mapping<K, V> {
    entries: Vec<(K, V)>,
}

impl<K, V> Mapping<K, V> {
    /// The entries, in insertion order.
    pub closed spec fn spec_entries(&self) -> Seq<(K, V)> {
        self.entries@
    }
}

/// An insertion-ordered map under construction.
pub struct MapBuilder<K, V> {
    entries: Vec<(K, V)>,
}

impl<K, V> MapBuilder<K, V> {
    /// The entries, in insertion order.
    pub closed spec fn spec_entries(&self) -> Seq<(K, V)> {
        self.entries@
    }
}

/// Scans for the first entry whose key equals `key`.
fn find_key<K: PartialEq + Clone, V>(entries: &Vec<(K, V)>, key: &K) -> (r: Option<usize>)
    requires
        K::obeys_eq_spec(),
    ensures
        r matches Some(i) ==> i == key_index(entries@, *key),
        r is None ==> key_index(entries@, *key) == -1,
{
    let mut i: usize = 0;
    while i < entries.len()
        invariant
            0 <= i <= entries@.len(),
            K::obeys_eq_spec(),
            key_index(entries@, *key) == first_key_from(entries@, *key, i as int),
        decreases entries@.len() - i,
    {
        if entries[i].0 == *key {
            return Some(i);
        }
        i = i + 1;
    }
    None
}

/// Copies the entries of a map representation, pair by pair.
fn clone_entries<K: Clone, V: Clone>(entries: &Vec<(K, V)>) -> (r: Vec<(K, V)>)
    ensures
        r@.len() == entries@.len(),
        forall|i: int|
            #![trigger r@[i]]
            0 <= i < r@.len() ==> cloned::<K>(entries@[i].0, r@[i].0) && cloned::<V>(
                entries@[i].1,
                r@[i].1,
            ),
{
    let mut r: Vec<(K, V)> = Vec::new();
    let mut i: usize = 0;
    while i < entries.len()
        invariant
            0 <= i <= entries@.len(),
            r@.len() == i,
            forall|j: int|
                #![trigger r@[j]]
                0 <= j < i ==> cloned::<K>(entries@[j].0, r@[j].0) && cloned::<V>(
                    entries@[j].1,
                    r@[j].1,
                ),
        decreases entries@.len() - i,
    {
        let k = entries[i].0.clone();
        let v = entries[i].1.clone();
        r.push((k, v));
        i = i + 1;
    }
    r
}

/// Stores `key -> value` into an entry list, replacing the first
/// matching entry in place or appending a new one.
fn set_entry<K: PartialEq + Clone, V>(entries: &mut Vec<(K, V)>, key: K, value: V)
    requires
        K::obeys_eq_spec(),
    ensures
        final(entries)@ == spec_set(old(entries)@, key, value),
{
    match find_key(entries, &key) {
        Some(i) => {
            proof {
                lemma_first_key_bounds(entries@, key, 0);
            }
            entries.set(i, (key, value));
        },
        None => {
            entries.push((key, value));
        },
    }
}

impl<K: PartialEq + Clone, V: Clone> Mapping<K, V> {
    /// Builds a map from a list of pairs, storing them first to last:
    /// a later pair with an equal key replaces the earlier entry in
    /// place.
    pub fn new<E: crate::listed::ToList<(K, V)>>(entries: E) -> (r: Mapping<K, V>)
        requires
            K::obeys_eq_spec(),
        ensures
            r.spec_entries() == built_entries(entries.spec_items()),
    {
        let list = entries.to_list();
        let mut pending = list.items;
        let ghost input = pending@;
        proof {
            assert(input.take(input.len() as int) =~= input);
        }
        let mut reversed: Vec<(K, V)> = Vec::new();
        while pending.len() > 0
            invariant
                reversed@.len() + pending@.len() == input.len(),
                pending@ == input.take(pending@.len() as int),
                forall|j: int|
                    0 <= j < reversed@.len() ==> #[trigger] reversed@[j] == input[input.len() - 1
                        - j],
            decreases pending@.len(),
        {
            let pair = pending.pop().unwrap();
            reversed.push(pair);
            proof {
                assert(pending@ =~= input.take(pending@.len() as int));
            }
        }
        let mut built: Vec<(K, V)> = Vec::new();
        while reversed.len() > 0
            invariant
                K::obeys_eq_spec(),
                reversed@.len() <= input.len(),
                forall|j: int|
                    0 <= j < reversed@.len() ==> #[trigger] reversed@[j] == input[input.len() - 1
                        - j],
                built@ == built_entries(input.take(input.len() - reversed@.len())),
            decreases reversed@.len(),
        {
            let ghost taken = input.len() - reversed@.len();
            let (k, v) = reversed.pop().unwrap();
            proof {
                assert((k, v) == input[taken]);
            }
            set_entry(&mut built, k, v);
            proof {
                let grown = input.take(taken + 1);
                assert(grown.drop_last() =~= input.take(taken));
                assert(grown.last() == input[taken]);
            }
        }
        proof {
            assert(input.take(input.len() as int) =~= input);
        }
        Mapping { entries: built }
    }
}

impl<K: PartialEq + Clone, V: Clone> MappedTrait<K, V> for Mapping<K, V> {
    closed spec fn entries(&self) -> Seq<(K, V)> {
        self.entries@
    }

    fn for_each<F: Fn(K, V)>(&self, action: F) {
        map_for_each(&self.entries, action)
    }

    fn get(&self, key: K) -> (r: Result<V, Error>) {
        map_get(&self.entries, key)
    }

    fn get_or(&self, key: K, fallback: V) -> (r: V) {
        map_get_or(&self.entries, key, fallback)
    }

    fn has(&self, key: K) -> (r: bool) {
        find_key(&self.entries, &key).is_some()
    }

    fn keys(&self) -> (r: Listed<K>) {
        map_keys(&self.entries)
    }

    fn len(&self) -> (r: i32) {
        self.entries.len() as i32
    }

    fn to_list(&self) -> (r: List<(K, V)>) {
        List::with_vec(clone_entries(&self.entries))
    }

    fn to_map(&self) -> (r: Mapping<K, V>) {
        Mapping { entries: clone_entries(&self.entries) }
    }

    fn to_map_builder(&self) -> (r: MapBuilder<K, V>) {
        MapBuilder { entries: clone_entries(&self.entries) }
    }

    fn values(&self) -> (r: Listed<V>) {
        map_values(&self.entries)
    }
}

impl<K: PartialEq + Clone, V: Clone> MapBuilder<K, V> {
    /// A builder with no entries.
    pub fn new() -> (r: MapBuilder<K, V>)
        ensures
            r.spec_entries().len() == 0,
    {
        MapBuilder { entries: Vec::new() }
    }

    /// Removes every entry.
    pub fn clear(&mut self)
        ensures
            final(self).spec_entries().len() == 0,
    {
        self.entries.clear();
    }

    /// A clone of the entry at `index`, or nothing past the end.
    fn get_index(&self, index: usize) -> (r: Option<(K, V)>)
        ensures
            index < self.spec_entries().len() ==> (r matches Some(p) && cloned::<K>(
                self.spec_entries()[index as int].0,
                p.0,
            ) && cloned::<V>(self.spec_entries()[index as int].1, p.1)),
            index >= self.spec_entries().len() ==> r is None,
    {
        if index < self.entries.len() {
            let k = self.entries[index].0.clone();
            let v = self.entries[index].1.clone();
            Some((k, v))
        } else {
            None
        }
    }

    /// Removes the entry `key` addresses, keeping the order of the
    /// rest, and returns its value; an absent key is an error.
    pub fn remove(&mut self, key: K) -> (r: Result<V, Error>)
        requires
            K::obeys_eq_spec(),
        ensures
            key_index(old(self).spec_entries(), key) < 0 ==> (r is Err && final(self).spec_entries() == old(self).spec_entries()),
            key_index(old(self).spec_entries(), key) >= 0 ==> (r matches Ok(v) && v == old(self).spec_entries()[key_index(old(self).spec_entries(), key)].1 && final(self).spec_entries() == old(self).spec_entries().remove(
                key_index(old(self).spec_entries(), key),
            )),
    {
        match find_key(&self.entries, &key) {
            Some(i) => {
                proof {
                    lemma_first_key_bounds(self.entries@, key, 0);
                }
                let (_gone_key, value) = self.entries.remove(i);
                Ok(value)
            },
            None => Err(Error::new()),
        }
    }

    /// Stores `key -> value`: the first entry with an equal key is
    /// replaced in place, and otherwise the pair is appended.
    pub fn set(&mut self, key: K, value: V)
        requires
            K::obeys_eq_spec(),
        ensures
            final(self).spec_entries() == spec_set(old(self).spec_entries(), key, value),
    {
        set_entry(&mut self.entries, key, value);
    }
}

impl<K: PartialEq + Clone, V: Clone> MappedTrait<K, V> for MapBuilder<K, V> {
    closed spec fn entries(&self) -> Seq<(K, V)> {
        self.entries@
    }

    fn for_each<F: Fn(K, V)>(&self, action: F) {
        map_for_each(&self.entries, action)
    }

    fn get(&self, key: K) -> (r: Result<V, Error>) {
        map_get(&self.entries, key)
    }

    fn get_or(&self, key: K, fallback: V) -> (r: V) {
        map_get_or(&self.entries, key, fallback)
    }

    fn has(&self, key: K) -> (r: bool) {
        find_key(&self.entries, &key).is_some()
    }

    fn keys(&self) -> (r: Listed<K>) {
        map_keys(&self.entries)
    }

    fn len(&self) -> (r: i32) {
        self.entries.len() as i32
    }

    fn to_list(&self) -> (r: List<(K, V)>) {
        List::with_vec(clone_entries(&self.entries))
    }

    fn to_map(&self) -> (r: Mapping<K, V>) {
        Mapping { entries: clone_entries(&self.entries) }
    }

    fn to_map_builder(&self) -> (r: MapBuilder<K, V>) {
        MapBuilder { entries: clone_entries(&self.entries) }
    }

    fn values(&self) -> (r: Listed<V>) {
        map_values(&self.entries)
    }
}

fn map_for_each<K: PartialEq + Clone, V: Clone, F: Fn(K, V)>(entries: &Vec<(K, V)>, action: F)
    requires
        forall|k: K, v: V| call_requires(action, (k, v)),
{
    let mut i: usize = 0;
    while i < entries.len()
        invariant
            forall|k: K, v: V| call_requires(action, (k, v)),
            0 <= i <= entries@.len(),
        decreases entries@.len() - i,
    {
        let k = entries[i].0.clone();
        let v = entries[i].1.clone();
        action(k, v);
        i = i + 1;
    }
}

fn map_get<K: PartialEq + Clone, V: Clone>(entries: &Vec<(K, V)>, key: K) -> (r: Result<V, Error>)
    requires
        K::obeys_eq_spec(),
    ensures
        key_index(entries@, key) < 0 <==> r is Err,
        key_index(entries@, key) >= 0 ==> (r matches Ok(v) && cloned::<V>(
            entries@[key_index(entries@, key)].1,
            v,
        )),
{
    match find_key(entries, &key) {
        Some(i) => {
            proof {
                lemma_first_key_bounds(entries@, key, 0);
            }
            Ok(entries[i].1.clone())
        },
        None => Err(Error::new()),
    }
}

fn map_get_or<K: PartialEq + Clone, V: Clone>(entries: &Vec<(K, V)>, key: K, fallback: V) -> (r: V)
    requires
        K::obeys_eq_spec(),
    ensures
        key_index(entries@, key) < 0 ==> r == fallback,
        key_index(entries@, key) >= 0 ==> cloned::<V>(entries@[key_index(entries@, key)].1, r),
{
    match find_key(entries, &key) {
        Some(i) => {
            proof {
                lemma_first_key_bounds(entries@, key, 0);
            }
            entries[i].1.clone()
        },
        None => fallback,
    }
}

fn map_keys<K: Clone, V>(entries: &Vec<(K, V)>) -> (r: Listed<K>)
    ensures
        r@.len() == entries@.len(),
        forall|i: int| 0 <= i < r@.len() ==> cloned::<K>(entries@[i].0, #[trigger] r@[i]),
{
    let mut keys: Vec<K> = Vec::new();
    let mut i: usize = 0;
    while i < entries.len()
        invariant
            0 <= i <= entries@.len(),
            keys@.len() == i,
            forall|j: int| 0 <= j < i ==> cloned::<K>(entries@[j].0, #[trigger] keys@[j]),
        decreases entries@.len() - i,
    {
        keys.push(entries[i].0.clone());
        i = i + 1;
    }
    Listed { items: keys }
}

fn map_values<K, V: Clone>(entries: &Vec<(K, V)>) -> (r: Listed<V>)
    ensures
        r@.len() == entries@.len(),
        forall|i: int| 0 <= i < r@.len() ==> cloned::<V>(entries@[i].1, #[trigger] r@[i]),
{
    let mut values: Vec<V> = Vec::new();
    let mut i: usize = 0;
    while i < entries.len()
        invariant
            0 <= i <= entries@.len(),
            values@.len() == i,
            forall|j: int| 0 <= j < i ==> cloned::<V>(entries@[j].1, #[trigger] values@[j]),
        decreases entries@.len() - i,
    {
        values.push(entries[i].1.clone());
        i = i + 1;
    }
    Listed { items: values }
}

/// `b` is reachable by sending a clone of the entry through `action`.
pub open spec fn entry_image<K: Clone, V: Clone, T, F: Fn(K, V) -> T>(
    action: F,
    entry: (K, V),
    b: T,
) -> bool {
    exists|k: K, v: V|
        cloned::<K>(entry.0, k) && cloned::<V>(entry.1, v) && #[trigger] call_ensures(
            action,
            (k, v),
            b,
        )
}

/// A clone of every entry sent through `action`, in insertion order.
pub fn mapped_to_list_with<K: PartialEq + Clone, V: Clone, T, M: MappedTrait<K, V>, F: Fn(K, V) -> T>(
    mapped: &M,
    action: F,
) -> (r: List<T>)
    requires
        K::obeys_eq_spec(),
        mapped.entries().len() <= i32::MAX,
        forall|k: K, v: V| call_requires(action, (k, v)),
    ensures
        r@.len() == mapped.entries().len(),
        forall|i: int|
            #![trigger r@[i]]
            0 <= i < r@.len() ==> entry_image(action, mapped.entries()[i], r@[i]),
{
    let list = mapped.to_list();
    let mut pending = list.items;
    let ghost pairs = pending@;
    proof {
        assert(pairs.take(pairs.len() as int) =~= pairs);
    }
    let mut reversed: Vec<(K, V)> = Vec::new();
    while pending.len() > 0
        invariant
            reversed@.len() + pending@.len() == pairs.len(),
            pending@ == pairs.take(pending@.len() as int),
            forall|j: int|
                0 <= j < reversed@.len() ==> #[trigger] reversed@[j] == pairs[pairs.len() - 1 - j],
        decreases pending@.len(),
    {
        let pair = pending.pop().unwrap();
        reversed.push(pair);
        proof {
            assert(pending@ =~= pairs.take(pending@.len() as int));
        }
    }
    let mut result: Vec<T> = Vec::new();
    while reversed.len() > 0
        invariant
            forall|k: K, v: V| call_requires(action, (k, v)),
            reversed@.len() <= pairs.len(),
            pairs.len() == mapped.entries().len(),
            forall|j: int|
                #![trigger pairs[j]]
                0 <= j < pairs.len() ==> cloned::<K>(mapped.entries()[j].0, pairs[j].0)
                    && cloned::<V>(mapped.entries()[j].1, pairs[j].1),
            forall|j: int|
                0 <= j < reversed@.len() ==> #[trigger] reversed@[j] == pairs[pairs.len() - 1 - j],
            result@.len() == pairs.len() - reversed@.len(),
            forall|j: int|
                #![trigger result@[j]]
                0 <= j < result@.len() ==> entry_image(action, mapped.entries()[j], result@[j]),
        decreases reversed@.len(),
    {
        let ghost at = pairs.len() - reversed@.len();
        let (k, v) = reversed.pop().unwrap();
        let ghost gk = k;
        let ghost gv = v;
        proof {
            assert((gk, gv) == pairs[at]);
        }
        let image = action(k, v);
        result.push(image);
        proof {
            assert(cloned::<K>(mapped.entries()[at].0, gk) && cloned::<V>(
                mapped.entries()[at].1,
                gv,
            ) && call_ensures(action, (gk, gv), result@[at]));
            assert(entry_image(action, mapped.entries()[at], result@[at]));
        }
    }
    List::with_vec(result)
}

/// A key-value pair read as its two halves.
pub trait Pair<K: Clone, V: Clone>: Sized {
    /// The pair's halves, as the underlying entry.
    spec fn spec_pair(&self) -> (K, V);

    /// The key half.
    fn key(&self) -> (r: K)
        ensures
            cloned::<K>(self.spec_pair().0, r),
    ;

    /// The value half.
    fn value(&self) -> (r: V)
        ensures
            cloned::<V>(self.spec_pair().1, r),
    ;
}

impl<K: Clone, V: Clone> Pair<K, V> for (K, V) {
    open spec fn spec_pair(&self) -> (K, V) {
        *self
    }

    fn key(&self) -> (r: K) {
        self.0.clone()
    }

    fn value(&self) -> (r: V) {
        self.1.clone()
    }
}

} // verus!
