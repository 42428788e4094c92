//! Key/value annotations that travel with a message.
use vstd::prelude::*;
use vstd::std_specs::cmp::PartialEqSpecImpl;

verus! {

/// The text of a key and its value.
type Entry = (String, String);

/// Whether some entry has the key `key`.
spec fn has_key(entries: Seq<Entry>, key: Seq<char>) -> bool {
    exists|i: int| 0 <= i < entries.len() && (#[trigger] entries[i]).0@ == key
}

/// The value that belongs to `key`, where some entry has that key.
spec fn value_of(entries: Seq<Entry>, key: Seq<char>) -> Seq<char> {
    entries[choose|i: int| 0 <= i < entries.len() && (#[trigger] entries[i]).0@ == key].1@
}

/// No two entries share a key.
spec fn keys_unique(entries: Seq<Entry>) -> bool {
    forall|i: int, j: int|
        0 <= i < j < entries.len() ==> (#[trigger] entries[i]).0@ != (#[trigger] entries[j]).0@
}

/// A map from text keys to text values.
#[derive(Debug)]
pub struct Metadata {
    entries: Vec<Entry>,
}

impl View for Metadata {
    type V = Map<Seq<char>, Seq<char>>;

    closed spec fn view(&self) -> Map<Seq<char>, Seq<char>> {
        Map::new(
            |key: Seq<char>| has_key(self.entries@, key),
            |key: Seq<char>| value_of(self.entries@, key),
        )
    }
}

impl Metadata {
    /// No key occurs twice.
    #[verifier::type_invariant]
    spec fn well_formed(self) -> bool {
        keys_unique(self.entries@)
    }

    /// The entry at `i` is what the view holds under its key.
    proof fn lemma_entry(self, i: int)
        requires
            keys_unique(self.entries@),
            0 <= i < self.entries@.len(),
        ensures
            self@.contains_key(self.entries@[i].0@),
            self@[self.entries@[i].0@] == self.entries@[i].1@,
    {
        let key = self.entries@[i].0@;
        let j = choose|j: int|
            0 <= j < self.entries@.len() && (#[trigger] self.entries@[j]).0@ == key;
        assert(self.entries@[i].0@ == key);
        assert(i == j);
    }

    /// Metadata without entries.
    pub fn new() -> (r: Self)
        ensures
            r@ == Map::<Seq<char>, Seq<char>>::empty(),
    {
        let r = Metadata { entries: Vec::new() };
        assert(r@ =~= Map::<Seq<char>, Seq<char>>::empty());
        r
    }

    /// Where the entry for `key` stands.
    fn position(&self, key: &String) -> (r: Option<usize>)
        ensures
            match r {
                Some(i) => i < self.entries@.len() && self.entries@[i as int].0@ == key@,
                None => !has_key(self.entries@, key@),
            },
    {
        let mut i: usize = 0;
        while i < self.entries.len()
            invariant
                i <= self.entries@.len(),
                forall|j: int| 0 <= j < i ==> (#[trigger] self.entries@[j]).0@ != key@,
            decreases self.entries@.len() - i,
        {
            if self.entries[i].0 == *key {
                return Some(i);
            }
            i = i + 1;
        }
        None
    }

    /// Putting an entry in the place of the one with its key, or behind all others where there
    /// is none, sets the value of that key.
    proof fn lemma_set(before: Self, after: Self, i: int, entry: Entry)
        requires
            keys_unique(before.entries@),
            keys_unique(after.entries@),
            0 <= i < before.entries@.len() && before.entries@[i].0@ == entry.0@ && after.entries@
                == before.entries@.update(i, entry) || i == before.entries@.len() && after.entries@
                == before.entries@.push(entry),
        ensures
            after@ == before@.insert(entry.0@, entry.1@),
    {
        after.lemma_entry(i);
        assert forall|q: Seq<char>| #[trigger] after@.contains_key(q) implies before@.insert(
            entry.0@,
            entry.1@,
        ).contains_key(q) && after@[q] == before@.insert(entry.0@, entry.1@)[q] by {
            let j = choose|j: int|
                0 <= j < after.entries@.len() && (#[trigger] after.entries@[j]).0@ == q;
            after.lemma_entry(j);
            if j != i {
                assert(after.entries@[j] == before.entries@[j]);
                before.lemma_entry(j);
            }
        }
        assert forall|q: Seq<char>| #[trigger] before@.contains_key(q) implies after@.contains_key(
            q,
        ) by {
            let j = choose|j: int|
                0 <= j < before.entries@.len() && (#[trigger] before.entries@[j]).0@ == q;
            after.lemma_entry(j);
        }
        assert(after@ =~= before@.insert(entry.0@, entry.1@));
    }

    /// Taking an entry out takes its key out.
    proof fn lemma_unset(before: Self, after: Self, i: int)
        requires
            keys_unique(before.entries@),
            keys_unique(after.entries@),
            0 <= i < before.entries@.len(),
            after.entries@ == before.entries@.remove(i),
        ensures
            after@ == before@.remove(before.entries@[i].0@),
    {
        let key = before.entries@[i].0@;
        assert forall|q: Seq<char>| #[trigger] after@.contains_key(q) implies before@.contains_key(q)
            && q != key && after@[q] == before@[q] by {
            let j = choose|j: int|
                0 <= j < after.entries@.len() && (#[trigger] after.entries@[j]).0@ == q;
            after.lemma_entry(j);
            let k = if j < i {
                j
            } else {
                j + 1
            };
            assert(after.entries@[j] == before.entries@[k]);
            before.lemma_entry(k);
        }
        assert forall|q: Seq<char>| #[trigger]
            before@.contains_key(q) && q != key implies after@.contains_key(q) by {
            let j = choose|j: int|
                0 <= j < before.entries@.len() && (#[trigger] before.entries@[j]).0@ == q;
            let k = if j < i {
                j
            } else {
                j - 1
            };
            assert(after.entries@[k] == before.entries@[j]);
            after.lemma_entry(k);
        }
        assert(after@ =~= before@.remove(key));
    }

    /// Sets the value of `key`, and returns the value that it replaces.
    pub fn insert(&mut self, key: String, value: String) -> (r: Option<String>)
        ensures
            final(self)@ == old(self)@.insert(key@, value@),
            match r {
                Some(v) => old(self)@.contains_key(key@) && v@ == old(self)@[key@],
                None => !old(self)@.contains_key(key@),
            },
    {
        proof {
            use_type_invariant(&*self);
        }
        let ghost before = *self;
        let ghost entry = (key, value);
        let found = self.position(&key);
        let mut entries: Vec<Entry> = Vec::new();
        std::mem::swap(&mut entries, &mut self.entries);
        match found {
            Some(i) => {
                let previous = entries.remove(i);
                entries.insert(i, (key, value));
                assert(entries@ =~= before.entries@.update(i as int, entry));
                self.entries = entries;
                proof {
                    before.lemma_entry(i as int);
                    Self::lemma_set(before, *self, i as int, entry);
                }
                Some(previous.1)
            },
            None => {
                entries.push((key, value));
                self.entries = entries;
                proof {
                    Self::lemma_set(before, *self, before.entries@.len() as int, entry);
                }
                None
            },
        }
    }

    /// Whether `key` has a value.
    pub fn contains_key(&self, key: &str) -> (r: bool)
        ensures
            r == self@.contains_key(key@),
    {
        self.get(key).is_some()
    }

    /// Takes `key` out, and returns the value that it had.
    pub fn remove(&mut self, key: &str) -> (r: Option<String>)
        ensures
            final(self)@ == old(self)@.remove(key@),
            match r {
                Some(v) => old(self)@.contains_key(key@) && v@ == old(self)@[key@],
                None => !old(self)@.contains_key(key@),
            },
    {
        proof {
            use_type_invariant(&*self);
        }
        let ghost before = *self;
        match self.position(&key.to_owned()) {
            Some(i) => {
                let mut entries: Vec<Entry> = Vec::new();
                std::mem::swap(&mut entries, &mut self.entries);
                let previous = entries.remove(i);
                self.entries = entries;
                proof {
                    before.lemma_entry(i as int);
                    Self::lemma_unset(before, *self, i as int);
                }
                Some(previous.1)
            },
            None => {
                assert(self@ =~= before@.remove(key@));
                None
            },
        }
    }

    /// The number of keys.
    pub fn len(&self) -> (r: usize)
        ensures
            r == self@.len(),
            self@.dom().finite(),
    {
        proof {
            use_type_invariant(self);
            let keys = self.entries@.map_values(|entry: Entry| entry.0@);
            assert(keys.no_duplicates());
            keys.unique_seq_to_set();
            assert forall|key: Seq<char>| self@.contains_key(key) <==> keys.to_set().contains(key) by {
                if self@.contains_key(key) {
                    let j = choose|j: int|
                        0 <= j < self.entries@.len() && (#[trigger] self.entries@[j]).0@ == key;
                    assert(keys[j] == key);
                }
                if keys.to_set().contains(key) {
                    let j = choose|j: int| 0 <= j < keys.len() && keys[j] == key;
                    self.lemma_entry(j);
                }
            }
            assert(self@.dom() =~= keys.to_set());
        }
        self.entries.len()
    }

    /// The value of `key`.
    pub fn get(&self, key: &str) -> (r: Option<&String>)
        ensures
            match r {
                Some(v) => self@.contains_key(key@) && v@ == self@[key@],
                None => !self@.contains_key(key@),
            },
    {
        proof {
            use_type_invariant(self);
        }
        match self.position(&key.to_owned()) {
            Some(i) => {
                proof {
                    self.lemma_entry(i as int);
                }
                Some(&self.entries[i].1)
            },
            None => None,
        }
    }

    /// Whether there are no entries.
    pub fn is_empty(&self) -> (r: bool)
        ensures
            r == (self@ == Map::<Seq<char>, Seq<char>>::empty()),
    {
        proof {
            if self.entries@.len() == 0 {
                assert(self@ =~= Map::<Seq<char>, Seq<char>>::empty());
            } else {
                assert(has_key(self.entries@, self.entries@[0].0@));
                assert(self@.contains_key(self.entries@[0].0@));
            }
        }
        self.entries.len() == 0
    }

    /// The keys, each of them once.
    pub fn keys(&self) -> (r: Vec<String>)
        ensures
            forall|key: Seq<char>|
                self@.contains_key(key) <==> exists|i: int|
                    0 <= i < r@.len() && (#[trigger] r@[i])@ == key,
            forall|i: int, j: int| 0 <= i < j < r@.len() ==> r@[i]@ != r@[j]@,
    {
        proof {
            use_type_invariant(self);
        }
        let mut keys: Vec<String> = Vec::new();
        let mut i: usize = 0;
        while i < self.entries.len()
            invariant
                i <= self.entries@.len(),
                keys@.len() == i,
                forall|j: int| 0 <= j < i ==> keys@[j] == (#[trigger] self.entries@[j]).0,
            decreases self.entries@.len() - i,
        {
            keys.push(self.entries[i].0.clone());
            i = i + 1;
        }
        proof {
            assert forall|key: Seq<char>|
                self@.contains_key(key) <==> exists|i: int|
                    0 <= i < keys@.len() && (#[trigger] keys@[i])@ == key by {
                if self@.contains_key(key) {
                    let j = choose|j: int|
                        0 <= j < self.entries@.len() && (#[trigger] self.entries@[j]).0@ == key;
                    assert(keys@[j]@ == key);
                }
                if exists|i: int| 0 <= i < keys@.len() && (#[trigger] keys@[i])@ == key {
                    let j = choose|j: int| 0 <= j < keys@.len() && (#[trigger] keys@[j])@ == key;
                    self.lemma_entry(j);
                }
            }
            assert forall|i: int, j: int| 0 <= i < j < keys@.len() implies keys@[i]@
                != keys@[j]@ by {
                assert(self.entries@[i].0@ != self.entries@[j].0@);
            }
        }
        keys
    }

    /// Whether every entry is also one of `other`.
    fn is_included_in(&self, other: &Self) -> (r: bool)
        ensures
            r == self@.submap_of(other@),
    {
        proof {
            use_type_invariant(self);
            use_type_invariant(other);
        }
        let mut i: usize = 0;
        while i < self.entries.len()
            invariant
                keys_unique(self.entries@),
                keys_unique(other.entries@),
                i <= self.entries@.len(),
                forall|j: int|
                    0 <= j < i ==> other@.contains_key((#[trigger] self.entries@[j]).0@)
                        && other@[self.entries@[j].0@] == self.entries@[j].1@,
            decreases self.entries@.len() - i,
        {
            proof {
                self.lemma_entry(i as int);
            }
            match other.position(&self.entries[i].0) {
                Some(k) => {
                    proof {
                        other.lemma_entry(k as int);
                    }
                    if self.entries[i].1 != other.entries[k].1 {
                        return false;
                    }
                },
                None => {
                    assert(!other@.dom().contains(self.entries@[i as int].0@));
                    return false;
                },
            }
            i = i + 1;
        }
        assert forall|key: Seq<char>| self@.contains_key(key) implies other@.contains_key(key)
            && self@[key] == other@[key] by {
            let j = choose|j: int|
                0 <= j < self.entries@.len() && (#[trigger] self.entries@[j]).0@ == key;
            self.lemma_entry(j);
        }
        true
    }
}

impl Clone for Metadata {
    fn clone(&self) -> (r: Self)
        ensures
            r@ == self@,
    {
        proof {
            use_type_invariant(self);
        }
        let mut entries: Vec<Entry> = Vec::new();
        let mut i: usize = 0;
        while i < self.entries.len()
            invariant
                i <= self.entries@.len(),
                entries@ == self.entries@.take(i as int),
            decreases self.entries@.len() - i,
        {
            entries.push((self.entries[i].0.clone(), self.entries[i].1.clone()));
            i = i + 1;
        }
        assert(entries@ =~= self.entries@);
        Metadata { entries }
    }
}

impl PartialEqSpecImpl for Metadata {
    open spec fn obeys_eq_spec() -> bool {
        true
    }

    open spec fn eq_spec(&self, other: &Self) -> bool {
        self@ == other@
    }
}

impl PartialEq for Metadata {
    fn eq(&self, other: &Self) -> (r: bool) {
        let forth = self.is_included_in(other);
        let back = other.is_included_in(self);
        proof {
            if forth && back {
                assert(self@ =~= other@);
            }
        }
        forth && back
    }
}

impl Eq for Metadata {

}

/// A key that was set has the value that was set, and only that: looking it up gives the value,
/// whatever was there before, and what was there before is what setting it returned. Looking up
/// any other key gives what it gave before.
pub proof fn law_set_value_is_found(
    metadata: &mut Metadata,
    key: String,
    value: String,
    previous: Option<String>,
    asked: &str,
    before: Option<&String>,
    after: Option<&String>,
)
    requires
        call_ensures(Metadata::get, (&*old(metadata), asked), before),
        call_ensures(Metadata::insert, (metadata, key, value), previous),
        call_ensures(Metadata::get, (&*final(metadata), asked), after),
    ensures
        asked@ == key@ ==> (after matches Some(found) && found@ == value@),
        asked@ == key@ ==> before is Some == previous is Some,
        asked@ == key@ && before is Some && previous is Some ==> before->0@ == previous->0@,
        asked@ != key@ ==> before is Some == after is Some,
        asked@ != key@ && before is Some && after is Some ==> before->0@ == after->0@,
{
}

/// A key that was taken out has no value, and what it had is what taking it out returned.
/// Looking up any other key gives what it gave before.
pub proof fn law_removed_key_has_no_value(
    metadata: &mut Metadata,
    key: &str,
    previous: Option<String>,
    asked: &str,
    before: Option<&String>,
    after: Option<&String>,
)
    requires
        call_ensures(Metadata::get, (&*old(metadata), asked), before),
        call_ensures(Metadata::remove, (metadata, key), previous),
        call_ensures(Metadata::get, (&*final(metadata), asked), after),
    ensures
        asked@ == key@ ==> after is None,
        asked@ == key@ ==> before is Some == previous is Some,
        asked@ == key@ && before is Some && previous is Some ==> before->0@ == previous->0@,
        asked@ != key@ ==> before is Some == after is Some,
        asked@ != key@ && before is Some && after is Some ==> before->0@ == after->0@,
{
}

/// What is asked of the keys is answered in agreement: a key has a value exactly when looking it
/// up gives one, and exactly when it is among the keys, where it stands once; there are as many
/// keys as their number says, and none exactly when there are no entries.
pub proof fn law_keys_are_those_with_values(
    metadata: Metadata,
    asked: &str,
    found: Option<&String>,
    contained: bool,
    keys: Vec<String>,
    count: usize,
    empty: bool,
)
    requires
        call_ensures(Metadata::get, (&metadata, asked), found),
        call_ensures(Metadata::contains_key, (&metadata, asked), contained),
        call_ensures(Metadata::keys, (&metadata,), keys),
        call_ensures(Metadata::len, (&metadata,), count),
        call_ensures(Metadata::is_empty, (&metadata,), empty),
    ensures
        contained <==> found is Some,
        contained <==> exists|i: int| 0 <= i < keys@.len() && (#[trigger] keys@[i])@ == asked@,
        forall|i: int, j: int| 0 <= i < j < keys@.len() ==> keys@[i]@ != keys@[j]@,
        count == keys@.len(),
        empty <==> count == 0,
{
    let texts = keys@.map_values(|key: String| key@);
    assert(texts.no_duplicates());
    texts.unique_seq_to_set();
    assert forall|key: Seq<char>| metadata@.contains_key(key) <==> texts.to_set().contains(key) by {
        if metadata@.contains_key(key) {
            let i = choose|i: int| 0 <= i < keys@.len() && (#[trigger] keys@[i])@ == key;
            assert(texts[i] == key);
        }
        if texts.to_set().contains(key) {
            let i = choose|i: int| 0 <= i < texts.len() && texts[i] == key;
            assert(keys@[i]@ == key);
        }
    }
    assert(metadata@.dom() =~= texts.to_set());
    if count == 0 {
        assert(metadata@ =~= Map::<Seq<char>, Seq<char>>::empty());
    }
}

/// New metadata has no value for any key, and a clone has for every key what the original has.
pub proof fn law_clone_has_the_same_values(
    metadata: Metadata,
    copy: Metadata,
    fresh: Metadata,
    asked: &str,
    found: Option<&String>,
    found_in_copy: Option<&String>,
    found_in_fresh: Option<&String>,
)
    requires
        call_ensures(<Metadata as Clone>::clone, (&metadata,), copy),
        call_ensures(Metadata::new, (), fresh),
        call_ensures(Metadata::get, (&metadata, asked), found),
        call_ensures(Metadata::get, (&copy, asked), found_in_copy),
        call_ensures(Metadata::get, (&fresh, asked), found_in_fresh),
    ensures
        found is Some == found_in_copy is Some,
        found is Some && found_in_copy is Some ==> found->0@ == found_in_copy->0@,
        found_in_fresh is None,
{
}

/// Metadata compare as equal exactly when every key has the same value in both, or none in
/// either.
pub proof fn law_equal_metadata_have_equal_values(a: Metadata, b: Metadata, r: bool)
    requires
        call_ensures(<Metadata as PartialEq>::eq, (&a, &b), r),
    ensures
        r <==> (forall|key: Seq<char>| #[trigger]
            a@.contains_key(key) == b@.contains_key(key)) && (forall|key: Seq<char>| #[trigger]
            a@.contains_key(key) && b@.contains_key(key) ==> a@[key] == b@[key]),
{
    if (forall|key: Seq<char>| #[trigger] a@.contains_key(key) == b@.contains_key(key)) && (forall|
        key: Seq<char>,
    | #[trigger]
        a@.contains_key(key) && b@.contains_key(key) ==> a@[key] == b@[key]) {
        assert(a@ =~= b@);
    }
}

} // verus!
