//! The result of a parse: a map from argument names to values.

use vstd::prelude::*;
use vstd::seq_lib::seq_to_set_is_finite;
use crate::value::{Value, ValueView};

verus! {

/// One binding of a result.
#[derive(Debug)]
struct Entry {
    name: String,
    value: Value,
}

/// The values that one parse produced, by argument name.
///
/// No name occurs twice: binding a name again replaces its value.
#[derive(Debug)]
pub struct ParseResult {
    entries: Vec<Entry>,
}

/// In a sequence without duplicates an element is found where it stands.
pub proof fn lemma_index_of_unique<A>(keys: Seq<A>, i: int)
    requires
        keys.no_duplicates(),
        0 <= i < keys.len(),
    ensures
        keys.contains(keys[i]),
        keys.index_of(keys[i]) == i,
{
    let j = keys.index_of(keys[i]);
    assert(0 <= j < keys.len() && keys[j] == keys[i]);
}

/// The names of the entries, in order.
spec fn keys_of(entries: Seq<Entry>) -> Seq<Seq<char>> {
    Seq::new(entries.len(), |i: int| entries[i].name@)
}

/// The map that entries with distinct names stand for.
spec fn map_of(entries: Seq<Entry>) -> Map<Seq<char>, ValueView> {
    Map::new(
        |k: Seq<char>| keys_of(entries).contains(k),
        |k: Seq<char>| entries[keys_of(entries).index_of(k)].value@,
    )
}

/// Where the entry named `name` stands, if there is one.
fn position(entries: &Vec<Entry>, name: &String) -> (r: Option<usize>)
    requires
        keys_of(entries@).no_duplicates(),
    ensures
        match r {
            Some(i) => i < entries@.len() && entries@[i as int].name@ == name@ && keys_of(entries@).index_of(name@)
                == i && keys_of(entries@).contains(name@),
            None => !keys_of(entries@).contains(name@),
        },
{
    let mut i: usize = 0;
    while i < entries.len()
        invariant
            keys_of(entries@).no_duplicates(),
            i <= entries@.len(),
            forall|j: int| 0 <= j < i ==> entries@[j].name@ != name@,
        decreases entries@.len() - i,
    {
        if entries[i].name == *name {
            proof {
                assert(keys_of(entries@)[i as int] == name@);
                lemma_index_of_unique(keys_of(entries@), i as int);
            }
            return Some(i);
        }
        i = i + 1;
    }
    None
}

/// Adding an entry under a new name, or putting one in the place of the
/// entry of the same name, binds the name and leaves the others alone.
proof fn lemma_bound(before: Seq<Entry>, after: Seq<Entry>, entry: Entry)
    requires
        keys_of(before).no_duplicates(),
        if keys_of(before).contains(entry.name@) {
            after == before.update(keys_of(before).index_of(entry.name@), entry)
        } else {
            after == before.push(entry)
        },
    ensures
        keys_of(after).no_duplicates(),
        map_of(after) == map_of(before).insert(entry.name@, entry.value@),
{
    let old_keys = keys_of(before);
    let new_keys = keys_of(after);
    let n = before.len() as int;
    if old_keys.contains(entry.name@) {
        let i = old_keys.index_of(entry.name@);
        assert(0 <= i < n && old_keys[i] == entry.name@);
        assert(new_keys =~= old_keys);
        assert forall|k: Seq<char>| new_keys.contains(k) && k != entry.name@ implies after[new_keys.index_of(k)].value@
            == before[old_keys.index_of(k)].value@ by {
            let j = new_keys.index_of(k);
            assert(0 <= j < new_keys.len() && new_keys[j] == k);
        }
        assert(map_of(after) =~= map_of(before).insert(entry.name@, entry.value@));
    } else {
        assert(new_keys =~= old_keys.push(entry.name@));
        assert(new_keys[n] == entry.name@);
        assert forall|a: int, b: int| 0 <= a < new_keys.len() && 0 <= b < new_keys.len() && a != b implies new_keys[a]
            != new_keys[b] by {
            if a < n && b < n {
                assert(old_keys[a] != old_keys[b]);
            } else if a < n {
                assert(old_keys[a] == new_keys[a]);
            } else {
                assert(old_keys[b] == new_keys[b]);
            }
        }
        lemma_index_of_unique(new_keys, n);
        assert forall|k: Seq<char>| old_keys.contains(k) implies new_keys.contains(k) && new_keys.index_of(k)
            == old_keys.index_of(k) by {
            let j = old_keys.index_of(k);
            assert(0 <= j < n && old_keys[j] == k);
            assert(new_keys[j] == k);
            lemma_index_of_unique(new_keys, j);
        }
        assert forall|k: Seq<char>| new_keys.contains(k) && k != entry.name@ implies old_keys.contains(k) by {
            let j = new_keys.index_of(k);
            assert(0 <= j < new_keys.len() && new_keys[j] == k);
            assert(old_keys[j] == k);
        }
        assert(map_of(after) =~= map_of(before).insert(entry.name@, entry.value@));
    }
}

/// Taking the entry at `gone` out unbinds its name and leaves the others alone.
proof fn lemma_unbound(before: Seq<Entry>, after: Seq<Entry>, gone: int)
    requires
        keys_of(before).no_duplicates(),
        0 <= gone < before.len(),
        after == before.remove(gone),
    ensures
        keys_of(after).no_duplicates(),
        map_of(after) == map_of(before).remove(before[gone].name@),
{
    let old_keys = keys_of(before);
    let new_keys = keys_of(after);
    let name = before[gone].name@;
    assert(new_keys =~= old_keys.remove(gone));
    assert(old_keys[gone] == name);
    assert forall|a: int, b: int| 0 <= a < new_keys.len() && 0 <= b < new_keys.len() && a != b implies new_keys[a]
        != new_keys[b] by {
        let a0 = if a < gone { a } else { a + 1 };
        let b0 = if b < gone { b } else { b + 1 };
        assert(old_keys[a0] != old_keys[b0]);
    }
    assert forall|k: Seq<char>| old_keys.contains(k) && k != name implies new_keys.contains(k)
        && after[new_keys.index_of(k)].value@ == before[old_keys.index_of(k)].value@ by {
        let j = old_keys.index_of(k);
        assert(0 <= j < old_keys.len() && old_keys[j] == k);
        let j1 = if j < gone { j } else { j - 1 };
        assert(new_keys[j1] == k);
        lemma_index_of_unique(new_keys, j1);
    }
    assert forall|k: Seq<char>| new_keys.contains(k) implies old_keys.contains(k) && k != name by {
        let j = new_keys.index_of(k);
        assert(0 <= j < new_keys.len() && new_keys[j] == k);
        let j0 = if j < gone { j } else { j + 1 };
        assert(old_keys[j0] == k);
    }
    assert(map_of(after) =~= map_of(before).remove(name));
}

impl View for ParseResult {
    type V = Map<Seq<char>, ValueView>;

    closed spec fn view(&self) -> Map<Seq<char>, ValueView> {
        map_of(self.entries@)
    }
}

impl ParseResult {
    /// The invariant: no name is bound twice.
    #[verifier::type_invariant]
    spec fn distinct(self) -> bool {
        keys_of(self.entries@).no_duplicates()
    }

    /// A result without any binding.
    pub fn new() -> (r: ParseResult)
        ensures
            r@ == Map::<Seq<char>, ValueView>::empty(),
    {
        let r = ParseResult { entries: Vec::new() };
        assert(keys_of(r.entries@) =~= Seq::<Seq<char>>::empty());
        assert(r@ =~= Map::<Seq<char>, ValueView>::empty());
        r
    }

    /// How many names are bound.
    pub fn len(&self) -> (r: usize)
        ensures
            self@.dom().finite(),
            r == self@.dom().len(),
    {
        proof {
            use_type_invariant(self);
            let keys = keys_of(self.entries@);
            assert(self@.dom() =~= keys.to_set());
            seq_to_set_is_finite(keys);
            keys.unique_seq_to_set();
        }
        self.entries.len()
    }

    /// Whether `name` is bound.
    pub fn contains_key(&self, name: &str) -> (r: bool)
        ensures
            r == self@.contains_key(name@),
    {
        proof {
            use_type_invariant(self);
        }
        let key = name.to_owned();
        position(&self.entries, &key).is_some()
    }

    /// The value bound to `name`, if there is one.
    pub fn get(&self, name: &str) -> (r: Option<&Value>)
        ensures
            match r {
                Some(v) => self@.contains_key(name@) && v@ == self@[name@],
                None => !self@.contains_key(name@),
            },
    {
        proof {
            use_type_invariant(self);
        }
        let key = name.to_owned();
        match position(&self.entries, &key) {
            Some(i) => Some(&self.entries[i].value),
            None => None,
        }
    }

    /// Binds `name` to `value`, in place of the value it had, if any.
    pub fn insert(&mut self, name: String, value: Value)
        ensures
            final(self)@ == old(self)@.insert(name@, value@),
    {
        proof {
            use_type_invariant(&*self);
        }
        let mut entries: Vec<Entry> = Vec::new();
        std::mem::swap(&mut entries, &mut self.entries);
        let ghost before = entries@;
        let found = position(&entries, &name);
        let entry = Entry { name, value };
        match found {
            Some(i) => {
                entries[i] = entry;
            },
            None => {
                entries.push(entry);
            },
        }
        proof {
            lemma_bound(before, entries@, entry);
        }
        self.entries = entries;
    }

    /// Takes the value bound to `name` out of the result, if there is one.
    pub fn remove(&mut self, name: &str) -> (r: Option<Value>)
        ensures
            final(self)@ == old(self)@.remove(name@),
            match r {
                Some(v) => old(self)@.contains_key(name@) && v@ == old(self)@[name@],
                None => !old(self)@.contains_key(name@),
            },
    {
        proof {
            use_type_invariant(&*self);
        }
        let mut entries: Vec<Entry> = Vec::new();
        std::mem::swap(&mut entries, &mut self.entries);
        let ghost before = entries@;
        let key = name.to_owned();
        let r = match position(&entries, &key) {
            Some(i) => {
                let entry = entries.remove(i);
                proof {
                    lemma_unbound(before, entries@, i as int);
                }
                Some(entry.value)
            },
            None => {
                proof {
                    assert(map_of(before) =~= map_of(before).remove(name@));
                }
                None
            },
        };
        self.entries = entries;
        r
    }
}

} // verus!
