//! The sections of a specification document.

use vstd::prelude::*;

use crate::event::Level;
use crate::text::str_eq;

verus! {

/// The keys of a sequence of entries, in order.
pub open spec fn keys_of<V>(s: Seq<(Seq<char>, V)>) -> Seq<Seq<char>> {
    s.map_values(|p: (Seq<char>, V)| p.0)
}

/// The first index of `k` in `keys`, or -1 where it does not occur.
pub open spec fn key_index(keys: Seq<Seq<char>>, k: Seq<char>) -> int
    decreases keys.len(),
{
    if keys.len() == 0 {
        -1
    } else if keys[0] == k {
        0
    } else {
        let i = key_index(keys.drop_first(), k);
        if i < 0 {
            -1
        } else {
            i + 1
        }
    }
}

/// Binds `k` to `v`: an entry with that key gets the new value in its place,
/// else the pair comes last.
pub open spec fn bind<V>(s: Seq<(Seq<char>, V)>, k: Seq<char>, v: V) -> Seq<(Seq<char>, V)> {
    let i = key_index(keys_of(s), k);
    if i >= 0 {
        s.update(i, (k, v))
    } else {
        s.push((k, v))
    }
}

pub proof fn lemma_key_index(keys: Seq<Seq<char>>, k: Seq<char>)
    ensures
        -1 <= key_index(keys, k) < keys.len(),
        key_index(keys, k) >= 0 ==> keys[key_index(keys, k)] == k,
        key_index(keys, k) >= 0 ==> forall|j: int| 0 <= j < key_index(keys, k) ==> keys[j] != k,
        key_index(keys, k) < 0 <==> forall|j: int| 0 <= j < keys.len() ==> keys[j] != k,
    decreases keys.len(),
{
    if keys.len() > 0 && keys[0] != k {
        lemma_key_index(keys.drop_first(), k);
        assert forall|j: int| 0 < j < keys.len() implies keys[j] == keys.drop_first()[j - 1] by {}
    }
}

/// Text values bound to keys, in the order in which the keys first came.
#[derive(Debug)]
pub struct Bindings {
    entries: Vec<(String, String)>,
}

impl View for Bindings {
    type V = Seq<(Seq<char>, Seq<char>)>;

    closed spec fn view(&self) -> Seq<(Seq<char>, Seq<char>)> {
        self.entries@.map_values(|p: (String, String)| (p.0@, p.1@))
    }
}

impl Bindings {
    pub fn new() -> (r: Bindings)
        ensures
            r@ == Seq::<(Seq<char>, Seq<char>)>::empty(),
    {
        let r = Bindings { entries: Vec::new() };
        assert(r@ =~= Seq::<(Seq<char>, Seq<char>)>::empty());
        r
    }

    /// The number of keys.
    pub fn len(&self) -> (r: usize)
        ensures
            r == self@.len(),
    {
        self.entries.len()
    }

    pub fn is_empty(&self) -> (r: bool)
        ensures
            r == (self@.len() == 0),
    {
        self.entries.len() == 0
    }

    /// The position of `key`, if it is bound.
    pub fn position(&self, key: &str) -> (r: Option<usize>)
        ensures
            match r {
                Some(i) => i < self@.len() && i == key_index(keys_of(self@), key@),
                None => key_index(keys_of(self@), key@) < 0,
            },
    {
        let ghost keys = keys_of(self@);
        let mut i: usize = 0;
        while i < self.entries.len()
            invariant
                keys == keys_of(self@),
                keys.len() == self.entries@.len(),
                i <= self.entries@.len(),
                key_index(keys, key@) < 0 || i <= key_index(keys, key@),
                forall|j: int| 0 <= j < i ==> keys[j] != key@,
            decreases self.entries@.len() - i,
        {
            proof {
                lemma_key_index(keys, key@);
            }
            assert(keys[i as int] == self.entries@[i as int].0@);
            if str_eq(self.entries[i].0.as_str(), key) {
                return Some(i);
            }
            i = i + 1;
        }
        proof {
            lemma_key_index(keys, key@);
        }
        None
    }

    /// Whether `key` is bound.
    pub fn contains_key(&self, key: &str) -> (r: bool)
        ensures
            r == (key_index(keys_of(self@), key@) >= 0),
    {
        self.position(key).is_some()
    }

    /// The value bound to `key`.
    pub fn get(&self, key: &str) -> (r: Option<&String>)
        ensures
            match r {
                Some(v) => key_index(keys_of(self@), key@) >= 0 && v@ == self@[key_index(
                    keys_of(self@),
                    key@,
                )].1,
                None => key_index(keys_of(self@), key@) < 0,
            },
    {
        match self.position(key) {
            Some(i) => Some(&self.entries[i].1),
            None => None,
        }
    }

    /// The key of the entry at `i`.
    pub fn key_at(&self, i: usize) -> (r: &String)
        requires
            i < self@.len(),
        ensures
            r@ == self@[i as int].0,
    {
        &self.entries[i].0
    }

    /// The value of the entry at `i`.
    pub fn value_at(&self, i: usize) -> (r: &String)
        requires
            i < self@.len(),
        ensures
            r@ == self@[i as int].1,
    {
        &self.entries[i].1
    }

    /// A copy of the bindings.
    pub fn copy(&self) -> (r: Bindings)
        ensures
            r@ == self@,
    {
        let mut entries: Vec<(String, String)> = Vec::new();
        let mut i: usize = 0;
        while i < self.entries.len()
            invariant
                i <= self.entries@.len(),
                entries@.len() == i,
                forall|j: int|
                    0 <= j < i ==> (#[trigger] entries@[j]).0@ == self.entries@[j].0@
                        && entries@[j].1@ == self.entries@[j].1@,
            decreases self.entries@.len() - i,
        {
            let k = self.entries[i].0.clone();
            let v = self.entries[i].1.clone();
            entries.push((k, v));
            i = i + 1;
        }
        let r = Bindings { entries };
        assert(r@ =~= self@);
        r
    }

    /// Binds `key` to `value`, replacing the value of an entry with that key.
    /// Returns the position of the entry.
    pub fn insert(&mut self, key: &str, value: String) -> (r: usize)
        ensures
            final(self)@ == bind(old(self)@, key@, value@),
            r == key_index(keys_of(final(self)@), key@),
            r < final(self)@.len(),
            key_index(keys_of(old(self)@), key@) >= 0 ==> r == key_index(keys_of(old(self)@), key@),
            key_index(keys_of(old(self)@), key@) < 0 ==> r == old(self)@.len(),
    {
        let ghost keys = keys_of(self@);
        proof {
            lemma_key_index(keys, key@);
        }
        match self.position(key) {
            Some(i) => {
                let k = self.entries[i].0.clone();
                self.entries.set(i, (k, value));
                assert(self@ =~= bind(old(self)@, key@, value@));
                assert(keys_of(self@) =~= keys);
                i
            },
            None => {
                self.entries.push((key.to_owned(), value));
                assert(self@ =~= bind(old(self)@, key@, value@));
                assert(keys_of(self@) =~= keys.push(key@));
                proof {
                    lemma_key_index(keys_of(self@), key@);
                    assert(keys_of(self@)[keys.len() as int] == key@);
                }
                self.entries.len() - 1
            },
        }
    }
}

/// A `Background` section: the values that it gives to keys.
#[derive(Debug)]
pub struct Background {
    pub level: Level,
    pub given: Bindings,
}

/// An `Example` section: its name, its inputs (`when`) and its recorded
/// outputs (`then_`).
#[derive(Debug)]
pub struct Example {
    pub level: Level,
    pub name: String,
    pub when: Bindings,
    pub then_: Bindings,
}

/// Any other section: it closes the backgrounds of its level and deeper.
#[derive(Debug)]
pub struct Raw {
    pub level: Level,
}

/// A section extracted from a document. An example comes with the index of
/// the token that holds each of its `then_` values, in the order of `then_`.
#[derive(Debug)]
pub enum Section {
    Background(Background),
    Example(Example, Vec<usize>),
    Raw(Raw),
}

} // verus!
