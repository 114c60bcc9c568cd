//! Submitted form fields: names mapped to values, each name at most once.
use vstd::prelude::*;
use crate::text::{chars_eq, chars_of};

verus! {

/// The fields of a submitted form. Each name occurs once; inserting a name
/// again replaces its value.
pub struct FormFields {
    entries: Vec<(Vec<char>, String)>,
}

/// The names of `entries` are pairwise distinct.
pub open spec fn distinct_names(entries: Seq<(Vec<char>, String)>) -> bool {
    forall|i: int, j: int|
        0 <= i < entries.len() && 0 <= j < entries.len() && i != j ==> #[trigger] entries[i].0@
            != #[trigger] entries[j].0@
}

/// The value stored under `name`, or the empty string where there is none,
/// as `fields.get(name).cloned().unwrap_or_default()` gives it.
pub open spec fn field_value(m: Map<Seq<char>, Seq<char>>, name: Seq<char>) -> Seq<char> {
    if m.contains_key(name) {
        m[name]
    } else {
        Seq::empty()
    }
}

impl View for FormFields {
    type V = Map<Seq<char>, Seq<char>>;

    closed spec fn view(&self) -> Map<Seq<char>, Seq<char>> {
        Map::new(
            |k: Seq<char>| exists|i: int| 0 <= i < self.entries@.len() && self.entries@[i].0@ == k,
            |k: Seq<char>|
                self.entries@[choose|i: int|
                    0 <= i < self.entries@.len() && self.entries@[i].0@ == k].1@,
        )
    }
}

impl FormFields {
    #[verifier::type_invariant]
    spec fn names_distinct(self) -> bool {
        distinct_names(self.entries@)
    }

    /// The names of the fields, in the order in which they were first
    /// inserted.
    pub closed spec fn names(self) -> Seq<Seq<char>> {
        self.entries@.map_values(|e: (Vec<char>, String)| e.0@)
    }

    proof fn lemma_entry(self, i: int)
        requires
            distinct_names(self.entries@),
            0 <= i < self.entries@.len(),
        ensures
            self@.contains_key(self.entries@[i].0@),
            self@[self.entries@[i].0@] == self.entries@[i].1@,
    {
        let k = self.entries@[i].0@;
        assert(exists|j: int| 0 <= j < self.entries@.len() && self.entries@[j].0@ == k);
        let j = choose|j: int| 0 <= j < self.entries@.len() && self.entries@[j].0@ == k;
        assert(i == j);
    }

    /// The names are exactly the keys of the map.
    proof fn lemma_names(self)
        requires
            distinct_names(self.entries@),
        ensures
            forall|k: Seq<char>| self@.contains_key(k) <==> self.names().contains(k),
            self.names().no_duplicates(),
    {
        assert forall|k: Seq<char>| self@.contains_key(k) <==> self.names().contains(k) by {
            if self@.contains_key(k) {
                let i = choose|i: int| 0 <= i < self.entries@.len() && self.entries@[i].0@ == k;
                assert(self.names()[i] == k);
            }
            if self.names().contains(k) {
                let i = choose|i: int| 0 <= i < self.names().len() && self.names()[i] == k;
                assert(self.entries@[i].0@ == k);
            }
        }
        assert forall|i: int, j: int|
            0 <= i < self.names().len() && 0 <= j < self.names().len() && i != j implies self.names()[i]
            != self.names()[j] by {
            assert(self.names()[i] == self.entries@[i].0@);
            assert(self.names()[j] == self.entries@[j].0@);
        }
    }

    /// No fields.
    pub fn new() -> (r: FormFields)
        ensures
            r@ == Map::<Seq<char>, Seq<char>>::empty(),
    {
        let r = FormFields { entries: Vec::new() };
        assert(r@ =~= Map::<Seq<char>, Seq<char>>::empty());
        r
    }

    /// Position of the field `name`, if there is one.
    fn position(&self, name: &Vec<char>) -> (r: Option<usize>)
        ensures
            match r {
                Some(i) => i < self.entries@.len() && self.entries@[i as int].0@ == name@,
                None => forall|i: int|
                    0 <= i < self.entries@.len() ==> self.entries@[i].0@ != name@,
            },
    {
        let mut i: usize = 0;
        while i < self.entries.len()
            invariant
                i <= self.entries.len(),
                forall|j: int| 0 <= j < i ==> self.entries@[j].0@ != name@,
            decreases self.entries.len() - i,
        {
            if chars_eq(&self.entries[i].0, name) {
                return Some(i);
            }
            i += 1;
        }
        None
    }

    /// Sets the field `name` to `value`.
    pub fn insert(&mut self, name: String, value: String)
        ensures
            final(self)@ == old(self)@.insert(name@, value@),
            final(self).names() == (if old(self)@.contains_key(name@) {
                old(self).names()
            } else {
                old(self).names().push(name@)
            }),
    {
        proof {
            use_type_invariant(&*self);
        }
        let key = chars_of(name.as_str());
        let ghost old_entries = self.entries@;
        let found = self.position(&key);
        let mut entries: Vec<(Vec<char>, String)> = Vec::new();
        std::mem::swap(&mut entries, &mut self.entries);
        match found {
            Some(i) => {
                entries.set(i, (key, value));
                self.entries = entries;
                proof {
                    assert(self.entries@ == old_entries.update(i as int, (key, value)));
                    assert(self.names() =~= old(self).names());
                    assert(old(self)@.contains_key(name@)) by {
                        assert(old_entries[i as int].0@ == name@);
                    }
                    assert forall|k: Seq<char>|
                        #![auto]
                        final(self)@.contains_key(k) == old(self)@.insert(name@, value@).contains_key(
                            k,
                        ) by {
                        if old(self)@.contains_key(k) {
                            let j = choose|j: int|
                                0 <= j < old_entries.len() && old_entries[j].0@ == k;
                            assert(self.entries@[j].0@ == k);
                        }
                        if final(self)@.contains_key(k) && k != name@ {
                            let j = choose|j: int|
                                0 <= j < self.entries@.len() && self.entries@[j].0@ == k;
                            assert(old_entries[j].0@ == k);
                        }
                    }
                    assert forall|k: Seq<char>|
                        #![auto]
                        final(self)@.contains_key(k) implies final(self)@[k] == old(self)@.insert(
                            name@,
                            value@,
                        )[k] by {
                        let j = choose|j: int|
                            0 <= j < self.entries@.len() && self.entries@[j].0@ == k;
                        self.lemma_entry(j);
                        if j != i {
                            old(self).lemma_entry(j);
                        }
                    }
                    assert(final(self)@ =~= old(self)@.insert(name@, value@));
                }
            },
            None => {
                entries.push((key, value));
                proof {
                    assert(distinct_names(entries@)) by {
                        assert forall|a: int, b: int|
                            0 <= a < entries@.len() && 0 <= b < entries@.len() && a != b implies #[trigger] entries@[a].0@
                                != #[trigger] entries@[b].0@ by {
                            assert(entries@[old_entries.len() as int].0@ == name@);
                        }
                    }
                }
                self.entries = entries;
                proof {
                    let n = old_entries.len() as int;
                    assert(self.entries@ == old_entries.push((key, value)));
                    assert(self.names() =~= old(self).names().push(name@));
                    assert(!old(self)@.contains_key(name@));
                    assert forall|k: Seq<char>|
                        #![auto]
                        final(self)@.contains_key(k) == old(self)@.insert(name@, value@).contains_key(
                            k,
                        ) by {
                        if old(self)@.contains_key(k) {
                            let j = choose|j: int|
                                0 <= j < old_entries.len() && old_entries[j].0@ == k;
                            assert(self.entries@[j].0@ == k);
                        }
                        if k == name@ {
                            assert(self.entries@[n].0@ == k);
                        }
                        if final(self)@.contains_key(k) && k != name@ {
                            let j = choose|j: int|
                                0 <= j < self.entries@.len() && self.entries@[j].0@ == k;
                            assert(old_entries[j].0@ == k);
                        }
                    }
                    assert forall|k: Seq<char>|
                        #![auto]
                        final(self)@.contains_key(k) implies final(self)@[k] == old(self)@.insert(
                            name@,
                            value@,
                        )[k] by {
                        let j = choose|j: int|
                            0 <= j < self.entries@.len() && self.entries@[j].0@ == k;
                        self.lemma_entry(j);
                        if j != n {
                            old(self).lemma_entry(j);
                        }
                    }
                    assert(final(self)@ =~= old(self)@.insert(name@, value@));
                }
            },
        }
    }

    /// Whether a field `name` was submitted.
    pub fn contains_key(&self, name: &str) -> (r: bool)
        ensures
            r == self@.contains_key(name@),
    {
        proof {
            use_type_invariant(self);
        }
        let key = chars_of(name);
        match self.position(&key) {
            Some(i) => {
                proof {
                    self.lemma_entry(i as int);
                }
                true
            },
            None => {
                assert(!self@.contains_key(name@));
                false
            },
        }
    }

    /// The value of the field `name`, or the empty string where there is none.
    pub fn field(&self, name: &Vec<char>) -> (r: String)
        ensures
            r@ == field_value(self@, name@),
    {
        proof {
            use_type_invariant(self);
        }
        match self.position(name) {
            Some(i) => {
                proof {
                    self.lemma_entry(i as int);
                }
                self.entries[i].1.clone()
            },
            None => {
                assert(!self@.contains_key(name@));
                String::new()
            },
        }
    }

    /// The name of the `i`-th field.
    pub fn name_at(&self, i: usize) -> (r: Vec<char>)
        requires
            i < self.names().len(),
        ensures
            r@ == self.names()[i as int],
    {
        let mut r: Vec<char> = Vec::new();
        let src = &self.entries[i].0;
        let mut j: usize = 0;
        while j < src.len()
            invariant
                j <= src.len(),
                r@ == src@.take(j as int),
            decreases src.len() - j,
        {
            r.push(src[j]);
            assert(src@.take(j + 1) =~= src@.take(j as int).push(src@[j as int]));
            j += 1;
        }
        assert(src@.take(src.len() as int) =~= src@);
        r
    }

    /// How many fields there are; the names are exactly the map's keys.
    pub fn len(&self) -> (r: usize)
        ensures
            r == self.names().len(),
            forall|k: Seq<char>| self@.contains_key(k) <==> self.names().contains(k),
            self.names().no_duplicates(),
    {
        proof {
            use_type_invariant(self);
            self.lemma_names();
        }
        self.entries.len()
    }
}

} // verus!
