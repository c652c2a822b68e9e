//! The variables of a process, as a table.
//!
//! A variable has a name, which is text, and a value, which is any string of
//! bytes. A table holds each name at most once.

use crate::text::{opt_bytes, same_text, text_of};
use vstd::prelude::*;
use vstd::slice::slice_to_vec;
use vstd::utf8::*;

verus! {

/// What `vars` holds under `name`, if the variable is set.
pub open spec fn lookup(vars: Map<Seq<char>, Seq<u8>>, name: Seq<char>) -> Option<Seq<u8>> {
    if vars.contains_key(name) {
        Some(vars[name])
    } else {
        None
    }
}

/// Why a variable could not be read as text.
#[derive(Debug, PartialEq, Eq)]
pub enum VarError {
    /// The variable is not set.
    NotPresent,
    /// The variable is set to these bytes, which are not valid UTF-8.
    NotUnicode(Vec<u8>),
}

/// One change to a table of variables.
#[derive(Debug, PartialEq, Eq)]
pub enum Change {
    /// Unset the variable of this name.
    Unset(String),
    /// Give the variable of this name this value, whatever it held.
    Assign(String, Vec<u8>),
}

impl Change {
    /// The table `vars` after this change.
    pub open spec fn applied(self, vars: Map<Seq<char>, Seq<u8>>) -> Map<Seq<char>, Seq<u8>> {
        match self {
            Change::Unset(name) => vars.remove(name@),
            Change::Assign(name, value) => vars.insert(name@, value@),
        }
    }
}

/// The table after `changes`, made one after the other from the first on.
pub open spec fn applied_all(changes: Seq<Change>, vars: Map<Seq<char>, Seq<u8>>) -> Map<
    Seq<char>,
    Seq<u8>,
>
    decreases changes.len(),
{
    if changes.len() == 0 {
        vars
    } else {
        changes.last().applied(applied_all(changes.drop_last(), vars))
    }
}

struct Entry {
    name: String,
    value: Vec<u8>,
}

/// Whether no two of `entries` share a name.
spec fn distinct_names(entries: Seq<Entry>) -> bool {
    forall|i: int, j: int|
        0 <= i < j < entries.len() ==> (#[trigger] entries[i]).name@ != (#[trigger] entries[j]).name@
}

/// Whether one of `entries` has the name `name`.
spec fn names(entries: Seq<Entry>, name: Seq<char>) -> bool {
    exists|i: int| 0 <= i < entries.len() && (#[trigger] entries[i]).name@ == name
}

/// The place of an entry named `name`, where there is one.
spec fn place(entries: Seq<Entry>, name: Seq<char>) -> int {
    choose|i: int| 0 <= i < entries.len() && (#[trigger] entries[i]).name@ == name
}

/// The table that `entries` stand for.
spec fn table_of(entries: Seq<Entry>) -> Map<Seq<char>, Seq<u8>> {
    Map::new(
        |name: Seq<char>| names(entries, name),
        |name: Seq<char>| entries[place(entries, name)].value@,
    )
}

/// Each entry of a list without repeated names is what the table holds
/// under its name.
proof fn lemma_entry_in_table(entries: Seq<Entry>, i: int)
    requires
        distinct_names(entries),
        0 <= i < entries.len(),
    ensures
        lookup(table_of(entries), entries[i].name@) == Some(entries[i].value@),
{
    let name = entries[i].name@;
    assert(names(entries, name));
    let at = place(entries, name);
    assert(at == i) by {
        if at < i {
            assert(entries[at].name@ != entries[i].name@);
        } else if i < at {
            assert(entries[i].name@ != entries[at].name@);
        }
    }
}

/// What a list of entries stands for once `name` has been given `value`,
/// in the place it had or at the end.
proof fn lemma_table_after_set(
    before: Seq<Entry>,
    after: Seq<Entry>,
    name: Seq<char>,
    value: Seq<u8>,
)
    requires
        distinct_names(before),
        ({
            ||| exists|i: int|
                0 <= i < before.len() && before[i].name@ == name && after.len() == before.len()
                    && after[i].name@ == name && after[i].value@ == value && forall|j: int|
                    0 <= j < before.len() && j != i ==> after[j] == before[j]
            ||| !names(before, name) && after.len() == before.len() + 1 && after.last().name@
                == name && after.last().value@ == value && forall|j: int|
                0 <= j < before.len() ==> after[j] == before[j]
        }),
    ensures
        distinct_names(after),
        table_of(after) == table_of(before).insert(name, value),
{
    assert(distinct_names(after)) by {
        assert forall|i: int, j: int| 0 <= i < j < after.len() implies (#[trigger] after[i]).name@
            != (#[trigger] after[j]).name@ by {
            if i < before.len() && before[i].name@ != after[i].name@ {
            }
            if j < before.len() {
                assert(before[i].name@ != before[j].name@);
            }
        }
    }
    assert forall|key: Seq<char>| #![auto]
        lookup(table_of(after), key) == lookup(table_of(before).insert(name, value), key) by {
        if names(after, key) {
            let j = place(after, key);
            lemma_entry_in_table(after, j);
            if key != name {
                assert(before[j].name@ == key);
                lemma_entry_in_table(before, j);
            }
        } else if names(before, key) {
            let j = place(before, key);
            assert(after[j].name@ == key);
        }
    }
    assert(table_of(after) =~= table_of(before).insert(name, value)) by {
        assert forall|key: Seq<char>|
            table_of(after).contains_key(key) == table_of(before).insert(
                name,
                value,
            ).contains_key(key) by {
            assert(lookup(table_of(after), key) == lookup(
                table_of(before).insert(name, value),
                key,
            ));
        }
        assert forall|key: Seq<char>| table_of(after).contains_key(key) implies table_of(
            after,
        )[key] == table_of(before).insert(name, value)[key] by {
            assert(lookup(table_of(after), key) == lookup(
                table_of(before).insert(name, value),
                key,
            ));
        }
    }
}

/// What a list of entries stands for once the entry at `i` has been taken
/// out.
proof fn lemma_table_after_remove(before: Seq<Entry>, i: int)
    requires
        distinct_names(before),
        0 <= i < before.len(),
    ensures
        distinct_names(before.remove(i)),
        table_of(before.remove(i)) == table_of(before).remove(before[i].name@),
{
    let after = before.remove(i);
    let name = before[i].name@;
    assert forall|key: Seq<char>| #![auto]
        lookup(table_of(after), key) == lookup(table_of(before).remove(name), key) by {
        if names(after, key) {
            let j = place(after, key);
            lemma_entry_in_table(after, j);
            let k = if j < i {
                j
            } else {
                j + 1
            };
            assert(before[k] == after[j]);
            lemma_entry_in_table(before, k);
            if k < i {
                assert(before[k].name@ != before[i].name@);
            } else {
                assert(before[i].name@ != before[k].name@);
            }
        } else if names(before, key) && key != name {
            let k = place(before, key);
            let j = if k < i {
                k
            } else {
                k - 1
            };
            assert(after[j].name@ == key);
        }
    }
    assert(table_of(after) =~= table_of(before).remove(name)) by {
        assert forall|key: Seq<char>|
            table_of(after).contains_key(key) == table_of(before).remove(name).contains_key(
                key,
            ) by {
            assert(lookup(table_of(after), key) == lookup(table_of(before).remove(name), key));
        }
        assert forall|key: Seq<char>| table_of(after).contains_key(key) implies table_of(
            after,
        )[key] == table_of(before).remove(name)[key] by {
            assert(lookup(table_of(after), key) == lookup(table_of(before).remove(name), key));
        }
    }
}

/// A table of variables: the environment of a process, held as a value.
pub struct EnvTable {
    entries: Vec<Entry>,
}

impl View for EnvTable {
    type V = Map<Seq<char>, Seq<u8>>;

    /// The value of each variable that is set, by its name.
    closed spec fn view(&self) -> Map<Seq<char>, Seq<u8>> {
        table_of(self.entries@)
    }
}

impl EnvTable {
    #[verifier::type_invariant]
    spec fn well_formed(self) -> bool {
        distinct_names(self.entries@)
    }

    /// A table in which no variable is set.
    pub fn new() -> (vars: EnvTable)
        ensures
            vars@ == Map::<Seq<char>, Seq<u8>>::empty(),
    {
        let vars = EnvTable { entries: Vec::new() };
        assert(vars@ =~= Map::<Seq<char>, Seq<u8>>::empty());
        vars
    }

    /// The place of the variable `name` among the entries.
    fn position(&self, name: &str) -> (at: Option<usize>)
        ensures
            match at {
                Some(i) => i < self.entries@.len() && self.entries@[i as int].name@ == name@,
                None => !names(self.entries@, name@),
            },
    {
        let mut i: usize = 0;
        while i < self.entries.len()
            invariant
                i <= self.entries@.len(),
                forall|j: int| 0 <= j < i ==> (#[trigger] self.entries@[j]).name@ != name@,
            decreases self.entries@.len() - i,
        {
            if same_text(self.entries[i].name.as_str(), name) {
                return Some(i);
            }
            i += 1;
        }
        None
    }

    /// The raw value of the variable `name`, if it is set.
    pub fn var_os(&self, name: &str) -> (value: Option<Vec<u8>>)
        ensures
            opt_bytes(value) == lookup(self@, name@),
    {
        proof {
            use_type_invariant(self);
        }
        match self.position(name) {
            Some(i) => {
                proof {
                    lemma_entry_in_table(self.entries@, i as int);
                }
                Some(slice_to_vec(self.entries[i].value.as_slice()))
            },
            None => None,
        }
    }

    /// The variable `name` as text.
    pub fn var(&self, name: &str) -> (read: Result<String, VarError>)
        ensures
            match read {
                Ok(text) => {
                    &&& self@.contains_key(name@)
                    &&& valid_utf8(self@[name@])
                    &&& text@ == decode_utf8(self@[name@])
                },
                Err(VarError::NotPresent) => !self@.contains_key(name@),
                Err(VarError::NotUnicode(bytes)) => {
                    &&& self@.contains_key(name@)
                    &&& !valid_utf8(self@[name@])
                    &&& bytes@ == self@[name@]
                },
            },
    {
        match self.var_os(name) {
            Some(bytes) => match text_of(bytes.as_slice()) {
                Some(text) => {
                    proof {
                        encode_utf8_decode_utf8(text@);
                    }
                    Ok(text.to_owned())
                },
                None => Err(VarError::NotUnicode(bytes)),
            },
            None => Err(VarError::NotPresent),
        }
    }

    /// Sets the variable `name` to `value`, whether or not it was set.
    pub fn set_var(&mut self, name: &str, value: &[u8])
        ensures
            final(self)@ == old(self)@.insert(name@, value@),
    {
        proof {
            use_type_invariant(&*self);
        }
        let entry = Entry { name: name.to_owned(), value: slice_to_vec(value) };
        let found = self.position(name);
        let mut entries: Vec<Entry> = Vec::new();
        core::mem::swap(&mut entries, &mut self.entries);
        match found {
            Some(i) => {
                entries.set(i, entry);
            },
            None => {
                entries.push(entry);
            },
        }
        proof {
            lemma_table_after_set(old(self).entries@, entries@, name@, value@);
        }
        self.entries = entries;
    }

    /// Unsets the variable `name`, whether or not it was set.
    pub fn remove_var(&mut self, name: &str)
        ensures
            final(self)@ == old(self)@.remove(name@),
    {
        proof {
            use_type_invariant(&*self);
        }
        match self.position(name) {
            Some(i) => {
                let mut entries: Vec<Entry> = Vec::new();
                core::mem::swap(&mut entries, &mut self.entries);
                entries.remove(i);
                proof {
                    lemma_table_after_remove(old(self).entries@, i as int);
                }
                self.entries = entries;
            },
            None => {
                assert(self@ =~= old(self)@.remove(name@));
            },
        }
    }

    /// Makes one change to the table.
    pub fn apply(&mut self, change: &Change)
        ensures
            final(self)@ == change.applied(old(self)@),
    {
        match change {
            Change::Unset(name) => self.remove_var(name.as_str()),
            Change::Assign(name, value) => self.set_var(name.as_str(), value.as_slice()),
        }
    }
}

} // verus!
