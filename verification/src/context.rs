//! The environment of one evaluation session: the global bindings and the
//! lines printed so far.

use vstd::prelude::*;
use vstd::string::*;
use crate::text::{same_text, texts};
use crate::value::{Value, ValueView};

verus! {

/// The value bound to `name` by the first entry that carries that name.
spec fn lookup(entries: Seq<(String, Value)>, name: Seq<char>) -> Option<ValueView>
    decreases entries.len(),
{
    if entries.len() == 0 {
        None
    } else if entries[0].0@ == name {
        Some(entries[0].1@)
    } else {
        lookup(entries.skip(1), name)
    }
}

/// Whether `i` is the first entry that carries `name`.
spec fn first_at(entries: Seq<(String, Value)>, name: Seq<char>, i: int) -> bool {
    &&& 0 <= i < entries.len()
    &&& entries[i].0@ == name
    &&& forall|j: int| 0 <= j < i ==> (#[trigger] entries[j]).0@ != name
}

/// Whether no entry carries `name`.
spec fn absent(entries: Seq<(String, Value)>, name: Seq<char>) -> bool {
    forall|j: int| 0 <= j < entries.len() ==> (#[trigger] entries[j]).0@ != name
}

/// Looking a name up finds the value of the first entry that carries it.
proof fn lemma_lookup_first(entries: Seq<(String, Value)>, name: Seq<char>, i: int)
    requires
        first_at(entries, name, i),
    ensures
        lookup(entries, name) == Some(entries[i].1@),
    decreases i,
{
    if i > 0 {
        let rest = entries.skip(1);
        assert(entries[0].0@ != name);
        assert(rest[i - 1] == entries[i]);
        assert forall|j: int| 0 <= j < i - 1 implies (#[trigger] rest[j]).0@ != name by {
            assert(rest[j] == entries[j + 1]);
        }
        lemma_lookup_first(rest, name, i - 1);
    }
}

/// Looking a name up finds nothing where no entry carries it.
proof fn lemma_lookup_absent(entries: Seq<(String, Value)>, name: Seq<char>)
    requires
        absent(entries, name),
    ensures
        lookup(entries, name) is None,
    decreases entries.len(),
{
    if entries.len() > 0 {
        let rest = entries.skip(1);
        assert(entries[0].0@ != name);
        assert forall|j: int| 0 <= j < rest.len() implies (#[trigger] rest[j]).0@ != name by {
            assert(rest[j] == entries[j + 1]);
        }
        lemma_lookup_absent(rest, name);
    }
}

/// Replacing the first entry of a name rebinds that name and no other.
proof fn lemma_lookup_update(
    entries: Seq<(String, Value)>,
    i: int,
    entry: (String, Value),
    key: Seq<char>,
)
    requires
        first_at(entries, entry.0@, i),
    ensures
        lookup(entries.update(i, entry), key) == (if key == entry.0@ {
            Some(entry.1@)
        } else {
            lookup(entries, key)
        }),
    decreases i,
{
    let after = entries.update(i, entry);
    if i == 0 {
        assert(after.skip(1) =~= entries.skip(1));
    } else {
        let rest = entries.skip(1);
        assert(entries[0].0@ != entry.0@);
        assert(after[0] == entries[0]);
        assert(after.skip(1) =~= rest.update(i - 1, entry));
        assert(rest[i - 1] == entries[i]);
        assert forall|j: int| 0 <= j < i - 1 implies (#[trigger] rest[j]).0@ != entry.0@ by {
            assert(rest[j] == entries[j + 1]);
        }
        lemma_lookup_update(rest, i - 1, entry, key);
    }
}

/// Appending an entry for a name that no entry carries binds that name and
/// no other.
proof fn lemma_lookup_push(entries: Seq<(String, Value)>, entry: (String, Value), key: Seq<char>)
    requires
        absent(entries, entry.0@),
    ensures
        lookup(entries.push(entry), key) == (if key == entry.0@ {
            Some(entry.1@)
        } else {
            lookup(entries, key)
        }),
    decreases entries.len(),
{
    let after = entries.push(entry);
    if entries.len() == 0 {
        assert(after.skip(1) =~= Seq::<(String, Value)>::empty());
        assert(lookup(after.skip(1), key) is None);
    } else {
        let rest = entries.skip(1);
        assert(entries[0].0@ != entry.0@);
        assert(after[0] == entries[0]);
        assert(after.skip(1) =~= rest.push(entry));
        assert forall|j: int| 0 <= j < rest.len() implies (#[trigger] rest[j]).0@ != entry.0@ by {
            assert(rest[j] == entries[j + 1]);
        }
        lemma_lookup_push(rest, entry, key);
    }
}

/// The global bindings: a finite map from names to values.
pub struct Globals {
    entries: Vec<(String, Value)>,
}

impl View for Globals {
    type V = Map<Seq<char>, ValueView>;

    closed spec fn view(&self) -> Map<Seq<char>, ValueView> {
        Map::new(
            |name: Seq<char>| lookup(self.entries@, name) is Some,
            |name: Seq<char>| lookup(self.entries@, name)->0,
        )
    }
}

impl Globals {
    /// No bindings.
    pub fn new() -> (r: Globals)
        ensures
            r@ == Map::<Seq<char>, ValueView>::empty(),
    {
        let r = Globals { entries: Vec::new() };
        assert(r@ =~= Map::<Seq<char>, ValueView>::empty());
        r
    }

    fn position(&self, name: &str) -> (r: Option<usize>)
        ensures
            match r {
                Some(i) => first_at(self.entries@, name@, i as int),
                None => absent(self.entries@, name@),
            },
    {
        let mut i: usize = 0;
        while i < self.entries.len()
            invariant
                i <= self.entries.len(),
                forall|j: int| 0 <= j < i ==> (#[trigger] self.entries@[j]).0@ != name@,
            decreases self.entries.len() - i,
        {
            if same_text(self.entries[i].0.as_str(), name) {
                return Some(i);
            }
            i += 1;
        }
        None
    }

    /// The value bound to `name`, if any.
    pub fn get(&self, name: &str) -> (r: Option<&Value>)
        ensures
            match r {
                Some(value) => self@.contains_key(name@) && self@[name@] == value@,
                None => !self@.contains_key(name@),
            },
    {
        match self.position(name) {
            Some(i) => {
                proof {
                    lemma_lookup_first(self.entries@, name@, i as int);
                }
                Some(&self.entries[i].1)
            },
            None => {
                proof {
                    lemma_lookup_absent(self.entries@, name@);
                }
                None
            },
        }
    }

    /// Binds `name` to `value`, replacing any earlier binding of that name.
    pub fn insert(&mut self, name: String, value: Value)
        ensures
            final(self)@ == old(self)@.insert(name@, value@),
    {
        let found = self.position(name.as_str());
        let entry = (name, value);
        let ghost before = self.entries@;
        match found {
            Some(i) => {
                self.entries.set(i, entry);
            },
            None => {
                self.entries.push(entry);
            },
        }
        proof {
            let bound = old(self)@.insert(entry.0@, entry.1@);
            assert forall|key: Seq<char>| #[trigger]
                final(self)@.contains_key(key) == bound.contains_key(key) && (bound.contains_key(key)
                    ==> final(self)@[key] == bound[key]) by {
                match found {
                    Some(i) => lemma_lookup_update(before, i as int, entry, key),
                    None => lemma_lookup_push(before, entry, key),
                }
            }
            assert(final(self)@ =~= bound);
        }
    }
}

/// The mathematical model of a [`Context`].
pub struct State {
    /// The value bound to each bound name.
    pub globals: Map<Seq<char>, ValueView>,
    /// The lines printed so far, oldest first.
    pub output: Seq<Seq<char>>,
}

/// The environment that evaluation reads and changes.
pub struct Context {
    /// The global bindings.
    pub globals: Globals,
    /// The lines that `print` has produced and nobody has taken yet.
    pub output: Vec<String>,
}

impl View for Context {
    type V = State;

    open spec fn view(&self) -> State {
        State { globals: self.globals@, output: texts(self.output@) }
    }
}

impl Context {
    /// An environment without bindings and without printed lines.
    pub fn new() -> (r: Context)
        ensures
            r@ == (State { globals: Map::empty(), output: Seq::empty() }),
    {
        let r = Context { globals: Globals::new(), output: Vec::new() };
        assert(texts(r.output@) =~= Seq::empty());
        r
    }

    /// Hands out the printed lines and leaves none behind.
    pub fn take_output(&mut self) -> (lines: Vec<String>)
        ensures
            texts(lines@) == old(self)@.output,
            final(self)@ == (State { globals: old(self)@.globals, output: Seq::empty() }),
    {
        let mut lines: Vec<String> = Vec::new();
        std::mem::swap(&mut lines, &mut self.output);
        assert(texts(self.output@) =~= Seq::empty());
        lines
    }
}

} // verus!
