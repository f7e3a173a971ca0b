use vstd::prelude::*;

use crate::value::FieldType;

verus! {

/// The layout of one event: its name and its fields, in declaration order.
#[derive(Debug)]
pub struct EventSchema {
    pub name: String,
    pub fields: Vec<(String, FieldType)>,
}

/// Event layouts, looked up by event name. Names are unique.
#[derive(Debug)]
pub struct SchemaRegistry {
    entries: Vec<EventSchema>,
}

impl SchemaRegistry {
    /// Names are unique.
    #[verifier::type_invariant]
    closed spec fn wf(&self) -> bool {
        forall|i: int, j: int|
            0 <= i < j < self.entries@.len() ==> self.entries@[i].name@ != self.entries@[j].name@
    }

    /// The layout registered under `name`, if any.
    pub closed spec fn lookup(&self, name: Seq<char>) -> Option<EventSchema> {
        if exists|i: int| 0 <= i < self.entries@.len() && self.entries@[i].name@ == name {
            let i = choose|i: int| 0 <= i < self.entries@.len() && self.entries@[i].name@ == name;
            Some(self.entries@[i])
        } else {
            None
        }
    }

    /// Number of registered events.
    pub closed spec fn size(&self) -> nat {
        self.entries@.len()
    }

    /// An empty registry.
    pub fn new() -> (r: Self)
        ensures
            r.size() == 0,
            forall|n: Seq<char>| #[trigger] r.lookup(n) is None,
    {
        SchemaRegistry { entries: Vec::new() }
    }

    /// Number of registered events.
    pub fn len(&self) -> (r: usize)
        ensures
            r == self.size(),
    {
        self.entries.len()
    }

    /// The layout registered under `name`.
    pub fn get(&self, name: &String) -> (r: Option<&EventSchema>)
        ensures
            r is None <==> self.lookup(name@) is None,
            r matches Some(e) ==> self.lookup(name@) == Some(*e),
    {
        proof {
            use_type_invariant(self);
        }
        let mut i: usize = 0;
        while i < self.entries.len()
            invariant
                self.wf(),
                i <= self.entries@.len(),
                forall|j: int| 0 <= j < i ==> self.entries@[j].name@ != name@,
            decreases self.entries@.len() - i,
        {
            if self.entries[i].name == *name {
                assert(self.entries@[i as int].name@ == name@);
                proof {
                    let j = choose|j: int|
                        0 <= j < self.entries@.len() && self.entries@[j].name@ == name@;
                    assert(self.entries@[i as int].name@ == name@);
                    if j < i {
                        assert(self.entries@[j].name@ != self.entries@[i as int].name@);
                    } else if j > i {
                        assert(self.entries@[i as int].name@ != self.entries@[j].name@);
                    }
                }
                return Some(&self.entries[i]);
            }
            i = i + 1;
        }
        None
    }

    /// Registers `schema` unless an event of its name is registered already;
    /// returns whether it was added.
    pub fn insert(&mut self, schema: EventSchema) -> (added: bool)
        ensures
            added == old(self).lookup(schema.name@) is None,
            added ==> final(self).size() == old(self).size() + 1,
            !added ==> final(self).size() == old(self).size(),
            forall|n: Seq<char>| #[trigger]
                final(self).lookup(n) == if added && n == schema.name@ {
                    Some(schema)
                } else {
                    old(self).lookup(n)
                },
    {
        if self.get(&schema.name).is_some() {
            return false;
        }
        proof {
            use_type_invariant(&*self);
        }
        let ghost before = self.entries@;
        let ghost sname = schema.name@;
        let ghost sch = schema;
        let mut entries: Vec<EventSchema> = Vec::new();
        std::mem::swap(&mut entries, &mut self.entries);
        entries.push(schema);
        assert forall|i: int, j: int|
            0 <= i < j < entries@.len() implies entries@[i].name@ != entries@[j].name@ by {
            if j == before.len() {
                assert(old(self).lookup(sname) is None);
                assert(!(0 <= i < before.len() && before[i].name@ == sname));
            }
        }
        self.entries = entries;
        assert forall|n: Seq<char>| #[trigger]
            self.lookup(n) == if n == sname {
                Some(sch)
            } else {
                old(self).lookup(n)
            } by {
            if n == sname {
                assert(self.entries@[before.len() as int].name@ == n);
            } else {
                if exists|i: int| 0 <= i < self.entries@.len() && self.entries@[i].name@ == n {
                    let i = choose|i: int| 0 <= i < self.entries@.len() && self.entries@[i].name@ == n;
                    assert(before[i].name@ == n);
                }
                if exists|i: int| 0 <= i < before.len() && before[i].name@ == n {
                    let i = choose|i: int| 0 <= i < before.len() && before[i].name@ == n;
                    assert(self.entries@[i].name@ == n);
                }
            }
        }
        true
    }
}

} // verus!
