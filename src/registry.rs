//! The handler table: which payload schema each protocol id is decoded and
//! encoded by.
use vstd::prelude::*;

use crate::error::CodecError;
use crate::schema::FieldKind;

verus! {

/// One protocol id and the schema registered under it.
struct Registration {
    id: i16,
    schema: Vec<FieldKind>,
}

/// The registered protocol ids, each with the one schema of its packets.
pub struct HandlerTable {
    entries: Vec<Registration>,
    schemas: Ghost<Map<i16, Seq<FieldKind>>>,
}

impl View for HandlerTable {
    type V = Map<i16, Seq<FieldKind>>;

    closed spec fn view(&self) -> Map<i16, Seq<FieldKind>> {
        self.schemas@
    }
}

impl HandlerTable {
    /// The entries hold exactly the ids of the view, each with its schema.
    pub closed spec fn wf(&self) -> bool {
        &&& forall|i: int|
            0 <= i < self.entries@.len() ==> {
                let e = #[trigger] self.entries@[i];
                self@.contains_key(e.id) && self@[e.id] == e.schema@
            }
        &&& forall|id: i16|
            #![trigger self@.contains_key(id)]
            self@.contains_key(id) ==> exists|i: int|
                0 <= i < self.entries@.len() && (#[trigger] self.entries@[i]).id == id
    }

    /// A table with no id registered.
    pub fn new() -> (r: HandlerTable)
        ensures
            r.wf(),
            r@ == Map::<i16, Seq<FieldKind>>::empty(),
    {
        HandlerTable { entries: Vec::new(), schemas: Ghost(Map::empty()) }
    }

    /// The index of the entry for `id`, if there is one.
    fn find(&self, id: i16) -> (r: Option<usize>)
        requires
            self.wf(),
        ensures
            match r {
                Some(i) => i < self.entries@.len() && self.entries@[i as int].id == id,
                None => !self@.contains_key(id),
            },
    {
        let mut i: usize = 0;
        while i < self.entries.len()
            invariant
                i <= self.entries@.len(),
                forall|j: int| 0 <= j < i ==> (#[trigger] self.entries@[j]).id != id,
            decreases self.entries@.len() - i,
        {
            if self.entries[i].id == id {
                return Some(i);
            }
            i = i + 1;
        }
        None
    }

    /// Whether a schema is registered under `id`.
    pub fn is_registered(&self, id: i16) -> (r: bool)
        requires
            self.wf(),
        ensures
            r == self@.contains_key(id),
    {
        self.find(id).is_some()
    }

    /// The schema registered under `id`, if any.
    pub fn lookup(&self, id: i16) -> (r: Option<&Vec<FieldKind>>)
        requires
            self.wf(),
        ensures
            match r {
                Some(s) => self@.contains_key(id) && s@ == self@[id],
                None => !self@.contains_key(id),
            },
    {
        match self.find(id) {
            Some(i) => Some(&self.entries[i].schema),
            None => None,
        }
    }

    /// Registers `schema` under `id`. An id holds at most one schema: when
    /// `id` is taken already, the table is left as it was.
    pub fn register(&mut self, id: i16, schema: Vec<FieldKind>) -> (r: Result<(), CodecError>)
        requires
            old(self).wf(),
        ensures
            final(self).wf(),
            old(self)@.contains_key(id) ==> r == Err::<(), CodecError>(
                CodecError::DuplicateProtocolId(id),
            ) && final(self)@ == old(self)@,
            !old(self)@.contains_key(id) ==> r == Ok::<(), CodecError>(()) && final(self)@
                == old(self)@.insert(id, schema@),
    {
        if self.find(id).is_some() {
            return Err(CodecError::DuplicateProtocolId(id));
        }
        let ghost prev = self.entries@;
        let ghost view = self@.insert(id, schema@);
        self.entries.push(Registration { id, schema });
        self.schemas = Ghost(view);
        assert forall|k: i16| #[trigger] self@.contains_key(k) implies exists|i: int|
            0 <= i < self.entries@.len() && (#[trigger] self.entries@[i]).id == k by {
            if k == id {
                assert(self.entries@[prev.len() as int].id == k);
            } else {
                assert(old(self)@.contains_key(k));
                let i = choose|i: int| 0 <= i < prev.len() && (#[trigger] prev[i]).id == k;
                assert(self.entries@[i] == prev[i]);
            }
        }
        Ok(())
    }
}

} // verus!
