use vstd::prelude::*;
use crate::ast::Type;

verus! {

/// A declared variable: its name, its offset below the frame base, and its type.
pub type Slot = (Seq<char>, u64, Type);

/// The bytes taken by the first `k` variables.
pub open spec fn slot_end(vars: Seq<Slot>, k: int) -> int
    decreases k,
{
    if k <= 0 || k > vars.len() {
        0
    } else {
        slot_end(vars, k - 1) + vars[k - 1].2.spec_size()
    }
}

/// Each variable sits at the bytes taken by it and by those declared before it.
pub open spec fn frame_wf(vars: Seq<Slot>) -> bool {
    forall|i: int| 0 <= i < vars.len() ==> #[trigger] vars[i].1 == slot_end(vars, i + 1)
}

/// `longer` starts with `shorter`.
pub open spec fn extends(longer: Seq<Slot>, shorter: Seq<Slot>) -> bool {
    shorter.len() <= longer.len() && longer.subrange(0, shorter.len() as int) == shorter
}

proof fn lemma_slot_end_push(vars: Seq<Slot>, v: Slot, k: int)
    requires
        0 <= k <= vars.len(),
    ensures
        slot_end(vars.push(v), k) == slot_end(vars, k),
    decreases k,
{
    if k > 0 {
        lemma_slot_end_push(vars, v, k - 1);
    }
}

proof fn lemma_slot_end_increasing(vars: Seq<Slot>, i: int, j: int)
    requires
        0 <= i < j <= vars.len(),
    ensures
        slot_end(vars, i) < slot_end(vars, j),
    decreases j - i,
{
    if i + 1 < j {
        lemma_slot_end_increasing(vars, i, j - 1);
    }
}

/// Offsets in a well-formed frame grow strictly in the order of declaration.
pub proof fn lemma_offsets_increasing(vars: Seq<Slot>, i: int, j: int)
    requires
        frame_wf(vars),
        0 <= i < j < vars.len(),
    ensures
        vars[i].1 < vars[j].1,
{
    lemma_slot_end_increasing(vars, i + 1, j + 1);
}

/// The offset and type of the latest of the first `k` variables named `name`.
pub open spec fn lookup_spec(vars: Seq<Slot>, name: Seq<char>, k: int) -> Option<(u64, Type)>
    decreases k,
{
    if k <= 0 || k > vars.len() {
        None
    } else if vars[k - 1].0 == name {
        Some((vars[k - 1].1, vars[k - 1].2))
    } else {
        lookup_spec(vars, name, k - 1)
    }
}

/// The one flat scope of variables: each declaration takes the next slot of the frame.
pub struct SymbolTable {
    names: Vec<String>,
    offsets: Vec<u64>,
    types: Vec<Type>,
    next_offset: u64,
}

impl SymbolTable {
    /// The declared variables, in the order of declaration.
    pub closed spec fn entries(&self) -> Seq<Slot> {
        Seq::new(
            self.names@.len() as nat,
            |i: int| (self.names@[i]@, self.offsets@[i], self.types@[i]),
        )
    }

    pub closed spec fn wf(&self) -> bool {
        &&& self.names@.len() == self.offsets@.len()
        &&& self.names@.len() == self.types@.len()
        &&& frame_wf(self.entries())
        &&& self.next_offset == slot_end(self.entries(), self.entries().len() as int)
    }

    pub proof fn lemma_wf(&self)
        requires
            self.wf(),
        ensures
            frame_wf(self.entries()),
    {
    }

    pub fn new() -> (r: Self)
        ensures
            r.wf(),
            r.entries().len() == 0,
    {
        SymbolTable { names: Vec::new(), offsets: Vec::new(), types: Vec::new(), next_offset: 0 }
    }

    /// The bytes that the declared variables take.
    pub fn frame_size(&self) -> (r: u64)
        requires
            self.wf(),
        ensures
            r == slot_end(self.entries(), self.entries().len() as int),
    {
        self.next_offset
    }

    /// Gives `name` the next slot of the frame, past the bytes of every earlier variable.
    /// `None` where the frame would pass `u64::MAX` bytes.
    pub fn declare(&mut self, name: String, type_: Type) -> (r: Option<u64>)
        requires
            old(self).wf(),
        ensures
            final(self).wf(),
            match r {
                Some(o) => {
                    &&& final(self).entries() == old(self).entries().push((name@, o, type_))
                    &&& o == slot_end(old(self).entries(), old(self).entries().len() as int)
                        + type_.spec_size()
                },
                None => final(self).entries() == old(self).entries(),
            },
            r is None <==> slot_end(old(self).entries(), old(self).entries().len() as int)
                + type_.spec_size() > u64::MAX,
    {
        let size = type_.size();
        if self.next_offset > u64::MAX - size {
            return None;
        }
        let offset = self.next_offset + size;
        let ghost old_entries = self.entries();
        let ghost v = (name@, offset, type_);
        self.names.push(name);
        self.offsets.push(offset);
        self.types.push(type_);
        self.next_offset = offset;
        proof {
            assert(self.entries() =~= old_entries.push(v));
            assert forall|i: int| 0 <= i < self.entries().len() implies #[trigger] self.entries()[i].1
                == slot_end(self.entries(), i + 1) by {
                if i + 1 < self.entries().len() {
                    lemma_slot_end_push(old_entries, v, i + 1);
                } else {
                    lemma_slot_end_push(old_entries, v, i);
                }
            }
            lemma_slot_end_push(old_entries, v, old_entries.len() as int);
        }
        Some(offset)
    }

    /// The slot and type of the latest variable named `name`.
    pub fn lookup(&self, name: &String) -> (r: Option<(u64, Type)>)
        requires
            self.wf(),
        ensures
            r == lookup_spec(self.entries(), name@, self.entries().len() as int),
            match r {
                Some((o, t)) => exists|i: int|
                    0 <= i < self.entries().len() && #[trigger] self.entries()[i] == (name@, o, t)
                        && forall|j: int|
                        i < j < self.entries().len() ==> (#[trigger] self.entries()[j]).0 != name@,
                None => forall|i: int|
                    0 <= i < self.entries().len() ==> (#[trigger] self.entries()[i]).0 != name@,
            },
    {
        let mut k: usize = self.names.len();
        while k > 0
            invariant
                self.wf(),
                k <= self.names@.len(),
                forall|j: int|
                    k <= j < self.entries().len() ==> (#[trigger] self.entries()[j]).0 != name@,
                lookup_spec(self.entries(), name@, self.entries().len() as int) == lookup_spec(
                    self.entries(),
                    name@,
                    k as int,
                ),
            decreases k,
        {
            let i = k - 1;
            if self.names[i] == *name {
                let t = self.types[i].clone();
                proof {
                    assert(self.entries()[i as int] == (name@, self.offsets@[i as int], t));
                }
                return Some((self.offsets[i], t));
            }
            k = i;
        }
        None
    }
}

} // verus!
