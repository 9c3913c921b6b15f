use vstd::prelude::*;

verus! {

/// An opaque handle that names a node or a parameter. Two ids are the same
/// exactly when their values are.
#[derive(Clone, Copy, Debug, PartialEq, Eq, Structural, Hash)]
pub struct Id(usize);

/// The counter that fresh ids are drawn from.
pub struct IdGenerator {
    next: usize,
}

impl Id {
    /// The value that identifies this id.
    pub closed spec fn value(self) -> usize {
        self.0
    }

    /// The id that the value `value` names.
    pub closed spec fn of_value(value: usize) -> Id {
        Id(value)
    }

    /// An id is named by its value and by nothing else: ids of one value are
    /// the same id.
    pub proof fn lemma_value_names_id(self, other: Id)
        ensures
            self == Id::of_value(self.value()),
            Id::of_value(self.value()).value() == self.value(),
            self.value() == other.value() <==> self == other,
    {
    }

    pub fn with_value(value: usize) -> (id: Self)
        ensures
            id == Id::of_value(value),
            id.value() == value,
    {
        Self(value)
    }

    /// Reads the value back.
    pub fn get_value(&self) -> (value: usize)
        ensures
            value == self.value(),
    {
        self.0
    }

    /// Draws the next id from `generator`. Ids come out in increasing order; the
    /// counter wraps to zero after `usize::MAX`.
    pub fn generate(generator: &mut IdGenerator) -> (id: Self)
        ensures
            id == Id::of_value(old(generator).next_value()),
            id.value() == old(generator).next_value(),
            final(generator).next_value() == if old(generator).next_value() == usize::MAX {
                0
            } else {
                old(generator).next_value() + 1
            },
    {
        let id = Self(generator.next);
        generator.next = generator.next.wrapping_add(1);
        id
    }
}

impl IdGenerator {
    /// The value of the next id that will be generated.
    pub closed spec fn next_value(self) -> usize {
        self.next
    }

    /// A generator whose first id has value zero.
    pub fn new() -> (generator: Self)
        ensures
            generator.next_value() == 0,
    {
        Self { next: 0 }
    }
}

} // verus!
