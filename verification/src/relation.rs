//! The relation between an effect and the entity it affects, kept in both directions.

use vstd::prelude::*;

verus! {

/// The identity of a target or of an effect.
#[derive(PartialEq, Eq, Structural, Debug, Copy, Clone, Hash)]
pub struct Entity(pub usize);

/// Stores the entity that is being effected by this status effect.
#[derive(PartialEq, Eq, Structural, Debug, Copy, Clone)]
pub struct Effecting(pub Entity);

/// Stores all the status effects that are effecting this entity, oldest first.
#[derive(Debug, PartialEq, Eq)]
pub struct EffectedBy(Vec<Entity>);

impl View for EffectedBy {
    type V = Seq<Entity>;

    closed spec fn view(&self) -> Seq<Entity> {
        self.0@
    }
}

impl Clone for EffectedBy {
    fn clone(&self) -> (r: EffectedBy)
        ensures
            r@ == self@,
    {
        let mut entities: Vec<Entity> = Vec::new();
        let mut i: usize = 0;
        while i < self.0.len()
            invariant
                i <= self.0.len(),
                entities@ == self.0@.take(i as int),
            decreases self.0.len() - i,
        {
            entities.push(self.0[i]);
            assert(self.0@.take(i as int).push(self.0@[i as int]) =~= self.0@.take(i + 1));
            i = i + 1;
        }
        assert(self.0@.take(self.0.len() as int) =~= self.0@);
        EffectedBy(entities)
    }
}

impl EffectedBy {
    /// An entity that nothing affects.
    pub fn new() -> (r: EffectedBy)
        ensures
            r@ == Seq::<Entity>::empty(),
    {
        EffectedBy(Vec::new())
    }

    /// The number of effects.
    pub fn len(&self) -> (r: usize)
        ensures
            r == self@.len(),
    {
        self.0.len()
    }

    /// Whether there is no effect.
    pub fn is_empty(&self) -> (r: bool)
        ensures
            r == (self@.len() == 0),
    {
        self.0.len() == 0
    }

    /// The effect at a position, counted from the oldest.
    pub fn get(&self, i: usize) -> (r: Option<Entity>)
        ensures
            r == if i < self@.len() {
                Some(self@[i as int])
            } else {
                None
            },
    {
        if i < self.0.len() {
            Some(self.0[i])
        } else {
            None
        }
    }

    /// The effects, oldest first.
    pub fn collection(&self) -> (r: &Vec<Entity>)
        ensures
            r@ == self@,
    {
        &self.0
    }

    /// The position of an effect, if it is among them.
    pub fn position(&self, entity: Entity) -> (r: Option<usize>)
        ensures
            match r {
                Some(i) => {
                    &&& i < self@.len()
                    &&& self@[i as int] == entity
                    &&& forall|j: int| 0 <= j < i ==> self@[j] != entity
                },
                None => !self@.contains(entity),
            },
    {
        let mut i: usize = 0;
        while i < self.0.len()
            invariant
                i <= self.0.len(),
                forall|j: int| 0 <= j < i ==> self.0@[j] != entity,
            decreases self.0.len() - i,
        {
            if self.0[i] == entity {
                return Some(i);
            }
            i = i + 1;
        }
        None
    }

    /// Whether an effect is among them.
    pub fn contains(&self, entity: Entity) -> (r: bool)
        ensures
            r == self@.contains(entity),
    {
        self.position(entity).is_some()
    }

    /// Adds an effect as the newest.
    pub(crate) fn add(&mut self, entity: Entity)
        ensures
            final(self)@ == old(self)@.push(entity),
    {
        self.0.push(entity);
    }

    /// Takes an effect out, keeping the order of the others. Says whether it was there.
    pub(crate) fn remove(&mut self, entity: Entity) -> (r: bool)
        ensures
            final(self)@ == old(self)@.remove_value(entity),
            r == old(self)@.contains(entity),
    {
        proof {
            self.0@.index_of_first_ensures(entity);
        }
        match self.position(entity) {
            Some(i) => {
                self.0.remove(i);
                true
            },
            None => false,
        }
    }
}

} // verus!
