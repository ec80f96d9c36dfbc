//! Registry of entity templates: the immutable catalogue the editor picks
//! from when placing static entities into the world.

use vstd::prelude::*;

use crate::static_layers::StaticEntity;

verus! {

/// An ordered catalogue of entity templates.
#[derive(Clone, Debug)]
pub struct Entities {
    pub static_entities: Vec<StaticEntity>,
}

impl Entities {
    /// All templates well-formed.
    pub open spec fn wf(self) -> bool {
        forall|i: int|
            0 <= i < self.static_entities@.len() ==> (#[trigger] self.static_entities@[i]).wf()
    }

    pub fn new() -> (e: Entities)
        ensures
            e.static_entities@.len() == 0,
            e.wf(),
    {
        Entities { static_entities: Vec::new() }
    }

    /// Appends a template to the catalogue.
    pub fn add(&mut self, entity: StaticEntity)
        requires
            entity.wf(),
        ensures
            final(self).static_entities@ == old(self).static_entities@.push(entity),
            old(self).wf() ==> final(self).wf(),
    {
        self.static_entities.push(entity);
    }

    /// The template at this index, or `None` past the end.
    pub fn get(&self, entity: usize) -> (r: Option<&StaticEntity>)
        ensures
            match r {
                Some(e) => entity < self.static_entities@.len() && *e
                    == self.static_entities@[entity as int],
                None => entity >= self.static_entities@.len(),
            },
    {
        if entity < self.static_entities.len() {
            Some(&self.static_entities[entity])
        } else {
            None
        }
    }

    /// The first template carrying this sprite key, in catalogue order.
    pub fn find(&self, sprite_name: &str) -> (r: Option<&StaticEntity>)
        ensures
            match r {
                Some(e) => exists|i: int|
                    {
                        &&& 0 <= i < self.static_entities@.len()
                        &&& *e == (#[trigger] self.static_entities@[i])
                        &&& e.sprite@ == sprite_name@
                        &&& forall|j: int|
                            0 <= j < i ==> (#[trigger] self.static_entities@[j]).sprite@
                                != sprite_name@
                    },
                None => forall|i: int|
                    0 <= i < self.static_entities@.len()
                        ==> (#[trigger] self.static_entities@[i]).sprite@ != sprite_name@,
            },
    {
        let target: String = sprite_name.to_string();
        let mut i: usize = 0;
        while i < self.static_entities.len()
            invariant
                i <= self.static_entities@.len(),
                target@ == sprite_name@,
                forall|j: int|
                    0 <= j < i ==> (#[trigger] self.static_entities@[j]).sprite@ != sprite_name@,
            decreases self.static_entities@.len() - i,
        {
            if self.static_entities[i].sprite == target {
                proof {
                    assert(self.static_entities@[i as int].sprite@ == sprite_name@);
                }
                return Some(&self.static_entities[i]);
            }
            i += 1;
        }
        None
    }
}

} // verus!
