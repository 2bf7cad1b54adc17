//! The entity arena: slots addressed by stable handles, and the queues of
//! intents awaiting resolution.

use vstd::prelude::*;
use crate::components::{ActivateItem, Components, Entity, WantsToAttack, WantsToMove};

verus! {

/// The contents of the arena as the contracts see them: one slot per handle
/// ever handed out, `None` once the entity was removed.
pub type Slots = Seq<Option<Components>>;

/// Whether `e` names an entity that is still present.
pub open spec fn alive(es: Slots, e: Entity) -> bool {
    e.0 < es.len() && es[e.0 as int] is Some
}

/// Whether `e` is a present entity marked as the player.
pub open spec fn is_player(es: Slots, e: Entity) -> bool {
    alive(es, e) && es[e.0 as int]->0.player is Some
}

/// The slots with `e` removed; a handle that names no slot changes nothing.
pub open spec fn without(es: Slots, e: Entity) -> Slots {
    if e.0 < es.len() {
        es.update(e.0 as int, None)
    } else {
        es
    }
}

/// The slots with every entity of `gone` removed.
pub open spec fn without_all(es: Slots, gone: Seq<Entity>) -> Slots
    decreases gone.len(),
{
    if gone.len() == 0 {
        es
    } else {
        without(without_all(es, gone.drop_last()), gone.last())
    }
}

/// The lowest handle below `n` that names a player, if there is one.
pub open spec fn first_player(es: Slots, n: int) -> Option<Entity>
    decreases n,
{
    if n <= 0 {
        None
    } else {
        match first_player(es, n - 1) {
            Some(e) => Some(e),
            None => if n <= es.len() && is_player(es, Entity((n - 1) as usize)) {
                Some(Entity((n - 1) as usize))
            } else {
                None
            },
        }
    }
}

pub struct World {
    pub entities: Vec<Option<Components>>,
    pub moves: Vec<WantsToMove>,
    pub attacks: Vec<WantsToAttack>,
    pub activations: Vec<ActivateItem>,
}

impl World {
    /// An arena without entities or intents.
    pub fn new() -> (w: World)
        ensures
            w.entities@.len() == 0,
            w.moves@.len() == 0,
            w.attacks@.len() == 0,
            w.activations@.len() == 0,
    {
        World {
            entities: Vec::new(),
            moves: Vec::new(),
            attacks: Vec::new(),
            activations: Vec::new(),
        }
    }

    /// Adds an entity in a fresh slot and returns its handle.
    pub fn spawn(&mut self, c: Components) -> (e: Entity)
        ensures
            e.0 == old(self).entities@.len(),
            final(self).entities@ == old(self).entities@.push(Some(c)),
            final(self).moves == old(self).moves,
            final(self).attacks == old(self).attacks,
            final(self).activations == old(self).activations,
    {
        let e = Entity(self.entities.len());
        self.entities.push(Some(c));
        e
    }

    pub fn is_alive(&self, e: Entity) -> (b: bool)
        ensures
            b == alive(self.entities@, e),
    {
        e.0 < self.entities.len() && self.entities[e.0].is_some()
    }

    /// The attributes of `e`, or `None` when it was removed or never existed.
    pub fn get(&self, e: Entity) -> (r: Option<&Components>)
        ensures
            alive(self.entities@, e) ==> r == Some(&self.entities@[e.0 as int]->0),
            !alive(self.entities@, e) ==> r.is_none(),
    {
        if e.0 < self.entities.len() {
            self.entities[e.0].as_ref()
        } else {
            None
        }
    }

    /// Removes `e` at once. Its slot stays, so other handles keep their
    /// meaning.
    pub fn remove(&mut self, e: Entity)
        ensures
            final(self).entities@ == without(old(self).entities@, e),
            final(self).moves == old(self).moves,
            final(self).attacks == old(self).attacks,
            final(self).activations == old(self).activations,
    {
        if e.0 < self.entities.len() {
            self.entities[e.0] = None;
        }
    }

    /// Removes every entity of `gone`, in order.
    pub fn remove_all(&mut self, gone: &Vec<Entity>)
        ensures
            final(self).entities@ == without_all(old(self).entities@, gone@),
            final(self).moves == old(self).moves,
            final(self).attacks == old(self).attacks,
            final(self).activations == old(self).activations,
    {
        let mut k: usize = 0;
        while k < gone.len()
            invariant
                k <= gone@.len(),
                self.entities@ == without_all(old(self).entities@, gone@.take(k as int)),
                self.moves == old(self).moves,
                self.attacks == old(self).attacks,
                self.activations == old(self).activations,
            decreases gone@.len() - k,
        {
            proof {
                assert(gone@.take(k + 1).drop_last() == gone@.take(k as int));
            }
            self.remove(gone[k]);
            k += 1;
        }
        proof {
            assert(gone@.take(k as int) == gone@);
        }
    }

    /// The player: the present entity with the lowest handle that is marked
    /// as one.
    pub fn player(&self) -> (r: Option<Entity>)
        ensures
            r == first_player(self.entities@, self.entities@.len() as int),
    {
        let mut i: usize = 0;
        while i < self.entities.len()
            invariant
                i <= self.entities@.len(),
                first_player(self.entities@, i as int).is_none(),
            decreases self.entities@.len() - i,
        {
            let hit = match &self.entities[i] {
                Some(c) => c.player.is_some(),
                None => false,
            };
            if hit {
                proof {
                    lemma_first_player_stays(self.entities@, i as int + 1, self.entities@.len() as int);
                }
                return Some(Entity(i));
            }
            i += 1;
        }
        None
    }
}

/// Once a player is found below `n`, it is the answer below any `m >= n`.
pub proof fn lemma_first_player_stays(es: Slots, n: int, m: int)
    requires
        n <= m,
        first_player(es, n).is_some(),
    ensures
        first_player(es, m) == first_player(es, n),
    decreases m - n,
{
    if n < m {
        lemma_first_player_stays(es, n, m - 1);
    }
}

/// What `first_player` finds is a player, and no lower handle names one.
pub proof fn lemma_first_player_is_first(es: Slots, n: int)
    requires
        0 <= n <= es.len(),
    ensures
        first_player(es, n) matches Some(e) ==> e.0 < n && is_player(es, e) && forall|o: Entity|
            o.0 < e.0 ==> !#[trigger] is_player(es, o),
        first_player(es, n).is_none() ==> forall|o: Entity|
            o.0 < n ==> !#[trigger] is_player(es, o),
    decreases n,
{
    if n > 0 {
        lemma_first_player_is_first(es, n - 1);
    }
}

/// Removing entities never changes the number of slots, and leaves alone
/// every slot that is not named.
pub proof fn lemma_without_all_frame(es: Slots, gone: Seq<Entity>)
    ensures
        without_all(es, gone).len() == es.len(),
        forall|i: int|
            0 <= i < es.len() ==> #[trigger] without_all(es, gone)[i] == if exists|k: int|
                0 <= k < gone.len() && gone[k].0 == i {
                None
            } else {
                es[i]
            },
    decreases gone.len(),
{
    if gone.len() > 0 {
        lemma_without_all_frame(es, gone.drop_last());
        let prev = without_all(es, gone.drop_last());
        assert forall|i: int| 0 <= i < es.len() implies #[trigger] without_all(es, gone)[i] == if exists|
            k: int,
        |
            0 <= k < gone.len() && gone[k].0 == i {
            None
        } else {
            es[i]
        } by {
            if gone.last().0 == i {
                assert(gone[gone.len() - 1].0 == i);
            } else if exists|k: int| 0 <= k < gone.drop_last().len() && gone.drop_last()[k].0 == i {
                let k = choose|k: int| 0 <= k < gone.drop_last().len() && gone.drop_last()[k].0 == i;
                assert(gone[k].0 == i);
            } else {
                if exists|k: int| 0 <= k < gone.len() && gone[k].0 == i {
                    let k = choose|k: int| 0 <= k < gone.len() && gone[k].0 == i;
                    assert(gone.drop_last()[k].0 == i);
                }
            }
        }
    }
}

} // verus!
