use vstd::prelude::*;
use crate::errors::GridError;

verus! {

/// State of the grid engine that outlives a single request: its owner and the
/// counter that issues bot identifiers.
#[derive(Debug)]
pub struct GridBotContract {
    pub owner_id: String,
    /// Identifier that the next bot receives; starts at zero.
    pub next_bot_id: u128,
}

/// `after` is `before` once the identifier `id` has been issued.
pub open spec fn issued(before: GridBotContract, id: int, after: GridBotContract) -> bool {
    &&& id == before.next_bot_id
    &&& after.next_bot_id == before.next_bot_id + 1
    &&& after.owner_id == before.owner_id
}

impl GridBotContract {
    pub fn new(owner_id: String) -> (r: Self)
        ensures
            r.owner_id == owner_id,
            r.next_bot_id == 0,
    {
        GridBotContract { owner_id, next_bot_id: 0 }
    }

    /// Issues the current identifier and advances the counter. Fails, with the
    /// counter unchanged, when advancing it would pass `u128::MAX`.
    pub fn internal_get_and_use_next_bot_id(&mut self) -> (r: Result<u128, GridError>)
        ensures
            match r {
                Ok(id) => issued(*old(self), id as int, *final(self)),
                Err(e) => e == GridError::Overflow && old(self).next_bot_id == u128::MAX
                    && *final(self) == *old(self),
            },
            r.is_ok() <==> old(self).next_bot_id < u128::MAX,
    {
        let next_id = self.next_bot_id;
        match next_id.checked_add(1) {
            None => Err(GridError::Overflow),
            Some(following) => {
                self.next_bot_id = following;
                Ok(next_id)
            },
        }
    }
}

/// Identifiers issued by successive calls follow each other without gaps, so
/// each is strictly greater than the one before.
pub proof fn lemma_issued_in_sequence(
    c0: GridBotContract,
    id1: int,
    c1: GridBotContract,
    id2: int,
    c2: GridBotContract,
)
    requires
        issued(c0, id1, c1),
        issued(c1, id2, c2),
    ensures
        id2 == id1 + 1,
        id1 < id2,
        c2.next_bot_id == id2 + 1,
{
}

} // verus!
