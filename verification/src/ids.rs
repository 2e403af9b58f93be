//! Identifiers: random 128-bit numbers that say of themselves that they are random.
use vstd::prelude::*;

verus! {

/// `id` has the version (4, random) and the variant of a random UUID.
pub open spec fn is_v4(id: u128) -> bool {
    (id >> 76) & 0xf == 4 && (id >> 62) & 0x3 == 2
}

/// `uuid::Uuid::new_v4`: a random UUID, as the number that its bytes spell. Only the bits of the
/// version and the variant are fixed.
#[verifier::external_body]
pub(crate) fn new_v4_id() -> (id: u128)
    ensures
        is_v4(id),
{
    uuid::Uuid::new_v4().as_u128()
}

/// `id` is what a call of `new_v4_id` gave.
pub closed spec fn is_new_id(id: u128) -> bool {
    call_ensures(new_v4_id, (), id)
}

/// Only a call of `new_v4_id` makes a new identifier.
pub(crate) proof fn law_new_ids_are_drawn(id: u128)
    ensures
        is_new_id(id) <==> call_ensures(new_v4_id, (), id),
        is_new_id(id) ==> is_v4(id),
{
}

/// What an entity has an identifier for.
#[derive(Debug, Clone, Copy, PartialEq, Eq, Structural)]
pub enum IdFor {
    /// The entity itself.
    Entity,
    /// Its owner.
    Owner,
    /// The contributor with this number.
    Contributor(usize),
}

/// Draws the identifier for one of the things that an entity has one for. Each has a draw of its
/// own.
pub fn draw_id(_what: IdFor) -> (id: u128)
    ensures
        is_new_id(id),
        is_v4(id),
{
    new_v4_id()
}

/// `id` was drawn for `what`: it is what a call of `draw_id` for it gave. An identifier drawn for
/// one thing was not thereby drawn for another.
pub open spec fn is_drawn_for(what: IdFor, id: u128) -> bool {
    call_ensures(draw_id, (what,), id)
}

/// No identifier is drawn for two different things of an entity. That random draws do not repeat
/// is no more than very likely, so this is a premise where it is needed.
pub open spec fn draws_do_not_repeat() -> bool {
    forall|a: IdFor, x: u128, b: IdFor, y: u128|
        #![trigger call_ensures(draw_id, (a,), x), call_ensures(draw_id, (b,), y)]
        a != b && call_ensures(draw_id, (a,), x) && call_ensures(draw_id, (b,), y) ==> x != y
}

/// The identifiers that one entity is given.
#[derive(Debug, PartialEq, Eq)]
pub struct EntityIds {
    pub entity: u128,
    pub owner: u128,
    /// One for each contributor there may be.
    pub contributors: Vec<u128>,
}

impl EntityIds {
    /// All the identifiers are random UUIDs.
    pub open spec fn all_v4(&self) -> bool {
        &&& is_v4(self.entity)
        &&& is_v4(self.owner)
        &&& forall|i: int|
            0 <= i < self.contributors@.len() ==> is_v4(#[trigger] self.contributors@[i])
    }

    /// Each of the identifiers was drawn for what it is for.
    pub open spec fn all_drawn(&self) -> bool {
        &&& is_drawn_for(IdFor::Entity, self.entity)
        &&& is_drawn_for(IdFor::Owner, self.owner)
        &&& forall|i: int|
            0 <= i < self.contributors@.len() ==> is_drawn_for(
                IdFor::Contributor(i as usize),
                #[trigger] self.contributors@[i],
            )
    }

    /// Fresh identifiers for an entity with up to `contributors` contributors.
    pub fn fresh(contributors: usize) -> (ids: EntityIds)
        ensures
            ids.contributors@.len() == contributors,
            ids.all_v4(),
            ids.all_drawn(),
    {
        let owner: u128 = draw_id(IdFor::Owner);
        let mut list: Vec<u128> = Vec::new();
        let mut i: usize = 0;
        while i < contributors
            invariant
                i <= contributors,
                list@.len() == i,
                forall|k: int|
                    0 <= k < i ==> is_v4(#[trigger] list@[k]) && is_drawn_for(
                        IdFor::Contributor(k as usize),
                        list@[k],
                    ),
            decreases contributors - i,
        {
            list.push(draw_id(IdFor::Contributor(i)));
            i = i + 1;
        }
        let entity: u128 = draw_id(IdFor::Entity);
        EntityIds { entity, owner, contributors: list }
    }
}

/// Each of an entity's identifiers comes from a draw of its own: no two of them from one.
pub proof fn law_ids_drawn_separately(ids: EntityIds, i: int)
    requires
        ids.all_drawn(),
        0 <= i < ids.contributors@.len(),
    ensures
        call_ensures(draw_id, (IdFor::Entity,), ids.entity),
        call_ensures(draw_id, (IdFor::Owner,), ids.owner),
        call_ensures(draw_id, (IdFor::Contributor(i as usize),), ids.contributors@[i]),
{
    assert(is_drawn_for(IdFor::Contributor(i as usize), ids.contributors@[i]));
}

/// Unless a draw repeats another, an entity's identifiers are all different.
pub proof fn law_fresh_ids_distinct(ids: EntityIds, i: int, j: int)
    requires
        ids.all_drawn(),
        draws_do_not_repeat(),
        0 <= i < j < ids.contributors@.len() <= usize::MAX,
    ensures
        ids.entity != ids.owner,
        ids.entity != ids.contributors@[i],
        ids.owner != ids.contributors@[i],
        ids.entity != ids.contributors@[j],
        ids.owner != ids.contributors@[j],
        ids.contributors@[i] != ids.contributors@[j],
{
    law_ids_drawn_separately(ids, i);
    law_ids_drawn_separately(ids, j);
    assert(IdFor::Contributor(i as usize) != IdFor::Contributor(j as usize));
}

} // verus!
