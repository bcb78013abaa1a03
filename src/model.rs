use vstd::prelude::*;

use crate::error::Error;

verus! {

/// A ticket of the store.
#[derive(Debug)]
pub struct Ticket {
    pub id: u64,
    pub title: String,
}

impl Ticket {
    /// A copy of the ticket, with the same id and title.
    pub fn copied(&self) -> (r: Ticket)
        ensures
            r.id == self.id,
            r.title@ == self.title@,
    {
        Ticket { id: self.id, title: self.title.clone() }
    }
}

/// The tickets, in memory. The ticket with id `k` sits in slot `k` until it
/// is deleted; a slot is never reused, so an id is never issued twice.
pub struct TicketStore {
    slots: Vec<Option<Ticket>>,
}

impl TicketStore {
    /// The stored tickets: the title under each id.
    pub closed spec fn tickets(&self) -> Map<nat, Seq<char>> {
        Map::new(
            |id: nat| id < self.slots@.len() && self.slots@[id as int] is Some,
            |id: nat| self.slots@[id as int]->Some_0.title@,
        )
    }

    /// The id that the next ticket gets.
    pub closed spec fn next_id(&self) -> nat {
        self.slots@.len()
    }

    pub closed spec fn wf(&self) -> bool {
        forall|k: int|
            0 <= k < self.slots@.len() && #[trigger] self.slots@[k] is Some ==> self.slots@[k]->Some_0.id
                == k
    }

    /// Every stored id was issued before.
    pub proof fn lemma_ids_below_next(&self)
        ensures
            forall|id: nat| #[trigger] self.tickets().contains_key(id) ==> id < self.next_id(),
    {
    }

    /// An empty store, whose first ticket gets id 0.
    pub fn new() -> (r: TicketStore)
        ensures
            r.wf(),
            r.tickets() == Map::<nat, Seq<char>>::empty(),
            r.next_id() == 0,
    {
        let r = TicketStore { slots: Vec::new() };
        assert(r.tickets() =~= Map::<nat, Seq<char>>::empty());
        r
    }

    /// Stores a ticket with this title under the next id, and returns it.
    pub fn create_ticket(&mut self, title: String) -> (t: Ticket)
        requires
            old(self).wf(),
        ensures
            final(self).wf(),
            t.id == old(self).next_id(),
            t.title@ == title@,
            !old(self).tickets().contains_key(t.id as nat),
            final(self).tickets() == old(self).tickets().insert(t.id as nat, title@),
            final(self).next_id() == old(self).next_id() + 1,
            is_create_step(*old(self), *final(self), t.id, title@),
    {
        let id = self.slots.len() as u64;
        let ticket = Ticket { id, title };
        let r = ticket.copied();
        self.slots.push(Some(ticket));
        assert(self.tickets() =~= old(self).tickets().insert(id as nat, r.title@));
        r
    }

    /// Removes the ticket with this id and returns it; fails with
    /// `TicketDeleteFailIdNotFound` and changes nothing where there is none.
    pub fn delete_ticket(&mut self, id: u64) -> (r: Result<Ticket, Error>)
        requires
            old(self).wf(),
        ensures
            final(self).wf(),
            final(self).next_id() == old(self).next_id(),
            r is Ok <==> old(self).tickets().contains_key(id as nat),
            match r {
                Ok(t) => {
                    &&& t.id == id
                    &&& t.title@ == old(self).tickets()[id as nat]
                    &&& final(self).tickets() == old(self).tickets().remove(id as nat)
                },
                Err(e) => {
                    &&& e == Error::TicketDeleteFailIdNotFound { id }
                    &&& final(self).tickets() == old(self).tickets()
                },
            },
    {
        if id >= self.slots.len() as u64 {
            return Err(Error::TicketDeleteFailIdNotFound { id });
        }
        let i = id as usize;
        let taken = self.slots[i].take();
        match taken {
            Some(t) => {
                assert(self.tickets() =~= old(self).tickets().remove(id as nat));
                Ok(t)
            },
            None => {
                assert(self.slots@ =~= old(self).slots@);
                Err(Error::TicketDeleteFailIdNotFound { id })
            },
        }
    }

    /// The stored tickets, by increasing id.
    pub fn list_tickets(&self) -> (r: Vec<Ticket>)
        requires
            self.wf(),
        ensures
            forall|a: int, b: int| 0 <= a < b < r@.len() ==> r@[a].id < r@[b].id,
            forall|k: int|
                0 <= k < r@.len() ==> {
                    &&& self.tickets().contains_key(#[trigger] r@[k].id as nat)
                    &&& self.tickets()[r@[k].id as nat] == r@[k].title@
                },
            forall|id: nat|
                #[trigger] self.tickets().contains_key(id) ==> exists|k: int|
                    0 <= k < r@.len() && #[trigger] r@[k].id == id,
    {
        let mut r: Vec<Ticket> = Vec::new();
        let mut i: usize = 0;
        while i < self.slots.len()
            invariant
                self.wf(),
                i <= self.slots@.len(),
                forall|k: int| 0 <= k < r@.len() ==> #[trigger] r@[k].id < i,
                forall|a: int, b: int| 0 <= a < b < r@.len() ==> r@[a].id < r@[b].id,
                forall|k: int|
                    0 <= k < r@.len() ==> {
                        &&& self.tickets().contains_key(#[trigger] r@[k].id as nat)
                        &&& self.tickets()[r@[k].id as nat] == r@[k].title@
                    },
                forall|id: nat|
                    id < i && #[trigger] self.tickets().contains_key(id) ==> exists|k: int|
                        0 <= k < r@.len() && #[trigger] r@[k].id == id,
            decreases self.slots@.len() - i,
        {
            let ghost before = r@;
            match &self.slots[i] {
                Some(t) => {
                    let c = t.copied();
                    r.push(c);
                    assert(r@[r@.len() - 1].id == i);
                },
                None => {},
            }
            assert forall|id: nat|
                id < i + 1 && #[trigger] self.tickets().contains_key(id) implies exists|k: int|
                    0 <= k < r@.len() && #[trigger] r@[k].id == id by {
                if id < i {
                    let k = choose|k: int| 0 <= k < before.len() && #[trigger] before[k].id == id;
                    assert(r@[k] == before[k]);
                } else {
                    assert(r@[r@.len() - 1].id == id);
                }
            }
            i = i + 1;
        }
        r
    }
}

/// `after` is what `create_ticket` makes of `before` when it issues `id` for `title`.
pub open spec fn is_create_step(before: TicketStore, after: TicketStore, id: u64, title: Seq<char>) -> bool {
    &&& id == before.next_id()
    &&& after.tickets() == before.tickets().insert(id as nat, title)
    &&& after.next_id() == before.next_id() + 1
}

/// Calls of `create_ticket` on one store take effect one after the other
/// (the controller's lock sees to it where they are concurrent). A run of
/// `n` of them issues `n` consecutive, hence distinct, ids, each new id holds
/// the title it was created with, and no ticket is lost: afterwards the store
/// holds exactly the tickets it held before and the `n` new ones.
pub proof fn lemma_creates_issue_distinct_ids(
    stores: Seq<TicketStore>,
    ids: Seq<u64>,
    titles: Seq<Seq<char>>,
)
    requires
        stores.len() == ids.len() + 1,
        titles.len() == ids.len(),
        forall|k: int|
            0 <= k < ids.len() ==> #[trigger] is_create_step(stores[k], stores[k + 1], ids[k], titles[k]),
    ensures
        forall|k: int| 0 <= k < ids.len() ==> #[trigger] ids[k] == stores[0].next_id() + k,
        stores.last().next_id() == stores[0].next_id() + ids.len(),
        forall|k: int|
            0 <= k < ids.len() ==> {
                &&& stores.last().tickets().contains_key(#[trigger] ids[k] as nat)
                &&& stores.last().tickets()[ids[k] as nat] == titles[k]
            },
        forall|id: nat|
            #[trigger] stores.last().tickets().contains_key(id) <==> (stores[0].tickets().contains_key(id)
                || stores[0].next_id() <= id < stores[0].next_id() + ids.len()),
        forall|id: nat|
            #[trigger] stores[0].tickets().contains_key(id) ==> stores.last().tickets()[id]
                == stores[0].tickets()[id],
    decreases ids.len(),
{
    let n = ids.len() as int;
    if n > 0 {
        let s = stores.drop_last();
        let i = ids.drop_last();
        let t = titles.drop_last();
        assert forall|k: int| 0 <= k < i.len() implies #[trigger] is_create_step(s[k], s[k + 1], i[k], t[k]) by {
            assert(is_create_step(stores[k], stores[k + 1], ids[k], titles[k]));
        }
        lemma_creates_issue_distinct_ids(s, i, t);
        assert(is_create_step(stores[n - 1], stores[n], ids[n - 1], titles[n - 1]));
        assert(s.last() == stores[n - 1]);
        stores[0].lemma_ids_below_next();
        assert forall|k: int| 0 <= k < n implies #[trigger] ids[k] == stores[0].next_id() + k by {
            if k < n - 1 {
                assert(i[k] == ids[k]);
            }
        }
        assert forall|k: int| 0 <= k < n implies {
            &&& stores.last().tickets().contains_key(#[trigger] ids[k] as nat)
            &&& stores.last().tickets()[ids[k] as nat] == titles[k]
        } by {
            if k < n - 1 {
                assert(i[k] == ids[k]);
                assert(t[k] == titles[k]);
            }
        }
    }
}

} // verus!
