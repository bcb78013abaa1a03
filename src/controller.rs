use std::sync::Arc;
use vstd::prelude::*;
use vstd::rwlock::{RwLock, RwLockPredicate};

use crate::error::Error;
use crate::model::{Ticket, TicketStore};

verus! {

/// What the lock keeps true of the store it guards.
pub struct StoreIsWellFormed;

impl RwLockPredicate<TicketStore> for StoreIsWellFormed {
    open spec fn inv(self, store: TicketStore) -> bool {
        store.wf()
    }
}

/// The ticket store shared between concurrent requests. Each operation holds
/// the lock for the whole update of the store and releases it on every path,
/// so the operations take effect one after the other.
#[derive(Clone)]
pub struct ModelController {
    store: Arc<RwLock<TicketStore, StoreIsWellFormed>>,
}

impl ModelController {
    pub fn new() -> (r: ModelController) {
        let lock = RwLock::new(TicketStore::new(), Ghost(StoreIsWellFormed));
        ModelController { store: Arc::new(lock) }
    }

    /// Stores a ticket with this title under a fresh id, and returns it.
    pub fn create_ticket(&self, title: String) -> (t: Ticket)
        ensures
            t.title@ == title@,
    {
        let (mut store, handle) = self.store.acquire_write();
        let t = store.create_ticket(title);
        handle.release_write(store);
        t
    }

    /// Removes the ticket with this id and returns it, or fails with
    /// `TicketDeleteFailIdNotFound` where none is stored.
    pub fn delete_ticket(&self, id: u64) -> (r: Result<Ticket, Error>)
        ensures
            match r {
                Ok(t) => t.id == id,
                Err(e) => e == Error::TicketDeleteFailIdNotFound { id },
            },
    {
        let (mut store, handle) = self.store.acquire_write();
        let r = store.delete_ticket(id);
        handle.release_write(store);
        r
    }

    /// A snapshot of the stored tickets, by increasing id.
    pub fn list_tickets(&self) -> (r: Vec<Ticket>)
        ensures
            forall|a: int, b: int| 0 <= a < b < r@.len() ==> r@[a].id < r@[b].id,
    {
        let handle = self.store.acquire_read();
        let r = handle.borrow().list_tickets();
        handle.release_read();
        r
    }
}

} // verus!
