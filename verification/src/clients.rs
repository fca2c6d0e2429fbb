//! The client registry: client identifier to delivery handle.
//!
//! The handle type is a parameter; the transport layer instantiates it
//! with whatever it uses to push a frame to one connection. Entries are
//! inserted when a connection is accepted and removed at teardown; a
//! missing entry means "recipient no longer reachable" and callers drop
//! the message silently.

use vstd::prelude::*;
use vstd::hash_map::StringHashMap;

verus! {

#[verifier::reject_recursive_types(H)]
pub struct ClientRegistry<H> {
    inner: StringHashMap<H>,
}

impl<H> View for ClientRegistry<H> {
    type V = Map<Seq<char>, H>;

    closed spec fn view(&self) -> Map<Seq<char>, H> {
        self.inner@
    }
}

impl<H> ClientRegistry<H> {
    pub fn new() -> (r: Self)
        ensures
            r@ == Map::<Seq<char>, H>::empty(),
    {
        ClientRegistry { inner: StringHashMap::new() }
    }

    /// Inserts or overwrites the entry for `id`.
    pub fn register(&mut self, id: String, handle: H)
        ensures
            final(self)@ == old(self)@.insert(id@, handle),
    {
        self.inner.insert(id, handle);
    }

    /// Removes the entry for `id` if present; no-op otherwise.
    pub fn unregister(&mut self, id: &str)
        ensures
            final(self)@ == old(self)@.remove(id@),
    {
        self.inner.remove(id);
    }

    /// The delivery handle for `id`, or `None` if `id` is not reachable.
    pub fn lookup<'a>(&'a self, id: &str) -> (r: Option<&'a H>)
        ensures
            match r {
                Some(h) => self@.contains_key(id@) && *h == self@[id@],
                None => !self@.contains_key(id@),
            },
    {
        self.inner.get(id)
    }

    /// Whether `id` currently has a live entry.
    pub fn is_registered(&self, id: &str) -> (r: bool)
        ensures
            r == self@.contains_key(id@),
    {
        self.inner.contains_key(id)
    }
}

} // verus!
