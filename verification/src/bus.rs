//! The bus: which handler listens under which routing key.
//!
//! Dispatch may start in a process that holds no connection to the target
//! agent. It publishes under the agent's routing key; the relay that holds
//! the connection has subscribed under that key. The channel of a routing
//! key carries the key's own name.

use crate::protocol::{encode, wire, Envelope};
use crate::table::{Keyed, Table};
use vstd::prelude::*;
use vstd::string::*;

verus! {

/// A handler that listens under a routing key.
#[derive(Debug, PartialEq, Eq)]
pub struct Subscription {
    pub key: String,
    /// The caller's name for the handler.
    pub handler: u64,
}

impl Keyed for Subscription {
    open spec fn key(&self) -> Seq<char> {
        self.key@
    }

    fn key_ref(&self) -> (k: &str) {
        self.key.as_str()
    }
}

/// The handlers of a table, each without its key.
pub open spec fn handlers(m: Map<Seq<char>, Subscription>) -> Map<Seq<char>, u64> {
    m.map_values(|s: Subscription| s.handler)
}

/// What the caller has to put on the transport, and for whom.
#[derive(Debug, PartialEq, Eq)]
pub struct Publication {
    /// The channel: the routing key's own name.
    pub channel: String,
    pub handler: u64,
    pub bytes: Vec<u8>,
}

/// The handler under `key`, if there is one.
pub open spec fn handler_of(subs: Map<Seq<char>, u64>, key: Seq<char>) -> Option<u64> {
    if subs.contains_key(key) {
        Some(subs[key])
    } else {
        None
    }
}

/// The subscriptions of one process.
pub struct Bus {
    subs: Table<Subscription>,
}

impl Bus {
    /// Routing key to handler.
    pub closed spec fn subscriptions(&self) -> Map<Seq<char>, u64> {
        handlers(self.subs@)
    }

    /// The table is sound.
    pub closed spec fn wf(&self) -> bool {
        self.subs.wf()
    }

    /// A bus without subscriptions.
    pub fn new() -> (b: Bus)
        ensures
            b.wf(),
            b.subscriptions() == Map::<Seq<char>, u64>::empty(),
    {
        let b = Bus { subs: Table::new() };
        assert(b.subscriptions() =~= Map::<Seq<char>, u64>::empty());
        b
    }

    /// Lets `handler` listen under `key`, in the place of the handler that
    /// listened there, which is handed back.
    pub fn subscribe(&mut self, key: &str, handler: u64) -> (prev: Option<u64>)
        requires
            old(self).wf(),
        ensures
            final(self).wf(),
            final(self).subscriptions() == old(self).subscriptions().insert(key@, handler),
            prev == handler_of(old(self).subscriptions(), key@),
    {
        let sub = Subscription { key: String::from_str(key), handler };
        let prev = self.subs.put(sub);
        proof {
            assert(self.subs@ == old(self).subs@.insert(key@, sub));
            assert(self.subscriptions() =~= old(self).subscriptions().insert(key@, handler));
        }
        match prev {
            Some(p) => Some(p.handler),
            None => None,
        }
    }

    /// Ends the subscription under `key` and hands its handler back.
    pub fn unsubscribe(&mut self, key: &str) -> (prev: Option<u64>)
        requires
            old(self).wf(),
        ensures
            final(self).wf(),
            final(self).subscriptions() == old(self).subscriptions().remove(key@),
            prev == handler_of(old(self).subscriptions(), key@),
    {
        let prev = self.subs.take(key);
        proof {
            assert(self.subscriptions() =~= old(self).subscriptions().remove(key@));
        }
        match prev {
            Some(p) => Some(p.handler),
            None => None,
        }
    }

    /// Publishes an envelope under `key`: the bytes of the envelope, for the
    /// handler that listens there. Nothing when nobody listens.
    pub fn publish(&self, key: &str, envelope: &Envelope) -> (r: Option<Publication>)
        requires
            self.wf(),
        ensures
            match r {
                Some(p) => handler_of(self.subscriptions(), key@) == Some(p.handler)
                    && p.channel@ == key@ && p.bytes@ == wire(envelope@),
                None => handler_of(self.subscriptions(), key@) is None,
            },
    {
        match self.subs.get(key) {
            Some(s) => Some(
                Publication {
                    channel: String::from_str(key),
                    handler: s.handler,
                    bytes: encode(envelope),
                },
            ),
            None => None,
        }
    }
}

} // verus!
