//! The route table — ordered command names, exact-name lookup with the
//! first registration winning — and the dispatchers handed to handlers:
//! one sends on the handler's own session, the server one can also
//! address any live connection by its identifier.

use vstd::prelude::*;

use tokio::sync::mpsc::UnboundedSender;

use crate::ext::{parse_uuid, queue_send, spec_parse_uuid};

verus! {

/// The names a route may bind, in registration order. Handlers live with
/// the embedding application; position `i` here is its handler's position
/// there.
pub struct RouteTable {
    names: Vec<String>,
}

impl View for RouteTable {
    type V = Seq<Seq<char>>;

    closed spec fn view(&self) -> Seq<Seq<char>> {
        Seq::new(self.names@.len(), |i: int| self.names@[i]@)
    }
}

impl RouteTable {
    /// An empty table.
    pub fn new() -> (r: RouteTable)
        ensures
            r@ == Seq::<Seq<char>>::empty(),
    {
        let r = RouteTable { names: Vec::new() };
        proof {
            assert(r@ =~= Seq::<Seq<char>>::empty());
        }
        r
    }

    /// The number of registered routes.
    pub fn len(&self) -> (r: usize)
        ensures
            r == self@.len(),
    {
        self.names.len()
    }

    /// Appends a route name; the new route's position is returned.
    pub fn register(&mut self, name: String) -> (r: usize)
        ensures
            final(self)@ == old(self)@.push(name@),
            r == old(self)@.len(),
    {
        let r = self.names.len();
        self.names.push(name);
        proof {
            assert(self@ =~= old(self)@.push(self.names@[old(self)@.len() as int]@));
        }
        r
    }

    /// The position of the first route registered under `name`, if any:
    /// a command name selects at most one route.
    pub fn find(&self, name: &String) -> (r: Option<usize>)
        ensures
            match r {
                Some(i) => i < self@.len() && self@[i as int] == name@ && (forall|j: int|
                    0 <= j < i ==> self@[j] != name@),
                None => forall|j: int| 0 <= j < self@.len() ==> self@[j] != name@,
            },
    {
        let mut i: usize = 0;
        while i < self.names.len()
            invariant
                i <= self@.len(),
                forall|j: int| 0 <= j < i ==> self@[j] != name@,
            decreases self@.len() - i,
        {
            if self.names[i] == *name {
                return Some(i);
            }
            i += 1;
        }
        None
    }
}

impl Clone for RouteTable {
    /// A clone binds the same names in the same order.
    fn clone(&self) -> (r: Self)
        ensures
            r@ == self@,
    {
        let r = RouteTable { names: crate::chars::clone_strings(&self.names) };
        proof {
            assert(r@ =~= self@);
        }
        r
    }
}

/// A connection's identifier, as the registry and addressed delivery use
/// it.
#[derive(Clone, Copy, Debug, Eq, PartialEq, Hash, Structural)]
pub struct ConnectionId(pub u128);

/// A handler's handle for sending on its own (client) session.
pub struct Dispatcher {
    sender: UnboundedSender<String>,
}

impl Dispatcher {
    /// A dispatcher writing to the session owning `sender`.
    pub fn new(sender: UnboundedSender<String>) -> Dispatcher {
        Dispatcher { sender }
    }

    /// Queues `msg` on the session's outbound queue. If the session is
    /// already gone the message is dropped.
    pub fn send(&self, msg: String) {
        let _ = queue_send(&self.sender, msg);
    }
}

/// An addressed message: deliver `msg` to the connection named `to`.
pub struct GlobalDisp {
    pub msg: String,
    pub to: u128,
}

/// A handler's handle on the server: sends on its own session, or to any
/// connection by identifier through the addressed-dispatch queue.
pub struct ServerDispatcher {
    sender: UnboundedSender<String>,
    global: UnboundedSender<GlobalDisp>,
}

impl ServerDispatcher {
    /// A dispatcher writing to the session owning `sender`, with `global`
    /// the addressed-dispatch queue.
    pub fn new(
        sender: UnboundedSender<String>,
        global: UnboundedSender<GlobalDisp>,
    ) -> ServerDispatcher {
        ServerDispatcher { sender, global }
    }

    /// Queues `msg` on the session's own outbound queue. If the session
    /// is already gone the message is dropped.
    pub fn send(&self, msg: String) {
        let _ = queue_send(&self.sender, msg);
    }

    /// Queues `msg` for the connection whose identifier reads `uuid`.
    /// Text that names no identifier is a silent no-op, as is an
    /// identifier no longer in the registry when the queue drains.
    pub fn send_to(&self, msg: String, uuid: &String) -> (queued: bool)
        ensures
            queued == (spec_parse_uuid(uuid@) is Some),
    {
        match parse_uuid(uuid.as_str()) {
            Some(id) => {
                let _ = queue_send(&self.global, GlobalDisp { msg, to: id });
                true
            },
            None => false,
        }
    }
}

} // verus!
