use vstd::prelude::*;
use vstd::string::*;

verus! {

/// A bounded pool of connections: counts the connections that are open and
/// refuses a new one once the bound is reached.
#[derive(Debug)]
pub struct ConnectionPool {
    active_connections: usize,
    max_connections: usize,
    pool_name: String,
}

/// The message of the error returned when a pool named `name` is full.
pub open spec fn full_message(name: Seq<char>) -> Seq<char> {
    "Connection pool '"@ + name + "' is full"@
}

impl ConnectionPool {
    /// Number of connections currently held.
    pub closed spec fn active(&self) -> nat {
        self.active_connections as nat
    }

    /// The bound on open connections.
    pub closed spec fn capacity(&self) -> nat {
        self.max_connections as nat
    }

    /// The pool's name.
    pub closed spec fn name(&self) -> Seq<char> {
        self.pool_name@
    }

    /// Never more connections open than the bound.
    pub open spec fn wf(&self) -> bool {
        self.active() <= self.capacity()
    }

    /// An empty pool named `name` that holds at most `max_conn` connections.
    pub fn new(name: &str, max_conn: usize) -> (r: ConnectionPool)
        ensures
            r.wf(),
            r.active() == 0,
            r.capacity() == max_conn,
            r.name() == name@,
    {
        ConnectionPool {
            active_connections: 0,
            max_connections: max_conn,
            pool_name: String::from_str(name),
        }
    }

    /// Takes one connection, or fails with the pool's "full" message when the
    /// bound is reached; a failed call changes nothing.
    pub fn acquire_connection(&mut self) -> (r: Result<(), String>)
        requires
            old(self).wf(),
        ensures
            final(self).wf(),
            final(self).capacity() == old(self).capacity(),
            final(self).name() == old(self).name(),
            old(self).active() < old(self).capacity() ==> r is Ok && final(self).active()
                == old(self).active() + 1,
            old(self).active() >= old(self).capacity() ==> r is Err && final(self).active()
                == old(self).active(),
            r matches Err(msg) ==> msg@ == full_message(old(self).name()),
    {
        if self.active_connections < self.max_connections {
            self.active_connections += 1;
            Ok(())
        } else {
            let mut msg = String::from_str("Connection pool '");
            msg.append(self.pool_name.as_str());
            msg.append("' is full");
            Err(msg)
        }
    }

    /// Gives one connection back; on an empty pool nothing changes.
    pub fn release_connection(&mut self)
        requires
            old(self).wf(),
        ensures
            final(self).wf(),
            final(self).capacity() == old(self).capacity(),
            final(self).name() == old(self).name(),
            old(self).active() > 0 ==> final(self).active() == old(self).active() - 1,
            old(self).active() == 0 ==> final(self).active() == 0,
    {
        if self.active_connections > 0 {
            self.active_connections -= 1;
        }
    }

    pub fn get_active_connections(&self) -> (r: usize)
        ensures
            r == self.active(),
    {
        self.active_connections
    }

    pub fn get_pool_name(&self) -> (r: &str)
        ensures
            r@ == self.name(),
    {
        self.pool_name.as_str()
    }
}

} // verus!
