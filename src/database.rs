use vstd::prelude::*;
use vstd::string::*;

verus! {

/// A database handle that counts the connections made through it.
pub struct Database {
    connection_count: usize,
    name: String,
}

impl Database {
    pub closed spec fn connections(&self) -> nat {
        self.connection_count as nat
    }

    pub closed spec fn name(&self) -> Seq<char> {
        self.name@
    }

    /// The "PostgreSQL" database with no connection made yet.
    pub fn new() -> (r: Database)
        ensures
            r.connections() == 0,
            r.name() == "PostgreSQL"@,
    {
        Database { connection_count: 0, name: String::from_str("PostgreSQL") }
    }

    /// Counts one more connection.
    pub fn connect(&mut self)
        requires
            old(self).connections() < usize::MAX,
        ensures
            final(self).connections() == old(self).connections() + 1,
            final(self).name() == old(self).name(),
    {
        self.connection_count += 1;
    }

    pub fn get_connection_count(&self) -> (r: usize)
        ensures
            r == self.connections(),
    {
        self.connection_count
    }

    pub fn get_name(&self) -> (r: &str)
        ensures
            r@ == self.name(),
    {
        self.name.as_str()
    }
}

} // verus!
