use vstd::prelude::*;
use vstd::string::*;

verus! {

/// Application settings: fixed name, version and connection bound, and a
/// debug switch that can be turned.
#[derive(Debug)]
pub struct Config {
    app_name: String,
    version: String,
    max_connections: usize,
    debug_mode: bool,
}

impl Config {
    pub closed spec fn app_name(&self) -> Seq<char> {
        self.app_name@
    }

    pub closed spec fn version(&self) -> Seq<char> {
        self.version@
    }

    pub closed spec fn max_connections(&self) -> nat {
        self.max_connections as nat
    }

    pub closed spec fn debug(&self) -> bool {
        self.debug_mode
    }

    /// "MyApp" version "1.0.0", at most 100 connections, debug off.
    pub fn new() -> (r: Config)
        ensures
            r.app_name() == "MyApp"@,
            r.version() == "1.0.0"@,
            r.max_connections() == 100,
            !r.debug(),
    {
        Config {
            app_name: String::from_str("MyApp"),
            version: String::from_str("1.0.0"),
            max_connections: 100,
            debug_mode: false,
        }
    }

    pub fn get_app_name(&self) -> (r: &str)
        ensures
            r@ == self.app_name(),
    {
        self.app_name.as_str()
    }

    pub fn get_version(&self) -> (r: &str)
        ensures
            r@ == self.version(),
    {
        self.version.as_str()
    }

    /// Turns debug mode on or off; nothing else changes.
    pub fn set_debug_mode(&mut self, enabled: bool)
        ensures
            final(self).debug() == enabled,
            final(self).app_name() == old(self).app_name(),
            final(self).version() == old(self).version(),
            final(self).max_connections() == old(self).max_connections(),
    {
        self.debug_mode = enabled;
    }

    pub fn is_debug_mode(&self) -> (r: bool)
        ensures
            r == self.debug(),
    {
        self.debug_mode
    }

    pub fn get_max_connections(&self) -> (r: usize)
        ensures
            r == self.max_connections(),
    {
        self.max_connections
    }
}

} // verus!
