//! Launch settings for a Chromedriver process.

use vstd::prelude::*;

use crate::resolve::{Resolver, DEFAULT_TIMEOUT_MS};

verus! {

/// A builder for configurable launch of a Chromedriver process.
#[derive(Clone, Debug)]
pub struct Builder {
    /// The path to the `chromedriver` binary to use.
    pub chromedriver: String,
    /// Time allowed for `chromedriver` to bind its port, in milliseconds.
    pub timeout_ms: u64,
}

impl Builder {
    /// Set the Chromedriver binary to use.
    pub fn set_chromedriver(self, chromedriver: &str) -> (r: Self)
        ensures
            r.chromedriver@ == chromedriver@,
            r.timeout_ms == self.timeout_ms,
    {
        Builder { chromedriver: chromedriver.to_owned(), timeout_ms: self.timeout_ms }
    }

    /// Set the time to wait for Chromedriver to start up properly, in
    /// milliseconds.
    pub fn set_timeout(self, timeout_ms: u64) -> (r: Self)
        ensures
            r.chromedriver@ == self.chromedriver@,
            r.timeout_ms == timeout_ms,
    {
        Builder { chromedriver: self.chromedriver, timeout_ms }
    }

    /// The resolver that finds the port of the launched process `pid` within
    /// this builder's timeout.
    pub fn resolver(&self, pid: u32) -> (r: Resolver)
        ensures
            r.pid == pid,
            r.timeout_ms == self.timeout_ms,
    {
        Resolver::new(pid, self.timeout_ms)
    }
}

impl Default for Builder {
    /// The `chromedriver` binary found on the search path, with a timeout of
    /// thirty seconds.
    fn default() -> (r: Self)
        ensures
            r.chromedriver@ == "chromedriver"@,
            r.timeout_ms == DEFAULT_TIMEOUT_MS,
    {
        Builder { chromedriver: "chromedriver".to_owned(), timeout_ms: DEFAULT_TIMEOUT_MS }
    }
}

} // verus!
