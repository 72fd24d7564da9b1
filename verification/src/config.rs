//! The configuration the core consumes: the listen address and the bound
//! on concurrently admitted connections.

use vstd::prelude::*;
use vstd::string::*;

use crate::text::{fmt_u64, spec_u64_digits};

verus! {

/// Where the server listens and how many connections it admits at once.
pub struct Config {
    bind: String,
    port: u16,
    max_conns: usize,
}

impl Config {
    /// The interface to bind.
    pub closed spec fn spec_bind(self) -> Seq<char> {
        self.bind@
    }

    /// The TCP port to listen on.
    pub closed spec fn spec_port(self) -> u16 {
        self.port
    }

    /// The bound on concurrent client connections.
    pub closed spec fn spec_max_conns(self) -> usize {
        self.max_conns
    }

    pub fn new(bind: String, port: u16, max_conns: usize) -> (c: Config)
        ensures
            c.spec_bind() == bind@,
            c.spec_port() == port,
            c.spec_max_conns() == max_conns,
    {
        Config { bind, port, max_conns }
    }

    /// The listen address, rendered as `bind:port`.
    pub fn get_addr(&self) -> (s: String)
        ensures
            s@ == self.spec_bind() + ":"@ + spec_u64_digits(self.spec_port() as int),
    {
        let p = fmt_u64(self.port as u64);
        let s = self.bind.clone().concat(":").concat(p.as_str());
        proof {
            assert(s@ =~= self.spec_bind() + ":"@ + spec_u64_digits(self.spec_port() as int));
        }
        s
    }

    /// The bound on concurrent client connections.
    pub fn get_max_conns(&self) -> (n: usize)
        ensures
            n == self.spec_max_conns(),
    {
        self.max_conns
    }
}

} // verus!
