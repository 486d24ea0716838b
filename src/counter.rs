//! The counter module's configuration and query answer.

use vstd::prelude::*;
use crate::address::Address;

verus! {

/// Initial configuration of the counter module.
#[derive(Debug, Clone, Copy)]
pub struct CounterModuleConfig {
    /// The admin of the module.
    pub admin: Address,
}

/// The answer to a count query.
#[derive(Debug, Clone, Copy, PartialEq, Eq, Structural)]
pub struct Response {
    /// The count kept in the module's state, if one was set.
    pub count: Option<u32>,
}

/// The counter module's state.
#[derive(Debug)]
pub struct CounterModule {
    admin: Option<Address>,
    count: Option<u32>,
}

impl CounterModule {
    pub closed spec fn admin(&self) -> Option<Seq<u8>> {
        match self.admin {
            Some(a) => Some(a@),
            None => None,
        }
    }

    pub closed spec fn count(&self) -> Option<u32> {
        self.count
    }

    /// A module with no admin and no count.
    pub fn new() -> (r: CounterModule)
        ensures
            r.admin() is None,
            r.count() is None,
    {
        CounterModule { admin: None, count: None }
    }

    /// Initializes the module with the configured admin.
    pub fn init_module(&mut self, admin_config: &CounterModuleConfig)
        ensures
            final(self).admin() == Some(admin_config.admin@),
            final(self).count() == old(self).count(),
    {
        self.admin = Some(admin_config.admin);
    }

    /// The current count.
    pub fn query_count(&self) -> (r: Response)
        ensures
            r.count == self.count(),
    {
        Response { count: self.count }
    }
}

} // verus!
