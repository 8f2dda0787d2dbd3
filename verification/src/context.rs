//! The values a process is configured with at start-up, handed to the
//! components that need them.

use crate::address::{endpoint_spec, get_endpoint, AddressError};
use vstd::prelude::*;
use vstd::string::*;

verus! {

/// What a control-plane process knows of itself: its own IP address and,
/// once set, the address of the relay it talks to.
#[derive(Debug, PartialEq, Eq)]
pub struct AppContext {
    local_ip: String,
    comet_addr: Option<String>,
}

impl AppContext {
    /// The process's own IP address.
    pub closed spec fn local_ip_text(&self) -> Seq<char> {
        self.local_ip@
    }

    /// The relay's address, if one was set.
    pub closed spec fn comet_addr_text(&self) -> Option<Seq<char>> {
        match self.comet_addr {
            Some(a) => Some(a@),
            None => None,
        }
    }

    /// A context with the given IP address and no relay address.
    pub fn new(local_ip: &str) -> (ctx: Self)
        ensures
            ctx.local_ip_text() == local_ip@,
            ctx.comet_addr_text() is None,
    {
        AppContext { local_ip: String::from_str(local_ip), comet_addr: None }
    }

    /// The process's own IP address.
    pub fn local_ip(&self) -> (ip: &str)
        ensures
            ip@ == self.local_ip_text(),
    {
        self.local_ip.as_str()
    }

    /// The routing key of this process under `namespace`.
    pub fn local_endpoint(&self, namespace: &str) -> (r: Result<String, AddressError>)
        ensures
            self.local_ip_text().len() == 0 ==> r == Err::<String, AddressError>(
                AddressError::EmptyIp,
            ),
            self.local_ip_text().len() != 0 ==> r is Ok && r->Ok_0@ == endpoint_spec(
                namespace@,
                self.local_ip_text(),
            ),
    {
        get_endpoint(namespace, self.local_ip.as_str())
    }
}

/// Sets the relay's address, replacing an earlier one.
pub fn set_comet_addr(ctx: &mut AppContext, addr: &str)
    ensures
        final(ctx).comet_addr_text() == Some(addr@),
        final(ctx).local_ip_text() == old(ctx).local_ip_text(),
{
    ctx.comet_addr = Some(String::from_str(addr));
}

/// The relay's address, if one was set.
pub fn get_comet_addr(ctx: &AppContext) -> (addr: Option<String>)
    ensures
        match addr {
            Some(a) => ctx.comet_addr_text() == Some(a@),
            None => ctx.comet_addr_text() is None,
        },
{
    match &ctx.comet_addr {
        Some(a) => Some(a.clone()),
        None => None,
    }
}

} // verus!
