//! A host/port pair: the publicly reachable address of an endpoint.

use vstd::prelude::*;

use crate::textfmt::{concat2, dec_digits, u64_to_string};

verus! {

/// Mathematical value of an [`AddrPort`].
#[verifier::ext_equal]
pub struct AddrPortV {
    pub address: Seq<char>,
    pub port: u16,
}

/// A host (name or literal address) together with a port.
#[derive(Clone, Debug)]
pub struct AddrPort {
    pub address: String,
    pub port: u16,
}

impl View for AddrPort {
    type V = AddrPortV;

    open spec fn view(&self) -> AddrPortV {
        AddrPortV { address: self.address@, port: self.port }
    }
}

impl DeepView for AddrPort {
    type V = AddrPortV;

    open spec fn deep_view(&self) -> AddrPortV {
        self.view()
    }
}

/// The `host:port` rendering of an address/port pair.
pub open spec fn addr_port_text(a: AddrPortV) -> Seq<char> {
    a.address + seq![':'] + dec_digits(a.port as nat)
}

impl AddrPort {
    pub fn new(address: String, port: u16) -> (r: AddrPort)
        ensures
            r@ == (AddrPortV { address: address@, port: port }),
    {
        AddrPort { address, port }
    }

    /// Renders the pair as `host:port`.
    pub fn to_display_string(&self) -> (r: String)
        ensures
            r@ == addr_port_text(self@),
    {
        proof {
            reveal_strlit(":");
            assert(":"@ =~= seq![':']);
        }
        let mut s = concat2(self.address.as_str(), ":");
        let p = u64_to_string(self.port as u64);
        s.append(p.as_str());
        s
    }
}

} // verus!
