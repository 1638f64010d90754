//! Address texts of the overlay: bare addresses and `address/prefix` ranges.
//!
//! The library holds addresses as the text a user wrote; validity is decided
//! by ipnet's CIDR parser, reached through the one trusted wrapper below.

use vstd::prelude::*;

use crate::textfmt::concat2;

verus! {

/// Whether ipnet's CIDR parser accepts the text as `address/prefix_length`.
pub uninterp spec fn ipnet_accepted(s: Seq<char>) -> bool;

/// Relies on `<ipnet::IpNet as core::str::FromStr>::from_str`: a pure parser
/// of `address/prefix_length` text that returns a `Result` and never panics;
/// acceptance depends on the characters alone.
#[verifier::external_body]
fn parses_as_ip_net(s: &str) -> (r: bool)
    ensures
        r == ipnet_accepted(s@),
{
    s.parse::<ipnet::IpNet>().is_ok()
}

/// The suffix that turns a bare address text into a range of prefix length
/// zero, which ipnet accepts exactly when the bare address is well formed.
pub open spec fn zero_prefix_suffix() -> Seq<char> {
    seq!['/', '0']
}

/// A bare address is valid when, extended to a range of prefix length zero,
/// ipnet accepts it.
pub open spec fn ip_addr_accepted(s: Seq<char>) -> bool {
    ipnet_accepted(s + zero_prefix_suffix())
}

/// Whether the text is a valid `address/prefix_length` range.
pub fn is_valid_ip_net(s: &str) -> (r: bool)
    ensures
        r == ipnet_accepted(s@),
{
    parses_as_ip_net(s)
}

/// Whether the text is a valid bare address.
pub fn is_valid_ip_addr(s: &str) -> (r: bool)
    ensures
        r == ip_addr_accepted(s@),
{
    proof {
        reveal_strlit("/0");
        assert("/0"@ =~= zero_prefix_suffix());
    }
    let t = concat2(s, "/0");
    parses_as_ip_net(t.as_str())
}

/// An address range in `address/prefix_length` notation, held as its text.
#[derive(Clone, Debug)]
pub struct IpNetwork {
    pub text: String,
}

impl View for IpNetwork {
    type V = Seq<char>;

    open spec fn view(&self) -> Seq<char> {
        self.text@
    }
}

impl DeepView for IpNetwork {
    type V = Seq<char>;

    open spec fn deep_view(&self) -> Seq<char> {
        self.view()
    }
}

impl IpNetwork {
    pub fn new(text: String) -> (r: IpNetwork)
        ensures
            r@ == text@,
    {
        IpNetwork { text }
    }

    /// Whether ipnet accepts this range's text.
    pub fn is_valid(&self) -> (r: bool)
        ensures
            r == ipnet_accepted(self@),
    {
        is_valid_ip_net(self.text.as_str())
    }

    /// The range's text.
    pub fn to_display_string(&self) -> (r: String)
        ensures
            r@ == self@,
    {
        self.text.clone()
    }
}

} // verus!
