//! The entities of the overlay: the routing-table mode, the central Router,
//! and the remote Peers, each with its connection-configuration rendering.

use vstd::prelude::*;

use crate::addrport::{addr_port_text, AddrPort, AddrPortV};
use crate::netaddr::IpNetwork;
use crate::textfmt::{
    concat2, dec_digits, join_lines, join_lines_spec, join_with, lower_matches, parse_u64,
    parse_u64_str, to_lower, u64_to_string, lemma_dec_digits_digits, lemma_dec_digits_roundtrip,
};

verus! {

/// The routing-table mode of an endpoint: disabled, automatic, or a custom
/// numbered table.
#[derive(Clone, Copy, Debug, PartialEq, Eq, Structural)]
pub enum TableType {
    Off,
    Auto,
    Custom(u32),
}

/// The rendering of a table mode: `off`, `auto`, or the decimal number.
pub open spec fn table_text(t: TableType) -> Seq<char> {
    match t {
        TableType::Off => "off"@,
        TableType::Auto => "auto"@,
        TableType::Custom(v) => dec_digits(v as nat),
    }
}

/// Parsing of a table mode: the tokens `off` and `auto`, ASCII
/// case-insensitively, else a decimal table number.
pub open spec fn parse_table(s: Seq<char>) -> Option<TableType> {
    if to_lower(s) == "off"@ {
        Some(TableType::Off)
    } else if to_lower(s) == "auto"@ {
        Some(TableType::Auto)
    } else {
        match parse_u64(s) {
            Some(v) => if v <= u32::MAX {
                Some(TableType::Custom(v as u32))
            } else {
                None
            },
            None => None,
        }
    }
}

impl TableType {
    /// Renders the mode as `off`, `auto`, or the decimal number.
    pub fn to_display_string(&self) -> (r: String)
        ensures
            r@ == table_text(*self),
    {
        match self {
            TableType::Off => "off".to_owned(),
            TableType::Auto => "auto".to_owned(),
            TableType::Custom(v) => u64_to_string(*v as u64),
        }
    }

    /// Parses a mode, exactly as `parse_table` describes.
    pub fn parse(s: &str) -> (r: Option<TableType>)
        ensures
            r == parse_table(s@),
    {
        if lower_matches(s, "off") {
            Some(TableType::Off)
        } else if lower_matches(s, "auto") {
            Some(TableType::Auto)
        } else {
            match parse_u64_str(s) {
                Some(v) => {
                    if v <= u32::MAX as u64 {
                        Some(TableType::Custom(v as u32))
                    } else {
                        None
                    }
                },
                None => None,
            }
        }
    }
}

/// Parsing a table-mode rendering gives the mode back.
pub proof fn lemma_table_roundtrip(t: TableType)
    ensures
        parse_table(table_text(t)) == Some(t),
{
    reveal_strlit("off");
    reveal_strlit("auto");
    match t {
        TableType::Off => {
            assert(to_lower("off"@) =~= "off"@);
        },
        TableType::Auto => {
            assert(to_lower("auto"@).len() != "off"@.len());
            assert(to_lower("auto"@) =~= "auto"@);
        },
        TableType::Custom(v) => {
            let d = dec_digits(v as nat);
            lemma_dec_digits_digits(v as nat);
            lemma_dec_digits_roundtrip(v as u64);
            assert(crate::textfmt::digit_val(d[0]) is Some);
            assert(crate::textfmt::lower_char(d[0]) == d[0]);
            if to_lower(d) == "off"@ {
                assert(to_lower(d)[0] == 'o');
                assert(false);
            }
            if to_lower(d) == "auto"@ {
                assert(to_lower(d)[0] == 'a');
                assert(false);
            }
        },
    }
}

/// Mathematical value of a [`Router`].
#[verifier::ext_equal]
pub struct RouterV {
    pub name: Seq<char>,
    pub internal_address: Seq<char>,
    pub external_address: AddrPortV,
    pub private_key: Seq<char>,
    pub public_key: Seq<char>,
    pub mtu: Option<u16>,
    pub table: Option<TableType>,
    pub preup: Option<Seq<char>>,
    pub postup: Option<Seq<char>>,
    pub predown: Option<Seq<char>>,
    pub postdown: Option<Seq<char>>,
}

/// The central endpoint of the overlay: owns the internal address block and
/// the publicly reachable endpoint all peers connect to.
#[derive(Clone, Debug)]
pub struct Router {
    pub name: String,
    pub internal_address: IpNetwork,
    pub external_address: AddrPort,
    pub private_key: String,
    pub public_key: String,
    pub mtu: Option<u16>,
    pub table: Option<TableType>,
    pub preup: Option<String>,
    pub postup: Option<String>,
    pub predown: Option<String>,
    pub postdown: Option<String>,
}

impl View for Router {
    type V = RouterV;

    open spec fn view(&self) -> RouterV {
        RouterV {
            name: self.name@,
            internal_address: self.internal_address@,
            external_address: self.external_address@,
            private_key: self.private_key@,
            public_key: self.public_key@,
            mtu: self.mtu,
            table: self.table,
            preup: self.preup.deep_view(),
            postup: self.postup.deep_view(),
            predown: self.predown.deep_view(),
            postdown: self.postdown.deep_view(),
        }
    }
}

impl DeepView for Router {
    type V = RouterV;

    open spec fn deep_view(&self) -> RouterV {
        self.view()
    }
}

/// Mathematical value of a [`Peer`].
#[verifier::ext_equal]
pub struct PeerV {
    pub name: Seq<char>,
    pub internal_address: Seq<char>,
    pub allowed_ips: Seq<Seq<char>>,
    pub dns: Option<Seq<char>>,
    pub persistent_keepalive: Option<usize>,
    pub private_key: Option<Seq<char>>,
    pub public_key: Seq<char>,
    pub mtu: Option<u16>,
    pub table: Option<TableType>,
    pub preup: Option<Seq<char>>,
    pub postup: Option<Seq<char>>,
    pub predown: Option<Seq<char>>,
    pub postdown: Option<Seq<char>>,
}

/// A remote endpoint of the overlay. Holds a private key only when this side
/// owns the peer's key material; otherwise only the public key is known.
#[derive(Clone, Debug)]
pub struct Peer {
    pub name: String,
    pub internal_address: String,
    pub allowed_ips: Vec<IpNetwork>,
    pub dns: Option<String>,
    pub persistent_keepalive: Option<usize>,
    pub private_key: Option<String>,
    pub public_key: String,
    pub mtu: Option<u16>,
    pub table: Option<TableType>,
    pub preup: Option<String>,
    pub postup: Option<String>,
    pub predown: Option<String>,
    pub postdown: Option<String>,
}

impl View for Peer {
    type V = PeerV;

    open spec fn view(&self) -> PeerV {
        PeerV {
            name: self.name@,
            internal_address: self.internal_address@,
            allowed_ips: self.allowed_ips.deep_view(),
            dns: self.dns.deep_view(),
            persistent_keepalive: self.persistent_keepalive,
            private_key: self.private_key.deep_view(),
            public_key: self.public_key@,
            mtu: self.mtu,
            table: self.table,
            preup: self.preup.deep_view(),
            postup: self.postup.deep_view(),
            predown: self.predown.deep_view(),
            postdown: self.postdown.deep_view(),
        }
    }
}

impl DeepView for Peer {
    type V = PeerV;

    open spec fn deep_view(&self) -> PeerV {
        self.view()
    }
}

/// Zero lines for an absent field, one `key` + `value` line for a set one.
pub open spec fn opt_line(key: Seq<char>, v: Option<Seq<char>>) -> Seq<Seq<char>> {
    match v {
        Some(x) => seq![key + x],
        None => seq![],
    }
}

/// Decimal text of an optional 16-bit value.
pub open spec fn opt_u16_text(v: Option<u16>) -> Option<Seq<char>> {
    match v {
        Some(x) => Some(dec_digits(x as nat)),
        None => None,
    }
}

/// Decimal text of an optional keepalive interval.
pub open spec fn opt_usize_text(v: Option<usize>) -> Option<Seq<char>> {
    match v {
        Some(x) => Some(dec_digits(x as nat)),
        None => None,
    }
}

/// Text of an optional table mode.
pub open spec fn opt_table_text(v: Option<TableType>) -> Option<Seq<char>> {
    match v {
        Some(t) => Some(table_text(t)),
        None => None,
    }
}

/// The extended optional lines shared by Router and Peer interface sections:
/// MTU, table, and the four hook commands, in that fixed order, one line per
/// populated field and none for an absent one.
pub open spec fn extra_lines(
    mtu: Option<u16>,
    table: Option<TableType>,
    preup: Option<Seq<char>>,
    postup: Option<Seq<char>>,
    predown: Option<Seq<char>>,
    postdown: Option<Seq<char>>,
) -> Seq<Seq<char>> {
    opt_line("MTU = "@, opt_u16_text(mtu)) + opt_line("Table = "@, opt_table_text(table))
        + opt_line("PreUp = "@, preup) + opt_line("PostUp = "@, postup)
        + opt_line("PreDown = "@, predown) + opt_line("PostDown = "@, postdown)
}

/// The lines of a router's own `[Interface]` section: name comment, header,
/// internal address in network notation, private key, listen port, then the
/// extended optional lines.
pub open spec fn router_interface_lines(r: RouterV) -> Seq<Seq<char>> {
    seq![
        "# "@ + r.name,
        "[Interface]"@,
        "Address = "@ + r.internal_address,
        "PrivateKey = "@ + r.private_key,
        "ListenPort = "@ + dec_digits(r.external_address.port as nat),
    ] + extra_lines(r.mtu, r.table, r.preup, r.postup, r.predown, r.postdown)
}

/// A router's own `[Interface]` section.
pub open spec fn spec_router_interface(r: RouterV) -> Seq<char> {
    join_lines_spec(router_interface_lines(r))
}

/// The lines of the `[Peer]` section a router keeps for a peer: name comment,
/// header, the peer's public key, its keepalive when declared, and its
/// allowed networks joined by `, `.
pub open spec fn router_peer_lines(p: PeerV) -> Seq<Seq<char>> {
    seq!["# "@ + p.name, "[Peer]"@, "PublicKey = "@ + p.public_key]
        + opt_line("PersistentKeepalive = "@, opt_usize_text(p.persistent_keepalive))
        + seq!["AllowedIPs = "@ + join_with(p.allowed_ips, ", "@)]
}

/// The `[Peer]` section a router keeps for a peer.
pub open spec fn spec_router_peer(p: PeerV) -> Seq<char> {
    join_lines_spec(router_peer_lines(p))
}

/// The lines of a peer's own `[Interface]` section, given its present private
/// key: name comment, header, private key, internal address, DNS when set,
/// then the extended optional lines.
pub open spec fn peer_interface_lines(p: PeerV, pk: Seq<char>) -> Seq<Seq<char>> {
    seq!["# "@ + p.name, "[Interface]"@, "PrivateKey = "@ + pk, "Address = "@
        + p.internal_address] + opt_line("DNS = "@, p.dns)
        + extra_lines(p.mtu, p.table, p.preup, p.postup, p.predown, p.postdown)
}

/// A peer's own `[Interface]` section: absent exactly when the peer owns no
/// private key.
pub open spec fn spec_peer_interface(p: PeerV) -> Option<Seq<char>> {
    match p.private_key {
        Some(pk) => Some(join_lines_spec(peer_interface_lines(p, pk))),
        None => None,
    }
}

/// The lines of the `[Peer]` section a peer keeps for its router: the
/// router's name comment, header, the router's public key, the router's
/// external endpoint, the peer's own keepalive when declared, and the peer's
/// own allowed networks joined by `, `.
pub open spec fn peer_peer_lines(p: PeerV, r: RouterV) -> Seq<Seq<char>> {
    seq!["# "@ + r.name, "[Peer]"@, "PublicKey = "@ + r.public_key, "Endpoint = "@
        + addr_port_text(r.external_address)]
        + opt_line("PersistentKeepalive = "@, opt_usize_text(p.persistent_keepalive))
        + seq!["AllowedIPs = "@ + join_with(p.allowed_ips, ", "@)]
}

/// The `[Peer]` section a peer keeps for its router.
pub open spec fn spec_peer_peer(p: PeerV, r: RouterV) -> Seq<char> {
    join_lines_spec(peer_peer_lines(p, r))
}

/// Appends one line.
pub(crate) fn push_line(lines: &mut Vec<String>, line: String)
    ensures
        final(lines).deep_view() == old(lines).deep_view().push(line@),
{
    let ghost l = line@;
    lines.push(line);
    proof {
        assert(lines.deep_view() =~= old(lines).deep_view().push(l));
    }
}

/// Appends `key` + `value` when the text field is set, nothing otherwise.
pub(crate) fn push_opt_str_line(lines: &mut Vec<String>, key: &str, v: &Option<String>)
    ensures
        final(lines).deep_view() == old(lines).deep_view() + opt_line(key@, v.deep_view()),
{
    match v {
        Some(s) => {
            let l = concat2(key, s.as_str());
            lines.push(l);
            proof {
                assert(lines.deep_view() =~= old(lines).deep_view() + opt_line(key@, v.deep_view()));
            }
        },
        None => {
            proof {
                assert(lines.deep_view() =~= old(lines).deep_view() + opt_line(key@, v.deep_view()));
            }
        },
    }
}

/// Appends `key` + the decimal value when the field is set, nothing otherwise.
pub(crate) fn push_opt_u16_line(lines: &mut Vec<String>, key: &str, v: &Option<u16>)
    ensures
        final(lines).deep_view() == old(lines).deep_view() + opt_line(key@, opt_u16_text(*v)),
{
    match v {
        Some(x) => {
            let n = u64_to_string(*x as u64);
            let l = concat2(key, n.as_str());
            lines.push(l);
            proof {
                assert(lines.deep_view() =~= old(lines).deep_view() + opt_line(key@, opt_u16_text(*v)));
            }
        },
        None => {
            proof {
                assert(lines.deep_view() =~= old(lines).deep_view() + opt_line(key@, opt_u16_text(*v)));
            }
        },
    }
}

/// Appends `key` + the decimal value when the field is set, nothing otherwise.
pub(crate) fn push_opt_usize_line(lines: &mut Vec<String>, key: &str, v: &Option<usize>)
    ensures
        final(lines).deep_view() == old(lines).deep_view() + opt_line(key@, opt_usize_text(*v)),
{
    match v {
        Some(x) => {
            let n = u64_to_string(*x as u64);
            let l = concat2(key, n.as_str());
            lines.push(l);
            proof {
                assert(lines.deep_view() =~= old(lines).deep_view() + opt_line(
                    key@,
                    opt_usize_text(*v),
                ));
            }
        },
        None => {
            proof {
                assert(lines.deep_view() =~= old(lines).deep_view() + opt_line(
                    key@,
                    opt_usize_text(*v),
                ));
            }
        },
    }
}

/// Appends `key` + the table-mode text when the field is set, nothing
/// otherwise.
pub(crate) fn push_opt_table_line(lines: &mut Vec<String>, key: &str, v: &Option<TableType>)
    ensures
        final(lines).deep_view() == old(lines).deep_view() + opt_line(key@, opt_table_text(*v)),
{
    match v {
        Some(t) => {
            let n = t.to_display_string();
            let l = concat2(key, n.as_str());
            lines.push(l);
            proof {
                assert(lines.deep_view() =~= old(lines).deep_view() + opt_line(
                    key@,
                    opt_table_text(*v),
                ));
            }
        },
        None => {
            proof {
                assert(lines.deep_view() =~= old(lines).deep_view() + opt_line(
                    key@,
                    opt_table_text(*v),
                ));
            }
        },
    }
}

/// Appends the extended optional lines in their fixed order.
fn push_extra_lines(
    lines: &mut Vec<String>,
    mtu: &Option<u16>,
    table: &Option<TableType>,
    preup: &Option<String>,
    postup: &Option<String>,
    predown: &Option<String>,
    postdown: &Option<String>,
)
    ensures
        final(lines).deep_view() == old(lines).deep_view() + extra_lines(
            *mtu,
            *table,
            preup.deep_view(),
            postup.deep_view(),
            predown.deep_view(),
            postdown.deep_view(),
        ),
{
    push_opt_u16_line(lines, "MTU = ", mtu);
    push_opt_table_line(lines, "Table = ", table);
    push_opt_str_line(lines, "PreUp = ", preup);
    push_opt_str_line(lines, "PostUp = ", postup);
    push_opt_str_line(lines, "PreDown = ", predown);
    push_opt_str_line(lines, "PostDown = ", postdown);
    proof {
        assert(lines.deep_view() =~= old(lines).deep_view() + extra_lines(
            *mtu,
            *table,
            preup.deep_view(),
            postup.deep_view(),
            predown.deep_view(),
            postdown.deep_view(),
        ));
    }
}

/// Joins the network texts from index `i` on with `sep` between them.
fn join_nets_from(nets: &Vec<IpNetwork>, i: usize, sep: &str) -> (r: String)
    requires
        i < nets.len(),
    ensures
        r@ == join_with(nets.deep_view().skip(i as int), sep@),
    decreases nets.len() - i,
{
    if i == nets.len() - 1 {
        let r = nets[i].text.clone();
        proof {
            assert(nets.deep_view().skip(i as int).len() == 1);
            assert(nets.deep_view().skip(i as int)[0] == nets@[i as int]@);
        }
        r
    } else {
        let mut s = nets[i].text.clone();
        s.append(sep);
        let tail = join_nets_from(nets, i + 1, sep);
        s.append(tail.as_str());
        proof {
            let items = nets.deep_view().skip(i as int);
            assert(items[0] == nets@[i as int]@);
            assert(items.skip(1) =~= nets.deep_view().skip(i as int + 1));
            assert(s@ == items[0] + sep@ + join_with(items.skip(1), sep@));
        }
        s
    }
}

/// Joins network texts with `sep` between each adjacent pair.
fn join_nets(nets: &Vec<IpNetwork>, sep: &str) -> (r: String)
    ensures
        r@ == join_with(nets.deep_view(), sep@),
{
    if nets.len() == 0 {
        String::new()
    } else {
        let r = join_nets_from(nets, 0, sep);
        proof {
            assert(nets.deep_view().skip(0) =~= nets.deep_view());
        }
        r
    }
}

impl Router {
    /// A router with the given identity, addresses and key pair; the extended
    /// optional fields all start absent. The key pair comes from the caller,
    /// who obtains it from the external key-generation capability.
    pub fn new(
        name: String,
        internal_address: IpNetwork,
        external_address: AddrPort,
        private_key: String,
        public_key: String,
    ) -> (r: Router)
        ensures
            r@ == (RouterV {
                name: name@,
                internal_address: internal_address@,
                external_address: external_address@,
                private_key: private_key@,
                public_key: public_key@,
                mtu: None,
                table: None,
                preup: None,
                postup: None,
                predown: None,
                postdown: None,
            }),
    {
        Router {
            name,
            internal_address,
            external_address,
            private_key,
            public_key,
            mtu: None,
            table: None,
            preup: None,
            postup: None,
            predown: None,
            postdown: None,
        }
    }

    pub fn with_mtu(self, mtu: Option<u16>) -> (r: Router)
        ensures
            r@ == (RouterV { mtu: mtu, ..self@ }),
    {
        Router { mtu, ..self }
    }

    pub fn with_table(self, table: Option<TableType>) -> (r: Router)
        ensures
            r@ == (RouterV { table: table, ..self@ }),
    {
        Router { table, ..self }
    }

    pub fn with_preup(self, preup: Option<String>) -> (r: Router)
        ensures
            r@ == (RouterV { preup: preup.deep_view(), ..self@ }),
    {
        Router { preup, ..self }
    }

    pub fn with_postup(self, postup: Option<String>) -> (r: Router)
        ensures
            r@ == (RouterV { postup: postup.deep_view(), ..self@ }),
    {
        Router { postup, ..self }
    }

    pub fn with_predown(self, predown: Option<String>) -> (r: Router)
        ensures
            r@ == (RouterV { predown: predown.deep_view(), ..self@ }),
    {
        Router { predown, ..self }
    }

    pub fn with_postdown(self, postdown: Option<String>) -> (r: Router)
        ensures
            r@ == (RouterV { postdown: postdown.deep_view(), ..self@ }),
    {
        Router { postdown, ..self }
    }

    pub fn set_external_address(&mut self, external_address: AddrPort)
        ensures
            final(self)@ == (RouterV { external_address: external_address@, ..old(self)@ }),
    {
        self.external_address = external_address;
    }

    pub fn set_internal_address(&mut self, internal_address: IpNetwork)
        ensures
            final(self)@ == (RouterV { internal_address: internal_address@, ..old(self)@ }),
    {
        self.internal_address = internal_address;
    }

    /// Renders the router's own `[Interface]` section: name comment, section
    /// header, internal address, private key and listen port, then one line
    /// per populated extended optional field, in the fixed order.
    pub fn interface_str(&self) -> (r: String)
        ensures
            r@ == spec_router_interface(self@),
    {
        let mut lines: Vec<String> = Vec::new();
        push_line(&mut lines, concat2("# ", self.name.as_str()));
        push_line(&mut lines, "[Interface]".to_owned());
        push_line(&mut lines, concat2("Address = ", self.internal_address.text.as_str()));
        push_line(&mut lines, concat2("PrivateKey = ", self.private_key.as_str()));
        let port = u64_to_string(self.external_address.port as u64);
        push_line(&mut lines, concat2("ListenPort = ", port.as_str()));
        push_extra_lines(
            &mut lines,
            &self.mtu,
            &self.table,
            &self.preup,
            &self.postup,
            &self.predown,
            &self.postdown,
        );
        proof {
            assert(lines.deep_view() =~= router_interface_lines(self@));
        }
        join_lines(&lines)
    }

    /// Renders the `[Peer]` section this router keeps for `peer`: name
    /// comment, section header, the peer's public key, its keepalive when
    /// declared, then its allowed networks joined by `, `.
    pub fn peer_str(&self, peer: &Peer) -> (r: String)
        ensures
            r@ == spec_router_peer(peer@),
    {
        let mut lines: Vec<String> = Vec::new();
        push_line(&mut lines, concat2("# ", peer.name.as_str()));
        push_line(&mut lines, "[Peer]".to_owned());
        push_line(&mut lines, concat2("PublicKey = ", peer.public_key.as_str()));
        push_opt_usize_line(&mut lines, "PersistentKeepalive = ", &peer.persistent_keepalive);
        let nets = join_nets(&peer.allowed_ips, ", ");
        push_line(&mut lines, concat2("AllowedIPs = ", nets.as_str()));
        proof {
            assert(lines.deep_view() =~= router_peer_lines(peer@));
        }
        join_lines(&lines)
    }
}

impl Peer {
    /// A peer with the given identity, address and key pair; the list of
    /// allowed networks and every optional field start empty. The key pair
    /// comes from the caller, who obtains it from the external key-generation
    /// capability.
    pub fn new(
        name: String,
        internal_address: String,
        private_key: String,
        public_key: String,
    ) -> (r: Peer)
        ensures
            r@ == (PeerV {
                name: name@,
                internal_address: internal_address@,
                allowed_ips: Seq::empty(),
                dns: None,
                persistent_keepalive: None,
                private_key: Some(private_key@),
                public_key: public_key@,
                mtu: None,
                table: None,
                preup: None,
                postup: None,
                predown: None,
                postdown: None,
            }),
    {
        let r = Peer {
            name,
            internal_address,
            allowed_ips: Vec::new(),
            dns: None,
            persistent_keepalive: None,
            private_key: Some(private_key),
            public_key,
            mtu: None,
            table: None,
            preup: None,
            postup: None,
            predown: None,
            postdown: None,
        };
        proof {
            assert(r.allowed_ips.deep_view() =~= Seq::<Seq<char>>::empty());
        }
        r
    }

    pub fn with_dns(self, dns: Option<String>) -> (r: Peer)
        ensures
            r@ == (PeerV { dns: dns.deep_view(), ..self@ }),
    {
        Peer { dns, ..self }
    }

    pub fn with_keepalive(self, keepalive: Option<usize>) -> (r: Peer)
        ensures
            r@ == (PeerV { persistent_keepalive: keepalive, ..self@ }),
    {
        Peer { persistent_keepalive: keepalive, ..self }
    }

    pub fn with_vec_allowed_ips(self, allowed_ips: Vec<IpNetwork>) -> (r: Peer)
        ensures
            r@ == (PeerV { allowed_ips: allowed_ips.deep_view(), ..self@ }),
    {
        Peer { allowed_ips, ..self }
    }

    pub fn with_allowed_ips(self, allowed_ips: IpNetwork) -> (r: Peer)
        ensures
            r@ == (PeerV { allowed_ips: self@.allowed_ips.push(allowed_ips@), ..self@ }),
    {
        let ghost orig = self@;
        let ghost net = allowed_ips@;
        let mut s = self;
        s.allowed_ips.push(allowed_ips);
        proof {
            assert(s.allowed_ips.deep_view() =~= orig.allowed_ips.push(net));
        }
        s
    }

    pub fn with_mtu(self, mtu: Option<u16>) -> (r: Peer)
        ensures
            r@ == (PeerV { mtu: mtu, ..self@ }),
    {
        Peer { mtu, ..self }
    }

    pub fn with_table(self, table: Option<TableType>) -> (r: Peer)
        ensures
            r@ == (PeerV { table: table, ..self@ }),
    {
        Peer { table, ..self }
    }

    pub fn push_allowed_ip(&mut self, allowed_ips: IpNetwork)
        ensures
            final(self)@ == (PeerV {
                allowed_ips: old(self)@.allowed_ips.push(allowed_ips@),
                ..old(self)@
            }),
    {
        let ghost net = allowed_ips@;
        self.allowed_ips.push(allowed_ips);
        proof {
            assert(self.allowed_ips.deep_view() =~= old(self).allowed_ips.deep_view().push(net));
        }
    }

    pub fn set_internal_address(&mut self, internal_address: String)
        ensures
            final(self)@ == (PeerV { internal_address: internal_address@, ..old(self)@ }),
    {
        self.internal_address = internal_address;
    }

    pub fn set_persistent_keepalive(&mut self, keepalive: Option<usize>)
        ensures
            final(self)@ == (PeerV { persistent_keepalive: keepalive, ..old(self)@ }),
    {
        self.persistent_keepalive = keepalive;
    }

    pub fn set_private_key(&mut self, private_key: Option<String>)
        ensures
            final(self)@ == (PeerV { private_key: private_key.deep_view(), ..old(self)@ }),
    {
        self.private_key = private_key;
    }

    pub fn set_public_key(&mut self, public_key: String)
        ensures
            final(self)@ == (PeerV { public_key: public_key@, ..old(self)@ }),
    {
        self.public_key = public_key;
    }

    /// The peer's allowed networks joined with `sep`, for human display.
    pub fn allowed_ips_joined(&self, sep: &str) -> (r: String)
        ensures
            r@ == join_with(self@.allowed_ips, sep@),
    {
        join_nets(&self.allowed_ips, sep)
    }

    /// Renders the peer's own `[Interface]` section, absent exactly when the
    /// peer owns no private key: name comment, section header, private key,
    /// internal address, DNS when set, then one line per populated extended
    /// optional field, in the fixed order.
    pub fn interface_str(&self) -> (r: Option<String>)
        ensures
            r is Some <==> self.private_key is Some,
            match r {
                Some(s) => spec_peer_interface(self@) == Some(s@),
                None => spec_peer_interface(self@) is None,
            },
    {
        match &self.private_key {
            Some(pk) => {
                let mut lines: Vec<String> = Vec::new();
                push_line(&mut lines, concat2("# ", self.name.as_str()));
                push_line(&mut lines, "[Interface]".to_owned());
                push_line(&mut lines, concat2("PrivateKey = ", pk.as_str()));
                push_line(&mut lines, concat2("Address = ", self.internal_address.as_str()));
                push_opt_str_line(&mut lines, "DNS = ", &self.dns);
                push_extra_lines(
                    &mut lines,
                    &self.mtu,
                    &self.table,
                    &self.preup,
                    &self.postup,
                    &self.predown,
                    &self.postdown,
                );
                proof {
                    assert(lines.deep_view() =~= peer_interface_lines(self@, pk@));
                }
                Some(join_lines(&lines))
            },
            None => None,
        }
    }

    /// Renders the `[Peer]` section this peer keeps for its router: the
    /// router's name comment, section header, the router's public key and
    /// external endpoint, the peer's own keepalive when declared, then the
    /// peer's own allowed networks joined by `, `.
    pub fn peer_str(&self, router: &Router) -> (r: String)
        ensures
            r@ == spec_peer_peer(self@, router@),
    {
        let mut lines: Vec<String> = Vec::new();
        push_line(&mut lines, concat2("# ", router.name.as_str()));
        push_line(&mut lines, "[Peer]".to_owned());
        push_line(&mut lines, concat2("PublicKey = ", router.public_key.as_str()));
        let endpoint = router.external_address.to_display_string();
        push_line(&mut lines, concat2("Endpoint = ", endpoint.as_str()));
        push_opt_usize_line(&mut lines, "PersistentKeepalive = ", &self.persistent_keepalive);
        let nets = join_nets(&self.allowed_ips, ", ");
        push_line(&mut lines, concat2("AllowedIPs = ", nets.as_str()));
        proof {
            assert(lines.deep_view() =~= peer_peer_lines(self@, router@));
        }
        join_lines(&lines)
    }
}


/// How many of the extended optional fields are set.
pub open spec fn count_set_extras(
    mtu: Option<u16>,
    table: Option<TableType>,
    preup: Option<Seq<char>>,
    postup: Option<Seq<char>>,
    predown: Option<Seq<char>>,
    postdown: Option<Seq<char>>,
) -> int {
    (if mtu is Some { 1int } else { 0int }) + (if table is Some { 1int } else { 0int }) + (
    if preup is Some { 1int } else { 0int }) + (if postup is Some { 1int } else { 0int }) + (
    if predown is Some { 1int } else { 0int }) + (if postdown is Some { 1int } else { 0int })
}

/// The extended optional lines hold exactly one line per populated field and
/// none for an absent one, in the fixed order MTU, Table, PreUp, PostUp,
/// PreDown, PostDown; each line sits right after the lines of the set fields
/// before it.
pub proof fn lemma_extra_lines_structure(
    mtu: Option<u16>,
    table: Option<TableType>,
    preup: Option<Seq<char>>,
    postup: Option<Seq<char>>,
    predown: Option<Seq<char>>,
    postdown: Option<Seq<char>>,
)
    ensures
        extra_lines(mtu, table, preup, postup, predown, postdown).len() == count_set_extras(
            mtu,
            table,
            preup,
            postup,
            predown,
            postdown,
        ),
        mtu matches Some(x) ==> extra_lines(mtu, table, preup, postup, predown, postdown)[0]
            == "MTU = "@ + dec_digits(x as nat),
        table matches Some(t) ==> extra_lines(mtu, table, preup, postup, predown, postdown)[(
        if mtu is Some {
            1int
        } else {
            0int
        })] == "Table = "@ + table_text(t),
        preup matches Some(v) ==> extra_lines(mtu, table, preup, postup, predown, postdown)[(
        if mtu is Some {
            1int
        } else {
            0int
        }) + (if table is Some {
            1int
        } else {
            0int
        })] == "PreUp = "@ + v,
        postup matches Some(v) ==> extra_lines(mtu, table, preup, postup, predown, postdown)[(
        if mtu is Some {
            1int
        } else {
            0int
        }) + (if table is Some {
            1int
        } else {
            0int
        }) + (if preup is Some {
            1int
        } else {
            0int
        })] == "PostUp = "@ + v,
        predown matches Some(v) ==> extra_lines(mtu, table, preup, postup, predown, postdown)[(
        if mtu is Some {
            1int
        } else {
            0int
        }) + (if table is Some {
            1int
        } else {
            0int
        }) + (if preup is Some {
            1int
        } else {
            0int
        }) + (if postup is Some {
            1int
        } else {
            0int
        })] == "PreDown = "@ + v,
        postdown matches Some(v) ==> extra_lines(mtu, table, preup, postup, predown, postdown)[(
        if mtu is Some {
            1int
        } else {
            0int
        }) + (if table is Some {
            1int
        } else {
            0int
        }) + (if preup is Some {
            1int
        } else {
            0int
        }) + (if postup is Some {
            1int
        } else {
            0int
        }) + (if predown is Some {
            1int
        } else {
            0int
        })] == "PostDown = "@ + v,
{
}

/// Each populated optional field of a router's interface section yields
/// exactly one line, an absent field yields none, and the lines keep the
/// fixed order: the five required lines first, then MTU, Table, PreUp,
/// PostUp, PreDown, PostDown.
pub proof fn lemma_router_interface_one_line_per_field(r: RouterV)
    ensures
        router_interface_lines(r).len() == 5 + count_set_extras(
            r.mtu,
            r.table,
            r.preup,
            r.postup,
            r.predown,
            r.postdown,
        ),
        router_interface_lines(r)[0] == "# "@ + r.name,
        router_interface_lines(r)[1] == "[Interface]"@,
        router_interface_lines(r)[2] == "Address = "@ + r.internal_address,
        router_interface_lines(r)[3] == "PrivateKey = "@ + r.private_key,
        router_interface_lines(r)[4] == "ListenPort = "@ + dec_digits(
            r.external_address.port as nat,
        ),
        forall|d: int|
            0 <= d < extra_lines(r.mtu, r.table, r.preup, r.postup, r.predown, r.postdown).len()
                ==> router_interface_lines(r)[5 + d] == #[trigger] extra_lines(
                r.mtu,
                r.table,
                r.preup,
                r.postup,
                r.predown,
                r.postdown,
            )[d],
{
    lemma_extra_lines_structure(r.mtu, r.table, r.preup, r.postup, r.predown, r.postdown);
}

/// Each populated optional field of a peer's interface section yields
/// exactly one line, an absent field yields none, and the lines keep the
/// fixed order: the four required lines first, then DNS, MTU, Table, PreUp,
/// PostUp, PreDown, PostDown.
pub proof fn lemma_peer_interface_one_line_per_field(p: PeerV, pk: Seq<char>)
    ensures
        peer_interface_lines(p, pk).len() == 4 + (if p.dns is Some { 1int } else { 0int })
            + count_set_extras(p.mtu, p.table, p.preup, p.postup, p.predown, p.postdown),
        peer_interface_lines(p, pk)[0] == "# "@ + p.name,
        peer_interface_lines(p, pk)[1] == "[Interface]"@,
        peer_interface_lines(p, pk)[2] == "PrivateKey = "@ + pk,
        peer_interface_lines(p, pk)[3] == "Address = "@ + p.internal_address,
        p.dns matches Some(d) ==> peer_interface_lines(p, pk)[4] == "DNS = "@ + d,
        forall|d: int|
            0 <= d < extra_lines(p.mtu, p.table, p.preup, p.postup, p.predown, p.postdown).len()
                ==> peer_interface_lines(p, pk)[4 + (if p.dns is Some {
                1int
            } else {
                0int
            }) + d] == #[trigger] extra_lines(
                p.mtu,
                p.table,
                p.preup,
                p.postup,
                p.predown,
                p.postdown,
            )[d],
{
    lemma_extra_lines_structure(p.mtu, p.table, p.preup, p.postup, p.predown, p.postdown);
}

} // verus!
