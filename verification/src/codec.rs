//! The persisted configuration document: a line-oriented `key=value` text
//! with one `router` section followed by zero or more `peer` sections.
//!
//! Rendering and parsing are both specified here, and parsing a rendered
//! well-formed configuration is proved to give the configuration back.

use vstd::prelude::*;

use crate::configuration::{
    extension_of, path_extension, path_stem, stem_of, ConfigOptsV, ConfigV, Configuration,
};
use crate::endpoint::{
    opt_line, opt_table_text, opt_u16_text, opt_usize_text, parse_table, table_text, Peer, PeerV,
    Router, RouterV, TableType,
};
use crate::addrport::AddrPortV;
use crate::netaddr::{ip_addr_accepted, ipnet_accepted, IpNetwork};
use crate::endpoint::push_line;
use crate::textfmt::{
    concat2, dec_digits, join_lines_spec, no_nl, parse_u64, split_lines_spec,
};

verus! {

// ---------------------------------------------------------------------------
// Well-formedness: what a configuration must satisfy to be persistable.
// ---------------------------------------------------------------------------

/// A set text field is free of line breaks.
pub open spec fn opt_no_nl(v: Option<Seq<char>>) -> bool {
    match v {
        Some(s) => no_nl(s),
        None => true,
    }
}

/// A persistable router: its texts fit on single lines and its internal
/// address range is one ipnet accepts.
pub open spec fn router_wf(r: RouterV) -> bool {
    &&& no_nl(r.name)
    &&& no_nl(r.internal_address)
    &&& ipnet_accepted(r.internal_address)
    &&& no_nl(r.external_address.address)
    &&& no_nl(r.private_key)
    &&& no_nl(r.public_key)
    &&& opt_no_nl(r.preup)
    &&& opt_no_nl(r.postup)
    &&& opt_no_nl(r.predown)
    &&& opt_no_nl(r.postdown)
}

/// A persistable peer: its texts fit on single lines and its addresses are
/// ones ipnet accepts.
pub open spec fn peer_wf(p: PeerV) -> bool {
    &&& no_nl(p.name)
    &&& no_nl(p.internal_address)
    &&& ip_addr_accepted(p.internal_address)
    &&& forall|i: int|
        0 <= i < p.allowed_ips.len() ==> no_nl(#[trigger] p.allowed_ips[i]) && ipnet_accepted(
            p.allowed_ips[i],
        )
    &&& match p.dns {
        Some(d) => no_nl(d) && ip_addr_accepted(d),
        None => true,
    }
    &&& opt_no_nl(p.private_key)
    &&& no_nl(p.public_key)
    &&& opt_no_nl(p.preup)
    &&& opt_no_nl(p.postup)
    &&& opt_no_nl(p.predown)
    &&& opt_no_nl(p.postdown)
}

/// A persistable configuration.
pub open spec fn config_wf(c: ConfigV) -> bool {
    &&& router_wf(c.router)
    &&& forall|i: int| 0 <= i < c.clients.len() ==> peer_wf(#[trigger] c.clients[i])
}

// ---------------------------------------------------------------------------
// Rendering: the document's lines.
// ---------------------------------------------------------------------------

/// The extended optional fields shared by the router and the peers.
#[verifier::ext_equal]
pub struct ExtraOptionsV {
    pub mtu: Option<u16>,
    pub table: Option<TableType>,
    pub preup: Option<Seq<char>>,
    pub postup: Option<Seq<char>>,
    pub predown: Option<Seq<char>>,
    pub postdown: Option<Seq<char>>,
}

/// The extended optional fields of a router.
pub open spec fn router_extras(r: RouterV) -> ExtraOptionsV {
    ExtraOptionsV {
        mtu: r.mtu,
        table: r.table,
        preup: r.preup,
        postup: r.postup,
        predown: r.predown,
        postdown: r.postdown,
    }
}

/// The extended optional fields of a peer.
pub open spec fn peer_extras(p: PeerV) -> ExtraOptionsV {
    ExtraOptionsV {
        mtu: p.mtu,
        table: p.table,
        preup: p.preup,
        postup: p.postup,
        predown: p.predown,
        postdown: p.postdown,
    }
}

/// The document lines of the extended optional fields, in their fixed order:
/// one line per populated field, none for an absent one.
pub open spec fn doc_extra_lines(e: ExtraOptionsV) -> Seq<Seq<char>> {
    opt_line("mtu="@, opt_u16_text(e.mtu)) + opt_line("table="@, opt_table_text(e.table))
        + opt_line("preup="@, e.preup) + opt_line("postup="@, e.postup) + opt_line(
        "predown="@,
        e.predown,
    ) + opt_line("postdown="@, e.postdown)
}

/// The field lines of the router section, after its `router` header line.
pub open spec fn router_field_lines(r: RouterV) -> Seq<Seq<char>> {
    seq![
        "name="@ + r.name,
        "internal_address="@ + r.internal_address,
        "external_host="@ + r.external_address.address,
        "external_port="@ + dec_digits(r.external_address.port as nat),
        "private_key="@ + r.private_key,
        "public_key="@ + r.public_key,
    ] + doc_extra_lines(router_extras(r))
}

/// The document lines of the router section.
pub open spec fn router_doc_lines(r: RouterV) -> Seq<Seq<char>> {
    seq!["router"@] + router_field_lines(r)
}

/// The field lines of one peer section, after its `peer` header line.
pub open spec fn peer_field_lines(p: PeerV) -> Seq<Seq<char>> {
    seq!["name="@ + p.name, "internal_address="@ + p.internal_address]
        + p.allowed_ips.map_values(|n: Seq<char>| "allowed_ip="@ + n) + opt_line("dns="@, p.dns)
        + opt_line("persistent_keepalive="@, opt_usize_text(p.persistent_keepalive)) + opt_line(
        "private_key="@,
        p.private_key,
    ) + seq!["public_key="@ + p.public_key] + doc_extra_lines(peer_extras(p))
}

/// The document lines of one peer section.
pub open spec fn peer_doc_lines(p: PeerV) -> Seq<Seq<char>> {
    seq!["peer"@] + peer_field_lines(p)
}

/// The document lines of all peer sections, in list order.
pub open spec fn peers_doc_lines(ps: Seq<PeerV>) -> Seq<Seq<char>>
    decreases ps.len(),
{
    if ps.len() == 0 {
        Seq::empty()
    } else {
        peer_doc_lines(ps[0]) + peers_doc_lines(ps.skip(1))
    }
}

/// The document lines of a whole configuration.
pub open spec fn config_doc_lines(c: ConfigV) -> Seq<Seq<char>> {
    router_doc_lines(c.router) + peers_doc_lines(c.clients)
}

/// The persisted text of a configuration: its document lines joined by line
/// breaks. The transient source metadata is not part of it.
pub open spec fn render_config_text(c: ConfigV) -> Seq<char> {
    join_lines_spec(config_doc_lines(c))
}

// ---------------------------------------------------------------------------
// Parsing: from lines back to a configuration.
// ---------------------------------------------------------------------------

/// A required `key=value` line: its value and the next position, or nothing.
pub open spec fn req_field(ls: Seq<Seq<char>>, i: int, key: Seq<char>) -> Option<(Seq<char>, int)> {
    if 0 <= i < ls.len() && key.is_prefix_of(ls[i]) {
        Some((ls[i].skip(key.len() as int), i + 1))
    } else {
        None
    }
}

/// An optional `key=value` line: its value when the line at `i` carries the
/// key, and the position after it; otherwise nothing, at the same position.
pub open spec fn opt_field(ls: Seq<Seq<char>>, i: int, key: Seq<char>) -> (Option<Seq<char>>, int) {
    if 0 <= i < ls.len() && key.is_prefix_of(ls[i]) {
        (Some(ls[i].skip(key.len() as int)), i + 1)
    } else {
        (None, i)
    }
}

/// A decimal value that fits a `u16`.
pub open spec fn parse_u16_text(v: Seq<char>) -> Option<u16> {
    match parse_u64(v) {
        Some(x) => if x <= u16::MAX {
            Some(x as u16)
        } else {
            None
        },
        None => None,
    }
}

/// A decimal value that fits a `usize`.
pub open spec fn parse_usize_text(v: Seq<char>) -> Option<usize> {
    match parse_u64(v) {
        Some(x) => if x <= usize::MAX {
            Some(x as usize)
        } else {
            None
        },
        None => None,
    }
}

/// An absent optional field parses to `None`; a present one must be a valid
/// `u16` decimal.
pub open spec fn opt_parsed_u16(v: Option<Seq<char>>) -> Option<Option<u16>> {
    match v {
        None => Some(None),
        Some(t) => match parse_u16_text(t) {
            Some(x) => Some(Some(x)),
            None => None,
        },
    }
}

/// An absent optional field parses to `None`; a present one must be a valid
/// `usize` decimal.
pub open spec fn opt_parsed_usize(v: Option<Seq<char>>) -> Option<Option<usize>> {
    match v {
        None => Some(None),
        Some(t) => match parse_usize_text(t) {
            Some(x) => Some(Some(x)),
            None => None,
        },
    }
}

/// An absent optional field parses to `None`; a present one must be a valid
/// table mode.
pub open spec fn opt_parsed_table(v: Option<Seq<char>>) -> Option<Option<TableType>> {
    match v {
        None => Some(None),
        Some(t) => match parse_table(t) {
            Some(x) => Some(Some(x)),
            None => None,
        },
    }
}

/// An absent optional field parses to `None`; a present one must be a bare
/// address ipnet accepts.
pub open spec fn opt_parsed_addr(v: Option<Seq<char>>) -> Option<Option<Seq<char>>> {
    match v {
        None => Some(None),
        Some(t) => if ip_addr_accepted(t) {
            Some(Some(t))
        } else {
            None
        },
    }
}

/// Parses the extended optional fields, in their fixed order.
pub open spec fn parse_extras_at(ls: Seq<Seq<char>>, i: int) -> Option<(ExtraOptionsV, int)> {
    let (mtu_t, i1) = opt_field(ls, i, "mtu="@);
    match opt_parsed_u16(mtu_t) {
        None => None,
        Some(mtu) => {
            let (table_t, i2) = opt_field(ls, i1, "table="@);
            match opt_parsed_table(table_t) {
                None => None,
                Some(table) => {
                    let (preup, i3) = opt_field(ls, i2, "preup="@);
                    let (postup, i4) = opt_field(ls, i3, "postup="@);
                    let (predown, i5) = opt_field(ls, i4, "predown="@);
                    let (postdown, i6) = opt_field(ls, i5, "postdown="@);
                    Some((ExtraOptionsV { mtu, table, preup, postup, predown, postdown }, i6))
                },
            }
        },
    }
}

/// Parses the router section's fields, from just after the `router` line.
pub open spec fn parse_router_at(ls: Seq<Seq<char>>, i: int) -> Option<(RouterV, int)> {
    match req_field(ls, i, "name="@) {
        None => None,
        Some((name, i1)) => match req_field(ls, i1, "internal_address="@) {
            None => None,
            Some((net, i2)) => if !ipnet_accepted(net) {
                None
            } else {
                match req_field(ls, i2, "external_host="@) {
                    None => None,
                    Some((host, i3)) => match req_field(ls, i3, "external_port="@) {
                        None => None,
                        Some((pt, i4)) => match parse_u16_text(pt) {
                            None => None,
                            Some(port) => match req_field(ls, i4, "private_key="@) {
                                None => None,
                                Some((pk, i5)) => match req_field(ls, i5, "public_key="@) {
                                    None => None,
                                    Some((pubk, i6)) => match parse_extras_at(ls, i6) {
                                        None => None,
                                        Some((e, i7)) => Some(
                                            (
                                                RouterV {
                                                    name: name,
                                                    internal_address: net,
                                                    external_address: AddrPortV {
                                                        address: host,
                                                        port: port,
                                                    },
                                                    private_key: pk,
                                                    public_key: pubk,
                                                    mtu: e.mtu,
                                                    table: e.table,
                                                    preup: e.preup,
                                                    postup: e.postup,
                                                    predown: e.predown,
                                                    postdown: e.postdown,
                                                },
                                                i7,
                                            ),
                                        ),
                                    },
                                },
                            },
                        },
                    },
                }
            },
        },
    }
}

/// Parses the run of `allowed_ip=` lines: each must carry a range ipnet
/// accepts; the run ends at the first line without the key.
pub open spec fn parse_allowed_at(ls: Seq<Seq<char>>, i: int) -> Option<(Seq<Seq<char>>, int)>
    decreases ls.len() - i,
{
    if 0 <= i < ls.len() && "allowed_ip="@.is_prefix_of(ls[i]) {
        let v = ls[i].skip("allowed_ip="@.len() as int);
        if !ipnet_accepted(v) {
            None
        } else {
            match parse_allowed_at(ls, i + 1) {
                None => None,
                Some((rest, j)) => Some((seq![v] + rest, j)),
            }
        }
    } else {
        Some((Seq::empty(), i))
    }
}

/// Parses one peer section's fields, from just after the `peer` line.
pub open spec fn parse_peer_at(ls: Seq<Seq<char>>, i: int) -> Option<(PeerV, int)> {
    match req_field(ls, i, "name="@) {
        None => None,
        Some((name, i1)) => match req_field(ls, i1, "internal_address="@) {
            None => None,
            Some((addr, i2)) => if !ip_addr_accepted(addr) {
                None
            } else {
                match parse_allowed_at(ls, i2) {
                    None => None,
                    Some((nets, i3)) => {
                        let (dns_t, i4) = opt_field(ls, i3, "dns="@);
                        match opt_parsed_addr(dns_t) {
                            None => None,
                            Some(dns) => {
                                let (ka_t, i5) = opt_field(ls, i4, "persistent_keepalive="@);
                                match opt_parsed_usize(ka_t) {
                                    None => None,
                                    Some(keepalive) => {
                                        let (pk, i6) = opt_field(ls, i5, "private_key="@);
                                        match req_field(ls, i6, "public_key="@) {
                                            None => None,
                                            Some((pubk, i7)) => match parse_extras_at(ls, i7) {
                                                None => None,
                                                Some((e, i8)) => Some(
                                                    (
                                                        PeerV {
                                                            name: name,
                                                            internal_address: addr,
                                                            allowed_ips: nets,
                                                            dns: dns,
                                                            persistent_keepalive: keepalive,
                                                            private_key: pk,
                                                            public_key: pubk,
                                                            mtu: e.mtu,
                                                            table: e.table,
                                                            preup: e.preup,
                                                            postup: e.postup,
                                                            predown: e.predown,
                                                            postdown: e.postdown,
                                                        },
                                                        i8,
                                                    ),
                                                ),
                                            },
                                        }
                                    },
                                }
                            },
                        }
                    },
                }
            },
        },
    }
}

/// Parses the peer sections from position `i` to the end of the document.
pub open spec fn parse_peers_at(ls: Seq<Seq<char>>, i: int) -> Option<Seq<PeerV>>
    decreases ls.len() - i,
{
    if i == ls.len() {
        Some(Seq::empty())
    } else if 0 <= i < ls.len() && ls[i] == "peer"@ {
        match parse_peer_at(ls, i + 1) {
            None => None,
            Some((p, j)) => if i < j <= ls.len() {
                match parse_peers_at(ls, j) {
                    None => None,
                    Some(ps) => Some(seq![p] + ps),
                }
            } else {
                None
            },
        }
    } else {
        None
    }
}

/// Parses a whole document from its lines: a `router` line, the router's
/// fields, then peer sections to the end.
pub open spec fn parse_config_lines(ls: Seq<Seq<char>>) -> Option<ConfigV> {
    if ls.len() >= 1 && ls[0] == "router"@ {
        match parse_router_at(ls, 1) {
            None => None,
            Some((r, i)) => match parse_peers_at(ls, i) {
                None => None,
                Some(ps) => Some(ConfigV { router: r, clients: ps }),
            },
        }
    } else {
        None
    }
}

/// Parses a whole document from its text.
pub open spec fn parse_config_text(s: Seq<char>) -> Option<ConfigV> {
    parse_config_lines(split_lines_spec(s))
}

// ---------------------------------------------------------------------------
// The serializer.
// ---------------------------------------------------------------------------

/// Appending a peer's section lines extends the sections of the peers before
/// it.
pub proof fn lemma_peers_doc_snoc(ps: Seq<PeerV>, p: PeerV)
    ensures
        peers_doc_lines(ps.push(p)) == peers_doc_lines(ps) + peer_doc_lines(p),
    decreases ps.len(),
{
    if ps.len() == 0 {
        assert(ps.push(p)[0] == p);
        assert(ps.push(p).skip(1) =~= Seq::<PeerV>::empty());
        assert(peers_doc_lines(Seq::<PeerV>::empty()) == Seq::<Seq<char>>::empty());
        assert(peers_doc_lines(ps.push(p)) == peer_doc_lines(p) + Seq::<Seq<char>>::empty());
        assert(peer_doc_lines(p) + Seq::<Seq<char>>::empty() =~= peer_doc_lines(p));
        assert(peers_doc_lines(ps) + peer_doc_lines(p) =~= peer_doc_lines(p));
    } else {
        assert(ps.push(p).skip(1) =~= ps.skip(1).push(p));
        lemma_peers_doc_snoc(ps.skip(1), p);
        assert(ps.push(p)[0] == ps[0]);
        assert(peers_doc_lines(ps.push(p)) == peer_doc_lines(ps[0]) + (peers_doc_lines(ps.skip(1))
            + peer_doc_lines(p)));
        assert(peer_doc_lines(ps[0]) + (peers_doc_lines(ps.skip(1)) + peer_doc_lines(p)) =~= (
        peer_doc_lines(ps[0]) + peers_doc_lines(ps.skip(1))) + peer_doc_lines(p));
    }
}

/// Appends the document lines of the extended optional fields.
fn push_doc_extras(
    lines: &mut Vec<String>,
    mtu: &Option<u16>,
    table: &Option<TableType>,
    preup: &Option<String>,
    postup: &Option<String>,
    predown: &Option<String>,
    postdown: &Option<String>,
)
    ensures
        final(lines).deep_view() == old(lines).deep_view() + doc_extra_lines(
            ExtraOptionsV {
                mtu: *mtu,
                table: *table,
                preup: preup.deep_view(),
                postup: postup.deep_view(),
                predown: predown.deep_view(),
                postdown: postdown.deep_view(),
            },
        ),
{
    crate::endpoint::push_opt_u16_line(lines, "mtu=", mtu);
    crate::endpoint::push_opt_table_line(lines, "table=", table);
    crate::endpoint::push_opt_str_line(lines, "preup=", preup);
    crate::endpoint::push_opt_str_line(lines, "postup=", postup);
    crate::endpoint::push_opt_str_line(lines, "predown=", predown);
    crate::endpoint::push_opt_str_line(lines, "postdown=", postdown);
    proof {
        assert(lines.deep_view() =~= old(lines).deep_view() + doc_extra_lines(
            ExtraOptionsV {
                mtu: *mtu,
                table: *table,
                preup: preup.deep_view(),
                postup: postup.deep_view(),
                predown: predown.deep_view(),
                postdown: postdown.deep_view(),
            },
        ));
    }
}

/// Appends one peer's document section.
#[verifier::rlimit(100)]
fn push_peer_doc_lines(lines: &mut Vec<String>, peer: &Peer)
    ensures
        final(lines).deep_view() == old(lines).deep_view() + peer_doc_lines(peer@),
{
    push_line(lines, "peer".to_owned());
    push_line(lines, concat2("name=", peer.name.as_str()));
    push_line(lines, concat2("internal_address=", peer.internal_address.as_str()));
    proof {
        assert(lines.deep_view() =~= old(lines).deep_view() + seq![
            "peer"@,
            "name="@ + peer@.name,
            "internal_address="@ + peer@.internal_address,
        ]);
    }
    let ghost base = lines.deep_view();
    let m = peer.allowed_ips.len();
    let mut j: usize = 0;
    while j < m
        invariant
            0 <= j <= m,
            m == peer.allowed_ips.len(),
            lines.deep_view() == base + peer@.allowed_ips.take(j as int).map_values(
                |n: Seq<char>| "allowed_ip="@ + n,
            ),
        decreases m - j,
    {
        push_line(lines, concat2("allowed_ip=", peer.allowed_ips[j].text.as_str()));
        proof {
            assert(peer@.allowed_ips.take(j as int + 1).map_values(
                |n: Seq<char>| "allowed_ip="@ + n,
            ) =~= peer@.allowed_ips.take(j as int).map_values(
                |n: Seq<char>| "allowed_ip="@ + n,
            ).push("allowed_ip="@ + peer@.allowed_ips[j as int]));
            assert(lines.deep_view() =~= base + peer@.allowed_ips.take(j as int + 1).map_values(
                |n: Seq<char>| "allowed_ip="@ + n,
            ));
        }
        j = j + 1;
    }
    proof {
        assert(peer@.allowed_ips.take(m as int) =~= peer@.allowed_ips);
    }
    crate::endpoint::push_opt_str_line(lines, "dns=", &peer.dns);
    crate::endpoint::push_opt_usize_line(
        lines,
        "persistent_keepalive=",
        &peer.persistent_keepalive,
    );
    crate::endpoint::push_opt_str_line(lines, "private_key=", &peer.private_key);
    push_line(lines, concat2("public_key=", peer.public_key.as_str()));
    push_doc_extras(
        lines,
        &peer.mtu,
        &peer.table,
        &peer.preup,
        &peer.postup,
        &peer.predown,
        &peer.postdown,
    );
    proof {
        let tail = opt_line("dns="@, peer@.dns) + opt_line(
            "persistent_keepalive="@,
            opt_usize_text(peer@.persistent_keepalive),
        ) + opt_line("private_key="@, peer@.private_key) + seq!["public_key="@ + peer@.public_key]
            + doc_extra_lines(peer_extras(peer@));
        assert(lines.deep_view() =~= (base + peer@.allowed_ips.map_values(
            |n: Seq<char>| "allowed_ip="@ + n,
        )) + tail);
        assert(peer_field_lines(peer@) =~= (seq![
            "name="@ + peer@.name,
            "internal_address="@ + peer@.internal_address,
        ] + peer@.allowed_ips.map_values(|n: Seq<char>| "allowed_ip="@ + n)) + tail);
        assert(peer_doc_lines(peer@) =~= seq!["peer"@] + peer_field_lines(peer@));
        assert(lines.deep_view() =~= old(lines).deep_view() + peer_doc_lines(peer@));
    }
}

impl Configuration {
    /// Renders this configuration as its persisted document text. The
    /// transient source metadata is left out.
    pub fn to_text(&self) -> (r: String)
        ensures
            r@ == render_config_text(self@),
    {
        let mut lines: Vec<String> = Vec::new();
        push_line(&mut lines, "router".to_owned());
        push_line(&mut lines, concat2("name=", self.router.name.as_str()));
        push_line(
            &mut lines,
            concat2("internal_address=", self.router.internal_address.text.as_str()),
        );
        push_line(
            &mut lines,
            concat2("external_host=", self.router.external_address.address.as_str()),
        );
        let port = crate::textfmt::u64_to_string(self.router.external_address.port as u64);
        push_line(&mut lines, concat2("external_port=", port.as_str()));
        push_line(&mut lines, concat2("private_key=", self.router.private_key.as_str()));
        push_line(&mut lines, concat2("public_key=", self.router.public_key.as_str()));
        push_doc_extras(
            &mut lines,
            &self.router.mtu,
            &self.router.table,
            &self.router.preup,
            &self.router.postup,
            &self.router.predown,
            &self.router.postdown,
        );
        proof {
            assert(lines.deep_view() =~= router_doc_lines(self.router@));
        }
        let ghost base = lines.deep_view();
        let n = self.clients.len();
        let mut i: usize = 0;
        while i < n
            invariant
                0 <= i <= n,
                n == self.clients.len(),
                lines.deep_view() == base + peers_doc_lines(self@.clients.take(i as int)),
                base == router_doc_lines(self.router@),
            decreases n - i,
        {
            push_peer_doc_lines(&mut lines, &self.clients[i]);
            proof {
                assert(self@.clients.take(i as int + 1) =~= self@.clients.take(i as int).push(
                    self@.clients[i as int],
                ));
                lemma_peers_doc_snoc(self@.clients.take(i as int), self@.clients[i as int]);
                assert(lines.deep_view() =~= base + peers_doc_lines(
                    self@.clients.take(i as int + 1),
                ));
            }
            i = i + 1;
        }
        proof {
            assert(self@.clients.take(n as int) =~= self@.clients);
            assert(lines.deep_view() =~= config_doc_lines(self@));
        }
        crate::textfmt::join_lines(&lines)
    }
}

// ---------------------------------------------------------------------------
// Round trip: parsing a rendered document gives the configuration back.
// ---------------------------------------------------------------------------

/// A required field reads its rendered line back.
pub proof fn lemma_req_rt(ls: Seq<Seq<char>>, i: int, key: Seq<char>, v: Seq<char>)
    requires
        0 <= i < ls.len(),
        ls[i] == key + v,
    ensures
        req_field(ls, i, key) == Some((v, i + 1)),
{
    crate::textfmt::lemma_concat_prefix(key, v);
}

/// A present optional field reads its rendered line back.
pub proof fn lemma_opt_present(ls: Seq<Seq<char>>, i: int, key: Seq<char>, v: Seq<char>)
    requires
        0 <= i < ls.len(),
        ls[i] == key + v,
    ensures
        opt_field(ls, i, key) == (Some(v), i + 1),
{
    crate::textfmt::lemma_concat_prefix(key, v);
}

/// Parsing the rendered extended optional lines gives the fields back, when
/// what follows them is the end of the document or a `peer` header.
#[verifier::rlimit(100)]
pub proof fn lemma_parse_extras_rt(ls: Seq<Seq<char>>, i: int, e: ExtraOptionsV)
    requires
        0 <= i,
        i + doc_extra_lines(e).len() <= ls.len(),
        ls.subrange(i, i + doc_extra_lines(e).len() as int) == doc_extra_lines(e),
        i + doc_extra_lines(e).len() == ls.len() || ls[i + doc_extra_lines(e).len() as int]
            == "peer"@,
    ensures
        parse_extras_at(ls, i) == Some((e, i + doc_extra_lines(e).len() as int)),
{
    reveal_strlit("mtu=");
    reveal_strlit("table=");
    reveal_strlit("preup=");
    reveal_strlit("postup=");
    reveal_strlit("predown=");
    reveal_strlit("postdown=");
    reveal_strlit("peer");

    let rl = doc_extra_lines(e);
    let end = i + rl.len() as int;
    assert forall|d: int| 0 <= d < rl.len() implies ls[i + d] == rl[d] by {
        assert(ls.subrange(i, i + rl.len() as int)[d] == ls[i + d]);
    }
    let n1: int = if e.mtu is Some { 1int } else { 0int };
    let n2: int = if e.table is Some { 1int } else { 0int };
    let n3: int = if e.preup is Some { 1int } else { 0int };
    let n4: int = if e.postup is Some { 1int } else { 0int };
    let n5: int = if e.predown is Some { 1int } else { 0int };
    let n6: int = if e.postdown is Some { 1int } else { 0int };
    assert(rl.len() == n1 + n2 + n3 + n4 + n5 + n6);
    let p0 = i;
    let p1 = p0 + n1;
    let p2 = p1 + n2;
    let p3 = p2 + n3;
    let p4 = p3 + n4;
    let p5 = p4 + n5;
    let p6 = p5 + n6;
    assert(p6 == end);

    if end < ls.len() {
        assert(ls[end] == "peer"@);
        crate::textfmt::lemma_not_prefix_exact("mtu="@, "peer"@, 0);
        crate::textfmt::lemma_not_prefix_exact("table="@, "peer"@, 0);
        crate::textfmt::lemma_not_prefix_exact("preup="@, "peer"@, 1);
        crate::textfmt::lemma_not_prefix_exact("postup="@, "peer"@, 1);
        crate::textfmt::lemma_not_prefix_exact("predown="@, "peer"@, 1);
        crate::textfmt::lemma_not_prefix_exact("postdown="@, "peer"@, 1);
    }
    match e.table {
        Some(t) => {
            assert(rl[n1] == "table="@ + table_text(t));
            crate::textfmt::lemma_not_prefix("mtu="@, "table="@, 0, table_text(t));
        },
        None => {},
    }
    match e.preup {
        Some(v) => {
            assert(rl[n1 + n2] == "preup="@ + v);
            crate::textfmt::lemma_not_prefix("mtu="@, "preup="@, 0, v);
            crate::textfmt::lemma_not_prefix("table="@, "preup="@, 0, v);
        },
        None => {},
    }
    match e.postup {
        Some(v) => {
            assert(rl[n1 + n2 + n3] == "postup="@ + v);
            crate::textfmt::lemma_not_prefix("mtu="@, "postup="@, 0, v);
            crate::textfmt::lemma_not_prefix("table="@, "postup="@, 0, v);
            crate::textfmt::lemma_not_prefix("preup="@, "postup="@, 1, v);
        },
        None => {},
    }
    match e.predown {
        Some(v) => {
            assert(rl[n1 + n2 + n3 + n4] == "predown="@ + v);
            crate::textfmt::lemma_not_prefix("mtu="@, "predown="@, 0, v);
            crate::textfmt::lemma_not_prefix("table="@, "predown="@, 0, v);
            crate::textfmt::lemma_not_prefix("preup="@, "predown="@, 3, v);
            crate::textfmt::lemma_not_prefix("postup="@, "predown="@, 1, v);
        },
        None => {},
    }
    match e.postdown {
        Some(v) => {
            assert(rl[n1 + n2 + n3 + n4 + n5] == "postdown="@ + v);
            crate::textfmt::lemma_not_prefix("mtu="@, "postdown="@, 0, v);
            crate::textfmt::lemma_not_prefix("table="@, "postdown="@, 0, v);
            crate::textfmt::lemma_not_prefix("preup="@, "postdown="@, 1, v);
            crate::textfmt::lemma_not_prefix("postup="@, "postdown="@, 4, v);
            crate::textfmt::lemma_not_prefix("predown="@, "postdown="@, 1, v);
        },
        None => {},
    }

    // mtu
    match e.mtu {
        Some(x) => {
            assert(rl[0] == "mtu="@ + dec_digits(x as nat));
            lemma_opt_present(ls, p0, "mtu="@, dec_digits(x as nat));
            crate::textfmt::lemma_dec_digits_roundtrip(x as u64);
            assert(opt_parsed_u16(Some(dec_digits(x as nat))) == Some(Some(x)));
        },
        None => {
            if p0 < ls.len() {
                assert(!("mtu="@).is_prefix_of(ls[p0]));
            }
            assert(opt_field(ls, p0, "mtu="@) == (None::<Seq<char>>, p0));
        },
    }
    assert(opt_field(ls, p0, "mtu="@).1 == p1);

    // table
    match e.table {
        Some(t) => {
            lemma_opt_present(ls, p1, "table="@, table_text(t));
            crate::endpoint::lemma_table_roundtrip(t);
            assert(opt_parsed_table(Some(table_text(t))) == Some(Some(t)));
        },
        None => {
            if p1 < ls.len() {
                assert(!("table="@).is_prefix_of(ls[p1]));
            }
            assert(opt_field(ls, p1, "table="@) == (None::<Seq<char>>, p1));
        },
    }
    assert(opt_field(ls, p1, "table="@).1 == p2);

    // preup
    match e.preup {
        Some(v) => {
            lemma_opt_present(ls, p2, "preup="@, v);
        },
        None => {
            if p2 < ls.len() {
                assert(!("preup="@).is_prefix_of(ls[p2]));
            }
            assert(opt_field(ls, p2, "preup="@) == (None::<Seq<char>>, p2));
        },
    }
    assert(opt_field(ls, p2, "preup="@) == (e.preup, p3));

    // postup
    match e.postup {
        Some(v) => {
            lemma_opt_present(ls, p3, "postup="@, v);
        },
        None => {
            if p3 < ls.len() {
                assert(!("postup="@).is_prefix_of(ls[p3]));
            }
            assert(opt_field(ls, p3, "postup="@) == (None::<Seq<char>>, p3));
        },
    }
    assert(opt_field(ls, p3, "postup="@) == (e.postup, p4));

    // predown
    match e.predown {
        Some(v) => {
            lemma_opt_present(ls, p4, "predown="@, v);
        },
        None => {
            if p4 < ls.len() {
                assert(!("predown="@).is_prefix_of(ls[p4]));
            }
            assert(opt_field(ls, p4, "predown="@) == (None::<Seq<char>>, p4));
        },
    }
    assert(opt_field(ls, p4, "predown="@) == (e.predown, p5));

    // postdown
    match e.postdown {
        Some(v) => {
            lemma_opt_present(ls, p5, "postdown="@, v);
        },
        None => {
            if p5 < ls.len() {
                assert(!("postdown="@).is_prefix_of(ls[p5]));
            }
            assert(opt_field(ls, p5, "postdown="@) == (None::<Seq<char>>, p5));
        },
    }
    assert(opt_field(ls, p5, "postdown="@) == (e.postdown, p6));

    assert(parse_extras_at(ls, i) == Some((e, end)));
}

/// Parsing the rendered router field lines gives the router back, when what
/// follows them is the end of the document or a `peer` header.
#[verifier::rlimit(100)]
#[verifier::spinoff_prover]
pub proof fn lemma_parse_router_rt(ls: Seq<Seq<char>>, i: int, r: RouterV)
    requires
        router_wf(r),
        0 <= i,
        i + router_field_lines(r).len() <= ls.len(),
        ls.subrange(i, i + router_field_lines(r).len() as int) == router_field_lines(r),
        i + router_field_lines(r).len() == ls.len() || ls[i + router_field_lines(r).len() as int]
            == "peer"@,
    ensures
        parse_router_at(ls, i) == Some((r, i + router_field_lines(r).len() as int)),
{
    let rfl = router_field_lines(r);
    let end = i + rfl.len() as int;
    assert forall|d: int| 0 <= d < rfl.len() implies ls[i + d] == rfl[d] by {
        assert(ls.subrange(i, i + rfl.len() as int)[d] == ls[i + d]);
    }
    assert(rfl[0] == "name="@ + r.name);
    assert(rfl[1] == "internal_address="@ + r.internal_address);
    assert(rfl[2] == "external_host="@ + r.external_address.address);
    assert(rfl[3] == "external_port="@ + dec_digits(r.external_address.port as nat));
    assert(rfl[4] == "private_key="@ + r.private_key);
    assert(rfl[5] == "public_key="@ + r.public_key);
    lemma_req_rt(ls, i, "name="@, r.name);
    lemma_req_rt(ls, i + 1, "internal_address="@, r.internal_address);
    lemma_req_rt(ls, i + 2, "external_host="@, r.external_address.address);
    lemma_req_rt(ls, i + 3, "external_port="@, dec_digits(r.external_address.port as nat));
    crate::textfmt::lemma_dec_digits_roundtrip(r.external_address.port as u64);
    assert(parse_u16_text(dec_digits(r.external_address.port as nat)) == Some(
        r.external_address.port,
    ));
    lemma_req_rt(ls, i + 4, "private_key="@, r.private_key);
    lemma_req_rt(ls, i + 5, "public_key="@, r.public_key);
    let ex = router_extras(r);
    assert(ls.subrange(i + 6, i + 6 + doc_extra_lines(ex).len() as int) =~= doc_extra_lines(ex))
        by {
        assert forall|d: int| 0 <= d < doc_extra_lines(ex).len() implies ls[i + 6 + d]
            == doc_extra_lines(ex)[d] by {
            assert(rfl[6 + d] == doc_extra_lines(ex)[d]);
        }
    }
    lemma_parse_extras_rt(ls, i + 6, ex);
    assert(parse_router_at(ls, i) == Some((r, end)));
}

/// Parsing the rendered `allowed_ip=` lines gives the list back, when the
/// line after them carries another key.
pub proof fn lemma_parse_allowed_rt(ls: Seq<Seq<char>>, i: int, nets: Seq<Seq<char>>)
    requires
        0 <= i,
        i + nets.len() < ls.len(),
        forall|j: int| 0 <= j < nets.len() ==> ipnet_accepted(#[trigger] nets[j]),
        ls.subrange(i, i + nets.len() as int) == nets.map_values(
            |n: Seq<char>| "allowed_ip="@ + n,
        ),
        !("allowed_ip="@).is_prefix_of(ls[i + nets.len() as int]),
    ensures
        parse_allowed_at(ls, i) == Some((nets, i + nets.len() as int)),
    decreases nets.len(),
{
    if nets.len() == 0 {
        assert(nets =~= Seq::<Seq<char>>::empty());
    } else {
        assert(ls.subrange(i, i + nets.len() as int)[0] == ls[i]);
        assert(ls[i] == "allowed_ip="@ + nets[0]);
        crate::textfmt::lemma_concat_prefix("allowed_ip="@, nets[0]);
        assert(ls[i].skip("allowed_ip="@.len() as int) == nets[0]);
        let tail = nets.skip(1);
        assert forall|j: int| 0 <= j < tail.len() implies ipnet_accepted(#[trigger] tail[j]) by {
            assert(tail[j] == nets[j + 1]);
        }
        assert(ls.subrange(i + 1, i + 1 + tail.len() as int) =~= tail.map_values(
            |n: Seq<char>| "allowed_ip="@ + n,
        )) by {
            assert forall|d: int| 0 <= d < tail.len() implies ls[i + 1 + d] == ("allowed_ip="@
                + tail[d]) by {
                assert(ls.subrange(i, i + nets.len() as int)[d + 1] == ls[i + 1 + d]);
                assert(nets.map_values(|n: Seq<char>| "allowed_ip="@ + n)[d + 1] == "allowed_ip="@
                    + nets[d + 1]);
                assert(tail[d] == nets[d + 1]);
            }
        }
        lemma_parse_allowed_rt(ls, i + 1, tail);
        assert(seq![nets[0]] + tail =~= nets);
    }
}

/// Position of the `dns` line inside a peer's field lines, whether present
/// or not.
pub open spec fn peer_dns_pos(p: PeerV) -> int {
    2 + p.allowed_ips.len() as int
}

/// Position of the `persistent_keepalive` line inside a peer's field lines.
pub open spec fn peer_ka_pos(p: PeerV) -> int {
    peer_dns_pos(p) + (if p.dns is Some { 1int } else { 0int })
}

/// Position of the `private_key` line inside a peer's field lines.
pub open spec fn peer_pk_pos(p: PeerV) -> int {
    peer_ka_pos(p) + (if p.persistent_keepalive is Some { 1int } else { 0int })
}

/// Position of the `public_key` line inside a peer's field lines.
pub open spec fn peer_pub_pos(p: PeerV) -> int {
    peer_pk_pos(p) + (if p.private_key is Some { 1int } else { 0int })
}

/// Position of the extended optional lines inside a peer's field lines.
pub open spec fn peer_extras_pos(p: PeerV) -> int {
    peer_pub_pos(p) + 1
}

/// Where each line of a peer section sits.
#[verifier::spinoff_prover]
#[verifier::rlimit(100)]
proof fn lemma_peer_field_layout(p: PeerV)
    ensures
        peer_field_lines(p).len() == peer_extras_pos(p) + doc_extra_lines(peer_extras(p)).len(),
        peer_field_lines(p)[0] == "name="@ + p.name,
        peer_field_lines(p)[1] == "internal_address="@ + p.internal_address,
        forall|d: int|
            0 <= d < p.allowed_ips.len() ==> peer_field_lines(p)[2 + d] == "allowed_ip="@
                + #[trigger] p.allowed_ips[d],
        match p.dns {
            Some(v) => peer_field_lines(p)[peer_dns_pos(p)] == "dns="@ + v,
            None => true,
        },
        match p.persistent_keepalive {
            Some(x) => peer_field_lines(p)[peer_ka_pos(p)] == "persistent_keepalive="@
                + dec_digits(x as nat),
            None => true,
        },
        match p.private_key {
            Some(v) => peer_field_lines(p)[peer_pk_pos(p)] == "private_key="@ + v,
            None => true,
        },
        peer_field_lines(p)[peer_pub_pos(p)] == "public_key="@ + p.public_key,
        forall|d: int|
            0 <= d < doc_extra_lines(peer_extras(p)).len() ==> peer_field_lines(p)[
                peer_extras_pos(p) + d] == #[trigger] doc_extra_lines(peer_extras(p))[d],
{
    let pfl = peer_field_lines(p);
    let m = p.allowed_ips.len() as int;
    assert forall|d: int| 0 <= d < m implies pfl[2 + d] == "allowed_ip="@
        + #[trigger] p.allowed_ips[d] by {
        assert(pfl[2 + d] == p.allowed_ips.map_values(|n: Seq<char>| "allowed_ip="@ + n)[d]);
    }
    assert forall|d: int| 0 <= d < doc_extra_lines(peer_extras(p)).len() implies pfl[
        peer_extras_pos(p) + d] == #[trigger] doc_extra_lines(peer_extras(p))[d] by {}
}

/// No peer field key reads as a prefix of a line carrying one of the later
/// keys.
proof fn lemma_peer_key_facts()
    ensures
        forall|v: Seq<char>| !("allowed_ip="@).is_prefix_of(#[trigger] ("dns="@ + v)),
        forall|v: Seq<char>|
            !("allowed_ip="@).is_prefix_of(#[trigger] ("persistent_keepalive="@ + v)),
        forall|v: Seq<char>| !("allowed_ip="@).is_prefix_of(#[trigger] ("private_key="@ + v)),
        forall|v: Seq<char>| !("allowed_ip="@).is_prefix_of(#[trigger] ("public_key="@ + v)),
        forall|v: Seq<char>| !("dns="@).is_prefix_of(#[trigger] ("persistent_keepalive="@ + v)),
        forall|v: Seq<char>| !("dns="@).is_prefix_of(#[trigger] ("private_key="@ + v)),
        forall|v: Seq<char>| !("dns="@).is_prefix_of(#[trigger] ("public_key="@ + v)),
        forall|v: Seq<char>|
            !("persistent_keepalive="@).is_prefix_of(#[trigger] ("private_key="@ + v)),
        forall|v: Seq<char>|
            !("persistent_keepalive="@).is_prefix_of(#[trigger] ("public_key="@ + v)),
        forall|v: Seq<char>| !("private_key="@).is_prefix_of(#[trigger] ("public_key="@ + v)),
{
    reveal_strlit("allowed_ip=");
    reveal_strlit("dns=");
    reveal_strlit("persistent_keepalive=");
    reveal_strlit("private_key=");
    reveal_strlit("public_key=");
    assert forall|v: Seq<char>| !("allowed_ip="@).is_prefix_of(#[trigger] ("dns="@ + v)) by {
        crate::textfmt::lemma_not_prefix("allowed_ip="@, "dns="@, 0, v);
    }
    assert forall|v: Seq<char>|
        !("allowed_ip="@).is_prefix_of(#[trigger] ("persistent_keepalive="@ + v)) by {
        crate::textfmt::lemma_not_prefix("allowed_ip="@, "persistent_keepalive="@, 0, v);
    }
    assert forall|v: Seq<char>|
        !("allowed_ip="@).is_prefix_of(#[trigger] ("private_key="@ + v)) by {
        crate::textfmt::lemma_not_prefix("allowed_ip="@, "private_key="@, 0, v);
    }
    assert forall|v: Seq<char>| !("allowed_ip="@).is_prefix_of(#[trigger] ("public_key="@ + v)) by {
        crate::textfmt::lemma_not_prefix("allowed_ip="@, "public_key="@, 0, v);
    }
    assert forall|v: Seq<char>|
        !("dns="@).is_prefix_of(#[trigger] ("persistent_keepalive="@ + v)) by {
        crate::textfmt::lemma_not_prefix("dns="@, "persistent_keepalive="@, 0, v);
    }
    assert forall|v: Seq<char>| !("dns="@).is_prefix_of(#[trigger] ("private_key="@ + v)) by {
        crate::textfmt::lemma_not_prefix("dns="@, "private_key="@, 0, v);
    }
    assert forall|v: Seq<char>| !("dns="@).is_prefix_of(#[trigger] ("public_key="@ + v)) by {
        crate::textfmt::lemma_not_prefix("dns="@, "public_key="@, 0, v);
    }
    assert forall|v: Seq<char>|
        !("persistent_keepalive="@).is_prefix_of(#[trigger] ("private_key="@ + v)) by {
        crate::textfmt::lemma_not_prefix("persistent_keepalive="@, "private_key="@, 1, v);
    }
    assert forall|v: Seq<char>|
        !("persistent_keepalive="@).is_prefix_of(#[trigger] ("public_key="@ + v)) by {
        crate::textfmt::lemma_not_prefix("persistent_keepalive="@, "public_key="@, 1, v);
    }
    assert forall|v: Seq<char>| !("private_key="@).is_prefix_of(#[trigger] ("public_key="@ + v)) by {
        crate::textfmt::lemma_not_prefix("private_key="@, "public_key="@, 1, v);
    }
}

/// Parsing the rendered peer field lines gives the peer back, when what
/// follows them is the end of the document or a `peer` header.
#[verifier::rlimit(100)]
#[verifier::spinoff_prover]
pub proof fn lemma_parse_peer_rt(ls: Seq<Seq<char>>, i: int, p: PeerV)
    requires
        peer_wf(p),
        0 <= i,
        i + peer_field_lines(p).len() <= ls.len(),
        ls.subrange(i, i + peer_field_lines(p).len() as int) == peer_field_lines(p),
        i + peer_field_lines(p).len() == ls.len() || ls[i + peer_field_lines(p).len() as int]
            == "peer"@,
    ensures
        parse_peer_at(ls, i) == Some((p, i + peer_field_lines(p).len() as int)),
{
    lemma_peer_key_facts();
    lemma_peer_field_layout(p);

    let pfl = peer_field_lines(p);
    let end = i + pfl.len() as int;
    assert forall|d: int| 0 <= d < pfl.len() implies ls[i + d] == pfl[d] by {
        assert(ls.subrange(i, i + pfl.len() as int)[d] == ls[i + d]);
    }
    let m = p.allowed_ips.len() as int;
    let ex = peer_extras(p);

    lemma_req_rt(ls, i, "name="@, p.name);
    lemma_req_rt(ls, i + 1, "internal_address="@, p.internal_address);

    // the run of allowed_ip lines sits at q0, and the line after it carries
    // one of the dns / keepalive / private_key / public_key keys
    let q0 = i + 2;
    let q1 = i + peer_dns_pos(p);
    let q2 = i + peer_ka_pos(p);
    let q3 = i + peer_pk_pos(p);
    let q4 = i + peer_pub_pos(p);
    let q5 = i + peer_extras_pos(p);

    assert(ls.subrange(q0, q0 + m) =~= p.allowed_ips.map_values(
        |n: Seq<char>| "allowed_ip="@ + n,
    )) by {
        assert forall|d: int| 0 <= d < m implies #[trigger] ls[q0 + d]
            == p.allowed_ips.map_values(|n: Seq<char>| "allowed_ip="@ + n)[d] by {
            assert(ls[q0 + d] == pfl[2 + d]);
            assert(pfl[2 + d] == "allowed_ip="@ + p.allowed_ips[d]);
            assert(p.allowed_ips.map_values(|n: Seq<char>| "allowed_ip="@ + n)[d] == "allowed_ip="@
                + p.allowed_ips[d]);
        }
    }

    // allowed list: the line right after the run exists and carries another key
    assert(q1 < ls.len());
    assert(!("allowed_ip="@).is_prefix_of(ls[q1])) by {
        match p.dns {
            Some(v) => {
                assert(ls[q1] == "dns="@ + v);
            },
            None => match p.persistent_keepalive {
                Some(x) => {
                    assert(ls[q1] == "persistent_keepalive="@ + dec_digits(x as nat));
                },
                None => match p.private_key {
                    Some(v) => {
                        assert(ls[q1] == "private_key="@ + v);
                    },
                    None => {
                        assert(ls[q1] == "public_key="@ + p.public_key);
                    },
                },
            },
        }
    }
    lemma_parse_allowed_rt(ls, q0, p.allowed_ips);

    // dns
    match p.dns {
        Some(v) => {
            lemma_opt_present(ls, q1, "dns="@, v);
            assert(opt_parsed_addr(Some(v)) == Some(Some(v)));
        },
        None => {
            assert(!("dns="@).is_prefix_of(ls[q1])) by {
                match p.persistent_keepalive {
                    Some(x) => {
                        assert(ls[q1] == "persistent_keepalive="@ + dec_digits(x as nat));
                    },
                    None => match p.private_key {
                        Some(v) => {
                            assert(ls[q1] == "private_key="@ + v);
                        },
                        None => {
                            assert(ls[q1] == "public_key="@ + p.public_key);
                        },
                    },
                }
            }
            assert(opt_field(ls, q1, "dns="@) == (None::<Seq<char>>, q1));
        },
    }
    assert(opt_field(ls, q1, "dns="@) == (p.dns, q2));

    // keepalive
    match p.persistent_keepalive {
        Some(x) => {
            lemma_opt_present(ls, q2, "persistent_keepalive="@, dec_digits(x as nat));
            crate::textfmt::lemma_dec_digits_roundtrip(x as u64);
            assert(parse_usize_text(dec_digits(x as nat)) == Some(x));
            assert(opt_parsed_usize(Some(dec_digits(x as nat))) == Some(Some(x)));
        },
        None => {
            assert(!("persistent_keepalive="@).is_prefix_of(ls[q2])) by {
                match p.private_key {
                    Some(v) => {
                        assert(ls[q2] == "private_key="@ + v);
                    },
                    None => {
                        assert(ls[q2] == "public_key="@ + p.public_key);
                    },
                }
            }
            assert(opt_field(ls, q2, "persistent_keepalive="@) == (None::<Seq<char>>, q2));
        },
    }

    // private key
    match p.private_key {
        Some(v) => {
            lemma_opt_present(ls, q3, "private_key="@, v);
        },
        None => {
            assert(!("private_key="@).is_prefix_of(ls[q3])) by {
                assert(ls[q3] == "public_key="@ + p.public_key);
            }
            assert(opt_field(ls, q3, "private_key="@) == (None::<Seq<char>>, q3));
        },
    }
    assert(opt_field(ls, q3, "private_key="@) == (p.private_key, q4));

    // public key
    assert(ls[q4] == "public_key="@ + p.public_key);
    lemma_req_rt(ls, q4, "public_key="@, p.public_key);

    // extras
    assert(ls.subrange(q5, q5 + doc_extra_lines(ex).len() as int) =~= doc_extra_lines(ex)) by {
        assert forall|d: int| 0 <= d < doc_extra_lines(ex).len() implies ls[q5 + d]
            == doc_extra_lines(ex)[d] by {
            assert(ls[q5 + d] == pfl[peer_extras_pos(p) + d]);
        }
    }
    lemma_parse_extras_rt(ls, q5, ex);
    assert(parse_peer_at(ls, i) == Some((p, end)));
}

/// Parsing the rendered peer sections, which run to the end of the document,
/// gives the peer list back.
pub proof fn lemma_parse_peers_rt(ls: Seq<Seq<char>>, i: int, ps: Seq<PeerV>)
    requires
        0 <= i <= ls.len(),
        forall|j: int| 0 <= j < ps.len() ==> peer_wf(#[trigger] ps[j]),
        ls.subrange(i, ls.len() as int) == peers_doc_lines(ps),
    ensures
        parse_peers_at(ls, i) == Some(ps),
    decreases ps.len(),
{
    if ps.len() == 0 {
        assert(peers_doc_lines(ps).len() == 0);
        assert(i == ls.len());
        assert(ps =~= Seq::<PeerV>::empty());
    } else {
        let pdl = peers_doc_lines(ps);
        assert(pdl == peer_doc_lines(ps[0]) + peers_doc_lines(ps.skip(1)));
        assert forall|d: int| 0 <= d < pdl.len() implies ls[i + d] == pdl[d] by {
            assert(ls.subrange(i, ls.len() as int)[d] == ls[i + d]);
        }
        assert(peer_doc_lines(ps[0])[0] == "peer"@);
        assert(ls[i + 0] == pdl[0]);
        assert(ls[i] == "peer"@);
        let pfl = peer_field_lines(ps[0]);
        let end0 = i + 1 + pfl.len() as int;
        assert(ls.subrange(i + 1, i + 1 + pfl.len() as int) =~= pfl) by {
            assert forall|d: int| 0 <= d < pfl.len() implies ls[i + 1 + d] == pfl[d] by {
                assert(pdl[1 + d] == peer_doc_lines(ps[0])[1 + d]);
                assert(peer_doc_lines(ps[0])[1 + d] == pfl[d]);
            }
        }
        if ps.len() > 1 {
            assert(peers_doc_lines(ps.skip(1))[0] == peer_doc_lines(ps.skip(1)[0])[0]);
            assert(ls[i + (1 + pfl.len() as int)] == pdl[1 + pfl.len() as int]);
            assert(pdl[1 + pfl.len() as int] == peers_doc_lines(ps.skip(1))[0]);
            assert(ls[end0] == "peer"@);
        } else {
            assert(peers_doc_lines(ps.skip(1)).len() == 0);
            assert(end0 == ls.len());
        }
        assert(peer_wf(ps[0]));
        lemma_parse_peer_rt(ls, i + 1, ps[0]);
        let tail = ps.skip(1);
        assert forall|j: int| 0 <= j < tail.len() implies peer_wf(#[trigger] tail[j]) by {
            assert(tail[j] == ps[j + 1]);
        }
        assert(ls.subrange(end0, ls.len() as int) =~= peers_doc_lines(tail)) by {
            assert forall|d: int| 0 <= d < ls.len() - end0 implies ls[end0 + d]
                == peers_doc_lines(tail)[d] by {
                assert(pdl[peer_doc_lines(ps[0]).len() + d] == peers_doc_lines(tail)[d]);
            }
        }
        lemma_parse_peers_rt(ls, end0, tail);
        assert(seq![ps[0]] + tail =~= ps);
    }
}

/// Every rendered extended optional line is free of line breaks.
proof fn lemma_extra_lines_ok(e: ExtraOptionsV)
    requires
        opt_no_nl(e.preup),
        opt_no_nl(e.postup),
        opt_no_nl(e.predown),
        opt_no_nl(e.postdown),
    ensures
        crate::textfmt::lines_ok(doc_extra_lines(e)),
{
    reveal_strlit("mtu=");
    reveal_strlit("table=");
    reveal_strlit("preup=");
    reveal_strlit("postup=");
    reveal_strlit("predown=");
    reveal_strlit("postdown=");
    reveal_strlit("off");
    reveal_strlit("auto");
    assert(no_nl("mtu="@));
    assert(no_nl("table="@));
    assert(no_nl("preup="@));
    assert(no_nl("postup="@));
    assert(no_nl("predown="@));
    assert(no_nl("postdown="@));
    match e.mtu {
        Some(x) => {
            crate::textfmt::lemma_dec_digits_no_nl(x as nat);
            crate::textfmt::lemma_no_nl_concat("mtu="@, dec_digits(x as nat));
        },
        None => {},
    }
    match e.table {
        Some(t) => {
            match t {
                TableType::Off => {
                    assert(no_nl("off"@));
                },
                TableType::Auto => {
                    assert(no_nl("auto"@));
                },
                TableType::Custom(v) => {
                    crate::textfmt::lemma_dec_digits_no_nl(v as nat);
                },
            }
            crate::textfmt::lemma_no_nl_concat("table="@, table_text(t));
        },
        None => {},
    }
    match e.preup {
        Some(v) => {
            crate::textfmt::lemma_no_nl_concat("preup="@, v);
        },
        None => {},
    }
    match e.postup {
        Some(v) => {
            crate::textfmt::lemma_no_nl_concat("postup="@, v);
        },
        None => {},
    }
    match e.predown {
        Some(v) => {
            crate::textfmt::lemma_no_nl_concat("predown="@, v);
        },
        None => {},
    }
    match e.postdown {
        Some(v) => {
            crate::textfmt::lemma_no_nl_concat("postdown="@, v);
        },
        None => {},
    }
    let rl = doc_extra_lines(e);
    assert forall|k: int| 0 <= k < rl.len() implies no_nl(#[trigger] rl[k]) by {}
}

/// Every rendered router line is free of line breaks.
proof fn lemma_router_lines_ok(r: RouterV)
    requires
        router_wf(r),
    ensures
        crate::textfmt::lines_ok(router_doc_lines(r)),
{
    reveal_strlit("router");
    reveal_strlit("name=");
    reveal_strlit("internal_address=");
    reveal_strlit("external_host=");
    reveal_strlit("external_port=");
    reveal_strlit("private_key=");
    reveal_strlit("public_key=");
    assert(no_nl("router"@));
    crate::textfmt::lemma_no_nl_concat("name="@, r.name);
    crate::textfmt::lemma_no_nl_concat("internal_address="@, r.internal_address);
    crate::textfmt::lemma_no_nl_concat("external_host="@, r.external_address.address);
    crate::textfmt::lemma_dec_digits_no_nl(r.external_address.port as nat);
    crate::textfmt::lemma_no_nl_concat(
        "external_port="@,
        dec_digits(r.external_address.port as nat),
    );
    crate::textfmt::lemma_no_nl_concat("private_key="@, r.private_key);
    crate::textfmt::lemma_no_nl_concat("public_key="@, r.public_key);
    lemma_extra_lines_ok(router_extras(r));
    let dl = router_doc_lines(r);
    assert forall|k: int| 0 <= k < dl.len() implies no_nl(#[trigger] dl[k]) by {
        if k >= 7 {
            assert(dl[k] == doc_extra_lines(router_extras(r))[k - 7]);
            assert(no_nl(doc_extra_lines(router_extras(r))[k - 7]));
        }
    }
}

/// Every rendered peer line is free of line breaks.
proof fn lemma_peer_lines_ok(p: PeerV)
    requires
        peer_wf(p),
    ensures
        crate::textfmt::lines_ok(peer_doc_lines(p)),
{
    reveal_strlit("peer");
    reveal_strlit("name=");
    reveal_strlit("internal_address=");
    reveal_strlit("allowed_ip=");
    reveal_strlit("dns=");
    reveal_strlit("persistent_keepalive=");
    reveal_strlit("private_key=");
    reveal_strlit("public_key=");
    assert(no_nl("peer"@));
    assert(no_nl("allowed_ip="@));
    crate::textfmt::lemma_no_nl_concat("name="@, p.name);
    crate::textfmt::lemma_no_nl_concat("internal_address="@, p.internal_address);
    assert forall|d: int| 0 <= d < p.allowed_ips.len() implies no_nl(
        p.allowed_ips.map_values(|n: Seq<char>| "allowed_ip="@ + n)[#[trigger] (d + 0)],
    ) by {
        crate::textfmt::lemma_no_nl_concat("allowed_ip="@, p.allowed_ips[d]);
        assert(p.allowed_ips.map_values(|n: Seq<char>| "allowed_ip="@ + n)[d] == "allowed_ip="@
            + p.allowed_ips[d]);
    }
    match p.dns {
        Some(v) => {
            crate::textfmt::lemma_no_nl_concat("dns="@, v);
        },
        None => {},
    }
    match p.persistent_keepalive {
        Some(x) => {
            crate::textfmt::lemma_dec_digits_no_nl(x as nat);
            crate::textfmt::lemma_no_nl_concat("persistent_keepalive="@, dec_digits(x as nat));
        },
        None => {},
    }
    match p.private_key {
        Some(v) => {
            crate::textfmt::lemma_no_nl_concat("private_key="@, v);
        },
        None => {},
    }
    crate::textfmt::lemma_no_nl_concat("public_key="@, p.public_key);
    lemma_extra_lines_ok(peer_extras(p));
    let dl = peer_doc_lines(p);
    let m = p.allowed_ips.len() as int;
    let d1: int = if p.dns is Some { 1int } else { 0int };
    let d2: int = if p.persistent_keepalive is Some { 1int } else { 0int };
    let d3: int = if p.private_key is Some { 1int } else { 0int };
    assert forall|k: int| 0 <= k < dl.len() implies no_nl(#[trigger] dl[k]) by {
        if 3 <= k < 3 + m {
            assert(dl[k] == p.allowed_ips.map_values(|n: Seq<char>| "allowed_ip="@ + n)[k - 3]);
        } else if k >= 3 + m + d1 + d2 + d3 + 1 {
            assert(dl[k] == doc_extra_lines(peer_extras(p))[k - (3 + m + d1 + d2 + d3 + 1)]);
            assert(no_nl(doc_extra_lines(peer_extras(p))[k - (3 + m + d1 + d2 + d3 + 1)]));
        }
    }
}

/// Every rendered line of every peer section is free of line breaks.
proof fn lemma_peers_lines_ok(ps: Seq<PeerV>)
    requires
        forall|j: int| 0 <= j < ps.len() ==> peer_wf(#[trigger] ps[j]),
    ensures
        crate::textfmt::lines_ok(peers_doc_lines(ps)),
    decreases ps.len(),
{
    if ps.len() > 0 {
        lemma_peer_lines_ok(ps[0]);
        assert forall|j: int| 0 <= j < ps.skip(1).len() implies peer_wf(
            #[trigger] ps.skip(1)[j],
        ) by {
            assert(ps.skip(1)[j] == ps[j + 1]);
        }
        lemma_peers_lines_ok(ps.skip(1));
        let pdl = peers_doc_lines(ps);
        let hd = peer_doc_lines(ps[0]);
        assert forall|k: int| 0 <= k < pdl.len() implies no_nl(#[trigger] pdl[k]) by {
            if k < hd.len() {
                assert(pdl[k] == hd[k]);
                assert(no_nl(hd[k]));
            } else {
                assert(pdl[k] == peers_doc_lines(ps.skip(1))[k - hd.len()]);
                assert(no_nl(peers_doc_lines(ps.skip(1))[k - hd.len()]));
            }
        }
    }
}

/// Every rendered line of a well-formed configuration is free of line
/// breaks, and there is at least one line.
proof fn lemma_config_lines_ok(c: ConfigV)
    requires
        config_wf(c),
    ensures
        crate::textfmt::lines_ok(config_doc_lines(c)),
        config_doc_lines(c).len() >= 1,
{
    lemma_router_lines_ok(c.router);
    lemma_peers_lines_ok(c.clients);
    let dl = config_doc_lines(c);
    let rdl = router_doc_lines(c.router);
    assert forall|k: int| 0 <= k < dl.len() implies no_nl(#[trigger] dl[k]) by {
        if k < rdl.len() {
            assert(dl[k] == rdl[k]);
            assert(no_nl(rdl[k]));
        } else {
            assert(dl[k] == peers_doc_lines(c.clients)[k - rdl.len()]);
            assert(no_nl(peers_doc_lines(c.clients)[k - rdl.len()]));
        }
    }
}

/// Round trip: parsing the rendered document of a well-formed configuration
/// gives back exactly its router and its peer list. The transient source
/// metadata is no part of the document, so it takes no part in the statement.
pub proof fn lemma_render_parse_roundtrip(c: ConfigV)
    requires
        config_wf(c),
    ensures
        parse_config_text(render_config_text(c)) == Some(c),
{
    reveal_strlit("router");
    reveal_strlit("peer");
    let dl = config_doc_lines(c);
    let rdl = router_doc_lines(c.router);
    let rfl = router_field_lines(c.router);
    let pdl = peers_doc_lines(c.clients);
    lemma_config_lines_ok(c);
    crate::textfmt::lemma_split_join_roundtrip(dl);
    assert(split_lines_spec(render_config_text(c)) == dl);
    assert(rdl[0] == "router"@);
    assert(dl[0] == rdl[0]);
    assert(dl.subrange(1, 1 + rfl.len() as int) =~= rfl) by {
        assert forall|d: int| 0 <= d < rfl.len() implies dl[1 + d] == rfl[d] by {
            assert(dl[1 + d] == rdl[1 + d]);
            assert(rdl[1 + d] == rfl[d]);
        }
    }
    let end_r = 1 + rfl.len() as int;
    assert(end_r == rdl.len());
    if c.clients.len() > 0 {
        assert(pdl[0] == peer_doc_lines(c.clients[0])[0]);
        assert(peer_doc_lines(c.clients[0])[0] == "peer"@);
        assert(dl[end_r] == pdl[0]);
    } else {
        assert(pdl.len() == 0);
        assert(end_r == dl.len());
    }
    lemma_parse_router_rt(dl, 1, c.router);
    assert(dl.subrange(end_r, dl.len() as int) =~= pdl) by {
        assert forall|d: int| 0 <= d < pdl.len() implies dl[end_r + d] == pdl[d] by {}
    }
    lemma_parse_peers_rt(dl, end_r, c.clients);
    assert(parse_config_lines(dl) == Some(ConfigV { router: c.router, clients: c.clients }));
    assert(ConfigV { router: c.router, clients: c.clients } =~= c);
}

/// Saving reproduces what was loaded: a configuration parsed from any text,
/// rendered and parsed again, comes back with the same router and the same
/// peer list. The transient source metadata takes no part: it is never
/// rendered.
pub proof fn lemma_save_load_roundtrip(contents: Seq<char>)
    ensures
        match parse_config_text(contents) {
            Some(c) => parse_config_text(render_config_text(c)) == Some(c),
            None => true,
        },
{
    lemma_parse_config_wf(contents);
    match parse_config_text(contents) {
        Some(c) => {
            lemma_render_parse_roundtrip(c);
        },
        None => {},
    }
}

// ---------------------------------------------------------------------------
// Soundness: whatever parses is well formed.
// ---------------------------------------------------------------------------

/// Values read from break-free lines are break-free, and the extended
/// optional fields parse to break-free texts.
proof fn lemma_parse_extras_wf(ls: Seq<Seq<char>>, i: int)
    requires
        crate::textfmt::lines_ok(ls),
        0 <= i <= ls.len(),
    ensures
        match parse_extras_at(ls, i) {
            Some((e, j)) => {
                &&& i <= j <= ls.len()
                &&& opt_no_nl(e.preup)
                &&& opt_no_nl(e.postup)
                &&& opt_no_nl(e.predown)
                &&& opt_no_nl(e.postdown)
            },
            None => true,
        },
{
    assert forall|k: int, key: Seq<char>|
        0 <= k < ls.len() && #[trigger] key.is_prefix_of(ls[k]) implies no_nl(
        ls[k].skip(key.len() as int),
    ) by {
        crate::textfmt::lemma_no_nl_skip(ls[k], key.len() as int);
    }
}

/// A parsed router is well formed, and parsing moves forward within bounds.
proof fn lemma_parse_router_wf(ls: Seq<Seq<char>>, i: int)
    requires
        crate::textfmt::lines_ok(ls),
        0 <= i <= ls.len(),
    ensures
        match parse_router_at(ls, i) {
            Some((r, j)) => router_wf(r) && i <= j <= ls.len(),
            None => true,
        },
{
    assert forall|k: int, key: Seq<char>|
        0 <= k < ls.len() && #[trigger] key.is_prefix_of(ls[k]) implies no_nl(
        ls[k].skip(key.len() as int),
    ) by {
        crate::textfmt::lemma_no_nl_skip(ls[k], key.len() as int);
    }
    match req_field(ls, i, "name="@) {
        None => {},
        Some((name, i1)) => match req_field(ls, i1, "internal_address="@) {
            None => {},
            Some((net, i2)) => match req_field(ls, i2, "external_host="@) {
                None => {},
                Some((host, i3)) => match req_field(ls, i3, "external_port="@) {
                    None => {},
                    Some((pt, i4)) => match req_field(ls, i4, "private_key="@) {
                        None => {},
                        Some((pk, i5)) => match req_field(ls, i5, "public_key="@) {
                            None => {},
                            Some((pubk, i6)) => {
                                lemma_parse_extras_wf(ls, i6);
                            },
                        },
                    },
                },
            },
        },
    }
}

/// A parsed allowed-networks list holds break-free, accepted ranges.
proof fn lemma_parse_allowed_wf(ls: Seq<Seq<char>>, i: int)
    requires
        crate::textfmt::lines_ok(ls),
        0 <= i <= ls.len(),
    ensures
        match parse_allowed_at(ls, i) {
            Some((nets, j)) => {
                &&& i <= j <= ls.len()
                &&& forall|k: int|
                    0 <= k < nets.len() ==> no_nl(#[trigger] nets[k]) && ipnet_accepted(nets[k])
            },
            None => true,
        },
    decreases ls.len() - i,
{
    if 0 <= i < ls.len() && "allowed_ip="@.is_prefix_of(ls[i]) {
        let v = ls[i].skip("allowed_ip="@.len() as int);
        crate::textfmt::lemma_no_nl_skip(ls[i], "allowed_ip="@.len() as int);
        if ipnet_accepted(v) {
            lemma_parse_allowed_wf(ls, i + 1);
            match parse_allowed_at(ls, i + 1) {
                None => {},
                Some((rest, j)) => {
                    assert forall|k: int|
                        0 <= k < (seq![v] + rest).len() implies no_nl(#[trigger] (seq![v]
                        + rest)[k]) && ipnet_accepted((seq![v] + rest)[k]) by {
                        if k == 0 {
                            assert((seq![v] + rest)[0] == v);
                        } else {
                            assert((seq![v] + rest)[k] == rest[k - 1]);
                            assert(no_nl(rest[k - 1]) && ipnet_accepted(rest[k - 1]));
                        }
                    }
                },
            }
        }
    }
}

/// A parsed peer is well formed, and parsing moves forward within bounds.
proof fn lemma_parse_peer_wf(ls: Seq<Seq<char>>, i: int)
    requires
        crate::textfmt::lines_ok(ls),
        0 <= i <= ls.len(),
    ensures
        match parse_peer_at(ls, i) {
            Some((p, j)) => peer_wf(p) && i <= j <= ls.len(),
            None => true,
        },
{
    assert forall|k: int, key: Seq<char>|
        0 <= k < ls.len() && #[trigger] key.is_prefix_of(ls[k]) implies no_nl(
        ls[k].skip(key.len() as int),
    ) by {
        crate::textfmt::lemma_no_nl_skip(ls[k], key.len() as int);
    }
    match req_field(ls, i, "name="@) {
        None => {},
        Some((name, i1)) => {
            match req_field(ls, i1, "internal_address="@) {
                None => {},
                Some((addr, i2)) => {
                    lemma_parse_allowed_wf(ls, i2);
                    match parse_allowed_at(ls, i2) {
                        None => {},
                        Some((nets, i3)) => {
                            let (dns_t, i4) = opt_field(ls, i3, "dns="@);
                            let (ka_t, i5) = opt_field(ls, i4, "persistent_keepalive="@);
                            let (pk, i6) = opt_field(ls, i5, "private_key="@);
                            match req_field(ls, i6, "public_key="@) {
                                None => {},
                                Some((pubk, i7)) => {
                                    lemma_parse_extras_wf(ls, i7);
                                },
                            }
                        },
                    }
                },
            }
        },
    }
}

/// Every peer of a parsed peer list is well formed.
proof fn lemma_parse_peers_wf(ls: Seq<Seq<char>>, i: int)
    requires
        crate::textfmt::lines_ok(ls),
        0 <= i <= ls.len(),
    ensures
        match parse_peers_at(ls, i) {
            Some(ps) => forall|k: int| 0 <= k < ps.len() ==> peer_wf(#[trigger] ps[k]),
            None => true,
        },
    decreases ls.len() - i,
{
    if i == ls.len() {
    } else if 0 <= i < ls.len() && ls[i] == "peer"@ {
        lemma_parse_peer_wf(ls, i + 1);
        match parse_peer_at(ls, i + 1) {
            None => {},
            Some((p, j)) => {
                if i < j <= ls.len() {
                    lemma_parse_peers_wf(ls, j);
                    match parse_peers_at(ls, j) {
                        None => {},
                        Some(ps) => {
                            assert forall|k: int| 0 <= k < (seq![p] + ps).len() implies peer_wf(
                                #[trigger] (seq![p] + ps)[k],
                            ) by {
                                if k == 0 {
                                    assert((seq![p] + ps)[0] == p);
                                } else {
                                    assert((seq![p] + ps)[k] == ps[k - 1]);
                                    assert(peer_wf(ps[k - 1]));
                                }
                            }
                        },
                    }
                }
            },
        }
    }
}

/// Whatever text parses, parses to a well-formed configuration: loading and
/// saving it again is therefore covered by the round trip.
pub proof fn lemma_parse_config_wf(s: Seq<char>)
    ensures
        match parse_config_text(s) {
            Some(c) => config_wf(c),
            None => true,
        },
{
    let ls = split_lines_spec(s);
    crate::textfmt::lemma_split_lines_no_nl(s);
    if ls.len() >= 1 && ls[0] == "router"@ {
        lemma_parse_router_wf(ls, 1);
        match parse_router_at(ls, 1) {
            None => {},
            Some((r, i)) => {
                lemma_parse_peers_wf(ls, i);
            },
        }
    }
}

// ---------------------------------------------------------------------------
// The parser.
// ---------------------------------------------------------------------------

/// The extended optional fields, as parsed.
struct ExtraOptions {
    mtu: Option<u16>,
    table: Option<TableType>,
    preup: Option<String>,
    postup: Option<String>,
    predown: Option<String>,
    postdown: Option<String>,
}

impl View for ExtraOptions {
    type V = ExtraOptionsV;

    closed spec fn view(&self) -> ExtraOptionsV {
        ExtraOptionsV {
            mtu: self.mtu,
            table: self.table,
            preup: self.preup.deep_view(),
            postup: self.postup.deep_view(),
            predown: self.predown.deep_view(),
            postdown: self.postdown.deep_view(),
        }
    }
}

/// Reads a required `key=value` line, exactly as `req_field` describes.
fn req_field_exec(lines: &Vec<String>, i: usize, key: &str) -> (r: Option<(String, usize)>)
    ensures
        match r {
            Some((v, j)) => {
                &&& req_field(lines.deep_view(), i as int, key@) == Some((v@, j as int))
                &&& j == i + 1 <= lines.len()
            },
            None => req_field(lines.deep_view(), i as int, key@) is None,
        },
{
    if i < lines.len() {
        match crate::textfmt::strip_prefix_str(lines[i].as_str(), key) {
            Some(v) => Some((v, i + 1)),
            None => None,
        }
    } else {
        None
    }
}

/// Reads an optional `key=value` line, exactly as `opt_field` describes.
fn opt_field_exec(lines: &Vec<String>, i: usize, key: &str) -> (r: (Option<String>, usize))
    requires
        i <= lines.len(),
    ensures
        r.1 as int == opt_field(lines.deep_view(), i as int, key@).1,
        i <= r.1 <= lines.len(),
        match r.0 {
            Some(v) => opt_field(lines.deep_view(), i as int, key@).0 == Some(v@),
            None => opt_field(lines.deep_view(), i as int, key@).0 is None,
        },
{
    if i < lines.len() {
        match crate::textfmt::strip_prefix_str(lines[i].as_str(), key) {
            Some(v) => (Some(v), i + 1),
            None => (None, i),
        }
    } else {
        (None, i)
    }
}

/// Parses the extended optional fields, exactly as `parse_extras_at`
/// describes.
fn parse_extras_exec(lines: &Vec<String>, i: usize) -> (r: Option<(ExtraOptions, usize)>)
    requires
        i <= lines.len(),
    ensures
        match r {
            Some((e, j)) => {
                &&& parse_extras_at(lines.deep_view(), i as int) == Some((e@, j as int))
                &&& i <= j <= lines.len()
            },
            None => parse_extras_at(lines.deep_view(), i as int) is None,
        },
{
    let (mtu_t, i1) = opt_field_exec(lines, i, "mtu=");
    let mtu: Option<u16> = match &mtu_t {
        None => None,
        Some(t) => match crate::textfmt::parse_u64_str(t.as_str()) {
            Some(x) => {
                if x <= u16::MAX as u64 {
                    Some(x as u16)
                } else {
                    return None;
                }
            },
            None => {
                return None;
            },
        },
    };
    let (table_t, i2) = opt_field_exec(lines, i1, "table=");
    let table: Option<TableType> = match &table_t {
        None => None,
        Some(t) => match TableType::parse(t.as_str()) {
            Some(x) => Some(x),
            None => {
                return None;
            },
        },
    };
    let (preup, i3) = opt_field_exec(lines, i2, "preup=");
    let (postup, i4) = opt_field_exec(lines, i3, "postup=");
    let (predown, i5) = opt_field_exec(lines, i4, "predown=");
    let (postdown, i6) = opt_field_exec(lines, i5, "postdown=");
    Some((ExtraOptions { mtu, table, preup, postup, predown, postdown }, i6))
}

/// Parses the router section's fields, exactly as `parse_router_at`
/// describes.
#[verifier::rlimit(50)]
fn parse_router_at_exec(lines: &Vec<String>, i: usize) -> (r: Option<(Router, usize)>)
    ensures
        match r {
            Some((router, j)) => {
                &&& parse_router_at(lines.deep_view(), i as int) == Some((router@, j as int))
                &&& i <= j <= lines.len()
            },
            None => parse_router_at(lines.deep_view(), i as int) is None,
        },
{
    let (name, i1) = match req_field_exec(lines, i, "name=") {
        Some(x) => x,
        None => {
            return None;
        },
    };
    let (net, i2) = match req_field_exec(lines, i1, "internal_address=") {
        Some(x) => x,
        None => {
            return None;
        },
    };
    if !crate::netaddr::is_valid_ip_net(net.as_str()) {
        return None;
    }
    let (host, i3) = match req_field_exec(lines, i2, "external_host=") {
        Some(x) => x,
        None => {
            return None;
        },
    };
    let (pt, i4) = match req_field_exec(lines, i3, "external_port=") {
        Some(x) => x,
        None => {
            return None;
        },
    };
    let port: u16 = match crate::textfmt::parse_u64_str(pt.as_str()) {
        Some(x) => {
            if x <= u16::MAX as u64 {
                x as u16
            } else {
                return None;
            }
        },
        None => {
            return None;
        },
    };
    let (pk, i5) = match req_field_exec(lines, i4, "private_key=") {
        Some(x) => x,
        None => {
            return None;
        },
    };
    let (pubk, i6) = match req_field_exec(lines, i5, "public_key=") {
        Some(x) => x,
        None => {
            return None;
        },
    };
    let (e, i7) = match parse_extras_exec(lines, i6) {
        Some(x) => x,
        None => {
            return None;
        },
    };
    let router = Router {
        name,
        internal_address: IpNetwork { text: net },
        external_address: crate::addrport::AddrPort { address: host, port },
        private_key: pk,
        public_key: pubk,
        mtu: e.mtu,
        table: e.table,
        preup: e.preup,
        postup: e.postup,
        predown: e.predown,
        postdown: e.postdown,
    };
    Some((router, i7))
}

/// Parses the run of `allowed_ip=` lines, exactly as `parse_allowed_at`
/// describes.
fn parse_allowed_exec(lines: &Vec<String>, i: usize) -> (r: Option<(Vec<IpNetwork>, usize)>)
    requires
        i <= lines.len(),
    ensures
        match r {
            Some((nets, j)) => {
                &&& parse_allowed_at(lines.deep_view(), i as int) == Some(
                    (nets.deep_view(), j as int),
                )
                &&& i <= j <= lines.len()
            },
            None => parse_allowed_at(lines.deep_view(), i as int) is None,
        },
    decreases lines@.len() - i,
{
    if i < lines.len() {
        match crate::textfmt::strip_prefix_str(lines[i].as_str(), "allowed_ip=") {
            Some(v) => {
                if !crate::netaddr::is_valid_ip_net(v.as_str()) {
                    return None;
                }
                match parse_allowed_exec(lines, i + 1) {
                    None => None,
                    Some((nets, j)) => {
                        let ghost rest = nets.deep_view();
                        let ghost vv = v@;
                        let mut nets = nets;
                        nets.insert(0, IpNetwork { text: v });
                        proof {
                            assert(nets.deep_view() =~= seq![vv] + rest);
                        }
                        Some((nets, j))
                    },
                }
            },
            None => {
                let nets: Vec<IpNetwork> = Vec::new();
                proof {
                    assert(nets.deep_view() =~= Seq::<Seq<char>>::empty());
                }
                Some((nets, i))
            },
        }
    } else {
        let nets: Vec<IpNetwork> = Vec::new();
        proof {
            assert(nets.deep_view() =~= Seq::<Seq<char>>::empty());
        }
        Some((nets, i))
    }
}

/// Parses one peer section's fields, exactly as `parse_peer_at` describes.
#[verifier::rlimit(50)]
fn parse_peer_at_exec(lines: &Vec<String>, i: usize) -> (r: Option<(Peer, usize)>)
    ensures
        match r {
            Some((peer, j)) => {
                &&& parse_peer_at(lines.deep_view(), i as int) == Some((peer@, j as int))
                &&& i <= j <= lines.len()
            },
            None => parse_peer_at(lines.deep_view(), i as int) is None,
        },
{
    let (name, i1) = match req_field_exec(lines, i, "name=") {
        Some(x) => x,
        None => {
            return None;
        },
    };
    let (addr, i2) = match req_field_exec(lines, i1, "internal_address=") {
        Some(x) => x,
        None => {
            return None;
        },
    };
    if !crate::netaddr::is_valid_ip_addr(addr.as_str()) {
        return None;
    }
    let (nets, i3) = match parse_allowed_exec(lines, i2) {
        Some(x) => x,
        None => {
            return None;
        },
    };
    let (dns_t, i4) = opt_field_exec(lines, i3, "dns=");
    let dns: Option<String> = match dns_t {
        None => None,
        Some(t) => {
            if crate::netaddr::is_valid_ip_addr(t.as_str()) {
                Some(t)
            } else {
                return None;
            }
        },
    };
    let (ka_t, i5) = opt_field_exec(lines, i4, "persistent_keepalive=");
    let keepalive: Option<usize> = match &ka_t {
        None => None,
        Some(t) => match crate::textfmt::parse_u64_str(t.as_str()) {
            Some(x) => {
                if x <= usize::MAX as u64 {
                    Some(x as usize)
                } else {
                    return None;
                }
            },
            None => {
                return None;
            },
        },
    };
    let (pk, i6) = opt_field_exec(lines, i5, "private_key=");
    let (pubk, i7) = match req_field_exec(lines, i6, "public_key=") {
        Some(x) => x,
        None => {
            return None;
        },
    };
    let (e, i8) = match parse_extras_exec(lines, i7) {
        Some(x) => x,
        None => {
            return None;
        },
    };
    let peer = Peer {
        name,
        internal_address: addr,
        allowed_ips: nets,
        dns,
        persistent_keepalive: keepalive,
        private_key: pk,
        public_key: pubk,
        mtu: e.mtu,
        table: e.table,
        preup: e.preup,
        postup: e.postup,
        predown: e.predown,
        postdown: e.postdown,
    };
    Some((peer, i8))
}

/// Parses the peer sections to the end, exactly as `parse_peers_at`
/// describes.
fn parse_peers_at_exec(lines: &Vec<String>, i: usize) -> (r: Option<Vec<Peer>>)
    requires
        i <= lines.len(),
    ensures
        match r {
            Some(ps) => parse_peers_at(lines.deep_view(), i as int) == Some(ps.deep_view()),
            None => parse_peers_at(lines.deep_view(), i as int) is None,
        },
    decreases lines@.len() - i,
{
    if i == lines.len() {
        let ps: Vec<Peer> = Vec::new();
        proof {
            assert(ps.deep_view() =~= Seq::<PeerV>::empty());
        }
        Some(ps)
    } else if crate::textfmt::str_eq(lines[i].as_str(), "peer") {
        match parse_peer_at_exec(lines, i + 1) {
            None => None,
            Some((p, j)) => {
                if i < j && j <= lines.len() {
                    match parse_peers_at_exec(lines, j) {
                        None => None,
                        Some(ps) => {
                            let ghost rest = ps.deep_view();
                            let ghost pv = p@;
                            let mut ps = ps;
                            ps.insert(0, p);
                            proof {
                                assert(ps.deep_view() =~= seq![pv] + rest);
                            }
                            Some(ps)
                        },
                    }
                } else {
                    None
                }
            },
        }
    } else {
        None
    }
}

impl Configuration {
    /// Parses a persisted document, exactly as `parse_config_text` describes:
    /// the configuration it denotes, with no source metadata attached, or
    /// the deserialization error for text that is no well-formed document.
    pub fn from_text(s: &str) -> (r: Result<Configuration, crate::ConfigError>)
        ensures
            match r {
                Ok(c) => {
                    &&& parse_config_text(s@) == Some(c@)
                    &&& config_wf(c@)
                    &&& c.metadata is None
                },
                Err(e) => {
                    &&& e == crate::ConfigError::DeserializationError
                    &&& parse_config_text(s@) is None
                },
            },
{
        proof {
            lemma_parse_config_wf(s@);
        }
        let lines = crate::textfmt::split_lines(s);
        if lines.len() >= 1 && crate::textfmt::str_eq(lines[0].as_str(), "router") {
            match parse_router_at_exec(&lines, 1) {
                None => Err(crate::ConfigError::DeserializationError),
                Some((router, j)) => match parse_peers_at_exec(&lines, j) {
                    None => Err(crate::ConfigError::DeserializationError),
                    Some(clients) => Ok(Configuration { metadata: None, router, clients }),
                },
            }
        } else {
            Err(crate::ConfigError::DeserializationError)
        }
    }

    /// Opens a configuration from the text found at `path`. The extension
    /// must be the recognized `toml` suffix — checked before anything is
    /// parsed, so a wrong extension fails with `InvalidExtension` whatever
    /// the content. The content must then parse, and the configuration name
    /// (the file stem) and the path are attached as transient source
    /// metadata. That the path refers to a regular file is the caller's
    /// check, made before reading it.
    pub fn open_from_text(path: &str, contents: &str) -> (r: Result<
        Configuration,
        crate::ConfigError,
    >)
        ensures
            match r {
                Ok(c) => {
                    &&& path_extension(path@) == Some("toml"@)
                    &&& parse_config_text(contents@) == Some(c@)
                    &&& config_wf(c@)
                    &&& c.metadata.deep_view() == Some(
                        ConfigOptsV { name: Some(path_stem(path@)), path: Some(path@) },
                    )
                },
                Err(e) => {
                    &&& (e == crate::ConfigError::InvalidExtension || e
                        == crate::ConfigError::DeserializationError)
                    &&& ((e == crate::ConfigError::InvalidExtension) <==> path_extension(path@)
                        != Some("toml"@))
                    &&& (e == crate::ConfigError::DeserializationError ==> parse_config_text(
                        contents@,
                    ) is None)
                },
            },
    {
        let ext_ok = match extension_of(path) {
            Some(e) => crate::textfmt::str_eq(e.as_str(), "toml"),
            None => false,
        };
        if !ext_ok {
            return Err(crate::ConfigError::InvalidExtension);
        }
        match Configuration::from_text(contents) {
            Ok(c) => {
                let name = stem_of(path);
                Ok(c.with_name(name.as_str()).with_path(path))
            },
            Err(e) => Err(e),
        }
    }
}

} // verus!
