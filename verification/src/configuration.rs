//! The aggregate root: one router plus an ordered list of peers, with the
//! transient record of where the configuration was loaded from.

use vstd::prelude::*;

use crate::endpoint::{
    spec_router_interface, spec_router_peer, spec_peer_interface, spec_peer_peer, Peer, PeerV,
    Router, RouterV,
};
use crate::addrport::{AddrPort, AddrPortV};
use crate::netaddr::IpNetwork;
use crate::textfmt::{concat2, join_with, rfind, rfind_str, str_eq};

verus! {

/// Mathematical value of a [`ConfigOpts`].
#[verifier::ext_equal]
pub struct ConfigOptsV {
    pub name: Option<Seq<char>>,
    pub path: Option<Seq<char>>,
}

/// Where a configuration came from: a configuration name, a file path, or
/// both. Transient bookkeeping, never persisted.
#[derive(Clone, Debug)]
pub struct ConfigOpts {
    pub name: Option<String>,
    pub path: Option<String>,
}

impl View for ConfigOpts {
    type V = ConfigOptsV;

    open spec fn view(&self) -> ConfigOptsV {
        ConfigOptsV { name: self.name.deep_view(), path: self.path.deep_view() }
    }
}

impl DeepView for ConfigOpts {
    type V = ConfigOptsV;

    open spec fn deep_view(&self) -> ConfigOptsV {
        self.view()
    }
}

/// Mathematical value of a [`Configuration`]: the router and the peers. The
/// transient source metadata is deliberately not part of the value.
#[verifier::ext_equal]
pub struct ConfigV {
    pub router: RouterV,
    pub clients: Seq<PeerV>,
}

/// One router plus an ordered list of peers, and the transient record of the
/// source it was loaded from.
#[derive(Clone, Debug)]
pub struct Configuration {
    pub metadata: Option<ConfigOpts>,
    pub router: Router,
    pub clients: Vec<Peer>,
}

impl View for Configuration {
    type V = ConfigV;

    open spec fn view(&self) -> ConfigV {
        ConfigV { router: self.router@, clients: self.clients.deep_view() }
    }
}

impl DeepView for Configuration {
    type V = ConfigV;

    open spec fn deep_view(&self) -> ConfigV {
        self.view()
    }
}

/// The position of the first peer named `name`, in list order.
pub open spec fn find_peer_index(s: Seq<Peer>, name: Seq<char>) -> Option<int>
    decreases s.len(),
{
    if s.len() == 0 {
        None
    } else if s[0].name@ == name {
        Some(0int)
    } else {
        match find_peer_index(s.skip(1), name) {
            Some(i) => Some(i + 1),
            None => None,
        }
    }
}

/// `find_peer_index` returns the first match: any position whose earlier
/// positions all miss is the result.
pub proof fn lemma_find_peer_index_first(s: Seq<Peer>, name: Seq<char>, i: int)
    requires
        0 <= i < s.len(),
        s[i].name@ == name,
        forall|j: int| 0 <= j < i ==> s[j].name@ != name,
    ensures
        find_peer_index(s, name) == Some(i),
    decreases s.len(),
{
    if i == 0 {
    } else {
        assert forall|j: int| 0 <= j < i - 1 implies s.skip(1)[j].name@ != name by {
            assert(s.skip(1)[j] == s[j + 1]);
        }
        assert(s.skip(1)[i - 1] == s[i]);
        lemma_find_peer_index_first(s.skip(1), name, i - 1);
    }
}

/// When no peer is named `name`, `find_peer_index` finds nothing.
pub proof fn lemma_find_peer_index_none(s: Seq<Peer>, name: Seq<char>)
    requires
        forall|j: int| 0 <= j < s.len() ==> s[j].name@ != name,
    ensures
        find_peer_index(s, name) is None,
    decreases s.len(),
{
    if s.len() > 0 {
        assert forall|j: int| 0 <= j < s.skip(1).len() implies s.skip(1)[j].name@ != name by {
            assert(s.skip(1)[j] == s[j + 1]);
        }
        lemma_find_peer_index_none(s.skip(1), name);
    }
}

/// A found index is in range, names the peer, and no earlier peer matches.
pub proof fn lemma_find_peer_index_props(s: Seq<Peer>, name: Seq<char>)
    ensures
        match find_peer_index(s, name) {
            Some(i) => 0 <= i < s.len() && s[i].name@ == name && forall|j: int|
                0 <= j < i ==> s[j].name@ != name,
            None => forall|j: int| 0 <= j < s.len() ==> s[j].name@ != name,
        },
    decreases s.len(),
{
    if s.len() > 0 {
        lemma_find_peer_index_props(s.skip(1), name);
        if s[0].name@ != name {
            match find_peer_index(s.skip(1), name) {
                Some(i) => {
                    assert(s.skip(1)[i] == s[i + 1]);
                    assert forall|j: int| 0 <= j < i + 1 implies s[j].name@ != name by {
                        if j > 0 {
                            assert(s.skip(1)[j - 1] == s[j]);
                        }
                    }
                },
                None => {
                    assert forall|j: int| 0 <= j < s.len() implies s[j].name@ != name by {
                        if j > 0 {
                            assert(s.skip(1)[j - 1] == s[j]);
                        }
                    }
                },
            }
        }
    }
}

/// The combined configuration text a peer device uses: its own interface
/// section, a blank line, then its section for reaching the router. Absent
/// when the peer owns no private key.
pub open spec fn spec_client_config_of(p: PeerV, r: RouterV) -> Option<Seq<char>> {
    match spec_peer_interface(p) {
        Some(i) => Some(i + "\n\n"@ + spec_peer_peer(p, r)),
        None => None,
    }
}

/// The parts of the router-side configuration: the router's own interface
/// section, then one peer section per client, in list order.
pub open spec fn router_config_parts(router: RouterV, clients: Seq<PeerV>) -> Seq<Seq<char>> {
    seq![spec_router_interface(router)] + clients.map_values(|p: PeerV| spec_router_peer(p))
}

/// The router-side configuration text: the parts joined by blank lines.
pub open spec fn spec_router_config(router: RouterV, clients: Seq<PeerV>) -> Seq<char> {
    join_with(router_config_parts(router, clients), "\n\n"@)
}


/// The file-name part of a path: what follows the last `/`, or the whole
/// path when there is none.
pub open spec fn path_file_name(p: Seq<char>) -> Seq<char> {
    match rfind(p, '/') {
        Some(i) => p.skip(i + 1),
        None => p,
    }
}

/// The stem of a path's file name: the part before the last `.`. A dot at
/// the very front marks a hidden file, not an extension.
pub open spec fn path_stem(p: Seq<char>) -> Seq<char> {
    let f = path_file_name(p);
    match rfind(f, '.') {
        Some(j) => if j > 0 {
            f.take(j)
        } else {
            f
        },
        None => f,
    }
}

/// The extension of a path's file name: the part after the last `.`. A dot
/// at the very front marks a hidden file, not an extension.
pub open spec fn path_extension(p: Seq<char>) -> Option<Seq<char>> {
    let f = path_file_name(p);
    match rfind(f, '.') {
        Some(j) => if j > 0 {
            Some(f.skip(j + 1))
        } else {
            None
        },
        None => None,
    }
}

/// The file-name part of a path.
pub fn file_name_of(path: &str) -> (r: String)
    ensures
        r@ == path_file_name(path@),
{
    let n = path.unicode_len();
    match rfind_str(path, '/') {
        Some(i) => path.substring_char(i + 1, n).to_owned(),
        None => path.to_owned(),
    }
}

/// The stem of a path's file name, used as the configuration's name.
pub fn stem_of(path: &str) -> (r: String)
    ensures
        r@ == path_stem(path@),
{
    let f = file_name_of(path);
    match rfind_str(f.as_str(), '.') {
        Some(j) => {
            if j > 0 {
                f.as_str().substring_char(0, j).to_owned()
            } else {
                f
            }
        },
        None => f,
    }
}

/// The extension of a path's file name.
pub fn extension_of(path: &str) -> (r: Option<String>)
    ensures
        match r {
            Some(e) => path_extension(path@) == Some(e@),
            None => path_extension(path@) is None,
        },
{
    let f = file_name_of(path);
    let n = f.as_str().unicode_len();
    match rfind_str(f.as_str(), '.') {
        Some(j) => {
            if j > 0 {
                Some(f.as_str().substring_char(j + 1, n).to_owned())
            } else {
                None
            }
        },
        None => None,
    }
}

/// The example configuration: router `vpn-router` on `10.0.1.1/24`, reachable
/// at `vpn.com:31337`; peer `client-a` at `10.0.1.2` routing everything, with
/// DNS and keepalive set; peer `client-b` at `10.0.1.3` routing the internal
/// network, with keepalive set. The three key pairs come from the caller, who
/// obtains them from the external key-generation capability.
pub fn example_configuration(
    router_private_key: String,
    router_public_key: String,
    client_a_private_key: String,
    client_a_public_key: String,
    client_b_private_key: String,
    client_b_public_key: String,
) -> (r: Configuration)
    ensures
        r.metadata is None,
        r@.router == (RouterV {
            name: "vpn-router"@,
            internal_address: "10.0.1.1/24"@,
            external_address: AddrPortV { address: "vpn.com"@, port: 31337u16 },
            private_key: router_private_key@,
            public_key: router_public_key@,
            mtu: None,
            table: None,
            preup: None,
            postup: None,
            predown: None,
            postdown: None,
        }),
        r@.clients.len() == 2,
        r@.clients[0] == (PeerV {
            name: "client-a"@,
            internal_address: "10.0.1.2"@,
            allowed_ips: seq!["0.0.0.0/0"@],
            dns: Some("10.0.1.1"@),
            persistent_keepalive: Some(25usize),
            private_key: Some(client_a_private_key@),
            public_key: client_a_public_key@,
            mtu: None,
            table: None,
            preup: None,
            postup: None,
            predown: None,
            postdown: None,
        }),
        r@.clients[1] == (PeerV {
            name: "client-b"@,
            internal_address: "10.0.1.3"@,
            allowed_ips: seq!["10.0.1.0/24"@],
            dns: None,
            persistent_keepalive: Some(25usize),
            private_key: Some(client_b_private_key@),
            public_key: client_b_public_key@,
            mtu: None,
            table: None,
            preup: None,
            postup: None,
            predown: None,
            postdown: None,
        }),
{
    let router = Router::new(
        "vpn-router".to_owned(),
        IpNetwork::new("10.0.1.1/24".to_owned()),
        AddrPort::new("vpn.com".to_owned(), 31337),
        router_private_key,
        router_public_key,
    );
    let mut configuration = Configuration::new(router);
    let client_a = Peer::new(
        "client-a".to_owned(),
        "10.0.1.2".to_owned(),
        client_a_private_key,
        client_a_public_key,
    ).with_allowed_ips(IpNetwork::new("0.0.0.0/0".to_owned())).with_keepalive(
        Some(25),
    ).with_dns(Some("10.0.1.1".to_owned()));
    proof {
        assert(client_a@.allowed_ips =~= seq!["0.0.0.0/0"@]);
    }
    configuration.push_peer(client_a);
    let client_b = Peer::new(
        "client-b".to_owned(),
        "10.0.1.3".to_owned(),
        client_b_private_key,
        client_b_public_key,
    ).with_allowed_ips(IpNetwork::new("10.0.1.0/24".to_owned())).with_keepalive(Some(25));
    proof {
        assert(client_b@.allowed_ips =~= seq!["10.0.1.0/24"@]);
    }
    configuration.push_peer(client_b);
    proof {
        assert(configuration@.clients =~= seq![client_a@, client_b@]);
    }
    configuration
}

impl Configuration {
    /// A fresh configuration: the given router, no peers, no source metadata.
    pub fn new(router: Router) -> (r: Configuration)
        ensures
            r@ == (ConfigV { router: router@, clients: Seq::empty() }),
            r.metadata is None,
    {
        let r = Configuration { metadata: None, router, clients: Vec::new() };
        proof {
            assert(r.clients.deep_view() =~= Seq::<PeerV>::empty());
        }
        r
    }

    /// Records the configuration name this value was loaded under; the rest
    /// of the value is unchanged.
    pub fn with_name(self, name: &str) -> (r: Configuration)
        ensures
            r@ == self@,
            r.metadata.deep_view() == Some(
                ConfigOptsV {
                    name: Some(name@),
                    path: match self.metadata {
                        Some(m) => m.path.deep_view(),
                        None => None,
                    },
                },
            ),
    {
        let mut s = self;
        match s.metadata {
            Some(m) => {
                s.metadata = Some(ConfigOpts { name: Some(name.to_owned()), path: m.path });
            },
            None => {
                s.metadata = Some(ConfigOpts { name: Some(name.to_owned()), path: None });
            },
        }
        s
    }

    /// Records the path this value was loaded from; the rest of the value is
    /// unchanged.
    pub fn with_path(self, path: &str) -> (r: Configuration)
        ensures
            r@ == self@,
            r.metadata.deep_view() == Some(
                ConfigOptsV {
                    name: match self.metadata {
                        Some(m) => m.name.deep_view(),
                        None => None,
                    },
                    path: Some(path@),
                },
            ),
    {
        let mut s = self;
        match s.metadata {
            Some(m) => {
                s.metadata = Some(ConfigOpts { name: m.name, path: Some(path.to_owned()) });
            },
            None => {
                s.metadata = Some(ConfigOpts { name: None, path: Some(path.to_owned()) });
            },
        }
        s
    }

    /// Appends a peer to the list. Name uniqueness is the caller's check, not
    /// this aggregate's.
    pub fn push_peer(&mut self, client: Peer)
        ensures
            final(self)@ == (ConfigV {
                clients: old(self)@.clients.push(client@),
                ..old(self)@
            }),
            final(self).metadata == old(self).metadata,
    {
        let ghost c = client@;
        self.clients.push(client);
        proof {
            assert(self.clients.deep_view() =~= old(self).clients.deep_view().push(c));
        }
    }

    /// The first peer with the given name, in list order, if any.
    pub fn client_by_name(&self, name: &str) -> (r: Option<&Peer>)
        ensures
            match r {
                Some(p) => {
                    &&& find_peer_index(self.clients@, name@) matches Some(i)
                    &&& find_peer_index(self.clients@, name@) == Some(i) ==> *p
                        == self.clients@[i]
                },
                None => find_peer_index(self.clients@, name@) is None,
            },
    {
        let n = self.clients.len();
        let mut i: usize = 0;
        while i < n
            invariant
                0 <= i <= n,
                n == self.clients.len(),
                forall|j: int| 0 <= j < i ==> self.clients@[j].name@ != name@,
            decreases n - i,
        {
            if str_eq(self.clients[i].name.as_str(), name) {
                proof {
                    lemma_find_peer_index_first(self.clients@, name@, i as int);
                }
                return Some(&self.clients[i]);
            }
            i = i + 1;
        }
        proof {
            lemma_find_peer_index_none(self.clients@, name@);
        }
        None
    }

    /// The combined configuration text for the named peer: its interface
    /// section, a blank line, then its router-facing peer section. Nothing
    /// when the peer is unknown or owns no private key.
    pub fn client_config(&self, name: &str) -> (r: Option<String>)
        ensures
            match find_peer_index(self.clients@, name@) {
                Some(i) => match r {
                    Some(s) => spec_client_config_of(self.clients@[i]@, self.router@) == Some(s@),
                    None => spec_client_config_of(self.clients@[i]@, self.router@) is None,
                },
                None => r is None,
            },
    {
        match self.client_by_name(name) {
            Some(client) => {
                match client.interface_str() {
                    Some(interface) => {
                        let mut s = concat2(interface.as_str(), "\n\n");
                        let peer_part = client.peer_str(&self.router);
                        s.append(peer_part.as_str());
                        Some(s)
                    },
                    None => None,
                }
            },
            None => None,
        }
    }

    /// Removes every peer with exactly the given name; reports whether any
    /// was removed. On a name not present it reports false and leaves the
    /// peer list unchanged, length and order both.
    pub fn remove_peer_by_name(&mut self, name: &str) -> (r: bool)
        ensures
            final(self).clients@ == old(self).clients@.filter(
                |p: Peer| p.name@ != name@,
            ),
            r == (find_peer_index(old(self).clients@, name@) is Some),
            !r ==> final(self).clients@ == old(self).clients@,
            final(self).router == old(self).router,
            final(self).metadata == old(self).metadata,
    {
        broadcast use vstd::seq_lib::group_seq_properties;

        let ghost orig = self.clients@;
        let mut i: usize = 0;
        let ghost k: int = 0;
        let mut found = false;
        proof {
            assert(orig.take(0).filter(|p: Peer| p.name@ != name@) =~= Seq::<Peer>::empty()) by {
                reveal(Seq::filter);
            }
            assert(self.clients@ =~= orig.take(0).filter(|p: Peer| p.name@ != name@) + orig.skip(
                0,
            ));
        }
        while i < self.clients.len()
            invariant
                0 <= k <= orig.len(),
                self.clients@ == orig.take(k).filter(|p: Peer| p.name@ != name@) + orig.skip(k),
                i == orig.take(k).filter(|p: Peer| p.name@ != name@).len(),
                found == !(forall|j: int| 0 <= j < k ==> orig[j].name@ != name@),
                !found ==> self.clients@ == orig && i as int == k,
                self.router == old(self).router,
                self.metadata == old(self).metadata,
                i <= self.clients.len(),
            decreases orig.len() - k,
        {
            proof {
                assert(self.clients@[i as int] == orig.skip(k)[0]);
                assert(orig.skip(k)[0] == orig[k]);
            }
            let matches_name = str_eq(self.clients[i].name.as_str(), name);
            proof {
                assert(orig.take(k + 1) =~= orig.take(k) + seq![orig[k]]);
                Seq::filter_distributes_over_add(
                    orig.take(k),
                    seq![orig[k]],
                    |p: Peer| p.name@ != name@,
                );
                assert(seq![orig[k]].filter(|p: Peer| p.name@ != name@) =~= if orig[k].name@
                    != name@ {
                    seq![orig[k]]
                } else {
                    Seq::<Peer>::empty()
                }) by {
                    reveal_with_fuel(Seq::filter, 2);
                    assert(seq![orig[k]].drop_last() =~= Seq::<Peer>::empty());
                    assert(seq![orig[k]].last() == orig[k]);
                }
                assert(orig.take(k + 1).filter(|p: Peer| p.name@ != name@) == (orig.take(k)
                    + seq![orig[k]]).filter(|p: Peer| p.name@ != name@));
            }
            if matches_name {
                found = true;
                self.clients.remove(i);
                proof {
                    assert(orig.take(k + 1).filter(|p: Peer| p.name@ != name@) =~= orig.take(
                        k,
                    ).filter(|p: Peer| p.name@ != name@));
                    assert(self.clients@ =~= orig.take(k + 1).filter(|p: Peer| p.name@ != name@)
                        + orig.skip(k + 1));
                }
            } else {
                i = i + 1;
                proof {
                    assert(orig.take(k + 1).filter(|p: Peer| p.name@ != name@) =~= orig.take(
                        k,
                    ).filter(|p: Peer| p.name@ != name@).push(orig[k]));
                    assert(self.clients@ =~= orig.take(k + 1).filter(|p: Peer| p.name@ != name@)
                        + orig.skip(k + 1));
                }
            }
            proof {
                k = k + 1;
            }
        }
        proof {
            assert(k == orig.len());
            assert(orig.take(k) =~= orig);
            assert(orig.skip(k) =~= Seq::<Peer>::empty());
            assert(self.clients@ =~= orig.filter(|p: Peer| p.name@ != name@));
            if found {
                let j = choose|j: int| 0 <= j < k && orig[j].name@ == name@;
                lemma_find_peer_index_props(orig, name@);
                if find_peer_index(orig, name@) is None {
                    assert(orig[j].name@ != name@);
                }
            } else {
                lemma_find_peer_index_none(orig, name@);
            }
        }
        found
    }

    /// Adds a client, making the uniqueness check the command handlers owe:
    /// a peer whose name is already taken is refused and nothing changes.
    pub fn add_client(&mut self, client: Peer) -> (r: Result<(), crate::ConfigError>)
        ensures
            match r {
                Ok(()) => {
                    &&& find_peer_index(old(self).clients@, client.name@) is None
                    &&& final(self)@ == (ConfigV {
                        clients: old(self)@.clients.push(client@),
                        ..old(self)@
                    })
                    &&& final(self).metadata == old(self).metadata
                },
                Err(e) => {
                    &&& e == crate::ConfigError::DuplicatePeerName
                    &&& find_peer_index(old(self).clients@, client.name@) is Some
                    &&& *final(self) == *old(self)
                },
            },
    {
        let taken = match self.client_by_name(client.name.as_str()) {
            Some(_) => true,
            None => false,
        };
        if taken {
            return Err(crate::ConfigError::DuplicatePeerName);
        }
        self.push_peer(client);
        Ok(())
    }

    /// Whether this configuration has no source metadata, so that it was fed
    /// in over a terminal rather than loaded from a file.
    pub fn is_from_tty(&self) -> (r: bool)
        ensures
            r == (self.metadata is None),
    {
        self.metadata.is_none()
    }

    /// The path a save must write to. A configuration never associated with a
    /// path (for example one built by the fresh constructor) has no
    /// destination, and saving it fails.
    pub fn save_destination(&self) -> (r: Result<String, crate::ConfigError>)
        ensures
            match r {
                Ok(p) => {
                    &&& self.metadata matches Some(m)
                    &&& match self.metadata {
                        Some(m) => m.path.deep_view() == Some(p@),
                        None => false,
                    }
                },
                Err(e) => {
                    &&& e == crate::ConfigError::NoDestination
                    &&& match self.metadata {
                        Some(m) => m.path is None,
                        None => true,
                    }
                },
            },
    {
        match &self.metadata {
            Some(m) => match &m.path {
                Some(p) => Ok(p.clone()),
                None => Err(crate::ConfigError::NoDestination),
            },
            None => Err(crate::ConfigError::NoDestination),
        }
    }

    /// The canonical path a configuration name resolves to.
    pub fn path_for_name(name: &str) -> (r: String)
        ensures
            r@ == "/etc/wireguard/"@ + name@ + ".toml"@,
    {
        let mut s = concat2("/etc/wireguard/", name);
        s.append(".toml");
        s
    }

    /// Renders the router-side configuration: the router's interface section,
    /// then one peer section per client in list order, joined by blank lines.
    pub fn router_config(&self) -> (r: String)
        ensures
            r@ == spec_router_config(self@.router, self@.clients),
    {
        let mut parts: Vec<String> = Vec::new();
        crate::endpoint::push_line(&mut parts, self.router.interface_str());
        proof {
            assert(parts.deep_view() =~= seq![spec_router_interface(self@.router)]
                + self@.clients.take(0).map_values(|p: PeerV| spec_router_peer(p)));
        }
        let n = self.clients.len();
        let mut i: usize = 0;
        while i < n
            invariant
                0 <= i <= n,
                n == self.clients.len(),
                parts.deep_view() == seq![spec_router_interface(self@.router)]
                    + self@.clients.take(i as int).map_values(|p: PeerV| spec_router_peer(p)),
            decreases n - i,
        {
            crate::endpoint::push_line(&mut parts, self.router.peer_str(&self.clients[i]));
            proof {
                assert(self@.clients.take(i as int + 1).map_values(|p: PeerV| spec_router_peer(p))
                    =~= self@.clients.take(i as int).map_values(
                    |p: PeerV| spec_router_peer(p),
                ).push(spec_router_peer(self@.clients[i as int])));
                assert(parts.deep_view() =~= seq![spec_router_interface(self@.router)]
                    + self@.clients.take(i as int + 1).map_values(
                    |p: PeerV| spec_router_peer(p),
                ));
            }
            i = i + 1;
        }
        proof {
            assert(self@.clients.take(n as int) =~= self@.clients);
            assert(parts.deep_view() =~= router_config_parts(self@.router, self@.clients));
        }
        crate::textfmt::join_strings(&parts, "\n\n")
    }
}

} // verus!
