//! The address-reservation request: validation, allocation, upsert, and
//! what the tunnel and the caller are told.
use vstd::prelude::*;
use vstd::set_lib::{lemma_int_range, lemma_len_subset, set_int_range};
use vstd::string::*;
use crate::command::{push_arg, texts, Command, CommandView};
use crate::config::Config;
use crate::endpoint::{decimal_text, endpoint_text};
use crate::keys::{
    base64_encoded, key_read_as, key_bytes_of, FromBase64, IntoBase64, KeyMaterial, KeyPair,
    ParseError, PublicKey,
};
use crate::net::{address_of, cidr_text, width, IpAddress, Subnet};
use crate::storage::{Interface, PeerInfo, ServerInfo, Storage, StorageView};

verus! {

/// A request for an address: the account label and the peer's public key
/// in base64.
#[derive(Clone, Debug)]
pub struct ReserveIpRequest {
    pub account: String,
    pub public_key: String,
}

/// The answer: the address with the subnet's prefix length, the server's
/// public key in base64, and the server's endpoint.
#[derive(Clone, Debug)]
pub struct ReserveIpResponse {
    pub address: String,
    pub server_public_key: String,
    pub endpoint: String,
}

impl View for ReserveIpResponse {
    type V = (Seq<char>, Seq<char>, Seq<char>);

    open spec fn view(&self) -> (Seq<char>, Seq<char>, Seq<char>) {
        (self.address@, self.server_public_key@, self.endpoint@)
    }
}

/// Why a reservation was refused.
#[derive(Clone, Debug, PartialEq, Eq)]
pub enum ReserveError {
    /// The public key text is not base64 of 32 bytes.
    InvalidArgument(ParseError),
    /// Every host address of the subnet is taken.
    ResourceExhausted,
}

/// A granted reservation: the peer's address, the command that admits the
/// peer to the tunnel, and the answer for the caller.
#[derive(Clone, Debug)]
pub struct Reservation {
    pub peer: PeerInfo,
    /// The pair had no address before, so the store changed.
    pub new_peer: bool,
    pub add_peer: Command,
    pub response: ReserveIpResponse,
}

/// The arguments of `wg` that restrict a peer to the host route of its
/// address.
pub open spec fn add_peer_args(interface: Seq<char>, key: Seq<u8>, addr: IpAddress) -> Seq<
    Seq<char>,
> {
    seq![
        "set"@,
        interface,
        "peer"@,
        base64_encoded(key),
        "allowed-ips"@,
        cidr_text(addr.is_v6(), addr.value(), width(addr.is_v6()) as int),
    ]
}

/// What the caller is told of a reservation of `a` in store `s`.
pub open spec fn response_of(s: StorageView, a: IpAddress) -> (Seq<char>, Seq<char>, Seq<char>) {
    (
        cidr_text(a.is_v6(), a.value(), s.subnet.prefix_len as int),
        base64_encoded(s.server_key),
        endpoint_text(s.endpoint.0, s.endpoint.1),
    )
}

/// The `wg` command that admits a peer with exactly one address: the host
/// route of that address (the longest prefix of its family).
pub fn wireguard_add_peer(interface: &str, public_key: &PublicKey, info: &PeerInfo) -> (r: Command)
    ensures
        r@.program == "wg"@,
        r@.args == add_peer_args(interface@, public_key.raw(), info.internal_addr),
        r@.stdin is None,
{
    let route = Subnet::host_route(info.internal_addr);
    let key = public_key.into_base_64();
    let allowed = route.text();
    let mut args: Vec<String> = Vec::new();
    push_arg(&mut args, "set");
    push_arg(&mut args, interface);
    push_arg(&mut args, "peer");
    push_arg(&mut args, key.as_str());
    push_arg(&mut args, "allowed-ips");
    push_arg(&mut args, allowed.as_str());
    assert(texts(args@) =~= add_peer_args(interface@, public_key.raw(), info.internal_addr));
    Command::new("wg", args, None)
}

/// The reservation service of one tunnel interface.
#[derive(Clone, Debug)]
pub struct ServiceImpl {
    pub interface: String,
}

impl ServiceImpl {
    pub fn new(interface: &str) -> (r: ServiceImpl)
        ensures
            r.interface@ == interface@,
    {
        ServiceImpl { interface: String::from_str(interface) }
    }

    /// Reserves an address for (account, public key) in `storage`.
    ///
    /// The key text is read first; a malformed key changes nothing. Then
    /// the lowest free host address is looked for; when there is none the
    /// store is left as it was. Otherwise the pair keeps the address it
    /// already has, or is recorded with the free one.
    pub fn reserve_ip(&self, storage: &mut Storage, request: &ReserveIpRequest) -> (r: Result<
        Reservation,
        ReserveError,
    >)
        requires
            old(storage)@.wf(),
        ensures
            final(storage)@.wf(),
            match key_bytes_of(request.public_key@) {
                None => {
                    &&& r matches Err(ReserveError::InvalidArgument(e))
                        && key_read_as(request.public_key@, Err(e))
                    &&& final(storage)@ == old(storage)@
                },
                Some(key) => match old(storage)@.reserve(request.account@, key) {
                    None => {
                        &&& r == Err::<Reservation, _>(ReserveError::ResourceExhausted)
                        &&& final(storage)@ == old(storage)@
                    },
                    Some((after, a)) => {
                        &&& final(storage)@ == after
                        &&& r matches Ok(res)
                        &&& res.peer.internal_addr == a
                        &&& res.new_peer == (old(storage)@.lookup(request.account@, key) is None)
                        &&& res.add_peer@.program == "wg"@
                        &&& res.add_peer@.args == add_peer_args(self.interface@, key, a)
                        &&& res.add_peer@.stdin is None
                        &&& res.response@ == response_of(old(storage)@, a)
                    },
                },
            },
    {
        let public_key = match PublicKey::from_base_64(request.public_key.as_str()) {
            Ok(k) => k,
            Err(e) => {
                return Err(ReserveError::InvalidArgument(e));
            },
        };
        let fresh = match storage.find_ip() {
            Some(a) => a,
            None => {
                return Err(ReserveError::ResourceExhausted);
            },
        };
        let ghost before = storage@;
        let new_peer = storage.lookup(&request.account, &public_key).is_none();
        proof {
            crate::net::lemma_host_bounds(before.subnet);
            crate::storage::lemma_first_free(before, before.subnet.first_host());
            crate::storage::lemma_lookup_none(before.peers, request.account@, public_key.raw());
        }
        let peer = storage.push(request.account.as_str(), public_key, PeerInfo::new(fresh));
        proof {
            if before.lookup(request.account@, public_key.raw()) is None {
                crate::storage::lemma_insert_keeps_wf(before, request.account@, public_key.raw(), fresh);
            } else {
                crate::storage::lemma_lookup_some(before.peers, request.account@, public_key.raw());
            }
        }
        let add_peer = wireguard_add_peer(self.interface.as_str(), &public_key, &peer);
        let net = Subnet { addr: peer.internal_addr, prefix_len: storage.interface.address.prefix_len };
        let response = ReserveIpResponse {
            address: net.text(),
            server_public_key: storage.server.public_key.into_base_64(),
            endpoint: storage.server.endpoint.text(),
        };
        Ok(Reservation { peer, new_peer, add_peer, response })
    }
}

} // verus!

verus! {

/// The addresses a subnet can hand to peers: its hosts but its own address.
pub open spec fn usable_hosts(subnet: Subnet) -> Set<IpAddress> {
    Set::new(|a: IpAddress| subnet.is_usable(a))
}

proof fn lemma_usable_hosts_finite(subnet: Subnet)
    requires
        subnet.wf(),
    ensures
        usable_hosts(subnet).finite(),
{
    crate::net::lemma_host_bounds(subnet);
    let first = subnet.first_host();
    let last = subnet.last_host();
    let v6 = subnet.is_v6();
    let range = set_int_range(first, last + 1);
    lemma_int_range(first, last + 1);
    let f = |v: int| address_of(v6, v);
    range.lemma_map_finite(f);
    assert forall|a: IpAddress| usable_hosts(subnet).contains(a) implies #[trigger] range.map(
        f,
    ).contains(a) by {
        crate::net::lemma_address_of_value(a);
        assert(range.contains(a.value()));
    }
    lemma_len_subset(usable_hosts(subnet), range.map(f));
}

/// A well-formed store with fewer peers than usable hosts has a free address.
proof fn lemma_room_means_free(s: StorageView)
    requires
        s.wf(),
        s.peers.len() < usable_hosts(s.subnet).len(),
    ensures
        s.free_address() is Some,
{
    lemma_usable_hosts_finite(s.subnet);
    crate::net::lemma_host_bounds(s.subnet);
    crate::storage::lemma_first_free(s, s.subnet.first_host());
    let addrs = s.peers.map_values(|p: crate::storage::PeerView| p.addr);
    assert(addrs.no_duplicates()) by {
        assert forall|i: int, j: int|
            0 <= i < addrs.len() && 0 <= j < addrs.len() && i != j implies addrs[i] != addrs[j] by {
            assert(addrs[i] == s.peers[i].addr);
            assert(addrs[j] == s.peers[j].addr);
        }
    }
    addrs.unique_seq_to_set();
    if s.free_address() is None {
        assert forall|a: IpAddress| usable_hosts(s.subnet).contains(a) implies #[trigger] addrs.to_set().contains(
            a,
        ) by {
            crate::net::lemma_address_of_value(a);
            assert(!s.is_free(address_of(s.subnet.is_v6(), a.value())));
            let i = choose|i: int| 0 <= i < s.peers.len() && (#[trigger] s.peers[i]).addr == a;
            assert(addrs[i] == a);
        }
        lemma_len_subset(usable_hosts(s.subnet), addrs.to_set());
    }
}

/// Reservations made one after another from store `s`: the store after them
/// and, for each request, the address granted or `None` when none was free.
pub open spec fn run_reservations(s: StorageView, requests: Seq<(Seq<char>, Seq<u8>)>) -> (
    StorageView,
    Seq<Option<IpAddress>>,
)
    decreases requests.len(),
{
    if requests.len() == 0 {
        (s, seq![])
    } else {
        let (before, granted) = run_reservations(s, requests.drop_last());
        match before.reserve(requests.last().0, requests.last().1) {
            None => (before, granted.push(None)),
            Some((after, a)) => (after, granted.push(Some(a))),
        }
    }
}

proof fn lemma_run_reservations(s: StorageView, requests: Seq<(Seq<char>, Seq<u8>)>)
    requires
        s.wf(),
        forall|i: int| 0 <= i < requests.len() ==> (#[trigger] requests[i]).1.len() == 32,
    ensures
        ({
            let (t, granted) = run_reservations(s, requests);
            &&& t.wf()
            &&& t.subnet == s.subnet
            &&& granted.len() == requests.len()
            &&& t.peers.len() <= s.peers.len() + requests.len()
            &&& s.peers.len() + requests.len() <= usable_hosts(s.subnet).len() ==> forall|i: int|
                0 <= i < requests.len() ==> (#[trigger] granted[i]) is Some
            &&& forall|i: int|
                0 <= i < requests.len() && (#[trigger] granted[i]) is Some ==> t.lookup(
                    requests[i].0,
                    requests[i].1,
                ) == granted[i]
        }),
    decreases requests.len(),
{
    if requests.len() > 0 {
        let init = requests.drop_last();
        assert forall|i: int| 0 <= i < init.len() implies (#[trigger] init[i]).1.len() == 32 by {
            assert(init[i] == requests[i]);
        }
        lemma_run_reservations(s, init);
        let (before, granted0) = run_reservations(s, init);
        let (account, key) = requests.last();
        assert(requests[requests.len() - 1] == requests.last());
        crate::net::lemma_host_bounds(before.subnet);
        crate::storage::lemma_first_free(before, before.subnet.first_host());
        if s.peers.len() + requests.len() <= usable_hosts(s.subnet).len() {
            lemma_room_means_free(before);
        }
        match before.reserve(account, key) {
            None => {
                let granted = granted0.push(None);
                assert forall|i: int|
                    0 <= i < requests.len() && (#[trigger] granted[i]) is Some implies before.lookup(
                        requests[i].0,
                        requests[i].1,
                    ) == granted[i] by {
                    assert(granted[i] == granted0[i]);
                    assert(requests[i] == init[i]);
                }
            },
            Some((after, a)) => {
                let granted = granted0.push(Some(a));
                assert forall|i: int| 0 <= i < requests.len() - 1 implies (#[trigger] granted[i]) == granted0[i] by {}
                if before.lookup(account, key) is None {
                    crate::storage::lemma_insert_keeps_wf(before, account, key, a);
                }
                assert forall|i: int|
                    0 <= i < requests.len() && (#[trigger] granted[i]) is Some implies after.lookup(
                        requests[i].0,
                        requests[i].1,
                    ) == granted[i] by {
                    if i < requests.len() - 1 {
                        assert(granted[i] == granted0[i]);
                        assert(requests[i] == init[i]);
                        assert(after.peers.drop_last() == before.peers || after == before);
                    }
                }
            },
        }
    }
}

/// Reservations for distinct (account, key) pairs are granted addresses that
/// lie in the subnet, differ from the interface's own address, and differ
/// from one another; all of them are granted when the store's peers and the
/// requests together number no more than the subnet's usable hosts.
pub proof fn lemma_reserved_addresses_distinct(
    s: StorageView,
    requests: Seq<(Seq<char>, Seq<u8>)>,
)
    requires
        s.wf(),
        forall|i: int| 0 <= i < requests.len() ==> (#[trigger] requests[i]).1.len() == 32,
        forall|i: int, j: int|
            0 <= i < requests.len() && 0 <= j < requests.len() && i != j ==> #[trigger] requests[i]
                != #[trigger] requests[j],
    ensures
        ({
            let granted = run_reservations(s, requests).1;
            &&& granted.len() == requests.len()
            &&& s.peers.len() + requests.len() <= usable_hosts(s.subnet).len() ==> forall|i: int|
                0 <= i < granted.len() ==> (#[trigger] granted[i]) is Some
            &&& forall|i: int|
                0 <= i < granted.len() && (#[trigger] granted[i]) is Some ==> s.subnet.is_usable(
                    granted[i]->Some_0,
                )
            &&& forall|i: int, j: int|
                0 <= i < granted.len() && 0 <= j < granted.len() && i != j && (#[trigger] granted[i])
                    is Some && (#[trigger] granted[j]) is Some ==> granted[i] != granted[j]
        }),
{
    lemma_run_reservations(s, requests);
    let (t, granted) = run_reservations(s, requests);
    assert forall|i: int| 0 <= i < granted.len() && (#[trigger] granted[i]) is Some implies s.subnet.is_usable(
        granted[i]->Some_0,
    ) by {
        crate::storage::lemma_lookup_some(t.peers, requests[i].0, requests[i].1);
    }
    assert forall|i: int, j: int|
        0 <= i < granted.len() && 0 <= j < granted.len() && i != j && (#[trigger] granted[i]) is Some
            && (#[trigger] granted[j]) is Some implies granted[i] != granted[j] by {
        crate::storage::lemma_lookup_some(t.peers, requests[i].0, requests[i].1);
        crate::storage::lemma_lookup_some(t.peers, requests[j].0, requests[j].1);
        let ki = choose|k: int|
            0 <= k < t.peers.len() && (#[trigger] t.peers[k]).account == requests[i].0
                && t.peers[k].key == requests[i].1 && Some(t.peers[k].addr) == t.lookup(
                requests[i].0,
                requests[i].1,
            );
        let kj = choose|k: int|
            0 <= k < t.peers.len() && (#[trigger] t.peers[k]).account == requests[j].0
                && t.peers[k].key == requests[j].1 && Some(t.peers[k].addr) == t.lookup(
                requests[j].0,
                requests[j].1,
            );
        assert(requests[i] != requests[j]);
        if ki == kj {
            assert(requests[i] == (requests[i].0, requests[i].1));
            assert(requests[i] == requests[j]);
        }
    }
}

/// Reserving the same (account, key) pair a second time grants the same
/// address and leaves the store as the first reservation left it, as long as
/// the subnet still has a free address after the first.
pub proof fn lemma_reserve_twice(s: StorageView, account: Seq<char>, key: Seq<u8>)
    requires
        s.wf(),
        key.len() == 32,
        s.reserve(account, key) is Some,
        s.reserve(account, key)->Some_0.0.free_address() is Some,
    ensures
        ({
            let (t, a) = s.reserve(account, key)->Some_0;
            t.reserve(account, key) == Some((t, a))
        }),
{
}

/// When every host address of the subnet but the interface's own is
/// assigned, no reservation is granted, for any pair.
pub proof fn lemma_full_subnet_exhausted(s: StorageView, account: Seq<char>, key: Seq<u8>)
    requires
        s.wf(),
        forall|a: IpAddress| s.subnet.is_usable(a) ==> #[trigger] s.is_used(a),
    ensures
        s.free_address() is None,
        s.reserve(account, key) is None,
{
    crate::net::lemma_host_bounds(s.subnet);
    crate::storage::lemma_first_free(s, s.subnet.first_host());
}

} // verus!

verus! {

/// The commands that bring up the server's tunnel interface from the stored
/// identity: create it, give it the subnet address, set the private key
/// (fed on standard input, never as an argument) and listen port, bring it
/// up. Any failing step aborts start-up.
pub fn setup_wireguard_interface(name: &str, interface: &Interface) -> (r: Vec<Command>)
    requires
        interface.address.wf(),
    ensures
        r@.map_values(|c: Command| c@) == server_setup_plan(name@, *interface),
{
    let mut commands: Vec<Command> = Vec::new();
    let mut a: Vec<String> = Vec::new();
    push_arg(&mut a, "link");
    push_arg(&mut a, "add");
    push_arg(&mut a, name);
    push_arg(&mut a, "type");
    push_arg(&mut a, "wireguard");
    assert(texts(a@) =~= seq!["link"@, "add"@, name@, "type"@, "wireguard"@]);
    commands.push(Command::new("ip", a, None));
    let address = interface.address.text();
    let mut a: Vec<String> = Vec::new();
    push_arg(&mut a, "address");
    push_arg(&mut a, "add");
    push_arg(&mut a, address.as_str());
    push_arg(&mut a, "dev");
    push_arg(&mut a, name);
    assert(texts(a@) =~= seq!["address"@, "add"@, address@, "dev"@, name@]);
    commands.push(Command::new("ip", a, None));
    let port = crate::endpoint::decimal_string(interface.listen_port as u64);
    let mut a: Vec<String> = Vec::new();
    push_arg(&mut a, "set");
    push_arg(&mut a, name);
    push_arg(&mut a, "private-key");
    push_arg(&mut a, "/dev/stdin");
    push_arg(&mut a, "listen-port");
    push_arg(&mut a, port.as_str());
    assert(texts(a@) =~= seq!["set"@, name@, "private-key"@, "/dev/stdin"@, "listen-port"@, port@]);
    commands.push(Command::new("wg", a, Some(interface.private_key.into_base_64())));
    let mut a: Vec<String> = Vec::new();
    push_arg(&mut a, "link");
    push_arg(&mut a, "set");
    push_arg(&mut a, "up");
    push_arg(&mut a, "dev");
    push_arg(&mut a, name);
    assert(texts(a@) =~= seq!["link"@, "set"@, "up"@, "dev"@, name@]);
    commands.push(Command::new("ip", a, None));
    assert(commands@.map_values(|c: Command| c@) =~= server_setup_plan(name@, *interface));
    commands
}

/// The server's interface set-up, step by step.
pub open spec fn server_setup_plan(name: Seq<char>, interface: Interface) -> Seq<CommandView> {
    seq![
        CommandView {
            program: "ip"@,
            args: seq!["link"@, "add"@, name, "type"@, "wireguard"@],
            stdin: None,
        },
        CommandView {
            program: "ip"@,
            args: seq![
                "address"@,
                "add"@,
                cidr_text(
                    interface.address.is_v6(),
                    interface.address.addr.value(),
                    interface.address.prefix_len as int,
                ),
                "dev"@,
                name,
            ],
            stdin: None,
        },
        CommandView {
            program: "wg"@,
            args: seq![
                "set"@,
                name,
                "private-key"@,
                "/dev/stdin"@,
                "listen-port"@,
                decimal_text(interface.listen_port as nat),
            ],
            stdin: Some(base64_encoded(interface.private_key.raw())),
        },
        CommandView {
            program: "ip"@,
            args: seq!["link"@, "set"@, "up"@, "dev"@, name],
            stdin: None,
        },
    ]
}

impl Storage {
    /// A fresh store: the configured subnet and tunnel port, a new server
    /// identity, the configured endpoint, and no peers.
    pub fn init(config: &Config, keypair: &KeyPair) -> (r: Storage)
        requires
            config.internal_address.wf(),
        ensures
            r@.wf(),
            r@.listen_port == config.wgport,
            r@.subnet == config.internal_address,
            r@.private_key == keypair.private.raw(),
            r@.server_key == keypair.public.raw(),
            r@.endpoint == config.service.endpoint@,
            r@.peers.len() == 0,
    {
        let r = Storage {
            interface: Interface {
                listen_port: config.wgport,
                private_key: keypair.private,
                address: config.internal_address,
            },
            server: ServerInfo { public_key: keypair.public, endpoint: config.service.endpoint.duplicate() },
            peers: Vec::new(),
        };
        assert(r@.peers =~= Seq::<crate::storage::PeerView>::empty());
        r
    }
}

} // verus!
