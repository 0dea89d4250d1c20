//! The store: interface and server identity, and the peers with the
//! address each was given; the allocator and the upsert that change it.
use vstd::prelude::*;
use vstd::string::*;
use vstd::arithmetic::power2::pow2;
use crate::endpoint::Endpoint;
use crate::keys::{KeyMaterial, PrivateKey, PublicKey, KEY_LEN};
use crate::net::{address_of, lemma_address_of_in_range, lemma_host_bounds, lemma_width_pow2, width, IpAddress, Subnet};

verus! {

/// The single internal address assigned to one peer.
#[derive(Clone, Copy, Debug, PartialEq, Eq, Structural)]
pub struct PeerInfo {
    pub internal_addr: IpAddress,
}

impl PeerInfo {
    pub fn new(internal_addr: IpAddress) -> (r: PeerInfo)
        ensures
            r.internal_addr == internal_addr,
    {
        PeerInfo { internal_addr }
    }
}

/// The VPN interface: listen port, private key and internal subnet (whose
/// address is the interface's own).
#[derive(Clone, Copy, Debug)]
pub struct Interface {
    pub listen_port: u16,
    pub private_key: PrivateKey,
    pub address: Subnet,
}

/// The server's public identity as peers see it.
#[derive(Clone, Debug)]
pub struct ServerInfo {
    pub public_key: PublicKey,
    pub endpoint: Endpoint,
}

/// One peer of one account.
#[derive(Clone, Debug)]
pub struct PeerRecord {
    pub account: String,
    pub public_key: PublicKey,
    pub info: PeerInfo,
}

/// A peer as the contracts see it.
pub struct PeerView {
    pub account: Seq<char>,
    pub key: Seq<u8>,
    pub addr: IpAddress,
}

impl View for PeerRecord {
    type V = PeerView;

    open spec fn view(&self) -> PeerView {
        PeerView { account: self.account@, key: self.public_key.raw(), addr: self.info.internal_addr }
    }
}

/// The whole store. Peers are kept in the order they were added; each
/// (account, public key) pair appears at most once.
#[derive(Clone, Debug)]
pub struct Storage {
    pub interface: Interface,
    pub server: ServerInfo,
    pub peers: Vec<PeerRecord>,
}

/// The store as the contracts see it.
pub struct StorageView {
    pub listen_port: u16,
    pub private_key: Seq<u8>,
    pub subnet: Subnet,
    pub server_key: Seq<u8>,
    pub endpoint: (Seq<char>, Option<u16>),
    pub peers: Seq<PeerView>,
}

/// The address recorded for (account, key); where the pair occurs more than
/// once, the latest record counts.
pub open spec fn lookup_in(peers: Seq<PeerView>, account: Seq<char>, key: Seq<u8>) -> Option<
    IpAddress,
>
    decreases peers.len(),
{
    if peers.len() == 0 {
        None
    } else if peers.last().account == account && peers.last().key == key {
        Some(peers.last().addr)
    } else {
        lookup_in(peers.drop_last(), account, key)
    }
}

impl StorageView {
    /// Some peer of some account holds `a`.
    pub open spec fn is_used(self, a: IpAddress) -> bool {
        exists|i: int| 0 <= i < self.peers.len() && (#[trigger] self.peers[i]).addr == a
    }

    /// `a` can be handed to a new peer.
    pub open spec fn is_free(self, a: IpAddress) -> bool {
        self.subnet.is_usable(a) && !self.is_used(a)
    }

    pub open spec fn wf(self) -> bool {
        &&& self.subnet.wf()
        &&& self.private_key.len() == KEY_LEN
        &&& self.server_key.len() == KEY_LEN
        &&& forall|i: int|
            0 <= i < self.peers.len() ==> {
                &&& self.subnet.is_usable(#[trigger] self.peers[i].addr)
                &&& self.peers[i].key.len() == KEY_LEN
            }
        &&& forall|i: int, j: int|
            0 <= i < self.peers.len() && 0 <= j < self.peers.len() && i != j ==> {
                &&& (#[trigger] self.peers[i]).addr != (#[trigger] self.peers[j]).addr
                &&& !(self.peers[i].account == self.peers[j].account && self.peers[i].key
                    == self.peers[j].key)
            }
    }

    pub open spec fn lookup(self, account: Seq<char>, key: Seq<u8>) -> Option<IpAddress> {
        lookup_in(self.peers, account, key)
    }

    /// The lowest free host address from `v` on.
    pub open spec fn first_free_from(self, v: int) -> Option<IpAddress>
        decreases self.subnet.last_host() + 1 - v,
    {
        if v > self.subnet.last_host() {
            None
        } else if self.is_free(address_of(self.subnet.is_v6(), v)) {
            Some(address_of(self.subnet.is_v6(), v))
        } else {
            self.first_free_from(v + 1)
        }
    }

    /// The lowest free host address of the subnet.
    pub open spec fn free_address(self) -> Option<IpAddress> {
        self.first_free_from(self.subnet.first_host())
    }

    pub open spec fn with_peer(self, account: Seq<char>, key: Seq<u8>, a: IpAddress) -> StorageView {
        StorageView { peers: self.peers.push(PeerView { account, key, addr: a }), ..self }
    }

    /// A reservation for (account, key): `None` when no address is free;
    /// otherwise the new store and the address, which is the one already
    /// recorded for the pair if there is one.
    pub open spec fn reserve(self, account: Seq<char>, key: Seq<u8>) -> Option<
        (StorageView, IpAddress),
    > {
        match self.free_address() {
            None => None,
            Some(fresh) => match self.lookup(account, key) {
                Some(a) => Some((self, a)),
                None => Some((self.with_peer(account, key, fresh), fresh)),
            },
        }
    }
}

/// Where no record holds the pair, the lookup finds nothing, and back.
pub proof fn lemma_lookup_none(peers: Seq<PeerView>, account: Seq<char>, key: Seq<u8>)
    ensures
        lookup_in(peers, account, key) is None <==> forall|i: int|
            0 <= i < peers.len() ==> !((#[trigger] peers[i]).account == account && peers[i].key
                == key),
    decreases peers.len(),
{
    if peers.len() > 0 {
        lemma_lookup_none(peers.drop_last(), account, key);
        if lookup_in(peers, account, key) is None {
            assert forall|i: int| 0 <= i < peers.len() implies !((
            #[trigger] peers[i]).account == account && peers[i].key == key) by {
                if i < peers.len() - 1 {
                    assert(peers.drop_last()[i] == peers[i]);
                }
            }
        } else if !(peers.last().account == account && peers.last().key == key) {
            let j = choose|j: int|
                0 <= j < peers.drop_last().len() && (#[trigger] peers.drop_last()[j]).account
                    == account && peers.drop_last()[j].key == key;
            assert(peers[j] == peers.drop_last()[j]);
        }
    }
}

/// What a lookup finds is recorded in the store.
pub proof fn lemma_lookup_some(peers: Seq<PeerView>, account: Seq<char>, key: Seq<u8>)
    requires
        lookup_in(peers, account, key) is Some,
    ensures
        exists|i: int|
            0 <= i < peers.len() && (#[trigger] peers[i]).account == account && peers[i].key == key
                && Some(peers[i].addr) == lookup_in(peers, account, key),
    decreases peers.len(),
{
    if !(peers.last().account == account && peers.last().key == key) {
        lemma_lookup_some(peers.drop_last(), account, key);
        let j = choose|j: int|
            0 <= j < peers.drop_last().len() && (#[trigger] peers.drop_last()[j]).account
                == account && peers.drop_last()[j].key == key && Some(peers.drop_last()[j].addr)
                == lookup_in(peers.drop_last(), account, key);
        assert(peers[j] == peers.drop_last()[j]);
    } else {
        assert(peers[peers.len() - 1] == peers.last());
    }
}

/// The search for a free address finds a free one at or above its start,
/// or there is none from the start to the last host.
pub proof fn lemma_first_free(s: StorageView, v: int)
    requires
        s.subnet.wf(),
        0 <= v,
    ensures
        match s.first_free_from(v) {
            Some(a) => s.is_free(a) && v <= a.value() && a == address_of(s.subnet.is_v6(), a.value()),
            None => forall|w: int|
                v <= w <= s.subnet.last_host() ==> !s.is_free(#[trigger] address_of(s.subnet.is_v6(), w)),
        },
    decreases s.subnet.last_host() + 1 - v,
{
    if v <= s.subnet.last_host() {
        lemma_first_free(s, v + 1);
        lemma_host_bounds(s.subnet);
        lemma_address_of_in_range(s.subnet.is_v6(), v);
        let a = address_of(s.subnet.is_v6(), v);
        if s.is_free(a) {
            assert(s.subnet.is_host(a));
        }
    }
}

/// Recording a pair that the store lacks at a free address keeps the store
/// well formed.
pub proof fn lemma_insert_keeps_wf(s: StorageView, account: Seq<char>, key: Seq<u8>, a: IpAddress)
    requires
        s.wf(),
        s.is_free(a),
        key.len() == KEY_LEN,
        s.lookup(account, key) is None,
    ensures
        s.with_peer(account, key, a).wf(),
{
    lemma_lookup_none(s.peers, account, key);
    let t = s.with_peer(account, key, a);
    let n = s.peers.len() as int;
    assert forall|i: int, j: int|
        0 <= i < t.peers.len() && 0 <= j < t.peers.len() && i != j implies {
        &&& (#[trigger] t.peers[i]).addr != (#[trigger] t.peers[j]).addr
        &&& !(t.peers[i].account == t.peers[j].account && t.peers[i].key == t.peers[j].key)
    } by {
        if i < n && j < n {
            assert(t.peers[i] == s.peers[i]);
            assert(t.peers[j] == s.peers[j]);
        } else if i < n {
            assert(t.peers[i] == s.peers[i]);
        } else {
            assert(t.peers[j] == s.peers[j]);
        }
    }
    assert forall|i: int| 0 <= i < t.peers.len() implies {
        &&& s.subnet.is_usable(#[trigger] t.peers[i].addr)
        &&& t.peers[i].key.len() == KEY_LEN
    } by {
        if i < n {
            assert(t.peers[i] == s.peers[i]);
        }
    }
}

impl View for Storage {
    type V = StorageView;

    open spec fn view(&self) -> StorageView {
        StorageView {
            listen_port: self.interface.listen_port,
            private_key: self.interface.private_key.raw(),
            subnet: self.interface.address,
            server_key: self.server.public_key.raw(),
            endpoint: self.server.endpoint@,
            peers: self.peers@.map_values(|p: PeerRecord| p@),
        }
    }
}

impl Storage {
    /// Some peer holds `a`.
    pub fn is_used(&self, a: &IpAddress) -> (r: bool)
        ensures
            r == self@.is_used(*a),
    {
        let mut i: usize = 0;
        while i < self.peers.len()
            invariant
                i <= self.peers@.len(),
                forall|j: int| 0 <= j < i ==> self@.peers[j].addr != *a,
            decreases self.peers@.len() - i,
        {
            if self.peers[i].info.internal_addr == *a {
                assert(self@.peers[i as int].addr == *a);
                return true;
            }
            i = i + 1;
        }
        false
    }

    /// The lowest host address of the subnet that is neither the interface's
    /// own nor held by any peer.
    pub fn find_ip(&self) -> (r: Option<IpAddress>)
        requires
            self@.subnet.wf(),
        ensures
            r == self@.free_address(),
    {
        let subnet = self.interface.address;
        let (first, last) = subnet.host_range();
        let v6 = subnet.addr.v6();
        if first > last {
            return None;
        }
        proof {
            lemma_width_pow2();
        }
        let mut cur = first;
        loop
            invariant
                first <= cur <= last,
                first == self@.subnet.first_host(),
                last == self@.subnet.last_host(),
                last < pow2(width(v6)),
                pow2(32) == 0x1_0000_0000,
                v6 == self@.subnet.is_v6(),
                subnet == self@.subnet,
                self@.free_address() == self@.first_free_from(cur as int),
            decreases last - cur,
        {
            let cand = IpAddress::from_bits(v6, cur);
            if cand != subnet.addr && !self.is_used(&cand) {
                return Some(cand);
            }
            if cur == last {
                assert(self@.first_free_from(cur + 1) is None);
                return None;
            }
            cur = cur + 1;
        }
    }

    /// The address recorded for (account, key), if any.
    pub fn lookup(&self, account: &String, key: &PublicKey) -> (r: Option<PeerInfo>)
        ensures
            self@.lookup(account@, key.raw()) == match r {
                Some(p) => Some(p.internal_addr),
                None => None::<IpAddress>,
            },
    {
        let mut i: usize = self.peers.len();
        assert(self@.peers.take(i as int) =~= self@.peers);
        while i > 0
            invariant
                i <= self.peers@.len(),
                self@.lookup(account@, key.raw()) == lookup_in(
                    self@.peers.take(i as int),
                    account@,
                    key.raw(),
                ),
            decreases i,
        {
            let rec = &self.peers[i - 1];
            let ghost prefix = self@.peers.take(i as int);
            assert(prefix.last() == self@.peers[i - 1]);
            assert(prefix.drop_last() =~= self@.peers.take(i - 1));
            if rec.account == *account && rec.public_key.same_as(key) {
                return Some(rec.info);
            }
            i = i - 1;
        }
        None
    }

    /// Records `peer` for (account, public key) unless the pair already has an
    /// address; returns the address the pair holds afterwards.
    pub fn push(&mut self, account: &str, public_key: PublicKey, peer: PeerInfo) -> (r: PeerInfo)
        ensures
            match old(self)@.lookup(account@, public_key.raw()) {
                Some(a) => r.internal_addr == a && final(self)@ == old(self)@,
                None => r == peer && final(self)@ == old(self)@.with_peer(
                    account@,
                    public_key.raw(),
                    peer.internal_addr,
                ),
            },
    {
        let account = String::from_str(account);
        match self.lookup(&account, &public_key) {
            Some(existing) => existing,
            None => {
                let ghost before = self@;
                self.peers.push(PeerRecord { account, public_key, info: peer });
                assert(self@.peers =~= before.peers.push(
                    PeerView { account: account@, key: public_key.raw(), addr: peer.internal_addr },
                ));
                peer
            },
        }
    }
}

} // verus!
