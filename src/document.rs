//! The store as a document of plain text fields, the form in which it is
//! written to disk, and the validation that turns such a document back into a
//! store.
use vstd::prelude::*;
use vstd::string::*;
use crate::endpoint::{endpoint_parsed, endpoint_text, host_parsed, no_colon, Endpoint};
use crate::keys::{
    base64_decoded, base64_encoded, key_bytes_of, FromBase64, IntoBase64, KeyMaterial,
    PrivateKey, PublicKey,
};
use crate::net::{address_of, cidr_parsed, cidr_text, lemma_address_of_value, IpAddress, Subnet};
use crate::storage::{
    lemma_lookup_none, Interface, PeerInfo, PeerView, ServerInfo, Storage, StorageView,
};

verus! {

/// The interface section: listen port, private key in base64, subnet in
/// CIDR text.
#[derive(Clone, Debug)]
pub struct InterfaceDocument {
    pub listen_port: u16,
    pub private_key: String,
    pub address: String,
}

/// The server section: public key in base64 and endpoint text.
#[derive(Clone, Debug)]
pub struct ServerDocument {
    pub public_key: String,
    pub endpoint: String,
}

/// One peer: account label, public key in base64, internal address.
#[derive(Clone, Debug)]
pub struct PeerDocument {
    pub account: String,
    pub public_key: String,
    pub internal_addr: IpAddress,
}

#[derive(Clone, Debug)]
pub struct StoreDocument {
    pub interface: InterfaceDocument,
    pub server: ServerDocument,
    pub peers: Vec<PeerDocument>,
}

pub struct DocumentView {
    pub listen_port: u16,
    pub private_key: Seq<char>,
    pub address: Seq<char>,
    pub server_key: Seq<char>,
    pub endpoint: Seq<char>,
    pub peers: Seq<(Seq<char>, Seq<char>, IpAddress)>,
}

impl View for StoreDocument {
    type V = DocumentView;

    open spec fn view(&self) -> DocumentView {
        DocumentView {
            listen_port: self.interface.listen_port,
            private_key: self.interface.private_key@,
            address: self.interface.address@,
            server_key: self.server.public_key@,
            endpoint: self.server.endpoint@,
            peers: self.peers@.map_values(
                |p: PeerDocument| (p.account@, p.public_key@, p.internal_addr),
            ),
        }
    }
}

/// Why a document is no valid store. Peer faults carry the position of the
/// first faulty peer.
#[derive(Clone, Copy, Debug, PartialEq, Eq, Structural)]
pub enum FormatError {
    PrivateKey,
    Subnet,
    ServerKey,
    Endpoint,
    /// The peer's key is not base64 of 32 bytes.
    PeerKey(usize),
    /// The peer's address is no usable host of the subnet, or an earlier
    /// peer holds it.
    PeerAddress(usize),
    /// An earlier peer has the same account and key.
    DuplicatePeer(usize),
}

/// The peer at `i` as a store holds it, once its key is read.
pub open spec fn peer_view_of(p: (Seq<char>, Seq<char>, IpAddress)) -> PeerView {
    PeerView { account: p.0, key: key_bytes_of(p.1)->Some_0, addr: p.2 }
}

/// What is wrong with peer `i`, given that the peers before it are sound.
pub open spec fn peer_fault(
    peers: Seq<(Seq<char>, Seq<char>, IpAddress)>,
    subnet: Subnet,
    i: int,
) -> Option<FormatError> {
    let p = peers[i];
    if key_bytes_of(p.1) is None {
        Some(FormatError::PeerKey(i as usize))
    } else if !subnet.is_usable(p.2) || exists|j: int| 0 <= j < i && (#[trigger] peers[j]).2 == p.2 {
        Some(FormatError::PeerAddress(i as usize))
    } else if exists|j: int|
        0 <= j < i && (#[trigger] peers[j]).0 == p.0 && peer_view_of(peers[j]).key == peer_view_of(
            p,
        ).key {
        Some(FormatError::DuplicatePeer(i as usize))
    } else {
        None
    }
}

/// The first fault among the first `n` peers.
pub open spec fn first_fault(
    peers: Seq<(Seq<char>, Seq<char>, IpAddress)>,
    subnet: Subnet,
    n: int,
) -> Option<FormatError>
    decreases n,
{
    if n <= 0 {
        None
    } else {
        match first_fault(peers, subnet, n - 1) {
            Some(f) => Some(f),
            None => peer_fault(peers, subnet, n - 1),
        }
    }
}

/// The store a document describes, or the first fault found in the order:
/// private key, subnet, server key, endpoint, then the peers in turn.
pub open spec fn load(d: DocumentView) -> Result<StorageView, FormatError> {
    if key_bytes_of(d.private_key) is None {
        Err(FormatError::PrivateKey)
    } else if cidr_parsed(d.address) is None {
        Err(FormatError::Subnet)
    } else if key_bytes_of(d.server_key) is None {
        Err(FormatError::ServerKey)
    } else if endpoint_parsed(d.endpoint) is Err {
        Err(FormatError::Endpoint)
    } else {
        let (v6, bits, len) = cidr_parsed(d.address)->Some_0;
        let subnet = Subnet { addr: address_of(v6, bits), prefix_len: len as u8 };
        match first_fault(d.peers, subnet, d.peers.len() as int) {
            Some(f) => Err(f),
            None => Ok(
                StorageView {
                    listen_port: d.listen_port,
                    private_key: key_bytes_of(d.private_key)->Some_0,
                    subnet,
                    server_key: key_bytes_of(d.server_key)->Some_0,
                    endpoint: endpoint_parsed(d.endpoint)->Ok_0,
                    peers: d.peers.map_values(|p: (Seq<char>, Seq<char>, IpAddress)| peer_view_of(p)),
                },
            ),
        }
    }
}

/// The document that describes a store.
pub open spec fn document_of(s: StorageView) -> DocumentView {
    DocumentView {
        listen_port: s.listen_port,
        private_key: base64_encoded(s.private_key),
        address: cidr_text(s.subnet.is_v6(), s.subnet.addr.value(), s.subnet.prefix_len as int),
        server_key: base64_encoded(s.server_key),
        endpoint: endpoint_text(s.endpoint.0, s.endpoint.1),
        peers: s.peers.map_values(|p: PeerView| (p.account, base64_encoded(p.key), p.addr)),
    }
}

/// The base64 and CIDR texts of the store read back as what they encode.
pub open spec fn encodings_read_back(s: StorageView) -> bool {
    &&& base64_decoded(base64_encoded(s.private_key)) == Some(s.private_key)
    &&& base64_decoded(base64_encoded(s.server_key)) == Some(s.server_key)
    &&& cidr_parsed(cidr_text(s.subnet.is_v6(), s.subnet.addr.value(), s.subnet.prefix_len as int))
        == Some((s.subnet.is_v6(), s.subnet.addr.value(), s.subnet.prefix_len as int))
    &&& forall|i: int|
        0 <= i < s.peers.len() ==> base64_decoded(base64_encoded(#[trigger] s.peers[i].key)) == Some(
            s.peers[i].key,
        )
}

/// The endpoint's host is in the serialised form that url's parser gives
/// back unchanged, and holds no `:`.
pub open spec fn endpoint_host_canonical(s: StorageView) -> bool {
    &&& no_colon(s.endpoint.0)
    &&& host_parsed(s.endpoint.0) == Some(s.endpoint.0)
}

} // verus!

verus! {

/// A fault at peer `i`, after sound peers before it, is the first fault of
/// any longer run of peers.
proof fn lemma_first_fault_stays(
    peers: Seq<(Seq<char>, Seq<char>, IpAddress)>,
    subnet: Subnet,
    i: int,
    n: int,
)
    requires
        0 <= i < n,
        first_fault(peers, subnet, i) is None,
        peer_fault(peers, subnet, i) is Some,
    ensures
        first_fault(peers, subnet, n) == peer_fault(peers, subnet, i),
    decreases n,
{
    if n > i + 1 {
        lemma_first_fault_stays(peers, subnet, i, n - 1);
    }
}

impl Storage {
    /// Reads a store from its document, validating every key, the subnet, the
    /// endpoint, and that the peers' addresses are usable hosts held once
    /// and their (account, key) pairs occur once.
    pub fn from_document(d: &StoreDocument) -> (r: Result<Storage, FormatError>)
        ensures
            match r {
                Ok(s) => load(d@) == Ok::<_, FormatError>(s@) && s@.wf(),
                Err(e) => load(d@) == Err::<StorageView, _>(e),
            },
    {
        let private_key = match PrivateKey::from_base_64(d.interface.private_key.as_str()) {
            Ok(k) => k,
            Err(_) => {
                return Err(FormatError::PrivateKey);
            },
        };
        let subnet = match Subnet::parse(d.interface.address.as_str()) {
            Some(n) => n,
            None => {
                return Err(FormatError::Subnet);
            },
        };
        let public_key = match PublicKey::from_base_64(d.server.public_key.as_str()) {
            Ok(k) => k,
            Err(_) => {
                return Err(FormatError::ServerKey);
            },
        };
        let endpoint = match Endpoint::parse(d.server.endpoint.as_str()) {
            Ok(e) => e,
            Err(_) => {
                return Err(FormatError::Endpoint);
            },
        };
        proof {
            lemma_address_of_value(subnet.addr);
        }
        let ghost peers = d@.peers;
        let mut storage = Storage {
            interface: Interface { listen_port: d.interface.listen_port, private_key, address: subnet },
            server: ServerInfo { public_key, endpoint },
            peers: Vec::new(),
        };
        assert(storage@.peers =~= peers.take(0).map_values(
            |p: (Seq<char>, Seq<char>, IpAddress)| peer_view_of(p),
        ));
        let mut i: usize = 0;
        while i < d.peers.len()
            invariant
                i <= peers.len(),
                peers == d@.peers,
                storage@.listen_port == d@.listen_port,
                storage@.private_key == key_bytes_of(d@.private_key)->Some_0,
                storage@.subnet == subnet,
                subnet.wf(),
                storage@.server_key == key_bytes_of(d@.server_key)->Some_0,
                storage@.endpoint == endpoint_parsed(d@.endpoint)->Ok_0,
                storage@.peers == peers.take(i as int).map_values(
                    |p: (Seq<char>, Seq<char>, IpAddress)| peer_view_of(p),
                ),
                storage@.wf(),
                first_fault(peers, subnet, i as int) is None,
                load(d@) == match first_fault(peers, subnet, peers.len() as int) {
                    Some(f) => Err(f),
                    None => Ok(
                        StorageView {
                            peers: peers.map_values(
                                |p: (Seq<char>, Seq<char>, IpAddress)| peer_view_of(p),
                            ),
                            ..storage@
                        },
                    ),
                },
            decreases peers.len() - i,
        {
            let p = &d.peers[i];
            assert(peers[i as int] == (p.account@, p.public_key@, p.internal_addr));
            let key = match PublicKey::from_base_64(p.public_key.as_str()) {
                Ok(k) => k,
                Err(_) => {
                    proof {
                        lemma_first_fault_stays(peers, subnet, i as int, peers.len() as int);
                    }
                    return Err(FormatError::PeerKey(i));
                },
            };
            let ghost taken = peers.take(i as int);
            proof {
                assert forall|j: int| 0 <= j < i implies storage@.peers[j] == peer_view_of(
                    #[trigger] peers[j],
                ) by {
                    assert(taken[j] == peers[j]);
                }
            }
            if !subnet.contains_usable(&p.internal_addr) || storage.is_used(&p.internal_addr) {
                proof {
                    if subnet.is_usable(p.internal_addr) {
                        let k = choose|k: int|
                            0 <= k < storage@.peers.len() && (#[trigger] storage@.peers[k]).addr
                                == p.internal_addr;
                        assert(peers[k].2 == p.internal_addr);
                    }
                    lemma_first_fault_stays(peers, subnet, i as int, peers.len() as int);
                }
                return Err(FormatError::PeerAddress(i));
            }
            proof {
                lemma_lookup_none(storage@.peers, p.account@, key.raw());
                assert(!exists|j: int| 0 <= j < i && (#[trigger] peers[j]).2 == p.internal_addr) by {
                    if exists|j: int| 0 <= j < i && (#[trigger] peers[j]).2 == p.internal_addr {
                        let j = choose|j: int| 0 <= j < i && (#[trigger] peers[j]).2 == p.internal_addr;
                        assert(storage@.peers[j].addr == p.internal_addr);
                    }
                }
            }
            if storage.lookup(&p.account, &key).is_some() {
                proof {
                    let k = choose|k: int|
                        0 <= k < storage@.peers.len() && (#[trigger] storage@.peers[k]).account
                            == p.account@ && storage@.peers[k].key == key.raw();
                    assert(peers[k].0 == p.account@);
                    lemma_first_fault_stays(peers, subnet, i as int, peers.len() as int);
                }
                return Err(FormatError::DuplicatePeer(i));
            }
            proof {
                assert(!exists|j: int|
                    0 <= j < i && (#[trigger] peers[j]).0 == p.account@ && peer_view_of(peers[j]).key
                        == key.raw()) by {
                    if exists|j: int|
                        0 <= j < i && (#[trigger] peers[j]).0 == p.account@ && peer_view_of(
                            peers[j],
                        ).key == key.raw() {
                        let j = choose|j: int|
                            0 <= j < i && (#[trigger] peers[j]).0 == p.account@ && peer_view_of(
                                peers[j],
                            ).key == key.raw();
                        assert(storage@.peers[j].account == p.account@);
                    }
                }
                assert(peer_fault(peers, subnet, i as int) is None);
                crate::storage::lemma_insert_keeps_wf(storage@, p.account@, key.raw(), p.internal_addr);
            }
            storage.push(p.account.as_str(), key, PeerInfo::new(p.internal_addr));
            proof {
                assert(storage@.peers =~= peers.take(i + 1).map_values(
                    |p: (Seq<char>, Seq<char>, IpAddress)| peer_view_of(p),
                ));
            }
            i = i + 1;
        }
        proof {
            assert(peers.take(i as int) =~= peers);
        }
        Ok(storage)
    }

    /// The document that describes this store.
    pub fn to_document(&self) -> (r: StoreDocument)
        requires
            self@.wf(),
        ensures
            r@ == document_of(self@),
            encodings_read_back(self@),
    {
        let private_key = self.interface.private_key.into_base_64();
        let address = self.interface.address.text();
        let public_key = self.server.public_key.into_base_64();
        let endpoint = self.server.endpoint.text();
        let mut peers: Vec<PeerDocument> = Vec::new();
        let ghost view = self@;
        let mut i: usize = 0;
        while i < self.peers.len()
            invariant
                i <= self.peers@.len(),
                view == self@,
                peers@.len() == i,
                forall|j: int|
                    0 <= j < i ==> {
                        &&& (#[trigger] peers@[j]).account@ == view.peers[j].account
                        &&& peers@[j].public_key@ == base64_encoded(view.peers[j].key)
                        &&& peers@[j].internal_addr == view.peers[j].addr
                        &&& base64_decoded(base64_encoded(view.peers[j].key)) == Some(
                            view.peers[j].key,
                        )
                    },
            decreases self.peers@.len() - i,
        {
            let rec = &self.peers[i];
            let key = rec.public_key.into_base_64();
            peers.push(
                PeerDocument {
                    account: rec.account.clone(),
                    public_key: key,
                    internal_addr: rec.info.internal_addr,
                },
            );
            i = i + 1;
        }
        let r = StoreDocument {
            interface: InterfaceDocument {
                listen_port: self.interface.listen_port,
                private_key,
                address,
            },
            server: ServerDocument { public_key, endpoint },
            peers,
        };
        assert(r@.peers =~= document_of(self@).peers);
        assert forall|j: int| 0 <= j < view.peers.len() implies base64_decoded(
            base64_encoded(#[trigger] view.peers[j].key),
        ) == Some(view.peers[j].key) by {
            assert(peers@[j].internal_addr == view.peers[j].addr);
        }
        r
    }
}

/// Writing a store as its document and reading the document back gives the
/// same store, where the texts it is written in read back as what they
/// encode (which `to_document` establishes for the store it writes) and the
/// endpoint's host is in url's serialised form.
pub proof fn lemma_document_round_trip(s: StorageView)
    requires
        s.wf(),
        encodings_read_back(s),
        endpoint_host_canonical(s),
    ensures
        load(document_of(s)) == Ok::<_, FormatError>(s),
{
    let d = document_of(s);
    crate::endpoint::lemma_endpoint_round_trip(s.endpoint.0, s.endpoint.1);
    lemma_address_of_value(s.subnet.addr);
    let subnet = s.subnet;
    assert forall|i: int| 0 <= i < d.peers.len() implies peer_view_of(#[trigger] d.peers[i]) == s.peers[i] by {
        assert(base64_decoded(base64_encoded(s.peers[i].key)) == Some(s.peers[i].key));
    }
    assert forall|n: int| 0 <= n <= d.peers.len() implies #[trigger] first_fault(d.peers, subnet, n) is None by {
        lemma_no_fault(s, n);
    }
    assert(d.peers.map_values(|p: (Seq<char>, Seq<char>, IpAddress)| peer_view_of(p)) =~= s.peers);
}

proof fn lemma_no_fault(s: StorageView, n: int)
    requires
        s.wf(),
        encodings_read_back(s),
        0 <= n <= s.peers.len(),
    ensures
        first_fault(document_of(s).peers, s.subnet, n) is None,
    decreases n,
{
    let d = document_of(s);
    if n > 0 {
        lemma_no_fault(s, n - 1);
        let i = n - 1;
        assert(base64_decoded(base64_encoded(s.peers[i].key)) == Some(s.peers[i].key));
        assert(peer_view_of(d.peers[i]) == s.peers[i]);
        if exists|j: int| 0 <= j < i && (#[trigger] d.peers[j]).2 == d.peers[i].2 {
            let j = choose|j: int| 0 <= j < i && (#[trigger] d.peers[j]).2 == d.peers[i].2;
            assert(s.peers[j].addr == s.peers[i].addr);
        }
        if exists|j: int|
            0 <= j < i && (#[trigger] d.peers[j]).0 == d.peers[i].0 && peer_view_of(d.peers[j]).key
                == peer_view_of(d.peers[i]).key {
            let j = choose|j: int|
                0 <= j < i && (#[trigger] d.peers[j]).0 == d.peers[i].0 && peer_view_of(
                    d.peers[j],
                ).key == peer_view_of(d.peers[i]).key;
            assert(base64_decoded(base64_encoded(s.peers[j].key)) == Some(s.peers[j].key));
            assert(s.peers[j].account == s.peers[i].account);
        }
    }
}

} // verus!
