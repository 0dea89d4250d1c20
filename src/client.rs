//! The client side: ask for an address, then set up a local tunnel
//! interface with it and admit the server as the one peer.
use vstd::prelude::*;
use vstd::string::*;
use crate::command::{push_arg, texts, Command, CommandView};
use crate::endpoint::{decimal_string, decimal_text};
use crate::keys::{
    base64_encoded, key_read_as, key_bytes_of, FromBase64, IntoBase64, KeyMaterial, KeyPair,
    ParseError, PrivateKey, PublicKey,
};
use crate::net::{address_of, cidr_parsed, cidr_text, lemma_address_of_value, Subnet};
use crate::service::{ReserveIpRequest, ReserveIpResponse};

verus! {

/// What the client is run with.
#[derive(Clone, Debug)]
pub struct Arguments {
    /// The reservation server, with scheme and port.
    pub host: String,
    /// Any label that identifies the user to the administrator.
    pub account: String,
    /// Name of the tunnel interface to create.
    pub interface: String,
    /// Keep-alive interval for the tunnel, in seconds.
    pub persistent_keepalive: usize,
}

/// Why the server's answer cannot be used.
#[derive(Clone, Debug, PartialEq, Eq)]
pub enum ClientError {
    ServerKey(ParseError),
    Address,
}

/// The request this client sends: its account and public key.
pub fn reserve_request(args: &Arguments, keypair: &KeyPair) -> (r: ReserveIpRequest)
    ensures
        r.account@ == args.account@,
        r.public_key@ == base64_encoded(keypair.public.raw()),
{
    ReserveIpRequest { account: args.account.clone(), public_key: keypair.public.into_base_64() }
}

/// The commands that create the local interface: create it, give it the
/// granted address, set the private key through standard input, bring it up.
pub fn setup_wireguard_interface(
    private_key: &PrivateKey,
    internal_address: &str,
    args: &Arguments,
) -> (r: Vec<Command>)
    ensures
        r@.map_values(|c: Command| c@) == client_setup_plan(
            private_key.raw(),
            internal_address@,
            args.interface@,
        ),
{
    let name = args.interface.as_str();
    let mut commands: Vec<Command> = Vec::new();
    let mut a: Vec<String> = Vec::new();
    push_arg(&mut a, "link");
    push_arg(&mut a, "add");
    push_arg(&mut a, name);
    push_arg(&mut a, "type");
    push_arg(&mut a, "wireguard");
    assert(texts(a@) =~= seq!["link"@, "add"@, name@, "type"@, "wireguard"@]);
    commands.push(Command::new("ip", a, None));
    let mut a: Vec<String> = Vec::new();
    push_arg(&mut a, "address");
    push_arg(&mut a, "add");
    push_arg(&mut a, internal_address);
    push_arg(&mut a, "dev");
    push_arg(&mut a, name);
    assert(texts(a@) =~= seq!["address"@, "add"@, internal_address@, "dev"@, name@]);
    commands.push(Command::new("ip", a, None));
    let mut a: Vec<String> = Vec::new();
    push_arg(&mut a, "set");
    push_arg(&mut a, name);
    push_arg(&mut a, "private-key");
    push_arg(&mut a, "/dev/stdin");
    assert(texts(a@) =~= seq!["set"@, name@, "private-key"@, "/dev/stdin"@]);
    commands.push(Command::new("wg", a, Some(private_key.into_base_64())));
    let mut a: Vec<String> = Vec::new();
    push_arg(&mut a, "link");
    push_arg(&mut a, "set");
    push_arg(&mut a, "up");
    push_arg(&mut a, "dev");
    push_arg(&mut a, name);
    assert(texts(a@) =~= seq!["link"@, "set"@, "up"@, "dev"@, name@]);
    commands.push(Command::new("ip", a, None));
    assert(commands@.map_values(|c: Command| c@) =~= client_setup_plan(
        private_key.raw(),
        internal_address@,
        args.interface@,
    ));
    commands
}

pub open spec fn client_setup_plan(key: Seq<u8>, address: Seq<char>, name: Seq<char>) -> Seq<
    CommandView,
> {
    seq![
        CommandView {
            program: "ip"@,
            args: seq!["link"@, "add"@, name, "type"@, "wireguard"@],
            stdin: None,
        },
        CommandView {
            program: "ip"@,
            args: seq!["address"@, "add"@, address, "dev"@, name],
            stdin: None,
        },
        CommandView {
            program: "wg"@,
            args: seq!["set"@, name, "private-key"@, "/dev/stdin"@],
            stdin: Some(base64_encoded(key)),
        },
        CommandView { program: "ip"@, args: seq!["link"@, "set"@, "up"@, "dev"@, name], stdin: None },
    ]
}

/// The arguments of `wg` that admit the server: its key and endpoint, the
/// whole subnet as its allowed addresses, and the keep-alive interval.
pub open spec fn server_peer_args(
    name: Seq<char>,
    key: Seq<u8>,
    endpoint: Seq<char>,
    subnet: Subnet,
    keepalive: nat,
) -> Seq<Seq<char>> {
    seq![
        "set"@,
        name,
        "peer"@,
        base64_encoded(key),
        "endpoint"@,
        endpoint,
        "allowed-ips"@,
        cidr_text(subnet.is_v6(), subnet.network(), subnet.prefix_len as int),
        "persistent-keepalive"@,
        decimal_text(keepalive),
    ]
}

/// The `wg` command that admits the server as the peer for the subnet.
pub fn wireguard_add_peer(
    public_key: &PublicKey,
    internal_address: &Subnet,
    endpoint: &str,
    args: &Arguments,
) -> (r: Command)
    requires
        internal_address.wf(),
    ensures
        r@.program == "wg"@,
        r@.args == server_peer_args(
            args.interface@,
            public_key.raw(),
            endpoint@,
            *internal_address,
            args.persistent_keepalive as u64 as nat,
        ),
        r@.stdin is None,
{
    let key = public_key.into_base_64();
    let net = internal_address.trunc();
    let allowed = net.text();
    let keepalive = decimal_string(args.persistent_keepalive as u64);
    let mut a: Vec<String> = Vec::new();
    push_arg(&mut a, "set");
    push_arg(&mut a, args.interface.as_str());
    push_arg(&mut a, "peer");
    push_arg(&mut a, key.as_str());
    push_arg(&mut a, "endpoint");
    push_arg(&mut a, endpoint);
    push_arg(&mut a, "allowed-ips");
    push_arg(&mut a, allowed.as_str());
    push_arg(&mut a, "persistent-keepalive");
    push_arg(&mut a, keepalive.as_str());
    assert(texts(a@) =~= server_peer_args(
        args.interface@,
        public_key.raw(),
        endpoint@,
        *internal_address,
        args.persistent_keepalive as u64 as nat,
    ));
    Command::new("wg", a, None)
}

/// Everything the client runs once the server has answered: the interface
/// set-up, then admitting the server. The answer is validated before any
/// command is planned.
pub fn tunnel_commands(args: &Arguments, private_key: &PrivateKey, response: &ReserveIpResponse) -> (r:
    Result<Vec<Command>, ClientError>)
    ensures
        match key_bytes_of(response.server_public_key@) {
            None => r matches Err(ClientError::ServerKey(e)) && key_read_as(
                response.server_public_key@,
                Err(e),
            ),
            Some(key) => match cidr_parsed(response.address@) {
                None => r == Err::<Vec<Command>, _>(ClientError::Address),
                Some((v6, bits, len)) => r matches Ok(v) && v@.map_values(|c: Command| c@)
                    == client_setup_plan(private_key.raw(), response.address@, args.interface@)
                    + seq![
                    CommandView {
                        program: "wg"@,
                        args: server_peer_args(
                            args.interface@,
                            key,
                            response.endpoint@,
                            Subnet { addr: address_of(v6, bits), prefix_len: len as u8 },
                            args.persistent_keepalive as u64 as nat,
                        ),
                        stdin: None,
                    },
                ],
            },
        },
{
    let server_key = match PublicKey::from_base_64(response.server_public_key.as_str()) {
        Ok(k) => k,
        Err(e) => {
            return Err(ClientError::ServerKey(e));
        },
    };
    let address = match Subnet::parse(response.address.as_str()) {
        Some(n) => n,
        None => {
            return Err(ClientError::Address);
        },
    };
    proof {
        lemma_address_of_value(address.addr);
    }
    let mut commands = setup_wireguard_interface(private_key, response.address.as_str(), args);
    let ghost setup = commands@;
    let add = wireguard_add_peer(&server_key, &address, response.endpoint.as_str(), args);
    commands.push(add);
    assert(commands@.map_values(|c: Command| c@) =~= setup.map_values(|c: Command| c@).push(add@));
    Ok(commands)
}

} // verus!
