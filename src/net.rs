//! Internet addresses and subnets as plain integers, with the host-range
//! arithmetic that address allocation needs.
use vstd::prelude::*;
use vstd::arithmetic::power2::*;
use vstd::arithmetic::div_mod::*;
use vstd::arithmetic::mul::*;

verus! {

/// Number of bits in an address of the given family.
pub open spec fn width(v6: bool) -> nat {
    if v6 {
        128
    } else {
        32
    }
}

/// An IPv4 or IPv6 address, held as its numeric value.
#[derive(Clone, Copy, Debug, PartialEq, Eq, Structural)]
pub enum IpAddress {
    V4(u32),
    V6(u128),
}

/// The address of the given family whose numeric value is `value`.
pub open spec fn address_of(v6: bool, value: int) -> IpAddress {
    if v6 {
        IpAddress::V6(value as u128)
    } else {
        IpAddress::V4(value as u32)
    }
}

impl IpAddress {
    pub open spec fn is_v6(self) -> bool {
        self is V6
    }

    pub open spec fn value(self) -> int {
        match self {
            IpAddress::V4(a) => a as int,
            IpAddress::V6(a) => a as int,
        }
    }

    pub fn v6(&self) -> (r: bool)
        ensures
            r == self.is_v6(),
    {
        match self {
            IpAddress::V4(_) => false,
            IpAddress::V6(_) => true,
        }
    }

    pub fn bits(&self) -> (r: u128)
        ensures
            r == self.value(),
    {
        match self {
            IpAddress::V4(a) => *a as u128,
            IpAddress::V6(a) => *a,
        }
    }

    /// The longest prefix of the address family: 32 or 128.
    pub fn max_prefix_len(&self) -> (r: u8)
        ensures
            r == width(self.is_v6()),
    {
        match self {
            IpAddress::V4(_) => 32,
            IpAddress::V6(_) => 128,
        }
    }

    pub fn from_bits(v6: bool, bits: u128) -> (r: IpAddress)
        requires
            !v6 ==> bits <= u32::MAX,
        ensures
            r == address_of(v6, bits as int),
            r.is_v6() == v6,
            r.value() == bits,
    {
        if v6 {
            IpAddress::V6(bits)
        } else {
            IpAddress::V4(bits as u32)
        }
    }
}

pub proof fn lemma_address_of_value(a: IpAddress)
    ensures
        address_of(a.is_v6(), a.value()) == a,
        0 <= a.value() < pow2(width(a.is_v6())),
{
    lemma_width_pow2();
}

/// The sizes of the two address spaces.
pub proof fn lemma_width_pow2()
    ensures
        pow2(32) == 0x1_0000_0000,
        pow2(128) == u128::MAX + 1,
{
    lemma2_to64();
    lemma_pow2_adds(64, 64);
}

/// A subnet in CIDR form: an address inside it and a prefix length.
#[derive(Clone, Copy, Debug, PartialEq, Eq, Structural)]
pub struct Subnet {
    pub addr: IpAddress,
    pub prefix_len: u8,
}

impl Subnet {
    pub open spec fn wf(self) -> bool {
        self.prefix_len <= width(self.addr.is_v6())
    }

    pub open spec fn is_v6(self) -> bool {
        self.addr.is_v6()
    }

    /// Number of addresses in the subnet.
    pub open spec fn block(self) -> nat {
        pow2((width(self.is_v6()) - self.prefix_len) as nat)
    }

    pub open spec fn network(self) -> int {
        self.addr.value() - self.addr.value() % (self.block() as int)
    }

    pub open spec fn broadcast(self) -> int {
        self.network() + self.block() - 1
    }

    /// IPv4 subnets longer than /31 exclude their network and broadcast
    /// addresses from the hosts; /31, /32 and IPv6 subnets do not.
    pub open spec fn excludes_ends(self) -> bool {
        !self.is_v6() && self.prefix_len < 31
    }

    pub open spec fn first_host(self) -> int {
        if self.excludes_ends() {
            self.network() + 1
        } else {
            self.network()
        }
    }

    pub open spec fn last_host(self) -> int {
        if self.excludes_ends() {
            self.broadcast() - 1
        } else {
            self.broadcast()
        }
    }

    /// `a` is a host address of the subnet.
    pub open spec fn is_host(self, a: IpAddress) -> bool {
        a.is_v6() == self.is_v6() && self.first_host() <= a.value() <= self.last_host()
    }

    /// `a` is a host address that can be handed to a peer: not the
    /// subnet's own interface address.
    pub open spec fn is_usable(self, a: IpAddress) -> bool {
        self.is_host(a) && a != self.addr
    }

    /// The host route of an address: the address under the longest prefix.
    pub fn host_route(addr: IpAddress) -> (r: Subnet)
        ensures
            r.addr == addr,
            r.prefix_len == width(addr.is_v6()),
            r.wf(),
    {
        Subnet { addr, prefix_len: addr.max_prefix_len() }
    }

    /// The first and last host addresses, as numbers.
    pub fn host_range(&self) -> (r: (u128, u128))
        requires
            self.wf(),
        ensures
            r.0 == self.first_host(),
            r.1 == self.last_host(),
            self.first_host() <= self.last_host() + 1,
            0 <= self.network() <= self.first_host(),
            self.last_host() <= self.broadcast() < pow2(width(self.is_v6())),
    {
        let w: u8 = self.addr.max_prefix_len();
        let host_bits: u8 = w - self.prefix_len;
        let bits = self.addr.bits();
        proof {
            lemma_address_of_value(self.addr);
            lemma_width_pow2();
            lemma_block_fits(self.addr.value(), w as nat, host_bits as nat);
        }
        let (network, broadcast) = if host_bits == 128 {
            (0u128, u128::MAX)
        } else {
            let block = block_size(host_bits);
            proof {
                lemma_pow2_pos(host_bits as nat);
            }
            let network = bits - bits % block;
            (network, network + (block - 1))
        };
        if !self.addr.v6() && self.prefix_len < 31 {
            proof {
                assert(self.block() >= 4) by {
                    lemma_pow2_strictly_increases(1, host_bits as nat);
                    lemma2_to64();
                }
            }
            (network + 1, broadcast - 1)
        } else {
            (network, broadcast)
        }
    }

    /// The network of the subnet under the same prefix (the address with
    /// its host bits cleared).
    pub fn trunc(&self) -> (r: Subnet)
        requires
            self.wf(),
        ensures
            r.wf(),
            r.prefix_len == self.prefix_len,
            r.addr.is_v6() == self.is_v6(),
            r.addr.value() == self.network(),
    {
        let (first, last) = self.host_range();
        let v6 = self.addr.v6();
        let network = if !v6 && self.prefix_len < 31 {
            first - 1
        } else {
            first
        };
        proof {
            lemma_width_pow2();
            lemma_pow2_pos((width(v6) - self.prefix_len) as nat);
        }
        Subnet { addr: IpAddress::from_bits(v6, network), prefix_len: self.prefix_len }
    }
}

/// ipnet's text of a network: address, `/`, prefix length.
pub uninterp spec fn cidr_text(v6: bool, bits: int, prefix_len: int) -> Seq<char>;

/// The network that ipnet reads from text, as (is IPv6, address, prefix
/// length); `None` where the text is no network in CIDR form.
pub uninterp spec fn cidr_parsed(text: Seq<char>) -> Option<(bool, int, int)>;

/// Relies on the `Display` of ipnet's `IpNet`: the CIDR text of the
/// network, which ipnet's `FromStr` reads back to the same network.
#[verifier::external_body]
fn format_cidr(net: &Subnet) -> (r: String)
    requires
        net.wf(),
    ensures
        r@ == cidr_text(net.is_v6(), net.addr.value(), net.prefix_len as int),
        cidr_parsed(r@) == Some((net.is_v6(), net.addr.value(), net.prefix_len as int)),
{
    let n = match net.addr {
        IpAddress::V4(a) => ipnet::IpNet::V4(ipnet::Ipv4Net::new(a.into(), net.prefix_len).unwrap()),
        IpAddress::V6(a) => ipnet::IpNet::V6(ipnet::Ipv6Net::new(a.into(), net.prefix_len).unwrap()),
    };
    n.to_string()
}

/// Relies on ipnet's `FromStr` for `IpNet`: the network that the text
/// writes in CIDR form, with a prefix no longer than its family allows.
#[verifier::external_body]
fn parse_cidr(text: &str) -> (r: Option<Subnet>)
    ensures
        cidr_parsed(text@) == match r {
            Some(n) => Some((n.is_v6(), n.addr.value(), n.prefix_len as int)),
            None => None::<(bool, int, int)>,
        },
        r matches Some(n) ==> n.wf(),
{
    match text.parse::<ipnet::IpNet>() {
        Ok(ipnet::IpNet::V4(n)) => Some(Subnet { addr: IpAddress::V4(n.addr().into()), prefix_len: n.prefix_len() }),
        Ok(ipnet::IpNet::V6(n)) => Some(Subnet { addr: IpAddress::V6(n.addr().into()), prefix_len: n.prefix_len() }),
        Err(_) => None,
    }
}

impl Subnet {
    /// The subnet in CIDR text, such as `10.11.0.1/16`.
    pub fn text(&self) -> (r: String)
        requires
            self.wf(),
        ensures
            r@ == cidr_text(self.is_v6(), self.addr.value(), self.prefix_len as int),
            cidr_parsed(r@) == Some((self.is_v6(), self.addr.value(), self.prefix_len as int)),
    {
        format_cidr(self)
    }

    /// `a` is a host address of the subnet other than its own address.
    pub fn contains_usable(&self, a: &IpAddress) -> (r: bool)
        requires
            self.wf(),
        ensures
            r == self.is_usable(*a),
    {
        let (first, last) = self.host_range();
        let b = a.bits();
        a.v6() == self.addr.v6() && first <= b && b <= last && *a != self.addr
    }

    /// Reads a subnet in CIDR text.
    pub fn parse(text: &str) -> (r: Option<Subnet>)
        ensures
            match r {
                Some(n) => n.wf() && cidr_parsed(text@) == Some(
                    (n.is_v6(), n.addr.value(), n.prefix_len as int),
                ),
                None => cidr_parsed(text@) is None,
            },
    {
        parse_cidr(text)
    }
}

/// The hosts of a subnet lie inside its family's address space.
pub proof fn lemma_host_bounds(net: Subnet)
    requires
        net.wf(),
    ensures
        0 <= net.network() <= net.first_host(),
        net.last_host() <= net.broadcast() < pow2(width(net.is_v6())),
        net.block() > 0,
        net.first_host() <= net.last_host() + 1,
{
    lemma_address_of_value(net.addr);
    lemma_pow2_pos((width(net.is_v6()) - net.prefix_len) as nat);
    lemma_block_fits(
        net.addr.value(),
        width(net.is_v6()),
        (width(net.is_v6()) - net.prefix_len) as nat,
    );
    if net.excludes_ends() {
        lemma2_to64();
        lemma_pow2_strictly_increases(1, (width(net.is_v6()) - net.prefix_len) as nat);
    }
}

/// Within the address space, an address is fixed by its family and value.
pub proof fn lemma_address_of_in_range(v6: bool, v: int)
    requires
        0 <= v < pow2(width(v6)),
    ensures
        address_of(v6, v).value() == v,
        address_of(v6, v).is_v6() == v6,
{
    lemma_width_pow2();
}

/// `pow2(n)` as a machine integer.
fn block_size(n: u8) -> (r: u128)
    requires
        n < 128,
    ensures
        r == pow2(n as nat),
{
    let mut r: u128 = 1;
    let mut i: u8 = 0;
    proof {
        lemma2_to64();
        lemma_width_pow2();
    }
    while i < n
        invariant
            i <= n < 128,
            r == pow2(i as nat),
            pow2(128) == u128::MAX + 1,
        decreases n - i,
    {
        proof {
            lemma_pow2_unfold((i + 1) as nat);
            lemma_pow2_strictly_increases((i + 1) as nat, 128);
        }
        r = r * 2;
        i = i + 1;
    }
    r
}

/// The subnet of an address `v < 2^w` with `h` host bits lies below `2^w`.
proof fn lemma_block_fits(v: int, w: nat, h: nat)
    requires
        0 <= v < pow2(w),
        h <= w,
    ensures
        0 <= v - v % (pow2(h) as int),
        v - v % (pow2(h) as int) + pow2(h) <= pow2(w),
        v % (pow2(h) as int) <= v,
{
    let b = pow2(h) as int;
    let m = pow2((w - h) as nat) as int;
    lemma_pow2_pos(h);
    lemma_pow2_pos((w - h) as nat);
    lemma_pow2_adds(h, (w - h) as nat);
    assert(b * m == pow2(w));
    lemma_fundamental_div_mod(v, b);
    lemma_mod_pos_bound(v, b);
    let q = v / b;
    assert(v - v % b == b * q);
    lemma_div_pos_is_pos(v, b);
    assert(q < m) by {
        lemma_multiply_divide_lt(v, b, m);
    }
    assert(b * q + b <= b * m) by (nonlinear_arith)
        requires
            q + 1 <= m,
            b > 0,
    ;
    assert(0 <= b * q) by (nonlinear_arith)
        requires
            q >= 0,
            b > 0,
    ;
}

} // verus!
