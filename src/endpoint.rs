//! The server's externally reachable endpoint: `host` or `host:port`.
use vstd::prelude::*;
use vstd::string::*;

verus! {

pub open spec fn is_digit(c: char) -> bool {
    '0' <= c && c <= '9'
}

pub open spec fn digit_value(c: char) -> int {
    c as u32 as int - '0' as u32 as int
}

pub open spec fn all_digits(s: Seq<char>) -> bool {
    forall|i: int| 0 <= i < s.len() ==> is_digit(#[trigger] s[i])
}

/// The number that a string of decimal digits denotes.
pub open spec fn digits_value(s: Seq<char>) -> int
    decreases s.len(),
{
    if s.len() == 0 {
        0
    } else {
        digits_value(s.drop_last()) * 10 + digit_value(s.last())
    }
}

/// What reading `s` as a port number gives: decimal digits after an
/// optional `+`, with a value that fits in 16 bits.
pub open spec fn port_parsed(s: Seq<char>) -> Option<u16> {
    let d = if s.len() > 0 && s[0] == '+' {
        s.drop_first()
    } else {
        s
    };
    if d.len() > 0 && all_digits(d) && digits_value(d) <= u16::MAX {
        Some(digits_value(d) as u16)
    } else {
        None
    }
}

pub open spec fn digit_char(d: int) -> char {
    if d == 0 {
        '0'
    } else if d == 1 {
        '1'
    } else if d == 2 {
        '2'
    } else if d == 3 {
        '3'
    } else if d == 4 {
        '4'
    } else if d == 5 {
        '5'
    } else if d == 6 {
        '6'
    } else if d == 7 {
        '7'
    } else if d == 8 {
        '8'
    } else {
        '9'
    }
}

/// The decimal text of a number, without leading zeros.
pub open spec fn decimal_text(n: nat) -> Seq<char>
    decreases n,
{
    if n < 10 {
        seq![digit_char(n as int)]
    } else {
        decimal_text(n / 10) + seq![digit_char((n % 10) as int)]
    }
}

fn digit_str(d: u16) -> (r: &'static str)
    requires
        d < 10,
    ensures
        r@ == seq![digit_char(d as int)],
{
    proof {
        reveal_strlit("0");
        reveal_strlit("1");
        reveal_strlit("2");
        reveal_strlit("3");
        reveal_strlit("4");
        reveal_strlit("5");
        reveal_strlit("6");
        reveal_strlit("7");
        reveal_strlit("8");
        reveal_strlit("9");
    }
    let r = if d == 0 {
        "0"
    } else if d == 1 {
        "1"
    } else if d == 2 {
        "2"
    } else if d == 3 {
        "3"
    } else if d == 4 {
        "4"
    } else if d == 5 {
        "5"
    } else if d == 6 {
        "6"
    } else if d == 7 {
        "7"
    } else if d == 8 {
        "8"
    } else {
        "9"
    };
    assert(r@ =~= seq![digit_char(d as int)]);
    r
}

/// Decimal text of a number.
pub fn decimal_string(n: u64) -> (r: String)
    ensures
        r@ == decimal_text(n as nat),
    decreases n,
{
    if n < 10 {
        String::from_str(digit_str(n as u16))
    } else {
        let mut s = decimal_string(n / 10);
        s.append(digit_str((n % 10) as u16));
        s
    }
}

/// Reads a port number as `u16::from_str` does.
pub fn parse_port(s: &str) -> (r: Option<u16>)
    ensures
        r == port_parsed(s@),
{
    let n = s.unicode_len();
    let mut i: usize = 0;
    if n > 0 && s.get_char(0) == '+' {
        i = 1;
    }
    let start = i;
    let ghost d = if s@.len() > 0 && s@[0] == '+' {
        s@.drop_first()
    } else {
        s@
    };
    assert(d =~= s@.skip(start as int));
    if i == n {
        return None;
    }
    let mut acc: u32 = 0;
    while i < n
        invariant
            start <= i <= n,
            n == s@.len(),
            start < n,
            d == s@.skip(start as int),
            d == (if s@.len() > 0 && s@[0] == '+' {
                s@.drop_first()
            } else {
                s@
            }),
            acc == digits_value(d.take(i - start)),
            acc <= u16::MAX,
            all_digits(d.take(i - start)),
        decreases n - i,
    {
        let c = s.get_char(i);
        proof {
            assert(d[i - start] == c);
        }
        if !('0' <= c && c <= '9') {
            assert(!is_digit(d[i - start]));
            assert(!all_digits(d));
            return None;
        }
        proof {
            let t = d.take(i - start + 1);
            assert(t.drop_last() =~= d.take(i - start));
            assert(t.last() == c);
            assert(all_digits(t));
        }
        acc = acc * 10 + (c as u32 - '0' as u32);
        if acc > u16::MAX as u32 {
            proof {
                assert(acc == digits_value(d.take(i - start + 1)));
                lemma_digits_grow(d, (i - start + 1) as int);
            }
            return None;
        }
        i = i + 1;
    }
    assert(d.take(n - start) =~= d);
    Some(acc as u16)
}

/// Appending digits never lowers the value: a long run of digits whose
/// prefix exceeds the bound also exceeds it, or holds a non-digit.
proof fn lemma_digits_grow(d: Seq<char>, k: int)
    requires
        0 <= k <= d.len(),
        all_digits(d.take(k)),
    ensures
        all_digits(d) ==> digits_value(d) >= digits_value(d.take(k)),
    decreases d.len() - k,
{
    if k < d.len() && all_digits(d) {
        assert(all_digits(d.take(k + 1)));
        assert(d.take(k + 1).drop_last() =~= d.take(k));
        lemma_digits_value_nonneg(d.take(k));
        lemma_digits_grow(d, k + 1);
    } else if k == d.len() {
        assert(d.take(k) =~= d);
    }
}

proof fn lemma_digits_value_nonneg(d: Seq<char>)
    requires
        all_digits(d),
    ensures
        digits_value(d) >= 0,
    decreases d.len(),
{
    if d.len() > 0 {
        assert(all_digits(d.drop_last()));
        lemma_digits_value_nonneg(d.drop_last());
    }
}

proof fn lemma_digit_char(d: int)
    requires
        0 <= d < 10,
    ensures
        is_digit(digit_char(d)),
        digit_value(digit_char(d)) == d,
{
}

/// Decimal text reads back as the same port.
pub proof fn lemma_port_round_trip(n: u16)
    ensures
        port_parsed(decimal_text(n as nat)) == Some(n),
{
    lemma_decimal_text(n as nat);
}

proof fn lemma_decimal_text(n: nat)
    ensures
        decimal_text(n).len() > 0,
        all_digits(decimal_text(n)),
        digits_value(decimal_text(n)) == n,
    decreases n,
{
    if n < 10 {
        let t = decimal_text(n);
        assert(t.drop_last() =~= Seq::<char>::empty());
        assert(digits_value(t.drop_last()) == 0);
        lemma_digit_char(n as int);
    } else {
        lemma_decimal_text(n / 10);
        lemma_digit_char((n % 10) as int);
        let t = decimal_text(n);
        assert(t.drop_last() =~= decimal_text(n / 10));
        assert(n / 10 * 10 + n % 10 == n) by (nonlinear_arith);
        assert forall|i: int| 0 <= i < t.len() implies is_digit(#[trigger] t[i]) by {
            if i < t.len() - 1 {
                assert(t[i] == decimal_text(n / 10)[i]);
            }
        }
    }
}

/// The host as url's parser reads it and writes it back (a lower-cased
/// domain, a normalised IPv4 address, a bracketed IPv6 address); `None`
/// where the text is no valid host.
pub uninterp spec fn host_parsed(text: Seq<char>) -> Option<Seq<char>>;

/// Relies on url's `Host::parse` followed by the `Display` of `Host`: the
/// serialised host, or an error where the text is no valid host.
#[verifier::external_body]
fn parse_host(text: &str) -> (r: Option<String>)
    ensures
        host_parsed(text@) == match r {
            Some(h) => Some(h@),
            None => None::<Seq<char>>,
        },
{
    match url::Host::parse(text) {
        Ok(h) => Some(h.to_string()),
        Err(_) => None,
    }
}

/// Why endpoint text was refused.
#[derive(Clone, Copy, Debug, PartialEq, Eq, Structural)]
pub enum EndpointError {
    InvalidHost,
    InvalidPort,
}

pub open spec fn no_colon(s: Seq<char>) -> bool {
    forall|i: int| 0 <= i < s.len() ==> s[i] != ':'
}

/// `k` is the position of the first `:` in `s`.
pub open spec fn is_first_colon(s: Seq<char>, k: int) -> bool {
    0 <= k < s.len() && s[k] == ':' && no_colon(s.take(k))
}

/// The text before the first `:`, and the text after it if there is one.
pub open spec fn endpoint_split(s: Seq<char>) -> (Seq<char>, Option<Seq<char>>) {
    if no_colon(s) {
        (s, None)
    } else {
        let k = choose|k: int| is_first_colon(s, k);
        (s.take(k), Some(s.skip(k + 1)))
    }
}

/// What reading endpoint text gives: the serialised host and the port.
pub open spec fn endpoint_parsed(s: Seq<char>) -> Result<(Seq<char>, Option<u16>), EndpointError> {
    let (h, p) = endpoint_split(s);
    match host_parsed(h) {
        None => Err(EndpointError::InvalidHost),
        Some(host) => match p {
            None => Ok((host, None)),
            Some(t) => match port_parsed(t) {
                None => Err(EndpointError::InvalidPort),
                Some(n) => Ok((host, Some(n))),
            },
        },
    }
}

/// The canonical text of an endpoint.
pub open spec fn endpoint_text(host: Seq<char>, port: Option<u16>) -> Seq<char> {
    match port {
        None => host,
        Some(n) => host + ":"@ + decimal_text(n as nat),
    }
}

/// Host (a name or a literal address, in serialised form) and optional port.
#[derive(Clone, Debug)]
pub struct Endpoint {
    pub host: String,
    pub port: Option<u16>,
}

impl View for Endpoint {
    type V = (Seq<char>, Option<u16>);

    open spec fn view(&self) -> (Seq<char>, Option<u16>) {
        (self.host@, self.port)
    }
}

proof fn lemma_first_colon_unique(s: Seq<char>, k: int)
    requires
        is_first_colon(s, k),
    ensures
        !no_colon(s),
        endpoint_split(s) == (s.take(k), Some(s.skip(k + 1))),
{
    let j = choose|j: int| is_first_colon(s, j);
    assert(is_first_colon(s, j));
    if j < k {
        assert(s.take(k)[j] == ':');
    } else if j > k {
        assert(s.take(j)[k] == ':');
    }
}

impl Endpoint {
    /// Reads `host` or `host:port`, splitting at the first `:`.
    pub fn parse(s: &str) -> (r: Result<Endpoint, EndpointError>)
        ensures
            match r {
                Ok(e) => endpoint_parsed(s@) == Ok::<_, EndpointError>(e@),
                Err(e) => endpoint_parsed(s@) == Err::<(Seq<char>, Option<u16>), _>(e),
            },
    {
        let n = s.unicode_len();
        let mut k: usize = 0;
        loop
            invariant
                k <= n,
                n == s@.len(),
                no_colon(s@.take(k as int)),
            ensures
                k <= n,
                no_colon(s@.take(k as int)),
                k < n ==> s@[k as int] == ':',
            decreases n - k,
        {
            if k == n {
                break;
            }
            if s.get_char(k) == ':' {
                break;
            }
            assert(s@.take(k + 1).drop_last() =~= s@.take(k as int));
            k = k + 1;
        }
        let host_text = s.substring_char(0, k);
        let host = match parse_host(host_text) {
            Some(h) => h,
            None => {
                proof {
                    self::lemma_split_at(s@, k as int);
                }
                assert(endpoint_split(s@).0 == s@.subrange(0, k as int));
                return Err(EndpointError::InvalidHost);
            },
        };
        proof {
            lemma_split_at(s@, k as int);
        }
        if k == n {
            assert(s@.subrange(0, k as int) =~= s@);
            return Ok(Endpoint { host, port: None });
        }
        let port_text = s.substring_char(k + 1, n);
        match parse_port(port_text) {
            Some(p) => Ok(Endpoint { host, port: Some(p) }),
            None => Err(EndpointError::InvalidPort),
        }
    }

    /// A copy of the endpoint.
    pub fn duplicate(&self) -> (r: Endpoint)
        ensures
            r@ == self@,
    {
        Endpoint { host: self.host.clone(), port: self.port }
    }

    /// `host` or `host:port`.
    pub fn text(&self) -> (r: String)
        ensures
            r@ == endpoint_text(self.host@, self.port),
    {
        let mut r = self.host.clone();
        match self.port {
            None => {},
            Some(p) => {
                r.append(":");
                let t = decimal_string(p as u64);
                r.append(t.as_str());
            },
        }
        r
    }
}

proof fn lemma_split_at(s: Seq<char>, k: int)
    requires
        0 <= k <= s.len(),
        no_colon(s.take(k)),
        k < s.len() ==> s[k] == ':',
    ensures
        k == s.len() ==> endpoint_split(s) == (s, None::<Seq<char>>),
        k < s.len() ==> endpoint_split(s) == (s.subrange(0, k), Some(s.subrange(k + 1, s.len() as int))),
{
    if k == s.len() {
        assert(s.take(k) =~= s);
    } else {
        lemma_first_colon_unique(s, k);
        assert(s.take(k) =~= s.subrange(0, k));
        assert(s.skip(k + 1) =~= s.subrange(k + 1, s.len() as int));
    }
}

/// Endpoint text reads back as the same endpoint, where the host is in the
/// serialised form that url's parser gives back unchanged and holds no `:`.
pub proof fn lemma_endpoint_round_trip(host: Seq<char>, port: Option<u16>)
    requires
        no_colon(host),
        host_parsed(host) == Some(host),
    ensures
        endpoint_parsed(endpoint_text(host, port)) == Ok::<_, EndpointError>((host, port)),
{
    let t = endpoint_text(host, port);
    match port {
        None => {
            assert(t.take(t.len() as int) =~= t);
        },
        Some(n) => {
            let k = host.len() as int;
            assert(t.take(k) =~= host);
            assert(t[k] == ':') by {
                reveal_strlit(":");
            }
            lemma_first_colon_unique(t, k);
            assert(t.skip(k + 1) =~= decimal_text(n as nat)) by {
                reveal_strlit(":");
            }
            lemma_port_round_trip(n);
        },
    }
}

} // verus!
