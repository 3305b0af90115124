//! Networks in CIDR notation: which addresses share the first bits of another.
use vstd::prelude::*;

use crate::address;
use crate::address::{Address, IpAddr};
use crate::text;

verus! {

// ---------------------------------------------------------------------------
// Bits
// ---------------------------------------------------------------------------
/// Bit `k` of an octet, counted from the most significant one.
pub open spec fn octet_bit(b: u8, k: int) -> bool {
    b & (0x80u8 >> (k as u8)) != 0
}

/// Bit `i` of a sequence of octets, counted from the most significant one.
pub open spec fn bit(o: Seq<u8>, i: int) -> bool {
    octet_bit(o[i / 8], i % 8)
}

/// Whether the first `prefix` bits of the two are the same.
pub open spec fn agree(a: Seq<u8>, b: Seq<u8>, prefix: int) -> bool {
    forall|i: int| 0 <= i < prefix ==> #[trigger] bit(a, i) == bit(b, i)
}

/// The octet with all bits but the first `keep` cleared.
pub open spec fn masked_octet(b: u8, keep: int) -> u8 {
    if keep <= 0 {
        0
    } else if keep >= 8 {
        b
    } else {
        b & (0xffu8 << ((8 - keep) as u8))
    }
}

/// The octets with all bits but the first `prefix` cleared.
pub open spec fn masked(o: Seq<u8>, prefix: int) -> Seq<u8> {
    Seq::new(o.len(), |i: int| masked_octet(o[i], prefix - 8 * i))
}

proof fn lemma_octet_bits(a: u8, b: u8, n: u8)
    requires
        1 <= n <= 8,
    ensures
        (a & (0xffu8 << ((8 - n) as u8)) == b & (0xffu8 << ((8 - n) as u8))) <==> (forall|k: int|
            0 <= k < n ==> #[trigger] octet_bit(a, k) == octet_bit(b, k)),
{
    assert((a & (0xffu8 << ((8 - n) as u8)) == b & (0xffu8 << ((8 - n) as u8))) <==> ((((a & 0x80
        != 0) == (b & 0x80 != 0))) && (n > 1 ==> ((a & 0x40 != 0) == (b & 0x40 != 0))) && (n > 2
        ==> ((a & 0x20 != 0) == (b & 0x20 != 0))) && (n > 3 ==> ((a & 0x10 != 0) == (b & 0x10
        != 0))) && (n > 4 ==> ((a & 8 != 0) == (b & 8 != 0))) && (n > 5 ==> ((a & 4 != 0) == (b & 4
        != 0))) && (n > 6 ==> ((a & 2 != 0) == (b & 2 != 0))) && (n > 7 ==> ((a & 1 != 0) == (b & 1
        != 0))))) by (bit_vector)
        requires
            1 <= n <= 8,
    ;
    lemma_bit_masks();
    if forall|k: int| 0 <= k < n ==> #[trigger] octet_bit(a, k) == octet_bit(b, k) {
        assert(octet_bit(a, 0) == octet_bit(b, 0));
        assert(n > 1 ==> octet_bit(a, 1) == octet_bit(b, 1));
        assert(n > 2 ==> octet_bit(a, 2) == octet_bit(b, 2));
        assert(n > 3 ==> octet_bit(a, 3) == octet_bit(b, 3));
        assert(n > 4 ==> octet_bit(a, 4) == octet_bit(b, 4));
        assert(n > 5 ==> octet_bit(a, 5) == octet_bit(b, 5));
        assert(n > 6 ==> octet_bit(a, 6) == octet_bit(b, 6));
        assert(n > 7 ==> octet_bit(a, 7) == octet_bit(b, 7));
    } else {
        let k = choose|k: int| 0 <= k < n && octet_bit(a, k) != #[trigger] octet_bit(b, k);
        assert(k == 0 || k == 1 || k == 2 || k == 3 || k == 4 || k == 5 || k == 6 || k == 7);
    }
}

proof fn lemma_bit_masks()
    ensures
        0x80u8 >> 0u8 == 0x80,
        0x80u8 >> 1u8 == 0x40,
        0x80u8 >> 2u8 == 0x20,
        0x80u8 >> 3u8 == 0x10,
        0x80u8 >> 4u8 == 8,
        0x80u8 >> 5u8 == 4,
        0x80u8 >> 6u8 == 2,
        0x80u8 >> 7u8 == 1,
{
    assert(0x80u8 >> 0u8 == 0x80 && 0x80u8 >> 1u8 == 0x40 && 0x80u8 >> 2u8 == 0x20 && 0x80u8 >> 3u8
        == 0x10 && 0x80u8 >> 4u8 == 8 && 0x80u8 >> 5u8 == 4 && 0x80u8 >> 6u8 == 2 && 0x80u8 >> 7u8
        == 1) by (bit_vector);
}

/// Two octets are the same exactly where all eight bits are.
proof fn lemma_octet_equal(a: u8, b: u8)
    ensures
        a == b <==> (forall|k: int| 0 <= k < 8 ==> #[trigger] octet_bit(a, k) == octet_bit(b, k)),
{
    lemma_octet_bits(a, b, 8);
    assert(a & (0xffu8 << 0u8) == a) by (bit_vector);
    assert(b & (0xffu8 << 0u8) == b) by (bit_vector);
}

/// Compare the first `prefix` bits of two sequences of octets. Each has to have
/// the octets that the prefix covers; one that it covers in part is looked at
/// only where those before it are the same.
pub fn masked_eq(a: &[u8], b: &[u8], prefix: u8) -> (r: bool)
    requires
        prefix / 8 <= a@.len(),
        prefix / 8 <= b@.len(),
        prefix % 8 > 0 && a@.take(prefix as int / 8) == b@.take(prefix as int / 8) ==> prefix / 8
            < a@.len() && prefix / 8 < b@.len(),
    ensures
        r == agree(a@, b@, prefix as int),
{
    let full_bytes: usize = (prefix / 8) as usize;
    let mut i: usize = 0;
    while i < full_bytes
        invariant
            i <= full_bytes,
            full_bytes == prefix / 8,
            full_bytes <= a@.len(),
            full_bytes <= b@.len(),
            forall|j: int| 0 <= j < i ==> #[trigger] a@[j] == b@[j],
        decreases full_bytes - i,
    {
        if a[i] != b[i] {
            proof {
                lemma_octet_equal(a@[i as int], b@[i as int]);
                let k = choose|k: int|
                    0 <= k < 8 && octet_bit(a@[i as int], k) != #[trigger] octet_bit(
                        b@[i as int],
                        k,
                    );
                assert(bit(a@, 8 * i + k) != bit(b@, 8 * i + k));
            }
            return false;
        }
        i = i + 1;
    }
    proof {
        assert(a@.take(prefix as int / 8) =~= b@.take(prefix as int / 8));
    }
    let remaining_bits: u8 = prefix % 8;
    if remaining_bits > 0 {
        let mask: u8 = 0xffu8 << (8 - remaining_bits);
        proof {
            lemma_octet_bits(a@[full_bytes as int], b@[full_bytes as int], remaining_bits);
        }
        if (a[full_bytes] & mask) != (b[full_bytes] & mask) {
            proof {
                let k = choose|k: int|
                    0 <= k < remaining_bits && octet_bit(a@[full_bytes as int], k)
                        != #[trigger] octet_bit(b@[full_bytes as int], k);
                assert(bit(a@, 8 * full_bytes + k) != bit(b@, 8 * full_bytes + k));
            }
            return false;
        }
    }
    proof {
        assert forall|j: int| 0 <= j < prefix implies #[trigger] bit(a@, j) == bit(b@, j) by {
            if j / 8 < full_bytes {
                assert(a@[j / 8] == b@[j / 8]);
            } else {
                assert(octet_bit(a@[full_bytes as int], j % 8) == octet_bit(
                    b@[full_bytes as int],
                    j % 8,
                ));
            }
        }
    }
    true
}

/// A masked octet keeps its first bits and no other.
proof fn lemma_masked_octet(b: u8, keep: int, k: int)
    requires
        0 <= k < 8,
    ensures
        octet_bit(masked_octet(b, keep), k) == (k < keep && octet_bit(b, k)),
{
    let j = k as u8;
    if keep <= 0 {
        assert(0u8 & (0x80u8 >> j) == 0) by (bit_vector);
    } else if keep < 8 {
        let n = keep as u8;
        assert(((b & (0xffu8 << ((8 - n) as u8))) & (0x80u8 >> j) != 0) == (j < n && b & (0x80u8
            >> j) != 0)) by (bit_vector)
            requires
                0 <= j < 8,
                0 < n < 8,
        ;
    }
}

/// Masking keeps the first `prefix` bits as they are and clears the others.
pub proof fn masked_bits(o: Seq<u8>, prefix: int, i: int)
    requires
        0 <= i < 8 * o.len(),
    ensures
        bit(masked(o, prefix), i) == (i < prefix && bit(o, i)),
{
    lemma_masked_octet(o[i / 8], prefix - 8 * (i / 8), i % 8);
}

/// Sequences of octets are the same exactly where all their bits are.
proof fn lemma_octets_equal(a: Seq<u8>, b: Seq<u8>)
    requires
        a.len() == b.len(),
        agree(a, b, 8 * a.len() as int),
    ensures
        a == b,
{
    assert forall|j: int| 0 <= j < a.len() implies a[j] == b[j] by {
        lemma_octet_equal(a[j], b[j]);
        assert forall|k: int| 0 <= k < 8 implies #[trigger] octet_bit(a[j], k) == octet_bit(
            b[j],
            k,
        ) by {
            assert(bit(a, 8 * j + k) == bit(b, 8 * j + k));
        }
    }
    assert(a =~= b);
}

/// Two addresses share the first `prefix` bits exactly where masking makes
/// them the same.
pub proof fn agree_masked(a: Seq<u8>, b: Seq<u8>, prefix: int)
    requires
        a.len() == b.len(),
        0 <= prefix <= 8 * a.len(),
    ensures
        agree(a, b, prefix) <==> masked(a, prefix) == masked(b, prefix),
{
    let x = masked(a, prefix);
    let y = masked(b, prefix);
    if agree(a, b, prefix) {
        assert forall|i: int| 0 <= i < 8 * x.len() implies #[trigger] bit(x, i) == bit(y, i) by {
            masked_bits(a, prefix, i);
            masked_bits(b, prefix, i);
            if i < prefix {
                assert(bit(a, i) == bit(b, i));
            }
        }
        lemma_octets_equal(x, y);
    }
    if x == y {
        assert forall|i: int| 0 <= i < prefix implies #[trigger] bit(a, i) == bit(b, i) by {
            masked_bits(a, prefix, i);
            masked_bits(b, prefix, i);
        }
    }
}

/// Masking twice is masking once.
pub proof fn masked_idempotent(o: Seq<u8>, prefix: int)
    ensures
        masked(masked(o, prefix), prefix) == masked(o, prefix),
{
    let x = masked(o, prefix);
    let y = masked(x, prefix);
    assert forall|i: int| 0 <= i < 8 * x.len() implies #[trigger] bit(y, i) == bit(x, i) by {
        masked_bits(o, prefix, i);
        masked_bits(x, prefix, i);
    }
    lemma_octets_equal(y, x);
}

/// How many bits an address of the family has.
pub open spec fn address_bits(a: Address) -> nat {
    match a {
        Address::V4(_) => 32,
        Address::V6(_) => 128,
    }
}

/// The address with all bits but the first `prefix` cleared.
pub open spec fn network_of(a: Address, prefix: int) -> Address {
    match a {
        Address::V4(o) => Address::V4(masked(o, prefix)),
        Address::V6(o) => Address::V6(masked(o, prefix)),
    }
}

/// The network of an address is canonical.
pub proof fn network_of_wf(a: Address, prefix: nat)
    requires
        a.wf(),
        prefix <= address_bits(a),
    ensures
        (Network { address: network_of(a, prefix as int), prefix }).wf(),
{
    masked_idempotent(a.octets(), prefix as int);
}

fn mask_octet(b: u8, i: usize, prefix: u8) -> (r: u8)
    requires
        i < 16,
    ensures
        r == masked_octet(b, prefix - 8 * i),
{
    let bits: usize = i * 8;
    let prefix: usize = prefix as usize;
    if bits >= prefix {
        0
    } else if bits + 8 > prefix {
        b & (0xffu8 << ((bits + 8 - prefix) as u8))
    } else {
        b
    }
}

/// Zero the host bits of `addr` beyond `prefix`, yielding the canonical
/// network address.
pub fn canonicalize(addr: IpAddr, prefix: u8) -> (r: IpAddr)
    ensures
        r@ == network_of(addr@, prefix as int),
{
    match addr {
        IpAddr::V4(o) => {
            let mut out: [u8; 4] = o;
            let mut i: usize = 0;
            while i < 4
                invariant
                    i <= 4,
                    forall|j: int| 0 <= j < i ==> #[trigger] out@[j] == masked(o@, prefix as int)[j],
                decreases 4 - i,
            {
                out[i] = mask_octet(o[i], i, prefix);
                i = i + 1;
            }
            proof {
                assert(out@ =~= masked(o@, prefix as int));
            }
            IpAddr::V4(out)
        },
        IpAddr::V6(o) => {
            let mut out: [u8; 16] = o;
            let mut i: usize = 0;
            while i < 16
                invariant
                    i <= 16,
                    forall|j: int| 0 <= j < i ==> #[trigger] out@[j] == masked(o@, prefix as int)[j],
                decreases 16 - i,
            {
                out[i] = mask_octet(o[i], i, prefix);
                i = i + 1;
            }
            proof {
                assert(out@ =~= masked(o@, prefix as int));
            }
            IpAddr::V6(out)
        },
    }
}

// ---------------------------------------------------------------------------
// Networks
// ---------------------------------------------------------------------------
/// A CIDR network (IPv4 or IPv6). The stored address is canonical (host bits
/// zeroed), so it doubles as a clean display value.
#[derive(Debug, Clone, Copy, PartialEq, Eq)]
pub struct Cidr {
    network: IpAddr,
    prefix: u8,
}

/// A network address and how many of its bits count.
pub struct Network {
    pub address: Address,
    pub prefix: nat,
}

impl Network {
    /// The prefix fits the family and the host bits are zero.
    pub open spec fn wf(self) -> bool {
        &&& self.address.wf()
        &&& self.prefix <= address_bits(self.address)
        &&& network_of(self.address, self.prefix as int) == self.address
    }

    /// Whether the network holds the address: one of the same family whose
    /// first bits are those of the network.
    pub open spec fn has(self, ip: Address) -> bool {
        match (self.address, ip) {
            (Address::V4(net), Address::V4(o)) => agree(net, o, self.prefix as int),
            (Address::V6(net), Address::V6(o)) => agree(net, o, self.prefix as int),
            _ => false,
        }
    }
}

impl View for Cidr {
    type V = Network;

    closed spec fn view(&self) -> Network {
        Network { address: self.network@, prefix: self.prefix as nat }
    }
}

/// The number that a text writes as an octet in decimal: a plus sign may come
/// first.
pub open spec fn prefix_length(s: Seq<char>) -> Option<nat> {
    if s.len() > 0 && s[0] == '+' {
        text::bounded_numeral(s.skip(1), 10, 255)
    } else {
        text::bounded_numeral(s, 10, 255)
    }
}

/// The network of an address and a prefix that fits its family.
pub open spec fn network(addr: Option<Address>, prefix: Option<nat>) -> Option<Network> {
    match (addr, prefix) {
        (Some(a), Some(p)) => if p <= address_bits(a) {
            Some(Network { address: network_of(a, p as int), prefix: p })
        } else {
            None
        },
        _ => None,
    }
}

/// The network that a text writes: `address/prefix`, or a bare address, which
/// is a network of one host.
pub open spec fn parse_network(s: Seq<char>) -> Option<Network> {
    let parts = text::split(s, '/');
    if parts.len() == 1 {
        match address::parse_address(s) {
            Some(a) => network(Some(a), Some(address_bits(a))),
            None => None,
        }
    } else if parts.len() == 2 {
        network(address::parse_address(parts[0]), prefix_length(parts[1]))
    } else {
        None
    }
}

/// The text form of a network.
pub open spec fn format_network(n: Network) -> Seq<char> {
    address::format_address(n.address) + seq!['/'] + text::decimal(n.prefix)
}

/// What is said of a text that writes no network.
pub open spec fn invalid_entry(entry: Seq<char>) -> Seq<char> {
    "Invalid ip_whitelist entry: "@ + entry
}

fn parse_prefix_length(s: &Vec<char>) -> (r: Option<u8>)
    ensures
        r is Some <==> prefix_length(s@) is Some,
        r is Some ==> r->0 as nat == prefix_length(s@)->0,
{
    let digits: Vec<char> = if s.len() > 0 && s[0] == '+' {
        let rest: Vec<char> = text::slice_of(s, 1, s.len());
        proof {
            assert(rest@ =~= s@.skip(1));
        }
        rest
    } else {
        let rest: Vec<char> = text::slice_of(s, 0, s.len());
        proof {
            assert(rest@ =~= s@);
        }
        rest
    };
    match text::parse_numeral(&digits, 10, 255) {
        Some(v) => Some(v as u8),
        None => None,
    }
}

impl Cidr {
    #[verifier::type_invariant]
    spec fn canonical(self) -> bool {
        self@.wf()
    }

    fn parse_parts(chars: &Vec<char>) -> (r: Option<Cidr>)
        ensures
            r is Some <==> parse_network(chars@) is Some,
            r is Some ==> r->0@ == parse_network(chars@)->0,
    {
        let parts: Vec<Vec<char>> = text::split_chars(chars, '/');
        let ghost spec_parts = text::split(chars@, '/');
        proof {
            assert(forall|i: int| 0 <= i < parts.len() ==> spec_parts[i] == #[trigger] parts@[i]@);
        }
        let (addr, prefix): (Option<IpAddr>, Option<u8>) = if parts.len() == 1 {
            match IpAddr::parse_chars(chars) {
                Some(a) => (Some(a), Some(if a.is_ipv4() { 32 } else { 128 })),
                None => (None, None),
            }
        } else if parts.len() == 2 {
            (IpAddr::parse_chars(&parts[0]), parse_prefix_length(&parts[1]))
        } else {
            (None, None)
        };
        match (addr, prefix) {
            (Some(a), Some(p)) => {
                let max_prefix: u8 = if a.is_ipv4() { 32 } else { 128 };
                if p <= max_prefix {
                    proof {
                        network_of_wf(a@, p as nat);
                    }
                    Some(Cidr { network: canonicalize(a, p), prefix: p })
                } else {
                    None
                }
            },
            _ => None,
        }
    }

    /// Parse a CIDR (`10.0.0.0/8`, `2001:db8::/32`) or a bare address
    /// (`127.0.0.1`, treated as `/32`; `::1` as `/128`).
    pub fn parse(entry: &str) -> (r: Result<Cidr, String>)
        ensures
            match r {
                Ok(cidr) => parse_network(entry@) == Some(cidr@),
                Err(message) => parse_network(entry@) is None && message@ == invalid_entry(entry@),
            },
    {
        match Cidr::parse_parts(&text::to_chars(entry)) {
            Some(cidr) => Ok(cidr),
            None => Err(text::joined("Invalid ip_whitelist entry: ", entry)),
        }
    }

    /// True if `ip` falls inside this network (same family and matching prefix
    /// bits).
    pub fn contains(&self, ip: IpAddr) -> (r: bool)
        ensures
            self@.wf(),
            r == self@.has(ip@),
    {
        proof {
            use_type_invariant(self);
        }
        match (self.network, ip) {
            (IpAddr::V4(net), IpAddr::V4(o)) => masked_eq(&net, &o, self.prefix),
            (IpAddr::V6(net), IpAddr::V6(o)) => masked_eq(&net, &o, self.prefix),
            // Different address families never match.
            _ => false,
        }
    }

    /// The network in CIDR notation.
    pub fn to_string(&self) -> (r: String)
        ensures
            r@ == format_network(self@),
    {
        let address: String = self.network.to_string();
        let head: String = text::joined(&address, "/");
        let number: String = text::decimal_string(self.prefix as u64);
        proof {
            reveal_strlit("/");
            assert("/"@ =~= seq!['/']);
        }
        text::joined(&head, &number)
    }
}

// ---------------------------------------------------------------------------
// Laws
// ---------------------------------------------------------------------------
/// A network holds an address exactly where clearing the address's host bits
/// yields the network's own address; addresses of the other family are never
/// in it.
pub proof fn has_is_same_network(n: Network, ip: Address)
    requires
        n.wf(),
        ip.wf(),
    ensures
        n.has(ip) <==> network_of(ip, n.prefix as int) == n.address,
{
    match (n.address, ip) {
        (Address::V4(net), Address::V4(o)) => agree_masked(net, o, n.prefix as int),
        (Address::V6(net), Address::V6(o)) => agree_masked(net, o, n.prefix as int),
        _ => {},
    }
}

/// A network with the longest prefix of its family holds one address: its own.
pub proof fn single_host(n: Network, ip: Address)
    requires
        n.wf(),
        ip.wf(),
        n.prefix == address_bits(n.address),
    ensures
        n.has(ip) <==> ip == n.address,
{
    match (n.address, ip) {
        (Address::V4(net), Address::V4(o)) => if agree(net, o, 32) {
            lemma_octets_equal(net, o);
        },
        (Address::V6(net), Address::V6(o)) => if agree(net, o, 128) {
            lemma_octets_equal(net, o);
        },
        _ => {},
    }
}

/// A network with prefix 0 holds every address of its family and no other.
pub proof fn zero_prefix_has_family(n: Network, ip: Address)
    requires
        n.prefix == 0,
    ensures
        n.has(ip) <==> (n.address is V4 <==> ip is V4),
{
}

/// Of two networks with the same address, the one with the longer prefix holds
/// no address that the other does not hold.
pub proof fn longer_prefix_narrows(n: Network, longer: nat, ip: Address)
    requires
        longer >= n.prefix,
        (Network { address: n.address, prefix: longer }).has(ip),
    ensures
        n.has(ip),
{
}

/// A network that a text writes is canonical and holds the address that stands
/// in the text.
pub proof fn parsed_network_has_its_address(s: Seq<char>)
    requires
        parse_network(s) is Some,
    ensures
        parse_network(s)->0.wf(),
        address::parse_address(text::split(s, '/')[0]) is Some,
        parse_network(s)->0.has(address::parse_address(text::split(s, '/')[0])->0),
{
    let parts = text::split(s, '/');
    text::lemma_split_join(s, '/');
    if parts.len() == 1 {
        assert(parts[0] == s);
    }
    let a = address::parse_address(parts[0])->0;
    let n = parse_network(s)->0;
    address::parsed_address_wf(parts[0]);
    network_of_wf(a, n.prefix);
    has_is_same_network(n, a);
}

/// Reading the text form of a network gives the network back.
pub proof fn network_roundtrip(n: Network)
    requires
        n.wf(),
    ensures
        parse_network(format_network(n)) == Some(n),
{
    let a = address::format_address(n.address);
    let p = text::decimal(n.prefix);
    let s = format_network(n);
    let parts = seq![a, p];
    address::address_roundtrip(n.address);
    address::address_characters(n.address, '/');
    text::lemma_numeral_roundtrip(n.prefix, 10);
    assert forall|i: int| 0 <= i < p.len() implies p[i] != '/' && p[i] != '+' by {
        assert(text::is_digit(p[i], 10));
    }
    assert(parts.drop_last() =~= seq![a]);
    assert(text::join(seq![a], seq!['/']) == a);
    assert(s =~= text::join(parts, seq!['/']));
    text::lemma_join_split(parts, '/');
}

/// The text form of a network holds hexadecimal digits, dots, colons and
/// slashes only.
pub proof fn network_characters(n: Network, c: char)
    requires
        c != '.',
        c != ':',
        c != '/',
        text::hex_value(c) is None,
    ensures
        !format_network(n).contains(c),
{
    let a = address::format_address(n.address);
    let p = text::decimal(n.prefix);
    let s = format_network(n);
    address::address_characters(n.address, c);
    text::lemma_numeral_roundtrip(n.prefix, 10);
    if s.contains(c) {
        let k = choose|k: int| 0 <= k < s.len() && s[k] == c;
        if k < a.len() {
            assert(a.contains(a[k]));
        } else if k > a.len() {
            assert(text::is_digit(p[k - a.len() - 1], 10));
        }
    }
}

} // verus!
