//! Laws of networks and of the whitelist.
use vstd::prelude::*;

use crate::address::{Address, IpAddr};
use crate::cidr;
use crate::cidr::{Cidr, Network};
use crate::config::Config;
use crate::text;

verus! {

// ---------------------------------------------------------------------------
// Bits
// ---------------------------------------------------------------------------
/// What the bit at place `k` of an octet counts, from the most significant one.
pub open spec fn weight(k: int) -> int {
    if k <= 0 {
        128
    } else if k == 1 {
        64
    } else if k == 2 {
        32
    } else if k == 3 {
        16
    } else if k == 4 {
        8
    } else if k == 5 {
        4
    } else if k == 6 {
        2
    } else {
        1
    }
}

/// Bit `i` of octets, counted from the most significant one.
pub open spec fn bit(o: Seq<u8>, i: int) -> int {
    o[i / 8] as int / weight(i % 8) % 2
}

proof fn lemma_octet_bit(b: u8, k: int)
    requires
        0 <= k < 8,
    ensures
        cidr::octet_bit(b, k) <==> b as int / weight(k) % 2 == 1,
        b as int / weight(k) % 2 == 0 || b as int / weight(k) % 2 == 1,
{
    assert(b & (0x80u8 >> 0u8) != 0 <==> (b / 128) % 2 == 1) by (bit_vector);
    assert(b & (0x80u8 >> 1u8) != 0 <==> (b / 64) % 2 == 1) by (bit_vector);
    assert(b & (0x80u8 >> 2u8) != 0 <==> (b / 32) % 2 == 1) by (bit_vector);
    assert(b & (0x80u8 >> 3u8) != 0 <==> (b / 16) % 2 == 1) by (bit_vector);
    assert(b & (0x80u8 >> 4u8) != 0 <==> (b / 8) % 2 == 1) by (bit_vector);
    assert(b & (0x80u8 >> 5u8) != 0 <==> (b / 4) % 2 == 1) by (bit_vector);
    assert(b & (0x80u8 >> 6u8) != 0 <==> (b / 2) % 2 == 1) by (bit_vector);
    assert(b & (0x80u8 >> 7u8) != 0 <==> (b / 1) % 2 == 1) by (bit_vector);
    assert(k == 0 || k == 1 || k == 2 || k == 3 || k == 4 || k == 5 || k == 6 || k == 7);
}

proof fn lemma_bit(o: Seq<u8>, i: int)
    requires
        0 <= i,
    ensures
        cidr::bit(o, i) <==> bit(o, i) == 1,
        bit(o, i) == 0 || bit(o, i) == 1,
{
    lemma_octet_bit(o[i / 8], i % 8);
}

proof fn lemma_agree(a: Seq<u8>, b: Seq<u8>, prefix: int)
    ensures
        cidr::agree(a, b, prefix) <==> forall|i: int|
            0 <= i < prefix ==> #[trigger] bit(a, i) == bit(b, i),
{
    assert forall|i: int| 0 <= i < prefix implies (cidr::bit(a, i) == cidr::bit(b, i)) == (
    #[trigger] bit(a, i) == bit(b, i)) by {
        lemma_bit(a, i);
        lemma_bit(b, i);
    }
    if cidr::agree(a, b, prefix) {
        assert forall|i: int| 0 <= i < prefix implies #[trigger] bit(a, i) == bit(b, i) by {
            assert(cidr::bit(a, i) == cidr::bit(b, i));
        }
    }
    if forall|i: int| 0 <= i < prefix ==> #[trigger] bit(a, i) == bit(b, i) {
        assert forall|i: int| 0 <= i < prefix implies #[trigger] cidr::bit(a, i) == cidr::bit(
            b,
            i,
        ) by {
            assert(bit(a, i) == bit(b, i));
        }
    }
}

/// Octets agree in their first bits exactly where each of those bits is the
/// same.
pub proof fn prefixes_agree_bit_by_bit(a: &[u8], b: &[u8], prefix: u8, r: bool)
    requires
        a@.len() == b@.len(),
        prefix <= 8 * a@.len(),
        call_ensures(cidr::masked_eq, (a, b, prefix), r),
    ensures
        r <==> forall|i: int| 0 <= i < prefix ==> #[trigger] bit(a@, i) == bit(b@, i),
{
    lemma_agree(a@, b@, prefix as int);
}

// ---------------------------------------------------------------------------
// Networks
// ---------------------------------------------------------------------------
/// The octets of an address.
pub open spec fn octets(a: Address) -> Seq<u8> {
    match a {
        Address::V4(o) => o,
        Address::V6(o) => o,
    }
}

/// Whether two addresses are of one family.
pub open spec fn same_family(a: Address, b: Address) -> bool {
    a is V4 <==> b is V4
}

/// Whether an address is of a network: of the same family, with the network's
/// first bits.
pub open spec fn within(net: Network, ip: Address) -> bool {
    same_family(net.address, ip) && forall|i: int|
        0 <= i < net.prefix ==> #[trigger] bit(octets(net.address), i) == bit(octets(ip), i)
}

/// Whether one address is another with all bits but the first `prefix` cleared.
pub open spec fn cleared(a: Address, prefix: int, r: Address) -> bool {
    &&& same_family(a, r)
    &&& octets(r).len() == octets(a).len()
    &&& forall|i: int|
        0 <= i < 8 * octets(a).len() ==> #[trigger] bit(octets(r), i) == if i < prefix {
            bit(octets(a), i)
        } else {
            0
        }
}

proof fn lemma_cleared(a: Address, prefix: int)
    ensures
        cleared(a, prefix, cidr::network_of(a, prefix)),
{
    let o = octets(a);
    let m = cidr::masked(o, prefix);
    assert(octets(cidr::network_of(a, prefix)) == m);
    assert forall|i: int| 0 <= i < 8 * o.len() implies #[trigger] bit(m, i) == if i < prefix {
        bit(o, i)
    } else {
        0
    } by {
        cidr::masked_bits(o, prefix, i);
        lemma_bit(o, i);
        lemma_bit(m, i);
    }
}

proof fn lemma_same_bits(a: Seq<u8>, b: Seq<u8>)
    requires
        a.len() == b.len(),
        forall|i: int| 0 <= i < 8 * a.len() ==> #[trigger] bit(a, i) == bit(b, i),
    ensures
        a == b,
{
    lemma_agree(a, b, 8 * a.len() as int);
    assert(cidr::masked(a, 8 * a.len() as int) =~= a);
    assert(cidr::masked(b, 8 * b.len() as int) =~= b);
    cidr::agree_masked(a, b, 8 * a.len() as int);
}

/// Bits determine an address.
proof fn lemma_cleared_once(a: Address, prefix: int, x: Address, y: Address)
    requires
        cleared(a, prefix, x),
        cleared(a, prefix, y),
    ensures
        x == y,
{
    assert forall|i: int| 0 <= i < 8 * octets(x).len() implies #[trigger] bit(octets(x), i) == bit(
        octets(y),
        i,
    ) by {
        assert(bit(octets(x), i) == if i < prefix {
            bit(octets(a), i)
        } else {
            0
        });
    }
    lemma_same_bits(octets(x), octets(y));
}

/// The canonical form of an address keeps the first bits and clears the others.
pub proof fn canonical_form_clears_the_host_bits(ip: IpAddr, prefix: u8, r: IpAddr)
    requires
        call_ensures(cidr::canonicalize, (ip, prefix), r),
    ensures
        cleared(ip@, prefix as int, r@),
{
    lemma_cleared(ip@, prefix as int);
}

proof fn lemma_has(net: Network, ip: Address)
    ensures
        net.has(ip) <==> within(net, ip),
{
    lemma_agree(octets(net.address), octets(ip), net.prefix as int);
}

/// A network contains exactly the addresses of its family that have its first
/// bits.
pub proof fn networks_contain_what_has_their_bits(net: &Cidr, ip: IpAddr, r: bool)
    requires
        call_ensures(Cidr::contains, (net, ip), r),
    ensures
        r <==> within(net@, ip@),
{
    lemma_has(net@, ip@);
}

/// A whitelist admits a peer exactly where it is empty or the peer, of either
/// family, is within one of its networks.
pub proof fn peers_are_admitted_by_their_network(config: &Config, ip: IpAddr, r: bool)
    requires
        call_ensures(Config::is_ip_allowed, (config, ip), r),
    ensures
        config.ip_whitelist@.len() == 0 ==> r,
        config.ip_whitelist@.len() > 0 ==> (r <==> exists|i: int|
            0 <= i < config.ip_whitelist@.len() && within(
                (#[trigger] config.ip_whitelist@[i])@,
                ip@,
            )),
{
    let all = crate::config::networks(config.ip_whitelist@);
    assert(forall|i: int|
        0 <= i < config.ip_whitelist@.len() ==> all[i] == (#[trigger] config.ip_whitelist@[i])@);
    if config.ip_whitelist@.len() > 0 {
        if r {
            let i = choose|i: int| 0 <= i < all.len() && (#[trigger] all[i]).has(ip@);
            lemma_has(all[i], ip@);
            assert(within(config.ip_whitelist@[i]@, ip@));
        }
        if exists|i: int|
            0 <= i < config.ip_whitelist@.len() && within(
                (#[trigger] config.ip_whitelist@[i])@,
                ip@,
            ) {
            let i = choose|i: int|
                0 <= i < config.ip_whitelist@.len() && within(
                    (#[trigger] config.ip_whitelist@[i])@,
                    ip@,
                );
            lemma_has(all[i], ip@);
            assert(all[i].has(ip@));
        }
    }
}

/// A whitelist that is not empty admits a peer exactly where, for one of its
/// entries, the peer's address with the host bits cleared is the entry's
/// address.
#[verifier::rlimit(60)]
pub proof fn peers_are_admitted_by_their_canonical_form(config: &Config, ip: IpAddr, r: bool)
    requires
        call_ensures(Config::is_ip_allowed, (config, ip), r),
        config.ip_whitelist@.len() > 0,
        forall|i: int| 0 <= i < config.ip_whitelist@.len() ==> (#[trigger] config.ip_whitelist@[i])@.wf(),
    ensures
        r <==> exists|i: int|
            0 <= i < config.ip_whitelist@.len() && cleared(
                ip@,
                (#[trigger] config.ip_whitelist@[i])@.prefix as int,
                config.ip_whitelist@[i]@.address,
            ),
{
    peers_are_admitted_by_their_network(config, ip, r);
    assert forall|i: int| 0 <= i < config.ip_whitelist@.len() implies within(
        (#[trigger] config.ip_whitelist@[i])@,
        ip@,
    ) == cleared(
        ip@,
        config.ip_whitelist@[i]@.prefix as int,
        config.ip_whitelist@[i]@.address,
    ) by {
        let net = config.ip_whitelist@[i]@;
        let p = net.prefix as int;
        lemma_has(net, ip@);
        cidr::has_is_same_network(net, ip@);
        lemma_cleared(ip@, p);
        if cleared(ip@, p, net.address) {
            lemma_cleared_once(ip@, p, net.address, cidr::network_of(ip@, p));
        }
    }
    if r {
        let i = choose|i: int|
            0 <= i < config.ip_whitelist@.len() && within(
                (#[trigger] config.ip_whitelist@[i])@,
                ip@,
            );
        assert(within(config.ip_whitelist@[i]@, ip@));
    }
    if exists|i: int|
        0 <= i < config.ip_whitelist@.len() && cleared(
            ip@,
            (#[trigger] config.ip_whitelist@[i])@.prefix as int,
            config.ip_whitelist@[i]@.address,
        ) {
        let i = choose|i: int|
            0 <= i < config.ip_whitelist@.len() && cleared(
                ip@,
                (#[trigger] config.ip_whitelist@[i])@.prefix as int,
                config.ip_whitelist@[i]@.address,
            );
        assert(within(config.ip_whitelist@[i]@, ip@));
    }
}

// ---------------------------------------------------------------------------
// Reading and writing networks
// ---------------------------------------------------------------------------
/// How many bits an address of the family has.
pub open spec fn family_bits(a: Address) -> int {
    if a is V4 {
        32
    } else {
        128
    }
}

proof fn lemma_unsplit(s: Seq<char>)
    requires
        !s.contains('/'),
    ensures
        text::split(s, '/') == seq![s],
{
    let parts = seq![s];
    assert(text::join(parts, seq!['/']) == s);
    text::lemma_join_split(parts, '/');
}

proof fn lemma_split_at(x: Seq<char>, y: Seq<char>)
    requires
        !x.contains('/'),
        !y.contains('/'),
    ensures
        text::split(x + seq!['/'] + y, '/') == seq![x, y],
{
    let parts = seq![x, y];
    assert(parts.drop_last() =~= seq![x]);
    assert(text::join(seq![x], seq!['/']) == x);
    text::lemma_join_split(parts, '/');
}

/// An entry that is an address is the network of that one host.
pub proof fn a_bare_address_is_one_host(
    entry: &str,
    ip: Option<IpAddr>,
    r: Result<Cidr, String>,
)
    requires
        !entry@.contains('/'),
        call_ensures(IpAddr::parse, (entry,), ip),
        call_ensures(Cidr::parse, (entry,), r),
    ensures
        r is Ok <==> ip is Some,
        r matches Ok(net) ==> net@.address == ip->0@ && net@.prefix == family_bits(ip->0@),
{
    lemma_unsplit(entry@);
    if let Some(a) = ip {
        let n = family_bits(a@);
        crate::address::parsed_address_wf(entry@);
        assert(cidr::masked(octets(a@), n) =~= octets(a@));
    }
}

/// An entry of an address, a slash and a number is the network of that many bits
/// of the address, where the address and the number are such and the family has
/// as many bits. A plus sign may stand before the number.
#[verifier::rlimit(60)]
pub proof fn an_entry_is_address_and_prefix(
    entry: &str,
    x: &str,
    y: &str,
    digits: &Vec<char>,
    ip: Option<IpAddr>,
    n: Option<u32>,
    r: Result<Cidr, String>,
)
    requires
        entry@ == x@ + seq!['/'] + y@,
        !x@.contains('/'),
        !y@.contains('/'),
        y@ == if y@.len() > 0 && y@[0] == '+' {
            seq!['+'] + digits@
        } else {
            digits@
        },
        call_ensures(IpAddr::parse, (x,), ip),
        call_ensures(text::parse_numeral, (digits, 10, 255), n),
        call_ensures(Cidr::parse, (entry,), r),
    ensures
        r is Ok <==> ip is Some && n is Some && n->0 <= family_bits(ip->0@),
        r matches Ok(net) ==> net@.prefix == n->0 && cleared(
            ip->0@,
            n->0 as int,
            net@.address,
        ),
{
    lemma_entry(x@, y@, digits@);
    if let Ok(net) = r {
        let a = ip->0@;
        let p = n->0 as int;
        assert(net@.address == cidr::network_of(a, p));
        lemma_cleared(a, p);
    }
}

proof fn lemma_entry(x: Seq<char>, y: Seq<char>, digits: Seq<char>)
    requires
        !x.contains('/'),
        !y.contains('/'),
        y == if y.len() > 0 && y[0] == '+' {
            seq!['+'] + digits
        } else {
            digits
        },
    ensures
        cidr::parse_network(x + seq!['/'] + y) == cidr::network(
            crate::address::parse_address(x),
            text::bounded_numeral(digits, 10, 255),
        ),
{
    lemma_split_at(x, y);
    if y.len() > 0 && y[0] == '+' {
        assert(y.skip(1) =~= digits);
    }
}

/// An entry with two slashes or more is no network.
pub proof fn no_entry_has_two_slashes(entry: &str, i: int, j: int, r: Result<Cidr, String>)
    requires
        0 <= i < j < entry@.len(),
        entry@[i] == '/',
        entry@[j] == '/',
        call_ensures(Cidr::parse, (entry,), r),
    ensures
        r is Err,
{
    lemma_count(entry@, i, j);
}

proof fn lemma_count(s: Seq<char>, i: int, j: int)
    requires
        0 <= i < j < s.len(),
        s[i] == '/',
        s[j] == '/',
    ensures
        text::split(s, '/').len() >= 3,
    decreases s.len(),
{
    let t = s.drop_last();
    text::lemma_split_len(t, '/');
    if j < t.len() {
        lemma_count(t, i, j);
    } else {
        lemma_count_one(t, i);
    }
}

proof fn lemma_count_one(s: Seq<char>, i: int)
    requires
        0 <= i < s.len(),
        s[i] == '/',
    ensures
        text::split(s, '/').len() >= 2,
    decreases s.len(),
{
    let t = s.drop_last();
    text::lemma_split_len(t, '/');
    if i < t.len() {
        lemma_count_one(t, i);
    }
}

/// An entry is a network exactly where it writes one; what is said of another
/// names the entry.
pub proof fn a_wrong_entry_is_named(entry: &str, r: Result<Cidr, String>)
    requires
        call_ensures(Cidr::parse, (entry,), r),
    ensures
        r is Err <==> cidr::parse_network(entry@) is None,
        r matches Ok(net) ==> cidr::parse_network(entry@) == Some(net@),
        r matches Err(message) ==> message@ == "Invalid ip_whitelist entry: "@ + entry@,
{
}

/// A network is written as its address, a slash and its prefix in decimal.
pub proof fn a_network_is_written_as_address_and_prefix(
    net: &Cidr,
    address: &IpAddr,
    a: String,
    s: String,
)
    requires
        net@.address == address@,
        call_ensures(IpAddr::to_string, (address,), a),
        call_ensures(Cidr::to_string, (net,), s),
    ensures
        s@ == a@ + seq!['/'] + text::decimal(net@.prefix),
{
}

/// A network that is written is read back as the same network.
pub proof fn networks_are_read_back(net: &Cidr, s: String, entry: &str, r: Result<Cidr, String>)
    requires
        net@.wf(),
        entry@ == s@,
        call_ensures(Cidr::to_string, (net,), s),
        call_ensures(Cidr::parse, (entry,), r),
    ensures
        r matches Ok(again) && again@ == net@,
{
    cidr::network_roundtrip(net@);
}

} // verus!
