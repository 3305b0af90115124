//! Laws of reading and writing addresses.
use vstd::prelude::*;

use crate::address;
use crate::address::{Address, IpAddr, SocketAddr};
use crate::laws;
use crate::text;

verus! {

// ---------------------------------------------------------------------------
// IPv4
// ---------------------------------------------------------------------------
/// Four octets in decimal, with dots between them.
pub open spec fn dotted(o: Seq<u8>) -> Seq<char> {
    text::decimal(o[0] as nat) + seq!['.'] + text::decimal(o[1] as nat) + seq!['.'] + text::decimal(
        o[2] as nat,
    ) + seq!['.'] + text::decimal(o[3] as nat)
}

proof fn lemma_dotted(o: Seq<u8>)
    requires
        o.len() == 4,
    ensures
        address::format_v4(o) == dotted(o),
{
    let parts = Seq::new(4, |i: int| text::decimal(o[i] as nat));
    reveal_with_fuel(text::join, 4);
    assert(parts.drop_last().drop_last().drop_last() =~= seq![parts[0]]);
    assert(parts.drop_last().drop_last().last() == parts[1]);
    assert(parts.drop_last().last() == parts[2]);
}

/// A decimal numeral without a needless zero in front is the one that is
/// written for its value.
proof fn lemma_canonical(s: Seq<char>)
    requires
        text::is_numeral(s, 10),
        s.len() > 1 ==> s[0] != '0',
    ensures
        text::decimal(text::numeral_value(s, 10)) == s,
        s[0] != '0' ==> text::numeral_value(s, 10) > 0,
    decreases s.len(),
{
    let t = s.drop_last();
    let c = s.last();
    assert(text::is_digit(s[s.len() - 1], 10));
    let d = text::hex_value(c)->0;
    reveal_strlit("0123456789abcdef");
    assert(text::hex_digit(d) == c);
    if s.len() == 1 {
        assert(text::numeral_value(t, 10) == 0);
        assert(text::decimal(d) =~= s);
    } else {
        assert forall|i: int| 0 <= i < t.len() implies #[trigger] text::is_digit(t[i], 10) by {
            assert(text::is_digit(s[i], 10));
        }
        assert(t[0] == s[0]);
        lemma_canonical(t);
        let n = text::numeral_value(s, 10);
        assert(n == text::numeral_value(t, 10) * 10 + d);
        assert(n / 10 == text::numeral_value(t, 10) && n % 10 == d);
        assert(text::decimal(n) =~= t.push(c));
        assert(t.push(c) =~= s);
    }
}

proof fn lemma_v4(s: Seq<char>, o: Seq<u8>)
    requires
        o.len() == 4,
    ensures
        address::parse_v4(s) == Some(o) <==> s == dotted(o),
{
    lemma_dotted(o);
    if address::parse_v4(s) == Some(o) {
        let parts = text::split(s, '.');
        let written = Seq::new(4, |i: int| text::decimal(o[i] as nat));
        text::lemma_split_join(s, '.');
        assert forall|i: int| 0 <= i < 4 implies parts[i] == written[i] by {
            assert(address::octet(parts[i]) is Some);
            lemma_canonical(parts[i]);
            assert(o[i] == address::octet(parts[i])->0 as u8);
        }
        assert(parts =~= written);
    }
    if s == dotted(o) {
        address::address_roundtrip(Address::V4(o));
    }
}

// ---------------------------------------------------------------------------
// IPv6
// ---------------------------------------------------------------------------
/// Whether a text is a group: one to four hexadecimal digits of either case.
pub open spec fn is_group(t: Seq<char>) -> bool {
    &&& 1 <= t.len() <= 4
    &&& forall|i: int| 0 <= i < t.len() ==> laws::text::digit(#[trigger] t[i], 16) is Some
}

/// The values of groups.
pub open spec fn values(parts: Seq<Seq<char>>) -> Seq<nat> {
    parts.map_values(|t: Seq<char>| text::numeral_value(t, 16))
}

/// The two groups of four octets.
pub open spec fn two_groups(o: Seq<u8>) -> Seq<nat> {
    seq![(o[0] as nat) * 256 + o[1] as nat, (o[2] as nat) * 256 + o[3] as nat]
}

/// Whether all the texts are groups.
pub open spec fn all_groups(parts: Seq<Seq<char>>) -> bool {
    forall|i: int| 0 <= i < parts.len() ==> is_group(#[trigger] parts[i])
}

/// Whether a text lists the groups with colons between them. An empty text lists
/// none. Where that is allowed, the last two groups may be in dotted form.
pub open spec fn lists(s: Seq<char>, g: Seq<nat>, may_dot: bool) -> bool {
    ||| s.len() == 0 && g.len() == 0
    ||| exists|parts: Seq<Seq<char>>|
        {
            &&& parts.len() > 0
            &&& #[trigger] all_groups(parts)
            &&& s == text::join(parts, seq![':'])
            &&& g == values(parts)
        }
    ||| may_dot && exists|parts: Seq<Seq<char>>, o: Seq<u8>|
        {
            &&& o.len() == 4
            &&& #[trigger] all_groups(parts)
            &&& s == text::join(parts.push(#[trigger] dotted(o)), seq![':'])
            &&& g == values(parts) + two_groups(o)
        }
}

/// Whether a text writes the eight groups of an IPv6 address: it lists them all,
/// or it lists those before and behind a `::` that stands for one zero group at
/// least.
pub open spec fn writes(s: Seq<char>, g: Seq<nat>) -> bool {
    ||| g.len() == 8 && s.len() > 0 && lists(s, g, true)
    ||| exists|a: Seq<char>, b: Seq<char>, head: Seq<nat>, tail: Seq<nat>|
        {
            &&& #[trigger] lists(a, head, false)
            &&& #[trigger] lists(b, tail, true)
            &&& head.len() + tail.len() < 8
            &&& s == a + seq![':', ':'] + b
            &&& g == head + Seq::new((8 - head.len() - tail.len()) as nat, |i: int| 0nat) + tail
        }
}

proof fn lemma_group(t: Seq<char>)
    ensures
        is_group(t) <==> address::group(t) is Some,
        is_group(t) ==> address::group(t) == Some(text::numeral_value(t, 16)),
        is_group(t) ==> t.len() > 0 && !t.contains(':') && !t.contains('.'),
{
    assert forall|i: int| 0 <= i < t.len() implies (laws::text::digit(#[trigger] t[i], 16) is Some)
        == text::is_digit(t[i], 16) by {
    }
    if is_group(t) {
        assert forall|i: int| 0 <= i < t.len() implies #[trigger] text::is_digit(t[i], 16)
            && t[i] != ':' && t[i] != '.' by {
            assert(laws::text::digit(t[i], 16) is Some);
        }
        lemma_value_bound(t);
    }
    if address::group(t) is Some {
        assert forall|i: int| 0 <= i < t.len() implies laws::text::digit(
            #[trigger] t[i],
            16,
        ) is Some by {
            assert(text::is_digit(t[i], 16));
        }
    }
}

proof fn lemma_value_bound(t: Seq<char>)
    requires
        t.len() <= 4,
        forall|i: int| 0 <= i < t.len() ==> #[trigger] text::is_digit(t[i], 16),
    ensures
        t.len() == 0 ==> text::numeral_value(t, 16) == 0,
        t.len() == 1 ==> text::numeral_value(t, 16) < 0x10,
        t.len() == 2 ==> text::numeral_value(t, 16) < 0x100,
        t.len() == 3 ==> text::numeral_value(t, 16) < 0x1000,
        text::numeral_value(t, 16) <= 0xffff,
    decreases t.len(),
{
    if t.len() > 0 {
        let u = t.drop_last();
        assert forall|i: int| 0 <= i < u.len() implies #[trigger] text::is_digit(u[i], 16) by {
            assert(text::is_digit(t[i], 16));
        }
        assert(text::is_digit(t[t.len() - 1], 16));
        lemma_value_bound(u);
    }
}

proof fn lemma_dotted_text(o: Seq<u8>)
    requires
        o.len() == 4,
    ensures
        dotted(o).contains('.'),
        !dotted(o).contains(':'),
        dotted(o).len() > 0,
        address::group(dotted(o)) is None,
        address::parse_v4(dotted(o)) == Some(o),
{
    lemma_v4(dotted(o), o);
    address::lemma_v4_chars(dotted(o), ':');
    let k = text::decimal(o[0] as nat).len() as int;
    assert(dotted(o)[k] == '.');
    lemma_group(dotted(o));
}

/// What lists groups is read as those groups.
#[verifier::rlimit(60)]
proof fn lemma_lists_read(s: Seq<char>, g: Seq<nat>, may_dot: bool)
    requires
        lists(s, g, may_dot),
    ensures
        address::groups(s, may_dot) == Some(g),
        forall|k: int| !(#[trigger] address::gap_at(s, k)),
        s.len() > 0 ==> s[0] != ':' && s.last() != ':',
        g.len() == 0 ==> s.len() == 0,
        g.len() > 2 ==> s.contains(':'),
{
    if s.len() == 0 && g.len() == 0 {
        assert(g =~= Seq::<nat>::empty());
    } else if exists|parts: Seq<Seq<char>>|
        {
            &&& parts.len() > 0
            &&& #[trigger] all_groups(parts)
            &&& s == text::join(parts, seq![':'])
            &&& g == values(parts)
        } {
        let parts = choose|parts: Seq<Seq<char>>|
            {
                &&& parts.len() > 0
                &&& #[trigger] all_groups(parts)
                &&& s == text::join(parts, seq![':'])
                &&& g == values(parts)
            };
        assert forall|i: int| 0 <= i < parts.len() implies (#[trigger] parts[i]).len() > 0
            && !parts[i].contains(':') && address::group(parts[i]) == Some(g[i]) by {
            assert(is_group(parts[i]));
            lemma_group(parts[i]);
        }
        address::lemma_join_no_gap(parts);
        text::lemma_join_split(parts, ':');
        assert(address::group(parts[parts.len() - 1]) is Some);
        assert(address::groups(s, may_dot)->0 =~= g);
        if parts.len() > 1 {
            lemma_join_has_colon(parts);
        }
    } else {
        let (parts, o) = choose|parts: Seq<Seq<char>>, o: Seq<u8>|
            {
                &&& o.len() == 4
                &&& #[trigger] all_groups(parts)
                &&& s == text::join(parts.push(#[trigger] dotted(o)), seq![':'])
                &&& g == values(parts) + two_groups(o)
            };
        let all = parts.push(dotted(o));
        lemma_dotted_text(o);
        assert forall|i: int| 0 <= i < all.len() implies (#[trigger] all[i]).len() > 0
            && !all[i].contains(':') && (i < parts.len() ==> address::group(all[i]) == Some(g[i])) by {
            if i < parts.len() {
                assert(is_group(parts[i]));
                lemma_group(parts[i]);
            }
        }
        address::lemma_join_no_gap(all);
        text::lemma_join_split(all, ':');
        assert(all.last() == dotted(o));
        assert(address::groups(s, may_dot)->0 =~= g);
        if all.len() > 1 {
            lemma_join_has_colon(all);
        }
    }
}

proof fn lemma_join_has_colon(parts: Seq<Seq<char>>)
    requires
        parts.len() > 1,
    ensures
        text::join(parts, seq![':']).contains(':'),
{
    let front = text::join(parts.drop_last(), seq![':']);
    let s = text::join(parts, seq![':']);
    assert(s =~= front + seq![':'] + parts.last());
    assert(s[front.len() as int] == ':');
}

/// What is read as groups lists them.
#[verifier::rlimit(60)]
proof fn lemma_read_lists(s: Seq<char>, may_dot: bool)
    requires
        address::groups(s, may_dot) is Some,
    ensures
        lists(s, address::groups(s, may_dot)->0, may_dot),
{
    let g = address::groups(s, may_dot)->0;
    if s.len() > 0 {
        let parts = text::split(s, ':');
        text::lemma_split_join(s, ':');
        text::lemma_split_len(s, ':');
        let front = parts.drop_last();
        assert forall|i: int| 0 <= i < front.len() implies is_group(#[trigger] front[i]) by {
            assert(address::group(parts[i]) is Some);
            lemma_group(parts[i]);
        }
        assert(all_groups(front));
        assert forall|i: int| 0 <= i < front.len() implies #[trigger] values(front)[i] == g[i] by {
            assert(address::group(parts[i]) is Some);
            lemma_group(parts[i]);
        }
        let last = parts.last();
        lemma_group(last);
        if address::group(last) is Some {
            assert forall|i: int| 0 <= i < parts.len() implies is_group(#[trigger] parts[i]) by {
                if i < front.len() {
                    assert(is_group(front[i]));
                }
            }
            assert(all_groups(parts));
            assert forall|i: int| 0 <= i < parts.len() implies values(parts)[i] == #[trigger] g[i] by {
                if i < front.len() {
                    assert(values(front)[i] == g[i]);
                }
            }
            assert(values(parts) =~= g);
        } else {
            let o = address::parse_v4(last)->0;
            lemma_v4(last, o);
            assert(front.push(dotted(o)) =~= parts);
            assert(g =~= values(front) + two_groups(o));
        }
    }
}

proof fn lemma_gap_first(s: Seq<char>, k: int)
    requires
        0 <= k,
    ensures
        address::find_gap(s, k) matches Some(m) ==> k <= m && address::gap_at(s, m) && forall|j: int|
            k <= j < m ==> !(#[trigger] address::gap_at(s, j)),
        address::find_gap(s, k) is None ==> forall|j: int|
            k <= j ==> !(#[trigger] address::gap_at(s, j)),
    decreases s.len() - k,
{
    if k + 1 < s.len() && !(s[k] == ':' && s[k + 1] == ':') {
        lemma_gap_first(s, k + 1);
    }
}

#[verifier::rlimit(60)]
proof fn lemma_v6_read(s: Seq<char>, g: Seq<nat>)
    requires
        address::parse_v6(s) == Some(g),
    ensures
        writes(s, g),
{
    lemma_gap_first(s, 0);
    match address::find_gap(s, 0) {
        None => {
            lemma_read_lists(s, true);
            lemma_lists_read(s, g, true);
        },
        Some(k) => {
            let a = s.take(k);
            let b = s.skip(k + 2);
            lemma_read_lists(a, false);
            lemma_read_lists(b, true);
            let head = address::groups(a, false)->0;
            let tail = address::groups(b, true)->0;
            assert(s =~= a + seq![':', ':'] + b);
            assert(g =~= head + Seq::new(
                (8 - head.len() - tail.len()) as nat,
                |i: int| 0nat,
            ) + tail);
            assert(lists(a, head, false) && lists(b, tail, true));
        },
    }
}

#[verifier::rlimit(60)]
proof fn lemma_v6_gap(
    s: Seq<char>,
    a: Seq<char>,
    b: Seq<char>,
    head: Seq<nat>,
    tail: Seq<nat>,
)
    requires
        lists(a, head, false),
        lists(b, tail, true),
        head.len() + tail.len() < 8,
        s == a + seq![':', ':'] + b,
    ensures
        address::parse_v6(s) == Some(
            head + Seq::new((8 - head.len() - tail.len()) as nat, |i: int| 0nat) + tail,
        ),
        s.contains(':'),
{
    lemma_lists_read(a, head, false);
    lemma_lists_read(b, tail, true);
    let k = a.len() as int;
    assert(s[k] == ':' && s[k + 1] == ':');
    assert(address::gap_at(s, k));
    assert forall|j: int| 0 <= j < k implies !(#[trigger] address::gap_at(s, j)) by {
        assert(!address::gap_at(a, j));
        if address::gap_at(s, j) && j == k - 1 {
            assert(a.last() == ':');
        }
    }
    address::lemma_find_gap(s, 0, k);
    assert(s.take(k) =~= a);
    assert(s.skip(k + 2) =~= b);
    let n = (8 - head.len() - tail.len()) as nat;
    assert(address::zero_groups(n) =~= Seq::new(n, |i: int| 0nat));
}

#[verifier::rlimit(60)]
proof fn lemma_v6_written(s: Seq<char>, g: Seq<nat>)
    requires
        writes(s, g),
    ensures
        address::parse_v6(s) == Some(g),
        s.contains(':'),
        g.len() == 8,
{
    if g.len() == 8 && s.len() > 0 && lists(s, g, true) {
        lemma_lists_read(s, g, true);
        address::lemma_find_no_gap(s, 0);
    } else {
        let (a, b, head, tail) = choose|a: Seq<char>, b: Seq<char>, head: Seq<nat>, tail: Seq<nat>|
            {
                &&& #[trigger] lists(a, head, false)
                &&& #[trigger] lists(b, tail, true)
                &&& head.len() + tail.len() < 8
                &&& s == a + seq![':', ':'] + b
                &&& g == head + Seq::new((8 - head.len() - tail.len()) as nat, |i: int| 0nat) + tail
            };
        lemma_v6_gap(s, a, b, head, tail);
    }
}

proof fn lemma_v6(s: Seq<char>, g: Seq<nat>)
    ensures
        address::parse_v6(s) == Some(g) <==> writes(s, g),
        writes(s, g) ==> s.contains(':') && g.len() == 8,
{
    if address::parse_v6(s) == Some(g) {
        lemma_v6_read(s, g);
    }
    if writes(s, g) {
        lemma_v6_written(s, g);
    }
}

/// The groups of sixteen octets.
pub open spec fn eight_groups(o: Seq<u8>) -> Seq<nat> {
    Seq::new(8, |i: int| (o[2 * i] as nat) * 256 + o[2 * i + 1] as nat)
}

#[verifier::rlimit(60)]
proof fn lemma_group_values(s: Seq<char>, g: Seq<nat>)
    requires
        address::parse_v6(s) == Some(g),
    ensures
        eight_groups(address::group_octets(g)) == g,
{
    lemma_v6(s, g);
    assert forall|i: int| 0 <= i < 8 implies #[trigger] g[i] <= 0xffff by {
        lemma_v6_bounded(s, g, i);
    }
    let o = address::group_octets(g);
    assert forall|i: int| 0 <= i < 8 implies #[trigger] eight_groups(o)[i] == g[i] by {
        assert(g[i] <= 0xffff);
        assert((2 * i) / 2 == i && (2 * i + 1) / 2 == i);
        assert(o[2 * i] == (g[i] / 256) as u8);
        assert(o[2 * i + 1] == (g[i] % 256) as u8);
    }
    assert(eight_groups(o) =~= g);
}

proof fn lemma_lists_bounded(s: Seq<char>, g: Seq<nat>, may_dot: bool, i: int)
    requires
        lists(s, g, may_dot),
        0 <= i < g.len(),
    ensures
        g[i] <= 0xffff,
{
    if exists|parts: Seq<Seq<char>>|
        {
            &&& parts.len() > 0
            &&& #[trigger] all_groups(parts)
            &&& s == text::join(parts, seq![':'])
            &&& g == values(parts)
        } {
        let parts = choose|parts: Seq<Seq<char>>|
            {
                &&& parts.len() > 0
                &&& #[trigger] all_groups(parts)
                &&& s == text::join(parts, seq![':'])
                &&& g == values(parts)
            };
        assert(is_group(parts[i]));
        lemma_group(parts[i]);
    } else {
        let (parts, o) = choose|parts: Seq<Seq<char>>, o: Seq<u8>|
            {
                &&& o.len() == 4
                &&& #[trigger] all_groups(parts)
                &&& s == text::join(parts.push(#[trigger] dotted(o)), seq![':'])
                &&& g == values(parts) + two_groups(o)
            };
        if i < parts.len() {
            assert(is_group(parts[i]));
            lemma_group(parts[i]);
        }
    }
}

proof fn lemma_v6_bounded(s: Seq<char>, g: Seq<nat>, i: int)
    requires
        writes(s, g),
        g.len() == 8,
        0 <= i < 8,
    ensures
        g[i] <= 0xffff,
{
    if s.len() > 0 && lists(s, g, true) {
        lemma_lists_bounded(s, g, true, i);
    } else {
        let (a, b, head, tail) = choose|a: Seq<char>, b: Seq<char>, head: Seq<nat>, tail: Seq<nat>|
            {
                &&& #[trigger] lists(a, head, false)
                &&& #[trigger] lists(b, tail, true)
                &&& head.len() + tail.len() < 8
                &&& s == a + seq![':', ':'] + b
                &&& g == head + Seq::new((8 - head.len() - tail.len()) as nat, |i: int| 0nat) + tail
            };
        if i < head.len() {
            lemma_lists_bounded(a, head, false, i);
        } else if i >= 8 - tail.len() {
            lemma_lists_bounded(b, tail, true, i - (8 - tail.len()));
        }
    }
}

// ---------------------------------------------------------------------------
// Reading
// ---------------------------------------------------------------------------
/// An address is seen by its family and its octets, a socket address by its
/// parts.
pub proof fn addresses_are_seen_as_they_are(
    ip: &IpAddr,
    is_v4: bool,
    four: [u8; 4],
    sixteen: [u8; 16],
    addr: SocketAddr,
)
    requires
        call_ensures(IpAddr::is_ipv4, (ip,), is_v4),
    ensures
        is_v4 <==> ip is V4,
        IpAddr::V4(four)@ == Address::V4(four@),
        IpAddr::V6(sixteen)@ == Address::V6(sixteen@),
        addr@.ip == addr.ip@,
        addr@.port == addr.port,
        addr@.flowinfo == addr.flowinfo,
        addr@.scope_id == addr.scope_id,
{
}

/// A text is read as an IPv4 address exactly where it is the dotted form of the
/// address's octets.
pub proof fn v4_is_its_dotted_form(s: &str, r: Option<IpAddr>, o: [u8; 4])
    requires
        call_ensures(IpAddr::parse, (s,), r),
    ensures
        r matches Some(ip) ==> (ip@ == Address::V4(o@) <==> s@ == dotted(o@)),
        r is None ==> s@ != dotted(o@),
{
    lemma_v4(s@, o@);
}

/// A text is read as an IPv6 address exactly where it writes the address's
/// eight groups, in full or with a `::`.
#[verifier::rlimit(60)]
pub proof fn v6_is_its_groups(s: &str, r: Option<IpAddr>, o: [u8; 16])
    requires
        call_ensures(IpAddr::parse, (s,), r),
    ensures
        r matches Some(ip) ==> (ip@ == Address::V6(o@) <==> writes(s@, eight_groups(o@))),
        r is None ==> !writes(s@, eight_groups(o@)),
{
    let g = eight_groups(o@);
    lemma_v6(s@, g);
    address::lemma_octets_groups(o@);
    assert(address::octets_groups(o@) =~= g);
    if address::parse_v4(s@) is Some {
        address::lemma_v4_chars(s@, ':');
    }
    if address::parse_v6(s@) is Some {
        let h = address::parse_v6(s@)->0;
        lemma_group_values(s@, h);
        if address::group_octets(h) == o@ {
            assert(h == g);
        }
    }
}

/// Reading characters is reading the text that they make.
pub proof fn characters_are_read_as_text(
    chars: &Vec<char>,
    s: &str,
    a: Option<IpAddr>,
    b: Option<IpAddr>,
)
    requires
        chars@ == s@,
        call_ensures(IpAddr::parse_chars, (chars,), a),
        call_ensures(IpAddr::parse, (s,), b),
    ensures
        a is Some <==> b is Some,
        a is Some ==> a->0@ == b->0@,
{
}

// ---------------------------------------------------------------------------
// Writing
// ---------------------------------------------------------------------------
/// Groups in lower-case hexadecimal without needless zeros, with colons between
/// them.
pub open spec fn in_hexadecimal(g: Seq<nat>) -> Seq<char> {
    text::join(g.map_values(|n: nat| text::numeral(n, 16)), seq![':'])
}

/// Whether the `n` groups from place `i` on are all zero.
pub open spec fn zeros(g: Seq<nat>, i: int, n: int) -> bool {
    0 <= i && 0 <= n && i + n <= g.len() && forall|j: int| i <= j < i + n ==> #[trigger] g[j] == 0
}

proof fn lemma_run(g: Seq<nat>, i: int, n: int)
    requires
        zeros(g, i, n),
    ensures
        address::zero_run(g, i) >= n,
    decreases n,
{
    if n > 0 {
        assert(g[i] == 0);
        assert forall|j: int| i + 1 <= j < i + n implies #[trigger] g[j] == 0 by {
        }
        lemma_run(g, i + 1, n - 1);
    }
}

proof fn lemma_run_zeros(g: Seq<nat>, i: int)
    requires
        0 <= i <= g.len(),
    ensures
        zeros(g, i, address::zero_run(g, i) as int),
    decreases g.len() - i,
{
    if i < g.len() && g[i] == 0 {
        lemma_run_zeros(g, i + 1);
    }
}

proof fn lemma_longest(g: Seq<nat>, n: nat)
    requires
        n <= g.len(),
    ensures
        ({
            let best = address::longest_zero_run(g, n);
            &&& zeros(g, best.0, best.1 as int)
            &&& best.1 > 0 ==> best.0 < n
            &&& forall|i: int|
                0 <= i < n ==> #[trigger] address::zero_run(g, i) <= best.1 && (address::zero_run(
                    g,
                    i,
                ) == best.1 && best.1 > 0 ==> best.0 <= i)
        }),
    decreases n,
{
    if n > 0 {
        lemma_longest(g, (n - 1) as nat);
        lemma_run_zeros(g, n - 1);
    }
}

/// An IPv4 address is written in dotted form. An IPv6 address that an IPv4 one
/// is mapped to is written with it in dotted form. Of another one the groups are
/// written in hexadecimal; where two or more zero groups stand side by side, a
/// `::` stands for the longest run of them, the first of those as long.
#[verifier::rlimit(60)]
pub proof fn addresses_are_written_in_their_shortest_form(ip: &IpAddr, s: String)
    requires
        call_ensures(IpAddr::to_string, (ip,), s),
    ensures
        ip@ matches Address::V4(o) ==> s@ == dotted(o),
        ip@ matches Address::V6(o) ==> {
            let g = eight_groups(o);
            if zeros(g, 0, 5) && g[5] == 0xffff {
                s@ == seq![':', ':', 'f', 'f', 'f', 'f', ':'] + dotted(o.skip(12))
            } else if exists|i: int| #[trigger] zeros(g, i, 2) {
                exists|i: int, n: int|
                    {
                        &&& n >= 2
                        &&& #[trigger] zeros(g, i, n)
                        &&& forall|j: int, m: int|
                            #[trigger] zeros(g, j, m) ==> m <= n && (m == n ==> i <= j)
                        &&& s@ == in_hexadecimal(g.take(i)) + seq![':', ':'] + in_hexadecimal(
                            g.skip(i + n),
                        )
                    }
            } else {
                s@ == in_hexadecimal(g)
            }
        },
{
    match ip {
        IpAddr::V4(o) => {
            lemma_dotted(o@);
        },
        IpAddr::V6(octets) => {
            let o = octets@;
            let g = eight_groups(o);
            reveal_strlit("::ffff:");
            reveal_strlit("::");
            assert(address::octets_groups(o) =~= g);
            lemma_dotted(o.skip(12));
            let best = address::longest_zero_run(g, 8);
            lemma_longest(g, 8);
            if zeros(g, 0, 5) && g[5] == 0xffff {
                assert forall|i: int| 0 <= i < 10 implies #[trigger] o[i] == 0 by {
                    assert(g[i / 2] == 0);
                    assert(i == 2 * (i / 2) || i == 2 * (i / 2) + 1);
                }
                assert(address::is_mapped_v4(o));
                assert("::ffff:"@ =~= seq![':', ':', 'f', 'f', 'f', 'f', ':']);
            } else {
                if address::is_mapped_v4(o) {
                    assert forall|j: int| 0 <= j < 5 implies #[trigger] g[j] == 0 by {
                        assert(o[2 * j] == 0 && o[2 * j + 1] == 0);
                    }
                    assert(zeros(g, 0, 5));
                }
                assert("::"@ =~= seq![':', ':']);
                assert forall|j: int, m: int| #[trigger] zeros(g, j, m) implies m <= best.1 && (m
                    == best.1 && best.1 > 0 ==> best.0 <= j) by {
                    lemma_run(g, j, m);
                    if j < 8 {
                        assert(address::zero_run(g, j) <= best.1);
                    }
                }
                if best.1 >= 2 {
                    assert forall|j: int| best.0 <= j < best.0 + 2 implies #[trigger] g[j] == 0 by {
                    }
                    assert(zeros(g, best.0, 2));
                    assert(zeros(g, best.0, best.1 as int));
                } else if exists|i: int| #[trigger] zeros(g, i, 2) {
                    let i = choose|i: int| #[trigger] zeros(g, i, 2);
                    assert(2 <= best.1);
                }
            }
        },
    }
}

/// A socket address is written as its address and its port in decimal; an IPv6
/// address stands in brackets, with its scope where that is not zero.
pub proof fn sockets_are_written_with_their_port(addr: &SocketAddr, ip: String, s: String)
    requires
        call_ensures(SocketAddr::to_string, (addr,), s),
        call_ensures(IpAddr::to_string, (&addr.ip,), ip),
    ensures
        ({
            let port = text::decimal(addr.port as nat);
            let scope = text::decimal(addr.scope_id as nat);
            s@ == match addr.ip {
                IpAddr::V4(_) => ip@ + seq![':'] + port,
                IpAddr::V6(_) => if addr.scope_id == 0 {
                    seq!['['] + ip@ + seq![']', ':'] + port
                } else {
                    seq!['['] + ip@ + seq!['%'] + scope + seq![']', ':'] + port
                },
            }
        }),
{
    reveal_strlit(":");
    reveal_strlit("[");
    reveal_strlit("]:");
    reveal_strlit("%");
    assert(":"@ =~= seq![':']);
    assert("["@ =~= seq!['[']);
    assert("]:"@ =~= seq![']', ':']);
    assert("%"@ =~= seq!['%']);
}

/// A socket address of an address and a port is just that.
pub proof fn new_sockets_have_no_scope(ip: IpAddr, port: u16, addr: SocketAddr)
    requires
        call_ensures(SocketAddr::new, (ip, port), addr),
    ensures
        addr.ip@ == ip@,
        addr.port == port,
        addr.flowinfo == 0,
        addr.scope_id == 0,
{
}

} // verus!
