//! IP addresses and their text forms.
use vstd::prelude::*;

use crate::text;

verus! {

/// An IPv4 or IPv6 address by its octets, the most significant first.
#[derive(Debug, Clone, Copy, PartialEq, Eq)]
pub enum IpAddr {
    V4([u8; 4]),
    V6([u8; 16]),
}

/// An address with its octets as a sequence.
pub enum Address {
    V4(Seq<u8>),
    V6(Seq<u8>),
}

impl View for IpAddr {
    type V = Address;

    open spec fn view(&self) -> Address {
        match self {
            IpAddr::V4(o) => Address::V4(o@),
            IpAddr::V6(o) => Address::V6(o@),
        }
    }
}

impl Address {
    /// Four octets of IPv4 or sixteen of IPv6.
    pub open spec fn wf(self) -> bool {
        match self {
            Address::V4(o) => o.len() == 4,
            Address::V6(o) => o.len() == 16,
        }
    }

    pub open spec fn octets(self) -> Seq<u8> {
        match self {
            Address::V4(o) => o,
            Address::V6(o) => o,
        }
    }
}

/// Where a server listens: an address and a port. The flow information and the
/// scope belong to IPv6 addresses; each is zero where there is none.
#[derive(Debug, Clone, Copy, PartialEq, Eq)]
pub struct SocketAddr {
    pub ip: IpAddr,
    pub port: u16,
    pub flowinfo: u32,
    pub scope_id: u32,
}

/// A socket address with its octets as a sequence.
pub struct SocketView {
    pub ip: Address,
    pub port: u16,
    pub flowinfo: u32,
    pub scope_id: u32,
}

impl View for SocketAddr {
    type V = SocketView;

    open spec fn view(&self) -> SocketView {
        SocketView {
            ip: self.ip@,
            port: self.port,
            flowinfo: self.flowinfo,
            scope_id: self.scope_id,
        }
    }
}

/// The socket address of an address and a port alone.
pub open spec fn plain_socket(ip: Address, port: u16) -> SocketView {
    SocketView { ip, port, flowinfo: 0, scope_id: 0 }
}

// ---------------------------------------------------------------------------
// IPv4 text
// ---------------------------------------------------------------------------
/// One number of a dotted address: up to three digits, no needless zero in
/// front, 255 at most.
pub open spec fn octet(s: Seq<char>) -> Option<nat> {
    if s.len() <= 3 && (s.len() > 1 ==> s[0] != '0') {
        text::bounded_numeral(s, 10, 255)
    } else {
        None
    }
}

/// The octets of an IPv4 address in dotted form.
pub open spec fn parse_v4(s: Seq<char>) -> Option<Seq<u8>> {
    let parts = text::split(s, '.');
    if parts.len() == 4 && (forall|i: int| 0 <= i < 4 ==> octet(#[trigger] parts[i]) is Some) {
        Some(Seq::new(4, |i: int| octet(parts[i])->0 as u8))
    } else {
        None
    }
}

/// The dotted form of four octets.
pub open spec fn format_v4(o: Seq<u8>) -> Seq<char> {
    text::join(Seq::new(4, |i: int| text::decimal(o[i] as nat)), seq!['.'])
}

fn parse_octet(part: &Vec<char>) -> (r: Option<u8>)
    ensures
        r is Some <==> octet(part@) is Some,
        r is Some ==> r->0 as nat == octet(part@)->0,
{
    if part.len() > 3 || (part.len() > 1 && part[0] == '0') {
        None
    } else {
        match text::parse_numeral(part, 10, 255) {
            Some(v) => Some(v as u8),
            None => None,
        }
    }
}

fn read_v4(chars: &Vec<char>) -> (r: Option<[u8; 4]>)
    ensures
        r is Some <==> parse_v4(chars@) is Some,
        r is Some ==> r->0@ == parse_v4(chars@)->0,
{
    let parts: Vec<Vec<char>> = text::split_chars(chars, '.');
    let ghost spec_parts = text::split(chars@, '.');
    proof {
        assert(forall|i: int| 0 <= i < parts.len() ==> spec_parts[i] == #[trigger] parts@[i]@);
    }
    if parts.len() != 4 {
        return None;
    }
    let mut out: [u8; 4] = [0, 0, 0, 0];
    let mut i: usize = 0;
    while i < 4
        invariant
            i <= 4,
            parts.len() == 4,
            spec_parts == text::split(chars@, '.'),
            spec_parts.len() == 4,
            forall|j: int| 0 <= j < 4 ==> spec_parts[j] == #[trigger] parts@[j]@,
            forall|j: int| 0 <= j < i ==> octet(#[trigger] spec_parts[j]) is Some,
            forall|j: int| 0 <= j < i ==> out@[j] as nat == octet(#[trigger] spec_parts[j])->0,
        decreases 4 - i,
    {
        match parse_octet(&parts[i]) {
            Some(v) => {
                out[i] = v;
            },
            None => {
                assert(octet(spec_parts[i as int]) is None);
                return None;
            },
        }
        i = i + 1;
    }
    proof {
        assert(out@ =~= parse_v4(chars@)->0);
    }
    Some(out)
}

fn write_v4(o: &[u8; 4]) -> (r: Vec<char>)
    ensures
        r@ == format_v4(o@),
{
    let mut out: Vec<char> = text::numeral_chars(o[0] as u64, 10);
    let ghost all = Seq::new(4, |i: int| text::decimal(o@[i] as nat));
    proof {
        assert(all.take(1) =~= seq![all[0]]);
    }
    let mut i: usize = 1;
    while i < 4
        invariant
            1 <= i <= 4,
            all == Seq::new(4, |j: int| text::decimal(o@[j] as nat)),
            out@ == text::join(all.take(i as int), seq!['.']),
        decreases 4 - i,
    {
        let mut part: Vec<char> = text::numeral_chars(o[i] as u64, 10);
        proof {
            assert(all.take(i + 1).drop_last() =~= all.take(i as int));
            assert(all.take(i + 1).last() == part@);
        }
        out.push('.');
        out.append(&mut part);
        proof {
            assert(out@ =~= text::join(all.take(i + 1), seq!['.']));
        }
        i = i + 1;
    }
    proof {
        assert(all.take(4) =~= all);
    }
    out
}

// ---------------------------------------------------------------------------
// IPv6 text
// ---------------------------------------------------------------------------
/// One group of an IPv6 address: one to four hexadecimal digits.
pub open spec fn group(s: Seq<char>) -> Option<nat> {
    if s.len() <= 4 {
        text::bounded_numeral(s, 16, 0xffff)
    } else {
        None
    }
}

/// The two groups that four octets make.
pub open spec fn octet_groups(o: Seq<u8>) -> Seq<nat> {
    seq![(o[0] * 256 + o[1]) as nat, (o[2] * 256 + o[3]) as nat]
}

/// The groups that `s` lists between colons; none where it is empty. With
/// `dotted` the last may be an IPv4 address, which stands for two groups.
pub open spec fn groups(s: Seq<char>, dotted: bool) -> Option<Seq<nat>> {
    let parts = text::split(s, ':');
    let front = Seq::new((parts.len() - 1) as nat, |i: int| group(parts[i])->0);
    if s.len() == 0 {
        Some(Seq::empty())
    } else if exists|i: int| 0 <= i < parts.len() - 1 && group(#[trigger] parts[i]) is None {
        None
    } else if group(parts.last()) is Some {
        Some(front.push(group(parts.last())->0))
    } else if dotted && parse_v4(parts.last()) is Some {
        Some(front + octet_groups(parse_v4(parts.last())->0))
    } else {
        None
    }
}

/// The place of the first `::` at or after `k`.
pub open spec fn find_gap(s: Seq<char>, k: int) -> Option<int>
    decreases s.len() - k,
{
    if k + 1 >= s.len() {
        None
    } else if s[k] == ':' && s[k + 1] == ':' {
        Some(k)
    } else {
        find_gap(s, k + 1)
    }
}

/// As many zero groups as `n`.
pub open spec fn zero_groups(n: nat) -> Seq<nat> {
    Seq::new(n, |i: int| 0)
}

/// The eight groups of an IPv6 address. One `::` stands for the zero groups
/// that are left out, one at least.
pub open spec fn parse_v6(s: Seq<char>) -> Option<Seq<nat>> {
    match find_gap(s, 0) {
        None => match groups(s, true) {
            Some(g) => if g.len() == 8 {
                Some(g)
            } else {
                None
            },
            None => None,
        },
        Some(k) => match (groups(s.take(k), false), groups(s.skip(k + 2), true)) {
            (Some(head), Some(tail)) => if head.len() + tail.len() <= 7 {
                Some(head + zero_groups((8 - head.len() - tail.len()) as nat) + tail)
            } else {
                None
            },
            _ => None,
        },
    }
}

/// The sixteen octets of eight groups.
pub open spec fn group_octets(g: Seq<nat>) -> Seq<u8> {
    Seq::new(
        16,
        |i: int|
            if i % 2 == 0 {
                (g[i / 2] / 256) as u8
            } else {
                (g[i / 2] % 256) as u8
            },
    )
}

/// The address that a text writes: IPv4 in dotted form or IPv6.
pub open spec fn parse_address(s: Seq<char>) -> Option<Address> {
    match parse_v4(s) {
        Some(o) => Some(Address::V4(o)),
        None => match parse_v6(s) {
            Some(g) => Some(Address::V6(group_octets(g))),
            None => None,
        },
    }
}

/// The numbers that the vector holds.
pub open spec fn numbers(v: Seq<u16>) -> Seq<nat> {
    v.map_values(|n: u16| n as nat)
}

fn parse_group(part: &Vec<char>) -> (r: Option<u16>)
    ensures
        r is Some <==> group(part@) is Some,
        r is Some ==> r->0 as nat == group(part@)->0,
{
    if part.len() > 4 {
        None
    } else {
        match text::parse_numeral(part, 16, 0xffff) {
            Some(v) => Some(v as u16),
            None => None,
        }
    }
}

fn read_groups(chars: &Vec<char>, dotted: bool) -> (r: Option<Vec<u16>>)
    ensures
        r is Some <==> groups(chars@, dotted) is Some,
        r is Some ==> numbers(r->0@) == groups(chars@, dotted)->0,
{
    let mut out: Vec<u16> = Vec::new();
    if chars.len() == 0 {
        proof {
            assert(numbers(out@) =~= Seq::<nat>::empty());
        }
        return Some(out);
    }
    let parts: Vec<Vec<char>> = text::split_chars(chars, ':');
    let ghost spec_parts = text::split(chars@, ':');
    let ghost front = Seq::new((spec_parts.len() - 1) as nat, |i: int| group(spec_parts[i])->0);
    proof {
        assert(forall|i: int| 0 <= i < parts.len() ==> spec_parts[i] == #[trigger] parts@[i]@);
    }
    let last: usize = parts.len() - 1;
    let mut i: usize = 0;
    while i < last
        invariant
            i <= last,
            last + 1 == parts.len(),
            parts.len() == spec_parts.len(),
            spec_parts == text::split(chars@, ':'),
            chars@.len() > 0,
            front == Seq::new((spec_parts.len() - 1) as nat, |i: int| group(spec_parts[i])->0),
            forall|j: int| 0 <= j < parts.len() ==> spec_parts[j] == #[trigger] parts@[j]@,
            forall|j: int| 0 <= j < i ==> group(#[trigger] spec_parts[j]) is Some,
            numbers(out@) == front.take(i as int),
        decreases last - i,
    {
        match parse_group(&parts[i]) {
            Some(v) => {
                let ghost done = numbers(out@);
                out.push(v);
                proof {
                    assert(numbers(out@) =~= done.push(v as nat));
                    assert(front.take(i + 1) =~= front.take(i as int).push(front[i as int]));
                }
            },
            None => {
                assert(group(spec_parts[i as int]) is None);
                return None;
            },
        }
        i = i + 1;
    }
    proof {
        assert(front.take(last as int) =~= front);
        assert(parts@[last as int]@ == spec_parts.last());
    }
    match parse_group(&parts[last]) {
        Some(v) => {
            out.push(v);
            proof {
                assert(numbers(out@) =~= front.push(v as nat));
            }
            return Some(out);
        },
        None => {},
    }
    if dotted {
        match read_v4(&parts[last]) {
            Some(o) => {
                let high: u16 = (o[0] as u16) * 256 + (o[1] as u16);
                let low: u16 = (o[2] as u16) * 256 + (o[3] as u16);
                out.push(high);
                out.push(low);
                proof {
                    assert(numbers(out@) =~= front + octet_groups(o@));
                }
                return Some(out);
            },
            None => {},
        }
    }
    None
}

fn gap_in(chars: &Vec<char>) -> (r: Option<usize>)
    ensures
        r is Some <==> find_gap(chars@, 0) is Some,
        r is Some ==> r->0 as int == find_gap(chars@, 0)->0,
        r is Some ==> r->0 + 2 <= chars.len(),
{
    let mut k: usize = 0;
    while k < chars.len() && chars.len() - k > 1
        invariant
            k <= chars.len(),
            find_gap(chars@, 0) == find_gap(chars@, k as int),
        decreases chars.len() - k,
    {
        if chars[k] == ':' && chars[k + 1] == ':' {
            return Some(k);
        }
        k = k + 1;
    }
    None
}

fn read_v6(chars: &Vec<char>) -> (r: Option<Vec<u16>>)
    ensures
        r is Some <==> parse_v6(chars@) is Some,
        r is Some ==> numbers(r->0@) == parse_v6(chars@)->0,
        r is Some ==> r->0.len() == 8,
{
    match gap_in(chars) {
        None => match read_groups(chars, true) {
            Some(g) => if g.len() == 8 {
                Some(g)
            } else {
                None
            },
            None => None,
        },
        Some(k) => {
            let front: Vec<char> = text::slice_of(chars, 0, k);
            let back: Vec<char> = text::slice_of(chars, k + 2, chars.len());
            proof {
                assert(front@ =~= chars@.take(k as int));
                assert(back@ =~= chars@.skip(k + 2));
            }
            let mut out: Vec<u16> = match read_groups(&front, false) {
                Some(g) => g,
                None => {
                    return None;
                },
            };
            let mut tail: Vec<u16> = match read_groups(&back, true) {
                Some(g) => g,
                None => {
                    return None;
                },
            };
            if out.len() > 7 || tail.len() > 7 - out.len() {
                return None;
            }
            let ghost head = numbers(out@);
            let ghost rest = numbers(tail@);
            let tail_len: usize = tail.len();
            let zeros: usize = 8 - out.len() - tail_len;
            let mut i: usize = 0;
            while i < zeros
                invariant
                    i <= zeros,
                    numbers(out@) == head + zero_groups(i as nat),
                decreases zeros - i,
            {
                let ghost done = numbers(out@);
                out.push(0);
                proof {
                    assert(numbers(out@) =~= done.push(0));
                    assert(numbers(out@) =~= head + zero_groups((i + 1) as nat));
                }
                i = i + 1;
            }
            let ghost filled = out@;
            out.append(&mut tail);
            proof {
                assert(numbers(out@) =~= head + zero_groups(zeros as nat) + rest);
                assert(numbers(out@).len() == 8);
            }
            Some(out)
        },
    }
}

fn octets_of_groups(g: &Vec<u16>) -> (r: [u8; 16])
    requires
        g.len() == 8,
    ensures
        r@ == group_octets(numbers(g@)),
{
    let mut out: [u8; 16] = [0, 0, 0, 0, 0, 0, 0, 0, 0, 0, 0, 0, 0, 0, 0, 0];
    let mut i: usize = 0;
    while i < 8
        invariant
            i <= 8,
            g.len() == 8,
            forall|j: int|
                0 <= j < 2 * i ==> #[trigger] out@[j] == group_octets(numbers(g@))[j],
        decreases 8 - i,
    {
        let n: u16 = g[i];
        out[2 * i] = (n / 256) as u8;
        out[2 * i + 1] = (n % 256) as u8;
        i = i + 1;
    }
    proof {
        assert(out@ =~= group_octets(numbers(g@)));
    }
    out
}

/// The eight groups of sixteen octets.
pub open spec fn octets_groups(o: Seq<u8>) -> Seq<nat> {
    Seq::new(8, |i: int| (o[2 * i] * 256 + o[2 * i + 1]) as nat)
}

/// How many zero groups follow one another from place `i` on.
pub open spec fn zero_run(g: Seq<nat>, i: int) -> nat
    decreases g.len() - i,
{
    if 0 <= i < g.len() && g[i] == 0 {
        1 + zero_run(g, i + 1)
    } else {
        0
    }
}

/// Where the first of the longest runs of zero groups starts, and how long it
/// is, among the runs that start before place `n`.
pub open spec fn longest_zero_run(g: Seq<nat>, n: nat) -> (int, nat)
    decreases n,
{
    if n == 0 {
        (0, 0)
    } else {
        let best = longest_zero_run(g, (n - 1) as nat);
        if zero_run(g, n - 1) > best.1 {
            (n - 1, zero_run(g, n - 1))
        } else {
            best
        }
    }
}

/// Groups as hexadecimal numbers between colons.
pub open spec fn format_groups(g: Seq<nat>) -> Seq<char> {
    text::join(g.map_values(|n: nat| text::numeral(n, 16)), seq![':'])
}

/// Whether the octets are those of an IPv4 address mapped into IPv6.
pub open spec fn is_mapped_v4(o: Seq<u8>) -> bool {
    &&& forall|i: int| 0 <= i < 10 ==> #[trigger] o[i] == 0
    &&& o[10] == 0xff
    &&& o[11] == 0xff
}

/// The text form of an IPv6 address: the longest run of two or more zero
/// groups is left out, and a mapped IPv4 address is written in dotted form.
pub open spec fn format_v6(o: Seq<u8>) -> Seq<char> {
    let g = octets_groups(o);
    let run = longest_zero_run(g, 8);
    if is_mapped_v4(o) {
        "::ffff:"@ + format_v4(o.skip(12))
    } else if run.1 > 1 {
        format_groups(g.take(run.0)) + "::"@ + format_groups(g.skip(run.0 + run.1))
    } else {
        format_groups(g)
    }
}

/// The text form of an address.
pub open spec fn format_address(a: Address) -> Seq<char> {
    match a {
        Address::V4(o) => format_v4(o),
        Address::V6(o) => format_v6(o),
    }
}

fn write_groups(g: &Vec<u16>, start: usize, end: usize) -> (r: Vec<char>)
    requires
        start <= end <= g.len(),
    ensures
        r@ == format_groups(numbers(g@).subrange(start as int, end as int)),
{
    let ghost all = numbers(g@).subrange(start as int, end as int).map_values(
        |n: nat| text::numeral(n, 16),
    );
    let mut out: Vec<char> = Vec::new();
    let mut i: usize = start;
    proof {
        assert(all.take(0) =~= Seq::<Seq<char>>::empty());
    }
    while i < end
        invariant
            start <= i <= end <= g.len(),
            all == numbers(g@).subrange(start as int, end as int).map_values(
                |n: nat| text::numeral(n, 16),
            ),
            out@ == text::join(all.take(i - start), seq![':']),
        decreases end - i,
    {
        let mut part: Vec<char> = text::numeral_chars(g[i] as u64, 16);
        let ghost k = i - start;
        proof {
            assert(all.take(k + 1).drop_last() =~= all.take(k));
            assert(all.take(k + 1).last() == part@);
        }
        if i > start {
            out.push(':');
        }
        out.append(&mut part);
        proof {
            assert(out@ =~= text::join(all.take(k + 1), seq![':']));
        }
        i = i + 1;
    }
    proof {
        assert(all.take(end - start) =~= all);
    }
    out
}

fn groups_of_octets(o: &[u8; 16]) -> (r: Vec<u16>)
    ensures
        numbers(r@) == octets_groups(o@),
        r.len() == 8,
{
    let mut out: Vec<u16> = Vec::new();
    let mut i: usize = 0;
    while i < 8
        invariant
            i <= 8,
            numbers(out@) == octets_groups(o@).take(i as int),
            out.len() == i,
        decreases 8 - i,
    {
        let ghost done = numbers(out@);
        let n: u16 = (o[2 * i] as u16) * 256 + (o[2 * i + 1] as u16);
        out.push(n);
        proof {
            assert(numbers(out@) =~= done.push(n as nat));
            assert(octets_groups(o@).take(i + 1) =~= octets_groups(o@).take(i as int).push(
                octets_groups(o@)[i as int],
            ));
        }
        i = i + 1;
    }
    proof {
        assert(octets_groups(o@).take(8) =~= octets_groups(o@));
    }
    out
}

fn count_zeros(g: &Vec<u16>, start: usize) -> (r: usize)
    requires
        start <= g.len(),
    ensures
        r as nat == zero_run(numbers(g@), start as int),
        start + r <= g.len(),
    decreases g.len() - start,
{
    if start < g.len() && g[start] == 0 {
        1 + count_zeros(g, start + 1)
    } else {
        0
    }
}

fn find_zero_run(g: &Vec<u16>) -> (r: (usize, usize))
    requires
        g.len() == 8,
    ensures
        (r.0 as int, r.1 as nat) == longest_zero_run(numbers(g@), 8),
        r.0 + r.1 <= 8,
{
    let mut best: (usize, usize) = (0, 0);
    let mut n: usize = 0;
    while n < 8
        invariant
            n <= 8,
            g.len() == 8,
            (best.0 as int, best.1 as nat) == longest_zero_run(numbers(g@), n as nat),
            best.0 + best.1 <= 8,
        decreases 8 - n,
    {
        let run: usize = count_zeros(g, n);
        if run > best.1 {
            best = (n, run);
        }
        n = n + 1;
    }
    best
}

fn mapped_v4(o: &[u8; 16]) -> (r: bool)
    ensures
        r == is_mapped_v4(o@),
{
    let mut i: usize = 0;
    while i < 10
        invariant
            i <= 10,
            forall|j: int| 0 <= j < i ==> #[trigger] o@[j] == 0,
        decreases 10 - i,
    {
        if o[i] != 0 {
            return false;
        }
        i = i + 1;
    }
    o[10] == 0xff && o[11] == 0xff
}

fn write_v6(o: &[u8; 16]) -> (r: Vec<char>)
    ensures
        r@ == format_v6(o@),
{
    if mapped_v4(o) {
        let mut out: Vec<char> = text::to_chars("::ffff:");
        let last: [u8; 4] = [o[12], o[13], o[14], o[15]];
        proof {
            assert(last@ =~= o@.skip(12));
        }
        let mut dotted: Vec<char> = write_v4(&last);
        out.append(&mut dotted);
        return out;
    }
    let g: Vec<u16> = groups_of_octets(o);
    let (start, len): (usize, usize) = find_zero_run(&g);
    let ghost all = numbers(g@);
    if len > 1 {
        let mut out: Vec<char> = write_groups(&g, 0, start);
        let mut gap: Vec<char> = text::to_chars("::");
        let mut back: Vec<char> = write_groups(&g, start + len, 8);
        out.append(&mut gap);
        out.append(&mut back);
        proof {
            assert(all.subrange(0, start as int) =~= all.take(start as int));
            assert(all.subrange(start + len, 8) =~= all.skip(start + len));
        }
        out
    } else {
        proof {
            assert(all.subrange(0, 8) =~= all);
        }
        write_groups(&g, 0, 8)
    }
}

impl IpAddr {
    /// The address that `s` writes, if it writes one.
    pub fn parse(s: &str) -> (r: Option<IpAddr>)
        ensures
            r is Some <==> parse_address(s@) is Some,
            r is Some ==> r->0@ == parse_address(s@)->0,
    {
        IpAddr::parse_chars(&text::to_chars(s))
    }

    pub fn parse_chars(chars: &Vec<char>) -> (r: Option<IpAddr>)
        ensures
            r is Some <==> parse_address(chars@) is Some,
            r is Some ==> r->0@ == parse_address(chars@)->0,
    {
        match read_v4(chars) {
            Some(o) => Some(IpAddr::V4(o)),
            None => match read_v6(chars) {
                Some(g) => Some(IpAddr::V6(octets_of_groups(&g))),
                None => None,
            },
        }
    }

    /// The address in its text form.
    pub fn to_string(&self) -> (r: String)
        ensures
            r@ == format_address(self@),
    {
        match self {
            IpAddr::V4(o) => text::from_chars(&write_v4(o)),
            IpAddr::V6(o) => text::from_chars(&write_v6(o)),
        }
    }

    pub fn is_ipv4(&self) -> (r: bool)
        ensures
            r == (self@ is V4),
    {
        match self {
            IpAddr::V4(_) => true,
            IpAddr::V6(_) => false,
        }
    }
}

/// The text form of a socket address: an IPv6 address stands in brackets, with
/// its scope where it has one.
pub open spec fn format_socket(addr: SocketView) -> Seq<char> {
    let ip = format_address(addr.ip);
    let port = text::decimal(addr.port as nat);
    match addr.ip {
        Address::V4(_) => ip + ":"@ + port,
        Address::V6(_) => if addr.scope_id == 0 {
            "["@ + ip + "]:"@ + port
        } else {
            "["@ + ip + "%"@ + text::decimal(addr.scope_id as nat) + "]:"@ + port
        },
    }
}

impl SocketAddr {
    /// The socket address of an address and a port alone.
    pub fn new(ip: IpAddr, port: u16) -> (addr: SocketAddr)
        ensures
            addr@ == plain_socket(ip@, port),
    {
        SocketAddr { ip, port, flowinfo: 0, scope_id: 0 }
    }

    /// The socket address in its text form.
    pub fn to_string(&self) -> (r: String)
        ensures
            r@ == format_socket(self@),
    {
        let ip: String = self.ip.to_string();
        let port: String = text::decimal_string(self.port as u64);
        if self.ip.is_ipv4() {
            return text::joined3(&ip, ":", &port);
        }
        let mut out: String = text::joined("[", &ip);
        if self.scope_id != 0 {
            out.append("%");
            out.append(&text::decimal_string(self.scope_id as u64));
        }
        out.append("]:");
        out.append(&port);
        out
    }
}

// ---------------------------------------------------------------------------
// Reading back what is written
// ---------------------------------------------------------------------------
proof fn lemma_numeral_free(n: nat, base: nat, c: char)
    requires
        base == 10 || base == 16,
        text::hex_value(c) is None,
    ensures
        !text::numeral(n, base).contains(c),
        text::numeral(n, base).len() > 0,
{
    text::lemma_numeral_roundtrip(n, base);
    let s = text::numeral(n, base);
    assert forall|i: int| 0 <= i < s.len() implies s[i] != c by {
        assert(text::is_digit(s[i], base));
    }
}

proof fn lemma_octet_decimal(n: nat)
    requires
        n <= 255,
    ensures
        octet(text::decimal(n)) == Some(n),
{
    text::lemma_numeral_roundtrip(n, 10);
    text::lemma_numeral_len(n, 10);
}

proof fn lemma_group_numeral(n: nat)
    requires
        n <= 0xffff,
    ensures
        group(text::numeral(n, 16)) == Some(n),
{
    text::lemma_numeral_roundtrip(n, 16);
    text::lemma_numeral_len(n, 16);
}

/// Every dotted form is read back as the octets it was written from.
proof fn lemma_v4_roundtrip(o: Seq<u8>)
    requires
        o.len() == 4,
    ensures
        parse_v4(format_v4(o)) == Some(o),
{
    let parts = Seq::new(4, |i: int| text::decimal(o[i] as nat));
    assert forall|i: int| 0 <= i < parts.len() implies !(#[trigger] parts[i]).contains('.')
        && octet(parts[i]) == Some(o[i] as nat) by {
        lemma_numeral_free(o[i] as nat, 10, '.');
        lemma_octet_decimal(o[i] as nat);
    }
    text::lemma_join_split(parts, '.');
    assert(parse_v4(format_v4(o))->0 =~= o);
}

/// A character of joined parts is the separator or stands in a part.
proof fn lemma_join_chars(parts: Seq<Seq<char>>, sep: char, c: char)
    requires
        text::join(parts, seq![sep]).contains(c),
        c != sep,
    ensures
        exists|i: int| 0 <= i < parts.len() && (#[trigger] parts[i]).contains(c),
    decreases parts.len(),
{
    let s = text::join(parts, seq![sep]);
    let k = choose|k: int| 0 <= k < s.len() && s[k] == c;
    if parts.len() == 1 {
        assert(parts[0].contains(c));
    } else {
        let front = text::join(parts.drop_last(), seq![sep]);
        if k < front.len() {
            assert(front[k] == c);
            lemma_join_chars(parts.drop_last(), sep, c);
            let i = choose|i: int|
                0 <= i < parts.drop_last().len() && (#[trigger] parts.drop_last()[i]).contains(c);
            assert(parts[i].contains(c));
        } else {
            assert(k > front.len());
            assert(parts.last()[k - front.len() - 1] == c);
            assert(parts[parts.len() - 1].contains(c));
        }
    }
}

/// A dotted address has only digits and dots.
pub proof fn lemma_v4_chars(s: Seq<char>, c: char)
    requires
        parse_v4(s) is Some,
        c != '.',
        text::hex_value(c) is None,
    ensures
        !s.contains(c),
{
    if s.contains(c) {
        text::lemma_split_join(s, '.');
        let parts = text::split(s, '.');
        lemma_join_chars(parts, '.', c);
        let i = choose|i: int| 0 <= i < parts.len() && (#[trigger] parts[i]).contains(c);
        assert(octet(parts[i]) is Some);
        let k = choose|k: int| 0 <= k < parts[i].len() && parts[i][k] == c;
        assert(text::is_digit(parts[i][k], 10));
    }
}

/// Whether two colons stand at place `k`.
pub open spec fn gap_at(s: Seq<char>, k: int) -> bool {
    0 <= k && k + 1 < s.len() && s[k] == ':' && s[k + 1] == ':'
}

pub proof fn lemma_find_gap(s: Seq<char>, k: int, m: int)
    requires
        0 <= k <= m,
        gap_at(s, m),
        forall|j: int| k <= j < m ==> !(#[trigger] gap_at(s, j)),
    ensures
        find_gap(s, k) == Some(m),
    decreases m - k,
{
    if k < m {
        assert(!gap_at(s, k));
        lemma_find_gap(s, k + 1, m);
    }
}

pub proof fn lemma_find_no_gap(s: Seq<char>, k: int)
    requires
        0 <= k,
        forall|j: int| k <= j < s.len() ==> !(#[trigger] gap_at(s, j)),
    ensures
        find_gap(s, k) is None,
    decreases s.len() - k,
{
    if k + 1 < s.len() {
        assert(!gap_at(s, k));
        lemma_find_no_gap(s, k + 1);
    }
}

/// Joining non-empty parts without colons leaves no two colons side by side,
/// and none at either end.
pub proof fn lemma_join_no_gap(parts: Seq<Seq<char>>)
    requires
        forall|i: int|
            0 <= i < parts.len() ==> (#[trigger] parts[i]).len() > 0 && !parts[i].contains(':'),
    ensures
        forall|k: int| !(#[trigger] gap_at(text::join(parts, seq![':']), k)),
        parts.len() > 0 ==> {
            let s = text::join(parts, seq![':']);
            s.len() > 0 && s[0] != ':' && s.last() != ':'
        },
        parts.len() == 0 ==> text::join(parts, seq![':']).len() == 0,
    decreases parts.len(),
{
    let s = text::join(parts, seq![':']);
    if parts.len() == 1 {
        assert(parts[0].contains(parts[0][0]));
        assert(parts[0].contains(parts[0].last()));
        assert forall|k: int| !(#[trigger] gap_at(s, k)) by {
            if gap_at(s, k) {
                assert(parts[0].contains(parts[0][k]));
            }
        }
    } else if parts.len() > 1 {
        let init = parts.drop_last();
        assert forall|i: int| 0 <= i < init.len() implies (#[trigger] init[i]).len() > 0
            && !init[i].contains(':') by {
            assert(init[i] == parts[i]);
        }
        lemma_join_no_gap(init);
        let front = text::join(init, seq![':']);
        let last = parts[parts.len() - 1];
        assert(last.contains(last[0]));
        assert(last.contains(last.last()));
        assert forall|k: int| !(#[trigger] gap_at(s, k)) by {
            if gap_at(s, k) {
                assert(!gap_at(front, k));
                if k > front.len() {
                    assert(last.contains(last[k - front.len() - 1]));
                }
            }
        }
    }
}

/// Groups are read back as they were written.
proof fn lemma_groups_roundtrip(g: Seq<nat>, dotted: bool)
    requires
        forall|i: int| 0 <= i < g.len() ==> #[trigger] g[i] <= 0xffff,
    ensures
        groups(format_groups(g), dotted) == Some(g),
        forall|k: int| !(#[trigger] gap_at(format_groups(g), k)),
        g.len() == 0 ==> format_groups(g).len() == 0,
        g.len() > 0 ==> format_groups(g).len() > 0 && format_groups(g)[0] != ':' && format_groups(
            g,
        ).last() != ':',
{
    let parts = g.map_values(|n: nat| text::numeral(n, 16));
    let s = format_groups(g);
    assert forall|i: int| 0 <= i < parts.len() implies (#[trigger] parts[i]).len() > 0
        && !parts[i].contains(':') && group(parts[i]) == Some(g[i]) by {
        lemma_numeral_free(g[i], 16, ':');
        lemma_group_numeral(g[i]);
    }
    lemma_join_no_gap(parts);
    if g.len() > 0 {
        text::lemma_join_split(parts, ':');
        assert(group(parts[parts.len() - 1]) is Some);
        assert(groups(s, dotted)->0 =~= g);
    } else {
        assert(groups(s, dotted)->0 =~= g);
    }
}

pub proof fn lemma_octets_groups(o: Seq<u8>)
    requires
        o.len() == 16,
    ensures
        group_octets(octets_groups(o)) == o,
        forall|i: int| 0 <= i < 8 ==> #[trigger] octets_groups(o)[i] <= 0xffff,
{
    let g = octets_groups(o);
    assert forall|i: int| 0 <= i < 16 implies group_octets(g)[i] == #[trigger] o[i] by {
        assert(g[i / 2] == o[2 * (i / 2)] * 256 + o[2 * (i / 2) + 1]);
    }
    assert(group_octets(g) =~= o);
}

proof fn lemma_zero_run(g: Seq<nat>, i: int)
    requires
        0 <= i <= g.len(),
    ensures
        i + zero_run(g, i) <= g.len(),
        forall|j: int| i <= j < i + zero_run(g, i) ==> #[trigger] g[j] == 0,
    decreases g.len() - i,
{
    if i < g.len() && g[i] == 0 {
        lemma_zero_run(g, i + 1);
    }
}

proof fn lemma_longest_zero_run(g: Seq<nat>, n: nat)
    requires
        n <= g.len(),
    ensures
        0 <= longest_zero_run(g, n).0,
        longest_zero_run(g, n).0 + longest_zero_run(g, n).1 <= g.len(),
        forall|j: int|
            longest_zero_run(g, n).0 <= j < longest_zero_run(g, n).0 + longest_zero_run(g, n).1
                ==> #[trigger] g[j] == 0,
    decreases n,
{
    if n > 0 {
        lemma_longest_zero_run(g, (n - 1) as nat);
        lemma_zero_run(g, n - 1);
    }
}

proof fn lemma_group_ffff()
    ensures
        group(seq!['f', 'f', 'f', 'f']) == Some(0xffffnat),
        !seq!['f', 'f', 'f', 'f'].contains(':'),
{
    let ffff = seq!['f', 'f', 'f', 'f'];
    reveal_with_fuel(text::numeral_value, 6);
    assert(ffff.drop_last() =~= seq!['f', 'f', 'f']);
    assert(seq!['f', 'f', 'f'].drop_last() =~= seq!['f', 'f']);
    assert(seq!['f', 'f'].drop_last() =~= seq!['f']);
    assert(seq!['f'].drop_last() =~= Seq::<char>::empty());
    assert(text::numeral_value(ffff, 16) == 0xffff);
    assert(text::is_numeral(ffff, 16));
}

/// A dotted form is no hexadecimal group.
proof fn lemma_dotted_no_group(o: Seq<u8>)
    requires
        o.len() == 4,
    ensures
        group(format_v4(o)) is None,
{
    let dotted = format_v4(o);
    if group(dotted) is Some {
        let octs = Seq::new(4, |i: int| text::decimal(o[i] as nat));
        let front = text::join(octs.drop_last(), seq!['.']);
        assert(dotted =~= front + seq!['.'] + octs.last());
        assert(dotted[front.len() as int] == '.');
        assert(text::is_digit(dotted[front.len() as int], 16));
    }
}

/// What stands behind the `::` of a mapped address is read as three groups.
proof fn lemma_mapped_tail(o: Seq<u8>)
    requires
        o.len() == 4,
    ensures
        groups(seq!['f', 'f', 'f', 'f', ':'] + format_v4(o), true) == Some(
            seq![0xffffnat] + octet_groups(o),
        ),
{
    let dotted = format_v4(o);
    let ffff = seq!['f', 'f', 'f', 'f'];
    let parts = seq![ffff, dotted];
    let tail = seq!['f', 'f', 'f', 'f', ':'] + dotted;
    lemma_v4_roundtrip(o);
    lemma_v4_chars(dotted, ':');
    lemma_group_ffff();
    lemma_dotted_no_group(o);
    assert(parts.drop_last() =~= seq![ffff]);
    assert(text::join(seq![ffff], seq![':']) == ffff);
    assert(tail =~= text::join(parts, seq![':']));
    text::lemma_join_split(parts, ':');
    assert(group(parts[0]) is Some);
    assert(parts.last() == dotted);
    assert(groups(tail, true)->0 =~= seq![0xffffnat] + octet_groups(o));
}

proof fn lemma_mapped_roundtrip(o: Seq<u8>)
    requires
        o.len() == 16,
        is_mapped_v4(o),
    ensures
        parse_v6(format_v6(o)) == Some(octets_groups(o)),
        format_v6(o).contains(':'),
{
    reveal_strlit("::ffff:");
    let g = octets_groups(o);
    let last = o.skip(12);
    let s = format_v6(o);
    let tail = seq![0xffffnat] + octet_groups(last);
    assert(s[0] == ':' && s[1] == ':');
    lemma_find_gap(s, 0, 0);
    assert(s.take(0) =~= Seq::<char>::empty());
    assert(s.skip(2) =~= seq!['f', 'f', 'f', 'f', ':'] + format_v4(last));
    lemma_mapped_tail(last);
    assert(groups(s.take(0), false) == Some(Seq::<nat>::empty()));
    assert(parse_v6(s) == Some(Seq::<nat>::empty() + zero_groups(5) + tail));
    assert forall|i: int| 0 <= i < 5 implies #[trigger] g[i] == 0 by {
        assert(o[2 * i] == 0 && o[2 * i + 1] == 0);
    }
    assert(Seq::<nat>::empty() + zero_groups(5) + tail =~= g);
}

/// Groups written round a `::` are read back with the zero groups that it
/// stands for.
proof fn lemma_gap_roundtrip(head: Seq<nat>, tail: Seq<nat>)
    requires
        forall|i: int| 0 <= i < head.len() ==> #[trigger] head[i] <= 0xffff,
        forall|i: int| 0 <= i < tail.len() ==> #[trigger] tail[i] <= 0xffff,
        head.len() + tail.len() <= 7,
    ensures
        parse_v6(format_groups(head) + "::"@ + format_groups(tail)) == Some(
            head + zero_groups((8 - head.len() - tail.len()) as nat) + tail,
        ),
        (format_groups(head) + "::"@ + format_groups(tail)).contains(':'),
{
    reveal_strlit("::");
    lemma_groups_roundtrip(head, false);
    lemma_groups_roundtrip(tail, true);
    let a = format_groups(head);
    let b = format_groups(tail);
    let k = a.len() as int;
    let s = a + "::"@ + b;
    assert(s[k] == ':');
    assert(s[k + 1] == ':');
    assert(gap_at(s, k));
    assert forall|j: int| 0 <= j < k implies !(#[trigger] gap_at(s, j)) by {
        assert(!gap_at(a, j));
        if gap_at(s, j) && j == k - 1 {
            assert(a.last() == ':');
        }
    }
    lemma_find_gap(s, 0, k);
    assert(s.take(k) =~= a);
    assert(s.skip(k + 2) =~= b);
}

proof fn lemma_v6_roundtrip(o: Seq<u8>)
    requires
        o.len() == 16,
    ensures
        parse_v6(format_v6(o)) == Some(octets_groups(o)),
        format_v6(o).contains(':'),
{
    let g = octets_groups(o);
    let run = longest_zero_run(g, 8);
    let s = format_v6(o);
    lemma_octets_groups(o);
    lemma_longest_zero_run(g, 8);
    if is_mapped_v4(o) {
        lemma_mapped_roundtrip(o);
    } else if run.1 > 1 {
        let head = g.take(run.0);
        let tail = g.skip(run.0 + run.1);
        assert forall|i: int| 0 <= i < head.len() implies #[trigger] head[i] <= 0xffff by {
            assert(head[i] == g[i]);
        }
        assert forall|i: int| 0 <= i < tail.len() implies #[trigger] tail[i] <= 0xffff by {
            assert(tail[i] == g[i + run.0 + run.1]);
        }
        lemma_gap_roundtrip(head, tail);
        assert(head + zero_groups(run.1) + tail =~= g);
    } else {
        assert(g.len() == 8);
        lemma_groups_roundtrip(g, true);
        lemma_find_no_gap(s, 0);
        let parts = g.map_values(|n: nat| text::numeral(n, 16));
        let front = text::join(parts.drop_last(), seq![':']);
        assert(s =~= front + seq![':'] + parts.last());
        assert(s[front.len() as int] == ':');
    }
}

/// Reading the text form of an address gives the address back.
pub proof fn address_roundtrip(a: Address)
    requires
        a.wf(),
    ensures
        parse_address(format_address(a)) == Some(a),
{
    match a {
        Address::V4(o) => lemma_v4_roundtrip(o),
        Address::V6(o) => {
            lemma_v6_roundtrip(o);
            lemma_octets_groups(o);
            let s = format_v6(o);
            if parse_v4(s) is Some {
                lemma_v4_chars(s, ':');
            }
        },
    }
}

/// A text that is read as an address gives one with all its octets.
pub proof fn parsed_address_wf(s: Seq<char>)
    requires
        parse_address(s) is Some,
    ensures
        parse_address(s)->0.wf(),
{
}

proof fn lemma_joined_numerals_free(parts: Seq<Seq<char>>, sep: char, c: char)
    requires
        c != sep,
        forall|i: int| 0 <= i < parts.len() ==> !(#[trigger] parts[i]).contains(c),
    ensures
        !text::join(parts, seq![sep]).contains(c),
{
    if text::join(parts, seq![sep]).contains(c) {
        lemma_join_chars(parts, sep, c);
    }
}

proof fn lemma_format_groups_free(g: Seq<nat>, c: char)
    requires
        c != ':',
        text::hex_value(c) is None,
    ensures
        !format_groups(g).contains(c),
{
    let parts = g.map_values(|n: nat| text::numeral(n, 16));
    assert forall|i: int| 0 <= i < parts.len() implies !(#[trigger] parts[i]).contains(c) by {
        lemma_numeral_free(g[i], 16, c);
    }
    lemma_joined_numerals_free(parts, ':', c);
}

proof fn lemma_format_v4_free(o: Seq<u8>, c: char)
    requires
        c != '.',
        text::hex_value(c) is None,
    ensures
        !format_v4(o).contains(c),
{
    let parts = Seq::new(4, |i: int| text::decimal(o[i] as nat));
    assert forall|i: int| 0 <= i < parts.len() implies !(#[trigger] parts[i]).contains(c) by {
        lemma_numeral_free(o[i] as nat, 10, c);
    }
    lemma_joined_numerals_free(parts, '.', c);
}

/// The text form of an address holds hexadecimal digits, dots and colons only.
pub proof fn address_characters(a: Address, c: char)
    requires
        c != '.',
        c != ':',
        text::hex_value(c) is None,
    ensures
        !format_address(a).contains(c),
{
    let s = format_address(a);
    match a {
        Address::V4(o) => lemma_format_v4_free(o, c),
        Address::V6(o) => {
            reveal_strlit("::ffff:");
            reveal_strlit("::");
            let g = octets_groups(o);
            let run = longest_zero_run(g, 8);
            let head = format_groups(g.take(run.0));
            let tail = format_groups(g.skip(run.0 + run.1));
            lemma_format_v4_free(o.skip(12), c);
            lemma_format_groups_free(g, c);
            lemma_format_groups_free(g.take(run.0), c);
            lemma_format_groups_free(g.skip(run.0 + run.1), c);
            if s.contains(c) {
                let k = choose|k: int| 0 <= k < s.len() && s[k] == c;
                if is_mapped_v4(o) {
                    assert(k >= 7);
                    assert(format_v4(o.skip(12)).contains(format_v4(o.skip(12))[k - 7]));
                } else if run.1 > 1 {
                    if k < head.len() {
                        assert(head.contains(head[k]));
                    } else if k >= head.len() + 2 {
                        assert(tail.contains(tail[k - head.len() - 2]));
                    }
                }
            }
        },
    }
}

} // verus!
