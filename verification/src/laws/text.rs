//! Laws of the operations on texts.
use vstd::prelude::*;

use crate::text;

verus! {

// ---------------------------------------------------------------------------
// Characters and strings
// ---------------------------------------------------------------------------
/// Taking a string apart and putting characters together lose nothing, and
/// texts are put together in the order given.
pub proof fn strings_keep_their_characters(
    s: &str,
    chars: Vec<char>,
    from: &Vec<char>,
    to: String,
    a: &str,
    b: &str,
    c: &str,
    two: String,
    three: String,
)
    requires
        call_ensures(text::to_chars, (s,), chars),
        call_ensures(text::from_chars, (from,), to),
        call_ensures(text::joined, (a, b), two),
        call_ensures(text::joined3, (a, b, c), three),
    ensures
        chars@ == s@,
        to@ == from@,
        two@ == a@ + b@,
        three@ == a@ + b@ + c@,
{
}

/// A slice holds the characters of its places.
pub proof fn slices_keep_their_characters(
    chars: &Vec<char>,
    start: usize,
    end: usize,
    r: Vec<char>,
)
    requires
        start <= end <= chars@.len(),
        call_ensures(text::slice_of, (chars, start, end), r),
    ensures
        r@.len() == end - start,
        forall|i: int| 0 <= i < r@.len() ==> #[trigger] r@[i] == chars@[start + i],
{
}

/// Texts are the same exactly where they have the same characters.
pub proof fn same_text_is_every_character(a: &str, b: &str, r: bool)
    requires
        call_ensures(text::same_text, (a, b), r),
    ensures
        r <==> a@.len() == b@.len() && forall|i: int| 0 <= i < a@.len() ==> #[trigger] a@[i] == b@[i],
{
    if a@.len() == b@.len() && forall|i: int| 0 <= i < a@.len() ==> #[trigger] a@[i] == b@[i] {
        assert(a@ =~= b@);
    }
}

/// A character occurs exactly where some place holds it.
pub proof fn contains_is_some_place(chars: &Vec<char>, c: char, r: bool)
    requires
        call_ensures(text::contains_char, (chars, c), r),
    ensures
        r <==> exists|i: int| 0 <= i < chars@.len() && #[trigger] chars@[i] == c,
{
}

/// A text ends in another exactly where it is some text followed by that one.
pub proof fn suffix_is_what_comes_last(s: &str, suffix: &str, r: bool)
    requires
        call_ensures(text::ends_with, (s, suffix), r),
    ensures
        r <==> exists|head: Seq<char>| s@ == #[trigger] (head + suffix@),
{
    if r {
        let head = s@.take(s@.len() - suffix@.len());
        assert(s@ =~= head + suffix@);
    }
    if exists|head: Seq<char>| s@ == #[trigger] (head + suffix@) {
        let head = choose|head: Seq<char>| s@ == #[trigger] (head + suffix@);
        assert(s@.skip(s@.len() - suffix@.len()) =~= suffix@);
    }
}

/// Whether two characters are the same, or the same letter of the Latin
/// alphabet in either case.
pub open spec fn same_letter(c: char, d: char) -> bool {
    ||| c == d
    ||| 65 <= c as int <= 90 && d as int == c as int + 32
    ||| 65 <= d as int <= 90 && c as int == d as int + 32
}

proof fn lemma_same_letter(c: char, d: char)
    ensures
        same_letter(c, d) <==> text::ascii_lower(c) == text::ascii_lower(d),
{
}

/// Whether a text spells a word, in whatever case.
pub open spec fn spells(s: Seq<char>, word: Seq<char>) -> bool {
    s.len() == word.len() && forall|i: int|
        0 <= i < s.len() ==> same_letter(#[trigger] s[i], word[i])
}

pub proof fn lemma_spells(s: Seq<char>, word: Seq<char>)
    ensures
        spells(s, word) <==> text::same_ignoring_case(s, word),
{
    assert forall|i: int| 0 <= i < s.len() && s.len() == word.len() implies same_letter(
        #[trigger] s[i],
        word[i],
    ) == (text::ascii_lower(s[i]) == text::ascii_lower(word[i])) by {
        lemma_same_letter(s[i], word[i]);
    }
}

/// Texts that are compared whatever their case may differ in the case of Latin
/// letters and in nothing else.
pub proof fn only_case_may_differ(a: &str, b: &str, r: bool)
    requires
        call_ensures(text::eq_ignore_case, (a, b), r),
    ensures
        r <==> spells(a@, b@),
{
    lemma_spells(a@, b@);
}

// ---------------------------------------------------------------------------
// White space
// ---------------------------------------------------------------------------
/// The code points with the Unicode property `White_Space`.
pub open spec fn white(c: char) -> bool {
    let n = c as int;
    n < 0x80 && (n == 32 || 9 <= n <= 13) || n == 133 || n == 160 || n == 5760 || 8192 <= n <= 8202
        || n == 8232 || n == 8233 || n == 8239 || n == 8287 || n == 12288
}

proof fn lemma_white(c: char)
    ensures
        white(c) == text::is_white_space(c),
{
}

proof fn lemma_start(s: Seq<char>) -> (i: int)
    ensures
        0 <= i <= s.len(),
        text::trimmed_start(s) == s.skip(i),
        forall|k: int| 0 <= k < i ==> white(#[trigger] s[k]),
        i < s.len() ==> !white(s[i]),
    decreases s.len(),
{
    if s.len() > 0 {
        lemma_white(s[0]);
    }
    if s.len() > 0 && text::is_white_space(s[0]) {
        let rest = s.drop_first();
        let i = lemma_start(rest);
        assert(rest.skip(i) =~= s.skip(i + 1));
        assert forall|k: int| 0 <= k < i + 1 implies white(#[trigger] s[k]) by {
            if k > 0 {
                assert(rest[k - 1] == s[k]);
            }
        }
        i + 1
    } else {
        assert(s.skip(0) =~= s);
        0
    }
}

proof fn lemma_end(s: Seq<char>) -> (j: int)
    ensures
        0 <= j <= s.len(),
        text::trimmed_end(s) == s.take(j),
        forall|k: int| j <= k < s.len() ==> white(#[trigger] s[k]),
        j > 0 ==> !white(s[j - 1]),
    decreases s.len(),
{
    if s.len() > 0 {
        lemma_white(s.last());
    }
    if s.len() > 0 && text::is_white_space(s.last()) {
        let rest = s.drop_last();
        let j = lemma_end(rest);
        assert(rest.take(j) =~= s.take(j));
        assert forall|k: int| j <= k < s.len() implies white(#[trigger] s[k]) by {
            if k < rest.len() {
                assert(rest[k] == s[k]);
            }
        }
        if j > 0 {
            assert(rest[j - 1] == s[j - 1]);
        }
        j
    } else {
        assert(s.take(s.len() as int) =~= s);
        s.len() as int
    }
}

/// Trimming leaves nothing exactly where there is nothing but white space.
pub proof fn lemma_blank(s: Seq<char>)
    ensures
        text::trimmed(s).len() == 0 <==> forall|i: int| 0 <= i < s.len() ==> white(#[trigger] s[i]),
{
    text::lemma_trimmed_empty(s);
    assert forall|i: int| 0 <= i < s.len() implies white(#[trigger] s[i]) == text::is_white_space(
        s[i],
    ) by {
        lemma_white(s[i]);
    }
}

/// Trimming takes away the white space at either end and nothing else.
pub proof fn trimming_takes_white_space_at_the_ends(chars: &Vec<char>, r: Vec<char>)
    requires
        call_ensures(text::trim, (chars,), r),
    ensures
        exists|i: int, j: int|
            #![trigger chars@.subrange(i, j)]
            {
                &&& 0 <= i <= j <= chars@.len()
                &&& r@ == chars@.subrange(i, j)
                &&& forall|k: int| 0 <= k < i || j <= k < chars@.len() ==> white(#[trigger] chars@[k])
            },
        r@.len() > 0 ==> !white(r@[0]) && !white(r@[r@.len() - 1]),
{
    let s = chars@;
    let i = lemma_start(s);
    let t = s.skip(i);
    let n = lemma_end(t);
    let j = i + n;
    assert(t.take(n) =~= s.subrange(i, j));
    assert forall|k: int| 0 <= k < i || j <= k < s.len() implies white(#[trigger] s[k]) by {
        if k >= j {
            assert(t[k - i] == s[k]);
        }
    }
    if n > 0 {
        assert(t[0] == s[i]);
        assert(t[n - 1] == s[j - 1]);
    }
}

// ---------------------------------------------------------------------------
// Splitting
// ---------------------------------------------------------------------------
/// The parts between separators: an empty text is one empty part, a separator
/// at the end starts a new part, and another character lengthens the last one.
pub proof fn splitting_goes_by_separators(
    shorter: &Vec<char>,
    longer: &Vec<char>,
    c: char,
    sep: char,
    few: Vec<Vec<char>>,
    more: Vec<Vec<char>>,
)
    requires
        longer@ == shorter@.push(c),
        call_ensures(text::split_chars, (shorter, sep), few),
        call_ensures(text::split_chars, (longer, sep), more),
    ensures
        few@.len() > 0,
        shorter@.len() == 0 ==> few@.len() == 1 && few@[0]@.len() == 0,
        c == sep ==> more@.len() == few@.len() + 1 && more@[few@.len() as int]@.len() == 0 && (
        forall|i: int| 0 <= i < few@.len() ==> (#[trigger] more@[i])@ == few@[i]@),
        c != sep ==> more@.len() == few@.len() && more@[few@.len() - 1]@
            == few@[few@.len() - 1]@.push(c) && (forall|i: int|
            0 <= i < few@.len() - 1 ==> (#[trigger] more@[i])@ == few@[i]@),
{
    let x = text::texts(few@);
    let y = text::texts(more@);
    assert(longer@.drop_last() =~= shorter@);
    assert(x == text::split(shorter@, sep));
    assert(y == text::split(longer@, sep));
    assert(forall|i: int| 0 <= i < few@.len() ==> x[i] == (#[trigger] few@[i])@);
    assert(forall|i: int| 0 <= i < more@.len() ==> y[i] == (#[trigger] more@[i])@);
    text::lemma_split_len(shorter@, sep);
    if c == sep {
        assert(y == x.push(Seq::empty()));
    } else {
        assert(y == x.drop_last().push(x.last().push(c)));
    }
    assert forall|i: int| 0 <= i < few@.len() - 1 || (c == sep && i == few@.len() - 1) implies (
    #[trigger] more@[i])@ == few@[i]@ by {
        assert(y[i] == x[i]);
        assert(x[i] == few@[i]@);
    }
}

// ---------------------------------------------------------------------------
// Numerals
// ---------------------------------------------------------------------------
/// The value of a digit of the base, by its code point.
pub open spec fn digit(c: char, base: int) -> Option<int> {
    let n = c as int;
    let d = if 48 <= n <= 57 {
        n - 48
    } else if 97 <= n <= 102 {
        n - 87
    } else if 65 <= n <= 70 {
        n - 55
    } else {
        base
    };
    if d < base {
        Some(d)
    } else {
        None
    }
}

/// Reading a numeral: each digit behind the others multiplies what they write
/// by the base and adds its own value, as long as the limit is not passed.
pub proof fn numerals_are_read_digit_by_digit(
    shorter: &Vec<char>,
    longer: &Vec<char>,
    c: char,
    base: u8,
    limit: u32,
    less: Option<u32>,
    more: Option<u32>,
)
    requires
        base == 10 || base == 16,
        limit <= 0xffff,
        longer@ == shorter@.push(c),
        call_ensures(text::parse_numeral, (shorter, base, limit), less),
        call_ensures(text::parse_numeral, (longer, base, limit), more),
    ensures
        shorter@.len() == 0 ==> less is None,
        more is Some <==> ({
            &&& digit(c, base as int) is Some
            &&& shorter@.len() == 0 || less is Some
            &&& (if shorter@.len() == 0 {
                0int
            } else {
                less->0 as int
            }) * base + digit(c, base as int)->0 <= limit
        }),
        more is Some ==> more->0 == (if shorter@.len() == 0 {
            0int
        } else {
            less->0 as int
        }) * base + digit(c, base as int)->0,
{
    let s = shorter@;
    let t = longer@;
    let b = base as nat;
    assert(t.drop_last() =~= s);
    assert(digit(c, base as int) is Some <==> text::is_digit(c, b));
    assert(text::is_digit(c, b) ==> digit(c, base as int)->0 == text::hex_value(c)->0);
    if text::is_numeral(t, b) {
        assert(text::is_digit(t[t.len() - 1], b));
        assert forall|i: int| 0 <= i < s.len() implies #[trigger] text::is_digit(s[i], b) by {
            assert(text::is_digit(t[i], b));
        }
    }
    if (s.len() == 0 || text::is_numeral(s, b)) && text::is_digit(c, b) {
        assert forall|i: int| 0 <= i < t.len() implies #[trigger] text::is_digit(t[i], b) by {
            if i < s.len() {
                assert(text::is_digit(s[i], b));
            }
        }
    }
    let v = text::numeral_value(s, b);
    assert(v * b >= v) by (nonlinear_arith)
        requires
            b >= 1,
            v >= 0,
    ;
    assert(text::numeral_value(t, b) == v * b + text::hex_value(c)->0);
}

/// Writing a number: its last digit stands behind the numeral of the number
/// without it; a number of one digit is that digit.
pub proof fn numerals_are_written_digit_by_digit(
    n: u64,
    base: u8,
    whole: Vec<char>,
    rest: Vec<char>,
)
    requires
        base == 10 || base == 16,
        call_ensures(text::numeral_chars, (n, base), whole),
        call_ensures(text::numeral_chars, ((n / base as u64) as u64, base), rest),
    ensures
        ({
            let d = n as int % base as int;
            let c = whole@[whole@.len() - 1] as int;
            c == if d < 10 {
                48 + d
            } else {
                87 + d
            }
        }),
        n < base ==> whole@.len() == 1,
        n >= base ==> whole@.drop_last() == rest@,
        whole@ == text::numeral(n as nat, base as nat),
{
    let d = (n % base as u64) as nat;
    lemma_digit_code(d);
    if n >= base {
        assert(whole@.drop_last() =~= rest@);
    }
}

proof fn lemma_digit_code(d: nat)
    requires
        d < 16,
    ensures
        text::hex_digit(d) as int == if d < 10 {
            48 + d
        } else {
            87 + d
        },
{
    reveal_strlit("0123456789abcdef");
}

/// A decimal numeral is the number's numeral to the base ten.
pub proof fn decimal_is_to_the_base_ten(n: u64, s: String, chars: Vec<char>)
    requires
        call_ensures(text::decimal_string, (n,), s),
        call_ensures(text::numeral_chars, (n, 10), chars),
    ensures
        s@ == chars@,
        s@ == text::decimal(n as nat),
{
}

/// Digits have their values: a value below 16 is written as its lower-case
/// digit, and a digit of either case is read as its value.
pub proof fn digits_have_their_values(d: u8, c: char, written: char, read: Option<u8>)
    requires
        d < 16,
        call_ensures(text::hex_digit_of, (d,), written),
        call_ensures(text::hex_value_of, (c,), read),
    ensures
        written as int == if d < 10 {
            48 + d
        } else {
            87 + d
        },
        read is Some <==> digit(c, 16) is Some,
        read matches Some(v) ==> v as int == digit(c, 16)->0,
{
    lemma_digit_code(d as nat);
}

// ---------------------------------------------------------------------------
// Order
// ---------------------------------------------------------------------------
/// One text comes before another exactly where, behind what they share, it ends
/// and the other does not, or its next character has the lower code point.
pub proof fn order_is_by_the_first_difference(a: &str, b: &str, r: bool)
    requires
        call_ensures(text::is_before, (a, b), r),
    ensures
        r <==> exists|k: int|
            #![trigger a@.take(k)]
            {
                &&& 0 <= k <= a@.len()
                &&& k < b@.len()
                &&& a@.take(k) == b@.take(k)
                &&& k < a@.len() ==> (a@[k] as int) < (b@[k] as int)
            },
{
    lemma_before(a@, b@);
}

proof fn lemma_before(a: Seq<char>, b: Seq<char>)
    ensures
        text::before(a, b) <==> exists|k: int|
            #![trigger a.take(k)]
            {
                &&& 0 <= k <= a.len()
                &&& k < b.len()
                &&& a.take(k) == b.take(k)
                &&& k < a.len() ==> (a[k] as int) < (b[k] as int)
            },
    decreases a.len(),
{
    if a.len() > 0 && b.len() > 0 && a[0] == b[0] {
        let x = a.drop_first();
        let y = b.drop_first();
        lemma_before(x, y);
        if text::before(a, b) {
            let k = choose|k: int|
                #![trigger x.take(k)]
                {
                    &&& 0 <= k <= x.len()
                    &&& k < y.len()
                    &&& x.take(k) == y.take(k)
                    &&& k < x.len() ==> (x[k] as int) < (y[k] as int)
                };
            assert(a.take(k + 1) =~= seq![a[0]] + x.take(k));
            assert(b.take(k + 1) =~= seq![b[0]] + y.take(k));
        }
        if exists|k: int|
            #![trigger a.take(k)]
            {
                &&& 0 <= k <= a.len()
                &&& k < b.len()
                &&& a.take(k) == b.take(k)
                &&& k < a.len() ==> (a[k] as int) < (b[k] as int)
            } {
            let k = choose|k: int|
                #![trigger a.take(k)]
                {
                    &&& 0 <= k <= a.len()
                    &&& k < b.len()
                    &&& a.take(k) == b.take(k)
                    &&& k < a.len() ==> (a[k] as int) < (b[k] as int)
                };
            assert(k > 0);
            assert(x.take(k - 1) =~= a.take(k).drop_first());
            assert(y.take(k - 1) =~= b.take(k).drop_first());
        }
    } else if a.len() == 0 && b.len() > 0 {
        assert(a.take(0) =~= b.take(0));
    } else if a.len() > 0 && b.len() > 0 {
        assert(a.take(0) =~= b.take(0));
        if exists|k: int|
            #![trigger a.take(k)]
            {
                &&& 0 <= k <= a.len()
                &&& k < b.len()
                &&& a.take(k) == b.take(k)
                &&& k < a.len() ==> (a[k] as int) < (b[k] as int)
            } {
            let k = choose|k: int|
                #![trigger a.take(k)]
                {
                    &&& 0 <= k <= a.len()
                    &&& k < b.len()
                    &&& a.take(k) == b.take(k)
                    &&& k < a.len() ==> (a[k] as int) < (b[k] as int)
                };
            if k > 0 {
                assert(a.take(k)[0] == b.take(k)[0]);
            }
        }
    }
}

} // verus!
