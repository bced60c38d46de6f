//! Character classes and string primitives shared by the parsers.
//!
//! Strings are modelled by their character sequences (`s@`).  The classes
//! here are the Unicode `White_Space` property (what `char::is_whitespace`,
//! `str::trim` and the pattern class `\s` test) and the Unicode
//! `Decimal_Number` category (the pattern class `\d`).
use vstd::prelude::*;

verus! {

/// Appends one character to a string.
/// Trusted: `String::push` appends exactly `c` and changes nothing else.
#[verifier::external_body]
pub(crate) fn push_char(s: &mut String, c: char)
    ensures
        final(s)@ == old(s)@.push(c),
{
    s.push(c);
}

/// The characters of a string slice, in order.
pub fn chars_of(s: &str) -> (r: Vec<char>)
    ensures
        r@ == s@,
{
    let mut r: Vec<char> = Vec::new();
    for c in it: s.chars()
        invariant
            r@ == it.seq().take(it.index() as int),
            it.seq() == s@,
    {
        r.push(c);
    }
    r
}

/// Builds a string from a character sequence.
pub fn string_of(cs: &Vec<char>) -> (r: String)
    ensures
        r@ == cs@,
{
    string_of_range(cs, 0, cs.len())
}

/// Builds a string from `cs[from..to]`.
pub fn string_of_range(cs: &Vec<char>, from: usize, to: usize) -> (r: String)
    requires
        from <= to <= cs.len(),
    ensures
        r@ == cs@.subrange(from as int, to as int),
{
    let mut r = String::new();
    let mut i: usize = from;
    while i < to
        invariant
            from <= i <= to <= cs.len(),
            r@ == cs@.subrange(from as int, i as int),
        decreases to - i,
    {
        push_char(&mut r, cs[i]);
        proof {
            assert(cs@.subrange(from as int, i + 1) == cs@.subrange(from as int, i as int).push(
                cs@[i as int],
            ));
        }
        i += 1;
    }
    r
}

/// Concatenation of two strings.
pub fn concat(a: &str, b: &str) -> (r: String)
    ensures
        r@ == a@ + b@,
{
    let mut r = a.to_owned();
    r.append(b);
    r
}

// ---------------------------------------------------------------- classes

/// Unicode `White_Space`.
pub open spec fn is_ws(c: char) -> bool {
    let n = c as u32;
    ||| 9 <= n <= 13
    ||| n == 32
    ||| n == 0x85
    ||| n == 0xa0
    ||| n == 0x1680
    ||| 0x2000 <= n <= 0x200a
    ||| n == 0x2028
    ||| n == 0x2029
    ||| n == 0x202f
    ||| n == 0x205f
    ||| n == 0x3000
}

/// Whether `c` is Unicode white space.
pub fn is_whitespace(c: char) -> (r: bool)
    ensures
        r == is_ws(c),
{
    let n = c as u32;
    (9 <= n && n <= 13) || n == 32 || n == 0x85 || n == 0xa0 || n == 0x1680 || (0x2000 <= n && n
        <= 0x200a) || n == 0x2028 || n == 0x2029 || n == 0x202f || n == 0x205f || n == 0x3000
}

/// Whether `n` lies in a block of ten (or more) Unicode decimal digits.
pub open spec fn in_nd_block(n: u32) -> bool {
    ||| 48 <= n <= 57
    ||| 1632 <= n <= 1641
    ||| 1776 <= n <= 1785
    ||| 1984 <= n <= 1993
    ||| 2406 <= n <= 2415
    ||| 2534 <= n <= 2543
    ||| 2662 <= n <= 2671
    ||| 2790 <= n <= 2799
    ||| 2918 <= n <= 2927
    ||| 3046 <= n <= 3055
    ||| 3174 <= n <= 3183
    ||| 3302 <= n <= 3311
    ||| 3430 <= n <= 3439
    ||| 3558 <= n <= 3567
    ||| 3664 <= n <= 3673
    ||| 3792 <= n <= 3801
    ||| 3872 <= n <= 3881
    ||| 4160 <= n <= 4169
    ||| 4240 <= n <= 4249
    ||| 6112 <= n <= 6121
    ||| 6160 <= n <= 6169
    ||| 6470 <= n <= 6479
    ||| 6608 <= n <= 6617
    ||| 6784 <= n <= 6793
    ||| 6800 <= n <= 6809
    ||| 6992 <= n <= 7001
    ||| 7088 <= n <= 7097
    ||| 7232 <= n <= 7241
    ||| 7248 <= n <= 7257
    ||| 42528 <= n <= 42537
    ||| 43216 <= n <= 43225
    ||| 43264 <= n <= 43273
    ||| 43472 <= n <= 43481
    ||| 43504 <= n <= 43513
    ||| 43600 <= n <= 43609
    ||| 44016 <= n <= 44025
    ||| 65296 <= n <= 65305
    ||| 66720 <= n <= 66729
    ||| 68912 <= n <= 68921
    ||| 68928 <= n <= 68937
    ||| 69734 <= n <= 69743
    ||| 69872 <= n <= 69881
    ||| 69942 <= n <= 69951
    ||| 70096 <= n <= 70105
    ||| 70384 <= n <= 70393
    ||| 70736 <= n <= 70745
    ||| 70864 <= n <= 70873
    ||| 71248 <= n <= 71257
    ||| 71360 <= n <= 71369
    ||| 71376 <= n <= 71395
    ||| 71472 <= n <= 71481
    ||| 71904 <= n <= 71913
    ||| 72016 <= n <= 72025
    ||| 72688 <= n <= 72697
    ||| 72784 <= n <= 72793
    ||| 73040 <= n <= 73049
    ||| 73120 <= n <= 73129
    ||| 73552 <= n <= 73561
    ||| 90416 <= n <= 90425
    ||| 92768 <= n <= 92777
    ||| 92864 <= n <= 92873
    ||| 93008 <= n <= 93017
    ||| 93552 <= n <= 93561
    ||| 118000 <= n <= 118009
    ||| 120782 <= n <= 120831
    ||| 123200 <= n <= 123209
    ||| 123632 <= n <= 123641
    ||| 124144 <= n <= 124153
    ||| 124401 <= n <= 124410
    ||| 125264 <= n <= 125273
    ||| 130032 <= n <= 130041
}

/// Unicode `Decimal_Number` (general category Nd).
pub open spec fn is_nd(c: char) -> bool {
    in_nd_block(c as u32)
}

/// Whether `c` is a Unicode decimal digit.
pub fn is_decimal_digit(c: char) -> (r: bool)
    ensures
        r == is_nd(c),
{
    let n = c as u32;
    (48 <= n && n <= 57) || (1632 <= n && n <= 1641) || (1776 <= n && n <= 1785) || (1984 <= n
        && n <= 1993) || (2406 <= n && n <= 2415) || (2534 <= n && n <= 2543) || (2662 <= n && n
        <= 2671) || (2790 <= n && n <= 2799) || (2918 <= n && n <= 2927) || (3046 <= n && n
        <= 3055) || (3174 <= n && n <= 3183) || (3302 <= n && n <= 3311) || (3430 <= n && n
        <= 3439) || (3558 <= n && n <= 3567) || (3664 <= n && n <= 3673) || (3792 <= n && n
        <= 3801) || (3872 <= n && n <= 3881) || (4160 <= n && n <= 4169) || (4240 <= n && n
        <= 4249) || (6112 <= n && n <= 6121) || (6160 <= n && n <= 6169) || (6470 <= n && n
        <= 6479) || (6608 <= n && n <= 6617) || (6784 <= n && n <= 6793) || (6800 <= n && n
        <= 6809) || (6992 <= n && n <= 7001) || (7088 <= n && n <= 7097) || (7232 <= n && n
        <= 7241) || (7248 <= n && n <= 7257) || (42528 <= n && n <= 42537) || (43216 <= n && n
        <= 43225) || (43264 <= n && n <= 43273) || (43472 <= n && n <= 43481) || (43504 <= n
        && n <= 43513) || (43600 <= n && n <= 43609) || (44016 <= n && n <= 44025) || (65296
        <= n && n <= 65305) || (66720 <= n && n <= 66729) || (68912 <= n && n <= 68921) || (
    68928 <= n && n <= 68937) || (69734 <= n && n <= 69743) || (69872 <= n && n <= 69881) || (
    69942 <= n && n <= 69951) || (70096 <= n && n <= 70105) || (70384 <= n && n <= 70393) || (
    70736 <= n && n <= 70745) || (70864 <= n && n <= 70873) || (71248 <= n && n <= 71257) || (
    71360 <= n && n <= 71369) || (71376 <= n && n <= 71395) || (71472 <= n && n <= 71481) || (
    71904 <= n && n <= 71913) || (72016 <= n && n <= 72025) || (72688 <= n && n <= 72697) || (
    72784 <= n && n <= 72793) || (73040 <= n && n <= 73049) || (73120 <= n && n <= 73129) || (
    73552 <= n && n <= 73561) || (90416 <= n && n <= 90425) || (92768 <= n && n <= 92777) || (
    92864 <= n && n <= 92873) || (93008 <= n && n <= 93017) || (93552 <= n && n <= 93561) || (
    118000 <= n && n <= 118009) || (120782 <= n && n <= 120831) || (123200 <= n && n <= 123209)
        || (123632 <= n && n <= 123641) || (124144 <= n && n <= 124153) || (124401 <= n && n
        <= 124410) || (125264 <= n && n <= 125273) || (130032 <= n && n <= 130041)
}

/// ASCII decimal digit.
pub open spec fn is_ascii_digit(c: char) -> bool {
    '0' <= c <= '9'
}

/// The character classes the log grammars use.
#[derive(Clone, Copy, PartialEq, Eq, Structural)]
pub enum CharClass {
    /// `\s`
    Space,
    /// `\S`
    NonSpace,
    /// `\d`
    Digit,
    /// `[^/\s:)]`: a character of a package path segment.
    Segment,
    /// `[^']`
    NotQuote,
    /// `[^)]`
    NotParen,
    /// any character but a line feed
    NotNewline,
}

pub open spec fn in_class(k: CharClass, c: char) -> bool {
    match k {
        CharClass::Space => is_ws(c),
        CharClass::NonSpace => !is_ws(c),
        CharClass::Digit => is_nd(c),
        CharClass::Segment => c != '/' && c != ':' && c != ')' && !is_ws(c),
        CharClass::NotQuote => c != '\'',
        CharClass::NotParen => c != ')',
        CharClass::NotNewline => c != '\n',
    }
}

/// Whether `c` belongs to class `k`.
pub fn class_has(k: CharClass, c: char) -> (r: bool)
    ensures
        r == in_class(k, c),
{
    match k {
        CharClass::Space => is_whitespace(c),
        CharClass::NonSpace => !is_whitespace(c),
        CharClass::Digit => is_decimal_digit(c),
        CharClass::Segment => c != '/' && c != ':' && c != ')' && !is_whitespace(c),
        CharClass::NotQuote => c != '\'',
        CharClass::NotParen => c != ')',
        CharClass::NotNewline => c != '\n',
    }
}

/// End of the longest run of class-`k` characters that starts at `i`.
pub open spec fn run_end(s: Seq<char>, i: int, k: CharClass) -> int
    decreases s.len() - i,
{
    if 0 <= i < s.len() && in_class(k, s[i]) {
        run_end(s, i + 1, k)
    } else {
        i
    }
}

pub proof fn lemma_run_end(s: Seq<char>, i: int, k: CharClass)
    requires
        0 <= i <= s.len(),
    ensures
        i <= run_end(s, i, k) <= s.len(),
        forall|j: int| i <= j < run_end(s, i, k) ==> in_class(k, #[trigger] s[j]),
        run_end(s, i, k) < s.len() ==> !in_class(k, s[run_end(s, i, k)]),
    decreases s.len() - i,
{
    if i < s.len() && in_class(k, s[i]) {
        lemma_run_end(s, i + 1, k);
    }
}

/// Index just past the longest class-`k` run starting at `i`.
pub fn scan_run(s: &Vec<char>, i: usize, k: CharClass) -> (r: usize)
    requires
        i <= s.len(),
    ensures
        r == run_end(s@, i as int, k),
        i <= r <= s.len(),
{
    let mut j = i;
    while j < s.len() && class_has(k, s[j])
        invariant
            i <= j <= s.len(),
            run_end(s@, i as int, k) == run_end(s@, j as int, k),
        decreases s.len() - j,
    {
        j += 1;
    }
    proof {
        lemma_run_end(s@, i as int, k);
    }
    j
}

// ---------------------------------------------------------------- literals

/// `p` occurs in `s` at index `i`.
pub open spec fn starts_at(s: Seq<char>, i: int, p: Seq<char>) -> bool {
    0 <= i && i + p.len() <= s.len() && s.subrange(i, i + p.len()) == p
}

/// Whether `p` occurs in `s` at index `i`.
pub fn occurs_at(s: &Vec<char>, i: usize, p: &Vec<char>) -> (r: bool)
    ensures
        r == starts_at(s@, i as int, p@),
{
    if i > s.len() || p.len() > s.len() - i {
        return false;
    }
    let mut j: usize = 0;
    while j < p.len()
        invariant
            i + p.len() <= s.len(),
            j <= p.len(),
            forall|k: int| 0 <= k < j ==> s@[i + k] == p@[k],
        decreases p.len() - j,
    {
        if s[i + j] != p[j] {
            proof {
                assert(s@.subrange(i as int, i + p.len())[j as int] != p@[j as int]);
            }
            return false;
        }
        j += 1;
    }
    proof {
        assert(s@.subrange(i as int, i + p.len()) =~= p@);
    }
    true
}

/// `p` occurs somewhere in `s`.
pub open spec fn has_sub(s: Seq<char>, p: Seq<char>) -> bool {
    exists|i: int| starts_at(s, i, p)
}

/// Whether `p` occurs in `s`.
pub fn contains_seq(s: &Vec<char>, p: &Vec<char>) -> (r: bool)
    ensures
        r == has_sub(s@, p@),
{
    if p.len() == 0 {
        proof {
            assert(starts_at(s@, 0, p@)) by {
                assert(s@.subrange(0, 0) =~= p@);
            }
        }
        return true;
    }
    let mut i: usize = 0;
    while i < s.len()
        invariant
            i <= s.len(),
            forall|k: int| 0 <= k < i ==> !starts_at(s@, k, p@),
        decreases s.len() - i,
    {
        if occurs_at(s, i, p) {
            return true;
        }
        i += 1;
    }
    proof {
        assert forall|k: int| !starts_at(s@, k, p@) by {
            if 0 <= k < i {
            }
        }
    }
    false
}

/// Whether string `s` contains `p`.
pub fn str_contains(s: &str, p: &str) -> (r: bool)
    ensures
        r == has_sub(s@, p@),
{
    let sv = chars_of(s);
    let pv = chars_of(p);
    contains_seq(&sv, &pv)
}

/// Whether `s` starts with `p`.
pub fn str_starts_with(s: &str, p: &str) -> (r: bool)
    ensures
        r == starts_at(s@, 0, p@),
{
    let sv = chars_of(s);
    let pv = chars_of(p);
    occurs_at(&sv, 0, &pv)
}

/// Character-wise equality of two strings.
pub fn str_eq(a: &str, b: &str) -> (r: bool)
    ensures
        r == (a@ == b@),
{
    let av = chars_of(a);
    let bv = chars_of(b);
    if av.len() != bv.len() {
        return false;
    }
    let r = occurs_at(&av, 0, &bv);
    proof {
        assert(av@.subrange(0, bv@.len() as int) =~= av@);
    }
    r
}

// ---------------------------------------------------------------- trimming

/// `s` without its leading white space.
pub open spec fn trim_start(s: Seq<char>) -> Seq<char>
    decreases s.len(),
{
    if s.len() > 0 && is_ws(s[0]) {
        trim_start(s.drop_first())
    } else {
        s
    }
}

/// `s` without its trailing white space.
pub open spec fn trim_end(s: Seq<char>) -> Seq<char>
    decreases s.len(),
{
    if s.len() > 0 && is_ws(s.last()) {
        trim_end(s.drop_last())
    } else {
        s
    }
}

/// `s` without leading and trailing white space (`str::trim`).
pub open spec fn trim(s: Seq<char>) -> Seq<char> {
    trim_end(trim_start(s))
}

proof fn lemma_trim_start_skip(s: Seq<char>, i: int)
    requires
        0 <= i <= s.len(),
        forall|k: int| 0 <= k < i ==> is_ws(#[trigger] s[k]),
    ensures
        trim_start(s) == trim_start(s.skip(i)),
    decreases i,
{
    if i > 0 {
        assert(s.drop_first().skip(i - 1) =~= s.skip(i));
        lemma_trim_start_skip(s.drop_first(), i - 1);
    } else {
        assert(s.skip(0) =~= s);
    }
}

proof fn lemma_trim_end_take(s: Seq<char>, j: int)
    requires
        0 <= j <= s.len(),
        forall|k: int| j <= k < s.len() ==> is_ws(#[trigger] s[k]),
    ensures
        trim_end(s) == trim_end(s.take(j)),
    decreases s.len() - j,
{
    if j < s.len() {
        assert(s.drop_last().take(j) =~= s.take(j));
        lemma_trim_end_take(s.drop_last(), j);
    } else {
        assert(s.take(j) =~= s);
    }
}

/// Bounds of `trim(s)` inside `s`: the trimmed text is `s[a..b]`.
pub fn trim_bounds(s: &Vec<char>) -> (r: (usize, usize))
    ensures
        r.0 <= r.1 <= s.len(),
        s@.subrange(r.0 as int, r.1 as int) == trim(s@),
        s@.subrange(r.0 as int, s.len() as int) == trim_start(s@),
{
    let mut a: usize = 0;
    while a < s.len() && is_whitespace(s[a])
        invariant
            a <= s.len(),
            forall|k: int| 0 <= k < a ==> is_ws(#[trigger] s@[k]),
        decreases s.len() - a,
    {
        a += 1;
    }
    let ghost t = s@.skip(a as int);
    proof {
        lemma_trim_start_skip(s@, a as int);
        assert(trim_start(t) == t);
        assert(t =~= s@.subrange(a as int, s.len() as int));
    }
    let mut b: usize = s.len();
    while b > a && is_whitespace(s[b - 1])
        invariant
            a <= b <= s.len(),
            forall|k: int| b <= k < s.len() ==> is_ws(#[trigger] s@[k]),
        decreases b,
    {
        b -= 1;
    }
    proof {
        let bb = (b - a) as int;
        assert forall|k: int| bb <= k < t.len() implies is_ws(#[trigger] t[k]) by {
            assert(t[k] == s@[a + k]);
        }
        lemma_trim_end_take(t, bb);
        let u = t.take(bb);
        if u.len() > 0 {
            assert(u.last() == s@[b - 1]);
        }
        assert(trim_end(u) == u);
        assert(u =~= s@.subrange(a as int, b as int));
    }
    (a, b)
}

/// `str::trim`.
pub fn trim_str(s: &str) -> (r: String)
    ensures
        r@ == trim(s@),
{
    let v = chars_of(s);
    let (a, b) = trim_bounds(&v);
    string_of_range(&v, a, b)
}

/// `str::trim_start`.
pub fn trim_start_str(s: &str) -> (r: String)
    ensures
        r@ == trim_start(s@),
{
    let v = chars_of(s);
    let (a, _b) = trim_bounds(&v);
    string_of_range(&v, a, v.len())
}

// ---------------------------------------------------------------- numbers

/// Value of a digit character.
pub open spec fn digit_val(c: char) -> nat {
    ((c as u32) - ('0' as u32)) as nat
}

/// Value of a run of ASCII digits.
pub open spec fn digits_value(s: Seq<char>) -> nat
    decreases s.len(),
{
    if s.len() == 0 {
        0
    } else {
        digits_value(s.drop_last()) * 10 + digit_val(s.last())
    }
}

pub open spec fn all_ascii_digits(s: Seq<char>) -> bool {
    forall|i: int| 0 <= i < s.len() ==> is_ascii_digit(#[trigger] s[i])
}

/// The digits that `from_str` of an unsigned integer reads: one leading `+` is allowed.
pub open spec fn unsigned_body(s: Seq<char>) -> Seq<char> {
    if s.len() > 0 && s[0] == '+' {
        s.drop_first()
    } else {
        s
    }
}

/// What `str::parse` of an unsigned integer no greater than `max` gives.
pub open spec fn parse_unsigned(s: Seq<char>, max: nat) -> Option<nat> {
    let b = unsigned_body(s);
    if b.len() > 0 && all_ascii_digits(b) && digits_value(b) <= max {
        Some(digits_value(b))
    } else {
        None
    }
}

/// Parses the unsigned decimal number in `s[from..to]` up to `max`.
pub fn parse_unsigned_range(s: &Vec<char>, from: usize, to: usize, max: u64) -> (r: Option<u64>)
    requires
        from <= to <= s.len(),
        max >= 9,
    ensures
        r matches Some(v) ==> parse_unsigned(s@.subrange(from as int, to as int), max as nat)
            == Some(v as nat),
        r is None ==> parse_unsigned(s@.subrange(from as int, to as int), max as nat) is None,
{
    let ghost whole = s@.subrange(from as int, to as int);
    let mut start = from;
    if from < to && s[from] == '+' {
        start = from + 1;
    }
    let ghost body = s@.subrange(start as int, to as int);
    proof {
        assert(unsigned_body(whole) =~= body);
    }
    if start == to {
        return None;
    }
    let mut acc: u64 = 0;
    let mut over = false;
    let mut i = start;
    while i < to
        invariant
            start <= i <= to <= s.len(),
            body == s@.subrange(start as int, to as int),
            unsigned_body(s@.subrange(from as int, to as int)) == body,
            from <= start,
            all_ascii_digits(body.take(i - start)),
            !over ==> acc as nat == digits_value(body.take(i - start)),
            !over ==> acc <= max,
            max >= 9,
            over ==> digits_value(body.take(i - start)) > max,
        decreases to - i,
    {
        let c = s[i];
        proof {
            assert(body[i - start] == c);
        }
        if !('0' <= c && c <= '9') {
            proof {
                assert(!is_ascii_digit(body[i - start]));
                assert(!all_ascii_digits(body));
            }
            return None;
        }
        let d = ((c as u32) - ('0' as u32)) as u64;
        assert(d <= 9);
        proof {
            let pre = body.take(i - start);
            let nxt = body.take(i - start + 1);
            assert(nxt.drop_last() =~= pre);
            assert(nxt.last() == c);
            assert forall|j: int| 0 <= j < nxt.len() implies is_ascii_digit(#[trigger] nxt[j]) by {
                if j < pre.len() {
                    assert(nxt[j] == pre[j]);
                }
            }
        }
        if !over {
            if acc > (max - d) / 10 {
                over = true;
                proof {
                    assert(acc * 10 + d > max) by (nonlinear_arith)
                        requires
                            acc > (max - d) / 10,
                            d <= max,
                    ;
                }
            } else {
                proof {
                    assert(acc * 10 + d <= max) by (nonlinear_arith)
                        requires
                            acc <= (max - d) / 10,
                    ;
                }
                acc = acc * 10 + d;
            }
        }
        i += 1;
    }
    proof {
        assert(body.take(to - start) =~= body);
    }
    if over {
        None
    } else {
        Some(acc)
    }
}

} // verus!

verus! {

// ---------------------------------------------------------------- formatting

/// The character of digit `d` (0..=9).
pub open spec fn digit_char(d: nat) -> char {
    ((d + 48) as u8) as char
}

/// Decimal rendering of `n` (`format!("{}", n)`).
pub open spec fn decimal(n: nat) -> Seq<char>
    decreases n,
{
    if n < 10 {
        seq![digit_char(n)]
    } else {
        decimal(n / 10).push(digit_char(n % 10))
    }
}

/// A decimal rendering is a run of ASCII digits with the rendered value.
pub proof fn lemma_decimal_digits(n: nat)
    ensures
        decimal(n).len() > 0,
        all_ascii_digits(decimal(n)),
        digits_value(decimal(n)) == n,
    decreases n,
{
    let d = decimal(n);
    if n < 10 {
        assert(d.drop_last() =~= seq![]);
        assert(digit_val(d.last()) == n);
        assert(digits_value(d) == digits_value(d.drop_last()) * 10 + digit_val(d.last()));
    } else {
        lemma_decimal_digits(n / 10);
        let p = decimal(n / 10);
        assert(d.drop_last() =~= p);
        assert(digit_val(d.last()) == n % 10);
        assert(digits_value(d) == digits_value(p) * 10 + n % 10);
        assert((n / 10) * 10 + n % 10 == n) by (nonlinear_arith);
        assert forall|i: int| 0 <= i < d.len() implies is_ascii_digit(#[trigger] d[i]) by {
            if i < p.len() {
                assert(d[i] == p[i]);
            }
        }
    }
}

/// What `str::parse` reads back from `format!("{}", n)`, surrounding white space trimmed.
pub proof fn lemma_decimal_reads_back(n: nat, max: nat)
    requires
        n <= max,
    ensures
        parse_unsigned(trim(decimal(n)), max) == Some(n),
{
    lemma_decimal_digits(n);
    let d = decimal(n);
    assert(is_ascii_digit(d[0]));
    assert(is_ascii_digit(d.last()));
    assert(trim_start(d) == d);
    assert(trim_end(d) == d);
    assert(unsigned_body(d) == d);
}

/// `format!("{}", n)` for an unsigned integer.
pub fn decimal_string(n: u64) -> (r: String)
    ensures
        r@ == decimal(n as nat),
    decreases n,
{
    if n < 10 {
        let mut s = String::new();
        push_char(&mut s, ((n as u8) + 48) as char);
        s
    } else {
        let mut s = decimal_string(n / 10);
        push_char(&mut s, (((n % 10) as u8) + 48) as char);
        s
    }
}

} // verus!

verus! {

// ---------------------------------------------------------------- lines

/// A line as `str::lines` yields it: a `\r` right before the line feed is dropped.
pub open spec fn without_cr(l: Seq<char>) -> Seq<char> {
    if l.len() > 0 && l.last() == '\r' {
        l.drop_last()
    } else {
        l
    }
}

/// The lines of `s` (`str::lines`): split at each `\n`, a `\r` before the `\n`
/// dropped, no empty line after a final `\n`.
pub open spec fn lines(s: Seq<char>) -> Seq<Seq<char>>
    decreases s.len(),
{
    if s.len() == 0 {
        seq![]
    } else {
        let k = run_end(s, 0, CharClass::NotNewline);
        if k >= s.len() {
            seq![s]
        } else if k < 0 {
            seq![]
        } else {
            seq![without_cr(s.take(k))] + lines(s.skip(k + 1))
        }
    }
}

/// The first line of `s`, if it has any.
pub fn first_line(s: &Vec<char>) -> (r: Option<(usize, usize)>)
    ensures
        match r {
            Some(b) => b.0 <= b.1 <= s.len() && lines(s@).len() > 0 && lines(s@)[0] == s@.subrange(
                b.0 as int,
                b.1 as int,
            ),
            None => lines(s@).len() == 0,
        },
{
    if s.len() == 0 {
        return None;
    }
    let k = scan_run(s, 0, CharClass::NotNewline);
    proof {
        lemma_run_end(s@, 0, CharClass::NotNewline);
    }
    if k == s.len() {
        proof {
            assert(s@.subrange(0, s.len() as int) =~= s@);
        }
        return Some((0, k));
    }
    proof {
        assert(s@.take(k as int) =~= s@.subrange(0, k as int));
    }
    if k > 0 && s[k - 1] == '\r' {
        proof {
            assert(s@.take(k as int).drop_last() =~= s@.subrange(0, k - 1));
        }
        Some((0, k - 1))
    } else {
        Some((0, k))
    }
}

/// `sp` delimits `l` inside `s`.
pub open spec fn span_of(sp: (usize, usize), s: Seq<char>, l: Seq<char>) -> bool {
    sp.0 <= sp.1 && sp.1 <= s.len() && s.subrange(sp.0 as int, sp.1 as int) == l
}

/// `spans[j]` delimits `ls[j]` inside `s`, for every `j`.
pub open spec fn spans_of(spans: Seq<(usize, usize)>, s: Seq<char>, ls: Seq<Seq<char>>) -> bool {
    spans.len() == ls.len() && forall|j: int|
        0 <= j < spans.len() ==> #[trigger] span_of(spans[j], s, ls[j])
}

proof fn lemma_spans_push(
    spans: Seq<(usize, usize)>,
    s: Seq<char>,
    ls: Seq<Seq<char>>,
    sp: (usize, usize),
    l: Seq<char>,
)
    requires
        spans_of(spans, s, ls),
        span_of(sp, s, l),
    ensures
        spans_of(spans.push(sp), s, ls.push(l)),
{
    assert forall|j: int| 0 <= j < spans.push(sp).len() implies #[trigger] span_of(
        spans.push(sp)[j],
        s,
        ls.push(l)[j],
    ) by {
        if j < spans.len() {
            assert(span_of(spans[j], s, ls[j]));
        }
    }
}

/// Splits `s` into its lines, as `(start, end)` bounds.
pub fn line_bounds(s: &Vec<char>) -> (r: Vec<(usize, usize)>)
    ensures
        spans_of(r@, s@, lines(s@)),
{
    let mut out: Vec<(usize, usize)> = Vec::new();
    let mut i: usize = 0;
    let ghost mut done: Seq<Seq<char>> = seq![];
    proof {
        assert(s@.skip(0) =~= s@);
    }
    while i < s.len()
        invariant
            i <= s.len(),
            spans_of(out@, s@, done),
            lines(s@) == done + lines(s@.skip(i as int)),
        decreases s.len() - i,
    {
        let ghost t = s@.skip(i as int);
        let k = scan_run(s, i, CharClass::NotNewline);
        proof {
            lemma_run_end(s@, i as int, CharClass::NotNewline);
            lemma_run_end(t, 0, CharClass::NotNewline);
            lemma_run_end_shift(s@, i as int, 0);
        }
        if k == s.len() {
            proof {
                assert(run_end(t, 0, CharClass::NotNewline) == t.len());
                assert(lines(t) == seq![t]);
                assert(t =~= s@.subrange(i as int, k as int));
                lemma_spans_push(out@, s@, done, (i, k), t);
            }
            out.push((i, k));
            proof {
                done = done.push(t);
                assert(lines(s@.skip(k as int)) =~= seq![]) by {
                    assert(s@.skip(k as int).len() == 0);
                }
                assert(lines(s@) =~= done + lines(s@.skip(k as int)));
            }
            i = k;
        } else {
            let ghost l = t.take(k - i);
            proof {
                assert(l =~= s@.subrange(i as int, k as int));
                assert(t.skip(k - i + 1) =~= s@.skip(k + 1));
                assert(lines(t) == seq![without_cr(l)] + lines(s@.skip(k + 1)));
            }
            let e = if k > i && s[k - 1] == '\r' {
                proof {
                    assert(l.last() == s@[k - 1]);
                    assert(l.drop_last() =~= s@.subrange(i as int, k - 1));
                    assert(without_cr(l) == s@.subrange(i as int, k - 1));
                }
                k - 1
            } else {
                proof {
                    if k > i {
                        assert(l.last() == s@[k - 1]);
                    }
                    assert(without_cr(l) == l);
                }
                k
            };
            proof {
                lemma_spans_push(out@, s@, done, (i, e), without_cr(l));
            }
            out.push((i, e));
            proof {
                done = done.push(without_cr(l));
                assert(lines(s@) =~= done + lines(s@.skip(k + 1)));
            }
            i = k + 1;
        }
    }
    proof {
        assert(lines(s@.skip(i as int)) =~= seq![]) by {
            assert(s@.skip(i as int).len() == 0);
        }
        assert(lines(s@) =~= done);
    }
    out
}

/// `run_end` on a suffix is `run_end` on the whole, shifted.
pub proof fn lemma_run_end_shift(s: Seq<char>, i: int, j: int)
    requires
        0 <= i <= s.len(),
        0 <= j <= s.len() - i,
    ensures
        run_end(s.skip(i), j, CharClass::NotNewline) + i == run_end(s, i + j, CharClass::NotNewline),
    decreases s.len() - i - j,
{
    if j < s.len() - i {
        assert(s.skip(i)[j] == s[i + j]);
        if in_class(CharClass::NotNewline, s[i + j]) {
            lemma_run_end_shift(s, i, j + 1);
        }
    }
}

// ---------------------------------------------------------------- replacing

/// `s` with every non-overlapping occurrence of `from` (scanning left to right)
/// replaced by `to` (`str::replace` with a non-empty pattern).
pub open spec fn replace_all(s: Seq<char>, from: Seq<char>, to: Seq<char>) -> Seq<char>
    decreases s.len(),
{
    if from.len() == 0 || s.len() == 0 {
        s
    } else if starts_at(s, 0, from) {
        to + replace_all(s.skip(from.len() as int), from, to)
    } else {
        seq![s[0]] + replace_all(s.drop_first(), from, to)
    }
}

proof fn lemma_starts_at_shift(s: Seq<char>, i: int, p: Seq<char>)
    requires
        0 <= i <= s.len(),
    ensures
        starts_at(s.skip(i), 0, p) == starts_at(s, i, p),
{
    if starts_at(s, i, p) {
        assert(s.skip(i).subrange(0, p.len() as int) =~= s.subrange(i, i + p.len()));
    }
    if starts_at(s.skip(i), 0, p) {
        assert(s.skip(i).subrange(0, p.len() as int) =~= s.subrange(i, i + p.len()));
    }
}

/// `str::replace(from, to)` for a non-empty `from`.
pub fn replace_str(s: &str, from: &str, to: &str) -> (r: String)
    requires
        from@.len() > 0,
    ensures
        r@ == replace_all(s@, from@, to@),
{
    let sv = chars_of(s);
    let fv = chars_of(from);
    let tv = chars_of(to);
    let mut out: Vec<char> = Vec::new();
    let mut i: usize = 0;
    proof {
        assert(sv@.skip(0) =~= sv@);
    }
    while i < sv.len()
        invariant
            i <= sv.len(),
            fv@ == from@,
            tv@ == to@,
            fv@.len() > 0,
            replace_all(sv@, fv@, tv@) == out@ + replace_all(sv@.skip(i as int), fv@, tv@),
        decreases sv.len() - i,
    {
        let ghost t = sv@.skip(i as int);
        proof {
            lemma_starts_at_shift(sv@, i as int, fv@);
        }
        if occurs_at(&sv, i, &fv) {
            let ghost before = out@;
            let mut k: usize = 0;
            while k < tv.len()
                invariant
                    k <= tv.len(),
                    out@ == before + tv@.take(k as int),
                decreases tv.len() - k,
            {
                out.push(tv[k]);
                proof {
                    assert(tv@.take(k + 1) =~= tv@.take(k as int).push(tv@[k as int]));
                }
                k += 1;
            }
            proof {
                assert(tv@.take(tv.len() as int) =~= tv@);
                assert(t.skip(fv@.len() as int) =~= sv@.skip(i + fv.len()));
                assert(replace_all(t, fv@, tv@) == tv@ + replace_all(
                    sv@.skip(i + fv.len()),
                    fv@,
                    tv@,
                ));
                assert(before + (tv@ + replace_all(sv@.skip(i + fv.len()), fv@, tv@)) =~= out@
                    + replace_all(sv@.skip(i + fv.len()), fv@, tv@));
            }
            i = i + fv.len();
        } else {
            let ghost before = out@;
            out.push(sv[i]);
            proof {
                assert(t.drop_first() =~= sv@.skip(i + 1));
                assert(t[0] == sv@[i as int]);
                assert(before + (seq![sv@[i as int]] + replace_all(sv@.skip(i + 1), fv@, tv@))
                    =~= out@ + replace_all(sv@.skip(i + 1), fv@, tv@));
            }
            i += 1;
        }
    }
    proof {
        assert(out@ + replace_all(sv@.skip(i as int), fv@, tv@) =~= out@);
    }
    string_of(&out)
}

/// Replacing keeps the replacement visible: if `from` occurs in `s`, `to`
/// occurs in the result.
pub proof fn lemma_replace_all_shows_to(s: Seq<char>, from: Seq<char>, to: Seq<char>)
    requires
        from.len() > 0,
        has_sub(s, from),
    ensures
        has_sub(replace_all(s, from, to), to),
    decreases s.len(),
{
    let w = choose|w: int| starts_at(s, w, from);
    let r = replace_all(s, from, to);
    if starts_at(s, 0, from) {
        assert(r.subrange(0, to.len() as int) =~= to);
        assert(starts_at(r, 0, to));
    } else {
        assert(w > 0);
        let t = s.drop_first();
        assert(starts_at(t, w - 1, from)) by {
            assert(t.subrange(w - 1, w - 1 + from.len()) =~= s.subrange(w, w + from.len()));
        }
        lemma_replace_all_shows_to(t, from, to);
        let rt = replace_all(t, from, to);
        let v = choose|v: int| starts_at(rt, v, to);
        assert(r == seq![s[0]] + rt);
        assert(r.subrange(v + 1, v + 1 + to.len()) =~= rt.subrange(v, v + to.len()));
        assert(starts_at(r, v + 1, to));
    }
}

/// A substring of a substring is a substring.
pub proof fn lemma_has_sub_trans(s: Seq<char>, m: Seq<char>, p: Seq<char>)
    requires
        has_sub(s, m),
        has_sub(m, p),
    ensures
        has_sub(s, p),
{
    let i = choose|i: int| starts_at(s, i, m);
    let j = choose|j: int| starts_at(m, j, p);
    assert(s.subrange(i + j, i + j + p.len()) =~= m.subrange(j, j + p.len()));
    assert(starts_at(s, i + j, p));
}

// ---------------------------------------------------------------- small predicates

/// `p` ends `s`.
pub open spec fn ends_with(s: Seq<char>, p: Seq<char>) -> bool {
    p.len() <= s.len() && starts_at(s, s.len() - p.len(), p)
}

/// Lower-case form of an ASCII letter; other characters unchanged.
pub open spec fn ascii_lower(c: char) -> char {
    if 'A' <= c <= 'Z' {
        ((c as u32) + 32) as char
    } else {
        c
    }
}

/// `p` (lower-case ASCII) occurs in `s` at `i`, ignoring ASCII case.
pub open spec fn ci_match_at(s: Seq<char>, i: int, p: Seq<char>) -> bool {
    0 <= i && i + p.len() <= s.len() && forall|k: int|
        0 <= k < p.len() ==> ascii_lower(#[trigger] s[i + k]) == p[k]
}

/// `p` (lower-case ASCII) occurs in `s` ignoring ASCII case.
pub open spec fn has_sub_ascii_ci(s: Seq<char>, p: Seq<char>) -> bool {
    exists|i: int| ci_match_at(s, i, p)
}

fn lower_char(c: char) -> (r: char)
    ensures
        r == ascii_lower(c),
{
    if 'A' <= c && c <= 'Z' {
        ((c as u8) + 32) as char
    } else {
        c
    }
}

/// Whether `p` occurs in `s` ignoring ASCII case.
pub fn contains_ascii_ci(s: &Vec<char>, p: &Vec<char>) -> (r: bool)
    requires
        p.len() > 0,
    ensures
        r == has_sub_ascii_ci(s@, p@),
{
    let mut i: usize = 0;
    while i < s.len()
        invariant
            i <= s.len(),
            p.len() > 0,
            forall|a: int| 0 <= a < i ==> !ci_match_at(s@, a, p@),
        decreases s.len() - i,
    {
        if p.len() <= s.len() - i {
            let mut k: usize = 0;
            let mut ok = true;
            while k < p.len()
                invariant
                    i + p.len() <= s.len(),
                    k <= p.len(),
                    ok ==> forall|j: int| 0 <= j < k ==> ascii_lower(#[trigger] s@[i + j]) == p@[j],
                    !ok ==> !ci_match_at(s@, i as int, p@),
                decreases p.len() - k,
            {
                if lower_char(s[i + k]) != p[k] {
                    ok = false;
                }
                k += 1;
            }
            if ok {
                proof {
                    assert(ci_match_at(s@, i as int, p@));
                }
                return true;
            }
        }
        i += 1;
    }
    proof {
        assert forall|a: int| !ci_match_at(s@, a, p@) by {
            if 0 <= a < i {
            }
        }
    }
    false
}

} // verus!
