//! Runtime download and staged upgrade of DSH: version order, the upgrade
//! record's state machine, Node archive naming and install post-processing.
use vstd::prelude::*;
use crate::fspath::FsPath;
use crate::process::join;
use crate::text::{
    all_ascii_digits, chars_of, concat, ends_with, has_sub, is_ascii_digit, line_bounds, lines,
    parse_unsigned, parse_unsigned_range,
    spans_of, span_of, starts_at, str_contains, str_eq, string_of, string_of_range, trim_start,
    trim_bounds,
};

verus! {

// ---------------------------------------------------------------- version order

/// `s` without its leading `v`s (`trim_start_matches('v')`).
pub open spec fn strip_v(s: Seq<char>) -> Seq<char>
    decreases s.len(),
{
    if s.len() > 0 && s[0] == 'v' {
        strip_v(s.drop_first())
    } else {
        s
    }
}

/// What `parse::<u64>().unwrap_or(0)` gives for a component.
pub open spec fn number_or_zero(cur: Seq<char>) -> u64 {
    match parse_unsigned(cur, u64::MAX as nat) {
        Some(v) => v as u64,
        None => 0,
    }
}

/// The numbers read so far, with the pending component appended when there is one.
pub open spec fn flush(nums: Seq<u64>, cur: Seq<char>) -> Seq<u64> {
    if cur.len() > 0 {
        nums.push(number_or_zero(cur))
    } else {
        nums
    }
}

/// Scan state after reading the release part `cs`: (numbers, pending digits).
/// `.` closes the pending component, digits accumulate, other characters are skipped.
pub open spec fn core_scan(cs: Seq<char>) -> (Seq<u64>, Seq<char>)
    decreases cs.len(),
{
    if cs.len() == 0 {
        (seq![], seq![])
    } else {
        let st = core_scan(cs.drop_last());
        let c = cs.last();
        if c == '.' {
            (flush(st.0, st.1), seq![])
        } else if '0' <= c <= '9' {
            (st.0, st.1.push(c))
        } else {
            st
        }
    }
}

/// The numbers of the release part (`major.minor.patch`, more or fewer).
pub open spec fn core_nums(cs: Seq<char>) -> Seq<u64> {
    flush(core_scan(cs).0, core_scan(cs).1)
}

/// Index of the first `c` in `s` at or after `i` (`s.len()` when there is none).
pub open spec fn find_char(s: Seq<char>, i: int, c: char) -> int
    decreases s.len() - i,
{
    if i < 0 || i >= s.len() {
        s.len() as int
    } else if s[i] == c {
        i
    } else {
        find_char(s, i + 1, c)
    }
}

/// `p` split at every `.` (`str::split('.')`): always at least one piece.
pub open spec fn split_dots(p: Seq<char>) -> Seq<Seq<char>>
    decreases p.len(),
{
    if p.len() == 0 {
        seq![seq![]]
    } else {
        let s = split_dots(p.drop_last());
        if p.last() == '.' {
            s.push(seq![])
        } else {
            s.update(s.len() - 1, s.last().push(p.last()))
        }
    }
}

/// The version text that decides the order: leading `v`s dropped, build
/// metadata (from the first `+`) ignored.
pub open spec fn precedence_text(v: Seq<char>) -> Seq<char> {
    strip_v(v).take(find_char(strip_v(v), 0, '+'))
}

/// The comparison key of a version string: the numbers of its release part and
/// the dot-separated identifiers of its pre-release (after the first `-`).
pub open spec fn version_key(v: Seq<char>) -> (Seq<u64>, Option<Seq<Seq<char>>>) {
    let t = precedence_text(v);
    let d = find_char(t, 0, '-');
    (core_nums(t.take(d)), if d < t.len() {
        Some(split_dots(t.skip(d + 1)))
    } else {
        None
    })
}

/// Lexicographic order of character sequences by scalar value (the order of
/// `String`, whose byte order under UTF-8 is the scalar order).
pub open spec fn chars_lt(a: Seq<char>, b: Seq<char>) -> bool
    decreases a.len(),
{
    if a.len() == 0 {
        b.len() > 0
    } else if b.len() == 0 {
        false
    } else if a[0] != b[0] {
        (a[0] as u32) < (b[0] as u32)
    } else {
        chars_lt(a.drop_first(), b.drop_first())
    }
}

/// Pre-release identifiers in SemVer order: numeric ones compare as numbers (by
/// length, then digit by digit, as numbers without leading zeros do) and below
/// any other; the others compare as text.
pub open spec fn ident_lt(x: Seq<char>, y: Seq<char>) -> bool {
    let nx = all_ascii_digits(x);
    let ny = all_ascii_digits(y);
    if nx && ny {
        x.len() < y.len() || (x.len() == y.len() && chars_lt(x, y))
    } else if nx {
        true
    } else if ny {
        false
    } else {
        chars_lt(x, y)
    }
}

/// Pre-releases in SemVer order: the first differing identifier decides; when
/// one list is a prefix of the other, the shorter one is lower.
pub open spec fn pre_lt(a: Seq<Seq<char>>, b: Seq<Seq<char>>) -> bool
    decreases a.len(),
{
    if a.len() == 0 {
        b.len() > 0
    } else if b.len() == 0 {
        false
    } else if a[0] != b[0] {
        ident_lt(a[0], b[0])
    } else {
        pre_lt(a.drop_first(), b.drop_first())
    }
}

/// Component `i` of the numbers, 0 when absent.
pub open spec fn nth_or_zero(n: Seq<u64>, i: int) -> u64 {
    if 0 <= i < n.len() {
        n[i]
    } else {
        0
    }
}

/// Key `a` orders strictly after key `b` (SemVer precedence): the first three
/// numbers decide; on a tie a release orders after a pre-release, and two
/// pre-releases go by their identifiers.
pub open spec fn key_after(a: (Seq<u64>, Option<Seq<Seq<char>>>), b: (Seq<u64>, Option<Seq<Seq<char>>>)) -> bool {
    if nth_or_zero(a.0, 0) != nth_or_zero(b.0, 0) {
        nth_or_zero(a.0, 0) > nth_or_zero(b.0, 0)
    } else if nth_or_zero(a.0, 1) != nth_or_zero(b.0, 1) {
        nth_or_zero(a.0, 1) > nth_or_zero(b.0, 1)
    } else if nth_or_zero(a.0, 2) != nth_or_zero(b.0, 2) {
        nth_or_zero(a.0, 2) > nth_or_zero(b.0, 2)
    } else {
        match (a.1, b.1) {
            (None, Some(_)) => true,
            (Some(x), Some(y)) => pre_lt(y, x),
            _ => false,
        }
    }
}

/// Version `a` is newer than version `b`.
pub open spec fn newer(a: Seq<char>, b: Seq<char>) -> bool {
    key_after(version_key(a), version_key(b))
}

/// Skips the leading `v`s: returns the index of the first other character.
pub(crate) fn skip_v(s: &Vec<char>) -> (r: usize)
    ensures
        r <= s.len(),
        strip_v(s@) == s@.skip(r as int),
{
    let mut i: usize = 0;
    proof {
        assert(s@.skip(0) =~= s@);
    }
    while i < s.len() && s[i] == 'v'
        invariant
            i <= s.len(),
            strip_v(s@) == strip_v(s@.skip(i as int)),
        decreases s.len() - i,
    {
        proof {
            assert(s@.skip(i as int).drop_first() =~= s@.skip(i + 1));
        }
        i += 1;
    }
    proof {
        let t = s@.skip(i as int);
        if t.len() > 0 {
            assert(t[0] == s@[i as int]);
        }
    }
    i
}

/// `find_char` is the first index of `c` from `i` on.
proof fn lemma_find_char(s: Seq<char>, i: int, k: int, c: char)
    requires
        0 <= i <= k <= s.len(),
        forall|m: int| i <= m < k ==> s[m] != c,
        k == s.len() || s[k] == c,
    ensures
        find_char(s, i, c) == k,
    decreases k - i,
{
    if i < k {
        lemma_find_char(s, i + 1, k, c);
    }
}

/// The first `c` in `s[from..to]`, as an index into `s` (`to` when there is none).
fn find_in(s: &Vec<char>, from: usize, to: usize, c: char) -> (r: usize)
    requires
        from <= to <= s.len(),
    ensures
        from <= r <= to,
        forall|m: int| from <= m < r ==> s@[m] != c,
        r == to || s@[r as int] == c,
{
    let mut k = from;
    while k < to && s[k] != c
        invariant
            from <= k <= to <= s.len(),
            forall|m: int| from <= m < k ==> s@[m] != c,
        decreases to - k,
    {
        k += 1;
    }
    k
}

/// `parse::<u64>().unwrap_or(0)` of a pending component.
fn component_value(cur: &Vec<char>) -> (r: u64)
    ensures
        r == number_or_zero(cur@),
{
    proof {
        assert(cur@.subrange(0, cur@.len() as int) =~= cur@);
    }
    match parse_unsigned_range(cur, 0, cur.len(), u64::MAX) {
        Some(v) => v,
        None => 0,
    }
}

proof fn lemma_split_dots_len(p: Seq<char>)
    ensures
        split_dots(p).len() >= 1,
    decreases p.len(),
{
    if p.len() > 0 {
        lemma_split_dots_len(p.drop_last());
    }
}

/// The comparison key of a version string.
pub fn version_key_of(v: &str) -> (r: (Vec<u64>, Option<Vec<String>>))
    ensures
        r.0@ == version_key(v@).0,
        match r.1 {
            Some(p) => version_key(v@).1 == Some(p.deep_view()),
            None => version_key(v@).1 is None,
        },
{
    let s = chars_of(v);
    let j = skip_v(&s);
    let e = find_in(&s, j, s.len(), '+');
    let d = find_in(&s, j, e, '-');
    let ghost sv = strip_v(v@);
    let ghost t = precedence_text(v@);
    proof {
        assert(sv =~= s@.subrange(j as int, s.len() as int));
        lemma_find_char(sv, 0, e - j, '+');
        assert(t =~= s@.subrange(j as int, e as int));
        assert forall|m: int| 0 <= m < d - j implies t[m] != '-' by {
            assert(t[m] == s@[j + m]);
        }
        if d < e {
            assert(t[d - j] == s@[d as int]);
        }
        lemma_find_char(t, 0, d - j, '-');
    }
    let mut nums: Vec<u64> = Vec::new();
    let mut cur: Vec<char> = Vec::new();
    let mut i = j;
    while i < d
        invariant
            j <= i <= d <= e <= s.len(),
            core_scan(s@.subrange(j as int, i as int)) == (nums@, cur@),
        decreases d - i,
    {
        let c = s[i];
        proof {
            let nxt = s@.subrange(j as int, i + 1);
            assert(nxt.drop_last() =~= s@.subrange(j as int, i as int));
            assert(nxt.last() == c);
        }
        if c == '.' {
            if cur.len() > 0 {
                let n = component_value(&cur);
                nums.push(n);
            }
            cur = Vec::new();
            proof {
                assert(cur@ =~= seq![]);
            }
        } else if '0' <= c && c <= '9' {
            cur.push(c);
        }
        i += 1;
    }
    proof {
        assert(t.take(d - j) =~= s@.subrange(j as int, d as int));
    }
    if cur.len() > 0 {
        let n = component_value(&cur);
        nums.push(n);
    }
    if d == e {
        return (nums, None);
    }
    let ghost p = s@.subrange(d + 1, e as int);
    proof {
        assert(t.skip(d - j + 1) =~= p);
    }
    let mut out: Vec<String> = Vec::new();
    let mut start = d + 1;
    let mut k = d + 1;
    proof {
        assert(s@.subrange(d + 1, d + 1) =~= seq![]);
        assert(out.deep_view().push(s@.subrange(start as int, k as int)) =~= split_dots(
            s@.subrange(d + 1, k as int),
        ));
    }
    while k < e
        invariant
            d + 1 <= start <= k <= e <= s.len(),
            out.deep_view().push(s@.subrange(start as int, k as int)) == split_dots(
                s@.subrange(d + 1, k as int),
            ),
        decreases e - k,
    {
        let c = s[k];
        let ghost before = out.deep_view();
        proof {
            let nxt = s@.subrange(d + 1, k + 1);
            assert(nxt.drop_last() =~= s@.subrange(d + 1, k as int));
            assert(nxt.last() == c);
            lemma_split_dots_len(s@.subrange(d + 1, k as int));
        }
        if c == '.' {
            let piece = crate::text::string_of_range(&s, start, k);
            out.push(piece);
            start = k + 1;
            proof {
                assert(s@.subrange(start as int, k + 1) =~= seq![]);
                assert(out.deep_view() =~= before.push(piece@));
            }
        } else {
            proof {
                assert(s@.subrange(start as int, k + 1) =~= s@.subrange(start as int, k as int).push(c));
                assert(before.push(s@.subrange(start as int, k + 1)) =~= before.push(
                    s@.subrange(start as int, k as int),
                ).update(before.len() as int, s@.subrange(start as int, k as int).push(c)));
            }
        }
        k += 1;
    }
    let piece = crate::text::string_of_range(&s, start, e);
    let ghost before = out.deep_view();
    out.push(piece);
    proof {
        assert(out.deep_view() =~= before.push(s@.subrange(start as int, e as int)));
    }
    (nums, Some(out))
}

fn nth_exec(n: &Vec<u64>, i: usize) -> (r: u64)
    ensures
        r == nth_or_zero(n@, i as int),
{
    if i < n.len() {
        n[i]
    } else {
        0
    }
}

/// Whether `a` orders before `b` character by character.
pub fn chars_less(a: &Vec<char>, b: &Vec<char>) -> (r: bool)
    ensures
        r == chars_lt(a@, b@),
{
    let mut i: usize = 0;
    proof {
        assert(a@.skip(0) =~= a@);
        assert(b@.skip(0) =~= b@);
    }
    while i < a.len() && i < b.len() && a[i] == b[i]
        invariant
            i <= a.len(),
            i <= b.len(),
            chars_lt(a@, b@) == chars_lt(a@.skip(i as int), b@.skip(i as int)),
        decreases a.len() - i,
    {
        proof {
            assert(a@.skip(i as int).drop_first() =~= a@.skip(i + 1));
            assert(b@.skip(i as int).drop_first() =~= b@.skip(i + 1));
            assert(a@.skip(i as int)[0] == a@[i as int]);
            assert(b@.skip(i as int)[0] == b@[i as int]);
        }
        i += 1;
    }
    proof {
        if i < a.len() {
            assert(a@.skip(i as int)[0] == a@[i as int]);
        }
        if i < b.len() {
            assert(b@.skip(i as int)[0] == b@[i as int]);
        }
    }
    if i == a.len() {
        i < b.len()
    } else if i == b.len() {
        false
    } else {
        (a[i] as u32) < (b[i] as u32)
    }
}

fn all_digits(x: &Vec<char>) -> (r: bool)
    ensures
        r == all_ascii_digits(x@),
{
    let mut i: usize = 0;
    while i < x.len()
        invariant
            i <= x.len(),
            forall|m: int| 0 <= m < i ==> is_ascii_digit(#[trigger] x@[m]),
        decreases x.len() - i,
    {
        if !('0' <= x[i] && x[i] <= '9') {
            proof {
                assert(!is_ascii_digit(x@[i as int]));
            }
            return false;
        }
        i += 1;
    }
    true
}

/// Whether pre-release identifier `x` orders before `y`.
pub fn ident_less(x: &String, y: &String) -> (r: bool)
    ensures
        r == ident_lt(x@, y@),
{
    let xv = chars_of(x.as_str());
    let yv = chars_of(y.as_str());
    let nx = all_digits(&xv);
    let ny = all_digits(&yv);
    if nx && ny {
        xv.len() < yv.len() || (xv.len() == yv.len() && chars_less(&xv, &yv))
    } else if nx {
        true
    } else if ny {
        false
    } else {
        chars_less(&xv, &yv)
    }
}

/// Whether pre-release `a` orders before `b`.
pub fn pre_less(a: &Vec<String>, b: &Vec<String>) -> (r: bool)
    ensures
        r == pre_lt(a.deep_view(), b.deep_view()),
{
    let ghost av = a.deep_view();
    let ghost bv = b.deep_view();
    let mut i: usize = 0;
    proof {
        assert(av.skip(0) =~= av);
        assert(bv.skip(0) =~= bv);
    }
    while i < a.len() && i < b.len() && str_eq(a[i].as_str(), b[i].as_str())
        invariant
            i <= a.len(),
            i <= b.len(),
            av == a.deep_view(),
            bv == b.deep_view(),
            pre_lt(av, bv) == pre_lt(av.skip(i as int), bv.skip(i as int)),
        decreases a.len() - i,
    {
        proof {
            assert(av.skip(i as int).drop_first() =~= av.skip(i + 1));
            assert(bv.skip(i as int).drop_first() =~= bv.skip(i + 1));
            assert(av.skip(i as int)[0] == av[i as int]);
            assert(bv.skip(i as int)[0] == bv[i as int]);
        }
        i += 1;
    }
    proof {
        if i < a.len() {
            assert(av.skip(i as int)[0] == av[i as int]);
        }
        if i < b.len() {
            assert(bv.skip(i as int)[0] == bv[i as int]);
        }
    }
    if i == a.len() {
        i < b.len()
    } else if i == b.len() {
        false
    } else {
        ident_less(&a[i], &b[i])
    }
}

/// Whether version `a` is newer than version `b` under SemVer precedence
/// (leading `v`s and build metadata ignored; missing numbers read as 0).
pub fn is_newer(a: &str, b: &str) -> (r: bool)
    ensures
        r == newer(a@, b@),
{
    let (an, ap) = version_key_of(a);
    let (bn, bp) = version_key_of(b);
    let mut i: usize = 0;
    while i < 3
        invariant
            i <= 3,
            an@ == version_key(a@).0,
            bn@ == version_key(b@).0,
            forall|k: int| 0 <= k < i ==> nth_or_zero(an@, k) == nth_or_zero(bn@, k),
        decreases 3 - i,
    {
        let av = nth_exec(&an, i);
        let bv = nth_exec(&bn, i);
        if av != bv {
            proof {
                if i == 0 {
                } else if i == 1 {
                    assert(nth_or_zero(an@, 0) == nth_or_zero(bn@, 0));
                } else {
                    assert(nth_or_zero(an@, 0) == nth_or_zero(bn@, 0));
                    assert(nth_or_zero(an@, 1) == nth_or_zero(bn@, 1));
                }
            }
            return av > bv;
        }
        i += 1;
    }
    proof {
        assert(nth_or_zero(an@, 0) == nth_or_zero(bn@, 0));
        assert(nth_or_zero(an@, 1) == nth_or_zero(bn@, 1));
        assert(nth_or_zero(an@, 2) == nth_or_zero(bn@, 2));
    }
    match (ap, bp) {
        (None, Some(_)) => true,
        (Some(_), None) => false,
        (Some(x), Some(y)) => pre_less(&y, &x),
        (None, None) => false,
    }
}

// ---------------------------------------------------------------- laws of the order

proof fn lemma_chars_lt_irreflexive(a: Seq<char>)
    ensures
        !chars_lt(a, a),
    decreases a.len(),
{
    if a.len() > 0 {
        lemma_chars_lt_irreflexive(a.drop_first());
    }
}

proof fn lemma_chars_lt_asymmetric(a: Seq<char>, b: Seq<char>)
    ensures
        chars_lt(a, b) ==> !chars_lt(b, a),
    decreases a.len(),
{
    if a.len() > 0 && b.len() > 0 && a[0] == b[0] {
        lemma_chars_lt_asymmetric(a.drop_first(), b.drop_first());
    }
}

proof fn lemma_chars_lt_transitive(a: Seq<char>, b: Seq<char>, c: Seq<char>)
    requires
        chars_lt(a, b),
        chars_lt(b, c),
    ensures
        chars_lt(a, c),
    decreases a.len(),
{
    if a.len() > 0 && b.len() > 0 && c.len() > 0 && a[0] == b[0] && b[0] == c[0] {
        lemma_chars_lt_transitive(a.drop_first(), b.drop_first(), c.drop_first());
    }
}

proof fn lemma_ident_lt_order(x: Seq<char>, y: Seq<char>, z: Seq<char>)
    ensures
        !ident_lt(x, x),
        ident_lt(x, y) ==> !ident_lt(y, x),
        ident_lt(x, y) && ident_lt(y, z) ==> ident_lt(x, z),
{
    lemma_chars_lt_irreflexive(x);
    lemma_chars_lt_asymmetric(x, y);
    if chars_lt(x, y) && chars_lt(y, z) {
        lemma_chars_lt_transitive(x, y, z);
    }
}

proof fn lemma_pre_lt_irreflexive(a: Seq<Seq<char>>)
    ensures
        !pre_lt(a, a),
    decreases a.len(),
{
    if a.len() > 0 {
        lemma_pre_lt_irreflexive(a.drop_first());
    }
}

proof fn lemma_pre_lt_asymmetric(a: Seq<Seq<char>>, b: Seq<Seq<char>>)
    ensures
        pre_lt(a, b) ==> !pre_lt(b, a),
    decreases a.len(),
{
    if a.len() > 0 && b.len() > 0 {
        if a[0] == b[0] {
            lemma_pre_lt_asymmetric(a.drop_first(), b.drop_first());
        } else {
            lemma_ident_lt_order(a[0], b[0], b[0]);
        }
    }
}

proof fn lemma_pre_lt_transitive(a: Seq<Seq<char>>, b: Seq<Seq<char>>, c: Seq<Seq<char>>)
    requires
        pre_lt(a, b),
        pre_lt(b, c),
    ensures
        pre_lt(a, c),
    decreases a.len(),
{
    if a.len() > 0 && b.len() > 0 && c.len() > 0 {
        if a[0] == b[0] && b[0] == c[0] {
            lemma_pre_lt_transitive(a.drop_first(), b.drop_first(), c.drop_first());
        } else if a[0] != b[0] && b[0] != c[0] {
            lemma_ident_lt_order(a[0], b[0], c[0]);
            lemma_ident_lt_order(c[0], a[0], b[0]);
            lemma_ident_lt_order(a[0], b[0], a[0]);
        }
    }
}

/// No version is newer than itself.
pub proof fn is_newer_irreflexive(a: Seq<char>)
    ensures
        !newer(a, a),
{
    let k = version_key(a);
    if let Some(x) = k.1 {
        lemma_pre_lt_irreflexive(x);
    }
}

/// Of two versions at most one is newer than the other.
pub proof fn is_newer_asymmetric(a: Seq<char>, b: Seq<char>)
    ensures
        newer(a, b) ==> !newer(b, a),
{
    let ka = version_key(a);
    let kb = version_key(b);
    if let (Some(x), Some(y)) = (ka.1, kb.1) {
        lemma_pre_lt_asymmetric(y, x);
    }
}

/// Newer than a version that is newer than a third is newer than the third.
pub proof fn is_newer_transitive(a: Seq<char>, b: Seq<char>, c: Seq<char>)
    requires
        newer(a, b),
        newer(b, c),
    ensures
        newer(a, c),
{
    let ka = version_key(a);
    let kb = version_key(b);
    let kc = version_key(c);
    if let (Some(x), Some(y), Some(z)) = (ka.1, kb.1, kc.1) {
        if pre_lt(y, x) && pre_lt(z, y) {
            lemma_pre_lt_transitive(z, y, x);
        }
    }
}

// ---------------------------------------------------------------- the upgrade record

/// The upgrade record `<home>/.update.json`, field by field: each is `Some`
/// when the field holds a string.
pub struct UpdateRecord {
    pub status: Option<String>,
    pub staged_version: Option<String>,
    pub from_version: Option<String>,
    pub bad_version: Option<String>,
    pub app_version: Option<String>,
}

/// The mathematical content of an upgrade record.
pub struct UpdateRecordModel {
    pub status: Option<Seq<char>>,
    pub staged_version: Option<Seq<char>>,
    pub from_version: Option<Seq<char>>,
    pub bad_version: Option<Seq<char>>,
    pub app_version: Option<Seq<char>>,
}

impl View for UpdateRecord {
    type V = UpdateRecordModel;

    open spec fn view(&self) -> UpdateRecordModel {
        UpdateRecordModel {
            status: self.status.deep_view(),
            staged_version: self.staged_version.deep_view(),
            from_version: self.from_version.deep_view(),
            bad_version: self.bad_version.deep_view(),
            app_version: self.app_version.deep_view(),
        }
    }
}

fn status_is(r: &UpdateRecord, s: &str) -> (b: bool)
    ensures
        b == (r@.status == Some(s@)),
{
    match &r.status {
        Some(x) => str_eq(x.as_str(), s),
        None => false,
    }
}

/// The record that staging writes: version `target` is staged and ready.
pub open spec fn staged_model(target: Seq<char>) -> UpdateRecordModel {
    UpdateRecordModel {
        status: Some("ready"@),
        staged_version: Some(target),
        from_version: None,
        bad_version: None,
        app_version: None,
    }
}

/// The record written when staging `target` finished.
pub fn staged_record(target: &str) -> (r: UpdateRecord)
    ensures
        r@ == staged_model(target@),
{
    UpdateRecord {
        status: Some("ready".to_owned()),
        staged_version: Some(target.to_owned()),
        from_version: None,
        bad_version: None,
        app_version: None,
    }
}

/// The record written just before a staged version replaces the current one.
pub open spec fn applying_model(staged: Seq<char>, from: Option<Seq<char>>) -> UpdateRecordModel {
    UpdateRecordModel {
        status: Some("applying"@),
        staged_version: Some(staged),
        from_version: from,
        bad_version: None,
        app_version: None,
    }
}

/// What start-up does with the upgrade record.
pub enum ApplyPlan {
    /// Leave everything as it is.
    Skip,
    /// The staged version is not newer than the current one: delete the record.
    Discard,
    /// Promote the staged version, first writing the given `applying` record.
    Promote(UpdateRecord),
}

pub open spec fn apply_plan_is(p: ApplyPlan, rec: UpdateRecordModel, current: Option<Seq<char>>) -> bool {
    if rec.status != Some("ready"@) || rec.staged_version is None {
        p is Skip
    } else {
        let v = rec.staged_version->0;
        match current {
            Some(c) => if !newer(v, c) {
                p is Discard
            } else {
                (p matches ApplyPlan::Promote(a) && a@ == applying_model(v, current))
            },
            None => (p matches ApplyPlan::Promote(a) && a@ == applying_model(v, current)),
        }
    }
}

/// Decides at start-up whether a staged upgrade is promoted: only a `ready`
/// record with a staged version is acted on; a staged version that is not
/// newer than the current one (when that is known) is discarded.
pub fn apply_staged_if_ready(rec: &UpdateRecord, current: &Option<String>) -> (r: ApplyPlan)
    ensures
        apply_plan_is(r, rec@, current.deep_view()),
{
    if !status_is(rec, "ready") {
        return ApplyPlan::Skip;
    }
    let v = match &rec.staged_version {
        Some(v) => v,
        None => {
            return ApplyPlan::Skip;
        },
    };
    match current {
        Some(c) => {
            if !is_newer(v.as_str(), c.as_str()) {
                return ApplyPlan::Discard;
            }
        },
        None => {},
    }
    ApplyPlan::Promote(
        UpdateRecord {
            status: Some("applying".to_owned()),
            staged_version: Some(v.clone()),
            from_version: current.clone(),
            bad_version: None,
            app_version: None,
        },
    )
}

/// After a successful start: the record is deleted exactly when an upgrade was
/// being applied.
pub fn clear_applying(rec: &UpdateRecord) -> (r: bool)
    ensures
        r == (rec@.status == Some("applying"@)),
{
    status_is(rec, "applying")
}

/// The record written when a just-promoted version failed to start: the
/// version is marked bad, for the app version that found it bad.
pub open spec fn failed_model(bad: Seq<char>, app_version: Seq<char>) -> UpdateRecordModel {
    UpdateRecordModel {
        status: Some("failed"@),
        staged_version: None,
        from_version: None,
        bad_version: Some(bad),
        app_version: Some(app_version),
    }
}

/// The record that a failed start leaves behind: when an upgrade was being
/// applied, its staged version (empty when absent) is marked bad.
pub open spec fn rollback_model(rec: UpdateRecordModel, app_version: Seq<char>) -> Option<UpdateRecordModel> {
    if rec.status == Some("applying"@) {
        Some(
            failed_model(
                match rec.staged_version {
                    Some(v) => v,
                    None => Seq::<char>::empty(),
                },
                app_version,
            ),
        )
    } else {
        None
    }
}

/// After a failed start: when an upgrade was being applied, the record to write
/// (the previous version is restored from the backup); otherwise nothing.
pub fn rollback_after_failure(rec: &UpdateRecord, app_version: &str) -> (r: Option<UpdateRecord>)
    ensures
        match rollback_model(rec@, app_version@) {
            Some(m) => r matches Some(f) && f@ == m,
            None => r is None,
        },
{
    if !status_is(rec, "applying") {
        return None;
    }
    let bad = match &rec.staged_version {
        Some(v) => v.clone(),
        None => String::new(),
    };
    Some(
        UpdateRecord {
            status: Some("failed".to_owned()),
            staged_version: None,
            from_version: None,
            bad_version: Some(bad),
            app_version: Some(app_version.to_owned()),
        },
    )
}

pub open spec fn bad_version_of(rec: UpdateRecordModel, app_version: Seq<char>) -> Option<Seq<char>> {
    if rec.status == Some("failed"@) && rec.app_version == Some(app_version) {
        rec.bad_version
    } else {
        None
    }
}

/// The version known to be bad, when the record marks one for this app version.
pub fn read_bad_version(rec: &UpdateRecord, app_version: &str) -> (r: Option<String>)
    ensures
        r.deep_view() == bad_version_of(rec@, app_version@),
{
    if !status_is(rec, "failed") {
        return None;
    }
    match &rec.app_version {
        Some(a) => {
            if str_eq(a.as_str(), app_version) {
                match &rec.bad_version {
                    Some(b) => Some(b.clone()),
                    None => None,
                }
            } else {
                None
            }
        },
        None => None,
    }
}

/// A staged upgrade that fails to start is rolled back and remembered as bad:
/// staging `target` and starting with `current` (unknown, or older than
/// `target`) promotes it under an `applying` record; a failed start then
/// leaves a record whose bad version is `target` for the same app version and
/// none for any other app version, while a successful start clears the record.
pub proof fn failed_upgrade_is_remembered(
    target: Seq<char>,
    current: Option<Seq<char>>,
    p: ApplyPlan,
    app_version: Seq<char>,
    other_app_version: Seq<char>,
)
    requires
        current matches Some(c) ==> newer(target, c),
        apply_plan_is(p, staged_model(target), current),
        other_app_version != app_version,
    ensures
        p matches ApplyPlan::Promote(a) && {
            &&& a@.status == Some("applying"@)
            &&& rollback_model(a@, app_version) matches Some(f) && {
                &&& bad_version_of(f, app_version) == Some(target)
                &&& bad_version_of(f, other_app_version) is None
                &&& apply_plan_is(ApplyPlan::Skip, f, current)
            }
        },
{
}

/// A record left by a failed upgrade is never acted on at start-up.
pub proof fn failed_record_is_not_promoted(rec: UpdateRecordModel, current: Option<Seq<char>>, p: ApplyPlan)
    requires
        rec.status == Some("failed"@),
        apply_plan_is(p, rec, current),
    ensures
        p is Skip,
{
    reveal_strlit("failed");
    reveal_strlit("ready");
    assert("failed"@[0] != "ready"@[0]);
}

/// A roll-back happens at most once per upgrade: the record it leaves is not
/// rolled back again, so the restart after a roll-back cannot roll back in turn.
pub proof fn rollback_happens_once(rec: UpdateRecordModel, app_version: Seq<char>, later_app_version: Seq<char>)
    ensures
        rollback_model(rec, app_version) matches Some(f) ==> rollback_model(f, later_app_version) is None,
{
    reveal_strlit("failed");
    reveal_strlit("applying");
    assert("failed"@[0] != "applying"@[0]);
}

/// Re-staging the version that is already current never promotes it.
pub proof fn staging_current_version_is_discarded(v: Seq<char>, p: ApplyPlan)
    requires
        apply_plan_is(p, staged_model(v), Some(v)),
    ensures
        p is Discard,
{
    is_newer_irreflexive(v);
}

// ---------------------------------------------------------------- Node archives and URLs

/// The Node release this shell downloads unless told otherwise.
pub open spec fn default_node_version() -> Seq<char> {
    "v24.19.0"@
}

/// The Node version to download: an explicit request, else the default.
pub fn node_version(requested: &Option<String>) -> (r: String)
    ensures
        r@ == match requested.deep_view() {
            Some(v) => v,
            None => default_node_version(),
        },
{
    match requested {
        Some(v) => v.clone(),
        None => "v24.19.0".to_owned(),
    }
}

/// The mirrors Node archives are fetched from, in order of preference.
pub fn node_mirrors() -> (r: Vec<&'static str>)
    ensures
        r@.len() == 2,
        r@[0]@ == "https://registry.npmmirror.com/-/binary/node"@,
        r@[1]@ == "https://nodejs.org/dist"@,
{
    let mut v: Vec<&'static str> = Vec::new();
    v.push("https://registry.npmmirror.com/-/binary/node");
    v.push("https://nodejs.org/dist");
    v
}

/// The npm registries DSH is installed from, in order of preference.
pub fn npm_registries() -> (r: Vec<&'static str>)
    ensures
        r@.len() == 2,
        r@[0]@ == "https://registry.npmmirror.com"@,
        r@[1]@ == "https://registry.npmjs.org"@,
{
    let mut v: Vec<&'static str> = Vec::new();
    v.push("https://registry.npmmirror.com");
    v.push("https://registry.npmjs.org");
    v
}

/// (os, arch, extension) of the Node archive for a platform directory name;
/// an unknown name falls back to Linux x64.
pub open spec fn archive_parts(target: Seq<char>) -> (Seq<char>, Seq<char>, Seq<char>) {
    if target == "darwin-arm64"@ {
        ("darwin"@, "arm64"@, "tar.gz"@)
    } else if target == "darwin-x64"@ {
        ("darwin"@, "x64"@, "tar.gz"@)
    } else if target == "win32-x64"@ {
        ("win"@, "x64"@, "zip"@)
    } else if target == "win32-arm64"@ {
        ("win"@, "arm64"@, "zip"@)
    } else if target == "linux-x64"@ {
        ("linux"@, "x64"@, "tar.gz"@)
    } else if target == "linux-arm64"@ {
        ("linux"@, "arm64"@, "tar.gz"@)
    } else {
        ("linux"@, "x64"@, "tar.gz"@)
    }
}

/// The Node archive naming of a platform directory: (os, arch, extension).
pub fn node_archive(target: &str) -> (r: (&'static str, &'static str, &'static str))
    ensures
        (r.0@, r.1@, r.2@) == archive_parts(target@),
{
    if str_eq(target, "darwin-arm64") {
        ("darwin", "arm64", "tar.gz")
    } else if str_eq(target, "darwin-x64") {
        ("darwin", "x64", "tar.gz")
    } else if str_eq(target, "win32-x64") {
        ("win", "x64", "zip")
    } else if str_eq(target, "win32-arm64") {
        ("win", "arm64", "zip")
    } else if str_eq(target, "linux-x64") {
        ("linux", "x64", "tar.gz")
    } else if str_eq(target, "linux-arm64") {
        ("linux", "arm64", "tar.gz")
    } else {
        ("linux", "x64", "tar.gz")
    }
}

/// `node-<version>-<os>-<arch>.<ext>`.
pub open spec fn archive_name_of(version: Seq<char>, target: Seq<char>) -> Seq<char> {
    let p = archive_parts(target);
    "node-"@ + version + "-"@ + p.0 + "-"@ + p.1 + "."@ + p.2
}

/// File name of the Node archive of `version` for a platform directory.
pub fn node_archive_name(version: &str, target: &str) -> (r: String)
    ensures
        r@ == archive_name_of(version@, target@),
{
    let (os, arch, ext) = node_archive(target);
    let a = concat("node-", version);
    let b = concat(a.as_str(), "-");
    let c = concat(b.as_str(), os);
    let d = concat(c.as_str(), "-");
    let e = concat(d.as_str(), arch);
    let f = concat(e.as_str(), ".");
    concat(f.as_str(), ext)
}

/// `<mirror>/<version>/<archive>`.
pub fn node_download_url(mirror: &str, version: &str, archive: &str) -> (r: String)
    ensures
        r@ == mirror@ + "/"@ + version@ + "/"@ + archive@,
{
    let a = concat(mirror, "/");
    let b = concat(a.as_str(), version);
    let c = concat(b.as_str(), "/");
    concat(c.as_str(), archive)
}

/// Name of the downloaded archive in the temporary directory: `iyam-node-<target>.<ext>`.
pub fn node_temp_archive_name(target: &str) -> (r: String)
    ensures
        r@ == "iyam-node-"@ + target@ + "."@ + archive_parts(target@).2,
{
    let (_os, _arch, ext) = node_archive(target);
    let a = concat("iyam-node-", target);
    let b = concat(a.as_str(), ".");
    concat(b.as_str(), ext)
}

/// Name of the scratch directory an archive is unpacked into: `._extract_<target>`.
pub fn node_extract_scratch_name(target: &str) -> (r: String)
    ensures
        r@ == "._extract_"@ + target@,
{
    concat("._extract_", target)
}

/// The registry URL that answers with the latest DSH release.
pub fn latest_version_url(registry: &str) -> (r: String)
    ensures
        r@ == registry@ + "/@deepseek-ai/dsh/latest"@,
{
    concat(registry, "/@deepseek-ai/dsh/latest")
}

/// The npm package spec that installs DSH `version`.
pub fn dsh_package_spec(version: &str) -> (r: String)
    ensures
        r@ == "@deepseek-ai/dsh@"@ + version@,
{
    concat("@deepseek-ai/dsh@", version)
}

/// The archive tool: Windows' bundled bsdtar, `tar` elsewhere.
pub fn tar_program(windows: bool) -> (r: &'static str)
    ensures
        windows ==> r@ == "C:\\Windows\\System32\\tar.exe"@,
        !windows ==> r@ == "tar"@,
{
    if windows {
        "C:\\Windows\\System32\\tar.exe"
    } else {
        "tar"
    }
}

/// Where staging installs (`<home>/.staging`) and where the promoted version's
/// predecessor is kept (`<home>/.backup`).
pub fn staging_and_backup(home: &FsPath) -> (r: (FsPath, FsPath))
    ensures
        r.0@ == home@.push(".staging"@),
        r.1@ == home@.push(".backup"@),
{
    (home.join(".staging"), home.join(".backup"))
}

// ---------------------------------------------------------------- source map comments

/// A line that is dropped: a `//#` comment that mentions `sourceMappingURL`.
pub open spec fn source_map_line(l: Seq<char>) -> bool {
    starts_at(trim_start(l), 0, "//#"@) && has_sub(l, "sourceMappingURL"@)
}

/// The lines that are kept, in order.
pub open spec fn kept_lines(ls: Seq<Seq<char>>) -> Seq<Seq<char>>
    decreases ls.len(),
{
    if ls.len() == 0 {
        seq![]
    } else if source_map_line(ls.last()) {
        kept_lines(ls.drop_last())
    } else {
        kept_lines(ls.drop_last()).push(ls.last())
    }
}

/// The script text without source-map comment lines (lines re-joined with `\n`).
pub open spec fn without_source_maps(src: Seq<char>) -> Seq<char> {
    join(kept_lines(lines(src)), "\n"@)
}

/// Strips `//# sourceMappingURL=...` comment lines from a script; `None` when
/// the text would not change (the file is then left as it is).
pub fn strip_source_mapping_lines(src: &str) -> (r: Option<String>)
    ensures
        without_source_maps(src@) == src@ ==> r is None,
        without_source_maps(src@) != src@ ==> (r matches Some(t) && t@ == without_source_maps(src@)),
{
    let v = chars_of(src);
    let spans = line_bounds(&v);
    let mut kept: Vec<String> = Vec::new();
    let mut i: usize = 0;
    while i < spans.len()
        invariant
            i <= spans.len(),
            spans_of(spans@, v@, lines(v@)),
            kept.deep_view() == kept_lines(lines(v@).take(i as int)),
        decreases spans.len() - i,
    {
        let (a, b) = spans[i];
        proof {
            assert(span_of(spans@[i as int], v@, lines(v@)[i as int]));
            assert(lines(v@).take(i + 1).drop_last() =~= lines(v@).take(i as int));
        }
        let line = string_of_range(&v, a, b);
        let t = crate::text::trim_start_str(line.as_str());
        let drop = crate::text::str_starts_with(t.as_str(), "//#") && str_contains(
            line.as_str(),
            "sourceMappingURL",
        );
        if !drop {
            let ghost before = kept.deep_view();
            kept.push(line);
            proof {
                assert(kept.deep_view() =~= before.push(lines(v@)[i as int]));
            }
        }
        i += 1;
    }
    proof {
        assert(lines(v@).take(spans.len() as int) =~= lines(v@));
    }
    let cleaned = crate::process::join_strings(&kept, "\n");
    if str_eq(cleaned.as_str(), src) {
        None
    } else {
        Some(cleaned)
    }
}

/// A file whose extension is `js`: the name ends with `.js` after at least one character.
pub open spec fn js_file_name(name: Seq<char>) -> bool {
    name.len() >= 4 && ends_with(name, ".js"@)
}

/// Whether a directory entry's file name has the extension `js`.
pub fn is_js_file(name: &str) -> (r: bool)
    ensures
        r == js_file_name(name@),
{
    let v = chars_of(name);
    let dot = chars_of(".js");
    proof {
        reveal_strlit(".js");
    }
    if v.len() < 4 {
        return false;
    }
    crate::text::occurs_at(&v, v.len() - 3, &dot)
}

// ---------------------------------------------------------------- copying through links

/// A directory entry's type as `DirEntry::file_type` reports it (links not followed).
#[derive(Clone, Copy, PartialEq, Eq, Structural, Debug)]
pub enum EntryKind {
    Symlink,
    Dir,
    File,
}

/// What copying a directory does with one of its entries.
#[derive(Clone, Copy, PartialEq, Eq, Structural, Debug)]
pub enum CopyStep {
    /// Leave it out: a dangling link, or a link back into a tree already copied.
    Skip,
    /// Copy the file (for a link, the file it points to).
    CopyFile,
    /// Copy the directory's tree (for a link, the directory it points to).
    CopyTree,
}

/// The step for an entry of `kind`; for a link, `target` is what resolving it
/// gave: `None` when it does not resolve, else whether the target is a
/// directory and whether that directory was already entered.
pub open spec fn copy_step_of(kind: EntryKind, target: Option<(bool, bool)>) -> CopyStep {
    match kind {
        EntryKind::Symlink => match target {
            Some((is_dir, seen)) => if !is_dir {
                CopyStep::CopyFile
            } else if seen {
                CopyStep::Skip
            } else {
                CopyStep::CopyTree
            },
            None => CopyStep::Skip,
        },
        EntryKind::Dir => CopyStep::CopyTree,
        EntryKind::File => CopyStep::CopyFile,
    }
}

/// Decides how one entry is copied when links are followed.
pub fn copy_step(kind: EntryKind, target: Option<(bool, bool)>) -> (r: CopyStep)
    ensures
        r == copy_step_of(kind, target),
{
    match kind {
        EntryKind::Symlink => match target {
            Some((is_dir, seen)) => if !is_dir {
                CopyStep::CopyFile
            } else if seen {
                CopyStep::Skip
            } else {
                CopyStep::CopyTree
            },
            None => CopyStep::Skip,
        },
        EntryKind::Dir => CopyStep::CopyTree,
        EntryKind::File => CopyStep::CopyFile,
    }
}

/// The canonical paths of the directories a copy has entered; a directory is
/// entered at most once, which is what ends the copy of self-referencing trees.
pub struct VisitedDirs {
    dirs: Vec<String>,
}

impl View for VisitedDirs {
    type V = Set<Seq<char>>;

    closed spec fn view(&self) -> Set<Seq<char>> {
        Set::new(|d: Seq<char>| self.dirs.deep_view().contains(d))
    }
}

impl VisitedDirs {
    /// No directory entered yet.
    pub fn new() -> (r: VisitedDirs)
        ensures
            r@ == Set::<Seq<char>>::empty(),
    {
        let r = VisitedDirs { dirs: Vec::new() };
        proof {
            assert(r@ =~= Set::<Seq<char>>::empty());
        }
        r
    }

    /// Whether `dir` was entered.
    pub fn contains(&self, dir: &String) -> (r: bool)
        ensures
            r == self@.contains(dir@),
    {
        crate::process::contains_string(&self.dirs, dir)
    }

    /// Enters `dir`; false when it had been entered before (then the copy of it stops).
    pub fn insert(&mut self, dir: &String) -> (r: bool)
        ensures
            r == !old(self)@.contains(dir@),
            final(self)@ == old(self)@.insert(dir@),
    {
        let known = crate::process::contains_string(&self.dirs, dir);
        if known {
            proof {
                assert(self@ =~= old(self)@.insert(dir@));
            }
            return false;
        }
        let ghost before = self.dirs.deep_view();
        self.dirs.push(dir.clone());
        proof {
            assert(self.dirs.deep_view() =~= before.push(dir@));
            assert forall|d: Seq<char>| self@.contains(d) == old(self)@.insert(dir@).contains(d) by {
                if before.push(dir@).contains(d) && d != dir@ {
                    let k = choose|k: int| 0 <= k < before.push(dir@).len() && before.push(dir@)[k] == d;
                    assert(before[k] == d);
                }
                if before.contains(d) {
                    let k = choose|k: int| 0 <= k < before.len() && before[k] == d;
                    assert(before.push(dir@)[k] == d);
                }
                if d == dir@ {
                    assert(before.push(dir@)[before.len() as int] == d);
                }
            }
            assert(self@ =~= old(self)@.insert(dir@));
        }
        true
    }
}

} // verus!
