//! The grammars that DSH start-up output is read with.
//!
//! Each grammar is given by `match_at`: whether it matches at a start index
//! and, if so, where its captured text lies and where the match ends.  The
//! search for the first match and the iteration over successive
//! non-overlapping matches are defined once over that (`first_match`,
//! `captures_from`).
use vstd::prelude::*;
use crate::text::{
    chars_of, in_class, is_decimal_digit, is_nd, lemma_run_end, occurs_at, run_end, scan_run,
    starts_at, string_of_range, CharClass,
};

verus! {

/// The grammars read from DSH output.
#[derive(Clone, Copy, PartialEq, Eq, Structural)]
pub enum Grammar {
    /// `Cannot find package '<pkg>'`
    MissingPackage,
    /// `failed to import loader entry <id> (<pkg>)`
    LoaderEntry,
    /// `node_modules/[.pnpm/<x>/node_modules/]<pkg>` where `<pkg>` may be scoped
    ModulePath,
    /// `dsh<ws>web:<ws>http://127.0.0.1:<digit><non-space>*`, capturing the URL
    WebUrl,
    /// `http://127.0.0.1:<digits>`, capturing the digits
    LoopbackPort,
}

/// End of a package name that starts at `c`: a scope `@<seg>/<seg>` is preferred
/// to a single segment `<seg>`.
pub open spec fn package_end(s: Seq<char>, c: int) -> Option<int> {
    let scoped = if 0 <= c < s.len() && s[c] == '@' {
        let y = run_end(s, c + 1, CharClass::Segment);
        if c + 1 < y && y < s.len() && s[y] == '/' {
            let z = run_end(s, y + 1, CharClass::Segment);
            if y + 1 < z {
                Some(z)
            } else {
                None
            }
        } else {
            None
        }
    } else {
        None
    };
    match scoped {
        Some(z) => Some(z),
        None => {
            let z = run_end(s, c, CharClass::Segment);
            if c < z {
                Some(z)
            } else {
                None
            }
        },
    }
}

pub open spec fn missing_package_at(s: Seq<char>, i: int) -> Option<(int, int, int)> {
    let p = "Cannot find package '"@;
    if starts_at(s, i, p) {
        let a = i + p.len();
        let b = run_end(s, a, CharClass::NotQuote);
        if a < b && b < s.len() {
            Some((a, b, b + 1))
        } else {
            None
        }
    } else {
        None
    }
}

pub open spec fn loader_entry_at(s: Seq<char>, i: int) -> Option<(int, int, int)> {
    let p = "failed to import loader entry "@;
    if starts_at(s, i, p) {
        let a0 = i + p.len();
        let j = run_end(s, a0, CharClass::NonSpace);
        if a0 < j && starts_at(s, j, " ("@) {
            let a = j + 2;
            let b = run_end(s, a, CharClass::NotParen);
            if a < b && b < s.len() {
                Some((a, b, b + 1))
            } else {
                None
            }
        } else {
            None
        }
    } else {
        None
    }
}

pub open spec fn module_path_at(s: Seq<char>, i: int) -> Option<(int, int, int)> {
    let nm = "node_modules/"@;
    if starts_at(s, i, nm) {
        let k = i + nm.len();
        let via_store = if starts_at(s, k, ".pnpm/"@) {
            let x = run_end(s, k + 6, CharClass::Segment);
            if k + 6 < x && starts_at(s, x, "/node_modules/"@) {
                match package_end(s, x + 14) {
                    Some(z) => Some((x + 14, z, z)),
                    None => None,
                }
            } else {
                None
            }
        } else {
            None
        };
        match via_store {
            Some(m) => Some(m),
            None => match package_end(s, k) {
                Some(z) => Some((k, z, z)),
                None => None,
            },
        }
    } else {
        None
    }
}

pub open spec fn web_url_at(s: Seq<char>, i: int) -> Option<(int, int, int)> {
    if starts_at(s, i, "dsh"@) {
        let w1 = run_end(s, i + 3, CharClass::Space);
        if i + 3 < w1 && starts_at(s, w1, "web:"@) {
            let w2 = run_end(s, w1 + 4, CharClass::Space);
            if w1 + 4 < w2 && starts_at(s, w2, "http://127.0.0.1:"@) {
                let d = w2 + 17;
                if d < s.len() && is_nd(s[d]) {
                    let e = run_end(s, d, CharClass::NonSpace);
                    Some((w2, e, e))
                } else {
                    None
                }
            } else {
                None
            }
        } else {
            None
        }
    } else {
        None
    }
}

pub open spec fn loopback_port_at(s: Seq<char>, i: int) -> Option<(int, int, int)> {
    if starts_at(s, i, "http://127.0.0.1:"@) {
        let d = i + 17;
        if d < s.len() && is_nd(s[d]) {
            let e = run_end(s, d, CharClass::Digit);
            Some((d, e, e))
        } else {
            None
        }
    } else {
        None
    }
}

/// Whether grammar `g` matches `s` at index `i`: `(capture start, capture end, match end)`.
pub open spec fn match_at(g: Grammar, s: Seq<char>, i: int) -> Option<(int, int, int)> {
    match g {
        Grammar::MissingPackage => missing_package_at(s, i),
        Grammar::LoaderEntry => loader_entry_at(s, i),
        Grammar::ModulePath => module_path_at(s, i),
        Grammar::WebUrl => web_url_at(s, i),
        Grammar::LoopbackPort => loopback_port_at(s, i),
    }
}

/// The leftmost match of `g` at or after `i`.
pub open spec fn first_match(g: Grammar, s: Seq<char>, i: int) -> Option<(int, int, int)>
    decreases s.len() - i,
{
    if i < 0 || i >= s.len() {
        None
    } else {
        match match_at(g, s, i) {
            Some(m) => Some(m),
            None => first_match(g, s, i + 1),
        }
    }
}

/// The captures of the successive non-overlapping matches of `g` from `i` on.
pub open spec fn captures_from(g: Grammar, s: Seq<char>, i: int) -> Seq<Seq<char>>
    decreases s.len() - i,
{
    if i < 0 || i >= s.len() {
        seq![]
    } else {
        match match_at(g, s, i) {
            Some(m) => if i < m.2 <= s.len() {
                seq![s.subrange(m.0, m.1)] + captures_from(g, s, m.2)
            } else {
                seq![]
            },
            None => captures_from(g, s, i + 1),
        }
    }
}

proof fn lemma_package_end(s: Seq<char>, c: int)
    requires
        0 <= c <= s.len(),
    ensures
        package_end(s, c) matches Some(z) ==> c < z <= s.len(),
{
    lemma_run_end(s, c, CharClass::Segment);
    if 0 <= c < s.len() && s[c] == '@' {
        lemma_run_end(s, c + 1, CharClass::Segment);
        let y = run_end(s, c + 1, CharClass::Segment);
        if c + 1 < y && y < s.len() && s[y] == '/' {
            lemma_run_end(s, y + 1, CharClass::Segment);
        }
    }
}

/// The leftmost match is a match at some index at or after the start.
pub proof fn lemma_first_match_is_match(g: Grammar, s: Seq<char>, i: int)
    ensures
        first_match(g, s, i) matches Some(m) ==> exists|j: int|
            i <= j < s.len() && #[trigger] match_at(g, s, j) == Some(m),
    decreases s.len() - i,
{
    if 0 <= i < s.len() && match_at(g, s, i) is None {
        lemma_first_match_is_match(g, s, i + 1);
    }
}

/// A match lies inside the text, captures inside it, and ends past its start.
pub proof fn lemma_match_bounds(g: Grammar, s: Seq<char>, i: int)
    requires
        0 <= i <= s.len(),
    ensures
        match_at(g, s, i) matches Some(m) ==> i <= m.0 <= m.1 <= m.2 <= s.len() && i < m.2,
{
    reveal_strlit("Cannot find package '");
    reveal_strlit("failed to import loader entry ");
    reveal_strlit(" (");
    reveal_strlit("node_modules/");
    reveal_strlit(".pnpm/");
    reveal_strlit("/node_modules/");
    reveal_strlit("dsh");
    reveal_strlit("web:");
    reveal_strlit("http://127.0.0.1:");
    match g {
        Grammar::MissingPackage => {
            if starts_at(s, i, "Cannot find package '"@) {
                lemma_run_end(s, i + 21, CharClass::NotQuote);
            }
        },
        Grammar::LoaderEntry => {
            if starts_at(s, i, "failed to import loader entry "@) {
                let a0 = i + 30;
                lemma_run_end(s, a0, CharClass::NonSpace);
                let j = run_end(s, a0, CharClass::NonSpace);
                if a0 < j && starts_at(s, j, " ("@) {
                    lemma_run_end(s, j + 2, CharClass::NotParen);
                }
            }
        },
        Grammar::ModulePath => {
            if starts_at(s, i, "node_modules/"@) {
                let k = i + 13;
                lemma_package_end(s, k);
                if starts_at(s, k, ".pnpm/"@) {
                    lemma_run_end(s, k + 6, CharClass::Segment);
                    let x = run_end(s, k + 6, CharClass::Segment);
                    if k + 6 < x && starts_at(s, x, "/node_modules/"@) {
                        lemma_package_end(s, x + 14);
                    }
                }
            }
        },
        Grammar::WebUrl => {
            if starts_at(s, i, "dsh"@) {
                lemma_run_end(s, i + 3, CharClass::Space);
                let w1 = run_end(s, i + 3, CharClass::Space);
                if i + 3 < w1 && starts_at(s, w1, "web:"@) {
                    lemma_run_end(s, w1 + 4, CharClass::Space);
                    let w2 = run_end(s, w1 + 4, CharClass::Space);
                    if w1 + 4 < w2 && starts_at(s, w2, "http://127.0.0.1:"@) {
                        if w2 + 17 < s.len() {
                            lemma_run_end(s, w2 + 17, CharClass::NonSpace);
                        }
                    }
                }
            }
        },
        Grammar::LoopbackPort => {
            if starts_at(s, i, "http://127.0.0.1:"@) {
                if i + 17 < s.len() {
                    lemma_run_end(s, i + 17, CharClass::Digit);
                }
            }
        },
    }
}

/// The literal pieces of the grammars, as character vectors.
pub struct Literals {
    cannot_find: Vec<char>,
    loader: Vec<char>,
    open_paren: Vec<char>,
    node_modules: Vec<char>,
    store: Vec<char>,
    nested: Vec<char>,
    dsh: Vec<char>,
    web: Vec<char>,
    loopback: Vec<char>,
}

impl Literals {
    pub closed spec fn wf(&self) -> bool {
        &&& self.cannot_find@ == "Cannot find package '"@
        &&& self.loader@ == "failed to import loader entry "@
        &&& self.open_paren@ == " ("@
        &&& self.node_modules@ == "node_modules/"@
        &&& self.store@ == ".pnpm/"@
        &&& self.nested@ == "/node_modules/"@
        &&& self.dsh@ == "dsh"@
        &&& self.web@ == "web:"@
        &&& self.loopback@ == "http://127.0.0.1:"@
    }

    pub fn new() -> (r: Literals)
        ensures
            r.wf(),
    {
        Literals {
            cannot_find: chars_of("Cannot find package '"),
            loader: chars_of("failed to import loader entry "),
            open_paren: chars_of(" ("),
            node_modules: chars_of("node_modules/"),
            store: chars_of(".pnpm/"),
            nested: chars_of("/node_modules/"),
            dsh: chars_of("dsh"),
            web: chars_of("web:"),
            loopback: chars_of("http://127.0.0.1:"),
        }
    }
}

/// Exec form of `package_end`.
fn package_end_exec(s: &Vec<char>, c: usize) -> (r: Option<usize>)
    requires
        c <= s.len(),
    ensures
        match r {
            Some(z) => package_end(s@, c as int) == Some(z as int),
            None => package_end(s@, c as int) is None,
        },
{
    if c < s.len() && s[c] == '@' {
        let y = scan_run(s, c + 1, CharClass::Segment);
        if c + 1 < y && y < s.len() && s[y] == '/' {
            let z = scan_run(s, y + 1, CharClass::Segment);
            if y + 1 < z {
                return Some(z);
            }
        }
    }
    let z = scan_run(s, c, CharClass::Segment);
    if c < z {
        Some(z)
    } else {
        None
    }
}

/// Exec form of `match_at`.
pub fn match_here(g: Grammar, s: &Vec<char>, i: usize, lits: &Literals) -> (r: Option<
    (usize, usize, usize),
>)
    requires
        lits.wf(),
        i <= s.len(),
    ensures
        match r {
            Some(m) => match_at(g, s@, i as int) == Some((m.0 as int, m.1 as int, m.2 as int)),
            None => match_at(g, s@, i as int) is None,
        },
{
    proof {
        reveal_strlit("Cannot find package '");
        reveal_strlit("failed to import loader entry ");
        reveal_strlit(" (");
        reveal_strlit("node_modules/");
        reveal_strlit(".pnpm/");
        reveal_strlit("/node_modules/");
        reveal_strlit("dsh");
        reveal_strlit("web:");
        reveal_strlit("http://127.0.0.1:");
        lemma_match_bounds(g, s@, i as int);
    }
    match g {
        Grammar::MissingPackage => {
            if !occurs_at(s, i, &lits.cannot_find) {
                return None;
            }
            let a = i + lits.cannot_find.len();
            let b = scan_run(s, a, CharClass::NotQuote);
            if a < b && b < s.len() {
                Some((a, b, b + 1))
            } else {
                None
            }
        },
        Grammar::LoaderEntry => {
            if !occurs_at(s, i, &lits.loader) {
                return None;
            }
            let a0 = i + lits.loader.len();
            let j = scan_run(s, a0, CharClass::NonSpace);
            if a0 < j && occurs_at(s, j, &lits.open_paren) {
                let a = j + 2;
                let b = scan_run(s, a, CharClass::NotParen);
                if a < b && b < s.len() {
                    Some((a, b, b + 1))
                } else {
                    None
                }
            } else {
                None
            }
        },
        Grammar::ModulePath => {
            if !occurs_at(s, i, &lits.node_modules) {
                return None;
            }
            let k = i + lits.node_modules.len();
            if occurs_at(s, k, &lits.store) {
                let x = scan_run(s, k + 6, CharClass::Segment);
                if k + 6 < x && occurs_at(s, x, &lits.nested) {
                    match package_end_exec(s, x + 14) {
                        Some(z) => {
                            return Some((x + 14, z, z));
                        },
                        None => {},
                    }
                }
            }
            match package_end_exec(s, k) {
                Some(z) => Some((k, z, z)),
                None => None,
            }
        },
        Grammar::WebUrl => {
            if !occurs_at(s, i, &lits.dsh) {
                return None;
            }
            let w1 = scan_run(s, i + 3, CharClass::Space);
            if !(i + 3 < w1 && occurs_at(s, w1, &lits.web)) {
                return None;
            }
            let w2 = scan_run(s, w1 + 4, CharClass::Space);
            if !(w1 + 4 < w2 && occurs_at(s, w2, &lits.loopback)) {
                return None;
            }
            let d = w2 + 17;
            if d < s.len() && is_decimal_digit(s[d]) {
                let e = scan_run(s, d, CharClass::NonSpace);
                Some((w2, e, e))
            } else {
                None
            }
        },
        Grammar::LoopbackPort => {
            if !occurs_at(s, i, &lits.loopback) {
                return None;
            }
            let d = i + 17;
            if d < s.len() && is_decimal_digit(s[d]) {
                let e = scan_run(s, d, CharClass::Digit);
                Some((d, e, e))
            } else {
                None
            }
        },
    }
}

/// The leftmost match of `g` in `s`.
pub fn find_first(g: Grammar, s: &Vec<char>, lits: &Literals) -> (r: Option<(usize, usize, usize)>)
    requires
        lits.wf(),
    ensures
        match r {
            Some(m) => first_match(g, s@, 0) == Some((m.0 as int, m.1 as int, m.2 as int))
                && m.0 <= m.1 <= s.len(),
            None => first_match(g, s@, 0) is None,
        },
{
    let mut i: usize = 0;
    while i < s.len()
        invariant
            lits.wf(),
            i <= s.len(),
            first_match(g, s@, 0) == first_match(g, s@, i as int),
        decreases s.len() - i,
    {
        match match_here(g, s, i, lits) {
            Some(m) => {
                proof {
                    lemma_match_bounds(g, s@, i as int);
                }
                return Some(m);
            },
            None => {},
        }
        i += 1;
    }
    None
}

/// The captures of all successive non-overlapping matches of `g` in `s`.
pub fn all_captures(g: Grammar, s: &Vec<char>, lits: &Literals) -> (r: Vec<String>)
    requires
        lits.wf(),
    ensures
        r.deep_view() == captures_from(g, s@, 0),
{
    let mut out: Vec<String> = Vec::new();
    let mut i: usize = 0;
    while i < s.len()
        invariant
            lits.wf(),
            i <= s.len(),
            out.deep_view() + captures_from(g, s@, i as int) == captures_from(g, s@, 0),
        decreases s.len() - i,
    {
        match match_here(g, s, i, lits) {
            Some(m) => {
                proof {
                    lemma_match_bounds(g, s@, i as int);
                }
                let cap = string_of_range(s, m.0, m.1);
                let ghost before = out.deep_view();
                out.push(cap);
                proof {
                    assert(out.deep_view() =~= before.push(cap@));
                    assert(captures_from(g, s@, i as int) == seq![s@.subrange(m.0 as int, m.1 as int)]
                        + captures_from(g, s@, m.2 as int));
                    assert(before.push(cap@) + captures_from(g, s@, m.2 as int) =~= before + (seq![
                        s@.subrange(m.0 as int, m.1 as int),
                    ] + captures_from(g, s@, m.2 as int)));
                }
                i = m.2;
            },
            None => {
                i += 1;
            },
        }
    }
    proof {
        assert(out.deep_view() + captures_from(g, s@, i as int) =~= out.deep_view());
    }
    out
}

} // verus!
