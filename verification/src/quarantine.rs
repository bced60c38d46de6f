//! Plugin quarantine: which profile entries a failed boot disables, how the
//! disabled names are recorded, and how they are put back.
//!
//! A profile array (`dsh.profile.bundles` or `dsh.profile.dependencies`) is
//! modelled entry by entry: `Some(name)` for a string entry, `None` for any
//! other JSON value (never removed, never matched).
use vstd::prelude::*;
use crate::process::{contains_string, core_bundle, is_core_bundle};

verus! {

/// How to rewrite one profile array: `keep[i]` tells whether entry `i` stays;
/// `removed` lists the removed names in the order the rewrite takes them out
/// (from the last removed index to the first).
pub struct Partition {
    pub keep: Vec<bool>,
    pub removed: Vec<String>,
}

/// The names of the entries flagged in `strip`, in index order.
pub open spec fn stripped_names(entries: Seq<Option<Seq<char>>>, strip: Seq<bool>) -> Seq<Seq<char>>
    decreases entries.len(),
{
    if entries.len() == 0 {
        seq![]
    } else {
        let rest = stripped_names(entries.drop_last(), strip.take(entries.len() - 1));
        match entries.last() {
            Some(n) => if strip[entries.len() - 1] {
                rest.push(n)
            } else {
                rest
            },
            None => rest,
        }
    }
}

/// The entries that stay: those whose `keep` flag is set.
pub open spec fn kept(entries: Seq<Option<Seq<char>>>, keep: Seq<bool>) -> Seq<Option<Seq<char>>>
    decreases entries.len(),
{
    if entries.len() == 0 {
        seq![]
    } else {
        let rest = kept(entries.drop_last(), keep.take(entries.len() - 1));
        if keep[entries.len() - 1] {
            rest.push(entries.last())
        } else {
            rest
        }
    }
}

/// Whether a string entry is disabled after a failed boot: never a core
/// bundle; otherwise when stderr named it, when it is not installed, when it
/// is itself missing, or when a package it bundles is missing.
pub open spec fn strip_broken(
    name: Seq<char>,
    installed: bool,
    references_missing: bool,
    missing: Seq<Seq<char>>,
    named: Seq<Seq<char>>,
) -> bool {
    !core_bundle(name) && (named.contains(name) || !installed || missing.contains(name)
        || references_missing)
}

/// The disable flags of `quarantine_broken_plugins`.
pub open spec fn broken_flags(
    entries: Seq<Option<Seq<char>>>,
    installed: Seq<bool>,
    references_missing: Seq<bool>,
    missing: Seq<Seq<char>>,
    named: Seq<Seq<char>>,
) -> Seq<bool> {
    Seq::new(
        entries.len(),
        |i: int|
            match entries[i] {
                Some(n) => strip_broken(n, installed[i], references_missing[i], missing, named),
                None => false,
            },
    )
}

/// The disable flags of `quarantine_all_third_party`: every non-core string entry.
pub open spec fn third_party_flags(entries: Seq<Option<Seq<char>>>) -> Seq<bool> {
    Seq::new(
        entries.len(),
        |i: int|
            match entries[i] {
                Some(n) => !core_bundle(n),
                None => false,
            },
    )
}

/// `p` rewrites `entries` by disabling exactly the entries flagged in `strip`.
pub open spec fn partition_of(
    p_keep: Seq<bool>,
    p_removed: Seq<Seq<char>>,
    entries: Seq<Option<Seq<char>>>,
    strip: Seq<bool>,
) -> bool {
    &&& p_keep.len() == entries.len()
    &&& forall|i: int| 0 <= i < entries.len() ==> p_keep[i] == !strip[i]
    &&& p_removed == stripped_names(entries, strip).reverse()
}

proof fn lemma_stripped_take(entries: Seq<Option<Seq<char>>>, strip: Seq<bool>, i: int)
    requires
        0 <= i < entries.len(),
        strip.len() == entries.len(),
    ensures
        stripped_names(entries.take(i + 1), strip.take(i + 1)) == match entries[i] {
            Some(n) => if strip[i] {
                stripped_names(entries.take(i), strip.take(i)).push(n)
            } else {
                stripped_names(entries.take(i), strip.take(i))
            },
            None => stripped_names(entries.take(i), strip.take(i)),
        },
{
    assert(entries.take(i + 1).drop_last() =~= entries.take(i));
    assert(strip.take(i + 1).take(i) =~= strip.take(i));
}

/// Disables the entries flagged in `strip`.
fn partition_entries(entries: &Vec<Option<String>>, strip: &Vec<bool>) -> (r: Partition)
    requires
        strip.len() == entries.len(),
        forall|i: int| 0 <= i < entries.len() && entries@[i] is None ==> !strip@[i],
    ensures
        partition_of(r.keep@, r.removed.deep_view(), entries.deep_view(), strip@),
{
    let mut keep: Vec<bool> = Vec::new();
    let mut names: Vec<String> = Vec::new();
    let mut i: usize = 0;
    while i < entries.len()
        invariant
            i <= entries.len(),
            strip.len() == entries.len(),
            forall|k: int| 0 <= k < entries.len() && entries@[k] is None ==> !strip@[k],
            keep@.len() == i,
            forall|k: int| 0 <= k < i ==> keep@[k] == !strip@[k],
            names.deep_view() == stripped_names(
                entries.deep_view().take(i as int),
                strip@.take(i as int),
            ),
        decreases entries.len() - i,
    {
        proof {
            lemma_stripped_take(entries.deep_view(), strip@, i as int);
        }
        keep.push(!strip[i]);
        match &entries[i] {
            Some(n) => {
                if strip[i] {
                    let ghost before = names.deep_view();
                    names.push(n.clone());
                    proof {
                        assert(names.deep_view() =~= before.push(n@));
                    }
                }
            },
            None => {},
        }
        i += 1;
    }
    proof {
        assert(entries.deep_view().take(entries.len() as int) =~= entries.deep_view());
        assert(strip@.take(entries.len() as int) =~= strip@);
    }
    let mut removed: Vec<String> = Vec::new();
    let mut j = names.len();
    while j > 0
        invariant
            j <= names.len(),
            removed.deep_view() == names.deep_view().reverse().take(names.len() - j),
        decreases j,
    {
        j -= 1;
        let ghost before = removed.deep_view();
        removed.push(names[j].clone());
        proof {
            assert(removed.deep_view() =~= before.push(names.deep_view()[j as int]));
            assert(names.deep_view().reverse()[names.len() - j - 1] == names.deep_view()[j as int]);
            assert(removed.deep_view() =~= names.deep_view().reverse().take(names.len() - j));
        }
    }
    proof {
        assert(names.deep_view().reverse().take(names.len() as int) =~= names.deep_view().reverse());
    }
    Partition { keep, removed }
}

/// Disables the non-core entries that a failed boot points at.  For entry `i`,
/// `installed[i]` tells whether the package is installed (in the shared tree or
/// in the web profile) and `references_missing[i]` whether a package it bundles
/// is among `missing` (see `bundle_references_missing`).
pub fn quarantine_broken_plugins(
    entries: &Vec<Option<String>>,
    installed: &Vec<bool>,
    references_missing: &Vec<bool>,
    missing: &Vec<String>,
    named: &Vec<String>,
) -> (r: Partition)
    requires
        installed.len() == entries.len(),
        references_missing.len() == entries.len(),
    ensures
        partition_of(
            r.keep@,
            r.removed.deep_view(),
            entries.deep_view(),
            broken_flags(
                entries.deep_view(),
                installed@,
                references_missing@,
                missing.deep_view(),
                named.deep_view(),
            ),
        ),
{
    let ghost flags = broken_flags(
        entries.deep_view(),
        installed@,
        references_missing@,
        missing.deep_view(),
        named.deep_view(),
    );
    let mut strip: Vec<bool> = Vec::new();
    let mut i: usize = 0;
    while i < entries.len()
        invariant
            i <= entries.len(),
            installed.len() == entries.len(),
            references_missing.len() == entries.len(),
            flags == broken_flags(
                entries.deep_view(),
                installed@,
                references_missing@,
                missing.deep_view(),
                named.deep_view(),
            ),
            strip@ == flags.take(i as int),
        decreases entries.len() - i,
    {
        let s = match &entries[i] {
            Some(n) => {
                !is_core_bundle(n.as_str()) && (contains_string(named, n) || !installed[i]
                    || contains_string(missing, n) || references_missing[i])
            },
            None => false,
        };
        strip.push(s);
        proof {
            assert(strip@ =~= flags.take(i + 1));
        }
        i += 1;
    }
    proof {
        assert(flags.take(entries.len() as int) =~= flags);
    }
    partition_entries(entries, &strip)
}

/// Disables every non-core entry (the last resort when no plugin can be blamed).
pub fn quarantine_all_third_party(entries: &Vec<Option<String>>) -> (r: Partition)
    ensures
        partition_of(
            r.keep@,
            r.removed.deep_view(),
            entries.deep_view(),
            third_party_flags(entries.deep_view()),
        ),
{
    let ghost flags = third_party_flags(entries.deep_view());
    let mut strip: Vec<bool> = Vec::new();
    let mut i: usize = 0;
    while i < entries.len()
        invariant
            i <= entries.len(),
            flags == third_party_flags(entries.deep_view()),
            strip@ == flags.take(i as int),
        decreases entries.len() - i,
    {
        let s = match &entries[i] {
            Some(n) => !is_core_bundle(n.as_str()),
            None => false,
        };
        strip.push(s);
        proof {
            assert(strip@ =~= flags.take(i + 1));
        }
        i += 1;
    }
    proof {
        assert(flags.take(entries.len() as int) =~= flags);
    }
    partition_entries(entries, &strip)
}

/// The entries of `entries` whose `keep` flag is set.
pub fn kept_entries(entries: &Vec<Option<String>>, keep: &Vec<bool>) -> (r: Vec<Option<String>>)
    requires
        keep.len() == entries.len(),
    ensures
        r.deep_view() == kept(entries.deep_view(), keep@),
{
    let mut out: Vec<Option<String>> = Vec::new();
    let mut i: usize = 0;
    while i < entries.len()
        invariant
            i <= entries.len(),
            keep.len() == entries.len(),
            out.deep_view() == kept(entries.deep_view().take(i as int), keep@.take(i as int)),
        decreases entries.len() - i,
    {
        proof {
            assert(entries.deep_view().take(i + 1).drop_last() =~= entries.deep_view().take(
                i as int,
            ));
            assert(keep@.take(i + 1).take(i as int) =~= keep@.take(i as int));
        }
        if keep[i] {
            let ghost before = out.deep_view();
            out.push(entries[i].clone());
            proof {
                assert(out.deep_view() =~= before.push(entries.deep_view()[i as int]));
            }
        }
        i += 1;
    }
    proof {
        assert(entries.deep_view().take(entries.len() as int) =~= entries.deep_view());
        assert(keep@.take(entries.len() as int) =~= keep@);
    }
    out
}

/// Whether any name that a bundle's manifest lists (its `dsh.bundles`, its
/// `dependencies`, its `dsh.dependencies`) is among the missing packages.
pub fn bundle_references_missing(members: &Vec<String>, missing: &Vec<String>) -> (r: bool)
    ensures
        r == exists|i: int|
            0 <= i < members.len() && missing.deep_view().contains(#[trigger] members.deep_view()[i]),
{
    let mut i: usize = 0;
    while i < members.len()
        invariant
            i <= members.len(),
            forall|k: int|
                0 <= k < i ==> !missing.deep_view().contains(#[trigger] members.deep_view()[k]),
        decreases members.len() - i,
    {
        if contains_string(missing, &members[i]) {
            proof {
                assert(missing.deep_view().contains(members.deep_view()[i as int]));
            }
            return true;
        }
        i += 1;
    }
    false
}

// ---------------------------------------------------------------- the record

/// The disabled list after recording `removed`: each name not yet listed is
/// appended, in order.
pub open spec fn merge_disabled(d: Seq<Option<Seq<char>>>, removed: Seq<Seq<char>>) -> Seq<Option<Seq<char>>>
    decreases removed.len(),
{
    if removed.len() == 0 {
        d
    } else {
        let m = merge_disabled(d, removed.drop_last());
        if m.contains(Some(removed.last())) {
            m
        } else {
            m.push(Some(removed.last()))
        }
    }
}

/// Whether `v` holds the string entry `Some(x)`.
pub fn contains_entry(v: &Vec<Option<String>>, x: &String) -> (r: bool)
    ensures
        r == v.deep_view().contains(Some(x@)),
{
    let mut i: usize = 0;
    while i < v.len()
        invariant
            i <= v.len(),
            forall|k: int| 0 <= k < i ==> v.deep_view()[k] != Some(x@),
        decreases v.len() - i,
    {
        match &v[i] {
            Some(n) => {
                if *n == *x {
                    proof {
                        assert(v.deep_view()[i as int] == Some(x@));
                    }
                    return true;
                }
            },
            None => {},
        }
        i += 1;
    }
    false
}

/// Records newly disabled plugins in the quarantine list `disabled` (the
/// record's `disabled` array): names already listed are not repeated.
pub fn record_quarantine(disabled: &Vec<Option<String>>, removed: &Vec<String>) -> (r: Vec<Option<String>>)
    ensures
        r.deep_view() == merge_disabled(disabled.deep_view(), removed.deep_view()),
{
    let mut out = disabled.clone();
    proof {
        assert(out.deep_view() =~= disabled.deep_view()) by {
            assert forall|k: int| 0 <= k < out.len() implies out.deep_view()[k]
                == disabled.deep_view()[k] by {
                assert(out@[k] == disabled@[k]);
            }
        }
        assert(removed.deep_view().take(0) =~= seq![]);
    }
    let mut i: usize = 0;
    while i < removed.len()
        invariant
            i <= removed.len(),
            out.deep_view() == merge_disabled(disabled.deep_view(), removed.deep_view().take(i as int)),
        decreases removed.len() - i,
    {
        proof {
            let nxt = removed.deep_view().take(i + 1);
            assert(nxt.drop_last() =~= removed.deep_view().take(i as int));
            assert(nxt.last() == removed@[i as int]@);
        }
        if !contains_entry(&out, &removed[i]) {
            let ghost before = out.deep_view();
            out.push(Some(removed[i].clone()));
            proof {
                assert(out.deep_view() =~= before.push(Some(removed@[i as int]@)));
            }
        }
        i += 1;
    }
    proof {
        assert(removed.deep_view().take(removed.len() as int) =~= removed.deep_view());
    }
    out
}

/// The string entries of a list, in order (`filter_map(as_str)`).
pub open spec fn names_of(d: Seq<Option<Seq<char>>>) -> Seq<Seq<char>>
    decreases d.len(),
{
    if d.len() == 0 {
        seq![]
    } else {
        match d.last() {
            Some(n) => names_of(d.drop_last()).push(n),
            None => names_of(d.drop_last()),
        }
    }
}

/// The names that a quarantine record lists.
pub fn disabled_names(d: &Vec<Option<String>>) -> (r: Vec<String>)
    ensures
        r.deep_view() == names_of(d.deep_view()),
{
    let mut out: Vec<String> = Vec::new();
    let mut i: usize = 0;
    while i < d.len()
        invariant
            i <= d.len(),
            out.deep_view() == names_of(d.deep_view().take(i as int)),
        decreases d.len() - i,
    {
        proof {
            assert(d.deep_view().take(i + 1).drop_last() =~= d.deep_view().take(i as int));
        }
        match &d[i] {
            Some(n) => {
                let ghost before = out.deep_view();
                out.push(n.clone());
                proof {
                    assert(out.deep_view() =~= before.push(n@));
                }
            },
            None => {},
        }
        i += 1;
    }
    proof {
        assert(d.deep_view().take(d.len() as int) =~= d.deep_view());
    }
    out
}

// ---------------------------------------------------------------- putting back

/// What to do with a quarantine record at start-up.
#[derive(Clone, Copy, PartialEq, Eq, Structural)]
pub enum ReinstateGate {
    /// Nothing is listed: delete the record.
    ClearRecord,
    /// Keep the record and the profile as they are.
    Keep,
    /// Put the listed plugins back into the profile.
    Reinstate,
}

pub open spec fn reinstate_gate_of(
    listed: nat,
    recorded: Option<Seq<char>>,
    current: Option<Seq<char>>,
    force: bool,
) -> ReinstateGate {
    if listed == 0 {
        ReinstateGate::ClearRecord
    } else if force {
        ReinstateGate::Reinstate
    } else {
        match (recorded, current) {
            (Some(a), Some(b)) => if a != b {
                ReinstateGate::Reinstate
            } else {
                ReinstateGate::Keep
            },
            _ => ReinstateGate::Keep,
        }
    }
}

/// Decides whether quarantined plugins go back: always after a roll-back
/// (`force`), otherwise only once the DSH version differs from the one
/// recorded with the quarantine (both versions known).
pub fn reinstate_gate(
    listed: usize,
    recorded: &Option<String>,
    current: &Option<String>,
    force: bool,
) -> (r: ReinstateGate)
    ensures
        r == reinstate_gate_of(listed as nat, recorded.deep_view(), current.deep_view(), force),
{
    if listed == 0 {
        ReinstateGate::ClearRecord
    } else if force {
        ReinstateGate::Reinstate
    } else {
        match (recorded, current) {
            (Some(a), Some(b)) => if *a != *b {
                ReinstateGate::Reinstate
            } else {
                ReinstateGate::Keep
            },
            _ => ReinstateGate::Keep,
        }
    }
}

/// Bundles after putting back `names` (each name whose package is still present
/// and that is not listed yet is appended), with the names put back.
pub open spec fn reinstate_fold(
    bundles: Seq<Option<Seq<char>>>,
    names: Seq<Seq<char>>,
    present: Seq<bool>,
) -> (Seq<Option<Seq<char>>>, Seq<Seq<char>>)
    decreases names.len(),
{
    if names.len() == 0 {
        (bundles, seq![])
    } else {
        let r = reinstate_fold(bundles, names.drop_last(), present.take(names.len() - 1));
        let n = names.last();
        if present[names.len() - 1] && !r.0.contains(Some(n)) {
            (r.0.push(Some(n)), r.1.push(n))
        } else {
            r
        }
    }
}

/// Puts quarantined plugins back into the profile bundles; `present[i]` tells
/// whether the package of `names[i]` still exists.  Returns the new bundles and
/// the names put back.
pub fn reinstate_bundles(bundles: &Vec<Option<String>>, names: &Vec<String>, present: &Vec<bool>) -> (r: (
    Vec<Option<String>>,
    Vec<String>,
))
    requires
        present.len() == names.len(),
    ensures
        (r.0.deep_view(), r.1.deep_view()) == reinstate_fold(
            bundles.deep_view(),
            names.deep_view(),
            present@,
        ),
{
    let mut out = bundles.clone();
    proof {
        assert(out.deep_view() =~= bundles.deep_view()) by {
            assert forall|k: int| 0 <= k < out.len() implies out.deep_view()[k]
                == bundles.deep_view()[k] by {
                assert(out@[k] == bundles@[k]);
            }
        }
        assert(names.deep_view().take(0) =~= seq![]);
    }
    let mut back: Vec<String> = Vec::new();
    let mut i: usize = 0;
    while i < names.len()
        invariant
            i <= names.len(),
            present.len() == names.len(),
            (out.deep_view(), back.deep_view()) == reinstate_fold(
                bundles.deep_view(),
                names.deep_view().take(i as int),
                present@.take(i as int),
            ),
        decreases names.len() - i,
    {
        proof {
            let nxt = names.deep_view().take(i + 1);
            assert(nxt.drop_last() =~= names.deep_view().take(i as int));
            assert(nxt.last() == names@[i as int]@);
            assert(present@.take(i + 1).take(i as int) =~= present@.take(i as int));
        }
        if present[i] && !contains_entry(&out, &names[i]) {
            let ghost b0 = out.deep_view();
            let ghost b1 = back.deep_view();
            out.push(Some(names[i].clone()));
            back.push(names[i].clone());
            proof {
                assert(out.deep_view() =~= b0.push(Some(names@[i as int]@)));
                assert(back.deep_view() =~= b1.push(names@[i as int]@));
            }
        }
        i += 1;
    }
    proof {
        assert(names.deep_view().take(names.len() as int) =~= names.deep_view());
        assert(present@.take(names.len() as int) =~= present@);
    }
    (out, back)
}

// ---------------------------------------------------------------- laws

proof fn lemma_kept_contains(entries: Seq<Option<Seq<char>>>, keep: Seq<bool>, i: int)
    requires
        keep.len() == entries.len(),
        0 <= i < entries.len(),
        keep[i],
    ensures
        kept(entries, keep).contains(entries[i]),
    decreases entries.len(),
{
    let last = entries.len() - 1;
    let e0 = entries.drop_last();
    let k0 = keep.take(last);
    let rest = kept(e0, k0);
    if i == last {
        assert(kept(entries, keep) == rest.push(entries[i]));
        assert(kept(entries, keep)[rest.len() as int] == entries[i]);
    } else {
        lemma_kept_contains(e0, k0, i);
        assert(e0[i] == entries[i]);
        let w = choose|w: int| 0 <= w < rest.len() && rest[w] == entries[i];
        if keep[last] {
            assert(kept(entries, keep)[w] == rest[w]);
        }
    }
}

proof fn lemma_kept_from(entries: Seq<Option<Seq<char>>>, keep: Seq<bool>, j: int)
    requires
        keep.len() == entries.len(),
        0 <= j < kept(entries, keep).len(),
    ensures
        exists|i: int| 0 <= i < entries.len() && keep[i] && entries[i] == kept(entries, keep)[j],
    decreases entries.len(),
{
    let last = entries.len() - 1;
    let e0 = entries.drop_last();
    let k0 = keep.take(last);
    let rest = kept(e0, k0);
    if j < rest.len() {
        if keep[last] {
            assert(kept(entries, keep)[j] == rest[j]);
        }
        lemma_kept_from(e0, k0, j);
        let i = choose|i: int| 0 <= i < e0.len() && k0[i] && e0[i] == rest[i];
        let i = choose|i: int| 0 <= i < e0.len() && k0[i] && e0[i] == rest[j];
        assert(keep[i] && entries[i] == kept(entries, keep)[j]);
    } else {
        assert(keep[last] && entries[last] == kept(entries, keep)[j]);
    }
}

proof fn lemma_stripped_contains(entries: Seq<Option<Seq<char>>>, strip: Seq<bool>, i: int, n: Seq<char>)
    requires
        strip.len() == entries.len(),
        0 <= i < entries.len(),
        strip[i],
        entries[i] == Some(n),
    ensures
        stripped_names(entries, strip).contains(n),
    decreases entries.len(),
{
    let last = entries.len() - 1;
    let e0 = entries.drop_last();
    let s0 = strip.take(last);
    let rest = stripped_names(e0, s0);
    if i == last {
        assert(stripped_names(entries, strip) == rest.push(n));
        assert(stripped_names(entries, strip)[rest.len() as int] == n);
    } else {
        lemma_stripped_contains(e0, s0, i, n);
        let w = choose|w: int| 0 <= w < rest.len() && rest[w] == n;
        assert(stripped_names(entries, strip)[w] == n);
    }
}

proof fn lemma_stripped_from(entries: Seq<Option<Seq<char>>>, strip: Seq<bool>, j: int)
    requires
        strip.len() == entries.len(),
        0 <= j < stripped_names(entries, strip).len(),
    ensures
        exists|i: int|
            0 <= i < entries.len() && strip[i] && entries[i] == Some(
                stripped_names(entries, strip)[j],
            ),
    decreases entries.len(),
{
    let last = entries.len() - 1;
    let e0 = entries.drop_last();
    let s0 = strip.take(last);
    let rest = stripped_names(e0, s0);
    if j < rest.len() {
        assert(stripped_names(entries, strip)[j] == rest[j]);
        lemma_stripped_from(e0, s0, j);
        let i = choose|i: int| 0 <= i < e0.len() && s0[i] && e0[i] == Some(rest[j]);
        assert(strip[i] && entries[i] == Some(stripped_names(entries, strip)[j]));
    } else {
        assert(strip[last] && entries[last] == Some(stripped_names(entries, strip)[j]));
    }
}

proof fn lemma_stripped_none(entries: Seq<Option<Seq<char>>>, strip: Seq<bool>)
    requires
        strip.len() == entries.len(),
        forall|i: int| 0 <= i < entries.len() ==> !strip[i],
    ensures
        stripped_names(entries, strip) == Seq::<Seq<char>>::empty(),
    decreases entries.len(),
{
    if entries.len() > 0 {
        lemma_stripped_none(entries.drop_last(), strip.take(entries.len() - 1));
    }
}

proof fn lemma_merge_keeps(d: Seq<Option<Seq<char>>>, removed: Seq<Seq<char>>, x: Seq<char>)
    requires
        removed.contains(x),
    ensures
        merge_disabled(d, removed).contains(Some(x)),
    decreases removed.len(),
{
    let m = merge_disabled(d, removed.drop_last());
    if removed.last() == x {
        if !m.contains(Some(x)) {
            assert(m.push(Some(x))[m.len() as int] == Some(x));
        }
    } else {
        let w = choose|w: int| 0 <= w < removed.len() && removed[w] == x;
        assert(removed.drop_last()[w] == x);
        lemma_merge_keeps(d, removed.drop_last(), x);
        let v = choose|v: int| 0 <= v < m.len() && m[v] == Some(x);
        if !m.contains(Some(removed.last())) {
            assert(m.push(Some(removed.last()))[v] == Some(x));
        }
    }
}

proof fn lemma_names_of_contains(d: Seq<Option<Seq<char>>>, x: Seq<char>)
    requires
        d.contains(Some(x)),
    ensures
        names_of(d).contains(x),
    decreases d.len(),
{
    let w = choose|w: int| 0 <= w < d.len() && d[w] == Some(x);
    let rest = names_of(d.drop_last());
    if w == d.len() - 1 {
        assert(names_of(d) == rest.push(x));
        assert(names_of(d)[rest.len() as int] == x);
    } else {
        assert(d.drop_last()[w] == Some(x));
        lemma_names_of_contains(d.drop_last(), x);
        let v = choose|v: int| 0 <= v < rest.len() && rest[v] == x;
        match d.last() {
            Some(n) => {
                assert(names_of(d)[v] == x);
            },
            None => {},
        }
    }
}

proof fn lemma_reinstate_extends(
    bundles: Seq<Option<Seq<char>>>,
    names: Seq<Seq<char>>,
    present: Seq<bool>,
    y: Option<Seq<char>>,
)
    requires
        present.len() == names.len(),
        bundles.contains(y),
    ensures
        reinstate_fold(bundles, names, present).0.contains(y),
    decreases names.len(),
{
    if names.len() > 0 {
        let p0 = present.take(names.len() - 1);
        lemma_reinstate_extends(bundles, names.drop_last(), p0, y);
        let r = reinstate_fold(bundles, names.drop_last(), p0);
        let v = choose|v: int| 0 <= v < r.0.len() && r.0[v] == y;
        let n = names.last();
        if present[names.len() - 1] && !r.0.contains(Some(n)) {
            assert(r.0.push(Some(n))[v] == y);
        }
    }
}

proof fn lemma_reinstate_adds(
    bundles: Seq<Option<Seq<char>>>,
    names: Seq<Seq<char>>,
    present: Seq<bool>,
    k: int,
)
    requires
        present.len() == names.len(),
        0 <= k < names.len(),
        present[k],
    ensures
        reinstate_fold(bundles, names, present).0.contains(Some(names[k])),
    decreases names.len(),
{
    let last = names.len() - 1;
    let p0 = present.take(last);
    let r = reinstate_fold(bundles, names.drop_last(), p0);
    if k == last {
        if !r.0.contains(Some(names[k])) {
            assert(r.0.push(Some(names[k]))[r.0.len() as int] == Some(names[k]));
        }
    } else {
        lemma_reinstate_adds(bundles, names.drop_last(), p0, k);
        assert(names.drop_last()[k] == names[k]);
        let v = choose|v: int| 0 <= v < r.0.len() && r.0[v] == Some(names[k]);
        if present[last] && !r.0.contains(Some(names.last())) {
            assert(r.0.push(Some(names.last()))[v] == Some(names[k]));
        }
    }
}

/// Quarantine is undone by reinstatement: every string entry of a profile
/// array before a quarantine (whatever entries it disabled) is an entry again
/// once the disabled names are recorded (into any earlier record) and put back,
/// their packages being present.
pub proof fn quarantine_then_reinstate_restores(
    entries: Seq<Option<Seq<char>>>,
    strip: Seq<bool>,
    keep: Seq<bool>,
    removed: Seq<Seq<char>>,
    earlier: Seq<Option<Seq<char>>>,
    present: Seq<bool>,
    n: Seq<char>,
)
    requires
        strip.len() == entries.len(),
        partition_of(keep, removed, entries, strip),
        present.len() == names_of(merge_disabled(earlier, removed)).len(),
        forall|i: int| 0 <= i < present.len() ==> present[i],
        entries.contains(Some(n)),
    ensures
        reinstate_fold(
            kept(entries, keep),
            names_of(merge_disabled(earlier, removed)),
            present,
        ).0.contains(Some(n)),
{
    let names = names_of(merge_disabled(earlier, removed));
    let i = choose|i: int| 0 <= i < entries.len() && entries[i] == Some(n);
    if keep[i] {
        lemma_kept_contains(entries, keep, i);
        lemma_reinstate_extends(kept(entries, keep), names, present, Some(n));
    } else {
        lemma_stripped_contains(entries, strip, i, n);
        let sn = stripped_names(entries, strip);
        let w = choose|w: int| 0 <= w < sn.len() && sn[w] == n;
        assert(sn.reverse()[sn.len() - 1 - w] == n);
        assert(removed.contains(n));
        lemma_merge_keeps(earlier, removed, n);
        lemma_names_of_contains(merge_disabled(earlier, removed), n);
        let k = choose|k: int| 0 <= k < names.len() && names[k] == n;
        lemma_reinstate_adds(kept(entries, keep), names, present, k);
    }
}

/// The last-resort quarantine leaves only core bundles among the string
/// entries, so running it again disables nothing.
pub proof fn quarantine_all_third_party_idempotent(
    entries: Seq<Option<Seq<char>>>,
    keep: Seq<bool>,
    removed: Seq<Seq<char>>,
)
    requires
        partition_of(keep, removed, entries, third_party_flags(entries)),
    ensures
        forall|j: int|
            #![trigger kept(entries, keep)[j]]
            0 <= j < kept(entries, keep).len() ==> match kept(entries, keep)[j] {
                Some(x) => core_bundle(x),
                None => true,
            },
        stripped_names(kept(entries, keep), third_party_flags(kept(entries, keep)))
            == Seq::<Seq<char>>::empty(),
{
    let e2 = kept(entries, keep);
    assert forall|j: int| 0 <= j < e2.len() implies match #[trigger] e2[j] {
        Some(x) => core_bundle(x),
        None => true,
    } by {
        lemma_kept_from(entries, keep, j);
        let i = choose|i: int| 0 <= i < entries.len() && keep[i] && entries[i] == e2[j];
        assert(!third_party_flags(entries)[i]);
    }
    lemma_stripped_none(e2, third_party_flags(e2));
}

/// Quarantine never disables a core bundle (`@iyam/*`, `@deepseek-ai/*`).
pub proof fn quarantine_spares_core_bundles(
    entries: Seq<Option<Seq<char>>>,
    installed: Seq<bool>,
    references_missing: Seq<bool>,
    missing: Seq<Seq<char>>,
    named: Seq<Seq<char>>,
    keep: Seq<bool>,
    removed: Seq<Seq<char>>,
)
    requires
        installed.len() == entries.len(),
        references_missing.len() == entries.len(),
        partition_of(
            keep,
            removed,
            entries,
            broken_flags(entries, installed, references_missing, missing, named),
        ),
    ensures
        forall|j: int| 0 <= j < removed.len() ==> !core_bundle(#[trigger] removed[j]),
{
    let flags = broken_flags(entries, installed, references_missing, missing, named);
    let sn = stripped_names(entries, flags);
    assert forall|j: int| 0 <= j < removed.len() implies !core_bundle(#[trigger] removed[j]) by {
        assert(removed[j] == sn[sn.len() - 1 - j]);
        lemma_stripped_from(entries, flags, sn.len() - 1 - j);
    }
}

proof fn lemma_reinstate_noop(bundles: Seq<Option<Seq<char>>>, names: Seq<Seq<char>>, present: Seq<bool>)
    requires
        present.len() == names.len(),
        forall|k: int| 0 <= k < names.len() && present[k] ==> bundles.contains(Some(names[k])),
    ensures
        reinstate_fold(bundles, names, present) == (bundles, Seq::<Seq<char>>::empty()),
    decreases names.len(),
{
    if names.len() > 0 {
        let last = names.len() - 1;
        let p0 = present.take(last);
        assert forall|k: int| 0 <= k < names.drop_last().len() && p0[k] implies bundles.contains(
            Some(names.drop_last()[k]),
        ) by {
            assert(names.drop_last()[k] == names[k]);
        }
        lemma_reinstate_noop(bundles, names.drop_last(), p0);
    }
}

/// Reinstating is idempotent: a second pass over the same names puts nothing
/// back and leaves the bundles as the first pass left them.
pub proof fn reinstate_idempotent(bundles: Seq<Option<Seq<char>>>, names: Seq<Seq<char>>, present: Seq<bool>)
    requires
        present.len() == names.len(),
    ensures
        reinstate_fold(reinstate_fold(bundles, names, present).0, names, present) == (
            reinstate_fold(bundles, names, present).0,
            Seq::<Seq<char>>::empty(),
        ),
{
    let b1 = reinstate_fold(bundles, names, present).0;
    assert forall|k: int| 0 <= k < names.len() && present[k] implies b1.contains(Some(names[k])) by {
        lemma_reinstate_adds(bundles, names, present, k);
    }
    lemma_reinstate_noop(b1, names, present);
}

} // verus!
