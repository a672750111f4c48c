//! Placement data of the synth dressing kit, probed from its GLBs: which way
//! a prop faces, how it snaps, and what a cover piece stacks on.

use vstd::prelude::*;

use crate::text::str_eq;

verus! {

/// How one synth stem is placed (the non-metric part of its catalogue entry).
#[derive(Clone, Debug)]
pub struct StemPlacement {
    pub class: String,
    /// `+z` or `-z`: the local axis a prop's front points along.
    pub front: String,
    /// Snap rule: `back_z`, `stack`, `cell`, ...
    pub snap: String,
    pub deck_y: String,
    /// For a cover piece: the stem it stacks on.
    pub stack_on: Option<String>,
}

/// Stem to placement. A later entry for a stem replaces an earlier one, as a
/// map read from a catalogue file does.
#[derive(Clone, Debug)]
pub struct SynthCatalog {
    entries: Vec<(String, StemPlacement)>,
}

/// `i` is the last entry whose stem is `stem`.
pub open spec fn is_last_entry(entries: Seq<(String, StemPlacement)>, stem: Seq<char>, i: int) -> bool {
    &&& 0 <= i < entries.len()
    &&& entries[i].0@ == stem
    &&& forall|j: int| i < j < entries.len() ==> #[trigger] entries[j].0@ != stem
}

proof fn lemma_last_unique(entries: Seq<(String, StemPlacement)>, stem: Seq<char>, i: int, k: int)
    requires
        is_last_entry(entries, stem, i),
        is_last_entry(entries, stem, k),
    ensures
        i == k,
{
    if i < k {
        assert(entries[k].0@ != stem);
    } else if k < i {
        assert(entries[i].0@ != stem);
    }
}

impl SynthCatalog {
    /// What the catalogue says of `stem`, if anything.
    pub closed spec fn lookup_spec(&self, stem: Seq<char>) -> Option<StemPlacement> {
        if exists|i: int| is_last_entry(self.entries@, stem, i) {
            Some(self.entries@[choose|i: int| is_last_entry(self.entries@, stem, i)].1)
        } else {
            None
        }
    }

    /// A catalogue with no stems.
    pub fn new() -> (r: Self)
        ensures
            forall|k: Seq<char>| #[trigger] r.lookup_spec(k) is None,
    {
        SynthCatalog { entries: Vec::new() }
    }

    /// Record `placement` for `stem`, replacing what was there.
    pub fn insert(&mut self, stem: String, placement: StemPlacement)
        ensures
            final(self).lookup_spec(stem@) == Some(placement),
            forall|k: Seq<char>| k != stem@ ==> #[trigger] final(self).lookup_spec(k) == old(self).lookup_spec(k),
    {
        let ghost pre = self.entries@;
        let ghost key = stem@;
        self.entries.push((stem, placement));
        proof {
            let n = pre.len() as int;
            assert(is_last_entry(self.entries@, key, n));
            let c = choose|i: int| is_last_entry(self.entries@, key, i);
            lemma_last_unique(self.entries@, key, n, c);
            assert forall|k: Seq<char>| k != key implies #[trigger] self.lookup_spec(k) == pre_lookup(pre, k) by {
                if exists|i: int| is_last_entry(pre, k, i) {
                    let i = choose|i: int| is_last_entry(pre, k, i);
                    assert(is_last_entry(self.entries@, k, i));
                    let c2 = choose|i: int| is_last_entry(self.entries@, k, i);
                    lemma_last_unique(self.entries@, k, i, c2);
                } else if exists|i: int| is_last_entry(self.entries@, k, i) {
                    let i = choose|i: int| is_last_entry(self.entries@, k, i);
                    assert(i < n);
                    assert forall|j: int| i < j < n implies #[trigger] pre[j].0@ != k by {
                        assert(self.entries@[j] == pre[j]);
                    }
                    assert(self.entries@[i] == pre[i]);
                    assert(is_last_entry(pre, k, i));
                }
            }
        }
    }

    /// What the catalogue says of `stem`.
    pub fn lookup(&self, stem: &str) -> (r: Option<&StemPlacement>)
        ensures
            r is Some == self.lookup_spec(stem@) is Some,
            r matches Some(p) ==> self.lookup_spec(stem@) == Some(*p),
    {
        let mut i: usize = self.entries.len();
        while i > 0
            invariant
                i <= self.entries@.len(),
                forall|j: int| i <= j < self.entries@.len() ==> #[trigger] self.entries@[j].0@ != stem@,
            decreases i,
        {
            i = i - 1;
            if str_eq(self.entries[i].0.as_str(), stem) {
                proof {
                    assert(is_last_entry(self.entries@, stem@, i as int));
                    let c = choose|k: int| is_last_entry(self.entries@, stem@, k);
                    lemma_last_unique(self.entries@, stem@, i as int, c);
                }
                return Some(&self.entries[i].1);
            }
        }
        None
    }
}

/// The lookup a catalogue with entries `entries` answers for `stem`.
pub open spec fn pre_lookup(entries: Seq<(String, StemPlacement)>, stem: Seq<char>) -> Option<StemPlacement> {
    if exists|i: int| is_last_entry(entries, stem, i) {
        Some(entries[choose|i: int| is_last_entry(entries, stem, i)].1)
    } else {
        None
    }
}

/// The catalogue marks `stem`'s front as local -Z.
pub open spec fn faces_minus_z(catalog: SynthCatalog, stem: Seq<char>) -> bool {
    catalog.lookup_spec(stem) matches Some(p) && p.front@ == "-z"@
}

/// The catalogue snaps `stem` by the given rule.
pub open spec fn snaps_by(catalog: SynthCatalog, stem: Seq<char>, rule: Seq<char>) -> bool {
    catalog.lookup_spec(stem) matches Some(p) && p.snap@ == rule
}

/// `1` when a prop's front is local +Z, `-1` when it is local -Z.
pub fn front_sign(catalog: &SynthCatalog, stem: &str) -> (r: i8)
    ensures
        r == (if faces_minus_z(*catalog, stem@) { -1i8 } else { 1i8 }),
{
    match catalog.lookup(stem) {
        Some(p) => if str_eq(p.front.as_str(), "-z") {
            -1
        } else {
            1
        },
        None => 1,
    }
}

/// The stem's head or back edge sits on the snap point.
pub fn uses_back_anchor(catalog: &SynthCatalog, stem: &str) -> (r: bool)
    ensures
        r == snaps_by(*catalog, stem@, "back_z"@),
{
    match catalog.lookup(stem) {
        Some(p) => str_eq(p.snap.as_str(), "back_z"),
        None => false,
    }
}

/// The stem is a cover that stacks on another piece.
pub fn is_stack_cover(catalog: &SynthCatalog, stem: &str) -> (r: bool)
    ensures
        r == snaps_by(*catalog, stem@, "stack"@),
{
    match catalog.lookup(stem) {
        Some(p) => str_eq(p.snap.as_str(), "stack"),
        None => false,
    }
}

/// The stem a cover piece stacks on.
pub fn stack_base_stem<'a>(catalog: &'a SynthCatalog, stem: &str) -> (r: Option<&'a str>)
    ensures
        r is Some == (catalog.lookup_spec(stem@) matches Some(p) && p.stack_on is Some),
        r matches Some(s) ==> catalog.lookup_spec(stem@) matches Some(p) && p.stack_on matches Some(b) && s@ == b@,
{
    match catalog.lookup(stem) {
        Some(p) => match &p.stack_on {
            Some(b) => Some(b.as_str()),
            None => None,
        },
        None => None,
    }
}

} // verus!
