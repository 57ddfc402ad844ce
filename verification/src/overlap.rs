//! Finding segments that reach into the one that follows them.

use crate::elf::segment::Phdr;
use crate::error::ElfError;
use crate::select::{
    ascending, kept, lemma_selected_ascending, lemma_selection_exists, precedes, selected,
    selection,
};
use vstd::prelude::*;

verus! {

/// Whether the segment `p` reaches beyond the start of the segment `q`: the
/// address of `p` plus its size in memory exceeds the address of `q`. The sum
/// is that of the numbers, however large.
pub open spec fn reaches_into(p: Phdr, q: Phdr) -> bool {
    p.0.p_vaddr + p.0.p_memsz > q.0.p_vaddr
}

/// A segment that reaches into the next one: where it starts, how much
/// memory it takes, and where the next one starts.
#[derive(Debug, PartialEq, Eq, Structural, Clone, Copy)]
pub struct Overlap {
    pub start: u64,
    pub size: u64,
    pub next: u64,
}

/// The overlap of the segment `p` with the segment `q` that follows it.
pub open spec fn overlap_of(p: Phdr, q: Phdr) -> Overlap {
    Overlap { start: p.0.p_vaddr, size: p.0.p_memsz, next: q.0.p_vaddr }
}

/// The overlaps among the first `n` segments of the list, each segment held
/// against the one right after it, in the order of the list.
pub open spec fn overlaps_among(segments: Seq<Phdr>, n: int) -> Seq<Overlap>
    decreases n,
{
    if n < 2 {
        Seq::empty()
    } else if reaches_into(segments[n - 2], segments[n - 1]) {
        overlaps_among(segments, n - 1).push(overlap_of(segments[n - 2], segments[n - 1]))
    } else {
        overlaps_among(segments, n - 1)
    }
}

/// The overlaps of the list: every segment that reaches into the one right
/// after it, in the order of the list.
pub open spec fn adjacent_overlaps(segments: Seq<Phdr>) -> Seq<Overlap> {
    overlaps_among(segments, segments.len() as int)
}

/// Whether the segment `p` reaches into the segment `q`.
pub fn reaches(p: &Phdr, q: &Phdr) -> (r: bool)
    ensures
        r == reaches_into(*p, *q),
{
    match p.0.p_vaddr.checked_add(p.0.p_memsz) {
        Some(end) => end > q.0.p_vaddr,
        None => true,
    }
}

/// Reports every segment of the list that reaches into the one right after
/// it. On a list in ascending order of address none goes unreported that
/// reaches into any later one.
pub fn find_overlaps(segments: &Vec<Phdr>) -> (found: Vec<Overlap>)
    ensures
        found@ == adjacent_overlaps(segments@),
{
    let mut found: Vec<Overlap> = Vec::new();
    if segments.len() < 2 {
        return found;
    }
    let mut i: usize = 1;
    while i < segments.len()
        invariant
            1 <= i <= segments@.len(),
            found@ == overlaps_among(segments@, i as int),
        decreases segments@.len() - i,
    {
        let p = segments[i - 1];
        let q = segments[i];
        if reaches(&p, &q) {
            found.push(Overlap { start: p.0.p_vaddr, size: p.0.p_memsz, next: q.0.p_vaddr });
        }
        i = i + 1;
    }
    found
}

/// Decides what the overlaps that were found mean for the run: with
/// `allow_overlaps` they are tolerated, without it the first one ends the
/// run.
pub fn check_overlaps(found: &Vec<Overlap>, allow_overlaps: bool) -> (r: Result<(), ElfError>)
    ensures
        r == if found@.len() > 0 && !allow_overlaps {
            Err::<(), ElfError>(
                ElfError::OverlapDetected { start: found@[0].start, next: found@[0].next },
            )
        } else {
            Ok(())
        },
{
    if found.len() > 0 && !allow_overlaps {
        Err(ElfError::OverlapDetected { start: found[0].start, next: found[0].next })
    } else {
        Ok(())
    }
}

/// There are overlaps among the first `n` segments exactly if one of them
/// reaches into the one right after it.
proof fn lemma_overlaps_among(segments: Seq<Phdr>, n: int)
    requires
        n <= segments.len(),
    ensures
        overlaps_among(segments, n).len() > 0 <==> exists|i: int|
            0 <= i < n - 1 && reaches_into(segments[i], #[trigger] segments[i + 1]),
    decreases n,
{
    if n >= 2 {
        lemma_overlaps_among(segments, n - 1);
        if overlaps_among(segments, n).len() > 0 {
            if reaches_into(segments[n - 2], segments[n - 1]) {
                assert(reaches_into(segments[n - 2], segments[(n - 2) + 1]));
            } else {
                let i = choose|i: int|
                    0 <= i < n - 2 && reaches_into(segments[i], #[trigger] segments[i + 1]);
                assert(reaches_into(segments[i], segments[i + 1]));
            }
        }
        if exists|i: int| 0 <= i < n - 1 && reaches_into(segments[i], #[trigger] segments[i + 1]) {
            let i = choose|i: int|
                0 <= i < n - 1 && reaches_into(segments[i], #[trigger] segments[i + 1]);
            if i < n - 2 {
                assert(reaches_into(segments[i], segments[i + 1]));
            }
        }
    }
}

/// Something is reported exactly if some segment of the list reaches into
/// the one right after it.
pub proof fn lemma_report_is_exact(segments: Seq<Phdr>)
    ensures
        adjacent_overlaps(segments).len() > 0 <==> exists|i: int|
            0 <= i < segments.len() - 1 && reaches_into(segments[i], #[trigger] segments[i + 1]),
{
    lemma_overlaps_among(segments, segments.len() as int);
}

/// On a list in ascending order of address it is enough to hold each
/// segment against the one right after it: where nothing is reported, no
/// segment reaches into any segment that comes later in the list, next to it
/// or not.
pub proof fn lemma_adjacent_scan_suffices(segments: Seq<Phdr>)
    requires
        ascending(segments),
    ensures
        adjacent_overlaps(segments).len() > 0 <==> exists|i: int, j: int|
            0 <= i < j < segments.len() && reaches_into(
                #[trigger] segments[i],
                #[trigger] segments[j],
            ),
{
    lemma_report_is_exact(segments);
    if exists|i: int, j: int|
        0 <= i < j < segments.len() && reaches_into(#[trigger] segments[i], #[trigger] segments[j]) {
        let (i, j) = choose|i: int, j: int|
            0 <= i < j < segments.len() && reaches_into(
                #[trigger] segments[i],
                #[trigger] segments[j],
            );
        if i + 1 < j {
            assert(segments[i + 1].0.p_vaddr <= segments[j].0.p_vaddr);
        }
        assert(reaches_into(segments[i], segments[i + 1]));
    }
}

/// Whether two segments clash: `p` starts no later than `q` and reaches
/// beyond the start of `q`. This is what is reported of `p` where `q` is the
/// segment right after it.
pub open spec fn clash(p: Phdr, q: Phdr) -> bool {
    p.0.p_vaddr <= q.0.p_vaddr && reaches_into(p, q)
}

/// Whether two segments clash in a way that does not hang on which of them
/// comes first: `p` reaches into `q`, and `q` starts at a higher address or
/// takes memory itself.
pub open spec fn firm_clash(p: Phdr, q: Phdr) -> bool {
    clash(p, q) && (p.0.p_vaddr < q.0.p_vaddr || q.0.p_memsz > 0)
}

/// Whether the address `x` lies in the memory that the segment takes.
pub open spec fn covers(p: Phdr, x: int) -> bool {
    p.0.p_vaddr <= x < p.0.p_vaddr + p.0.p_memsz
}

/// Whether the two segments overlap: some address lies in both.
pub open spec fn overlapping(p: Phdr, q: Phdr) -> bool {
    exists|x: int| #[trigger] covers(p, x) && covers(q, x)
}

/// Two segments that overlap clash firmly, one way round or the other.
pub proof fn lemma_overlapping_segments_clash(p: Phdr, q: Phdr)
    requires
        overlapping(p, q),
    ensures
        firm_clash(p, q) || firm_clash(q, p),
{
    let x = choose|x: int| #[trigger] covers(p, x) && covers(q, x);
    assert(covers(p, x) && covers(q, x));
}

/// Whether some two different entries of the table that are to be copied
/// clash. This speaks of pairs of entries, not of where in the table they
/// stand.
pub open spec fn has_clash(table: Seq<Phdr>, if_: Option<u32>, if_not: Option<u32>) -> bool {
    exists|i: int, j: int|
        i != j && #[trigger] kept(table, if_, if_not, i) && #[trigger] kept(table, if_, if_not, j)
            && clash(table[i], table[j])
}

/// Whether some two different entries of the table that are to be copied
/// clash firmly.
pub open spec fn has_firm_clash(table: Seq<Phdr>, if_: Option<u32>, if_not: Option<u32>) -> bool {
    exists|i: int, j: int|
        i != j && #[trigger] kept(table, if_, if_not, i) && #[trigger] kept(table, if_, if_not, j)
            && firm_clash(table[i], table[j])
}

/// Whether the entries to copy that share an address are alike in being
/// empty: none of them takes memory, or each of them does.
pub open spec fn ties_alike(table: Seq<Phdr>, if_: Option<u32>, if_not: Option<u32>) -> bool {
    forall|i: int, j: int|
        #[trigger] kept(table, if_, if_not, i) && #[trigger] kept(table, if_, if_not, j)
            && table[i].0.p_vaddr == table[j].0.p_vaddr ==> (table[i].0.p_memsz == 0
            <==> table[j].0.p_memsz == 0)
}

/// Sorting by address and holding each segment against the next finds every
/// clash among the entries to copy, not only those of entries that stand
/// side by side in the table, and in whatever order the table holds them:
/// if any two of them clash firmly, something is reported. And nothing is
/// reported without cause: if something is reported, some two of them
/// clash. The two meet where the entries that share an address are alike in
/// being empty: then every clash is a firm one.
pub proof fn lemma_scan_finds_every_clash(
    table: Seq<Phdr>,
    if_: Option<u32>,
    if_not: Option<u32>,
)
    ensures
        has_firm_clash(table, if_, if_not) ==> adjacent_overlaps(selected(table, if_, if_not)).len()
            > 0,
        adjacent_overlaps(selected(table, if_, if_not)).len() > 0 ==> has_clash(table, if_, if_not),
        ties_alike(table, if_, if_not) && has_clash(table, if_, if_not) ==> has_firm_clash(
            table,
            if_,
            if_not,
        ),
{
    let picks = selection(table, if_, if_not);
    let segments = selected(table, if_, if_not);
    lemma_selection_exists(table, if_, if_not);
    lemma_selected_ascending(table, if_, if_not);
    lemma_adjacent_scan_suffices(segments);
    if adjacent_overlaps(segments).len() > 0 {
        let (a, b) = choose|a: int, b: int|
            0 <= a < b < segments.len() && reaches_into(
                #[trigger] segments[a],
                #[trigger] segments[b],
            );
        assert(precedes(table, picks[a], picks[b]));
        assert(kept(table, if_, if_not, picks[a]) && kept(table, if_, if_not, picks[b]));
        assert(clash(table[picks[a]], table[picks[b]]));
    }
    if has_firm_clash(table, if_, if_not) {
        let (i, j) = choose|i: int, j: int|
            i != j && #[trigger] kept(table, if_, if_not, i) && #[trigger] kept(
                table,
                if_,
                if_not,
                j,
            ) && firm_clash(table[i], table[j]);
        assert(picks.contains(i) && picks.contains(j));
        let a = choose|a: int| 0 <= a < picks.len() && picks[a] == i;
        let b = choose|b: int| 0 <= b < picks.len() && picks[b] == j;
        if a < b {
            assert(reaches_into(segments[a], segments[b]));
        } else {
            assert(precedes(table, picks[b], picks[a]));
            assert(reaches_into(segments[b], segments[a]));
        }
    }
    if ties_alike(table, if_, if_not) && has_clash(table, if_, if_not) {
        let (i, j) = choose|i: int, j: int|
            i != j && #[trigger] kept(table, if_, if_not, i) && #[trigger] kept(
                table,
                if_,
                if_not,
                j,
            ) && clash(table[i], table[j]);
        assert(firm_clash(table[i], table[j]));
    }
}

/// Whether the table `b` holds the entries of the table `a` in another
/// order: `to` says where each entry of `a` stands in `b`, and `back` where
/// each entry of `b` stood in `a`.
pub open spec fn is_rearrangement(a: Seq<Phdr>, b: Seq<Phdr>, to: Seq<int>, back: Seq<int>) -> bool {
    &&& a.len() == b.len()
    &&& to.len() == a.len()
    &&& back.len() == b.len()
    &&& forall|i: int|
        0 <= i < a.len() ==> 0 <= #[trigger] to[i] < b.len() && b[to[i]] == a[i] && back[to[i]]
            == i
    &&& forall|j: int|
        0 <= j < b.len() ==> 0 <= #[trigger] back[j] < a.len() && a[back[j]] == b[j] && to[back[j]]
            == j
}

/// Whether the two tables hold the same entries, in whatever order.
pub open spec fn rearranged(a: Seq<Phdr>, b: Seq<Phdr>) -> bool {
    exists|to: Seq<int>, back: Seq<int>| is_rearrangement(a, b, to, back)
}

/// What holds of the entries of a table, taken two by two, holds of the
/// entries of any table that holds the same entries.
proof fn lemma_pairs_move(
    a: Seq<Phdr>,
    b: Seq<Phdr>,
    to: Seq<int>,
    back: Seq<int>,
    if_: Option<u32>,
    if_not: Option<u32>,
)
    requires
        is_rearrangement(a, b, to, back),
    ensures
        has_clash(a, if_, if_not) ==> has_clash(b, if_, if_not),
        has_firm_clash(a, if_, if_not) ==> has_firm_clash(b, if_, if_not),
        ties_alike(a, if_, if_not) ==> ties_alike(b, if_, if_not),
{
    if has_clash(a, if_, if_not) {
        let (i, j) = choose|i: int, j: int|
            i != j && #[trigger] kept(a, if_, if_not, i) && #[trigger] kept(a, if_, if_not, j)
                && clash(a[i], a[j]);
        assert(back[to[i]] == i && back[to[j]] == j);
        assert(kept(b, if_, if_not, to[i]) && kept(b, if_, if_not, to[j]));
        assert(clash(b[to[i]], b[to[j]]));
    }
    if has_firm_clash(a, if_, if_not) {
        let (i, j) = choose|i: int, j: int|
            i != j && #[trigger] kept(a, if_, if_not, i) && #[trigger] kept(a, if_, if_not, j)
                && firm_clash(a[i], a[j]);
        assert(back[to[i]] == i && back[to[j]] == j);
        assert(kept(b, if_, if_not, to[i]) && kept(b, if_, if_not, to[j]));
        assert(firm_clash(b[to[i]], b[to[j]]));
    }
    if ties_alike(a, if_, if_not) {
        assert forall|i: int, j: int|
            #[trigger] kept(b, if_, if_not, i) && #[trigger] kept(b, if_, if_not, j)
                && b[i].0.p_vaddr == b[j].0.p_vaddr implies (b[i].0.p_memsz == 0 <==> b[j].0.p_memsz
            == 0) by {
            assert(kept(a, if_, if_not, back[i]) && kept(a, if_, if_not, back[j]));
        }
    }
}

/// Whether an overlap is found does not depend on the order in which the
/// table holds its entries: of two tables with the same entries, both have
/// one reported or both have none. This holds where some two entries clash
/// firmly, and where the entries that share an address are alike in being
/// empty. It does not hold of an empty segment that shares its address with
/// a single non-empty one and clashes with nothing else: that pair is
/// reported if the non-empty one stands first in the table, and not if the
/// empty one does.
pub proof fn lemma_detection_ignores_table_order(
    a: Seq<Phdr>,
    b: Seq<Phdr>,
    if_: Option<u32>,
    if_not: Option<u32>,
)
    requires
        rearranged(a, b),
        has_firm_clash(a, if_, if_not) || ties_alike(a, if_, if_not),
    ensures
        adjacent_overlaps(selected(a, if_, if_not)).len() > 0 <==> adjacent_overlaps(
            selected(b, if_, if_not),
        ).len() > 0,
{
    let (to, back) = choose|to: Seq<int>, back: Seq<int>| is_rearrangement(a, b, to, back);
    lemma_scan_finds_every_clash(a, if_, if_not);
    lemma_scan_finds_every_clash(b, if_, if_not);
    lemma_pairs_move(a, b, to, back, if_, if_not);
    lemma_pairs_move(b, a, back, to, if_, if_not);
}

/// No overlap goes unnoticed: if any two of the entries to copy overlap,
/// wherever in the table they stand, something is reported.
pub proof fn lemma_every_overlap_is_noticed(
    table: Seq<Phdr>,
    if_: Option<u32>,
    if_not: Option<u32>,
    i: int,
    j: int,
)
    requires
        i != j,
        kept(table, if_, if_not, i),
        kept(table, if_, if_not, j),
        overlapping(table[i], table[j]),
    ensures
        adjacent_overlaps(selected(table, if_, if_not)).len() > 0,
{
    lemma_overlapping_segments_clash(table[i], table[j]);
    lemma_scan_finds_every_clash(table, if_, if_not);
}

} // verus!
