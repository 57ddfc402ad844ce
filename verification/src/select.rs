//! Picking the segments to copy: the loadable ones that pass the flag masks,
//! in ascending order of address.

use crate::elf::program::{Flags, Type};
use crate::elf::segment::Phdr;
use vstd::prelude::*;

verus! {

/// Whether a segment is one to copy: it is loadable, it has every flag bit of
/// the mask `if_`, and it has no flag bit of the mask `if_not`. A mask that
/// is not given asks for nothing.
pub open spec fn admits(p: Phdr, if_: Option<u32>, if_not: Option<u32>) -> bool {
    &&& p.0.p_type == Type::PT_LOAD
    &&& if_ matches Some(mask) ==> p.0.p_flags & mask == mask
    &&& if_not matches Some(mask) ==> p.0.p_flags & mask == 0
}

/// Whether `i` is the index of an entry of the table that is to be copied.
pub open spec fn kept(table: Seq<Phdr>, if_: Option<u32>, if_not: Option<u32>, i: int) -> bool {
    0 <= i < table.len() && admits(table[i], if_, if_not)
}

/// Whether entry `i` of the table is copied before entry `j`: the one at the
/// lower address goes first, and of two at the same address the one that
/// stands first in the table.
pub open spec fn precedes(table: Seq<Phdr>, i: int, j: int) -> bool {
    table[i].0.p_vaddr < table[j].0.p_vaddr || (table[i].0.p_vaddr == table[j].0.p_vaddr && i < j)
}

/// Whether `picks` lists, in the order of copying, the indices below `n` of
/// the entries to copy: every index listed is kept, every kept index below
/// `n` is listed, and each one listed precedes those listed after it.
pub open spec fn is_selection_upto(
    table: Seq<Phdr>,
    if_: Option<u32>,
    if_not: Option<u32>,
    n: int,
    picks: Seq<int>,
) -> bool {
    &&& forall|k: int|
        0 <= k < picks.len() ==> #[trigger] picks[k] < n && kept(table, if_, if_not, picks[k])
    &&& forall|i: int| i < n && #[trigger] kept(table, if_, if_not, i) ==> picks.contains(i)
    &&& forall|a: int, b: int|
        0 <= a < b < picks.len() ==> precedes(table, #[trigger] picks[a], #[trigger] picks[b])
}

/// Whether `picks` lists the indices of all entries of the table that are to
/// be copied, in the order of copying.
pub open spec fn is_selection(
    table: Seq<Phdr>,
    if_: Option<u32>,
    if_not: Option<u32>,
    picks: Seq<int>,
) -> bool {
    is_selection_upto(table, if_, if_not, table.len() as int, picks)
}

/// The indices of the entries of the table that are to be copied, in the
/// order of copying. There is exactly one such list for every table.
pub open spec fn selection(table: Seq<Phdr>, if_: Option<u32>, if_not: Option<u32>) -> Seq<int> {
    choose|picks: Seq<int>| is_selection(table, if_, if_not, picks)
}

/// The segments to copy, in the order of copying.
pub open spec fn selected(table: Seq<Phdr>, if_: Option<u32>, if_not: Option<u32>) -> Seq<Phdr> {
    selection(table, if_, if_not).map_values(|i: int| table[i])
}

/// Whether the addresses of the segments never go down along the list.
pub open spec fn ascending(segments: Seq<Phdr>) -> bool {
    forall|a: int, b: int|
        0 <= a < b < segments.len() ==> (#[trigger] segments[a]).0.p_vaddr
            <= (#[trigger] segments[b]).0.p_vaddr
}

/// Adding entry `n` at the place `pos` of a selection of the entries below
/// `n` gives the selection of the entries up to `n`, where `pos` parts the
/// listed entries at addresses up to that of entry `n` from those above it.
proof fn lemma_insert(
    table: Seq<Phdr>,
    if_: Option<u32>,
    if_not: Option<u32>,
    n: int,
    picks: Seq<int>,
    pos: int,
)
    requires
        is_selection_upto(table, if_, if_not, n, picks),
        kept(table, if_, if_not, n),
        0 <= pos <= picks.len(),
        forall|k: int| 0 <= k < pos ==> table[#[trigger] picks[k]].0.p_vaddr <= table[n].0.p_vaddr,
        forall|k: int|
            pos <= k < picks.len() ==> table[#[trigger] picks[k]].0.p_vaddr > table[n].0.p_vaddr,
    ensures
        is_selection_upto(table, if_, if_not, n + 1, picks.insert(pos, n)),
{
    let grown = picks.insert(pos, n);
    assert forall|k: int| 0 <= k < grown.len() implies #[trigger] grown[k] < n + 1 && kept(
        table,
        if_,
        if_not,
        grown[k],
    ) by {
        if k < pos {
            assert(grown[k] == picks[k]);
        } else if k > pos {
            assert(grown[k] == picks[k - 1]);
        }
    }
    assert forall|i: int| i < n + 1 && #[trigger] kept(table, if_, if_not, i) implies grown.contains(
        i,
    ) by {
        if i == n {
            assert(grown[pos] == n);
        } else {
            assert(picks.contains(i));
            let k = choose|k: int| 0 <= k < picks.len() && picks[k] == i;
            if k < pos {
                assert(grown[k] == i);
            } else {
                assert(grown[k + 1] == i);
            }
        }
    }
    assert forall|a: int, b: int| 0 <= a < b < grown.len() implies precedes(
        table,
        #[trigger] grown[a],
        #[trigger] grown[b],
    ) by {
        if b < pos {
            assert(grown[a] == picks[a] && grown[b] == picks[b]);
        } else if b == pos {
            assert(grown[a] == picks[a]);
        } else if a < pos {
            assert(grown[a] == picks[a] && grown[b] == picks[b - 1]);
        } else if a == pos {
            assert(grown[b] == picks[b - 1]);
        } else {
            assert(grown[a] == picks[a - 1] && grown[b] == picks[b - 1]);
        }
    }
}

/// In a selection there is a place that parts the entries at addresses up
/// to `addr` from those above it.
proof fn lemma_insertion_point(
    table: Seq<Phdr>,
    if_: Option<u32>,
    if_not: Option<u32>,
    n: int,
    picks: Seq<int>,
    addr: int,
    hi: int,
) -> (pos: int)
    requires
        is_selection_upto(table, if_, if_not, n, picks),
        0 <= hi <= picks.len(),
        forall|k: int| hi <= k < picks.len() ==> table[#[trigger] picks[k]].0.p_vaddr > addr,
    ensures
        0 <= pos <= picks.len(),
        forall|k: int| 0 <= k < pos ==> table[#[trigger] picks[k]].0.p_vaddr <= addr,
        forall|k: int| pos <= k < picks.len() ==> table[#[trigger] picks[k]].0.p_vaddr > addr,
    decreases hi,
{
    if hi == 0 {
        0
    } else if table[picks[hi - 1]].0.p_vaddr > addr {
        lemma_insertion_point(table, if_, if_not, n, picks, addr, hi - 1)
    } else {
        assert forall|k: int| 0 <= k < hi implies table[#[trigger] picks[k]].0.p_vaddr <= addr by {
            if k < hi - 1 {
                assert(precedes(table, picks[k], picks[hi - 1]));
            }
        }
        hi
    }
}

/// The entries below `n` have a selection, for every `n` up to the length
/// of the table.
proof fn lemma_selection_upto_exists(
    table: Seq<Phdr>,
    if_: Option<u32>,
    if_not: Option<u32>,
    n: int,
) -> (picks: Seq<int>)
    requires
        0 <= n <= table.len(),
    ensures
        is_selection_upto(table, if_, if_not, n, picks),
    decreases n,
{
    if n == 0 {
        Seq::<int>::empty()
    } else {
        let before = lemma_selection_upto_exists(table, if_, if_not, n - 1);
        if kept(table, if_, if_not, n - 1) {
            let pos = lemma_insertion_point(
                table,
                if_,
                if_not,
                n - 1,
                before,
                table[n - 1].0.p_vaddr as int,
                before.len() as int,
            );
            lemma_insert(table, if_, if_not, n - 1, before, pos);
            before.insert(pos, n - 1)
        } else {
            before
        }
    }
}

/// Two selections of the same table agree on their first `k` places.
proof fn lemma_selections_agree(
    table: Seq<Phdr>,
    if_: Option<u32>,
    if_not: Option<u32>,
    p: Seq<int>,
    q: Seq<int>,
    k: int,
)
    requires
        is_selection(table, if_, if_not, p),
        is_selection(table, if_, if_not, q),
        0 <= k <= p.len(),
    ensures
        k <= q.len(),
        forall|j: int| 0 <= j < k ==> p[j] == q[j],
    decreases k,
{
    if k > 0 {
        lemma_selections_agree(table, if_, if_not, p, q, k - 1);
        let x = p[k - 1];
        assert(kept(table, if_, if_not, x));
        assert(q.contains(x));
        let m = choose|m: int| 0 <= m < q.len() && q[m] == x;
        if m < k - 1 {
            assert(precedes(table, p[m], p[k - 1]));
            assert(false);
        }
        let y = q[k - 1];
        assert(kept(table, if_, if_not, y));
        assert(p.contains(y));
        let m2 = choose|m2: int| 0 <= m2 < p.len() && p[m2] == y;
        if m2 < k - 1 {
            assert(precedes(table, q[m2], q[k - 1]));
            assert(false);
        }
        if m > k - 1 {
            assert(precedes(table, q[k - 1], q[m]));
            if m2 > k - 1 {
                assert(precedes(table, p[k - 1], p[m2]));
            }
            assert(false);
        }
    }
}

/// A table has only one selection: what is kept and the order of copying
/// leave no choice.
pub proof fn lemma_selection_is_unique(
    table: Seq<Phdr>,
    if_: Option<u32>,
    if_not: Option<u32>,
    p: Seq<int>,
    q: Seq<int>,
)
    requires
        is_selection(table, if_, if_not, p),
        is_selection(table, if_, if_not, q),
    ensures
        p == q,
{
    lemma_selections_agree(table, if_, if_not, p, q, p.len() as int);
    lemma_selections_agree(table, if_, if_not, q, p, q.len() as int);
    assert(p =~= q);
}

/// Every table has its selection: the list that `selection` names holds
/// exactly the kept entries, each before those that it precedes.
pub proof fn lemma_selection_exists(table: Seq<Phdr>, if_: Option<u32>, if_not: Option<u32>)
    ensures
        is_selection(table, if_, if_not, selection(table, if_, if_not)),
        selected(table, if_, if_not).len() == selection(table, if_, if_not).len(),
{
    let picks = lemma_selection_upto_exists(table, if_, if_not, table.len() as int);
    assert(is_selection(table, if_, if_not, picks));
}

/// Whether a segment is one to copy.
pub fn admitted(p: &Phdr, if_: Option<u32>, if_not: Option<u32>) -> (r: bool)
    ensures
        r == admits(*p, if_, if_not),
{
    if p.0.p_type != Type::PT_LOAD {
        return false;
    }
    match if_ {
        Some(mask) => {
            if p.0.p_flags & mask != mask {
                return false;
            }
        },
        None => {},
    }
    match if_not {
        Some(mask) => {
            if p.0.p_flags & mask != 0 {
                return false;
            }
        },
        None => {},
    }
    true
}

/// Picks the segments to copy out of the table and puts them in the order of
/// copying: ascending by address, and in table order where addresses are
/// equal.
pub fn select_segments(
    table: &Vec<Phdr>,
    if_: Option<u32>,
    if_not: Option<u32>,
) -> (out: Vec<Phdr>)
    ensures
        out@ == selected(table@, if_, if_not),
{
    let mut out: Vec<Phdr> = Vec::new();
    let ghost mut picks: Seq<int> = Seq::empty();
    let mut i: usize = 0;
    while i < table.len()
        invariant
            i <= table@.len(),
            is_selection_upto(table@, if_, if_not, i as int, picks),
            out@.len() == picks.len(),
            forall|k: int| 0 <= k < out@.len() ==> out@[k] == table@[#[trigger] picks[k]],
        decreases table@.len() - i,
    {
        let entry = table[i];
        if admitted(&entry, if_, if_not) {
            let mut pos: usize = out.len();
            while pos > 0 && out[pos - 1].0.p_vaddr > entry.0.p_vaddr
                invariant
                    pos <= out@.len(),
                    forall|k: int| pos <= k < out@.len() ==> out@[k].0.p_vaddr > entry.0.p_vaddr,
                decreases pos,
            {
                pos = pos - 1;
            }
            proof {
                assert forall|k: int| 0 <= k < pos implies table@[#[trigger] picks[k]].0.p_vaddr
                    <= entry.0.p_vaddr by {
                    if k < pos - 1 {
                        assert(precedes(table@, picks[k], picks[pos - 1]));
                    }
                    assert(out@[pos - 1] == table@[picks[pos - 1]]);
                }
                assert forall|k: int| pos <= k < picks.len() implies table@[#[trigger] picks[k]].0.p_vaddr
                    > entry.0.p_vaddr by {
                    assert(out@[k] == table@[picks[k]]);
                }
                lemma_insert(table@, if_, if_not, i as int, picks, pos as int);
                picks = picks.insert(pos as int, i as int);
            }
            out.insert(pos, entry);
        }
        i = i + 1;
    }
    proof {
        lemma_selection_exists(table@, if_, if_not);
        lemma_selection_is_unique(table@, if_, if_not, picks, selection(table@, if_, if_not));
        assert(out@ =~= selected(table@, if_, if_not));
    }
    out
}

/// The segments come out in ascending order of address.
pub proof fn lemma_selected_ascending(table: Seq<Phdr>, if_: Option<u32>, if_not: Option<u32>)
    ensures
        ascending(selected(table, if_, if_not)),
{
    lemma_selection_exists(table, if_, if_not);
    let picks = selection(table, if_, if_not);
    let segments = selected(table, if_, if_not);
    assert forall|a: int, b: int| 0 <= a < b < segments.len() implies (#[trigger] segments[a]).0.p_vaddr
        <= (#[trigger] segments[b]).0.p_vaddr by {
        assert(precedes(table, picks[a], picks[b]));
    }
}

/// The order is stable: of two segments at the same address, the one that
/// comes out first is the one that stands first in the table.
pub proof fn lemma_selection_is_stable(
    table: Seq<Phdr>,
    if_: Option<u32>,
    if_not: Option<u32>,
    a: int,
    b: int,
)
    requires
        0 <= a < b < selection(table, if_, if_not).len(),
        selected(table, if_, if_not)[a].0.p_vaddr == selected(table, if_, if_not)[b].0.p_vaddr,
    ensures
        selection(table, if_, if_not)[a] < selection(table, if_, if_not)[b],
{
    lemma_selection_exists(table, if_, if_not);
    let picks = selection(table, if_, if_not);
    assert(precedes(table, picks[a], picks[b]));
}

/// Nothing is lost and nothing is added: an entry of the table comes out if
/// and only if it is loadable and passes both masks, and it comes out once.
pub proof fn lemma_selection_is_exact(
    table: Seq<Phdr>,
    if_: Option<u32>,
    if_not: Option<u32>,
    i: int,
)
    ensures
        selection(table, if_, if_not).contains(i) <==> kept(table, if_, if_not, i),
        forall|a: int, b: int|
            0 <= a < b < selection(table, if_, if_not).len() ==> selection(table, if_, if_not)[a]
                != selection(table, if_, if_not)[b],
{
    lemma_selection_exists(table, if_, if_not);
    let picks = selection(table, if_, if_not);
    if picks.contains(i) {
        let k = choose|k: int| 0 <= k < picks.len() && picks[k] == i;
        assert(kept(table, if_, if_not, picks[k]));
    }
    assert forall|a: int, b: int| 0 <= a < b < picks.len() implies picks[a] != picks[b] by {
        assert(precedes(table, picks[a], picks[b]));
    }
}

/// With the mask "executable" to include and none to exclude, the segments
/// that come out are the loadable ones with the executable bit set, whatever
/// their readable and writable bits are.
pub proof fn lemma_executable_mask(table: Seq<Phdr>, i: int)
    requires
        0 <= i < table.len(),
    ensures
        selection(table, Some(Flags::PF_X), None).contains(i) <==> (table[i].0.p_type
            == Type::PT_LOAD && Flags(table[i].0.p_flags).has_any(Flags::PF_X)),
{
    lemma_selection_is_exact(table, Some(Flags::PF_X), None, i);
    let flags = table[i].0.p_flags;
    assert((flags & 1 == 1) <==> (flags & 1 != 0)) by (bit_vector);
}

} // verus!
