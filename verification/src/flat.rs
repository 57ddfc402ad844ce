//! Laying the segments out in the flat image: where the image starts, and
//! which bytes of the file go where.

use crate::elf::segment::Phdr;
use crate::select::ascending;
use vstd::prelude::*;

verus! {

/// Whether `base` is the address at which the flat image starts: the address
/// that was asked for, if one was; else the lowest address of any segment;
/// else, with no segment at all, zero.
pub open spec fn is_base_of(base: u64, segments: Seq<Phdr>, asked: Option<u64>) -> bool {
    match asked {
        Some(address) => base == address,
        None => if segments.len() == 0 {
            base == 0
        } else {
            &&& exists|i: int| 0 <= i < segments.len() && (#[trigger] segments[i]).0.p_vaddr == base
            &&& forall|i: int| 0 <= i < segments.len() ==> base <= (#[trigger] segments[i]).0.p_vaddr
        },
    }
}

/// The address at which the flat image starts.
pub fn resolve_base(segments: &Vec<Phdr>, asked: Option<u64>) -> (base: u64)
    ensures
        is_base_of(base, segments@, asked),
{
    match asked {
        Some(address) => address,
        None => {
            if segments.len() == 0 {
                return 0;
            }
            let mut lowest: u64 = segments[0].0.p_vaddr;
            let mut i: usize = 1;
            while i < segments.len()
                invariant
                    1 <= i <= segments@.len(),
                    exists|k: int| 0 <= k < i && (#[trigger] segments@[k]).0.p_vaddr == lowest,
                    forall|k: int| 0 <= k < i ==> lowest <= (#[trigger] segments@[k]).0.p_vaddr,
                decreases segments@.len() - i,
            {
                if segments[i].0.p_vaddr < lowest {
                    lowest = segments[i].0.p_vaddr;
                }
                i = i + 1;
            }
            lowest
        },
    }
}

/// One piece of work for whoever moves the bytes: copy `len` bytes that
/// start at `source` in the file to the place `dest` of the flat image.
#[derive(Debug, PartialEq, Eq, Structural, Clone, Copy)]
pub struct CopyOp {
    pub source: u64,
    pub dest: u64,
    pub len: u64,
}

/// The copy that brings the segment `p` into an image that starts at `base`:
/// as many bytes as the file holds of it, from where the file holds them, to
/// the place that lies as far from the start of the image as the segment
/// lies from `base`.
pub open spec fn copy_of(p: Phdr, base: u64) -> CopyOp
    recommends
        base <= p.0.p_vaddr,
{
    CopyOp { source: p.0.p_offset, dest: (p.0.p_vaddr - base) as u64, len: p.0.p_filesz }
}

/// Whether every segment has a place in an image that starts at `base`.
pub open spec fn all_placed(segments: Seq<Phdr>, base: u64) -> bool {
    forall|i: int| 0 <= i < segments.len() ==> base <= (#[trigger] segments[i]).0.p_vaddr
}

/// The copies that make the flat image, one for each segment and in the
/// order of the segments. There is a plan exactly if no segment lies below
/// `base`: such a segment has no place in the image. What lies between the
/// copies, and between the end of a segment's bytes in the file and the end
/// of its memory, is written by none of them.
pub fn copy_plan(segments: &Vec<Phdr>, base: u64) -> (plan: Option<Vec<CopyOp>>)
    ensures
        plan is Some <==> all_placed(segments@, base),
        plan matches Some(copies) ==> copies@ == segments@.map_values(|p: Phdr| copy_of(p, base)),
{
    let mut copies: Vec<CopyOp> = Vec::new();
    let mut i: usize = 0;
    while i < segments.len()
        invariant
            i <= segments@.len(),
            forall|k: int| 0 <= k < i ==> base <= (#[trigger] segments@[k]).0.p_vaddr,
            copies@ == segments@.take(i as int).map_values(|p: Phdr| copy_of(p, base)),
        decreases segments@.len() - i,
    {
        let p = segments[i];
        if p.0.p_vaddr < base {
            return None;
        }
        copies.push(CopyOp { source: p.0.p_offset, dest: p.0.p_vaddr - base, len: p.0.p_filesz });
        i = i + 1;
    }
    assert(segments@.take(i as int) =~= segments@);
    Some(copies)
}

/// Where no base is asked for, every segment has its place in the image,
/// and on a list in ascending order of address the image starts at the
/// first segment, whose bytes go to the very start of it.
pub proof fn lemma_default_base_places_all(segments: Seq<Phdr>, base: u64)
    requires
        is_base_of(base, segments, None),
    ensures
        all_placed(segments, base),
        ascending(segments) && segments.len() > 0 ==> base == segments[0].0.p_vaddr && copy_of(
            segments[0],
            base,
        ).dest == 0,
{
    if ascending(segments) && segments.len() > 0 {
        let i = choose|i: int| 0 <= i < segments.len() && (#[trigger] segments[i]).0.p_vaddr == base;
        assert(segments[0].0.p_vaddr <= segments[i].0.p_vaddr);
    }
}

} // verus!
