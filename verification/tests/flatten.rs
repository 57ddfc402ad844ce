use elfcopyflat::elf::{Flags, Phdr, Phdr64, Type};
use elfcopyflat::error::ElfError;
use elfcopyflat::flat::{copy_plan, resolve_base, CopyOp};
use elfcopyflat::overlap::{check_overlaps, find_overlaps, reaches, Overlap};
use elfcopyflat::select::{admitted, select_segments};

/// A segment with a mark in `p_paddr` that tells entries at the same address
/// apart.
fn seg(p_type: u32, p_flags: u32, p_vaddr: u64, p_memsz: u64, mark: u64) -> Phdr {
    Phdr(Phdr64 {
        p_type,
        p_flags,
        p_offset: 0x100 * mark,
        p_vaddr,
        p_paddr: mark,
        p_filesz: p_memsz / 2,
        p_memsz,
        p_align: 0x1000,
    })
}

fn load(p_flags: u32, p_vaddr: u64, p_memsz: u64, mark: u64) -> Phdr {
    seg(Type::PT_LOAD, p_flags, p_vaddr, p_memsz, mark)
}

fn marks(segments: &Vec<Phdr>) -> Vec<u64> {
    segments.iter().map(|p| p.0.p_paddr).collect()
}

#[test]
fn only_loadable_segments_are_selected() {
    let table: Vec<Phdr> = vec![
        seg(0, 5, 0x1000, 0x10, 0),
        seg(1, 5, 0x2000, 0x10, 1),
        seg(2, 5, 0x3000, 0x10, 2),
        seg(0x6474_e551, 6, 0, 0, 3),
        seg(1, 6, 0x4000, 0x10, 4),
    ];
    assert_eq!(marks(&select_segments(&table, None, None)), vec![1, 4]);
}

#[test]
fn executable_mask_keeps_only_executable_segments() {
    let table: Vec<Phdr> = vec![
        load(0, 0x0000, 0x10, 0),
        load(1, 0x1000, 0x10, 1),
        load(2, 0x2000, 0x10, 2),
        load(3, 0x3000, 0x10, 3),
        load(4, 0x4000, 0x10, 4),
        load(5, 0x5000, 0x10, 5),
        load(6, 0x6000, 0x10, 6),
        load(7, 0x7000, 0x10, 7),
        seg(2, 7, 0x8000, 0x10, 8),
    ];
    let out: Vec<Phdr> = select_segments(&table, Some(Flags::PF_X), None);
    assert_eq!(marks(&out), vec![1, 3, 5, 7]);
    for p in &out {
        assert!(p.flags().executable());
    }
}

#[test]
fn include_mask_asks_for_every_bit_of_it() {
    let table: Vec<Phdr> = vec![
        load(4, 0x1000, 0x10, 0),
        load(2, 0x2000, 0x10, 1),
        load(6, 0x3000, 0x10, 2),
        load(7, 0x4000, 0x10, 3),
        load(5, 0x5000, 0x10, 4),
    ];
    let rw: u32 = Flags::PF_R | Flags::PF_W;
    assert_eq!(marks(&select_segments(&table, Some(rw), None)), vec![2, 3]);
    assert_eq!(marks(&select_segments(&table, Some(7), None)), vec![3]);
    assert_eq!(marks(&select_segments(&table, Some(0), None)), vec![0, 1, 2, 3, 4]);
}

#[test]
fn exclude_mask_refuses_any_bit_of_it() {
    let table: Vec<Phdr> = vec![
        load(4, 0x1000, 0x10, 0),
        load(2, 0x2000, 0x10, 1),
        load(6, 0x3000, 0x10, 2),
        load(7, 0x4000, 0x10, 3),
        load(5, 0x5000, 0x10, 4),
        load(0, 0x6000, 0x10, 5),
    ];
    assert_eq!(marks(&select_segments(&table, None, Some(Flags::PF_W))), vec![0, 4, 5]);
    assert_eq!(marks(&select_segments(&table, None, Some(3))), vec![0, 5]);
    assert_eq!(marks(&select_segments(&table, None, Some(0))), vec![0, 1, 2, 3, 4, 5]);
    assert_eq!(
        marks(&select_segments(&table, Some(Flags::PF_R), Some(Flags::PF_W))),
        vec![0, 4]
    );
    assert_eq!(marks(&select_segments(&table, Some(2), Some(2))), Vec::<u64>::new());
}

#[test]
fn no_mask_asks_for_nothing() {
    let table: Vec<Phdr> = vec![load(0, 0x1000, 0x10, 0), load(0x8000_0000, 0x2000, 0x10, 1)];
    assert_eq!(marks(&select_segments(&table, None, None)), vec![0, 1]);
    assert!(admitted(&table[0], None, None));
    assert!(!admitted(&table[0], Some(1), None));
    assert!(admitted(&table[0], None, Some(7)));
    assert!(!admitted(&seg(0, 7, 0, 0, 0), None, None));
}

#[test]
fn segments_come_out_in_ascending_order_of_address() {
    let table: Vec<Phdr> = vec![
        load(5, 0x5000, 0x10, 0),
        load(5, 0x1000, 0x10, 1),
        load(5, 0xffff_ffff_ffff_f000, 0x10, 2),
        load(5, 0x3000, 0x10, 3),
        load(5, 0x0000, 0x10, 4),
        load(5, 0x4000, 0x10, 5),
    ];
    let out: Vec<Phdr> = select_segments(&table, None, None);
    assert_eq!(marks(&out), vec![4, 1, 3, 5, 0, 2]);
    for i in 1..out.len() {
        assert!(out[i - 1].address() <= out[i].address());
    }
}

#[test]
fn sorting_is_stable() {
    let table: Vec<Phdr> = vec![
        load(5, 0x2000, 0x10, 0),
        load(6, 0x1000, 0x20, 1),
        load(4, 0x2000, 0x30, 2),
        load(5, 0x1000, 0x40, 3),
        load(7, 0x2000, 0x50, 4),
        load(5, 0x1000, 0x60, 5),
    ];
    let out: Vec<Phdr> = select_segments(&table, None, None);
    assert_eq!(marks(&out), vec![1, 3, 5, 0, 2, 4]);
    let out: Vec<Phdr> = select_segments(&table, Some(Flags::PF_X), None);
    assert_eq!(marks(&out), vec![3, 5, 0, 4]);
}

#[test]
fn selection_of_nothing_is_empty() {
    assert_eq!(select_segments(&Vec::new(), None, None), Vec::<Phdr>::new());
    let table: Vec<Phdr> = vec![seg(2, 7, 0, 0, 0)];
    assert_eq!(select_segments(&table, None, None), Vec::<Phdr>::new());
}

#[test]
fn selected_segments_are_the_table_entries_themselves() {
    let table: Vec<Phdr> = vec![load(5, 0x2000, 0x10, 0), load(6, 0x1000, 0x20, 1)];
    let out: Vec<Phdr> = select_segments(&table, None, None);
    assert_eq!(out, vec![table[1], table[0]]);
}

#[test]
fn apart_segments_do_not_overlap() {
    let segments: Vec<Phdr> = vec![load(5, 0x1000, 0x100, 0), load(6, 0x2000, 0x200, 1)];
    assert_eq!(find_overlaps(&segments), Vec::<Overlap>::new());
    assert!(!reaches(&segments[0], &segments[1]));
}

#[test]
fn segment_reaching_into_the_next_overlaps() {
    let segments: Vec<Phdr> = vec![load(5, 0x1000, 0x2000, 0), load(6, 0x2000, 0x100, 1)];
    assert!(reaches(&segments[0], &segments[1]));
    assert_eq!(
        find_overlaps(&segments),
        vec![Overlap { start: 0x1000, size: 0x2000, next: 0x2000 }]
    );
}

#[test]
fn touching_segments_do_not_overlap() {
    let segments: Vec<Phdr> = vec![load(5, 0x1000, 0x1000, 0), load(6, 0x2000, 0x100, 1)];
    assert_eq!(find_overlaps(&segments), Vec::<Overlap>::new());
    let segments: Vec<Phdr> = vec![load(5, 0x1000, 0x1001, 0), load(6, 0x2000, 0x100, 1)];
    assert_eq!(find_overlaps(&segments).len(), 1);
}

#[test]
fn every_offending_pair_is_reported_in_order() {
    let segments: Vec<Phdr> = vec![
        load(5, 0x1000, 0x1800, 0),
        load(5, 0x2000, 0x0800, 1),
        load(5, 0x3000, 0x2000, 2),
        load(5, 0x4000, 0x1000, 3),
        load(5, 0x5000, 0x0001, 4),
    ];
    assert_eq!(
        find_overlaps(&segments),
        vec![
            Overlap { start: 0x1000, size: 0x1800, next: 0x2000 },
            Overlap { start: 0x3000, size: 0x2000, next: 0x4000 },
        ]
    );
}

#[test]
fn overlap_of_entries_far_apart_in_the_table_is_found() {
    // In the table the first entry reaches into the last one, with two
    // others between them; after sorting they stand side by side.
    let table: Vec<Phdr> = vec![
        load(5, 0x1000, 0x0900, 0),
        load(5, 0x8000, 0x0100, 1),
        load(5, 0x4000, 0x0100, 2),
        load(5, 0x1800, 0x0100, 3),
    ];
    let out: Vec<Phdr> = select_segments(&table, None, None);
    assert_eq!(marks(&out), vec![0, 3, 2, 1]);
    assert_eq!(
        find_overlaps(&out),
        vec![Overlap { start: 0x1000, size: 0x0900, next: 0x1800 }]
    );
}

#[test]
fn overlap_is_found_in_whatever_order_the_table_is() {
    let a: Phdr = load(5, 0x1000, 0x4000, 0);
    let b: Phdr = load(5, 0x2000, 0x0100, 1);
    let c: Phdr = load(5, 0x3000, 0x0100, 2);
    let tables: Vec<Vec<Phdr>> = vec![
        vec![a, b, c],
        vec![a, c, b],
        vec![b, a, c],
        vec![b, c, a],
        vec![c, a, b],
        vec![c, b, a],
    ];
    for table in &tables {
        let out: Vec<Phdr> = select_segments(table, None, None);
        assert_eq!(marks(&out), vec![0, 1, 2]);
        assert_eq!(
            find_overlaps(&out),
            vec![Overlap { start: 0x1000, size: 0x4000, next: 0x2000 }]
        );
    }
    let d: Phdr = load(5, 0x1000, 0x1000, 3);
    for table in [vec![d, b, c], vec![c, d, b], vec![b, c, d]] {
        assert_eq!(find_overlaps(&select_segments(&table, None, None)), Vec::<Overlap>::new());
    }
}

#[test]
fn segments_at_the_same_address_overlap_unless_empty() {
    let segments: Vec<Phdr> = vec![load(5, 0x1000, 1, 0), load(5, 0x1000, 1, 1)];
    assert_eq!(find_overlaps(&segments).len(), 1);
    let segments: Vec<Phdr> = vec![load(5, 0x1000, 0, 0), load(5, 0x1000, 0, 1)];
    assert_eq!(find_overlaps(&segments).len(), 0);
}

#[test]
fn empty_segment_at_the_address_of_another_depends_on_table_order() {
    let empty: Phdr = load(5, 0x1000, 0, 0);
    let full: Phdr = load(5, 0x1000, 0x10, 1);
    let out: Vec<Phdr> = select_segments(&vec![empty, full], None, None);
    assert_eq!(marks(&out), vec![0, 1]);
    assert_eq!(find_overlaps(&out), Vec::<Overlap>::new());
    let out: Vec<Phdr> = select_segments(&vec![full, empty], None, None);
    assert_eq!(marks(&out), vec![1, 0]);
    assert_eq!(find_overlaps(&out), vec![Overlap { start: 0x1000, size: 0x10, next: 0x1000 }]);
}

#[test]
fn empty_segment_inside_another_is_reported_in_any_order() {
    let empty: Phdr = load(5, 0x1008, 0, 0);
    let full: Phdr = load(5, 0x1000, 0x10, 1);
    for table in [vec![empty, full], vec![full, empty]] {
        let out: Vec<Phdr> = select_segments(&table, None, None);
        assert_eq!(marks(&out), vec![1, 0]);
        assert_eq!(find_overlaps(&out), vec![Overlap { start: 0x1000, size: 0x10, next: 0x1008 }]);
    }
}

#[test]
fn segment_reaching_beyond_the_address_space_overlaps() {
    let segments: Vec<Phdr> = vec![
        load(5, 0xffff_ffff_ffff_0000, 0x0002_0000, 0),
        load(5, 0xffff_ffff_ffff_f000, 0x0000_0001, 1),
    ];
    assert_eq!(
        find_overlaps(&segments),
        vec![Overlap { start: 0xffff_ffff_ffff_0000, size: 0x0002_0000, next: 0xffff_ffff_ffff_f000 }]
    );
    let segments: Vec<Phdr> =
        vec![load(5, 1, u64::MAX, 0), load(5, u64::MAX, 0, 1)];
    assert_eq!(find_overlaps(&segments).len(), 1);
    let segments: Vec<Phdr> = vec![load(5, 0, u64::MAX, 0), load(5, u64::MAX, 9, 1)];
    assert_eq!(find_overlaps(&segments).len(), 0);
}

#[test]
fn segment_reaching_over_several_is_reported_once() {
    // The first segment covers all the others; it is held against the one
    // right after it, and that is enough to know that there is an overlap.
    let table: Vec<Phdr> = vec![
        load(5, 0x3000, 0x0100, 0),
        load(5, 0x1000, 0x9000, 1),
        load(5, 0x2000, 0x0100, 2),
    ];
    let out: Vec<Phdr> = select_segments(&table, None, None);
    assert_eq!(
        find_overlaps(&out),
        vec![Overlap { start: 0x1000, size: 0x9000, next: 0x2000 }]
    );
}

#[test]
fn short_lists_have_no_overlaps() {
    assert_eq!(find_overlaps(&Vec::new()), Vec::<Overlap>::new());
    assert_eq!(find_overlaps(&vec![load(5, 0, u64::MAX, 0)]), Vec::<Overlap>::new());
}

#[test]
fn overlaps_end_the_run_unless_allowed() {
    let found: Vec<Overlap> = vec![
        Overlap { start: 0x1000, size: 0x2000, next: 0x2000 },
        Overlap { start: 0x5000, size: 0x2000, next: 0x6000 },
    ];
    assert_eq!(
        check_overlaps(&found, false),
        Err(ElfError::OverlapDetected { start: 0x1000, next: 0x2000 })
    );
    assert_eq!(check_overlaps(&found, true), Ok(()));
    assert_eq!(check_overlaps(&Vec::new(), false), Ok(()));
    assert_eq!(check_overlaps(&Vec::new(), true), Ok(()));
}

#[test]
fn base_defaults_to_the_lowest_address() {
    let segments: Vec<Phdr> = vec![load(5, 0x1000, 0x100, 0), load(6, 0x2000, 0x200, 1)];
    let base: u64 = resolve_base(&segments, None);
    assert_eq!(base, 0x1000);
    let plan: Vec<CopyOp> = copy_plan(&segments, base).unwrap();
    assert_eq!(
        plan,
        vec![
            CopyOp { source: 0x000, dest: 0x0000, len: 0x80 },
            CopyOp { source: 0x100, dest: 0x1000, len: 0x100 },
        ]
    );
}

#[test]
fn base_is_the_lowest_address_of_any_order() {
    let segments: Vec<Phdr> = vec![
        load(5, 0x3000, 0x100, 0),
        load(6, 0x2000, 0x200, 1),
        load(6, 0x9000, 0x200, 2),
        load(6, 0x2000, 0x200, 3),
    ];
    assert_eq!(resolve_base(&segments, None), 0x2000);
    assert_eq!(resolve_base(&vec![load(5, 0x7777, 1, 0)], None), 0x7777);
    assert_eq!(resolve_base(&vec![load(5, u64::MAX, 1, 0)], None), u64::MAX);
}

#[test]
fn base_of_no_segments_is_zero() {
    assert_eq!(resolve_base(&Vec::new(), None), 0);
    assert_eq!(copy_plan(&Vec::new(), 0), Some(Vec::new()));
    assert_eq!(copy_plan(&Vec::new(), 0x1000), Some(Vec::new()));
}

#[test]
fn base_that_was_asked_for_wins() {
    let segments: Vec<Phdr> = vec![load(5, 0x1000, 0x100, 0), load(6, 0x2000, 0x200, 1)];
    assert_eq!(resolve_base(&segments, Some(0x800)), 0x800);
    assert_eq!(resolve_base(&segments, Some(0)), 0);
    assert_eq!(resolve_base(&segments, Some(0x9000)), 0x9000);
    assert_eq!(resolve_base(&Vec::new(), Some(0x42)), 0x42);
    assert_eq!(
        copy_plan(&segments, 0x800),
        Some(vec![
            CopyOp { source: 0x000, dest: 0x0800, len: 0x80 },
            CopyOp { source: 0x100, dest: 0x1800, len: 0x100 },
        ])
    );
}

#[test]
fn copies_take_the_file_size_not_the_memory_size() {
    let p: Phdr = Phdr(Phdr64 {
        p_type: 1,
        p_flags: 6,
        p_offset: 0xabc0,
        p_vaddr: 0x0001_0000,
        p_paddr: 0,
        p_filesz: 0x123,
        p_memsz: 0x4000,
        p_align: 4,
    });
    assert_eq!(
        copy_plan(&vec![p], 0xf000),
        Some(vec![CopyOp { source: 0xabc0, dest: 0x1000, len: 0x123 }])
    );
}

#[test]
fn segment_below_the_base_has_no_place() {
    let segments: Vec<Phdr> = vec![load(5, 0x1000, 0x100, 0), load(6, 0x2000, 0x200, 1)];
    assert_eq!(copy_plan(&segments, 0x1001), None);
    assert_eq!(copy_plan(&segments, 0x2000), None);
    assert!(copy_plan(&segments, 0x1000).is_some());
    let unsorted: Vec<Phdr> = vec![load(6, 0x2000, 0x200, 1), load(5, 0x1000, 0x100, 0)];
    assert_eq!(copy_plan(&unsorted, 0x1001), None);
}

#[test]
fn whole_run_on_a_small_table() {
    let table: Vec<Phdr> = vec![
        seg(6, 4, 0x0040, 0x150, 0),
        load(6, 0x0001_2000, 0x0800, 1),
        load(5, 0x0001_0000, 0x1f00, 2),
        seg(0x6474_e551, 6, 0, 0, 3),
        load(4, 0x0001_1f00, 0x0100, 4),
    ];
    let chosen: Vec<Phdr> = select_segments(&table, None, Some(Flags::PF_W));
    assert_eq!(marks(&chosen), vec![2, 4]);
    let found: Vec<Overlap> = find_overlaps(&chosen);
    assert_eq!(check_overlaps(&found, false), Ok(()));
    let base: u64 = resolve_base(&chosen, None);
    assert_eq!(base, 0x0001_0000);
    assert_eq!(
        copy_plan(&chosen, base),
        Some(vec![
            CopyOp { source: 0x200, dest: 0x0000, len: 0xf80 },
            CopyOp { source: 0x400, dest: 0x1f00, len: 0x80 },
        ])
    );
}
