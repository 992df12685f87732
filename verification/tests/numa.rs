use awkernel::numa::{assign_numa_regions, cpu_numa_map, local_apic_domain, memory_affinity_range};

#[test]
fn regions_go_to_the_domain_holding_their_start_and_split_past_it() {
    let aff = vec![
        (0u32, 0x10_0000u64, 0x10_0000u64, false),
        (1, 0x10_0000, 0x100_0000, true),
        (0, 0x200_0000, 0x100_0000, true),
        (2, 0x110_0000, 0xF0_0000, true),
    ];
    let regions = vec![
        (0x1000u64, 0x9000u64, true),
        (0x10_0000, 0x80_0000, true),
        (0x100_0000, 0x280_0000, true),
        (0x300_0000, 0x400_0000, false),
        (0x290_0123, 0x2A0_0000, true),
    ];
    let r = assign_numa_regions(&aff, &regions, 0x10_0000, Some(0x18_0000));
    assert_eq!(
        r,
        vec![
            (0, vec![(0x200_0000, 0x280_0000), (0x290_0123, 0x2A0_0000)]),
            (1, vec![(0x18_0000, 0x80_0000), (0x100_0000, 0x280_0000)]),
            (2, vec![(0x110_0000, 0x280_0000)]),
        ]
    );
}

#[test]
fn lower_domain_wins_and_backup_without_free_frame_is_skipped() {
    let aff = vec![(3u32, 0x100_0000u64, 0x100_0000u64, true), (1, 0x100_0000, 0x200_0000, true)];
    let regions = vec![(0x100_0000u64, 0x180_0000u64, true), (0x190_0000, 0x1A0_0000, true), (0x1B0_0000, 0x1B0_0000, true)];
    let r = assign_numa_regions(&aff, &regions, 0x190_0000, None);
    assert_eq!(r, vec![(1, vec![(0x100_0000, 0x180_0000)])]);
}

#[test]
fn uncovered_memory_is_not_assigned() {
    let aff = vec![(0u32, 0x100_0000u64, 0x10_0000u64, true)];
    let regions = vec![(0x800_0000u64, 0x900_0000u64, true)];
    assert_eq!(assign_numa_regions(&aff, &regions, 0, None), vec![]);
}

#[test]
fn cpu_map_skips_disabled_entries_and_keeps_the_last_one() {
    let entries = vec![(4u32, 1u32, true), (0, 0, true), (2, 7, false), (4, 3, true), (1, 0, true)];
    assert_eq!(cpu_numa_map(&entries), vec![(0, 0), (1, 0), (4, 3)]);
    assert_eq!(cpu_numa_map(&vec![]), vec![]);
}

#[test]
fn affinity_fields_are_assembled_from_their_parts() {
    assert_eq!(local_apic_domain(0x12, [0x34, 0x56, 0x78]), 0x7856_3412);
    assert_eq!(local_apic_domain(3, [0, 0, 0]), 3);
    assert_eq!(memory_affinity_range(0x1000_0000, 0x2, 0x8000_0000, 0), (0x2_1000_0000, 0x8000_0000));
}
