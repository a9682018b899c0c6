use taskcore::mm::{page_ceil, page_chunks, page_floor, Chunk, MapArea, MemorySet, PERM_R, PERM_U, PERM_W};

#[test]
fn page_numbers_round_down_and_up() {
    assert_eq!(page_floor(0), 0);
    assert_eq!(page_floor(4095), 0);
    assert_eq!(page_floor(4096), 1);
    assert_eq!(page_ceil(0), 0);
    assert_eq!(page_ceil(1), 1);
    assert_eq!(page_ceil(4096), 1);
    assert_eq!(page_ceil(4097), 2);
    assert_eq!(page_ceil(usize::MAX), usize::MAX / 4096 + 1);
}

#[test]
fn insert_maps_exactly_the_range() {
    let mut ms = MemorySet::new();
    assert!(ms.insert_framed_area(4, 8, PERM_R | PERM_U));
    assert_eq!(ms.area_count(), 1);
    assert_eq!(ms.area(0), MapArea { start_vpn: 4, end_vpn: 8, perm: PERM_R | PERM_U });
    assert_eq!(ms.translate(3), None);
    assert_eq!(ms.translate(4), Some(PERM_R | PERM_U));
    assert_eq!(ms.translate(7), Some(PERM_R | PERM_U));
    assert_eq!(ms.translate(8), None);
}

#[test]
fn insert_refuses_an_overlap_and_changes_nothing() {
    let mut ms = MemorySet::new();
    assert!(ms.insert_framed_area(4, 8, PERM_R));
    assert!(!ms.insert_framed_area(7, 9, PERM_W));
    assert!(!ms.insert_framed_area(0, 5, PERM_W));
    assert!(!ms.insert_framed_area(5, 6, PERM_W));
    assert_eq!(ms.area_count(), 1);
    assert_eq!(ms.translate(8), None);
    assert!(ms.insert_framed_area(8, 9, PERM_W));
    assert!(ms.insert_framed_area(0, 4, PERM_W));
    assert_eq!(ms.area_count(), 3);
}

#[test]
fn overlap_and_coverage_tests() {
    let mut ms = MemorySet::new();
    assert!(ms.insert_framed_area(2, 4, PERM_R));
    assert!(ms.insert_framed_area(4, 6, PERM_W));
    assert!(ms.map_area_overlap(0, 3));
    assert!(!ms.map_area_overlap(0, 2));
    assert!(!ms.map_area_overlap(6, 10));
    assert!(!ms.map_area_overlap(3, 3));
    assert!(ms.range_mapped(2, 6));
    assert!(ms.range_mapped(3, 5));
    assert!(ms.range_mapped(9, 9));
    assert!(!ms.range_mapped(1, 3));
    assert!(!ms.range_mapped(5, 7));
}

#[test]
fn remove_needs_every_page_mapped() {
    let mut ms = MemorySet::new();
    assert!(ms.insert_framed_area(2, 4, PERM_R));
    assert!(!ms.remove_framed_areas(2, 5));
    assert!(!ms.remove_framed_areas(1, 3));
    assert_eq!(ms.area_count(), 1);
    assert_eq!(ms.translate(2), Some(PERM_R));
    assert!(ms.remove_framed_areas(2, 4));
    assert_eq!(ms.translate(2), None);
    assert_eq!(ms.translate(3), None);
    assert_eq!(ms.area_count(), 0);
}

#[test]
fn remove_keeps_the_pages_outside_the_range() {
    let mut ms = MemorySet::new();
    assert!(ms.insert_framed_area(0, 10, PERM_R));
    assert!(ms.insert_framed_area(10, 20, PERM_W));
    assert!(ms.remove_framed_areas(8, 12));
    assert_eq!(ms.translate(7), Some(PERM_R));
    assert_eq!(ms.translate(8), None);
    assert_eq!(ms.translate(11), None);
    assert_eq!(ms.translate(12), Some(PERM_W));
    assert_eq!(ms.area_count(), 2);
    assert!(ms.remove_framed_areas(3, 5));
    assert_eq!(ms.area_count(), 3);
    assert_eq!(ms.translate(2), Some(PERM_R));
    assert_eq!(ms.translate(3), None);
    assert_eq!(ms.translate(4), None);
    assert_eq!(ms.translate(5), Some(PERM_R));
}

#[test]
fn resize_grows_and_shrinks_the_first_area_at_a_page() {
    let mut ms = MemorySet::new();
    assert!(ms.insert_framed_area(5, 5, PERM_R));
    assert!(ms.insert_framed_area(9, 12, PERM_W));
    assert_eq!(ms.resize_area(4, 6), None);
    assert_eq!(ms.resize_area(5, 4), None);
    assert_eq!(ms.resize_area(5, 8), Some(0));
    assert_eq!(ms.area(0), MapArea { start_vpn: 5, end_vpn: 8, perm: PERM_R });
    assert_eq!(ms.resize_area(5, 10), None);
    assert_eq!(ms.area(0), MapArea { start_vpn: 5, end_vpn: 8, perm: PERM_R });
    assert_eq!(ms.resize_area(5, 9), Some(0));
    assert_eq!(ms.resize_area(5, 6), Some(0));
    assert_eq!(ms.translate(5), Some(PERM_R));
    assert_eq!(ms.translate(6), None);
}

#[test]
fn duplicate_copies_every_area() {
    let mut ms = MemorySet::new();
    assert!(ms.insert_framed_area(1, 2, PERM_R));
    assert!(ms.insert_framed_area(3, 4, PERM_W));
    let copy = ms.duplicate();
    assert_eq!(copy.area_count(), 2);
    assert_eq!(copy.area(0), ms.area(0));
    assert_eq!(copy.area(1), ms.area(1));
    assert!(ms.remove_framed_areas(1, 2));
    assert_eq!(copy.translate(1), Some(PERM_R));
}

#[test]
fn chunks_are_cut_at_page_boundaries() {
    assert_eq!(page_chunks(100, 0), Vec::<Chunk>::new());
    assert_eq!(page_chunks(100, 16), vec![Chunk { addr: 100, len: 16 }]);
    assert_eq!(page_chunks(4096, 4096), vec![Chunk { addr: 4096, len: 4096 }]);
    assert_eq!(
        page_chunks(4090, 16),
        vec![Chunk { addr: 4090, len: 6 }, Chunk { addr: 4096, len: 10 }]
    );
    assert_eq!(
        page_chunks(4095, 4098),
        vec![Chunk { addr: 4095, len: 1 }, Chunk { addr: 4096, len: 4096 }, Chunk { addr: 8192, len: 1 }]
    );
    assert_eq!(page_chunks(usize::MAX - 3, 3), vec![Chunk { addr: usize::MAX - 3, len: 3 }]);
}
