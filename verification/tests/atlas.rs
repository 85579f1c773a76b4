use bog::atlas::{
    fragment_offset, pad_rows, row_padding, Allocation, Allocator, AtlasEntry, ImageAtlas,
    ATLAS_SIZE,
};

#[test]
fn atlas_layer_sized_image_takes_the_first_empty_layer() {
    let mut atlas = ImageAtlas::new(1);
    let entry = atlas.allocate(ATLAS_SIZE, ATLAS_SIZE).unwrap();
    assert!(matches!(entry, AtlasEntry::Contiguous(Allocation::Full { layer: 0 })));
    assert_eq!(entry.size(), (2048, 2048));
    assert!(!atlas.is_layer_empty(0));
    let second = atlas.allocate(ATLAS_SIZE, ATLAS_SIZE).unwrap();
    assert!(matches!(second, AtlasEntry::Contiguous(Allocation::Full { layer: 1 })));
    assert_eq!(atlas.layer_count(), 2);
    atlas.remove(&entry);
    assert!(atlas.is_layer_empty(0));
    let third = atlas.allocate(ATLAS_SIZE, ATLAS_SIZE).unwrap();
    assert!(matches!(third, AtlasEntry::Contiguous(Allocation::Full { layer: 0 })));
    assert_eq!(atlas.layer_count(), 2);
}

#[test]
fn atlas_small_image_gets_a_region() {
    let mut atlas = ImageAtlas::new(1);
    let entry = atlas.allocate(100, 50).unwrap();
    match &entry {
        AtlasEntry::Contiguous(allocation) => {
            assert!(matches!(allocation, Allocation::Partial { layer: 0, .. }));
            assert_eq!(allocation.size(), (100, 50));
            assert_eq!(allocation.layer(), 0);
            let (x, y) = allocation.position();
            assert!(x + 100 <= ATLAS_SIZE && y + 50 <= ATLAS_SIZE);
        }
        AtlasEntry::Fragmented { .. } => panic!("expected one piece"),
    }
    let other = atlas.allocate(30, 30).unwrap();
    assert!(matches!(other, AtlasEntry::Contiguous(Allocation::Partial { layer: 0, .. })));
    atlas.remove(&entry);
    assert!(!atlas.is_layer_empty(0));
    atlas.remove(&other);
    assert!(atlas.is_layer_empty(0));
    assert_eq!(atlas.layer_count(), 1);
}

#[test]
fn atlas_empty_image_gets_nothing() {
    let mut atlas = ImageAtlas::new(1);
    assert!(atlas.allocate(0, 10).is_none());
    assert!(atlas.allocate(10, 0).is_none());
    assert!(atlas.is_layer_empty(0));
    assert_eq!(atlas.layer_count(), 1);
}

#[test]
fn atlas_full_layer_pushes_a_region_to_a_new_layer() {
    let mut atlas = ImageAtlas::new(1);
    let _ = atlas.allocate(ATLAS_SIZE, ATLAS_SIZE).unwrap();
    let small = atlas.allocate(10, 10).unwrap();
    assert!(matches!(small, AtlasEntry::Contiguous(Allocation::Partial { layer: 1, .. })));
    assert_eq!(atlas.layer_count(), 2);
}

#[test]
fn atlas_large_image_is_cut_into_a_grid() {
    let mut atlas = ImageAtlas::new(1);
    let entry = atlas.allocate(5000, 100).unwrap();
    assert_eq!(entry.size(), (5000, 100));
    match &entry {
        AtlasEntry::Fragmented { size, fragments } => {
            assert_eq!(*size, (5000, 100));
            assert_eq!(fragments.len(), 3);
            assert_eq!(fragments[0].position, (0, 0));
            assert_eq!(fragments[1].position, (2048, 0));
            assert_eq!(fragments[2].position, (4096, 0));
            assert_eq!(fragments[0].allocation.size(), (2048, 100));
            assert_eq!(fragments[1].allocation.size(), (2048, 100));
            assert_eq!(fragments[2].allocation.size(), (904, 100));
        }
        AtlasEntry::Contiguous(_) => panic!("expected fragments"),
    }
    atlas.remove(&entry);
    for i in 0..atlas.layer_count() {
        assert!(atlas.is_layer_empty(i));
    }
}

#[test]
fn atlas_grid_cells_of_layer_size_take_whole_layers() {
    let mut atlas = ImageAtlas::new(1);
    let entry = atlas.allocate(4096, 3000).unwrap();
    match &entry {
        AtlasEntry::Fragmented { fragments, .. } => {
            assert_eq!(fragments.len(), 4);
            assert!(matches!(fragments[0].allocation, Allocation::Full { layer: 0 }));
            assert!(matches!(fragments[1].allocation, Allocation::Full { layer: 1 }));
            assert_eq!(fragments[2].position, (0, 2048));
            assert_eq!(fragments[2].allocation.size(), (2048, 952));
            assert_eq!(fragments[3].position, (2048, 2048));
            assert!(matches!(fragments[3].allocation, Allocation::Partial { .. }));
        }
        AtlasEntry::Contiguous(_) => panic!("expected fragments"),
    }
    assert_eq!(atlas.layer_count(), 3);
    atlas.remove(&entry);
    assert!(atlas.is_layer_empty(0) && atlas.is_layer_empty(1) && atlas.is_layer_empty(2));
}

#[test]
fn atlas_wide_image_of_no_height_has_no_fragments() {
    let mut atlas = ImageAtlas::new(1);
    let entry = atlas.allocate(5000, 0).unwrap();
    match entry {
        AtlasEntry::Fragmented { fragments, size } => {
            assert!(fragments.is_empty());
            assert_eq!(size, (5000, 0));
        }
        AtlasEntry::Contiguous(_) => panic!("expected fragments"),
    }
}

#[test]
fn atlas_allocator_counts_its_regions() {
    let mut allocator = Allocator::new(64);
    assert!(allocator.is_empty());
    let a = allocator.allocate(16, 16).unwrap();
    assert_eq!(a.size(), (16, 16));
    assert!(allocator.allocate(0, 5).is_none());
    assert!(allocator.allocate(65, 5).is_none());
    assert!(allocator.allocate(u32::MAX, 5).is_none());
    assert!(!allocator.is_empty());
    allocator.deallocate(&a);
    assert!(allocator.is_empty());
    let whole = allocator.allocate(64, 64).unwrap();
    assert_eq!(whole.position(), (0, 0));
}

#[test]
fn atlas_upload_places_and_pads() {
    let mut atlas = ImageAtlas::new(1);
    let data: Vec<u8> = (0..16).collect();
    let upload = atlas.upload(2, 2, &data, 256).unwrap();
    assert_eq!(upload.new_layers, 0);
    assert_eq!(upload.padding, 248);
    assert_eq!(upload.data.len(), 512);
    assert_eq!(&upload.data[256..264], &data[8..16]);
    assert_eq!(upload.entry.size(), (2, 2));
    let mut full = ImageAtlas::new(1);
    let _ = full.allocate(ATLAS_SIZE, ATLAS_SIZE).unwrap();
    let pixels = vec![7u8; 4 * 10 * 10];
    let second = full.upload(10, 10, &pixels, 256).unwrap();
    assert_eq!(second.new_layers, 1);
    assert!(matches!(second.entry, AtlasEntry::Contiguous(Allocation::Partial { layer: 1, .. })));
    assert_eq!(second.padding, 216);
    assert_eq!(second.data.len(), 256 * 10);
    assert!(atlas.upload(0, 10, &pixels, 256).is_none());
}

#[test]
fn atlas_rows_are_padded_to_the_alignment() {
    assert_eq!(row_padding(2, 256), 248);
    assert_eq!(row_padding(64, 256), 0);
    assert_eq!(row_padding(65, 256), 252);
    let data: Vec<u8> = (1..=16).collect();
    let padded = pad_rows(&data, 2, 2, 248);
    assert_eq!(padded.len(), 512);
    assert_eq!(&padded[0..8], &data[0..8]);
    assert!(padded[8..256].iter().all(|b| *b == 0));
    assert_eq!(&padded[256..264], &data[8..16]);
    assert!(padded[264..].iter().all(|b| *b == 0));
    assert_eq!(fragment_offset((2048, 0), 8192 + 256), 8192);
    assert_eq!(fragment_offset((1, 2), 256), 516);
}

#[test]
fn atlas_region_goes_to_the_first_layer_with_room() {
    let mut atlas = ImageAtlas::new(0);
    let tall = atlas.allocate(ATLAS_SIZE, 2000).unwrap();
    assert!(matches!(tall, AtlasEntry::Contiguous(Allocation::Partial { layer: 0, .. })));
    let square = atlas.allocate(100, 100).unwrap();
    assert!(matches!(square, AtlasEntry::Contiguous(Allocation::Partial { layer: 1, .. })));
    let strip = atlas.allocate(ATLAS_SIZE, 48).unwrap();
    assert!(matches!(strip, AtlasEntry::Contiguous(Allocation::Partial { layer: 0, .. })));
    assert_eq!(atlas.layer_count(), 2);
}

#[test]
fn atlas_fragments_take_the_first_layer_with_room() {
    let mut atlas = ImageAtlas::new(0);
    let _ = atlas.allocate(ATLAS_SIZE, 2000).unwrap();
    let wide = atlas.allocate(2100, 10).unwrap();
    match &wide {
        AtlasEntry::Fragmented { fragments, .. } => {
            assert_eq!(fragments.len(), 2);
            assert!(matches!(fragments[0].allocation, Allocation::Partial { layer: 0, .. }));
            assert!(matches!(fragments[1].allocation, Allocation::Partial { layer: 0, .. }));
        }
        AtlasEntry::Contiguous(_) => panic!("expected fragments"),
    }
    assert_eq!(atlas.layer_count(), 1);
}

#[test]
fn atlas_grow_plan_copies_the_used_old_layers() {
    let mut atlas = ImageAtlas::new(0);
    let _ = atlas.allocate(ATLAS_SIZE, ATLAS_SIZE).unwrap();
    let _ = atlas.allocate(10, 10).unwrap();
    assert!(atlas.grow_plan(0, false).is_none());
    let _ = atlas.allocate(ATLAS_SIZE, ATLAS_SIZE).unwrap();
    assert_eq!(atlas.layer_count(), 3);
    let plan = atlas.grow_plan(1, false).unwrap();
    assert_eq!(plan.depth, 3);
    assert_eq!(plan.copies, vec![0, 1]);
    let gl = ImageAtlas::new(6);
    let plan = gl.grow_plan(2, true).unwrap();
    assert_eq!(plan.depth, 7);
    assert!(plan.copies.is_empty());
    assert_eq!(gl.grow_plan(2, false).unwrap().depth, 6);
}
