use bog::atlas::{AtlasEntry, ATLAS_SIZE};
use bog::image_cache::{AtlasUpload, ImageCache, RasterImageMemory};

fn host(width: u32, height: u32) -> RasterImageMemory {
    RasterImageMemory::Host { width, height, pixels: vec![9u8; (4 * width * height) as usize] }
}

#[test]
fn image_cache_stores_uploads_and_measures() {
    let mut cache = ImageCache::new(1);
    assert!(!cache.hit(5));
    cache.store(5, host(2, 2));
    assert!(cache.hit(5));
    assert_eq!(cache.dimensions(5), (2, 2));
    let uploaded = match cache.upload_raster(5, 256) {
        Some(AtlasUpload::New(u)) => u,
        _ => panic!("expected a new placement"),
    };
    assert_eq!(uploaded.new_layers, 0);
    assert_eq!(uploaded.padding, 248);
    assert_eq!(uploaded.data.len(), 512);
    assert!(matches!(cache.get(5), Some(RasterImageMemory::Device(AtlasEntry::Contiguous(_)))));
    assert_eq!(cache.dimensions(5), (2, 2));
    assert!(!cache.is_layer_empty(0));
    assert!(matches!(cache.upload_raster(5, 256), Some(AtlasUpload::Resident)));
    cache.store(7, RasterImageMemory::NotFound);
    assert_eq!(cache.dimensions(7), (1, 1));
    assert!(cache.upload_raster(7, 256).is_none());
    assert!(cache.upload_raster(99, 256).is_none());
}

#[test]
fn image_cache_trim_drops_unused_images_and_frees_the_atlas() {
    let mut cache = ImageCache::new(1);
    cache.store(1, host(4, 4));
    let _ = cache.upload_raster(1, 256).unwrap();
    cache.store(2, RasterImageMemory::Invalid);
    cache.trim();
    assert!(cache.get(1).is_some() && cache.get(2).is_some());
    cache.trim();
    assert!(cache.get(1).is_some());
    cache.store(3, host(1, 1));
    cache.trim();
    assert!(cache.get(1).is_none());
    assert!(cache.get(2).is_none());
    assert!(cache.get(3).is_some());
    assert!(cache.is_layer_empty(0));
    assert_eq!(cache.layer_count(), 1);
}

#[test]
fn image_cache_large_image_is_fragmented() {
    let mut cache = ImageCache::new(1);
    cache.store(11, host(2100, 1));
    let uploaded = match cache.upload_raster(11, 256) {
        Some(AtlasUpload::New(u)) => u,
        _ => panic!("expected a new placement"),
    };
    assert_eq!(uploaded.padding, (256 - (4 * 2100) % 256) % 256);
    match cache.get(11) {
        Some(RasterImageMemory::Device(AtlasEntry::Fragmented { fragments, size })) => {
            assert_eq!(*size, (2100, 1));
            assert_eq!(fragments.len(), 2);
        }
        _ => panic!("expected a fragmented image"),
    }
}

#[test]
fn image_cache_trim_gives_the_atlas_space_back() {
    let mut cache = ImageCache::new(1);
    cache.store(1, host(ATLAS_SIZE, 2000));
    let _ = cache.upload_raster(1, 256).unwrap();
    cache.store(2, host(8, 8));
    let _ = cache.upload_raster(2, 256).unwrap();
    assert_eq!(cache.layer_count(), 1);
    assert!(cache.hit(2));
    cache.trim();
    cache.store(3, host(ATLAS_SIZE, 2000));
    cache.trim();
    assert!(cache.get(1).is_none());
    assert!(cache.get(2).is_none());
    assert!(cache.is_layer_empty(0));
    let _ = cache.upload_raster(3, 256).unwrap();
    assert_eq!(cache.layer_count(), 1);
    assert!(!cache.is_layer_empty(0));
}

#[test]
fn image_cache_upload_counts_the_image_as_used() {
    let mut cache = ImageCache::new(1);
    cache.store(1, host(4, 4));
    cache.store(2, host(4, 4));
    assert!(matches!(cache.upload_raster(1, 256), Some(AtlasUpload::New(_))));
    cache.trim();
    cache.store(3, host(1, 1));
    assert!(matches!(cache.upload_raster(1, 256), Some(AtlasUpload::Resident)));
    cache.trim();
    assert!(cache.get(1).is_some());
    assert!(cache.get(2).is_none());
    assert!(!cache.is_layer_empty(0));
}
