use bog::buffer::{next_copy_size, split_write, Buffer, MAX_WRITE_SIZE};
use bog::env::{Platform, PlatformFeature};
use bog::inclination::Inclination;
use bog::kinds::TextContent;
use bog::layer::{ClipSlot, LayerOrder};
use bog::tree::{LayoutNodeChildIter, NodeTreeChildIter, TreeNodeChildIter};
use bog::nohash::NoHashHasher;
use bog::type_map::TypeIdHasher;

#[test]
fn inclination_conversions_land_in_their_family() {
    assert_eq!(Inclination::Forward.to_directional(), Inclination::Right);
    assert_eq!(Inclination::Up.to_positional(), Inclination::Forward);
    assert_eq!(Inclination::First.to_spatial(), Inclination::Top);
    assert_eq!(Inclination::Bottom.to_temporal(), Inclination::Last);
    for i in [
        Inclination::Up,
        Inclination::Down,
        Inclination::Left,
        Inclination::Right,
        Inclination::Forward,
        Inclination::Backward,
        Inclination::Top,
        Inclination::Middle,
        Inclination::Bottom,
        Inclination::First,
        Inclination::Last,
        Inclination::Previous,
        Inclination::Next,
    ] {
        assert!(i.to_directional().is_directional());
        assert!(i.to_positional().is_positional());
        assert!(i.to_spatial().is_spatial());
        assert!(i.to_temporal().is_temporal());
    }
    assert!(Inclination::Middle.is_positional() && Inclination::Middle.is_spatial());
    assert!(!Inclination::Up.is_temporal());
}

#[test]
fn platform_capabilities_follow_the_os() {
    let linux = Platform { cpu_arch: "x86_64", os_family: "unix", os_name: "linux" };
    assert!(linux.could_be_desktop() && linux.could_be_embedded() && linux.could_be_mobile());
    assert!(!linux.could_be_web());
    assert!(linux.could_support_display());
    let wasi = Platform { cpu_arch: "wasm32", os_family: "", os_name: "wasi" };
    assert!(wasi.could_be_web() && wasi.could_support_display() && !wasi.could_be_desktop());
    let itron = Platform { cpu_arch: "arm", os_family: "itron", os_name: "solid_asp3" };
    assert!(itron.could_be_embedded() && !itron.could_support_display());
    let features = PlatformFeature(PlatformFeature::WINDOW | PlatformFeature::POINTER);
    assert!(features.contains(PlatformFeature(PlatformFeature::POINTER)));
    assert!(!features.contains(PlatformFeature(PlatformFeature::NETWORK)));
}

#[test]
fn layer_order_push_then_pop_returns() {
    let mut order = LayerOrder::new();
    assert_eq!(order.current(), 0);
    assert_eq!(order.push_clip(), ClipSlot::Push);
    assert_eq!(order.current(), 1);
    assert_eq!(order.push_clip(), ClipSlot::Push);
    order.pop_clip();
    assert_eq!(order.current(), 1);
    assert_eq!(order.clip_depth(), 1);
    order.pop_clip();
    assert_eq!(order.current(), 0);
    assert_eq!(order.clip_depth(), 0);
    assert_eq!(order.active_count(), 3);
    order.clear();
    assert_eq!(order.push_clip(), ClipSlot::Reuse(1));
    assert_eq!(order.active_count(), 2);
}

#[test]
fn buffer_sizes_and_write_pieces() {
    assert_eq!(next_copy_size(4, 5, 4), 32);
    assert_eq!(next_copy_size(1, 0, 4), 4);
    assert_eq!(next_copy_size(12, 3, 16), 64);
    let pieces = split_write(MAX_WRITE_SIZE * 2 + 10);
    assert_eq!(
        pieces,
        vec![
            (0, MAX_WRITE_SIZE),
            (MAX_WRITE_SIZE, 2 * MAX_WRITE_SIZE),
            (2 * MAX_WRITE_SIZE, 2 * MAX_WRITE_SIZE + 10),
        ]
    );
    assert_eq!(split_write(5), vec![(0, 5)]);
    assert_eq!(split_write(MAX_WRITE_SIZE), vec![(0, MAX_WRITE_SIZE)]);
}

#[test]
fn type_id_hasher_keeps_the_value() {
    let mut h = TypeIdHasher::new();
    h.write_u64(0xdead_beef);
    assert_eq!(h.finish(), 0xdead_beef);
    let mut h = TypeIdHasher::default();
    h.write_u128((7u128 << 64) | 42);
    assert_eq!(h.finish(), 42);
}

#[test]
fn child_iterators_hand_out_node_ids_in_order() {
    let children = [3u64, 7, 11];
    let mut it = TreeNodeChildIter::new(&children);
    assert_eq!(it.next().map(u64::from), Some(3));
    assert_eq!(it.next().map(u64::from), Some(7));
    assert_eq!(it.next().map(u64::from), Some(11));
    assert!(it.next().is_none());
    let mut it = LayoutNodeChildIter::new(&children[1..]);
    assert_eq!(it.next().map(u64::from), Some(7));
    let mut it = NodeTreeChildIter::new(&[]);
    assert!(it.next().is_none());
}

#[test]
fn text_content_reads_as_its_text() {
    let owned = TextContent::from(String::from("owned"));
    let borrowed = TextContent::from("borrowed");
    let cow = TextContent::from(std::borrow::Cow::Borrowed("cow"));
    assert_eq!(owned.as_str(), "owned");
    assert_eq!(&*borrowed, "borrowed");
    assert_eq!(cow.as_str(), "cow");
    assert_eq!(cow.clone().as_str(), "cow");
}

#[test]
fn buffer_bookkeeping_grows_and_records_writes() {
    let mut buffer = Buffer::new(16, 20, 4);
    assert_eq!(buffer.size(), 512);
    assert!(!buffer.resize(16, 10));
    assert_eq!(buffer.size(), 512);
    let pieces = buffer.write(64, MAX_WRITE_SIZE + 3);
    assert_eq!(
        pieces,
        vec![(64, 0, MAX_WRITE_SIZE), ((64 + MAX_WRITE_SIZE) as u64, MAX_WRITE_SIZE, MAX_WRITE_SIZE + 3)]
    );
    let _ = buffer.write(0, 8);
    assert_eq!(buffer.offset_at(0), 64);
    assert_eq!(buffer.offset_at(1), 0);
    assert!(buffer.resize(16, 100));
    assert_eq!(buffer.size(), 1600);
    let _ = buffer.write(0, 1);
    assert_eq!(buffer.offset_at(0), 0);
    buffer.clear();
    assert_eq!(buffer.size(), 1600);
}

#[test]
fn no_hash_hasher_wont_hash() {
    let mut hasher = NoHashHasher::default();
    assert!(hasher.finish() == 0);
    hasher.write_u32(45);
    assert!(hasher.finish() == 45);
}

#[test]
fn no_hash_hasher_keeps_the_bits_of_signed_keys() {
    let mut hasher = NoHashHasher::new();
    hasher.write_i8(-1);
    assert_eq!(hasher.finish(), u64::MAX);
    hasher.write_i32(-2);
    assert_eq!(hasher.finish(), u64::MAX - 1);
    hasher.write_u8(7);
    assert_eq!(hasher.finish(), 7);
    hasher.write_usize(1 << 40);
    assert_eq!(hasher.finish(), 1 << 40);
}
