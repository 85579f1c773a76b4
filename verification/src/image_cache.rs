//! The cache of raster images: decoded pixels waiting for the atlas, images placed in the atlas,
//! and images that could not be read. Images not used since the last trim leave the cache, and
//! the atlas space of those placed is given back.

use vstd::prelude::*;
use rustc_hash::{FxHashMap, FxHashSet};
use crate::atlas::{
    apart, entry_allocations, entry_size, hold_all, lemma_hold_all_grows, lemma_hold_all_keeps,
    lemma_placed_all_apart, lemma_releasable_when_held, lemma_release_all_clears,
    lemma_release_all_concat, lemma_release_all_keeps, lemma_release_all_not_occupies, occupies,
    lemma_release_all_layers_concat, padded_image, pairwise_apart, placed_all, places, release_all,
    release_all_layers, releasable_all, Allocation,
    AtlasEntry, AtlasLayer, ImageAtlas, LayerUse, ATLAS_SIZE,
};

verus! {

/// Where an image is: decoded in host memory, placed in the atlas, or unavailable.
#[derive(Debug)]
pub enum RasterImageMemory {
    /// Decoded RGBA pixels, row after row.
    Host { width: u32, height: u32, pixels: Vec<u8> },
    /// Placed in the atlas.
    Device(AtlasEntry),
    /// The image file was not found.
    NotFound,
    /// The image could not be decoded.
    Invalid,
}

/// The size an image is measured at: its own, or one pixel for an image that could not be had.
pub open spec fn memory_size(m: RasterImageMemory) -> (u32, u32) {
    match m {
        RasterImageMemory::Host { width, height, .. } => (width, height),
        RasterImageMemory::Device(e) => entry_size(e),
        _ => (1, 1),
    }
}

impl RasterImageMemory {
    /// The size of the image in pixels.
    pub fn dimensions(&self) -> (d: (u32, u32))
        ensures
            d == memory_size(*self),
    {
        match self {
            RasterImageMemory::Host { width, height, .. } => (*width, *height),
            RasterImageMemory::Device(entry) => entry.size(),
            RasterImageMemory::NotFound => (1, 1),
            RasterImageMemory::Invalid => (1, 1),
        }
    }
}

/// An image is measured as width by height, in that order: a decoded image at the width and
/// height it was decoded with, a placed one at the size of its entry (a whole layer, a region's
/// width and height, or a cut image's recorded size), and an image that could not be had at one
/// pixel.
pub proof fn lemma_measured_size(m: RasterImageMemory)
    ensures
        m matches RasterImageMemory::Host { width, height, .. } ==> memory_size(m).0 == width
            && memory_size(m).1 == height,
        m matches RasterImageMemory::Device(AtlasEntry::Contiguous(Allocation::Full { .. }))
            ==> memory_size(m) == (ATLAS_SIZE, ATLAS_SIZE),
        m matches RasterImageMemory::Device(
            AtlasEntry::Contiguous(Allocation::Partial { region, .. }),
        ) ==> memory_size(m).0 == region.width && memory_size(m).1 == region.height,
        m matches RasterImageMemory::Device(AtlasEntry::Fragmented { size, .. }) ==> memory_size(
            m,
        ).0 == size.0 && memory_size(m).1 == size.1,
        m is NotFound || m is Invalid ==> memory_size(m) == (1u32, 1u32),
{
}

/// No images at all.
pub open spec fn no_images() -> Map<u64, RasterImageMemory> {
    Map::empty()
}

/// An empty image map, by `FxHashMap::default`.
#[verifier::external_body]
fn memory_map_new() -> (m: FxHashMap<u64, RasterImageMemory>)
    ensures
        m@ == no_images(),
{
    FxHashMap::default()
}

/// Whether the image map holds `id`, by `HashMap::contains_key`; integer keys hash and compare
/// as integers, so the map behaves as a mathematical map.
#[verifier::external_body]
fn memory_map_contains(m: &FxHashMap<u64, RasterImageMemory>, id: u64) -> (r: bool)
    ensures
        r == m@.dom().contains(id),
{
    m.contains_key(&id)
}

/// The image stored under `id`, by `HashMap::get`.
#[verifier::external_body]
fn memory_map_get(m: &FxHashMap<u64, RasterImageMemory>, id: u64) -> (r: Option<&RasterImageMemory>)
    ensures
        r == (if m@.dom().contains(id) {
            Some(&m@[id])
        } else {
            None
        }),
{
    m.get(&id)
}

/// Stores `memory` under `id`, replacing what was there, by `HashMap::insert`.
#[verifier::external_body]
fn memory_map_insert(m: &mut FxHashMap<u64, RasterImageMemory>, id: u64, memory: RasterImageMemory)
    ensures
        final(m)@ == old(m)@.insert(id, memory),
{
    let _ = m.insert(id, memory);
}

/// Takes out what is stored under `id`, by `HashMap::remove`.
#[verifier::external_body]
fn memory_map_remove(m: &mut FxHashMap<u64, RasterImageMemory>, id: u64) -> (r: Option<
    RasterImageMemory,
>)
    ensures
        final(m)@ == old(m)@.remove(id),
        r == (if old(m)@.dom().contains(id) {
            Some(old(m)@[id])
        } else {
            None
        }),
{
    m.remove(&id)
}

/// The keys of the image map, each once, in the order the map walks them (which depends on its
/// hashes and history and is not stated), by `HashMap::keys`.
#[verifier::external_body]
fn memory_map_keys(m: &FxHashMap<u64, RasterImageMemory>) -> (keys: Vec<u64>)
    ensures
        keys@.no_duplicates(),
        keys@.to_set() == m@.dom(),
{
    m.keys().copied().collect()
}

/// An empty set of image identifiers, by `FxHashSet::default`.
#[verifier::external_body]
fn id_set_new() -> (s: FxHashSet<u64>)
    ensures
        s@ == Set::<u64>::empty(),
{
    FxHashSet::default()
}

/// Adds `id` to a set of image identifiers, by `HashSet::insert`.
#[verifier::external_body]
fn id_set_insert(s: &mut FxHashSet<u64>, id: u64)
    ensures
        final(s)@ == old(s)@.insert(id),
{
    let _ = s.insert(id);
}

/// Whether a set of image identifiers holds `id`, by `HashSet::contains`.
#[verifier::external_body]
fn id_set_contains(s: &FxHashSet<u64>, id: u64) -> (r: bool)
    ensures
        r == s@.contains(id),
{
    s.contains(&id)
}

/// Empties a set of image identifiers, by `HashSet::clear`.
#[verifier::external_body]
fn id_set_clear(s: &mut FxHashSet<u64>)
    ensures
        final(s)@ == Set::<u64>::empty(),
{
    s.clear()
}

/// The allocations an image holds in the atlas: those of its entry when it is placed there,
/// none otherwise.
pub open spec fn device_allocations(m: Map<u64, RasterImageMemory>, id: u64) -> Seq<Allocation> {
    if m.dom().contains(id) {
        match m[id] {
            RasterImageMemory::Device(e) => entry_allocations(e),
            _ => Seq::empty(),
        }
    } else {
        Seq::empty()
    }
}

/// The images and the atlas agree: the atlas holds every allocation of every placed image, no
/// two of them name the same place, and decoded pixels cover their image.
pub open spec fn agrees_with(m: Map<u64, RasterImageMemory>, v: Seq<LayerUse>) -> bool {
    &&& forall|id: u64, k: int|
        m.dom().contains(id) && 0 <= k < device_allocations(m, id).len() ==> occupies(
            v,
            #[trigger] device_allocations(m, id)[k],
        )
    &&& forall|id: u64| m.dom().contains(id) ==> pairwise_apart(#[trigger] device_allocations(m, id))
    &&& forall|a: u64, b: u64, i: int, j: int|
        a != b && m.dom().contains(a) && m.dom().contains(b) && 0 <= i < device_allocations(
            m,
            a,
        ).len() && 0 <= j < device_allocations(m, b).len() ==> apart(
            #[trigger] device_allocations(m, a)[i],
            #[trigger] device_allocations(m, b)[j],
        )
    &&& forall|id: u64|
        #[trigger] m.dom().contains(id) ==> (m[id] matches RasterImageMemory::Host {
            width,
            height,
            pixels,
        } ==> (4 * width) * height <= pixels@.len())
}

/// The allocations of the images `order`, one image after another.
pub open spec fn allocations_of(m: Map<u64, RasterImageMemory>, order: Seq<u64>) -> Seq<Allocation>
    decreases order.len(),
{
    if order.len() == 0 {
        Seq::empty()
    } else {
        allocations_of(m, order.drop_last()) + device_allocations(m, order.last())
    }
}

/// Giving back the allocations of one more image, after those of the images `dropped`, is
/// giving back those of the longer list, and leaves none of them held.
proof fn lemma_drop_one(
    w: Seq<LayerUse>,
    m: Map<u64, RasterImageMemory>,
    dropped: Seq<u64>,
    k: u64,
    v: Seq<LayerUse>,
)
    requires
        v == release_all(w, allocations_of(m, dropped)),
        releasable_all(v, device_allocations(m, k)),
        forall|id: u64, t: int|
            dropped.contains(id) && 0 <= t < device_allocations(m, id).len() ==> !occupies(
                v,
                #[trigger] device_allocations(m, id)[t],
            ),
    ensures
        release_all(v, device_allocations(m, k)) == release_all(
            w,
            allocations_of(m, dropped.push(k)),
        ),
        forall|id: u64, t: int|
            dropped.push(k).contains(id) && 0 <= t < device_allocations(m, id).len() ==> !occupies(
                release_all(v, device_allocations(m, k)),
                #[trigger] device_allocations(m, id)[t],
            ),
{
    let s = device_allocations(m, k);
    assert(dropped.push(k).drop_last() =~= dropped);
    lemma_release_all_concat(w, allocations_of(m, dropped), s);
    lemma_release_all_clears(v, s);
    assert forall|id: u64, t: int|
        dropped.push(k).contains(id) && 0 <= t < device_allocations(m, id).len() implies !occupies(
        release_all(v, s),
        #[trigger] device_allocations(m, id)[t],
    ) by {
        if id != k {
            let j = choose|j: int| 0 <= j < dropped.push(k).len() && dropped.push(k)[j] == id;
            assert(dropped[j] == id);
            lemma_release_all_not_occupies(v, s, device_allocations(m, id)[t]);
        }
    }
}

/// What the upload of a newly placed image needs besides its placement.
#[derive(Debug)]
pub struct UploadedImage {
    /// How many layers the atlas gained, which the texture must grow by.
    pub new_layers: usize,
    /// The zero bytes after each row of pixels.
    pub padding: u32,
    /// The rows of pixels, each followed by the padding.
    pub data: Vec<u8>,
}

/// What an upload gives for an image that is in the atlas once it returns.
#[derive(Debug)]
pub enum AtlasUpload {
    /// The image was placed just now; what its texture upload needs.
    New(UploadedImage),
    /// The image was placed before; its entry is where it was (see `get`).
    Resident,
}

/// The raster images known by identifier, those used since the last trim, and whether a trim
/// has anything to do.
pub struct RasterCache {
    map: FxHashMap<u64, RasterImageMemory>,
    hits: FxHashSet<u64>,
    should_trim: bool,
}

impl RasterCache {
    /// The images, by identifier.
    pub closed spec fn spec_memory(&self) -> Map<u64, RasterImageMemory> {
        self.map@
    }

    /// The identifiers used since the last trim.
    pub closed spec fn spec_hits(&self) -> Set<u64> {
        self.hits@
    }

    /// Whether an image was loaded since the last trim.
    pub closed spec fn spec_should_trim(&self) -> bool {
        self.should_trim
    }

    /// No images, none used.
    pub fn new() -> (c: Self)
        ensures
            c.spec_memory() == no_images(),
            c.spec_hits() == Set::<u64>::empty(),
            !c.spec_should_trim(),
    {
        RasterCache { map: memory_map_new(), hits: id_set_new(), should_trim: false }
    }

    /// Whether the image `id` is known.
    pub fn contains(&self, id: u64) -> (r: bool)
        ensures
            r == self.spec_memory().dom().contains(id),
    {
        memory_map_contains(&self.map, id)
    }

    /// Use the image `id` if it is known: it counts as used until the next trim.
    pub fn hit(&mut self, id: u64) -> (known: bool)
        ensures
            known == old(self).spec_memory().dom().contains(id),
            final(self).spec_memory() == old(self).spec_memory(),
            final(self).spec_should_trim() == old(self).spec_should_trim(),
            final(self).spec_hits() == if known {
                old(self).spec_hits().insert(id)
            } else {
                old(self).spec_hits()
            },
    {
        if memory_map_contains(&self.map, id) {
            id_set_insert(&mut self.hits, id);
            true
        } else {
            false
        }
    }

    /// Keep the image `id` as just loaded (decoded, or found missing or unreadable): it counts as
    /// used, and the next trim has work to do.
    pub fn store(&mut self, id: u64, memory: RasterImageMemory)
        requires
            !(memory is Device),
            memory matches RasterImageMemory::Host { width, height, pixels } ==> (4 * width)
                * height <= pixels@.len(),
        ensures
            final(self).spec_memory() == old(self).spec_memory().insert(id, memory),
            final(self).spec_hits() == old(self).spec_hits().insert(id),
            final(self).spec_should_trim(),
    {
        self.should_trim = true;
        memory_map_insert(&mut self.map, id, memory);
        id_set_insert(&mut self.hits, id);
    }

    /// Use the image `id` and make sure it is in the atlas: a decoded image is placed and kept
    /// as placed from then on, and what its upload needs is returned (see `ImageAtlas::upload`);
    /// an image already placed is reported resident. An image not decoded, or an empty decoded
    /// one, is left as it is, and nothing is returned. The image counts as used in any case.
    pub fn upload(&mut self, id: u64, atlas: &mut ImageAtlas, align: u32) -> (r: Option<
        AtlasUpload,
    >)
        requires
            old(atlas).wf(),
            agrees_with(old(self).spec_memory(), old(atlas)@),
            align > 0,
            old(self).spec_memory().dom().contains(id) ==> (old(self).spec_memory()[id] matches RasterImageMemory::Host {
                width,
                height,
                ..
            } ==> 4 * width + align <= u32::MAX && (4 * width + align) * height <= usize::MAX),
        ensures
            final(atlas).wf(),
            agrees_with(final(self).spec_memory(), final(atlas)@),
            final(self).spec_hits() == old(self).spec_hits().insert(id),
            final(self).spec_should_trim() == old(self).spec_should_trim(),
            r is Some <==> old(self).spec_memory().dom().contains(id) && (
            old(self).spec_memory()[id] is Device || (old(self).spec_memory()[id] matches RasterImageMemory::Host {
                width,
                height,
                ..
            } && !(width <= ATLAS_SIZE && height <= ATLAS_SIZE && (width == 0 || height == 0)))),
            r matches Some(AtlasUpload::Resident) <==> old(self).spec_memory().dom().contains(id)
                && old(self).spec_memory()[id] is Device,
            !(r matches Some(AtlasUpload::New(_))) ==> final(self).spec_memory() == old(
                self,
            ).spec_memory() && final(atlas)@ == old(atlas)@ && final(atlas).layers_state() == old(
                atlas,
            ).layers_state(),
            r matches Some(AtlasUpload::New(u)) ==> old(self).spec_memory()[id] matches RasterImageMemory::Host {
                width,
                height,
                pixels,
            } && final(self).spec_memory()[id] matches RasterImageMemory::Device(e) && {
                &&& final(self).spec_memory() == old(self).spec_memory().insert(
                    id,
                    RasterImageMemory::Device(e),
                )
                &&& placed_all(old(atlas)@, entry_allocations(e))
                &&& final(atlas)@ == hold_all(old(atlas)@, entry_allocations(e))
                &&& entry_size(e) == (width, height)
                &&& places(old(atlas).layers_state(), e, final(atlas).layers_state())
                &&& u.new_layers == final(atlas)@.len() - old(atlas)@.len()
                &&& u.padding == (align - (4 * width) % (align as int)) % (align as int)
                &&& u.data@ == padded_image(
                    pixels@,
                    width as int,
                    height as int,
                    (4 * width + u.padding) as int,
                )
            },
    {
        id_set_insert(&mut self.hits, id);
        let ghost m = self.map@;
        let ghost v = atlas@;
        let found = memory_map_get(&self.map, id);
        let (width, height, up) = match found {
            Some(RasterImageMemory::Host { width, height, pixels }) => {
                let w = *width;
                let h = *height;
                proof {
                    assert(m.dom().contains(id));
                }
                let up = atlas.upload(w, h, pixels.as_slice(), align);
                (w, h, up)
            },
            Some(RasterImageMemory::Device(_)) => {
                return Some(AtlasUpload::Resident);
            },
            _ => {
                return None;
            },
        };
        match up {
            Some(u) => {
                let ghost s = entry_allocations(u.entry);
                let ghost v2 = atlas@;
                proof {
                    lemma_hold_all_grows(v, s);
                    lemma_placed_all_apart(v, s);
                }
                let new_layers = u.new_layers;
                let padding = u.padding;
                let data = u.data;
                let entry = u.entry;
                memory_map_insert(&mut self.map, id, RasterImageMemory::Device(entry));
                proof {
                    let m2 = self.map@;
                    assert(device_allocations(m2, id) == s);
                    assert forall|a: u64| m2.dom().contains(a) && a != id implies device_allocations(
                        m2,
                        a,
                    ) == device_allocations(m, a) by {
                        assert(m2[a] == m[a]);
                    }
                    assert(device_allocations(m, id) == Seq::<Allocation>::empty());
                    assert forall|a: u64, k: int|
                        m2.dom().contains(a) && 0 <= k < device_allocations(m2, a).len() implies occupies(
                        v2,
                        #[trigger] device_allocations(m2, a)[k],
                    ) by {
                        if a != id {
                            lemma_hold_all_keeps(v, s, device_allocations(m, a)[k]);
                        }
                    }
                    assert forall|a: u64, b: u64, i: int, j: int|
                        a != b && m2.dom().contains(a) && m2.dom().contains(b) && 0 <= i
                            < device_allocations(m2, a).len() && 0 <= j < device_allocations(
                            m2,
                            b,
                        ).len() implies apart(
                        #[trigger] device_allocations(m2, a)[i],
                        #[trigger] device_allocations(m2, b)[j],
                    ) by {
                        if a == id {
                            lemma_hold_all_keeps(v, s, device_allocations(m, b)[j]);
                            assert(apart(s[i], device_allocations(m, b)[j]));
                        } else if b == id {
                            lemma_hold_all_keeps(v, s, device_allocations(m, a)[i]);
                            assert(apart(s[j], device_allocations(m, a)[i]));
                        } else {
                            assert(apart(device_allocations(m, a)[i], device_allocations(m, b)[j]));
                        }
                    }
                    assert forall|a: u64| m2.dom().contains(a) implies pairwise_apart(
                        #[trigger] device_allocations(m2, a),
                    ) by {
                        if a != id {
                            assert(pairwise_apart(device_allocations(m, a)));
                        }
                    }
                    assert forall|a: u64| #[trigger] m2.dom().contains(a) implies (m2[a] matches RasterImageMemory::Host {
                        width,
                        height,
                        pixels,
                    } ==> (4 * width) * height <= pixels@.len()) by {
                        if a != id {
                            assert(m.dom().contains(a));
                        }
                    }
                }
                Some(AtlasUpload::New(UploadedImage { new_layers, padding, data }))
            },
            None => None,
        }
    }

    /// Drop the images not used since the last trim, giving their atlas space back, when an image
    /// was loaded since then; afterwards no image counts as used.
    pub fn trim(&mut self, atlas: &mut ImageAtlas)
        requires
            old(atlas).wf(),
            agrees_with(old(self).spec_memory(), old(atlas)@),
        ensures
            final(atlas).wf(),
            agrees_with(final(self).spec_memory(), final(atlas)@),
            !old(self).spec_should_trim() ==> {
                &&& final(self).spec_memory() == old(self).spec_memory()
                &&& final(self).spec_hits() == old(self).spec_hits()
                &&& !final(self).spec_should_trim()
                &&& final(atlas)@ == old(atlas)@
            },
            old(self).spec_should_trim() ==> {
                &&& final(self).spec_memory() == old(self).spec_memory().restrict(
                    old(self).spec_hits(),
                )
                &&& final(self).spec_hits() == Set::<u64>::empty()
                &&& !final(self).spec_should_trim()
                &&& exists|order: Seq<u64>|
                    {
                        &&& order.no_duplicates()
                        &&& order.to_set() == old(self).spec_memory().dom().difference(
                            old(self).spec_hits(),
                        )
                        &&& final(atlas)@ == release_all(
                            old(atlas)@,
                            #[trigger] allocations_of(old(self).spec_memory(), order),
                        )
                        &&& final(atlas).layers_state() == release_all_layers(
                            old(atlas).layers_state(),
                            allocations_of(old(self).spec_memory(), order),
                        )
                    }
                &&& forall|id: u64, t: int|
                    old(self).spec_memory().dom().contains(id) && !old(self).spec_hits().contains(
                        id,
                    ) && 0 <= t < device_allocations(old(self).spec_memory(), id).len()
                        ==> !occupies(
                        final(atlas)@,
                        #[trigger] device_allocations(old(self).spec_memory(), id)[t],
                    )
            },
    {
        if !self.should_trim {
            return;
        }
        let ghost old_map = self.map@;
        let ghost old_hits = self.hits@;
        let ghost old_atlas = atlas@;
        let ghost old_state = atlas.layers_state();
        let ghost mut dropped: Seq<u64> = Seq::empty();
        let keys = memory_map_keys(&self.map);
        let mut i: usize = 0;
        while i < keys.len()
            invariant
                atlas.wf(),
                agrees_with(self.map@, atlas@),
                i <= keys@.len(),
                keys@.no_duplicates(),
                keys@.to_set() == old_map.dom(),
                self.hits@ == old_hits,
                forall|k: u64|
                    #[trigger] self.map@.dom().contains(k) <==> (old_map.dom().contains(k) && (
                    old_hits.contains(k) || !keys@.take(i as int).contains(k))),
                forall|k: u64| #[trigger] self.map@.dom().contains(k) ==> self.map@[k] == old_map[k],
                dropped.no_duplicates(),
                forall|k: u64|
                    #[trigger] dropped.contains(k) <==> (old_map.dom().contains(k)
                        && !old_hits.contains(k) && keys@.take(i as int).contains(k)),
                atlas@ == release_all(old_atlas, allocations_of(old_map, dropped)),
                atlas.layers_state() == release_all_layers(
                    old_state,
                    allocations_of(old_map, dropped),
                ),
                forall|id: u64, t: int|
                    dropped.contains(id) && 0 <= t < device_allocations(old_map, id).len()
                        ==> !occupies(atlas@, #[trigger] device_allocations(old_map, id)[t]),
            decreases keys@.len() - i,
        {
            let k = keys[i];
            let ghost m = self.map@;
            let ghost v = atlas@;
            let ghost d0 = dropped;
            let ghost st = atlas.layers_state();
            proof {
                assert(keys@.to_set().contains(k));
                assert(!keys@.take(i as int).contains(k)) by {
                    if keys@.take(i as int).contains(k) {
                        let j = choose|j: int| 0 <= j < i && keys@.take(i as int)[j] == k;
                        assert(keys@[j] == keys@[i as int]);
                    }
                }
                assert(m.dom().contains(k));
            }
            if !id_set_contains(&self.hits, k) {
                let removed = memory_map_remove(&mut self.map, k);
                match removed {
                    Some(RasterImageMemory::Device(entry)) => {
                        let ghost s = entry_allocations(entry);
                        proof {
                            assert(s == device_allocations(m, k));
                            assert forall|q: int| 0 <= q < s.len() implies occupies(v, #[trigger] s[q]) by {
                                assert(occupies(v, device_allocations(m, k)[q]));
                            }
                            lemma_releasable_when_held(v, s);
                            assert(s == device_allocations(old_map, k));
                        }
                        atlas.remove(&entry);
                        proof {
                            let m2 = self.map@;
                            assert forall|a: u64, q: int|
                                m2.dom().contains(a) && 0 <= q < device_allocations(m2, a).len() implies occupies(
                                atlas@,
                                #[trigger] device_allocations(m2, a)[q],
                            ) by {
                                assert(m2[a] == m[a]);
                                assert(device_allocations(m2, a) == device_allocations(m, a));
                                let x = device_allocations(m, a)[q];
                                assert forall|t: int| 0 <= t < s.len() implies apart(#[trigger] s[t], x) by {
                                    assert(apart(device_allocations(m, k)[t], device_allocations(m, a)[q]));
                                }
                                assert forall|t: int| 0 <= t < s.len() implies occupies(v, #[trigger] s[t]) by {
                                    assert(occupies(v, device_allocations(m, k)[t]));
                                }
                                lemma_release_all_keeps(v, s, x);
                            }
                            assert forall|a: u64| m2.dom().contains(a) implies device_allocations(m2, a)
                                == device_allocations(m, a) by {
                                assert(m2[a] == m[a]);
                            }
                        }
                    },
                    _ => {
                        proof {
                            let m2 = self.map@;
                            assert forall|a: u64| m2.dom().contains(a) implies device_allocations(m2, a)
                                == device_allocations(m, a) by {
                                assert(m2[a] == m[a]);
                            }
                            assert(device_allocations(old_map, k) =~= Seq::<Allocation>::empty());
                            assert(atlas@ == release_all(v, device_allocations(old_map, k)));
                            assert(atlas.layers_state() == release_all_layers(
                                st,
                                device_allocations(old_map, k),
                            ));
                        }
                    },
                }
                proof {
                    lemma_drop_one(old_atlas, old_map, dropped, k, v);
                    lemma_release_all_layers_concat(
                        old_state,
                        allocations_of(old_map, dropped),
                        device_allocations(old_map, k),
                    );
                    assert(dropped.push(k).drop_last() =~= dropped);
                    assert(allocations_of(old_map, dropped.push(k)) == allocations_of(old_map, dropped)
                        + device_allocations(old_map, k));
                    assert(!dropped.contains(k));
                    dropped = dropped.push(k);
                }
            }
            proof {
                let before = keys@.take(i as int);
                let after = keys@.take(i + 1);
                assert(after == before.push(k));
                assert forall|q: u64| #[trigger] self.map@.dom().contains(q) <==> (old_map.dom().contains(
                    q,
                ) && (old_hits.contains(q) || !after.contains(q))) by {
                    if q != k {
                        if after.contains(q) {
                            let j = choose|j: int| 0 <= j < after.len() && after[j] == q;
                            assert(j < before.len());
                            assert(before[j] == q);
                        }
                        if before.contains(q) {
                            let j = choose|j: int| 0 <= j < before.len() && before[j] == q;
                            assert(after[j] == q);
                        }
                    } else {
                        assert(after[i as int] == k);
                    }
                }
                assert(dropped == d0.push(k) || (dropped == d0 && old_hits.contains(k)));
                assert(old_map.dom().contains(k));
                assert forall|q: u64| #[trigger] dropped.contains(q) <==> (old_map.dom().contains(q)
                    && !old_hits.contains(q) && after.contains(q)) by {
                    if dropped == d0.push(k) {
                        if dropped.contains(q) && q != k {
                            let j = choose|j: int| 0 <= j < dropped.len() && dropped[j] == q;
                            assert(d0[j] == q);
                        }
                        if d0.contains(q) {
                            let j = choose|j: int| 0 <= j < d0.len() && d0[j] == q;
                            assert(dropped[j] == q);
                        }
                        assert(dropped[d0.len() as int] == k);
                    }
                    if q != k {
                        if after.contains(q) {
                            let j = choose|j: int| 0 <= j < after.len() && after[j] == q;
                            assert(j < before.len());
                            assert(before[j] == q);
                        }
                        if before.contains(q) {
                            let j = choose|j: int| 0 <= j < before.len() && before[j] == q;
                            assert(after[j] == q);
                        }
                    } else {
                        assert(after[i as int] == k);
                    }
                }
            }
            i = i + 1;
        }
        proof {
            assert(keys@.take(i as int) == keys@);
            assert forall|k: u64| old_map.dom().contains(k) implies keys@.contains(k) by {
                assert(keys@.to_set().contains(k));
            }
            assert(self.map@ =~= old_map.restrict(old_hits));
            assert(dropped.to_set() =~= old_map.dom().difference(old_hits));
            assert(atlas@ == release_all(old_atlas, allocations_of(old_map, dropped)));
            assert(atlas.layers_state() == release_all_layers(
                old_state,
                allocations_of(old_map, dropped),
            ));
        }
        id_set_clear(&mut self.hits);
        self.should_trim = false;
    }

    /// The image `id`, if known.
    pub fn get(&self, id: u64) -> (r: Option<&RasterImageMemory>)
        ensures
            r == (if self.spec_memory().dom().contains(id) {
                Some(&self.spec_memory()[id])
            } else {
                None
            }),
    {
        memory_map_get(&self.map, id)
    }
}

/// In a well-formed cache the atlas holds every allocation of every placed image, no two of them
/// name the same place, and decoded pixels cover their image.
pub proof fn lemma_cache_agrees(c: ImageCache)
    requires
        c.wf(),
    ensures
        agrees_with(c.spec_memory(), c.spec_layers()),
{
}

/// The atlas of placed images together with the raster images it holds.
pub struct ImageCache {
    atlas: ImageAtlas,
    raster: RasterCache,
}

impl ImageCache {
    /// The atlas's layers with their allocators, as first fit sees them.
    pub closed spec fn atlas_state(&self) -> Seq<AtlasLayer> {
        self.atlas.layers_state()
    }

    /// The atlas's layers.
    pub closed spec fn spec_layers(&self) -> Seq<LayerUse> {
        self.atlas@
    }

    /// The images, by identifier.
    pub closed spec fn spec_memory(&self) -> Map<u64, RasterImageMemory> {
        self.raster.spec_memory()
    }

    /// The identifiers used since the last trim.
    pub closed spec fn spec_hits(&self) -> Set<u64> {
        self.raster.spec_hits()
    }

    /// Whether an image was loaded since the last trim.
    pub closed spec fn spec_should_trim(&self) -> bool {
        self.raster.spec_should_trim()
    }

    /// The atlas is well formed and agrees with the images.
    pub closed spec fn wf(&self) -> bool {
        self.atlas.wf() && agrees_with(self.raster.spec_memory(), self.atlas@)
    }

    /// No images, in an atlas of `layers` empty layers.
    pub fn new(layers: usize) -> (c: Self)
        ensures
            c.wf(),
            c.spec_layers() == Seq::new(layers as nat, |i: int| LayerUse::Empty),
            c.spec_memory() == no_images(),
            c.spec_hits() == Set::<u64>::empty(),
            !c.spec_should_trim(),
    {
        ImageCache { atlas: ImageAtlas::new(layers), raster: RasterCache::new() }
    }

    /// Use the image `id` if it is known (see `RasterCache::hit`).
    pub fn hit(&mut self, id: u64) -> (known: bool)
        requires
            old(self).wf(),
        ensures
            final(self).wf(),
            known == old(self).spec_memory().dom().contains(id),
            final(self).spec_memory() == old(self).spec_memory(),
            final(self).spec_layers() == old(self).spec_layers(),
            final(self).spec_should_trim() == old(self).spec_should_trim(),
            final(self).spec_hits() == if known {
                old(self).spec_hits().insert(id)
            } else {
                old(self).spec_hits()
            },
    {
        self.raster.hit(id)
    }

    /// Keep the image `id` as just loaded (see `RasterCache::store`); an image already placed
    /// under `id` is not replaced.
    pub fn store(&mut self, id: u64, memory: RasterImageMemory)
        requires
            old(self).wf(),
            !old(self).spec_memory().dom().contains(id),
            !(memory is Device),
            memory matches RasterImageMemory::Host { width, height, pixels } ==> (4 * width)
                * height <= pixels@.len(),
        ensures
            final(self).wf(),
            final(self).spec_memory() == old(self).spec_memory().insert(id, memory),
            final(self).spec_hits() == old(self).spec_hits().insert(id),
            final(self).spec_should_trim(),
            final(self).spec_layers() == old(self).spec_layers(),
    {
        let ghost m = self.raster.spec_memory();
        self.raster.store(id, memory);
        proof {
            let m2 = self.raster.spec_memory();
            assert forall|a: u64| m2.dom().contains(a) implies device_allocations(m2, a)
                == if a == id {
                Seq::<Allocation>::empty()
            } else {
                device_allocations(m, a)
            } by {
                if a != id {
                    assert(m2[a] == m[a]);
                }
            }
            assert forall|a: u64| #[trigger] m2.dom().contains(a) implies (m2[a] matches RasterImageMemory::Host {
                width,
                height,
                pixels,
            } ==> (4 * width) * height <= pixels@.len()) by {
                if a != id {
                    assert(m.dom().contains(a));
                }
            }
        }
    }

    /// The size of the known image `id`.
    pub fn dimensions(&self, id: u64) -> (d: (u32, u32))
        requires
            self.spec_memory().dom().contains(id),
        ensures
            d == memory_size(self.spec_memory()[id]),
    {
        match self.raster.get(id) {
            Some(memory) => memory.dimensions(),
            None => (1, 1),
        }
    }

    /// The image `id`, if known.
    pub fn get(&self, id: u64) -> (r: Option<&RasterImageMemory>)
        ensures
            r == (if self.spec_memory().dom().contains(id) {
                Some(&self.spec_memory()[id])
            } else {
                None
            }),
    {
        self.raster.get(id)
    }

    /// Use the image `id` and make sure it is in the atlas (see `RasterCache::upload`).
    pub fn upload_raster(&mut self, id: u64, align: u32) -> (r: Option<AtlasUpload>)
        requires
            old(self).wf(),
            align > 0,
            old(self).spec_memory().dom().contains(id) ==> (old(self).spec_memory()[id] matches RasterImageMemory::Host {
                width,
                height,
                ..
            } ==> 4 * width + align <= u32::MAX && (4 * width + align) * height <= usize::MAX),
        ensures
            final(self).wf(),
            final(self).spec_hits() == old(self).spec_hits().insert(id),
            final(self).spec_should_trim() == old(self).spec_should_trim(),
            r is Some <==> old(self).spec_memory().dom().contains(id) && (
            old(self).spec_memory()[id] is Device || (old(self).spec_memory()[id] matches RasterImageMemory::Host {
                width,
                height,
                ..
            } && !(width <= ATLAS_SIZE && height <= ATLAS_SIZE && (width == 0 || height == 0)))),
            r matches Some(AtlasUpload::Resident) <==> old(self).spec_memory().dom().contains(id)
                && old(self).spec_memory()[id] is Device,
            !(r matches Some(AtlasUpload::New(_))) ==> final(self).spec_memory() == old(
                self,
            ).spec_memory() && final(self).spec_layers() == old(self).spec_layers()
                && final(self).atlas_state() == old(self).atlas_state(),
            r matches Some(AtlasUpload::New(u)) ==> old(self).spec_memory()[id] matches RasterImageMemory::Host {
                width,
                height,
                pixels,
            } && final(self).spec_memory()[id] matches RasterImageMemory::Device(e) && {
                &&& final(self).spec_memory() == old(self).spec_memory().insert(
                    id,
                    RasterImageMemory::Device(e),
                )
                &&& placed_all(old(self).spec_layers(), entry_allocations(e))
                &&& final(self).spec_layers() == hold_all(
                    old(self).spec_layers(),
                    entry_allocations(e),
                )
                &&& entry_size(e) == (width, height)
                &&& places(old(self).atlas_state(), e, final(self).atlas_state())
                &&& u.new_layers == final(self).spec_layers().len() - old(self).spec_layers().len()
                &&& u.padding == (align - (4 * width) % (align as int)) % (align as int)
                &&& u.data@ == padded_image(
                    pixels@,
                    width as int,
                    height as int,
                    (4 * width + u.padding) as int,
                )
            },
    {
        self.raster.upload(id, &mut self.atlas, align)
    }

    /// Drop the images not used since the last trim (see `RasterCache::trim`).
    #[verifier::spinoff_prover]
    pub fn trim(&mut self)
        requires
            old(self).wf(),
        ensures
            final(self).wf(),
            !old(self).spec_should_trim() ==> {
                &&& final(self).spec_memory() == old(self).spec_memory()
                &&& final(self).spec_hits() == old(self).spec_hits()
                &&& !final(self).spec_should_trim()
                &&& final(self).spec_layers() == old(self).spec_layers()
            },
            old(self).spec_should_trim() ==> {
                &&& final(self).spec_memory() == old(self).spec_memory().restrict(
                    old(self).spec_hits(),
                )
                &&& final(self).spec_hits() == Set::<u64>::empty()
                &&& !final(self).spec_should_trim()
                &&& exists|order: Seq<u64>|
                    {
                        &&& order.no_duplicates()
                        &&& order.to_set() == old(self).spec_memory().dom().difference(
                            old(self).spec_hits(),
                        )
                        &&& final(self).spec_layers() == release_all(
                            old(self).spec_layers(),
                            #[trigger] allocations_of(old(self).spec_memory(), order),
                        )
                        &&& final(self).atlas_state() == release_all_layers(
                            old(self).atlas_state(),
                            allocations_of(old(self).spec_memory(), order),
                        )
                    }
                &&& forall|id: u64, t: int|
                    old(self).spec_memory().dom().contains(id) && !old(self).spec_hits().contains(
                        id,
                    ) && 0 <= t < device_allocations(old(self).spec_memory(), id).len()
                        ==> !occupies(
                        final(self).spec_layers(),
                        #[trigger] device_allocations(old(self).spec_memory(), id)[t],
                    )
            },
    {
        self.raster.trim(&mut self.atlas)
    }

    /// The number of atlas layers, which the texture must have.
    pub fn layer_count(&self) -> (n: usize)
        ensures
            n == self.spec_layers().len(),
    {
        self.atlas.layer_count()
    }

    /// Whether nothing is placed in atlas layer `i`.
    pub fn is_layer_empty(&self, i: usize) -> (r: bool)
        requires
            i < self.spec_layers().len(),
        ensures
            r == (self.spec_layers()[i as int] is Empty),
    {
        self.atlas.is_layer_empty(i)
    }
}

} // verus!
