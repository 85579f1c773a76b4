//! Placement of images in a layered texture atlas.
//!
//! The atlas is a stack of square layers of `ATLAS_SIZE` pixels. An image of exactly one layer's
//! size takes a whole layer; a smaller image is placed in a layer by a guillotine allocator; a
//! larger image is cut into a grid of layer-sized fragments, each placed on its own. The texture
//! memory itself is managed by the caller, which grows it to the number of layers.

use vstd::prelude::*;
use guillotiere::{AllocId, AtlasAllocator, Size};

verus! {

/// The side of one atlas layer, in pixels.
pub const ATLAS_SIZE: u32 = 2048;

/// A guillotine rectangle allocator.
#[verifier::external_type_specification]
#[verifier::external_body]
pub struct ExAtlasAllocator(AtlasAllocator);

/// The side of the square area a guillotine allocator was made with.
pub uninterp spec fn allocator_extent(a: AtlasAllocator) -> int;

/// The identifiers (serialized) of the rectangles a guillotine allocator has handed out and not
/// taken back.
pub uninterp spec fn allocator_live(a: AtlasAllocator) -> Set<u32>;

/// What a guillotine allocator in a given state does with a `width` by `height` request: the
/// serialized identifier, top-left corner and size of the rectangle it grants, or nothing, and
/// its state afterwards. The allocator is deterministic, so this depends on its state and the
/// request alone.
pub uninterp spec fn guillotine_outcome(a: AtlasAllocator, width: i32, height: i32) -> (
    Option<(u32, i32, i32, i32, i32)>,
    AtlasAllocator,
);

/// The state of a new guillotine allocator for a `size` by `size` area.
pub uninterp spec fn guillotine_new(size: i32) -> AtlasAllocator;

/// The state of a guillotine allocator once the rectangle with serialized identifier `id` is
/// given back to it. The allocator is deterministic, so this depends on its state and the
/// identifier alone.
pub uninterp spec fn guillotine_freed(a: AtlasAllocator, id: u32) -> AtlasAllocator;

/// Creates a guillotine allocator for a `size` by `size` area, by `AtlasAllocator::new`.
///
/// The constructor asserts a positive size; the new allocator has handed out nothing. The side
/// is at most one atlas layer's: a serialized identifier keeps a node's index in its low 24 bits,
/// and an area of at most 2048 by 2048 pixels never needs that many nodes (its leaves are
/// disjoint non-empty rectangles), so identifiers of live rectangles stay distinct.
#[verifier::external_body]
fn new_guillotine(size: i32) -> (a: AtlasAllocator)
    requires
        0 < size <= ATLAS_SIZE,
    ensures
        a == guillotine_new(size),
        allocator_extent(a) == size,
        allocator_live(a) == Set::<u32>::empty(),
{
    AtlasAllocator::new(Size::new(size, size))
}

/// Asks a guillotine allocator for a `width` by `height` rectangle, by `AtlasAllocator::allocate`.
///
/// The answer, and the allocator's state afterwards, are `guillotine_outcome` of its state and
/// the request. An empty request (a side not positive) gets nothing. A granted rectangle is
/// returned as its serialized identifier, its top-left corner and its size: it has exactly the
/// requested size (the default alignment is one pixel), lies inside the allocator's area, and
/// its identifier is not one of the live ones (live rectangles occupy distinct nodes, whose
/// index, below 2^24 for an area no larger than one layer, the identifier holds), so the live
/// set grows by it. Live rectangles are disjoint and non-empty inside the area, so fewer than
/// the area's pixel count were live before. With nothing live the whole area
/// is one free rectangle (deallocation merges free neighbours back up to the root, and the
/// crate's tests allocate the full area again after giving everything back), so any request that
/// fits the area is granted. Otherwise, whether a request that could fit is granted depends on
/// the allocator's history and is not stated.
#[verifier::external_body]
fn guillotine_allocate(a: &mut AtlasAllocator, width: i32, height: i32) -> (r: Option<
    (u32, i32, i32, i32, i32),
>)
    requires
        0 < allocator_extent(*old(a)) <= ATLAS_SIZE,
    ensures
        (r, *final(a)) == guillotine_outcome(*old(a), width, height),
        allocator_extent(*final(a)) == allocator_extent(*old(a)),
        width <= 0 || height <= 0 ==> r is None,
        allocator_live(*old(a)) == Set::<u32>::empty() && 0 < width <= allocator_extent(*old(a))
            && 0 < height <= allocator_extent(*old(a)) ==> r is Some,
        match r {
            None => allocator_live(*final(a)) == allocator_live(*old(a)),
            Some((id, x, y, w, h)) => {
                &&& w == width && h == height
                &&& 0 <= x && x + w <= allocator_extent(*old(a))
                &&& 0 <= y && y + h <= allocator_extent(*old(a))
                &&& !allocator_live(*old(a)).contains(id)
                &&& allocator_live(*final(a)) == allocator_live(*old(a)).insert(id)
                &&& allocator_live(*old(a)).len() < allocator_extent(*old(a)) * allocator_extent(
                    *old(a),
                )
            },
        },
{
    match a.allocate(Size::new(width, height)) {
        Some(allocation) => {
            let size = allocation.rectangle.size();
            Some(
                (
                    allocation.id.serialize(),
                    allocation.rectangle.min.x,
                    allocation.rectangle.min.y,
                    size.width,
                    size.height,
                ),
            )
        },
        None => None,
    }
}

/// Gives a live rectangle back to a guillotine allocator, by `AtlasAllocator::deallocate`.
///
/// The allocator asserts that the identifier names a live rectangle; afterwards that rectangle is
/// no longer live and the others are untouched. The state afterwards is `guillotine_freed` of the
/// state before and the identifier.
#[verifier::external_body]
fn guillotine_deallocate(a: &mut AtlasAllocator, id: u32)
    requires
        allocator_live(*old(a)).contains(id),
    ensures
        *final(a) == guillotine_freed(*old(a), id),
        allocator_extent(*final(a)) == allocator_extent(*old(a)),
        allocator_live(*final(a)) == allocator_live(*old(a)).remove(id),
{
    a.deallocate(AllocId::deserialize(id))
}

/// A rectangle placed in one atlas layer.
#[derive(Clone, Copy, Debug)]
pub struct Region {
    /// The allocator's identifier for the rectangle.
    pub id: u32,
    /// The left edge, in pixels from the layer's left edge.
    pub x: u32,
    /// The top edge, in pixels from the layer's top edge.
    pub y: u32,
    /// The width, in pixels.
    pub width: u32,
    /// The height, in pixels.
    pub height: u32,
}

impl Region {
    /// The top-left corner of this region.
    pub fn position(&self) -> (p: (u32, u32))
        ensures
            p == (self.x, self.y),
    {
        (self.x, self.y)
    }

    /// The size of this region.
    pub fn size(&self) -> (s: (u32, u32))
        ensures
            s == (self.width, self.height),
    {
        (self.width, self.height)
    }
}

/// The rectangle allocator of a partly used atlas layer, with the number of rectangles it has
/// handed out.
pub struct Allocator {
    raw: AtlasAllocator,
    allocations: usize,
}

impl Allocator {
    /// The side of the square this allocator places rectangles in.
    pub closed spec fn spec_extent(&self) -> int {
        allocator_extent(self.raw)
    }

    /// The identifiers of the rectangles in use.
    pub closed spec fn spec_live(&self) -> Set<u32> {
        allocator_live(self.raw)
    }

    /// The count of rectangles in use is exact, and no more rectangles are in use than the square
    /// has pixels.
    pub closed spec fn wf(&self) -> bool {
        &&& 0 < allocator_extent(self.raw) <= ATLAS_SIZE
        &&& allocator_live(self.raw).finite()
        &&& self.allocations == allocator_live(self.raw).len()
        &&& allocator_live(self.raw).len() <= allocator_extent(self.raw) * allocator_extent(
            self.raw,
        )
    }

    /// What this allocator, in its present state, grants for a `width` by `height` request:
    /// the identifier, corner and size of the rectangle, or nothing.
    pub closed spec fn grant_of(&self, width: u32, height: u32) -> Option<
        (u32, i32, i32, i32, i32),
    > {
        guillotine_outcome(self.raw, width as i32, height as i32).0
    }

    /// This allocator once a `width` by `height` request has been made of it (sides beyond
    /// `i32::MAX` are refused before the request is made).
    pub closed spec fn after(&self, width: u32, height: u32) -> Allocator {
        if width <= i32::MAX && height <= i32::MAX {
            Allocator {
                raw: guillotine_outcome(self.raw, width as i32, height as i32).1,
                allocations: if self.grant_of(width, height) is Some {
                    (self.allocations + 1) as usize
                } else {
                    self.allocations
                },
            }
        } else {
            *self
        }
    }

    /// This allocator once the region with identifier `id` is given back to it.
    pub closed spec fn freed(&self, id: u32) -> Allocator {
        Allocator {
            raw: guillotine_freed(self.raw, id),
            allocations: if self.allocations > 0 {
                (self.allocations - 1) as usize
            } else {
                self.allocations
            },
        }
    }

    /// A new allocator for a square of `size` pixels.
    pub closed spec fn fresh(size: u32) -> Allocator {
        Allocator { raw: guillotine_new(size as i32), allocations: 0 }
    }

    /// Whether this allocator, in its present state, grants a `width` by `height` request.
    pub open spec fn grants(&self, width: u32, height: u32) -> bool {
        &&& width <= i32::MAX
        &&& height <= i32::MAX
        &&& self.grant_of(width, height) is Some
    }

    /// An allocator for a square of `size` pixels, at most one atlas layer, with nothing handed
    /// out.
    pub fn new(size: u32) -> (a: Self)
        requires
            0 < size <= ATLAS_SIZE,
        ensures
            a == Allocator::fresh(size),
            a.wf(),
            a.spec_extent() == size,
            a.spec_live() == Set::<u32>::empty(),
    {
        Allocator { raw: new_guillotine(size as i32), allocations: 0 }
    }

    /// Ask for a `width` by `height` region.
    ///
    /// Sides beyond `i32::MAX` read as negative to the allocator, so such a request, like an
    /// empty one, gets nothing. A request that fits an allocator with nothing in use is granted.
    pub fn allocate(&mut self, width: u32, height: u32) -> (r: Option<Region>)
        requires
            old(self).wf(),
            old(self).spec_live().len() < usize::MAX,
        ensures
            final(self).wf(),
            final(self).spec_extent() == old(self).spec_extent(),
            *final(self) == old(self).after(width, height),
            r is Some <==> old(self).grants(width, height),
            width == 0 || height == 0 || width > i32::MAX || height > i32::MAX ==> r is None,
            old(self).spec_live() == Set::<u32>::empty() && 0 < width <= old(self).spec_extent()
                && 0 < height <= old(self).spec_extent() ==> r is Some,
            match r {
                None => final(self).spec_live() == old(self).spec_live(),
                Some(region) => {
                    &&& old(self).grant_of(width, height) == Some(
                        (region.id, region.x as i32, region.y as i32, width as i32, height as i32),
                    )
                    &&& region.width == width && region.height == height
                    &&& region.x + width <= old(self).spec_extent()
                    &&& region.y + height <= old(self).spec_extent()
                    &&& !old(self).spec_live().contains(region.id)
                    &&& final(self).spec_live() == old(self).spec_live().insert(region.id)
                },
            },
    {
        if width > 0x7fff_ffff || height > 0x7fff_ffff {
            return None;
        }
        let allocation = guillotine_allocate(&mut self.raw, width as i32, height as i32);
        match allocation {
            Some((id, x, y, w, h)) => {
                self.allocations = self.allocations + 1;
                Some(Region { id, x: x as u32, y: y as u32, width: w as u32, height: h as u32 })
            },
            None => None,
        }
    }

    /// Give a region back.
    pub fn deallocate(&mut self, region: &Region)
        requires
            old(self).wf(),
            old(self).spec_live().contains(region.id),
        ensures
            *final(self) == old(self).freed(region.id),
            final(self).wf(),
            final(self).spec_extent() == old(self).spec_extent(),
            final(self).spec_live() == old(self).spec_live().remove(region.id),
    {
        guillotine_deallocate(&mut self.raw, region.id);
        if self.allocations > 0 {
            self.allocations = self.allocations - 1;
        }
    }

    /// Whether no region is in use.
    pub fn is_empty(&self) -> (r: bool)
        requires
            self.wf(),
        ensures
            r == (self.spec_live() == Set::<u32>::empty()),
    {
        proof {
            if self.allocations == 0 {
                assert(self.spec_live() =~= Set::<u32>::empty());
            }
        }
        self.allocations == 0
    }
}

/// A place in the atlas: a region of a partly used layer, or a whole layer.
#[derive(Clone, Copy, Debug)]
pub enum Allocation {
    /// A region of the layer at this index.
    Partial { layer: usize, region: Region },
    /// The whole layer at this index.
    Full { layer: usize },
}

/// The index of the layer an allocation is in.
pub open spec fn alloc_layer(a: Allocation) -> int {
    match a {
        Allocation::Partial { layer, .. } => layer as int,
        Allocation::Full { layer } => layer as int,
    }
}

/// The top-left corner of an allocation within its layer.
pub open spec fn alloc_position(a: Allocation) -> (u32, u32) {
    match a {
        Allocation::Partial { region, .. } => (region.x, region.y),
        Allocation::Full { .. } => (0, 0),
    }
}

/// The size of an allocation.
pub open spec fn alloc_size(a: Allocation) -> (u32, u32) {
    match a {
        Allocation::Partial { region, .. } => (region.width, region.height),
        Allocation::Full { .. } => (ATLAS_SIZE, ATLAS_SIZE),
    }
}

impl Allocation {
    /// The top-left corner within the layer.
    pub fn position(&self) -> (p: (u32, u32))
        ensures
            p == alloc_position(*self),
    {
        match self {
            Allocation::Partial { region, .. } => region.position(),
            Allocation::Full { .. } => (0, 0),
        }
    }

    /// The size in pixels.
    pub fn size(&self) -> (s: (u32, u32))
        ensures
            s == alloc_size(*self),
    {
        match self {
            Allocation::Partial { region, .. } => region.size(),
            Allocation::Full { .. } => (ATLAS_SIZE, ATLAS_SIZE),
        }
    }

    /// The index of the layer.
    pub fn layer(&self) -> (l: usize)
        ensures
            l == alloc_layer(*self),
    {
        match self {
            Allocation::Partial { layer, .. } => *layer,
            Allocation::Full { layer } => *layer,
        }
    }
}

/// One layer of the atlas.
pub enum AtlasLayer {
    /// Nothing is placed in it.
    Empty,
    /// Regions are placed in it by this allocator.
    Busy(Allocator),
    /// One image takes all of it.
    Full,
}

impl AtlasLayer {
    /// Whether nothing is placed in this layer.
    pub fn is_empty(&self) -> (r: bool)
        ensures
            r == (*self is Empty),
    {
        match self {
            AtlasLayer::Empty => true,
            _ => false,
        }
    }
}

/// What a layer holds, as the contracts see it: nothing, the identifiers of the regions in use,
/// or one whole image.
pub enum LayerUse {
    Empty,
    Busy(Set<u32>),
    Full,
}

/// What a layer holds.
pub open spec fn use_of(layer: AtlasLayer) -> LayerUse {
    match layer {
        AtlasLayer::Empty => LayerUse::Empty,
        AtlasLayer::Busy(a) => LayerUse::Busy(a.spec_live()),
        AtlasLayer::Full => LayerUse::Full,
    }
}

/// The regions in use in a layer (none unless it is busy).
pub open spec fn live_of(u: LayerUse) -> Set<u32> {
    match u {
        LayerUse::Busy(s) => s,
        _ => Set::<u32>::empty(),
    }
}

/// The use of layer `l`, where a layer past the end counts as empty.
pub open spec fn use_at(v: Seq<LayerUse>, l: int) -> LayerUse {
    if 0 <= l < v.len() {
        v[l]
    } else {
        LayerUse::Empty
    }
}

/// The layers with layer `l` given use `u`, appended when `l` is just past the end.
pub open spec fn with_use(v: Seq<LayerUse>, l: int, u: LayerUse) -> Seq<LayerUse> {
    if l < v.len() {
        v.update(l, u)
    } else {
        v.push(u)
    }
}

/// Layer `l` is the first empty layer, or just past the end when none is empty.
pub open spec fn is_first_empty(v: Seq<LayerUse>, l: int) -> bool {
    &&& 0 <= l <= v.len()
    &&& l < v.len() ==> v[l] is Empty
    &&& forall|j: int| 0 <= j < l ==> !(#[trigger] v[j] is Empty)
}

/// Where an allocation may be made: a whole layer goes to the first empty layer (or a new one);
/// a region goes to a layer that is not full, no later than the first empty one, under an
/// identifier not in use there, inside the layer.
pub open spec fn placed(v: Seq<LayerUse>, a: Allocation) -> bool {
    match a {
        Allocation::Full { layer } => is_first_empty(v, layer as int),
        Allocation::Partial { layer, region } => {
            &&& layer <= v.len()
            &&& forall|j: int| 0 <= j < layer ==> !(#[trigger] v[j] is Empty)
            &&& !(use_at(v, layer as int) is Full)
            &&& !live_of(use_at(v, layer as int)).contains(region.id)
            &&& region.x + region.width <= ATLAS_SIZE
            &&& region.y + region.height <= ATLAS_SIZE
        },
    }
}

/// The layers once an allocation is made.
pub open spec fn hold(v: Seq<LayerUse>, a: Allocation) -> Seq<LayerUse> {
    match a {
        Allocation::Full { layer } => with_use(v, layer as int, LayerUse::Full),
        Allocation::Partial { layer, region } => with_use(
            v,
            layer as int,
            LayerUse::Busy(live_of(use_at(v, layer as int)).insert(region.id)),
        ),
    }
}

/// A set of regions of one layer is smaller than the count of usable identifiers.
proof fn lemma_live_bounded(s: Set<u32>)
    requires
        s.finite(),
        s.len() <= ATLAS_SIZE * ATLAS_SIZE,
    ensures
        s.len() < usize::MAX,
{
}

/// A layer-sized piece of an image larger than one layer, at its offset within the image.
#[derive(Clone, Copy, Debug)]
pub struct Fragment {
    /// The offset of the piece within the image, in pixels.
    pub position: (u32, u32),
    /// Where the piece is placed.
    pub allocation: Allocation,
}

/// Where an image is placed: in one piece, or cut into layer-sized fragments.
#[derive(Debug)]
pub enum AtlasEntry {
    Contiguous(Allocation),
    Fragmented { size: (u32, u32), fragments: Vec<Fragment> },
}

/// The allocations of a list of fragments, in order.
pub open spec fn fragment_allocations(fs: Seq<Fragment>) -> Seq<Allocation> {
    fs.map_values(|f: Fragment| f.allocation)
}

/// The allocations an entry holds, in order.
pub open spec fn entry_allocations(e: AtlasEntry) -> Seq<Allocation> {
    match e {
        AtlasEntry::Contiguous(a) => seq![a],
        AtlasEntry::Fragmented { fragments, .. } => fragment_allocations(fragments@),
    }
}

/// The size of the image an entry holds.
pub open spec fn entry_size(e: AtlasEntry) -> (u32, u32) {
    match e {
        AtlasEntry::Contiguous(a) => alloc_size(a),
        AtlasEntry::Fragmented { size, .. } => size,
    }
}

impl AtlasEntry {
    /// The size of the image.
    pub fn size(&self) -> (s: (u32, u32))
        ensures
            s == entry_size(*self),
    {
        match self {
            AtlasEntry::Contiguous(allocation) => allocation.size(),
            AtlasEntry::Fragmented { size, .. } => *size,
        }
    }
}

/// The layers once a list of allocations is made, in order.
pub open spec fn hold_all(v: Seq<LayerUse>, s: Seq<Allocation>) -> Seq<LayerUse>
    decreases s.len(),
{
    if s.len() == 0 {
        v
    } else {
        hold(hold_all(v, s.drop_last()), s.last())
    }
}

/// Each allocation of the list is placed as `placed` says, in the layers the earlier ones left.
pub open spec fn placed_all(v: Seq<LayerUse>, s: Seq<Allocation>) -> bool
    decreases s.len(),
{
    if s.len() == 0 {
        true
    } else {
        placed_all(v, s.drop_last()) && placed(hold_all(v, s.drop_last()), s.last())
    }
}

proof fn lemma_hold_all_push(v: Seq<LayerUse>, s: Seq<Allocation>, a: Allocation)
    ensures
        hold_all(v, s.push(a)) == hold(hold_all(v, s), a),
        placed_all(v, s.push(a)) == (placed_all(v, s) && placed(hold_all(v, s), a)),
{
    assert(s.push(a).drop_last() =~= s);
}

/// Whether an allocation can be given back: its layer exists, and when that layer is busy the
/// region is in use there.
pub open spec fn releasable(v: Seq<LayerUse>, a: Allocation) -> bool {
    match a {
        Allocation::Full { layer } => layer < v.len(),
        Allocation::Partial { layer, region } => {
            &&& layer < v.len()
            &&& v[layer as int] is Busy ==> live_of(v[layer as int]).contains(region.id)
        },
    }
}

/// The layers once an allocation is given back: a whole layer becomes empty; a region leaves
/// its busy layer, which becomes empty with its last region.
pub open spec fn release(v: Seq<LayerUse>, a: Allocation) -> Seq<LayerUse> {
    match a {
        Allocation::Full { layer } => v.update(layer as int, LayerUse::Empty),
        Allocation::Partial { layer, region } => match v[layer as int] {
            LayerUse::Busy(s) => v.update(
                layer as int,
                if s.remove(region.id) == Set::<u32>::empty() {
                    LayerUse::Empty
                } else {
                    LayerUse::Busy(s.remove(region.id))
                },
            ),
            _ => v,
        },
    }
}

/// The layers once a list of allocations is given back, in order.
pub open spec fn release_all(v: Seq<LayerUse>, s: Seq<Allocation>) -> Seq<LayerUse>
    decreases s.len(),
{
    if s.len() == 0 {
        v
    } else {
        release(release_all(v, s.drop_last()), s.last())
    }
}

/// Each allocation of the list can be given back once the earlier ones are.
pub open spec fn releasable_all(v: Seq<LayerUse>, s: Seq<Allocation>) -> bool
    decreases s.len(),
{
    if s.len() == 0 {
        true
    } else {
        releasable_all(v, s.drop_last()) && releasable(release_all(v, s.drop_last()), s.last())
    }
}

proof fn lemma_release_all_take(v: Seq<LayerUse>, s: Seq<Allocation>, i: int)
    requires
        0 <= i < s.len(),
    ensures
        release_all(v, s.take(i + 1)) == release(release_all(v, s.take(i)), s[i]),
        releasable_all(v, s.take(i + 1)) == (releasable_all(v, s.take(i)) && releasable(
            release_all(v, s.take(i)),
            s[i],
        )),
{
    assert(s.take(i + 1).drop_last() =~= s.take(i));
}

proof fn lemma_releasable_prefix(v: Seq<LayerUse>, s: Seq<Allocation>, i: int)
    requires
        releasable_all(v, s),
        0 <= i <= s.len(),
    ensures
        releasable_all(v, s.take(i)),
    decreases s.len(),
{
    if i == s.len() {
        assert(s.take(i) =~= s);
    } else {
        lemma_releasable_prefix(v, s.drop_last(), i);
        assert(s.drop_last().take(i) =~= s.take(i));
    }
}

/// The layers followed by empty layers, `n` in all.
pub open spec fn padded(v: Seq<LayerUse>, n: nat) -> Seq<LayerUse> {
    Seq::new(n, |i: int| use_at(v, i))
}

/// Two allocations name different places: different layers, or different regions of a layer.
pub open spec fn apart(a: Allocation, b: Allocation) -> bool {
    match (a, b) {
        (
            Allocation::Partial { layer: la, region: ra },
            Allocation::Partial { layer: lb, region: rb },
        ) => la != lb || ra.id != rb.id,
        _ => alloc_layer(a) != alloc_layer(b),
    }
}

/// The layers hold the allocation: a full layer, or a busy layer with the region in use.
pub open spec fn occupies(w: Seq<LayerUse>, b: Allocation) -> bool {
    match b {
        Allocation::Full { layer } => layer < w.len() && w[layer as int] is Full,
        Allocation::Partial { layer, region } => {
            &&& layer < w.len()
            &&& w[layer as int] is Busy
            &&& live_of(w[layer as int]).contains(region.id)
        },
    }
}

/// The allocation's place is free in the layers.
spec fn fresh(w: Seq<LayerUse>, a: Allocation) -> bool {
    match a {
        Allocation::Full { layer } => layer <= w.len() && use_at(w, layer as int) is Empty,
        Allocation::Partial { layer, region } => {
            &&& layer <= w.len()
            &&& !(use_at(w, layer as int) is Full)
            &&& !live_of(use_at(w, layer as int)).contains(region.id)
        },
    }
}

/// `h` is reached from `v` by allocations alone: no layer is lost, full layers stay full, busy
/// layers stay busy with their regions, and a layer still empty was empty before.
pub(crate) open spec fn grows(v: Seq<LayerUse>, h: Seq<LayerUse>) -> bool {
    &&& v.len() <= h.len()
    &&& forall|l: int|
        0 <= l < v.len() ==> {
            &&& (#[trigger] v[l] is Full ==> h[l] is Full)
            &&& (v[l] is Busy ==> h[l] is Busy && live_of(v[l]).subset_of(live_of(h[l])))
        }
    &&& forall|l: int| 0 <= l < h.len() && #[trigger] h[l] is Empty ==> use_at(v, l) is Empty
}

proof fn lemma_hold_grows(w: Seq<LayerUse>, a: Allocation, b: Allocation)
    requires
        placed(w, a),
    ensures
        grows(w, hold(w, a)),
        occupies(hold(w, a), a),
        occupies(w, b) ==> occupies(hold(w, a), b),
{
    let h = hold(w, a);
    assert forall|l: int| 0 <= l < w.len() implies {
        &&& (#[trigger] w[l] is Full ==> h[l] is Full)
        &&& (w[l] is Busy ==> h[l] is Busy && live_of(w[l]).subset_of(live_of(h[l])))
    } by {
        if l == alloc_layer(a) {
        }
    }
}

proof fn lemma_grows_trans(v: Seq<LayerUse>, h1: Seq<LayerUse>, h2: Seq<LayerUse>)
    requires
        grows(v, h1),
        grows(h1, h2),
    ensures
        grows(v, h2),
{
    assert forall|l: int| 0 <= l < v.len() implies {
        &&& (#[trigger] v[l] is Full ==> h2[l] is Full)
        &&& (v[l] is Busy ==> h2[l] is Busy && live_of(v[l]).subset_of(live_of(h2[l])))
    } by {
        assert(h1[l] == h1[l]);
    }
    assert forall|l: int| 0 <= l < h2.len() && #[trigger] h2[l] is Empty implies use_at(
        v,
        l,
    ) is Empty by {
        if l < h1.len() {
            assert(h1[l] is Empty);
        }
    }
}

pub(crate) proof fn lemma_hold_all_grows(v: Seq<LayerUse>, s: Seq<Allocation>)
    requires
        placed_all(v, s),
    ensures
        grows(v, hold_all(v, s)),
        forall|k: int| 0 <= k < s.len() ==> occupies(hold_all(v, s), #[trigger] s[k]),
    decreases s.len(),
{
    if s.len() == 0 {
    } else {
        let s1 = s.drop_last();
        let h1 = hold_all(v, s1);
        lemma_hold_all_grows(v, s1);
        lemma_hold_grows(h1, s.last(), s.last());
        lemma_grows_trans(v, h1, hold_all(v, s));
        assert forall|k: int| 0 <= k < s.len() implies occupies(
            hold_all(v, s),
            #[trigger] s[k],
        ) by {
            if k < s1.len() {
                assert(s1[k] == s[k]);
                lemma_hold_grows(h1, s.last(), s[k]);
            }
        }
    }
}

proof fn lemma_placed_apart(w: Seq<LayerUse>, a: Allocation, b: Allocation)
    requires
        placed(w, a),
        occupies(w, b),
    ensures
        apart(a, b),
{
}

/// No two allocations of the list name the same place.
pub open spec fn pairwise_apart(s: Seq<Allocation>) -> bool {
    forall|i: int, j: int| 0 <= i < j < s.len() ==> apart(#[trigger] s[i], #[trigger] s[j])
}

pub(crate) proof fn lemma_placed_all_apart(v: Seq<LayerUse>, s: Seq<Allocation>)
    requires
        placed_all(v, s),
    ensures
        pairwise_apart(s),
    decreases s.len(),
{
    if s.len() > 0 {
        let s1 = s.drop_last();
        let h1 = hold_all(v, s1);
        lemma_placed_all_apart(v, s1);
        lemma_hold_all_grows(v, s1);
        assert forall|i: int, j: int| 0 <= i < j < s.len() implies apart(
            #[trigger] s[i],
            #[trigger] s[j],
        ) by {
            if j < s1.len() {
                assert(apart(s1[i], s1[j]));
            } else {
                assert(occupies(h1, s1[i]));
                lemma_placed_apart(h1, s.last(), s1[i]);
            }
        }
    }
}

proof fn lemma_release_keeps(w: Seq<LayerUse>, x: Allocation, y: Allocation)
    requires
        occupies(w, x),
        occupies(w, y),
        apart(x, y),
    ensures
        occupies(release(w, y), x),
{
    if alloc_layer(x) == alloc_layer(y) {
        if let (Allocation::Partial { layer, region: rx }, Allocation::Partial { region: ry, .. })
            = (x, y) {
            let s = live_of(w[layer as int]);
            assert(s.remove(ry.id).contains(rx.id));
        }
    }
}

pub(crate) proof fn lemma_release_all_keeps(w: Seq<LayerUse>, s: Seq<Allocation>, x: Allocation)
    requires
        occupies(w, x),
        forall|k: int| 0 <= k < s.len() ==> apart(#[trigger] s[k], x),
        forall|k: int| 0 <= k < s.len() ==> occupies(w, #[trigger] s[k]),
        pairwise_apart(s),
    ensures
        occupies(release_all(w, s), x),
    decreases s.len(),
{
    if s.len() > 0 {
        let s1 = s.drop_last();
        let y = s.last();
        assert forall|k: int| 0 <= k < s1.len() implies apart(#[trigger] s1[k], x) by {
            assert(s1[k] == s[k]);
        }
        assert forall|k: int| 0 <= k < s1.len() implies apart(#[trigger] s1[k], y) by {
            assert(s1[k] == s[k]);
            assert(apart(s[k], s[s.len() - 1]));
        }
        assert forall|k: int| 0 <= k < s1.len() implies occupies(w, #[trigger] s1[k]) by {
            assert(s1[k] == s[k]);
        }
        assert(pairwise_apart(s1)) by {
            assert forall|i: int, j: int| 0 <= i < j < s1.len() implies apart(
                #[trigger] s1[i],
                #[trigger] s1[j],
            ) by {
                assert(s1[i] == s[i] && s1[j] == s[j]);
            }
        }
        lemma_release_all_keeps(w, s1, x);
        lemma_release_all_keeps(w, s1, y);
        assert(apart(x, y)) by {
            assert(apart(s[s.len() - 1], x));
        }
        lemma_release_keeps(release_all(w, s1), x, y);
    }
}

/// Giving an allocation back never makes another one held.
proof fn lemma_release_not_occupies(w: Seq<LayerUse>, y: Allocation, x: Allocation)
    requires
        !occupies(w, x),
        0 <= alloc_layer(y) < w.len(),
    ensures
        !occupies(release(w, y), x),
{
    if let (Allocation::Partial { layer, region: rx }, Allocation::Partial { region: ry, .. }) = (
        x,
        y,
    ) {
        if alloc_layer(y) == layer && layer < w.len() && w[layer as int] is Busy {
            assert(!live_of(w[layer as int]).remove(ry.id).contains(rx.id));
        }
    }
}

/// A given-back allocation is no longer held.
proof fn lemma_release_clears(w: Seq<LayerUse>, y: Allocation)
    requires
        0 <= alloc_layer(y) < w.len(),
    ensures
        !occupies(release(w, y), y),
{
    if let Allocation::Partial { layer, region } = y {
        if layer < w.len() && w[layer as int] is Busy {
            assert(!live_of(w[layer as int]).remove(region.id).contains(region.id));
        }
    }
}

/// Giving a list of allocations back never makes another one held.
pub(crate) proof fn lemma_release_all_not_occupies(
    w: Seq<LayerUse>,
    s: Seq<Allocation>,
    x: Allocation,
)
    requires
        !occupies(w, x),
        releasable_all(w, s),
    ensures
        !occupies(release_all(w, s), x),
    decreases s.len(),
{
    if s.len() > 0 {
        lemma_release_all_not_occupies(w, s.drop_last(), x);
        lemma_release_not_occupies(release_all(w, s.drop_last()), s.last(), x);
    }
}

/// Once a list of allocations is given back, none of them is held.
pub(crate) proof fn lemma_release_all_clears(w: Seq<LayerUse>, s: Seq<Allocation>)
    requires
        releasable_all(w, s),
    ensures
        forall|k: int| 0 <= k < s.len() ==> !occupies(release_all(w, s), #[trigger] s[k]),
    decreases s.len(),
{
    if s.len() > 0 {
        let s1 = s.drop_last();
        lemma_release_all_clears(w, s1);
        lemma_release_clears(release_all(w, s1), s.last());
        assert forall|k: int| 0 <= k < s.len() implies !occupies(
            release_all(w, s),
            #[trigger] s[k],
        ) by {
            if k < s1.len() {
                assert(s1[k] == s[k]);
                lemma_release_not_occupies(release_all(w, s1), s.last(), s[k]);
            }
        }
    }
}

/// Giving back one list and then another is giving back the two, one after the other.
pub(crate) proof fn lemma_release_all_concat(
    w: Seq<LayerUse>,
    a: Seq<Allocation>,
    b: Seq<Allocation>,
)
    ensures
        release_all(w, a + b) == release_all(release_all(w, a), b),
    decreases b.len(),
{
    if b.len() == 0 {
        assert(a + b =~= a);
    } else {
        lemma_release_all_concat(w, a, b.drop_last());
        assert((a + b).drop_last() =~= a + b.drop_last());
        assert((a + b).last() == b.last());
    }
}

/// A list of allocations the layers hold, no two naming the same place, can be given back in
/// order.
pub(crate) proof fn lemma_releasable_when_held(w: Seq<LayerUse>, s: Seq<Allocation>)
    requires
        forall|k: int| 0 <= k < s.len() ==> occupies(w, #[trigger] s[k]),
        pairwise_apart(s),
    ensures
        releasable_all(w, s),
    decreases s.len(),
{
    if s.len() > 0 {
        let s1 = s.drop_last();
        let y = s.last();
        assert forall|k: int| 0 <= k < s1.len() implies occupies(w, #[trigger] s1[k]) by {
            assert(s1[k] == s[k]);
        }
        assert forall|k: int| 0 <= k < s1.len() implies apart(#[trigger] s1[k], y) by {
            assert(s1[k] == s[k]);
            assert(apart(s[k], s[s.len() - 1]));
        }
        assert(pairwise_apart(s1)) by {
            assert forall|i: int, j: int| 0 <= i < j < s1.len() implies apart(
                #[trigger] s1[i],
                #[trigger] s1[j],
            ) by {
                assert(s1[i] == s[i] && s1[j] == s[j]);
            }
        }
        lemma_releasable_when_held(w, s1);
        lemma_release_all_keeps(w, s1, y);
    }
}

/// Allocations made from the layers `v` leave every allocation `v` holds held, and none of them
/// names its place.
pub(crate) proof fn lemma_hold_all_keeps(v: Seq<LayerUse>, s: Seq<Allocation>, x: Allocation)
    requires
        placed_all(v, s),
        occupies(v, x),
    ensures
        occupies(hold_all(v, s), x),
        forall|k: int| 0 <= k < s.len() ==> apart(#[trigger] s[k], x),
    decreases s.len(),
{
    if s.len() > 0 {
        let s1 = s.drop_last();
        lemma_hold_all_keeps(v, s1, x);
        lemma_hold_grows(hold_all(v, s1), s.last(), x);
        lemma_placed_apart(hold_all(v, s1), s.last(), x);
        assert forall|k: int| 0 <= k < s.len() implies apart(#[trigger] s[k], x) by {
            if k < s1.len() {
                assert(s1[k] == s[k]);
            }
        }
    }
}

proof fn lemma_commute(w: Seq<LayerUse>, a: Allocation, b: Allocation)
    requires
        apart(a, b),
        occupies(w, a),
    ensures
        releasable(hold(w, b), a),
        release(hold(w, b), a) == hold(release(w, a), b),
{
    let lhs = release(hold(w, b), a);
    let rhs = hold(release(w, a), b);
    if alloc_layer(a) == alloc_layer(b) {
        if let (Allocation::Partial { layer, region: ra }, Allocation::Partial { region: rb, .. })
            = (a, b) {
            let s = live_of(w[layer as int]);
            assert(s.insert(rb.id).remove(ra.id) =~= s.remove(ra.id).insert(rb.id));
            assert(s.insert(rb.id).remove(ra.id).contains(rb.id));
            assert(live_of(use_at(release(w, a), layer as int)) =~= s.remove(ra.id));
        }
    }
    assert(lhs =~= rhs);
}

proof fn lemma_release_all_hold(w: Seq<LayerUse>, s: Seq<Allocation>, b: Allocation)
    requires
        forall|k: int| 0 <= k < s.len() ==> apart(#[trigger] s[k], b),
        forall|k: int| 0 <= k < s.len() ==> occupies(w, #[trigger] s[k]),
        pairwise_apart(s),
    ensures
        releasable_all(hold(w, b), s),
        release_all(hold(w, b), s) == hold(release_all(w, s), b),
    decreases s.len(),
{
    if s.len() > 0 {
        let s1 = s.drop_last();
        let a = s.last();
        assert forall|k: int| 0 <= k < s1.len() implies apart(#[trigger] s1[k], b) by {
            assert(s1[k] == s[k]);
        }
        assert forall|k: int| 0 <= k < s1.len() implies apart(#[trigger] s1[k], a) by {
            assert(s1[k] == s[k]);
            assert(apart(s[k], s[s.len() - 1]));
        }
        assert forall|k: int| 0 <= k < s1.len() implies occupies(w, #[trigger] s1[k]) by {
            assert(s1[k] == s[k]);
        }
        assert(pairwise_apart(s1)) by {
            assert forall|i: int, j: int| 0 <= i < j < s1.len() implies apart(
                #[trigger] s1[i],
                #[trigger] s1[j],
            ) by {
                assert(s1[i] == s[i] && s1[j] == s[j]);
            }
        }
        lemma_release_all_hold(w, s1, b);
        lemma_release_all_keeps(w, s1, a);
        assert(apart(s[s.len() - 1], b));
        lemma_commute(release_all(w, s1), a, b);
    }
}

proof fn lemma_undo_one(w: Seq<LayerUse>, a: Allocation)
    requires
        fresh(w, a),
        busy_nonempty(w),
    ensures
        releasable(hold(w, a), a),
        release(hold(w, a), a) == padded(w, hold(w, a).len()),
{
    let h = hold(w, a);
    if let Allocation::Partial { layer, region } = a {
        let s = live_of(use_at(w, layer as int));
        assert(s.insert(region.id).remove(region.id) =~= s);
        assert(s.insert(region.id).remove(region.id) == Set::<u32>::empty() ==> s
            == Set::<u32>::empty());
    }
    assert(release(h, a) =~= padded(w, h.len()));
}

proof fn lemma_fresh_in_padded(v: Seq<LayerUse>, h: Seq<LayerUse>, a: Allocation)
    requires
        placed(h, a),
        grows(v, h),
        busy_nonempty(v),
    ensures
        fresh(padded(v, h.len()), a),
        busy_nonempty(padded(v, h.len())),
{
    let p = padded(v, h.len());
    let l = alloc_layer(a);
    if l < h.len() {
        assert(use_at(p, l) == use_at(v, l));
        if l < v.len() {
            assert(v[l] == v[l]);
        }
    } else {
        assert(use_at(p, l) is Empty);
    }
    assert forall|i: int| 0 <= i < p.len() && #[trigger] p[i] is Busy implies live_of(p[i]).finite()
        && live_of(p[i]) != Set::<u32>::empty() by {
        assert(p[i] == use_at(v, i));
    }
}

/// Giving back, in order, every allocation of a list made one after another from the layers `v`
/// is allowed at each step, and leaves the layers as they were, with every layer the
/// allocations added now empty.
pub proof fn lemma_release_undoes_hold(v: Seq<LayerUse>, s: Seq<Allocation>)
    requires
        placed_all(v, s),
        busy_nonempty(v),
    ensures
        releasable_all(hold_all(v, s), s),
        release_all(hold_all(v, s), s) == padded(v, hold_all(v, s).len()),
    decreases s.len(),
{
    if s.len() == 0 {
        assert(v =~= padded(v, v.len()));
    } else {
        let s1 = s.drop_last();
        let a = s.last();
        let h1 = hold_all(v, s1);
        let p1 = padded(v, h1.len());
        lemma_release_undoes_hold(v, s1);
        lemma_hold_all_grows(v, s1);
        lemma_placed_all_apart(v, s1);
        assert forall|k: int| 0 <= k < s1.len() implies apart(#[trigger] s1[k], a) by {
            lemma_placed_apart(h1, a, s1[k]);
        }
        lemma_release_all_hold(h1, s1, a);
        lemma_fresh_in_padded(v, h1, a);
        lemma_undo_one(p1, a);
        assert(padded(p1, hold(p1, a).len()) =~= padded(v, hold(p1, a).len()));
    }
}

/// A well-formed atlas has a region in use in each of its busy layers.
pub proof fn lemma_atlas_busy_nonempty(atlas: &ImageAtlas)
    requires
        atlas.wf(),
    ensures
        busy_nonempty(atlas@),
{
    assert forall|i: int|
        0 <= i < atlas@.len() && #[trigger] atlas@[i] is Busy implies live_of(atlas@[i]).finite()
        && live_of(atlas@[i]) != Set::<u32>::empty() by {
        assert(atlas.layers@[i] is Busy);
    }
}

/// The number of layer-sized strips that cover `n` pixels.
pub open spec fn strips(n: int) -> int {
    (n + ATLAS_SIZE - 1) / (ATLAS_SIZE as int)
}

/// The length of strip `k` of `n` pixels: a layer's side, but for a shorter last strip.
pub open spec fn strip_len(n: int, k: int) -> int {
    if n - k * ATLAS_SIZE < ATLAS_SIZE {
        n - k * ATLAS_SIZE
    } else {
        ATLAS_SIZE as int
    }
}

/// Fragment `k` of a `width` by `height` image cut into a grid of layer-sized cells, row by
/// row: its offset, its size, and a whole layer exactly when the cell is layer-sized.
pub open spec fn grid_fragment(width: int, height: int, k: int, f: Fragment) -> bool {
    let cols = strips(width);
    let col = k % cols;
    let row = k / cols;
    &&& f.position.0 == col * ATLAS_SIZE
    &&& f.position.1 == row * ATLAS_SIZE
    &&& alloc_size(f.allocation).0 == strip_len(width, col)
    &&& alloc_size(f.allocation).1 == strip_len(height, row)
    &&& (f.allocation is Full <==> (strip_len(width, col) == ATLAS_SIZE && strip_len(height, row)
        == ATLAS_SIZE))
}

/// An image placed in the atlas, with what its upload needs.
#[derive(Debug)]
pub struct Upload {
    /// Where the image is placed.
    pub entry: AtlasEntry,
    /// How many layers the atlas gained, which the texture must grow by.
    pub new_layers: usize,
    /// The zero bytes after each row of pixels.
    pub padding: u32,
    /// The rows of pixels, each followed by the padding.
    pub data: Vec<u8>,
}

/// Allocations never remove layers.
proof fn lemma_hold_all_len(v: Seq<LayerUse>, s: Seq<Allocation>)
    ensures
        hold_all(v, s).len() >= v.len(),
    decreases s.len(),
{
    if s.len() > 0 {
        lemma_hold_all_len(v, s.drop_last());
    }
}

/// How to grow the atlas texture: its new depth, and the existing layers to copy over.
#[derive(Debug)]
pub struct GrowPlan {
    /// The number of layers the new texture has.
    pub depth: u32,
    /// The layers, in increasing order, whose pixels are copied to the new texture.
    pub copies: Vec<usize>,
}

/// The layers of an atlas, with the allocators of the partly used ones.
pub struct ImageAtlas {
    layers: Vec<AtlasLayer>,
}

impl View for ImageAtlas {
    type V = Seq<LayerUse>;

    closed spec fn view(&self) -> Seq<LayerUse> {
        uses(self.layers@)
    }
}

/// What each layer holds.
pub open spec fn uses(ls: Seq<AtlasLayer>) -> Seq<LayerUse> {
    ls.map_values(|l: AtlasLayer| use_of(l))
}

/// A layer once a `width` by `height` region was asked of it and refused: a partly used layer's
/// allocator has seen the request; other layers are as they were.
pub open spec fn tried(l: AtlasLayer, width: u32, height: u32) -> AtlasLayer {
    match l {
        AtlasLayer::Busy(a) => AtlasLayer::Busy(a.after(width, height)),
        AtlasLayer::Empty => AtlasLayer::Empty,
        AtlasLayer::Full => AtlasLayer::Full,
    }
}

/// The allocator a region request meets at layer `j`: that of a partly used layer, a new one
/// for a layer that is empty or past the end.
pub open spec fn allocator_at(ls: Seq<AtlasLayer>, j: int) -> Allocator {
    if 0 <= j < ls.len() && ls[j] is Busy {
        ls[j]->Busy_0
    } else {
        Allocator::fresh(ATLAS_SIZE)
    }
}

/// First fit places a `width` by `height` image at `a` in the layers `before`, which become
/// `after`. A whole layer is the first empty layer (or a new one). A region comes from the first
/// layer, going up, that is not full and whose allocator grants the request: each layer before
/// it is full, or partly used with an allocator that refuses (and has seen) the request; the
/// region is what the chosen layer's allocator (a new one for an empty layer) grants, and that
/// allocator moves on by the request; the later layers are untouched.
pub open spec fn fits(
    before: Seq<AtlasLayer>,
    width: u32,
    height: u32,
    a: Allocation,
    after: Seq<AtlasLayer>,
) -> bool {
    match a {
        Allocation::Full { layer } => {
            &&& is_first_empty(uses(before), layer as int)
            &&& after == (if layer < before.len() {
                before.update(layer as int, AtlasLayer::Full)
            } else {
                before.push(AtlasLayer::Full)
            })
        },
        Allocation::Partial { layer, region } => {
            &&& layer <= before.len()
            &&& layer < before.len() ==> !(before[layer as int] is Full)
            &&& forall|j: int|
                0 <= j < layer ==> #[trigger] before[j] is Full || (before[j] is Busy
                    && !before[j]->Busy_0.grants(width, height))
            &&& allocator_at(before, layer as int).grant_of(width, height) == Some(
                (region.id, region.x as i32, region.y as i32, width as i32, height as i32),
            )
            &&& after.len() == (if layer < before.len() {
                before.len() as int
            } else {
                before.len() + 1int
            })
            &&& forall|j: int|
                0 <= j < layer ==> #[trigger] after[j] == tried(before[j], width, height)
            &&& forall|j: int| layer < j < before.len() ==> #[trigger] after[j] == before[j]
            &&& after[layer as int] == AtlasLayer::Busy(
                allocator_at(before, layer as int).after(width, height),
            )
        },
    }
}

/// The allocations of a list, each placed by first fit at its own size, in turn: `states[k]`
/// is the layers before allocation `k` and `states[k + 1]` those after it.
pub open spec fn fits_in_turn(states: Seq<Seq<AtlasLayer>>, allocs: Seq<Allocation>) -> bool {
    &&& states.len() == allocs.len() + 1
    &&& forall|k: int|
        0 <= k < allocs.len() ==> fits(
            states[k],
            alloc_size(allocs[k]).0,
            alloc_size(allocs[k]).1,
            #[trigger] allocs[k],
            states[k + 1],
        )
}

/// The layers, with their allocators, once an allocation is given back: a whole layer becomes
/// empty; a region goes back to its busy layer's allocator, and the layer becomes empty when that
/// was its last region.
pub open spec fn release_layers(ls: Seq<AtlasLayer>, a: Allocation) -> Seq<AtlasLayer> {
    match a {
        Allocation::Full { layer } => ls.update(layer as int, AtlasLayer::Empty),
        Allocation::Partial { layer, region } => match ls[layer as int] {
            AtlasLayer::Busy(al) => ls.update(
                layer as int,
                if al.spec_live().remove(region.id) == Set::<u32>::empty() {
                    AtlasLayer::Empty
                } else {
                    AtlasLayer::Busy(al.freed(region.id))
                },
            ),
            _ => ls,
        },
    }
}

/// The layers, with their allocators, once a list of allocations is given back, in order.
pub open spec fn release_all_layers(ls: Seq<AtlasLayer>, s: Seq<Allocation>) -> Seq<AtlasLayer>
    decreases s.len(),
{
    if s.len() == 0 {
        ls
    } else {
        release_layers(release_all_layers(ls, s.drop_last()), s.last())
    }
}

/// Giving back one list and then another, layers and allocators alike, is giving back the two,
/// one after the other.
pub(crate) proof fn lemma_release_all_layers_concat(
    ls: Seq<AtlasLayer>,
    a: Seq<Allocation>,
    b: Seq<Allocation>,
)
    ensures
        release_all_layers(ls, a + b) == release_all_layers(release_all_layers(ls, a), b),
    decreases b.len(),
{
    if b.len() == 0 {
        assert(a + b =~= a);
    } else {
        lemma_release_all_layers_concat(ls, a, b.drop_last());
        assert((a + b).drop_last() =~= a + b.drop_last());
        assert((a + b).last() == b.last());
    }
}

/// First fit places an entry in the layers `before`, which become `after`: an image in one
/// piece at its size, a cut image fragment after fragment.
pub open spec fn places(before: Seq<AtlasLayer>, e: AtlasEntry, after: Seq<AtlasLayer>) -> bool {
    match e {
        AtlasEntry::Contiguous(a) => fits(before, alloc_size(a).0, alloc_size(a).1, a, after),
        AtlasEntry::Fragmented { fragments, .. } => exists|states: Seq<Seq<AtlasLayer>>|
            #![trigger fits_in_turn(states, fragment_allocations(fragments@))]
            {
                &&& fits_in_turn(states, fragment_allocations(fragments@))
                &&& states[0] == before
                &&& states[states.len() - 1] == after
            },
    }
}

/// Every busy layer has a region in use.
pub open spec fn busy_nonempty(v: Seq<LayerUse>) -> bool {
    forall|i: int|
        0 <= i < v.len() && #[trigger] v[i] is Busy ==> live_of(v[i]).finite() && live_of(v[i])
            != Set::<u32>::empty()
}

impl ImageAtlas {
    /// Each busy layer's allocator covers one layer, is well formed and has a region in use.
    pub closed spec fn wf(&self) -> bool {
        &&& forall|i: int|
            0 <= i < self.layers@.len() ==> match #[trigger] self.layers@[i] {
                AtlasLayer::Busy(a) => a.wf() && a.spec_extent() == ATLAS_SIZE && a.spec_live()
                    != Set::<u32>::empty(),
                _ => true,
            }
    }

    /// The layers with their allocators, as first fit sees them.
    pub closed spec fn layers_state(&self) -> Seq<AtlasLayer> {
        self.layers@
    }

    /// An atlas of `count` empty layers.
    pub fn new(count: usize) -> (atlas: Self)
        ensures
            atlas.wf(),
            atlas@ == Seq::new(count as nat, |i: int| LayerUse::Empty),
    {
        let mut layers: Vec<AtlasLayer> = Vec::new();
        let mut i: usize = 0;
        while i < count
            invariant
                i <= count,
                layers@.len() == i,
                forall|j: int| 0 <= j < i ==> #[trigger] layers@[j] is Empty,
            decreases count - i,
        {
            layers.push(AtlasLayer::Empty);
            i = i + 1;
        }
        let atlas = ImageAtlas { layers };
        assert(atlas@ =~= Seq::new(count as nat, |i: int| LayerUse::Empty));
        atlas
    }

    /// The number of layers.
    pub fn layer_count(&self) -> (n: usize)
        ensures
            n == self@.len(),
    {
        self.layers.len()
    }

    /// Place an image no larger than one layer: an image of exactly one layer's size takes the
    /// first empty layer; a smaller one takes a region of the first layer with room for it,
    /// opening an empty layer when it reaches one first. A layer is appended when no existing
    /// one is used. An empty image gets nothing.
    fn allocate_one(&mut self, width: u32, height: u32) -> (r: Option<Allocation>)
        requires
            old(self).wf(),
            width <= ATLAS_SIZE,
            height <= ATLAS_SIZE,
        ensures
            final(self).wf(),
            r is None <==> (width == 0 || height == 0),
            r is None ==> final(self)@ == old(self)@,
            r matches Some(a) ==> {
                &&& placed(old(self)@, a)
                &&& final(self)@ == hold(old(self)@, a)
                &&& alloc_size(a) == (width, height)
                &&& (a is Full <==> (width == ATLAS_SIZE && height == ATLAS_SIZE))
            },
            r is None ==> final(self).layers_state() == old(self).layers_state(),
            r matches Some(a) ==> fits(
                old(self).layers_state(),
                width,
                height,
                a,
                final(self).layers_state(),
            ),
    {
        if width == 0 || height == 0 {
            return None;
        }
        let n = self.layers.len();
        if width == ATLAS_SIZE && height == ATLAS_SIZE {
            let mut i: usize = 0;
            while i < n
                invariant
                    n == self.layers@.len(),
                    i <= n,
                    self.layers@ == old(self).layers@,
                    self@ == old(self)@,
                    self.wf(),
                    width == ATLAS_SIZE && height == ATLAS_SIZE,
                    forall|j: int| 0 <= j < i ==> !(#[trigger] self@[j] is Empty),
                decreases n - i,
            {
                if self.layers[i].is_empty() {
                    assert(old(self)@[i as int] is Empty);
                    assert(is_first_empty(old(self)@, i as int));
                    self.layers.set(i, AtlasLayer::Full);
                    let a = Allocation::Full { layer: i };
                    assert(self@ =~= hold(old(self)@, a));
                    return Some(a);
                }
                i = i + 1;
            }
            assert(is_first_empty(old(self)@, n as int));
            self.layers.push(AtlasLayer::Full);
            let a = Allocation::Full { layer: n };
            assert(self@ =~= hold(old(self)@, a));
            return Some(a);
        }
        let mut i: usize = 0;
        while i < n
            invariant
                n == self.layers@.len(),
                i <= n,
                self.wf(),
                self@ == old(self)@,
                0 < width <= ATLAS_SIZE,
                0 < height <= ATLAS_SIZE,
                !(width == ATLAS_SIZE && height == ATLAS_SIZE),
                forall|j: int| 0 <= j < i ==> !(#[trigger] self@[j] is Empty),
                forall|j: int|
                    0 <= j < i ==> #[trigger] old(self).layers@[j] is Full || (
                    old(self).layers@[j] is Busy && !old(self).layers@[j]->Busy_0.grants(
                        width,
                        height,
                    )),
                forall|j: int|
                    0 <= j < i ==> #[trigger] self.layers@[j] == tried(
                        old(self).layers@[j],
                        width,
                        height,
                    ),
                forall|j: int| i <= j < n ==> #[trigger] self.layers@[j] == old(self).layers@[j],
            decreases n - i,
        {
            let ghost before = self@;
            let mut layer = AtlasLayer::Empty;
            self.layers.set_and_swap(i, &mut layer);
            match layer {
                AtlasLayer::Empty => {
                    let mut allocator = Allocator::new(ATLAS_SIZE);
                    let got = allocator.allocate(width, height);
                    match got {
                        Some(region) => {
                            self.layers.set(i, AtlasLayer::Busy(allocator));
                            let a = Allocation::Partial { layer: i, region };
                            assert(self@ =~= hold(old(self)@, a));
                            return Some(a);
                        },
                        None => {
                            self.layers.set(i, AtlasLayer::Empty);
                        },
                    }
                },
                AtlasLayer::Busy(mut allocator) => {
                    proof {
                        lemma_live_bounded(allocator.spec_live());
                    }
                    let got = allocator.allocate(width, height);
                    self.layers.set(i, AtlasLayer::Busy(allocator));
                    match got {
                        Some(region) => {
                            let a = Allocation::Partial { layer: i, region };
                            assert(self@ =~= hold(old(self)@, a));
                            return Some(a);
                        },
                        None => {},
                    }
                },
                AtlasLayer::Full => {
                    self.layers.set(i, AtlasLayer::Full);
                },
            }
            assert(self@ =~= before);
            i = i + 1;
        }
        let mut allocator = Allocator::new(ATLAS_SIZE);
        let got = allocator.allocate(width, height);
        match got {
            Some(region) => {
                self.layers.push(AtlasLayer::Busy(allocator));
                let a = Allocation::Partial { layer: n, region };
                assert(self@ =~= hold(old(self)@, a));
                Some(a)
            },
            None => None,
        }
    }

    /// Place a `width` by `height` image.
    ///
    /// An image no larger than a layer is placed in one piece (see `allocate_one`); an empty one
    /// gets nothing. A larger image is cut into a grid of layer-sized cells, row by row, and
    /// each cell is placed in turn as an image of its own.
    pub fn allocate(&mut self, width: u32, height: u32) -> (r: Option<AtlasEntry>)
        requires
            old(self).wf(),
        ensures
            final(self).wf(),
            r is None <==> (width <= ATLAS_SIZE && height <= ATLAS_SIZE && (width == 0 || height
                == 0)),
            r is None ==> final(self)@ == old(self)@,
            r matches Some(e) ==> {
                &&& placed_all(old(self)@, entry_allocations(e))
                &&& final(self)@ == hold_all(old(self)@, entry_allocations(e))
                &&& entry_size(e) == (width, height)
            },
            r matches Some(AtlasEntry::Contiguous(a)) ==> {
                &&& width <= ATLAS_SIZE && height <= ATLAS_SIZE
                &&& (a is Full <==> (width == ATLAS_SIZE && height == ATLAS_SIZE))
            },
            r is None ==> final(self).layers_state() == old(self).layers_state(),
            r matches Some(e) ==> places(old(self).layers_state(), e, final(self).layers_state()),
            r matches Some(AtlasEntry::Fragmented { fragments, .. }) ==> {
                &&& !(width <= ATLAS_SIZE && height <= ATLAS_SIZE)
                &&& fragments@.len() == strips(width as int) * strips(height as int)
                &&& forall|k: int|
                    0 <= k < fragments@.len() ==> grid_fragment(
                        width as int,
                        height as int,
                        k,
                        #[trigger] fragments@[k],
                    )
            },
    {
        if width <= ATLAS_SIZE && height <= ATLAS_SIZE {
            let one = self.allocate_one(width, height);
            match one {
                Some(a) => {
                    proof {
                        lemma_hold_all_push(old(self)@, Seq::<Allocation>::empty(), a);
                        assert(Seq::<Allocation>::empty().push(a) =~= seq![a]);
                    }
                    return Some(AtlasEntry::Contiguous(a));
                },
                None => {
                    return None;
                },
            }
        }
        let ghost cols = strips(width as int);
        let ghost mut states: Seq<Seq<AtlasLayer>> = seq![self.layers@];
        let mut fragments: Vec<Fragment> = Vec::new();
        let mut y: u32 = 0;
        let ghost mut row: int = 0;
        while y < height
            invariant
                self.wf(),
                !(width <= ATLAS_SIZE && height <= ATLAS_SIZE),
                cols == strips(width as int),
                0 <= row <= strips(height as int),
                y == (if row * ATLAS_SIZE <= height { row * ATLAS_SIZE } else { height as int }),
                fragments@.len() == row * cols,
                forall|k: int|
                    0 <= k < fragments@.len() ==> grid_fragment(
                        width as int,
                        height as int,
                        k,
                        #[trigger] fragments@[k],
                    ),
                placed_all(old(self)@, fragment_allocations(fragments@)),
                self@ == hold_all(old(self)@, fragment_allocations(fragments@)),
                fits_in_turn(states, fragment_allocations(fragments@)),
                states[0] == old(self).layers@,
                states[states.len() - 1] == self.layers@,
            decreases height - y,
        {
            let h = if height - y < ATLAS_SIZE {
                height - y
            } else {
                ATLAS_SIZE
            };
            let mut x: u32 = 0;
            let ghost mut col: int = 0;
            while x < width
                invariant
                    self.wf(),
                    cols == strips(width as int),
                    0 <= row < strips(height as int),
                    y == row * ATLAS_SIZE,
                    y < height,
                    h == strip_len(height as int, row),
                    0 < h <= ATLAS_SIZE,
                    0 <= col <= cols,
                    x == (if col * ATLAS_SIZE <= width { col * ATLAS_SIZE } else { width as int }),
                    fragments@.len() == row * cols + col,
                    forall|k: int|
                        0 <= k < fragments@.len() ==> grid_fragment(
                            width as int,
                            height as int,
                            k,
                            #[trigger] fragments@[k],
                        ),
                    placed_all(old(self)@, fragment_allocations(fragments@)),
                    self@ == hold_all(old(self)@, fragment_allocations(fragments@)),
                    fits_in_turn(states, fragment_allocations(fragments@)),
                    states[0] == old(self).layers@,
                    states[states.len() - 1] == self.layers@,
                decreases width - x,
            {
                let w = if width - x < ATLAS_SIZE {
                    width - x
                } else {
                    ATLAS_SIZE
                };
                let ghost before = self@;
                let one = self.allocate_one(w, h);
                let a = match one {
                    Some(a) => a,
                    None => {
                        return None;
                    },
                };
                let fragment = Fragment { position: (x, y), allocation: a };
                proof {
                    let k = row * cols + col;
                    assert(col < cols);
                    vstd::arithmetic::div_mod::lemma_fundamental_div_mod_converse(k, cols, row, col);
                    assert(grid_fragment(width as int, height as int, k, fragment));
                    lemma_hold_all_push(old(self)@, fragment_allocations(fragments@), a);
                    assert(fragment_allocations(fragments@.push(fragment)) =~= fragment_allocations(
                        fragments@,
                    ).push(a));
                    let allocs = fragment_allocations(fragments@);
                    let states2 = states.push(self.layers@);
                    assert forall|q: int| 0 <= q < allocs.push(a).len() implies fits(
                        states2[q],
                        alloc_size(allocs.push(a)[q]).0,
                        alloc_size(allocs.push(a)[q]).1,
                        #[trigger] allocs.push(a)[q],
                        states2[q + 1],
                    ) by {
                        if q < allocs.len() {
                            assert(allocs.push(a)[q] == allocs[q]);
                            assert(fits(
                                states[q],
                                alloc_size(allocs[q]).0,
                                alloc_size(allocs[q]).1,
                                allocs[q],
                                states[q + 1],
                            ));
                        }
                    }
                    states = states2;
                }
                fragments.push(fragment);
                x = x + w;
                proof {
                    col = col + 1;
                }
            }
            proof {
                assert(col == cols);
                assert(fragments@.len() == (row + 1) * cols) by (nonlinear_arith)
                    requires
                        fragments@.len() == row * cols + col,
                        col == cols,
                ;
            }
            y = y + h;
            proof {
                row = row + 1;
            }
        }
        proof {
            assert(row == strips(height as int));
            assert(fragments@.len() == strips(width as int) * strips(height as int))
                by (nonlinear_arith)
                requires
                    fragments@.len() == row * cols,
                    row == strips(height as int),
                    cols == strips(width as int),
            ;
        }
        let ghost allocs = fragment_allocations(fragments@);
        proof {
            assert(fits_in_turn(states, allocs));
        }
        let entry = AtlasEntry::Fragmented { size: (width, height), fragments };
        proof {
            assert(fragment_allocations(entry->fragments@) == allocs);
            assert(fits_in_turn(states, fragment_allocations(entry->fragments@)));
            assert(places(old(self).layers@, entry, self.layers@));
        }
        Some(entry)
    }

    /// Prepare the upload of a `width` by `height` RGBA image whose rows lie one after another in
    /// `data`: place it (see `allocate`), then lay its rows out padded to a multiple of `align`
    /// bytes, as texture copies need. Returns the placement, the number of layers the texture
    /// must grow by, the row padding and the padded bytes; nothing when the image is not placed.
    pub fn upload(&mut self, width: u32, height: u32, data: &[u8], align: u32) -> (r: Option<Upload>)
        requires
            old(self).wf(),
            align > 0,
            4 * width + align <= u32::MAX,
            (4 * width + align) * height <= usize::MAX,
            (4 * width) * height <= data@.len(),
        ensures
            final(self).wf(),
            r is None <==> (width <= ATLAS_SIZE && height <= ATLAS_SIZE && (width == 0 || height
                == 0)),
            r is None ==> final(self)@ == old(self)@ && final(self).layers_state() == old(
                self,
            ).layers_state(),
            r matches Some(u) ==> {
                &&& placed_all(old(self)@, entry_allocations(u.entry))
                &&& final(self)@ == hold_all(old(self)@, entry_allocations(u.entry))
                &&& entry_size(u.entry) == (width, height)
                &&& places(old(self).layers_state(), u.entry, final(self).layers_state())
                &&& u.new_layers == final(self)@.len() - old(self)@.len()
                &&& u.padding == (align - (4 * width) % (align as int)) % (align as int)
                &&& u.data@ == padded_image(
                    data@,
                    width as int,
                    height as int,
                    (4 * width + u.padding) as int,
                )
            },
    {
        let before = self.layers.len();
        let entry = match self.allocate(width, height) {
            Some(e) => e,
            None => {
                return None;
            },
        };
        proof {
            lemma_hold_all_len(old(self)@, entry_allocations(entry));
        }
        let new_layers = self.layers.len() - before;
        let padding = row_padding(width, align);
        proof {
            assert((4 * width + padding) * height <= (4 * width + align) * height) by (nonlinear_arith)
                requires
                    padding < align,
            ;
        }
        let padded = pad_rows(data, width, height, padding);
        Some(Upload { entry, new_layers, padding, data: padded })
    }

    /// Give an allocation back: a whole layer becomes empty; a region is given back to its busy
    /// layer's allocator, and the layer becomes empty when no region is left in use.
    pub fn deallocate(&mut self, allocation: &Allocation)
        requires
            old(self).wf(),
            releasable(old(self)@, *allocation),
        ensures
            final(self).wf(),
            final(self)@ == release(old(self)@, *allocation),
            final(self).layers_state() == release_layers(old(self).layers_state(), *allocation),
    {
        match allocation {
            Allocation::Full { layer } => {
                self.layers.set(*layer, AtlasLayer::Empty);
                assert(self@ =~= release(old(self)@, *allocation));
            },
            Allocation::Partial { layer, region } => {
                let mut taken = AtlasLayer::Empty;
                self.layers.set_and_swap(*layer, &mut taken);
                match taken {
                    AtlasLayer::Busy(mut allocator) => {
                        allocator.deallocate(region);
                        if allocator.is_empty() {
                            self.layers.set(*layer, AtlasLayer::Empty);
                        } else {
                            self.layers.set(*layer, AtlasLayer::Busy(allocator));
                        }
                    },
                    other => {
                        self.layers.set(*layer, other);
                    },
                }
                assert(self@ =~= release(old(self)@, *allocation));
            },
        }
    }

    /// Give back everything an entry holds, its fragments in order.
    pub fn remove(&mut self, entry: &AtlasEntry)
        requires
            old(self).wf(),
            releasable_all(old(self)@, entry_allocations(*entry)),
        ensures
            final(self).wf(),
            final(self)@ == release_all(old(self)@, entry_allocations(*entry)),
            final(self).layers_state() == release_all_layers(
                old(self).layers_state(),
                entry_allocations(*entry),
            ),
    {
        match entry {
            AtlasEntry::Contiguous(allocation) => {
                proof {
                    assert(seq![*allocation].drop_last() =~= Seq::<Allocation>::empty());
                    assert(release_all_layers(old(self).layers@, Seq::<Allocation>::empty())
                        == old(self).layers@);
                }
                self.deallocate(allocation);
                proof {
                    assert(release_all_layers(old(self).layers@, seq![*allocation])
                        == release_layers(old(self).layers@, *allocation));
                }
            },
            AtlasEntry::Fragmented { fragments, .. } => {
                let ghost s = entry_allocations(*entry);
                let mut i: usize = 0;
                while i < fragments.len()
                    invariant
                        self.wf(),
                        s == fragment_allocations(fragments@),
                        releasable_all(old(self)@, s),
                        i <= fragments@.len(),
                        self@ == release_all(old(self)@, s.take(i as int)),
                        self.layers@ == release_all_layers(old(self).layers@, s.take(i as int)),
                    decreases fragments@.len() - i,
                {
                    proof {
                        lemma_releasable_prefix(old(self)@, s, i + 1);
                        lemma_release_all_take(old(self)@, s, i as int);
                        assert(s.take(i + 1).drop_last() =~= s.take(i as int));
                        assert(s.take(i + 1).last() == s[i as int]);
                    }
                    self.deallocate(&fragments[i].allocation);
                    i = i + 1;
                }
                proof {
                    assert(s.take(i as int) =~= s);
                }
            },
        }
    }

    /// What growing the texture to this atlas's layers takes, once `amount` layers were added:
    /// nothing when none were; otherwise the new texture's depth and, in increasing order, the
    /// layers that existed before and hold something, whose pixels are copied over. On the GL
    /// backend a depth of 6 is made 7, so that the texture is not taken for a cube map.
    pub fn grow_plan(&self, amount: usize, gl_backend: bool) -> (r: Option<GrowPlan>)
        requires
            amount <= self@.len(),
        ensures
            r is None <==> amount == 0,
            r matches Some(p) ==> {
                &&& p.depth == (if gl_backend && self@.len() == 6 {
                    7
                } else {
                    self@.len() as u32
                })
                &&& forall|k: int|
                    0 <= k < p.copies@.len() ==> #[trigger] p.copies@[k] < self@.len() - amount
                        && !(self@[p.copies@[k] as int] is Empty)
                &&& forall|j: int, k: int|
                    0 <= j < k < p.copies@.len() ==> #[trigger] p.copies@[j]
                        < #[trigger] p.copies@[k]
                &&& forall|i: int|
                    0 <= i < self@.len() - amount && !(#[trigger] self@[i] is Empty)
                        ==> p.copies@.contains(i as usize)
            },
    {
        if amount == 0 {
            return None;
        }
        let n = self.layers.len();
        let depth: u32 = if gl_backend && n == 6 {
            7
        } else {
            n as u32
        };
        let old_count = n - amount;
        let mut copies: Vec<usize> = Vec::new();
        let mut i: usize = 0;
        while i < old_count
            invariant
                n == self@.len(),
                old_count == n - amount,
                i <= old_count,
                forall|k: int|
                    0 <= k < copies@.len() ==> #[trigger] copies@[k] < i && !(self@[copies@[k] as int]
                        is Empty),
                forall|j: int, k: int|
                    0 <= j < k < copies@.len() ==> #[trigger] copies@[j] < #[trigger] copies@[k],
                forall|q: int|
                    0 <= q < i && !(#[trigger] self@[q] is Empty) ==> copies@.contains(q as usize),
            decreases old_count - i,
        {
            if !self.layers[i].is_empty() {
                let ghost before = copies@;
                copies.push(i);
                proof {
                    assert forall|q: int|
                        0 <= q < i && !(#[trigger] self@[q] is Empty) implies copies@.contains(
                        q as usize,
                    ) by {
                        let t = choose|t: int| 0 <= t < before.len() && before[t] == q as usize;
                        assert(copies@[t] == q as usize);
                    }
                    assert(copies@[before.len() as int] == i);
                }
            }
            i = i + 1;
        }
        Some(GrowPlan { depth, copies })
    }

    /// Whether nothing is placed in layer `i`.
    pub fn is_layer_empty(&self, i: usize) -> (r: bool)
        requires
            i < self@.len(),
        ensures
            r == (self@[i as int] is Empty),
    {
        self.layers[i].is_empty()
    }
}

/// The zero bytes that pad a row of `width` RGBA pixels (four bytes each) up to the next multiple
/// of `align` bytes.
pub fn row_padding(width: u32, align: u32) -> (p: u32)
    requires
        align > 0,
        4 * width <= u32::MAX,
    ensures
        p == (align - (4 * width) % (align as int)) % (align as int),
        p < align,
        (4 * width + p) % (align as int) == 0,
{
    let r = (4 * width) % align;
    let p = (align - r) % align;
    proof {
        let w4 = 4 * width as int;
        let a = align as int;
        let q = w4 / a;
        vstd::arithmetic::div_mod::lemma_fundamental_div_mod(w4, a);
        vstd::arithmetic::mul::lemma_mul_is_commutative(a, q);
        if r == 0 {
            vstd::arithmetic::div_mod::lemma_fundamental_div_mod_converse(a, a, 1, 0);
            vstd::arithmetic::div_mod::lemma_fundamental_div_mod_converse(w4, a, q, 0);
        } else {
            vstd::arithmetic::div_mod::lemma_fundamental_div_mod_converse(a - r, a, 0, a - r);
            assert(w4 + (a - r) == (q + 1) * a) by (nonlinear_arith)
                requires
                    w4 == q * a + r,
            ;
            vstd::arithmetic::div_mod::lemma_fundamental_div_mod_converse(
                w4 + (a - r),
                a,
                q + 1,
                0,
            );
        }
    }
    p
}

/// The rows of a `width` by `height` RGBA image stored row after row in `data`, each followed
/// by zero bytes up to `padded` bytes.
pub open spec fn padded_image(data: Seq<u8>, width: int, height: int, padded: int) -> Seq<u8> {
    Seq::new(
        (padded * height) as nat,
        |i: int|
            if i % padded < 4 * width {
                data[(i / padded) * (4 * width) + i % padded]
            } else {
                0u8
            },
    )
}

/// Copy the rows of a `width` by `height` RGBA image into a buffer whose rows are `padding`
/// bytes longer, the extra bytes zero.
pub fn pad_rows(data: &[u8], width: u32, height: u32, padding: u32) -> (out: Vec<u8>)
    requires
        4 * width + padding <= u32::MAX,
        (4 * width) * height <= data@.len(),
        (4 * width + padding) * height <= usize::MAX,
    ensures
        out@ == padded_image(data@, width as int, height as int, (4 * width + padding) as int),
{
    let row_bytes: usize = (4 * width) as usize;
    let padded: usize = (4 * width + padding) as usize;
    let rows: usize = height as usize;
    let ghost target = padded_image(data@, width as int, height as int, padded as int);
    let total: usize = data.len();
    let mut out: Vec<u8> = Vec::new();
    let mut row: usize = 0;
    proof {
        assert(row_bytes * rows == (4 * width) * height);
    }
    while row < rows
        invariant
            row <= rows,
            row_bytes * rows <= data@.len(),
            total == data@.len(),
            rows == height,
            row_bytes == 4 * width,
            padded == 4 * width + padding,
            (4 * width) * height <= data@.len(),
            padded * rows <= usize::MAX,
            target == padded_image(data@, width as int, height as int, padded as int),
            out@.len() == row * padded,
            forall|i: int| 0 <= i < out@.len() ==> #[trigger] out@[i] == target[i],
        decreases rows - row,
    {
        let mut c: usize = 0;
        proof {
            assert((row + 1) * padded <= rows * padded) by (nonlinear_arith)
                requires
                    row < rows,
            ;
            assert((row + 1) * row_bytes <= rows * row_bytes) by (nonlinear_arith)
                requires
                    row < rows,
            ;
        }
        while c < padded
            invariant
                row < rows,
                c <= padded,
                row_bytes * rows <= data@.len(),
                total == data@.len(),
                rows == height,
                row_bytes == 4 * width,
                padded == 4 * width + padding,
                (4 * width) * height <= data@.len(),
                (row + 1) * padded <= usize::MAX,
                (row + 1) * row_bytes <= rows * row_bytes,
                target == padded_image(data@, width as int, height as int, padded as int),
                out@.len() == row * padded + c,
                forall|i: int| 0 <= i < out@.len() ==> #[trigger] out@[i] == target[i],
            decreases padded - c,
        {
            proof {
                let i = row * padded + c;
                vstd::arithmetic::div_mod::lemma_fundamental_div_mod_converse(
                    i,
                    padded as int,
                    row as int,
                    c as int,
                );
                assert(row * padded + c < (row + 1) * padded) by (nonlinear_arith)
                    requires
                        c < padded,
                ;
                assert(i < padded * height) by (nonlinear_arith)
                    requires
                        i < (row + 1) * padded,
                        row < height,
                ;
            }
            if c < row_bytes {
                proof {
                    assert(row * row_bytes + c < (row + 1) * row_bytes) by (nonlinear_arith)
                        requires
                            c < row_bytes,
                    ;
                    assert(row_bytes * rows == rows * row_bytes) by (nonlinear_arith);
                    assert(row * row_bytes + c < data@.len());
                    assert(data@.len() <= usize::MAX);
                }
                let byte = data[row * row_bytes + c];
                out.push(byte);
            } else {
                out.push(0u8);
            }
            c = c + 1;
        }
        proof {
            assert(out@.len() == (row + 1) * padded) by (nonlinear_arith)
                requires
                    out@.len() == row * padded + c,
                    c == padded,
            ;
        }
        row = row + 1;
    }
    proof {
        assert(out@.len() == target.len()) by (nonlinear_arith)
            requires
                out@.len() == row * padded,
                row == rows,
                rows == height,
                target.len() == padded * height,
        ;
        assert(out@ =~= target);
    }
    out
}

/// The byte offset, in a padded image, of the pixel at `position`.
pub fn fragment_offset(position: (u32, u32), padded_width: u32) -> (o: usize)
    requires
        position.1 * padded_width + 4 * position.0 <= u32::MAX,
    ensures
        o == position.1 * padded_width + 4 * position.0,
{
    proof {
        assert(0 <= position.1 * padded_width) by (nonlinear_arith);
    }
    (position.1 * padded_width + 4 * position.0) as usize
}

} // verus!
