//! The decoded images of a terminal and the ids they are known by.
use std::sync::Arc;

use vstd::prelude::*;

use super::image::{DecodedImage, ImagePlacement, Picture, MAX_IMAGE_BYTES};
use crate::num::max_of;
use crate::shared::share;

verus! {

pub const MAX_STORED_IMAGE_BYTES: usize = 128 * 1024 * 1024;

/// A stored image.
#[derive(Debug)]
pub struct ImageRecord {
    pub id: u32,
    pub render_id: u64,
    pub width: u32,
    pub height: u32,
    pub rgba: Arc<[u8]>,
    pub placement: Option<ImagePlacement>,
    /// A Kitty `U=1` placement is anchored by placeholder cells rather than
    /// by the cursor. This stores the virtual placement's existence and lets
    /// the next terminal snapshot resolve its cell rectangle.
    pub placeholder_size: Option<(usize, usize)>,
}

/// A stored image by its values.
#[verifier::ext_equal]
pub struct StoredImage {
    pub id: u32,
    pub render_id: u64,
    pub width: u32,
    pub height: u32,
    pub rgba: Seq<u8>,
    pub placement: Option<ImagePlacement>,
    pub placeholder_size: Option<(usize, usize)>,
}

impl View for ImageRecord {
    type V = StoredImage;

    open spec fn view(&self) -> StoredImage {
        StoredImage {
            id: self.id,
            render_id: self.render_id,
            width: self.width,
            height: self.height,
            rgba: self.rgba@,
            placement: self.placement,
            placeholder_size: self.placeholder_size,
        }
    }
}

/// How many bytes some images take.
pub open spec fn image_bytes(images: Seq<StoredImage>) -> int
    decreases images.len(),
{
    if images.len() == 0 {
        0
    } else {
        image_bytes(images.drop_last()) + images.last().rgba.len()
    }
}

/// Where the image with an id stands among images in the order of their ids,
/// or where it would be put.
pub open spec fn slot(images: Seq<StoredImage>, id: u32) -> int
    decreases images.len(),
{
    if images.len() == 0 || images[0].id >= id {
        0
    } else {
        1 + slot(images.drop_first(), id)
    }
}

/// An image with the id is stored.
pub open spec fn is_stored(images: Seq<StoredImage>, id: u32) -> bool {
    slot(images, id) < images.len() && images[slot(images, id)].id == id
}

/// The images, in the order of their ids, and the counters for new ids.
#[verifier::ext_equal]
pub struct StoreView {
    pub images: Seq<StoredImage>,
    pub next_protocol_id: u32,
    pub next_render_id: u64,
}

impl StoreView {
    pub open spec fn empty() -> StoreView {
        StoreView { images: Seq::empty(), next_protocol_id: 0, next_render_id: 0 }
    }

    /// What holds of every store: an id is stored once, every image has
    /// pixels and is within its limit, and so are all of them together.
    pub open spec fn valid(self) -> bool {
        &&& forall|i: int, j: int|
            0 <= i < j < self.images.len() ==> self.images[i].id < self.images[j].id
        &&& forall|i: int|
            0 <= i < self.images.len() ==> 0 < (#[trigger] self.images[i]).rgba.len()
                <= MAX_IMAGE_BYTES
        &&& image_bytes(self.images) <= MAX_STORED_IMAGE_BYTES
    }

    pub open spec fn contains(self, id: u32) -> bool {
        is_stored(self.images, id)
    }

    pub open spec fn image(self, id: u32) -> StoredImage {
        self.images[slot(self.images, id)]
    }

    /// The store without the image of an id.
    pub open spec fn without(self, id: u32) -> StoreView {
        if self.contains(id) {
            StoreView { images: self.images.remove(slot(self.images, id)), ..self }
        } else {
            self
        }
    }

    /// The store with an image put in place of the one it has under its id.
    pub open spec fn with_image(self, image: StoredImage) -> StoreView {
        if self.contains(image.id) {
            StoreView { images: self.images.update(slot(self.images, image.id), image), ..self }
        } else {
            StoreView { images: self.images.insert(slot(self.images, image.id), image), ..self }
        }
    }

    /// An image of so many bytes can be stored under an id.
    pub open spec fn has_room(self, id: u32, bytes: int) -> bool {
        0 < bytes <= MAX_IMAGE_BYTES && image_bytes(self.without(id).images) + bytes
            <= MAX_STORED_IMAGE_BYTES
    }

    /// The store after a picture was stored under an id, where it has room.
    pub open spec fn stored(
        self,
        id: u32,
        picture: Picture,
        placement: Option<ImagePlacement>,
        placeholder_size: Option<(usize, usize)>,
    ) -> StoreView {
        if self.has_room(id, picture.rgba.len() as int) {
            StoreView {
                next_render_id: if self.next_render_id == u64::MAX {
                    1
                } else {
                    (self.next_render_id + 1) as u64
                },
                ..self.with_image(
                    StoredImage {
                        id,
                        render_id: self.next_render_id,
                        width: picture.width,
                        height: picture.height,
                        rgba: picture.rgba,
                        placement,
                        placeholder_size,
                    },
                )
            }
        } else {
            self
        }
    }

    /// An id that neither an image nor the pending transmission has.
    pub open spec fn is_free(self, pending: Option<u32>, id: u32) -> bool {
        !self.contains(id) && pending != Some(id)
    }

    /// The store after a free id was allocated: the first one after the id
    /// allocated last, in a cycle without 0.
    pub open spec fn allocated(self, pending: Option<u32>, steps: nat) -> StoreView
        decreases steps,
    {
        let next = StoreView { next_protocol_id: next_id(self.next_protocol_id), ..self };
        if steps == 0 || next.is_free(pending, next.next_protocol_id) {
            next
        } else {
            next.allocated(pending, (steps - 1) as nat)
        }
    }
}

/// The id after another, in a cycle without 0.
pub open spec fn next_id(id: u32) -> u32 {
    if id == u32::MAX {
        1
    } else {
        (id + 1) as u32
    }
}

proof fn lemma_slot(images: Seq<StoredImage>, id: u32, at: int)
    requires
        0 <= at <= images.len(),
        at < images.len() ==> images[at].id >= id,
        forall|i: int| 0 <= i < at ==> (#[trigger] images[i]).id < id,
    ensures
        slot(images, id) == at,
    decreases images.len(),
{
    if at > 0 {
        assert(images[0].id < id);
        assert forall|i: int| 0 <= i < at - 1 implies (#[trigger] images.drop_first()[i]).id
            < id by {
            assert(images[i + 1].id < id);
        }
        lemma_slot(images.drop_first(), id, at - 1);
    }
}

proof fn lemma_slot_is(images: Seq<StoredImage>, id: u32)
    ensures
        0 <= slot(images, id) <= images.len(),
        slot(images, id) < images.len() ==> images[slot(images, id)].id >= id,
        forall|i: int| 0 <= i < slot(images, id) ==> (#[trigger] images[i]).id < id,
    decreases images.len(),
{
    if images.len() > 0 && images[0].id < id {
        lemma_slot_is(images.drop_first(), id);
        assert forall|i: int| 0 <= i < slot(images, id) implies (#[trigger] images[i]).id < id by {
            if i > 0 {
                assert(images.drop_first()[i - 1].id < id);
            }
        }
    }
}

proof fn lemma_bytes_split(images: Seq<StoredImage>, at: int)
    requires
        0 <= at <= images.len(),
    ensures
        image_bytes(images) == image_bytes(images.take(at)) + image_bytes(images.skip(at)),
    decreases images.len() - at,
{
    if at == images.len() {
        assert(images.take(at) =~= images);
        assert(images.skip(at) =~= Seq::empty());
    } else {
        assert(images.skip(at).drop_last() =~= images.drop_last().skip(at));
        assert(images.drop_last().take(at) =~= images.take(at));
        lemma_bytes_split(images.drop_last(), at);
    }
}

proof fn lemma_bytes_one(image: StoredImage)
    ensures
        image_bytes(seq![image]) == image.rgba.len(),
{
    assert(seq![image].drop_last() =~= Seq::empty());
    assert(image_bytes(seq![image].drop_last()) == 0);
}

proof fn lemma_bytes_concat(front: Seq<StoredImage>, back: Seq<StoredImage>)
    ensures
        image_bytes(front + back) == image_bytes(front) + image_bytes(back),
{
    lemma_bytes_split(front + back, front.len() as int);
    assert((front + back).take(front.len() as int) =~= front);
    assert((front + back).skip(front.len() as int) =~= back);
}

proof fn lemma_bytes_remove(images: Seq<StoredImage>, at: int)
    requires
        0 <= at < images.len(),
    ensures
        image_bytes(images.remove(at)) == image_bytes(images) - images[at].rgba.len(),
{
    let front = images.take(at);
    let back = images.skip(at + 1);
    assert(images.remove(at) =~= front + back);
    assert(images =~= front + (seq![images[at]] + back));
    lemma_bytes_concat(front, back);
    lemma_bytes_concat(seq![images[at]], back);
    lemma_bytes_concat(front, seq![images[at]] + back);
    lemma_bytes_one(images[at]);
}

proof fn lemma_bytes_insert(images: Seq<StoredImage>, at: int, image: StoredImage)
    requires
        0 <= at <= images.len(),
    ensures
        image_bytes(images.insert(at, image)) == image_bytes(images) + image.rgba.len(),
{
    assert(images.insert(at, image).remove(at) =~= images);
    lemma_bytes_remove(images.insert(at, image), at);
}

proof fn lemma_bytes_nonnegative(images: Seq<StoredImage>)
    requires
        forall|i: int| 0 <= i < images.len() ==> 0 < (#[trigger] images[i]).rgba.len(),
    ensures
        image_bytes(images) >= images.len(),
    decreases images.len(),
{
    if images.len() > 0 {
        assert forall|i: int| 0 <= i < images.drop_last().len() implies 0 < (
        #[trigger] images.drop_last()[i]).rgba.len() by {
            assert(0 < images[i].rgba.len());
        }
        lemma_bytes_nonnegative(images.drop_last());
        assert(0 < images[images.len() - 1].rgba.len());
    }
}

/// Taking an image out keeps the store valid and frees the bytes of the image.
pub proof fn removing_keeps_the_store_valid(store: StoreView, id: u32)
    requires
        store.valid(),
    ensures
        store.without(id).valid(),
        !store.without(id).contains(id),
        image_bytes(store.without(id).images) == image_bytes(store.images) - (if store.contains(
            id,
        ) {
            store.image(id).rgba.len() as int
        } else {
            0
        }),
{
    lemma_slot_is(store.images, id);
    let at = slot(store.images, id);
    if store.contains(id) {
        lemma_bytes_remove(store.images, at);
        let left = store.images.remove(at);
        assert(at < left.len() ==> left[at] == store.images[at + 1]);
        lemma_slot(left, id, at);
    }
}

/// Storing a picture keeps the store valid: an id is stored once, and the
/// images together stay within their limit.
pub proof fn storing_keeps_the_store_valid(
    store: StoreView,
    id: u32,
    picture: Picture,
    placement: Option<ImagePlacement>,
    placeholder_size: Option<(usize, usize)>,
)
    requires
        store.valid(),
    ensures
        store.stored(id, picture, placement, placeholder_size).valid(),
        store.has_room(id, picture.rgba.len() as int) ==> store.stored(
            id,
            picture,
            placement,
            placeholder_size,
        ).contains(id),
{
    if store.has_room(id, picture.rgba.len() as int) {
        removing_keeps_the_store_valid(store, id);
        lemma_slot_is(store.images, id);
        let at = slot(store.images, id);
        let after = store.stored(id, picture, placement, placeholder_size);
        let image = after.images[at];
        if store.contains(id) {
            assert(store.images.update(at, image).remove(at) =~= store.images.remove(at));
            lemma_bytes_remove(store.images.update(at, image), at);
        } else {
            lemma_bytes_insert(store.images, at, image);
            assert forall|i: int, j: int| 0 <= i < j < after.images.len() implies after.images[i].id
                < after.images[j].id by {
                if i < at {
                    assert(store.images[i].id < id);
                }
                if at < j {
                    assert(store.images[j - 1].id >= id);
                }
            }
        }
        lemma_slot(after.images, id, at);
    }
}

/// The id reached by a number of steps from another.
spec fn id_after(from: u32, steps: int) -> int {
    (from - 1 + steps) % (u32::MAX as int) + 1
}

proof fn lemma_id_after(from: u32, steps: int)
    requires
        0 <= steps,
        steps == 0 ==> from >= 1,
    ensures
        1 <= id_after(from, steps) <= u32::MAX,
        next_id(id_after(from, steps) as u32) == id_after(from, steps + 1),
        from == 0 ==> next_id(0) == id_after(0, 1),
{
    let cycle = u32::MAX as int;
    let at = from - 1 + steps;
    vstd::arithmetic::div_mod::lemma_mod_pos_bound(at, cycle);
    let place = at % cycle;
    vstd::arithmetic::div_mod::lemma_add_mod_noop(at, 1, cycle);
    if place == cycle - 1 {
        assert((place + 1) % cycle == 0);
    } else {
        assert((place + 1) % cycle == place + 1) by {
            vstd::arithmetic::div_mod::lemma_small_mod((place + 1) as nat, cycle as nat);
        }
    }
    assert((at + 1) % cycle == (place + 1) % cycle);
}

proof fn lemma_ids_differ(from: u32, first: int, second: int)
    requires
        0 <= first < second,
        second - first < u32::MAX,
    ensures
        id_after(from, first) != id_after(from, second),
{
    let cycle = u32::MAX as int;
    let a = from - 1 + first;
    let b = from - 1 + second;
    if a % cycle == b % cycle {
        vstd::arithmetic::div_mod::lemma_fundamental_div_mod(a, cycle);
        vstd::arithmetic::div_mod::lemma_fundamental_div_mod(b, cycle);
        let turns = b / cycle - a / cycle;
        assert(b - a == cycle * turns) by (nonlinear_arith)
            requires
                b - a == (cycle * (b / cycle) + b % cycle) - (cycle * (a / cycle) + a % cycle),
                a % cycle == b % cycle,
                turns == b / cycle - a / cycle,
        ;
        assert(turns >= 1 ==> cycle * turns >= cycle) by (nonlinear_arith)
            requires
                cycle > 0,
        ;
        assert(turns <= 0 ==> cycle * turns <= 0) by (nonlinear_arith)
            requires
                cycle > 0,
        ;
    }
}

/// The ids reached by 1 to `steps` steps, all different.
proof fn lemma_ids_reached(from: u32, steps: int) -> (ids: Set<int>)
    requires
        0 <= steps < u32::MAX,
    ensures
        ids.finite(),
        ids.len() == steps,
        forall|id: int| ids.contains(id) ==> exists|k: int|
            1 <= k <= steps && id == #[trigger] id_after(from, k),
    decreases steps,
{
    if steps == 0 {
        Set::empty()
    } else {
        let before = lemma_ids_reached(from, steps - 1);
        let id = id_after(from, steps);
        if before.contains(id) {
            let k = choose|k: int| 1 <= k <= steps - 1 && id == #[trigger] id_after(from, k);
            lemma_ids_differ(from, k, steps);
        }
        before.insert(id)
    }
}

/// The ids that are in use.
spec fn used_ids(store: StoreView, pending: Option<u32>) -> Set<int> {
    let stored = store.images.map_values(|image: StoredImage| image.id as int).to_set();
    match pending {
        Some(id) => stored.insert(id as int),
        None => stored,
    }
}

proof fn lemma_used_ids(store: StoreView, pending: Option<u32>)
    requires
        store.valid(),
    ensures
        used_ids(store, pending).finite(),
        used_ids(store, pending).len() <= MAX_STORED_IMAGE_BYTES + 1,
        forall|id: u32| !store.is_free(pending, id) ==> used_ids(store, pending).contains(id as int),
{
    let ids = store.images.map_values(|image: StoredImage| image.id as int);
    ids.lemma_cardinality_of_set();
    lemma_bytes_nonnegative(store.images);
    assert forall|id: u32| !store.is_free(pending, id) implies used_ids(store, pending).contains(
        id as int,
    ) by {
        if store.contains(id) {
            lemma_slot_is(store.images, id);
            assert(ids[slot(store.images, id)] == id as int);
            assert(ids.to_set().contains(id as int));
        }
    }
}

/// There are always free ids: a run of ids in use is shorter than the cycle.
proof fn lemma_ids_run_out(store: StoreView, pending: Option<u32>, from: u32, steps: int)
    requires
        store.valid(),
        0 <= steps < u32::MAX,
        forall|k: int|
            1 <= k <= steps ==> !store.is_free(pending, #[trigger] id_after(from, k) as u32),
    ensures
        steps <= MAX_STORED_IMAGE_BYTES + 1,
{
    let reached = lemma_ids_reached(from, steps);
    lemma_used_ids(store, pending);
    let used = used_ids(store, pending);
    assert forall|id: int| reached.contains(id) implies used.contains(id) by {
        let k = choose|k: int| 1 <= k <= steps && id == #[trigger] id_after(from, k);
        lemma_id_after(from, k);
        assert(!store.is_free(pending, id_after(from, k) as u32));
    }
    vstd::set_lib::lemma_len_subset(reached, used);
}

/// The images of a terminal.
#[derive(Debug)]
pub struct ImageStore {
    images: Vec<ImageRecord>,
    next_protocol_id: u32,
    next_render_id: u64,
    stored_bytes: usize,
}

pub open spec fn stored_images(images: Seq<ImageRecord>) -> Seq<StoredImage> {
    images.map_values(|image: ImageRecord| image@)
}

impl View for ImageStore {
    type V = StoreView;

    closed spec fn view(&self) -> StoreView {
        StoreView {
            images: stored_images(self.images@),
            next_protocol_id: self.next_protocol_id,
            next_render_id: self.next_render_id,
        }
    }
}

impl ImageStore {
    /// The store is valid and its byte count is that of its images.
    pub closed spec fn wf(&self) -> bool {
        self@.valid() && self.stored_bytes == image_bytes(self@.images)
    }

    pub proof fn wf_is_valid(&self)
        requires
            self.wf(),
        ensures
            self@.valid(),
    {
    }

    pub fn new() -> (store: Self)
        ensures
            store.wf(),
            store@ == StoreView::empty(),
    {
        let store = Self {
            images: Vec::new(),
            next_protocol_id: 0,
            next_render_id: 0,
            stored_bytes: 0,
        };
        assert(store@ =~= StoreView::empty());
        store
    }

    pub fn len(&self) -> (length: usize)
        ensures
            length == self@.images.len(),
    {
        self.images.len()
    }

    pub fn get(&self, index: usize) -> (image: &ImageRecord)
        requires
            index < self@.images.len(),
        ensures
            image@ == self@.images[index as int],
    {
        &self.images[index]
    }

    /// Where the image with an id stands, or would be put.
    pub fn position(&self, id: u32) -> (at: usize)
        ensures
            at == slot(self@.images, id),
            at <= self@.images.len(),
            forall|i: int| 0 <= i < at ==> (#[trigger] self@.images[i]).id < id,
            at < self@.images.len() ==> self@.images[at as int].id >= id,
    {
        let mut at: usize = 0;
        while at < self.images.len() && self.images[at].id < id
            invariant
                at <= self.images@.len(),
                forall|i: int| 0 <= i < at ==> (#[trigger] self@.images[i]).id < id,
            decreases self.images@.len() - at,
        {
            at = at + 1;
        }
        proof {
            lemma_slot(self@.images, id, at as int);
        }
        at
    }

    pub fn contains(&self, id: u32) -> (stored: bool)
        ensures
            stored == self@.contains(id),
    {
        let at: usize = self.position(id);
        at < self.images.len() && self.images[at].id == id
    }

    /// How many bytes the stored images take.
    pub fn stored_bytes(&self) -> (bytes: usize)
        requires
            self.wf(),
        ensures
            bytes == image_bytes(self@.images),
            bytes <= MAX_STORED_IMAGE_BYTES,
    {
        self.stored_bytes
    }

    pub fn remove(&mut self, id: u32)
        requires
            old(self).wf(),
        ensures
            final(self).wf(),
            final(self)@ == old(self)@.without(id),
    {
        proof {
            removing_keeps_the_store_valid(self@, id);
        }
        let at: usize = self.position(id);
        if at < self.images.len() && self.images[at].id == id {
            let ghost before = self@.images;
            proof {
                lemma_bytes_remove(before, at as int);
                lemma_bytes_at_least(before.remove(at as int));
            }
            let record: ImageRecord = self.images.remove(at);
            self.stored_bytes = self.stored_bytes - record.rgba.len();
            assert(self@.images =~= before.remove(at as int));
        }
    }

    pub fn clear(&mut self)
        ensures
            final(self).wf(),
            final(self)@ == (StoreView { images: Seq::empty(), ..old(self)@ }),
    {
        self.images.clear();
        self.stored_bytes = 0;
        assert(self@.images =~= Seq::empty());
    }

    /// Stores an image under an id, where there is room.
    pub fn store(
        &mut self,
        id: u32,
        decoded: DecodedImage,
        placement: Option<ImagePlacement>,
        placeholder_size: Option<(usize, usize)>,
    )
        requires
            old(self).wf(),
        ensures
            final(self).wf(),
            final(self)@ == old(self)@.stored(id, decoded@, placement, placeholder_size),
    {
        proof {
            storing_keeps_the_store_valid(self@, id, decoded@, placement, placeholder_size);
            removing_keeps_the_store_valid(self@, id);
        }
        let byte_len: usize = decoded.rgba.len();
        let at: usize = self.position(id);
        let replaces: bool = at < self.images.len() && self.images[at].id == id;
        let previous_bytes: usize = if replaces {
            self.images[at].rgba.len()
        } else {
            0
        };
        proof {
            if replaces {
                lemma_bytes_remove(self@.images, at as int);
                lemma_bytes_at_least(self@.images.remove(at as int));
            }
        }
        let kept_bytes: usize = self.stored_bytes - previous_bytes;
        if byte_len == 0 || byte_len > MAX_IMAGE_BYTES || byte_len > MAX_STORED_IMAGE_BYTES
            - kept_bytes {
            return;
        }
        let record = ImageRecord {
            id,
            render_id: self.next_render_id,
            width: decoded.width,
            height: decoded.height,
            rgba: share(decoded.rgba),
            placement,
            placeholder_size,
        };
        let ghost before = self@.images;
        let ghost image = record@;
        self.next_render_id = if self.next_render_id == u64::MAX {
            1
        } else {
            self.next_render_id + 1
        };
        self.stored_bytes = kept_bytes + byte_len;
        if replaces {
            self.images[at] = record;
            proof {
                assert(self@.images =~= before.update(at as int, image));
                assert(before.update(at as int, image).remove(at as int) =~= before.remove(
                    at as int,
                ));
                lemma_bytes_remove(before.update(at as int, image), at as int);
            }
        } else {
            self.images.insert(at, record);
            proof {
                assert(self@.images =~= before.insert(at as int, image));
                lemma_bytes_insert(before, at as int, image);
            }
        }
    }

    /// Changes how a stored image is placed.
    pub fn set_placement(
        &mut self,
        id: u32,
        placement: Option<ImagePlacement>,
        placeholder_size: Option<(usize, usize)>,
    )
        requires
            old(self).wf(),
            old(self)@.contains(id),
        ensures
            final(self).wf(),
            final(self)@ == old(self)@.with_image(
                StoredImage { placement, placeholder_size, ..old(self)@.image(id) },
            ),
    {
        let at: usize = self.position(id);
        let ghost before = self@;
        let rgba: Arc<[u8]> = self.images[at].rgba.clone();
        let record = ImageRecord {
            id,
            render_id: self.images[at].render_id,
            width: self.images[at].width,
            height: self.images[at].height,
            rgba,
            placement,
            placeholder_size,
        };
        let ghost image = record@;
        self.images[at] = record;
        proof {
            assert(self@.images =~= before.images.update(at as int, image));
            assert(before.images.update(at as int, image).remove(at as int)
                =~= before.images.remove(at as int));
            lemma_bytes_remove(before.images, at as int);
            lemma_bytes_remove(before.images.update(at as int, image), at as int);
        }
    }

    /// The width and height of a stored image.
    pub fn dimensions(&self, id: u32) -> (dimensions: Option<(u32, u32)>)
        ensures
            dimensions == (if self@.contains(id) {
                Some((self@.image(id).width, self@.image(id).height))
            } else {
                None
            }),
    {
        let at: usize = self.position(id);
        if at < self.images.len() && self.images[at].id == id {
            Some((self.images[at].width, self.images[at].height))
        } else {
            None
        }
    }

    /// Where a stored image is placed, by the cursor and by placeholders.
    pub fn placements(&self, id: u32) -> (placements: (
        Option<ImagePlacement>,
        Option<(usize, usize)>,
    ))
        requires
            self@.contains(id),
        ensures
            placements == (self@.image(id).placement, self@.image(id).placeholder_size),
    {
        let at: usize = self.position(id);
        (self.images[at].placement, self.images[at].placeholder_size)
    }

    /// Allocates an id that is not in use.
    pub fn allocate_protocol_id(&mut self, pending: Option<u32>) -> (id: u32)
        requires
            old(self).wf(),
        ensures
            final(self).wf(),
            final(self)@ == old(self)@.allocated(pending, u32::MAX as nat),
            id == final(self)@.next_protocol_id,
            id != 0,
            old(self)@.is_free(pending, id),
    {
        let ghost from = self.next_protocol_id;
        let ghost whole = self@.allocated(pending, u32::MAX as nat);
        let ghost mut steps: int = 0;
        loop
            invariant
                self.wf(),
                self@ == (StoreView {
                    next_protocol_id: self.next_protocol_id,
                    ..old(self)@
                }),
                from == old(self)@.next_protocol_id,
                whole == old(self)@.allocated(pending, u32::MAX as nat),
                0 <= steps < u32::MAX,
                whole == self@.allocated(pending, (u32::MAX - steps) as nat),
                steps == 0 ==> self.next_protocol_id == from,
                steps > 0 ==> self.next_protocol_id == id_after(from, steps),
                forall|k: int|
                    1 <= k <= steps ==> !old(self)@.is_free(
                        pending,
                        #[trigger] id_after(from, k) as u32,
                    ),
            decreases u32::MAX - steps,
        {
            let ghost before = self@;
            proof {
                if steps > 0 || from > 0 {
                    lemma_id_after(from, steps);
                    if steps == 0 {
                        lemma_id_after_zero(from);
                    }
                } else {
                    lemma_id_after(from, 1);
                }
            }
            self.next_protocol_id = if self.next_protocol_id == u32::MAX {
                1
            } else {
                self.next_protocol_id + 1
            };
            proof {
                steps = steps + 1;
                assert(self.next_protocol_id == id_after(from, steps));
                assert(self@.images == before.images);
            }
            let id: u32 = self.next_protocol_id;
            let held: bool = match pending {
                Some(pending) => pending == id,
                None => false,
            };
            if !held && !self.contains(id) {
                return id;
            }
            proof {
                if steps == u32::MAX {
                    lemma_ids_run_out(old(self)@, pending, from, steps - 1);
                } else {
                    lemma_ids_run_out(old(self)@, pending, from, steps);
                }
            }
        }
    }
}

proof fn lemma_bytes_at_least(images: Seq<StoredImage>)
    ensures
        image_bytes(images) >= 0,
    decreases images.len(),
{
    if images.len() > 0 {
        lemma_bytes_at_least(images.drop_last());
    }
}

proof fn lemma_id_after_zero(from: u32)
    requires
        from >= 1,
    ensures
        id_after(from, 0) == from,
{
    vstd::arithmetic::div_mod::lemma_small_mod((from - 1) as nat, u32::MAX as nat);
}

proof fn lemma_stored_elsewhere(before: StoreView, after: StoreView, at: int, id: u32, other: u32)
    requires
        before.valid(),
        after.valid(),
        other != id,
        at == slot(before.images, id),
        ({
            ||| before.contains(id) && after.images == before.images.remove(at)
            ||| before.contains(id) && after.images.len() == before.images.len()
                && after.images[at].id == id && after.images == before.images.update(
                at,
                after.images[at],
            )
            ||| !before.contains(id) && after.images.len() == before.images.len() + 1
                && after.images[at].id == id && after.images == before.images.insert(
                at,
                after.images[at],
            )
        }),
    ensures
        after.contains(other) == before.contains(other),
        before.contains(other) ==> after.image(other) == before.image(other),
{
    lemma_slot_is(before.images, id);
    lemma_slot_is(before.images, other);
    lemma_slot_is(after.images, other);
    let there = slot(before.images, other);
    if before.contains(other) {
        let now = if after.images.len() < before.images.len() && there > at {
            there - 1
        } else if after.images.len() > before.images.len() && there >= at {
            there + 1
        } else {
            there
        };
        assert(after.images[now] == before.images[there]);
        lemma_slot(after.images, other, now);
    } else if after.contains(other) {
        let now = slot(after.images, other);
        let was = if after.images.len() < before.images.len() && now >= at {
            now + 1
        } else if after.images.len() > before.images.len() && now > at {
            now - 1
        } else {
            now
        };
        assert(before.images[was] == after.images[now]);
        lemma_slot(before.images, other, was);
    }
}

/// A picture that there is room for is stored under its id with its pixels and
/// where it was placed, in place of what the id stood for; a picture that there
/// is no room for is not, and other images stay.
pub proof fn a_picture_is_stored_under_its_id(
    store: StoreView,
    id: u32,
    picture: Picture,
    placement: Option<ImagePlacement>,
    placeholder_size: Option<(usize, usize)>,
    other: u32,
)
    requires
        store.valid(),
        other != id,
    ensures
        ({
            let after = store.stored(id, picture, placement, placeholder_size);
            let bytes = picture.rgba.len() as int;
            let freed = if store.contains(id) {
                store.image(id).rgba.len() as int
            } else {
                0
            };
            let fits = 0 < bytes <= MAX_IMAGE_BYTES && image_bytes(store.images) - freed + bytes
                <= MAX_STORED_IMAGE_BYTES;
            &&& fits ==> after.contains(id) && after.image(id).rgba == picture.rgba && after.image(
                id,
            ).width == picture.width && after.image(id).height == picture.height && after.image(
                id,
            ).placement == placement && after.image(id).placeholder_size == placeholder_size
                && after.image(id).id == id && after.image(id).render_id == store.next_render_id
                && after.next_render_id != store.next_render_id
            &&& !fits ==> after == store
            &&& after.contains(other) == store.contains(other)
            &&& store.contains(other) ==> after.image(other) == store.image(other)
        }),
{
    removing_keeps_the_store_valid(store, id);
    storing_keeps_the_store_valid(store, id, picture, placement, placeholder_size);
    lemma_slot_is(store.images, id);
    let at = slot(store.images, id);
    let after = store.stored(id, picture, placement, placeholder_size);
    if store.has_room(id, picture.rgba.len() as int) {
        let image = after.images[at];
        assert(image.id == id);
        lemma_slot(after.images, id, at);
        if store.contains(id) {
            assert(after.images =~= store.images.update(at, image));
        } else {
            assert(after.images =~= store.images.insert(at, image));
        }
        lemma_stored_elsewhere(store, after, at, id, other);
    }
}

/// An image that is taken out is gone, and no other one is.
pub proof fn one_image_is_taken_out(store: StoreView, id: u32, other: u32)
    requires
        store.valid(),
        other != id,
    ensures
        !store.without(id).contains(id),
        store.without(id).contains(other) == store.contains(other),
        store.contains(other) ==> store.without(id).image(other) == store.image(other),
{
    removing_keeps_the_store_valid(store, id);
    if store.contains(id) {
        lemma_stored_elsewhere(store, store.without(id), slot(store.images, id), id, other);
    }
}

proof fn lemma_same_slots(images: Seq<StoredImage>, at: int, image: StoredImage, id: u32)
    requires
        0 <= at < images.len(),
        images[at].id == image.id,
    ensures
        slot(images.update(at, image), id) == slot(images, id),
        0 <= slot(images, id) <= images.len(),
    decreases images.len(),
{
    let after = images.update(at, image);
    assert(after[0].id == images[0].id);
    if images[0].id < id {
        let rest = images.drop_first();
        if at == 0 {
            assert(after.drop_first() =~= rest);
            lemma_slot_is(rest, id);
        } else {
            assert(after.drop_first() =~= rest.update(at - 1, image));
            lemma_same_slots(rest, at - 1, image, id);
        }
    }
}

/// An image that is changed is found changed, and no other one is.
pub proof fn an_image_is_replaced_in_its_place(store: StoreView, image: StoredImage, other: u32)
    requires
        store.contains(image.id),
        other != image.id,
    ensures
        store.with_image(image).contains(image.id),
        store.with_image(image).image(image.id) == image,
        store.with_image(image).contains(other) == store.contains(other),
        store.contains(other) ==> store.with_image(image).image(other) == store.image(other),
{
    let at = slot(store.images, image.id);
    lemma_slot_is(store.images, image.id);
    lemma_slot_is(store.images, other);
    lemma_same_slots(store.images, at, image, image.id);
    lemma_same_slots(store.images, at, image, other);
    let there = slot(store.images, other);
    if there < store.images.len() {
        assert(store.with_image(image).images[there].id == store.images[there].id);
    }
}

/// Ids are counted on, and begin again at one behind the last.
pub proof fn ids_are_counted_on(store: StoreView, pending: Option<u32>, id: u32)
    ensures
        id < u32::MAX ==> next_id(id) == id + 1,
        next_id(u32::MAX) == 1,
        ({
            let next = next_id(store.next_protocol_id);
            !store.contains(next) && pending != Some(next) ==> store.allocated(
                pending,
                1,
            ).next_protocol_id == next
        }),
{
}

} // verus!
