//! The glyph atlas: a bounded 2D texture cache mapping cache keys to packed
//! slot rectangles.
//!
//! Packing is first-fit shelf packing: slots are placed left to right on the
//! current shelf, a new shelf opens below when a slot does not fit, and when
//! the texture is exhausted the whole cache is evicted (a generational
//! policy) and packing restarts. Within one atlas a key maps to at most one
//! live slot, and live slots never overlap.

use vstd::prelude::*;

verus! {

/// Largest supported atlas edge, in pixels.
pub const MAX_ATLAS_DIM: u32 = 16384;

/// Identifies one rasterized glyph bitmap: the style bits that affect glyph
/// shape, a glyph identifier (shaped glyph index, or a code point for
/// programmatic glyphs), and the font it came from.
#[derive(Clone, Copy, PartialEq, Eq, Structural, Debug)]
pub struct Key {
    pub style: u16,
    pub glyph: u32,
    pub font: u32,
}

/// An axis-aligned rectangle inside the atlas texture.
#[derive(Clone, Copy, PartialEq, Eq, Structural, Debug)]
pub struct CacheRect {
    pub x: u32,
    pub y: u32,
    pub width: u32,
    pub height: u32,
}

/// What `Atlas::get` hands back: the slot rectangle for the key, and
/// whether its pixels are already valid (`cached`) or the caller must
/// rasterize and upload them.
#[derive(Clone, Copy, PartialEq, Eq, Structural, Debug)]
pub struct Slot {
    pub rect: CacheRect,
    pub cached: bool,
}

/// One live cache entry.
#[derive(Clone, Copy, PartialEq, Eq, Structural, Debug)]
pub struct Entry {
    pub key: Key,
    pub rect: CacheRect,
}

/// Two rectangles share no pixel.
pub open spec fn rects_disjoint(a: CacheRect, b: CacheRect) -> bool {
    ||| a.x + a.width <= b.x
    ||| b.x + b.width <= a.x
    ||| a.y + a.height <= b.y
    ||| b.y + b.height <= a.y
}

pub open spec fn rect_in_bounds(r: CacheRect, width: u32, height: u32) -> bool {
    &&& 1 <= r.width
    &&& 1 <= r.height
    &&& r.x + r.width <= width
    &&& r.y + r.height <= height
}

/// The glyph atlas cache.
#[derive(Debug)]
pub struct Atlas {
    pub width: u32,
    pub height: u32,
    pub entries: Vec<Entry>,
    pub shelf_x: u32,
    pub shelf_y: u32,
    pub shelf_h: u32,
}

impl Atlas {
    /// Every entry lies in a closed shelf above the current one, or on the
    /// current shelf left of the packing cursor.
    pub open spec fn entry_packed(self, e: Entry) -> bool {
        ||| e.rect.y + e.rect.height <= self.shelf_y
        ||| (e.rect.y == self.shelf_y && e.rect.height <= self.shelf_h && e.rect.x + e.rect.width
            <= self.shelf_x)
    }

    pub open spec fn wf(self) -> bool {
        &&& 1 <= self.width <= MAX_ATLAS_DIM
        &&& 1 <= self.height <= MAX_ATLAS_DIM
        &&& self.shelf_x <= self.width
        &&& self.shelf_y + self.shelf_h <= self.height
        &&& forall|i: int|
            0 <= i < self.entries.len() ==> rect_in_bounds(
                (#[trigger] self.entries[i]).rect,
                self.width,
                self.height,
            )
        &&& forall|i: int| 0 <= i < self.entries.len() ==> self.entry_packed(#[trigger] self.entries[i])
        &&& forall|i: int, j: int|
            0 <= i < j < self.entries.len() ==> rects_disjoint(
                (#[trigger] self.entries[i]).rect,
                (#[trigger] self.entries[j]).rect,
            )
        &&& forall|i: int, j: int|
            0 <= i < j < self.entries.len() ==> (#[trigger] self.entries[i]).key != (
            #[trigger] self.entries[j]).key
    }

    /// Whether the key currently maps to a live slot.
    pub open spec fn live(self, k: Key) -> bool {
        exists|i: int| 0 <= i < self.entries.len() && (#[trigger] self.entries[i]).key == k
    }

    pub open spec fn key_index(self, k: Key) -> int {
        choose|i: int| 0 <= i < self.entries.len() && (#[trigger] self.entries[i]).key == k
    }

    /// The slot rectangle a live key maps to.
    pub open spec fn rect_of(self, k: Key) -> CacheRect {
        self.entries[self.key_index(k)].rect
    }

    /// Creates an empty atlas. Zero or oversized dimensions are an invalid
    /// configuration and fail rather than being clamped.
    pub fn new(width: u32, height: u32) -> (r: Result<Atlas, crate::Error>)
        ensures
            r matches Ok(a) ==> {
                &&& a.wf()
                &&& a.width == width
                &&& a.height == height
                &&& a.entries@.len() == 0
            },
            r is Err <==> (width < 1 || height < 1 || width > MAX_ATLAS_DIM || height
                > MAX_ATLAS_DIM),
            r matches Err(e) ==> (e == crate::Error::ZeroPixelDimensions || e
                == crate::Error::DimensionTooLarge),
    {
        if width < 1 || height < 1 {
            return Err(crate::Error::ZeroPixelDimensions);
        }
        if width > MAX_ATLAS_DIM || height > MAX_ATLAS_DIM {
            return Err(crate::Error::DimensionTooLarge);
        }
        Ok(Atlas { width, height, entries: Vec::new(), shelf_x: 0, shelf_y: 0, shelf_h: 0 })
    }

    /// A live key keeps its rectangle: locating it by any witness index
    /// gives the same slot.
    pub proof fn lemma_live_at(self, k: Key, i: int)
        requires
            self.wf(),
            0 <= i < self.entries.len(),
            self.entries[i].key == k,
        ensures
            self.live(k),
            self.key_index(k) == i,
            self.rect_of(k) == self.entries[i].rect,
    {
        assert(self.live(k));
        let j = self.key_index(k);
        if i != j {
            if i < j {
                assert(self.entries[i].key != self.entries[j].key);
            } else {
                assert(self.entries[j].key != self.entries[i].key);
            }
        }
    }

    /// The relation between the atlas before and after one `get` call with
    /// result `r`. This is `get`'s full postcondition, named so that laws
    /// about call sequences can be stated over it.
    pub open spec fn get_post(pre: Atlas, post: Atlas, key: Key, w: u32, h: u32, r: Option<
        Slot,
    >) -> bool {
        &&& post.wf()
        &&& post.width == pre.width
        &&& post.height == pre.height
        &&& (r is Some <==> (pre.live(key) || (w <= pre.width && h <= pre.height)))
        &&& (pre.live(key) ==> r == Some(
            Slot { rect: pre.rect_of(key), cached: true },
        ) && post == pre)
        &&& ((r is Some && !pre.live(key)) ==> {
            let slot = r->Some_0;
            &&& slot.cached == false
            &&& slot.rect.width == w
            &&& slot.rect.height == h
            &&& post.live(key)
            &&& post.rect_of(key) == slot.rect
            &&& {
                ||| (Atlas::keys_preserved(pre, post) && post.entries@.len() == pre.entries@.len()
                    + 1)
                ||| post.entries@.len() == 1
            }
        })
        &&& (forall|k2: Key| #[trigger] post.live(k2) ==> k2 == key || pre.live(k2))
        &&& (r is None ==> post == pre)
    }

    /// Every key live before is still live afterwards, with its rectangle
    /// unchanged. A miss preserves this unless the texture was exhausted
    /// and the whole cache was evicted.
    pub open spec fn keys_preserved(pre: Atlas, post: Atlas) -> bool {
        forall|k2: Key|
            #[trigger] pre.live(k2) ==> post.live(k2) && post.rect_of(k2) == pre.rect_of(k2)
    }

    /// Returns the slot for a key, allocating one if the key is not live.
    ///
    /// A hit returns the stored rectangle unchanged with `cached == true`.
    /// A miss packs a fresh `w` x `h` rectangle (evicting the whole cache
    /// if the texture is exhausted) and returns it with `cached == false`.
    /// The call fails exactly when the key is not live and the requested
    /// slot is larger than the atlas itself.
    pub fn get(&mut self, key: Key, w: u32, h: u32) -> (r: Option<Slot>)
        requires
            old(self).wf(),
            1 <= w,
            1 <= h,
        ensures
            Atlas::get_post(*old(self), *final(self), key, w, h, r),
    {
        let ghost pre = *self;
        let mut i: usize = 0;
        while i < self.entries.len()
            invariant
                *self == pre,
                pre.wf(),
                i <= self.entries.len(),
                forall|j: int| 0 <= j < i ==> (#[trigger] self.entries[j]).key != key,
            decreases self.entries.len() - i,
        {
            if self.entries[i].key == key {
                let rect = self.entries[i].rect;
                proof {
                    pre.lemma_live_at(key, i as int);
                }
                return Some(Slot { rect, cached: true });
            }
            i = i + 1;
        }
        assert(!pre.live(key));
        if w > self.width || h > self.height {
            return None;
        }
        // Place on the current shelf if the slot fits there.
        if self.shelf_x <= self.width - w && h <= self.shelf_h {
            let ghost before = *self;
            let rect = CacheRect { x: self.shelf_x, y: self.shelf_y, width: w, height: h };
            self.place(key, rect);
            proof {
                assert(before == pre);
                assert(Atlas::keys_preserved(pre, *self));
            }
            return Some(Slot { rect, cached: false });
        }
        // Otherwise open a new shelf below the current one.
        let next_y = self.shelf_y + self.shelf_h;
        if next_y <= self.height - h {
            self.shelf_y = next_y;
            self.shelf_x = 0;
            self.shelf_h = h;
            proof {
                assert forall|j: int| 0 <= j < self.entries.len() implies self.entry_packed(
                    #[trigger] self.entries[j],
                ) by {
                    assert(pre.entry_packed(pre.entries[j]));
                }
            }
            let rect = CacheRect { x: 0, y: next_y, width: w, height: h };
            let ghost before = *self;
            self.place(key, rect);
            proof {
                assert(before.entries@ == pre.entries@);
                assert forall|k2: Key| #[trigger] pre.live(k2) implies self.live(k2)
                    && self.rect_of(k2) == pre.rect_of(k2) by {
                    let i0 = pre.key_index(k2);
                    assert(pre.entries[i0].key == k2);
                    assert(before.entries[i0].key == k2);
                    before.lemma_live_at(k2, i0);
                    pre.lemma_live_at(k2, i0);
                }
                assert(Atlas::keys_preserved(pre, *self));
            }
            return Some(Slot { rect, cached: false });
        }
        // The texture is exhausted: evict everything and restart packing.
        self.entries.clear();
        self.shelf_x = 0;
        self.shelf_y = 0;
        self.shelf_h = h;
        let ghost emptied = *self;
        let rect = CacheRect { x: 0, y: 0, width: w, height: h };
        self.place(key, rect);
        proof {
            assert forall|k2: Key| #[trigger] self.live(k2) implies k2 == key by {
                assert(!emptied.live(k2));
            }
        }
        Some(Slot { rect, cached: false })
    }

    /// Appends a fresh entry at the packing cursor and advances it.
    fn place(&mut self, key: Key, rect: CacheRect)
        requires
            old(self).wf(),
            !old(self).live(key),
            rect.x == old(self).shelf_x,
            rect.y == old(self).shelf_y,
            1 <= rect.width,
            1 <= rect.height,
            rect.x + rect.width <= old(self).width,
            rect.height <= old(self).shelf_h,
        ensures
            final(self).wf(),
            final(self).width == old(self).width,
            final(self).height == old(self).height,
            final(self).live(key),
            final(self).rect_of(key) == rect,
            final(self).entries@ == old(self).entries@.push(Entry { key, rect }),
            Atlas::keys_preserved(*old(self), *final(self)),
            forall|k2: Key| #[trigger] final(self).live(k2) ==> k2 == key || old(self).live(k2),
    {
        let ghost pre = *self;
        self.entries.push(Entry { key, rect });
        self.shelf_x = rect.x + rect.width;
        proof {
            let n = pre.entries.len() as int;
            assert forall|j: int| 0 <= j < n implies rects_disjoint(
                (#[trigger] self.entries[j]).rect,
                rect,
            ) by {
                assert(pre.entry_packed(pre.entries[j]));
            }
            assert forall|j: int| 0 <= j < self.entries.len() implies self.entry_packed(
                #[trigger] self.entries[j],
            ) by {
                if j < n {
                    assert(pre.entry_packed(pre.entries[j]));
                }
            }
            self.lemma_live_at(key, n);
            assert forall|k2: Key| #[trigger] pre.live(k2) implies self.live(k2) && self.rect_of(
                k2,
            ) == pre.rect_of(k2) by {
                let i0 = pre.key_index(k2);
                assert(pre.entries[i0].key == k2);
                assert(self.entries[i0].key == k2);
                self.lemma_live_at(k2, i0);
                pre.lemma_live_at(k2, i0);
            }
            assert forall|k2: Key| #[trigger] self.live(k2) implies k2 == key || pre.live(k2) by {
                let i0 = self.key_index(k2);
                assert(self.entries[i0].key == k2);
                if i0 < n {
                    assert(pre.entries[i0].key == k2);
                }
            }
        }
    }

    /// Evicts every slot belonging to one font identity, for the path where
    /// a font's size changes and its cached bitmaps become stale.
    #[verifier::rlimit(60)]
    pub fn remove_font(&mut self, font: u32)
        requires
            old(self).wf(),
        ensures
            final(self).wf(),
            final(self).width == old(self).width,
            final(self).height == old(self).height,
            forall|k: Key|
                #[trigger] final(self).live(k) <==> (old(self).live(k) && k.font != font),
            forall|k: Key|
                final(self).live(k) ==> #[trigger] final(self).rect_of(k) == old(self).rect_of(k),
    {
        let ghost pre = *self;
        let mut kept: Vec<Entry> = Vec::new();
        let mut i: usize = 0;
        while i < self.entries.len()
            invariant
                *self == pre,
                pre.wf(),
                i <= self.entries.len(),
                forall|j: int|
                    0 <= j < kept.len() ==> exists|i0: int|
                        0 <= i0 < i && #[trigger] kept[j] == pre.entries[i0],
                forall|i0: int|
                    0 <= i0 < i && (#[trigger] pre.entries[i0]).key.font != font ==> exists|j: int|
                        0 <= j < kept.len() && kept[j] == pre.entries[i0],
                forall|j: int| 0 <= j < kept.len() ==> (#[trigger] kept[j]).key.font != font,
                forall|j1: int, j2: int|
                    0 <= j1 < j2 < kept.len() ==> (#[trigger] kept[j1]).key != (
                    #[trigger] kept[j2]).key,
            decreases self.entries.len() - i,
        {
            let e = self.entries[i];
            if e.key.font != font {
                proof {
                    assert forall|j1: int| 0 <= j1 < kept.len() implies (#[trigger] kept[j1]).key
                        != e.key by {
                        let i0 = choose|i0: int| 0 <= i0 < i && #[trigger] kept[j1] == pre.entries[i0];
                        if i0 < i as int {
                            assert(pre.entries[i0].key != pre.entries[i as int].key);
                        }
                    }
                }
                let ghost old_kept = kept@;
                kept.push(e);
                proof {
                    assert forall|j: int| 0 <= j < kept@.len() implies exists|i0: int|
                        0 <= i0 < i + 1 && #[trigger] kept@[j] == pre.entries[i0] by {
                        if j < old_kept.len() {
                            let i0 = choose|i0: int|
                                0 <= i0 < i && #[trigger] old_kept[j] == pre.entries[i0];
                            assert(kept@[j] == pre.entries[i0]);
                        } else {
                            assert(kept@[j] == pre.entries[i as int]);
                        }
                    }
                    assert forall|i0: int|
                        0 <= i0 < i + 1 && (#[trigger] pre.entries[i0]).key.font != font implies
                        exists|j: int| 0 <= j < kept@.len() && #[trigger] kept@[j] == pre.entries[i0] by {
                        if i0 < i {
                            let j = choose|j: int|
                                0 <= j < old_kept.len() && #[trigger] old_kept[j] == pre.entries[i0];
                            assert(kept@[j] == pre.entries[i0]);
                        } else {
                            assert(kept@[old_kept.len() as int] == pre.entries[i0]);
                        }
                    }
                }
            } else {
                proof {
                    assert forall|i0: int|
                        0 <= i0 < i + 1 && (#[trigger] pre.entries[i0]).key.font != font implies
                        exists|j: int| 0 <= j < kept@.len() && #[trigger] kept@[j] == pre.entries[i0] by {
                        if i0 < i {
                            let j = choose|j: int|
                                0 <= j < kept@.len() && #[trigger] kept@[j] == pre.entries[i0];
                            assert(kept@[j] == pre.entries[i0]);
                        }
                    }
                }
            }
            i = i + 1;
        }
        self.entries = kept;
        proof {
            assert forall|j: int| 0 <= j < self.entries.len() implies rect_in_bounds(
                (#[trigger] self.entries[j]).rect,
                self.width,
                self.height,
            ) && self.entry_packed(self.entries[j]) by {
                let i0 = choose|i0: int|
                    0 <= i0 < pre.entries.len() && #[trigger] self.entries[j] == pre.entries[i0];
                assert(rect_in_bounds(pre.entries[i0].rect, pre.width, pre.height));
                assert(pre.entry_packed(pre.entries[i0]));
            }
            assert forall|j1: int, j2: int| 0 <= j1 < j2 < self.entries.len() implies
                rects_disjoint(
                (#[trigger] self.entries[j1]).rect,
                (#[trigger] self.entries[j2]).rect,
            ) by {
                let i1 = choose|i0: int|
                    0 <= i0 < pre.entries.len() && #[trigger] self.entries[j1] == pre.entries[i0];
                let i2 = choose|i0: int|
                    0 <= i0 < pre.entries.len() && #[trigger] self.entries[j2] == pre.entries[i0];
                if i1 < i2 {
                    assert(rects_disjoint(pre.entries[i1].rect, pre.entries[i2].rect));
                } else if i2 < i1 {
                    assert(rects_disjoint(pre.entries[i2].rect, pre.entries[i1].rect));
                } else {
                    assert(self.entries[j1].key == self.entries[j2].key);
                }
            }
            assert forall|k: Key| #[trigger] self.live(k) implies (pre.live(k) && k.font
                != font) by {
                let j = choose|j: int|
                    0 <= j < self.entries.len() && (#[trigger] self.entries[j]).key == k;
                let i0 = choose|i0: int|
                    0 <= i0 < pre.entries.len() && #[trigger] self.entries[j] == pre.entries[i0];
                assert(pre.entries[i0].key == k);
            }
            assert forall|k: Key| pre.live(k) && k.font != font implies #[trigger] self.live(
                k,
            ) by {
                let i0 = choose|i0: int|
                    0 <= i0 < pre.entries.len() && (#[trigger] pre.entries[i0]).key == k;
                let j = choose|j: int|
                    0 <= j < self.entries.len() && #[trigger] self.entries[j] == pre.entries[i0];
                assert(self.entries[j].key == k);
            }
            assert forall|k: Key| self.live(k) implies #[trigger] self.rect_of(k) == pre.rect_of(
                k,
            ) by {
                let j = self.key_index(k);
                assert(self.entries[j].key == k);
                let i0 = choose|i0: int|
                    0 <= i0 < pre.entries.len() && #[trigger] self.entries[j] == pre.entries[i0];
                pre.lemma_live_at(k, i0);
            }
        }
    }

    /// Evicts every slot, for the path where the whole font set changes and
    /// all cached bitmaps become stale.
    pub fn clear(&mut self)
        requires
            old(self).wf(),
        ensures
            final(self).wf(),
            final(self).width == old(self).width,
            final(self).height == old(self).height,
            final(self).entries@.len() == 0,
            forall|k: Key| !final(self).live(k),
    {
        self.entries.clear();
        self.shelf_x = 0;
        self.shelf_y = 0;
        self.shelf_h = 0;
    }

    /// How many slots are live.
    pub fn len(&self) -> (r: usize)
        ensures
            r == self.entries@.len(),
    {
        self.entries.len()
    }
}

impl Atlas {
    /// Key preservation composes across consecutive states.
    pub proof fn lemma_keys_preserved_trans(a: Atlas, b: Atlas, c: Atlas)
        requires
            Atlas::keys_preserved(a, b),
            Atlas::keys_preserved(b, c),
        ensures
            Atlas::keys_preserved(a, c),
    {
        assert forall|k2: Key| #[trigger] a.live(k2) implies c.live(k2) && c.rect_of(k2)
            == a.rect_of(k2) by {
            assert(b.live(k2));
        }
    }

    /// A state preserves its own keys.
    pub proof fn lemma_keys_preserved_refl(a: Atlas)
        ensures
            Atlas::keys_preserved(a, a),
    {
    }

    /// A live key's rectangle lies inside the texture.
    pub proof fn lemma_rect_of_in_bounds(self, k: Key)
        requires
            self.wf(),
            self.live(k),
        ensures
            rect_in_bounds(self.rect_of(k), self.width, self.height),
    {
        let i = self.key_index(k);
        assert(self.entries[i].key == k);
        assert(rect_in_bounds(self.entries[i].rect, self.width, self.height));
    }
}

/// Cache correctness: after a `get` for a key returned a slot, a second
/// `get` for the same key (with no eviction between the calls, which a
/// second call directly after the first guarantees) returns the very same
/// rectangle, reports `cached == true`, and leaves the atlas unchanged.
pub proof fn lemma_cache_correctness(
    pre: Atlas,
    mid: Atlas,
    post: Atlas,
    key: Key,
    w: u32,
    h: u32,
    r1: Option<Slot>,
    r2: Option<Slot>,
)
    requires
        Atlas::get_post(pre, mid, key, w, h, r1),
        r1 is Some,
        Atlas::get_post(mid, post, key, w, h, r2),
    ensures
        r2 == Some(Slot { rect: r1->Some_0.rect, cached: true }),
        post == mid,
{
    assert(mid.live(key));
    assert(mid.rect_of(key) == r1->Some_0.rect);
}

/// No-overlap invariant: any two distinct live slot rectangles of a
/// well-formed atlas are pairwise disjoint.
pub proof fn lemma_no_overlap(a: Atlas, i: int, j: int)
    requires
        a.wf(),
        0 <= i < a.entries.len(),
        0 <= j < a.entries.len(),
        i != j,
    ensures
        rects_disjoint(a.entries[i].rect, a.entries[j].rect),
{
    if i < j {
        assert(rects_disjoint(a.entries[i].rect, a.entries[j].rect));
    } else {
        assert(rects_disjoint(a.entries[j].rect, a.entries[i].rect));
    }
}

} // verus!
