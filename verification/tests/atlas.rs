use tui_texture::atlas::Atlas;
use tui_texture::atlas::Key;
use tui_texture::Error;

fn key(n: u32) -> Key {
    Key { style: 0, glyph: n, font: 1 }
}

#[test]
fn test_atlas_invalid_configuration() {
    assert_eq!(Atlas::new(0, 100).unwrap_err(), Error::ZeroPixelDimensions);
    assert_eq!(Atlas::new(100, 0).unwrap_err(), Error::ZeroPixelDimensions);
    assert!(Atlas::new(100_000, 100).is_err());
    assert!(Atlas::new(100, 100).is_ok());
}

#[test]
fn test_atlas_same_key_twice() {
    // Querying the same key twice returns the same rectangle, and the
    // second call reports the slot as cached.
    let mut atlas = Atlas::new(256, 256).unwrap();
    let first = atlas.get(key(7), 10, 20).unwrap();
    assert!(!first.cached);
    let second = atlas.get(key(7), 10, 20).unwrap();
    assert!(second.cached);
    assert_eq!(first.rect, second.rect);
    assert_eq!(first.rect.width, 10);
    assert_eq!(first.rect.height, 20);
}

#[test]
fn test_atlas_live_slots_never_overlap() {
    let mut atlas = Atlas::new(64, 64).unwrap();
    for n in 0..12u32 {
        atlas.get(key(n), 10, 10).unwrap();
    }
    let entries = &atlas.entries;
    for i in 0..entries.len() {
        for j in (i + 1)..entries.len() {
            let a = entries[i].rect;
            let b = entries[j].rect;
            let disjoint = a.x + a.width <= b.x
                || b.x + b.width <= a.x
                || a.y + a.height <= b.y
                || b.y + b.height <= a.y;
            assert!(disjoint, "slots {i} and {j} overlap");
        }
    }
}

#[test]
fn test_atlas_opens_new_shelves() {
    let mut atlas = Atlas::new(32, 32).unwrap();
    let a = atlas.get(key(1), 20, 10).unwrap();
    let b = atlas.get(key(2), 20, 10).unwrap();
    // The second slot does not fit beside the first and opens a new shelf.
    assert_eq!(a.rect.y, 0);
    assert_eq!(b.rect.y, 10);
}

#[test]
fn test_atlas_eviction_restarts_packing() {
    let mut atlas = Atlas::new(32, 32).unwrap();
    for n in 0..4u32 {
        atlas.get(key(n), 16, 16).unwrap();
    }
    assert_eq!(atlas.len(), 4);
    // A fifth slot exhausts the texture: the whole cache is evicted.
    let fresh = atlas.get(key(4), 16, 16).unwrap();
    assert!(!fresh.cached);
    assert_eq!(atlas.len(), 1);
    // The evicted keys miss again.
    let again = atlas.get(key(0), 16, 16).unwrap();
    assert!(!again.cached);
}

#[test]
fn test_atlas_too_large_request_fails() {
    let mut atlas = Atlas::new(64, 64).unwrap();
    assert!(atlas.get(key(1), 65, 10).is_none());
    assert!(atlas.get(key(1), 10, 65).is_none());
    // The failed request left no entry behind.
    assert_eq!(atlas.len(), 0);
}

#[test]
fn test_atlas_remove_font() {
    let mut atlas = Atlas::new(256, 256).unwrap();
    atlas.get(Key { style: 0, glyph: 1, font: 1 }, 8, 8).unwrap();
    atlas.get(Key { style: 0, glyph: 2, font: 2 }, 8, 8).unwrap();
    atlas.get(Key { style: 0, glyph: 3, font: 1 }, 8, 8).unwrap();
    atlas.remove_font(1);
    assert_eq!(atlas.len(), 1);
    // The surviving font's slot is still cached, the removed one misses.
    assert!(atlas.get(Key { style: 0, glyph: 2, font: 2 }, 8, 8).unwrap().cached);
    assert!(!atlas.get(Key { style: 0, glyph: 1, font: 1 }, 8, 8).unwrap().cached);
}

#[test]
fn test_atlas_clear() {
    let mut atlas = Atlas::new(256, 256).unwrap();
    atlas.get(key(1), 8, 8).unwrap();
    atlas.get(key(2), 8, 8).unwrap();
    atlas.clear();
    assert_eq!(atlas.len(), 0);
    assert!(!atlas.get(key(1), 8, 8).unwrap().cached);
}

#[test]
fn test_atlas_hit_ignores_requested_size() {
    // A slot's dimensions are fixed for its lifetime: a later request with
    // other dimensions still returns the stored rectangle.
    let mut atlas = Atlas::new(256, 256).unwrap();
    let first = atlas.get(key(9), 10, 20).unwrap();
    let second = atlas.get(key(9), 30, 40).unwrap();
    assert!(second.cached);
    assert_eq!(second.rect, first.rect);
}
