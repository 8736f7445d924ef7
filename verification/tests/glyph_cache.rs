use fft::glyph_cache::{GlyphCache, GlyphKey, SWEEP_INTERVAL_FRAMES};
use std::cell::Cell;

#[derive(Clone, Debug, Default, PartialEq)]
struct Line(u32);

fn key(text: &str) -> GlyphKey {
    GlyphKey::new(text.to_string(), [0; 4], 12.0f32.to_bits())
}

fn visual_key(text: &str, color: [f32; 4], size: f32) -> GlyphKey {
    GlyphKey::new(text.to_string(), color.map(f32::to_bits), size.to_bits())
}

fn advance_to_sweep(cache: &mut GlyphCache<Line>) {
    for _ in 0..SWEEP_INTERVAL_FRAMES {
        cache.begin_frame();
    }
}

#[test]
fn exact_key_hit_does_not_shape_again() {
    let shapes = Cell::new(0);
    let mut cache = GlyphCache::new();

    for _ in 0..100 {
        cache.lookup_or_insert_with(key("42"), || {
            shapes.set(shapes.get() + 1);
            Line::default()
        });
    }

    assert_eq!(shapes.get(), 1);
    assert_eq!(cache.misses(), 1);
    assert_eq!(cache.hits(), 99);
    assert_eq!(cache.len(), 1);
}

#[test]
fn key_uses_text_all_color_component_bits_and_font_size_bits() {
    let base = visual_key("x", [0.1, 0.2, 0.3, 0.4], 12.0);
    let variants = [
        visual_key("y", [0.1, 0.2, 0.3, 0.4], 12.0),
        visual_key("x", [0.5, 0.2, 0.3, 0.4], 12.0),
        visual_key("x", [0.1, 0.5, 0.3, 0.4], 12.0),
        visual_key("x", [0.1, 0.2, 0.5, 0.4], 12.0),
        visual_key("x", [0.1, 0.2, 0.3, 0.5], 12.0),
        visual_key("x", [0.1, 0.2, 0.3, 0.4], 13.0),
    ];

    for variant in variants {
        assert!(!base.same(&variant));
    }
    assert!(base.same(&visual_key("x", [0.1, 0.2, 0.3, 0.4], 12.0)));

    let positive_zero = GlyphKey::new("x".to_string(), [0; 4], 0.0f32.to_bits());
    let negative_zero = GlyphKey::new("x".to_string(), [0; 4], (-0.0f32).to_bits());
    assert!(!positive_zero.same(&negative_zero));
}

#[test]
fn first_sweep_retains_entries_used_since_creation() {
    let mut cache = GlyphCache::new();
    cache.lookup_or_insert_with(key("old"), Line::default);

    advance_to_sweep(&mut cache);
    assert_eq!(cache.len(), 1);

    advance_to_sweep(&mut cache);
    assert!(cache.is_empty());
}

#[test]
fn later_sweep_retains_only_entries_used_since_preceding_sweep() {
    let mut cache = GlyphCache::new();
    cache.lookup_or_insert_with(key("hot"), Line::default);
    advance_to_sweep(&mut cache);

    cache.lookup_or_insert_with(key("hot"), || unreachable!());
    advance_to_sweep(&mut cache);
    assert_eq!(cache.len(), 1);

    advance_to_sweep(&mut cache);
    assert!(cache.is_empty());
    assert_eq!(cache.hits(), 1);
    assert_eq!(cache.misses(), 1);
}

#[test]
fn a_hit_hands_out_the_line_of_its_key() {
    let mut cache = GlyphCache::new();
    assert_eq!(cache.lookup_or_insert_with(key("a"), || Line(1)), Line(1));
    assert_eq!(cache.lookup_or_insert_with(key("b"), || Line(2)), Line(2));
    assert_eq!(cache.lookup_or_insert_with(key("a"), || Line(3)), Line(1));
    assert_eq!(cache.len(), 2);
}
