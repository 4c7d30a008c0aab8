use engine::text::{pack_glyph_strip, pack_text_line, AlphaBitmap, GlyphPlacement};

fn bitmap(width: usize, height: usize, pixels: &[u8]) -> AlphaBitmap {
    assert_eq!(pixels.len(), width * height);
    AlphaBitmap { pixels: pixels.to_vec(), width, height }
}

#[test]
fn new_bitmap_has_no_coverage() {
    let b = AlphaBitmap::new(3, 2);
    assert_eq!(b.pixels, vec![0u8; 6]);
    assert_eq!((b.width, b.height), (3, 2));
}

#[test]
fn plot_sets_inside_points_and_drops_outside_ones() {
    let mut b = AlphaBitmap::new(3, 2);
    b.plot(2, 1, 200);
    b.plot(0, 0, 7);
    b.plot(3, 0, 9);
    b.plot(0, 2, 9);
    assert_eq!(b.pixels, vec![7, 0, 0, 0, 0, 200]);
}

#[test]
fn strip_places_glyphs_side_by_side_at_the_top() {
    let a = bitmap(2, 1, &[1, 2]);
    let b = bitmap(1, 3, &[3, 4, 5]);
    let c = bitmap(2, 2, &[6, 7, 8, 9]);
    let strip = pack_glyph_strip(&vec![a, b, c]).unwrap();
    assert_eq!(strip.atlas.width, 5);
    assert_eq!(strip.atlas.height, 3);
    assert_eq!(
        strip.atlas.pixels,
        vec![
            1, 2, 3, 6, 7, //
            0, 0, 4, 8, 9, //
            0, 0, 5, 0, 0,
        ]
    );
    assert_eq!(
        strip.glyphs,
        vec![
            GlyphPlacement { x: 0, top: 0, width: 2, height: 1 },
            GlyphPlacement { x: 2, top: 0, width: 1, height: 3 },
            GlyphPlacement { x: 3, top: 0, width: 2, height: 2 },
        ]
    );
}

#[test]
fn strip_of_no_glyphs_is_empty() {
    let strip = pack_glyph_strip(&Vec::new()).unwrap();
    assert_eq!((strip.atlas.width, strip.atlas.height), (0, 0));
    assert!(strip.atlas.pixels.is_empty());
    assert!(strip.glyphs.is_empty());
}

#[test]
fn strip_too_wide_for_memory_is_refused() {
    let wide = AlphaBitmap { pixels: Vec::new(), width: usize::MAX, height: 0 };
    let one = bitmap(1, 1, &[1]);
    assert!(pack_glyph_strip(&vec![wide, one]).is_none());
}

#[test]
fn text_line_centres_each_glyph() {
    let a = bitmap(1, 1, &[1]);
    let b = bitmap(2, 2, &[2, 3, 4, 5]);
    let c = bitmap(1, 4, &[6, 7, 8, 9]);
    let line = pack_text_line(&vec![a, b, c], 4).unwrap();
    assert_eq!((line.width, line.height), (4, 4));
    assert_eq!(
        line.pixels,
        vec![
            0, 0, 0, 6, //
            1, 2, 3, 7, //
            0, 4, 5, 8, //
            0, 0, 0, 9,
        ]
    );
}

#[test]
fn text_line_too_large_for_memory_is_refused() {
    let wide = AlphaBitmap { pixels: Vec::new(), width: usize::MAX / 2, height: 0 };
    assert!(pack_text_line(&vec![wide], 3).is_none());
}
