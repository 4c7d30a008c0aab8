use vstd::prelude::*;

verus! {

/// An 8-bit coverage bitmap, row by row from the top.
#[derive(Debug)]
pub struct AlphaBitmap {
    pub pixels: Vec<u8>,
    pub width: usize,
    pub height: usize,
}

impl AlphaBitmap {
    pub open spec fn wf(&self) -> bool {
        self.pixels@.len() == self.width * self.height
    }

    /// A bitmap of the given size with no coverage anywhere.
    pub fn new(width: usize, height: usize) -> (r: Self)
        requires
            width * height <= usize::MAX,
        ensures
            r.wf(),
            r.width == width,
            r.height == height,
            r.pixels@ == Seq::new((width * height) as nat, |i: int| 0u8),
    {
        let pixels: Vec<u8> = vec![0u8; width * height];
        proof {
            assert(pixels@ =~= Seq::new((width * height) as nat, |i: int| 0u8));
        }
        AlphaBitmap { pixels, width, height }
    }

    /// Sets the coverage of the pixel at column `x`, row `y`; a point outside
    /// the bitmap is dropped.
    pub fn plot(&mut self, x: u32, y: u32, value: u8)
        requires
            old(self).wf(),
        ensures
            final(self).wf(),
            final(self).width == old(self).width,
            final(self).height == old(self).height,
            if (x as int) < old(self).width && (y as int) < old(self).height {
                final(self).pixels@ == old(self).pixels@.update(
                    y * old(self).width + x,
                    value,
                )
            } else {
                final(self).pixels@ == old(self).pixels@
            },
    {
        let xx = x as usize;
        let yy = y as usize;
        if xx < self.width && yy < self.height {
            assert(self.pixels@.len() == self.pixels.len());
            proof {
                lemma_row_fits(yy as int, self.width as int, self.height as int);
            }
            let i = yy * self.width + xx;
            self.pixels.set(i, value);
        }
    }
}

/// Where a glyph's bitmap sits in a strip: its left column, its top row and
/// its size.
#[derive(Clone, Copy, Debug, PartialEq, Eq, Structural)]
pub struct GlyphPlacement {
    pub x: usize,
    pub top: usize,
    pub width: usize,
    pub height: usize,
}

/// A strip of glyphs side by side, with each glyph's place in it.
#[derive(Debug)]
pub struct GlyphStrip {
    pub atlas: AlphaBitmap,
    pub glyphs: Vec<GlyphPlacement>,
}

pub open spec fn all_wf(bs: Seq<AlphaBitmap>) -> bool {
    forall|k: int| 0 <= k < bs.len() ==> (#[trigger] bs[k]).wf()
}

/// The width of the glyphs laid side by side.
pub open spec fn strip_width(bs: Seq<AlphaBitmap>) -> nat
    decreases bs.len(),
{
    if bs.len() == 0 {
        0
    } else {
        strip_width(bs.drop_last()) + bs.last().width as nat
    }
}

/// The height of the tallest glyph.
pub open spec fn strip_height(bs: Seq<AlphaBitmap>) -> nat
    decreases bs.len(),
{
    if bs.len() == 0 {
        0
    } else if strip_height(bs.drop_last()) >= bs.last().height {
        strip_height(bs.drop_last())
    } else {
        bs.last().height as nat
    }
}

/// Row `r` of bitmap `b`, or a row of no coverage where `b` has no row `r`.
pub open spec fn glyph_row(b: AlphaBitmap, r: int) -> Seq<u8> {
    if 0 <= r < b.height {
        b.pixels@.subrange(r * b.width, r * b.width + b.width)
    } else {
        Seq::new(b.width as nat, |i: int| 0u8)
    }
}

/// Row `y` of the strip where glyph `k` starts at row `tops[k]`.
pub open spec fn strip_row(bs: Seq<AlphaBitmap>, tops: Seq<usize>, y: int) -> Seq<u8>
    decreases bs.len(),
{
    if bs.len() == 0 {
        Seq::empty()
    } else {
        strip_row(bs.drop_last(), tops.drop_last(), y) + glyph_row(
            bs.last(),
            y - tops[bs.len() - 1],
        )
    }
}

/// The first `rows` rows of the strip, top to bottom.
pub open spec fn strip_pixels(bs: Seq<AlphaBitmap>, tops: Seq<usize>, rows: nat) -> Seq<u8>
    decreases rows,
{
    if rows == 0 {
        Seq::empty()
    } else {
        strip_pixels(bs, tops, (rows - 1) as nat) + strip_row(bs, tops, rows - 1)
    }
}

/// The place of glyph `k` in a strip whose glyphs start at rows `tops`.
pub open spec fn placement_of(bs: Seq<AlphaBitmap>, tops: Seq<usize>, k: int) -> GlyphPlacement {
    GlyphPlacement {
        x: strip_width(bs.take(k)) as usize,
        top: tops[k],
        width: bs[k].width,
        height: bs[k].height,
    }
}

/// The row at which a glyph of height `h` starts when centred in `height` rows.
pub open spec fn centred_top(height: nat, h: nat) -> nat {
    ((height - h) / 2) as nat
}

proof fn lemma_row_fits(r: int, w: int, h: int)
    requires
        0 <= r < h,
        0 <= w,
    ensures
        r * w + w <= w * h,
        0 <= r * w,
{
    assert(r * w + w <= w * h) by (nonlinear_arith)
        requires
            0 <= r < h,
            0 <= w,
    ;
    assert(0 <= r * w) by (nonlinear_arith)
        requires
            0 <= r,
            0 <= w,
    ;
}

proof fn lemma_glyph_row_len(b: AlphaBitmap, r: int)
    requires
        b.wf(),
    ensures
        glyph_row(b, r).len() == b.width,
{
    if 0 <= r < b.height {
        lemma_row_fits(r, b.width as int, b.height as int);
    }
}

proof fn lemma_strip_row_len(bs: Seq<AlphaBitmap>, tops: Seq<usize>, y: int)
    requires
        all_wf(bs),
    ensures
        strip_row(bs, tops, y).len() == strip_width(bs),
    decreases bs.len(),
{
    if bs.len() > 0 {
        assert(all_wf(bs.drop_last()));
        lemma_strip_row_len(bs.drop_last(), tops.drop_last(), y);
        lemma_glyph_row_len(bs.last(), y - tops[bs.len() - 1]);
    }
}

proof fn lemma_strip_pixels_len(bs: Seq<AlphaBitmap>, tops: Seq<usize>, rows: nat)
    requires
        all_wf(bs),
    ensures
        strip_pixels(bs, tops, rows).len() == rows * strip_width(bs),
    decreases rows,
{
    let w = strip_width(bs) as int;
    let m = rows as int;
    if rows > 0 {
        lemma_strip_pixels_len(bs, tops, (rows - 1) as nat);
        lemma_strip_row_len(bs, tops, rows - 1);
        assert(strip_pixels(bs, tops, (rows - 1) as nat).len() == (m - 1) * w);
        assert((m - 1) * w + w == m * w) by (nonlinear_arith);
    } else {
        assert(m * w == 0) by (nonlinear_arith)
            requires
                m == 0,
        ;
    }
}

proof fn lemma_strip_width_prefix(bs: Seq<AlphaBitmap>, k: int)
    requires
        0 <= k < bs.len(),
    ensures
        strip_width(bs.take(k + 1)) == strip_width(bs.take(k)) + bs[k].width,
        strip_width(bs.take(k + 1)) <= strip_width(bs),
    decreases bs.len() - k,
{
    assert(bs.take(k + 1).drop_last() =~= bs.take(k));
    if k + 1 < bs.len() {
        lemma_strip_width_prefix(bs, k + 1);
    } else {
        assert(bs.take(k + 1) =~= bs);
    }
}

/// Lays out the rows of the strip one after the other: row `y` holds, from
/// left to right, row `y - tops[k]` of each glyph `k`, or no coverage where the
/// glyph has no such row.
fn fill_strip(bitmaps: &Vec<AlphaBitmap>, tops: &Vec<usize>, height: usize) -> (r: Vec<u8>)
    requires
        all_wf(bitmaps@),
        tops@.len() == bitmaps@.len(),
    ensures
        r@ == strip_pixels(bitmaps@, tops@, height as nat),
{
    let ghost bs = bitmaps@;
    let n = bitmaps.len();
    let mut atlas: Vec<u8> = Vec::new();
    let mut y: usize = 0;
    while y < height
        invariant
            all_wf(bs),
            bs == bitmaps@,
            n == bs.len(),
            tops@.len() == n,
            y <= height,
            atlas@ == strip_pixels(bs, tops@, y as nat),
        decreases height - y,
    {
        let mut k: usize = 0;
        while k < n
            invariant
                all_wf(bs),
                bs == bitmaps@,
                n == bs.len(),
                tops@.len() == n,
                y < height,
                k <= n,
                atlas@ == strip_pixels(bs, tops@, y as nat) + strip_row(
                    bs.take(k as int),
                    tops@.take(k as int),
                    y as int,
                ),
            decreases n - k,
        {
            let b = &bitmaps[k];
            let top = tops[k];
            let ghost prefix = atlas@;
            let ghost row = glyph_row(bs[k as int], y - top);
            assert(b.wf());
            let mut x: usize = 0;
            if y >= top && y - top < b.height {
                let r = y - top;
                assert(b.pixels@.len() == b.pixels.len());
                proof {
                    lemma_row_fits(r as int, b.width as int, b.height as int);
                }
                let start = r * b.width;
                while x < b.width
                    invariant
                        b.wf(),
                        r < b.height,
                        start == r * b.width,
                        start + b.width <= b.pixels.len(),
                        row == b.pixels@.subrange(start as int, start + b.width),
                        x <= b.width,
                        atlas@ == prefix + row.take(x as int),
                    decreases b.width - x,
                {
                    atlas.push(b.pixels[start + x]);
                    proof {
                        assert(row.take(x + 1) =~= row.take(x as int).push(row[x as int]));
                    }
                    x = x + 1;
                }
            } else {
                while x < b.width
                    invariant
                        row == Seq::new(b.width as nat, |i: int| 0u8),
                        x <= b.width,
                        atlas@ == prefix + row.take(x as int),
                    decreases b.width - x,
                {
                    atlas.push(0u8);
                    proof {
                        assert(row.take(x + 1) =~= row.take(x as int).push(row[x as int]));
                    }
                    x = x + 1;
                }
            }
            proof {
                lemma_glyph_row_len(bs[k as int], y - top);
                assert(row.take(x as int) =~= row);
                assert(bs.take(k + 1).drop_last() =~= bs.take(k as int));
                assert(tops@.take(k + 1).drop_last() =~= tops@.take(k as int));
                assert(atlas@ =~= strip_pixels(bs, tops@, y as nat) + strip_row(
                    bs.take(k + 1),
                    tops@.take(k + 1),
                    y as int,
                ));
            }
            k = k + 1;
        }
        proof {
            assert(bs.take(n as int) =~= bs);
            assert(tops@.take(n as int) =~= tops@);
        }
        y = y + 1;
    }
    atlas
}

proof fn lemma_strip_height_step(bs: Seq<AlphaBitmap>, k: int)
    requires
        0 <= k < bs.len(),
    ensures
        strip_height(bs.take(k + 1)) == if strip_height(bs.take(k)) >= bs[k].height {
            strip_height(bs.take(k))
        } else {
            bs[k].height as nat
        },
{
    assert(bs.take(k + 1).drop_last() =~= bs.take(k));
}

proof fn lemma_strip_size(bs: Seq<AlphaBitmap>, tops: Seq<usize>)
    requires
        all_wf(bs),
    ensures
        strip_pixels(bs, tops, strip_height(bs)).len() == strip_width(bs) * strip_height(bs),
{
    lemma_strip_pixels_len(bs, tops, strip_height(bs));
    let w = strip_width(bs) as int;
    let h = strip_height(bs) as int;
    assert(h * w == w * h) by (nonlinear_arith);
}

/// Whether a strip of this width and height can be held in memory.
pub open spec fn strip_fits(width: nat, height: nat) -> bool {
    width <= usize::MAX && width * height <= usize::MAX
}

/// Packs glyph bitmaps side by side into one strip, left to right in their
/// order and aligned at the top; the strip is as wide as all the glyphs
/// together and as tall as the tallest one. `None` where it would not fit in
/// memory.
pub fn pack_glyph_strip(bitmaps: &Vec<AlphaBitmap>) -> (res: Option<GlyphStrip>)
    requires
        all_wf(bitmaps@),
    ensures
        res is None <==> !strip_fits(strip_width(bitmaps@), strip_height(bitmaps@)),
        res matches Some(r) ==> r.atlas.wf(),
        res matches Some(r) ==> r.atlas.width == strip_width(bitmaps@),
        res matches Some(r) ==> r.atlas.height == strip_height(bitmaps@),
        res matches Some(r) ==> r.atlas.pixels@ == strip_pixels(
            bitmaps@,
            Seq::new(bitmaps@.len(), |k: int| 0usize),
            strip_height(bitmaps@),
        ),
        res matches Some(r) ==> r.glyphs@.len() == bitmaps@.len(),
        res matches Some(r) ==> forall|k: int|
            0 <= k < bitmaps@.len() ==> #[trigger] r.glyphs@[k] == placement_of(
                bitmaps@,
                Seq::new(bitmaps@.len(), |k: int| 0usize),
                k,
            ),
{
    let ghost bs = bitmaps@;
    let ghost zeros = Seq::new(bitmaps@.len(), |k: int| 0usize);
    let n = bitmaps.len();
    let mut tops: Vec<usize> = Vec::new();
    let mut glyphs: Vec<GlyphPlacement> = Vec::new();
    let mut width: usize = 0;
    let mut height: usize = 0;
    let mut k: usize = 0;
    while k < n
        invariant
            bs == bitmaps@,
            n == bs.len(),
            zeros == Seq::new(n as nat, |k: int| 0usize),
            k <= n,
            width == strip_width(bs.take(k as int)),
            height == strip_height(bs.take(k as int)),
            tops@ == zeros.take(k as int),
            glyphs@.len() == k,
            forall|j: int| 0 <= j < k ==> #[trigger] glyphs@[j] == placement_of(bs, zeros, j),
        decreases n - k,
    {
        let b = &bitmaps[k];
        proof {
            lemma_strip_width_prefix(bs, k as int);
            lemma_strip_height_step(bs, k as int);
        }
        if width > usize::MAX - b.width {
            proof {
                lemma_strip_width_prefix_le(bs, k + 1);
            }
            return None;
        }
        glyphs.push(GlyphPlacement { x: width, top: 0, width: b.width, height: b.height });
        tops.push(0);
        width = width + b.width;
        if b.height > height {
            height = b.height;
        }
        proof {
            assert(tops@ =~= zeros.take(k + 1));
        }
        k = k + 1;
    }
    proof {
        assert(bs.take(n as int) =~= bs);
        assert(tops@ =~= zeros);
    }
    if height > 0 && width > usize::MAX / height {
        proof {
            lemma_product_exceeds(width as int, height as int);
        }
        return None;
    }
    proof {
        lemma_product_fits(width as int, height as int);
        lemma_strip_size(bs, zeros);
    }
    let pixels = fill_strip(bitmaps, &tops, height);
    Some(GlyphStrip { atlas: AlphaBitmap { pixels, width, height }, glyphs })
}


/// Packs glyph bitmaps side by side into one line of text `height` rows tall,
/// left to right in their order, each glyph centred vertically (rounding
/// towards the top). `None` where the line would not fit in memory.
pub fn pack_text_line(bitmaps: &Vec<AlphaBitmap>, height: usize) -> (res: Option<AlphaBitmap>)
    requires
        all_wf(bitmaps@),
        forall|k: int| 0 <= k < bitmaps@.len() ==> (#[trigger] bitmaps@[k]).height <= height,
    ensures
        res is None <==> !strip_fits(strip_width(bitmaps@), height as nat),
        res matches Some(r) ==> r.wf(),
        res matches Some(r) ==> r.width == strip_width(bitmaps@),
        res matches Some(r) ==> r.height == height,
        res matches Some(r) ==> r.pixels@ == strip_pixels(
            bitmaps@,
            Seq::new(
                bitmaps@.len(),
                |k: int| centred_top(height as nat, bitmaps@[k].height as nat) as usize,
            ),
            height as nat,
        ),
{
    let ghost bs = bitmaps@;
    let ghost centred = Seq::new(
        bitmaps@.len(),
        |k: int| centred_top(height as nat, bitmaps@[k].height as nat) as usize,
    );
    let n = bitmaps.len();
    let mut tops: Vec<usize> = Vec::new();
    let mut width: usize = 0;
    let mut k: usize = 0;
    while k < n
        invariant
            bs == bitmaps@,
            n == bs.len(),
            forall|j: int| 0 <= j < n ==> (#[trigger] bs[j]).height <= height,
            centred == Seq::new(
                n as nat,
                |j: int| centred_top(height as nat, bs[j].height as nat) as usize,
            ),
            k <= n,
            width == strip_width(bs.take(k as int)),
            tops@ == centred.take(k as int),
        decreases n - k,
    {
        let b = &bitmaps[k];
        proof {
            lemma_strip_width_prefix(bs, k as int);
        }
        if width > usize::MAX - b.width {
            proof {
                lemma_strip_width_prefix_le(bs, k + 1);
            }
            return None;
        }
        tops.push((height - b.height) / 2);
        width = width + b.width;
        proof {
            assert(tops@ =~= centred.take(k + 1));
        }
        k = k + 1;
    }
    proof {
        assert(bs.take(n as int) =~= bs);
        assert(tops@ =~= centred);
    }
    if height > 0 && width > usize::MAX / height {
        proof {
            lemma_product_exceeds(width as int, height as int);
        }
        return None;
    }
    proof {
        lemma_product_fits(width as int, height as int);
        lemma_strip_pixels_len(bs, centred, height as nat);
        let w = strip_width(bs) as int;
        let h = height as int;
        assert(h * w == w * h) by (nonlinear_arith);
    }
    let pixels = fill_strip(bitmaps, &tops, height);
    Some(AlphaBitmap { pixels, width, height })
}

proof fn lemma_strip_width_prefix_le(bs: Seq<AlphaBitmap>, k: int)
    requires
        0 <= k <= bs.len(),
    ensures
        strip_width(bs.take(k)) <= strip_width(bs),
    decreases bs.len() - k,
{
    if k < bs.len() {
        lemma_strip_width_prefix(bs, k);
    } else {
        assert(bs.take(k) =~= bs);
    }
}

proof fn lemma_product_exceeds(w: int, h: int)
    requires
        h > 0,
        w > (usize::MAX as int) / h,
    ensures
        w * h > usize::MAX,
{
    let m = usize::MAX as int;
    assert(w * h > m) by (nonlinear_arith)
        requires
            h > 0,
            w > m / h,
            m >= 0,
    ;
}

proof fn lemma_product_fits(w: int, h: int)
    requires
        w >= 0,
        h >= 0,
        h == 0 || w <= (usize::MAX as int) / h,
    ensures
        w * h <= usize::MAX,
{
    let m = usize::MAX as int;
    if h == 0 {
        assert(w * h == 0) by (nonlinear_arith)
            requires
                h == 0,
        ;
    } else {
        assert(w * h <= m) by (nonlinear_arith)
            requires
                h > 0,
                0 <= w <= m / h,
                m >= 0,
        ;
    }
}

} // verus!
