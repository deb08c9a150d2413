//! Images as the library takes them: a width, a height and one color for each pixel, row
//! by row.

use crate::color::{lemma_packed_injective, Rgb};
use crate::error::Error;
use crate::ids::{first_seen, lemma_first_seen, IdTable};
use vstd::prelude::*;

verus! {

/// What an `Image` holds.
pub struct ImageView {
    pub width: nat,
    pub height: nat,
    pub pixels: Seq<Rgb>,
}

impl ImageView {
    /// The image has pixels, one color for each.
    pub open spec fn wf(self) -> bool {
        &&& self.width > 0
        &&& self.height > 0
        &&& self.pixels.len() == self.width * self.height
    }
}

/// The color that `bytes` holds for pixel `i`: three bytes, red first.
pub open spec fn color_at(bytes: Seq<u8>, i: int) -> Rgb {
    Rgb { r: bytes[3 * i], g: bytes[3 * i + 1], b: bytes[3 * i + 2] }
}

/// The colors that `bytes` holds for `n` pixels.
pub open spec fn colors_of(bytes: Seq<u8>, n: nat) -> Seq<Rgb> {
    Seq::new(n, |i: int| color_at(bytes, i))
}

/// A buffer of `len` bytes holds three bytes for each pixel of an image of the given
/// width and height, and the image has pixels.
pub open spec fn valid_size(width: u32, height: u32, len: nat) -> bool {
    width > 0 && height > 0 && len == 3 * (width * height)
}

/// The column and the row of pixel `i` in an image of the given width.
pub open spec fn position_of(i: int, width: int) -> (int, int) {
    (i % width, i / width)
}

/// The number of the pixel in column `x` of row `y`.
pub open spec fn index_of(x: int, y: int, width: int) -> int {
    y * width + x
}

/// A pixel's number gives its column and row, and these give the number back.
pub proof fn lemma_position_round_trip(i: int, width: int, height: int)
    requires
        width > 0,
        0 <= i < width * height,
    ensures
        0 <= position_of(i, width).0 < width,
        0 <= position_of(i, width).1 < height,
        index_of(position_of(i, width).0, position_of(i, width).1, width) == i,
{
    let x = i % width;
    let y = i / width;
    assert(i == width * y + x && 0 <= x < width) by (nonlinear_arith)
        requires
            width > 0,
            x == i % width,
            y == i / width,
    ;
    assert(0 <= y < height) by (nonlinear_arith)
        requires
            width > 0,
            0 <= x < width,
            0 <= i < width * height,
            i == width * y + x,
    ;
    assert(y * width == width * y) by (nonlinear_arith);
}

/// A column and a row give a pixel's number, and that gives the column and the row back.
pub proof fn lemma_index_round_trip(x: int, y: int, width: int, height: int)
    requires
        0 <= x < width,
        0 <= y < height,
    ensures
        0 <= index_of(x, y, width) < width * height,
        position_of(index_of(x, y, width), width) == (x, y),
{
    let i = y * width + x;
    assert(0 <= i < width * height) by (nonlinear_arith)
        requires
            0 <= x < width,
            0 <= y < height,
            i == y * width + x,
    ;
    assert(i % width == x && i / width == y) by (nonlinear_arith)
        requires
            0 <= x < width,
            0 <= y,
            i == y * width + x,
    ;
}

/// An image of 8-bit RGB pixels.
pub struct Image {
    width: u32,
    height: u32,
    pixels: Vec<Rgb>,
}

impl View for Image {
    type V = ImageView;

    closed spec fn view(&self) -> ImageView {
        ImageView { width: self.width as nat, height: self.height as nat, pixels: self.pixels@ }
    }
}

impl Image {
    #[verifier::type_invariant]
    spec fn inv(self) -> bool {
        self@.wf()
    }

    /// The image of the given width and height whose pixels are in `bytes`, row by row,
    /// three bytes for each. Refused where the image has no pixels or `bytes` is not of the
    /// length that the width and the height ask for.
    pub fn from_raw(width: u32, height: u32, bytes: &[u8]) -> (r: Result<Image, Error>)
        ensures
            match r {
                Ok(img) => valid_size(width, height, bytes@.len()) && img@ == (ImageView {
                    width: width as nat,
                    height: height as nat,
                    pixels: colors_of(bytes@, (width * height) as nat),
                }) && img@.wf(),
                Err(e) => e == Error::InvalidImage && !valid_size(width, height, bytes@.len()),
            },
    {
        if width == 0 || height == 0 {
            return Err(Error::InvalidImage);
        }
        assert(width * height <= 0xffff_ffff * 0xffff_ffff) by (nonlinear_arith)
            requires
                width <= 0xffff_ffff,
                height <= 0xffff_ffff,
        ;
        let count: u128 = (width as u128) * (height as u128);
        if 3 * count != bytes.len() as u128 {
            return Err(Error::InvalidImage);
        }
        let n: usize = bytes.len() / 3;
        assert(n == count);
        let mut pixels: Vec<Rgb> = Vec::new();
        let mut i: usize = 0;
        while i < n
            invariant
                i <= n,
                bytes@.len() == 3 * n,
                3 * n <= usize::MAX,
                pixels@ == colors_of(bytes@, i as nat),
            decreases n - i,
        {
            let color = Rgb { r: bytes[3 * i], g: bytes[3 * i + 1], b: bytes[3 * i + 2] };
            pixels.push(color);
            proof {
                assert(pixels@ =~= colors_of(bytes@, (i + 1) as nat));
            }
            i += 1;
        }
        Ok(Image { width, height, pixels })
    }

    /// The image of the given width and height whose pixels are `pixels`, row by row.
    /// Refused where the image has no pixels or `pixels` is not of the length that the
    /// width and the height ask for.
    pub fn from_pixels(width: u32, height: u32, pixels: Vec<Rgb>) -> (r: Result<Image, Error>)
        ensures
            match r {
                Ok(img) => img@ == (ImageView {
                    width: width as nat,
                    height: height as nat,
                    pixels: pixels@,
                }) && img@.wf(),
                Err(e) => e == Error::InvalidImage && !(ImageView {
                    width: width as nat,
                    height: height as nat,
                    pixels: pixels@,
                }).wf(),
            },
    {
        assert(width * height <= 0xffff_ffff * 0xffff_ffff) by (nonlinear_arith)
            requires
                width <= 0xffff_ffff,
                height <= 0xffff_ffff,
        ;
        let count: u128 = (width as u128) * (height as u128);
        if width == 0 || height == 0 || count != pixels.len() as u128 {
            return Err(Error::InvalidImage);
        }
        Ok(Image { width, height, pixels })
    }

    /// The width of the image.
    pub fn width(&self) -> (w: u32)
        ensures
            w == self@.width,
            self@.wf(),
    {
        proof {
            use_type_invariant(self);
        }
        self.width
    }

    /// The height of the image.
    pub fn height(&self) -> (h: u32)
        ensures
            h == self@.height,
            self@.wf(),
    {
        proof {
            use_type_invariant(self);
        }
        self.height
    }

    /// The colors of the pixels, row by row.
    pub fn pixels(&self) -> (p: &Vec<Rgb>)
        ensures
            p@ == self@.pixels,
            self@.wf(),
    {
        proof {
            use_type_invariant(self);
        }
        &self.pixels
    }

    /// The column and the row of pixel `i`.
    pub fn position(&self, i: usize) -> (at: (u32, u32))
        requires
            i < self@.pixels.len(),
        ensures
            (at.0 as int, at.1 as int) == position_of(i as int, self@.width as int),
            at.0 < self@.width,
            at.1 < self@.height,
    {
        proof {
            use_type_invariant(self);
            lemma_position_round_trip(i as int, self.width as int, self.height as int);
        }
        let w: usize = self.width as usize;
        ((i % w) as u32, (i / w) as u32)
    }

    /// The color of the pixel in column `x` of row `y`.
    pub fn get_pixel(&self, x: u32, y: u32) -> (color: Rgb)
        requires
            x < self@.width,
            y < self@.height,
        ensures
            0 <= index_of(x as int, y as int, self@.width as int) < self@.pixels.len(),
            color == self@.pixels[index_of(x as int, y as int, self@.width as int)],
    {
        proof {
            use_type_invariant(self);
            lemma_index_round_trip(x as int, y as int, self.width as int, self.height as int);
        }
        let width: u64 = self.width as u64;
        assert(y * width + x <= 0xffff_ffff * 0xffff_ffff + 0xffff_ffff) by (nonlinear_arith)
            requires
                0 <= y <= 0xffff_ffff,
                0 <= width <= 0xffff_ffff,
                0 <= x <= 0xffff_ffff,
        ;
        let at: u64 = (y as u64) * width + (x as u64);
        assert(at == index_of(x as int, y as int, self.width as int));
        assert(self.width * self.height >= 0) by (nonlinear_arith);
        let count: usize = self.pixels.len();
        assert(at < count);
        let i: usize = at as usize;
        self.pixels[i]
    }
}

/// How often `color` is in `pixels`.
pub open spec fn count_of(pixels: Seq<Rgb>, color: Rgb) -> nat
    decreases pixels.len(),
{
    if pixels.len() == 0 {
        0
    } else {
        count_of(pixels.drop_last(), color) + if pixels.last() == color {
            1nat
        } else {
            0nat
        }
    }
}

/// A color is counted as often as it occurs at most, and not at all where it does not
/// occur.
pub proof fn lemma_count_of(pixels: Seq<Rgb>, color: Rgb)
    ensures
        count_of(pixels, color) <= pixels.len(),
        count_of(pixels, color) > 0 <==> pixels.contains(color),
    decreases pixels.len(),
{
    if pixels.len() > 0 {
        let head = pixels.drop_last();
        lemma_count_of(head, color);
        if head.contains(color) {
            let i = head.index_of(color);
            assert(pixels[i] == color);
        }
        if pixels.last() == color {
            assert(pixels[pixels.len() - 1] == color);
        }
        if pixels.contains(color) {
            let i = pixels.index_of(color);
            if i < pixels.len() - 1 {
                assert(head[i] == color);
            }
        }
    }
}

/// A color and the number of pixels that have it.
#[derive(Clone, Copy, Debug, PartialEq, Eq, Structural)]
pub struct ColorCount {
    pub color: Rgb,
    pub count: usize,
}

/// The numbers that stand for the colors of `pixels`.
pub open spec fn packed_colors(pixels: Seq<Rgb>) -> Seq<u64> {
    Seq::new(pixels.len(), |i: int| pixels[i].packed())
}

/// `counts` lists each color of `pixels` once, in the order in which the colors first
/// occur, with the number of pixels that have it.
pub open spec fn is_histogram(counts: Seq<ColorCount>, pixels: Seq<Rgb>) -> bool {
    &&& Seq::new(counts.len(), |k: int| counts[k].color.packed()) == first_seen(
        packed_colors(pixels),
    )
    &&& forall|k: int|
        0 <= k < counts.len() ==> (#[trigger] counts[k]).count == count_of(pixels, counts[k].color)
}

/// The colors of `pixels`, each once, in the order in which they first occur, each with
/// the number of pixels that have it.
pub fn histogram(pixels: &[Rgb]) -> (counts: Vec<ColorCount>)
    ensures
        is_histogram(counts@, pixels@),
{
    let mut table = IdTable::new();
    let mut counts: Vec<ColorCount> = Vec::new();
    let mut i: usize = 0;
    proof {
        assert(packed_colors(pixels@.take(0)) =~= Seq::<u64>::empty());
    }
    while i < pixels.len()
        invariant
            i <= pixels@.len(),
            table.wf(),
            table@ == first_seen(packed_colors(pixels@.take(i as int))),
            counts@.len() == table@.len(),
            forall|k: int| 0 <= k < counts@.len() ==> (#[trigger] counts@[k]).color.packed() == table@[k],
            forall|k: int|
                0 <= k < counts@.len() ==> (#[trigger] counts@[k]).count == count_of(
                    pixels@.take(i as int),
                    counts@[k].color,
                ),
        decreases pixels@.len() - i,
    {
        let color: Rgb = pixels[i];
        let ghost seen = pixels@.take(i as int);
        let ghost now = pixels@.take(i as int + 1);
        let ghost old_counts = counts@;
        proof {
            assert(now.drop_last() =~= seen);
            assert(now.last() == color);
            assert(packed_colors(now).drop_last() =~= packed_colors(seen));
            assert(packed_colors(now).last() == color.packed());
            lemma_first_seen(packed_colors(seen));
            assert forall|k: int| 0 <= k < old_counts.len() implies old_counts[k].count <= i by {
                lemma_count_of(seen, old_counts[k].color);
            }
        }
        let ghost old_table = table@;
        let (at, fresh) = table.intern(color.packed());
        if fresh {
            counts.push(ColorCount { color, count: 1 });
            proof {
                lemma_count_of(seen, color);
                if seen.contains(color) {
                    let j = seen.index_of(color);
                    assert(packed_colors(seen)[j] == color.packed());
                    assert(packed_colors(seen).contains(color.packed()));
                }
                assert(count_of(seen, color) == 0);
            }
        } else {
            let entry: ColorCount = counts[at];
            proof {
                lemma_packed_injective(entry.color, color);
            }
            counts.set(at, ColorCount { color: entry.color, count: entry.count + 1 });
        }
        proof {
            table.lemma_wf();
            assert forall|k: int| 0 <= k < counts@.len() implies (#[trigger] counts@[k]).count
                == count_of(now, counts@[k].color) by {
                let c = counts@[k].color;
                assert(count_of(now, c) == count_of(seen, c) + if color == c {
                    1nat
                } else {
                    0nat
                });
                if fresh {
                    if k < old_counts.len() {
                        assert(counts@[k] == old_counts[k]);
                        assert(old_counts[k].color.packed() == old_table[k]);
                        assert(old_table.contains(old_table[k]));
                    }
                } else {
                    if k != at {
                        assert(counts@[k] == old_counts[k]);
                        assert(old_counts[k].color.packed() == old_table[k]);
                        assert(old_table[at as int] == color.packed());
                    }
                }
            }
        }
        i += 1;
    }
    proof {
        assert(pixels@.take(pixels@.len() as int) =~= pixels@);
        assert(Seq::new(counts@.len(), |k: int| counts@[k].color.packed()) =~= table@);
    }
    counts
}

/// The sum of the counts of `counts`.
pub open spec fn total(counts: Seq<ColorCount>) -> nat
    decreases counts.len(),
{
    if counts.len() == 0 {
        0
    } else {
        total(counts.drop_last()) + counts.last().count as nat
    }
}

/// The colors of `counts`.
pub open spec fn colors_of_counts(counts: Seq<ColorCount>) -> Seq<Rgb> {
    Seq::new(counts.len(), |k: int| counts[k].color)
}

/// How often the colors of `colors` are in `pixels`, summed over the colors.
spec fn occurrences(colors: Seq<Rgb>, pixels: Seq<Rgb>) -> nat
    decreases colors.len(),
{
    if colors.len() == 0 {
        0
    } else {
        occurrences(colors.drop_last(), pixels) + count_of(pixels, colors.last())
    }
}

/// One more pixel is one more occurrence, where its color is among the colors.
proof fn lemma_occurrences_step(colors: Seq<Rgb>, pixels: Seq<Rgb>)
    requires
        colors.no_duplicates(),
        pixels.len() > 0,
    ensures
        occurrences(colors, pixels) == occurrences(colors, pixels.drop_last()) + if colors.contains(
            pixels.last(),
        ) {
            1nat
        } else {
            0nat
        },
    decreases colors.len(),
{
    if colors.len() > 0 {
        let head = colors.drop_last();
        assert(head.no_duplicates());
        lemma_occurrences_step(head, pixels);
        let x = pixels.last();
        if head.contains(x) {
            let i = head.index_of(x);
            assert(colors[i] == x);
            assert(colors.last() != x);
        }
        if colors.last() == x {
            assert(colors[colors.len() - 1] == x);
        }
        if colors.contains(x) && colors.last() != x {
            let i = colors.index_of(x);
            assert(head[i] == x);
        }
    }
}

/// Colors that come once each and hold the color of every pixel occur as often as there
/// are pixels.
proof fn lemma_occurrences_total(colors: Seq<Rgb>, pixels: Seq<Rgb>)
    requires
        colors.no_duplicates(),
        forall|i: int| 0 <= i < pixels.len() ==> colors.contains(#[trigger] pixels[i]),
    ensures
        occurrences(colors, pixels) == pixels.len(),
    decreases pixels.len(),
{
    if pixels.len() == 0 {
        lemma_occurrences_of_none(colors);
        assert(pixels =~= Seq::<Rgb>::empty());
    } else {
        let head = pixels.drop_last();
        assert forall|i: int| 0 <= i < head.len() implies colors.contains(#[trigger] head[i]) by {
            assert(head[i] == pixels[i]);
        }
        lemma_occurrences_total(colors, head);
        lemma_occurrences_step(colors, pixels);
        assert(colors.contains(pixels[pixels.len() - 1]));
    }
}

/// Without pixels nothing occurs.
proof fn lemma_occurrences_of_none(colors: Seq<Rgb>)
    ensures
        occurrences(colors, Seq::empty()) == 0,
    decreases colors.len(),
{
    if colors.len() > 0 {
        lemma_occurrences_of_none(colors.drop_last());
    }
}

/// The counts of a histogram are the occurrences of its colors.
proof fn lemma_total_is_occurrences(counts: Seq<ColorCount>, pixels: Seq<Rgb>)
    requires
        forall|k: int|
            0 <= k < counts.len() ==> (#[trigger] counts[k]).count == count_of(
                pixels,
                counts[k].color,
            ),
    ensures
        total(counts) == occurrences(colors_of_counts(counts), pixels),
    decreases counts.len(),
{
    if counts.len() > 0 {
        let head = counts.drop_last();
        assert forall|k: int| 0 <= k < head.len() implies (#[trigger] head[k]).count == count_of(
            pixels,
            head[k].color,
        ) by {
            assert(head[k] == counts[k]);
        }
        lemma_total_is_occurrences(head, pixels);
        assert(colors_of_counts(counts).drop_last() =~= colors_of_counts(head));
        assert(colors_of_counts(counts).last() == counts.last().color);
        assert(counts.last() == counts[counts.len() - 1]);
    }
}

/// The counts of a histogram add up to the number of pixels, and no color comes twice.
pub proof fn lemma_histogram_total(counts: Seq<ColorCount>, pixels: Seq<Rgb>)
    requires
        is_histogram(counts, pixels),
    ensures
        total(counts) == pixels.len(),
        colors_of_counts(counts).no_duplicates(),
        forall|i: int|
            0 <= i < pixels.len() ==> colors_of_counts(counts).contains(#[trigger] pixels[i]),
{
    let colors = colors_of_counts(counts);
    let keys = Seq::new(counts.len(), |k: int| counts[k].color.packed());
    lemma_first_seen(packed_colors(pixels));
    assert forall|a: int, b: int| 0 <= a < colors.len() && 0 <= b < colors.len() && a
        != b implies colors[a] != colors[b] by {
        assert(keys[a] != keys[b]);
    }
    assert forall|i: int| 0 <= i < pixels.len() implies colors.contains(#[trigger] pixels[i]) by {
        assert(packed_colors(pixels)[i] == pixels[i].packed());
        assert(packed_colors(pixels).contains(pixels[i].packed()));
        assert(keys.contains(pixels[i].packed()));
        let k = keys.index_of(pixels[i].packed());
        assert(keys[k] == pixels[i].packed());
        lemma_packed_injective(counts[k].color, pixels[i]);
        assert(colors[k] == pixels[i]);
    }
    lemma_total_is_occurrences(counts, pixels);
    lemma_occurrences_total(colors, pixels);
}

} // verus!
