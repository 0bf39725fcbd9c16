//! The pixel buffer: a rectangular grid of 8-bit RGB samples.
use crate::color::{lemma_quantized_steps_of_255, quantize_fraction};
use crate::decimal::{decimal, lemma_decimal_len_small, push_decimal, push_decimal_width3, right_aligned3};
use vstd::prelude::*;

verus! {

/// One 8-bit RGB sample.
#[derive(Clone, Copy, Debug, PartialEq, Eq, Structural)]
pub struct Pixel {
    pub r: u8,
    pub g: u8,
    pub b: u8,
}

/// The black pixel, every channel zero.
pub open spec fn zero_pixel() -> Pixel {
    Pixel { r: 0, g: 0, b: 0 }
}

impl Default for Pixel {
    fn default() -> (p: Pixel)
        ensures
            p == zero_pixel(),
    {
        Pixel { r: 0, g: 0, b: 0 }
    }
}

/// `g` has `height` rows, each of `width` pixels.
pub open spec fn has_shape(g: Seq<Seq<Pixel>>, height: nat, width: nat) -> bool {
    &&& g.len() == height
    &&& forall|row: int| 0 <= row < g.len() ==> (#[trigger] g[row]).len() == width
}

/// `g` is a non-empty rectangle: at least one row, at least one column,
/// and every row as long as the first.
pub open spec fn is_grid(g: Seq<Seq<Pixel>>) -> bool {
    &&& g.len() > 0
    &&& g[0].len() > 0
    &&& has_shape(g, g.len(), g[0].len())
}

/// An image: rows top to bottom, each row's pixels left to right.
pub struct Image {
    pixels: Vec<Vec<Pixel>>,
}

impl View for Image {
    type V = Seq<Seq<Pixel>>;

    closed spec fn view(&self) -> Seq<Seq<Pixel>> {
        self.pixels@.map_values(|row: Vec<Pixel>| row@)
    }
}

impl Image {
    /// The buffer is a non-empty rectangle.
    pub open spec fn wf(&self) -> bool {
        is_grid(self@)
    }

    /// The number of rows.
    pub open spec fn spec_height(&self) -> nat {
        self@.len()
    }

    /// The number of columns.
    pub open spec fn spec_width(&self) -> nat {
        self@[0].len()
    }

    /// An image of `height` rows and `width` columns, every pixel black.
    pub fn new(height: usize, width: usize) -> (img: Image)
        requires
            height > 0,
            width > 0,
        ensures
            img.wf(),
            has_shape(img@, height as nat, width as nat),
            forall|row: int, col: int|
                0 <= row < height && 0 <= col < width ==> #[trigger] img@[row][col]
                    == zero_pixel(),
    {
        let mut pixels: Vec<Vec<Pixel>> = Vec::with_capacity(height);
        let mut i: usize = 0;
        while i < height
            invariant
                i <= height,
                pixels@.len() == i,
                forall|row: int| 0 <= row < i ==> (#[trigger] pixels@[row])@ =~= Seq::new(width as nat, |c: int| zero_pixel()),
            decreases height - i,
        {
            let mut line: Vec<Pixel> = Vec::with_capacity(width);
            let mut j: usize = 0;
            while j < width
                invariant
                    j <= width,
                    line@ =~= Seq::new(j as nat, |c: int| zero_pixel()),
                decreases width - j,
            {
                line.push(Pixel::default());
                j = j + 1;
            }
            pixels.push(line);
            i = i + 1;
        }
        let img = Image { pixels };
        assert(img@.len() == height);
        assert forall|row: int| 0 <= row < height implies #[trigger] img@[row] =~= Seq::new(width as nat, |c: int| zero_pixel()) by {
            assert(img@[row] == img.pixels@[row]@);
        }
        img
    }

    /// An image of `height` rows and `width` columns whose pixel at
    /// `(row, col)` is `init(row, col)`. The calls are made in row-major order.
    pub fn new_with_init(height: usize, width: usize, init: impl Fn(usize, usize) -> Pixel) -> (img: Image)
        requires
            height > 0,
            width > 0,
            forall|row: usize, col: usize|
                row < height && col < width ==> #[trigger] init.requires((row, col)),
        ensures
            img.wf(),
            has_shape(img@, height as nat, width as nat),
            forall|row: usize, col: usize|
                row < height && col < width ==> init.ensures((row, col), #[trigger] img@[row as int][col as int]),
    {
        let mut pixels: Vec<Vec<Pixel>> = Vec::with_capacity(height);
        let mut row: usize = 0;
        while row < height
            invariant
                row <= height,
                pixels@.len() == row,
                forall|r: int| 0 <= r < row ==> (#[trigger] pixels@[r])@.len() == width,
                forall|r: usize, c: usize|
                    r < row && c < width ==> init.ensures((r, c), #[trigger] pixels@[r as int]@[c as int]),
                forall|r: usize, c: usize|
                    r < height && c < width ==> #[trigger] init.requires((r, c)),
            decreases height - row,
        {
            let mut line: Vec<Pixel> = Vec::with_capacity(width);
            let mut col: usize = 0;
            while col < width
                invariant
                    row < height,
                    col <= width,
                    line@.len() == col,
                    forall|c: usize| c < col ==> init.ensures((row, c), #[trigger] line@[c as int]),
                    forall|r: usize, c: usize|
                        r < height && c < width ==> #[trigger] init.requires((r, c)),
                decreases width - col,
            {
                let p = init(row, col);
                line.push(p);
                col = col + 1;
            }
            pixels.push(line);
            row = row + 1;
        }
        let img = Image { pixels };
        assert forall|r: int| 0 <= r < height implies #[trigger] img@[r] == img.pixels@[r]@ by {}
        img
    }

    /// The number of rows.
    pub fn height(&self) -> (h: usize)
        requires
            self.wf(),
        ensures
            h == self.spec_height(),
    {
        self.pixels.len()
    }

    /// The number of columns.
    pub fn width(&self) -> (w: usize)
        requires
            self.wf(),
        ensures
            w == self.spec_width(),
    {
        self.pixels[0].len()
    }
}

/// The pixel of the sample gradient at `(row, col)`.
pub open spec fn gradient_pixel(row: int, col: int) -> Pixel {
    Pixel { r: col as u8, g: row as u8, b: 0 }
}

/// A 256 by 256 gradient: red grows from 0 to 1 left to right, green from
/// 0 to 1 top to bottom, blue stays 0. Quantized, the pixel at `(row, col)`
/// is exactly `(col, row, 0)`.
pub fn sample_image() -> (img: Image)
    ensures
        img.wf(),
        has_shape(img@, 256, 256),
        forall|row: int, col: int|
            0 <= row < 256 && 0 <= col < 256 ==> #[trigger] img@[row][col] == gradient_pixel(row, col),
{
    let image_width: usize = 256;
    let image_height: usize = 256;
    let img = Image::new_with_init(
        image_height,
        image_width,
        |row: usize, col: usize| -> (p: Pixel)
            requires
                row < image_height,
                col < image_width,
            ensures
                p == gradient_pixel(row as int, col as int)
            {
                proof {
                    lemma_quantized_steps_of_255(col as nat);
                    lemma_quantized_steps_of_255(row as nat);
                }
                Pixel {
                    r: quantize_fraction(col, image_width - 1),
                    g: quantize_fraction(row, image_height - 1),
                    b: 0,
                }
            },
    );
    assert forall|row: int, col: int| 0 <= row < 256 && 0 <= col < 256 implies #[trigger] img@[row][col]
        == gradient_pixel(row, col) by {
        let (r, c) = (row as usize, col as usize);
        assert(img@[r as int][c as int] == img@[row][col]);
    }
    img
}

/// The text of one pixel: its three channels in decimal, each right-aligned
/// in three characters, separated by single spaces.
pub open spec fn pixel_text(p: Pixel) -> Seq<char> {
    right_aligned3(decimal(p.r as nat)) + seq![' '] + right_aligned3(decimal(p.g as nat)) + seq![' ']
        + right_aligned3(decimal(p.b as nat))
}

/// One line per pixel of `row`, left to right, each ended by a newline.
pub open spec fn row_lines(row: Seq<Pixel>) -> Seq<char>
    decreases row.len(),
{
    if row.len() == 0 {
        Seq::empty()
    } else {
        row_lines(row.drop_last()) + pixel_text(row.last()) + seq!['\n']
    }
}

/// The pixel lines of every row of `g`, top to bottom.
pub open spec fn grid_lines(g: Seq<Seq<Pixel>>) -> Seq<char>
    decreases g.len(),
{
    if g.len() == 0 {
        Seq::empty()
    } else {
        grid_lines(g.drop_last()) + row_lines(g.last())
    }
}

/// The header of the pixel-map text: the format tag, the width and height,
/// and the largest channel value `255`, one per line.
pub open spec fn ppm_header(width: nat, height: nat) -> Seq<char> {
    seq!['P', '3', '\n'] + decimal(width) + seq![' '] + decimal(height) + seq!['\n', '2', '5', '5', '\n']
}

/// The whole pixel-map text of the grid `g`: the header, then one line per
/// pixel in row-major order.
pub open spec fn ppm_text(g: Seq<Seq<Pixel>>) -> Seq<char> {
    ppm_header(g[0].len(), g.len()) + grid_lines(g)
}

/// Each pixel's text is eleven characters wide.
pub proof fn lemma_pixel_text_len(p: Pixel)
    ensures
        pixel_text(p).len() == 11,
{
    lemma_decimal_len_small(p.r as nat);
    lemma_decimal_len_small(p.g as nat);
    lemma_decimal_len_small(p.b as nat);
}

/// A row of `n` pixels takes `n` lines of twelve characters each.
pub proof fn lemma_row_lines_len(row: Seq<Pixel>)
    ensures
        row_lines(row).len() == 12 * row.len(),
    decreases row.len(),
{
    if row.len() > 0 {
        lemma_row_lines_len(row.drop_last());
        lemma_pixel_text_len(row.last());
    }
}

/// Below the header, the text of a `height` by `width` grid holds exactly
/// `height * width` pixel lines, twelve characters each with its line end.
pub proof fn lemma_grid_lines_len(g: Seq<Seq<Pixel>>, height: nat, width: nat)
    requires
        has_shape(g, height, width),
    ensures
        grid_lines(g).len() == 12 * height * width,
    decreases g.len(),
{
    if g.len() > 0 {
        let rest = g.drop_last();
        assert(has_shape(rest, (height - 1) as nat, width)) by {
            assert forall|row: int| 0 <= row < rest.len() implies (#[trigger] rest[row]).len() == width by {
                assert(rest[row] == g[row]);
            }
        }
        lemma_grid_lines_len(rest, (height - 1) as nat, width);
        lemma_row_lines_len(g.last());
        assert(12 * height * width == 12 * (height - 1) * width + 12 * width) by (nonlinear_arith)
            requires
                height > 0,
        ;
    }
}

/// The text depends on the pixels alone: serializing an image twice, or
/// serializing two images that hold the same pixels, gives the same text.
pub proof fn lemma_text_depends_on_pixels_only(a: &Image, b: &Image)
    requires
        a.wf(),
        a@ == b@,
    ensures
        b.wf(),
        ppm_text(a@) == ppm_text(b@),
{
}

/// A value seen through the plain-text pixel-map format.
pub struct PPM<'a, T>(pub &'a T);

fn push_pixel(out: &mut String, p: Pixel)
    ensures
        final(out)@ == old(out)@ + pixel_text(p),
{
    proof {
        reveal_strlit(" ");
    }
    let ghost start = out@;
    push_decimal_width3(out, p.r);
    out.append(" ");
    push_decimal_width3(out, p.g);
    out.append(" ");
    push_decimal_width3(out, p.b);
    assert(out@ =~= start + pixel_text(p));
}

impl<'a> PPM<'a, Pixel> {
    /// The pixel's text, without a line end.
    pub fn to_text(&self) -> (s: String)
        ensures
            s@ == pixel_text(*self.0),
    {
        let mut s = String::new();
        push_pixel(&mut s, *self.0);
        assert(s@ =~= pixel_text(*self.0));
        s
    }
}

impl<'a> PPM<'a, Image> {
    /// The image's whole pixel-map text.
    pub fn to_text(&self) -> (s: String)
        requires
            self.0.wf(),
        ensures
            s@ == ppm_text(self.0@),
    {
        proof {
            reveal_strlit("P3\n");
            reveal_strlit(" ");
            reveal_strlit("\n255\n");
        }
        let img = self.0;
        let ghost g = img@;
        let mut s = String::new();
        s.append("P3\n");
        push_decimal(&mut s, img.width());
        s.append(" ");
        push_decimal(&mut s, img.height());
        s.append("\n255\n");
        let ghost header = s@;
        assert(header =~= ppm_header(g[0].len(), g.len()));
        let height = img.pixels.len();
        let width = img.pixels[0].len();
        let mut row: usize = 0;
        while row < height
            invariant
                is_grid(g),
                g == img@,
                height == g.len(),
                width == g[0].len(),
                row <= height,
                s@ == header + grid_lines(g.take(row as int)),
            decreases height - row,
        {
            assert(img@[row as int] == img.pixels@[row as int]@);
            let line = &img.pixels[row];
            let mut col: usize = 0;
            while col < width
                invariant
                    is_grid(g),
                    g == img@,
                    height == g.len(),
                    width == g[0].len(),
                    row < height,
                    col <= width,
                    line@ == g[row as int],
                    s@ == header + grid_lines(g.take(row as int)) + row_lines(g[row as int].take(col as int)),
                decreases width - col,
            {
                let ghost before = s@;
                push_pixel(&mut s, line[col]);
                proof {
                    reveal_strlit("\n");
                }
                s.append("\n");
                proof {
                    let r = g[row as int];
                    assert(r.take(col + 1).drop_last() =~= r.take(col as int));
                    assert(s@ =~= before + pixel_text(r[col as int]) + seq!['\n']);
                    assert(s@ =~= header + grid_lines(g.take(row as int)) + row_lines(r.take(col + 1)));
                }
                col = col + 1;
            }
            proof {
                assert(g[row as int].take(width as int) =~= g[row as int]);
                assert(g.take(row + 1).drop_last() =~= g.take(row as int));
                assert(g.take(row + 1).last() == g[row as int]);
                assert(s@ =~= header + grid_lines(g.take(row + 1)));
            }
            row = row + 1;
        }
        assert(g.take(height as int) =~= g);
        s
    }
}

} // verus!
