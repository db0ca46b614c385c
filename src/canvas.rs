//! The accumulator canvas: an RGBA8 image whose first three channels count
//! visits (saturating at 255) and whose fourth channel is the coverage channel.
use vstd::arithmetic::div_mod::lemma_fundamental_div_mod;
use vstd::prelude::*;

verus! {

/// A fixed-size RGBA8 image, four samples per pixel, pixels stored row by row.
///
/// Its contents are seen through `canvas_bytes`, `canvas_width` and
/// `canvas_height`.
#[verifier::external_body]
pub struct Canvas {
    image: image::ImageBuffer<image::Rgba<u8>, Vec<u8>>,
}

/// The samples held by a canvas, four per pixel, pixels row by row.
pub uninterp spec fn canvas_bytes(c: Canvas) -> Seq<u8>;

/// The width of a canvas in pixels.
pub uninterp spec fn canvas_width(c: Canvas) -> u32;

/// The height of a canvas in pixels.
pub uninterp spec fn canvas_height(c: Canvas) -> u32;

/// Relies on `ImageBuffer::new`: an image of the given size, every sample zero.
/// It panics when `4 * width * height` overflows `usize`.
#[verifier::external_body]
fn blank_image(width: u32, height: u32) -> (r: Canvas)
    requires
        4 * width * height <= usize::MAX,
    ensures
        canvas_width(r) == width,
        canvas_height(r) == height,
        canvas_bytes(r) == Seq::new((4 * width * height) as nat, |i: int| 0u8),
{
    Canvas { image: image::ImageBuffer::new(width, height) }
}

/// Relies on `ImageBuffer::width`.
#[verifier::external_body]
fn image_width(c: &Canvas) -> (r: u32)
    ensures
        r == canvas_width(*c),
{
    c.image.width()
}

/// Relies on `ImageBuffer::height`.
#[verifier::external_body]
fn image_height(c: &Canvas) -> (r: u32)
    ensures
        r == canvas_height(*c),
{
    c.image.height()
}

/// Relies on `ImageBuffer::get_pixel`: the four samples of pixel `(col, row)`,
/// which start at sample `(row * width + col) * 4`. It panics outside the image.
#[verifier::external_body]
fn pixel_at(c: &Canvas, col: u32, row: u32) -> (r: [u8; 4])
    requires
        canvas_wf(*c),
        col < canvas_width(*c),
        row < canvas_height(*c),
    ensures
        r@ == canvas_bytes(*c).subrange(
            pixel_start(canvas_width(*c) as int, row as int, col as int),
            pixel_start(canvas_width(*c) as int, row as int, col as int) + 4,
        ),
{
    c.image.get_pixel(col, row).0
}

/// Relies on `ImageBuffer::put_pixel`: it replaces the four samples of pixel
/// `(col, row)` and nothing else. It panics outside the image.
#[verifier::external_body]
fn put_pixel_at(c: &mut Canvas, col: u32, row: u32, px: [u8; 4])
    requires
        canvas_wf(*old(c)),
        col < canvas_width(*old(c)),
        row < canvas_height(*old(c)),
    ensures
        canvas_width(*final(c)) == canvas_width(*old(c)),
        canvas_height(*final(c)) == canvas_height(*old(c)),
        canvas_bytes(*final(c)) == with_pixel(
            canvas_bytes(*old(c)),
            pixel_start(canvas_width(*old(c)) as int, row as int, col as int),
            px@,
        ),
{
    c.image.put_pixel(col, row, image::Rgba(px))
}

/// Relies on `ImageBuffer::into_raw`: the samples that the image holds.
#[verifier::external_body]
fn image_into_raw(c: Canvas) -> (r: Vec<u8>)
    ensures
        r@ == canvas_bytes(c),
{
    c.image.into_raw()
}

/// Relies on `ImageBuffer::as_raw`: a copy of the samples that the image holds.
#[verifier::external_body]
fn image_raw_copy(c: &Canvas) -> (r: Vec<u8>)
    ensures
        r@ == canvas_bytes(*c),
{
    c.image.as_raw().clone()
}

/// The index of the first sample of pixel `(col, row)` in an image `width` wide.
pub open spec fn pixel_start(width: int, row: int, col: int) -> int {
    (row * width + col) * 4
}

/// The samples `bytes` with the four that start at `start` replaced by `px`.
pub open spec fn with_pixel(bytes: Seq<u8>, start: int, px: Seq<u8>) -> Seq<u8> {
    Seq::new(bytes.len(), |k: int| if start <= k < start + 4 { px[k - start] } else { bytes[k] })
}

/// A canvas holds exactly four samples per pixel, and their count fits in `usize`.
pub open spec fn canvas_wf(c: Canvas) -> bool {
    &&& canvas_bytes(c).len() == 4 * canvas_width(c) * canvas_height(c)
    &&& 4 * canvas_width(c) * canvas_height(c) <= usize::MAX
}

/// A visit channel after one more visit: one higher, but never above 255.
pub open spec fn saturating_inc(v: u8) -> u8 {
    if v < 255 {
        (v + 1) as u8
    } else {
        255
    }
}

/// Whether cell `(row, col)` lies on a canvas of the given size.
pub open spec fn in_canvas(width: int, height: int, row: int, col: int) -> bool {
    0 <= row < height && 0 <= col < width
}

/// The samples after one plot at `(row, col)`: the three visit channels of
/// that pixel go up by one, saturating; a cell off the canvas changes nothing.
pub open spec fn plot_bytes(bytes: Seq<u8>, width: int, height: int, row: int, col: int) -> Seq<u8> {
    if in_canvas(width, height, row, col) {
        let i = pixel_start(width, row, col);
        bytes.update(i, saturating_inc(bytes[i])).update(i + 1, saturating_inc(bytes[i + 1])).update(
            i + 2,
            saturating_inc(bytes[i + 2]),
        )
    } else {
        bytes
    }
}

/// The samples after plotting each cell of `cells`, in order.
pub open spec fn plot_all(bytes: Seq<u8>, width: int, height: int, cells: Seq<(i64, i64)>) -> Seq<
    u8,
>
    decreases cells.len(),
{
    if cells.len() == 0 {
        bytes
    } else {
        let last = cells.last();
        plot_bytes(plot_all(bytes, width, height, cells.drop_last()), width, height, last.0 as int, last.1 as int)
    }
}

/// The samples with every coverage channel set to 255 and the rest kept.
pub open spec fn finalized(bytes: Seq<u8>) -> Seq<u8> {
    Seq::new(bytes.len(), |k: int| if k % 4 == 3 { 255u8 } else { bytes[k] })
}

/// Plotting the same cell `n` times leaves each of its visit channels at
/// `min(255, v + n)` for its value `v` before, never higher, and keeps its
/// coverage channel.
pub proof fn lemma_repeated_plot_saturates(bytes: Seq<u8>, width: u32, height: u32, row: i64, col: i64, n: nat)
    requires
        bytes.len() == 4 * width * height,
        in_canvas(width as int, height as int, row as int, col as int),
    ensures
        ({
            let after = plot_all(bytes, width as int, height as int, Seq::new(n, |t: int| (row, col)));
            let i = pixel_start(width as int, row as int, col as int);
            &&& after.len() == bytes.len()
            &&& forall|ch: int|
                0 <= ch < 3 ==> #[trigger] after[i + ch] as int == if bytes[i + ch] + n <= 255 {
                    bytes[i + ch] + n
                } else {
                    255
                }
            &&& after[i + 3] == bytes[i + 3]
        }),
    decreases n,
{
    let i = pixel_start(width as int, row as int, col as int);
    lemma_pixel_in_range(width as int, height as int, row as int, col as int);
    if n > 0 {
        let cells = Seq::new(n, |t: int| (row, col));
        let fewer = Seq::new((n - 1) as nat, |t: int| (row, col));
        assert(cells.drop_last() =~= fewer);
        lemma_repeated_plot_saturates(bytes, width, height, row, col, (n - 1) as nat);
        lemma_plot_all_len(bytes, width, height, fewer);
    }
}

/// A plot writes nowhere but inside the canvas: a cell on the canvas changes
/// only the three visit samples of its own pixel, which lie within the
/// samples, and a cell off the canvas changes nothing.
pub proof fn lemma_plot_in_bounds(bytes: Seq<u8>, width: u32, height: u32, row: i64, col: i64)
    requires
        bytes.len() == 4 * width * height,
    ensures
        ({
            let after = plot_bytes(bytes, width as int, height as int, row as int, col as int);
            let i = pixel_start(width as int, row as int, col as int);
            &&& after.len() == bytes.len()
            &&& in_canvas(width as int, height as int, row as int, col as int) ==> {
                &&& 0 <= i
                &&& i + 4 <= bytes.len()
                &&& forall|k: int| 0 <= k < bytes.len() && !(i <= k < i + 3) ==> #[trigger] after[k] == bytes[k]
            }
            &&& !in_canvas(width as int, height as int, row as int, col as int) ==> after == bytes
        }),
{
    if in_canvas(width as int, height as int, row as int, col as int) {
        lemma_pixel_in_range(width as int, height as int, row as int, col as int);
    }
}

/// Plotting never changes the number of samples.
pub proof fn lemma_plot_all_len(bytes: Seq<u8>, width: u32, height: u32, cells: Seq<(i64, i64)>)
    requires
        bytes.len() == 4 * width * height,
    ensures
        plot_all(bytes, width as int, height as int, cells).len() == bytes.len(),
    decreases cells.len(),
{
    if cells.len() > 0 {
        lemma_plot_all_len(bytes, width, height, cells.drop_last());
        let (row, col) = cells.last();
        if in_canvas(width as int, height as int, row as int, col as int) {
            lemma_pixel_in_range(width as int, height as int, row as int, col as int);
        }
    }
}

/// Whatever cells are plotted, in whatever order, no sample goes down, and
/// every coverage channel keeps its value.
pub proof fn lemma_plot_all_monotone(bytes: Seq<u8>, width: u32, height: u32, cells: Seq<(i64, i64)>)
    requires
        bytes.len() == 4 * width * height,
    ensures
        ({
            let after = plot_all(bytes, width as int, height as int, cells);
            &&& after.len() == bytes.len()
            &&& forall|k: int| 0 <= k < bytes.len() ==> bytes[k] <= #[trigger] after[k]
            &&& forall|k: int| 0 <= k < bytes.len() && k % 4 == 3 ==> #[trigger] after[k] == bytes[k]
        }),
    decreases cells.len(),
{
    lemma_plot_all_len(bytes, width, height, cells);
    if cells.len() > 0 {
        let before = plot_all(bytes, width as int, height as int, cells.drop_last());
        lemma_plot_all_monotone(bytes, width, height, cells.drop_last());
        let (row, col) = cells.last();
        if in_canvas(width as int, height as int, row as int, col as int) {
            lemma_pixel_in_range(width as int, height as int, row as int, col as int);
            let i = pixel_start(width as int, row as int, col as int);
            assert(i % 4 == 0);
            assert((i + 1) % 4 == 1);
            assert((i + 2) % 4 == 2);
        }
    }
}

proof fn lemma_pixel_in_range(width: int, height: int, row: int, col: int)
    requires
        in_canvas(width, height, row, col),
    ensures
        0 <= pixel_start(width, row, col),
        pixel_start(width, row, col) + 4 <= 4 * width * height,
{
    assert(0 <= row * width + col) by (nonlinear_arith)
        requires
            0 <= row,
            0 <= col < width,
    ;
    assert(row * width + col + 1 <= width * height) by (nonlinear_arith)
        requires
            0 <= row < height,
            0 <= col < width,
    ;
    assert(4 * width * height == 4 * (width * height)) by (nonlinear_arith);
}

impl Canvas {
    /// A canvas of `width` by `height` pixels with every sample zero.
    pub fn new(width: u32, height: u32) -> (r: Canvas)
        requires
            4 * width * height <= usize::MAX,
        ensures
            canvas_wf(r),
            canvas_width(r) == width,
            canvas_height(r) == height,
            canvas_bytes(r) == Seq::new((4 * width * height) as nat, |i: int| 0u8),
    {
        blank_image(width, height)
    }

    /// The width in pixels.
    pub fn width(&self) -> (r: u32)
        ensures
            r == canvas_width(*self),
    {
        image_width(self)
    }

    /// The height in pixels.
    pub fn height(&self) -> (r: u32)
        ensures
            r == canvas_height(*self),
    {
        image_height(self)
    }

    /// Records one visit of cell `(row, col)`: the three visit channels of that
    /// pixel go up by one, saturating at 255; the coverage channel is kept.
    /// A cell off the canvas is dropped.
    pub fn plot(&mut self, row: i64, col: i64)
        requires
            canvas_wf(*old(self)),
        ensures
            canvas_wf(*final(self)),
            canvas_width(*final(self)) == canvas_width(*old(self)),
            canvas_height(*final(self)) == canvas_height(*old(self)),
            canvas_bytes(*final(self)) == plot_bytes(
                canvas_bytes(*old(self)),
                canvas_width(*old(self)) as int,
                canvas_height(*old(self)) as int,
                row as int,
                col as int,
            ),
    {
        let width = image_width(self);
        let height = image_height(self);
        if 0 <= row && row < height as i64 && 0 <= col && col < width as i64 {
            let r = row as u32;
            let c = col as u32;
            proof {
                lemma_pixel_in_range(width as int, height as int, row as int, col as int);
            }
            let px = pixel_at(self, c, r);
            let visited: [u8; 4] = [
                px[0].saturating_add(1),
                px[1].saturating_add(1),
                px[2].saturating_add(1),
                px[3],
            ];
            put_pixel_at(self, c, r, visited);
            assert(canvas_bytes(*self) =~= plot_bytes(
                canvas_bytes(*old(self)),
                width as int,
                height as int,
                row as int,
                col as int,
            ));
        }
    }

    /// Sets the coverage channel of every pixel to 255; the visit channels are kept.
    pub fn finalize(&mut self)
        requires
            canvas_wf(*old(self)),
        ensures
            canvas_wf(*final(self)),
            canvas_width(*final(self)) == canvas_width(*old(self)),
            canvas_height(*final(self)) == canvas_height(*old(self)),
            canvas_bytes(*final(self)) == finalized(canvas_bytes(*old(self))),
    {
        let width = image_width(self);
        let height = image_height(self);
        let ghost start = canvas_bytes(*self);
        assert(width as int * height as int <= usize::MAX) by (nonlinear_arith)
            requires
                4 * width * height <= usize::MAX,
        ;
        assert(4 * width * height == 4 * (width * height)) by (nonlinear_arith);
        let count: usize = width as usize * height as usize;
        let mut p: usize = 0;
        while p < count
            invariant
                canvas_wf(*self),
                canvas_width(*self) == width,
                canvas_height(*self) == height,
                count == width * height,
                p <= count,
                start.len() == 4 * count,
                canvas_bytes(*self).len() == start.len(),
                forall|k: int|
                    0 <= k < 4 * p ==> #[trigger] canvas_bytes(*self)[k] == finalized(start)[k],
                forall|k: int| 4 * p <= k < start.len() ==> #[trigger] canvas_bytes(*self)[k] == start[k],
            decreases count - p,
        {
            assert(width > 0) by (nonlinear_arith)
                requires
                    p < width * height,
            ;
            let q = p / width as usize;
            let m = p % width as usize;
            proof {
                lemma_fundamental_div_mod(p as int, width as int);
                assert(q < height) by (nonlinear_arith)
                    requires
                        p < width * height,
                        p == width * q + m,
                        0 <= m,
                        width > 0,
                ;
            }
            let col = m as u32;
            let row = q as u32;
            assert(pixel_start(width as int, row as int, col as int) == 4 * p) by (nonlinear_arith)
                requires
                    p == width * q + m,
                    row == q,
                    col == m,
            ;
            let px = pixel_at(self, col, row);
            let opaque: [u8; 4] = [px[0], px[1], px[2], 255];
            put_pixel_at(self, col, row, opaque);
            p = p + 1;
        }
        assert(canvas_bytes(*self) =~= finalized(start));
    }

    /// Sets every sample of every pixel to zero, keeping the size.
    pub fn clear(&mut self)
        requires
            canvas_wf(*old(self)),
        ensures
            canvas_wf(*final(self)),
            canvas_width(*final(self)) == canvas_width(*old(self)),
            canvas_height(*final(self)) == canvas_height(*old(self)),
            canvas_bytes(*final(self)) == Seq::new(canvas_bytes(*old(self)).len(), |i: int| 0u8),
    {
        let width = image_width(self);
        let height = image_height(self);
        *self = blank_image(width, height);
    }

    /// The four samples of the pixel in `row` and `col`: three visit channels,
    /// then the coverage channel.
    pub fn pixel(&self, row: u32, col: u32) -> (r: [u8; 4])
        requires
            canvas_wf(*self),
            row < canvas_height(*self),
            col < canvas_width(*self),
        ensures
            r@ == canvas_bytes(*self).subrange(
                pixel_start(canvas_width(*self) as int, row as int, col as int),
                pixel_start(canvas_width(*self) as int, row as int, col as int) + 4,
            ),
    {
        pixel_at(self, col, row)
    }

    /// A copy of the samples of the canvas, four per pixel (visit, visit,
    /// visit, coverage), pixels row by row: an RGBA8 bitmap.
    pub fn rgba_bytes(&self) -> (r: Vec<u8>)
        ensures
            r@ == canvas_bytes(*self),
    {
        image_raw_copy(self)
    }

    /// The samples of the canvas, four per pixel (visit, visit, visit,
    /// coverage), pixels row by row: an RGBA8 bitmap.
    pub fn into_rgba_bytes(self) -> (r: Vec<u8>)
        ensures
            r@ == canvas_bytes(self),
    {
        image_into_raw(self)
    }
}

} // verus!
