use vstd::prelude::*;

verus! {

/// One pixel: red, green, blue and alpha.
#[derive(Clone, Copy, Debug, PartialEq, Eq, Structural)]
pub struct Pixel {
    pub r: u8,
    pub g: u8,
    pub b: u8,
    pub a: u8,
}

/// An RGBA image of the `image` crate: an `ImageBuffer` of `Rgba<u8>` over a
/// `Vec<u8>`. Nothing of it is visible to the verifier but through
/// `raster_samples` and `raster_size`.
#[verifier::external_body]
pub struct Raster {
    buffer: image::ImageBuffer<image::Rgba<u8>, Vec<u8>>,
}

/// The sample buffer of an image: row after row, four samples to a pixel.
pub uninterp spec fn raster_samples(img: Raster) -> Seq<u8>;

/// The width and the height of an image, in pixels.
pub uninterp spec fn raster_size(img: Raster) -> (nat, nat);

/// The PNG file that the `image` crate writes for a buffer of RGBA samples
/// taken as an image of the given width and height; `None` where it reports
/// an error instead.
pub uninterp spec fn png_encoding(samples: Seq<u8>, width: nat, height: nat) -> Option<Seq<u8>>;

/// `image::ImageError`, the error of the `image` crate. It is carried from
/// the encoder to the caller and never looked into.
#[verifier::external_type_specification]
#[verifier::external_body]
pub struct ExImageError(image::ImageError);

/// Where the first sample of the pixel at (`x`, `y`) lies in the buffer of
/// an image that is `width` pixels wide.
pub open spec fn sample_index(width: nat, x: int, y: int) -> int {
    4 * (y * width + x)
}

/// The pixel at (`x`, `y`) of a sample buffer.
pub open spec fn pixel_at(samples: Seq<u8>, width: nat, x: int, y: int) -> Pixel {
    let i = sample_index(width, x, y);
    Pixel { r: samples[i], g: samples[i + 1], b: samples[i + 2], a: samples[i + 3] }
}

/// The sample buffer with the pixel at (`x`, `y`) replaced.
pub open spec fn with_pixel(samples: Seq<u8>, width: nat, x: int, y: int, p: Pixel) -> Seq<u8> {
    let i = sample_index(width, x, y);
    samples.update(i, p.r).update(i + 1, p.g).update(i + 2, p.b).update(i + 3, p.a)
}

impl Raster {
    /// The width of the image.
    pub open spec fn spec_width(&self) -> nat {
        raster_size(*self).0
    }

    /// The height of the image.
    pub open spec fn spec_height(&self) -> nat {
        raster_size(*self).1
    }

    /// The pixel at (`x`, `y`).
    pub open spec fn spec_pixel(&self, x: int, y: int) -> Pixel {
        pixel_at(raster_samples(*self), self.spec_width(), x, y)
    }

    /// The buffer holds at least the samples of every pixel.
    pub open spec fn covers(&self) -> bool {
        raster_samples(*self).len() >= 4 * self.spec_width() * self.spec_height()
    }

    /// `ImageBuffer::new`: an image of the given size whose samples are all
    /// zero. It counts the samples of one row and then of all rows, and
    /// panics where either count overflows `usize`, which `requires` leaves
    /// out.
    #[verifier::external_body]
    pub(crate) fn zeroed(width: u32, height: u32) -> (img: Raster)
        requires
            4 * width <= usize::MAX,
            4 * width * height <= usize::MAX,
        ensures
            raster_size(img) == (width as nat, height as nat),
            raster_samples(img) == Seq::new((4 * width * height) as nat, |i: int| 0u8),
    {
        Raster { buffer: image::ImageBuffer::new(width, height) }
    }

    /// `ImageBuffer::from_raw`: the image over the given buffer, or `None`
    /// where the samples of one row cannot be counted in a `usize` or the
    /// buffer is shorter than four samples for each pixel.
    #[verifier::external_body]
    pub(crate) fn over(width: u32, height: u32, samples: Vec<u8>) -> (r: Option<Raster>)
        ensures
            match r {
                Some(img) => 4 * width <= usize::MAX && 4 * width * height <= samples@.len()
                    && raster_size(img) == (width as nat, height as nat) && raster_samples(img)
                    == samples@,
                None => 4 * width > usize::MAX || 4 * width * height > samples@.len(),
            },
    {
        match image::ImageBuffer::from_raw(width, height, samples) {
            Some(buffer) => Some(Raster { buffer }),
            None => None,
        }
    }

    /// `ImageBuffer::width`.
    #[verifier::external_body]
    pub(crate) fn width(&self) -> (w: u32)
        ensures
            w == self.spec_width(),
    {
        self.buffer.width()
    }

    /// `ImageBuffer::height`.
    #[verifier::external_body]
    pub(crate) fn height(&self) -> (h: u32)
        ensures
            h == self.spec_height(),
    {
        self.buffer.height()
    }

    /// `ImageBuffer::get_pixel`: the four samples of the pixel at
    /// (`x`, `y`). It panics outside the image, which `requires` leaves out.
    #[verifier::external_body]
    pub(crate) fn pixel_unchecked(&self, x: u32, y: u32) -> (p: Pixel)
        requires
            x < self.spec_width(),
            y < self.spec_height(),
        ensures
            p == self.spec_pixel(x as int, y as int),
    {
        let rgba = self.buffer.get_pixel(x, y);
        Pixel { r: rgba[0], g: rgba[1], b: rgba[2], a: rgba[3] }
    }

    /// `ImageBuffer::put_pixel`: overwrites the four samples of the pixel at
    /// (`x`, `y`) and nothing else. It panics outside the image, which
    /// `requires` leaves out.
    #[verifier::external_body]
    pub(crate) fn put_unchecked(&mut self, x: u32, y: u32, p: Pixel)
        requires
            x < old(self).spec_width(),
            y < old(self).spec_height(),
        ensures
            raster_size(*final(self)) == raster_size(*old(self)),
            raster_samples(*final(self)) == with_pixel(
                raster_samples(*old(self)),
                old(self).spec_width(),
                x as int,
                y as int,
                p,
            ),
    {
        self.buffer.put_pixel(x, y, image::Rgba([p.r, p.g, p.b, p.a]));
    }

    /// `PngEncoder::new` and `PngEncoder::encode`, on the whole sample
    /// buffer, with the image's own width and height, as 8-bit RGBA: the
    /// bytes of the PNG file, or the error of the encoder.
    #[verifier::external_body]
    pub(crate) fn encode_png(&self) -> (r: Result<Vec<u8>, image::ImageError>)
        ensures
            match r {
                Ok(bytes) => png_encoding(
                    raster_samples(*self),
                    self.spec_width(),
                    self.spec_height(),
                ) == Some(bytes@),
                Err(_) => png_encoding(
                    raster_samples(*self),
                    self.spec_width(),
                    self.spec_height(),
                ) is None,
            },
    {
        let mut out = std::io::Cursor::new(Vec::new());
        let encoder = image::png::PngEncoder::new(&mut out);
        let (width, height) = (self.buffer.width(), self.buffer.height());
        match encoder.encode(self.buffer.as_raw(), width, height, image::ColorType::Rgba8) {
            Ok(()) => Ok(out.into_inner()),
            Err(e) => Err(e),
        }
    }

    /// The width and the height of the image, in pixels.
    pub fn dimensions(&self) -> (d: (u32, u32))
        ensures
            d.0 == self.spec_width(),
            d.1 == self.spec_height(),
    {
        (self.width(), self.height())
    }

    /// Reads the pixel at (`x`, `y`); `None` outside the image.
    pub fn pixel(&self, x: u32, y: u32) -> (p: Option<Pixel>)
        ensures
            p == if x < self.spec_width() && y < self.spec_height() {
                Some(self.spec_pixel(x as int, y as int))
            } else {
                None
            },
    {
        if x < self.width() && y < self.height() {
            Some(self.pixel_unchecked(x, y))
        } else {
            None
        }
    }
}

/// Distinct pixels of an image lie at distinct places of its buffer, all of
/// them inside the samples that the image covers.
pub proof fn lemma_sample_index(width: nat, height: nat, x: int, y: int)
    requires
        0 <= x < width,
        0 <= y < height,
    ensures
        0 <= sample_index(width, x, y),
        sample_index(width, x, y) + 4 <= 4 * width * height,
        forall|x2: int, y2: int|
            0 <= x2 < width && 0 <= y2 < height && (x2 != x || y2 != y) ==> (#[trigger] sample_index(
                width,
                x2,
                y2,
            ) + 4 <= sample_index(width, x, y) || sample_index(width, x, y) + 4 <= sample_index(
                width,
                x2,
                y2,
            )),
{
    assert(y * width + x + 1 <= width * height) by (nonlinear_arith)
        requires
            0 <= x < width,
            0 <= y < height,
    ;
    assert(0 <= y * width) by (nonlinear_arith)
        requires
            0 <= y,
            0 <= width,
    ;
    assert(4 * width * height == 4 * (width * height)) by (nonlinear_arith);
    assert forall|x2: int, y2: int|
        0 <= x2 < width && 0 <= y2 < height && (x2 != x || y2 != y) implies (#[trigger] sample_index(
        width,
        x2,
        y2,
    ) + 4 <= sample_index(width, x, y) || sample_index(width, x, y) + 4 <= sample_index(
        width,
        x2,
        y2,
    )) by {
        assert(y2 * width + x2 != y * width + x) by (nonlinear_arith)
            requires
                0 <= x2 < width,
                0 <= x < width,
                0 <= y,
                0 <= y2,
                x2 != x || y2 != y,
        ;
    }
}

/// Replacing one pixel of a buffer changes that pixel and no other.
pub proof fn lemma_with_pixel(samples: Seq<u8>, width: nat, height: nat, x: int, y: int, p: Pixel)
    requires
        samples.len() >= 4 * width * height,
        0 <= x < width,
        0 <= y < height,
    ensures
        with_pixel(samples, width, x, y, p).len() == samples.len(),
        pixel_at(with_pixel(samples, width, x, y, p), width, x, y) == p,
        forall|x2: int, y2: int|
            0 <= x2 < width && 0 <= y2 < height && (x2 != x || y2 != y) ==> #[trigger] pixel_at(
                with_pixel(samples, width, x, y, p),
                width,
                x2,
                y2,
            ) == pixel_at(samples, width, x2, y2),
{
    lemma_sample_index(width, height, x, y);
    assert forall|x2: int, y2: int|
        0 <= x2 < width && 0 <= y2 < height && (x2 != x || y2 != y) implies #[trigger] pixel_at(
        with_pixel(samples, width, x, y, p),
        width,
        x2,
        y2,
    ) == pixel_at(samples, width, x2, y2) by {
        lemma_sample_index(width, height, x2, y2);
        assert(sample_index(width, x2, y2) + 4 <= sample_index(width, x, y) || sample_index(
            width,
            x,
            y,
        ) + 4 <= sample_index(width, x2, y2));
    }
}

/// One of the four samples of a pixel.
pub open spec fn channel(p: Pixel, j: int) -> u8 {
    if j == 0 {
        p.r
    } else if j == 1 {
        p.g
    } else if j == 2 {
        p.b
    } else {
        p.a
    }
}

/// The sample buffer of the square image of `side` by `side` pixels whose
/// pixel at (`x`, `y`) is `pixel(x, y)`.
pub open spec fn samples_of(side: nat, pixel: spec_fn(int, int) -> Pixel) -> Seq<u8> {
    Seq::new(
        4 * side * side,
        |i: int| channel(pixel((i / 4) % (side as int), (i / 4) / (side as int)), i % 4),
    )
}

/// A buffer that holds exactly a square image is fixed by its pixels.
pub proof fn lemma_samples_of(samples: Seq<u8>, side: nat, pixel: spec_fn(int, int) -> Pixel)
    requires
        samples.len() == 4 * side * side,
        forall|x: int, y: int|
            0 <= x < side && 0 <= y < side ==> #[trigger] pixel_at(samples, side, x, y) == pixel(
                x,
                y,
            ),
    ensures
        samples == samples_of(side, pixel),
{
    assert(4 * side * side == 4 * (side * side)) by (nonlinear_arith);
    assert forall|i: int| 0 <= i < samples.len() implies samples[i] == samples_of(
        side,
        pixel,
    )[i] by {
        let k = i / 4;
        let x = k % (side as int);
        let y = k / (side as int);
        assert(side > 0) by (nonlinear_arith)
            requires
                0 <= k < side * side,
        ;
        vstd::arithmetic::div_mod::lemma_fundamental_div_mod(k, side as int);
        assert(0 <= y < side) by (nonlinear_arith)
            requires
                0 <= k < side * side,
                k == side * y + x,
                0 <= x < side,
        ;
        assert(y * side == side * y) by (nonlinear_arith);
        assert(pixel_at(samples, side, x, y) == pixel(x, y));
    }
}

} // verus!
