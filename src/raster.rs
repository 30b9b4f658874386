use vstd::prelude::*;
use image::{ImageBuffer, Rgb, RgbImage};
use crate::color::Color;
use crate::triangle::{BoundingBox, Point, Triangle};

verus! {

/// An `image::RgbImage`, held whole: Verus refuses a declaration of
/// `image::ImageBuffer` because of the outside `Pixel` bound on its
/// parameter. Only the functions below make or touch one.
#[verifier::external_body]
pub struct PixelBuffer {
    image: RgbImage,
}

/// The channels of each pixel of a buffer, keyed by `(x, y)`, over exactly
/// the pixels inside its dimensions.
pub uninterp spec fn pixels_of(buf: PixelBuffer) -> Map<(int, int), Seq<u8>>;

/// The `(width, height)` of a buffer.
pub uninterp spec fn dimensions_of(buf: PixelBuffer) -> (int, int);

/// Every pixel of a `width` by `height` image with all channels zero.
pub open spec fn blank_pixels(width: int, height: int) -> Map<(int, int), Seq<u8>> {
    Map::new(
        |k: (int, int)| 0 <= k.0 < width && 0 <= k.1 < height,
        |k: (int, int)| seq![0u8, 0u8, 0u8],
    )
}

/// Relies on `image::ImageBuffer::new`: an image of the given size whose
/// subpixels are all zero. It panics when the buffer length
/// `3 * width * height` overflows, or exceeds what a `Vec` can hold.
#[verifier::external_body]
fn new_rgb_image(width: u32, height: u32) -> (img: PixelBuffer)
    requires
        3 * width * height <= isize::MAX,
    ensures
        dimensions_of(img) == (width as int, height as int),
        pixels_of(img) == blank_pixels(width as int, height as int),
{
    PixelBuffer { image: ImageBuffer::new(width, height) }
}

/// Relies on `image::ImageBuffer::put_pixel`: replaces the pixel at
/// `(x, y)` and nothing else. It panics outside the image's dimensions.
#[verifier::external_body]
fn put_rgb_pixel(img: &mut PixelBuffer, x: u32, y: u32, channels: [u8; 3])
    requires
        x < dimensions_of(*old(img)).0,
        y < dimensions_of(*old(img)).1,
    ensures
        dimensions_of(*final(img)) == dimensions_of(*old(img)),
        pixels_of(*final(img)) == pixels_of(*old(img)).insert((x as int, y as int), channels@),
{
    img.image.put_pixel(x, y, Rgb(channels))
}

/// Relies on `image::ImageBuffer::get_pixel`: the channels of the pixel at
/// `(x, y)`. It panics outside the image's dimensions.
#[verifier::external_body]
fn get_rgb_pixel(img: &PixelBuffer, x: u32, y: u32) -> (channels: [u8; 3])
    requires
        x < dimensions_of(*img).0,
        y < dimensions_of(*img).1,
    ensures
        channels@ == pixels_of(*img)[(x as int, y as int)],
{
    img.image.get_pixel(x, y).0
}

/// Relies on `image::ImageBuffer::as_raw`: the subpixels row by row, three
/// per pixel, in a buffer that `ImageBuffer::new` sized exactly.
#[verifier::external_body]
fn raw_rgb_channels(img: &PixelBuffer) -> (raw: Vec<u8>)
    ensures
        raw@.len() == 3 * dimensions_of(*img).0 * dimensions_of(*img).1,
        forall|x: int, y: int, i: int|
            #![trigger pixels_of(*img)[(x, y)][i]]
            0 <= x < dimensions_of(*img).0 && 0 <= y < dimensions_of(*img).1 && 0 <= i < 3
                ==> raw@[3 * (y * dimensions_of(*img).0 + x) + i] == pixels_of(*img)[(x, y)][i],
{
    img.image.as_raw().clone()
}

/// The pixels `triangle` leaves on an image that held `before`: inside its
/// bounding box each pixel takes the triangle's colour at it, elsewhere it
/// keeps what it had.
pub open spec fn painted(
    before: Map<(int, int), Seq<u8>>,
    triangle: Triangle,
) -> Map<(int, int), Seq<u8>> {
    Map::new(
        |k: (int, int)| before.dom().contains(k),
        |k: (int, int)|
            if in_box(triangle.bounding_box_spec(), k) {
                triangle.color_at(Point { x: k.0 as u32, y: k.1 as u32 }).channels_spec()
            } else {
                before[k]
            },
    )
}

pub open spec fn in_box(b: BoundingBox, k: (int, int)) -> bool {
    b.x0 <= k.0 <= b.x1 && b.y0 <= k.1 <= b.y1
}

/// What rasterizing `triangle` onto a blank `width` by `height` image gives.
pub open spec fn rasterized(triangle: Triangle, width: int, height: int) -> Map<(int, int), Seq<u8>> {
    painted(blank_pixels(width, height), triangle)
}

/// The vertices of `triangle` are pixels of a `width` by `height` image.
pub open spec fn fits(triangle: Triangle, width: int, height: int) -> bool {
    &&& triangle.p1.x < width && triangle.p1.y < height
    &&& triangle.p2.x < width && triangle.p2.y < height
    &&& triangle.p3.x < width && triangle.p3.y < height
}

/// Rasterizes `triangle` onto a new `width` by `height` image: the pixels of
/// its bounding box take the triangle's colour, all others the background.
pub fn rasterize(triangle: &Triangle, width: u32, height: u32) -> (img: ImageWrapper)
    requires
        fits(*triangle, width as int, height as int),
        3 * width * height <= isize::MAX,
    ensures
        img.wf(),
        img.width() == width,
        img.height() == height,
        img@ == rasterized(*triangle, width as int, height as int),
{
    let mut img = ImageWrapper::new(width, height);
    img.write(triangle);
    img
}

/// Painting outside the bounding box changes nothing: a pixel there keeps
/// what it had, and on a fresh image stays the background.
pub proof fn lemma_outside_box_untouched(
    before: Map<(int, int), Seq<u8>>,
    triangle: Triangle,
    width: int,
    height: int,
    k: (int, int),
)
    requires
        !in_box(triangle.bounding_box_spec(), k),
    ensures
        before.dom().contains(k) ==> painted(before, triangle)[k] == before[k],
        0 <= k.0 < width && 0 <= k.1 < height ==> rasterized(triangle, width, height)[k]
            == Color::background().channels_spec(),
{
}

/// Rasterizing is reproducible: two images that each hold the rasterization
/// of the same triangle at the same size hold the same pixels, and painting
/// a triangle a second time changes nothing.
pub proof fn lemma_rasterize_reproducible(
    triangle: Triangle,
    width: int,
    height: int,
    first: ImageWrapper,
    second: ImageWrapper,
)
    requires
        first@ == rasterized(triangle, width, height),
        second@ == rasterized(triangle, width, height),
    ensures
        first@ == second@,
        painted(first@, triangle) == first@,
{
    assert(painted(first@, triangle) =~= first@);
}

/// An RGB image that triangles are drawn into.
pub struct ImageWrapper {
    image: PixelBuffer,
}

impl ImageWrapper {
    pub closed spec fn width(self) -> int {
        dimensions_of(self.image).0
    }

    pub closed spec fn height(self) -> int {
        dimensions_of(self.image).1
    }

    /// The stored channels of each pixel, keyed by `(x, y)`.
    pub closed spec fn view(self) -> Map<(int, int), Seq<u8>> {
        pixels_of(self.image)
    }

    /// Every pixel inside the dimensions holds three channels, and no other
    /// pixel exists.
    pub open spec fn wf(self) -> bool {
        &&& 0 <= self.width() <= u32::MAX
        &&& 0 <= self.height() <= u32::MAX
        &&& forall|k: (int, int)|
            #![trigger self@.dom().contains(k)]
            self@.dom().contains(k) <==> (0 <= k.0 < self.width() && 0 <= k.1 < self.height())
        &&& forall|k: (int, int)| #[trigger] self@.dom().contains(k) ==> self@[k].len() == 3
    }

    /// A `width` by `height` image filled with the background colour.
    pub fn new(width: u32, height: u32) -> (img: ImageWrapper)
        requires
            3 * width * height <= isize::MAX,
        ensures
            img.wf(),
            img.width() == width,
            img.height() == height,
            img@ == blank_pixels(width as int, height as int),
    {
        let image = new_rgb_image(width, height);
        ImageWrapper { image }
    }

    /// The colour stored at pixel `(x, y)`.
    pub fn pixel(&self, x: u32, y: u32) -> (c: Color)
        requires
            self.wf(),
            x < self.width(),
            y < self.height(),
        ensures
            c.channels_spec() == self@[(x as int, y as int)],
    {
        let channels = get_rgb_pixel(&self.image, x, y);
        Color::from_channels(channels)
    }

    /// The stored channels, row by row and three per pixel, as the output
    /// pixel format lays them out.
    pub fn to_raw(&self) -> (raw: Vec<u8>)
        requires
            self.wf(),
        ensures
            raw@.len() == 3 * self.width() * self.height(),
            forall|x: int, y: int, i: int|
                #![trigger self@[(x, y)][i]]
                0 <= x < self.width() && 0 <= y < self.height() && 0 <= i < 3
                    ==> raw@[3 * (y * self.width() + x) + i] == self@[(x, y)][i],
    {
        raw_rgb_channels(&self.image)
    }

    /// Colours every pixel of the triangle's bounding box with the
    /// triangle's colour at that pixel; every other pixel is left as it was.
    pub fn write(&mut self, triangle: &Triangle)
        requires
            old(self).wf(),
            fits(*triangle, old(self).width(), old(self).height()),
        ensures
            final(self).wf(),
            final(self).width() == old(self).width(),
            final(self).height() == old(self).height(),
            final(self)@ == painted(old(self)@, *triangle),
    {
        let ghost before = self@;
        let ghost target = painted(before, *triangle);
        let bounds = triangle.get_bounding_box();
        let mut x: u64 = bounds.x0 as u64;
        while x <= bounds.x1 as u64
            invariant
                bounds == triangle.bounding_box_spec(),
                bounds.x0 <= x <= bounds.x1 + 1,
                bounds.x1 < self.width(),
                bounds.y1 < self.height(),
                self.wf(),
                self.width() == old(self).width(),
                self.height() == old(self).height(),
                target == painted(before, *triangle),
                self@.dom() == before.dom(),
                forall|k: (int, int)|
                    #![trigger self@[k]]
                    self@.dom().contains(k) ==> self@[k] == (if in_box(bounds, k) && k.0 < x {
                        target[k]
                    } else {
                        before[k]
                    }),
            decreases bounds.x1 + 1 - x,
        {
            let mut y: u64 = bounds.y0 as u64;
            while y <= bounds.y1 as u64
                invariant
                    bounds == triangle.bounding_box_spec(),
                    bounds.x0 <= x <= bounds.x1,
                    bounds.y0 <= y <= bounds.y1 + 1,
                    bounds.x1 < self.width(),
                    bounds.y1 < self.height(),
                    self.wf(),
                    self.width() == old(self).width(),
                    self.height() == old(self).height(),
                    target == painted(before, *triangle),
                    self@.dom() == before.dom(),
                    forall|k: (int, int)|
                        #![trigger self@[k]]
                        self@.dom().contains(k) ==> self@[k] == (if in_box(bounds, k) && (k.0 < x
                            || (k.0 == x && k.1 < y)) {
                            target[k]
                        } else {
                            before[k]
                        }),
                decreases bounds.y1 + 1 - y,
            {
                let point = Point { x: x as u32, y: y as u32 };
                let color = triangle.get_color(&point);
                let channels = color.channels();
                let ghost mid = self@;
                put_rgb_pixel(&mut self.image, x as u32, y as u32, channels);
                proof {
                    let key = (x as int, y as int);
                    assert(mid.dom().contains(key));
                    assert(self@ == mid.insert(key, channels@));
                    assert(self@.dom() =~= before.dom());
                    assert(in_box(bounds, key));
                    assert(target[key] == channels@);
                    assert forall|k: (int, int)| #[trigger] self@.dom().contains(k) implies self@[k].len() == 3 by {
                        if k != key {
                            assert(mid.dom().contains(k));
                        }
                    }
                    assert forall|k: (int, int)|
                        #![trigger self@.dom().contains(k)]
                        self@.dom().contains(k) <==> (0 <= k.0 < self.width() && 0 <= k.1 < self.height()) by {
                        assert(mid.dom().contains(k) == self@.dom().contains(k));
                    }
                    assert forall|k: (int, int)| #[trigger] self@.dom().contains(k) implies self@[k] == (if in_box(bounds, k) && (k.0 < x
                            || (k.0 == x && k.1 < y + 1)) {
                            target[k]
                        } else {
                            before[k]
                        }) by {
                        if k != key {
                            assert(mid.dom().contains(k));
                            assert(self@[k] == mid[k]);
                        }
                    }
                }
                y = y + 1;
            }
            x = x + 1;
        }
        assert(self@ =~= target);
    }
}

} // verus!
