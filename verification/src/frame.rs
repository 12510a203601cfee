use crate::pixel::Pixel;
use crate::schedule::{lemma_every_pixel_is_scheduled_once, lemma_pixel_has_one_index, scanline};
use vstd::prelude::*;

verus! {

/// The pixels after the pixel in column `x` and row `y` of an image `width`
/// wide and `height` high has been set to `pixel`: a place outside the image
/// changes nothing.
pub open spec fn stored(
    pixels: Seq<Pixel>,
    width: int,
    height: int,
    x: int,
    y: int,
    pixel: Pixel,
) -> Seq<Pixel> {
    if 0 <= x < width && 0 <= y < height {
        pixels.update(x + width * y, pixel)
    } else {
        pixels
    }
}

/// The pixels after `updates` have been stored one after another, first
/// update first.
pub open spec fn painted(
    pixels: Seq<Pixel>,
    width: int,
    height: int,
    updates: Seq<((usize, usize), Pixel)>,
) -> Seq<Pixel>
    decreases updates.len(),
{
    if updates.len() == 0 {
        pixels
    } else {
        let ((x, y), pixel) = updates.last();
        stored(
            painted(pixels, width, height, updates.drop_last()),
            width,
            height,
            x as int,
            y as int,
            pixel,
        )
    }
}

/// The bytes of `pixels` in the order red, green, blue, pixel after pixel.
pub open spec fn channels(pixels: Seq<Pixel>) -> Seq<u8> {
    Seq::new(
        3 * pixels.len(),
        |k: int|
            if k % 3 == 0 {
                pixels[k / 3].r
            } else if k % 3 == 1 {
                pixels[k / 3].g
            } else {
                pixels[k / 3].b
            },
    )
}

/// The image that is being rendered: `width * height` pixels, row by row.
pub struct Frame {
    width: usize,
    height: usize,
    pixels: Vec<Pixel>,
}

impl View for Frame {
    type V = Seq<Pixel>;

    /// The pixels, row by row.
    closed spec fn view(&self) -> Seq<Pixel> {
        self.pixels@
    }
}

impl Frame {
    /// Whether the frame holds as many pixels as its size asks for. `new`
    /// makes such a frame and every method keeps it so.
    pub closed spec fn well_formed(&self) -> bool {
        &&& self.pixels.len() == self.width * self.height
        &&& 3 * self.pixels.len() <= usize::MAX
    }

    /// The number of columns.
    pub closed spec fn columns(&self) -> int {
        self.width as int
    }

    /// The number of rows.
    pub closed spec fn rows(&self) -> int {
        self.height as int
    }

    /// A well-formed frame holds one pixel for each place of the image.
    pub proof fn lemma_holds_every_pixel(&self)
        requires
            self.well_formed(),
        ensures
            self@.len() == self.columns() * self.rows(),
            3 * self@.len() <= usize::MAX,
    {
    }

    /// A black image `width` wide and `height` high.
    pub fn new(width: usize, height: usize) -> (frame: Self)
        requires
            3 * (width * height) <= usize::MAX,
        ensures
            frame.well_formed(),
            frame.columns() == width,
            frame.rows() == height,
            frame@ == Seq::new((width * height) as nat, |i: int| Pixel { r: 0, g: 0, b: 0 }),
    {
        let count: usize = width * height;
        let mut pixels: Vec<Pixel> = Vec::new();
        let mut i: usize = 0;
        while i < count
            invariant
                i <= count,
                pixels.len() == i,
                forall|k: int| 0 <= k < i ==> #[trigger] pixels[k] == (Pixel { r: 0, g: 0, b: 0 }),
            decreases count - i,
        {
            pixels.push(Pixel::default());
            i += 1;
        }
        assert(pixels@ =~= Seq::new(
            (width * height) as nat,
            |i: int| Pixel { r: 0, g: 0, b: 0 },
        ));
        Frame { width, height, pixels }
    }

    /// The number of columns.
    pub fn width(&self) -> (width: usize)
        ensures
            width == self.columns(),
    {
        self.width
    }

    /// The number of rows.
    pub fn height(&self) -> (height: usize)
        ensures
            height == self.rows(),
    {
        self.height
    }

    /// The pixel in column `x` and row `y`, or `None` outside the image.
    pub fn get(&self, x: usize, y: usize) -> (pixel: Option<Pixel>)
        requires
            self.well_formed(),
        ensures
            self@.len() == self.columns() * self.rows(),
            x < self.columns() && y < self.rows() ==> 0 <= x + self.columns() * y < self@.len()
                && pixel == Some(self@[x + self.columns() * y]),
            !(x < self.columns() && y < self.rows()) ==> pixel is None,
    {
        if x < self.width && y < self.height {
            proof {
                lemma_inside(self.width as int, self.height as int, x as int, y as int);
            }
            Some(self.pixels[x + self.width * y])
        } else {
            None
        }
    }

    /// Sets the pixel in column `x` and row `y`, and says whether there is
    /// such a pixel: a place outside the image is left alone.
    pub fn put(&mut self, x: usize, y: usize, pixel: Pixel) -> (inside: bool)
        requires
            old(self).well_formed(),
        ensures
            final(self).well_formed(),
            final(self).columns() == old(self).columns(),
            final(self).rows() == old(self).rows(),
            inside == (x < old(self).columns() && y < old(self).rows()),
            final(self)@ == stored(
                old(self)@,
                old(self).columns(),
                old(self).rows(),
                x as int,
                y as int,
                pixel,
            ),
    {
        if x < self.width && y < self.height {
            proof {
                lemma_inside(self.width as int, self.height as int, x as int, y as int);
            }
            let index: usize = x + self.width * y;
            self.pixels.set(index, pixel);
            true
        } else {
            false
        }
    }

    /// Stores the updates that have arrived, in the order of their arrival,
    /// and says whether there was any.
    pub fn drain(&mut self, updates: &Vec<((usize, usize), Pixel)>) -> (updated: bool)
        requires
            old(self).well_formed(),
        ensures
            final(self).well_formed(),
            final(self).columns() == old(self).columns(),
            final(self).rows() == old(self).rows(),
            updated == (updates.len() > 0),
            final(self)@ == painted(old(self)@, old(self).columns(), old(self).rows(), updates@),
    {
        let mut i: usize = 0;
        while i < updates.len()
            invariant
                i <= updates.len(),
                self.well_formed(),
                self.columns() == old(self).columns(),
                self.rows() == old(self).rows(),
                self@ == painted(
                    old(self)@,
                    old(self).columns(),
                    old(self).rows(),
                    updates@.take(i as int),
                ),
            decreases updates.len() - i,
        {
            let ((x, y), pixel) = updates[i];
            proof {
                assert(updates@.take(i + 1).drop_last() == updates@.take(i as int));
                assert(updates@.take(i + 1).last() == updates@[i as int]);
            }
            self.put(x, y, pixel);
            i += 1;
        }
        assert(updates@.take(i as int) == updates@);
        updates.len() > 0
    }

    /// The image as bytes for a display: three for each pixel, in the order
    /// red, green, blue, the pixels row by row.
    pub fn bytes(&self) -> (out: Vec<u8>)
        requires
            self.well_formed(),
        ensures
            out@ == channels(self@),
    {
        let mut out: Vec<u8> = Vec::new();
        let mut i: usize = 0;
        while i < self.pixels.len()
            invariant
                i <= self.pixels.len(),
                3 * self.pixels.len() <= usize::MAX,
                out.len() == 3 * i,
                forall|k: int| 0 <= k < 3 * i ==> #[trigger] out[k] == channels(self.pixels@)[k],
            decreases self.pixels.len() - i,
        {
            let pixel = self.pixels[i];
            out.push(pixel.r);
            out.push(pixel.g);
            out.push(pixel.b);
            i += 1;
        }
        assert(out@ =~= channels(self@));
        out
    }
}

/// A pixel inside the image has its index inside the row-by-row sequence.
pub proof fn lemma_inside(width: int, height: int, x: int, y: int)
    requires
        0 <= x < width,
        0 <= y < height,
    ensures
        0 <= x + width * y < width * height,
        0 <= width * y,
{
    assert(0 <= x + width * y < width * height && 0 <= width * y) by (nonlinear_arith)
        requires
            0 <= x < width,
            0 <= y < height,
    ;
}

/// Storing updates never changes the number of pixels.
pub proof fn lemma_painted_keeps_size(
    pixels: Seq<Pixel>,
    width: int,
    height: int,
    updates: Seq<((usize, usize), Pixel)>,
)
    requires
        pixels.len() == width * height,
    ensures
        painted(pixels, width, height, updates).len() == pixels.len(),
    decreases updates.len(),
{
    if updates.len() > 0 {
        lemma_painted_keeps_size(pixels, width, height, updates.drop_last());
        let ((x, y), pixel) = updates.last();
        if 0 <= x < width && 0 <= y < height {
            lemma_inside(width, height, x as int, y as int);
        }
    }
}

/// What a pixel shows after `updates` that showed `before`: what the last
/// update that is addressed to its column `x` and row `y` brought, and
/// `before` if none is.
pub open spec fn shown(
    before: Pixel,
    updates: Seq<((usize, usize), Pixel)>,
    x: usize,
    y: usize,
) -> Pixel
    decreases updates.len(),
{
    if updates.len() == 0 {
        before
    } else if updates.last().0 == (x, y) {
        updates.last().1
    } else {
        shown(before, updates.drop_last(), x, y)
    }
}

/// Storing a pixel changes what its own place shows and no other.
pub proof fn lemma_stored_shows(
    pixels: Seq<Pixel>,
    width: int,
    height: int,
    at_x: usize,
    at_y: usize,
    pixel: Pixel,
    x: usize,
    y: usize,
)
    requires
        pixels.len() == width * height,
        x < width,
        y < height,
    ensures
        0 <= x + width * y < pixels.len(),
        stored(pixels, width, height, at_x as int, at_y as int, pixel).len() == pixels.len(),
        stored(pixels, width, height, at_x as int, at_y as int, pixel)[x + width * y] == if (
            at_x,
            at_y,
        ) == (x, y) {
            pixel
        } else {
            pixels[x + width * y]
        },
{
    lemma_inside(width, height, x as int, y as int);
    if at_x < width && at_y < height {
        lemma_inside(width, height, at_x as int, at_y as int);
        lemma_pixel_has_one_index(width, height, at_x as int, at_y as int, x + width * y);
        lemma_pixel_has_one_index(width, height, x as int, y as int, 0);
    }
}

/// After updates have been stored, the pixel in column `x` and row `y` of
/// the image shows the last update that was addressed to it, and what it
/// showed before if none was.
pub proof fn lemma_painted_shows(
    pixels: Seq<Pixel>,
    width: int,
    height: int,
    updates: Seq<((usize, usize), Pixel)>,
    x: usize,
    y: usize,
)
    requires
        pixels.len() == width * height,
        x < width,
        y < height,
    ensures
        0 <= x + width * y < pixels.len(),
        painted(pixels, width, height, updates).len() == pixels.len(),
        painted(pixels, width, height, updates)[x + width * y] == shown(
            pixels[x + width * y],
            updates,
            x,
            y,
        ),
    decreases updates.len(),
{
    lemma_inside(width, height, x as int, y as int);
    if updates.len() > 0 {
        let earlier = painted(pixels, width, height, updates.drop_last());
        lemma_painted_shows(pixels, width, height, updates.drop_last(), x, y);
        let ((at_x, at_y), pixel) = updates.last();
        lemma_stored_shows(earlier, width, height, at_x, at_y, pixel, x, y);
    }
}

/// An update that no later update to the same place follows is what the
/// place shows.
pub proof fn lemma_shown_is_last_update(
    before: Pixel,
    updates: Seq<((usize, usize), Pixel)>,
    x: usize,
    y: usize,
    k: int,
)
    requires
        0 <= k < updates.len(),
        updates[k].0 == (x, y),
        forall|j: int| k < j < updates.len() ==> (#[trigger] updates[j]).0 != (x, y),
    ensures
        shown(before, updates, x, y) == updates[k].1,
    decreases updates.len(),
{
    if k < updates.len() - 1 {
        let earlier = updates.drop_last();
        assert(updates[updates.len() - 1].0 != (x, y));
        assert(earlier[k] == updates[k]);
        assert forall|j: int| k < j < earlier.len() implies (#[trigger] earlier[j]).0 != (x, y) by {
            assert(earlier[j] == updates[j]);
        }
        lemma_shown_is_last_update(before, earlier, x, y, k);
    }
}

/// A place that no update is addressed to shows what it showed before.
pub proof fn lemma_shown_without_update(
    before: Pixel,
    updates: Seq<((usize, usize), Pixel)>,
    x: usize,
    y: usize,
)
    requires
        forall|j: int| 0 <= j < updates.len() ==> (#[trigger] updates[j]).0 != (x, y),
    ensures
        shown(before, updates, x, y) == before,
    decreases updates.len(),
{
    if updates.len() > 0 {
        let earlier = updates.drop_last();
        assert(updates[updates.len() - 1].0 != (x, y));
        assert forall|j: int| 0 <= j < earlier.len() implies (#[trigger] earlier[j]).0 != (x, y) by {
            assert(earlier[j] == updates[j]);
        }
        lemma_shown_without_update(before, earlier, x, y);
    }
}

/// The pixels that `updates` are addressed to, in the order of the updates.
pub open spec fn addressed(updates: Seq<((usize, usize), Pixel)>) -> Seq<(usize, usize)> {
    updates.map_values(|update: ((usize, usize), Pixel)| update.0)
}

/// One pass over a schedule fills the frame: when the updates are addressed
/// to the pixels of the image in any order, each pixel once, then after they
/// have been stored every pixel shows the one update that was addressed to
/// it.
pub proof fn lemma_full_pass_fills_frame(
    pixels: Seq<Pixel>,
    width: usize,
    height: usize,
    updates: Seq<((usize, usize), Pixel)>,
    x: usize,
    y: usize,
)
    requires
        width * height <= usize::MAX,
        pixels.len() == width * height,
        addressed(updates).to_multiset() == scanline(width as int, height as int).to_multiset(),
        x < width,
        y < height,
    ensures
        0 <= x + width * y < pixels.len(),
        painted(pixels, width as int, height as int, updates).len() == pixels.len(),
        exists|k: int|
            {
                &&& 0 <= k < updates.len()
                &&& (#[trigger] updates[k]).0 == (x, y)
                &&& forall|j: int|
                    0 <= j < updates.len() && j != k ==> (#[trigger] updates[j]).0 != (x, y)
                &&& painted(pixels, width as int, height as int, updates)[x + width * y]
                    == updates[k].1
            },
{
    let places = addressed(updates);
    places.to_multiset_ensures();
    assert forall|place: (usize, usize)| places.to_multiset().contains(place) implies places.to_multiset().count(
        place,
    ) == 1 by {
        lemma_every_pixel_is_scheduled_once(width, height, places, place.0, place.1);
    }
    places.lemma_multiset_has_no_duplicates_conv();
    lemma_every_pixel_is_scheduled_once(width, height, places, x, y);
    assert(places.contains((x, y)));
    let k = choose|k: int| 0 <= k < places.len() && places[k] == (x, y);
    assert(updates[k].0 == (x, y));
    assert forall|j: int| 0 <= j < updates.len() && j != k implies (#[trigger] updates[j]).0 != (
        x,
        y,
    ) by {
        assert(places[j] == updates[j].0);
    }
    lemma_shown_is_last_update(pixels[x + width * y], updates, x, y, k);
    lemma_painted_shows(pixels, width as int, height as int, updates, x, y);
}

} // verus!
