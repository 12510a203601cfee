use crate::random::{seeded, shuffle};
use vstd::prelude::*;

verus! {

/// The pixel that stands at `index` when the pixels of an image `width`
/// wide are counted row by row: its column and its row.
pub open spec fn coordinate(width: int, index: int) -> (int, int) {
    (index % width, index / width)
}

/// The pixels of an image `width` wide and `height` high, row by row.
pub open spec fn scanline(width: int, height: int) -> Seq<(usize, usize)> {
    Seq::new(
        (width * height) as nat,
        |index: int| (coordinate(width, index).0 as usize, coordinate(width, index).1 as usize),
    )
}

/// Counting row by row, the pixel in column `x` and row `y` stands at index
/// `x + width * y`, and nowhere else.
pub proof fn lemma_pixel_has_one_index(width: int, height: int, x: int, y: int, index: int)
    requires
        0 <= x < width,
        0 <= y < height,
    ensures
        0 <= x + width * y < width * height,
        coordinate(width, x + width * y) == (x, y),
        0 <= index < width * height && coordinate(width, index) == (x, y) ==> index == x + width
            * y,
{
    assert(0 <= x + width * y < width * height) by (nonlinear_arith)
        requires
            0 <= x < width,
            0 <= y < height,
    ;
    assert(x + width * y == width * y + x);
    assert(width * y == y * width) by (nonlinear_arith);
    vstd::arithmetic::div_mod::lemma_fundamental_div_mod_converse(x + width * y, width, y, x);
    if 0 <= index < width * height {
        vstd::arithmetic::div_mod::lemma_fundamental_div_mod(index, width);
    }
}

/// Counting row by row, every index below `width * height` stands for a
/// pixel inside the image.
pub proof fn lemma_index_is_a_pixel(width: int, height: int, index: int)
    requires
        0 <= width,
        0 <= height,
        0 <= index < width * height,
    ensures
        0 <= coordinate(width, index).0 < width,
        0 <= coordinate(width, index).1 < height,
        index == coordinate(width, index).0 + width * coordinate(width, index).1,
{
    assert(width > 0 && height > 0) by (nonlinear_arith)
        requires
            0 <= width,
            0 <= height,
            0 <= index < width * height,
    ;
    vstd::arithmetic::div_mod::lemma_fundamental_div_mod(index, width);
    vstd::arithmetic::div_mod::lemma_mod_bound(index, width);
    vstd::arithmetic::div_mod::lemma_div_pos_is_pos(index, width);
    let row = index / width;
    assert(row < height) by (nonlinear_arith)
        requires
            width > 0,
            row >= 0,
            width * row <= index,
            index < width * height,
    ;
}

/// The pixels of the image, row by row: one unit of work each.
pub fn coordinates(width: usize, height: usize) -> (pixels: Vec<(usize, usize)>)
    requires
        width * height <= usize::MAX,
    ensures
        pixels@ == scanline(width as int, height as int),
{
    let count: usize = width * height;
    let mut pixels: Vec<(usize, usize)> = Vec::new();
    let mut i: usize = 0;
    while i < count
        invariant
            count == width * height,
            i <= count,
            pixels.len() == i,
            forall|k: int|
                0 <= k < i ==> #[trigger] pixels[k] == scanline(width as int, height as int)[k],
        decreases count - i,
    {
        proof {
            lemma_index_is_a_pixel(width as int, height as int, i as int);
        }
        let x: usize = i % width;
        let y: usize = (i / width) % height;
        assert(y == i / width) by {
            vstd::arithmetic::div_mod::lemma_small_mod((i / width) as nat, height as nat);
        }
        pixels.push((x, y));
        i += 1;
    }
    assert(pixels@ =~= scanline(width as int, height as int));
    pixels
}

/// The pixels of the image in the shuffled order in which they are handed
/// out as work, so that the image fills in evenly: every pixel is there, as
/// often as in [`scanline`], that is once (see
/// [`lemma_every_pixel_is_scheduled_once`]); the order is the generator's.
pub fn shuffled(width: usize, height: usize, seed: u64) -> (pixels: Vec<(usize, usize)>)
    requires
        width * height <= usize::MAX,
    ensures
        pixels@.len() == width * height,
        pixels@.to_multiset() == scanline(width as int, height as int).to_multiset(),
{
    let mut pixels = coordinates(width, height);
    let mut rng = seeded(seed);
    shuffle(&mut pixels, &mut rng);
    proof {
        pixels@.to_multiset_ensures();
        scanline(width as int, height as int).to_multiset_ensures();
    }
    pixels
}

/// A schedule that holds the pixels of [`scanline`] in any order holds every
/// pixel of the image exactly once, and nothing else.
pub proof fn lemma_every_pixel_is_scheduled_once(
    width: usize,
    height: usize,
    schedule: Seq<(usize, usize)>,
    x: usize,
    y: usize,
)
    requires
        width * height <= usize::MAX,
        schedule.to_multiset() == scanline(width as int, height as int).to_multiset(),
    ensures
        schedule.len() == width * height,
        x < width && y < height ==> schedule.to_multiset().count((x, y)) == 1,
        !(x < width && y < height) ==> schedule.to_multiset().count((x, y)) == 0,
{
    schedule.to_multiset_ensures();
    scanline(width as int, height as int).to_multiset_ensures();
    let w = width as int;
    let h = height as int;
    let rows = scanline(w, h);
    assert(rows.len() == width * height);
    assert forall|i: int, j: int| 0 <= i < rows.len() && 0 <= j < rows.len() && i != j implies rows[i]
        != rows[j] by {
        lemma_index_is_a_pixel(w, h, i);
        lemma_index_is_a_pixel(w, h, j);
    }
    rows.lemma_multiset_has_no_duplicates();
    if x < width && y < height {
        lemma_pixel_has_one_index(w, h, x as int, y as int, 0);
        let index = x + w * y;
        assert(rows[index] == (x, y));
        assert(rows.contains((x, y)));
    } else if rows.contains((x, y)) {
        let index = choose|index: int| 0 <= index < rows.len() && rows[index] == (x, y);
        lemma_index_is_a_pixel(w, h, index);
    }
}

} // verus!
