use crate::random::next_u64;
use rand::rngs::SmallRng;
use vstd::prelude::*;

verus! {

/// A draw is a number below `DRAW_LIMIT`, 2 to the power 53: it stands for
/// the fraction `draw / DRAW_LIMIT` of the unit interval.
pub const DRAW_LIMIT: u64 = 0x20_0000_0000_0000;

/// A marble is diffuse where its choice draw is below this: 0.8 of
/// `DRAW_LIMIT`, rounded to a whole number.
pub const DIFFUSE_BELOW: u64 = 7205759403792794;

/// A marble that is not diffuse is metal where its choice draw is below
/// this: 0.95 of `DRAW_LIMIT`, rounded to a whole number. The rest is glass.
pub const METAL_BELOW: u64 = 8556839292003942;

/// The marbles stand on a square grid: one in each cell `(a, b)` with `a`
/// and `b` from `GRID_FROM` up to, but not including, `GRID_TO`.
pub const GRID_FROM: i32 = -11;

pub const GRID_TO: i32 = 11;

/// The number of cells along one side of the grid.
pub const GRID_SIDE: usize = 22;

/// The three kinds of material a marble can be made of.
#[derive(Clone, Copy, Debug, PartialEq, Eq, Structural)]
pub enum Kind {
    Diffuse,
    Metal,
    Glass,
}

/// What a marble is made of, with the draws that its material is mixed from.
#[derive(Clone, Copy, Debug, PartialEq, Eq, Structural)]
pub enum Finish {
    /// Diffuse: the albedo is red `r0 * r1`, green `g0 * g1`, blue `b0 * b1`.
    Diffuse { r0: u64, r1: u64, g0: u64, g1: u64, b0: u64, b1: u64 },
    /// Metal: each channel of the albedo lies half-way between its draw and
    /// one, and the fuzz is half of its draw.
    Metal { red: u64, green: u64, blue: u64, fuzz: u64 },
    /// Glass, which takes no draw.
    Glass,
}

/// One small sphere of the scene, as the generator laid it out: its cell,
/// the draw that chose its material, the draws that shift its centre within
/// the cell along `x` and `z`, and its finish.
#[derive(Clone, Copy, Debug, PartialEq, Eq, Structural)]
pub struct Marble {
    pub a: i32,
    pub b: i32,
    pub choice: u64,
    pub dx: u64,
    pub dz: u64,
    pub finish: Finish,
}

/// The kind of material that the choice draw `choice` stands for: diffuse
/// for the lowest 80% of the draws, metal for the next 15%, glass above.
pub open spec fn kind_for(choice: u64) -> Kind {
    if choice < DIFFUSE_BELOW {
        Kind::Diffuse
    } else if choice < METAL_BELOW {
        Kind::Metal
    } else {
        Kind::Glass
    }
}

impl Finish {
    /// The kind of material of this finish.
    pub open spec fn kind(self) -> Kind {
        match self {
            Finish::Diffuse { .. } => Kind::Diffuse,
            Finish::Metal { .. } => Kind::Metal,
            Finish::Glass => Kind::Glass,
        }
    }

    /// Whether every draw of the finish is below `DRAW_LIMIT`.
    pub open spec fn drawn(self) -> bool {
        match self {
            Finish::Diffuse { r0, r1, g0, g1, b0, b1 } => {
                &&& r0 < DRAW_LIMIT
                &&& r1 < DRAW_LIMIT
                &&& g0 < DRAW_LIMIT
                &&& g1 < DRAW_LIMIT
                &&& b0 < DRAW_LIMIT
                &&& b1 < DRAW_LIMIT
            },
            Finish::Metal { red, green, blue, fuzz } => {
                &&& red < DRAW_LIMIT
                &&& green < DRAW_LIMIT
                &&& blue < DRAW_LIMIT
                &&& fuzz < DRAW_LIMIT
            },
            Finish::Glass => true,
        }
    }
}

/// The cell of the marble that is laid out as number `index`: the grid is
/// walked column by column, `a` outside and `b` inside, both upwards.
pub open spec fn cell(index: int) -> (int, int) {
    (GRID_FROM + index / (GRID_SIDE as int), GRID_FROM + index % (GRID_SIDE as int))
}

/// Whether `marble` is a marble that the generator can lay out as number
/// `index`: it stands in that cell, its draws are draws, and its finish is
/// of the kind that its choice draw stands for.
pub open spec fn laid_out(marble: Marble, index: int) -> bool {
    &&& (marble.a as int, marble.b as int) == cell(index)
    &&& marble.choice < DRAW_LIMIT
    &&& marble.dx < DRAW_LIMIT
    &&& marble.dz < DRAW_LIMIT
    &&& marble.finish.drawn()
    &&& marble.finish.kind() == kind_for(marble.choice)
}

/// The kind of material that the choice draw `choice` stands for.
pub fn choose_kind(choice: u64) -> (kind: Kind)
    ensures
        kind == kind_for(choice),
{
    if choice < DIFFUSE_BELOW {
        Kind::Diffuse
    } else if choice < METAL_BELOW {
        Kind::Metal
    } else {
        Kind::Glass
    }
}

/// The next draw of the generator: [`draw_of`] its next number.
pub fn draw(rng: &mut SmallRng) -> (d: u64)
    ensures
        d < DRAW_LIMIT,
{
    let raw: u64 = next_u64(rng);
    let d: u64 = draw_of(raw);
    d
}

/// The draw that a number `raw` of the generator stands for: its upper 53
/// bits, that is `raw` divided by 2 to the power 11, rounded down.
pub fn draw_of(raw: u64) -> (d: u64)
    ensures
        d == raw / 2048,
        d < DRAW_LIMIT,
{
    assert(raw >> 11 == raw / 2048 && raw >> 11 < 0x20_0000_0000_0000u64) by (bit_vector);
    raw >> 11
}

/// Draws the finish of a marble of the given kind: six draws for a diffuse
/// one, four for a metal one, each in the order of the fields; none for
/// glass.
pub fn draw_finish(rng: &mut SmallRng, kind: Kind) -> (finish: Finish)
    ensures
        finish.kind() == kind,
        finish.drawn(),
{
    match kind {
        Kind::Diffuse => {
            let r0: u64 = draw(rng);
            let r1: u64 = draw(rng);
            let g0: u64 = draw(rng);
            let g1: u64 = draw(rng);
            let b0: u64 = draw(rng);
            let b1: u64 = draw(rng);
            Finish::Diffuse { r0, r1, g0, g1, b0, b1 }
        },
        Kind::Metal => {
            let red: u64 = draw(rng);
            let green: u64 = draw(rng);
            let blue: u64 = draw(rng);
            let fuzz: u64 = draw(rng);
            Finish::Metal { red, green, blue, fuzz }
        },
        Kind::Glass => Finish::Glass,
    }
}

/// Lays out the marbles of the scene, one in each cell of the grid, in the
/// order of [`cell`]. For each marble the generator is asked, in this order,
/// for the choice draw, the two draws that shift the centre, and the draws
/// of the finish.
pub fn gen_world(rng: &mut SmallRng) -> (marbles: Vec<Marble>)
    ensures
        marbles.len() == GRID_SIDE * GRID_SIDE,
        forall|i: int| 0 <= i < marbles.len() ==> laid_out(#[trigger] marbles[i], i),
{
    let mut marbles: Vec<Marble> = Vec::new();
    let mut a: i32 = GRID_FROM;
    while a < GRID_TO
        invariant
            GRID_FROM <= a <= GRID_TO,
            marbles.len() == (a - GRID_FROM) * GRID_SIDE,
            forall|i: int| 0 <= i < marbles.len() ==> laid_out(#[trigger] marbles[i], i),
        decreases GRID_TO - a,
    {
        let mut b: i32 = GRID_FROM;
        while b < GRID_TO
            invariant
                GRID_FROM <= a < GRID_TO,
                GRID_FROM <= b <= GRID_TO,
                marbles.len() == (a - GRID_FROM) * GRID_SIDE + (b - GRID_FROM),
                forall|i: int| 0 <= i < marbles.len() ==> laid_out(#[trigger] marbles[i], i),
            decreases GRID_TO - b,
        {
            let choice: u64 = draw(rng);
            let dx: u64 = draw(rng);
            let dz: u64 = draw(rng);
            let finish = draw_finish(rng, choose_kind(choice));
            let marble = Marble { a, b, choice, dx, dz, finish };
            assert(laid_out(marble, marbles.len() as int)) by {
                let index = marbles.len() as int;
                assert(index == (a - GRID_FROM) * 22 + (b - GRID_FROM));
                assert(index / 22 == a - GRID_FROM && index % 22 == b - GRID_FROM) by {
                    let q = a - GRID_FROM;
                    let rem = b - GRID_FROM;
                    assert(0 <= rem < 22);
                    vstd::arithmetic::div_mod::lemma_fundamental_div_mod_converse(index, 22, q, rem);
                }
            }
            marbles.push(marble);
            b += 1;
        }
        a += 1;
    }
    marbles
}

/// Every marble stands in a cell of the grid, and no two of them in the
/// same: the cells of two different numbers below the number of cells
/// differ.
pub proof fn lemma_cells_fill_the_grid(index: int, other: int)
    requires
        0 <= index < GRID_SIDE * GRID_SIDE,
        0 <= other < GRID_SIDE * GRID_SIDE,
    ensures
        GRID_FROM <= cell(index).0 < GRID_TO,
        GRID_FROM <= cell(index).1 < GRID_TO,
        index != other ==> cell(index) != cell(other),
{
    vstd::arithmetic::div_mod::lemma_fundamental_div_mod(index, 22);
    vstd::arithmetic::div_mod::lemma_fundamental_div_mod(other, 22);
}

} // verus!
