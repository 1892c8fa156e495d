use vstd::prelude::*;

verus! {

/// Lowest and highest connex number a cell keeps after the bounds step.
pub const CONNEX_NUMBER_MIN: u32 = 0;

pub const CONNEX_NUMBER_MAX: u32 = 200;

/// The three group levels of connex number `c`: with `t = max(c - 1, 0)`,
/// `g1 = t % 5`, `g2 = (t / 5) % 5` and `g3 = t / 25 + 1`.
pub open spec fn spec_connex_groups(c: u32) -> (u32, u32, u32) {
    let t: int = if c == 0 {
        0
    } else {
        c - 1
    };
    ((t % 5) as u32, ((t / 5) % 5) as u32, (t / 25 + 1) as u32)
}

/// Splits a connex number into its group levels, as the spawn and gamma
/// steps of the board update do.
pub fn connex_groups(c: u32) -> (g: (u32, u32, u32))
    ensures
        g == spec_connex_groups(c),
{
    let temp = c.saturating_sub(1);
    (temp % 5, (temp / 5) % 5, temp / 25 + 1)
}

/// The group levels are the base-5 digits of `max(c - 1, 0)`: the lowest two
/// digits, and one more than the number above them.
pub proof fn lemma_connex_groups_digits(c: u32)
    ensures
        ({
            let (g1, g2, g3) = spec_connex_groups(c);
            &&& g1 < 5
            &&& g2 < 5
            &&& g3 >= 1
            &&& g1 + 5 * g2 + 25 * (g3 - 1) == if c == 0 {
                0
            } else {
                c - 1
            }
        }),
{
}

/// A connex number cut into the allowed range.
pub fn bound_connex(c: u32) -> (r: u32)
    ensures
        r == if c > CONNEX_NUMBER_MAX {
            CONNEX_NUMBER_MAX
        } else {
            c
        },
        CONNEX_NUMBER_MIN <= r <= CONNEX_NUMBER_MAX,
{
    if c > CONNEX_NUMBER_MAX {
        CONNEX_NUMBER_MAX
    } else if c < CONNEX_NUMBER_MIN {
        CONNEX_NUMBER_MIN
    } else {
        c
    }
}

/// The neighbour of cell (`x`, `y`) at offset (`dx`, `dy`) lies on a
/// `width` x `height` board.
pub open spec fn neighbor_on_board(x: int, y: int, dx: int, dy: int, width: int, height: int) -> bool {
    0 <= x + dx < width && 0 <= y + dy < height
}

/// Index of the neighbour of cell (`x`, `y`) at offset (`dx`, `dy`) in the
/// row-major cells of a `width` x `height` board, or `None` when it lies off
/// the board. The update steps compute these indices in `i32`, which is why
/// every cell index must fit there.
pub fn neighbor_index(x: usize, y: usize, dx: i32, dy: i32, width: usize, height: usize) -> (r:
    Option<usize>)
    requires
        x < width,
        y < height,
        width * height <= 0x8000_0000,
    ensures
        r is Some <==> neighbor_on_board(x as int, y as int, dx as int, dy as int, width as int, height as int),
        r matches Some(i) ==> i == (y + dy) * width + x + dx,
        r matches Some(i) ==> i < width * height,
{
    proof {
        assert(width <= 0x8000_0000 && height <= 0x8000_0000) by (nonlinear_arith)
            requires
                x < width,
                y < height,
                width * height <= 0x8000_0000,
        ;
    }
    let xi: i64 = x as i64 + dx as i64;
    let yi: i64 = y as i64 + dy as i64;
    if xi < 0 || yi < 0 || xi >= width as i64 || yi >= height as i64 {
        None
    } else {
        proof {
            assert(yi * width + xi < width * height) by (nonlinear_arith)
                requires
                    0 <= xi < width,
                    0 <= yi < height,
            ;
            assert(0 <= yi * width) by (nonlinear_arith)
                requires
                    0 <= yi,
                    0 <= width,
            ;
        }
        let i: i64 = yi * (width as i64) + xi;
        Some(i as usize)
    }
}

} // verus!
