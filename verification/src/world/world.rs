use vstd::prelude::*;

use crate::util::point::Point;
use crate::world::swap_buffer::SwapBuffer;

verus! {

/// A rectangular part of the board, `start` inclusive and `end` exclusive.
#[derive(PartialEq, Eq, Structural, Default, Clone, Copy, Debug)]
pub struct BoardSlice {
    pub start: Point<usize>,
    pub end: Point<usize>,
    pub width: usize,
    pub height: usize,
    pub size: usize,
}

impl BoardSlice {
    /// The cached dimensions agree with the corners.
    pub open spec fn wf(self) -> bool {
        &&& self.start.x <= self.end.x
        &&& self.start.y <= self.end.y
        &&& self.width == self.end.x - self.start.x
        &&& self.height == self.end.y - self.start.y
        &&& self.size == self.width * self.height
    }

    pub fn new(start: Point<usize>, end: Point<usize>) -> (s: Self)
        requires
            start.x <= end.x,
            start.y <= end.y,
            (end.x - start.x) * (end.y - start.y) <= usize::MAX,
        ensures
            s.start == start,
            s.end == end,
            s.width == end.x - start.x,
            s.height == end.y - start.y,
            s.size == (end.x - start.x) * (end.y - start.y),
            s.wf(),
    {
        let diff = Point::new(end.x - start.x, end.y - start.y);
        BoardSlice { start, end, width: diff.x, height: diff.y, size: diff.x * diff.y }
    }
}

/// `floor(log2(n))`, with the logarithm of 0 and of 1 taken as 0.
pub open spec fn floor_log2(n: nat) -> nat
    decreases n,
{
    if n <= 1 {
        0
    } else {
        1 + floor_log2(n / 2)
    }
}

/// `n.ilog2()` for a positive `n`.
pub fn ilog2(n: u32) -> (k: u32)
    requires
        n >= 1,
    ensures
        k == floor_log2(n as nat),
        k < 32,
{
    proof {
        lemma_floor_log2_u32(n);
    }
    let mut v: u32 = n;
    let mut k: u32 = 0;
    while v > 1
        invariant
            1 <= v <= n,
            k + floor_log2(v as nat) == floor_log2(n as nat),
            k + floor_log2(v as nat) < 32,
        decreases v,
    {
        assert(floor_log2(v as nat) == 1 + floor_log2((v / 2) as nat));
        v = v / 2;
        k = k + 1;
    }
    k
}

proof fn lemma_floor_log2_bound(n: nat, b: nat)
    requires
        n < vstd::arithmetic::power2::pow2(b),
    ensures
        b > 0 ==> floor_log2(n) < b,
        b == 0 ==> floor_log2(n) == 0,
    decreases n,
{
    vstd::arithmetic::power2::lemma_pow2_pos(b);
    vstd::arithmetic::power2::lemma2_to64();
    if n > 1 {
        assert(b > 0);
        vstd::arithmetic::power2::lemma_pow2_unfold(b);
        assert(n / 2 < vstd::arithmetic::power2::pow2((b - 1) as nat));
        lemma_floor_log2_bound(n / 2, (b - 1) as nat);
        if b == 1 {
            assert(n / 2 == 0);
        }
    }
}

proof fn lemma_floor_log2_u32(n: u32)
    ensures
        floor_log2(n as nat) < 32,
{
    vstd::arithmetic::power2::lemma2_to64();
    lemma_floor_log2_bound(n as nat, 32);
}

/// Side length of the square chunks that the board is cut into for a view
/// `extent` cells across: the largest power of two not above the extent.
pub open spec fn chunk_size(extent: u32) -> i32 {
    1i32 << (floor_log2(if extent == 0 { 1 } else { extent as nat }) as u32)
}

/// `x` rounded down to a multiple of the power of two `c`.
pub open spec fn chunk_floor(x: i32, c: i32) -> i32 {
    x & !((c - 1) as i32)
}

/// `v` cut into `0..=bound`.
pub open spec fn clamp_coord(v: int, bound: usize) -> usize {
    if v < 0 {
        0
    } else if v > bound {
        bound
    } else {
        v as usize
    }
}

/// First board coordinate of the slice around camera coordinate `p`:
/// one chunk before the chunk that holds `p`.
pub open spec fn slice_low(p: i32, extent: u32, bound: usize) -> usize {
    clamp_coord(chunk_floor(p, chunk_size(extent)) - chunk_size(extent), bound)
}

/// End board coordinate of the slice around camera coordinate `p`:
/// two chunks after the start of the chunk that holds `p`.
pub open spec fn slice_high(p: i32, extent: u32, bound: usize) -> usize {
    clamp_coord(chunk_floor(p, chunk_size(extent)) + 2 * chunk_size(extent), bound)
}

/// The chunk arithmetic for camera coordinate `p` stays within `i32`.
pub open spec fn chunk_arith_fits(p: i32, extent: u32) -> bool {
    &&& extent < 0x4000_0000
    &&& chunk_floor(p, chunk_size(extent)) - chunk_size(extent) >= i32::MIN
    &&& chunk_floor(p, chunk_size(extent)) + 2 * chunk_size(extent) <= i32::MAX
}

/// The part of a `board_width` x `board_height` board to hand to a camera at
/// board coordinates (`cam_x`, `cam_y`) that sees `extent` cells across.
pub open spec fn spec_slice_around(
    cam_x: i32,
    cam_y: i32,
    extent: u32,
    board_width: usize,
    board_height: usize,
) -> BoardSlice {
    let xs = slice_low(cam_x, extent, board_width);
    let ys = slice_low(cam_y, extent, board_height);
    let xe = slice_high(cam_x, extent, board_width);
    let ye = slice_high(cam_y, extent, board_height);
    BoardSlice {
        start: Point { x: xs, y: ys },
        end: Point { x: xe, y: ye },
        width: (xe - xs) as usize,
        height: (ye - ys) as usize,
        size: ((xe - xs) * (ye - ys)) as usize,
    }
}

proof fn lemma_shift_bounds(k: u32)
    by (bit_vector)
    requires
        k <= 29,
    ensures
        1 <= (1i32 << k) <= 0x2000_0000i32,
{
}

proof fn lemma_chunk_floor_bounds(p: i32, k: u32)
    by (bit_vector)
    requires
        k <= 29,
    ensures
        (p & !(((1i32 << k) - 1i32) as i32)) <= p,
        p < (p & !(((1i32 << k) - 1i32) as i32)) + (1i32 << k),
{
}

/// Camera coordinates within `i32::MIN / 2..i32::MAX / 2` and views narrower
/// than `2^29` cells never overflow the chunk arithmetic.
pub proof fn lemma_chunk_arith_fits(p: i32, extent: u32)
    requires
        -0x4000_0000 <= p < 0x4000_0000,
        extent < 0x2000_0000,
    ensures
        chunk_arith_fits(p, extent),
{
    let e: nat = if extent == 0 {
        1
    } else {
        extent as nat
    };
    vstd::arithmetic::power2::lemma2_to64();
    lemma_floor_log2_bound(e, 29);
    let k = floor_log2(e) as u32;
    lemma_shift_bounds(k);
    lemma_chunk_floor_bounds(p, k);
}

/// On a board whose cell count fits in `usize`, so does the size of every
/// slice of it.
pub proof fn lemma_slice_size_fits(
    cam_x: i32,
    cam_y: i32,
    extent: u32,
    board_width: usize,
    board_height: usize,
)
    requires
        extent < 0x4000_0000,
        board_width * board_height <= usize::MAX,
    ensures
        (slice_high(cam_x, extent, board_width) - slice_low(cam_x, extent, board_width)) * (
        slice_high(cam_y, extent, board_height) - slice_low(cam_y, extent, board_height))
            <= usize::MAX,
{
    let e: nat = if extent == 0 {
        1
    } else {
        extent as nat
    };
    vstd::arithmetic::power2::lemma2_to64();
    lemma_floor_log2_bound(e, 30);
    lemma_shift_bounds(floor_log2(e) as u32);
    let w = slice_high(cam_x, extent, board_width) - slice_low(cam_x, extent, board_width);
    let h = slice_high(cam_y, extent, board_height) - slice_low(cam_y, extent, board_height);
    assert(w * h <= board_width * board_height) by (nonlinear_arith)
        requires
            0 <= w <= board_width,
            0 <= h <= board_height,
    ;
}

proof fn lemma_chunk_floor_multiple(p: i32, k: u32)
    by (bit_vector)
    requires
        k <= 29,
    ensures
        ((p & !(((1i32 << k) - 1i32) as i32)) >> k) * (1i32 << k) == (p & !(((1i32 << k) - 1i32) as i32)),
{
}

proof fn lemma_shift_as_u32(k: u32)
    by (bit_vector)
    requires
        k <= 29,
    ensures
        (1i32 << k) as int == (1u32 << k) as int,
{
}

/// `2^floor_log2(n)` is the largest power of two not above `n`.
proof fn lemma_floor_log2_pow(n: nat)
    requires
        n >= 1,
    ensures
        vstd::arithmetic::power2::pow2(floor_log2(n)) <= n < 2 * vstd::arithmetic::power2::pow2(
            floor_log2(n),
        ),
    decreases n,
{
    vstd::arithmetic::power2::lemma2_to64();
    if n >= 2 {
        let f = floor_log2(n / 2);
        lemma_floor_log2_pow(n / 2);
        vstd::arithmetic::power2::lemma_pow2_unfold(f + 1);
        assert(floor_log2(n) == f + 1);
    }
}

/// The chunk size for a view `extent` cells across is the largest power of
/// two `c` with `c <= max(extent, 1) < 2 * c`, and the slice around camera
/// coordinate `p` (negative ones included) runs from one chunk before to two
/// chunks after `(p / c) * c`, the largest multiple of `c` not above `p`, cut
/// into `0..=bound`.
pub proof fn lemma_slice_floor_alignment(p: i32, extent: u32, bound: usize)
    requires
        extent < 0x4000_0000,
    ensures
        ({
            let e: nat = if extent == 0 {
                1
            } else {
                extent as nat
            };
            let k = floor_log2(e);
            let c = vstd::arithmetic::power2::pow2(k) as int;
            let a = (p as int / c) * c;
            let lo = a - c;
            let hi = a + 2 * c;
            &&& chunk_size(extent) as int == c
            &&& c <= e < 2 * c
            &&& a <= p < a + c
            &&& slice_low(p, extent, bound) as int == (if lo < 0 {
                0
            } else if lo > bound {
                bound as int
            } else {
                lo
            })
            &&& slice_high(p, extent, bound) as int == (if hi < 0 {
                0
            } else if hi > bound {
                bound as int
            } else {
                hi
            })
        }),
{
    let e: nat = if extent == 0 {
        1
    } else {
        extent as nat
    };
    vstd::arithmetic::power2::lemma2_to64();
    lemma_floor_log2_bound(e, 30);
    let k = floor_log2(e);
    let c = vstd::arithmetic::power2::pow2(k) as int;
    lemma_floor_log2_pow(e);
    let ku = k as u32;
    lemma_shift_bounds(ku);
    lemma_shift_as_u32(ku);
    vstd::arithmetic::power2::lemma_pow2_strictly_increases(k, 32);
    vstd::bits::lemma_u32_shl_is_mul(1, ku);
    assert(chunk_size(extent) as int == c);
    let ci = chunk_size(extent);
    lemma_chunk_floor_bounds(p, ku);
    lemma_chunk_floor_multiple(p, ku);
    let f = chunk_floor(p, ci);
    let q = (f >> ku) as int;
    assert(q * c == f as int);
    vstd::arithmetic::div_mod::lemma_fundamental_div_mod_converse(p as int, c, q, p - q * c);
    assert(p as int / c == q);
}

/// `v` cut into `0..=bound`, as `(v.max(0) as usize).min(bound)` computes it.
fn clamp_to(v: i32, bound: usize) -> (r: usize)
    ensures
        r == clamp_coord(v as int, bound),
{
    let nonneg: usize = if v < 0 {
        0
    } else {
        v as usize
    };
    if nonneg < bound {
        nonneg
    } else {
        bound
    }
}

/// The part of a `board_width` x `board_height` board to hand to a camera at
/// board coordinates (`cam_x`, `cam_y`) that sees `extent` cells across.
///
/// The board is cut into square chunks whose side is the largest power of two
/// not above `extent`; the slice runs from one chunk before the camera's chunk
/// to two chunks after its start, cut to the board.
pub fn slice_around(
    cam_x: i32,
    cam_y: i32,
    extent: u32,
    board_width: usize,
    board_height: usize,
) -> (s: BoardSlice)
    requires
        chunk_arith_fits(cam_x, extent),
        chunk_arith_fits(cam_y, extent),
        (slice_high(cam_x, extent, board_width) - slice_low(cam_x, extent, board_width)) * (
        slice_high(cam_y, extent, board_height) - slice_low(cam_y, extent, board_height))
            <= usize::MAX,
    ensures
        s == spec_slice_around(cam_x, cam_y, extent, board_width, board_height),
        s.wf(),
        s.end.x <= board_width,
        s.end.y <= board_height,
{
    let e: u32 = if extent > 1 {
        extent
    } else {
        1
    };
    let k = ilog2(e);
    proof {
        vstd::arithmetic::power2::lemma2_to64();
        lemma_floor_log2_bound(e as nat, 30);
        lemma_shift_bounds(k);
    }
    let c: i32 = 1i32 << k;
    let mask: i32 = !(c - 1);
    let ax: i32 = cam_x & mask;
    let ay: i32 = cam_y & mask;
    let xs = clamp_to(ax - c, board_width);
    let ys = clamp_to(ay - c, board_height);
    let xe = clamp_to(ax + 2 * c, board_width);
    let ye = clamp_to(ay + 2 * c, board_height);
    assert(xs <= xe && ys <= ye);
    BoardSlice::new(Point::new(xs, ys), Point::new(xe, ye))
}

/// The slice handed to a camera lies within the board, and whenever the
/// camera looks at a cell of the board, that cell is part of the slice.
pub proof fn lemma_slice_covers_camera(
    cam_x: i32,
    cam_y: i32,
    extent: u32,
    board_width: usize,
    board_height: usize,
)
    requires
        chunk_arith_fits(cam_x, extent),
        chunk_arith_fits(cam_y, extent),
    ensures
        ({
            let s = spec_slice_around(cam_x, cam_y, extent, board_width, board_height);
            &&& s.start.x <= s.end.x <= board_width
            &&& s.start.y <= s.end.y <= board_height
            &&& 0 <= cam_x < board_width ==> s.start.x <= cam_x < s.end.x
            &&& 0 <= cam_y < board_height ==> s.start.y <= cam_y < s.end.y
        }),
{
    let e: nat = if extent == 0 {
        1
    } else {
        extent as nat
    };
    vstd::arithmetic::power2::lemma2_to64();
    lemma_floor_log2_bound(e, 30);
    let k = floor_log2(e) as u32;
    lemma_shift_bounds(k);
    lemma_chunk_floor_bounds(cam_x, k);
    lemma_chunk_floor_bounds(cam_y, k);
}

/// The cell at column `x` and row `y` of a row-major grid `row_width` cells wide.
pub open spec fn grid_get<T>(cells: Seq<T>, row_width: int, x: int, y: int) -> T {
    cells[y * row_width + x]
}

/// Index in a buffer with rows `row_width` long of the cell that lands at
/// position `j` of a row-major copy of `slice`.
pub open spec fn slice_source_index(slice: BoardSlice, row_width: int, j: int) -> int {
    (slice.start.y + j / (slice.width as int)) * row_width + slice.start.x + j % (slice.width as int)
}

proof fn lemma_row_index(row: int, col: int, width: int, rows: int)
    by (nonlinear_arith)
    requires
        0 <= row < rows,
        0 <= col < width,
    ensures
        0 <= row * width + col < rows * width,
        row * width + col + 1 <= (row + 1) * width,
{
}

proof fn lemma_mul_le(a: int, b: int, w: int)
    by (nonlinear_arith)
    requires
        0 <= a <= b,
        0 <= w,
    ensures
        0 <= a * w <= b * w,
{
}

/// Copies the cells of `slice` out of the read buffer of `sb` into `dest`,
/// row after row, replacing what `dest` held.
pub fn copy_swap_buf<T: Copy>(dest: &mut Vec<T>, sb: &SwapBuffer<T>, slice: &BoardSlice)
    requires
        slice.wf(),
        slice.width > 0,
        slice.end.x <= sb.row_width(),
        slice.end.y * sb.row_width() <= sb.read_view().len(),
    ensures
        final(dest)@.len() == slice.size,
        forall|rx: int, ry: int|
            0 <= rx < slice.width && 0 <= ry < slice.height ==> #[trigger] grid_get(
                final(dest)@,
                slice.width as int,
                rx,
                ry,
            ) == grid_get(
                sb.read_view(),
                sb.row_width() as int,
                slice.start.x + rx,
                slice.start.y + ry,
            ),
{
    let src = sb.read();
    let sbw = sb.width();
    let w = slice.width;
    let ghost cells = sb.read_view();
    assert(cells.len() == src.len());
    let mut out: Vec<T> = Vec::new();
    let mut ry: usize = 0;
    while ry < slice.height
        invariant
            slice.wf(),
            w == slice.width,
            w > 0,
            slice.end.x <= sbw,
            slice.end.y * sbw <= cells.len(),
            cells.len() <= usize::MAX,
            src@ == cells,
            sbw == sb.row_width(),
            ry <= slice.height,
            out@.len() == ry * w,
            forall|j: int|
                0 <= j < out@.len() ==> #[trigger] out@[j] == cells[slice_source_index(
                    *slice,
                    sbw as int,
                    j,
                )],
        decreases slice.height - ry,
    {
        proof {
            lemma_mul_le((slice.start.y + ry) as int, slice.end.y as int, sbw as int);
        }
        let row_base: usize = (slice.start.y + ry) * sbw;
        let mut rx: usize = 0;
        while rx < w
            invariant
                slice.wf(),
                w == slice.width,
                w > 0,
                slice.end.x <= sbw,
                slice.end.y * sbw <= cells.len(),
                cells.len() <= usize::MAX,
                src@ == cells,
                ry < slice.height,
                rx <= w,
                row_base == (slice.start.y + ry) * sbw,
                out@.len() == ry * w + rx,
                forall|j: int|
                    0 <= j < out@.len() ==> #[trigger] out@[j] == cells[slice_source_index(
                        *slice,
                        sbw as int,
                        j,
                    )],
            decreases w - rx,
        {
            proof {
                lemma_row_index(
                    (slice.start.y + ry) as int,
                    (slice.start.x + rx) as int,
                    sbw as int,
                    slice.end.y as int,
                );
                vstd::arithmetic::div_mod::lemma_fundamental_div_mod_converse(
                    (ry * w + rx) as int,
                    w as int,
                    ry as int,
                    rx as int,
                );
            }
            let v = src[row_base + slice.start.x + rx];
            out.push(v);
            rx = rx + 1;
        }
        proof {
            assert((ry + 1) * w == ry * w + w) by (nonlinear_arith);
        }
        ry = ry + 1;
    }
    proof {
        assert(slice.height * w == w * slice.height) by (nonlinear_arith);
        assert forall|rx: int, ry: int|
            0 <= rx < slice.width && 0 <= ry < slice.height implies #[trigger] grid_get(
            out@,
            slice.width as int,
            rx,
            ry,
        ) == grid_get(cells, sbw as int, slice.start.x + rx, slice.start.y + ry) by {
            lemma_row_index(ry, rx, w as int, slice.height as int);
            vstd::arithmetic::div_mod::lemma_fundamental_div_mod_converse(
                ry * w + rx,
                w as int,
                ry,
                rx,
            );
        }
    }
    *dest = out;
}

/// What the client asks of the world, with the camera already turned into
/// the slice of the board it needs (see `slice_around`).
#[derive(PartialEq, Eq, Structural, Clone, Copy, Debug)]
pub enum WorldEvent {
    Swap(Point<usize>, Point<usize>),
    AddEnergy(Point<usize>),
    Pause(bool),
    Step,
    CameraUpdate(BoardSlice),
    RenderFinished,
}

/// What the world has to do to its board for an event.
#[derive(PartialEq, Eq, Structural, Clone, Copy, Debug)]
pub enum BoardAction {
    Nothing,
    /// Exchange the cells at these two indices.
    SwapCells(usize, usize),
    /// Add energy to the cell at this index.
    AddEnergy(usize),
}

/// The decisions of the world loop: whether it runs, steps, and hands the
/// client a new view of the board.
#[derive(PartialEq, Eq, Structural, Clone, Copy, Debug)]
pub struct WorldControl {
    pub slice: BoardSlice,
    pub slice_change: bool,
    pub paused: bool,
    pub step: bool,
    pub client_ready: bool,
}

/// The index arithmetic of `event` fits in `usize` on a board `width` wide.
pub open spec fn event_indices_fit(event: WorldEvent, width: usize) -> bool {
    match event {
        WorldEvent::Swap(p1, p2) => p1.index_spec(width) <= usize::MAX && p2.index_spec(width)
            <= usize::MAX,
        WorldEvent::AddEnergy(p) => p.index_spec(width) <= usize::MAX,
        _ => true,
    }
}

impl WorldControl {
    /// The control state after taking in `event`.
    pub open spec fn after_event(self, event: WorldEvent) -> WorldControl {
        match event {
            WorldEvent::Pause(set) => WorldControl { paused: set, ..self },
            WorldEvent::Step => WorldControl { step: true, ..self },
            WorldEvent::CameraUpdate(new) => WorldControl {
                slice: new,
                slice_change: self.slice != new,
                ..self
            },
            WorldEvent::RenderFinished => WorldControl { client_ready: true, ..self },
            _ => self,
        }
    }

    /// What has to be done to a board `width` wide for `event`.
    pub open spec fn action_for(event: WorldEvent, width: usize) -> BoardAction {
        match event {
            WorldEvent::Swap(p1, p2) => BoardAction::SwapCells(
                p1.index_spec(width) as usize,
                p2.index_spec(width) as usize,
            ),
            WorldEvent::AddEnergy(p) => BoardAction::AddEnergy(p.index_spec(width) as usize),
            _ => BoardAction::Nothing,
        }
    }

    /// The board is updated in a tick from this state.
    pub open spec fn runs_tick(self) -> bool {
        !self.paused || self.step
    }

    /// The control state after a tick has begun.
    pub open spec fn after_tick(self) -> WorldControl {
        if self.runs_tick() {
            WorldControl { step: false, ..self }
        } else {
            self
        }
    }

    /// The client is due a new view of the board.
    pub open spec fn sync_due(self, board_dirty: bool) -> bool {
        (self.slice_change || board_dirty) && self.client_ready
    }

    /// A paused world that has sent nothing yet.
    pub fn new() -> (c: Self)
        ensures
            c.paused,
            !c.step,
            !c.slice_change,
            c.client_ready,
            c.slice == (BoardSlice {
                start: Point { x: 0, y: 0 },
                end: Point { x: 0, y: 0 },
                width: 0,
                height: 0,
                size: 0,
            }),
    {
        WorldControl {
            slice: BoardSlice {
                start: Point { x: 0, y: 0 },
                end: Point { x: 0, y: 0 },
                width: 0,
                height: 0,
                size: 0,
            },
            slice_change: false,
            paused: true,
            step: false,
            client_ready: true,
        }
    }

    /// Takes in one event from the client and says what to do to the board.
    pub fn receive(&mut self, event: WorldEvent, board_width: usize) -> (a: BoardAction)
        requires
            event_indices_fit(event, board_width),
        ensures
            *final(self) == old(self).after_event(event),
            a == Self::action_for(event, board_width),
    {
        match event {
            WorldEvent::Swap(p1, p2) => BoardAction::SwapCells(
                p1.index(board_width),
                p2.index(board_width),
            ),
            WorldEvent::AddEnergy(p) => BoardAction::AddEnergy(p.index(board_width)),
            WorldEvent::Pause(set) => {
                self.paused = set;
                BoardAction::Nothing
            },
            WorldEvent::Step => {
                self.step = true;
                BoardAction::Nothing
            },
            WorldEvent::CameraUpdate(new) => {
                self.slice_change = self.slice != new;
                self.slice = new;
                BoardAction::Nothing
            },
            WorldEvent::RenderFinished => {
                self.client_ready = true;
                BoardAction::Nothing
            },
        }
    }

    /// Whether the board is updated in this tick: when the world runs, or
    /// once after a step request, which this consumes.
    pub fn begin_tick(&mut self) -> (run: bool)
        ensures
            run == old(self).runs_tick(),
            *final(self) == old(self).after_tick(),
    {
        if !self.paused || self.step {
            self.step = false;
            true
        } else {
            false
        }
    }

    /// Whether the client is handed a new view of the board: when the slice
    /// or the board changed and the client is ready for it.
    pub fn needs_sync(&self, board_dirty: bool) -> (r: bool)
        ensures
            r == self.sync_due(board_dirty),
    {
        (self.slice_change || board_dirty) && self.client_ready
    }

    /// Records that the client has been handed the current slice.
    pub fn synced(&mut self)
        ensures
            *final(self) == (WorldControl { slice_change: false, ..*old(self) }),
    {
        self.slice_change = false;
    }
}

/// What each event does to the control state: a pause request sets the
/// pause flag to the value asked for (so asking twice changes nothing more),
/// a step request sets the step flag, a camera update installs the new slice
/// and marks it changed exactly when it differs, a finished render makes the
/// client ready, and the board events leave the control state alone.
pub proof fn lemma_event_effects(c: WorldControl, b: bool, new: BoardSlice, p1: Point<usize>, p2: Point<usize>)
    ensures
        c.after_event(WorldEvent::Pause(b)).paused == b,
        c.after_event(WorldEvent::Pause(b)).step == c.step,
        c.after_event(WorldEvent::Pause(b)).slice == c.slice,
        c.after_event(WorldEvent::Pause(b)).slice_change == c.slice_change,
        c.after_event(WorldEvent::Pause(b)).client_ready == c.client_ready,
        c.after_event(WorldEvent::Pause(b)).after_event(WorldEvent::Pause(b)) == c.after_event(
            WorldEvent::Pause(b),
        ),
        c.after_event(WorldEvent::Step).step,
        c.after_event(WorldEvent::Step).paused == c.paused,
        c.after_event(WorldEvent::Step).slice == c.slice,
        c.after_event(WorldEvent::Step).slice_change == c.slice_change,
        c.after_event(WorldEvent::Step).client_ready == c.client_ready,
        c.after_event(WorldEvent::CameraUpdate(new)).slice == new,
        c.after_event(WorldEvent::CameraUpdate(new)).slice_change == (c.slice != new),
        c.after_event(WorldEvent::CameraUpdate(new)).paused == c.paused,
        c.after_event(WorldEvent::CameraUpdate(new)).step == c.step,
        c.after_event(WorldEvent::CameraUpdate(new)).client_ready == c.client_ready,
        c.after_event(WorldEvent::RenderFinished).client_ready,
        c.after_event(WorldEvent::RenderFinished).paused == c.paused,
        c.after_event(WorldEvent::RenderFinished).step == c.step,
        c.after_event(WorldEvent::RenderFinished).slice == c.slice,
        c.after_event(WorldEvent::RenderFinished).slice_change == c.slice_change,
        c.after_event(WorldEvent::Swap(p1, p2)) == c,
        c.after_event(WorldEvent::AddEnergy(p1)) == c,
{
}

/// A step request makes a paused world update exactly once: the next tick
/// runs and the one after it does not, unless another event comes in.
pub proof fn lemma_step_runs_once(c: WorldControl)
    requires
        c.paused,
    ensures
        c.after_event(WorldEvent::Step).runs_tick(),
        !c.after_event(WorldEvent::Step).after_tick().runs_tick(),
{
}

/// A running world updates in every tick, and a paused one without a step
/// request in none.
pub proof fn lemma_tick_follows_pause(c: WorldControl)
    ensures
        !c.paused ==> c.runs_tick() && c.after_tick().runs_tick(),
        c.paused && !c.step ==> !c.runs_tick() && c.after_tick() == c,
{
}

/// A camera update that keeps the slice, and then a sync, leave nothing to
/// hand over until the board changes; a camera update to another slice
/// asks for a sync once the client is ready.
pub proof fn lemma_camera_update_sync(c: WorldControl, new: BoardSlice)
    ensures
        c.after_event(WorldEvent::CameraUpdate(new)).slice == new,
        c.slice == new ==> !c.after_event(WorldEvent::CameraUpdate(new)).sync_due(false),
        c.slice != new && c.client_ready ==> c.after_event(WorldEvent::CameraUpdate(new)).sync_due(
            false,
        ),
{
}

} // verus!
