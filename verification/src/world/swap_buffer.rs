use rand::distributions::Uniform;
use rand::rngs::StdRng;
use rand::Rng;
use vstd::prelude::*;

verus! {

#[verifier::external_type_specification]
#[verifier::external_body]
pub struct ExStdRng(StdRng);

/// `rng.gen_range(low..=high)` of the `rand` crate for `i32`: the crate's
/// sampler returns `low` plus an offset below the width of the range, so the
/// value lies in `low..=high`. It panics on an empty range, which `requires`
/// leaves out. Which value comes out depends on the generator's state and is
/// not stated.
#[verifier::external_body]
fn gen_range_inclusive(rng: &mut StdRng, low: i32, high: i32) -> (r: i32)
    requires
        low <= high,
    ensures
        low <= r <= high,
{
    rng.gen_range(low..=high)
}

/// `rng.sample(Uniform::new_inclusive(low, high))` of the `rand` crate for
/// `u32`: a value in `low..=high`. `Uniform::new_inclusive` panics when
/// `low > high`, which `requires` leaves out. Which value comes out depends on
/// the generator's state and is not stated.
#[verifier::external_body]
fn sample_uniform_inclusive(rng: &mut StdRng, low: u32, high: u32) -> (r: u32)
    requires
        low <= high,
    ensures
        low <= r <= high,
{
    rng.sample(Uniform::new_inclusive(low, high))
}

/// A grid of cells stored twice: `r` is read during an update step while the
/// new values are written into `w`; `swap` then makes the written values the
/// ones that are read.
pub struct SwapBuffer<T> {
    pub width: usize,
    pub r: Vec<T>,
    pub w: Vec<T>,
}

/// A copy of `v` element by element.
fn copy_vec<T: Copy>(v: &Vec<T>) -> (c: Vec<T>)
    ensures
        c@ == v@,
{
    let mut c: Vec<T> = Vec::new();
    let mut i: usize = 0;
    while i < v.len()
        invariant
            i <= v.len(),
            c@ == v@.subrange(0, i as int),
        decreases v.len() - i,
    {
        c.push(v[i]);
        i = i + 1;
    }
    assert(c@ =~= v@);
    c
}

/// `s` with the elements at `i` and `j` exchanged.
pub open spec fn swapped<T>(s: Seq<T>, i: int, j: int) -> Seq<T> {
    s.update(i, s[j]).update(j, s[i])
}

impl<T: Copy> SwapBuffer<T> {
    /// Number of cells in one row.
    pub open spec fn row_width(&self) -> usize {
        self.width
    }

    /// The cells of the read buffer.
    pub open spec fn read_view(&self) -> Seq<T> {
        self.r@
    }

    /// The cells of the write buffer.
    pub open spec fn write_view(&self) -> Seq<T> {
        self.w@
    }

    pub fn width(&self) -> (w: usize)
        ensures
            w == self.row_width(),
    {
        self.width
    }

    /// Exchanges the read and the write buffer.
    pub fn swap(&mut self)
        ensures
            final(self).read_view() == old(self).write_view(),
            final(self).write_view() == old(self).read_view(),
            final(self).row_width() == old(self).row_width(),
    {
        std::mem::swap(&mut self.r, &mut self.w);
    }

    /// The cells as they are currently read.
    pub fn read(&self) -> (r: &Vec<T>)
        ensures
            r@ == self.read_view(),
    {
        &self.r
    }

    /// Exchanges two cells of the read buffer.
    pub fn swap_cell(&mut self, pos1: usize, pos2: usize)
        requires
            pos1 < old(self).read_view().len(),
            pos2 < old(self).read_view().len(),
        ensures
            final(self).read_view() == swapped(old(self).read_view(), pos1 as int, pos2 as int),
            final(self).write_view() == old(self).write_view(),
            final(self).row_width() == old(self).row_width(),
    {
        let a = self.r[pos1];
        let b = self.r[pos2];
        self.r.set(pos1, b);
        self.r.set(pos2, a);
    }

    /// A buffer whose read and write halves both hold `base`.
    pub fn from_arr(base: Vec<T>, width: usize) -> (sb: SwapBuffer<T>)
        ensures
            sb.read_view() == base@,
            sb.write_view() == base@,
            sb.row_width() == width,
    {
        SwapBuffer { width, r: copy_vec(&base), w: base }
    }
}

/// Exchanging two cells keeps every value, only moves two of them, and
/// exchanging them again restores the cells; the order of the two positions
/// does not matter.
pub proof fn lemma_swapped<T>(s: Seq<T>, i: int, j: int)
    requires
        0 <= i < s.len(),
        0 <= j < s.len(),
    ensures
        swapped(s, i, j).len() == s.len(),
        swapped(s, i, j)[i] == s[j],
        swapped(s, i, j)[j] == s[i],
        forall|k: int| 0 <= k < s.len() && k != i && k != j ==> #[trigger] swapped(s, i, j)[k] == s[k],
        swapped(swapped(s, i, j), i, j) == s,
        swapped(s, i, j) == swapped(s, j, i),
        swapped(s, i, j).to_multiset() == s.to_multiset(),
{
    assert(swapped(swapped(s, i, j), i, j) =~= s);
    assert(swapped(s, i, j) =~= swapped(s, j, i));
    if i != j {
        lemma_update_multiset(s, i, s[j]);
        let t = s.update(i, s[j]);
        lemma_update_multiset(t, j, s[i]);
        assert(s.to_multiset().count(s[i]) > 0) by {
            s.to_multiset_ensures();
            assert(s.contains(s[i]));
        }
        assert(swapped(s, i, j).to_multiset() =~= s.to_multiset()) by {
            broadcast use vstd::multiset::group_multiset_axioms;

        }
    } else {
        assert(swapped(s, i, j) =~= s);
    }
}

proof fn lemma_update_multiset<T>(s: Seq<T>, i: int, v: T)
    requires
        0 <= i < s.len(),
    ensures
        s.update(i, v).to_multiset() =~= s.to_multiset().remove(s[i]).insert(v),
{
    let t = s.update(i, v);
    s.to_multiset_ensures();
    t.to_multiset_ensures();
    assert(t.remove(i) =~= s.remove(i));
    assert(t.remove(i).to_multiset() =~= t.to_multiset().remove(t[i]));
    assert(s.remove(i).to_multiset() =~= s.to_multiset().remove(s[i]));
    assert(t.contains(v)) by {
        assert(t[i] == v);
    }
    broadcast use vstd::multiset::group_multiset_axioms;

    assert(t.to_multiset().count(v) > 0);
    assert(t.to_multiset() =~= t.to_multiset().remove(v).insert(v));
}

/// Exchanging the read and write buffers twice restores both.
pub proof fn lemma_swap_twice<T: Copy>(b0: SwapBuffer<T>, b1: SwapBuffer<T>, b2: SwapBuffer<T>)
    requires
        b1.read_view() == b0.write_view(),
        b1.write_view() == b0.read_view(),
        b2.read_view() == b1.write_view(),
        b2.write_view() == b1.read_view(),
    ensures
        b2.read_view() == b0.read_view(),
        b2.write_view() == b0.write_view(),
{
}

impl SwapBuffer<u32> {
    /// A `width` x `height` buffer of values drawn uniformly from
    /// `range[0]..=range[1]`.
    pub fn from_rand(rng: &mut StdRng, width: usize, height: usize, range: [u32; 2]) -> (sb:
        SwapBuffer<u32>)
        requires
            range[0] <= range[1],
            height * width <= usize::MAX,
        ensures
            sb.read_view().len() == height * width,
            sb.write_view() == sb.read_view(),
            sb.row_width() == width,
            forall|i: int|
                0 <= i < sb.read_view().len() ==> range[0] <= #[trigger] sb.read_view()[i]
                    <= range[1],
    {
        let low = range[0];
        let high = range[1];
        let n: usize = height * width;
        let mut arr: Vec<u32> = Vec::new();
        let mut i: usize = 0;
        while i < n
            invariant
                low <= high,
                i <= n,
                arr@.len() == i,
                forall|j: int| 0 <= j < arr@.len() ==> low <= #[trigger] arr@[j] <= high,
            decreases n - i,
        {
            let v = sample_uniform_inclusive(rng, low, high);
            arr.push(v);
            i = i + 1;
        }
        SwapBuffer::from_arr(arr, width)
    }
}

/// `mask` with bit number `bit` set.
pub fn set_bit(mask: u64, bit: i32) -> (r: u64)
    requires
        0 <= bit < 64,
    ensures
        r == mask | (1u64 << (bit as u64)),
{
    mask | (1u64 << (bit as u64))
}

/// `mask` with the bits of `more` set, in order, up to the first pair whose
/// continue draw (first component) is at least 1; the second component of
/// each pair before it is the number of the bit to set.
pub open spec fn more_bits(more: Seq<(i32, i32)>, mask: u64) -> u64
    decreases more.len(),
{
    if more.len() == 0 || more[0].0 >= 1 {
        mask
    } else {
        more_bits(more.drop_first(), mask | (1u64 << (more[0].1 as u64)))
    }
}

/// The bit mask of one cell of `SwapBuffer::gen_delta` for the values drawn
/// for it: `spawn` from `0..=10000`, the first bit, then pairs of a continue
/// draw from `0..=100` and a further bit. The cell is zero unless `spawn` is
/// below 20; then it has the first bit and one more for each continue draw
/// below 1, up to the first that is not.
pub open spec fn spec_delta_cell(spawn: i32, first_bit: i32, more: Seq<(i32, i32)>) -> u64 {
    if spawn >= 20 {
        0
    } else {
        more_bits(more, 1u64 << (first_bit as u64))
    }
}

/// The draws that `gen_delta` can make for one cell.
pub open spec fn valid_draws(spawn: i32, first_bit: i32, more: Seq<(i32, i32)>) -> bool {
    &&& 0 <= spawn <= 10000
    &&& 0 <= first_bit < 64
    &&& more.len() <= 63
    &&& forall|j: int|
        0 <= j < more.len() ==> 0 <= (#[trigger] more[j]).0 <= 100 && 0 <= more[j].1 < 64
}

/// `m` is the mask of a cell for some draws that `gen_delta` can make.
pub open spec fn is_delta_cell(m: u64) -> bool {
    exists|spawn: i32, first_bit: i32, more: Seq<(i32, i32)>|
        valid_draws(spawn, first_bit, more) && m == #[trigger] spec_delta_cell(
            spawn,
            first_bit,
            more,
        )
}

/// The bit mask of one cell for the values drawn for it (see
/// `spec_delta_cell`).
pub fn delta_cell(spawn: i32, first_bit: i32, more: &Vec<(i32, i32)>) -> (m: u64)
    requires
        0 <= first_bit < 64,
        more.len() <= 63,
        forall|j: int| 0 <= j < more.len() ==> 0 <= (#[trigger] more@[j]).1 < 64,
    ensures
        m == spec_delta_cell(spawn, first_bit, more@),
{
    if spawn >= 20 {
        return 0;
    }
    let ghost result = spec_delta_cell(spawn, first_bit, more@);
    let mut mask: u64 = 1u64 << (first_bit as u64);
    assert(more@.skip(0) =~= more@);
    let mut done = false;
    let mut k: usize = 0;
    while k < more.len() && !done
        invariant
            spawn < 20,
            result == spec_delta_cell(spawn, first_bit, more@),
            forall|j: int| 0 <= j < more.len() ==> 0 <= (#[trigger] more@[j]).1 < 64,
            k <= more.len(),
            !done ==> result == more_bits(more@.skip(k as int), mask),
            done ==> result == mask,
        decreases more.len() - k, if done {
            0int
        } else {
            1int
        },
    {
        let (cont, bit) = more[k];
        assert(more@.skip(k as int)[0] == more@[k as int]);
        assert(more@.skip(k as int).drop_first() =~= more@.skip(k + 1));
        if cont < 1 {
            mask = set_bit(mask, bit);
            k = k + 1;
        } else {
            done = true;
        }
    }
    if !done {
        assert(more@.skip(k as int).len() == 0);
    }
    mask
}

proof fn lemma_more_bits_nonzero(more: Seq<(i32, i32)>, mask: u64)
    requires
        mask != 0,
    ensures
        more_bits(more, mask) != 0,
    decreases more.len(),
{
    if more.len() > 0 && more[0].0 < 1 {
        let b = more[0].1 as u64;
        assert(mask | (1u64 << b) != 0) by (bit_vector)
            requires
                mask != 0,
        ;
        lemma_more_bits_nonzero(more.drop_first(), mask | (1u64 << b));
    }
}

/// A cell is non-zero exactly when its spawn draw is below 20.
pub proof fn lemma_delta_cell_nonzero(spawn: i32, first_bit: i32, more: Seq<(i32, i32)>)
    requires
        valid_draws(spawn, first_bit, more),
    ensures
        (spec_delta_cell(spawn, first_bit, more) != 0) <==> spawn < 20,
{
    if spawn < 20 {
        let b = first_bit as u64;
        assert(1u64 << b != 0) by (bit_vector)
            requires
                b < 64,
        ;
        lemma_more_bits_nonzero(more, 1u64 << b);
    }
}

impl SwapBuffer<u64> {
    /// A `width` x `height` buffer of random bit masks: each cell is
    /// `delta_cell` of the values drawn for it: a spawn value from
    /// `0..=10000`, then (if it is below 20) a bit from `0..64`, then up to 63
    /// times a continue value from `0..=100` followed, while that is below 1,
    /// by one more bit.
    pub fn gen_delta(rng: &mut StdRng, width: usize, height: usize) -> (sb: SwapBuffer<u64>)
        requires
            width * height <= usize::MAX,
        ensures
            sb.read_view().len() == width * height,
            sb.write_view() == sb.read_view(),
            sb.row_width() == width,
            forall|n: int| 0 <= n < sb.read_view().len() ==> is_delta_cell(#[trigger] sb.read_view()[n]),
    {
        let n: usize = width * height;
        let mut base: Vec<u64> = Vec::new();
        let mut i: usize = 0;
        while i < n
            invariant
                i <= n,
                base@.len() == i,
                forall|j: int| 0 <= j < base@.len() ==> is_delta_cell(#[trigger] base@[j]),
            decreases n - i,
        {
            let spawn = gen_range_inclusive(rng, 0, 10000);
            let mut first_bit: i32 = 0;
            let mut more: Vec<(i32, i32)> = Vec::new();
            if spawn < 20 {
                first_bit = gen_range_inclusive(rng, 0, 63);
                let mut stopped = false;
                while more.len() < 63 && !stopped
                    invariant
                        more.len() <= 63,
                        forall|j: int|
                            0 <= j < more.len() ==> 0 <= (#[trigger] more@[j]).0 <= 100 && 0
                                <= more@[j].1 < 64,
                    decreases 63 - more.len(), if stopped {
                        0int
                    } else {
                        1int
                    },
                {
                    let cont = gen_range_inclusive(rng, 0, 100);
                    if cont < 1 {
                        let additional_bit_to_flip = gen_range_inclusive(rng, 0, 63);
                        more.push((cont, additional_bit_to_flip));
                    } else {
                        more.push((cont, 0));
                        stopped = true;
                    }
                }
            }
            let cell = delta_cell(spawn, first_bit, &more);
            assert(valid_draws(spawn, first_bit, more@));
            assert(is_delta_cell(cell));
            base.push(cell);
            i = i + 1;
        }
        SwapBuffer::from_arr(base, width)
    }
}

} // verus!
