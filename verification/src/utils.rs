//! Helper functions that are not specific to the simulation: grid distances,
//! an integer square root, straight-line path generation and interval lists.

use vstd::prelude::*;

verus! {

/// Absolute difference of two integers.
pub open spec fn abs_diff_spec(a: int, b: int) -> int {
    if a >= b {
        a - b
    } else {
        b - a
    }
}

/// Manhattan distance between two tile coordinates.
pub open spec fn manhat_spec(x1: u32, y1: u32, x2: u32, y2: u32) -> int {
    abs_diff_spec(x1 as int, x2 as int) + abs_diff_spec(y1 as int, y2 as int)
}

/// Manhattan (taxicab) distance between the tiles `(x1, y1)` and `(x2, y2)`.
pub fn manhat_distance(x1: u32, y1: u32, x2: u32, y2: u32) -> (r: u64)
    ensures
        r == manhat_spec(x1, y1, x2, y2),
{
    let dx: u64 = if x1 >= x2 {
        (x1 - x2) as u64
    } else {
        (x2 - x1) as u64
    };
    let dy: u64 = if y1 >= y2 {
        (y1 - y2) as u64
    } else {
        (y2 - y1) as u64
    };
    dx + dy
}

/// The largest `r` with `r * r <= n`.
pub open spec fn sqrt_floor(n: nat) -> nat
    decreases n,
{
    if n == 0 {
        0
    } else {
        let p = sqrt_floor((n - 1) as nat);
        if (p + 1) * (p + 1) <= n {
            p + 1
        } else {
            p
        }
    }
}

/// `sqrt_floor(n)` brackets `n` between two consecutive squares.
pub proof fn lemma_sqrt_floor_bounds(n: nat)
    ensures
        sqrt_floor(n) * sqrt_floor(n) <= n,
        n < (sqrt_floor(n) + 1) * (sqrt_floor(n) + 1),
    decreases n,
{
    if n == 0 {
        assert(sqrt_floor(n) == 0);
        assert(sqrt_floor(n) * sqrt_floor(n) <= n) by (nonlinear_arith)
            requires
                sqrt_floor(n) == 0,
                n == 0,
        ;
        assert(n < (sqrt_floor(n) + 1) * (sqrt_floor(n) + 1)) by (nonlinear_arith)
            requires
                sqrt_floor(n) == 0,
                n == 0,
        ;
    } else {
        let m = (n - 1) as nat;
        lemma_sqrt_floor_bounds(m);
        let p = sqrt_floor(m);
        if (p + 1) * (p + 1) <= n {
            assert(sqrt_floor(n) == p + 1);
            assert(n < (p + 2) * (p + 2)) by (nonlinear_arith)
                requires
                    m < (p + 1) * (p + 1),
                    n == m + 1,
                    p >= 0,
            ;
            assert(((p + 1) + 1) * ((p + 1) + 1) == (p + 2) * (p + 2)) by (nonlinear_arith);
        } else {
            assert(sqrt_floor(n) == p);
            assert(p * p <= m);
            assert(n < (p + 1) * (p + 1));
        }
    }
}

/// Any `r` bracketing `n` between `r * r` and `(r + 1) * (r + 1)` is `sqrt_floor(n)`.
pub proof fn lemma_sqrt_floor_unique(n: nat, r: nat)
    requires
        r * r <= n,
        n < (r + 1) * (r + 1),
    ensures
        r == sqrt_floor(n),
{
    let s = sqrt_floor(n);
    lemma_sqrt_floor_bounds(n);
    assert(r == s) by (nonlinear_arith)
        requires
            r * r <= n,
            n < (r + 1) * (r + 1),
            s * s <= n,
            n < (s + 1) * (s + 1),
            r >= 0,
            s >= 0,
    ;
}

/// The largest `r` with `r * r <= n`, computed by binary search.
pub fn isqrt(n: u128) -> (r: u64)
    ensures
        r == sqrt_floor(n as nat),
{
    proof {
        assert((n as int) < (u64::MAX as int + 1) * (u64::MAX as int + 1)) by (nonlinear_arith)
            requires
                n <= u128::MAX,
        ;
    }
    let mut lo: u64 = 0;
    let mut hi: u64 = u64::MAX;
    while lo < hi
        invariant
            (lo as int) * (lo as int) <= n as int,
            (n as int) < (hi as int + 1) * (hi as int + 1),
            lo <= hi,
        decreases hi - lo,
    {
        let mid = lo + 1 + (hi - lo - 1) / 2;
        proof {
            assert((mid as int) * (mid as int) <= u128::MAX) by (nonlinear_arith)
                requires
                    0 <= mid <= u64::MAX,
            ;
        }
        if (mid as u128) * (mid as u128) <= n {
            lo = mid;
        } else {
            hi = mid - 1;
        }
    }
    proof {
        lemma_sqrt_floor_unique(n as nat, lo as nat);
    }
    lo
}

/// Euclidean distance between `(x1, y1)` and `(x2, y2)`, rounded down to a
/// whole number of units. The coordinates must fit in 63 bits so that the
/// sum of squared differences fits in 128 bits.
pub fn uclid_distance(x1: u64, y1: u64, x2: u64, y2: u64) -> (r: u64)
    requires
        x1 < 0x8000000000000000,
        y1 < 0x8000000000000000,
        x2 < 0x8000000000000000,
        y2 < 0x8000000000000000,
    ensures
        r == sqrt_floor(
            (abs_diff_spec(x1 as int, x2 as int) * abs_diff_spec(x1 as int, x2 as int)
                + abs_diff_spec(y1 as int, y2 as int) * abs_diff_spec(y1 as int, y2 as int)) as nat,
        ),
{
    let dx: u64 = if x1 >= x2 {
        x1 - x2
    } else {
        x2 - x1
    };
    let dy: u64 = if y1 >= y2 {
        y1 - y2
    } else {
        y2 - y1
    };
    proof {
        assert((dx as int) * (dx as int) + (dy as int) * (dy as int) <= u128::MAX)
            by (nonlinear_arith)
            requires
                0 <= dx < 0x8000000000000000,
                0 <= dy < 0x8000000000000000,
        ;
    }
    let sq: u128 = (dx as u128) * (dx as u128) + (dy as u128) * (dy as u128);
    isqrt(sq)
}

/// Relies on `String::push`: appends one character to the string.
pub assume_specification[ String::push ](s: &mut String, ch: char)
    ensures
        final(s)@ == old(s)@.push(ch),
;

/// Relies on `String::push_str`: appends a string slice to the string.
pub assume_specification[ String::push_str ](s: &mut String, other: &str)
    ensures
        final(s)@ == old(s)@ + other@,
;

/// The decimal digit `d` as a character.
pub open spec fn digit_char(d: int) -> char {
    ((d + 48) as u8) as char
}

/// The decimal digits of `n`, most significant first.
pub open spec fn dec_str(n: nat) -> Seq<char>
    decreases n,
{
    if n < 10 {
        seq![digit_char(n as int)]
    } else {
        dec_str(n / 10).push(digit_char((n % 10) as int))
    }
}

/// `v` written out in decimal.
pub fn u64_dec(v: u64) -> (r: String)
    ensures
        r@ == dec_str(v as nat),
{
    let mut digits: Vec<char> = Vec::new();
    let mut n = v;
    digits.push((((n % 10) as u8) + 48) as char);
    n = n / 10;
    proof {
        if n > 0 {
            assert(dec_str(v as nat) =~= dec_str(n as nat) + digits@.reverse());
        } else {
            assert(dec_str(v as nat) =~= digits@.reverse());
        }
    }
    while n > 0
        invariant
            digits@.len() >= 1,
            n > 0 ==> dec_str(v as nat) == dec_str(n as nat) + digits@.reverse(),
            n == 0 ==> dec_str(v as nat) == digits@.reverse(),
        decreases n,
    {
        let ghost old_digits = digits@;
        let ghost old_n = n;
        digits.push((((n % 10) as u8) + 48) as char);
        n = n / 10;
        proof {
            let c = digit_char((old_n % 10) as int);
            assert(old_digits.push(c).reverse() =~= seq![c] + old_digits.reverse());
            if n > 0 {
                assert(dec_str(old_n as nat) == dec_str(n as nat).push(c));
                assert(dec_str(n as nat).push(c) =~= dec_str(n as nat) + seq![c]);
                assert(dec_str(v as nat) =~= dec_str(n as nat) + digits@.reverse());
            } else {
                assert(old_n < 10);
                assert(dec_str(old_n as nat) =~= seq![c]);
                assert(dec_str(v as nat) =~= digits@.reverse());
            }
        }
    }
    let mut r = String::new();
    let total = digits.len();
    let mut i = total;
    while i > 0
        invariant
            i <= total,
            total == digits@.len(),
            r@ == digits@.reverse().take((total - i) as int),
        decreases i,
    {
        i = i - 1;
        r.push(digits[i]);
        proof {
            assert(digits@.reverse()[total - i - 1] == digits@[i as int]);
            assert(r@ =~= digits@.reverse().take((total - i) as int));
        }
    }
    proof {
        assert(digits@.reverse().take(total as int) =~= digits@.reverse());
    }
    r
}

/// Walks a slice in chunks of at most `size` elements, handing out each
/// chunk in turn.
#[derive(Debug, Clone)]
pub struct Neighbors<'a, T> {
    v: &'a [T],
    size: usize,
}

impl<'a, T> Neighbors<'a, T> {
    /// The elements not yet handed out.
    pub closed spec fn remaining(&self) -> Seq<T> {
        self.v@
    }

    /// The chunk size.
    pub closed spec fn chunk_size(&self) -> usize {
        self.size
    }

    /// A walker over `slice` in chunks of `size`.
    pub fn new(slice: &'a [T], size: usize) -> (r: Self)
        ensures
            r.remaining() == slice@,
            r.chunk_size() == size,
    {
        Self { v: slice, size }
    }

    /// The next chunk: the first `size` remaining elements (all of them if
    /// fewer remain), or `None` once nothing remains. A chunk size of zero
    /// hands out an empty chunk and consumes nothing.
    pub fn next(&mut self) -> (r: Option<&'a [T]>)
        ensures
            final(self).chunk_size() == old(self).chunk_size(),
            old(self).remaining().len() == 0 ==> r is None && final(self).remaining() == old(
                self,
            ).remaining(),
            old(self).remaining().len() > 0 ==> {
                let chunksz = if old(self).remaining().len() < old(self).chunk_size() {
                    old(self).remaining().len() as int
                } else {
                    old(self).chunk_size() as int
                };
                &&& r matches Some(chunk) && chunk@ == old(self).remaining().take(chunksz)
                &&& final(self).remaining() == old(self).remaining().skip(chunksz)
            },
    {
        if self.v.is_empty() {
            None
        } else {
            let chunksz = if self.v.len() < self.size {
                self.v.len()
            } else {
                self.size
            };
            let (fst, snd) = self.v.split_at(chunksz);
            self.v = snd;
            Some(fst)
        }
    }
}

/// An ordered list of tile coordinates a unit can walk along.
pub struct Path {
    pub path_points: Vec<(u32, u32)>,
}

/// The point one step from `cur` toward `end`: first close the x gap one
/// tile at a time, then the y gap.
pub open spec fn path_next(cur: (u32, u32), end: (u32, u32)) -> (u32, u32) {
    if cur.0 < end.0 {
        ((cur.0 + 1) as u32, cur.1)
    } else if cur.0 > end.0 {
        ((cur.0 - 1) as u32, cur.1)
    } else if cur.1 < end.1 {
        (cur.0, (cur.1 + 1) as u32)
    } else if cur.1 > end.1 {
        (cur.0, (cur.1 - 1) as u32)
    } else {
        cur
    }
}

/// Every point visited when walking from `cur` to `end` one step at a time,
/// excluding `cur` itself and including `end`.
pub open spec fn gen_path_seq(cur: (u32, u32), end: (u32, u32)) -> Seq<(u32, u32)>
    decreases manhat_spec(cur.0, cur.1, end.0, end.1),
{
    if cur == end {
        Seq::empty()
    } else {
        seq![path_next(cur, end)] + gen_path_seq(path_next(cur, end), end)
    }
}

impl Path {
    /// An empty path.
    pub fn new() -> (r: Path)
        ensures
            r.path_points@ == Seq::<(u32, u32)>::empty(),
    {
        Path { path_points: Vec::new() }
    }

    /// Appends the reverse of the path (without its last point), so that
    /// walking the whole list goes out and comes back without repeating the
    /// turnaround point.
    pub fn add_return_path(&mut self)
        ensures
            old(self).path_points@.len() == 0 ==> final(self).path_points@ == old(self).path_points@,
            old(self).path_points@.len() > 0 ==> final(self).path_points@ == old(self).path_points@ + old(self).path_points@.drop_last().reverse(),
    {
        let n = self.path_points.len();
        if n == 0 {
            return ;
        }
        let ghost orig = self.path_points@;
        let mut k: usize = 0;
        while k < n - 1
            invariant
                n == orig.len(),
                n >= 1,
                k <= n - 1,
                self.path_points@ == orig + orig.drop_last().reverse().take(k as int),
            decreases n - 1 - k,
        {
            let p = self.path_points[n - 2 - k];
            proof {
                assert(orig.drop_last().reverse()[k as int] == orig.drop_last()[n - 2 - k]);
            }
            self.path_points.push(p);
            proof {
                assert(self.path_points@ =~= orig + orig.drop_last().reverse().take(k + 1));
            }
            k = k + 1;
        }
        proof {
            assert(orig.drop_last().reverse().take(n - 1) =~= orig.drop_last().reverse());
        }
    }
}

/// Walks a straight, axis-aligned path from `start_pos` to `end_pos`, one
/// tile per step, x first and then y.
pub fn generate_path(start_pos: (u32, u32), end_pos: (u32, u32)) -> (r: Path)
    ensures
        r.path_points@ == gen_path_seq(start_pos, end_pos),
{
    let mut r_path = Path::new();
    let mut current_pos = start_pos;
    while !(current_pos.0 == end_pos.0 && current_pos.1 == end_pos.1)
        invariant
            gen_path_seq(start_pos, end_pos) == r_path.path_points@ + gen_path_seq(
                current_pos,
                end_pos,
            ),
        decreases manhat_spec(current_pos.0, current_pos.1, end_pos.0, end_pos.1),
    {
        let next_x: u32;
        let next_y: u32;
        if current_pos.0 < end_pos.0 {
            next_x = current_pos.0 + 1;
            next_y = current_pos.1;
        } else if current_pos.0 > end_pos.0 {
            next_x = current_pos.0 - 1;
            next_y = current_pos.1;
        } else if current_pos.1 < end_pos.1 {
            next_x = current_pos.0;
            next_y = current_pos.1 + 1;
        } else if current_pos.1 > end_pos.1 {
            next_x = current_pos.0;
            next_y = current_pos.1 - 1;
        } else {
            next_x = current_pos.0;
            next_y = current_pos.1;
        }
        proof {
            assert((next_x, next_y) == path_next(current_pos, end_pos));
            assert(gen_path_seq(current_pos, end_pos) == seq![path_next(current_pos, end_pos)]
                + gen_path_seq(path_next(current_pos, end_pos), end_pos));
        }
        current_pos = (next_x, next_y);
        r_path.path_points.push(current_pos);
        proof {
            assert(gen_path_seq(start_pos, end_pos) =~= r_path.path_points@ + gen_path_seq(
                current_pos,
                end_pos,
            ));
        }
    }
    proof {
        assert(gen_path_seq(current_pos, end_pos) =~= Seq::<(u32, u32)>::empty());
        assert(r_path.path_points@ =~= r_path.path_points@ + Seq::<(u32, u32)>::empty());
    }
    r_path
}

/// Returns `count` back-to-back intervals of width `space`, the first one
/// starting at zero: `[(0, space), (space, 2 * space), ...]`.
pub fn spaced_internals(space: u32, count: u32) -> (r: Vec<(u32, u32)>)
    requires
        count * space <= u32::MAX,
    ensures
        r@.len() == count,
        forall|i: int|
            0 <= i < count ==> r@[i].0 == i * space && r@[i].1 == i * space + space,
{
    let mut res: Vec<(u32, u32)> = Vec::new();
    let mut p: u32 = 0;
    while p < count
        invariant
            count * space <= u32::MAX,
            p <= count,
            res@.len() == p,
            forall|i: int| 0 <= i < p ==> res@[i].0 == i * space && res@[i].1 == i * space + space,
        decreases count - p,
    {
        proof {
            assert((p + 1) * space <= count * space) by (nonlinear_arith)
                requires
                    p < count,
                    space >= 0,
            ;
            assert((p + 1) * space == p * space + space) by (nonlinear_arith);
        }
        res.push((p * space, (p * space) + space));
        p = p + 1;
    }
    res
}

} // verus!
