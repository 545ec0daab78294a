//! The pixel grid of a compute job and the order in which it is visited.

use rand::seq::SliceRandom;
use vstd::arithmetic::div_mod::lemma_fundamental_div_mod_converse;
use vstd::prelude::*;

verus! {

/// The side of the grid where none is configured.
pub const DEFAULT_GRID_SIDE: u16 = 512;

/// A pixel of the square grid, column `x` and row `y`.
#[derive(Clone, Copy, Debug, PartialEq, Eq, Structural)]
pub struct Pixel {
    pub x: u16,
    pub y: u16,
}

/// Why a job cannot be planned.
#[derive(Clone, Copy, Debug, PartialEq, Eq, Structural)]
pub enum ConfigError {
    /// The grid has side length zero.
    EmptyGrid,
}

/// Whether `p` lies on the grid of side `n`.
pub open spec fn on_grid(p: Pixel, n: nat) -> bool {
    p.x < n && p.y < n
}

/// The grid of side `n` in column-major raster order: position `x * n + y`
/// holds pixel `(x, y)`.
pub open spec fn raster(n: nat) -> Seq<Pixel> {
    Seq::new(n * n, |i: int| Pixel { x: (i / n as int) as u16, y: (i % n as int) as u16 })
}

/// Whether `order` visits every pixel of the grid of side `n` exactly once and
/// nothing else.
pub open spec fn visits_each_once(order: Seq<Pixel>, n: nat) -> bool {
    &&& order.len() == n * n
    &&& order.no_duplicates()
    &&& forall|i: int| 0 <= i < order.len() ==> on_grid(#[trigger] order[i], n)
    &&& forall|p: Pixel| on_grid(p, n) ==> order.contains(p)
}

/// Position `x * n + y` of the raster splits back into `x` and `y`.
proof fn lemma_raster_index(n: int, x: int, y: int)
    requires
        0 <= x < n,
        0 <= y < n,
    ensures
        0 <= x * n + y < n * n,
        (x * n + y) / n == x,
        (x * n + y) % n == y,
{
    lemma_fundamental_div_mod_converse(x * n + y, n, x, y);
    assert(x * n + y < n * n) by (nonlinear_arith)
        requires
            0 <= x < n,
            0 <= y < n,
    ;
    assert(0 <= x * n) by (nonlinear_arith)
        requires
            0 <= x,
            0 < n,
    ;
}

/// A position of the raster splits into a column and a row on the grid.
proof fn lemma_raster_split(n: int, i: int)
    requires
        0 < n,
        0 <= i < n * n,
    ensures
        0 <= i / n < n,
        0 <= i % n < n,
        i == (i / n) * n + i % n,
{
    vstd::arithmetic::div_mod::lemma_fundamental_div_mod(i, n);
    vstd::arithmetic::div_mod::lemma_mod_bound(i, n);
    assert((i / n) * n == n * (i / n)) by (nonlinear_arith);
    assert(0 <= i / n < n) by (nonlinear_arith)
        requires
            0 < n,
            0 <= i < n * n,
            i == n * (i / n) + i % n,
            0 <= i % n < n,
    ;
}

/// The raster of a grid of side at most 65535 visits every pixel exactly once.
pub proof fn lemma_raster_visits_each_once(n: nat)
    requires
        n <= u16::MAX,
    ensures
        visits_each_once(raster(n), n),
{
    let r = raster(n);
    let m = n as int;
    assert forall|i: int| 0 <= i < r.len() implies on_grid(#[trigger] r[i], n) by {
        lemma_raster_split(m, i);
    }
    assert forall|i: int, j: int| 0 <= i < r.len() && 0 <= j < r.len() && i != j implies r[i]
        != r[j] by {
        lemma_raster_split(m, i);
        lemma_raster_split(m, j);
    }
    assert forall|p: Pixel| on_grid(p, n) implies r.contains(p) by {
        let i = p.x as int * m + p.y as int;
        lemma_raster_index(m, p.x as int, p.y as int);
        assert(r[i] == p);
    }
}

/// Any reordering of the raster still visits every pixel exactly once: a job
/// that works through it omits no pixel and repeats none.
pub proof fn lemma_reordering_visits_each_once(order: Seq<Pixel>, n: nat)
    requires
        n <= u16::MAX,
        order.to_multiset() == raster(n).to_multiset(),
    ensures
        visits_each_once(order, n),
{
    let r = raster(n);
    lemma_raster_visits_each_once(n);
    order.to_multiset_ensures();
    r.to_multiset_ensures();
    r.lemma_multiset_has_no_duplicates();
    order.lemma_multiset_has_no_duplicates_conv();
    assert forall|i: int| 0 <= i < order.len() implies on_grid(#[trigger] order[i], n) by {
        assert(order.contains(order[i]));
        assert(r.to_multiset().count(order[i]) > 0);
        assert(r.contains(order[i]));
        let j = choose|j: int| 0 <= j < r.len() && r[j] == order[i];
        assert(on_grid(r[j], n));
    }
    assert forall|p: Pixel| on_grid(p, n) implies order.contains(p) by {
        assert(r.contains(p));
        assert(order.to_multiset().count(p) > 0);
    }
}

/// Every pixel of the grid of side `n`, in raster order.
pub fn pixel_grid(n: u16) -> (pixels: Vec<Pixel>)
    ensures
        pixels@ == raster(n as nat),
{
    let mut pixels: Vec<Pixel> = Vec::new();
    let mut x: u16 = 0;
    while x < n
        invariant
            x <= n,
            pixels@.len() == x as int * n as int,
            forall|i: int| 0 <= i < pixels@.len() ==> #[trigger] pixels@[i] == raster(n as nat)[i],
        decreases n - x,
    {
        let mut y: u16 = 0;
        while y < n
            invariant
                x < n,
                y <= n,
                pixels@.len() == x as int * n as int + y as int,
                forall|i: int|
                    0 <= i < pixels@.len() ==> #[trigger] pixels@[i] == raster(n as nat)[i],
            decreases n - y,
        {
            proof {
                lemma_raster_index(n as int, x as int, y as int);
            }
            pixels.push(Pixel { x, y });
            y = y + 1;
        }
        assert((x + 1) * n == x * n + n) by (nonlinear_arith);
        x = x + 1;
    }
    assert(pixels@ =~= raster(n as nat));
    pixels
}

/// The position of pixel `p` in the raster of side `n`.
pub open spec fn raster_position(p: Pixel, n: nat) -> int {
    p.x as int * n as int + p.y as int
}

/// Whether `order` visits every pixel of the grid of side `n` exactly once and
/// nothing else: what a job that ran to its end must have delivered.
pub fn visits_grid_once(order: &Vec<Pixel>, n: u16) -> (r: bool)
    ensures
        r == visits_each_once(order@, n as nat),
{
    let side: usize = n as usize;
    assert(side * side <= 65535 * 65535) by (nonlinear_arith)
        requires
            side <= 65535,
    ;
    let total: usize = side * side;
    if order.len() != total {
        return false;
    }
    let mut seen: Vec<bool> = Vec::new();
    let mut i: usize = 0;
    while i < total
        invariant
            i <= total,
            seen@.len() == i,
            forall|j: int| 0 <= j < i ==> !seen@[j],
        decreases total - i,
    {
        seen.push(false);
        i = i + 1;
    }
    let ghost grid = raster(n as nat);
    let mut k: usize = 0;
    while k < order.len()
        invariant
            k <= order@.len(),
            order@.len() == total,
            total == n as int * n as int,
            side == n,
            grid == raster(n as nat),
            seen@.len() == total,
            forall|j: int| 0 <= j < k ==> on_grid(#[trigger] order@[j], n as nat),
            forall|j: int|
                0 <= j < k ==> 0 <= raster_position(#[trigger] order@[j], n as nat) < total
                    && seen@[raster_position(order@[j], n as nat)],
            forall|i: int|
                0 <= i < total && #[trigger] seen@[i] ==> exists|j: int|
                    0 <= j < k && #[trigger] order@[j] == grid[i],
            forall|a: int, b: int| 0 <= a < b < k ==> order@[a] != order@[b],
        decreases order@.len() - k,
    {
        let p = order[k];
        if p.x >= n || p.y >= n {
            assert(!on_grid(order@[k as int], n as nat));
            return false;
        }
        proof {
            lemma_raster_index(n as int, p.x as int, p.y as int);
            assert(0 <= p.x as int * n as int) by (nonlinear_arith)
                requires
                    0 <= p.x as int,
                    0 <= n as int,
            ;
        }
        let idx: usize = p.x as usize * side + p.y as usize;
        assert(grid[idx as int] == p);
        if seen[idx] {
            proof {
                let j = choose|j: int| 0 <= j < k && #[trigger] order@[j] == grid[idx as int];
                assert(order@[j] == order@[k as int]);
            }
            return false;
        }
        let ghost before = seen@;
        seen.set(idx, true);
        proof {
            assert forall|a: int, b: int| 0 <= a < b < k + 1 implies order@[a] != order@[b] by {
                if b == k && order@[a] == p {
                    assert(before[raster_position(order@[a], n as nat)]);
                }
            }
            assert forall|i: int| 0 <= i < total && #[trigger] seen@[i] implies exists|j: int|
                0 <= j < k + 1 && #[trigger] order@[j] == grid[i] by {
                if i == idx {
                    assert(order@[k as int] == grid[i]);
                } else {
                    assert(before[i]);
                    let j = choose|j: int| 0 <= j < k && #[trigger] order@[j] == grid[i];
                    assert(0 <= j < k + 1 && order@[j] == grid[i]);
                }
            }
        }
        k = k + 1;
    }
    let mut i: usize = 0;
    while i < total
        invariant
            i <= total,
            seen@.len() == total,
            total == n as int * n as int,
            grid == raster(n as nat),
            forall|j: int| 0 <= j < i ==> seen@[j],
            forall|j: int|
                0 <= j < order@.len() ==> 0 <= raster_position(#[trigger] order@[j], n as nat)
                    < total && seen@[raster_position(order@[j], n as nat)],
            forall|j: int| 0 <= j < order@.len() ==> on_grid(#[trigger] order@[j], n as nat),
        decreases total - i,
    {
        if !seen[i] {
            proof {
                assert(n > 0) by {
                    if n == 0 {
                        assert(n as int * n as int == 0);
                    }
                }
                lemma_raster_split(n as int, i as int);
                let missing = grid[i as int];
                assert(on_grid(missing, n as nat));
                assert(raster_position(missing, n as nat) == i);
                if order@.contains(missing) {
                    let j = choose|j: int| 0 <= j < order@.len() && order@[j] == missing;
                    assert(seen@[raster_position(order@[j], n as nat)]);
                }
            }
            return false;
        }
        i = i + 1;
    }
    proof {
        assert forall|p: Pixel| on_grid(p, n as nat) implies order@.contains(p) by {
            lemma_raster_index(n as int, p.x as int, p.y as int);
            let i = raster_position(p, n as nat);
            assert(seen@[i]);
            assert(grid[i] == p);
        }
    }
    true
}

/// Calls `rand::seq::SliceRandom::shuffle` with the thread-local generator of
/// `rand::thread_rng`, which the system seeds on first use. The shuffle only
/// swaps elements of the slice, so the pixels afterwards are those before,
/// each as often as before; which order comes out is left open. This
/// contract is taken on trust.
#[verifier::external_body]
fn shuffle(pixels: &mut Vec<Pixel>)
    ensures
        final(pixels)@.to_multiset() == old(pixels)@.to_multiset(),
{
    pixels.shuffle(&mut rand::thread_rng());
}

/// The visiting order of a new job on the grid of side `n`: the raster in a
/// random order. A grid of side zero is refused.
pub fn plan_job(n: u16) -> (plan: Result<Vec<Pixel>, ConfigError>)
    ensures
        n == 0 <==> plan == Err::<Vec<Pixel>, ConfigError>(ConfigError::EmptyGrid),
        n > 0 <==> plan is Ok,
        plan is Ok ==> plan->Ok_0@.to_multiset() == raster(n as nat).to_multiset(),
        plan is Ok ==> visits_each_once(plan->Ok_0@, n as nat),
{
    if n == 0 {
        return Err(ConfigError::EmptyGrid);
    }
    let mut pixels = pixel_grid(n);
    shuffle(&mut pixels);
    proof {
        lemma_reordering_visits_each_once(pixels@, n as nat);
    }
    Ok(pixels)
}

} // verus!
