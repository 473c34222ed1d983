use vstd::prelude::*;
use crate::random::random_below;

verus! {

/// A peer of a process on a two-dimensional periodic process grid.
#[derive(Clone, Copy, Debug, PartialEq, Eq, Structural)]
pub enum Peer {
    /// The neighbour one step back along the first dimension.
    ShiftSource,
    /// The neighbour one step forward along the first dimension.
    ShiftDest,
    /// The process at these grid coordinates.
    At(i32, i32),
    /// The process of rank 0.
    Root,
}

/// What one process does with the token that travels through the grid:
/// whom it takes the token from (if anyone), whom it passes it on to, and
/// whether it also reports its value to the process of rank 0.
#[derive(Clone, Copy, Debug, PartialEq, Eq, Structural)]
pub struct RingRoute {
    pub receive_from: Option<Peer>,
    pub forward_to: Peer,
    pub report_to_root: bool,
}

/// The route of the process of rank `rank` at grid coordinates `(c0, c1)`,
/// where `dims - 1` is taken to be the last coordinate in both dimensions.
/// The token runs down the first dimension, column by column.
pub open spec fn spec_ring_route(rank: int, c0: int, c1: int, dims: int) -> RingRoute {
    if rank == 0 {
        RingRoute { receive_from: None, forward_to: Peer::ShiftDest, report_to_root: false }
    } else if c0 == dims - 1 && c1 == dims - 1 {
        RingRoute {
            receive_from: Some(Peer::ShiftSource),
            forward_to: Peer::Root,
            report_to_root: false,
        }
    } else if c0 == dims - 1 {
        RingRoute {
            receive_from: Some(Peer::ShiftSource),
            forward_to: Peer::At(0, (c1 + 1) as i32),
            report_to_root: true,
        }
    } else if c0 == 0 {
        RingRoute {
            receive_from: Some(Peer::At((dims - 1) as i32, (c1 - 1) as i32)),
            forward_to: Peer::ShiftDest,
            report_to_root: true,
        }
    } else {
        RingRoute {
            receive_from: Some(Peer::ShiftSource),
            forward_to: Peer::ShiftDest,
            report_to_root: true,
        }
    }
}

/// Decides the route of one process of the token ring on the process grid.
pub fn ring_route(rank: i32, c0: i32, c1: i32, dims: i32) -> (res: RingRoute)
    requires
        i32::MIN < c1 < i32::MAX,
        i32::MIN < dims,
    ensures
        res == spec_ring_route(rank as int, c0 as int, c1 as int, dims as int),
{
    let last = dims - 1;
    if rank == 0 {
        RingRoute { receive_from: None, forward_to: Peer::ShiftDest, report_to_root: false }
    } else if c0 == last && c1 == last {
        RingRoute {
            receive_from: Some(Peer::ShiftSource),
            forward_to: Peer::Root,
            report_to_root: false,
        }
    } else if c0 == last {
        RingRoute {
            receive_from: Some(Peer::ShiftSource),
            forward_to: Peer::At(0, c1 + 1),
            report_to_root: true,
        }
    } else if c0 == 0 {
        RingRoute {
            receive_from: Some(Peer::At(last, c1 - 1)),
            forward_to: Peer::ShiftDest,
            report_to_root: true,
        }
    } else {
        RingRoute {
            receive_from: Some(Peer::ShiftSource),
            forward_to: Peer::ShiftDest,
            report_to_root: true,
        }
    }
}

/// Whether the route of a process depends on its second grid coordinate:
/// only a process other than rank 0 on the first or the last position of the
/// first dimension looks at it. Elsewhere, as on a one-dimensional grid, any
/// second coordinate gives the same route.
pub fn needs_second_coordinate(rank: i32, c0: i32, dims: i32) -> (res: bool)
    requires
        i32::MIN < dims,
    ensures
        res == (rank != 0 && (c0 == dims - 1 || c0 == 0)),
        !res ==> forall|c1: int|
            #[trigger] spec_ring_route(rank as int, c0 as int, c1, dims as int) == spec_ring_route(
                rank as int,
                c0 as int,
                0,
                dims as int,
            ),
{
    rank != 0 && (c0 == dims - 1 || c0 == 0)
}

/// The value a process passes on: what it received plus its own part, or
/// `None` where the sum does not fit in a `u32`.
pub open spec fn spec_add_contribution(received: u32, add: u32) -> Option<u32> {
    if received + add <= u32::MAX {
        Some((received + add) as u32)
    } else {
        None
    }
}

/// Adds the own part of a process to the token value it received.
pub fn add_contribution(received: u32, add: u32) -> (res: Option<u32>)
    ensures
        res == spec_add_contribution(received, add),
{
    received.checked_add(add)
}

/// The value that the process of rank 0 starts the token with: a random
/// number below 300.
pub fn ring_start_token() -> (t: u32)
    ensures
        t < 300,
{
    random_below(300)
}

/// Draws the own part of a process, a random number below 100, and adds it
/// to the received token value. Returns the part and the value to pass on.
pub fn ring_contribution(received: u32) -> (res: (u32, Option<u32>))
    ensures
        res.0 < 100,
        res.1 == spec_add_contribution(received, res.0),
{
    let add = random_below(100);
    (add, add_contribution(received, add))
}

// A model of the process grid on which the laws below are stated: an
// `n` x `n` grid, periodic along the first dimension, with ranks laid out
// row-major.
/// Rank of the process at `(c0, c1)` on an `n` x `n` grid laid out row-major.
pub open spec fn grid_rank(n: int, c0: int, c1: int) -> int {
    c0 * n + c1
}

/// Whether `(c0, c1)` lies on the `n` x `n` grid.
pub open spec fn on_grid(n: int, c0: int, c1: int) -> bool {
    0 <= c0 < n && 0 <= c1 < n
}

/// The grid coordinates that `peer` names, seen from the process at
/// `(c0, c1)` on an `n` x `n` grid that is periodic along the first
/// dimension.
pub open spec fn resolve(peer: Peer, n: int, c0: int, c1: int) -> (int, int) {
    match peer {
        Peer::ShiftSource => ((c0 - 1 + n) % n, c1),
        Peer::ShiftDest => ((c0 + 1) % n, c1),
        Peer::At(x, y) => (x as int, y as int),
        Peer::Root => (0, 0),
    }
}

/// The route of the process at `(c0, c1)` on an `n` x `n` grid, where the
/// number of dimensions handed to the route is `n` as well, so that `n - 1`
/// is the last coordinate of the grid.
pub open spec fn route_on_grid(n: int, c0: int, c1: int) -> RingRoute {
    spec_ring_route(grid_rank(n, c0, c1), c0, c1, n)
}

proof fn lemma_grid_rank(n: int, c0: int, c1: int)
    requires
        2 <= n,
        on_grid(n, c0, c1),
    ensures
        0 <= grid_rank(n, c0, c1) < n * n,
        grid_rank(n, c0, c1) == 0 <==> (c0 == 0 && c1 == 0),
{
    assert(0 <= c0 * n + c1 < n * n) by (nonlinear_arith)
        requires
            0 <= c0 < n,
            0 <= c1 < n,
    ;
    assert(c0 * n + c1 == 0 <==> (c0 == 0 && c1 == 0)) by (nonlinear_arith)
        requires
            0 <= c0,
            0 <= c1,
            2 <= n,
    ;
}

/// On a square grid whose side is the number of dimensions, the token route
/// is a chain: every process other than rank 0 takes the token from a
/// process of the grid, and that process passes it on to exactly this one.
pub proof fn lemma_ring_route_chains(n: int, c0: int, c1: int)
    requires
        2 <= n <= i32::MAX,
        on_grid(n, c0, c1),
        !(c0 == 0 && c1 == 0),
    ensures
        route_on_grid(n, c0, c1).receive_from is Some,
        ({
            let src = resolve(route_on_grid(n, c0, c1).receive_from->0, n, c0, c1);
            &&& on_grid(n, src.0, src.1)
            &&& resolve(route_on_grid(n, src.0, src.1).forward_to, n, src.0, src.1) == (c0, c1)
        }),
{
    lemma_grid_rank(n, c0, c1);
    let src = resolve(route_on_grid(n, c0, c1).receive_from->0, n, c0, c1);
    if c0 == 0 {
        assert(src == (n - 1, c1 - 1));
    } else {
        assert((c0 - 1 + n) % n == c0 - 1) by (nonlinear_arith)
            requires
                1 <= c0 < n,
        ;
        assert(src == (c0 - 1, c1));
    }
    lemma_grid_rank(n, src.0, src.1);
    if src.0 + 1 < n {
        assert((src.0 + 1) % n == src.0 + 1) by (nonlinear_arith)
            requires
                0 <= src.0,
                src.0 + 1 < n,
        ;
    }
}

/// On a square grid whose side is the number of dimensions, every process
/// other than rank 0 sends its value to rank 0 exactly once: either as a
/// report or, for the last process of the chain, by passing the token on.
/// Rank 0 itself passes the token to a process other than itself.
pub proof fn lemma_ring_route_reports_once(n: int, c0: int, c1: int)
    requires
        2 <= n <= i32::MAX,
        on_grid(n, c0, c1),
    ensures
        !(c0 == 0 && c1 == 0) ==> route_on_grid(n, c0, c1).report_to_root != (resolve(
            route_on_grid(n, c0, c1).forward_to,
            n,
            c0,
            c1,
        ) == (0int, 0int)),
        (c0 == 0 && c1 == 0) ==> resolve(route_on_grid(n, c0, c1).forward_to, n, c0, c1) != (
            0int,
            0int,
        ),
{
    lemma_grid_rank(n, c0, c1);
    if c0 + 1 < n {
        assert((c0 + 1) % n == c0 + 1) by (nonlinear_arith)
            requires
                0 <= c0,
                c0 + 1 < n,
        ;
    }
}


/// The process of the one-dimensional periodic grid of `size` processes that
/// `peer` names, seen from the process at coordinate `c0` (its rank).
pub open spec fn resolve_on_line(peer: Peer, size: int, c0: int) -> int {
    match peer {
        Peer::ShiftSource => (c0 - 1 + size) % size,
        Peer::ShiftDest => (c0 + 1) % size,
        Peer::At(x, y) => x as int,
        Peer::Root => 0,
    }
}

/// On a one-dimensional periodic grid (`dims == 1`, the coordinate of a
/// process being its rank) the token runs around a plain ring: rank 0 starts
/// it and passes it to rank `1 % size`; every other rank `r` takes it from
/// rank `r - 1`, passes it to rank `(r + 1) % size` and reports its value to
/// rank 0 (so the last rank, whose token goes on to rank 0, sends rank 0 its
/// value twice). Whatever second coordinate is given is not looked at.
pub proof fn lemma_ring_route_line(size: int, r: int, c1: int)
    requires
        2 <= size,
        0 <= r < size,
    ensures
        r == 0 ==> spec_ring_route(r, r, c1, 1).receive_from is None && resolve_on_line(
            spec_ring_route(r, r, c1, 1).forward_to,
            size,
            r,
        ) == 1,
        r != 0 ==> {
            let route = spec_ring_route(r, r, c1, 1);
            &&& route.receive_from is Some
            &&& resolve_on_line(route.receive_from->0, size, r) == r - 1
            &&& resolve_on_line(route.forward_to, size, r) == (r + 1) % size
            &&& route.report_to_root
            &&& resolve_on_line(spec_ring_route(r - 1, r - 1, c1, 1).forward_to, size, r - 1)
                == r
        },
{
    assert((r + 1) % size == if r + 1 == size { 0 } else { r + 1 }) by (nonlinear_arith)
        requires
            0 <= r < size,
    ;
    if r >= 1 {
        assert((r - 1 + size) % size == r - 1) by (nonlinear_arith)
            requires
                1 <= r < size,
        ;
    }
    assert(r < size ==> r % size == r) by (nonlinear_arith)
        requires
            0 <= r,
            0 < size,
    ;
}

} // verus!
