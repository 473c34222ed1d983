use vstd::prelude::*;

verus! {

/// One blocking message operation of a process, naming the peer by rank.
#[derive(Clone, Copy, Debug, PartialEq, Eq, Structural)]
pub enum Step {
    Send(i32),
    Receive(i32),
}

/// Ring: every process but the first waits for the token of its
/// predecessor and passes it on; the first process starts the token and
/// finally takes it back from the last one.
pub open spec fn spec_ring_plan(rank: int, size: int) -> Seq<Step> {
    if rank == 0 {
        seq![Step::Send((1int % size) as i32), Step::Receive((size - 1) as i32)]
    } else {
        seq![Step::Receive((rank - 1) as i32), Step::Send(((rank + 1) % size) as i32)]
    }
}

/// Gather: the first process receives one message from every other process,
/// in rank order; every other process sends one message to it.
pub open spec fn spec_gather_plan(rank: int, size: int) -> Seq<Step> {
    if rank == 0 {
        Seq::new((size - 1) as nat, |i: int| Step::Receive((i + 1) as i32))
    } else {
        seq![Step::Send(0)]
    }
}

/// Broadcast: the first process sends one message to every other process,
/// in rank order; every other process receives one message from it.
pub open spec fn spec_broadcast_plan(rank: int, size: int) -> Seq<Step> {
    if rank == 0 {
        Seq::new((size - 1) as nat, |i: int| Step::Send((i + 1) as i32))
    } else {
        seq![Step::Receive(0)]
    }
}

/// All-to-all: every process sends to every process, itself included, and
/// then receives from every process, both in rank order.
pub open spec fn spec_alltoall_plan(rank: int, size: int) -> Seq<Step> {
    Seq::new(size as nat, |i: int| Step::Send(i as i32)) + Seq::new(
        size as nat,
        |i: int| Step::Receive(i as i32),
    )
}

/// Messages of `plan_of(a)` to `b` are exactly the messages that
/// `plan_of(b)` expects from `a`, for every pair of ranks of the group, and
/// no process does the same operation twice.
pub open spec fn plans_match(plan_of: spec_fn(int) -> Seq<Step>, size: int) -> bool {
    &&& forall|a: int, b: int|
        0 <= a < size && 0 <= b < size ==> (#[trigger] plan_of(a).contains(Step::Send(b as i32))
            <==> #[trigger] plan_of(b).contains(Step::Receive(a as i32)))
    &&& forall|a: int| 0 <= a < size ==> (#[trigger] plan_of(a)).no_duplicates()
}

/// The operations of process `rank` in the ring exchange.
pub fn ring_plan(rank: i32, size: i32) -> (res: Vec<Step>)
    requires
        0 <= rank < size,
    ensures
        res@ == spec_ring_plan(rank as int, size as int),
{
    if rank == 0 {
        vec![Step::Send(1 % size), Step::Receive(size - 1)]
    } else {
        vec![Step::Receive(rank - 1), Step::Send((rank + 1) % size)]
    }
}

/// The operations of process `rank` in the gather exchange.
pub fn gather_plan(rank: i32, size: i32) -> (res: Vec<Step>)
    requires
        0 <= rank < size,
    ensures
        res@ == spec_gather_plan(rank as int, size as int),
{
    if rank == 0 {
        let mut res: Vec<Step> = Vec::new();
        let mut peer: i32 = 1;
        while peer < size
            invariant
                1 <= peer <= size,
                res@ =~= Seq::new((peer - 1) as nat, |i: int| Step::Receive((i + 1) as i32)),
            decreases size - peer,
        {
            res.push(Step::Receive(peer));
            peer = peer + 1;
        }
        res
    } else {
        vec![Step::Send(0)]
    }
}

/// The operations of process `rank` in the broadcast exchange.
pub fn broadcast_plan(rank: i32, size: i32) -> (res: Vec<Step>)
    requires
        0 <= rank < size,
    ensures
        res@ == spec_broadcast_plan(rank as int, size as int),
{
    if rank == 0 {
        let mut res: Vec<Step> = Vec::new();
        let mut peer: i32 = 0;
        while peer < size
            invariant
                rank == 0,
                0 <= peer <= size,
                res@ =~= Seq::new(
                    (if peer == 0 { 0 } else { peer - 1 }) as nat,
                    |i: int| Step::Send((i + 1) as i32),
                ),
            decreases size - peer,
        {
            if peer != rank {
                res.push(Step::Send(peer));
            }
            peer = peer + 1;
        }
        res
    } else {
        vec![Step::Receive(0)]
    }
}

/// The operations of process `rank` in the all-to-all exchange.
pub fn alltoall_plan(rank: i32, size: i32) -> (res: Vec<Step>)
    requires
        0 <= rank < size,
    ensures
        res@ == spec_alltoall_plan(rank as int, size as int),
{
    let mut res: Vec<Step> = Vec::new();
    let mut peer: i32 = 0;
    while peer < size
        invariant
            0 <= peer <= size,
            res@ =~= Seq::new(peer as nat, |i: int| Step::Send(i as i32)),
        decreases size - peer,
    {
        res.push(Step::Send(peer));
        peer = peer + 1;
    }
    let mut peer: i32 = 0;
    while peer < size
        invariant
            0 <= peer <= size,
            res@ =~= Seq::new(size as nat, |i: int| Step::Send(i as i32)) + Seq::new(
                peer as nat,
                |i: int| Step::Receive(i as i32),
            ),
        decreases size - peer,
    {
        res.push(Step::Receive(peer));
        peer = peer + 1;
    }
    res
}

proof fn lemma_pair_contains(x: Step, y: Step, z: Step)
    ensures
        seq![x, y].contains(z) <==> (z == x || z == y),
{
    if z == x {
        assert(seq![x, y][0] == z);
    }
    if z == y {
        assert(seq![x, y][1] == z);
    }
}

/// In the ring every message that is sent is expected by its receiver and
/// every expected message is sent.
pub proof fn lemma_ring_plans_match(size: int)
    requires
        0 < size <= i32::MAX,
    ensures
        plans_match(|r: int| spec_ring_plan(r, size), size),
{
    assert forall|a: int, b: int| 0 <= a < size && 0 <= b < size implies
        spec_ring_plan(a, size).contains(Step::Send(b as i32)) <==> spec_ring_plan(
            b,
            size,
        ).contains(Step::Receive(a as i32)) by {
        let pa = spec_ring_plan(a, size);
        let pb = spec_ring_plan(b, size);
        assert((a + 1) % size == if a + 1 == size { 0 } else { a + 1 }) by (nonlinear_arith)
            requires
                0 <= a < size,
        ;
        assert(1int % size == if size == 1 { 0int } else { 1int }) by (nonlinear_arith)
            requires
                0 < size,
        ;
        lemma_pair_contains(pa[0], pa[1], Step::Send(b as i32));
        lemma_pair_contains(pb[0], pb[1], Step::Receive(a as i32));
        assert(pa =~= seq![pa[0], pa[1]]);
        assert(pb =~= seq![pb[0], pb[1]]);
    }
    assert forall|a: int| 0 <= a < size implies spec_ring_plan(a, size).no_duplicates() by {
        let pa = spec_ring_plan(a, size);
        assert(pa[0] != pa[1]);
    }
}

/// In the gather exchange every message that is sent is expected by its
/// receiver and every expected message is sent.
pub proof fn lemma_gather_plans_match(size: int)
    requires
        0 < size <= i32::MAX,
    ensures
        plans_match(|r: int| spec_gather_plan(r, size), size),
{
    assert forall|a: int, b: int| 0 <= a < size && 0 <= b < size implies
        spec_gather_plan(a, size).contains(Step::Send(b as i32)) <==> spec_gather_plan(
            b,
            size,
        ).contains(Step::Receive(a as i32)) by {
        let pa = spec_gather_plan(a, size);
        let pb = spec_gather_plan(b, size);
        if b == 0 && a != 0 {
            assert(pa[0] == Step::Send(0));
            assert(pb[a - 1] == Step::Receive(a as i32));
        }
        if pa.contains(Step::Send(b as i32)) {
            let k = choose|k: int| 0 <= k < pa.len() && pa[k] == Step::Send(b as i32);
            assert(a != 0);
        }
        if pb.contains(Step::Receive(a as i32)) {
            let k = choose|k: int| 0 <= k < pb.len() && pb[k] == Step::Receive(a as i32);
            assert(b == 0);
        }
    }
    assert forall|a: int| 0 <= a < size implies spec_gather_plan(a, size).no_duplicates() by {
        let pa = spec_gather_plan(a, size);
        assert forall|i: int, j: int| 0 <= i < pa.len() && 0 <= j < pa.len() && i != j implies pa[i]
            != pa[j] by {}
    }
}

/// In the broadcast exchange every message that is sent is expected by its
/// receiver and every expected message is sent.
pub proof fn lemma_broadcast_plans_match(size: int)
    requires
        0 < size <= i32::MAX,
    ensures
        plans_match(|r: int| spec_broadcast_plan(r, size), size),
{
    assert forall|a: int, b: int| 0 <= a < size && 0 <= b < size implies
        spec_broadcast_plan(a, size).contains(Step::Send(b as i32)) <==> spec_broadcast_plan(
            b,
            size,
        ).contains(Step::Receive(a as i32)) by {
        let pa = spec_broadcast_plan(a, size);
        let pb = spec_broadcast_plan(b, size);
        if a == 0 && b != 0 {
            assert(pb[0] == Step::Receive(0));
            assert(pa[b - 1] == Step::Send(b as i32));
        }
        if pa.contains(Step::Send(b as i32)) {
            let k = choose|k: int| 0 <= k < pa.len() && pa[k] == Step::Send(b as i32);
            assert(a == 0);
        }
        if pb.contains(Step::Receive(a as i32)) {
            let k = choose|k: int| 0 <= k < pb.len() && pb[k] == Step::Receive(a as i32);
            assert(b != 0);
        }
    }
    assert forall|a: int| 0 <= a < size implies spec_broadcast_plan(a, size).no_duplicates() by {
        let pa = spec_broadcast_plan(a, size);
        assert forall|i: int, j: int| 0 <= i < pa.len() && 0 <= j < pa.len() && i != j implies pa[i]
            != pa[j] by {}
    }
}

/// In the all-to-all exchange every message that is sent is expected by its
/// receiver and every expected message is sent.
pub proof fn lemma_alltoall_plans_match(size: int)
    requires
        0 < size <= i32::MAX,
    ensures
        plans_match(|r: int| spec_alltoall_plan(r, size), size),
{
    assert forall|a: int, b: int| 0 <= a < size && 0 <= b < size implies
        spec_alltoall_plan(a, size).contains(Step::Send(b as i32)) <==> spec_alltoall_plan(
            b,
            size,
        ).contains(Step::Receive(a as i32)) by {
        let pa = spec_alltoall_plan(a, size);
        let pb = spec_alltoall_plan(b, size);
        assert(pa[b] == Step::Send(b as i32));
        assert(pb[size + a] == Step::Receive(a as i32));
    }
    assert forall|a: int| 0 <= a < size implies spec_alltoall_plan(a, size).no_duplicates() by {
        let pa = spec_alltoall_plan(a, size);
        assert forall|i: int, j: int| 0 <= i < pa.len() && 0 <= j < pa.len() && i != j implies pa[i]
            != pa[j] by {}
    }
}


/// In the ring only the process of rank 0 begins with a send; every other
/// process first waits for the token of its predecessor. So the blocking
/// operations cannot wait on each other in a circle: the token leaves rank 0
/// first and each wait is answered by the process before it.
pub proof fn lemma_ring_starts_at_root(size: int, rank: int)
    requires
        0 < size <= i32::MAX,
        0 <= rank < size,
    ensures
        spec_ring_plan(rank, size)[0] is Send <==> rank == 0,
        rank != 0 ==> spec_ring_plan(rank, size)[0] == Step::Receive((rank - 1) as i32),
{
}

} // verus!
