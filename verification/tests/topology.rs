use mpi_labs::topology::{
    add_contribution, needs_second_coordinate, ring_contribution, ring_route, ring_start_token, Peer, RingRoute,
};

fn resolve(peer: Peer, n: i32, c0: i32, c1: i32) -> (i32, i32) {
    match peer {
        Peer::ShiftSource => ((c0 - 1 + n) % n, c1),
        Peer::ShiftDest => ((c0 + 1) % n, c1),
        Peer::At(x, y) => (x, y),
        Peer::Root => (0, 0),
    }
}

fn route(n: i32, c0: i32, c1: i32) -> RingRoute {
    ring_route(c0 * n + c1, c0, c1, n)
}

#[test]
fn route_of_root() {
    let r = ring_route(0, 0, 0, 2);
    assert_eq!(r.receive_from, None);
    assert_eq!(r.forward_to, Peer::ShiftDest);
    assert!(!r.report_to_root);
}

#[test]
fn route_of_last_process() {
    let r = ring_route(3, 1, 1, 2);
    assert_eq!(r.receive_from, Some(Peer::ShiftSource));
    assert_eq!(r.forward_to, Peer::Root);
    assert!(!r.report_to_root);
}

#[test]
fn route_of_column_end() {
    let r = ring_route(2, 1, 0, 2);
    assert_eq!(r.receive_from, Some(Peer::ShiftSource));
    assert_eq!(r.forward_to, Peer::At(0, 1));
    assert!(r.report_to_root);
}

#[test]
fn route_of_column_start() {
    let r = ring_route(1, 0, 1, 2);
    assert_eq!(r.receive_from, Some(Peer::At(1, 0)));
    assert_eq!(r.forward_to, Peer::ShiftDest);
    assert!(r.report_to_root);
}

#[test]
fn route_of_inner_process() {
    let r = ring_route(4, 1, 1, 3);
    assert_eq!(r.receive_from, Some(Peer::ShiftSource));
    assert_eq!(r.forward_to, Peer::ShiftDest);
    assert!(r.report_to_root);
}

#[test]
fn routes_chain_on_square_grids() {
    for n in 2..6 {
        for c0 in 0..n {
            for c1 in 0..n {
                let r = route(n, c0, c1);
                if (c0, c1) == (0, 0) {
                    assert_ne!(resolve(r.forward_to, n, c0, c1), (0, 0));
                    continue;
                }
                let (s0, s1) = resolve(r.receive_from.unwrap(), n, c0, c1);
                assert!(0 <= s0 && s0 < n && 0 <= s1 && s1 < n);
                let rs = route(n, s0, s1);
                assert_eq!(resolve(rs.forward_to, n, s0, s1), (c0, c1));
                assert_ne!(r.report_to_root, resolve(r.forward_to, n, c0, c1) == (0, 0));
            }
        }
    }
}

#[test]
fn contribution_adds() {
    assert_eq!(add_contribution(250, 40), Some(290));
    assert_eq!(add_contribution(u32::MAX, 1), None);
    assert_eq!(add_contribution(u32::MAX, 0), Some(u32::MAX));
}

#[test]
fn start_token_below_bound() {
    for _ in 0..200 {
        assert!(ring_start_token() < 300);
    }
}

#[test]
fn contribution_is_drawn_below_hundred() {
    for _ in 0..200 {
        let (add, total) = ring_contribution(1000);
        assert!(add < 100);
        assert_eq!(total, Some(1000 + add));
    }
}

#[test]
fn route_on_a_line_is_a_plain_ring() {
    for size in 2..8 {
        for r in 0..size {
            let route = ring_route(r, r, 0, 1);
            let to = match route.forward_to {
                Peer::ShiftDest => (r + 1) % size,
                other => panic!("unexpected {:?}", other),
            };
            assert_eq!(to, (r + 1) % size);
            if r == 0 {
                assert_eq!(route.receive_from, None);
            } else {
                assert_eq!(route.receive_from, Some(Peer::ShiftSource));
                assert!(route.report_to_root);
            }
        }
    }
}

#[test]
fn second_coordinate_needed_only_on_edges() {
    assert!(!needs_second_coordinate(0, 0, 2));
    assert!(needs_second_coordinate(1, 0, 2));
    assert!(needs_second_coordinate(2, 1, 2));
    assert!(!needs_second_coordinate(4, 1, 3));
    for r in 1..6 {
        assert!(!needs_second_coordinate(r, r, 1));
        assert_eq!(ring_route(r, r, 0, 1), ring_route(r, r, 7, 1));
    }
}
