use parabox::engine::point::flip_heading;
use parabox::engine::{Direction, Pos, TransferPoint};

fn point(numer: i32, denom: i32) -> TransferPoint {
    TransferPoint { numer, denom }
}

#[test]
fn go_and_towards() {
    let mut pos = Pos(3, 4);
    pos.go(Direction::Up);
    assert_eq!(pos, Pos(3, 5));
    pos.go(Direction::Right);
    assert_eq!(pos, Pos(4, 5));
    pos.go(Direction::Down);
    pos.go(Direction::Down);
    assert_eq!(pos, Pos(4, 3));
    pos.go(Direction::Left);
    assert_eq!(pos, Pos(3, 3));
    assert_eq!(Pos(0, 0).towards(Direction::Left), Pos(-1, 0));
    assert_eq!(Pos(0, 0).towards(Direction::Down), Pos(0, -1));
}

#[test]
fn opposite_and_mirror() {
    assert_eq!(Direction::Up.opposite(), Direction::Down);
    assert_eq!(Direction::Down.opposite(), Direction::Up);
    assert_eq!(Direction::Left.opposite(), Direction::Right);
    assert_eq!(Direction::Right.opposite(), Direction::Left);
    assert_eq!(Direction::Left.mirror(), Direction::Right);
    assert_eq!(Direction::Right.mirror(), Direction::Left);
    assert_eq!(Direction::Up.mirror(), Direction::Up);
    assert_eq!(Direction::Down.mirror(), Direction::Down);
}

#[test]
fn middle_and_one() {
    assert_eq!(TransferPoint::middle(), point(1, 2));
    assert_eq!(TransferPoint::one(), point(1, 1));
}

#[test]
fn exit_point_is_exact() {
    // (1/2 + 0) / 3
    assert_eq!(point(1, 2).exit(0, 3), Some(point(1, 6)));
    // (1/2 + 1) / 3 = 1/2
    assert_eq!(point(1, 2).exit(1, 3), Some(point(1, 2)));
    // (1/3 + 2) / 5 = 7/15
    assert_eq!(point(1, 3).exit(2, 5), Some(point(7, 15)));
    // (1/2 + 1) / 2 = 3/4
    assert_eq!(point(1, 2).exit(1, 2), Some(point(3, 4)));
    // (0 + 0) / 4 = 0
    assert_eq!(point(0, 1).exit(0, 4), Some(point(0, 1)));
    // (1 + 3) / 4 = 1
    assert_eq!(point(1, 1).exit(3, 4), Some(point(1, 1)));
}

#[test]
fn enter_point_is_exact() {
    // 1/6 of 3: cell 0, at 1/2
    assert_eq!(point(1, 6).enter(3), Some((0, point(1, 2))));
    // 7/15 of 5: cell 2, at 1/3
    assert_eq!(point(7, 15).enter(5), Some((2, point(1, 3))));
    // 1/2 of 5: cell 2, at 1/2
    assert_eq!(point(1, 2).enter(5), Some((2, point(1, 2))));
    // 1/2 of 2: cell 1, at 0
    assert_eq!(point(1, 2).enter(2), Some((1, point(0, 1))));
    // 1/2 of 1: cell 0, at 1/2
    assert_eq!(point(1, 2).enter(1), Some((0, point(1, 2))));
    // 0 of 7: cell 0, at 0
    assert_eq!(point(0, 1).enter(7), Some((0, point(0, 1))));
}

#[test]
fn enter_at_one_has_no_landing() {
    assert_eq!(point(1, 1).enter(3), None);
}

#[test]
fn round_trip_returns_the_point() {
    for side in 1..8 {
        for coord in 0..side {
            for p in [point(1, 2), point(1, 3), point(2, 3), point(0, 1), point(5, 7), point(1, 9)] {
                let out = p.exit(coord, side).unwrap();
                assert_eq!(out.enter(side), Some((coord, p)));
            }
        }
    }
}

#[test]
fn thirds_through_a_chain_of_thirds() {
    // a third of a third of a third, and back again
    let p = point(1, 3);
    let a = p.exit(1, 3).unwrap();
    assert_eq!(a, point(4, 9));
    let b = a.exit(2, 3).unwrap();
    assert_eq!(b, point(22, 27));
    let c = b.exit(0, 3).unwrap();
    assert_eq!(c, point(22, 81));
    assert_eq!(c.enter(3), Some((0, b)));
    assert_eq!(b.enter(3), Some((2, a)));
    assert_eq!(a.enter(3), Some((1, p)));
}

#[test]
fn fractions_that_do_not_fit_are_refused() {
    let fine = point(1, 1 << 20);
    assert_eq!(fine.exit(0, 1 << 12), None);
    assert_eq!(fine.exit(0, 1 << 10), Some(point(1, 1 << 30)));
    let wide = point((1 << 30) - 1, 1 << 30);
    assert_eq!(wide.enter(4), None);
    assert_eq!(wide.exit(1, 2), None);
}

#[test]
fn mirror_is_one_minus() {
    assert_eq!(point(1, 3).mirror(), point(2, 3));
    assert_eq!(point(1, 2).mirror(), point(1, 2));
    assert_eq!(point(0, 1).mirror(), point(1, 1));
    assert_eq!(point(1, 1).mirror(), point(0, 1));
    assert_eq!(point(7, 15).mirror(), point(8, 15));
}

#[test]
fn flipping_twice_restores_the_heading() {
    for direction in [Direction::Up, Direction::Down, Direction::Left, Direction::Right] {
        for p in [point(1, 2), point(1, 3), point(0, 1), point(4, 9)] {
            let once = flip_heading(direction, p);
            let twice = flip_heading(once.0, once.1);
            assert_eq!(twice, (direction, p));
        }
    }
    assert_eq!(flip_heading(Direction::Left, point(1, 3)), (Direction::Right, point(1, 3)));
    assert_eq!(flip_heading(Direction::Right, point(1, 3)), (Direction::Left, point(1, 3)));
    assert_eq!(flip_heading(Direction::Up, point(1, 3)), (Direction::Up, point(2, 3)));
    assert_eq!(flip_heading(Direction::Down, point(1, 3)), (Direction::Down, point(2, 3)));
}
