use parabox::engine::simulation::Simulator;
use parabox::engine::{BlockNo, Cell, Direction, Game, GlobalPos, Pos};

const SIMPLE_PUSH: &str = "version 4
#
Block 0 0 0 5 5 0 0 0.5 1 0 0 0 0 0 0 0
\tWall 0 0 0 0 0
\tWall 1 0 0 0 0
\tWall 2 0 0 0 0
\tWall 3 0 0 0 0
\tWall 4 0 0 0 0
\tWall 0 4 0 0 0
\tWall 4 4 0 0 0
\tWall 0 1 0 0 0
\tWall 0 2 0 0 0
\tWall 0 3 0 0 0
\tWall 4 1 0 0 0
\tWall 4 2 0 0 0
\tWall 4 3 0 0 0
\tWall 1 4 0 0 0
\tWall 2 4 0 0 0
\tWall 3 4 0 0 0
\tBlock 1 1 1 1 1 0 0 1 1 1 1 1 0 0 0 0
\tBlock 2 1 2 1 1 0 0 1 1 1 0 0 0 0 0 0
\tFloor 3 1 Button
";

const SELF_ENTER: &str = "version 4
#
Block 0 0 1 3 3 0 0 0.5 1 0 0 0 0 0 0 0
\tBlock 0 1 2 1 1 0 0 1 1 1 1 1 0 0 0 0
\tBlock 1 1 0 1 1 0.6 0.8 1 1 0 0 0 0 0 0 0
\t\tRef 0 0 0 0 0 0 0 0 0 0 0 0 0 0 0
\tWall 2 1 0 0 0
";

const SELF_EXIT: &str = "version 4
#
Block 0 0 0 1 2 0 0 0.5 1 0 0 0 0 0 0 0
\tBlock 0 0 1 1 1 0 0 1 1 1 1 1 0 0 0 0
\tRef 0 1 0 1 0 0 0 0 0 0 0 0 0 0 0
";

const FLIP: &str = "version 4
#
Block 0 0 9 3 2 0 0 0.5 1 0 0 0 0 0 0 0
\tBlock 0 0 1 1 1 0 0 1 1 1 1 1 0 0 0 0
\tRef 1 0 5 1 0 0 0 0 0 0 0 0 1 0 0
\tWall 2 0 0 0 0
\tBlock 0 1 5 3 3 0.3 0.5 1 1 0 0 0 0 0 0 0
";

const POSSESS: &str = "version 4
#
Block 0 0 0 3 1 0 0 0.5 1 0 0 0 0 0 0 0
\tBlock 0 0 1 1 1 0 0 1 1 1 1 1 0 0 0 0
\tWall 1 0 0 1 0
";

const EAT: &str = "version 4
attempt_order eat,push,enter,possess
#
Block 0 0 0 5 1 0 0 0.5 1 0 0 0 0 0 0 0
\tBlock 0 0 1 3 3 0 0 1 1 0 1 1 0 0 0 0
\tBlock 1 0 2 1 1 0 0 1 1 1 0 0 0 0 0 0
";

const BLOCKED_CHAIN: &str = "version 4
#
Block 0 0 0 4 1 0 0 0.5 1 0 0 0 0 0 0 0
\tBlock 0 0 1 1 1 0 0 1 1 1 1 1 0 0 0 0
\tBlock 1 0 2 1 1 0 0 1 1 1 0 0 0 0 0 0
\tWall 2 0 0 0 0
";

const PUSH_CHAIN: &str = "version 4
#
Block 0 0 0 4 1 0 0 0.5 1 0 0 0 0 0 0 0
\tBlock 0 0 1 1 1 0 0 1 1 1 1 1 0 0 0 0
\tBlock 1 0 2 1 1 0 0 1 1 1 0 0 0 0 0 0
\tBlock 2 0 3 1 1 0 0 1 1 1 0 0 0 0 0 0
";

fn load(text: &str) -> Game {
    match Game::from_str(text) {
        Ok(game) => game,
        Err(e) => panic!("no level: {:?}", e),
    }
}

fn direction_of(c: char) -> Option<Direction> {
    match c {
        'U' => Some(Direction::Up),
        'D' => Some(Direction::Down),
        'L' => Some(Direction::Left),
        'R' => Some(Direction::Right),
        _ => None,
    }
}

fn test_level(name: &str, text: &str, solution: &str) -> Result<(), String> {
    let mut game = load(text);
    let mut steps = 0;
    for c in solution.chars() {
        let direction = match c {
            ' ' | '\n' => continue,
            _ => match direction_of(c) {
                Some(direction) => direction,
                None => return Err(format!("[{}] invalid solution character: {}", name, c)),
            },
        };
        if game.won() {
            return Err(format!("[{}] should not win now after {} steps", name, steps));
        }
        game.play(direction);
        steps += 1;
    }
    if !game.won() {
        return Err(format!("[{}] should win now after {} steps", name, steps));
    }
    Ok(())
}

fn distinct_places(game: &Game) -> bool {
    let cells = game.cells();
    for i in 0..cells.len() {
        for j in (i + 1)..cells.len() {
            if cells[i].gpos() == cells[j].gpos() && cells[i].gpos().block_id != usize::MAX {
                return false;
            }
        }
    }
    true
}

fn inside_containers(game: &Game) -> bool {
    game.cells().iter().all(|cell| {
        let gpos = cell.gpos();
        gpos.block_id == usize::MAX
            || match game.cells()[gpos.block_id].block() {
                Some(block) => block.in_bounds(gpos.pos),
                None => false,
            }
    })
}

#[test]
fn test_levels() {
    let levels = vec![("simple_push", SIMPLE_PUSH, "R"), ("simple_push_spaced", SIMPLE_PUSH, " R\n")];
    let mut results = Vec::new();
    for (name, text, solution) in levels {
        if let Err(message) = test_level(name, text, solution) {
            results.push(message);
        }
    }
    if !results.is_empty() {
        for result in &results {
            println!("{}", result);
        }
        panic!("{} levels failed", results.len());
    }
}

#[test]
fn simple_push_wins() {
    let mut game = load(SIMPLE_PUSH);
    assert!(!game.won());
    let pushed = game.player_ids()[0] + 1;
    game.play(Direction::Right);
    assert!(game.won());
    let player = game.player_ids()[0];
    assert_eq!(game.cells()[player].gpos(), GlobalPos { block_id: 0, pos: Pos(2, 1) });
    assert_eq!(game.cells()[pushed].gpos(), GlobalPos { block_id: 0, pos: Pos(3, 1) });
    assert!(distinct_places(&game));
    assert!(inside_containers(&game));
}

#[test]
fn simple_push_stops_at_the_wall() {
    let mut game = load(SIMPLE_PUSH);
    game.play(Direction::Right);
    let before = game.cells().clone();
    // the chain player, block, wall does not move
    game.play(Direction::Right);
    assert_eq!(game.cells(), &before);
    assert!(game.won());
}

#[test]
fn self_enter_cycle_makes_an_endless_block() {
    let mut game = load(SELF_ENTER);
    assert_eq!(game.cells().len(), 5);
    game.play(Direction::Right);
    assert_eq!(game.cells().len(), 7);
    let space = game.cells()[5].block().unwrap();
    assert!(space.space);
    assert_eq!(space.gpos.block_id, usize::MAX);
    assert_eq!((space.width, space.height), (7, 7));
    let endless = game.cells()[6].block().unwrap();
    assert_eq!(endless.inf_enter, Some((BlockNo(0), 0)));
    assert_eq!((endless.width, endless.height), (5, 5));
    assert!(endless.locked);
    assert!(!endless.space);
    assert_eq!(endless.gpos, GlobalPos { block_id: 5, pos: Pos(3, 3) });
    // the colour of the block that was entered
    assert_eq!(endless.hsv, game.cells()[2].block().unwrap().hsv);
    // fresh numbers: the level holds 0, 1 and 2
    assert_eq!(space.block_no, BlockNo(3));
    assert_eq!(endless.block_no, BlockNo(4));
    // the player lands on the middle of the edge that it came in by
    let player = &game.cells()[game.player_ids()[0]];
    assert_eq!(player.gpos(), GlobalPos { block_id: 6, pos: Pos(0, 2) });
    assert_eq!(game.inf_enter_id_for(game.cells()[2].block().unwrap(), 0), Some(6));
    assert!(distinct_places(&game));
    assert!(inside_containers(&game));
}

#[test]
fn self_exit_cycle_makes_an_endless_reference() {
    let mut game = load(SELF_EXIT);
    assert_eq!(game.cells().len(), 3);
    assert_eq!(game.inf_exit_id_for(BlockNo(0), 0), None);
    game.play(Direction::Left);
    assert_eq!(game.cells().len(), 5);
    let endless = game.cells()[4].reference().unwrap();
    assert_eq!(endless.inf_exit, Some(0));
    assert_eq!(endless.target_no, BlockNo(0));
    assert!(!endless.exit);
    assert!(!endless.can_enter());
    assert_eq!(endless.gpos, GlobalPos { block_id: 3, pos: Pos(3, 3) });
    assert_eq!(game.inf_exit_id_for(BlockNo(0), 0), Some(4));
    // the player came out of it and went one step on
    let player = &game.cells()[game.player_ids()[0]];
    assert_eq!(player.gpos(), GlobalPos { block_id: 3, pos: Pos(2, 3) });
    assert!(distinct_places(&game));
    assert!(inside_containers(&game));
}

#[test]
fn flip_traversal_mirrors_the_player() {
    let mut game = load(FLIP);
    let player = game.player_ids()[0];
    assert!(!game.cells()[player].fliph());
    game.play(Direction::Right);
    // moving right into a flipped reference, the player comes in by the
    // right edge, heading left
    assert_eq!(game.cells()[player].gpos(), GlobalPos { block_id: 4, pos: Pos(2, 1) });
    assert!(game.cells()[player].fliph());
    // and back out again through the same reference, which is the exit of
    // the block: the flip is undone
    game.play(Direction::Right);
    assert_eq!(game.cells()[player].gpos(), GlobalPos { block_id: 0, pos: Pos(0, 0) });
    assert!(!game.cells()[player].fliph());
    assert!(distinct_places(&game));
}

#[test]
fn possess_switches_the_player() {
    let mut game = load(POSSESS);
    let before = game.cells().clone();
    assert_eq!(game.player_ids(), &vec![1]);
    game.play(Direction::Right);
    assert_eq!(game.cells(), &before);
    assert_eq!(game.player_ids(), &vec![2]);
    // the wall is the player now; it cannot move, and takes the block back
    game.play(Direction::Left);
    assert_eq!(game.player_ids(), &vec![1]);
    assert_eq!(game.cells(), &before);
}

#[test]
fn eat_takes_the_target_in() {
    let mut game = load(EAT);
    game.play(Direction::Right);
    assert_eq!(game.cells()[1].gpos(), GlobalPos { block_id: 0, pos: Pos(1, 0) });
    assert_eq!(game.cells()[2].gpos(), GlobalPos { block_id: 1, pos: Pos(2, 1) });
    assert_eq!(game.cells().len(), 3);
    assert!(distinct_places(&game));
    assert!(inside_containers(&game));
}

#[test]
fn blocked_chain_fails_atomically() {
    let mut game = load(BLOCKED_CHAIN);
    let cells = game.cells().clone();
    let goals = game.goals().clone();
    let players = game.player_ids().clone();
    game.play(Direction::Right);
    assert_eq!(game.cells(), &cells);
    assert_eq!(game.goals(), &goals);
    assert_eq!(game.player_ids(), &players);
    // and again
    game.play(Direction::Right);
    assert_eq!(game.cells(), &cells);
}

#[test]
fn push_chain_moves_together() {
    let mut game = load(PUSH_CHAIN);
    game.play(Direction::Right);
    assert_eq!(game.cells()[1].gpos().pos, Pos(1, 0));
    assert_eq!(game.cells()[2].gpos().pos, Pos(2, 0));
    assert_eq!(game.cells()[3].gpos().pos, Pos(3, 0));
    // now the chain stands against the edge of a block without an exit
    let cells = game.cells().clone();
    game.play(Direction::Right);
    assert_eq!(game.cells(), &cells);
    assert!(distinct_places(&game));
}

#[test]
fn no_exit_at_the_edge_of_the_top_block() {
    let mut game = load(PUSH_CHAIN);
    let cells = game.cells().clone();
    for direction in [Direction::Left, Direction::Up, Direction::Down] {
        game.play(direction);
        assert_eq!(game.cells(), &cells);
    }
    let top = game.cells()[0].block().unwrap();
    assert_eq!(game.exit_id_for(top), None);
}

#[test]
fn same_presses_same_world() {
    let presses = "RRLLUDRL";
    let mut one = load(SIMPLE_PUSH);
    let mut other = load(SIMPLE_PUSH);
    for c in presses.chars() {
        one.play(direction_of(c).unwrap());
    }
    for c in presses.chars() {
        let mut simulator = Simulator::new(&mut other);
        simulator.play(direction_of(c).unwrap());
    }
    assert_eq!(one.cells(), other.cells());
    assert_eq!(one.goals(), other.goals());
    assert_eq!(one.player_ids(), other.player_ids());
}

#[test]
fn invariants_hold_after_every_turn() {
    for text in [SIMPLE_PUSH, SELF_ENTER, SELF_EXIT, FLIP, POSSESS, EAT, PUSH_CHAIN] {
        let mut game = load(text);
        for c in "RRULDLDRUURDLL".chars() {
            game.play(direction_of(c).unwrap());
            assert!(distinct_places(&game));
            assert!(inside_containers(&game));
            for cell in game.cells() {
                if let Cell::Reference(reference) = cell {
                    if reference.can_enter() {
                        assert!(game.block_by_no(reference.target_no).is_some());
                    }
                }
            }
            for id in game.player_ids() {
                assert!(*id < game.cells().len());
                assert!(game.cells()[*id].possessable());
            }
        }
    }
}

const INNER_PUSH: &str = "#
Block 0 0 0 5 1 0 0 0.5 1 0 0 0 0 0 0 0
\tBlock 1 0 1 3 1 0 0 1 1 0 0 0 0 0 0 0
\t\tBlock 0 0 2 1 1 0 0 1 1 1 1 1 0 0 0 0
\t\tWall 1 0 0 0 0
";

const SHED: &str = "#
Block 0 0 0 3 1 0 0 0.5 1 0 0 0 0 0 0 0
\tBlock 2 0 1 1 1 0 0 1 1 0 0 0 0 0 0 0
\t\tBlock 0 0 2 1 1 0 0 1 1 1 1 1 0 0 0 0
";

const TWO_PLAYERS: &str = "version 4
#
Block 0 0 0 5 1 0 0 0.5 1 0 0 0 0 0 0 0
\tBlock 0 0 1 1 1 0 0 1 1 1 1 1 1 0 0 0
\tBlock 1 0 2 1 1 0 0 1 1 1 1 1 0 0 0 0
";

const FILLED_TARGET: &str = "version 4
#
Block 0 0 0 4 1 0 0 0.5 1 0 0 0 0 0 0 0
\tBlock 0 0 1 1 1 0 0 1 1 1 1 1 0 0 0 0
\tRef 1 0 5 0 0 0 0 0 0 0 0 0 0 0 0
\tWall 2 0 0 0 0
\tBlock 3 0 5 1 1 0 0 1 1 1 0 0 0 0 0 0
";

const ROOM: &str = "version 4
#
Block 0 0 0 3 3 0 0 0.5 1 0 0 0 0 0 0 0
\tBlock 0 1 1 1 1 0 0 1 1 1 1 1 0 0 0 0
\tBlock 1 1 2 3 3 0 0 1 1 0 0 0 0 0 0 0
\tWall 2 1 0 0 0
";

#[test]
fn inner_push_moves_the_block_around_the_wall() {
    let mut game = load(&format!("version 4\ninner_push\n{}", INNER_PUSH));
    let before = game.cells().clone();
    game.play(Direction::Right);
    assert_eq!(game.cells()[1].gpos(), GlobalPos { block_id: 0, pos: Pos(2, 0) });
    // the player and the wall stay where they are in the block
    assert_eq!(game.cells()[2], before[2]);
    assert_eq!(game.cells()[3], before[3]);
    assert_eq!(game.cells()[0], before[0]);
    // without the rule, the wall stands
    let mut plain = load(&format!("version 4\n{}", INNER_PUSH));
    plain.play(Direction::Right);
    assert_eq!(plain.cells(), &before);
}

#[test]
fn shed_moves_the_block_from_under_the_player() {
    let mut game = load(&format!("version 4\nshed\n{}", SHED));
    let before = game.cells().clone();
    game.play(Direction::Right);
    assert_eq!(game.cells()[2].gpos(), GlobalPos { block_id: 0, pos: Pos(2, 0) });
    assert_eq!(game.cells()[1].gpos(), GlobalPos { block_id: 0, pos: Pos(1, 0) });
    assert!(distinct_places(&game));
    // without the rule, the player stays in
    let mut plain = load(&format!("version 4\n{}", SHED));
    plain.play(Direction::Right);
    assert_eq!(plain.cells(), &before);
}

#[test]
fn players_move_in_their_order() {
    // the cell 2 is the first player, the cell 1 the second
    let mut game = load(TWO_PLAYERS);
    assert_eq!(game.player_ids(), &vec![2, 1]);
    game.play(Direction::Right);
    assert_eq!(game.cells()[2].gpos().pos, Pos(2, 0));
    assert_eq!(game.cells()[1].gpos().pos, Pos(1, 0));
    // to the left, the first pushes the second, which then moves once more
    game.play(Direction::Left);
    game.play(Direction::Left);
    assert_eq!(game.cells()[1].gpos().pos, Pos(0, 0));
    assert_eq!(game.cells()[2].gpos().pos, Pos(1, 0));
    assert_eq!(game.player_ids(), &vec![2, 1]);
}

#[test]
fn nothing_enters_a_reference_to_a_filled_block() {
    let mut game = load(FILLED_TARGET);
    let before = game.cells().clone();
    game.play(Direction::Right);
    assert_eq!(game.cells(), &before);
    assert_eq!(game.player_ids(), &vec![1]);
}

#[test]
fn into_a_block_and_out_again() {
    let mut game = load(ROOM);
    game.play(Direction::Right);
    // in by the middle of the left edge
    assert_eq!(game.cells()[1].gpos(), GlobalPos { block_id: 2, pos: Pos(0, 1) });
    game.play(Direction::Up);
    assert_eq!(game.cells()[1].gpos(), GlobalPos { block_id: 2, pos: Pos(0, 2) });
    // out by the top of the left edge: the point is 5/6, which is the top
    // third of the edge of the block around
    game.play(Direction::Left);
    assert_eq!(game.cells()[1].gpos(), GlobalPos { block_id: 0, pos: Pos(0, 1) });
    game.play(Direction::Right);
    assert_eq!(game.cells()[1].gpos(), GlobalPos { block_id: 2, pos: Pos(0, 1) });
    assert!(!game.cells()[1].fliph());
    assert_eq!(game.cells().len(), 4);
}

#[test]
fn a_simulator_starts_and_ends_clean() {
    let mut game = load(POSSESS);
    let mut simulator = Simulator::new(&mut game);
    assert_eq!(simulator.player_index, 0);
    assert!(simulator.move_stack.is_empty());
    simulator.play(Direction::Right);
    assert!(simulator.move_stack.is_empty());
    assert!(simulator.transfer_stack.is_empty());
    assert_eq!(simulator.move_index, 0);
    assert_eq!(simulator.game.player_ids(), &vec![2]);
}
