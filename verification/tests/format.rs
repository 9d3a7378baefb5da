use parabox::engine::text::{parse_i32, parse_milli, parse_u32, split_commas, tokenize};
use parabox::engine::{
    ActionType, Block, BlockNo, Cell, Game, GameConfig, GlobalPos, Goal, Hsv, ParseError,
    ParseErrorKind, Pos, Reference, Wall,
};

fn bytes(s: &str) -> Vec<u8> {
    s.as_bytes().to_vec()
}

fn error_of(text: &str) -> ParseError {
    match Game::from_str(text) {
        Ok(_) => panic!("a level after all"),
        Err(e) => e,
    }
}

fn load(text: &str) -> Game {
    match Game::from_str(text) {
        Ok(game) => game,
        Err(e) => panic!("no level: {:?}", e),
    }
}

#[test]
fn words_of_a_line() {
    assert_eq!(tokenize(b"\t\tWall 1  2\t3 \r"), vec![bytes("Wall"), bytes("1"), bytes("2"), bytes("3")]);
    assert_eq!(tokenize(b""), Vec::<Vec<u8>>::new());
    assert_eq!(tokenize(b"  \t "), Vec::<Vec<u8>>::new());
    assert_eq!(tokenize(b"x"), vec![bytes("x")]);
}

#[test]
fn pieces_between_commas() {
    assert_eq!(split_commas(&bytes("a,bc,,d")), vec![bytes("a"), bytes("bc"), bytes(""), bytes("d")]);
    assert_eq!(split_commas(&bytes("")), vec![bytes("")]);
    assert_eq!(split_commas(&bytes("push")), vec![bytes("push")]);
}

#[test]
fn numbers() {
    assert_eq!(parse_i32(&bytes("0")), Some(0));
    assert_eq!(parse_i32(&bytes("17")), Some(17));
    assert_eq!(parse_i32(&bytes("-17")), Some(-17));
    assert_eq!(parse_i32(&bytes("+17")), Some(17));
    assert_eq!(parse_i32(&bytes("2147483647")), Some(i32::MAX));
    assert_eq!(parse_i32(&bytes("-2147483648")), Some(i32::MIN));
    assert_eq!(parse_i32(&bytes("2147483648")), None);
    assert_eq!(parse_i32(&bytes("-2147483649")), None);
    assert_eq!(parse_i32(&bytes("99999999999999999999999")), None);
    assert_eq!(parse_i32(&bytes("")), None);
    assert_eq!(parse_i32(&bytes("-")), None);
    assert_eq!(parse_i32(&bytes("1x")), None);
    assert_eq!(parse_i32(&bytes("1.5")), None);
    assert_eq!(parse_u32(&bytes("4294967295")), Some(u32::MAX));
    assert_eq!(parse_u32(&bytes("4294967296")), None);
    assert_eq!(parse_u32(&bytes("-1")), None);
    assert_eq!(parse_u32(&bytes("3")), Some(3));
}

#[test]
fn thousandths() {
    assert_eq!(parse_milli(&bytes("0")), Some(0));
    assert_eq!(parse_milli(&bytes("1")), Some(1000));
    assert_eq!(parse_milli(&bytes("0.5")), Some(500));
    assert_eq!(parse_milli(&bytes("0.05")), Some(50));
    assert_eq!(parse_milli(&bytes("0.125")), Some(125));
    assert_eq!(parse_milli(&bytes("0.1259")), Some(125));
    assert_eq!(parse_milli(&bytes("12.")), Some(12000));
    assert_eq!(parse_milli(&bytes(".5")), None);
    assert_eq!(parse_milli(&bytes("0.5.1")), None);
    assert_eq!(parse_milli(&bytes("a")), None);
    assert_eq!(parse_milli(&bytes("1000001")), None);
    assert_eq!(parse_milli(&bytes("1000000.999")), Some(1000000999));
}

#[test]
fn an_empty_game() {
    let game = Game::new();
    assert!(game.cells().is_empty());
    assert!(game.goals().is_empty());
    assert!(game.player_ids().is_empty());
    assert!(!game.won());
    assert_eq!(
        game.config().attempt_order,
        vec![ActionType::Push, ActionType::Enter, ActionType::Eat, ActionType::Possess]
    );
    assert!(!game.config().shed);
    assert!(!game.config().inner_push);
    let config = GameConfig::default();
    assert_eq!(config.attempt_order, game.config().attempt_order);
    assert!(!config.shed && !config.inner_push);
}

#[test]
fn a_level_is_read() {
    let game = load(
        "version 4\nattempt_order enter,eat,push,possess\nshed\ninner_push\ndraw_style tui\n#\n\
         Block -1 -1 0 3 3 0.6 0.8 1 1 0 0 0 0 0 1 0\n\
         \tRef 0 0 0 1 0 0 0 0 0 1 1 2 1 0 0\n\
         \tWall 1 1 1 1 1\n\
         \tFloor 2 2 PlayerButton\n\
         \tFloor 2 1 Button\n\
         \tBlock 2 2 7 0 0 0 0 0.25 1 1 0 0 0 0 0 0\n",
    );
    assert_eq!(
        game.config().attempt_order,
        vec![ActionType::Enter, ActionType::Eat, ActionType::Push, ActionType::Possess]
    );
    assert!(game.config().shed);
    assert!(game.config().inner_push);
    assert_eq!(game.cells().len(), 5);
    // the space that the block floats in
    assert_eq!(
        game.cells()[0],
        Cell::Block(Block {
            id: 0,
            gpos: GlobalPos { block_id: usize::MAX, pos: Pos(0, 0) },
            block_no: BlockNo(0),
            width: 7,
            height: 7,
            hsv: Hsv { hue: 0, sat: 0, val: 500 },
            filled: false,
            space: true,
            locked: false,
            possessable: false,
            fliph: false,
            inf_enter: None,
        })
    );
    assert_eq!(
        game.cells()[1],
        Cell::Block(Block {
            id: 1,
            gpos: GlobalPos { block_id: 0, pos: Pos(3, 3) },
            block_no: BlockNo(0),
            width: 3,
            height: 3,
            hsv: Hsv { hue: 600, sat: 800, val: 1000 },
            filled: false,
            space: false,
            locked: false,
            possessable: false,
            fliph: false,
            inf_enter: None,
        })
    );
    assert_eq!(
        game.cells()[2],
        Cell::Reference(Reference {
            id: 2,
            gpos: GlobalPos { block_id: 1, pos: Pos(0, 0) },
            target_no: BlockNo(0),
            exit: true,
            inf_exit: None,
            possessable: true,
            fliph: true,
        })
    );
    assert_eq!(
        game.cells()[3],
        Cell::Wall(Wall { id: 3, gpos: GlobalPos { block_id: 1, pos: Pos(1, 1) }, possessable: true })
    );
    assert_eq!(game.cells()[4].block().unwrap().block_no, BlockNo(7));
    assert!(game.cells()[4].block().unwrap().filled);
    assert_eq!(
        game.goals(),
        &vec![
            Goal { gpos: GlobalPos { block_id: 1, pos: Pos(2, 2) }, player: true },
            Goal { gpos: GlobalPos { block_id: 1, pos: Pos(2, 1) }, player: false },
        ]
    );
    // players in the order of their places: the wall is 1, the reference 2
    assert_eq!(game.player_ids(), &vec![3, 2]);
    assert_eq!(game.block_by_no(BlockNo(0)).unwrap().id, 1);
    assert_eq!(game.block_by_no(BlockNo(7)).unwrap().id, 4);
    assert!(game.block_by_no(BlockNo(1)).is_none());
    assert_eq!(game.exit_id_for(game.cells()[1].block().unwrap()), Some(2));
    assert_eq!(game.exit_id_for(game.cells()[0].block().unwrap()), None);
    assert_eq!(game.exit_id_for(game.cells()[4].block().unwrap()), Some(4));
    assert!(game.is_space(0));
    assert!(!game.is_space(1));
    assert!(!game.is_space(usize::MAX));
}

#[test]
fn players_with_one_place_keep_their_order() {
    let game = load(
        "version 4\n#\nBlock 0 0 0 9 1 0 0 0 1 0 0 0 0 0 0 0\n\
         \tWall 0 0 1 1 5\n\tWall 1 0 1 1 3\n\tWall 2 0 1 1 5\n\tWall 3 0 1 1 -2\n\tWall 4 0 1 1 3\n",
    );
    assert_eq!(game.player_ids(), &vec![4, 2, 5, 1, 3]);
}

#[test]
fn endless_marks_from_the_level() {
    let game = load(
        "version 4\n#\nBlock 0 0 0 3 3 0 0 0 1 0 0 0 0 0 0 0\n\
         \tRef 0 0 4 0 0 0 1 2 0 0 0 0 0 0 0\n\
         \tRef 1 0 0 1 1 3 0 0 0 0 0 0 0 0 0\n\
         \tBlock 2 2 4 5 5 0 0 0 1 0 0 0 0 0 0 0\n",
    );
    // the block of number 4 stands for the descent into block 0, at degree 2
    assert_eq!(game.cells()[3].block().unwrap().inf_enter, Some((BlockNo(0), 2)));
    assert_eq!(game.inf_enter_id_for(game.cells()[0].block().unwrap(), 2), Some(3));
    assert_eq!(game.inf_enter_id_for(game.cells()[0].block().unwrap(), 1), None);
    // a reference that stands for an endless ascent is no exit
    let endless = game.cells()[2].reference().unwrap();
    assert_eq!(endless.inf_exit, Some(3));
    assert!(!endless.exit);
    assert!(!endless.can_enter());
    assert_eq!(game.inf_exit_id_for(BlockNo(0), 3), Some(2));
    assert_eq!(game.inf_exit_id_for(BlockNo(0), 0), None);
    assert!(game.cells()[1].reference().unwrap().can_enter());
}

#[test]
fn what_is_no_level() {
    let head = "version 4\n#\nBlock 0 0 0 3 3 0 0 0 1 0 0 0 0 0 0 0\n";
    let cases: Vec<(String, ParseErrorKind, usize)> = vec![
        ("version 3\n#\n".to_string(), ParseErrorKind::UnsupportedVersion, 1),
        ("version\n#\n".to_string(), ParseErrorKind::UnsupportedVersion, 1),
        ("shed\n#\n".to_string(), ParseErrorKind::UnsupportedVersion, 2),
        ("".to_string(), ParseErrorKind::UnsupportedVersion, 0),
        ("version 4\nattempt_order push,jump\n#\n".to_string(), ParseErrorKind::UnknownAttemptOrder, 2),
        ("version 4\nattempt_order\n#\n".to_string(), ParseErrorKind::UnknownAttemptOrder, 2),
        (format!("{}\t\tWall 0 0 0 0 0\n", head), ParseErrorKind::InvalidIndentation, 4),
        (format!("{}\tDoor 0 0\n", head), ParseErrorKind::UnknownObjectType, 4),
        (format!("{}\tBlock 0 0 1 3 3 0 0 0 1 0 0 0 0 0 0\n", head), ParseErrorKind::InvalidBlock, 4),
        (format!("{}\tBlock 0 0 1 0 3 0 0 0 1 0 0 0 0 0 0 0\n", head), ParseErrorKind::InvalidBlockSize, 4),
        (format!("{}\tBlock 0 0 0 1 1 0 0 0 1 0 0 0 0 0 0 0\n", head), ParseErrorKind::DuplicateBlock, 4),
        (format!("{}\tRef 0 0 0 0 0 0 0 0 0 0 0 0 0 0\n", head), ParseErrorKind::InvalidReference, 4),
        (format!("{}\tWall 0 0 0 0\n", head), ParseErrorKind::InvalidWall, 4),
        ("version 4\n#\nWall 0 0 0 0 0\n".to_string(), ParseErrorKind::WallOutsideOfBlock, 3),
        (format!("{}\tFloor 0 0\n", head), ParseErrorKind::InvalidFloor, 4),
        (format!("{}\tFloor 0 0 Lever\n", head), ParseErrorKind::UnknownFloorType, 4),
        (format!("{}\tWall 0 zero 0 0 0\n", head), ParseErrorKind::InvalidNumber, 4),
        (format!("{}\tWall 0 0 1 0 first\n", head), ParseErrorKind::InvalidNumber, 4),
        (format!("{}\tBlock 0 0 1 1 1 0.x 0 0 1 0 0 0 0 0 0 0\n", head), ParseErrorKind::InvalidNumber, 4),
        (format!("{}\tWall 3 0 0 0 0\n", head), ParseErrorKind::InvalidPosition, 4),
        (format!("{}\tWall 0 -1 0 0 0\n", head), ParseErrorKind::InvalidPosition, 4),
        (format!("{}\tWall 1 1 0 0 0\n\tWall 1 1 0 0 0\n", head), ParseErrorKind::CellAlreadyExists, 5),
        (format!("{}\tRef 0 0 5 0 0 0 0 0 0 0 0 0 0 0 0\n", head), ParseErrorKind::InvalidReferenceTarget, 0),
        (
            "version 4\n#\nBlock 0 0 0 3 3 0 0 0 1 0 0 0 0 0 0 0\nRef 0 0 5 0 0 0 1 0 0 0 0 0 0 0 0\n\
             Block 0 0 6 3 3 0 0 0 1 0 0 0 0 0 0 0\n\tRef 0 0 6 0 0 0 0 0 0 0 0 0 0 0 0\n"
                .to_string(),
            ParseErrorKind::InvalidReferenceTarget,
            0,
        ),
        (
            format!("{}\tBlock 0 0 2147483647 1 1 0 0 0 1 0 0 0 0 0 0 0\n\tBlock 1 1 5 1 1 0 0 0 1 0 0 0 0 0 0 0\n", head),
            ParseErrorKind::TooLarge,
            5,
        ),
    ];
    for (text, kind, line) in cases {
        assert_eq!(error_of(&text), ParseError { kind, line }, "{:?}", text);
    }
}

#[test]
fn trivial_blocks() {
    let game = load(
        "version 4\n#\nBlock 0 0 0 9 9 0 0 0 1 0 0 0 0 0 0 0\n\
         \tBlock 0 0 1 3 3 0 0 0 1 0 0 0 0 0 0 0\n\
         \t\tWall 0 0 0 0 0\n\t\tWall 1 0 0 0 0\n\t\tWall 2 0 0 0 0\n\
         \t\tWall 0 1 0 0 0\n\t\tWall 2 1 0 0 0\n\
         \t\tWall 0 2 0 0 0\n\t\tWall 1 2 0 0 0\n\t\tWall 2 2 0 0 0\n\
         \tBlock 1 0 2 3 3 0 0 0 1 0 0 0 0 0 0 0\n\
         \t\tWall 0 0 0 0 0\n\t\tWall 1 0 0 0 0\n\t\tWall 2 0 0 0 0\n\
         \t\tWall 0 1 0 0 0\n\t\tWall 2 1 0 1 0\n\
         \t\tWall 0 2 0 0 0\n\t\tWall 1 2 0 0 0\n\t\tWall 2 2 0 0 0\n\
         \tBlock 2 0 3 1 1 0 0 0 1 1 0 0 0 0 0 0\n\
         \tBlock 3 0 4 1 1 0 0 0 1 0 0 0 0 0 0 0\n",
    );
    let block = |no: i32| *game.block_by_no(BlockNo(no)).unwrap();
    assert!(!game.is_block_trivial(&block(0)));
    assert!(game.is_block_trivial(&block(1)));
    // a wall on the border can be possessed
    assert!(!game.is_block_trivial(&block(2)));
    // filled
    assert!(game.is_block_trivial(&block(3)));
    // nothing on the border
    assert!(!game.is_block_trivial(&block(4)));
}

#[test]
fn winning() {
    let mut game = load(
        "version 4\n#\nBlock 0 0 0 4 1 0 0 0 1 0 0 0 0 0 0 0\n\
         \tBlock 0 0 1 1 1 0 0 0 1 1 1 1 0 0 0 0\n\
         \tBlock 1 0 2 1 1 0 0 0 1 1 0 0 0 0 0 0\n\
         \tFloor 1 0 PlayerButton\n\tFloor 2 0 Button\n",
    );
    assert!(!game.won());
    game.play(parabox::engine::Direction::Right);
    assert!(game.won());
    assert_eq!(game.cell_at(GlobalPos { block_id: 0, pos: Pos(1, 0) }).unwrap().id(), 1);
    assert_eq!(game.cell_at(GlobalPos { block_id: 0, pos: Pos(2, 0) }).unwrap().id(), 2);
    assert!(game.cell_at(GlobalPos { block_id: 0, pos: Pos(0, 0) }).is_none());
    assert!(game.is_player(1));
    assert!(!game.is_player(2));
}

#[test]
fn cell_accessors() {
    let mut cell = Cell::Block(Block {
        id: 3,
        gpos: GlobalPos { block_id: 1, pos: Pos(2, 2) },
        block_no: BlockNo(4),
        width: 2,
        height: 3,
        hsv: Hsv { hue: 1, sat: 2, val: 3 },
        filled: false,
        space: false,
        locked: false,
        possessable: true,
        fliph: true,
        inf_enter: None,
    });
    assert_eq!(cell.id(), 3);
    assert_eq!(cell.gpos(), GlobalPos { block_id: 1, pos: Pos(2, 2) });
    assert!(cell.possessable());
    assert!(cell.fliph());
    assert!(!cell.is_wall());
    assert!(cell.reference().is_none());
    let block = *cell.block().unwrap();
    assert!(block.in_bounds(Pos(1, 2)));
    assert!(!block.in_bounds(Pos(2, 2)));
    assert!(!block.in_bounds(Pos(1, 3)));
    assert!(!block.in_bounds(Pos(-1, 0)));
    assert!(block.can_enter());
    assert!(block.can_exit());
    cell.block_mut().unwrap().filled = true;
    assert!(!cell.block().unwrap().can_enter());
    let mut wall = Cell::Wall(Wall { id: 0, gpos: GlobalPos { block_id: 1, pos: Pos(0, 0) }, possessable: false });
    assert!(wall.is_wall());
    assert!(!wall.fliph());
    assert!(wall.block().is_none());
    assert!(wall.block_mut().is_none());
}
