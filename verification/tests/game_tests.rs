use rand::rngs::StdRng;
use rand::SeedableRng;
use tetrust::block::{Block, BlockGenerator, BlockType};
use tetrust::game::{ActiveBlock, Direction, Event, GameState, QUEUE_LEN};
use tetrust::board::Board;

fn generator(seed: u64) -> BlockGenerator {
    BlockGenerator::new(StdRng::seed_from_u64(seed))
}

fn fresh_queue() -> Vec<Block> {
    vec![
        Block::new(BlockType::I),
        Block::new(BlockType::J),
        Block::new(BlockType::O),
    ]
}

#[test]
fn new_game_starts_clean() {
    let game = GameState::new(generator(1));
    assert_eq!(0, game.score());
    assert!(!game.game_over());
    assert_eq!(QUEUE_LEN, game.queue().len());
    for row in 0..22 {
        for col in 0..10 {
            assert_eq!(0, game.board().cell(row, col));
        }
    }
}

#[test]
fn from_parts_rejects_bad_setups() {
    let board = Board::new();
    let active = ActiveBlock::new(Block::new(BlockType::O));

    let short_queue = vec![Block::new(BlockType::I)];
    assert!(GameState::from_parts(board.clone(), active, short_queue, generator(2)).is_none());

    let mut grid = [[0u8; 10]; 22];
    grid[0][4] = 1;
    let blocked = Board::from_rows(grid);
    assert!(GameState::from_parts(blocked, active, fresh_queue(), generator(2)).is_none());

    assert!(GameState::from_parts(board, active, fresh_queue(), generator(2)).is_some());
}

#[test]
fn horizontal_moves_undo_on_collision() {
    let mut game =
        GameState::from_parts(Board::new(), ActiveBlock::new(Block::new(BlockType::O)), fresh_queue(), generator(4))
            .unwrap();
    // The O piece spawns four columns from the left wall.
    assert_eq!(4, game.active_block().position.1);
    for _ in 0..4 {
        game.update(Event::Move(Direction::Left));
    }
    assert_eq!(0, game.active_block().position.1);
    // A further move left collides with the wall and is undone.
    game.update(Event::Move(Direction::Left));
    assert_eq!(0, game.active_block().position.1);

    for _ in 0..8 {
        game.update(Event::Move(Direction::Right));
    }
    assert_eq!(8, game.active_block().position.1);
    game.update(Event::Move(Direction::Right));
    assert_eq!(8, game.active_block().position.1);
}

#[test]
fn soft_drop_lands_and_reloads_from_the_queue() {
    let mut game = GameState::from_parts(
        Board::new(),
        ActiveBlock::new(Block::new(BlockType::O)),
        fresh_queue(),
        generator(5),
    )
    .unwrap();

    for _ in 0..20 {
        game.update(Event::Gravity);
    }
    assert_eq!(
        vec![(20, 4), (20, 5), (21, 4), (21, 5)],
        game.active_block().cells_on_board()
    );
    assert!(!game.game_over());

    // The next gravity step cannot move the piece down: it lands.
    game.update(Event::Gravity);
    assert_eq!(0, game.score());
    assert!(!game.game_over());
    assert_eq!(QUEUE_LEN, game.queue().len());
    // The old queue head, an I piece, spawns as the new active piece.
    assert_eq!(BlockType::I, game.active_block().block.block_type());
    assert_eq!(
        vec![(1, 3), (1, 4), (1, 5), (1, 6)],
        game.active_block().cells_on_board()
    );
    // The queue advanced: its former middle pieces moved up.
    assert_eq!(BlockType::J, game.queue()[0].block_type());
    assert_eq!(BlockType::O, game.queue()[1].block_type());
    // The landed piece was written into the board with the O piece's code.
    assert_eq!(3, game.board().cell(20, 4));
    assert_eq!(3, game.board().cell(21, 5));
    assert_eq!(0, game.board().cell(19, 4));
}

#[test]
fn completing_a_row_scores_one_point_per_line() {
    // Bottom row occupied except the two columns where the O piece will land.
    let mut grid = [[0u8; 10]; 22];
    grid[21] = [1, 1, 1, 1, 0, 0, 1, 1, 1, 1];
    let mut game = GameState::from_parts(
        Board::from_rows(grid),
        ActiveBlock::new(Block::new(BlockType::O)),
        fresh_queue(),
        generator(6),
    )
    .unwrap();

    for _ in 0..21 {
        game.update(Event::Gravity);
    }
    // The O piece fills columns 4 and 5 of rows 20 and 21; row 21 completes.
    assert_eq!(1, game.score());
    assert!(!game.game_over());
    // Row 21 now holds only the upper half of the O piece, consolidated down.
    assert_eq!(3, game.board().cell(21, 4));
    assert_eq!(3, game.board().cell(21, 5));
    assert_eq!(0, game.board().cell(21, 0));
    assert_eq!(0, game.board().cell(20, 4));
}

#[test]
fn landing_in_the_buffer_zone_ends_the_game() {
    // The lower buffer row holds occupied cells away from the spawn columns.
    let mut grid = [[0u8; 10]; 22];
    grid[1][0] = 1;
    grid[1][1] = 1;
    let mut game = GameState::from_parts(
        Board::from_rows(grid),
        ActiveBlock {
            position: (20, 4),
            block: Block::new(BlockType::O),
        },
        fresh_queue(),
        generator(7),
    )
    .unwrap();

    // The piece sits on the floor; one gravity step lands it.
    game.update(Event::Gravity);
    assert!(game.game_over());

    // Every further event is ignored.
    let score = game.score();
    let active = *game.active_block();
    game.update(Event::Gravity);
    game.update(Event::Move(Direction::Left));
    game.update(Event::Rotate(Direction::Right));
    assert!(game.game_over());
    assert_eq!(score, game.score());
    assert_eq!(active.position, game.active_block().position);
}

#[test]
fn rotation_undoes_itself_on_collision() {
    // An I piece lying low between occupied rows cannot turn upright.
    let mut grid = [[0u8; 10]; 22];
    grid[19] = [1; 10];
    grid[19][4] = 0;
    grid[19][5] = 0;
    grid[19][3] = 0;
    grid[19][6] = 0;
    let mut game = GameState::from_parts(
        Board::from_rows(grid),
        ActiveBlock {
            position: (20, 3),
            block: Block::new(BlockType::I),
        },
        fresh_queue(),
        generator(8),
    )
    .unwrap();

    let before = *game.active_block();
    // Turning the I piece upright would reach rows 20..24: out of the board.
    game.update(Event::Rotate(Direction::Right));
    assert_eq!(before.position, game.active_block().position);
    assert_eq!(before.block, game.active_block().block);
}
