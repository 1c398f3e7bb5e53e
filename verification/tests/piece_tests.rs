use tetrust::block::{Block, BlockType};
use tetrust::game::{ActiveBlock, Direction, Event, GameState};
use tetrust::rotation::RotationIndex;
use tetrust::block::{piece_from_code, BlockGenerator};
use rand::rngs::StdRng;
use rand::SeedableRng;

fn generator(seed: u64) -> BlockGenerator {
    BlockGenerator::new(StdRng::seed_from_u64(seed))
}

#[test]
fn every_rotation_has_four_cells_in_the_local_space() {
    for block_type in [BlockType::I, BlockType::J, BlockType::O] {
        let rotations = block_type.rotations();
        for rotation in &rotations.0 {
            let positions = rotation.positions();
            assert_eq!(4, positions.len());
            for (row, col) in positions {
                assert!(row < 4, "row {} outside the local space", row);
                assert!(col < 4, "col {} outside the local space", col);
            }
            assert!(rotation.width() >= 1 && rotation.width() <= 4);
            assert!(rotation.height() >= 1 && rotation.height() <= 4);
            assert!(rotation.vertical_offset() + rotation.height() <= 4);
            assert!(rotation.horizontal_offset() + rotation.width() <= 4);
        }
    }
}

#[test]
fn rotating_four_times_returns_to_the_start() {
    for block_type in [BlockType::I, BlockType::J, BlockType::O] {
        let mut block = Block::new(block_type);
        let start = block;
        for _ in 0..4 {
            block.rotate_clockwise();
        }
        assert_eq!(start, block);
        for _ in 0..4 {
            block.rotate_counter_clockwise();
        }
        assert_eq!(start, block);
    }
}

#[test]
fn clockwise_then_counter_clockwise_is_identity() {
    let mut block = Block::new(BlockType::J);
    let start = block;
    block.rotate_clockwise();
    assert_ne!(start, block);
    block.rotate_counter_clockwise();
    assert_eq!(start, block);
}

#[test]
fn rotation_index_wraps_in_both_directions() {
    let mut idx = RotationIndex::new();
    idx.dec();
    assert_eq!(RotationIndex(3), idx);
    idx.inc();
    assert_eq!(RotationIndex(0), idx);
    idx.inc();
    idx.inc();
    idx.inc();
    idx.inc();
    assert_eq!(RotationIndex(0), idx);
}

#[test]
fn o_piece_rotation_does_not_move_its_cells() {
    let mut piece = ActiveBlock::new(Block::new(BlockType::O));
    let before = piece.cells_on_board();
    piece.rotate_clockwise();
    assert_eq!(before, piece.cells_on_board());
    piece.rotate_counter_clockwise();
    piece.rotate_counter_clockwise();
    assert_eq!(before, piece.cells_on_board());
}

#[test]
fn spawn_geometry_matches_the_buffer_zone() {
    let i_piece = ActiveBlock::new(Block::new(BlockType::I));
    assert_eq!(vec![(1, 3), (1, 4), (1, 5), (1, 6)], i_piece.cells_on_board());

    let o_piece = ActiveBlock::new(Block::new(BlockType::O));
    assert_eq!(vec![(0, 4), (0, 5), (1, 4), (1, 5)], o_piece.cells_on_board());

    let j_piece = ActiveBlock::new(Block::new(BlockType::J));
    assert_eq!(vec![(0, 4), (1, 4), (1, 5), (1, 6)], j_piece.cells_on_board());
}

#[test]
fn moving_left_then_right_is_identity_on_the_anchor() {
    let mut piece = ActiveBlock::new(Block::new(BlockType::I));
    let start = piece.position;
    piece.move_left();
    assert_eq!((start.0, start.1 - 1), piece.position);
    piece.move_right();
    assert_eq!(start, piece.position);
}

#[test]
fn moving_up_saturates_at_the_top_row() {
    let mut piece = ActiveBlock::new(Block::new(BlockType::O));
    assert_eq!(0, piece.position.0);
    piece.move_up();
    assert_eq!(0, piece.position.0);
    piece.move_down();
    assert_eq!(1, piece.position.0);
    piece.move_up();
    assert_eq!(0, piece.position.0);
}

#[test]
fn each_sample_code_yields_its_piece_kind() {
    assert_eq!(BlockType::I, piece_from_code(1).block_type());
    assert_eq!(BlockType::J, piece_from_code(2).block_type());
    assert_eq!(BlockType::O, piece_from_code(3).block_type());
    assert_eq!(RotationIndex(0), piece_from_code(2).rotation_counter);
}

#[test]
fn generator_emits_fresh_pieces_of_known_kinds() {
    let mut generator = generator(11);
    for _ in 0..64 {
        let block = generator.block();
        assert_eq!(RotationIndex(0), block.rotation_counter);
        assert!(matches!(
            block.block_type(),
            BlockType::I | BlockType::J | BlockType::O
        ));
    }
}

#[test]
fn quit_reports_without_touching_the_game() {
    let mut game = GameState::new(generator(3));
    let score = game.score();
    let queue = game.queue().clone();
    let active = *game.active_block();

    let quit = game.update(Event::Quit);

    assert!(quit);
    assert!(!game.update(Event::Move(Direction::Left)));
    assert_eq!(score, game.score());
    assert_eq!(&queue[..], &game.queue()[..]);
    let _ = active;
}
