use woodoku::{parse_move, MoveError, MoveParseError, Shape, Woodoku};

fn single_cell() -> Vec<bool> {
    let mut data = vec![false; Woodoku::SHAPE_SIZE];
    data[0] = true;
    data
}

fn mask_of(cells: &[usize]) -> Vec<bool> {
    let mut data = vec![false; Woodoku::SHAPE_SIZE];
    for c in cells {
        data[*c] = true;
    }
    data
}

fn spent() -> Shape {
    Shape {
        id: 0,
        data: vec![],
        to_be_placed: false,
    }
}

fn playable(data: Vec<bool>) -> Shape {
    Shape {
        id: 0,
        data,
        to_be_placed: true,
    }
}

#[test]
fn fn_new_should_succeed() {
    // Arrange
    let all_shapes = Woodoku::get_all_possible_shapes();

    // Act
    let w = Woodoku::new();

    // Assert
    assert_eq!(all_shapes.len(), 57);
    assert!(w.board.iter().all(|slot| !slot));
    assert!(w.shapes_batch.iter().all(|shape| shape.to_be_placed));
    assert!(w
        .shapes_batch
        .iter()
        .map(|shape| all_shapes.contains(&shape.data))
        .collect::<Vec<bool>>()
        .iter()
        .all(|is_contained| *is_contained));
}

#[test]
fn fn_get_grids_indices_to_clear_should_succeed() {
    // Arrange
    let grid_0_indices = vec![0, 1, 2, 9, 10, 11, 18, 19, 20];
    let grid_1_indices = vec![3, 4, 5, 12, 13, 14, 21, 22, 23];
    let grid_2_indices = vec![6, 7, 8, 15, 16, 17, 24, 25, 26];
    let grid_3_indices = vec![27, 28, 29, 36, 37, 38, 45, 46, 47];
    let grid_4_indices = vec![30, 31, 32, 39, 40, 41, 48, 49, 50];
    let grid_5_indices = vec![33, 34, 35, 42, 43, 44, 51, 52, 53];
    let grid_6_indices = vec![54, 55, 56, 63, 64, 65, 72, 73, 74];
    let grid_7_indices = vec![57, 58, 59, 66, 67, 68, 75, 76, 77];
    let grid_8_indices = vec![60, 61, 62, 69, 70, 71, 78, 79, 80];
    let grids_indices = vec![
        grid_0_indices,
        grid_1_indices,
        grid_2_indices,
        grid_3_indices,
        grid_4_indices,
        grid_5_indices,
        grid_6_indices,
        grid_7_indices,
        grid_8_indices,
    ];

    // Act, Assert
    for grid_indices in grids_indices {
        let mut board = vec![false; Woodoku::BOARD_SIZE];
        for ix in &grid_indices {
            board[*ix] = true;
        }
        let mut indices_to_clear = vec![];
        Woodoku::get_grids_indices_to_clear(&board, &mut indices_to_clear);
        assert_eq!(indices_to_clear, grid_indices);
    }
}

#[test]
fn fn_play_move_should_succeed_place_single_square_sequentially_everywhere() {
    // Arrange
    let mut w = Woodoku::new();
    let shape_0 = vec![
        true, false, false, false, false, false, false, false, false, false, false, false, false,
        false, false, false, false, false, false, false, false, false, false, false, false,
    ];

    // Act, Assert
    for board_ix in 0..Woodoku::BOARD_SIZE {
        w.shapes_batch = vec![
            Shape {
                id: 0,
                data: shape_0.clone(),
                to_be_placed: true,
            },
            Shape {
                id: 0,
                data: vec![],
                to_be_placed: false,
            },
            Shape {
                id: 0,
                data: vec![],
                to_be_placed: false,
            },
        ];
        w = w.play_move(0, board_ix).expect("Move should be valid");

        if (board_ix + 1) % Woodoku::BOARD_SIDE_SIZE == 0 {
            // At the end of a row the board is empty again
            assert!(w.board.iter().all(|slot| !slot));
        } else {
            // Otherwise the current row is full up to here and the rest is empty
            assert!(w.board[0..(board_ix / Woodoku::BOARD_SIDE_SIZE) * Woodoku::BOARD_SIDE_SIZE]
                .iter()
                .all(|slot| !slot));
            assert!(
                w.board[(board_ix / Woodoku::BOARD_SIDE_SIZE) * Woodoku::BOARD_SIDE_SIZE
                    ..board_ix + 1]
                    .iter()
                    .all(|slot| *slot)
            );
            assert!(w.board[board_ix + 1..].iter().all(|slot| !slot));
        }
    }
}

#[test]
fn fn_play_move_should_succeed_fill_grid_with_two_shapes() {
    // Arrange
    let mut w = Woodoku::new();
    let shape_0 = vec![
        true, true, true, false, false, true, false, false, false, false, true, false, false,
        false, false, false, false, false, false, false, false, false, false, false, false,
    ];
    let shape_1 = vec![
        true, true, false, false, false, true, true, false, false, false, false, false, false,
        false, false, false, false, false, false, false, false, false, false, false, false,
    ];
    w.shapes_batch = vec![
        Shape {
            id: 0,
            data: shape_0,
            to_be_placed: true,
        },
        Shape {
            id: 0,
            data: shape_1,
            to_be_placed: true,
        },
        Shape {
            id: 0,
            data: vec![],
            to_be_placed: false,
        },
    ];

    // Act, Assert
    w = w.play_move(0, 0).expect("Move should be valid");
    assert!(w.board[0..3].iter().all(|slot| *slot));
    assert!(w.board[9]);
    assert!(w.board[18]);

    w = w.play_move(1, 10).expect("Move should be valid");
    assert!(w.board[0..3].iter().all(|slot| !slot));
    assert!(w.board[9..12].iter().all(|slot| !slot));
    assert!(w.board[18..21].iter().all(|slot| !slot));
}

#[test]
fn fn_play_move_should_game_over() {
    // Arrange
    let mut w = Woodoku::new();
    let shape_0 = vec![
        true, true, true, false, false, true, false, false, false, false, true, false, false,
        false, false, false, false, false, false, false, false, false, false, false, false,
    ];

    w.board = vec![false; Woodoku::BOARD_SIZE];
    // Place a block on every second index of the board
    for board_ix in 0..Woodoku::BOARD_SIZE {
        if board_ix % 2 == 0 {
            w.board[board_ix] = true;
        }
    }
    // Free the blocks needed to place the shape in pos 0
    for ix in Woodoku::get_impacted_board_indices(&shape_0, 0).unwrap() {
        w.board[ix] = false;
    }
    // Free the blocks needed to place the shape in pos 49
    for ix in Woodoku::get_impacted_board_indices(&shape_0, 49).unwrap() {
        w.board[ix] = false;
    }

    w.shapes_batch = vec![
        Shape {
            id: 0,
            data: shape_0.clone(),
            to_be_placed: true,
        },
        Shape {
            id: 0,
            data: shape_0.clone(),
            to_be_placed: true,
        },
        Shape {
            id: 0,
            data: shape_0,
            to_be_placed: true,
        },
    ];

    // Act, Assert
    w = w.play_move(0, 0).expect("Move should be valid");
    assert!(!w.game_over);
    w = w.play_move(1, 49).expect("Move should be valid");
    assert!(w.game_over);
}

#[test]
fn grid_indices_are_the_nine_blocks() {
    let grids = Woodoku::get_grid_indices();
    assert_eq!(grids.len(), 9);
    assert_eq!(grids[0], vec![0, 1, 2, 9, 10, 11, 18, 19, 20]);
    assert_eq!(grids[4], vec![30, 31, 32, 39, 40, 41, 48, 49, 50]);
    assert_eq!(grids[8], vec![60, 61, 62, 69, 70, 71, 78, 79, 80]);
    let mut seen = vec![0usize; Woodoku::BOARD_SIZE];
    for (g, grid) in grids.iter().enumerate() {
        for b in grid {
            seen[*b] += 1;
            assert_eq!((b / 9) / 3, g / 3);
            assert_eq!((b % 9) / 3, g % 3);
        }
    }
    assert!(seen.iter().all(|n| *n == 1));
}

#[test]
fn overlap_is_refused_and_changes_nothing() {
    let mut w = Woodoku::new();
    w.board[12] = true;
    w.shapes_batch = vec![playable(mask_of(&[0, 1, 2])), spent(), spent()];
    let board_before = w.board.clone();
    assert_eq!(w.play_move(0, 11).unwrap_err(), MoveError::Overlap);
    assert_eq!(w.move_preview(0, 10).unwrap_err(), MoveError::Overlap);
    assert_eq!(w.board, board_before);
    assert!(w.shapes_batch[0].to_be_placed);
    assert_eq!(w.score, 0);

    let mut board = board_before.clone();
    let data = mask_of(&[0, 1, 2]);
    assert_eq!(Woodoku::apply_move(&mut board, &data, 12), Err(MoveError::Overlap));
    assert_eq!(board, board_before);
}

#[test]
fn out_of_range_is_refused_at_the_edges() {
    let row3 = mask_of(&[0, 1, 2]);
    assert_eq!(
        Woodoku::get_impacted_board_indices(&row3, 7),
        Err(MoveError::OutOfRange)
    );
    assert_eq!(
        Woodoku::get_impacted_board_indices(&row3, 6),
        Ok(vec![6, 7, 8])
    );
    let column3 = mask_of(&[0, 5, 10]);
    assert_eq!(
        Woodoku::get_impacted_board_indices(&column3, 63),
        Err(MoveError::OutOfRange)
    );
    assert_eq!(
        Woodoku::get_impacted_board_indices(&column3, 62),
        Ok(vec![62, 71, 80])
    );
    // An empty tail past the edge is ignored
    let corner = mask_of(&[1, 5, 6]);
    assert_eq!(
        Woodoku::get_impacted_board_indices(&corner, 70),
        Ok(vec![71, 79, 80])
    );
    let mut w = Woodoku::new();
    w.shapes_batch = vec![playable(row3), spent(), spent()];
    assert_eq!(w.play_move(0, 8).unwrap_err(), MoveError::OutOfRange);
}

#[test]
fn spent_slot_is_refused() {
    let mut w = Woodoku::new();
    w.shapes_batch = vec![spent(), playable(single_cell()), spent()];
    assert_eq!(w.play_move(0, 0).unwrap_err(), MoveError::ShapeAlreadyUsed);
    assert_eq!(w.move_preview(2, 0).unwrap_err(), MoveError::ShapeAlreadyUsed);
    assert_eq!(MoveError::ShapeAlreadyUsed.message(), "Invalid move: shape already used");
    assert_eq!(MoveError::OutOfRange.message(), "Invalid move: shape out of range");
    assert_eq!(MoveError::Overlap.message(), "Invalid move: shape overlapping");
}

#[test]
fn last_slot_refills_the_batch() {
    let mut batch = Woodoku::shapes_batch_from_ids(&[3, 10, 20]);
    Woodoku::update_shapes_batch(&mut batch, 1);
    assert_eq!(batch[0].id, 3);
    assert!(batch[0].to_be_placed);
    assert_eq!(batch[1].id, 10);
    assert!(!batch[1].to_be_placed);
    assert_eq!(batch[2].id, 20);
    assert!(batch[2].to_be_placed);
    Woodoku::update_shapes_batch(&mut batch, 0);
    assert!(!batch[0].to_be_placed);
    assert!(batch[2].to_be_placed);
    Woodoku::update_shapes_batch(&mut batch, 2);
    assert_eq!(batch.len(), 3);
    assert!(batch.iter().all(|s| s.to_be_placed));
}

#[test]
fn dealt_batch_holds_three_distinct_templates() {
    let all_shapes = Woodoku::get_all_possible_shapes();
    for _ in 0..20 {
        let batch = Woodoku::get_new_shapes_batch();
        assert_eq!(batch.len(), 3);
        assert!(batch[0].id != batch[1].id);
        assert!(batch[0].id != batch[2].id);
        assert!(batch[1].id != batch[2].id);
        for s in &batch {
            assert!(s.id < Woodoku::get_shapes_count());
            assert_eq!(s.data, all_shapes[s.id]);
            assert!(s.to_be_placed);
        }
    }
}

#[test]
fn batch_from_ids_copies_the_templates() {
    let batch = Woodoku::shapes_batch_from_ids(&[0, 7, 56]);
    assert_eq!(batch[0].data, single_cell());
    assert_eq!(batch[1].data, mask_of(&[0, 1, 2, 3, 4]));
    assert_eq!(batch[2].data, mask_of(&[0, 1, 5, 6, 10, 11]));
    assert_eq!(batch[2].size(), 6);
    assert_eq!(Shape::new(4, mask_of(&[0, 5, 10])).size(), 3);
}

#[test]
fn catalog_masks_are_distinct_and_non_empty() {
    let all_shapes = Woodoku::get_all_possible_shapes();
    assert_eq!(Woodoku::get_shapes_count(), 57);
    for (i, a) in all_shapes.iter().enumerate() {
        assert_eq!(a.len(), Woodoku::SHAPE_SIZE);
        assert!(a.iter().any(|c| *c));
        for b in &all_shapes[i + 1..] {
            assert_ne!(a, b);
        }
    }
}

#[test]
fn score_counts_size_clears_combo_and_streak() {
    let mut w = Woodoku::new();
    for c in 1..9 {
        w.board[c] = true;
    }
    for r in 1..9 {
        w.board[r * 9] = true;
    }
    w.shapes_batch = vec![
        playable(mask_of(&[0, 1, 2])),
        playable(single_cell()),
        playable(single_cell()),
    ];
    w = w.play_move(0, 40).expect("Move should be valid");
    assert_eq!(w.score, 3);
    assert_eq!(w.clear_streak, 0);
    // Completes row 0 and column 0: two sets
    w = w.play_move(1, 0).expect("Move should be valid");
    assert_eq!(w.score, 3 + 1 + 36 + 10);
    assert_eq!(w.clear_streak, 1);
    assert!(w.board.iter().enumerate().all(|(i, c)| *c == (i == 40 || i == 41 || i == 42)));
}

#[test]
fn streak_bonus_grows_with_consecutive_clears() {
    let mut w = Woodoku::new();
    for c in 1..9 {
        w.board[c] = true;
        w.board[9 + c] = true;
    }
    w.shapes_batch = vec![
        playable(single_cell()),
        playable(single_cell()),
        playable(single_cell()),
    ];
    w = w.play_move(0, 0).expect("Move should be valid");
    assert_eq!(w.score, 1 + 18);
    w = w.play_move(1, 9).expect("Move should be valid");
    assert_eq!(w.score, 19 + 1 + 18 + 10);
    assert_eq!(w.clear_streak, 2);
}

#[test]
fn overlapping_sets_are_counted_per_set() {
    let mut board = vec![false; Woodoku::BOARD_SIZE];
    for b in 0..27 {
        board[b] = true;
    }
    let listed = Woodoku::get_indices_to_clear_with_duplicates(&board);
    assert_eq!(listed.len(), 54);
    assert_eq!(&listed[0..9], &[0, 1, 2, 3, 4, 5, 6, 7, 8]);
    assert_eq!(&listed[27..36], &[0, 1, 2, 9, 10, 11, 18, 19, 20]);
    let cleared = Woodoku::clear_indices(&mut board);
    assert_eq!(cleared, 6);
    assert!(board.iter().all(|c| !c));

    let mut rows = vec![];
    let mut columns = vec![];
    let mut full = vec![true; Woodoku::BOARD_SIZE];
    full[80] = false;
    Woodoku::get_rows_indices_to_clear(&full, &mut rows);
    Woodoku::get_columns_indices_to_clear(&full, &mut columns);
    assert_eq!(rows.len(), 72);
    assert_eq!(columns.len(), 72);
    assert_eq!(&columns[0..9], &[0, 9, 18, 27, 36, 45, 54, 63, 72]);
}

#[test]
fn preview_repeats_and_leaves_the_game_alone() {
    let mut w = Woodoku::new();
    w.shapes_batch = vec![playable(mask_of(&[0, 1, 5])), spent(), spent()];
    w.board[0] = true;
    let first = w.move_preview(0, 10).expect("Move should be valid");
    for _ in 0..5 {
        assert_eq!(w.move_preview(0, 10).expect("Move should be valid"), first);
    }
    assert!(first[10] && first[11] && first[19] && first[0]);
    assert_eq!(first.iter().filter(|c| **c).count(), 4);
    assert!(w.board[0] && !w.board[10]);
    assert!(w.shapes_batch[0].to_be_placed);
    assert_eq!(w.score, 0);
}

#[test]
fn placeable_shapes_follow_the_board() {
    let mut board = vec![true; Woodoku::BOARD_SIZE];
    board[40] = false;
    let batch = vec![
        playable(single_cell()),
        playable(mask_of(&[0, 1])),
        spent(),
    ];
    assert_eq!(
        Woodoku::get_placeable_shapes(&board, &batch),
        vec![true, false, false]
    );
    assert!(!Woodoku::is_game_over(&board, &batch));
    board[40] = true;
    assert!(Woodoku::is_game_over(&board, &batch));
}

#[test]
fn default_is_a_fresh_game() {
    let w = Woodoku::default();
    assert_eq!(w.score, 0);
    assert!(!w.game_over);
    assert_eq!(w.board.len(), 81);
    assert!(w.shapes_batch.iter().all(|s| s.to_be_placed));
}

#[test]
fn encoded_moves_are_read_or_refused() {
    assert_eq!(parse_move("012"), Ok((0, 12)));
    assert_eq!(parse_move("280"), Ok((2, 80)));
    assert_eq!(parse_move("10"), Ok((1, 0)));
    assert_eq!(parse_move("0007"), Ok((0, 7)));
    assert_eq!(parse_move(""), Err(MoveParseError::Malformed));
    assert_eq!(parse_move("1"), Err(MoveParseError::Malformed));
    assert_eq!(parse_move("0x"), Err(MoveParseError::Malformed));
    assert_eq!(parse_move("-12"), Err(MoveParseError::Malformed));
    assert_eq!(parse_move("31"), Err(MoveParseError::ShapeIndexOutOfRange));
    assert_eq!(parse_move("081"), Err(MoveParseError::PositionOutOfRange));
    assert_eq!(
        parse_move("199999999999999999999999999"),
        Err(MoveParseError::PositionOutOfRange)
    );
    assert_eq!(
        MoveParseError::PositionOutOfRange.message(),
        "Invalid move: position out of range"
    );
}
