use tableau::cards::{Card, Rank, Suit};
use tableau::games::rules::{AnyRun, DescendingRun, RunRule};
use tableau::games::{Board, BoardError, Move, MoveResult};

#[derive(Debug, Clone, Hash, PartialEq, Eq, PartialOrd, Ord)]
enum TestRank {
    One,
    Two,
    Three,
}

#[derive(Debug, Clone, Hash, PartialEq, Eq, PartialOrd, Ord)]
enum TestSuit {
    Black,
    White,
}

impl Rank for TestRank {
    fn ordinal(&self) -> usize {
        match self {
            Self::One => 1,
            Self::Two => 2,
            Self::Three => 3,
        }
    }
}

impl Suit for TestSuit {}

type TestCard = Card<TestRank, TestSuit>;

fn card(rank: TestRank, suit: TestSuit) -> TestCard {
    Card { rank, suit }
}

fn initial_stacks() -> Vec<Vec<TestCard>> {
    vec![
        vec![
            Card {
                rank: TestRank::One,
                suit: TestSuit::Black,
            },
            Card {
                rank: TestRank::Two,
                suit: TestSuit::Black,
            },
        ],
        vec![
            Card {
                rank: TestRank::Three,
                suit: TestSuit::Black,
            },
            Card {
                rank: TestRank::One,
                suit: TestSuit::White,
            },
        ],
        vec![
            Card {
                rank: TestRank::Two,
                suit: TestSuit::White,
            },
            Card {
                rank: TestRank::Three,
                suit: TestSuit::White,
            },
        ],
    ]
}

/// Stacks on which the default rule has runs to accept and to refuse:
/// `[[3♠,2♠,1♠],[3♥],[1♥,2♥],[]]`.
fn run_stacks() -> Vec<Vec<TestCard>> {
    vec![
        vec![
            card(TestRank::Three, TestSuit::Black),
            card(TestRank::Two, TestSuit::Black),
            card(TestRank::One, TestSuit::Black),
        ],
        vec![card(TestRank::Three, TestSuit::White)],
        vec![
            card(TestRank::One, TestSuit::White),
            card(TestRank::Two, TestSuit::White),
        ],
        vec![],
    ]
}

fn count(stacks: &Vec<Vec<TestCard>>) -> usize {
    stacks.iter().map(|stack| stack.len()).sum()
}

#[test]
fn individual_movmement_works() {
    let initial_stacks = vec![
        vec![
            Card {
                rank: TestRank::One,
                suit: TestSuit::Black,
            },
            Card {
                rank: TestRank::Two,
                suit: TestSuit::Black,
            },
        ],
        vec![
            Card {
                rank: TestRank::Three,
                suit: TestSuit::Black,
            },
            Card {
                rank: TestRank::One,
                suit: TestSuit::White,
            },
        ],
        vec![
            Card {
                rank: TestRank::Two,
                suit: TestSuit::White,
            },
            Card {
                rank: TestRank::Three,
                suit: TestSuit::White,
            },
        ],
    ];

    let expected_stacks = vec![
        vec![
            Card {
                rank: TestRank::One,
                suit: TestSuit::Black,
            },
            Card {
                rank: TestRank::Two,
                suit: TestSuit::Black,
            },
            Card {
                rank: TestRank::One,
                suit: TestSuit::White,
            },
        ],
        vec![Card {
            rank: TestRank::Three,
            suit: TestSuit::Black,
        }],
        vec![
            Card {
                rank: TestRank::Two,
                suit: TestSuit::White,
            },
            Card {
                rank: TestRank::Three,
                suit: TestSuit::White,
            },
        ],
    ];

    let mut board: Board<TestRank, TestSuit> = Board::from_stacks(initial_stacks);

    let result = board.apply_move(Move::Individual { from: 1, to: 0 });

    assert_eq!(result, Ok(MoveResult::Moved { cards: 1 }));
    assert_eq!(board.board(), &expected_stacks);
}

#[test]
fn stack_movmement_works() {
    let initial_stacks = vec![
        vec![
            Card {
                rank: TestRank::One,
                suit: TestSuit::Black,
            },
            Card {
                rank: TestRank::Two,
                suit: TestSuit::Black,
            },
        ],
        vec![
            Card {
                rank: TestRank::Three,
                suit: TestSuit::Black,
            },
            Card {
                rank: TestRank::One,
                suit: TestSuit::White,
            },
        ],
        vec![
            Card {
                rank: TestRank::Two,
                suit: TestSuit::White,
            },
            Card {
                rank: TestRank::Three,
                suit: TestSuit::White,
            },
        ],
    ];

    let expected_stacks = vec![
        vec![
            Card {
                rank: TestRank::One,
                suit: TestSuit::Black,
            },
            Card {
                rank: TestRank::Two,
                suit: TestSuit::Black,
            },
            Card {
                rank: TestRank::Three,
                suit: TestSuit::Black,
            },
            Card {
                rank: TestRank::One,
                suit: TestSuit::White,
            },
        ],
        vec![],
        vec![
            Card {
                rank: TestRank::Two,
                suit: TestSuit::White,
            },
            Card {
                rank: TestRank::Three,
                suit: TestSuit::White,
            },
        ],
    ];

    let mut board: Board<TestRank, TestSuit> = Board::from_stacks(initial_stacks);

    // Three under one is no descending run: the cards move as a group
    // under the rule that admits every run.
    let result = board.apply_move_with(
        Move::Stack {
            row: 1,
            start: 0,
            to: 0,
        },
        &AnyRun,
    );

    assert_eq!(result, Ok(MoveResult::Moved { cards: 2 }));
    assert_eq!(board.board(), &expected_stacks);
}

#[test]
fn derive_new_board() {
    let initial_stacks = vec![
        vec![
            Card {
                rank: TestRank::One,
                suit: TestSuit::Black,
            },
            Card {
                rank: TestRank::Two,
                suit: TestSuit::Black,
            },
        ],
        vec![
            Card {
                rank: TestRank::Three,
                suit: TestSuit::Black,
            },
            Card {
                rank: TestRank::One,
                suit: TestSuit::White,
            },
        ],
        vec![
            Card {
                rank: TestRank::Two,
                suit: TestSuit::White,
            },
            Card {
                rank: TestRank::Three,
                suit: TestSuit::White,
            },
        ],
    ];

    let expected_stacks = vec![
        vec![
            Card {
                rank: TestRank::One,
                suit: TestSuit::Black,
            },
            Card {
                rank: TestRank::Two,
                suit: TestSuit::Black,
            },
            Card {
                rank: TestRank::One,
                suit: TestSuit::White,
            },
        ],
        vec![Card {
            rank: TestRank::Three,
            suit: TestSuit::Black,
        }],
        vec![
            Card {
                rank: TestRank::Two,
                suit: TestSuit::White,
            },
            Card {
                rank: TestRank::Three,
                suit: TestSuit::White,
            },
        ],
    ];

    let board: Board<TestRank, TestSuit> = Board::from_stacks(initial_stacks.clone());

    let new_board = board
        .next_board(Move::Individual { from: 1, to: 0 })
        .unwrap();

    assert_eq!(board.board(), &initial_stacks);
    assert_eq!(new_board.board(), &expected_stacks);
}

#[test]
fn default_rule_refuses_a_run_that_does_not_descend() {
    let mut board: Board<TestRank, TestSuit> = Board::from_stacks(initial_stacks());
    let result = board.apply_move(Move::Stack {
        row: 1,
        start: 0,
        to: 0,
    });
    assert_eq!(result, Err(BoardError::IllegalRun));
    assert_eq!(board.board(), &initial_stacks());
}

#[test]
fn default_rule_moves_a_descending_run() {
    let mut board: Board<TestRank, TestSuit> = Board::from_stacks(run_stacks());
    let result = board.apply_move(Move::Stack {
        row: 0,
        start: 1,
        to: 1,
    });
    assert_eq!(result, Ok(MoveResult::Moved { cards: 2 }));
    let expected = vec![
        vec![card(TestRank::Three, TestSuit::Black)],
        vec![
            card(TestRank::Three, TestSuit::White),
            card(TestRank::Two, TestSuit::Black),
            card(TestRank::One, TestSuit::Black),
        ],
        vec![
            card(TestRank::One, TestSuit::White),
            card(TestRank::Two, TestSuit::White),
        ],
        vec![],
    ];
    assert_eq!(board.board(), &expected);
}

#[test]
fn whole_descending_stack_moves_onto_an_empty_stack() {
    let mut board: Board<TestRank, TestSuit> = Board::from_stacks(run_stacks());
    let result = board.apply_move(Move::Stack {
        row: 0,
        start: 0,
        to: 3,
    });
    assert_eq!(result, Ok(MoveResult::Moved { cards: 3 }));
    assert_eq!(board.column_length(0), Ok(0));
    assert_eq!(board.board()[3], run_stacks()[0]);
}

#[test]
fn run_of_one_card_is_always_legal() {
    let mut board: Board<TestRank, TestSuit> = Board::from_stacks(run_stacks());
    let result = board.apply_move(Move::Stack {
        row: 2,
        start: 1,
        to: 3,
    });
    assert_eq!(result, Ok(MoveResult::Moved { cards: 1 }));
    assert_eq!(
        board.board()[3],
        vec![card(TestRank::Two, TestSuit::White)]
    );
}

#[test]
fn ascending_run_is_refused_by_default() {
    let mut board: Board<TestRank, TestSuit> = Board::from_stacks(run_stacks());
    let result = board.apply_move(Move::Stack {
        row: 2,
        start: 0,
        to: 3,
    });
    assert_eq!(result, Err(BoardError::IllegalRun));
    assert_eq!(board.board(), &run_stacks());
}

#[test]
fn rules_judge_a_pair_of_cards() {
    let three = card(TestRank::Three, TestSuit::Black);
    let two = card(TestRank::Two, TestSuit::White);
    let one = card(TestRank::One, TestSuit::White);
    assert!(DescendingRun.check(&three, &two));
    assert!(DescendingRun.check(&two, &one));
    assert!(!DescendingRun.check(&three, &one));
    assert!(!DescendingRun.check(&two, &three));
    assert!(!DescendingRun.check(&two, &two));
    assert!(AnyRun.check(&three, &one));
    assert!(AnyRun.check(&two, &three));
}

/// A rule of a variant's own: within a run the suits must agree and the
/// ordinals must descend by one.
struct SameSuitDescending;

impl RunRule<TestRank, TestSuit> for SameSuitDescending {
    fn check(&self, below: &TestCard, above: &TestCard) -> bool {
        below.suit == above.suit && above.rank.ordinal() + 1 == below.rank.ordinal()
    }
}

#[test]
fn a_variant_supplies_its_own_rule() {
    let stacks = vec![
        vec![
            card(TestRank::Three, TestSuit::Black),
            card(TestRank::Two, TestSuit::White),
            card(TestRank::One, TestSuit::White),
        ],
        vec![],
    ];
    let mut board: Board<TestRank, TestSuit> = Board::from_stacks(stacks.clone());
    let mixed = Move::Stack {
        row: 0,
        start: 0,
        to: 1,
    };
    assert_eq!(
        board.apply_move_with(mixed, &SameSuitDescending),
        Err(BoardError::IllegalRun)
    );
    assert_eq!(board.board(), &stacks);
    assert!(board.next_board_with(mixed, &SameSuitDescending).is_err());
    assert!(board.next_board_with(mixed, &DescendingRun).is_ok());

    let white = Move::Stack {
        row: 0,
        start: 1,
        to: 1,
    };
    assert_eq!(
        board.apply_move_with(white, &SameSuitDescending),
        Ok(MoveResult::Moved { cards: 2 })
    );
    let expected = vec![
        vec![card(TestRank::Three, TestSuit::Black)],
        vec![
            card(TestRank::Two, TestSuit::White),
            card(TestRank::One, TestSuit::White),
        ],
    ];
    assert_eq!(board.board(), &expected);
}

#[test]
fn individual_move_from_an_empty_stack_is_refused() {
    let mut board: Board<TestRank, TestSuit> = Board::from_stacks(run_stacks());
    assert_eq!(
        board.apply_move(Move::Individual { from: 3, to: 0 }),
        Err(BoardError::EmptySource)
    );
    assert_eq!(
        board.apply_move(Move::Individual { from: 3, to: 3 }),
        Err(BoardError::EmptySource)
    );
    assert_eq!(board.board(), &run_stacks());
}

#[test]
fn out_of_range_indices_are_refused() {
    let mut board: Board<TestRank, TestSuit> = Board::from_stacks(run_stacks());
    let refused = [
        Move::Individual { from: 4, to: 0 },
        Move::Individual { from: 0, to: 4 },
        Move::Individual {
            from: usize::MAX,
            to: usize::MAX,
        },
        Move::Stack {
            row: 4,
            start: 0,
            to: 0,
        },
        Move::Stack {
            row: 0,
            start: 0,
            to: 4,
        },
        Move::Stack {
            row: 0,
            start: 3,
            to: 1,
        },
        Move::Stack {
            row: 0,
            start: usize::MAX,
            to: 1,
        },
        Move::Stack {
            row: 3,
            start: 0,
            to: 1,
        },
    ];
    for mv in refused {
        assert_eq!(board.apply_move(mv), Err(BoardError::IndexOutOfRange));
        assert_eq!(
            board.apply_move_with(mv, &AnyRun),
            Err(BoardError::IndexOutOfRange)
        );
        assert!(matches!(
            board.next_board(mv),
            Err(BoardError::IndexOutOfRange)
        ));
        assert_eq!(board.board(), &run_stacks());
    }
}

#[test]
fn index_errors_come_before_the_other_checks() {
    let mut board: Board<TestRank, TestSuit> = Board::from_stacks(run_stacks());
    // The source is empty and the destination does not exist.
    assert_eq!(
        board.apply_move(Move::Individual { from: 3, to: 9 }),
        Err(BoardError::IndexOutOfRange)
    );
    // The run is illegal and the destination does not exist.
    assert_eq!(
        board.apply_move(Move::Stack {
            row: 2,
            start: 0,
            to: 9
        }),
        Err(BoardError::IndexOutOfRange)
    );
}

#[test]
fn moves_conserve_the_card_count() {
    let mut board: Board<TestRank, TestSuit> = Board::from_stacks(run_stacks());
    let moves = [
        Move::Individual { from: 0, to: 3 },
        Move::Individual { from: 2, to: 1 },
        Move::Stack {
            row: 0,
            start: 0,
            to: 2,
        },
        Move::Stack {
            row: 2,
            start: 0,
            to: 0,
        },
        Move::Individual { from: 3, to: 3 },
        Move::Individual { from: 7, to: 0 },
    ];
    for mv in moves {
        let stacks_before = board.columns();
        let _ = board.apply_move(mv);
        assert_eq!(count(board.board()), 6);
        assert_eq!(board.columns(), stacks_before);
    }
}

#[test]
fn branching_leaves_the_source_alone() {
    let board: Board<TestRank, TestSuit> = Board::from_stacks(run_stacks());
    let moves = [
        Move::Individual { from: 0, to: 3 },
        Move::Individual { from: 3, to: 0 },
        Move::Individual { from: 0, to: 8 },
        Move::Stack {
            row: 0,
            start: 1,
            to: 3,
        },
        Move::Stack {
            row: 2,
            start: 0,
            to: 3,
        },
    ];
    for mv in moves {
        let _ = board.next_board(mv);
        let _ = board.next_board_with(mv, &AnyRun);
        assert_eq!(board.board(), &run_stacks());
    }
}

#[test]
fn a_branch_is_independent_of_its_source() {
    let mut board: Board<TestRank, TestSuit> = Board::from_stacks(run_stacks());
    let mut branch = board.next_board(Move::Individual { from: 0, to: 3 }).unwrap();
    let branch_stacks = branch.board().clone();

    board.apply_move(Move::Individual { from: 1, to: 3 }).unwrap();
    assert_eq!(branch.board(), &branch_stacks);

    let board_stacks = board.board().clone();
    branch.apply_move(Move::Individual { from: 2, to: 0 }).unwrap();
    assert_eq!(board.board(), &board_stacks);
}

#[test]
fn stack_move_keeps_the_order_of_the_run() {
    let mut board: Board<TestRank, TestSuit> = Board::from_stacks(initial_stacks());
    board
        .apply_move_with(
            Move::Stack {
                row: 2,
                start: 0,
                to: 1,
            },
            &AnyRun,
        )
        .unwrap();
    let destination = &board.board()[1];
    assert_eq!(destination.len(), 4);
    assert_eq!(destination[..2], initial_stacks()[1][..]);
    assert_eq!(destination[2..], initial_stacks()[2][..]);
    assert_eq!(board.column_length(2), Ok(0));
}

#[test]
fn self_moves_succeed_and_change_nothing() {
    let mut board: Board<TestRank, TestSuit> = Board::from_stacks(run_stacks());
    assert_eq!(
        board.apply_move(Move::Individual { from: 0, to: 0 }),
        Ok(MoveResult::Unchanged)
    );
    assert_eq!(board.board(), &run_stacks());
    assert_eq!(
        board.apply_move(Move::Stack {
            row: 0,
            start: 0,
            to: 0
        }),
        Ok(MoveResult::Unchanged)
    );
    assert_eq!(board.board(), &run_stacks());
    assert_eq!(
        board.apply_move(Move::Stack {
            row: 0,
            start: 2,
            to: 0
        }),
        Ok(MoveResult::Unchanged)
    );
    assert_eq!(board.board(), &run_stacks());
    let branch = board
        .next_board(Move::Individual { from: 2, to: 2 })
        .unwrap();
    assert_eq!(branch.board(), &run_stacks());
}

#[test]
fn self_move_of_an_illegal_run_is_refused() {
    let mut board: Board<TestRank, TestSuit> = Board::from_stacks(run_stacks());
    let mv = Move::Stack {
        row: 2,
        start: 0,
        to: 2,
    };
    assert_eq!(board.apply_move(mv), Err(BoardError::IllegalRun));
    assert_eq!(
        board.apply_move_with(mv, &AnyRun),
        Ok(MoveResult::Unchanged)
    );
    assert_eq!(board.board(), &run_stacks());
}

#[test]
fn queries_read_the_stacks() {
    let board: Board<TestRank, TestSuit> = Board::from_stacks(run_stacks());
    assert_eq!(board.columns(), 4);
    assert_eq!(board.column_length(0), Ok(3));
    assert_eq!(board.column_length(1), Ok(1));
    assert_eq!(board.column_length(2), Ok(2));
    assert_eq!(board.column_length(3), Ok(0));
    assert_eq!(
        board.card_at((0, 0)),
        Ok(&card(TestRank::Three, TestSuit::Black))
    );
    assert_eq!(
        board.card_at((0, 2)),
        Ok(&card(TestRank::One, TestSuit::Black))
    );
    assert_eq!(
        board.card_at((2, 1)),
        Ok(&card(TestRank::Two, TestSuit::White))
    );
    assert_eq!(board.board(), &run_stacks());
}

#[test]
fn queries_refuse_indices_past_the_end() {
    let board: Board<TestRank, TestSuit> = Board::from_stacks(run_stacks());
    assert_eq!(board.column_length(4), Err(BoardError::IndexOutOfRange));
    assert_eq!(
        board.column_length(usize::MAX),
        Err(BoardError::IndexOutOfRange)
    );
    assert_eq!(board.card_at((4, 0)), Err(BoardError::IndexOutOfRange));
    assert_eq!(board.card_at((0, 3)), Err(BoardError::IndexOutOfRange));
    assert_eq!(board.card_at((3, 0)), Err(BoardError::IndexOutOfRange));
    assert_eq!(
        board.card_at((usize::MAX, usize::MAX)),
        Err(BoardError::IndexOutOfRange)
    );
}

#[test]
fn a_board_without_stacks_refuses_every_index() {
    let mut board: Board<TestRank, TestSuit> = Board::from_stacks(vec![]);
    assert_eq!(board.columns(), 0);
    assert_eq!(board.column_length(0), Err(BoardError::IndexOutOfRange));
    assert_eq!(board.card_at((0, 0)), Err(BoardError::IndexOutOfRange));
    assert_eq!(
        board.apply_move(Move::Individual { from: 0, to: 0 }),
        Err(BoardError::IndexOutOfRange)
    );
}

#[test]
fn cloned_card_equals_its_source() {
    let source = card(TestRank::Two, TestSuit::White);
    let copy = source.clone();
    assert_eq!(copy, source);
    assert_eq!(copy.rank.ordinal(), 2);
}
