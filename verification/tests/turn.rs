use rotchess_core::board::Pieces;
use rotchess_core::floating_drift::UNIT;
use rotchess_core::piece::{Angle, Piece, PieceKind, Side};
use rotchess_core::search::{isqrt, DEPTH, INFINITY, NEG_INFINITY};
use rotchess_core::turn::{Move, RotationPhase, TravelPhase, Turns, MAX_CAPTURES};

const U: i64 = UNIT;

fn board(pieces: Vec<(i64, i64, Side, PieceKind)>) -> Pieces {
    let pieces = pieces
        .into_iter()
        .enumerate()
        .map(|(id, (x, y, side, kind))| {
            let angle = if side == Side::Black { Angle::half_turn() } else { Angle::zero() };
            Piece::new(id, (x, y), angle, side, kind)
        })
        .collect();
    Pieces::with_pieces(pieces).unwrap()
}

fn state(b: &Pieces) -> Vec<Option<((i64, i64), Angle, Side, PieceKind)>> {
    (0..b.len()).map(|id| b.get(id).map(|p| (p.center(), p.angle(), p.side(), p.kind()))).collect()
}

#[test]
fn travel_phase_holds_what_it_was_given() {
    assert_eq!(MAX_CAPTURES, 4);
    let t = TravelPhase::new(3, (1, 2), (3, 4), (2, [7, 9, 11, 13]));
    assert_eq!(t.piece(), 3);
    assert_eq!(t.src(), (1, 2));
    assert_eq!(t.dest(), (3, 4));
    assert_eq!(t.captures(), &[7, 9]);
    let full = TravelPhase::new(0, (0, 0), (0, 0), (4, [1, 2, 3, 4]));
    assert_eq!(full.captures(), &[1, 2, 3, 4]);
    let none = TravelPhase::new(0, (0, 0), (0, 0), (0, [1, 2, 3, 4]));
    assert!(none.captures().is_empty());
    assert_eq!(t.clone().captures(), t.captures());
}

#[test]
fn integer_square_roots() {
    assert_eq!(isqrt(0), 0);
    assert_eq!(isqrt(1), 1);
    assert_eq!(isqrt(3), 1);
    assert_eq!(isqrt(4), 2);
    assert_eq!(isqrt(24), 4);
    assert_eq!(isqrt(25), 5);
    assert_eq!(isqrt(2_000_000_000_000), 1_414_213);
    assert_eq!(isqrt(u64::MAX), 4_294_967_295);
}

#[test]
fn new_history_has_one_snapshot() {
    let t = Turns::with(Pieces::standard_board());
    assert_eq!(t.curr_turn(), 0);
    assert_eq!(t.num_turns(), 1);
    assert_eq!(t.to_move(), Side::White);
    assert_eq!(state(t.working_board_ref()), state(&Pieces::standard_board()));
}

#[test]
fn commits_are_visited_in_order() {
    let mut t = Turns::with(Pieces::standard_board());
    let mut seen = vec![state(t.working_board_ref())];
    let n = 5;
    for i in 0..n {
        t.working_board_mut().travel(1, U / 2, 6 * U - i as i64 * 300_000);
        t.save_turn();
        assert_eq!(t.curr_turn(), i + 1);
        seen.push(state(t.working_board_ref()));
    }
    assert_eq!(t.num_turns(), n + 1);
    t.first();
    assert_eq!(t.curr_turn(), 0);
    assert_eq!(state(t.working_board_ref()), seen[0]);
    for i in 1..=n {
        assert_eq!(t.next(), Ok(()));
        assert_eq!(t.curr_turn(), i);
        assert_eq!(state(t.working_board_ref()), seen[i]);
    }
    assert_eq!(t.next(), Err(()));
    assert_eq!(t.curr_turn(), n);
    assert_eq!(state(t.working_board_ref()), seen[n]);
    for i in (0..n).rev() {
        assert_eq!(t.prev(), Ok(()));
        assert_eq!(state(t.working_board_ref()), seen[i]);
    }
    assert_eq!(t.prev(), Err(()));
    assert_eq!(t.curr_turn(), 0);
    t.last();
    assert_eq!(t.curr_turn(), n);
    assert_eq!(state(t.working_board_ref()), seen[n]);
}

#[test]
fn commit_after_rewind_discards_the_future() {
    let mut t = Turns::with(Pieces::standard_board());
    for i in 0..4 {
        t.working_board_mut().travel(1, U / 2, 6 * U - i * 300_000);
        t.save_turn();
    }
    t.first();
    t.next().unwrap();
    t.next().unwrap();
    let kept = state(t.working_board_ref());
    t.working_board_mut().travel(3, U + U / 2, 5 * U);
    let branch = state(t.working_board_ref());
    t.save_turn();
    assert_eq!(t.curr_turn(), 3);
    assert_eq!(t.num_turns(), 4);
    assert_eq!(t.next(), Err(()));
    assert_eq!(state(t.working_board_ref()), branch);
    t.prev().unwrap();
    assert_eq!(state(t.working_board_ref()), kept);
}

#[test]
fn navigation_drops_uncommitted_edits() {
    let mut t = Turns::with(Pieces::standard_board());
    t.working_board_mut().travel(1, U / 2, 5 * U);
    t.first();
    assert_eq!(state(t.working_board_ref()), state(&Pieces::standard_board()));
    t.set_to_move(Side::Black);
    assert_eq!(t.to_move(), Side::Black);
    t.save_turn();
    assert_eq!(t.to_move(), Side::Black);
}

#[test]
fn evaluation_formula() {
    let t = Turns::with(board(vec![(4 * U, 4 * U, Side::White, PieceKind::Pawn)]));
    assert_eq!(t.eval(), 105 * U);
    let t = Turns::with(board(vec![(7 * U, 8 * U, Side::White, PieceKind::Pawn)]));
    assert_eq!(t.eval(), 100 * U);
    let t = Turns::with(board(vec![(5 * U, 5 * U, Side::White, PieceKind::Queen)]));
    assert_eq!(t.eval(), 900 * U + 5 * U - 1_414_213);
    let mut t = Turns::with(board(vec![
        (4 * U, 4 * U, Side::White, PieceKind::Rook),
        (4 * U, U, Side::Black, PieceKind::Knight),
        (0, 0, Side::Black, PieceKind::King),
    ]));
    t.working_board_mut().travel(1, 0, 0);
    assert_eq!(t.eval(), 505 * U - (300 * U + 5 * U - 5_656_854));
    t.set_to_move(Side::Black);
    assert_eq!(t.eval(), -(505 * U - (300 * U + 5 * U - 5_656_854)));
}

#[test]
fn evaluation_is_antisymmetric() {
    let mut t = Turns::with(Pieces::standard_board());
    assert_eq!(t.eval(), 0);
    t.working_board_mut().travel(1, U / 2, 4 * U);
    t.working_board_mut().travel(20, 3 * U, 3 * U + 123_456);
    t.working_board_mut().travel(9, 4 * U + U / 2, U + U / 2);
    let white = t.eval();
    t.set_to_move(Side::Black);
    assert_eq!(t.eval(), -white);
    assert_ne!(white, 0);
}

#[test]
fn all_moves_of_the_initial_position() {
    let mut t = Turns::with(Pieces::standard_board());
    let moves = t.all_moves();
    // sixteen pawn advances and four knight moves
    assert_eq!(moves.len(), 20);
    for m in &moves {
        assert!(m.travel.captures().is_empty());
        assert_eq!(m.rotate.piece, m.travel.piece());
        assert_eq!(m.rotate.src, m.rotate.dest);
        let p = t.working_board_ref().get(m.travel.piece()).unwrap();
        assert_eq!(p.side(), Side::White);
        assert_eq!(p.center(), m.travel.src());
        assert!(!p.needs_init());
    }
    assert_eq!(moves[0].travel.piece(), 1);
    assert_eq!(moves[0].travel.dest(), (U / 2, 5 * U + U / 2));
    assert_eq!(moves[1].travel.dest(), (U / 2, 4 * U + U / 2));
    t.set_to_move(Side::Black);
    let moves = t.all_moves();
    assert_eq!(moves.len(), 20);
    assert_eq!(moves[0].travel.piece(), 0);
    assert_eq!(moves[0].travel.dest(), (U / 2, 2 * U + U / 2));
}

#[test]
fn all_moves_lists_move_points_before_capture_points() {
    let mut t = Turns::with(board(vec![
        (4 * U, 4 * U, Side::White, PieceKind::King),
        (4 * U, 3 * U, Side::Black, PieceKind::Pawn),
        (7 * U, 7 * U, Side::Black, PieceKind::Pawn),
    ]));
    let moves = t.all_moves();
    assert_eq!(moves.len(), 8);
    // seven free points, then the capture straight ahead
    for m in &moves[..7] {
        assert!(m.travel.captures().is_empty());
    }
    assert_eq!(moves[7].travel.dest(), (4 * U, 3 * U));
    assert_eq!(moves[7].travel.captures(), &[1]);
}

#[test]
fn apply_and_unapply_round_trip() {
    let mut t = Turns::with(Pieces::standard_board());
    let before = state(t.working_board_ref());
    let moves = t.all_moves();
    for m in &moves {
        t.apply(m);
        assert_eq!(t.curr_turn(), 1);
        assert_eq!(t.to_move(), Side::Black);
        assert_eq!(t.working_board_ref().get(m.travel.piece()).unwrap().center(), m.travel.dest());
        assert_ne!(state(t.working_board_ref()), before);
        t.unapply();
        assert_eq!(t.curr_turn(), 0);
        assert_eq!(t.to_move(), Side::White);
        assert_eq!(state(t.working_board_ref()), before);
    }
}

#[test]
fn apply_discards_the_future() {
    let mut t = Turns::with(Pieces::standard_board());
    let moves = t.all_moves();
    t.apply(&moves[0]);
    t.apply(&Move {
        travel: TravelPhase::new(0, (U / 2, U + U / 2), (U / 2, 2 * U + U / 2), (0, [0; 4])),
        rotate: RotationPhase { piece: 0, src: Angle::half_turn(), dest: Angle::half_turn() },
    });
    assert_eq!((t.curr_turn(), t.num_turns()), (2, 3));
    t.unapply();
    t.unapply();
    assert_eq!((t.curr_turn(), t.num_turns()), (0, 3));
    t.apply(&moves[3]);
    assert_eq!((t.curr_turn(), t.num_turns()), (1, 2));
}

#[test]
fn negamax_at_depth_zero_is_the_evaluation() {
    let mut t = Turns::with(board(vec![
        (4 * U, 4 * U, Side::White, PieceKind::Rook),
        (4 * U, U, Side::Black, PieceKind::Knight),
    ]));
    let e = t.eval();
    assert_eq!(t.negamax_ab(0, NEG_INFINITY, INFINITY), e);
    assert_eq!(t.negamax_ab(0, 5, 6), e);
}

#[test]
fn negamax_takes_a_hanging_piece() {
    let mut t = Turns::with(board(vec![
        (4 * U, 4 * U, Side::White, PieceKind::Rook),
        (4 * U, U, Side::Black, PieceKind::Knight),
        (0, 8 * U, Side::Black, PieceKind::Pawn),
    ]));
    let before = state(t.working_board_ref());
    let score = t.negamax_ab(1, NEG_INFINITY, INFINITY);
    // the rook takes the knight and stands three units from the center
    assert_eq!(score, 500 * U + (5 * U - 3 * U) - (100 * U + 5 * U - 5_656_854));
    assert_eq!(state(t.working_board_ref()), before);
    assert_eq!(t.curr_turn(), 0);
    assert_eq!(t.to_move(), Side::White);
}

#[test]
fn negamax_without_moves_is_lost() {
    let mut t = Turns::with(board(vec![(4 * U, 4 * U, Side::Black, PieceKind::Rook)]));
    assert_eq!(t.negamax_ab(1, NEG_INFINITY, INFINITY), NEG_INFINITY);
    assert_eq!(t.negamax_ab(2, -7, 7), NEG_INFINITY);
    t.set_to_move(Side::Black);
    // every reply leaves White without a move
    assert_eq!(t.negamax_ab(2, NEG_INFINITY, INFINITY), INFINITY);
}

#[test]
fn negamax_fails_soft_at_beta() {
    let mut t = Turns::with(board(vec![
        (4 * U, 4 * U, Side::White, PieceKind::Rook),
        (7 * U, 7 * U, Side::Black, PieceKind::Pawn),
    ]));
    // the first move already beats beta, and its value is returned
    let first = {
        let moves = t.all_moves();
        t.apply(&moves[0]);
        let v = -t.eval();
        t.unapply();
        v
    };
    assert_eq!(t.negamax_ab(1, -1_000 * U, -900 * U), first);
    let full = t.negamax_ab(1, NEG_INFINITY, INFINITY);
    assert!(full >= first);
    // the best move leaves the rook one unit from the center
    assert_eq!(full, 500 * U + 5 * U - U - (100 * U + 5 * U - 4_242_640));
}

#[test]
fn engine_moves_from_the_initial_position() {
    assert_eq!(DEPTH, 3);
    let mut t = Turns::with(Pieces::standard_board());
    let before = state(t.working_board_ref());
    let legal: Vec<(usize, (i64, i64))> =
        t.all_moves().iter().map(|m| (m.travel.piece(), m.travel.dest())).collect();
    t.make_best_move();
    assert_eq!(t.curr_turn(), 1);
    assert_eq!(t.num_turns(), 2);
    assert_eq!(t.to_move(), Side::Black);
    let after = state(t.working_board_ref());
    let changed: Vec<usize> = (0..32).filter(|&i| before[i] != after[i]).collect();
    assert_eq!(changed.len(), 1);
    let id = changed[0];
    assert!(legal.contains(&(id, after[id].unwrap().0)));
    assert_eq!(after[id].unwrap().1, before[id].unwrap().1);
    t.prev().unwrap();
    assert_eq!(state(t.working_board_ref()), before);
    assert_eq!(t.to_move(), Side::Black);
}

#[test]
fn engine_keeps_the_later_of_equal_moves() {
    // a lone king: Black has no reply to any move, so all eight moves are worth the same.
    let mut t = Turns::with(board(vec![(4 * U, 4 * U, Side::White, PieceKind::King)]));
    let moves = t.all_moves();
    assert_eq!(moves.len(), 8);
    let last = moves[7].travel.dest();
    assert_eq!(last, (3 * U, 3 * U));
    t.make_best_move();
    assert_eq!(t.working_board_ref().get(0).unwrap().center(), last);
    assert_eq!(t.to_move(), Side::Black);
    assert_eq!((t.curr_turn(), t.num_turns()), (1, 2));
}

#[test]
fn engine_discards_the_future_and_refreshes_caches() {
    let mut t = Turns::with(board(vec![
        (4 * U, 4 * U, Side::White, PieceKind::Rook),
        (4 * U, U, Side::Black, PieceKind::Knight),
        (0, 8 * U, Side::Black, PieceKind::King),
    ]));
    t.working_board_mut().travel(0, 4 * U, 5 * U);
    t.save_turn();
    t.working_board_mut().travel(0, 4 * U, 6 * U);
    t.save_turn();
    t.first();
    t.make_best_move();
    assert_eq!((t.curr_turn(), t.num_turns()), (1, 2));
    // the rook takes the knight
    assert!(t.working_board_ref().get(1).is_none());
    assert_eq!(t.working_board_ref().get(0).unwrap().center(), (4 * U, U));
    t.prev().unwrap();
    assert!(!t.working_board_ref().get(0).unwrap().needs_init());
    assert!(t.working_board_ref().get(1).is_some());
}

/// The value of the position when both sides play their best, without any pruning.
fn minimax(t: &mut Turns, depth: usize) -> i64 {
    if depth == 0 {
        return t.eval();
    }
    let mut best = NEG_INFINITY;
    for m in t.all_moves() {
        t.apply(&m);
        let score = -minimax(t, depth - 1);
        t.unapply();
        best = best.max(score);
    }
    best
}

#[test]
fn alpha_beta_agrees_with_plain_minimax() {
    let positions = vec![
        board(vec![
            (4 * U, 4 * U, Side::White, PieceKind::Rook),
            (4 * U, U, Side::Black, PieceKind::Knight),
            (0, 8 * U, Side::Black, PieceKind::Pawn),
        ]),
        board(vec![
            (U / 2, 6 * U + U / 2, Side::White, PieceKind::Pawn),
            (U + U / 2, 4 * U + U / 2, Side::Black, PieceKind::Pawn),
            (5 * U, 5 * U, Side::White, PieceKind::King),
            (3 * U, U, Side::Black, PieceKind::Bishop),
        ]),
    ];
    for b in positions {
        for depth in 0..4 {
            for side in [Side::White, Side::Black] {
                let mut t = Turns::with(b.clone());
                t.set_to_move(side);
                let value = minimax(&mut t, depth);
                assert_eq!(t.negamax_ab(depth, NEG_INFINITY, INFINITY), value);
                // a narrow window bounds the value from the right side
                let windows = [
                    (value.saturating_sub(10), value.saturating_add(10)),
                    (value, value.saturating_add(1)),
                    (value.saturating_sub(1), value),
                    (-5, 5),
                ];
                for (alpha, beta) in windows {
                    let (alpha, beta) = (alpha.max(NEG_INFINITY), beta.min(INFINITY));
                    if alpha >= beta {
                        continue;
                    }
                    let r = t.negamax_ab(depth, alpha, beta);
                    if r <= alpha {
                        assert!(value <= r);
                    } else if r >= beta {
                        assert!(value >= r);
                    } else {
                        assert_eq!(r, value);
                    }
                }
                assert_eq!((t.curr_turn(), t.to_move()), (0, side));
            }
        }
    }
}

#[test]
fn legal_moves_keep_the_pieces_apart() {
    let mut t = Turns::with(Pieces::standard_board());
    for _ in 0..6 {
        let moves = t.all_moves();
        // the last move of the list: usually a knight's
        t.apply(&moves[moves.len() - 1]);
        let b = t.working_board_ref();
        let living = b.board_pieces();
        for p in &living {
            for q in &living {
                if p.id() != q.id() {
                    assert!(!p.collidepiece(q.x(), q.y()));
                }
            }
        }
    }
    assert_eq!(t.curr_turn(), 6);
    assert_eq!(t.to_move(), Side::White);
}
