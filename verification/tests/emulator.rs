use rotchess_core::board::{BoardError, Pieces};
use rotchess_core::emulator::{Event, MouseButton, RotchessEmulator, ThingHappened};
use rotchess_core::floating_drift::UNIT;
use rotchess_core::piece::{Angle, Piece, PieceKind, Side, TravelKind};
use rotchess_core::turn::{EngineError, Turns};

const U: i64 = UNIT;

fn board(pieces: Vec<(i64, i64, Side, PieceKind)>) -> Pieces {
    let pieces = pieces
        .into_iter()
        .enumerate()
        .map(|(id, (x, y, side, kind))| {
            let angle = if side == Side::Black { Angle::half_turn() } else { Angle::zero() };
            Piece::new(id, (x, y), angle, side, kind)
        })
        .collect();
    Pieces::with_pieces(pieces).unwrap()
}

fn down(x: i64, y: i64) -> Event {
    Event::ButtonDown { x, y, button: MouseButton::LEFT }
}

fn up(x: i64, y: i64) -> Event {
    Event::ButtonUp { x, y, button: MouseButton::LEFT }
}

#[test]
fn a_new_emulator_is_idle() {
    let e = RotchessEmulator::with(Pieces::standard_board());
    assert!(e.selected().is_none());
    assert!(e.selected_travelpoint().is_none());
    assert_eq!(e.pieces().len(), 32);
    assert_eq!(e.turns().curr_turn(), 0);
    assert_eq!(e.turns().to_move(), Side::White);
}

#[test]
fn a_press_selects_and_deselects() {
    let mut e = RotchessEmulator::with(Pieces::standard_board());
    assert!(e.handle_event(down(U / 2, 6 * U + U / 2)).is_none());
    let (piece, points) = e.selected().unwrap();
    assert_eq!(piece.id(), 1);
    // two steps ahead and one capture; the other capture point is off the board
    assert_eq!(points.len(), 3);
    assert_eq!((points[0].x, points[0].y, points[0].kind, points[0].travelable), (U / 2, 5 * U + U / 2, TravelKind::Move, true));
    assert_eq!((points[1].x, points[1].y, points[1].kind, points[1].travelable), (U / 2, 4 * U + U / 2, TravelKind::Move, true));
    assert_eq!((points[2].x, points[2].y, points[2].kind, points[2].travelable), (U + U / 2, 5 * U + U / 2, TravelKind::Capture, false));
    // another piece
    e.handle_event(Event::ButtonDown { x: U + U / 2, y: 7 * U + U / 2, button: MouseButton::RIGHT });
    assert_eq!(e.selected().unwrap().0.id(), 19);
    // three of the knight's points are on the board, as moves and as captures
    assert_eq!(e.selected().unwrap().1.len(), 6);
    assert_eq!(e.selected().unwrap().1.iter().filter(|p| p.travelable).count(), 2);
    // the same piece again
    e.handle_event(down(U + U / 2, 7 * U + U / 2));
    assert!(e.selected().is_none());
    e.handle_event(down(U + U / 2, 7 * U + U / 2));
    assert!(e.selected().is_some());
    // nothing
    e.handle_event(down(4 * U, 4 * U));
    assert!(e.selected().is_none());
}

#[test]
fn releasing_a_travel_point_moves_the_piece() {
    let mut e = RotchessEmulator::with(Pieces::standard_board());
    e.handle_event(down(U / 2, 6 * U + U / 2));
    assert!(e.handle_event(down(U / 2 + 1000, 4 * U + U / 2)).is_none());
    assert_eq!(e.selected_travelpoint(), Some((1, false)));
    let happened = e.handle_event(up(U / 2 + 1000, 4 * U + U / 2));
    assert!(matches!(happened, Some(ThingHappened::Move(1, x, y)) if (x, y) == (U / 2, 4 * U + U / 2)));
    assert!(e.selected().is_none());
    assert!(e.selected_travelpoint().is_none());
    assert_eq!(e.pieces().get(1).unwrap().center(), (U / 2, 4 * U + U / 2));
    assert_eq!(e.turns().curr_turn(), 1);
    assert_eq!(e.turns().num_turns(), 2);
    assert_eq!(e.turns().to_move(), Side::Black);
}

#[test]
fn a_point_that_is_not_travelable_is_held_but_not_travelled_to() {
    let mut e = RotchessEmulator::with(Pieces::standard_board());
    e.handle_event(down(U / 2, 6 * U + U / 2));
    // a capture point of the pawn with nothing to capture
    e.handle_event(down(U + U / 2, 5 * U + U / 2));
    assert_eq!(e.selected_travelpoint(), Some((2, false)));
    assert!(e.handle_event(up(U + U / 2, 5 * U + U / 2)).is_none());
    assert!(e.selected_travelpoint().is_none());
    assert_eq!(e.selected().unwrap().0.id(), 1);
    assert_eq!(e.turns().num_turns(), 1);
    assert_eq!(e.pieces().get(1).unwrap().center(), (U / 2, 6 * U + U / 2));
}

#[test]
fn the_first_travelable_point_under_the_pointer_is_held() {
    // move and capture points of a rook coincide; the move point comes first and is free
    let mut e = RotchessEmulator::with(board(vec![
        (4 * U, 4 * U, Side::White, PieceKind::Rook),
        (4 * U, 2 * U, Side::Black, PieceKind::Pawn),
    ]));
    e.handle_event(down(4 * U, 4 * U));
    let points: Vec<_> = e.selected().unwrap().1.clone();
    e.handle_event(down(4 * U, 3 * U));
    let (k, dragged) = e.selected_travelpoint().unwrap();
    assert!(!dragged);
    assert_eq!((points[k].x, points[k].y, points[k].kind, points[k].travelable), (4 * U, 3 * U, TravelKind::Move, true));
    assert_eq!(k, 0);
    e.handle_event(up(4 * U, 3 * U));
    // on the pawn the move point is not travelable, the capture point after it is
    e.handle_event(down(4 * U, 3 * U));
    let points: Vec<_> = e.selected().unwrap().1.clone();
    e.handle_event(down(4 * U, 2 * U));
    let (k, _) = e.selected_travelpoint().unwrap();
    assert_eq!((points[k].x, points[k].y, points[k].kind, points[k].travelable), (4 * U, 2 * U, TravelKind::Capture, true));
    let happened = e.handle_event(up(4 * U, 2 * U));
    assert!(matches!(happened, Some(ThingHappened::Move(0, _, _))));
    assert!(e.pieces().get(1).is_none());
    assert_eq!(e.turns().curr_turn(), 2);
}

#[test]
fn dragging_a_travel_point_turns_the_piece() {
    let mut e = RotchessEmulator::with(Pieces::standard_board());
    e.handle_event(down(U / 2, 6 * U + U / 2));
    e.handle_event(down(U / 2, 5 * U + U / 2));
    let quarter = Angle::new(0, -U).unwrap();
    assert!(e.handle_event(Event::MouseMotion { x: U, y: 6 * U, angle: quarter }).is_none());
    assert_eq!(e.selected_travelpoint(), Some((0, true)));
    let (piece, points) = e.selected().unwrap();
    assert_eq!(piece.angle(), quarter);
    // the pawn now walks along its rank, into its neighbours
    assert_eq!(points.len(), 4);
    assert_eq!((points[0].x, points[0].y, points[0].travelable), (U + U / 2, 6 * U + U / 2, false));
    assert_eq!((points[1].x, points[1].y, points[1].travelable), (2 * U + U / 2, 6 * U + U / 2, false));
    assert_eq!((points[2].x, points[2].y, points[2].kind), (U + U / 2, 7 * U + U / 2, TravelKind::Capture));
    assert_eq!((points[3].x, points[3].y, points[3].kind), (U + U / 2, 5 * U + U / 2, TravelKind::Capture));
    assert_eq!(e.turns().num_turns(), 1);
    let happened = e.handle_event(up(0, 0));
    assert!(matches!(happened, Some(ThingHappened::Rotate(1, a)) if a == quarter));
    assert!(e.selected_travelpoint().is_none());
    assert_eq!(e.selected().unwrap().0.id(), 1);
    assert_eq!(e.turns().num_turns(), 2);
    assert_eq!(e.turns().to_move(), Side::Black);
    // without a hold the pointer moves freely
    assert!(e.handle_event(Event::MouseMotion { x: U, y: U, angle: Angle::zero() }).is_none());
    assert_eq!(e.selected().unwrap().0.angle(), quarter);
}

#[test]
fn navigation_events_walk_the_history() {
    let mut e = RotchessEmulator::with(Pieces::standard_board());
    e.handle_event(Event::MoveUnchecked(1, U / 2, 5 * U));
    e.handle_event(Event::MoveUnchecked(0, U / 2, 3 * U));
    e.handle_event(down(U / 2, 5 * U));
    assert!(e.selected().is_some());
    assert!(matches!(e.handle_event(Event::FirstTurn), Some(ThingHappened::FirstTurn)));
    assert!(e.selected().is_none());
    assert_eq!(e.turns().curr_turn(), 0);
    assert_eq!(e.pieces().get(1).unwrap().center(), (U / 2, 6 * U + U / 2));
    assert!(matches!(e.handle_event(Event::PrevTurn), Some(ThingHappened::PrevTurn)));
    assert_eq!(e.turns().curr_turn(), 0);
    assert!(matches!(e.handle_event(Event::NextTurn), Some(ThingHappened::NextTurn)));
    assert_eq!(e.turns().curr_turn(), 1);
    assert!(matches!(e.handle_event(Event::LastTurn), Some(ThingHappened::LastTurn)));
    assert_eq!(e.turns().curr_turn(), 2);
    assert!(matches!(e.handle_event(Event::NextTurn), Some(ThingHappened::NextTurn)));
    assert_eq!(e.turns().curr_turn(), 2);
    assert_eq!(e.pieces().get(0).unwrap().center(), (U / 2, 3 * U));
}

#[test]
fn unchecked_events_bypass_the_rules() {
    let mut e = RotchessEmulator::with(Pieces::standard_board());
    // onto the black queen, across the whole board
    assert!(e.handle_event(Event::MoveUnchecked(1, 3 * U + U / 2, U / 2)).is_none());
    assert!(e.pieces().get(22).is_none());
    // the pawn is on its promotion rank
    assert_eq!(e.pieces().get(1).unwrap().kind(), PieceKind::Queen);
    assert!(!e.pieces().get(1).unwrap().needs_init());
    assert_eq!(e.turns().to_move(), Side::Black);
    assert_eq!(e.turns().curr_turn(), 1);
    assert!(e.selected().is_none());
    let a = Angle::new(707_107, -707_107).unwrap();
    assert!(e.handle_event(Event::RotateUnchecked(0, a)).is_none());
    assert_eq!(e.pieces().get(0).unwrap().angle(), a);
    assert_eq!(e.turns().to_move(), Side::White);
    assert_eq!(e.turns().curr_turn(), 2);
    e.handle_event(Event::PrevTurn);
    assert_eq!(e.pieces().get(0).unwrap().angle(), Angle::half_turn());
    let (alive, dead) = e.pieces().slot(22);
    assert!(!alive);
    assert_eq!(dead.kind(), PieceKind::Queen);
}

#[test]
fn right_button_up_does_nothing() {
    let mut e = RotchessEmulator::with(Pieces::standard_board());
    e.handle_event(down(U / 2, 6 * U + U / 2));
    assert!(e.handle_event(Event::ButtonUp { x: 0, y: 0, button: MouseButton::RIGHT }).is_none());
    assert!(e.handle_event(up(0, 0)).is_none());
    assert_eq!(e.selected().unwrap().0.id(), 1);
    assert_eq!(e.turns().num_turns(), 1);
}

#[test]
fn the_engine_moves_through_the_emulator() {
    let mut e = RotchessEmulator::with(board(vec![
        (4 * U, 4 * U, Side::White, PieceKind::Rook),
        (4 * U, U, Side::Black, PieceKind::Knight),
        (0, 8 * U, Side::Black, PieceKind::King),
    ]));
    e.make_best_move();
    assert!(e.pieces().get(1).is_none());
    assert_eq!(e.turns().to_move(), Side::Black);
    assert_eq!(e.try_make_best_move(), Ok(()));
    assert_eq!(e.turns().to_move(), Side::White);
    assert_eq!(e.turns().curr_turn(), 2);
}

#[test]
fn the_engine_refuses_what_it_cannot_search() {
    // no piece of the side to move
    let mut t = Turns::with(board(vec![(4 * U, 4 * U, Side::Black, PieceKind::Rook)]));
    assert_eq!(t.try_make_best_move(), Err(EngineError::NoLegalMove));
    assert_eq!((t.curr_turn(), t.to_move()), (0, Side::White));
    // an edit that was not saved
    let mut t = Turns::with(Pieces::standard_board());
    assert!(t.is_synced());
    t.working_board_mut().travel(1, U / 2, 5 * U);
    assert!(!t.is_synced());
    assert_eq!(t.try_make_best_move(), Err(EngineError::NotSynced));
    assert_eq!(t.num_turns(), 1);
    t.save_turn();
    assert!(t.is_synced());
    // five pieces around one point, all of them captured by a rook that lands there
    let ring = |k: i64| match k {
        0 => (4 * U, 5 * U - 600_000),
        1 => (4 * U + 570_634, 5 * U - 185_410),
        2 => (4 * U + 352_671, 5 * U + 485_410),
        3 => (4 * U - 352_671, 5 * U + 485_410),
        _ => (4 * U - 570_634, 5 * U - 185_410),
    };
    let mut pieces = vec![(4 * U, U, Side::White, PieceKind::Rook)];
    for k in 0..5 {
        pieces.push((ring(k).0, ring(k).1, Side::Black, PieceKind::Pawn));
    }
    let b = board(pieces);
    let rook = b.get(0).unwrap();
    assert!(b.is_travelable(rook, 4 * U, 5 * U, TravelKind::Capture));
    assert!(matches!(b.try_travelable(rook, 4 * U, 5 * U, TravelKind::Capture), Err(BoardError::TooManyCaptures)));
    assert!(matches!(b.try_travelable(rook, 4 * U, 5 * U, TravelKind::Move), Ok(None)));
    assert!(matches!(b.try_travelable(rook, 4 * U, 2 * U, TravelKind::Move), Ok(Some(_))));
    let mut t = Turns::with(b);
    assert!(t.try_all_moves().is_none());
    assert!(!t.search_fits(1));
    assert!(t.search_fits(0));
    assert_eq!(t.try_make_best_move(), Err(EngineError::TooManyCaptures));
    assert_eq!((t.curr_turn(), t.to_move()), (0, Side::White));
    t.set_to_move(Side::Black);
    assert!(t.try_all_moves().is_some());
    assert!(t.search_fits(1));
    // whichever pawn moves leaves the ring, and four can be captured
    assert!(t.search_fits(2));
    assert_eq!((t.curr_turn(), t.to_move()), (0, Side::Black));
}

#[test]
fn search_fits_on_the_initial_position() {
    let mut t = Turns::with(Pieces::standard_board());
    assert!(t.search_fits(2));
    assert_eq!((t.curr_turn(), t.to_move()), (0, Side::White));
    assert_eq!(t.try_all_moves().unwrap().len(), 20);
    let a = Pieces::standard_board();
    let mut b = Pieces::standard_board();
    assert!(a.same_slots(&b));
    b.init_all_auxiliary_data();
    assert!(a.same_slots(&b));
    b.travel(3, U, 5 * U);
    assert!(!a.same_slots(&b));
}
