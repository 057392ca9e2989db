use rotchess_core::floating_drift::UNIT;
use rotchess_core::piece::{
    Angle, DistancesAngle, Piece, PieceKind, Side, TravelKind, BOARD_SIZE, PIECE_RADIUS,
};

const U: i64 = UNIT;

fn collect(da: DistancesAngle) -> Vec<i64> {
    let mut it = da.into_iter();
    let mut out = vec![];
    while let Some(d) = it.next() {
        out.push(d);
    }
    out
}

#[test]
fn rep() {
    let n = 5;
    let da = DistancesAngle::repeated(1, 2, n, (0, 1));
    assert_eq!(n as usize, collect(da).len());
}

#[test]
fn rep_45deg() {
    let (start, step, n, angle) = (0, 1, 4, (1, 1));
    let da = DistancesAngle::repeated(start, step, n, angle);
    let offset_angle = Angle::zero();
    assert_eq![
        vec![(0, 0), (U, U), (2 * U, 2 * U), (3 * U, 3 * U)],
        da.get_offsets(offset_angle)
    ];
}

#[test]
fn repeated_yields_its_distances() {
    assert_eq!(collect(DistancesAngle::repeated(1, 2, 5, (1, 0))), vec![1, 3, 5, 7, 9]);
    assert_eq!(collect(DistancesAngle::repeated(1, 1, 0, (1, 0))), Vec::<i64>::new());
    assert_eq!(collect(DistancesAngle::singleton(7, (1, 0))), vec![7]);
    assert_eq!(collect(DistancesAngle::range(2, 3, Some(9), (1, 0))), vec![2, 5, 8]);
}

#[test]
fn ray_without_end_keeps_yielding() {
    let mut it = DistancesAngle::range(1, 1, None, (1, 0)).into_iter();
    for want in 1..100 {
        assert_eq!(it.next(), Some(want));
    }
}

#[test]
fn offsets_turn_with_the_offset_angle() {
    let da = DistancesAngle::singleton(1, (1, 0));
    // turned back by a quarter turn, straight ahead points down the y axis
    assert_eq!(da.get_point(1, Angle::zero().quarter_turned()), (0, -U));
    assert_eq!(da.get_point(1, Angle::zero()), (U, 0));
    assert_eq!(da.get_point(3, Angle::half_turn()), (-3 * U, 0));
}

#[test]
fn drift_is_removed_from_offsets() {
    // cosine and sine of atan(1/2), rounded; the knight's point (2, 1) lands on the axis.
    let a = Angle::new(894_427, 447_214).unwrap();
    let da = DistancesAngle::singleton(1, (2, 1));
    assert_eq!(da.get_point(1, a), (2_236_068, 0));
}

#[test]
fn angle_must_be_a_unit_vector() {
    assert!(Angle::new(UNIT, 0).is_some());
    assert!(Angle::new(707_107, 707_107).is_some());
    assert!(Angle::new(0, 0).is_none());
    assert!(Angle::new(UNIT, UNIT).is_none());
    assert!(Angle::new(UNIT + 1, 0).is_none());
    assert!(Angle::new(999_000, 0).is_none());
    assert_eq!(Angle::zero().quarter_turned(), Angle::new(0, UNIT).unwrap());
    assert_eq!(Angle::half_turn(), Angle::new(-UNIT, 0).unwrap());
}

#[test]
fn side_and_kind_tables() {
    assert_eq!(Side::Black.to_file_desc(), "B");
    assert_eq!(Side::White.to_file_desc(), "W");
    assert_eq!(Side::Black.toggled(), Side::White);
    assert_eq!(Side::White.toggled(), Side::Black);
    let kinds = [
        (PieceKind::Pawn, "pawn", 1, true, true, 360),
        (PieceKind::Rook, "rook", 5, false, false, 90),
        (PieceKind::Knight, "knight", 3, true, false, 90),
        (PieceKind::Bishop, "bishop", 3, false, false, 90),
        (PieceKind::Queen, "queen", 9, false, false, 45),
        (PieceKind::King, "king", 1000, true, false, 90),
    ];
    for (kind, name, value, jumps, promotes, symmetry) in kinds {
        assert_eq!(kind.to_file_desc(), name);
        assert_eq!(kind.value(), value * UNIT);
        assert_eq!(kind.can_jump(), jumps);
        assert_eq!(kind.can_promote(), promotes);
        assert_eq!(kind.rotational_symmetry(), symmetry);
    }
}

#[test]
fn unique_rotations_sample_every_45_degrees() {
    assert_eq!(PieceKind::unique_rotations_generic(0), Vec::<u16>::new());
    assert_eq!(PieceKind::unique_rotations_generic(45), vec![0]);
    assert_eq!(PieceKind::unique_rotations_generic(46), vec![0, 45]);
    assert_eq!(PieceKind::Queen.unique_rotations(), vec![0]);
    assert_eq!(PieceKind::Rook.unique_rotations(), vec![0, 45]);
    assert_eq!(PieceKind::Pawn.unique_rotations(), vec![0, 45, 90, 135, 180, 225, 270, 315]);
    assert_eq!(PieceKind::unique_rotations_generic(u16::MAX).len(), 1457);
}

#[test]
fn catalog_has_the_patterns_of_each_kind() {
    assert_eq!(PieceKind::Pawn.move_das().len(), 1);
    assert_eq!(collect(PieceKind::Pawn.move_das()[0]), vec![1, 2]);
    assert_eq!(PieceKind::Pawn.move_das()[0].angle, (1, 0));
    let pawn_caps: Vec<(i64, i64)> = PieceKind::Pawn.capture_das().iter().map(|d| d.angle).collect();
    assert_eq!(pawn_caps, vec![(1, 1), (1, -1)]);
    assert_eq!(PieceKind::Knight.move_das().len(), 8);
    assert_eq!(PieceKind::King.capture_das().len(), 8);
    assert_eq!(PieceKind::Rook.move_das().len(), 4);
    assert_eq!(PieceKind::Bishop.move_das().len(), 4);
    assert_eq!(PieceKind::Queen.move_das().len(), 8);
    for d in PieceKind::Knight.capture_das() {
        assert_eq!(d.angle.0 * d.angle.0 + d.angle.1 * d.angle.1, 5);
        assert_eq!(collect(d), vec![1]);
    }
    for d in PieceKind::Queen.capture_das() {
        assert_eq!(d.inclusive_upper_bound, None);
        assert_eq!((d.start, d.step), (1, 1));
    }
    let rook: Vec<(i64, i64)> = PieceKind::Rook.move_das().iter().map(|d| d.angle).collect();
    assert_eq!(rook, vec![(1, 0), (0, 1), (-1, 0), (0, -1)]);
    let bishop: Vec<(i64, i64)> = PieceKind::Bishop.move_das().iter().map(|d| d.angle).collect();
    assert_eq!(bishop, vec![(1, 1), (-1, 1), (-1, -1), (1, -1)]);
}

#[test]
fn from_tile_centers_the_piece() {
    let p = Piece::from_tile(3, (0, 0), Angle::zero(), Side::White, PieceKind::King);
    assert_eq!(p.id(), 3);
    assert_eq!(p.center(), (U / 2, U / 2));
    let q = Piece::from_tile(4, (7, 6), Angle::half_turn(), Side::Black, PieceKind::Pawn);
    assert_eq!((q.x(), q.y()), (7 * U + U / 2, 6 * U + U / 2));
    assert_eq!(q.angle(), Angle::half_turn());
    assert_eq!(q.side(), Side::Black);
    assert_eq!(q.kind(), PieceKind::Pawn);
    assert!(q.needs_init());
}

#[test]
fn setters_change_one_thing() {
    let mut p = Piece::new(0, (U, 2 * U), Angle::zero(), Side::White, PieceKind::Rook);
    p.set_x(3 * U);
    assert_eq!(p.center(), (3 * U, 2 * U));
    p.set_y(5 * U);
    assert_eq!(p.center(), (3 * U, 5 * U));
    p.set_center((U, U));
    assert_eq!(p.center(), (U, U));
    p.set_angle(Angle::half_turn());
    assert_eq!(p.angle(), Angle::half_turn());
    p.set_kind(PieceKind::Queen);
    assert_eq!(p.kind(), PieceKind::Queen);
    assert_eq!(p.side(), Side::White);
    assert_eq!(p.id(), 0);
}

#[test]
fn forward_distance_is_measured_from_the_own_edge() {
    let b = Piece::new(0, (U, 2 * U), Angle::half_turn(), Side::Black, PieceKind::Pawn);
    let w = Piece::new(1, (U, 2 * U), Angle::zero(), Side::White, PieceKind::Pawn);
    assert_eq!(b.forward_distance(), 2 * U);
    assert_eq!(w.forward_distance(), 6 * U);
}

#[test]
fn collision_holds_at_the_center_and_fails_at_the_threshold() {
    let p = Piece::new(0, (4 * U, 4 * U), Angle::zero(), Side::White, PieceKind::Rook);
    assert!(p.collidepoint(4 * U, 4 * U));
    assert!(p.collidepiece(4 * U, 4 * U));
    assert!(p.collidepoint(4 * U + PIECE_RADIUS - 1, 4 * U));
    assert!(!p.collidepoint(4 * U + PIECE_RADIUS, 4 * U));
    assert!(!p.collidepoint(4 * U, 4 * U - PIECE_RADIUS));
    assert!(p.collidepiece(4 * U + 2 * PIECE_RADIUS - 1, 4 * U));
    assert!(!p.collidepiece(4 * U + 2 * PIECE_RADIUS, 4 * U));
    assert!(!p.collidepiece(4 * U, 4 * U + 2 * PIECE_RADIUS));
    // 3-4-5 triangle scaled to the radius: exactly one radius away
    assert!(!p.collidepoint(4 * U + 204_000, 4 * U + 272_000));
    assert!(p.collidepoint(4 * U + 204_000, 4 * U + 271_999));
    assert!(Piece::collidepoint_generic(0, 0, 0, 0));
    assert!(!Piece::collidepoint_generic(i64::MIN, i64::MIN, i64::MAX, i64::MAX));
    assert!(!p.collidepiece(i64::MAX, i64::MIN));
}

#[test]
fn on_board_has_a_margin_of_one_radius() {
    assert!(Piece::on_board(0, 0));
    assert!(Piece::on_board(-PIECE_RADIUS, -PIECE_RADIUS));
    assert!(Piece::on_board(BOARD_SIZE + PIECE_RADIUS, BOARD_SIZE + PIECE_RADIUS));
    assert!(!Piece::on_board(-PIECE_RADIUS - 1, 0));
    assert!(!Piece::on_board(0, -PIECE_RADIUS - 1));
    assert!(!Piece::on_board(BOARD_SIZE + PIECE_RADIUS + 1, 0));
    assert!(!Piece::on_board(0, BOARD_SIZE + PIECE_RADIUS + 1));
}

#[test]
fn only_pawns_promote_and_only_on_the_far_rank() {
    assert!(Piece::should_promote(PieceKind::Pawn, Side::White, U + PIECE_RADIUS - 1));
    assert!(!Piece::should_promote(PieceKind::Pawn, Side::White, U + PIECE_RADIUS));
    assert!(Piece::should_promote(PieceKind::Pawn, Side::Black, 7 * U - PIECE_RADIUS + 1));
    assert!(!Piece::should_promote(PieceKind::Pawn, Side::Black, 7 * U - PIECE_RADIUS));
    assert!(!Piece::should_promote(PieceKind::Rook, Side::White, 0));
    assert!(!Piece::should_promote(PieceKind::King, Side::Black, 8 * U));
    assert!(Piece::should_promote(PieceKind::Pawn, Side::White, i64::MIN));
    assert!(Piece::should_promote(PieceKind::Pawn, Side::Black, i64::MAX));
}

#[test]
fn rook_travel_points_on_an_empty_board() {
    let mut rook = Piece::new(0, (4 * U, 4 * U), Angle::zero(), Side::White, PieceKind::Rook);
    rook.init_auxiliary_data();
    assert!(!rook.needs_init());
    let points = rook.travel_points_unchecked();
    for want in [(5 * U, 4 * U), (6 * U, 4 * U), (7 * U, 4 * U)] {
        assert!(points.contains(&(TravelKind::Move, want.0, want.1)));
        assert!(points.contains(&(TravelKind::Capture, want.0, want.1)));
    }
    // straight ahead first, until the edge
    let moves = rook.move_points_unchecked().clone();
    assert_eq!(&moves[..4], &[(4 * U, 3 * U), (4 * U, 2 * U), (4 * U, U), (4 * U, 0)]);
    assert_eq!(moves.len(), 16);
    assert_eq!(rook.capture_points_unchecked(), &moves);
    assert_eq!(points.len(), 32);
    assert_eq!(points[0], (TravelKind::Move, 4 * U, 3 * U));
    assert_eq!(points[16], (TravelKind::Capture, 4 * U, 3 * U));
}

#[test]
fn pawn_travel_points_follow_its_facing() {
    let mut white = Piece::from_tile(0, (3, 6), Angle::zero(), Side::White, PieceKind::Pawn);
    white.init_auxiliary_data();
    assert_eq!(white.move_points_unchecked(), &vec![(3_500_000, 5_500_000), (3_500_000, 4_500_000)]);
    assert_eq!(white.capture_points_unchecked(), &vec![(4_500_000, 5_500_000), (2_500_000, 5_500_000)]);
    let mut black = Piece::from_tile(1, (3, 1), Angle::half_turn(), Side::Black, PieceKind::Pawn);
    black.init_auxiliary_data();
    assert_eq!(black.move_points_unchecked(), &vec![(3_500_000, 2_500_000), (3_500_000, 3_500_000)]);
    assert_eq!(black.capture_points_unchecked(), &vec![(2_500_000, 2_500_000), (4_500_000, 2_500_000)]);
}

#[test]
fn a_ray_stops_at_the_first_point_off_the_board() {
    // a pawn one step from the edge loses its second step
    let mut pawn = Piece::new(0, (4 * U, U), Angle::zero(), Side::White, PieceKind::Pawn);
    pawn.init_auxiliary_data();
    assert_eq!(pawn.move_points_unchecked(), &vec![(4 * U, 0)]);
    // a piece off the board has no points on a ray that leads back onto it
    let mut rook = Piece::new(1, (4 * U, -2 * U), Angle::half_turn(), Side::White, PieceKind::Rook);
    rook.init_auxiliary_data();
    assert!(rook.move_points_unchecked().is_empty());
}

#[test]
fn the_cache_is_stale_until_refreshed() {
    let mut knight = Piece::from_tile(0, (1, 7), Angle::zero(), Side::White, PieceKind::Knight);
    knight.init_auxiliary_data();
    let before = knight.travel_points_unchecked();
    knight.set_center((4 * U, 4 * U));
    assert_eq!(knight.travel_points_unchecked(), before);
    knight.update_travel_points_unchecked();
    let after = knight.travel_points_unchecked();
    assert_ne!(after, before);
    assert_eq!(after.len(), 16);
    assert!(after.contains(&(TravelKind::Move, 5 * U, 2 * U)));
    assert!(after.contains(&(TravelKind::Capture, 2 * U, 3 * U)));
}

#[test]
fn a_turned_bishop_slides_along_the_axes() {
    let a = Angle::new(707_107, 707_107).unwrap();
    let mut bishop = Piece::new(0, (4 * U, 4 * U), a, Side::White, PieceKind::Bishop);
    bishop.init_auxiliary_data();
    let moves = bishop.move_points_unchecked();
    // one diagonal step is the square root of two long
    assert!(moves.contains(&(4 * U, 4 * U - 1_414_214)));
    assert!(moves.contains(&(4 * U + 1_414_214, 4 * U)));
    assert_eq!(moves.len(), 12);
}

#[test]
fn equality_is_on_what_defines_a_piece() {
    let a = Piece::new(0, (U, U), Angle::zero(), Side::White, PieceKind::Rook);
    let mut b = Piece::new(9, (U, U), Angle::zero(), Side::White, PieceKind::Rook);
    b.init_auxiliary_data();
    assert!(a == b);
    assert!(a.same_core(&b));
    let c = Piece::new(0, (U, U), Angle::zero(), Side::Black, PieceKind::Rook);
    assert!(a != c);
    let d = a.clone();
    assert!(d == a);
    assert_eq!(d.id(), 0);
    assert_eq!(b.clone().travel_points_unchecked(), b.travel_points_unchecked());
}
