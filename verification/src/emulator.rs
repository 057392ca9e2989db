//! An event-based interface for playing a game on a board.
//!
//! The emulator turns pointer and navigation events into selections, moves,
//! rotations and commits. Whoever draws the board reads the pieces and the
//! travel points of the selected piece from it.

use vstd::prelude::*;
use crate::board::{Pieces, board_slots, spec_get_id, spec_legal, spec_travel};
use crate::floating_drift::point_in_range;
use crate::piece::{
    Angle, CorePieceData, Piece, PieceId, PieceView, Side, TravelKind, spec_collidepoint, spec_on_board,
};
use crate::search::{DEPTH, spec_search_fits};
use crate::turn::{EngineError, Turns, TurnsView};

verus! {

/// Mouse buttons a chess board can respond to.
#[derive(Debug, Clone, Copy, PartialEq, Eq, Structural)]
pub enum MouseButton {
    LEFT,
    RIGHT,
}

/// User events a chess board can respond to.
#[derive(Debug, Clone, Copy)]
pub enum Event {
    ButtonDown { x: i64, y: i64, button: MouseButton },
    ButtonUp { x: i64, y: i64, button: MouseButton },
    /// The pointer moved to `(x, y)`. A piece that is being dragged by one of
    /// its travel points turns to face `angle`.
    MouseMotion { x: i64, y: i64, angle: Angle },
    FirstTurn,
    PrevTurn,
    NextTurn,
    LastTurn,
    /// We've been told to rotate the piece to face the angle.
    RotateUnchecked(PieceId, Angle),
    /// We've been told to move the piece to x, y.
    MoveUnchecked(PieceId, i64, i64),
}

/// What an event brought about.
#[derive(Debug, Clone, Copy)]
pub enum ThingHappened {
    FirstTurn,
    PrevTurn,
    NextTurn,
    LastTurn,
    /// We rotated the piece to face the angle
    Rotate(PieceId, Angle),
    /// We moved the piece to x, y
    Move(PieceId, i64, i64),
}

/// A point that the selected piece could travel to.
#[derive(Debug, Clone, Copy, PartialEq, Eq, Structural)]
pub struct TravelPoint {
    pub x: i64,
    pub y: i64,
    /// Whether the travel is legal on the board as it was when the point was
    /// logged.
    pub travelable: bool,
    pub kind: TravelKind,
}

/// What an emulator holds.
pub struct EmulatorView {
    /// The travel points of the selected piece, as last logged.
    pub travelpoints_buffer: Seq<TravelPoint>,
    /// The selected piece, if there is one.
    pub selected_piece: Option<PieceId>,
    /// The travel point that is held, and whether it has been dragged.
    pub selected_travelpoint: Option<(usize, bool)>,
    pub turns: TurnsView,
}

/// The travel points of the living piece in slot `id`, whose cache is
/// fresh, each with its legality on the board.
pub open spec fn spec_buffer(board: Seq<(bool, PieceView)>, id: int) -> Seq<TravelPoint> {
    let points = board[id].1.travel_points();
    Seq::new(
        points.len(),
        |k: int|
            TravelPoint {
                x: points[k].1,
                y: points[k].2,
                travelable: spec_legal(
                    board_slots(board),
                    board[id].1.core,
                    points[k].1 as int,
                    points[k].2 as int,
                    points[k].0,
                ),
                kind: points[k].0,
            },
    )
}

/// The board with the cache of the piece in slot `id` filled anew.
pub open spec fn spec_refreshed(board: Seq<(bool, PieceView)>, id: int) -> Seq<(bool, PieceView)> {
    board.update(id, (board[id].0, board[id].1.refreshed()))
}

/// The board with the piece in slot `id` facing `angle`.
pub open spec fn spec_turned(board: Seq<(bool, PieceView)>, id: int, angle: Angle) -> Seq<(bool, PieceView)> {
    board.update(
        id,
        (board[id].0, PieceView { core: CorePieceData { angle, ..board[id].1.core }, ..board[id].1 }),
    )
}

/// Whether a point of the buffer is under the pointer.
pub open spec fn spec_point_hit(buffer: Seq<TravelPoint>, k: int, x: int, y: int) -> bool {
    spec_collidepoint(x, y, buffer[k].x as int, buffer[k].y as int)
}

/// The travel point that a press at `(x, y)` takes hold of, among the first
/// `n` of the buffer: the first one under the pointer that is travelable, or
/// else the last one under the pointer.
pub open spec fn spec_picked_point(buffer: Seq<TravelPoint>, x: int, y: int, n: int) -> Option<usize>
    decreases n,
{
    if n <= 0 {
        None
    } else {
        let prev = spec_picked_point(buffer, x, y, n - 1);
        if prev.is_some() && buffer[prev.unwrap() as int].travelable {
            prev
        } else if spec_point_hit(buffer, n - 1, x, y) {
            Some((n - 1) as usize)
        } else {
            prev
        }
    }
}

/// The hold on a travel point that was picked and has not been dragged.
pub open spec fn spec_held(picked: Option<usize>) -> Option<(usize, bool)> {
    match picked {
        Some(k) => Some((k, false)),
        None => None,
    }
}

impl EmulatorView {
    /// Whether the emulator is valid: the history is valid, a selected piece
    /// lives on the working board, a held travel point belongs to a selected
    /// piece and, until it is dragged, to the buffer, and every logged point
    /// is on the board.
    pub open spec fn wf(self) -> bool {
        &&& self.turns.wf()
        &&& self.selected_piece matches Some(i) ==> i < self.turns.working_board.len()
            && self.turns.working_board[i as int].0
        &&& self.selected_travelpoint matches Some((k, dragged)) ==> self.selected_piece.is_some() && (!dragged
            ==> k < self.travelpoints_buffer.len())
        &&& forall|k: int|
            0 <= k < self.travelpoints_buffer.len() ==> spec_on_board(
                (#[trigger] self.travelpoints_buffer[k]).x as int,
                self.travelpoints_buffer[k].y as int,
            )
    }

    /// Whether nothing is selected.
    pub open spec fn idle(self) -> bool {
        self.selected_piece.is_none() && self.selected_travelpoint.is_none()
    }

    /// The emulator with the travel points of the selected piece logged
    /// anew: the cache of the piece is refreshed, and the buffer holds its
    /// points with their legality.
    pub open spec fn logged(self) -> EmulatorView {
        let id = self.selected_piece.unwrap() as int;
        let board = spec_refreshed(self.turns.working_board, id);
        EmulatorView {
            travelpoints_buffer: spec_buffer(board, id),
            turns: TurnsView { working_board: board, ..self.turns },
            ..self
        }
    }

    /// The emulator after a press has chosen among the pieces: a press on
    /// the selected piece or on no piece deselects, a press on another piece
    /// selects it and logs its travel points.
    pub open spec fn chosen(self, hit: Option<PieceId>) -> EmulatorView {
        match hit {
            Some(new_i) => if self.selected_piece == Some(new_i) {
                EmulatorView { selected_piece: None, ..self }
            } else {
                (EmulatorView { selected_piece: Some(new_i), ..self }).logged()
            },
            None => EmulatorView { selected_piece: None, ..self },
        }
    }

    /// The emulator with nothing selected and the given history.
    pub open spec fn navigated(self, turns: TurnsView) -> EmulatorView {
        EmulatorView { selected_piece: None, selected_travelpoint: None, turns, ..self }
    }

    /// The emulator after the working board has been saved and the side
    /// other than that of the piece in slot `id` is to move.
    pub open spec fn committed_for(self, id: PieceId) -> EmulatorView {
        EmulatorView {
            turns: TurnsView {
                to_move: self.turns.working_board[id as int].1.core.side.spec_toggled(),
                ..self.turns.saved()
            },
            ..self
        }
    }

    /// The emulator after the piece in slot `id` has travelled to `(x, y)`
    /// by hand: its travel points are logged, nothing is selected, the board
    /// is saved, and the other side is to move.
    pub open spec fn travelled(self, id: PieceId, x: i64, y: i64) -> EmulatorView {
        let moved = EmulatorView {
            selected_piece: Some(id),
            turns: TurnsView { working_board: spec_travel(self.turns.working_board, id as int, x, y), ..self.turns },
            ..self
        };
        (EmulatorView { selected_piece: None, selected_travelpoint: None, ..moved.logged() }).committed_for(id)
    }

    /// Whether the event may be handled: an event that moves or turns a
    /// piece names a living piece, a place within the coordinate limit and a
    /// facing that is a unit vector; the unchecked events come while nothing
    /// is selected; and a button goes down while no travel point is held.
    pub open spec fn accepts(self, e: Event) -> bool {
        match e {
            Event::ButtonDown { .. } => self.selected_travelpoint.is_none(),
            Event::MouseMotion { angle, .. } => angle.wf(),
            Event::RotateUnchecked(id, angle) => self.idle() && angle.wf() && id < self.turns.working_board.len()
                && self.turns.working_board[id as int].0,
            Event::MoveUnchecked(id, x, y) => self.idle() && point_in_range((x, y)) && id
                < self.turns.working_board.len() && self.turns.working_board[id as int].0,
            _ => true,
        }
    }

    /// The emulator after the event, and what happened.
    pub open spec fn handled(self, e: Event) -> (EmulatorView, Option<ThingHappened>) {
        match e {
            Event::MouseMotion { x, y, angle } => match self.selected_travelpoint {
                Some((k, _)) => {
                    let id = self.selected_piece.unwrap();
                    let turned = EmulatorView {
                        turns: TurnsView {
                            working_board: spec_turned(self.turns.working_board, id as int, angle),
                            ..self.turns
                        },
                        ..self
                    };
                    (EmulatorView { selected_travelpoint: Some((k, true)), ..turned.logged() }, None)
                },
                None => (self, None),
            },
            Event::ButtonDown { x, y, button: MouseButton::RIGHT } => (
                self.chosen(
                    spec_get_id(self.turns.working_board, x as int, y as int, self.turns.working_board.len() as int),
                ),
                None,
            ),
            Event::ButtonDown { x, y, button: MouseButton::LEFT } => {
                let picked = if self.selected_piece.is_some() {
                    spec_picked_point(
                        self.travelpoints_buffer,
                        x as int,
                        y as int,
                        self.travelpoints_buffer.len() as int,
                    )
                } else {
                    None
                };
                match picked {
                    Some(k) => (EmulatorView { selected_travelpoint: spec_held(picked), ..self }, None),
                    None => (
                        self.chosen(
                            spec_get_id(
                                self.turns.working_board,
                                x as int,
                                y as int,
                                self.turns.working_board.len() as int,
                            ),
                        ),
                        None,
                    ),
                }
            },
            Event::ButtonUp { x, y, button: MouseButton::LEFT } => match self.selected_travelpoint {
                Some((k, false)) => {
                    let tp = self.travelpoints_buffer[k as int];
                    let id = self.selected_piece.unwrap();
                    if tp.travelable {
                        (self.travelled(id, tp.x, tp.y), Some(ThingHappened::Move(id, tp.x, tp.y)))
                    } else {
                        (EmulatorView { selected_travelpoint: None, ..self }, None)
                    }
                },
                Some((_, true)) => {
                    let id = self.selected_piece.unwrap();
                    (
                        (EmulatorView { selected_travelpoint: None, ..self }).committed_for(id),
                        Some(ThingHappened::Rotate(id, self.turns.working_board[id as int].1.core.angle)),
                    )
                },
                None => (self, None),
            },
            Event::ButtonUp { x, y, button: MouseButton::RIGHT } => (self, None),
            Event::FirstTurn => (self.navigated(self.turns.loaded(0)), Some(ThingHappened::FirstTurn)),
            Event::PrevTurn => (self.navigated(self.turns.stepped_back()), Some(ThingHappened::PrevTurn)),
            Event::NextTurn => (self.navigated(self.turns.stepped_forward()), Some(ThingHappened::NextTurn)),
            Event::LastTurn => (
                self.navigated(self.turns.loaded(self.turns.turns.len() - 1)),
                Some(ThingHappened::LastTurn),
            ),
            Event::RotateUnchecked(id, angle) => (
                (EmulatorView {
                    turns: TurnsView {
                        working_board: spec_turned(self.turns.working_board, id as int, angle),
                        ..self.turns
                    },
                    ..self
                }).committed_for(id),
                None,
            ),
            Event::MoveUnchecked(id, x, y) => (self.travelled(id, x, y), None),
        }
    }
}

/// The main entrypoint for any user of the board.
///
/// - a press on a piece selects it, and its travel points are logged
/// - a press on the selected piece, or on nothing, deselects
/// - a press on a travel point takes hold of it: dragging it turns the
///   piece, releasing it without a drag makes the piece travel there, if it
///   may
pub struct RotchessEmulator {
    /// The travel points of the selected piece. They are logged anew every
    /// time the piece changes while it is selected.
    travelpoints_buffer: Vec<TravelPoint>,
    /// Whether a piece is selected.
    selected_piece: Option<PieceId>,
    /// (idx of travelpoint within buffer, whether we have dragged yet)
    ///
    /// Set when a press takes hold of a travel point, updated when it is
    /// dragged around.
    selected_travelpoint: Option<(usize, bool)>,
    turns: Turns,
}

impl View for RotchessEmulator {
    type V = EmulatorView;

    closed spec fn view(&self) -> EmulatorView {
        EmulatorView {
            travelpoints_buffer: self.travelpoints_buffer@,
            selected_piece: self.selected_piece,
            selected_travelpoint: self.selected_travelpoint,
            turns: self.turns@,
        }
    }
}

/// Misc.
impl RotchessEmulator {
    /// Create an emulator with pieces.
    pub fn with(pieces: Pieces) -> (res: Self)
        requires
            pieces.wf(),
        ensures
            res@ == (EmulatorView {
                travelpoints_buffer: Seq::empty(),
                selected_piece: None,
                selected_travelpoint: None,
                turns: TurnsView {
                    working_board: pieces@,
                    curr_turn: 0,
                    turns: seq![pieces@],
                    to_move: Side::White,
                },
            }),
            res@.wf(),
    {
        Self {
            travelpoints_buffer: Vec::new(),
            selected_piece: None,
            selected_travelpoint: None,
            turns: Turns::with(pieces),
        }
    }

    /// The history of the game.
    pub fn turns(&self) -> (res: &Turns)
        ensures
            res@ == self@.turns,
    {
        &self.turns
    }

    /// The travel point that is held, and whether it has been dragged.
    pub fn selected_travelpoint(&self) -> (res: Option<(usize, bool)>)
        ensures
            res == self@.selected_travelpoint,
    {
        self.selected_travelpoint
    }
}

/// Helpful functions for the update portion of a game loop.
impl RotchessEmulator {
    /// Log the current selected piece's travelpoints in the internal buffer.
    ///
    /// A piece must be selected. Its cache is filled if it was empty, and
    /// refreshed in any case.
    pub fn update_travelpoints_unchecked(&mut self)
        requires
            old(self)@.turns.wf(),
            old(self)@.selected_piece matches Some(i) && i < old(self)@.turns.working_board.len() && old(
                self,
            )@.turns.working_board[i as int].0,
        ensures
            final(self)@ == old(self)@.logged(),
            final(self)@.turns.wf(),
            forall|k: int|
                0 <= k < final(self)@.travelpoints_buffer.len() ==> spec_on_board(
                    (#[trigger] final(self)@.travelpoints_buffer[k]).x as int,
                    final(self)@.travelpoints_buffer[k].y as int,
                ),
    {
        let id = self.selected_piece.unwrap();
        self.turns.working_board_mut().refresh_piece(id);
        let board = self.turns.working_board_ref();
        let piece = board.get(id).unwrap();
        let points = piece.travel_points_unchecked();
        let mut buffer: Vec<TravelPoint> = Vec::new();
        let ghost want = spec_buffer(board@, id as int);
        let mut k: usize = 0;
        while k < points.len()
            invariant
                k <= points.len(),
                buffer.len() == k,
                board.wf(),
                id < board@.len(),
                piece@ == board@[id as int].1,
                piece@.wf(),
                piece@.fresh(),
                points@ == piece@.travel_points(),
                want == spec_buffer(board@, id as int),
                forall|j: int| 0 <= j < k ==> #[trigger] buffer[j] == want[j],
                forall|j: int| 0 <= j < k ==> spec_on_board((#[trigger] buffer[j]).x as int, buffer[j].y as int),
            decreases points.len() - k,
        {
            let (kind, x, y) = points[k];
            proof {
                let t = piece@.cache.unwrap();
                if k < t.move_points.len() {
                    assert(spec_on_board(t.move_points[k as int].0 as int, t.move_points[k as int].1 as int));
                } else {
                    let c = k - t.move_points.len();
                    assert(spec_on_board(t.capture_points[c].0 as int, t.capture_points[c].1 as int));
                }
            }
            buffer.push(TravelPoint { x, y, travelable: board.is_travelable(piece, x, y, kind), kind });
            k += 1;
        }
        assert(buffer@ =~= want);
        self.travelpoints_buffer = buffer;
    }

    /// Lets the engine move for the side to move.
    pub fn make_best_move(&mut self)
        requires
            old(self)@.turns.wf(),
            old(self)@.turns.synced(),
            old(self)@.turns.all_moves().len() > 0,
            spec_search_fits(old(self)@.turns.slots(), old(self)@.turns.to_move, (DEPTH + 1) as nat),
        ensures
            final(self)@ == (EmulatorView { turns: old(self)@.turns.best_move_made(), ..old(self)@ }),
            final(self)@.turns.wf(),
    {
        self.turns.make_best_move();
    }

    /// Lets the engine move for the side to move, if it can.
    pub fn try_make_best_move(&mut self) -> (res: Result<(), EngineError>)
        requires
            old(self)@.turns.wf(),
        ensures
            final(self)@.turns.wf(),
            final(self)@.travelpoints_buffer == old(self)@.travelpoints_buffer,
            final(self)@.selected_piece == old(self)@.selected_piece,
            final(self)@.selected_travelpoint == old(self)@.selected_travelpoint,
            res == old(self)@.turns.engine_verdict(),
            res is Ok ==> final(self)@.turns == old(self)@.turns.best_move_made(),
            res == Err::<(), EngineError>(EngineError::NotSynced) ==> final(self)@.turns == old(self)@.turns,
            res is Err ==> old(self)@.turns.same_position(final(self)@.turns),
    {
        self.turns.try_make_best_move()
    }

    /// Selects what a press at `(x, y)` chooses among the pieces.
    fn choose_piece(&mut self, x: i64, y: i64)
        requires
            old(self)@.wf(),
            old(self)@.selected_travelpoint.is_none(),
        ensures
            final(self)@ == old(self)@.chosen(
                spec_get_id(
                    old(self)@.turns.working_board,
                    x as int,
                    y as int,
                    old(self)@.turns.working_board.len() as int,
                ),
            ),
            final(self)@.wf(),
    {
        let idx_of_piece_at_xy = self.turns.working_board_ref().get_id(x, y);
        match (idx_of_piece_at_xy, self.selected_piece) {
            (Some(new_i), Some(curr_sel_i)) => {
                // we clicked on a piece, and a piece is already selected.
                if new_i == curr_sel_i {
                    // we clicked on the already-selected piece, deselect it.
                    self.selected_piece = None;
                } else {
                    // we clicked on a different piece, select that instead.
                    self.selected_piece = Some(new_i);
                    self.update_travelpoints_unchecked();
                }
            },
            (Some(new_i), None) => {
                // we clicked on a piece, and None pieces were selected.
                self.selected_piece = Some(new_i);
                self.update_travelpoints_unchecked();
            },
            (None, _) => {
                self.selected_piece = None;
            },
        }
    }

    /// Makes the piece in slot `id` travel to `(x, y)` by hand and commits
    /// the turn.
    fn travel_and_commit(&mut self, id: PieceId, x: i64, y: i64)
        requires
            old(self)@.turns.wf(),
            id < old(self)@.turns.working_board.len(),
            old(self)@.turns.working_board[id as int].0,
            point_in_range((x, y)),
            forall|k: int|
                0 <= k < old(self)@.travelpoints_buffer.len() ==> spec_on_board(
                    (#[trigger] old(self)@.travelpoints_buffer[k]).x as int,
                    old(self)@.travelpoints_buffer[k].y as int,
                ),
        ensures
            final(self)@ == old(self)@.travelled(id, x, y),
            final(self)@.wf(),
    {
        self.turns.working_board_mut().travel(id, x, y);
        self.selected_piece = Some(id);
        self.update_travelpoints_unchecked();
        self.selected_piece = None;
        self.selected_travelpoint = None;
        self.commit_for(id);
    }

    /// Saves the turn and gives the move to the side other than that of the
    /// piece in slot `id`.
    fn commit_for(&mut self, id: PieceId)
        requires
            old(self)@.turns.wf(),
            id < old(self)@.turns.working_board.len(),
        ensures
            final(self)@ == old(self)@.committed_for(id),
            final(self)@.turns.wf(),
    {
        self.turns.save_turn();
        let side = self.turns.working_board_ref().slot(id).1.side();
        self.turns.set_to_move(side.toggled());
    }

    /// Turns the living piece in slot `id` to face `angle`.
    fn turn_piece(&mut self, id: PieceId, angle: Angle)
        requires
            old(self)@.turns.wf(),
            id < old(self)@.turns.working_board.len(),
            old(self)@.turns.working_board[id as int].0,
            angle.wf(),
        ensures
            final(self)@ == (EmulatorView {
                turns: TurnsView {
                    working_board: spec_turned(old(self)@.turns.working_board, id as int, angle),
                    ..old(self)@.turns
                },
                ..old(self)@
            }),
            final(self)@.turns.wf(),
    {
        let ghost before = self@.turns.working_board;
        let board = self.turns.working_board_mut();
        match board.get_mut(id) {
            Some(piece) => {
                piece.set_angle(angle);
            },
            None => {},
        }
        proof {
            let after = self@.turns.working_board;
            assert(after =~= spec_turned(before, id as int, angle));
            assert forall|k: int| 0 <= k < after.len() implies (#[trigger] after[k]).1.id == k && after[k].1.wf() by {
                assert(before[k].1.wf());
            }
        }
    }

    /// The travel point that a press at `(x, y)` takes hold of: the first
    /// one under the pointer that is travelable, or else the last one under
    /// the pointer.
    fn pick_point(&self, x: i64, y: i64) -> (res: Option<usize>)
        ensures
            res == spec_picked_point(
                self@.travelpoints_buffer,
                x as int,
                y as int,
                self@.travelpoints_buffer.len() as int,
            ),
            res matches Some(k) ==> k < self@.travelpoints_buffer.len(),
    {
        let n = self.travelpoints_buffer.len();
        let ghost buffer = self.travelpoints_buffer@;
        let mut picked: Option<usize> = None;
        let mut tvp_idx: usize = 0;
        while tvp_idx < n
            invariant
                tvp_idx <= n,
                n == buffer.len(),
                buffer == self.travelpoints_buffer@,
                picked == spec_picked_point(buffer, x as int, y as int, tvp_idx as int),
                picked matches Some(k) ==> k < tvp_idx && !buffer[k as int].travelable,
            decreases n - tvp_idx,
        {
            let tp = self.travelpoints_buffer[tvp_idx];
            if Piece::collidepoint_generic(x, y, tp.x, tp.y) {
                picked = Some(tvp_idx);
                if tp.travelable {
                    proof {
                        lemma_picked_stays(buffer, x as int, y as int, tvp_idx + 1, n as int);
                    }
                    return picked;
                }
            }
            tvp_idx += 1;
        }
        picked
    }

    /// Handle an event.
    ///
    /// Priority order (high to low) for clicks:
    ///
    /// 1. rotation dragging
    /// 1. captures
    /// 1. piece selection
    /// 1. moves
    pub fn handle_event(&mut self, e: Event) -> (res: Option<ThingHappened>)
        requires
            old(self)@.wf(),
            old(self)@.accepts(e),
        ensures
            final(self)@ == old(self)@.handled(e).0,
            res == old(self)@.handled(e).1,
            final(self)@.wf(),
    {
        match e {
            Event::MouseMotion { x, y, angle } => {
                if let Some((tvp_idx, _)) = self.selected_travelpoint {
                    let piece_id = self.selected_piece.unwrap();
                    self.turn_piece(piece_id, angle);
                    self.update_travelpoints_unchecked();
                    self.selected_travelpoint = Some((tvp_idx, true));
                }
                None
            },
            Event::ButtonDown { x, y, button: MouseButton::RIGHT } => {
                self.choose_piece(x, y);
                None
            },
            Event::ButtonDown { x, y, button: MouseButton::LEFT } => {
                // handle clicking a travelpoint: if we click one, we hold it.
                if self.selected_piece.is_some() {
                    let picked = self.pick_point(x, y);
                    if let Some(tvp_idx) = picked {
                        self.selected_travelpoint = Some((tvp_idx, false));
                        return None;
                    }
                }
                // handle piece selection
                self.choose_piece(x, y);
                None
            },
            Event::ButtonUp { x, y, button: MouseButton::LEFT } => {
                match self.selected_travelpoint {
                    Some((trav_idx, false)) => {
                        // we hold a travelpoint that hasn't been dragged: try to travel.
                        let tp = self.travelpoints_buffer[trav_idx];
                        if tp.travelable {
                            let piece_id = self.selected_piece.unwrap();
                            self.travel_and_commit(piece_id, tp.x, tp.y);
                            return Some(ThingHappened::Move(piece_id, tp.x, tp.y));
                        }
                        self.selected_travelpoint = None;
                        None
                    },
                    Some((_, true)) => {
                        self.selected_travelpoint = None;
                        let piece_id = self.selected_piece.unwrap();
                        let r = self.turns.working_board_ref().slot(piece_id).1.angle();
                        self.commit_for(piece_id);
                        Some(ThingHappened::Rotate(piece_id, r))
                    },
                    None => None,
                }
            },
            Event::ButtonUp { x, y, button: MouseButton::RIGHT } => None,
            Event::FirstTurn => {
                self.turns.first();
                self.selected_piece = None;
                self.selected_travelpoint = None;
                Some(ThingHappened::FirstTurn)
            },
            Event::PrevTurn => {
                let _ = self.turns.prev();
                self.selected_piece = None;
                self.selected_travelpoint = None;
                Some(ThingHappened::PrevTurn)
            },
            Event::NextTurn => {
                let _ = self.turns.next();
                self.selected_piece = None;
                self.selected_travelpoint = None;
                Some(ThingHappened::NextTurn)
            },
            Event::LastTurn => {
                self.turns.last();
                self.selected_piece = None;
                self.selected_travelpoint = None;
                Some(ThingHappened::LastTurn)
            },
            Event::RotateUnchecked(piece_id, r) => {
                self.turn_piece(piece_id, r);
                self.commit_for(piece_id);
                None
            },
            Event::MoveUnchecked(piece_id, x, y) => {
                self.travel_and_commit(piece_id, x, y);
                None
            },
        }
    }
}

/// Once a travelable point is picked among the first `n` of the buffer,
/// looking at more points picks the same one.
pub proof fn lemma_picked_stays(buffer: Seq<TravelPoint>, x: int, y: int, n: int, m: int)
    requires
        0 <= n <= m,
        spec_picked_point(buffer, x, y, n) matches Some(k) && buffer[k as int].travelable,
    ensures
        spec_picked_point(buffer, x, y, m) == spec_picked_point(buffer, x, y, n),
    decreases m - n,
{
    if n < m {
        lemma_picked_stays(buffer, x, y, n, m - 1);
    }
}

/// Helpful functions for the draw portion of a game loop.
impl RotchessEmulator {
    /// The pieces of the board, living and dead.
    pub fn pieces(&self) -> (res: &Pieces)
        ensures
            res@ == self@.turns.working_board,
    {
        self.turns.working_board_ref()
    }

    /// Whether there is a selected piece.
    ///
    /// If Some, it contains the piece and its possible travelpoints.
    pub fn selected(&self) -> (res: Option<(&Piece, &Vec<TravelPoint>)>)
        requires
            self@.wf(),
        ensures
            res is Some == self@.selected_piece is Some,
            res matches Some(s) ==> s.0@ == self@.turns.working_board[self@.selected_piece.unwrap() as int].1
                && s.1@ == self@.travelpoints_buffer,
    {
        match self.selected_piece {
            Some(sel_i) => Some((self.turns.working_board_ref().slot(sel_i).1, &self.travelpoints_buffer)),
            None => None,
        }
    }
}

} // verus!
