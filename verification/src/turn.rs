//! Moves, the turn history, and the engine that picks moves.

use vstd::prelude::*;
use vstd::array::array_as_slice;
use vstd::slice::slice_subrange;
use crate::board::{
    Pieces, Slot, board_slots, board_wf, board_with_slots, spec_can_make, spec_init_all, spec_make_move,
    lemma_board_with_slots, lemma_overlapping_hits,
};
use crate::floating_drift::point_in_range;
use crate::piece::{Angle, Piece, PieceId, PieceView, Side, spec_on_board};
use crate::search::{
    CENTER_X, CENTER_Y, DEPTH, INFINITY, NEG_INFINITY, PIECE_SCORE_LIMIT, isqrt, slots_wf, spec_all_moves,
    spec_best_index, spec_engine_move, spec_eval, spec_fresh_points, spec_move_ok, spec_moves_fit, spec_negamax,
    spec_piece_score, spec_point_fits, spec_point_moves, spec_root_score, spec_search,
    spec_bounds_value, spec_minimax, spec_search_fits, lemma_alpha_beta_sound, lemma_eval_bound,
    lemma_piece_score_bound,
};

verus! {

/// The maximum captures that might happen at once.
pub const MAX_CAPTURES: usize = 4;

/// Score for how good a position is, in fixed-point steps: more is better
/// for the side to move.
pub type Score = i64;

/// What a travel phase holds, with the captured pieces as a sequence.
pub struct TravelPhaseView {
    pub piece: PieceId,
    pub src: (i64, i64),
    pub dest: (i64, i64),
    pub captures: Seq<PieceId>,
}

/// The travel phase of a move.
pub struct TravelPhase {
    /// The piece that travels
    piece: PieceId,
    /// Travels from here
    src: (i64, i64),
    /// Travels to here
    dest: (i64, i64),
    /// (n, arr) s.t. arr[0..n] are the pieces captured.
    captures: (usize, [PieceId; 4]),
}

impl View for TravelPhase {
    type V = TravelPhaseView;

    closed spec fn view(&self) -> TravelPhaseView {
        TravelPhaseView {
            piece: self.piece,
            src: self.src,
            dest: self.dest,
            captures: self.captures.1@.take(self.captures.0 as int),
        }
    }
}

impl TravelPhase {
    /// No more pieces are captured than the table holds.
    #[verifier::type_invariant]
    spec fn inv(self) -> bool {
        self.captures.0 <= MAX_CAPTURES
    }

    /// Create a new travel phase.
    ///
    /// `piece`, `src`, and `dest` are the piece and its source and
    /// destination centers. `captures` is a `(n, arr)` such that `arr[0..n]`
    /// are the pieces captured with this travel.
    pub fn new(piece: PieceId, src: (i64, i64), dest: (i64, i64), captures: (usize, [PieceId; 4])) -> (res: Self)
        requires
            captures.0 <= MAX_CAPTURES,
        ensures
            res@ == (TravelPhaseView { piece, src, dest, captures: captures.1@.take(captures.0 as int) }),
    {
        Self { piece, src, dest, captures }
    }

    pub fn piece(&self) -> (res: PieceId)
        ensures
            res == self@.piece,
    {
        self.piece
    }

    pub fn src(&self) -> (res: (i64, i64))
        ensures
            res == self@.src,
    {
        self.src
    }

    pub fn dest(&self) -> (res: (i64, i64))
        ensures
            res == self@.dest,
    {
        self.dest
    }

    pub fn captures(&self) -> (res: &[PieceId])
        ensures
            res@ == self@.captures,
            res@.len() <= MAX_CAPTURES,
    {
        proof {
            use_type_invariant(self);
        }
        let res = slice_subrange(array_as_slice(&self.captures.1), 0, self.captures.0);
        assert(res@ =~= self@.captures);
        res
    }
}

impl Clone for TravelPhase {
    fn clone(&self) -> (res: Self)
        ensures
            res@ == self@,
    {
        proof {
            use_type_invariant(self);
        }
        Self { piece: self.piece, src: self.src, dest: self.dest, captures: (self.captures.0, self.captures.1) }
    }
}

/// The rotation phase of a move.
#[derive(Debug, Clone, Copy)]
pub struct RotationPhase {
    /// The piece that rotates.
    pub piece: PieceId,
    /// Rotates from this facing.
    pub src: Angle,
    /// Rotates to this facing.
    pub dest: Angle,
}

/// What a move holds.
pub struct MoveView {
    pub travel: TravelPhaseView,
    pub rotate: RotationPhase,
}

/// A move: one ply, made of a travel and a rotation.
///
/// It holds what is needed to make the move and to take it back.
pub struct Move {
    pub travel: TravelPhase,
    pub rotate: RotationPhase,
}

impl View for Move {
    type V = MoveView;

    open spec fn view(&self) -> MoveView {
        MoveView { travel: self.travel@, rotate: self.rotate }
    }
}

impl Clone for Move {
    fn clone(&self) -> (res: Self)
        ensures
            res@ == self@,
    {
        Move { travel: self.travel.clone(), rotate: self.rotate }
    }
}


/// What a turn history holds.
pub struct TurnsView {
    /// The board that callers edit.
    pub working_board: Seq<(bool, PieceView)>,
    /// The place of the cursor among the snapshots.
    pub curr_turn: usize,
    /// The snapshots, oldest first.
    pub turns: Seq<Seq<(bool, PieceView)>>,
    /// Whose turn it is.
    pub to_move: Side,
}

impl TurnsView {
    /// Whether the history is valid: the cursor points at a snapshot, and
    /// every board is valid.
    pub open spec fn wf(self) -> bool {
        &&& self.curr_turn < self.turns.len() <= usize::MAX
        &&& board_wf(self.working_board)
        &&& forall|i: int| 0 <= i < self.turns.len() ==> board_wf(#[trigger] self.turns[i])
    }

    /// Whether the working board has the liveness and defining data of the
    /// snapshot at the cursor.
    pub open spec fn synced(self) -> bool {
        board_slots(self.working_board) == board_slots(self.turns[self.curr_turn as int])
    }

    /// The history after the working board is saved: the snapshots behind
    /// the cursor are dropped, the working board is appended, and the cursor
    /// points at it.
    pub open spec fn saved(self) -> TurnsView {
        TurnsView {
            turns: self.turns.take(self.curr_turn + 1).push(self.working_board),
            curr_turn: (self.curr_turn + 1) as usize,
            ..self
        }
    }

    /// The history with the cursor at `turn` and the working board a copy of
    /// that snapshot.
    pub open spec fn loaded(self, turn: int) -> TurnsView {
        TurnsView { working_board: self.turns[turn], curr_turn: turn as usize, ..self }
    }

    /// The history after a step back: the snapshot before the cursor is
    /// loaded, or nothing changes at the first one.
    pub open spec fn stepped_back(self) -> TurnsView {
        if self.curr_turn > 0 {
            self.loaded(self.curr_turn - 1)
        } else {
            self
        }
    }

    /// The history after a step forward: the snapshot after the cursor is
    /// loaded, or nothing changes at the last one.
    pub open spec fn stepped_forward(self) -> TurnsView {
        if self.curr_turn + 1 < self.turns.len() {
            self.loaded(self.curr_turn + 1)
        } else {
            self
        }
    }
}

/// A branchable history of boards.
///
/// The working board mirrors the snapshot at the cursor until it is saved.
/// A snapshot that is stored is never changed, but for its caches.
pub struct Turns {
    working_board: Pieces,
    curr_turn: usize,
    turns: Vec<Pieces>,
    /// Whose turn it is.
    ///
    /// Saving a turn does not change it: callers that play by hand set it.
    to_move: Side,
}

impl View for Turns {
    type V = TurnsView;

    closed spec fn view(&self) -> TurnsView {
        TurnsView {
            working_board: self.working_board@,
            curr_turn: self.curr_turn,
            turns: self.turns@.map_values(|b: Pieces| b@),
            to_move: self.to_move,
        }
    }
}

/// Generic turn methods.
impl Turns {
    pub fn with(pieces: Pieces) -> (res: Self)
        requires
            pieces.wf(),
        ensures
            res@ == (TurnsView {
                working_board: pieces@,
                curr_turn: 0,
                turns: seq![pieces@],
                to_move: Side::White,
            }),
            res@.wf(),
    {
        let working_board = pieces.clone();
        let mut turns: Vec<Pieces> = Vec::new();
        turns.push(pieces);
        let res = Self { working_board, curr_turn: 0, turns, to_move: Side::White };
        assert(res@.turns =~= seq![pieces@]);
        res
    }

    pub fn set_to_move(&mut self, side: Side)
        ensures
            final(self)@ == (TurnsView { to_move: side, ..old(self)@ }),
    {
        self.to_move = side;
    }

    /// Whose turn it is.
    pub fn to_move(&self) -> (res: Side)
        ensures
            res == self@.to_move,
    {
        self.to_move
    }

    pub fn curr_turn(&self) -> (res: usize)
        ensures
            res == self@.curr_turn,
    {
        self.curr_turn
    }

    /// The number of snapshots.
    pub fn num_turns(&self) -> (res: usize)
        ensures
            res == self@.turns.len(),
    {
        self.turns.len()
    }

    pub fn working_board_ref(&self) -> (res: &Pieces)
        ensures
            res@ == self@.working_board,
    {
        &self.working_board
    }

    pub fn working_board_mut(&mut self) -> (res: &mut Pieces)
        ensures
            res@ == old(self)@.working_board,
            final(self)@ == (TurnsView { working_board: final(res)@, ..old(self)@ }),
    {
        &mut self.working_board
    }

    /// Saves the working board as a turn.
    ///
    /// Follows the saving procedure used throughout applications: the turns
    /// after the current one are dropped, a copy of the working board is
    /// pushed, and the current turn becomes that copy.
    pub fn save_turn(&mut self)
        requires
            old(self)@.wf(),
        ensures
            final(self)@ == old(self)@.saved(),
            final(self)@.wf(),
    {
        assert(self@.curr_turn < self@.turns.len());
        assert(self@.turns.len() == self.turns@.len());
        assert(self.curr_turn < self.turns.len());
        if self.curr_turn + 1 < self.turns.len() {
            self.turns.truncate(self.curr_turn + 1);
        }
        self.turns.push(self.working_board.clone());
        self.curr_turn += 1;
        assert(self@.turns =~= old(self)@.turns.take(old(self)@.curr_turn + 1).push(old(self)@.working_board));
        let len = self.turns.len();
        assert(self@.turns.len() == len);
    }

    pub fn first(&mut self)
        requires
            old(self)@.wf(),
        ensures
            final(self)@ == old(self)@.loaded(0),
            final(self)@.wf(),
    {
        self.load_turn(0);
    }

    pub fn last(&mut self)
        requires
            old(self)@.wf(),
        ensures
            final(self)@ == old(self)@.loaded(old(self)@.turns.len() - 1),
            final(self)@.wf(),
    {
        self.load_turn(self.turns.len() - 1);
    }

    pub fn prev(&mut self) -> (res: Result<(), ()>)
        requires
            old(self)@.wf(),
        ensures
            res is Err <==> old(self)@.curr_turn == 0,
            final(self)@ == old(self)@.stepped_back(),
            final(self)@.wf(),
    {
        if self.curr_turn == 0 {
            Err(())
        } else {
            self.curr_turn -= 1;
            self.load_turn(self.curr_turn);
            Ok(())
        }
    }

    pub fn next(&mut self) -> (res: Result<(), ()>)
        requires
            old(self)@.wf(),
        ensures
            res is Err <==> old(self)@.curr_turn + 1 >= old(self)@.turns.len(),
            final(self)@ == old(self)@.stepped_forward(),
            final(self)@.wf(),
    {
        assert(self@.curr_turn < self@.turns.len());
        assert(self@.turns.len() == self.turns@.len());
        assert(self.curr_turn < self.turns.len());
        if self.curr_turn + 1 >= self.turns.len() {
            Err(())
        } else {
            self.curr_turn += 1;
            self.load_turn(self.curr_turn);
            Ok(())
        }
    }

    fn load_turn(&mut self, turn: usize)
        requires
            turn < old(self)@.turns.len(),
            board_wf(old(self)@.working_board),
            forall|i: int| 0 <= i < old(self)@.turns.len() ==> board_wf(#[trigger] old(self)@.turns[i]),
        ensures
            final(self)@ == old(self)@.loaded(turn as int),
            final(self)@.wf(),
    {
        self.working_board = self.turns[turn].clone();
        self.curr_turn = turn;
        let len = self.turns.len();
        assert(self@.turns.len() == len);
    }
}


/// What each of `moves` holds.
pub open spec fn moves_view(moves: Seq<Move>) -> Seq<MoveView> {
    moves.map_values(|m: Move| m@)
}

impl TurnsView {
    /// What the rules read of the working board.
    pub open spec fn slots(self) -> Seq<Slot> {
        board_slots(self.working_board)
    }

    /// The moves of the side to move.
    pub open spec fn all_moves(self) -> Seq<MoveView> {
        spec_all_moves(self.slots(), self.to_move, self.slots().len() as int)
    }

    /// The history after `m` is applied: the move is made on the working
    /// board, the board is saved, and the other side is to move.
    pub open spec fn applied(self, m: MoveView) -> TurnsView {
        let board = board_with_slots(self.working_board, spec_make_move(self.slots(), m));
        TurnsView {
            working_board: board,
            turns: self.turns.take(self.curr_turn + 1).push(board),
            curr_turn: (self.curr_turn + 1) as usize,
            to_move: self.to_move.spec_toggled(),
        }
    }

    /// The history after the last applied move is taken back: the cursor
    /// steps back, the working board is a copy of that snapshot, and the
    /// other side is to move.
    pub open spec fn unapplied(self) -> TurnsView {
        TurnsView { to_move: self.to_move.spec_toggled(), ..self.stepped_back() }
    }

    /// The move that the engine picks.
    pub open spec fn best_move(self) -> MoveView {
        self.all_moves()[spec_best_index(self.slots(), self.to_move, self.all_moves(), self.all_moves().len() as int)]
    }

    /// The history after the engine has moved: the snapshot at the cursor
    /// has its caches filled anew, the engine's move is made on a copy of it
    /// and saved behind it, and the other side is to move.
    pub open spec fn best_move_made(self) -> TurnsView {
        let base = spec_init_all(self.turns[self.curr_turn as int]);
        let board = board_with_slots(base, spec_make_move(self.slots(), self.best_move()));
        TurnsView {
            working_board: board,
            turns: self.turns.take(self.curr_turn as int).push(base).push(board),
            curr_turn: (self.curr_turn + 1) as usize,
            to_move: self.to_move.spec_toggled(),
        }
    }
}

/// What a piece is worth to its own side.
fn piece_score(piece: &Piece) -> (res: Score)
    requires
        piece@.core.wf(),
    ensures
        res == spec_piece_score(piece@.core),
        -PIECE_SCORE_LIMIT <= res <= PIECE_SCORE_LIMIT,
{
    proof {
        lemma_piece_score_bound(piece@.core);
    }
    let dx: i64 = piece.x() - CENTER_X;
    let dy: i64 = piece.y() - CENTER_Y;
    assert(0 <= dx * dx <= 600_000_000_000_000_000 && 0 <= dy * dy <= 600_000_000_000_000_000) by (nonlinear_arith)
        requires
            -504_000_000 <= dx <= 504_000_000,
            -504_000_000 <= dy <= 504_000_000;
    let d2: i64 = dx * dx + dy * dy;
    let dist: u64 = isqrt(d2 as u64);
    piece.kind().value() * 100 + (5_000_000 - dist as i64)
}

/// Engine code.
impl Turns {
    /// Returns the score, statically evaluated at the current position: more
    /// positive favors the side to move, zero is even.
    pub fn eval(&self) -> (ans: Score)
        requires
            self@.wf(),
        ensures
            ans == spec_eval(self@.slots(), self@.to_move, self@.slots().len() as int),
            NEG_INFINITY < ans < INFINITY,
    {
        let ghost slots = self@.slots();
        let n = self.working_board.len();
        let mut ans: Score = 0;
        let mut i: usize = 0;
        proof {
            assert(slots_wf(slots)) by {
                assert forall|k: int| 0 <= k < slots.len() implies (#[trigger] slots[k]).core.wf() by {
                    assert(self@.working_board[k].1.wf());
                }
            }
        }
        while i < n
            invariant
                i <= n,
                n == slots.len(),
                slots == self@.slots(),
                slots_wf(slots),
                self.working_board@ == self@.working_board,
                ans == spec_eval(slots, self@.to_move, i as int),
            decreases n - i,
        {
            proof {
                lemma_eval_bound(slots, self@.to_move, i as int);
                lemma_eval_bound(slots, self@.to_move, i + 1);
                assert(i * PIECE_SCORE_LIMIT <= 65_536 * PIECE_SCORE_LIMIT) by (nonlinear_arith)
                    requires i <= 65_536;
            }
            match self.working_board.get(i) {
                Some(piece) => {
                    let score = piece_score(piece);
                    // add the worth of each piece to its side
                    if piece.side() == self.to_move {
                        ans = ans + score;
                    } else {
                        ans = ans - score;
                    }
                },
                None => {},
            }
            i += 1;
        }
        proof {
            lemma_eval_bound(slots, self@.to_move, n as int);
            assert(n * PIECE_SCORE_LIMIT <= 65_536 * PIECE_SCORE_LIMIT) by (nonlinear_arith)
                requires n <= 65_536;
        }
        ans
    }

    /// Reverses the effects of [`Turns::apply`].
    pub fn unapply(&mut self)
        requires
            old(self)@.wf(),
            old(self)@.curr_turn > 0,
        ensures
            final(self)@ == old(self)@.unapplied(),
            final(self)@.wf(),
    {
        let _ = self.prev();
        self.to_move = self.to_move.toggled();
    }

    /// Applies a move to the current board, saves the turn, and toggles the
    /// side to move.
    ///
    /// Since we save, this will remove future turns that were saved! The
    /// move is trusted: nothing is checked against the rules.
    pub fn apply(&mut self, move_: &Move)
        requires
            old(self)@.wf(),
            spec_can_make(old(self)@.slots(), move_@),
            point_in_range(move_@.travel.dest),
            move_@.rotate.dest.wf(),
        ensures
            final(self)@ == old(self)@.applied(move_@),
            final(self)@.wf(),
    {
        self.working_board.make_move(move_);
        self.save_turn();
        self.to_move = self.to_move.toggled();
    }

    /// Return all possible moves that the current player can make.
    ///
    /// The caches of the working board are filled anew first.
    pub fn all_moves(&mut self) -> (ans: Vec<Move>)
        requires
            old(self)@.wf(),
            spec_moves_fit(old(self)@.slots(), old(self)@.to_move),
        ensures
            moves_view(ans@) == old(self)@.all_moves(),
            forall|k: int| 0 <= k < ans.len() ==> spec_move_ok(old(self)@.slots(), #[trigger] ans[k]@),
            final(self)@ == (TurnsView { working_board: spec_init_all(old(self)@.working_board), ..old(self)@ }),
            final(self)@.slots() == old(self)@.slots(),
            final(self)@.wf(),
    {
        match self.try_all_moves() {
            Some(ans) => ans,
            None => vstd::pervasive::unreached(),
        }
    }

    /// All possible moves that the current player can make, or `None` if
    /// one of its legal travels captures more pieces than a travel can hold.
    ///
    /// The caches of the working board are filled anew first.
    pub fn try_all_moves(&mut self) -> (res: Option<Vec<Move>>)
        requires
            old(self)@.wf(),
        ensures
            res is Some <==> spec_moves_fit(old(self)@.slots(), old(self)@.to_move),
            res matches Some(ans) ==> moves_view(ans@) == old(self)@.all_moves() && forall|k: int|
                0 <= k < ans.len() ==> spec_move_ok(old(self)@.slots(), #[trigger] ans[k]@),
            final(self)@ == (TurnsView { working_board: spec_init_all(old(self)@.working_board), ..old(self)@ }),
            final(self)@.slots() == old(self)@.slots(),
            final(self)@.wf(),
    {
        self.working_board.init_all_auxiliary_data();
        let ghost slots = self@.slots();
        let ghost side = self@.to_move;
        let n = self.working_board.len();
        let mut ans: Vec<Move> = Vec::new();
        let mut i: usize = 0;
        while i < n
            invariant
                i <= n,
                n == slots.len(),
                self.working_board.wf(),
                self.working_board@ == spec_init_all(old(self)@.working_board),
                slots == board_slots(self.working_board@),
                slots == old(self)@.slots(),
                side == self.to_move,
                side == old(self)@.to_move,
                self@ == (TurnsView { working_board: spec_init_all(old(self)@.working_board), ..old(self)@ }),
                self@.wf(),
                forall|id: int, j: int|
                    0 <= id < i && slots[id].alive && slots[id].core.side == side && 0 <= j < spec_fresh_points(
                        slots,
                        id,
                    ).len() ==> #[trigger] spec_point_fits(slots, id, j),
                moves_view(ans@) == spec_all_moves(slots, side, i as int),
                forall|k: int| 0 <= k < ans.len() ==> spec_move_ok(slots, #[trigger] ans[k]@),
            decreases n - i,
        {
            match self.working_board.get(i) {
                None => {},
                Some(piece) => {
                    if piece.side() == self.to_move {
                        assert(piece@ == self.working_board@[i as int].1);
                        assert(old(self)@.working_board[i as int].0);
                        assert(piece@.fresh());
                        assert(piece@.wf());
                        let points = piece.travel_points_unchecked();
                        assert(points@ == spec_fresh_points(slots, i as int));
                        let ghost base = moves_view(ans@);
                        let mut j: usize = 0;
                        while j < points.len()
                            invariant
                                j <= points.len(),
                                i < n,
                                n == slots.len(),
                                self.working_board.wf(),
                                slots == board_slots(self.working_board@),
                                slots == old(self)@.slots(),
                                side == old(self)@.to_move,
                                self@ == (TurnsView {
                                    working_board: spec_init_all(old(self)@.working_board),
                                    ..old(self)@
                                }),
                                self@.wf(),
                                piece@ == self.working_board@[i as int].1,
                                self.working_board@[i as int].0,
                                piece@.wf(),
                                piece@.fresh(),
                                points@ == spec_fresh_points(slots, i as int),
                                slots[i as int].alive,
                                slots[i as int].core.side == side,
                                forall|k: int| 0 <= k < j ==> #[trigger] spec_point_fits(slots, i as int, k),
                                moves_view(ans@) == base + spec_point_moves(slots, i, points@, j as int),
                                forall|k: int| 0 <= k < ans.len() ==> spec_move_ok(slots, #[trigger] ans[k]@),
                            decreases points.len() - j,
                        {
                            let (tvk, x, y) = points[j];
                            proof {
                                let t = piece@.cache.unwrap();
                                if j < t.move_points.len() {
                                    assert(spec_on_board(t.move_points[j as int].0 as int, t.move_points[j as int].1 as int));
                                } else {
                                    let c = j - t.move_points.len();
                                    assert(spec_on_board(t.capture_points[c].0 as int, t.capture_points[c].1 as int));
                                }
                                lemma_overlapping_hits(slots, piece@.core, x as int, y as int, n as int);
                            }
                            let ghost before = moves_view(ans@);
                            match self.working_board.try_travelable(piece, x, y, tvk) {
                                Err(_) => {
                                    assert(!spec_point_fits(slots, i as int, j as int));
                                    return None;
                                },
                                Ok(Some(travel)) => {
                                    let m = Move {
                                        travel,
                                        rotate: RotationPhase { piece: piece.id(), src: piece.angle(), dest: piece.angle() },
                                    };
                                    assert(m@ == spec_engine_move(slots, i, travel@));
                                    assert(spec_move_ok(slots, m@)) by {
                                        let caps = m@.travel.captures;
                                        assert forall|k: int| 0 <= k < caps.len() implies #[trigger] caps[k] < slots.len()
                                            && caps[k] != i by {}
                                    }
                                    ans.push(m);
                                    assert(moves_view(ans@) =~= before.push(m@));
                                },
                                Ok(None) => {},
                            }
                            assert(spec_point_fits(slots, i as int, j as int));
                            j += 1;
                            assert(moves_view(ans@) =~= base + spec_point_moves(slots, i, points@, j as int));
                        }
                    }
                },
            }
            i += 1;
            assert(moves_view(ans@) =~= spec_all_moves(slots, side, i as int));
        }
        Some(ans)
    }
}

/// Search.
impl Turns {
    /// Return the score we get in `depth` plies when minimizing our maximum
    /// loss. "We" is the side to move.
    ///
    /// - alpha is the highest score we already found: a lower one need not
    ///   be considered.
    /// - beta is the best score we can get before the opponent is able to
    ///   deny it with a reply we already found.
    ///
    /// A result within the window is the value of the position; one at or
    /// below alpha is an upper bound of it, one at or above beta a lower
    /// bound.
    ///
    /// Every move that is looked at is applied and taken back, so that the
    /// cursor, the side to move and the snapshots up to the cursor are
    /// afterwards what they were.
    pub fn negamax_ab(&mut self, depth: usize, alpha: Score, beta: Score) -> (res: Score)
        requires
            old(self)@.wf(),
            old(self)@.synced(),
            NEG_INFINITY <= alpha <= INFINITY,
            NEG_INFINITY <= beta <= INFINITY,
            spec_search_fits(old(self)@.slots(), old(self)@.to_move, depth as nat),
        ensures
            res == spec_negamax(old(self)@.slots(), old(self)@.to_move, depth as nat, alpha as int, beta as int),
            alpha < beta ==> spec_bounds_value(
                res as int,
                spec_minimax(old(self)@.slots(), old(self)@.to_move, depth as nat),
                alpha as int,
                beta as int,
            ),
            NEG_INFINITY <= res <= INFINITY,
            final(self)@.wf(),
            final(self)@.synced(),
            old(self)@.same_position(final(self)@),
        decreases depth,
    {
        proof {
            if alpha < beta {
                lemma_alpha_beta_sound(self@.slots(), self@.to_move, depth as nat, alpha as int, beta as int);
            }
        }
        if depth == 0 {
            assert(self@.turns.take(self@.curr_turn + 1) =~= old(self)@.turns.take(old(self)@.curr_turn + 1));
            return self.eval();
        }
        let ghost v0 = self@;
        let ghost slots = self@.slots();
        let ghost side = self@.to_move;
        let ghost curr = self@.curr_turn as int;
        let ghost prefix = self@.turns.take(curr + 1);
        let ghost all = self@.all_moves();

        let mut raised: Score = alpha;
        let mut best_score: Score = NEG_INFINITY;
        let moves = self.all_moves();
        let mut i: usize = 0;
        while i < moves.len()
            invariant
                i <= moves.len(),
                depth > 0,
                slots == old(self)@.slots(),
                side == old(self)@.to_move,
                curr == old(self)@.curr_turn,
                prefix == old(self)@.turns.take(old(self)@.curr_turn + 1),
                self@.wf(),
                self@.synced(),
                self@.slots() == slots,
                self@.to_move == side,
                self@.curr_turn == curr,
                self@.turns.len() > curr,
                self@.turns.take(curr + 1) == prefix,
                prefix.len() == curr + 1,
                moves_view(moves@) == all,
                all == spec_all_moves(slots, side, slots.len() as int),
                forall|k: int| 0 <= k < moves.len() ==> spec_move_ok(slots, #[trigger] moves[k]@),
                spec_search_fits(slots, side, depth as nat),
                NEG_INFINITY <= raised <= INFINITY,
                NEG_INFINITY <= beta <= INFINITY,
                NEG_INFINITY <= best_score <= INFINITY,
                spec_search(slots, side, depth as nat, all, i as nat, raised as int, beta as int, best_score as int)
                    == spec_negamax(slots, side, depth as nat, alpha as int, beta as int),
                alpha < beta ==> spec_bounds_value(
                    spec_negamax(slots, side, depth as nat, alpha as int, beta as int),
                    spec_minimax(slots, side, depth as nat),
                    alpha as int,
                    beta as int,
                ),
            decreases moves.len() - i,
        {
            let move_ = &moves[i];
            let ghost m = move_@;
            assert(m == all[i as int]);
            assert(spec_move_ok(slots, m));
            let ghost v1 = self@;
            self.apply(move_);
            proof {
                lemma_board_with_slots(v1.working_board, spec_make_move(slots, m));
                assert(v1.turns.take(curr + 1).len() == curr + 1);
                assert(self@.curr_turn == curr + 1);
                assert(self@.turns[curr + 1] == self@.working_board);
                assert(self@.synced());
                assert(spec_search_fits(spec_make_move(slots, all[i as int]), side.spec_toggled(), (depth - 1) as nat));
            }
            let ghost v2 = self@;
            let score: Score = -self.negamax_ab(depth - 1, -beta, -raised);
            let ghost v3 = self@;
            self.unapply();
            proof {
                assert(v2.turns.take(curr + 1) =~= prefix);
                assert(v3.turns.take(curr + 1) =~= v3.turns.take(curr + 2).take(curr + 1));
                assert(v2.turns.take(curr + 1) =~= v2.turns.take(curr + 2).take(curr + 1));
                assert(self@.turns.take(curr + 1) == prefix);
                assert(self@.working_board == prefix[curr]);
                assert(v1.turns[curr] == prefix[curr]);
            }

            let ghost alpha1 = raised as int;
            let ghost best1 = best_score as int;
            if score > best_score {
                best_score = score;
                if score > raised {
                    raised = score;
                }
            }
            assert(score == -spec_negamax(
                spec_make_move(slots, all[i as int]),
                side.spec_toggled(),
                (depth - 1) as nat,
                -(beta as int),
                -alpha1,
            ));
            if score >= beta {
                assert(spec_search(slots, side, depth as nat, all, i as nat, alpha1, beta as int, best1) == best_score);
                return best_score;
            }
            assert(spec_search(slots, side, depth as nat, all, i as nat, alpha1, beta as int, best1) == spec_search(
                slots,
                side,
                depth as nat,
                all,
                (i + 1) as nat,
                raised as int,
                beta as int,
                best_score as int,
            ));
            i += 1;
        }
        best_score
    }

    /// Make the best move for the side to move.
    ///
    /// The caches of the working board and of the snapshot at the cursor are
    /// filled anew. Every move of the side to move is valued by a search of
    /// `DEPTH` plies; the last of the moves with the highest value is made on
    /// the board and saved, and the other side is to move.
    ///
    /// There must be a move to make.
    pub fn make_best_move(&mut self)
        requires
            old(self)@.wf(),
            old(self)@.synced(),
            old(self)@.all_moves().len() > 0,
            spec_search_fits(old(self)@.slots(), old(self)@.to_move, (DEPTH + 1) as nat),
        ensures
            final(self)@ == old(self)@.best_move_made(),
            final(self)@.wf(),
    {
        let ghost v0 = self@;
        let ghost slots = self@.slots();
        let ghost side = self@.to_move;
        let ghost curr = self@.curr_turn as int;
        let ghost all = self@.all_moves();
        let ghost base = spec_init_all(v0.turns[curr]);
        let ghost prefix = v0.turns.take(curr).push(base);

        let mut best_score: Score = NEG_INFINITY;
        let mut best_move: usize = 0;

        let moves = self.all_moves();
        assert(self.curr_turn < self.turns.len()) by {
            assert(self@.curr_turn < self@.turns.len());
            assert(self@.turns.len() == self.turns@.len());
        }
        assert(self.turns[curr]@ == v0.turns[curr]);
        self.turns[self.curr_turn].init_all_auxiliary_data();
        proof {
            assert(self@.turns =~= v0.turns.update(curr, base));
            assert(self@.turns.take(curr + 1) =~= prefix);
            assert(board_slots(base) == board_slots(v0.turns[curr]));
            assert(self@.wf());
        }
        let mut i: usize = 0;
        while i < moves.len()
            invariant
                i <= moves.len(),
                self@.wf(),
                self@.synced(),
                self@.slots() == slots,
                self@.to_move == side,
                self@.curr_turn == curr,
                self@.turns.len() > curr,
                self@.turns.take(curr + 1) == prefix,
                prefix.len() == curr + 1,
                prefix[curr] == base,
                i > 0 ==> self@.working_board == base,
                moves_view(moves@) == all,
                all.len() > 0,
                forall|k: int| 0 <= k < moves.len() ==> spec_move_ok(slots, #[trigger] moves[k]@),
                spec_search_fits(slots, side, (DEPTH + 1) as nat),
                all == spec_all_moves(slots, side, slots.len() as int),
                best_move < moves.len(),
                best_move == spec_best_index(slots, side, all, i as int),
                i > 0 ==> best_score == spec_root_score(slots, side, all[best_move as int]),
                NEG_INFINITY <= best_score <= INFINITY,
                i == 0 ==> best_score == NEG_INFINITY,
            decreases moves.len() - i,
        {
            let move_ = &moves[i];
            let ghost m = move_@;
            assert(m == all[i as int]);
            assert(spec_move_ok(slots, m));
            let ghost v1 = self@;
            self.apply(move_);
            proof {
                lemma_board_with_slots(v1.working_board, spec_make_move(slots, m));
                assert(v1.turns.take(curr + 1).len() == curr + 1);
                assert(self@.curr_turn == curr + 1);
                assert(self@.turns[curr + 1] == self@.working_board);
                assert(self@.synced());
                assert(spec_search_fits(spec_make_move(slots, all[i as int]), side.spec_toggled(), DEPTH as nat));
            }
            let ghost v2 = self@;
            let score: Score = -self.negamax_ab(DEPTH, NEG_INFINITY, INFINITY);
            let ghost v3 = self@;
            self.unapply();
            proof {
                assert(v2.turns.take(curr + 1) =~= prefix);
                assert(v3.turns.take(curr + 1) =~= v3.turns.take(curr + 2).take(curr + 1));
                assert(v2.turns.take(curr + 1) =~= v2.turns.take(curr + 2).take(curr + 1));
                assert(self@.turns.take(curr + 1) == prefix);
                assert(self@.working_board == prefix[curr]);
                assert(score == spec_root_score(slots, side, m));
            }

            if score >= best_score {
                best_score = score;
                best_move = i;
            }
            i += 1;
        }
        let ghost v4 = self@;
        self.apply(&moves[best_move]);
        proof {
            assert(moves[best_move as int]@ == v0.best_move());
            assert(v4.working_board == base);
            lemma_board_with_slots(base, spec_make_move(slots, v0.best_move()));
            assert(self@.turns =~= v0.best_move_made().turns);
        }
    }
}


impl TurnsView {
    /// The history after `n` steps forward.
    pub open spec fn after_nexts(self, n: nat) -> TurnsView
        decreases n,
    {
        if n == 0 {
            self
        } else {
            self.after_nexts((n - 1) as nat).stepped_forward()
        }
    }

    /// The history after the working board has become `board` and has been
    /// saved.
    pub open spec fn committed(self, board: Seq<(bool, PieceView)>) -> TurnsView {
        (TurnsView { working_board: board, ..self }).saved()
    }

    /// The history after the first `n` of `boards` have been committed one
    /// after the other.
    pub open spec fn after_commits(self, boards: Seq<Seq<(bool, PieceView)>>, n: nat) -> TurnsView
        decreases n,
    {
        if n == 0 {
            self
        } else {
            self.after_commits(boards, (n - 1) as nat).committed(boards[n - 1])
        }
    }
}

/// Commits made at the end of a history are appended to it in order, and
/// the cursor ends on the last of them.
pub proof fn lemma_commits_append(v: TurnsView, boards: Seq<Seq<(bool, PieceView)>>, n: nat)
    requires
        v.curr_turn + 1 == v.turns.len(),
        v.turns.len() + n <= usize::MAX,
        n <= boards.len(),
    ensures
        v.after_commits(boards, n).turns == v.turns + boards.take(n as int),
        v.after_commits(boards, n).curr_turn == v.curr_turn + n,
        n > 0 ==> v.after_commits(boards, n).working_board == boards[n - 1],
    decreases n,
{
    if n == 0 {
        assert(v.turns + boards.take(0) =~= v.turns);
    } else {
        lemma_commits_append(v, boards, (n - 1) as nat);
        let w = v.after_commits(boards, (n - 1) as nat);
        assert(w.turns.take(w.curr_turn + 1) =~= w.turns);
        assert(w.turns.push(boards[n - 1]) =~= v.turns + boards.take(n as int));
    }
}

/// From the first snapshot, `j` steps forward lead to the `j`-th snapshot,
/// and leave the snapshots as they are.
pub proof fn lemma_walk_visits(v: TurnsView, j: nat)
    requires
        0 < v.turns.len() <= usize::MAX,
        j < v.turns.len(),
    ensures
        v.loaded(0).after_nexts(j).curr_turn == j,
        v.loaded(0).after_nexts(j).working_board == v.turns[j as int],
        v.loaded(0).after_nexts(j).turns == v.turns,
        v.loaded(0).after_nexts(j).to_move == v.to_move,
    decreases j,
{
    if j > 0 {
        lemma_walk_visits(v, (j - 1) as nat);
    }
}

/// After `n` commits from a history of one snapshot, going to the first
/// turn and stepping forward visits the first snapshot and then the
/// committed boards, in the order in which they were committed.
pub proof fn lemma_history_replays(v: TurnsView, boards: Seq<Seq<(bool, PieceView)>>, j: nat)
    requires
        v.turns.len() == 1,
        v.curr_turn == 0,
        boards.len() < usize::MAX,
        1 <= j <= boards.len(),
    ensures
        v.after_commits(boards, boards.len()).loaded(0).after_nexts(0).working_board == v.turns[0],
        v.after_commits(boards, boards.len()).loaded(0).after_nexts(j).working_board == boards[j - 1],
        v.after_commits(boards, boards.len()).loaded(0).after_nexts(j).curr_turn == j,
{
    lemma_commits_append(v, boards, boards.len());
    let w = v.after_commits(boards, boards.len());
    assert(boards.take(boards.len() as int) =~= boards);
    lemma_walk_visits(w, j);
    lemma_walk_visits(w, 0);
}

/// A commit after a rewind to turn `k` discards every snapshot after `k`:
/// what is left are the snapshots up to `k` and the board that was
/// committed.
pub proof fn lemma_commit_discards_future(v: TurnsView, k: int, board: Seq<(bool, PieceView)>)
    requires
        0 <= k < v.turns.len() <= usize::MAX,
    ensures
        v.loaded(k).committed(board).turns == v.turns.take(k + 1).push(board),
        v.loaded(k).committed(board).turns.len() == k + 2,
        v.loaded(k).committed(board).curr_turn == k + 1,
        forall|i: int| 0 <= i <= k ==> v.loaded(k).committed(board).turns[i] == v.turns[i],
{
}

/// Taking back a move that was applied to a history whose working board
/// mirrors the snapshot at the cursor restores every center, facing, kind and
/// liveness, the cursor, the side to move and the snapshots up to the cursor.
pub proof fn lemma_apply_unapply(v: TurnsView, m: MoveView)
    requires
        v.wf(),
        v.synced(),
    ensures
        v.applied(m).unapplied().slots() == v.slots(),
        v.applied(m).unapplied().curr_turn == v.curr_turn,
        v.applied(m).unapplied().to_move == v.to_move,
        v.applied(m).unapplied().turns.take(v.curr_turn + 1) == v.turns.take(v.curr_turn + 1),
{
    let a = v.applied(m);
    assert(a.turns.take(v.curr_turn + 1) =~= v.turns.take(v.curr_turn + 1));
    assert(a.turns[v.curr_turn as int] == v.turns[v.curr_turn as int]);
}


/// Why the engine did not move.
#[derive(Debug, Clone, Copy, PartialEq, Eq, Structural)]
pub enum EngineError {
    /// The working board has been edited since it was last saved or loaded.
    NotSynced,
    /// The search would meet a travel that captures more pieces than a
    /// travel can hold.
    TooManyCaptures,
    /// The side to move has no move.
    NoLegalMove,
}

impl TurnsView {
    /// Whether the engine can move, and why not if it cannot: the working
    /// board has to mirror the snapshot at the cursor, the search must meet no
    /// travel that captures more pieces than a travel can hold, and there must
    /// be a move to make.
    pub open spec fn engine_verdict(self) -> Result<(), EngineError> {
        if !self.synced() {
            Err(EngineError::NotSynced)
        } else if !spec_search_fits(self.slots(), self.to_move, (DEPTH + 1) as nat) {
            Err(EngineError::TooManyCaptures)
        } else if self.all_moves().len() == 0 {
            Err(EngineError::NoLegalMove)
        } else {
            Ok(())
        }
    }

    /// Whether the other history differs at most in caches and in the
    /// snapshots behind the cursor.
    pub open spec fn same_position(self, other: TurnsView) -> bool {
        &&& other.slots() == self.slots()
        &&& other.curr_turn == self.curr_turn
        &&& other.to_move == self.to_move
        &&& other.turns.len() > self.curr_turn
        &&& other.turns.take(self.curr_turn + 1) == self.turns.take(self.curr_turn + 1)
    }
}

/// Checks before a search.
impl Turns {
    /// Whether the working board has the liveness and defining data of the
    /// snapshot at the cursor.
    pub fn is_synced(&self) -> (res: bool)
        requires
            self@.wf(),
        ensures
            res == self@.synced(),
    {
        assert(self@.curr_turn < self@.turns.len());
        assert(self@.turns.len() == self.turns@.len());
        self.working_board.same_slots(&self.turns[self.curr_turn])
    }

    /// Whether a search of `depth` plies meets no travel that captures more
    /// pieces than a travel can hold.
    ///
    /// Every move within that depth is applied and taken back.
    pub fn search_fits(&mut self, depth: usize) -> (res: bool)
        requires
            old(self)@.wf(),
            old(self)@.synced(),
        ensures
            res == spec_search_fits(old(self)@.slots(), old(self)@.to_move, depth as nat),
            final(self)@.wf(),
            final(self)@.synced(),
            old(self)@.same_position(final(self)@),
        decreases depth,
    {
        if depth == 0 {
            assert(self@.turns.take(self@.curr_turn + 1) =~= old(self)@.turns.take(old(self)@.curr_turn + 1));
            return true;
        }
        let ghost slots = self@.slots();
        let ghost side = self@.to_move;
        let ghost curr = self@.curr_turn as int;
        let ghost prefix = self@.turns.take(curr + 1);
        let ghost all = self@.all_moves();
        let moves = match self.try_all_moves() {
            Some(moves) => moves,
            None => {
                return false;
            },
        };
        let mut i: usize = 0;
        while i < moves.len()
            invariant
                i <= moves.len(),
                depth > 0,
                slots == old(self)@.slots(),
                side == old(self)@.to_move,
                curr == old(self)@.curr_turn,
                prefix == old(self)@.turns.take(old(self)@.curr_turn + 1),
                self@.wf(),
                self@.synced(),
                self@.slots() == slots,
                self@.to_move == side,
                self@.curr_turn == curr,
                self@.turns.len() > curr,
                self@.turns.take(curr + 1) == prefix,
                prefix.len() == curr + 1,
                moves_view(moves@) == all,
                all == spec_all_moves(slots, side, slots.len() as int),
                forall|k: int| 0 <= k < moves.len() ==> spec_move_ok(slots, #[trigger] moves[k]@),
                spec_moves_fit(slots, side),
                forall|k: int|
                    0 <= k < i ==> spec_search_fits(
                        spec_make_move(slots, #[trigger] all[k]),
                        side.spec_toggled(),
                        (depth - 1) as nat,
                    ),
            decreases moves.len() - i,
        {
            let move_ = &moves[i];
            let ghost m = move_@;
            assert(m == all[i as int]);
            assert(spec_move_ok(slots, m));
            let ghost v1 = self@;
            self.apply(move_);
            proof {
                lemma_board_with_slots(v1.working_board, spec_make_move(slots, m));
                assert(v1.turns.take(curr + 1).len() == curr + 1);
                assert(self@.curr_turn == curr + 1);
                assert(self@.turns[curr + 1] == self@.working_board);
                assert(self@.synced());
            }
            let ghost v2 = self@;
            let ok = self.search_fits(depth - 1);
            let ghost v3 = self@;
            self.unapply();
            proof {
                assert(v2.turns.take(curr + 1) =~= prefix);
                assert(v3.turns.take(curr + 1) =~= v3.turns.take(curr + 2).take(curr + 1));
                assert(v2.turns.take(curr + 1) =~= v2.turns.take(curr + 2).take(curr + 1));
                assert(self@.turns.take(curr + 1) == prefix);
                assert(self@.working_board == prefix[curr]);
                assert(v1.turns[curr] == prefix[curr]);
            }
            if !ok {
                return false;
            }
            i += 1;
        }
        true
    }

    /// Make the best move for the side to move, if the engine can.
    ///
    /// Nothing is changed if the working board does not mirror the snapshot
    /// at the cursor. Otherwise the snapshots behind the cursor may be lost
    /// and caches filled anew even where the engine does not move.
    pub fn try_make_best_move(&mut self) -> (res: Result<(), EngineError>)
        requires
            old(self)@.wf(),
        ensures
            final(self)@.wf(),
            res == old(self)@.engine_verdict(),
            res is Ok ==> final(self)@ == old(self)@.best_move_made(),
            res == Err::<(), EngineError>(EngineError::NotSynced) ==> final(self)@ == old(self)@,
            res is Err ==> old(self)@.same_position(final(self)@),
    {
        if !self.is_synced() {
            assert(self@.turns.take(self@.curr_turn + 1) =~= self@.turns.take(self@.curr_turn + 1));
            return Err(EngineError::NotSynced);
        }
        if !self.search_fits(DEPTH + 1) {
            return Err(EngineError::TooManyCaptures);
        }
        let ghost v1 = self@;
        let moves = self.all_moves();
        let ghost v2 = self@;
        proof {
            assert(moves_view(moves@).len() == moves.len());
            assert(v2.turns == v1.turns);
        }
        if moves.len() == 0 {
            return Err(EngineError::NoLegalMove);
        }
        self.make_best_move();
        proof {
            let curr = old(self)@.curr_turn as int;
            assert(v2.turns.take(curr) =~= v2.turns.take(curr + 1).take(curr));
            assert(old(self)@.turns.take(curr) =~= old(self)@.turns.take(curr + 1).take(curr));
            assert(v2.turns[curr] == v2.turns.take(curr + 1)[curr]);
            assert(old(self)@.turns[curr] == old(self)@.turns.take(curr + 1)[curr]);
            assert(v2.best_move_made().turns =~= old(self)@.best_move_made().turns);
        }
        Ok(())
    }
}

} // verus!
