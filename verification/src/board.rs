//! The board: a table of pieces with liveness, spatial queries, and the
//! legality oracle.

use vstd::prelude::*;
use crate::floating_drift::{UNIT, point_in_range};
use crate::piece::{
    Angle, CorePieceData, Piece, PieceId, PieceKind, PieceView, Side, TravelKind, PIECE_RADIUS, spec_collidepoint,
    spec_collidepiece, spec_should_promote, spec_travel_points, lemma_collision_thresholds, lemma_mul_bound,
    lemma_refreshed_wf,
};
use crate::turn::{Move, MoveView, RotationPhase, TravelPhase, TravelPhaseView, MAX_CAPTURES};

verus! {

/// The most slots a board can have.
pub const MAX_PIECES: usize = 65_536;

/// Why a board could not be set up.
#[derive(Debug, Clone, Copy, PartialEq, Eq, Structural)]
pub enum BoardError {
    /// The back-rank ordering is not a permutation of the eight slots.
    NotAPermutation,
    /// A piece's identifier is not its place in the table.
    IdentifierMismatch,
    /// There are more pieces than a board can hold.
    TooManyPieces,
    /// A travel would capture more pieces than a travel can hold.
    TooManyCaptures,
}

/// What the rules read of one slot of the board.
pub struct Slot {
    pub alive: bool,
    pub core: CorePieceData,
}

/// A set of pieces.
///
/// A slot is never removed: a captured piece is marked dead, so that an
/// identifier stays valid for the whole game. Legal moves keep the centers of
/// living pieces at least two radii apart.
pub struct Pieces {
    inner: Vec<(bool, Piece)>,
}

impl View for Pieces {
    type V = Seq<(bool, PieceView)>;

    closed spec fn view(&self) -> Seq<(bool, PieceView)> {
        self.inner@.map_values(|s: (bool, Piece)| (s.0, s.1@))
    }
}

/// What the rules read of a board: liveness and defining data, slot by slot.
pub open spec fn board_slots(board: Seq<(bool, PieceView)>) -> Seq<Slot> {
    board.map_values(|s: (bool, PieceView)| Slot { alive: s.0, core: s.1.core })
}

/// Whether a board is valid: within capacity, every identifier the index of
/// its slot, and every piece valid.
pub open spec fn board_wf(board: Seq<(bool, PieceView)>) -> bool {
    &&& board.len() <= MAX_PIECES
    &&& forall|i: int| 0 <= i < board.len() ==> (#[trigger] board[i]).1.id == i && board[i].1.wf()
}

/// Whether two boards have the same slots with the same identifiers and
/// caches.
pub open spec fn same_frame(a: Seq<(bool, PieceView)>, b: Seq<(bool, PieceView)>) -> bool {
    &&& a.len() == b.len()
    &&& forall|i: int| 0 <= i < a.len() ==> (#[trigger] a[i]).1.id == b[i].1.id && a[i].1.cache == b[i].1.cache
}

/// The board with liveness and defining data taken from `slots`, and
/// identifiers and caches left as they are.
pub open spec fn board_with_slots(board: Seq<(bool, PieceView)>, slots: Seq<Slot>) -> Seq<(bool, PieceView)> {
    Seq::new(board.len(), |i: int| (slots[i].alive, PieceView { core: slots[i].core, ..board[i].1 }))
}

/// Whether slot `i` of the board holds a living piece that covers the
/// point.
pub open spec fn spec_covers(board: Seq<(bool, PieceView)>, i: int, x: int, y: int) -> bool {
    board[i].0 && spec_collidepoint(x, y, board[i].1.core.center.0 as int, board[i].1.core.center.1 as int)
}

/// The first of the first `n` slots that holds a living piece covering
/// the point.
pub open spec fn spec_get_id(board: Seq<(bool, PieceView)>, x: int, y: int, n: int) -> Option<PieceId>
    decreases n,
{
    if n <= 0 {
        None
    } else {
        match spec_get_id(board, x, y, n - 1) {
            Some(id) => Some(id),
            None => if spec_covers(board, n - 1, x, y) {
                Some((n - 1) as usize)
            } else {
                None
            },
        }
    }
}

/// Once a covering piece is found among the first `n` slots, looking at
/// more slots finds the same one.
pub proof fn lemma_get_id_stays(board: Seq<(bool, PieceView)>, x: int, y: int, n: int, m: int)
    requires
        0 <= n <= m,
        spec_get_id(board, x, y, n).is_some(),
    ensures
        spec_get_id(board, x, y, m) == spec_get_id(board, x, y, n),
    decreases m - n,
{
    if n < m {
        lemma_get_id_stays(board, x, y, n, m - 1);
    }
}

/// The living pieces among the first `n` slots, in order.
pub open spec fn spec_board_pieces(board: Seq<(bool, PieceView)>, n: int) -> Seq<PieceView>
    decreases n,
{
    if n <= 0 {
        Seq::empty()
    } else if board[n - 1].0 {
        spec_board_pieces(board, n - 1).push(board[n - 1].1)
    } else {
        spec_board_pieces(board, n - 1)
    }
}

/// The board with the cache of every living piece filled anew.
pub open spec fn spec_init_all(board: Seq<(bool, PieceView)>) -> Seq<(bool, PieceView)> {
    board.map_values(|s: (bool, PieceView)| if s.0 { (s.0, s.1.refreshed()) } else { s })
}

/// The kinds of the back rank in the standard layout, file by file.
pub open spec fn spec_standard_order() -> Seq<PieceKind> {
    seq![
        PieceKind::Rook,
        PieceKind::Knight,
        PieceKind::Bishop,
        PieceKind::Queen,
        PieceKind::King,
        PieceKind::Bishop,
        PieceKind::Knight,
        PieceKind::Rook,
    ]
}

/// The center of a tile.
pub open spec fn spec_tile_center(file: int, rank: int) -> (i64, i64) {
    ((file * UNIT + UNIT / 2) as i64, (rank * UNIT + UNIT / 2) as i64)
}

/// The piece in slot `i` of the initial layout with back rank `order`.
///
/// Slots 0 to 15 hold the pawns and slots 16 to 31 the back ranks, file by
/// file, Black in the even slots and White in the odd ones. Black stands on
/// ranks 0 and 1 and faces half a turn away from White.
pub open spec fn spec_layout_piece(order: Seq<PieceKind>, i: int) -> PieceView {
    let black = i % 2 == 0;
    let pawn = i < 16;
    let file = (if pawn { i } else { i - 16 }) / 2;
    let rank = if pawn { if black { 1int } else { 6int } } else { if black { 0int } else { 7int } };
    PieceView {
        id: i as usize,
        core: CorePieceData {
            center: spec_tile_center(file, rank),
            angle: if black { Angle { cos: (-UNIT) as i64, sin: 0 } } else { Angle { cos: UNIT, sin: 0 } },
            side: if black { Side::Black } else { Side::White },
            kind: if pawn { PieceKind::Pawn } else { order[file] },
        },
        cache: None,
    }
}

/// The initial layout with back rank `order`: thirty-two living pieces.
pub open spec fn spec_layout(order: Seq<PieceKind>) -> Seq<(bool, PieceView)> {
    Seq::new(32, |i: int| (true, spec_layout_piece(order, i)))
}

/// Whether `ordering` holds each of the eight slots exactly once.
pub open spec fn spec_is_permutation(ordering: Seq<usize>) -> bool {
    &&& ordering.len() == 8
    &&& forall|i: int| 0 <= i < 8 ==> #[trigger] ordering[i] < 8
    &&& forall|i: int, j: int| 0 <= i < j < 8 ==> ordering[i] != ordering[j]
}

/// The back rank that `ordering` picks from the standard one.
pub open spec fn spec_shuffled_order(ordering: Seq<usize>) -> Seq<PieceKind> {
    Seq::new(8, |i: int| spec_standard_order()[ordering[i] as int])
}

/// The standard back rank as a table.
fn standard_order() -> (res: [PieceKind; 8])
    ensures
        res@ == spec_standard_order(),
{
    let res = [
        PieceKind::Rook,
        PieceKind::Knight,
        PieceKind::Bishop,
        PieceKind::Queen,
        PieceKind::King,
        PieceKind::Bishop,
        PieceKind::Knight,
        PieceKind::Rook,
    ];
    assert(res@ =~= spec_standard_order());
    res
}

impl Clone for Pieces {
    fn clone(&self) -> (res: Self)
        ensures
            res@ == self@,
    {
        let mut inner: Vec<(bool, Piece)> = Vec::new();
        let mut i: usize = 0;
        while i < self.inner.len()
            invariant
                i <= self.inner.len(),
                inner.len() == i,
                forall|k: int| 0 <= k < i ==> (#[trigger] inner[k]).0 == self.inner[k].0 && inner[k].1@ == self.inner[k].1@,
            decreases self.inner.len() - i,
        {
            inner.push((self.inner[i].0, self.inner[i].1.clone()));
            i += 1;
        }
        let res = Self { inner };
        assert(res@ =~= self@);
        res
    }
}

impl Pieces {
    /// Whether the board is valid.
    pub open spec fn wf(&self) -> bool {
        board_wf(self@)
    }

    /// What the rules read of the board.
    pub open spec fn slots(&self) -> Seq<Slot> {
        board_slots(self@)
    }

    /// The initial layout with the given back rank.
    fn layout(order: &[PieceKind; 8]) -> (res: Self)
        ensures
            res@ == spec_layout(order@),
            res.wf(),
    {
        let mut inner: Vec<(bool, Piece)> = Vec::new();
        let mut i: usize = 0;
        while i < 8
            invariant
                i <= 8,
                inner.len() == 2 * i,
                forall|k: int| 0 <= k < inner.len() ==> (#[trigger] inner[k]).0 && inner[k].1@ == spec_layout_piece(order@, k)
                    && inner[k].1@.wf(),
            decreases 8 - i,
        {
            inner.push((true, Piece::from_tile(i * 2, (i as u8, 1), Angle::half_turn(), Side::Black, PieceKind::Pawn)));
            inner.push((true, Piece::from_tile(i * 2 + 1, (i as u8, 6), Angle::zero(), Side::White, PieceKind::Pawn)));
            i += 1;
        }
        let mut j: usize = 0;
        while j < 8
            invariant
                j <= 8,
                inner.len() == 16 + 2 * j,
                forall|k: int| 0 <= k < inner.len() ==> (#[trigger] inner[k]).0 && inner[k].1@ == spec_layout_piece(order@, k)
                    && inner[k].1@.wf(),
            decreases 8 - j,
        {
            let kind = order[j];
            inner.push((true, Piece::from_tile(j * 2 + 16, (j as u8, 0), Angle::half_turn(), Side::Black, kind)));
            inner.push((true, Piece::from_tile(j * 2 + 17, (j as u8, 7), Angle::zero(), Side::White, kind)));
            j += 1;
        }
        let res = Self { inner };
        assert(res@ =~= spec_layout(order@));
        assert forall|k: int| 0 <= k < res@.len() implies (#[trigger] res@[k]).1.id == k && res@[k].1.wf() by {
            assert(res@[k].1 == res.inner[k].1@);
        }
        res
    }

    /// Create a board with standard piece positions.
    pub fn standard_board() -> (res: Self)
        ensures
            res@ == spec_layout(spec_standard_order()),
            res.wf(),
    {
        let order = standard_order();
        Self::layout(&order)
    }

    /// Create a board with a shuffled back row.
    ///
    /// This is known as the 960, or Fischer, variant setup. `idx_ordering`
    /// says for each file which piece of the standard back rank stands
    /// there, and must be a permutation of `0..8`.
    pub fn chess960_board(idx_ordering: [usize; 8]) -> (res: Result<Self, BoardError>)
        ensures
            spec_is_permutation(idx_ordering@) ==> res is Ok && res.unwrap()@ == spec_layout(
                spec_shuffled_order(idx_ordering@),
            ) && res.unwrap().wf(),
            !spec_is_permutation(idx_ordering@) ==> res == Err::<Self, BoardError>(BoardError::NotAPermutation),
    {
        let pieces = standard_order();
        let mut seen: [bool; 8] = [false; 8];
        let mut order: [PieceKind; 8] = [PieceKind::Pawn; 8];
        let mut i: usize = 0;
        while i < 8
            invariant
                i <= 8,
                pieces@ == spec_standard_order(),
                forall|k: int| 0 <= k < i ==> #[trigger] idx_ordering[k] < 8,
                forall|k: int, l: int| 0 <= k < l < i ==> idx_ordering[k] != idx_ordering[l],
                forall|v: int| 0 <= v < 8 ==> (#[trigger] seen[v] <==> exists|k: int| 0 <= k < i && idx_ordering[k] == v),
                forall|k: int| 0 <= k < i ==> #[trigger] order[k] == spec_standard_order()[idx_ordering[k] as int],
            decreases 8 - i,
        {
            let v = idx_ordering[i];
            if v >= 8 || seen[v] {
                return Err(BoardError::NotAPermutation);
            }
            seen[v] = true;
            order[i] = pieces[v];
            i += 1;
        }
        assert(order@ =~= spec_shuffled_order(idx_ordering@));
        Ok(Self::layout(&order))
    }

    /// Create a board from the given pieces, all of them living.
    ///
    /// The identifier of each piece must be its place in `pieces`.
    pub fn with_pieces(pieces: Vec<Piece>) -> (res: Result<Self, BoardError>)
        requires
            forall|i: int| 0 <= i < pieces.len() ==> (#[trigger] pieces[i])@.wf(),
        ensures
            pieces.len() > MAX_PIECES ==> res == Err::<Self, BoardError>(BoardError::TooManyPieces),
            pieces.len() <= MAX_PIECES && (exists|i: int| 0 <= i < pieces.len() && (#[trigger] pieces[i])@.id != i)
                ==> res == Err::<Self, BoardError>(BoardError::IdentifierMismatch),
            pieces.len() <= MAX_PIECES && (forall|i: int| 0 <= i < pieces.len() ==> (#[trigger] pieces[i])@.id == i)
                ==> res is Ok && res.unwrap().wf() && res.unwrap()@ == pieces@.map_values(
                |p: Piece| (true, p@),
            ),
    {
        if pieces.len() > MAX_PIECES {
            return Err(BoardError::TooManyPieces);
        }
        let mut inner: Vec<(bool, Piece)> = Vec::new();
        let mut i: usize = 0;
        while i < pieces.len()
            invariant
                i <= pieces.len(),
                pieces.len() <= MAX_PIECES,
                inner.len() == i,
                forall|k: int| 0 <= k < pieces.len() ==> (#[trigger] pieces[k])@.wf(),
                forall|k: int| 0 <= k < i ==> (#[trigger] pieces[k])@.id == k,
                forall|k: int| 0 <= k < i ==> (#[trigger] inner[k]).0 && inner[k].1@ == pieces[k]@,
            decreases pieces.len() - i,
        {
            if pieces[i].id() != i {
                return Err(BoardError::IdentifierMismatch);
            }
            inner.push((true, pieces[i].clone()));
            i += 1;
        }
        let res = Self { inner };
        assert(res@ =~= pieces@.map_values(|p: Piece| (true, p@)));
        assert forall|k: int| 0 <= k < res@.len() implies (#[trigger] res@[k]).1.id == k && res@[k].1.wf() by {
            assert(res@[k].1 == pieces[k]@);
        }
        Ok(res)
    }

    /// The number of slots, living or dead.
    pub fn len(&self) -> (res: usize)
        ensures
            res == self@.len(),
    {
        self.inner.len()
    }

    /// Whether slot `id` holds a living piece.
    pub fn is_alive(&self, id: PieceId) -> (res: bool)
        ensures
            res == (id < self@.len() && self@[id as int].0),
    {
        id < self.inner.len() && self.inner[id].0
    }

    /// The piece in slot `id`, living or dead, and whether it lives.
    pub fn slot(&self, id: PieceId) -> (res: (bool, &Piece))
        requires
            id < self@.len(),
        ensures
            res.0 == self@[id as int].0,
            res.1@ == self@[id as int].1,
    {
        (self.inner[id].0, &self.inner[id].1)
    }

    /// Whether two boards agree on what the rules read: liveness and
    /// defining data, slot by slot.
    pub fn same_slots(&self, other: &Pieces) -> (res: bool)
        ensures
            res == (self.slots() == other.slots()),
    {
        if self.inner.len() != other.inner.len() {
            assert(self.slots().len() != other.slots().len());
            return false;
        }
        let mut i: usize = 0;
        while i < self.inner.len()
            invariant
                i <= self.inner.len(),
                self.inner.len() == other.inner.len(),
                forall|k: int| 0 <= k < i ==> #[trigger] self.slots()[k] == other.slots()[k],
            decreases self.inner.len() - i,
        {
            if self.inner[i].0 != other.inner[i].0 || !self.inner[i].1.same_core(&other.inner[i].1) {
                assert(self.slots()[i as int] != other.slots()[i as int]);
                return false;
            }
            i += 1;
        }
        assert(self.slots() =~= other.slots());
        true
    }

    /// The living pieces, in the order of their identifiers.
    pub fn board_pieces(&self) -> (res: Vec<&Piece>)
        ensures
            res@.map_values(|p: &Piece| p@) == spec_board_pieces(self@, self@.len() as int),
    {
        let mut res: Vec<&Piece> = Vec::new();
        let mut i: usize = 0;
        while i < self.inner.len()
            invariant
                i <= self.inner.len(),
                res@.map_values(|p: &Piece| p@) == spec_board_pieces(self@, i as int),
            decreases self.inner.len() - i,
        {
            if self.inner[i].0 {
                res.push(&self.inner[i].1);
                assert(res@.map_values(|p: &Piece| p@) =~= spec_board_pieces(self@, i as int).push(self@[i as int].1));
            }
            i += 1;
        }
        res
    }

    /// Get the first living piece that collides with `(x, y)`, if one does.
    pub fn get_id(&self, x: i64, y: i64) -> (res: Option<PieceId>)
        ensures
            res == spec_get_id(self@, x as int, y as int, self@.len() as int),
            match res {
                Some(id) => id < self@.len() && self.spec_covers(id as int, x as int, y as int) && forall|j: int|
                    0 <= j < id ==> !self.spec_covers(j, x as int, y as int),
                None => forall|j: int| 0 <= j < self@.len() ==> !self.spec_covers(j, x as int, y as int),
            },
    {
        let mut i: usize = 0;
        while i < self.inner.len()
            invariant
                i <= self.inner.len(),
                forall|j: int| 0 <= j < i ==> !self.spec_covers(j, x as int, y as int),
                spec_get_id(self@, x as int, y as int, i as int).is_none(),
            decreases self.inner.len() - i,
        {
            if self.inner[i].0 && self.inner[i].1.collidepoint(x, y) {
                proof {
                    lemma_get_id_stays(self@, x as int, y as int, i + 1, self@.len() as int);
                }
                return Some(i);
            }
            i += 1;
        }
        None
    }

    /// Whether slot `i` holds a living piece that covers the point.
    pub open spec fn spec_covers(&self, i: int, x: int, y: int) -> bool {
        spec_covers(self@, i, x, y)
    }

    /// Fills the cache of the living piece in slot `id` anew.
    pub fn refresh_piece(&mut self, id: PieceId)
        requires
            old(self).wf(),
            id < old(self)@.len(),
        ensures
            final(self)@ == old(self)@.update(id as int, (old(self)@[id as int].0, old(self)@[id as int].1.refreshed())),
            final(self).wf(),
            final(self).slots() == old(self).slots(),
    {
        proof {
            assert(self@[id as int].1.wf());
        }
        if self.inner[id].1.needs_init() {
            self.inner[id].1.init_auxiliary_data();
        } else {
            self.inner[id].1.update_travel_points_unchecked();
        }
        proof {
            assert(self@ =~= old(self)@.update(id as int, (old(self)@[id as int].0, old(self)@[id as int].1.refreshed())));
            assert forall|k: int| 0 <= k < self@.len() implies (#[trigger] self@[k]).1.id == k && self@[k].1.wf() by {
                assert(old(self)@[k].1.wf());
                lemma_refreshed_wf(old(self)@[k].1);
            }
            assert(self.slots() =~= old(self).slots());
        }
    }

    /// Get the piece with an id, if the piece exists and lives.
    pub fn get(&self, id: PieceId) -> (res: Option<&Piece>)
        ensures
            res is Some <==> id < self@.len() && self@[id as int].0,
            res matches Some(p) ==> p@ == self@[id as int].1,
    {
        if id < self.inner.len() && self.inner[id].0 {
            return Some(&self.inner[id].1);
        }
        None
    }

    /// Inits (or reinits) the auxiliary data of every living piece.
    pub fn init_all_auxiliary_data(&mut self)
        requires
            old(self).wf(),
        ensures
            final(self)@ == spec_init_all(old(self)@),
            final(self).wf(),
            final(self).slots() == old(self).slots(),
    {
        let mut i: usize = 0;
        proof {
            assert forall|k: int| 0 <= k < self.inner.len() implies (#[trigger] self.inner[k]).1@.core.wf() by {
                assert(self@[k].1.wf());
            }
        }
        while i < self.inner.len()
            invariant
                i <= self.inner.len(),
                self.inner.len() == old(self).inner.len(),
                forall|k: int| 0 <= k < self.inner.len() ==> (#[trigger] self.inner[k]).1@.core.wf(),
                forall|k: int| 0 <= k < i ==> (#[trigger] self.inner[k]).0 == old(self).inner[k].0 && self.inner[k].1@ == (
                if old(self).inner[k].0 {
                    old(self).inner[k].1@.refreshed()
                } else {
                    old(self).inner[k].1@
                }),
                forall|k: int| i <= k < self.inner.len() ==> #[trigger] self.inner[k] == old(self).inner[k],
            decreases self.inner.len() - i,
        {
            if self.inner[i].0 {
                self.inner[i].1.init_auxiliary_data();
            }
            i += 1;
        }
        proof {
            assert(self@ =~= spec_init_all(old(self)@));
            assert forall|k: int| 0 <= k < self@.len() implies (#[trigger] self@[k]).1.id == k && self@[k].1.wf() by {
                assert(old(self)@[k].1.wf());
                lemma_refreshed_wf(old(self)@[k].1);
            }
            assert(self.slots() =~= old(self).slots());
        }
    }
}


/// The slots with the piece in slot `id` centered at `center`.
pub open spec fn spec_set_center(slots: Seq<Slot>, id: int, center: (i64, i64)) -> Seq<Slot> {
    slots.update(id, Slot { core: CorePieceData { center, ..slots[id].core }, ..slots[id] })
}

/// The slots with the piece in slot `id` facing `angle`.
pub open spec fn spec_set_angle(slots: Seq<Slot>, id: int, angle: Angle) -> Seq<Slot> {
    slots.update(id, Slot { core: CorePieceData { angle, ..slots[id].core }, ..slots[id] })
}

/// The slots with the liveness of every slot named in `ids` set to `alive`.
pub open spec fn spec_set_alive(slots: Seq<Slot>, ids: Seq<PieceId>, alive: bool) -> Seq<Slot> {
    Seq::new(
        slots.len(),
        |i: int| if ids.contains(i as usize) {
            Slot { alive, ..slots[i] }
        } else {
            slots[i]
        },
    )
}

/// Whether `m` can be made on the slots: the piece that travels lives, the
/// captured slots exist, and the piece that rotates lives and is not
/// captured.
pub open spec fn spec_can_make(slots: Seq<Slot>, m: MoveView) -> bool {
    &&& m.travel.piece < slots.len() && slots[m.travel.piece as int].alive
    &&& forall|k: int| 0 <= k < m.travel.captures.len() ==> #[trigger] m.travel.captures[k] < slots.len()
    &&& m.rotate.piece < slots.len() && slots[m.rotate.piece as int].alive
    &&& !m.travel.captures.contains(m.rotate.piece)
}

/// The slots after `m`: the traveller at its destination, the captured
/// pieces dead, the rotated piece at its new facing.
pub open spec fn spec_make_move(slots: Seq<Slot>, m: MoveView) -> Seq<Slot> {
    spec_set_angle(
        spec_set_alive(spec_set_center(slots, m.travel.piece as int, m.travel.dest), m.travel.captures, false),
        m.rotate.piece as int,
        m.rotate.dest,
    )
}

/// Whether `m` can be taken back on the slots: both of its pieces live and
/// the captured slots exist.
pub open spec fn spec_can_unmake(slots: Seq<Slot>, m: MoveView) -> bool {
    &&& m.rotate.piece < slots.len() && slots[m.rotate.piece as int].alive
    &&& m.travel.piece < slots.len() && slots[m.travel.piece as int].alive
    &&& forall|k: int| 0 <= k < m.travel.captures.len() ==> #[trigger] m.travel.captures[k] < slots.len()
}

/// The slots after `m` is taken back: the rotated piece at its old facing,
/// the traveller at its source, the captured pieces alive.
pub open spec fn spec_unmake_move(slots: Seq<Slot>, m: MoveView) -> Seq<Slot> {
    spec_set_alive(
        spec_set_center(spec_set_angle(slots, m.rotate.piece as int, m.rotate.src), m.travel.piece as int, m.travel.src),
        m.travel.captures,
        true,
    )
}

/// The board after the piece in slot `id` has travelled to `(x, y)` by
/// hand: every other living piece that overlaps the destination is dead, and
/// the traveller is a queen with a fresh cache if it had to promote.
pub open spec fn spec_travel(board: Seq<(bool, PieceView)>, id: int, x: i64, y: i64) -> Seq<(bool, PieceView)> {
    Seq::new(
        board.len(),
        |i: int| if i == id {
            let old_core = board[i].1.core;
            let promoted = spec_should_promote(old_core.kind, old_core.side, y as int);
            let core = CorePieceData {
                center: (x, y),
                kind: if promoted { PieceKind::Queen } else { old_core.kind },
                ..old_core
            };
            (
                board[i].0,
                PieceView {
                    core,
                    cache: if promoted { Some(spec_travel_points(core)) } else { board[i].1.cache },
                    ..board[i].1
                },
            )
        } else {
            (board[i].0 && !spec_collidepiece(board[i].1.core.center, x as int, y as int), board[i].1)
        },
    )
}

/// Whether slot `i` holds a living piece other than the mover that would
/// overlap a piece centered at `(x, y)`.
///
/// A piece is other than the mover if its defining data differs.
pub open spec fn spec_hits(slots: Seq<Slot>, mover: CorePieceData, x: int, y: int, i: int) -> bool {
    slots[i].alive && slots[i].core != mover && spec_collidepiece(slots[i].core.center, x, y)
}

/// The slots among the first `n` that hit `(x, y)`, in ascending order.
pub open spec fn spec_overlapping(slots: Seq<Slot>, mover: CorePieceData, x: int, y: int, n: int) -> Seq<PieceId>
    decreases n,
{
    if n <= 0 {
        Seq::empty()
    } else if spec_hits(slots, mover, x, y, n - 1) {
        spec_overlapping(slots, mover, x, y, n - 1).push((n - 1) as usize)
    } else {
        spec_overlapping(slots, mover, x, y, n - 1)
    }
}

/// Every slot that `spec_overlapping` lists is among the first `n` and hits
/// `(x, y)`.
pub proof fn lemma_overlapping_hits(slots: Seq<Slot>, mover: CorePieceData, x: int, y: int, n: int)
    requires
        0 <= n <= slots.len(),
        n <= usize::MAX,
    ensures
        forall|k: int|
            0 <= k < spec_overlapping(slots, mover, x, y, n).len() ==> (#[trigger] spec_overlapping(
                slots,
                mover,
                x,
                y,
                n,
            )[k]) < n && spec_hits(slots, mover, x, y, spec_overlapping(slots, mover, x, y, n)[k] as int),
    decreases n,
{
    if n > 0 {
        lemma_overlapping_hits(slots, mover, x, y, n - 1);
        let prev = spec_overlapping(slots, mover, x, y, n - 1);
        let ov = spec_overlapping(slots, mover, x, y, n);
        assert forall|k: int| 0 <= k < ov.len() implies (#[trigger] ov[k]) < n && spec_hits(
            slots,
            mover,
            x,
            y,
            ov[k] as int,
        ) by {
            if k < prev.len() {
                assert(ov[k] == prev[k]);
            }
        }
    }
}

/// The slots of a board that was given new slots are those slots.
pub proof fn lemma_board_with_slots(board: Seq<(bool, PieceView)>, slots: Seq<Slot>)
    requires
        board.len() == slots.len(),
    ensures
        board_slots(board_with_slots(board, slots)) == slots,
        same_frame(board, board_with_slots(board, slots)),
{
    assert(board_slots(board_with_slots(board, slots)) =~= slots);
}

/// Whether a piece of the mover's own side hits `(x, y)`.
pub open spec fn spec_own_side_hit(slots: Seq<Slot>, mover: CorePieceData, x: int, y: int) -> bool {
    exists|i: int| 0 <= i < slots.len() && spec_hits(slots, mover, x, y, i) && slots[i].core.side == mover.side
}

/// Whether a piece at `p` stands in the way of a straight path from `src`
/// to `(x, y)`.
///
/// With `u` the path and `v` the vector from `src` to `p`, the piece blocks
/// if the projection of `v` on `u` lies strictly between zero and the length
/// of `u` plus one radius, and `p` is less than two radii away from the line
/// through the path. Both conditions are stated multiplied through by the
/// length of `u`, and squared where that length would remain.
pub open spec fn spec_blocks(src: (i64, i64), x: int, y: int, p: (i64, i64)) -> bool {
    let ux = x - src.0;
    let uy = y - src.1;
    let vx = p.0 - src.0;
    let vy = p.1 - src.1;
    let dot = ux * vx + uy * vy;
    let len2 = ux * ux + uy * uy;
    let cross = ux * vy - vx * uy;
    let over = dot - len2;
    &&& dot > 0
    &&& (over <= 0 || over * over < PIECE_RADIUS * PIECE_RADIUS * len2)
    &&& cross * cross < (2 * PIECE_RADIUS) * (2 * PIECE_RADIUS) * len2
}

/// Whether slot `i` holds a living piece other than the mover that blocks
/// the path to `(x, y)` and is not itself hit there.
pub open spec fn spec_in_the_way(slots: Seq<Slot>, mover: CorePieceData, x: int, y: int, i: int) -> bool {
    &&& slots[i].alive
    &&& slots[i].core != mover
    &&& spec_blocks(mover.center, x, y, slots[i].core.center)
    &&& !spec_collidepiece(slots[i].core.center, x, y)
}

/// Whether any piece is in the way of the path to `(x, y)`.
pub open spec fn spec_blocked(slots: Seq<Slot>, mover: CorePieceData, x: int, y: int) -> bool {
    exists|i: int| 0 <= i < slots.len() && spec_in_the_way(slots, mover, x, y, i)
}

/// Whether the mover may travel to `(x, y)` in the given way.
///
/// No piece of its own side may be hit; unless the mover jumps, no piece
/// may be in the way; and a capture needs a piece to be hit, a plain move
/// none.
pub open spec fn spec_legal(slots: Seq<Slot>, mover: CorePieceData, x: int, y: int, kind: TravelKind) -> bool {
    &&& !spec_own_side_hit(slots, mover, x, y)
    &&& mover.kind.spec_can_jump() || !spec_blocked(slots, mover, x, y)
    &&& match kind {
        TravelKind::Capture => spec_overlapping(slots, mover, x, y, slots.len() as int).len() > 0,
        TravelKind::Move => spec_overlapping(slots, mover, x, y, slots.len() as int).len() == 0,
    }
}

/// The travel of the mover to `(x, y)` if it is legal: it captures every
/// piece that is hit there.
pub open spec fn spec_travelable(
    slots: Seq<Slot>,
    id: PieceId,
    mover: CorePieceData,
    x: i64,
    y: i64,
    kind: TravelKind,
) -> Option<TravelPhaseView> {
    if spec_legal(slots, mover, x as int, y as int, kind) {
        Some(
            TravelPhaseView {
                piece: id,
                src: mover.center,
                dest: (x, y),
                captures: spec_overlapping(slots, mover, x as int, y as int, slots.len() as int),
            },
        )
    } else {
        None
    }
}

/// Whether a legal travel to `(x, y)` captures no more pieces than a travel
/// can hold.
pub open spec fn spec_captures_fit(slots: Seq<Slot>, mover: CorePieceData, x: int, y: int, kind: TravelKind) -> bool {
    spec_legal(slots, mover, x, y, kind) ==> spec_overlapping(slots, mover, x, y, slots.len() as int).len()
        <= MAX_CAPTURES
}

/// The scalar component of the vector from `start` to `point` along the one
/// from `start` to `dir`, times the length of the latter.
fn scalar_comp(start: (i64, i64), point: (i64, i64), dir: (i64, i64)) -> (res: i128)
    requires
        point_in_range(start),
        point_in_range(point),
        point_in_range(dir),
    ensures
        res == (dir.0 - start.0) * (point.0 - start.0) + (dir.1 - start.1) * (point.1 - start.1),
        -2_000_000_000_000_000_000 <= res <= 2_000_000_000_000_000_000,
{
    let ux: i128 = dir.0 as i128 - start.0 as i128;
    let uy: i128 = dir.1 as i128 - start.1 as i128;
    let vx: i128 = point.0 as i128 - start.0 as i128;
    let vy: i128 = point.1 as i128 - start.1 as i128;
    proof {
        lemma_mul_bound(ux as int, vx as int, 1_000_000_000, 1_000_000_000);
        lemma_mul_bound(uy as int, vy as int, 1_000_000_000, 1_000_000_000);
    }
    ux * vx + uy * vy
}

/// The distance from `point` to the line through `start` and `end`, times
/// the distance between those two, and with a sign.
fn point_to_line_dist(start: (i64, i64), end: (i64, i64), point: (i64, i64)) -> (res: i128)
    requires
        point_in_range(start),
        point_in_range(point),
        point_in_range(end),
    ensures
        res == (end.0 - start.0) * (point.1 - start.1) - (point.0 - start.0) * (end.1 - start.1),
        -2_000_000_000_000_000_000 <= res <= 2_000_000_000_000_000_000,
{
    let ux: i128 = end.0 as i128 - start.0 as i128;
    let uy: i128 = end.1 as i128 - start.1 as i128;
    let vx: i128 = point.0 as i128 - start.0 as i128;
    let vy: i128 = point.1 as i128 - start.1 as i128;
    proof {
        lemma_mul_bound(ux as int, vy as int, 1_000_000_000, 1_000_000_000);
        lemma_mul_bound(vx as int, uy as int, 1_000_000_000, 1_000_000_000);
    }
    ux * vy - vx * uy
}

/// Whether a piece at `point` stands in the way of the path from `start` to
/// `end`.
fn blocks(start: (i64, i64), end: (i64, i64), point: (i64, i64)) -> (res: bool)
    requires
        point_in_range(start),
        point_in_range(point),
        point_in_range(end),
    ensures
        res == spec_blocks(start, end.0 as int, end.1 as int, point),
{
    let dot: i128 = scalar_comp(start, point, end);
    if dot <= 0 {
        return false;
    }
    let len2: i128 = scalar_comp(start, end, end);
    let cross: i128 = point_to_line_dist(start, end, point);
    let over: i128 = dot - len2;
    let r: i128 = PIECE_RADIUS as i128;
    proof {
        lemma_mul_bound(over as int, over as int, 4_000_000_000_000_000_000, 4_000_000_000_000_000_000);
        lemma_mul_bound(cross as int, cross as int, 2_000_000_000_000_000_000, 2_000_000_000_000_000_000);
        lemma_mul_bound(r * r, len2 as int, 115_600_000_000, 2_000_000_000_000_000_000);
        assert(r * r == 115_600_000_000 && (2 * r) * (2 * r) == 462_400_000_000) by (nonlinear_arith)
            requires r == 340_000;
        lemma_mul_bound((2 * r) * (2 * r), len2 as int, 462_400_000_000, 2_000_000_000_000_000_000);
        assert(cross == (end.0 - start.0) * (point.1 - start.1) - (point.0 - start.0) * (end.1 - start.1));
    }
    let near: bool = over <= 0 || over * over < r * r * len2;
    let close: bool = cross * cross < (2 * r) * (2 * r) * len2;
    near && close
}

impl Pieces {
    /// Applies a move that has been validated before: nothing is checked
    /// against the rules.
    pub fn make_move(&mut self, move_: &Move)
        requires
            old(self).wf(),
            spec_can_make(old(self).slots(), move_@),
            point_in_range(move_@.travel.dest),
            move_@.rotate.dest.wf(),
        ensures
            final(self)@ == board_with_slots(old(self)@, spec_make_move(old(self).slots(), move_@)),
            final(self).slots() == spec_make_move(old(self).slots(), move_@),
            final(self).wf(),
    {
        let tp = move_.travel.piece();
        self.set_piece_center(tp, move_.travel.dest());
        let caps = move_.travel.captures();
        self.set_alive(caps, false);
        let rp = move_.rotate.piece;
        self.set_piece_angle(rp, move_.rotate.dest);
        assert(self@ =~= board_with_slots(old(self)@, spec_make_move(old(self).slots(), move_@)));
    }

    /// Takes back a move that was made by [`Pieces::make_move`].
    pub fn unmake_move(&mut self, move_: &Move)
        requires
            old(self).wf(),
            spec_can_unmake(old(self).slots(), move_@),
            point_in_range(move_@.travel.src),
            move_@.rotate.src.wf(),
        ensures
            final(self)@ == board_with_slots(old(self)@, spec_unmake_move(old(self).slots(), move_@)),
            final(self).slots() == spec_unmake_move(old(self).slots(), move_@),
            final(self).wf(),
    {
        let rp = move_.rotate.piece;
        self.set_piece_angle(rp, move_.rotate.src);
        let tp = move_.travel.piece();
        self.set_piece_center(tp, move_.travel.src());
        let caps = move_.travel.captures();
        self.set_alive(caps, true);
        assert(self@ =~= board_with_slots(old(self)@, spec_unmake_move(old(self).slots(), move_@)));
    }

    /// Puts the piece in slot `id` at `center`.
    fn set_piece_center(&mut self, id: PieceId, center: (i64, i64))
        requires
            old(self).wf(),
            id < old(self)@.len(),
            point_in_range(center),
        ensures
            final(self).slots() == spec_set_center(old(self).slots(), id as int, center),
            same_frame(old(self)@, final(self)@),
            final(self).wf(),
    {
        self.inner[id].1.set_center(center);
        proof {
            assert(self.slots() =~= spec_set_center(old(self).slots(), id as int, center));
            assert forall|k: int| 0 <= k < self@.len() implies (#[trigger] self@[k]).1.id == k && self@[k].1.wf() by {
                assert(old(self)@[k].1.wf());
            }
        }
    }

    /// Turns the piece in slot `id` to face `angle`.
    fn set_piece_angle(&mut self, id: PieceId, angle: Angle)
        requires
            old(self).wf(),
            id < old(self)@.len(),
            angle.wf(),
        ensures
            final(self).slots() == spec_set_angle(old(self).slots(), id as int, angle),
            same_frame(old(self)@, final(self)@),
            final(self).wf(),
    {
        self.inner[id].1.set_angle(angle);
        proof {
            assert(self.slots() =~= spec_set_angle(old(self).slots(), id as int, angle));
            assert forall|k: int| 0 <= k < self@.len() implies (#[trigger] self@[k]).1.id == k && self@[k].1.wf() by {
                assert(old(self)@[k].1.wf());
            }
        }
    }

    /// Sets the liveness of every slot named in `ids`.
    fn set_alive(&mut self, ids: &[PieceId], alive: bool)
        requires
            old(self).wf(),
            forall|k: int| 0 <= k < ids@.len() ==> #[trigger] ids@[k] < old(self)@.len(),
        ensures
            final(self).slots() == spec_set_alive(old(self).slots(), ids@, alive),
            same_frame(old(self)@, final(self)@),
            final(self).wf(),
    {
        let mut i: usize = 0;
        while i < ids.len()
            invariant
                i <= ids.len(),
                self.inner.len() == old(self).inner.len(),
                forall|k: int| 0 <= k < ids@.len() ==> #[trigger] ids@[k] < self.inner.len(),
                forall|k: int| 0 <= k < self.inner.len() ==> (#[trigger] self.inner[k]).1 == old(self).inner[k].1,
                forall|k: int| 0 <= k < self.inner.len() ==> (#[trigger] self.inner[k]).0 == (if ids@.take(i as int).contains(
                    k as usize,
                ) {
                    alive
                } else {
                    old(self).inner[k].0
                }),
            decreases ids.len() - i,
        {
            let id = ids[i];
            self.inner[id].0 = alive;
            proof {
                let before = ids@.take(i as int);
                let after = ids@.take(i + 1);
                assert(after =~= before.push(id));
                assert forall|k: int| 0 <= k < self.inner.len() implies (#[trigger] self.inner[k]).0 == (if after.contains(
                    k as usize,
                ) {
                    alive
                } else {
                    old(self).inner[k].0
                }) by {
                    if k == id {
                        assert(after[i as int] == id);
                    } else if before.contains(k as usize) {
                        let w = choose|w: int| 0 <= w < before.len() && before[w] == k as usize;
                        assert(after[w] == k as usize);
                    } else if after.contains(k as usize) {
                        let w = choose|w: int| 0 <= w < after.len() && after[w] == k as usize;
                        assert(w < i);
                        assert(before[w] == k as usize);
                    }
                }
            }
            i += 1;
        }
        proof {
            assert(ids@.take(ids@.len() as int) =~= ids@);
            assert(self.slots() =~= spec_set_alive(old(self).slots(), ids@, alive));
            assert forall|k: int| 0 <= k < self@.len() implies (#[trigger] self@[k]).1.id == k && self@[k].1.wf() by {
                assert(old(self)@[k].1.wf());
            }
        }
    }

    /// Move the piece at id to x, y by hand.
    ///
    /// Every other living piece that overlaps the destination is marked
    /// dead. A piece that reaches its promotion rank becomes a queen, and its
    /// cache is filled anew.
    pub fn travel(&mut self, id: PieceId, x: i64, y: i64)
        requires
            old(self).wf(),
            id < old(self)@.len(),
            point_in_range((x, y)),
        ensures
            final(self)@ == spec_travel(old(self)@, id as int, x, y),
            final(self).wf(),
    {
        let mut i: usize = 0;
        while i < self.inner.len()
            invariant
                i <= self.inner.len(),
                self.inner.len() == old(self).inner.len(),
                id < self.inner.len(),
                forall|k: int| 0 <= k < self.inner.len() ==> (#[trigger] self.inner[k]).1 == old(self).inner[k].1,
                forall|k: int| 0 <= k < i && k != id ==> (#[trigger] self.inner[k]).0 == (old(self).inner[k].0
                    && !spec_collidepiece(old(self).inner[k].1@.core.center, x as int, y as int)),
                forall|k: int|
                    (i <= k < self.inner.len() || k == id) && 0 <= k < self.inner.len() ==> (#[trigger] self.inner[k]).0
                        == old(self).inner[k].0,
            decreases self.inner.len() - i,
        {
            if i != id && self.inner[i].0 && self.inner[i].1.collidepiece(x, y) {
                self.inner[i].0 = false;
            }
            i += 1;
        }
        proof {
            assert(old(self)@[id as int].1.wf());
        }
        self.inner[id].1.set_x(x);
        self.inner[id].1.set_y(y);
        if Piece::should_promote(self.inner[id].1.kind(), self.inner[id].1.side(), y) {
            self.inner[id].1.set_kind(PieceKind::Queen);
            self.inner[id].1.init_auxiliary_data();
        }
        proof {
            assert(self@ =~= spec_travel(old(self)@, id as int, x, y));
            assert forall|k: int| 0 <= k < self@.len() implies (#[trigger] self@[k]).1.id == k && self@[k].1.wf() by {
                assert(old(self)@[k].1.wf());
                if k == id {
                    let core = self@[k].1.core;
                    lemma_refreshed_wf(PieceView { core, ..old(self)@[k].1 });
                }
            }
        }
    }
}


impl Pieces {
    /// Get a mutable piece given an id, if the piece exists and lives.
    pub fn get_mut(&mut self, id: PieceId) -> (res: Option<&mut Piece>)
        ensures
            res is Some <==> id < old(self)@.len() && old(self)@[id as int].0,
            res matches Some(p) ==> p@ == old(self)@[id as int].1 && final(self)@ == old(self)@.update(
                id as int,
                (true, final(p)@),
            ),
            res is None ==> final(self)@ == old(self)@,
    {
        if id < self.inner.len() && self.inner[id].0 {
            return Some(&mut self.inner[id].1);
        }
        None
    }

    /// The legality oracle: the travel of `piece` to `(x, y)`, if it is
    /// legal.
    ///
    /// A travel is legal if no piece of its own side overlaps the
    /// destination, nothing stands in its path unless the piece jumps, and
    /// the destination is occupied for a capture and free for a plain move.
    /// Every piece that overlaps the destination is captured, in the order of
    /// the identifiers.
    pub fn travelable(&self, piece: &Piece, x: i64, y: i64, kind: TravelKind) -> (res: Option<TravelPhase>)
        requires
            self.wf(),
            piece@.core.wf(),
            point_in_range((x, y)),
            spec_captures_fit(self.slots(), piece@.core, x as int, y as int, kind),
        ensures
            match res {
                Some(phase) => Some(phase@) == spec_travelable(self.slots(), piece@.id, piece@.core, x, y, kind),
                None => spec_travelable(self.slots(), piece@.id, piece@.core, x, y, kind).is_none(),
            },
    {
        let (legal, pieces_overlapping_endpoint) = self.legality(piece, x, y, kind);
        if legal {
            Some(Self::travelphase_answer(piece, x, y, &pieces_overlapping_endpoint))
        } else {
            None
        }
    }

    /// The travel of `piece` to `(x, y)` if it is legal, or an error if it is
    /// legal and captures more pieces than a travel can hold.
    pub fn try_travelable(&self, piece: &Piece, x: i64, y: i64, kind: TravelKind) -> (res: Result<
        Option<TravelPhase>,
        BoardError,
    >)
        requires
            self.wf(),
            piece@.core.wf(),
            point_in_range((x, y)),
        ensures
            !spec_captures_fit(self.slots(), piece@.core, x as int, y as int, kind) ==> res == Err::<
                Option<TravelPhase>,
                BoardError,
            >(BoardError::TooManyCaptures),
            spec_captures_fit(self.slots(), piece@.core, x as int, y as int, kind) ==> res is Ok && match res.unwrap() {
                Some(phase) => Some(phase@) == spec_travelable(self.slots(), piece@.id, piece@.core, x, y, kind),
                None => spec_travelable(self.slots(), piece@.id, piece@.core, x, y, kind).is_none(),
            },
    {
        let (legal, pieces_overlapping_endpoint) = self.legality(piece, x, y, kind);
        if !legal {
            Ok(None)
        } else if pieces_overlapping_endpoint.len() > MAX_CAPTURES {
            Err(BoardError::TooManyCaptures)
        } else {
            Ok(Some(Self::travelphase_answer(piece, x, y, &pieces_overlapping_endpoint)))
        }
    }

    /// Whether `piece` may travel to `(x, y)` in the given way.
    pub fn is_travelable(&self, piece: &Piece, x: i64, y: i64, kind: TravelKind) -> (res: bool)
        requires
            self.wf(),
            piece@.core.wf(),
            point_in_range((x, y)),
        ensures
            res == spec_legal(self.slots(), piece@.core, x as int, y as int, kind),
    {
        self.legality(piece, x, y, kind).0
    }

    /// Whether `piece` may travel to `(x, y)`, and the pieces that overlap
    /// the destination if it may.
    fn legality(&self, piece: &Piece, x: i64, y: i64, kind: TravelKind) -> (res: (bool, Vec<PieceId>))
        requires
            self.wf(),
            piece@.core.wf(),
            point_in_range((x, y)),
        ensures
            res.0 == spec_legal(self.slots(), piece@.core, x as int, y as int, kind),
            res.0 ==> res.1@ == spec_overlapping(self.slots(), piece@.core, x as int, y as int, self.slots().len() as int),
    {
        let ghost slots = self.slots();
        let ghost mover = piece@.core;
        let n = self.inner.len();
        let mut pieces_overlapping_endpoint: Vec<PieceId> = Vec::new();

        // disallow capturing own side. also find which pieces overlap the endpoint
        let mut i: usize = 0;
        while i < n
            invariant
                i <= n,
                n == self.inner.len(),
                slots == self.slots(),
                mover == piece@.core,
                pieces_overlapping_endpoint@ == spec_overlapping(slots, mover, x as int, y as int, i as int),
                forall|k: int| 0 <= k < i ==> !(#[trigger] spec_hits(slots, mover, x as int, y as int, k)
                    && slots[k].core.side == mover.side),
            decreases n - i,
        {
            let alive = self.inner[i].0;
            let other_piece = &self.inner[i].1;
            assert(slots[i as int] == Slot { alive, core: other_piece@.core });
            if alive && !other_piece.same_core(piece) && other_piece.collidepiece(x, y) {
                pieces_overlapping_endpoint.push(i);
                if other_piece.side() == piece.side() {
                    assert(spec_hits(slots, mover, x as int, y as int, i as int));
                    return (false, pieces_overlapping_endpoint);
                }
            }
            i += 1;
        }
        assert(!spec_own_side_hit(slots, mover, x as int, y as int));

        let fits: bool = match kind {
            TravelKind::Capture => pieces_overlapping_endpoint.len() > 0,
            TravelKind::Move => pieces_overlapping_endpoint.len() == 0,
        };
        if piece.kind().can_jump() {
            return (fits, pieces_overlapping_endpoint);
        }
        let src = piece.center();
        let mut in_the_way: usize = 0;
        let mut j: usize = 0;
        while j < n
            invariant
                j <= n,
                n == self.inner.len(),
                self.wf(),
                slots == self.slots(),
                mover == piece@.core,
                mover.wf(),
                src == mover.center,
                point_in_range((x, y)),
                in_the_way <= j,
                in_the_way == 0 <==> forall|k: int| 0 <= k < j ==> !#[trigger] spec_in_the_way(
                    slots,
                    mover,
                    x as int,
                    y as int,
                    k,
                ),
            decreases n - j,
        {
            let alive = self.inner[j].0;
            let other_piece = &self.inner[j].1;
            assert(slots[j as int] == Slot { alive, core: other_piece@.core });
            assert(self@[j as int].1.wf());
            if alive && !other_piece.same_core(piece) {
                if blocks(src, (x, y), other_piece.center()) {
                    // within reach of the path: we are blocked unless this piece is captured.
                    if !other_piece.collidepiece(x, y) {
                        assert(spec_in_the_way(slots, mover, x as int, y as int, j as int));
                        in_the_way += 1;
                    }
                }
            }
            j += 1;
        }
        if in_the_way > 0 {
            return (false, pieces_overlapping_endpoint);
        }
        assert(!spec_blocked(slots, mover, x as int, y as int));
        (fits, pieces_overlapping_endpoint)
    }

    /// Packs a legal travel of `piece` to `(x, y)` that captures `overlaps`.
    fn travelphase_answer(piece: &Piece, x: i64, y: i64, overlaps: &Vec<PieceId>) -> (res: TravelPhase)
        requires
            overlaps.len() <= MAX_CAPTURES,
        ensures
            res@ == (TravelPhaseView { piece: piece@.id, src: piece@.core.center, dest: (x, y), captures: overlaps@ }),
    {
        let len = overlaps.len();
        let mut capture_ids: [PieceId; 4] = [0; 4];
        let mut i: usize = 0;
        while i < len
            invariant
                i <= len,
                len == overlaps.len(),
                len <= MAX_CAPTURES,
                forall|k: int| 0 <= k < i ==> #[trigger] capture_ids[k] == overlaps[k],
            decreases len - i,
        {
            capture_ids[i] = overlaps[i];
            i += 1;
        }
        assert(capture_ids@.take(len as int) =~= overlaps@);
        TravelPhase::new(piece.id(), piece.center(), (x, y), (len, capture_ids))
    }
}


/// Whether `m` starts from the slots as they are: the traveller stands at
/// the source, the rotated piece faces the source facing, every captured
/// piece lives, and the traveller is not captured.
pub open spec fn spec_move_matches(slots: Seq<Slot>, m: MoveView) -> bool {
    &&& spec_can_make(slots, m)
    &&& slots[m.travel.piece as int].core.center == m.travel.src
    &&& slots[m.rotate.piece as int].core.angle == m.rotate.src
    &&& forall|k: int| 0 <= k < m.travel.captures.len() ==> slots[#[trigger] m.travel.captures[k] as int].alive
    &&& !m.travel.captures.contains(m.travel.piece)
}

/// Taking back a move that was made restores every center, facing, kind,
/// side and liveness.
pub proof fn lemma_unmake_restores(slots: Seq<Slot>, m: MoveView)
    requires
        slots.len() <= usize::MAX,
        spec_move_matches(slots, m),
    ensures
        spec_can_unmake(spec_make_move(slots, m), m),
        spec_unmake_move(spec_make_move(slots, m), m) == slots,
{
    let tp = m.travel.piece as int;
    let rp = m.rotate.piece as int;
    let caps = m.travel.captures;
    let s1 = spec_set_center(slots, tp, m.travel.dest);
    let s2 = spec_set_alive(s1, caps, false);
    let made = spec_set_angle(s2, rp, m.rotate.dest);
    assert(made == spec_make_move(slots, m));
    let u1 = spec_set_angle(made, rp, m.rotate.src);
    let u2 = spec_set_center(u1, tp, m.travel.src);
    let back = spec_set_alive(u2, caps, true);
    assert(back == spec_unmake_move(made, m));
    assert(!caps.contains(tp as usize) && !caps.contains(rp as usize));
    assert(made[tp].alive && made[rp].alive);
    assert forall|i: int| 0 <= i < slots.len() implies back[i] == slots[i] by {
        if caps.contains(i as usize) {
            let k = choose|k: int| 0 <= k < caps.len() && caps[k] == i as usize;
            assert(slots[caps[k] as int].alive);
            assert(i != tp && i != rp);
        }
    }
    assert(back =~= slots);
}

/// A legal travel of a living piece of the board, with the piece keeping
/// its facing, is a move that starts from the board as it is; so taking it
/// back after making it restores the board.
pub proof fn lemma_legal_move_round_trip(slots: Seq<Slot>, id: PieceId, x: i64, y: i64, kind: TravelKind)
    requires
        id < slots.len() <= usize::MAX,
        slots[id as int].alive,
        spec_travelable(slots, id, slots[id as int].core, x, y, kind).is_some(),
    ensures
        ({
            let m = MoveView {
                travel: spec_travelable(slots, id, slots[id as int].core, x, y, kind).unwrap(),
                rotate: RotationPhase {
                    piece: id,
                    src: slots[id as int].core.angle,
                    dest: slots[id as int].core.angle,
                },
            };
            &&& spec_move_matches(slots, m)
            &&& spec_unmake_move(spec_make_move(slots, m), m) == slots
        }),
{
    let mover = slots[id as int].core;
    let m = MoveView {
        travel: spec_travelable(slots, id, mover, x, y, kind).unwrap(),
        rotate: RotationPhase { piece: id, src: mover.angle, dest: mover.angle },
    };
    lemma_overlapping_hits(slots, mover, x as int, y as int, slots.len() as int);
    let caps = m.travel.captures;
    assert forall|k: int| 0 <= k < caps.len() implies #[trigger] caps[k] < slots.len() && slots[caps[k] as int].alive
        && caps[k] != id by {
        assert(spec_hits(slots, mover, x as int, y as int, caps[k] as int));
    }
    lemma_unmake_restores(slots, m);
}

/// Whether no two living pieces overlap: their centers are at least two
/// radii apart.
pub open spec fn spec_apart(slots: Seq<Slot>) -> bool {
    forall|i: int, j: int|
        0 <= i < slots.len() && 0 <= j < slots.len() && i != j && (#[trigger] slots[i]).alive && (#[trigger] slots[j]).alive
            ==> !spec_collidepiece(slots[i].core.center, slots[j].core.center.0 as int, slots[j].core.center.1 as int)
}

/// A legal travel keeps the living pieces apart: whatever overlapped the
/// destination has been captured.
pub proof fn lemma_legal_move_keeps_apart(slots: Seq<Slot>, id: PieceId, x: i64, y: i64, kind: TravelKind)
    requires
        id < slots.len() <= usize::MAX,
        slots[id as int].alive,
        spec_apart(slots),
        spec_travelable(slots, id, slots[id as int].core, x, y, kind).is_some(),
    ensures
        spec_apart(
            spec_make_move(
                slots,
                MoveView {
                    travel: spec_travelable(slots, id, slots[id as int].core, x, y, kind).unwrap(),
                    rotate: RotationPhase {
                        piece: id,
                        src: slots[id as int].core.angle,
                        dest: slots[id as int].core.angle,
                    },
                },
            ),
        ),
{
    let mover = slots[id as int].core;
    let m = MoveView {
        travel: spec_travelable(slots, id, mover, x, y, kind).unwrap(),
        rotate: RotationPhase { piece: id, src: mover.angle, dest: mover.angle },
    };
    let made = spec_make_move(slots, m);
    let caps = m.travel.captures;
    lemma_overlapping_hits(slots, mover, x as int, y as int, slots.len() as int);
    lemma_overlapping_complete(slots, mover, x as int, y as int, slots.len() as int);
    lemma_collide_self(mover.center);
    assert forall|i: int, j: int|
        0 <= i < made.len() && 0 <= j < made.len() && i != j && (#[trigger] made[i]).alive
            && (#[trigger] made[j]).alive implies !spec_collidepiece(
        made[i].core.center,
        made[j].core.center.0 as int,
        made[j].core.center.1 as int,
    ) by {
        assert(slots[i].alive && slots[j].alive);
        assert(!caps.contains(i as usize) && !caps.contains(j as usize));
        if i == id {
            // `j` lives and was not captured, so it does not hit the destination.
            assert(slots[j].core != mover) by {
                if slots[j].core == mover {
                    assert(spec_collidepiece(slots[j].core.center, mover.center.0 as int, mover.center.1 as int));
                }
            }
            assert(!spec_hits(slots, mover, x as int, y as int, j));
            lemma_collide_symmetric(made[j].core.center, (x, y));
        } else if j == id {
            assert(slots[i].core != mover) by {
                if slots[i].core == mover {
                    assert(spec_collidepiece(slots[i].core.center, mover.center.0 as int, mover.center.1 as int));
                }
            }
            assert(!spec_hits(slots, mover, x as int, y as int, i));
        } else {
            assert(made[i].core == slots[i].core && made[j].core == slots[j].core);
        }
    }
}

/// Every slot among the first `n` that hits `(x, y)` is listed by
/// `spec_overlapping`.
pub proof fn lemma_overlapping_complete(slots: Seq<Slot>, mover: CorePieceData, x: int, y: int, n: int)
    requires
        0 <= n <= slots.len(),
        n <= usize::MAX,
    ensures
        forall|i: int| 0 <= i < n && spec_hits(slots, mover, x, y, i) ==> spec_overlapping(slots, mover, x, y, n).contains(
            i as usize,
        ),
    decreases n,
{
    if n > 0 {
        lemma_overlapping_complete(slots, mover, x, y, n - 1);
        let prev = spec_overlapping(slots, mover, x, y, n - 1);
        let ov = spec_overlapping(slots, mover, x, y, n);
        assert forall|i: int| 0 <= i < n && spec_hits(slots, mover, x, y, i) implies ov.contains(i as usize) by {
            if i == n - 1 {
                assert(ov[ov.len() - 1] == i as usize);
            } else {
                let k = choose|k: int| 0 <= k < prev.len() && prev[k] == i as usize;
                assert(ov[k] == i as usize);
            }
        }
    }
}

/// A piece overlaps one at its own center.
pub proof fn lemma_collide_self(center: (i64, i64))
    ensures
        spec_collidepiece(center, center.0 as int, center.1 as int),
{
    lemma_collision_thresholds(center, 0, 0);
}

/// Overlap does not depend on which of the two pieces is asked.
pub proof fn lemma_collide_symmetric(a: (i64, i64), b: (i64, i64))
    ensures
        spec_collidepiece(a, b.0 as int, b.1 as int) == spec_collidepiece(b, a.0 as int, a.1 as int),
{
    let (ax, ay, bx, by) = (a.0 as int, a.1 as int, b.0 as int, b.1 as int);
    assert((bx - ax) * (bx - ax) + (by - ay) * (by - ay) == (ax - bx) * (ax - bx) + (ay - by) * (ay - by))
        by (nonlinear_arith);
}

/// A pawn that travels by hand to its promotion rank is a queen afterwards,
/// and its cache holds the travel points of that queen where it stands.
pub proof fn lemma_travel_promotes(board: Seq<(bool, PieceView)>, id: int, x: i64, y: i64)
    requires
        0 <= id < board.len(),
        spec_should_promote(board[id].1.core.kind, board[id].1.core.side, y as int),
    ensures
        spec_travel(board, id, x, y)[id].1.core.kind == PieceKind::Queen,
        spec_travel(board, id, x, y)[id].1.core.center == (x, y),
        spec_travel(board, id, x, y)[id].1.fresh(),
{
}


/// Two centers that differ by a whole board unit along an axis do not
/// overlap.
pub proof fn lemma_unit_apart(a: (i64, i64), b: (i64, i64))
    requires
        a.0 - b.0 >= UNIT || b.0 - a.0 >= UNIT || a.1 - b.1 >= UNIT || b.1 - a.1 >= UNIT,
    ensures
        !spec_collidepiece(a, b.0 as int, b.1 as int),
{
    let dx = b.0 - a.0;
    let dy = b.1 - a.1;
    assert(dx * dx + dy * dy >= 1_000_000_000_000) by (nonlinear_arith)
        requires dx >= 1_000_000 || dx <= -1_000_000 || dy >= 1_000_000 || dy <= -1_000_000;
    assert((2 * PIECE_RADIUS) * (2 * PIECE_RADIUS) == 462_400_000_000) by (nonlinear_arith);
}

/// In the initial layout, whatever its back rank, no two pieces overlap.
pub proof fn lemma_layout_apart(order: Seq<PieceKind>)
    ensures
        spec_apart(board_slots(spec_layout(order))),
{
    let slots = board_slots(spec_layout(order));
    assert forall|i: int, j: int|
        0 <= i < slots.len() && 0 <= j < slots.len() && i != j && (#[trigger] slots[i]).alive
            && (#[trigger] slots[j]).alive implies !spec_collidepiece(
        slots[i].core.center,
        slots[j].core.center.0 as int,
        slots[j].core.center.1 as int,
    ) by {
        assert(slots[i].core == spec_layout_piece(order, i).core);
        assert(slots[j].core == spec_layout_piece(order, j).core);
        lemma_unit_apart(slots[i].core.center, slots[j].core.center);
    }
}

/// A travel by hand keeps the living pieces apart: whatever overlapped the
/// destination is dead.
pub proof fn lemma_travel_keeps_apart(board: Seq<(bool, PieceView)>, id: int, x: i64, y: i64)
    requires
        0 <= id < board.len(),
        spec_apart(board_slots(board)),
    ensures
        spec_apart(board_slots(spec_travel(board, id, x, y))),
{
    let before = board_slots(board);
    let after = board_slots(spec_travel(board, id, x, y));
    assert forall|i: int, j: int|
        0 <= i < after.len() && 0 <= j < after.len() && i != j && (#[trigger] after[i]).alive
            && (#[trigger] after[j]).alive implies !spec_collidepiece(
        after[i].core.center,
        after[j].core.center.0 as int,
        after[j].core.center.1 as int,
    ) by {
        assert(before[i].alive && before[j].alive);
        if i == id {
            lemma_collide_symmetric(after[j].core.center, (x, y));
        } else if j == id {
        } else {
            assert(after[i].core == before[i].core && after[j].core == before[j].core);
        }
    }
}

} // verus!
