//! What the engine computes: the static evaluation, the moves of a side,
//! and the value of a fail-soft alpha-beta search.

use vstd::prelude::*;
use crate::board::{Slot, MAX_PIECES, spec_can_make, spec_captures_fit, spec_make_move, spec_travelable};
use crate::floating_drift::UNIT;
use crate::piece::{
    CorePieceData, PieceId, Side, TravelKind, spec_on_board, spec_tagged_points, spec_travel_points,
    lemma_drawable_points_on_board, lemma_mul_bound,
};
use crate::turn::{MoveView, RotationPhase, Score, TravelPhaseView};

verus! {

/// A score below every evaluation.
pub const NEG_INFINITY: Score = -0x7fff_ffff_ffff_ffff;

/// A score above every evaluation.
pub const INFINITY: Score = 0x7fff_ffff_ffff_ffff;

/// Depth of the search in plies.
pub const DEPTH: usize = 3;

/// Center of the board.
pub const CENTER_X: i64 = 4_000_000;

/// Center of the board.
pub const CENTER_Y: i64 = 4_000_000;

/// No piece is worth more than this to either side.
pub const PIECE_SCORE_LIMIT: i64 = 101_000_000_000;

/// Whether `r` is the square root of `n`, rounded down.
pub open spec fn spec_is_isqrt(n: int, r: int) -> bool {
    r >= 0 && r * r <= n && n < (r + 1) * (r + 1)
}

/// The square root of `n`, rounded down.
pub open spec fn spec_isqrt(n: int) -> int {
    choose|r: int| spec_is_isqrt(n, r)
}

/// A number has one rounded-down square root only.
pub proof fn lemma_isqrt_unique(n: int, r: int)
    requires
        spec_is_isqrt(n, r),
    ensures
        spec_isqrt(n) == r,
{
    let q = spec_isqrt(n);
    assert(spec_is_isqrt(n, q));
    assert(q == r) by (nonlinear_arith)
        requires
            q >= 0 && q * q <= n && n < (q + 1) * (q + 1),
            r >= 0 && r * r <= n && n < (r + 1) * (r + 1);
}

/// The square root of `n`, rounded down.
pub fn isqrt(n: u64) -> (res: u64)
    ensures
        res == spec_isqrt(n as int),
        spec_is_isqrt(n as int, res as int),
        res < 0x1_0000_0000,
{
    let mut lo: u64 = 0;
    let mut hi: u64 = 0x1_0000_0000;
    assert(0x1_0000_0000 * 0x1_0000_0000 > n) by (nonlinear_arith)
        requires n <= 0xffff_ffff_ffff_ffff;
    while hi - lo > 1
        invariant
            lo < hi <= 0x1_0000_0000,
            lo * lo <= n,
            n < hi * hi,
        decreases hi - lo,
    {
        let mid: u64 = lo + (hi - lo) / 2;
        assert(mid * mid <= 0xffff_ffff * 0xffff_ffff) by (nonlinear_arith)
            requires 0 <= mid <= 0xffff_ffff;
        if mid * mid <= n {
            lo = mid;
        } else {
            hi = mid;
        }
    }
    proof {
        lemma_isqrt_unique(n as int, lo as int);
    }
    lo
}

/// Whether the slots are valid: within capacity, with valid defining data.
pub open spec fn slots_wf(slots: Seq<Slot>) -> bool {
    &&& slots.len() <= MAX_PIECES
    &&& forall|i: int| 0 <= i < slots.len() ==> (#[trigger] slots[i]).core.wf()
}

/// What a piece is worth to its own side: a hundred times its material
/// value, and five board units less its distance from the center of the
/// board, rounded down.
pub open spec fn spec_piece_score(core: CorePieceData) -> int {
    core.kind.spec_value() * 100 + (5 * UNIT - spec_isqrt(
        (core.center.0 - CENTER_X) * (core.center.0 - CENTER_X) + (core.center.1 - CENTER_Y) * (core.center.1
            - CENTER_Y),
    ))
}

/// The static evaluation of the first `n` slots for the side `to_move`: the
/// worth of its living pieces less the worth of the other side's.
pub open spec fn spec_eval(slots: Seq<Slot>, to_move: Side, n: int) -> int
    decreases n,
{
    if n <= 0 {
        0
    } else {
        spec_eval(slots, to_move, n - 1) + (if !slots[n - 1].alive {
            0
        } else if slots[n - 1].core.side == to_move {
            spec_piece_score(slots[n - 1].core)
        } else {
            -spec_piece_score(slots[n - 1].core)
        })
    }
}

/// The squared distance of a valid center from the center of the board fits
/// in 64 bits, and no piece is worth more than `PIECE_SCORE_LIMIT`.
pub proof fn lemma_piece_score_bound(core: CorePieceData)
    requires
        core.wf(),
    ensures
        0 <= (core.center.0 - CENTER_X) * (core.center.0 - CENTER_X) + (core.center.1 - CENTER_Y) * (core.center.1
            - CENTER_Y) <= 600_000_000_000_000_000,
        0 <= spec_isqrt(
            (core.center.0 - CENTER_X) * (core.center.0 - CENTER_X) + (core.center.1 - CENTER_Y) * (core.center.1
                - CENTER_Y),
        ) < 1_000_000_000,
        -PIECE_SCORE_LIMIT <= spec_piece_score(core) <= PIECE_SCORE_LIMIT,
{
    let dx = core.center.0 - CENTER_X;
    let dy = core.center.1 - CENTER_Y;
    let d2 = dx * dx + dy * dy;
    lemma_mul_bound(dx, dx, 504_000_000, 504_000_000);
    lemma_mul_bound(dy, dy, 504_000_000, 504_000_000);
    assert(dx * dx >= 0 && dy * dy >= 0) by (nonlinear_arith);
    let r = spec_isqrt(d2);
    assert(spec_is_isqrt(d2, r)) by {
        lemma_isqrt_exists(d2);
    }
    assert(r < 1_000_000_000) by (nonlinear_arith)
        requires
            r >= 0,
            r * r <= d2,
            d2 <= 600_000_000_000_000_000;
}

/// Every number from zero on has a rounded-down square root.
pub proof fn lemma_isqrt_exists(n: int)
    requires
        n >= 0,
    ensures
        spec_is_isqrt(n, spec_isqrt(n)),
    decreases n,
{
    if n == 0 {
        assert(spec_is_isqrt(0, 0));
    } else {
        lemma_isqrt_exists(n - 1);
        let r = spec_isqrt(n - 1);
        if n < (r + 1) * (r + 1) {
            assert(spec_is_isqrt(n, r));
        } else {
            assert(spec_is_isqrt(n, r + 1)) by (nonlinear_arith)
                requires
                    r >= 0,
                    r * r <= n - 1,
                    n - 1 < (r + 1) * (r + 1),
                    n >= (r + 1) * (r + 1);
        }
    }
}

/// The evaluation of `n` valid slots is within `n` times the limit of one
/// piece.
pub proof fn lemma_eval_bound(slots: Seq<Slot>, to_move: Side, n: int)
    requires
        slots_wf(slots),
        0 <= n <= slots.len(),
    ensures
        -n * PIECE_SCORE_LIMIT <= spec_eval(slots, to_move, n) <= n * PIECE_SCORE_LIMIT,
    decreases n,
{
    if n > 0 {
        lemma_eval_bound(slots, to_move, n - 1);
        lemma_piece_score_bound(slots[n - 1].core);
        assert((n - 1) * PIECE_SCORE_LIMIT + PIECE_SCORE_LIMIT == n * PIECE_SCORE_LIMIT) by (nonlinear_arith);
        assert(-(n - 1) * PIECE_SCORE_LIMIT - PIECE_SCORE_LIMIT == -n * PIECE_SCORE_LIMIT) by (nonlinear_arith);
    }
}

/// The static evaluation is antisymmetric: what a board is worth to one
/// side is the negation of what it is worth to the other.
pub proof fn lemma_eval_antisymmetric(slots: Seq<Slot>, n: int)
    ensures
        spec_eval(slots, Side::White, n) == -spec_eval(slots, Side::Black, n),
    decreases n,
{
    if n > 0 {
        lemma_eval_antisymmetric(slots, n - 1);
    }
}

/// The engine's move for the travel `t` of piece `id`: the piece keeps its
/// facing.
pub open spec fn spec_engine_move(slots: Seq<Slot>, id: PieceId, t: TravelPhaseView) -> MoveView {
    MoveView {
        travel: t,
        rotate: RotationPhase { piece: id, src: slots[id as int].core.angle, dest: slots[id as int].core.angle },
    }
}

/// The moves of piece `id` to those of the first `n` of `points` to which
/// it may travel, in order.
pub open spec fn spec_point_moves(slots: Seq<Slot>, id: PieceId, points: Seq<(TravelKind, i64, i64)>, n: int) -> Seq<
    MoveView,
>
    decreases n,
{
    if n <= 0 {
        Seq::empty()
    } else {
        let prev = spec_point_moves(slots, id, points, n - 1);
        let p = points[n - 1];
        match spec_travelable(slots, id, slots[id as int].core, p.1, p.2, p.0) {
            Some(t) => prev.push(spec_engine_move(slots, id, t)),
            None => prev,
        }
    }
}

/// The travel points of the piece in slot `id`, freshly computed.
pub open spec fn spec_fresh_points(slots: Seq<Slot>, id: int) -> Seq<(TravelKind, i64, i64)> {
    spec_tagged_points(spec_travel_points(slots[id].core))
}

/// The moves of piece `id`: one for each of its travel points to which it
/// may travel, move points first.
pub open spec fn spec_piece_moves(slots: Seq<Slot>, id: PieceId) -> Seq<MoveView> {
    spec_point_moves(slots, id, spec_fresh_points(slots, id as int), spec_fresh_points(slots, id as int).len() as int)
}

/// The moves of the living pieces of `side` among the first `n` slots, in
/// the order of the identifiers.
pub open spec fn spec_all_moves(slots: Seq<Slot>, side: Side, n: int) -> Seq<MoveView>
    decreases n,
{
    if n <= 0 {
        Seq::empty()
    } else if slots[n - 1].alive && slots[n - 1].core.side == side {
        spec_all_moves(slots, side, n - 1) + spec_piece_moves(slots, (n - 1) as usize)
    } else {
        spec_all_moves(slots, side, n - 1)
    }
}

/// Whether no legal travel of a living piece of `side` to one of its travel
/// points captures more pieces than a travel can hold.
pub open spec fn spec_moves_fit(slots: Seq<Slot>, side: Side) -> bool {
    forall|id: int, j: int|
        0 <= id < slots.len() && slots[id].alive && slots[id].core.side == side && 0 <= j < spec_fresh_points(
            slots,
            id,
        ).len() ==> #[trigger] spec_point_fits(slots, id, j)
}

/// Whether a legal travel of piece `id` to its `j`-th travel point captures
/// no more pieces than a travel can hold.
pub open spec fn spec_point_fits(slots: Seq<Slot>, id: int, j: int) -> bool {
    let p = spec_fresh_points(slots, id)[j];
    spec_captures_fit(slots, slots[id].core, p.1 as int, p.2 as int, p.0)
}

/// The value of the position for the side to move, searched `depth` plies
/// deep with the window `(alpha, beta)`.
///
/// At depth zero it is the static evaluation. Otherwise it is the best of
/// the negated values of the positions after each move, searched with the
/// negated and swapped window, where `alpha` rises with the best value found
/// and the moves after one that reaches `beta` are not looked at.
pub open spec fn spec_negamax(slots: Seq<Slot>, side: Side, depth: nat, alpha: int, beta: int) -> int
    decreases depth, 1nat, 0nat,
{
    if depth == 0 {
        spec_eval(slots, side, slots.len() as int)
    } else {
        spec_search(slots, side, depth, spec_all_moves(slots, side, slots.len() as int), 0, alpha, beta, NEG_INFINITY as int)
    }
}

/// The search from the `i`-th move on, `best` being the best value of the
/// moves before it.
pub open spec fn spec_search(
    slots: Seq<Slot>,
    side: Side,
    depth: nat,
    moves: Seq<MoveView>,
    i: nat,
    alpha: int,
    beta: int,
    best: int,
) -> int
    decreases depth, 0nat, moves.len() - i,
{
    if depth == 0 || i >= moves.len() {
        best
    } else {
        let score = -spec_negamax(
            spec_make_move(slots, moves[i as int]),
            side.spec_toggled(),
            (depth - 1) as nat,
            -beta,
            -alpha,
        );
        let best2 = if score > best { score } else { best };
        let alpha2 = if score > best && score > alpha { score } else { alpha };
        if score >= beta {
            best2
        } else {
            spec_search(slots, side, depth, moves, i + 1, alpha2, beta, best2)
        }
    }
}

/// Whether `m` can be made on the slots and leaves them valid.
pub open spec fn spec_move_ok(slots: Seq<Slot>, m: MoveView) -> bool {
    &&& spec_can_make(slots, m)
    &&& spec_on_board(m.travel.dest.0 as int, m.travel.dest.1 as int)
    &&& m.rotate.dest.wf()
}

/// Whether the search meets no travel that captures more pieces than a
/// travel can hold, within `depth` plies.
pub open spec fn spec_search_fits(slots: Seq<Slot>, side: Side, depth: nat) -> bool
    decreases depth,
{
    depth > 0 ==> {
        &&& spec_moves_fit(slots, side)
        &&& forall|i: int| 0 <= i < spec_all_moves(slots, side, slots.len() as int).len() ==> spec_search_fits(
            spec_make_move(slots, #[trigger] spec_all_moves(slots, side, slots.len() as int)[i]),
            side.spec_toggled(),
            (depth - 1) as nat,
        )
    }
}

/// The index of the move that the engine picks among the first `n`: the
/// last of those with the highest value.
pub open spec fn spec_best_index(slots: Seq<Slot>, side: Side, moves: Seq<MoveView>, n: int) -> int
    decreases n,
{
    if n <= 1 {
        0
    } else {
        let prev = spec_best_index(slots, side, moves, n - 1);
        if spec_root_score(slots, side, moves[n - 1]) >= spec_root_score(slots, side, moves[prev]) {
            n - 1
        } else {
            prev
        }
    }
}

/// The value of the root move `m` for the side that makes it: the negated
/// value of the position after it, searched `DEPTH` plies deep with the
/// widest window.
pub open spec fn spec_root_score(slots: Seq<Slot>, side: Side, m: MoveView) -> int {
    -spec_negamax(spec_make_move(slots, m), side.spec_toggled(), DEPTH as nat, NEG_INFINITY as int, INFINITY as int)
}


/// The value of the position for the side to move when both sides play
/// their best for `depth` plies: the static evaluation at depth zero, and
/// otherwise the best of the negated values of the positions after each move.
/// A side without a move has lost.
pub open spec fn spec_minimax(slots: Seq<Slot>, side: Side, depth: nat) -> int
    decreases depth, 1nat, 0nat,
{
    if depth == 0 {
        spec_eval(slots, side, slots.len() as int)
    } else {
        spec_best_of(slots, side, depth, spec_all_moves(slots, side, slots.len() as int), spec_all_moves(
            slots,
            side,
            slots.len() as int,
        ).len())
    }
}

/// The best value among the first `n` of `moves` for the side that makes
/// them.
pub open spec fn spec_best_of(slots: Seq<Slot>, side: Side, depth: nat, moves: Seq<MoveView>, n: nat) -> int
    decreases depth, 0nat, n,
{
    if depth == 0 || n == 0 {
        NEG_INFINITY as int
    } else {
        let rest = spec_best_of(slots, side, depth, moves, (n - 1) as nat);
        let score = -spec_minimax(spec_make_move(slots, moves[n - 1]), side.spec_toggled(), (depth - 1) as nat);
        if score > rest {
            score
        } else {
            rest
        }
    }
}

/// The best of more moves is no worse than any one of them.
pub proof fn lemma_best_of_covers(slots: Seq<Slot>, side: Side, depth: nat, moves: Seq<MoveView>, n: nat, k: int)
    requires
        depth > 0,
        0 <= k < n,
    ensures
        spec_best_of(slots, side, depth, moves, n) >= -spec_minimax(
            spec_make_move(slots, moves[k]),
            side.spec_toggled(),
            (depth - 1) as nat,
        ),
        spec_best_of(slots, side, depth, moves, n) >= spec_best_of(slots, side, depth, moves, k as nat),
    decreases n,
{
    if k < n - 1 {
        lemma_best_of_covers(slots, side, depth, moves, (n - 1) as nat, k);
    }
}

/// Whether `m` names slots of the board, leads onto the board and turns to
/// a facing that is a unit vector.
pub open spec fn spec_move_in_bounds(slots: Seq<Slot>, m: MoveView) -> bool {
    &&& m.travel.piece < slots.len()
    &&& m.rotate.piece < slots.len()
    &&& spec_on_board(m.travel.dest.0 as int, m.travel.dest.1 as int)
    &&& m.rotate.dest.wf()
}

/// Every move of a piece leads onto the board and keeps the facing.
pub proof fn lemma_point_moves_in_bounds(slots: Seq<Slot>, id: PieceId, n: int)
    requires
        slots_wf(slots),
        id < slots.len(),
        n <= spec_fresh_points(slots, id as int).len(),
    ensures
        forall|k: int|
            0 <= k < spec_point_moves(slots, id, spec_fresh_points(slots, id as int), n).len()
                ==> spec_move_in_bounds(
                slots,
                #[trigger] spec_point_moves(slots, id, spec_fresh_points(slots, id as int), n)[k],
            ),
    decreases n,
{
    if n > 0 {
        lemma_point_moves_in_bounds(slots, id, n - 1);
        let core = slots[id as int].core;
        let t = spec_travel_points(core);
        let points = spec_fresh_points(slots, id as int);
        lemma_drawable_points_on_board(core, core.kind.spec_capture_das());
        lemma_drawable_points_on_board(core, core.kind.spec_move_das());
        let j = n - 1;
        let p = points[j];
        if j < t.move_points.len() {
            assert(spec_on_board(t.move_points[j].0 as int, t.move_points[j].1 as int));
        } else {
            let c = j - t.move_points.len();
            assert(spec_on_board(t.capture_points[c].0 as int, t.capture_points[c].1 as int));
        }
        assert(spec_on_board(p.1 as int, p.2 as int));
        let prev = spec_point_moves(slots, id, points, n - 1);
        let cur = spec_point_moves(slots, id, points, n);
        assert forall|k: int| 0 <= k < cur.len() implies spec_move_in_bounds(slots, #[trigger] cur[k]) by {
            if k < prev.len() {
                assert(cur[k] == prev[k]);
            }
        }
    }
}

/// Every move of a side leads onto the board and keeps the facing.
pub proof fn lemma_all_moves_in_bounds(slots: Seq<Slot>, side: Side, n: int)
    requires
        slots_wf(slots),
        n <= slots.len(),
    ensures
        forall|k: int|
            0 <= k < spec_all_moves(slots, side, n).len() ==> spec_move_in_bounds(
                slots,
                #[trigger] spec_all_moves(slots, side, n)[k],
            ),
    decreases n,
{
    if n > 0 {
        lemma_all_moves_in_bounds(slots, side, n - 1);
        let prev = spec_all_moves(slots, side, n - 1);
        let cur = spec_all_moves(slots, side, n);
        if slots[n - 1].alive && slots[n - 1].core.side == side {
            lemma_point_moves_in_bounds(slots, (n - 1) as usize, spec_fresh_points(slots, n - 1).len() as int);
            let own = spec_piece_moves(slots, (n - 1) as usize);
            assert forall|k: int| 0 <= k < cur.len() implies spec_move_in_bounds(slots, #[trigger] cur[k]) by {
                if k < prev.len() {
                    assert(cur[k] == prev[k]);
                } else {
                    assert(cur[k] == own[k - prev.len()]);
                }
            }
        }
    }
}

/// A move within bounds leaves the slots valid.
pub proof fn lemma_make_move_wf(slots: Seq<Slot>, m: MoveView)
    requires
        slots_wf(slots),
        spec_move_in_bounds(slots, m),
    ensures
        slots_wf(spec_make_move(slots, m)),
        spec_make_move(slots, m).len() == slots.len(),
{
}

/// The value of a valid position lies between the two infinite scores.
pub proof fn lemma_minimax_bounds(slots: Seq<Slot>, side: Side, depth: nat)
    requires
        slots_wf(slots),
    ensures
        NEG_INFINITY <= spec_minimax(slots, side, depth) <= INFINITY,
    decreases depth, 1nat, 0nat,
{
    if depth == 0 {
        lemma_eval_bound(slots, side, slots.len() as int);
        assert(slots.len() * PIECE_SCORE_LIMIT <= 65_536 * PIECE_SCORE_LIMIT) by (nonlinear_arith)
            requires slots.len() <= 65_536;
    } else {
        let moves = spec_all_moves(slots, side, slots.len() as int);
        lemma_all_moves_in_bounds(slots, side, slots.len() as int);
        lemma_best_of_bounds(slots, side, depth, moves, moves.len());
    }
}

/// The best value among moves within bounds lies between the two infinite
/// scores.
pub proof fn lemma_best_of_bounds(slots: Seq<Slot>, side: Side, depth: nat, moves: Seq<MoveView>, n: nat)
    requires
        slots_wf(slots),
        depth > 0,
        n <= moves.len(),
        forall|k: int| 0 <= k < moves.len() ==> spec_move_in_bounds(slots, #[trigger] moves[k]),
    ensures
        NEG_INFINITY <= spec_best_of(slots, side, depth, moves, n) <= INFINITY,
    decreases depth, 0nat, n,
{
    if n > 0 {
        lemma_best_of_bounds(slots, side, depth, moves, (n - 1) as nat);
        lemma_make_move_wf(slots, moves[n - 1]);
        lemma_minimax_bounds(spec_make_move(slots, moves[n - 1]), side.spec_toggled(), (depth - 1) as nat);
    }
}

/// Whether `result`, found with the window `(alpha, beta)`, says about
/// `value` what a fail-soft search may claim: below the window it is an upper
/// bound, above the window a lower bound, and within the window the value
/// itself.
pub open spec fn spec_bounds_value(result: int, value: int, alpha: int, beta: int) -> bool {
    &&& result <= alpha ==> value <= result
    &&& alpha < result < beta ==> value == result
    &&& result >= beta ==> value >= result
}

/// The alpha-beta search is sound: whatever the window, its result bounds
/// the value of the position as a fail-soft search should.
pub proof fn lemma_alpha_beta_sound(slots: Seq<Slot>, side: Side, depth: nat, alpha: int, beta: int)
    requires
        NEG_INFINITY <= alpha < beta <= INFINITY,
    ensures
        spec_bounds_value(
            spec_negamax(slots, side, depth, alpha, beta),
            spec_minimax(slots, side, depth),
            alpha,
            beta,
        ),
    decreases depth, 1nat, 0nat,
{
    if depth > 0 {
        let moves = spec_all_moves(slots, side, slots.len() as int);
        lemma_search_sound(slots, side, depth, moves, 0, alpha, alpha, beta, NEG_INFINITY as int);
    }
}

/// The search from the `i`-th move on is sound, if what was found before
/// is: `raised` is the larger of `alpha` and `best`, and `best`, which is
/// below `beta`, is the best value of the moves before the `i`-th if it is
/// above `alpha`, and bounds that value from above if it is not.
pub proof fn lemma_search_sound(
    slots: Seq<Slot>,
    side: Side,
    depth: nat,
    moves: Seq<MoveView>,
    i: nat,
    alpha: int,
    raised: int,
    beta: int,
    best: int,
)
    requires
        depth > 0,
        i <= moves.len(),
        NEG_INFINITY <= alpha < beta <= INFINITY,
        raised == (if best > alpha { best } else { alpha }),
        best < beta,
        best <= alpha ==> spec_best_of(slots, side, depth, moves, i) <= best,
        best > alpha ==> spec_best_of(slots, side, depth, moves, i) == best,
    ensures
        spec_bounds_value(
            spec_search(slots, side, depth, moves, i, raised, beta, best),
            spec_best_of(slots, side, depth, moves, moves.len()),
            alpha,
            beta,
        ),
    decreases depth, 0nat, moves.len() - i,
{
    if i < moves.len() {
        let child = spec_make_move(slots, moves[i as int]);
        let other = side.spec_toggled();
        lemma_alpha_beta_sound(child, other, (depth - 1) as nat, -beta, -raised);
        let found = -spec_negamax(child, other, (depth - 1) as nat, -beta, -raised);
        let truth = -spec_minimax(child, other, (depth - 1) as nat);
        assert(found >= beta ==> truth >= found);
        assert(raised < found < beta ==> truth == found);
        assert(found <= raised ==> truth <= found);
        let best2 = if found > best { found } else { best };
        let raised2 = if found > best && found > raised { found } else { raised };
        assert(spec_best_of(slots, side, depth, moves, i + 1) == (if truth > spec_best_of(
            slots,
            side,
            depth,
            moves,
            i,
        ) {
            truth
        } else {
            spec_best_of(slots, side, depth, moves, i)
        }));
        if found >= beta {
            lemma_best_of_covers(slots, side, depth, moves, moves.len(), i as int);
        } else {
            lemma_search_sound(slots, side, depth, moves, i + 1, alpha, raised2, beta, best2);
        }
    }
}

/// With the widest window the alpha-beta search finds the value of a valid
/// position.
pub proof fn lemma_full_window_is_minimax(slots: Seq<Slot>, side: Side, depth: nat)
    requires
        slots_wf(slots),
    ensures
        spec_negamax(slots, side, depth, NEG_INFINITY as int, INFINITY as int) == spec_minimax(slots, side, depth),
{
    lemma_alpha_beta_sound(slots, side, depth, NEG_INFINITY as int, INFINITY as int);
    lemma_minimax_bounds(slots, side, depth);
    lemma_negamax_bounds(slots, side, depth, NEG_INFINITY as int, INFINITY as int);
}

/// The result of the alpha-beta search on a valid position lies between
/// the two infinite scores.
pub proof fn lemma_negamax_bounds(slots: Seq<Slot>, side: Side, depth: nat, alpha: int, beta: int)
    requires
        slots_wf(slots),
    ensures
        NEG_INFINITY <= spec_negamax(slots, side, depth, alpha, beta) <= INFINITY,
    decreases depth, 1nat, 0nat,
{
    if depth == 0 {
        lemma_eval_bound(slots, side, slots.len() as int);
        assert(slots.len() * PIECE_SCORE_LIMIT <= 65_536 * PIECE_SCORE_LIMIT) by (nonlinear_arith)
            requires slots.len() <= 65_536;
    } else {
        let moves = spec_all_moves(slots, side, slots.len() as int);
        lemma_all_moves_in_bounds(slots, side, slots.len() as int);
        lemma_search_bounds(slots, side, depth, moves, 0, alpha, beta, NEG_INFINITY as int);
    }
}

/// The result of the search from the `i`-th move on lies between the two
/// infinite scores, if the best value found before does.
pub proof fn lemma_search_bounds(
    slots: Seq<Slot>,
    side: Side,
    depth: nat,
    moves: Seq<MoveView>,
    i: nat,
    alpha: int,
    beta: int,
    best: int,
)
    requires
        slots_wf(slots),
        depth > 0,
        forall|k: int| 0 <= k < moves.len() ==> spec_move_in_bounds(slots, #[trigger] moves[k]),
        NEG_INFINITY <= best <= INFINITY,
    ensures
        NEG_INFINITY <= spec_search(slots, side, depth, moves, i, alpha, beta, best) <= INFINITY,
    decreases depth, 0nat, moves.len() - i,
{
    if i < moves.len() {
        let child = spec_make_move(slots, moves[i as int]);
        lemma_make_move_wf(slots, moves[i as int]);
        lemma_negamax_bounds(child, side.spec_toggled(), (depth - 1) as nat, -beta, -alpha);
        let found = -spec_negamax(child, side.spec_toggled(), (depth - 1) as nat, -beta, -alpha);
        let best2 = if found > best { found } else { best };
        let alpha2 = if found > best && found > alpha { found } else { alpha };
        if found < beta {
            lemma_search_bounds(slots, side, depth, moves, i + 1, alpha2, beta, best2);
        }
    }
}

/// The value that the engine gives a root move is the value of that move
/// when both sides play their best for `DEPTH` more plies.
pub proof fn lemma_root_score_is_minimax(slots: Seq<Slot>, side: Side, m: MoveView)
    requires
        slots_wf(slots),
        spec_move_in_bounds(slots, m),
    ensures
        spec_root_score(slots, side, m) == -spec_minimax(spec_make_move(slots, m), side.spec_toggled(), DEPTH as nat),
{
    lemma_make_move_wf(slots, m);
    lemma_full_window_is_minimax(spec_make_move(slots, m), side.spec_toggled(), DEPTH as nat);
}


/// The move that the engine picks is worth at least as much as every other
/// move, and more than every move after it.
pub proof fn lemma_best_index_is_last_best(slots: Seq<Slot>, side: Side, moves: Seq<MoveView>, n: int)
    requires
        1 <= n <= moves.len(),
    ensures
        0 <= spec_best_index(slots, side, moves, n) < n,
        forall|k: int|
            0 <= k < n ==> spec_root_score(slots, side, #[trigger] moves[k]) <= spec_root_score(
                slots,
                side,
                moves[spec_best_index(slots, side, moves, n)],
            ),
        forall|k: int|
            spec_best_index(slots, side, moves, n) < k < n ==> spec_root_score(slots, side, #[trigger] moves[k])
                < spec_root_score(slots, side, moves[spec_best_index(slots, side, moves, n)]),
    decreases n,
{
    if n > 1 {
        lemma_best_index_is_last_best(slots, side, moves, n - 1);
    }
}

} // verus!
