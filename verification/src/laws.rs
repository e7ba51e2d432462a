use vstd::prelude::*;

use crate::game::{
    promote_post_spec, promote_result_spec, turn_blocked, turn_post_spec, turn_result_spec,
    EndResult, GameModel, TurnResult,
};
use crate::pieces::{opposite, Color, Kind, Point};
use crate::rules::{apply_move, can_move, in_check};

verus! {

/// No mutation on failure: whenever a turn is refused, the board, the side
/// to move and the pending promotion all stay exactly as they were.
pub proof fn lemma_failed_leaves_game_unchanged(g: GameModel, s: Point, t: Point)
    ensures
        turn_result_spec(g, s, t) == TurnResult::Failed ==> turn_post_spec(g, s, t) == g,
{
}

/// The promotion gate: while a promotion is pending every turn is refused,
/// changing nothing; and a turn that reports a pending promotion leaves
/// one pending.
pub proof fn lemma_promotion_gate(g: GameModel, s: Point, t: Point)
    ensures
        g.promotion is Some ==> turn_result_spec(g, s, t) == TurnResult::Failed
            && turn_post_spec(g, s, t) == g,
        turn_result_spec(g, s, t) == TurnResult::Promotion ==> turn_post_spec(
            g,
            s,
            t,
        ).promotion is Some,
{
}

/// Resolving a promotion clears the pending record, whatever the retried
/// move then does, so play can go on.
pub proof fn lemma_promote_clears_pending(g: GameModel, kind: Kind)
    requires
        g.promotion is Some,
        promote_result_spec(g, kind) != TurnResult::Promotion,
    ensures
        promote_post_spec(g, kind).promotion is None,
{
}

/// Turn alternation: a turn that reports `Moved` or `Checked` passes the
/// turn to the other side; a turn that ends the game leaves the side to
/// move unchanged.
pub proof fn lemma_turn_alternation(g: GameModel, s: Point, t: Point)
    ensures
        turn_result_spec(g, s, t) == TurnResult::Moved || turn_result_spec(g, s, t)
            == TurnResult::Checked ==> turn_post_spec(g, s, t).color == opposite(g.color),
        (turn_result_spec(g, s, t) matches TurnResult::GameEnd(e)) ==> turn_post_spec(
            g,
            s,
            t,
        ).color == g.color,
{
}

/// End conditions exclude each other: a tie means the opponent is not in
/// check and has no legal move, and a win goes to the mover exactly when
/// the opponent is in check with no legal move.
pub proof fn lemma_game_end_exclusive(g: GameModel, s: Point, t: Point)
    ensures
        turn_result_spec(g, s, t) == TurnResult::GameEnd(EndResult::Tie) ==> !in_check(
            turn_post_spec(g, s, t).board,
            opposite(g.color),
        ) && !can_move(turn_post_spec(g, s, t).board, opposite(g.color)),
        forall|w: Color|
            turn_result_spec(g, s, t) == TurnResult::GameEnd(EndResult::Win(w)) ==> w == g.color
                && in_check(turn_post_spec(g, s, t).board, opposite(g.color)) && !can_move(
                turn_post_spec(g, s, t).board,
                opposite(g.color),
            ),
{
    if !turn_blocked(g, s, t) {
        let b2 = apply_move(g.board, s.0 as int, s.1 as int, t.0 as int, t.1 as int);
        assert(turn_result_spec(g, s, t) == TurnResult::GameEnd(EndResult::Tie) ==> !in_check(
            b2,
            opposite(g.color),
        ) && !can_move(b2, opposite(g.color)));
    }
}

} // verus!
