use vstd::prelude::*;

use crate::board::Board;
use crate::pieces::{opposite, Color, Kind, Piece, Point};
use crate::rules::{
    apply_move, at, board_wf, can_move, in_check, in_extent, last_row, legal_move, listing_upto,
    occupied_by, pseudo_legal, sq_idx, start_model, BoardModel,
};

verus! {

/// How the game ends: one side wins, or the game is drawn.
#[derive(Clone, Copy, PartialEq, Eq, Structural, Debug)]
pub enum EndResult {
    Win(Color),
    Tie,
}

/// The outcome of one turn attempt.
#[derive(Clone, Copy, PartialEq, Eq, Structural, Debug)]
pub enum TurnResult {
    Moved,
    Checked,
    GameEnd(EndResult),
    Promotion,
    Failed,
}

/// Mathematical model of a game: the board, the side to move, and the
/// pending promotion, if a pawn's arrival on the far rank awaits a chosen
/// piece class.
#[verifier::ext_equal]
pub ghost struct GameModel {
    pub board: BoardModel,
    pub color: Color,
    pub promotion: Option<(Point, Point)>,
}

/// Turn sequencing, the promotion handshake, and end-of-game
/// classification over an exclusively owned board.
pub struct Game {
    board: Board,
    pub color: Color,
    promotion: Option<(Point, Point)>,
}

impl View for Game {
    type V = GameModel;

    closed spec fn view(&self) -> GameModel {
        GameModel { board: self.board@, color: self.color, promotion: self.promotion }
    }
}

/// A well-formed game: the board is well formed, and a pending promotion
/// records playable squares whose source still holds the mover's pawn.
pub open spec fn game_wf(g: GameModel) -> bool {
    &&& board_wf(g.board)
    &&& (g.promotion matches Some(pair) ==> {
        &&& in_extent(pair.0.0 as int, pair.0.1 as int)
        &&& in_extent(pair.1.0 as int, pair.1.1 as int)
        &&& at(g.board, pair.0.0 as int, pair.0.1 as int) == Some(
            Piece { color: g.color, kind: Kind::Pawn },
        )
    })
}

/// The game as it stands before the first turn: the starting position,
/// White to move, no pending promotion.
pub open spec fn initial_game() -> GameModel {
    GameModel { board: start_model(), color: Color::White, promotion: None }
}

/// A requested turn is refused outright: a promotion is pending, the
/// target is not a legal destination for the piece at the source, or the
/// source does not hold a piece of the side to move.
pub open spec fn turn_blocked(g: GameModel, s: Point, t: Point) -> bool {
    ||| g.promotion is Some
    ||| !legal_move(g.board, s.0 as int, s.1 as int, t.0 as int, t.1 as int)
    ||| !occupied_by(g.board, s.0 as int, s.1 as int, g.color)
}

/// An accepted turn moves the mover's pawn onto the far rank, so the move
/// is held back until a promotion class is chosen.
pub open spec fn triggers_promotion(g: GameModel, s: Point, t: Point) -> bool {
    &&& !turn_blocked(g, s, t)
    &&& at(g.board, s.0 as int, s.1 as int).unwrap().kind == Kind::Pawn
    &&& t.1 as int == last_row(g.color)
}

/// The outcome of `turn` on a game in state `g`: refusal, the promotion
/// handshake, or the applied move classified by the opponent's check state
/// and mobility afterwards.
pub open spec fn turn_result_spec(g: GameModel, s: Point, t: Point) -> TurnResult {
    if turn_blocked(g, s, t) {
        TurnResult::Failed
    } else if triggers_promotion(g, s, t) {
        TurnResult::Promotion
    } else {
        let b2 = apply_move(g.board, s.0 as int, s.1 as int, t.0 as int, t.1 as int);
        let checked = in_check(b2, opposite(g.color));
        let mobile = can_move(b2, opposite(g.color));
        if checked && mobile {
            TurnResult::Checked
        } else if checked && !mobile {
            TurnResult::GameEnd(EndResult::Win(g.color))
        } else if !checked && !mobile {
            TurnResult::GameEnd(EndResult::Tie)
        } else {
            TurnResult::Moved
        }
    }
}

/// The game state after `turn` on a game in state `g`: unchanged on
/// refusal, the pending record on a promotion trigger, and otherwise the
/// applied board with the turn passed to the opponent exactly when the
/// game goes on.
pub open spec fn turn_post_spec(g: GameModel, s: Point, t: Point) -> GameModel {
    if turn_blocked(g, s, t) {
        g
    } else if triggers_promotion(g, s, t) {
        GameModel { promotion: Some((s, t)), ..g }
    } else {
        let b2 = apply_move(g.board, s.0 as int, s.1 as int, t.0 as int, t.1 as int);
        let mobile = can_move(b2, opposite(g.color));
        GameModel {
            board: b2,
            color: if mobile {
                opposite(g.color)
            } else {
                g.color
            },
            promotion: None,
        }
    }
}

/// The game with its pending pawn overwritten by a piece of class `kind`
/// and the pending record cleared, ready for the held-back move to be
/// retried.
pub open spec fn promoted_model(g: GameModel, kind: Kind) -> GameModel
    recommends
        g.promotion is Some,
{
    let s = g.promotion.unwrap().0;
    GameModel {
        board: BoardModel {
            squares: g.board.squares.update(
                sq_idx(s.0 as int, s.1 as int),
                Some(Piece { color: g.color, kind }),
            ),
            ..g.board
        },
        color: g.color,
        promotion: None,
    }
}

/// The outcome of `promote`: refusal without a pending promotion, else the
/// outcome of retrying the recorded move on the rewritten board.
pub open spec fn promote_result_spec(g: GameModel, kind: Kind) -> TurnResult {
    if g.promotion is None {
        TurnResult::Failed
    } else {
        turn_result_spec(promoted_model(g, kind), g.promotion.unwrap().0, g.promotion.unwrap().1)
    }
}

/// The game state after `promote`.
pub open spec fn promote_post_spec(g: GameModel, kind: Kind) -> GameModel {
    if g.promotion is None {
        g
    } else {
        turn_post_spec(promoted_model(g, kind), g.promotion.unwrap().0, g.promotion.unwrap().1)
    }
}

impl Game {
    /// A fresh game: starting position, White to move.
    pub fn new() -> (g: Game)
        ensures
            g@ == initial_game(),
            game_wf(g@),
    {
        let g = Game { board: Board::new(), color: Color::White, promotion: None };
        proof {
            assert(g@ =~= initial_game());
        }
        g
    }

    /// Attempts one full turn: validates the request, applies the move or
    /// records a pending promotion, and classifies the outcome.  A refused
    /// turn leaves the game exactly as it was.
    pub fn turn(&mut self, source: Point, target: Point) -> (res: TurnResult)
        requires
            game_wf(old(self)@),
        ensures
            game_wf(final(self)@),
            res == turn_result_spec(old(self)@, source, target),
            final(self)@ == turn_post_spec(old(self)@, source, target),
    {
        let ghost g = old(self)@;
        if self.promotion.is_some() {
            return TurnResult::Failed;
        }
        let moves = self.get_moves(&source);
        if !contains_point(&moves, &target) {
            return TurnResult::Failed;
        }
        proof {
            assert(legal_move(g.board, source.0 as int, source.1 as int, target.0 as int,
                target.1 as int));
            assert(at(g.board, source.0 as int, source.1 as int) is Some);
        }
        let piece = self.board.piece_at(source.0, source.1).unwrap();
        if piece.color != self.color {
            return TurnResult::Failed;
        }
        proof {
            assert(occupied_by(g.board, source.0 as int, source.1 as int, g.color));
        }
        if piece.kind == Kind::Pawn {
            let lr: u8 = match self.color {
                Color::White => 8,
                Color::Black => 1,
            };
            if target.1 == lr {
                self.promotion = Some((source, target));
                proof {
                    assert(triggers_promotion(g, source, target));
                    assert(self@ =~= turn_post_spec(g, source, target));
                    assert(piece == (Piece { color: g.color, kind: Kind::Pawn }));
                }
                return TurnResult::Promotion;
            }
        }
        proof {
            assert(!triggers_promotion(g, source, target));
        }
        if !self.board.move_piece(source, target) {
            return TurnResult::Failed;
        }
        let opp = self.color.inverse();
        let opponent_can_move = self.color_can_move(&opp);
        let opponent_checked = self.board.detect_check(&opp).is_some();
        if opponent_checked && opponent_can_move {
            self.color = opp;
            proof {
                assert(self@ =~= turn_post_spec(g, source, target));
            }
            TurnResult::Checked
        } else if opponent_checked && !opponent_can_move {
            proof {
                assert(self@ =~= turn_post_spec(g, source, target));
            }
            TurnResult::GameEnd(EndResult::Win(self.color))
        } else if !opponent_checked && !opponent_can_move {
            proof {
                assert(self@ =~= turn_post_spec(g, source, target));
            }
            TurnResult::GameEnd(EndResult::Tie)
        } else {
            self.color = opp;
            proof {
                assert(self@ =~= turn_post_spec(g, source, target));
            }
            TurnResult::Moved
        }
    }

    /// Resolves a pending promotion: overwrites the pending pawn with a
    /// piece of the chosen class and retries the recorded move.  Fails when
    /// no promotion is pending.  A king may not be chosen, so each side
    /// keeps at most one.
    pub fn promote(&mut self, kind: Kind) -> (res: TurnResult)
        requires
            game_wf(old(self)@),
            kind != Kind::King,
        ensures
            game_wf(final(self)@),
            res == promote_result_spec(old(self)@, kind),
            final(self)@ == promote_post_spec(old(self)@, kind),
    {
        let ghost g = old(self)@;
        let (source, target) = match self.promotion {
            Some(pair) => pair,
            None => {
                return TurnResult::Failed;
            },
        };
        self.board.place_piece(source, Piece::new(self.color, kind));
        self.promotion = None;
        proof {
            assert(self@ =~= promoted_model(g, kind));
        }
        self.turn(source, target)
    }

    /// A snapshot of the occupied squares, row-major, each with its piece;
    /// changing it cannot affect the game.
    pub fn get_board(&self) -> (entries: Vec<(Point, Piece)>)
        requires
            game_wf(self@),
        ensures
            entries@ == listing_upto(self@.board, 64),
    {
        let mut entries: Vec<(Point, Piece)> = Vec::new();
        let mut i: usize = 0;
        while i < 64
            invariant
                game_wf(self@),
                i <= 64,
                entries@ == listing_upto(self@.board, i as int),
            decreases 64 - i,
        {
            let c: u8 = (i % 8 + 1) as u8;
            let r: u8 = (i / 8 + 1) as u8;
            match self.board.piece_at(c, r) {
                Some(p) => {
                    let ghost before = entries@;
                    entries.push((Point(c, r), p));
                    proof {
                        assert(entries@ =~= before + seq![(Point(c, r), p)]);
                        assert(entries@ =~= listing_upto(self@.board, i as int + 1));
                    }
                },
                None => {
                    proof {
                        assert(entries@ =~= listing_upto(self@.board, i as int + 1));
                    }
                },
            }
            i = i + 1;
        }
        entries
    }

    /// Every square the piece at `source` may legally step to, whichever
    /// side it belongs to.
    pub fn get_moves(&self, source: &Point) -> (moves: Vec<Point>)
        requires
            game_wf(self@),
        ensures
            forall|p: Point| #[trigger] moves@.contains(p) <==> legal_move(
                self@.board,
                source.0 as int,
                source.1 as int,
                p.0 as int,
                p.1 as int,
            ),
    {
        self.board.get_allowed_moves(source)
    }

    /// Whether `color` has at least one legal step anywhere on the board.
    pub fn color_can_move(&self, color: &Color) -> (b: bool)
        requires
            game_wf(self@),
        ensures
            b == can_move(self@.board, *color),
    {
        let ghost m = self@.board;
        let mut x: u8 = 1;
        while x <= 8
            invariant
                game_wf(self@),
                m == self@.board,
                1 <= x <= 9,
                forall|a: int, b2: int, c2: int, d2: int|
                    1 <= a < x && 1 <= b2 <= 8 ==> !(occupied_by(m, a, b2, *color)
                        && #[trigger] legal_move(m, a, b2, c2, d2)),
            decreases 9 - x as int,
        {
            let mut y: u8 = 1;
            while y <= 8
                invariant
                    game_wf(self@),
                    m == self@.board,
                    1 <= x <= 8,
                    1 <= y <= 9,
                    forall|a: int, b2: int, c2: int, d2: int|
                        1 <= a < x && 1 <= b2 <= 8 ==> !(occupied_by(m, a, b2, *color)
                            && #[trigger] legal_move(m, a, b2, c2, d2)),
                    forall|b2: int, c2: int, d2: int|
                        1 <= b2 < y ==> !(occupied_by(m, x as int, b2, *color)
                            && #[trigger] legal_move(m, x as int, b2, c2, d2)),
                decreases 9 - y as int,
            {
                let point = Point(x, y);
                match self.board.piece_at(x, y) {
                    Some(piece) => {
                        if piece.color == *color {
                            let mvs = self.board.get_allowed_moves(&point);
                            if mvs.len() > 0 {
                                proof {
                                    let p0 = mvs@[0];
                                    assert(mvs@.contains(p0));
                                    assert(occupied_by(m, x as int, y as int, *color)
                                        && legal_move(
                                        m,
                                        x as int,
                                        y as int,
                                        p0.0 as int,
                                        p0.1 as int,
                                    ));
                                }
                                return true;
                            }
                            proof {
                                assert forall|c2: int, d2: int|
                                    !(#[trigger] legal_move(m, x as int, y as int, c2, d2)) by {
                                    if legal_move(m, x as int, y as int, c2, d2) {
                                        assert(in_extent(c2, d2));
                                        let p = Point(c2 as u8, d2 as u8);
                                        assert(legal_move(m, x as int, y as int, p.0 as int,
                                            p.1 as int));
                                        assert(mvs@.contains(p));
                                        assert(false);
                                    }
                                }
                            }
                        }
                    },
                    None => {},
                }
                y = y + 1;
            }
            x = x + 1;
        }
        proof {
            if can_move(m, *color) {
                let (a, b2, c2, d2) = choose|a: int, b2: int, c2: int, d2: int|
                    occupied_by(m, a, b2, *color) && #[trigger] legal_move(m, a, b2, c2, d2);
                assert(at(m, a, b2) is Some);
                assert(in_extent(a, b2));
                assert(false);
            }
        }
        false
    }
}

/// Whether the vector holds the given point.
fn contains_point(v: &Vec<Point>, p: &Point) -> (b: bool)
    ensures
        b == v@.contains(*p),
{
    let mut i: usize = 0;
    while i < v.len()
        invariant
            i <= v@.len(),
            forall|j: int| 0 <= j < i ==> v@[j] != *p,
        decreases v@.len() - i,
    {
        if v[i] == *p {
            return true;
        }
        i = i + 1;
    }
    proof {
        if v@.contains(*p) {
            let j = choose|j: int| 0 <= j < v@.len() && v@[j] == *p;
            assert(false);
        }
    }
    false
}

} // verus!
