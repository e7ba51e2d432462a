use vstd::prelude::*;

use crate::pieces::{opposite, Color, Kind, Piece, Point};

verus! {

/// Mathematical model of a board.  `squares` always holds 64 entries in
/// row-major order: the square at column `c`, row `r` (both counted from 1)
/// sits at index `(r - 1) * 8 + (c - 1)`.  `grave_white` and `grave_black`
/// list the captured pieces of each color in capture order.  `king_white`
/// and `king_black` give the square of each color's king while that color
/// still has one on the board.
#[verifier::ext_equal]
pub ghost struct BoardModel {
    pub squares: Seq<Option<Piece>>,
    pub grave_white: Seq<Piece>,
    pub grave_black: Seq<Piece>,
    pub king_white: Option<Point>,
    pub king_black: Option<Point>,
}

/// The playable extent: an 8 by 8 board whose coordinates run from 1 to 8.
pub open spec fn in_extent(c: int, r: int) -> bool {
    1 <= c <= 8 && 1 <= r <= 8
}

/// Row-major index of the square at column `c`, row `r`.
pub open spec fn sq_idx(c: int, r: int) -> int {
    (r - 1) * 8 + (c - 1)
}

/// The occupant of column `c`, row `r` in a bare square sequence;
/// squares outside the playable extent are empty.
pub open spec fn sq_at(sq: Seq<Option<Piece>>, c: int, r: int) -> Option<Piece> {
    if in_extent(c, r) {
        sq[sq_idx(c, r)]
    } else {
        None
    }
}

/// The occupant of column `c`, row `r`, if any.
pub open spec fn at(m: BoardModel, c: int, r: int) -> Option<Piece> {
    sq_at(m.squares, c, r)
}

/// The square holds a piece of color `col`.
pub open spec fn occupied_by(m: BoardModel, c: int, r: int, col: Color) -> bool {
    at(m, c, r) matches Some(q) && q.color == col
}

/// The direction a pawn of color `col` advances along the rows.
pub open spec fn pawn_dir(col: Color) -> int {
    match col {
        Color::White => 1,
        Color::Black => -1,
    }
}

/// The row a pawn of color `col` starts on, from which it may advance two.
pub open spec fn pawn_start_row(col: Color) -> int {
    match col {
        Color::White => 2,
        Color::Black => 7,
    }
}

/// The far rank for color `col`: reaching it promotes a pawn.
pub open spec fn last_row(col: Color) -> int {
    match col {
        Color::White => 8,
        Color::Black => 1,
    }
}

pub open spec fn min2(a: int, b: int) -> int {
    if a < b {
        a
    } else {
        b
    }
}

pub open spec fn max2(a: int, b: int) -> int {
    if a < b {
        b
    } else {
        a
    }
}

/// Every square strictly between columns `lo` and `hi` on row `r` is empty.
pub open spec fn row_clear(m: BoardModel, r: int, lo: int, hi: int) -> bool {
    forall|c: int| lo < c < hi ==> #[trigger] at(m, c, r) is None
}

/// Every square strictly between rows `lo` and `hi` on column `c` is empty.
pub open spec fn col_clear(m: BoardModel, c: int, lo: int, hi: int) -> bool {
    forall|r: int| lo < r < hi ==> #[trigger] at(m, c, r) is None
}

/// Every square strictly between columns `lo` and `hi` on the rising
/// diagonal through (`fc`, `fr`) (row grows with column) is empty.
pub open spec fn rise_clear(m: BoardModel, fc: int, fr: int, lo: int, hi: int) -> bool {
    forall|c: int| lo < c < hi ==> #[trigger] at(m, c, fr + (c - fc)) is None
}

/// Every square strictly between columns `lo` and `hi` on the falling
/// diagonal through (`fc`, `fr`) (row shrinks as column grows) is empty.
pub open spec fn fall_clear(m: BoardModel, fc: int, fr: int, lo: int, hi: int) -> bool {
    forall|c: int| lo < c < hi ==> #[trigger] at(m, c, fr - (c - fc)) is None
}

/// A rook step: along one row or one column, over empty squares.
pub open spec fn rook_ok(m: BoardModel, fc: int, fr: int, tc: int, tr: int) -> bool {
    ||| (fr == tr && fc != tc && row_clear(m, fr, min2(fc, tc), max2(fc, tc)))
    ||| (fc == tc && fr != tr && col_clear(m, fc, min2(fr, tr), max2(fr, tr)))
}

/// A bishop step: along one diagonal, over empty squares.
pub open spec fn bishop_ok(m: BoardModel, fc: int, fr: int, tc: int, tr: int) -> bool {
    ||| (tc != fc && tc - fc == tr - fr && rise_clear(m, fc, fr, min2(fc, tc), max2(fc, tc)))
    ||| (tc != fc && tc - fc == fr - tr && fall_clear(m, fc, fr, min2(fc, tc), max2(fc, tc)))
}

/// A knight step: two squares one way and one the other.
pub open spec fn knight_ok(fc: int, fr: int, tc: int, tr: int) -> bool {
    let dc = tc - fc;
    let dr = tr - fr;
    ||| ((dc == 1 || dc == -1) && (dr == 2 || dr == -2))
    ||| ((dc == 2 || dc == -2) && (dr == 1 || dr == -1))
}

/// A king step: one square in any direction.
pub open spec fn king_step_ok(fc: int, fr: int, tc: int, tr: int) -> bool {
    let dc = tc - fc;
    let dr = tr - fr;
    -1 <= dc <= 1 && -1 <= dr <= 1 && !(dc == 0 && dr == 0)
}

/// A pawn step for color `col`: one forward onto an empty square, two
/// forward from the start row over empty squares, or one forward and one
/// sideways onto an opposing piece.
pub open spec fn pawn_ok(m: BoardModel, col: Color, fc: int, fr: int, tc: int, tr: int) -> bool {
    let dir = pawn_dir(col);
    ||| (tc == fc && tr == fr + dir && at(m, tc, tr) is None)
    ||| (tc == fc && fr == pawn_start_row(col) && tr == fr + 2 * dir && at(m, fc, fr + dir) is None
        && at(m, tc, tr) is None)
    ||| ((tc == fc + 1 || tc == fc - 1) && tr == fr + dir && occupied_by(m, tc, tr, opposite(col)))
}

/// The movement rule of piece `p` allows the step, occupancy included.
pub open spec fn geometry_ok(m: BoardModel, p: Piece, fc: int, fr: int, tc: int, tr: int) -> bool {
    match p.kind {
        Kind::Pawn => pawn_ok(m, p.color, fc, fr, tc, tr),
        Kind::Knight => knight_ok(fc, fr, tc, tr),
        Kind::Bishop => bishop_ok(m, fc, fr, tc, tr),
        Kind::Rook => rook_ok(m, fc, fr, tc, tr),
        Kind::Queen => rook_ok(m, fc, fr, tc, tr) || bishop_ok(m, fc, fr, tc, tr),
        Kind::King => king_step_ok(fc, fr, tc, tr),
    }
}

/// The piece at the source may mechanically step to the target: both
/// squares lie on the board, the target holds no piece of the mover's own
/// color, and the mover's movement rule allows the step.  Whether the step
/// leaves the mover's own king attacked is not considered here.
pub open spec fn pseudo_legal(m: BoardModel, fc: int, fr: int, tc: int, tr: int) -> bool {
    &&& in_extent(fc, fr)
    &&& in_extent(tc, tr)
    &&& !(fc == tc && fr == tr)
    &&& at(m, fc, fr) is Some
    &&& !occupied_by(m, tc, tr, at(m, fc, fr).unwrap().color)
    &&& geometry_ok(m, at(m, fc, fr).unwrap(), fc, fr, tc, tr)
}

/// The board after the piece at (`fc`, `fr`) steps to (`tc`, `tr`): the
/// source empties, the target takes the mover, a captured piece joins its
/// own color's graveyard, and the king squares follow the pieces.
pub open spec fn apply_move(m: BoardModel, fc: int, fr: int, tc: int, tr: int) -> BoardModel {
    let p = at(m, fc, fr).unwrap();
    let captured = at(m, tc, tr);
    BoardModel {
        squares: m.squares.update(sq_idx(tc, tr), Some(p)).update(sq_idx(fc, fr), None),
        grave_white: if captured matches Some(q) && q.color == Color::White {
            m.grave_white.push(captured.unwrap())
        } else {
            m.grave_white
        },
        grave_black: if captured matches Some(q) && q.color == Color::Black {
            m.grave_black.push(captured.unwrap())
        } else {
            m.grave_black
        },
        king_white: if p == (Piece { color: Color::White, kind: Kind::King }) {
            Some(Point(tc as u8, tr as u8))
        } else if captured == Some(Piece { color: Color::White, kind: Kind::King }) {
            None
        } else {
            m.king_white
        },
        king_black: if p == (Piece { color: Color::Black, kind: Kind::King }) {
            Some(Point(tc as u8, tr as u8))
        } else if captured == Some(Piece { color: Color::Black, kind: Kind::King }) {
            None
        } else {
            m.king_black
        },
    }
}

/// Color `col`'s king stands somewhere and an opposing piece could step
/// onto its square.
pub open spec fn in_check(m: BoardModel, col: Color) -> bool {
    exists|kc: int, kr: int, ac: int, ar: int|
        at(m, kc, kr) == Some(Piece { color: col, kind: Kind::King }) && #[trigger] pseudo_legal(
            m,
            ac,
            ar,
            kc,
            kr,
        )
}

/// A fully legal step: mechanically possible, and the mover's own king is
/// not attacked on the board that results.
pub open spec fn legal_move(m: BoardModel, fc: int, fr: int, tc: int, tr: int) -> bool {
    &&& pseudo_legal(m, fc, fr, tc, tr)
    &&& !in_check(apply_move(m, fc, fr, tc, tr), at(m, fc, fr).unwrap().color)
}

/// Color `col` has at least one legal step somewhere on the board.
pub open spec fn can_move(m: BoardModel, col: Color) -> bool {
    exists|fc: int, fr: int, tc: int, tr: int|
        occupied_by(m, fc, fr, col) && #[trigger] legal_move(m, fc, fr, tc, tr)
}

/// The recorded king square of color `col`.
pub open spec fn king_field(m: BoardModel, col: Color) -> Option<Point> {
    match col {
        Color::White => m.king_white,
        Color::Black => m.king_black,
    }
}

/// The recorded king square of color `col` is exact: it holds that color's
/// king, and every square holding that color's king is the recorded one
/// (so each color has at most one king).
pub open spec fn king_ok(m: BoardModel, col: Color) -> bool {
    &&& (king_field(m, col) matches Some(p) ==> at(m, p.0 as int, p.1 as int) == Some(
        Piece { color: col, kind: Kind::King },
    ))
    &&& forall|c: int, r: int|
        (#[trigger] at(m, c, r)) == Some(Piece { color: col, kind: Kind::King }) ==> king_field(
            m,
            col,
        ) == Some(Point(c as u8, r as u8))
}

/// A well-formed board: 64 squares and exact king records for both sides.
pub open spec fn board_wf(m: BoardModel) -> bool {
    &&& m.squares.len() == 64
    &&& king_ok(m, Color::White)
    &&& king_ok(m, Color::Black)
}

/// The back-rank piece class of column `c` in the starting position.
pub open spec fn back_rank(c: int) -> Kind {
    if c == 1 || c == 8 {
        Kind::Rook
    } else if c == 2 || c == 7 {
        Kind::Knight
    } else if c == 3 || c == 6 {
        Kind::Bishop
    } else if c == 4 {
        Kind::Queen
    } else {
        Kind::King
    }
}

/// The occupant of column `c`, row `r` in the standard starting position.
pub open spec fn start_square(c: int, r: int) -> Option<Piece> {
    if r == 1 {
        Some(Piece { color: Color::White, kind: back_rank(c) })
    } else if r == 2 {
        Some(Piece { color: Color::White, kind: Kind::Pawn })
    } else if r == 7 {
        Some(Piece { color: Color::Black, kind: Kind::Pawn })
    } else if r == 8 {
        Some(Piece { color: Color::Black, kind: back_rank(c) })
    } else {
        None
    }
}

/// The standard starting board.
pub open spec fn start_model() -> BoardModel {
    BoardModel {
        squares: Seq::new(64, |i: int| start_square(i % 8 + 1, i / 8 + 1)),
        grave_white: Seq::empty(),
        grave_black: Seq::empty(),
        king_white: Some(Point(5, 1)),
        king_black: Some(Point(5, 8)),
    }
}

/// A sequence of 64 empty squares.
pub open spec fn empty_squares() -> Seq<Option<Piece>> {
    Seq::new(64, |i: int| None::<Piece>)
}

/// The squares that result from placing the listed pieces, in order, on an
/// empty board: a later entry for the same square overwrites an earlier one.
pub open spec fn placed(s: Seq<(Point, Piece)>) -> Seq<Option<Piece>>
    decreases s.len(),
{
    if s.len() == 0 {
        empty_squares()
    } else {
        placed(s.drop_last()).update(
            sq_idx(s.last().0.0 as int, s.last().0.1 as int),
            Some(s.last().1),
        )
    }
}

/// At most one square holds a king of color `col`.
pub open spec fn lone_king(sq: Seq<Option<Piece>>, col: Color) -> bool {
    forall|c1: int, r1: int, c2: int, r2: int|
        #[trigger] sq_at(sq, c1, r1) == Some(Piece { color: col, kind: Kind::King })
            && #[trigger] sq_at(sq, c2, r2) == Some(Piece { color: col, kind: Kind::King })
            ==> c1 == c2 && r1 == r2
}

/// The occupied squares among the first `n` squares in row-major order,
/// each paired with its piece.
pub open spec fn listing_upto(m: BoardModel, n: int) -> Seq<(Point, Piece)>
    decreases n,
{
    if n <= 0 {
        Seq::empty()
    } else {
        let c = (n - 1) % 8 + 1;
        let r = (n - 1) / 8 + 1;
        listing_upto(m, n - 1) + (if at(m, c, r) is Some {
            seq![(Point(c as u8, r as u8), at(m, c, r).unwrap())]
        } else {
            Seq::empty()
        })
    }
}

/// Overwriting a non-king square with a non-king piece preserves board
/// well-formedness.
pub proof fn lemma_place_wf(m: BoardModel, c: int, r: int, piece: Piece)
    requires
        board_wf(m),
        in_extent(c, r),
        piece.kind != Kind::King,
        !(at(m, c, r) matches Some(q) && q.kind == Kind::King),
    ensures
        board_wf(BoardModel { squares: m.squares.update(sq_idx(c, r), Some(piece)), ..m }),
{
    let m2 = BoardModel { squares: m.squares.update(sq_idx(c, r), Some(piece)), ..m };
    assert forall|c2: int, r2: int|
        (#[trigger] at(m2, c2, r2)) == (if c2 == c && r2 == r {
            Some(piece)
        } else {
            at(m, c2, r2)
        }) by {
        if in_extent(c2, r2) {
            lemma_sq_idx(c2, r2);
            lemma_sq_idx(c, r);
            assert(sq_idx(c2, r2) == sq_idx(c, r) ==> c2 == c && r2 == r) by {
                if sq_idx(c2, r2) == sq_idx(c, r) {
                    assert(c2 - 1 == sq_idx(c2, r2) % 8 && c - 1 == sq_idx(c, r) % 8);
                    assert(r2 - 1 == sq_idx(c2, r2) / 8 && r - 1 == sq_idx(c, r) / 8);
                }
            }
        }
    }
    assert(king_ok(m2, Color::White)) by {
        lemma_place_king_ok(m, m2, c, r, piece, Color::White);
    }
    assert(king_ok(m2, Color::Black)) by {
        lemma_place_king_ok(m, m2, c, r, piece, Color::Black);
    }
}

proof fn lemma_place_king_ok(m: BoardModel, m2: BoardModel, c: int, r: int, piece: Piece, col: Color)
    requires
        board_wf(m),
        in_extent(c, r),
        piece.kind != Kind::King,
        !(at(m, c, r) matches Some(q) && q.kind == Kind::King),
        king_field(m2, col) == king_field(m, col),
        forall|c2: int, r2: int|
            (#[trigger] at(m2, c2, r2)) == (if c2 == c && r2 == r {
                Some(piece)
            } else {
                at(m, c2, r2)
            }),
    ensures
        king_ok(m2, col),
{
    let king = Piece { color: col, kind: Kind::King };
    if king_field(m, col) is Some {
        let kp = king_field(m, col).unwrap();
        assert(at(m, kp.0 as int, kp.1 as int) == Some(king));
        assert(!(kp.0 as int == c && kp.1 as int == r));
        assert(at(m2, kp.0 as int, kp.1 as int) == Some(king));
    }
    assert forall|c2: int, r2: int|
        (#[trigger] at(m2, c2, r2)) == Some(king) implies king_field(m2, col) == Some(
        Point(c2 as u8, r2 as u8),
    ) by {
        if !(c2 == c && r2 == r) {
            assert(at(m, c2, r2) == Some(king));
        }
    }
}

/// Row-major indexing is a bijection between the playable extent and 0..64.
pub proof fn lemma_sq_idx(c: int, r: int)
    requires
        in_extent(c, r),
    ensures
        0 <= sq_idx(c, r) < 64,
        sq_idx(c, r) % 8 == c - 1,
        sq_idx(c, r) / 8 == r - 1,
{
    vstd::arithmetic::div_mod::lemma_fundamental_div_mod_converse(sq_idx(c, r), 8, r - 1, c - 1);
}

/// The starting board shows `start_square` on every playable square.
pub proof fn lemma_start_at(c: int, r: int)
    requires
        in_extent(c, r),
    ensures
        at(start_model(), c, r) == start_square(c, r),
{
    lemma_sq_idx(c, r);
}

/// The starting board is well formed.
pub proof fn lemma_start_wf()
    ensures
        board_wf(start_model()),
{
    let m = start_model();
    lemma_start_at(5, 1);
    lemma_start_at(5, 8);
    assert forall|c: int, r: int|
        (#[trigger] at(m, c, r)) == Some(
            Piece { color: Color::White, kind: Kind::King },
        ) implies king_field(m, Color::White) == Some(Point(c as u8, r as u8)) by {
        if in_extent(c, r) {
            lemma_start_at(c, r);
            assert(c == 5 && r == 1);
        }
    }
    assert forall|c: int, r: int|
        (#[trigger] at(m, c, r)) == Some(
            Piece { color: Color::Black, kind: Kind::King },
        ) implies king_field(m, Color::Black) == Some(Point(c as u8, r as u8)) by {
        if in_extent(c, r) {
            lemma_start_at(c, r);
            assert(c == 5 && r == 8);
        }
    }
}

/// What each square shows after a step is applied.
pub proof fn lemma_at_apply(m: BoardModel, fc: int, fr: int, tc: int, tr: int, c: int, r: int)
    requires
        m.squares.len() == 64,
        in_extent(fc, fr),
        in_extent(tc, tr),
        !(fc == tc && fr == tr),
    ensures
        at(apply_move(m, fc, fr, tc, tr), c, r) == (if c == tc && r == tr {
            Some(at(m, fc, fr).unwrap())
        } else if c == fc && r == fr {
            None::<Piece>
        } else {
            at(m, c, r)
        }),
{
    if in_extent(c, r) {
        lemma_sq_idx(c, r);
        lemma_sq_idx(fc, fr);
        lemma_sq_idx(tc, tr);
        assert(sq_idx(c, r) == sq_idx(fc, fr) ==> c == fc && r == fr) by {
            if sq_idx(c, r) == sq_idx(fc, fr) {
                assert(c - 1 == sq_idx(c, r) % 8 && fc - 1 == sq_idx(fc, fr) % 8);
                assert(r - 1 == sq_idx(c, r) / 8 && fr - 1 == sq_idx(fc, fr) / 8);
            }
        }
        assert(sq_idx(c, r) == sq_idx(tc, tr) ==> c == tc && r == tr) by {
            if sq_idx(c, r) == sq_idx(tc, tr) {
                assert(c - 1 == sq_idx(c, r) % 8 && tc - 1 == sq_idx(tc, tr) % 8);
                assert(r - 1 == sq_idx(c, r) / 8 && tr - 1 == sq_idx(tc, tr) / 8);
            }
        }
    }
}

/// Applying a mechanically possible step to a well-formed board yields a
/// well-formed board.
pub proof fn lemma_apply_wf(m: BoardModel, fc: int, fr: int, tc: int, tr: int)
    requires
        board_wf(m),
        pseudo_legal(m, fc, fr, tc, tr),
    ensures
        board_wf(apply_move(m, fc, fr, tc, tr)),
{
    lemma_apply_king_ok(m, fc, fr, tc, tr, Color::White);
    lemma_apply_king_ok(m, fc, fr, tc, tr, Color::Black);
}

proof fn lemma_apply_king_ok(m: BoardModel, fc: int, fr: int, tc: int, tr: int, col: Color)
    requires
        board_wf(m),
        pseudo_legal(m, fc, fr, tc, tr),
    ensures
        king_ok(apply_move(m, fc, fr, tc, tr), col),
{
    let m2 = apply_move(m, fc, fr, tc, tr);
    let p = at(m, fc, fr).unwrap();
    let king = Piece { color: col, kind: Kind::King };
    assert forall|c: int, r: int|
        (#[trigger] at(m2, c, r)) == (if c == tc && r == tr {
            Some(p)
        } else if c == fc && r == fr {
            None::<Piece>
        } else {
            at(m, c, r)
        }) by {
        lemma_at_apply(m, fc, fr, tc, tr, c, r);
    }
    if p == king {
        // the king itself moved: its record follows it to the target
        assert(at(m2, tc, tr) == Some(king));
        assert(king_field(m2, col) == Some(Point(tc as u8, tr as u8)));
        assert forall|c: int, r: int|
            (#[trigger] at(m2, c, r)) == Some(king) implies king_field(m2, col) == Some(
            Point(c as u8, r as u8),
        ) by {
            if !(c == tc && r == tr) {
                assert(at(m, c, r) == Some(king));
                assert(king_field(m, col) == Some(Point(c as u8, r as u8)));
                assert(king_field(m, col) == Some(Point(fc as u8, fr as u8)));
                assert(c as u8 == fc as u8 && r as u8 == fr as u8);
                assert(in_extent(c, r));
                assert(c == fc && r == fr);
                assert(false);
            }
        }
    } else if at(m, tc, tr) == Some(king) {
        // the king was captured: its record clears and no square shows it
        assert(king_field(m2, col) is None);
        assert forall|c: int, r: int| (#[trigger] at(m2, c, r)) != Some(king) by {
            if !(c == tc && r == tr) && !(c == fc && r == fr) {
                if at(m, c, r) == Some(king) {
                    assert(king_field(m, col) == Some(Point(c as u8, r as u8)));
                    assert(king_field(m, col) == Some(Point(tc as u8, tr as u8)));
                    assert(in_extent(c, r));
                    assert(c == tc && r == tr);
                }
            }
        }
    } else {
        // this color's king, if any, stood elsewhere and stays put
        assert(king_field(m2, col) == king_field(m, col));
        if king_field(m, col) is Some {
            let kp = king_field(m, col).unwrap();
            assert(at(m, kp.0 as int, kp.1 as int) == Some(king));
            assert(!(kp.0 as int == fc && kp.1 as int == fr));
            assert(!(kp.0 as int == tc && kp.1 as int == tr));
            assert(at(m2, kp.0 as int, kp.1 as int) == Some(king));
        }
        assert forall|c: int, r: int|
            (#[trigger] at(m2, c, r)) == Some(king) implies king_field(m2, col) == Some(
            Point(c as u8, r as u8),
        ) by {
            if !(c == tc && r == tr) && !(c == fc && r == fr) {
                assert(at(m, c, r) == Some(king));
            }
        }
    }
}

} // verus!
