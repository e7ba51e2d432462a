use vstd::pervasive::VecAdditionalExecFns;
use vstd::prelude::*;

use crate::pieces::{Color, Kind, Piece, Point};
use crate::rules::{
    at, back_rank, bishop_ok, board_wf, col_clear, empty_squares, fall_clear, in_check, in_extent,
    king_field, king_ok, lemma_apply_wf, lemma_sq_idx, lemma_start_at, lemma_start_wf, lone_king,
    placed, pseudo_legal, rise_clear, rook_ok, row_clear, sq_at, sq_idx, start_model, start_square,
    apply_move, legal_move, BoardModel,
};

verus! {

/// Piece placement and the move-legality primitives.  `squares` holds the
/// 64 squares in row-major order; `grave_white` and `grave_black` record
/// captured pieces in capture order; `king_white` and `king_black` track
/// the kings' squares.
pub struct Board {
    pub(crate) squares: Vec<Option<Piece>>,
    pub(crate) grave_white: Vec<Piece>,
    pub(crate) grave_black: Vec<Piece>,
    pub(crate) king_white: Option<Point>,
    pub(crate) king_black: Option<Point>,
}

impl View for Board {
    type V = BoardModel;

    closed spec fn view(&self) -> BoardModel {
        BoardModel {
            squares: self.squares@,
            grave_white: self.grave_white@,
            grave_black: self.grave_black@,
            king_white: self.king_white,
            king_black: self.king_black,
        }
    }
}

impl Board {
    /// The piece on the square at column `c`, row `r`, if any.
    pub fn piece_at(&self, c: u8, r: u8) -> (res: Option<Piece>)
        requires
            board_wf(self@),
        ensures
            res == at(self@, c as int, r as int),
    {
        if 1 <= c && c <= 8 && 1 <= r && r <= 8 {
            let i: usize = (r as usize - 1) * 8 + (c as usize - 1);
            self.squares[i]
        } else {
            None
        }
    }

    fn row_clear_exec(&self, rr: u8, lo: u8, hi: u8) -> (b: bool)
        requires
            board_wf(self@),
            lo <= hi,
            hi <= 8,
        ensures
            b == row_clear(self@, rr as int, lo as int, hi as int),
    {
        let mut c: u8 = lo + 1;
        while c < hi
            invariant
                board_wf(self@),
                lo < c,
                c as int <= hi as int || c as int == lo as int + 1,
                forall|cc: int| (lo as int) < cc < (c as int) ==> #[trigger] at(self@, cc, rr as int) is None,
            decreases hi as int - c as int,
        {
            if self.piece_at(c, rr).is_some() {
                assert(!row_clear(self@, rr as int, lo as int, hi as int));
                return false;
            }
            c = c + 1;
        }
        true
    }

    fn col_clear_exec(&self, cc: u8, lo: u8, hi: u8) -> (b: bool)
        requires
            board_wf(self@),
            lo <= hi,
            hi <= 8,
        ensures
            b == col_clear(self@, cc as int, lo as int, hi as int),
    {
        let mut r: u8 = lo + 1;
        while r < hi
            invariant
                board_wf(self@),
                lo < r,
                r as int <= hi as int || r as int == lo as int + 1,
                forall|rr: int| (lo as int) < rr < (r as int) ==> #[trigger] at(self@, cc as int, rr) is None,
            decreases hi as int - r as int,
        {
            if self.piece_at(cc, r).is_some() {
                assert(!col_clear(self@, cc as int, lo as int, hi as int));
                return false;
            }
            r = r + 1;
        }
        true
    }

    fn rise_clear_exec(&self, fc: u8, fr: u8, tc: u8, tr: u8) -> (b: bool)
        requires
            board_wf(self@),
            1 <= fc <= 8,
            1 <= fr <= 8,
            1 <= tc <= 8,
            1 <= tr <= 8,
            tr as int - fr as int == tc as int - fc as int,
            fc != tc,
        ensures
            b == rise_clear(
                self@,
                fc as int,
                fr as int,
                crate::rules::min2(fc as int, tc as int),
                crate::rules::max2(fc as int, tc as int),
            ),
    {
        let lo: u8 = if fc < tc { fc } else { tc };
        let hi: u8 = if fc < tc { tc } else { fc };
        let mut c: u8 = lo + 1;
        while c < hi
            invariant
                board_wf(self@),
                lo < c <= hi,
                1 <= fc <= 8,
                1 <= fr <= 8,
                1 <= tc <= 8,
                1 <= tr <= 8,
                tr as int - fr as int == tc as int - fc as int,
                fc != tc,
                lo == (if fc < tc { fc } else { tc }),
                hi == (if fc < tc { tc } else { fc }),
                forall|cc: int|
                    (lo as int) < cc < (c as int) ==> #[trigger] at(
                        self@,
                        cc,
                        fr as int + (cc - fc as int),
                    ) is None,
            decreases hi as int - c as int,
        {
            let rr: i16 = fr as i16 + (c as i16 - fc as i16);
            assert(1 <= rr as int <= 8);
            if self.piece_at(c, rr as u8).is_some() {
                assert(!rise_clear(
                    self@,
                    fc as int,
                    fr as int,
                    crate::rules::min2(fc as int, tc as int),
                    crate::rules::max2(fc as int, tc as int),
                ));
                return false;
            }
            c = c + 1;
        }
        true
    }

    fn fall_clear_exec(&self, fc: u8, fr: u8, tc: u8, tr: u8) -> (b: bool)
        requires
            board_wf(self@),
            1 <= fc <= 8,
            1 <= fr <= 8,
            1 <= tc <= 8,
            1 <= tr <= 8,
            tr as int - fr as int == fc as int - tc as int,
            fc != tc,
        ensures
            b == fall_clear(
                self@,
                fc as int,
                fr as int,
                crate::rules::min2(fc as int, tc as int),
                crate::rules::max2(fc as int, tc as int),
            ),
    {
        let lo: u8 = if fc < tc { fc } else { tc };
        let hi: u8 = if fc < tc { tc } else { fc };
        let mut c: u8 = lo + 1;
        while c < hi
            invariant
                board_wf(self@),
                lo < c <= hi,
                1 <= fc <= 8,
                1 <= fr <= 8,
                1 <= tc <= 8,
                1 <= tr <= 8,
                tr as int - fr as int == fc as int - tc as int,
                fc != tc,
                lo == (if fc < tc { fc } else { tc }),
                hi == (if fc < tc { tc } else { fc }),
                forall|cc: int|
                    (lo as int) < cc < (c as int) ==> #[trigger] at(
                        self@,
                        cc,
                        fr as int - (cc - fc as int),
                    ) is None,
            decreases hi as int - c as int,
        {
            let rr: i16 = fr as i16 - (c as i16 - fc as i16);
            assert(1 <= rr as int <= 8);
            if self.piece_at(c, rr as u8).is_some() {
                assert(!fall_clear(
                    self@,
                    fc as int,
                    fr as int,
                    crate::rules::min2(fc as int, tc as int),
                    crate::rules::max2(fc as int, tc as int),
                ));
                return false;
            }
            c = c + 1;
        }
        true
    }

    fn rook_ok_exec(&self, fc: u8, fr: u8, tc: u8, tr: u8) -> (b: bool)
        requires
            board_wf(self@),
            1 <= fc <= 8,
            1 <= fr <= 8,
            1 <= tc <= 8,
            1 <= tr <= 8,
            !(fc == tc && fr == tr),
        ensures
            b == rook_ok(self@, fc as int, fr as int, tc as int, tr as int),
    {
        if fr == tr {
            let lo: u8 = if fc < tc { fc } else { tc };
            let hi: u8 = if fc < tc { tc } else { fc };
            self.row_clear_exec(fr, lo, hi)
        } else if fc == tc {
            let lo: u8 = if fr < tr { fr } else { tr };
            let hi: u8 = if fr < tr { tr } else { fr };
            self.col_clear_exec(fc, lo, hi)
        } else {
            false
        }
    }

    fn bishop_ok_exec(&self, fc: u8, fr: u8, tc: u8, tr: u8) -> (b: bool)
        requires
            board_wf(self@),
            1 <= fc <= 8,
            1 <= fr <= 8,
            1 <= tc <= 8,
            1 <= tr <= 8,
            !(fc == tc && fr == tr),
        ensures
            b == bishop_ok(self@, fc as int, fr as int, tc as int, tr as int),
    {
        let dc: i16 = tc as i16 - fc as i16;
        let dr: i16 = tr as i16 - fr as i16;
        if dc != 0 && dc == dr {
            self.rise_clear_exec(fc, fr, tc, tr)
        } else if dc != 0 && dc == 0 - dr {
            self.fall_clear_exec(fc, fr, tc, tr)
        } else {
            false
        }
    }

    fn pseudo_legal_exec(&self, fc: u8, fr: u8, tc: u8, tr: u8) -> (b: bool)
        requires
            board_wf(self@),
        ensures
            b == pseudo_legal(self@, fc as int, fr as int, tc as int, tr as int),
    {
        if !(1 <= fc && fc <= 8 && 1 <= fr && fr <= 8 && 1 <= tc && tc <= 8 && 1 <= tr && tr <= 8) {
            return false;
        }
        if fc == tc && fr == tr {
            return false;
        }
        let p: Piece = match self.piece_at(fc, fr) {
            Some(p) => p,
            None => {
                return false;
            },
        };
        match self.piece_at(tc, tr) {
            Some(q) => {
                if q.color == p.color {
                    return false;
                }
            },
            None => {},
        }
        let dc: i16 = tc as i16 - fc as i16;
        let dr: i16 = tr as i16 - fr as i16;
        match p.kind {
            Kind::Pawn => {
                let dir: i16 = match p.color {
                    Color::White => 1,
                    Color::Black => -1,
                };
                let start: u8 = match p.color {
                    Color::White => 2,
                    Color::Black => 7,
                };
                if dc == 0 && dr == dir {
                    self.piece_at(tc, tr).is_none()
                } else if dc == 0 && fr == start && dr == 2 * dir {
                    let mid_r: u8 = if dir == 1 {
                        fr + 1
                    } else {
                        fr - 1
                    };
                    self.piece_at(fc, mid_r).is_none() && self.piece_at(tc, tr).is_none()
                } else if (dc == 1 || dc == -1) && dr == dir {
                    match self.piece_at(tc, tr) {
                        Some(q) => q.color != p.color,
                        None => false,
                    }
                } else {
                    false
                }
            },
            Kind::Knight => ((dc == 1 || dc == -1) && (dr == 2 || dr == -2)) || ((dc == 2 || dc
                == -2) && (dr == 1 || dr == -1)),
            Kind::Bishop => self.bishop_ok_exec(fc, fr, tc, tr),
            Kind::Rook => self.rook_ok_exec(fc, fr, tc, tr),
            Kind::Queen => {
                if fr == tr || fc == tc {
                    self.rook_ok_exec(fc, fr, tc, tr)
                } else {
                    self.bishop_ok_exec(fc, fr, tc, tr)
                }
            },
            Kind::King => -1 <= dc && dc <= 1 && -1 <= dr && dr <= 1,
        }
    }

    /// Overwrites the square at `p` with `piece` outright: no relocation,
    /// no capture record.  Neither the placed piece nor the overwritten
    /// occupant may be a king, so the king records stay exact.
    pub(crate) fn place_piece(&mut self, p: Point, piece: Piece)
        requires
            board_wf(old(self)@),
            in_extent(p.0 as int, p.1 as int),
            piece.kind != Kind::King,
            !(at(old(self)@, p.0 as int, p.1 as int) matches Some(q) && q.kind == Kind::King),
        ensures
            final(self)@ == (BoardModel {
                squares: old(self)@.squares.update(
                    sq_idx(p.0 as int, p.1 as int),
                    Some(piece),
                ),
                ..old(self)@
            }),
            board_wf(final(self)@),
    {
        proof {
            lemma_sq_idx(p.0 as int, p.1 as int);
        }
        let i: usize = (p.1 as usize - 1) * 8 + (p.0 as usize - 1);
        self.squares.set(i, Some(piece));
        proof {
            assert(self@ =~= (BoardModel {
                squares: old(self)@.squares.update(sq_idx(p.0 as int, p.1 as int), Some(piece)),
                ..old(self)@
            }));
            crate::rules::lemma_place_wf(old(self)@, p.0 as int, p.1 as int, piece);
        }
    }

    /// A copy of this board whose model is the same.
    fn snapshot(&self) -> (b: Board)
        ensures
            b@ == self@,
    {
        let mut sq: Vec<Option<Piece>> = Vec::new();
        let mut i: usize = 0;
        while i < self.squares.len()
            invariant
                i <= self.squares@.len(),
                sq@.len() == i,
                forall|j: int| 0 <= j < i ==> sq@[j] == self.squares@[j],
            decreases self.squares@.len() - i,
        {
            sq.push(self.squares[i]);
            i = i + 1;
        }
        let mut gw: Vec<Piece> = Vec::new();
        let mut j: usize = 0;
        while j < self.grave_white.len()
            invariant
                j <= self.grave_white@.len(),
                gw@.len() == j,
                forall|k: int| 0 <= k < j ==> gw@[k] == self.grave_white@[k],
            decreases self.grave_white@.len() - j,
        {
            gw.push(self.grave_white[j]);
            j = j + 1;
        }
        let mut gb: Vec<Piece> = Vec::new();
        let mut k: usize = 0;
        while k < self.grave_black.len()
            invariant
                k <= self.grave_black@.len(),
                gb@.len() == k,
                forall|l: int| 0 <= l < k ==> gb@[l] == self.grave_black@[l],
            decreases self.grave_black@.len() - k,
        {
            gb.push(self.grave_black[k]);
            k = k + 1;
        }
        let b = Board {
            squares: sq,
            grave_white: gw,
            grave_black: gb,
            king_white: self.king_white,
            king_black: self.king_black,
        };
        proof {
            assert(b@.squares =~= self@.squares);
            assert(b@.grave_white =~= self@.grave_white);
            assert(b@.grave_black =~= self@.grave_black);
            assert(b@ =~= self@);
        }
        b
    }

    /// Relocates the piece at `source` to `target` without re-validating
    /// legality: a mechanical apply step.  Returns false, changing nothing,
    /// when the source square is empty.  Callers must have confirmed the
    /// step beforehand.
    pub fn move_piece(&mut self, source: Point, target: Point) -> (r: bool)
        requires
            board_wf(old(self)@),
            at(old(self)@, source.0 as int, source.1 as int) is Some ==> pseudo_legal(
                old(self)@,
                source.0 as int,
                source.1 as int,
                target.0 as int,
                target.1 as int,
            ),
        ensures
            r == (at(old(self)@, source.0 as int, source.1 as int) is Some),
            !r ==> final(self)@ == old(self)@,
            r ==> final(self)@ == apply_move(
                old(self)@,
                source.0 as int,
                source.1 as int,
                target.0 as int,
                target.1 as int,
            ),
            board_wf(final(self)@),
    {
        let p: Piece = match self.piece_at(source.0, source.1) {
            Some(p) => p,
            None => {
                return false;
            },
        };
        let captured = self.piece_at(target.0, target.1);
        match captured {
            Some(q) => {
                match q.color {
                    Color::White => self.grave_white.push(q),
                    Color::Black => self.grave_black.push(q),
                }
            },
            None => {},
        }
        let ti: usize = (target.1 as usize - 1) * 8 + (target.0 as usize - 1);
        let si: usize = (source.1 as usize - 1) * 8 + (source.0 as usize - 1);
        self.squares.set(ti, Some(p));
        self.squares.set(si, None);
        if p.kind == Kind::King {
            match p.color {
                Color::White => {
                    self.king_white = Some(target);
                },
                Color::Black => {
                    self.king_black = Some(target);
                },
            }
        }
        match captured {
            Some(q) => {
                if q.kind == Kind::King {
                    match q.color {
                        Color::White => {
                            self.king_white = None;
                        },
                        Color::Black => {
                            self.king_black = None;
                        },
                    }
                }
            },
            None => {},
        }
        proof {
            let fc = source.0 as int;
            let fr = source.1 as int;
            let tc = target.0 as int;
            let tr = target.1 as int;
            assert(self@ =~= apply_move(old(self)@, fc, fr, tc, tr));
            lemma_apply_wf(old(self)@, fc, fr, tc, tr);
        }
        true
    }

    /// Searches for an opposing piece that could step onto `color`'s king's
    /// square; the attacker's square is returned when one exists.
    pub fn detect_check(&self, color: &Color) -> (res: Option<Point>)
        requires
            board_wf(self@),
        ensures
            res is Some <==> in_check(self@, *color),
            res matches Some(ap) ==> pseudo_legal(
                self@,
                ap.0 as int,
                ap.1 as int,
                king_field(self@, *color).unwrap().0 as int,
                king_field(self@, *color).unwrap().1 as int,
            ),
    {
        let king = Piece { color: *color, kind: Kind::King };
        let k: Point = match (match color {
            Color::White => self.king_white,
            Color::Black => self.king_black,
        }) {
            Some(k) => k,
            None => {
                proof {
                    if in_check(self@, *color) {
                        let (kc, kr, ac, ar) = choose|kc: int, kr: int, ac: int, ar: int|
                            at(self@, kc, kr) == Some(king) && #[trigger] pseudo_legal(
                                self@,
                                ac,
                                ar,
                                kc,
                                kr,
                            );
                        assert(king_field(self@, *color) == Some(Point(kc as u8, kr as u8)));
                        assert(false);
                    }
                }
                return None;
            },
        };
        let mut ac: u8 = 1;
        while ac <= 8
            invariant
                board_wf(self@),
                king == (Piece { color: *color, kind: Kind::King }),
                king_field(self@, *color) == Some(k),
                1 <= ac <= 9,
                forall|a: int, b: int|
                    1 <= a < ac && 1 <= b <= 8 ==> !(#[trigger] pseudo_legal(
                        self@,
                        a,
                        b,
                        k.0 as int,
                        k.1 as int,
                    )),
            decreases 9 - ac as int,
        {
            let mut ar: u8 = 1;
            while ar <= 8
                invariant
                    board_wf(self@),
                    king == (Piece { color: *color, kind: Kind::King }),
                    king_field(self@, *color) == Some(k),
                    1 <= ac <= 8,
                    1 <= ar <= 9,
                    forall|a: int, b: int|
                        1 <= a < ac && 1 <= b <= 8 ==> !(#[trigger] pseudo_legal(
                            self@,
                            a,
                            b,
                            k.0 as int,
                            k.1 as int,
                        )),
                    forall|b: int|
                        1 <= b < ar ==> !(#[trigger] pseudo_legal(
                            self@,
                            ac as int,
                            b,
                            k.0 as int,
                            k.1 as int,
                        )),
                decreases 9 - ar as int,
            {
                if self.pseudo_legal_exec(ac, ar, k.0, k.1) {
                    proof {
                        assert(at(self@, k.0 as int, k.1 as int) == Some(king));
                        assert(in_check(self@, *color));
                    }
                    return Some(Point(ac, ar));
                }
                ar = ar + 1;
            }
            ac = ac + 1;
        }
        proof {
            if in_check(self@, *color) {
                let (kc, kr, a, b) = choose|kc: int, kr: int, a: int, b: int|
                    at(self@, kc, kr) == Some(king) && #[trigger] pseudo_legal(self@, a, b, kc, kr);
                assert(king_field(self@, *color) == Some(Point(kc as u8, kr as u8)));
                assert(in_extent(kc, kr));
                assert(k.0 as int == kc && k.1 as int == kr);
                assert(in_extent(a, b));
                assert(false);
            }
        }
        None
    }

    /// Whether the piece at the source may step to the target and leave its
    /// own king safe: the step is simulated on a copy.
    fn legal_exec(&self, fc: u8, fr: u8, tc: u8, tr: u8) -> (b: bool)
        requires
            board_wf(self@),
        ensures
            b == legal_move(self@, fc as int, fr as int, tc as int, tr as int),
    {
        if !self.pseudo_legal_exec(fc, fr, tc, tr) {
            return false;
        }
        let mover: Color = self.piece_at(fc, fr).unwrap().color;
        let mut sim = self.snapshot();
        sim.move_piece(Point(fc, fr), Point(tc, tr));
        match sim.detect_check(&mover) {
            Some(_) => false,
            None => true,
        }
    }

    /// Every square the piece at `source` may legally step to: movement
    /// rules, occupancy, and the rule that the mover's own king must not be
    /// left attacked.  Empty when the source square is empty or no step is
    /// legal.
    pub fn get_allowed_moves(&self, source: &Point) -> (moves: Vec<Point>)
        requires
            board_wf(self@),
        ensures
            forall|p: Point| #[trigger] moves@.contains(p) <==> legal_move(
                self@,
                source.0 as int,
                source.1 as int,
                p.0 as int,
                p.1 as int,
            ),
    {
        let fc: u8 = source.0;
        let fr: u8 = source.1;
        let mut moves: Vec<Point> = Vec::new();
        let mut tc: u8 = 1;
        while tc <= 8
            invariant
                board_wf(self@),
                1 <= tc <= 9,
                forall|p: Point| #[trigger] moves@.contains(p) <==> (legal_move(
                    self@,
                    fc as int,
                    fr as int,
                    p.0 as int,
                    p.1 as int,
                ) && 1 <= p.0 < tc),
            decreases 9 - tc as int,
        {
            let mut tr: u8 = 1;
            while tr <= 8
                invariant
                    board_wf(self@),
                    1 <= tc <= 8,
                    1 <= tr <= 9,
                    forall|p: Point| #[trigger] moves@.contains(p) <==> (legal_move(
                        self@,
                        fc as int,
                        fr as int,
                        p.0 as int,
                        p.1 as int,
                    ) && (p.0 < tc || (p.0 == tc && p.1 < tr))),
                decreases 9 - tr as int,
            {
                if self.legal_exec(fc, fr, tc, tr) {
                    let ghost before = moves@;
                    moves.push(Point(tc, tr));
                    proof {
                        assert forall|p: Point| #[trigger] moves@.contains(p) <==> (before.contains(
                            p,
                        ) || p == Point(tc, tr)) by {
                            lemma_push_contains(before, Point(tc, tr), p);
                        }
                    }
                } else {
                    proof {
                        assert forall|p: Point|
                            p == Point(tc, tr) implies !legal_move(
                            self@,
                            fc as int,
                            fr as int,
                            p.0 as int,
                            p.1 as int,
                        ) by {}
                    }
                }
                tr = tr + 1;
            }
            proof {
                assert forall|p: Point| #[trigger] moves@.contains(p) <==> (legal_move(
                    self@,
                    fc as int,
                    fr as int,
                    p.0 as int,
                    p.1 as int,
                ) && 1 <= p.0 < tc + 1) by {
                    if legal_move(self@, fc as int, fr as int, p.0 as int, p.1 as int) {
                        assert(in_extent(p.0 as int, p.1 as int));
                    }
                }
            }
            tc = tc + 1;
        }
        proof {
            assert forall|p: Point| #[trigger] moves@.contains(p) <==> legal_move(
                self@,
                fc as int,
                fr as int,
                p.0 as int,
                p.1 as int,
            ) by {
                if legal_move(self@, fc as int, fr as int, p.0 as int, p.1 as int) {
                    assert(in_extent(p.0 as int, p.1 as int));
                }
            }
        }
        moves
    }

    /// The standard starting position: White on rows 1 and 2, Black on
    /// rows 7 and 8, both graveyards empty, both kings recorded.
    pub fn new() -> (b: Board)
        ensures
            b@ == start_model(),
            board_wf(b@),
    {
        let mut sq: Vec<Option<Piece>> = Vec::new();
        let mut r: u8 = 1;
        while r <= 8
            invariant
                1 <= r <= 9,
                sq@.len() == (r as int - 1) * 8,
                forall|j: int| 0 <= j < sq@.len() ==> sq@[j] == start_model().squares[j],
            decreases 9 - r as int,
        {
            let mut c: u8 = 1;
            while c <= 8
                invariant
                    1 <= r <= 8,
                    1 <= c <= 9,
                    sq@.len() == (r as int - 1) * 8 + (c as int - 1),
                    forall|j: int| 0 <= j < sq@.len() ==> sq@[j] == start_model().squares[j],
                decreases 9 - c as int,
            {
                sq.push(start_piece(c, r));
                proof {
                    lemma_start_at(c as int, r as int);
                }
                c = c + 1;
            }
            r = r + 1;
        }
        let b = Board {
            squares: sq,
            grave_white: Vec::new(),
            grave_black: Vec::new(),
            king_white: Some(Point(5, 1)),
            king_black: Some(Point(5, 8)),
        };
        proof {
            assert(b@.squares =~= start_model().squares);
            assert(b@ =~= start_model());
            lemma_start_wf();
        }
        b
    }
}

fn back_rank_piece(c: u8) -> (k: Kind)
    requires
        1 <= c <= 8,
    ensures
        k == back_rank(c as int),
{
    if c == 1 || c == 8 {
        Kind::Rook
    } else if c == 2 || c == 7 {
        Kind::Knight
    } else if c == 3 || c == 6 {
        Kind::Bishop
    } else if c == 4 {
        Kind::Queen
    } else {
        Kind::King
    }
}

fn start_piece(c: u8, r: u8) -> (res: Option<Piece>)
    requires
        1 <= c <= 8,
        1 <= r <= 8,
    ensures
        res == start_square(c as int, r as int),
{
    if r == 1 {
        Some(Piece { color: Color::White, kind: back_rank_piece(c) })
    } else if r == 2 {
        Some(Piece { color: Color::White, kind: Kind::Pawn })
    } else if r == 7 {
        Some(Piece { color: Color::Black, kind: Kind::Pawn })
    } else if r == 8 {
        Some(Piece { color: Color::Black, kind: back_rank_piece(c) })
    } else {
        None
    }
}

/// Scans the squares for the king of color `col`; exact when at most one
/// such king stands on the board.
fn find_king(sq: &Vec<Option<Piece>>, col: Color) -> (res: Option<Point>)
    requires
        sq@.len() == 64,
        lone_king(sq@, col),
    ensures
        res matches Some(p) ==> in_extent(p.0 as int, p.1 as int) && sq_at(
            sq@,
            p.0 as int,
            p.1 as int,
        ) == Some(Piece { color: col, kind: Kind::King }),
        res is None ==> forall|c: int, r: int| #[trigger] sq_at(sq@, c, r) != Some(
            Piece { color: col, kind: Kind::King },
        ),
{
    let king = Piece { color: col, kind: Kind::King };
    let mut c: u8 = 1;
    while c <= 8
        invariant
            sq@.len() == 64,
            king == (Piece { color: col, kind: Kind::King }),
            1 <= c <= 9,
            forall|a: int, b: int|
                1 <= a < c && 1 <= b <= 8 ==> #[trigger] sq_at(sq@, a, b) != Some(king),
        decreases 9 - c as int,
    {
        let mut r: u8 = 1;
        while r <= 8
            invariant
                sq@.len() == 64,
                king == (Piece { color: col, kind: Kind::King }),
                1 <= c <= 8,
                1 <= r <= 9,
                forall|a: int, b: int|
                    1 <= a < c && 1 <= b <= 8 ==> #[trigger] sq_at(sq@, a, b) != Some(king),
                forall|b: int| 1 <= b < r ==> #[trigger] sq_at(sq@, c as int, b) != Some(king),
            decreases 9 - r as int,
        {
            let i: usize = (r as usize - 1) * 8 + (c as usize - 1);
            match sq[i] {
                Some(q) => {
                    if q.color == col && q.kind == Kind::King {
                        return Some(Point(c, r));
                    }
                },
                None => {},
            }
            r = r + 1;
        }
        c = c + 1;
    }
    None
}

/// Builds a board holding exactly the listed pieces, placed in order (a
/// later entry for a square overwrites an earlier one), with both
/// graveyards empty and the king records computed from the placement.
pub fn create_test_board(positions: Vec<(Point, Piece)>) -> (b: Board)
    requires
        forall|i: int|
            0 <= i < positions@.len() ==> in_extent(
                (#[trigger] positions@[i]).0.0 as int,
                positions@[i].0.1 as int,
            ),
        lone_king(placed(positions@), Color::White),
        lone_king(placed(positions@), Color::Black),
    ensures
        b@.squares == placed(positions@),
        b@.grave_white == Seq::<Piece>::empty(),
        b@.grave_black == Seq::<Piece>::empty(),
        board_wf(b@),
{
    let mut sq: Vec<Option<Piece>> = Vec::new();
    let mut i: usize = 0;
    while i < 64
        invariant
            sq@.len() == i,
            i <= 64,
            forall|j: int| 0 <= j < i ==> sq@[j] is None,
        decreases 64 - i,
    {
        sq.push(None);
        i = i + 1;
    }
    proof {
        assert(sq@ =~= empty_squares());
        assert(positions@.take(0) =~= Seq::<(Point, Piece)>::empty());
    }
    let mut k: usize = 0;
    while k < positions.len()
        invariant
            sq@.len() == 64,
            k <= positions@.len(),
            sq@ == placed(positions@.take(k as int)),
            forall|i2: int|
                0 <= i2 < positions@.len() ==> in_extent(
                    (#[trigger] positions@[i2]).0.0 as int,
                    positions@[i2].0.1 as int,
                ),
        decreases positions@.len() - k,
    {
        let (pt, pc) = positions[k];
        let j: usize = (pt.1 as usize - 1) * 8 + (pt.0 as usize - 1);
        proof {
            lemma_sq_idx(pt.0 as int, pt.1 as int);
        }
        sq.set(j, Some(pc));
        proof {
            let taken = positions@.take(k as int + 1);
            assert(taken.drop_last() =~= positions@.take(k as int));
            assert(taken.last() == positions@[k as int]);
            assert(sq@ == placed(taken));
        }
        k = k + 1;
    }
    proof {
        assert(positions@.take(positions@.len() as int) =~= positions@);
    }
    let kw = find_king(&sq, Color::White);
    let kb = find_king(&sq, Color::Black);
    let b = Board {
        squares: sq,
        grave_white: Vec::new(),
        grave_black: Vec::new(),
        king_white: kw,
        king_black: kb,
    };
    proof {
        lemma_scanned_kings_ok(b@, Color::White);
        lemma_scanned_kings_ok(b@, Color::Black);
    }
    b
}

/// A king record found by scanning satisfies the exactness the board
/// invariant asks for, given at most one king of the color.
proof fn lemma_scanned_kings_ok(m: BoardModel, col: Color)
    requires
        m.squares.len() == 64,
        lone_king(m.squares, col),
        king_field(m, col) matches Some(p) ==> in_extent(p.0 as int, p.1 as int) && sq_at(
            m.squares,
            p.0 as int,
            p.1 as int,
        ) == Some(Piece { color: col, kind: Kind::King }),
        king_field(m, col) is None ==> forall|c: int, r: int| #[trigger] sq_at(m.squares, c, r)
            != Some(Piece { color: col, kind: Kind::King }),
    ensures
        king_ok(m, col),
{
    let king = Piece { color: col, kind: Kind::King };
    assert forall|c: int, r: int| (#[trigger] at(m, c, r)) == Some(king) implies king_field(m, col)
        == Some(Point(c as u8, r as u8)) by {
        assert(sq_at(m.squares, c, r) == Some(king));
        assert(king_field(m, col) is Some);
        let p = king_field(m, col).unwrap();
        assert(sq_at(m.squares, p.0 as int, p.1 as int) == Some(king));
        assert(c == p.0 as int && r == p.1 as int);
        assert(in_extent(c, r));
        assert(p == Point(c as u8, r as u8));
    }
}

proof fn lemma_push_contains(s: Seq<Point>, q: Point, p: Point)
    ensures
        s.push(q).contains(p) <==> (s.contains(p) || p == q),
{
    if s.push(q).contains(p) {
        let i = choose|i: int| 0 <= i < s.push(q).len() && s.push(q)[i] == p;
        if i < s.len() {
            assert(s[i] == p);
        }
    }
    if s.contains(p) {
        let i = choose|i: int| 0 <= i < s.len() && s[i] == p;
        assert(s.push(q)[i] == p);
    }
    if p == q {
        assert(s.push(q)[s.len() as int] == p);
    }
}

} // verus!

