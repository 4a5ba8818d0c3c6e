//! Positions: what the rules engine holds, as plain values, and the questions
//! the search asks of it.
use vstd::prelude::*;
use chess::{BitBoard, Board, BoardStatus, ChessMove, MoveGen, Piece, ALL_PIECES, ALL_SQUARES, EMPTY};
use crate::moves::{Color, Move, Status};

verus! {

/// The board of the `chess` crate: the placement, the rights and what the
/// crate derives from them, in fields that are private to it.
#[verifier::external_type_specification]
#[verifier::external_body]
pub struct ExBoard(Board);

/// Where the pieces stand: one bit per square in each mask, bit `s` for square
/// `s`. `white` and `black` hold the squares each side occupies, the other six
/// the squares that hold a piece of that kind, of either colour.
#[derive(Clone, Copy, Debug, PartialEq, Eq, Structural)]
pub struct Placement {
    pub white: u64,
    pub black: u64,
    pub pawns: u64,
    pub knights: u64,
    pub bishops: u64,
    pub rooks: u64,
    pub queens: u64,
    pub kings: u64,
}

/// Whether bit `sq` of `mask` is set.
pub open spec fn has_bit(mask: u64, sq: nat) -> bool {
    sq < 64 && (mask >> (sq as u64)) & 1 == 1
}

/// How many of the lowest `n` bits of `mask` are set.
pub open spec fn bit_count(mask: u64, n: nat) -> nat
    decreases n,
{
    if n == 0 {
        0
    } else {
        bit_count(mask, (n - 1) as nat) + if has_bit(mask, (n - 1) as nat) {
            1nat
        } else {
            0nat
        }
    }
}

/// No more than `n` of the lowest `n` bits are set.
pub proof fn lemma_bit_count_bound(mask: u64, n: nat)
    ensures
        bit_count(mask, n) <= n,
    decreases n,
{
    if n > 0 {
        lemma_bit_count_bound(mask, (n - 1) as nat);
    }
}

/// The number of set bits of `mask`.
pub fn count_bits(mask: u64) -> (n: u32)
    ensures
        n == bit_count(mask, 64),
        n <= 64,
{
    let mut n: u32 = 0;
    let mut sq: u64 = 0;
    while sq < 64
        invariant
            sq <= 64,
            n == bit_count(mask, sq as nat),
            n <= sq,
        decreases 64 - sq,
    {
        if (mask >> sq) & 1 == 1 {
            n = n + 1;
        }
        sq = sq + 1;
    }
    n
}

impl Placement {
    /// The squares that `side` occupies.
    pub open spec fn of(self, side: Color) -> u64 {
        match side {
            Color::White => self.white,
            Color::Black => self.black,
        }
    }

    /// The number of occupied squares.
    pub open spec fn total(self) -> nat {
        bit_count(self.white | self.black, 64)
    }

    /// The squares that `side` occupies.
    pub fn side(&self, side: Color) -> (mask: u64)
        ensures
            mask == self.of(side),
    {
        match side {
            Color::White => self.white,
            Color::Black => self.black,
        }
    }

    /// The number of pieces on the board.
    pub fn count(&self) -> (n: u32)
        ensures
            n == self.total(),
            n <= 64,
    {
        count_bits(self.white | self.black)
    }
}

/// A position as plain values: the placement, the side to move, each side's
/// castling rights (0 none, 1 king side, 2 queen side, 3 both), the square of
/// a pawn that may be taken in passing, the pieces that give check, the
/// pieces that are pinned, and the 64-bit identity under which the position
/// is cached. Two positions may share an identity.
#[derive(Clone, Copy, Debug, PartialEq, Eq, Structural)]
pub struct Snapshot {
    pub placement: Placement,
    pub to_move: Color,
    pub white_castling: u8,
    pub black_castling: u8,
    pub en_passant: Option<u8>,
    pub checking: u64,
    pub pinned: u64,
    pub identity: u64,
}

/// The most pieces that one side can have.
pub const SIDE_LIMIT: u32 = 16;

/// What a board holds: the values that the getters of the `chess` crate hand
/// out for it, its hash among them.
pub uninterp spec fn board_contents(b: Board) -> Snapshot;

/// What `Board::is_sane` answers: whether the rules engine accepts the
/// position as one that can arise in a game.
pub uninterp spec fn valid_of(s: Snapshot) -> bool;

/// What `MoveGen` yields: the legal moves of a position, in the order in which
/// the rules engine hands them out, first those that land on a piece of the
/// opponent, then the rest.
pub uninterp spec fn moves_of(s: Snapshot) -> (Seq<Move>, Seq<Move>);

/// What `Board::make_move_new` returns: the position that a move leads to.
pub uninterp spec fn child_of(s: Snapshot, m: Move) -> Snapshot;

impl Snapshot {
    /// Whether the position is one that the search works on: the rules engine
    /// accepts it, and neither side has more pieces than a game gives it.
    pub open spec fn admitted(self) -> bool {
        &&& valid_of(self)
        &&& bit_count(self.placement.white, 64) <= SIDE_LIMIT
        &&& bit_count(self.placement.black, 64) <= SIDE_LIMIT
    }

    /// The legal moves that take a piece standing on their target square.
    pub open spec fn captures(self) -> Seq<Move> {
        moves_of(self).0
    }

    /// The legal moves that land on an empty square.
    pub open spec fn quiets(self) -> Seq<Move> {
        moves_of(self).1
    }

    /// Whether `m` is a legal move.
    pub open spec fn legal(self, m: Move) -> bool {
        self.captures().contains(m) || self.quiets().contains(m)
    }

    /// The squares that the side not to move occupies.
    pub open spec fn targets(self) -> u64 {
        self.placement.of(self.to_move.opponent())
    }

    /// Ongoing while a legal move exists; without one, checkmate if the side
    /// to move is in check and stalemate if it is not.
    pub open spec fn status(self) -> Status {
        if self.captures().len() + self.quiets().len() > 0 {
            Status::Ongoing
        } else if self.checking == 0 {
            Status::Stalemate
        } else {
            Status::Checkmate
        }
    }
}

/// `Board::is_sane`: whether the crate accepts the board. It looks at kings,
/// overlapping pieces, castling rights and the like, and panics on no board.
#[verifier::external_body]
fn board_is_sane(b: &Board) -> (ok: bool)
    ensures
        ok == valid_of(board_contents(*b)),
{
    b.is_sane()
}

/// `Board::color_combined` and `Board::pieces`: the eight masks of a board.
#[verifier::external_body]
fn board_placement(b: &Board) -> (p: Placement)
    ensures
        p == board_contents(*b).placement,
{
    Placement {
        white: b.color_combined(chess::Color::White).0,
        black: b.color_combined(chess::Color::Black).0,
        pawns: b.pieces(Piece::Pawn).0,
        knights: b.pieces(Piece::Knight).0,
        bishops: b.pieces(Piece::Bishop).0,
        rooks: b.pieces(Piece::Rook).0,
        queens: b.pieces(Piece::Queen).0,
        kings: b.pieces(Piece::King).0,
    }
}

/// `Board::side_to_move`.
#[verifier::external_body]
fn board_turn(b: &Board) -> (c: Color)
    ensures
        c == board_contents(*b).to_move,
{
    match b.side_to_move() {
        chess::Color::White => Color::White,
        chess::Color::Black => Color::Black,
    }
}

/// `Board::castle_rights` and `Board::en_passant`, as (white castling, black
/// castling, en passant square).
#[verifier::external_body]
fn board_rights(b: &Board) -> (r: (u8, u8, Option<u8>))
    ensures
        r.0 == board_contents(*b).white_castling,
        r.1 == board_contents(*b).black_castling,
        r.2 == board_contents(*b).en_passant,
{
    (
        b.castle_rights(chess::Color::White).to_index() as u8,
        b.castle_rights(chess::Color::Black).to_index() as u8,
        b.en_passant().map(|s| s.to_int()),
    )
}

/// `Board::checkers` and `Board::pinned`: the masks that the crate keeps of
/// the pieces that give check and of the pieces that are pinned.
#[verifier::external_body]
fn board_marks(b: &Board) -> (r: (u64, u64))
    ensures
        r.0 == board_contents(*b).checking,
        r.1 == board_contents(*b).pinned,
{
    (b.checkers().0, b.pinned().0)
}

/// `Board::status`, which counts the legal moves and, where there is none,
/// looks whether the side to move is in check. The move generator keeps one
/// entry for each piece that can move and up to two for taking in passing,
/// in a list of 18 that it does not guard: hence the limit on the pieces of
/// a side.
#[verifier::external_body]
fn board_status(b: &Board) -> (s: Status)
    requires
        board_contents(*b).admitted(),
    ensures
        s == board_contents(*b).status(),
{
    match b.status() {
        BoardStatus::Ongoing => Status::Ongoing,
        BoardStatus::Stalemate => Status::Stalemate,
        BoardStatus::Checkmate => Status::Checkmate,
    }
}

/// `Board::get_hash`: the hash that the board carries, with its rights and
/// its side to move mixed in.
#[verifier::external_body]
fn board_hash(b: &Board) -> (h: u64)
    ensures
        h == board_contents(*b).identity,
{
    b.get_hash()
}

/// `MoveGen::new_legal`, iterated twice as the crate documents: with the
/// squares of the opponent's pieces as the iterator mask, which yields the
/// moves that land on one of them, then with the full mask, which yields the
/// moves that are left, and those land on none of them. A move of the crate
/// holds two squares, which are below 64, and may hold a promotion piece,
/// which is below 6. The limit on the pieces of a side keeps the
/// generator's list of 18 entries from overflowing.
#[verifier::external_body]
fn board_moves(b: &Board, targets: u64) -> (lists: (Vec<Move>, Vec<Move>))
    requires
        board_contents(*b).admitted(),
        targets == board_contents(*b).targets(),
    ensures
        lists.0@ == moves_of(board_contents(*b)).0,
        lists.1@ == moves_of(board_contents(*b)).1,
        forall|i: int|
            0 <= i < lists.0@.len() ==> (#[trigger] lists.0@[i]).in_range() && has_bit(
                targets,
                lists.0@[i].dest as nat,
            ),
        forall|i: int|
            0 <= i < lists.1@.len() ==> (#[trigger] lists.1@[i]).in_range() && !has_bit(
                targets,
                lists.1@[i].dest as nat,
            ),
{
    let plain = |m: ChessMove| Move {
        source: m.get_source().to_int(),
        dest: m.get_dest().to_int(),
        promotion: m.get_promotion().map(|p| p.to_index() as u8),
    };
    let mut generator = MoveGen::new_legal(b);
    generator.set_iterator_mask(BitBoard(targets));
    let captures = generator.by_ref().map(plain).collect();
    generator.set_iterator_mask(!EMPTY);
    let quiets = generator.map(plain).collect();
    (captures, quiets)
}

/// `Board::make_move_new` on a move that `MoveGen` has generated for a board
/// that the crate accepts: both kings stand, and the move takes neither.
/// Nothing is claimed of the board that comes back but that it is the one
/// this move leads to: the crate may not accept it.
#[verifier::external_body]
fn board_apply(b: &Board, m: Move) -> (next: Board)
    requires
        board_contents(*b).admitted(),
        board_contents(*b).legal(m),
        m.in_range(),
    ensures
        board_contents(next) == child_of(board_contents(*b), m),
{
    let promotion = m.promotion.map(|p| ALL_PIECES[p as usize]);
    let source = ALL_SQUARES[m.source as usize];
    b.make_move_new(ChessMove::new(source, ALL_SQUARES[m.dest as usize], promotion))
}

/// A position of the game: a board that the rules engine accepts, with no
/// more than 16 pieces on either side.
#[derive(Clone, Copy, Debug)]
pub struct Position {
    board: Board,
}

impl View for Position {
    type V = Snapshot;

    closed spec fn view(&self) -> Snapshot {
        board_contents(self.board)
    }
}

impl Position {
    #[verifier::type_invariant]
    spec fn accepted(self) -> bool {
        board_contents(self.board).admitted()
    }

    /// Takes a board if the rules engine accepts it and neither side has more
    /// than 16 pieces.
    pub fn new(board: Board) -> (r: Option<Position>)
        ensures
            r is Some <==> board_contents(board).admitted(),
            r matches Some(p) ==> p@ == board_contents(board),
    {
        if !board_is_sane(&board) {
            return None;
        }
        let placement = board_placement(&board);
        if count_bits(placement.white) <= SIDE_LIMIT && count_bits(placement.black) <= SIDE_LIMIT {
            Some(Position { board })
        } else {
            None
        }
    }

    /// The board that this position holds.
    pub fn board(&self) -> (b: &Board)
        ensures
            board_contents(*b) == self@,
    {
        &self.board
    }

    /// Where the pieces stand.
    pub fn placement(&self) -> (p: Placement)
        ensures
            p == self@.placement,
    {
        board_placement(&self.board)
    }

    /// The side whose turn it is.
    pub fn side_to_move(&self) -> (c: Color)
        ensures
            c == self@.to_move,
    {
        board_turn(&self.board)
    }

    /// The whole position as plain values.
    pub fn snapshot(&self) -> (s: Snapshot)
        ensures
            s == self@,
    {
        let rights = board_rights(&self.board);
        let marks = board_marks(&self.board);
        Snapshot {
            placement: board_placement(&self.board),
            to_move: board_turn(&self.board),
            white_castling: rights.0,
            black_castling: rights.1,
            en_passant: rights.2,
            checking: marks.0,
            pinned: marks.1,
            identity: board_hash(&self.board),
        }
    }

    /// Whether the game goes on from here, and how it ended if not.
    pub fn status(&self) -> (s: Status)
        ensures
            s == self@.status(),
    {
        proof {
            use_type_invariant(self);
        }
        board_status(&self.board)
    }

    /// The 64-bit identity under which the position is cached.
    pub fn identity(&self) -> (h: u64)
        ensures
            h == self@.identity,
    {
        board_hash(&self.board)
    }

    /// The legal moves: those that take a piece on their target square, then
    /// the others.
    pub fn legal_moves(&self) -> (lists: (Vec<Move>, Vec<Move>))
        ensures
            lists.0@ == self@.captures(),
            lists.1@ == self@.quiets(),
            forall|i: int|
                0 <= i < lists.0@.len() ==> (#[trigger] lists.0@[i]).in_range() && has_bit(
                    self@.targets(),
                    lists.0@[i].dest as nat,
                ),
            forall|i: int|
                0 <= i < lists.1@.len() ==> (#[trigger] lists.1@[i]).in_range() && !has_bit(
                    self@.targets(),
                    lists.1@[i].dest as nat,
                ),
    {
        proof {
            use_type_invariant(self);
        }
        let placement = board_placement(&self.board);
        let targets = placement.side(board_turn(&self.board).other());
        board_moves(&self.board, targets)
    }

    /// The position after the legal move `m`, if it is one that the search
    /// works on. The rules engine is asked again: it does not accept every
    /// board that its own moves lead to.
    pub fn apply(&self, m: Move) -> (next: Option<Position>)
        requires
            self@.legal(m),
            m.in_range(),
        ensures
            next is Some <==> child_of(self@, m).admitted(),
            next matches Some(n) ==> n@ == child_of(self@, m),
    {
        proof {
            use_type_invariant(self);
        }
        Position::new(board_apply(&self.board, m))
    }

    /// The position after `m`, if `m` is a legal move here and leads to a
    /// position that the search works on.
    pub fn play(&self, m: Move) -> (next: Option<Position>)
        ensures
            next is Some <==> self@.legal(m) && child_of(self@, m).admitted(),
            next matches Some(n) ==> n@ == child_of(self@, m),
    {
        let (captures, quiets) = self.legal_moves();
        if holds(&captures, m) || holds(&quiets, m) {
            proof {
                if captures@.contains(m) {
                    let i = choose|i: int| 0 <= i < captures@.len() && captures@[i] == m;
                    assert(captures@[i].in_range());
                } else {
                    let i = choose|i: int| 0 <= i < quiets@.len() && quiets@[i] == m;
                    assert(quiets@[i].in_range());
                }
            }
            self.apply(m)
        } else {
            None
        }
    }
}

/// Whether `m` is one of `moves`.
pub fn holds(moves: &Vec<Move>, m: Move) -> (found: bool)
    ensures
        found == moves@.contains(m),
{
    let mut i: usize = 0;
    while i < moves.len()
        invariant
            i <= moves.len(),
            forall|j: int| 0 <= j < i ==> moves@[j] != m,
        decreases moves.len() - i,
    {
        if moves[i] == m {
            return true;
        }
        i = i + 1;
    }
    false
}

} // verus!
