//! The static evaluator: material and piece-square bonuses, in centipawns,
//! seen from White.
use vstd::prelude::*;
use crate::moves::Color;
use crate::position::{bit_count, count_bits, has_bit, Placement};

verus! {

/// The base value of a pawn, in centipawns.
pub const PAWN_VALUE: i32 = 100;

/// The base value of a knight.
pub const KNIGHT_VALUE: i32 = 300;

/// The base value of a bishop.
pub const BISHOP_VALUE: i32 = 300;

/// The base value of a rook.
pub const ROOK_VALUE: i32 = 500;

/// The value of a queen, which has no bonus for its square.
pub const QUEEN_VALUE: i32 = 800;

/// The bonus of a white pawn on each square, a1 first. A black piece reads
/// its table upside-down: see `flip_square`.
pub const PAWN_TABLE: [i8; 64] = [
    0, 0, 0, 0, 0, 0, 0, 0,
    5, 5, 10, -5, -5, 10, 5, 5,
    5, 5, 5, 10, 10, 5, 5, 5,
    0, 0, 0, 20, 20, 0, 0, 0,
    5, 5, 5, 15, 15, 5, 5, 5,
    15, 15, 20, 25, 25, 20, 15, 15,
    50, 50, 50, 50, 50, 50, 50, 50,
    0, 0, 0, 0, 0, 0, 0, 0,
];

/// The bonus of a white knight on each square.
pub const KNIGHT_TABLE: [i8; 64] = [
    -25, -5, 0, 0, 0, 0, -5, -25,
    -20, -5, 0, 5, 5, 0, -5, -20,
    -15, 5, 15, 10, 10, 15, 5, -15,
    -10, 0, 5, 20, 20, 5, 5, -10,
    -10, 0, 0, 20, 20, 0, 0, -10,
    -15, 0, 5, 10, 10, 5, 0, -15,
    -20, -5, 0, 0, 0, 0, -5, -20,
    -25, -20, -15, -10, -10, -15, -20, -25,
];

/// The bonus of a white bishop on each square.
pub const BISHOP_TABLE: [i8; 64] = [
    0, -5, -10, 0, 0, -10, -5, 0,
    5, 10, 0, 5, 5, 0, 10, 5,
    0, 5, 5, 10, 10, 5, 5, 0,
    -5, 0, 15, 10, 10, 15, 0, -5,
    -5, 10, 5, 10, 10, 5, 10, -5,
    -10, 0, -5, 0, 0, -5, 0, -10,
    0, 0, 0, 0, 0, 0, 0, 0,
    0, 0, 0, 0, 0, 0, 0, 0,
];

/// The bonus of a white rook on each square.
pub const ROOK_TABLE: [i8; 64] = [
    0, 0, 0, 10, 10, 5, 0, 0,
    0, 0, 0, 0, 0, 0, 0, 0,
    0, 0, 0, 0, 0, 0, 0, 0,
    0, 0, 0, 0, 0, 0, 0, 0,
    0, 0, 0, 0, 0, 0, 0, 0,
    0, 0, 0, 0, 0, 0, 0, 0,
    20, 20, 20, 20, 20, 20, 20, 20,
    0, 0, 0, 0, 0, 0, 0, 0,
];

/// The square with the same file on the mirrored rank: a1 and a8 change
/// places, e2 and e7.
pub open spec fn flip_square(sq: nat) -> nat {
    ((7 - sq / 8) * 8 + sq % 8) as nat
}

/// The bonus that `table` gives a piece of `side` on `sq`.
pub open spec fn bonus(table: Seq<i8>, side: Color, sq: nat) -> int {
    match side {
        Color::White => table[sq as int] as int,
        Color::Black => table[flip_square(sq) as int] as int,
    }
}

/// The worth of the pieces of `side` that `mask` marks on squares below `n`:
/// for each its base value and its bonus.
pub open spec fn weigh(mask: u64, base: int, table: Seq<i8>, side: Color, n: nat) -> int
    decreases n,
{
    if n == 0 {
        0
    } else {
        let sq = (n - 1) as nat;
        weigh(mask, base, table, side, sq) + if has_bit(mask, sq) {
            base + bonus(table, side, sq)
        } else {
            0
        }
    }
}

/// What `side` has on the board: each pawn, knight, bishop and rook with its
/// base value and its bonus, each queen with its base value.
pub open spec fn side_score(p: Placement, side: Color) -> int {
    weigh(p.pawns & p.of(side), PAWN_VALUE as int, PAWN_TABLE@, side, 64) + weigh(
        p.knights & p.of(side),
        KNIGHT_VALUE as int,
        KNIGHT_TABLE@,
        side,
        64,
    ) + weigh(p.bishops & p.of(side), BISHOP_VALUE as int, BISHOP_TABLE@, side, 64) + weigh(
        p.rooks & p.of(side),
        ROOK_VALUE as int,
        ROOK_TABLE@,
        side,
        64,
    ) + QUEEN_VALUE * bit_count(p.queens & p.of(side), 64)
}

/// The static score of a placement: what White has less what Black has.
pub open spec fn eval_spec(p: Placement) -> int {
    side_score(p, Color::White) - side_score(p, Color::Black)
}

/// A side's pieces in pawns: 1 for a pawn, 3 for a knight or a bishop, 5 for
/// a rook, 8 for a queen.
pub open spec fn material_spec(p: Placement, side: Color) -> nat {
    bit_count(p.pawns & p.of(side), 64) + 3 * bit_count(p.knights & p.of(side), 64) + 3
        * bit_count(p.bishops & p.of(side), 64) + 5 * bit_count(p.rooks & p.of(side), 64) + 8
        * bit_count(p.queens & p.of(side), 64)
}

/// A piece is worth no less than -128 and no more than its base value and
/// 127, whatever its table holds.
pub proof fn lemma_weigh_bound(mask: u64, base: int, table: Seq<i8>, side: Color, n: nat)
    requires
        0 <= base <= 1000,
    ensures
        -128 * n <= weigh(mask, base, table, side, n) <= 1127 * n,
    decreases n,
{
    if n > 0 {
        lemma_weigh_bound(mask, base, table, side, (n - 1) as nat);
    }
}

/// The static score of any placement is well within an `i32`.
pub proof fn lemma_eval_bound(p: Placement)
    ensures
        -400000 < eval_spec(p) < 400000,
{
    lemma_side_score_bound(p, Color::White);
    lemma_side_score_bound(p, Color::Black);
}

proof fn lemma_side_score_bound(p: Placement, side: Color)
    ensures
        -32768 <= side_score(p, side) <= 339712,
{
    lemma_weigh_bound(p.pawns & p.of(side), PAWN_VALUE as int, PAWN_TABLE@, side, 64);
    lemma_weigh_bound(p.knights & p.of(side), KNIGHT_VALUE as int, KNIGHT_TABLE@, side, 64);
    lemma_weigh_bound(p.bishops & p.of(side), BISHOP_VALUE as int, BISHOP_TABLE@, side, 64);
    lemma_weigh_bound(p.rooks & p.of(side), ROOK_VALUE as int, ROOK_TABLE@, side, 64);
    crate::position::lemma_bit_count_bound(p.queens & p.of(side), 64);
}

/// The worth of the pieces of `side` that `mask` marks.
fn weigh_pieces(mask: u64, base: i32, table: &[i8; 64], side: Color) -> (sum: i32)
    requires
        0 <= base <= 1000,
    ensures
        sum == weigh(mask, base as int, table@, side, 64),
        -8192 <= sum <= 72128,
{
    let mut sum: i32 = 0;
    let mut sq: usize = 0;
    while sq < 64
        invariant
            sq <= 64,
            0 <= base <= 1000,
            sum == weigh(mask, base as int, table@, side, sq as nat),
            -128 * sq <= sum <= 1127 * sq,
        decreases 64 - sq,
    {
        if (mask >> (sq as u64)) & 1 == 1 {
            let at: usize = match side {
                Color::White => sq,
                Color::Black => (7 - sq / 8) * 8 + sq % 8,
            };
            sum = sum + base + table[at] as i32;
        }
        sq = sq + 1;
    }
    sum
}

/// The static score of a placement from White's side: positive favours White.
pub fn eval(p: &Placement) -> (score: i32)
    ensures
        score == eval_spec(*p),
        -400000 < score < 400000,
{
    let white = p.white;
    let black = p.black;
    let mut score: i32 = weigh_pieces(p.pawns & white, PAWN_VALUE, &PAWN_TABLE, Color::White);
    score = score + weigh_pieces(p.knights & white, KNIGHT_VALUE, &KNIGHT_TABLE, Color::White);
    score = score + weigh_pieces(p.bishops & white, BISHOP_VALUE, &BISHOP_TABLE, Color::White);
    score = score + weigh_pieces(p.rooks & white, ROOK_VALUE, &ROOK_TABLE, Color::White);
    score = score + QUEEN_VALUE * (count_bits(p.queens & white) as i32);
    score = score - weigh_pieces(p.pawns & black, PAWN_VALUE, &PAWN_TABLE, Color::Black);
    score = score - weigh_pieces(p.knights & black, KNIGHT_VALUE, &KNIGHT_TABLE, Color::Black);
    score = score - weigh_pieces(p.bishops & black, BISHOP_VALUE, &BISHOP_TABLE, Color::Black);
    score = score - weigh_pieces(p.rooks & black, ROOK_VALUE, &ROOK_TABLE, Color::Black);
    score = score - QUEEN_VALUE * (count_bits(p.queens & black) as i32);
    score
}

/// The material of `side` in pawns.
pub fn count_material(p: &Placement, side: Color) -> (total: i32)
    ensures
        total == material_spec(*p, side),
        0 <= total <= 1280,
{
    let pieces = p.side(side);
    let mut total: u32 = count_bits(p.pawns & pieces);
    total = total + count_bits(p.knights & pieces) * 3;
    total = total + count_bits(p.bishops & pieces) * 3;
    total = total + count_bits(p.rooks & pieces) * 5;
    total = total + count_bits(p.queens & pieces) * 8;
    total as i32
}

/// `mask` with its ranks in reverse order: bit `s` of the result is bit
/// `flip_square(s)` of `mask`.
pub open spec fn flip_mask(mask: u64) -> u64 {
    ((mask & 0xff) << 56) | ((mask & 0xff00) << 40) | ((mask & 0xff_0000) << 24) | ((mask
        & 0xff00_0000) << 8) | ((mask >> 8) & 0xff00_0000) | ((mask >> 24) & 0xff_0000) | ((mask
        >> 40) & 0xff00) | ((mask >> 56) & 0xff)
}

/// The placement seen from the other side of the board: every piece on the
/// mirrored rank, in the other colour.
pub open spec fn mirror(p: Placement) -> Placement {
    Placement {
        white: flip_mask(p.black),
        black: flip_mask(p.white),
        pawns: flip_mask(p.pawns),
        knights: flip_mask(p.knights),
        bishops: flip_mask(p.bishops),
        rooks: flip_mask(p.rooks),
        queens: flip_mask(p.queens),
        kings: flip_mask(p.kings),
    }
}

/// `mask` with its ranks in reverse order.
pub fn flip(mask: u64) -> (flipped: u64)
    ensures
        flipped == flip_mask(mask),
{
    ((mask & 0xff) << 56) | ((mask & 0xff00) << 40) | ((mask & 0xff_0000) << 24) | ((mask
        & 0xff00_0000) << 8) | ((mask >> 8) & 0xff00_0000) | ((mask >> 24) & 0xff_0000) | ((mask
        >> 40) & 0xff00) | ((mask >> 56) & 0xff)
}

/// The placement with colours swapped and ranks mirrored.
pub fn mirrored(p: &Placement) -> (m: Placement)
    ensures
        m == mirror(*p),
{
    Placement {
        white: flip(p.black),
        black: flip(p.white),
        pawns: flip(p.pawns),
        knights: flip(p.knights),
        bishops: flip(p.bishops),
        rooks: flip(p.rooks),
        queens: flip(p.queens),
        kings: flip(p.kings),
    }
}

/// The sum of `f` over the squares below `n`.
pub open spec fn tally(f: spec_fn(nat) -> int, n: nat) -> int
    decreases n,
{
    if n == 0 {
        0
    } else {
        tally(f, (n - 1) as nat) + f((n - 1) as nat)
    }
}

/// What a square adds to `weigh`.
pub open spec fn worth(mask: u64, base: int, table: Seq<i8>, side: Color) -> spec_fn(nat) -> int {
    |sq: nat|
        if has_bit(mask, sq) {
            base + bonus(table, side, sq)
        } else {
            0
        }
}

/// What a square adds to `bit_count`.
pub open spec fn marked(mask: u64) -> spec_fn(nat) -> int {
    |sq: nat|
        if has_bit(mask, sq) {
            1
        } else {
            0
        }
}

proof fn lemma_tally_same(f: spec_fn(nat) -> int, g: spec_fn(nat) -> int, n: nat)
    requires
        forall|i: nat| i < n ==> #[trigger] f(i) == g(i),
    ensures
        tally(f, n) == tally(g, n),
    decreases n,
{
    if n > 0 {
        lemma_tally_same(f, g, (n - 1) as nat);
    }
}

proof fn lemma_tally_rank(f: spec_fn(nat) -> int, n: nat)
    ensures
        tally(f, n + 8) == tally(f, n) + f(n) + f(n + 1) + f(n + 2) + f(n + 3) + f(n + 4) + f(
            n + 5,
        ) + f(n + 6) + f(n + 7),
{
    reveal_with_fuel(tally, 9);
}

/// A sum over the board does not change when the ranks are read in reverse.
proof fn lemma_tally_flipped(f: spec_fn(nat) -> int)
    ensures
        tally(|sq: nat| f(flip_square(sq)), 64) == tally(f, 64),
{
    let g = |sq: nat| f(flip_square(sq));
    lemma_tally_rank(f, 0);
    lemma_tally_rank(f, 8);
    lemma_tally_rank(f, 16);
    lemma_tally_rank(f, 24);
    lemma_tally_rank(f, 32);
    lemma_tally_rank(f, 40);
    lemma_tally_rank(f, 48);
    lemma_tally_rank(f, 56);
    lemma_tally_rank(g, 0);
    lemma_tally_rank(g, 8);
    lemma_tally_rank(g, 16);
    lemma_tally_rank(g, 24);
    lemma_tally_rank(g, 32);
    lemma_tally_rank(g, 40);
    lemma_tally_rank(g, 48);
    lemma_tally_rank(g, 56);
    assert(tally(f, 0) == 0);
    assert(tally(g, 0) == 0);
}

proof fn lemma_weigh_is_tally(mask: u64, base: int, table: Seq<i8>, side: Color, n: nat)
    ensures
        weigh(mask, base, table, side, n) == tally(worth(mask, base, table, side), n),
    decreases n,
{
    if n > 0 {
        lemma_weigh_is_tally(mask, base, table, side, (n - 1) as nat);
    }
}

proof fn lemma_bit_count_is_tally(mask: u64, n: nat)
    ensures
        bit_count(mask, n) == tally(marked(mask), n),
    decreases n,
{
    if n > 0 {
        lemma_bit_count_is_tally(mask, (n - 1) as nat);
    }
}

/// Bit `sq` of the flipped mask is bit `flip_square(sq)` of the mask.
pub proof fn lemma_flip_mask_bit(mask: u64, sq: nat)
    requires
        sq < 64,
    ensures
        has_bit(flip_mask(mask), sq) == has_bit(mask, flip_square(sq)),
        flip_square(sq) < 64,
        flip_square(flip_square(sq)) == sq,
{
    let s = sq as u64;
    let t = flip_square(sq) as u64;
    let flipped = flip_mask(mask);
    assert(t == (7 - s / 8) * 8 + s % 8);
    assert(((flipped >> s) & 1) == ((mask >> t) & 1)) by (bit_vector)
        requires
            s < 64,
            t == (7 - s / 8) * 8 + s % 8,
            flipped == ((mask & 0xff) << 56) | ((mask & 0xff00) << 40) | ((mask & 0xff_0000) << 24)
                | ((mask & 0xff00_0000) << 8) | ((mask >> 8) & 0xff00_0000) | ((mask >> 24)
                & 0xff_0000) | ((mask >> 40) & 0xff00) | ((mask >> 56) & 0xff),
    ;
}

/// Flipping keeps the number of set bits.
pub proof fn lemma_flip_keeps_count(mask: u64)
    ensures
        bit_count(flip_mask(mask), 64) == bit_count(mask, 64),
{
    let f = marked(mask);
    let g = |sq: nat| f(flip_square(sq));
    assert forall|sq: nat| sq < 64 implies #[trigger] marked(flip_mask(mask))(sq) == g(sq) by {
        lemma_flip_mask_bit(mask, sq);
    }
    lemma_tally_same(marked(flip_mask(mask)), g, 64);
    lemma_tally_flipped(f);
    lemma_bit_count_is_tally(mask, 64);
    lemma_bit_count_is_tally(flip_mask(mask), 64);
}

/// What the pieces on a flipped mask are worth to one side, the pieces on
/// the mask are worth to the other.
pub proof fn lemma_flip_swaps_sides(mask: u64, base: int, table: Seq<i8>, side: Color)
    ensures
        weigh(flip_mask(mask), base, table, side, 64) == weigh(
            mask,
            base,
            table,
            side.opponent(),
            64,
        ),
{
    let f = worth(mask, base, table, side.opponent());
    let g = |sq: nat| f(flip_square(sq));
    assert forall|sq: nat| sq < 64 implies #[trigger] worth(flip_mask(mask), base, table, side)(
        sq,
    ) == g(sq) by {
        lemma_flip_mask_bit(mask, sq);
    }
    lemma_tally_same(worth(flip_mask(mask), base, table, side), g, 64);
    lemma_tally_flipped(f);
    lemma_weigh_is_tally(mask, base, table, side.opponent(), 64);
    lemma_weigh_is_tally(flip_mask(mask), base, table, side, 64);
}

/// Flipping the squares that both of two masks mark flips what they share.
pub proof fn lemma_flip_mask_and(a: u64, b: u64)
    ensures
        flip_mask(a) & flip_mask(b) == flip_mask(a & b),
{
    let fa = flip_mask(a);
    let fb = flip_mask(b);
    let c = a & b;
    let fc = flip_mask(c);
    assert(fa & fb == fc) by (bit_vector)
        requires
            c == a & b,
            fa == ((a & 0xff) << 56) | ((a & 0xff00) << 40) | ((a & 0xff_0000) << 24) | ((a
                & 0xff00_0000) << 8) | ((a >> 8) & 0xff00_0000) | ((a >> 24) & 0xff_0000) | ((a
                >> 40) & 0xff00) | ((a >> 56) & 0xff),
            fb == ((b & 0xff) << 56) | ((b & 0xff00) << 40) | ((b & 0xff_0000) << 24) | ((b
                & 0xff00_0000) << 8) | ((b >> 8) & 0xff00_0000) | ((b >> 24) & 0xff_0000) | ((b
                >> 40) & 0xff00) | ((b >> 56) & 0xff),
            fc == ((c & 0xff) << 56) | ((c & 0xff00) << 40) | ((c & 0xff_0000) << 24) | ((c
                & 0xff00_0000) << 8) | ((c >> 8) & 0xff00_0000) | ((c >> 24) & 0xff_0000) | ((c
                >> 40) & 0xff00) | ((c >> 56) & 0xff),
    ;
}

/// What one side has in the mirrored placement, the other side has in the
/// placement itself.
pub proof fn lemma_mirror_side_score(p: Placement, side: Color)
    ensures
        side_score(mirror(p), side) == side_score(p, side.opponent()),
{
    let m = mirror(p);
    let theirs = p.of(side.opponent());
    assert(m.of(side) == flip_mask(theirs));
    lemma_flip_mask_and(p.pawns, theirs);
    lemma_flip_mask_and(p.knights, theirs);
    lemma_flip_mask_and(p.bishops, theirs);
    lemma_flip_mask_and(p.rooks, theirs);
    lemma_flip_mask_and(p.queens, theirs);
    lemma_flip_swaps_sides(p.pawns & theirs, PAWN_VALUE as int, PAWN_TABLE@, side);
    lemma_flip_swaps_sides(p.knights & theirs, KNIGHT_VALUE as int, KNIGHT_TABLE@, side);
    lemma_flip_swaps_sides(p.bishops & theirs, BISHOP_VALUE as int, BISHOP_TABLE@, side);
    lemma_flip_swaps_sides(p.rooks & theirs, ROOK_VALUE as int, ROOK_TABLE@, side);
    lemma_flip_keeps_count(p.queens & theirs);
}

/// Symmetry of the evaluator: a placement and its mirror image, colours
/// swapped, have scores that add up to zero.
pub proof fn lemma_eval_mirror(p: Placement)
    ensures
        eval_spec(mirror(p)) == -eval_spec(p),
{
    lemma_mirror_side_score(p, Color::White);
    lemma_mirror_side_score(p, Color::Black);
}

} // verus!
