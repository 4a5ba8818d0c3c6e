use chess_search::evaluate::{count_material, eval, flip, mirrored};
use chess_search::moves::Color;
use chess_search::position::{Placement, Position};
use std::str::FromStr;

fn placement_of(fen: &str) -> Placement {
    let board = chess::Board::from_str(fen).expect("a valid position");
    Position::new(board).expect("a position the rules accept").placement()
}

fn bit(square: u32) -> u64 {
    1u64 << square
}

fn kings_only() -> Placement {
    Placement {
        white: bit(4),
        black: bit(60),
        pawns: 0,
        knights: 0,
        bishops: 0,
        rooks: 0,
        queens: 0,
        kings: bit(4) | bit(60),
    }
}

#[test]
fn start_position_is_balanced() {
    let start = placement_of("rnbqkbnr/pppppppp/8/8/8/8/PPPPPPPP/RNBQKBNR w KQkq - 0 1");
    assert_eq!(eval(&start), 0);
}

#[test]
fn kings_are_worth_nothing() {
    assert_eq!(eval(&kings_only()), 0);
}

#[test]
fn white_pawn_on_e4_is_worth_120() {
    let mut p = kings_only();
    p.white |= bit(28);
    p.pawns |= bit(28);
    assert_eq!(eval(&p), 120);
}

#[test]
fn black_pawn_on_e5_is_worth_minus_120() {
    let mut p = kings_only();
    p.black |= bit(36);
    p.pawns |= bit(36);
    assert_eq!(eval(&p), -120);
}

#[test]
fn black_knight_reads_its_table_upside_down() {
    // c6 is square 42; seen from Black it is c3, square 18, with bonus 15.
    let mut p = kings_only();
    p.black |= bit(42);
    p.knights |= bit(42);
    assert_eq!(eval(&p), -315);
}

#[test]
fn white_bishop_on_c4_is_worth_315() {
    let mut p = kings_only();
    p.white |= bit(26);
    p.bishops |= bit(26);
    assert_eq!(eval(&p), 315);
}

#[test]
fn white_rook_on_the_seventh_rank_is_worth_520() {
    let mut p = kings_only();
    p.white |= bit(48);
    p.rooks |= bit(48);
    assert_eq!(eval(&p), 520);
}

#[test]
fn black_rook_counts_against_white() {
    // a2 is the seventh rank seen from Black.
    let mut p = kings_only();
    p.black |= bit(8);
    p.rooks |= bit(8);
    assert_eq!(eval(&p), -520);
}

#[test]
fn queens_have_no_bonus() {
    let mut p = kings_only();
    p.white |= bit(27) | bit(0);
    p.queens |= bit(27) | bit(0);
    assert_eq!(eval(&p), 1600);
    p.black |= bit(63);
    p.queens |= bit(63);
    assert_eq!(eval(&p), 800);
}

#[test]
fn evaluation_after_four_opening_moves() {
    // 1. d4 Nf6 2. d5 d6: the pawn on d5 has bonus 15 where d2 had -5, the
    // knight on f6 has 15 where g8 had -5, the pawn on d6 has 10 where d7
    // had -5.
    let p = placement_of("rnbqkb1r/ppp1pppp/3p1n2/3P4/8/8/PPP1PPPP/RNBQKBNR w KQkq - 0 3");
    assert_eq!(eval(&p), 20 - 20 - 15);
}

#[test]
fn mirror_image_has_the_negated_score() {
    let fens = [
        "rnbqkbnr/pppppppp/8/8/8/8/PPPPPPPP/RNBQKBNR w KQkq - 0 1",
        "rnbqkb1r/ppp1pppp/3p1n2/3P4/8/8/PPP1PPPP/RNBQKBNR w KQkq - 0 3",
        "r3k2r/p1ppqpb1/bn2pnp1/3PN3/1p2P3/2N2Q1p/PPPBBPPP/R3K2R w KQkq - 0 1",
        "8/5bk1/8/2Pp4/8/1K6/8/8 w - - 0 1",
        "4k3/8/8/8/8/8/4P3/R3K3 w Q - 0 1",
    ];
    for fen in fens {
        let p = placement_of(fen);
        let m = mirrored(&p);
        assert_eq!(eval(&m), -eval(&p), "{}", fen);
        assert_eq!(mirrored(&m), p, "{}", fen);
    }
}

#[test]
fn mirror_swaps_colours_and_ranks() {
    let mut p = kings_only();
    p.white |= bit(12);
    p.pawns |= bit(12);
    let m = mirrored(&p);
    assert_eq!(m.black, bit(60) | bit(52));
    assert_eq!(m.white, bit(4));
    assert_eq!(m.pawns, bit(52));
    assert_eq!(m.kings, bit(4) | bit(60));
}

#[test]
fn flip_reverses_the_ranks() {
    assert_eq!(flip(0xff), 0xff00_0000_0000_0000);
    assert_eq!(flip(0x0000_0000_0000_ff00), 0x00ff_0000_0000_0000);
    assert_eq!(flip(1 << 28), 1 << 36);
    assert_eq!(flip(0x0123_4567_89ab_cdef), 0x0123_4567_89ab_cdefu64.swap_bytes());
    assert_eq!(flip(0), 0);
}

#[test]
fn material_of_the_start_position() {
    let start = placement_of("rnbqkbnr/pppppppp/8/8/8/8/PPPPPPPP/RNBQKBNR w KQkq - 0 1");
    assert_eq!(count_material(&start, Color::White), 38);
    assert_eq!(count_material(&start, Color::Black), 38);
}

#[test]
fn material_counts_each_kind_with_its_weight() {
    let p = placement_of("4k3/8/8/8/8/8/PP6/RNBQK3 w Q - 0 1");
    assert_eq!(count_material(&p, Color::White), 2 + 3 + 3 + 5 + 8);
    assert_eq!(count_material(&p, Color::Black), 0);
}
