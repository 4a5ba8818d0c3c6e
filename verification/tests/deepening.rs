use chess_search::driver::{advance, iter_deepen, Progress, DEPTH_LIMIT, TABLE_SLOTS};
use chess_search::moves::{Color, Move};
use chess_search::position::Position;
use chess_search::table::power_of_two;
use std::str::FromStr;
use std::time::Instant;

fn position(fen: &str) -> Position {
    let board = chess::Board::from_str(fen).expect("a valid position");
    Position::new(board).expect("a position the rules accept")
}

fn uci(text: &str) -> Move {
    let bytes = text.as_bytes();
    let square = |file: u8, rank: u8| (rank - b'1') * 8 + (file - b'a');
    Move { source: square(bytes[0], bytes[1]), dest: square(bytes[2], bytes[3]), promotion: None }
}

fn is_legal(p: &Position, m: Move) -> bool {
    let (captures, quiets) = p.legal_moves();
    captures.contains(&m) || quiets.contains(&m)
}

#[test]
fn the_table_size_is_a_power_of_two() {
    assert_eq!(TABLE_SLOTS, 65536 * 8);
    assert!(power_of_two(TABLE_SLOTS));
    assert_eq!(DEPTH_LIMIT, i8::MAX);
}

#[test]
fn three_seconds_after_four_opening_moves() {
    let mut p = position("rnbqkbnr/pppppppp/8/8/8/8/PPPPPPPP/RNBQKBNR w KQkq - 0 1");
    for m in ["d2d4", "g8f6", "d4d5", "d7d6"] {
        p = p.apply(uci(m)).unwrap();
    }
    let clock = Instant::now();
    let report = iter_deepen(&p, 3000);
    let took = clock.elapsed().as_millis();
    assert!(took >= 3000, "took {} ms", took);
    assert!(took < 8000, "took {} ms", took);
    assert_eq!(p.side_to_move(), Color::White);
    assert!(is_legal(&p, report.best), "{:?}", report);
    assert!(report.depth >= 2, "{:?}", report);
    assert!(report.nodes > 0);
    // The clock ended the deepening: the move is that of the search before
    // the last, which ran to its end.
    assert_eq!(report.found_at, report.depth - 1, "{:?}", report);
    assert!(report.complete >= report.found_at, "{:?}", report);
}

#[test]
fn a_mated_side_has_no_move() {
    let p = position("rnb1kbnr/pppp1ppp/8/4p3/6Pq/5P2/PPPPP2P/RNBQKBNR w KQkq - 1 3");
    let report = iter_deepen(&p, 10000);
    assert_eq!(report.best, Move::none());
    assert_eq!(report.score, -999);
    assert_eq!(report.nodes, 0);
    assert_eq!(report.depth, DEPTH_LIMIT);
    assert_eq!(report.complete, DEPTH_LIMIT);
    assert_eq!(report.found_at, DEPTH_LIMIT);
}

#[test]
fn a_stalemated_side_has_no_move() {
    let p = position("7k/5Q2/6K1/8/8/8/8/8 b - - 0 1");
    let report = iter_deepen(&p, u128::MAX);
    assert_eq!(report.best, Move::none());
    assert_eq!(report.score, 0);
    assert_eq!(report.depth, DEPTH_LIMIT);
    assert_eq!(report.complete, DEPTH_LIMIT);
}

#[test]
fn a_short_budget_still_gives_a_legal_move_or_none() {
    let p = position("rnbqkbnr/pppppppp/8/8/8/8/PPPPPPPP/RNBQKBNR w KQkq - 0 1");
    for budget in [0u128, 1, 50] {
        let clock = Instant::now();
        let report = iter_deepen(&p, budget);
        assert!(report.best.is_none() || is_legal(&p, report.best), "{:?}", report);
        assert!(report.depth >= 1);
        assert!(report.found_at == report.depth || report.found_at == report.depth - 1);
        assert!(report.complete <= report.depth);
        if report.found_at == 0 {
            assert!(report.best.is_none());
        }
        assert!(clock.elapsed().as_millis() < 5000);
    }
}

#[test]
fn the_only_move_is_found_within_the_budget() {
    let p = position("7k/8/8/8/8/q7/8/K7 w - - 0 1");
    let report = iter_deepen(&p, 200);
    assert_eq!(report.best, uci("a1b1"));
    assert!(report.depth >= 2);
    assert!(report.found_at >= 1);
}

#[test]
fn the_only_move_is_found_though_it_loses() {
    // After Kb1 the rook mates on h1.
    let p = position("7r/8/8/8/8/1k6/8/K7 w - - 0 1");
    let report = iter_deepen(&p, 200);
    assert_eq!(report.best, uci("a1b1"));
    assert!(report.depth >= 3, "{:?}", report);
}

#[test]
fn a_move_of_the_last_search_is_reported_only_at_the_depth_limit() {
    let p = position("rnbqkbnr/pppppppp/8/8/8/8/PPPPPPPP/RNBQKBNR w KQkq - 0 1");
    let report = iter_deepen(&p, 30);
    assert!(report.depth < DEPTH_LIMIT);
    assert_eq!(report.found_at, report.depth - 1);
}

#[test]
fn advance_keeps_the_move_found_within_the_budget() {
    let mut progress =
        Progress { best: uci("e2e4"), found_at: 2, hint: uci("e2e4"), score: 10, depth: 3 };
    let more = advance(&mut progress, (uci("d2d4"), 25), 2999, 3000);
    assert!(more);
    assert_eq!(
        progress,
        Progress { best: uci("d2d4"), found_at: 3, hint: uci("d2d4"), score: 25, depth: 3 }
    );
    let more = advance(&mut progress, (uci("c2c4"), 30), 3000, 3000);
    assert!(more);
    assert_eq!(progress.best, uci("c2c4"));
}

#[test]
fn advance_drops_the_move_found_after_the_budget() {
    let mut progress =
        Progress { best: uci("e2e4"), found_at: 2, hint: uci("e2e4"), score: 10, depth: 3 };
    let more = advance(&mut progress, (uci("d2d4"), 25), 3001, 3000);
    assert!(!more);
    assert_eq!(
        progress,
        Progress { best: uci("e2e4"), found_at: 2, hint: uci("d2d4"), score: 25, depth: 3 }
    );
    // Before the first search ended in time there is no move to play.
    let mut progress =
        Progress { best: Move::none(), found_at: 0, hint: Move::none(), score: 0, depth: 1 };
    assert!(!advance(&mut progress, (uci("d2d4"), 25), 1, 0));
    assert_eq!(progress.best, Move::none());
    assert_eq!(progress.found_at, 0);
}

#[test]
fn advance_stops_at_the_depth_limit() {
    let mut progress = Progress {
        best: Move::none(),
        found_at: 0,
        hint: Move::none(),
        score: 0,
        depth: DEPTH_LIMIT,
    };
    let more = advance(&mut progress, (uci("d2d4"), 25), 0, 3000);
    assert!(!more);
    assert_eq!(progress.best, uci("d2d4"));
    assert_eq!(progress.found_at, DEPTH_LIMIT);
    let mut progress = Progress {
        best: Move::none(),
        found_at: 0,
        hint: Move::none(),
        score: 0,
        depth: DEPTH_LIMIT - 1,
    };
    assert!(advance(&mut progress, (uci("d2d4"), 25), 0, 3000));
}
