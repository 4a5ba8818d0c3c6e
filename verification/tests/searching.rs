use chess_search::evaluate::eval;
use chess_search::moves::{Color, Move, Status};
use chess_search::position::Position;
use chess_search::search::{expand, minimax, negamax, search, Tally};
use chess_search::table::{Entry, TranspositionTable};
use std::str::FromStr;
use std::time::{Duration, Instant};

const START: &str = "rnbqkbnr/pppppppp/8/8/8/8/PPPPPPPP/RNBQKBNR w KQkq - 0 1";
const WHITE_MATED: &str = "rnb1kbnr/pppp1ppp/8/4p3/6Pq/5P2/PPPPP2P/RNBQKBNR w KQkq - 1 3";
const BLACK_MATED: &str = "r1bqkb1r/pppp1Qpp/2n2n2/4p3/2B1P3/8/PPPP1PPP/RNB1K1NR b KQkq - 0 4";
const STALEMATE: &str = "7k/5Q2/6K1/8/8/8/8/8 b - - 0 1";
const ONE_QUIET_MOVE: &str = "7k/8/8/8/8/q7/8/K7 w - - 0 1";
const ONE_CAPTURE: &str = "8/8/8/8/8/5k2/7p/7K w - - 0 1";
const PAWN_ENDING: &str = "8/8/8/4k3/8/8/4P3/4K3 w - - 0 1";
const NO_LIMIT: u128 = u128::MAX;

fn position(fen: &str) -> Position {
    let board = chess::Board::from_str(fen).expect("a valid position");
    Position::new(board).expect("a position the rules accept")
}

fn uci(text: &str) -> Move {
    let bytes = text.as_bytes();
    let square = |file: u8, rank: u8| (rank - b'1') * 8 + (file - b'a');
    Move { source: square(bytes[0], bytes[1]), dest: square(bytes[2], bytes[3]), promotion: None }
}

fn table() -> TranspositionTable {
    TranspositionTable::new(65536).unwrap()
}

fn fresh() -> Tally {
    Tally { nodes: 0, expired: false }
}

fn is_legal(p: &Position, m: Move) -> bool {
    let (captures, quiets) = p.legal_moves();
    captures.contains(&m) || quiets.contains(&m)
}

/// The maximizing step without a clock, on a new table.
fn max_at(p: &Position, depth: i8, side: Color) -> ((Move, i32), Tally) {
    let mut cache = table();
    let mut tally = fresh();
    let clock = Instant::now();
    let r = minimax(p, depth, Some(i32::MAX), Move::none(), side, &clock, NO_LIMIT, false, &mut cache, &mut tally);
    (r, tally)
}

/// Full-width search with neither bound nor cache, by the same rules.
fn reference(p: &Position, depth: i8, maximize: bool, side: Color, capture: bool) -> i32 {
    match p.status() {
        Status::Checkmate => return if p.side_to_move() == side { -999 } else { 999 },
        Status::Stalemate => return 0,
        Status::Ongoing => {}
    }
    if depth <= 0 && !capture {
        let white = eval(&p.placement());
        return if side == Color::White { white } else { -white };
    }
    let (captures, quiets) = p.legal_moves();
    let pieces = p.placement().count();
    let mut best = if maximize { -999 } else { 999 };
    let mut chosen = false;
    for (moves, taking) in [(captures, true), (quiets, false)] {
        for m in moves {
            let Some(child) = p.apply(m) else { break };
            if depth <= 0 && (depth == i8::MIN || (taking && child.placement().count() >= pieces))
            {
                break;
            }
            let v = reference(&child, depth - 1, !maximize, side, taking);
            if !chosen || (maximize && v > best) || (!maximize && v < best) {
                best = v;
                chosen = true;
            }
        }
    }
    best
}

#[test]
fn a_mated_player_scores_minus_999_for_himself() {
    let p = position(WHITE_MATED);
    for depth in [0i8, 1, 2, 5, 40] {
        for capture in [false, true] {
            let mut cache = table();
            let mut tally = fresh();
            let clock = Instant::now();
            let r = minimax(&p, depth, Some(i32::MAX), Move::none(), Color::White, &clock, NO_LIMIT, capture, &mut cache, &mut tally);
            assert_eq!(r, (Move::none(), -999));
            let r = negamax(&p, depth, Some(i32::MIN), Move::none(), Color::White, &clock, NO_LIMIT, capture, &mut cache, &mut tally);
            assert_eq!(r, (Move::none(), -999));
            assert_eq!(tally, fresh());
            assert_eq!(cache.get(p.identity()), None);
        }
    }
}

#[test]
fn a_mated_player_scores_999_for_the_opponent() {
    let white_mated = position(WHITE_MATED);
    let black_mated = position(BLACK_MATED);
    for depth in [0i8, 1, 3] {
        let mut cache = table();
        let mut tally = fresh();
        let clock = Instant::now();
        let r = minimax(&white_mated, depth, None, Move::none(), Color::Black, &clock, NO_LIMIT, false, &mut cache, &mut tally);
        assert_eq!(r, (Move::none(), 999));
        let r = negamax(&black_mated, depth, None, Move::none(), Color::White, &clock, NO_LIMIT, false, &mut cache, &mut tally);
        assert_eq!(r, (Move::none(), 999));
        let r = minimax(&black_mated, depth, None, Move::none(), Color::Black, &clock, 0, false, &mut cache, &mut tally);
        assert_eq!(r, (Move::none(), -999));
        assert_eq!(tally, fresh());
    }
}

#[test]
fn a_stalemate_scores_zero() {
    let p = position(STALEMATE);
    for depth in [0i8, 1, 4] {
        for side in [Color::White, Color::Black] {
            let mut cache = table();
            let mut tally = fresh();
            let clock = Instant::now();
            let r = minimax(&p, depth, Some(i32::MAX), Move::none(), side, &clock, NO_LIMIT, false, &mut cache, &mut tally);
            assert_eq!(r, (Move::none(), 0));
            let r = negamax(&p, depth, Some(i32::MIN), Move::none(), side, &clock, NO_LIMIT, true, &mut cache, &mut tally);
            assert_eq!(r, (Move::none(), 0));
            assert_eq!(tally, fresh());
        }
    }
}

#[test]
fn a_cached_score_for_the_depth_comes_before_the_rules() {
    let p = position(WHITE_MATED);
    let mut cache = table();
    let mut tally = fresh();
    let clock = Instant::now();
    cache.put(p.identity(), Entry { best: uci("a2a3"), score: 5, depth: 2 });
    let r = minimax(&p, 2, None, Move::none(), Color::White, &clock, NO_LIMIT, false, &mut cache, &mut tally);
    assert_eq!(r, (Move::none(), 5));
    let r = minimax(&p, 3, None, Move::none(), Color::White, &clock, NO_LIMIT, false, &mut cache, &mut tally);
    assert_eq!(r, (Move::none(), -999));
}

#[test]
fn a_leaf_has_the_static_score_of_the_side() {
    // White has a pawn on e4 more: 120 for White.
    let p = position("4k3/8/8/8/4P3/8/8/4K3 b - - 0 1");
    let mut cache = table();
    let mut tally = fresh();
    let clock = Instant::now();
    let r = minimax(&p, 0, None, Move::none(), Color::White, &clock, NO_LIMIT, false, &mut cache, &mut tally);
    assert_eq!(r, (Move::none(), 120));
    let r = negamax(&p, 0, None, Move::none(), Color::Black, &clock, NO_LIMIT, false, &mut cache, &mut tally);
    assert_eq!(r, (Move::none(), -120));
    let r = search(true, &p, -3, None, Move::none(), Color::Black, &clock, NO_LIMIT, false, &mut cache, &mut tally);
    assert_eq!(r, (Move::none(), -120));
    assert_eq!(tally, fresh());
    assert_eq!(cache.get(p.identity()), None);
}

#[test]
fn the_only_legal_move_is_returned() {
    let p = position(ONE_QUIET_MOVE);
    let (captures, quiets) = p.legal_moves();
    assert_eq!((captures.len(), quiets.len()), (0, 1));
    for depth in [1i8, 2, 3] {
        let ((best, score), _) = max_at(&p, depth, Color::White);
        assert_eq!(best, uci("a1b1"), "depth {}", depth);
        assert_eq!(score, -800, "depth {}", depth);
    }
    // The same from the minimizing step, which works for Black here.
    let mut cache = table();
    let mut tally = fresh();
    let clock = Instant::now();
    let r = negamax(&p, 1, None, Move::none(), Color::Black, &clock, NO_LIMIT, false, &mut cache, &mut tally);
    assert_eq!(r, (uci("a1b1"), 800));
    // With the move itself as the hint it is tried twice.
    let mut tally = fresh();
    let mut cache = table();
    let r = minimax(&p, 1, None, uci("a1b1"), Color::White, &clock, NO_LIMIT, false, &mut cache, &mut tally);
    assert_eq!(r, (uci("a1b1"), -800));
    assert_eq!(tally.nodes, 2);
}

#[test]
fn the_only_legal_move_may_be_a_capture() {
    let p = position(ONE_CAPTURE);
    let (captures, quiets) = p.legal_moves();
    assert_eq!((captures, quiets.len()), (vec![uci("h1h2")], 0));
    // The king took at depth zero, so Black's node is searched on: it has no
    // capture, and each of its other moves leads to a leaf with bare kings.
    let replies = chess::MoveGen::new_legal(p.apply(uci("h1h2")).unwrap().board()).len() as u32;
    let ((best, score), tally) = max_at(&p, 1, Color::White);
    assert_eq!((best, score), (uci("h1h2"), 0));
    assert_eq!(tally.nodes, 1 + replies);
    let ((best, _), _) = max_at(&p, 2, Color::White);
    assert_eq!(best, uci("h1h2"));
}

#[test]
fn a_single_move_is_returned_though_it_loses() {
    // White has one move. A cached lost score for the position after it is
    // no better than the score the node starts from; the move is chosen all
    // the same, being the first that is tried.
    let p = position(ONE_QUIET_MOVE);
    let child = p.apply(uci("a1b1")).unwrap();
    let mut cache = table();
    cache.put(child.identity(), Entry { best: Move::none(), score: -999, depth: 0 });
    let mut tally = fresh();
    let clock = Instant::now();
    let r = minimax(&p, 1, None, Move::none(), Color::White, &clock, NO_LIMIT, false, &mut cache, &mut tally);
    assert_eq!(r, (uci("a1b1"), -999));
    assert_eq!(tally.nodes, 1);
    // After Kb1 the rook mates on h1.
    let q = position("7r/8/8/8/8/1k6/8/K7 w - - 0 1");
    let ((best, score), _) = max_at(&q, 2, Color::White);
    assert_eq!((best, score), (uci("a1b1"), -999));
    // The same where Black chooses, and the only move loses for Black.
    let mirrored = position("k7/8/1K6/8/8/8/8/7R b - - 0 1");
    let mut cache = table();
    let mut tally = fresh();
    let r = negamax(&mirrored, 2, None, Move::none(), Color::White, &clock, NO_LIMIT, false, &mut cache, &mut tally);
    assert_eq!(r, (uci("a8b8"), 999));
}

#[test]
fn depth_one_counts_one_node_per_move() {
    let p = position(START);
    let ((best, score), tally) = max_at(&p, 1, Color::White);
    assert_eq!(tally.nodes, 20);
    assert!(!tally.expired);
    assert!(is_legal(&p, best));
    assert_eq!(score, reference(&p, 1, true, Color::White, false));
}

#[test]
fn depth_two_of_the_one_move_position() {
    let p = position(ONE_QUIET_MOVE);
    let replies = chess::MoveGen::new_legal(p.apply(uci("a1b1")).unwrap().board()).len() as u32;
    let ((best, score), tally) = max_at(&p, 2, Color::White);
    assert_eq!((best, score), (uci("a1b1"), -800));
    assert_eq!(tally.nodes, 1 + replies);
}

#[test]
fn a_search_caches_its_result() {
    let p = position(PAWN_ENDING);
    let mut cache = table();
    let mut tally = fresh();
    let clock = Instant::now();
    let (best, score) = minimax(&p, 3, Some(i32::MAX), Move::none(), Color::White, &clock, NO_LIMIT, false, &mut cache, &mut tally);
    assert!(is_legal(&p, best));
    assert_eq!(cache.get(p.identity()), Some(Entry { best, score, depth: 3 }));
}

#[test]
fn searching_again_returns_the_cached_score() {
    for fen in [PAWN_ENDING, START, ONE_QUIET_MOVE, WHITE_MATED, STALEMATE] {
        let p = position(fen);
        let mut cache = table();
        let mut tally = fresh();
        let clock = Instant::now();
        let first = minimax(&p, 2, Some(i32::MAX), Move::none(), Color::White, &clock, NO_LIMIT, false, &mut cache, &mut tally);
        let nodes = tally.nodes;
        let again = minimax(&p, 2, Some(i32::MAX), Move::none(), Color::White, &clock, NO_LIMIT, false, &mut cache, &mut tally);
        assert_eq!(again, (Move::none(), first.1), "{}", fen);
        assert_eq!(tally.nodes, nodes, "{}", fen);
    }
}

#[test]
fn the_same_search_on_new_tables_gives_the_same_result() {
    for fen in [PAWN_ENDING, START, ONE_CAPTURE] {
        let p = position(fen);
        let (first, first_tally) = max_at(&p, 3, Color::White);
        let (second, second_tally) = max_at(&p, 3, Color::White);
        assert_eq!(first, second, "{}", fen);
        assert_eq!(first_tally, second_tally, "{}", fen);
    }
}

#[test]
fn pruned_search_agrees_with_full_width_search() {
    let p = position(PAWN_ENDING);
    for depth in [1i8, 2, 3, 4] {
        let ((best, score), _) = max_at(&p, depth, Color::White);
        assert_eq!(score, reference(&p, depth, true, Color::White, false), "depth {}", depth);
        assert!(is_legal(&p, best));
    }
    let q = position("4k3/8/8/3p4/4P3/8/8/4K3 w - - 0 1");
    for depth in [1i8, 2, 3] {
        let ((_, score), _) = max_at(&q, depth, Color::White);
        assert_eq!(score, reference(&q, depth, true, Color::White, false), "depth {}", depth);
    }
    for depth in [1i8, 2] {
        let mut cache = table();
        let mut tally = fresh();
        let clock = Instant::now();
        let r = negamax(&q, depth, Some(i32::MIN), Move::none(), Color::Black, &clock, NO_LIMIT, false, &mut cache, &mut tally);
        assert_eq!(r.1, reference(&q, depth, false, Color::Black, false), "depth {}", depth);
    }
}

#[test]
fn an_entry_from_depth_three_does_not_answer_depth_four() {
    let p = position(PAWN_ENDING);
    let (unprimed, _) = max_at(&p, 4, Color::White);
    let mut cache = table();
    let mut tally = fresh();
    let clock = Instant::now();
    cache.put(p.identity(), Entry { best: uci("e1d1"), score: 12345, depth: 3 });
    let primed = minimax(&p, 4, Some(i32::MAX), Move::none(), Color::White, &clock, NO_LIMIT, false, &mut cache, &mut tally);
    assert_eq!(primed, unprimed);
    assert!(tally.nodes > 0);
    assert_eq!(cache.get(p.identity()), Some(Entry { best: primed.0, score: primed.1, depth: 4 }));
    // The same entry does answer a search to depth three.
    let mut cache = table();
    cache.put(p.identity(), Entry { best: uci("e1d1"), score: 12345, depth: 3 });
    let hit = minimax(&p, 3, Some(i32::MAX), Move::none(), Color::White, &clock, NO_LIMIT, false, &mut cache, &mut tally);
    assert_eq!(hit, (Move::none(), 12345));
    // And an entry from a deeper search is not used either.
    let mut cache = table();
    cache.put(p.identity(), Entry { best: uci("e1d1"), score: 12345, depth: 5 });
    let deeper = minimax(&p, 4, Some(i32::MAX), Move::none(), Color::White, &clock, NO_LIMIT, false, &mut cache, &mut tally);
    assert_eq!(deeper, unprimed);
}

#[test]
fn depth_three_after_four_opening_moves() {
    let mut p = position(START);
    for m in ["d2d4", "g8f6", "d4d5", "d7d6"] {
        assert!(is_legal(&p, uci(m)));
        p = p.apply(uci(m)).unwrap();
    }
    assert_eq!(p.side_to_move(), Color::White);
    let mut cache = TranspositionTable::new(1 << 20).unwrap();
    let mut tally = fresh();
    let clock = Instant::now();
    let (best, score) = minimax(&p, 3, Some(i32::MAX), Move::none(), Color::White, &clock, 10000, false, &mut cache, &mut tally);
    assert!(!best.is_none());
    assert!(is_legal(&p, best));
    assert!((-999..=999).contains(&score), "score {}", score);
    assert!(tally.nodes > 0);
}

#[test]
fn a_score_above_the_bound_stops_the_search() {
    let p = position(START);
    let (_, quiets) = p.legal_moves();
    let mut cache = table();
    let mut tally = fresh();
    let clock = Instant::now();
    // Any score is above -1000: the first move tried ends the search, and
    // that is the last of the quiet moves.
    let (best, score) = minimax(&p, 1, Some(-1000), Move::none(), Color::White, &clock, NO_LIMIT, false, &mut cache, &mut tally);
    assert_eq!(best, *quiets.last().unwrap());
    assert_eq!(score, eval(&p.apply(best).unwrap().placement()));
    assert_eq!(tally.nodes, 1);
    assert_eq!(cache.get(p.identity()), None);
    // The minimizing step stops below its bound.
    let mut tally = fresh();
    let (best, _) = negamax(&p, 1, Some(1000), Move::none(), Color::White, &clock, NO_LIMIT, false, &mut cache, &mut tally);
    assert_eq!(best, *quiets.last().unwrap());
    assert_eq!(tally.nodes, 1);
}

#[test]
fn the_hint_is_tried_first() {
    let p = position(START);
    let mut cache = table();
    let mut tally = fresh();
    let clock = Instant::now();
    let (best, _) = minimax(&p, 1, Some(-1000), uci("g1f3"), Color::White, &clock, NO_LIMIT, false, &mut cache, &mut tally);
    assert_eq!(best, uci("g1f3"));
    assert_eq!(tally.nodes, 1);
    // A hint that is no legal move changes nothing.
    let (plain, _) = max_at(&p, 2, Color::White);
    let mut cache = table();
    let mut tally = fresh();
    let hinted = minimax(&p, 2, Some(i32::MAX), uci("e2e5"), Color::White, &clock, NO_LIMIT, false, &mut cache, &mut tally);
    assert_eq!(hinted, plain);
}

#[test]
fn captures_are_searched_below_depth_zero() {
    // Reached by a capture at depth zero, a node tries its moves: the answer
    // to a capture is searched on, the answer to another move is a leaf.
    let p = position("4k3/8/8/3p4/4P3/8/8/4K3 w - - 0 1");
    let mut cache = table();
    let mut tally = fresh();
    let clock = Instant::now();
    let (best, score) = minimax(&p, 0, None, Move::none(), Color::White, &clock, NO_LIMIT, true, &mut cache, &mut tally);
    assert_eq!(score, reference(&p, 0, true, Color::White, true));
    assert!(is_legal(&p, best));
    assert_eq!(cache.get(p.identity()), Some(Entry { best, score, depth: 0 }));
    // Without a capture to try, the node has the best of its leaves.
    let quiet = position(START);
    let (best, score) = minimax(&quiet, 0, None, Move::none(), Color::White, &clock, NO_LIMIT, true, &mut cache, &mut tally);
    assert!(is_legal(&quiet, best));
    assert_eq!(score, reference(&quiet, 1, true, Color::White, false));
    let mut tally = fresh();
    let (best, score) = negamax(&quiet, -1, None, Move::none(), Color::Black, &clock, NO_LIMIT, true, &mut cache, &mut tally);
    assert!(is_legal(&quiet, best));
    assert_eq!(score, -reference(&quiet, 1, true, Color::White, false));
    assert_eq!(tally.nodes, 20);
}

#[test]
fn a_capture_that_mates_is_preferred_at_depth_zero() {
    // The bishop takes on f7 with check and is tried first; Black has no
    // capture in reply but can step aside. Then the queen takes and mates.
    let p = position("r1bqkb1r/pppp1ppp/2n2n2/4p2Q/2B1P3/8/PPPP1PPP/RNB1K1NR w KQkq - 4 4");
    let (captures, _) = p.legal_moves();
    assert_eq!(captures[0], uci("c4f7"));
    let mut cache = table();
    let mut tally = fresh();
    let clock = Instant::now();
    let r = minimax(&p, 0, None, Move::none(), Color::White, &clock, NO_LIMIT, true, &mut cache, &mut tally);
    assert_eq!(r, (uci("h5f7"), 999));
}

#[test]
fn a_spent_budget_turns_a_node_into_a_leaf() {
    let p = position("4k3/8/8/8/4P3/8/8/4K3 w - - 0 1");
    let mut cache = table();
    let mut tally = fresh();
    let clock = Instant::now();
    while clock.elapsed() < Duration::from_millis(20) {}
    let r = minimax(&p, 3, Some(i32::MAX), Move::none(), Color::White, &clock, 5, false, &mut cache, &mut tally);
    assert_eq!(r, (Move::none(), 120));
    assert_eq!(tally, Tally { nodes: 0, expired: true });
    assert_eq!(cache.get(p.identity()), None);
    // Without a limit the same search is not cut short.
    let mut tally = fresh();
    let r = minimax(&p, 3, Some(i32::MAX), Move::none(), Color::White, &clock, NO_LIMIT, false, &mut cache, &mut tally);
    assert!(!tally.expired);
    assert!(is_legal(&p, r.0));
}

#[test]
fn the_node_counter_wraps() {
    let p = position(ONE_QUIET_MOVE);
    let mut cache = table();
    let mut tally = Tally { nodes: u32::MAX, expired: false };
    let clock = Instant::now();
    minimax(&p, 1, None, Move::none(), Color::White, &clock, NO_LIMIT, false, &mut cache, &mut tally);
    assert_eq!(tally.nodes, 0);
}

#[test]
fn both_steps_are_the_one_search() {
    let p = position(PAWN_ENDING);
    let clock = Instant::now();
    let mut cache = table();
    let mut tally = fresh();
    let a = minimax(&p, 2, None, Move::none(), Color::White, &clock, NO_LIMIT, false, &mut cache, &mut tally);
    let mut cache = table();
    let mut tally = fresh();
    let b = search(true, &p, 2, None, Move::none(), Color::White, &clock, NO_LIMIT, false, &mut cache, &mut tally);
    assert_eq!(a, b);
    let mut cache = table();
    let mut tally = fresh();
    let c = negamax(&p, 2, None, Move::none(), Color::Black, &clock, NO_LIMIT, false, &mut cache, &mut tally);
    let mut cache = table();
    let mut tally = fresh();
    let d = search(false, &p, 2, None, Move::none(), Color::Black, &clock, NO_LIMIT, false, &mut cache, &mut tally);
    assert_eq!(c, d);
    // What is best for White at a maximizing node is worst for Black at a
    // minimizing one.
    assert_eq!(a.1, -c.1);
}

#[test]
fn expand_scores_a_leaf_when_the_clock_shows_more_than_the_budget() {
    let p = position("4k3/8/8/8/4P3/8/8/4K3 w - - 0 1");
    let clock = Instant::now();
    let mut cache = table();
    let mut tally = Tally { nodes: 7, expired: false };
    let r = expand(true, &p, 2, None, Move::none(), Color::White, &clock, 100, 101, &mut cache, &mut tally);
    assert_eq!(r, (Move::none(), 120));
    assert_eq!(tally, Tally { nodes: 7, expired: true });
    assert_eq!(cache.get(p.identity()), None);
    let r = expand(false, &p, 2, None, Move::none(), Color::Black, &clock, 0, 1, &mut cache, &mut tally);
    assert_eq!(r, (Move::none(), -120));
}

#[test]
fn expand_tries_the_moves_when_the_clock_shows_no_more_than_the_budget() {
    let p = position(ONE_QUIET_MOVE);
    let clock = Instant::now();
    let mut cache = table();
    let mut tally = fresh();
    let r = expand(true, &p, 1, None, Move::none(), Color::White, &clock, NO_LIMIT, 100, &mut cache, &mut tally);
    assert_eq!(r, (uci("a1b1"), -800));
    assert_eq!(tally, Tally { nodes: 1, expired: false });
    assert_eq!(cache.get(p.identity()), Some(Entry { best: uci("a1b1"), score: -800, depth: 1 }));
    // What the clock showed equal to the budget is within the budget.
    let mut cache = table();
    let mut tally = fresh();
    let r = expand(true, &p, 1, None, Move::none(), Color::White, &clock, 100, 100, &mut cache, &mut tally);
    assert_eq!(r.0, uci("a1b1"));
}

#[test]
fn expand_does_not_ask_the_cache_or_the_rules() {
    // The position is mated: with no move to try, the node keeps the score
    // it started from and caches it.
    let p = position(WHITE_MATED);
    let clock = Instant::now();
    let mut cache = table();
    let mut tally = fresh();
    cache.put(p.identity(), Entry { best: Move::none(), score: 5, depth: 2 });
    let r = expand(true, &p, 2, None, Move::none(), Color::White, &clock, NO_LIMIT, 0, &mut cache, &mut tally);
    assert_eq!(r, (Move::none(), -999));
    assert_eq!(cache.get(p.identity()), Some(Entry { best: Move::none(), score: -999, depth: 2 }));
}

#[test]
fn the_deepest_depth_is_searched() {
    let p = position(ONE_QUIET_MOVE);
    let clock = Instant::now();
    let mut cache = table();
    let mut tally = fresh();
    // Below depth zero a quiet position is a leaf, however far below.
    let r = minimax(&p, i8::MIN, None, Move::none(), Color::White, &clock, NO_LIMIT, false, &mut cache, &mut tally);
    assert_eq!(r, (Move::none(), -800));
    // Reached by a capture at the lowest depth, a node tries nothing: the
    // depth cannot be counted down.
    let q = position("4k3/8/8/3p4/4P3/8/8/4K3 w - - 0 1");
    let r = minimax(&q, i8::MIN, None, Move::none(), Color::White, &clock, NO_LIMIT, true, &mut cache, &mut tally);
    assert_eq!(r, (Move::none(), -999));
    assert_eq!(tally.nodes, 0);
    let r = minimax(&q, i8::MIN + 1, None, Move::none(), Color::White, &clock, NO_LIMIT, true, &mut cache, &mut tally);
    assert_eq!(r.0, uci("e4d5"));
}

#[test]
fn a_single_move_with_a_static_score_below_a_lost_game_is_returned() {
    // White's only move is Kb1. Black has a queen and a rook: the leaf is
    // worth -1300 to White.
    let p = position("r6k/8/8/8/8/q7/8/K7 w - - 0 1");
    let (captures, quiets) = p.legal_moves();
    assert_eq!((captures.len(), quiets), (0, vec![uci("a1b1")]));
    assert_eq!(eval(&p.apply(uci("a1b1")).unwrap().placement()), -1300);
    let ((best, score), tally) = max_at(&p, 1, Color::White);
    assert_eq!((best, score), (uci("a1b1"), -1300));
    assert_eq!(tally.nodes, 1);
}

#[test]
fn a_search_through_a_position_that_is_not_accepted_ends_the_pass() {
    // Taking in passing leaves White's king in check; the rules engine
    // offers the move and does not accept where it leads.
    let p = position("7k/8/8/3pP3/8/3n4/8/4K3 w - d6 0 1");
    for depth in [1i8, 2, 3] {
        let ((best, score), _) = max_at(&p, depth, Color::White);
        assert!(is_legal(&p, best), "depth {}", depth);
        assert!(best != uci("e5d6"), "depth {}", depth);
        assert!((-2000..=2000).contains(&score));
    }
}

#[test]
fn the_tally_does_not_expire_where_every_answer_is_known_at_once() {
    // At depth 1 every answer to a quiet move is a leaf, and there is no
    // capture: no clock is read below the node.
    let p = position(START);
    let clock = Instant::now();
    while clock.elapsed() < Duration::from_millis(10) {}
    let mut cache = table();
    let mut tally = fresh();
    let r = expand(true, &p, 1, None, Move::none(), Color::White, &clock, 5, 5, &mut cache, &mut tally);
    assert!(!tally.expired);
    assert_eq!(tally.nodes, 20);
    assert_eq!(r.1, reference(&p, 1, true, Color::White, false));
}
