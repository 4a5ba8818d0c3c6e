//! Iterative deepening: search to depth 1, then 2, and so on, each time with
//! the move of the search before as the hint, until the time budget is spent.
use vstd::prelude::*;
use vstd::arithmetic::power2::is_pow2;
use std::time::Instant;
use crate::moves::{Color, Move};
use crate::position::{Position, Snapshot};
use crate::search::{counted, lemma_counted_twice, minimax, search_spec, settled, Outcome, Tally};
use crate::table::{Entry, TranspositionTable};

verus! {

/// The number of slots of the table that a deepening search works with.
pub const TABLE_SLOTS: usize = 524288;

/// The deepest search that is started: depths are counted in an `i8`.
pub const DEPTH_LIMIT: i8 = 127;

/// Where a deepening search stands between two searches.
#[derive(Clone, Copy, Debug, PartialEq, Eq, Structural)]
pub struct Progress {
    /// The move to play: that of the deepest search after which the clock
    /// still showed no more than the budget. Empty before there is one.
    pub best: Move,
    /// The depth of the search that `best` comes from; 0 before there is one.
    pub found_at: i8,
    /// The move of the last search, which is the hint of the next.
    pub hint: Move,
    /// The score of the last search.
    pub score: i32,
    /// The depth of the last search; 0 before the first.
    pub depth: i8,
}

/// What a deepening search found.
#[derive(Clone, Copy, Debug, PartialEq, Eq, Structural)]
pub struct Report {
    /// The move of the deepest search after which the clock still showed no
    /// more than the budget; empty if there was none, or if that search
    /// returned no move.
    pub best: Move,
    /// The depth of the search that `best` comes from; 0 if there was none.
    pub found_at: i8,
    /// The score of the last search that ran.
    pub score: i32,
    /// The moves tried by all searches together, modulo 2^32.
    pub nodes: u32,
    /// The depth of the last search that ran.
    pub depth: i8,
    /// The depth up to which the searches ran to their end: the clock cut
    /// none of them short at any node.
    pub complete: i8,
}

/// The slots of a new table of the size the driver uses.
pub open spec fn blank_table() -> Seq<(u64, Entry)> {
    Seq::new(TABLE_SLOTS as nat, |i: int| (0u64, Entry::blank()))
}

/// Deepening without a clock: the outcome of the search to depth `round`,
/// which runs on the table that the search to `round - 1` left, with that
/// search's move as its hint and with no bound that a score could pass.
/// `nodes` counts the moves tried in all searches up to this one. Before the
/// first search there is no move, and the table is blank.
pub open spec fn rounds(p: Snapshot, side: Color, round: i8) -> Outcome
    decreases round,
{
    if round <= 0 {
        Outcome { best: Move::empty(), score: 0, table: blank_table(), nodes: 0, cut: false }
    } else {
        let before = rounds(p, side, (round - 1) as i8);
        let found = search_spec(
            true,
            p,
            round,
            Some(i32::MAX),
            before.best,
            side,
            false,
            before.table,
        );
        Outcome { nodes: before.nodes + found.nodes, ..found }
    }
}

/// Takes in the result of the search to `progress.depth`, and what the clock
/// showed when it had ended. If that is more than `target`, the move just
/// found is not trusted: the move to play stays what it was, and the
/// deepening ends. Else the move found becomes the move to play, and the
/// deepening goes on unless the depth limit is reached.
pub fn advance(progress: &mut Progress, found: (Move, i32), elapsed: u128, target: u128) -> (more:
    bool)
    ensures
        final(progress).hint == found.0,
        final(progress).score == found.1,
        final(progress).depth == old(progress).depth,
        final(progress).best == (if elapsed > target {
            old(progress).best
        } else {
            found.0
        }),
        final(progress).found_at == (if elapsed > target {
            old(progress).found_at
        } else {
            old(progress).depth
        }),
        more == (elapsed <= target && old(progress).depth < DEPTH_LIMIT),
{
    progress.hint = found.0;
    progress.score = found.1;
    if elapsed > target {
        return false;
    }
    progress.best = found.0;
    progress.found_at = progress.depth;
    progress.depth < DEPTH_LIMIT
}

/// Picks a move for the side to move within `target` milliseconds.
///
/// The maximizing step runs at depth 1, 2, ... on one table, each time with
/// the move of the run before as its hint and no bound that a score could
/// pass. After each run the clock is read, and `advance` decides.
///
/// The searches that the clock did not cut short are those of `rounds`. The
/// move reported comes from the search before the last, or from the last if
/// that was the search to the depth limit; if that search ran to its end,
/// the move is the move of that round.
pub fn iter_deepen(board: &Position, target: u128) -> (r: Report)
    ensures
        r.best == Move::empty() || board@.legal(r.best),
        1 <= r.depth <= DEPTH_LIMIT,
        0 <= r.complete <= r.depth,
        r.found_at == r.depth || r.found_at == r.depth - 1,
        r.found_at == r.depth ==> r.depth == DEPTH_LIMIT,
        r.found_at == 0 ==> r.best == Move::empty(),
        r.found_at <= r.complete ==> r.best == rounds(board@, board@.to_move, r.found_at).best,
        r.complete == r.depth ==> r.score == rounds(board@, board@.to_move, r.depth).score
            && r.nodes == counted(0, rounds(board@, board@.to_move, r.depth).nodes),
        settled(board@, 1, board@.to_move, false, blank_table()) matches Some(score) ==> r.best
            == Move::empty() && r.score == score && r.nodes == 0,
        target == u128::MAX ==> r.complete == DEPTH_LIMIT && r.found_at == DEPTH_LIMIT,
{
    let clock = Instant::now();
    proof {
        assert(is_pow2(TABLE_SLOTS as int)) by {
            reveal_with_fuel(is_pow2, 21);
        }
    }
    let mut table = TranspositionTable::new(TABLE_SLOTS).unwrap();
    let mut tally = Tally { nodes: 0, expired: false };
    let side = board.side_to_move();
    let mut progress =
        Progress { best: Move::none(), found_at: 0, hint: Move::none(), score: 0, depth: 0 };
    let mut complete: i8 = 0;
    let mut more = true;
    while more
        invariant
            side == board@.to_move,
            table@.len() == TABLE_SLOTS,
            0 <= complete <= progress.depth <= DEPTH_LIMIT,
            more ==> progress.depth < DEPTH_LIMIT && progress.found_at == progress.depth,
            !more ==> progress.depth >= 1,
            !more && progress.found_at == progress.depth ==> progress.depth == DEPTH_LIMIT,
            progress.found_at == progress.depth || progress.found_at == progress.depth - 1,
            progress.found_at == 0 ==> progress.best == Move::empty(),
            progress.hint == Move::empty() || board@.legal(progress.hint),
            progress.best == Move::empty() || board@.legal(progress.best),
            more ==> progress.best == progress.hint,
            tally.expired <==> complete < progress.depth,
            target == u128::MAX ==> !tally.expired && (!more ==> progress.found_at == DEPTH_LIMIT),
            !tally.expired ==> ({
                let last = rounds(board@, side, progress.depth);
                &&& progress.hint == last.best
                &&& table@ == last.table
                &&& tally.nodes == counted(0, last.nodes)
                &&& progress.depth > 0 ==> progress.score == last.score
            }),
            progress.found_at <= complete ==> progress.best == rounds(
                board@,
                side,
                progress.found_at,
            ).best,
            settled(board@, 1, side, false, blank_table()) matches Some(first)
                ==> progress.best == Move::empty() && tally.nodes == 0 && table@ == blank_table()
                && (progress.depth > 0 ==> progress.score == first),
        decreases DEPTH_LIMIT - progress.depth + (if more { 1int } else { 0int }),
    {
        let ghost before = rounds(board@, side, progress.depth);
        let ghost counter = tally.nodes;
        progress.depth = progress.depth + 1;
        let ghost found = search_spec(
            true,
            board@,
            progress.depth,
            Some(i32::MAX),
            progress.hint,
            side,
            false,
            table@,
        );
        proof {
            lemma_settled_at_any_depth(board@, progress.depth, side);
        }
        let result = minimax(
            board,
            progress.depth,
            Some(i32::MAX),
            progress.hint,
            side,
            &clock,
            target,
            false,
            &mut table,
            &mut tally,
        );
        if !tally.expired {
            complete = progress.depth;
        }
        proof {
            if !tally.expired {
                lemma_counted_twice(0, before.nodes, found.nodes, counter);
            }
        }
        let elapsed = clock.elapsed().as_millis();
        more = advance(&mut progress, result, elapsed, target);
    }
    Report {
        best: progress.best,
        found_at: progress.found_at,
        score: progress.score,
        nodes: tally.nodes,
        depth: progress.depth,
        complete,
    }
}

/// A finished game is scored at once at every depth, and a blank table has no
/// answer for a depth above zero.
proof fn lemma_settled_at_any_depth(p: Snapshot, depth: i8, side: Color)
    requires
        depth >= 1,
    ensures
        settled(p, 1, side, false, blank_table()) == settled(p, depth, side, false, blank_table()),
{
}

} // verus!
