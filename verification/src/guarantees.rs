//! What holds of every search, proved from the definition of `search_spec`.
use vstd::prelude::*;
use crate::driver::{blank_table, rounds};
use crate::evaluate::{eval_spec, lemma_eval_bound};
use crate::moves::{Color, Move, Status};
use crate::position::{child_of, Snapshot};
use crate::search::{
    at_once, better, exceeds, expand_spec, fresh_spec, leaf_score, mate_score, may_descend,
    opening, plies, probe, reach, scan, search_spec, second_pass, takes, verdict, worst,
    Frontier,
};
use crate::table::{lemma_lookup_after_store, store, Entry};

verus! {

/// A checkmated position has the mate score, at every depth and whatever the
/// bound and the hint: -999 if the player the search works for is mated, 999
/// if the opponent is. No move is returned and nothing is cached. This holds
/// where the cache has no score for the position at this depth.
pub proof fn lemma_checkmate_score(
    maximize: bool,
    p: Snapshot,
    depth: i8,
    bound: Option<i32>,
    hint: Move,
    side: Color,
    capture: bool,
    table: Seq<(u64, Entry)>,
)
    requires
        p.status() == Status::Checkmate,
        probe(table, p.identity, depth) is None,
    ensures
        search_spec(maximize, p, depth, bound, hint, side, capture, table) == at_once(
            mate_score(side, p.to_move),
            table,
        ),
        mate_score(side, p.to_move) == (if p.to_move == side {
            -999
        } else {
            999
        }),
{
}

/// A stalemated position has the score 0, at every depth. This holds where
/// the cache has no score for the position at this depth.
pub proof fn lemma_stalemate_score(
    maximize: bool,
    p: Snapshot,
    depth: i8,
    bound: Option<i32>,
    hint: Move,
    side: Color,
    capture: bool,
    table: Seq<(u64, Entry)>,
)
    requires
        p.status() == Status::Stalemate,
        probe(table, p.identity, depth) is None,
    ensures
        search_spec(maximize, p, depth, bound, hint, side, capture, table) == at_once(0, table),
{
}

/// A leaf has the static score of its placement where the search works for
/// White, and the negated score where it works for Black.
pub proof fn lemma_leaf_score(side: Color, p: Snapshot)
    ensures
        leaf_score(side, p) == (if side == Color::White {
            eval_spec(p.placement)
        } else {
            -eval_spec(p.placement)
        }),
{
    lemma_eval_bound(p.placement);
}

/// A table in which every slot is blank has no score for any position at a
/// depth other than zero.
pub proof fn lemma_blank_table_misses(size: nat, key: u64, depth: i8)
    requires
        size > 0,
        depth != 0,
    ensures
        probe(Seq::new(size, |i: int| (0u64, Entry::blank())), key, depth) is None,
{
}

/// Depth-exact reuse: an entry cached for a position from a search to another
/// depth does not answer a search to `depth`; that search runs as if the cache
/// had not been asked.
pub proof fn lemma_other_depth_is_not_reused(
    maximize: bool,
    p: Snapshot,
    depth: i8,
    bound: Option<i32>,
    hint: Move,
    side: Color,
    capture: bool,
    table: Seq<(u64, Entry)>,
    entry: Entry,
)
    requires
        table.len() > 0,
        entry.depth != depth,
    ensures
        probe(store(table, p.identity, entry), p.identity, depth) is None,
        search_spec(
            maximize,
            p,
            depth,
            bound,
            hint,
            side,
            capture,
            store(table, p.identity, entry),
        ) == fresh_spec(
            maximize,
            p,
            depth,
            bound,
            hint,
            side,
            capture,
            store(table, p.identity, entry),
        ),
{
}

/// A search leaves the table with as many slots as it found.
pub proof fn lemma_search_keeps_size(
    maximize: bool,
    p: Snapshot,
    depth: i8,
    bound: Option<i32>,
    hint: Move,
    side: Color,
    capture: bool,
    table: Seq<(u64, Entry)>,
)
    requires
        table.len() > 0,
    ensures
        search_spec(maximize, p, depth, bound, hint, side, capture, table).table.len()
            == table.len(),
    decreases plies(depth), reach(p, depth, capture), 3nat, 0nat,
{
    if probe(table, p.identity, depth) is None && verdict(p, depth, side, capture) is None {
        lemma_expand_keeps_size(maximize, p, depth, bound, hint, side, table);
    }
}

/// Trying the moves of a node leaves the table with as many slots as it
/// found.
pub proof fn lemma_expand_keeps_size(
    maximize: bool,
    p: Snapshot,
    depth: i8,
    bound: Option<i32>,
    hint: Move,
    side: Color,
    table: Seq<(u64, Entry)>,
)
    requires
        table.len() > 0,
    ensures
        expand_spec(maximize, p, depth, bound, hint, side, table).table.len() == table.len(),
        !expand_spec(maximize, p, depth, bound, hint, side, table).cut ==> probe(
            expand_spec(maximize, p, depth, bound, hint, side, table).table,
            p.identity,
            depth,
        ) == Some(expand_spec(maximize, p, depth, bound, hint, side, table).score),
    decreases plies(depth), p.placement.total() + 1, 1nat, 0nat,
{
    let start = opening(maximize, table);
    lemma_scan_keeps_size(maximize, p, depth, bound, side, true, p.captures(), 0, start);
    let first = scan(maximize, p, depth, bound, side, true, p.captures(), 0, start);
    if !first.cut {
        let resumed = Frontier { hint: Move::empty(), nodes: 0, ..first };
        let rest = second_pass(p, hint);
        lemma_scan_keeps_size(maximize, p, depth, bound, side, false, rest, 0, resumed);
        let second = scan(maximize, p, depth, bound, side, false, rest, 0, resumed);
        if !second.cut {
            let entry = Entry { best: second.best, score: second.score, depth };
            lemma_lookup_after_store(second.table, p.identity, entry);
        }
    }
}

/// A pass over the moves of a node leaves the table with as many slots as it
/// found.
pub proof fn lemma_scan_keeps_size(
    maximize: bool,
    p: Snapshot,
    depth: i8,
    bound: Option<i32>,
    side: Color,
    capture: bool,
    moves: Seq<Move>,
    from: nat,
    state: Frontier,
)
    requires
        state.table.len() > 0,
    ensures
        scan(maximize, p, depth, bound, side, capture, moves, from, state).table.len()
            == state.table.len(),
    decreases plies(depth), p.placement.total() + 1, 0nat, moves.len() - from,
{
    if from < moves.len() {
        let m = moves[from as int];
        let child = child_of(p, m);
        if may_descend(p, depth, capture, child) {
            lemma_search_keeps_size(
                !maximize,
                child,
                (depth - 1) as i8,
                Some(state.score),
                state.hint,
                side,
                capture,
                state.table,
            );
            let reply = search_spec(
                !maximize,
                child,
                (depth - 1) as i8,
                Some(state.score),
                state.hint,
                side,
                capture,
                state.table,
            );
            let nodes = state.nodes + 1 + reply.nodes;
            if takes(maximize, state, reply.score) {
                let next = Frontier {
                    chosen: true,
                    best: m,
                    score: reply.score,
                    hint: reply.best,
                    table: reply.table,
                    nodes,
                    cut: exceeds(maximize, bound, reply.score),
                };
                if !next.cut {
                    lemma_scan_keeps_size(
                        maximize,
                        p,
                        depth,
                        bound,
                        side,
                        capture,
                        moves,
                        from + 1,
                        next,
                    );
                }
            } else {
                lemma_scan_keeps_size(
                    maximize,
                    p,
                    depth,
                    bound,
                    side,
                    capture,
                    moves,
                    from + 1,
                    Frontier { table: reply.table, nodes, ..state },
                );
            }
        }
    }
}

/// Searching again: a search that did not stop at its bound has left the
/// table such that the same search, run on that table, returns the same score
/// at once: it tries no move, returns the empty move and changes nothing.
pub proof fn lemma_search_again(
    maximize: bool,
    p: Snapshot,
    depth: i8,
    bound: Option<i32>,
    hint: Move,
    side: Color,
    capture: bool,
    table: Seq<(u64, Entry)>,
)
    requires
        table.len() > 0,
        !search_spec(maximize, p, depth, bound, hint, side, capture, table).cut,
    ensures
        ({
            let first = search_spec(maximize, p, depth, bound, hint, side, capture, table);
            search_spec(maximize, p, depth, bound, hint, side, capture, first.table) == at_once(
                first.score,
                first.table,
            )
        }),
{
    if probe(table, p.identity, depth) is None && verdict(p, depth, side, capture) is None {
        lemma_expand_keeps_size(maximize, p, depth, bound, hint, side, table);
    }
}

/// The move that a search returns is the empty move or a legal move of the
/// position, whatever the hint was.
pub proof fn lemma_best_is_legal(
    maximize: bool,
    p: Snapshot,
    depth: i8,
    bound: Option<i32>,
    hint: Move,
    side: Color,
    capture: bool,
    table: Seq<(u64, Entry)>,
)
    ensures
        ({
            let best = search_spec(maximize, p, depth, bound, hint, side, capture, table).best;
            best == Move::empty() || p.legal(best)
        }),
{
    if probe(table, p.identity, depth) is None && verdict(p, depth, side, capture) is None {
        let start = opening(maximize, table);
        let rest = second_pass(p, hint);
        lemma_pass_picks_from_its_moves(
            maximize,
            p,
            depth,
            bound,
            side,
            true,
            p.captures(),
            0,
            start,
        );
        let first = scan(maximize, p, depth, bound, side, true, p.captures(), 0, start);
        let resumed = Frontier { hint: Move::empty(), nodes: 0, ..first };
        lemma_pass_picks_from_its_moves(maximize, p, depth, bound, side, false, rest, 0, resumed);
        let second = scan(maximize, p, depth, bound, side, false, rest, 0, resumed);
        if rest.contains(second.best) {
            lemma_second_pass_is_quiet(p, hint, second.best);
        }
    }
}

/// The moves of the second pass are the quiet moves of the position.
pub proof fn lemma_second_pass_is_quiet(p: Snapshot, hint: Move, m: Move)
    requires
        second_pass(p, hint).contains(m),
    ensures
        p.quiets().contains(m),
{
    let rest = second_pass(p, hint);
    let i = choose|i: int| 0 <= i < rest.len() && rest[i] == m;
    let quiets = p.quiets();
    if quiets.contains(hint) {
        let tried = quiets.push(hint);
        let at = tried.len() - 1 - i;
        if at < quiets.len() {
            assert(quiets[at] == m);
        }
    } else {
        assert(quiets[quiets.len() - 1 - i] == m);
    }
}

/// A pass leaves the best move as it found it or makes one of its moves the
/// best move.
pub proof fn lemma_pass_picks_from_its_moves(
    maximize: bool,
    p: Snapshot,
    depth: i8,
    bound: Option<i32>,
    side: Color,
    capture: bool,
    moves: Seq<Move>,
    from: nat,
    state: Frontier,
)
    ensures
        ({
            let end = scan(maximize, p, depth, bound, side, capture, moves, from, state);
            end.best == state.best || moves.contains(end.best)
        }),
    decreases moves.len() - from,
{
    if from < moves.len() {
        let m = moves[from as int];
        let child = child_of(p, m);
        if may_descend(p, depth, capture, child) {
            let reply = search_spec(
                !maximize,
                child,
                (depth - 1) as i8,
                Some(state.score),
                state.hint,
                side,
                capture,
                state.table,
            );
            let nodes = state.nodes + 1 + reply.nodes;
            if takes(maximize, state, reply.score) {
                let next = Frontier {
                    chosen: true,
                    best: m,
                    score: reply.score,
                    hint: reply.best,
                    table: reply.table,
                    nodes,
                    cut: exceeds(maximize, bound, reply.score),
                };
                lemma_pass_picks_from_its_moves(
                    maximize,
                    p,
                    depth,
                    bound,
                    side,
                    capture,
                    moves,
                    from + 1,
                    next,
                );
            } else {
                lemma_pass_picks_from_its_moves(
                    maximize,
                    p,
                    depth,
                    bound,
                    side,
                    capture,
                    moves,
                    from + 1,
                    Frontier { table: reply.table, nodes, ..state },
                );
            }
        }
    }
}

/// Whether every legal move of `p` leads to a position that the search works
/// on.
pub open spec fn moves_lead_on(p: Snapshot) -> bool {
    forall|m: Move| #[trigger] p.legal(m) ==> child_of(p, m).admitted()
}

/// A pass at depth 1 or more over moves that all lead on chooses a move if
/// none was chosen before and there is a move to try.
pub proof fn lemma_pass_chooses(
    maximize: bool,
    p: Snapshot,
    depth: i8,
    bound: Option<i32>,
    side: Color,
    capture: bool,
    moves: Seq<Move>,
    from: nat,
    state: Frontier,
)
    requires
        depth >= 1,
        forall|i: int| from <= i < moves.len() ==> child_of(p, #[trigger] moves[i]).admitted(),
    ensures
        ({
            let end = scan(maximize, p, depth, bound, side, capture, moves, from, state);
            &&& state.chosen ==> end.chosen
            &&& from < moves.len() ==> end.chosen
            &&& !state.chosen && from < moves.len() ==> moves.contains(end.best)
        }),
    decreases moves.len() - from,
{
    if from < moves.len() {
        let m = moves[from as int];
        let child = child_of(p, m);
        assert(may_descend(p, depth, capture, child));
        let reply = search_spec(
            !maximize,
            child,
            (depth - 1) as i8,
            Some(state.score),
            state.hint,
            side,
            capture,
            state.table,
        );
        let nodes = state.nodes + 1 + reply.nodes;
        if takes(maximize, state, reply.score) {
            let next = Frontier {
                chosen: true,
                best: m,
                score: reply.score,
                hint: reply.best,
                table: reply.table,
                nodes,
                cut: exceeds(maximize, bound, reply.score),
            };
            lemma_pass_chooses(maximize, p, depth, bound, side, capture, moves, from + 1, next);
            lemma_pass_picks_from_its_moves(
                maximize,
                p,
                depth,
                bound,
                side,
                capture,
                moves,
                from + 1,
                next,
            );
        } else {
            lemma_pass_chooses(
                maximize,
                p,
                depth,
                bound,
                side,
                capture,
                moves,
                from + 1,
                Frontier { table: reply.table, nodes, ..state },
            );
        }
    }
}

/// A move is found: where the game goes on and every legal move leads on, a
/// search to depth 1 or more that the cache does not answer returns a legal
/// move.
pub proof fn lemma_a_move_is_chosen(
    maximize: bool,
    p: Snapshot,
    depth: i8,
    bound: Option<i32>,
    hint: Move,
    side: Color,
    capture: bool,
    table: Seq<(u64, Entry)>,
)
    requires
        p.status() == Status::Ongoing,
        moves_lead_on(p),
        depth >= 1,
        probe(table, p.identity, depth) is None,
    ensures
        p.legal(search_spec(maximize, p, depth, bound, hint, side, capture, table).best),
{
    let start = opening(maximize, table);
    let rest = second_pass(p, hint);
    assert forall|i: int| 0 <= i < p.captures().len() implies child_of(
        p,
        #[trigger] p.captures()[i],
    ).admitted() by {
        assert(p.legal(p.captures()[i]));
    }
    assert forall|i: int| 0 <= i < rest.len() implies child_of(p, #[trigger] rest[i]).admitted() by {
        lemma_second_pass_is_quiet(p, hint, rest[i]);
        assert(p.legal(rest[i]));
    }
    lemma_pass_chooses(maximize, p, depth, bound, side, true, p.captures(), 0, start);
    lemma_pass_picks_from_its_moves(maximize, p, depth, bound, side, true, p.captures(), 0, start);
    let first = scan(maximize, p, depth, bound, side, true, p.captures(), 0, start);
    let resumed = Frontier { hint: Move::empty(), nodes: 0, ..first };
    lemma_pass_chooses(maximize, p, depth, bound, side, false, rest, 0, resumed);
    lemma_pass_picks_from_its_moves(maximize, p, depth, bound, side, false, rest, 0, resumed);
    let second = scan(maximize, p, depth, bound, side, false, rest, 0, resumed);
    if p.captures().len() == 0 {
        // Some move is quiet, and the second pass tries them all.
        assert(p.quiets().len() > 0);
        assert(rest.len() >= p.quiets().len());
    }
    if rest.contains(second.best) {
        lemma_second_pass_is_quiet(p, hint, second.best);
    }
}

/// Deepening finds a move: where the game goes on and every legal move leads
/// on, the search of a round returns a legal move, unless the table that
/// the round before left answers for the position at this round's depth, as
/// it can only where another position shares the identity.
pub proof fn lemma_round_finds_a_move(p: Snapshot, side: Color, round: i8)
    requires
        p.status() == Status::Ongoing,
        moves_lead_on(p),
        round >= 1,
        probe(rounds(p, side, (round - 1) as i8).table, p.identity, round) is None,
    ensures
        p.legal(rounds(p, side, round).best),
{
    let before = rounds(p, side, (round - 1) as i8);
    lemma_a_move_is_chosen(true, p, round, Some(i32::MAX), before.best, side, false, before.table);
}

/// The first round always runs on a blank table, which has no answer for
/// depth 1.
pub proof fn lemma_first_round_finds_a_move(p: Snapshot, side: Color)
    requires
        p.status() == Status::Ongoing,
        moves_lead_on(p),
    ensures
        p.legal(rounds(p, side, 1).best),
{
    assert(rounds(p, side, 0).table == blank_table());
    lemma_round_finds_a_move(p, side, 1);
}

/// What a bound does: a search that stopped at its bound returns a score
/// that has passed the bound, and a search that did not stop returns what
/// the search without a bound returns, and leaves behind what it leaves.
pub proof fn lemma_bound_only_cuts(
    maximize: bool,
    p: Snapshot,
    depth: i8,
    bound: Option<i32>,
    hint: Move,
    side: Color,
    capture: bool,
    table: Seq<(u64, Entry)>,
)
    ensures
        ({
            let bounded = search_spec(maximize, p, depth, bound, hint, side, capture, table);
            let free = search_spec(maximize, p, depth, None, hint, side, capture, table);
            &&& !free.cut
            &&& bounded.cut ==> exceeds(maximize, bound, bounded.score)
            &&& !bounded.cut ==> bounded == free
        }),
{
    if probe(table, p.identity, depth) is None && verdict(p, depth, side, capture) is None {
        let start = opening(maximize, table);
        let rest = second_pass(p, hint);
        lemma_bound_only_cuts_a_pass(maximize, p, depth, bound, side, true, p.captures(), 0, start);
        let first = scan(maximize, p, depth, bound, side, true, p.captures(), 0, start);
        if !first.cut {
            let resumed = Frontier { hint: Move::empty(), nodes: 0, ..first };
            lemma_bound_only_cuts_a_pass(maximize, p, depth, bound, side, false, rest, 0, resumed);
        }
        let free = scan(maximize, p, depth, None, side, true, p.captures(), 0, start);
        let resumed = Frontier { hint: Move::empty(), nodes: 0, ..free };
        lemma_bound_only_cuts_a_pass(maximize, p, depth, None, side, false, rest, 0, resumed);
    }
}

/// What a bound does to one pass over the moves of a node.
pub proof fn lemma_bound_only_cuts_a_pass(
    maximize: bool,
    p: Snapshot,
    depth: i8,
    bound: Option<i32>,
    side: Color,
    capture: bool,
    moves: Seq<Move>,
    from: nat,
    state: Frontier,
)
    requires
        !state.cut,
    ensures
        ({
            let bounded = scan(maximize, p, depth, bound, side, capture, moves, from, state);
            let free = scan(maximize, p, depth, None, side, capture, moves, from, state);
            &&& !free.cut
            &&& bounded.cut ==> exceeds(maximize, bound, bounded.score)
            &&& !bounded.cut ==> bounded == free
        }),
    decreases moves.len() - from,
{
    if from < moves.len() {
        let m = moves[from as int];
        let child = child_of(p, m);
        if may_descend(p, depth, capture, child) {
            let reply = search_spec(
                !maximize,
                child,
                (depth - 1) as i8,
                Some(state.score),
                state.hint,
                side,
                capture,
                state.table,
            );
            let nodes = state.nodes + 1 + reply.nodes;
            let kept = Frontier { table: reply.table, nodes, ..state };
            let taken = Frontier {
                chosen: true,
                best: m,
                score: reply.score,
                hint: reply.best,
                table: reply.table,
                nodes,
                cut: false,
            };
            if takes(maximize, state, reply.score) {
                lemma_bound_only_cuts_a_pass(
                    maximize,
                    p,
                    depth,
                    bound,
                    side,
                    capture,
                    moves,
                    from + 1,
                    taken,
                );
            } else {
                lemma_bound_only_cuts_a_pass(
                    maximize,
                    p,
                    depth,
                    bound,
                    side,
                    capture,
                    moves,
                    from + 1,
                    kept,
                );
            }
        }
    }
}

/// After the first move, a move whose answer stopped at the bound does not
/// become the best move: the answer was sought with the best score so far
/// as its bound, and a score that has passed that bound for the one player
/// is no better than it for the other.
pub proof fn lemma_cut_answer_is_not_taken(maximize: bool, best: i32, answer: i32)
    requires
        exceeds(!maximize, Some(best), answer),
    ensures
        !better(maximize, answer, best),
{
}

/// Two searches with the same arguments, each on a table with the same
/// slots, have the same outcome: nothing but its arguments enters a search
/// without a clock.
pub proof fn lemma_same_search_same_outcome(
    maximize: bool,
    p: Snapshot,
    depth: i8,
    bound: Option<i32>,
    hint: Move,
    side: Color,
    capture: bool,
    table: Seq<(u64, Entry)>,
    other: Seq<(u64, Entry)>,
)
    requires
        table.len() == other.len(),
        forall|i: int| 0 <= i < table.len() ==> table[i] == other[i],
    ensures
        search_spec(maximize, p, depth, bound, hint, side, capture, table) == search_spec(
            maximize,
            p,
            depth,
            bound,
            hint,
            side,
            capture,
            other,
        ),
{
    assert(table =~= other);
}

/// A position with one legal move: a search to depth 1 or more returns that
/// move, whatever the score of the answer to it. This holds where the cache
/// has no score for the position at this depth, and where the move leads to
/// a position that the search works on.
pub proof fn lemma_single_move(
    maximize: bool,
    p: Snapshot,
    depth: i8,
    bound: Option<i32>,
    hint: Move,
    side: Color,
    capture: bool,
    table: Seq<(u64, Entry)>,
    m: Move,
)
    requires
        p.captures().len() + p.quiets().len() == 1,
        p.legal(m),
        child_of(p, m).admitted(),
        depth >= 1,
        probe(table, p.identity, depth) is None,
    ensures
        search_spec(maximize, p, depth, bound, hint, side, capture, table).best == m,
{
    reveal_with_fuel(scan, 3);
    let start = opening(maximize, table);
    assert(p.status() == Status::Ongoing);
    let first = scan(maximize, p, depth, bound, side, true, p.captures(), 0, start);
    let rest = second_pass(p, hint);
    let resumed = Frontier { hint: Move::empty(), nodes: 0, ..first };
    let second = scan(maximize, p, depth, bound, side, false, rest, 0, resumed);
    if p.captures().contains(m) {
        // The move is the one capture, and no move is left for the second
        // pass.
        assert(p.captures()[0] == m);
        assert(may_descend(p, depth, true, child_of(p, m)));
        assert(!p.quiets().contains(hint));
        assert(rest.len() == 0);
        assert(first.best == m);
        assert(second == resumed);
    } else {
        // The captures are none; the second pass tries the move, and tries
        // it once more if it is the hint as well.
        assert(p.quiets()[0] == m);
        assert(may_descend(p, depth, false, child_of(p, m)));
        assert(first == start);
        assert(rest[0] == m);
        if p.quiets().contains(hint) {
            assert(hint == m);
            assert(rest.len() == 2);
            assert(rest[1] == m);
        } else {
            assert(rest.len() == 1);
        }
        assert(second.best == m);
    }
}

} // verus!
