//! The search core: a maximizing and a minimizing step that call each other,
//! each pruning against the bound its caller hands down, extending the search
//! along captures, and caching what it finds.
//!
//! Scores are stated from the point of view of `side`, the player the search
//! works for, at every node: higher is better for `side`. The maximizing step
//! stands at nodes where `side` chooses, the minimizing step where the
//! opponent does.
use vstd::prelude::*;
use std::time::Instant;
use crate::evaluate::{eval, eval_spec};
use crate::moves::{Color, Move, Status};
use crate::position::{child_of, holds, Position, Snapshot};
use crate::table::{lookup, store, Entry, TranspositionTable};

verus! {

/// The magnitude of the score of a forced mate.
pub const MATE: i32 = 999;

/// What a search hands back, and what it leaves behind.
pub struct Outcome {
    /// The move chosen here; empty where the score was not found by trying
    /// moves.
    pub best: Move,
    /// The score of the position for the player the search works for.
    pub score: i32,
    /// The slots of the transposition table after the search.
    pub table: Seq<(u64, Entry)>,
    /// How many moves were tried, at this node and below.
    pub nodes: nat,
    /// Whether the search stopped early because its score passed the bound.
    pub cut: bool,
}

/// The state of a node while its moves are tried one after the other.
pub struct Frontier {
    /// Whether a move has been tried: the first move tried is chosen whatever
    /// its score, a later one only if its score is better.
    pub chosen: bool,
    /// The best move so far; empty before the first move was tried.
    pub best: Move,
    /// The score of `best`; a lost game for the player who chooses before
    /// the first move was tried.
    pub score: i32,
    /// The reply that the search below found to `best`: the next move's search
    /// tries it first.
    pub hint: Move,
    /// The slots of the transposition table after the moves tried so far.
    pub table: Seq<(u64, Entry)>,
    /// How many moves were tried so far in this pass, here and below.
    pub nodes: nat,
    /// Whether the score of `best` has passed the bound of the node.
    pub cut: bool,
}

/// The plies that are left to search at full width.
pub open spec fn plies(depth: i8) -> nat {
    if depth > 0 {
        depth as nat
    } else {
        0
    }
}

/// Whether `a` is better than `b` for the player who chooses at this node.
pub open spec fn better(maximize: bool, a: i32, b: i32) -> bool {
    if maximize {
        a > b
    } else {
        a < b
    }
}

/// The score a node starts from, which is the bound of the answer to its
/// first move: a lost game for the player who chooses.
pub open spec fn worst(maximize: bool) -> i32 {
    if maximize {
        (-MATE) as i32
    } else {
        MATE
    }
}

/// Whether `score` has passed the bound that the caller handed down.
pub open spec fn exceeds(maximize: bool, bound: Option<i32>, score: i32) -> bool {
    bound matches Some(limit) && better(maximize, score, limit)
}

/// The score of a position in which `to_move` is checkmated: the mated
/// player has lost, whoever the search works for.
pub open spec fn mate_score(side: Color, to_move: Color) -> i32 {
    if side == to_move {
        (-MATE) as i32
    } else {
        MATE
    }
}

/// The static score of a leaf, turned to the point of view of `side`.
pub open spec fn leaf_score(side: Color, p: Snapshot) -> i32 {
    match side {
        Color::White => eval_spec(p.placement) as i32,
        Color::Black => (-eval_spec(p.placement)) as i32,
    }
}

/// The cached score for `key`, if the table holds one from a search to
/// exactly `depth`. An entry from a shallower or a deeper search is not
/// used.
pub open spec fn probe(table: Seq<(u64, Entry)>, key: u64, depth: i8) -> Option<i32> {
    match lookup(table, key) {
        Some(entry) => if entry.depth == depth {
            Some(entry.score)
        } else {
            None
        },
        None => None,
    }
}

/// The score of a node at which no move is tried: a finished game, or a leaf
/// at depth zero that was not reached by a capture.
pub open spec fn verdict(p: Snapshot, depth: i8, side: Color, capture: bool) -> Option<i32> {
    match p.status() {
        Status::Checkmate => Some(mate_score(side, p.to_move)),
        Status::Stalemate => Some(0),
        Status::Ongoing => if depth <= 0 && !capture {
            Some(leaf_score(side, p))
        } else {
            None
        },
    }
}

/// The moves that do not capture, in the order in which they are tried: the
/// hint first if it is one of them, then all of them from the last to the
/// first.
pub open spec fn ordered_quiets(quiets: Seq<Move>, hint: Move) -> Seq<Move> {
    if quiets.contains(hint) {
        quiets.push(hint).reverse()
    } else {
        quiets.reverse()
    }
}

/// A node whose score is known without trying a move.
pub open spec fn at_once(score: i32, table: Seq<(u64, Entry)>) -> Outcome {
    Outcome { best: Move::empty(), score, table, nodes: 0, cut: false }
}

/// The search without a clock: what the maximizing step (`maximize`) or the
/// minimizing step returns for the position `p`.
///
/// A cached score from a search to the same depth is returned as it is.
/// Otherwise a finished game or a leaf has the score that `verdict` gives.
/// Otherwise the moves are tried, as `expand_spec` says.
pub open spec fn search_spec(
    maximize: bool,
    p: Snapshot,
    depth: i8,
    bound: Option<i32>,
    hint: Move,
    side: Color,
    capture: bool,
    table: Seq<(u64, Entry)>,
) -> Outcome
    decreases plies(depth), reach(p, depth, capture), 3nat, 0nat,
{
    match probe(table, p.identity, depth) {
        Some(score) => at_once(score, table),
        None => fresh_spec(maximize, p, depth, bound, hint, side, capture, table),
    }
}

/// The search of a node for which the cache is not asked.
pub open spec fn fresh_spec(
    maximize: bool,
    p: Snapshot,
    depth: i8,
    bound: Option<i32>,
    hint: Move,
    side: Color,
    capture: bool,
    table: Seq<(u64, Entry)>,
) -> Outcome
    decreases plies(depth), reach(p, depth, capture), 2nat, 0nat,
{
    match verdict(p, depth, side, capture) {
        Some(score) => at_once(score, table),
        None => expand_spec(maximize, p, depth, bound, hint, side, table),
    }
}

/// The state in which a node starts to try its moves.
pub open spec fn opening(maximize: bool, table: Seq<(u64, Entry)>) -> Frontier {
    Frontier {
        chosen: false,
        best: Move::empty(),
        score: worst(maximize),
        hint: Move::empty(),
        table,
        nodes: 0,
        cut: false,
    }
}

/// The moves that are tried after the captures: the others, in their
/// order.
pub open spec fn second_pass(p: Snapshot, hint: Move) -> Seq<Move> {
    ordered_quiets(p.quiets(), hint)
}

/// How far the search can still reach from a node below depth zero, where
/// only captures lead on: nowhere from a node that was not reached by a
/// capture, and else no further than there are pieces to take.
pub open spec fn reach(p: Snapshot, depth: i8, capture: bool) -> nat {
    if depth <= 0 && !capture {
        0
    } else {
        p.placement.total() + 1
    }
}

/// Whether a move is chosen: the first move tried is, and after it a move
/// whose answer is better than that of the best move so far.
pub open spec fn takes(maximize: bool, state: Frontier, answer: i32) -> bool {
    !state.chosen || better(maximize, answer, state.score)
}

/// The search of a node whose moves are tried: first the captures, then the
/// other moves, the answer to each sought with `capture` set for the first
/// and not for the second, so that below depth zero the answer to a capture
/// is searched on and the answer to another move is a leaf. The search stops
/// as soon as the score passes `bound`; if it does not stop, it caches the
/// best move and its score under the position's identity, for `depth`.
pub open spec fn expand_spec(
    maximize: bool,
    p: Snapshot,
    depth: i8,
    bound: Option<i32>,
    hint: Move,
    side: Color,
    table: Seq<(u64, Entry)>,
) -> Outcome
    decreases plies(depth), p.placement.total() + 1, 1nat, 0nat,
{
    let first = scan(
        maximize,
        p,
        depth,
        bound,
        side,
        true,
        p.captures(),
        0,
        opening(maximize, table),
    );
    if first.cut {
        Outcome {
            best: first.best,
            score: first.score,
            table: first.table,
            nodes: first.nodes,
            cut: true,
        }
    } else {
        let second = scan(
            maximize,
            p,
            depth,
            bound,
            side,
            false,
            second_pass(p, hint),
            0,
            Frontier { hint: Move::empty(), nodes: 0, ..first },
        );
        Outcome {
            best: second.best,
            score: second.score,
            table: if second.cut {
                second.table
            } else {
                store(
                    second.table,
                    p.identity,
                    Entry { best: second.best, score: second.score, depth },
                )
            },
            nodes: first.nodes + second.nodes,
            cut: second.cut,
        }
    }
}

/// Whether the search goes from `p` at `depth` into `child`. The child must
/// be a position that the search works on. While depth is left that is
/// all. Below that the depth must still be countable down, and in the pass
/// over the captures the move must have taken a piece off the board: this
/// is what bounds a chain of captures.
pub open spec fn may_descend(p: Snapshot, depth: i8, capture: bool, child: Snapshot) -> bool {
    &&& child.admitted()
    &&& depth > 0 || (depth > i8::MIN && (!capture || child.placement.total()
        < p.placement.total()))
}

/// Tries the moves of `moves` from index `from` on, one after the other,
/// starting from `state`. Each move is answered by the other step, one ply
/// shallower, with the best score so far as its bound and the reply to the
/// best move so far as its hint. The first move tried at the node, and
/// after it a move whose answer is better, becomes the best move; if its
/// score passes `bound`, the rest is not tried. A move that `may_descend`
/// refuses ends the pass.
pub open spec fn scan(
    maximize: bool,
    p: Snapshot,
    depth: i8,
    bound: Option<i32>,
    side: Color,
    capture: bool,
    moves: Seq<Move>,
    from: nat,
    state: Frontier,
) -> Frontier
    decreases plies(depth), p.placement.total() + 1, 0nat, moves.len() - from,
{
    if from >= moves.len() {
        state
    } else {
        let m = moves[from as int];
        let child = child_of(p, m);
        if !may_descend(p, depth, capture, child) {
            state
        } else {
            let reply = search_spec(
                !maximize,
                child,
                (depth - 1) as i8,
                Some(state.score),
                state.hint,
                side,
                capture,
                state.table,
            );
            let nodes = state.nodes + 1 + reply.nodes;
            if takes(maximize, state, reply.score) {
                let next = Frontier {
                    chosen: true,
                    best: m,
                    score: reply.score,
                    hint: reply.best,
                    table: reply.table,
                    nodes,
                    cut: exceeds(maximize, bound, reply.score),
                };
                if next.cut {
                    next
                } else {
                    scan(maximize, p, depth, bound, side, capture, moves, from + 1, next)
                }
            } else {
                scan(
                    maximize,
                    p,
                    depth,
                    bound,
                    side,
                    capture,
                    moves,
                    from + 1,
                    Frontier { table: reply.table, nodes, ..state },
                )
            }
        }
    }
}

/// Whether no clock is read below a node in a pass over `moves`: the answer
/// to every move is known at once, from the cache or from the rules.
pub open spec fn no_clock_below(
    p: Snapshot,
    depth: i8,
    side: Color,
    capture: bool,
    moves: Seq<Move>,
    table: Seq<(u64, Entry)>,
) -> bool {
    forall|i: int|
        0 <= i < moves.len() ==> settled(
            child_of(p, #[trigger] moves[i]),
            (depth - 1) as i8,
            side,
            capture,
            table,
        ) is Some
}

/// The score of a node at which no move is tried: a cached score for this
/// depth, or else what `verdict` gives.
pub open spec fn settled(
    p: Snapshot,
    depth: i8,
    side: Color,
    capture: bool,
    table: Seq<(u64, Entry)>,
) -> Option<i32> {
    match probe(table, p.identity, depth) {
        Some(score) => Some(score),
        None => verdict(p, depth, side, capture),
    }
}

/// What a search counts: the moves it tried, and whether the clock cut it
/// short anywhere.
#[derive(Clone, Copy, Debug, PartialEq, Eq, Structural)]
pub struct Tally {
    /// The number of moves tried, modulo 2^32.
    pub nodes: u32,
    /// Whether some node found the time budget exceeded and was scored as a
    /// leaf for that reason. A search sets this and never clears it.
    pub expired: bool,
}

/// A counter that stood at `start` after `more` moves were counted.
pub open spec fn counted(start: u32, more: nat) -> u32 {
    ((start + more) % 0x1_0000_0000) as u32
}

/// Whether what a search returned and left behind is what `o` says.
pub open spec fn agrees(
    o: Outcome,
    r: (Move, i32),
    table: Seq<(u64, Entry)>,
    before: Tally,
    after: Tally,
) -> bool {
    &&& r.0 == o.best
    &&& r.1 == o.score
    &&& table == o.table
    &&& after.nodes == counted(before.nodes, o.nodes)
}

/// Counting on from a counter that has wrapped gives what counting all at
/// once gives.
pub proof fn lemma_counted_twice(start: u32, first: nat, second: nat, middle: u32)
    requires
        middle == counted(start, first),
    ensures
        counted(middle, second) == counted(start, first + second),
{
    vstd::arithmetic::div_mod::lemma_add_mod_noop(
        start + first,
        second as int,
        0x1_0000_0000,
    );
    vstd::arithmetic::div_mod::lemma_mod_twice(start + first, 0x1_0000_0000);
    vstd::arithmetic::div_mod::lemma_small_mod(
        (second % 0x1_0000_0000) as nat,
        0x1_0000_0000,
    );
}

/// Whether a move was tried at a node, the best move so far, its score, and
/// the reply found to it.
struct Line {
    chosen: bool,
    best: Move,
    score: i32,
    hint: Move,
}

impl Line {
    spec fn frontier(self, table: Seq<(u64, Entry)>, nodes: nat) -> Frontier {
        Frontier {
            chosen: self.chosen,
            best: self.best,
            score: self.score,
            hint: self.hint,
            table,
            nodes,
            cut: false,
        }
    }
}

fn is_better(maximize: bool, a: i32, b: i32) -> (r: bool)
    ensures
        r == better(maximize, a, b),
{
    if maximize {
        a > b
    } else {
        a < b
    }
}

fn passes(maximize: bool, bound: Option<i32>, score: i32) -> (r: bool)
    ensures
        r == exceeds(maximize, bound, score),
{
    match bound {
        Some(limit) => is_better(maximize, score, limit),
        None => false,
    }
}

/// The static score of `board` from the point of view of `side`.
fn score_leaf(board: &Position, side: Color) -> (score: i32)
    ensures
        score == leaf_score(side, board@),
{
    let white = eval(&board.placement());
    match side {
        Color::White => white,
        Color::Black => -white,
    }
}

/// The moves that do not capture, in the order in which they are tried.
fn order_quiets(quiets: Vec<Move>, hint: Move) -> (ordered: Vec<Move>)
    ensures
        ordered@ == ordered_quiets(quiets@, hint),
        forall|i: int| 0 <= i < ordered@.len() ==> quiets@.contains(#[trigger] ordered@[i]),
{
    let found = holds(&quiets, hint);
    let mut list = quiets;
    if found {
        list.push(hint);
    }
    let ghost tried = list@;
    let mut ordered: Vec<Move> = Vec::new();
    let mut k: usize = list.len();
    while k > 0
        invariant
            k <= list.len(),
            list@ == tried,
            ordered@.len() == list@.len() - k,
            forall|j: int| 0 <= j < ordered@.len() ==> ordered@[j] == list@[list@.len() - 1 - j],
        decreases k,
    {
        k = k - 1;
        ordered.push(list[k]);
    }
    assert(ordered@ =~= tried.reverse());
    assert forall|j: int| 0 <= j < ordered@.len() implies quiets@.contains(
        #[trigger] ordered@[j],
    ) by {
        let at = tried.len() - 1 - j;
        if at < quiets@.len() {
            assert(quiets@[at] == ordered@[j]);
        }
    }
    ordered
}

/// Tries `moves` in order, as `scan` does, from the state in `line`. Returns
/// whether the score passed `bound`, in which case the moves after the one
/// that did were not tried.
fn explore(
    maximize: bool,
    board: &Position,
    depth: i8,
    bound: Option<i32>,
    side: Color,
    clock: &Instant,
    budget: u128,
    capture: bool,
    moves: &Vec<Move>,
    line: &mut Line,
    cache: &mut TranspositionTable,
    tally: &mut Tally,
) -> (cut: bool)
    requires
        forall|i: int|
            0 <= i < moves@.len() ==> board@.legal(#[trigger] moves@[i]) && moves@[i].in_range(),
    ensures
        final(cache)@.len() == old(cache)@.len(),
        final(line).best == old(line).best || board@.legal(final(line).best),
        old(tally).expired ==> final(tally).expired,
        budget == u128::MAX ==> final(tally).expired == old(tally).expired,
        !final(tally).expired ==> ({
            let end = scan(
                maximize,
                board@,
                depth,
                bound,
                side,
                capture,
                moves@,
                0,
                old(line).frontier(old(cache)@, 0),
            );
            &&& final(line).chosen == end.chosen
            &&& final(line).best == end.best
            &&& final(line).score == end.score
            &&& final(line).hint == end.hint
            &&& final(cache)@ == end.table
            &&& final(tally).nodes == counted(old(tally).nodes, end.nodes)
            &&& cut == end.cut
        }),
        no_clock_below(board@, depth, side, capture, moves@, old(cache)@) ==> final(cache)@
            == old(cache)@ && final(tally).expired == old(tally).expired,
    decreases plies(depth), board@.placement.total() + 1, 0nat,
{
    let ghost start = line.frontier(cache@, 0);
    let ghost goal = scan(maximize, board@, depth, bound, side, capture, moves@, 0, start);
    let ghost mut seen: nat = 0;
    let pieces = if depth <= 0 && capture {
        board.placement().count()
    } else {
        0
    };
    let mut i: usize = 0;
    while i < moves.len()
        invariant
            i <= moves.len(),
            depth <= 0 && capture ==> pieces == board@.placement.total(),
            no_clock_below(board@, depth, side, capture, moves@, old(cache)@) ==> tally.expired
                == old(tally).expired && cache@ == old(cache)@,
            forall|i: int|
                0 <= i < moves@.len() ==> board@.legal(#[trigger] moves@[i])
                    && moves@[i].in_range(),
            start == old(line).frontier(old(cache)@, 0),
            goal == scan(maximize, board@, depth, bound, side, capture, moves@, 0, start),
            cache@.len() == old(cache)@.len(),
            line.best == old(line).best || board@.legal(line.best),
            old(tally).expired ==> tally.expired,
            budget == u128::MAX ==> tally.expired == old(tally).expired,
            !tally.expired ==> {
                &&& goal == scan(
                    maximize,
                    board@,
                    depth,
                    bound,
                    side,
                    capture,
                    moves@,
                    i as nat,
                    line.frontier(cache@, seen),
                )
                &&& tally.nodes == counted(old(tally).nodes, seen)
            },
        decreases moves.len() - i,
    {
        let mv = moves[i];
        let ghost before = line.frontier(cache@, seen);
        let ghost counter = tally.nodes;
        let child = match board.apply(mv) {
            Some(child) => child,
            None => {
                return false;
            },
        };
        if depth <= 0 && (depth == i8::MIN || (capture && child.placement().count() >= pieces)) {
            return false;
        }
        tally.nodes = tally.nodes.wrapping_add(1);
        let (reply, value) = search(
            !maximize,
            &child,
            depth - 1,
            Some(line.score),
            line.hint,
            side,
            clock,
            budget,
            capture,
            cache,
            tally,
        );
        let ghost answer = search_spec(
            !maximize,
            child@,
            (depth - 1) as i8,
            Some(before.score),
            before.hint,
            side,
            capture,
            before.table,
        );
        proof {
            if !tally.expired {
                seen = seen + 1 + answer.nodes;
                lemma_counted_twice(old(tally).nodes, before.nodes, 1, counter);
                lemma_counted_twice(
                    old(tally).nodes,
                    before.nodes + 1,
                    answer.nodes,
                    counter.wrapping_add(1),
                );
            }
        }
        if !line.chosen || is_better(maximize, value, line.score) {
            line.chosen = true;
            line.score = value;
            line.best = mv;
            line.hint = reply;
            if passes(maximize, bound, value) {
                return true;
            }
        }
        i = i + 1;
    }
    false
}

/// One step of the search, maximizing or minimizing: the cache is asked, then
/// the rules, then the clock, and `expand` does the rest.
///
/// While no node finds the budget exceeded, the result is that of
/// `search_spec`. A node at which the clock shows more than `budget`
/// milliseconds is scored as a leaf, and `tally.expired` is set: a caller who
/// hands in a tally that has not expired and gets one back knows that the
/// result is exact.
pub fn search(
    maximize: bool,
    board: &Position,
    depth: i8,
    bound: Option<i32>,
    hint: Move,
    side: Color,
    clock: &Instant,
    budget: u128,
    capture: bool,
    cache: &mut TranspositionTable,
    tally: &mut Tally,
) -> (r: (Move, i32))
    ensures
        final(cache)@.len() == old(cache)@.len(),
        r.0 == Move::empty() || board@.legal(r.0),
        old(tally).expired ==> final(tally).expired,
        budget == u128::MAX ==> final(tally).expired == old(tally).expired,
        !final(tally).expired ==> agrees(
            search_spec(maximize, board@, depth, bound, hint, side, capture, old(cache)@),
            r,
            final(cache)@,
            *old(tally),
            *final(tally),
        ),
        settled(board@, depth, side, capture, old(cache)@) matches Some(score) ==> r == (
            Move::empty(),
            score,
        ) && final(cache)@ == old(cache)@ && *final(tally) == *old(tally),
    decreases plies(depth), reach(board@, depth, capture), 2nat,
{
    let key = board.identity();
    match cache.get(key) {
        Some(entry) => {
            if entry.depth == depth {
                return (Move::none(), entry.score);
            }
        },
        None => {},
    }
    match board.status() {
        Status::Checkmate => {
            let score = if side == board.side_to_move() {
                -MATE
            } else {
                MATE
            };
            return (Move::none(), score);
        },
        Status::Stalemate => {
            return (Move::none(), 0);
        },
        Status::Ongoing => {},
    }
    if depth <= 0 && !capture {
        return (Move::none(), score_leaf(board, side));
    }
    let elapsed = clock.elapsed().as_millis();
    expand(maximize, board, depth, bound, hint, side, clock, budget, elapsed, cache, tally)
}

/// The search of a node after the clock was read: `elapsed` is what it
/// showed, in milliseconds.
///
/// If that is more than `budget`, the node is a leaf: it has its static
/// score, no move is tried, and `tally.expired` is set. Else the moves are
/// tried as `expand_spec` says, each answered by `search`, which reads the
/// clock again unless the answer is known at once: where it is for every
/// move, the tally does not expire here.
pub fn expand(
    maximize: bool,
    board: &Position,
    depth: i8,
    bound: Option<i32>,
    hint: Move,
    side: Color,
    clock: &Instant,
    budget: u128,
    elapsed: u128,
    cache: &mut TranspositionTable,
    tally: &mut Tally,
) -> (r: (Move, i32))
    ensures
        final(cache)@.len() == old(cache)@.len(),
        r.0 == Move::empty() || board@.legal(r.0),
        elapsed > budget ==> r == (Move::empty(), leaf_score(side, board@)) && final(cache)@
            == old(cache)@ && final(tally).nodes == old(tally).nodes && final(tally).expired,
        elapsed <= budget && old(tally).expired ==> final(tally).expired,
        elapsed <= budget && budget == u128::MAX ==> final(tally).expired == old(tally).expired,
        elapsed <= budget && !final(tally).expired ==> agrees(
            expand_spec(maximize, board@, depth, bound, hint, side, old(cache)@),
            r,
            final(cache)@,
            *old(tally),
            *final(tally),
        ),
        elapsed <= budget && no_clock_below(
            board@,
            depth,
            side,
            true,
            board@.captures(),
            old(cache)@,
        ) && no_clock_below(
            board@,
            depth,
            side,
            false,
            second_pass(board@, hint),
            old(cache)@,
        ) ==> final(tally).expired == old(tally).expired,
    decreases plies(depth), board@.placement.total() + 1, 1nat,
{
    if elapsed > budget {
        tally.expired = true;
        return (Move::none(), score_leaf(board, side));
    }
    let key = board.identity();
    let worst_score = if maximize {
        -MATE
    } else {
        MATE
    };
    let mut line =
        Line { chosen: false, best: Move::none(), score: worst_score, hint: Move::none() };
    let (captures, quiets) = board.legal_moves();
    if explore(
        maximize,
        board,
        depth,
        bound,
        side,
        clock,
        budget,
        true,
        &captures,
        &mut line,
        cache,
        tally,
    ) {
        return (line.best, line.score);
    }
    let ghost first = scan(
        maximize,
        board@,
        depth,
        bound,
        side,
        true,
        board@.captures(),
        0,
        opening(maximize, old(cache)@),
    );
    let ghost counter = tally.nodes;
    let rest = order_quiets(quiets, hint);
    line.hint = Move::none();
    let cut = explore(
        maximize,
        board,
        depth,
        bound,
        side,
        clock,
        budget,
        false,
        &rest,
        &mut line,
        cache,
        tally,
    );
    proof {
        if !tally.expired {
            let second = scan(
                maximize,
                board@,
                depth,
                bound,
                side,
                false,
                second_pass(board@, hint),
                0,
                Frontier { hint: Move::empty(), nodes: 0, ..first },
            );
            lemma_counted_twice(old(tally).nodes, first.nodes, second.nodes, counter);
        }
    }
    if cut {
        return (line.best, line.score);
    }
    cache.put(key, Entry { best: line.best, score: line.score, depth });
    (line.best, line.score)
}

/// The maximizing step: the search at a node where `color`, the player the
/// search works for, chooses. It stops as soon as its score is above `beta`.
///
/// Until `time` shows more than `target` milliseconds at some node, the result
/// is that of `search_spec`; see `search`.
pub fn minimax(
    board: &Position,
    depth: i8,
    beta: Option<i32>,
    prev_best: Move,
    color: Color,
    time: &Instant,
    target: u128,
    capture: bool,
    cache: &mut TranspositionTable,
    tally: &mut Tally,
) -> (r: (Move, i32))
    ensures
        final(cache)@.len() == old(cache)@.len(),
        r.0 == Move::empty() || board@.legal(r.0),
        old(tally).expired ==> final(tally).expired,
        target == u128::MAX ==> final(tally).expired == old(tally).expired,
        !final(tally).expired ==> agrees(
            search_spec(true, board@, depth, beta, prev_best, color, capture, old(cache)@),
            r,
            final(cache)@,
            *old(tally),
            *final(tally),
        ),
        settled(board@, depth, color, capture, old(cache)@) matches Some(score) ==> r == (
            Move::empty(),
            score,
        ) && final(cache)@ == old(cache)@ && *final(tally) == *old(tally),
{
    search(true, board, depth, beta, prev_best, color, time, target, capture, cache, tally)
}

/// The minimizing step: the search at a node where the opponent of `color`
/// chooses. It stops as soon as its score is below `alpha`.
///
/// Until `time` shows more than `target` milliseconds at some node, the result
/// is that of `search_spec`; see `search`.
pub fn negamax(
    board: &Position,
    depth: i8,
    alpha: Option<i32>,
    prev_best: Move,
    color: Color,
    time: &Instant,
    target: u128,
    capture: bool,
    cache: &mut TranspositionTable,
    tally: &mut Tally,
) -> (r: (Move, i32))
    ensures
        final(cache)@.len() == old(cache)@.len(),
        r.0 == Move::empty() || board@.legal(r.0),
        old(tally).expired ==> final(tally).expired,
        target == u128::MAX ==> final(tally).expired == old(tally).expired,
        !final(tally).expired ==> agrees(
            search_spec(false, board@, depth, alpha, prev_best, color, capture, old(cache)@),
            r,
            final(cache)@,
            *old(tally),
            *final(tally),
        ),
        settled(board@, depth, color, capture, old(cache)@) matches Some(score) ==> r == (
            Move::empty(),
            score,
        ) && final(cache)@ == old(cache)@ && *final(tally) == *old(tally),
{
    search(false, board, depth, alpha, prev_best, color, time, target, capture, cache, tally)
}

} // verus!
