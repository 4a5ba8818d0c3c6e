//! Depth-exact reuse, for the whole of a search: an entry that no node of
//! the search can be answered by leaves the result as it is without it.
use vstd::prelude::*;
use crate::moves::{Color, Move};
use crate::position::{child_of, Snapshot};
use crate::guarantees::lemma_second_pass_is_quiet;
use crate::search::{
    exceeds, expand_spec, may_descend, opening, plies, probe, reach, scan, search_spec,
    second_pass, takes, verdict, Frontier, Outcome,
};
use crate::table::{slot_index, store, Entry};

verus! {

/// Whether no node of a search of `p` to `depth` stands at the depth `at`
/// with the identity `key`. Positions are followed along legal moves, one
/// depth lower with each move; below the depth `at` there is nothing to
/// meet.
pub open spec fn never_meets(p: Snapshot, depth: i8, key: u64, at: i8) -> bool
    decreases depth - at,
{
    if depth < at {
        true
    } else if depth == at {
        p.identity != key
    } else {
        forall|m: Move|
            #![trigger child_of(p, m)]
            p.legal(m) ==> never_meets(child_of(p, m), (depth - 1) as i8, key, at)
    }
}

/// Whether the slot for `key` holds an identity that is kept in another
/// slot, as the slots of a new table do but for the first: nothing is
/// answered from such a slot.
pub open spec fn slot_is_idle(table: Seq<(u64, Entry)>, key: u64) -> bool {
    let k = slot_index(key, table.len());
    slot_index(table[k].0, table.len()) != k
}

/// Two tables with the same slots, but that where the first has an idle slot
/// the second may hold `entry` under `key`.
pub open spec fn same_but_primed(
    plain: Seq<(u64, Entry)>,
    primed: Seq<(u64, Entry)>,
    key: u64,
    entry: Entry,
) -> bool {
    let k = slot_index(key, plain.len());
    &&& plain.len() == primed.len()
    &&& plain.len() > 0
    &&& plain == primed || ({
        &&& forall|j: int| 0 <= j < plain.len() && j != k ==> plain[j] == primed[j]
        &&& primed[k] == (key, entry)
        &&& slot_is_idle(plain, key)
    })
}

/// Two outcomes with the same move, score, count and cut.
pub open spec fn same_result(a: Outcome, b: Outcome) -> bool {
    a.best == b.best && a.score == b.score && a.nodes == b.nodes && a.cut == b.cut
}

/// Two states of a node that differ in their tables at most.
pub open spec fn same_state(a: Frontier, b: Frontier) -> bool {
    a.chosen == b.chosen && a.best == b.best && a.score == b.score && a.hint == b.hint
        && a.nodes == b.nodes && a.cut == b.cut
}

proof fn lemma_probe_alike(
    plain: Seq<(u64, Entry)>,
    primed: Seq<(u64, Entry)>,
    key: u64,
    entry: Entry,
    asked: u64,
    depth: i8,
)
    requires
        same_but_primed(plain, primed, key, entry),
        !(asked == key && depth == entry.depth),
    ensures
        probe(plain, asked, depth) == probe(primed, asked, depth),
{
}

proof fn lemma_store_alike(
    plain: Seq<(u64, Entry)>,
    primed: Seq<(u64, Entry)>,
    key: u64,
    entry: Entry,
    under: u64,
    written: Entry,
)
    requires
        same_but_primed(plain, primed, key, entry),
    ensures
        same_but_primed(store(plain, under, written), store(primed, under, written), key, entry),
{
    let k = slot_index(key, plain.len());
    let j = slot_index(under, plain.len());
    if plain != primed {
        if j == k {
            assert(store(plain, under, written) =~= store(primed, under, written));
        }
    }
}

proof fn lemma_child_never_meets(p: Snapshot, m: Move, depth: i8, key: u64, at: i8)
    requires
        never_meets(p, depth, key, at),
        p.legal(m),
        depth > i8::MIN,
    ensures
        never_meets(child_of(p, m), (depth - 1) as i8, key, at),
{
}

/// A search on a primed table has the result of the search on the plain one,
/// where no node of it stands at the entry's depth with the entry's
/// identity.
pub proof fn lemma_search_alike(
    maximize: bool,
    p: Snapshot,
    depth: i8,
    bound: Option<i32>,
    hint: Move,
    side: Color,
    capture: bool,
    plain: Seq<(u64, Entry)>,
    primed: Seq<(u64, Entry)>,
    key: u64,
    entry: Entry,
)
    requires
        same_but_primed(plain, primed, key, entry),
        never_meets(p, depth, key, entry.depth),
    ensures
        ({
            let a = search_spec(maximize, p, depth, bound, hint, side, capture, plain);
            let b = search_spec(maximize, p, depth, bound, hint, side, capture, primed);
            same_result(a, b) && same_but_primed(a.table, b.table, key, entry)
        }),
    decreases plies(depth), reach(p, depth, capture), 3nat, 0nat,
{
    lemma_probe_alike(plain, primed, key, entry, p.identity, depth);
    if probe(plain, p.identity, depth) is None && verdict(p, depth, side, capture) is None {
        lemma_expand_alike(maximize, p, depth, bound, hint, side, plain, primed, key, entry);
    }
}

/// The same for a node whose moves are tried.
pub proof fn lemma_expand_alike(
    maximize: bool,
    p: Snapshot,
    depth: i8,
    bound: Option<i32>,
    hint: Move,
    side: Color,
    plain: Seq<(u64, Entry)>,
    primed: Seq<(u64, Entry)>,
    key: u64,
    entry: Entry,
)
    requires
        same_but_primed(plain, primed, key, entry),
        never_meets(p, depth, key, entry.depth),
    ensures
        ({
            let a = expand_spec(maximize, p, depth, bound, hint, side, plain);
            let b = expand_spec(maximize, p, depth, bound, hint, side, primed);
            same_result(a, b) && same_but_primed(a.table, b.table, key, entry)
        }),
    decreases plies(depth), p.placement.total() + 1, 1nat, 0nat,
{
    let rest = second_pass(p, hint);
    assert forall|i: int| 0 <= i < p.captures().len() implies p.legal(#[trigger] p.captures()[i]) by {}
    assert forall|i: int| 0 <= i < rest.len() implies p.legal(#[trigger] rest[i]) by {
        lemma_second_pass_is_quiet(p, hint, rest[i]);
    }
    let a0 = opening(maximize, plain);
    let b0 = opening(maximize, primed);
    lemma_scan_alike(maximize, p, depth, bound, side, true, p.captures(), 0, a0, b0, key, entry);
    let a1 = scan(maximize, p, depth, bound, side, true, p.captures(), 0, a0);
    let b1 = scan(maximize, p, depth, bound, side, true, p.captures(), 0, b0);
    if !a1.cut {
        let a2 = Frontier { hint: Move::empty(), nodes: 0, ..a1 };
        let b2 = Frontier { hint: Move::empty(), nodes: 0, ..b1 };
        lemma_scan_alike(maximize, p, depth, bound, side, false, rest, 0, a2, b2, key, entry);
        let a3 = scan(maximize, p, depth, bound, side, false, rest, 0, a2);
        let b3 = scan(maximize, p, depth, bound, side, false, rest, 0, b2);
        if !a3.cut {
            lemma_store_alike(
                a3.table,
                b3.table,
                key,
                entry,
                p.identity,
                Entry { best: a3.best, score: a3.score, depth },
            );
        }
    }
}

/// The same for a pass over the moves of a node.
pub proof fn lemma_scan_alike(
    maximize: bool,
    p: Snapshot,
    depth: i8,
    bound: Option<i32>,
    side: Color,
    capture: bool,
    moves: Seq<Move>,
    from: nat,
    a: Frontier,
    b: Frontier,
    key: u64,
    entry: Entry,
)
    requires
        same_state(a, b),
        same_but_primed(a.table, b.table, key, entry),
        never_meets(p, depth, key, entry.depth),
        forall|i: int| 0 <= i < moves.len() ==> p.legal(#[trigger] moves[i]),
    ensures
        ({
            let x = scan(maximize, p, depth, bound, side, capture, moves, from, a);
            let y = scan(maximize, p, depth, bound, side, capture, moves, from, b);
            same_state(x, y) && same_but_primed(x.table, y.table, key, entry)
        }),
    decreases plies(depth), p.placement.total() + 1, 0nat, moves.len() - from,
{
    if from < moves.len() {
        let m = moves[from as int];
        let child = child_of(p, m);
        if may_descend(p, depth, capture, child) {
            let below_depth = (depth - 1) as i8;
            lemma_child_never_meets(p, m, depth, key, entry.depth);
            lemma_search_alike(
                !maximize,
                child,
                below_depth,
                Some(a.score),
                a.hint,
                side,
                capture,
                a.table,
                b.table,
                key,
                entry,
            );
            let ra = search_spec(
                !maximize,
                child,
                below_depth,
                Some(a.score),
                a.hint,
                side,
                capture,
                a.table,
            );
            let rb = search_spec(
                !maximize,
                child,
                below_depth,
                Some(b.score),
                b.hint,
                side,
                capture,
                b.table,
            );
            let nodes = a.nodes + 1 + ra.nodes;
            if takes(maximize, a, ra.score) {
                let cut = exceeds(maximize, bound, ra.score);
                let na = Frontier {
                    chosen: true,
                    best: m,
                    score: ra.score,
                    hint: ra.best,
                    table: ra.table,
                    nodes,
                    cut,
                };
                let nb = Frontier { table: rb.table, ..na };
                if !cut {
                    lemma_scan_alike(
                        maximize,
                        p,
                        depth,
                        bound,
                        side,
                        capture,
                        moves,
                        from + 1,
                        na,
                        nb,
                        key,
                        entry,
                    );
                }
            } else {
                lemma_scan_alike(
                    maximize,
                    p,
                    depth,
                    bound,
                    side,
                    capture,
                    moves,
                    from + 1,
                    Frontier { table: ra.table, nodes, ..a },
                    Frontier { table: rb.table, nodes, ..b },
                    key,
                    entry,
                );
            }
        }
    }
}

/// Depth-exact isolation: priming a table with an entry for a position, from
/// a search to another depth, does not change what a search of that position
/// returns. This holds where the slot was idle before, so that the entry
/// evicts nothing, and where no position that the search meets at the
/// entry's depth shares the identity of the position; for an entry from a
/// deeper search there is no such position.
pub proof fn lemma_priming_changes_nothing(
    maximize: bool,
    p: Snapshot,
    depth: i8,
    bound: Option<i32>,
    hint: Move,
    side: Color,
    capture: bool,
    table: Seq<(u64, Entry)>,
    entry: Entry,
)
    requires
        table.len() > 0,
        slot_is_idle(table, p.identity),
        entry.depth != depth,
        never_meets(p, depth, p.identity, entry.depth),
    ensures
        same_result(
            search_spec(maximize, p, depth, bound, hint, side, capture, table),
            search_spec(
                maximize,
                p,
                depth,
                bound,
                hint,
                side,
                capture,
                store(table, p.identity, entry),
            ),
        ),
{
    let primed = store(table, p.identity, entry);
    assert(same_but_primed(table, primed, p.identity, entry));
    lemma_search_alike(
        maximize,
        p,
        depth,
        bound,
        hint,
        side,
        capture,
        table,
        primed,
        p.identity,
        entry,
    );
}

/// An entry from a deeper search is met by no node of a shallower one:
/// priming with it changes nothing, whatever the positions below are.
pub proof fn lemma_deeper_entry_changes_nothing(
    maximize: bool,
    p: Snapshot,
    depth: i8,
    bound: Option<i32>,
    hint: Move,
    side: Color,
    capture: bool,
    table: Seq<(u64, Entry)>,
    entry: Entry,
)
    requires
        table.len() > 0,
        slot_is_idle(table, p.identity),
        entry.depth > depth,
    ensures
        same_result(
            search_spec(maximize, p, depth, bound, hint, side, capture, table),
            search_spec(
                maximize,
                p,
                depth,
                bound,
                hint,
                side,
                capture,
                store(table, p.identity, entry),
            ),
        ),
{
    lemma_priming_changes_nothing(maximize, p, depth, bound, hint, side, capture, table, entry);
}

/// In a table whose slots are all blank, every slot but the first is idle.
pub proof fn lemma_blank_slot_is_idle(size: nat, key: u64)
    requires
        size > 0,
        slot_index(key, size) != 0,
    ensures
        slot_is_idle(Seq::new(size, |i: int| (0u64, Entry::blank())), key),
{
    let table = Seq::new(size, |i: int| (0u64, Entry::blank()));
    let k = slot_index(key, size);
    assert(0 <= k < size);
    assert(table[k].0 == 0);
    assert(slot_index(0, size) == 0);
}

} // verus!
