//! Why opening cells from a stack opens exactly what the rules ask for.

use vstd::prelude::*;
use crate::board::Board;
use crate::cell::{CellImage, Pos};
use crate::laws::{
    lemma_counts, lemma_hidden_around, lemma_mines_around, lemma_opened_in_play,
    lemma_reach_covered, lemma_reach_seed, lemma_reach_spreads, lemma_trail_ends_inside,
};

verus! {

/// What holds while the cells that `seeds` reach on `start` are being opened:
/// `done` is opened so far, on the board `now`, and `stack` is still to be
/// looked at. Everything opened is within reach, and so is everything stacked
/// that was hidden; everything within reach is opened, stacked, or opened by a
/// cell that is stacked.
pub closed spec fn flooding(
    start: Board,
    seeds: Seq<Pos>,
    now: Board,
    done: Set<Pos>,
    stack: Seq<Pos>,
) -> bool {
    &&& start.in_play()
    &&& forall|i: int| !start.struck(seeds, i)
    &&& now == start.opened(done)
    &&& done.subset_of(start.reach(seeds))
    &&& forall|i: int|
        0 <= i < stack.len() ==> {
            &&& start.holds(#[trigger] stack[i])
            &&& !start.mines.contains(stack[i])
            &&& start.images[stack[i]] == CellImage::Hidden ==> start.reach(seeds).contains(
                stack[i],
            )
        }
    &&& forall|p: Pos, q: Pos|
        done.contains(p) && #[trigger] start.spreads(p, q) ==> done.contains(q) || stack.contains(
            q,
        )
    &&& forall|i: int|
        0 <= i < seeds.len() && start.images[#[trigger] seeds[i]] == CellImage::Hidden
            ==> done.contains(seeds[i]) || stack.contains(seeds[i])
}

/// At the start nothing is opened and the seeds are stacked.
pub proof fn lemma_flood_begin(start: Board, seeds: Seq<Pos>)
    requires
        start.in_play(),
        forall|i: int| !start.struck(seeds, i),
        forall|i: int| 0 <= i < seeds.len() ==> start.holds(#[trigger] seeds[i]),
    ensures
        flooding(start, seeds, start, Set::empty(), seeds),
{
    assert(start =~= start.opened(Set::empty()));
    assert forall|i: int| 0 <= i < seeds.len() implies {
        &&& start.holds(#[trigger] seeds[i])
        &&& !start.mines.contains(seeds[i])
        &&& start.images[seeds[i]] == CellImage::Hidden ==> start.reach(seeds).contains(seeds[i])
    } by {
        assert(!start.struck(seeds, i));
        if start.images[seeds[i]] == CellImage::Hidden {
            lemma_reach_seed(start, seeds, i);
        }
    }
}

/// The cell on top of the stack lies on the board and holds no mine; it is
/// hidden now where it was hidden at the start and has not been opened since,
/// and then it is within reach.
pub proof fn lemma_flood_top(
    start: Board,
    seeds: Seq<Pos>,
    now: Board,
    done: Set<Pos>,
    stack: Seq<Pos>,
)
    requires
        flooding(start, seeds, now, done, stack),
        stack.len() > 0,
    ensures
        now.in_play(),
        now.holds(stack.last()),
        !now.mines.contains(stack.last()),
        now.images[stack.last()] == CellImage::Hidden <==> start.images[stack.last()]
            == CellImage::Hidden && !done.contains(stack.last()),
        now.images[stack.last()] == CellImage::Hidden ==> start.reach(seeds).contains(
            stack.last(),
        ) && now.unopened().contains(stack.last()),
        now.mines_around(stack.last()) <= 8,
        now.unopened().finite(),
{
    let p = stack.last();
    lemma_reach_covered(start, seeds);
    assert(start.holds(stack[stack.len() - 1]));
    lemma_opened_in_play(start, done);
    lemma_mines_around(start, p);
    lemma_counts(now);
}

/// A cell on top of the stack that is not hidden any more is taken off.
pub proof fn lemma_flood_skip(
    start: Board,
    seeds: Seq<Pos>,
    now: Board,
    done: Set<Pos>,
    stack: Seq<Pos>,
)
    requires
        flooding(start, seeds, now, done, stack),
        stack.len() > 0,
        now.images[stack.last()] != CellImage::Hidden,
    ensures
        flooding(start, seeds, now, done, stack.drop_last()),
{
    let rest = stack.drop_last();
    let top = stack.last();
    lemma_flood_top(start, seeds, now, done, stack);
    assert(start.images[top] == CellImage::Hidden ==> done.contains(top));
    assert forall|q: Pos| q != top && stack.contains(q) implies rest.contains(q) by {
        let i = choose|i: int| 0 <= i < stack.len() && stack[i] == q;
        assert(rest[i] == q);
    }
    assert forall|i: int| 0 <= i < rest.len() implies {
        &&& start.holds(#[trigger] rest[i])
        &&& !start.mines.contains(rest[i])
        &&& start.images[rest[i]] == CellImage::Hidden ==> start.reach(seeds).contains(rest[i])
    } by {
        assert(rest[i] == stack[i]);
    }
    assert forall|p: Pos, q: Pos| done.contains(p) && #[trigger] start.spreads(p, q) implies done.contains(
        q,
    ) || rest.contains(q) by {
        assert(done.contains(q) || stack.contains(q));
    }
    assert forall|i: int|
        0 <= i < seeds.len() && start.images[#[trigger] seeds[i]]
            == CellImage::Hidden implies done.contains(seeds[i]) || rest.contains(seeds[i]) by {
        assert(done.contains(seeds[i]) || stack.contains(seeds[i]));
    }
}

/// A hidden cell on top of the stack is opened; where it has no mine around it,
/// the hidden cells next to it are stacked in its place.
pub proof fn lemma_flood_open(
    start: Board,
    seeds: Seq<Pos>,
    now: Board,
    done: Set<Pos>,
    stack: Seq<Pos>,
)
    requires
        flooding(start, seeds, now, done, stack),
        stack.len() > 0,
        now.images[stack.last()] == CellImage::Hidden,
    ensures
        ({
            let p = stack.last();
            let next = now.opened(set![p]);
            &&& next == start.opened(done.insert(p))
            &&& next.unopened() == now.unopened().remove(p)
            &&& next.images[p] == now.numeral_at(p)
            &&& now.numeral_at(p) == start.numeral_at(p)
            &&& now.images[p] != now.numeral_at(p)
            &&& flooding(
                start,
                seeds,
                next,
                done.insert(p),
                if now.mines_around(p) == 0 {
                    stack.drop_last() + next.hidden_around(p)
                } else {
                    stack.drop_last()
                },
            )
        }),
{
    let p = stack.last();
    let next = now.opened(set![p]);
    let rest = stack.drop_last();
    let grown = done.insert(p);
    let piled = if now.mines_around(p) == 0 {
        rest + next.hidden_around(p)
    } else {
        rest
    };
    lemma_flood_top(start, seeds, now, done, stack);
    lemma_reach_covered(start, seeds);
    assert(start.reach(seeds).contains(p));
    assert(next =~= start.opened(grown));
    assert(next.unopened() =~= now.unopened().remove(p)) by {
        lemma_mines_around(now, p);
    }
    lemma_mines_around(now, p);
    lemma_hidden_around(next, p);
    assert forall|q: Pos| q != p && stack.contains(q) implies piled.contains(q) by {
        let i = choose|i: int| 0 <= i < stack.len() && stack[i] == q;
        assert(rest[i] == q);
        assert(piled[i] == q);
    }
    assert forall|i: int| 0 <= i < piled.len() implies {
        &&& start.holds(#[trigger] piled[i])
        &&& !start.mines.contains(piled[i])
        &&& start.images[piled[i]] == CellImage::Hidden ==> start.reach(seeds).contains(piled[i])
    } by {
        if i < rest.len() {
            assert(piled[i] == stack[i]);
        } else {
            let q = next.hidden_around(p)[i - rest.len()];
            assert(piled[i] == q);
            assert(start.spreads(p, q));
            lemma_reach_spreads(start, seeds, p, q);
        }
    }
    assert forall|a: Pos, q: Pos| grown.contains(a) && #[trigger] start.spreads(a, q) implies grown.contains(
        q,
    ) || piled.contains(q) by {
        if a == p {
            if !grown.contains(q) {
                assert(next.images[q] == CellImage::Hidden);
                assert(next.hidden_around(p).contains(q));
                let i = choose|i: int|
                    0 <= i < next.hidden_around(p).len() && next.hidden_around(p)[i] == q;
                assert(piled[rest.len() + i] == q);
            }
        } else {
            assert(done.contains(q) || stack.contains(q));
        }
    }
    assert forall|i: int|
        0 <= i < seeds.len() && start.images[#[trigger] seeds[i]]
            == CellImage::Hidden implies grown.contains(seeds[i]) || piled.contains(seeds[i]) by {
        assert(done.contains(seeds[i]) || stack.contains(seeds[i]));
    }
}

/// When the stack is empty, all that the seeds reach is opened, and nothing
/// else.
pub proof fn lemma_flood_end(start: Board, seeds: Seq<Pos>, now: Board, done: Set<Pos>)
    requires
        flooding(start, seeds, now, done, Seq::empty()),
    ensures
        done == start.reach(seeds),
        now == start.revealed(seeds),
        now.in_play(),
        start.changed(now) == done,
        now.unopened() == start.unopened().difference(done),
        forall|p: Pos| done.contains(p) ==> now.images[p] == start.numeral_at(p),
{
    let region = start.reach(seeds);
    let stack = Seq::<Pos>::empty();
    assert forall|q: Pos| region.contains(q) implies done.contains(q) by {
        let path = choose|path: Seq<Pos>| start.trail(seeds, path) && path.last() == q;
        assert forall|a: Pos, c: Pos| done.contains(a) && #[trigger] start.spreads(a, c) implies done.contains(
            c,
        ) by {
            assert(done.contains(c) || stack.contains(c));
        }
        assert forall|i: int|
            0 <= i < seeds.len() && start.images[seeds[i]]
                == CellImage::Hidden implies done.contains(#[trigger] seeds[i]) by {
            assert(done.contains(seeds[i]) || stack.contains(seeds[i]));
        }
        lemma_trail_ends_inside(start, seeds, done, path);
    }
    assert(done =~= region);
    lemma_reach_covered(start, seeds);
    lemma_opened_in_play(start, region);
    assert(start.changed(now) =~= done) by {
        assert forall|p: Pos| done.contains(p) implies start.changed(now).contains(p) by {
            lemma_mines_around(start, p);
        }
    }
}

} // verus!
