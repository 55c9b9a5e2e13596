//! What follows from the rules: every operation keeps a board well formed, and
//! the laws of the game that players rely on.

use vstd::prelude::*;
use vstd::set_lib::{lemma_len_subset, lemma_subset_equality};
use crate::board::Board;
use crate::cell::{CellImage, GameState, Pos};
use crate::feed::{cells_of, Changes};
use crate::field::{
    block, field, lemma_block_seq, lemma_field_size, lemma_in_field_finite, lemma_neighbors_seq,
    touches,
};

verus! {

/// The sets of cells that the rules count are finite and no larger than the
/// board.
pub proof fn lemma_counts(b: Board)
    requires
        b.framed(),
    ensures
        b.flagged().finite(),
        b.unopened().finite(),
        b.mines.finite(),
        b.flagged().len() <= b.width * b.height,
        b.unopened().len() <= b.width * b.height,
        b.mines.len() <= b.width * b.height,
        b.width * b.height <= 65025,
{
    lemma_in_field_finite(b.flagged(), b.width, b.height);
    lemma_in_field_finite(b.unopened(), b.width, b.height);
    lemma_in_field_finite(b.mines, b.width, b.height);
    assert(b.width * b.height <= 65025) by (nonlinear_arith)
        requires
            b.width <= 255,
            b.height <= 255,
    ;
}

/// There are at most nine mines in the square around a cell, and at most eight
/// around a cell without a mine. Where there is none, no cell of the square
/// holds one.
pub proof fn lemma_mines_around(b: Board, p: Pos)
    requires
        b.framed(),
        b.holds(p),
    ensures
        b.mines_around(p) <= 9,
        !b.mines.contains(p) ==> b.mines_around(p) <= 8,
        b.mines_around(p) == 0 ==> forall|q: Pos|
            b.holds(q) && touches(p, q) ==> !b.mines.contains(q),
{
    let square = block(p, b.width, b.height);
    let found = b.mines.intersect(square);
    lemma_block_seq(p, b.width, b.height);
    lemma_len_subset(found, square);
    if !b.mines.contains(p) {
        assert(found.subset_of(square.remove(p)));
        lemma_len_subset(found, square.remove(p));
    }
    if b.mines_around(p) == 0 {
        assert forall|q: Pos| b.holds(q) && touches(p, q) implies !b.mines.contains(q) by {
            if b.mines.contains(q) {
                assert(found.contains(q));
            }
        }
    }
}

/// A new game is well formed.
pub proof fn lemma_fresh_wf(width: nat, height: nat, total_mines: nat)
    requires
        0 < width <= 255,
        0 < height <= 255,
        0 < total_mines < width * height,
    ensures
        Board::fresh(width, height, total_mines).wf(),
{
    let b = Board::fresh(width, height, total_mines);
    assert(b.images.dom() =~= field(width, height));
    assert(b.flagged() =~= Set::empty());
}

/// Laying the mines fairly gives a well-formed game under way.
pub proof fn lemma_started_wf(b: Board, click: Pos, layout: Set<Pos>)
    requires
        b.framed(),
        b.fair_layout(click, layout),
    ensures
        b.started(layout).wf(),
{
    let after = b.started(layout);
    assert(after.images.dom() =~= field(b.width, b.height));
    assert(after.flagged() =~= Set::empty());
    assert(after.unopened() =~= field(b.width, b.height));
    lemma_field_size(b.width, b.height);
    assert forall|p: Pos| after.holds(p) implies #[trigger] after.cell_in_play(p) by {}
}

/// While a game is under way every mine is unopened, so there are at least as
/// many unopened cells as mines; where there are no more, the unopened cells
/// are the mines.
pub proof fn lemma_mines_unopened(b: Board)
    requires
        b.in_play(),
    ensures
        b.mines.subset_of(b.unopened()),
        b.unopened().len() >= b.total_mines,
        b.unopened().len() == b.total_mines ==> b.unopened() == b.mines,
{
    lemma_counts(b);
    assert forall|p: Pos| b.mines.contains(p) implies b.unopened().contains(p) by {
        assert(b.holds(p));
        assert(b.cell_in_play(p));
    }
    lemma_len_subset(b.mines, b.unopened());
    if b.unopened().len() == b.total_mines {
        lemma_subset_equality(b.mines, b.unopened());
    }
}

/// Looking for the win keeps a game well formed.
pub proof fn lemma_settled_wf(b: Board)
    requires
        b.in_play(),
    ensures
        b.settled().wf(),
{
    lemma_mines_unopened(b);
    if b.unopened().len() == b.total_mines {
        let after = b.won();
        assert(after.images.dom() =~= field(b.width, b.height));
        assert(after.flagged() =~= b.mines) by {
            assert forall|p: Pos| after.flagged().contains(p) implies b.mines.contains(p) by {
                if !b.mines.contains(p) {
                    assert(b.cell_in_play(p));
                }
            }
        }
        assert forall|p: Pos| after.holds(p) implies #[trigger] after.images[p] == if after.mines.contains(
            p,
        ) {
            CellImage::Flagged
        } else {
            after.numeral_at(p)
        } by {
            if !b.mines.contains(p) {
                assert(!b.unopened().contains(p));
                assert(b.cell_in_play(p));
            }
        }
        assert(after.is_won());
    }
}

/// Switching a mark keeps a game well formed.
pub proof fn lemma_marked_wf(b: Board, p: Pos, plain: CellImage)
    requires
        b.wf(),
        b.state == GameState::DuringGame,
        b.holds(p),
        !b.images[p].is_shown(),
        plain == CellImage::Hidden || plain == CellImage::QuestionMarked,
    ensures
        b.marked(p, plain).wf(),
        b.marked(p, plain).unopened() == b.unopened(),
{
    let after = b.marked(p, plain);
    lemma_counts(b);
    assert(after.images.dom() =~= field(b.width, b.height));
    assert(after.unopened() =~= b.unopened());
    if b.images[p] == plain {
        assert(after.flagged() =~= b.flagged().insert(p));
    } else if b.images[p] == CellImage::Flagged {
        assert(after.flagged() =~= b.flagged().remove(p));
    } else {
        assert(after.flagged() =~= b.flagged());
    }
    assert forall|q: Pos| after.holds(q) implies #[trigger] after.cell_in_play(q) by {
        assert(b.cell_in_play(q));
    }
}

/// Clicking a mine ends the game in a well-formed way.
pub proof fn lemma_lost_wf(b: Board, hit: Pos)
    requires
        b.wf(),
        b.state == GameState::DuringGame,
        b.holds(hit),
        b.mines.contains(hit),
    ensures
        b.lost(hit).wf(),
        b.lost(hit).unopened() == b.unopened(),
        b.lost(hit).flagged() == Set::<Pos>::empty(),
        b.lost(hit).flags == 0,
{
    let after = b.lost(hit);
    assert(after.images.dom() =~= field(b.width, b.height));
    assert(after.unopened() =~= b.unopened()) by {
        assert forall|p: Pos| after.unopened().contains(p) <==> b.unopened().contains(p) by {
            if b.holds(p) {
                assert(b.cell_in_play(p));
            }
        }
    }
    assert forall|p: Pos| after.holds(p) implies #[trigger] after.cell_after_loss(hit, p) by {
        assert(b.cell_in_play(p));
    }
    assert(after.unopened().len() > after.total_mines);
    assert(after.holds(hit) && after.mines.contains(hit) && forall|p: Pos|
        after.holds(p) ==> #[trigger] after.cell_after_loss(hit, p));
    assert(after.is_lost());
    let uncovered = Board { flags: b.flags, ..after };
    assert(after.flagged() =~= uncovered.flagged());
    assert(after.flagged() =~= Set::empty());
}

/// Opening hidden cells without mines keeps a game in play.
pub proof fn lemma_opened_in_play(b: Board, region: Set<Pos>)
    requires
        b.in_play(),
        forall|p: Pos|
            region.contains(p) ==> b.holds(p) && b.images[p] == CellImage::Hidden
                && !b.mines.contains(p),
    ensures
        b.opened(region).in_play(),
        b.opened(region).unopened() == b.unopened().difference(region),
        b.opened(region).flagged() == b.flagged(),
        b.opened(region).settled().wf(),
{
    let after = b.opened(region);
    assert(after.images.dom() =~= field(b.width, b.height));
    assert(after.flagged() =~= b.flagged());
    assert forall|p: Pos| after.holds(p) implies #[trigger] after.cell_in_play(p) by {
        assert(b.cell_in_play(p));
        if region.contains(p) {
            lemma_mines_around(b, p);
        }
    }
    assert(after.unopened() =~= b.unopened().difference(region)) by {
        assert forall|p: Pos| after.unopened().contains(p) <==> b.unopened().difference(
            region,
        ).contains(p) by {
            if region.contains(p) {
                lemma_mines_around(b, p);
            }
        }
    }
    lemma_settled_wf(after);
}

/// Where one of `seeds` holds a mine, there is a first that does.
pub proof fn lemma_first_struck(b: Board, seeds: Seq<Pos>, i: int)
    requires
        b.struck(seeds, i),
    ensures
        b.struck(seeds, b.first_struck(seeds)),
        forall|j: int| 0 <= j < b.first_struck(seeds) ==> !b.struck(seeds, j),
        b.first_struck(seeds) <= i,
    decreases i,
{
    if exists|j: int| 0 <= j < i && b.struck(seeds, j) {
        let j = choose|j: int| 0 <= j < i && b.struck(seeds, j);
        lemma_first_struck(b, seeds, j);
    } else {
        assert(b.struck(seeds, i) && forall|j: int| 0 <= j < i ==> !b.struck(seeds, j));
        let k = b.first_struck(seeds);
        if i < k {
            assert(!b.struck(seeds, i));
        }
    }
}

/// What opens from seeds without mines is hidden and holds no mine.
pub proof fn lemma_reach_covered(b: Board, seeds: Seq<Pos>)
    requires
        b.framed(),
        forall|i: int| !b.struck(seeds, i),
    ensures
        forall|q: Pos| #[trigger]
            b.reach(seeds).contains(q) ==> b.holds(q) && b.images[q] == CellImage::Hidden
                && !b.mines.contains(q),
{
    assert forall|q: Pos| #[trigger] b.reach(seeds).contains(q) implies b.holds(q) && b.images[q]
        == CellImage::Hidden && !b.mines.contains(q) by {
        let path = choose|path: Seq<Pos>| b.trail(seeds, path) && path.last() == q;
        if path.len() == 1 {
            let i = choose|i: int| 0 <= i < seeds.len() && seeds[i] == q;
            assert(!b.struck(seeds, i));
        } else {
            let from = path[path.len() - 2];
            assert(b.spreads(from, path[path.len() - 2 + 1]));
            lemma_mines_around(b, from);
        }
    }
}

/// A set that holds the hidden seeds, and with each cell all that the cell
/// opens, holds the end of every trail.
pub proof fn lemma_trail_ends_inside(b: Board, seeds: Seq<Pos>, inside: Set<Pos>, path: Seq<Pos>)
    requires
        b.trail(seeds, path),
        forall|i: int|
            0 <= i < seeds.len() && b.images[seeds[i]] == CellImage::Hidden ==> inside.contains(
                #[trigger] seeds[i],
            ),
        forall|p: Pos, q: Pos| inside.contains(p) && #[trigger] b.spreads(p, q) ==> inside.contains(q),
    ensures
        inside.contains(path.last()),
    decreases path.len(),
{
    if path.len() == 1 {
        let i = choose|i: int| 0 <= i < seeds.len() && seeds[i] == path[0];
        assert(inside.contains(seeds[i]));
    } else {
        let front = path.drop_last();
        assert(b.trail(seeds, front)) by {
            assert forall|i: int| 0 <= i < front.len() - 1 implies b.spreads(
                #[trigger] front[i],
                front[i + 1],
            ) by {
                assert(b.spreads(path[i], path[i + 1]));
            }
        }
        lemma_trail_ends_inside(b, seeds, inside, front);
        assert(b.spreads(path[path.len() - 2], path[path.len() - 2 + 1]));
    }
}

/// What a cell within reach opens is within reach.
pub proof fn lemma_reach_spreads(b: Board, seeds: Seq<Pos>, p: Pos, q: Pos)
    requires
        b.reach(seeds).contains(p),
        b.spreads(p, q),
    ensures
        b.reach(seeds).contains(q),
{
    let path = choose|path: Seq<Pos>| b.trail(seeds, path) && path.last() == p;
    let longer = path.push(q);
    assert forall|i: int| 0 <= i < longer.len() - 1 implies b.spreads(
        #[trigger] longer[i],
        longer[i + 1],
    ) by {
        if i < path.len() - 1 {
            assert(b.spreads(path[i], path[i + 1]));
        }
    }
    assert(longer[0] == path[0]);
    assert(b.trail(seeds, longer) && longer.last() == q);
}

/// A hidden seed on the board is within reach.
pub proof fn lemma_reach_seed(b: Board, seeds: Seq<Pos>, i: int)
    requires
        0 <= i < seeds.len(),
        b.holds(seeds[i]),
        b.images[seeds[i]] == CellImage::Hidden,
    ensures
        b.reach(seeds).contains(seeds[i]),
{
    let path = seq![seeds[i]];
    assert(path[0] == seeds[i]);
    assert(b.trail(seeds, path) && path.last() == seeds[i]);
}

/// Uncovering cells of the board, and then looking for the win, keeps a game
/// well formed.
pub proof fn lemma_revealed_wf(b: Board, seeds: Seq<Pos>)
    requires
        b.wf(),
        b.state == GameState::DuringGame,
        forall|i: int| 0 <= i < seeds.len() ==> b.holds(#[trigger] seeds[i]),
    ensures
        b.revealed(seeds).settled().wf(),
{
    if exists|i: int| b.struck(seeds, i) {
        let i = choose|i: int| b.struck(seeds, i);
        lemma_first_struck(b, seeds, i);
        lemma_lost_wf(b, seeds[b.first_struck(seeds)]);
    } else {
        lemma_reach_covered(b, seeds);
        lemma_opened_in_play(b, b.reach(seeds));
    }
}

/// The hidden cells around a cell lie on the board, next to the cell, and are
/// hidden.
pub proof fn lemma_hidden_around(b: Board, p: Pos)
    requires
        b.framed(),
        b.holds(p),
    ensures
        forall|i: int|
            0 <= i < b.hidden_around(p).len() ==> {
                let q = #[trigger] b.hidden_around(p)[i];
                b.holds(q) && touches(p, q) && q != p && b.images[q] == CellImage::Hidden
            },
        forall|q: Pos|
            b.holds(q) && touches(p, q) && q != p && b.images[q] == CellImage::Hidden
                ==> b.hidden_around(p).contains(q),
        b.hidden_around(p).no_duplicates(),
{
    lemma_neighbors_seq(p, b.width, b.height);
    let around = crate::field::neighbors_seq(p, b.width, b.height);
    let hidden = b.shows_hidden();
    crate::field::lemma_filter_no_duplicates(around, hidden);
    assert forall|i: int| 0 <= i < b.hidden_around(p).len() implies {
        let q = #[trigger] b.hidden_around(p)[i];
        b.holds(q) && touches(p, q) && q != p && b.images[q] == CellImage::Hidden
    } by {
        let q = b.hidden_around(p)[i];
        around.lemma_filter_pred(hidden, i);
        assert(b.hidden_around(p).contains(q));
        around.lemma_filter_contains_rev(hidden, q);
    }
    assert forall|q: Pos|
        b.holds(q) && touches(p, q) && q != p && b.images[q]
            == CellImage::Hidden implies b.hidden_around(p).contains(q) by {
        assert(around.contains(q));
        let i = choose|i: int| 0 <= i < around.len() && around[i] == q;
        around.lemma_filter_contains(hidden, i);
    }
}

/// Changes that lead from one board to a second, followed by changes that lead
/// from the second to a third and touch other cells, lead from the first to
/// the third.
pub proof fn lemma_updates_chain(
    first: Board,
    second: Board,
    third: Board,
    early: Changes,
    late: Changes,
)
    requires
        first.updates_to(second, early),
        second.updates_to(third, late),
        first.width == second.width,
        first.height == second.height,
        first.changed(second).disjoint(second.changed(third)),
    ensures
        first.updates_to(third, early + late),
{
    let all = early + late;
    assert(cells_of(all) =~= cells_of(early) + cells_of(late));
    assert forall|i: int| 0 <= i < early.len() implies first.changed(second).contains(
        #[trigger] cells_of(early)[i],
    ) by {
        assert(cells_of(early).contains(cells_of(early)[i]));
    }
    assert forall|i: int| 0 <= i < late.len() implies second.changed(third).contains(
        #[trigger] cells_of(late)[i],
    ) by {
        assert(cells_of(late).contains(cells_of(late)[i]));
    }
    assert forall|i: int, j: int|
        0 <= i < cells_of(early).len() && 0 <= j < cells_of(late).len() implies cells_of(early)[i]
        != cells_of(late)[j] by {}
    vstd::seq_lib::lemma_no_dup_in_concat(cells_of(early), cells_of(late));
    assert forall|p: Pos| cells_of(all).to_set().contains(p) <==> first.changed(third).contains(
        p,
    ) by {
        if cells_of(all).contains(p) {
            let i = choose|i: int| 0 <= i < cells_of(all).len() && cells_of(all)[i] == p;
            if i < early.len() {
                assert(cells_of(early)[i] == p);
            } else {
                assert(cells_of(late)[i - early.len()] == p);
            }
        }
        if first.changed(third).contains(p) {
            if first.changed(second).contains(p) {
                assert(cells_of(early).to_set().contains(p));
                let i = choose|i: int| 0 <= i < cells_of(early).len() && cells_of(early)[i] == p;
                assert(cells_of(all)[i] == p);
            } else {
                assert(second.changed(third).contains(p));
                assert(cells_of(late).to_set().contains(p));
                let i = choose|i: int| 0 <= i < cells_of(late).len() && cells_of(late)[i] == p;
                assert(cells_of(all)[early.len() + i] == p);
            }
        }
    }
    assert(cells_of(all).to_set() =~= first.changed(third));
    assert forall|i: int| 0 <= i < all.len() implies (#[trigger] all[i]).1
        == third.images[all[i].0] by {
        if i < early.len() {
            assert(all[i] == early[i]);
            assert(first.changed(second).contains(cells_of(early)[i]));
        } else {
            assert(all[i] == late[i - early.len()]);
        }
    }
}

/// A left click keeps a game well formed.
pub proof fn lemma_left_clicked_wf(b: Board, p: Pos)
    requires
        b.wf(),
        b.holds(p),
    ensures
        b.left_clicked(p).wf(),
{
    if b.state == GameState::DuringGame {
        if b.images[p] == CellImage::Hidden {
            assert(seq![p][0] == p);
            lemma_revealed_wf(b, seq![p]);
        } else if !b.images[p].is_shown() {
            lemma_marked_wf(b, p, CellImage::QuestionMarked);
        } else {
            lemma_hidden_around(b, p);
            lemma_revealed_wf(b, b.hidden_around(p));
        }
    }
}

/// The first left click of a game, with the mines laid fairly, gives a
/// well-formed game.
pub proof fn lemma_left_clicked_from_wf(b: Board, p: Pos, layout: Set<Pos>)
    requires
        b.wf(),
        b.holds(p),
        b.state == GameState::BeforeGame ==> b.fair_layout(p, layout),
    ensures
        b.left_clicked_from(p, layout).wf(),
{
    if b.state == GameState::BeforeGame {
        lemma_started_wf(b, p, layout);
        lemma_left_clicked_wf(b.started(layout), p);
    } else {
        lemma_left_clicked_wf(b, p);
    }
}

/// A right click keeps a game well formed.
pub proof fn lemma_right_clicked_wf(b: Board, p: Pos)
    requires
        b.wf(),
        b.holds(p),
    ensures
        b.right_clicked(p).wf(),
{
    if b.state == GameState::DuringGame && !b.images[p].is_shown() {
        lemma_marked_wf(b, p, CellImage::QuestionMarked);
        lemma_marked_wf(b, p, CellImage::Hidden);
    }
}

/// The first click is safe: however the mines are laid fairly, the cell that
/// was clicked holds no mine and shows its number afterwards, and the game is
/// under way or won, never lost.
pub proof fn lemma_first_click_safe(b: Board, p: Pos, layout: Set<Pos>)
    requires
        b.wf(),
        b.state == GameState::BeforeGame,
        b.holds(p),
        b.fair_layout(p, layout),
    ensures
        !b.left_clicked_from(p, layout).mines.contains(p),
        b.left_clicked_from(p, layout).images[p] == b.left_clicked_from(p, layout).numeral_at(p),
        b.left_clicked_from(p, layout).images[p].is_numeral(),
        b.left_clicked_from(p, layout).state == GameState::DuringGame || (b.left_clicked_from(
            p,
            layout,
        ).state == GameState::AfterGame && b.left_clicked_from(p, layout).is_won()),
{
    let begun = b.started(layout);
    lemma_started_wf(b, p, layout);
    let seeds = seq![p];
    assert(seeds[0] == p);
    assert forall|i: int| !begun.struck(seeds, i) by {
        if 0 <= i < seeds.len() {
            assert(seeds[i] == p);
        }
    }
    lemma_reach_seed(begun, seeds, 0);
    lemma_reach_covered(begun, seeds);
    let opened = begun.opened(begun.reach(seeds));
    lemma_opened_in_play(begun, begun.reach(seeds));
    lemma_mines_around(begun, p);
    lemma_settled_wf(opened);
    assert(opened.images[p] == begun.numeral_at(p));
    if opened.unopened().len() == opened.total_mines {
        lemma_mines_unopened(opened);
        assert(opened.won().unopened() =~= opened.unopened());
    }
}

/// The flags are counted right in every game: their number is the number of
/// cells that show a flag.
pub proof fn lemma_flags_counted(b: Board)
    requires
        b.wf(),
    ensures
        b.flags == b.flagged().len(),
        b.flagged().finite(),
{
    lemma_counts(b);
}

/// Where only as many cells are unopened as there are mines, the game is over
/// and won: every mine shows a flag, and every other cell its number.
pub proof fn lemma_only_mines_left(b: Board)
    requires
        b.wf(),
        b.unopened().len() == b.total_mines,
    ensures
        b.state == GameState::AfterGame,
        b.is_won(),
        forall|p: Pos| b.mines.contains(p) ==> b.images[p] == CellImage::Flagged,
{
    if b.state == GameState::BeforeGame {
        assert(b.unopened() =~= field(b.width, b.height));
        lemma_field_size(b.width, b.height);
    }
    assert forall|p: Pos| b.mines.contains(p) implies b.images[p] == CellImage::Flagged by {
        assert(b.holds(p));
    }
}

/// A game that is won has only the mines left unopened.
pub proof fn lemma_won_only_mines_left(b: Board)
    requires
        b.wf(),
        b.state == GameState::AfterGame,
        b.is_won(),
    ensures
        b.unopened() == b.mines,
        b.unopened().len() == b.total_mines,
{
    assert(b.unopened() =~= b.mines) by {
        assert forall|p: Pos| b.unopened().contains(p) <==> b.mines.contains(p) by {
            if b.holds(p) && !b.mines.contains(p) {
                lemma_mines_around(b, p);
            }
        }
    }
}

/// A left click on a hidden mine loses the game: the game is over, the mine
/// shows as the one clicked, every other mine shows `Mine`, every flag on a
/// cell without a mine is shown to be wrong, no other cell changes, and no flag
/// is left to count.
pub proof fn lemma_click_on_mine(b: Board, p: Pos)
    requires
        b.wf(),
        b.state == GameState::DuringGame,
        b.holds(p),
        b.images[p] == CellImage::Hidden,
        b.mines.contains(p),
    ensures
        b.left_clicked(p) == b.lost(p),
        b.left_clicked(p).state == GameState::AfterGame,
        b.left_clicked(p).images[p] == CellImage::SelectedMine,
        b.left_clicked(p).mines == b.mines,
        b.left_clicked(p).flags == 0,
        forall|q: Pos|
            b.mines.contains(q) && q != p ==> #[trigger] b.left_clicked(p).images[q]
                == CellImage::Mine,
        forall|q: Pos|
            b.holds(q) && !b.mines.contains(q) ==> #[trigger] b.left_clicked(p).images[q] == if b.images[q]
                == CellImage::Flagged {
                CellImage::WronglyFlagged
            } else {
                b.images[q]
            },
{
    let seeds = seq![p];
    assert(seeds[0] == p);
    assert(b.struck(seeds, 0));
    lemma_first_struck(b, seeds, 0);
    assert(b.first_struck(seeds) == 0);
    lemma_lost_wf(b, p);
    assert forall|q: Pos| b.mines.contains(q) && q != p implies #[trigger] b.left_clicked(
        p,
    ).images[q] == CellImage::Mine by {
        assert(b.holds(q));
    }
}

/// Two right clicks on a covered cell without a flag leave it hidden and the
/// number of flags as it was; on a hidden cell they leave the whole game as it
/// was.
pub proof fn lemma_right_click_twice(b: Board, p: Pos)
    requires
        b.wf(),
        b.holds(p),
        b.images[p] == CellImage::Hidden || (b.images[p] == CellImage::QuestionMarked && b.state
            == GameState::DuringGame),
    ensures
        b.right_clicked(p).right_clicked(p).images[p] == CellImage::Hidden,
        b.right_clicked(p).right_clicked(p).flags == b.flags,
        forall|q: Pos|
            b.holds(q) && q != p ==> #[trigger] b.right_clicked(p).right_clicked(p).images[q]
                == b.images[q],
        b.images[p] == CellImage::Hidden ==> b.right_clicked(p).right_clicked(p) == b,
{
    if b.state == GameState::DuringGame {
        let once = b.right_clicked(p);
        let twice = once.right_clicked(p);
        assert(once.images[p] == CellImage::Flagged);
        if b.images[p] == CellImage::Hidden {
            assert(twice.images =~= b.images);
            assert(twice =~= b);
        }
    }
}

/// Uncovering cells of which one holds a mine loses the game on the first of
/// them that does, if that one is hidden: it shows as the mine clicked, every
/// other mine shows `Mine`, every flag on a cell without a mine is shown to be
/// wrong, no other cell changes, and no flag is left to count.
pub proof fn lemma_uncover_mine(b: Board, seeds: Seq<Pos>, i: int)
    requires
        b.wf(),
        b.state == GameState::DuringGame,
        forall|k: int| 0 <= k < seeds.len() ==> b.holds(#[trigger] seeds[k]),
        b.struck(seeds, i),
    ensures
        b.struck(seeds, b.first_struck(seeds)),
        forall|j: int| 0 <= j < b.first_struck(seeds) ==> !b.struck(seeds, j),
        b.revealed(seeds) == b.lost(seeds[b.first_struck(seeds)]),
        b.revealed(seeds).wf(),
        b.revealed(seeds).state == GameState::AfterGame,
        b.revealed(seeds).images[seeds[b.first_struck(seeds)]] == CellImage::SelectedMine,
        b.revealed(seeds).flags == 0,
        b.revealed(seeds).mines == b.mines,
        forall|q: Pos|
            b.mines.contains(q) && q != seeds[b.first_struck(seeds)] ==> #[trigger] b.revealed(
                seeds,
            ).images[q] == CellImage::Mine,
        forall|q: Pos|
            b.holds(q) && !b.mines.contains(q) ==> #[trigger] b.revealed(seeds).images[q] == if b.images[q]
                == CellImage::Flagged {
                CellImage::WronglyFlagged
            } else {
                b.images[q]
            },
{
    lemma_first_struck(b, seeds, i);
    let hit = seeds[b.first_struck(seeds)];
    lemma_lost_wf(b, hit);
    assert forall|q: Pos| b.mines.contains(q) && q != hit implies #[trigger] b.revealed(
        seeds,
    ).images[q] == CellImage::Mine by {
        assert(b.holds(q));
    }
}

/// Uncovering cells none of which holds a mine opens what they reach, and
/// nothing else: each hidden cell among them; with an opened cell that has no
/// mine around it, every hidden cell next to it; and no cell that is neither.
/// Each opened cell was hidden, holds no mine and shows its number; no other
/// cell changes; and the unopened cells are fewer by those opened.
pub proof fn lemma_uncover(b: Board, seeds: Seq<Pos>)
    requires
        b.wf(),
        b.state == GameState::DuringGame,
        forall|k: int| 0 <= k < seeds.len() ==> b.holds(#[trigger] seeds[k]),
        forall|k: int| !b.struck(seeds, k),
    ensures
        b.revealed(seeds) == b.opened(b.reach(seeds)),
        b.revealed(seeds).in_play(),
        forall|k: int|
            0 <= k < seeds.len() && b.images[#[trigger] seeds[k]] == CellImage::Hidden
                ==> b.reach(seeds).contains(seeds[k]),
        forall|q: Pos, r: Pos|
            b.reach(seeds).contains(q) && #[trigger] b.spreads(q, r) ==> b.reach(seeds).contains(r),
        forall|r: Pos|
            #[trigger] b.reach(seeds).contains(r) ==> seeds.contains(r) || exists|q: Pos|
                b.reach(seeds).contains(q) && b.spreads(q, r),
        forall|q: Pos|
            #[trigger] b.reach(seeds).contains(q) ==> b.holds(q) && b.images[q]
                == CellImage::Hidden && !b.mines.contains(q) && b.revealed(seeds).images[q]
                == b.numeral_at(q) && b.numeral_at(q).is_numeral(),
        forall|q: Pos|
            b.holds(q) && !b.reach(seeds).contains(q) ==> #[trigger] b.revealed(seeds).images[q]
                == b.images[q],
        b.reach(seeds).finite(),
        b.revealed(seeds).unopened() == b.unopened().difference(b.reach(seeds)),
        b.revealed(seeds).unopened().len() == b.unopened().len() - b.reach(seeds).len(),
{
    lemma_reach_covered(b, seeds);
    lemma_opened_in_play(b, b.reach(seeds));
    lemma_counts(b);
    assert forall|k: int|
        0 <= k < seeds.len() && b.images[#[trigger] seeds[k]]
            == CellImage::Hidden implies b.reach(seeds).contains(seeds[k]) by {
        lemma_reach_seed(b, seeds, k);
    }
    assert forall|q: Pos, r: Pos|
        b.reach(seeds).contains(q) && #[trigger] b.spreads(q, r) implies b.reach(seeds).contains(
        r,
    ) by {
        lemma_reach_spreads(b, seeds, q, r);
    }
    assert forall|r: Pos| #[trigger] b.reach(seeds).contains(r) implies seeds.contains(r)
        || exists|q: Pos| b.reach(seeds).contains(q) && b.spreads(q, r) by {
        let path = choose|path: Seq<Pos>| b.trail(seeds, path) && path.last() == r;
        if path.len() > 1 {
            let front = path.drop_last();
            assert(b.trail(seeds, front)) by {
                assert forall|i: int| 0 <= i < front.len() - 1 implies b.spreads(
                    #[trigger] front[i],
                    front[i + 1],
                ) by {
                    assert(b.spreads(path[i], path[i + 1]));
                }
            }
            let q = front.last();
            assert(b.reach(seeds).contains(q));
            assert(b.spreads(path[path.len() - 2], path[path.len() - 2 + 1]));
            assert(b.spreads(q, r));
        }
    }
    assert forall|q: Pos| #[trigger] b.reach(seeds).contains(q) implies b.numeral_at(
        q,
    ).is_numeral() by {
        lemma_mines_around(b, q);
    }
    assert(b.reach(seeds).subset_of(b.unopened()));
    vstd::set_lib::lemma_len_subset(b.reach(seeds), b.unopened());
    vstd::set_lib::lemma_set_difference_len(b.unopened(), b.reach(seeds));
    assert(b.unopened().intersect(b.reach(seeds)) =~= b.reach(seeds));
}

/// A left click on a hidden cell without a mine opens the cell and floods from
/// it: the cell is opened; with an opened cell that has no mine around it,
/// every hidden cell next to it is opened; every opened cell but the one
/// clicked lies next to an opened cell that has no mine around it; each opened
/// cell shows its number, and no other cell changes unless the game is won by
/// the click.
pub proof fn lemma_flood_fill(b: Board, p: Pos)
    requires
        b.wf(),
        b.state == GameState::DuringGame,
        b.holds(p),
        b.images[p] == CellImage::Hidden,
        !b.mines.contains(p),
    ensures
        b.left_clicked(p) == b.opened(b.reach(seq![p])).settled(),
        b.reach(seq![p]).contains(p),
        forall|q: Pos, r: Pos|
            b.reach(seq![p]).contains(q) && #[trigger] b.spreads(q, r) ==> b.reach(
                seq![p],
            ).contains(r),
        forall|r: Pos|
            #[trigger] b.reach(seq![p]).contains(r) && r != p ==> exists|q: Pos|
                b.reach(seq![p]).contains(q) && b.spreads(q, r),
        forall|q: Pos|
            #[trigger] b.reach(seq![p]).contains(q) ==> b.images[q] == CellImage::Hidden
                && !b.mines.contains(q) && b.opened(b.reach(seq![p])).images[q] == b.numeral_at(q),
        forall|q: Pos|
            b.holds(q) && !b.reach(seq![p]).contains(q) ==> #[trigger] b.opened(
                b.reach(seq![p]),
            ).images[q] == b.images[q],
{
    let seeds = seq![p];
    assert(seeds[0] == p);
    assert forall|i: int| !b.struck(seeds, i) by {
        if 0 <= i < seeds.len() {
            assert(seeds[i] == p);
        }
    }
    lemma_reach_seed(b, seeds, 0);
    lemma_reach_covered(b, seeds);
    assert forall|q: Pos, r: Pos|
        b.reach(seeds).contains(q) && #[trigger] b.spreads(q, r) implies b.reach(seeds).contains(
        r,
    ) by {
        lemma_reach_spreads(b, seeds, q, r);
    }
    assert forall|r: Pos| #[trigger] b.reach(seeds).contains(r) && r != p implies exists|q: Pos|
        b.reach(seeds).contains(q) && b.spreads(q, r) by {
        let path = choose|path: Seq<Pos>| b.trail(seeds, path) && path.last() == r;
        if path.len() == 1 {
            let i = choose|i: int| 0 <= i < seeds.len() && seeds[i] == path[0];
            assert(seeds[i] == p);
        } else {
            let front = path.drop_last();
            assert(b.trail(seeds, front)) by {
                assert forall|i: int| 0 <= i < front.len() - 1 implies b.spreads(
                    #[trigger] front[i],
                    front[i + 1],
                ) by {
                    assert(b.spreads(path[i], path[i + 1]));
                }
            }
            let q = front.last();
            assert(b.reach(seeds).contains(q));
            assert(b.spreads(path[path.len() - 2], path[path.len() - 2 + 1]));
            assert(b.spreads(q, r));
        }
    }
}

} // verus!
