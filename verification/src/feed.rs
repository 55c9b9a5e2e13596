//! The lists of changed cells that the click operations return.

use vstd::prelude::*;
use crate::cell::{CellImage, Pos};
use crate::field::before;

verus! {

/// A list of changed cells: each entry is a position with what it shows from
/// now on.
pub type Changes = Seq<(Pos, CellImage)>;

/// The positions of a list of changes, in its order.
pub open spec fn cells_of(changes: Changes) -> Seq<Pos> {
    changes.map_values(|change: (Pos, CellImage)| change.0)
}

/// Whether an image opens a list of changes: a number, or the mine that was
/// clicked. The flags of a win and the uncovered cells of a loss come after.
pub open spec fn leads(image: CellImage) -> bool {
    image.is_numeral() || image is SelectedMine
}

/// The order of a list of changes: first what the click opened, then what the
/// end of the game uncovered, the latter row by row.
pub open spec fn in_feed_order(changes: Changes) -> bool {
    forall|i: int, j: int|
        0 <= i < j < changes.len() ==> {
            &&& leads((#[trigger] changes[j]).1) ==> leads((#[trigger] changes[i]).1)
            &&& !leads(changes[i].1) ==> before(changes[i].0, changes[j].0)
        }
}

/// Whether `p` comes before column `col` of row `row` when the grid is read row
/// by row.
pub open spec fn passed(p: Pos, row: int, col: int) -> bool {
    p.0 < row || (p.0 == row && p.1 < col)
}

/// Whether `changes` names `p` at index `from` or later.
pub open spec fn names(changes: Changes, from: int, p: Pos) -> bool {
    exists|i: int| from <= i < changes.len() && (#[trigger] changes[i]).0 == p
}

/// Whether `changes`, from index `from` on, names those cells of `cells` that
/// come before column `col` of row `row`, row by row, and nothing else.
pub open spec fn scanned(changes: Changes, from: int, cells: Set<Pos>, row: int, col: int) -> bool {
    &&& 0 <= from <= changes.len()
    &&& forall|i: int, j: int|
        from <= i < j < changes.len() ==> before(
            (#[trigger] changes[i]).0,
            (#[trigger] changes[j]).0,
        )
    &&& forall|i: int|
        from <= i < changes.len() ==> cells.contains((#[trigger] changes[i]).0) && passed(
            changes[i].0,
            row,
            col,
        )
    &&& forall|p: Pos| cells.contains(p) && passed(p, row, col) ==> names(changes, from, p)
}

/// A scan that finds nothing to name at its place goes on to the next column.
pub proof fn lemma_scan_skip(changes: Changes, from: int, cells: Set<Pos>, row: u8, col: u8)
    requires
        scanned(changes, from, cells, row as int, col as int),
        !cells.contains((row, col)),
    ensures
        scanned(changes, from, cells, row as int, col + 1),
{
}

/// A scan that names the cell at its place goes on to the next column.
pub proof fn lemma_scan_push(
    changes: Changes,
    from: int,
    cells: Set<Pos>,
    row: u8,
    col: u8,
    image: CellImage,
)
    requires
        scanned(changes, from, cells, row as int, col as int),
        cells.contains((row, col)),
    ensures
        scanned(changes.push(((row, col), image)), from, cells, row as int, col + 1),
{
    let longer = changes.push(((row, col), image));
    assert forall|p: Pos| cells.contains(p) && passed(p, row as int, col + 1) implies names(
        longer,
        from,
        p,
    ) by {
        if p == (row, col) {
            assert(longer[changes.len() as int].0 == p);
        } else {
            assert(names(changes, from, p));
            let i = choose|i: int| from <= i < changes.len() && (#[trigger] changes[i]).0 == p;
            assert(longer[i].0 == p);
        }
    }
}

/// A scan at the end of a row stands at the start of the next.
pub proof fn lemma_scan_row(changes: Changes, from: int, cells: Set<Pos>, row: u8, width: u8)
    requires
        scanned(changes, from, cells, row as int, width as int),
        forall|p: Pos| cells.contains(p) ==> p.1 < width,
    ensures
        scanned(changes, from, cells, row + 1, 0),
{
}

/// A scan that has passed every row names each cell once.
pub proof fn lemma_scan_done(changes: Changes, from: int, cells: Set<Pos>, height: u8)
    requires
        scanned(changes, from, cells, height as int, 0),
        forall|p: Pos| cells.contains(p) ==> p.0 < height,
    ensures
        forall|p: Pos| names(changes, from, p) <==> cells.contains(p),
        forall|i: int, j: int|
            from <= i < j < changes.len() ==> (#[trigger] changes[i]).0 != (
            #[trigger] changes[j]).0,
{
}

/// A list that names each cell of `cells` once, and no other cell, has the
/// cells of `cells` as its positions, without duplicates.
pub proof fn lemma_named_cells(changes: Changes, cells: Set<Pos>)
    requires
        forall|p: Pos| names(changes, 0, p) <==> cells.contains(p),
        forall|i: int, j: int|
            0 <= i < j < changes.len() ==> (#[trigger] changes[i]).0 != (#[trigger] changes[j]).0,
    ensures
        cells_of(changes).no_duplicates(),
        cells_of(changes).to_set() == cells,
{
    let listed = cells_of(changes);
    assert forall|i: int, j: int| 0 <= i < listed.len() && 0 <= j < listed.len() && i != j implies listed[i] != listed[j] by {
        assert(listed[i] == changes[i].0 && listed[j] == changes[j].0);
        if i < j {
            assert(changes[i].0 != changes[j].0);
        } else {
            assert(changes[j].0 != changes[i].0);
        }
    }
    assert forall|p: Pos| listed.to_set().contains(p) <==> cells.contains(p) by {
        if listed.contains(p) {
            let i = choose|i: int| 0 <= i < listed.len() && listed[i] == p;
            assert(changes[i].0 == p);
            assert(names(changes, 0, p));
        }
        if cells.contains(p) {
            assert(names(changes, 0, p));
            let i = choose|i: int| 0 <= i < changes.len() && (#[trigger] changes[i]).0 == p;
            assert(listed[i] == p);
        }
    }
    assert(listed.to_set() =~= cells);
}

/// What the click opened, followed by what the end of the game uncovered row
/// by row, is in the order of a list of changes.
pub proof fn lemma_feed_chain(first: Changes, second: Changes)
    requires
        forall|i: int| 0 <= i < first.len() ==> leads((#[trigger] first[i]).1),
        forall|i: int| 0 <= i < second.len() ==> !leads((#[trigger] second[i]).1),
        forall|i: int, j: int|
            0 <= i < j < second.len() ==> before(
                (#[trigger] second[i]).0,
                (#[trigger] second[j]).0,
            ),
    ensures
        in_feed_order(first + second),
{
    let all = first + second;
    assert forall|i: int, j: int| 0 <= i < j < all.len() implies {
        &&& leads((#[trigger] all[j]).1) ==> leads((#[trigger] all[i]).1)
        &&& !leads(all[i].1) ==> before(all[i].0, all[j].0)
    } by {
        if i < first.len() {
            assert(all[i] == first[i]);
        } else {
            assert(all[i] == second[i - first.len()]);
            assert(all[j] == second[j - first.len()]);
        }
        if j < first.len() {
            assert(all[j] == first[j]);
        } else {
            assert(all[j] == second[j - first.len()]);
        }
    }
}

} // verus!
