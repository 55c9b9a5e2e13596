//! The geometry of the grid: which positions lie in it, which touch each other,
//! and how many there are.

use vstd::prelude::*;
use crate::cell::Pos;

verus! {

/// Whether `p` lies in a grid of the given size.
pub open spec fn in_field(p: Pos, width: nat, height: nat) -> bool {
    p.0 < height && p.1 < width
}

/// Whether `q` lies in the square of three by three positions around `p`
/// (`p` itself does).
pub open spec fn touches(p: Pos, q: Pos) -> bool {
    p.0 - 1 <= q.0 <= p.0 + 1 && p.1 - 1 <= q.1 <= p.1 + 1
}

/// Whether `p` comes before `q` when the grid is read row by row.
pub open spec fn before(p: Pos, q: Pos) -> bool {
    p.0 < q.0 || (p.0 == q.0 && p.1 < q.1)
}

/// All positions of a grid.
pub open spec fn field(width: nat, height: nat) -> Set<Pos> {
    Set::new(|p: Pos| in_field(p, width, height))
}

/// The positions of the grid in the square around `p`.
pub open spec fn block(p: Pos, width: nat, height: nat) -> Set<Pos> {
    Set::new(|q: Pos| in_field(q, width, height) && touches(p, q))
}

/// The position `dr` rows and `dc` columns from `p`, as a sequence of one, or
/// the empty sequence where that is outside the grid.
pub open spec fn block_cell(p: Pos, width: nat, height: nat, dr: int, dc: int) -> Seq<Pos> {
    if 0 <= p.0 + dr < height && 0 <= p.1 + dc < width {
        seq![((p.0 + dr) as u8, (p.1 + dc) as u8)]
    } else {
        Seq::empty()
    }
}

/// The first `n` positions, from the left, of the row `dr` rows from `p` in the
/// square around `p`.
pub open spec fn block_cols(p: Pos, width: nat, height: nat, dr: int, n: int) -> Seq<Pos>
    decreases n,
{
    if n <= 0 {
        Seq::empty()
    } else {
        block_cols(p, width, height, dr, n - 1) + block_cell(p, width, height, dr, n - 2)
    }
}

/// The first `n` rows, from the top, of the square around `p`.
pub open spec fn block_rows(p: Pos, width: nat, height: nat, n: int) -> Seq<Pos>
    decreases n,
{
    if n <= 0 {
        Seq::empty()
    } else {
        block_rows(p, width, height, n - 1) + block_cols(p, width, height, n - 2, 3)
    }
}

/// The square around `p` read row by row, positions outside the grid left out.
pub open spec fn block_seq(p: Pos, width: nat, height: nat) -> Seq<Pos> {
    block_rows(p, width, height, 3)
}

/// The square around `p` without `p`: the last position of the square stands
/// where `p` stood.
pub open spec fn neighbors_seq(p: Pos, width: nat, height: nat) -> Seq<Pos> {
    let square = block_seq(p, width, height);
    square.update(square.index_of(p), square.last()).drop_last()
}

/// The positions of row `row` left of column `n`.
pub open spec fn row_upto(row: u8, n: nat) -> Set<Pos> {
    Set::new(|p: Pos| p.0 == row && p.1 < n)
}

proof fn lemma_row_size(row: u8, n: nat)
    requires
        n <= 256,
    ensures
        row_upto(row, n).finite(),
        row_upto(row, n).len() == n,
    decreases n,
{
    if n == 0 {
        assert(row_upto(row, n) =~= Set::empty());
    } else {
        lemma_row_size(row, (n - 1) as nat);
        let last: Pos = (row, (n - 1) as u8);
        assert(row_upto(row, n) =~= row_upto(row, (n - 1) as nat).insert(last));
    }
}

/// A grid of `width` by `height` has `width * height` positions.
pub proof fn lemma_field_size(width: nat, height: nat)
    requires
        width <= 256,
        height <= 256,
    ensures
        field(width, height).finite(),
        field(width, height).len() == width * height,
    decreases height,
{
    if height == 0 {
        assert(field(width, height) =~= Set::empty());
    } else {
        let above = (height - 1) as nat;
        lemma_field_size(width, above);
        lemma_row_size(above as u8, width);
        let row = row_upto(above as u8, width);
        assert(field(width, height) =~= field(width, above) + row);
        assert(field(width, above).disjoint(row));
        vstd::set_lib::lemma_set_disjoint_lens(field(width, above), row);
        assert(width * height == width * above + width) by (nonlinear_arith)
            requires
                above == height - 1,
        ;
    }
}

/// Every set of positions of a grid is finite, and no larger than the grid.
pub proof fn lemma_in_field_finite(cells: Set<Pos>, width: nat, height: nat)
    requires
        width <= 256,
        height <= 256,
        cells.subset_of(field(width, height)),
    ensures
        cells.finite(),
        cells.len() <= width * height,
{
    lemma_field_size(width, height);
    vstd::set_lib::lemma_len_subset(cells, field(width, height));
}

/// One row of the listing of the square around `p`: each position of that row
/// of the square once, and no other.
proof fn lemma_block_row(p: Pos, width: nat, height: nat, dr: int)
    requires
        in_field(p, width, height),
        width <= 255,
        height <= 255,
        -1 <= dr <= 1,
    ensures
        block_cols(p, width, height, dr, 3).no_duplicates(),
        block_cols(p, width, height, dr, 3).len() <= 3,
        forall|i: int|
            0 <= i < block_cols(p, width, height, dr, 3).len() ==> {
                let q = #[trigger] block_cols(p, width, height, dr, 3)[i];
                q.0 == p.0 + dr && touches(p, q) && in_field(q, width, height)
            },
        forall|q: Pos|
            q.0 == p.0 + dr && touches(p, q) && in_field(q, width, height) ==> block_cols(
                p,
                width,
                height,
                dr,
                3,
            ).contains(q),
{
    reveal_with_fuel(block_cols, 4);
    let row = block_cols(p, width, height, dr, 3);
    let left = block_cell(p, width, height, dr, -1);
    let mid = block_cell(p, width, height, dr, 0);
    let right = block_cell(p, width, height, dr, 1);
    assert(row =~= left + mid + right);
    assert forall|q: Pos|
        q.0 == p.0 + dr && touches(p, q) && in_field(q, width, height) implies row.contains(
        q,
    ) by {
        if q.1 == p.1 - 1 {
            assert(row[0] == q);
        } else if q.1 == p.1 {
            assert(row[left.len() as int] == q);
        } else {
            assert(row[(left.len() + mid.len()) as int] == q);
        }
    }
}

/// The listing of the square around `p` holds each position of the square
/// once, `p` among them, and no other position.
pub proof fn lemma_block_seq(p: Pos, width: nat, height: nat)
    requires
        in_field(p, width, height),
        width <= 255,
        height <= 255,
    ensures
        block_seq(p, width, height).no_duplicates(),
        forall|q: Pos| #[trigger]
            block_seq(p, width, height).contains(q) <==> block(p, width, height).contains(q),
        block_seq(p, width, height).to_set() == block(p, width, height),
        block(p, width, height).finite(),
        block(p, width, height).len() == block_seq(p, width, height).len(),
        1 <= block_seq(p, width, height).len() <= 9,
        block_seq(p, width, height).contains(p),
{
    reveal_with_fuel(block_rows, 4);
    let s = block_seq(p, width, height);
    let top = block_cols(p, width, height, -1, 3);
    let mid = block_cols(p, width, height, 0, 3);
    let low = block_cols(p, width, height, 1, 3);
    lemma_block_row(p, width, height, -1);
    lemma_block_row(p, width, height, 0);
    lemma_block_row(p, width, height, 1);
    assert(s =~= top + mid + low);
    assert(s.no_duplicates());
    assert forall|q: Pos| #[trigger] s.contains(q) <==> block(p, width, height).contains(q) by {
        if block(p, width, height).contains(q) {
            if q.0 == p.0 - 1 {
                let i = choose|i: int| 0 <= i < top.len() && top[i] == q;
                assert(s[i] == q);
            } else if q.0 == p.0 {
                let i = choose|i: int| 0 <= i < mid.len() && mid[i] == q;
                assert(s[(top.len() + i) as int] == q);
            } else {
                let i = choose|i: int| 0 <= i < low.len() && low[i] == q;
                assert(s[(top.len() + mid.len() + i) as int] == q);
            }
        }
    }
    assert(s.to_set() =~= block(p, width, height));
    s.unique_seq_to_set();
    vstd::seq_lib::seq_to_set_is_finite(s);
    assert(block(p, width, height).contains(p));
}

/// Leaving elements out of a sequence without duplicates makes no duplicates.
pub proof fn lemma_filter_no_duplicates<A>(s: Seq<A>, keep: spec_fn(A) -> bool)
    requires
        s.no_duplicates(),
    ensures
        s.filter(keep).no_duplicates(),
    decreases s.len(),
{
    reveal(Seq::filter);
    if s.len() > 0 {
        let front = s.drop_last();
        lemma_filter_no_duplicates(front, keep);
        if keep(s.last()) {
            let kept = front.filter(keep);
            assert forall|i: int| 0 <= i < kept.len() implies kept[i] != s.last() by {
                assert(kept.contains(kept[i]));
                front.lemma_filter_contains_rev(keep, kept[i]);
                let j = choose|j: int| 0 <= j < front.len() && front[j] == kept[i];
                assert(s[j] == kept[i]);
            }
        }
    }
}

/// The listing of the cells next to `p` holds each position of the square
/// around `p` once, but for `p`, and no other position.
pub proof fn lemma_neighbors_seq(p: Pos, width: nat, height: nat)
    requires
        in_field(p, width, height),
        width <= 255,
        height <= 255,
    ensures
        neighbors_seq(p, width, height).no_duplicates(),
        forall|q: Pos| #[trigger]
            neighbors_seq(p, width, height).contains(q) <==> in_field(q, width, height)
                && touches(p, q) && q != p,
        neighbors_seq(p, width, height).len() == block_seq(p, width, height).len() - 1,
{
    lemma_block_seq(p, width, height);
    let square = block_seq(p, width, height);
    let at = square.index_of(p);
    let around = neighbors_seq(p, width, height);
    assert(0 <= at < square.len() && square[at] == p);
    assert forall|i: int| 0 <= i < around.len() implies #[trigger] around[i] != p
        && square.contains(around[i]) by {
        if i == at {
            assert(around[i] == square[square.len() - 1]);
        } else {
            assert(around[i] == square[i]);
        }
    }
    assert forall|q: Pos| #[trigger]
        around.contains(q) <==> in_field(q, width, height) && touches(p, q) && q != p by {
        if in_field(q, width, height) && touches(p, q) && q != p {
            assert(block(p, width, height).contains(q));
            assert(square.contains(q));
            let i = choose|i: int| 0 <= i < square.len() && square[i] == q;
            if i == square.len() - 1 {
                assert(around[at] == q);
            } else {
                assert(around[i] == q);
            }
        }
        if around.contains(q) {
            let i = choose|i: int| 0 <= i < around.len() && around[i] == q;
            assert(around[i] != p && square.contains(around[i]));
            assert(block(p, width, height).contains(q));
        }
    }
    assert forall|i: int, j: int| 0 <= i < j < around.len() implies around[i] != around[j] by {
        let a = if i == at { square.len() - 1 } else { i };
        let b = if j == at { square.len() - 1 } else { j };
        assert(around[i] == square[a]);
        assert(around[j] == square[b]);
    }
}

} // verus!
