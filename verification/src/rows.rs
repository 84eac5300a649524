//! Facts about a sequence of rows of one length, laid end to end.

use vstd::prelude::*;

verus! {

/// Whether every row of `rows` has `width` items.
pub open spec fn uniform<A>(rows: Seq<Seq<A>>, width: nat) -> bool {
    forall|i: int| 0 <= i < rows.len() ==> (#[trigger] rows[i]).len() == width
}

/// In a grid of `height` rows of `width` items laid end to end, item `j`
/// of row `i` stands at `i * width + j`, before the end.
pub proof fn lemma_join_index(i: int, j: int, height: nat, width: nat)
    requires
        0 <= i < height,
        0 <= j < width,
    ensures
        0 <= i * width + j < height * width,
{
    assert(i * width + j < height * width) by (nonlinear_arith)
        requires
            0 <= i < height,
            0 <= j < width,
    ;
    assert(0 <= i * width) by (nonlinear_arith)
        requires
            0 <= i,
            0 <= width,
    ;
}

/// Each place before the end of such a grid is item `j` of row `i` for
/// one `i` and `j`.
pub proof fn lemma_split_index(k: int, height: nat, width: nat) -> (at: (int, int))
    requires
        0 <= k < height * width,
    ensures
        0 <= at.0 < height,
        0 <= at.1 < width,
        k == at.0 * width + at.1,
{
    assert(width > 0) by (nonlinear_arith)
        requires
            0 <= k < height * width,
    ;
    let i = k / (width as int);
    let j = k % (width as int);
    assert(k == i * width + j && 0 <= j < width) by (nonlinear_arith)
        requires
            i == k / (width as int),
            j == k % (width as int),
            width > 0,
    ;
    assert(0 <= i < height) by (nonlinear_arith)
        requires
            k == i * width + j,
            0 <= j < width,
            0 <= k < height * width,
    ;
    (i, j)
}

/// Rows of one length laid end to end have the product for their length.
pub proof fn lemma_flatten_uniform_len<A>(rows: Seq<Seq<A>>, width: nat)
    requires
        uniform(rows, width),
    ensures
        rows.flatten().len() == rows.len() * width,
    decreases rows.len(),
{
    if rows.len() == 0 {
        assert(rows.flatten() =~= Seq::<A>::empty());
        assert(rows.len() * width == 0) by (nonlinear_arith)
            requires
                rows.len() == 0,
        ;
    } else {
        let front = rows.drop_last();
        let last = rows.last();
        assert forall|i: int| 0 <= i < front.len() implies (#[trigger] front[i]).len()
            == width by {
            assert(front[i] == rows[i]);
        }
        lemma_flatten_uniform_len(front, width);
        assert(rows =~= front.push(last));
        assert(rows[rows.len() - 1].len() == width);
        front.lemma_flatten_push(last);
        assert(rows.len() * width == front.len() * width + width) by (nonlinear_arith)
            requires
                rows.len() == front.len() + 1,
        ;
    }
}

/// In rows of one length laid end to end, item `j` of row `i` stands at
/// `i * width + j`.
pub proof fn lemma_flatten_uniform_at<A>(rows: Seq<Seq<A>>, width: nat, i: int, j: int)
    requires
        uniform(rows, width),
        0 <= i < rows.len(),
        0 <= j < width,
    ensures
        0 <= i * width + j < rows.flatten().len(),
        rows.flatten()[i * width + j] == rows[i][j],
    decreases rows.len(),
{
    let front = rows.drop_last();
    let last = rows.last();
    assert forall|k: int| 0 <= k < front.len() implies (#[trigger] front[k]).len() == width by {
        assert(front[k] == rows[k]);
    }
    lemma_flatten_uniform_len(rows, width);
    lemma_flatten_uniform_len(front, width);
    lemma_join_index(i, j, rows.len(), width);
    assert(rows =~= front.push(last));
    front.lemma_flatten_push(last);
    if i < front.len() {
        lemma_flatten_uniform_at(front, width, i, j);
        assert(front[i] == rows[i]);
    } else {
        assert(i * width == front.len() * width) by (nonlinear_arith)
            requires
                i == front.len(),
        ;
    }
}

} // verus!
