//! Results taken in order, and rows laid end to end.

use vstd::prelude::*;

verus! {

/// The values of `items` where all of them are values, else the first error
/// among them.
pub open spec fn gathered<T, E>(items: Seq<Result<T, E>>) -> Result<Seq<T>, E>
    decreases items.len(),
{
    if items.len() == 0 {
        Ok(Seq::empty())
    } else {
        match gathered(items.drop_last()) {
            Err(e) => Err(e),
            Ok(values) => match items.last() {
                Err(e) => Err(e),
                Ok(value) => Ok(values.push(value)),
            },
        }
    }
}

/// The rows of `rows` one after the other.
pub open spec fn flattened<T>(rows: Seq<Seq<T>>) -> Seq<T>
    decreases rows.len(),
{
    if rows.len() == 0 {
        Seq::empty()
    } else {
        flattened(rows.drop_last()) + rows.last()
    }
}

/// The length of the first row, or zero where there is no row.
pub open spec fn width_of<T>(rows: Seq<Seq<T>>) -> nat {
    if rows.len() == 0 {
        0
    } else {
        rows[0].len()
    }
}

/// All rows have the length of the first.
pub open spec fn rectangular<T>(rows: Seq<Seq<T>>) -> bool {
    forall|i: int| 0 <= i < rows.len() ==> (#[trigger] rows[i]).len() == width_of(rows)
}

/// An error among the first `n` items is the error of the whole.
pub proof fn lemma_gathered_error<T, E>(items: Seq<Result<T, E>>, n: int)
    requires
        0 <= n <= items.len(),
        gathered(items.subrange(0, n)) is Err,
    ensures
        gathered(items) == gathered(items.subrange(0, n)),
    decreases items.len() - n,
{
    if n == items.len() {
        assert(items.subrange(0, n) =~= items);
    } else {
        assert(items.subrange(0, n + 1).drop_last() =~= items.subrange(0, n));
        lemma_gathered_error(items, n + 1);
    }
}

/// Where the whole is values, there is one for each item, and each item is
/// its value.
pub proof fn lemma_gathered_values<T, E>(items: Seq<Result<T, E>>)
    requires
        gathered(items) is Ok,
    ensures
        gathered(items)->Ok_0.len() == items.len(),
        forall|i: int|
            0 <= i < items.len() ==> (#[trigger] items[i]) == Ok::<T, E>(gathered(items)->Ok_0[i]),
    decreases items.len(),
{
    if items.len() > 0 {
        lemma_gathered_values(items.drop_last());
        assert forall|i: int| 0 <= i < items.len() implies (#[trigger] items[i]) == Ok::<T, E>(
            gathered(items)->Ok_0[i],
        ) by {
            if i < items.len() - 1 {
                assert(items.drop_last()[i] == items[i]);
            }
        }
    }
}

/// Rows of one width laid end to end: the element at `column` of row `row`
/// stands at `row * width + column`.
pub proof fn lemma_flattened<T>(rows: Seq<Seq<T>>, width: nat)
    requires
        forall|i: int| 0 <= i < rows.len() ==> (#[trigger] rows[i]).len() == width,
    ensures
        flattened(rows).len() == rows.len() * width,
        forall|row: int, column: int|
            0 <= row < rows.len() && 0 <= column < width ==> #[trigger] flattened(rows)[row * width
                + column] == rows[row][column],
    decreases rows.len(),
{
    if rows.len() > 0 {
        let before = rows.drop_last();
        let last = rows.len() - 1;
        lemma_flattened(before, width);
        assert(before.len() * width + width == rows.len() * width) by (nonlinear_arith)
            requires
                before.len() + 1 == rows.len(),
        {
        }
        assert forall|row: int, column: int| 0 <= row < rows.len() && 0 <= column < width implies #[trigger] flattened(
            rows,
        )[row * width + column] == rows[row][column] by {
            if row < last {
                assert(row * width + column < before.len() * width) by (nonlinear_arith)
                    requires
                        0 <= row < before.len(),
                        0 <= column < width,
                {
                }
                assert(before[row] == rows[row]);
                assert(flattened(before)[row * width + column] == before[row][column]);
            } else {
                assert(row * width == before.len() * width);
            }
        }
    } else {
        assert(rows.len() * width == 0) by (nonlinear_arith)
            requires
                rows.len() == 0,
        {
        }
    }
}

} // verus!
