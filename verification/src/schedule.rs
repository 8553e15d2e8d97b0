//! The partition of image rows among workers.
//!
//! The rows `0 .. total` are cut into one contiguous band per worker. Every
//! band but the last holds `total / workers` rows; the last band takes what
//! is left. The bands follow each other without gap or overlap, so every row
//! belongs to exactly one worker whatever the number of workers.

use vstd::prelude::*;

verus! {

/// A contiguous range of rows: `rows` of them, the first one `start`.
#[derive(Debug, Clone, Copy, PartialEq, Eq, Structural)]
pub struct RowBand {
    pub start: usize,
    pub rows: usize,
}

/// The number of rows in every band but the last.
pub open spec fn band_stride(total: int, workers: int) -> int
    recommends
        workers > 0,
{
    total / workers
}

/// The first row of band `i`.
pub open spec fn band_start(total: int, workers: int, i: int) -> int
    recommends
        i < workers,
{
    i * band_stride(total, workers)
}

/// The number of rows of band `i`.
pub open spec fn band_rows(total: int, workers: int, i: int) -> int
    recommends
        i < workers,
{
    if i + 1 == workers {
        total - i * band_stride(total, workers)
    } else {
        band_stride(total, workers)
    }
}

/// The band that holds `row`.
pub open spec fn band_of_row(total: int, workers: int, row: int) -> int
    recommends
        workers > 0,
        row < total,
{
    let stride = band_stride(total, workers);
    if stride == 0 || row / stride >= workers {
        workers - 1
    } else {
        row / stride
    }
}

/// Whether band `i` holds `row`.
pub open spec fn band_holds(total: int, workers: int, i: int, row: int) -> bool {
    band_start(total, workers, i) <= row < band_start(total, workers, i) + band_rows(
        total,
        workers,
        i,
    )
}

/// Whether `bands` is the partition of `total` rows among `workers`.
pub open spec fn is_partition(bands: Seq<RowBand>, total: int, workers: int) -> bool {
    &&& bands.len() == workers
    &&& forall|i: int|
        0 <= i < workers ==> (#[trigger] bands[i]).start == band_start(total, workers, i)
            && bands[i].rows == band_rows(total, workers, i)
}

/// No band starts beyond the last row, and each ends within the image.
pub proof fn lemma_band_in_range(total: int, workers: int, i: int)
    requires
        0 <= total,
        0 <= i < workers,
    ensures
        0 <= band_stride(total, workers),
        0 <= band_start(total, workers, i),
        0 <= band_rows(total, workers, i),
        band_start(total, workers, i) + band_rows(total, workers, i) <= total,
{
    let stride = band_stride(total, workers);
    assert(0 <= stride && stride * workers <= total) by (nonlinear_arith)
        requires
            stride == total / workers,
            workers > 0,
            total >= 0,
    ;
    assert(0 <= i * stride) by (nonlinear_arith)
        requires
            0 <= i,
            0 <= stride,
    ;
    assert((i + 1) * stride <= workers * stride) by (nonlinear_arith)
        requires
            i + 1 <= workers,
            stride >= 0,
    ;
    assert((i + 1) * stride == i * stride + stride) by (nonlinear_arith);
    assert(stride * workers == workers * stride) by (nonlinear_arith);
}

/// The bands are laid end to end: the first starts at row zero, each
/// following band starts where the one before it stops, and the last one
/// stops at the last row.
pub proof fn lemma_bands_contiguous(total: int, workers: int, i: int)
    requires
        0 <= total,
        0 <= i < workers,
    ensures
        band_start(total, workers, 0) == 0,
        i + 1 < workers ==> band_start(total, workers, i + 1) == band_start(total, workers, i)
            + band_rows(total, workers, i),
        i + 1 == workers ==> band_start(total, workers, i) + band_rows(total, workers, i) == total,
{
    let stride = band_stride(total, workers);
    lemma_band_in_range(total, workers, i);
    assert((i + 1) * stride == i * stride + stride) by (nonlinear_arith);
    assert(0 * stride == 0);
}

/// Every row belongs to exactly one band: `band_of_row` names a band that
/// holds the row, and no other band holds it.
pub proof fn lemma_bands_cover_disjointly(total: int, workers: int, row: int, i: int)
    requires
        0 <= row < total,
        0 <= i < workers,
    ensures
        0 <= band_of_row(total, workers, row) < workers,
        band_holds(total, workers, i, row) <==> i == band_of_row(total, workers, row),
{
    let stride = band_stride(total, workers);
    lemma_band_in_range(total, workers, i);
    let start = band_start(total, workers, i);
    if stride == 0 {
        assert(i * stride == 0) by (nonlinear_arith)
            requires
                stride == 0,
        ;
    } else {
        let q = row / stride;
        assert(q * stride <= row < (q + 1) * stride) by (nonlinear_arith)
            requires
                q == row / stride,
                stride > 0,
        ;
        if start <= row && (i + 1 < workers ==> row < start + stride) {
            // Band `i` holds the row.
            if i + 1 < workers {
                assert((i + 1) * stride == i * stride + stride) by (nonlinear_arith);
                assert(q == i) by (nonlinear_arith)
                    requires
                        i * stride <= row < (i + 1) * stride,
                        q * stride <= row < (q + 1) * stride,
                        stride > 0,
                ;
            } else {
                assert(q >= i) by (nonlinear_arith)
                    requires
                        i * stride <= row,
                        row < (q + 1) * stride,
                        stride > 0,
                ;
            }
        } else {
            // Band `i` does not hold the row.
            if row < start {
                assert(q < i) by (nonlinear_arith)
                    requires
                        row < i * stride,
                        q * stride <= row,
                        stride > 0,
                ;
            } else {
                assert((i + 1) * stride == i * stride + stride) by (nonlinear_arith);
                assert(q > i) by (nonlinear_arith)
                    requires
                        (i + 1) * stride <= row,
                        row < (q + 1) * stride,
                        stride > 0,
                ;
            }
        }
    }
}

/// Whether `parts` holds one sequence of rows per band, each of the band's
/// length.
pub open spec fn fits_bands<A>(parts: Seq<Seq<A>>, total: int, workers: int) -> bool {
    &&& parts.len() == workers
    &&& forall|i: int| 0 <= i < workers ==> (#[trigger] parts[i]).len() == band_rows(total, workers, i)
}

proof fn lemma_bands_join_upto<A>(parts: Seq<Seq<A>>, total: int, workers: int, n: int)
    requires
        0 <= total,
        0 < workers,
        0 <= n <= workers,
        fits_bands(parts, total, workers),
    ensures
        n < workers ==> parts.subrange(0, n).flatten().len() == band_start(total, workers, n),
        n == workers ==> parts.subrange(0, n).flatten().len() == total,
        forall|i: int, r: int|
            0 <= i < n && 0 <= r < band_rows(total, workers, i) ==> parts.subrange(
                0,
                n,
            ).flatten()[band_start(total, workers, i) + r] == #[trigger] parts[i][r],
    decreases n,
{
    let joined = parts.subrange(0, n).flatten();
    if n == 0 {
        assert(band_start(total, workers, 0) == 0);
        assert(parts.subrange(0, 0) =~= Seq::<Seq<A>>::empty());
        assert(joined =~= Seq::<A>::empty());
    } else {
        lemma_bands_join_upto(parts, total, workers, n - 1);
        lemma_band_in_range(total, workers, n - 1);
        lemma_bands_contiguous(total, workers, n - 1);
        let before = parts.subrange(0, n - 1);
        let last = parts[n - 1];
        assert(parts.subrange(0, n) =~= before.push(last));
        before.lemma_flatten_push(last);
        assert(joined == before.flatten() + last);
        assert(before.flatten().len() == band_start(total, workers, n - 1));
        assert forall|i: int, r: int|
            0 <= i < n && 0 <= r < band_rows(total, workers, i) implies joined[band_start(
            total,
            workers,
            i,
        ) + r] == #[trigger] parts[i][r] by {
            lemma_band_in_range(total, workers, i);
            if i < n - 1 {
                lemma_bands_start_in_order(total, workers, i + 1, n - 1);
                lemma_bands_contiguous(total, workers, i);
            }
        }
    }
}

/// Bands start in the order of their indices.
proof fn lemma_bands_start_in_order(total: int, workers: int, i: int, j: int)
    requires
        0 <= total,
        0 <= i <= j < workers,
    ensures
        band_start(total, workers, i) <= band_start(total, workers, j),
{
    lemma_band_in_range(total, workers, i);
    let stride = band_stride(total, workers);
    assert(i * stride <= j * stride) by (nonlinear_arith)
        requires
            i <= j,
            0 <= stride,
    ;
}

/// The bands tile the image. Where every band holds as many rows as the
/// partition gives it, the bands put one after the other make `total` rows,
/// and row `r` of band `i` is row `band_start(.., i) + r` of the whole.
pub proof fn lemma_bands_join<A>(parts: Seq<Seq<A>>, total: int, workers: int)
    requires
        0 <= total,
        0 < workers,
        fits_bands(parts, total, workers),
    ensures
        parts.flatten().len() == total,
        forall|i: int, r: int|
            0 <= i < workers && 0 <= r < band_rows(total, workers, i) ==> parts.flatten()[band_start(
                total,
                workers,
                i,
            ) + r] == #[trigger] parts[i][r],
{
    lemma_bands_join_upto(parts, total, workers, workers);
    assert(parts.subrange(0, workers) =~= parts);
}

/// The rows of all bands, each row given by its index in the image, band
/// after band.
pub open spec fn rows_by_band<A>(total: int, workers: int, row: spec_fn(int) -> A) -> Seq<Seq<A>> {
    Seq::new(
        workers as nat,
        |i: int|
            Seq::new(
                band_rows(total, workers, i) as nat,
                |r: int| row(band_start(total, workers, i) + r),
            ),
    )
}

/// A render does not depend on the number of workers. Let every worker fill
/// each row of its band with a value that depends on the row's index in the
/// image alone. Then the bands, put one after the other, are the image that
/// a single sweep over all rows computes, and so the same for every number
/// of workers.
pub proof fn lemma_bands_tile<A>(total: int, workers: int, row: spec_fn(int) -> A)
    requires
        0 <= total,
        0 < workers,
    ensures
        rows_by_band(total, workers, row).flatten() == Seq::new(total as nat, |y: int| row(y)),
        rows_by_band(total, workers, row).flatten() == rows_by_band(total, 1, row).flatten(),
{
    lemma_bands_tile_for(total, workers, row);
    lemma_bands_tile_for(total, 1, row);
}

proof fn lemma_bands_tile_for<A>(total: int, workers: int, row: spec_fn(int) -> A)
    requires
        0 <= total,
        0 < workers,
    ensures
        rows_by_band(total, workers, row).flatten() == Seq::new(total as nat, |y: int| row(y)),
{
    let parts = rows_by_band(total, workers, row);
    let whole = Seq::new(total as nat, |y: int| row(y));
    assert forall|i: int| 0 <= i < workers implies (#[trigger] parts[i]).len() == band_rows(
        total,
        workers,
        i,
    ) by {
        lemma_band_in_range(total, workers, i);
    }
    lemma_bands_join(parts, total, workers);
    assert forall|y: int| 0 <= y < total implies parts.flatten()[y] == whole[y] by {
        let i = band_of_row(total, workers, y);
        lemma_bands_cover_disjointly(total, workers, y, if 0 <= i < workers {
            i
        } else {
            0
        });
        lemma_band_in_range(total, workers, i);
        let r = y - band_start(total, workers, i);
        assert(parts[i][r] == row(y));
    }
    assert(parts.flatten() =~= whole);
}

/// Cuts `total_rows` rows into `workers` bands.
pub fn row_bands(total_rows: usize, workers: usize) -> (bands: Vec<RowBand>)
    requires
        workers > 0,
    ensures
        is_partition(bands@, total_rows as int, workers as int),
{
    let stride: usize = total_rows / workers;
    let mut bands: Vec<RowBand> = Vec::new();
    let mut i: usize = 0;
    while i + 1 < workers
        invariant
            workers > 0,
            i < workers,
            stride == band_stride(total_rows as int, workers as int),
            bands.len() == i,
            forall|j: int|
                0 <= j < i ==> (#[trigger] bands[j]).start == band_start(
                    total_rows as int,
                    workers as int,
                    j,
                ) && bands[j].rows == band_rows(total_rows as int, workers as int, j),
        decreases workers - i,
    {
        proof {
            lemma_band_in_range(total_rows as int, workers as int, i as int);
        }
        bands.push(RowBand { start: i * stride, rows: stride });
        i = i + 1;
    }
    proof {
        lemma_band_in_range(total_rows as int, workers as int, i as int);
    }
    bands.push(RowBand { start: i * stride, rows: total_rows - i * stride });
    bands
}

} // verus!
