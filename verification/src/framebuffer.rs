//! The frame buffer: a dense grid of colours, stored row by row from the
//! bottom of the image to its top.
//!
//! For a parallel render the buffer lends its rows out as contiguous bands,
//! one per worker. The bands are disjoint mutable borrows, so no two workers
//! can touch the same row, and when they end the buffer holds exactly what
//! the workers left in them, band after band.

use vstd::prelude::*;
use crate::color::{color_line, Color};
use crate::schedule::{
    band_of_row,
    band_rows,
    band_start,
    fits_bands,
    is_partition,
    lemma_band_in_range,
    lemma_bands_contiguous,
    lemma_bands_cover_disjointly,
    lemma_bands_join,
    row_bands,
    RowBand,
};
use crate::text::{decimal, push_decimal};

verus! {

/// A grid of `HEIGHT` rows of `WIDTH` colours each.
#[derive(Debug)]
pub struct FrameBuffer<const WIDTH: usize, const HEIGHT: usize> {
    pub pixels: Vec<Vec<Color>>,
}

/// A band of rows borrowed from a frame buffer: `pixels` are the rows, and
/// `y` is the index that the first of them has in the buffer.
pub struct FrameBufferSlice<'a> {
    pub y: usize,
    pub pixels: &'a mut [Vec<Color>],
}

/// The colours of the rows, as a grid of plain values.
pub open spec fn grid_of(rows: Seq<Vec<Color>>) -> Seq<Seq<Color>> {
    Seq::new(rows.len(), |r: int| rows[r]@)
}

/// The rows that band `i` holds when `rows` are shared among `workers`.
pub open spec fn rows_of_band(rows: Seq<Vec<Color>>, workers: int, i: int) -> Seq<Vec<Color>> {
    rows.subrange(
        band_start(rows.len() as int, workers, i),
        band_start(rows.len() as int, workers, i) + band_rows(rows.len() as int, workers, i),
    )
}

/// The text of one row: the lines of its colours, left to right.
pub open spec fn row_text(row: Seq<Color>) -> Seq<char>
    decreases row.len(),
{
    if row.len() == 0 {
        Seq::empty()
    } else {
        row_text(row.drop_last()) + color_line(row.last())
    }
}

/// The text of all rows, the last row first.
pub open spec fn rows_text(rows: Seq<Seq<Color>>) -> Seq<char>
    decreases rows.len(),
{
    if rows.len() == 0 {
        Seq::empty()
    } else {
        row_text(rows.last()) + rows_text(rows.drop_last())
    }
}

/// The header of a plain-text image of the given size, with 255 as the
/// largest channel value.
pub open spec fn header_text(width: nat, height: nat) -> Seq<char> {
    seq!['P', '3', '\n'] + decimal(width) + seq![' '] + decimal(height) + seq![
        '\n',
        '2',
        '5',
        '5',
        '\n',
    ]
}

/// A render in bands is the render of the whole buffer, whatever the number
/// of workers. Let the rows of a buffer be lent out in bands, and let every
/// band end with rows as long as they were and with every pixel a colour that
/// `paints` admits for the pixel's row in the buffer and its column. Then
/// the rows that the bands leave, one band after the other, are as many and
/// as long as the buffer's rows were, and every pixel of them holds a colour
/// that `paints` admits for its place.
pub proof fn lemma_render_in_bands(
    before: Seq<Vec<Color>>,
    workers: int,
    after: Seq<Seq<Vec<Color>>>,
    paints: spec_fn(int, int, Color) -> bool,
)
    requires
        0 < workers,
        fits_bands(after, before.len() as int, workers),
        forall|i: int, r: int|
            0 <= i < workers && 0 <= r < band_rows(before.len() as int, workers, i) ==> (
            #[trigger] after[i][r])@.len() == before[band_start(before.len() as int, workers, i)
                + r]@.len(),
        forall|i: int, r: int, y: int|
            0 <= i < workers && 0 <= r < band_rows(before.len() as int, workers, i) && 0 <= y
                < after[i][r]@.len() ==> paints(
                band_start(before.len() as int, workers, i) + r,
                y,
                #[trigger] after[i][r]@[y],
            ),
    ensures
        after.flatten().len() == before.len(),
        forall|x: int|
            0 <= x < before.len() ==> (#[trigger] after.flatten()[x])@.len() == before[x]@.len(),
        forall|x: int, y: int|
            0 <= x < before.len() && 0 <= y < before[x]@.len() ==> paints(
                x,
                y,
                #[trigger] after.flatten()[x]@[y],
            ),
{
    let total = before.len() as int;
    lemma_bands_join(after, total, workers);
    assert forall|x: int| 0 <= x < total implies (#[trigger] after.flatten()[x])@.len()
        == before[x]@.len() && (forall|y: int|
        0 <= y < before[x]@.len() ==> paints(x, y, #[trigger] after.flatten()[x]@[y])) by {
        let i = band_of_row(total, workers, x);
        lemma_bands_cover_disjointly(total, workers, x, if 0 <= i < workers {
            i
        } else {
            0
        });
        let r = x - band_start(total, workers, i);
        assert(after.flatten()[x] == after[i][r]);
    }
}

impl<const WIDTH: usize, const HEIGHT: usize> FrameBuffer<WIDTH, HEIGHT> {
    /// The buffer's colours as a grid of plain values: `grid()[x][y]` is
    /// the colour in row `x` and column `y`.
    pub open spec fn grid(&self) -> Seq<Seq<Color>> {
        grid_of(self.pixels@)
    }

    /// Whether the buffer has `HEIGHT` rows of `WIDTH` colours each.
    pub open spec fn wf(&self) -> bool {
        &&& self.pixels.len() == HEIGHT
        &&& forall|x: int| 0 <= x < HEIGHT ==> (#[trigger] self.pixels[x]).len() == WIDTH
    }

    /// A buffer of the full size in which every pixel is black.
    pub fn new() -> (fb: Self)
        ensures
            fb.wf(),
            forall|x: int, y: int|
                0 <= x < HEIGHT && 0 <= y < WIDTH ==> fb.grid()[x][y] == (Color { r: 0, g: 0, b: 0 }),
    {
        let mut pixels: Vec<Vec<Color>> = Vec::new();
        let mut x: usize = 0;
        while x < HEIGHT
            invariant
                x <= HEIGHT,
                pixels.len() == x,
                forall|i: int| 0 <= i < x ==> (#[trigger] pixels[i]).len() == WIDTH,
                forall|i: int, j: int|
                    0 <= i < x && 0 <= j < WIDTH ==> (#[trigger] pixels[i][j]) == (Color {
                        r: 0,
                        g: 0,
                        b: 0,
                    }),
            decreases HEIGHT - x,
        {
            let mut row: Vec<Color> = Vec::new();
            let mut y: usize = 0;
            while y < WIDTH
                invariant
                    y <= WIDTH,
                    row.len() == y,
                    forall|j: int| 0 <= j < y ==> (#[trigger] row[j]) == (Color { r: 0, g: 0, b: 0 }),
                decreases WIDTH - y,
            {
                row.push(Color::new(0, 0, 0));
                y = y + 1;
            }
            pixels.push(row);
            x = x + 1;
        }
        FrameBuffer { pixels }
    }

    /// Stores `color` in row `x`, column `y`.
    pub fn set_at(&mut self, x: usize, y: usize, color: Color)
        requires
            x < old(self).pixels.len(),
            y < old(self).pixels[x as int].len(),
        ensures
            final(self).grid() == old(self).grid().update(
                x as int,
                old(self).grid()[x as int].update(y as int, color),
            ),
            old(self).wf() ==> final(self).wf(),
    {
        self.pixels[x][y] = color;
        assert(self.grid() =~= old(self).grid().update(
            x as int,
            old(self).grid()[x as int].update(y as int, color),
        ));
    }

    /// Borrows the `num_rows` rows that start at row `y_start`. What is
    /// written through the band shows in the buffer; the rows before and
    /// behind the band stay as they are.
    pub fn get_slice<'a>(&'a mut self, y_start: usize, num_rows: usize) -> (band:
        FrameBufferSlice<'a>)
        requires
            y_start <= old(self).pixels.len(),
            num_rows <= old(self).pixels.len() - y_start,
        ensures
            band.y == y_start,
            band.pixels@ == old(self).pixels@.subrange(y_start as int, y_start + num_rows),
            final(self).pixels@ == old(self).pixels@.subrange(0, y_start as int)
                + final(band.pixels)@
                + old(self).pixels@.subrange(y_start + num_rows, old(self).pixels.len() as int),
    {
        let all: &mut [Vec<Color>] = self.pixels.as_mut_slice();
        let (_, behind) = all.split_at_mut(y_start);
        let (rows, _) = behind.split_at_mut(num_rows);
        FrameBufferSlice { y: y_start, pixels: rows }
    }

    /// Lends the whole buffer out as one band per worker. Band `i` starts at
    /// row `band_start(.., i)` and holds `band_rows(.., i)` rows. When the
    /// bands end, the buffer holds their rows one band after the other: every
    /// row of the buffer is owned by exactly one band.
    pub fn split_bands<'a>(&'a mut self, workers: usize) -> (bands: Vec<FrameBufferSlice<'a>>)
        requires
            workers > 0,
        ensures
            bands.len() == workers,
            forall|i: int|
                0 <= i < workers ==> (#[trigger] bands[i]).y == band_start(
                    old(self).pixels.len() as int,
                    workers as int,
                    i,
                ) && bands[i].pixels@ == rows_of_band(old(self).pixels@, workers as int, i),
            final(self).pixels@ == Seq::new(workers as nat, |i: int| final(bands[i].pixels)@).flatten(),
    {
        let ghost before = self.pixels@;
        let ghost total = before.len() as int;
        let ghost w = workers as int;
        let plan: Vec<RowBand> = row_bands(self.pixels.len(), workers);
        let mut rest: &mut [Vec<Color>] = self.pixels.as_mut_slice();
        let mut bands: Vec<FrameBufferSlice<'a>> = Vec::new();
        let mut i: usize = 0;
        proof {
            lemma_bands_contiguous(total, w, 0);
            assert(before.subrange(0, total) =~= before);
            assert(Seq::new(0nat, |j: int| final(bands[j].pixels)@).flatten() =~= Seq::<
                Vec<Color>,
            >::empty());
        }
        while i + 1 < workers
            invariant
                0 <= i < workers,
                w == workers,
                total == before.len(),
                is_partition(plan@, total, w),
                bands.len() == i,
                0 <= band_start(total, w, i as int) <= total,
                rest@ == before.subrange(band_start(total, w, i as int), total),
                forall|j: int|
                    0 <= j < i ==> (#[trigger] bands[j]).y == band_start(total, w, j)
                        && bands[j].pixels@ == rows_of_band(before, w, j),
                after_borrow(self.pixels)@ == Seq::new(
                    i as nat,
                    |j: int| final(bands[j].pixels)@,
                ).flatten() + final(rest)@,
            decreases workers - i,
        {
            proof {
                lemma_band_in_range(total, w, i as int);
                lemma_bands_contiguous(total, w, i as int);
            }
            let ghost lent = bands@;
            let band: RowBand = plan[i];
            let (rows, behind) = rest.split_at_mut(band.rows);
            bands.push(FrameBufferSlice { y: band.start, pixels: rows });
            rest = behind;
            proof {
                let done = Seq::new(i as nat, |j: int| final(lent[j].pixels)@);
                let more = Seq::new((i + 1) as nat, |j: int| final(bands[j].pixels)@);
                assert(more =~= done.push(final(bands[i as int].pixels)@));
                done.lemma_flatten_push(final(bands[i as int].pixels)@);
            }
            i = i + 1;
        }
        let ghost lent = bands@;
        let band: RowBand = plan[i];
        proof {
            lemma_band_in_range(total, w, i as int);
            lemma_bands_contiguous(total, w, i as int);
        }
        bands.push(FrameBufferSlice { y: band.start, pixels: rest });
        proof {
            let done = Seq::new(i as nat, |j: int| final(lent[j].pixels)@);
            let more = Seq::new(workers as nat, |j: int| final(bands[j].pixels)@);
            assert(more =~= done.push(final(bands[i as int].pixels)@));
            done.lemma_flatten_push(final(bands[i as int].pixels)@);
        }
        bands
    }

    /// Appends the image header for a buffer of this size to `out`.
    pub fn write_header(out: &mut String)
        ensures
            final(out)@ == old(out)@ + header_text(WIDTH as nat, HEIGHT as nat),
    {
        out.push('P');
        out.push('3');
        out.push('\n');
        push_decimal(out, WIDTH as u64);
        out.push(' ');
        push_decimal(out, HEIGHT as u64);
        out.push('\n');
        out.push('2');
        out.push('5');
        out.push('5');
        out.push('\n');
        assert(out@ =~= old(out)@ + header_text(WIDTH as nat, HEIGHT as nat));
    }

    /// Appends one line per pixel to `out`: the rows from the last to the
    /// first, and each row from its first column to its last.
    pub fn write_pixels(&self, out: &mut String)
        ensures
            final(out)@ == old(out)@ + rows_text(self.grid()),
    {
        let ghost grid = self.grid();
        let mut x: usize = self.pixels.len();
        proof {
            assert(grid.subrange(0, x as int) =~= grid);
        }
        while x > 0
            invariant
                x <= self.pixels.len(),
                grid == self.grid(),
                old(out)@ + rows_text(grid) == out@ + rows_text(grid.subrange(0, x as int)),
            decreases x,
        {
            x = x - 1;
            let row: &Vec<Color> = &self.pixels[x];
            let ghost start = out@;
            let mut y: usize = 0;
            while y < row.len()
                invariant
                    y <= row.len(),
                    out@ == start + row_text(row@.subrange(0, y as int)),
                decreases row.len() - y,
            {
                row[y].write_line(out);
                proof {
                    let upto = row@.subrange(0, y + 1);
                    assert(upto.drop_last() =~= row@.subrange(0, y as int));
                    assert(upto.last() == row[y as int]);
                }
                y = y + 1;
            }
            proof {
                assert(row@.subrange(0, y as int) =~= row@);
                let upto = grid.subrange(0, x + 1);
                assert(upto.drop_last() =~= grid.subrange(0, x as int));
                assert(upto.last() == row@);
                assert(rows_text(upto) == row_text(row@) + rows_text(grid.subrange(0, x as int)));
                assert(out@ + rows_text(grid.subrange(0, x as int)) =~= start + rows_text(upto));
            }
        }
    }

    /// The whole image as text: the header, then the pixel lines.
    pub fn to_ppm(&self) -> (text: String)
        ensures
            text@ == header_text(WIDTH as nat, HEIGHT as nat) + rows_text(self.grid()),
    {
        let mut text = String::new();
        Self::write_header(&mut text);
        self.write_pixels(&mut text);
        text
    }
}

impl<'a> FrameBufferSlice<'a> {
    /// Renders the band: every pixel gets the colour that `shade` gives for
    /// the pixel's row in the whole buffer and for its column. The pixels are
    /// visited row after row, and each row from its first column to its
    /// last. What a pixel gets depends on its place in the buffer alone, not
    /// on the band that holds it.
    pub fn render<F: Fn(usize, usize) -> Color>(self, shade: F)
        requires
            self.y + old(self.pixels)@.len() <= usize::MAX,
            forall|row: usize, column: usize|
                self.y <= row < self.y + old(self.pixels)@.len() && column < old(self.pixels)@[row
                    - self.y]@.len() ==> #[trigger] call_requires(shade, (row, column)),
        ensures
            final(self.pixels)@.len() == old(self.pixels)@.len(),
            forall|r: int|
                0 <= r < old(self.pixels)@.len() ==> (#[trigger] final(self.pixels)@[r])@.len()
                    == old(self.pixels)@[r]@.len(),
            forall|r: int, c: int|
                0 <= r < old(self.pixels)@.len() && 0 <= c < old(self.pixels)@[r]@.len()
                    ==> call_ensures(
                    shade,
                    ((self.y + r) as usize, c as usize),
                    #[trigger] final(self.pixels)@[r]@[c],
                ),
    {
        let FrameBufferSlice { y, pixels } = self;
        let ghost before = pixels@;
        let rows: usize = pixels.len();
        let mut r: usize = 0;
        while r < rows
            invariant
                r <= rows,
                rows == before.len(),
                y + rows <= usize::MAX,
                pixels@.len() == rows,
                forall|i: int| 0 <= i < rows ==> (#[trigger] pixels@[i])@.len() == before[i]@.len(),
                forall|row: usize, column: usize|
                    y <= row < y + rows && column < before[row - y]@.len()
                        ==> #[trigger] call_requires(shade, (row, column)),
                forall|i: int, k: int|
                    0 <= i < r && 0 <= k < before[i]@.len() ==> call_ensures(
                        shade,
                        ((y + i) as usize, k as usize),
                        #[trigger] pixels@[i]@[k],
                    ),
            decreases rows - r,
        {
            let columns: usize = pixels[r].len();
            let mut c: usize = 0;
            while c < columns
                invariant
                    r < rows,
                    c <= columns,
                    rows == before.len(),
                    y + rows <= usize::MAX,
                    pixels@.len() == rows,
                    columns == before[r as int]@.len(),
                    forall|i: int|
                        0 <= i < rows ==> (#[trigger] pixels@[i])@.len() == before[i]@.len(),
                    forall|row: usize, column: usize|
                        y <= row < y + rows && column < before[row - y]@.len()
                            ==> #[trigger] call_requires(shade, (row, column)),
                    forall|i: int, k: int|
                        0 <= i < r && 0 <= k < before[i]@.len() ==> call_ensures(
                            shade,
                            ((y + i) as usize, k as usize),
                            #[trigger] pixels@[i]@[k],
                        ),
                    forall|k: int|
                        0 <= k < c ==> call_ensures(
                            shade,
                            ((y + r) as usize, k as usize),
                            #[trigger] pixels@[r as int]@[k],
                        ),
                decreases columns - c,
            {
                let color = shade(y + r, c);
                pixels[r][c] = color;
                c = c + 1;
            }
            r = r + 1;
        }
    }
}

} // verus!
