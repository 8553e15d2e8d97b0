use pathtracer::color::Color;
use pathtracer::framebuffer::FrameBuffer;

const BLACK: Color = Color { r: 0, g: 0, b: 0 };

fn shade(row: usize, column: usize) -> Color {
    Color::new((row * 16 + column) as u8, (row * 3) as u8, (column * 5) as u8)
}

fn render_with<const W: usize, const H: usize>(workers: usize) -> FrameBuffer<W, H> {
    let mut fb = FrameBuffer::<W, H>::new();
    for band in fb.split_bands(workers) {
        band.render(shade);
    }
    fb
}

#[test]
fn new_buffer_is_black_and_of_full_size() {
    let fb = FrameBuffer::<4, 3>::new();
    assert_eq!(fb.pixels.len(), 3);
    for row in &fb.pixels {
        assert_eq!(row.len(), 4);
        for pixel in row {
            assert_eq!(*pixel, BLACK);
        }
    }
}

#[test]
fn empty_buffer_has_no_rows() {
    let fb = FrameBuffer::<0, 0>::new();
    assert!(fb.pixels.is_empty());
    assert_eq!(fb.to_ppm(), "P3\n0 0\n255\n");
}

#[test]
fn set_at_changes_one_pixel() {
    let mut fb = FrameBuffer::<3, 2>::new();
    fb.set_at(1, 2, Color::new(9, 8, 7));
    for x in 0..2 {
        for y in 0..3 {
            let expected = if (x, y) == (1, 2) { Color::new(9, 8, 7) } else { BLACK };
            assert_eq!(fb.pixels[x][y], expected);
        }
    }
}

#[test]
fn get_slice_borrows_the_rows_asked_for() {
    let mut fb = FrameBuffer::<2, 5>::new();
    for x in 0..5 {
        fb.set_at(x, 0, Color::new(x as u8, 0, 0));
    }
    let band = fb.get_slice(1, 3);
    assert_eq!(band.y, 1);
    assert_eq!(band.pixels.len(), 3);
    assert_eq!(band.pixels[0][0], Color::new(1, 0, 0));
    assert_eq!(band.pixels[2][0], Color::new(3, 0, 0));
}

#[test]
fn writes_through_a_slice_reach_the_buffer() {
    let mut fb = FrameBuffer::<2, 4>::new();
    let band = fb.get_slice(2, 2);
    band.pixels[0][1] = Color::new(1, 1, 1);
    band.pixels[1][0] = Color::new(2, 2, 2);
    assert_eq!(fb.pixels[2][1], Color::new(1, 1, 1));
    assert_eq!(fb.pixels[3][0], Color::new(2, 2, 2));
    assert_eq!(fb.pixels[0][0], BLACK);
    assert_eq!(fb.pixels[1][1], BLACK);
    assert_eq!(fb.pixels[2][0], BLACK);
}

#[test]
fn get_slice_of_no_rows_and_of_all_rows() {
    let mut fb = FrameBuffer::<1, 3>::new();
    assert_eq!(fb.get_slice(3, 0).pixels.len(), 0);
    assert_eq!(fb.get_slice(0, 0).pixels.len(), 0);
    let all = fb.get_slice(0, 3);
    assert_eq!(all.y, 0);
    assert_eq!(all.pixels.len(), 3);
}

#[test]
fn split_bands_gives_one_band_per_worker() {
    let mut fb = FrameBuffer::<2, 10>::new();
    let bands = fb.split_bands(3);
    assert_eq!(bands.len(), 3);
    assert_eq!((bands[0].y, bands[0].pixels.len()), (0, 3));
    assert_eq!((bands[1].y, bands[1].pixels.len()), (3, 3));
    assert_eq!((bands[2].y, bands[2].pixels.len()), (6, 4));
}

#[test]
fn split_bands_with_more_workers_than_rows() {
    let mut fb = FrameBuffer::<2, 2>::new();
    let bands = fb.split_bands(4);
    assert_eq!(bands.len(), 4);
    for band in &bands[..3] {
        assert_eq!((band.y, band.pixels.len()), (0, 0));
    }
    assert_eq!((bands[3].y, bands[3].pixels.len()), (0, 2));
}

#[test]
fn render_is_the_same_for_any_number_of_workers() {
    let single = render_with::<5, 7>(1);
    for x in 0..7 {
        for y in 0..5 {
            assert_eq!(single.pixels[x][y], shade(x, y));
        }
    }
    for workers in 2..12 {
        let shared = render_with::<5, 7>(workers);
        assert_eq!(shared.pixels, single.pixels);
        assert_eq!(shared.to_ppm(), single.to_ppm());
    }
}

#[test]
fn render_visits_the_band_row_by_row() {
    let mut fb = FrameBuffer::<3, 4>::new();
    let visited = std::cell::RefCell::new(Vec::new());
    fb.get_slice(1, 2).render(|row, column| {
        visited.borrow_mut().push((row, column));
        Color::new(row as u8, column as u8, 9)
    });
    assert_eq!(visited.into_inner(), vec![(1, 0), (1, 1), (1, 2), (2, 0), (2, 1), (2, 2)]);
    for x in 0..4 {
        for y in 0..3 {
            let expected = if x == 1 || x == 2 { Color::new(x as u8, y as u8, 9) } else { BLACK };
            assert_eq!(fb.pixels[x][y], expected);
        }
    }
}

#[test]
fn writes_through_bands_reach_the_buffer() {
    let mut fb = FrameBuffer::<1, 5>::new();
    for band in fb.split_bands(2) {
        let start = band.y;
        for (r, row) in band.pixels.iter_mut().enumerate() {
            row[0] = Color::new((start + r) as u8, start as u8, 0);
        }
    }
    let firsts: Vec<Color> = fb.pixels.iter().map(|row| row[0]).collect();
    assert_eq!(
        firsts,
        vec![
            Color::new(0, 0, 0),
            Color::new(1, 0, 0),
            Color::new(2, 2, 0),
            Color::new(3, 2, 0),
            Color::new(4, 2, 0),
        ]
    );
}

#[test]
fn header_names_width_then_height() {
    let mut out = String::new();
    FrameBuffer::<1280, 720>::write_header(&mut out);
    assert_eq!(out, "P3\n1280 720\n255\n");
}

#[test]
fn pixel_lines_run_from_the_last_row_to_the_first() {
    let mut fb = FrameBuffer::<2, 2>::new();
    fb.set_at(0, 0, Color::new(1, 2, 3));
    fb.set_at(0, 1, Color::new(4, 5, 6));
    fb.set_at(1, 0, Color::new(7, 8, 9));
    fb.set_at(1, 1, Color::new(10, 11, 12));
    let mut out = String::new();
    fb.write_pixels(&mut out);
    assert_eq!(out, "7 8 9\n10 11 12\n1 2 3\n4 5 6\n");
}

#[test]
fn two_by_two_image_as_text() {
    let mut fb = FrameBuffer::<2, 2>::new();
    fb.set_at(0, 0, Color::new(255, 255, 255));
    fb.set_at(0, 1, Color::new(191, 216, 255));
    fb.set_at(1, 0, Color::new(128, 179, 255));
    fb.set_at(1, 1, Color::new(0, 0, 0));
    assert_eq!(
        fb.to_ppm(),
        "P3\n2 2\n255\n128 179 255\n0 0 0\n255 255 255\n191 216 255\n"
    );
}

#[test]
fn image_text_has_one_line_per_pixel_behind_the_header() {
    let fb = FrameBuffer::<3, 4>::new();
    let text = fb.to_ppm();
    let lines: Vec<&str> = text.lines().collect();
    assert_eq!(lines.len(), 3 + 3 * 4);
    assert_eq!(&lines[..3], &["P3", "3 4", "255"]);
    for line in &lines[3..] {
        assert_eq!(*line, "0 0 0");
    }
    assert!(text.ends_with('\n'));
}
