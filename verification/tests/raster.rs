use velvet::raster::{count_painted_pixels, draw_text_line, draw_text_wrapped, fill_rect, pack_rgb, wrap_rows_fit};

const BG: u32 = 0;
const INK: u32 = 0x00FF_FFFF;

#[test]
fn pack_rgb_layout() {
    assert_eq!(pack_rgb(8, 6, 14), 0x0008_060E);
    assert_eq!(pack_rgb(255, 0, 1), 0x00FF_0001);
}

#[test]
fn fill_rect_clips_to_surface() {
    let mut buf = vec![BG; 12];
    fill_rect(&mut buf, 4, 3, 1, 1, 3, 2, 7);
    assert_eq!(buf, vec![0, 0, 0, 0, 0, 7, 7, 0, 0, 0, 0, 0]);
    let mut all = vec![BG; 12];
    fill_rect(&mut all, 4, 3, -5, -5, 50, 50, 1);
    assert_eq!(count_painted_pixels(&all, BG), 12);
    let mut none = vec![BG; 12];
    fill_rect(&mut none, 4, 3, 3, 1, 1, 2, 1);
    assert_eq!(count_painted_pixels(&none, BG), 0);
}

#[test]
fn glyph_pixel_counts() {
    let mut buf = vec![BG; 20 * 10];
    draw_text_line(&mut buf, 20, 10, 0, 0, "I", INK, 1);
    assert_eq!(count_painted_pixels(&buf, BG), 11);
    let mut boxed = vec![BG; 20 * 10];
    draw_text_line(&mut boxed, 20, 10, 0, 0, "#", INK, 1);
    assert_eq!(count_painted_pixels(&boxed, BG), 20);
    let mut blank = vec![BG; 20 * 10];
    draw_text_line(&mut blank, 20, 10, 0, 0, " \n", INK, 1);
    assert_eq!(count_painted_pixels(&blank, BG), 0);
}

#[test]
fn accents_fold_to_base_letters() {
    let mut a = vec![BG; 20 * 10];
    let mut b = vec![BG; 20 * 10];
    draw_text_line(&mut a, 20, 10, 0, 0, "é", INK, 1);
    draw_text_line(&mut b, 20, 10, 0, 0, "E", INK, 1);
    assert_eq!(a, b);
}

#[test]
fn scale_multiplies_cells() {
    let mut buf = vec![BG; 40 * 20];
    draw_text_line(&mut buf, 40, 20, 0, 0, "I", INK, 2);
    assert_eq!(count_painted_pixels(&buf, BG), 44);
}

#[test]
fn line_stops_near_right_edge() {
    let mut buf = vec![BG; 20 * 10];
    draw_text_line(&mut buf, 20, 10, 0, 0, "IIII", INK, 1);
    // glyphs at pen 0, 6 and 12; the pen then reaches 18, past 20 - 8.
    assert_eq!(count_painted_pixels(&buf, BG), 33);
}

#[test]
fn wrapped_text_breaks_lines() {
    let mut one = vec![BG; 64 * 40];
    draw_text_wrapped(&mut one, 64, 40, 0, 0, 60, "II II", INK, 1);
    // ten characters fit: a single line
    let painted_rows: Vec<usize> = (0..40).filter(|y| one[y * 64..(y + 1) * 64].iter().any(|p| *p != BG)).collect();
    assert_eq!(painted_rows, (0..7).collect::<Vec<_>>());
    let mut two = vec![BG; 64 * 40];
    draw_text_wrapped(&mut two, 64, 40, 0, 0, 10, "IIII IIII", INK, 1);
    let rows: Vec<usize> = (0..40).filter(|y| two[y * 64..(y + 1) * 64].iter().any(|p| *p != BG)).collect();
    assert_eq!(rows, (0..7).chain(9..16).collect::<Vec<_>>());
    assert_eq!(count_painted_pixels(&two, BG), 88);
}

#[test]
fn long_word_is_split_into_pieces() {
    let mut buf = vec![BG; 64 * 40];
    draw_text_wrapped(&mut buf, 64, 40, 0, 0, 0, "IIIIIIIII", INK, 1);
    // four characters per line: IIII / IIII / I
    assert_eq!(count_painted_pixels(&buf, BG), 99);
}

#[test]
fn filling_twice_equals_filling_once() {
    let mut once = vec![BG; 30];
    fill_rect(&mut once, 6, 5, 1, 1, 4, 3, 9);
    let mut twice = once.clone();
    fill_rect(&mut twice, 6, 5, 1, 1, 4, 3, 9);
    assert_eq!(once, twice);
    assert_eq!(count_painted_pixels(&once, BG), 6);
}

#[test]
fn wrap_rows_fit_follows_the_rows_reached() {
    let long = "ab ".repeat(200_000);
    assert!(wrap_rows_fit(40, 0, 60, &long, 1));
    assert!(wrap_rows_fit(40, i32::MAX - 7, 60, "ab", 1));
    assert!(!wrap_rows_fit(40, i32::MAX - 6, 60, "ab", 1));
    let word = "x".repeat(100);
    assert!(!wrap_rows_fit(40, i32::MAX - 50, 60, &word, 1));
    assert!(wrap_rows_fit(40, 0, 60, "", 1));
}

#[test]
fn long_text_wraps_within_surface() {
    let mut buf = vec![0u32; 64 * 40];
    let long = "II ".repeat(100_000);
    draw_text_wrapped(&mut buf, 64, 40, 0, 0, 60, &long, INK, 1);
    assert!(buf.iter().any(|&p| p == INK));
}
