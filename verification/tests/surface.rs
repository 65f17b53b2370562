use collatz_explorer::canvas::{
    clear_buffer, draw_axes, draw_grid, draw_line, plot, point_xy, VIZ_H, VIZ_W,
};

fn blank() -> Vec<u32> {
    vec![0u32; VIZ_W * VIZ_H]
}

fn lit(buf: &[u32], color: u32) -> Vec<(usize, usize)> {
    let mut out = Vec::new();
    for (i, px) in buf.iter().enumerate() {
        if *px == color {
            out.push((i % VIZ_W, i / VIZ_W));
        }
    }
    out
}

#[test]
fn clear_sets_every_pixel() {
    let mut buf = vec![1u32, 2, 3, 4];
    clear_buffer(&mut buf, 9);
    assert_eq!(buf, vec![9, 9, 9, 9]);
    let mut none: Vec<u32> = Vec::new();
    clear_buffer(&mut none, 9);
    assert!(none.is_empty());
}

#[test]
fn plot_paints_one_pixel() {
    let mut buf = blank();
    plot(3, 2, 7, &mut buf);
    assert_eq!(lit(&buf, 7), vec![(3, 2)]);
    assert_eq!(buf[2 * VIZ_W + 3], 7);
}

#[test]
fn plot_ignores_pixels_off_the_surface() {
    let mut buf = blank();
    plot(-1, 0, 7, &mut buf);
    plot(0, -1, 7, &mut buf);
    plot(VIZ_W as i32, 0, 7, &mut buf);
    plot(0, VIZ_H as i32, 7, &mut buf);
    assert!(lit(&buf, 7).is_empty());
    plot(VIZ_W as i32 - 1, VIZ_H as i32 - 1, 7, &mut buf);
    assert_eq!(lit(&buf, 7), vec![(VIZ_W - 1, VIZ_H - 1)]);
}

#[test]
fn line_of_one_point() {
    let mut buf = blank();
    draw_line(5, 6, 5, 6, 7, &mut buf);
    assert_eq!(lit(&buf, 7), vec![(5, 6)]);
}

#[test]
fn horizontal_vertical_and_diagonal_lines() {
    let mut buf = blank();
    draw_line(2, 1, 5, 1, 7, &mut buf);
    assert_eq!(lit(&buf, 7), vec![(2, 1), (3, 1), (4, 1), (5, 1)]);
    let mut buf = blank();
    draw_line(1, 4, 1, 2, 7, &mut buf);
    assert_eq!(lit(&buf, 7), vec![(1, 2), (1, 3), (1, 4)]);
    let mut buf = blank();
    draw_line(3, 3, 0, 0, 7, &mut buf);
    assert_eq!(lit(&buf, 7), vec![(0, 0), (1, 1), (2, 2), (3, 3)]);
}

#[test]
fn shallow_line_takes_the_nearest_pixels() {
    let mut buf = blank();
    draw_line(0, 0, 5, 2, 7, &mut buf);
    assert_eq!(lit(&buf, 7), vec![(0, 0), (1, 0), (2, 1), (3, 1), (4, 2), (5, 2)]);
}

#[test]
fn steep_line_takes_the_nearest_pixels() {
    let mut buf = blank();
    draw_line(0, 0, 2, 5, 7, &mut buf);
    assert_eq!(lit(&buf, 7), vec![(0, 0), (0, 1), (1, 2), (1, 3), (2, 4), (2, 5)]);
}

#[test]
fn line_halfway_between_two_pixels_goes_one_way() {
    let mut buf = blank();
    draw_line(0, 0, 2, 1, 7, &mut buf);
    assert_eq!(lit(&buf, 7), vec![(0, 0), (1, 1), (2, 1)]);
    let mut buf = blank();
    draw_line(0, 0, 1, 2, 7, &mut buf);
    assert_eq!(lit(&buf, 7), vec![(0, 0), (1, 1), (1, 2)]);
}

#[test]
fn line_leaving_the_surface_is_cut() {
    let mut buf = blank();
    draw_line(-2, 0, 2, 0, 7, &mut buf);
    assert_eq!(lit(&buf, 7), vec![(0, 0), (1, 0), (2, 0)]);
    let mut buf = blank();
    draw_line(497, 499, 502, 499, 7, &mut buf);
    assert_eq!(lit(&buf, 7), vec![(497, 499), (498, 499), (499, 499)]);
}

#[test]
fn line_keeps_other_pixels() {
    let mut buf = vec![3u32; VIZ_W * VIZ_H];
    draw_line(10, 10, 20, 15, 7, &mut buf);
    assert_eq!(lit(&buf, 7).len(), 11);
    assert_eq!(lit(&buf, 3).len(), VIZ_W * VIZ_H - 11);
}

#[test]
fn grid_paints_every_fiftieth_row_and_column() {
    let mut buf = blank();
    draw_grid(&mut buf, 50, 7);
    for y in 0..VIZ_H {
        for x in 0..VIZ_W {
            let on = x % 50 == 0 || y % 50 == 0;
            assert_eq!(buf[y * VIZ_W + x] == 7, on, "{} {}", x, y);
        }
    }
}

#[test]
fn grid_spacing_of_zero_counts_as_one() {
    let mut buf = blank();
    draw_grid(&mut buf, 0, 7);
    assert!(buf.iter().all(|px| *px == 7));
}

#[test]
fn grid_spacing_wider_than_the_surface() {
    let mut buf = blank();
    draw_grid(&mut buf, usize::MAX, 7);
    for y in 0..VIZ_H {
        for x in 0..VIZ_W {
            assert_eq!(buf[y * VIZ_W + x] == 7, x == 0 || y == 0);
        }
    }
}

#[test]
fn axes_run_along_the_bottom_and_the_left() {
    let mut buf = blank();
    draw_axes(&mut buf, 10, 7);
    for y in 0..VIZ_H {
        for x in 0..VIZ_W {
            let on = (y == 490 && (10..=490).contains(&x)) || (x == 10 && (10..=490).contains(&y));
            assert_eq!(buf[y * VIZ_W + x] == 7, on, "{} {}", x, y);
        }
    }
}

#[test]
fn axes_with_too_much_padding_are_empty() {
    let mut buf = blank();
    draw_axes(&mut buf, 300, 7);
    assert!(lit(&buf, 7).is_empty());
    draw_axes(&mut buf, 250, 7);
    assert_eq!(lit(&buf, 7), vec![(250, 250)]);
}

#[test]
fn points_spread_over_the_plot() {
    // 5 samples on a plot of 480 by 480 that starts 10 pixels in
    assert_eq!(point_xy(0, 0, 5, 8, 480, 480, 10), (10, 489));
    assert_eq!(point_xy(4, 8, 5, 8, 480, 480, 10), (489, 10));
    assert_eq!(point_xy(2, 4, 5, 8, 480, 480, 10), (10 + 2 * 479 / 4, 10 + 479 - 4 * 479 / 8));
    assert_eq!(point_xy(1, 3, 5, 8, 480, 480, 10), (129, 310));
}

#[test]
fn points_of_degenerate_plots() {
    // one sample, no scale, no room
    assert_eq!(point_xy(0, 5, 1, 0, 480, 480, 10), (10, 10));
    assert_eq!(point_xy(0, 0, 0, 0, 0, 0, 0), (0, 0));
    assert_eq!(point_xy(3, 1, 2, 1, 1, 1, 7), (7, 7));
}

#[test]
fn points_are_held_on_the_surface() {
    assert_eq!(point_xy(9, 0, 2, 1, 480, 480, 10), (499, 489));
    assert_eq!(point_xy(0, 0, 2, 1, 480, 2000, 10), (10, 499));
    assert_eq!(point_xy(usize::MAX, usize::MAX, 2, 1, 480, 480, 0), (499, 0));
}
