use proyecto3::bresenham::{count_steps, LineWalk};

fn walk(x0: i32, y0: i32, x1: i32, y1: i32) -> Vec<(i32, i32)> {
    let mut w = LineWalk::new(x0, y0, x1, y1);
    let mut out = Vec::new();
    loop {
        out.push(w.position());
        if w.finished() {
            break;
        }
        w.advance();
    }
    out
}

fn error_term_stepping(mut x0: i32, mut y0: i32, x1: i32, y1: i32) -> Vec<(i32, i32)> {
    let dx = (x1 - x0).abs();
    let dy = (y1 - y0).abs();
    let sx = if x0 < x1 { 1 } else { -1 };
    let sy = if y0 < y1 { 1 } else { -1 };
    let mut err = dx - dy;
    let mut out = Vec::new();
    loop {
        out.push((x0, y0));
        if x0 == x1 && y0 == y1 {
            break;
        }
        let e2 = 2 * err;
        if e2 > -dy {
            err -= dy;
            x0 += sx;
        }
        if e2 < dx {
            err += dx;
            y0 += sy;
        }
    }
    out
}

#[test]
fn walk_of_a_shallow_line() {
    assert_eq!(walk(0, 0, 5, 3), vec![(0, 0), (1, 1), (2, 1), (3, 2), (4, 2), (5, 3)]);
}

#[test]
fn walk_of_a_steep_line_backwards() {
    assert_eq!(
        walk(2, 7, 0, 0),
        vec![(2, 7), (2, 6), (1, 5), (1, 4), (1, 3), (1, 2), (0, 1), (0, 0)]
    );
}

#[test]
fn a_half_rounds_down() {
    assert_eq!(walk(0, 0, 4, 2), vec![(0, 0), (1, 0), (2, 1), (3, 1), (4, 2)]);
    assert_eq!(walk(0, 0, 2, 4), vec![(0, 0), (0, 1), (1, 2), (1, 3), (2, 4)]);
}

#[test]
fn walk_of_a_single_pixel() {
    let w = LineWalk::new(3, -4, 3, -4);
    assert!(w.finished());
    assert_eq!(w.position(), (3, -4));
    assert_eq!(w.taken(), 0);
}

#[test]
fn walk_of_straight_and_diagonal_lines() {
    assert_eq!(walk(1, 1, 4, 1), vec![(1, 1), (2, 1), (3, 1), (4, 1)]);
    assert_eq!(walk(1, 4, 1, 1), vec![(1, 4), (1, 3), (1, 2), (1, 1)]);
    assert_eq!(walk(0, 0, -3, 3), vec![(0, 0), (-1, 1), (-2, 2), (-3, 3)]);
}

#[test]
fn walk_agrees_with_error_term_stepping() {
    for x0 in -6..=6 {
        for y0 in -6..=6 {
            for x1 in -6..=6 {
                for y1 in -6..=6 {
                    assert_eq!(walk(x0, y0, x1, y1), error_term_stepping(x0, y0, x1, y1));
                }
            }
        }
    }
}

#[test]
fn walk_starts_and_ends_on_the_two_ends() {
    let pixels = walk(-17, 40, 23, -9);
    assert_eq!(pixels[0], (-17, 40));
    assert_eq!(pixels[pixels.len() - 1], (23, -9));
    assert_eq!(pixels.len(), 50);
}

#[test]
fn taken_counts_the_steps() {
    let mut w = LineWalk::new(0, 0, 3, 1);
    assert_eq!(w.taken(), 0);
    w.advance();
    assert_eq!(w.taken(), 1);
    w.advance();
    w.advance();
    assert_eq!(w.taken(), 3);
    assert!(w.finished());
}

#[test]
fn walk_near_the_ends_of_the_number_range() {
    assert_eq!(
        walk(i32::MAX - 3, i32::MIN, i32::MAX, i32::MIN + 2),
        vec![
            (i32::MAX - 3, i32::MIN),
            (i32::MAX - 2, i32::MIN + 1),
            (i32::MAX - 1, i32::MIN + 1),
            (i32::MAX, i32::MIN + 2)
        ]
    );
    let mut w = LineWalk::new(i32::MIN, i32::MAX, i32::MAX, i32::MIN);
    w.advance();
    assert_eq!(w.position(), (i32::MIN + 1, i32::MAX - 1));
}

#[test]
fn count_steps_is_the_larger_distance() {
    assert_eq!(count_steps(0, 0, 5, 3), 5);
    assert_eq!(count_steps(0, 0, -2, 9), 9);
    assert_eq!(count_steps(4, 4, 4, 4), 0);
    assert_eq!(count_steps(i32::MIN, 0, i32::MAX, 0), u32::MAX);
    assert_eq!(count_steps(0, i32::MAX, 0, i32::MIN), u32::MAX);
}
