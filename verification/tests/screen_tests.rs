use proyecto3::line::{draw_line, step_divisor};
use proyecto3::orbit::{render_orbit, ORBIT_SEGMENTS};
use proyecto3::screen::{clear_buffers, plot, ScreenPoint, DEPTH_FLOOR, HEIGHT, WIDTH};

fn frame() -> (Vec<u32>, Vec<i32>) {
    (vec![0u32; WIDTH * HEIGHT], vec![DEPTH_FLOOR; WIDTH * HEIGHT])
}

#[test]
fn screen_is_1280_by_720() {
    assert_eq!(WIDTH, 1280);
    assert_eq!(HEIGHT, 720);
    assert_eq!(DEPTH_FLOOR, i32::MIN);
    assert_eq!(ORBIT_SEGMENTS, 150);
}

#[test]
fn plot_keeps_a_strictly_greater_depth() {
    let (mut buffer, mut z) = frame();
    plot(&mut buffer, &mut z, 3, 2, 10, 0xABCDEF);
    assert_eq!(buffer[2 * WIDTH + 3], 0xABCDEF);
    assert_eq!(z[2 * WIDTH + 3], 10);
    plot(&mut buffer, &mut z, 3, 2, 10, 0x111111);
    assert_eq!(buffer[2 * WIDTH + 3], 0xABCDEF);
    assert_eq!(z[2 * WIDTH + 3], 10);
    plot(&mut buffer, &mut z, 3, 2, 9, 0x222222);
    assert_eq!(buffer[2 * WIDTH + 3], 0xABCDEF);
    plot(&mut buffer, &mut z, 3, 2, 11, 0x333333);
    assert_eq!(buffer[2 * WIDTH + 3], 0x333333);
    assert_eq!(z[2 * WIDTH + 3], 11);
}

#[test]
fn plot_never_keeps_the_floor_depth() {
    let (mut buffer, mut z) = frame();
    plot(&mut buffer, &mut z, 0, 0, DEPTH_FLOOR, 0xFFFFFF);
    assert_eq!(buffer[0], 0);
    assert_eq!(z[0], DEPTH_FLOOR);
}

#[test]
fn plot_skips_what_is_off_the_screen() {
    let (mut buffer, mut z) = frame();
    plot(&mut buffer, &mut z, -1, 0, 5, 1);
    plot(&mut buffer, &mut z, 0, -1, 5, 1);
    plot(&mut buffer, &mut z, 1280, 0, 5, 1);
    plot(&mut buffer, &mut z, 0, 720, 5, 1);
    assert!(buffer.iter().all(|&p| p == 0));
    assert!(z.iter().all(|&d| d == DEPTH_FLOOR));
    plot(&mut buffer, &mut z, 1279, 719, 5, 1);
    assert_eq!(buffer[WIDTH * HEIGHT - 1], 1);
}

#[test]
fn plot_skips_what_lies_beyond_a_short_buffer() {
    let mut buffer = vec![0u32; 10];
    let mut z = vec![DEPTH_FLOOR; 5];
    plot(&mut buffer, &mut z, 7, 0, 3, 9);
    assert_eq!(buffer, vec![0u32; 10]);
    assert_eq!(z, vec![DEPTH_FLOOR; 5]);
    plot(&mut buffer, &mut z, 4, 0, 3, 9);
    assert_eq!(buffer[4], 9);
    assert_eq!(z[4], 3);
    plot(&mut buffer, &mut z, 0, 1, 3, 9);
    assert_eq!(buffer.iter().filter(|&&p| p != 0).count(), 1);
}

#[test]
fn clear_buffers_resets_colour_and_depth() {
    let mut buffer = vec![7u32; 12];
    let mut z = vec![3i32; 9];
    clear_buffers(&mut buffer, &mut z);
    assert_eq!(buffer, vec![0u32; 12]);
    assert_eq!(z, vec![DEPTH_FLOOR; 9]);
}

#[test]
fn clear_buffers_on_empty_buffers() {
    let mut buffer: Vec<u32> = Vec::new();
    let mut z: Vec<i32> = Vec::new();
    clear_buffers(&mut buffer, &mut z);
    assert!(buffer.is_empty());
    assert!(z.is_empty());
}

#[test]
fn draw_line_plots_every_pixel_with_its_depth() {
    let (mut buffer, mut z) = frame();
    draw_line(&mut buffer, &mut z, 0, 0, 5, 3, &vec![1, 2, 3, 4, 5, 6], 0xFF3030);
    let expected = [(0, 0), (1, 1), (2, 1), (3, 2), (4, 2), (5, 3)];
    for (k, (x, y)) in expected.iter().enumerate() {
        assert_eq!(buffer[y * WIDTH + x], 0xFF3030);
        assert_eq!(z[y * WIDTH + x], k as i32 + 1);
    }
    assert_eq!(buffer.iter().filter(|&&p| p != 0).count(), 6);
    assert_eq!(z.iter().filter(|&&d| d != DEPTH_FLOOR).count(), 6);
}

#[test]
fn draw_line_loses_where_the_stored_depth_is_not_smaller() {
    let (mut buffer, mut z) = frame();
    z[2] = 5;
    buffer[2] = 0x123456;
    z[3] = 4;
    buffer[3] = 0x654321;
    draw_line(&mut buffer, &mut z, 0, 0, 4, 0, &vec![5, 5, 5, 5, 5], 0xFFFFFF);
    assert_eq!(&buffer[0..5], &[0xFFFFFF, 0xFFFFFF, 0x123456, 0xFFFFFF, 0xFFFFFF]);
    assert_eq!(&z[0..5], &[5, 5, 5, 5, 5]);
}

#[test]
fn draw_line_skips_pixels_off_the_screen() {
    let (mut buffer, mut z) = frame();
    draw_line(&mut buffer, &mut z, -2, 1, 2, 1, &vec![10, 11, 12, 13, 14], 7);
    assert_eq!(&buffer[WIDTH..WIDTH + 4], &[7, 7, 7, 0]);
    assert_eq!(&z[WIDTH..WIDTH + 4], &[12, 13, 14, DEPTH_FLOOR]);
    assert_eq!(buffer.iter().filter(|&&p| p != 0).count(), 3);
    draw_line(&mut buffer, &mut z, 1278, 719, 1281, 719, &vec![1, 1, 1, 1], 9);
    assert_eq!(buffer[WIDTH * HEIGHT - 2], 9);
    assert_eq!(buffer[WIDTH * HEIGHT - 1], 9);
    assert_eq!(buffer.iter().filter(|&&p| p == 9).count(), 2);
}

#[test]
fn draw_line_of_one_pixel() {
    let (mut buffer, mut z) = frame();
    draw_line(&mut buffer, &mut z, 4, 4, 4, 4, &vec![0], 0xA0A0A0);
    assert_eq!(buffer[4 * WIDTH + 4], 0xA0A0A0);
    assert_eq!(z[4 * WIDTH + 4], 0);
}

#[test]
fn draw_line_wholly_off_the_screen_changes_nothing() {
    let (mut buffer, mut z) = frame();
    draw_line(&mut buffer, &mut z, -5, -5, -1, -3, &vec![9, 9, 9, 9, 9], 1);
    assert!(buffer.iter().all(|&p| p == 0));
    assert!(z.iter().all(|&d| d == DEPTH_FLOOR));
}

#[test]
fn draw_line_on_short_buffers_skips_the_rest() {
    let mut buffer = vec![0u32; 3];
    let mut z = vec![DEPTH_FLOOR; 3];
    draw_line(&mut buffer, &mut z, 0, 0, 5, 0, &vec![1, 1, 1, 1, 1, 1], 4);
    assert_eq!(buffer, vec![4, 4, 4]);
    assert_eq!(z, vec![1, 1, 1]);
}

#[test]
fn later_lines_win_only_by_depth() {
    let (mut buffer, mut z) = frame();
    draw_line(&mut buffer, &mut z, 0, 0, 2, 0, &vec![5, 5, 5], 1);
    draw_line(&mut buffer, &mut z, 1, 0, 1, 2, &vec![4, 6, 6], 2);
    assert_eq!(buffer[1], 1);
    assert_eq!(buffer[WIDTH + 1], 2);
    draw_line(&mut buffer, &mut z, 1, 0, 1, 0, &vec![6], 3);
    assert_eq!(buffer[1], 3);
}

#[test]
fn render_orbit_colours_the_points_on_the_screen() {
    let mut buffer = vec![0u32; WIDTH * HEIGHT];
    let points = vec![
        Some(ScreenPoint { x: 0, y: 0 }),
        None,
        Some(ScreenPoint { x: 1279, y: 719 }),
        Some(ScreenPoint { x: -1, y: 5 }),
        Some(ScreenPoint { x: 5, y: 720 }),
        Some(ScreenPoint { x: 1280, y: 0 }),
        Some(ScreenPoint { x: 10, y: 3 }),
        Some(ScreenPoint { x: 10, y: 3 }),
    ];
    render_orbit(&mut buffer, &points, 0x505050);
    assert_eq!(buffer[0], 0x505050);
    assert_eq!(buffer[WIDTH * HEIGHT - 1], 0x505050);
    assert_eq!(buffer[3 * WIDTH + 10], 0x505050);
    assert_eq!(buffer.iter().filter(|&&p| p != 0).count(), 3);
}

#[test]
fn render_orbit_overwrites_whatever_was_there() {
    let mut buffer = vec![0xFFFFFFu32; WIDTH * HEIGHT];
    render_orbit(&mut buffer, &vec![Some(ScreenPoint { x: 2, y: 1 })], 0x505050);
    assert_eq!(buffer[WIDTH + 2], 0x505050);
    assert_eq!(buffer.iter().filter(|&&p| p != 0xFFFFFF).count(), 1);
}

#[test]
fn render_orbit_without_points_or_with_a_short_buffer() {
    let mut buffer = vec![1u32; 4];
    render_orbit(&mut buffer, &Vec::new(), 9);
    assert_eq!(buffer, vec![1, 1, 1, 1]);
    let points = vec![Some(ScreenPoint { x: 3, y: 0 }), Some(ScreenPoint { x: 4, y: 0 })];
    render_orbit(&mut buffer, &points, 9);
    assert_eq!(buffer, vec![1, 1, 1, 9]);
}

#[test]
fn draw_line_skips_pixels_without_a_depth() {
    let (mut buffer, mut z) = frame();
    draw_line(&mut buffer, &mut z, 0, 0, 4, 0, &vec![3, 3], 8);
    assert_eq!(&buffer[0..5], &[8, 8, 0, 0, 0]);
    assert_eq!(&z[0..3], &[3, 3, DEPTH_FLOOR]);
    draw_line(&mut buffer, &mut z, 0, 1, 4, 1, &Vec::new(), 8);
    assert_eq!(buffer.iter().filter(|&&p| p != 0).count(), 2);
    draw_line(&mut buffer, &mut z, 0, 2, 1, 2, &vec![1, 1, 1, 1, 1], 8);
    assert_eq!(buffer.iter().filter(|&&p| p != 0).count(), 4);
}

#[test]
fn step_divisor_is_the_step_count_or_one() {
    assert_eq!(step_divisor(0, 0, 5, 3), 5);
    assert_eq!(step_divisor(0, 0, 0, -7), 7);
    assert_eq!(step_divisor(2, 2, 2, 2), 1);
    assert_eq!(step_divisor(2, 2, 3, 2), 1);
    assert_eq!(step_divisor(i32::MIN, 0, i32::MAX, 0), u32::MAX);
}
