use proyecto3::screen::{DEPTH_FLOOR, HEIGHT, WIDTH};
use proyecto3::sphere::{box_area, clamp_box, render_sphere, Fragment};

fn frame() -> (Vec<u32>, Vec<i32>) {
    (vec![0u32; WIDTH * HEIGHT], vec![DEPTH_FLOOR; WIDTH * HEIGHT])
}

fn fragment(depth: i32, color: u32) -> Option<Fragment> {
    Some(Fragment { depth, color })
}

#[test]
fn clamp_box_brings_the_ends_onto_the_screen() {
    let b = clamp_box(-5, 2000, -1, 719);
    assert_eq!((b.x_min, b.x_max, b.y_min, b.y_max), (0, 1279, 0, 719));
    let b = clamp_box(10, 20, 30, 40);
    assert_eq!((b.x_min, b.x_max, b.y_min, b.y_max), (10, 20, 30, 40));
    let b = clamp_box(1280, 1300, 720, 800);
    assert_eq!((b.x_min, b.x_max, b.y_min, b.y_max), (1279, 1279, 719, 719));
    let b = clamp_box(i32::MIN, i32::MAX, i32::MIN, i32::MAX);
    assert_eq!((b.x_min, b.x_max, b.y_min, b.y_max), (0, 1279, 0, 719));
}

#[test]
fn box_area_counts_the_pixels() {
    assert_eq!(box_area(&clamp_box(10, 20, 30, 40)), 121);
    assert_eq!(box_area(&clamp_box(0, 1279, 0, 719)), 1280 * 720);
    assert_eq!(box_area(&clamp_box(5, 5, 7, 7)), 1);
    assert_eq!(box_area(&clamp_box(6, 5, 7, 7)), 0);
    assert_eq!(box_area(&clamp_box(5, 6, 8, 7)), 0);
    assert_eq!(box_area(&clamp_box(-9, -3, 0, 4)), 5);
}

#[test]
fn render_sphere_keeps_fragments_row_by_row() {
    let (mut buffer, mut z) = frame();
    let fragments = vec![
        fragment(5, 0x111111),
        None,
        fragment(6, 0x222222),
        fragment(7, 0x333333),
        fragment(8, 0x444444),
        None,
    ];
    render_sphere(&mut buffer, &mut z, 10, 12, 20, 21, &fragments);
    assert_eq!(&buffer[20 * WIDTH + 10..20 * WIDTH + 13], &[0x111111, 0, 0x222222]);
    assert_eq!(&buffer[21 * WIDTH + 10..21 * WIDTH + 13], &[0x333333, 0x444444, 0]);
    assert_eq!(&z[20 * WIDTH + 10..20 * WIDTH + 13], &[5, DEPTH_FLOOR, 6]);
    assert_eq!(&z[21 * WIDTH + 10..21 * WIDTH + 13], &[7, 8, DEPTH_FLOOR]);
    assert_eq!(buffer.iter().filter(|&&p| p != 0).count(), 4);
}

#[test]
fn render_sphere_never_lowers_a_depth() {
    let (mut buffer, mut z) = frame();
    z[0] = 10;
    buffer[0] = 0xAAAAAA;
    z[1] = 10;
    buffer[1] = 0xBBBBBB;
    z[2] = 10;
    buffer[2] = 0xCCCCCC;
    let fragments = vec![fragment(9, 1), fragment(10, 2), fragment(11, 3)];
    render_sphere(&mut buffer, &mut z, 0, 2, 0, 0, &fragments);
    assert_eq!(&buffer[0..3], &[0xAAAAAA, 0xBBBBBB, 3]);
    assert_eq!(&z[0..3], &[10, 10, 11]);
}

#[test]
fn render_sphere_writes_nothing_outside_the_clamped_box() {
    let (mut buffer, mut z) = frame();
    let b = clamp_box(-3, 1, 717, 900);
    assert_eq!((b.x_min, b.x_max, b.y_min, b.y_max), (0, 1, 717, 719));
    let n = box_area(&b);
    assert_eq!(n, 6);
    let fragments: Vec<Option<Fragment>> = (0..n).map(|k| fragment(k as i32, 0xF0 + k as u32)).collect();
    render_sphere(&mut buffer, &mut z, -3, 1, 717, 900, &fragments);
    for y in 0..HEIGHT {
        for x in 0..WIDTH {
            let inside = x <= 1 && y >= 717;
            let i = y * WIDTH + x;
            if inside {
                let slot = (y - 717) * 2 + x;
                assert_eq!(buffer[i], 0xF0 + slot as u32);
                assert_eq!(z[i], slot as i32);
            } else {
                assert_eq!(buffer[i], 0);
                assert_eq!(z[i], DEPTH_FLOOR);
            }
        }
    }
}

#[test]
fn render_sphere_with_an_empty_box_changes_nothing() {
    let (mut buffer, mut z) = frame();
    render_sphere(&mut buffer, &mut z, 30, 20, 5, 9, &Vec::new());
    render_sphere(&mut buffer, &mut z, 20, 30, 9, 5, &Vec::new());
    assert!(buffer.iter().all(|&p| p == 0));
    assert!(z.iter().all(|&d| d == DEPTH_FLOOR));
}

#[test]
fn render_sphere_on_short_buffers_skips_the_rest() {
    let mut buffer = vec![0u32; WIDTH + 2];
    let mut z = vec![DEPTH_FLOOR; WIDTH + 1];
    let fragments = vec![fragment(1, 7); 6];
    render_sphere(&mut buffer, &mut z, 0, 1, 0, 2, &fragments);
    assert_eq!(&buffer[0..2], &[7, 7]);
    assert_eq!(buffer[WIDTH], 7);
    assert_eq!(buffer[WIDTH + 1], 0);
    assert_eq!(z[WIDTH], 1);
}

#[test]
fn a_second_sphere_shows_only_where_it_is_nearer() {
    let (mut buffer, mut z) = frame();
    render_sphere(&mut buffer, &mut z, 0, 2, 0, 0, &vec![fragment(5, 1); 3]);
    let second = vec![fragment(4, 2), fragment(5, 2), fragment(6, 2)];
    render_sphere(&mut buffer, &mut z, 0, 2, 0, 0, &second);
    assert_eq!(&buffer[0..3], &[1, 1, 2]);
    assert_eq!(&z[0..3], &[5, 5, 6]);
}

#[test]
fn render_sphere_with_too_few_fragments_fills_what_it_has() {
    let (mut buffer, mut z) = frame();
    render_sphere(&mut buffer, &mut z, 0, 1, 0, 1, &vec![fragment(1, 5), fragment(1, 6), fragment(1, 7)]);
    assert_eq!(&buffer[0..2], &[5, 6]);
    assert_eq!(&buffer[WIDTH..WIDTH + 2], &[7, 0]);
    render_sphere(&mut buffer, &mut z, 4, 5, 0, 0, &vec![fragment(1, 5), fragment(1, 6), fragment(1, 7)]);
    assert_eq!(&buffer[4..7], &[5, 6, 0]);
}
