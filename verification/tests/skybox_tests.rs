use proyecto3::screen::{HEIGHT, WIDTH};
use proyecto3::skybox::{lcg_step, render_skybox, STAR_COUNT, STAR_SEED};

#[test]
fn generator_constants() {
    assert_eq!(STAR_COUNT, 800);
    assert_eq!(STAR_SEED, 12345);
}

#[test]
fn lcg_step_is_the_congruence_modulo_two_to_the_32() {
    assert_eq!(lcg_step(0), 12345);
    assert_eq!(lcg_step(1), 1103527590);
    assert_eq!(lcg_step(12345), ((12345u64 * 1103515245 + 12345) % (1u64 << 32)) as u32);
    assert_eq!(lcg_step(u32::MAX), ((u32::MAX as u64 * 1103515245 + 12345) % (1u64 << 32)) as u32);
}

#[test]
fn lcg_step_differs_from_its_argument() {
    assert_ne!(lcg_step(12345), 12345);
}

#[test]
fn the_first_three_stars() {
    let mut buffer = vec![0u32; WIDTH * HEIGHT];
    render_skybox(&mut buffer);
    assert_eq!(buffer[223 * WIDTH + 894], 0xFCFCFC);
    assert_eq!(buffer[346 * WIDTH + 1013], 0xD3D3D3);
    assert_eq!(buffer[161 * WIDTH + 280], 0x969696);
}

#[test]
fn the_starfield_covers_798_pixels_with_greys() {
    let mut buffer = vec![0u32; WIDTH * HEIGHT];
    render_skybox(&mut buffer);
    let lit: Vec<u32> = buffer.iter().copied().filter(|&p| p != 0).collect();
    assert_eq!(lit.len(), 798);
    for p in lit {
        let b = p & 0xFF;
        assert!(b >= 120);
        assert_eq!(p, b * 0x010101);
    }
}

#[test]
fn the_starfield_is_the_same_every_time() {
    let mut a = vec![0u32; WIDTH * HEIGHT];
    let mut b = vec![0xFFu32; WIDTH * HEIGHT];
    render_skybox(&mut a);
    render_skybox(&mut b);
    for i in 0..a.len() {
        if a[i] != 0 {
            assert_eq!(a[i], b[i]);
        } else {
            assert_eq!(b[i], 0xFF);
        }
    }
}

#[test]
fn the_starfield_follows_the_generator() {
    let mut expected = vec![0u32; WIDTH * HEIGHT];
    let mut state = STAR_SEED;
    for _ in 0..STAR_COUNT {
        state = lcg_step(state);
        let x = state as usize % WIDTH;
        state = lcg_step(state);
        let y = state as usize % HEIGHT;
        state = lcg_step(state);
        let b = 120 + state % 136;
        expected[y * WIDTH + x] = (b << 16) | (b << 8) | b;
    }
    assert_eq!(state, 232266713);
    let mut buffer = vec![0u32; WIDTH * HEIGHT];
    render_skybox(&mut buffer);
    assert!(buffer == expected);
}

#[test]
fn stars_beyond_a_short_buffer_are_left_out() {
    let mut buffer = vec![0u32; 206361];
    render_skybox(&mut buffer);
    assert_eq!(buffer[161 * WIDTH + 280], 0x969696);
    let mut full = vec![0u32; WIDTH * HEIGHT];
    render_skybox(&mut full);
    assert!(buffer[..] == full[..206361]);
    let mut empty: Vec<u32> = Vec::new();
    render_skybox(&mut empty);
    assert!(empty.is_empty());
}
