//! The starfield: eight hundred grey pixels scattered by a fixed
//! pseudo-random sequence, the same in every frame.

use vstd::prelude::*;
use vstd::arithmetic::div_mod::lemma_fundamental_div_mod;
use vstd::arithmetic::div_mod::lemma_fundamental_div_mod_converse;
use crate::screen::{HEIGHT, WIDTH};

verus! {

/// Number of stars.
pub const STAR_COUNT: u32 = 800;

/// First state of the generator.
pub const STAR_SEED: u32 = 12345;

/// The state that follows `state` in the generator: a linear congruence
/// modulo 2^32.
pub open spec fn lcg_next(state: u32) -> u32 {
    ((state * 1103515245 + 12345) % 0x1_0000_0000) as u32
}

/// The state of the generator after `n` draws.
pub open spec fn lcg_state(n: nat) -> u32
    decreases n,
{
    if n == 0 {
        STAR_SEED
    } else {
        lcg_next(lcg_state((n - 1) as nat))
    }
}

/// Buffer index of star `k`: its column comes from the first of the star's
/// three draws, its row from the second.
pub open spec fn star_index(k: nat) -> int {
    (lcg_state(3 * k + 2) % (HEIGHT as u32)) * WIDTH + lcg_state(3 * k + 1) % (WIDTH as u32)
}

/// Brightness of star `k`, from the third of its draws: 120 to 255.
pub open spec fn star_brightness(k: nat) -> int {
    120 + lcg_state(3 * k + 3) % 136
}

/// A grey of the given brightness as a packed colour.
pub open spec fn grey(brightness: int) -> int {
    brightness * 65536 + brightness * 256 + brightness
}

/// The buffer after the first `n` stars have been drawn, in order. A star
/// whose index lies beyond the buffer is left out.
pub open spec fn stars_drawn(buffer: Seq<u32>, n: nat) -> Seq<u32>
    decreases n,
{
    if n == 0 {
        buffer
    } else {
        let before = stars_drawn(buffer, (n - 1) as nat);
        let k = (n - 1) as nat;
        if star_index(k) < before.len() {
            before.update(star_index(k), grey(star_brightness(k)) as u32)
        } else {
            before
        }
    }
}

/// One draw of the generator.
pub fn lcg_step(state: u32) -> (next: u32)
    ensures
        next == lcg_next(state),
{
    let product: u32 = state.wrapping_mul(1103515245);
    let next: u32 = product.wrapping_add(12345);
    proof {
        let r: int = 0x1_0000_0000;
        let full: int = state * 1103515245;
        lemma_fundamental_div_mod(full, r);
        assert(product == full % r);
        let q = full / r;
        if product + 12345 > u32::MAX {
            assert(full + 12345 == (q + 1) * r + (product + 12345 - r)) by (nonlinear_arith)
                requires
                    full == r * q + product,
            ;
            lemma_fundamental_div_mod_converse(full + 12345, r, q + 1, product + 12345 - r);
        } else {
            assert(full + 12345 == q * r + (product + 12345)) by (nonlinear_arith)
                requires
                    full == r * q + product,
            ;
            lemma_fundamental_div_mod_converse(full + 12345, r, q, product + 12345);
        }
    }
    next
}

/// Draws the starfield over the buffer. Stars are drawn in order, so where
/// two fall on one pixel the later one shows.
pub fn render_skybox(buffer: &mut Vec<u32>)
    ensures
        final(buffer)@ == stars_drawn(old(buffer)@, STAR_COUNT as nat),
{
    let mut rng_state: u32 = STAR_SEED;
    let mut k: u32 = 0;
    while k < STAR_COUNT
        invariant
            k <= STAR_COUNT,
            rng_state == lcg_state(3 * (k as nat)),
            buffer@ == stars_drawn(old(buffer)@, k as nat),
        decreases STAR_COUNT - k,
    {
        rng_state = lcg_step(rng_state);
        let x: usize = (rng_state % WIDTH as u32) as usize;
        rng_state = lcg_step(rng_state);
        let y: usize = (rng_state % HEIGHT as u32) as usize;
        rng_state = lcg_step(rng_state);
        let brightness: u32 = 120 + rng_state % 136;
        proof {
            let n = k as nat;
            assert(lcg_state(3 * n + 1) == lcg_next(lcg_state(3 * n)));
            assert(lcg_state(3 * n + 2) == lcg_next(lcg_state((3 * n + 1) as nat)));
            assert(lcg_state(3 * n + 3) == lcg_next(lcg_state((3 * n + 2) as nat)));
            assert(3 * (n + 1) == 3 * n + 3);
        }
        let idx: usize = y * WIDTH + x;
        if idx < buffer.len() {
            let packed: u32 = (brightness << 16) | (brightness << 8) | brightness;
            assert(packed == brightness * 65536 + brightness * 256 + brightness) by (bit_vector)
                requires
                    packed == (brightness << 16) | (brightness << 8) | brightness,
                    brightness < 256,
            ;
            buffer[idx] = packed;
        }
        k = k + 1;
    }
}

/// What the starfield can do to a pixel: leave it, or make it a grey of
/// brightness 120 to 255.
pub proof fn lemma_stars_drawn_pixel(buffer: Seq<u32>, n: nat, i: int)
    requires
        0 <= i < buffer.len(),
    ensures
        stars_drawn(buffer, n).len() == buffer.len(),
        stars_drawn(buffer, n)[i] == buffer[i] || exists|k: nat|
            k < n && star_index(k) == i && stars_drawn(buffer, n)[i] == grey(
                #[trigger] star_brightness(k),
            ),
    decreases n,
{
    if n > 0 {
        lemma_stars_drawn_pixel(buffer, (n - 1) as nat, i);
        let k = (n - 1) as nat;
        if star_index(k) == i {
            assert(120 <= star_brightness(k) <= 255);
            assert(stars_drawn(buffer, n)[i] == grey(star_brightness(k)));
        }
    }
}

} // verus!
