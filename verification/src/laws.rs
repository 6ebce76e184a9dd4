//! The laws the machine obeys, stated over the step semantics and proved
//! once and for all: what single opcodes do to registers, the call/return
//! and bulk store/load round trips, what a sprite draw does pixel by pixel,
//! XOR self-cancellation, clipping, halting on a self-jump, and the
//! determinism of the random opcode in its seed.

use vstd::prelude::*;

use crate::opcode::{lemma_nib_bounds, spec_decode, Instr};
use crate::semantics::{
    spec_draw_row_bits, spec_draw_rows, spec_fb_index, spec_hi_byte, spec_lo_byte, spec_low_byte,
    spec_px_lit, spec_px_mask, spec_run, spec_step, spec_wf, spec_xorshift, Chip8View, RunResult,
    StepResult, MEMORY_SIZE, SCREEN_HEIGHT, SCREEN_MEMORY_START, SCREEN_WIDTH,
    STACK_MEMORY_START,
};

verus! {

/// Flipping bit `k` of a byte inverts exactly that bit.
proof fn lemma_mask_flip_same(a: u8, k: u8)
    requires
        k < 8,
    ensures
        ((a ^ (1u8 << k)) & (1u8 << k) != 0) == (a & (1u8 << k) == 0),
{
    assert(((a ^ (1u8 << k)) & (1u8 << k) != 0) == (a & (1u8 << k) == 0)) by (bit_vector)
        requires
            k < 8,
    ;
}

/// Flipping bit `k` of a byte leaves every other bit alone.
proof fn lemma_mask_flip_other(a: u8, k: u8, j: u8)
    requires
        k < 8,
        j < 8,
        j != k,
    ensures
        ((a ^ (1u8 << k)) & (1u8 << j) != 0) == (a & (1u8 << j) != 0),
{
    assert(((a ^ (1u8 << k)) & (1u8 << j) != 0) == (a & (1u8 << j) != 0)) by (bit_vector)
        requires
            k < 8 && j < 8 && j != k,
    ;
}

/// Two bytes that agree on all eight bits are equal.
proof fn lemma_byte_bits_eq(a: u8, b: u8)
    requires
        (a & 0x01 != 0) == (b & 0x01 != 0),
        (a & 0x02 != 0) == (b & 0x02 != 0),
        (a & 0x04 != 0) == (b & 0x04 != 0),
        (a & 0x08 != 0) == (b & 0x08 != 0),
        (a & 0x10 != 0) == (b & 0x10 != 0),
        (a & 0x20 != 0) == (b & 0x20 != 0),
        (a & 0x40 != 0) == (b & 0x40 != 0),
        (a & 0x80 != 0) == (b & 0x80 != 0),
    ensures
        a == b,
{
    assert(a == b) by (bit_vector)
        requires
            (a & 0x01 != 0) == (b & 0x01 != 0),
            (a & 0x02 != 0) == (b & 0x02 != 0),
            (a & 0x04 != 0) == (b & 0x04 != 0),
            (a & 0x08 != 0) == (b & 0x08 != 0),
            (a & 0x10 != 0) == (b & 0x10 != 0),
            (a & 0x20 != 0) == (b & 0x20 != 0),
            (a & 0x40 != 0) == (b & 0x40 != 0),
            (a & 0x80 != 0) == (b & 0x80 != 0),
    ;
}

/// Splitting an address into a multiple of eight plus a remainder.
proof fn lemma_div8(q: int, r: int)
    requires
        0 <= q,
        0 <= r < 8,
    ensures
        (8 * q + r) / 8 == q,
        (8 * q + r) % 8 == r,
{
    assert((8 * q + r) / 8 == q && (8 * q + r) % 8 == r) by (nonlinear_arith)
        requires
            0 <= q && 0 <= r < 8,
    ;
}

/// Whether drawing the first `j` bits of a sprite row that starts at column
/// `x0` touches (XORs) the pixel in column `cx`: the column is under one of
/// those bits, on screen, and the sprite bit is set.
pub open spec fn spec_row_hit(sprite: u8, x0: int, j: int, cx: int) -> bool {
    &&& x0 <= cx < x0 + j
    &&& cx < SCREEN_WIDTH as int
    &&& sprite & (1u8 << ((7 - (cx - x0)) as u8)) != 0
}

/// Whether a draw of the `n`-row sprite at `base` with top-left corner
/// `(x0, y0)` touches (XORs) the pixel `(cx, cy)`: the pixel is under a set
/// sprite bit and not clipped away.  Row `cy - y0` of the sprite is read
/// from `mem[base + (cy - y0)]`, most-significant bit leftmost.
pub open spec fn spec_sprite_px(
    mem: Seq<u8>,
    x0: int,
    y0: int,
    base: int,
    n: int,
    cx: int,
    cy: int,
) -> bool {
    &&& y0 <= cy < y0 + n
    &&& cy < SCREEN_HEIGHT as int
    &&& x0 <= cx < x0 + 8
    &&& cx < SCREEN_WIDTH as int
    &&& mem[base + (cy - y0)] & (1u8 << ((7 - (cx - x0)) as u8)) != 0
}

/// What drawing one sprite row does, pixel by pixel: pixels under set,
/// unclipped sprite bits are inverted and everything else — other columns,
/// other rows, every byte outside this row's framebuffer bytes — is
/// untouched; the collision flag becomes set exactly when some touched
/// pixel was lit.
proof fn lemma_row_bits_char(mem: Seq<u8>, col: bool, sprite: u8, x0: int, cy: int, j: int)
    requires
        mem.len() == MEMORY_SIZE,
        0 <= x0,
        0 <= cy < SCREEN_HEIGHT as int,
        0 <= j <= 8,
    ensures
        ({
            let r = spec_draw_row_bits(mem, col, sprite, x0, cy, j);
            &&& r.0.len() == mem.len()
            &&& (forall|a: int|
                0 <= a < MEMORY_SIZE as int && !(SCREEN_MEMORY_START + 8 * cy <= a
                    < SCREEN_MEMORY_START + 8 * cy + 8) ==> r.0[a] == mem[a])
            &&& (forall|cx: int|
                0 <= cx < SCREEN_WIDTH as int ==> spec_px_lit(r.0, cx, cy) == (spec_px_lit(
                    mem,
                    cx,
                    cy,
                ) != spec_row_hit(sprite, x0, j, cx)))
            &&& r.1 == (col || exists|cx: int|
                #[trigger] spec_row_hit(sprite, x0, j, cx) && spec_px_lit(mem, cx, cy))
        }),
    decreases j,
{
    if j > 0 {
        lemma_row_bits_char(mem, col, sprite, x0, cy, j - 1);
        let rp = spec_draw_row_bits(mem, col, sprite, x0, cy, j - 1);
        let r = spec_draw_row_bits(mem, col, sprite, x0, cy, j);
        let cx = x0 + j - 1;
        if cx < SCREEN_WIDTH as int && sprite & (1u8 << ((8 - j) as u8)) != 0 {
            let idx = spec_fb_index(cx, cy);
            let mask = spec_px_mask(cx);
            assert(0 <= cx / 8 <= 7);
            assert(idx == SCREEN_MEMORY_START + 8 * cy + cx / 8);
            assert(0 <= idx < MEMORY_SIZE as int);
            assert(r.0 == rp.0.update(idx, rp.0[idx] ^ mask));
            assert(r.1 == (rp.1 || rp.0[idx] & mask != 0));
            assert(0 <= 7 - cx % 8 < 8);
            // the step touches exactly pixel (cx, cy)
            assert(spec_row_hit(sprite, x0, j, cx));
            assert(!spec_row_hit(sprite, x0, j - 1, cx));
            // bytes outside this row's range are untouched
            assert forall|a: int|
                0 <= a < MEMORY_SIZE as int && !(SCREEN_MEMORY_START + 8 * cy <= a
                    < SCREEN_MEMORY_START + 8 * cy + 8) implies r.0[a] == mem[a] by {
                assert(a != idx);
                assert(r.0[a] == rp.0[a]);
            }
            // pixel (cx, cy) flips
            lemma_mask_flip_same(rp.0[idx], (7 - cx % 8) as u8);
            assert(spec_px_lit(r.0, cx, cy) == !spec_px_lit(rp.0, cx, cy));
            assert(spec_px_lit(rp.0, cx, cy) == spec_px_lit(mem, cx, cy));
            // all other pixels keep their value
            assert forall|cx2: int| 0 <= cx2 < SCREEN_WIDTH as int && cx2 != cx implies spec_px_lit(
                r.0,
                cx2,
                cy,
            ) == spec_px_lit(rp.0, cx2, cy) by {
                let idx2 = spec_fb_index(cx2, cy);
                assert(0 <= cx2 / 8 <= 7);
                if idx2 == idx {
                    assert(cx2 / 8 == cx / 8);
                    assert(cx2 == 8 * (cx2 / 8) + cx2 % 8);
                    assert(cx == 8 * (cx / 8) + cx % 8);
                    assert(cx2 % 8 != cx % 8);
                    assert(0 <= 7 - cx2 % 8 < 8);
                    lemma_mask_flip_other(rp.0[idx], (7 - cx % 8) as u8, (7 - cx2 % 8) as u8);
                } else {
                    assert(r.0[idx2] == rp.0[idx2]);
                }
            }
            assert forall|cx2: int| 0 <= cx2 < SCREEN_WIDTH as int implies spec_px_lit(r.0, cx2, cy)
                == (spec_px_lit(mem, cx2, cy) != spec_row_hit(sprite, x0, j, cx2)) by {
                if cx2 != cx {
                    assert(spec_row_hit(sprite, x0, j, cx2) == spec_row_hit(
                        sprite,
                        x0,
                        j - 1,
                        cx2,
                    ));
                }
            }
            // the collision flag accumulates exactly the hits
            assert(rp.0[idx] & mask != 0 == spec_px_lit(rp.0, cx, cy));
            assert(r.1 == (rp.1 || spec_px_lit(mem, cx, cy)));
            if r.1 {
                if rp.1 {
                    if !col {
                        let w = choose|c: int|
                            #[trigger] spec_row_hit(sprite, x0, j - 1, c) && spec_px_lit(
                                mem,
                                c,
                                cy,
                            );
                        assert(spec_row_hit(sprite, x0, j, w) && spec_px_lit(mem, w, cy));
                    }
                } else {
                    assert(spec_row_hit(sprite, x0, j, cx) && spec_px_lit(mem, cx, cy));
                }
            }
            if col || exists|c: int|
                #[trigger] spec_row_hit(sprite, x0, j, c) && spec_px_lit(mem, c, cy) {
                if !col && !rp.1 && !(rp.0[idx] & mask != 0) {
                    let w = choose|c: int|
                        #[trigger] spec_row_hit(sprite, x0, j, c) && spec_px_lit(mem, c, cy);
                    if w != cx {
                        assert(spec_row_hit(sprite, x0, j - 1, w) && spec_px_lit(mem, w, cy));
                    }
                    assert(false);
                }
            }
        } else {
            assert(r == rp);
            assert forall|cx2: int| #[trigger]
                spec_row_hit(sprite, x0, j, cx2) implies spec_row_hit(
                sprite,
                x0,
                j - 1,
                cx2,
            ) by {
                if cx2 == cx {
                    assert(7 - (cx2 - x0) == 8 - j);
                    assert(false);
                }
            }
            assert forall|cx2: int| 0 <= cx2 < SCREEN_WIDTH as int implies spec_px_lit(r.0, cx2, cy)
                == (spec_px_lit(mem, cx2, cy) != spec_row_hit(sprite, x0, j, cx2)) by {
                assert(spec_row_hit(sprite, x0, j, cx2) == spec_row_hit(sprite, x0, j - 1, cx2));
            }
            if r.1 && !col {
                let w = choose|c: int|
                    #[trigger] spec_row_hit(sprite, x0, j - 1, c) && spec_px_lit(mem, c, cy);
                assert(spec_row_hit(sprite, x0, j, w) && spec_px_lit(mem, w, cy));
            }
            if (col || exists|c: int|
                #[trigger] spec_row_hit(sprite, x0, j, c) && spec_px_lit(mem, c, cy)) && !r.1 {
                let w = choose|c: int|
                    #[trigger] spec_row_hit(sprite, x0, j, c) && spec_px_lit(mem, c, cy);
                assert(spec_row_hit(sprite, x0, j - 1, w) && spec_px_lit(mem, w, cy));
                assert(false);
            }
        }
    }
}

/// What a whole sprite draw does, pixel by pixel, provided the sprite bytes
/// lie outside the framebuffer (so no row's pattern is disturbed by the
/// rows drawn before it): every pixel under a set, unclipped sprite bit is
/// inverted, every other pixel and every byte outside the framebuffer is
/// untouched, and the collision flag is set exactly when some touched pixel
/// was already lit.
pub proof fn lemma_draw_rows_char(mem: Seq<u8>, x0: int, y0: int, base: int, k: int)
    requires
        mem.len() == MEMORY_SIZE,
        0 <= x0,
        0 <= y0,
        0 <= k,
        0 <= base,
        base + k <= SCREEN_MEMORY_START as int,
    ensures
        ({
            let r = spec_draw_rows(mem, false, x0, y0, base, k);
            &&& r.0.len() == mem.len()
            &&& (forall|a: int| 0 <= a < SCREEN_MEMORY_START as int ==> r.0[a] == mem[a])
            &&& (forall|cx: int, cy: int|
                0 <= cx < SCREEN_WIDTH as int && 0 <= cy < SCREEN_HEIGHT as int ==> spec_px_lit(
                    r.0,
                    cx,
                    cy,
                ) == (spec_px_lit(mem, cx, cy) != spec_sprite_px(mem, x0, y0, base, k, cx, cy)))
            &&& r.1 == (exists|cx: int, cy: int|
                #[trigger] spec_sprite_px(mem, x0, y0, base, k, cx, cy) && spec_px_lit(mem, cx, cy))
        }),
    decreases k,
{
    let r = spec_draw_rows(mem, false, x0, y0, base, k);
    if k == 0 {
        if exists|cx: int, cy: int|
            #[trigger] spec_sprite_px(mem, x0, y0, base, k, cx, cy) && spec_px_lit(mem, cx, cy) {
            let (c, d) = choose|c: int, d: int|
                #[trigger] spec_sprite_px(mem, x0, y0, base, k, c, d) && spec_px_lit(mem, c, d);
            assert(false);
        }
    } else {
        lemma_draw_rows_char(mem, x0, y0, base, k - 1);
        let rp = spec_draw_rows(mem, false, x0, y0, base, k - 1);
        let cy = y0 + k - 1;
        if cy < SCREEN_HEIGHT as int {
            // the sprite byte for this row is still the original one
            assert(0 <= base + k - 1 < SCREEN_MEMORY_START as int);
            assert(rp.0[base + k - 1] == mem[base + k - 1]);
            let s = mem[base + k - 1];
            lemma_row_bits_char(rp.0, rp.1, s, x0, cy, 8);
            // pixels: this row gets the row characterization, other rows are untouched
            assert forall|cx: int, cy2: int|
                0 <= cx < SCREEN_WIDTH as int && 0 <= cy2 < SCREEN_HEIGHT as int implies
                spec_px_lit(r.0, cx, cy2) == (spec_px_lit(mem, cx, cy2) != spec_sprite_px(
                mem,
                x0,
                y0,
                base,
                k,
                cx,
                cy2,
            )) by {
                if cy2 == cy {
                    assert(!spec_sprite_px(mem, x0, y0, base, k - 1, cx, cy2));
                    assert(spec_px_lit(rp.0, cx, cy2) == spec_px_lit(mem, cx, cy2));
                    assert(spec_px_lit(r.0, cx, cy2) == (spec_px_lit(rp.0, cx, cy2)
                        != spec_row_hit(s, x0, 8, cx)));
                    assert(spec_row_hit(s, x0, 8, cx) == spec_sprite_px(
                        mem,
                        x0,
                        y0,
                        base,
                        k,
                        cx,
                        cy2,
                    ));
                } else {
                    let a = spec_fb_index(cx, cy2);
                    assert(0 <= cx / 8 <= 7);
                    assert(!(SCREEN_MEMORY_START + 8 * cy <= a < SCREEN_MEMORY_START + 8 * cy
                        + 8));
                    assert(r.0[a] == rp.0[a]);
                    assert(spec_px_lit(r.0, cx, cy2) == spec_px_lit(rp.0, cx, cy2));
                    assert(spec_sprite_px(mem, x0, y0, base, k, cx, cy2) == spec_sprite_px(
                        mem,
                        x0,
                        y0,
                        base,
                        k - 1,
                        cx,
                        cy2,
                    ));
                }
            }
            // bytes outside the framebuffer are untouched
            assert forall|a: int| 0 <= a < SCREEN_MEMORY_START as int implies r.0[a] == mem[a] by {
                assert(!(SCREEN_MEMORY_START + 8 * cy <= a < SCREEN_MEMORY_START + 8 * cy + 8));
                assert(r.0[a] == rp.0[a]);
            }
            // the collision flag: the row lemma counts hits against rp.0, which
            // on this row still shows the original pixels
            assert(r.1 == (rp.1 || exists|c: int|
                #[trigger] spec_row_hit(s, x0, 8, c) && spec_px_lit(rp.0, c, cy)));
            if r.1 {
                if rp.1 {
                    let (c, d) = choose|c: int, d: int|
                        #[trigger] spec_sprite_px(mem, x0, y0, base, k - 1, c, d) && spec_px_lit(
                            mem,
                            c,
                            d,
                        );
                    assert(spec_sprite_px(mem, x0, y0, base, k, c, d) && spec_px_lit(mem, c, d));
                } else {
                    let c = choose|c: int|
                        #[trigger] spec_row_hit(s, x0, 8, c) && spec_px_lit(rp.0, c, cy);
                    assert(!spec_sprite_px(mem, x0, y0, base, k - 1, c, cy));
                    assert(spec_px_lit(rp.0, c, cy) == spec_px_lit(mem, c, cy));
                    assert(spec_sprite_px(mem, x0, y0, base, k, c, cy) && spec_px_lit(mem, c, cy));
                }
            }
            if (exists|cx: int, cy2: int|
                #[trigger] spec_sprite_px(mem, x0, y0, base, k, cx, cy2) && spec_px_lit(
                    mem,
                    cx,
                    cy2,
                )) && !r.1 {
                let (c, d) = choose|c: int, d: int|
                    #[trigger] spec_sprite_px(mem, x0, y0, base, k, c, d) && spec_px_lit(mem, c, d);
                if d == cy {
                    assert(spec_row_hit(s, x0, 8, c));
                    assert(!spec_sprite_px(mem, x0, y0, base, k - 1, c, cy));
                    assert(spec_px_lit(rp.0, c, cy) == spec_px_lit(mem, c, cy));
                    assert(spec_row_hit(s, x0, 8, c) && spec_px_lit(rp.0, c, cy));
                } else {
                    assert(spec_sprite_px(mem, x0, y0, base, k - 1, c, d) && spec_px_lit(
                        mem,
                        c,
                        d,
                    ));
                }
                assert(false);
            }
        } else {
            // vertical clipping: this row (and so every later one) is skipped
            assert(r == rp);
            assert forall|cx: int, cy2: int|
                0 <= cx < SCREEN_WIDTH as int && 0 <= cy2 < SCREEN_HEIGHT as int implies
                spec_sprite_px(mem, x0, y0, base, k, cx, cy2) == spec_sprite_px(
                mem,
                x0,
                y0,
                base,
                k - 1,
                cx,
                cy2,
            ) by {
                assert(cy2 < cy);
            }
            if r.1 {
                let (c, d) = choose|c: int, d: int|
                    #[trigger] spec_sprite_px(mem, x0, y0, base, k - 1, c, d) && spec_px_lit(
                        mem,
                        c,
                        d,
                    );
                assert(spec_sprite_px(mem, x0, y0, base, k, c, d) && spec_px_lit(mem, c, d));
            }
            if (exists|cx: int, cy2: int|
                #[trigger] spec_sprite_px(mem, x0, y0, base, k, cx, cy2) && spec_px_lit(
                    mem,
                    cx,
                    cy2,
                )) && !r.1 {
                let (c, d) = choose|c: int, d: int|
                    #[trigger] spec_sprite_px(mem, x0, y0, base, k, c, d) && spec_px_lit(mem, c, d);
                assert(spec_sprite_px(mem, x0, y0, base, k - 1, c, d) && spec_px_lit(mem, c, d));
                assert(false);
            }
        }
    }
}

/// Two memory images that agree on every byte below the framebuffer and on
/// every pixel agree everywhere.
proof fn lemma_mem_from_pixels(m1: Seq<u8>, m2: Seq<u8>)
    requires
        m1.len() == MEMORY_SIZE,
        m2.len() == MEMORY_SIZE,
        forall|a: int| 0 <= a < SCREEN_MEMORY_START as int ==> m1[a] == m2[a],
        forall|cx: int, cy: int|
            0 <= cx < SCREEN_WIDTH as int && 0 <= cy < SCREEN_HEIGHT as int ==> spec_px_lit(
                m1,
                cx,
                cy,
            ) == spec_px_lit(m2, cx, cy),
    ensures
        m1 == m2,
{
    assert forall|a: int| 0 <= a < MEMORY_SIZE as int implies m1[a] == m2[a] by {
        if a >= SCREEN_MEMORY_START as int {
            let cy = (a - SCREEN_MEMORY_START as int) / 8;
            let bc = (a - SCREEN_MEMORY_START as int) % 8;
            assert(0 <= cy < SCREEN_HEIGHT as int && 0 <= bc < 8);
            assert(a == SCREEN_MEMORY_START + 8 * cy + bc);
            assert(1u8 << 0u8 == 0x01 && 1u8 << 1u8 == 0x02 && 1u8 << 2u8 == 0x04 && 1u8 << 3u8
                == 0x08 && 1u8 << 4u8 == 0x10 && 1u8 << 5u8 == 0x20 && 1u8 << 6u8 == 0x40 && 1u8
                << 7u8 == 0x80) by (bit_vector);
            lemma_div8(bc, 0);
            lemma_div8(bc, 1);
            lemma_div8(bc, 2);
            lemma_div8(bc, 3);
            lemma_div8(bc, 4);
            lemma_div8(bc, 5);
            lemma_div8(bc, 6);
            lemma_div8(bc, 7);
            // bit k of this byte is pixel (8 * bc + 7 - k, cy)
            assert(spec_fb_index(8 * bc + 7, cy) == a && spec_px_mask(8 * bc + 7) == 0x01);
            assert(spec_fb_index(8 * bc + 6, cy) == a && spec_px_mask(8 * bc + 6) == 0x02);
            assert(spec_fb_index(8 * bc + 5, cy) == a && spec_px_mask(8 * bc + 5) == 0x04);
            assert(spec_fb_index(8 * bc + 4, cy) == a && spec_px_mask(8 * bc + 4) == 0x08);
            assert(spec_fb_index(8 * bc + 3, cy) == a && spec_px_mask(8 * bc + 3) == 0x10);
            assert(spec_fb_index(8 * bc + 2, cy) == a && spec_px_mask(8 * bc + 2) == 0x20);
            assert(spec_fb_index(8 * bc + 1, cy) == a && spec_px_mask(8 * bc + 1) == 0x40);
            assert(spec_fb_index(8 * bc + 0, cy) == a && spec_px_mask(8 * bc + 0) == 0x80);
            assert(spec_px_lit(m1, 8 * bc + 7, cy) == spec_px_lit(m2, 8 * bc + 7, cy));
            assert(spec_px_lit(m1, 8 * bc + 6, cy) == spec_px_lit(m2, 8 * bc + 6, cy));
            assert(spec_px_lit(m1, 8 * bc + 5, cy) == spec_px_lit(m2, 8 * bc + 5, cy));
            assert(spec_px_lit(m1, 8 * bc + 4, cy) == spec_px_lit(m2, 8 * bc + 4, cy));
            assert(spec_px_lit(m1, 8 * bc + 3, cy) == spec_px_lit(m2, 8 * bc + 3, cy));
            assert(spec_px_lit(m1, 8 * bc + 2, cy) == spec_px_lit(m2, 8 * bc + 2, cy));
            assert(spec_px_lit(m1, 8 * bc + 1, cy) == spec_px_lit(m2, 8 * bc + 1, cy));
            assert(spec_px_lit(m1, 8 * bc + 0, cy) == spec_px_lit(m2, 8 * bc + 0, cy));
            lemma_byte_bits_eq(m1[a], m2[a]);
        }
    }
    assert(m1 =~= m2);
}

/// Draw collision law: drawing the same sprite twice at the same coordinates
/// restores every framebuffer pixel to its original state (XOR
/// self-cancels), and the second draw reports a collision exactly when some
/// pixel it touches was clear before the first draw — so a visible non-zero
/// sprite on pixels that were not all lit (a blank screen, say) sets `VF`.
/// The sprite bytes must lie below the framebuffer, so that the first draw
/// cannot change them.
pub proof fn lemma_draw_twice_cancels(mem: Seq<u8>, x0: int, y0: int, base: int, n: int)
    requires
        mem.len() == MEMORY_SIZE,
        0 <= x0,
        0 <= y0,
        0 <= n,
        0 <= base,
        base + n <= SCREEN_MEMORY_START as int,
    ensures
        ({
            let d1 = spec_draw_rows(mem, false, x0, y0, base, n);
            let d2 = spec_draw_rows(d1.0, false, x0, y0, base, n);
            &&& d2.0 == mem
            &&& d2.1 == (exists|cx: int, cy: int|
                #[trigger] spec_sprite_px(mem, x0, y0, base, n, cx, cy) && !spec_px_lit(
                    mem,
                    cx,
                    cy,
                ))
        }),
{
    lemma_draw_rows_char(mem, x0, y0, base, n);
    let d1 = spec_draw_rows(mem, false, x0, y0, base, n);
    lemma_draw_rows_char(d1.0, x0, y0, base, n);
    let d2 = spec_draw_rows(d1.0, false, x0, y0, base, n);
    // the second draw reads the very same sprite bytes
    assert forall|cx: int, cy: int|
        spec_sprite_px(d1.0, x0, y0, base, n, cx, cy) == spec_sprite_px(
            mem,
            x0,
            y0,
            base,
            n,
            cx,
            cy,
        ) by {
        if y0 <= cy < y0 + n {
            assert(0 <= base + (cy - y0) < SCREEN_MEMORY_START as int);
            assert(d1.0[base + (cy - y0)] == mem[base + (cy - y0)]);
        }
    }
    // each pixel is flipped either twice or not at all
    assert forall|cx: int, cy: int|
        0 <= cx < SCREEN_WIDTH as int && 0 <= cy < SCREEN_HEIGHT as int implies spec_px_lit(
        d2.0,
        cx,
        cy,
    ) == spec_px_lit(mem, cx, cy) by {
        assert(spec_px_lit(d1.0, cx, cy) == (spec_px_lit(mem, cx, cy) != spec_sprite_px(
            mem,
            x0,
            y0,
            base,
            n,
            cx,
            cy,
        )));
        assert(spec_px_lit(d2.0, cx, cy) == (spec_px_lit(d1.0, cx, cy) != spec_sprite_px(
            d1.0,
            x0,
            y0,
            base,
            n,
            cx,
            cy,
        )));
    }
    lemma_mem_from_pixels(d2.0, mem);
    // the second draw collides exactly on the touched pixels that started clear
    if d2.1 {
        let (c, d) = choose|c: int, d: int|
            #[trigger] spec_sprite_px(d1.0, x0, y0, base, n, c, d) && spec_px_lit(d1.0, c, d);
        assert(0 <= c < SCREEN_WIDTH as int && 0 <= d < SCREEN_HEIGHT as int);
        assert(spec_sprite_px(mem, x0, y0, base, n, c, d) && !spec_px_lit(mem, c, d));
    }
    if (exists|cx: int, cy: int|
        #[trigger] spec_sprite_px(mem, x0, y0, base, n, cx, cy) && !spec_px_lit(mem, cx, cy))
        && !d2.1 {
        let (c, d) = choose|c: int, d: int|
            #[trigger] spec_sprite_px(mem, x0, y0, base, n, c, d) && !spec_px_lit(mem, c, d);
        assert(0 <= c < SCREEN_WIDTH as int && 0 <= d < SCREEN_HEIGHT as int);
        assert(spec_sprite_px(d1.0, x0, y0, base, n, c, d) && spec_px_lit(d1.0, c, d));
        assert(false);
    }
}

/// Draw clipping law: a draw leaves every byte below the framebuffer
/// untouched, leaves the memory image the same size, and leaves every pixel
/// that is not under a set, unclipped sprite bit — in particular every
/// pixel a row below `SCREEN_HEIGHT` or a column beyond `SCREEN_WIDTH`
/// would have covered — exactly as it was.
pub proof fn lemma_draw_clipping(mem: Seq<u8>, x0: int, y0: int, base: int, n: int)
    requires
        mem.len() == MEMORY_SIZE,
        0 <= x0,
        0 <= y0,
        0 <= n,
        0 <= base,
        base + n <= SCREEN_MEMORY_START as int,
    ensures
        ({
            let d = spec_draw_rows(mem, false, x0, y0, base, n);
            &&& d.0.len() == mem.len()
            &&& (forall|a: int| 0 <= a < SCREEN_MEMORY_START as int ==> d.0[a] == mem[a])
            &&& (forall|cx: int, cy: int|
                0 <= cx < SCREEN_WIDTH as int && 0 <= cy < SCREEN_HEIGHT as int
                    && !spec_sprite_px(mem, x0, y0, base, n, cx, cy) ==> spec_px_lit(d.0, cx, cy)
                    == spec_px_lit(mem, cx, cy))
        }),
{
    lemma_draw_rows_char(mem, x0, y0, base, n);
}

/// Setting a register: executing `6XNN` then reading `V[x]` yields `nn`,
/// with memory, `I` and the stack untouched.
pub proof fn lemma_mov_imm_sets_register(m: Chip8View, x: u8, nn: u8)
    requires
        spec_wf(m),
        m.pc + 1 < MEMORY_SIZE as int,
        spec_decode(m.mem[m.pc], m.mem[m.pc + 1]) == Instr::MovImm(x, nn),
    ensures
        spec_step(m) matches StepResult::Stepped(m1) && m1.regs[x as int] == nn && m1.pc == m.pc
            + 2 && m1.mem == m.mem && m1.i == m.i && m1.sp == m.sp,
{
    lemma_nib_bounds(m.mem[m.pc]);
}

/// Wrapping immediate add: with `V[x] == a`, executing `7XNN` with
/// immediate `b` yields `V[x] == (a + b) % 256`, and no other register —
/// in particular no flag effect on `VF` whenever `x` is not `VF` itself —
/// changes.
pub proof fn lemma_add_imm_wraps(m: Chip8View, x: u8, b: u8)
    requires
        spec_wf(m),
        m.pc + 1 < MEMORY_SIZE as int,
        spec_decode(m.mem[m.pc], m.mem[m.pc + 1]) == Instr::AddImm(x, b),
    ensures
        spec_step(m) matches StepResult::Stepped(m1) && m1.regs[x as int] == (m.regs[x as int] + b)
            % 256 && (forall|j: int| 0 <= j < 16 && j != x as int ==> m1.regs[j] == m.regs[j]) && (
        x != 15 ==> m1.regs[15] == m.regs[15]),
{
    lemma_nib_bounds(m.mem[m.pc]);
}

/// Call/return round trip: with `CALL target` at the program counter and
/// `RET` at `target` (both inside memory, the latter below the stack region
/// so the pushed bytes cannot overwrite it), stepping twice first pushes the
/// big-endian return address `pc + 2` onto the stack, then restores `pc` to
/// that address — the instruction right after the call site — and `sp` to
/// its pre-call value.
#[verifier::rlimit(100)]
pub proof fn lemma_call_ret_round_trip(m: Chip8View, target: u16)
    requires
        spec_wf(m),
        m.pc + 1 < MEMORY_SIZE as int,
        spec_decode(m.mem[m.pc], m.mem[m.pc + 1]) == Instr::Call(target),
        m.sp - 2 >= STACK_MEMORY_START as int,
        target as int + 1 < STACK_MEMORY_START as int,
        spec_decode(m.mem[target as int], m.mem[target as int + 1]) == Instr::Return,
    ensures
        spec_step(m) matches StepResult::Stepped(m1) && m1.sp == m.sp - 2 && m1.pc == target as int
            && m1.mem[m1.sp] == spec_hi_byte(m.pc + 2) && m1.mem[m1.sp + 1] == spec_lo_byte(
            m.pc + 2,
        ) && (spec_step(m1) matches StepResult::Stepped(m2) && m2.pc == m.pc + 2 && m2.sp == m.sp
            && m2.mem == m1.mem),
{
    let m1 = Chip8View {
        sp: m.sp - 2,
        mem: m.mem.update(m.sp - 2, spec_hi_byte(m.pc + 2)).update(m.sp - 1, spec_lo_byte(m.pc + 2)),
        pc: target as int,
        ..m
    };
    assert(spec_step(m) == StepResult::Stepped(m1));
    // the return instruction is below the stack region, so the push did not
    // touch it
    assert(m1.mem[target as int] == m.mem[target as int]);
    assert(m1.mem[target as int + 1] == m.mem[target as int + 1]);
    // popping reassembles exactly the pushed address
    let ret = m.pc + 2;
    assert(0 <= ret < 0x10000);
    assert(ret / 256 < 256);
    assert(256 * ((ret / 256) % 256) + ret % 256 == ret);
}

/// Register bulk store/load round trip: `FX55` at some `I` followed by
/// `FX65` at the same `I` with the same `x` restores every register
/// bit-for-bit (with `x = 15`, all sixteen).  The stored block must fit in
/// memory and must not cover the following instruction.
pub proof fn lemma_store_load_round_trip(m: Chip8View, x: u8)
    requires
        spec_wf(m),
        m.pc + 3 < MEMORY_SIZE as int,
        spec_decode(m.mem[m.pc], m.mem[m.pc + 1]) == Instr::RegDump(x),
        spec_decode(m.mem[m.pc + 2], m.mem[m.pc + 3]) == Instr::RegLoad(x),
        m.i + x < MEMORY_SIZE as int,
        m.i + x < m.pc + 2 || m.i > m.pc + 3,
    ensures
        spec_step(m) matches StepResult::Stepped(m1) && (spec_step(m1)
            matches StepResult::Stepped(m2) && m2.regs == m.regs && m2.pc == m.pc + 4 && m2.mem
            == m1.mem),
{
    lemma_nib_bounds(m.mem[m.pc]);
    let stored = crate::semantics::spec_regs_stored(m.mem, m.regs, m.i, x as int);
    let m1 = Chip8View { mem: stored, pc: m.pc + 2, ..m };
    assert(spec_step(m) == StepResult::Stepped(m1));
    // the stored block does not cover the next instruction
    assert(stored[m.pc + 2] == m.mem[m.pc + 2]);
    assert(stored[m.pc + 3] == m.mem[m.pc + 3]);
    let m2 = Chip8View {
        regs: crate::semantics::spec_regs_loaded(m1.mem, m1.regs, m1.i, x as int),
        pc: m1.pc + 2,
        ..m1
    };
    assert(spec_step(m1) == StepResult::Stepped(m2));
    // loading reads back exactly what was stored
    assert forall|j: int| 0 <= j < 16 implies m2.regs[j] == m.regs[j] by {
        if j <= x as int {
            assert(stored[m.i + j] == m.regs[j]);
        }
    }
    assert(m2.regs =~= m.regs);
}

/// A self-jump is a controlled halt: with `1NNN` at the program counter and
/// `nnn` equal to it, the step reports a halt and leaves the machine as it
/// is, and a run with any positive step budget ends with `Halted` in that
/// very state — deterministically, instead of spinning forever.
pub proof fn lemma_self_jump_halts(m: Chip8View, fuel: nat)
    requires
        spec_wf(m),
        m.pc + 1 < MEMORY_SIZE as int,
        spec_decode(m.mem[m.pc], m.mem[m.pc + 1]) matches Instr::Jump(nnn) && nnn as int == m.pc,
        fuel >= 1,
    ensures
        spec_step(m) == StepResult::Halted,
        spec_run(m, fuel) == RunResult::Halted(m),
{
}

/// The random opcode is deterministic in the seed: executing `CXNN` pins
/// the new `V[x]`, and the new seed, as functions of the old seed alone —
/// two machines with equal seeds draw equal bytes.
pub proof fn lemma_rand_deterministic(m: Chip8View, x: u8, nn: u8)
    requires
        spec_wf(m),
        m.pc + 1 < MEMORY_SIZE as int,
        spec_decode(m.mem[m.pc], m.mem[m.pc + 1]) == Instr::Rand(x, nn),
    ensures
        spec_step(m) matches StepResult::Stepped(m1) && m1.regs[x as int] == spec_low_byte(
            spec_xorshift(m.seed),
        ) & nn && m1.seed == spec_xorshift(m.seed) && m1.mem == m.mem,
{
    lemma_nib_bounds(m.mem[m.pc]);
}

} // verus!
