//! Sprite drawing: an N-row sprite is XOR-composited onto the packed display
//! bitmap with horizontal bit alignment, whole-row vertical wrap and collision
//! detection into VF.

use vstd::prelude::*;
use crate::machine::Chip8;
use crate::machine::State;
use crate::machine::MEMORY_SIZE;

verus! {

/// One sprite row XORed into the display.  `xp` is the (already wrapped)
/// horizontal pixel position, `rowpos` the wrapped display row.  The sprite
/// byte is right-shifted into the primary byte of the row; when the position
/// is not byte-aligned and the sprite does not run off the right edge of the
/// 64-pixel row, the left-shifted remainder goes into the following byte.  A
/// collision is detected numerically: a touched byte whose new value is below
/// its old value lost a set bit.  The flag accumulates over `vf`.
pub open spec fn spec_draw_row(
    d: Seq<u8>,
    vf: bool,
    sprite: u8,
    xp: int,
    rowpos: int,
) -> (Seq<u8>, bool) {
    let shift = (xp % 8) as u8;
    let idx = rowpos * 8 + xp / 8;
    let old1 = d[idx];
    let new1 = old1 ^ (sprite >> shift);
    let d1 = d.update(idx, new1);
    let hit1 = old1 != 0 && new1 < old1;
    if shift != 0 && xp + 8 < 64 {
        let old2 = d1[idx + 1];
        let new2 = old2 ^ (sprite << ((8 - shift) as u8));
        let hit2 = old2 != 0 && new2 < old2;
        (d1.update(idx + 1, new2), vf || hit1 || hit2)
    } else {
        (d1, vf || hit1)
    }
}

/// Rows `r..n` of the sprite at memory address `i` drawn in order onto `d`,
/// with the collision flag accumulating from `vf`.  Each row wraps to display
/// row `(yp + row) % 32`.
pub open spec fn spec_draw_rows(
    d: Seq<u8>,
    vf: bool,
    mem: Seq<u8>,
    i: int,
    xp: int,
    yp: int,
    r: int,
    n: int,
) -> (Seq<u8>, bool)
    decreases n - r,
{
    if r >= n {
        (d, vf)
    } else {
        let t = spec_draw_row(d, vf, mem[i + r], xp, (yp + r) % 32);
        spec_draw_rows(t.0, t.1, mem, i, xp, yp, r + 1, n)
    }
}

/// The XOR contribution of one sprite row to display byte `b`: the shifted
/// sprite byte at the row's primary byte, the left-shifted remainder at the
/// following byte when the spill-over applies, and zero elsewhere.
pub open spec fn spec_row_mask(sprite: u8, xp: int, rowpos: int, b: int) -> u8 {
    let shift = (xp % 8) as u8;
    let idx = rowpos * 8 + xp / 8;
    if b == idx {
        sprite >> shift
    } else if shift != 0 && xp + 8 < 64 && b == idx + 1 {
        sprite << ((8 - shift) as u8)
    } else {
        0u8
    }
}

/// The combined XOR contribution of sprite rows `r..n` to display byte `b`.
pub open spec fn spec_draw_mask(
    mem: Seq<u8>,
    i: int,
    xp: int,
    yp: int,
    r: int,
    n: int,
    b: int,
) -> u8
    decreases n - r,
{
    if r >= n {
        0u8
    } else {
        spec_row_mask(mem[i + r], xp, (yp + r) % 32, b) ^ spec_draw_mask(mem, i, xp, yp, r + 1, n, b)
    }
}

/// Whether a sprite row contributes any lit pixel to the 64-pixel display
/// row: its shifted primary part or its spill-over part is nonzero.
pub open spec fn spec_row_visible(sprite: u8, xp: int) -> bool {
    let shift = (xp % 8) as u8;
    ||| sprite >> shift != 0
    ||| (shift != 0 && xp + 8 < 64 && sprite << ((8 - shift) as u8) != 0)
}

/// Whether any of the sprite rows `r..n` contributes a lit pixel.
pub open spec fn spec_sprite_visible(mem: Seq<u8>, i: int, xp: int, r: int, n: int) -> bool {
    exists|r2: int| r <= r2 < n && spec_row_visible(#[trigger] mem[i + r2], xp)
}

proof fn lemma_xor_zero(a: u8)
    by (bit_vector)
    ensures
        a ^ 0 == a,
        0u8 ^ a == a,
{
}

proof fn lemma_xor_self(a: u8)
    by (bit_vector)
    ensures
        a ^ a == 0,
{
}

proof fn lemma_xor_cancel(a: u8, m: u8)
    by (bit_vector)
    ensures
        (a ^ m) ^ m == a,
{
}

proof fn lemma_xor_assoc(a: u8, b: u8, c: u8)
    by (bit_vector)
    ensures
        (a ^ b) ^ c == a ^ (b ^ c),
{
}

/// Two values at most 31 apart land on distinct residues modulo 32.
proof fn lemma_mod32_distinct(a: int, c: int)
    requires
        0 <= a,
        0 <= c,
        a != c,
        -32 < a - c < 32,
    ensures
        a % 32 != c % 32,
{
    vstd::arithmetic::div_mod::lemma_fundamental_div_mod(a, 32);
    vstd::arithmetic::div_mod::lemma_fundamental_div_mod(c, 32);
    if a % 32 == c % 32 {
        let k = a / 32 - c / 32;
        assert(a - c == 32 * k) by (nonlinear_arith)
            requires
                a == 32 * (a / 32) + a % 32,
                c == 32 * (c / 32) + c % 32,
                k == a / 32 - c / 32,
                a % 32 == c % 32,
        ;
        assert(k >= 1 || k <= -1);
        assert(32 * k >= 32 || 32 * k <= -32) by (nonlinear_arith)
            requires
                k >= 1 || k <= -1,
        ;
    }
}

/// A different sprite row contributes nothing to the bytes that row `r`
/// touches: within one sprite (at most 15 rows) all rows land on distinct
/// display rows, and each row's bytes stay inside its own 8-byte row block.
proof fn lemma_other_row_mask_zero(sprite: u8, xp: int, yp: int, r: int, r2: int, b: int)
    requires
        0 <= xp < 64,
        0 <= yp < 32,
        0 <= r < 16,
        0 <= r2 < 16,
        r2 != r,
        b == ((yp + r) % 32) * 8 + xp / 8 || (xp % 8 != 0 && xp + 8 < 64 && b == ((yp + r) % 32) * 8
            + xp / 8 + 1),
    ensures
        spec_row_mask(sprite, xp, (yp + r2) % 32, b) == 0,
{
    let dr = (yp + r) % 32;
    let dr2 = (yp + r2) % 32;
    lemma_mod32_distinct(yp + r, yp + r2);
    assert(0 <= dr < 32);
    assert(0 <= dr2 < 32);
    assert(xp / 8 <= 7);
    assert(xp + 8 < 64 ==> xp / 8 <= 6);
    assert(dr * 8 <= b <= dr * 8 + 7);
}

/// The combined mask of the rows after `r` is zero at the bytes of row `r`.
proof fn lemma_mask_suffix_zero(
    mem: Seq<u8>,
    i: int,
    xp: int,
    yp: int,
    r: int,
    r1: int,
    n: int,
    b: int,
)
    requires
        0 <= xp < 64,
        0 <= yp < 32,
        0 <= r < n <= 15,
        r < r1 <= n,
        b == ((yp + r) % 32) * 8 + xp / 8 || (xp % 8 != 0 && xp + 8 < 64 && b == ((yp + r) % 32) * 8
            + xp / 8 + 1),
    ensures
        spec_draw_mask(mem, i, xp, yp, r1, n, b) == 0,
    decreases n - r1,
{
    if r1 < n {
        lemma_other_row_mask_zero(mem[i + r1], xp, yp, r, r1, b);
        lemma_mask_suffix_zero(mem, i, xp, yp, r, r1 + 1, n, b);
        lemma_xor_zero(0u8);
    }
}

/// Drawing rows `r..n` XORs each display byte with the combined mask of
/// those rows and touches nothing else.
pub proof fn lemma_draw_rows_as_mask(
    d: Seq<u8>,
    vf: bool,
    mem: Seq<u8>,
    i: int,
    xp: int,
    yp: int,
    r: int,
    n: int,
)
    requires
        d.len() == 256,
        0 <= r <= n,
        n <= 15,
        0 <= xp < 64,
        0 <= yp < 32,
    ensures
        ({
            let t = spec_draw_rows(d, vf, mem, i, xp, yp, r, n);
            t.0.len() == 256 && forall|b: int|
                0 <= b < 256 ==> t.0[b] == d[b] ^ spec_draw_mask(mem, i, xp, yp, r, n, b)
        }),
    decreases n - r,
{
    if r >= n {
        assert forall|b: int| 0 <= b < 256 implies d[b] == d[b] ^ spec_draw_mask(
            mem,
            i,
            xp,
            yp,
            r,
            n,
            b,
        ) by {
            lemma_xor_zero(d[b]);
        }
    } else {
        let sprite = mem[i + r];
        let rowpos = (yp + r) % 32;
        let row = spec_draw_row(d, vf, sprite, xp, rowpos);
        assert(0 <= rowpos < 32);
        assert(xp / 8 <= 7);
        assert forall|b: int| 0 <= b < 256 implies row.0[b] == d[b] ^ spec_row_mask(
            sprite,
            xp,
            rowpos,
            b,
        ) by {
            lemma_xor_zero(d[b]);
        }
        lemma_draw_rows_as_mask(row.0, row.1, mem, i, xp, yp, r + 1, n);
        let t = spec_draw_rows(d, vf, mem, i, xp, yp, r, n);
        assert forall|b: int| 0 <= b < 256 implies t.0[b] == d[b] ^ spec_draw_mask(
            mem,
            i,
            xp,
            yp,
            r,
            n,
            b,
        ) by {
            lemma_xor_assoc(
                d[b],
                spec_row_mask(sprite, xp, rowpos, b),
                spec_draw_mask(mem, i, xp, yp, r + 1, n, b),
            );
        }
    }
}

/// Law (XOR self-inverse): drawing the same sprite twice at the same
/// position, with nothing drawn in between, restores the display exactly.
pub proof fn lemma_draw_rows_twice(d: Seq<u8>, mem: Seq<u8>, i: int, xp: int, yp: int, n: int)
    requires
        d.len() == 256,
        0 <= n <= 15,
        0 <= xp < 64,
        0 <= yp < 32,
    ensures
        ({
            let t1 = spec_draw_rows(d, false, mem, i, xp, yp, 0, n);
            let t2 = spec_draw_rows(t1.0, false, mem, i, xp, yp, 0, n);
            t2.0 == d
        }),
{
    lemma_draw_rows_as_mask(d, false, mem, i, xp, yp, 0, n);
    let t1 = spec_draw_rows(d, false, mem, i, xp, yp, 0, n);
    lemma_draw_rows_as_mask(t1.0, false, mem, i, xp, yp, 0, n);
    let t2 = spec_draw_rows(t1.0, false, mem, i, xp, yp, 0, n);
    assert forall|b: int| 0 <= b < 256 implies t2.0[b] == d[b] by {
        lemma_xor_cancel(d[b], spec_draw_mask(mem, i, xp, yp, 0, n, b));
    }
    assert(t2.0 =~= d);
}

/// Drawing onto a display that holds exactly the sprite's own mask erases
/// it, and the collision flag comes out set exactly when some row of the
/// sprite contributes a lit pixel.
proof fn lemma_redraw_vf(
    d: Seq<u8>,
    vf: bool,
    mem: Seq<u8>,
    i: int,
    xp: int,
    yp: int,
    r: int,
    n: int,
)
    requires
        d.len() == 256,
        0 <= r <= n,
        n <= 15,
        0 <= xp < 64,
        0 <= yp < 32,
        forall|b: int| 0 <= b < 256 ==> d[b] == spec_draw_mask(mem, i, xp, yp, r, n, b),
    ensures
        spec_draw_rows(d, vf, mem, i, xp, yp, r, n).1 == (vf || spec_sprite_visible(
            mem,
            i,
            xp,
            r,
            n,
        )),
    decreases n - r,
{
    if r >= n {
        assert(!spec_sprite_visible(mem, i, xp, r, n));
    } else {
        let sprite = mem[i + r];
        let rowpos = (yp + r) % 32;
        let idx = rowpos * 8 + xp / 8;
        let shift = (xp % 8) as u8;
        assert(0 <= rowpos < 32);
        assert(xp / 8 <= 7);
        assert(xp + 8 < 64 ==> xp / 8 <= 6);
        let m1 = sprite >> shift;
        lemma_mask_suffix_zero(mem, i, xp, yp, r, r + 1, n, idx);
        lemma_xor_zero(m1);
        assert(d[idx] == m1);
        lemma_xor_self(m1);
        let row = spec_draw_row(d, vf, sprite, xp, rowpos);
        let secondary = shift != 0 && xp + 8 < 64;
        let m2 = sprite << ((8 - shift) as u8);
        if secondary {
            lemma_mask_suffix_zero(mem, i, xp, yp, r, r + 1, n, idx + 1);
            lemma_xor_zero(m2);
            assert(d[idx + 1] == m2);
            lemma_xor_self(m2);
        }
        assert(row.1 == (vf || spec_row_visible(sprite, xp)));
        assert forall|b: int| 0 <= b < 256 implies row.0[b] == spec_draw_mask(
            mem,
            i,
            xp,
            yp,
            r + 1,
            n,
            b,
        ) by {
            if b == idx {
                assert(row.0[b] == 0);
            } else if secondary && b == idx + 1 {
                assert(row.0[b] == 0);
            } else {
                assert(spec_row_mask(sprite, xp, rowpos, b) == 0);
                lemma_xor_zero(spec_draw_mask(mem, i, xp, yp, r + 1, n, b));
            }
        }
        lemma_redraw_vf(row.0, row.1, mem, i, xp, yp, r + 1, n);
        if spec_row_visible(sprite, xp) {
            assert(r <= r < n && spec_row_visible(mem[i + r], xp));
            assert(spec_sprite_visible(mem, i, xp, r, n));
        }
        if spec_sprite_visible(mem, i, xp, r + 1, n) {
            let r2 = choose|r2: int| r + 1 <= r2 < n && spec_row_visible(#[trigger] mem[i + r2], xp);
            assert(r <= r2 < n && spec_row_visible(mem[i + r2], xp));
        }
        if spec_sprite_visible(mem, i, xp, r, n) && !spec_row_visible(sprite, xp) {
            let r2 = choose|r2: int| r <= r2 < n && spec_row_visible(#[trigger] mem[i + r2], xp);
            assert(r + 1 <= r2 < n && spec_row_visible(mem[i + r2], xp));
            assert(spec_sprite_visible(mem, i, xp, r + 1, n));
        }
    }
}

/// Law (collision on redraw): after drawing a sprite onto a fully clear
/// display, drawing it again reports a collision exactly when the sprite
/// contributed any lit pixel the first time.
pub proof fn lemma_redraw_reports_collision(
    d: Seq<u8>,
    mem: Seq<u8>,
    i: int,
    xp: int,
    yp: int,
    n: int,
)
    requires
        d.len() == 256,
        forall|b: int| 0 <= b < 256 ==> d[b] == 0,
        0 <= n <= 15,
        0 <= xp < 64,
        0 <= yp < 32,
    ensures
        ({
            let t1 = spec_draw_rows(d, false, mem, i, xp, yp, 0, n);
            let t2 = spec_draw_rows(t1.0, false, mem, i, xp, yp, 0, n);
            t2.1 == spec_sprite_visible(mem, i, xp, 0, n)
        }),
{
    lemma_draw_rows_as_mask(d, false, mem, i, xp, yp, 0, n);
    let t1 = spec_draw_rows(d, false, mem, i, xp, yp, 0, n);
    assert forall|b: int| 0 <= b < 256 implies t1.0[b] == spec_draw_mask(
        mem,
        i,
        xp,
        yp,
        0,
        n,
        b,
    ) by {
        lemma_xor_zero(spec_draw_mask(mem, i, xp, yp, 0, n, b));
    }
    lemma_redraw_vf(t1.0, false, mem, i, xp, yp, 0, n);
}

impl Chip8 {
    /// Draws the `n`-row sprite stored at the index register onto the display
    /// at pixel position (`xp`, `yp`), XORing row by row, and leaves 1 in VF
    /// exactly when a collision was detected, else 0.
    pub(crate) fn draw_sprite(&mut self, xp: usize, yp: usize, n: usize)
        requires
            old(self).wf(),
            xp < 64,
            yp < 32,
            n <= 15,
            old(self).i as int + n as int <= MEMORY_SIZE,
        ensures
            final(self).wf(),
            ({
                let t = spec_draw_rows(
                    old(self)@.display,
                    false,
                    old(self)@.memory,
                    old(self).i as int,
                    xp as int,
                    yp as int,
                    0,
                    n as int,
                );
                final(self)@ == (State {
                    display: t.0,
                    registers: old(self)@.registers.update(15, if t.1 { 1u8 } else { 0u8 }),
                    ..old(self)@
                })
            }),
    {
        let ghost total = spec_draw_rows(
            old(self)@.display,
            false,
            old(self)@.memory,
            old(self).i as int,
            xp as int,
            yp as int,
            0,
            n as int,
        );
        let shift: u8 = (xp % 8) as u8;
        self.registers.set(15, 0);
        let ii = self.i as usize;
        let mut row: usize = 0;
        while row < n
            invariant
                xp < 64,
                yp < 32,
                n <= 15,
                row <= n,
                shift == (xp % 8) as u8,
                ii == old(self).i,
                ii + n <= MEMORY_SIZE,
                self.memory@ == old(self)@.memory,
                self.memory@.len() == MEMORY_SIZE,
                self.display@.len() == old(self)@.display.len(),
                old(self)@.display.len() == 256,
                self.registers@.len() == 16,
                old(self)@.registers.len() == 16,
                self.registers@[15] == 0 || self.registers@[15] == 1,
                self.registers@ == old(self)@.registers.update(15, self.registers@[15]),
                self.pc == old(self).pc,
                self.i == old(self).i,
                self.keys == old(self).keys,
                self.waiting_for_key == old(self).waiting_for_key,
                self.key_register == old(self).key_register,
                self.delay_timer == old(self).delay_timer,
                self.sound_timer == old(self).sound_timer,
                self.stack == old(self).stack,
                self.sp == old(self).sp,
                total == spec_draw_rows(
                    self.display@,
                    self.registers@[15] == 1,
                    old(self)@.memory,
                    ii as int,
                    xp as int,
                    yp as int,
                    row as int,
                    n as int,
                ),
            decreases n - row,
        {
            let ghost d_enter = self.display@;
            let ghost vf_enter = self.registers@[15] == 1;
            let sprite = self.memory[ii + row];
            let rowpos = (yp + row) % 32;
            assert(xp / 8 < 8);
            let idx = rowpos * 8 + xp / 8;
            let old1 = self.display[idx];
            let new1 = old1 ^ (sprite >> shift);
            self.display.set(idx, new1);
            if old1 != 0 && new1 < old1 {
                self.registers.set(15, 1);
            }
            if shift != 0 && xp + 8 < 64 {
                assert(xp / 8 < 7);
                let old2 = self.display[idx + 1];
                let new2 = old2 ^ (sprite << (8 - shift));
                self.display.set(idx + 1, new2);
                if old2 != 0 && new2 < old2 {
                    self.registers.set(15, 1);
                }
            }
            proof {
                let t = spec_draw_row(d_enter, vf_enter, sprite, xp as int, rowpos as int);
                assert(self.display@ == t.0);
                assert((self.registers@[15] == 1) == t.1);
                assert(self.registers@ =~= old(self)@.registers.update(15, self.registers@[15]));
            }
            row = row + 1;
        }
        proof {
            assert(self@ =~= (State {
                display: total.0,
                registers: old(self)@.registers.update(15, if total.1 { 1u8 } else { 0u8 }),
                ..old(self)@
            }));
        }
    }
}

} // verus!
