//! Laws of the instruction semantics, stated against the model in `step`
//! and proved once and for all.

use vstd::prelude::*;

use crate::display::{blank_grid, draw_bits, pix_idx};
use crate::instruction::{op_a, op_n, op_nn, op_x, op_y};
use crate::step::{
    draw_rows, first_pressed, spec_step, step_alu, step_draw, wf_state, word_at, Chip8Error,
    State,
};

verus! {

/// The add instruction (8xy4): the flag register reports exactly whether the
/// true sum exceeds 255, and the destination (when it is not the flag
/// register itself) holds the sum modulo 256.
pub proof fn lemma_add_carry(s: State, x: int, y: int)
    requires
        wf_state(s),
        0 <= x < 16,
        0 <= y < 16,
    ensures
        step_alu(s, x, y, 0x4) is Ok,
        ({
            let s2 = step_alu(s, x, y, 0x4)->Ok_0;
            &&& (s2.v[15] == 1 <==> s.v[x] + s.v[y] > 255)
            &&& (s2.v[15] == 0 <==> s.v[x] + s.v[y] <= 255)
            &&& x != 15 ==> s2.v[x] == (s.v[x] + s.v[y]) % 256
        }),
{
}

/// The subtract instruction (8xy5): the flag register reports exactly
/// whether no borrow occurred, and the destination holds the difference
/// modulo 256, whenever neither operand is the flag register itself.
pub proof fn lemma_sub_borrow(s: State, x: int, y: int)
    requires
        wf_state(s),
        0 <= x < 16,
        0 <= y < 16,
    ensures
        step_alu(s, x, y, 0x5) is Ok,
        ({
            let s2 = step_alu(s, x, y, 0x5)->Ok_0;
            &&& x != 15 ==> (s2.v[15] == 1 <==> s.v[x] >= s.v[y])
            &&& x != 15 ==> (s2.v[15] == 0 <==> s.v[x] < s.v[y])
            &&& (x != 15 && y != 15) ==> s2.v[x] == (s.v[x] - s.v[y] + 256) % 256
        }),
{
}

/// After a clear, every pixel of the grid is off.
pub proof fn lemma_cleared_pixel_off(x: int, y: int)
    requires
        0 <= x < 64,
        0 <= y < 32,
    ensures
        !blank_grid()[pix_idx(x, y)],
{
}

/// The conditional skips (3xnn, 4xnn, 5xy0, 9xy0) advance the program
/// counter by exactly 4 when their condition holds and by exactly 2
/// otherwise, and change nothing else.
pub proof fn lemma_skip_advance(s: State, keys: Seq<bool>, rnd: u8)
    requires
        wf_state(s),
        s.pc as int + 1 < 4096,
        ({
            let w = word_at(s.memory, s.pc as int);
            ||| op_a(w) == 0x3
            ||| op_a(w) == 0x4
            ||| (op_a(w) == 0x5 && op_n(w) == 0)
            ||| (op_a(w) == 0x9 && op_n(w) == 0)
        }),
    ensures
        ({
            let w = word_at(s.memory, s.pc as int);
            let x = op_x(w) as int;
            let y = op_y(w) as int;
            let cond = if op_a(w) == 0x3 {
                s.v[x] == op_nn(w)
            } else if op_a(w) == 0x4 {
                s.v[x] != op_nn(w)
            } else if op_a(w) == 0x5 {
                s.v[x] == s.v[y]
            } else {
                s.v[x] != s.v[y]
            };
            spec_step(s, keys, rnd) == Ok::<State, Chip8Error>(
                State { pc: if cond { (s.pc + 4) as u16 } else { (s.pc + 2) as u16 }, ..s },
            )
        }),
{
}

/// Only the random instruction (Cxnn) reads the drawn byte: on every other
/// word, a step is the same function of the state and keys whatever the
/// generator returned.
pub proof fn lemma_step_ignores_rnd(s: State, keys: Seq<bool>, r1: u8, r2: u8)
    requires
        s.pc as int + 1 >= 4096 || op_a(word_at(s.memory, s.pc as int)) != 0xC,
    ensures
        spec_step(s, keys, r1) == spec_step(s, keys, r2),
{
}

/// Every property of the lowest-pressed-key search: its result sits between
/// `k` and 16, it names a pressed key when below 16, no key before it is
/// pressed, and 16 means no key at or after `k` is pressed.
pub proof fn lemma_first_pressed_props(keys: Seq<bool>, k: int)
    requires
        0 <= k <= 16,
    ensures
        k <= first_pressed(keys, k) <= 16,
        first_pressed(keys, k) < 16 ==> keys[first_pressed(keys, k)],
        forall|j: int| k <= j < first_pressed(keys, k) ==> !keys[j],
        first_pressed(keys, k) == 16 ==> forall|j: int| k <= j < 16 ==> !keys[j],
    decreases 16 - k,
{
    if k < 16 && !keys[k] {
        lemma_first_pressed_props(keys, k + 1);
    }
}

/// The key wait (Fx0A): while no key is pressed the step returns the state
/// exactly as it was, the program counter pointing at the instruction
/// itself; once a key is pressed, the lowest-numbered pressed key lands in
/// the register and the counter advances normally.
pub proof fn lemma_key_wait(s: State, keys: Seq<bool>, rnd: u8)
    requires
        wf_state(s),
        s.pc as int + 1 < 4096,
        op_a(word_at(s.memory, s.pc as int)) == 0xF,
        op_nn(word_at(s.memory, s.pc as int)) == 0x0A,
    ensures
        (forall|j: int| 0 <= j < 16 ==> !keys[j]) ==> spec_step(s, keys, rnd) == Ok::<
            State,
            Chip8Error,
        >(s),
        (exists|j: int| 0 <= j < 16 && keys[j]) ==> ({
            let k = first_pressed(keys, 0);
            &&& 0 <= k < 16
            &&& keys[k]
            &&& forall|j: int| 0 <= j < k ==> !keys[j]
            &&& spec_step(s, keys, rnd) == Ok::<State, Chip8Error>(
                State {
                    pc: (s.pc + 2) as u16,
                    v: s.v.update(op_x(word_at(s.memory, s.pc as int)) as int, k as u8),
                    ..s
                },
            )
        }),
{
    lemma_first_pressed_props(keys, 0);
    let w = word_at(s.memory, s.pc as int);
    if forall|j: int| 0 <= j < 16 ==> !keys[j] {
        assert(first_pressed(keys, 0) == 16) by {
            if first_pressed(keys, 0) < 16 {
                assert(keys[first_pressed(keys, 0)]);
            }
        }
        assert(spec_step(s, keys, rnd) == Ok::<State, Chip8Error>(State { pc: s.pc, ..s }));
        assert(State { pc: s.pc, ..s } == s);
    }
    if exists|j: int| 0 <= j < 16 && keys[j] {
        let jw = choose|j: int| 0 <= j < 16 && keys[j];
        assert(first_pressed(keys, 0) < 16) by {
            if first_pressed(keys, 0) == 16 {
                assert(!keys[jw]);
            }
        }
    }
}

/// Drawing one sprite row byte changes nothing outside the columns from the
/// cursor up to (not including) the last column of its row.
pub proof fn lemma_draw_bits_frame(p: Seq<bool>, b: u8, x: int, y: int, bit: int)
    requires
        p.len() == 2048,
        0 <= x,
        0 <= y <= 30,
    ensures
        draw_bits(p, b, x, y, bit).0.len() == p.len(),
        forall|j: int|
            0 <= j < p.len() && !(pix_idx(x, y) <= j < pix_idx(63, y)) ==> #[trigger] draw_bits(
                p,
                b,
                x,
                y,
                bit,
            ).0[j] == p[j],
    decreases 8 - bit,
{
    if bit >= 8 || x >= 63 {
    } else {
        let idx = pix_idx(x, y);
        if crate::display::sprite_bit(b, bit) {
            let q = p.update(idx, !p[idx]);
            lemma_draw_bits_frame(q, b, x + 1, y, bit + 1);
            assert(draw_bits(p, b, x, y, bit).0 == draw_bits(q, b, x + 1, y, bit + 1).0);
            assert forall|j: int|
                0 <= j < p.len() && !(pix_idx(x, y) <= j < pix_idx(63, y)) implies #[trigger] draw_bits(
                p,
                b,
                x,
                y,
                bit,
            ).0[j] == p[j] by {
                assert(draw_bits(q, b, x + 1, y, bit + 1).0[j] == q[j]);
                assert(q[j] == p[j]);
            }
        } else {
            lemma_draw_bits_frame(p, b, x + 1, y, bit + 1);
            assert(draw_bits(p, b, x, y, bit).0 == draw_bits(p, b, x + 1, y, bit + 1).0);
        }
    }
}

/// Drawing one sprite row byte reads and writes only the columns from the
/// cursor up to the last column of its row: on two grids that agree there,
/// it collides alike and leaves the range agreeing.
pub proof fn lemma_draw_bits_agree(p1: Seq<bool>, p2: Seq<bool>, b: u8, x: int, y: int, bit: int)
    requires
        p1.len() == 2048,
        p2.len() == 2048,
        0 <= x,
        0 <= y <= 30,
        forall|j: int| pix_idx(x, y) <= j < pix_idx(63, y) ==> p1[j] == p2[j],
    ensures
        draw_bits(p1, b, x, y, bit).1 == draw_bits(p2, b, x, y, bit).1,
        forall|j: int|
            pix_idx(x, y) <= j < pix_idx(63, y) ==> #[trigger] draw_bits(
                p1,
                b,
                x,
                y,
                bit,
            ).0[j] == draw_bits(p2, b, x, y, bit).0[j],
    decreases 8 - bit,
{
    if bit >= 8 || x >= 63 {
    } else {
        let idx = pix_idx(x, y);
        if crate::display::sprite_bit(b, bit) {
            let q1 = p1.update(idx, !p1[idx]);
            let q2 = p2.update(idx, !p2[idx]);
            assert(p1[idx] == p2[idx]);
            assert forall|j: int| pix_idx(x + 1, y) <= j < pix_idx(63, y) implies q1[j] == q2[j] by {
                assert(p1[j] == p2[j]);
            }
            lemma_draw_bits_agree(q1, q2, b, x + 1, y, bit + 1);
            lemma_draw_bits_frame(q1, b, x + 1, y, bit + 1);
            lemma_draw_bits_frame(q2, b, x + 1, y, bit + 1);
            assert forall|j: int|
                pix_idx(x, y) <= j < pix_idx(63, y) implies #[trigger] draw_bits(
                p1,
                b,
                x,
                y,
                bit,
            ).0[j] == draw_bits(p2, b, x, y, bit).0[j] by {
                if j == idx {
                    assert(draw_bits(q1, b, x + 1, y, bit + 1).0[j] == q1[j]);
                    assert(draw_bits(q2, b, x + 1, y, bit + 1).0[j] == q2[j]);
                } else {
                    assert(draw_bits(q1, b, x + 1, y, bit + 1).0[j] == draw_bits(
                        q2,
                        b,
                        x + 1,
                        y,
                        bit + 1,
                    ).0[j]);
                }
            }
        } else {
            lemma_draw_bits_agree(p1, p2, b, x + 1, y, bit + 1);
            assert forall|j: int|
                pix_idx(x, y) <= j < pix_idx(63, y) implies #[trigger] draw_bits(
                p1,
                b,
                x,
                y,
                bit,
            ).0[j] == draw_bits(p2, b, x, y, bit).0[j] by {
                if j != idx {
                    assert(draw_bits(p1, b, x + 1, y, bit + 1).0[j] == draw_bits(
                        p2,
                        b,
                        x + 1,
                        y,
                        bit + 1,
                    ).0[j]);
                } else {
                    lemma_draw_bits_frame(p1, b, x + 1, y, bit + 1);
                    lemma_draw_bits_frame(p2, b, x + 1, y, bit + 1);
                    assert(draw_bits(p1, b, x + 1, y, bit + 1).0[j] == p1[j]);
                    assert(draw_bits(p2, b, x + 1, y, bit + 1).0[j] == p2[j]);
                }
            }
        }
    }
}

/// Drawing the same sprite row byte twice at the same cursor restores the
/// grid, and the second pass collides exactly where the first pass turned a
/// pixel on.
pub proof fn lemma_draw_bits_twice(p: Seq<bool>, b: u8, x: int, y: int, bit: int)
    requires
        p.len() == 2048,
        0 <= x,
        0 <= y <= 30,
    ensures
        ({
            let r1 = draw_bits(p, b, x, y, bit);
            let r2 = draw_bits(r1.0, b, x, y, bit);
            &&& r2.0 == p
            &&& (r2.1 <==> exists|j: int| 0 <= j < 2048 && r1.0[j] && !p[j])
        }),
    decreases 8 - bit,
{
    let r1 = draw_bits(p, b, x, y, bit);
    let r2 = draw_bits(r1.0, b, x, y, bit);
    if bit >= 8 || x >= 63 {
        assert(!(exists|j: int| 0 <= j < 2048 && r1.0[j] && !p[j])) by {
            assert(forall|j: int| 0 <= j < 2048 ==> !(p[j] && !p[j]));
        }
    } else {
        let idx = pix_idx(x, y);
        assert(0 <= idx < 2048);
        if crate::display::sprite_bit(b, bit) {
            let q = p.update(idx, !p[idx]);
            let i1 = draw_bits(q, b, x + 1, y, bit + 1);
            lemma_draw_bits_frame(q, b, x + 1, y, bit + 1);
            assert(r1.0 == i1.0);
            assert(r1.0[idx] == !p[idx]);
            let q2 = r1.0.update(idx, p[idx]);
            assert(r1.0.update(idx, !r1.0[idx]) =~= q2);
            let i2 = draw_bits(q2, b, x + 1, y, bit + 1);
            assert(r2.0 == i2.0 && r2.1 == (r1.0[idx] || i2.1));
            lemma_draw_bits_twice(q, b, x + 1, y, bit + 1);
            let i2h = draw_bits(i1.0, b, x + 1, y, bit + 1);
            lemma_draw_bits_agree(q2, i1.0, b, x + 1, y, bit + 1);
            lemma_draw_bits_frame(q2, b, x + 1, y, bit + 1);
            lemma_draw_bits_frame(i1.0, b, x + 1, y, bit + 1);
            // the second pass restores the grid
            assert(r2.0 =~= p) by {
                assert(forall|j: int|
                    pix_idx(x + 1, y) <= j < pix_idx(63, y) ==> i2.0[j] == i2h.0[j]);
                assert(forall|j: int|
                    pix_idx(x + 1, y) <= j < pix_idx(63, y) ==> i2h.0[j] == q[j] && q[j] == p[j]);
                assert(forall|j: int|
                    0 <= j < 2048 && !(pix_idx(x + 1, y) <= j < pix_idx(63, y)) ==> i2.0[j]
                        == q2[j]);
                assert(q2[idx] == p[idx]);
            }
            // and collides exactly where the first pass turned a pixel on
            assert(r2.1 <==> exists|j: int| 0 <= j < 2048 && r1.0[j] && !p[j]) by {
                assert(i2.1 == i2h.1);
                assert(i2h.1 <==> exists|j: int| 0 <= j < 2048 && i1.0[j] && !q[j]);
                if r2.1 {
                    if r1.0[idx] {
                        assert(r1.0[idx] && !p[idx]);
                    } else {
                        let jw = choose|j: int| 0 <= j < 2048 && i1.0[j] && !q[j];
                        assert(jw != idx);
                        assert(r1.0[jw] && !p[jw]);
                    }
                }
                if exists|j: int| 0 <= j < 2048 && r1.0[j] && !p[j] {
                    let jw = choose|j: int| 0 <= j < 2048 && r1.0[j] && !p[j];
                    if jw == idx {
                        assert(r1.0[idx]);
                    } else {
                        assert(i1.0[jw] && !q[jw]);
                        assert(i2h.1);
                    }
                }
            }
        } else {
            lemma_draw_bits_twice(p, b, x + 1, y, bit + 1);
        }
    }
}

/// Drawing sprite rows changes nothing in the rows above the cursor.
pub proof fn lemma_draw_rows_frame(
    p: Seq<bool>,
    mem: Seq<u8>,
    i: int,
    x0: int,
    y: int,
    row: int,
    n: int,
)
    requires
        p.len() == 2048,
        0 <= x0 < 64,
        0 <= y,
    ensures
        draw_rows(p, mem, i, x0, y, row, n).0.len() == 2048,
        forall|j: int|
            0 <= j < pix_idx(0, y) ==> #[trigger] draw_rows(p, mem, i, x0, y, row, n).0[j]
                == p[j],
    decreases n - row,
{
    if row >= n || y >= 31 {
    } else {
        let b1 = draw_bits(p, mem[i + row], x0, y, 0);
        lemma_draw_bits_frame(p, mem[i + row], x0, y, 0);
        lemma_draw_rows_frame(b1.0, mem, i, x0, y + 1, row + 1, n);
        assert forall|j: int|
            0 <= j < pix_idx(0, y) implies #[trigger] draw_rows(p, mem, i, x0, y, row, n).0[j]
            == p[j] by {
            assert(draw_rows(b1.0, mem, i, x0, y + 1, row + 1, n).0[j] == b1.0[j]);
            assert(b1.0[j] == p[j]);
        }
    }
}

/// Drawing sprite rows reads and writes only the rows at and below the
/// cursor: on two grids that agree there, it collides alike and leaves that
/// region agreeing.
pub proof fn lemma_draw_rows_agree(
    p1: Seq<bool>,
    p2: Seq<bool>,
    mem: Seq<u8>,
    i: int,
    x0: int,
    y: int,
    row: int,
    n: int,
)
    requires
        p1.len() == 2048,
        p2.len() == 2048,
        0 <= x0 < 64,
        0 <= y,
        forall|j: int| pix_idx(0, y) <= j < 2048 ==> p1[j] == p2[j],
    ensures
        draw_rows(p1, mem, i, x0, y, row, n).1 == draw_rows(p2, mem, i, x0, y, row, n).1,
        forall|j: int|
            pix_idx(0, y) <= j < 2048 ==> #[trigger] draw_rows(p1, mem, i, x0, y, row, n).0[j]
                == draw_rows(p2, mem, i, x0, y, row, n).0[j],
    decreases n - row,
{
    if row >= n || y >= 31 {
    } else {
        let b = mem[i + row];
        let b1 = draw_bits(p1, b, x0, y, 0);
        let b2 = draw_bits(p2, b, x0, y, 0);
        lemma_draw_bits_agree(p1, p2, b, x0, y, 0);
        lemma_draw_bits_frame(p1, b, x0, y, 0);
        lemma_draw_bits_frame(p2, b, x0, y, 0);
        assert forall|j: int| pix_idx(0, y + 1) <= j < 2048 implies b1.0[j] == b2.0[j] by {
            assert(b1.0[j] == p1[j]);
            assert(b2.0[j] == p2[j]);
            assert(p1[j] == p2[j]);
        }
        lemma_draw_rows_agree(b1.0, b2.0, mem, i, x0, y + 1, row + 1, n);
        lemma_draw_rows_frame(b1.0, mem, i, x0, y + 1, row + 1, n);
        lemma_draw_rows_frame(b2.0, mem, i, x0, y + 1, row + 1, n);
        assert forall|j: int|
            pix_idx(0, y) <= j < 2048 implies #[trigger] draw_rows(p1, mem, i, x0, y, row, n).0[j]
            == draw_rows(p2, mem, i, x0, y, row, n).0[j] by {
            if j < pix_idx(0, y + 1) {
                assert(draw_rows(b1.0, mem, i, x0, y + 1, row + 1, n).0[j] == b1.0[j]);
                assert(draw_rows(b2.0, mem, i, x0, y + 1, row + 1, n).0[j] == b2.0[j]);
                if pix_idx(x0, y) <= j < pix_idx(63, y) {
                    assert(b1.0[j] == b2.0[j]);
                } else {
                    assert(b1.0[j] == p1[j] && b2.0[j] == p2[j]);
                }
            } else {
                assert(draw_rows(b1.0, mem, i, x0, y + 1, row + 1, n).0[j] == draw_rows(
                    b2.0,
                    mem,
                    i,
                    x0,
                    y + 1,
                    row + 1,
                    n,
                ).0[j]);
            }
        }
    }
}

/// Drawing the same sprite twice at the same coordinates restores the grid
/// to its pre-draw state (XOR is self-inverse), and the second draw collides
/// exactly where the first draw turned a pixel on.
pub proof fn lemma_draw_rows_twice(
    p: Seq<bool>,
    mem: Seq<u8>,
    i: int,
    x0: int,
    y: int,
    row: int,
    n: int,
)
    requires
        p.len() == 2048,
        0 <= x0 < 64,
        0 <= y,
    ensures
        ({
            let r1 = draw_rows(p, mem, i, x0, y, row, n);
            let r2 = draw_rows(r1.0, mem, i, x0, y, row, n);
            &&& r2.0 == p
            &&& (r2.1 <==> exists|j: int| 0 <= j < 2048 && r1.0[j] && !p[j])
        }),
    decreases n - row,
{
    let r1 = draw_rows(p, mem, i, x0, y, row, n);
    let r2 = draw_rows(r1.0, mem, i, x0, y, row, n);
    if row >= n || y >= 31 {
        assert(!(exists|j: int| 0 <= j < 2048 && r1.0[j] && !p[j])) by {
            assert(forall|j: int| 0 <= j < 2048 ==> !(p[j] && !p[j]));
        }
    } else {
        let b = mem[i + row];
        let b1 = draw_bits(p, b, x0, y, 0);
        let rr1 = draw_rows(b1.0, mem, i, x0, y + 1, row + 1, n);
        assert(r1.0 == rr1.0 && r1.1 == (b1.1 || rr1.1));
        lemma_draw_bits_frame(p, b, x0, y, 0);
        lemma_draw_rows_frame(b1.0, mem, i, x0, y + 1, row + 1, n);
        // the second pass over row y sees row y as the first pass left it
        let b2 = draw_bits(r1.0, b, x0, y, 0);
        lemma_draw_bits_agree(r1.0, b1.0, b, x0, y, 0);
        lemma_draw_bits_frame(r1.0, b, x0, y, 0);
        let b1t = draw_bits(b1.0, b, x0, y, 0);
        lemma_draw_bits_frame(b1.0, b, x0, y, 0);
        lemma_draw_bits_twice(p, b, x0, y, 0);
        assert(b1t.0 == p);
        // and the second pass over the rows below starts from what the first
        // pass left there
        let rr2 = draw_rows(b2.0, mem, i, x0, y + 1, row + 1, n);
        assert(r2.0 == rr2.0 && r2.1 == (b2.1 || rr2.1));
        assert(forall|j: int| pix_idx(0, y + 1) <= j < 2048 ==> b2.0[j] == rr1.0[j]);
        lemma_draw_rows_agree(b2.0, rr1.0, mem, i, x0, y + 1, row + 1, n);
        let rrh = draw_rows(rr1.0, mem, i, x0, y + 1, row + 1, n);
        lemma_draw_rows_twice(b1.0, mem, i, x0, y + 1, row + 1, n);
        assert(rrh.0 == b1.0);
        lemma_draw_rows_frame(b2.0, mem, i, x0, y + 1, row + 1, n);
        lemma_draw_rows_frame(rr1.0, mem, i, x0, y + 1, row + 1, n);
        assert(r2.0 =~= p) by {
            assert(forall|j: int| pix_idx(0, y + 1) <= j < 2048 ==> rr2.0[j] == rrh.0[j]);
            assert(forall|j: int|
                0 <= j < pix_idx(0, y + 1) ==> rr2.0[j] == b2.0[j] && b2.0[j] == b1t.0[j]);
        }
        assert(r2.1 <==> exists|j: int| 0 <= j < 2048 && r1.0[j] && !p[j]) by {
            assert(b2.1 == b1t.1);
            assert(b1t.1 <==> exists|j: int| 0 <= j < 2048 && b1.0[j] && !p[j]);
            assert(rr2.1 == rrh.1);
            assert(rrh.1 <==> exists|j: int| 0 <= j < 2048 && rr1.0[j] && !b1.0[j]);
            if r2.1 {
                if b2.1 {
                    let jw = choose|j: int| 0 <= j < 2048 && b1.0[j] && !p[j];
                    assert(jw < pix_idx(0, y + 1));
                    assert(r1.0[jw] && !p[jw]);
                } else {
                    let jw = choose|j: int| 0 <= j < 2048 && rr1.0[j] && !b1.0[j];
                    assert(pix_idx(0, y + 1) <= jw);
                    assert(r1.0[jw] && !p[jw]);
                }
            }
            if exists|j: int| 0 <= j < 2048 && r1.0[j] && !p[j] {
                let jw = choose|j: int| 0 <= j < 2048 && r1.0[j] && !p[j];
                if jw < pix_idx(0, y + 1) {
                    assert(b1.0[jw] && !p[jw]);
                } else {
                    if b1.0[jw] {
                        assert(b1.0[jw] && !p[jw]);
                    } else {
                        assert(rr1.0[jw] && !b1.0[jw]);
                    }
                }
            }
        }
    }
}

/// The draw instruction applied twice with the same registers restores the
/// pixel grid, and the second draw raises the collision flag exactly when
/// the first draw turned some pixel on.
pub proof fn lemma_draw_twice_restores(s: State, x: int, y: int, n: u8)
    requires
        wf_state(s),
        0 <= x < 15,
        0 <= y < 15,
        n < 16,
        step_draw(s, x, y, n) is Ok,
    ensures
        step_draw(step_draw(s, x, y, n)->Ok_0, x, y, n) is Ok,
        ({
            let s1 = step_draw(s, x, y, n)->Ok_0;
            let s2 = step_draw(s1, x, y, n)->Ok_0;
            &&& s2.pixels == s.pixels
            &&& (s2.v[15] == 1 <==> exists|j: int| 0 <= j < 2048 && s1.pixels[j] && !s.pixels[j])
        }),
{
    let s1 = step_draw(s, x, y, n)->Ok_0;
    let x0 = s.v[x] as int % 64;
    let y0 = s.v[y] as int % 32;
    assert(s1.v[x] == s.v[x] && s1.v[y] == s.v[y]);
    lemma_draw_rows_twice(s.pixels, s.memory, s.i as int, x0, y0, 0, n as int);
    let r2 = draw_rows(s1.pixels, s.memory, s.i as int, x0, y0, 0, n as int);
    assert(step_draw(s1, x, y, n) == Ok::<State, Chip8Error>(
        State { pixels: r2.0, v: s1.v.update(15, if r2.1 { 1u8 } else { 0u8 }), ..s1 },
    ));
}

/// Storing registers 0..=x at the index register (Fx55) and immediately
/// loading them back (Fx65) with the same x and index register leaves every
/// register exactly as it was, provided the store does not overwrite the
/// load instruction itself.
pub proof fn lemma_store_load_round_trip(s: State, keys: Seq<bool>, rnd: u8)
    requires
        wf_state(s),
        s.pc as int + 3 < 4096,
        ({
            let w1 = word_at(s.memory, s.pc as int);
            let w2 = word_at(s.memory, s.pc as int + 2);
            &&& op_a(w1) == 0xF
            &&& op_nn(w1) == 0x55
            &&& op_a(w2) == 0xF
            &&& op_nn(w2) == 0x65
            &&& op_x(w2) == op_x(w1)
            &&& s.i as int + op_x(w1) < 4096
            &&& (s.i as int + op_x(w1) < s.pc as int + 2 || s.i as int > s.pc as int + 3)
        }),
    ensures
        spec_step(s, keys, rnd) is Ok,
        spec_step(spec_step(s, keys, rnd)->Ok_0, keys, rnd) is Ok,
        spec_step(spec_step(s, keys, rnd)->Ok_0, keys, rnd)->Ok_0.v == s.v,
{
    let w1 = word_at(s.memory, s.pc as int);
    let x = op_x(w1) as int;
    let i = s.i as int;
    let s1 = spec_step(s, keys, rnd)->Ok_0;
    assert(s1.memory[s.pc as int + 2] == s.memory[s.pc as int + 2]);
    assert(s1.memory[s.pc as int + 3] == s.memory[s.pc as int + 3]);
    assert(word_at(s1.memory, s1.pc as int) == word_at(s.memory, s.pc as int + 2));
    let s2 = spec_step(s1, keys, rnd)->Ok_0;
    assert forall|k: int| 0 <= k < 16 implies s2.v[k] == s.v[k] by {
        if k <= x {
            assert(s1.memory[i + k] == s.v[k]);
        }
    }
    assert(s2.v =~= s.v);
}

} // verus!

