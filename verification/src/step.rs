//! The mathematical model of the machine and of one fetch-decode-execute
//! step. `spec_step` is the reference the executable engine is proved
//! against: it takes the state, the key snapshot, and the byte the random
//! instruction would draw, and returns either the next state or the fatal
//! error the step runs into.

use vstd::prelude::*;

use crate::display::{blank_grid, draw_bits};
use crate::instruction::{op_a, op_n, op_nn, op_nnn, op_x, op_y};

verus! {

/// A fatal condition the engine has no recovery policy for: executing it
/// would operate on undefined state, so the step reports it instead.
#[derive(Debug, Clone, Copy, PartialEq, Eq, Structural)]
pub enum Chip8Error {
    /// The fetched word decodes to no recognized operation.
    UnknownInstruction,
    /// A return was executed with an empty call stack.
    StackUnderflow,
    /// A fetch or a memory-relative access fell outside the 4096 bytes.
    OutOfBounds,
    /// A key test named a key index above 15.
    InvalidKey,
}

/// The machine state as the contracts speak of it.
pub struct State {
    pub pc: u16,
    pub memory: Seq<u8>,
    pub stack: Seq<u16>,
    pub delay: u8,
    pub sound: u8,
    pub i: u16,
    pub v: Seq<u8>,
    pub pixels: Seq<bool>,
}

pub open spec fn wf_state(s: State) -> bool {
    &&& s.memory.len() == 4096
    &&& s.v.len() == 16
    &&& s.pixels.len() == 2048
}

/// The standard hex-digit glyph set: 16 glyphs of 5 bytes each, bit-exact.
pub open spec fn font() -> Seq<u8> {
    seq![
        0xF0u8, 0x90, 0x90, 0x90, 0xF0, // 0
        0x20, 0x60, 0x20, 0x20, 0x70, // 1
        0xF0, 0x10, 0xF0, 0x80, 0xF0, // 2
        0xF0, 0x10, 0xF0, 0x10, 0xF0, // 3
        0x90, 0x90, 0xF0, 0x10, 0x10, // 4
        0xF0, 0x80, 0xF0, 0x10, 0xF0, // 5
        0xF0, 0x80, 0xF0, 0x90, 0xF0, // 6
        0xF0, 0x10, 0x20, 0x40, 0x40, // 7
        0xF0, 0x90, 0xF0, 0x90, 0xF0, // 8
        0xF0, 0x90, 0xF0, 0x10, 0xF0, // 9
        0xF0, 0x90, 0xF0, 0x90, 0x90, // A
        0xE0, 0x90, 0xE0, 0x90, 0xE0, // B
        0xF0, 0x80, 0x80, 0x80, 0xF0, // C
        0xE0, 0x90, 0x90, 0x90, 0xE0, // D
        0xF0, 0x80, 0xF0, 0x80, 0xF0, // E
        0xF0, 0x80, 0xF0, 0x80, 0x80, // F
    ]
}

/// Memory as the constructor leaves it: the font at 0x050..0x0A0, zero
/// everywhere else.
pub open spec fn initial_memory() -> Seq<u8> {
    Seq::new(4096, |j: int| if 0x50 <= j < 0xA0 { font()[j - 0x50] } else { 0u8 })
}

/// The state the machine is constructed in.
pub open spec fn initial_state() -> State {
    State {
        pc: 0x200,
        memory: initial_memory(),
        stack: Seq::empty(),
        delay: 0,
        sound: 0,
        i: 0,
        v: Seq::new(16, |k: int| 0u8),
        pixels: blank_grid(),
    }
}

/// `mem` with `data` copied in verbatim starting at `addr`.
pub open spec fn mem_loaded(mem: Seq<u8>, addr: int, data: Seq<u8>) -> Seq<u8> {
    Seq::new(
        mem.len(),
        |j: int| if addr <= j < addr + data.len() { data[j - addr] } else { mem[j] },
    )
}

/// The 16-bit word stored big-endian at `pc`.
pub open spec fn word_at(mem: Seq<u8>, pc: int) -> u16 {
    (((mem[pc] as u16) << 8) | (mem[pc + 1] as u16)) as u16
}

/// 8-bit wraparound sum.
pub open spec fn wrap_add(a: u8, b: u8) -> u8 {
    ((a + b) % 256) as u8
}

/// 8-bit wraparound difference.
pub open spec fn wrap_sub(a: u8, b: u8) -> u8 {
    ((a + 256 - b) % 256) as u8
}

/// One timer value after an external tick: down by one, floored at zero.
pub open spec fn ticked(t: u8) -> u8 {
    if t > 0 {
        (t - 1) as u8
    } else {
        0
    }
}

/// The program counter after a conditional skip: two further ahead when the
/// condition holds.
pub open spec fn skip_pc(pc: u16, cond: bool) -> u16 {
    if cond {
        (pc + 2) as u16
    } else {
        pc
    }
}

/// The lowest-numbered pressed key at or above `k`, or 16 when none is.
pub open spec fn first_pressed(keys: Seq<bool>, k: int) -> int
    decreases 16 - k,
{
    if k < 0 || k >= 16 {
        16
    } else if keys[k] {
        k
    } else {
        first_pressed(keys, k + 1)
    }
}

/// How many sprite rows a draw starting at row `y0` actually processes:
/// all `n` of them, unless the cursor reaches the last row first.
pub open spec fn rows_drawn(y0: int, n: int) -> int {
    if n <= 31 - y0 { n } else { 31 - y0 }
}

/// The grid and collision flag after drawing sprite rows `row..n` read from
/// `mem[i + row]` onward, with the cursor at row `y`. Drawing stops once the
/// cursor reaches the last row: sprites are clipped, not wrapped, at the
/// bottom edge.
pub open spec fn draw_rows(
    p: Seq<bool>,
    mem: Seq<u8>,
    i: int,
    x0: int,
    y: int,
    row: int,
    n: int,
) -> (Seq<bool>, bool)
    decreases n - row,
{
    if row >= n || y >= 31 {
        (p, false)
    } else {
        let r1 = draw_bits(p, mem[i + row], x0, y, 0);
        let r2 = draw_rows(r1.0, mem, i, x0, y + 1, row + 1, n);
        (r2.0, r1.1 || r2.1)
    }
}

/// The sprite instruction: coordinates are the named registers taken modulo
/// the grid size, the flag register reports whether any pixel was toggled
/// off, and a sprite row read outside memory is fatal.
pub open spec fn step_draw(s: State, x: int, y: int, n: u8) -> Result<State, Chip8Error> {
    let x0 = s.v[x] as int % 64;
    let y0 = s.v[y] as int % 32;
    let rows = rows_drawn(y0, n as int);
    if rows > 0 && s.i as int + rows - 1 >= 4096 {
        Err(Chip8Error::OutOfBounds)
    } else {
        let r = draw_rows(s.pixels, s.memory, s.i as int, x0, y0, 0, n as int);
        Ok(State { pixels: r.0, v: s.v.update(15, if r.1 { 1u8 } else { 0u8 }), ..s })
    }
}

/// The register-to-register family, selected by the low nibble. The flag
/// register is written in the same order as the executable engine writes it,
/// so the contracts are exact even when it is itself an operand.
pub open spec fn step_alu(s: State, x: int, y: int, n: u8) -> Result<State, Chip8Error> {
    if n == 0x0 {
        Ok(State { v: s.v.update(x, s.v[y]), ..s })
    } else if n == 0x1 {
        Ok(State { v: s.v.update(x, s.v[x] | s.v[y]), ..s })
    } else if n == 0x2 {
        Ok(State { v: s.v.update(x, s.v[x] & s.v[y]), ..s })
    } else if n == 0x3 {
        Ok(State { v: s.v.update(x, s.v[x] ^ s.v[y]), ..s })
    } else if n == 0x4 {
        let carry: u8 = if s.v[x] + s.v[y] > 255 { 1 } else { 0 };
        Ok(State { v: s.v.update(x, wrap_add(s.v[x], s.v[y])).update(15, carry), ..s })
    } else if n == 0x5 {
        let flag: u8 = if s.v[x] >= s.v[y] { 1 } else { 0 };
        let v1 = s.v.update(15, flag);
        Ok(State { v: v1.update(x, wrap_sub(v1[x], v1[y])), ..s })
    } else if n == 0x6 {
        let v1 = s.v.update(15, s.v[x] & 1);
        Ok(State { v: v1.update(x, v1[x] >> 1u8), ..s })
    } else if n == 0x7 {
        let flag: u8 = if s.v[y] >= s.v[x] { 1 } else { 0 };
        let v1 = s.v.update(15, flag);
        Ok(State { v: v1.update(x, wrap_sub(v1[y], v1[x])), ..s })
    } else if n == 0xE {
        let v1 = s.v.update(15, (s.v[x] >> 7u8) & 1);
        Ok(State { v: v1.update(x, (v1[x] << 1u8) as u8), ..s })
    } else {
        Err(Chip8Error::UnknownInstruction)
    }
}

/// The key-test family: skip on the pressed state of the key named by the
/// register, which must be one of the 16 logical keys.
pub open spec fn step_key(s: State, x: int, nn: u8, keys: Seq<bool>) -> Result<
    State,
    Chip8Error,
> {
    if nn == 0x9E {
        if s.v[x] >= 16 {
            Err(Chip8Error::InvalidKey)
        } else {
            Ok(State { pc: skip_pc(s.pc, keys[s.v[x] as int]), ..s })
        }
    } else if nn == 0xA1 {
        if s.v[x] >= 16 {
            Err(Chip8Error::InvalidKey)
        } else {
            Ok(State { pc: skip_pc(s.pc, !keys[s.v[x] as int]), ..s })
        }
    } else {
        Err(Chip8Error::UnknownInstruction)
    }
}

/// The timer, key-wait and memory-transfer family, selected by the low byte.
/// The key wait rewinds the program counter over itself while no key is
/// pressed; the memory transfers leave the index register unchanged and are
/// fatal when they would reach outside memory.
pub open spec fn step_misc(s: State, x: int, nn: u8, keys: Seq<bool>) -> Result<
    State,
    Chip8Error,
> {
    if nn == 0x07 {
        Ok(State { v: s.v.update(x, s.delay), ..s })
    } else if nn == 0x0A {
        let k = first_pressed(keys, 0);
        if k < 16 {
            Ok(State { v: s.v.update(x, k as u8), ..s })
        } else {
            Ok(State { pc: (s.pc - 2) as u16, ..s })
        }
    } else if nn == 0x15 {
        Ok(State { delay: s.v[x], ..s })
    } else if nn == 0x18 {
        Ok(State { sound: s.v[x], ..s })
    } else if nn == 0x1E {
        Ok(State { i: ((s.i + s.v[x]) % 0x10000) as u16, ..s })
    } else if nn == 0x29 {
        Ok(State { i: (0x50 + (s.v[x] & 0xF) * 5) as u16, ..s })
    } else if nn == 0x33 {
        if s.i as int + 2 >= 4096 {
            Err(Chip8Error::OutOfBounds)
        } else {
            let d = s.v[x];
            Ok(
                State {
                    memory: s.memory.update(s.i as int, d / 100).update(
                        s.i as int + 1,
                        (d / 10) % 10,
                    ).update(s.i as int + 2, d % 10),
                    ..s
                },
            )
        }
    } else if nn == 0x55 {
        if s.i as int + x >= 4096 {
            Err(Chip8Error::OutOfBounds)
        } else {
            Ok(
                State {
                    memory: Seq::new(
                        4096,
                        |j: int|
                            if s.i as int <= j <= s.i as int + x {
                                s.v[j - s.i as int]
                            } else {
                                s.memory[j]
                            },
                    ),
                    ..s
                },
            )
        }
    } else if nn == 0x65 {
        if s.i as int + x >= 4096 {
            Err(Chip8Error::OutOfBounds)
        } else {
            Ok(
                State {
                    v: Seq::new(
                        16,
                        |k: int| if k <= x { s.memory[s.i as int + k] } else { s.v[k] },
                    ),
                    ..s
                },
            )
        }
    } else {
        Err(Chip8Error::UnknownInstruction)
    }
}

/// Dispatch of one decoded word against the state `s`, in which the program
/// counter has already advanced past the word.
pub open spec fn step_decoded(s: State, w: u16, keys: Seq<bool>, rnd: u8) -> Result<
    State,
    Chip8Error,
> {
    let a = op_a(w);
    let x = op_x(w) as int;
    let y = op_y(w) as int;
    let n = op_n(w);
    let nn = op_nn(w);
    let nnn = op_nnn(w);
    if a == 0x0 {
        if x == 0 && y == 0xE && n == 0x0 {
            Ok(State { pixels: blank_grid(), ..s })
        } else if x == 0 && y == 0xE && n == 0xE {
            if s.stack.len() == 0 {
                Err(Chip8Error::StackUnderflow)
            } else {
                Ok(State { pc: s.stack.last(), stack: s.stack.drop_last(), ..s })
            }
        } else {
            Err(Chip8Error::UnknownInstruction)
        }
    } else if a == 0x1 {
        Ok(State { pc: nnn, ..s })
    } else if a == 0x2 {
        Ok(State { stack: s.stack.push(s.pc), pc: nnn, ..s })
    } else if a == 0x3 {
        Ok(State { pc: skip_pc(s.pc, s.v[x] == nn), ..s })
    } else if a == 0x4 {
        Ok(State { pc: skip_pc(s.pc, s.v[x] != nn), ..s })
    } else if a == 0x5 {
        if n == 0 {
            Ok(State { pc: skip_pc(s.pc, s.v[x] == s.v[y]), ..s })
        } else {
            Err(Chip8Error::UnknownInstruction)
        }
    } else if a == 0x6 {
        Ok(State { v: s.v.update(x, nn), ..s })
    } else if a == 0x7 {
        Ok(State { v: s.v.update(x, wrap_add(s.v[x], nn)), ..s })
    } else if a == 0x8 {
        step_alu(s, x, y, n)
    } else if a == 0x9 {
        if n == 0 {
            Ok(State { pc: skip_pc(s.pc, s.v[x] != s.v[y]), ..s })
        } else {
            Err(Chip8Error::UnknownInstruction)
        }
    } else if a == 0xA {
        Ok(State { i: nnn, ..s })
    } else if a == 0xB {
        Ok(State { pc: (nnn + s.v[0]) as u16, ..s })
    } else if a == 0xC {
        Ok(State { v: s.v.update(x, rnd & nn), ..s })
    } else if a == 0xD {
        step_draw(s, x, y, n)
    } else if a == 0xE {
        step_key(s, x, nn, keys)
    } else {
        step_misc(s, x, nn, keys)
    }
}

/// One full cycle: fetch the word at the program counter (fatal when the
/// fetch would reach outside memory), advance the counter past it, and
/// dispatch. `rnd` is the byte the random instruction draws; every other
/// operation ignores it.
pub open spec fn spec_step(s: State, keys: Seq<bool>, rnd: u8) -> Result<State, Chip8Error> {
    if s.pc as int + 1 >= 4096 {
        Err(Chip8Error::OutOfBounds)
    } else {
        let w = word_at(s.memory, s.pc as int);
        step_decoded(State { pc: (s.pc + 2) as u16, ..s }, w, keys, rnd)
    }
}

} // verus!
