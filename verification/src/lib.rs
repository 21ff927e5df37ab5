//! A verified CHIP-8 interpreter core.
//!
//! The machine state, the fetch-decode-execute cycle, the full instruction
//! semantics (including wraparound arithmetic, flag-register side effects and
//! XOR sprite rasterization with collision detection), and the timer model.
//! Presentation of the framebuffer, audio output, key mapping and pacing are
//! left to the caller: the core is a synchronous state-transition function.
//!
//! `Chip8::process_instruction` is proved to take the machine state exactly
//! to what the model `step::spec_step` returns, for some value of the byte
//! the random instruction draws; on a fatal error it leaves the state
//! untouched and reports which invariant the program broke.

use vstd::prelude::*;

pub mod display;
pub mod instruction;
pub mod laws;
pub mod step;

use crate::display::Display;
use crate::instruction::Instruction;
use crate::step::{
    font, initial_state, mem_loaded, spec_step, step_alu, step_draw, step_key,
    wf_state, word_at, Chip8Error, State, draw_rows, first_pressed, rows_drawn,
    ticked,
};

verus! {

pub const STARTING_PC: u16 = 0x200;
pub const DISPLAY_WIDTH: usize = 64;
pub const DISPLAY_HEIGHT: usize = 32;

const MEMORY_SIZE: usize = 4096;
const FONT_OFFSET: usize = 0x050;

/// Relies on rand::random: one byte from the thread-local generator,
/// uniformly distributed over 0..=255. Nothing can be promised of the value.
#[verifier::external_body]
fn random_byte() -> u8 {
    rand::random::<u8>()
}

/// The font table as an in-memory byte vector.
fn font_table() -> (r: Vec<u8>)
    ensures
        r@ == font(),
{
    let r: Vec<u8> = vec![
        0xF0, 0x90, 0x90, 0x90, 0xF0, // 0
        0x20, 0x60, 0x20, 0x20, 0x70, // 1
        0xF0, 0x10, 0xF0, 0x80, 0xF0, // 2
        0xF0, 0x10, 0xF0, 0x10, 0xF0, // 3
        0x90, 0x90, 0xF0, 0x10, 0x10, // 4
        0xF0, 0x80, 0xF0, 0x10, 0xF0, // 5
        0xF0, 0x80, 0xF0, 0x90, 0xF0, // 6
        0xF0, 0x10, 0x20, 0x40, 0x40, // 7
        0xF0, 0x90, 0xF0, 0x90, 0xF0, // 8
        0xF0, 0x90, 0xF0, 0x10, 0xF0, // 9
        0xF0, 0x90, 0xF0, 0x90, 0x90, // A
        0xE0, 0x90, 0xE0, 0x90, 0xE0, // B
        0xF0, 0x80, 0x80, 0x80, 0xF0, // C
        0xE0, 0x90, 0x90, 0x90, 0xE0, // D
        0xF0, 0x80, 0xF0, 0x80, 0xF0, // E
        0xF0, 0x80, 0xF0, 0x80, 0x80, // F
    ];
    proof {
        assert(r@ =~= font());
    }
    r
}

/// The index of the lowest-numbered pressed key, if any is pressed.
fn find_first_pressed(keys: &[bool; 16]) -> (r: Option<u8>)
    ensures
        match r {
            Some(k) => k < 16 && first_pressed(keys@, 0) == k as int,
            None => first_pressed(keys@, 0) == 16,
        },
{
    let mut k: usize = 0;
    while k < 16
        invariant
            k <= 16,
            first_pressed(keys@, 0) == first_pressed(keys@, k as int),
        decreases 16 - k,
    {
        if keys[k] {
            return Some(k as u8);
        }
        k += 1;
    }
    None
}

/// The machine state: memory with the font burned in, the sixteen general
/// registers, the index register, the program counter, the call stack, the
/// two countdown timers, and the pixel grid.
pub struct Chip8 {
    pub pc: u16,
    pub display: Display,
    pub memory: Vec<u8>,
    pub stack: Vec<u16>,
    pub delay: u8,
    pub sound: u8,
    pub i: u16,
    pub v: Vec<u8>,
}

impl View for Chip8 {
    type V = State;

    open spec fn view(&self) -> State {
        State {
            pc: self.pc,
            memory: self.memory@,
            stack: self.stack@,
            delay: self.delay,
            sound: self.sound,
            i: self.i,
            v: self.v@,
            pixels: self.display@,
        }
    }
}

impl Chip8 {
    pub open spec fn wf(&self) -> bool {
        wf_state(self@)
    }

    /// A fresh machine: program counter at 0x200, font table burned in at
    /// its fixed offset, everything else zeroed.
    pub fn new() -> (r: Self)
        ensures
            r.wf(),
            r@ == initial_state(),
    {
        let mut memory: Vec<u8> = Vec::new();
        let mut j: usize = 0;
        while j < MEMORY_SIZE
            invariant
                j <= 4096,
                memory@.len() == j,
                forall|k: int| 0 <= k < j ==> memory@[k] == 0u8,
            decreases 4096 - j,
        {
            memory.push(0);
            j += 1;
        }
        let mut v: Vec<u8> = Vec::new();
        let mut k: usize = 0;
        while k < 16
            invariant
                k <= 16,
                v@.len() == k,
                forall|m: int| 0 <= m < k ==> v@[m] == 0u8,
            decreases 16 - k,
        {
            v.push(0);
            k += 1;
        }
        let mut chip8 = Chip8 {
            pc: STARTING_PC,
            display: Display::new(),
            memory,
            stack: Vec::new(),
            delay: 0,
            sound: 0,
            i: 0,
            v,
        };
        chip8.load_into_memory(FONT_OFFSET, font_table());
        proof {
            assert(chip8@.memory =~= initial_state().memory);
            assert(chip8@.v =~= initial_state().v);
            assert(chip8@.stack =~= initial_state().stack);
            assert(chip8@ == initial_state());
        }
        chip8
    }

    /// Copy a byte image verbatim into memory starting at `address`; nothing
    /// else changes. The caller loads a program at 0x200 with this.
    pub fn load_into_memory(&mut self, address: usize, data: Vec<u8>)
        requires
            old(self).wf(),
            address + data@.len() <= 4096,
        ensures
            final(self).wf(),
            final(self)@ == (State {
                memory: mem_loaded(old(self)@.memory, address as int, data@),
                ..old(self)@
            }),
    {
        let mut k: usize = 0;
        while k < data.len()
            invariant
                old(self).wf(),
                self.wf(),
                address + data@.len() <= 4096,
                k <= data@.len(),
                self.pc == old(self).pc,
                self.display@ == old(self).display@,
                self.stack@ == old(self).stack@,
                self.delay == old(self).delay,
                self.sound == old(self).sound,
                self.i == old(self).i,
                self.v@ == old(self).v@,
                forall|j: int|
                    address <= j < address + k ==> self.memory@[j] == data@[j - address],
                forall|j: int|
                    0 <= j < 4096 && !(address <= j < address + k) ==> self.memory@[j] == old(
                        self,
                    ).memory@[j],
            decreases data@.len() - k,
        {
            let b = data[k];
            self.memory.set(address + k, b);
            k += 1;
        }
        proof {
            assert(self@.memory =~= mem_loaded(old(self)@.memory, address as int, data@));
        }
    }

    /// One external 60 Hz tick: each timer counts down if nonzero, flooring
    /// at zero, and the result reports whether the sound timer was nonzero
    /// before the tick, i.e. whether a tone should be sounding.
    pub fn tick_timers_and_check_beep(&mut self) -> (beep: bool)
        ensures
            final(self)@ == (State {
                delay: ticked(old(self)@.delay),
                sound: ticked(old(self)@.sound),
                ..old(self)@
            }),
            beep == (old(self)@.sound > 0),
    {
        if self.delay > 0 {
            self.delay = self.delay - 1;
        }
        if self.sound > 0 {
            self.sound = self.sound - 1;
            true
        } else {
            false
        }
    }

    /// The register-to-register family, already known to be a recognized
    /// operation; takes the state exactly to what `step_alu` says.
    #[verifier::rlimit(60)]
    fn exec_alu(&mut self, x: usize, y: usize, n: u8)
        requires
            old(self).wf(),
            x < 16,
            y < 16,
            n <= 7 || n == 0xE,
        ensures
            final(self).wf(),
            step_alu(old(self)@, x as int, y as int, n) == Ok::<State, Chip8Error>(final(self)@),
    {
        if n == 0x0 {
            let val = self.v[y];
            self.v.set(x, val);
        } else if n == 0x1 {
            let val = self.v[x] | self.v[y];
            self.v.set(x, val);
        } else if n == 0x2 {
            let val = self.v[x] & self.v[y];
            self.v.set(x, val);
        } else if n == 0x3 {
            let val = self.v[x] ^ self.v[y];
            self.v.set(x, val);
        } else if n == 0x4 {
            let a = self.v[x];
            let b = self.v[y];
            let carry: u8 = if (a as u16) + (b as u16) > 255 { 1 } else { 0 };
            self.v.set(x, a.wrapping_add(b));
            self.v.set(15, carry);
        } else if n == 0x5 {
            let flag: u8 = if self.v[x] >= self.v[y] { 1 } else { 0 };
            self.v.set(15, flag);
            let val = self.v[x].wrapping_sub(self.v[y]);
            self.v.set(x, val);
        } else if n == 0x6 {
            let flag = self.v[x] & 1;
            self.v.set(15, flag);
            let val = self.v[x] >> 1u8;
            self.v.set(x, val);
        } else if n == 0x7 {
            let flag: u8 = if self.v[y] >= self.v[x] { 1 } else { 0 };
            self.v.set(15, flag);
            let val = self.v[y].wrapping_sub(self.v[x]);
            self.v.set(x, val);
        } else {
            let flag = (self.v[x] >> 7u8) & 1;
            self.v.set(15, flag);
            let val = self.v[x] << 1u8;
            self.v.set(x, val);
        }
    }

    /// Draw sprite rows `row..n`, reading row bytes from memory at the index
    /// register, with the cursor at row `y`; only the pixel grid changes.
    fn draw_sprite_from(&mut self, x0: u8, y: u8, row: u8, n: u8) -> (c: bool)
        requires
            old(self).wf(),
            x0 < 64,
            y <= 31,
            row <= n,
            n < 16,
            rows_drawn(y as int, n - row) > 0 ==> old(self)@.i + row + rows_drawn(
                y as int,
                n - row,
            ) - 1 < 4096,
        ensures
            final(self).wf(),
            final(self)@ == (State {
                pixels: draw_rows(
                    old(self)@.pixels,
                    old(self)@.memory,
                    old(self)@.i as int,
                    x0 as int,
                    y as int,
                    row as int,
                    n as int,
                ).0,
                ..old(self)@
            }),
            c == draw_rows(
                old(self)@.pixels,
                old(self)@.memory,
                old(self)@.i as int,
                x0 as int,
                y as int,
                row as int,
                n as int,
            ).1,
        decreases n as int - row as int,
    {
        if row >= n || y >= 31 {
            return false;
        }
        assert(old(self)@.i + row < 4096);
        let byte = self.memory[self.i as usize + row as usize];
        let c1 = self.display.draw_row_bits(byte, x0, y, 0);
        let c2 = self.draw_sprite_from(x0, y + 1, row + 1, n);
        c1 || c2
    }

    /// Execute the instruction at the program counter against the key
    /// snapshot: fetch the big-endian word, advance the counter past it, and
    /// dispatch. The result is exactly a step of the model `spec_step`, for
    /// some value of the byte the random instruction draws; on a fatal error
    /// the state is left untouched and the error says which invariant the
    /// program broke.
    pub fn process_instruction(&mut self, pressed_inputs: &[bool; 16]) -> (r: Result<
        (),
        Chip8Error,
    >)
        requires
            old(self).wf(),
        ensures
            final(self).wf(),
            match r {
                Ok(()) => exists|rnd: u8|
                    spec_step(old(self)@, pressed_inputs@, rnd) == Ok::<State, Chip8Error>(
                        final(self)@,
                    ),
                Err(e) => spec_step(old(self)@, pressed_inputs@, 0) == Err::<State, Chip8Error>(e)
                    && final(self)@ == old(self)@,
            },
    {
        let ghost s0 = self@;
        let ghost keys = pressed_inputs@;
        if self.pc as usize + 1 >= MEMORY_SIZE {
            return Err(Chip8Error::OutOfBounds);
        }
        let hi = self.memory[self.pc as usize];
        let lo = self.memory[self.pc as usize + 1];
        let instr = Instruction::new(((hi as u16) << 8) | (lo as u16));
        let ghost w = instr@;
        proof {
            assert(w == word_at(s0.memory, s0.pc as int));
        }
        let pc2: u16 = self.pc + 2;
        let ghost s1 = State { pc: pc2, ..s0 };
        let a = instr.a();
        let x = instr.x();
        let y = instr.y();
        let n = instr.n();
        let nn = instr.nn();
        let nnn = instr.nnn();
        if a == 0x0 {
            if x == 0x0 && y == 0xE && n == 0x0 {
                self.display.clear();
                self.pc = pc2;
                proof {
                    assert(spec_step(s0, keys, 0u8) == Ok::<State, Chip8Error>(self@));
                }
                Ok(())
            } else if x == 0x0 && y == 0xE && n == 0xE {
                if self.stack.len() == 0 {
                    return Err(Chip8Error::StackUnderflow);
                }
                let addr = self.stack.pop().unwrap();
                self.pc = addr;
                proof {
                    assert(self@.stack =~= s1.stack.drop_last());
                    assert(spec_step(s0, keys, 0u8) == Ok::<State, Chip8Error>(self@));
                }
                Ok(())
            } else {
                Err(Chip8Error::UnknownInstruction)
            }
        } else if a == 0x1 {
            self.pc = nnn;
            proof {
                assert(spec_step(s0, keys, 0u8) == Ok::<State, Chip8Error>(self@));
            }
            Ok(())
        } else if a == 0x2 {
            self.stack.push(pc2);
            self.pc = nnn;
            proof {
                assert(spec_step(s0, keys, 0u8) == Ok::<State, Chip8Error>(self@));
            }
            Ok(())
        } else if a == 0x3 {
            self.pc = if self.v[x] == nn { pc2 + 2 } else { pc2 };
            proof {
                assert(spec_step(s0, keys, 0u8) == Ok::<State, Chip8Error>(self@));
            }
            Ok(())
        } else if a == 0x4 {
            self.pc = if self.v[x] != nn { pc2 + 2 } else { pc2 };
            proof {
                assert(spec_step(s0, keys, 0u8) == Ok::<State, Chip8Error>(self@));
            }
            Ok(())
        } else if a == 0x5 {
            if n != 0 {
                return Err(Chip8Error::UnknownInstruction);
            }
            self.pc = if self.v[x] == self.v[y] { pc2 + 2 } else { pc2 };
            proof {
                assert(spec_step(s0, keys, 0u8) == Ok::<State, Chip8Error>(self@));
            }
            Ok(())
        } else if a == 0x6 {
            self.pc = pc2;
            self.v.set(x, nn);
            proof {
                assert(spec_step(s0, keys, 0u8) == Ok::<State, Chip8Error>(self@));
            }
            Ok(())
        } else if a == 0x7 {
            self.pc = pc2;
            let val = self.v[x].wrapping_add(nn);
            self.v.set(x, val);
            proof {
                assert(spec_step(s0, keys, 0u8) == Ok::<State, Chip8Error>(self@));
            }
            Ok(())
        } else if a == 0x8 {
            if !(n <= 7 || n == 0xE) {
                return Err(Chip8Error::UnknownInstruction);
            }
            self.pc = pc2;
            self.exec_alu(x, y, n);
            proof {
                assert(spec_step(s0, keys, 0u8) == Ok::<State, Chip8Error>(self@));
            }
            Ok(())
        } else if a == 0x9 {
            if n != 0 {
                return Err(Chip8Error::UnknownInstruction);
            }
            self.pc = if self.v[x] != self.v[y] { pc2 + 2 } else { pc2 };
            proof {
                assert(spec_step(s0, keys, 0u8) == Ok::<State, Chip8Error>(self@));
            }
            Ok(())
        } else if a == 0xA {
            self.pc = pc2;
            self.i = nnn;
            proof {
                assert(spec_step(s0, keys, 0u8) == Ok::<State, Chip8Error>(self@));
            }
            Ok(())
        } else if a == 0xB {
            self.pc = nnn + self.v[0] as u16;
            proof {
                assert(spec_step(s0, keys, 0u8) == Ok::<State, Chip8Error>(self@));
            }
            Ok(())
        } else if a == 0xC {
            self.pc = pc2;
            let num = random_byte();
            self.v.set(x, num & nn);
            proof {
                assert(spec_step(s0, keys, num) == Ok::<State, Chip8Error>(self@));
            }
            Ok(())
        } else if a == 0xD {
            let xv = self.v[x] % 64;
            let yv = self.v[y] % 32;
            let rows: u8 = if n <= 31 - yv { n } else { 31 - yv };
            if rows > 0 && self.i as usize + (rows as usize - 1) >= MEMORY_SIZE {
                return Err(Chip8Error::OutOfBounds);
            }
            self.pc = pc2;
            let col = self.draw_sprite_from(xv, yv, 0, n);
            let flag: u8 = if col { 1 } else { 0 };
            self.v.set(15, flag);
            proof {
                assert(rows as int == rows_drawn(yv as int, n as int));
                assert(step_draw(s1, x as int, y as int, n) == Ok::<State, Chip8Error>(self@));
                assert(spec_step(s0, keys, 0u8) == Ok::<State, Chip8Error>(self@));
            }
            Ok(())
        } else if a == 0xE {
            if !(nn == 0x9E || nn == 0xA1) {
                return Err(Chip8Error::UnknownInstruction);
            }
            let key = self.v[x];
            if key >= 16 {
                return Err(Chip8Error::InvalidKey);
            }
            let pressed = pressed_inputs[key as usize];
            let cond = if nn == 0x9E { pressed } else { !pressed };
            self.pc = if cond { pc2 + 2 } else { pc2 };
            proof {
                assert(step_key(s1, x as int, nn, keys) == Ok::<State, Chip8Error>(self@));
                assert(spec_step(s0, keys, 0u8) == Ok::<State, Chip8Error>(self@));
            }
            Ok(())
        } else {
            assert(a == 0xF);
            if nn == 0x07 {
                self.pc = pc2;
                let d = self.delay;
                self.v.set(x, d);
                proof {
                    assert(spec_step(s0, keys, 0u8) == Ok::<State, Chip8Error>(self@));
                }
                Ok(())
            } else if nn == 0x0A {
                match find_first_pressed(pressed_inputs) {
                    Some(key) => {
                        self.pc = pc2;
                        self.v.set(x, key);
                    },
                    None => {},
                }
                proof {
                    assert(spec_step(s0, keys, 0u8) == Ok::<State, Chip8Error>(self@));
                }
                Ok(())
            } else if nn == 0x15 {
                self.pc = pc2;
                self.delay = self.v[x];
                proof {
                    assert(spec_step(s0, keys, 0u8) == Ok::<State, Chip8Error>(self@));
                }
                Ok(())
            } else if nn == 0x18 {
                self.pc = pc2;
                self.sound = self.v[x];
                proof {
                    assert(spec_step(s0, keys, 0u8) == Ok::<State, Chip8Error>(self@));
                }
                Ok(())
            } else if nn == 0x1E {
                self.pc = pc2;
                self.i = ((self.i as u32 + self.v[x] as u32) % 0x10000) as u16;
                proof {
                    assert(spec_step(s0, keys, 0u8) == Ok::<State, Chip8Error>(self@));
                }
                Ok(())
            } else if nn == 0x29 {
                self.pc = pc2;
                self.i = 0x50 + ((self.v[x] & 0xF) as u16) * 5;
                proof {
                    assert(spec_step(s0, keys, 0u8) == Ok::<State, Chip8Error>(self@));
                }
                Ok(())
            } else if nn == 0x33 {
                if self.i as usize + 2 >= MEMORY_SIZE {
                    return Err(Chip8Error::OutOfBounds);
                }
                self.pc = pc2;
                let d = self.v[x];
                let i0 = self.i as usize;
                self.memory.set(i0, d / 100);
                self.memory.set(i0 + 1, (d / 10) % 10);
                self.memory.set(i0 + 2, d % 10);
                proof {
                    assert(spec_step(s0, keys, 0u8) == Ok::<State, Chip8Error>(self@));
                }
                Ok(())
            } else if nn == 0x55 {
                if self.i as usize + x >= MEMORY_SIZE {
                    return Err(Chip8Error::OutOfBounds);
                }
                self.pc = pc2;
                let i0 = self.i as usize;
                let mut k: usize = 0;
                while k <= x
                    invariant
                        self.wf(),
                        x < 16,
                        k <= x + 1,
                        i0 + x < 4096,
                        self.pc == s1.pc,
                        self.display@ == s1.pixels,
                        self.stack@ == s1.stack,
                        self.delay == s1.delay,
                        self.sound == s1.sound,
                        self.i == s1.i,
                        i0 == s1.i,
                        self.v@ == s1.v,
                        forall|j: int| i0 <= j < i0 + k ==> self.memory@[j] == s1.v[j - i0],
                        forall|j: int|
                            0 <= j < 4096 && !(i0 <= j < i0 + k) ==> self.memory@[j]
                                == s1.memory[j],
                    decreases x + 1 - k,
                {
                    let val = self.v[k];
                    self.memory.set(i0 + k, val);
                    k += 1;
                }
                proof {
                    assert(self@.memory =~= Seq::new(
                        4096,
                        |j: int|
                            if s1.i as int <= j <= s1.i as int + x as int {
                                s1.v[j - s1.i as int]
                            } else {
                                s1.memory[j]
                            },
                    ));
                    assert(spec_step(s0, keys, 0u8) == Ok::<State, Chip8Error>(self@));
                }
                Ok(())
            } else if nn == 0x65 {
                if self.i as usize + x >= MEMORY_SIZE {
                    return Err(Chip8Error::OutOfBounds);
                }
                self.pc = pc2;
                let i0 = self.i as usize;
                let mut k: usize = 0;
                while k <= x
                    invariant
                        self.wf(),
                        x < 16,
                        k <= x + 1,
                        i0 + x < 4096,
                        self.pc == s1.pc,
                        self.display@ == s1.pixels,
                        self.stack@ == s1.stack,
                        self.delay == s1.delay,
                        self.sound == s1.sound,
                        self.i == s1.i,
                        i0 == s1.i,
                        self.memory@ == s1.memory,
                        forall|j: int| 0 <= j < k ==> self.v@[j] == s1.memory[i0 + j],
                        forall|j: int| k <= j < 16 ==> self.v@[j] == s1.v[j],
                    decreases x + 1 - k,
                {
                    let val = self.memory[i0 + k];
                    self.v.set(k, val);
                    k += 1;
                }
                proof {
                    assert(self@.v =~= Seq::new(
                        16,
                        |j: int| if j <= x as int { s1.memory[s1.i as int + j] } else { s1.v[j] },
                    ));
                    assert(spec_step(s0, keys, 0u8) == Ok::<State, Chip8Error>(self@));
                }
                Ok(())
            } else {
                Err(Chip8Error::UnknownInstruction)
            }
        }
    }
}

} // verus!
