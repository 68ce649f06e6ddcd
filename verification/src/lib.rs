pub mod display;
pub mod keypad;
pub mod properties;

pub use display::Display;
pub use keypad::Keypad;

use vstd::prelude::*;
use display::{blank_screen, draw_sprite_state};

verus! {

/// The whole machine state as mathematical values: what the contracts of `Cpu` speak of.
pub struct CpuState {
    pub memory: Seq<u8>,
    pub registers: Seq<u8>,
    pub i: u16,
    pub pc: u16,
    pub stack: Seq<u16>,
    pub sp: u8,
    pub delay_timer: u8,
    pub sound_timer: u8,
    pub pixels: Seq<bool>,
    pub keys: Seq<bool>,
}

impl CpuState {
    /// The sizes that the state of a `Cpu` always has.
    pub open spec fn well_formed(self) -> bool {
        &&& self.memory.len() == 4096
        &&& self.registers.len() == 16
        &&& self.stack.len() == 16
        &&& self.pixels.len() == 2048
        &&& self.keys.len() == 16
    }
}

/// The instruction class: the highest nibble of the opcode.
pub open spec fn op_kind(opcode: u16) -> int {
    opcode as int / 0x1000
}

/// The first register operand `x`: the second nibble of the opcode.
pub open spec fn op_x(opcode: u16) -> int {
    (opcode as int / 0x100) % 0x10
}

/// The second register operand `y`: the third nibble of the opcode.
pub open spec fn op_y(opcode: u16) -> int {
    (opcode as int / 0x10) % 0x10
}

/// The lowest nibble `n` of the opcode.
pub open spec fn op_n(opcode: u16) -> int {
    opcode as int % 0x10
}

/// The immediate byte `kk`: the low byte of the opcode.
pub open spec fn op_kk(opcode: u16) -> int {
    opcode as int % 0x100
}

/// The immediate address `nnn`: the low twelve bits of the opcode.
pub open spec fn op_nnn(opcode: u16) -> int {
    opcode as int % 0x1000
}

/// The big-endian opcode stored at `pc` and `pc + 1`.
pub open spec fn fetch_word(memory: Seq<u8>, pc: int) -> u16 {
    (memory[pc] as int * 0x100 + memory[pc + 1] as int) as u16
}

/// `s` with register `r` set to `value`.
pub open spec fn set_register(s: CpuState, r: int, value: int) -> CpuState {
    CpuState { registers: s.registers.update(r, value as u8), ..s }
}

/// `s` with the next instruction skipped when `condition` holds.
pub open spec fn skip_if(s: CpuState, condition: bool) -> CpuState {
    if condition {
        CpuState { pc: (s.pc + 2) as u16, ..s }
    } else {
        s
    }
}

/// Whether `pc` can be advanced past one instruction without overflowing.
pub open spec fn can_skip(s: CpuState) -> bool {
    s.pc + 2 <= u16::MAX
}

/// The effect of an `8xyN` instruction: register moves, bitwise and arithmetic operations,
/// with the carry, borrow or shifted-out bit in VF (written before VX for the shifts, after
/// VX for the additions and subtractions).
pub open spec fn arithmetic_spec(s: CpuState, opcode: u16) -> CpuState {
    let x = op_x(opcode);
    let y = op_y(opcode);
    let vx = s.registers[x];
    let vy = s.registers[y];
    let n = op_n(opcode);
    if n == 0x0 {
        set_register(s, x, vy as int)
    } else if n == 0x1 {
        set_register(s, x, (vx | vy) as int)
    } else if n == 0x2 {
        set_register(s, x, (vx & vy) as int)
    } else if n == 0x3 {
        set_register(s, x, (vx ^ vy) as int)
    } else if n == 0x4 {
        set_register(
            set_register(s, x, (vx + vy) % 0x100),
            0xF,
            if vx + vy > 0xFF { 1 } else { 0 },
        )
    } else if n == 0x5 {
        set_register(
            set_register(s, x, (vx - vy + 0x100) % 0x100),
            0xF,
            if vx >= vy { 1 } else { 0 },
        )
    } else if n == 0x6 {
        let t = set_register(s, 0xF, vx as int % 2);
        set_register(t, x, t.registers[x] as int / 2)
    } else if n == 0x7 {
        set_register(
            set_register(s, x, (vy - vx + 0x100) % 0x100),
            0xF,
            if vy >= vx { 1 } else { 0 },
        )
    } else if n == 0xE {
        let t = set_register(s, 0xF, vx as int / 0x80);
        set_register(t, x, (t.registers[x] * 2) % 0x100)
    } else {
        s
    }
}

/// The effect of an `ExNN` instruction: skip when the key named by VX is pressed (`Ex9E`) or
/// not pressed (`ExA1`).
pub open spec fn keyboard_spec(s: CpuState, opcode: u16) -> CpuState {
    let key = s.registers[op_x(opcode)] as int;
    if op_kk(opcode) == 0x9E {
        skip_if(s, s.keys[key])
    } else if op_kk(opcode) == 0xA1 {
        skip_if(s, !s.keys[key])
    } else {
        s
    }
}

/// The effect of an `FxNN` instruction: timers, and the index register.
pub open spec fn timer_spec(s: CpuState, opcode: u16) -> CpuState {
    let x = op_x(opcode);
    let vx = s.registers[x];
    let f = op_kk(opcode);
    if f == 0x07 {
        set_register(s, x, s.delay_timer as int)
    } else if f == 0x15 {
        CpuState { delay_timer: vx, ..s }
    } else if f == 0x18 {
        CpuState { sound_timer: vx, ..s }
    } else if f == 0x1E {
        CpuState { i: ((s.i + vx) % 0x10000) as u16, ..s }
    } else if f == 0x29 {
        CpuState { i: 0x200, ..s }
    } else {
        s
    }
}

/// The machine state after executing `opcode` in state `s`; `random` is the byte that a random
/// instruction (`Cxkk`) draws, and nothing else reads it.
pub open spec fn execute_spec(s: CpuState, opcode: u16, random: u8) -> CpuState {
    let kind = op_kind(opcode);
    let x = op_x(opcode);
    let y = op_y(opcode);
    let kk = op_kk(opcode);
    let nnn = op_nnn(opcode) as u16;
    let vx = s.registers[x];
    let vy = s.registers[y];
    if opcode == 0x00E0 {
        CpuState { pixels: blank_screen(), ..s }
    } else if opcode == 0x00EE {
        CpuState { sp: (s.sp - 1) as u8, pc: s.stack[s.sp - 1], ..s }
    } else if kind == 0x1 {
        CpuState { pc: nnn, ..s }
    } else if kind == 0x2 {
        CpuState { stack: s.stack.update(s.sp as int, s.pc), sp: (s.sp + 1) as u8, pc: nnn, ..s }
    } else if kind == 0x3 {
        skip_if(s, vx == kk)
    } else if kind == 0x4 {
        skip_if(s, vx != kk)
    } else if kind == 0x5 {
        skip_if(s, op_n(opcode) == 0 && vx == vy)
    } else if kind == 0x6 {
        set_register(s, x, kk)
    } else if kind == 0x7 {
        set_register(s, x, (vx + kk) % 0x100)
    } else if kind == 0x8 {
        arithmetic_spec(s, opcode)
    } else if kind == 0x9 {
        skip_if(s, op_n(opcode) == 0 && vx != vy)
    } else if kind == 0xA {
        CpuState { i: nnn, ..s }
    } else if kind == 0xB {
        CpuState { pc: ((nnn + s.registers[0]) % 0x10000) as u16, ..s }
    } else if kind == 0xC {
        set_register(s, x, (random & (kk as u8)) as int)
    } else if kind == 0xD {
        let drawn = draw_sprite_state(
            s.pixels,
            vx as int,
            vy as int,
            s.memory.subrange(s.i as int, s.i + op_n(opcode)),
        );
        CpuState { pixels: drawn.0, ..set_register(s, 0xF, if drawn.1 { 1 } else { 0 }) }
    } else if kind == 0xE {
        keyboard_spec(s, opcode)
    } else if kind == 0xF {
        timer_spec(s, opcode)
    } else {
        s
    }
}

/// The states in which executing `opcode` stays within the machine: a return needs a return
/// address on the stack, a call needs room for one, a skip must not carry `pc` past `u16::MAX`,
/// a sprite must lie in memory, and a key instruction must name one of the 16 keys.
pub open spec fn execute_requires(s: CpuState, opcode: u16) -> bool {
    let kind = op_kind(opcode);
    let x = op_x(opcode);
    let y = op_y(opcode);
    let kk = op_kk(opcode);
    let vx = s.registers[x];
    let vy = s.registers[y];
    if opcode == 0x00E0 {
        true
    } else if opcode == 0x00EE {
        1 <= s.sp <= 16
    } else if kind == 0x2 {
        s.sp < 16
    } else if kind == 0x3 {
        vx == kk ==> can_skip(s)
    } else if kind == 0x4 {
        vx != kk ==> can_skip(s)
    } else if kind == 0x5 {
        op_n(opcode) == 0 && vx == vy ==> can_skip(s)
    } else if kind == 0x9 {
        op_n(opcode) == 0 && vx != vy ==> can_skip(s)
    } else if kind == 0xD {
        s.i + op_n(opcode) <= 4096
    } else if kind == 0xE && (kk == 0x9E || kk == 0xA1) {
        &&& vx < 16
        &&& (kk == 0x9E && s.keys[vx as int]) ==> can_skip(s)
        &&& (kk == 0xA1 && !s.keys[vx as int]) ==> can_skip(s)
    } else {
        true
    }
}

/// Memory with `program` copied in from address `0x200` on.
pub open spec fn loaded_memory(memory: Seq<u8>, program: Seq<u8>) -> Seq<u8> {
    memory.subrange(0, 0x200) + program + memory.subrange(0x200 + program.len() as int, 4096)
}

/// The state once the opcode at `pc` has been fetched and `pc` moved past it.
pub open spec fn fetched(s: CpuState) -> CpuState {
    CpuState { pc: (s.pc + 2) as u16, ..s }
}

/// The machine state after one fetch-execute cycle.
pub open spec fn cycle_spec(s: CpuState, random: u8) -> CpuState {
    execute_spec(fetched(s), fetch_word(s.memory, s.pc as int), random)
}

/// The states in which one fetch-execute cycle stays within the machine.
pub open spec fn cycle_requires(s: CpuState) -> bool {
    &&& s.pc + 1 < 4096
    &&& execute_requires(fetched(s), fetch_word(s.memory, s.pc as int))
}

/// Draws a random byte from `rand::random`, the thread-local generator of the `rand` crate.
/// Nothing is stated of the value: it rests on chance. The call panics if the operating
/// system's random source cannot seed the generator, which no argument decides.
#[verifier::external_body]
fn random_byte() -> (byte: u8) {
    rand::random::<u8>()
}

/// A CHIP-8 virtual machine: memory, registers, call stack, timers, screen and keypad.
pub struct Cpu {
    /// The 4 KiB address space; programs start at `0x200`.
    pub memory: [u8; 4096],
    /// The registers V0 to VF; VF receives carry, borrow, shift and collision flags.
    pub registers: [u8; 16],
    /// The index register, from which sprites are read.
    pub i: u16,
    /// The address of the next instruction.
    pub pc: u16,
    /// Return addresses of the calls in progress.
    pub stack: [u16; 16],
    /// Number of return addresses on the stack.
    pub sp: u8,
    pub delay_timer: u8,
    pub sound_timer: u8,
    pub display: Display,
    pub keypad: Keypad,
}

impl View for Cpu {
    type V = CpuState;

    open spec fn view(&self) -> CpuState {
        CpuState {
            memory: self.memory@,
            registers: self.registers@,
            i: self.i,
            pc: self.pc,
            stack: self.stack@,
            sp: self.sp,
            delay_timer: self.delay_timer,
            sound_timer: self.sound_timer,
            pixels: self.display@,
            keys: self.keypad@,
        }
    }
}

/// The state of every `Cpu` has the sizes of its memory, registers, stack, screen and keypad.
pub proof fn lemma_cpu_well_formed(cpu: &Cpu)
    ensures
        cpu@.well_formed(),
{
}

impl Cpu {
    /// A machine with zeroed memory, registers, stack and timers, a blank screen, no key
    /// pressed, and `pc` at the program start `0x200`.
    pub fn new() -> (cpu: Cpu)
        ensures
            cpu@.memory == Seq::new(4096, |a: int| 0u8),
            cpu@.registers == Seq::new(16, |r: int| 0u8),
            cpu@.i == 0,
            cpu@.pc == 0x200,
            cpu@.stack == Seq::new(16, |k: int| 0u16),
            cpu@.sp == 0,
            cpu@.delay_timer == 0,
            cpu@.sound_timer == 0,
            cpu@.pixels == blank_screen(),
            cpu@.keys == Seq::new(16, |k: int| false),
    {
        let cpu = Self {
            memory: [0u8; 4096],
            registers: [0u8; 16],
            i: 0,
            pc: 0x200,
            stack: [0u16; 16],
            sp: 0u8,
            delay_timer: 0u8,
            sound_timer: 0u8,
            display: Display::new(),
            keypad: Keypad::new(),
        };
        assert(cpu@.memory =~= Seq::new(4096, |a: int| 0u8));
        assert(cpu@.registers =~= Seq::new(16, |r: int| 0u8));
        assert(cpu@.stack =~= Seq::new(16, |k: int| 0u16));
        cpu
    }

    /// Copies `program` into memory from address `0x200` on; nothing else changes.
    pub fn load_program(&mut self, program: &[u8])
        requires
            0x200 + program@.len() <= 4096,
        ensures
            final(self)@ == (CpuState { memory: loaded_memory(old(self)@.memory, program@), ..old(self)@ }),
    {
        let ghost start = self@;
        let program_start: usize = 0x200;
        let mut byte_index: usize = 0;
        while byte_index < program.len()
            invariant
                byte_index <= program@.len(),
                0x200 + program@.len() <= 4096,
                program_start == 0x200,
                self@ == (CpuState { memory: self@.memory, ..start }),
                self@.memory.len() == 4096,
                forall|a: int| 0 <= a < 0x200 + byte_index ==>
                    #[trigger] self@.memory[a] == if a < 0x200 { start.memory[a] } else { program@[a - 0x200] },
                forall|a: int| 0x200 + byte_index <= a < 4096 ==> #[trigger] self@.memory[a] == start.memory[a],
            decreases program@.len() - byte_index,
        {
            self.memory[program_start + byte_index] = program[byte_index];
            byte_index = byte_index + 1;
        }
        assert(self@.memory =~= loaded_memory(start.memory, program@));
    }

    /// Reads the opcode at `pc` (high byte first) and moves `pc` past it.
    pub fn fetch(&mut self) -> (opcode: u16)
        requires
            old(self).pc + 1 < 4096,
        ensures
            opcode == fetch_word(old(self)@.memory, old(self)@.pc as int),
            final(self)@ == fetched(old(self)@),
    {
        let high_byte: u8 = self.memory[self.pc as usize];
        let low_byte: u8 = self.memory[(self.pc + 1) as usize];
        self.pc = self.pc + 2;
        let opcode = ((high_byte as u16) << 8) | (low_byte as u16);
        assert(opcode == high_byte as int * 0x100 + low_byte as int) by (bit_vector)
            requires
                opcode == ((high_byte as u16) << 8) | (low_byte as u16),
        ;
        opcode
    }

    /// Returns register index from opcode
    pub fn register_index(opcode: u16) -> (index: usize)
        ensures
            index == op_x(opcode),
    {
        assert((opcode & 0x0F00) >> 8 == (opcode / 0x100) % 0x10) by (bit_vector);
        ((opcode & 0x0F00) >> 8) as usize
    }

    /// Returns the second register index (third nibble) from opcode
    pub fn second_register_index(opcode: u16) -> (index: usize)
        ensures
            index == op_y(opcode),
    {
        assert((opcode & 0x00F0) >> 4 == (opcode / 0x10) % 0x10) by (bit_vector);
        ((opcode & 0x00F0) >> 4) as usize
    }

    /// Returns immediate byte from opcode
    pub fn immediate_byte(opcode: u16) -> (byte: u8)
        ensures
            byte == op_kk(opcode),
    {
        assert(opcode & 0x00FF == opcode % 0x100) by (bit_vector);
        (opcode & 0x00FF) as u8
    }

    /// Returns instruction type in hexadecimal from opcode
    pub fn instruction_type(opcode: u16) -> (kind: u8)
        ensures
            kind == op_kind(opcode),
    {
        assert((opcode & 0xF000) >> 12 == opcode / 0x1000) by (bit_vector);
        ((opcode & 0xF000) >> 12) as u8
    }

    /// Returns immediate 12_bit data from opcode, can be used for address values and data
    pub fn immediate_12bit_data(opcode: u16) -> (data: u16)
        ensures
            data == op_nnn(opcode),
    {
        assert(opcode & 0x0FFF == opcode % 0x1000) by (bit_vector);
        opcode & 0x0FFF
    }

    /// Executes an `FxNN` instruction: timers and the index register.
    fn timer_and_utility_functions(&mut self, opcode: u16)
        ensures
            final(self)@ == timer_spec(old(self)@, opcode),
    {
        let function = opcode & 0x00FF;
        assert(function == op_kk(opcode)) by (bit_vector)
            requires
                function == opcode & 0x00FF,
        ;
        match function {
            0x07 => {
                let register = Self::register_index(opcode);

                self.registers[register] = self.delay_timer;
            },
            0x15 => {
                let register = Self::register_index(opcode);

                self.delay_timer = self.registers[register];
            },
            0x18 => {
                let register = Self::register_index(opcode);

                self.sound_timer = self.registers[register];
            },
            0x1E => {
                let register = Self::register_index(opcode);
                let data = self.registers[register];

                self.i = self.i.wrapping_add(data as u16);
            },
            0x29 => {
                self.i = 0x200;
            },
            _ => (),
        }
    }

    /// Executes an `ExNN` instruction: skips the next instruction depending on the key named
    /// by VX.
    fn keyboard_functions(&mut self, opcode: u16)
        requires
            op_kk(opcode) == 0x9E || op_kk(opcode) == 0xA1 ==> old(self)@.registers[op_x(opcode)] < 16,
            op_kk(opcode) == 0x9E && old(self)@.keys[old(self)@.registers[op_x(opcode)] as int]
                ==> can_skip(old(self)@),
            op_kk(opcode) == 0xA1 && !old(self)@.keys[old(self)@.registers[op_x(opcode)] as int]
                ==> can_skip(old(self)@),
        ensures
            final(self)@ == keyboard_spec(old(self)@, opcode),
    {
        let function = opcode & 0x00FF;
        assert(function == op_kk(opcode)) by (bit_vector)
            requires
                function == opcode & 0x00FF,
        ;
        match function {
            0x9E => {
                let key = self.registers[Self::register_index(opcode)];
                if self.keypad.is_pressed(key as usize) {
                    self.pc = self.pc + 2;
                }
            },
            0xA1 => {
                let key = self.registers[Self::register_index(opcode)];
                if !self.keypad.is_pressed(key as usize) {
                    self.pc = self.pc + 2;
                }
            },
            _ => (),
        }
    }

    /// Executes an `8xyN` instruction: register moves, bitwise and arithmetic operations.
    fn logic_and_arithmetic_functions(&mut self, opcode: u16)
        ensures
            final(self)@ == arithmetic_spec(old(self)@, opcode),
    {
        let function = opcode & 0x000F;
        assert(function == op_n(opcode)) by (bit_vector)
            requires
                function == opcode & 0x000F,
        ;
        let ghost s = self@;
        match function {
            // VX = VY
            0x0 => {
                let register_x = Self::register_index(opcode);
                let register_y = Self::second_register_index(opcode);

                self.registers[register_x] = self.registers[register_y];
            },
            // VX = (VX OR VY)
            0x1 => {
                let register_x = Self::register_index(opcode);
                let register_y = Self::second_register_index(opcode);

                self.registers[register_x] = self.registers[register_x] | self.registers[register_y];
            },
            // VX = (VX AND VY)
            0x2 => {
                let register_x = Self::register_index(opcode);
                let register_y = Self::second_register_index(opcode);

                self.registers[register_x] = self.registers[register_x] & self.registers[register_y];
            },
            // VX = (VX XOR VY)
            0x3 => {
                let register_x = Self::register_index(opcode);
                let register_y = Self::second_register_index(opcode);

                self.registers[register_x] = self.registers[register_x] ^ self.registers[register_y];
            },
            // VX = (VX + VY)
            0x4 => {
                let register_x = Self::register_index(opcode);
                let register_y = Self::second_register_index(opcode);
                let vx = self.registers[register_x];
                let vy = self.registers[register_y];

                let result = vx.wrapping_add(vy);
                let carry = vx as u16 + vy as u16 > 0xFF;

                self.registers[register_x] = result;
                self.registers[0xF] = if carry { 1 } else { 0 };
            },
            // VX = (VX - VY)
            0x5 => {
                let register_x = Self::register_index(opcode);
                let register_y = Self::second_register_index(opcode);
                let vx = self.registers[register_x];
                let vy = self.registers[register_y];

                let result = vx.wrapping_sub(vy);
                let borrow = vx < vy;

                self.registers[register_x] = result;
                self.registers[0xF] = if borrow { 0 } else { 1 };
            },
            // VX = (VX >> 1)
            0x6 => {
                let register_x = Self::register_index(opcode);
                let vx = self.registers[register_x];
                let low_bit = vx & 0x01;
                assert(low_bit == vx % 2) by (bit_vector)
                    requires
                        low_bit == vx & 0x01,
                ;

                self.registers[0xF] = low_bit;
                let shifted = self.registers[register_x];
                let result = shifted >> 1;
                assert(result == shifted / 2) by (bit_vector)
                    requires
                        result == shifted >> 1,
                ;
                self.registers[register_x] = result;
            },
            // VX = (VY - VX)
            0x7 => {
                let register_x = Self::register_index(opcode);
                let register_y = Self::second_register_index(opcode);
                let vx = self.registers[register_x];
                let vy = self.registers[register_y];

                let result = vy.wrapping_sub(vx);
                let borrow = vy < vx;

                self.registers[register_x] = result;
                self.registers[0xF] = if borrow { 0 } else { 1 };
            },
            // VX = (VX << 1)
            0xE => {
                let register_x = Self::register_index(opcode);
                let vx = self.registers[register_x];
                let high_bit = (vx & 0x80) >> 7;
                assert(high_bit == vx / 0x80) by (bit_vector)
                    requires
                        high_bit == (vx & 0x80) >> 7,
                ;

                self.registers[0xF] = high_bit;
                let shifted = self.registers[register_x];
                let result = shifted << 1;
                assert(result == (shifted as int * 2) % 0x100) by (bit_vector)
                    requires
                        result == shifted << 1,
                ;
                self.registers[register_x] = result;
            },
            _ => (),
        }
        assert(self@ == arithmetic_spec(s, opcode));
    }

    /// Executes one instruction; a random instruction (`Cxkk`) uses `random_byte` as the
    /// random value it draws.
    #[verifier::spinoff_prover]
    #[verifier::rlimit(40)]
    pub fn execute_with(&mut self, opcode: u16, random_byte: u8)
        requires
            execute_requires(old(self)@, opcode),
        ensures
            final(self)@ == execute_spec(old(self)@, opcode, random_byte),
    {
        let ghost s = self@;
        let instruction_type = Self::instruction_type(opcode);

        match opcode {
            // Clear Display Instruction
            0x00E0 => self.display.clear(),
            // Return from Call (branch) instruction
            0x00EE => {
                // Decrement stack pointer
                self.sp = self.sp - 1;
                // Pop address from stack into program counter
                self.pc = self.stack[self.sp as usize];
                return;
            },
            _ => (),
        }
        assert(opcode == 0x00E0 ==> instruction_type == 0) by (bit_vector)
            requires
                instruction_type == opcode / 0x1000,
        ;

        match instruction_type {
            // Jump Instruction
            0x1 => {
                let data = Self::immediate_12bit_data(opcode);

                self.pc = data;
            },
            // Call (branch) Instruction
            0x2 => {
                let address = Self::immediate_12bit_data(opcode);
                // First store current program counter address into stack
                self.stack[self.sp as usize] = self.pc;
                // Increment stack pointer
                self.sp = self.sp + 1;
                // Change program counter to new call (branch) address
                self.pc = address;
            },
            // Conditional if register == byte then skip instruction
            0x3 => {
                let register = Self::register_index(opcode);
                let byte = Self::immediate_byte(opcode);

                if self.registers[register] == byte {
                    self.pc = self.pc + 2;
                }
            },
            // Conditional if register != byte then skip instruction
            0x4 => {
                let register = Self::register_index(opcode);
                let byte = Self::immediate_byte(opcode);

                if self.registers[register] != byte {
                    self.pc = self.pc + 2;
                }
            },
            // Conditional if register_x == register_y then skip instruction
            0x5 => {
                if (opcode & 0x000F) != 0 {
                    assert(op_n(opcode) != 0) by (bit_vector)
                        requires
                            opcode & 0x000F != 0,
                    ;
                    return;
                }
                assert(op_n(opcode) == 0) by (bit_vector)
                    requires
                        opcode & 0x000F == 0,
                ;
                let register_x = Self::register_index(opcode);
                let register_y = Self::second_register_index(opcode);

                if self.registers[register_x] == self.registers[register_y] {
                    self.pc = self.pc + 2;
                }
            },
            // Load Immediate Instruction
            0x6 => {
                let register = Self::register_index(opcode);
                let byte = Self::immediate_byte(opcode);
                self.registers[register] = byte;
            },
            // Add Immediate Instruction
            0x7 => {
                let register = Self::register_index(opcode);
                let byte = Self::immediate_byte(opcode);
                self.registers[register] = self.registers[register].wrapping_add(byte);
            },
            // Logical Operations and Arithmetic Instructions
            0x8 => self.logic_and_arithmetic_functions(opcode),
            // Conditional if register_x != register_y then skip instruction
            0x9 => {
                if (opcode & 0x000F) != 0 {
                    assert(op_n(opcode) != 0) by (bit_vector)
                        requires
                            opcode & 0x000F != 0,
                    ;
                    return;
                }
                assert(op_n(opcode) == 0) by (bit_vector)
                    requires
                        opcode & 0x000F == 0,
                ;
                let register_x = Self::register_index(opcode);
                let register_y = Self::second_register_index(opcode);

                if self.registers[register_x] != self.registers[register_y] {
                    self.pc = self.pc + 2;
                }
            },
            // Load value into I register
            0xA => {
                let data = Self::immediate_12bit_data(opcode);

                self.i = data;
            },
            // Jump instruction (NNN + V0)
            0xB => {
                let data = Self::immediate_12bit_data(opcode);
                let final_address = data.wrapping_add(self.registers[0] as u16);

                self.pc = final_address;
            },
            // Random and with byte into register
            0xC => {
                let register = Self::register_index(opcode);
                let byte = Self::immediate_byte(opcode);

                self.registers[register] = random_byte & byte;
            },
            // Draw Instruction
            0xD => {
                let register_x = Self::register_index(opcode);
                let register_y = Self::second_register_index(opcode);
                let x_coord = self.registers[register_x] as usize;
                let y_coord = self.registers[register_y] as usize;
                let number_of_rows = opcode & 0x000F;
                assert(number_of_rows == op_n(opcode)) by (bit_vector)
                    requires
                        number_of_rows == opcode & 0x000F,
                ;

                let sprite_data: &[u8] = &self.memory[(self.i as usize)..(self.i as usize
                    + number_of_rows as usize)];

                self.registers[0xF] = if self.display.draw_sprite(x_coord, y_coord, sprite_data) {
                    1
                } else {
                    0
                };
            },
            // Input instructions
            0xE => self.keyboard_functions(opcode),
            // Timer/Utility related instructions
            0xF => self.timer_and_utility_functions(opcode),
            _ => (),
        }
    }

    /// Executes one instruction. A random instruction (`Cxkk`) draws its byte from `rand`;
    /// every other instruction behaves as `execute_with` with any byte.
    pub fn execute(&mut self, opcode: u16)
        requires
            execute_requires(old(self)@, opcode),
        ensures
            exists|random: u8| final(self)@ == #[trigger] execute_spec(old(self)@, opcode, random),
            op_kind(opcode) != 0xC ==> final(self)@ == execute_spec(old(self)@, opcode, 0),
    {
        let ghost s = self@;
        let random = if Self::instruction_type(opcode) == 0xC {
            random_byte()
        } else {
            0
        };
        self.execute_with(opcode, random);
        assert(self@ == execute_spec(s, opcode, random));
    }

    /// Runs one fetch-execute cycle.
    pub fn cycle(&mut self)
        requires
            cycle_requires(old(self)@),
        ensures
            exists|random: u8| final(self)@ == #[trigger] cycle_spec(old(self)@, random),
            op_kind(fetch_word(old(self)@.memory, old(self)@.pc as int)) != 0xC
                ==> final(self)@ == cycle_spec(old(self)@, 0),
    {
        let ghost s = self@;
        let opcode = self.fetch();
        self.execute(opcode);
        proof {
            let random = choose|random: u8| self@ == #[trigger] execute_spec(fetched(s), opcode, random);
            assert(self@ == cycle_spec(s, random));
        }
    }
}

} // verus!
