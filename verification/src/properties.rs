use vstd::prelude::*;
use crate::{
    CpuState, execute_spec, execute_requires, cycle_spec, cycle_requires, fetched, fetch_word,
    skip_if, loaded_memory, arithmetic_spec, keyboard_spec, timer_spec, op_kind, op_x, op_y, op_n, op_kk,
    op_nnn,
};
use crate::display::{
    row_meets_lit_pixel, blank_screen, lemma_collision_iff_lit_pixel_covered,
    lemma_one_of_two_draws_collides, lemma_draw_on_blank_screen, lemma_redraw_erases,
};

verus! {

/// No instruction writes memory or the keypad, and every instruction keeps the sizes of the
/// machine state.
pub proof fn lemma_execute_keeps_shape(s: CpuState, opcode: u16, random: u8)
    requires
        s.well_formed(),
        execute_requires(s, opcode),
    ensures
        execute_spec(s, opcode, random).well_formed(),
        execute_spec(s, opcode, random).memory == s.memory,
        execute_spec(s, opcode, random).keys == s.keys,
{
    if op_kind(opcode) == 0xD {
        crate::display::lemma_draw_sprite_length(
            s.pixels,
            s.registers[op_x(opcode)] as int,
            s.registers[op_y(opcode)] as int,
            s.memory.subrange(s.i as int, s.i + op_n(opcode)),
        );
        assert(opcode != 0x00E0 && opcode != 0x00EE);
    }
}

/// A call (`2nnn`) followed by a return (`00EE`) comes back to the `pc` of the call and the
/// stack depth before it; only the stack slot that held the return address has changed.
pub proof fn lemma_call_then_return(s: CpuState, call: u16, random1: u8, random2: u8)
    requires
        s.well_formed(),
        op_kind(call) == 0x2,
        s.sp < 16,
    ensures
        execute_requires(s, call),
        execute_requires(execute_spec(s, call, random1), 0x00EE),
        execute_spec(execute_spec(s, call, random1), 0x00EE, random2)
            == (CpuState { stack: s.stack.update(s.sp as int, s.pc), ..s }),
{
    let t = execute_spec(s, call, random1);
    assert(call != 0x00E0 && call != 0x00EE);
    assert(t.stack[s.sp as int] == s.pc);
}

/// Running a call (`2nnn`) whose target holds a return (`00EE`) ends, two cycles later, at the
/// instruction right after the call, with the stack depth it had before.
pub proof fn lemma_call_returns_after_call(s: CpuState, random1: u8, random2: u8)
    requires
        s.well_formed(),
        s.sp < 16,
        s.pc + 1 < 4096,
        op_kind(fetch_word(s.memory, s.pc as int)) == 0x2,
        op_nnn(fetch_word(s.memory, s.pc as int)) + 1 < 4096,
        fetch_word(s.memory, op_nnn(fetch_word(s.memory, s.pc as int))) == 0x00EE,
    ensures
        cycle_requires(s),
        cycle_requires(cycle_spec(s, random1)),
        cycle_spec(cycle_spec(s, random1), random2)
            == (CpuState { stack: s.stack.update(s.sp as int, (s.pc + 2) as u16), ..fetched(s) }),
{
    let call = fetch_word(s.memory, s.pc as int);
    let f = fetched(s);
    lemma_call_then_return(f, call, random1, random2);
    let t = cycle_spec(s, random1);
    assert(t == execute_spec(f, call, random1));
    assert(t.pc == op_nnn(call));
    assert(t.memory == s.memory);
    assert(execute_requires(fetched(t), 0x00EE));
}

/// The flag register completes the arithmetic of `8xyN` (for `x` other than VF): an addition
/// carries 256 into VF, a subtraction leaves VF at 0 exactly when it borrowed 256, and a shift
/// puts the bit shifted out into VF.
pub proof fn lemma_arithmetic_flags(s: CpuState, opcode: u16, random: u8)
    requires
        s.well_formed(),
        op_kind(opcode) == 0x8,
        op_x(opcode) != 0xF,
    ensures
        ({
            let t = execute_spec(s, opcode, random);
            let vx = s.registers[op_x(opcode)] as int;
            let vy = s.registers[op_y(opcode)] as int;
            let result = t.registers[op_x(opcode)] as int;
            let flag = t.registers[0xF] as int;
            &&& op_n(opcode) == 0x4 ==> flag <= 1 && result + 0x100 * flag == vx + vy
            &&& op_n(opcode) == 0x5 ==> flag <= 1 && result - 0x100 * (1 - flag) == vx - vy
            &&& op_n(opcode) == 0x7 ==> flag <= 1 && result - 0x100 * (1 - flag) == vy - vx
            &&& op_n(opcode) == 0x6 ==> flag <= 1 && 2 * result + flag == vx
            &&& op_n(opcode) == 0xE ==> flag <= 1 && result + 0x100 * flag == 2 * vx
        }),
{
    assert(opcode != 0x00E0 && opcode != 0x00EE);
}

/// Of `3xkk` (skip if VX == kk) and `4xkk` (skip if VX != kk) with the same `x` and `kk`,
/// exactly one skips the next instruction; neither changes anything else.
pub proof fn lemma_skip_if_byte_pair(s: CpuState, if_equal: u16, if_not_equal: u16, random: u8)
    requires
        s.well_formed(),
        op_kind(if_equal) == 0x3,
        op_kind(if_not_equal) == 0x4,
        op_x(if_equal) == op_x(if_not_equal),
        op_kk(if_equal) == op_kk(if_not_equal),
    ensures
        ({
            let e = execute_spec(s, if_equal, random);
            let n = execute_spec(s, if_not_equal, random);
            ||| e == skip_if(s, true) && n == s
            ||| e == s && n == skip_if(s, true)
        }),
{
    assert(if_equal != 0x00E0 && if_equal != 0x00EE);
    assert(if_not_equal != 0x00E0 && if_not_equal != 0x00EE);
}

/// Of `5xy0` (skip if VX == VY) and `9xy0` (skip if VX != VY) with the same `x` and `y`,
/// exactly one skips the next instruction; neither changes anything else.
pub proof fn lemma_skip_if_register_pair(s: CpuState, if_equal: u16, if_not_equal: u16, random: u8)
    requires
        s.well_formed(),
        op_kind(if_equal) == 0x5,
        op_kind(if_not_equal) == 0x9,
        op_n(if_equal) == 0,
        op_n(if_not_equal) == 0,
        op_x(if_equal) == op_x(if_not_equal),
        op_y(if_equal) == op_y(if_not_equal),
    ensures
        ({
            let e = execute_spec(s, if_equal, random);
            let n = execute_spec(s, if_not_equal, random);
            ||| e == skip_if(s, true) && n == s
            ||| e == s && n == skip_if(s, true)
        }),
{
    assert(if_equal != 0x00E0 && if_equal != 0x00EE);
    assert(if_not_equal != 0x00E0 && if_not_equal != 0x00EE);
}

/// Of `Ex9E` (skip if the key VX is pressed) and `ExA1` (skip if it is not) with the same `x`,
/// exactly one skips the next instruction; neither changes anything else.
pub proof fn lemma_skip_if_key_pair(s: CpuState, if_pressed: u16, if_released: u16, random: u8)
    requires
        s.well_formed(),
        op_kind(if_pressed) == 0xE,
        op_kk(if_pressed) == 0x9E,
        op_kind(if_released) == 0xE,
        op_kk(if_released) == 0xA1,
        op_x(if_pressed) == op_x(if_released),
    ensures
        ({
            let p = execute_spec(s, if_pressed, random);
            let r = execute_spec(s, if_released, random);
            ||| p == skip_if(s, true) && r == s
            ||| p == s && r == skip_if(s, true)
        }),
{
    assert(if_pressed != 0x00E0 && if_pressed != 0x00EE);
    assert(if_released != 0x00E0 && if_released != 0x00EE);
}

/// Setting the delay timer from VX (`Fx15`) and then reading it into VY (`Fy07`) gives VY the
/// value of VX.
pub proof fn lemma_delay_timer_round_trip(s: CpuState, set: u16, get: u16, random1: u8, random2: u8)
    requires
        s.well_formed(),
        op_kind(set) == 0xF,
        op_kk(set) == 0x15,
        op_kind(get) == 0xF,
        op_kk(get) == 0x07,
    ensures
        execute_spec(execute_spec(s, set, random1), get, random2).registers[op_x(get)]
            == s.registers[op_x(set)],
        execute_spec(execute_spec(s, set, random1), get, random2).delay_timer
            == s.registers[op_x(set)],
{
    assert(set != 0x00E0 && set != 0x00EE);
    assert(get != 0x00E0 && get != 0x00EE);
}

/// Once a program is loaded, the opcode fetched from `0x200 + k` is made of its bytes `k`
/// (high) and `k + 1` (low).
pub proof fn lemma_loaded_program_fetch(s: CpuState, program: Seq<u8>, k: int)
    requires
        s.well_formed(),
        0x200 + program.len() <= 4096,
        0 <= k,
        k + 1 < program.len(),
    ensures
        fetch_word(loaded_memory(s.memory, program), 0x200 + k)
            == program[k] as int * 0x100 + program[k + 1] as int,
{
    let m = loaded_memory(s.memory, program);
    assert(m[0x200 + k] == program[k]);
    assert(m[0x200 + k + 1] == program[k + 1]);
    assert(program[k] as int * 0x100 + program[k + 1] as int <= 0xFFFF);
}

/// Bit `b` of `v`, bit 0 being the least significant.
pub open spec fn bit_of(v: u8, b: u8) -> bool {
    (v >> b) & 1 == 1
}

/// `8xy0` to `8xy3` work on whole bytes: VX becomes VY, or the bitwise OR, AND or XOR of VX
/// and VY on each of the 8 bits (so `new VX ^ VY == VX` for XOR); no other register and
/// nothing else changes. `execute` runs them this way for every `8xyN` opcode.
pub proof fn lemma_bitwise_operations(s: CpuState, opcode: u16, random: u8)
    requires
        s.well_formed(),
        op_n(opcode) <= 3,
    ensures
        ({
            let x = op_x(opcode);
            let vx = s.registers[x];
            let vy = s.registers[op_y(opcode)];
            let t = arithmetic_spec(s, opcode);
            let nx = t.registers[x];
            &&& t == (CpuState { registers: s.registers.update(x, nx), ..s })
            &&& op_n(opcode) == 0 ==> nx == vy
            &&& op_n(opcode) == 1 ==> forall|b: u8| b < 8 ==> #[trigger] bit_of(nx, b) == (bit_of(vx, b) || bit_of(vy, b))
            &&& op_n(opcode) == 2 ==> forall|b: u8| b < 8 ==> #[trigger] bit_of(nx, b) == (bit_of(vx, b) && bit_of(vy, b))
            &&& op_n(opcode) == 3 ==> forall|b: u8| b < 8 ==> #[trigger] bit_of(nx, b) == (bit_of(vx, b) != bit_of(vy, b))
            &&& op_n(opcode) == 3 ==> nx ^ vy == vx
        }),
        op_kind(opcode) == 0x8 ==> execute_spec(s, opcode, random) == arithmetic_spec(s, opcode),
{
    let x = op_x(opcode);
    let vx = s.registers[x];
    let vy = s.registers[op_y(opcode)];
    let t = arithmetic_spec(s, opcode);
    let nx = t.registers[x];
    assert(t.registers =~= s.registers.update(x, nx));
    if op_n(opcode) == 1 {
        assert forall|b: u8| b < 8 implies #[trigger] bit_of(nx, b) == (bit_of(vx, b) || bit_of(vy, b)) by {
            assert(bit_of(vx | vy, b) == (bit_of(vx, b) || bit_of(vy, b))) by (bit_vector)
                requires
                    b < 8,
            ;
        }
    } else if op_n(opcode) == 2 {
        assert forall|b: u8| b < 8 implies #[trigger] bit_of(nx, b) == (bit_of(vx, b) && bit_of(vy, b)) by {
            assert(bit_of(vx & vy, b) == (bit_of(vx, b) && bit_of(vy, b))) by (bit_vector)
                requires
                    b < 8,
            ;
        }
    } else if op_n(opcode) == 3 {
        assert forall|b: u8| b < 8 implies #[trigger] bit_of(nx, b) == (bit_of(vx, b) != bit_of(vy, b)) by {
            assert(bit_of(vx ^ vy, b) == (bit_of(vx, b) != bit_of(vy, b))) by (bit_vector)
                requires
                    b < 8,
            ;
        }
        assert((vx ^ vy) ^ vy == vx) by (bit_vector);
    }
    if op_kind(opcode) == 0x8 {
        assert(opcode != 0x00E0 && opcode != 0x00EE);
    }
}

/// Jumps and calls go to the address `nnn` (the low twelve bits of the opcode): `1nnn` changes
/// only `pc`, whatever the registers hold; `Bnnn` adds V0 to `nnn`; `2nnn` also pushes the old
/// `pc`.
pub proof fn lemma_jumps(s: CpuState, opcode: u16, random: u8)
    requires
        s.well_formed(),
        execute_requires(s, opcode),
    ensures
        ({
            let t = execute_spec(s, opcode, random);
            let nnn = opcode as int % 0x1000;
            &&& op_kind(opcode) == 0x1 ==> t == (CpuState { pc: nnn as u16, ..s })
            &&& op_kind(opcode) == 0xB ==> t == (CpuState { pc: (nnn + s.registers[0]) as u16, ..s })
            &&& op_kind(opcode) == 0x2 ==> t == (CpuState {
                pc: nnn as u16,
                sp: (s.sp + 1) as u8,
                stack: s.stack.update(s.sp as int, s.pc),
                ..s
            })
        }),
{
    assert(opcode != 0x00E0 && opcode != 0x00EE || op_kind(opcode) == 0);
}

/// The target of a jump `1nnn` does not depend on the registers: two states that differ only
/// in their registers jump to the same place.
pub proof fn lemma_jump_ignores_registers(s1: CpuState, s2: CpuState, opcode: u16, random1: u8, random2: u8)
    requires
        s1.well_formed(),
        s2.well_formed(),
        s1 == (CpuState { registers: s1.registers, ..s2 }),
        op_kind(opcode) == 0x1,
    ensures
        execute_spec(s1, opcode, random1).pc == execute_spec(s2, opcode, random2).pc,
{
    lemma_jumps(s1, opcode, random1);
    lemma_jumps(s2, opcode, random2);
}

/// The comparison skips compare whole bytes: `3xkk` advances `pc` by 2 exactly when VX == kk,
/// `4xkk` exactly when VX != kk, `5xy0` exactly when VX == VY and `9xy0` exactly when VX != VY;
/// otherwise (and for `5xyN`, `9xyN` with N != 0) the state is unchanged. Nothing else changes.
pub proof fn lemma_comparison_skips(s: CpuState, opcode: u16, random: u8)
    requires
        s.well_formed(),
        execute_requires(s, opcode),
    ensures
        ({
            let t = execute_spec(s, opcode, random);
            let vx = s.registers[op_x(opcode)];
            let vy = s.registers[op_y(opcode)];
            let kk = opcode as int % 0x100;
            let advanced = CpuState { pc: (s.pc + 2) as u16, ..s };
            &&& op_kind(opcode) == 0x3 ==> t == (if vx == kk { advanced } else { s })
            &&& op_kind(opcode) == 0x4 ==> t == (if vx != kk { advanced } else { s })
            &&& op_kind(opcode) == 0x5 && opcode % 0x10 == 0 ==> t == (if vx == vy { advanced } else { s })
            &&& op_kind(opcode) == 0x9 && opcode % 0x10 == 0 ==> t == (if vx != vy { advanced } else { s })
            &&& (op_kind(opcode) == 0x5 || op_kind(opcode) == 0x9) && opcode % 0x10 != 0 ==> t == s
            &&& (op_kind(opcode) == 0x3 || op_kind(opcode) == 0x4) ==> (t.pc == s.pc + 2 || t.pc == s.pc)
        }),
{
    assert(opcode != 0x00E0 && opcode != 0x00EE || op_kind(opcode) == 0);
}

/// The key skips read the key numbered by the value of VX: `Ex9E` advances `pc` by 2 exactly
/// when that key is pressed, `ExA1` exactly when it is released; any other `ExNN` changes
/// nothing. `execute` runs them this way for every `ExNN` opcode.
pub proof fn lemma_key_skips(s: CpuState, opcode: u16, random: u8)
    requires
        s.well_formed(),
        s.registers[op_x(opcode)] < 16,
    ensures
        ({
            let t = keyboard_spec(s, opcode);
            let pressed = s.keys[s.registers[op_x(opcode)] as int];
            let advanced = CpuState { pc: (s.pc + 2) as u16, ..s };
            &&& opcode % 0x100 == 0x9E ==> t == (if pressed { advanced } else { s })
            &&& opcode % 0x100 == 0xA1 ==> t == (if !pressed { advanced } else { s })
            &&& opcode % 0x100 != 0x9E && opcode % 0x100 != 0xA1 ==> t == s
        }),
        op_kind(opcode) == 0xE ==> execute_spec(s, opcode, random) == keyboard_spec(s, opcode),
{
    assert(opcode != 0x00E0 && opcode != 0x00EE || op_kind(opcode) == 0);
}

/// A key skip reads one key only: two states that differ only in keys other than the one
/// numbered by VX give the same result, whatever key `x` itself holds.
pub proof fn lemma_key_skip_reads_one_key(s1: CpuState, s2: CpuState, opcode: u16)
    requires
        s1.well_formed(),
        s2.well_formed(),
        s1 == (CpuState { keys: s1.keys, ..s2 }),
        s1.registers[op_x(opcode)] < 16,
        s1.keys[s1.registers[op_x(opcode)] as int] == s2.keys[s2.registers[op_x(opcode)] as int],
    ensures
        keyboard_spec(s1, opcode).pc == keyboard_spec(s2, opcode).pc,
        keyboard_spec(s1, opcode) == (CpuState { keys: s1.keys, ..keyboard_spec(s2, opcode) }),
{
    lemma_key_skips(s1, opcode, 0);
    lemma_key_skips(s2, opcode, 0);
}

/// A draw `Dxyn` sets VF to 1 exactly when one of the `n` rows read from memory at `I` covers a
/// pixel that was lit, whatever `n` is, and to 0 otherwise; it changes only the screen and VF.
pub proof fn lemma_draw_reports_collisions(s: CpuState, opcode: u16, random: u8)
    requires
        s.well_formed(),
        execute_requires(s, opcode),
        op_kind(opcode) == 0xD,
    ensures
        ({
            let t = execute_spec(s, opcode, random);
            let n = opcode as int % 0x10;
            let vx = s.registers[op_x(opcode)] as int;
            let vy = s.registers[op_y(opcode)] as int;
            let sprite = s.memory.subrange(s.i as int, s.i + n);
            &&& t.registers[0xF] == (if exists|r: int|
                0 <= r < n && #[trigger] row_meets_lit_pixel(s.pixels, vx, vy, sprite, r) {
                1u8
            } else {
                0u8
            })
            &&& t == (CpuState {
                pixels: t.pixels,
                registers: s.registers.update(0xF, t.registers[0xF]),
                ..s
            })
        }),
{
    let n = opcode as int % 0x10;
    let vx = s.registers[op_x(opcode)];
    let vy = s.registers[op_y(opcode)];
    let sprite = s.memory.subrange(s.i as int, s.i + n);
    let t = execute_spec(s, opcode, random);
    assert(opcode != 0x00E0 && opcode != 0x00EE);
    lemma_collision_iff_lit_pixel_covered(s.pixels, vx as nat, vy as nat, sprite);
    assert(t.registers =~= s.registers.update(0xF, t.registers[0xF]));
}

/// Drawing the same non-zero sprite twice in a row with `Dxyn` (VX and VY other than VF, so the
/// place does not move) sets VF in at least one of the two draws and restores the screen; on a
/// blank screen the first draw clears VF and the second sets it.
pub proof fn lemma_draw_twice(s: CpuState, opcode: u16, random1: u8, random2: u8)
    requires
        s.well_formed(),
        execute_requires(s, opcode),
        op_kind(opcode) == 0xD,
        op_x(opcode) != 0xF,
        op_y(opcode) != 0xF,
        exists|k: int|
            0 <= k < opcode % 0x10 && #[trigger] s.memory.subrange(s.i as int, s.i + opcode % 0x10)[k] != 0,
    ensures
        ({
            let t1 = execute_spec(s, opcode, random1);
            let t2 = execute_spec(t1, opcode, random2);
            &&& execute_requires(t1, opcode)
            &&& t1.registers[0xF] == 1 || t2.registers[0xF] == 1
            &&& t2.pixels == s.pixels
            &&& s.pixels == blank_screen() ==> t1.registers[0xF] == 0 && t2.registers[0xF] == 1
        }),
{
    let n = opcode as int % 0x10;
    let vx = s.registers[op_x(opcode)];
    let vy = s.registers[op_y(opcode)];
    let sprite = s.memory.subrange(s.i as int, s.i + n);
    let t1 = execute_spec(s, opcode, random1);
    assert(opcode != 0x00E0 && opcode != 0x00EE);
    lemma_draw_reports_collisions(s, opcode, random1);
    assert(t1.registers[op_x(opcode)] == vx && t1.registers[op_y(opcode)] == vy);
    assert(t1.memory == s.memory && t1.i == s.i);
    let k = choose|k: int|
        0 <= k < opcode % 0x10 && #[trigger] s.memory.subrange(s.i as int, s.i + opcode % 0x10)[k] != 0;
    assert(sprite[k] != 0);
    lemma_one_of_two_draws_collides(s.pixels, vx as nat, vy as nat, sprite);
    lemma_redraw_erases(s.pixels, vx as int, vy as int, sprite);
    if s.pixels == blank_screen() {
        lemma_draw_on_blank_screen(vx as nat, vy as nat, sprite);
    }
}

/// The register loads: `6xkk` puts kk in VX, `7xkk` adds kk to VX modulo 256 (VF untouched),
/// `Annn` puts nnn in I, and `Cxkk` puts in VX the random byte masked by kk, so every bit that
/// kk clears is clear in VX. `00E0` turns every pixel off. Nothing else changes.
pub proof fn lemma_loads_and_clear(s: CpuState, opcode: u16, random: u8)
    requires
        s.well_formed(),
        execute_requires(s, opcode),
    ensures
        ({
            let t = execute_spec(s, opcode, random);
            let x = op_x(opcode);
            let kk = opcode as int % 0x100;
            let nx = t.registers[x];
            &&& op_kind(opcode) == 0x6 ==> nx == kk && t == (CpuState { registers: s.registers.update(x, nx), ..s })
            &&& op_kind(opcode) == 0x7 ==> nx == (s.registers[x] + kk) % 0x100
                && t == (CpuState { registers: s.registers.update(x, nx), ..s })
            &&& op_kind(opcode) == 0xC ==> nx & !(kk as u8) == 0 && nx == random & (kk as u8)
                && t == (CpuState { registers: s.registers.update(x, nx), ..s })
            &&& op_kind(opcode) == 0xA ==> t == (CpuState { i: (opcode as int % 0x1000) as u16, ..s })
            &&& opcode == 0x00E0 ==> t == (CpuState { pixels: blank_screen(), ..s })
        }),
{
    let t = execute_spec(s, opcode, random);
    let x = op_x(opcode);
    let nx = t.registers[x];
    if op_kind(opcode) != 0 {
        assert(opcode != 0x00E0 && opcode != 0x00EE);
    }
    if op_kind(opcode) == 0x6 || op_kind(opcode) == 0x7 || op_kind(opcode) == 0xC {
        assert(t.registers =~= s.registers.update(x, nx));
    }
    if op_kind(opcode) == 0xC {
        let k = (opcode as int % 0x100) as u8;
        assert((random & k) & !k == 0) by (bit_vector);
    }
}

/// The timer and index instructions: `Fx07` copies the delay timer into VX, `Fx15` and `Fx18`
/// copy VX into the delay and sound timers, `Fx1E` adds VX to I modulo 65536, `Fx29` sets I to
/// `0x200`, and other `FxNN` change nothing. Nothing else changes.
pub proof fn lemma_timer_and_index(s: CpuState, opcode: u16, random: u8)
    requires
        s.well_formed(),
        op_kind(opcode) == 0xF,
    ensures
        ({
            let t = execute_spec(s, opcode, random);
            let x = op_x(opcode);
            let vx = s.registers[x];
            let f = opcode as int % 0x100;
            &&& f == 0x07 ==> t == (CpuState { registers: s.registers.update(x, s.delay_timer), ..s })
            &&& f == 0x15 ==> t == (CpuState { delay_timer: vx, ..s })
            &&& f == 0x18 ==> t == (CpuState { sound_timer: vx, ..s })
            &&& f == 0x1E ==> t == (CpuState { i: ((s.i + vx) % 0x10000) as u16, ..s })
            &&& f == 0x29 ==> t == (CpuState { i: 0x200, ..s })
            &&& f != 0x07 && f != 0x15 && f != 0x18 && f != 0x1E && f != 0x29 ==> t == s
        }),
{
    assert(opcode != 0x00E0 && opcode != 0x00EE);
    let t = execute_spec(s, opcode, random);
    assert(t == timer_spec(s, opcode));
    if opcode as int % 0x100 == 0x07 {
        assert(t.registers =~= s.registers.update(op_x(opcode), s.delay_timer));
    }
}

} // verus!
