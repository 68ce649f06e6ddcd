# rchip

A CHIP-8 virtual machine (memory, registers, call stack, timers, a 64 x 32 monochrome screen
and a 16-key keypad) written in Verus.

- `src/display.rs`: the screen; drawing bytes and sprites by XOR, with collision detection.
- `src/keypad.rs`: the keypad.
- `src/lib.rs`: the CPU: opcode decoding, fetch, execute and the fetch-execute cycle. Its
  behaviour is stated over `CpuState`, a mathematical view of the machine, by `execute_spec`
  and `cycle_spec`; `execute_requires` and `cycle_requires` name the states in which an
  instruction stays within the machine.
- `src/properties.rs`: properties that relate several instructions (call and return, the flag
  register of arithmetic, complementary skips, timer round trip, loading then fetching).

Random instructions (`Cxkk`) draw their byte from the `rand` crate; `Cpu::execute_with` takes
that byte as an argument, so their effect is stated exactly for every byte.
