# mcu_simulater

A functional model of an STM32F407 microcontroller, written in Rust and verified with Verus.

- `src/` is the library. Every peripheral is a plain value whose view is its mathematical state;
  an access is a state transition, and the contract gives the next state, what happens on the
  shared wires and the answer. `src/machine/` puts the peripherals on a bus, delivers
  interrupts, enters and leaves exceptions, moves DMA transfers and decides, block by block, how
  a run goes on. The remaining modules read firmware images, topologies and run files, speak the
  remote debugging protocol, take checkpoints and play scripted faults.
- `app/` is the program around it: it executes the firmware in a CPU engine and asks the library
  what to do next, and it holds the command line, the files, the network and the floating-point
  scenarios.
- `tests/` runs the library on concrete values.

What holds of several operations together is stated as public proof functions whose names begin
with `law_`, next to the types that they speak of.
