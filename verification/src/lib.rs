//! A functional model of an STM32F407 microcontroller.
//!
//! Every peripheral is a plain value with a mathematical state (its view). An access is a
//! state transition: the contract gives the next state, what happens on the shared wires
//! (interrupt lines, events, reset requests), and the answer.
pub mod artifact;
pub mod bits;
pub mod bus;
pub mod checkpoint;
pub mod config;
pub mod cpu;
pub mod device;
pub mod elfsym;
pub mod env;
pub mod events;
pub mod fault;
pub mod gdbstub;
pub mod machine;
pub mod memory;
pub mod monitor;
pub mod peripheral;
pub mod runfile;
pub mod text;
pub mod timing;
pub mod wires;
