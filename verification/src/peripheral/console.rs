//! A console: keeps the bytes that reach it.
use crate::peripheral::{BusError, Peripheral};
use crate::wires::{Wires, WiresView};
use vstd::prelude::*;

verus! {

/// Console.
pub struct Console {
    output: Vec<u8>,
}

impl View for Console {
    type V = Seq<u8>;

    closed spec fn view(&self) -> Seq<u8> {
        self.output@
    }
}

impl Console {
    pub fn new() -> (r: Self)
        ensures
            r@ == Seq::<u8>::empty(),
    {
        Console { output: Vec::new() }
    }

    /// A byte arrives.
    pub fn write_byte(&mut self, byte: u8)
        ensures
            final(self)@ == old(self)@.push(byte),
    {
        self.output.push(byte);
    }

    pub fn len(&self) -> (r: usize)
        ensures
            r == self@.len(),
    {
        self.output.len()
    }

    pub fn is_empty(&self) -> (r: bool)
        ensures
            r == (self@.len() == 0),
    {
        self.output.len() == 0
    }

    /// Hands out all bytes and forgets them.
    pub fn take_output(&mut self) -> (r: Vec<u8>)
        ensures
            r@ == old(self)@,
            final(self)@ == Seq::<u8>::empty(),
    {
        let mut out: Vec<u8> = Vec::new();
        std::mem::swap(&mut out, &mut self.output);
        out
    }

    /// The bytes so far.
    pub fn output(&self) -> (r: &[u8])
        ensures
            r@ == self@,
    {
        self.output.as_slice()
    }
}

impl Default for Console {
    fn default() -> (r: Self)
        ensures
            r@ == Seq::<u8>::empty(),
    {
        Console::new()
    }
}

impl Peripheral for Console {
    open spec fn inv(s: Seq<u8>) -> bool {
        true
    }

    open spec fn readable(s: Seq<u8>, w: WiresView, offset: u32, size: u32) -> bool {
        true
    }

    open spec fn read_of(s: Seq<u8>, w: WiresView, offset: u32, size: u32) -> (
        Seq<u8>,
        WiresView,
        Result<u32, BusError>,
    ) {
        (s, w, Err(BusError::NotImplemented))
    }

    open spec fn writable(s: Seq<u8>, w: WiresView, offset: u32, size: u32, value: u32) -> bool {
        true
    }

    open spec fn write_of(s: Seq<u8>, w: WiresView, offset: u32, size: u32, value: u32) -> (
        Seq<u8>,
        WiresView,
        Result<(), BusError>,
    ) {
        (s, w, Err(BusError::NotImplemented))
    }

    open spec fn reset_of(s: Seq<u8>, w: WiresView) -> (Seq<u8>, WiresView) {
        (s, w)
    }

    open spec fn tickable(s: Seq<u8>, w: WiresView, cycles: u64) -> bool {
        true
    }

    open spec fn tick_of(s: Seq<u8>, w: WiresView, cycles: u64) -> (Seq<u8>, WiresView) {
        (s, w)
    }

    open spec fn label(s: Seq<u8>) -> Seq<char> {
        "console"@
    }

    fn name(&self) -> &str {
        "console"
    }

    fn read(&mut self, w: &mut Wires, offset: u32, size: u32) -> Result<u32, BusError> {
        Err(BusError::NotImplemented)
    }

    fn write(&mut self, w: &mut Wires, offset: u32, size: u32, value: u32) -> Result<(), BusError> {
        Err(BusError::NotImplemented)
    }

    fn reset(&mut self, w: &mut Wires) {
    }

    fn tick(&mut self, w: &mut Wires, cycles: u64) {
    }
}

} // verus!
