//! A terminal: shows the bytes that reach it, and types bytes to a USART.
use crate::events::Event;
use crate::peripheral::{BusError, Peripheral};
use crate::wires::{Wires, WiresView};
use vstd::prelude::*;

verus! {

/// Terminal.
pub struct Terminal {
    display: Vec<u8>,
    connected: bool,
}

/// The state of a terminal.
#[verifier::ext_equal]
pub struct TerminalView {
    /// The bytes shown.
    pub display: Seq<u8>,
    /// Is there a bus to type on?
    pub connected: bool,
}

impl View for Terminal {
    type V = TerminalView;

    closed spec fn view(&self) -> TerminalView {
        TerminalView { display: self.display@, connected: self.connected }
    }
}

impl Terminal {
    /// A terminal on the event bus.
    pub fn new() -> (r: Self)
        ensures
            r@ == (TerminalView { display: Seq::empty(), connected: true }),
    {
        Terminal { display: Vec::new(), connected: true }
    }

    /// A byte arrives to be shown.
    pub fn write_display(&mut self, byte: u8)
        ensures
            final(self)@ == (TerminalView { display: old(self)@.display.push(byte), ..old(self)@ }),
    {
        self.display.push(byte);
    }

    /// Types a byte: it arrives at the USART `port`. Without a bus nothing happens.
    pub fn type_char(&self, w: &mut Wires, port: u8, byte: u8)
        ensures
            final(w)@ == old(w)@.publish_if(self@.connected, Event::UartRx { port, byte }),
    {
        if self.connected {
            w.publish(Event::UartRx { port, byte });
        }
    }

    pub fn len(&self) -> (r: usize)
        ensures
            r == self@.display.len(),
    {
        self.display.len()
    }

    pub fn is_empty(&self) -> (r: bool)
        ensures
            r == (self@.display.len() == 0),
    {
        self.display.len() == 0
    }

    /// Hands out the shown bytes and forgets them.
    pub fn take_display(&mut self) -> (r: Vec<u8>)
        ensures
            r@ == old(self)@.display,
            final(self)@ == (TerminalView { display: Seq::empty(), ..old(self)@ }),
    {
        let mut out: Vec<u8> = Vec::new();
        std::mem::swap(&mut out, &mut self.display);
        out
    }

    /// The bytes shown.
    pub fn display(&self) -> (r: &[u8])
        ensures
            r@ == self@.display,
    {
        self.display.as_slice()
    }
}

impl Default for Terminal {
    /// A terminal without a bus.
    fn default() -> (r: Self)
        ensures
            r@ == (TerminalView { display: Seq::empty(), connected: false }),
    {
        Terminal { display: Vec::new(), connected: false }
    }
}

impl Peripheral for Terminal {
    open spec fn inv(s: TerminalView) -> bool {
        true
    }

    open spec fn readable(s: TerminalView, w: WiresView, offset: u32, size: u32) -> bool {
        true
    }

    open spec fn read_of(s: TerminalView, w: WiresView, offset: u32, size: u32) -> (
        TerminalView,
        WiresView,
        Result<u32, BusError>,
    ) {
        (s, w, Err(BusError::NotImplemented))
    }

    open spec fn writable(
        s: TerminalView,
        w: WiresView,
        offset: u32,
        size: u32,
        value: u32,
    ) -> bool {
        true
    }

    open spec fn write_of(s: TerminalView, w: WiresView, offset: u32, size: u32, value: u32) -> (
        TerminalView,
        WiresView,
        Result<(), BusError>,
    ) {
        (s, w, Err(BusError::NotImplemented))
    }

    open spec fn reset_of(s: TerminalView, w: WiresView) -> (TerminalView, WiresView) {
        (s, w)
    }

    open spec fn tickable(s: TerminalView, w: WiresView, cycles: u64) -> bool {
        true
    }

    open spec fn tick_of(s: TerminalView, w: WiresView, cycles: u64) -> (TerminalView, WiresView) {
        (s, w)
    }

    open spec fn label(s: TerminalView) -> Seq<char> {
        "terminal"@
    }

    fn name(&self) -> &str {
        "terminal"
    }

    fn read(&mut self, w: &mut Wires, offset: u32, size: u32) -> Result<u32, BusError> {
        Err(BusError::NotImplemented)
    }

    fn write(&mut self, w: &mut Wires, offset: u32, size: u32, value: u32) -> Result<(), BusError> {
        Err(BusError::NotImplemented)
    }

    fn reset(&mut self, w: &mut Wires) {
    }

    fn tick(&mut self, w: &mut Wires, cycles: u64) {
    }
}

} // verus!
