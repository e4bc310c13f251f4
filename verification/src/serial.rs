//! The serial line: what the driver decides from the register values it reads.
//!
//! The driver polls a status register and moves one word at a time
//! through a data register. This module holds its decisions: when a word
//! may be read or written, which character a received word stands for, and
//! which words a character is sent as. Reading and writing the registers
//! is left to the caller.

use vstd::prelude::*;

verus! {

/// The status bit that says a received word is waiting in the data register.
pub const STATUS_RECEIVE_READY: u32 = 0x20;

/// The status bit that says the data register is free for the next word.
pub const STATUS_TRANSMIT_READY: u32 = 0x80;

/// The status bit that says a received word was lost because the one before it had not been read.
pub const STATUS_OVERRUN: u32 = 0x08;

/// The address of the registers of the third serial interface.
pub const USART3_BASE: usize = 0x4000_4800;

/// The baud-rate divisor for 9600 baud on a 16 MHz clock.
pub const USART3_BAUD_RATE: u32 = 0x683;

/// The control word that enables the interface, its transmitter, its receiver
/// and its receive interrupt.
pub const USART3_CONTROL: u32 = 0x202c;

/// A serial line over the device `U`.
pub struct Serial<U> {
    usart: U,
}

/// What can go wrong on the serial line.
#[derive(Clone, Copy, PartialEq, Eq, Debug, Structural)]
pub enum Error {
    /// The hardware signalled an overrun.
    Overrun,
}

/// The answer of a read that found no word waiting: not an error, the caller polls again.
#[derive(Clone, Copy, PartialEq, Eq, Debug, Structural)]
pub struct WouldBlock;

impl<U> Serial<U> {
    /// The device under the line.
    pub closed spec fn spec_usart(&self) -> &U {
        &self.usart
    }

    /// The serial line over `usart`.
    pub fn new(usart: U) -> (serial: Serial<U>)
        ensures
            *serial.usart() == usart,
    {
        Serial { usart }
    }

    /// Gives the device back.
    pub fn into_usart(self) -> (usart: U)
        ensures
            usart == *self.usart(),
    {
        self.usart
    }

    /// The device under the line.
    #[verifier::when_used_as_spec(spec_usart)]
    pub fn usart(&self) -> (usart: &U)
        ensures
            usart == self.usart(),
    {
        &self.usart
    }
}

/// The character that a received data word stands for: its low byte, with
/// a carriage return read as a line feed.
pub open spec fn received(data: u32) -> char {
    let c = (data & 0xff) as u8 as char;
    if c == '\r' {
        '\n'
    } else {
        c
    }
}

/// The data words that a character is sent as: its code, after a carriage
/// return if the character is a line feed.
pub open spec fn sent(c: char) -> Seq<u32> {
    if c == '\n' {
        seq!['\r' as u32, '\n' as u32]
    } else {
        seq![c as u32]
    }
}

/// Answers a read from the status word: `Ok` if a word is waiting in the data register.
pub fn poll_receive(status: u32) -> (ready: Result<(), WouldBlock>)
    ensures
        ready == if status & STATUS_RECEIVE_READY != 0 {
            Ok::<(), WouldBlock>(())
        } else {
            Err(WouldBlock)
        },
{
    if status & STATUS_RECEIVE_READY != 0 {
        Ok(())
    } else {
        Err(WouldBlock)
    }
}

/// Decodes the data word that a read fetched.
pub fn receive(data: u32) -> (c: char)
    ensures
        c == received(data),
{
    let c = (data & 0xff) as u8 as char;
    if c == '\r' {
        '\n'
    } else {
        c
    }
}

/// Answers a write from the status word: an overrun is an error; otherwise
/// the answer says whether the data register is free for the next word.
pub fn poll_transmit(status: u32) -> (ready: Result<bool, Error>)
    ensures
        ready == if status & STATUS_OVERRUN != 0 {
            Err::<bool, Error>(Error::Overrun)
        } else {
            Ok(status & STATUS_TRANSMIT_READY != 0)
        },
{
    if status & STATUS_OVERRUN != 0 {
        Err(Error::Overrun)
    } else {
        Ok(status & STATUS_TRANSMIT_READY != 0)
    }
}

/// The data words to write, in order, to send `c`.
pub fn transmit(c: char) -> (words: Vec<u32>)
    ensures
        words@ == sent(c),
{
    let mut words = Vec::new();
    if c == '\n' {
        words.push('\r' as u32);
    }
    words.push(c as u32);
    assert(words@ =~= sent(c));
    words
}

} // verus!
