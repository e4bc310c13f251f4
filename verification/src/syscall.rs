//! The trap frame and the supervisor-call protocol.
//!
//! When a process traps, exception entry pushes eight words onto the
//! process's stack: r0 to r3, r12, the link register, the return address
//! and the status register, r0 at the lowest address. A process asks for a
//! service by trapping with the service's number in r0 and its arguments in
//! the registers that follow.

use vstd::prelude::*;

verus! {

/// The hardware-saved block of a trap frame.
#[derive(Clone, Copy, PartialEq, Eq, Debug, Structural)]
pub struct TrapFrame {
    pub r0: u32,
    pub r1: u32,
    pub r2: u32,
    pub r3: u32,
    pub r12: u32,
    pub lr: u32,
    pub pc: u32,
    pub xpsr: u32,
}

impl TrapFrame {
    /// The frame as it lies in memory, lowest address first.
    pub open spec fn words(self) -> Seq<u32> {
        seq![self.r0, self.r1, self.r2, self.r3, self.r12, self.lr, self.pc, self.xpsr]
    }

    /// A frame is determined by its eight words: writing a frame to memory
    /// and reading it back yields the same frame.
    pub proof fn lemma_words_determine(a: TrapFrame, b: TrapFrame)
        requires
            a.words() == b.words(),
        ensures
            a == b,
    {
        assert(a.words()[0] == b.words()[0]);
        assert(a.words()[1] == b.words()[1]);
        assert(a.words()[2] == b.words()[2]);
        assert(a.words()[3] == b.words()[3]);
        assert(a.words()[4] == b.words()[4]);
        assert(a.words()[5] == b.words()[5]);
        assert(a.words()[6] == b.words()[6]);
        assert(a.words()[7] == b.words()[7]);
    }

    /// Reads a frame from the eight words at a process's stack pointer.
    pub fn from_words(words: [u32; 8]) -> (frame: TrapFrame)
        ensures
            frame.words() == words@,
    {
        let frame = TrapFrame {
            r0: words[0],
            r1: words[1],
            r2: words[2],
            r3: words[3],
            r12: words[4],
            lr: words[5],
            pc: words[6],
            xpsr: words[7],
        };
        assert(frame.words() =~= words@);
        frame
    }

    /// The eight words of the frame, lowest address first.
    pub fn to_words(&self) -> (words: [u32; 8])
        ensures
            words@ == self.words(),
    {
        let words = [self.r0, self.r1, self.r2, self.r3, self.r12, self.lr, self.pc, self.xpsr];
        assert(words@ =~= self.words());
        words
    }
}

/// The number of the write service.
pub const SYSCALL_WRITE: u32 = 1;

/// A service that a process asks of the kernel.
#[derive(Clone, Copy, PartialEq, Eq, Debug, Structural)]
pub enum Syscall {
    /// Emit `length` bytes, starting at `address` in the process's memory, on the serial line.
    Write { address: u32, length: u32 },
}

/// The request that a frame holds: its number in r0, its arguments in r1 and r2.
pub open spec fn request_of(frame: TrapFrame) -> Option<Syscall> {
    if frame.r0 == SYSCALL_WRITE {
        Some(Syscall::Write { address: frame.r1, length: frame.r2 })
    } else {
        None
    }
}

/// Decodes the request of a process that trapped with a supervisor call.
pub fn decode(frame: &TrapFrame) -> (request: Option<Syscall>)
    ensures
        request == request_of(*frame),
{
    if frame.r0 == SYSCALL_WRITE {
        Some(Syscall::Write { address: frame.r1, length: frame.r2 })
    } else {
        None
    }
}

/// The word by which the supervisor-call trap tells the kernel loop that a
/// process asked for a service.
#[derive(Clone, Copy, PartialEq, Eq, Debug, Structural)]
pub struct SyscallFlag {
    pub fired: u32,
}

impl SyscallFlag {
    /// Whether a supervisor call has fired since the flag was last cleared.
    pub open spec fn spec_is_raised(&self) -> bool {
        self.fired > 0
    }

    /// The cleared flag.
    pub fn new() -> (flag: SyscallFlag)
        ensures
            flag.fired == 0,
    {
        SyscallFlag { fired: 0 }
    }

    /// Records that a supervisor call fired.
    pub fn raise(&mut self)
        ensures
            final(self).fired == 1,
    {
        self.fired = 1;
    }

    /// Clears the flag.
    pub fn clear(&mut self)
        ensures
            final(self).fired == 0,
    {
        self.fired = 0;
    }

    /// Tells whether a supervisor call has fired since the flag was last cleared.
    #[verifier::when_used_as_spec(spec_is_raised)]
    pub fn is_raised(&self) -> (raised: bool)
        ensures
            raised == self.is_raised(),
    {
        self.fired > 0
    }
}

/// Whether byte `i` of a write went its way: in the state `states[2 * i]`
/// the byte at offset `i` from `address` was fetched with `read_byte`, and
/// in the state that the fetch left the byte went to `write` as a
/// character, which left `states[2 * i + 2]`.
pub open spec fn sent_at<M, R: Fn(M, u32, u32) -> (M, u8), W: Fn(M, char) -> M>(
    read_byte: R,
    write: W,
    address: u32,
    bytes: Seq<u8>,
    states: Seq<M>,
    i: int,
) -> bool {
    &&& call_ensures(read_byte, (states[2 * i], address, i as u32), (states[2 * i + 1], bytes[i]))
    &&& call_ensures(write, (states[2 * i + 1], bytes[i] as char), states[2 * i + 2])
}

/// Whether `states` is the course of the machine through the sending of
/// `bytes`: one fetch and one write for each byte, the bytes in the order
/// of their offsets, and no other step.
pub open spec fn transmitted<M, R: Fn(M, u32, u32) -> (M, u8), W: Fn(M, char) -> M>(
    read_byte: R,
    write: W,
    address: u32,
    bytes: Seq<u8>,
    states: Seq<M>,
) -> bool {
    &&& states.len() == 2 * bytes.len() + 1
    &&& forall|i: int|
        0 <= i < bytes.len() ==> #[trigger] sent_at(read_byte, write, address, bytes, states, i)
}

/// Whether a write request took the machine from `before` to `after`:
/// exactly `length` bytes were fetched from `address` on and written, each
/// once, in order, and nothing else was done to the machine.
pub open spec fn written<M, R: Fn(M, u32, u32) -> (M, u8), W: Fn(M, char) -> M>(
    read_byte: R,
    write: W,
    address: u32,
    length: u32,
    before: M,
    after: M,
) -> bool {
    exists|bytes: Seq<u8>, states: Seq<M>|
        bytes.len() == length && #[trigger] transmitted(read_byte, write, address, bytes, states)
            && states[0] == before && states[2 * length] == after
}

/// Whether `read_byte` may be asked for the byte at `offset` of the request
/// in `frame`: only while a write request is being served, and only inside
/// the request's length.
pub open spec fn fetch_owed(flag: SyscallFlag, frame: TrapFrame, offset: u32) -> bool {
    flag.is_raised() && frame.r0 == SYSCALL_WRITE && offset < frame.r2
}

/// Serves the request, if any, of the process that has just trapped.
///
/// The frame is looked at only if the flag is raised. A write request
/// fetches its bytes one by one with `read_byte(machine, address, offset)`
/// and hands each, as a character, to `write`, in order; the address and
/// the length are taken as the process gave them. `machine` stands for the
/// hardware that the two closures act on; it goes through every call and
/// comes back with the request that was served. Without a write request no
/// closure is called and the machine comes back as it went in. Whatever
/// the frame holds, the flag is clear afterwards.
pub fn dispatch<M, R, W>(
    machine: M,
    flag: &mut SyscallFlag,
    frame: &TrapFrame,
    read_byte: R,
    write: W,
) -> (result: (M, Option<Syscall>)) where R: Fn(M, u32, u32) -> (M, u8), W: Fn(M, char) -> M
    requires
        forall|m: M, offset: u32|
            fetch_owed(*old(flag), *frame, offset) ==> #[trigger] call_requires(
                read_byte,
                (m, frame.r1, offset),
            ),
        forall|before: M, after: M, offset: u32, byte: u8|
            fetch_owed(*old(flag), *frame, offset) && #[trigger] call_ensures(
                read_byte,
                (before, frame.r1, offset),
                (after, byte),
            ) ==> call_requires(write, (after, byte as char)),
    ensures
        final(flag).fired == 0,
        result.1 == if old(flag).is_raised() {
            request_of(*frame)
        } else {
            None
        },
        result.1 is None ==> result.0 == machine,
        result.1 matches Some(Syscall::Write { address, length }) ==> written(
            read_byte,
            write,
            address,
            length,
            machine,
            result.0,
        ),
{
    let served = if flag.is_raised() {
        decode(frame)
    } else {
        None
    };
    let ghost start = machine;
    let mut machine = machine;
    match served {
        Some(Syscall::Write { address, length }) => {
            let ghost mut bytes: Seq<u8> = Seq::empty();
            let ghost mut states: Seq<M> = seq![machine];
            let mut offset: u32 = 0;
            while offset < length
                invariant
                    offset <= length,
                    address == frame.r1,
                    length == frame.r2,
                    old(flag).is_raised(),
                    frame.r0 == SYSCALL_WRITE,
                    bytes.len() == offset,
                    transmitted(read_byte, write, address, bytes, states),
                    states[0] == start,
                    states[2 * offset] == machine,
                    forall|m: M, offset: u32|
                        fetch_owed(*old(flag), *frame, offset) ==> #[trigger] call_requires(
                            read_byte,
                            (m, frame.r1, offset),
                        ),
                    forall|before: M, after: M, offset: u32, byte: u8|
                        fetch_owed(*old(flag), *frame, offset) && #[trigger] call_ensures(
                            read_byte,
                            (before, frame.r1, offset),
                            (after, byte),
                        ) ==> call_requires(write, (after, byte as char)),
                decreases length - offset,
            {
                assert(fetch_owed(*old(flag), *frame, offset));
                let ghost earlier_bytes = bytes;
                let ghost earlier = states;
                let (fetched, byte) = read_byte(machine, address, offset);
                let ghost after_fetch = fetched;
                machine = write(fetched, byte as char);
                proof {
                    bytes = earlier_bytes.push(byte);
                    states = earlier.push(after_fetch).push(machine);
                    assert forall|i: int| 0 <= i < bytes.len() implies #[trigger] sent_at(
                        read_byte,
                        write,
                        address,
                        bytes,
                        states,
                        i,
                    ) by {
                        if i < offset {
                            assert(sent_at(read_byte, write, address, earlier_bytes, earlier, i));
                        }
                    }
                }
                offset += 1;
            }
            assert(transmitted(read_byte, write, address, bytes, states) && bytes.len() == length
                && states[0] == start && states[2 * length] == machine);
        },
        None => {},
    }
    flag.clear();
    (machine, served)
}

} // verus!
