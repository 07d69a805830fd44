use vstd::prelude::*;
use vstd::string::StringSliceAdditionalSpecFns;
use pc_keyboard::layouts::Us104Key;
use pc_keyboard::{HandleControl, KeyEvent, Keyboard, ScancodeSet1};
use crate::constants::STATUS_OUTPUT_BUFFER_FULL;
use crate::vga_buffer::Writer;

verus! {

/// Slots of the scancode ring; one of them always stays free.
pub const SCANCODE_QUEUE_SIZE: usize = 16;

/// Notice printed when a scancode arrives while the queue is full.
pub const QUEUE_FULL_WARNING: &'static str = "WARNING: scancode queue full; dropping keyboard input\n";

/// Bounded FIFO of raw scancodes between the keyboard interrupt and the main
/// loop. Holds at most `SCANCODE_QUEUE_SIZE - 1` bytes, so that equal cursors
/// always mean empty.
pub struct ScancodeQueue {
    buffer: [u8; SCANCODE_QUEUE_SIZE],
    read_pos: usize,
    write_pos: usize,
}

impl ScancodeQueue {
    pub closed spec fn wf(&self) -> bool {
        &&& self.read_pos < SCANCODE_QUEUE_SIZE
        &&& self.write_pos < SCANCODE_QUEUE_SIZE
    }

    closed spec fn spec_len(&self) -> nat {
        ((self.write_pos + SCANCODE_QUEUE_SIZE - self.read_pos) % (SCANCODE_QUEUE_SIZE as int)) as nat
    }
}

impl View for ScancodeQueue {
    type V = Seq<u8>;

    /// The queued bytes, oldest first.
    closed spec fn view(&self) -> Seq<u8> {
        Seq::new(
            self.spec_len(),
            |i: int| self.buffer@[(self.read_pos + i) % (SCANCODE_QUEUE_SIZE as int)],
        )
    }
}

impl ScancodeQueue {
    pub proof fn lemma_capacity(&self)
        requires
            self.wf(),
        ensures
            self@.len() < SCANCODE_QUEUE_SIZE,
    {
    }

    pub fn new() -> (q: ScancodeQueue)
        ensures
            q.wf(),
            q@ == Seq::<u8>::empty(),
    {
        let q = ScancodeQueue { buffer: [0u8; SCANCODE_QUEUE_SIZE], read_pos: 0, write_pos: 0 };
        assert(q@ =~= Seq::<u8>::empty());
        q
    }

    /// Appends `scancode`. A full queue refuses it and stays exactly as it was.
    pub fn push(&mut self, scancode: u8) -> (r: Result<(), ()>)
        requires
            old(self).wf(),
        ensures
            final(self).wf(),
            old(self)@.len() < SCANCODE_QUEUE_SIZE - 1 ==> r is Ok && final(self)@ == old(self)@.push(scancode),
            old(self)@.len() == SCANCODE_QUEUE_SIZE - 1 ==> r is Err && *final(self) == *old(self),
    {
        let next_write = (self.write_pos + 1) % SCANCODE_QUEUE_SIZE;
        if next_write == self.read_pos {
            return Err(());
        }
        let ghost before = self@;
        self.buffer[self.write_pos] = scancode;
        self.write_pos = next_write;
        assert(self@ =~= before.push(scancode));
        Ok(())
    }

    /// Removes and returns the oldest byte, or `None` when empty.
    pub fn pop(&mut self) -> (r: Option<u8>)
        requires
            old(self).wf(),
        ensures
            final(self).wf(),
            old(self)@.len() == 0 ==> r is None && *final(self) == *old(self),
            old(self)@.len() > 0 ==> r == Some(old(self)@[0]) && final(self)@ == old(self)@.drop_first(),
    {
        if self.read_pos == self.write_pos {
            return None;
        }
        let ghost before = self@;
        let scancode = self.buffer[self.read_pos];
        self.read_pos = (self.read_pos + 1) % SCANCODE_QUEUE_SIZE;
        assert(self@ =~= before.drop_first());
        Some(scancode)
    }
}

/// One operation on the scancode queue.
pub enum QueueOp {
    Push(u8),
    Pop,
}

/// Replays `ops` from an empty queue as `push` and `pop` state them, giving
/// the contents, the bytes accepted by `push` in call order, and the bytes
/// returned by `pop` in call order.
pub open spec fn queue_run(ops: Seq<QueueOp>) -> (Seq<u8>, Seq<u8>, Seq<u8>)
    decreases ops.len(),
{
    if ops.len() == 0 {
        (Seq::empty(), Seq::empty(), Seq::empty())
    } else {
        let prev = queue_run(ops.drop_last());
        let q = prev.0;
        match ops.last() {
            QueueOp::Push(b) => if q.len() < SCANCODE_QUEUE_SIZE - 1 {
                (q.push(b), prev.1.push(b), prev.2)
            } else {
                prev
            },
            QueueOp::Pop => if q.len() > 0 {
                (q.drop_first(), prev.1, prev.2.push(q[0]))
            } else {
                prev
            },
        }
    }
}

/// Over any run of pushes and pops from an empty queue, the bytes popped so
/// far followed by the bytes still queued are exactly the bytes accepted, in
/// order: nothing is invented, lost, duplicated or reordered, and the queue
/// never holds more than `SCANCODE_QUEUE_SIZE - 1` bytes.
pub proof fn lemma_queue_run_fifo(ops: Seq<QueueOp>)
    ensures
        queue_run(ops).2 + queue_run(ops).0 == queue_run(ops).1,
        queue_run(ops).0.len() < SCANCODE_QUEUE_SIZE,
    decreases ops.len(),
{
    if ops.len() > 0 {
        lemma_queue_run_fifo(ops.drop_last());
        let prev = queue_run(ops.drop_last());
        match ops.last() {
            QueueOp::Push(b) => {
                assert(prev.2 + prev.0.push(b) =~= (prev.2 + prev.0).push(b));
            },
            QueueOp::Pop => {
                if prev.0.len() > 0 {
                    assert(prev.2.push(prev.0[0]) + prev.0.drop_first() =~= prev.2 + prev.0);
                }
            },
        }
    }
}

/// Queues a scancode from the interrupt path; when the queue is full the
/// byte is dropped and a warning goes to the display.
pub fn add_scancode(queue: &mut ScancodeQueue, writer: &mut Writer, scancode: u8)
    requires
        old(queue).wf(),
        old(writer).wf(),
    ensures
        final(queue).wf(),
        final(writer).wf(),
        old(queue)@.len() < SCANCODE_QUEUE_SIZE - 1 ==> final(queue)@ == old(queue)@.push(scancode)
            && final(writer)@ == old(writer)@,
        old(queue)@.len() == SCANCODE_QUEUE_SIZE - 1 ==> *final(queue) == *old(queue)
            && final(writer)@ == old(writer)@.put_str(QUEUE_FULL_WARNING.spec_bytes()),
{
    proof {
        old(queue).lemma_capacity();
    }
    if queue.push(scancode).is_err() {
        writer.write_string(QUEUE_FULL_WARNING);
    }
}

/// Whether a keyboard status byte says that the data port holds a byte.
pub fn output_buffer_full(status: u8) -> (r: bool)
    ensures
        r == (status & STATUS_OUTPUT_BUFFER_FULL != 0),
{
    status & STATUS_OUTPUT_BUFFER_FULL != 0
}

/// A logical key event handed to the shell.
#[derive(Clone, Copy, PartialEq, Eq, Structural, Debug)]
pub enum Key {
    /// A key that produced a character.
    Char(char),
    ArrowUp,
    ArrowDown,
    /// Any other key without a character.
    Other,
}

#[verifier::external_type_specification]
#[verifier::external_body]
pub struct ExKeyEvent(KeyEvent);

#[verifier::external_type_specification]
#[verifier::external_body]
pub struct ExKeyboardError(pc_keyboard::Error);

/// Decoder state: pending multi-byte scancode and modifier keys, held by
/// pc_keyboard's `Keyboard` for scancode set 1 and the US 104-key layout.
#[verifier::external_body]
pub struct KeyDecoder {
    keyboard: Keyboard<Us104Key, ScancodeSet1>,
}

/// Relies on pc_keyboard::Keyboard::new: a decoder in its start state, with
/// Ctrl passed through as its own key.
#[verifier::external_body]
fn new_keyboard_decoder() -> KeyDecoder {
    KeyDecoder { keyboard: Keyboard::new(ScancodeSet1::new(), Us104Key, HandleControl::Ignore) }
}

impl KeyDecoder {
    /// A decoder for scancode set 1 and the US 104-key layout, with no
    /// pending sequence and no modifier held.
    pub fn new() -> KeyDecoder {
        new_keyboard_decoder()
    }
}

/// Relies on pc_keyboard::Keyboard::add_byte: feeds one byte to the scancode
/// state machine; what comes back depends on bytes fed before.
#[verifier::external_body]
fn decoder_add_byte(decoder: &mut KeyDecoder, byte: u8) -> Result<Option<KeyEvent>, pc_keyboard::Error> {
    decoder.keyboard.add_byte(byte)
}

/// Relies on pc_keyboard::Keyboard::process_keyevent: applies a key event to
/// the modifier state and maps it through the layout; the decoded key is
/// converted variant by variant.
#[verifier::external_body]
fn decoder_process_keyevent(decoder: &mut KeyDecoder, ev: KeyEvent) -> Option<Key> {
    match decoder.keyboard.process_keyevent(ev) {
        Some(pc_keyboard::DecodedKey::Unicode(c)) => Some(Key::Char(c)),
        Some(pc_keyboard::DecodedKey::RawKey(pc_keyboard::KeyCode::ArrowUp)) => Some(Key::ArrowUp),
        Some(pc_keyboard::DecodedKey::RawKey(pc_keyboard::KeyCode::ArrowDown)) => Some(Key::ArrowDown),
        Some(pc_keyboard::DecodedKey::RawKey(_)) => Some(Key::Other),
        None => None,
    }
}

/// Feeds one raw byte to the decoder and returns the key it completes, if
/// any. Malformed sequences give no key.
pub fn get_key(decoder: &mut KeyDecoder, scancode: u8) -> (r: Option<Key>) {
    match decoder_add_byte(decoder, scancode) {
        Ok(Some(event)) => decoder_process_keyevent(decoder, event),
        Ok(None) => None,
        Err(_) => None,
    }
}

/// Drains the queue until a byte completes a key. Returns `None` only once
/// the queue is empty; bytes are taken from the front, in order.
pub fn next_queued_key(queue: &mut ScancodeQueue, decoder: &mut KeyDecoder) -> (r: Option<Key>)
    requires
        old(queue).wf(),
    ensures
        final(queue).wf(),
        final(queue)@.len() <= old(queue)@.len(),
        final(queue)@ == old(queue)@.subrange(old(queue)@.len() - final(queue)@.len(), old(queue)@.len() as int),
        r is None ==> final(queue)@.len() == 0,
        r is Some ==> final(queue)@.len() < old(queue)@.len(),
{
    let ghost start = queue@;
    loop
        invariant
            queue.wf(),
            start == old(queue)@,
            queue@.len() <= start.len(),
            queue@ == start.subrange(start.len() - queue@.len(), start.len() as int),
        decreases queue@.len(),
    {
        match queue.pop() {
            None => {
                return None;
            },
            Some(scancode) => {
                proof {
                    assert(queue@ =~= start.subrange(start.len() - queue@.len(), start.len() as int));
                }
                if let Some(key) = get_key(decoder, scancode) {
                    return Some(key);
                }
            },
        }
    }
}

} // verus!
