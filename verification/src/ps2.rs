//! PS/2 keyboard receiver. The keyboard drives CLK; on each falling edge the
//! host samples DATA and shifts it into an 11-bit frame: a start bit (low),
//! eight data bits least significant first, a parity bit and a stop bit
//! (high). A complete, well-framed frame carries one Set 2 scan code byte.
use vstd::prelude::*;
use crate::scancode::{decode_set2, set2_char, BREAK_PREFIX, EXTENDED_PREFIX};

verus! {

/// Number of clock edges in one PS/2 frame.
pub const FRAME_BITS: u8 = 11;

/// What the receiver holds between clock edges.
#[verifier::ext_equal]
pub ghost struct Ps2Model {
    /// The bits of the frame in progress, in the order they were sampled.
    pub frame: Seq<bool>,
    /// A break prefix (`0xF0`) arrived and the frame after it is still to come.
    pub pending_break: bool,
    /// An extended prefix (`0xE0`) arrived and the frame after it is still to come.
    pub pending_extended: bool,
    /// Software edge-detection state: the level CLK had at the last poll.
    pub last_clk_high: bool,
}

pub open spec fn bit_value(b: bool) -> int {
    if b { 1 } else { 0 }
}

/// The data byte of an 11-bit frame: bits 1 to 8, least significant first.
pub open spec fn frame_data(f: Seq<bool>) -> int {
    bit_value(f[1]) + 2 * bit_value(f[2]) + 4 * bit_value(f[3]) + 8 * bit_value(f[4])
        + 16 * bit_value(f[5]) + 32 * bit_value(f[6]) + 64 * bit_value(f[7])
        + 128 * bit_value(f[8])
}

/// A frame is well framed when its start bit is low and its stop bit high.
pub open spec fn frame_well_framed(f: Seq<bool>) -> bool {
    !f[0] && f[10]
}

/// The receiver before any bit of a frame has arrived and with no prefix pending.
pub open spec fn ps2_idle(last_clk_high: bool) -> Ps2Model {
    Ps2Model {
        frame: Seq::empty(),
        pending_break: false,
        pending_extended: false,
        last_clk_high,
    }
}

/// One falling CLK edge with DATA at `data_high`: the next receiver state and
/// the character it types, if any.
pub open spec fn ps2_step(m: Ps2Model, data_high: bool) -> (Ps2Model, Option<char>) {
    let f = m.frame.push(data_high);
    if f.len() < FRAME_BITS {
        (Ps2Model { frame: f, ..m }, None)
    } else {
        let byte = frame_data(f);
        if !frame_well_framed(f) {
            (Ps2Model { frame: Seq::empty(), ..m }, None)
        } else if byte == BREAK_PREFIX {
            (Ps2Model { frame: Seq::empty(), pending_break: true, ..m }, None)
        } else if byte == EXTENDED_PREFIX {
            (Ps2Model { frame: Seq::empty(), pending_extended: true, ..m }, None)
        } else {
            let key = if !m.pending_break && !m.pending_extended {
                set2_char(byte as u8)
            } else {
                None
            };
            (ps2_idle(m.last_clk_high), key)
        }
    }
}

/// The characters typed by one step, as a sequence of zero or one character.
pub open spec fn key_seq(key: Option<char>) -> Seq<char> {
    match key {
        Some(c) => seq![c],
        None => Seq::empty(),
    }
}

/// Runs the receiver over the DATA levels sampled at successive falling CLK
/// edges: the final state and every character typed, in order.
pub open spec fn ps2_run(m: Ps2Model, bits: Seq<bool>) -> (Ps2Model, Seq<char>)
    decreases bits.len(),
{
    if bits.len() == 0 {
        (m, Seq::empty())
    } else {
        let (m1, key) = ps2_step(m, bits[0]);
        let (m2, keys) = ps2_run(m1, bits.drop_first());
        (m2, key_seq(key) + keys)
    }
}

/// The 11 bits a keyboard sends for the byte `code`: start bit, the eight data
/// bits least significant first, the parity bit, stop bit.
pub open spec fn encode_frame(code: u8, parity: bool) -> Seq<bool> {
    seq![false] + Seq::new(8, |k: int| (code >> (k as u8)) & 1u8 == 1u8) + seq![parity, true]
}

/// The frames for a sequence of bytes, one after another.
pub open spec fn encode_frames(codes: Seq<u8>, parities: Seq<bool>) -> Seq<bool>
    decreases codes.len(),
{
    if codes.len() == 0 {
        Seq::empty()
    } else {
        encode_frame(codes[0], parities[0]) + encode_frames(codes.drop_first(), parities.drop_first())
    }
}

/// The characters that the make codes `codes` type, in order.
pub open spec fn typed_keys(codes: Seq<u8>) -> Seq<char>
    decreases codes.len(),
{
    if codes.len() == 0 {
        Seq::empty()
    } else {
        key_seq(set2_char(codes[0])) + typed_keys(codes.drop_first())
    }
}

/// The receiver keeps the bits of the frame in progress packed in `bits`,
/// bit `i` being the `i`-th bit sampled, and how many there are in `count`.
pub struct Ps2State {
    bits: u16,
    count: u8,
    pending_break: bool,
    pending_extended: bool,
    last_clk_high: bool,
}

impl View for Ps2State {
    type V = Ps2Model;

    closed spec fn view(&self) -> Ps2Model {
        Ps2Model {
            frame: Seq::new(self.count as nat, |i: int| (self.bits >> (i as u16)) & 1u16 == 1u16),
            pending_break: self.pending_break,
            pending_extended: self.pending_extended,
            last_clk_high: self.last_clk_high,
        }
    }
}

proof fn lemma_shift_in(bits: u16, count: u16, bit: u16, i: u16)
    by (bit_vector)
    requires
        count < 11,
        bits >> count == 0,
        bit <= 1,
    ensures
        (bits | (bit << count)) >> ((count + 1) as u16) == 0,
        i < count ==> ((bits | (bit << count)) >> i) & 1 == (bits >> i) & 1,
        ((bits | (bit << count)) >> count) & 1 == bit,
{
}

proof fn lemma_data_byte(x: u16)
    by (bit_vector)
    ensures
        (x >> 1u16) & 0xFFu16 == ((x >> 1u16) & 1u16) + 2 * ((x >> 2u16) & 1u16) + 4 * ((x
            >> 3u16) & 1u16) + 8 * ((x >> 4u16) & 1u16) + 16 * ((x >> 5u16) & 1u16) + 32 * ((x
            >> 6u16) & 1u16) + 64 * ((x >> 7u16) & 1u16) + 128 * ((x >> 8u16) & 1u16),
        (x >> 1u16) & 0xFFu16 < 256,
{
}

proof fn lemma_bit_is_bit(x: u16, k: u16)
    by (bit_vector)
    ensures
        (x >> k) & 1u16 <= 1,
{
}

impl Ps2State {
    #[verifier::type_invariant]
    spec fn frame_fits(self) -> bool {
        &&& self.count < FRAME_BITS
        &&& self.bits >> (self.count as u16) == 0
    }

    /// A receiver waiting for the first bit of a frame, with no prefix pending.
    pub fn new() -> (s: Self)
        ensures
            s@ == ps2_idle(true),
    {
        assert(0u16 >> 0u16 == 0u16) by (bit_vector);
        let s = Ps2State {
            bits: 0,
            count: 0,
            pending_break: false,
            pending_extended: false,
            last_clk_high: true,
        };
        assert(s@.frame =~= Seq::<bool>::empty());
        s
    }

    /// How many bits of the frame in progress have arrived: always fewer
    /// than a whole frame.
    pub fn pending_bits(&self) -> (n: u8)
        ensures
            n == self@.frame.len(),
            n < FRAME_BITS,
    {
        proof {
            use_type_invariant(self);
        }
        self.count
    }

    /// Handles one falling edge of CLK with DATA sampled at `data_high`, and
    /// returns the character that the frame it completes types, if any.
    pub fn clock_falling_edge(&mut self, data_high: bool) -> (key: Option<char>)
        ensures
            old(self)@.frame.len() < FRAME_BITS,
            (final(self)@, key) == ps2_step(old(self)@, data_high),
            final(self)@.frame.len() < FRAME_BITS,
    {
        proof {
            use_type_invariant(&*self);
        }
        let ghost old_frame = self@.frame;
        let bit: u16 = if data_high { 1 } else { 0 };
        let count16: u16 = self.count as u16;
        let bits: u16 = self.bits | (bit << count16);
        let count: u8 = self.count + 1;
        let ghost f = old_frame.push(data_high);
        proof {
            assert forall|i: int| 0 <= i < count implies ((bits >> (i as u16)) & 1u16 == 1u16)
                == f[i] by {
                lemma_shift_in(self.bits, count16, bit, i as u16);
            }
            lemma_shift_in(self.bits, count16, bit, 0);
        }
        if count < FRAME_BITS {
            let pending_break = self.pending_break;
            let pending_extended = self.pending_extended;
            let last_clk_high = self.last_clk_high;
            *self = Ps2State { bits, count, pending_break, pending_extended, last_clk_high };
            assert(self@.frame =~= f);
            return None;
        }
        let frame = bits;
        let start_ok = frame & 0x1 == 0;
        let stop_ok = (frame >> 10) & 0x1 == 1;
        proof {
            lemma_data_byte(frame);
        }
        let byte = ((frame >> 1) & 0xFF) as u8;
        proof {
            assert(f[0] == ((frame >> 0u16) & 1u16 == 1u16));
            assert(f[10] == ((frame >> 10u16) & 1u16 == 1u16));
            assert(frame >> 0u16 == frame) by (bit_vector);
            lemma_bit_is_bit(frame, 0);
            assert forall|k: int| 1 <= k <= 8 implies bit_value(f[k]) == ((frame >> (k as u16))
                & 1u16) by {
                lemma_bit_is_bit(frame, k as u16);
            }
            assert(byte == frame_data(f));
        }
        let pending_break = self.pending_break;
        let pending_extended = self.pending_extended;
        let last_clk_high = self.last_clk_high;
        assert(0u16 >> 0u16 == 0u16) by (bit_vector);
        let empty_frame = Ps2State { bits: 0, count: 0, pending_break, pending_extended, last_clk_high };
        proof {
            assert(empty_frame@.frame =~= Seq::<bool>::empty());
        }
        if !start_ok || !stop_ok {
            *self = empty_frame;
            return None;
        }
        if byte == BREAK_PREFIX {
            *self = Ps2State { pending_break: true, ..empty_frame };
            None
        } else if byte == EXTENDED_PREFIX {
            *self = Ps2State { pending_extended: true, ..empty_frame };
            None
        } else {
            *self = Ps2State { pending_break: false, pending_extended: false, ..empty_frame };
            if !pending_break && !pending_extended {
                decode_set2(byte)
            } else {
                None
            }
        }
    }
}

} // verus!
