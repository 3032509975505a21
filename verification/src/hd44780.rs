//! What the panel's controller receives from a program of the driver. The
//! controller latches RS and D4..D7 each time E falls; in 4-bit mode two
//! latched nibbles, high then low, make one byte. The laws here say which
//! nibbles and bytes each program of the driver delivers.
use vstd::prelude::*;
use crate::lcd::{
    byte_ops, data_lines, data_ops, init_ops, line_bytes, nibble_ops, print_line_ops, pulse_ops,
    row_command, spec_row_address, LcdOp, LcdTiming, CLEAR_DISPLAY, DISPLAY_ON,
    ENTRY_MODE_INCREMENT, FUNCTION_SET_4BIT_2LINE, LINE_WIDTH,
};

verus! {

/// The levels of a panel's lines as the controller sees them.
pub ghost struct BusLevels {
    /// RS: high for the data register.
    pub rs: bool,
    /// D4..D7 read as a number, D4 the least significant bit.
    pub nibble: u8,
    /// E.
    pub enable: bool,
}

/// A nibble as the controller latches it: the RS level with the D4..D7 value.
pub type Latched = (bool, u8);

pub open spec fn line_value(level: bool, weight: u8) -> u8 {
    if level { weight } else { 0 }
}

/// The value that data lines at these levels carry.
pub open spec fn nibble_value(d4: bool, d5: bool, d6: bool, d7: bool) -> u8 {
    (line_value(d4, 1) + line_value(d5, 2) + line_value(d6, 4) + line_value(d7, 8)) as u8
}

/// One step of a program on the lines: the new levels, and the nibble the
/// controller latches if E falls.
pub open spec fn bus_apply(st: BusLevels, op: LcdOp) -> (BusLevels, Seq<Latched>) {
    match op {
        LcdOp::SetRs(rs) => (BusLevels { rs, ..st }, Seq::empty()),
        LcdOp::SetData { d4, d5, d6, d7 } => (
            BusLevels { nibble: nibble_value(d4, d5, d6, d7), ..st },
            Seq::empty(),
        ),
        LcdOp::SetEnable(e) => (
            BusLevels { enable: e, ..st },
            if st.enable && !e {
                seq![(st.rs, st.nibble)]
            } else {
                Seq::empty()
            },
        ),
        LcdOp::DelayUs(_) => (st, Seq::empty()),
        LcdOp::DelayMs(_) => (st, Seq::empty()),
    }
}

/// A whole program on the lines: the final levels and every nibble latched,
/// in order.
pub open spec fn bus_run(st: BusLevels, ops: Seq<LcdOp>) -> (BusLevels, Seq<Latched>)
    decreases ops.len(),
{
    if ops.len() == 0 {
        (st, Seq::empty())
    } else {
        let (s1, x) = bus_run(st, ops.drop_last());
        let (s2, y) = bus_apply(s1, ops.last());
        (s2, x + y)
    }
}

/// The nibbles, high then low, that carry each byte, with its RS level.
pub open spec fn byte_nibbles(bytes: Seq<Latched>) -> Seq<Latched>
    decreases bytes.len(),
{
    if bytes.len() == 0 {
        Seq::empty()
    } else {
        let (rs, b) = bytes.last();
        byte_nibbles(bytes.drop_last()) + seq![(rs, b >> 4u8), (rs, b & 0x0Fu8)]
    }
}

/// The bytes the controller assembles from nibbles taken in pairs, high
/// nibble first; the RS level is that of the high nibble.
pub open spec fn assemble_bytes(nibbles: Seq<Latched>) -> Seq<Latched>
    decreases nibbles.len(),
{
    if nibbles.len() < 2 {
        Seq::empty()
    } else {
        let n = nibbles.len() as int;
        assemble_bytes(nibbles.take(n - 2)) + seq![
            (nibbles[n - 2].0, (nibbles[n - 2].1 * 16 + nibbles[n - 1].1) as u8),
        ]
    }
}

/// Bytes for the data register.
pub open spec fn as_data(bytes: Seq<u8>) -> Seq<Latched> {
    bytes.map_values(|b: u8| (true, b))
}

/// Bytes for the instruction register.
pub open spec fn as_commands(bytes: Seq<u8>) -> Seq<Latched> {
    bytes.map_values(|b: u8| (false, b))
}

proof fn lemma_nibble_bits(n: u8)
    by (bit_vector)
    ensures
        (n & 15u8) == (if n & 1u8 != 0 { 1u8 } else { 0u8 }) + (if n & 2u8 != 0 { 2u8 } else { 0u8 })
            + (if n & 4u8 != 0 { 4u8 } else { 0u8 }) + (if n & 8u8 != 0 { 8u8 } else { 0u8 }),
{
}

proof fn lemma_byte_split(b: u8)
    by (bit_vector)
    ensures
        (b >> 4u8) & 15u8 == b >> 4u8,
        (b & 15u8) & 15u8 == b & 15u8,
        (b >> 4u8) * 16 + (b & 15u8) == b,
        b >> 4u8 < 16,
        b & 15u8 < 16,
{
}

/// Running over `a + b` is running over `a`, then over `b` from where `a`
/// left the lines.
pub proof fn lemma_bus_run_append(st: BusLevels, a: Seq<LcdOp>, b: Seq<LcdOp>)
    ensures
        bus_run(st, a + b) == ({
            let (s1, x) = bus_run(st, a);
            let (s2, y) = bus_run(s1, b);
            (s2, x + y)
        }),
    decreases b.len(),
{
    if b.len() == 0 {
        assert(a + b =~= a);
        let (s1, x) = bus_run(st, a);
        assert(x + Seq::<Latched>::empty() =~= x);
    } else {
        assert((a + b).drop_last() =~= a + b.drop_last());
        assert((a + b).last() == b.last());
        lemma_bus_run_append(st, a, b.drop_last());
        let (s1, x) = bus_run(st, a);
        let (s2, y) = bus_run(s1, b.drop_last());
        let (s3, z) = bus_apply(s2, b.last());
        assert((x + y) + z =~= x + (y + z));
    }
}

proof fn lemma_bus_run_one(st: BusLevels, op: LcdOp)
    ensures
        bus_run(st, seq![op]) == bus_apply(st, op),
{
    let s = seq![op];
    assert(s.drop_last() =~= Seq::<LcdOp>::empty());
    assert(bus_run(st, Seq::<LcdOp>::empty()) == (st, Seq::<Latched>::empty()));
    let (s2, y) = bus_apply(st, op);
    assert(Seq::<Latched>::empty() + y =~= y);
}

proof fn lemma_bus_run_cons(st: BusLevels, op: LcdOp, rest: Seq<LcdOp>)
    ensures
        bus_run(st, seq![op] + rest) == ({
            let (s1, x) = bus_apply(st, op);
            let (s2, y) = bus_run(s1, rest);
            (s2, x + y)
        }),
{
    lemma_bus_run_append(st, seq![op], rest);
    lemma_bus_run_one(st, op);
}

/// A pulse on E with E low before it: the controller latches the levels on
/// the lines, once, and E is low again after it.
pub proof fn lemma_pulse_latches(t: LcdTiming, st: BusLevels)
    requires
        !st.enable,
    ensures
        bus_run(st, pulse_ops(t)) == (st, seq![(st.rs, st.nibble)]),
{
    let p = pulse_ops(t);
    let s1 = BusLevels { enable: true, ..st };
    assert(p =~= seq![LcdOp::SetEnable(true)] + (seq![LcdOp::DelayUs(1)] + (seq![LcdOp::SetEnable(false)] + seq![LcdOp::DelayUs(t.nibble_settle_us)])));
    assert(BusLevels { enable: false, ..s1 } == st);
    lemma_bus_run_one(st, LcdOp::DelayUs(t.nibble_settle_us));
    lemma_bus_run_cons(s1, LcdOp::SetEnable(false), seq![LcdOp::DelayUs(t.nibble_settle_us)]);
    lemma_bus_run_cons(s1, LcdOp::DelayUs(1), seq![LcdOp::SetEnable(false)] + seq![LcdOp::DelayUs(t.nibble_settle_us)]);
    lemma_bus_run_cons(st, LcdOp::SetEnable(true), seq![LcdOp::DelayUs(1)] + (seq![LcdOp::SetEnable(false)] + seq![LcdOp::DelayUs(t.nibble_settle_us)]));
    assert(BusLevels { enable: false, ..s1 } == st);
    let e = Seq::<Latched>::empty();
    assert(e + (e + (seq![(st.rs, st.nibble)] + e)) =~= seq![(st.rs, st.nibble)]);
}

/// Writing a nibble with E low: the controller latches the low four bits of
/// that nibble with the current RS level, and E ends low.
pub proof fn law_nibble_latched(t: LcdTiming, st: BusLevels, n: u8)
    requires
        !st.enable,
    ensures
        bus_run(st, nibble_ops(t, n)) == (
            BusLevels { nibble: n & 0x0Fu8, ..st },
            seq![(st.rs, n & 0x0Fu8)],
        ),
{
    lemma_nibble_bits(n);
    lemma_bus_run_cons(st, data_lines(n), pulse_ops(t));
    let s1 = BusLevels { nibble: n & 0x0Fu8, ..st };
    assert(bus_apply(st, data_lines(n)).0 == s1);
    lemma_pulse_latches(t, s1);
    assert(Seq::<Latched>::empty() + seq![(st.rs, n & 0x0Fu8)] =~= seq![(st.rs, n & 0x0Fu8)]);
}

/// Writing a byte with E low: the controller latches its high nibble, then
/// its low nibble, both with RS at `is_data`, and E ends low.
pub proof fn law_byte_latched(t: LcdTiming, st: BusLevels, value: u8, is_data: bool)
    requires
        !st.enable,
    ensures
        bus_run(st, byte_ops(t, value, is_data)) == (
            BusLevels { rs: is_data, nibble: value & 0x0Fu8, enable: false },
            byte_nibbles(seq![(is_data, value)]),
        ),
{
    lemma_byte_split(value);
    let hi = nibble_ops(t, value >> 4u8);
    let lo = nibble_ops(t, value & 0x0Fu8);
    let tail = seq![LcdOp::DelayUs(t.byte_settle_us)];
    assert(byte_ops(t, value, is_data) =~= seq![LcdOp::SetRs(is_data)] + (hi + (lo + tail)));
    let s1 = BusLevels { rs: is_data, ..st };
    lemma_bus_run_cons(st, LcdOp::SetRs(is_data), hi + (lo + tail));
    lemma_bus_run_append(s1, hi, lo + tail);
    law_nibble_latched(t, s1, value >> 4u8);
    let s2 = BusLevels { nibble: (value >> 4u8) & 0x0Fu8, ..s1 };
    lemma_bus_run_append(s2, lo, tail);
    law_nibble_latched(t, s2, value & 0x0Fu8);
    let s3 = BusLevels { nibble: (value & 0x0Fu8) & 0x0Fu8, ..s2 };
    lemma_bus_run_one(s3, LcdOp::DelayUs(t.byte_settle_us));
    let one = seq![(is_data, value)];
    assert(one.drop_last() =~= Seq::<Latched>::empty());
    assert(byte_nibbles(Seq::<Latched>::empty()) == Seq::<Latched>::empty());
    let e = Seq::<Latched>::empty();
    assert(byte_nibbles(one) =~= seq![(is_data, value >> 4u8), (is_data, value & 0x0Fu8)]);
    assert(e + (seq![(is_data, (value >> 4u8) & 0x0Fu8)] + (seq![(is_data, (value & 0x0Fu8) & 0x0Fu8)] + e))
        =~= seq![(is_data, value >> 4u8), (is_data, value & 0x0Fu8)]);
}

/// The nibbles of `a + b` are those of `a`, then those of `b`.
pub proof fn lemma_byte_nibbles_append(a: Seq<Latched>, b: Seq<Latched>)
    ensures
        byte_nibbles(a + b) == byte_nibbles(a) + byte_nibbles(b),
    decreases b.len(),
{
    if b.len() == 0 {
        assert(a + b =~= a);
        assert(byte_nibbles(a) + byte_nibbles(b) =~= byte_nibbles(a));
    } else {
        assert((a + b).drop_last() =~= a + b.drop_last());
        lemma_byte_nibbles_append(a, b.drop_last());
        let (rs, v) = b.last();
        let pair = seq![(rs, v >> 4u8), (rs, v & 0x0Fu8)];
        assert((byte_nibbles(a) + byte_nibbles(b.drop_last())) + pair =~= byte_nibbles(a) + (
        byte_nibbles(b.drop_last()) + pair));
    }
}

/// Writing bytes to the data register with E low: the controller latches
/// their nibbles, high before low, byte after byte, and E ends low.
pub proof fn law_data_latched(t: LcdTiming, st: BusLevels, bytes: Seq<u8>)
    requires
        !st.enable,
    ensures
        bus_run(st, data_ops(t, bytes)).1 == byte_nibbles(as_data(bytes)),
        !bus_run(st, data_ops(t, bytes)).0.enable,
    decreases bytes.len(),
{
    if bytes.len() == 0 {
        assert(as_data(bytes) =~= Seq::<Latched>::empty());
    } else {
        let init = bytes.drop_last();
        law_data_latched(t, st, init);
        lemma_bus_run_append(st, data_ops(t, init), byte_ops(t, bytes.last(), true));
        let s1 = bus_run(st, data_ops(t, init)).0;
        law_byte_latched(t, s1, bytes.last(), true);
        assert(as_data(bytes) =~= as_data(init) + seq![(true, bytes.last())]);
        lemma_byte_nibbles_append(as_data(init), seq![(true, bytes.last())]);
    }
}

/// Writing a line with E low: the controller receives the instruction that
/// moves to the row's first character, then exactly 20 characters for the
/// data register, the text's first bytes padded with spaces; E ends low.
pub proof fn law_print_line_latched(t: LcdTiming, st: BusLevels, row: u8, text: Seq<u8>)
    requires
        !st.enable,
    ensures
        bus_run(st, print_line_ops(t, row, text)).1 == byte_nibbles(
            seq![(false, row_command(row))] + as_data(line_bytes(text)),
        ),
        !bus_run(st, print_line_ops(t, row, text)).0.enable,
{
    let cmd = byte_ops(t, row_command(row), false);
    lemma_bus_run_append(st, cmd, data_ops(t, line_bytes(text)));
    law_byte_latched(t, st, row_command(row), false);
    let s1 = bus_run(st, cmd).0;
    law_data_latched(t, s1, line_bytes(text));
    lemma_byte_nibbles_append(seq![(false, row_command(row))], as_data(line_bytes(text)));
}

/// Initialisation with E low: the controller receives the reset nibbles
/// 3, 3, 3 and 2 (the last one switching it to 4-bit mode), latched with RS
/// at the level it had before, then the instructions function set, display
/// on, clear display and entry mode, in that order; E ends low.
pub proof fn law_init_latched(t: LcdTiming, st: BusLevels)
    requires
        !st.enable,
    ensures
        bus_run(st, init_ops(t)).1 == seq![
            (st.rs, 3u8),
            (st.rs, 3u8),
            (st.rs, 3u8),
            (st.rs, 2u8),
        ] + byte_nibbles(
            as_commands(
                seq![FUNCTION_SET_4BIT_2LINE, DISPLAY_ON, CLEAR_DISPLAY, ENTRY_MODE_INCREMENT],
            ),
        ),
        !bus_run(st, init_ops(t)).0.enable,
{
    let n3 = nibble_ops(t, 0x03);
    let n2 = nibble_ops(t, 0x02);
    let d0 = seq![LcdOp::DelayMs(t.reset_ms)];
    let d1 = seq![LcdOp::DelayMs(t.reset_settle_ms)];
    let d2 = seq![LcdOp::DelayUs(t.reset_settle_us)];
    let d3 = seq![LcdOp::DelayMs(t.clear_ms)];
    let b1 = byte_ops(t, FUNCTION_SET_4BIT_2LINE, false);
    let b2 = byte_ops(t, DISPLAY_ON, false);
    let b3 = byte_ops(t, CLEAR_DISPLAY, false);
    let b4 = byte_ops(t, ENTRY_MODE_INCREMENT, false);
    assert(init_ops(t) =~= d0 + n3 + d1 + n3 + d2 + n3 + d2 + n2 + b1 + b2 + b3 + d3 + b4);
    assert(3u8 & 0x0Fu8 == 3u8) by (bit_vector);
    assert(2u8 & 0x0Fu8 == 2u8) by (bit_vector);
    let e = Seq::<Latched>::empty();
    let s3 = BusLevels { nibble: 3u8, ..st };
    let s2n = BusLevels { nibble: 2u8, ..st };
    let l1 = seq![(st.rs, 3u8)];
    // The reset nibbles.
    lemma_bus_run_one(st, LcdOp::DelayMs(t.reset_ms));
    let a1 = d0;
    assert(bus_run(st, a1) == (st, e));
    law_nibble_latched(t, st, 0x03);
    lemma_bus_run_append(st, a1, n3);
    let a2 = a1 + n3;
    assert(bus_run(st, a2) == (s3, e + l1));
    lemma_bus_run_one(s3, LcdOp::DelayMs(t.reset_settle_ms));
    lemma_bus_run_append(st, a2, d1);
    let a3 = a2 + d1;
    assert(bus_run(st, a3) == (s3, (e + l1) + e));
    law_nibble_latched(t, s3, 0x03);
    lemma_bus_run_append(st, a3, n3);
    let a4 = a3 + n3;
    assert(bus_run(st, a4) == (s3, ((e + l1) + e) + l1));
    lemma_bus_run_one(s3, LcdOp::DelayUs(t.reset_settle_us));
    lemma_bus_run_append(st, a4, d2);
    let a5 = a4 + d2;
    assert(bus_run(st, a5) == (s3, (((e + l1) + e) + l1) + e));
    lemma_bus_run_append(st, a5, n3);
    let a6 = a5 + n3;
    assert(bus_run(st, a6) == (s3, ((((e + l1) + e) + l1) + e) + l1));
    lemma_bus_run_append(st, a6, d2);
    let a7 = a6 + d2;
    let r7 = (((((e + l1) + e) + l1) + e) + l1) + e;
    assert(bus_run(st, a7) == (s3, r7));
    law_nibble_latched(t, s3, 0x02);
    lemma_bus_run_append(st, a7, n2);
    let a8 = a7 + n2;
    let r8 = r7 + seq![(st.rs, 2u8)];
    assert(bus_run(st, a8) == (s2n, r8));
    assert(r8 =~= seq![(st.rs, 3u8), (st.rs, 3u8), (st.rs, 3u8), (st.rs, 2u8)]);
    // The setup instructions.
    law_byte_latched(t, s2n, FUNCTION_SET_4BIT_2LINE, false);
    let s9 = bus_run(s2n, b1).0;
    lemma_bus_run_append(st, a8, b1);
    let a9 = a8 + b1;
    let c1 = seq![(false, FUNCTION_SET_4BIT_2LINE)];
    assert(bus_run(st, a9) == (s9, r8 + byte_nibbles(c1)));
    law_byte_latched(t, s9, DISPLAY_ON, false);
    let s10 = bus_run(s9, b2).0;
    lemma_bus_run_append(st, a9, b2);
    let a10 = a9 + b2;
    let c2 = seq![(false, DISPLAY_ON)];
    assert(bus_run(st, a10) == (s10, (r8 + byte_nibbles(c1)) + byte_nibbles(c2)));
    law_byte_latched(t, s10, CLEAR_DISPLAY, false);
    let s11 = bus_run(s10, b3).0;
    lemma_bus_run_append(st, a10, b3);
    let a11 = a10 + b3;
    let c3 = seq![(false, CLEAR_DISPLAY)];
    let r11 = ((r8 + byte_nibbles(c1)) + byte_nibbles(c2)) + byte_nibbles(c3);
    assert(bus_run(st, a11) == (s11, r11));
    lemma_bus_run_one(s11, LcdOp::DelayMs(t.clear_ms));
    lemma_bus_run_append(st, a11, d3);
    let a12 = a11 + d3;
    assert(bus_run(st, a12) == (s11, r11 + e));
    law_byte_latched(t, s11, ENTRY_MODE_INCREMENT, false);
    lemma_bus_run_append(st, a12, b4);
    let a13 = a12 + b4;
    let c4 = seq![(false, ENTRY_MODE_INCREMENT)];
    assert(a13 =~= init_ops(t));
    let c = as_commands(
        seq![FUNCTION_SET_4BIT_2LINE, DISPLAY_ON, CLEAR_DISPLAY, ENTRY_MODE_INCREMENT],
    );
    assert(c =~= ((c1 + c2) + c3) + c4);
    lemma_byte_nibbles_append(c1, c2);
    lemma_byte_nibbles_append(c1 + c2, c3);
    lemma_byte_nibbles_append((c1 + c2) + c3, c4);
    assert(bus_run(st, init_ops(t)).1 =~= r8 + byte_nibbles(c));
}

/// What one call undoes: the controller, pairing the nibbles it latched,
/// gets back exactly the bytes written, each with its register.
pub proof fn law_assemble_undoes_split(bytes: Seq<Latched>)
    ensures
        assemble_bytes(byte_nibbles(bytes)) == bytes,
    decreases bytes.len(),
{
    if bytes.len() > 0 {
        let init = bytes.drop_last();
        let (rs, v) = bytes.last();
        let ns = byte_nibbles(bytes);
        law_assemble_undoes_split(init);
        lemma_byte_split(v);
        let n = ns.len() as int;
        assert(ns.take(n - 2) =~= byte_nibbles(init));
        assert(bytes =~= init + seq![(rs, v)]);
    } else {
        assert(bytes =~= Seq::<Latched>::empty());
    }
}

/// The row layout: row 0 starts the controller's first line (DDRAM 0x00)
/// and row 1 its second (0x40); each row's 20 characters lie inside one controller line
/// (DDRAM 0x00..0x27 or 0x40..0x67), rows 2 and 3 continue rows 0 and 1,
/// the four rows start at different addresses, and the command that moves
/// to a row is the set-DDRAM-address instruction for that row's address.
pub proof fn law_row_layout(row: u8)
    ensures
        spec_row_address(row) + LINE_WIDTH <= 0x28 || (0x40 <= spec_row_address(row)
            && spec_row_address(row) + LINE_WIDTH <= 0x68),
        spec_row_address(2) == spec_row_address(0) + LINE_WIDTH,
        spec_row_address(3) == spec_row_address(1) + LINE_WIDTH,
        row < 4 ==> forall|other: u8|
            other < 4 && other != row ==> spec_row_address(other) != spec_row_address(row),
        row_command(row) == 0x80 + spec_row_address(row),
        row >= 3 ==> spec_row_address(row) == spec_row_address(3),
        spec_row_address(0) == 0x00,
        spec_row_address(1) == 0x40,
{
    assert(0x80u8 | 0x00u8 == 0x80u8) by (bit_vector);
    assert(0x80u8 | 0x40u8 == 0xC0u8) by (bit_vector);
    assert(0x80u8 | 0x14u8 == 0x94u8) by (bit_vector);
    assert(0x80u8 | 0x54u8 == 0xD4u8) by (bit_vector);
}

/// A line shows the text's first 20 bytes, and spaces after its end.
pub proof fn law_line_is_padded(text: Seq<u8>)
    ensures
        line_bytes(text).len() == LINE_WIDTH,
        forall|i: int| 0 <= i < LINE_WIDTH && i < text.len() ==> #[trigger] line_bytes(text)[i] == text[i],
        forall|i: int| text.len() <= i < LINE_WIDTH ==> #[trigger] line_bytes(text)[i] == 0x20u8,
{
}

/// The controller: how it takes bytes off the bus, its settings, and what
/// it shows. Display shift and character-generator RAM are not modelled.
#[verifier::ext_equal]
pub ghost struct Controller {
    /// 8-bit interface, as at power-on, rather than 4-bit.
    pub eight_bit: bool,
    /// In 4-bit mode, the high nibble (with its RS level) of a byte whose
    /// low nibble is still to come.
    pub pending: Option<Latched>,
    /// The levels of D0..D3, which are not wired; the controller reads them
    /// as the low bits of each byte while in 8-bit mode.
    pub low_lines: u8,
    /// Function set: two display lines rather than one.
    pub two_lines: bool,
    /// Display control: display on.
    pub display_on: bool,
    /// Entry mode: the address counter moves up after each character.
    pub increment: bool,
    /// The DDRAM address the next character goes to.
    pub ac: int,
    /// The character code at each DDRAM address.
    pub ddram: Map<int, u8>,
}

/// The address after `ac` in 2-line mode: the first line ends at 0x27 and
/// the second at 0x67.
pub open spec fn next_address(ac: int) -> int {
    if ac == 0x27 {
        0x40
    } else if ac == 0x67 {
        0x00
    } else {
        ac + 1
    }
}

/// The address before `ac` in 2-line mode.
pub open spec fn prev_address(ac: int) -> int {
    if ac == 0x40 {
        0x27
    } else if ac == 0x00 {
        0x67
    } else {
        ac - 1
    }
}

/// A DDRAM full of spaces, as clear display leaves it.
pub open spec fn blank_ddram() -> Map<int, u8> {
    Map::new(|a: int| 0 <= a < 0x80, |a: int| 0x20u8)
}

/// One byte for the data register (a character written at the address
/// counter, which then moves) or the instruction register (decoded by its
/// highest set bit: set DDRAM address, set CGRAM address, function set,
/// cursor or display shift, display control, entry mode, return home, clear
/// display).
pub open spec fn execute(c: Controller, byte: Latched) -> Controller {
    let (rs, b) = byte;
    if rs {
        Controller {
            ac: if c.increment {
                next_address(c.ac)
            } else {
                prev_address(c.ac)
            },
            ddram: c.ddram.insert(c.ac, b),
            ..c
        }
    } else if b & 0x80u8 != 0 {
        Controller { ac: (b & 0x7Fu8) as int, ..c }
    } else if b & 0x40u8 != 0 {
        c
    } else if b & 0x20u8 != 0 {
        Controller { eight_bit: b & 0x10u8 != 0, two_lines: b & 0x08u8 != 0, ..c }
    } else if b & 0x10u8 != 0 {
        c
    } else if b & 0x08u8 != 0 {
        Controller { display_on: b & 0x04u8 != 0, ..c }
    } else if b & 0x04u8 != 0 {
        Controller { increment: b & 0x02u8 != 0, ..c }
    } else if b & 0x02u8 != 0 {
        Controller { ac: 0, ..c }
    } else if b & 0x01u8 != 0 {
        Controller { ac: 0, ddram: blank_ddram(), increment: true, ..c }
    } else {
        c
    }
}

/// One nibble latched off D4..D7: in 8-bit mode it is the high half of a
/// whole byte; in 4-bit mode it is held until its low half arrives.
pub open spec fn receive_nibble(c: Controller, n: Latched) -> Controller {
    let (rs, v) = n;
    if c.eight_bit {
        execute(Controller { pending: None, ..c }, (rs, (v << 4u8) | (c.low_lines & 0x0Fu8)))
    } else {
        match c.pending {
            None => Controller { pending: Some(n), ..c },
            Some(first) => execute(
                Controller { pending: None, ..c },
                (first.0, (first.1 << 4u8) | (v & 0x0Fu8)),
            ),
        }
    }
}

/// The controller after the nibbles `ns`, in order.
pub open spec fn receive_nibbles(c: Controller, ns: Seq<Latched>) -> Controller
    decreases ns.len(),
{
    if ns.len() == 0 {
        c
    } else {
        receive_nibble(receive_nibbles(c, ns.drop_last()), ns.last())
    }
}

/// The controller after the whole bytes `bytes`, in order.
pub open spec fn execute_bytes(c: Controller, bytes: Seq<Latched>) -> Controller
    decreases bytes.len(),
{
    if bytes.len() == 0 {
        c
    } else {
        execute(execute_bytes(c, bytes.drop_last()), bytes.last())
    }
}

/// In 4-bit mode with no half byte held: nibbles pair up into bytes.
pub open spec fn aligned_4bit(c: Controller) -> bool {
    !c.eight_bit && c.pending is None
}

/// A byte that does not switch the interface to 8-bit mode.
pub open spec fn keeps_4bit(byte: Latched) -> bool {
    byte.0 || byte.1 & 0x80u8 != 0 || byte.1 & 0x40u8 != 0 || byte.1 & 0x20u8 == 0 || byte.1
        & 0x10u8 == 0
}

/// The cells from `start` on holding `bytes`.
pub open spec fn cells(start: int, bytes: Seq<u8>) -> Map<int, u8> {
    Map::new(|a: int| start <= a < start + bytes.len(), |a: int| bytes[a - start])
}

/// The bytes of writing `text` on `row`: the move to the row, then the 20
/// characters of the line.
pub open spec fn print_line_bytes(row: u8, text: Seq<u8>) -> Seq<Latched> {
    seq![(false, row_command(row))] + as_data(line_bytes(text))
}

/// The controller after writing `text` on `row`: the row's 20 cells hold
/// the line, every other cell and every setting is as it was, and the
/// counter is just past the row.
pub open spec fn after_print(c: Controller, row: u8, text: Seq<u8>) -> Controller {
    Controller {
        ac: next_address(spec_row_address(row) + LINE_WIDTH - 1),
        ddram: c.ddram.union_prefer_right(cells(spec_row_address(row) as int, line_bytes(text))),
        ..c
    }
}

/// The controller after initialisation: 4-bit interface with no half byte
/// held, two lines, display on, cursor moving right, display memory blank
/// and the counter at 0.
pub open spec fn after_init(c: Controller) -> Controller {
    Controller {
        eight_bit: false,
        pending: None,
        low_lines: c.low_lines,
        two_lines: true,
        display_on: true,
        increment: true,
        ac: 0,
        ddram: blank_ddram(),
    }
}

/// Receiving `a + b` is receiving `a`, then `b`.
pub proof fn lemma_receive_append(c: Controller, a: Seq<Latched>, b: Seq<Latched>)
    ensures
        receive_nibbles(c, a + b) == receive_nibbles(receive_nibbles(c, a), b),
    decreases b.len(),
{
    if b.len() == 0 {
        assert(a + b =~= a);
    } else {
        assert((a + b).drop_last() =~= a + b.drop_last());
        assert((a + b).last() == b.last());
        lemma_receive_append(c, a, b.drop_last());
    }
}

/// Executing `a + b` is executing `a`, then `b`.
pub proof fn lemma_execute_append(c: Controller, a: Seq<Latched>, b: Seq<Latched>)
    ensures
        execute_bytes(c, a + b) == execute_bytes(execute_bytes(c, a), b),
    decreases b.len(),
{
    if b.len() == 0 {
        assert(a + b =~= a);
    } else {
        assert((a + b).drop_last() =~= a + b.drop_last());
        assert((a + b).last() == b.last());
        lemma_execute_append(c, a, b.drop_last());
    }
}

proof fn lemma_receive_one(c: Controller, n: Latched)
    ensures
        receive_nibbles(c, seq![n]) == receive_nibble(c, n),
{
    assert(seq![n].drop_last() =~= Seq::<Latched>::empty());
    assert(receive_nibbles(c, Seq::<Latched>::empty()) == c);
}

proof fn lemma_execute_one(c: Controller, b: Latched)
    ensures
        execute_bytes(c, seq![b]) == execute(c, b),
{
    assert(seq![b].drop_last() =~= Seq::<Latched>::empty());
    assert(execute_bytes(c, Seq::<Latched>::empty()) == c);
}

proof fn lemma_nibble_pair(b: u8)
    by (bit_vector)
    ensures
        ((b >> 4u8) << 4u8) | ((b & 0x0Fu8) & 0x0Fu8) == b,
{
}

/// In 4-bit mode, the two nibbles of a byte make that byte.
pub proof fn lemma_byte_received(c: Controller, byte: Latched)
    requires
        aligned_4bit(c),
    ensures
        receive_nibbles(c, byte_nibbles(seq![byte])) == execute(c, byte),
        keeps_4bit(byte) ==> aligned_4bit(execute(c, byte)),
{
    let (rs, b) = byte;
    let one = seq![byte];
    assert(one.drop_last() =~= Seq::<Latched>::empty());
    assert(byte_nibbles(Seq::<Latched>::empty()) == Seq::<Latched>::empty());
    assert(byte_nibbles(one) =~= seq![(rs, b >> 4u8)] + seq![(rs, b & 0x0Fu8)]);
    lemma_receive_append(c, seq![(rs, b >> 4u8)], seq![(rs, b & 0x0Fu8)]);
    lemma_receive_one(c, (rs, b >> 4u8));
    let c1 = receive_nibble(c, (rs, b >> 4u8));
    lemma_receive_one(c1, (rs, b & 0x0Fu8));
    lemma_nibble_pair(b);
    assert(Controller { pending: None, ..c1 } == c);
}

/// In 4-bit mode, the nibbles of bytes that keep the interface in 4-bit
/// mode act as those bytes, and leave it in 4-bit mode with no half byte
/// held.
pub proof fn law_aligned_nibbles_act_as_bytes(c: Controller, bytes: Seq<Latched>)
    requires
        aligned_4bit(c),
        forall|i: int| 0 <= i < bytes.len() ==> keeps_4bit(#[trigger] bytes[i]),
    ensures
        receive_nibbles(c, byte_nibbles(bytes)) == execute_bytes(c, bytes),
        aligned_4bit(execute_bytes(c, bytes)),
    decreases bytes.len(),
{
    if bytes.len() > 0 {
        let init = bytes.drop_last();
        let last = bytes.last();
        assert forall|i: int| 0 <= i < init.len() implies keeps_4bit(#[trigger] init[i]) by {
            assert(init[i] == bytes[i]);
        }
        law_aligned_nibbles_act_as_bytes(c, init);
        assert(bytes =~= init + seq![last]);
        lemma_byte_nibbles_append(init, seq![last]);
        lemma_receive_append(c, byte_nibbles(init), byte_nibbles(seq![last]));
        assert(keeps_4bit(bytes[bytes.len() - 1]));
        lemma_byte_received(execute_bytes(c, init), last);
    }
}

proof fn lemma_row_command_sets_address(row: u8)
    ensures
        row_command(row) & 0x80u8 != 0,
        (row_command(row) & 0x7Fu8) as int == spec_row_address(row) as int,
{
    assert((0x80u8 | 0x00u8) & 0x80u8 != 0 && (0x80u8 | 0x00u8) & 0x7Fu8 == 0x00u8) by (bit_vector);
    assert((0x80u8 | 0x40u8) & 0x80u8 != 0 && (0x80u8 | 0x40u8) & 0x7Fu8 == 0x40u8) by (bit_vector);
    assert((0x80u8 | 0x14u8) & 0x80u8 != 0 && (0x80u8 | 0x14u8) & 0x7Fu8 == 0x14u8) by (bit_vector);
    assert((0x80u8 | 0x54u8) & 0x80u8 != 0 && (0x80u8 | 0x54u8) & 0x7Fu8 == 0x54u8) by (bit_vector);
}

/// Writing the first `k` characters of a line from the row's start.
proof fn lemma_write_row_prefix(c: Controller, row: u8, line: Seq<u8>, k: nat)
    requires
        c.ac == spec_row_address(row),
        c.increment,
        line.len() == LINE_WIDTH,
        k <= LINE_WIDTH,
    ensures
        execute_bytes(c, as_data(line.take(k as int))) == (Controller {
            ac: if k == 0 {
                c.ac
            } else {
                next_address(c.ac + k - 1)
            },
            ddram: c.ddram.union_prefer_right(cells(c.ac, line.take(k as int))),
            ..c
        }),
    decreases k,
{
    let addr = c.ac;
    if k == 0 {
        assert(as_data(line.take(0)) =~= Seq::<Latched>::empty());
        assert(c.ddram.union_prefer_right(cells(addr, line.take(0))) =~= c.ddram);
        assert(execute_bytes(c, Seq::<Latched>::empty()) =~= c);
    } else {
        let k1 = (k - 1) as nat;
        lemma_write_row_prefix(c, row, line, k1);
        assert(as_data(line.take(k as int)).drop_last() =~= as_data(line.take(k1 as int)));
        assert(as_data(line.take(k as int)).last() == (true, line[k1 as int]));
        let prev = execute_bytes(c, as_data(line.take(k1 as int)));
        // Within a row the counter only steps by one.
        assert(prev.ac == addr + k1);
        assert(prev.ddram.insert(addr + k1, line[k1 as int]) =~= c.ddram.union_prefer_right(
            cells(addr, line.take(k as int)),
        ));
        assert(execute_bytes(c, as_data(line.take(k as int))) =~= (Controller {
            ac: next_address(c.ac + k - 1),
            ddram: c.ddram.union_prefer_right(cells(c.ac, line.take(k as int))),
            ..c
        }));
    }
}

/// Writing `text` on `row` with the cursor moving right shows the padded
/// line in that row's 20 cells, whatever was there before, and touches no
/// other cell and no setting.
pub proof fn law_print_line_shows_text(c: Controller, row: u8, text: Seq<u8>)
    requires
        c.increment,
    ensures
        execute_bytes(c, print_line_bytes(row, text)) == after_print(c, row, text),
{
    let cmd = seq![(false, row_command(row))];
    let line = line_bytes(text);
    lemma_execute_append(c, cmd, as_data(line));
    lemma_row_command_sets_address(row);
    lemma_execute_one(c, (false, row_command(row)));
    let c1 = Controller { ac: spec_row_address(row) as int, ..c };
    assert(execute_bytes(c, cmd) == c1);
    lemma_write_row_prefix(c1, row, line, LINE_WIDTH as nat);
    assert(line.take(LINE_WIDTH as int) =~= line);
    assert(execute_bytes(c, print_line_bytes(row, text)) =~= after_print(c, row, text));
}

/// A shorter line overwrites a longer one: writing `t2` on a row after
/// `t1` leaves the controller exactly as writing `t2` alone would; nothing
/// of `t1` stays on screen.
pub proof fn law_second_print_overwrites(c: Controller, row: u8, t1: Seq<u8>, t2: Seq<u8>)
    requires
        c.increment,
    ensures
        execute_bytes(execute_bytes(c, print_line_bytes(row, t1)), print_line_bytes(row, t2))
            == execute_bytes(c, print_line_bytes(row, t2)),
{
    law_print_line_shows_text(c, row, t1);
    law_print_line_shows_text(after_print(c, row, t1), row, t2);
    law_print_line_shows_text(c, row, t2);
    let a = spec_row_address(row) as int;
    assert(c.ddram.union_prefer_right(cells(a, line_bytes(t1))).union_prefer_right(
        cells(a, line_bytes(t2)),
    ) =~= c.ddram.union_prefer_right(cells(a, line_bytes(t2))));
    assert(after_print(after_print(c, row, t1), row, t2) =~= after_print(c, row, t2));
}

/// The program of `lcd_print_line`, played with E low on a controller in
/// 4-bit mode with the cursor moving right, shows the padded text in the
/// row's cells and changes nothing else; the controller stays in step.
pub proof fn law_print_line_program_shows_text(
    t: LcdTiming,
    st: BusLevels,
    c: Controller,
    row: u8,
    text: Seq<u8>,
)
    requires
        !st.enable,
        aligned_4bit(c),
        c.increment,
    ensures
        receive_nibbles(c, bus_run(st, print_line_ops(t, row, text)).1) == after_print(c, row, text),
        aligned_4bit(after_print(c, row, text)),
{
    law_print_line_latched(t, st, row, text);
    let bytes = print_line_bytes(row, text);
    lemma_row_command_sets_address(row);
    assert forall|i: int| 0 <= i < bytes.len() implies keeps_4bit(#[trigger] bytes[i]) by {
        if i > 0 {
            assert(bytes[i] == (true, line_bytes(text)[i - 1]));
        }
    }
    law_aligned_nibbles_act_as_bytes(c, bytes);
    law_print_line_shows_text(c, row, text);
}

proof fn lemma_reset_bytes(x: u8)
    by (bit_vector)
    ensures
        ((3u8 << 4u8) | (x & 0x0Fu8)) & 0x80u8 == 0,
        ((3u8 << 4u8) | (x & 0x0Fu8)) & 0x40u8 == 0,
        ((3u8 << 4u8) | (x & 0x0Fu8)) & 0x20u8 != 0,
        ((3u8 << 4u8) | (x & 0x0Fu8)) & 0x10u8 != 0,
        ((2u8 << 4u8) | (x & 0x0Fu8)) & 0x80u8 == 0,
        ((2u8 << 4u8) | (x & 0x0Fu8)) & 0x40u8 == 0,
        ((2u8 << 4u8) | (x & 0x0Fu8)) & 0x20u8 != 0,
        ((2u8 << 4u8) | (x & 0x0Fu8)) & 0x10u8 == 0,
{
}

/// The reset-by-instruction nibbles 3, 3, 3, 2 with RS low bring the
/// controller to 4-bit mode with no half byte held, from any state: 8-bit
/// mode as at power-on, or 4-bit mode with or without a half byte held.
pub proof fn lemma_reset_nibbles(c: Controller)
    ensures
        aligned_4bit(
            receive_nibbles(c, seq![(false, 3u8), (false, 3u8), (false, 3u8), (false, 2u8)]),
        ),
        receive_nibbles(
            c,
            seq![(false, 3u8), (false, 3u8), (false, 3u8), (false, 2u8)],
        ).low_lines == c.low_lines,
{
    let n3 = (false, 3u8);
    let n2 = (false, 2u8);
    let r = seq![n3, n3, n3, n2];
    assert(r =~= ((seq![n3] + seq![n3]) + seq![n3]) + seq![n2]);
    lemma_receive_append(c, (seq![n3] + seq![n3]) + seq![n3], seq![n2]);
    lemma_receive_append(c, seq![n3] + seq![n3], seq![n3]);
    lemma_receive_append(c, seq![n3], seq![n3]);
    lemma_receive_one(c, n3);
    let r1 = receive_nibble(c, n3);
    lemma_receive_one(r1, n3);
    let r2 = receive_nibble(r1, n3);
    lemma_receive_one(r2, n3);
    let r3 = receive_nibble(r2, n3);
    lemma_receive_one(r3, n2);
    let r4 = receive_nibble(r3, n2);
    assert(receive_nibbles(c, r) == r4);
    lemma_reset_bytes(c.low_lines);
    lemma_reset_bytes(3u8);
    assert(3u8 & 0x0Fu8 == 3u8) by (bit_vector);
    assert(2u8 & 0x0Fu8 == 2u8) by (bit_vector);
    // Whatever the first nibble does, at most one more is needed to reach
    // 8-bit mode, and the 2 then switches to 4-bit mode.
    assert(r1.pending is None || (!r1.eight_bit && r1.pending == Some(n3)));
    assert(r2.eight_bit && r2.pending is None || (!r2.eight_bit && r2.pending == Some(n3)));
    assert(r3.eight_bit && r3.pending is None);
    assert(!r4.eight_bit && r4.pending is None);
}

/// Initialisation brings the controller to a known state whatever its
/// power-on condition (8-bit mode, or 4-bit mode at either half of a byte):
/// played with E and RS low, it leaves the controller in 4-bit mode with two
/// lines, the display on, the cursor moving right, the display memory blank
/// and the address counter at 0.
pub proof fn law_init_resets_controller(t: LcdTiming, st: BusLevels, c: Controller)
    requires
        !st.enable,
        !st.rs,
    ensures
        receive_nibbles(c, bus_run(st, init_ops(t)).1) == after_init(c),
{
    law_init_latched(t, st);
    let reset = seq![(false, 3u8), (false, 3u8), (false, 3u8), (false, 2u8)];
    let cmds = as_commands(
        seq![FUNCTION_SET_4BIT_2LINE, DISPLAY_ON, CLEAR_DISPLAY, ENTRY_MODE_INCREMENT],
    );
    lemma_receive_append(c, reset, byte_nibbles(cmds));
    lemma_reset_nibbles(c);
    let c4 = receive_nibbles(c, reset);
    assert(0x28u8 & 0x80u8 == 0 && 0x28u8 & 0x40u8 == 0 && 0x28u8 & 0x20u8 != 0 && 0x28u8 & 0x10u8
        == 0 && 0x28u8 & 0x08u8 != 0) by (bit_vector);
    assert(0x0Cu8 & 0x80u8 == 0 && 0x0Cu8 & 0x40u8 == 0 && 0x0Cu8 & 0x20u8 == 0 && 0x0Cu8 & 0x10u8
        == 0 && 0x0Cu8 & 0x08u8 != 0 && 0x0Cu8 & 0x04u8 != 0) by (bit_vector);
    assert(0x01u8 & 0x80u8 == 0 && 0x01u8 & 0x40u8 == 0 && 0x01u8 & 0x20u8 == 0 && 0x01u8 & 0x10u8
        == 0 && 0x01u8 & 0x08u8 == 0 && 0x01u8 & 0x04u8 == 0 && 0x01u8 & 0x02u8 == 0 && 0x01u8
        & 0x01u8 != 0) by (bit_vector);
    assert(0x06u8 & 0x80u8 == 0 && 0x06u8 & 0x40u8 == 0 && 0x06u8 & 0x20u8 == 0 && 0x06u8 & 0x10u8
        == 0 && 0x06u8 & 0x08u8 == 0 && 0x06u8 & 0x04u8 != 0 && 0x06u8 & 0x02u8 != 0) by (bit_vector);
    assert forall|i: int| 0 <= i < cmds.len() implies keeps_4bit(#[trigger] cmds[i]) by {
    }
    law_aligned_nibbles_act_as_bytes(c4, cmds);
    let b1 = (false, FUNCTION_SET_4BIT_2LINE);
    let b2 = (false, DISPLAY_ON);
    let b3 = (false, CLEAR_DISPLAY);
    let b4 = (false, ENTRY_MODE_INCREMENT);
    assert(cmds =~= ((seq![b1] + seq![b2]) + seq![b3]) + seq![b4]);
    lemma_execute_append(c4, (seq![b1] + seq![b2]) + seq![b3], seq![b4]);
    lemma_execute_append(c4, seq![b1] + seq![b2], seq![b3]);
    lemma_execute_append(c4, seq![b1], seq![b2]);
    lemma_execute_one(c4, b1);
    let e1 = execute(c4, b1);
    lemma_execute_one(e1, b2);
    let e2 = execute(e1, b2);
    lemma_execute_one(e2, b3);
    let e3 = execute(e2, b3);
    lemma_execute_one(e3, b4);
    let e4 = execute(e3, b4);
    assert(execute_bytes(c4, cmds) == e4);
    assert(e4 =~= after_init(c));
}

} // verus!
