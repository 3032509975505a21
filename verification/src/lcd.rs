//! Bit-banged HD44780 driver in 4-bit mode for 20x4 panels that share the
//! data lines D4..D7, each panel having its own RS and E lines.
//!
//! The driver does not touch pins itself: each operation appends the pin
//! writes and delays it needs, in order, to a program of `LcdOp`s that the
//! board code plays on the panel's lines.
use vstd::prelude::*;
use vstd::string::StringSliceAdditionalSpecFns;

verus! {

/// One step of a program for a panel's lines.
#[derive(Clone, Copy, Debug, PartialEq, Eq, Structural)]
pub enum LcdOp {
    /// Drive RS: high selects the data register, low the instruction register.
    SetRs(bool),
    /// Drive the shared data lines D4..D7.
    SetData { d4: bool, d5: bool, d6: bool, d7: bool },
    /// Drive the panel's enable line E; the controller latches D4..D7 and RS
    /// when E falls.
    SetEnable(bool),
    /// Busy-wait this many microseconds.
    DelayUs(u32),
    /// Busy-wait this many milliseconds.
    DelayMs(u32),
}

/// The settle and reset delays of the driver.
#[derive(Clone, Copy, Debug, PartialEq, Eq, Structural)]
pub struct LcdTiming {
    /// After each pulse of E, in microseconds.
    pub nibble_settle_us: u32,
    /// After each byte, in microseconds.
    pub byte_settle_us: u32,
    /// Before the reset-by-instruction sequence, in milliseconds.
    pub reset_ms: u32,
    /// After the first reset nibble, in milliseconds.
    pub reset_settle_ms: u32,
    /// After the second and third reset nibbles, in microseconds.
    pub reset_settle_us: u32,
    /// After the clear-display command, in milliseconds.
    pub clear_ms: u32,
}

impl LcdTiming {
    /// The HD44780 datasheet timing that real panels need.
    pub open spec fn hardware_spec() -> Self {
        LcdTiming {
            nibble_settle_us: 50,
            byte_settle_us: 50,
            reset_ms: 50,
            reset_settle_ms: 5,
            reset_settle_us: 150,
            clear_ms: 2,
        }
    }

    /// The HD44780 datasheet timing that real panels need.
    pub fn hardware() -> (t: Self)
        ensures
            t == Self::hardware_spec(),
            t == (LcdTiming {
                nibble_settle_us: 50,
                byte_settle_us: 50,
                reset_ms: 50,
                reset_settle_ms: 5,
                reset_settle_us: 150,
                clear_ms: 2,
            }),
    {
        LcdTiming {
            nibble_settle_us: 50,
            byte_settle_us: 50,
            reset_ms: 50,
            reset_settle_ms: 5,
            reset_settle_us: 150,
            clear_ms: 2,
        }
    }

    /// The shrunk delays of the one configuration known to work in the
    /// simulator.
    pub fn simulation() -> (t: Self)
        ensures
            t == (LcdTiming {
                nibble_settle_us: 1,
                byte_settle_us: 1,
                reset_ms: 1,
                reset_settle_ms: 1,
                reset_settle_us: 5,
                clear_ms: 1,
            }),
    {
        LcdTiming {
            nibble_settle_us: 1,
            byte_settle_us: 1,
            reset_ms: 1,
            reset_settle_ms: 1,
            reset_settle_us: 5,
            clear_ms: 1,
        }
    }
}

/// Characters written per line: a line is always written whole.
pub const LINE_WIDTH: usize = 20;

/// Instruction "set DDRAM address": this bit, or the address.
pub const SET_DDRAM_ADDRESS: u8 = 0x80;

/// Function set: 4-bit interface, 2 lines, 5x8 font.
pub const FUNCTION_SET_4BIT_2LINE: u8 = 0x28;

/// Display on, cursor off, blink off.
pub const DISPLAY_ON: u8 = 0x0C;

/// Clear display.
pub const CLEAR_DISPLAY: u8 = 0x01;

/// Entry mode: increment, no shift.
pub const ENTRY_MODE_INCREMENT: u8 = 0x06;

/// The DDRAM address of the first character of a row.
pub open spec fn spec_row_address(row: u8) -> u8 {
    if row == 0 {
        0x00
    } else if row == 1 {
        0x40
    } else if row == 2 {
        0x14
    } else {
        0x54
    }
}

/// DDRAM start address for each row of a 20x4 HD44780 display. The
/// controller knows two lines of 40 characters; the four rows of the panel
/// are those two lines split in half, so row 2 continues row 0 and row 3
/// continues row 1. Rows past 3 are taken as row 3.
pub fn row_address(row: u8) -> (addr: u8)
    ensures
        addr == spec_row_address(row),
{
    match row {
        0 => 0x00,
        1 => 0x40,
        2 => 0x14,
        _ => 0x54,
    }
}

/// The levels that put the low four bits of `nibble` on D4..D7.
pub open spec fn data_lines(nibble: u8) -> LcdOp {
    LcdOp::SetData {
        d4: nibble & 1u8 != 0,
        d5: nibble & 2u8 != 0,
        d6: nibble & 4u8 != 0,
        d7: nibble & 8u8 != 0,
    }
}

/// A pulse on E, then the settle delay.
pub open spec fn pulse_ops(t: LcdTiming) -> Seq<LcdOp> {
    seq![
        LcdOp::SetEnable(true),
        LcdOp::DelayUs(1),
        LcdOp::SetEnable(false),
        LcdOp::DelayUs(t.nibble_settle_us),
    ]
}

/// The low four bits of `nibble` on D4..D7, latched by a pulse on E.
pub open spec fn nibble_ops(t: LcdTiming, nibble: u8) -> Seq<LcdOp> {
    seq![data_lines(nibble)] + pulse_ops(t)
}

/// A byte to the data register (`is_data`) or the instruction register:
/// RS, the high nibble, the low nibble, then the settle delay.
pub open spec fn byte_ops(t: LcdTiming, value: u8, is_data: bool) -> Seq<LcdOp> {
    seq![LcdOp::SetRs(is_data)] + nibble_ops(t, value >> 4u8) + nibble_ops(t, value & 0x0Fu8)
        + seq![LcdOp::DelayUs(t.byte_settle_us)]
}

/// The HD44780 4-bit "reset by instruction" sequence, which brings the
/// controller to a known state whatever its power-on condition, then the
/// setup commands.
pub open spec fn init_ops(t: LcdTiming) -> Seq<LcdOp> {
    seq![LcdOp::DelayMs(t.reset_ms)] + nibble_ops(t, 0x03) + seq![LcdOp::DelayMs(t.reset_settle_ms)]
        + nibble_ops(t, 0x03) + seq![LcdOp::DelayUs(t.reset_settle_us)] + nibble_ops(t, 0x03)
        + seq![LcdOp::DelayUs(t.reset_settle_us)] + nibble_ops(t, 0x02) + byte_ops(
        t,
        FUNCTION_SET_4BIT_2LINE,
        false,
    ) + byte_ops(t, DISPLAY_ON, false) + byte_ops(t, CLEAR_DISPLAY, false) + seq![
        LcdOp::DelayMs(t.clear_ms),
    ] + byte_ops(t, ENTRY_MODE_INCREMENT, false)
}

/// Each byte of `bytes` to the data register, in order.
pub open spec fn data_ops(t: LcdTiming, bytes: Seq<u8>) -> Seq<LcdOp>
    decreases bytes.len(),
{
    if bytes.len() == 0 {
        Seq::empty()
    } else {
        data_ops(t, bytes.drop_last()) + byte_ops(t, bytes.last(), true)
    }
}

/// The 20 characters a line shows: the first 20 bytes of `text`, padded
/// with spaces, so that a shorter line overwrites what a longer one left.
pub open spec fn line_bytes(text: Seq<u8>) -> Seq<u8> {
    Seq::new(LINE_WIDTH as nat, |i: int| if i < text.len() { text[i] } else { 0x20u8 })
}

/// The command that moves the cursor to the start of `row`.
pub open spec fn row_command(row: u8) -> u8 {
    SET_DDRAM_ADDRESS | spec_row_address(row)
}

/// Writing `text` (as UTF-8 bytes) on `row`.
pub open spec fn print_line_ops(t: LcdTiming, row: u8, text: Seq<u8>) -> Seq<LcdOp> {
    byte_ops(t, row_command(row), false) + data_ops(t, line_bytes(text))
}

/// Pulses E high for a microsecond, then lets the lines settle.
pub fn pulse_enable(t: LcdTiming, ops: &mut Vec<LcdOp>)
    ensures
        final(ops)@ == old(ops)@ + pulse_ops(t),
{
    ops.push(LcdOp::SetEnable(true));
    ops.push(LcdOp::DelayUs(1));
    ops.push(LcdOp::SetEnable(false));
    ops.push(LcdOp::DelayUs(t.nibble_settle_us));
    assert(final(ops)@ =~= old(ops)@ + pulse_ops(t));
}

/// Puts the low four bits of `nibble` on D4..D7 and latches them.
pub fn write_nibble(t: LcdTiming, ops: &mut Vec<LcdOp>, nibble: u8)
    ensures
        final(ops)@ == old(ops)@ + nibble_ops(t, nibble),
{
    ops.push(
        LcdOp::SetData {
            d4: nibble & 0x1 != 0,
            d5: nibble & 0x2 != 0,
            d6: nibble & 0x4 != 0,
            d7: nibble & 0x8 != 0,
        },
    );
    pulse_enable(t, ops);
    assert(final(ops)@ =~= old(ops)@ + nibble_ops(t, nibble));
}

/// Writes a byte, high nibble first, to the data register when `is_data`
/// and to the instruction register otherwise.
pub fn write_byte(t: LcdTiming, ops: &mut Vec<LcdOp>, value: u8, is_data: bool)
    ensures
        final(ops)@ == old(ops)@ + byte_ops(t, value, is_data),
{
    ops.push(LcdOp::SetRs(is_data));
    write_nibble(t, ops, value >> 4);
    write_nibble(t, ops, value & 0x0F);
    ops.push(LcdOp::DelayUs(t.byte_settle_us));
    assert(final(ops)@ =~= old(ops)@ + byte_ops(t, value, is_data));
}

/// Sends an instruction.
pub fn lcd_command(t: LcdTiming, ops: &mut Vec<LcdOp>, cmd: u8)
    ensures
        final(ops)@ == old(ops)@ + byte_ops(t, cmd, false),
{
    write_byte(t, ops, cmd, false);
}

/// Brings the controller up in 4-bit, 2-line mode with the display on, the
/// screen cleared and the cursor moving right.
pub fn lcd_init(t: LcdTiming, ops: &mut Vec<LcdOp>)
    ensures
        final(ops)@ == old(ops)@ + init_ops(t),
{
    ops.push(LcdOp::DelayMs(t.reset_ms));
    write_nibble(t, ops, 0x03);
    ops.push(LcdOp::DelayMs(t.reset_settle_ms));
    write_nibble(t, ops, 0x03);
    ops.push(LcdOp::DelayUs(t.reset_settle_us));
    write_nibble(t, ops, 0x03);
    ops.push(LcdOp::DelayUs(t.reset_settle_us));
    write_nibble(t, ops, 0x02);  // switch to 4-bit mode
    lcd_command(t, ops, FUNCTION_SET_4BIT_2LINE);
    lcd_command(t, ops, DISPLAY_ON);
    lcd_command(t, ops, CLEAR_DISPLAY);
    ops.push(LcdOp::DelayMs(t.clear_ms));
    lcd_command(t, ops, ENTRY_MODE_INCREMENT);
    assert(final(ops)@ =~= old(ops)@ + init_ops(t));
}

/// Writes exactly 20 characters on `row`: the first 20 bytes of `text`,
/// then spaces past its end, so that characters left over from a longer
/// previous line do not stay on screen.
pub fn lcd_print_line(t: LcdTiming, ops: &mut Vec<LcdOp>, row: u8, text: &str)
    ensures
        final(ops)@ == old(ops)@ + print_line_ops(t, row, text.spec_bytes()),
{
    let addr = row_address(row);
    lcd_command(t, ops, SET_DDRAM_ADDRESS | addr);
    let ghost start = ops@;
    let ghost line = line_bytes(text.spec_bytes());
    let bytes = text.as_bytes();
    let n: usize = if bytes.len() < LINE_WIDTH { bytes.len() } else { LINE_WIDTH };
    let mut written: usize = 0;
    while written < n
        invariant
            n <= LINE_WIDTH,
            n <= bytes@.len(),
            bytes@ == text.spec_bytes(),
            line == line_bytes(text.spec_bytes()),
            written <= n,
            ops@ == start + data_ops(t, line.take(written as int)),
        decreases n - written,
    {
        let byte = bytes[written];
        write_byte(t, ops, byte, true);
        proof {
            assert(line.take(written + 1).drop_last() =~= line.take(written as int));
        }
        written += 1;
    }
    while written < LINE_WIDTH
        invariant
            n <= written <= LINE_WIDTH,
            n == bytes@.len() || n == LINE_WIDTH,
            bytes@ == text.spec_bytes(),
            line == line_bytes(text.spec_bytes()),
            ops@ == start + data_ops(t, line.take(written as int)),
        decreases LINE_WIDTH - written,
    {
        write_byte(t, ops, 0x20, true);
        proof {
            assert(line.take(written + 1).drop_last() =~= line.take(written as int));
        }
        written += 1;
    }
    proof {
        assert(line.take(LINE_WIDTH as int) =~= line);
        assert(final(ops)@ =~= old(ops)@ + print_line_ops(t, row, text.spec_bytes()));
    }
}

} // verus!
