use pico_kernel::lcd::{
    lcd_command, lcd_init, lcd_print_line, pulse_enable, row_address, write_byte, write_nibble,
    LcdOp, LcdTiming, LINE_WIDTH,
};
use pico_kernel::panels::{hw_print_str, select_panel, Panel};

/// What an HD44780 latches: (RS, nibble) each time E falls.
fn latched(ops: &[LcdOp]) -> Vec<(bool, u8)> {
    let (mut rs, mut nibble, mut enable) = (false, 0u8, false);
    let mut out = Vec::new();
    for op in ops {
        match *op {
            LcdOp::SetRs(v) => rs = v,
            LcdOp::SetData { d4, d5, d6, d7 } => {
                nibble = d4 as u8 | (d5 as u8) << 1 | (d6 as u8) << 2 | (d7 as u8) << 3
            }
            LcdOp::SetEnable(e) => {
                if enable && !e {
                    out.push((rs, nibble));
                }
                enable = e;
            }
            LcdOp::DelayUs(_) | LcdOp::DelayMs(_) => {}
        }
    }
    assert!(!enable);
    out
}

/// Pairs nibbles into bytes, high nibble first.
fn assemble(nibbles: &[(bool, u8)]) -> Vec<(bool, u8)> {
    nibbles.chunks(2).map(|p| (p[0].0, p[0].1 << 4 | p[1].1)).collect()
}

fn total_delay_us(ops: &[LcdOp]) -> u64 {
    ops.iter()
        .map(|op| match *op {
            LcdOp::DelayUs(us) => us as u64,
            LcdOp::DelayMs(ms) => ms as u64 * 1000,
            _ => 0,
        })
        .sum()
}

#[test]
fn row_address_matches_20x4_layout() {
    assert_eq!(row_address(0), 0x00);
    assert_eq!(row_address(1), 0x40);
    assert_eq!(row_address(2), 0x14);
    assert_eq!(row_address(3), 0x54);
    assert_eq!(row_address(4), 0x54);
    assert_eq!(row_address(255), 0x54);
    assert_eq!(row_address(2), row_address(0) + LINE_WIDTH as u8);
    assert_eq!(row_address(3), row_address(1) + LINE_WIDTH as u8);
}

#[test]
fn timings() {
    let hw = LcdTiming::hardware();
    assert_eq!(
        (hw.nibble_settle_us, hw.byte_settle_us, hw.reset_ms, hw.reset_settle_ms, hw.reset_settle_us, hw.clear_ms),
        (50, 50, 50, 5, 150, 2)
    );
    let sim = LcdTiming::simulation();
    assert_eq!(
        (sim.nibble_settle_us, sim.byte_settle_us, sim.reset_ms, sim.reset_settle_ms, sim.reset_settle_us, sim.clear_ms),
        (1, 1, 1, 1, 5, 1)
    );
}

#[test]
fn pulse_enable_program() {
    let mut ops = Vec::new();
    pulse_enable(LcdTiming::hardware(), &mut ops);
    assert_eq!(
        ops,
        vec![LcdOp::SetEnable(true), LcdOp::DelayUs(1), LcdOp::SetEnable(false), LcdOp::DelayUs(50)]
    );
}

#[test]
fn write_nibble_drives_low_four_bits() {
    let mut ops = Vec::new();
    write_nibble(LcdTiming::simulation(), &mut ops, 0xFA);
    assert_eq!(
        ops,
        vec![
            LcdOp::SetData { d4: false, d5: true, d6: false, d7: true },
            LcdOp::SetEnable(true),
            LcdOp::DelayUs(1),
            LcdOp::SetEnable(false),
            LcdOp::DelayUs(1),
        ]
    );
}

#[test]
fn write_byte_sends_high_nibble_first() {
    let mut ops = vec![LcdOp::DelayMs(7)];
    write_byte(LcdTiming::hardware(), &mut ops, 0x41, true);
    assert_eq!(ops.len(), 1 + 1 + 5 + 5 + 1);
    assert_eq!(ops[0], LcdOp::DelayMs(7));
    assert_eq!(ops[1], LcdOp::SetRs(true));
    assert_eq!(ops[2], LcdOp::SetData { d4: false, d5: false, d6: true, d7: false });
    assert_eq!(ops[7], LcdOp::SetData { d4: true, d5: false, d6: false, d7: false });
    assert_eq!(ops[12], LcdOp::DelayUs(50));
    assert_eq!(latched(&ops), vec![(true, 0x4), (true, 0x1)]);
}

#[test]
fn lcd_command_uses_instruction_register() {
    let mut ops = Vec::new();
    lcd_command(LcdTiming::hardware(), &mut ops, 0x01);
    assert_eq!(ops[0], LcdOp::SetRs(false));
    assert_eq!(assemble(&latched(&ops)), vec![(false, 0x01)]);
}

#[test]
fn lcd_init_reset_sequence_then_setup() {
    let mut ops = Vec::new();
    lcd_init(LcdTiming::hardware(), &mut ops);
    let ns = latched(&ops);
    assert_eq!(&ns[..4], &[(false, 3), (false, 3), (false, 3), (false, 2)]);
    assert_eq!(
        assemble(&ns[4..]),
        vec![(false, 0x28), (false, 0x0C), (false, 0x01), (false, 0x06)]
    );
    assert_eq!(ops[0], LcdOp::DelayMs(50));
    assert_eq!(ops[6], LcdOp::DelayMs(5));
    assert_eq!(ops[12], LcdOp::DelayUs(150));
    // 4 nibbles, 4 bytes, 5 delays between the parts.
    assert_eq!(ops.len(), 4 * 5 + 4 * 12 + 5);
    // Datasheet delays: 50 + 5 + 2 ms, 2 * 150 us, 12 nibble and 4 byte settles of 50 us, 12 pulses.
    assert_eq!(total_delay_us(&ops), 57_000 + 300 + 12 * 50 + 4 * 50 + 12);
}

#[test]
fn print_line_pads_short_text_with_spaces() {
    let mut ops = Vec::new();
    lcd_print_line(LcdTiming::hardware(), &mut ops, 1, "hi");
    let bytes = assemble(&latched(&ops));
    assert_eq!(bytes.len(), 1 + 20);
    assert_eq!(bytes[0], (false, 0xC0));
    assert_eq!(bytes[1], (true, b'h'));
    assert_eq!(bytes[2], (true, b'i'));
    for b in &bytes[3..] {
        assert_eq!(*b, (true, b' '));
    }
}

#[test]
fn print_line_truncates_long_text_to_20_bytes() {
    let mut ops = Vec::new();
    lcd_print_line(LcdTiming::simulation(), &mut ops, 3, "abcdefghijklmnopqrstuvwxyz");
    let bytes = assemble(&latched(&ops));
    assert_eq!(bytes[0], (false, 0xD4));
    let text: Vec<u8> = bytes[1..].iter().map(|&(rs, b)| { assert!(rs); b }).collect();
    assert_eq!(text, b"abcdefghijklmnopqrst".to_vec());
}

#[test]
fn print_line_writes_utf8_bytes() {
    let mut ops = Vec::new();
    lcd_print_line(LcdTiming::hardware(), &mut ops, 0, "\u{e9}");
    let bytes = assemble(&latched(&ops));
    assert_eq!(bytes[0], (false, 0x80));
    assert_eq!(bytes[1], (true, 0xC3));
    assert_eq!(bytes[2], (true, 0xA9));
    assert_eq!(bytes[3], (true, b' '));
    assert_eq!(bytes.len(), 21);
}

#[test]
fn print_line_of_empty_text_clears_the_row() {
    let mut ops = Vec::new();
    lcd_print_line(LcdTiming::hardware(), &mut ops, 2, "");
    let bytes = assemble(&latched(&ops));
    assert_eq!(bytes[0], (false, 0x94));
    assert_eq!(&bytes[1..], &[(true, b' '); 20][..]);
}

#[test]
fn select_panel_by_display_number() {
    assert_eq!(select_panel(1), Panel::Lcd1);
    assert_eq!(select_panel(2), Panel::Lcd2);
    assert_eq!(select_panel(3), Panel::Lcd3);
    assert_eq!(select_panel(0), Panel::Lcd3);
    assert_eq!(select_panel(-1), Panel::Lcd3);
    assert_eq!(select_panel(i64::MAX), Panel::Lcd3);
}

#[test]
fn hw_print_str_writes_row_zero_of_chosen_panel() {
    let job = hw_print_str(LcdTiming::hardware(), 2, "ready");
    assert_eq!(job.panel, Panel::Lcd2);
    let mut expected = Vec::new();
    lcd_print_line(LcdTiming::hardware(), &mut expected, 0, "ready");
    assert_eq!(job.ops, expected);
    let bytes = assemble(&latched(&job.ops));
    assert_eq!(bytes[0], (false, 0x80));
    assert_eq!(bytes[5], (true, b'y'));
}

/// A controller's display memory after the bytes of a program (entry mode
/// increment, 2-line addressing).
fn ddram_after(programs: &[Vec<LcdOp>]) -> Vec<u8> {
    let mut ddram = vec![b'.'; 0x80];
    let mut ac: usize = 0;
    for ops in programs {
        for (rs, b) in assemble(&latched(ops)) {
            if rs {
                ddram[ac] = b;
                ac = match ac { 0x27 => 0x40, 0x67 => 0x00, a => a + 1 };
            } else if b & 0x80 != 0 {
                ac = (b & 0x7F) as usize;
            }
        }
    }
    ddram
}

#[test]
fn shorter_line_overwrites_longer_one() {
    let t = LcdTiming::hardware();
    let mut long = Vec::new();
    lcd_print_line(t, &mut long, 2, "a long line of text!!");
    let mut short = Vec::new();
    lcd_print_line(t, &mut short, 2, "hi");
    let both = ddram_after(&[long, short.clone()]);
    let alone = ddram_after(&[short]);
    assert_eq!(both, alone);
    assert_eq!(&both[0x14..0x28], b"hi                  ");
    assert_eq!(both[0x13], b'.');
    assert_eq!(both[0x40], b'.');
}

/// A controller's interface: (8-bit mode, held high nibble, function-set DL
/// results seen), fed the latched nibbles of a program.
fn interface_after(mut eight_bit: bool, mut pending: Option<u8>, ns: &[(bool, u8)]) -> (bool, Option<u8>, Vec<u8>) {
    let mut instrs = Vec::new();
    for &(rs, n) in ns {
        let byte = if eight_bit {
            Some(n << 4)
        } else if let Some(hi) = pending.take() {
            Some(hi << 4 | n)
        } else {
            pending = Some(n);
            None
        };
        if let Some(b) = byte {
            if !rs && b & 0xE0 == 0x20 {
                eight_bit = b & 0x10 != 0;
            }
            if !rs {
                instrs.push(b);
            }
        }
    }
    (eight_bit, pending, instrs)
}

#[test]
fn init_reaches_4bit_mode_from_any_power_on_state() {
    let mut ops = Vec::new();
    lcd_init(LcdTiming::hardware(), &mut ops);
    let ns = latched(&ops);
    for (eight_bit, pending) in [(true, None), (false, None), (false, Some(0x0)), (false, Some(0x3)), (false, Some(0xF))] {
        let (e, p, instrs) = interface_after(eight_bit, pending, &ns);
        assert!(!e);
        assert_eq!(p, None);
        assert_eq!(&instrs[instrs.len() - 4..], &[0x28, 0x0C, 0x01, 0x06]);
    }
}
