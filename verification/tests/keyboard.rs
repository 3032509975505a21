use pico_kernel::keys::{
    kb_read_key, keyboard_sim_start, receive_clock_edge, KeyQueue, SIM_BOOT_DELAY_US,
    SIM_KEYSTROKES,
};
use pico_kernel::ps2::Ps2State;
use pico_kernel::scancode::{decode_set2, BREAK_PREFIX, EXTENDED_PREFIX};

/// The 11 DATA levels a keyboard sends for `code`.
fn frame(code: u8, parity: bool) -> Vec<bool> {
    let mut bits = vec![false];
    for k in 0..8 {
        bits.push((code >> k) & 1 == 1);
    }
    bits.push(parity);
    bits.push(true);
    bits
}

fn odd_parity(code: u8) -> bool {
    code.count_ones() % 2 == 0
}

fn feed(state: &mut Ps2State, queue: &mut KeyQueue, bits: &[bool]) {
    for &b in bits {
        receive_clock_edge(state, b, queue);
    }
}

fn drain(queue: &mut KeyQueue) -> String {
    let mut out = String::new();
    loop {
        let k = kb_read_key(queue);
        if k.is_empty() {
            return out;
        }
        out.push_str(&k);
    }
}

#[test]
fn decode_set2_maps_letters_digits_and_controls() {
    assert_eq!(decode_set2(0x1C), Some('a'));
    assert_eq!(decode_set2(0x1A), Some('z'));
    assert_eq!(decode_set2(0x45), Some('0'));
    assert_eq!(decode_set2(0x46), Some('9'));
    assert_eq!(decode_set2(0x29), Some(' '));
    assert_eq!(decode_set2(0x5A), Some('\n'));
    assert_eq!(decode_set2(0x66), Some('\u{8}'));
    assert_eq!(decode_set2(0x0D), Some('\t'));
    assert_eq!(decode_set2(0x76), Some('\u{1b}'));
}

#[test]
fn decode_set2_unmapped_and_prefixes_are_none() {
    assert_eq!(decode_set2(0x00), None);
    assert_eq!(decode_set2(0x12), None);
    assert_eq!(decode_set2(0xFF), None);
    assert_eq!(decode_set2(BREAK_PREFIX), None);
    assert_eq!(decode_set2(EXTENDED_PREFIX), None);
}

#[test]
fn decode_set2_is_injective_on_mapped_codes() {
    let mut seen = std::collections::HashMap::new();
    for code in 0..=255u8 {
        if let Some(c) = decode_set2(code) {
            assert!(seen.insert(c, code).is_none(), "{:?} mapped twice", c);
        }
    }
    assert_eq!(seen.len(), 41);
}

#[test]
fn one_frame_types_its_key() {
    let mut s = Ps2State::new();
    let bits = frame(0x1C, odd_parity(0x1C));
    for (i, &b) in bits.iter().enumerate() {
        let k = s.clock_falling_edge(b);
        if i < 10 {
            assert_eq!(k, None);
        } else {
            assert_eq!(k, Some('a'));
        }
    }
}

#[test]
fn parity_bit_is_not_checked() {
    let mut s = Ps2State::new();
    let mut q = KeyQueue::new();
    feed(&mut s, &mut q, &frame(0x33, true));
    feed(&mut s, &mut q, &frame(0x33, false));
    assert_eq!(drain(&mut q), "hh");
}

#[test]
fn key_release_types_nothing() {
    let mut s = Ps2State::new();
    let mut q = KeyQueue::new();
    feed(&mut s, &mut q, &frame(BREAK_PREFIX, true));
    feed(&mut s, &mut q, &frame(0x1C, false));
    assert_eq!(q.len(), 0);
    // The prefix is consumed with the code after it.
    feed(&mut s, &mut q, &frame(0x32, false));
    assert_eq!(drain(&mut q), "b");
}

#[test]
fn extended_key_types_nothing() {
    let mut s = Ps2State::new();
    let mut q = KeyQueue::new();
    feed(&mut s, &mut q, &frame(EXTENDED_PREFIX, false));
    feed(&mut s, &mut q, &frame(0x75, false));
    assert_eq!(q.len(), 0);
    feed(&mut s, &mut q, &frame(EXTENDED_PREFIX, false));
    feed(&mut s, &mut q, &frame(BREAK_PREFIX, false));
    feed(&mut s, &mut q, &frame(0x75, false));
    feed(&mut s, &mut q, &frame(0x21, false));
    assert_eq!(drain(&mut q), "c");
}

#[test]
fn misframed_frames_are_dropped() {
    let mut s = Ps2State::new();
    let mut q = KeyQueue::new();
    let mut bad_start = frame(0x1C, false);
    bad_start[0] = true;
    feed(&mut s, &mut q, &bad_start);
    let mut bad_stop = frame(0x1C, false);
    bad_stop[10] = false;
    feed(&mut s, &mut q, &bad_stop);
    assert_eq!(q.len(), 0);
    feed(&mut s, &mut q, &frame(0x1C, false));
    assert_eq!(drain(&mut q), "a");
}

#[test]
fn misframed_frame_keeps_pending_prefix() {
    let mut s = Ps2State::new();
    let mut q = KeyQueue::new();
    feed(&mut s, &mut q, &frame(BREAK_PREFIX, false));
    let mut bad = frame(0x1C, false);
    bad[10] = false;
    feed(&mut s, &mut q, &bad);
    feed(&mut s, &mut q, &frame(0x1C, false));
    assert_eq!(q.len(), 0);
}

#[test]
fn typed_keys_arrive_in_order() {
    let mut s = Ps2State::new();
    let mut q = KeyQueue::new();
    // "hi 42\n", with each key released after it is pressed.
    for code in [0x33u8, 0x43, 0x29, 0x25, 0x1E, 0x5A] {
        feed(&mut s, &mut q, &frame(code, odd_parity(code)));
        feed(&mut s, &mut q, &frame(BREAK_PREFIX, true));
        feed(&mut s, &mut q, &frame(code, odd_parity(code)));
    }
    assert_eq!(drain(&mut q), "hi 42\n");
}

#[test]
fn unmapped_code_types_nothing() {
    let mut s = Ps2State::new();
    let mut q = KeyQueue::new();
    feed(&mut s, &mut q, &frame(0x12, false));
    assert_eq!(q.len(), 0);
}

#[test]
fn kb_read_key_on_empty_queue_is_empty_string() {
    let mut q = KeyQueue::new();
    assert_eq!(kb_read_key(&mut q), "");
    assert_eq!(q.len(), 0);
}

#[test]
fn kb_read_key_pops_oldest_first() {
    let mut q = KeyQueue::new();
    q.push_key('x');
    q.push_key('y');
    assert_eq!(kb_read_key(&mut q), "x");
    assert_eq!(q.len(), 1);
    assert_eq!(kb_read_key(&mut q), "y");
    assert_eq!(kb_read_key(&mut q), "");
}

#[test]
fn push_str_queues_every_char() {
    let mut q = KeyQueue::new();
    q.push_str("ab\u{e9}");
    assert_eq!(q.len(), 3);
    assert_eq!(drain(&mut q), "ab\u{e9}");
}

#[test]
fn keyboard_sim_types_once_when_due() {
    let mut sim = keyboard_sim_start(1000);
    let mut q = KeyQueue::new();
    sim.keyboard_sim_poll_once(1000 + SIM_BOOT_DELAY_US - 1, &mut q);
    assert_eq!(q.len(), 0);
    sim.keyboard_sim_poll_once(1000 + SIM_BOOT_DELAY_US, &mut q);
    assert_eq!(q.len(), 12);
    sim.keyboard_sim_poll_once(u32::MAX, &mut q);
    assert_eq!(q.len(), 12);
    assert_eq!(drain(&mut q), SIM_KEYSTROKES);
    assert_eq!(SIM_KEYSTROKES, "hello world\n");
}

#[test]
fn keyboard_sim_target_wraps() {
    let mut sim = keyboard_sim_start(u32::MAX - 9);
    let mut q = KeyQueue::new();
    // Target wraps to SIM_BOOT_DELAY_US - 10; a reading past it is due.
    sim.keyboard_sim_poll_once(SIM_BOOT_DELAY_US - 11, &mut q);
    assert_eq!(q.len(), 0);
    sim.keyboard_sim_poll_once(SIM_BOOT_DELAY_US - 10, &mut q);
    assert_eq!(drain(&mut q), "hello world\n");
}

#[test]
fn pending_bits_counts_up_to_ten_then_resets() {
    let mut s = Ps2State::new();
    assert_eq!(s.pending_bits(), 0);
    for (i, &b) in frame(0x1C, false).iter().enumerate() {
        s.clock_falling_edge(b);
        assert_eq!(s.pending_bits() as usize, (i + 1) % 11);
    }
}

#[test]
fn k_queued_keys_come_out_in_order_then_empty() {
    let mut q = KeyQueue::new();
    for c in ['q', '1', ' ', '\n'] {
        q.push_key(c);
    }
    assert_eq!(kb_read_key(&mut q), "q");
    assert_eq!(kb_read_key(&mut q), "1");
    assert_eq!(kb_read_key(&mut q), " ");
    assert_eq!(kb_read_key(&mut q), "\n");
    assert_eq!(kb_read_key(&mut q), "");
}

#[test]
fn keyboard_sim_fires_at_most_once_over_many_polls() {
    let mut sim = keyboard_sim_start(0);
    let mut q = KeyQueue::new();
    for now in [0u32, 999_999, 1_000_000, 1_000_001, 5, u32::MAX, 2_000_000] {
        sim.keyboard_sim_poll_once(now, &mut q);
        let _ = kb_read_key(&mut q);
    }
    assert_eq!(drain(&mut q), " world\n");
}

#[test]
fn keyboard_sim_waits_a_second_even_near_counter_top() {
    let start = u32::MAX - 9;
    let mut sim = keyboard_sim_start(start);
    let mut q = KeyQueue::new();
    sim.keyboard_sim_poll_once(start + 4, &mut q);
    assert_eq!(q.len(), 0);
    sim.keyboard_sim_poll_once(SIM_BOOT_DELAY_US - 11, &mut q);
    assert_eq!(q.len(), 0);
    sim.keyboard_sim_poll_once(SIM_BOOT_DELAY_US - 10, &mut q);
    assert_eq!(drain(&mut q), "hello world\n");
}
