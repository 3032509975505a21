//! When the controller latches each nibble of a program: the waits it gets
//! between nibbles come from the timing the program was built with.
use vstd::prelude::*;
use crate::hd44780::{bus_apply, bus_run, lemma_bus_run_append, law_byte_latched, law_nibble_latched, BusLevels};
use crate::lcd::{
    byte_ops, data_ops, init_ops, line_bytes, nibble_ops, print_line_ops, row_command, LcdOp,
    LcdTiming, CLEAR_DISPLAY, DISPLAY_ON, ENTRY_MODE_INCREMENT, FUNCTION_SET_4BIT_2LINE,
    LINE_WIDTH,
};

verus! {

/// How long an operation of a program takes, in microseconds.
pub open spec fn op_delay_us(op: LcdOp) -> int {
    match op {
        LcdOp::DelayUs(us) => us as int,
        LcdOp::DelayMs(ms) => ms as int * 1000,
        _ => 0,
    }
}

/// A program on the lines, with time: the final levels, the time at which
/// each nibble is latched (microseconds from the start of the program, pin
/// writes taking no time), and how long the whole program takes.
pub open spec fn timed_run(st: BusLevels, ops: Seq<LcdOp>) -> (BusLevels, Seq<int>, int)
    decreases ops.len(),
{
    if ops.len() == 0 {
        (st, Seq::empty(), 0)
    } else {
        let (s1, times, elapsed) = timed_run(st, ops.drop_last());
        let (s2, latched) = bus_apply(s1, ops.last());
        (
            s2,
            if latched.len() > 0 {
                times.push(elapsed)
            } else {
                times
            },
            elapsed + op_delay_us(ops.last()),
        )
    }
}

/// `times`, each later by `d`.
pub open spec fn shifted(times: Seq<int>, d: int) -> Seq<int> {
    Seq::new(times.len(), |i: int| times[i] + d)
}

/// The timed run follows the same levels as the untimed one, and latches
/// as many nibbles.
pub proof fn lemma_timed_matches_bus(st: BusLevels, ops: Seq<LcdOp>)
    ensures
        timed_run(st, ops).0 == bus_run(st, ops).0,
        timed_run(st, ops).1.len() == bus_run(st, ops).1.len(),
    decreases ops.len(),
{
    if ops.len() > 0 {
        lemma_timed_matches_bus(st, ops.drop_last());
    }
}

/// Running over `a + b` with time is running over `a`, then over `b` from
/// where `a` left the lines and the clock.
pub proof fn lemma_timed_append(st: BusLevels, a: Seq<LcdOp>, b: Seq<LcdOp>)
    ensures
        timed_run(st, a + b) == ({
            let (s1, ta, ea) = timed_run(st, a);
            let (s2, tb, eb) = timed_run(s1, b);
            (s2, ta + shifted(tb, ea), ea + eb)
        }),
    decreases b.len(),
{
    let (s1, ta, ea) = timed_run(st, a);
    if b.len() == 0 {
        assert(a + b =~= a);
        assert(ta + shifted(Seq::<int>::empty(), ea) =~= ta);
    } else {
        assert((a + b).drop_last() =~= a + b.drop_last());
        assert((a + b).last() == b.last());
        lemma_timed_append(st, a, b.drop_last());
        let (s2, tb, eb) = timed_run(s1, b.drop_last());
        let (s3, l) = bus_apply(s2, b.last());
        if l.len() > 0 {
            assert((ta + shifted(tb, ea)).push(ea + eb) =~= ta + shifted(tb.push(eb), ea));
        }
    }
}

proof fn lemma_timed_one(st: BusLevels, op: LcdOp)
    ensures
        timed_run(st, seq![op]) == (
            bus_apply(st, op).0,
            if bus_apply(st, op).1.len() > 0 {
                seq![0int]
            } else {
                Seq::<int>::empty()
            },
            op_delay_us(op),
        ),
{
    assert(seq![op].drop_last() =~= Seq::<LcdOp>::empty());
    assert(timed_run(st, Seq::<LcdOp>::empty()) == (st, Seq::<int>::empty(), 0int));
    assert(Seq::<int>::empty().push(0) =~= seq![0int]);
}

/// A delay latches nothing and takes its time.
proof fn lemma_timed_delay(st: BusLevels, op: LcdOp)
    requires
        op is DelayUs || op is DelayMs,
    ensures
        timed_run(st, seq![op]) == (st, Seq::<int>::empty(), op_delay_us(op)),
{
    lemma_timed_one(st, op);
}

/// A nibble with E low: latched one microsecond in, after which the lines
/// settle for `nibble_settle_us`.
pub proof fn lemma_timed_nibble(t: LcdTiming, st: BusLevels, n: u8)
    requires
        !st.enable,
    ensures
        timed_run(st, nibble_ops(t, n)).0 == bus_run(st, nibble_ops(t, n)).0,
        timed_run(st, nibble_ops(t, n)).1 == seq![1int],
        timed_run(st, nibble_ops(t, n)).2 == 1 + t.nibble_settle_us,
{
    lemma_timed_matches_bus(st, nibble_ops(t, n));
    law_nibble_latched(t, st, n);
    let ops = nibble_ops(t, n);
    let o0 = seq![ops[0]];
    let o1 = seq![ops[1]];
    let o2 = seq![ops[2]];
    let o3 = seq![ops[3]];
    let o4 = seq![ops[4]];
    assert(ops =~= (((o0 + o1) + o2) + o3) + o4);
    lemma_timed_append(st, ((o0 + o1) + o2) + o3, o4);
    lemma_timed_append(st, (o0 + o1) + o2, o3);
    lemma_timed_append(st, o0 + o1, o2);
    lemma_timed_append(st, o0, o1);
    lemma_timed_one(st, ops[0]);
    let s0 = bus_apply(st, ops[0]).0;
    lemma_timed_one(s0, ops[1]);
    let s1 = bus_apply(s0, ops[1]).0;
    lemma_timed_one(s1, ops[2]);
    let s2 = bus_apply(s1, ops[2]).0;
    lemma_timed_one(s2, ops[3]);
    let s3 = bus_apply(s2, ops[3]).0;
    lemma_timed_one(s3, ops[4]);
    let e = Seq::<int>::empty();
    assert(e + shifted(e, 0) =~= e);
    assert(e + shifted(e, 0int) + shifted(e, 1int) =~= e);
    assert(e + shifted(seq![0int], 1int) =~= seq![1int]);
    assert(seq![1int] + shifted(e, 1int) =~= seq![1int]);
}

/// A byte with E low: its high nibble is latched one microsecond in, its
/// low nibble `nibble_settle_us + 1` later; the lines then settle for
/// `nibble_settle_us + byte_settle_us`.
pub proof fn lemma_timed_byte(t: LcdTiming, st: BusLevels, v: u8, is_data: bool)
    requires
        !st.enable,
    ensures
        timed_run(st, byte_ops(t, v, is_data)).0 == bus_run(st, byte_ops(t, v, is_data)).0,
        !timed_run(st, byte_ops(t, v, is_data)).0.enable,
        timed_run(st, byte_ops(t, v, is_data)).1 == seq![1int, 2 + t.nibble_settle_us],
        timed_run(st, byte_ops(t, v, is_data)).2 == 2 + 2 * t.nibble_settle_us
            + t.byte_settle_us,
{
    lemma_timed_matches_bus(st, byte_ops(t, v, is_data));
    law_byte_latched(t, st, v, is_data);
    let rs = seq![LcdOp::SetRs(is_data)];
    let hi = nibble_ops(t, v >> 4u8);
    let lo = nibble_ops(t, v & 0x0Fu8);
    let tail = seq![LcdOp::DelayUs(t.byte_settle_us)];
    assert(byte_ops(t, v, is_data) =~= ((rs + hi) + lo) + tail);
    lemma_timed_append(st, (rs + hi) + lo, tail);
    lemma_timed_append(st, rs + hi, lo);
    lemma_timed_append(st, rs, hi);
    lemma_timed_one(st, LcdOp::SetRs(is_data));
    let s1 = BusLevels { rs: is_data, ..st };
    lemma_timed_nibble(t, s1, v >> 4u8);
    law_nibble_latched(t, s1, v >> 4u8);
    let s2 = bus_run(s1, hi).0;
    lemma_timed_nibble(t, s2, v & 0x0Fu8);
    law_nibble_latched(t, s2, v & 0x0Fu8);
    let s3 = bus_run(s2, lo).0;
    lemma_timed_delay(s3, LcdOp::DelayUs(t.byte_settle_us));
    let e = Seq::<int>::empty();
    let sn = t.nibble_settle_us as int;
    assert(e + shifted(seq![1int], 0int) =~= seq![1int]);
    assert(seq![1int] + shifted(seq![1int], 1 + sn) =~= seq![1int, 2 + sn]);
    assert(seq![1int, 2 + sn] + shifted(e, 2 + 2 * sn) =~= seq![1int, 2 + sn]);
}

/// The waits of the data-register writes: with E low, `k` bytes latch `2k`
/// nibbles, the first one microsecond in; each low nibble follows its high
/// nibble by `nibble_settle_us + 1`, each next byte's high nibble follows the
/// low nibble before it by `nibble_settle_us + byte_settle_us + 1`, and after
/// the last nibble the lines settle for `nibble_settle_us + byte_settle_us`.
pub open spec fn data_timing(t: LcdTiming, times: Seq<int>, total: int, k: nat) -> bool {
    &&& times.len() == 2 * k
    &&& k > 0 ==> times[0] == 1
    &&& k > 0 ==> total - times[times.len() - 1] == t.nibble_settle_us + t.byte_settle_us
    &&& k == 0 ==> total == 0
    &&& forall|i: int|
        0 <= i < times.len() - 1 ==> #[trigger] times[i + 1] - times[i] == if i % 2 == 0 {
            t.nibble_settle_us + 1
        } else {
            t.nibble_settle_us + t.byte_settle_us + 1
        }
}

/// Writing bytes to the data register: every character gets the settle
/// times of the timing the program was built with.
pub proof fn law_data_timing(t: LcdTiming, st: BusLevels, bytes: Seq<u8>)
    requires
        !st.enable,
    ensures
        data_timing(t, timed_run(st, data_ops(t, bytes)).1, timed_run(st, data_ops(t, bytes)).2, bytes.len()),
        !timed_run(st, data_ops(t, bytes)).0.enable,
    decreases bytes.len(),
{
    lemma_timed_matches_bus(st, data_ops(t, bytes));
    if bytes.len() == 0 {
        assert(timed_run(st, data_ops(t, bytes)) == (st, Seq::<int>::empty(), 0int));
    } else {
        let init = bytes.drop_last();
        law_data_timing(t, st, init);
        lemma_timed_append(st, data_ops(t, init), byte_ops(t, bytes.last(), true));
        let (s1, ta, ea) = timed_run(st, data_ops(t, init));
        lemma_timed_byte(t, s1, bytes.last(), true);
        let sn = t.nibble_settle_us as int;
        let sb = t.byte_settle_us as int;
        let tb = seq![1int, 2 + sn];
        let all = ta + shifted(tb, ea);
        assert(all =~= ta.push(ea + 1).push(ea + 2 + sn));
        assert forall|i: int| 0 <= i < all.len() - 1 implies #[trigger] all[i + 1] - all[i] == if i % 2 == 0 {
            t.nibble_settle_us + 1
        } else {
            t.nibble_settle_us + t.byte_settle_us + 1
        } by {
            if i < ta.len() - 1 {
                assert(all[i] == ta[i] && all[i + 1] == ta[i + 1]);
            }
        }
    }
}

/// Writing a line: the row command and the 20 characters each get the
/// settle times of the timing the program was built with; the first nibble
/// is latched one microsecond in.
pub proof fn law_print_line_timing(t: LcdTiming, st: BusLevels, row: u8, text: Seq<u8>)
    requires
        !st.enable,
    ensures
        data_timing(
            t,
            timed_run(st, print_line_ops(t, row, text)).1,
            timed_run(st, print_line_ops(t, row, text)).2,
            (1 + LINE_WIDTH) as nat,
        ),
{
    let cmd = byte_ops(t, row_command(row), false);
    let data = data_ops(t, line_bytes(text));
    lemma_timed_append(st, cmd, data);
    lemma_timed_byte(t, st, row_command(row), false);
    let (s1, tc, ec) = timed_run(st, cmd);
    law_data_timing(t, s1, line_bytes(text));
    let (s2, td, ed) = timed_run(s1, data);
    let all = tc + shifted(td, ec);
    let sn = t.nibble_settle_us as int;
    assert(all.len() == 2 + 2 * LINE_WIDTH);
    assert forall|i: int| 0 <= i < all.len() - 1 implies #[trigger] all[i + 1] - all[i] == if i % 2 == 0 {
        t.nibble_settle_us + 1
    } else {
        t.nibble_settle_us + t.byte_settle_us + 1
    } by {
        if i >= 2 {
            assert(all[i] == td[i - 2] + ec && all[i + 1] == td[i - 1] + ec);
            assert(td[(i - 2) + 1] - td[i - 2] == if (i - 2) % 2 == 0 {
                t.nibble_settle_us + 1
            } else {
                t.nibble_settle_us + t.byte_settle_us + 1
            });
        } else if i == 1 {
            assert(all[2] == td[0] + ec);
        }
    }
    assert(all[all.len() - 1] == td[td.len() - 1] + ec);
}

/// Initialisation gives the controller the waits of the timing it was
/// built with: `reset_ms` before the first reset nibble; `reset_settle_ms`
/// after the first, `reset_settle_us` after the second and third; then
/// 1 microsecond plus the settle times between nibbles, `nibble_settle_us`
/// within a byte and `nibble_settle_us + byte_settle_us` after it, with
/// `clear_ms` more after clear display, before entry mode is sent.
pub proof fn law_init_timing(t: LcdTiming, st: BusLevels)
    requires
        !st.enable,
    ensures
        ({
            let (s, times, total) = timed_run(st, init_ops(t));
            let sn = t.nibble_settle_us as int;
            let sb = t.byte_settle_us as int;
            &&& times.len() == 12
            &&& times[0] == t.reset_ms * 1000 + 1
            // The reset nibbles 3, 3, 3 and the switch to 4-bit mode.
            &&& times[1] - times[0] == sn + t.reset_settle_ms * 1000 + 1
            &&& times[2] - times[1] == sn + t.reset_settle_us + 1
            &&& times[3] - times[2] == sn + t.reset_settle_us + 1
            &&& times[4] - times[3] == sn + 1
            // Function set, display on, clear display, entry mode: high then low nibble.
            &&& times[5] - times[4] == sn + 1
            &&& times[6] - times[5] == sn + sb + 1
            &&& times[7] - times[6] == sn + 1
            &&& times[8] - times[7] == sn + sb + 1
            &&& times[9] - times[8] == sn + 1
            &&& times[10] - times[9] == sn + sb + t.clear_ms * 1000 + 1
            &&& times[11] - times[10] == sn + 1
            &&& total - times[11] == sn + sb
        }),
{
    let sn = t.nibble_settle_us as int;
    let sb = t.byte_settle_us as int;
    let n3 = nibble_ops(t, 0x03);
    let n2 = nibble_ops(t, 0x02);
    let d0 = seq![LcdOp::DelayMs(t.reset_ms)];
    let d1 = seq![LcdOp::DelayMs(t.reset_settle_ms)];
    let d2 = seq![LcdOp::DelayUs(t.reset_settle_us)];
    let d3 = seq![LcdOp::DelayMs(t.clear_ms)];
    let b1 = byte_ops(t, FUNCTION_SET_4BIT_2LINE, false);
    let b2 = byte_ops(t, DISPLAY_ON, false);
    let b3 = byte_ops(t, CLEAR_DISPLAY, false);
    let b4 = byte_ops(t, ENTRY_MODE_INCREMENT, false);
    assert(init_ops(t) =~= d0 + n3 + d1 + n3 + d2 + n3 + d2 + n2 + b1 + b2 + b3 + d3 + b4);
    let r = t.reset_ms * 1000;
    let m = t.reset_settle_ms * 1000;
    let u = t.reset_settle_us as int;
    let c = t.clear_ms * 1000;
    let e = Seq::<int>::empty();
    let p = 2 + 2 * sn + sb;

    lemma_timed_delay(st, LcdOp::DelayMs(t.reset_ms));
    let a1 = d0;
    assert(timed_run(st, a1) == (st, e, r));

    lemma_timed_append(st, a1, n3);
    lemma_timed_nibble(t, st, 0x03);
    law_nibble_latched(t, st, 0x03);
    let s2 = bus_run(st, n3).0;
    let a2 = a1 + n3;
    let e2 = r + 1 + sn;
    assert(e + shifted(seq![1int], r) =~= seq![r + 1]);
    assert(timed_run(st, a2) == (s2, seq![r + 1], e2));

    lemma_timed_append(st, a2, d1);
    lemma_timed_delay(s2, LcdOp::DelayMs(t.reset_settle_ms));
    let a3 = a2 + d1;
    let e3 = e2 + m;
    assert(seq![r + 1] + shifted(e, e2) =~= seq![r + 1]);
    assert(timed_run(st, a3) == (s2, seq![r + 1], e3));

    lemma_timed_append(st, a3, n3);
    lemma_timed_nibble(t, s2, 0x03);
    law_nibble_latched(t, s2, 0x03);
    let s4 = bus_run(s2, n3).0;
    let a4 = a3 + n3;
    let e4 = e3 + 1 + sn;
    let t4 = seq![r + 1, e3 + 1];
    assert(seq![r + 1] + shifted(seq![1int], e3) =~= t4);
    assert(timed_run(st, a4) == (s4, t4, e4));

    lemma_timed_append(st, a4, d2);
    lemma_timed_delay(s4, LcdOp::DelayUs(t.reset_settle_us));
    let a5 = a4 + d2;
    let e5 = e4 + u;
    assert(t4 + shifted(e, e4) =~= t4);
    assert(timed_run(st, a5) == (s4, t4, e5));

    lemma_timed_append(st, a5, n3);
    lemma_timed_nibble(t, s4, 0x03);
    law_nibble_latched(t, s4, 0x03);
    let s6 = bus_run(s4, n3).0;
    let a6 = a5 + n3;
    let e6 = e5 + 1 + sn;
    let t6 = seq![r + 1, e3 + 1, e5 + 1];
    assert(t4 + shifted(seq![1int], e5) =~= t6);
    assert(timed_run(st, a6) == (s6, t6, e6));

    lemma_timed_append(st, a6, d2);
    lemma_timed_delay(s6, LcdOp::DelayUs(t.reset_settle_us));
    let a7 = a6 + d2;
    let e7 = e6 + u;
    assert(t6 + shifted(e, e6) =~= t6);
    assert(timed_run(st, a7) == (s6, t6, e7));

    lemma_timed_append(st, a7, n2);
    lemma_timed_nibble(t, s6, 0x02);
    law_nibble_latched(t, s6, 0x02);
    let s8 = bus_run(s6, n2).0;
    let a8 = a7 + n2;
    let e8 = e7 + 1 + sn;
    let t8 = seq![r + 1, e3 + 1, e5 + 1, e7 + 1];
    assert(t6 + shifted(seq![1int], e7) =~= t8);
    assert(timed_run(st, a8) == (s8, t8, e8));

    lemma_timed_append(st, a8, b1);
    lemma_timed_byte(t, s8, FUNCTION_SET_4BIT_2LINE, false);
    let s9 = timed_run(s8, b1).0;
    let a9 = a8 + b1;
    let e9 = e8 + p;
    let t9 = seq![r + 1, e3 + 1, e5 + 1, e7 + 1, e8 + 1, e8 + 2 + sn];
    assert(t8 + shifted(seq![1int, 2 + sn], e8) =~= t9);
    assert(timed_run(st, a9) == (s9, t9, e9));

    lemma_timed_append(st, a9, b2);
    lemma_timed_byte(t, s9, DISPLAY_ON, false);
    let s10 = timed_run(s9, b2).0;
    let a10 = a9 + b2;
    let e10 = e9 + p;
    let t10 = t9 + seq![e9 + 1, e9 + 2 + sn];
    assert(t9 + shifted(seq![1int, 2 + sn], e9) =~= t10);
    assert(timed_run(st, a10) == (s10, t10, e10));

    lemma_timed_append(st, a10, b3);
    lemma_timed_byte(t, s10, CLEAR_DISPLAY, false);
    let s11 = timed_run(s10, b3).0;
    let a11 = a10 + b3;
    let e11 = e10 + p;
    let t11 = t10 + seq![e10 + 1, e10 + 2 + sn];
    assert(t10 + shifted(seq![1int, 2 + sn], e10) =~= t11);
    assert(timed_run(st, a11) == (s11, t11, e11));

    lemma_timed_append(st, a11, d3);
    lemma_timed_delay(s11, LcdOp::DelayMs(t.clear_ms));
    let a12 = a11 + d3;
    let e12 = e11 + c;
    assert(t11 + shifted(e, e11) =~= t11);
    assert(timed_run(st, a12) == (s11, t11, e12));

    lemma_timed_append(st, a12, b4);
    lemma_timed_byte(t, s11, ENTRY_MODE_INCREMENT, false);
    let a13 = a12 + b4;
    let t13 = t11 + seq![e12 + 1, e12 + 2 + sn];
    assert(t11 + shifted(seq![1int, 2 + sn], e12) =~= t13);
    assert(a13 =~= init_ops(t));
    let (sf, times, total) = timed_run(st, init_ops(t));
    assert(times =~= t13);
    assert(total == e12 + p);
}

/// With the hardware timing the controller gets at least the waits its
/// datasheet asks for: 40 ms after power-on before the first reset nibble,
/// 4.1 ms after the first and 100 us after the second, 37 us after each
/// instruction and 1.52 ms after clear display.
pub proof fn law_init_meets_datasheet(st: BusLevels)
    requires
        !st.enable,
    ensures
        ({
            let times = timed_run(st, init_ops(LcdTiming::hardware_spec())).1;
            &&& times[0] >= 40_000
            &&& times[1] - times[0] >= 4_100
            &&& times[2] - times[1] >= 100
            &&& forall|i: int| 2 <= i < 11 ==> #[trigger] times[i + 1] - times[i] >= 37
            &&& times[10] - times[9] >= 1_520
        }),
{
    law_init_timing(LcdTiming::hardware_spec(), st);
}

/// With the hardware timing each character of a line gets more than the
/// 37 us (plus 4 us address update) the controller needs to store it.
pub proof fn law_print_line_meets_datasheet(st: BusLevels, row: u8, text: Seq<u8>)
    requires
        !st.enable,
    ensures
        ({
            let (s, times, total) = timed_run(st, print_line_ops(LcdTiming::hardware_spec(), row, text));
            &&& forall|i: int| 0 <= i < times.len() - 1 ==> #[trigger] times[i + 1] - times[i] >= 41
            &&& total - times[times.len() - 1] >= 41
        }),
{
    law_print_line_timing(LcdTiming::hardware_spec(), st, row, text);
    let times = timed_run(st, print_line_ops(LcdTiming::hardware_spec(), row, text)).1;
    assert forall|i: int| 0 <= i < times.len() - 1 implies #[trigger] times[i + 1] - times[i] >= 41 by {
    }
}

} // verus!
