//! What the PS/2 receiver promises over whole frames and sequences of frames.
use vstd::prelude::*;
use crate::scancode::{set2_char, BREAK_PREFIX, EXTENDED_PREFIX};
use crate::ps2::{
    encode_frame, encode_frames, frame_data, frame_well_framed, key_seq, ps2_idle, ps2_run, ps2_step,
    typed_keys, bit_value, Ps2Model, FRAME_BITS,
};

verus! {

proof fn lemma_byte_from_bits(c: u8)
    by (bit_vector)
    ensures
        c == (c & 1u8) + 2 * ((c >> 1u8) & 1u8) + 4 * ((c >> 2u8) & 1u8) + 8 * ((c >> 3u8) & 1u8)
            + 16 * ((c >> 4u8) & 1u8) + 32 * ((c >> 5u8) & 1u8) + 64 * ((c >> 6u8) & 1u8) + 128 * ((c
            >> 7u8) & 1u8),
        c >> 0u8 == c,
        forall|k: u8| (#[trigger] (c >> k)) & 1u8 <= 1u8,
{
}

/// A frame built from a byte is well framed and carries that byte.
pub proof fn lemma_encode_frame(code: u8, parity: bool)
    ensures
        encode_frame(code, parity).len() == FRAME_BITS,
        frame_well_framed(encode_frame(code, parity)),
        frame_data(encode_frame(code, parity)) == code,
{
    let f = encode_frame(code, parity);
    lemma_byte_from_bits(code);
    assert forall|k: int| 1 <= k <= 8 implies bit_value(f[k]) == ((code >> ((k - 1) as u8)) & 1u8) by {
        assert((code >> ((k - 1) as u8)) & 1u8 <= 1u8);
    }
}

/// Running over `a + b` is running over `a`, then over `b` from where `a` left off.
pub proof fn lemma_run_append(m: Ps2Model, a: Seq<bool>, b: Seq<bool>)
    ensures
        ps2_run(m, a + b) == ({
            let (m1, k1) = ps2_run(m, a);
            let (m2, k2) = ps2_run(m1, b);
            (m2, k1 + k2)
        }),
    decreases a.len(),
{
    if a.len() == 0 {
        assert(a + b =~= b);
    } else {
        let (m1, key) = ps2_step(m, a[0]);
        assert((a + b).drop_first() =~= a.drop_first() + b);
        lemma_run_append(m1, a.drop_first(), b);
        let (mb, kb) = ps2_run(m1, a.drop_first());
        let (mc, kc) = ps2_run(mb, b);
        assert(key_seq(key) + (kb + kc) =~= (key_seq(key) + kb) + kc);
    }
}

/// Bits that do not complete a frame are only collected.
pub proof fn lemma_run_fill(m: Ps2Model, bits: Seq<bool>)
    requires
        m.frame.len() + bits.len() < FRAME_BITS,
    ensures
        ps2_run(m, bits) == (Ps2Model { frame: m.frame + bits, ..m }, Seq::<char>::empty()),
    decreases bits.len(),
{
    if bits.len() == 0 {
        assert(m.frame + bits =~= m.frame);
    } else {
        let m1 = Ps2Model { frame: m.frame.push(bits[0]), ..m };
        lemma_run_fill(m1, bits.drop_first());
        assert(m1.frame + bits.drop_first() =~= m.frame + bits);
        assert(Seq::<char>::empty() + Seq::<char>::empty() =~= Seq::<char>::empty());
    }
}

/// Receiving one whole frame from the start of a frame: the state after it
/// and the characters it types are those of one step on the full frame.
pub proof fn lemma_run_frame(m: Ps2Model, f: Seq<bool>)
    requires
        m.frame.len() == 0,
        f.len() == FRAME_BITS,
    ensures
        ps2_run(m, f) == ({
            let (m1, key) = ps2_step(Ps2Model { frame: f.take(10), ..m }, f[10]);
            (m1, key_seq(key))
        }),
{
    let first = f.take(10);
    let last = f.skip(10);
    assert(f =~= first + last);
    lemma_run_append(m, first, last);
    lemma_run_fill(m, first);
    assert(m.frame + first =~= first);
    let m1 = Ps2Model { frame: first, ..m };
    let (m2, k) = ps2_step(m1, last[0]);
    assert(last.drop_first() =~= Seq::<bool>::empty());
    assert(ps2_run(m2, last.drop_first()) == (m2, Seq::<char>::empty()));
    assert(key_seq(k) + Seq::<char>::empty() =~= key_seq(k));
    assert(Seq::<char>::empty() + key_seq(k) =~= key_seq(k));
    assert(first.push(f[10]) =~= f);
}

/// The receiver never holds a whole frame: after any clock edge fewer than
/// eleven bits are waiting.
pub proof fn law_frame_stays_partial(m: Ps2Model, data_high: bool)
    requires
        m.frame.len() < FRAME_BITS,
    ensures
        ps2_step(m, data_high).0.frame.len() < FRAME_BITS,
{
}

/// The interrupt only ever appends: a clock edge types a character only
/// when it completes a frame (ten bits were waiting), the frame is well
/// framed, no prefix was pending, and the character is the one its data
/// byte maps to.
pub proof fn law_key_only_at_frame_end(m: Ps2Model, data_high: bool)
    requires
        m.frame.len() < FRAME_BITS,
    ensures
        ps2_step(m, data_high).1 is Some ==> {
            let f = m.frame.push(data_high);
            &&& m.frame.len() == FRAME_BITS - 1
            &&& frame_well_framed(f)
            &&& !m.pending_break
            &&& !m.pending_extended
            &&& ps2_step(m, data_high).1 == set2_char(frame_data(f) as u8)
        },
{
}

/// A key press: with no prefix pending, the frame of a make code types the
/// character that code maps to (nothing for an unmapped code), whatever its
/// parity bit, and leaves the receiver idle.
pub proof fn law_make_code_types_its_key(m: Ps2Model, code: u8, parity: bool)
    requires
        m.frame.len() == 0,
        !m.pending_break,
        !m.pending_extended,
        code != BREAK_PREFIX,
        code != EXTENDED_PREFIX,
    ensures
        ps2_run(m, encode_frame(code, parity)) == (ps2_idle(m.last_clk_high), key_seq(
            set2_char(code),
        )),
{
    let f = encode_frame(code, parity);
    lemma_encode_frame(code, parity);
    lemma_run_frame(m, f);
    assert(f.take(10).push(f[10]) =~= f);
}

/// A key release: a break prefix and the code after it type nothing, and the
/// receiver ends idle.
pub proof fn law_break_code_types_nothing(
    m: Ps2Model,
    code: u8,
    parity1: bool,
    parity2: bool,
)
    requires
        m.frame.len() == 0,
        !m.pending_break,
        !m.pending_extended,
        code != BREAK_PREFIX,
        code != EXTENDED_PREFIX,
    ensures
        ps2_run(m, encode_frame(BREAK_PREFIX, parity1) + encode_frame(code, parity2)) == (
        ps2_idle(m.last_clk_high), Seq::<char>::empty()),
{
    let f1 = encode_frame(BREAK_PREFIX, parity1);
    let f2 = encode_frame(code, parity2);
    lemma_encode_frame(BREAK_PREFIX, parity1);
    lemma_encode_frame(code, parity2);
    lemma_run_append(m, f1, f2);
    lemma_run_frame(m, f1);
    assert(f1.take(10).push(f1[10]) =~= f1);
    let m1 = ps2_run(m, f1).0;
    lemma_run_frame(m1, f2);
    assert(f2.take(10).push(f2[10]) =~= f2);
    assert(Seq::<char>::empty() + Seq::<char>::empty() =~= Seq::<char>::empty());
}

/// An extended key: an extended prefix and the code after it type nothing,
/// and the receiver ends idle.
pub proof fn law_extended_code_types_nothing(
    m: Ps2Model,
    code: u8,
    parity1: bool,
    parity2: bool,
)
    requires
        m.frame.len() == 0,
        !m.pending_break,
        !m.pending_extended,
        code != BREAK_PREFIX,
        code != EXTENDED_PREFIX,
    ensures
        ps2_run(m, encode_frame(EXTENDED_PREFIX, parity1) + encode_frame(code, parity2)) == (
        ps2_idle(m.last_clk_high), Seq::<char>::empty()),
{
    let f1 = encode_frame(EXTENDED_PREFIX, parity1);
    let f2 = encode_frame(code, parity2);
    lemma_encode_frame(EXTENDED_PREFIX, parity1);
    lemma_encode_frame(code, parity2);
    lemma_run_append(m, f1, f2);
    lemma_run_frame(m, f1);
    assert(f1.take(10).push(f1[10]) =~= f1);
    let m1 = ps2_run(m, f1).0;
    lemma_run_frame(m1, f2);
    assert(f2.take(10).push(f2[10]) =~= f2);
    assert(Seq::<char>::empty() + Seq::<char>::empty() =~= Seq::<char>::empty());
}

/// A frame with a high start bit or a low stop bit is dropped: it types
/// nothing and leaves any pending prefix as it was.
pub proof fn law_misframed_frame_is_dropped(m: Ps2Model, f: Seq<bool>)
    requires
        m.frame.len() == 0,
        f.len() == FRAME_BITS,
        f[0] || !f[10],
    ensures
        ps2_run(m, f) == (m, Seq::<char>::empty()),
{
    lemma_run_frame(m, f);
    assert(f.take(10).push(f[10]) =~= f);
    assert(m.frame =~= Seq::<bool>::empty());
}

/// Typing: make codes sent one after another, with any parity bits, type
/// their characters in the order they were sent, and the receiver ends idle.
pub proof fn law_typed_codes_arrive_in_order(
    last_clk_high: bool,
    codes: Seq<u8>,
    parities: Seq<bool>,
)
    requires
        parities.len() == codes.len(),
        forall|i: int|
            0 <= i < codes.len() ==> #[trigger] codes[i] != BREAK_PREFIX && codes[i]
                != EXTENDED_PREFIX,
    ensures
        ps2_run(ps2_idle(last_clk_high), encode_frames(codes, parities)) == (
        ps2_idle(last_clk_high), typed_keys(codes)),
    decreases codes.len(),
{
    let idle = ps2_idle(last_clk_high);
    if codes.len() == 0 {
    } else {
        let f = encode_frame(codes[0], parities[0]);
        let rest = encode_frames(codes.drop_first(), parities.drop_first());
        assert(codes[0] != BREAK_PREFIX && codes[0] != EXTENDED_PREFIX);
        lemma_run_append(idle, f, rest);
        law_make_code_types_its_key(idle, codes[0], parities[0]);
        assert forall|i: int|
            0 <= i < codes.drop_first().len() implies #[trigger] codes.drop_first()[i]
            != BREAK_PREFIX && codes.drop_first()[i] != EXTENDED_PREFIX by {
            assert(codes.drop_first()[i] == codes[i + 1]);
        }
        law_typed_codes_arrive_in_order(last_clk_high, codes.drop_first(), parities.drop_first());
    }
}

/// A prefix frame types nothing and only raises its own flag: a break
/// prefix sets the break flag, an extended prefix the extended flag, and
/// the other flag keeps its value.
pub proof fn law_prefix_frame_raises_its_flag(m: Ps2Model, code: u8, parity: bool)
    requires
        m.frame.len() == 0,
        code == BREAK_PREFIX || code == EXTENDED_PREFIX,
    ensures
        ps2_run(m, encode_frame(code, parity)).1 == Seq::<char>::empty(),
        ps2_run(m, encode_frame(code, parity)).0.frame.len() == 0,
        ps2_run(m, encode_frame(code, parity)).0.last_clk_high == m.last_clk_high,
        code == BREAK_PREFIX ==> ps2_run(m, encode_frame(code, parity)).0.pending_break
            && ps2_run(m, encode_frame(code, parity)).0.pending_extended == m.pending_extended,
        code == EXTENDED_PREFIX ==> ps2_run(m, encode_frame(code, parity)).0.pending_extended
            && ps2_run(m, encode_frame(code, parity)).0.pending_break == m.pending_break,
{
    let f = encode_frame(code, parity);
    lemma_encode_frame(code, parity);
    lemma_run_frame(m, f);
    assert(f.take(10).push(f[10]) =~= f);
    assert(key_seq(None) =~= Seq::<char>::empty());
}

/// Once a prefix flag is up, any further prefix frames and then a code frame
/// type nothing, and the receiver ends idle.
proof fn lemma_flagged_then_code(
    m: Ps2Model,
    prefixes: Seq<u8>,
    parities: Seq<bool>,
    code: u8,
    parity: bool,
)
    requires
        m.frame.len() == 0,
        m.pending_break || m.pending_extended,
        parities.len() == prefixes.len(),
        forall|i: int|
            0 <= i < prefixes.len() ==> #[trigger] prefixes[i] == BREAK_PREFIX || prefixes[i]
                == EXTENDED_PREFIX,
        code != BREAK_PREFIX,
        code != EXTENDED_PREFIX,
    ensures
        ps2_run(m, encode_frames(prefixes, parities) + encode_frame(code, parity)) == (
        ps2_idle(m.last_clk_high), Seq::<char>::empty()),
    decreases prefixes.len(),
{
    let f = encode_frame(code, parity);
    lemma_encode_frame(code, parity);
    if prefixes.len() == 0 {
        assert(encode_frames(prefixes, parities) + f =~= f);
        lemma_run_frame(m, f);
        assert(f.take(10).push(f[10]) =~= f);
        assert(key_seq(None) =~= Seq::<char>::empty());
    } else {
        let first = encode_frame(prefixes[0], parities[0]);
        let rest = encode_frames(prefixes.drop_first(), parities.drop_first());
        assert(encode_frames(prefixes, parities) + f =~= first + (rest + f));
        lemma_run_append(m, first, rest + f);
        assert(prefixes[0] == BREAK_PREFIX || prefixes[0] == EXTENDED_PREFIX);
        law_prefix_frame_raises_its_flag(m, prefixes[0], parities[0]);
        let m1 = ps2_run(m, first).0;
        assert forall|i: int| 0 <= i < prefixes.drop_first().len() implies #[trigger] prefixes.drop_first()[i]
            == BREAK_PREFIX || prefixes.drop_first()[i] == EXTENDED_PREFIX by {
            assert(prefixes.drop_first()[i] == prefixes[i + 1]);
        }
        lemma_flagged_then_code(m1, prefixes.drop_first(), parities.drop_first(), code, parity);
        assert(Seq::<char>::empty() + Seq::<char>::empty() =~= Seq::<char>::empty());
    }
}

/// Key releases and extended keys never type: from any state between
/// frames, one or more prefix frames (break or extended, in any order,
/// for instance the release of an extended key: 0xE0, 0xF0, code) followed
/// by a code frame type nothing, and the receiver ends idle.
pub proof fn law_prefixed_code_types_nothing(
    m: Ps2Model,
    prefixes: Seq<u8>,
    parities: Seq<bool>,
    code: u8,
    parity: bool,
)
    requires
        m.frame.len() == 0,
        prefixes.len() >= 1,
        parities.len() == prefixes.len(),
        forall|i: int|
            0 <= i < prefixes.len() ==> #[trigger] prefixes[i] == BREAK_PREFIX || prefixes[i]
                == EXTENDED_PREFIX,
        code != BREAK_PREFIX,
        code != EXTENDED_PREFIX,
    ensures
        ps2_run(m, encode_frames(prefixes, parities) + encode_frame(code, parity)) == (
        ps2_idle(m.last_clk_high), Seq::<char>::empty()),
{
    let f = encode_frame(code, parity);
    let first = encode_frame(prefixes[0], parities[0]);
    let rest = encode_frames(prefixes.drop_first(), parities.drop_first());
    assert(encode_frames(prefixes, parities) + f =~= first + (rest + f));
    lemma_run_append(m, first, rest + f);
    assert(prefixes[0] == BREAK_PREFIX || prefixes[0] == EXTENDED_PREFIX);
    law_prefix_frame_raises_its_flag(m, prefixes[0], parities[0]);
    let m1 = ps2_run(m, first).0;
    assert forall|i: int| 0 <= i < prefixes.drop_first().len() implies #[trigger] prefixes.drop_first()[i]
        == BREAK_PREFIX || prefixes.drop_first()[i] == EXTENDED_PREFIX by {
        assert(prefixes.drop_first()[i] == prefixes[i + 1]);
    }
    lemma_flagged_then_code(m1, prefixes.drop_first(), parities.drop_first(), code, parity);
    assert(Seq::<char>::empty() + Seq::<char>::empty() =~= Seq::<char>::empty());
}

/// Releasing an extended key (0xE0, 0xF0, code) types nothing and leaves
/// the receiver idle, from any state between frames.
pub proof fn law_extended_release_types_nothing(
    m: Ps2Model,
    code: u8,
    parity1: bool,
    parity2: bool,
    parity3: bool,
)
    requires
        m.frame.len() == 0,
        code != BREAK_PREFIX,
        code != EXTENDED_PREFIX,
    ensures
        ps2_run(
            m,
            encode_frame(EXTENDED_PREFIX, parity1) + encode_frame(BREAK_PREFIX, parity2)
                + encode_frame(code, parity3),
        ) == (ps2_idle(m.last_clk_high), Seq::<char>::empty()),
{
    let prefixes = seq![EXTENDED_PREFIX, BREAK_PREFIX];
    let parities = seq![parity1, parity2];
    assert(prefixes.drop_first().drop_first() =~= Seq::<u8>::empty());
    assert(encode_frames(prefixes.drop_first().drop_first(), parities.drop_first().drop_first())
        =~= Seq::<bool>::empty());
    assert(encode_frames(prefixes.drop_first(), parities.drop_first()) =~= encode_frame(
        BREAK_PREFIX,
        parity2,
    ));
    assert(encode_frames(prefixes, parities) =~= encode_frame(EXTENDED_PREFIX, parity1)
        + encode_frame(BREAK_PREFIX, parity2));
    law_prefixed_code_types_nothing(m, prefixes, parities, code, parity3);
}

/// The data bits of a frame are least significant first: the bit after
/// the start bit is the byte's lowest bit, the one before the parity bit its
/// highest, and the byte ignores the start, parity and stop bits.
pub proof fn law_frame_lsb_first(f: Seq<bool>)
    requires
        f.len() == FRAME_BITS,
    ensures
        0 <= frame_data(f) < 256,
        frame_data(f) % 2 == bit_value(f[1]),
        frame_data(f) >= 128 <==> f[8],
        forall|g: Seq<bool>|
            g.len() == FRAME_BITS && (forall|k: int| 1 <= k <= 8 ==> g[k] == f[k])
                ==> #[trigger] frame_data(g) == frame_data(f),
{
}

} // verus!
