//! The queue of typed characters between the keyboard receiver, which fills
//! it from its interrupt, and the application, which drains it one key per
//! call; and the simulated keyboard that stands in for a real one where the
//! simulator cannot drive PS/2.
use vstd::prelude::*;
use std::collections::VecDeque;
use crate::ps2::{key_seq, ps2_step, Ps2State, FRAME_BITS};

verus! {

/// Characters typed and not read yet, oldest first.
pub struct KeyQueue {
    keys: VecDeque<char>,
}

impl View for KeyQueue {
    type V = Seq<char>;

    closed spec fn view(&self) -> Seq<char> {
        self.keys@
    }
}

/// `String::from(char)`: a string that holds exactly the one character.
#[verifier::external_body]
fn char_to_string(c: char) -> (s: String)
    ensures
        s@ == seq![c],
{
    String::from(c)
}

impl KeyQueue {
    /// An empty queue.
    pub fn new() -> (q: Self)
        ensures
            q@ == Seq::<char>::empty(),
    {
        KeyQueue { keys: VecDeque::new() }
    }

    /// Appends a typed character behind those already waiting.
    pub fn push_key(&mut self, c: char)
        ensures
            final(self)@ == old(self)@.push(c),
    {
        self.keys.push_back(c);
    }

    /// Appends every character of `s`, in order.
    pub fn push_str(&mut self, s: &str)
        ensures
            final(self)@ == old(self)@ + s@,
    {
        let ghost start = self@;
        for c in it: s.chars()
            invariant
                self@ == start + it.seq().take(it.index() as int),
        {
            self.keys.push_back(c);
        }
    }

    /// The number of characters waiting.
    pub fn len(&self) -> (n: usize)
        ensures
            n == self@.len(),
    {
        self.keys.len()
    }
}

/// One read of the queue: the string returned and the queue left behind.
pub open spec fn read_key_spec(q: Seq<char>) -> (Seq<char>, Seq<char>) {
    if q.len() == 0 {
        (Seq::empty(), q)
    } else {
        (seq![q[0]], q.drop_first())
    }
}

/// `n` reads of the queue, one after another: the strings returned, in
/// order, and the queue left behind.
pub open spec fn read_keys(q: Seq<char>, n: nat) -> (Seq<Seq<char>>, Seq<char>)
    decreases n,
{
    if n == 0 {
        (Seq::empty(), q)
    } else {
        let (k, q1) = read_key_spec(q);
        let (ks, q2) = read_keys(q1, (n - 1) as nat);
        (seq![k] + ks, q2)
    }
}

/// The keys queued, each as the one-character string a read returns.
pub open spec fn key_strings(q: Seq<char>) -> Seq<Seq<char>> {
    q.map_values(|c: char| seq![c])
}

/// First in, first out: after `c1, ..., ck` have been queued, `k + 1` reads
/// return `c1, ..., ck` and then the empty string, and leave the queue
/// empty; nothing is lost or read twice.
pub proof fn law_reads_drain_in_order(q: Seq<char>)
    ensures
        read_keys(q, q.len() + 1) == (key_strings(q).push(Seq::<char>::empty()), Seq::<char>::empty()),
    decreases q.len(),
{
    if q.len() == 0 {
        assert(read_keys(q, 0) == (Seq::<Seq<char>>::empty(), q));
        assert(seq![Seq::<char>::empty()] + Seq::<Seq<char>>::empty() =~= key_strings(q).push(Seq::<char>::empty()));
        assert(q =~= Seq::<char>::empty());
    } else {
        let rest = q.drop_first();
        law_reads_drain_in_order(rest);
        assert((q.len() + 1 - 1) as nat == rest.len() + 1);
        assert(seq![seq![q[0]]] + key_strings(rest).push(Seq::<char>::empty()) =~= key_strings(q).push(
            Seq::<char>::empty(),
        ));
    }
}

/// Pops the oldest queued keystroke as a one-character string, or returns
/// `""` if none is waiting.
pub fn kb_read_key(queue: &mut KeyQueue) -> (key: String)
    ensures
        (key@, final(queue)@) == read_key_spec(old(queue)@),
        old(queue)@.len() == 0 ==> key@ == Seq::<char>::empty() && final(queue)@ == old(queue)@,
        old(queue)@.len() > 0 ==> key@ == seq![old(queue)@[0]] && final(queue)@ == old(
            queue,
        )@.drop_first(),
{
    match queue.keys.pop_front() {
        Some(c) => char_to_string(c),
        None => String::new(),
    }
}

/// Keys are read in the order they were typed: a key queued behind others
/// does not change which key the next read returns, and on an empty queue
/// it is the key the next read returns, leaving the queue empty.
pub proof fn law_reads_follow_typing_order(q: Seq<char>, c: char)
    ensures
        q.len() == 0 ==> q.push(c)[0] == c && q.push(c).drop_first() == Seq::<char>::empty(),
        q.len() > 0 ==> q.push(c)[0] == q[0] && q.push(c).drop_first() == q.drop_first().push(c),
{
    assert(q.len() == 0 ==> q.push(c).drop_first() =~= Seq::<char>::empty());
    assert(q.len() > 0 ==> q.push(c).drop_first() =~= q.drop_first().push(c));
}

/// The work of the keyboard's clock interrupt once DATA has been sampled:
/// one falling CLK edge goes through the receiver, and the character it
/// types, if any, joins the queue.
pub fn receive_clock_edge(state: &mut Ps2State, data_high: bool, queue: &mut KeyQueue)
    ensures
        old(state)@.frame.len() < FRAME_BITS,
        final(state)@.frame.len() < FRAME_BITS,
        final(state)@ == ps2_step(old(state)@, data_high).0,
        final(queue)@ == old(queue)@ + key_seq(ps2_step(old(state)@, data_high).1),
{
    match state.clock_falling_edge(data_high) {
        Some(c) => {
            queue.push_key(c);
            assert(old(queue)@.push(c) =~= old(queue)@ + seq![c]);
        },
        None => {
            assert(old(queue)@ + Seq::<char>::empty() =~= old(queue)@);
        },
    }
}

/// The keystrokes the simulated keyboard types once the boot delay is over.
pub const SIM_KEYSTROKES: &'static str = "hello world\n";

/// How long after it starts the simulated keyboard types, in microseconds
/// of the free-running timer.
pub const SIM_BOOT_DELAY_US: u32 = 1_000_000;

/// The characters of `SIM_KEYSTROKES`.
pub open spec fn sim_keystrokes() -> Seq<char> {
    seq!['h', 'e', 'l', 'l', 'o', ' ', 'w', 'o', 'r', 'l', 'd', '\n']
}

/// Microseconds elapsed from timer reading `start` to reading `now`, the
/// low 32 bits of the counter wrapping as they do.
pub open spec fn sim_elapsed(start: u32, now: u32) -> int {
    (now - start) % 0x1_0000_0000
}

/// One poll at timer reading `now` of the simulated keyboard started at
/// `start` (`None` once it has typed): the new start and the characters it
/// queues. The keystrokes are due once `SIM_BOOT_DELAY_US` have elapsed.
pub open spec fn sim_poll_spec(start: Option<u32>, now: u32) -> (Option<u32>, Seq<char>) {
    match start {
        Some(t) => if sim_elapsed(t, now) >= SIM_BOOT_DELAY_US {
            (None, sim_keystrokes())
        } else {
            (start, Seq::empty())
        },
        None => (None, Seq::empty()),
    }
}

/// Polls at the timer readings `nows`, one after another: the final state
/// and every character queued, in order.
pub open spec fn sim_polls(start: Option<u32>, nows: Seq<u32>) -> (Option<u32>, Seq<char>)
    decreases nows.len(),
{
    if nows.len() == 0 {
        (start, Seq::empty())
    } else {
        let (t1, x) = sim_poll_spec(start, nows[0]);
        let (t2, y) = sim_polls(t1, nows.drop_first());
        (t2, x + y)
    }
}

/// Once the simulated keyboard has fired, every later poll changes nothing.
pub proof fn law_sim_silent_after_firing(nows: Seq<u32>)
    ensures
        sim_polls(None, nows) == (None::<u32>, Seq::<char>::empty()),
    decreases nows.len(),
{
    if nows.len() > 0 {
        law_sim_silent_after_firing(nows.drop_first());
        assert(Seq::<char>::empty() + Seq::<char>::empty() =~= Seq::<char>::empty());
    }
}

/// The simulated keyboard types at most once: over any sequence of polls it
/// queues either nothing, staying armed, or the keystrokes exactly once,
/// falling silent.
pub proof fn law_sim_fires_at_most_once(start: Option<u32>, nows: Seq<u32>)
    ensures
        sim_polls(start, nows) == (start, Seq::<char>::empty()) || sim_polls(start, nows) == (
        None::<u32>, sim_keystrokes()),
    decreases nows.len(),
{
    if nows.len() > 0 {
        let (t1, x) = sim_poll_spec(start, nows[0]);
        if t1 is None && start is Some {
            law_sim_silent_after_firing(nows.drop_first());
            assert(sim_keystrokes() + Seq::<char>::empty() =~= sim_keystrokes());
        } else {
            law_sim_fires_at_most_once(t1, nows.drop_first());
            assert(Seq::<char>::empty() + sim_polls(t1, nows.drop_first()).1 =~= sim_polls(
                t1,
                nows.drop_first(),
            ).1);
        }
    }
}

/// The one-second wait: within the counter's range, a poll less than
/// `SIM_BOOT_DELAY_US` after the start types nothing, and one at least that
/// long after it types the keystrokes.
pub proof fn law_sim_waits_one_second(start: u32, now: u32)
    requires
        start <= now,
    ensures
        now - start < SIM_BOOT_DELAY_US ==> sim_poll_spec(Some(start), now) == (Some(start), Seq::<char>::empty()),
        now - start >= SIM_BOOT_DELAY_US ==> sim_poll_spec(Some(start), now) == (None::<u32>, sim_keystrokes()),
{
}

/// A keyboard for the simulator, which cannot drive a PS/2 line: once
/// `SIM_BOOT_DELAY_US` have passed since it started it queues
/// `SIM_KEYSTROKES`, once.
pub struct KeyboardSim {
    start: Option<u32>,
}

impl KeyboardSim {
    /// The timer reading at which the keyboard started, while it has not
    /// typed yet.
    pub closed spec fn start(&self) -> Option<u32> {
        self.start
    }
}

/// Starts the simulated keyboard at timer reading `now` (the low 32 bits of
/// the microsecond counter).
pub fn keyboard_sim_start(now: u32) -> (sim: KeyboardSim)
    ensures
        sim.start() == Some(now),
{
    KeyboardSim { start: Some(now) }
}

impl KeyboardSim {
    /// One poll at timer reading `now`: when `SIM_BOOT_DELAY_US` have
    /// elapsed since the start (counted modulo 2^32, as the counter wraps),
    /// the keystrokes are queued and the simulated keyboard falls silent;
    /// otherwise nothing changes.
    pub fn keyboard_sim_poll_once(&mut self, now: u32, queue: &mut KeyQueue)
        ensures
            final(self).start() == sim_poll_spec(old(self).start(), now).0,
            final(queue)@ == old(queue)@ + sim_poll_spec(old(self).start(), now).1,
    {
        proof {
            assert(old(queue)@ + Seq::<char>::empty() =~= old(queue)@);
        }
        let start = match self.start {
            Some(t) => t,
            None => return,
        };
        let due = now.wrapping_sub(start) >= SIM_BOOT_DELAY_US;
        proof {
            assert(now.wrapping_sub(start) == sim_elapsed(start, now));
        }
        if !due {
            return;
        }
        self.start = None;
        proof {
            reveal_strlit("hello world\n");
        }
        queue.push_str(SIM_KEYSTROKES);
    }
}

} // verus!
