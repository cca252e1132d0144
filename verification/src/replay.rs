//! The sliding window that refuses packets seen before.
use vstd::prelude::*;

verus! {

/// How many sequence numbers, counted back from the highest, the window covers.
pub const REPLAY_WINDOW: u16 = 16384;

/// The number of 64-bit words that hold the window's marks.
pub const REPLAY_WORDS: usize = 256;

/// How far `seq` lies ahead of `base` on the circle of sequence numbers.
pub open spec fn distance(base: u16, seq: u16) -> int {
    (seq - base) % 0x1_0000
}

/// What a window knows: the highest number accepted, and the numbers accepted within reach
/// of it.
#[verifier::ext_equal]
pub struct ReplayView {
    pub highest: Option<u16>,
    pub window: Set<u16>,
}

/// `seq` lies within the window that ends at `highest`.
pub open spec fn in_reach(highest: u16, seq: u16) -> bool {
    distance(seq, highest) < REPLAY_WINDOW
}

impl ReplayView {
    /// The window covers numbers within reach only, and holds its highest number.
    pub open spec fn valid(self) -> bool {
        match self.highest {
            None => self.window == Set::<u16>::empty(),
            Some(highest) => {
                &&& self.window.contains(highest)
                &&& forall|s: u16| self.window.contains(s) ==> #[trigger] in_reach(highest, s)
            },
        }
    }

    /// `seq` moves the window forward.
    pub open spec fn advances(self, seq: u16) -> bool {
        match self.highest {
            None => true,
            Some(highest) => 0 < distance(highest, seq) < 0x8000,
        }
    }

    /// Whether a packet numbered `seq` is accepted: it moves the window forward, or it fills
    /// a gap in it.
    pub open spec fn accepts(self, seq: u16) -> bool {
        self.advances(seq) || (in_reach(self.highest->0, seq) && !self.window.contains(seq))
    }

    /// The window after a packet numbered `seq`.
    pub open spec fn after(self, seq: u16) -> ReplayView {
        if self.advances(seq) {
            ReplayView {
                highest: Some(seq),
                window: self.window.filter(|s: u16| in_reach(seq, s)).insert(seq),
            }
        } else if self.accepts(seq) {
            ReplayView { highest: self.highest, window: self.window.insert(seq) }
        } else {
            self
        }
    }
}

/// Packets leave a valid window valid.
pub proof fn windows_stay_valid(view: ReplayView, seq: u16)
    requires
        view.valid(),
    ensures
        view.after(seq).valid(),
{
    if view.advances(seq) {
        assert(in_reach(seq, seq));
    }
}

/// A packet that was just accepted is refused when it comes again.
pub proof fn duplicates_are_refused(view: ReplayView, seq: u16)
    requires
        view.valid(),
    ensures
        !view.after(seq).accepts(seq),
        view.after(seq).after(seq) == view.after(seq),
{
    if view.advances(seq) {
        assert(in_reach(seq, seq));
    }
}

/// A number in the window is remembered for as long as the window reaches back to it.
pub proof fn acceptance_is_remembered(view: ReplayView, seq: u16, next: u16)
    requires
        view.valid(),
        view.window.contains(seq),
        in_reach(view.after(next).highest->0, seq),
    ensures
        view.after(next).window.contains(seq),
        !view.after(next).accepts(seq),
{
    let after = view.after(next);
    if view.advances(next) {
        assert(after.window.contains(seq));
        assert(in_reach(next, seq));
    }
    assert(distance(seq, after.highest->0) < REPLAY_WINDOW);
}

/// A number that the window has left behind is refused.
pub proof fn stale_numbers_are_refused(view: ReplayView, seq: u16)
    requires
        view.valid(),
        view.highest is Some,
        REPLAY_WINDOW <= distance(seq, view.highest->0) <= 0x8000,
    ensures
        !view.accepts(seq),
        view.after(seq) == view,
{
}

/// Bit number `index` of `word` is set.
pub open spec fn bit_set(word: u64, index: u64) -> bool {
    word & (1u64 << index) != 0
}

/// Mark number `n` of the bitmap is set.
pub open spec fn marked(bitmap: Seq<u64>, n: int) -> bool {
    bit_set(bitmap[n / 64], (n % 64) as u64)
}

proof fn lemma_bits(word: u64, i: u64, j: u64)
    by (bit_vector)
    requires
        i < 64,
        j < 64,
    ensures
        bit_set(word | (1u64 << i), j) == (i == j || bit_set(word, j)),
        bit_set(word & !(1u64 << i), j) == (i != j && bit_set(word, j)),
        !bit_set(0, j),
{
}

/// The replay window of a session. Its marks are allocated with the first packet.
pub struct ReplayState {
    initialized: bool,
    highest: u16,
    bitmap: Vec<u64>,
}

impl View for ReplayState {
    type V = ReplayView;

    closed spec fn view(&self) -> ReplayView {
        if self.initialized {
            ReplayView {
                highest: Some(self.highest),
                window: Set::new(
                    |s: u16|
                        in_reach(self.highest, s) && marked(
                            self.bitmap@,
                            s as int % REPLAY_WINDOW as int,
                        ),
                ),
            }
        } else {
            ReplayView { highest: None, window: Set::empty() }
        }
    }
}

impl ReplayState {
    /// The marks are allocated once there is something to mark.
    pub closed spec fn wf(&self) -> bool {
        &&& self.initialized ==> self.bitmap@.len() == REPLAY_WORDS
        &&& !self.initialized ==> self.bitmap@.len() == 0
        &&& self@.valid()
    }

    /// The window of a state that is in order is valid.
    pub proof fn a_window_is_valid(&self)
        requires
            self.wf(),
        ensures
            self@.valid(),
    {
    }

    /// A window that has seen nothing.
    pub fn new() -> (state: ReplayState)
        ensures
            state.wf(),
            state@ == (ReplayView { highest: None, window: Set::<u16>::empty() }),
    {
        ReplayState { initialized: false, highest: 0, bitmap: Vec::new() }
    }

    /// Whether the packet numbered `seq` is new; from here on it counts as seen.
    pub fn accept(&mut self, seq: u16) -> (accepted: bool)
        requires
            old(self).wf(),
        ensures
            final(self).wf(),
            accepted == old(self)@.accepts(seq),
            final(self)@ == old(self)@.after(seq),
    {
        if !self.initialized {
            self.begin(seq);
            return true;
        }
        let forward: u16 = seq.wrapping_sub(self.highest);
        assert(forward == distance(self.highest, seq));
        if forward != 0 && forward < 0x8000 {
            self.advance(seq, forward);
            return true;
        }
        let behind: u16 = self.highest.wrapping_sub(seq);
        assert(behind == distance(seq, self.highest));
        if behind >= REPLAY_WINDOW || self.test_srtp_bit(seq) {
            return false;
        }
        self.mark_behind(seq);
        true
    }

    /// Takes note of the first packet.
    fn begin(&mut self, seq: u16)
        requires
            old(self).wf(),
            !old(self).initialized,
        ensures
            final(self).wf(),
            final(self)@ == old(self)@.after(seq),
            old(self)@.accepts(seq),
    {
        let ghost before = self@;
        let mut bitmap: Vec<u64> = Vec::new();
        bitmap.resize(REPLAY_WORDS, 0);
        self.bitmap = bitmap;
        self.initialized = true;
        self.highest = seq;
        self.set_srtp_bit(seq);
        proof {
            assert forall|s: u16| self@.window.contains(s) <==> s == seq by {
                lemma_bits(0, 0, (s as int % REPLAY_WINDOW as int % 64) as u64);
            }
            assert(self@ =~= before.after(seq));
            windows_stay_valid(before, seq);
        }
    }

    /// Takes note of a packet that is `forward` ahead of the highest.
    #[verifier::spinoff_prover]
    #[verifier::rlimit(40)]
    fn advance(&mut self, seq: u16, forward: u16)
        requires
            old(self).wf(),
            old(self).initialized,
            forward == distance(old(self).highest, seq),
            0 < forward < 0x8000,
        ensures
            final(self).wf(),
            final(self)@ == old(self)@.after(seq),
            old(self)@.accepts(seq),
    {
        let ghost before = self@;
        let ghost highest = self.highest;
        if forward >= REPLAY_WINDOW {
            self.clear_all();
        } else {
            self.clear_ahead(forward);
        }
        self.highest = seq;
        self.set_srtp_bit(seq);
        proof {
            assert forall|s: u16| self@.window.contains(s) <==> before.after(
                seq,
            ).window.contains(s) by {
                if in_reach(seq, s) && s != seq && forward < REPLAY_WINDOW {
                    lemma_window_step(highest, seq, s);
                }
            }
            assert(self@ =~= before.after(seq));
            windows_stay_valid(before, seq);
        }
    }

    /// Takes note of a packet that the window covers and that was not seen.
    #[verifier::spinoff_prover]
    fn mark_behind(&mut self, seq: u16)
        requires
            old(self).wf(),
            old(self).initialized,
            in_reach(old(self).highest, seq),
            old(self)@.accepts(seq),
            !(0 < distance(old(self).highest, seq) < 0x8000),
        ensures
            final(self).wf(),
            final(self)@ == old(self)@.after(seq),
    {
        let ghost before = self@;
        self.set_srtp_bit(seq);
        proof {
            let highest = self.highest;
            assert forall|s: u16| self@.window.contains(s) <==> before.after(
                seq,
            ).window.contains(s) by {
                if in_reach(highest, s) && s != seq {
                    lemma_marks_differ(highest, seq, s);
                }
            }
            assert(self@ =~= before.after(seq));
            windows_stay_valid(before, seq);
        }
    }

    fn clear_all(&mut self)
        requires
            old(self).bitmap@.len() == REPLAY_WORDS,
        ensures
            final(self).initialized == old(self).initialized,
            final(self).highest == old(self).highest,
            final(self).bitmap@.len() == REPLAY_WORDS,
            forall|n: int| 0 <= n < REPLAY_WINDOW ==> !#[trigger] marked(final(self).bitmap@, n),
    {
        let mut i: usize = 0;
        while i < REPLAY_WORDS
            invariant
                i <= REPLAY_WORDS,
                self.initialized == old(self).initialized,
                self.highest == old(self).highest,
                self.bitmap@.len() == REPLAY_WORDS,
                forall|j: int| 0 <= j < i ==> self.bitmap@[j] == 0,
            decreases REPLAY_WORDS - i,
        {
            self.bitmap[i] = 0;
            i += 1;
        }
        assert forall|n: int| 0 <= n < REPLAY_WINDOW implies !#[trigger] marked(
            self.bitmap@,
            n,
        ) by {
            lemma_bits(0, 0, (n % 64) as u64);
        }
    }

    /// Clears the marks of the `count` numbers that follow the highest.
    fn clear_ahead(&mut self, count: u16)
        requires
            old(self).bitmap@.len() == REPLAY_WORDS,
            count < REPLAY_WINDOW,
        ensures
            final(self).initialized == old(self).initialized,
            final(self).highest == old(self).highest,
            final(self).bitmap@.len() == REPLAY_WORDS,
            forall|n: int|
                0 <= n < REPLAY_WINDOW ==> (#[trigger] marked(final(self).bitmap@, n) <==> marked(
                    old(self).bitmap@,
                    n,
                ) && !(1 <= (n - old(self).highest) % REPLAY_WINDOW as int <= count)),
    {
        let mut offset: u16 = 0;
        while offset < count
            invariant
                offset <= count < REPLAY_WINDOW,
                self.initialized == old(self).initialized,
                self.highest == old(self).highest,
                self.bitmap@.len() == REPLAY_WORDS,
                forall|n: int|
                    0 <= n < REPLAY_WINDOW ==> (#[trigger] marked(self.bitmap@, n) <==> marked(
                        old(self).bitmap@,
                        n,
                    ) && !(1 <= (n - old(self).highest) % REPLAY_WINDOW as int <= offset)),
            decreases count - offset,
        {
            offset += 1;
            let ghost previous = self.bitmap@;
            let counter: u16 = self.highest.wrapping_add(offset);
            self.clear_srtp_bit(counter);
            proof {
                let highest = self.highest;
                assert forall|n: int| 0 <= n < REPLAY_WINDOW implies (#[trigger] marked(
                    self.bitmap@,
                    n,
                ) <==> marked(old(self).bitmap@, n) && !(1 <= (n - highest) % REPLAY_WINDOW as int
                    <= offset)) by {
                    assert(marked(self.bitmap@, n) <==> marked(previous, n) && n != counter as int
                        % REPLAY_WINDOW as int);
                    assert(n == counter as int % REPLAY_WINDOW as int <==> (n - highest)
                        % REPLAY_WINDOW as int == offset);
                }
            }
        }
    }

    fn set_srtp_bit(&mut self, counter: u16)
        requires
            old(self).bitmap@.len() == REPLAY_WORDS,
        ensures
            final(self).initialized == old(self).initialized,
            final(self).highest == old(self).highest,
            final(self).bitmap@.len() == REPLAY_WORDS,
            forall|n: int|
                0 <= n < REPLAY_WINDOW ==> (#[trigger] marked(final(self).bitmap@, n) <==> marked(
                    old(self).bitmap@,
                    n,
                ) || n == counter as int % REPLAY_WINDOW as int),
    {
        let index: usize = (counter % REPLAY_WINDOW) as usize;
        let word: u64 = self.bitmap[index / 64];
        let bit: u64 = (index % 64) as u64;
        self.bitmap[index / 64] = word | (1u64 << bit);
        proof {
            assert forall|n: int| 0 <= n < REPLAY_WINDOW implies (#[trigger] marked(
                self.bitmap@,
                n,
            ) <==> marked(old(self).bitmap@, n) || n == index) by {
                lemma_bits(word, bit, (n % 64) as u64);
            }
        }
    }

    fn clear_srtp_bit(&mut self, counter: u16)
        requires
            old(self).bitmap@.len() == REPLAY_WORDS,
        ensures
            final(self).initialized == old(self).initialized,
            final(self).highest == old(self).highest,
            final(self).bitmap@.len() == REPLAY_WORDS,
            forall|n: int|
                0 <= n < REPLAY_WINDOW ==> (#[trigger] marked(final(self).bitmap@, n) <==> marked(
                    old(self).bitmap@,
                    n,
                ) && n != counter as int % REPLAY_WINDOW as int),
    {
        let index: usize = (counter % REPLAY_WINDOW) as usize;
        let word: u64 = self.bitmap[index / 64];
        let bit: u64 = (index % 64) as u64;
        self.bitmap[index / 64] = word & !(1u64 << bit);
        proof {
            assert forall|n: int| 0 <= n < REPLAY_WINDOW implies (#[trigger] marked(
                self.bitmap@,
                n,
            ) <==> marked(old(self).bitmap@, n) && n != index) by {
                lemma_bits(word, bit, (n % 64) as u64);
            }
        }
    }

    fn test_srtp_bit(&self, counter: u16) -> (set: bool)
        requires
            self.bitmap@.len() == REPLAY_WORDS,
        ensures
            set == marked(self.bitmap@, counter as int % REPLAY_WINDOW as int),
    {
        let index: usize = (counter % REPLAY_WINDOW) as usize;
        let bit: u64 = (index % 64) as u64;
        self.bitmap[index / 64] & (1u64 << bit) != 0
    }
}

/// Different numbers that the window covers have different marks.
proof fn lemma_marks_differ(highest: u16, seq: u16, s: u16)
    requires
        in_reach(highest, seq),
        in_reach(highest, s),
        s != seq,
    ensures
        s as int % REPLAY_WINDOW as int != seq as int % REPLAY_WINDOW as int,
{
}

/// When the window moves forward by less than its width, the marks cleared are those of the
/// numbers it newly covers.
proof fn lemma_window_step(highest: u16, seq: u16, s: u16)
    requires
        0 < distance(highest, seq) < REPLAY_WINDOW,
        in_reach(seq, s),
        s != seq,
    ensures
        in_reach(highest, s) <==> !(1 <= (s as int % REPLAY_WINDOW as int - highest)
            % REPLAY_WINDOW as int <= distance(highest, seq)),
        s as int % REPLAY_WINDOW as int != seq as int % REPLAY_WINDOW as int,
{
}

} // verus!
