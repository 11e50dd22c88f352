//! Sequence numbers of packets: the sender's counter and the receiver's
//! sliding window, which admits each number at most once.

use vstd::prelude::*;

verus! {

/// Width of the receiver's window.
pub const HISTORY_BITS: u64 = 512;

/// A history as plain values: the highest number seen and the numbers of the
/// window that were delivered.
pub struct HistoryView {
    pub max: u64,
    pub seen: Set<u64>,
}

impl HistoryView {
    /// The state of a new history.
    pub open spec fn empty() -> HistoryView {
        HistoryView { max: 0, seen: Set::empty() }
    }

    /// Whether a number lies in the window below the highest number seen.
    pub open spec fn in_window(self, seqno: u64) -> bool {
        self.max - HISTORY_BITS < seqno <= self.max
    }

    /// Every recorded number lies in the window.
    pub open spec fn wf(self) -> bool {
        forall|s: u64| #[trigger] self.seen.contains(s) ==> self.in_window(s)
    }

    /// Whether a number is delivered: it is above every number seen, or it
    /// lies in the window and was not delivered before.
    pub open spec fn accepts(self, seqno: u64) -> bool {
        seqno > self.max || (self.in_window(seqno) && !self.seen.contains(seqno))
    }

    /// The history after a number was offered. A new highest number moves the
    /// window and drops what falls out of it.
    pub open spec fn deliver(self, seqno: u64) -> HistoryView {
        if seqno > self.max {
            HistoryView {
                max: seqno,
                seen: Set::new(
                    |s: u64| s == seqno || (self.seen.contains(s) && seqno - HISTORY_BITS < s),
                ),
            }
        } else if self.accepts(seqno) {
            HistoryView { max: self.max, seen: self.seen.insert(seqno) }
        } else {
            self
        }
    }

    /// The history after a sequence of numbers was offered in order.
    pub open spec fn deliver_all(self, seqnos: Seq<u64>) -> HistoryView
        decreases seqnos.len(),
    {
        if seqnos.len() == 0 {
            self
        } else {
            self.deliver(seqnos[0]).deliver_all(seqnos.skip(1))
        }
    }
}

/// Offering a number keeps every recorded number in the window.
pub proof fn lemma_deliver_wf(h: HistoryView, seqno: u64)
    requires
        h.wf(),
    ensures
        h.deliver(seqno).wf(),
{
    let after = h.deliver(seqno);
    assert forall|s: u64| after.seen.contains(s) implies after.in_window(s) by {
        if s != seqno {
            assert(h.seen.contains(s));
        }
    }
}

/// Offering a number leaves a history in which that number is refused.
pub proof fn lemma_replay_refused(h: HistoryView, seqno: u64)
    requires
        h.wf(),
    ensures
        h.deliver(seqno).wf(),
        !h.deliver(seqno).accepts(seqno),
        seqno <= h.deliver(seqno).max,
{
    lemma_deliver_wf(h, seqno);
}

/// A number at least a window's width below the highest number seen is
/// refused.
pub proof fn lemma_below_window_refused(h: HistoryView, seqno: u64)
    requires
        seqno + HISTORY_BITS <= h.max,
    ensures
        !h.accepts(seqno),
{
}

/// A number that is refused and not above the highest number seen stays
/// refused whatever is offered next.
pub proof fn lemma_refusal_persists(h: HistoryView, seqno: u64, next: u64)
    requires
        h.wf(),
        seqno <= h.max,
        !h.accepts(seqno),
    ensures
        h.deliver(next).wf(),
        seqno <= h.deliver(next).max,
        !h.deliver(next).accepts(seqno),
{
    lemma_deliver_wf(h, next);
}

/// Once a number was offered it is refused after any further offers: no
/// number is delivered twice.
pub proof fn lemma_never_delivered_twice(h: HistoryView, seqno: u64, later: Seq<u64>)
    requires
        h.wf(),
    ensures
        !h.deliver(seqno).deliver_all(later).accepts(seqno),
{
    lemma_replay_refused(h, seqno);
    lemma_refused_after_all(h.deliver(seqno), seqno, later);
}

proof fn lemma_refused_after_all(h: HistoryView, seqno: u64, later: Seq<u64>)
    requires
        h.wf(),
        seqno <= h.max,
        !h.accepts(seqno),
    ensures
        h.deliver_all(later).wf(),
        seqno <= h.deliver_all(later).max,
        !h.deliver_all(later).accepts(seqno),
    decreases later.len(),
{
    if later.len() > 0 {
        lemma_refusal_persists(h, seqno, later[0]);
        lemma_refused_after_all(h.deliver(later[0]), seqno, later.skip(1));
    }
}

/// Whether the numbers of a sequence differ pairwise and lie between 1 and
/// `n`.
pub open spec fn distinct_up_to(order: Seq<u64>, n: u64) -> bool {
    &&& forall|i: int| 0 <= i < order.len() ==> 1 <= #[trigger] order[i] <= n
    &&& forall|i: int, j: int| 0 <= i < j < order.len() ==> order[i] != order[j]
}

/// Numbers from 1 to `n`, with `n` no more than the window's width, offered
/// to a new history in any order and each once, are all delivered.
pub proof fn lemma_each_delivered_once(order: Seq<u64>, n: u64, i: int)
    requires
        distinct_up_to(order, n),
        n <= HISTORY_BITS,
        0 <= i < order.len(),
    ensures
        HistoryView::empty().deliver_all(order.take(i)).accepts(order[i]),
{
    lemma_seen_are_offered(HistoryView::empty(), order.take(i), n);
    let h = HistoryView::empty().deliver_all(order.take(i));
    if h.seen.contains(order[i]) {
        let j = choose|j: int| 0 <= j < order.take(i).len() && order.take(i)[j] == order[i];
        assert(order[j] == order[i]);
    }
}

/// After offers of numbers up to `n` the highest number seen is at most `n`,
/// and every recorded number was recorded before or is one of the offers.
proof fn lemma_seen_are_offered(h: HistoryView, offers: Seq<u64>, n: u64)
    requires
        h.wf(),
        h.max <= n,
        forall|i: int| 0 <= i < offers.len() ==> 1 <= #[trigger] offers[i] <= n,
    ensures
        h.deliver_all(offers).wf(),
        h.deliver_all(offers).max <= n,
        forall|s: u64| #[trigger]
            h.deliver_all(offers).seen.contains(s) ==> h.seen.contains(s) || exists|j: int|
                0 <= j < offers.len() && offers[j] == s,
    decreases offers.len(),
{
    if offers.len() > 0 {
        let h1 = h.deliver(offers[0]);
        let rest = offers.skip(1);
        lemma_deliver_wf(h, offers[0]);
        lemma_seen_are_offered(h1, rest, n);
        assert forall|s: u64| #[trigger]
            h.deliver_all(offers).seen.contains(s) implies h.seen.contains(s) || exists|j: int|
            0 <= j < offers.len() && offers[j] == s by {
            if !h1.seen.contains(s) {
                let j = choose|j: int| 0 <= j < rest.len() && rest[j] == s;
                assert(offers[j + 1] == s);
            } else if !h.seen.contains(s) {
                assert(offers[0] == s);
            }
        }
    }
}

/// The highest number seen never goes back, and it is no less than any
/// number that was offered.
pub proof fn lemma_highest_covers_offers(h: HistoryView, offers: Seq<u64>, j: int)
    requires
        0 <= j < offers.len(),
    ensures
        h.deliver_all(offers).max >= h.max,
        h.deliver_all(offers).max >= offers[j],
    decreases offers.len(),
{
    lemma_highest_never_goes_back(h.deliver(offers[0]), offers.skip(1));
    if j > 0 {
        lemma_highest_covers_offers(h.deliver(offers[0]), offers.skip(1), j - 1);
    }
}

/// The highest number seen never goes back.
pub proof fn lemma_highest_never_goes_back(h: HistoryView, offers: Seq<u64>)
    ensures
        h.deliver_all(offers).max >= h.max,
    decreases offers.len(),
{
    if offers.len() > 0 {
        lemma_highest_never_goes_back(h.deliver(offers[0]), offers.skip(1));
    }
}

/// After the numbers from 1 to `n` were offered to a new history, each once
/// and in any order, the highest number seen is `n`.
pub proof fn lemma_highest_after_all(order: Seq<u64>, n: u64, j: int)
    requires
        distinct_up_to(order, n),
        0 <= j < order.len(),
        order[j] == n,
    ensures
        HistoryView::empty().deliver_all(order).max == n,
{
    lemma_seen_are_offered(HistoryView::empty(), order, n);
    lemma_highest_covers_offers(HistoryView::empty(), order, j);
}

/// Whether bit `k` of a word is set.
pub open spec fn bit(word: u64, k: u64) -> bool {
    (word >> k) & 1 == 1
}

/// Whether the window bit that belongs to a number is set.
pub open spec fn window_bit(bits: Seq<u64>, seqno: u64) -> bool {
    bit(bits[(seqno % HISTORY_BITS / 64) as int], seqno % 64)
}

proof fn lemma_set_bit(word: u64, k: u64, j: u64)
    by (bit_vector)
    requires
        k < 64,
        j < 64,
    ensures
        bit(word | (1u64 << k), j) == (j == k || bit(word, j)),
        bit(word & !(1u64 << k), j) == (j != k && bit(word, j)),
        !bit(0u64, j),
{
}

/// Two numbers share a window bit exactly when they agree modulo the width.
proof fn lemma_same_position(s: u64, t: u64)
    ensures
        (s % HISTORY_BITS / 64 == t % HISTORY_BITS / 64 && s % 64 == t % 64) <==> s % HISTORY_BITS
            == t % HISTORY_BITS,
        s % HISTORY_BITS / 64 < 8,
{
    let a = s % 512;
    let b = t % 512;
    assert(a % 64 == s % 64);
    assert(b % 64 == t % 64);
    assert(a == 64 * (a / 64) + a % 64);
    assert(b == 64 * (b / 64) + b % 64);
}

/// Numbers less than the width apart agree modulo the width only when equal.
proof fn lemma_distinct_in_window(s: u64, t: u64)
    requires
        s - t < HISTORY_BITS,
        t - s < HISTORY_BITS,
    ensures
        s % HISTORY_BITS == t % HISTORY_BITS <==> s == t,
{
}

/// Sets the window bit of a number.
fn set_window_bit(bits: &mut [u64; 8], seqno: u64)
    ensures
        forall|t: u64| #[trigger]
            window_bit(final(bits)@, t) == (t % HISTORY_BITS == seqno % HISTORY_BITS || window_bit(
                old(bits)@,
                t,
            )),
{
    let at = (seqno % HISTORY_BITS / 64) as usize;
    let word = bits[at];
    bits[at] = word | (1u64 << (seqno % 64));
    proof {
        assert forall|t: u64| #[trigger]
            window_bit(bits@, t) == (t % HISTORY_BITS == seqno % HISTORY_BITS || window_bit(
                old(bits)@,
                t,
            )) by {
            lemma_same_position(seqno, t);
            lemma_set_bit(word, seqno % 64, t % 64);
        }
    }
}

/// Clears the window bit of a number.
fn clear_window_bit(bits: &mut [u64; 8], seqno: u64)
    ensures
        forall|t: u64| #[trigger]
            window_bit(final(bits)@, t) == (t % HISTORY_BITS != seqno % HISTORY_BITS && window_bit(
                old(bits)@,
                t,
            )),
{
    let at = (seqno % HISTORY_BITS / 64) as usize;
    let word = bits[at];
    bits[at] = word & !(1u64 << (seqno % 64));
    proof {
        assert forall|t: u64| #[trigger]
            window_bit(bits@, t) == (t % HISTORY_BITS != seqno % HISTORY_BITS && window_bit(
                old(bits)@,
                t,
            )) by {
            lemma_same_position(seqno, t);
            lemma_set_bit(word, seqno % 64, t % 64);
        }
    }
}

/// Tests the window bit of a number.
fn test_window_bit(bits: &[u64; 8], seqno: u64) -> (set: bool)
    ensures
        set == window_bit(bits@, seqno),
{
    let at = (seqno % HISTORY_BITS / 64) as usize;
    (bits[at] >> (seqno % 64)) & 1 == 1
}

/// Clears the window bits of the numbers from `from` up to, not including, `to`.
fn clear_window_range(bits: &mut [u64; 8], from: u64, to: u64)
    requires
        from <= to,
        to - from < HISTORY_BITS,
    ensures
        forall|t: u64|
            to - HISTORY_BITS < t < from ==> #[trigger] window_bit(final(bits)@, t) == window_bit(
                old(bits)@,
                t,
            ),
        forall|t: u64| from <= t < to ==> !#[trigger] window_bit(final(bits)@, t),
{
    let mut s = from;
    while s < to
        invariant
            from <= s <= to,
            to - from < HISTORY_BITS,
            forall|t: u64|
                to - HISTORY_BITS < t < from ==> #[trigger] window_bit(bits@, t) == window_bit(
                    old(bits)@,
                    t,
                ),
            forall|t: u64| from <= t < s ==> !#[trigger] window_bit(bits@, t),
        decreases to - s,
    {
        let ghost before = bits@;
        clear_window_bit(bits, s);
        proof {
            assert forall|t: u64| to - HISTORY_BITS < t < from implies #[trigger] window_bit(
                bits@,
                t,
            ) == window_bit(old(bits)@, t) by {
                lemma_distinct_in_window(s, t);
            }
        }
        s += 1;
    }
}

/// The tracker of sequence numbers for one direction and priority class.
#[derive(Debug, Copy, Clone)]
pub struct PacketsHistory {
    /// Whether offered numbers are checked against the window.
    checked: bool,
    max: u64,
    bits: [u64; 8],
}

impl View for PacketsHistory {
    type V = HistoryView;

    closed spec fn view(&self) -> HistoryView {
        HistoryView {
            max: self.max,
            seen: Set::new(
                |s: u64|
                    self.max - HISTORY_BITS < s <= self.max && window_bit(self.bits@, s),
            ),
        }
    }
}

impl PacketsHistory {
    /// Whether offered numbers are checked against the window.
    pub closed spec fn is_checked(&self) -> bool {
        self.checked
    }

    /// A history that has seen nothing.
    pub fn new(checked: bool) -> (history: Self)
        ensures
            history@ == HistoryView::empty(),
            history.is_checked() == checked,
            history@.wf(),
    {
        let history = PacketsHistory { checked, max: 0, bits: [0u64; 8] };
        proof {
            assert forall|s: u64| !history@.seen.contains(s) by {
                lemma_set_bit(0, 0, s % 64);
            }
            assert(history@.seen =~= Set::empty());
        }
        history
    }

    /// The highest number seen or sent.
    pub fn seqno(&self) -> (max: u64)
        ensures
            max == self@.max,
    {
        self.max
    }

    /// Forgets everything.
    pub fn reset(&mut self)
        ensures
            final(self)@ == HistoryView::empty(),
            final(self).is_checked() == old(self).is_checked(),
    {
        let fresh = PacketsHistory::new(self.checked);
        *self = fresh;
    }

    /// Takes the next number to send.
    pub fn bump_seqno(&mut self) -> (seqno: u64)
        requires
            old(self)@.max < u64::MAX,
        ensures
            seqno == old(self)@.max + 1,
            final(self)@.max == seqno,
            final(self)@ == old(self)@.deliver(seqno),
            final(self).is_checked() == old(self).is_checked(),
    {
        let seqno = self.max + 1;
        self.record(seqno);
        seqno
    }

    /// Offers a received number. With checking on, the number is delivered
    /// where the window accepts it; with checking off it always is. A
    /// delivered number is recorded.
    pub fn deliver_packet(&mut self, seqno: u64) -> (delivered: bool)
        ensures
            delivered == (!old(self).is_checked() || old(self)@.accepts(seqno)),
            final(self)@ == old(self)@.deliver(seqno),
            final(self).is_checked() == old(self).is_checked(),
    {
        let accepted = self.record(seqno);
        accepted || !self.checked
    }

    /// Records a number and tells whether the window accepted it.
    fn record(&mut self, seqno: u64) -> (accepted: bool)
        ensures
            accepted == old(self)@.accepts(seqno),
            final(self)@ == old(self)@.deliver(seqno),
            final(self).checked == old(self).checked,
    {
        if seqno > self.max {
            if seqno - self.max >= HISTORY_BITS {
                self.bits = [0u64; 8];
                proof {
                    assert forall|t: u64| !#[trigger] window_bit(self.bits@, t) by {
                        lemma_same_position(t, t);
                        lemma_set_bit(0, 0, t % 64);
                    }
                }
            } else {
                clear_window_range(&mut self.bits, self.max + 1, seqno);
            }
            let ghost cleared = self.bits@;
            set_window_bit(&mut self.bits, seqno);
            self.max = seqno;
            proof {
                assert forall|t: u64| seqno - HISTORY_BITS < t <= seqno implies #[trigger] window_bit(
                    self.bits@,
                    t,
                ) == (t == seqno || (t <= old(self).max && window_bit(old(self).bits@, t))) by {
                    lemma_distinct_in_window(seqno, t);
                }
                assert(self@.seen =~= old(self)@.deliver(seqno).seen);
            }
            true
        } else if self.max - seqno < HISTORY_BITS {
            let seen = test_window_bit(&self.bits, seqno);
            if !seen {
                set_window_bit(&mut self.bits, seqno);
                proof {
                    assert forall|t: u64|
                        self.max - HISTORY_BITS < t <= self.max implies #[trigger] window_bit(
                        self.bits@,
                        t,
                    ) == (t == seqno || window_bit(old(self).bits@, t)) by {
                        lemma_distinct_in_window(seqno, t);
                    }
                    assert(self@.seen =~= old(self)@.deliver(seqno).seen);
                }
            }
            !seen
        } else {
            false
        }
    }
}

} // verus!
