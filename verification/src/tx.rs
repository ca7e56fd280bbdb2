//! Transmit-slot scheduling.
//!
//! The controller has four descriptor slots. Software owns a slot while its
//! status register has the availability bit set; writing a frame length to
//! the descriptor hands the slot to the hardware and starts transmission.
//! Outbound frames are drained from the attached channels into free slots
//! in round-robin order: the current slot takes the first transmissible
//! frame found scanning the channels, then the round-robin index advances.
//! A frame of 8192 bytes or more cannot fit a descriptor: it is popped and
//! dropped (a recoverable condition; the shell may log it), and the slot is
//! not consumed.

use vstd::prelude::*;

use crate::registry::ChannelView;

verus! {

/// Number of hardware transmit descriptor slots.
pub const TX_SLOT_COUNT: usize = 4;

/// Strict upper bound on the length of a transmissible frame.
pub const TX_FRAME_MAX: usize = 8192;

/// One frame handed to the hardware: the shell copies `bytes` into the
/// slot's pre-allocated transmit buffer, rewrites the slot's buffer-address
/// register and writes the length into the slot's descriptor register,
/// which triggers the send.
pub struct TxSend {
    pub slot: usize,
    pub bytes: Vec<u8>,
}

/// Mathematical model of one transmit submission.
pub ghost struct TxSendView {
    pub slot: int,
    pub bytes: Seq<u8>,
}

impl View for TxSend {
    type V = TxSendView;

    open spec fn view(&self) -> TxSendView {
        TxSendView { slot: self.slot as int, bytes: self.bytes@ }
    }
}

/// Model of a list of transmit submissions.
pub open spec fn tx_views(s: Seq<TxSend>) -> Seq<TxSendView> {
    Seq::new(s.len(), |i: int| s[i]@)
}

/// `c` with the front frame of its outbound queue removed.
pub open spec fn chan_pop(c: ChannelView) -> ChannelView {
    ChannelView { outbound: c.outbound.drop_first(), ..c }
}

/// One scan over the channels starting at index `k`, looking for the first
/// transmissible outbound frame. Every non-empty queue met before one is
/// found loses its front frame: an oversized front frame is popped and
/// dropped, and the scan moves on. Returns the channels after the scan and
/// the frame to transmit, if one was found.
pub open spec fn scan_pass(chs: Seq<ChannelView>, k: int) -> (Seq<ChannelView>, Option<Seq<u8>>)
    decreases chs.len() - k,
{
    if k < 0 || k >= chs.len() {
        (chs, None)
    } else if chs[k].outbound.len() == 0 {
        scan_pass(chs, k + 1)
    } else {
        let frame = chs[k].outbound[0];
        let popped = chs.update(k, chan_pop(chs[k]));
        if frame.len() < TX_FRAME_MAX {
            (popped, Some(frame))
        } else {
            scan_pass(popped, k + 1)
        }
    }
}

/// Round-robin drain, starting at slot `tx_i` with slot availability
/// `avail`. While the current slot is available, one scan pass runs; if it
/// yields a frame, the frame occupies the slot (which is then owned by the
/// hardware until it signals completion) and the index advances modulo 4.
/// The drain stops at the first busy slot or when a pass finds nothing to
/// send. At most 4 passes can send, so 4 steps of fuel are exact.
pub open spec fn drain_from(chs: Seq<ChannelView>, tx_i: int, avail: Seq<bool>, fuel: nat) -> (
    Seq<ChannelView>,
    int,
    Seq<TxSendView>,
)
    decreases fuel,
{
    if fuel == 0 || !(0 <= tx_i < avail.len()) || !avail[tx_i] {
        (chs, tx_i, Seq::empty())
    } else {
        let scanned = scan_pass(chs, 0);
        match scanned.1 {
            Option::Some(frame) => {
                let rest = drain_from(
                    scanned.0,
                    (tx_i + 1) % (TX_SLOT_COUNT as int),
                    avail.update(tx_i, false),
                    (fuel - 1) as nat,
                );
                (rest.0, rest.1, seq![TxSendView { slot: tx_i, bytes: frame }] + rest.2)
            },
            Option::None => (scanned.0, tx_i, Seq::empty()),
        }
    }
}

/// The full effect of one transmit-processing step on the channels, the
/// round-robin index and the hardware: what `send_outbound` does.
pub open spec fn drain_spec(chs: Seq<ChannelView>, tx_i: int, avail: Seq<bool>) -> (
    Seq<ChannelView>,
    int,
    Seq<TxSendView>,
) {
    drain_from(chs, tx_i, avail, TX_SLOT_COUNT as nat)
}

/// Total number of outbound frames queued across all channels.
pub open spec fn total_outbound(chs: Seq<ChannelView>) -> nat
    decreases chs.len(),
{
    if chs.len() == 0 {
        0
    } else {
        chs[0].outbound.len() + total_outbound(chs.drop_first())
    }
}

/// Number of available slots.
pub open spec fn num_true(s: Seq<bool>) -> nat
    decreases s.len(),
{
    if s.len() == 0 {
        0
    } else {
        (if s[0] {
            1nat
        } else {
            0nat
        }) + num_true(s.drop_first())
    }
}

/// Marking an available slot busy lowers the available count by one.
pub proof fn lemma_num_true_update_false(s: Seq<bool>, i: int)
    requires
        0 <= i < s.len(),
        s[i],
    ensures
        num_true(s.update(i, false)) == num_true(s) - 1,
    decreases s.len(),
{
    if i == 0 {
        assert(s.update(0, false).drop_first() =~= s.drop_first());
    } else {
        assert(s.update(i, false).drop_first() =~= s.drop_first().update(i - 1, false));
        lemma_num_true_update_false(s.drop_first(), i - 1);
    }
}

/// There are never more available slots than slots.
pub proof fn lemma_num_true_le_len(s: Seq<bool>)
    ensures
        num_true(s) <= s.len(),
    decreases s.len(),
{
    if s.len() > 0 {
        lemma_num_true_le_len(s.drop_first());
    }
}

/// An available slot makes the available count positive.
pub proof fn lemma_num_true_positive(s: Seq<bool>, i: int)
    requires
        0 <= i < s.len(),
        s[i],
    ensures
        num_true(s) > 0,
    decreases s.len(),
{
    if i > 0 {
        lemma_num_true_positive(s.drop_first(), i - 1);
    }
}

/// With no outbound frame anywhere, a scan finds nothing and changes
/// nothing.
pub proof fn lemma_scan_pass_no_outbound(chs: Seq<ChannelView>, k: int)
    requires
        forall|i: int| 0 <= i < chs.len() ==> #[trigger] chs[i].outbound.len() == 0,
    ensures
        scan_pass(chs, k).0 == chs,
        scan_pass(chs, k).1 is None,
    decreases chs.len() - k,
{
    if 0 <= k < chs.len() {
        lemma_scan_pass_no_outbound(chs, k + 1);
    }
}

/// A scan pass never touches a channel's handle or inbound queue, never
/// grows an outbound queue, and the frame it returns is transmissible.
pub proof fn lemma_scan_pass_effects(chs: Seq<ChannelView>, k: int)
    ensures
        scan_pass(chs, k).0.len() == chs.len(),
        forall|i: int| 0 <= i < k ==> #[trigger] scan_pass(chs, k).0[i] == chs[i],
        forall|i: int|
            0 <= i < chs.len() ==> (#[trigger] scan_pass(chs, k).0[i]).id == chs[i].id
                && scan_pass(chs, k).0[i].inbound == chs[i].inbound && (scan_pass(chs, k).0[i].outbound
                == chs[i].outbound || scan_pass(chs, k).0[i].outbound == chs[i].outbound.drop_first()),
        match scan_pass(chs, k).1 {
            Option::Some(f) => f.len() < TX_FRAME_MAX,
            Option::None => true,
        },
    decreases chs.len() - k,
{
    if 0 <= k < chs.len() {
        if chs[k].outbound.len() == 0 {
            lemma_scan_pass_effects(chs, k + 1);
        } else {
            let popped = chs.update(k, chan_pop(chs[k]));
            if chs[k].outbound[0].len() < TX_FRAME_MAX {
            } else {
                lemma_scan_pass_effects(popped, k + 1);
                assert forall|i: int| 0 <= i < chs.len() implies (#[trigger] scan_pass(
                    chs,
                    k,
                ).0[i]).id == chs[i].id && scan_pass(chs, k).0[i].inbound == chs[i].inbound && (
                scan_pass(chs, k).0[i].outbound == chs[i].outbound || scan_pass(chs, k).0[i].outbound
                    == chs[i].outbound.drop_first()) by {
                    if i == k {
                        assert(scan_pass(popped, k + 1).0[k] == popped[k]);
                    } else {
                        assert(popped[i] == chs[i]);
                    }
                }
            }
        }
    }
}

/// The drain never touches a channel's handle or inbound queue and never
/// grows an outbound queue; every submitted frame is shorter than the
/// descriptor bound, goes to a slot that was available, each slot is used
/// at most once, and the final round-robin index stays in range.
pub proof fn lemma_drain_effects(chs: Seq<ChannelView>, tx_i: int, avail: Seq<bool>, fuel: nat)
    ensures
        drain_from(chs, tx_i, avail, fuel).0.len() == chs.len(),
        forall|i: int|
            0 <= i < chs.len() ==> (#[trigger] drain_from(chs, tx_i, avail, fuel).0[i]).id
                == chs[i].id && drain_from(chs, tx_i, avail, fuel).0[i].inbound == chs[i].inbound,
        forall|t: int|
            0 <= t < drain_from(chs, tx_i, avail, fuel).2.len() ==> {
                let s = #[trigger] drain_from(chs, tx_i, avail, fuel).2[t];
                &&& s.bytes.len() < TX_FRAME_MAX
                &&& 0 <= s.slot < avail.len()
                &&& avail[s.slot]
            },
        forall|t: int, u: int|
            0 <= t < u < drain_from(chs, tx_i, avail, fuel).2.len() ==> drain_from(
                chs,
                tx_i,
                avail,
                fuel,
            ).2[t].slot != drain_from(chs, tx_i, avail, fuel).2[u].slot,
        avail.len() == TX_SLOT_COUNT && 0 <= tx_i < avail.len() ==> 0 <= drain_from(
            chs,
            tx_i,
            avail,
            fuel,
        ).1 < avail.len(),
    decreases fuel,
{
    if fuel == 0 || !(0 <= tx_i < avail.len()) || !avail[tx_i] {
    } else {
        let scanned = scan_pass(chs, 0);
        lemma_scan_pass_effects(chs, 0);
        match scanned.1 {
            Option::Some(frame) => {
                let avail2 = avail.update(tx_i, false);
                let rest = drain_from(
                    scanned.0,
                    (tx_i + 1) % (TX_SLOT_COUNT as int),
                    avail2,
                    (fuel - 1) as nat,
                );
                lemma_drain_effects(
                    scanned.0,
                    (tx_i + 1) % (TX_SLOT_COUNT as int),
                    avail2,
                    (fuel - 1) as nat,
                );
                let all = drain_from(chs, tx_i, avail, fuel).2;
                assert forall|t: int| 0 <= t < all.len() implies {
                    let s = #[trigger] all[t];
                    &&& s.bytes.len() < TX_FRAME_MAX
                    &&& 0 <= s.slot < avail.len()
                    &&& avail[s.slot]
                } by {
                    if t > 0 {
                        assert(all[t] == rest.2[t - 1]);
                        assert(avail2[all[t].slot]);
                    }
                }
                assert forall|t: int, u: int| 0 <= t < u < all.len() implies all[t].slot
                    != all[u].slot by {
                    if t == 0 {
                        assert(all[u] == rest.2[u - 1]);
                        assert(avail2[all[u].slot]);
                    } else {
                        assert(all[t] == rest.2[t - 1]);
                        assert(all[u] == rest.2[u - 1]);
                    }
                }
            },
            Option::None => {},
        }
    }
}

/// Some channel from index `k` on has outbound frames exactly when the
/// suffix total is positive.
pub proof fn lemma_total_positive_exists(chs: Seq<ChannelView>)
    requires
        total_outbound(chs) > 0,
    ensures
        exists|i: int| 0 <= i < chs.len() && #[trigger] chs[i].outbound.len() > 0,
    decreases chs.len(),
{
    if chs.len() > 0 {
        if chs[0].outbound.len() > 0 {
        } else {
            lemma_total_positive_exists(chs.drop_first());
            let i = choose|i: int|
                0 <= i < chs.drop_first().len() && #[trigger] chs.drop_first()[i].outbound.len()
                    > 0;
            assert(chs[i + 1].outbound.len() > 0);
        }
    }
}

/// Popping the front frame of one channel lowers the total by one.
pub proof fn lemma_total_outbound_pop(chs: Seq<ChannelView>, k: int)
    requires
        0 <= k < chs.len(),
        chs[k].outbound.len() > 0,
    ensures
        total_outbound(chs.update(k, chan_pop(chs[k]))) == total_outbound(chs) - 1,
    decreases chs.len(),
{
    if k == 0 {
        assert(chs.update(0, chan_pop(chs[0])).drop_first() =~= chs.drop_first());
    } else {
        assert(chs.update(k, chan_pop(chs[k])).drop_first() =~= chs.drop_first().update(
            k - 1,
            chan_pop(chs.drop_first()[k - 1]),
        ));
        lemma_total_outbound_pop(chs.drop_first(), k - 1);
    }
}

/// A scan pass never grows the total outbound count, and lowers it
/// strictly when a channel at or past its start index has frames queued.
pub proof fn lemma_scan_pass_total(chs: Seq<ChannelView>, k: int)
    requires
        0 <= k,
    ensures
        total_outbound(scan_pass(chs, k).0) <= total_outbound(chs),
        (exists|i: int| k <= i < chs.len() && #[trigger] chs[i].outbound.len() > 0)
            ==> total_outbound(scan_pass(chs, k).0) < total_outbound(chs),
    decreases chs.len() - k,
{
    if 0 <= k < chs.len() {
        if chs[k].outbound.len() == 0 {
            lemma_scan_pass_total(chs, k + 1);
            if exists|i: int| k <= i < chs.len() && #[trigger] chs[i].outbound.len() > 0 {
                let i = choose|i: int| k <= i < chs.len() && #[trigger] chs[i].outbound.len() > 0;
                assert(i >= k + 1);
            }
        } else {
            let popped = chs.update(k, chan_pop(chs[k]));
            lemma_total_outbound_pop(chs, k);
            if chs[k].outbound[0].len() < TX_FRAME_MAX {
            } else {
                lemma_scan_pass_total(popped, k + 1);
            }
        }
    }
}

/// Liveness of flushing: while some channel has outbound frames and the
/// current transmit slot is free, every transmit-processing step strictly
/// lowers the total number of queued outbound frames; repeated polling
/// therefore drains the queues to zero once slots become available, and a
/// blocked `flush` is eventually released.
pub proof fn lemma_drain_progress(chs: Seq<ChannelView>, tx_i: int, avail: Seq<bool>, fuel: nat)
    requires
        0 <= tx_i < avail.len(),
        avail[tx_i],
        total_outbound(chs) > 0,
        fuel > 0,
    ensures
        total_outbound(drain_from(chs, tx_i, avail, fuel).0) < total_outbound(chs),
    decreases fuel,
{
    let scanned = scan_pass(chs, 0);
    lemma_total_positive_exists(chs);
    lemma_scan_pass_total(chs, 0);
    match scanned.1 {
        Option::Some(frame) => {
            lemma_drain_total_monotone(
                scanned.0,
                (tx_i + 1) % (TX_SLOT_COUNT as int),
                avail.update(tx_i, false),
                (fuel - 1) as nat,
            );
        },
        Option::None => {},
    }
}

/// The drain never grows the total outbound count.
pub proof fn lemma_drain_total_monotone(
    chs: Seq<ChannelView>,
    tx_i: int,
    avail: Seq<bool>,
    fuel: nat,
)
    ensures
        total_outbound(drain_from(chs, tx_i, avail, fuel).0) <= total_outbound(chs),
    decreases fuel,
{
    if fuel == 0 || !(0 <= tx_i < avail.len()) || !avail[tx_i] {
    } else {
        let scanned = scan_pass(chs, 0);
        lemma_scan_pass_total(chs, 0);
        match scanned.1 {
            Option::Some(frame) => {
                lemma_drain_total_monotone(
                    scanned.0,
                    (tx_i + 1) % (TX_SLOT_COUNT as int),
                    avail.update(tx_i, false),
                    (fuel - 1) as nat,
                );
            },
            Option::None => {},
        }
    }
}

/// Every queued outbound frame fits a transmit descriptor.
pub open spec fn all_small(chs: Seq<ChannelView>) -> bool {
    forall|i: int, j: int|
        0 <= i < chs.len() && 0 <= j < chs[i].outbound.len() ==> (
        #[trigger] chs[i].outbound[j]).len() < TX_FRAME_MAX
}

/// With only transmissible frames queued and something to send, a scan
/// pass pops exactly the first queued frame, returns it, and keeps every
/// remaining frame transmissible.
pub proof fn lemma_scan_pass_small(chs: Seq<ChannelView>, k: int)
    requires
        0 <= k,
        all_small(chs),
        exists|i: int| k <= i < chs.len() && #[trigger] chs[i].outbound.len() > 0,
    ensures
        scan_pass(chs, k).1 is Some,
        total_outbound(scan_pass(chs, k).0) == total_outbound(chs) - 1,
        all_small(scan_pass(chs, k).0),
    decreases chs.len() - k,
{
    if chs[k].outbound.len() == 0 {
        let i = choose|i: int| k <= i < chs.len() && #[trigger] chs[i].outbound.len() > 0;
        assert(i >= k + 1);
        lemma_scan_pass_small(chs, k + 1);
    } else {
        assert(chs[k].outbound[0].len() < TX_FRAME_MAX);
        lemma_total_outbound_pop(chs, k);
        let popped = chs.update(k, chan_pop(chs[k]));
        assert forall|i: int, j: int|
            0 <= i < popped.len() && 0 <= j < popped[i].outbound.len() implies (
        #[trigger] popped[i].outbound[j]).len() < TX_FRAME_MAX by {
            if i == k {
                assert(popped[k].outbound[j] == chs[k].outbound[j + 1]);
            } else {
                assert(popped[i] == chs[i]);
            }
        }
    }
}

/// Round-robin fairness under sustained load: with every queued frame
/// transmissible and the next `total_outbound(chs)` slots in round-robin
/// order all available, one transmit-processing step dispatches every
/// queued frame — each to its own slot, none reused — and leaves all
/// outbound queues empty.
pub proof fn lemma_drain_dispatches_all(
    chs: Seq<ChannelView>,
    tx_i: int,
    avail: Seq<bool>,
    fuel: nat,
)
    requires
        avail.len() == TX_SLOT_COUNT,
        0 <= tx_i < TX_SLOT_COUNT,
        all_small(chs),
        total_outbound(chs) <= TX_SLOT_COUNT,
        total_outbound(chs) <= fuel,
        forall|k: int|
            0 <= k < total_outbound(chs) ==> avail[#[trigger] ((tx_i + k) % (
            TX_SLOT_COUNT as int))],
    ensures
        drain_from(chs, tx_i, avail, fuel).2.len() == total_outbound(chs),
        total_outbound(drain_from(chs, tx_i, avail, fuel).0) == 0,
    decreases fuel,
{
    let total = total_outbound(chs);
    if total == 0 {
        if 0 <= tx_i < avail.len() && avail[tx_i] && fuel > 0 {
            lemma_total_zero_all_empty(chs);
            lemma_scan_pass_no_outbound(chs, 0);
        }
    } else {
        assert((tx_i + 0) % (TX_SLOT_COUNT as int) == tx_i);
        assert(avail[tx_i]);
        lemma_total_positive_exists(chs);
        lemma_scan_pass_small(chs, 0);
        let scanned = scan_pass(chs, 0);
        let avail2 = avail.update(tx_i, false);
        let tx2 = (tx_i + 1) % (TX_SLOT_COUNT as int);
        assert forall|k: int| 0 <= k < total_outbound(scanned.0) implies avail2[#[trigger] ((tx2
            + k) % (TX_SLOT_COUNT as int))] by {
            let k1 = k + 1;
            assert((tx2 + k) % (TX_SLOT_COUNT as int) == (tx_i + k1) % (TX_SLOT_COUNT as int));
            assert(avail[(tx_i + k1) % (TX_SLOT_COUNT as int)]);
            assert((tx_i + k1) % (TX_SLOT_COUNT as int) != tx_i);
        }
        lemma_drain_dispatches_all(scanned.0, tx2, avail2, (fuel - 1) as nat);
    }
}

/// A zero total means every outbound queue is empty.
pub proof fn lemma_total_zero_all_empty(chs: Seq<ChannelView>)
    requires
        total_outbound(chs) == 0,
    ensures
        forall|i: int| 0 <= i < chs.len() ==> #[trigger] chs[i].outbound.len() == 0,
    decreases chs.len(),
{
    if chs.len() > 0 {
        lemma_total_zero_all_empty(chs.drop_first());
        assert forall|i: int| 0 <= i < chs.len() implies #[trigger] chs[i].outbound.len()
            == 0 by {
            if i > 0 {
                assert(chs.drop_first()[i - 1].outbound.len() == 0);
            }
        }
    }
}

} // verus!
