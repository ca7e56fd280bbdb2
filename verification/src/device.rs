//! The device controller: one RTL8139-class network interface.
//!
//! The controller owns its PCI location, register base, interrupt line, the
//! registry of attached channels and the round-robin transmit index. All
//! port or memory-mapped register traffic is performed by the kernel shell;
//! the methods here take the values the shell read (interrupt line, ring
//! contents, write offset, slot availability bits) and return the values to
//! write back (the new read cursor, the transmit submissions), so every
//! decision the driver makes is covered by a contract. The shell must run
//! `receive_inbound` and `send_outbound` inside the interrupt-disabling
//! critical section.

use vstd::prelude::*;
use vstd::string::StringExecFns;

use crate::frames::byte_vec_views;
use crate::registry::{deliver_all, lemma_wf_same_ids, ChannelView, Registry};
use crate::ring::{frames_ok, parse_ring, parsed_frames, RX_PARSE_FUEL, RX_RING_LEN};
use crate::tx::{
    drain_from, drain_spec, lemma_drain_effects, lemma_num_true_positive,
    lemma_num_true_le_len, lemma_num_true_update_false, lemma_scan_pass_effects,
    lemma_scan_pass_no_outbound, num_true, scan_pass, tx_views, TxSend, TxSendView, TX_SLOT_COUNT,
};

verus! {

/// One physical controller instance.
pub struct RTL8139 {
    /// PCI location: bus number.
    pub bus: usize,
    /// PCI location: slot number.
    pub slot: usize,
    /// PCI location: function number.
    pub func: usize,
    /// Register base (I/O port or memory-mapped address).
    pub base: usize,
    /// Whether the registers are memory-mapped rather than port-mapped.
    pub memory_mapped: bool,
    /// Assigned interrupt line; interrupts are broadcast, so the handler
    /// self-filters on it.
    pub irq: u8,
    /// The channels currently attached to this device.
    pub resources: Registry,
    /// Round-robin index into the four transmit slots.
    pub tx_i: usize,
}

impl RTL8139 {
    /// A valid controller state: well-formed registry, transmit index in
    /// range.
    pub open spec fn wf(self) -> bool {
        &&& self.resources@.wf()
        &&& self.tx_i < TX_SLOT_COUNT
    }

    /// Creates the controller for a discovered PCI device, with no channel
    /// attached and transmit starting at slot 0.
    pub fn new(
        bus: usize,
        slot: usize,
        func: usize,
        base: usize,
        memory_mapped: bool,
        irq: u8,
    ) -> (d: RTL8139)
        ensures
            d.bus == bus && d.slot == slot && d.func == func,
            d.base == base && d.memory_mapped == memory_mapped && d.irq == irq,
            d.resources@.channels =~= Seq::<ChannelView>::empty(),
            d.resources@.next_id == 0,
            d.tx_i == 0,
            d.wf(),
    {
        RTL8139 {
            bus,
            slot,
            func,
            base,
            memory_mapped,
            irq,
            resources: Registry::new(),
            tx_i: 0,
        }
    }

    /// The URL scheme this device answers to.
    pub fn scheme(&self) -> (s: String)
        ensures
            s@ == "network"@,
    {
        String::from_str("network")
    }

    /// Receive-ring processing: parses every frame between the driver
    /// cursor `capr` and the hardware write offset `cbr` out of the ring
    /// contents, delivers an independent copy of each payload to every
    /// attached channel in ring order, and returns the new cursor, which the
    /// shell writes back to the read-pointer register (biased by the pad;
    /// see `capr_register_value`). Must run in the critical section.
    pub fn receive_inbound(&mut self, ring: &Vec<u8>, capr: usize, cbr: usize) -> (new_cursor:
        usize)
        requires
            RX_RING_LEN <= ring@.len() <= 65536,
            capr < RX_RING_LEN,
            cbr < RX_RING_LEN,
            frames_ok(ring@, capr as int, cbr as int, RX_PARSE_FUEL as nat),
        ensures
            new_cursor == cbr,
            final(self).resources@.channels =~= deliver_all(
                old(self).resources@.channels,
                parsed_frames(ring@, capr as int, cbr as int, RX_PARSE_FUEL as nat),
            ),
            final(self).resources@.next_id == old(self).resources@.next_id,
            final(self).tx_i == old(self).tx_i,
            final(self).bus == old(self).bus && final(self).slot == old(self).slot && final(self).func == old(self).func,
            final(self).base == old(self).base && final(self).memory_mapped == old(self).memory_mapped && final(self).irq == old(self).irq,
            old(self).wf() ==> final(self).wf(),
    {
        let (frames, new_cursor) = parse_ring(ring, capr, cbr);
        self.resources.deliver_to_all(&frames);
        proof {
            let pre = old(self).resources@.channels;
            let post = self.resources@.channels;
            if old(self).wf() {
                assert forall|i: int| 0 <= i < pre.len() implies #[trigger] pre[i].id
                    == post[i].id by {
                    assert(post[i] == deliver_all(pre, byte_vec_views(frames@))[i]);
                }
                lemma_wf_same_ids(pre, post, old(self).resources@.next_id);
            }
        }
        new_cursor
    }

    /// Transmit processing: drains outbound frames from the attached
    /// channels into the available transmit slots in round-robin order.
    /// `free` holds, per slot, the availability bit the shell read from the
    /// slot's status register. Returns the submissions to perform: for each
    /// one the shell copies the bytes into the slot's transmit buffer,
    /// rewrites the slot's buffer-address register and writes the length to
    /// the slot's descriptor register, which starts the send. Oversized
    /// frames are popped and dropped on the way (the shell may log each
    /// drop). Must run in the critical section.
    pub fn send_outbound(&mut self, free: &[bool; 4]) -> (sends: Vec<TxSend>)
        requires
            old(self).tx_i < TX_SLOT_COUNT,
        ensures
            final(self).resources@.channels == drain_spec(
                old(self).resources@.channels,
                old(self).tx_i as int,
                free@,
            ).0,
            final(self).tx_i as int == drain_spec(
                old(self).resources@.channels,
                old(self).tx_i as int,
                free@,
            ).1,
            tx_views(sends@) =~= drain_spec(
                old(self).resources@.channels,
                old(self).tx_i as int,
                free@,
            ).2,
            final(self).resources@.next_id == old(self).resources@.next_id,
            final(self).tx_i < TX_SLOT_COUNT,
            final(self).bus == old(self).bus && final(self).slot == old(self).slot && final(self).func == old(self).func,
            final(self).base == old(self).base && final(self).memory_mapped == old(self).memory_mapped && final(self).irq == old(self).irq,
            old(self).wf() ==> final(self).wf(),
    {
        let ghost chs0 = self.resources@.channels;
        let ghost tx0 = self.tx_i as int;
        let ghost av0 = free@;
        let ghost dev0 = *self;
        let mut sends: Vec<TxSend> = Vec::new();
        if !self.resources.any_outbound() {
            proof {
                lemma_scan_pass_no_outbound(chs0, 0);
                assert(tx_views(sends@) =~= Seq::<TxSendView>::empty());
            }
            return sends;
        }
        let mut avail: [bool; 4] = *free;
        let ghost mut fuel: nat = TX_SLOT_COUNT as nat;
        proof {
            lemma_num_true_le_len(avail@);
        }
        #[verifier::loop_isolation(true)]
        loop
            invariant_except_break
                fuel >= num_true(avail@),
                drain_spec(chs0, tx0, av0).0 == drain_from(
                    self.resources@.channels,
                    self.tx_i as int,
                    avail@,
                    fuel,
                ).0,
                drain_spec(chs0, tx0, av0).1 == drain_from(
                    self.resources@.channels,
                    self.tx_i as int,
                    avail@,
                    fuel,
                ).1,
                drain_spec(chs0, tx0, av0).2 =~= tx_views(sends@) + drain_from(
                    self.resources@.channels,
                    self.tx_i as int,
                    avail@,
                    fuel,
                ).2,
            invariant
                self.tx_i < TX_SLOT_COUNT,
                self.resources@.next_id == dev0.resources@.next_id,
                self.bus == dev0.bus && self.slot == dev0.slot && self.func == dev0.func,
                self.base == dev0.base && self.memory_mapped == dev0.memory_mapped
                    && self.irq == dev0.irq,
                avail@.len() == 4,
                dev0.wf() ==> self.wf(),
            ensures
                drain_spec(chs0, tx0, av0).0 == self.resources@.channels,
                drain_spec(chs0, tx0, av0).1 == self.tx_i as int,
                drain_spec(chs0, tx0, av0).2 =~= tx_views(sends@),
            decreases fuel,
        {
            let ghost pre_chs = self.resources@.channels;
            let ghost pre_tx = self.tx_i as int;
            let ghost pre_avail = avail@;
            let ghost pre_sends = tx_views(sends@);
            if !avail[self.tx_i] {
                proof {
                    assert(drain_from(pre_chs, pre_tx, pre_avail, fuel) == (
                        pre_chs,
                        pre_tx,
                        Seq::<TxSendView>::empty(),
                    ));
                    assert(drain_spec(chs0, tx0, av0).2 =~= tx_views(sends@));
                }
                break ;
            }
            proof {
                lemma_num_true_positive(pre_avail, pre_tx);
            }
            let found = self.resources.scan_for_frame();
            match found {
                Option::Some(bytes) => {
                    let slot = self.tx_i;
                    let ghost sent_view = TxSendView { slot: pre_tx, bytes: bytes@ };
                    proof {
                        lemma_num_true_update_false(pre_avail, pre_tx);
                        assert(drain_from(pre_chs, pre_tx, pre_avail, fuel).2 == seq![sent_view]
                            + drain_from(
                            scan_pass(pre_chs, 0).0,
                            (pre_tx + 1) % (TX_SLOT_COUNT as int),
                            pre_avail.update(pre_tx, false),
                            (fuel - 1) as nat,
                        ).2);
                    }
                    sends.push(TxSend { slot, bytes });
                    avail[slot] = false;
                    self.tx_i = (self.tx_i + 1) % 4;
                    proof {
                        fuel = (fuel - 1) as nat;
                        assert(tx_views(sends@) =~= pre_sends.push(sent_view));
                        assert(pre_sends + (seq![sent_view] + drain_from(
                            self.resources@.channels,
                            self.tx_i as int,
                            avail@,
                            fuel,
                        ).2) =~= tx_views(sends@) + drain_from(
                            self.resources@.channels,
                            self.tx_i as int,
                            avail@,
                            fuel,
                        ).2);
                        if dev0.wf() {
                            let post2 = self.resources@.channels;
                            lemma_scan_pass_effects(pre_chs, 0);
                            assert forall|i: int| 0 <= i < pre_chs.len() implies
                                #[trigger] pre_chs[i].id == post2[i].id by {
                                assert(post2[i] == scan_pass(pre_chs, 0).0[i]);
                            }
                            lemma_wf_same_ids(pre_chs, post2, self.resources@.next_id);
                        }
                    }
                },
                Option::None => {
                    proof {
                        assert(drain_from(pre_chs, pre_tx, pre_avail, fuel) == (
                            scan_pass(pre_chs, 0).0,
                            pre_tx,
                            Seq::<TxSendView>::empty(),
                        ));
                        assert(self.resources@.channels == scan_pass(pre_chs, 0).0);
                        assert(drain_spec(chs0, tx0, av0).2 =~= tx_views(sends@));
                        if dev0.wf() {
                            let post2 = self.resources@.channels;
                            lemma_scan_pass_effects(pre_chs, 0);
                            assert forall|i: int| 0 <= i < pre_chs.len() implies
                                #[trigger] pre_chs[i].id == post2[i].id by {
                                assert(post2[i] == scan_pass(pre_chs, 0).0[i]);
                            }
                            lemma_wf_same_ids(pre_chs, post2, self.resources@.next_id);
                        }
                    }
                    break ;
                },
            }
        }
        sends
    }

    /// Interrupt service for a signaled interrupt line. Interrupts are
    /// broadcast, so the device self-filters: a line other than its own
    /// changes nothing. On its own line, the shell first drains the
    /// interrupt status register (read, write the same bits back to
    /// acknowledge, repeat until it reads zero, or the controller will not
    /// re-arm), then calls this with the ring snapshot and the slot
    /// availability bits; receive processing runs before transmit
    /// processing, since freshly acknowledged sends may have freed slots
    /// for queued frames in the same interrupt. Returns the new ring
    /// cursor to program and the transmit submissions to perform.
    pub fn on_irq(
        &mut self,
        irq: u8,
        ring: &Vec<u8>,
        capr: usize,
        cbr: usize,
        free: &[bool; 4],
    ) -> (r: Option<(usize, Vec<TxSend>)>)
        requires
            old(self).tx_i < TX_SLOT_COUNT,
            irq == old(self).irq ==> RX_RING_LEN <= ring@.len() <= 65536,
            irq == old(self).irq ==> capr < RX_RING_LEN && cbr < RX_RING_LEN,
            irq == old(self).irq ==> frames_ok(
                ring@,
                capr as int,
                cbr as int,
                RX_PARSE_FUEL as nat,
            ),
        ensures
            irq != old(self).irq ==> r is None && *final(self) == *old(self),
            irq == old(self).irq ==> {
                let delivered = deliver_all(
                    old(self).resources@.channels,
                    parsed_frames(ring@, capr as int, cbr as int, RX_PARSE_FUEL as nat),
                );
                let drained = drain_spec(delivered, old(self).tx_i as int, free@);
                &&& r is Some
                &&& r->Some_0.0 == cbr
                &&& final(self).resources@.channels == drained.0
                &&& final(self).tx_i as int == drained.1
                &&& tx_views(r->Some_0.1@) =~= drained.2
            },
            final(self).resources@.next_id == old(self).resources@.next_id,
            final(self).tx_i < TX_SLOT_COUNT,
            final(self).irq == old(self).irq,
            old(self).wf() ==> final(self).wf(),
    {
        if irq == self.irq {
            let new_cursor = self.receive_inbound(ring, capr, cbr);
            let sends = self.send_outbound(free);
            Some((new_cursor, sends))
        } else {
            None
        }
    }
}

} // verus!
