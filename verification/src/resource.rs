//! One open handle to the device: the consumer-facing capability set.
//!
//! A resource is a stable handle issued by the registry at attach time;
//! the queues it names live in the device's registry, so every operation
//! takes the owning device. `read`, `read_to_end` and `flush` are single
//! polls of operations that block at the consumer level: the kernel shell
//! loops, yielding to the cooperative scheduler between polls, until a
//! poll succeeds. No operation here blocks or touches hardware registers.

use vstd::prelude::*;
use vstd::string::StringExecFns;

use crate::device::RTL8139;
use crate::frames::copy_frame;
use crate::registry::{
    has_channel, lemma_without_id_absent, push_to_handle, without_id, ChannelView,
};
use crate::tx::{drain_spec, tx_views, TxSend, TX_SLOT_COUNT};

verus! {

/// Seek targets, mirroring the file-scheme interface. This channel type
/// has no notion of a position, so every seek fails.
pub enum ResourceSeek {
    /// From the start of the resource.
    Start(usize),
    /// Relative to the current position.
    Current(isize),
    /// Relative to the end.
    End(isize),
}

/// The kind a resource reports for `stat`.
#[derive(Clone, Copy, PartialEq, Eq, Structural, Debug)]
pub enum ResourceType {
    /// An ordinary file-like resource.
    File,
}

/// One open handle to an RTL8139 device.
pub struct RTL8139Resource {
    /// The registry handle naming this channel inside the owning device.
    pub handle: u64,
}

impl RTL8139 {
    /// The scheme dispatcher's `open` for this device: the URL carries no
    /// further information for this channel type, so opening is exactly an
    /// attach.
    pub fn open(&mut self, _url: &str) -> (r: RTL8139Resource)
        requires
            old(self).wf(),
            old(self).resources@.next_id < u64::MAX,
        ensures
            r.handle == old(self).resources@.next_id,
            final(self).resources@.channels =~= old(self).resources@.channels.push(
                ChannelView { id: r.handle, inbound: Seq::empty(), outbound: Seq::empty() },
            ),
            final(self).resources@.next_id == old(self).resources@.next_id + 1,
            final(self).wf(),
            has_channel(final(self).resources@, r.handle),
    {
        RTL8139Resource::new(self)
    }
}

impl RTL8139Resource {
    /// Opens a new channel against the device: attaches a fresh entry with
    /// empty queues to the registry and wraps its handle. Always succeeds;
    /// there is no admission control on channel count.
    pub fn new(nic: &mut RTL8139) -> (r: RTL8139Resource)
        requires
            old(nic).wf(),
            old(nic).resources@.next_id < u64::MAX,
        ensures
            r.handle == old(nic).resources@.next_id,
            final(nic).resources@.channels =~= old(nic).resources@.channels.push(
                ChannelView { id: r.handle, inbound: Seq::empty(), outbound: Seq::empty() },
            ),
            final(nic).resources@.next_id == old(nic).resources@.next_id + 1,
            final(nic).wf(),
            has_channel(final(nic).resources@, r.handle),
            final(nic).tx_i == old(nic).tx_i,
            final(nic).bus == old(nic).bus && final(nic).slot == old(nic).slot && final(nic).func
                == old(nic).func,
            final(nic).base == old(nic).base && final(nic).memory_mapped == old(
                nic,
            ).memory_mapped && final(nic).irq == old(nic).irq,
    {
        let h = nic.resources.attach();
        proof {
            let chs = nic.resources@.channels;
            assert(chs[chs.len() - 1].id == h);
        }
        RTL8139Resource { handle: h }
    }

    /// The URL this channel reports for identity.
    pub fn url(&self) -> (s: String)
        ensures
            s@ == "network://"@,
    {
        String::from_str("network://")
    }

    /// The resource kind reported to the file-scheme dispatcher.
    pub fn stat(&self) -> (t: ResourceType)
        ensures
            t == ResourceType::File,
    {
        ResourceType::File
    }

    /// One poll of a blocking read. Pops the front inbound frame, if one is
    /// pending, and copies it into `buf`: at most `buf.len()` bytes are
    /// written, and the bytes of a frame longer than `buf` beyond that are
    /// dropped, not buffered for a later read — truncation is silent, a
    /// deliberate, documented choice. Returns the copied length, or
    /// `None` when no frame is pending, in which case the shell yields to
    /// the scheduler and polls again.
    pub fn read(&self, nic: &mut RTL8139, buf: &mut Vec<u8>) -> (r: Option<usize>)
        requires
            old(nic).wf(),
            has_channel(old(nic).resources@, self.handle),
        ensures
            final(nic).wf(),
            has_channel(final(nic).resources@, self.handle),
            final(nic).resources@.next_id == old(nic).resources@.next_id,
            final(nic).resources@.channels.len() == old(nic).resources@.channels.len(),
            final(nic).tx_i == old(nic).tx_i,
            final(buf)@.len() == old(buf)@.len(),
            forall|i: int|
                0 <= i < old(nic).resources@.channels.len() && old(
                    nic,
                ).resources@.channels[i].id != self.handle ==> final(nic).resources@.channels[i]
                    == #[trigger] old(nic).resources@.channels[i],
            forall|i: int|
                0 <= i < old(nic).resources@.channels.len() && #[trigger] old(
                    nic,
                ).resources@.channels[i].id == self.handle ==> {
                    let c = old(nic).resources@.channels[i];
                    if c.inbound.len() == 0 {
                        r is None && final(nic).resources@.channels[i] == c && final(buf)@ == old(
                            buf,
                        )@
                    } else {
                        let n = if c.inbound[0].len() < old(buf)@.len() {
                            c.inbound[0].len() as int
                        } else {
                            old(buf)@.len() as int
                        };
                        &&& r == Option::Some(n as usize)
                        &&& final(nic).resources@.channels[i] == (ChannelView {
                            inbound: c.inbound.drop_first(),
                            ..c
                        })
                        &&& forall|j: int| 0 <= j < n ==> final(buf)@[j] == c.inbound[0][j]
                        &&& forall|j: int|
                            n <= j < old(buf)@.len() ==> final(buf)@[j] == old(buf)@[j]
                    }
                },
    {
        let r = match nic.resources.pop_inbound(self.handle) {
            Option::Some(frame) => {
                let mut i: usize = 0;
                while i < buf.len() && i < frame.len()
                    invariant
                        i <= buf@.len(),
                        i <= frame@.len(),
                        buf@.len() == old(buf)@.len(),
                        forall|j: int| 0 <= j < i ==> buf@[j] == frame@[j],
                        forall|j: int| i <= j < buf@.len() ==> buf@[j] == old(buf)@[j],
                    decreases buf@.len() - i,
                {
                    buf[i] = frame[i];
                    i = i + 1;
                }
                Some(i)
            },
            Option::None => None,
        };
        proof {
            let w = choose|i: int|
                0 <= i < old(nic).resources@.channels.len() && #[trigger] old(
                    nic,
                ).resources@.channels[i].id == self.handle;
            assert(nic.resources@.channels[w].id == self.handle);
        }
        r
    }

    /// One poll of a blocking whole-frame read. Pops the front inbound
    /// frame, if one is pending, appends all of it to `buf` without
    /// truncation and returns its length; `None` when no frame is pending
    /// (the shell yields and polls again).
    pub fn read_to_end(&self, nic: &mut RTL8139, buf: &mut Vec<u8>) -> (r: Option<usize>)
        requires
            old(nic).wf(),
            has_channel(old(nic).resources@, self.handle),
        ensures
            final(nic).wf(),
            has_channel(final(nic).resources@, self.handle),
            final(nic).resources@.next_id == old(nic).resources@.next_id,
            final(nic).resources@.channels.len() == old(nic).resources@.channels.len(),
            final(nic).tx_i == old(nic).tx_i,
            forall|i: int|
                0 <= i < old(nic).resources@.channels.len() && old(
                    nic,
                ).resources@.channels[i].id != self.handle ==> final(nic).resources@.channels[i]
                    == #[trigger] old(nic).resources@.channels[i],
            forall|i: int|
                0 <= i < old(nic).resources@.channels.len() && #[trigger] old(
                    nic,
                ).resources@.channels[i].id == self.handle ==> {
                    let c = old(nic).resources@.channels[i];
                    if c.inbound.len() == 0 {
                        r is None && final(nic).resources@.channels[i] == c && final(buf)@ == old(
                            buf,
                        )@
                    } else {
                        &&& r == Option::Some(c.inbound[0].len() as usize)
                        &&& final(nic).resources@.channels[i] == (ChannelView {
                            inbound: c.inbound.drop_first(),
                            ..c
                        })
                        &&& final(buf)@ == old(buf)@ + c.inbound[0]
                    }
                },
    {
        let r = match nic.resources.pop_inbound(self.handle) {
            Option::Some(frame) => {
                let mut i: usize = 0;
                while i < frame.len()
                    invariant
                        i <= frame@.len(),
                        buf@ =~= old(buf)@ + frame@.take(i as int),
                    decreases frame@.len() - i,
                {
                    buf.push(frame[i]);
                    proof {
                        assert(buf@ =~= old(buf)@ + frame@.take(i + 1));
                    }
                    i = i + 1;
                }
                proof {
                    assert(frame@.take(frame@.len() as int) =~= frame@);
                }
                Some(frame.len())
            },
            Option::None => None,
        };
        proof {
            let w = choose|i: int|
                0 <= i < old(nic).resources@.channels.len() && #[trigger] old(
                    nic,
                ).resources@.channels[i].id == self.handle;
            assert(nic.resources@.channels[w].id == self.handle);
        }
        r
    }

    /// Submits a frame: copies `buf` into this channel's outbound queue and
    /// immediately runs the device's transmit processing against the slot
    /// availability the shell read (the opportunistic drain, saving a wait
    /// for the next interrupt when a slot is already free). Always reports
    /// acceptance of the full byte count — there is no backpressure — and
    /// returns the transmit submissions for the shell to perform. Must run
    /// in the critical section.
    pub fn write(&self, nic: &mut RTL8139, buf: &Vec<u8>, free: &[bool; 4]) -> (r: (
        Option<usize>,
        Vec<TxSend>,
    ))
        requires
            old(nic).wf(),
            has_channel(old(nic).resources@, self.handle),
        ensures
            final(nic).wf(),
            r.0 == Option::Some(buf@.len() as usize),
            final(nic).resources@.channels == drain_spec(
                push_to_handle(old(nic).resources@.channels, self.handle, buf@),
                old(nic).tx_i as int,
                free@,
            ).0,
            final(nic).tx_i as int == drain_spec(
                push_to_handle(old(nic).resources@.channels, self.handle, buf@),
                old(nic).tx_i as int,
                free@,
            ).1,
            tx_views(r.1@) =~= drain_spec(
                push_to_handle(old(nic).resources@.channels, self.handle, buf@),
                old(nic).tx_i as int,
                free@,
            ).2,
            final(nic).resources@.next_id == old(nic).resources@.next_id,
    {
        let frame = copy_frame(buf);
        nic.resources.push_outbound(self.handle, frame);
        proof {
            assert(nic.resources@.channels =~= push_to_handle(
                old(nic).resources@.channels,
                self.handle,
                buf@,
            ));
        }
        let sends = nic.send_outbound(free);
        (Some(buf.len()), sends)
    }

    /// One poll of a blocking flush: reports whether this channel's
    /// outbound queue has drained to empty. While it has not, the shell
    /// yields to the scheduler and polls again; the interrupt handler (or
    /// an opportunistic drain) empties the queue as slots free up.
    pub fn flush(&self, nic: &RTL8139) -> (done: bool)
        requires
            nic.wf(),
            has_channel(nic.resources@, self.handle),
        ensures
            forall|i: int|
                0 <= i < nic.resources@.channels.len() && #[trigger] nic.resources@.channels[i].id
                    == self.handle ==> (done <==> nic.resources@.channels[i].outbound.len() == 0),
    {
        nic.resources.outbound_len(self.handle) == 0
    }

    /// Seeking is unsupported: this channel type has no position, so the
    /// result is failure regardless of the argument.
    pub fn seek(&self, _pos: ResourceSeek) -> (r: Option<usize>)
        ensures
            r is None,
    {
        None
    }

    /// Closes the handle: removes this channel from the registry before the
    /// handle is given up, unconditionally, so the device can never fan out
    /// into a closed channel. All other channels are kept in order.
    pub fn close(self, nic: &mut RTL8139)
        ensures
            final(nic).resources@.channels =~= without_id(
                old(nic).resources@.channels,
                self.handle,
            ),
            forall|i: int|
                0 <= i < final(nic).resources@.channels.len()
                    ==> #[trigger] final(nic).resources@.channels[i].id != self.handle,
            final(nic).resources@.next_id == old(nic).resources@.next_id,
            final(nic).tx_i == old(nic).tx_i,
            old(nic).wf() ==> final(nic).wf(),
    {
        let h = self.handle;
        nic.resources.detach(h);
        proof {
            lemma_without_id_absent(old(nic).resources@.channels, h);
        }
    }
}

} // verus!
