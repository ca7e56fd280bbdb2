//! Channel registry: the set of open handles attached to one device.
//!
//! Each attach hands out a fresh numeric handle (an arena-with-indices
//! pattern replacing pointer identity); detach removes exactly the entry
//! carrying the handle. The interrupt handler iterates the registry for
//! fan-out and fan-in, so every mutation from task context must run under
//! the kernel's critical section.

use vstd::prelude::*;

use crate::frames::{byte_vec_views, FrameQueue};
use crate::tx::{chan_pop, scan_pass, TX_FRAME_MAX};

verus! {

/// One open handle's state: the frames received for this consumer and the
/// frames this consumer has submitted for transmission.
pub struct Channel {
    pub(crate) id: u64,
    pub(crate) inbound: FrameQueue,
    pub(crate) outbound: FrameQueue,
}

/// Mathematical model of a channel.
pub ghost struct ChannelView {
    pub id: u64,
    pub inbound: Seq<Seq<u8>>,
    pub outbound: Seq<Seq<u8>>,
}

impl View for Channel {
    type V = ChannelView;

    closed spec fn view(&self) -> ChannelView {
        ChannelView { id: self.id, inbound: self.inbound@, outbound: self.outbound@ }
    }
}

/// Model of a sequence of channels.
pub open spec fn channel_views(s: Seq<Channel>) -> Seq<ChannelView> {
    Seq::new(s.len(), |i: int| s[i]@)
}

/// `s` with every entry carrying handle `h` removed; the order of the other
/// entries is kept.
pub open spec fn without_id(s: Seq<ChannelView>, h: u64) -> Seq<ChannelView>
    decreases s.len(),
{
    if s.len() == 0 {
        Seq::empty()
    } else {
        let rest = without_id(s.drop_last(), h);
        if s.last().id == h {
            rest
        } else {
            rest.push(s.last())
        }
    }
}

/// No entry of `without_id(s, h)` carries handle `h`, and every other entry
/// of `s` is kept unchanged, in order.
pub proof fn lemma_without_id_absent(s: Seq<ChannelView>, h: u64)
    ensures
        forall|i: int| 0 <= i < without_id(s, h).len() ==> #[trigger] without_id(s, h)[i].id != h,
        forall|i: int|
            0 <= i < without_id(s, h).len() ==> exists|j: int|
                0 <= j < s.len() && s[j] == #[trigger] without_id(s, h)[i],
    decreases s.len(),
{
    if s.len() > 0 {
        lemma_without_id_absent(s.drop_last(), h);
        let r = without_id(s.drop_last(), h);
        assert forall|i: int| 0 <= i < without_id(s, h).len() implies #[trigger] without_id(
            s,
            h,
        )[i].id != h by {
            if i < r.len() {
                assert(without_id(s, h)[i] == r[i]);
            } else {
                assert(s.last().id != h);
                assert(without_id(s, h)[i] == s.last());
            }
        }
        assert forall|i: int| 0 <= i < without_id(s, h).len() implies exists|j: int|
            0 <= j < s.len() && s[j] == #[trigger] without_id(s, h)[i] by {
            if i < r.len() {
                let j = choose|j: int| 0 <= j < s.drop_last().len() && s.drop_last()[j] == r[i];
                assert(s[j] == without_id(s, h)[i]);
            } else {
                assert(s[s.len() - 1] == without_id(s, h)[i]);
            }
        }
    }
}

/// Removal keeps well-formedness: distinct handles stay distinct and stay
/// below the next handle to be issued.
pub proof fn lemma_without_id_preserves_wf(s: Seq<ChannelView>, h: u64, n: u64)
    requires
        forall|i: int| 0 <= i < s.len() ==> #[trigger] s[i].id < n,
        forall|i: int, j: int| 0 <= i < j < s.len() ==> s[i].id != s[j].id,
    ensures
        forall|i: int| 0 <= i < without_id(s, h).len() ==> #[trigger] without_id(s, h)[i].id < n,
        forall|i: int, j: int|
            0 <= i < j < without_id(s, h).len() ==> without_id(s, h)[i].id != without_id(
                s,
                h,
            )[j].id,
    decreases s.len(),
{
    if s.len() > 0 {
        lemma_without_id_preserves_wf(s.drop_last(), h, n);
        lemma_without_id_absent(s.drop_last(), h);
        let r = without_id(s, h);
        let rest = without_id(s.drop_last(), h);
        if s.last().id != h {
            assert forall|i: int, j: int| 0 <= i < j < r.len() implies r[i].id != r[j].id by {
                if j == r.len() - 1 {
                    let m = choose|m: int|
                        0 <= m < s.drop_last().len() && s.drop_last()[m] == rest[i];
                    assert(s[m] == rest[i]);
                    assert(s[m].id != s.last().id);
                }
            }
        }
    }
}

/// Two channel lists with the same handles at the same positions satisfy
/// the same handle-uniqueness facts.
pub proof fn lemma_wf_same_ids(a: Seq<ChannelView>, b: Seq<ChannelView>, n: u64)
    requires
        a.len() == b.len(),
        forall|i: int| 0 <= i < a.len() ==> #[trigger] a[i].id == #[trigger] b[i].id,
        forall|i: int| 0 <= i < a.len() ==> #[trigger] a[i].id < n,
        forall|i: int, j: int| 0 <= i < j < a.len() ==> a[i].id != a[j].id,
    ensures
        forall|i: int| 0 <= i < b.len() ==> #[trigger] b[i].id < n,
        forall|i: int, j: int| 0 <= i < j < b.len() ==> b[i].id != b[j].id,
{
    assert forall|i: int| 0 <= i < b.len() implies #[trigger] b[i].id < n by {
        assert(a[i].id == b[i].id);
    }
    assert forall|i: int, j: int| 0 <= i < j < b.len() implies b[i].id != b[j].id by {
        assert(a[i].id == b[i].id);
        assert(a[j].id == b[j].id);
    }
}

/// The set of channels currently attached to one device.
pub struct Registry {
    pub(crate) channels: Vec<Channel>,
    pub(crate) next_id: u64,
}

/// Mathematical model of a registry.
pub ghost struct RegistryView {
    pub channels: Seq<ChannelView>,
    pub next_id: u64,
}

impl RegistryView {
    /// Handles are issued in increasing order and never reused, so all live
    /// handles are distinct and below the next one to be issued.
    pub open spec fn wf(self) -> bool {
        &&& forall|i: int|
            0 <= i < self.channels.len() ==> #[trigger] self.channels[i].id < self.next_id
        &&& forall|i: int, j: int|
            0 <= i < j < self.channels.len() ==> self.channels[i].id != self.channels[j].id
    }
}

impl View for Registry {
    type V = RegistryView;

    closed spec fn view(&self) -> RegistryView {
        RegistryView { channels: channel_views(self.channels@), next_id: self.next_id }
    }
}

impl Registry {
    /// Creates an empty registry.
    pub fn new() -> (r: Registry)
        ensures
            r@.channels =~= Seq::<ChannelView>::empty(),
            r@.next_id == 0,
            r@.wf(),
    {
        Registry { channels: Vec::new(), next_id: 0 }
    }

    /// Number of attached channels.
    pub fn len(&self) -> (n: usize)
        ensures
            n == self@.channels.len(),
    {
        self.channels.len()
    }

    /// Attaches a fresh channel with empty queues and returns its handle.
    pub fn attach(&mut self) -> (h: u64)
        requires
            old(self)@.wf(),
            old(self)@.next_id < u64::MAX,
        ensures
            h == old(self)@.next_id,
            final(self)@.next_id == old(self)@.next_id + 1,
            final(self)@.channels =~= old(self)@.channels.push(
                ChannelView { id: h, inbound: Seq::empty(), outbound: Seq::empty() },
            ),
            final(self)@.wf(),
    {
        let h = self.next_id;
        let c = Channel { id: h, inbound: FrameQueue::new(), outbound: FrameQueue::new() };
        self.channels.push(c);
        self.next_id = self.next_id + 1;
        proof {
            let pre = old(self)@.channels;
            let now = self@.channels;
            assert(now =~= pre.push(
                ChannelView { id: h, inbound: Seq::empty(), outbound: Seq::empty() },
            ));
            assert forall|i: int| 0 <= i < now.len() implies #[trigger] now[i].id
                < self@.next_id by {
                if i < pre.len() {
                    assert(now[i] == pre[i]);
                }
            }
            assert forall|i: int, j: int| 0 <= i < j < now.len() implies now[i].id
                != now[j].id by {
                if j < pre.len() {
                    assert(now[i] == pre[i] && now[j] == pre[j]);
                } else {
                    assert(now[i] == pre[i] && now[j].id == h);
                }
            }
        }
        h
    }

    /// Removes every entry carrying handle `h` (at most one in a well-formed
    /// registry), keeping all other entries in order.
    pub fn detach(&mut self, h: u64)
        ensures
            final(self)@.channels =~= without_id(old(self)@.channels, h),
            final(self)@.next_id == old(self)@.next_id,
            old(self)@.wf() ==> final(self)@.wf(),
    {
        let ghost orig = channel_views(self.channels@);
        let ghost nid = self.next_id;
        let mut kept: Vec<Channel> = Vec::new();
        while self.channels.len() > 0
            invariant
                self.next_id == nid,
                self.channels@.len() <= orig.len(),
                channel_views(self.channels@) =~= orig.skip(orig.len() - self.channels@.len()),
                channel_views(kept@) =~= without_id(
                    orig.take(orig.len() - self.channels@.len()),
                    h,
                ),
            decreases self.channels.len(),
        {
            let ghost k = orig.len() - self.channels@.len();
            let ghost pre = channel_views(self.channels@);
            let c = self.channels.remove(0);
            proof {
                assert(pre[0] == orig.skip(k)[0]);
                assert(orig.skip(k)[0] == orig[k]);
                assert(c@ == orig[k]);
                assert forall|i: int| 0 <= i < self.channels@.len() implies channel_views(
                    self.channels@,
                )[i] == orig.skip(k + 1)[i] by {
                    assert(channel_views(self.channels@)[i] == self.channels@[i]@);
                    assert(self.channels@[i]@ == pre[i + 1]);
                    assert(pre[i + 1] == orig.skip(k)[i + 1]);
                    assert(orig.skip(k)[i + 1] == orig[k + 1 + i]);
                    assert(orig.skip(k + 1)[i] == orig[k + 1 + i]);
                }
                assert(channel_views(self.channels@) =~= orig.skip(k + 1));
                assert(orig.take(k + 1).drop_last() =~= orig.take(k));
                assert(orig.take(k + 1).last() == orig[k]);
            }
            if c.id != h {
                let ghost kept_before = channel_views(kept@);
                kept.push(c);
                proof {
                    assert(channel_views(kept@) =~= kept_before.push(orig[k]));
                }
            }
        }
        proof {
            assert(orig.take(orig.len() as int) =~= orig);
            if old(self)@.wf() {
                assert(orig == old(self)@.channels);
                assert(forall|i: int| 0 <= i < orig.len() ==> #[trigger] orig[i].id < nid);
                lemma_without_id_preserves_wf(orig, h, nid);
            }
        }
        self.channels = kept;
    }

    /// Whether any attached channel has outbound frames waiting: the cheap
    /// pre-check that lets transmit processing skip the hardware registers
    /// entirely when there is nothing to send.
    pub fn any_outbound(&self) -> (b: bool)
        ensures
            b <==> exists|i: int|
                0 <= i < self@.channels.len() && #[trigger] self@.channels[i].outbound.len() > 0,
    {
        let mut i: usize = 0;
        while i < self.channels.len()
            invariant
                i <= self@.channels.len(),
                forall|j: int| 0 <= j < i ==> #[trigger] self@.channels[j].outbound.len() == 0,
            decreases self@.channels.len() - i,
        {
            proof {
                assert(self@.channels[i as int] == self.channels@[i as int]@);
            }
            if self.channels[i].outbound.len() > 0 {
                proof {
                    assert(self@.channels[i as int].outbound.len() > 0);
                }
                return true;
            }
            i = i + 1;
        }
        false
    }

    /// Fan-out: appends an independent copy of every frame, in order, to
    /// the inbound queue of every attached channel.
    pub fn deliver_to_all(&mut self, frames: &Vec<Vec<u8>>)
        ensures
            final(self)@.channels =~= deliver_all(old(self)@.channels, byte_vec_views(frames@)),
            final(self)@.next_id == old(self)@.next_id,
    {
        let ghost orig = channel_views(self.channels@);
        let ghost fs = byte_vec_views(frames@);
        let ghost nid = self.next_id;
        let mut j: usize = 0;
        while j < self.channels.len()
            invariant
                j <= self.channels@.len(),
                self.channels@.len() == orig.len(),
                self.next_id == nid,
                fs == byte_vec_views(frames@),
                forall|i: int|
                    0 <= i < j ==> channel_views(self.channels@)[i] == (ChannelView {
                        inbound: orig[i].inbound + fs,
                        ..orig[i]
                    }),
                forall|i: int|
                    j <= i < orig.len() ==> channel_views(self.channels@)[i] == orig[i],
            decreases orig.len() - j,
        {
            let ghost pre = channel_views(self.channels@);
            let ghost prevec = self.channels@;
            let mut c = self.channels.remove(j);
            c.inbound.push_all_copies(frames);
            self.channels.insert(j, c);
            proof {
                assert(self.channels@ =~= prevec.update(j as int, c));
                assert forall|i: int| 0 <= i < orig.len() implies channel_views(self.channels@)[i]
                    == pre.update(j as int, c@)[i] by {
                    assert(channel_views(self.channels@)[i] == self.channels@[i]@);
                    if i != j {
                        assert(self.channels@[i] == prevec[i]);
                    }
                }
                let ghost oj = orig[j as int];
                assert(c@ == (ChannelView { inbound: oj.inbound + fs, ..oj }));
            }
            j = j + 1;
        }
        proof {
            assert(channel_views(self.channels@) =~= deliver_all(orig, fs));
        }
    }

    /// One fan-in scan: finds the first transmissible outbound frame across
    /// the attached channels, popping (and dropping) any oversized frame
    /// met on the way, exactly as `scan_pass` describes.
    pub fn scan_for_frame(&mut self) -> (r: Option<Vec<u8>>)
        ensures
            final(self)@.next_id == old(self)@.next_id,
            (final(self)@.channels, match r {
                Option::Some(f) => Option::Some(f@),
                Option::None => Option::None,
            }) == scan_pass(old(self)@.channels, 0),
    {
        let ghost orig = channel_views(self.channels@);
        let ghost nid = self.next_id;
        let mut k: usize = 0;
        while k < self.channels.len()
            invariant
                k <= self.channels@.len(),
                self.next_id == nid,
                scan_pass(orig, 0) == scan_pass(channel_views(self.channels@), k as int),
                channel_views(self.channels@).len() == orig.len(),
            decreases self.channels@.len() - k,
        {
            let ghost pre = channel_views(self.channels@);
            let ghost prevec = self.channels@;
            let has_frame = self.channels[k].outbound.len() > 0;
            proof {
                assert(pre[k as int] == self.channels@[k as int]@);
            }
            if has_frame {
                let mut c = self.channels.remove(k);
                let popped = c.outbound.pop();
                self.channels.insert(k, c);
                proof {
                    assert(self.channels@ =~= prevec.update(k as int, c));
                    assert forall|i: int| 0 <= i < pre.len() implies channel_views(
                        self.channels@,
                    )[i] == pre.update(k as int, chan_pop(pre[k as int]))[i] by {
                        assert(channel_views(self.channels@)[i] == self.channels@[i]@);
                        if i != k {
                            assert(self.channels@[i] == prevec[i]);
                        }
                    }
                    assert(channel_views(self.channels@) =~= pre.update(
                        k as int,
                        chan_pop(pre[k as int]),
                    ));
                }
                match popped {
                    Option::Some(bytes) => {
                        if bytes.len() < TX_FRAME_MAX {
                            proof {
                                assert(scan_pass(pre, k as int) == (
                                    channel_views(self.channels@),
                                    Option::Some(bytes@),
                                ));
                                assert(orig == old(self)@.channels);
                                assert(self@.channels == channel_views(self.channels@));
                                assert((self@.channels, Option::Some(bytes@)) == scan_pass(
                                    old(self)@.channels,
                                    0,
                                ));
                                assert(self@.next_id == nid);
                            }
                            return Some(bytes);
                        }
                    },
                    Option::None => {
                        proof {
                            assert(false);
                        }
                    },
                }
            }
            k = k + 1;
        }
        None
    }
}

impl Registry {
    /// Pops the front frame of the inbound queue of the channel carrying
    /// handle `h`, or returns `None` when nothing is waiting.
    pub fn pop_inbound(&mut self, h: u64) -> (r: Option<Vec<u8>>)
        requires
            old(self)@.wf(),
            has_channel(old(self)@, h),
        ensures
            final(self)@.next_id == old(self)@.next_id,
            final(self)@.channels.len() == old(self)@.channels.len(),
            final(self)@.wf(),
            forall|i: int|
                0 <= i < old(self)@.channels.len() && old(self)@.channels[i].id != h
                    ==> final(self)@.channels[i] == #[trigger] old(self)@.channels[i],
            forall|i: int|
                0 <= i < old(self)@.channels.len() && #[trigger] old(self)@.channels[i].id == h
                    ==> {
                    let c = old(self)@.channels[i];
                    if c.inbound.len() == 0 {
                        r is None && final(self)@.channels[i] == c
                    } else {
                        r is Some && r->Some_0@ == c.inbound[0] && final(self)@.channels[i]
                            == (ChannelView { inbound: c.inbound.drop_first(), ..c })
                    }
                },
    {
        let ghost orig = channel_views(self.channels@);
        let ghost nid = self.next_id;
        let mut i: usize = 0;
        while i < self.channels.len()
            invariant
                i <= orig.len(),
                self.next_id == nid,
                channel_views(self.channels@) == orig,
                forall|j: int| 0 <= j < i ==> #[trigger] orig[j].id != h,
            decreases orig.len() - i,
        {
            proof {
                assert(orig[i as int] == self.channels@[i as int]@);
            }
            if self.channels[i].id == h {
                let ghost prevec = self.channels@;
                let mut c = self.channels.remove(i);
                let r = c.inbound.pop();
                self.channels.insert(i, c);
                proof {
                    assert(self.channels@ =~= prevec.update(i as int, c));
                    assert forall|j: int| 0 <= j < orig.len() implies channel_views(
                        self.channels@,
                    )[j] == orig.update(i as int, c@)[j] by {
                        assert(channel_views(self.channels@)[j] == self.channels@[j]@);
                        if j != i {
                            assert(self.channels@[j] == prevec[j]);
                        }
                    }
                    assert(channel_views(self.channels@) =~= orig.update(i as int, c@));
                    lemma_wf_same_ids(orig, channel_views(self.channels@), nid);
                }
                return r;
            }
            i = i + 1;
        }
        proof {
            assert(false);
        }
        None
    }

    /// Appends a frame to the outbound queue of the channel carrying
    /// handle `h`.
    pub fn push_outbound(&mut self, h: u64, frame: Vec<u8>)
        requires
            old(self)@.wf(),
            has_channel(old(self)@, h),
        ensures
            final(self)@.next_id == old(self)@.next_id,
            final(self)@.channels.len() == old(self)@.channels.len(),
            final(self)@.wf(),
            forall|i: int|
                0 <= i < old(self)@.channels.len() && old(self)@.channels[i].id != h
                    ==> final(self)@.channels[i] == #[trigger] old(self)@.channels[i],
            forall|i: int|
                0 <= i < old(self)@.channels.len() && #[trigger] old(self)@.channels[i].id == h
                    ==> {
                    let c = old(self)@.channels[i];
                    final(self)@.channels[i] == (ChannelView {
                        outbound: c.outbound.push(frame@),
                        ..c
                    })
                },
    {
        let ghost orig = channel_views(self.channels@);
        let ghost nid = self.next_id;
        let mut i: usize = 0;
        while i < self.channels.len()
            invariant
                i <= orig.len(),
                self.next_id == nid,
                channel_views(self.channels@) == orig,
                forall|j: int| 0 <= j < i ==> #[trigger] orig[j].id != h,
            decreases orig.len() - i,
        {
            proof {
                assert(orig[i as int] == self.channels@[i as int]@);
            }
            if self.channels[i].id == h {
                let ghost prevec = self.channels@;
                let mut c = self.channels.remove(i);
                c.outbound.push(frame);
                self.channels.insert(i, c);
                proof {
                    assert(self.channels@ =~= prevec.update(i as int, c));
                    assert forall|j: int| 0 <= j < orig.len() implies channel_views(
                        self.channels@,
                    )[j] == orig.update(i as int, c@)[j] by {
                        assert(channel_views(self.channels@)[j] == self.channels@[j]@);
                        if j != i {
                            assert(self.channels@[j] == prevec[j]);
                        }
                    }
                    assert(channel_views(self.channels@) =~= orig.update(i as int, c@));
                    lemma_wf_same_ids(orig, channel_views(self.channels@), nid);
                }
                return ;
            }
            i = i + 1;
        }
        proof {
            assert(false);
        }
    }

    /// Number of frames waiting in the outbound queue of the channel
    /// carrying handle `h`.
    pub fn outbound_len(&self, h: u64) -> (n: usize)
        requires
            self@.wf(),
            has_channel(self@, h),
        ensures
            forall|i: int|
                0 <= i < self@.channels.len() && #[trigger] self@.channels[i].id == h ==> n
                    == self@.channels[i].outbound.len(),
    {
        let mut i: usize = 0;
        while i < self.channels.len()
            invariant
                i <= self@.channels.len(),
                forall|j: int| 0 <= j < i ==> #[trigger] self@.channels[j].id != h,
            decreases self@.channels.len() - i,
        {
            proof {
                assert(self@.channels[i as int] == self.channels@[i as int]@);
            }
            if self.channels[i].id == h {
                let m = self.channels[i].outbound.len();
                proof {
                    assert(self@.channels[i as int].outbound.len() == m);
                }
                return m;
            }
            i = i + 1;
        }
        proof {
            assert(false);
        }
        0
    }
}

/// Every channel with the frames `fs` appended to its inbound queue:
/// the effect of one interrupt-driven fan-out on the registry.
pub open spec fn deliver_all(chs: Seq<ChannelView>, fs: Seq<Seq<u8>>) -> Seq<ChannelView> {
    Seq::new(chs.len(), |i: int| ChannelView { inbound: chs[i].inbound + fs, ..chs[i] })
}

/// The channels with `frame` appended to the outbound queue of the one
/// carrying handle `h`: the effect of one `write` on the registry.
pub open spec fn push_to_handle(chs: Seq<ChannelView>, h: u64, frame: Seq<u8>) -> Seq<ChannelView> {
    Seq::new(
        chs.len(),
        |i: int|
            if chs[i].id == h {
                ChannelView { outbound: chs[i].outbound.push(frame), ..chs[i] }
            } else {
                chs[i]
            },
    )
}

/// Delivery visibility: a fanned-out frame reaches every channel
/// registered at delivery time — each as its own copy at the end of its
/// own inbound queue — while a channel attached afterward (its inbound
/// queue starts empty) holds none of the delivered frames.
pub proof fn lemma_delivery_visibility(
    chs: Seq<ChannelView>,
    fs: Seq<Seq<u8>>,
    fresh: ChannelView,
)
    requires
        fresh.inbound.len() == 0,
    ensures
        forall|i: int|
            0 <= i < chs.len() ==> (#[trigger] deliver_all(chs, fs)[i]).inbound == chs[i].inbound
                + fs,
        forall|i: int, k: int|
            0 <= i < chs.len() && 0 <= k < fs.len() ==> #[trigger] deliver_all(
                chs,
                fs,
            )[i].inbound.contains(fs[k]),
        forall|k: int| 0 <= k < fs.len() ==> !fresh.inbound.contains(#[trigger] fs[k]),
{
    assert forall|i: int, k: int|
        0 <= i < chs.len() && 0 <= k < fs.len() implies #[trigger] deliver_all(
        chs,
        fs,
    )[i].inbound.contains(fs[k]) by {
        let q = deliver_all(chs, fs)[i].inbound;
        assert(q[chs[i].inbound.len() + k] == fs[k]);
    }
}

/// Detach safety: a channel detached before a fan-out is absent from the
/// registry the fan-out delivers to, so it never receives those frames,
/// and no dangling entry with its handle remains.
pub proof fn lemma_detach_then_deliver(chs: Seq<ChannelView>, h: u64, fs: Seq<Seq<u8>>)
    ensures
        deliver_all(without_id(chs, h), fs).len() == without_id(chs, h).len(),
        forall|i: int|
            0 <= i < without_id(chs, h).len() ==> (#[trigger] deliver_all(
                without_id(chs, h),
                fs,
            )[i]).id != h,
{
    lemma_without_id_absent(chs, h);
}

/// Whether some attached channel carries handle `h`.
pub open spec fn has_channel(r: RegistryView, h: u64) -> bool {
    exists|i: int| 0 <= i < r.channels.len() && #[trigger] r.channels[i].id == h
}

} // verus!
