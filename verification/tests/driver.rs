//! End-to-end tests of the driver core: ring parsing and fan-out, the
//! round-robin transmit drain, the consumer capability set, and the
//! hardware initialization plans.

use rtl8139::regs::{
    bus_master_command, mac_from_registers, reset_complete, reset_sequence, startup_plan, RegWrite,
};
use rtl8139::ring::{capr_register_value, cursor_from_register, parse_ring};
use rtl8139::resource::{ResourceSeek, ResourceType, RTL8139Resource};
use rtl8139::RTL8139;

/// A fresh device with an arbitrary PCI location, port-mapped at 0xC000,
/// interrupt line 11.
fn device() -> RTL8139 {
    RTL8139::new(0, 5, 0, 0xC000, false, 11)
}

/// Builds ring contents of 10240 bytes holding the given payloads as
/// consecutive frames starting at offset 0: 2 status bytes, little-endian
/// length (payload + 4 for the CRC trailer), payload, 4 trailer bytes,
/// padded to the next 4-byte boundary. Returns the ring and the write
/// offset (CBR) after the last frame.
fn ring_with(payloads: &[&[u8]]) -> (Vec<u8>, usize) {
    let mut ring = vec![0u8; 10240];
    let mut cursor = 0usize;
    for p in payloads {
        let header = p.len() + 4;
        ring[cursor] = 0x01; // status: received OK
        ring[cursor + 1] = 0;
        ring[cursor + 2] = (header & 0xFF) as u8;
        ring[cursor + 3] = (header >> 8) as u8;
        ring[cursor + 4..cursor + 4 + p.len()].copy_from_slice(p);
        cursor = (cursor + header + 4 + 3) / 4 * 4;
        if cursor >= 8192 {
            cursor -= 8192;
        }
    }
    (ring, cursor)
}

#[test]
fn parse_ring_single_frame() {
    let payload: Vec<u8> = (0u8..46).collect();
    let (ring, cbr) = ring_with(&[&payload]);
    // header value 50 = 46 payload + 4 trailer; cursor advances past
    // header + payload + trailer (54) rounded up to 56.
    assert_eq!(cbr, 56);
    let (frames, new_cursor) = parse_ring(&ring, 0, cbr);
    assert_eq!(new_cursor, 56);
    assert_eq!(frames.len(), 1);
    assert_eq!(frames[0], payload);
}

#[test]
fn parse_ring_two_frames_in_order() {
    let a = vec![0xAAu8; 10];
    let b = vec![0xBBu8; 20];
    let (ring, cbr) = ring_with(&[&a, &b]);
    let (frames, new_cursor) = parse_ring(&ring, 0, cbr);
    assert_eq!(new_cursor, cbr);
    assert_eq!(frames.len(), 2);
    assert_eq!(frames[0], a);
    assert_eq!(frames[1], b);
}

#[test]
fn capr_register_bias() {
    // A cursor of 56 is programmed as 40; the bias wraps at the register
    // width for cursors below 16.
    assert_eq!(capr_register_value(56), 40);
    assert_eq!(capr_register_value(16), 0);
    assert_eq!(capr_register_value(0), 65520);
    assert_eq!(cursor_from_register(40), 56);
    assert_eq!(cursor_from_register(65520), 0);
}

#[test]
fn fanout_delivers_copy_to_every_channel() {
    let mut nic = device();
    let a = RTL8139Resource::new(&mut nic);
    let b = RTL8139Resource::new(&mut nic);
    let payload: Vec<u8> = (0u8..46).collect();
    let (ring, cbr) = ring_with(&[&payload]);
    let new_cursor = nic.receive_inbound(&ring, 0, cbr);
    assert_eq!(new_cursor, 56);
    // Both channels read their own copy, in full, from their own queue.
    let mut got_a = Vec::new();
    assert_eq!(a.read_to_end(&mut nic, &mut got_a), Some(46));
    assert_eq!(got_a, payload);
    let mut got_b = Vec::new();
    assert_eq!(b.read_to_end(&mut nic, &mut got_b), Some(46));
    assert_eq!(got_b, payload);
    // One frame each: the next poll finds nothing.
    assert_eq!(a.read_to_end(&mut nic, &mut got_a), None);
    assert_eq!(b.read_to_end(&mut nic, &mut got_b), None);
}

#[test]
fn fanout_keeps_ring_order() {
    let mut nic = device();
    let a = RTL8139Resource::new(&mut nic);
    let one = vec![1u8; 8];
    let two = vec![2u8; 8];
    let (ring, cbr) = ring_with(&[&one, &two]);
    nic.receive_inbound(&ring, 0, cbr);
    let mut got = Vec::new();
    assert_eq!(a.read_to_end(&mut nic, &mut got), Some(8));
    assert_eq!(got, one);
    got.clear();
    assert_eq!(a.read_to_end(&mut nic, &mut got), Some(8));
    assert_eq!(got, two);
}

#[test]
fn channel_attached_after_delivery_sees_nothing() {
    let mut nic = device();
    let early = RTL8139Resource::new(&mut nic);
    let payload = vec![7u8; 12];
    let (ring, cbr) = ring_with(&[&payload]);
    nic.receive_inbound(&ring, 0, cbr);
    let late = RTL8139Resource::new(&mut nic);
    let mut got = Vec::new();
    assert_eq!(late.read_to_end(&mut nic, &mut got), None);
    assert_eq!(early.read_to_end(&mut nic, &mut got), Some(12));
}

#[test]
fn closed_channel_never_receives() {
    let mut nic = device();
    let keep = RTL8139Resource::new(&mut nic);
    let gone = RTL8139Resource::new(&mut nic);
    assert_eq!(nic.resources.len(), 2);
    gone.close(&mut nic);
    assert_eq!(nic.resources.len(), 1);
    let payload = vec![9u8; 16];
    let (ring, cbr) = ring_with(&[&payload]);
    nic.receive_inbound(&ring, 0, cbr);
    let mut got = Vec::new();
    assert_eq!(keep.read_to_end(&mut nic, &mut got), Some(16));
    assert_eq!(got, payload);
}

#[test]
fn bounded_read_truncates_long_frame() {
    let mut nic = device();
    let r = RTL8139Resource::new(&mut nic);
    let payload: Vec<u8> = (0u8..46).collect();
    let (ring, cbr) = ring_with(&[&payload]);
    nic.receive_inbound(&ring, 0, cbr);
    let mut buf = vec![0u8; 10];
    assert_eq!(r.read(&mut nic, &mut buf), Some(10));
    assert_eq!(buf, payload[..10].to_vec());
    // The remainder of the frame is dropped, not buffered.
    let mut rest = vec![0u8; 64];
    assert_eq!(r.read(&mut nic, &mut rest), None);
}

#[test]
fn bounded_read_short_frame_leaves_tail() {
    let mut nic = device();
    let r = RTL8139Resource::new(&mut nic);
    let payload = vec![5u8; 4];
    let (ring, cbr) = ring_with(&[&payload]);
    nic.receive_inbound(&ring, 0, cbr);
    let mut buf = vec![0xEEu8; 8];
    assert_eq!(r.read(&mut nic, &mut buf), Some(4));
    assert_eq!(&buf[..4], &payload[..]);
    assert_eq!(&buf[4..], &[0xEE; 4]);
}

#[test]
fn read_polls_until_frame_arrives() {
    let mut nic = device();
    let a = RTL8139Resource::new(&mut nic);
    let b = RTL8139Resource::new(&mut nic);
    let mut buf = vec![0u8; 64];
    // No frame pending: both blocked readers' polls report nothing and
    // the shell would yield to the scheduler.
    assert_eq!(a.read(&mut nic, &mut buf), None);
    assert_eq!(b.read(&mut nic, &mut buf), None);
    // One frame arrives: each reader is unblocked by its own copy.
    let payload = vec![3u8; 30];
    let (ring, cbr) = ring_with(&[&payload]);
    nic.receive_inbound(&ring, 0, cbr);
    assert_eq!(a.read(&mut nic, &mut buf), Some(30));
    assert_eq!(b.read(&mut nic, &mut buf), Some(30));
    assert_eq!(a.read(&mut nic, &mut buf), None);
    assert_eq!(b.read(&mut nic, &mut buf), None);
}

#[test]
fn write_then_flush_drains_with_free_slot() {
    let mut nic = device();
    let r = RTL8139Resource::new(&mut nic);
    let frame = vec![0x42u8; 100];
    // No slot free: the frame is accepted but stays queued.
    let (count, sends) = r.write(&mut nic, &frame, &[false; 4]);
    assert_eq!(count, Some(100));
    assert!(sends.is_empty());
    assert!(!r.flush(&nic));
    // A slot becomes available: the next transmit-processing step (as the
    // interrupt handler would run it) drains the queue and flush succeeds.
    let sends = nic.send_outbound(&[true, false, false, false]);
    assert_eq!(sends.len(), 1);
    assert_eq!(sends[0].slot, 0);
    assert_eq!(sends[0].bytes, frame);
    assert!(r.flush(&nic));
}

#[test]
fn write_opportunistically_transmits() {
    let mut nic = device();
    let r = RTL8139Resource::new(&mut nic);
    let frame = vec![0x17u8; 60];
    let (count, sends) = r.write(&mut nic, &frame, &[true; 4]);
    assert_eq!(count, Some(60));
    assert_eq!(sends.len(), 1);
    assert_eq!(sends[0].slot, 0);
    assert_eq!(sends[0].bytes, frame);
    assert!(r.flush(&nic));
}

#[test]
fn oversized_frame_accepted_then_dropped() {
    let mut nic = device();
    let r = RTL8139Resource::new(&mut nic);
    let big = vec![0u8; 8192];
    // Acceptance is reported in full: there is no backpressure signal.
    let (count, sends) = r.write(&mut nic, &big, &[true; 4]);
    assert_eq!(count, Some(8192));
    // The frame never occupies a transmit slot and leaves the queue.
    assert!(sends.is_empty());
    assert!(r.flush(&nic));
}

#[test]
fn oversized_frame_waits_for_a_slot_then_drops() {
    let mut nic = device();
    let r = RTL8139Resource::new(&mut nic);
    let big = vec![0u8; 9000];
    let (count, sends) = r.write(&mut nic, &big, &[false; 4]);
    assert_eq!(count, Some(9000));
    assert!(sends.is_empty());
    // Still queued: no slot was free, so it was not even popped.
    assert!(!r.flush(&nic));
    // Queue length decreases by one once transmit processing runs.
    let sends = nic.send_outbound(&[true; 4]);
    assert!(sends.is_empty());
    assert!(r.flush(&nic));
}

#[test]
fn round_robin_dispatches_all_before_reuse() {
    let mut nic = device();
    let a = RTL8139Resource::new(&mut nic);
    let b = RTL8139Resource::new(&mut nic);
    let frames = [vec![1u8; 10], vec![2u8; 10], vec![3u8; 10], vec![4u8; 10]];
    let (_, s) = a.write(&mut nic, &frames[0], &[false; 4]);
    assert!(s.is_empty());
    let (_, s) = a.write(&mut nic, &frames[1], &[false; 4]);
    assert!(s.is_empty());
    let (_, s) = b.write(&mut nic, &frames[2], &[false; 4]);
    assert!(s.is_empty());
    let (_, s) = b.write(&mut nic, &frames[3], &[false; 4]);
    assert!(s.is_empty());
    // All four slots free, four queued frames: all dispatched, each to its
    // own slot, none reused.
    let sends = nic.send_outbound(&[true; 4]);
    assert_eq!(sends.len(), 4);
    let mut slots: Vec<usize> = sends.iter().map(|s| s.slot).collect();
    slots.sort();
    assert_eq!(slots, vec![0, 1, 2, 3]);
    assert!(a.flush(&nic));
    assert!(b.flush(&nic));
}

#[test]
fn round_robin_starts_at_current_slot_and_wraps() {
    let mut nic = device();
    let a = RTL8139Resource::new(&mut nic);
    // Advance the round-robin index to 2 by sending twice.
    let (_, s) = a.write(&mut nic, &vec![9u8; 5], &[true; 4]);
    assert_eq!(s[0].slot, 0);
    let (_, s) = a.write(&mut nic, &vec![9u8; 5], &[true; 4]);
    assert_eq!(s[0].slot, 1);
    // Queue three frames, then drain with all slots free: 2, 3, then 0.
    a.write(&mut nic, &vec![1u8; 5], &[false; 4]);
    a.write(&mut nic, &vec![2u8; 5], &[false; 4]);
    a.write(&mut nic, &vec![3u8; 5], &[false; 4]);
    let sends = nic.send_outbound(&[true; 4]);
    let slots: Vec<usize> = sends.iter().map(|s| s.slot).collect();
    assert_eq!(slots, vec![2, 3, 0]);
}

#[test]
fn transmit_stops_at_busy_slot() {
    let mut nic = device();
    let a = RTL8139Resource::new(&mut nic);
    a.write(&mut nic, &vec![1u8; 5], &[false; 4]);
    a.write(&mut nic, &vec![2u8; 5], &[false; 4]);
    // Only slot 0 free: one frame goes out, the second waits for the
    // hardware to signal slot 1 free via interrupt.
    let sends = nic.send_outbound(&[true, false, false, false]);
    assert_eq!(sends.len(), 1);
    assert_eq!(sends[0].slot, 0);
    assert!(!a.flush(&nic));
}

#[test]
fn seek_always_fails() {
    let mut nic = device();
    let r = RTL8139Resource::new(&mut nic);
    assert_eq!(r.seek(ResourceSeek::Start(0)), None);
    assert_eq!(r.seek(ResourceSeek::Start(4096)), None);
    assert_eq!(r.seek(ResourceSeek::Current(-1)), None);
    assert_eq!(r.seek(ResourceSeek::End(7)), None);
}

#[test]
fn identity_reporting() {
    let mut nic = device();
    let r = RTL8139Resource::new(&mut nic);
    assert_eq!(nic.scheme(), "network");
    assert_eq!(r.url(), "network://");
    assert_eq!(r.stat(), ResourceType::File);
}

#[test]
fn irq_self_filter() {
    let mut nic = device();
    let r = RTL8139Resource::new(&mut nic);
    let payload = vec![8u8; 20];
    let (ring, cbr) = ring_with(&[&payload]);
    // A foreign interrupt line changes nothing.
    assert!(nic.on_irq(7, &ring, 0, cbr, &[true; 4]).is_none());
    let mut got = Vec::new();
    assert_eq!(r.read_to_end(&mut nic, &mut got), None);
    // The device's own line services receive then transmit.
    let (new_cursor, sends) = nic.on_irq(11, &ring, 0, cbr, &[true; 4]).unwrap();
    assert_eq!(new_cursor, cbr);
    assert!(sends.is_empty());
    assert_eq!(r.read_to_end(&mut nic, &mut got), Some(20));
}

#[test]
fn irq_services_receive_before_transmit() {
    let mut nic = device();
    let r = RTL8139Resource::new(&mut nic);
    r.write(&mut nic, &vec![0x33u8; 40], &[false; 4]);
    let payload = vec![4u8; 10];
    let (ring, cbr) = ring_with(&[&payload]);
    // One interrupt both delivers the received frame and drains the
    // queued outbound frame into the freed slot.
    let (_, sends) = nic.on_irq(11, &ring, 0, cbr, &[true; 4]).unwrap();
    assert_eq!(sends.len(), 1);
    assert_eq!(sends[0].bytes, vec![0x33u8; 40]);
    let mut got = Vec::new();
    assert_eq!(r.read_to_end(&mut nic, &mut got), Some(10));
    assert!(r.flush(&nic));
}

#[test]
fn bus_master_bit() {
    assert_eq!(bus_master_command(0), 4);
    assert_eq!(bus_master_command(0x103), 0x107);
    assert_eq!(bus_master_command(0x107), 0x107);
}

#[test]
fn reset_plan_and_completion() {
    let w = reset_sequence();
    assert_eq!(w, vec![RegWrite::B(0x52, 0), RegWrite::B(0x37, 0x10)]);
    assert!(!reset_complete(0x10));
    assert!(!reset_complete(0x1C));
    assert!(reset_complete(0x0C));
    assert!(reset_complete(0));
}

#[test]
fn startup_plan_is_bit_exact() {
    let w = startup_plan(0x0034_0000, &[0x100000, 0x102000, 0x104000, 0x106000]);
    assert_eq!(
        w,
        vec![
            RegWrite::D(0x30, 0x0034_0000),
            RegWrite::D(0x20, 0x100000),
            RegWrite::D(0x24, 0x102000),
            RegWrite::D(0x28, 0x104000),
            RegWrite::D(0x2C, 0x106000),
            RegWrite::W(0x3C, 5),
            RegWrite::B(0x37, 0x0C),
            RegWrite::D(0x44, 0x8F),
        ]
    );
}

#[test]
fn mac_decoding() {
    let m = mac_from_registers(0x4433_2211, 0x0000_6655);
    assert_eq!(m.bytes, vec![0x11, 0x22, 0x33, 0x44, 0x55, 0x66]);
}

#[test]
fn ring_parse_wraps_at_ring_end() {
    // A frame near the ring end runs into the pad region; the cursor wraps
    // modulo 8192.
    let payload = vec![0x5Au8; 40];
    let mut ring = vec![0u8; 10240];
    let start = 8180usize;
    let header = payload.len() + 4;
    ring[start] = 1;
    ring[start + 2] = (header & 0xFF) as u8;
    ring[start + 3] = (header >> 8) as u8;
    ring[start + 4..start + 4 + payload.len()].copy_from_slice(&payload);
    // Advance: 8180 + 44 + 4 = 8228, already 4-aligned, wraps to 36.
    let (frames, new_cursor) = parse_ring(&ring, start, 36);
    assert_eq!(frames.len(), 1);
    assert_eq!(frames[0], payload);
    assert_eq!(new_cursor, 36);
}
