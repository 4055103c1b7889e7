use sliglight::protocol::{Frame, LOWER_COUNT, TOTAL_LEDS, UPPER_COUNT};

#[test]
fn uniform_frame_has_correct_led_count() {
    let frame = Frame::uniform((255, 0, 0));
    assert_eq!(frame.upper.len(), UPPER_COUNT);
    assert_eq!(frame.lower.len(), LOWER_COUNT);
    assert_eq!(frame.flat().len(), TOTAL_LEDS);
}

#[test]
fn to_packets_produces_7_packets() {
    let frame = Frame::uniform((255, 0, 0));
    let packets = frame.to_packets();
    assert_eq!(packets.len(), 7); // 1 header + 6 data
}

#[test]
fn header_packet_format() {
    let frame = Frame::uniform((0, 0, 0));
    let packets = frame.to_packets();
    let h = &packets[0];
    assert_eq!(h[0], 0x44);
    assert_eq!(h[1], 0x01);
    assert_eq!(h[2], 0x06);
    assert_eq!(h[3], 0x00);
    assert!(h[4..].iter().all(|b| *b == 0));
}

#[test]
fn data_packet_carries_rgb() {
    let frame = Frame::uniform((0xAA, 0xBB, 0xCC));
    let packets = frame.to_packets();
    let d = &packets[1];
    assert_eq!(d[0], 0x44);
    assert_eq!(d[1], 0x02);
    assert_eq!(d[2], 0x00);
    assert_eq!(d[4], 0xAA);
    assert_eq!(d[5], 0xBB);
    assert_eq!(d[6], 0xCC);
}

#[test]
fn last_packet_holds_the_last_eight_leds() {
    let mut upper = vec![(0, 0, 0); UPPER_COUNT];
    let mut lower = vec![(0, 0, 0); LOWER_COUNT];
    upper[0] = (1, 2, 3);
    lower[LOWER_COUNT - 1] = (7, 8, 9);
    let frame = Frame { upper, lower };
    let packets = frame.to_packets();
    assert_eq!(&packets[1][4..7], &[1, 2, 3]);
    let last = &packets[6];
    assert_eq!(last[2], 5);
    // LED 107 is the eighth LED of packet 5
    assert_eq!(&last[4 + 3 * 7..4 + 3 * 8], &[7, 8, 9]);
    assert!(last[4 + 3 * 8..].iter().all(|b| *b == 0));
}

#[test]
fn flat_puts_upper_ring_first() {
    let frame = Frame { upper: vec![(1, 1, 1); UPPER_COUNT], lower: vec![(2, 2, 2); LOWER_COUNT] };
    let leds = frame.flat();
    assert_eq!(leds[UPPER_COUNT - 1], (1, 1, 1));
    assert_eq!(leds[UPPER_COUNT], (2, 2, 2));
}
