use leddy::color_param::{ColorParam, Direction};
use leddy::cli::{parse_color, parse_direction, parse_speed};
use leddy::color_param::KeyMap;
use leddy::effects::{
    fade_payload, gradient_payload, pulse_payload, rain_payload, reactive_payload, reactive_ripple_payload,
    wave_payload,
};
use leddy::gradient::Gradient;
use leddy::protocol::packetize;

fn no_keys() -> Result<KeyMap, String> {
    Err(String::from("no key map here"))
}

#[test]
fn packet_count_offsets_and_reassembly() {
    let prefix = [0x05u8, 0x01, 0x02, 0x03];
    let payload: Vec<u8> = (0..126u32).map(|i| (i * 7 % 251) as u8).collect();
    let reports = packetize(&prefix, &payload);
    let total = prefix.len() + payload.len();
    assert_eq!(total, 130);
    assert_eq!(reports.len(), 3);
    let mut stream = Vec::new();
    for (i, r) in reports.iter().enumerate() {
        assert_eq!(r.len(), 65);
        assert_eq!(r[0], 0);
        assert_eq!(r[1], 0x05);
        assert_eq!(r[2] as usize + 256 * r[3] as usize + 65536 * r[4] as usize, total);
        let ofs = r[5] as usize + 256 * r[6] as usize + 65536 * r[7] as usize;
        assert_eq!(ofs, 57 * i);
        let end = std::cmp::min(ofs + 57, total);
        stream.extend_from_slice(&r[8..8 + (end - ofs)]);
        for b in &r[8 + (end - ofs)..] {
            assert_eq!(*b, 0);
        }
    }
    let mut expected = prefix.to_vec();
    expected.extend_from_slice(&payload);
    assert_eq!(stream, expected);
}

#[test]
fn packet_count_is_ceiling() {
    for (len, count) in [(1usize, 1usize), (56, 1), (57, 1), (58, 2), (114, 2), (115, 3), (366, 7)] {
        let payload = vec![0xabu8; len];
        assert_eq!(packetize(&[], &payload).len(), count, "length {}", len);
    }
}

#[test]
fn opcode_from_payload_without_prefix() {
    let reports = packetize(&[], &[0x13]);
    assert_eq!(reports.len(), 1);
    let mut expected = [0u8; 65];
    expected[1] = 0x13;
    expected[2] = 1;
    expected[8] = 0x13;
    assert_eq!(reports[0], expected);
}

#[test]
fn large_command_length_fields() {
    let payload = vec![1u8; 70000];
    let reports = packetize(&[0x0f, 0x03], &payload);
    assert_eq!(reports.len(), (70002 + 56) / 57);
    let last = reports.last().unwrap();
    assert_eq!(&last[2..5], &[0x72, 0x11, 0x01]);
    let ofs = 57 * (reports.len() - 1);
    assert_eq!(last[5] as usize + 256 * last[6] as usize + 65536 * last[7] as usize, ofs);
}

#[test]
fn wave_end_to_end() {
    let cp = parse_color("rgb:ff00ff", no_keys).unwrap();
    let speed = parse_speed("75").unwrap();
    let dir = parse_direction("left").unwrap();
    let payload = wave_payload(&cp, speed, &dir);
    assert_eq!(payload, vec![0x07, 0, 0xff, 0x00, 0xff, 75, 2]);
    let reports = packetize(&[], &payload);
    assert_eq!(reports.len(), 1);
    let r = reports[0];
    assert_eq!(&r[0..8], &[0, 0x07, 7, 0, 0, 0, 0, 0]);
    assert_eq!(&r[8..15], &[0x07, 0, 0xff, 0x00, 0xff, 75, 2]);
    assert!(r[15..].iter().all(|b| *b == 0));
}

#[test]
fn color_effect_payloads() {
    let c = ColorParam::Color((1, 2, 3));
    assert_eq!(pulse_payload(&c, 9), vec![0x06, 0, 1, 2, 3, 9]);
    assert_eq!(reactive_payload(&c, 9, true), vec![0x09, 0, 1, 2, 3, 9, 0]);
    assert_eq!(reactive_payload(&c, 9, false), vec![0x09, 0, 1, 2, 3, 9, 1]);
    assert_eq!(reactive_ripple_payload(&c, 9, false), vec![0x0a, 0, 1, 2, 3, 9, 1]);
    assert_eq!(rain_payload(&c, 9, &Direction::Up), vec![0x0b, 0, 1, 2, 3, 9, 4]);
    assert_eq!(wave_payload(&ColorParam::Rainbow, 50, &Direction::Right), vec![0x07, 1, 0, 0, 0, 50, 1]);
}

#[test]
fn rain_runs_rainbow_as_randomized() {
    assert_eq!(rain_payload(&ColorParam::Rainbow, 50, &Direction::Down), vec![0x0b, 2, 0, 0, 0, 50, 3]);
    assert_eq!(rain_payload(&ColorParam::Randomized, 50, &Direction::Down), vec![0x0b, 2, 0, 0, 0, 50, 3]);
}

#[test]
fn gradient_and_fade_payloads() {
    let g = Gradient::from_str("ff0000,0000ff").unwrap();
    let p = gradient_payload(&g);
    assert_eq!(p.len(), 42);
    assert_eq!(&p[0..10], &[0x0c, 2, 0xff, 0, 0, 0, 0, 0, 0xff, 100]);
    assert!(p[10..].iter().all(|b| *b == 0));
    let f = fade_payload(3, &g, 20);
    assert_eq!(f.len(), 44);
    assert_eq!(&f[0..3], &[0x0d, 3, 2]);
    assert_eq!(f[43], 20);
    assert_eq!(&f[3..11], &[0xff, 0, 0, 0, 0, 0, 0xff, 100]);
}
