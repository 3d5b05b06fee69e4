use leddy::geometry::{ledmap, rows_keymap, FULL_LED_COUNT, MINI_LED_COUNT, MINI_ROW_OF_LED, NO_LED};
use leddy::screen::{key_id_frame, map_screen_frame, silence_step};

fn check_layout(mini: bool, width: usize, count: usize, off: &[u8]) {
    let t = ledmap(mini);
    assert_eq!(t.len(), width * 6);
    let mut seen = vec![false; count];
    for v in &t {
        if *v != NO_LED {
            assert!((*v as usize) < count);
            assert!(!seen[*v as usize], "LED {} held twice", v);
            seen[*v as usize] = true;
        }
    }
    for k in 0..count {
        assert_eq!(seen[k], !off.contains(&(k as u8)), "LED {}", k);
    }
}

#[test]
fn compact_layout_indices() {
    check_layout(true, 18, MINI_LED_COUNT, &[91, 92, 97, 100, 101, 102, 104, 105]);
}

#[test]
fn full_layout_indices() {
    check_layout(false, 22, FULL_LED_COUNT, &[117, 119, 121, 122, 123]);
}

#[test]
fn screen_frame_lands_on_leds() {
    let screen: Vec<u8> = (0..18 * 6 * 4).map(|i| (i % 251) as u8).collect();
    let mut keys = vec![0xeeu8; 106 * 3];
    map_screen_frame(true, &screen, &mut keys);
    // Cell 0 holds LED 1: blue, green, red of pixel 0 become red, green, blue.
    assert_eq!(&keys[3..6], &[2, 1, 0]);
    // Cell 1 holds LED 0.
    assert_eq!(&keys[0..3], &[6, 5, 4]);
    // LED 91 has no cell and keeps its bytes.
    assert_eq!(&keys[91 * 3..92 * 3], &[0xee, 0xee, 0xee]);
}

#[test]
fn rows_keymap_colors_by_row() {
    let rows = vec![(0, 0, 0), (1, 1, 1), (2, 2, 2), (3, 3, 3), (4, 4, 4), (5, 5, 5)];
    let m = rows_keymap(&rows);
    assert_eq!(m.len(), 106);
    for k in 0..106 {
        let r = MINI_ROW_OF_LED[k];
        assert_eq!(m[k], (r, r, r));
    }
    assert_eq!(m[6], (5, 5, 5));
}

#[test]
fn key_id_frames() {
    let g = key_id_frame(true);
    assert_eq!(g.len(), 576);
    assert_eq!(&g[0..3], &[0xff, 0, 0]);
    assert_eq!(&g[15..18], &[0xff, 0, 0]);
    assert_eq!(&g[18..21], &[0, 0xff, 0]);
    let u = key_id_frame(false);
    assert_eq!(&u[0..6], &[0xff, 0, 0, 0, 0xff, 0]);
    assert_eq!(&u[18..21], &[0xff, 0, 0]);
}

#[test]
fn silence_counter_steps() {
    assert_eq!(silence_step(0, false, 50, 5000), (0, false, false));
    assert_eq!(silence_step(4900, false, 50, 5000), (0, false, false));
    assert_eq!(silence_step(4900, true, 50, 5000), (4950, false, false));
    assert_eq!(silence_step(4950, true, 50, 5000), (5000, true, true));
    assert_eq!(silence_step(5000, true, 50, 5000), (5050, false, true));
    assert_eq!(silence_step(usize::MAX - 1, true, 50, 5000), (usize::MAX, false, true));
}
