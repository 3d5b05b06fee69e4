use leddy::color_param::{hue_gradient, ColorParam, KeyMap};
use leddy::gradient::Gradient;

const HUES: [(u8, u8, u8); 6] = [
    (0xff, 0, 0),
    (0xff, 0xff, 0),
    (0, 0xff, 0),
    (0, 0xff, 0xff),
    (0, 0, 0xff),
    (0xff, 0, 0xff),
];

#[test]
fn modes() {
    assert_eq!(ColorParam::Color((1, 2, 3)).mode(), 0);
    assert_eq!(ColorParam::Rainbow.mode(), 1);
    assert_eq!(ColorParam::Randomized.mode(), 2);
    assert_eq!(ColorParam::Gradient(Gradient::from_str("ff0000").unwrap()).mode(), 3);
    assert_eq!(ColorParam::PerKey(KeyMap { map: vec![(0, 0, 0); 3] }).mode(), 0);
}

#[test]
fn representative_colors() {
    assert_eq!(ColorParam::Color((1, 2, 3)).rgb(), (1, 2, 3));
    assert_eq!(ColorParam::Rainbow.rgb(), (0, 0, 0));
    assert_eq!(ColorParam::Randomized.rgb(), (0, 0, 0));
    let g = Gradient::from_str("00ff00@60,0000ff@10").unwrap();
    assert_eq!(ColorParam::Gradient(g).rgb(), (0, 0, 0xff));
    let k = KeyMap { map: vec![(10, 0, 255), (20, 1, 255), (31, 1, 0)] };
    assert_eq!(ColorParam::PerKey(k).rgb(), (20, 0, 170));
}

#[test]
fn uniform_key_map() {
    for n in [106usize, 121, 124, 10] {
        let cp = ColorParam::PerKey(KeyMap { map: vec![(10, 20, 30); n] });
        assert_eq!(cp.rgb(), (10, 20, 30));
        let g = cp.gradient();
        assert_eq!(g.colors.len(), 10);
        for s in &g.colors {
            assert_eq!(s.0, (10, 20, 30));
        }
    }
}

#[test]
fn per_key_gradient_ranges() {
    let map: Vec<(u8, u8, u8)> = (0..20u8).map(|i| (i, 0, 0)).collect();
    let g = ColorParam::PerKey(KeyMap { map }).gradient();
    let pos: Vec<u8> = g.colors.iter().map(|s| s.1).collect();
    assert_eq!(pos, vec![0, 11, 22, 33, 44, 56, 67, 78, 89, 100]);
    let reds: Vec<u8> = g.colors.iter().map(|s| (s.0).0).collect();
    assert_eq!(reds, vec![0, 2, 4, 6, 8, 10, 12, 14, 16, 18]);
}

#[test]
fn fixed_and_rainbow_gradients() {
    assert_eq!(ColorParam::Color((5, 6, 7)).gradient().colors, vec![((5, 6, 7), 0), ((5, 6, 7), 100)]);
    let r = ColorParam::Rainbow.gradient().colors;
    let expected: Vec<((u8, u8, u8), u8)> = HUES.iter().enumerate().map(|(i, c)| (*c, 20 * i as u8)).collect();
    assert_eq!(r, expected);
    let g = Gradient::from_str("010101,020202@40").unwrap();
    assert_eq!(ColorParam::Gradient(g).gradient().colors, vec![((1, 1, 1), 0), ((2, 2, 2), 40)]);
}

#[test]
fn randomized_gradient_permutes_hues() {
    let mut reordered = false;
    for _ in 0..40 {
        let g = ColorParam::Randomized.gradient().colors;
        let pos: Vec<u8> = g.iter().map(|s| s.1).collect();
        assert_eq!(pos, vec![0, 20, 40, 60, 80, 100]);
        let mut cols: Vec<(u8, u8, u8)> = g.iter().map(|s| s.0).collect();
        if cols != HUES.to_vec() {
            reordered = true;
        }
        cols.sort();
        let mut hues = HUES.to_vec();
        hues.sort();
        assert_eq!(cols, hues);
    }
    assert!(reordered);
}

#[test]
fn hue_gradient_places_six_stops() {
    let h = vec![(1, 1, 1), (2, 2, 2), (3, 3, 3), (4, 4, 4), (5, 5, 5), (6, 6, 6)];
    let g = hue_gradient(&h);
    assert_eq!(g.colors[5], ((6, 6, 6), 100));
    assert_eq!(g.colors[2], ((3, 3, 3), 40));
}

#[test]
fn key_map_from_lines() {
    let lines = vec![String::from("ff0000"), String::from("00FF00")];
    let k = KeyMap::from_lines(&lines, 106).unwrap();
    assert_eq!(k.map.len(), 106);
    assert_eq!(k.map[0], (0xff, 0, 0));
    assert_eq!(k.map[1], (0, 0xff, 0));
    assert_eq!(k.map[105], (0, 0, 0));
    assert_eq!(KeyMap::from_lines(&lines, 124).unwrap().map.len(), 124);
    let bad = vec![String::from("ff0000"), String::from("nope")];
    assert_eq!(KeyMap::from_lines(&bad, 106).err().unwrap(), "nope is not an RRGGBB value");
}

#[test]
fn key_map_raw_bytes() {
    let k = KeyMap { map: vec![(1, 2, 3), (4, 5, 6)] };
    assert_eq!(k.raw(), vec![1, 2, 3, 4, 5, 6]);
}
