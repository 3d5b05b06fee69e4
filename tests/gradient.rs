use leddy::gradient::Gradient;

fn stops(g: &Gradient) -> Vec<((u8, u8, u8), u8)> {
    g.colors.clone()
}

#[test]
fn explicit_positions_are_kept() {
    let g = Gradient::from_str("ff0000@0,00ff00@50,0000ff@100").unwrap();
    assert_eq!(stops(&g), vec![((0xff, 0, 0), 0), ((0, 0xff, 0), 50), ((0, 0, 0xff), 100)]);
}

#[test]
fn missing_positions_spread_evenly() {
    let g = Gradient::from_str("ff0000,00ff00,0000ff").unwrap();
    let pos: Vec<u8> = g.colors.iter().map(|s| s.1).collect();
    assert_eq!(pos, vec![0, 50, 100]);
}

#[test]
fn interpolation_truncates_toward_base() {
    let g = Gradient::from_str("000000,111111,222222,333333").unwrap();
    let pos: Vec<u8> = g.colors.iter().map(|s| s.1).collect();
    assert_eq!(pos, vec![0, 33, 66, 100]);
    let g = Gradient::from_str("000000@50,111111,222222@10").unwrap();
    assert_eq!(stops(&g), vec![((0x22, 0x22, 0x22), 10), ((0x11, 0x11, 0x11), 30), ((0, 0, 0), 50)]);
}

#[test]
fn explicit_positions_idempotent_up_to_order() {
    let g = Gradient::from_str("ff0000@80,00ff00@20,0000ff@20,ffffff@100").unwrap();
    assert_eq!(
        stops(&g),
        vec![((0, 0xff, 0), 20), ((0, 0, 0xff), 20), ((0xff, 0, 0), 80), ((0xff, 0xff, 0xff), 100)]
    );
}

#[test]
fn single_stop_sits_at_zero() {
    let g = Gradient::from_str("AbCdEf").unwrap();
    assert_eq!(stops(&g), vec![((0xab, 0xcd, 0xef), 0)]);
}

#[test]
fn too_many_colors_rejected() {
    let text = vec!["ff0000"; 11].join(",");
    assert_eq!(Gradient::from_str(&text).err().unwrap(), "Gradients cannot have more than ten colors");
    let text = vec!["ff0000"; 10].join(",");
    assert_eq!(Gradient::from_str(&text).unwrap().colors.len(), 10);
}

#[test]
fn position_above_hundred_rejected() {
    assert_eq!(Gradient::from_str("ff0000@101,00ff00").err().unwrap(), "Gradient positions must not exceed 100");
    assert_eq!(Gradient::from_str("ff0000@300").err().unwrap(), "Gradient positions must not exceed 100");
    assert_eq!(Gradient::from_str("ff0000@100").unwrap().colors, vec![((0xff, 0, 0), 100)]);
}

#[test]
fn zero_colors_rejected() {
    assert_eq!(Gradient::from_str("").err().unwrap(), " is not an RRGGBB value");
    assert!(Gradient::from_str("ff0000,").is_err());
}

#[test]
fn bad_color_and_position_rejected() {
    assert_eq!(Gradient::from_str("ff0000,xyz").err().unwrap(), "xyz is not an RRGGBB value");
    assert_eq!(Gradient::from_str("ff0000@x").err().unwrap(), "x is not a valid gradient position");
}

#[test]
fn serialize_table() {
    let g = Gradient::from_str("010203@10,040506@90").unwrap();
    let mut to = [0xeeu8; 45];
    g.serialize(&mut to);
    assert_eq!(&to[0..9], &[2, 1, 2, 3, 10, 4, 5, 6, 90]);
    assert!(to[9..41].iter().all(|b| *b == 0));
    assert_eq!(&to[41..], &[0xee; 4]);
}

#[test]
fn mirror_reverses_and_flips_positions() {
    let g = Gradient::from_str("010101@0,020202@30,030303@100").unwrap();
    let m = g.mirror();
    assert_eq!(m.colors, vec![((3, 3, 3), 0), ((2, 2, 2), 70), ((1, 1, 1), 100)]);
}
