use leddy::cli::{
    check_superfluous_params, isize_param, parse_color, parse_direction, parse_effect_arg, parse_keyup, parse_speed,
    screen_size, strip_prefix, Params,
};
use leddy::color::{Color, ColorMethods};
use leddy::color_param::{ColorParam, Direction, KeyMap};
use leddy::number::{parse_isize, parse_u8};

fn no_keys() -> Result<KeyMap, String> {
    Err(String::from("no key map here"))
}

#[test]
fn rgb_text_parses() {
    assert_eq!(<Color as ColorMethods>::from_str("ff00ff"), Ok((0xff, 0x00, 0xff)));
    assert_eq!(<Color as ColorMethods>::from_str("0A1b2C"), Ok((0x0a, 0x1b, 0x2c)));
    assert_eq!(<Color as ColorMethods>::from_str("fff").err().unwrap(), "fff is not an RRGGBB value");
    assert_eq!(<Color as ColorMethods>::from_str("ggffff").err().unwrap(), "ggffff is not an RRGGBB value");
    assert_eq!(<Color as ColorMethods>::from_str("ff00ff0").err().unwrap(), "ff00ff0 is not an RRGGBB value");
}

#[test]
fn named_colors() {
    assert_eq!(<Color as ColorMethods>::MAGENTA, (0xff, 0x00, 0xff));
    assert_eq!(<Color as ColorMethods>::CYAN, (0x00, 0xff, 0xff));
    assert_eq!(<Color as ColorMethods>::WHITE, (0xff, 0xff, 0xff));
}

#[test]
fn decimal_parsing() {
    assert_eq!(parse_u8("0"), Some(0));
    assert_eq!(parse_u8("255"), Some(255));
    assert_eq!(parse_u8("+7"), Some(7));
    assert_eq!(parse_u8("256"), None);
    assert_eq!(parse_u8(""), None);
    assert_eq!(parse_u8("+"), None);
    assert_eq!(parse_u8("-1"), None);
    assert_eq!(parse_isize("-42"), Some(-42));
    assert_eq!(parse_isize("+42"), Some(42));
    assert_eq!(parse_isize("9223372036854775807"), Some(isize::MAX));
    assert_eq!(parse_isize("-9223372036854775808"), Some(isize::MIN));
    assert_eq!(parse_isize("9223372036854775808"), None);
    assert_eq!(parse_isize("-"), None);
    assert_eq!(parse_isize("1x"), None);
}

#[test]
fn speed_parsing() {
    assert_eq!(parse_speed("75"), Ok(75));
    assert_eq!(parse_speed("300").err().unwrap(), "300 is not an 8-bit unsigned integer");
}

#[test]
fn direction_parsing() {
    assert!(matches!(parse_direction("right"), Ok(Direction::Right)));
    assert!(matches!(parse_direction("left"), Ok(Direction::Left)));
    assert!(matches!(parse_direction("down"), Ok(Direction::Down)));
    assert!(matches!(parse_direction("up"), Ok(Direction::Up)));
    assert_eq!(parse_direction("sideways").err().unwrap(), "Invalid direction “sideways”");
    assert_eq!(Direction::Left.code(), 2);
    assert_eq!(Direction::Up.code(), 4);
}

#[test]
fn keyup_parsing() {
    assert_eq!(parse_keyup(Some(""), None), Ok(true));
    assert_eq!(parse_keyup(None, Some("")), Ok(false));
    assert_eq!(parse_keyup(None, None), Ok(false));
    assert_eq!(parse_keyup(Some(""), Some("")).err().unwrap(), "Cannot give both keyup and keydown");
}

#[test]
fn prefix_stripping() {
    assert_eq!(strip_prefix("rgb:ff00ff", "rgb:"), Some("ff00ff"));
    assert_eq!(strip_prefix("rgb", "rgb:"), None);
    assert_eq!(strip_prefix("gradient:", "gradient:"), Some(""));
}

#[test]
fn color_parameters() {
    assert!(matches!(parse_color("rainbow", no_keys), Ok(ColorParam::Rainbow)));
    assert!(matches!(parse_color("random", no_keys), Ok(ColorParam::Randomized)));
    assert!(matches!(parse_color("randomized", no_keys), Ok(ColorParam::Randomized)));
    assert!(matches!(parse_color("rgb:102030", no_keys), Ok(ColorParam::Color((0x10, 0x20, 0x30)))));
    match parse_color("gradient:ff0000,0000ff", no_keys) {
        Ok(ColorParam::Gradient(g)) => assert_eq!(g.colors, vec![((0xff, 0, 0), 0), ((0, 0, 0xff), 100)]),
        _ => panic!("expected a gradient"),
    }
    assert_eq!(parse_color("gradient:", no_keys).err().unwrap(), " is not an RRGGBB value");
    assert_eq!(parse_color("rgb:zz", no_keys).err().unwrap(), "zz is not an RRGGBB value");
    assert_eq!(parse_color("stdin", no_keys).err().unwrap(), "no key map here");
    match parse_color("stdin", || Ok(KeyMap { map: vec![(1, 2, 3); 121] })) {
        Ok(ColorParam::PerKey(k)) => assert_eq!(k.map.len(), 121),
        _ => panic!("expected a key map"),
    }
    assert_eq!(parse_color("plaid", no_keys).err().unwrap(), "Unrecognized color parameter “plaid”");
}

#[test]
fn params_insert_remove() {
    let mut p = Params::new();
    assert_eq!(p.insert("color", "rainbow"), None);
    assert_eq!(p.insert("speed", "5"), None);
    assert_eq!(p.insert("color", "random"), Some(String::from("rainbow")));
    assert_eq!(p.remove("color"), Some(String::from("random")));
    assert_eq!(p.remove("color"), None);
    assert_eq!(p.entries.len(), 1);
}

#[test]
fn superfluous_params() {
    assert_eq!(check_superfluous_params(Params::new()), Ok(()));
    let mut p = Params::new();
    p.insert("foo", "1");
    p.insert("bar", "");
    assert_eq!(check_superfluous_params(p).err().unwrap(), "Superfluous parameters: “foo”, “bar”");
}

#[test]
fn integer_params() {
    let mut p = Params::new();
    p.insert("x", "-12");
    p.insert("fps", "sixty");
    assert_eq!(isize_param(&mut p, "x"), Ok(Some(-12)));
    assert_eq!(isize_param(&mut p, "y"), Ok(None));
    assert_eq!(isize_param(&mut p, "fps").err().unwrap(), "Invalid fps value “sixty”");
    assert_eq!(p.entries.len(), 0);
}

#[test]
fn effect_arguments() {
    let (name, mut p) = parse_effect_arg("wave/color=rgb:ff00ff/speed=75/direction=left").unwrap();
    assert_eq!(name, "wave");
    assert_eq!(p.remove("color"), Some(String::from("rgb:ff00ff")));
    assert_eq!(p.remove("speed"), Some(String::from("75")));
    assert_eq!(p.remove("direction"), Some(String::from("left")));
    assert_eq!(p.entries.len(), 0);

    let (name, p) = parse_effect_arg("color=rainbow").unwrap();
    assert_eq!(name, "all-keys");
    assert_eq!(p.entries, vec![(String::from("color"), String::from("rainbow"))]);

    let (name, p) = parse_effect_arg("reactive/keyup").unwrap();
    assert_eq!(name, "reactive");
    assert_eq!(p.entries, vec![(String::from("keyup"), String::new())]);

    assert_eq!(
        parse_effect_arg("pulse/speed=1/speed=2").err().unwrap(),
        "Effect parameter “speed” already set to “1”"
    );
    assert_eq!(parse_effect_arg("pulse/keyup/keyup").err().unwrap(), "Effect parameter “keyup” already set to “”");
}

#[test]
fn xrandr_screen_size() {
    let out = "Screen 0: minimum 320 x 200, current 2560 x 1440, maximum 16384 x 16384\nDP-1 connected";
    assert_eq!(screen_size(out), Some((2560, 1440)));
    assert_eq!(screen_size("Screen 0, current 800 x 600"), Some((800, 600)));
    assert_eq!(screen_size("Screen 0: current 800 x 600"), None);
    assert_eq!(screen_size("no screen here"), None);
    assert_eq!(screen_size(", current wide x 600, "), None);
}
