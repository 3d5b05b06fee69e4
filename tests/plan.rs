use leddy::cli::{parse_effect_arg, Params};
use leddy::color_param::{ColorParam, Direction, KeyMap};
use leddy::plan::{plan_effect, EffectPlan, SoftwareEffect};

fn no_keys() -> Result<KeyMap, String> {
    Err(String::from("no key map here"))
}

fn plan(arg: &str) -> Result<EffectPlan, String> {
    let (name, params) = parse_effect_arg(arg)?;
    plan_effect(&name, params, no_keys)
}

#[test]
fn wave_plan_from_argument() {
    match plan("wave/color=rgb:ff00ff/speed=75/direction=left") {
        Ok(EffectPlan::Wave(ColorParam::Color(c), 75, Direction::Left)) => assert_eq!(c, (0xff, 0, 0xff)),
        _ => panic!("expected a wave"),
    }
}

#[test]
fn defaults_apply() {
    assert!(matches!(plan("pulse"), Ok(EffectPlan::Pulse(ColorParam::Rainbow, 50))));
    assert!(matches!(plan("rain"), Ok(EffectPlan::Rain(ColorParam::Randomized, 50, Direction::Right))));
    assert!(matches!(plan("reactive"), Ok(EffectPlan::Reactive(ColorParam::Rainbow, 50, false))));
    assert!(matches!(plan("reactive-ripple/keyup"), Ok(EffectPlan::ReactiveRipple(_, 50, true))));
    assert!(matches!(plan("fade/speed=9"), Ok(EffectPlan::Fade(ColorParam::Rainbow, 9))));
    assert!(matches!(plan("color=rainbow"), Ok(EffectPlan::Gradient(ColorParam::Rainbow))));
}

#[test]
fn gradient_directions() {
    assert!(matches!(plan("gradient/direction=down"), Ok(EffectPlan::VerticalGradient(_, false))));
    assert!(matches!(plan("gradient/direction=up"), Ok(EffectPlan::VerticalGradient(_, true))));
    match plan("gradient/color=gradient:010101@0,020202@30/direction=left") {
        Ok(EffectPlan::Gradient(ColorParam::Gradient(g))) => {
            assert_eq!(g.colors, vec![((2, 2, 2), 70), ((1, 1, 1), 100)])
        }
        _ => panic!("expected a mirrored gradient"),
    }
}

#[test]
fn per_key_colors_from_reader() {
    let mut p = Params::new();
    p.insert("color", "stdin");
    match plan_effect("all-keys", p, || Ok(KeyMap { map: vec![(9, 9, 9); 121] })) {
        Ok(EffectPlan::AllKeys(k)) => assert_eq!(k.map[5], (9, 9, 9)),
        _ => panic!("expected per-key colors"),
    }
}

#[test]
fn software_effects_keep_their_parameters() {
    match plan("screen-capture/fps=30") {
        Ok(EffectPlan::Software(SoftwareEffect::ScreenCapture, p)) => {
            assert_eq!(p.entries, vec![(String::from("fps"), String::from("30"))])
        }
        _ => panic!("expected screen capture"),
    }
    assert!(matches!(plan("x-key-ids"), Ok(EffectPlan::Software(SoftwareEffect::KeyIds, _))));
}

#[test]
fn refused_effects() {
    assert_eq!(plan("sparkle").err().unwrap(), "Unrecognized effect “sparkle”");
    assert_eq!(plan("pulse/speed=999").err().unwrap(), "999 is not an 8-bit unsigned integer");
    assert_eq!(plan("wave/direction=north").err().unwrap(), "Invalid direction “north”");
    assert_eq!(plan("pulse/direction=up").err().unwrap(), "Superfluous parameters: “direction”");
    assert_eq!(plan("reactive/keyup/keydown").err().unwrap(), "Cannot give both keyup and keydown");
    assert_eq!(plan("fade/color=gradient:ff0000@200").err().unwrap(), "Gradient positions must not exceed 100");
    assert_eq!(plan("all-keys/color=stdin").err().unwrap(), "no key map here");
}
