use crate::cli::{
    check_superfluous_params, direction_of, key_index, named_color_param, parse_color, parse_direction, parse_keyup,
    parse_speed, same_text, starts_with, Params,
};
use crate::color::rgb_of;
use crate::color_param::{ColorParam, Direction, KeyMap};
use crate::gradient::{gradient_of, mirrored, Gradient, Stop};
use crate::number::u8_of;
use vstd::prelude::*;
use vstd::string::*;

verus! {

/// The effects that the host computes frame by frame.
pub enum SoftwareEffect {
    ScreenCapture,
    SoundSpectrum,
    KeyIds,
}

/// What an effect argument asks of the keyboard.
pub enum EffectPlan {
    /// Set every key from a per-key map.
    AllKeys(KeyMap),
    /// Show a static gradient.
    Gradient(ColorParam),
    /// Show a gradient from top to bottom, or from bottom to top where `up`.
    VerticalGradient(ColorParam, bool),
    Pulse(ColorParam, u8),
    Wave(ColorParam, u8, Direction),
    /// Reactive effect; the flag tells whether it triggers on key release.
    Reactive(ColorParam, u8, bool),
    ReactiveRipple(ColorParam, u8, bool),
    Rain(ColorParam, u8, Direction),
    Fade(ColorParam, u8),
    /// A host-computed effect with its own parameters.
    Software(SoftwareEffect, Params),
}

/// The value of `key` in `ps`, or `default` where it is not given.
pub open spec fn param_or(ps: Seq<(Seq<char>, Seq<char>)>, key: Seq<char>, default: Seq<char>) -> Seq<char> {
    let i = key_index(ps, key);
    if i < ps.len() {
        ps[i].1
    } else {
        default
    }
}

/// `ps` without its entry for `key`.
pub open spec fn without(ps: Seq<(Seq<char>, Seq<char>)>, key: Seq<char>) -> Seq<(Seq<char>, Seq<char>)> {
    let i = key_index(ps, key);
    if i < ps.len() {
        ps.remove(i)
    } else {
        ps
    }
}

/// `ps` has an entry for `key`.
pub open spec fn has_key(ps: Seq<(Seq<char>, Seq<char>)>, key: Seq<char>) -> bool {
    key_index(ps, key) < ps.len()
}

/// `cp` is what the color text `t` names; per-key maps come from elsewhere.
pub open spec fn color_text_denotes(t: Seq<char>, cp: ColorParam) -> bool {
    if named_color_param(t) is Some {
        named_color_param(t) == Some(cp)
    } else if starts_with(t, "rgb:"@) {
        rgb_of(t.subrange(4, t.len() as int)) matches Some(c) && cp == ColorParam::Color(c)
    } else if starts_with(t, "gradient:"@) {
        cp matches ColorParam::Gradient(g) && gradient_of(t.subrange(9, t.len() as int)) == Ok::<
            Seq<Stop>,
            Seq<char>,
        >(g.colors@)
    } else {
        t == "stdin"@ && cp is PerKey
    }
}

/// The parameters an effect takes, in the order it reads them.
pub open spec fn effect_keys(name: Seq<char>) -> Seq<Seq<char>> {
    if name == "all-keys"@ {
        seq!["color"@]
    } else if name == "pulse"@ || name == "fade"@ {
        seq!["color"@, "speed"@]
    } else if name == "wave"@ || name == "rain"@ {
        seq!["color"@, "speed"@, "direction"@]
    } else if name == "reactive"@ || name == "reactive-ripple"@ {
        seq!["color"@, "speed"@, "keyup"@, "keydown"@]
    } else if name == "gradient"@ {
        seq!["color"@, "direction"@]
    } else {
        seq![]
    }
}

/// `ps` without the entries for all of `keys`.
pub open spec fn without_all(ps: Seq<(Seq<char>, Seq<char>)>, keys: Seq<Seq<char>>) -> Seq<(Seq<char>, Seq<char>)>
    decreases keys.len(),
{
    if keys.len() == 0 {
        ps
    } else {
        without(without_all(ps, keys.drop_last()), keys.last())
    }
}

/// The effect names that the keyboard or the host can show.
pub open spec fn known_effect(name: Seq<char>) -> bool {
    effect_keys(name).len() > 0 || name == "screen-capture"@ || name == "sound-spectrum"@ || name == "x-key-ids"@
}

/// The color text of effect `name` under parameters `ps`.
pub open spec fn color_text(name: Seq<char>, ps: Seq<(Seq<char>, Seq<char>)>) -> Seq<char> {
    param_or(ps, "color"@, if name == "rain"@ { "randomized"@ } else { "rainbow"@ })
}

/// The plan that effect `name` with parameters `ps` gives, where it is
/// given; a color parameter is one that the effect's color text names.
pub open spec fn plan_matches(name: Seq<char>, ps: Seq<(Seq<char>, Seq<char>)>, p: EffectPlan) -> bool {
    let speed = u8_of(param_or(ps, "speed"@, "50"@));
    let dir = direction_of(param_or(ps, "direction"@, "right"@));
    let keyup = has_key(ps, "keyup"@);
    match p {
        EffectPlan::AllKeys(k) => name == "all-keys"@ && color_text(name, ps) == "stdin"@,
        EffectPlan::Gradient(cp) => (name == "all-keys"@ && color_text_denotes(color_text(name, ps), cp)
            && !(cp is PerKey)) || (name == "gradient"@ && dir == Some(Direction::Right) && color_text_denotes(
            color_text(name, ps),
            cp,
        )) || (name == "gradient"@ && dir == Some(Direction::Left) && exists|orig: ColorParam, stops: Seq<Stop>|
            color_text_denotes(color_text(name, ps), orig) && orig.resolves_to(stops) && cp is Gradient
                && cp->Gradient_0.colors@ == mirrored(stops)),
        EffectPlan::VerticalGradient(cp, up) => name == "gradient"@ && color_text_denotes(color_text(name, ps), cp)
            && ((dir == Some(Direction::Down) && !up) || (dir == Some(Direction::Up) && up)),
        EffectPlan::Pulse(cp, s) => name == "pulse"@ && color_text_denotes(color_text(name, ps), cp) && speed
            == Some(s),
        EffectPlan::Fade(cp, s) => name == "fade"@ && color_text_denotes(color_text(name, ps), cp) && speed
            == Some(s),
        EffectPlan::Wave(cp, s, d) => name == "wave"@ && color_text_denotes(color_text(name, ps), cp) && speed
            == Some(s) && dir == Some(d),
        EffectPlan::Rain(cp, s, d) => name == "rain"@ && color_text_denotes(color_text(name, ps), cp) && speed
            == Some(s) && dir == Some(d),
        EffectPlan::Reactive(cp, s, up) => name == "reactive"@ && color_text_denotes(color_text(name, ps), cp)
            && speed == Some(s) && up == keyup && !(keyup && has_key(ps, "keydown"@)),
        EffectPlan::ReactiveRipple(cp, s, up) => name == "reactive-ripple"@ && color_text_denotes(
            color_text(name, ps),
            cp,
        ) && speed == Some(s) && up == keyup && !(keyup && has_key(ps, "keydown"@)),
        EffectPlan::Software(e, rest) => rest@ == ps && match e {
            SoftwareEffect::ScreenCapture => name == "screen-capture"@,
            SoftwareEffect::SoundSpectrum => name == "sound-spectrum"@,
            SoftwareEffect::KeyIds => name == "x-key-ids"@,
        },
    }
}

/// The color text names a color parameter, or per-key colors to be read.
pub open spec fn color_text_valid(t: Seq<char>) -> bool {
    named_color_param(t) is Some || (starts_with(t, "rgb:"@) && rgb_of(t.subrange(4, t.len() as int)) is Some) || (
    starts_with(t, "gradient:"@) && gradient_of(t.subrange(9, t.len() as int)) is Ok) || t == "stdin"@
}

/// Effect `name` with parameters `ps` is refused whatever the per-key colors:
/// a value it reads does not parse, or a parameter is left over.
pub open spec fn plan_refused(name: Seq<char>, ps: Seq<(Seq<char>, Seq<char>)>) -> bool {
    let keys = effect_keys(name);
    keys.len() > 0 && {
        ||| !color_text_valid(color_text(name, ps))
        ||| takes_speed(name) && u8_of(param_or(ps, "speed"@, "50"@)) is None
        ||| takes_direction(name) && direction_of(param_or(ps, "direction"@, "right"@)) is None
        ||| takes_keyup(name) && has_key(ps, "keyup"@) && has_key(ps, "keydown"@)
        ||| without_all(ps, keys).len() > 0
    }
}

/// The effect reads a speed.
pub open spec fn takes_speed(name: Seq<char>) -> bool {
    name == "pulse"@ || name == "fade"@ || name == "wave"@ || name == "rain"@ || name == "reactive"@ || name
        == "reactive-ripple"@
}

/// The effect reads a direction.
pub open spec fn takes_direction(name: Seq<char>) -> bool {
    name == "wave"@ || name == "rain"@ || name == "gradient"@
}

/// The effect reads `keyup` and `keydown`.
pub open spec fn takes_keyup(name: Seq<char>) -> bool {
    name == "reactive"@ || name == "reactive-ripple"@
}

/// One of the effects that the host computes frame by frame.
pub open spec fn is_software_effect(name: Seq<char>) -> bool {
    name == "screen-capture"@ || name == "sound-spectrum"@ || name == "x-key-ids"@
}

impl EffectPlan {
    /// The plan's colors are ones the keyboard methods take.
    pub open spec fn wf(&self) -> bool {
        match self {
            EffectPlan::AllKeys(k) => k.wf(),
            EffectPlan::Gradient(cp) => cp.wf(),
            EffectPlan::VerticalGradient(cp, _) => cp.wf(),
            EffectPlan::Pulse(cp, _) => cp.wf(),
            EffectPlan::Wave(cp, _, _) => cp.wf(),
            EffectPlan::Reactive(cp, _, _) => cp.wf(),
            EffectPlan::ReactiveRipple(cp, _, _) => cp.wf(),
            EffectPlan::Rain(cp, _, _) => cp.wf(),
            EffectPlan::Fade(cp, _) => cp.wf(),
            EffectPlan::Software(_, _) => true,
        }
    }
}

/// Takes `key` out of `params`, giving its value or `default`.
fn take_or(params: &mut Params, key: &str, default: &str) -> (r: String)
    ensures
        r@ == param_or(old(params)@, key@, default@),
        final(params)@ == without(old(params)@, key@),
{
    match params.remove(key) {
        Some(v) => v,
        None => String::from_str(default),
    }
}

/// Takes the color parameter out of `params` and parses it.
fn take_color<F: FnOnce() -> Result<KeyMap, String>>(params: &mut Params, default: &str, read_keys: F) -> (r: Result<
    ColorParam,
    String,
>)
    requires
        read_keys.requires(()),
        forall|res: Result<KeyMap, String>| #[trigger] read_keys.ensures((), res) ==> (res matches Ok(k) ==> k.wf()),
    ensures
        final(params)@ == without(old(params)@, "color"@),
        r matches Ok(cp) ==> cp.wf() && color_text_denotes(param_or(old(params)@, "color"@, default@), cp),
        !color_text_valid(param_or(old(params)@, "color"@, default@)) ==> r is Err,
        color_text_valid(param_or(old(params)@, "color"@, default@)) && param_or(old(params)@, "color"@, default@)
            != "stdin"@ ==> r is Ok,
        param_or(old(params)@, "color"@, default@) == "stdin"@ ==> exists|res: Result<KeyMap, String>| #[trigger]
            read_keys.ensures((), res) && (r is Ok <==> res is Ok),
{
    let text = take_or(params, "color", default);
    proof {
        reveal_strlit("rainbow");
        reveal_strlit("random");
        reveal_strlit("randomized");
        reveal_strlit("rgb:");
        reveal_strlit("gradient:");
        reveal_strlit("stdin");
    }
    parse_color(text.as_str(), read_keys)
}

/// Decides what the effect `name` with `params` shows, reading per-key
/// colors through `read_keys` where the color parameter is `stdin`.
pub fn plan_effect<F: FnOnce() -> Result<KeyMap, String>>(name: &str, params: Params, read_keys: F) -> (r: Result<
    EffectPlan,
    String,
>)
    requires
        read_keys.requires(()),
        forall|res: Result<KeyMap, String>| #[trigger] read_keys.ensures((), res) ==> (res matches Ok(k) ==> k.wf()),
    ensures
        r matches Ok(p) ==> p.wf() && plan_matches(name@, params@, p) && (p is Software || without_all(
            params@,
            effect_keys(name@),
        ).len() == 0),
        !known_effect(name@) ==> (r matches Err(m) && m@ == "Unrecognized effect “"@ + name@ + "”"@),
        plan_refused(name@, params@) ==> r is Err,
        is_software_effect(name@) ==> r is Ok,
        effect_keys(name@).len() > 0 && !plan_refused(name@, params@) && color_text(name@, params@) != "stdin"@
            ==> r is Ok,
        effect_keys(name@).len() > 0 && !plan_refused(name@, params@) && color_text(name@, params@) == "stdin"@
            ==> exists|res: Result<KeyMap, String>| #[trigger]
                read_keys.ensures((), res) && (r is Ok <==> res is Ok),
{
    proof {
        lemma_effect_names();
        lemma_without_all(params@, "color"@, "speed"@, "direction"@, "keydown"@);
        lemma_without_all(params@, "color"@, "speed"@, "keyup"@, "keydown"@);
        lemma_without_all(params@, "color"@, "direction"@, "keyup"@, "keydown"@);
        lemma_key_kept(params@, "color"@, "speed"@, "50"@);
        lemma_key_kept(params@, "color"@, "direction"@, "right"@);
        lemma_key_kept(without(params@, "color"@), "speed"@, "direction"@, "right"@);
    }
    let ghost ps = params@;
    let mut params = params;
    if same_text(name, "all-keys") {
        let cp = take_color(&mut params, "rainbow", read_keys)?;
        assert(params@ == without_all(ps, effect_keys(name@)));
        check_superfluous_params(params)?;
        match cp {
            ColorParam::PerKey(k) => Ok(EffectPlan::AllKeys(k)),
            _ => Ok(EffectPlan::Gradient(cp)),
        }
    } else if same_text(name, "pulse") || same_text(name, "fade") {
        let cp = take_color(&mut params, "rainbow", read_keys)?;
        let speed = parse_speed(take_or(&mut params, "speed", "50").as_str())?;
        assert(params@ == without_all(ps, effect_keys(name@)));
        check_superfluous_params(params)?;
        if same_text(name, "pulse") {
            Ok(EffectPlan::Pulse(cp, speed))
        } else {
            Ok(EffectPlan::Fade(cp, speed))
        }
    } else if same_text(name, "wave") || same_text(name, "rain") {
        let is_rain = same_text(name, "rain");
        let cp = take_color(&mut params, if is_rain { "randomized" } else { "rainbow" }, read_keys)?;
        let speed = parse_speed(take_or(&mut params, "speed", "50").as_str())?;
        let dir = parse_direction(take_or(&mut params, "direction", "right").as_str())?;
        assert(params@ == without_all(ps, effect_keys(name@)));
        check_superfluous_params(params)?;
        if is_rain {
            Ok(EffectPlan::Rain(cp, speed, dir))
        } else {
            Ok(EffectPlan::Wave(cp, speed, dir))
        }
    } else if same_text(name, "reactive") || same_text(name, "reactive-ripple") {
        let cp = take_color(&mut params, "rainbow", read_keys)?;
        let speed = parse_speed(take_or(&mut params, "speed", "50").as_str())?;
        let ghost after_speed = params@;
        proof {
            lemma_key_kept(ps, "color"@, "keyup"@, seq![]);
            lemma_key_kept(without(ps, "color"@), "speed"@, "keyup"@, seq![]);
            lemma_key_kept(ps, "color"@, "keydown"@, seq![]);
            lemma_key_kept(without(ps, "color"@), "speed"@, "keydown"@, seq![]);
            lemma_key_kept(after_speed, "keyup"@, "keydown"@, seq![]);
        }
        let up = params.remove("keyup");
        let down = params.remove("keydown");
        let keyup = parse_keyup(
            match &up {
                Some(v) => Some(v.as_str()),
                None => None,
            },
            match &down {
                Some(v) => Some(v.as_str()),
                None => None,
            },
        )?;
        assert(params@ == without_all(ps, effect_keys(name@)));
        check_superfluous_params(params)?;
        if same_text(name, "reactive") {
            Ok(EffectPlan::Reactive(cp, speed, keyup))
        } else {
            Ok(EffectPlan::ReactiveRipple(cp, speed, keyup))
        }
    } else if same_text(name, "gradient") {
        let cp = take_color(&mut params, "rainbow", read_keys)?;
        let dir = parse_direction(take_or(&mut params, "direction", "right").as_str())?;
        assert(params@ == without_all(ps, effect_keys(name@)));
        check_superfluous_params(params)?;
        match dir {
            Direction::Right => Ok(EffectPlan::Gradient(cp)),
            Direction::Left => {
                let g = cp.gradient();
                proof {
                    cp.lemma_resolved_len(g.colors@);
                }
                let m = g.mirror();
                Ok(EffectPlan::Gradient(ColorParam::Gradient(m)))
            },
            Direction::Down => Ok(EffectPlan::VerticalGradient(cp, false)),
            Direction::Up => Ok(EffectPlan::VerticalGradient(cp, true)),
        }
    } else if same_text(name, "screen-capture") {
        Ok(EffectPlan::Software(SoftwareEffect::ScreenCapture, params))
    } else if same_text(name, "sound-spectrum") {
        Ok(EffectPlan::Software(SoftwareEffect::SoundSpectrum, params))
    } else if same_text(name, "x-key-ids") {
        Ok(EffectPlan::Software(SoftwareEffect::KeyIds, params))
    } else {
        let mut m = String::from_str("Unrecognized effect “");
        m.append(name);
        m.append("”");
        Err(m)
    }
}

proof fn lemma_key_index_bound(s: Seq<(Seq<char>, Seq<char>)>, j: Seq<char>)
    ensures
        0 <= key_index(s, j) <= s.len(),
    decreases s.len(),
{
    if s.len() > 0 {
        lemma_key_index_bound(s.drop_first(), j);
    }
}

proof fn lemma_param_or_tail(s: Seq<(Seq<char>, Seq<char>)>, j: Seq<char>, d: Seq<char>)
    requires
        s.len() > 0,
        s[0].0 != j,
    ensures
        param_or(s, j, d) == param_or(s.drop_first(), j, d),
        has_key(s, j) == has_key(s.drop_first(), j),
{
    let t = s.drop_first();
    lemma_key_index_bound(t, j);
    assert(key_index(s, j) == 1 + key_index(t, j));
    if key_index(t, j) < t.len() {
        assert(s[1 + key_index(t, j)] == t[key_index(t, j)]);
    }
}

/// Taking `k` out leaves the entry for another key `j` as it was.
proof fn lemma_key_kept(ps: Seq<(Seq<char>, Seq<char>)>, k: Seq<char>, j: Seq<char>, d: Seq<char>)
    requires
        k != j,
    ensures
        param_or(without(ps, k), j, d) == param_or(ps, j, d),
        has_key(without(ps, k), j) == has_key(ps, j),
    decreases ps.len(),
{
    if ps.len() > 0 {
        if ps[0].0 == k {
            assert(key_index(ps, k) == 0);
            assert(without(ps, k) =~= ps.drop_first());
            lemma_param_or_tail(ps, j, d);
        } else {
            let t = ps.drop_first();
            lemma_key_kept(t, k, j, d);
            lemma_key_index_bound(t, k);
            let i = key_index(t, k);
            assert(key_index(ps, k) == 1 + i);
            let w = without(ps, k);
            if i < t.len() {
                assert(ps.remove(1 + i) =~= seq![ps[0]] + t.remove(i));
            } else {
                assert(ps =~= seq![ps[0]] + t);
            }
            assert(w =~= seq![ps[0]] + without(t, k));
            if ps[0].0 != j {
                lemma_param_or_tail(ps, j, d);
                assert(w.drop_first() =~= without(t, k));
                lemma_param_or_tail(w, j, d);
            } else {
                assert(key_index(w, j) == 0);
                assert(key_index(ps, j) == 0);
            }
        }
    }
}

proof fn lemma_without_all(ps: Seq<(Seq<char>, Seq<char>)>, a: Seq<char>, b: Seq<char>, c: Seq<char>, e: Seq<char>)
    ensures
        without_all(ps, seq![a]) == without(ps, a),
        without_all(ps, seq![a, b]) == without(without(ps, a), b),
        without_all(ps, seq![a, b, c]) == without(without(without(ps, a), b), c),
        without_all(ps, seq![a, b, c, e]) == without(without(without(without(ps, a), b), c), e),
{
    reveal_with_fuel(without_all, 5);
    assert(seq![a].drop_last() =~= Seq::<Seq<char>>::empty());
    assert(seq![a, b].drop_last() =~= seq![a]);
    assert(seq![a, b, c].drop_last() =~= seq![a, b]);
    assert(seq![a, b, c, e].drop_last() =~= seq![a, b, c]);
    assert(seq![a].last() == a);
    assert(seq![a, b].last() == b);
    assert(seq![a, b, c].last() == c);
    assert(seq![a, b, c, e].last() == e);
}

/// The effect names differ from one another, and so do the parameter keys.
proof fn lemma_effect_names()
    ensures
        "all-keys"@ != "pulse"@,
        "all-keys"@ != "fade"@,
        "all-keys"@ != "wave"@,
        "all-keys"@ != "rain"@,
        "all-keys"@ != "reactive"@,
        "all-keys"@ != "reactive-ripple"@,
        "all-keys"@ != "gradient"@,
        "all-keys"@ != "screen-capture"@,
        "all-keys"@ != "sound-spectrum"@,
        "all-keys"@ != "x-key-ids"@,
        "pulse"@ != "fade"@,
        "pulse"@ != "wave"@,
        "pulse"@ != "rain"@,
        "pulse"@ != "reactive"@,
        "pulse"@ != "reactive-ripple"@,
        "pulse"@ != "gradient"@,
        "pulse"@ != "screen-capture"@,
        "pulse"@ != "sound-spectrum"@,
        "pulse"@ != "x-key-ids"@,
        "fade"@ != "wave"@,
        "fade"@ != "rain"@,
        "fade"@ != "reactive"@,
        "fade"@ != "reactive-ripple"@,
        "fade"@ != "gradient"@,
        "fade"@ != "screen-capture"@,
        "fade"@ != "sound-spectrum"@,
        "fade"@ != "x-key-ids"@,
        "wave"@ != "rain"@,
        "wave"@ != "reactive"@,
        "wave"@ != "reactive-ripple"@,
        "wave"@ != "gradient"@,
        "wave"@ != "screen-capture"@,
        "wave"@ != "sound-spectrum"@,
        "wave"@ != "x-key-ids"@,
        "rain"@ != "reactive"@,
        "rain"@ != "reactive-ripple"@,
        "rain"@ != "gradient"@,
        "rain"@ != "screen-capture"@,
        "rain"@ != "sound-spectrum"@,
        "rain"@ != "x-key-ids"@,
        "reactive"@ != "reactive-ripple"@,
        "reactive"@ != "gradient"@,
        "reactive"@ != "screen-capture"@,
        "reactive"@ != "sound-spectrum"@,
        "reactive"@ != "x-key-ids"@,
        "reactive-ripple"@ != "gradient"@,
        "reactive-ripple"@ != "screen-capture"@,
        "reactive-ripple"@ != "sound-spectrum"@,
        "reactive-ripple"@ != "x-key-ids"@,
        "gradient"@ != "screen-capture"@,
        "gradient"@ != "sound-spectrum"@,
        "gradient"@ != "x-key-ids"@,
        "screen-capture"@ != "sound-spectrum"@,
        "screen-capture"@ != "x-key-ids"@,
        "sound-spectrum"@ != "x-key-ids"@,
        "color"@ != "speed"@,
        "color"@ != "direction"@,
        "color"@ != "keyup"@,
        "color"@ != "keydown"@,
        "speed"@ != "direction"@,
        "speed"@ != "keyup"@,
        "speed"@ != "keydown"@,
        "direction"@ != "keyup"@,
        "direction"@ != "keydown"@,
        "keyup"@ != "keydown"@,
{
    reveal_strlit("all-keys");
    reveal_strlit("pulse");
    reveal_strlit("fade");
    reveal_strlit("wave");
    reveal_strlit("rain");
    reveal_strlit("reactive");
    reveal_strlit("reactive-ripple");
    reveal_strlit("gradient");
    reveal_strlit("screen-capture");
    reveal_strlit("sound-spectrum");
    reveal_strlit("x-key-ids");
    reveal_strlit("color");
    reveal_strlit("speed");
    reveal_strlit("direction");
    reveal_strlit("keyup");
    reveal_strlit("keydown");
    assert("all-keys"@.len() != "pulse"@.len());
    assert("all-keys"@.len() != "fade"@.len());
    assert("all-keys"@.len() != "wave"@.len());
    assert("all-keys"@.len() != "rain"@.len());
    assert("all-keys"@.len() != "reactive-ripple"@.len());
    assert("all-keys"@.len() != "screen-capture"@.len());
    assert("all-keys"@.len() != "sound-spectrum"@.len());
    assert("all-keys"@.len() != "x-key-ids"@.len());
    assert("pulse"@.len() != "fade"@.len());
    assert("pulse"@.len() != "wave"@.len());
    assert("pulse"@.len() != "rain"@.len());
    assert("pulse"@.len() != "reactive"@.len());
    assert("pulse"@.len() != "reactive-ripple"@.len());
    assert("pulse"@.len() != "gradient"@.len());
    assert("pulse"@.len() != "screen-capture"@.len());
    assert("pulse"@.len() != "sound-spectrum"@.len());
    assert("pulse"@.len() != "x-key-ids"@.len());
    assert("fade"@.len() != "reactive"@.len());
    assert("fade"@.len() != "reactive-ripple"@.len());
    assert("fade"@.len() != "gradient"@.len());
    assert("fade"@.len() != "screen-capture"@.len());
    assert("fade"@.len() != "sound-spectrum"@.len());
    assert("fade"@.len() != "x-key-ids"@.len());
    assert("wave"@.len() != "reactive"@.len());
    assert("wave"@.len() != "reactive-ripple"@.len());
    assert("wave"@.len() != "gradient"@.len());
    assert("wave"@.len() != "screen-capture"@.len());
    assert("wave"@.len() != "sound-spectrum"@.len());
    assert("wave"@.len() != "x-key-ids"@.len());
    assert("rain"@.len() != "reactive"@.len());
    assert("rain"@.len() != "reactive-ripple"@.len());
    assert("rain"@.len() != "gradient"@.len());
    assert("rain"@.len() != "screen-capture"@.len());
    assert("rain"@.len() != "sound-spectrum"@.len());
    assert("rain"@.len() != "x-key-ids"@.len());
    assert("reactive"@.len() != "reactive-ripple"@.len());
    assert("reactive"@.len() != "screen-capture"@.len());
    assert("reactive"@.len() != "sound-spectrum"@.len());
    assert("reactive"@.len() != "x-key-ids"@.len());
    assert("reactive-ripple"@.len() != "gradient"@.len());
    assert("reactive-ripple"@.len() != "screen-capture"@.len());
    assert("reactive-ripple"@.len() != "sound-spectrum"@.len());
    assert("reactive-ripple"@.len() != "x-key-ids"@.len());
    assert("gradient"@.len() != "screen-capture"@.len());
    assert("gradient"@.len() != "sound-spectrum"@.len());
    assert("gradient"@.len() != "x-key-ids"@.len());
    assert("screen-capture"@.len() != "x-key-ids"@.len());
    assert("sound-spectrum"@.len() != "x-key-ids"@.len());
    assert("color"@.len() != "direction"@.len());
    assert("color"@.len() != "keydown"@.len());
    assert("speed"@.len() != "direction"@.len());
    assert("speed"@.len() != "keydown"@.len());
    assert("direction"@.len() != "keyup"@.len());
    assert("direction"@.len() != "keydown"@.len());
    assert("keyup"@.len() != "keydown"@.len());
    assert("all-keys"@[0] != "reactive"@[0]);
    assert("all-keys"@[0] != "gradient"@[0]);
    assert("fade"@[0] != "wave"@[0]);
    assert("fade"@[0] != "rain"@[0]);
    assert("wave"@[0] != "rain"@[0]);
    assert("reactive"@[0] != "gradient"@[0]);
    assert("screen-capture"@[1] != "sound-spectrum"@[1]);
    assert("color"@[0] != "speed"@[0]);
    assert("color"@[0] != "keyup"@[0]);
    assert("speed"@[0] != "keyup"@[0]);
}

} // verus!
