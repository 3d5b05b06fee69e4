use crate::color_param::{ColorParam, Direction};
use crate::gradient::{gradient_table, Gradient, Stop};
use vstd::prelude::*;

verus! {

pub const OP_PULSE: u8 = 0x06;
pub const OP_WAVE: u8 = 0x07;
pub const OP_REACTIVE: u8 = 0x09;
pub const OP_REACTIVE_RIPPLE: u8 = 0x0a;
pub const OP_RAIN: u8 = 0x0b;
pub const OP_GRADIENT: u8 = 0x0c;
pub const OP_FADE: u8 = 0x0d;

/// The command of an effect that takes one color: opcode, mode, red, green,
/// blue, speed, then the effect's own trailing bytes.
pub open spec fn color_command(op: u8, mode: u8, cp: ColorParam, speed: u8, tail: Seq<u8>) -> Seq<u8> {
    seq![op, mode, cp.spec_rgb().0, cp.spec_rgb().1, cp.spec_rgb().2, speed] + tail
}

/// Trigger code of the reactive effects: 1 lights on key press, 0 on release.
pub open spec fn trigger_code(keyup: bool) -> u8 {
    if keyup {
        0
    } else {
        1
    }
}

/// Mode of the rain effect, which has no rainbow variant and runs randomized instead.
pub open spec fn rain_mode(cp: ColorParam) -> u8 {
    if cp is Rainbow {
        2
    } else {
        cp.spec_mode()
    }
}

/// The command of the static gradient effect.
pub open spec fn gradient_command(stops: Seq<Stop>) -> Seq<u8> {
    seq![OP_GRADIENT] + gradient_table(stops)
}

/// The command of the fade effect.
pub open spec fn fade_command(mode: u8, stops: Seq<Stop>, speed: u8) -> Seq<u8> {
    seq![OP_FADE, mode] + gradient_table(stops) + seq![speed]
}

fn color_payload(op: u8, mode: u8, cp: &ColorParam, speed: u8, tail: &[u8]) -> (r: Vec<u8>)
    requires
        cp.wf(),
        tail@.len() <= 1,
    ensures
        r@ == color_command(op, mode, *cp, speed, tail@),
{
    let rgb = cp.rgb();
    let mut r: Vec<u8> = vec![op, mode, rgb.0, rgb.1, rgb.2, speed];
    if tail.len() == 1 {
        r.push(tail[0]);
    }
    assert(r@ =~= color_command(op, mode, *cp, speed, tail@));
    r
}

/// Command of the pulse effect.
pub fn pulse_payload(cp: &ColorParam, speed: u8) -> (r: Vec<u8>)
    requires
        cp.wf(),
    ensures
        r@ == color_command(OP_PULSE, cp.spec_mode(), *cp, speed, seq![]),
{
    color_payload(OP_PULSE, cp.mode(), cp, speed, &[])
}

/// Command of the wave effect.
pub fn wave_payload(cp: &ColorParam, speed: u8, direction: &Direction) -> (r: Vec<u8>)
    requires
        cp.wf(),
    ensures
        r@ == color_command(OP_WAVE, cp.spec_mode(), *cp, speed, seq![direction.spec_code()]),
{
    color_payload(OP_WAVE, cp.mode(), cp, speed, &[direction.code()])
}

/// Command of the reactive effect.
pub fn reactive_payload(cp: &ColorParam, speed: u8, keyup: bool) -> (r: Vec<u8>)
    requires
        cp.wf(),
    ensures
        r@ == color_command(OP_REACTIVE, cp.spec_mode(), *cp, speed, seq![trigger_code(keyup)]),
{
    let t: u8 = if keyup {
        0
    } else {
        1
    };
    color_payload(OP_REACTIVE, cp.mode(), cp, speed, &[t])
}

/// Command of the reactive ripple effect.
pub fn reactive_ripple_payload(cp: &ColorParam, speed: u8, keyup: bool) -> (r: Vec<u8>)
    requires
        cp.wf(),
    ensures
        r@ == color_command(OP_REACTIVE_RIPPLE, cp.spec_mode(), *cp, speed, seq![trigger_code(keyup)]),
{
    let t: u8 = if keyup {
        0
    } else {
        1
    };
    color_payload(OP_REACTIVE_RIPPLE, cp.mode(), cp, speed, &[t])
}

/// Command of the rain effect.
pub fn rain_payload(cp: &ColorParam, speed: u8, direction: &Direction) -> (r: Vec<u8>)
    requires
        cp.wf(),
    ensures
        r@ == color_command(OP_RAIN, rain_mode(*cp), *cp, speed, seq![direction.spec_code()]),
{
    let mode = match cp {
        ColorParam::Rainbow => ColorParam::Randomized.mode(),
        _ => cp.mode(),
    };
    color_payload(OP_RAIN, mode, cp, speed, &[direction.code()])
}

/// Command of the static gradient effect.
pub fn gradient_payload(g: &Gradient) -> (r: Vec<u8>)
    requires
        1 <= g.colors@.len() <= 10,
    ensures
        r@ == gradient_command(g.colors@),
{
    let mut table = [0u8; 41];
    g.serialize(&mut table);
    let mut r: Vec<u8> = vec![OP_GRADIENT];
    let mut i: usize = 0;
    while i < 41
        invariant
            i <= 41,
            table@.subrange(0, 41) == gradient_table(g.colors@),
            table@.len() == 41,
            r@ == seq![OP_GRADIENT] + gradient_table(g.colors@).subrange(0, i as int),
        decreases 41 - i,
    {
        r.push(table[i]);
        i = i + 1;
        assert(r@ =~= seq![OP_GRADIENT] + gradient_table(g.colors@).subrange(0, i as int));
    }
    assert(gradient_table(g.colors@).subrange(0, 41) =~= gradient_table(g.colors@));
    r
}

/// Command of the fade effect.
pub fn fade_payload(mode: u8, g: &Gradient, speed: u8) -> (r: Vec<u8>)
    requires
        1 <= g.colors@.len() <= 10,
    ensures
        r@ == fade_command(mode, g.colors@, speed),
{
    let mut table = [0u8; 41];
    g.serialize(&mut table);
    let mut r: Vec<u8> = vec![OP_FADE, mode];
    let mut i: usize = 0;
    while i < 41
        invariant
            i <= 41,
            table@.subrange(0, 41) == gradient_table(g.colors@),
            table@.len() == 41,
            r@ == seq![OP_FADE, mode] + gradient_table(g.colors@).subrange(0, i as int),
        decreases 41 - i,
    {
        r.push(table[i]);
        i = i + 1;
        assert(r@ =~= seq![OP_FADE, mode] + gradient_table(g.colors@).subrange(0, i as int));
    }
    assert(gradient_table(g.colors@).subrange(0, 41) =~= gradient_table(g.colors@));
    r.push(speed);
    r
}

} // verus!
