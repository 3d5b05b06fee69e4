use crate::color::{rgb_of, Color, ColorMethods};
use crate::gradient::{Gradient, Stop};
use rand::seq::SliceRandom;
use vstd::arithmetic::div_mod::*;
use vstd::prelude::*;

verus! {

/// One color per key slot, in row-major order.
pub struct KeyMap {
    pub map: Vec<Color>,
}

/// The lighting color of an effect.
pub enum ColorParam {
    Color(Color),
    Rainbow,
    Randomized,
    Gradient(Gradient),
    PerKey(KeyMap),
}

/// Direction in which an effect moves.
pub enum Direction {
    Right,
    Left,
    Down,
    Up,
}

impl Direction {
    pub open spec fn spec_code(&self) -> u8 {
        match self {
            Direction::Right => 1,
            Direction::Left => 2,
            Direction::Down => 3,
            Direction::Up => 4,
        }
    }

    /// The direction's code in effect commands.
    pub fn code(&self) -> (r: u8)
        ensures
            r == self.spec_code(),
    {
        match self {
            Direction::Right => 1,
            Direction::Left => 2,
            Direction::Down => 3,
            Direction::Up => 4,
        }
    }
}

/// Channel `ch` (0 red, 1 green, 2 blue) of `c`.
pub open spec fn channel(c: Color, ch: int) -> u8 {
    if ch == 0 {
        c.0
    } else if ch == 1 {
        c.1
    } else {
        c.2
    }
}

/// Sum of channel `ch` over the colors `s[lo..hi]`.
pub open spec fn range_sum(s: Seq<Color>, lo: int, hi: int, ch: int) -> nat
    decreases hi - lo,
{
    if hi <= lo {
        0
    } else {
        range_sum(s, lo, hi - 1, ch) + channel(s[hi - 1], ch) as nat
    }
}

/// Per-channel mean of `s[lo..hi]`, truncated; black for an empty range.
pub open spec fn mean_color(s: Seq<Color>, lo: int, hi: int) -> Color {
    if hi <= lo {
        (0, 0, 0)
    } else {
        (
            (range_sum(s, lo, hi, 0) / (hi - lo) as nat) as u8,
            (range_sum(s, lo, hi, 1) / (hi - lo) as nat) as u8,
            (range_sum(s, lo, hi, 2) / (hi - lo) as nat) as u8,
        )
    }
}

/// First key slot that stop `g` of a per-key gradient averages: the slots
/// are cut into ten contiguous ranges of equal size, give or take one.
pub open spec fn stop_start(n: nat, g: int) -> int {
    (g * n + 5) / 10
}

/// Position of stop `g` of a per-key gradient.
pub open spec fn per_key_position(g: int) -> u8 {
    if g == 0 {
        0
    } else if g == 1 {
        11
    } else if g == 2 {
        22
    } else if g == 3 {
        33
    } else if g == 4 {
        44
    } else if g == 5 {
        56
    } else if g == 6 {
        67
    } else if g == 7 {
        78
    } else if g == 8 {
        89
    } else {
        100
    }
}

/// The ten stops that stand for a per-key color map.
pub open spec fn per_key_stops(s: Seq<Color>) -> Seq<Stop> {
    Seq::new(
        10,
        |g: int|
            (
                mean_color(s, stop_start(s.len(), g), stop_start(s.len(), g + 1)),
                per_key_position(g),
            ),
    )
}

/// The six hues of the rainbow palette, red to magenta.
pub open spec fn rainbow_hues() -> Seq<Color> {
    seq![
        (0xffu8, 0x00u8, 0x00u8),
        (0xff, 0xff, 0x00),
        (0x00, 0xff, 0x00),
        (0x00, 0xff, 0xff),
        (0x00, 0x00, 0xff),
        (0xff, 0x00, 0xff),
    ]
}

/// Six hues placed at 0, 20, 40, 60, 80 and 100.
pub open spec fn hue_stops(h: Seq<Color>) -> Seq<Stop> {
    Seq::new(6, |i: int| (h[i], (20 * i) as u8))
}

impl KeyMap {
    /// Within the size for which the per-channel sums fit.
    pub open spec fn wf(&self) -> bool {
        0 < self.map@.len() <= u32::MAX
    }
}

impl ColorParam {
    /// What the representative color and the gradient of the parameter are defined on.
    pub open spec fn wf(&self) -> bool {
        match self {
            ColorParam::Gradient(g) => g.wf(),
            ColorParam::PerKey(k) => k.wf(),
            _ => true,
        }
    }

    pub open spec fn spec_mode(&self) -> u8 {
        match self {
            ColorParam::Color(_) => 0,
            ColorParam::Rainbow => 1,
            ColorParam::Randomized => 2,
            ColorParam::Gradient(_) => 3,
            ColorParam::PerKey(_) => 0,
        }
    }

    /// The single color that stands for the parameter.
    pub open spec fn spec_rgb(&self) -> Color {
        match self {
            ColorParam::Color(c) => *c,
            ColorParam::Rainbow => (0, 0, 0),
            ColorParam::Randomized => (0, 0, 0),
            ColorParam::Gradient(g) => g.colors@[0].0,
            ColorParam::PerKey(k) => mean_color(k.map@, 0, k.map@.len() as int),
        }
    }

    /// The gradient of the parameter, for every variant but `Randomized`,
    /// whose hues are drawn anew each time.
    pub open spec fn spec_gradient(&self) -> Seq<Stop> {
        match self {
            ColorParam::Color(c) => seq![(*c, 0u8), (*c, 100u8)],
            ColorParam::Rainbow => hue_stops(rainbow_hues()),
            ColorParam::Randomized => hue_stops(rainbow_hues()),
            ColorParam::Gradient(g) => g.colors@,
            ColorParam::PerKey(k) => per_key_stops(k.map@),
        }
    }

    /// The variant's code in effect commands.
    pub fn mode(&self) -> (r: u8)
        ensures
            r == self.spec_mode(),
    {
        match self {
            ColorParam::Color(_) => 0,
            ColorParam::Rainbow => 1,
            ColorParam::Randomized => 2,
            ColorParam::Gradient(_) => 3,
            ColorParam::PerKey(_) => 0,
        }
    }

    /// The single color that stands for the parameter: the color itself, the
    /// first stop of a gradient, the mean of a per-key map, black otherwise.
    pub fn rgb(&self) -> (r: Color)
        requires
            self.wf(),
        ensures
            r == self.spec_rgb(),
    {
        match self {
            ColorParam::Color(c) => *c,
            ColorParam::Rainbow => (0, 0, 0),
            ColorParam::Randomized => (0, 0, 0),
            ColorParam::Gradient(g) => g.colors[0].0,
            ColorParam::PerKey(k) => mean_of_range(&k.map, 0, k.map.len()),
        }
    }
}

proof fn lemma_range_sum_bound(s: Seq<Color>, lo: int, hi: int, ch: int)
    requires
        lo <= hi,
    ensures
        range_sum(s, lo, hi, ch) <= 255 * (hi - lo),
    decreases hi - lo,
{
    if hi > lo {
        lemma_range_sum_bound(s, lo, hi - 1, ch);
    }
}

proof fn lemma_mean_bound(sum: nat, cnt: nat)
    requires
        cnt > 0,
        sum <= 255 * cnt,
    ensures
        sum / cnt <= 255,
{
    lemma_div_is_ordered(sum as int, (255 * cnt) as int, cnt as int);
    lemma_div_multiples_vanish(255, cnt as int);
}

/// Per-channel mean of `s[lo..hi]`, as `mean_color` says.
fn mean_of_range(s: &Vec<Color>, lo: usize, hi: usize) -> (r: Color)
    requires
        lo <= hi <= s@.len(),
        s@.len() <= u32::MAX,
    ensures
        r == mean_color(s@, lo as int, hi as int),
{
    if hi == lo {
        return (0, 0, 0);
    }
    let mut sum: (u64, u64, u64) = (0, 0, 0);
    let mut i: usize = lo;
    while i < hi
        invariant
            lo <= i <= hi <= s@.len(),
            s@.len() <= u32::MAX,
            sum.0 == range_sum(s@, lo as int, i as int, 0),
            sum.1 == range_sum(s@, lo as int, i as int, 1),
            sum.2 == range_sum(s@, lo as int, i as int, 2),
        decreases hi - i,
    {
        proof {
            lemma_range_sum_bound(s@, lo as int, i as int, 0);
            lemma_range_sum_bound(s@, lo as int, i as int, 1);
            lemma_range_sum_bound(s@, lo as int, i as int, 2);
        }
        let c = s[i];
        sum = (sum.0 + c.0 as u64, sum.1 + c.1 as u64, sum.2 + c.2 as u64);
        i = i + 1;
    }
    let cnt = (hi - lo) as u64;
    proof {
        lemma_range_sum_bound(s@, lo as int, hi as int, 0);
        lemma_range_sum_bound(s@, lo as int, hi as int, 1);
        lemma_range_sum_bound(s@, lo as int, hi as int, 2);
        lemma_mean_bound(sum.0 as nat, cnt as nat);
        lemma_mean_bound(sum.1 as nat, cnt as nat);
        lemma_mean_bound(sum.2 as nat, cnt as nat);
    }
    ((sum.0 / cnt) as u8, (sum.1 / cnt) as u8, (sum.2 / cnt) as u8)
}

/// Relies on rand's `SliceRandom::shuffle` over `thread_rng`: it only swaps
/// elements, so what comes back is a permutation of what went in. Which
/// permutation is left to chance.
#[verifier::external_body]
fn shuffle_colors(v: &mut Vec<Color>)
    ensures
        final(v)@.len() == old(v)@.len(),
        final(v)@.to_multiset() == old(v)@.to_multiset(),
{
    v.shuffle(&mut rand::thread_rng());
}

fn rainbow() -> (r: Vec<Color>)
    ensures
        r@ == rainbow_hues(),
{
    let r: Vec<Color> = vec![
        (0xff, 0x00, 0x00),
        (0xff, 0xff, 0x00),
        (0x00, 0xff, 0x00),
        (0x00, 0xff, 0xff),
        (0x00, 0x00, 0xff),
        (0xff, 0x00, 0xff),
    ];
    assert(r@ =~= rainbow_hues());
    r
}

/// The gradient that places six hues at 0, 20, 40, 60, 80 and 100.
pub fn hue_gradient(hues: &Vec<Color>) -> (g: Gradient)
    requires
        hues@.len() == 6,
    ensures
        g.colors@ == hue_stops(hues@),
{
    let mut colors: Vec<Stop> = Vec::new();
    let mut i: usize = 0;
    while i < 6
        invariant
            hues@.len() == 6,
            i <= 6,
            colors@ == hue_stops(hues@).subrange(0, i as int),
        decreases 6 - i,
    {
        colors.push((hues[i], (20 * i) as u8));
        i = i + 1;
        assert(colors@ =~= hue_stops(hues@).subrange(0, i as int));
    }
    assert(colors@ =~= hue_stops(hues@));
    Gradient { colors }
}

/// The ten stops that stand for a per-key map, as `per_key_stops` says.
fn per_key_gradient(s: &Vec<Color>) -> (r: Vec<Stop>)
    requires
        s@.len() <= u32::MAX,
    ensures
        r@ == per_key_stops(s@),
{
    let n = s.len();
    let positions: [u8; 10] = [0, 11, 22, 33, 44, 56, 67, 78, 89, 100];
    let mut out: Vec<Stop> = Vec::new();
    let mut g: usize = 0;
    while g < 10
        invariant
            n == s@.len(),
            n <= u32::MAX,
            g <= 10,
            positions@ == seq![0u8, 11, 22, 33, 44, 56, 67, 78, 89, 100],
            out@ == per_key_stops(s@).subrange(0, g as int),
        decreases 10 - g,
    {
        proof {
            assert(g * n <= (g + 1) * n <= 10 * n) by (nonlinear_arith)
                requires
                    g < 10,
            ;
            lemma_div_is_ordered((g * n + 5) as int, ((g + 1) * n + 5) as int, 10);
            lemma_div_is_ordered(((g + 1) * n + 5) as int, (10 * n + 5) as int, 10);
            lemma_fundamental_div_mod((10 * n + 5) as int, 10);
            assert((10 * n + 5) / 10 == n);
        }
        let lo = ((g as u64 * n as u64 + 5) / 10) as usize;
        let hi = (((g as u64 + 1) * n as u64 + 5) / 10) as usize;
        let c = mean_of_range(s, lo, hi);
        out.push((c, positions[g]));
        g = g + 1;
        assert(out@ =~= per_key_stops(s@).subrange(0, g as int));
    }
    assert(out@ =~= per_key_stops(s@));
    out
}

impl ColorParam {
    /// `stops` is a gradient that the parameter can resolve to: the one
    /// `spec_gradient` gives, or for `Randomized` the rainbow's hues in any order.
    pub open spec fn resolves_to(&self, stops: Seq<Stop>) -> bool {
        if self is Randomized {
            exists|h: Seq<Color>|
                h.to_multiset() == rainbow_hues().to_multiset() && h.len() == 6 && stops == hue_stops(h)
        } else {
            stops == self.spec_gradient()
        }
    }

    /// A parameter resolves to between one and ten stops, each on the 0 to 100 scale.
    pub proof fn lemma_resolved_len(&self, stops: Seq<Stop>)
        requires
            self.wf(),
            self.resolves_to(stops),
        ensures
            1 <= stops.len() <= 10,
            forall|i: int| 0 <= i < stops.len() ==> #[trigger] stops[i].1 <= 100,
    {
    }

    /// The gradient of the parameter: two stops of one color, the rainbow's
    /// six hues (drawn in random order for `Randomized`), the gradient itself,
    /// or ten stops averaging ten runs of a per-key map.
    pub fn gradient(&self) -> (r: Gradient)
        requires
            self.wf(),
        ensures
            self.resolves_to(r.colors@),
    {
        match self {
            ColorParam::Color(c) => {
                let r = Gradient { colors: vec![(*c, 0u8), (*c, 100u8)] };
                assert(r.colors@ =~= self.spec_gradient());
                r
            },
            ColorParam::Rainbow => hue_gradient(&rainbow()),
            ColorParam::Randomized => {
                let mut hues = rainbow();
                shuffle_colors(&mut hues);
                hue_gradient(&hues)
            },
            ColorParam::Gradient(g) => {
                let mut colors: Vec<Stop> = Vec::new();
                let mut i: usize = 0;
                while i < g.colors.len()
                    invariant
                        i <= g.colors@.len(),
                        colors@ == g.colors@.subrange(0, i as int),
                    decreases g.colors@.len() - i,
                {
                    colors.push(g.colors[i]);
                    i = i + 1;
                    assert(colors@ =~= g.colors@.subrange(0, i as int));
                }
                assert(colors@ =~= g.colors@);
                Gradient { colors }
            },
            ColorParam::PerKey(k) => Gradient { colors: per_key_gradient(&k.map) },
        }
    }
}

/// A per-key map whose keys all have one color stands for that color, and
/// so does each stop of its gradient once it has a key for every stop.
pub proof fn lemma_uniform_map(s: Seq<Color>, c: Color)
    requires
        s.len() > 0,
        forall|i: int| 0 <= i < s.len() ==> s[i] == c,
    ensures
        mean_color(s, 0, s.len() as int) == c,
        s.len() >= 10 ==> forall|g: int| 0 <= g < 10 ==> (#[trigger] per_key_stops(s)[g]).0 == c,
{
    lemma_uniform_mean(s, c, 0, s.len() as int);
    if s.len() >= 10 {
        assert forall|g: int| 0 <= g < 10 implies (#[trigger] per_key_stops(s)[g]).0 == c by {
            let n = s.len();
            let lo = stop_start(n, g);
            let hi = stop_start(n, g + 1);
            assert((g * n + 5) + 10 <= (g + 1) * n + 5) by (nonlinear_arith)
                requires
                    n >= 10,
            ;
            assert((g + 1) * n + 5 <= 10 * n + 5) by (nonlinear_arith)
                requires
                    g < 10,
            ;
            assert(0 <= g * n) by (nonlinear_arith)
                requires
                    g >= 0,
            ;
            lemma_div_plus_one((g * n + 5) as int, 10);
            lemma_div_is_ordered((g * n + 5) + 10, (g + 1) * n + 5, 10);
            lemma_div_is_ordered((g + 1) * n + 5, (10 * n + 5) as int, 10);
            lemma_fundamental_div_mod((10 * n + 5) as int, 10);
            lemma_div_pos_is_pos((g * n + 5) as int, 10);
            lemma_uniform_mean(s, c, lo, hi);
        }
    }
}

proof fn lemma_uniform_mean(s: Seq<Color>, c: Color, lo: int, hi: int)
    requires
        0 <= lo < hi <= s.len(),
        forall|i: int| 0 <= i < s.len() ==> s[i] == c,
    ensures
        mean_color(s, lo, hi) == c,
{
    lemma_uniform_sum(s, c, lo, hi, 0);
    lemma_uniform_sum(s, c, lo, hi, 1);
    lemma_uniform_sum(s, c, lo, hi, 2);
    lemma_div_multiples_vanish(c.0 as int, hi - lo);
    lemma_div_multiples_vanish(c.1 as int, hi - lo);
    lemma_div_multiples_vanish(c.2 as int, hi - lo);
}

proof fn lemma_uniform_sum(s: Seq<Color>, c: Color, lo: int, hi: int, ch: int)
    requires
        0 <= lo <= hi <= s.len(),
        forall|i: int| 0 <= i < s.len() ==> s[i] == c,
    ensures
        range_sum(s, lo, hi, ch) == (hi - lo) * channel(c, ch),
    decreases hi - lo,
{
    if hi > lo {
        lemma_uniform_sum(s, c, lo, hi - 1, ch);
        assert(s[hi - 1] == c);
        let v = channel(c, ch) as int;
        assert((hi - lo) * v == (hi - 1 - lo) * v + v) by (nonlinear_arith);
    } else {
        let v = channel(c, ch) as int;
        assert((hi - lo) * v == 0) by (nonlinear_arith)
            requires
                hi == lo,
        ;
    }
}

impl KeyMap {
    /// The map of `key_count` slots that lines of `RRGGBB` text give, one
    /// line per key slot in order; slots without a line stay black.
    pub fn from_lines(lines: &Vec<String>, key_count: usize) -> (r: Result<KeyMap, String>)
        requires
            lines@.len() <= key_count,
        ensures
            match r {
                Ok(k) => {
                    &&& k.map@.len() == key_count
                    &&& forall|i: int| 0 <= i < lines@.len() ==> Some(#[trigger] k.map@[i]) == rgb_of(lines@[i]@)
                    &&& forall|i: int| lines@.len() <= i < key_count ==> #[trigger] k.map@[i] == (0u8, 0u8, 0u8)
                },
                Err(m) => exists|i: int|
                    0 <= i < lines@.len() && rgb_of(#[trigger] lines@[i]@) is None && m@ == lines@[i]@
                        + " is not an RRGGBB value"@ && forall|j: int| 0 <= j < i ==> rgb_of(#[trigger] lines@[j]@) is Some,
            },
    {
        let mut map: Vec<Color> = Vec::new();
        let mut i: usize = 0;
        while i < lines.len()
            invariant
                lines@.len() <= key_count,
                i <= lines@.len(),
                map@.len() == i,
                forall|j: int| 0 <= j < i ==> Some(#[trigger] map@[j]) == rgb_of(lines@[j]@),
            decreases lines@.len() - i,
        {
            match <Color as ColorMethods>::from_str(lines[i].as_str()) {
                Ok(c) => map.push(c),
                Err(m) => {
                    assert forall|j: int| 0 <= j < i implies rgb_of(#[trigger] lines@[j]@) is Some by {
                        assert(Some(map@[j]) == rgb_of(lines@[j]@));
                    }
                    return Err(m);
                },
            }
            i = i + 1;
        }
        while i < key_count
            invariant
                lines@.len() <= i <= key_count,
                map@.len() == i,
                forall|j: int| 0 <= j < lines@.len() ==> Some(#[trigger] map@[j]) == rgb_of(lines@[j]@),
                forall|j: int| lines@.len() <= j < i ==> #[trigger] map@[j] == (0u8, 0u8, 0u8),
            decreases key_count - i,
        {
            map.push((0, 0, 0));
            i = i + 1;
        }
        Ok(KeyMap { map })
    }

    /// The map's colors as bytes: red, green and blue of each slot in turn.
    pub fn raw(&self) -> (r: Vec<u8>)
        requires
            self.map@.len() * 3 <= usize::MAX,
        ensures
            r@.len() == 3 * self.map@.len(),
            forall|k: int| 0 <= k < r@.len() ==> #[trigger] r@[k] == channel(self.map@[k / 3], k % 3),
    {
        let mut r: Vec<u8> = Vec::new();
        let mut i: usize = 0;
        while i < self.map.len()
            invariant
                i <= self.map@.len(),
                r@.len() == 3 * i,
                forall|k: int| 0 <= k < r@.len() ==> #[trigger] r@[k] == channel(self.map@[k / 3], k % 3),
            decreases self.map@.len() - i,
        {
            let c = self.map[i];
            r.push(c.0);
            r.push(c.1);
            r.push(c.2);
            i = i + 1;
        }
        r
    }
}

} // verus!
