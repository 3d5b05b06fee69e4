use crate::color::{is_hex_digit, rgb_of, Color, ColorMethods};
use crate::number::{all_digits, is_digit, parse_capped, unsigned_digits, unsigned_value};
use vstd::arithmetic::div_mod::*;
use vstd::prelude::*;
use vstd::string::*;

verus! {

/// A gradient stop: a color and its position on the 0 to 100 scale.
pub type Stop = (Color, u8);

/// A stop as written, whose position may be left for interpolation.
pub type LooseStop = (Color, Option<u8>);

/// The most stops a gradient can have.
pub const MAX_STOPS: usize = 10;

/// An ordered list of color stops.
pub struct Gradient {
    pub colors: Vec<Stop>,
}

impl Gradient {
    /// Within what the device's gradient table can hold.
    pub open spec fn wf(&self) -> bool {
        stops_wf(self.colors@)
    }
}

pub open spec fn stops_wf(s: Seq<Stop>) -> bool {
    &&& 1 <= s.len() <= 10
    &&& forall|i: int| 0 <= i < s.len() ==> #[trigger] s[i].1 <= 100
}

/// The pieces of `s` between the separators `sep`; each separator starts a new piece.
pub open spec fn split(s: Seq<char>, sep: char) -> Seq<Seq<char>>
    decreases s.len(),
{
    if s.len() == 0 {
        seq![Seq::empty()]
    } else {
        let t = split(s.drop_last(), sep);
        if s.last() == sep {
            t.push(Seq::empty())
        } else {
            t.update(t.len() - 1, t.last().push(s.last()))
        }
    }
}

/// Index of the first `c` in `t`, or `t.len()` where there is none.
pub open spec fn index_of(t: Seq<char>, c: char) -> int
    decreases t.len(),
{
    if t.len() == 0 {
        0
    } else if t[0] == c {
        0
    } else {
        1 + index_of(t.drop_first(), c)
    }
}

pub open spec fn position_too_large_msg() -> Seq<char> {
    "Gradient positions must not exceed 100"@
}

pub open spec fn no_colors_msg() -> Seq<char> {
    "Gradients must have at least one color"@
}

pub open spec fn too_many_colors_msg() -> Seq<char> {
    "Gradients cannot have more than ten colors"@
}

/// The explicit position that the text after `@` gives, if it is valid.
pub open spec fn position_of(t: Seq<char>) -> Result<u8, Seq<char>> {
    match unsigned_value(t) {
        None => Err(t + " is not a valid gradient position"@),
        Some(v) => if v > 100 {
            Err(position_too_large_msg())
        } else {
            Ok(v as u8)
        },
    }
}

/// One stop as written: `RRGGBB` or `RRGGBB@position`.
pub open spec fn stop_of(t: Seq<char>) -> Result<LooseStop, Seq<char>> {
    let k = index_of(t, '@');
    let pos: Result<Option<u8>, Seq<char>> = if k < t.len() {
        match position_of(t.subrange(k + 1, t.len() as int)) {
            Ok(p) => Ok(Some(p)),
            Err(e) => Err(e),
        }
    } else {
        Ok(None)
    };
    match pos {
        Err(e) => Err(e),
        Ok(p) => match rgb_of(t.subrange(0, k)) {
            Some(c) => Ok((c, p)),
            None => Err(t.subrange(0, k) + " is not an RRGGBB value"@),
        },
    }
}

/// The stops of the pieces `ts`, or the error of the first piece that is not one.
pub open spec fn stops_of(ts: Seq<Seq<char>>) -> Result<Seq<LooseStop>, Seq<char>>
    decreases ts.len(),
{
    if ts.len() == 0 {
        Ok(Seq::empty())
    } else {
        match stops_of(ts.drop_last()) {
            Err(e) => Err(e),
            Ok(v) => match stop_of(ts.last()) {
                Err(e) => Err(e),
                Ok(x) => Ok(v.push(x)),
            },
        }
    }
}

pub proof fn lemma_index_of(t: Seq<char>, c: char, k: int)
    requires
        0 <= k <= t.len(),
        forall|m: int| 0 <= m < k ==> t[m] != c,
        k == t.len() || t[k] == c,
    ensures
        index_of(t, c) == k,
    decreases k,
{
    if k > 0 {
        lemma_index_of(t.drop_first(), c, k - 1);
    }
}

proof fn lemma_split_grows(s: Seq<char>, sep: char, i: int, j: int)
    requires
        0 <= i <= j <= s.len(),
    ensures
        split(s.subrange(0, j), sep).len() >= split(s.subrange(0, i), sep).len() >= 1,
        split(s.subrange(0, j), sep).subrange(0, split(s.subrange(0, i), sep).len() - 1)
            == split(s.subrange(0, i), sep).drop_last(),
    decreases j,
{
    if j == 0 {
        assert(s.subrange(0, 0) =~= Seq::<char>::empty());
    } else if i == j {
        lemma_split_grows(s, sep, i - 1, j - 1);
        assert(s.subrange(0, j).drop_last() =~= s.subrange(0, j - 1));
        let t = split(s.subrange(0, j), sep);
        assert(t.subrange(0, t.len() - 1) =~= t.drop_last());
    } else {
        lemma_split_grows(s, sep, i, j - 1);
        assert(s.subrange(0, j).drop_last() =~= s.subrange(0, j - 1));
        let a = split(s.subrange(0, i), sep);
        let b = split(s.subrange(0, j - 1), sep);
        let c = split(s.subrange(0, j), sep);
        assert(c.subrange(0, a.len() - 1) =~= b.subrange(0, a.len() - 1));
    }
}

/// One step of a left-to-right scan that splits `s`: the pieces of
/// `s[..i + 1]` from those of `s[..i]`.
pub proof fn split_step(s: Seq<char>, sep: char, i: int, done: Seq<Seq<char>>, tok: Seq<char>, start: int)
    requires
        0 <= start <= i < s.len(),
        tok == s.subrange(start, i),
        split(s.subrange(0, i), sep) == done.push(tok),
    ensures
        s[i] == sep ==> split(s.subrange(0, i + 1), sep) == done.push(tok).push(s.subrange(i + 1, i + 1)),
        s[i] != sep ==> split(s.subrange(0, i + 1), sep) == done.push(s.subrange(start, i + 1)),
{
    assert(s.subrange(0, i + 1).drop_last() =~= s.subrange(0, i));
    assert(s.subrange(0, i + 1).last() == s[i]);
    if s[i] == sep {
        assert(s.subrange(i + 1, i + 1) =~= Seq::<char>::empty());
        assert(split(s.subrange(0, i + 1), sep) =~= done.push(tok).push(s.subrange(i + 1, i + 1)));
    } else {
        assert(tok.push(s[i]) =~= s.subrange(start, i + 1));
        assert(split(s.subrange(0, i + 1), sep) =~= done.push(s.subrange(start, i + 1)));
    }
}

proof fn lemma_stops_of_error(a: Seq<Seq<char>>, b: Seq<Seq<char>>)
    requires
        stops_of(a) is Err,
        a.len() <= b.len(),
        b.subrange(0, a.len() as int) == a,
    ensures
        stops_of(b) == stops_of(a),
    decreases b.len(),
{
    if b.len() > a.len() {
        assert(b.drop_last().subrange(0, a.len() as int) =~= a);
        lemma_stops_of_error(a, b.drop_last());
    } else {
        assert(b =~= a);
    }
}

fn parse_position(t: &str) -> (r: Result<u8, String>)
    ensures
        match r {
            Ok(p) => position_of(t@) == Ok::<u8, Seq<char>>(p),
            Err(m) => position_of(t@) == Err::<u8, Seq<char>>(m@),
        },
{
    match parse_capped(t) {
        None => {
            let mut m = t.to_owned();
            m.append(" is not a valid gradient position");
            Err(m)
        },
        Some(v) => if v > 100 {
            Err(String::from_str("Gradient positions must not exceed 100"))
        } else {
            Ok(v as u8)
        },
    }
}

fn parse_stop(t: &str) -> (r: Result<LooseStop, String>)
    ensures
        match r {
            Ok(x) => stop_of(t@) == Ok::<LooseStop, Seq<char>>(x),
            Err(m) => stop_of(t@) == Err::<LooseStop, Seq<char>>(m@),
        },
{
    let n = t.unicode_len();
    let mut k: usize = 0;
    while k < n && t.get_char(k) != '@'
        invariant
            n == t@.len(),
            k <= n,
            forall|m: int| 0 <= m < k ==> t@[m] != '@',
        decreases n - k,
    {
        k = k + 1;
    }
    proof {
        lemma_index_of(t@, '@', k as int);
    }
    let pos = if k < n {
        match parse_position(t.substring_char(k + 1, n)) {
            Ok(p) => Some(p),
            Err(e) => return Err(e),
        }
    } else {
        None
    };
    let c = <Color as ColorMethods>::from_str(t.substring_char(0, k))?;
    Ok((c, pos))
}

/// The stops a gradient text gives, before interpolation.
fn parse_loose_stops(s: &str) -> (r: Result<Vec<LooseStop>, String>)
    ensures
        match r {
            Ok(v) => stops_of(split(s@, ',')) == Ok::<Seq<LooseStop>, Seq<char>>(v@),
            Err(m) => stops_of(split(s@, ',')) == Err::<Seq<LooseStop>, Seq<char>>(m@),
        },
{
    let n = s.unicode_len();
    let mut out: Vec<LooseStop> = Vec::new();
    let ghost mut done: Seq<Seq<char>> = Seq::empty();
    let mut start: usize = 0;
    let mut i: usize = 0;
    assert(s@.subrange(0, 0) =~= Seq::<char>::empty());
    assert(split(s@.subrange(0, 0), ',') =~= done.push(s@.subrange(0, 0)));
    while i < n
        invariant
            n == s@.len(),
            start <= i <= n,
            split(s@.subrange(0, i as int), ',') == done.push(s@.subrange(start as int, i as int)),
            stops_of(done) == Ok::<Seq<LooseStop>, Seq<char>>(out@),
        decreases n - i,
    {
        let ghost tok = s@.subrange(start as int, i as int);
        assert(s@.subrange(0, i + 1).drop_last() =~= s@.subrange(0, i as int));
        if s.get_char(i) == ',' {
            assert(split(s@.subrange(0, i + 1), ',') =~= done.push(tok).push(Seq::empty()));
            let x = match parse_stop(s.substring_char(start, i)) {
                Ok(x) => x,
                Err(m) => {
                    proof {
                        lemma_split_grows(s@, ',', i + 1, n as int);
                        assert(s@.subrange(0, n as int) =~= s@);
                        assert(done.push(tok).drop_last() =~= done);
                        assert(done.push(tok).push(Seq::empty()).drop_last() =~= done.push(tok));
                        lemma_stops_of_error(done.push(tok), split(s@, ','));
                    }
                    return Err(m);
                },
            };
            proof {
                assert(done.push(tok).drop_last() =~= done);
                done = done.push(tok);
            }
            out.push(x);
            start = i + 1;
            assert(s@.subrange(start as int, i + 1) =~= Seq::<char>::empty());
        } else {
            assert(s@.subrange(0, i + 1).last() == s@[i as int]);
            assert(tok.push(s@[i as int]) =~= s@.subrange(start as int, i + 1));
            assert(split(s@.subrange(0, i + 1), ',') =~= done.push(s@.subrange(start as int, i + 1)));
        }
        i = i + 1;
    }
    let ghost tok = s@.subrange(start as int, n as int);
    assert(s@.subrange(0, n as int) =~= s@);
    assert(done.push(tok).drop_last() =~= done);
    let x = parse_stop(s.substring_char(start, n))?;
    out.push(x);
    Ok(out)
}

/// The stops with the first one placed at 0 and the last at 100 where they have no position.
pub open spec fn with_ends(v: Seq<LooseStop>) -> Seq<LooseStop> {
    let v1 = if v[0].1 is None {
        v.update(0, (v[0].0, Some(0u8)))
    } else {
        v
    };
    let last = v1.len() - 1;
    if v1[last].1 is None {
        v1.update(last, (v1[last].0, Some(100u8)))
    } else {
        v1
    }
}

/// Index of the nearest stop before `i` that has a position.
pub open spec fn prev_known(w: Seq<LooseStop>, i: int) -> int
    decreases i,
{
    if i <= 0 {
        0
    } else if w[i - 1].1 is Some {
        i - 1
    } else {
        prev_known(w, i - 1)
    }
}

/// Index of the nearest stop after `i` that has a position.
pub open spec fn next_known(w: Seq<LooseStop>, i: int) -> int
    decreases w.len() - i,
{
    if i + 1 >= w.len() {
        w.len() - 1
    } else if w[i + 1].1 is Some {
        i + 1
    } else {
        next_known(w, i + 1)
    }
}

/// Integer division rounded toward zero.
pub open spec fn trunc_div(x: int, d: int) -> int {
    if x >= 0 {
        x / d
    } else {
        -((-x) / d)
    }
}

/// Position of stop `i` of `w`: its own, or one spread evenly between the
/// nearest positioned stops around it, truncated toward the earlier one.
pub open spec fn filled_pos(w: Seq<LooseStop>, i: int) -> int {
    match w[i].1 {
        Some(p) => p as int,
        None => {
            let a = prev_known(w, i);
            let j = next_known(w, i);
            let b = w[a].1.unwrap() as int;
            b + trunc_div((i - a) * (w[j].1.unwrap() as int - b), j - a)
        },
    }
}

/// A position, where there is one, is on the 0 to 100 scale.
pub open spec fn pos_ok(p: Option<u8>) -> bool {
    match p {
        Some(x) => x <= 100,
        None => true,
    }
}

/// Every stop with a position.
pub open spec fn interpolate(v: Seq<LooseStop>) -> Seq<Stop> {
    let w = with_ends(v);
    Seq::new(w.len(), |i: int| (w[i].0, filled_pos(w, i) as u8))
}

/// `x` put after the stops of `s` whose position is not above its own.
pub open spec fn insert_stop(s: Seq<Stop>, x: Stop) -> Seq<Stop>
    decreases s.len(),
{
    if s.len() == 0 || s.last().1 <= x.1 {
        s.push(x)
    } else {
        insert_stop(s.drop_last(), x).push(s.last())
    }
}

/// Stops ordered by position; stops of equal position keep their order.
pub open spec fn sort_stops(s: Seq<Stop>) -> Seq<Stop>
    decreases s.len(),
{
    if s.len() == 0 {
        s
    } else {
        insert_stop(sort_stops(s.drop_last()), s.last())
    }
}

/// What a gradient text gives: its stops, positioned and sorted, or an error message.
pub open spec fn gradient_of(s: Seq<char>) -> Result<Seq<Stop>, Seq<char>> {
    match stops_of(split(s, ',')) {
        Err(e) => Err(e),
        Ok(v) => if v.len() == 0 {
            Err(no_colors_msg())
        } else if v.len() > 10 {
            Err(too_many_colors_msg())
        } else {
            Ok(sort_stops(interpolate(v)))
        },
    }
}

proof fn lemma_scaled_share(k: int, y: int, d: int)
    requires
        0 < k < d,
        0 <= y,
    ensures
        0 <= (k * y) / d <= y,
{
    assert(0 <= k * y <= d * y) by (nonlinear_arith)
        requires
            0 < k < d,
            0 <= y,
    ;
    lemma_div_is_ordered(k * y, d * y, d);
    lemma_div_multiples_vanish(y, d);
    lemma_div_pos_is_pos(k * y, d);
}

fn prev_known_index(w: &Vec<LooseStop>, i: usize) -> (a: usize)
    requires
        0 < i < w@.len(),
        w@[0].1 is Some,
    ensures
        a == prev_known(w@, i as int),
        a < i,
        w@[a as int].1 is Some,
{
    let mut a: usize = i - 1;
    while w[a].1.is_none()
        invariant
            a < i < w@.len(),
            w@[0].1 is Some,
            prev_known(w@, i as int) == prev_known(w@, a + 1),
        decreases a,
    {
        a = a - 1;
    }
    a
}

fn next_known_index(w: &Vec<LooseStop>, i: usize) -> (j: usize)
    requires
        i + 1 < w@.len(),
        w@[w@.len() - 1].1 is Some,
    ensures
        j == next_known(w@, i as int),
        i < j < w@.len(),
        w@[j as int].1 is Some,
{
    let n = w.len();
    let mut j: usize = i + 1;
    while w[j].1.is_none()
        invariant
            n == w@.len(),
            i < j < w@.len(),
            w@[w@.len() - 1].1 is Some,
            next_known(w@, i as int) == next_known(w@, j - 1),
        decreases w@.len() - j,
    {
        j = j + 1;
    }
    j
}

/// Gives every stop a position, as `interpolate` says.
fn interpolate_positions(v: &Vec<LooseStop>) -> (r: Vec<Stop>)
    requires
        1 <= v@.len() <= 10,
        forall|i: int| 0 <= i < v@.len() ==> pos_ok(#[trigger] v@[i].1),
    ensures
        r@ == interpolate(v@),
        forall|i: int| 0 <= i < r@.len() ==> #[trigger] r@[i].1 <= 100,
{
    let n = v.len();
    let mut w: Vec<LooseStop> = Vec::new();
    let mut k: usize = 0;
    while k < n
        invariant
            n == v@.len(),
            k <= n,
            w@ == v@.subrange(0, k as int),
        decreases n - k,
    {
        w.push(v[k]);
        k = k + 1;
    }
    assert(w@ =~= v@);
    if w[0].1.is_none() {
        let c = w[0].0;
        w.set(0, (c, Some(0u8)));
    }
    if w[n - 1].1.is_none() {
        let c = w[n - 1].0;
        w.set(n - 1, (c, Some(100u8)));
    }
    assert(w@ =~= with_ends(v@));
    let mut out: Vec<Stop> = Vec::new();
    let mut i: usize = 0;
    while i < n
        invariant
            n == w@.len(),
            n <= 10,
            w@ == with_ends(v@),
            w@[0].1 is Some,
            w@[n - 1].1 is Some,
            forall|m: int| 0 <= m < n ==> pos_ok(#[trigger] w@[m].1),
            i <= n,
            out@.len() == i,
            forall|m: int| 0 <= m < i ==> #[trigger] out@[m] == (w@[m].0, filled_pos(w@, m) as u8),
            forall|m: int| 0 <= m < i ==> #[trigger] out@[m].1 <= 100,
        decreases n - i,
    {
        match w[i].1 {
            Some(p) => {
                out.push((w[i].0, p));
            },
            None => {
                let a = prev_known_index(&w, i);
                let j = next_known_index(&w, i);
                let b = w[a].1.unwrap();
                let e = w[j].1.unwrap();
                let steps = (i - a) as u32;
                let span = (j - a) as u32;
                let pos: u8 = if e >= b {
                    let d: u32 = (e - b) as u32;
                    proof {
                        lemma_scaled_share(steps as int, d as int, span as int);
                        assert(steps * d <= 2550) by (nonlinear_arith)
                            requires
                                steps <= 10,
                                d <= 255,
                        ;
                    }
                    b + ((steps * d) / span) as u8
                } else {
                    let d: u32 = (b - e) as u32;
                    proof {
                        lemma_scaled_share(steps as int, d as int, span as int);
                        assert(steps * d <= 2550) by (nonlinear_arith)
                            requires
                                steps <= 10,
                                d <= 255,
                        ;
                        assert(-((i - a) * (e - b)) == steps * d) by (nonlinear_arith)
                            requires
                                steps == i - a,
                                d == b - e,
                        ;
                    }
                    b - ((steps * d) / span) as u8
                };
                assert(pos as int == filled_pos(w@, i as int));
                out.push((w[i].0, pos));
            },
        }
        i = i + 1;
    }
    assert(out@ =~= interpolate(v@));
    out
}

proof fn lemma_insert_at(s: Seq<Stop>, x: Stop, k: int)
    requires
        0 <= k <= s.len(),
        forall|m: int| k <= m < s.len() ==> (#[trigger] s[m]).1 > x.1,
        k == 0 || s[k - 1].1 <= x.1,
    ensures
        insert_stop(s, x) == s.subrange(0, k).push(x) + s.subrange(k, s.len() as int),
    decreases s.len(),
{
    if s.len() == k {
        assert(s.subrange(0, k) =~= s);
        assert(s.subrange(0, k).push(x) + s.subrange(k, s.len() as int) =~= s.push(x));
    } else {
        lemma_insert_at(s.drop_last(), x, k);
        assert(s.subrange(0, k).push(x) + s.subrange(k, s.len() as int) =~= (
        s.drop_last().subrange(0, k).push(x) + s.drop_last().subrange(k, s.len() - 1)).push(s.last()));
    }
}

/// Orders stops by position, keeping the order of stops at equal positions.
fn sort_by_position(v: &Vec<Stop>) -> (r: Vec<Stop>)
    ensures
        r@ == sort_stops(v@),
{
    let mut out: Vec<Stop> = Vec::new();
    let mut i: usize = 0;
    while i < v.len()
        invariant
            i <= v@.len(),
            out@ == sort_stops(v@.subrange(0, i as int)),
        decreases v@.len() - i,
    {
        let x = v[i];
        let mut k: usize = out.len();
        while k > 0 && out[k - 1].1 > x.1
            invariant
                k <= out@.len(),
                forall|m: int| k <= m < out@.len() ==> (#[trigger] out@[m]).1 > x.1,
            decreases k,
        {
            k = k - 1;
        }
        proof {
            lemma_insert_at(out@, x, k as int);
            assert(v@.subrange(0, i + 1).drop_last() =~= v@.subrange(0, i as int));
        }
        let mut next: Vec<Stop> = Vec::new();
        let mut m: usize = 0;
        while m < out.len()
            invariant
                k <= out@.len(),
                m <= out@.len(),
                next@ == if m <= k {
                    out@.subrange(0, m as int)
                } else {
                    out@.subrange(0, k as int).push(x) + out@.subrange(k as int, m as int)
                },
            decreases out@.len() - m,
        {
            if m == k {
                next.push(x);
            }
            next.push(out[m]);
            m = m + 1;
            assert(next@ =~= if m <= k {
                out@.subrange(0, m as int)
            } else {
                out@.subrange(0, k as int).push(x) + out@.subrange(k as int, m as int)
            });
        }
        if k == out.len() {
            next.push(x);
        }
        assert(next@ =~= out@.subrange(0, k as int).push(x) + out@.subrange(k as int, out@.len() as int));
        out = next;
        i = i + 1;
    }
    assert(v@.subrange(0, v@.len() as int) =~= v@);
    out
}

/// Stops in ascending order of position.
pub open spec fn sorted_stops(s: Seq<Stop>) -> bool {
    forall|i: int, j: int| 0 <= i < j < s.len() ==> s[i].1 <= s[j].1
}

/// Positions on the 0 to 100 scale.
pub open spec fn positions_ok(s: Seq<Stop>) -> bool {
    forall|i: int| 0 <= i < s.len() ==> #[trigger] s[i].1 <= 100
}

proof fn lemma_insert_stop(s: Seq<Stop>, x: Stop)
    requires
        sorted_stops(s),
    ensures
        insert_stop(s, x).len() == s.len() + 1,
        sorted_stops(insert_stop(s, x)),
        positions_ok(s) && x.1 <= 100 ==> positions_ok(insert_stop(s, x)),
        forall|i: int| 0 <= i < insert_stop(s, x).len() ==> insert_stop(s, x)[i] == x || exists|m: int| 0 <= m < s.len() && s[m] == #[trigger] insert_stop(s, x)[i],
    decreases s.len(),
{
    if s.len() == 0 || s.last().1 <= x.1 {
        let r = s.push(x);
        assert forall|i: int| 0 <= i < r.len() implies r[i] == x || exists|m: int| 0 <= m < s.len() && s[m] == #[trigger] r[i] by {
            if i < s.len() {
                assert(s[i] == r[i]);
            }
        }
    } else {
        let d = s.drop_last();
        lemma_insert_stop(d, x);
        let r = insert_stop(d, x);
        let q = r.push(s.last());
        assert forall|i: int, j: int| 0 <= i < j < q.len() implies q[i].1 <= q[j].1 by {
            if j == q.len() - 1 && i < r.len() {
                if r[i] == x {
                } else {
                    let m = choose|m: int| 0 <= m < d.len() && d[m] == #[trigger] r[i];
                    assert(s[m] == d[m]);
                }
            }
        }
        assert forall|i: int| 0 <= i < q.len() implies q[i] == x || exists|m: int| 0 <= m < s.len() && s[m] == #[trigger] q[i] by {
            if i < r.len() {
                if r[i] != x {
                    let m = choose|m: int| 0 <= m < d.len() && d[m] == #[trigger] r[i];
                    assert(s[m] == q[i]);
                }
            } else {
                assert(s[s.len() - 1] == q[i]);
            }
        }
    }
}

proof fn lemma_sort_stops(s: Seq<Stop>)
    ensures
        sort_stops(s).len() == s.len(),
        sorted_stops(sort_stops(s)),
        positions_ok(s) ==> positions_ok(sort_stops(s)),
        sorted_stops(s) ==> sort_stops(s) == s,
    decreases s.len(),
{
    if s.len() > 0 {
        let d = s.drop_last();
        lemma_sort_stops(d);
        lemma_insert_stop(sort_stops(d), s.last());
        if positions_ok(s) {
            assert(positions_ok(d));
            assert(s.last().1 <= 100);
        }
        if sorted_stops(s) {
            assert(sorted_stops(d));
            assert(d.push(s.last()) =~= s);
        }
    }
}

proof fn lemma_stops_of_ok(ts: Seq<Seq<char>>)
    ensures
        stops_of(ts) matches Ok(v) ==> v.len() == ts.len() && forall|i: int| 0 <= i < v.len() ==> pos_ok(#[trigger] v[i].1),
    decreases ts.len(),
{
    if ts.len() > 0 {
        lemma_stops_of_ok(ts.drop_last());
        if let Ok(v) = stops_of(ts) {
            let w = stops_of(ts.drop_last())->Ok_0;
            assert(v == w.push(v.last()));
            assert forall|i: int| 0 <= i < v.len() implies pos_ok(#[trigger] v[i].1) by {
                if i < w.len() {
                    assert(v[i] == w[i]);
                }
            }
        }
    }
}

proof fn lemma_stops_of_err_at(ts: Seq<Seq<char>>, k: int)
    requires
        0 <= k < ts.len(),
        stop_of(ts[k]) is Err,
    ensures
        stops_of(ts) is Err,
    decreases ts.len(),
{
    if k < ts.len() - 1 {
        lemma_stops_of_err_at(ts.drop_last(), k);
    }
}

/// The color text of a stop: what stands before its `@`.
pub open spec fn color_part(t: Seq<char>) -> Seq<char> {
    t.subrange(0, index_of(t, '@'))
}

/// The position a stop gives explicitly, as a number, if it gives one.
pub open spec fn explicit_position(t: Seq<char>) -> Option<nat> {
    let k = index_of(t, '@');
    if k < t.len() {
        unsigned_value(t.subrange(k + 1, t.len() as int))
    } else {
        None
    }
}

/// The stop gives a position above 100.
pub open spec fn position_above_scale(t: Seq<char>) -> bool {
    match explicit_position(t) {
        Some(p) => p > 100,
        None => false,
    }
}

proof fn lemma_index_of_bound(t: Seq<char>, c: char)
    ensures
        0 <= index_of(t, c) <= t.len(),
    decreases t.len(),
{
    if t.len() > 0 {
        lemma_index_of_bound(t.drop_first(), c);
    }
}

/// A gradient text is refused when it has more than ten stops, when a stop
/// places its color above 100, and when a stop has no color.
pub proof fn lemma_gradient_refusals(s: Seq<char>)
    ensures
        split(s, ',').len() > 10 ==> gradient_of(s) is Err,
        forall|k: int|
            0 <= k < split(s, ',').len() && #[trigger] position_above_scale(split(s, ',')[k])
                ==> gradient_of(s) is Err,
        forall|k: int|
            0 <= k < split(s, ',').len() && (#[trigger] color_part(split(s, ',')[k])).len() == 0
                ==> gradient_of(s) is Err,
{
    let ts = split(s, ',');
    lemma_stops_of_ok(ts);
    assert forall|k: int|
        0 <= k < ts.len() && #[trigger] position_above_scale(ts[k]) implies gradient_of(s) is Err by {
        lemma_index_of_bound(ts[k], '@');
        lemma_stops_of_err_at(ts, k);
    }
    assert forall|k: int|
        0 <= k < ts.len() && (#[trigger] color_part(ts[k])).len() == 0 implies gradient_of(s) is Err by {
        lemma_index_of_bound(ts[k], '@');
        assert(rgb_of(color_part(ts[k])) is None);
        lemma_stops_of_err_at(ts, k);
    }
}

/// Stops that all carry a position keep it through interpolation; in
/// ascending order they are also what sorting gives back.
pub proof fn lemma_explicit_positions_kept(v: Seq<LooseStop>)
    requires
        v.len() >= 1,
        forall|i: int| 0 <= i < v.len() ==> (#[trigger] v[i].1) is Some,
    ensures
        interpolate(v) == Seq::new(v.len(), |i: int| (v[i].0, v[i].1.unwrap())),
        sorted_stops(interpolate(v)) ==> sort_stops(interpolate(v)) == interpolate(v),
{
    assert(with_ends(v) == v);
    assert(interpolate(v) =~= Seq::new(v.len(), |i: int| (v[i].0, v[i].1.unwrap())));
    lemma_sort_stops(interpolate(v));
}

/// The pieces `ts` written one after another with `sep` between them.
pub open spec fn join(ts: Seq<Seq<char>>, sep: char) -> Seq<char>
    decreases ts.len(),
{
    if ts.len() == 0 {
        Seq::empty()
    } else if ts.len() == 1 {
        ts[0]
    } else {
        join(ts.drop_last(), sep).push(sep) + ts.last()
    }
}

proof fn lemma_split_append(x: Seq<char>, sep: char, b: Seq<char>)
    requires
        forall|i: int| 0 <= i < b.len() ==> b[i] != sep,
    ensures
        split(x.push(sep) + b, sep) == split(x, sep).push(b),
    decreases b.len(),
{
    let s = x.push(sep) + b;
    if b.len() == 0 {
        assert(s =~= x.push(sep));
        assert(s.drop_last() =~= x);
        assert(s.last() == sep);
        assert(b =~= Seq::<char>::empty());
    } else {
        lemma_split_append(x, sep, b.drop_last());
        assert(s.drop_last() =~= x.push(sep) + b.drop_last());
        assert(s.last() == b[b.len() - 1]);
        assert(s.last() != sep);
        assert(b.drop_last().push(b.last()) =~= b);
        assert(split(s, sep) =~= split(x, sep).push(b));
    }
}

proof fn lemma_split_join(ts: Seq<Seq<char>>, sep: char)
    requires
        ts.len() >= 1,
        forall|k: int, i: int| 0 <= k < ts.len() && 0 <= i < ts[k].len() ==> #[trigger] ts[k][i] != sep,
    ensures
        split(join(ts, sep), sep) == ts,
    decreases ts.len(),
{
    if ts.len() == 1 {
        lemma_split_no_sep(ts[0], sep);
        assert(seq![ts[0]] =~= ts);
    } else {
        lemma_split_join(ts.drop_last(), sep);
        let b = ts.last();
        assert forall|i: int| 0 <= i < b.len() implies b[i] != sep by {
            assert(ts[ts.len() - 1][i] != sep);
        }
        lemma_split_append(join(ts.drop_last(), sep), sep, b);
        assert(ts.drop_last().push(b) =~= ts);
    }
}

proof fn lemma_split_no_sep(t: Seq<char>, sep: char)
    requires
        forall|i: int| 0 <= i < t.len() ==> t[i] != sep,
    ensures
        split(t, sep) == seq![t],
    decreases t.len(),
{
    if t.len() == 0 {
        assert(t =~= Seq::<char>::empty());
    } else {
        lemma_split_no_sep(t.drop_last(), sep);
        assert(t.drop_last().push(t.last()) =~= t);
        assert(split(t, sep) =~= seq![t]);
    }
}

/// A decimal position text on the 0 to 100 scale.
pub open spec fn position_text_ok(p: Seq<char>) -> bool {
    match unsigned_value(p) {
        Some(v) => v <= 100,
        None => false,
    }
}

/// The text of a stop with an explicit position: `h@p`.
pub open spec fn positioned_stop(h: Seq<char>, p: Seq<char>) -> Seq<char> {
    h.push('@') + p
}

proof fn lemma_positioned_stop(h: Seq<char>, p: Seq<char>)
    requires
        rgb_of(h) is Some,
        position_text_ok(p),
    ensures
        stop_of(positioned_stop(h, p)) == Ok::<LooseStop, Seq<char>>(
            (rgb_of(h).unwrap(), Some(unsigned_value(p).unwrap() as u8)),
        ),
{
    let t = positioned_stop(h, p);
    assert forall|m: int| 0 <= m < 6 implies t[m] != '@' by {
        assert(is_hex_digit(h[m]));
    }
    lemma_index_of(t, '@', 6);
    assert(t.subrange(0, 6) =~= h);
    assert(t.subrange(7, t.len() as int) =~= p);
}

proof fn lemma_stops_of_positioned(hs: Seq<Seq<char>>, ps: Seq<Seq<char>>)
    requires
        hs.len() == ps.len(),
        forall|k: int| 0 <= k < hs.len() ==> rgb_of(#[trigger] hs[k]) is Some,
        forall|k: int| 0 <= k < ps.len() ==> #[trigger] position_text_ok(ps[k]),
    ensures
        stops_of(Seq::new(hs.len(), |k: int| positioned_stop(hs[k], ps[k]))) == Ok::<Seq<LooseStop>, Seq<char>>(
            Seq::new(hs.len(), |k: int| (rgb_of(hs[k]).unwrap(), Some(unsigned_value(ps[k]).unwrap() as u8))),
        ),
    decreases hs.len(),
{
    let n = hs.len();
    if n > 0 {
        let hd = hs.drop_last();
        let pd = ps.drop_last();
        assert forall|k: int| 0 <= k < hd.len() implies rgb_of(#[trigger] hd[k]) is Some by {
            assert(hd[k] == hs[k]);
        }
        assert forall|k: int| 0 <= k < pd.len() implies #[trigger] position_text_ok(pd[k]) by {
            assert(pd[k] == ps[k]);
        }
        lemma_stops_of_positioned(hd, pd);
        assert(Seq::new(n, |k: int| positioned_stop(hs[k], ps[k])).drop_last() =~= Seq::new(
            hd.len(),
            |k: int| positioned_stop(hd[k], pd[k]),
        ));
        assert(rgb_of(hs[n - 1]) is Some);
        assert(position_text_ok(ps[n - 1]));
        lemma_positioned_stop(hs[n - 1], ps[n - 1]);
        assert(Seq::new(hd.len(), |k: int| (rgb_of(hd[k]).unwrap(), Some(unsigned_value(pd[k]).unwrap() as u8))).push(
            (rgb_of(hs[n - 1]).unwrap(), Some(unsigned_value(ps[n - 1]).unwrap() as u8)),
        ) =~= Seq::new(n, |k: int| (rgb_of(hs[k]).unwrap(), Some(unsigned_value(ps[k]).unwrap() as u8))));
    } else {
        assert(Seq::new(0, |k: int| (rgb_of(hs[k]).unwrap(), Some(unsigned_value(ps[k]).unwrap() as u8))) =~= Seq::<
            LooseStop,
        >::empty());
    }
}

/// A gradient text of one to ten stops `RRGGBB@p`, all with explicit
/// positions, parses to those stops ordered by position (stops at equal
/// positions keep their order); where the positions already ascend, it
/// parses to exactly the stops as written.
pub proof fn lemma_positioned_text_kept(hs: Seq<Seq<char>>, ps: Seq<Seq<char>>)
    requires
        1 <= hs.len() <= 10,
        hs.len() == ps.len(),
        forall|k: int| 0 <= k < hs.len() ==> rgb_of(#[trigger] hs[k]) is Some,
        forall|k: int| 0 <= k < ps.len() ==> #[trigger] position_text_ok(ps[k]),
    ensures
        ({
            let text = join(Seq::new(hs.len(), |k: int| positioned_stop(hs[k], ps[k])), ',');
            let stops = Seq::new(hs.len(), |k: int| (rgb_of(hs[k]).unwrap(), unsigned_value(ps[k]).unwrap() as u8));
            &&& gradient_of(text) == Ok::<Seq<Stop>, Seq<char>>(sort_stops(stops))
            &&& sorted_stops(stops) ==> gradient_of(text) == Ok::<Seq<Stop>, Seq<char>>(stops)
        }),
{
    let n = hs.len();
    let ts = Seq::new(n, |k: int| positioned_stop(hs[k], ps[k]));
    assert forall|k: int, i: int| 0 <= k < ts.len() && 0 <= i < ts[k].len() implies #[trigger] ts[k][i] != ',' by {
        let h = hs[k];
        let p = ps[k];
        assert(rgb_of(h) is Some);
        assert(position_text_ok(p));
        if i < 6 {
            assert(is_hex_digit(h[i]));
        } else if i > 6 {
            let d = unsigned_digits(p);
            if p.len() > 0 && p[0] == '+' {
                if i > 7 {
                    assert(d[i - 8] == p[i - 7]);
                    assert(is_digit(d[i - 8]));
                }
            } else {
                assert(d[i - 7] == p[i - 7]);
                assert(is_digit(d[i - 7]));
            }
        }
    }
    lemma_split_join(ts, ',');
    lemma_stops_of_positioned(hs, ps);
    let v = Seq::new(n, |k: int| (rgb_of(hs[k]).unwrap(), Some(unsigned_value(ps[k]).unwrap() as u8)));
    let stops = Seq::new(n, |k: int| (rgb_of(hs[k]).unwrap(), unsigned_value(ps[k]).unwrap() as u8));
    assert forall|i: int| 0 <= i < v.len() implies (#[trigger] v[i].1) is Some by {}
    lemma_explicit_positions_kept(v);
    assert(interpolate(v) =~= stops);
    lemma_sort_stops(stops);
}

/// The 41-byte table in which the device takes a gradient: the number of
/// stops, then ten slots of red, green, blue and position, unused ones zero.
pub open spec fn gradient_table(s: Seq<Stop>) -> Seq<u8> {
    Seq::new(
        41,
        |k: int|
            if k == 0 {
                s.len() as u8
            } else {
                table_byte(s, (k - 1) / 4, (k - 1) % 4)
            },
    )
}

/// Field `f` of slot `slot` of a gradient table.
pub open spec fn table_byte(s: Seq<Stop>, slot: int, f: int) -> u8 {
    if slot < s.len() {
        if f == 0 {
            s[slot].0.0
        } else if f == 1 {
            s[slot].0.1
        } else if f == 2 {
            s[slot].0.2
        } else {
            s[slot].1
        }
    } else {
        0
    }
}

/// The gradient seen from the other end: stops in reverse order, each at
/// 100 minus its position.
pub open spec fn mirrored(s: Seq<Stop>) -> Seq<Stop> {
    Seq::new(s.len(), |i: int| (s[s.len() - 1 - i].0, (100 - s[s.len() - 1 - i].1) as u8))
}

impl Gradient {
    /// The gradient running the other way.
    pub fn mirror(&self) -> (r: Gradient)
        requires
            positions_ok(self.colors@),
        ensures
            r.colors@ == mirrored(self.colors@),
    {
        let n = self.colors.len();
        let mut colors: Vec<Stop> = Vec::new();
        let mut i: usize = 0;
        while i < n
            invariant
                n == self.colors@.len(),
                positions_ok(self.colors@),
                i <= n,
                colors@ == mirrored(self.colors@).subrange(0, i as int),
            decreases n - i,
        {
            let s = self.colors[n - 1 - i];
            colors.push((s.0, 100 - s.1));
            i = i + 1;
            assert(colors@ =~= mirrored(self.colors@).subrange(0, i as int));
        }
        assert(colors@ =~= mirrored(self.colors@));
        Gradient { colors }
    }

    /// Parses `RRGGBB[@position]` stops separated by commas, fills in missing
    /// positions and orders the stops by position.
    pub fn from_str(s: &str) -> (r: Result<Gradient, String>)
        ensures
            match r {
                Ok(g) => gradient_of(s@) == Ok::<Seq<Stop>, Seq<char>>(g.colors@),
                Err(m) => gradient_of(s@) == Err::<Seq<Stop>, Seq<char>>(m@),
            },
            r matches Ok(g) ==> g.wf() && sorted_stops(g.colors@),
    {
        let proto = parse_loose_stops(s)?;
        if proto.len() == 0 {
            return Err(String::from_str("Gradients must have at least one color"));
        } else if proto.len() > 10 {
            return Err(String::from_str("Gradients cannot have more than ten colors"));
        }
        proof {
            lemma_stops_of_ok(split(s@, ','));
        }
        let filled = interpolate_positions(&proto);
        let colors = sort_by_position(&filled);
        proof {
            lemma_sort_stops(filled@);
        }
        Ok(Gradient { colors })
    }

    /// Writes the gradient's table into the first 41 bytes of `to`.
    pub fn serialize(&self, to: &mut [u8])
        requires
            1 <= self.colors@.len() <= 10,
            old(to)@.len() >= 41,
        ensures
            final(to)@.len() == old(to)@.len(),
            final(to)@.subrange(0, 41) == gradient_table(self.colors@),
            final(to)@.subrange(41, final(to)@.len() as int) == old(to)@.subrange(41, old(to)@.len() as int),
    {
        let len = self.colors.len();
        to[0] = len as u8;
        let mut i: usize = 0;
        while i < 10
            invariant
                len == self.colors@.len(),
                1 <= len <= 10,
                i <= 10,
                to@.len() == old(to)@.len(),
                to@.len() >= 41,
                to@[0] == len as u8,
                forall|m: int, f: int| 0 <= m < i && 0 <= f < 4 ==> #[trigger] to@[4 * m + f + 1] == table_byte(self.colors@, m, f),
                forall|k: int| 41 <= k < to@.len() ==> to@[k] == old(to)@[k],
            decreases 10 - i,
        {
            if i < len {
                let c = self.colors[i];
                to[i * 4 + 1] = c.0.0;
                to[i * 4 + 2] = c.0.1;
                to[i * 4 + 3] = c.0.2;
                to[i * 4 + 4] = c.1;
            } else {
                to[i * 4 + 1] = 0;
                to[i * 4 + 2] = 0;
                to[i * 4 + 3] = 0;
                to[i * 4 + 4] = 0;
            }
            assert forall|m: int, f: int| 0 <= m < i + 1 && 0 <= f < 4 implies #[trigger] to@[4 * m + f + 1] == table_byte(self.colors@, m, f) by {
                if m == i {
                    assert(f == 0 || f == 1 || f == 2 || f == 3);
                }
            }
            i = i + 1;
        }
        assert forall|k: int| 0 <= k < 41 implies #[trigger] to@.subrange(0, 41)[k] == gradient_table(self.colors@)[k] by {
            if k > 0 {
                lemma_fundamental_div_mod(k - 1, 4);
                let m = (k - 1) / 4;
                let f = (k - 1) % 4;
                assert(to@[4 * m + f + 1] == table_byte(self.colors@, m, f));
            }
        }
        assert(to@.subrange(0, 41) =~= gradient_table(self.colors@));
        assert(to@.subrange(41, to@.len() as int) =~= old(to)@.subrange(41, old(to)@.len() as int));
    }
}

} // verus!
