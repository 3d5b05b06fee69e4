use crate::color::{rgb_of, Color, ColorMethods};
use crate::color_param::{ColorParam, Direction, KeyMap};
use crate::gradient::{gradient_of, index_of, lemma_index_of, split, split_step, Gradient};
use crate::number::{isize_of, parse_isize, parse_u8, u8_of};
use vstd::prelude::*;
use vstd::string::*;

verus! {

/// Whether `a` and `b` hold the same text.
pub(crate) fn same_text(a: &str, b: &str) -> (r: bool)
    ensures
        r == (a@ == b@),
{
    let x = a.to_owned();
    let y = b.to_owned();
    x == y
}

/// The rest of `string` after `prefix`, where it starts with `prefix`.
pub fn strip_prefix<'a>(string: &'a str, prefix: &str) -> (r: Option<&'a str>)
    ensures
        match r {
            Some(t) => string@.len() >= prefix@.len() && string@.subrange(0, prefix@.len() as int)
                == prefix@ && t@ == string@.subrange(prefix@.len() as int, string@.len() as int),
            None => !(string@.len() >= prefix@.len() && string@.subrange(0, prefix@.len() as int)
                == prefix@),
        },
{
    let n = string.unicode_len();
    let k = prefix.unicode_len();
    if n >= k && same_text(string.substring_char(0, k), prefix) {
        Some(string.substring_char(k, n))
    } else {
        None
    }
}

/// The color parameter that a `color=` text names, but for `stdin`, whose
/// colors are read elsewhere.
pub open spec fn named_color_param(s: Seq<char>) -> Option<ColorParam> {
    if s == "rainbow"@ {
        Some(ColorParam::Rainbow)
    } else if s == "random"@ || s == "randomized"@ {
        Some(ColorParam::Randomized)
    } else {
        None
    }
}

/// `s` starts with `p`.
pub open spec fn starts_with(s: Seq<char>, p: Seq<char>) -> bool {
    s.len() >= p.len() && s.subrange(0, p.len() as int) == p
}

proof fn lemma_not_prefix(s: Seq<char>, p: Seq<char>, i: int)
    requires
        0 <= i < p.len(),
        i < s.len(),
        s[i] != p[i],
    ensures
        !starts_with(s, p),
{
    if s.len() >= p.len() {
        assert(s.subrange(0, p.len() as int)[i] != p[i]);
    }
}

/// Parses a color parameter: `rainbow`, `random[ized]`, `rgb:RRGGBB`,
/// `gradient:` followed by gradient stops, or `stdin`, whose per-key colors
/// `read_keys` gives.
pub fn parse_color<F: FnOnce() -> Result<KeyMap, String>>(color_param: &str, read_keys: F) -> (r: Result<ColorParam, String>)
    requires
        read_keys.requires(()),
        forall|res: Result<KeyMap, String>| #[trigger] read_keys.ensures((), res) ==> (res matches Ok(k) ==> k.wf()),
    ensures
        r matches Ok(cp) ==> cp.wf(),
        color_param@ == "rainbow"@ ==> r matches Ok(ColorParam::Rainbow),
        color_param@ == "random"@ || color_param@ == "randomized"@ ==> r matches Ok(ColorParam::Randomized),
        starts_with(color_param@, "rgb:"@) ==> ({
            let rest = color_param@.subrange(4, color_param@.len() as int);
            match rgb_of(rest) {
                Some(c) => r == Ok::<ColorParam, String>(ColorParam::Color(c)),
                None => r matches Err(m) && m@ == rest + " is not an RRGGBB value"@,
            }
        }),
        starts_with(color_param@, "gradient:"@) ==> ({
            let rest = color_param@.subrange(9, color_param@.len() as int);
            match gradient_of(rest) {
                Ok(stops) => r matches Ok(ColorParam::Gradient(g)) && g.colors@ == stops,
                Err(e) => r matches Err(m) && m@ == e,
            }
        }),
        color_param@ == "stdin"@ ==> exists|res: Result<KeyMap, String>|
            read_keys.ensures((), res) && match res {
                Ok(k) => r matches Ok(ColorParam::PerKey(k2)) && k2 == k,
                Err(e) => r matches Err(m) && m == e,
            },
        named_color_param(color_param@) is None && !starts_with(color_param@, "rgb:"@) && !starts_with(
            color_param@,
            "gradient:"@,
        ) && color_param@ != "stdin"@ ==> (r matches Err(m) && m@ == "Unrecognized color parameter “"@
            + color_param@ + "”"@),
{
    proof {
        reveal_strlit("rainbow");
        reveal_strlit("random");
        reveal_strlit("randomized");
        reveal_strlit("rgb:");
        reveal_strlit("gradient:");
        reveal_strlit("stdin");
    }
    if same_text(color_param, "rainbow") {
        proof {
            lemma_not_prefix(color_param@, "rgb:"@, 1);
            lemma_not_prefix(color_param@, "gradient:"@, 0);
        }
        Ok(ColorParam::Rainbow)
    } else if same_text(color_param, "random") || same_text(color_param, "randomized") {
        proof {
            lemma_not_prefix(color_param@, "rgb:"@, 1);
            lemma_not_prefix(color_param@, "gradient:"@, 0);
        }
        Ok(ColorParam::Randomized)
    } else if let Some(rgb) = strip_prefix(color_param, "rgb:") {
        proof {
            assert(color_param@[0] == color_param@.subrange(0, 4)[0]);
            lemma_not_prefix(color_param@, "gradient:"@, 0);
            assert(color_param@[0] != "stdin"@[0]);
        }
        match <Color as ColorMethods>::from_str(rgb) {
            Ok(c) => Ok(ColorParam::Color(c)),
            Err(m) => Err(m),
        }
    } else if let Some(gradient) = strip_prefix(color_param, "gradient:") {
        proof {
            assert(color_param@[0] == color_param@.subrange(0, 9)[0]);
            assert(color_param@[0] != "stdin"@[0]);
        }
        match Gradient::from_str(gradient) {
            Ok(g) => Ok(ColorParam::Gradient(g)),
            Err(m) => Err(m),
        }
    } else if same_text(color_param, "stdin") {
        let res = read_keys();
        let r = match res {
            Ok(k) => Ok(ColorParam::PerKey(k)),
            Err(m) => Err(m),
        };
        assert(read_keys.ensures((), res));
        r
    } else {
        let mut m = String::from_str("Unrecognized color parameter “");
        m.append(color_param);
        m.append("”");
        Err(m)
    }
}

/// Parses an effect speed: a `u8` in decimal.
pub fn parse_speed(speed_param: &str) -> (r: Result<u8, String>)
    ensures
        match r {
            Ok(v) => u8_of(speed_param@) == Some(v),
            Err(m) => u8_of(speed_param@) is None && m@ == speed_param@ + " is not an 8-bit unsigned integer"@,
        },
{
    match parse_u8(speed_param) {
        Some(v) => Ok(v),
        None => {
            let mut m = speed_param.to_owned();
            m.append(" is not an 8-bit unsigned integer");
            Err(m)
        },
    }
}

/// The direction a `direction=` text names.
pub open spec fn direction_of(s: Seq<char>) -> Option<Direction> {
    if s == "right"@ {
        Some(Direction::Right)
    } else if s == "left"@ {
        Some(Direction::Left)
    } else if s == "down"@ {
        Some(Direction::Down)
    } else if s == "up"@ {
        Some(Direction::Up)
    } else {
        None
    }
}

/// Parses `right`, `left`, `down` or `up`.
pub fn parse_direction(dir_param: &str) -> (r: Result<Direction, String>)
    ensures
        match r {
            Ok(d) => direction_of(dir_param@) == Some(d),
            Err(m) => direction_of(dir_param@) is None && m@ == "Invalid direction “"@ + dir_param@ + "”"@,
        },
{
    if same_text(dir_param, "right") {
        Ok(Direction::Right)
    } else if same_text(dir_param, "left") {
        Ok(Direction::Left)
    } else if same_text(dir_param, "down") {
        Ok(Direction::Down)
    } else if same_text(dir_param, "up") {
        Ok(Direction::Up)
    } else {
        let mut m = String::from_str("Invalid direction “");
        m.append(dir_param);
        m.append("”");
        Err(m)
    }
}

/// Whether a reactive effect triggers on key release: only where `keyup` is
/// given, and giving both `keyup` and `keydown` is an error.
pub fn parse_keyup(up_param: Option<&str>, down_param: Option<&str>) -> (r: Result<bool, String>)
    ensures
        up_param is Some && down_param is Some ==> (r matches Err(m) && m@ == "Cannot give both keyup and keydown"@),
        !(up_param is Some && down_param is Some) ==> r == Ok::<bool, String>(up_param is Some),
{
    if up_param.is_some() && down_param.is_some() {
        Err(String::from_str("Cannot give both keyup and keydown"))
    } else if up_param.is_some() {
        Ok(true)
    } else {
        Ok(false)
    }
}

/// An effect's `key=value` parameters, in the order given.
pub struct Params {
    pub entries: Vec<(String, String)>,
}

/// The keys and values of parameter entries as text.
pub open spec fn entries_view(es: Seq<(String, String)>) -> Seq<(Seq<char>, Seq<char>)> {
    es.map_values(|e: (String, String)| (e.0@, e.1@))
}

/// Index of the first entry whose key is `k`, or `es.len()`.
pub open spec fn key_index(es: Seq<(Seq<char>, Seq<char>)>, k: Seq<char>) -> int
    decreases es.len(),
{
    if es.len() == 0 {
        0
    } else if es[0].0 == k {
        0
    } else {
        1 + key_index(es.drop_first(), k)
    }
}

proof fn lemma_key_index(es: Seq<(Seq<char>, Seq<char>)>, k: Seq<char>, i: int)
    requires
        0 <= i <= es.len(),
        forall|m: int| 0 <= m < i ==> (#[trigger] es[m]).0 != k,
        i == es.len() || es[i].0 == k,
    ensures
        key_index(es, k) == i,
    decreases i,
{
    if i > 0 {
        assert forall|m: int| 0 <= m < i - 1 implies (#[trigger] es.drop_first()[m]).0 != k by {
            assert(es.drop_first()[m] == es[m + 1]);
        }
        lemma_key_index(es.drop_first(), k, i - 1);
    }
}

/// "“k1”, “k2”, ..." for the keys of the first `n` entries.
pub open spec fn quoted_keys(es: Seq<(Seq<char>, Seq<char>)>, n: int) -> Seq<char>
    decreases n,
{
    if n <= 0 {
        Seq::empty()
    } else if n == 1 {
        "“"@ + es[0].0 + "”"@
    } else {
        quoted_keys(es, n - 1) + ", “"@ + es[n - 1].0 + "”"@
    }
}

impl View for Params {
    type V = Seq<(Seq<char>, Seq<char>)>;

    open spec fn view(&self) -> Seq<(Seq<char>, Seq<char>)> {
        entries_view(self.entries@)
    }
}

impl Params {
    /// No parameters.
    pub fn new() -> (r: Params)
        ensures
            r@ == Seq::<(Seq<char>, Seq<char>)>::empty(),
    {
        let r = Params { entries: Vec::new() };
        assert(r@ =~= Seq::<(Seq<char>, Seq<char>)>::empty());
        r
    }

    /// Index of the entry with key `key`, or the number of entries.
    pub fn find(&self, key: &str) -> (r: usize)
        ensures
            r == key_index(self@, key@),
            r <= self@.len(),
    {
        let mut i: usize = 0;
        while i < self.entries.len()
            invariant
                i <= self@.len(),
                self@.len() == self.entries@.len(),
                forall|m: int| 0 <= m < i ==> (#[trigger] self@[m]).0 != key@,
            decreases self@.len() - i,
        {
            if same_text(self.entries[i].0.as_str(), key) {
                proof {
                    lemma_key_index(self@, key@, i as int);
                }
                return i;
            }
            i = i + 1;
        }
        proof {
            lemma_key_index(self@, key@, i as int);
        }
        i
    }

    /// Sets `key` to `value`, giving back the value it had.
    pub fn insert(&mut self, key: &str, value: &str) -> (r: Option<String>)
        ensures
            ({
                let i = key_index(old(self)@, key@);
                if i < old(self)@.len() {
                    r matches Some(v) && v@ == old(self)@[i].1 && final(self)@ == old(self)@.update(
                        i,
                        (key@, value@),
                    )
                } else {
                    r is None && final(self)@ == old(self)@.push((key@, value@))
                }
            }),
    {
        let i = self.find(key);
        if i < self.entries.len() {
            let old_value = self.entries[i].1.clone();
            self.entries.set(i, (key.to_owned(), value.to_owned()));
            assert(self@ =~= old(self)@.update(i as int, (key@, value@)));
            Some(old_value)
        } else {
            self.entries.push((key.to_owned(), value.to_owned()));
            assert(self@ =~= old(self)@.push((key@, value@)));
            None
        }
    }

    /// Takes the entry with key `key` out, giving back its value.
    pub fn remove(&mut self, key: &str) -> (r: Option<String>)
        ensures
            ({
                let i = key_index(old(self)@, key@);
                if i < old(self)@.len() {
                    r matches Some(v) && v@ == old(self)@[i].1 && final(self)@ == old(self)@.remove(i)
                } else {
                    r is None && final(self)@ == old(self)@
                }
            }),
    {
        let i = self.find(key);
        if i < self.entries.len() {
            let e = self.entries.remove(i);
            assert(self@ =~= old(self)@.remove(i as int));
            Some(e.1)
        } else {
            None
        }
    }
}

/// Fails, naming every key, where any parameter is left over.
pub fn check_superfluous_params(params: Params) -> (r: Result<(), String>)
    ensures
        params@.len() == 0 ==> r is Ok,
        params@.len() > 0 ==> (r matches Err(m) && m@ == "Superfluous parameters: "@ + quoted_keys(
            params@,
            params@.len() as int,
        )),
{
    let n = params.entries.len();
    if n == 0 {
        return Ok(());
    }
    let mut keys = String::new();
    let mut i: usize = 0;
    while i < n
        invariant
            n == params@.len(),
            n == params.entries@.len(),
            i <= n,
            keys@ == quoted_keys(params@, i as int),
        decreases n - i,
    {
        if i > 0 {
            keys.append(", ");
        }
        keys.append("“");
        keys.append(params.entries[i].0.as_str());
        keys.append("”");
        proof {
            if i == 0 {
                reveal_strlit("");
                assert(keys@ =~= quoted_keys(params@, 1));
            } else {
                reveal_strlit(", ");
                reveal_strlit("“");
                reveal_strlit(", “");
                assert(", “"@ =~= ", "@ + "“"@);
                assert(keys@ =~= quoted_keys(params@, i + 1));
            }
        }
        i = i + 1;
    }
    let mut m = String::from_str("Superfluous parameters: ");
    m.append(keys.as_str());
    Err(m)
}

/// Takes the integer parameter `name` out of `params`, where it is given.
pub fn isize_param(params: &mut Params, name: &str) -> (r: Result<Option<isize>, String>)
    ensures
        ({
            let i = key_index(old(params)@, name@);
            if i < old(params)@.len() {
                let val = old(params)@[i].1;
                &&& final(params)@ == old(params)@.remove(i)
                &&& match isize_of(val) {
                    Some(x) => r == Ok::<Option<isize>, String>(Some(x)),
                    None => r matches Err(m) && m@ == "Invalid "@ + name@ + " value “"@ + val + "”"@,
                }
            } else {
                r == Ok::<Option<isize>, String>(None) && final(params)@ == old(params)@
            }
        }),
{
    match params.remove(name) {
        Some(val) => match parse_isize(val.as_str()) {
            Some(x) => Ok(Some(x)),
            None => {
                let mut m = String::from_str("Invalid ");
                m.append(name);
                m.append(" value “");
                m.append(val.as_str());
                m.append("”");
                Err(m)
            },
        },
        None => Ok(None),
    }
}

/// The pieces of `s` between the separators `sep`, as `split` says.
pub fn split_text(s: &str, sep: char) -> (r: Vec<String>)
    ensures
        r@.map_values(|t: String| t@) == split(s@, sep),
{
    let n = s.unicode_len();
    let mut out: Vec<String> = Vec::new();
    let mut start: usize = 0;
    let mut i: usize = 0;
    assert(s@.subrange(0, 0) =~= Seq::<char>::empty());
    assert(split(s@.subrange(0, 0), sep) =~= out@.map_values(|t: String| t@).push(s@.subrange(0, 0)));
    while i < n
        invariant
            n == s@.len(),
            start <= i <= n,
            split(s@.subrange(0, i as int), sep) == out@.map_values(|t: String| t@).push(
                s@.subrange(start as int, i as int),
            ),
        decreases n - i,
    {
        let ghost done = out@.map_values(|t: String| t@);
        let ghost tok = s@.subrange(start as int, i as int);
        proof {
            split_step(s@, sep, i as int, done, tok, start as int);
        }
        if s.get_char(i) == sep {
            out.push(s.substring_char(start, i).to_owned());
            assert(out@.map_values(|t: String| t@) =~= done.push(tok));
            start = i + 1;
        }
        i = i + 1;
    }
    out.push(s.substring_char(start, n).to_owned());
    assert(s@.subrange(0, n as int) =~= s@);
    assert(out@.map_values(|t: String| t@) =~= split(s@, sep));
    out
}

/// The entries that one piece of an effect argument adds to `es`: a
/// `key=value`; the effect's name where none is given yet; else a key with
/// an empty value. A key given twice is an error.
pub open spec fn add_piece(es: Seq<(Seq<char>, Seq<char>)>, p: Seq<char>) -> Result<
    Seq<(Seq<char>, Seq<char>)>,
    Seq<char>,
> {
    let k = index_of(p, '=');
    let kv: (Seq<char>, Seq<char>) = if k < p.len() {
        (p.subrange(0, k), p.subrange(k + 1, p.len() as int))
    } else if key_index(es, "name"@) < es.len() {
        (p, Seq::empty())
    } else {
        ("name"@, p)
    };
    let i = key_index(es, kv.0);
    if i < es.len() {
        Err("Effect parameter “"@ + kv.0 + "” already set to “"@ + es[i].1 + "”"@)
    } else {
        Ok(es.push(kv))
    }
}

/// The entries of the pieces `ps`, or the first error.
pub open spec fn effect_entries(ps: Seq<Seq<char>>) -> Result<Seq<(Seq<char>, Seq<char>)>, Seq<char>>
    decreases ps.len(),
{
    if ps.len() == 0 {
        Ok(Seq::empty())
    } else {
        match effect_entries(ps.drop_last()) {
            Err(e) => Err(e),
            Ok(es) => add_piece(es, ps.last()),
        }
    }
}

proof fn lemma_effect_entries_error(ps: Seq<Seq<char>>, k: int)
    requires
        0 <= k <= ps.len(),
        effect_entries(ps.subrange(0, k)) is Err,
    ensures
        effect_entries(ps) == effect_entries(ps.subrange(0, k)),
    decreases ps.len() - k,
{
    if k < ps.len() {
        assert(ps.subrange(0, k + 1).drop_last() =~= ps.subrange(0, k));
        lemma_effect_entries_error(ps, k + 1);
    } else {
        assert(ps.subrange(0, k) =~= ps);
    }
}

/// Splits an effect argument `name/key=value/...` into the effect's name,
/// `all-keys` where it names none, and its other parameters.
pub fn parse_effect_arg(arg: &str) -> (r: Result<(String, Params), String>)
    ensures
        match effect_entries(split(arg@, '/')) {
            Err(e) => r matches Err(m) && m@ == e,
            Ok(es) => r matches Ok((name, params)) && ({
                let i = key_index(es, "name"@);
                if i < es.len() {
                    name@ == es[i].1 && params@ == es.remove(i)
                } else {
                    name@ == "all-keys"@ && params@ == es
                }
            }),
        },
{
    let pieces = split_text(arg, '/');
    let ghost ps = pieces@.map_values(|t: String| t@);
    let mut params = Params::new();
    let mut j: usize = 0;
    while j < pieces.len()
        invariant
            ps == pieces@.map_values(|t: String| t@),
            ps == split(arg@, '/'),
            j <= pieces@.len(),
            effect_entries(ps.subrange(0, j as int)) == Ok::<Seq<(Seq<char>, Seq<char>)>, Seq<char>>(params@),
        decreases pieces@.len() - j,
    {
        let p = pieces[j].as_str();
        assert(p@ == ps[j as int]);
        assert(ps.subrange(0, j + 1).drop_last() =~= ps.subrange(0, j as int));
        assert(ps.subrange(0, j + 1).last() == ps[j as int]);
        let n = p.unicode_len();
        let mut k: usize = 0;
        while k < n && p.get_char(k) != '='
            invariant
                n == p@.len(),
                k <= n,
                forall|m: int| 0 <= m < k ==> p@[m] != '=',
            decreases n - k,
        {
            k = k + 1;
        }
        proof {
            lemma_index_of(p@, '=', k as int);
            reveal_strlit("name");
        }
        let has_name = params.find("name") < params.entries.len();
        let (key, value) = if k < n {
            (p.substring_char(0, k), p.substring_char(k + 1, n))
        } else if has_name {
            (p, "")
        } else {
            ("name", p)
        };
        proof {
            reveal_strlit("");
        }
        let i = params.find(key);
        if i < params.entries.len() {
            let mut m = String::from_str("Effect parameter “");
            m.append(key);
            m.append("” already set to “");
            m.append(params.entries[i].1.as_str());
            m.append("”");
            proof {
                lemma_effect_entries_error(ps, j + 1);
            }
            return Err(m);
        }
        let ghost es = params@;
        assert((key@, value@) == (if k < n {
            (p@.subrange(0, k as int), p@.subrange(k + 1, p@.len() as int))
        } else if key_index(es, "name"@) < es.len() {
            (p@, Seq::<char>::empty())
        } else {
            ("name"@, p@)
        }));
        assert(add_piece(es, p@) == Ok::<Seq<(Seq<char>, Seq<char>)>, Seq<char>>(es.push((key@, value@))));
        params.insert(key, value);
        assert(params@ == es.push((key@, value@)));
        j = j + 1;
    }
    assert(ps.subrange(0, j as int) =~= ps);
    let name = match params.remove("name") {
        Some(v) => v,
        None => String::from_str("all-keys"),
    };
    Ok((name, params))
}

/// Where `p` first occurs in `s` at or after `i`; -1 where it does not.
pub open spec fn find_from(s: Seq<char>, p: Seq<char>, i: int) -> int
    decreases s.len() + 1 - i,
{
    if i < 0 || i + p.len() > s.len() {
        -1
    } else if s.subrange(i, i + p.len()) == p {
        i
    } else {
        find_from(s, p, i + 1)
    }
}

/// Index of the first `p` in `s`, as `find_from` says.
fn find_text(s: &str, p: &str) -> (r: Option<usize>)
    ensures
        match r {
            Some(i) => find_from(s@, p@, 0) == i as int,
            None => find_from(s@, p@, 0) == -1,
        },
{
    let n = s.unicode_len();
    let k = p.unicode_len();
    let mut i: usize = 0;
    if k > n {
        return None;
    }
    if k == 0 {
        assert(s@.subrange(0, 0) =~= p@);
        return Some(0);
    }
    while i <= n - k
        invariant
            n == s@.len(),
            k == p@.len(),
            1 <= k <= n,
            find_from(s@, p@, 0) == find_from(s@, p@, i as int),
        decreases n - i,
    {
        if same_text(s.substring_char(i, i + k), p) {
            return Some(i);
        }
        i = i + 1;
    }
    None
}

/// The `W x H` size that xrandr's output gives after `, current `, if both
/// numbers are there.
pub open spec fn screen_size_of(out: Seq<char>) -> Option<(isize, isize)> {
    let a = find_from(out, ", current "@, 0);
    let res = out.subrange(a + 10, out.len() as int);
    let b = find_from(res, " x "@, 0);
    let rest = res.subrange(b + 3, res.len() as int);
    let c = find_from(rest, ", "@, 0);
    let h = if c < 0 {
        rest
    } else {
        rest.subrange(0, c)
    };
    if a < 0 || b < 0 {
        None
    } else {
        match (isize_of(res.subrange(0, b)), isize_of(h)) {
            (Some(w), Some(hv)) => Some((w, hv)),
            _ => None,
        }
    }
}

proof fn lemma_find_from_bound(s: Seq<char>, p: Seq<char>, i: int)
    ensures
        find_from(s, p, i) == -1 || (i <= find_from(s, p, i) && find_from(s, p, i) + p.len() <= s.len()),
    decreases s.len() + 1 - i,
{
    if !(i < 0 || i + p.len() > s.len()) && s.subrange(i, i + p.len()) != p {
        lemma_find_from_bound(s, p, i + 1);
    }
}

/// Reads the current screen size out of the output of `xrandr --query`.
pub fn screen_size(xrandr_output: &str) -> (r: Option<(isize, isize)>)
    ensures
        r == screen_size_of(xrandr_output@),
{
    proof {
        reveal_strlit(", current ");
        reveal_strlit(" x ");
        reveal_strlit(", ");
        lemma_find_from_bound(xrandr_output@, ", current "@, 0);
    }
    let n = xrandr_output.unicode_len();
    let a = find_text(xrandr_output, ", current ")?;
    assert(", current "@.len() == 10);
    let res = xrandr_output.substring_char(a + 10, n);
    proof {
        lemma_find_from_bound(res@, " x "@, 0);
    }
    let b = find_text(res, " x ")?;
    assert(" x "@.len() == 3);
    let w_text = res.substring_char(0, b);
    let rest = res.substring_char(b + 3, res.unicode_len());
    proof {
        lemma_find_from_bound(rest@, ", "@, 0);
    }
    let h_text = match find_text(rest, ", ") {
        Some(c) => rest.substring_char(0, c),
        None => rest,
    };
    let w = parse_isize(w_text)?;
    let h = parse_isize(h_text)?;
    Some((w, h))
}

} // verus!
