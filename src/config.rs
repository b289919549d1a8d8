//! The configuration and its stored `key=value` form.
use vstd::prelude::*;

use crate::text::{
    chars_of, decimal, has_tag, is_white, lemma_decimal_digits, parse_u32, parse_u32_range,
    push_decimal, trim, trim_bounds, trim_end, trim_start, unsigned_part,
};

verus! {

/// Clicks per second used when the stored or entered rate is missing, zero or malformed.
pub const DEFAULT_CPS: u32 = 10;

/// The rate that a stored `cps` value gives: its number when that is a positive
/// `u32`, the default otherwise.
pub open spec fn stored_cps(v: Seq<char>) -> u32 {
    match parse_u32(v) {
        Some(n) => if n > 0 {
            n
        } else {
            DEFAULT_CPS
        },
        None => DEFAULT_CPS,
    }
}

/// Prefix of the stored line that holds the start trigger.
pub const START_TAG: &'static str = "start_key=";

/// Prefix of the stored line that holds the stop trigger.
pub const STOP_TAG: &'static str = "stop_key=";

/// Prefix of the stored line that holds the clicked key or button.
pub const CLICK_TAG: &'static str = "click_key=";

/// Prefix of the stored line that holds the clicks per second.
pub const CPS_TAG: &'static str = "cps=";

/// The user's preferences: the two hotkeys, what gets clicked, and how often.
#[derive(Clone, Debug)]
pub struct Config {
    pub start_key: String,
    pub stop_key: String,
    pub click_key: String,
    pub cps: u32,
}

/// What a `Config` holds, as mathematical values.
pub struct ConfigView {
    pub start_key: Seq<char>,
    pub stop_key: Seq<char>,
    pub click_key: Seq<char>,
    pub cps: u32,
}

impl View for Config {
    type V = ConfigView;

    open spec fn view(&self) -> ConfigView {
        ConfigView {
            start_key: self.start_key@,
            stop_key: self.stop_key@,
            click_key: self.click_key@,
            cps: self.cps,
        }
    }
}

/// The value that follows `tag` on the trimmed line `l`, trimmed in turn.
pub open spec fn value_after(l: Seq<char>, tag: Seq<char>) -> Seq<char> {
    trim(l.skip(tag.len() as int))
}

/// The configuration `c` after reading one line of a stored file: a line that
/// (once trimmed) starts with a known key sets that field, any other changes nothing.
pub open spec fn apply_line(c: ConfigView, line: Seq<char>) -> ConfigView {
    let l = trim(line);
    if START_TAG@.is_prefix_of(l) {
        ConfigView { start_key: value_after(l, START_TAG@), ..c }
    } else if STOP_TAG@.is_prefix_of(l) {
        ConfigView { stop_key: value_after(l, STOP_TAG@), ..c }
    } else if CLICK_TAG@.is_prefix_of(l) {
        ConfigView { click_key: value_after(l, CLICK_TAG@), ..c }
    } else if CPS_TAG@.is_prefix_of(l) {
        ConfigView { cps: stored_cps(value_after(l, CPS_TAG@)), ..c }
    } else {
        c
    }
}

/// `c` after reading each `\n`-separated line of `text` in turn.
pub open spec fn read_lines(c: ConfigView, text: Seq<char>) -> ConfigView
    decreases text.len(),
{
    proof {
        text.index_of_first_ensures('\n');
    }
    match text.index_of_first('\n') {
        Some(e) => read_lines(apply_line(c, text.take(e)), text.skip(e + 1)),
        None => apply_line(c, text),
    }
}

/// The configuration before any line is read: empty triggers and the default rate.
pub open spec fn empty_config() -> ConfigView {
    ConfigView { start_key: Seq::empty(), stop_key: Seq::empty(), click_key: Seq::empty(), cps: DEFAULT_CPS }
}

/// The configuration that a stored file with contents `text` describes.
pub open spec fn config_of(text: Seq<char>) -> ConfigView {
    read_lines(empty_config(), text)
}

impl Config {
    /// Reads the line `text[lo..hi]` into `self`.
    fn take_line(&mut self, text: &str, chars: &Vec<char>, lo: usize, hi: usize)
        requires
            chars@ == text@,
            lo <= hi <= chars.len(),
        ensures
            final(self)@ == apply_line(old(self)@, text@.subrange(lo as int, hi as int)),
    {
        let (a, b) = trim_bounds(chars, lo, hi);
        let ghost l = text@.subrange(a as int, b as int);
        if has_tag(chars, a, b, START_TAG) {
            let (x, y) = trim_bounds(chars, a + START_TAG.unicode_len(), b);
            assert(l.skip(START_TAG@.len() as int) =~= text@.subrange(a + START_TAG@.len(), b as int));
            self.start_key = String::from_str(text.substring_char(x, y));
        } else if has_tag(chars, a, b, STOP_TAG) {
            let (x, y) = trim_bounds(chars, a + STOP_TAG.unicode_len(), b);
            assert(l.skip(STOP_TAG@.len() as int) =~= text@.subrange(a + STOP_TAG@.len(), b as int));
            self.stop_key = String::from_str(text.substring_char(x, y));
        } else if has_tag(chars, a, b, CLICK_TAG) {
            let (x, y) = trim_bounds(chars, a + CLICK_TAG.unicode_len(), b);
            assert(l.skip(CLICK_TAG@.len() as int) =~= text@.subrange(a + CLICK_TAG@.len(), b as int));
            self.click_key = String::from_str(text.substring_char(x, y));
        } else if has_tag(chars, a, b, CPS_TAG) {
            let (x, y) = trim_bounds(chars, a + CPS_TAG.unicode_len(), b);
            assert(l.skip(CPS_TAG@.len() as int) =~= text@.subrange(a + CPS_TAG@.len(), b as int));
            self.cps = match parse_u32_range(chars, x, y) {
                Some(n) => if n > 0 {
                    n
                } else {
                    DEFAULT_CPS
                },
                None => DEFAULT_CPS,
            };
        }
    }

    /// The configuration stored as `text`: each line `key=value` whose key is
    /// `start_key`, `stop_key`, `click_key` or `cps` sets that field (the last such
    /// line wins), values and lines are trimmed, other lines are ignored, and
    /// missing triggers are empty. The rate falls back to `DEFAULT_CPS` when
    /// absent or not a positive `u32`.
    pub fn parse(text: &str) -> (r: Config)
        ensures
            r@ == config_of(text@),
            r.cps >= 1,
    {
        let chars = chars_of(text);
        let mut cfg = Config {
            start_key: String::new(),
            stop_key: String::new(),
            click_key: String::new(),
            cps: DEFAULT_CPS,
        };
        let n = chars.len();
        let mut start: usize = 0;
        let mut i: usize = 0;
        assert(text@.skip(0) =~= text@);
        while i < n
            invariant
                chars@ == text@,
                n == chars.len(),
                start <= i <= n,
                forall|j: int| start <= j < i ==> chars@[j] != '\n',
                read_lines(cfg@, text@.skip(start as int)) == config_of(text@),
            decreases n - i,
        {
            if chars[i] == '\n' {
                let ghost rest = text@.skip(start as int);
                proof {
                    lemma_first_newline(rest, i - start);
                    assert(rest.take(i - start) =~= text@.subrange(start as int, i as int));
                    assert(rest.skip(i - start + 1) =~= text@.skip(i + 1));
                }
                cfg.take_line(text, &chars, start, i);
                start = i + 1;
            }
            i = i + 1;
        }
        proof {
            let rest = text@.skip(start as int);
            rest.index_of_first_ensures('\n');
            assert(rest =~= text@.subrange(start as int, n as int));
        }
        cfg.take_line(text, &chars, start, n);
        proof {
            lemma_read_lines_keeps_rate_positive(empty_config(), text@);
        }
        cfg
    }
}

/// Reading lines never leaves a rate below one.
proof fn lemma_read_lines_keeps_rate_positive(c: ConfigView, text: Seq<char>)
    requires
        c.cps >= 1,
    ensures
        read_lines(c, text).cps >= 1,
    decreases text.len(),
{
    text.index_of_first_ensures('\n');
    match text.index_of_first('\n') {
        Some(e) => lemma_read_lines_keeps_rate_positive(apply_line(c, text.take(e)), text.skip(e + 1)),
        None => {},
    }
}

/// The first `\n` of `s` is at `e` when `s[e]` is one and none comes before.
proof fn lemma_first_newline(s: Seq<char>, e: int)
    requires
        0 <= e < s.len(),
        s[e] == '\n',
        forall|j: int| 0 <= j < e ==> s[j] != '\n',
    ensures
        s.index_of_first('\n') == Some(e),
{
    s.index_of_first_ensures('\n');
}


/// The stored form of `c`: one `key=value` line for each field, each ended by `\n`.
pub open spec fn render_of(c: ConfigView) -> Seq<char> {
    START_TAG@ + c.start_key + seq!['\n'] + STOP_TAG@ + c.stop_key + seq!['\n'] + CLICK_TAG@
        + c.click_key + seq!['\n'] + CPS_TAG@ + decimal(c.cps as nat) + seq!['\n']
}

impl Config {
    /// The text under which `self` is stored: the lines `start_key=..`,
    /// `stop_key=..`, `click_key=..` and `cps=..`, in that order, each ended by `\n`.
    pub fn render(&self) -> (r: String)
        ensures
            r@ == render_of(self@),
    {
        let mut r = String::new();
        let ghost nl = seq!['\n'];
        proof {
            reveal_strlit("\n");
        }
        assert("\n"@ =~= nl);
        r.append(START_TAG);
        r.append(self.start_key.as_str());
        r.append("\n");
        r.append(STOP_TAG);
        r.append(self.stop_key.as_str());
        r.append("\n");
        r.append(CLICK_TAG);
        r.append(self.click_key.as_str());
        r.append("\n");
        r.append(CPS_TAG);
        push_decimal(&mut r, self.cps);
        r.append("\n");
        assert(r@ =~= render_of(self@));
        r
    }
}


/// Whether the trigger `v` is stored and read back unchanged: it holds no line
/// break and has no white space at either end.
pub open spec fn storable(v: Seq<char>) -> bool {
    &&& forall|i: int| 0 <= i < v.len() ==> v[i] != '\n'
    &&& v.len() > 0 ==> !is_white(v[0]) && !is_white(v.last())
}

/// A sequence with no white space at its ends is its own trim.
proof fn lemma_trim_fixed(x: Seq<char>)
    requires
        x.len() > 0 ==> !is_white(x[0]) && !is_white(x.last()),
    ensures
        trim(x) == x,
{
    assert(trim_start(x) == x);
    assert(trim_end(x) == x);
}

/// `tag + x` starts with `tag`, and what follows it is `x`.
proof fn lemma_tag_then(tag: Seq<char>, x: Seq<char>)
    ensures
        tag.is_prefix_of(tag + x),
        (tag + x).skip(tag.len() as int) == x,
{
    assert((tag + x).subrange(0, tag.len() as int) =~= tag);
    assert((tag + x).skip(tag.len() as int) =~= x);
}

/// `t` is no prefix of `u + x` when the two differ at position `i`.
proof fn lemma_tag_differs(t: Seq<char>, u: Seq<char>, x: Seq<char>, i: int)
    requires
        0 <= i < t.len(),
        i < u.len(),
        t[i] != u[i],
    ensures
        !t.is_prefix_of(u + x),
{
    if t.is_prefix_of(u + x) {
        assert((u + x).subrange(0, t.len() as int)[i] == t[i]);
    }
}

/// Reading `line`, a `\n`, then `rest` reads `line` and then `rest`.
proof fn lemma_read_line_then(c: ConfigView, line: Seq<char>, rest: Seq<char>)
    requires
        forall|i: int| 0 <= i < line.len() ==> line[i] != '\n',
    ensures
        read_lines(c, line + seq!['\n'] + rest) == read_lines(apply_line(c, line), rest),
{
    let text = line + seq!['\n'] + rest;
    lemma_first_newline(text, line.len() as int);
    assert(text.take(line.len() as int) =~= line);
    assert(text.skip(line.len() as int + 1) =~= rest);
}

/// A positive rate is read back from its decimal digits, which are storable.
proof fn lemma_rate_round_trip(n: u32)
    requires
        n >= 1,
    ensures
        stored_cps(decimal(n as nat)) == n,
        storable(decimal(n as nat)),
{
    let d = decimal(n as nat);
    lemma_decimal_digits(n as nat);
    assert('0' <= d[0] && d[0] <= '9');
    assert('0' <= d.last() && d.last() <= '9');
    assert(unsigned_part(d) == d);
}

/// Saving a configuration whose triggers are storable and whose rate is at
/// least one, then loading what was saved, gives back every field unchanged.
#[verifier::rlimit(40)]
pub proof fn lemma_save_then_load(c: ConfigView)
    requires
        storable(c.start_key),
        storable(c.stop_key),
        storable(c.click_key),
        c.cps >= 1,
    ensures
        config_of(render_of(c)) == c,
{
    reveal_strlit("start_key=");
    reveal_strlit("stop_key=");
    reveal_strlit("click_key=");
    reveal_strlit("cps=");
    let nl = seq!['\n'];
    let l1 = START_TAG@ + c.start_key;
    let l2 = STOP_TAG@ + c.stop_key;
    let l3 = CLICK_TAG@ + c.click_key;
    let digits = decimal(c.cps as nat);
    let l4 = CPS_TAG@ + digits;
    lemma_rate_round_trip(c.cps);
    let r4 = l4 + nl + Seq::<char>::empty();
    let r3 = l3 + nl + r4;
    let r2 = l2 + nl + r3;
    assert(render_of(c) =~= l1 + nl + r2);

    let c0 = empty_config();
    assert(forall|i: int| 0 <= i < l1.len() ==> l1[i] != '\n');
    lemma_read_line_then(c0, l1, r2);
    lemma_trim_fixed(l1);
    lemma_tag_then(START_TAG@, c.start_key);
    lemma_trim_fixed(c.start_key);
    let c1 = apply_line(c0, l1);
    assert(c1 == ConfigView { start_key: c.start_key, ..c0 });

    assert(forall|i: int| 0 <= i < l2.len() ==> l2[i] != '\n');
    lemma_read_line_then(c1, l2, r3);
    lemma_trim_fixed(l2);
    lemma_tag_differs(START_TAG@, STOP_TAG@, c.stop_key, 2);
    lemma_tag_then(STOP_TAG@, c.stop_key);
    lemma_trim_fixed(c.stop_key);
    let c2 = apply_line(c1, l2);
    assert(c2 == ConfigView { stop_key: c.stop_key, ..c1 });

    assert(forall|i: int| 0 <= i < l3.len() ==> l3[i] != '\n');
    lemma_read_line_then(c2, l3, r4);
    lemma_trim_fixed(l3);
    lemma_tag_differs(START_TAG@, CLICK_TAG@, c.click_key, 0);
    lemma_tag_differs(STOP_TAG@, CLICK_TAG@, c.click_key, 0);
    lemma_tag_then(CLICK_TAG@, c.click_key);
    lemma_trim_fixed(c.click_key);
    let c3 = apply_line(c2, l3);
    assert(c3 == ConfigView { click_key: c.click_key, ..c2 });

    assert(forall|i: int| 0 <= i < l4.len() ==> l4[i] != '\n');
    lemma_read_line_then(c3, l4, Seq::empty());
    lemma_trim_fixed(l4);
    lemma_tag_differs(START_TAG@, CPS_TAG@, digits, 0);
    lemma_tag_differs(STOP_TAG@, CPS_TAG@, digits, 0);
    lemma_tag_differs(CLICK_TAG@, CPS_TAG@, digits, 1);
    lemma_tag_then(CPS_TAG@, digits);
    let c4 = apply_line(c3, l4);
    assert(c4 == c);

    let empty = Seq::<char>::empty();
    empty.index_of_first_ensures('\n');
    assert(trim(empty) =~= empty);
    assert(read_lines(c4, empty) == c4);
}


/// Taking leading white space off keeps a line free of `\n` and leaves it
/// starting with a character that is not white.
proof fn lemma_trim_start_shape(x: Seq<char>)
    requires
        forall|i: int| 0 <= i < x.len() ==> x[i] != '\n',
    ensures
        forall|i: int| 0 <= i < trim_start(x).len() ==> trim_start(x)[i] != '\n',
        trim_start(x).len() > 0 ==> !is_white(trim_start(x)[0]),
    decreases x.len(),
{
    if x.len() > 0 && is_white(x[0]) {
        lemma_trim_start_shape(x.drop_first());
    }
}

/// Taking trailing white space off keeps a line free of `\n`, keeps its first
/// character, and leaves it ending with a character that is not white.
proof fn lemma_trim_end_shape(x: Seq<char>)
    requires
        forall|i: int| 0 <= i < x.len() ==> x[i] != '\n',
    ensures
        forall|i: int| 0 <= i < trim_end(x).len() ==> trim_end(x)[i] != '\n',
        trim_end(x).len() > 0 ==> !is_white(trim_end(x).last()),
        trim_end(x).len() > 0 ==> trim_end(x)[0] == x[0],
    decreases x.len(),
{
    if x.len() > 0 && is_white(x.last()) {
        lemma_trim_end_shape(x.drop_last());
    }
}

/// A trimmed line with no `\n` in it is storable.
proof fn lemma_trim_storable(x: Seq<char>)
    requires
        forall|i: int| 0 <= i < x.len() ==> x[i] != '\n',
    ensures
        storable(trim(x)),
{
    lemma_trim_start_shape(x);
    lemma_trim_end_shape(trim_start(x));
}

/// The value read from a line with no `\n` in it is storable.
proof fn lemma_value_storable(line: Seq<char>, tag: Seq<char>)
    requires
        forall|i: int| 0 <= i < line.len() ==> line[i] != '\n',
        tag.is_prefix_of(trim(line)),
    ensures
        storable(value_after(trim(line), tag)),
{
    lemma_trim_storable(line);
    let l = trim(line);
    let v = l.skip(tag.len() as int);
    assert forall|i: int| 0 <= i < v.len() implies v[i] != '\n' by {
        assert(v[i] == l[i + tag.len()]);
    }
    lemma_trim_storable(v);
}

/// Every trigger that a line with no `\n` in it can set is storable.
proof fn lemma_line_values_storable(line: Seq<char>)
    requires
        forall|i: int| 0 <= i < line.len() ==> line[i] != '\n',
    ensures
        START_TAG@.is_prefix_of(trim(line)) ==> storable(value_after(trim(line), START_TAG@)),
        STOP_TAG@.is_prefix_of(trim(line)) ==> storable(value_after(trim(line), STOP_TAG@)),
        CLICK_TAG@.is_prefix_of(trim(line)) ==> storable(value_after(trim(line), CLICK_TAG@)),
{
    if START_TAG@.is_prefix_of(trim(line)) {
        lemma_value_storable(line, START_TAG@);
    }
    if STOP_TAG@.is_prefix_of(trim(line)) {
        lemma_value_storable(line, STOP_TAG@);
    }
    if CLICK_TAG@.is_prefix_of(trim(line)) {
        lemma_value_storable(line, CLICK_TAG@);
    }
}

/// Reading lines keeps every trigger storable.
proof fn lemma_read_lines_storable(c: ConfigView, text: Seq<char>)
    requires
        storable(c.start_key),
        storable(c.stop_key),
        storable(c.click_key),
    ensures
        storable(read_lines(c, text).start_key),
        storable(read_lines(c, text).stop_key),
        storable(read_lines(c, text).click_key),
    decreases text.len(),
{
    text.index_of_first_ensures('\n');
    match text.index_of_first('\n') {
        Some(e) => {
            let line = text.take(e);
            lemma_line_values_storable(line);
            lemma_read_lines_storable(apply_line(c, line), text.skip(e + 1));
        },
        None => {
            assert forall|i: int| 0 <= i < text.len() implies text[i] != '\n' by {
                if text[i] == '\n' {
                    assert(text.contains('\n'));
                }
            }
            lemma_line_values_storable(text);
        },
    }
}

/// Whatever a stored file holds, saving what was loaded from it and loading
/// again gives the same configuration, so repeated saves and loads never drift.
pub proof fn lemma_reload_is_stable(text: Seq<char>)
    ensures
        config_of(render_of(config_of(text))) == config_of(text),
        render_of(config_of(render_of(config_of(text)))) == render_of(config_of(text)),
{
    lemma_read_lines_storable(empty_config(), text);
    lemma_read_lines_keeps_rate_positive(empty_config(), text);
    lemma_save_then_load(config_of(text));
}

} // verus!
