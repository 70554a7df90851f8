use vstd::prelude::*;
use crate::text::append_chars;

verus! {

/// The settings that shape a listing.
#[derive(Clone, Copy, Debug, PartialEq, Eq, Structural)]
pub struct LayoutConfig {
    /// Cut names to `truncate_at` characters; otherwise to `absolute_limit`.
    pub truncate: bool,
    /// The cut length when `truncate` is set, and the least column width otherwise.
    pub truncate_at: usize,
    /// The cut length when `truncate` is not set.
    pub absolute_limit: usize,
    /// Entries per line, used when `items_explicit` is set.
    pub items: usize,
    /// Blank characters printed after each entry.
    pub spacing: usize,
    /// Whether `items` was given; when not, entries per line follow the terminal width.
    pub items_explicit: bool,
}

/// The settings keys a line can set.
#[derive(Clone, Copy, Debug, PartialEq, Eq, Structural)]
pub enum ConfigKey {
    Truncate,
    TruncateAt,
    AbsoluteLimit,
    Items,
    Spacing,
}

/// A recognised key whose value does not parse, with its line (counted from 1).
#[derive(Clone, Copy, Debug, PartialEq, Eq, Structural)]
pub struct ConfigError {
    pub line: usize,
    pub key: ConfigKey,
}

/// The settings used when no file is read: names cut to 40 characters, a
/// least width of 10, two blanks of spacing, and entries per line from the
/// terminal width.
pub open spec fn builtin() -> LayoutConfig {
    LayoutConfig {
        truncate: false,
        truncate_at: 10,
        absolute_limit: 40,
        items: 4,
        spacing: 2,
        items_explicit: false,
    }
}

/// The key text that opens a line, colon included.
pub open spec fn key_text(k: ConfigKey) -> Seq<char> {
    match k {
        ConfigKey::Truncate => seq!['t', 'r', 'u', 'n', 'c', 'a', 't', 'e', ':'],
        ConfigKey::TruncateAt => seq!['t', 'r', 'u', 'n', 'c', 'a', 't', 'e', '_', 'a', 't', ':'],
        ConfigKey::AbsoluteLimit => seq![
            'a', 'b', 's', 'o', 'l', 'u', 't', 'e', '_', 'l', 'i', 'm', 'i', 't', ':',
        ],
        ConfigKey::Items => seq!['i', 't', 'e', 'm', 's', ':'],
        ConfigKey::Spacing => seq!['s', 'p', 'a', 'c', 'i', 'n', 'g', ':'],
    }
}

/// Whether `s` begins with `prefix`.
pub open spec fn starts_with(s: Seq<char>, prefix: Seq<char>) -> bool {
    prefix.len() <= s.len() && s.take(prefix.len() as int) == prefix
}

/// The key a line sets, if any; keys are tried in a fixed order.
pub open spec fn key_of_line(line: Seq<char>) -> Option<ConfigKey> {
    if starts_with(line, key_text(ConfigKey::Truncate)) {
        Some(ConfigKey::Truncate)
    } else if starts_with(line, key_text(ConfigKey::TruncateAt)) {
        Some(ConfigKey::TruncateAt)
    } else if starts_with(line, key_text(ConfigKey::AbsoluteLimit)) {
        Some(ConfigKey::AbsoluteLimit)
    } else if starts_with(line, key_text(ConfigKey::Items)) {
        Some(ConfigKey::Items)
    } else if starts_with(line, key_text(ConfigKey::Spacing)) {
        Some(ConfigKey::Spacing)
    } else {
        None
    }
}

/// `true` or `false`, spelled exactly so.
pub open spec fn bool_value(v: Seq<char>) -> Option<bool> {
    if v == seq!['t', 'r', 'u', 'e'] {
        Some(true)
    } else if v == seq!['f', 'a', 'l', 's', 'e'] {
        Some(false)
    } else {
        None
    }
}

/// A decimal digit.
pub open spec fn is_digit(c: char) -> bool {
    '0' <= c && c <= '9'
}

/// Every character is a decimal digit.
pub open spec fn all_digits(d: Seq<char>) -> bool {
    forall|i: int| 0 <= i < d.len() ==> is_digit(#[trigger] d[i])
}

/// The value of a decimal digit.
pub open spec fn digit_value(c: char) -> nat {
    ((c as u32) - ('0' as u32)) as nat
}

/// The number that decimal digits `d` spell.
pub open spec fn digits_value(d: Seq<char>) -> nat
    decreases d.len(),
{
    if d.len() == 0 {
        0
    } else {
        digits_value(d.drop_last()) * 10 + digit_value(d.last())
    }
}

/// An unsigned value: an optional `+`, then one or more decimal digits,
/// spelling a number that fits in `usize`.
pub open spec fn uint_value(v: Seq<char>) -> Option<usize> {
    let d = if v.len() > 0 && v[0] == '+' {
        v.drop_first()
    } else {
        v
    };
    if d.len() > 0 && all_digits(d) && digits_value(d) <= usize::MAX {
        Some(digits_value(d) as usize)
    } else {
        None
    }
}

/// The settings with key `k` set from value text `v`, if `v` parses.
pub open spec fn with_value(cfg: LayoutConfig, k: ConfigKey, v: Seq<char>) -> Option<LayoutConfig> {
    match k {
        ConfigKey::Truncate => match bool_value(v) {
            Some(b) => Some(LayoutConfig { truncate: b, ..cfg }),
            None => None,
        },
        ConfigKey::TruncateAt => match uint_value(v) {
            Some(n) => Some(LayoutConfig { truncate_at: n, ..cfg }),
            None => None,
        },
        ConfigKey::AbsoluteLimit => match uint_value(v) {
            Some(n) => Some(LayoutConfig { absolute_limit: n, ..cfg }),
            None => None,
        },
        ConfigKey::Items => match uint_value(v) {
            Some(n) => Some(LayoutConfig { items: n, items_explicit: true, ..cfg }),
            None => None,
        },
        ConfigKey::Spacing => match uint_value(v) {
            Some(n) => Some(LayoutConfig { spacing: n, ..cfg }),
            None => None,
        },
    }
}

/// One line applied to the settings: a line with no known key changes
/// nothing; a known key with a bad value is an error at line `number`.
pub open spec fn apply_line(cfg: LayoutConfig, line: Seq<char>, number: nat) -> Result<
    LayoutConfig,
    ConfigError,
> {
    match key_of_line(line) {
        None => Ok(cfg),
        Some(k) => match with_value(cfg, k, line.skip(key_text(k).len() as int)) {
            Some(c) => Ok(c),
            None => Err(ConfigError { line: number as usize, key: k }),
        },
    }
}

/// The lines applied in order to the built-in settings; the first error wins.
pub open spec fn apply_lines(ls: Seq<Seq<char>>) -> Result<LayoutConfig, ConfigError>
    decreases ls.len(),
{
    if ls.len() == 0 {
        Ok(builtin())
    } else {
        match apply_lines(ls.drop_last()) {
            Ok(c) => apply_line(c, ls.last(), ls.len()),
            Err(e) => Err(e),
        }
    }
}

/// A line without its trailing carriage return.
pub open spec fn without_cr(l: Seq<char>) -> Seq<char> {
    if l.len() > 0 && l.last() == '\r' {
        l.drop_last()
    } else {
        l
    }
}

/// The lines ended so far by a line feed, and the line still open.
pub open spec fn line_split(s: Seq<char>) -> (Seq<Seq<char>>, Seq<char>)
    decreases s.len(),
{
    if s.len() == 0 {
        (Seq::empty(), Seq::empty())
    } else {
        let prev = line_split(s.drop_last());
        if s.last() == '\n' {
            (prev.0.push(without_cr(prev.1)), Seq::empty())
        } else {
            (prev.0, prev.1.push(s.last()))
        }
    }
}

/// The lines of a text: split at line feeds, a carriage return before a line
/// feed dropped, and no empty line after a final line feed.
pub open spec fn text_lines(s: Seq<char>) -> Seq<Seq<char>> {
    let (done, open_line) = line_split(s);
    if open_line.len() == 0 {
        done
    } else {
        done.push(open_line)
    }
}

/// The settings that a settings text gives.
pub open spec fn parsed_config(s: Seq<char>) -> Result<LayoutConfig, ConfigError> {
    apply_lines(text_lines(s))
}

/// The character sequences of a list of lines.
pub open spec fn char_views(v: Seq<Vec<char>>) -> Seq<Seq<char>> {
    v.map_values(|x: Vec<char>| x@)
}

/// The built-in settings.
pub fn builtin_config() -> (r: LayoutConfig)
    ensures
        r == builtin(),
{
    LayoutConfig {
        truncate: false,
        truncate_at: 10,
        absolute_limit: 40,
        items: 4,
        spacing: 2,
        items_explicit: false,
    }
}

/// The text of key `k`, colon included.
pub fn key_chars(k: ConfigKey) -> (r: Vec<char>)
    ensures
        r@ == key_text(k),
{
    let r = match k {
        ConfigKey::Truncate => vec!['t', 'r', 'u', 'n', 'c', 'a', 't', 'e', ':'],
        ConfigKey::TruncateAt => vec!['t', 'r', 'u', 'n', 'c', 'a', 't', 'e', '_', 'a', 't', ':'],
        ConfigKey::AbsoluteLimit => vec![
            'a', 'b', 's', 'o', 'l', 'u', 't', 'e', '_', 'l', 'i', 'm', 'i', 't', ':',
        ],
        ConfigKey::Items => vec!['i', 't', 'e', 'm', 's', ':'],
        ConfigKey::Spacing => vec!['s', 'p', 'a', 'c', 'i', 'n', 'g', ':'],
    };
    assert(r@ =~= key_text(k));
    r
}

/// Whether `s` begins with `prefix`.
pub fn has_prefix(s: &Vec<char>, prefix: &Vec<char>) -> (r: bool)
    ensures
        r == starts_with(s@, prefix@),
{
    if prefix.len() > s.len() {
        return false;
    }
    let mut i: usize = 0;
    while i < prefix.len()
        invariant
            prefix@.len() <= s@.len(),
            i <= prefix@.len(),
            s@.take(i as int) == prefix@.take(i as int),
        decreases prefix@.len() - i,
    {
        if s[i] != prefix[i] {
            assert(s@.take(prefix@.len() as int)[i as int] != prefix@[i as int]);
            return false;
        }
        i = i + 1;
        assert(s@.take(i as int) =~= prefix@.take(i as int));
    }
    assert(prefix@.take(i as int) =~= prefix@);
    true
}

/// The key a line sets, if any.
pub fn line_key(line: &Vec<char>) -> (r: Option<ConfigKey>)
    ensures
        r == key_of_line(line@),
{
    if has_prefix(line, &key_chars(ConfigKey::Truncate)) {
        Some(ConfigKey::Truncate)
    } else if has_prefix(line, &key_chars(ConfigKey::TruncateAt)) {
        Some(ConfigKey::TruncateAt)
    } else if has_prefix(line, &key_chars(ConfigKey::AbsoluteLimit)) {
        Some(ConfigKey::AbsoluteLimit)
    } else if has_prefix(line, &key_chars(ConfigKey::Items)) {
        Some(ConfigKey::Items)
    } else if has_prefix(line, &key_chars(ConfigKey::Spacing)) {
        Some(ConfigKey::Spacing)
    } else {
        None
    }
}

/// The characters of `s` from `start` on.
pub fn chars_from(s: &Vec<char>, start: usize) -> (r: Vec<char>)
    requires
        start <= s@.len(),
    ensures
        r@ == s@.skip(start as int),
{
    let mut r: Vec<char> = Vec::new();
    let mut i: usize = start;
    while i < s.len()
        invariant
            start <= i <= s@.len(),
            r@ == s@.subrange(start as int, i as int),
        decreases s@.len() - i,
    {
        r.push(s[i]);
        i = i + 1;
        assert(r@ =~= s@.subrange(start as int, i as int));
    }
    assert(r@ =~= s@.skip(start as int));
    r
}

/// Reads `true` or `false`.
pub fn parse_bool(v: &Vec<char>) -> (r: Option<bool>)
    ensures
        r == bool_value(v@),
{
    let t: Vec<char> = vec!['t', 'r', 'u', 'e'];
    let f: Vec<char> = vec!['f', 'a', 'l', 's', 'e'];
    assert(t@ =~= seq!['t', 'r', 'u', 'e']);
    assert(f@ =~= seq!['f', 'a', 'l', 's', 'e']);
    if has_prefix(v, &t) && v.len() == t.len() {
        assert(v@ =~= v@.take(4));
        Some(true)
    } else if has_prefix(v, &f) && v.len() == f.len() {
        assert(v@ =~= v@.take(5));
        Some(false)
    } else {
        assert(v@ != t@) by {
            if v@ == t@ {
                assert(v@.take(4) =~= v@);
            }
        }
        assert(v@ != f@) by {
            if v@ == f@ {
                assert(v@.take(5) =~= v@);
            }
        }
        None
    }
}

/// A prefix of a digit string spells no larger a number than the whole.
pub proof fn lemma_digits_prefix_le(d: Seq<char>, k: int)
    requires
        0 <= k <= d.len(),
    ensures
        digits_value(d.take(k)) <= digits_value(d),
    decreases d.len() - k,
{
    if k < d.len() {
        assert(d.drop_last().take(k) =~= d.take(k));
        lemma_digits_prefix_le(d.drop_last(), k);
    } else {
        assert(d.take(k) =~= d);
    }
}

/// Reads an unsigned value: an optional `+`, then decimal digits that fit in `usize`.
pub fn parse_uint(v: &Vec<char>) -> (r: Option<usize>)
    ensures
        r == uint_value(v@),
{
    let start: usize = if v.len() > 0 && v[0] == '+' {
        1
    } else {
        0
    };
    let ghost d = if v@.len() > 0 && v@[0] == '+' {
        v@.drop_first()
    } else {
        v@
    };
    assert(d =~= v@.skip(start as int));
    if start >= v.len() {
        return None;
    }
    let mut acc: usize = 0;
    let mut i: usize = start;
    while i < v.len()
        invariant
            start <= i <= v@.len(),
            d == v@.skip(start as int),
            d == (if v@.len() > 0 && v@[0] == '+' {
                v@.drop_first()
            } else {
                v@
            }),
            all_digits(d.take(i - start)),
            acc == digits_value(d.take(i - start)),
        decreases v@.len() - i,
    {
        let c = v[i];
        if !('0' <= c && c <= '9') {
            assert(!is_digit(d[i - start]));
            assert(!all_digits(d));
            return None;
        }
        let digit: usize = ((c as u32) - ('0' as u32)) as usize;
        let ghost k: int = i - start;
        assert(d.take(k + 1).drop_last() =~= d.take(k));
        assert(d.take(k + 1).last() == c);
        assert(digit_value(c) == digit);
        assert(digits_value(d.take(k + 1)) == acc * 10 + digit);
        if acc > (usize::MAX - digit) / 10 {
            proof {
                assert(acc * 10 + digit > usize::MAX) by (nonlinear_arith)
                    requires
                        acc > (usize::MAX - digit) / 10,
                        digit <= 9,
                ;
                if all_digits(d) {
                    lemma_digits_prefix_le(d, k + 1);
                    assert(digits_value(d) > usize::MAX);
                }
            }
            return None;
        }
        assert(acc * 10 + digit <= usize::MAX) by (nonlinear_arith)
            requires
                acc <= (usize::MAX - digit) / 10,
                digit <= 9,
        ;
        acc = acc * 10 + digit;
        i = i + 1;
        assert(all_digits(d.take(i - start))) by {
            assert forall|j: int| 0 <= j < d.take(i - start).len() implies is_digit(
                #[trigger] d.take(i - start)[j],
            ) by {
                if j < k {
                    assert(d.take(i - start)[j] == d.take(k)[j]);
                }
            }
        }
    }
    assert(d.take(i - start) =~= d);
    Some(acc)
}

/// The settings with key `k` set from value text `v`, if `v` parses.
pub fn set_value(cfg: LayoutConfig, k: ConfigKey, v: &Vec<char>) -> (r: Option<LayoutConfig>)
    ensures
        r == with_value(cfg, k, v@),
{
    match k {
        ConfigKey::Truncate => match parse_bool(v) {
            Some(b) => Some(LayoutConfig { truncate: b, ..cfg }),
            None => None,
        },
        ConfigKey::TruncateAt => match parse_uint(v) {
            Some(n) => Some(LayoutConfig { truncate_at: n, ..cfg }),
            None => None,
        },
        ConfigKey::AbsoluteLimit => match parse_uint(v) {
            Some(n) => Some(LayoutConfig { absolute_limit: n, ..cfg }),
            None => None,
        },
        ConfigKey::Items => match parse_uint(v) {
            Some(n) => Some(LayoutConfig { items: n, items_explicit: true, ..cfg }),
            None => None,
        },
        ConfigKey::Spacing => match parse_uint(v) {
            Some(n) => Some(LayoutConfig { spacing: n, ..cfg }),
            None => None,
        },
    }
}

/// Applies one settings line, numbered `number`, to `cfg`.
pub fn apply_config_line(cfg: LayoutConfig, line: &Vec<char>, number: usize) -> (r: Result<
    LayoutConfig,
    ConfigError,
>)
    ensures
        r == apply_line(cfg, line@, number as nat),
{
    match line_key(line) {
        None => Ok(cfg),
        Some(k) => {
            let key = key_chars(k);
            let v = chars_from(line, key.len());
            match set_value(cfg, k, &v) {
                Some(c) => Ok(c),
                None => Err(ConfigError { line: number, key: k }),
            }
        },
    }
}

/// Splits a text into its lines.
pub fn split_lines(s: &Vec<char>) -> (r: Vec<Vec<char>>)
    ensures
        char_views(r@) == text_lines(s@),
{
    let mut done: Vec<Vec<char>> = Vec::new();
    let mut cur: Vec<char> = Vec::new();
    let mut i: usize = 0;
    while i < s.len()
        invariant
            i <= s@.len(),
            char_views(done@) == line_split(s@.take(i as int)).0,
            cur@ == line_split(s@.take(i as int)).1,
        decreases s@.len() - i,
    {
        assert(s@.take(i + 1).drop_last() =~= s@.take(i as int));
        let c = s[i];
        if c == '\n' {
            if cur.len() > 0 && cur[cur.len() - 1] == '\r' {
                cur.pop();
                assert(cur@ =~= line_split(s@.take(i as int)).1.drop_last());
            }
            let ghost before = done@;
            done.push(cur);
            assert(char_views(done@) =~= char_views(before).push(cur@));
            cur = Vec::new();
            assert(cur@ =~= Seq::<char>::empty());
        } else {
            cur.push(c);
        }
        i = i + 1;
    }
    assert(s@.take(i as int) =~= s@);
    if cur.len() > 0 {
        let ghost before = done@;
        done.push(cur);
        assert(char_views(done@) =~= char_views(before).push(cur@));
    }
    done
}

/// Once a prefix of the lines fails, all of them fail with that error.
pub proof fn lemma_first_error_wins(ls: Seq<Seq<char>>, k: int)
    requires
        0 <= k <= ls.len(),
        apply_lines(ls.take(k)) is Err,
    ensures
        apply_lines(ls) == apply_lines(ls.take(k)),
    decreases ls.len() - k,
{
    if k < ls.len() {
        assert(ls.drop_last().take(k) =~= ls.take(k));
        lemma_first_error_wins(ls.drop_last(), k);
    } else {
        assert(ls.take(k) =~= ls);
    }
}

/// Reads settings from the text of a settings file. Each line `key:value`
/// with a known key sets that setting; other lines are ignored, and settings
/// no line sets keep their built-in values. A known key whose value does
/// not parse is an error, the first such line in the text.
pub fn parse_config(text: &Vec<char>) -> (r: Result<LayoutConfig, ConfigError>)
    ensures
        r == parsed_config(text@),
{
    let lines = split_lines(text);
    let ghost ls = char_views(lines@);
    let mut cfg = builtin_config();
    let mut i: usize = 0;
    while i < lines.len()
        invariant
            i <= lines@.len(),
            ls == char_views(lines@),
            ls == text_lines(text@),
            apply_lines(ls.take(i as int)) == Ok::<LayoutConfig, ConfigError>(cfg),
        decreases lines@.len() - i,
    {
        assert(ls.take(i + 1).drop_last() =~= ls.take(i as int));
        assert(ls.take(i + 1).last() == lines@[i as int]@);
        match apply_config_line(cfg, &lines[i], i + 1) {
            Ok(c) => {
                cfg = c;
            },
            Err(e) => {
                proof {
                    lemma_first_error_wins(ls, i + 1);
                }
                return Err(e);
            },
        }
        i = i + 1;
    }
    assert(ls.take(i as int) =~= ls);
    Ok(cfg)
}

/// The lines of the settings file written when none exists.
pub open spec fn default_lines() -> Seq<Seq<char>> {
    seq![
        key_text(ConfigKey::Truncate) + seq!['f', 'a', 'l', 's', 'e'],
        key_text(ConfigKey::TruncateAt) + seq!['1', '0'],
        key_text(ConfigKey::AbsoluteLimit) + seq!['4', '0'],
        key_text(ConfigKey::Items) + seq!['4'],
        key_text(ConfigKey::Spacing) + seq!['2'],
    ]
}

/// Lines written one after another, each ended by a line feed.
pub open spec fn terminated(ls: Seq<Seq<char>>) -> Seq<char>
    decreases ls.len(),
{
    if ls.len() == 0 {
        Seq::empty()
    } else {
        terminated(ls.drop_last()) + ls.last() + seq!['\n']
    }
}

/// The text of the settings file written when none exists.
pub open spec fn default_text() -> Seq<char> {
    terminated(default_lines())
}

/// The settings the default file holds: the built-in ones, with the
/// entries per line given explicitly.
pub open spec fn written_defaults() -> LayoutConfig {
    LayoutConfig { items_explicit: true, ..builtin() }
}

/// Writes lines one after another, each ended by a line feed.
pub fn join_lines(ls: &Vec<Vec<char>>) -> (r: Vec<char>)
    ensures
        r@ == terminated(char_views(ls@)),
{
    let mut out: Vec<char> = Vec::new();
    let mut i: usize = 0;
    while i < ls.len()
        invariant
            i <= ls@.len(),
            out@ == terminated(char_views(ls@).take(i as int)),
        decreases ls@.len() - i,
    {
        assert(char_views(ls@).take(i + 1).drop_last() =~= char_views(ls@).take(i as int));
        append_chars(&mut out, &ls[i]);
        out.push('\n');
        i = i + 1;
    }
    assert(char_views(ls@).take(i as int) =~= char_views(ls@));
    out
}

/// The lines of the settings file written when none exists.
pub fn default_line_list() -> (r: Vec<Vec<char>>)
    ensures
        char_views(r@) == default_lines(),
{
    let mut r: Vec<Vec<char>> = Vec::new();
    let mut l = key_chars(ConfigKey::Truncate);
    let value: Vec<char> = vec!['f', 'a', 'l', 's', 'e'];
    assert(value@ =~= seq!['f', 'a', 'l', 's', 'e']);
    append_chars(&mut l, &value);
    r.push(l);
    let mut l = key_chars(ConfigKey::TruncateAt);
    let value: Vec<char> = vec!['1', '0'];
    assert(value@ =~= seq!['1', '0']);
    append_chars(&mut l, &value);
    r.push(l);
    let mut l = key_chars(ConfigKey::AbsoluteLimit);
    let value: Vec<char> = vec!['4', '0'];
    assert(value@ =~= seq!['4', '0']);
    append_chars(&mut l, &value);
    r.push(l);
    let mut l = key_chars(ConfigKey::Items);
    let value: Vec<char> = vec!['4'];
    assert(value@ =~= seq!['4']);
    append_chars(&mut l, &value);
    r.push(l);
    let mut l = key_chars(ConfigKey::Spacing);
    let value: Vec<char> = vec!['2'];
    assert(value@ =~= seq!['2']);
    append_chars(&mut l, &value);
    r.push(l);
    assert(char_views(r@)[0] == default_lines()[0]);
    assert(char_views(r@)[1] == default_lines()[1]);
    assert(char_views(r@)[2] == default_lines()[2]);
    assert(char_views(r@)[3] == default_lines()[3]);
    assert(char_views(r@)[4] == default_lines()[4]);
    assert(char_views(r@) =~= default_lines());
    r
}

/// The text of the settings file written when none exists.
pub fn default_config_text() -> (r: Vec<char>)
    ensures
        r@ == default_text(),
{
    join_lines(&default_line_list())
}

/// Characters without a line feed leave the ended lines alone and extend the open one.
pub proof fn lemma_split_open(s: Seq<char>, p: Seq<char>)
    requires
        !p.contains('\n'),
    ensures
        line_split(s + p) == (line_split(s).0, line_split(s).1 + p),
    decreases p.len(),
{
    if p.len() == 0 {
        assert(s + p =~= s);
        assert(line_split(s).1 + p =~= line_split(s).1);
    } else {
        assert((s + p).drop_last() =~= s + p.drop_last());
        assert(!p.drop_last().contains('\n')) by {
            if p.drop_last().contains('\n') {
                let j = choose|j: int| 0 <= j < p.drop_last().len() && p.drop_last()[j] == '\n';
                assert(p[j] == '\n');
            }
        }
        lemma_split_open(s, p.drop_last());
        assert((s + p).last() == p.last());
        assert(line_split(s).1 + p.drop_last() + seq![p.last()] =~= line_split(s).1 + p);
        assert((line_split(s).1 + p.drop_last()).push(p.last()) =~= line_split(s).1 + p);
    }
}

/// Lines free of line feeds and of a final carriage return, each ended by a
/// line feed, split back into those lines.
pub proof fn lemma_lines_of_terminated(ls: Seq<Seq<char>>)
    requires
        forall|i: int| 0 <= i < ls.len() ==> !(#[trigger] ls[i]).contains('\n'),
        forall|i: int| 0 <= i < ls.len() ==> without_cr(#[trigger] ls[i]) == ls[i],
    ensures
        line_split(terminated(ls)) == (ls, Seq::<char>::empty()),
        text_lines(terminated(ls)) == ls,
    decreases ls.len(),
{
    if ls.len() > 0 {
        let init = ls.drop_last();
        assert forall|i: int| 0 <= i < init.len() implies !(#[trigger] init[i]).contains('\n')
            && without_cr(init[i]) == init[i] by {
            assert(init[i] == ls[i]);
        }
        lemma_lines_of_terminated(init);
        let t = terminated(init);
        let last = ls[ls.len() - 1];
        lemma_split_open(t, last);
        let whole = t + last + seq!['\n'];
        assert(whole.drop_last() =~= t + last);
        assert(Seq::<char>::empty() + last =~= last);
        assert(init.push(last) =~= ls);
    }
}

/// A line made of key `k`'s text and a value is a line of key `k`.
pub proof fn lemma_key_of_keyed_line(k: ConfigKey, v: Seq<char>)
    ensures
        key_of_line(key_text(k) + v) == Some(k),
        (key_text(k) + v).skip(key_text(k).len() as int) == v,
{
    let line = key_text(k) + v;
    let n = key_text(k).len() as int;
    assert(line.take(n) =~= key_text(k));
    assert(line.skip(n) =~= v);
    assert(line[0] == key_text(k)[0]);
    if n > 8 {
        assert(line[8] == key_text(k)[8]);
    }
    assert forall|j: ConfigKey| starts_with(line, #[trigger] key_text(j)) implies line[0] == key_text(
        j,
    )[0] && (key_text(j).len() > 8 ==> line[8] == key_text(j)[8]) by {
        assert(line.take(key_text(j).len() as int)[0] == line[0]);
        if key_text(j).len() > 8 {
            assert(line.take(key_text(j).len() as int)[8] == line[8]);
        }
    }
}

/// The settings file written on a first run reads back as the settings that
/// run used: `truncate` off, `truncate_at` 10, `absolute_limit` 40, `items`
/// 4 and `spacing` 2. Later runs therefore lay out a listing as the first did.
pub proof fn lemma_default_text_reads_back()
    ensures
        parsed_config(default_text()) == Ok::<LayoutConfig, ConfigError>(written_defaults()),
{
    let ls = default_lines();
    assert forall|i: int| 0 <= i < ls.len() implies !(#[trigger] ls[i]).contains('\n') && without_cr(
        ls[i],
    ) == ls[i] by {
        if ls[i].contains('\n') {
            let j = choose|j: int| 0 <= j < ls[i].len() && ls[i][j] == '\n';
        }
    }
    lemma_lines_of_terminated(ls);
    let f = seq!['f', 'a', 'l', 's', 'e'];
    let ten = seq!['1', '0'];
    let forty = seq!['4', '0'];
    let four = seq!['4'];
    let two = seq!['2'];
    lemma_key_of_keyed_line(ConfigKey::Truncate, f);
    lemma_key_of_keyed_line(ConfigKey::TruncateAt, ten);
    lemma_key_of_keyed_line(ConfigKey::AbsoluteLimit, forty);
    lemma_key_of_keyed_line(ConfigKey::Items, four);
    lemma_key_of_keyed_line(ConfigKey::Spacing, two);
    assert(bool_value(f) == Some(false)) by {
        assert(f != seq!['t', 'r', 'u', 'e']);
    }
    assert(digits_value(ten) == 10) by {
        assert(ten.drop_last() =~= seq!['1']);
        assert(seq!['1'].drop_last() =~= Seq::<char>::empty());
        assert(digit_value('1') == 1);
        assert(digit_value('0') == 0);
        assert(digits_value(Seq::<char>::empty()) == 0);
        assert(seq!['1'].last() == '1');
        assert(digits_value(seq!['1']) == 1);
    }
    assert(digits_value(forty) == 40) by {
        assert(forty.drop_last() =~= seq!['4']);
        assert(seq!['4'].drop_last() =~= Seq::<char>::empty());
        assert(digit_value('4') == 4);
        assert(digit_value('0') == 0);
        assert(digits_value(Seq::<char>::empty()) == 0);
        assert(seq!['4'].last() == '4');
        assert(digits_value(seq!['4']) == 4);
    }
    assert(digits_value(four) == 4) by {
        assert(four.drop_last() =~= Seq::<char>::empty());
        assert(digits_value(Seq::<char>::empty()) == 0);
        assert(four.last() == '4');
        assert(digit_value('4') == 4);
    }
    assert(digits_value(two) == 2) by {
        assert(two.drop_last() =~= Seq::<char>::empty());
        assert(digits_value(Seq::<char>::empty()) == 0);
        assert(two.last() == '2');
        assert(digit_value('2') == 2);
    }
    assert(uint_value(ten) == Some(10usize));
    assert(uint_value(forty) == Some(40usize));
    assert(uint_value(four) == Some(4usize));
    assert(uint_value(two) == Some(2usize));
    assert(ls.take(4) =~= ls.drop_last());
    assert(ls.take(3) =~= ls.take(4).drop_last());
    assert(ls.take(2) =~= ls.take(3).drop_last());
    assert(ls.take(1) =~= ls.take(2).drop_last());
    assert(ls.take(0) =~= ls.take(1).drop_last());
    assert(apply_lines(ls.take(0)) == Ok::<LayoutConfig, ConfigError>(builtin()));
    assert(apply_lines(ls.take(1)) == Ok::<LayoutConfig, ConfigError>(builtin()));
    assert(apply_lines(ls.take(2)) == Ok::<LayoutConfig, ConfigError>(builtin()));
    assert(apply_lines(ls.take(3)) == Ok::<LayoutConfig, ConfigError>(builtin()));
    assert(apply_lines(ls.take(4)) == Ok::<LayoutConfig, ConfigError>(written_defaults()));
    assert(apply_lines(ls) == Ok::<LayoutConfig, ConfigError>(written_defaults()));
}

/// The settings a first run uses, read from the text it writes.
pub fn first_run_config() -> (r: LayoutConfig)
    ensures
        r == written_defaults(),
        Ok::<LayoutConfig, ConfigError>(r) == parsed_config(default_text()),
{
    proof {
        lemma_default_text_reads_back();
    }
    match parse_config(&default_config_text()) {
        Ok(c) => c,
        Err(_) => {
            assert(false);
            builtin_config()
        },
    }
}

} // verus!
