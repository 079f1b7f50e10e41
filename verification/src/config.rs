//! The configuration file: plain `key=value` lines, hand-editable.
//!
//! Only `device_id` is read: the explicitly chosen capture device, empty to
//! follow the system default. Blank lines and lines starting with `#` or `;`
//! are comments; keys and values are trimmed of Unicode white space; the last
//! `device_id` line wins.

use vstd::prelude::*;
use crate::text::chars_of;

verus! {

/// Unicode `White_Space`, the set `char::is_whitespace` tests.
pub open spec fn is_ws(c: char) -> bool {
    let u = c as u32;
    (0x09 <= u <= 0x0D) || u == 0x20 || u == 0x85 || u == 0xA0 || u == 0x1680 || (0x2000 <= u
        <= 0x200A) || u == 0x2028 || u == 0x2029 || u == 0x202F || u == 0x205F || u == 0x3000
}

/// `s` without leading white space.
pub open spec fn trim_start(s: Seq<char>) -> Seq<char>
    decreases s.len(),
{
    if s.len() > 0 && is_ws(s[0]) {
        trim_start(s.drop_first())
    } else {
        s
    }
}

/// `s` without trailing white space.
pub open spec fn trim_end(s: Seq<char>) -> Seq<char>
    decreases s.len(),
{
    if s.len() > 0 && is_ws(s.last()) {
        trim_end(s.drop_last())
    } else {
        s
    }
}

/// `s` without leading or trailing white space.
pub open spec fn trim(s: Seq<char>) -> Seq<char> {
    trim_end(trim_start(s))
}

/// Index of the first `c` in `s`, or `s.len()` when there is none.
pub open spec fn first_index(s: Seq<char>, c: char) -> int
    decreases s.len(),
{
    if s.len() == 0 {
        0
    } else if s[0] == c {
        0
    } else {
        1 + first_index(s.drop_first(), c)
    }
}

/// `first_index` is the position of the first occurrence, or the length.
pub proof fn lemma_first_index_bounds(s: Seq<char>, c: char)
    ensures
        0 <= first_index(s, c) <= s.len(),
        first_index(s, c) < s.len() ==> s[first_index(s, c)] == c,
        forall|i: int| 0 <= i < first_index(s, c) ==> #[trigger] s[i] != c,
    decreases s.len(),
{
    if s.len() > 0 && s[0] != c {
        lemma_first_index_bounds(s.drop_first(), c);
        assert(forall|i: int| 0 < i < first_index(s, c) ==> #[trigger] s[i] == s.drop_first()[i - 1]);
    }
}

/// The value that one line assigns to `device_id`, if it assigns one.
pub open spec fn line_value(line: Seq<char>) -> Option<Seq<char>> {
    let t = trim(line);
    if t.len() == 0 || t[0] == '#' || t[0] == ';' {
        None
    } else {
        let e = first_index(t, '=');
        if e == t.len() {
            None
        } else if trim(t.take(e)) == "device_id"@ {
            Some(trim(t.skip(e + 1)))
        } else {
            None
        }
    }
}

/// The `device_id` after reading the lines of `text` in order, starting from `cur`.
pub open spec fn config_id(text: Seq<char>, cur: Seq<char>) -> Seq<char>
    decreases text.len(),
{
    let e = first_index(text, '\n');
    let next = match line_value(text.take(e)) {
        Some(v) => v,
        None => cur,
    };
    if e >= text.len() {
        next
    } else {
        proof {
            lemma_first_index_bounds(text, '\n');
        }
        config_id(text.skip(e + 1), next)
    }
}

/// Settings kept between runs.
#[derive(Clone, Debug)]
pub struct Config {
    /// The explicitly chosen capture device id; empty follows the system default.
    pub device_id: String,
}

impl Default for Config {
    fn default() -> (r: Config)
        ensures
            r.device_id@ == Seq::<char>::empty(),
    {
        Config { device_id: String::new() }
    }
}

/// `char::is_whitespace`.
fn is_whitespace(c: char) -> (r: bool)
    ensures
        r == is_ws(c),
{
    let u = c as u32;
    (0x09 <= u && u <= 0x0D) || u == 0x20 || u == 0x85 || u == 0xA0 || u == 0x1680 || (0x2000
        <= u && u <= 0x200A) || u == 0x2028 || u == 0x2029 || u == 0x202F || u == 0x205F || u
        == 0x3000
}

proof fn lemma_trim_start_at(s: Seq<char>, k: int)
    requires
        0 <= k <= s.len(),
        forall|i: int| 0 <= i < k ==> is_ws(#[trigger] s[i]),
        k == s.len() || !is_ws(s[k]),
    ensures
        trim_start(s) == s.skip(k),
    decreases k,
{
    if k > 0 {
        assert(forall|i: int| 0 <= i < k - 1 ==> #[trigger] s.drop_first()[i] == s[i + 1]);
        lemma_trim_start_at(s.drop_first(), k - 1);
        assert(s.drop_first().skip(k - 1) =~= s.skip(k));
    } else {
        assert(s.skip(0) =~= s);
    }
}

proof fn lemma_trim_end_at(s: Seq<char>, m: int)
    requires
        0 <= m <= s.len(),
        forall|i: int| m <= i < s.len() ==> is_ws(#[trigger] s[i]),
        m == 0 || !is_ws(s[m - 1]),
    ensures
        trim_end(s) == s.take(m),
    decreases s.len() - m,
{
    if m < s.len() {
        lemma_trim_end_at(s.drop_last(), m);
        assert(s.drop_last().take(m) =~= s.take(m));
    } else {
        assert(s.take(m) =~= s);
    }
}

proof fn lemma_first_index_at(s: Seq<char>, c: char, k: int)
    requires
        0 <= k <= s.len(),
        forall|i: int| 0 <= i < k ==> #[trigger] s[i] != c,
        k == s.len() || s[k] == c,
    ensures
        first_index(s, c) == k,
    decreases k,
{
    if k > 0 {
        assert(forall|i: int| 0 <= i < k - 1 ==> #[trigger] s.drop_first()[i] == s[i + 1]);
        lemma_first_index_at(s.drop_first(), c, k - 1);
    }
}

/// The trimmed part `[a, b)` of `cs[lo..hi]`.
fn trim_range(cs: &Vec<char>, lo: usize, hi: usize) -> (r: (usize, usize))
    requires
        lo <= hi <= cs@.len(),
    ensures
        lo <= r.0 <= r.1 <= hi,
        cs@.subrange(r.0 as int, r.1 as int) == trim(cs@.subrange(lo as int, hi as int)),
{
    let mut a = lo;
    while a < hi && is_whitespace(cs[a])
        invariant
            lo <= a <= hi <= cs@.len(),
            forall|i: int| lo <= i < a ==> is_ws(#[trigger] cs@[i]),
        decreases hi - a,
    {
        a = a + 1;
    }
    let mut b = hi;
    while b > a && is_whitespace(cs[b - 1])
        invariant
            lo <= a <= b <= hi <= cs@.len(),
            forall|i: int| b <= i < hi ==> is_ws(#[trigger] cs@[i]),
        decreases b - a,
    {
        b = b - 1;
    }
    proof {
        let s = cs@.subrange(lo as int, hi as int);
        lemma_trim_start_at(s, a - lo);
        let t = s.skip(a - lo);
        assert(t =~= cs@.subrange(a as int, hi as int));
        lemma_trim_end_at(t, b - a);
        assert(t.take(b - a) =~= cs@.subrange(a as int, b as int));
    }
    (a, b)
}

/// Index of the first `c` in `cs[lo..hi]`, or `hi`.
fn find_char(cs: &Vec<char>, lo: usize, hi: usize, c: char) -> (r: usize)
    requires
        lo <= hi <= cs@.len(),
    ensures
        lo <= r <= hi,
        r - lo == first_index(cs@.subrange(lo as int, hi as int), c),
{
    let mut i = lo;
    while i < hi && cs[i] != c
        invariant
            lo <= i <= hi <= cs@.len(),
            forall|k: int| lo <= k < i ==> #[trigger] cs@[k] != c,
        decreases hi - i,
    {
        i = i + 1;
    }
    proof {
        let s = cs@.subrange(lo as int, hi as int);
        assert(forall|k: int| 0 <= k < i - lo ==> #[trigger] s[k] == cs@[lo + k]);
        lemma_first_index_at(s, c, i - lo);
    }
    i
}

/// Whether `cs[lo..hi]` spells `word`.
fn range_equals(cs: &Vec<char>, lo: usize, hi: usize, word: &Vec<char>) -> (r: bool)
    requires
        lo <= hi <= cs@.len(),
    ensures
        r == (cs@.subrange(lo as int, hi as int) == word@),
{
    if hi - lo != word.len() {
        return false;
    }
    let mut i: usize = 0;
    while i < word.len()
        invariant
            hi - lo == word@.len(),
            lo <= hi <= cs@.len(),
            i <= word@.len(),
            forall|k: int| 0 <= k < i ==> cs@[lo + k] == #[trigger] word@[k],
        decreases word@.len() - i,
    {
        if cs[lo + i] != word[i] {
            assert(cs@.subrange(lo as int, hi as int)[i as int] != word@[i as int]);
            return false;
        }
        i = i + 1;
    }
    assert(cs@.subrange(lo as int, hi as int) =~= word@);
    true
}

/// The `device_id` value assigned by the line `cs[lo..hi]` of `text`, if any.
fn line_entry(text: &str, cs: &Vec<char>, key: &Vec<char>, lo: usize, hi: usize) -> (r: Option<
    String,
>)
    requires
        cs@ == text@,
        key@ == "device_id"@,
        lo <= hi <= cs@.len(),
    ensures
        match line_value(cs@.subrange(lo as int, hi as int)) {
            Some(v) => r is Some && r->0@ == v,
            None => r is None,
        },
{
    let ghost line = cs@.subrange(lo as int, hi as int);
    let (a, b) = trim_range(cs, lo, hi);
    let ghost t = cs@.subrange(a as int, b as int);
    if a == b || cs[a] == '#' || cs[a] == ';' {
        return None;
    }
    let e = find_char(cs, a, b, '=');
    if e == b {
        return None;
    }
    assert(t.take(e - a) =~= cs@.subrange(a as int, e as int));
    assert(t.skip(e - a + 1) =~= cs@.subrange(e + 1, b as int));
    let (ka, kb) = trim_range(cs, a, e);
    if !range_equals(cs, ka, kb, key) {
        return None;
    }
    let (va, vb) = trim_range(cs, e + 1, b);
    Some(String::from_str(text.substring_char(va, vb)))
}

/// Reads the settings from the text of a configuration file.
pub fn parse_config(text: &str) -> (r: Config)
    ensures
        r.device_id@ == config_id(text@, Seq::<char>::empty()),
{
    let cs = chars_of(text);
    let key = chars_of("device_id");
    let n = cs.len();
    let mut cur = String::new();
    let mut start: usize = 0;
    assert(cs@.skip(0) =~= cs@);
    loop
        invariant_except_break
            start <= n,
            config_id(text@, Seq::<char>::empty()) == config_id(cs@.skip(start as int), cur@),
        invariant
            n == cs@.len(),
            cs@ == text@,
            key@ == "device_id"@,
        ensures
            config_id(text@, Seq::<char>::empty()) == cur@,
        decreases n - start,
    {
        let e = find_char(&cs, start, n, '\n');
        let ghost rest = cs@.skip(start as int);
        assert(rest.take(e - start) =~= cs@.subrange(start as int, e as int));
        assert(cs@.subrange(start as int, n as int) =~= rest);
        match line_entry(text, &cs, &key, start, e) {
            Some(v) => {
                cur = v;
            },
            None => {},
        }
        if e == n {
            break;
        }
        assert(rest.skip(e - start + 1) =~= cs@.skip(e + 1));
        start = e + 1;
    }
    Config { device_id: cur }
}


/// The configuration to save after choosing the device `id`: none when it is already the
/// configured one.
pub fn device_id_update(cfg: &Config, id: &str) -> (r: Option<Config>)
    ensures
        match r {
            None => cfg.device_id@ == id@,
            Some(c) => cfg.device_id@ != id@ && c.device_id@ == id@,
        },
{
    if crate::text::str_equal(cfg.device_id.as_str(), id) {
        None
    } else {
        Some(Config { device_id: String::from_str(id) })
    }
}

/// First header line of a written configuration file.
pub open spec fn header_line_1() -> Seq<char> {
    "# MicTrayRs 配置。可手工编辑，改完重启程序生效。"@
}

/// Second header line of a written configuration file.
pub open spec fn header_line_2() -> Seq<char> {
    "# device_id：显式选定的录音设备 id；留空 = 跟随系统默认麦克风。"@
}

/// Third header line of a written configuration file.
pub open spec fn header_line_3() -> Seq<char> {
    "# 设备 id 可在「托盘右键菜单 -> 选择麦克风」或 `MicTrayRs.exe --diag` 的输出里查看。"@
}

/// The file written for a configuration whose `device_id` is `id` (CRLF line ends).
pub open spec fn config_text_spec(id: Seq<char>) -> Seq<char> {
    header_line_1() + "\r\n"@ + header_line_2() + "\r\n"@ + header_line_3() + "\r\n"@
        + "device_id="@ + id + "\r\n"@
}

/// The text of the configuration file for `cfg`: three comment lines, then `device_id=`.
pub fn config_text(cfg: &Config) -> (r: String)
    ensures
        r@ == config_text_spec(cfg.device_id@),
{
    let mut s = String::from_str("# MicTrayRs 配置。可手工编辑，改完重启程序生效。");
    s.append("\r\n");
    s.append("# device_id：显式选定的录音设备 id；留空 = 跟随系统默认麦克风。");
    s.append("\r\n");
    s.append("# 设备 id 可在「托盘右键菜单 -> 选择麦克风」或 `MicTrayRs.exe --diag` 的输出里查看。");
    s.append("\r\n");
    s.append("device_id=");
    s.append(cfg.device_id.as_str());
    s.append("\r\n");
    s
}

proof fn lemma_trim_start_len(s: Seq<char>)
    ensures
        trim_start(s).len() <= s.len(),
        s.len() > 0 && is_ws(s[0]) ==> trim_start(s).len() < s.len(),
    decreases s.len(),
{
    if s.len() > 0 && is_ws(s[0]) {
        lemma_trim_start_len(s.drop_first());
    }
}

proof fn lemma_trim_end_prefix(s: Seq<char>)
    ensures
        trim_end(s).len() <= s.len(),
        forall|i: int| 0 <= i < trim_end(s).len() ==> #[trigger] trim_end(s)[i] == s[i],
        s.len() > 0 && !is_ws(s[0]) ==> trim_end(s).len() > 0,
        s.len() > 0 && is_ws(s.last()) ==> trim_end(s).len() < s.len(),
    decreases s.len(),
{
    if s.len() > 0 && is_ws(s.last()) {
        lemma_trim_end_prefix(s.drop_last());
    }
}

/// A trimmed non-empty text starts and ends with non-white-space characters.
proof fn lemma_trimmed_ends(id: Seq<char>)
    requires
        trim(id) == id,
        id.len() > 0,
    ensures
        !is_ws(id[0]),
        !is_ws(id.last()),
{
    lemma_trim_start_len(id);
    lemma_trim_end_prefix(trim_start(id));
    if !is_ws(id[0]) {
        lemma_trim_start_at(id, 0);
        assert(id.skip(0) =~= id);
        lemma_trim_end_prefix(id);
    }
}

/// A line that starts with `#` and holds no line feed is skipped.
proof fn lemma_skip_comment(line: Seq<char>, rest: Seq<char>, cur: Seq<char>)
    requires
        line.len() > 0,
        line[0] == '#',
        forall|i: int| 0 <= i < line.len() ==> #[trigger] line[i] != '\n',
    ensures
        config_id(line + "\r\n"@ + rest, cur) == config_id(rest, cur),
{
    reveal_strlit("\r\n");
    let text = line + "\r\n"@ + rest;
    let n = line.len() as int;
    assert(forall|i: int| 0 <= i < n + 1 ==> #[trigger] text[i] != '\n');
    lemma_first_index_at(text, '\n', n + 1);
    let l = text.take(n + 1);
    assert(l =~= line + seq!['\r']);
    lemma_trim_start_at(l, 0);
    assert(l.skip(0) =~= l);
    lemma_trim_end_prefix(l);
    assert(text.skip(n + 2) =~= rest);
}

/// Law: the configuration file written for `id` reads back as `id`, for every id without
/// a line feed and without leading or trailing white space.
pub proof fn lemma_config_round_trip(id: Seq<char>)
    requires
        forall|i: int| 0 <= i < id.len() ==> #[trigger] id[i] != '\n',
        trim(id) == id,
    ensures
        config_id(config_text_spec(id), Seq::<char>::empty()) == id,
{
    reveal_strlit("# MicTrayRs 配置。可手工编辑，改完重启程序生效。");
    reveal_strlit("# device_id：显式选定的录音设备 id；留空 = 跟随系统默认麦克风。");
    reveal_strlit("# 设备 id 可在「托盘右键菜单 -> 选择麦克风」或 `MicTrayRs.exe --diag` 的输出里查看。");
    reveal_strlit("device_id=");
    reveal_strlit("device_id");
    reveal_strlit("\r\n");
    let crlf = "\r\n"@;
    let last = "device_id="@ + id + crlf;
    let l1 = header_line_1();
    let l2 = header_line_2();
    let l3 = header_line_3();
    assert(config_text_spec(id) =~= l1 + crlf + (l2 + crlf + (l3 + crlf + last)));
    lemma_skip_comment(l1, l2 + crlf + (l3 + crlf + last), Seq::<char>::empty());
    lemma_skip_comment(l2, l3 + crlf + last, Seq::<char>::empty());
    lemma_skip_comment(l3, last, Seq::<char>::empty());
    // The assignment line.
    let m: int = 10 + id.len() as int;
    assert(forall|i: int| 0 <= i < m + 1 ==> #[trigger] last[i] != '\n');
    lemma_first_index_at(last, '\n', m + 1);
    let line = last.take(m + 1);
    assert(line =~= "device_id="@ + id + seq!['\r']);
    lemma_trim_start_at(line, 0);
    assert(line.skip(0) =~= line);
    if id.len() > 0 {
        lemma_trimmed_ends(id);
    }
    assert(forall|i: int| m <= i < line.len() ==> is_ws(#[trigger] line[i]));
    lemma_trim_end_at(line, m);
    let t = line.take(m);
    assert(t =~= "device_id="@ + id);
    assert(forall|i: int| 0 <= i < 9 ==> #[trigger] t[i] != '=');
    lemma_first_index_at(t, '=', 9);
    let key = t.take(9);
    assert(key =~= "device_id"@);
    lemma_trim_start_at(key, 0);
    assert(key.skip(0) =~= key);
    lemma_trim_end_at(key, 9);
    assert(key.take(9) =~= key);
    assert(t.skip(10) =~= id);
    assert(last.skip(m + 2) =~= Seq::<char>::empty());
    assert(trim(line) == t);
    assert(trim(key) == "device_id"@);
    assert(trim(t.skip(10)) == id);
    assert(line_value(line) == Some(id));
    let empty = Seq::<char>::empty();
    assert(empty.take(0) =~= empty);
    assert(trim(empty) == empty);
    assert(line_value(empty) is None);
    assert(config_id(empty, id) == id);
    assert(config_id(last, empty) == id);
}

} // verus!
