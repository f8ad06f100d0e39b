use vstd::prelude::*;

verus! {

/// Unicode `White_Space`, the set that `char::is_whitespace` and `str::trim` use.
pub open spec fn is_ws(c: char) -> bool {
    let v = c as u32;
    (9 <= v && v <= 13) || v == 32 || v == 0x85 || v == 0xA0 || v == 0x1680 || (0x2000 <= v
        && v <= 0x200A) || v == 0x2028 || v == 0x2029 || v == 0x202F || v == 0x205F || v == 0x3000
}

/// The characters that a strip removes: whitespace, or double quotes.
pub open spec fn strip_pred(quotes: bool, c: char) -> bool {
    if quotes {
        c == '"'
    } else {
        is_ws(c)
    }
}

pub open spec fn strip_start(s: Seq<char>, quotes: bool) -> Seq<char>
    decreases s.len(),
{
    if s.len() > 0 && strip_pred(quotes, s[0]) {
        strip_start(s.drop_first(), quotes)
    } else {
        s
    }
}

pub open spec fn strip_end(s: Seq<char>, quotes: bool) -> Seq<char>
    decreases s.len(),
{
    if s.len() > 0 && strip_pred(quotes, s.last()) {
        strip_end(s.drop_last(), quotes)
    } else {
        s
    }
}

/// `s` without leading and trailing whitespace.
pub open spec fn trimmed(s: Seq<char>) -> Seq<char> {
    strip_end(strip_start(s, false), false)
}

/// `s` without leading and trailing double quotes.
pub open spec fn unquoted(s: Seq<char>) -> Seq<char> {
    strip_end(strip_start(s, true), true)
}

/// `i` is the position of the first `c` in `s`.
pub open spec fn is_first_index(s: Seq<char>, c: char, i: int) -> bool {
    0 <= i < s.len() && s[i] == c && forall|j: int| 0 <= j < i ==> s[j] != c
}

/// A line split on its first `=`, both sides trimmed; `None` without `=`.
pub open spec fn key_value(line: Seq<char>) -> Option<(Seq<char>, Seq<char>)> {
    let t = trimmed(line);
    if t.contains('=') {
        let i = choose|i: int| is_first_index(t, '=', i);
        Some((trimmed(t.subrange(0, i)), trimmed(t.subrange(i + 1, t.len() as int))))
    } else {
        None
    }
}

/// A blank line, or a comment introduced by `;` or `#`.
pub open spec fn is_inert(line: Seq<char>) -> bool {
    let t = trimmed(line);
    t.len() == 0 || t[0] == ';' || t[0] == '#'
}

/// The setting that a line holds: its key, and its value without quotes.
pub open spec fn setting_of(line: Seq<char>) -> Option<(Seq<char>, Seq<char>)> {
    if is_inert(line) {
        None
    } else {
        match key_value(line) {
            Some((k, v)) => Some((k, unquoted(v))),
            None => None,
        }
    }
}

/// The header line `[name]`.
pub open spec fn header_line(name: Seq<char>) -> Seq<char> {
    seq!['['] + name + seq![']']
}

/// A line that opens the section `name`.
pub open spec fn is_header_for(line: Seq<char>, name: Seq<char>) -> bool {
    trimmed(line) == header_line(name)
}

/// A line that opens some section.
pub open spec fn looks_like_header(line: Seq<char>) -> bool {
    let t = trimmed(line);
    t.len() > 0 && t[0] == '[' && t.last() == ']'
}

pub proof fn lemma_first_index_unique(s: Seq<char>, c: char, i: int, j: int)
    requires
        is_first_index(s, c, i),
        is_first_index(s, c, j),
    ensures
        i == j,
{
}

fn is_stripped(c: char, quotes: bool) -> (r: bool)
    ensures
        r == strip_pred(quotes, c),
{
    if quotes {
        c == '"'
    } else {
        let v = c as u32;
        (9 <= v && v <= 13) || v == 32 || v == 0x85 || v == 0xA0 || v == 0x1680 || (0x2000 <= v
            && v <= 0x200A) || v == 0x2028 || v == 0x2029 || v == 0x202F || v == 0x205F || v
            == 0x3000
    }
}

fn strip<'a>(s: &'a str, quotes: bool) -> (r: &'a str)
    ensures
        r@ == strip_end(strip_start(s@, quotes), quotes),
{
    let n = s.unicode_len();
    let mut i: usize = 0;
    assert(s@.subrange(0, n as int) =~= s@);
    loop
        invariant
            i <= n,
            n == s@.len(),
            strip_start(s@, quotes) == strip_start(s@.subrange(i as int, n as int), quotes),
        ensures
            i <= n,
            strip_start(s@, quotes) == strip_start(s@.subrange(i as int, n as int), quotes),
            i == n || !strip_pred(quotes, s@[i as int]),
        decreases n - i,
    {
        if i == n {
            break;
        }
        let c = s.get_char(i);
        let b = is_stripped(c, quotes);
        if !b {
            break;
        }
        proof {
            let t = s@.subrange(i as int, n as int);
            assert(t.drop_first() =~= s@.subrange(i + 1, n as int));
            assert(strip_pred(quotes, t[0]));
            assert(strip_start(t, quotes) == strip_start(t.drop_first(), quotes));
        }
        i = i + 1;
    }
    proof {
        let t = s@.subrange(i as int, n as int);
        assert(strip_start(t, quotes) == t);
    }
    let mut j: usize = n;
    loop
        invariant
            i <= j <= n,
            n == s@.len(),
            strip_start(s@, quotes) == s@.subrange(i as int, n as int),
            strip_end(s@.subrange(i as int, n as int), quotes) == strip_end(
                s@.subrange(i as int, j as int),
                quotes,
            ),
        ensures
            i <= j <= n,
            strip_start(s@, quotes) == s@.subrange(i as int, n as int),
            strip_end(s@.subrange(i as int, n as int), quotes) == strip_end(
                s@.subrange(i as int, j as int),
                quotes,
            ),
            j == i || !strip_pred(quotes, s@[j - 1]),
        decreases j,
    {
        if j == i || !is_stripped(s.get_char(j - 1), quotes) {
            break;
        }
        proof {
            let t = s@.subrange(i as int, j as int);
            assert(t.drop_last() =~= s@.subrange(i as int, j - 1));
            assert(strip_pred(quotes, t.last()));
            assert(strip_end(t, quotes) == strip_end(t.drop_last(), quotes));
        }
        j = j - 1;
    }
    proof {
        let t = s@.subrange(i as int, j as int);
        assert(strip_end(t, quotes) == t);
    }
    s.substring_char(i, j)
}

/// The text without leading and trailing whitespace.
pub fn trim_text(s: &str) -> (r: &str)
    ensures
        r@ == trimmed(s@),
{
    strip(s, false)
}

/// The text without leading and trailing double quotes.
pub fn trim_quotes(s: &str) -> (r: &str)
    ensures
        r@ == unquoted(s@),
{
    strip(s, true)
}

/// Whether two texts hold the same characters.
pub fn same_text(a: &str, b: &str) -> (r: bool)
    ensures
        r == (a@ == b@),
{
    let n = a.unicode_len();
    if n != b.unicode_len() {
        return false;
    }
    let mut i: usize = 0;
    while i < n
        invariant
            i <= n,
            n == a@.len(),
            n == b@.len(),
            forall|j: int| 0 <= j < i ==> a@[j] == b@[j],
        decreases n - i,
    {
        if a.get_char(i) != b.get_char(i) {
            return false;
        }
        i = i + 1;
    }
    assert(a@ =~= b@);
    true
}

/// Splits a line on its first `=` and trims both sides; `None` where it has no `=`.
pub fn parse_key_value(line: &str) -> (r: Option<(&str, &str)>)
    ensures
        match r {
            Some((k, v)) => key_value(line@) == Some((k@, v@)),
            None => key_value(line@) is None,
        },
{
    let t = trim_text(line);
    let n = t.unicode_len();
    let mut i: usize = 0;
    loop
        invariant
            i <= n,
            n == t@.len(),
            forall|j: int| 0 <= j < i ==> t@[j] != '=',
        ensures
            i <= n,
            forall|j: int| 0 <= j < i ==> t@[j] != '=',
            i == n || t@[i as int] == '=',
        decreases n - i,
    {
        if i == n || t.get_char(i) == '=' {
            break;
        }
        i = i + 1;
    }
    if i == n {
        assert(!t@.contains('='));
        return None;
    }
    proof {
        assert(is_first_index(t@, '=', i as int));
        let c = choose|c: int| is_first_index(t@, '=', c);
        lemma_first_index_unique(t@, '=', i as int, c);
    }
    let k = trim_text(t.substring_char(0, i));
    let v = trim_text(t.substring_char(i + 1, n));
    Some((k, v))
}

/// Whether a line is blank or a comment.
pub fn is_inert_line(line: &str) -> (r: bool)
    ensures
        r == is_inert(line@),
{
    let t = trim_text(line);
    if t.unicode_len() == 0 {
        return true;
    }
    let c = t.get_char(0);
    c == ';' || c == '#'
}

/// Whether a line, trimmed, is bracketed as a section header.
pub fn is_header_line(line: &str) -> (r: bool)
    ensures
        r == looks_like_header(line@),
{
    let t = trim_text(line);
    let n = t.unicode_len();
    if n == 0 {
        return false;
    }
    t.get_char(0) == '[' && t.get_char(n - 1) == ']'
}

} // verus!
