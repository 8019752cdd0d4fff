//! Naming schemes: turning tag maps and `{...}` templates into sanitised
//! relative paths for tracks, logs, CUE sheets and cover images.
use vstd::prelude::*;

use crate::tags::{compare_chars, lex_lt, TagMap};
use crate::text::{
    all_digits, chars_of, find_char_from, find_char_in, is_digit, is_space, parse_i64,
    parse_i64_chars, push_char, push_chars, repeat, rfind_char, rfind_char_in, string_of,
    strings_view, text_result,
};
use crate::{is_whitespace_char, SanitizeMethod};

verus! {

/// What naming needs to know about the rip besides the tags.
#[derive(Debug, Clone)]
pub struct NamingContext {
    pub sanitize_method: SanitizeMethod,
    pub nb_tracks: usize,
}

/// The directory separator of the platforms the ripper runs on.
pub const PATH_SEPARATOR: char = '/';

// ---------------------------------------------------------------------------
// Key completion for `-a` / `-t` arguments
// ---------------------------------------------------------------------------

/// `s` with `k` inserted before position `at`.
pub open spec fn insert_at(s: Seq<char>, at: int, k: Seq<char>) -> Seq<char> {
    s.take(at) + k + s.skip(at)
}

/// The positions at which the first and the second `:`-separated entry of
/// `s` start when that entry is non-empty and has no unescaped `=`; `\`
/// escapes the character after it, and only the first two entries count.
/// The scan state is the number of separators seen, whether the current
/// entry has a key, whether the previous character was `\`, where the
/// current entry starts, and the two positions found so far.
pub open spec fn key_slots(
    s: Seq<char>,
    i: int,
    count: nat,
    has_key: bool,
    esc: bool,
    start: int,
    o1: Option<int>,
    o2: Option<int>,
) -> (Option<int>, Option<int>)
    decreases s.len() - i,
{
    if i < 0 || i >= s.len() || count >= 2 {
        if count < 2 && !has_key && s.len() > start {
            if count == 0 {
                (Some(start), o2)
            } else {
                (o1, Some(start))
            }
        } else {
            (o1, o2)
        }
    } else if esc {
        key_slots(s, i + 1, count, has_key, false, start, o1, o2)
    } else if s[i] == '\\' {
        key_slots(s, i + 1, count, has_key, true, start, o1, o2)
    } else if s[i] == '=' {
        key_slots(s, i + 1, count, true, false, start, o1, o2)
    } else if s[i] == ':' {
        let n1 = if !has_key && i > start && count == 0 { Some(start) } else { o1 };
        let n2 = if !has_key && i > start && count == 1 { Some(start) } else { o2 };
        key_slots(s, i + 1, count + 1, false, false, i + 1, n1, n2)
    } else {
        key_slots(s, i + 1, count, has_key, false, start, o1, o2)
    }
}

/// `s` with `key1` put in front of its first entry and `key2` in front of
/// its second one, each only where that entry names no key.
pub open spec fn with_missing_keys(s: Seq<char>, key1: Seq<char>, key2: Seq<char>) -> Seq<char> {
    let (o1, o2) = key_slots(s, 0, 0, false, false, 0, None, None);
    let s1 = match o1 {
        Some(a) => insert_at(s, a, key1),
        None => s,
    };
    let o2b = match (o1, o2) {
        (Some(a), Some(b)) => if b >= a { Some(b + key1.len()) } else { Some(b) },
        _ => o2,
    };
    match o2b {
        Some(b) => insert_at(s1, b, key2),
        None => s1,
    }
}

fn insert_chars(v: &Vec<char>, at: usize, k: &[char]) -> (r: Vec<char>)
    requires
        at <= v@.len(),
    ensures
        r@ == insert_at(v@, at as int, k@),
{
    let mut out: Vec<char> = Vec::new();
    let mut i: usize = 0;
    while i < at
        invariant
            i <= at <= v@.len(),
            out@ == v@.take(i as int),
        decreases at - i,
    {
        out.push(v[i]);
        assert(v@.take(i + 1) == v@.take(i as int).push(v@[i as int]));
        i += 1;
    }
    let mut j: usize = 0;
    while j < k.len()
        invariant
            j <= k@.len(),
            out@ == v@.take(at as int) + k@.take(j as int),
        decreases k.len() - j,
    {
        out.push(k[j]);
        assert(k@.take(j + 1) == k@.take(j as int).push(k@[j as int]));
        j += 1;
    }
    assert(k@.take(k@.len() as int) == k@);
    let mut m: usize = at;
    while m < v.len()
        invariant
            at <= m <= v@.len(),
            out@ == v@.take(at as int) + k@ + v@.subrange(at as int, m as int),
        decreases v.len() - m,
    {
        out.push(v[m]);
        assert(v@.subrange(at as int, m + 1) == v@.subrange(at as int, m as int).push(v@[m as int]));
        m += 1;
    }
    assert(v@.subrange(at as int, v@.len() as int) == v@.skip(at as int));
    out
}

pub open spec fn opt_int(o: Option<usize>) -> Option<int> {
    match o {
        Some(a) => Some(a as int),
        None => None,
    }
}

fn string_from_chars(v: &Vec<char>) -> (s: String)
    ensures
        s@ == v@,
{
    let s = string_of(v.as_slice(), 0, v.len());
    assert(v@.subrange(0, v@.len() as int) == v@);
    s
}

/// Puts `key1` in front of the first `:`-separated entry of `src` and `key2`
/// in front of the second one, where that entry is non-empty and names no
/// key of its own (has no unescaped `=`).
pub fn append_missing_keys(src: &str, key1: &str, key2: &str) -> (r: String)
    ensures
        r@ == with_missing_keys(src@, key1@, key2@),
{
    let s = chars_of(src);
    let k1 = chars_of(key1);
    let k2 = chars_of(key2);
    let n = s.len();
    let mut count: usize = 0;
    let mut has_key = false;
    let mut esc = false;
    let mut start: usize = 0;
    let mut o1: Option<usize> = None;
    let mut o2: Option<usize> = None;
    let mut i: usize = 0;
    while i < n && count < 2
        invariant
            n == s@.len(),
            s@ == src@,
            start <= i <= n,
            count <= 2,
            o1 matches Some(a) ==> a <= start,
            o2 matches Some(b) ==> b <= start,
            o1 matches Some(a) ==> (o2 matches Some(b) ==> a <= b),
            count == 0 ==> o2 is None,
            key_slots(s@, 0, 0, false, false, 0, None, None) == key_slots(
                s@,
                i as int,
                count as nat,
                has_key,
                esc,
                start as int,
                opt_int(o1),
                opt_int(o2),
            ),
        decreases n - i,
    {
        let c = s[i];
        if esc {
            esc = false;
        } else if c == '\\' {
            esc = true;
        } else if c == '=' {
            has_key = true;
        } else if c == ':' {
            if !has_key && i > start {
                if count == 0 {
                    o1 = Some(start);
                } else {
                    o2 = Some(start);
                }
            }
            count += 1;
            start = i + 1;
            has_key = false;
        }
        i += 1;
    }
    if count < 2 && !has_key && n > start {
        if count == 0 {
            o1 = Some(start);
        } else {
            o2 = Some(start);
        }
    }
    assert(key_slots(s@, 0, 0, false, false, 0, None, None) == (opt_int(o1), opt_int(o2)));
    let s1 = match o1 {
        Some(a) => insert_chars(&s, a, k1.as_slice()),
        None => s.clone(),
    };
    assert(s1@.len() == n + (if o1 is Some { k1@.len() } else { 0 }));
    let o2b = match (o1, o2) {
        (Some(a), Some(b)) => Some(b + k1.len()),
        _ => o2,
    };
    let s2 = match o2b {
        Some(b) => insert_chars(&s1, b, k2.as_slice()),
        None => s1,
    };
    string_from_chars(&s2)
}

// ---------------------------------------------------------------------------
// Integers and sanitising
// ---------------------------------------------------------------------------

/// A non-empty run of ASCII digits.
pub open spec fn is_integer_text(s: Seq<char>) -> bool {
    s.len() > 0 && all_digits(s)
}

pub fn is_integer(src: &str) -> (r: bool)
    ensures
        r == is_integer_text(src@),
{
    let s = chars_of(src);
    if s.len() == 0 {
        return false;
    }
    let mut i: usize = 0;
    while i < s.len()
        invariant
            s@ == src@,
            i <= s@.len(),
            forall|j: int| 0 <= j < i ==> is_digit(s@[j]),
        decreases s.len() - i,
    {
        if !('0' <= s[i] && s[i] <= '9') {
            assert(!is_digit(src@[i as int]));
            return false;
        }
        i += 1;
    }
    true
}

pub open spec fn keeps_os_safe_chars(m: SanitizeMethod) -> bool {
    m == SanitizeMethod::OsSimple || m == SanitizeMethod::OsUnicode
}

pub open spec fn uses_unicode(m: SanitizeMethod) -> bool {
    m == SanitizeMethod::Unicode || m == SanitizeMethod::OsUnicode
}

/// For a character that file names should avoid: its plain replacement, its
/// look-alike Unicode replacement, and whether the local file system accepts
/// the character itself. A `"` opens or closes a quotation.
pub open spec fn replacement(c: char, closing_quote: bool) -> Option<(char, char, bool)> {
    if c == '<' {
        Some(('_', '\u{2039}', true))
    } else if c == '>' {
        Some(('_', '\u{203A}', true))
    } else if c == ':' {
        Some(('_', '\u{2236}', true))
    } else if c == '|' {
        Some(('_', '\u{2502}', true))
    } else if c == '?' {
        Some(('_', '\u{FF1F}', true))
    } else if c == '*' {
        Some(('_', '\u{2217}', true))
    } else if c == '/' {
        Some(('_', '\u{2215}', false))
    } else if c == '\\' {
        Some(('_', '\u{29F9}', true))
    } else if c == '"' {
        if closing_quote {
            Some(('\'', '\u{201D}', true))
        } else {
            Some(('\'', '\u{201C}', true))
        }
    } else {
        None
    }
}

/// What one character becomes; `sanitize_slash` says whether the directory
/// separator is replaced too.
pub open spec fn sanitized_char(
    m: SanitizeMethod,
    c: char,
    closing_quote: bool,
    sanitize_slash: bool,
) -> char {
    match replacement(c, closing_quote) {
        None => c,
        Some((to, to_u, local)) => if (keeps_os_safe_chars(m) && local) || (c == PATH_SEPARATOR
            && !sanitize_slash) {
            c
        } else if uses_unicode(m) {
            to_u
        } else {
            to
        },
    }
}

/// The number of `"` in `s`.
pub open spec fn quote_count(s: Seq<char>) -> nat
    decreases s.len(),
{
    if s.len() == 0 {
        0
    } else {
        quote_count(s.drop_last()) + if s.last() == '"' {
            1nat
        } else {
            0nat
        }
    }
}

/// `s` with each character replaced as `sanitized_char` says; a `"` closes
/// a quotation when an odd number of `"` come before it.
pub open spec fn sanitized(m: SanitizeMethod, s: Seq<char>, sanitize_slash: bool) -> Seq<char>
    decreases s.len(),
{
    if s.len() == 0 {
        Seq::empty()
    } else {
        let p = s.drop_last();
        sanitized(m, p, sanitize_slash).push(
            sanitized_char(m, s.last(), quote_count(p) % 2 == 1, sanitize_slash),
        )
    }
}

fn sanitize_char(m: SanitizeMethod, c: char, closing_quote: bool, sanitize_slash: bool) -> (r:
    char)
    ensures
        r == sanitized_char(m, c, closing_quote, sanitize_slash),
{
    let local = c != '/';
    let is_special = c == '<' || c == '>' || c == ':' || c == '|' || c == '?' || c == '*' || c
        == '/' || c == '\\' || c == '"';
    if !is_special {
        return c;
    }
    let os = match m {
        SanitizeMethod::OsSimple | SanitizeMethod::OsUnicode => true,
        _ => false,
    };
    if (os && local) || (c == PATH_SEPARATOR && !sanitize_slash) {
        return c;
    }
    let unicode = match m {
        SanitizeMethod::Unicode | SanitizeMethod::OsUnicode => true,
        _ => false,
    };
    if !unicode {
        if c == '"' {
            '\''
        } else {
            '_'
        }
    } else if c == '<' {
        '\u{2039}'
    } else if c == '>' {
        '\u{203A}'
    } else if c == ':' {
        '\u{2236}'
    } else if c == '|' {
        '\u{2502}'
    } else if c == '?' {
        '\u{FF1F}'
    } else if c == '*' {
        '\u{2217}'
    } else if c == '/' {
        '\u{2215}'
    } else if c == '\\' {
        '\u{29F9}'
    } else if closing_quote {
        '\u{201D}'
    } else {
        '\u{201C}'
    }
}

/// Appends the sanitised form of `v[lo..hi]` to `out`.
fn push_sanitized(
    out: &mut String,
    m: SanitizeMethod,
    v: &[char],
    lo: usize,
    hi: usize,
    sanitize_slash: bool,
)
    requires
        lo <= hi <= v@.len(),
    ensures
        final(out)@ == old(out)@ + sanitized(m, v@.subrange(lo as int, hi as int), sanitize_slash),
{
    let mut i = lo;
    let mut closing = false;
    assert(v@.subrange(lo as int, lo as int) =~= Seq::<char>::empty());
    assert(old(out)@ + Seq::<char>::empty() =~= old(out)@);
    while i < hi
        invariant
            lo <= i <= hi <= v@.len(),
            out@ == old(out)@ + sanitized(m, v@.subrange(lo as int, i as int), sanitize_slash),
            closing == (quote_count(v@.subrange(lo as int, i as int)) % 2 == 1),
        decreases hi - i,
    {
        let c = v[i];
        let r = sanitize_char(m, c, closing, sanitize_slash);
        push_char(out, r);
        let ghost pre = v@.subrange(lo as int, i as int);
        let ghost nxt = v@.subrange(lo as int, i + 1);
        assert(nxt.drop_last() == pre);
        assert(nxt.last() == c);
        if c == '"' {
            closing = !closing;
        }
        i += 1;
    }
}

/// Replaces the characters that file names should avoid, as the sanitising
/// method says; the directory separator is replaced only when
/// `sanitize_fwdslash` holds.
pub fn sanitize_text(ctx: &NamingContext, input: &str, sanitize_fwdslash: bool) -> (r: String)
    ensures
        r@ == sanitized(ctx.sanitize_method, input@, sanitize_fwdslash),
{
    let v = chars_of(input);
    let mut out = String::new();
    push_sanitized(&mut out, ctx.sanitize_method, v.as_slice(), 0, v.len(), sanitize_fwdslash);
    assert(v@.subrange(0, v@.len() as int) == v@);
    out
}


// ---------------------------------------------------------------------------
// Tag values and conditions
// ---------------------------------------------------------------------------

/// Index of the first `a` or `b` in `s` at or after `from`, or `s.len()`.
pub open spec fn first_of_two(s: Seq<char>, a: char, b: char, from: int) -> int
    decreases s.len() - from,
{
    if from < 0 || from >= s.len() {
        s.len() as int
    } else if s[from] == a || s[from] == b {
        from
    } else {
        first_of_two(s, a, b, from + 1)
    }
}

/// How many zeros a numeric track tag gets so that it is as wide as the
/// largest track number of the disc.
pub open spec fn track_pad(len: nat, nb_tracks: usize) -> nat {
    let p1: nat = if len < 2 && nb_tracks > 9 { 1 } else { 0 };
    p1 + if len + p1 < 3 && nb_tracks > 99 { 1nat } else { 0nat }
}

/// What a scheme key stands for: `year` is the part of the `date` tag before
/// the first `:` or `-`, `format` the output format's suffix, `track` the
/// track tag zero-padded when numeric, anything else the tag of that name.
pub open spec fn tag_value(nb_tracks: usize, meta: TagMap, fmt: Seq<char>, key: Seq<char>) -> Option<
    Seq<char>,
> {
    if key == "year"@ {
        match meta.get_spec("date"@) {
            Some(d) => Some(d.take(first_of_two(d, ':', '-', 0))),
            None => None,
        }
    } else if key == "format"@ {
        Some(fmt)
    } else if key == "track"@ {
        match meta.get_spec("track"@) {
            Some(t) => if is_integer_text(t) {
                Some(repeat('0', track_pad(t.len(), nb_tracks)) + t)
            } else {
                Some(t)
            },
            None => None,
        }
    } else {
        meta.get_spec(key)
    }
}

pub open spec fn opt_string_view(o: Option<String>) -> Option<Seq<char>> {
    match o {
        Some(s) => Some(s@),
        None => None,
    }
}

pub fn slice_chars(v: &[char], lo: usize, hi: usize) -> (r: Vec<char>)
    requires
        lo <= hi <= v@.len(),
    ensures
        r@ == v@.subrange(lo as int, hi as int),
{
    let mut out: Vec<char> = Vec::new();
    let mut i = lo;
    while i < hi
        invariant
            lo <= i <= hi <= v@.len(),
            out@ == v@.subrange(lo as int, i as int),
        decreases hi - i,
    {
        out.push(v[i]);
        assert(v@.subrange(lo as int, i + 1) == v@.subrange(lo as int, i as int).push(v@[i as int]));
        i += 1;
    }
    out
}

fn get_tag_value(ctx: &NamingContext, meta: &TagMap, output_format: &str, key: &[char]) -> (r:
    Option<String>)
    ensures
        opt_string_view(r) == tag_value(ctx.nb_tracks, *meta, output_format@, key@),
{
    let year = chars_of("year");
    let format = chars_of("format");
    let track = chars_of("track");
    if compare_chars(key, year.as_slice()) == 0 {
        match meta.get("date") {
            Some(d) => {
                let dc = chars_of(d.as_str());
                let mut i: usize = 0;
                while i < dc.len() && dc[i] != ':' && dc[i] != '-'
                    invariant
                        i <= dc@.len(),
                        first_of_two(dc@, ':', '-', 0) == first_of_two(dc@, ':', '-', i as int),
                    decreases dc.len() - i,
                {
                    i += 1;
                }
                Some(string_of(dc.as_slice(), 0, i))
            },
            None => None,
        }
    } else if compare_chars(key, format.as_slice()) == 0 {
        Some(crate::text::copy_str(output_format))
    } else if compare_chars(key, track.as_slice()) == 0 {
        match meta.get("track") {
            Some(t) => {
                if is_integer(t.as_str()) {
                    let digits = chars_of(t.as_str()).len();
                    let mut pad: usize = 0;
                    if digits + pad < 2 && ctx.nb_tracks > 9 {
                        pad += 1;
                    }
                    if digits + pad < 3 && ctx.nb_tracks > 99 {
                        pad += 1;
                    }
                    let mut out = String::new();
                    crate::text::push_repeat(&mut out, '0', pad);
                    out.append(t.as_str());
                    Some(out)
                } else {
                    Some(crate::text::copy_str(t.as_str()))
                }
            },
            None => None,
        }
    } else {
        let k = string_of(key, 0, key.len());
        assert(key@.subrange(0, key@.len() as int) == key@);
        match meta.get(k.as_str()) {
            Some(v) => Some(crate::text::copy_str(v.as_str())),
            None => None,
        }
    }
}

/// The value of a numeric operand (`0` when it does not fit an `i64`).
pub open spec fn int_or_zero(s: Seq<char>) -> int {
    match parse_i64(s) {
        Some(v) => v as int,
        None => 0,
    }
}

/// The outcome of `val1 op val2`: `==`/`!=` compare text; `>`/`<` compare
/// numbers when both sides are integers and text when neither is, and
/// otherwise compare the integer side's value with 1 for a tag that is not
/// a number and 0 for literal text.
pub open spec fn cond_holds(
    v1: Seq<char>,
    op: Seq<char>,
    v2: Seq<char>,
    v1_from_tag: bool,
    v2_from_tag: bool,
) -> Result<bool, Seq<char>> {
    if op == "=="@ {
        Ok(v1 == v2)
    } else if op == "!="@ {
        Ok(v1 != v2)
    } else if op == ">"@ || op == "<"@ {
        let gt = op == ">"@;
        let i1 = is_integer_text(v1);
        let i2 = is_integer_text(v2);
        if i1 && i2 {
            let a = int_or_zero(v1);
            let b = int_or_zero(v2);
            Ok(if gt { a > b } else { a < b })
        } else if !i1 && !i2 {
            Ok(if gt { lex_lt(v2, v1) } else { lex_lt(v1, v2) })
        } else {
            let a = if i1 { int_or_zero(v1) } else if v1_from_tag { 1 } else { 0 };
            let b = if i2 { int_or_zero(v2) } else if v2_from_tag { 1 } else { 0 };
            Ok(if gt { a > b } else { a < b })
        }
    } else {
        Err("Invalid condition syntax!"@)
    }
}

fn int_value(s: &[char]) -> (r: i64)
    ensures
        r == int_or_zero(s@),
{
    match parse_i64_chars(s) {
        Some(v) => v,
        None => 0,
    }
}

fn eval_cond(
    val1: &[char],
    op: &[char],
    val2: &[char],
    val1_from_tag: bool,
    val2_from_tag: bool,
) -> (r: Result<bool, String>)
    ensures
        crate::text::msg_view(r) == cond_holds(val1@, op@, val2@, val1_from_tag, val2_from_tag),
{
    let eq = chars_of("==");
    let ne = chars_of("!=");
    let gt_op = chars_of(">");
    let lt_op = chars_of("<");
    if compare_chars(op, eq.as_slice()) == 0 {
        Ok(compare_chars(val1, val2) == 0)
    } else if compare_chars(op, ne.as_slice()) == 0 {
        Ok(compare_chars(val1, val2) != 0)
    } else if compare_chars(op, gt_op.as_slice()) == 0 || compare_chars(op, lt_op.as_slice()) == 0 {
        let gt = compare_chars(op, gt_op.as_slice()) == 0;
        let s1 = string_of(val1, 0, val1.len());
        let s2 = string_of(val2, 0, val2.len());
        assert(val1@.subrange(0, val1@.len() as int) == val1@);
        assert(val2@.subrange(0, val2@.len() as int) == val2@);
        let v1i = is_integer(s1.as_str());
        let v2i = is_integer(s2.as_str());
        if v1i && v2i {
            let a = int_value(val1);
            let b = int_value(val2);
            Ok(if gt { a > b } else { a < b })
        } else if !v1i && !v2i {
            let c = compare_chars(val1, val2);
            Ok(if gt { c > 0 } else { c < 0 })
        } else {
            let a: i64 = if v1i { int_value(val1) } else if val1_from_tag { 1 } else { 0 };
            let b: i64 = if v2i { int_value(val2) } else if val2_from_tag { 1 } else { 0 };
            Ok(if gt { a > b } else { a < b })
        }
    } else {
        Err(String::from_str("Invalid condition syntax!"))
    }
}


// ---------------------------------------------------------------------------
// Scheme rendering
// ---------------------------------------------------------------------------

/// `s` without leading white space.
pub open spec fn trim_start(s: Seq<char>) -> Seq<char>
    decreases s.len(),
{
    if s.len() > 0 && is_space(s[0]) {
        trim_start(s.drop_first())
    } else {
        s
    }
}

/// `s` without trailing white space.
pub open spec fn trim_end(s: Seq<char>) -> Seq<char>
    decreases s.len(),
{
    if s.len() > 0 && is_space(s.last()) {
        trim_end(s.drop_last())
    } else {
        s
    }
}

/// `str::trim`.
pub open spec fn trim(s: Seq<char>) -> Seq<char> {
    trim_end(trim_start(s))
}

/// The bounds of `t[lo..hi]` without surrounding white space.
pub fn trim_bounds_pub(t: &[char], lo: usize, hi: usize) -> (r: (usize, usize))
    requires
        lo <= hi <= t@.len(),
    ensures
        lo <= r.0 <= r.1 <= hi,
        t@.subrange(r.0 as int, r.1 as int) == trim(t@.subrange(lo as int, hi as int)),
{
    trim_bounds(t, lo, hi)
}

fn trim_bounds(t: &[char], lo: usize, hi: usize) -> (r: (usize, usize))
    requires
        lo <= hi <= t@.len(),
    ensures
        lo <= r.0 <= r.1 <= hi,
        t@.subrange(r.0 as int, r.1 as int) == trim(t@.subrange(lo as int, hi as int)),
{
    let mut a = lo;
    while a < hi && is_whitespace_char(t[a])
        invariant
            lo <= a <= hi <= t@.len(),
            trim_start(t@.subrange(lo as int, hi as int)) == trim_start(
                t@.subrange(a as int, hi as int),
            ),
        decreases hi - a,
    {
        assert(t@.subrange(a as int, hi as int).drop_first() == t@.subrange(a + 1, hi as int));
        a += 1;
    }
    let mut b = hi;
    while b > a && is_whitespace_char(t[b - 1])
        invariant
            lo <= a <= b <= hi <= t@.len(),
            trim_end(t@.subrange(a as int, hi as int)) == trim_end(t@.subrange(a as int, b as int)),
        decreases b,
    {
        assert(t@.subrange(a as int, b as int).drop_last() == t@.subrange(a as int, b - 1));
        b -= 1;
    }
    (a, b)
}

pub open spec fn no_terminating_hash_msg() -> Seq<char> {
    "Invalid scheme syntax, no terminating \"#\"!"@
}

pub open spec fn unterminated_brace_msg() -> Seq<char> {
    "Invalid scheme syntax, unterminated \"{\"!"@
}

/// A token of the form `if #key1# op #key2# then`.
pub open spec fn is_cond_token(t: Seq<char>) -> bool {
    crate::text::starts_with(t, "if"@) && find_char_from(t, '#', 0) is Some
}

/// The `#`-separated fields of a condition token: the trimmed first key,
/// operator and second key, and the text rendered when the condition holds;
/// `None` when fewer than five fields are present.
pub open spec fn cond_fields(t: Seq<char>) -> Option<(Seq<char>, Seq<char>, Seq<char>, Seq<char>)> {
    let h1 = match find_char_from(t, '#', 0) {
        Some(i) => i,
        None => t.len() as int,
    };
    match find_char_from(t, '#', h1 + 1) {
        None => None,
        Some(h2) => match find_char_from(t, '#', h2 + 1) {
            None => None,
            Some(h3) => match find_char_from(t, '#', h3 + 1) {
                None => None,
                Some(h4) => {
                    let h5 = match find_char_from(t, '#', h4 + 1) {
                        Some(h) => h,
                        None => t.len() as int,
                    };
                    Some(
                        (
                            trim(t.subrange(h1 + 1, h2)),
                            trim(t.subrange(h2 + 1, h3)),
                            trim(t.subrange(h3 + 1, h4)),
                            t.subrange(h4 + 1, h5),
                        ),
                    )
                },
            },
        },
    }
}

/// A key's value, or the key itself as literal text, with whether it came
/// from a tag.
pub open spec fn value_or_literal(ctx: NamingContext, meta: TagMap, fmt: Seq<char>, key: Seq<char>) -> (
    Seq<char>,
    bool,
) {
    match tag_value(ctx.nb_tracks, meta, fmt, key) {
        Some(v) => (v, true),
        None => (key, false),
    }
}

/// A token as it appears in the output: sanitised, and a value taken from a
/// tag has its directory separators replaced too.
pub open spec fn rendered_token(ctx: NamingContext, meta: TagMap, fmt: Seq<char>, tok: Seq<char>) -> Seq<
    char,
> {
    let (v, from_tag) = value_or_literal(ctx, meta, fmt, tok);
    sanitized(ctx.sanitize_method, v, from_tag)
}

/// The `|`-separated parts of `t` from position `from` on, each rendered as a
/// token; empty parts are skipped.
pub open spec fn rendered_parts(
    ctx: NamingContext,
    meta: TagMap,
    fmt: Seq<char>,
    t: Seq<char>,
    from: int,
) -> Seq<char>
    decreases t.len() - from,
{
    if from < 0 || from > t.len() {
        Seq::empty()
    } else {
        let e = match find_char_from(t, '|', from) {
            Some(i) => i,
            None => t.len() as int,
        };
        proof {
            crate::lemma_find_char_from_bounds(t, '|', from);
        }
        let here = if e > from {
            rendered_token(ctx, meta, fmt, t.subrange(from, e))
        } else {
            Seq::empty()
        };
        if e < t.len() {
            here + rendered_parts(ctx, meta, fmt, t, e + 1)
        } else {
            here
        }
    }
}

/// What a condition token renders to.
pub open spec fn rendered_cond(ctx: NamingContext, meta: TagMap, fmt: Seq<char>, t: Seq<char>) -> Result<
    Seq<char>,
    Seq<char>,
> {
    match cond_fields(t) {
        None => Err(no_terminating_hash_msg()),
        Some((k1, op, k2, body)) => {
            let (v1, f1) = value_or_literal(ctx, meta, fmt, k1);
            let (v2, f2) = value_or_literal(ctx, meta, fmt, k2);
            match cond_holds(v1, op, v2, f1, f2) {
                Err(e) => Err(e),
                Ok(true) => Ok(rendered_parts(ctx, meta, fmt, body, 0)),
                Ok(false) => Ok(Seq::empty()),
            }
        },
    }
}

/// What a `{token}` renders to.
pub open spec fn rendered_piece(ctx: NamingContext, meta: TagMap, fmt: Seq<char>, tok: Seq<char>) -> Result<
    Seq<char>,
    Seq<char>,
> {
    if is_cond_token(tok) {
        rendered_cond(ctx, meta, fmt, tok)
    } else {
        Ok(rendered_token(ctx, meta, fmt, tok))
    }
}

/// A scheme rendered from position `pos` on: text outside braces is
/// sanitised as it stands, each `{token}` is replaced by what it renders to.
pub open spec fn rendered_from(
    ctx: NamingContext,
    meta: TagMap,
    fmt: Seq<char>,
    s: Seq<char>,
    pos: int,
) -> Result<Seq<char>, Seq<char>>
    decreases s.len() - pos,
{
    if pos < 0 || pos >= s.len() {
        Ok(Seq::empty())
    } else {
        match find_char_from(s, '{', pos) {
            None => Ok(sanitized(ctx.sanitize_method, s.subrange(pos, s.len() as int), false)),
            Some(o) => {
                let pre = sanitized(ctx.sanitize_method, s.subrange(pos, o), false);
                proof {
                    crate::lemma_find_char_from_bounds(s, '{', pos);
                    crate::lemma_find_char_from_bounds(s, '}', o + 1);
                }
                match find_char_from(s, '}', o + 1) {
                    None => Err(unterminated_brace_msg()),
                    Some(c) => {
                        match rendered_piece(ctx, meta, fmt, s.subrange(o + 1, c)) {
                            Err(e) => Err(e),
                            Ok(p) => match rendered_from(ctx, meta, fmt, s, c + 1) {
                                Err(e) => Err(e),
                                Ok(rest) => Ok(pre + p + rest),
                            },
                        }
                    },
                }
            },
        }
    }
}

/// `prefix` in front of a successful result.
pub open spec fn prepend(prefix: Seq<char>, r: Result<Seq<char>, Seq<char>>) -> Result<
    Seq<char>,
    Seq<char>,
> {
    match r {
        Ok(x) => Ok(prefix + x),
        Err(e) => Err(e),
    }
}

fn render_token(ctx: &NamingContext, meta: &TagMap, fmt: &str, tok: &[char], out: &mut String)
    ensures
        final(out)@ == old(out)@ + rendered_token(*ctx, *meta, fmt@, tok@),
{
    match get_tag_value(ctx, meta, fmt, tok) {
        Some(v) => {
            let vc = chars_of(v.as_str());
            push_sanitized(out, ctx.sanitize_method, vc.as_slice(), 0, vc.len(), true);
            assert(vc@.subrange(0, vc@.len() as int) == vc@);
        },
        None => {
            push_sanitized(out, ctx.sanitize_method, tok, 0, tok.len(), false);
            assert(tok@.subrange(0, tok@.len() as int) == tok@);
        },
    }
}

fn render_parts(ctx: &NamingContext, meta: &TagMap, fmt: &str, t: &[char], out: &mut String)
    ensures
        final(out)@ == old(out)@ + rendered_parts(*ctx, *meta, fmt@, t@, 0),
{
    let mut from: usize = 0;
    let mut done = false;
    assert(old(out)@ + Seq::<char>::empty() == old(out)@);
    while !done
        invariant
            from <= t@.len(),
            !done ==> old(out)@ + rendered_parts(*ctx, *meta, fmt@, t@, 0) == out@ + rendered_parts(
                *ctx,
                *meta,
                fmt@,
                t@,
                from as int,
            ),
            done ==> out@ == old(out)@ + rendered_parts(*ctx, *meta, fmt@, t@, 0),
        decreases t@.len() - from + if done { 0int } else { 1int },
    {
        let e = match find_char_in(t, '|', from) {
            Some(i) => i,
            None => t.len(),
        };
        proof {
            crate::lemma_find_char_from_bounds(t@, '|', from as int);
        }
        let ghost before = out@;
        if e > from {
            let part = slice_chars(t, from, e);
            render_token(ctx, meta, fmt, part.as_slice(), out);
        }
        if e < t.len() {
            assert(out@ + rendered_parts(*ctx, *meta, fmt@, t@, e + 1) =~= before + rendered_parts(
                *ctx,
                *meta,
                fmt@,
                t@,
                from as int,
            ));
            from = e + 1;
        } else {
            assert(out@ =~= before + rendered_parts(*ctx, *meta, fmt@, t@, from as int));
            done = true;
        }
    }
}

fn render_cond(ctx: &NamingContext, meta: &TagMap, fmt: &str, t: &[char]) -> (r: Result<
    String,
    String,
>)
    requires
        find_char_from(t@, '#', 0) is Some,
    ensures
        text_result(r) == rendered_cond(*ctx, *meta, fmt@, t@),
{
    let tl = t.len();
    let h1 = match find_char_in(t, '#', 0) {
        Some(i) => i,
        None => t.len(),
    };
    proof {
        crate::lemma_find_char_from_bounds(t@, '#', 0);
    }
    assert(h1 < t@.len());
    let h2 = match find_char_in(t, '#', h1 + 1) {
        Some(i) => i,
        None => {
            return Err(String::from_str("Invalid scheme syntax, no terminating \"#\"!"));
        },
    };
    proof {
        crate::lemma_find_char_from_bounds(t@, '#', h1 + 1);
    }
    assert(h2 < t@.len());
    let h3 = match find_char_in(t, '#', h2 + 1) {
        Some(i) => i,
        None => {
            return Err(String::from_str("Invalid scheme syntax, no terminating \"#\"!"));
        },
    };
    proof {
        crate::lemma_find_char_from_bounds(t@, '#', h2 + 1);
    }
    assert(h3 < t@.len());
    let h4 = match find_char_in(t, '#', h3 + 1) {
        Some(i) => i,
        None => {
            return Err(String::from_str("Invalid scheme syntax, no terminating \"#\"!"));
        },
    };
    proof {
        crate::lemma_find_char_from_bounds(t@, '#', h3 + 1);
        crate::lemma_find_char_from_bounds(t@, '#', h4 + 1);
    }
    let h5 = match find_char_in(t, '#', h4 + 1) {
        Some(i) => i,
        None => t.len(),
    };
    let (a1, b1) = trim_bounds(t, h1 + 1, h2);
    let (a2, b2) = trim_bounds(t, h2 + 1, h3);
    let (a3, b3) = trim_bounds(t, h3 + 1, h4);
    let k1 = slice_chars(t, a1, b1);
    let op = slice_chars(t, a2, b2);
    let k2 = slice_chars(t, a3, b3);
    let body = slice_chars(t, h4 + 1, h5);
    let (v1, f1) = match get_tag_value(ctx, meta, fmt, k1.as_slice()) {
        Some(v) => (chars_of(v.as_str()), true),
        None => (k1, false),
    };
    let (v2, f2) = match get_tag_value(ctx, meta, fmt, k2.as_slice()) {
        Some(v) => (chars_of(v.as_str()), true),
        None => (k2, false),
    };
    match eval_cond(v1.as_slice(), op.as_slice(), v2.as_slice(), f1, f2) {
        Err(e) => Err(e),
        Ok(holds) => {
            let mut out = String::new();
            if holds {
                render_parts(ctx, meta, fmt, body.as_slice(), &mut out);
            }
            Ok(out)
        },
    }
}

proof fn lemma_rendered_tail(ctx: NamingContext, meta: TagMap, fmt: Seq<char>, s: Seq<char>, pos: int)
    requires
        0 <= pos < s.len(),
        find_char_from(s, '{', pos) is None,
    ensures
        rendered_from(ctx, meta, fmt, s, pos) == Ok::<Seq<char>, Seq<char>>(
            sanitized(ctx.sanitize_method, s.subrange(pos, s.len() as int), false),
        ),
        rendered_from(ctx, meta, fmt, s, s.len() as int) == Ok::<Seq<char>, Seq<char>>(
            Seq::empty(),
        ),
{
}

proof fn lemma_rendered_unterminated(
    ctx: NamingContext,
    meta: TagMap,
    fmt: Seq<char>,
    s: Seq<char>,
    pos: int,
    o: int,
)
    requires
        0 <= pos < s.len(),
        find_char_from(s, '{', pos) == Some(o),
        find_char_from(s, '}', o + 1) is None,
    ensures
        rendered_from(ctx, meta, fmt, s, pos) == Err::<Seq<char>, Seq<char>>(unterminated_brace_msg()),
{
}

proof fn lemma_rendered_step(
    ctx: NamingContext,
    meta: TagMap,
    fmt: Seq<char>,
    s: Seq<char>,
    pos: int,
    o: int,
    c: int,
)
    requires
        0 <= pos < s.len(),
        find_char_from(s, '{', pos) == Some(o),
        find_char_from(s, '}', o + 1) == Some(c),
    ensures
        rendered_from(ctx, meta, fmt, s, pos) == match rendered_piece(
            ctx,
            meta,
            fmt,
            s.subrange(o + 1, c),
        ) {
            Err(e) => Err(e),
            Ok(p) => prepend(
                sanitized(ctx.sanitize_method, s.subrange(pos, o), false) + p,
                rendered_from(ctx, meta, fmt, s, c + 1),
            ),
        },
{
    crate::lemma_find_char_from_bounds(s, '{', pos);
    crate::lemma_find_char_from_bounds(s, '}', o + 1);
    let pre = sanitized(ctx.sanitize_method, s.subrange(pos, o), false);
    match rendered_piece(ctx, meta, fmt, s.subrange(o + 1, c)) {
        Err(e) => {},
        Ok(p) => match rendered_from(ctx, meta, fmt, s, c + 1) {
            Err(e) => {},
            Ok(rest) => {
                assert(pre + p + rest == (pre + p) + rest);
            },
        },
    }
}

proof fn lemma_prepend_assoc(a: Seq<char>, b: Seq<char>, r: Result<Seq<char>, Seq<char>>)
    ensures
        prepend(a, prepend(b, r)) == prepend(a + b, r),
{
    match r {
        Ok(x) => {
            assert(a + (b + x) =~= (a + b) + x);
        },
        Err(_) => {},
    }
}

/// Renders a naming scheme: text outside braces is sanitised (directory
/// separators kept), and each `{key}` is replaced by the key's value or, when
/// no tag has that name, by the key itself; `{if #a# op #b# x|key|y}` renders
/// its parts only when the condition holds.
pub fn render_scheme(ctx: &NamingContext, meta: &TagMap, output_format: &str, scheme: &str) -> (r:
    Result<String, String>)
    ensures
        text_result(r) == rendered_from(*ctx, *meta, output_format@, scheme@, 0),
{
    let s = chars_of(scheme);
    let n = s.len();
    let mut out = String::new();
    let mut pos: usize = 0;
    assert(Seq::<char>::empty() + Seq::<char>::empty() == Seq::<char>::empty());
    while pos < n
        invariant
            n == s@.len(),
            s@ == scheme@,
            pos <= n,
            rendered_from(*ctx, *meta, output_format@, s@, 0) == prepend(
                out@,
                rendered_from(*ctx, *meta, output_format@, s@, pos as int),
            ),
        decreases n - pos,
    {
        let ghost before = out@;
        match find_char_in(s.as_slice(), '{', pos) {
            None => {
                push_sanitized(&mut out, ctx.sanitize_method, s.as_slice(), pos, n, false);
                proof {
                    lemma_rendered_tail(*ctx, *meta, output_format@, s@, pos as int);
                    assert(out@ + Seq::<char>::empty() == out@);
                }
                pos = n;
            },
            Some(o) => {
                proof {
                    crate::lemma_find_char_from_bounds(s@, '{', pos as int);
                    crate::lemma_find_char_from_bounds(s@, '}', o + 1);
                }
                push_sanitized(&mut out, ctx.sanitize_method, s.as_slice(), pos, o, false);
                let c = match find_char_in(s.as_slice(), '}', o + 1) {
                    Some(c) => c,
                    None => {
                        proof {
                            lemma_rendered_unterminated(
                                *ctx,
                                *meta,
                                output_format@,
                                s@,
                                pos as int,
                                o as int,
                            );
                        }
                        return Err(String::from_str("Invalid scheme syntax, unterminated \"{\"!"));
                    },
                };
                proof {
                    lemma_rendered_step(*ctx, *meta, output_format@, s@, pos as int, o as int, c as int);
                }
                let tok = slice_chars(s.as_slice(), o + 1, c);
                let is_cond = crate::text::chars_starts_with(tok.as_slice(), &['i', 'f'])
                    && find_char_in(tok.as_slice(), '#', 0).is_some();
                proof {
                    reveal_strlit("if");
                    assert(seq!['i', 'f'] == "if"@);
                }
                assert(is_cond == is_cond_token(tok@));
                let ghost mid = out@;
                let mut piece = String::new();
                if is_cond {
                    match render_cond(ctx, meta, output_format, tok.as_slice()) {
                        Err(e) => {
                            return Err(e);
                        },
                        Ok(p) => {
                            piece = p;
                        },
                    }
                } else {
                    render_token(ctx, meta, output_format, tok.as_slice(), &mut piece);
                    assert(piece@ =~= rendered_token(*ctx, *meta, output_format@, tok@));
                }
                out.append(piece.as_str());
                proof {
                    lemma_prepend_assoc(
                        before,
                        sanitized(ctx.sanitize_method, s@.subrange(pos as int, o as int), false)
                            + piece@,
                        rendered_from(*ctx, *meta, output_format@, s@, c + 1),
                    );
                    assert(out@ =~= before + (sanitized(
                        ctx.sanitize_method,
                        s@.subrange(pos as int, o as int),
                        false,
                    ) + piece@));
                }
                pos = c + 1;
            },
        }
    }
    assert(out@ + Seq::<char>::empty() == out@);
    Ok(out)
}


// ---------------------------------------------------------------------------
// Paths
// ---------------------------------------------------------------------------

pub open spec fn is_blank(c: char) -> bool {
    c == ' ' || c == '\t'
}

/// `s` without leading spaces and tabs.
pub open spec fn trim_blank_start(s: Seq<char>) -> Seq<char>
    decreases s.len(),
{
    if s.len() > 0 && is_blank(s[0]) {
        trim_blank_start(s.drop_first())
    } else {
        s
    }
}

/// `s` without trailing spaces and tabs.
pub open spec fn trim_blank_end(s: Seq<char>) -> Seq<char>
    decreases s.len(),
{
    if s.len() > 0 && is_blank(s.last()) {
        trim_blank_end(s.drop_last())
    } else {
        s
    }
}

/// The `sep`-separated components of `p` from position `from` on, each
/// without surrounding spaces and tabs, joined by `sep` again.
pub open spec fn trimmed_components(p: Seq<char>, sep: char, from: int) -> Seq<char>
    decreases p.len() - from,
{
    if from < 0 || from > p.len() {
        Seq::empty()
    } else {
        let e = match find_char_from(p, sep, from) {
            Some(i) => i,
            None => p.len() as int,
        };
        proof {
            crate::lemma_find_char_from_bounds(p, sep, from);
        }
        let here = trim_blank_end(trim_blank_start(p.subrange(from, e)));
        if e < p.len() {
            here.push(sep) + trimmed_components(p, sep, e + 1)
        } else {
            here
        }
    }
}

/// `p` with blank-trimmed components and no blanks before the extension dot.
pub open spec fn trimmed_path(p: Seq<char>, sep: char) -> Seq<char> {
    let t = trimmed_components(p, sep, 0);
    match rfind_char(t, '.') {
        Some(d) => trim_blank_end(t.take(d)) + t.skip(d),
        None => t,
    }
}

/// The bounds of `t[lo..hi]` without surrounding spaces and tabs.
fn trim_blank_bounds(t: &[char], lo: usize, hi: usize) -> (r: (usize, usize))
    requires
        lo <= hi <= t@.len(),
    ensures
        lo <= r.0 <= r.1 <= hi,
        t@.subrange(r.0 as int, r.1 as int) == trim_blank_end(
            trim_blank_start(t@.subrange(lo as int, hi as int)),
        ),
{
    let mut a = lo;
    while a < hi && (t[a] == ' ' || t[a] == '\t')
        invariant
            lo <= a <= hi <= t@.len(),
            trim_blank_start(t@.subrange(lo as int, hi as int)) == trim_blank_start(
                t@.subrange(a as int, hi as int),
            ),
        decreases hi - a,
    {
        assert(t@.subrange(a as int, hi as int).drop_first() == t@.subrange(a + 1, hi as int));
        a += 1;
    }
    let mut b = hi;
    while b > a && (t[b - 1] == ' ' || t[b - 1] == '\t')
        invariant
            lo <= a <= b <= hi <= t@.len(),
            trim_blank_end(t@.subrange(a as int, hi as int)) == trim_blank_end(
                t@.subrange(a as int, b as int),
            ),
        decreases b,
    {
        assert(t@.subrange(a as int, b as int).drop_last() == t@.subrange(a as int, b - 1));
        b -= 1;
    }
    (a, b)
}

/// Trims spaces and tabs around every `separator`-separated component of
/// `path`, and before the last `.` (the extension).
pub fn trim_path_components(path: &str, separator: char) -> (r: String)
    ensures
        r@ == trimmed_path(path@, separator),
{
    let p = chars_of(path);
    let n = p.len();
    let mut out: Vec<char> = Vec::new();
    let mut from: usize = 0;
    let mut done = false;
    assert(Seq::<char>::empty() + trimmed_components(p@, separator, 0) == trimmed_components(
        p@,
        separator,
        0,
    ));
    while !done
        invariant
            n == p@.len(),
            from <= n,
            !done ==> trimmed_components(p@, separator, 0) == out@ + trimmed_components(
                p@,
                separator,
                from as int,
            ),
            done ==> trimmed_components(p@, separator, 0) == out@,
        decreases n - from + if done { 0int } else { 1int },
    {
        let e = match find_char_in(p.as_slice(), separator, from) {
            Some(i) => i,
            None => n,
        };
        proof {
            crate::lemma_find_char_from_bounds(p@, separator, from as int);
        }
        let ghost before = out@;
        let (a, b) = trim_blank_bounds(p.as_slice(), from, e);
        let mut k = a;
        while k < b
            invariant
                a <= k <= b <= p@.len(),
                out@ == before + p@.subrange(a as int, k as int),
            decreases b - k,
        {
            out.push(p[k]);
            assert(p@.subrange(a as int, k + 1) == p@.subrange(a as int, k as int).push(p@[k as int]));
            k += 1;
        }
        let ghost here = p@.subrange(a as int, b as int);
        if e < n {
            out.push(separator);
            assert(out@ + trimmed_components(p@, separator, e + 1) =~= before + (here.push(separator)
                + trimmed_components(p@, separator, e + 1)));
            from = e + 1;
        } else {
            done = true;
        }
    }
    let t = out;
    match rfind_char_in(t.as_slice(), '.') {
        Some(d) => {
            proof {
                crate::text::lemma_rfind_bounds(t@, '.', t@.len() as int);
            }
            let mut end = d;
            while end > 0 && (t[end - 1] == ' ' || t[end - 1] == '\t')
                invariant
                    end <= d < t@.len(),
                    trim_blank_end(t@.take(d as int)) == trim_blank_end(t@.take(end as int)),
                decreases end,
            {
                assert(t@.take(end as int).drop_last() == t@.take(end - 1));
                end -= 1;
            }
            let mut r = string_of(t.as_slice(), 0, end);
            push_chars(&mut r, t.as_slice(), d, t.len());
            assert(t@.subrange(0, end as int) == t@.take(end as int));
            assert(t@.subrange(d as int, t@.len() as int) == t@.skip(d as int));
            r
        },
        None => string_from_chars(&t),
    }
}

/// `folder/file.ext`.
pub open spec fn joined_path(folder: Seq<char>, file: Seq<char>, ext: Seq<char>) -> Seq<char> {
    folder + seq![PATH_SEPARATOR] + file + seq!['.'] + ext
}

/// A folder scheme and a file scheme rendered and joined into a trimmed path.
pub open spec fn scheme_path(
    ctx: NamingContext,
    folder_meta: TagMap,
    file_meta: TagMap,
    folder_scheme: Seq<char>,
    file_scheme: Seq<char>,
    fmt: Seq<char>,
    ext: Seq<char>,
) -> Result<Seq<char>, Seq<char>> {
    match rendered_from(ctx, folder_meta, fmt, folder_scheme, 0) {
        Err(e) => Err(e),
        Ok(folder) => match rendered_from(ctx, file_meta, fmt, file_scheme, 0) {
            Err(e) => Err(e),
            Ok(file) => Ok(trimmed_path(joined_path(folder, file, ext), PATH_SEPARATOR)),
        },
    }
}

fn build_scheme_path(
    ctx: &NamingContext,
    folder_meta: &TagMap,
    file_meta: &TagMap,
    folder_scheme: &str,
    file_scheme: &str,
    format_suffix: &str,
    extension: &str,
) -> (r: Result<String, String>)
    ensures
        text_result(r) == scheme_path(
            *ctx,
            *folder_meta,
            *file_meta,
            folder_scheme@,
            file_scheme@,
            format_suffix@,
            extension@,
        ),
{
    let folder = match render_scheme(ctx, folder_meta, format_suffix, folder_scheme) {
        Ok(f) => f,
        Err(e) => {
            return Err(e);
        },
    };
    let file = match render_scheme(ctx, file_meta, format_suffix, file_scheme) {
        Ok(f) => f,
        Err(e) => {
            return Err(e);
        },
    };
    let mut path = folder;
    push_char(&mut path, PATH_SEPARATOR);
    path.append(file.as_str());
    push_char(&mut path, '.');
    path.append(extension);
    assert(path@ =~= joined_path(folder@, file@, extension@));
    Ok(trim_path_components(path.as_str(), PATH_SEPARATOR))
}

/// `folder/file.extension` for a track, from the album's folder scheme and
/// the track's own file scheme.
pub fn build_track_relative_path(
    ctx: &NamingContext,
    album_meta: &TagMap,
    track_meta: &TagMap,
    folder_scheme: &str,
    track_scheme: &str,
    format_suffix: &str,
    extension: &str,
) -> (r: Result<String, String>)
    ensures
        text_result(r) == scheme_path(
            *ctx,
            *album_meta,
            *track_meta,
            folder_scheme@,
            track_scheme@,
            format_suffix@,
            extension@,
        ),
{
    build_scheme_path(
        ctx,
        album_meta,
        track_meta,
        folder_scheme,
        track_scheme,
        format_suffix,
        extension,
    )
}

/// `folder/file.log` for the rip log.
pub fn build_log_relative_path(
    ctx: &NamingContext,
    album_meta: &TagMap,
    folder_scheme: &str,
    log_scheme: &str,
    format_suffix: &str,
) -> (r: Result<String, String>)
    ensures
        text_result(r) == scheme_path(
            *ctx,
            *album_meta,
            *album_meta,
            folder_scheme@,
            log_scheme@,
            format_suffix@,
            "log"@,
        ),
{
    build_scheme_path(ctx, album_meta, album_meta, folder_scheme, log_scheme, format_suffix, "log")
}

/// `folder/file.cue` for the CUE sheet.
pub fn build_cue_relative_path(
    ctx: &NamingContext,
    album_meta: &TagMap,
    folder_scheme: &str,
    cue_scheme: &str,
    format_suffix: &str,
) -> (r: Result<String, String>)
    ensures
        text_result(r) == scheme_path(
            *ctx,
            *album_meta,
            *album_meta,
            folder_scheme@,
            cue_scheme@,
            format_suffix@,
            "cue"@,
        ),
{
    build_scheme_path(ctx, album_meta, album_meta, folder_scheme, cue_scheme, format_suffix, "cue")
}

/// `e` without leading dots.
pub open spec fn trim_dots_start(e: Seq<char>) -> Seq<char>
    decreases e.len(),
{
    if e.len() > 0 && e[0] == '.' {
        trim_dots_start(e.drop_first())
    } else {
        e
    }
}

/// The extension a cover file gets: the given one without leading dots,
/// or `bin` when that leaves nothing but white space.
pub open spec fn cover_extension(ext: Option<Seq<char>>) -> Seq<char> {
    match ext {
        Some(e) => {
            let t = trim_dots_start(e);
            if trim(t).len() == 0 {
                "bin"@
            } else {
                t
            }
        },
        None => "bin"@,
    }
}

pub open spec fn opt_str_view(o: Option<&str>) -> Option<Seq<char>> {
    match o {
        Some(s) => Some(s@),
        None => None,
    }
}

/// The path of a cover image: the rendered folder, then the sanitised title
/// with its extension.
pub open spec fn cover_path(
    ctx: NamingContext,
    album_meta: TagMap,
    folder_scheme: Seq<char>,
    fmt: Seq<char>,
    title: Seq<char>,
    ext: Option<Seq<char>>,
) -> Result<Seq<char>, Seq<char>> {
    match rendered_from(ctx, album_meta, fmt, folder_scheme, 0) {
        Err(e) => Err(e),
        Ok(folder) => Ok(
            trimmed_path(
                joined_path(folder, sanitized(ctx.sanitize_method, title, true), cover_extension(ext)),
                PATH_SEPARATOR,
            ),
        ),
    }
}

pub fn build_cover_relative_path(
    ctx: &NamingContext,
    album_meta: &TagMap,
    folder_scheme: &str,
    format_suffix: &str,
    title: &str,
    extension: Option<&str>,
) -> (r: Result<String, String>)
    ensures
        text_result(r) == cover_path(
            *ctx,
            *album_meta,
            folder_scheme@,
            format_suffix@,
            title@,
            opt_str_view(extension),
        ),
{
    let folder = match render_scheme(ctx, album_meta, format_suffix, folder_scheme) {
        Ok(f) => f,
        Err(e) => {
            return Err(e);
        },
    };
    let sanitized_title = sanitize_text(ctx, title, true);
    let mut ext: Vec<char> = chars_of("bin");
    if let Some(e) = extension {
        let ec = chars_of(e);
        let mut a: usize = 0;
        assert(ec@.skip(0) == ec@);
        while a < ec.len() && ec[a] == '.'
            invariant
                a <= ec@.len(),
                trim_dots_start(ec@) == trim_dots_start(ec@.skip(a as int)),
            decreases ec.len() - a,
        {
            assert(ec@.skip(a as int).drop_first() == ec@.skip(a + 1));
            a += 1;
        }
        let (x, y) = trim_bounds(ec.as_slice(), a, ec.len());
        assert(ec@.subrange(a as int, ec@.len() as int) == ec@.skip(a as int));
        if x < y {
            ext = slice_chars(ec.as_slice(), a, ec.len());
        }
    }
    assert(ext@ == cover_extension(opt_str_view(extension)));
    let mut path = folder;
    push_char(&mut path, PATH_SEPARATOR);
    path.append(sanitized_title.as_str());
    push_char(&mut path, '.');
    push_chars(&mut path, ext.as_slice(), 0, ext.len());
    assert(ext@.subrange(0, ext@.len() as int) == ext@);
    assert(path@ =~= joined_path(folder@, sanitized_title@, ext@));
    Ok(trim_path_components(path.as_str(), PATH_SEPARATOR))
}

// ---------------------------------------------------------------------------
// Collisions
// ---------------------------------------------------------------------------

/// Index of the first entry of `s` from `from` on whose path is `p`.
pub open spec fn first_with_path(s: Seq<(u32, Seq<char>)>, p: Seq<char>, from: int) -> Option<int>
    decreases s.len() - from,
{
    if from < 0 || from >= s.len() {
        None
    } else if s[from].1 == p {
        Some(from)
    } else {
        first_with_path(s, p, from + 1)
    }
}

/// For each entry whose path an earlier entry already has: the first such
/// entry's track, this entry's track, and the path.
pub open spec fn path_collisions(s: Seq<(u32, Seq<char>)>) -> Seq<(u32, u32, Seq<char>)>
    decreases s.len(),
{
    if s.len() == 0 {
        Seq::empty()
    } else {
        let pre = s.drop_last();
        let (t, p) = s.last();
        path_collisions(pre) + match first_with_path(pre, p, 0) {
            Some(i) => seq![(pre[i].0, t, p)],
            None => Seq::empty(),
        }
    }
}

pub open spec fn track_paths_view(v: Seq<(u32, String)>) -> Seq<(u32, Seq<char>)> {
    v.map_values(|e: (u32, String)| (e.0, e.1@))
}

pub open spec fn collisions_view(v: Seq<(u32, u32, String)>) -> Seq<(u32, u32, Seq<char>)> {
    v.map_values(|e: (u32, u32, String)| (e.0, e.1, e.2@))
}

/// Finds tracks whose output paths coincide with an earlier track's.
pub fn detect_track_path_collisions(entries: &[(u32, String)]) -> (r: Vec<(u32, u32, String)>)
    ensures
        collisions_view(r@) == path_collisions(track_paths_view(entries@)),
{
    let ghost sv = track_paths_view(entries@);
    let mut out: Vec<(u32, u32, String)> = Vec::new();
    let mut j: usize = 0;
    assert(sv.take(0) =~= Seq::<(u32, Seq<char>)>::empty());
    assert(collisions_view(out@) =~= Seq::<(u32, u32, Seq<char>)>::empty());
    while j < entries.len()
        invariant
            j <= entries@.len(),
            sv == track_paths_view(entries@),
            collisions_view(out@) == path_collisions(sv.take(j as int)),
        decreases entries.len() - j,
    {
        let pj = chars_of(entries[j].1.as_str());
        let ghost pre = sv.take(j as int);
        let mut i: usize = 0;
        let mut found: Option<usize> = None;
        while i < j && found.is_none()
            invariant
                i <= j < entries@.len(),
                sv == track_paths_view(entries@),
                pre == sv.take(j as int),
                pj@ == entries@[j as int].1@,
                found is None ==> first_with_path(pre, pj@, 0) == first_with_path(
                    pre,
                    pj@,
                    i as int,
                ),
                found matches Some(f) ==> first_with_path(pre, pj@, 0) == Some(f as int) && f < j,
            decreases j - i + if found is None { 1int } else { 0int },
        {
            let pi = chars_of(entries[i].1.as_str());
            assert(pre[i as int].1 == entries@[i as int].1@);
            if compare_chars(pi.as_slice(), pj.as_slice()) == 0 {
                found = Some(i);
            } else {
                i += 1;
            }
        }
        let ghost before = collisions_view(out@);
        assert(sv.take(j + 1).drop_last() == pre);
        assert(sv.take(j + 1).last() == (entries@[j as int].0, pj@));
        if let Some(f) = found {
            let item = (entries[f].0, entries[j].0, crate::text::copy_str(entries[j].1.as_str()));
            out.push(item);
            assert(pre[f as int].0 == entries@[f as int].0);
            assert(collisions_view(out@) =~= before.push((entries@[f as int].0, entries@[j as int].0, pj@)));
        } else {
            assert(collisions_view(out@) =~= before + Seq::<(u32, u32, Seq<char>)>::empty());
        }
        j += 1;
    }
    assert(sv.take(entries@.len() as int) == sv);
    out
}

} // verus!
