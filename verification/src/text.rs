//! Character-level helpers: string building, Unicode character classes,
//! trimming, and JSON string escaping.

use vstd::prelude::*;
use vstd::string::StringSliceAdditionalSpecFns;
use vstd::utf8::{decode_utf8, encode_utf8_decode_utf8, valid_utf8};

verus! {

/// Appends one character to a `String` (`String::push`).
#[verifier::external_body]
pub(crate) fn push_char(s: &mut String, c: char)
    ensures
        final(s)@ == old(s)@.push(c),
{
    s.push(c);
}

/// The characters of `s`, in order.
pub fn chars_of(s: &str) -> (r: Vec<char>)
    ensures
        r@ == s@,
{
    let mut out: Vec<char> = Vec::new();
    for c in it: s.chars()
        invariant
            out@ == it.seq().take(it.index() as int),
    {
        out.push(c);
    }
    out
}

/// Unicode `White_Space`: the characters `char::is_whitespace` accepts.
pub open spec fn is_whitespace_spec(c: char) -> bool {
    let u = c as u32;
    ||| 0x09 <= u <= 0x0d
    ||| u == 0x20
    ||| u == 0x85
    ||| u == 0xa0
    ||| u == 0x1680
    ||| 0x2000 <= u <= 0x200a
    ||| u == 0x2028
    ||| u == 0x2029
    ||| u == 0x202f
    ||| u == 0x205f
    ||| u == 0x3000
}

/// Whether `c` is Unicode white space (as `char::is_whitespace`).
pub fn is_whitespace(c: char) -> (r: bool)
    ensures
        r == is_whitespace_spec(c),
{
    let u = c as u32;
    (0x09 <= u && u <= 0x0d) || u == 0x20 || u == 0x85 || u == 0xa0 || u == 0x1680 || (0x2000
        <= u && u <= 0x200a) || u == 0x2028 || u == 0x2029 || u == 0x202f || u == 0x205f || u
        == 0x3000
}

/// `s` without its leading white space.
pub open spec fn trim_start(s: Seq<char>) -> Seq<char>
    decreases s.len(),
{
    if s.len() > 0 && is_whitespace_spec(s[0]) {
        trim_start(s.drop_first())
    } else {
        s
    }
}

/// `s` without its trailing white space.
pub open spec fn trim_end(s: Seq<char>) -> Seq<char>
    decreases s.len(),
{
    if s.len() > 0 && is_whitespace_spec(s.last()) {
        trim_end(s.drop_last())
    } else {
        s
    }
}

/// `s` without leading and trailing white space (as `str::trim`).
pub open spec fn trim(s: Seq<char>) -> Seq<char> {
    trim_end(trim_start(s))
}

proof fn lemma_trim_start_at(s: Seq<char>, lo: int)
    requires
        0 <= lo <= s.len(),
        forall|k: int| 0 <= k < lo ==> is_whitespace_spec(#[trigger] s[k]),
        lo == s.len() || !is_whitespace_spec(s[lo]),
    ensures
        trim_start(s) == s.subrange(lo, s.len() as int),
    decreases lo,
{
    if lo == 0 {
        assert(s.subrange(0, s.len() as int) =~= s);
    } else {
        let t = s.drop_first();
        assert forall|k: int| 0 <= k < lo - 1 implies is_whitespace_spec(#[trigger] t[k]) by {
            assert(t[k] == s[k + 1]);
        }
        if lo - 1 < t.len() {
            assert(t[lo - 1] == s[lo]);
        }
        lemma_trim_start_at(t, lo - 1);
        assert(t.subrange(lo - 1, t.len() as int) =~= s.subrange(lo, s.len() as int));
    }
}

proof fn lemma_trim_end_at(s: Seq<char>, hi: int)
    requires
        0 <= hi <= s.len(),
        forall|k: int| hi <= k < s.len() ==> is_whitespace_spec(#[trigger] s[k]),
        hi == 0 || !is_whitespace_spec(s[hi - 1]),
    ensures
        trim_end(s) == s.subrange(0, hi),
    decreases s.len() - hi,
{
    if hi == s.len() {
        assert(s.subrange(0, hi) =~= s);
    } else {
        let t = s.drop_last();
        assert forall|k: int| hi <= k < t.len() implies is_whitespace_spec(#[trigger] t[k]) by {
            assert(t[k] == s[k]);
        }
        if hi > 0 {
            assert(t[hi - 1] == s[hi - 1]);
        }
        lemma_trim_end_at(t, hi);
        assert(t.subrange(0, hi) =~= s.subrange(0, hi));
    }
}

/// The bounds `(lo, hi)` of `s[start..end]` with white space trimmed from both
/// ends: `s[lo..hi]` is the trimmed text.
pub fn trimmed_bounds(s: &Vec<char>, start: usize, end: usize) -> (r: (usize, usize))
    requires
        start <= end <= s.len(),
    ensures
        start <= r.0 <= r.1 <= end,
        s@.subrange(r.0 as int, r.1 as int) == trim(s@.subrange(start as int, end as int)),
{
    let mut lo = start;
    while lo < end && is_whitespace(s[lo])
        invariant
            start <= lo <= end <= s.len(),
            forall|k: int| start <= k < lo ==> is_whitespace_spec(#[trigger] s@[k]),
        decreases end - lo,
    {
        lo += 1;
    }
    let mut hi = end;
    while hi > lo && is_whitespace(s[hi - 1])
        invariant
            start <= lo <= hi <= end <= s.len(),
            forall|k: int| hi <= k < end ==> is_whitespace_spec(#[trigger] s@[k]),
        decreases hi - lo,
    {
        hi -= 1;
    }
    proof {
        let seg = s@.subrange(start as int, end as int);
        assert forall|k: int| 0 <= k < lo - start implies is_whitespace_spec(#[trigger] seg[k]) by {
            assert(seg[k] == s@[start + k]);
        }
        if lo < end {
            assert(seg[lo - start] == s@[lo as int]);
        }
        lemma_trim_start_at(seg, lo - start);
        let t = s@.subrange(lo as int, end as int);
        assert(seg.subrange(lo - start, seg.len() as int) =~= t);
        assert forall|k: int| hi - lo <= k < t.len() implies is_whitespace_spec(#[trigger] t[k]) by {
            assert(t[k] == s@[lo + k]);
        }
        if hi > lo {
            assert(t[hi - lo - 1] == s@[hi - 1]);
        }
        lemma_trim_end_at(t, hi - lo);
        assert(t.subrange(0, hi - lo) =~= s@.subrange(lo as int, hi as int));
    }
    (lo, hi)
}

/// The JSON string-body encoding of one character: `"` and `\` get a
/// backslash; the control characters below U+0020 get their short escape
/// (`\b`, `\t`, `\n`, `\f`, `\r`) or a `\u00XX` escape with lowercase hex
/// digits; everything else stands for itself.
pub open spec fn json_escape_char(c: char) -> Seq<char> {
    let u = c as u32;
    if c == '"' {
        seq!['\\', '"']
    } else if c == '\\' {
        seq!['\\', '\\']
    } else if u == 8 {
        seq!['\\', 'b']
    } else if u == 9 {
        seq!['\\', 't']
    } else if u == 10 {
        seq!['\\', 'n']
    } else if u == 12 {
        seq!['\\', 'f']
    } else if u == 13 {
        seq!['\\', 'r']
    } else if u < 0x20 {
        seq!['\\', 'u', '0', '0', hex_digit_spec((u / 16) as u8), hex_digit_spec((u % 16) as u8)]
    } else {
        seq![c]
    }
}

/// The JSON string-body encoding of `s`.
pub open spec fn json_escape(s: Seq<char>) -> Seq<char>
    decreases s.len(),
{
    if s.len() == 0 {
        Seq::empty()
    } else {
        json_escape(s.drop_last()) + json_escape_char(s.last())
    }
}

/// `s` as a JSON string literal: escaped and wrapped in double quotes.
pub open spec fn json_quote(s: Seq<char>) -> Seq<char> {
    seq!['"'] + json_escape(s) + seq!['"']
}

/// Appends the JSON string-body encoding of one character to `out`.
fn push_json_escaped(out: &mut String, c: char)
    ensures
        final(out)@ == old(out)@ + json_escape_char(c),
{
    let u = c as u32;
    if c == '"' || c == '\\' {
        push_char(out, '\\');
        push_char(out, c);
    } else if u == 8 {
        push_char(out, '\\');
        push_char(out, 'b');
    } else if u == 9 {
        push_char(out, '\\');
        push_char(out, 't');
    } else if u == 10 {
        push_char(out, '\\');
        push_char(out, 'n');
    } else if u == 12 {
        push_char(out, '\\');
        push_char(out, 'f');
    } else if u == 13 {
        push_char(out, '\\');
        push_char(out, 'r');
    } else if u < 0x20 {
        push_char(out, '\\');
        push_char(out, 'u');
        push_char(out, '0');
        push_char(out, '0');
        push_char(out, hex_digit((u / 16) as u8));
        push_char(out, hex_digit((u % 16) as u8));
    } else {
        push_char(out, c);
    }
    assert(out@ =~= old(out)@ + json_escape_char(c));
}

/// Appends `s[lo..hi]` to `out` as a JSON string literal.
pub fn push_json_string(out: &mut String, s: &Vec<char>, lo: usize, hi: usize)
    requires
        lo <= hi <= s.len(),
    ensures
        final(out)@ == old(out)@ + json_quote(s@.subrange(lo as int, hi as int)),
{
    push_char(out, '"');
    let mut j = lo;
    while j < hi
        invariant
            lo <= j <= hi <= s.len(),
            out@ == old(out)@ + seq!['"'] + json_escape(s@.subrange(lo as int, j as int)),
        decreases hi - j,
    {
        proof {
            assert(s@.subrange(lo as int, j + 1).drop_last() =~= s@.subrange(lo as int, j as int));
        }
        push_json_escaped(out, s[j]);
        j += 1;
    }
    push_char(out, '"');
}

/// Unicode general category `Cc`: the characters `char::is_control` accepts.
pub open spec fn is_control_spec(c: char) -> bool {
    let u = c as u32;
    u <= 0x1f || (0x7f <= u && u <= 0x9f)
}

/// A character that may stand in rendered text: not a control character,
/// except for the tab.
pub open spec fn is_printable(c: char) -> bool {
    !is_control_spec(c) || c == '\t'
}

/// Every character of `s` may stand in rendered text.
pub open spec fn all_printable(s: Seq<char>) -> bool {
    forall|i: int| 0 <= i < s.len() ==> is_printable(#[trigger] s[i])
}

/// The lowercase hexadecimal digit for `n < 16`.
pub open spec fn hex_digit_spec(n: u8) -> char {
    if n < 10 {
        ((48 + n) as u8) as char
    } else {
        ((87 + n) as u8) as char
    }
}

/// `bytes` as lowercase hexadecimal, two digits per byte.
pub open spec fn hex_lower(bytes: Seq<u8>) -> Seq<char>
    decreases bytes.len(),
{
    if bytes.len() == 0 {
        Seq::empty()
    } else {
        hex_lower(bytes.drop_last()) + seq![
            hex_digit_spec(bytes.last() / 16),
            hex_digit_spec(bytes.last() % 16),
        ]
    }
}

/// How matched bytes are shown: their text when they are well-formed UTF-8
/// whose characters are all printable, else their lowercase hex digits.
pub open spec fn render_spec(bytes: Seq<u8>) -> Seq<char> {
    if valid_utf8(bytes) && all_printable(decode_utf8(bytes)) {
        decode_utf8(bytes)
    } else {
        hex_lower(bytes)
    }
}

/// Whether `c` is printable in the sense of [`is_printable`].
pub fn printable(c: char) -> (r: bool)
    ensures
        r == is_printable(c),
{
    let u = c as u32;
    let control = u <= 0x1f || (0x7f <= u && u <= 0x9f);
    !control || c == '\t'
}

fn hex_digit(n: u8) -> (r: char)
    requires
        n < 16,
    ensures
        r == hex_digit_spec(n),
{
    if n < 10 {
        (48u8 + n) as char
    } else {
        (87u8 + n) as char
    }
}

/// `bytes` as a lowercase hex string, e.g. `[0xde, 0xad]` becomes `dead`.
pub fn to_hex_lower(bytes: &[u8]) -> (r: String)
    ensures
        r@ == hex_lower(bytes@),
        r@.len() == 2 * bytes@.len(),
{
    let mut out = String::new();
    let mut i: usize = 0;
    while i < bytes.len()
        invariant
            i <= bytes@.len(),
            out@ == hex_lower(bytes@.take(i as int)),
            out@.len() == 2 * i,
        decreases bytes.len() - i,
    {
        let b = bytes[i];
        proof {
            assert(bytes@.take(i + 1).drop_last() =~= bytes@.take(i as int));
            assert(bytes@.take(i + 1).last() == b);
        }
        push_char(&mut out, hex_digit(b / 16));
        push_char(&mut out, hex_digit(b % 16));
        i += 1;
    }
    proof {
        assert(bytes@.take(bytes@.len() as int) =~= bytes@);
    }
    out
}

/// The text that `bytes` encode, when they are well-formed UTF-8
/// (`std::str::from_utf8`, its error dropped). As std documents, the result is
/// `Some` exactly for well-formed UTF-8, and then holds those same bytes.
#[verifier::external_body]
fn utf8_text(bytes: &[u8]) -> (r: Option<&str>)
    ensures
        r is Some <==> valid_utf8(bytes@),
        r matches Some(s) ==> s.spec_bytes() == bytes@,
{
    std::str::from_utf8(bytes).ok()
}

/// Whether every character of `s` is printable.
pub fn all_chars_printable(s: &str) -> (r: bool)
    ensures
        r == all_printable(s@),
{
    let chars = chars_of(s);
    let mut i: usize = 0;
    while i < chars.len()
        invariant
            i <= chars@.len(),
            chars@ == s@,
            forall|k: int| 0 <= k < i ==> is_printable(#[trigger] chars@[k]),
        decreases chars.len() - i,
    {
        if !printable(chars[i]) {
            return false;
        }
        i += 1;
    }
    true
}

/// Renders matched bytes for SQL: the UTF-8 text if the bytes are valid,
/// printable UTF-8 (tabs allowed); otherwise a lowercase hex string such as
/// `deadbeef`.
pub fn render_matched(bytes: &[u8]) -> (r: String)
    ensures
        r@ == render_spec(bytes@),
{
    match utf8_text(bytes) {
        Some(s) => {
            proof {
                encode_utf8_decode_utf8(s@);
            }
            if all_chars_printable(s) {
                String::from_str(s)
            } else {
                to_hex_lower(bytes)
            }
        },
        None => to_hex_lower(bytes),
    }
}

proof fn lemma_hex_lower_printable(bytes: Seq<u8>)
    ensures
        all_printable(hex_lower(bytes)),
        hex_lower(bytes).len() == 2 * bytes.len(),
    decreases bytes.len(),
{
    if bytes.len() > 0 {
        lemma_hex_lower_printable(bytes.drop_last());
        let prev = hex_lower(bytes.drop_last());
        let hi = hex_digit_spec(bytes.last() / 16);
        let lo = hex_digit_spec(bytes.last() % 16);
        assert(is_printable(hi) && is_printable(lo));
        let h = hex_lower(bytes);
        assert(h == prev + seq![hi, lo]);
        assert forall|i: int| 0 <= i < h.len() implies is_printable(#[trigger] h[i]) by {
            if i < prev.len() {
                assert(h[i] == prev[i]);
            }
        }
    }
}

/// Rendered matched bytes never hold a control character other than the tab,
/// whatever the bytes: the text is printable or the hex digits are.
pub proof fn lemma_render_printable(bytes: Seq<u8>)
    ensures
        all_printable(render_spec(bytes)),
        !(valid_utf8(bytes) && all_printable(decode_utf8(bytes))) ==> render_spec(bytes).len() == 2
            * bytes.len(),
{
    lemma_hex_lower_printable(bytes);
}

} // verus!
