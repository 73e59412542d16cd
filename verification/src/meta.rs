//! Per-object discovery metadata: keyword lists encoded as JSON arrays, the
//! standard description tags, and the worker's version.

use vstd::prelude::*;
use crate::text::{
    chars_of, hex_digit_spec, json_escape, json_escape_char, json_quote, push_char,
    push_json_string, trim, trimmed_bounds,
};
use vstd::utf8::char_u32_cast;

verus! {

/// The pieces of `s` between commas, in order (as `str::split(',')`): there
/// is always at least one, and `k` commas give `k + 1` pieces.
pub open spec fn split_commas(s: Seq<char>) -> Seq<Seq<char>>
    decreases s.len(),
{
    if s.len() == 0 {
        seq![Seq::empty()]
    } else {
        let prev = split_commas(s.drop_last());
        if s.last() == ',' {
            prev.push(Seq::empty())
        } else {
            prev.drop_last().push(prev.last().push(s.last()))
        }
    }
}

/// The keywords among `parts`: each part trimmed, empty ones left out.
pub open spec fn keywords_of(parts: Seq<Seq<char>>) -> Seq<Seq<char>>
    decreases parts.len(),
{
    if parts.len() == 0 {
        Seq::empty()
    } else {
        let ks = keywords_of(parts.drop_last());
        let t = trim(parts.last());
        if t.len() == 0 {
            ks
        } else {
            ks.push(t)
        }
    }
}

/// The keywords of a comma-separated list.
pub open spec fn keyword_list(s: Seq<char>) -> Seq<Seq<char>> {
    keywords_of(split_commas(s))
}

/// The JSON string literals of `ks`, separated by commas.
pub open spec fn json_items(ks: Seq<Seq<char>>) -> Seq<char>
    decreases ks.len(),
{
    if ks.len() == 0 {
        Seq::empty()
    } else if ks.len() == 1 {
        json_quote(ks[0])
    } else {
        json_items(ks.drop_last()) + seq![','] + json_quote(ks.last())
    }
}

/// A JSON array of strings holding `ks`.
pub open spec fn json_string_array(ks: Seq<Seq<char>>) -> Seq<char> {
    seq!['['] + json_items(ks) + seq![']']
}

proof fn lemma_split_commas_nonempty(s: Seq<char>)
    ensures
        split_commas(s).len() >= 1,
    decreases s.len(),
{
    if s.len() > 0 {
        lemma_split_commas_nonempty(s.drop_last());
    }
}

/// Appends the keyword `s[start..end]` (trimmed) to the JSON items in `out`,
/// unless it is empty; `first` tracks whether no keyword was written yet.
fn emit_keyword(
    out: &mut String,
    first: &mut bool,
    s: &Vec<char>,
    start: usize,
    end: usize,
    Ghost(done): Ghost<Seq<Seq<char>>>,
)
    requires
        start <= end <= s.len(),
        old(out)@ == seq!['['] + json_items(keywords_of(done)),
        *old(first) == (keywords_of(done).len() == 0),
    ensures
        final(out)@ == seq!['['] + json_items(
            keywords_of(done.push(s@.subrange(start as int, end as int))),
        ),
        *final(first) == (keywords_of(done.push(s@.subrange(start as int, end as int))).len()
            == 0),
{
    let ghost seg = s@.subrange(start as int, end as int);
    proof {
        assert(done.push(seg).drop_last() =~= done);
        assert(done.push(seg).last() == seg);
    }
    let (lo, hi) = trimmed_bounds(s, start, end);
    if lo < hi {
        let ghost ks = keywords_of(done);
        let ghost t = s@.subrange(lo as int, hi as int);
        proof {
            assert(ks.push(t).drop_last() =~= ks);
            assert(ks.push(t).last() == t);
        }
        if !*first {
            push_char(out, ',');
        } else {
            proof {
                assert(ks.push(t) =~= seq![t]);
            }
        }
        push_json_string(out, s, lo, hi);
        *first = false;
    }
}

/// Encodes a comma-separated keyword list as a JSON array of strings, e.g.
/// `"a, b"` becomes `["a","b"]`: each keyword is trimmed, empty ones are left
/// out, and inside a keyword `"`, `\` and control characters are escaped
/// (as `\"`, `\\`, `\b`, `\t`, `\n`, `\f`, `\r`, or `\u00xx` in lowercase hex for
/// the other control characters below U+0020), so the result is always valid JSON.
pub fn keywords_json(comma_separated: &str) -> (r: String)
    ensures
        r@ == json_string_array(keyword_list(comma_separated@)),
{
    let chars = chars_of(comma_separated);
    let mut out = String::new();
    push_char(&mut out, '[');
    let mut first = true;
    let mut start: usize = 0;
    let mut i: usize = 0;
    let ghost mut done: Seq<Seq<char>> = Seq::empty();
    proof {
        assert(chars@.take(0) =~= Seq::<char>::empty());
        assert(chars@.subrange(0, 0) =~= Seq::<char>::empty());
        assert(split_commas(chars@.take(0)) =~= done.push(chars@.subrange(0, 0)));
        assert(out@ =~= seq!['['] + json_items(keywords_of(done)));
    }
    while i < chars.len()
        invariant
            start <= i <= chars.len(),
            split_commas(chars@.take(i as int)) == done.push(chars@.subrange(start as int, i as int)),
            out@ == seq!['['] + json_items(keywords_of(done)),
            first == (keywords_of(done).len() == 0),
        decreases chars.len() - i,
    {
        let ghost prefix = chars@.take(i + 1);
        proof {
            assert(prefix.drop_last() =~= chars@.take(i as int));
            assert(prefix.last() == chars@[i as int]);
        }
        if chars[i] == ',' {
            emit_keyword(&mut out, &mut first, &chars, start, i, Ghost(done));
            proof {
                done = done.push(chars@.subrange(start as int, i as int));
                assert(chars@.subrange(i + 1, i + 1) =~= Seq::<char>::empty());
            }
            start = i + 1;
        } else {
            proof {
                let prev = done.push(chars@.subrange(start as int, i as int));
                assert(prev.drop_last() =~= done);
                assert(prev.last().push(chars@[i as int]) =~= chars@.subrange(start as int, i + 1));
            }
        }
        i += 1;
    }
    proof {
        assert(chars@.take(chars.len() as int) =~= chars@);
    }
    emit_keyword(&mut out, &mut first, &chars, start, chars.len(), Ghost(done));
    push_char(&mut out, ']');
    out
}

/// A character JSON does not allow unescaped inside a string (U+0000 to U+001F).
pub open spec fn is_json_control(c: char) -> bool {
    (c as u32) < 0x20
}

/// The value of a hexadecimal digit (either case).
pub open spec fn hex_value(c: char) -> Option<u32> {
    let u = c as u32;
    if 48 <= u <= 57 {
        Some((u - 48) as u32)
    } else if 97 <= u <= 102 {
        Some((u - 87) as u32)
    } else if 65 <= u <= 70 {
        Some((u - 55) as u32)
    } else {
        None
    }
}

/// Reads the JSON escape at the start of `s` (which starts with a backslash):
/// the character it stands for and its length. `\uXXXX` is read for code
/// points outside the surrogate range only.
pub open spec fn parse_escape(s: Seq<char>) -> Option<(char, int)> {
    if s.len() < 2 {
        None
    } else if s[1] == '"' || s[1] == '\\' || s[1] == '/' {
        Some((s[1], 2))
    } else if s[1] == 'b' {
        Some((8u32 as char, 2))
    } else if s[1] == 't' {
        Some((9u32 as char, 2))
    } else if s[1] == 'n' {
        Some((10u32 as char, 2))
    } else if s[1] == 'f' {
        Some((12u32 as char, 2))
    } else if s[1] == 'r' {
        Some((13u32 as char, 2))
    } else if s[1] == 'u' && s.len() >= 6 {
        match (hex_value(s[2]), hex_value(s[3]), hex_value(s[4]), hex_value(s[5])) {
            (Some(a), Some(b), Some(c), Some(d)) => {
                let v = a * 4096 + b * 256 + c * 16 + d;
                if 0xD800 <= v <= 0xDFFF {
                    None
                } else {
                    Some(((v as u32) as char, 6))
                }
            },
            _ => None,
        }
    } else {
        None
    }
}

/// Reads the body of a JSON string literal up to its closing quote: the text
/// it stands for, and what follows the quote. `None` when there is no closing
/// quote, an unescaped control character, or an escape that is not JSON (or a
/// `\u` surrogate).
pub open spec fn parse_string_body(s: Seq<char>) -> Option<(Seq<char>, Seq<char>)>
    decreases s.len(),
{
    if s.len() == 0 {
        None
    } else if s[0] == '"' {
        Some((Seq::empty(), s.drop_first()))
    } else if s[0] == '\\' {
        match parse_escape(s) {
            Some((c, n)) => if 1 <= n <= s.len() {
                match parse_string_body(s.skip(n)) {
                    Some((v, rest)) => Some((seq![c] + v, rest)),
                    None => None,
                }
            } else {
                None
            },
            None => None,
        }
    } else if is_json_control(s[0]) {
        None
    } else {
        match parse_string_body(s.drop_first()) {
            Some((v, rest)) => Some((seq![s[0]] + v, rest)),
            None => None,
        }
    }
}

/// Reads `,"…"` items up to the closing `]` that ends the input.
pub open spec fn parse_more_items(s: Seq<char>) -> Option<Seq<Seq<char>>>
    decreases s.len(),
{
    if s == seq![']'] {
        Some(Seq::empty())
    } else if s.len() >= 2 && s[0] == ',' && s[1] == '"' {
        match parse_string_body(s.skip(2)) {
            Some((v, rest)) => if rest.len() < s.len() {
                match parse_more_items(rest) {
                    Some(vs) => Some(seq![v] + vs),
                    None => None,
                }
            } else {
                None
            },
            None => None,
        }
    } else {
        None
    }
}

/// Reads a whole JSON array of strings, written without white space between
/// its tokens: the strings it holds, or `None` if `s` is not such an array.
pub open spec fn parse_string_array(s: Seq<char>) -> Option<Seq<Seq<char>>> {
    if s.len() >= 2 && s[0] == '[' {
        let t = s.drop_first();
        if t == seq![']'] {
            Some(Seq::empty())
        } else if t[0] == '"' {
            match parse_string_body(t.drop_first()) {
                Some((v, rest)) => match parse_more_items(rest) {
                    Some(vs) => Some(seq![v] + vs),
                    None => None,
                },
                None => None,
            }
        } else {
            None
        }
    } else {
        None
    }
}

/// The items after the first: `,` and a string literal each.
pub open spec fn json_tail(ks: Seq<Seq<char>>) -> Seq<char>
    decreases ks.len(),
{
    if ks.len() == 0 {
        Seq::empty()
    } else {
        json_tail(ks.drop_last()) + seq![','] + json_quote(ks.last())
    }
}

proof fn lemma_json_escape_concat(a: Seq<char>, b: Seq<char>)
    ensures
        json_escape(a + b) == json_escape(a) + json_escape(b),
    decreases b.len(),
{
    if b.len() == 0 {
        assert(a + b =~= a);
        assert(json_escape(a) + json_escape(b) =~= json_escape(a));
    } else {
        lemma_json_escape_concat(a, b.drop_last());
        assert((a + b).drop_last() =~= a + b.drop_last());
        assert((a + b).last() == b.last());
        assert(json_escape(a + b) =~= json_escape(a) + json_escape(b));
    }
}

proof fn lemma_hex_value_digit(n: u8)
    requires
        n < 16,
    ensures
        hex_value(hex_digit_spec(n)) == Some(n as u32),
{
    let d = hex_digit_spec(n);
    if n < 10 {
        assert(d as u32 == 48 + n) by {
            char_u32_cast(d, (48 + n) as u32);
        }
    } else {
        assert(d as u32 == 87 + n) by {
            char_u32_cast(d, (87 + n) as u32);
        }
    }
}

proof fn lemma_parse_escaped_char(c: char, rest: Seq<char>)
    requires
        c == '"' || c == '\\' || is_json_control(c),
    ensures
        parse_escape(json_escape_char(c) + rest) == Some((c, json_escape_char(c).len() as int)),
        2 <= json_escape_char(c).len(),
        (json_escape_char(c) + rest)[0] == '\\',
{
    let u = c as u32;
    let e = json_escape_char(c);
    let s = e + rest;
    char_u32_cast(c, u);
    if c == '"' || c == '\\' {
        assert(s[1] == c);
    } else if u == 8 || u == 9 || u == 10 || u == 12 || u == 13 {
        assert(s[0] == '\\');
    } else {
        let hi = (u / 16) as u8;
        let lo = (u % 16) as u8;
        lemma_hex_value_digit(0);
        lemma_hex_value_digit(hi);
        lemma_hex_value_digit(lo);
        assert(hex_digit_spec(0) == '0');
        assert(s[2] == '0' && s[3] == '0' && s[4] == hex_digit_spec(hi) && s[5] == hex_digit_spec(lo));
        assert((u / 16) * 16 + u % 16 == u) by (nonlinear_arith);
        assert(0 * 4096 + 0 * 256 + (hi as u32) * 16 + (lo as u32) == u);
    }
}

proof fn lemma_parse_string_body(k: Seq<char>, rest: Seq<char>)
    ensures
        parse_string_body(json_escape(k) + seq!['"'] + rest) == Some((k, rest)),
    decreases k.len(),
{
    let s = json_escape(k) + seq!['"'] + rest;
    if k.len() == 0 {
        assert(json_escape(k) =~= Seq::<char>::empty());
        assert(s =~= seq!['"'] + rest);
        assert(s.drop_first() =~= rest);
    } else {
        let c = k[0];
        let k2 = k.drop_first();
        assert(k =~= seq![c] + k2);
        lemma_json_escape_concat(seq![c], k2);
        assert(json_escape(seq![c]) =~= json_escape_char(c)) by {
            assert(seq![c].drop_last() =~= Seq::<char>::empty());
            assert(seq![c].last() == c);
            assert(json_escape(Seq::<char>::empty()) =~= Seq::<char>::empty());
            assert(json_escape(seq![c]) == json_escape(seq![c].drop_last()) + json_escape_char(c));
        }
        lemma_parse_string_body(k2, rest);
        let tail = json_escape(k2) + seq!['"'] + rest;
        let e = json_escape_char(c);
        assert(s =~= e + tail);
        if c == '"' || c == '\\' || is_json_control(c) {
            lemma_parse_escaped_char(c, tail);
            assert(s.skip(e.len() as int) =~= tail);
        } else {
            assert(e == seq![c]);
            assert(s =~= seq![c] + tail);
            assert(s.drop_first() =~= tail);
        }
        assert(seq![c] + k2 =~= k);
    }
}

proof fn lemma_json_tail_first(ks: Seq<Seq<char>>)
    requires
        ks.len() >= 1,
    ensures
        json_tail(ks) == seq![','] + json_quote(ks[0]) + json_tail(ks.drop_first()),
    decreases ks.len(),
{
    if ks.len() == 1 {
        assert(ks.drop_last() =~= Seq::<Seq<char>>::empty());
        assert(ks.drop_first() =~= Seq::<Seq<char>>::empty());
        assert(json_tail(ks) =~= seq![','] + json_quote(ks[0]) + json_tail(ks.drop_first()));
    } else {
        lemma_json_tail_first(ks.drop_last());
        assert(ks.drop_last().drop_first() =~= ks.drop_first().drop_last());
        assert(ks.drop_first().last() == ks.last());
        assert(ks.drop_last()[0] == ks[0]);
        assert(json_tail(ks) =~= seq![','] + json_quote(ks[0]) + json_tail(ks.drop_first()));
    }
}

proof fn lemma_json_items_first(ks: Seq<Seq<char>>)
    requires
        ks.len() >= 1,
    ensures
        json_items(ks) == json_quote(ks[0]) + json_tail(ks.drop_first()),
    decreases ks.len(),
{
    if ks.len() == 1 {
        assert(ks.drop_first() =~= Seq::<Seq<char>>::empty());
        assert(json_items(ks) =~= json_quote(ks[0]) + json_tail(ks.drop_first()));
    } else {
        lemma_json_items_first(ks.drop_last());
        assert(ks.drop_last().drop_first() =~= ks.drop_first().drop_last());
        assert(ks.drop_first().last() == ks.last());
        assert(ks.drop_last()[0] == ks[0]);
        assert(json_items(ks) =~= json_quote(ks[0]) + json_tail(ks.drop_first()));
    }
}

proof fn lemma_parse_more_items(ks: Seq<Seq<char>>)
    ensures
        parse_more_items(json_tail(ks) + seq![']']) == Some(ks),
    decreases ks.len(),
{
    let s = json_tail(ks) + seq![']'];
    if ks.len() == 0 {
        assert(s =~= seq![']']);
    } else {
        let k = ks[0];
        let rest_ks = ks.drop_first();
        lemma_json_tail_first(ks);
        lemma_parse_more_items(rest_ks);
        let after = json_tail(rest_ks) + seq![']'];
        lemma_parse_string_body(k, after);
        assert(s =~= seq![',', '"'] + (json_escape(k) + seq!['"'] + after));
        assert(s.skip(2) =~= json_escape(k) + seq!['"'] + after);
        assert(s != seq![']']) by {
            assert(s[0] == ',');
        }
        assert(seq![k] + rest_ks =~= ks);
    }
}

/// Reading back a JSON array of strings built from `ks` gives `ks`: the
/// encoding is always a well-formed JSON array of strings.
pub proof fn lemma_json_string_array_round_trip(ks: Seq<Seq<char>>)
    ensures
        parse_string_array(json_string_array(ks)) == Some(ks),
{
    let s = json_string_array(ks);
    let t = s.drop_first();
    assert(t =~= json_items(ks) + seq![']']);
    if ks.len() == 0 {
        assert(t =~= seq![']']);
    } else {
        let k = ks[0];
        let rest_ks = ks.drop_first();
        lemma_json_items_first(ks);
        lemma_parse_more_items(rest_ks);
        let after = json_tail(rest_ks) + seq![']'];
        lemma_parse_string_body(k, after);
        assert(t =~= seq!['"'] + (json_escape(k) + seq!['"'] + after));
        assert(t.drop_first() =~= json_escape(k) + seq!['"'] + after);
        assert(t != seq![']']) by {
            assert(t[0] == '"');
        }
        assert(seq![k] + rest_ks =~= ks);
    }
}

/// The keyword list that [`keywords_json`] writes reads back, as a JSON array
/// of strings, as exactly the trimmed non-empty keywords, whatever the input:
/// quotes, backslashes and control characters inside a keyword are escaped.
pub proof fn lemma_keywords_json_round_trip(s: Seq<char>)
    ensures
        parse_string_array(json_string_array(keyword_list(s))) == Some(keyword_list(s)),
{
    lemma_json_string_array_round_trip(keyword_list(s));
}

/// Builds one `(key, value)` tag.
fn tag(key: &str, value: &str) -> (r: (String, String))
    ensures
        r.0@ == key@,
        r.1@ == value@,
{
    (String::from_str(key), String::from_str(value))
}

/// The standard per-object discovery and description tags: title, LLM prose,
/// Markdown prose, keywords (as a JSON array of strings) and category.
pub fn object_tags(
    title: &str,
    description_llm: &str,
    description_md: &str,
    keywords: &str,
    category: &str,
) -> (r: Vec<(String, String)>)
    ensures
        r.len() == 5,
        r[0].0@ == "vgi.title"@ && r[0].1@ == title@,
        r[1].0@ == "vgi.doc_llm"@ && r[1].1@ == description_llm@,
        r[2].0@ == "vgi.doc_md"@ && r[2].1@ == description_md@,
        r[3].0@ == "vgi.keywords"@ && r[3].1@ == json_string_array(keyword_list(keywords@)),
        r[4].0@ == "vgi.category"@ && r[4].1@ == category@,
{
    let mut tags: Vec<(String, String)> = Vec::new();
    tags.push(tag("vgi.title", title));
    tags.push(tag("vgi.doc_llm", description_llm));
    tags.push(tag("vgi.doc_md", description_md));
    tags.push((String::from_str("vgi.keywords"), keywords_json(keywords)));
    tags.push(tag("vgi.category", category));
    tags
}

/// Worker version string.
pub fn version() -> (r: &'static str)
    ensures
        r@ == "0.1.0"@,
{
    "0.1.0"
}

} // verus!
