//! JSON framing for the two remote calls.
//!
//! The indexer sends the embedding request and the record upload as JSON it
//! frames itself, and reads the embedding response as a JSON array of
//! numbers. Numbers are carried as their unparsed decimal tokens, so a
//! response travels to the upload body without loss.

use crate::strutil::{append_str, chars_of, string_of, vec_range};
use vstd::prelude::*;

verus! {

/// An ASCII decimal digit.
pub open spec fn is_digit(c: char) -> bool {
    let u: u32 = c as u32;
    0x30 <= u && u <= 0x39
}

/// The white space JSON admits between tokens.
pub open spec fn is_json_ws(c: char) -> bool {
    c == ' ' || c == '\t' || c == '\n' || c == '\r'
}

/// A character that can occur inside a JSON number token.
pub open spec fn is_num_char(c: char) -> bool {
    is_digit(c) || c == '-' || c == '+' || c == '.' || c == 'e' || c == 'E'
}

/// The first position at or after `i` that holds no decimal digit.
pub open spec fn digits_end(s: Seq<char>, i: int) -> int
    decreases s.len() - i,
{
    if 0 <= i < s.len() && is_digit(s[i]) {
        digits_end(s, i + 1)
    } else {
        i
    }
}

/// The first position at or after `i` that holds no JSON white space.
pub open spec fn ws_end(s: Seq<char>, i: int) -> int
    decreases s.len() - i,
{
    if 0 <= i < s.len() && is_json_ws(s[i]) {
        ws_end(s, i + 1)
    } else {
        i
    }
}

/// The first position at or after `i` that holds no number character.
pub open spec fn num_end(s: Seq<char>, i: int) -> int
    decreases s.len() - i,
{
    if 0 <= i < s.len() && is_num_char(s[i]) {
        num_end(s, i + 1)
    } else {
        i
    }
}

/// The three scanners stay between their start and the end of the text.
pub proof fn lemma_scan_bounds(s: Seq<char>, i: int)
    requires
        0 <= i <= s.len(),
    ensures
        i <= digits_end(s, i) <= s.len(),
        i <= ws_end(s, i) <= s.len(),
        i <= num_end(s, i) <= s.len(),
    decreases s.len() - i,
{
    if i < s.len() {
        lemma_scan_bounds(s, i + 1);
    }
}

/// Holds when `t` is a complete JSON number token: an optional minus sign,
/// an integer part with no leading zero, then an optional fraction and an
/// optional exponent, with nothing after them.
pub open spec fn is_json_number(t: Seq<char>) -> bool {
    let i: int = if t.len() > 0 && t[0] == '-' {
        1
    } else {
        0
    };
    let d: int = digits_end(t, i);
    let has_frac: bool = d < t.len() && t[d] == '.';
    let f: int = if has_frac {
        digits_end(t, d + 1)
    } else {
        d
    };
    let has_exp: bool = f < t.len() && (t[f] == 'e' || t[f] == 'E');
    let x: int = if has_exp {
        if f + 1 < t.len() && (t[f + 1] == '+' || t[f + 1] == '-') {
            f + 2
        } else {
            f + 1
        }
    } else {
        f
    };
    let g: int = digits_end(t, x);
    &&& d > i
    &&& (t[i] != '0' || d == i + 1)
    &&& (has_frac ==> f > d + 1)
    &&& (has_exp ==> g > x && g == t.len())
    &&& (!has_exp ==> f == t.len())
}

fn is_digit_char(c: char) -> (r: bool)
    ensures
        r == is_digit(c),
{
    let u: u32 = c as u32;
    0x30 <= u && u <= 0x39
}

fn is_json_ws_char(c: char) -> (r: bool)
    ensures
        r == is_json_ws(c),
{
    c == ' ' || c == '\t' || c == '\n' || c == '\r'
}

fn is_num_char_exec(c: char) -> (r: bool)
    ensures
        r == is_num_char(c),
{
    is_digit_char(c) || c == '-' || c == '+' || c == '.' || c == 'e' || c == 'E'
}

fn digits_end_exec(v: &Vec<char>, from: usize) -> (r: usize)
    requires
        from <= v@.len(),
    ensures
        r as int == digits_end(v@, from as int),
        from <= r <= v@.len(),
{
    let mut j: usize = from;
    while j < v.len() && is_digit_char(v[j])
        invariant
            from <= j <= v@.len(),
            digits_end(v@, j as int) == digits_end(v@, from as int),
        decreases v@.len() - j,
    {
        j += 1;
    }
    j
}

fn ws_end_exec(v: &Vec<char>, from: usize) -> (r: usize)
    requires
        from <= v@.len(),
    ensures
        r as int == ws_end(v@, from as int),
        from <= r <= v@.len(),
{
    let mut j: usize = from;
    while j < v.len() && is_json_ws_char(v[j])
        invariant
            from <= j <= v@.len(),
            ws_end(v@, j as int) == ws_end(v@, from as int),
        decreases v@.len() - j,
    {
        j += 1;
    }
    j
}

fn num_end_exec(v: &Vec<char>, from: usize) -> (r: usize)
    requires
        from <= v@.len(),
    ensures
        r as int == num_end(v@, from as int),
        from <= r <= v@.len(),
{
    let mut j: usize = from;
    while j < v.len() && is_num_char_exec(v[j])
        invariant
            from <= j <= v@.len(),
            num_end(v@, j as int) == num_end(v@, from as int),
        decreases v@.len() - j,
    {
        j += 1;
    }
    j
}

/// Decides `is_json_number` for a token held as a vector.
fn is_json_number_exec(t: &Vec<char>) -> (r: bool)
    ensures
        r == is_json_number(t@),
{
    let n = t.len();
    let i: usize = if n > 0 && t[0] == '-' {
        1
    } else {
        0
    };
    proof {
        lemma_scan_bounds(t@, i as int);
    }
    let d = digits_end_exec(t, i);
    let has_frac = d < n && t[d] == '.';
    let f = if has_frac {
        digits_end_exec(t, d + 1)
    } else {
        d
    };
    let has_exp = f < n && (t[f] == 'e' || t[f] == 'E');
    let x: usize = if has_exp {
        if f + 1 < n && (t[f + 1] == '+' || t[f + 1] == '-') {
            f + 2
        } else {
            f + 1
        }
    } else {
        f
    };
    let g = digits_end_exec(t, x);
    d > i && (t[i] != '0' || d == i + 1) && (!has_frac || f > d + 1) && (!has_exp || (g > x && g
        == n)) && (has_exp || f == n)
}

/// What the embedding response must parse to, starting at element position
/// `i`: one number token, then either a comma and further elements or the
/// closing bracket and the end of the text.
pub open spec fn parse_elems_spec(s: Seq<char>, i: int) -> Option<Seq<Seq<char>>>
    decreases s.len() - i,
    when 0 <= i <= s.len()
{
    let e = num_end(s, i);
    if e <= i || !is_json_number(s.subrange(i, e)) {
        None
    } else {
        let tok = s.subrange(i, e);
        let j = ws_end(s, e);
        if j < s.len() && s[j] == ',' {
            let k = ws_end(s, j + 1);
            proof {
                lemma_scan_bounds(s, i);
                lemma_scan_bounds(s, e);
                lemma_scan_bounds(s, j + 1);
            }
            match parse_elems_spec(s, k) {
                Some(rest) => Some(seq![tok] + rest),
                None => None,
            }
        } else if j < s.len() && s[j] == ']' {
            if ws_end(s, j + 1) == s.len() {
                Some(seq![tok])
            } else {
                None
            }
        } else {
            None
        }
    }
}

/// What the embedding response parses to: the number tokens of a JSON
/// array of numbers, or nothing when the text is not such an array.
pub open spec fn parse_embedding_spec(s: Seq<char>) -> Option<Seq<Seq<char>>> {
    let i = ws_end(s, 0);
    if i < s.len() && s[i] == '[' {
        let j = ws_end(s, i + 1);
        if j < s.len() && s[j] == ']' {
            if ws_end(s, j + 1) == s.len() {
                Some(Seq::empty())
            } else {
                None
            }
        } else {
            parse_elems_spec(s, j)
        }
    } else {
        None
    }
}

fn parse_elems_exec(v: &Vec<char>, i: usize) -> (r: Option<Vec<String>>)
    requires
        i <= v@.len(),
    ensures
        (r is Some) == (parse_elems_spec(v@, i as int) is Some),
        (r matches Some(toks) ==> toks.deep_view() == parse_elems_spec(v@, i as int).unwrap()),
    decreases v@.len() - i,
{
    proof {
        lemma_scan_bounds(v@, i as int);
    }
    let e = num_end_exec(v, i);
    if e <= i {
        return None;
    }
    let tok_v = vec_range(v, i, e);
    if !is_json_number_exec(&tok_v) {
        return None;
    }
    let j = ws_end_exec(v, e);
    if j < v.len() && v[j] == ',' {
        let k = ws_end_exec(v, j + 1);
        match parse_elems_exec(v, k) {
            None => None,
            Some(mut rest) => {
                let ghost pre = rest.deep_view();
                let tok = string_of(&tok_v);
                rest.insert(0, tok);
                proof {
                    let full = parse_elems_spec(v@, i as int).unwrap();
                    assert(rest.deep_view() =~= seq![v@.subrange(i as int, e as int)] + pre);
                    assert(rest.deep_view() =~= full);
                }
                Some(rest)
            },
        }
    } else if j < v.len() && v[j] == ']' {
        let j2 = ws_end_exec(v, j + 1);
        if j2 == v.len() {
            let tok = string_of(&tok_v);
            let mut out: Vec<String> = Vec::new();
            out.push(tok);
            proof {
                assert(out.deep_view() =~= seq![v@.subrange(i as int, e as int)]);
            }
            Some(out)
        } else {
            None
        }
    } else {
        None
    }
}

/// The lower-case hexadecimal digit for `n`, for `n` below sixteen.
pub open spec fn hex_digit(n: int) -> char {
    if n == 0 {
        '0'
    } else if n == 1 {
        '1'
    } else if n == 2 {
        '2'
    } else if n == 3 {
        '3'
    } else if n == 4 {
        '4'
    } else if n == 5 {
        '5'
    } else if n == 6 {
        '6'
    } else if n == 7 {
        '7'
    } else if n == 8 {
        '8'
    } else if n == 9 {
        '9'
    } else if n == 10 {
        'a'
    } else if n == 11 {
        'b'
    } else if n == 12 {
        'c'
    } else if n == 13 {
        'd'
    } else if n == 14 {
        'e'
    } else {
        'f'
    }
}

fn hex_digit_exec(n: u32) -> (r: char)
    requires
        n < 16,
    ensures
        r == hex_digit(n as int),
{
    if n == 0 {
        '0'
    } else if n == 1 {
        '1'
    } else if n == 2 {
        '2'
    } else if n == 3 {
        '3'
    } else if n == 4 {
        '4'
    } else if n == 5 {
        '5'
    } else if n == 6 {
        '6'
    } else if n == 7 {
        '7'
    } else if n == 8 {
        '8'
    } else if n == 9 {
        '9'
    } else if n == 10 {
        'a'
    } else if n == 11 {
        'b'
    } else if n == 12 {
        'c'
    } else if n == 13 {
        'd'
    } else if n == 14 {
        'e'
    } else {
        'f'
    }
}

/// How one character appears inside a JSON string: quotes, backslashes and
/// the named control characters take a two-character escape, the remaining
/// control characters a `\u00..` escape, and every other character stands
/// as itself.
pub open spec fn escape_char(c: char) -> Seq<char> {
    if c == '"' {
        seq!['\\', '"']
    } else if c == '\\' {
        seq!['\\', '\\']
    } else if c == '\u{8}' {
        seq!['\\', 'b']
    } else if c == '\u{c}' {
        seq!['\\', 'f']
    } else if c == '\n' {
        seq!['\\', 'n']
    } else if c == '\r' {
        seq!['\\', 'r']
    } else if c == '\t' {
        seq!['\\', 't']
    } else if (c as u32) < 0x20 {
        seq!['\\', 'u', '0', '0', hex_digit((c as u32 / 16) as int), hex_digit(
            (c as u32 % 16) as int,
        )]
    } else {
        seq![c]
    }
}

/// `s` as it appears inside a JSON string literal.
pub open spec fn json_escape_spec(s: Seq<char>) -> Seq<char>
    decreases s.len(),
{
    if s.len() == 0 {
        Seq::empty()
    } else {
        escape_char(s[0]) + json_escape_spec(s.skip(1))
    }
}

fn push_escaped(out: &mut Vec<char>, c: char)
    ensures
        final(out)@ == old(out)@ + escape_char(c),
{
    if c == '"' {
        out.push('\\');
        out.push('"');
    } else if c == '\\' {
        out.push('\\');
        out.push('\\');
    } else if c == '\u{8}' {
        out.push('\\');
        out.push('b');
    } else if c == '\u{c}' {
        out.push('\\');
        out.push('f');
    } else if c == '\n' {
        out.push('\\');
        out.push('n');
    } else if c == '\r' {
        out.push('\\');
        out.push('r');
    } else if c == '\t' {
        out.push('\\');
        out.push('t');
    } else if (c as u32) < 0x20 {
        let u: u32 = c as u32;
        out.push('\\');
        out.push('u');
        out.push('0');
        out.push('0');
        out.push(hex_digit_exec(u / 16));
        out.push(hex_digit_exec(u % 16));
    } else {
        out.push(c);
    }
    proof {
        assert(final(out)@ =~= old(out)@ + escape_char(c));
    }
}

/// Appends the escaped form of `v` to `out`.
fn escape_into(out: &mut Vec<char>, v: &Vec<char>)
    ensures
        final(out)@ == old(out)@ + json_escape_spec(v@),
{
    let mut i: usize = 0;
    proof {
        assert(v@.skip(0) =~= v@);
        assert(out@ + json_escape_spec(v@.skip(0)) =~= old(out)@ + json_escape_spec(v@));
    }
    while i < v.len()
        invariant
            i <= v@.len(),
            out@ + json_escape_spec(v@.skip(i as int)) == old(out)@ + json_escape_spec(v@),
        decreases v@.len() - i,
    {
        let ghost pre = out@;
        let ghost cur = v@.skip(i as int);
        proof {
            assert(cur[0] == v@[i as int]);
            assert(cur.skip(1) =~= v@.skip(i + 1 as int));
        }
        push_escaped(out, v[i]);
        proof {
            assert(out@ + json_escape_spec(v@.skip(i + 1 as int)) =~= pre + (escape_char(
                v@[i as int],
            ) + json_escape_spec(v@.skip(i + 1 as int))));
        }
        i += 1;
    }
    proof {
        assert(v@.skip(v@.len() as int) =~= Seq::<char>::empty());
        assert(out@ =~= old(out)@ + json_escape_spec(v@));
    }
}

/// The body of the embedding request for the given normalized text: its
/// `inputs` field carries the text, and the service is told to wait for
/// the model to warm up.
pub open spec fn embed_request_spec(text: Seq<char>) -> Seq<char> {
    "{\"inputs\":\""@ + json_escape_spec(text) + "\",\"options\":{\"wait_for_model\":true}}"@
}

/// Frames the embedding request body for `text`.
pub fn embedding_request_body(text: &str) -> (r: String)
    ensures
        r@ == embed_request_spec(text@),
{
    let mut out: Vec<char> = Vec::new();
    append_str(&mut out, "{\"inputs\":\"");
    let tv = chars_of(text);
    escape_into(&mut out, &tv);
    append_str(&mut out, "\",\"options\":{\"wait_for_model\":true}}");
    proof {
        assert(out@ =~= embed_request_spec(text@));
    }
    string_of(&out)
}

/// The number tokens of an embedding, joined with commas.
pub open spec fn join_tokens_spec(toks: Seq<Seq<char>>) -> Seq<char>
    decreases toks.len(),
{
    if toks.len() == 0 {
        Seq::empty()
    } else if toks.len() == 1 {
        toks[0]
    } else {
        toks[0] + seq![','] + join_tokens_spec(toks.skip(1))
    }
}

proof fn lemma_join_push(toks: Seq<Seq<char>>, x: Seq<char>)
    ensures
        join_tokens_spec(toks.push(x)) == if toks.len() == 0 {
            x
        } else {
            join_tokens_spec(toks) + seq![','] + x
        },
    decreases toks.len(),
{
    let p = toks.push(x);
    if toks.len() == 0 {
        assert(p.len() == 1);
        assert(join_tokens_spec(p) == p[0]);
        assert(p[0] == x);
    } else {
        assert(p.skip(1) =~= toks.skip(1).push(x));
        lemma_join_push(toks.skip(1), x);
        if toks.len() == 1 {
            assert(toks.skip(1).len() == 0);
            assert(join_tokens_spec(p) == p[0] + seq![','] + join_tokens_spec(p.skip(1)));
            assert(join_tokens_spec(p.skip(1)) == x);
            assert(p[0] == toks[0]);
        } else {
            assert(join_tokens_spec(p) == toks[0] + seq![','] + (join_tokens_spec(toks.skip(1))
                + seq![','] + x));
            assert(toks[0] + seq![','] + (join_tokens_spec(toks.skip(1)) + seq![','] + x) =~= (
            toks[0] + seq![','] + join_tokens_spec(toks.skip(1))) + seq![','] + x);
        }
    }
}

/// Appends the comma-joined tokens to `out`.
fn join_into(out: &mut Vec<char>, toks: &Vec<String>)
    ensures
        final(out)@ == old(out)@ + join_tokens_spec(toks.deep_view()),
{
    let ghost dv = toks.deep_view();
    let mut i: usize = 0;
    proof {
        assert(dv.take(0) =~= Seq::<Seq<char>>::empty());
        assert(out@ + join_tokens_spec(dv.take(0)) =~= out@);
    }
    while i < toks.len()
        invariant
            i <= toks@.len(),
            dv == toks.deep_view(),
            out@ == old(out)@ + join_tokens_spec(dv.take(i as int)),
        decreases toks@.len() - i,
    {
        if i > 0 {
            out.push(',');
        }
        append_str(out, toks[i].as_str());
        proof {
            assert(dv.take(i as int).push(dv[i as int]) =~= dv.take(i + 1 as int));
            lemma_join_push(dv.take(i as int), dv[i as int]);
            assert(dv[i as int] == toks@[i as int]@);
            assert(out@ =~= old(out)@ + join_tokens_spec(dv.take(i + 1 as int)));
        }
        i += 1;
    }
    proof {
        assert(dv.take(dv.len() as int) =~= dv);
    }
}

/// The body of the record upload: the file name under `titulo`, the
/// normalized text under `contenido`, and the embedding's number tokens,
/// in order, under `embedding`.
pub open spec fn record_body_spec(titulo: Seq<char>, contenido: Seq<char>, emb: Seq<Seq<char>>) -> Seq<char> {
    "{\"titulo\":\""@ + json_escape_spec(titulo) + "\",\"contenido\":\""@ + json_escape_spec(
        contenido,
    ) + "\",\"embedding\":["@ + join_tokens_spec(emb) + "]}"@
}

/// Frames the record upload body.
pub fn record_request_body(titulo: &str, contenido: &str, embedding: &Vec<String>) -> (r: String)
    ensures
        r@ == record_body_spec(titulo@, contenido@, embedding.deep_view()),
{
    let mut out: Vec<char> = Vec::new();
    append_str(&mut out, "{\"titulo\":\"");
    let tv = chars_of(titulo);
    escape_into(&mut out, &tv);
    append_str(&mut out, "\",\"contenido\":\"");
    let cv = chars_of(contenido);
    escape_into(&mut out, &cv);
    append_str(&mut out, "\",\"embedding\":[");
    join_into(&mut out, embedding);
    append_str(&mut out, "]}");
    proof {
        assert(out@ =~= record_body_spec(titulo@, contenido@, embedding.deep_view()));
    }
    string_of(&out)
}

proof fn lemma_elems_tokens_are_numbers(s: Seq<char>, i: int)
    requires
        0 <= i <= s.len(),
        parse_elems_spec(s, i) is Some,
    ensures
        forall|k: int|
            0 <= k < parse_elems_spec(s, i).unwrap().len() ==> is_json_number(
                #[trigger] parse_elems_spec(s, i).unwrap()[k],
            ),
    decreases s.len() - i,
{
    let e = num_end(s, i);
    let tok = s.subrange(i, e);
    let j = ws_end(s, e);
    lemma_scan_bounds(s, i);
    lemma_scan_bounds(s, e);
    if j < s.len() && s[j] == ',' {
        let k = ws_end(s, j + 1);
        lemma_scan_bounds(s, j + 1);
        lemma_elems_tokens_are_numbers(s, k);
        let rest = parse_elems_spec(s, k).unwrap();
        let toks = parse_elems_spec(s, i).unwrap();
        assert(toks == seq![tok] + rest);
        assert forall|m: int| 0 <= m < toks.len() implies is_json_number(#[trigger] toks[m]) by {
            if m == 0 {
                assert(toks[m] == tok);
            } else {
                assert(toks[m] == rest[m - 1]);
            }
        }
    }
}

/// Every token of a parsed embedding response is a JSON number token.
pub proof fn lemma_parsed_tokens_are_numbers(s: Seq<char>)
    requires
        parse_embedding_spec(s) is Some,
    ensures
        forall|k: int|
            0 <= k < parse_embedding_spec(s).unwrap().len() ==> is_json_number(
                #[trigger] parse_embedding_spec(s).unwrap()[k],
            ),
{
    lemma_scan_bounds(s, 0);
    let i = ws_end(s, 0);
    if i < s.len() && s[i] == '[' {
        lemma_scan_bounds(s, i + 1);
        let j = ws_end(s, i + 1);
        if !(j < s.len() && s[j] == ']') {
            lemma_elems_tokens_are_numbers(s, j);
        }
    }
}

/// Parses the embedding response: returns the number tokens exactly when
/// `body` is a JSON array of numbers, and nothing otherwise.
pub fn parse_embedding(body: &str) -> (r: Option<Vec<String>>)
    ensures
        (r is Some) == (parse_embedding_spec(body@) is Some),
        (r matches Some(toks) ==> toks.deep_view() == parse_embedding_spec(body@).unwrap()),
{
    let v = chars_of(body);
    proof {
        lemma_scan_bounds(v@, 0);
    }
    let i = ws_end_exec(&v, 0);
    if i < v.len() && v[i] == '[' {
        let j = ws_end_exec(&v, i + 1);
        if j < v.len() && v[j] == ']' {
            let j2 = ws_end_exec(&v, j + 1);
            if j2 == v.len() {
                let out: Vec<String> = Vec::new();
                proof {
                    assert(out.deep_view() =~= Seq::<Seq<char>>::empty());
                }
                Some(out)
            } else {
                None
            }
        } else {
            parse_elems_exec(&v, j)
        }
    } else {
        None
    }
}

} // verus!
