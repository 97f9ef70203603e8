use vstd::prelude::*;

verus! {

/// Relies on `String::push`: appends the given character to the end of the
/// string, as its documentation states.
pub assume_specification[ String::push ](s: &mut String, c: char)
    ensures
        final(s)@ == old(s)@.push(c),
;

// ---------------------------------------------------------------------------
// Encoding: JSON string escaping and decimal integers.
// ---------------------------------------------------------------------------

/// The lower-case hexadecimal digit for a value below sixteen.
pub open spec fn hex_digit_char(d: int) -> char {
    if d == 0 { '0' } else if d == 1 { '1' } else if d == 2 { '2' } else if d == 3 { '3' }
    else if d == 4 { '4' } else if d == 5 { '5' } else if d == 6 { '6' } else if d == 7 { '7' }
    else if d == 8 { '8' } else if d == 9 { '9' } else if d == 10 { 'a' } else if d == 11 { 'b' }
    else if d == 12 { 'c' } else if d == 13 { 'd' } else if d == 14 { 'e' } else { 'f' }
}

/// How one character appears inside a JSON string literal: quotes and
/// backslashes get a backslash escape, control characters a `\u00XX` escape,
/// and every other character stands as itself.
pub open spec fn escape_char(c: char) -> Seq<char> {
    if c == '"' {
        seq!['\\', '"']
    } else if c == '\\' {
        seq!['\\', '\\']
    } else if (c as u32) < 32 {
        seq!['\\', 'u', '0', '0', hex_digit_char((c as u32) as int / 16), hex_digit_char((c as u32) as int % 16)]
    } else {
        seq![c]
    }
}

/// The body of a JSON string literal holding the given characters.
pub open spec fn json_escaped(s: Seq<char>) -> Seq<char>
    decreases s.len(),
{
    if s.len() == 0 {
        Seq::empty()
    } else {
        json_escaped(s.drop_last()) + escape_char(s.last())
    }
}

/// A complete JSON string literal: a quote, the escaped body, a quote.
pub open spec fn json_quoted(s: Seq<char>) -> Seq<char> {
    seq!['"'] + json_escaped(s) + seq!['"']
}

fn hex_digit(d: u8) -> (r: char)
    requires
        d < 16,
    ensures
        r == hex_digit_char(d as int),
{
    if d == 0 { '0' } else if d == 1 { '1' } else if d == 2 { '2' } else if d == 3 { '3' }
    else if d == 4 { '4' } else if d == 5 { '5' } else if d == 6 { '6' } else if d == 7 { '7' }
    else if d == 8 { '8' } else if d == 9 { '9' } else if d == 10 { 'a' } else if d == 11 { 'b' }
    else if d == 12 { 'c' } else if d == 13 { 'd' } else if d == 14 { 'e' } else { 'f' }
}

/// Appends the escaped body of a JSON string literal for `s` to `out`.
pub fn write_escaped(out: &mut String, s: &str)
    ensures
        final(out)@ == old(out)@ + json_escaped(s@),
{
    let n = s.unicode_len();
    let mut i: usize = 0;
    while i < n
        invariant
            n == s@.len(),
            i <= n,
            out@ == old(out)@ + json_escaped(s@.take(i as int)),
        decreases n - i,
    {
        let c = s.get_char(i);
        if c == '"' {
            out.push('\\');
            out.push('"');
        } else if c == '\\' {
            out.push('\\');
            out.push('\\');
        } else if (c as u32) < 32 {
            let v = c as u32;
            out.push('\\');
            out.push('u');
            out.push('0');
            out.push('0');
            out.push(hex_digit((v / 16) as u8));
            out.push(hex_digit((v % 16) as u8));
        } else {
            out.push(c);
        }
        proof {
            let t = s@.take(i + 1 as int);
            assert(t.drop_last() =~= s@.take(i as int));
            assert(t.last() == s@[i as int]);
            assert(out@ =~= old(out)@ + json_escaped(t));
        }
        i = i + 1;
    }
    proof {
        assert(s@.take(n as int) =~= s@);
    }
}

/// Appends a complete JSON string literal for `s` to `out`.
pub fn write_quoted(out: &mut String, s: &str)
    ensures
        final(out)@ == old(out)@ + json_quoted(s@),
{
    out.push('"');
    write_escaped(out, s);
    out.push('"');
    proof {
        assert(out@ =~= old(out)@ + json_quoted(s@));
    }
}

/// The decimal digit for a value below ten.
pub open spec fn dec_digit_char(d: int) -> char {
    if d == 0 { '0' } else if d == 1 { '1' } else if d == 2 { '2' } else if d == 3 { '3' }
    else if d == 4 { '4' } else if d == 5 { '5' } else if d == 6 { '6' } else if d == 7 { '7' }
    else if d == 8 { '8' } else { '9' }
}

/// The decimal digits of a natural number, most significant first.
pub open spec fn dec_nat(n: nat) -> Seq<char>
    decreases n,
{
    if n < 10 {
        seq![dec_digit_char(n as int)]
    } else {
        dec_nat(n / 10) + seq![dec_digit_char((n % 10) as int)]
    }
}

/// The decimal rendering of an integer, with a leading minus sign when it is
/// negative.
pub open spec fn dec_int(n: int) -> Seq<char> {
    if n < 0 {
        seq!['-'] + dec_nat((-n) as nat)
    } else {
        dec_nat(n as nat)
    }
}

fn dec_digit(d: u8) -> (r: char)
    requires
        d < 10,
    ensures
        r == dec_digit_char(d as int),
{
    if d == 0 { '0' } else if d == 1 { '1' } else if d == 2 { '2' } else if d == 3 { '3' }
    else if d == 4 { '4' } else if d == 5 { '5' } else if d == 6 { '6' } else if d == 7 { '7' }
    else if d == 8 { '8' } else { '9' }
}

/// Appends the decimal digits of `n` to `out`.
pub fn write_u64(out: &mut String, n: u64)
    ensures
        final(out)@ == old(out)@ + dec_nat(n as nat),
    decreases n,
{
    if n < 10 {
        out.push(dec_digit(n as u8));
    } else {
        write_u64(out, n / 10);
        out.push(dec_digit((n % 10) as u8));
    }
}

/// Appends the decimal rendering of `n` to `out`.
pub fn write_i64(out: &mut String, n: i64)
    ensures
        final(out)@ == old(out)@ + dec_int(n as int),
{
    if n < 0 {
        out.push('-');
        let wide: i128 = n as i128;
        let magnitude: u64 = (-wide) as u64;
        proof {
            assert(magnitude as nat == (-(n as int)) as nat);
        }
        write_u64(out, magnitude);
        proof {
            assert(out@ =~= old(out)@ + dec_int(n as int));
        }
    } else {
        write_u64(out, n as u64);
    }
}

// ---------------------------------------------------------------------------
// Parsing: the judging engine's acknowledgement. Accepted is a flat JSON
// object holding, among scalar members in any order, exactly one `token`
// member with a string value; strings carry the common backslash escapes.
// Deliberately not accepted, as the wire contract promises none of them:
// nested objects or arrays as member values, and the rarer `\uXXXX`, `\b`
// and `\f` escapes.
// ---------------------------------------------------------------------------

/// The whitespace characters JSON allows between tokens.
pub open spec fn is_json_ws(c: char) -> bool {
    c == ' ' || c == '\t' || c == '\n' || c == '\r'
}

/// The first index at or after `i` holding no whitespace.
pub open spec fn skip_ws(s: Seq<char>, i: int) -> int
    decreases s.len() - i,
{
    if 0 <= i < s.len() && is_json_ws(s[i]) {
        skip_ws(s, i + 1)
    } else {
        i
    }
}

/// The character a backslash escape stands for, or `None` where the escape
/// is not recognised.
pub open spec fn unescaped_char(c: char) -> Option<char> {
    if c == '"' { Some('"') }
    else if c == '\\' { Some('\\') }
    else if c == '/' { Some('/') }
    else if c == 'n' { Some('\n') }
    else if c == 't' { Some('\t') }
    else if c == 'r' { Some('\r') }
    else { Option::None }
}

/// Reads the body of a JSON string literal starting at `i` (just past the
/// opening quote): the unescaped content and the index just past the closing
/// quote, or `None` where no well-formed literal starts there.
pub open spec fn parse_string_body(s: Seq<char>, i: int) -> Option<(Seq<char>, int)>
    decreases s.len() - i,
{
    if !(0 <= i < s.len()) {
        Option::None
    } else if s[i] == '"' {
        Some((Seq::empty(), i + 1))
    } else if s[i] == '\\' {
        if i + 1 < s.len() && unescaped_char(s[i + 1]) is Some {
            match parse_string_body(s, i + 2) {
                Some(p) => Some((seq![unescaped_char(s[i + 1])->0] + p.0, p.1)),
                Option::None => Option::None,
            }
        } else {
            Option::None
        }
    } else {
        match parse_string_body(s, i + 1) {
            Some(p) => Some((seq![s[i]] + p.0, p.1)),
            Option::None => Option::None,
        }
    }
}

pub proof fn lemma_parse_string_body_bounds(s: Seq<char>, i: int)
    requires
        parse_string_body(s, i) is Some,
    ensures
        i < (parse_string_body(s, i)->0).1 <= s.len(),
    decreases s.len() - i,
{
    if 0 <= i < s.len() && s[i] == '"' {
    } else if 0 <= i < s.len() && s[i] == '\\' {
        lemma_parse_string_body_bounds(s, i + 2);
    } else if 0 <= i < s.len() {
        lemma_parse_string_body_bounds(s, i + 1);
    }
}

/// The characters a JSON number is spelled with. A member value that is a
/// number is skipped by shape: a run of these characters.
pub open spec fn is_number_char(c: char) -> bool {
    (48 <= c as u32 && c as u32 <= 57) || c == '-' || c == '+' || c == '.' || c == 'e' || c == 'E'
}

/// The first index at or after `i` holding no number character.
pub open spec fn skip_number(s: Seq<char>, i: int) -> int
    decreases s.len() - i,
{
    if 0 <= i < s.len() && is_number_char(s[i]) {
        skip_number(s, i + 1)
    } else {
        i
    }
}

pub proof fn lemma_skip_number_bounds(s: Seq<char>, i: int)
    requires
        0 <= i <= s.len(),
    ensures
        i <= skip_number(s, i) <= s.len(),
    decreases s.len() - i,
{
    if 0 <= i < s.len() && is_number_char(s[i]) {
        lemma_skip_number_bounds(s, i + 1);
    }
}

/// One member value starting at `i`: a string yields its content; a
/// number, `true`, `false` or `null` is skipped by shape. Anything else —
/// a nested object or array among them — is refused. The result carries
/// the string content, where there is one, and the index just past the
/// value.
pub open spec fn parse_scalar(s: Seq<char>, i: int) -> Option<(Option<Seq<char>>, int)> {
    if !(0 <= i < s.len()) {
        Option::None
    } else if s[i] == '"' {
        match parse_string_body(s, i + 1) {
            Some(p) => Some((Some(p.0), p.1)),
            Option::None => Option::None,
        }
    } else if is_number_char(s[i]) {
        Some((Option::None, skip_number(s, i)))
    } else if s[i] == 't' {
        if i + 4 <= s.len() && s[i + 1] == 'r' && s[i + 2] == 'u' && s[i + 3] == 'e' {
            Some((Option::None, i + 4))
        } else {
            Option::None
        }
    } else if s[i] == 'f' {
        if i + 5 <= s.len() && s[i + 1] == 'a' && s[i + 2] == 'l' && s[i + 3] == 's' && s[i + 4] == 'e' {
            Some((Option::None, i + 5))
        } else {
            Option::None
        }
    } else if s[i] == 'n' {
        if i + 4 <= s.len() && s[i + 1] == 'u' && s[i + 2] == 'l' && s[i + 3] == 'l' {
            Some((Option::None, i + 4))
        } else {
            Option::None
        }
    } else {
        Option::None
    }
}

/// The members of the acknowledgement object from `i` (just past the
/// opening brace or a separating comma): string keys, each with a scalar
/// value, in any order. `token` must appear exactly once, holding a
/// string; `found` carries its content once seen. The result is that
/// content and the index just past the closing brace. The bound on the
/// recursion only serves termination; a parsed member always moves the
/// position forward, so the clamp never binds.
pub open spec fn parse_members(s: Seq<char>, i: int, found: Option<Seq<char>>) -> Option<(Seq<char>, int)>
    decreases s.len() - i,
{
    if !(0 <= i < s.len()) {
        Option::None
    } else {
        let k = skip_ws(s, i);
        if !(k < s.len() && s[k] == '"') {
            Option::None
        } else {
            match parse_string_body(s, k + 1) {
                Option::None => Option::None,
                Some(key) => {
                    let c = skip_ws(s, key.1);
                    if !(c < s.len() && s[c] == ':') {
                        Option::None
                    } else {
                        match parse_scalar(s, skip_ws(s, c + 1)) {
                            Option::None => Option::None,
                            Some(v) => {
                                if key.0 == "token"@ && (found is Some || v.0 is None) {
                                    Option::None
                                } else {
                                    let found2 = if key.0 == "token"@ { v.0 } else { found };
                                    let e = skip_ws(s, v.1);
                                    if e < s.len() && s[e] == ',' {
                                        let next = if i < e + 1 && e + 1 <= s.len() { e + 1 } else { i + 1 };
                                        parse_members(s, next, found2)
                                    } else if e < s.len() && s[e] == '}' {
                                        match found2 {
                                            Some(t) => Some((t, e + 1)),
                                            Option::None => Option::None,
                                        }
                                    } else {
                                        Option::None
                                    }
                                }
                            },
                        }
                    }
                },
            }
        }
    }
}

/// What the engine's acknowledgement body means: `Some(token)` where the
/// body is a flat JSON object among whose scalar members stands exactly
/// one `token` member holding a string, `None` for every other body.
pub open spec fn token_response_of(s: Seq<char>) -> Option<Seq<char>> {
    let i1 = skip_ws(s, 0);
    if !(i1 < s.len() && s[i1] == '{') {
        Option::None
    } else {
        match parse_members(s, i1 + 1, Option::None) {
            Option::None => Option::None,
            Some(p) => {
                if skip_ws(s, p.1) == s.len() {
                    Some(p.0)
                } else {
                    Option::None
                }
            },
        }
    }
}

fn is_ws(c: char) -> (r: bool)
    ensures
        r == is_json_ws(c),
{
    c == ' ' || c == '\t' || c == '\n' || c == '\r'
}

fn skip_ws_from(s: &str, i0: usize) -> (r: usize)
    requires
        i0 <= s@.len(),
    ensures
        r as int == skip_ws(s@, i0 as int),
        i0 <= r <= s@.len(),
{
    let n = s.unicode_len();
    let mut i = i0;
    while i < n && is_ws(s.get_char(i))
        invariant
            i0 <= i <= n,
            n == s@.len(),
            skip_ws(s@, i0 as int) == skip_ws(s@, i as int),
        decreases n - i,
    {
        i = i + 1;
    }
    i
}

fn unescape(c: char) -> (r: Option<char>)
    ensures
        r == unescaped_char(c),
{
    if c == '"' { Some('"') }
    else if c == '\\' { Some('\\') }
    else if c == '/' { Some('/') }
    else if c == 'n' { Some('\n') }
    else if c == 't' { Some('\t') }
    else if c == 'r' { Some('\r') }
    else { None }
}

fn parse_string_at(s: &str, i0: usize) -> (r: Option<(String, usize)>)
    requires
        i0 <= s@.len(),
    ensures
        match r {
            Some(p) => parse_string_body(s@, i0 as int) == Some((p.0@, p.1 as int)) && p.1 <= s@.len(),
            None => parse_string_body(s@, i0 as int) is None,
        },
{
    let n = s.unicode_len();
    let mut i = i0;
    let mut acc = String::new();
    loop
        invariant
            i0 <= i <= n,
            n == s@.len(),
            (match parse_string_body(s@, i as int) {
                Some(p) => parse_string_body(s@, i0 as int) == Some((acc@ + p.0, p.1)),
                Option::None => parse_string_body(s@, i0 as int) is None,
            }),
        decreases n - i,
    {
        if i >= n {
            return None;
        }
        let c = s.get_char(i);
        if c == '"' {
            proof {
                assert(acc@ + Seq::<char>::empty() =~= acc@);
                lemma_parse_string_body_bounds(s@, i0 as int);
            }
            return Some((acc, i + 1));
        } else if c == '\\' {
            if i + 1 < n {
                let e = s.get_char(i + 1);
                match unescape(e) {
                    Some(u) => {
                        proof {
                            let rest = parse_string_body(s@, i as int + 2);
                            if rest is Some {
                                assert(acc@ + (seq![u] + (rest->0).0) =~= acc@.push(u) + (rest->0).0);
                            }
                        }
                        acc.push(u);
                        i = i + 2;
                    },
                    None => {
                        return None;
                    },
                }
            } else {
                return None;
            }
        } else {
            proof {
                let rest = parse_string_body(s@, i as int + 1);
                if rest is Some {
                    assert(acc@ + (seq![c] + (rest->0).0) =~= acc@.push(c) + (rest->0).0);
                }
            }
            acc.push(c);
            i = i + 1;
        }
    }
}

fn is_number(c: char) -> (r: bool)
    ensures
        r == is_number_char(c),
{
    ('0' <= c && c <= '9') || c == '-' || c == '+' || c == '.' || c == 'e' || c == 'E'
}

fn skip_number_from(s: &str, i0: usize) -> (r: usize)
    requires
        i0 <= s@.len(),
    ensures
        r as int == skip_number(s@, i0 as int),
        i0 <= r <= s@.len(),
{
    let n = s.unicode_len();
    let mut i = i0;
    while i < n && is_number(s.get_char(i))
        invariant
            i0 <= i <= n,
            n == s@.len(),
            skip_number(s@, i0 as int) == skip_number(s@, i as int),
        decreases n - i,
    {
        i = i + 1;
    }
    i
}

fn parse_scalar_at(s: &str, i: usize) -> (r: Option<(Option<String>, usize)>)
    requires
        i <= s@.len(),
    ensures
        (match r {
            Some(v) => parse_scalar(s@, i as int) == Some((v.0.deep_view(), v.1 as int))
                && i < v.1 <= s@.len(),
            None => parse_scalar(s@, i as int) is None,
        }),
{
    let n = s.unicode_len();
    if i >= n {
        return None;
    }
    let c = s.get_char(i);
    if c == '"' {
        match parse_string_at(s, i + 1) {
            Some(p) => {
                proof {
                    lemma_parse_string_body_bounds(s@, i as int + 1);
                }
                Some((Some(p.0), p.1))
            },
            None => None,
        }
    } else if is_number(c) {
        let e = skip_number_from(s, i);
        proof {
            lemma_skip_number_bounds(s@, i as int + 1);
        }
        Some((None, e))
    } else if c == 't' {
        if n - i >= 4 && s.get_char(i + 1) == 'r' && s.get_char(i + 2) == 'u' && s.get_char(i + 3) == 'e' {
            Some((None, i + 4))
        } else {
            None
        }
    } else if c == 'f' {
        if n - i >= 5 && s.get_char(i + 1) == 'a' && s.get_char(i + 2) == 'l' && s.get_char(i + 3) == 's'
            && s.get_char(i + 4) == 'e' {
            Some((None, i + 5))
        } else {
            None
        }
    } else if c == 'n' {
        if n - i >= 4 && s.get_char(i + 1) == 'u' && s.get_char(i + 2) == 'l' && s.get_char(i + 3) == 'l' {
            Some((None, i + 4))
        } else {
            None
        }
    } else {
        None
    }
}

/// Reads the engine's acknowledgement body: the submission token where the
/// body is a flat JSON object among whose scalar members stands exactly
/// one `token` member holding a string, `None` for every other body.
pub fn parse_token_object(s: &str) -> (r: Option<String>)
    ensures
        match r {
            Some(t) => token_response_of(s@) == Some(t@),
            None => token_response_of(s@) is None,
        },
{
    let n = s.unicode_len();
    let i1 = skip_ws_from(s, 0);
    if !(i1 < n && s.get_char(i1) == '{') {
        return None;
    }
    let mut i = i1 + 1;
    let mut found: Option<String> = None;
    loop
        invariant
            i <= n,
            n == s@.len(),
            parse_members(s@, (i1 + 1) as int, Option::None) == parse_members(s@, i as int, found.deep_view()),
            token_response_of(s@) == (match parse_members(s@, (i1 + 1) as int, Option::None) {
                Option::None => Option::<Seq<char>>::None,
                Some(p) => if skip_ws(s@, p.1) == s@.len() { Some(p.0) } else { Option::None },
            }),
        decreases n - i,
    {
        let k = skip_ws_from(s, i);
        if !(k < n && s.get_char(k) == '"') {
            return None;
        }
        let key = match parse_string_at(s, k + 1) {
            Some(p) => p,
            None => {
                return None;
            },
        };
        proof {
            lemma_parse_string_body_bounds(s@, k as int + 1);
        }
        let c = skip_ws_from(s, key.1);
        if !(c < n && s.get_char(c) == ':') {
            return None;
        }
        let vstart = skip_ws_from(s, c + 1);
        let value = match parse_scalar_at(s, vstart) {
            Some(v) => v,
            None => {
                return None;
            },
        };
        let token_lit = String::from_str("token");
        let is_token = key.0 == token_lit;
        if is_token {
            if found.is_some() {
                return None;
            }
            match value.0 {
                Some(content) => {
                    found = Some(content);
                },
                None => {
                    return None;
                },
            }
        }
        let e = skip_ws_from(s, value.1);
        if e < n && s.get_char(e) == ',' {
            i = e + 1;
        } else if e < n && s.get_char(e) == '}' {
            match found {
                Some(t) => {
                    let after = skip_ws_from(s, e + 1);
                    if after == n {
                        return Some(t);
                    } else {
                        return None;
                    }
                },
                None => {
                    return None;
                },
            }
        } else {
            return None;
        }
    }
}

} // verus!
