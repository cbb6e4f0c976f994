//! The message codec: a field-tagged, self-describing text encoding for the
//! two message shapes. The wire format is the JSON object syntax restricted
//! to what the protocol uses: objects of string members, the two boolean
//! literals, the standard short escapes and `\uXXXX` escapes for characters
//! of the basic plane (surrogate pairs are rejected).
//!
//! The grammar is stated once, as spec functions over `Seq<char>`; the
//! executable encoder and decoder are proved to agree with it exactly.

use vstd::prelude::*;
use vstd::string::StrSliceExecFns;

verus! {

/// Decoding failure: the payload is not a well-formed command object.
#[derive(Debug, PartialEq, Eq, Structural)]
pub enum DecodeError {
    Malformed,
}

/// Relies on String::push: appends the one character to the end.
#[verifier::external_body]
pub(crate) fn push_char(s: &mut String, c: char)
    ensures
        final(s)@ == old(s)@.push(c),
{
    s.push(c)
}

/// Relies on char::from_u32: returns the character of the code point, and
/// `Some` exactly for code points that are Unicode scalar values.
#[verifier::external_body]
fn char_from_u32(u: u32) -> (r: Option<char>)
    ensures
        (r is Some) <==> (u < 0xD800 || (0xDFFF < u && u <= 0x10FFFF)),
        r matches Some(c) ==> c as u32 == u,
{
    char::from_u32(u)
}

/// Insignificant whitespace between tokens.
pub open spec fn is_json_ws(c: char) -> bool {
    c == ' ' || c == '\t' || c == '\n' || c == '\r'
}

/// Value of a hexadecimal digit, or -1 for any other character.
pub open spec fn hex_val(c: char) -> int {
    if c == '0' { 0 }
    else if c == '1' { 1 }
    else if c == '2' { 2 }
    else if c == '3' { 3 }
    else if c == '4' { 4 }
    else if c == '5' { 5 }
    else if c == '6' { 6 }
    else if c == '7' { 7 }
    else if c == '8' { 8 }
    else if c == '9' { 9 }
    else if c == 'a' || c == 'A' { 10 }
    else if c == 'b' || c == 'B' { 11 }
    else if c == 'c' || c == 'C' { 12 }
    else if c == 'd' || c == 'D' { 13 }
    else if c == 'e' || c == 'E' { 14 }
    else if c == 'f' || c == 'F' { 15 }
    else { -1 }
}

/// Lower-case digit for a value below 16.
pub open spec fn hex_digit(n: int) -> char {
    if n == 0 { '0' }
    else if n == 1 { '1' }
    else if n == 2 { '2' }
    else if n == 3 { '3' }
    else if n == 4 { '4' }
    else if n == 5 { '5' }
    else if n == 6 { '6' }
    else if n == 7 { '7' }
    else if n == 8 { '8' }
    else if n == 9 { '9' }
    else if n == 10 { 'a' }
    else if n == 11 { 'b' }
    else if n == 12 { 'c' }
    else if n == 13 { 'd' }
    else if n == 14 { 'e' }
    else { 'f' }
}

/// The character for a basic-plane code point.
pub open spec fn code_char(n: int) -> char {
    (n as u32) as char
}

/// UTF-16 surrogate code points: not characters, rejected in `\u` escapes.
pub open spec fn is_surrogate(n: int) -> bool {
    0xD800 <= n && n <= 0xDFFF
}

/// The character named by a short escape: `\"` `\\` `\/` `\b` `\f` `\n` `\r` `\t`.
pub open spec fn is_short_escape(c: char) -> bool {
    c == '"' || c == '\\' || c == '/' || c == 'b' || c == 'f' || c == 'n' || c == 'r'
        || c == 't'
}

pub open spec fn short_escape_char(c: char) -> char {
    if c == '"' { '"' }
    else if c == '\\' { '\\' }
    else if c == '/' { '/' }
    else if c == 'b' { '\u{8}' }
    else if c == 'f' { '\u{c}' }
    else if c == 'n' { '\n' }
    else if c == 'r' { '\r' }
    else { '\t' }
}

/// First index at or after `i` that does not hold whitespace.
pub open spec fn spec_skip_ws(s: Seq<char>, i: int) -> int
    decreases s.len() - i,
{
    if 0 <= i && i < s.len() && is_json_ws(s[i]) {
        spec_skip_ws(s, i + 1)
    } else {
        i
    }
}

/// The value of the four hexadecimal digits at `i`, or -1 if any of the four
/// characters is not a hexadecimal digit.
pub open spec fn hex4(s: Seq<char>, i: int) -> int {
    if hex_val(s[i]) >= 0 && hex_val(s[i + 1]) >= 0 && hex_val(s[i + 2]) >= 0
        && hex_val(s[i + 3]) >= 0 {
        4096 * hex_val(s[i]) + 256 * hex_val(s[i + 1]) + 16 * hex_val(s[i + 2])
            + hex_val(s[i + 3])
    } else {
        -1
    }
}

/// Parse the body of a string literal beginning at `i` (just past the opening
/// quote): the decoded characters and the index just past the closing quote.
pub open spec fn spec_parse_string_body(s: Seq<char>, i: int) -> Option<(Seq<char>, int)>
    decreases s.len() - i,
{
    if i < 0 || i >= s.len() {
        None
    } else if s[i] == '"' {
        Some((Seq::empty(), i + 1))
    } else if s[i] == '\\' {
        if i + 2 <= s.len() && is_short_escape(s[i + 1]) {
            match spec_parse_string_body(s, i + 2) {
                Some((t, j)) => Some((seq![short_escape_char(s[i + 1])] + t, j)),
                None => None,
            }
        } else if i + 6 <= s.len() && s[i + 1] == 'u' && hex4(s, i + 2) >= 0
            && !is_surrogate(hex4(s, i + 2)) {
            match spec_parse_string_body(s, i + 6) {
                Some((t, j)) => Some((seq![code_char(hex4(s, i + 2))] + t, j)),
                None => None,
            }
        } else {
            None
        }
    } else if (s[i] as u32) < 0x20 {
        None
    } else {
        match spec_parse_string_body(s, i + 1) {
            Some((t, j)) => Some((seq![s[i]] + t, j)),
            None => None,
        }
    }
}

/// Parse one object member whose value is a string:
/// whitespace, key string, whitespace, `:`, whitespace, value string.
pub open spec fn spec_parse_member(s: Seq<char>, i: int) -> Option<(Seq<char>, Seq<char>, int)> {
    let k0 = spec_skip_ws(s, i);
    if k0 < s.len() && s[k0] == '"' {
        match spec_parse_string_body(s, k0 + 1) {
            Some((key, k1)) => {
                let k2 = spec_skip_ws(s, k1);
                if k2 < s.len() && s[k2] == ':' {
                    let k3 = spec_skip_ws(s, k2 + 1);
                    if k3 < s.len() && s[k3] == '"' {
                        match spec_parse_string_body(s, k3 + 1) {
                            Some((val, k4)) => Some((key, val, k4)),
                            None => None,
                        }
                    } else {
                        None
                    }
                } else {
                    None
                }
            },
            None => None,
        }
    } else {
        None
    }
}

/// The key sequences of the command object.
pub open spec fn id_key() -> Seq<char> {
    seq!['i', 'd']
}

pub open spec fn jar_path_key() -> Seq<char> {
    seq!['j', 'a', 'r', '_', 'p', 'a', 't', 'h']
}

/// A command from its two members, in either order; `None` when the keys are
/// not exactly `id` and `jar_path`.
pub open spec fn command_of_members(
    k1: Seq<char>,
    v1: Seq<char>,
    k2: Seq<char>,
    v2: Seq<char>,
) -> Option<crate::schema::EventDataView> {
    if k1 == id_key() && k2 == jar_path_key() {
        Some(crate::schema::EventDataView { id: v1, jar_path: v2 })
    } else if k1 == jar_path_key() && k2 == id_key() {
        Some(crate::schema::EventDataView { id: v2, jar_path: v1 })
    } else {
        None
    }
}

/// The whole command grammar: an object holding exactly the members `id` and
/// `jar_path`, both strings, in either order, and nothing after it but
/// whitespace. `None` is the malformed case.
pub open spec fn spec_decode_command(s: Seq<char>) -> Option<crate::schema::EventDataView> {
    let i0 = spec_skip_ws(s, 0);
    if i0 < s.len() && s[i0] == '{' {
        match spec_parse_member(s, i0 + 1) {
            Some((k1, v1, i1)) => {
                let i2 = spec_skip_ws(s, i1);
                if i2 < s.len() && s[i2] == ',' {
                    match spec_parse_member(s, i2 + 1) {
                        Some((k2, v2, i3)) => {
                            let i4 = spec_skip_ws(s, i3);
                            if i4 < s.len() && s[i4] == '}' {
                                if spec_skip_ws(s, i4 + 1) == s.len() {
                                    command_of_members(k1, v1, k2, v2)
                                } else {
                                    None
                                }
                            } else {
                                None
                            }
                        },
                        None => None,
                    }
                } else {
                    None
                }
            },
            None => None,
        }
    } else {
        None
    }
}

/// A character that may stand for itself inside a string literal.
pub open spec fn is_plain_char(c: char) -> bool {
    c != '"' && c != '\\' && (c as u32) >= 0x20
}

/// How one character is written inside a string literal: itself when plain,
/// a short escape for the quote and the backslash, and a `\u00XX` escape for
/// the control characters.
pub open spec fn escape_char(c: char) -> Seq<char> {
    if c == '"' {
        seq!['\\', '"']
    } else if c == '\\' {
        seq!['\\', '\\']
    } else if (c as u32) < 0x20 {
        seq!['\\', 'u', '0', '0', hex_digit((c as u32) as int / 16), hex_digit(
            (c as u32) as int % 16,
        )]
    } else {
        seq![c]
    }
}

/// The written form of a whole string value, character by character.
pub open spec fn escape_string(s: Seq<char>) -> Seq<char>
    decreases s.len(),
{
    if s.len() == 0 {
        Seq::empty()
    } else {
        escape_char(s[0]) + escape_string(s.skip(1))
    }
}

/// The fixed opening of both encoded objects: `{"id":"`.
pub open spec fn obj_id_prefix() -> Seq<char> {
    seq!['{', '"', 'i', 'd', '"', ':', '"']
}

/// The fixed pieces of the encoded command object.
pub open spec fn cmd_mid() -> Seq<char> {
    seq!['"', ',', '"', 'j', 'a', 'r', '_', 'p', 'a', 't', 'h', '"', ':', '"']
}

pub open spec fn cmd_suffix() -> Seq<char> {
    seq!['"', '}']
}

/// The encoded form of a command: field-tagged, no insignificant whitespace,
/// members in the fixed order `id`, `jar_path`.
pub open spec fn spec_encode_command(c: crate::schema::EventDataView) -> Seq<char> {
    obj_id_prefix() + escape_string(c.id) + cmd_mid() + escape_string(c.jar_path) + cmd_suffix()
}

/// The fixed pieces of the encoded response object.
pub open spec fn resp_mid_status() -> Seq<char> {
    seq!['"', ',', '"', 's', 't', 'a', 't', 'u', 's', '"', ':', '"']
}

pub open spec fn resp_mid_content() -> Seq<char> {
    seq!['"', ',', '"', 'c', 'o', 'n', 't', 'e', 'n', 't', '"', ':', '"']
}

pub open spec fn resp_mid_is_error() -> Seq<char> {
    seq!['"', ',', '"', 'i', 's', '_', 'e', 'r', 'r', 'o', 'r', '"', ':']
}

pub open spec fn true_lit() -> Seq<char> {
    seq!['t', 'r', 'u', 'e']
}

pub open spec fn false_lit() -> Seq<char> {
    seq!['f', 'a', 'l', 's', 'e']
}

/// The encoded form of a response: members in the fixed order `id`,
/// `status`, `content`, `is_error`.
pub open spec fn spec_encode_response(r: crate::schema::EventResponseView) -> Seq<char> {
    obj_id_prefix() + escape_string(r.id) + resp_mid_status() + escape_string(r.status)
        + resp_mid_content() + escape_string(r.content) + resp_mid_is_error() + (if r.is_error {
        true_lit()
    } else {
        false_lit()
    }) + seq!['}']
}

/// Escaping one more character extends the written form at the end.
proof fn lemma_escape_string_snoc(s: Seq<char>, c: char)
    ensures
        escape_string(s.push(c)) == escape_string(s) + escape_char(c),
    decreases s.len(),
{
    reveal_with_fuel(escape_string, 3);
    if s.len() == 0 {
        assert(s.push(c).skip(1) =~= Seq::<char>::empty());
        assert(escape_string(s.push(c)) =~= escape_string(s) + escape_char(c));
    } else {
        lemma_escape_string_snoc(s.skip(1), c);
        assert(s.push(c)[0] == s[0]);
        assert(s.push(c).skip(1) =~= s.skip(1).push(c));
        assert(escape_string(s.push(c)) == escape_char(s[0]) + escape_string(s.skip(1).push(c)));
        assert(escape_string(s.push(c)) =~= escape_string(s) + escape_char(c));
    }
}

fn hex_digit_exec(n: u32) -> (r: char)
    requires
        n < 16,
    ensures
        r == hex_digit(n as int),
{
    if n == 0 { '0' }
    else if n == 1 { '1' }
    else if n == 2 { '2' }
    else if n == 3 { '3' }
    else if n == 4 { '4' }
    else if n == 5 { '5' }
    else if n == 6 { '6' }
    else if n == 7 { '7' }
    else if n == 8 { '8' }
    else if n == 9 { '9' }
    else if n == 10 { 'a' }
    else if n == 11 { 'b' }
    else if n == 12 { 'c' }
    else if n == 13 { 'd' }
    else if n == 14 { 'e' }
    else { 'f' }
}

/// Append the written form of one character.
fn append_escaped_char(out: &mut String, c: char)
    ensures
        final(out)@ == old(out)@ + escape_char(c),
{
    let ghost o0 = old(out)@;
    if c == '"' {
        push_char(out, '\\');
        push_char(out, '"');
        proof {
            assert(out@ =~= o0 + escape_char(c));
        }
    } else if c == '\\' {
        push_char(out, '\\');
        push_char(out, '\\');
        proof {
            assert(out@ =~= o0 + escape_char(c));
        }
    } else if (c as u32) < 0x20 {
        let u = c as u32;
        push_char(out, '\\');
        push_char(out, 'u');
        push_char(out, '0');
        push_char(out, '0');
        push_char(out, hex_digit_exec(u / 16));
        push_char(out, hex_digit_exec(u % 16));
        proof {
            assert(out@ =~= o0 + escape_char(c));
        }
    } else {
        push_char(out, c);
        proof {
            assert(out@ =~= o0 + escape_char(c));
        }
    }
}

/// Append the written form of a whole string value.
fn append_escaped(out: &mut String, s: &str)
    ensures
        final(out)@ == old(out)@ + escape_string(s@),
{
    let ghost o0 = old(out)@;
    let n = s.unicode_len();
    let mut i: usize = 0;
    while i < n
        invariant
            n == s@.len(),
            i <= n,
            out@ == o0 + escape_string(s@.take(i as int)),
        decreases n - i,
    {
        let c = s.get_char(i);
        append_escaped_char(out, c);
        proof {
            assert(s@.take(i + 1 as int) =~= s@.take(i as int).push(s@[i as int]));
            lemma_escape_string_snoc(s@.take(i as int), s@[i as int]);
            assert(out@ =~= o0 + escape_string(s@.take(i + 1 as int)));
        }
        i = i + 1;
    }
    proof {
        assert(s@.take(n as int) =~= s@);
    }
}

/// Splitting a suffix of `s` as `x + t` fixes the characters under `x` and
/// the suffix after it.
proof fn lemma_suffix_parts(s: Seq<char>, i: int, x: Seq<char>, t: Seq<char>)
    requires
        0 <= i <= s.len(),
        s.subrange(i, s.len() as int) == x + t,
    ensures
        i + x.len() + t.len() == s.len(),
        s.subrange(i + x.len(), s.len() as int) == t,
        forall|j: int| i <= j < i + x.len() ==> #[trigger] s[j] == x[j - i],
{
    assert(s.subrange(i, s.len() as int).len() == x.len() + t.len());
    assert forall|j: int| i <= j < i + x.len() implies #[trigger] s[j] == x[j - i] by {
        assert(s.subrange(i, s.len() as int)[j - i] == s[j]);
        assert((x + t)[j - i] == x[j - i]);
    }
    assert(s.subrange(i + x.len(), s.len() as int) =~= t) by {
        assert forall|m: int| 0 <= m < t.len() implies s[i + x.len() + m] == t[m] by {
            assert(s.subrange(i, s.len() as int)[x.len() + m] == s[i + x.len() + m]);
            assert((x + t)[x.len() + m] == t[m]);
        }
    }
}

/// Parsing the written form of `x`, followed by the closing quote and
/// anything after it, yields exactly `x` and stops just past the quote.
proof fn lemma_parse_escaped(s: Seq<char>, i: int, x: Seq<char>, t: Seq<char>)
    requires
        0 <= i <= s.len(),
        s.subrange(i, s.len() as int) == escape_string(x) + seq!['"'] + t,
    ensures
        spec_parse_string_body(s, i) == Some((x, i + escape_string(x).len() + 1)),
    decreases x.len(),
{
    if x.len() == 0 {
        assert(escape_string(x) + seq!['"'] + t =~= seq!['"'] + t);
        lemma_suffix_parts(s, i, seq!['"'], t);
        assert(s[i] == '"');
        assert(x =~= Seq::<char>::empty());
        assert(spec_parse_string_body(s, i) == Some((Seq::<char>::empty(), i + 1)));
    } else {
        let c = x[0];
        let e = escape_char(c);
        let rest = escape_string(x.skip(1));
        assert(escape_string(x) == e + rest);
        assert(escape_string(x) + seq!['"'] + t =~= e + (rest + seq!['"'] + t));
        lemma_suffix_parts(s, i, e, rest + seq!['"'] + t);
        lemma_parse_escaped(s, i + e.len(), x.skip(1), t);
        assert(seq![c] + x.skip(1) =~= x);
        if c == '"' {
            assert(s[i] == '\\' && s[i + 1] == '"');
            assert(spec_parse_string_body(s, i) == Some((x, i + escape_string(x).len() + 1)));
        } else if c == '\\' {
            assert(s[i] == '\\' && s[i + 1] == '\\');
            assert(spec_parse_string_body(s, i) == Some((x, i + escape_string(x).len() + 1)));
        } else if (c as u32) < 0x20 {
            let u = (c as u32) as int;
            assert(s[i] == '\\' && s[i + 1] == 'u' && s[i + 2] == '0' && s[i + 3] == '0'
                && s[i + 4] == hex_digit(u / 16) && s[i + 5] == hex_digit(u % 16));
            assert(!is_short_escape('u'));
            assert(hex_val(hex_digit(u / 16)) == u / 16);
            assert(hex_val(hex_digit(u % 16)) == u % 16);
            assert(hex4(s, i + 2) == 16 * (u / 16) + (u % 16));
            assert(16 * (u / 16) + (u % 16) == u);
            assert(!is_surrogate(u));
            vstd::utf8::char_u32_cast(c, c as u32);
            assert(code_char(u) == c);
            assert(spec_parse_string_body(s, i) == Some((x, i + escape_string(x).len() + 1)));
        } else {
            assert(e =~= seq![c]);
            assert(s[i] == c);
            assert(spec_parse_string_body(s, i) == Some((x, i + escape_string(x).len() + 1)));
        }
    }
}

/// Escaping changes nothing in a string of plain characters.
proof fn lemma_escape_plain(s: Seq<char>)
    requires
        forall|k: int| 0 <= k < s.len() ==> is_plain_char(#[trigger] s[k]),
    ensures
        escape_string(s) == s,
    decreases s.len(),
{
    if s.len() == 0 {
        assert(escape_string(s) =~= s);
    } else {
        assert(is_plain_char(s[0]));
        assert forall|k: int| 0 <= k < s.skip(1).len() implies is_plain_char(
            #[trigger] s.skip(1)[k],
        ) by {
            assert(s.skip(1)[k] == s[k + 1]);
        }
        lemma_escape_plain(s.skip(1));
        assert(escape_char(s[0]) =~= seq![s[0]]);
        assert(escape_string(s) =~= s);
    }
}

proof fn lemma_keys_plain()
    ensures
        escape_string(id_key()) == id_key(),
        escape_string(jar_path_key()) == jar_path_key(),
{
    assert(id_key()[0] == 'i' && id_key()[1] == 'd');
    assert forall|k: int| 0 <= k < id_key().len() implies is_plain_char(
        #[trigger] id_key()[k],
    ) by {
        assert(k == 0 || k == 1);
    }
    lemma_escape_plain(id_key());
    assert(jar_path_key()[0] == 'j' && jar_path_key()[1] == 'a' && jar_path_key()[2] == 'r'
        && jar_path_key()[3] == '_' && jar_path_key()[4] == 'p' && jar_path_key()[5] == 'a'
        && jar_path_key()[6] == 't' && jar_path_key()[7] == 'h');
    assert forall|k: int| 0 <= k < jar_path_key().len() implies is_plain_char(
        #[trigger] jar_path_key()[k],
    ) by {
        assert(0 <= k < 8);
    }
    lemma_escape_plain(jar_path_key());
}

/// Parsing one written member — quote, plain key, quote, colon, quote,
/// escaped value, quote — yields the key and the value and stops just past
/// the value's closing quote.
proof fn lemma_parse_member_enc(s: Seq<char>, i: int, key: Seq<char>, val: Seq<char>, t: Seq<char>)
    requires
        0 <= i <= s.len(),
        escape_string(key) == key,
        s.subrange(i, s.len() as int) == seq!['"'] + key + seq!['"', ':', '"']
            + escape_string(val) + seq!['"'] + t,
    ensures
        spec_parse_member(s, i) == Some(
            (key, val, i + key.len() + escape_string(val).len() + 5),
        ),
        s.subrange(i + key.len() + escape_string(val).len() + 5, s.len() as int) == t,
{
    let n = s.len() as int;
    let ev = escape_string(val);
    let t1 = seq![':', '"'] + ev + seq!['"'] + t;
    assert(seq!['"'] + key + seq!['"', ':', '"'] + ev + seq!['"'] + t =~= seq!['"'] + (key
        + seq!['"'] + t1));
    lemma_suffix_parts(s, i, seq!['"'], key + seq!['"'] + t1);
    assert(s[i] == '"');
    lemma_parse_escaped(s, i + 1, key, t1);
    lemma_suffix_parts(s, i + 1, key + seq!['"'], t1);
    let k1: int = i + 1 + key.len() as int + 1;
    assert(s.subrange(k1, n) == t1);
    assert(t1 =~= seq![':', '"'] + (ev + seq!['"'] + t));
    lemma_suffix_parts(s, k1, seq![':', '"'], ev + seq!['"'] + t);
    assert(s[k1] == ':');
    assert(s[k1 + 1] == '"');
    lemma_parse_escaped(s, k1 + 2, val, t);
    lemma_suffix_parts(s, k1 + 2, ev + seq!['"'], t);
    assert(spec_skip_ws(s, i) == i);
    assert(spec_skip_ws(s, k1) == k1);
    assert(spec_skip_ws(s, k1 + 1) == k1 + 1);
}

/// Decoding is left inverse to encoding: every command value, written out,
/// decodes back to exactly itself — `id` and `jar_path` are preserved.
pub proof fn lemma_encode_decode_command(c: crate::schema::EventDataView)
    ensures
        spec_decode_command(spec_encode_command(c)) == Some(c),
{
    lemma_keys_plain();
    let s = spec_encode_command(c);
    let e1 = escape_string(c.id);
    let e2 = escape_string(c.jar_path);
    let n = s.len() as int;
    assert(s == obj_id_prefix() + e1 + cmd_mid() + e2 + cmd_suffix());

    let mem2 = seq!['"'] + jar_path_key() + seq!['"', ':', '"'] + e2 + seq!['"'] + seq!['}'];
    let mem1_tail = seq![','] + mem2;
    let mem1 = seq!['"'] + id_key() + seq!['"', ':', '"'] + e1 + seq!['"'] + mem1_tail;
    assert(s.subrange(0, n) =~= seq!['{'] + mem1);
    lemma_suffix_parts(s, 0, seq!['{'], mem1);
    assert(s[0] == '{');
    assert(s.subrange(1, n) =~= seq!['"'] + id_key() + seq!['"', ':', '"'] + e1 + seq!['"']
        + mem1_tail);
    lemma_parse_member_enc(s, 1, id_key(), c.id, mem1_tail);
    let m: int = 1 + id_key().len() as int + e1.len() as int + 5;
    assert(spec_parse_member(s, 1) == Some((id_key(), c.id, m)));
    assert(s.subrange(m, n) == mem1_tail);
    lemma_suffix_parts(s, m, seq![','], mem2);
    assert(s[m] == ',');
    assert(s.subrange(m + 1, n) =~= seq!['"'] + jar_path_key() + seq!['"', ':', '"'] + e2
        + seq!['"'] + seq!['}']);
    lemma_parse_member_enc(s, m + 1, jar_path_key(), c.jar_path, seq!['}']);
    let w: int = m + 1 + jar_path_key().len() as int + e2.len() as int + 5;
    assert(spec_parse_member(s, m + 1) == Some((jar_path_key(), c.jar_path, w)));
    assert(s.subrange(w, n) == seq!['}']);
    lemma_suffix_parts(s, w, seq!['}'], Seq::<char>::empty());
    assert(s[w] == '}');
    assert(w + 1 == n);
    assert(spec_skip_ws(s, 0) == 0);
    assert(spec_skip_ws(s, m) == m);
    assert(spec_skip_ws(s, w) == w);
    assert(spec_skip_ws(s, w + 1) == n);
    assert(command_of_members(id_key(), c.id, jar_path_key(), c.jar_path) == Some(c));
    assert(spec_decode_command(s) == Some(c));
}

fn append_obj_id_prefix(out: &mut String)
    ensures
        final(out)@ == old(out)@ + obj_id_prefix(),
{
    let ghost o0 = old(out)@;
    push_char(out, '{');
    push_char(out, '"');
    push_char(out, 'i');
    push_char(out, 'd');
    push_char(out, '"');
    push_char(out, ':');
    push_char(out, '"');
    proof {
        assert(out@ =~= o0 + obj_id_prefix());
    }
}

fn append_cmd_mid(out: &mut String)
    ensures
        final(out)@ == old(out)@ + cmd_mid(),
{
    let ghost o0 = old(out)@;
    push_char(out, '"');
    push_char(out, ',');
    push_char(out, '"');
    push_char(out, 'j');
    push_char(out, 'a');
    push_char(out, 'r');
    push_char(out, '_');
    push_char(out, 'p');
    push_char(out, 'a');
    push_char(out, 't');
    push_char(out, 'h');
    push_char(out, '"');
    push_char(out, ':');
    push_char(out, '"');
    proof {
        assert(out@ =~= o0 + cmd_mid());
    }
}

fn append_resp_mid_status(out: &mut String)
    ensures
        final(out)@ == old(out)@ + resp_mid_status(),
{
    let ghost o0 = old(out)@;
    push_char(out, '"');
    push_char(out, ',');
    push_char(out, '"');
    push_char(out, 's');
    push_char(out, 't');
    push_char(out, 'a');
    push_char(out, 't');
    push_char(out, 'u');
    push_char(out, 's');
    push_char(out, '"');
    push_char(out, ':');
    push_char(out, '"');
    proof {
        assert(out@ =~= o0 + resp_mid_status());
    }
}

fn append_resp_mid_content(out: &mut String)
    ensures
        final(out)@ == old(out)@ + resp_mid_content(),
{
    let ghost o0 = old(out)@;
    push_char(out, '"');
    push_char(out, ',');
    push_char(out, '"');
    push_char(out, 'c');
    push_char(out, 'o');
    push_char(out, 'n');
    push_char(out, 't');
    push_char(out, 'e');
    push_char(out, 'n');
    push_char(out, 't');
    push_char(out, '"');
    push_char(out, ':');
    push_char(out, '"');
    proof {
        assert(out@ =~= o0 + resp_mid_content());
    }
}

fn append_resp_mid_is_error(out: &mut String)
    ensures
        final(out)@ == old(out)@ + resp_mid_is_error(),
{
    let ghost o0 = old(out)@;
    push_char(out, '"');
    push_char(out, ',');
    push_char(out, '"');
    push_char(out, 'i');
    push_char(out, 's');
    push_char(out, '_');
    push_char(out, 'e');
    push_char(out, 'r');
    push_char(out, 'r');
    push_char(out, 'o');
    push_char(out, 'r');
    push_char(out, '"');
    push_char(out, ':');
    proof {
        assert(out@ =~= o0 + resp_mid_is_error());
    }
}

fn append_bool_lit(out: &mut String, b: bool)
    ensures
        final(out)@ == old(out)@ + (if b { true_lit() } else { false_lit() }),
{
    let ghost o0 = old(out)@;
    if b {
        push_char(out, 't');
        push_char(out, 'r');
        push_char(out, 'u');
        push_char(out, 'e');
        proof {
            assert(out@ =~= o0 + true_lit());
        }
    } else {
        push_char(out, 'f');
        push_char(out, 'a');
        push_char(out, 'l');
        push_char(out, 's');
        push_char(out, 'e');
        proof {
            assert(out@ =~= o0 + false_lit());
        }
    }
}

/// Encode one command. Total: every command has exactly this written form.
pub fn encode_command(cmd: &crate::schema::EventData) -> (r: String)
    ensures
        r@ == spec_encode_command(cmd@),
{
    let mut out = String::new();
    append_obj_id_prefix(&mut out);
    append_escaped(&mut out, cmd.id.as_str());
    append_cmd_mid(&mut out);
    append_escaped(&mut out, cmd.jar_path.as_str());
    let ghost p = out@;
    push_char(&mut out, '"');
    push_char(&mut out, '}');
    proof {
        assert(out@ =~= p + cmd_suffix());
        assert(Seq::<char>::empty() + obj_id_prefix() =~= obj_id_prefix());
        assert(out@ == spec_encode_command(cmd@));
    }
    out
}

/// Encode one response. Total: every response has exactly this written form,
/// so encoding cannot fail for any well-formed response value.
pub fn encode_response(resp: &crate::schema::EventResponse) -> (r: String)
    ensures
        r@ == spec_encode_response(resp@),
{
    let mut out = String::new();
    append_obj_id_prefix(&mut out);
    append_escaped(&mut out, resp.id.as_str());
    append_resp_mid_status(&mut out);
    append_escaped(&mut out, resp.status.as_str());
    append_resp_mid_content(&mut out);
    append_escaped(&mut out, resp.content.as_str());
    append_resp_mid_is_error(&mut out);
    append_bool_lit(&mut out, resp.is_error);
    let ghost p = out@;
    push_char(&mut out, '}');
    proof {
        assert(out@ =~= p + seq!['}']);
        assert(Seq::<char>::empty() + obj_id_prefix() =~= obj_id_prefix());
        assert(out@ == spec_encode_response(resp@));
    }
    out
}

/// The characters of a string slice, in order.
fn str_to_chars(s: &str) -> (v: Vec<char>)
    ensures
        v@ == s@,
{
    let n = s.unicode_len();
    let mut v: Vec<char> = Vec::new();
    let mut i: usize = 0;
    while i < n
        invariant
            n == s@.len(),
            i <= n,
            v@ == s@.take(i as int),
        decreases n - i,
    {
        let c = s.get_char(i);
        v.push(c);
        proof {
            assert(s@.take(i + 1 as int) =~= s@.take(i as int).push(s@[i as int]));
        }
        i = i + 1;
    }
    proof {
        assert(s@.take(n as int) =~= s@);
    }
    v
}

/// A string holding exactly the given characters.
fn chars_to_string(v: &Vec<char>) -> (s: String)
    ensures
        s@ == v@,
{
    let mut s = String::new();
    let mut i: usize = 0;
    while i < v.len()
        invariant
            i <= v.len(),
            s@ == v@.take(i as int),
        decreases v.len() - i,
    {
        push_char(&mut s, v[i]);
        proof {
            assert(v@.take(i + 1 as int) =~= v@.take(i as int).push(v@[i as int]));
        }
        i = i + 1;
    }
    proof {
        assert(v@.take(v.len() as int) =~= v@);
    }
    s
}

fn skip_ws(s: &Vec<char>, i: usize) -> (j: usize)
    requires
        i <= s.len(),
    ensures
        j as int == spec_skip_ws(s@, i as int),
        i <= j <= s.len(),
    decreases s.len() - i,
{
    if i < s.len() && (s[i] == ' ' || s[i] == '\t' || s[i] == '\n' || s[i] == '\r') {
        skip_ws(s, i + 1)
    } else {
        i
    }
}

fn hex_val_exec(c: char) -> (r: i32)
    ensures
        r as int == hex_val(c),
{
    if c == '0' { 0 }
    else if c == '1' { 1 }
    else if c == '2' { 2 }
    else if c == '3' { 3 }
    else if c == '4' { 4 }
    else if c == '5' { 5 }
    else if c == '6' { 6 }
    else if c == '7' { 7 }
    else if c == '8' { 8 }
    else if c == '9' { 9 }
    else if c == 'a' || c == 'A' { 10 }
    else if c == 'b' || c == 'B' { 11 }
    else if c == 'c' || c == 'C' { 12 }
    else if c == 'd' || c == 'D' { 13 }
    else if c == 'e' || c == 'E' { 14 }
    else if c == 'f' || c == 'F' { 15 }
    else { -1 }
}

fn parse_string_body(s: &Vec<char>, i: usize) -> (r: Option<(Vec<char>, usize)>)
    requires
        i <= s.len(),
    ensures
        match r {
            Some(p) => spec_parse_string_body(s@, i as int) == Some((p.0@, p.1 as int))
                && i < p.1 <= s.len(),
            None => spec_parse_string_body(s@, i as int) is None,
        },
    decreases s.len() - i,
{
    if i == s.len() {
        return None;
    }
    let c = s[i];
    if c == '"' {
        return Some((Vec::new(), i + 1));
    }
    if c == '\\' {
        if s.len() - i >= 2
            && (s[i + 1] == '"' || s[i + 1] == '\\' || s[i + 1] == '/' || s[i + 1] == 'b'
                || s[i + 1] == 'f' || s[i + 1] == 'n' || s[i + 1] == 'r' || s[i + 1] == 't') {
            let e = s[i + 1];
            let decoded: char = if e == '"' { '"' }
                else if e == '\\' { '\\' }
                else if e == '/' { '/' }
                else if e == 'b' { '\u{8}' }
                else if e == 'f' { '\u{c}' }
                else if e == 'n' { '\n' }
                else if e == 'r' { '\r' }
                else { '\t' };
            match parse_string_body(s, i + 2) {
                Some((mut t, j)) => {
                    let ghost t0 = t@;
                    t.insert(0, decoded);
                    proof {
                        assert(t@ =~= seq![short_escape_char(s@[i as int + 1])] + t0);
                    }
                    Some((t, j))
                },
                None => None,
            }
        } else if s.len() - i >= 6 && s[i + 1] == 'u' {
            let a = hex_val_exec(s[i + 2]);
            let b = hex_val_exec(s[i + 3]);
            let x = hex_val_exec(s[i + 4]);
            let y = hex_val_exec(s[i + 5]);
            if a >= 0 && b >= 0 && x >= 0 && y >= 0 {
                let n: u32 = 4096 * (a as u32) + 256 * (b as u32) + 16 * (x as u32)
                    + (y as u32);
                if 0xD800 <= n && n <= 0xDFFF {
                    return None;
                }
                match char_from_u32(n) {
                    Some(decoded) => {
                        match parse_string_body(s, i + 6) {
                            Some((mut t, j)) => {
                                let ghost t0 = t@;
                                t.insert(0, decoded);
                                proof {
                                    vstd::utf8::char_u32_cast(decoded, n);
                                    assert(n as int == hex4(s@, i as int + 2));
                                    assert(decoded == code_char(hex4(s@, i as int + 2)));
                                    assert(t@ =~= seq![code_char(hex4(s@, i as int + 2))] + t0);
                                }
                                Some((t, j))
                            },
                            None => None,
                        }
                    },
                    None => {
                        proof {
                            assert(false);
                        }
                        None
                    },
                }
            } else {
                None
            }
        } else {
            None
        }
    } else if (c as u32) < 0x20 {
        None
    } else {
        match parse_string_body(s, i + 1) {
            Some((mut t, j)) => {
                let ghost t0 = t@;
                t.insert(0, c);
                proof {
                    assert(t@ =~= seq![s@[i as int]] + t0);
                }
                Some((t, j))
            },
            None => None,
        }
    }
}

fn parse_member(s: &Vec<char>, i: usize) -> (r: Option<(Vec<char>, Vec<char>, usize)>)
    requires
        i <= s.len(),
    ensures
        match r {
            Some(p) => spec_parse_member(s@, i as int) == Some((p.0@, p.1@, p.2 as int))
                && i < p.2 <= s.len(),
            None => spec_parse_member(s@, i as int) is None,
        },
{
    let k0 = skip_ws(s, i);
    if !(k0 < s.len() && s[k0] == '"') {
        return None;
    }
    match parse_string_body(s, k0 + 1) {
        Some((key, k1)) => {
            let k2 = skip_ws(s, k1);
            if !(k2 < s.len() && s[k2] == ':') {
                return None;
            }
            let k3 = skip_ws(s, k2 + 1);
            if !(k3 < s.len() && s[k3] == '"') {
                return None;
            }
            match parse_string_body(s, k3 + 1) {
                Some((val, k4)) => Some((key, val, k4)),
                None => None,
            }
        },
        None => None,
    }
}

fn is_id_key(k: &Vec<char>) -> (r: bool)
    ensures
        r == (k@ == id_key()),
{
    if k.len() == 2 && k[0] == 'i' && k[1] == 'd' {
        proof {
            assert(k@ =~= id_key());
        }
        true
    } else {
        proof {
            if k@ == id_key() {
                assert(k@.len() == 2);
                assert(k@[0] == 'i' && k@[1] == 'd');
            }
        }
        false
    }
}

fn is_jar_path_key(k: &Vec<char>) -> (r: bool)
    ensures
        r == (k@ == jar_path_key()),
{
    if k.len() == 8 && k[0] == 'j' && k[1] == 'a' && k[2] == 'r' && k[3] == '_' && k[4] == 'p'
        && k[5] == 'a' && k[6] == 't' && k[7] == 'h' {
        proof {
            assert(k@ =~= jar_path_key());
        }
        true
    } else {
        proof {
            if k@ == jar_path_key() {
                assert(k@.len() == 8);
                assert(k@[0] == 'j' && k@[1] == 'a' && k@[2] == 'r' && k@[3] == '_'
                    && k@[4] == 'p' && k@[5] == 'a' && k@[6] == 't' && k@[7] == 'h');
            }
        }
        false
    }
}

/// Decode one command payload. Succeeds exactly on the payloads the grammar
/// admits, and then returns exactly the command the grammar assigns to them;
/// every other payload is `Malformed`.
pub fn decode_command(payload: &str) -> (r: Result<crate::schema::EventData, DecodeError>)
    ensures
        match r {
            Ok(cmd) => spec_decode_command(payload@) == Some(cmd@),
            Err(e) => spec_decode_command(payload@) is None && e == DecodeError::Malformed,
        },
{
    let chars = str_to_chars(payload);
    let i0 = skip_ws(&chars, 0);
    if !(i0 < chars.len() && chars[i0] == '{') {
        return Err(DecodeError::Malformed);
    }
    let m1 = parse_member(&chars, i0 + 1);
    match m1 {
        Some((k1, v1, i1)) => {
            let i2 = skip_ws(&chars, i1);
            if !(i2 < chars.len() && chars[i2] == ',') {
                return Err(DecodeError::Malformed);
            }
            match parse_member(&chars, i2 + 1) {
                Some((k2, v2, i3)) => {
                    let i4 = skip_ws(&chars, i3);
                    if !(i4 < chars.len() && chars[i4] == '}') {
                        return Err(DecodeError::Malformed);
                    }
                    if skip_ws(&chars, i4 + 1) != chars.len() {
                        return Err(DecodeError::Malformed);
                    }
                    if is_id_key(&k1) && is_jar_path_key(&k2) {
                        Ok(crate::schema::EventData {
                            id: chars_to_string(&v1),
                            jar_path: chars_to_string(&v2),
                        })
                    } else if is_jar_path_key(&k1) && is_id_key(&k2) {
                        Ok(crate::schema::EventData {
                            id: chars_to_string(&v2),
                            jar_path: chars_to_string(&v1),
                        })
                    } else {
                        Err(DecodeError::Malformed)
                    }
                },
                None => Err(DecodeError::Malformed),
            }
        },
        None => Err(DecodeError::Malformed),
    }
}

} // verus!
