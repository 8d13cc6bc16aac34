//! The wire format this plugin speaks: the JSON payload a share request
//! carries, and the JSON envelope a native share event arrives in.
//!
//! The grammar is small and fixed. A request payload is the canonical object
//! `{"text":<string>,"options":<options>}`, where `<options>` holds the
//! members `mimeType` and `title` in that order, each present exactly when the
//! corresponding hint is set. An event envelope is an object holding exactly
//! the members `mimeType` and `data`, in either order, with JSON whitespace
//! allowed between tokens. String literals use the standard JSON escapes
//! (`\" \\ \/ \b \f \n \r \t` and `\uXXXX` for scalars in the basic plane;
//! surrogate pairs are not accepted).

use vstd::prelude::*;
use vstd::string::StrSliceExecFns;
use vstd::string::StringExecFns;
use vstd::utf8::is_scalar;

use crate::models::{OptionsView, PayloadView, ShareEvent, ShareEventView, SharesheetOptions,
    SharesheetPayload};

verus! {

// ===========================================================================
// Characters
// ===========================================================================

/// JSON insignificant whitespace.
pub open spec fn is_json_ws(c: char) -> bool {
    c == ' ' || c == '\t' || c == '\n' || c == '\r'
}

/// The lower-case hexadecimal digit with value `n`.
pub open spec fn hex_digit(n: u32) -> char
    recommends
        n < 16,
{
    if n == 0 { '0' } else if n == 1 { '1' } else if n == 2 { '2' } else if n == 3 { '3' }
    else if n == 4 { '4' } else if n == 5 { '5' } else if n == 6 { '6' } else if n == 7 { '7' }
    else if n == 8 { '8' } else if n == 9 { '9' } else if n == 10 { 'a' } else if n == 11 { 'b' }
    else if n == 12 { 'c' } else if n == 13 { 'd' } else if n == 14 { 'e' } else { 'f' }
}

/// The value of a hexadecimal digit, either case; `None` for any other
/// character.
pub open spec fn hex_val(c: char) -> Option<u32> {
    if c == '0' { Some(0u32) } else if c == '1' { Some(1u32) } else if c == '2' { Some(2u32) }
    else if c == '3' { Some(3u32) } else if c == '4' { Some(4u32) } else if c == '5' { Some(5u32) }
    else if c == '6' { Some(6u32) } else if c == '7' { Some(7u32) } else if c == '8' { Some(8u32) }
    else if c == '9' { Some(9u32) } else if c == 'a' || c == 'A' { Some(10u32) }
    else if c == 'b' || c == 'B' { Some(11u32) } else if c == 'c' || c == 'C' { Some(12u32) }
    else if c == 'd' || c == 'D' { Some(13u32) } else if c == 'e' || c == 'E' { Some(14u32) }
    else if c == 'f' || c == 'F' { Some(15u32) } else { None }
}

fn hex_digit_x(n: u32) -> (c: char)
    requires
        n < 16,
    ensures
        c == hex_digit(n),
{
    if n == 0 { '0' } else if n == 1 { '1' } else if n == 2 { '2' } else if n == 3 { '3' }
    else if n == 4 { '4' } else if n == 5 { '5' } else if n == 6 { '6' } else if n == 7 { '7' }
    else if n == 8 { '8' } else if n == 9 { '9' } else if n == 10 { 'a' } else if n == 11 { 'b' }
    else if n == 12 { 'c' } else if n == 13 { 'd' } else if n == 14 { 'e' } else { 'f' }
}

fn hex_val_x(c: char) -> (v: Option<u32>)
    ensures
        v == hex_val(c),
{
    if c == '0' { Some(0u32) } else if c == '1' { Some(1u32) } else if c == '2' { Some(2u32) }
    else if c == '3' { Some(3u32) } else if c == '4' { Some(4u32) } else if c == '5' { Some(5u32) }
    else if c == '6' { Some(6u32) } else if c == '7' { Some(7u32) } else if c == '8' { Some(8u32) }
    else if c == '9' { Some(9u32) } else if c == 'a' || c == 'A' { Some(10u32) }
    else if c == 'b' || c == 'B' { Some(11u32) } else if c == 'c' || c == 'C' { Some(12u32) }
    else if c == 'd' || c == 'D' { Some(13u32) } else if c == 'e' || c == 'E' { Some(14u32) }
    else if c == 'f' || c == 'F' { Some(15u32) } else { None }
}

// ===========================================================================
// Trusted items around std
// ===========================================================================

/// Relies on `String::push`: appends exactly the one given character.
#[verifier::external_body]
fn push_char(s: &mut String, c: char)
    ensures
        final(s)@ == old(s)@.push(c),
{
    s.push(c);
}

/// Relies on `char::from_u32`: yields the character with the given Unicode
/// scalar value, and `None` exactly on surrogates and values past the scalar
/// range.
#[verifier::external_body]
fn char_from_u32(v: u32) -> (r: Option<char>)
    ensures
        r == (if is_scalar(v) { Some(v as char) } else { None::<char> }),
{
    char::from_u32(v)
}

// ===========================================================================
// Verified character access
// ===========================================================================

/// The characters of `s`, in order.
pub fn chars_of(s: &str) -> (r: Vec<char>)
    ensures
        r@ == s@,
{
    let n = s.unicode_len();
    let mut r: Vec<char> = Vec::new();
    let mut i: usize = 0;
    while i < n
        invariant
            i <= n,
            n as nat == s@.len(),
            r@ == s@.take(i as int),
        decreases n - i,
    {
        r.push(s.get_char(i));
        proof {
            assert(r@ =~= s@.take(i as int + 1));
        }
        i = i + 1;
    }
    proof {
        assert(s@.take(n as int) =~= s@);
    }
    r
}

// ===========================================================================
// Escaping (the encoder side)
// ===========================================================================

/// The escape of one character inside a JSON string literal: quote and
/// backslash get a two-character escape, control characters a `\u00XX`
/// escape, and every other character stands for itself.
pub open spec fn escape_char(c: char) -> Seq<char> {
    if c == '"' {
        seq!['\\', '"']
    } else if c == '\\' {
        seq!['\\', '\\']
    } else if (c as u32) < 0x20 {
        seq!['\\', 'u', '0', '0', hex_digit((c as u32) / 16), hex_digit((c as u32) % 16)]
    } else {
        seq![c]
    }
}

/// A whole string escaped, character by character.
pub open spec fn escape_string(s: Seq<char>) -> Seq<char>
    decreases s.len(),
{
    if s.len() == 0 {
        Seq::empty()
    } else {
        escape_char(s[0]) + escape_string(s.drop_first())
    }
}

/// `s` as a JSON string literal: quoted and escaped.
pub open spec fn quoted(s: Seq<char>) -> Seq<char> {
    seq!['"'] + escape_string(s) + seq!['"']
}

/// Escaping distributes over appending one character at the end.
proof fn lemma_escape_push(s: Seq<char>, c: char)
    ensures
        escape_string(s.push(c)) == escape_string(s) + escape_char(c),
    decreases s.len(),
{
    if s.len() == 0 {
        assert(s.push(c)[0] == c);
        assert(s.push(c).drop_first() =~= Seq::<char>::empty());
        assert(escape_string(s.push(c)) == escape_char(c) + escape_string(Seq::<char>::empty()));
        assert(escape_string(Seq::<char>::empty()) == Seq::<char>::empty());
        assert(escape_string(s.push(c)) =~= escape_string(s) + escape_char(c));
    } else {
        let t = s.drop_first();
        assert(s.push(c)[0] == s[0]);
        assert(s.push(c).drop_first() =~= t.push(c));
        assert(escape_string(s.push(c)) == escape_char(s[0]) + escape_string(t.push(c)));
        lemma_escape_push(t, c);
        assert(escape_string(s) == escape_char(s[0]) + escape_string(t));
        assert(escape_string(s.push(c)) =~= escape_string(s) + escape_char(c));
    }
}

/// Appends the JSON-escaped form of `s` to `out`.
fn append_escaped(out: &mut String, s: &str)
    ensures
        final(out)@ == old(out)@ + escape_string(s@),
{
    let cs = chars_of(s);
    let mut i: usize = 0;
    proof {
        assert(s@.take(0) =~= Seq::<char>::empty());
        assert(out@ =~= old(out)@ + escape_string(s@.take(0)));
    }
    while i < cs.len()
        invariant
            i <= cs.len(),
            cs@ == s@,
            out@ == old(out)@ + escape_string(s@.take(i as int)),
        decreases cs.len() - i,
    {
        let c = cs[i];
        proof {
            lemma_escape_push(s@.take(i as int), c);
            assert(s@.take(i as int + 1) =~= s@.take(i as int).push(c));
        }
        if c == '"' {
            push_char(out, '\\');
            push_char(out, '"');
        } else if c == '\\' {
            push_char(out, '\\');
            push_char(out, '\\');
        } else if (c as u32) < 0x20 {
            let v = c as u32;
            push_char(out, '\\');
            push_char(out, 'u');
            push_char(out, '0');
            push_char(out, '0');
            push_char(out, hex_digit_x(v / 16));
            push_char(out, hex_digit_x(v % 16));
        } else {
            push_char(out, c);
        }
        proof {
            assert(out@ =~= old(out)@ + escape_string(s@.take(i as int + 1)));
        }
        i = i + 1;
    }
    proof {
        assert(s@.take(cs@.len() as int) =~= s@);
    }
}

/// Appends `s` as a JSON string literal (quoted and escaped) to `out`.
fn append_quoted(out: &mut String, s: &str)
    ensures
        final(out)@ == old(out)@ + quoted(s@),
{
    push_char(out, '"');
    append_escaped(out, s);
    push_char(out, '"');
    proof {
        assert(out@ =~= old(out)@ + quoted(s@));
    }
}

// ===========================================================================
// The canonical wire forms (the encoder's output)
// ===========================================================================

/// The wire form of the options object: `mimeType` then `title`, each present
/// exactly when the hint is set.
pub open spec fn options_json(o: OptionsView) -> Seq<char> {
    match (o.mime_type, o.title) {
        (None, None) => "{}"@,
        (Some(m), None) => "{\"mimeType\":"@ + quoted(m) + "}"@,
        (None, Some(t)) => "{\"title\":"@ + quoted(t) + "}"@,
        (Some(m), Some(t)) => "{\"mimeType\":"@ + quoted(m) + ",\"title\":"@ + quoted(t) + "}"@,
    }
}

/// The wire form of a whole share-request payload.
pub open spec fn payload_json(p: PayloadView) -> Seq<char> {
    "{\"text\":"@ + quoted(p.text) + ",\"options\":"@ + options_json(p.options) + "}"@
}

/// The wire form of a share event, as native code sends it.
pub open spec fn event_json(e: ShareEventView) -> Seq<char> {
    "{\"mimeType\":"@ + quoted(e.mime_type) + ",\"data\":"@ + quoted(e.data) + "}"@
}

/// Appends the wire form of the options object to `out`.
fn append_options(out: &mut String, o: &SharesheetOptions)
    ensures
        final(out)@ == old(out)@ + options_json(o@),
{
    match (&o.mime_type, &o.title) {
        (None, None) => {
            out.append("{}");
        }
        (Some(m), None) => {
            out.append("{\"mimeType\":");
            append_quoted(out, m.as_str());
            out.append("}");
        }
        (None, Some(t)) => {
            out.append("{\"title\":");
            append_quoted(out, t.as_str());
            out.append("}");
        }
        (Some(m), Some(t)) => {
            out.append("{\"mimeType\":");
            append_quoted(out, m.as_str());
            out.append(",\"title\":");
            append_quoted(out, t.as_str());
            out.append("}");
        }
    }
    proof {
        assert(out@ =~= old(out)@ + options_json(o@));
    }
}

/// The wire payload of a "share text" request: exactly the canonical JSON
/// form of the given payload.
pub fn encode_share_payload(p: &SharesheetPayload) -> (r: String)
    ensures
        r@ == payload_json(p@),
{
    let mut out = String::new();
    out.append("{\"text\":");
    append_quoted(&mut out, p.text.as_str());
    out.append(",\"options\":");
    append_options(&mut out, &p.options);
    out.append("}");
    proof {
        assert(out@ =~= payload_json(p@));
    }
    out
}

// ===========================================================================
// The parser (spec side)
// ===========================================================================

/// The first index at or after `i` holding a non-whitespace character, or the
/// end of `s`.
pub open spec fn skip_ws(s: Seq<char>, i: int) -> int
    decreases s.len() - i,
{
    if i < 0 || i >= s.len() {
        i
    } else if is_json_ws(s[i]) {
        skip_ws(s, i + 1)
    } else {
        i
    }
}

/// The character a one-letter escape stands for; `None` for any other letter.
pub open spec fn simple_escape_char(c: char) -> Option<char> {
    if c == '"' { Some('"') } else if c == '\\' { Some('\\') } else if c == '/' { Some('/') }
    else if c == 'b' { Some('\u{8}') } else if c == 'f' { Some('\u{c}') }
    else if c == 'n' { Some('\n') } else if c == 'r' { Some('\r') }
    else if c == 't' { Some('\t') } else { None }
}

/// The character a `\uXXXX` escape stands for, reading the four hexadecimal
/// digits at `i`; `None` when a digit is missing or the value is a surrogate.
pub open spec fn parse_u_hex(s: Seq<char>, i: int) -> Option<char> {
    if i < 0 || i + 4 > s.len() {
        None
    } else {
        match (hex_val(s[i]), hex_val(s[i + 1]), hex_val(s[i + 2]), hex_val(s[i + 3])) {
            (Some(a), Some(b), Some(c), Some(d)) => {
                let v = (a as int) * 4096 + (b as int) * 256 + (c as int) * 16 + (d as int);
                if is_scalar(v as u32) {
                    Some((v as u32) as char)
                } else {
                    None
                }
            }
            _ => None,
        }
    }
}

/// Decodes the body of a JSON string literal starting at `i`, just past the
/// opening quote: the index just past the closing quote, and the decoded
/// characters. `None` on a raw control character, a bad escape, or a missing
/// closing quote.
pub open spec fn parse_string_body(s: Seq<char>, i: int) -> Option<(int, Seq<char>)>
    decreases s.len() - i,
{
    if i < 0 || i >= s.len() {
        None
    } else if s[i] == '"' {
        Some((i + 1, Seq::empty()))
    } else if s[i] == '\\' {
        if i + 1 < s.len() && s[i + 1] == 'u' {
            match parse_u_hex(s, i + 2) {
                Some(d) => match parse_string_body(s, i + 6) {
                    Some((k, rest)) => Some((k, seq![d] + rest)),
                    None => None,
                },
                None => None,
            }
        } else if i + 1 < s.len() {
            match simple_escape_char(s[i + 1]) {
                Some(d) => match parse_string_body(s, i + 2) {
                    Some((k, rest)) => Some((k, seq![d] + rest)),
                    None => None,
                },
                None => None,
            }
        } else {
            None
        }
    } else if (s[i] as u32) < 0x20 {
        None
    } else {
        match parse_string_body(s, i + 1) {
            Some((k, rest)) => Some((k, seq![s[i]] + rest)),
            None => None,
        }
    }
}

/// A `"key":"value"` member starting at `i`, whitespace allowed around the
/// colon and before the key: the index just past the value, the key, and the
/// value.
pub open spec fn parse_member(s: Seq<char>, i: int) -> Option<(int, Seq<char>, Seq<char>)> {
    let k0 = skip_ws(s, i);
    if k0 < s.len() && s[k0] == '"' {
        match parse_string_body(s, k0 + 1) {
            Some((k1, key)) => {
                let k2 = skip_ws(s, k1);
                if k2 < s.len() && s[k2] == ':' {
                    let k3 = skip_ws(s, k2 + 1);
                    if k3 < s.len() && s[k3] == '"' {
                        match parse_string_body(s, k3 + 1) {
                            Some((k4, val)) => Some((k4, key, val)),
                            None => None,
                        }
                    } else {
                        None
                    }
                } else {
                    None
                }
            }
            None => None,
        }
    } else {
        None
    }
}

/// The share-event envelope: a JSON object holding exactly the members
/// `mimeType` and `data`, in either order, whitespace allowed between tokens.
pub open spec fn parse_event_envelope(s: Seq<char>) -> Option<ShareEventView> {
    let i0 = skip_ws(s, 0);
    if i0 < s.len() && s[i0] == '{' {
        match parse_member(s, i0 + 1) {
            Some((i1, key1, val1)) => {
                let i2 = skip_ws(s, i1);
                if i2 < s.len() && s[i2] == ',' {
                    match parse_member(s, i2 + 1) {
                        Some((i3, key2, val2)) => {
                            let i4 = skip_ws(s, i3);
                            if i4 < s.len() && s[i4] == '}' && skip_ws(s, i4 + 1) == s.len() {
                                if key1 == "mimeType"@ && key2 == "data"@ {
                                    Some(ShareEventView { mime_type: val1, data: val2 })
                                } else if key1 == "data"@ && key2 == "mimeType"@ {
                                    Some(ShareEventView { mime_type: val2, data: val1 })
                                } else {
                                    None
                                }
                            } else {
                                None
                            }
                        }
                        None => None,
                    }
                } else {
                    None
                }
            }
            None => None,
        }
    } else {
        None
    }
}

// ===========================================================================
// The parser (exec side)
// ===========================================================================

fn is_ws_x(c: char) -> (r: bool)
    ensures
        r == is_json_ws(c),
{
    c == ' ' || c == '\t' || c == '\n' || c == '\r'
}

fn simple_escape_x(c: char) -> (r: Option<char>)
    ensures
        r == simple_escape_char(c),
{
    if c == '"' { Some('"') } else if c == '\\' { Some('\\') } else if c == '/' { Some('/') }
    else if c == 'b' { Some('\u{8}') } else if c == 'f' { Some('\u{c}') }
    else if c == 'n' { Some('\n') } else if c == 'r' { Some('\r') }
    else if c == 't' { Some('\t') } else { None }
}

fn skip_ws_x(v: &Vec<char>, i: usize) -> (j: usize)
    requires
        i <= v@.len(),
    ensures
        j as int == skip_ws(v@, i as int),
        i <= j <= v@.len(),
{
    let mut j = i;
    while j < v.len() && is_ws_x(v[j])
        invariant
            i <= j <= v@.len(),
            skip_ws(v@, i as int) == skip_ws(v@, j as int),
        decreases v@.len() - j,
    {
        j = j + 1;
    }
    j
}

/// Decodes the body of a JSON string literal; mirrors `parse_string_body`.
fn scan_string_body(v: &Vec<char>, start: usize) -> (r: Option<(usize, String)>)
    requires
        start <= v@.len(),
    ensures
        (match (r, parse_string_body(v@, start as int)) {
            (Some((j, d)), Some((sj, sd))) => j as int == sj && d@ == sd && j <= v@.len(),
            (None, None) => true,
            _ => false,
        }),
{
    let mut i: usize = start;
    let mut out = String::new();
    loop
        invariant
            start <= i <= v@.len(),
            (match parse_string_body(v@, i as int) {
                Some((sj, sd)) => parse_string_body(v@, start as int) == Some((sj, out@ + sd)),
                None => parse_string_body(v@, start as int) is None,
            }),
        decreases v@.len() - i,
    {
        if i >= v.len() {
            return None;
        }
        let c = v[i];
        if c == '"' {
            proof {
                assert(out@ + Seq::<char>::empty() =~= out@);
            }
            return Some((i + 1, out));
        } else if c == '\\' {
            if i + 1 < v.len() && v[i + 1] == 'u' {
                if v.len() - i < 6 {
                    return None;
                }
                let ha = hex_val_x(v[i + 2]);
                let hb = hex_val_x(v[i + 3]);
                let hc = hex_val_x(v[i + 4]);
                let hd = hex_val_x(v[i + 5]);
                match (ha, hb, hc, hd) {
                    (Some(a), Some(b), Some(c2), Some(d)) => {
                        let val: u32 = a * 4096 + b * 256 + c2 * 16 + d;
                        match char_from_u32(val) {
                            Some(dc) => {
                                proof {
                                    assert(parse_u_hex(v@, i as int + 2) == Some(dc));
                                }
                                let ghost out0 = out@;
                                push_char(&mut out, dc);
                                proof {
                                    match parse_string_body(v@, i as int + 6) {
                                        Some((k, rest)) => {
                                            assert(out0 + (seq![dc] + rest) =~= out@ + rest);
                                        }
                                        None => {}
                                    }
                                }
                                i = i + 6;
                            }
                            None => {
                                proof {
                                    assert(parse_u_hex(v@, i as int + 2) is None);
                                }
                                return None;
                            }
                        }
                    }
                    _ => {
                        return None;
                    }
                }
            } else if i + 1 < v.len() {
                match simple_escape_x(v[i + 1]) {
                    Some(d) => {
                        let ghost out0 = out@;
                        push_char(&mut out, d);
                        proof {
                            match parse_string_body(v@, i as int + 2) {
                                Some((k, rest)) => {
                                    assert(out0 + (seq![d] + rest) =~= out@ + rest);
                                }
                                None => {}
                            }
                        }
                        i = i + 2;
                    }
                    None => {
                        return None;
                    }
                }
            } else {
                return None;
            }
        } else if (c as u32) < 0x20 {
            return None;
        } else {
            let ghost out0 = out@;
            push_char(&mut out, c);
            proof {
                match parse_string_body(v@, i as int + 1) {
                    Some((k, rest)) => {
                        assert(out0 + (seq![c] + rest) =~= out@ + rest);
                    }
                    None => {}
                }
            }
            i = i + 1;
        }
    }
}

/// Reads one `"key":"value"` member; mirrors `parse_member`.
fn scan_member(v: &Vec<char>, i: usize) -> (r: Option<(usize, String, String)>)
    requires
        i <= v@.len(),
    ensures
        (match (r, parse_member(v@, i as int)) {
            (Some((j, k, val)), Some((sj, sk, sv))) => j as int == sj && k@ == sk && val@ == sv
                && j <= v@.len(),
            (None, None) => true,
            _ => false,
        }),
{
    let k0 = skip_ws_x(v, i);
    if !(k0 < v.len() && v[k0] == '"') {
        return None;
    }
    let (k1, key) = match scan_string_body(v, k0 + 1) {
        Some(t) => t,
        None => {
            return None;
        }
    };
    let k2 = skip_ws_x(v, k1);
    if !(k2 < v.len() && v[k2] == ':') {
        return None;
    }
    let k3 = skip_ws_x(v, k2 + 1);
    if !(k3 < v.len() && v[k3] == '"') {
        return None;
    }
    let (k4, val) = match scan_string_body(v, k3 + 1) {
        Some(t) => t,
        None => {
            return None;
        }
    };
    Some((k4, key, val))
}

/// Decodes the JSON envelope of one native share event: the event when the
/// text is exactly an envelope object (members `mimeType` and `data`, either
/// order), and `None` on any other text.
pub fn decode_share_event(s: &str) -> (r: Option<ShareEvent>)
    ensures
        (match r {
            Some(e) => parse_event_envelope(s@) == Some(e@),
            None => parse_event_envelope(s@) is None,
        }),
{
    let v = chars_of(s);
    let i0 = skip_ws_x(&v, 0);
    if !(i0 < v.len() && v[i0] == '{') {
        return None;
    }
    let (i1, key1, val1) = match scan_member(&v, i0 + 1) {
        Some(t) => t,
        None => {
            return None;
        }
    };
    let i2 = skip_ws_x(&v, i1);
    if !(i2 < v.len() && v[i2] == ',') {
        return None;
    }
    let (i3, key2, val2) = match scan_member(&v, i2 + 1) {
        Some(t) => t,
        None => {
            return None;
        }
    };
    let i4 = skip_ws_x(&v, i3);
    if !(i4 < v.len() && v[i4] == '}') {
        return None;
    }
    let after = skip_ws_x(&v, i4 + 1);
    if after != v.len() {
        return None;
    }
    let mime_k = String::from_str("mimeType");
    let data_k = String::from_str("data");
    if key1 == mime_k && key2 == data_k {
        Some(ShareEvent { mime_type: val1, data: val2 })
    } else if key1 == data_k && key2 == mime_k {
        Some(ShareEvent { mime_type: val2, data: val1 })
    } else {
        None
    }
}

/// The wire envelope of a share event: exactly the canonical JSON form.
pub fn encode_share_event(e: &ShareEvent) -> (r: String)
    ensures
        r@ == event_json(e@),
{
    let mut out = String::new();
    out.append("{\"mimeType\":");
    append_quoted(&mut out, e.mime_type.as_str());
    out.append(",\"data\":");
    append_quoted(&mut out, e.data.as_str());
    out.append("}");
    proof {
        assert(out@ =~= event_json(e@));
    }
    out
}

// ===========================================================================
// Round-trip laws: what the encoder writes, the grammar reads back unchanged
// ===========================================================================

/// A hexadecimal digit reads back as its value.
proof fn lemma_hex_digit_val(n: u32)
    requires
        n < 16,
    ensures
        hex_val(hex_digit(n)) == Some(n),
{
}

/// When a literal stands at `i` of `s`, each of its characters stands at its
/// offset.
proof fn lemma_lit_index(s: Seq<char>, i: int, lit: Seq<char>, k: int)
    requires
        0 <= i,
        0 <= k < lit.len(),
        i + lit.len() <= s.len(),
        s.subrange(i, i + lit.len() as int) == lit,
    ensures
        s[i + k] == lit[k],
{
    assert(s.subrange(i, i + lit.len() as int)[k] == lit[k]);
}

/// When a literal stands at `i` of `s`, each of its slices stands at its
/// offset.
proof fn lemma_lit_slice(s: Seq<char>, i: int, lit: Seq<char>, a: int, b: int)
    requires
        0 <= i,
        0 <= a <= b <= lit.len(),
        i + lit.len() <= s.len(),
        s.subrange(i, i + lit.len() as int) == lit,
    ensures
        s.subrange(i + a, i + b) == lit.subrange(a, b),
{
    assert forall|k: int| 0 <= k < b - a implies s.subrange(i + a, i + b)[k] == lit.subrange(
        a,
        b,
    )[k] by {
        assert(s.subrange(i, i + lit.len() as int)[a + k] == lit[a + k]);
        assert(s.subrange(i + a, i + b)[k] == s[i + a + k]);
    }
    assert(s.subrange(i + a, i + b) =~= lit.subrange(a, b));
}

/// An escaped string followed by a closing quote parses back to the original
/// string, consuming exactly the escape and the quote.
#[verifier::rlimit(50)]
pub proof fn lemma_unescape_escape(s: Seq<char>, i: int, t: Seq<char>)
    requires
        0 <= i,
        i + escape_string(t).len() + 1 <= s.len(),
        s.subrange(i, i + escape_string(t).len() as int) == escape_string(t),
        s[i + escape_string(t).len() as int] == '"',
    ensures
        parse_string_body(s, i) == Some((i + escape_string(t).len() + 1, t)),
    decreases t.len(),
{
    let esc = escape_string(t);
    if t.len() == 0 {
        assert(s[i] == '"');
        assert(t =~= Seq::<char>::empty());
    } else {
        let c = t[0];
        let ec = escape_char(c);
        let t1 = t.drop_first();
        let esc1 = escape_string(t1);
        let n = ec.len() as int;
        let el = esc.len() as int;
        assert(esc == ec + esc1);
        lemma_lit_slice(s, i, esc, n, el);
        assert(esc.subrange(n, el) =~= esc1);
        assert(s.subrange(i + n, i + n + esc1.len() as int) == esc1);
        assert(s[i + n + esc1.len() as int] == '"');
        lemma_unescape_escape(s, i + n, t1);
        lemma_lit_index(s, i, esc, 0);
        if c == '"' {
            lemma_lit_index(s, i, esc, 1);
            assert(s[i] == '\\' && s[i + 1] == '"');
            assert(parse_string_body(s, i) == Some((i + esc.len() + 1, seq!['"'] + t1)));
            assert(seq![c] + t1 =~= t);
        } else if c == '\\' {
            lemma_lit_index(s, i, esc, 1);
            assert(s[i] == '\\' && s[i + 1] == '\\');
            assert(parse_string_body(s, i) == Some((i + esc.len() + 1, seq!['\\'] + t1)));
            assert(seq![c] + t1 =~= t);
        } else if (c as u32) < 0x20 {
            let cu = c as u32;
            lemma_lit_index(s, i, esc, 1);
            lemma_lit_index(s, i, esc, 2);
            lemma_lit_index(s, i, esc, 3);
            lemma_lit_index(s, i, esc, 4);
            lemma_lit_index(s, i, esc, 5);
            assert(s[i] == '\\' && s[i + 1] == 'u');
            assert(s[i + 2] == '0' && s[i + 3] == '0');
            assert(s[i + 4] == hex_digit(cu / 16) && s[i + 5] == hex_digit(cu % 16));
            lemma_hex_digit_val(cu / 16);
            lemma_hex_digit_val(cu % 16);
            assert((cu / 16) as int * 16 + (cu % 16) as int == cu as int);
            vstd::utf8::char_is_scalar(c);
            vstd::utf8::char_u32_cast(c, cu);
            assert(parse_u_hex(s, i + 2) == Some(c));
            assert(parse_string_body(s, i) == Some((i + esc.len() + 1, seq![c] + t1)));
            assert(seq![c] + t1 =~= t);
        } else {
            assert(s[i] == c);
            assert(parse_string_body(s, i) == Some((i + esc.len() + 1, seq![c] + t1)));
            assert(seq![c] + t1 =~= t);
        }
    }
}

/// True of a character that stands for itself inside a JSON string literal.
pub open spec fn is_plain_char(c: char) -> bool {
    c != '"' && c != '\\' && (c as u32) >= 0x20
}

/// A string of plain characters escapes to itself.
pub proof fn lemma_escape_plain(t: Seq<char>)
    requires
        forall|k: int| 0 <= k < t.len() ==> is_plain_char(#[trigger] t[k]),
    ensures
        escape_string(t) == t,
    decreases t.len(),
{
    if t.len() == 0 {
        assert(escape_string(t) =~= t);
    } else {
        assert(is_plain_char(t[0]));
        lemma_escape_plain(t.drop_first());
        assert(escape_char(t[0]) =~= seq![t[0]]);
        assert(escape_string(t) =~= t);
    }
}

/// The exact wire form of one `"key":"value"` member, without whitespace.
pub open spec fn member_json(key: Seq<char>, val: Seq<char>) -> Seq<char> {
    seq!['"'] + key + seq!['"', ':'] + quoted(val)
}

/// A member in exact wire form parses back to its key and value.
#[verifier::rlimit(100)]
pub proof fn lemma_parse_member_exact(s: Seq<char>, i: int, key: Seq<char>, val: Seq<char>)
    requires
        0 <= i,
        forall|k: int| 0 <= k < key.len() ==> is_plain_char(#[trigger] key[k]),
        i + member_json(key, val).len() <= s.len(),
        s.subrange(i, i + member_json(key, val).len() as int) == member_json(key, val),
    ensures
        parse_member(s, i) == Some((i + member_json(key, val).len(), key, val)),
{
    let m = member_json(key, val);
    let kl = key.len() as int;
    let ev = escape_string(val);
    let ml = m.len() as int;
    assert(ml == kl + ev.len() + 5);
    lemma_escape_plain(key);
    // the opening quote of the key
    lemma_lit_index(s, i, m, 0);
    assert(s[i] == '"');
    assert(skip_ws(s, i) == i);
    // the key parses as a string body: it is its own escape
    lemma_lit_slice(s, i, m, 1, 1 + kl);
    assert(m.subrange(1, 1 + kl) =~= key);
    lemma_lit_index(s, i, m, 1 + kl);
    assert(m[1 + kl] == '"');
    lemma_unescape_escape(s, i + 1, key);
    let k1 = i + kl + 2;
    assert(parse_string_body(s, i + 1) == Some((k1, key)));
    // the colon, then the opening quote of the value
    lemma_lit_index(s, i, m, kl + 2);
    assert(m[kl + 2] == ':');
    assert(s[k1] == ':');
    assert(skip_ws(s, k1) == k1);
    lemma_lit_index(s, i, m, kl + 3);
    assert(m[kl + 3] == '"');
    assert(s[k1 + 1] == '"');
    assert(skip_ws(s, k1 + 1) == k1 + 1);
    // the value: an escaped body followed by its closing quote
    lemma_lit_slice(s, i, m, kl + 4, kl + 4 + ev.len() as int);
    assert(m.subrange(kl + 4, kl + 4 + ev.len() as int) =~= ev);
    lemma_lit_index(s, i, m, kl + 4 + ev.len() as int);
    assert(m[kl + 4 + ev.len() as int] == '"');
    lemma_unescape_escape(s, k1 + 2, val);
    assert(parse_string_body(s, k1 + 2) == Some((k1 + 2 + ev.len() + 1, val)));
    assert(k1 + 2 + ev.len() + 1 == i + ml);
}

/// Law: a share-event envelope written by `encode_share_event` decodes back
/// to exactly the event it was written from.
#[verifier::rlimit(100)]
pub proof fn lemma_event_round_trip(e: ShareEventView)
    ensures
        parse_event_envelope(event_json(e)) == Some(e),
{
    reveal_strlit("{\"mimeType\":");
    reveal_strlit(",\"data\":");
    reveal_strlit("}");
    reveal_strlit("mimeType");
    reveal_strlit("data");
    let s = event_json(e);
    let m1 = member_json("mimeType"@, e.mime_type);
    let m2 = member_json("data"@, e.data);
    assert(s =~= seq!['{'] + m1 + seq![','] + m2 + seq!['}']);
    assert(s[0] == '{');
    assert(skip_ws(s, 0) == 0);
    assert(s.subrange(1, 1 + m1.len() as int) =~= m1);
    lemma_parse_member_exact(s, 1, "mimeType"@, e.mime_type);
    let i1 = 1 + m1.len() as int;
    assert(parse_member(s, 1) == Some((i1, "mimeType"@, e.mime_type)));
    assert(s[i1] == ',');
    assert(skip_ws(s, i1) == i1);
    assert(s.subrange(i1 + 1, i1 + 1 + m2.len() as int) =~= m2);
    lemma_parse_member_exact(s, i1 + 1, "data"@, e.data);
    let i3 = i1 + 1 + m2.len() as int;
    assert(parse_member(s, i1 + 1) == Some((i3, "data"@, e.data)));
    assert(s[i3] == '}');
    assert(skip_ws(s, i3) == i3);
    assert(skip_ws(s, i3 + 1) == s.len());
    assert("mimeType"@ != "data"@) by {
        assert("mimeType"@.len() != "data"@.len());
    }
    assert(parse_event_envelope(s) == Some(ShareEventView { mime_type: e.mime_type, data: e.data }));
    assert(ShareEventView { mime_type: e.mime_type, data: e.data } == e);
}

// ===========================================================================
// The payload grammar (read back) and its round trip
// ===========================================================================

/// The literal `lit` stands at index `i` of `s`.
pub open spec fn lit_at(s: Seq<char>, i: int, lit: Seq<char>) -> bool {
    0 <= i && i + lit.len() <= s.len() && s.subrange(i, i + lit.len() as int) == lit
}

/// Reads back the canonical wire form of the options object.
pub open spec fn parse_options(s: Seq<char>, i: int) -> Option<(int, OptionsView)> {
    if lit_at(s, i, "{}"@) {
        Some((i + "{}"@.len(), OptionsView { mime_type: None, title: None }))
    } else if lit_at(s, i, "{\"mimeType\":\""@) {
        match parse_string_body(s, i + "{\"mimeType\":\""@.len()) {
            Some((j, m)) => {
                if lit_at(s, j, ",\"title\":\""@) {
                    match parse_string_body(s, j + ",\"title\":\""@.len()) {
                        Some((k, t)) => {
                            if k < s.len() && s[k] == '}' {
                                Some((k + 1, OptionsView { mime_type: Some(m), title: Some(t) }))
                            } else {
                                None
                            }
                        }
                        None => None,
                    }
                } else if j < s.len() && s[j] == '}' {
                    Some((j + 1, OptionsView { mime_type: Some(m), title: None }))
                } else {
                    None
                }
            }
            None => None,
        }
    } else if lit_at(s, i, "{\"title\":\""@) {
        match parse_string_body(s, i + "{\"title\":\""@.len()) {
            Some((j, t)) => {
                if j < s.len() && s[j] == '}' {
                    Some((j + 1, OptionsView { mime_type: None, title: Some(t) }))
                } else {
                    None
                }
            }
            None => None,
        }
    } else {
        None
    }
}

/// Reads back the canonical wire form of a whole share-request payload.
pub open spec fn parse_payload(s: Seq<char>) -> Option<PayloadView> {
    if lit_at(s, 0, "{\"text\":\""@) {
        match parse_string_body(s, "{\"text\":\""@.len() as int) {
            Some((j, text)) => {
                if lit_at(s, j, ",\"options\":"@) {
                    match parse_options(s, j + ",\"options\":"@.len()) {
                        Some((k, o)) => {
                            if k + 1 == s.len() && s[k] == '}' {
                                Some(PayloadView { text, options: o })
                            } else {
                                None
                            }
                        }
                        None => None,
                    }
                } else {
                    None
                }
            }
            None => None,
        }
    } else {
        None
    }
}

/// The options object written by the encoder reads back unchanged.
#[verifier::rlimit(100)]
pub proof fn lemma_options_round_trip(s: Seq<char>, i: int, o: OptionsView)
    requires
        0 <= i,
        i + options_json(o).len() <= s.len(),
        s.subrange(i, i + options_json(o).len() as int) == options_json(o),
    ensures
        parse_options(s, i) == Some((i + options_json(o).len(), o)),
{
    reveal_strlit("{}");
    reveal_strlit("{\"mimeType\":");
    reveal_strlit("{\"mimeType\":\"");
    reveal_strlit(",\"title\":");
    reveal_strlit(",\"title\":\"");
    reveal_strlit("{\"title\":");
    reveal_strlit("{\"title\":\"");
    reveal_strlit("}");
    let oj = options_json(o);
    match (o.mime_type, o.title) {
        (None, None) => {
            lemma_lit_slice(s, i, oj, 0, 2);
            assert(oj.subrange(0, 2) =~= "{}"@);
            assert(lit_at(s, i, "{}"@));
        }
        (Some(m), None) => {
            let em = escape_string(m);
            lemma_lit_slice(s, i, oj, 0, 13);
            assert(oj.subrange(0, 13) =~= "{\"mimeType\":\""@);
            assert(lit_at(s, i, "{\"mimeType\":\""@));
            lemma_lit_index(s, i, "{\"mimeType\":\""@, 1);
            assert(s[i + 1] == '"');
            assert(!lit_at(s, i, "{}"@)) by {
                if lit_at(s, i, "{}"@) {
                    lemma_lit_index(s, i, "{}"@, 1);
                }
            }
            lemma_lit_slice(s, i, oj, 13, 13 + em.len() as int);
            assert(oj.subrange(13, 13 + em.len() as int) =~= em);
            lemma_lit_index(s, i, oj, 13 + em.len() as int);
            assert(oj[13 + em.len() as int] == '"');
            lemma_unescape_escape(s, i + 13, m);
            let j: int = i + 13 + em.len() as int + 1;
            assert(parse_string_body(s, i + 13) == Some((j, m)));
            lemma_lit_index(s, i, oj, 14 + em.len() as int);
            assert(oj[14 + em.len() as int] == '}');
            assert(s[j] == '}');
            assert(!lit_at(s, j, ",\"title\":\""@)) by {
                if lit_at(s, j, ",\"title\":\""@) {
                    lemma_lit_index(s, j, ",\"title\":\""@, 0);
                }
            }
            assert(j + 1 == i + oj.len());
        }
        (None, Some(t)) => {
            let et = escape_string(t);
            lemma_lit_slice(s, i, oj, 0, 10);
            assert(oj.subrange(0, 10) =~= "{\"title\":\""@);
            assert(lit_at(s, i, "{\"title\":\""@));
            lemma_lit_index(s, i, "{\"title\":\""@, 1);
            assert(s[i + 1] == '"');
            lemma_lit_index(s, i, "{\"title\":\""@, 2);
            assert(s[i + 2] == 't');
            assert(!lit_at(s, i, "{}"@)) by {
                if lit_at(s, i, "{}"@) {
                    lemma_lit_index(s, i, "{}"@, 1);
                }
            }
            assert(!lit_at(s, i, "{\"mimeType\":\""@)) by {
                if lit_at(s, i, "{\"mimeType\":\""@) {
                    lemma_lit_index(s, i, "{\"mimeType\":\""@, 2);
                }
            }
            lemma_lit_slice(s, i, oj, 10, 10 + et.len() as int);
            assert(oj.subrange(10, 10 + et.len() as int) =~= et);
            lemma_lit_index(s, i, oj, 10 + et.len() as int);
            assert(oj[10 + et.len() as int] == '"');
            lemma_unescape_escape(s, i + 10, t);
            let j: int = i + 10 + et.len() as int + 1;
            assert(parse_string_body(s, i + 10) == Some((j, t)));
            lemma_lit_index(s, i, oj, 11 + et.len() as int);
            assert(oj[11 + et.len() as int] == '}');
            assert(s[j] == '}');
            assert(j + 1 == i + oj.len());
        }
        (Some(m), Some(t)) => {
            let em = escape_string(m);
            let et = escape_string(t);
            lemma_lit_slice(s, i, oj, 0, 13);
            assert(oj.subrange(0, 13) =~= "{\"mimeType\":\""@);
            assert(lit_at(s, i, "{\"mimeType\":\""@));
            lemma_lit_index(s, i, "{\"mimeType\":\""@, 1);
            assert(s[i + 1] == '"');
            assert(!lit_at(s, i, "{}"@)) by {
                if lit_at(s, i, "{}"@) {
                    lemma_lit_index(s, i, "{}"@, 1);
                }
            }
            lemma_lit_slice(s, i, oj, 13, 13 + em.len() as int);
            assert(oj.subrange(13, 13 + em.len() as int) =~= em);
            lemma_lit_index(s, i, oj, 13 + em.len() as int);
            assert(oj[13 + em.len() as int] == '"');
            lemma_unescape_escape(s, i + 13, m);
            let j: int = i + 13 + em.len() as int + 1;
            assert(parse_string_body(s, i + 13) == Some((j, m)));
            lemma_lit_slice(s, i, oj, 14 + em.len() as int, 24 + em.len() as int);
            assert(oj.subrange(14 + em.len() as int, 24 + em.len() as int) =~= ",\"title\":\""@);
            assert(lit_at(s, j, ",\"title\":\""@));
            lemma_lit_slice(s, i, oj, 24 + em.len() as int, 24 + em.len() as int + et.len() as int);
            assert(oj.subrange(24 + em.len() as int, 24 + em.len() as int + et.len() as int)
                =~= et);
            lemma_lit_index(s, i, oj, 24 + em.len() as int + et.len() as int);
            assert(oj[24 + em.len() as int + et.len() as int] == '"');
            lemma_unescape_escape(s, j + 10, t);
            let k: int = j + 10 + et.len() as int + 1;
            assert(parse_string_body(s, j + 10) == Some((k, t)));
            lemma_lit_index(s, i, oj, 25 + em.len() as int + et.len() as int);
            assert(oj[25 + em.len() as int + et.len() as int] == '}');
            assert(s[k] == '}');
            assert(k + 1 == i + oj.len());
        }
    }
}

/// Law: the wire payload of a share request reads back to exactly the text
/// and options it was written from — no transformation either way.
#[verifier::rlimit(100)]
pub proof fn lemma_payload_round_trip(p: PayloadView)
    ensures
        parse_payload(payload_json(p)) == Some(p),
{
    reveal_strlit("{\"text\":");
    reveal_strlit("{\"text\":\"");
    reveal_strlit(",\"options\":");
    reveal_strlit("}");
    let s = payload_json(p);
    let et = escape_string(p.text);
    let oj = options_json(p.options);
    assert(s =~= "{\"text\":\""@ + et + seq!['"'] + ",\"options\":"@ + oj + seq!['}']);
    assert(s.subrange(0, 9) =~= "{\"text\":\""@);
    assert(lit_at(s, 0, "{\"text\":\""@));
    assert(s.subrange(9, 9 + et.len() as int) =~= et);
    assert(s[9 + et.len() as int] == '"');
    lemma_unescape_escape(s, 9, p.text);
    let j: int = 9 + et.len() as int + 1;
    assert(parse_string_body(s, 9) == Some((j, p.text)));
    assert(s.subrange(j, j + 11) =~= ",\"options\":"@);
    assert(lit_at(s, j, ",\"options\":"@));
    assert(s.subrange(j + 11, j + 11 + oj.len() as int) =~= oj);
    lemma_options_round_trip(s, j + 11, p.options);
    let k = j + 11 + oj.len() as int;
    assert(parse_options(s, j + 11) == Some((k, p.options)));
    assert(s[k] == '}');
    assert(k + 1 == s.len());
    assert(parse_payload(s) == Some(PayloadView { text: p.text, options: p.options }));
    assert(PayloadView { text: p.text, options: p.options } == p);
}

} // verus!
