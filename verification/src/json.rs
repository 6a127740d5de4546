//! The persisted metadata document.
//!
//! The registry is written as one JSON array of objects, each with the fields
//! `filename`, `user` and `timestamp` in that order, in compact form (no
//! whitespace). Strings escape `"` and `\` with a backslash and control
//! characters as `\u00..`; every other character stands for itself. The
//! parser accepts exactly the documents this module writes: anything else is
//! malformed, and loading a malformed document silently yields the empty
//! registry.

use vstd::prelude::*;
use vstd::string::StrSliceExecFns;
use vstd::string::StringExecFns;
use crate::record::{RecordModel, Registry, UploadRecord};
use crate::text::{chars_of, string_from_chars};

verus! {

/// Lowercase hex digit for a value below 16.
pub open spec fn hex_digit(n: int) -> char {
    if n == 0 {
        '0'
    } else if n == 1 {
        '1'
    } else if n == 2 {
        '2'
    } else if n == 3 {
        '3'
    } else if n == 4 {
        '4'
    } else if n == 5 {
        '5'
    } else if n == 6 {
        '6'
    } else if n == 7 {
        '7'
    } else if n == 8 {
        '8'
    } else if n == 9 {
        '9'
    } else if n == 10 {
        'a'
    } else if n == 11 {
        'b'
    } else if n == 12 {
        'c'
    } else if n == 13 {
        'd'
    } else if n == 14 {
        'e'
    } else {
        'f'
    }
}

pub open spec fn is_hex_digit(c: char) -> bool {
    ('0' <= c && c <= '9') || ('a' <= c && c <= 'f')
}

pub open spec fn hex_val(c: char) -> int {
    if '0' <= c && c <= '9' {
        c as u32 - 48
    } else {
        c as u32 - 87
    }
}

/// The control character with the given code point.
pub open spec fn low_char(n: int) -> char {
    (n as u32) as char
}

/// JSON escape of one character.
pub open spec fn escape_char(c: char) -> Seq<char> {
    if c == '"' {
        seq!['\\', '"']
    } else if c == '\\' {
        seq!['\\', '\\']
    } else if (c as u32) < 32 {
        seq!['\\', 'u', '0', '0', hex_digit(c as u32 as int / 16), hex_digit(c as u32 as int % 16)]
    } else {
        seq![c]
    }
}

/// JSON escape of a whole string value.
pub open spec fn escape_str(s: Seq<char>) -> Seq<char>
    decreases s.len(),
{
    if s.len() == 0 {
        Seq::<char>::empty()
    } else {
        escape_char(s[0]) + escape_str(s.skip(1))
    }
}

/// A JSON string literal: the escaped content between quotes.
pub open spec fn quoted(s: Seq<char>) -> Seq<char> {
    seq!['"'] + escape_str(s) + seq!['"']
}

/// One record as a JSON object, keys in fixed order.
pub open spec fn record_json(r: RecordModel) -> Seq<char> {
    "{\"filename\":"@ + quoted(r.filename) + ",\"user\":"@ + quoted(r.user) + ",\"timestamp\":"@
        + quoted(r.timestamp) + "}"@
}

/// The records of the array, separated by commas.
pub open spec fn records_json(rs: Seq<RecordModel>) -> Seq<char>
    decreases rs.len(),
{
    if rs.len() == 0 {
        Seq::<char>::empty()
    } else if rs.len() == 1 {
        record_json(rs[0])
    } else {
        record_json(rs[0]) + seq![','] + records_json(rs.skip(1))
    }
}

/// The whole metadata document.
pub open spec fn registry_json(rs: Seq<RecordModel>) -> Seq<char> {
    seq!['['] + records_json(rs) + seq![']']
}

/// Lowercase hex digit character for a nibble.
fn hex_char(d: u8) -> (c: char)
    requires
        d < 16,
    ensures
        c == hex_digit(d as int),
{
    if d == 0 {
        '0'
    } else if d == 1 {
        '1'
    } else if d == 2 {
        '2'
    } else if d == 3 {
        '3'
    } else if d == 4 {
        '4'
    } else if d == 5 {
        '5'
    } else if d == 6 {
        '6'
    } else if d == 7 {
        '7'
    } else if d == 8 {
        '8'
    } else if d == 9 {
        '9'
    } else if d == 10 {
        'a'
    } else if d == 11 {
        'b'
    } else if d == 12 {
        'c'
    } else if d == 13 {
        'd'
    } else if d == 14 {
        'e'
    } else {
        'f'
    }
}

/// Escapes one string value for the document.
fn escape_field(s: &str) -> (out: Vec<char>)
    ensures
        out@ == escape_str(s@),
{
    let chars = chars_of(s);
    let n = chars.len();
    let mut out: Vec<char> = Vec::new();
    let mut i: usize = 0;
    proof {
        assert(chars@.skip(0) =~= chars@);
        assert(Seq::<char>::empty() + escape_str(chars@) =~= escape_str(chars@));
    }
    while i < n
        invariant
            i <= n,
            n == chars@.len(),
            escape_str(chars@) == out@ + escape_str(chars@.skip(i as int)),
        decreases n - i,
    {
        let c = chars[i];
        let ghost out0 = out@;
        proof {
            assert(chars@.skip(i as int)[0] == chars@[i as int]);
            assert(chars@.skip(i as int).skip(1) =~= chars@.skip(i + 1));
            assert(escape_str(chars@.skip(i as int)) == escape_char(chars@[i as int])
                + escape_str(chars@.skip(i + 1)));
        }
        if c == '"' {
            out.push('\\');
            out.push('"');
        } else if c == '\\' {
            out.push('\\');
            out.push('\\');
        } else if (c as u32) < 32 {
            let u = c as u32;
            out.push('\\');
            out.push('u');
            out.push('0');
            out.push('0');
            out.push(hex_char((u / 16) as u8));
            out.push(hex_char((u % 16) as u8));
        } else {
            out.push(c);
        }
        proof {
            assert(out@ =~= out0 + escape_char(chars@[i as int]));
            assert(out0 + escape_char(chars@[i as int]) + escape_str(chars@.skip(i + 1)) =~= out0
                + (escape_char(chars@[i as int]) + escape_str(chars@.skip(i + 1))));
        }
        i += 1;
    }
    proof {
        assert(chars@.skip(n as int) =~= Seq::<char>::empty());
        assert(out@ + Seq::<char>::empty() =~= out@);
    }
    out
}

/// Appends one field as a JSON string literal.
pub(crate) fn append_quoted(out: &mut String, s: &str)
    ensures
        final(out)@ == old(out)@ + quoted(s@),
{
    let escaped = string_from_chars(&escape_field(s));
    out.append("\"");
    out.append(escaped.as_str());
    out.append("\"");
    proof {
        reveal_strlit("\"");
        assert(out@ =~= old(out)@ + quoted(s@));
    }
}

/// Appends one record as a JSON object.
fn append_record(out: &mut String, r: &UploadRecord)
    ensures
        final(out)@ == old(out)@ + record_json(r@),
{
    out.append("{\"filename\":");
    append_quoted(out, str_of(&r.filename));
    out.append(",\"user\":");
    append_quoted(out, str_of(&r.user));
    out.append(",\"timestamp\":");
    append_quoted(out, str_of(&r.timestamp));
    out.append("}");
    proof {
        assert(out@ =~= old(out)@ + record_json(r@));
    }
}

/// Borrows a `String` as `&str`.
fn str_of(s: &String) -> (r: &str)
    ensures
        r@ == s@,
{
    s.as_str()
}

/// Serializes the whole registry to the text of the metadata document.
pub fn encode_registry(reg: &Registry) -> (doc: String)
    ensures
        doc@ == registry_json(reg@),
{
    let mut out = String::new();
    out.append("[");
    proof {
        reveal_strlit("[");
        assert(out@ =~= seq!['[']);
        assert(reg@.skip(0) =~= reg@);
    }
    let n = reg.len();
    let mut i: usize = 0;
    while i < n
        invariant
            i <= n,
            n == reg@.len(),
            seq!['['] + records_json(reg@) == out@ + records_json(reg@.skip(i as int)),
        decreases n - i,
    {
        let ghost out0 = out@;
        proof {
            assert(reg@.skip(i as int)[0] == reg@[i as int]);
            assert(reg@.skip(i as int).skip(1) =~= reg@.skip(i + 1));
        }
        let rec = reg.record_at(i);
        append_record(&mut out, rec);
        if i + 1 < n {
            out.append(",");
            proof {
                reveal_strlit(",");
                assert(records_json(reg@.skip(i as int)) == record_json(reg@[i as int]) + seq![
                    ',',
                ] + records_json(reg@.skip(i + 1)));
                assert(out@ =~= out0 + (record_json(reg@[i as int]) + seq![',']));
                assert(out0 + (record_json(reg@[i as int]) + seq![',']) + records_json(
                    reg@.skip(i + 1),
                ) =~= out0 + records_json(reg@.skip(i as int)));
            }
        } else {
            proof {
                assert(records_json(reg@.skip(i as int)) == record_json(reg@[i as int]));
                assert(out@ + records_json(reg@.skip(i + 1)) =~= out0 + records_json(
                    reg@.skip(i as int),
                ));
            }
        }
        i += 1;
    }
    proof {
        assert(reg@.skip(n as int) =~= Seq::<RecordModel>::empty());
        assert(out@ + Seq::<char>::empty() =~= out@);
        assert(seq!['['] + records_json(reg@) + Seq::<char>::empty() =~= seq!['[']
            + records_json(reg@));
    }
    out.append("]");
    proof {
        reveal_strlit("]");
        assert(out@ =~= registry_json(reg@));
    }
    out
}

// ---- the parser, as spec functions ----

/// Parses the escaped body of a string literal up to its closing quote:
/// yields the decoded content and the remainder after the quote.
pub open spec fn p_string_body(s: Seq<char>) -> Option<(Seq<char>, Seq<char>)>
    decreases s.len(),
{
    if s.len() == 0 {
        None
    } else if s[0] == '"' {
        Some((Seq::<char>::empty(), s.skip(1)))
    } else if s[0] == '\\' {
        if s.len() >= 2 && (s[1] == '"' || s[1] == '\\') {
            match p_string_body(s.skip(2)) {
                Some(tr) => Some((seq![s[1]] + tr.0, tr.1)),
                None => None,
            }
        } else if s.len() >= 6 && s[1] == 'u' && s[2] == '0' && s[3] == '0' && is_hex_digit(s[4])
            && is_hex_digit(s[5]) && hex_val(s[4]) * 16 + hex_val(s[5]) < 32 {
            match p_string_body(s.skip(6)) {
                Some(tr) => Some((seq![low_char(hex_val(s[4]) * 16 + hex_val(s[5]))] + tr.0, tr.1)),
                None => None,
            }
        } else {
            None
        }
    } else if (s[0] as u32) >= 32 {
        match p_string_body(s.skip(1)) {
            Some(tr) => Some((seq![s[0]] + tr.0, tr.1)),
            None => None,
        }
    } else {
        None
    }
}

/// Consumes an exact literal prefix.
pub open spec fn p_literal(s: Seq<char>, lit: Seq<char>) -> Option<Seq<char>> {
    if s.len() >= lit.len() && s.take(lit.len() as int) == lit {
        Some(s.skip(lit.len() as int))
    } else {
        None
    }
}

/// Parses a full JSON string literal, opening quote included.
pub open spec fn p_quoted(s: Seq<char>) -> Option<(Seq<char>, Seq<char>)> {
    if s.len() >= 1 && s[0] == '"' {
        p_string_body(s.skip(1))
    } else {
        None
    }
}

/// Parses one record object, keys in the fixed order.
pub open spec fn p_record(s: Seq<char>) -> Option<(RecordModel, Seq<char>)> {
    match p_literal(s, "{\"filename\":"@) {
        Some(s1) => match p_quoted(s1) {
            Some(f) => match p_literal(f.1, ",\"user\":"@) {
                Some(s3) => match p_quoted(s3) {
                    Some(u) => match p_literal(u.1, ",\"timestamp\":"@) {
                        Some(s5) => match p_quoted(s5) {
                            Some(t) => match p_literal(t.1, "}"@) {
                                Some(s7) => Some(
                                    (
                                        RecordModel {
                                            filename: f.0,
                                            user: u.0,
                                            timestamp: t.0,
                                        },
                                        s7,
                                    ),
                                ),
                                None => None,
                            },
                            None => None,
                        },
                        None => None,
                    },
                    None => None,
                },
                None => None,
            },
            None => None,
        },
        None => None,
    }
}

/// Parses one or more comma-separated records. A record always consumes at
/// least one character; the length guard only makes termination evident.
pub open spec fn p_records(s: Seq<char>) -> Option<(Seq<RecordModel>, Seq<char>)>
    decreases s.len(),
{
    match p_record(s) {
        Some(r) => {
            if r.1.len() >= s.len() {
                None
            } else if r.1.len() >= 1 && r.1[0] == ',' {
                match p_records(r.1.skip(1)) {
                    Some(rest) => Some((seq![r.0] + rest.0, rest.1)),
                    None => None,
                }
            } else {
                Some((seq![r.0], r.1))
            }
        },
        None => None,
    }
}

/// Parses a whole metadata document; `None` means the document is malformed.
pub open spec fn parse_registry_spec(s: Seq<char>) -> Option<Seq<RecordModel>> {
    if s.len() == 2 && s[0] == '[' && s[1] == ']' {
        Some(Seq::<RecordModel>::empty())
    } else if s.len() >= 1 && s[0] == '[' {
        match p_records(s.skip(1)) {
            Some(rs) => if rs.1.len() == 1 && rs.1[0] == ']' {
                Some(rs.0)
            } else {
                None
            },
            None => None,
        }
    } else {
        None
    }
}

// ---- round trip: parsing what was encoded gives back the registry ----

proof fn lemma_literal_rt(lit: Seq<char>, rest: Seq<char>)
    ensures
        p_literal(lit + rest, lit) == Some(rest),
{
    assert((lit + rest).take(lit.len() as int) =~= lit);
    assert((lit + rest).skip(lit.len() as int) =~= rest);
}

proof fn lemma_escape_rt(s: Seq<char>, rest: Seq<char>)
    ensures
        p_string_body(escape_str(s) + seq!['"'] + rest) == Some((s, rest)),
    decreases s.len(),
{
    let full = escape_str(s) + seq!['"'] + rest;
    if s.len() == 0 {
        assert(full =~= seq!['"'] + rest);
        assert(full[0] == '"');
        assert(full.skip(1) =~= rest);
    } else {
        lemma_escape_rt(s.skip(1), rest);
        let c = s[0];
        let tail = escape_str(s.skip(1)) + seq!['"'] + rest;
        assert(escape_str(s) == escape_char(c) + escape_str(s.skip(1)));
        assert(full =~= escape_char(c) + tail);
        if c == '"' {
            assert(full[0] == '\\' && full[1] == '"');
            assert(full.skip(2) =~= tail);
            assert(seq![full[1]] + s.skip(1) =~= s);
        } else if c == '\\' {
            assert(full[0] == '\\' && full[1] == '\\');
            assert(full.skip(2) =~= tail);
            assert(seq![full[1]] + s.skip(1) =~= s);
        } else if (c as u32) < 32 {
            let hi = c as u32 as int / 16;
            let lo = c as u32 as int % 16;
            assert(full[0] == '\\' && full[1] == 'u' && full[2] == '0' && full[3] == '0');
            assert(full[4] == hex_digit(hi) && full[5] == hex_digit(lo));
            assert(is_hex_digit(hex_digit(hi)) && hex_val(hex_digit(hi)) == hi);
            assert(is_hex_digit(hex_digit(lo)) && hex_val(hex_digit(lo)) == lo);
            assert(hi * 16 + lo == c as u32) by {
                assert(c as u32 as int == 16 * (c as u32 as int / 16) + (c as u32 as int % 16));
            }
            assert(low_char(hex_val(full[4]) * 16 + hex_val(full[5])) == c) by {
                vstd::utf8::char_u32_cast(c, c as u32);
            }
            assert(full.skip(6) =~= tail);
            assert(seq![c] + s.skip(1) =~= s);
        } else {
            assert(full[0] == c);
            assert(full.skip(1) =~= tail);
            assert(seq![c] + s.skip(1) =~= s);
        }
    }
}

proof fn lemma_quoted_rt(s: Seq<char>, rest: Seq<char>)
    ensures
        p_quoted(quoted(s) + rest) == Some((s, rest)),
{
    let full = quoted(s) + rest;
    assert(full[0] == '"');
    assert(full.skip(1) =~= escape_str(s) + seq!['"'] + rest);
    lemma_escape_rt(s, rest);
}

proof fn lemma_record_rt(r: RecordModel, rest: Seq<char>)
    ensures
        p_record(record_json(r) + rest) == Some((r, rest)),
{
    let k1 = "{\"filename\":"@;
    let k2 = ",\"user\":"@;
    let k3 = ",\"timestamp\":"@;
    let k4 = "}"@;
    let full = record_json(r) + rest;
    let s1 = quoted(r.filename) + (k2 + (quoted(r.user) + (k3 + (quoted(r.timestamp) + (k4
        + rest)))));
    assert(full =~= k1 + s1);
    lemma_literal_rt(k1, s1);
    let s2 = k2 + (quoted(r.user) + (k3 + (quoted(r.timestamp) + (k4 + rest))));
    lemma_quoted_rt(r.filename, s2);
    let s3 = quoted(r.user) + (k3 + (quoted(r.timestamp) + (k4 + rest)));
    lemma_literal_rt(k2, s3);
    let s4 = k3 + (quoted(r.timestamp) + (k4 + rest));
    lemma_quoted_rt(r.user, s4);
    let s5 = quoted(r.timestamp) + (k4 + rest);
    lemma_literal_rt(k3, s5);
    let s6 = k4 + rest;
    lemma_quoted_rt(r.timestamp, s6);
    lemma_literal_rt(k4, rest);
}

proof fn lemma_record_json_nonempty(r: RecordModel)
    ensures
        record_json(r).len() > 0,
{
    reveal_strlit("{\"filename\":");
}

#[verifier::rlimit(50)]
proof fn lemma_records_rt(rs: Seq<RecordModel>)
    requires
        rs.len() > 0,
    ensures
        p_records(records_json(rs) + seq![']']) == Some((rs, seq![']'])),
    decreases rs.len(),
{
    let full = records_json(rs) + seq![']'];
    lemma_record_json_nonempty(rs[0]);
    if rs.len() == 1 {
        lemma_record_rt(rs[0], seq![']']);
        assert(records_json(rs) == record_json(rs[0]));
        assert(seq![']'].len() < full.len());
        assert(seq![']'][0] == ']');
        assert(seq![rs[0]] =~= rs);
    } else {
        lemma_records_rt(rs.skip(1));
        let rest = seq![','] + (records_json(rs.skip(1)) + seq![']']);
        assert(full =~= record_json(rs[0]) + rest);
        lemma_record_rt(rs[0], rest);
        lemma_record_json_nonempty(rs.skip(1)[0]);
        assert(rest.len() < full.len());
        assert(rest[0] == ',');
        assert(rest.skip(1) =~= records_json(rs.skip(1)) + seq![']']);
        assert(seq![rs[0]] + rs.skip(1) =~= rs);
    }
}

// ---- the parser, executable ----

/// Hex value of a lowercase hex digit character, if it is one.
fn hex_value(c: char) -> (r: Option<u8>)
    ensures
        match r {
            Some(val) => is_hex_digit(c) && val == hex_val(c) && val < 16,
            None => !is_hex_digit(c),
        },
{
    if '0' <= c && c <= '9' {
        let val = c as u32 - 48;
        Some(val as u8)
    } else if 'a' <= c && c <= 'f' {
        let val = c as u32 - 87;
        Some(val as u8)
    } else {
        None
    }
}

/// Parses the escaped body of a string literal starting at `pos`, up to and
/// including the closing quote.
fn parse_string_body(v: &Vec<char>, pos: usize) -> (r: Option<(Vec<char>, usize)>)
    requires
        pos <= v@.len(),
    ensures
        ({
            let s = v@.skip(pos as int);
            match r {
                Some(cr) => cr.1 <= v@.len() && p_string_body(s) == Some(
                    (cr.0@, v@.skip(cr.1 as int)),
                ),
                None => p_string_body(s) is None,
            }
        }),
    decreases v@.len() - pos,
{
    let ghost s = v@.skip(pos as int);
    if pos == v.len() {
        return None;
    }
    let c = v[pos];
    proof {
        assert(s[0] == v@[pos as int]);
    }
    if c == '"' {
        proof {
            assert(s.skip(1) =~= v@.skip(pos + 1));
        }
        return Some((Vec::new(), pos + 1));
    }
    if c == '\\' {
        if pos + 1 < v.len() && (v[pos + 1] == '"' || v[pos + 1] == '\\') {
            proof {
                assert(s[1] == v@[pos + 1]);
                assert(s.skip(2) =~= v@.skip(pos + 2));
            }
            match parse_string_body(v, pos + 2) {
                Some((content, np)) => {
                    let mut content = content;
                    let ghost c0 = content@;
                    content.insert(0, v[pos + 1]);
                    proof {
                        assert(content@ =~= seq![s[1]] + c0);
                    }
                    Some((content, np))
                },
                None => None,
            }
        } else if v.len() - pos >= 6 && v[pos + 1] == 'u' && v[pos + 2] == '0' && v[pos + 3]
            == '0' {
            proof {
                assert(s[1] == v@[pos + 1]);
                assert(s[2] == v@[pos + 2]);
                assert(s[3] == v@[pos + 3]);
                assert(s[4] == v@[pos + 4]);
                assert(s[5] == v@[pos + 5]);
            }
            let h1 = hex_value(v[pos + 4]);
            let h2 = hex_value(v[pos + 5]);
            if let (Some(a), Some(b)) = (h1, h2) {
                let val: u8 = a * 16 + b;
                if val < 32 {
                    let decoded = val as char;
                    proof {
                        assert(decoded == low_char(hex_val(s[4]) * 16 + hex_val(s[5])));
                        assert(s.skip(6) =~= v@.skip(pos + 6));
                    }
                    match parse_string_body(v, pos + 6) {
                        Some((content, np)) => {
                            let mut content = content;
                            let ghost c0 = content@;
                            content.insert(0, decoded);
                            proof {
                                assert(content@ =~= seq![
                                    low_char(hex_val(s[4]) * 16 + hex_val(s[5])),
                                ] + c0);
                            }
                            Some((content, np))
                        },
                        None => None,
                    }
                } else {
                    None
                }
            } else {
                None
            }
        } else {
            None
        }
    } else if (c as u32) >= 32 {
        proof {
            assert(s.skip(1) =~= v@.skip(pos + 1));
        }
        match parse_string_body(v, pos + 1) {
            Some((content, np)) => {
                let mut content = content;
                let ghost c0 = content@;
                content.insert(0, c);
                proof {
                    assert(content@ =~= seq![s[0]] + c0);
                }
                Some((content, np))
            },
            None => None,
        }
    } else {
        None
    }
}

/// Consumes the exact literal `lit` at `pos`.
fn match_literal(v: &Vec<char>, pos: usize, lit: &str) -> (r: Option<usize>)
    requires
        pos <= v@.len(),
    ensures
        match r {
            Some(np) => pos <= np <= v@.len() && p_literal(v@.skip(pos as int), lit@) == Some(
                v@.skip(np as int),
            ),
            None => p_literal(v@.skip(pos as int), lit@) is None,
        },
{
    let n = v.len();
    let l = lit.unicode_len();
    if n - pos < l {
        proof {
            assert(v@.skip(pos as int).len() < lit@.len());
        }
        return None;
    }
    let mut i: usize = 0;
    while i < l
        invariant
            i <= l,
            l == lit@.len(),
            n == v@.len(),
            pos + l <= n,
            forall|k: int| 0 <= k < i ==> v@[pos + k] == lit@[k],
        decreases l - i,
    {
        let lc = lit.get_char(i);
        if v[pos + i] != lc {
            proof {
                assert(v@.skip(pos as int).take(l as int)[i as int] == v@[pos + i]);
                assert(v@.skip(pos as int).take(l as int) != lit@);
            }
            return None;
        }
        i += 1;
    }
    proof {
        assert(v@.skip(pos as int).take(l as int) =~= lit@);
        assert(v@.skip(pos as int).skip(l as int) =~= v@.skip(pos + l));
    }
    Some(pos + l)
}

/// Parses a full JSON string literal starting at `pos`.
fn parse_quoted(v: &Vec<char>, pos: usize) -> (r: Option<(Vec<char>, usize)>)
    requires
        pos <= v@.len(),
    ensures
        ({
            let s = v@.skip(pos as int);
            match r {
                Some(cr) => cr.1 <= v@.len() && p_quoted(s) == Some(
                    (cr.0@, v@.skip(cr.1 as int)),
                ),
                None => p_quoted(s) is None,
            }
        }),
{
    if pos < v.len() && v[pos] == '"' {
        proof {
            assert(v@.skip(pos as int)[0] == v@[pos as int]);
            assert(v@.skip(pos as int).skip(1) =~= v@.skip(pos + 1));
        }
        parse_string_body(v, pos + 1)
    } else {
        None
    }
}

/// Parses one record object starting at `pos`.
fn parse_record(v: &Vec<char>, pos: usize) -> (r: Option<(UploadRecord, usize)>)
    requires
        pos <= v@.len(),
    ensures
        ({
            let s = v@.skip(pos as int);
            match r {
                Some(rn) => rn.1 <= v@.len() && p_record(s) == Some(
                    (rn.0@, v@.skip(rn.1 as int)),
                ),
                None => p_record(s) is None,
            }
        }),
{
    match match_literal(v, pos, "{\"filename\":") {
        None => None,
        Some(p1) => match parse_quoted(v, p1) {
            None => None,
            Some((f, p2)) => match match_literal(v, p2, ",\"user\":") {
                None => None,
                Some(p3) => match parse_quoted(v, p3) {
                    None => None,
                    Some((u, p4)) => match match_literal(v, p4, ",\"timestamp\":") {
                        None => None,
                        Some(p5) => match parse_quoted(v, p5) {
                            None => None,
                            Some((t, p6)) => match match_literal(v, p6, "}") {
                                None => None,
                                Some(p7) => {
                                    let rec = UploadRecord {
                                        filename: string_from_chars(&f),
                                        user: string_from_chars(&u),
                                        timestamp: string_from_chars(&t),
                                    };
                                    Some((rec, p7))
                                },
                            },
                        },
                    },
                },
            },
        },
    }
}

/// Parses one or more comma-separated records starting at `pos`.
fn parse_records(v: &Vec<char>, pos: usize) -> (r: Option<(Vec<UploadRecord>, usize)>)
    requires
        pos <= v@.len(),
    ensures
        ({
            let s = v@.skip(pos as int);
            match r {
                Some(rn) => rn.1 <= v@.len() && p_records(s) == Some(
                    (rn.0@.map_values(|x: UploadRecord| x@), v@.skip(rn.1 as int)),
                ),
                None => p_records(s) is None,
            }
        }),
    decreases v@.len() - pos,
{
    let ghost s = v@.skip(pos as int);
    match parse_record(v, pos) {
        None => None,
        Some((rec, p1)) => {
            if p1 <= pos {
                proof {
                    assert(v@.skip(p1 as int).len() >= s.len());
                }
                None
            } else if p1 < v.len() && v[p1] == ',' {
                proof {
                    assert(v@.skip(p1 as int)[0] == v@[p1 as int]);
                    assert(v@.skip(p1 as int).skip(1) =~= v@.skip(p1 + 1));
                    assert(v@.skip(p1 as int).len() < s.len());
                }
                match parse_records(v, p1 + 1) {
                    None => None,
                    Some((rest, p2)) => {
                        let mut rest = rest;
                        let ghost r0 = rest@;
                        rest.insert(0, rec);
                        proof {
                            assert(rest@.map_values(|x: UploadRecord| x@) =~= seq![rec@]
                                + r0.map_values(|x: UploadRecord| x@));
                        }
                        Some((rest, p2))
                    },
                }
            } else {
                let mut one: Vec<UploadRecord> = Vec::new();
                one.push(rec);
                proof {
                    assert(one@.map_values(|x: UploadRecord| x@) =~= seq![rec@]);
                    assert(v@.skip(p1 as int).len() < s.len());
                }
                Some((one, p1))
            }
        },
    }
}

/// Parses the text of a metadata document; `None` means it is malformed.
pub fn parse_registry(doc: &str) -> (r: Option<Registry>)
    ensures
        match r {
            Some(reg) => parse_registry_spec(doc@) == Some(reg@),
            None => parse_registry_spec(doc@) is None,
        },
{
    let v = chars_of(doc);
    if v.len() == 2 && v[0] == '[' && v[1] == ']' {
        return Some(Registry::new());
    }
    if v.len() >= 1 && v[0] == '[' {
        match parse_records(&v, 1) {
            None => None,
            Some((recs, np)) => {
                if v.len() - np == 1 && v[np] == ']' {
                    proof {
                        assert(v@.skip(np as int).len() == 1);
                        assert(v@.skip(np as int)[0] == v@[np as int]);
                    }
                    Some(Registry::from_records(recs))
                } else {
                    None
                }
            },
        }
    } else {
        None
    }
}

/// Loads a registry from document text. A document that does not parse
/// yields the empty registry: startup recovery is silent, never an error.
pub fn load_registry(doc: &str) -> (reg: Registry)
    ensures
        match parse_registry_spec(doc@) {
            Some(rs) => reg@ == rs,
            None => reg@ == Seq::<RecordModel>::empty(),
        },
{
    match parse_registry(doc) {
        Some(reg) => reg,
        None => Registry::new(),
    }
}

/// Law: the metadata document written for a registry always parses back to
/// exactly that registry, whatever the record fields hold.
pub proof fn lemma_document_round_trip(rs: Seq<RecordModel>)
    ensures
        parse_registry_spec(registry_json(rs)) == Some(rs),
{
    let full = registry_json(rs);
    if rs.len() == 0 {
        assert(records_json(rs) == Seq::<char>::empty());
        assert(full =~= seq!['[', ']']);
        assert(full.len() == 2 && full[0] == '[' && full[1] == ']');
    } else {
        lemma_record_json_nonempty(rs[0]);
        assert(records_json(rs).len() > 0);
        assert(full.len() > 2);
        assert(full[0] == '[');
        lemma_records_rt(rs);
        assert(full.skip(1) =~= records_json(rs) + seq![']']);
        assert(seq![']'].len() == 1 && seq![']'][0] == ']');
    }
}

/// Law: after a successful upload the registry has grown by exactly one
/// record, the new record is its last element, and the rewritten document
/// reloads to exactly the grown registry.
pub proof fn lemma_append_snapshot(rs: Seq<RecordModel>, r: RecordModel)
    ensures
        rs.push(r).len() == rs.len() + 1,
        rs.push(r).last() == r,
        parse_registry_spec(registry_json(rs.push(r))) == Some(rs.push(r)),
{
    lemma_document_round_trip(rs.push(r));
}

} // verus!
