use vstd::prelude::*;
use crate::app_state::{summary_model, SessionSummary, SummaryModel};
use crate::text::{dec_repr, hex_char, push_char, push_dec_repr};

verus! {

/// How one character is written inside a JSON string: quote and backslash
/// get a backslash escape, control characters a four-digit escape, and
/// everything else stands for itself.
pub open spec fn esc_char(c: char) -> Seq<char> {
    if c == '"' {
        seq!['\\', '"']
    } else if c == '\\' {
        seq!['\\', '\\']
    } else if (c as u32) < 0x20 {
        seq![
            '\\',
            'u',
            '0',
            '0',
            hex_char(((c as u32) / 16) as nat),
            hex_char(((c as u32) % 16) as nat),
        ]
    } else {
        seq![c]
    }
}

/// The JSON string-body encoding of a character sequence.
pub open spec fn json_escaped(s: Seq<char>) -> Seq<char>
    decreases s.len(),
{
    if s.len() == 0 {
        Seq::empty()
    } else {
        esc_char(s[0]) + json_escaped(s.drop_first())
    }
}

/// Escaping one more character extends the encoding at the end.
pub proof fn lemma_json_escaped_snoc(s: Seq<char>, c: char)
    ensures
        json_escaped(s.push(c)) == json_escaped(s) + esc_char(c),
    decreases s.len(),
{
    if s.len() == 0 {
        assert(s.push(c)[0] == c);
        assert(s.push(c).drop_first() =~= Seq::<char>::empty());
        assert(json_escaped(Seq::<char>::empty()) == Seq::<char>::empty());
        assert(json_escaped(s.push(c)) == esc_char(c) + json_escaped(Seq::<char>::empty()));
        assert(json_escaped(s.push(c)) =~= json_escaped(s) + esc_char(c));
    } else {
        assert(s.push(c)[0] == s[0]);
        assert(s.push(c).drop_first() =~= s.drop_first().push(c));
        lemma_json_escaped_snoc(s.drop_first(), c);
        assert(json_escaped(s.push(c)) =~= json_escaped(s) + esc_char(c));
    }
}

/// A signed integer in decimal.
pub open spec fn int_chars(i: int) -> Seq<char> {
    if i < 0 {
        seq!['-'] + dec_repr((-i) as nat)
    } else {
        dec_repr(i as nat)
    }
}

/// The canonical persisted form of a session summary: a pretty-printed
/// JSON object with one field per line, two-space indentation, and the
/// fields in a fixed order.
pub open spec fn summary_chars(m: SummaryModel) -> Seq<char> {
    "{\n  \"sessionId\": \""@ + (json_escaped(m.session_id) + seq!['"'])
        + ",\n  \"timestampMs\": "@ + int_chars(m.timestamp_ms as int) + ",\n  \"vin\": "@ + (
    match m.vin {
        Some(v) => seq!['"'] + (json_escaped(v) + seq!['"']),
        None => "null"@,
    }) + ",\n  \"moduleCount\": "@ + dec_repr(m.module_count as nat) + ",\n  \"dtcCount\": "@
        + dec_repr(m.dtc_count as nat) + "\n}"@
}

/// Appends the JSON string-body encoding of `s` to `out`.
#[verifier::loop_isolation(false)]
fn push_escaped(out: &mut String, s: &str)
    ensures
        final(out)@ == old(out)@ + json_escaped(s@),
{
    let len = s.unicode_len();
    let mut i: usize = 0;
    proof {
        assert(old(out)@ + json_escaped(s@.take(0)) =~= old(out)@);
    }
    while i < len
        invariant
            len == s@.len(),
            i <= len,
            out@ == old(out)@ + json_escaped(s@.take(i as int)),
        decreases len - i,
    {
        let c = s.get_char(i);
        let cv = c as u32;
        if c == '"' {
            push_char(out, '\\');
            push_char(out, '"');
        } else if c == '\\' {
            push_char(out, '\\');
            push_char(out, '\\');
        } else if cv < 0x20 {
            push_char(out, '\\');
            push_char(out, 'u');
            push_char(out, '0');
            push_char(out, '0');
            push_char(out, crate::text::hex_char_of(cv / 16));
            push_char(out, crate::text::hex_char_of(cv % 16));
        } else {
            push_char(out, c);
        }
        proof {
            assert(s@.take(i + 1) =~= s@.take(i as int).push(s@[i as int]));
            lemma_json_escaped_snoc(s@.take(i as int), s@[i as int]);
            assert(out@ =~= old(out)@ + json_escaped(s@.take(i + 1)));
        }
        i = i + 1;
    }
    proof {
        assert(s@.take(len as int) =~= s@);
    }
}

/// Appends a signed decimal.
fn push_int(out: &mut String, i: i64)
    ensures
        final(out)@ == old(out)@ + int_chars(i as int),
{
    if i < 0 {
        push_char(out, '-');
        let magnitude: u64 = if i == i64::MIN {
            9223372036854775808u64
        } else {
            (-i) as u64
        };
        push_dec_repr(out, magnitude);
        proof {
            assert(final(out)@ =~= old(out)@ + int_chars(i as int));
        }
    } else {
        push_dec_repr(out, i as u64);
    }
}

/// Writes a session summary in its canonical persisted form.
pub fn encode_session_summary(s: &SessionSummary) -> (r: String)
    ensures
        r@ == summary_chars(summary_model(*s)),
{
    let mut out = String::new();
    out.append("{\n  \"sessionId\": \"");
    push_escaped(&mut out, s.session_id.as_str());
    push_char(&mut out, '"');
    out.append(",\n  \"timestampMs\": ");
    push_int(&mut out, s.timestamp_ms);
    out.append(",\n  \"vin\": ");
    match &s.vin {
        Some(v) => {
            push_char(&mut out, '"');
            push_escaped(&mut out, v.as_str());
            push_char(&mut out, '"');
        },
        None => {
            out.append("null");
        },
    }
    out.append(",\n  \"moduleCount\": ");
    push_dec_repr(&mut out, s.module_count as u64);
    out.append(",\n  \"dtcCount\": ");
    push_dec_repr(&mut out, s.dtc_count as u64);
    out.append("\n}");
    proof {
        assert(out@ =~= summary_chars(summary_model(*s)));
    }
    out
}

/// Collects a string's characters for indexed scanning.
fn str_chars(s: &str) -> (r: Vec<char>)
    ensures
        r@ == s@,
{
    let len = s.unicode_len();
    let mut out: Vec<char> = Vec::new();
    let mut i: usize = 0;
    while i < len
        invariant
            len == s@.len(),
            i <= len,
            out@ == s@.take(i as int),
        decreases len - i,
    {
        out.push(s.get_char(i));
        i = i + 1;
        proof {
            assert(out@ =~= s@.take(i as int));
        }
    }
    proof {
        assert(out@ =~= s@);
    }
    out
}

/// The value of an uppercase hex digit, or nothing.
fn hex_val(c: char) -> (r: Option<u32>)
    ensures
        match r {
            Some(v) => v < 16 && hex_char(v as nat) == c,
            None => true,
        },
{
    if c == '0' {
        Some(0)
    } else if c == '1' {
        Some(1)
    } else if c == '2' {
        Some(2)
    } else if c == '3' {
        Some(3)
    } else if c == '4' {
        Some(4)
    } else if c == '5' {
        Some(5)
    } else if c == '6' {
        Some(6)
    } else if c == '7' {
        Some(7)
    } else if c == '8' {
        Some(8)
    } else if c == '9' {
        Some(9)
    } else if c == 'A' {
        Some(10)
    } else if c == 'B' {
        Some(11)
    } else if c == 'C' {
        Some(12)
    } else if c == 'D' {
        Some(13)
    } else if c == 'E' {
        Some(14)
    } else if c == 'F' {
        Some(15)
    } else {
        None
    }
}

/// The value of a decimal digit, or nothing.
fn dec_val(c: char) -> (r: Option<u64>)
    ensures
        match r {
            Some(d) => d < 10 && crate::text::dec_char(d as nat) == c,
            None => true,
        },
{
    if c == '0' {
        Some(0)
    } else if c == '1' {
        Some(1)
    } else if c == '2' {
        Some(2)
    } else if c == '3' {
        Some(3)
    } else if c == '4' {
        Some(4)
    } else if c == '5' {
        Some(5)
    } else if c == '6' {
        Some(6)
    } else if c == '7' {
        Some(7)
    } else if c == '8' {
        Some(8)
    } else if c == '9' {
        Some(9)
    } else {
        None
    }
}

/// Consumes exactly the given literal, or nothing.
#[verifier::loop_isolation(false)]
fn expect_lit(chars: &Vec<char>, pos: usize, lit: &str) -> (r: Option<usize>)
    ensures
        match r {
            Some(p2) => p2 == pos + lit@.len() && p2 <= chars@.len() && chars@.subrange(
                pos as int,
                p2 as int,
            ) == lit@,
            None => true,
        },
{
    let llen = lit.unicode_len();
    if llen > chars.len() || pos > chars.len() - llen {
        return None;
    }
    let mut j: usize = 0;
    while j < llen
        invariant
            llen == lit@.len(),
            pos + llen <= chars@.len(),
            j <= llen,
            forall|q: int| 0 <= q < j ==> chars@[pos + q] == lit@[q],
        decreases llen - j,
    {
        if chars[pos + j] != lit.get_char(j) {
            return None;
        }
        j = j + 1;
    }
    proof {
        assert(chars@.subrange(pos as int, (pos + llen) as int) =~= lit@);
    }
    Some(pos + llen)
}

/// Consumes a JSON string body up to and including its closing quote,
/// returning the decoded text: whatever is accepted is exactly the
/// canonical escaped form of the result.
#[verifier::loop_isolation(false)]
fn parse_jstring(chars: &Vec<char>, pos: usize) -> (r: Option<(String, usize)>)
    ensures
        match r {
            Some(p) => pos <= p.1 <= chars@.len() && chars@.subrange(pos as int, p.1 as int)
                == json_escaped(p.0@) + seq!['"'],
            None => true,
        },
{
    if pos > chars.len() {
        return None;
    }
    let mut out = String::new();
    let mut i: usize = pos;
    proof {
        assert(json_escaped(Seq::<char>::empty()) == Seq::<char>::empty());
        assert(chars@.subrange(pos as int, pos as int) =~= json_escaped(out@));
    }
    while i < chars.len()
        invariant
            pos <= i <= chars@.len(),
            chars@.subrange(pos as int, i as int) == json_escaped(out@),
        decreases chars@.len() - i,
    {
        let c = chars[i];
        if c == '"' {
            proof {
                assert(chars@.subrange(pos as int, (i + 1) as int) =~= json_escaped(out@)
                    + seq!['"']);
            }
            return Some((out, i + 1));
        }
        let ghost out0 = out@;
        if c == '\\' {
            if i + 1 >= chars.len() {
                return None;
            }
            let e = chars[i + 1];
            if e == '"' {
                push_char(&mut out, '"');
                proof {
                    lemma_json_escaped_snoc(out0, '"');
                    assert(chars@.subrange(pos as int, (i + 2) as int) =~= json_escaped(out@));
                }
                i = i + 2;
            } else if e == '\\' {
                push_char(&mut out, '\\');
                proof {
                    lemma_json_escaped_snoc(out0, '\\');
                    assert(chars@.subrange(pos as int, (i + 2) as int) =~= json_escaped(out@));
                }
                i = i + 2;
            } else if e == 'u' {
                if chars.len() - i < 6 {
                    return None;
                }
                if chars[i + 2] != '0' || chars[i + 3] != '0' {
                    return None;
                }
                let v1 = match hex_val(chars[i + 4]) {
                    Some(v) => v,
                    None => {
                        return None;
                    },
                };
                let v2 = match hex_val(chars[i + 5]) {
                    Some(v) => v,
                    None => {
                        return None;
                    },
                };
                let v = v1 * 16 + v2;
                if v >= 0x20 {
                    return None;
                }
                let decoded = (v as u8) as char;
                proof {
                    assert(decoded as u32 == v);
                }
                push_char(&mut out, decoded);
                proof {
                    lemma_json_escaped_snoc(out0, decoded);
                    assert(esc_char(decoded) =~= seq![
                        '\\',
                        'u',
                        '0',
                        '0',
                        hex_char((v / 16) as nat),
                        hex_char((v % 16) as nat),
                    ]);
                    assert(chars@[i + 4] == hex_char((v / 16) as nat));
                    assert(chars@[i + 5] == hex_char((v % 16) as nat));
                    assert(chars@.subrange(pos as int, (i + 6) as int) =~= json_escaped(out@));
                }
                i = i + 6;
            } else {
                return None;
            }
        } else {
            let cv = c as u32;
            if cv < 0x20 {
                return None;
            }
            push_char(&mut out, c);
            proof {
                lemma_json_escaped_snoc(out0, c);
                assert(esc_char(c) =~= seq![c]);
                assert(chars@.subrange(pos as int, (i + 1) as int) =~= json_escaped(out@));
            }
            i = i + 1;
        }
    }
    None
}

/// Consumes an unsigned decimal without leading zeros: whatever is
/// accepted is exactly the canonical decimal form of the result.
#[verifier::loop_isolation(false)]
fn parse_u64(chars: &Vec<char>, pos: usize) -> (r: Option<(u64, usize)>)
    ensures
        match r {
            Some(p) => pos < p.1 <= chars@.len() && chars@.subrange(pos as int, p.1 as int)
                == dec_repr(p.0 as nat),
            None => true,
        },
{
    if pos >= chars.len() {
        return None;
    }
    let first = match dec_val(chars[pos]) {
        Some(d) => d,
        None => {
            return None;
        },
    };
    if first == 0 {
        proof {
            assert(chars@.subrange(pos as int, (pos + 1) as int) =~= dec_repr(0));
        }
        return Some((0, pos + 1));
    }
    let mut acc: u64 = first;
    let mut i: usize = pos + 1;
    proof {
        assert(chars@.subrange(pos as int, (pos + 1) as int) =~= dec_repr(acc as nat));
    }
    while i < chars.len()
        invariant
            pos < i <= chars@.len(),
            acc >= 1,
            chars@.subrange(pos as int, i as int) == dec_repr(acc as nat),
        decreases chars@.len() - i,
    {
        let d = match dec_val(chars[i]) {
            Some(d) => d,
            None => {
                break ;
            },
        };
        if acc > (u64::MAX - d) / 10 {
            return None;
        }
        proof {
            assert((acc * 10 + d) / 10 == acc as int && (acc * 10 + d) % 10 == d as int);
            assert(dec_repr((acc * 10 + d) as nat) == dec_repr(acc as nat).push(
                crate::text::dec_char(d as nat),
            ));
        }
        acc = acc * 10 + d;
        i = i + 1;
        proof {
            assert(chars@.subrange(pos as int, i as int) =~= chars@.subrange(
                pos as int,
                i - 1,
            ).push(chars@[i - 1]));
        }
    }
    Some((acc, i))
}

/// Consumes a signed decimal: whatever is accepted is exactly the
/// canonical signed form of the result.
fn parse_i64(chars: &Vec<char>, pos: usize) -> (r: Option<(i64, usize)>)
    ensures
        match r {
            Some(p) => pos < p.1 <= chars@.len() && chars@.subrange(pos as int, p.1 as int)
                == int_chars(p.0 as int),
            None => true,
        },
{
    if pos < chars.len() && chars[pos] == '-' {
        let parsed = match parse_u64(chars, pos + 1) {
            Some(p) => p,
            None => {
                return None;
            },
        };
        let (mag, p2) = parsed;
        if mag == 0 {
            return None;
        }
        if mag > 9223372036854775808u64 {
            return None;
        }
        let value: i64 = if mag == 9223372036854775808u64 {
            i64::MIN
        } else {
            -(mag as i64)
        };
        proof {
            assert(chars@.subrange(pos as int, p2 as int) =~= seq!['-'] + dec_repr(mag as nat));
        }
        Some((value, p2))
    } else {
        let parsed = match parse_u64(chars, pos) {
            Some(p) => p,
            None => {
                return None;
            },
        };
        let (mag, p2) = parsed;
        if mag > i64::MAX as u64 {
            return None;
        }
        Some((mag as i64, p2))
    }
}

/// Reads a session summary back from its canonical persisted form: the
/// parser is strict, and any text it accepts is exactly the canonical
/// encoding of the value it returns. Together with the encoder's contract
/// this gives the persistence round trip: a saved summary reloads to a
/// value with the same persisted form, hence the same field values.
pub fn parse_session_summary(text: &str) -> (r: Option<SessionSummary>)
    ensures
        match r {
            Some(out) => text@ == summary_chars(summary_model(out)),
            None => true,
        },
{
    let chars = str_chars(text);
    let p0: usize = 0;
    let p1 = match expect_lit(&chars, p0, "{\n  \"sessionId\": \"") {
        Some(p) => p,
        None => {
            return None;
        },
    };
    let sid = match parse_jstring(&chars, p1) {
        Some(p) => p,
        None => {
            return None;
        },
    };
    let (session_id, p2) = sid;
    let p3 = match expect_lit(&chars, p2, ",\n  \"timestampMs\": ") {
        Some(p) => p,
        None => {
            return None;
        },
    };
    let ts = match parse_i64(&chars, p3) {
        Some(p) => p,
        None => {
            return None;
        },
    };
    let (timestamp_ms, p4) = ts;
    let p5 = match expect_lit(&chars, p4, ",\n  \"vin\": ") {
        Some(p) => p,
        None => {
            return None;
        },
    };
    let mut vin: Option<String> = None;
    let mut p6: usize = p5;
    if p5 < chars.len() && chars[p5] == '"' {
        let v = match parse_jstring(&chars, p5 + 1) {
            Some(p) => p,
            None => {
                return None;
            },
        };
        let (vtext, pv) = v;
        vin = Some(vtext);
        p6 = pv;
    } else {
        let pn = match expect_lit(&chars, p5, "null") {
            Some(p) => p,
            None => {
                return None;
            },
        };
        p6 = pn;
    }
    let p7 = match expect_lit(&chars, p6, ",\n  \"moduleCount\": ") {
        Some(p) => p,
        None => {
            return None;
        },
    };
    let mc = match parse_u64(&chars, p7) {
        Some(p) => p,
        None => {
            return None;
        },
    };
    let (module_count64, p8) = mc;
    if module_count64 > usize::MAX as u64 {
        return None;
    }
    let p9 = match expect_lit(&chars, p8, ",\n  \"dtcCount\": ") {
        Some(p) => p,
        None => {
            return None;
        },
    };
    let dc = match parse_u64(&chars, p9) {
        Some(p) => p,
        None => {
            return None;
        },
    };
    let (dtc_count64, p10) = dc;
    if dtc_count64 > usize::MAX as u64 {
        return None;
    }
    let p11 = match expect_lit(&chars, p10, "\n}") {
        Some(p) => p,
        None => {
            return None;
        },
    };
    if p11 != chars.len() {
        return None;
    }
    let out = SessionSummary {
        session_id,
        timestamp_ms,
        vin,
        module_count: module_count64 as usize,
        dtc_count: dtc_count64 as usize,
    };
    proof {
        let t = chars@;
        let m = summary_model(out);
        assert(t =~= t.subrange(0, p1 as int) + t.subrange(p1 as int, p2 as int) + t.subrange(
            p2 as int,
            p3 as int,
        ) + t.subrange(p3 as int, p4 as int) + t.subrange(p4 as int, p5 as int) + t.subrange(
            p5 as int,
            p6 as int,
        ) + t.subrange(p6 as int, p7 as int) + t.subrange(p7 as int, p8 as int) + t.subrange(
            p8 as int,
            p9 as int,
        ) + t.subrange(p9 as int, p10 as int) + t.subrange(p10 as int, p11 as int));
        if m.vin is Some {
            assert(t[p5 as int] == '"');
            assert(t.subrange(p5 as int, p6 as int) =~= seq![t[p5 as int]] + t.subrange(
                (p5 + 1) as int,
                p6 as int,
            ));
            assert(t.subrange(p5 as int, p6 as int) =~= seq!['"'] + (json_escaped(
                m.vin.unwrap(),
            ) + seq!['"']));
        }
        assert(t =~= summary_chars(m));
    }
    Some(out)
}

/// Equal code points mean equal characters.
proof fn lemma_char_eq_by_u32(c1: char, c2: char)
    requires
        c1 as u32 == c2 as u32,
    ensures
        c1 == c2,
{
    if c1 != c2 {
        crate::text::lemma_char_cast_injective(c1, c2);
    }
}

/// Hex digits are distinct below 16.
proof fn lemma_hex_char_inj(x: nat, y: nat)
    requires
        x < 16,
        y < 16,
        hex_char(x) == hex_char(y),
    ensures
        x == y,
{
}

/// Decimal digits are distinct below 10.
proof fn lemma_dec_char_inj(x: nat, y: nat)
    requires
        x < 10,
        y < 10,
        crate::text::dec_char(x) == crate::text::dec_char(y),
    ensures
        x == y,
{
}

/// Every character of a decimal representation is a digit.
proof fn lemma_dec_repr_digits(v: nat)
    ensures
        dec_repr(v).len() >= 1,
        forall|i: int| 0 <= i < dec_repr(v).len() ==> '0' <= #[trigger] dec_repr(v)[i] <= '9',
    decreases v,
{
    if v >= 10 {
        lemma_dec_repr_digits(v / 10);
    }
}

/// Equal decimal representations come from equal values.
proof fn lemma_dec_repr_inj(v1: nat, v2: nat)
    requires
        dec_repr(v1) == dec_repr(v2),
    ensures
        v1 == v2,
    decreases v1,
{
    lemma_dec_repr_digits(v1);
    lemma_dec_repr_digits(v2);
    if v1 < 10 && v2 < 10 {
        lemma_dec_char_inj(v1, v2);
    } else if v1 >= 10 && v2 >= 10 {
        assert(dec_repr(v1).last() == crate::text::dec_char(v1 % 10));
        assert(dec_repr(v2).last() == crate::text::dec_char(v2 % 10));
        lemma_dec_char_inj(v1 % 10, v2 % 10);
        assert(dec_repr(v1).drop_last() =~= dec_repr(v1 / 10));
        assert(dec_repr(v2).drop_last() =~= dec_repr(v2 / 10));
        lemma_dec_repr_inj(v1 / 10, v2 / 10);
    } else if v1 < 10 {
        assert(dec_repr(v1).len() == 1);
        assert(dec_repr(v2).len() == dec_repr(v2 / 10).len() + 1);
        lemma_dec_repr_digits(v2 / 10);
    } else {
        assert(dec_repr(v2).len() == 1);
        assert(dec_repr(v1).len() == dec_repr(v1 / 10).len() + 1);
        lemma_dec_repr_digits(v1 / 10);
    }
}

/// A decimal followed by a non-digit is read off a text in only one way.
proof fn lemma_number_prefix_inj(v1: nat, v2: nat, r1: Seq<char>, r2: Seq<char>)
    requires
        dec_repr(v1) + r1 == dec_repr(v2) + r2,
        r1.len() > 0,
        r2.len() > 0,
        !('0' <= r1[0] <= '9'),
        !('0' <= r2[0] <= '9'),
    ensures
        v1 == v2,
        r1 == r2,
{
    let d1 = dec_repr(v1);
    let d2 = dec_repr(v2);
    lemma_dec_repr_digits(v1);
    lemma_dec_repr_digits(v2);
    if d1.len() < d2.len() {
        assert((d1 + r1)[d1.len() as int] == r1[0]);
        assert((d2 + r2)[d1.len() as int] == d2[d1.len() as int]);
        assert(false);
    } else if d2.len() < d1.len() {
        assert((d2 + r2)[d2.len() as int] == r2[0]);
        assert((d1 + r1)[d2.len() as int] == d1[d2.len() as int]);
        assert(false);
    } else {
        assert(d1 =~= d2) by {
            assert forall|i: int| 0 <= i < d1.len() implies d1[i] == d2[i] by {
                assert((d1 + r1)[i] == d1[i]);
                assert((d2 + r2)[i] == d2[i]);
            }
        }
        assert(r1 =~= r2) by {
            assert((d1 + r1).len() == d1.len() + r1.len());
            assert((d2 + r2).len() == d2.len() + r2.len());
            assert forall|i: int| 0 <= i < r1.len() implies r1[i] == r2[i] by {
                assert((d1 + r1)[d1.len() + i] == r1[i]);
                assert((d2 + r2)[d2.len() + i] == r2[i]);
            }
        }
        lemma_dec_repr_inj(v1, v2);
    }
}

/// A signed decimal followed by a non-digit other than the sign is read
/// off a text in only one way.
proof fn lemma_int_prefix_inj(i1: int, i2: int, r1: Seq<char>, r2: Seq<char>)
    requires
        int_chars(i1) + r1 == int_chars(i2) + r2,
        r1.len() > 0,
        r2.len() > 0,
        !('0' <= r1[0] <= '9') && r1[0] != '-',
        !('0' <= r2[0] <= '9') && r2[0] != '-',
    ensures
        i1 == i2,
        r1 == r2,
{
    if i1 < 0 && i2 < 0 {
        let t1 = dec_repr((-i1) as nat) + r1;
        let t2 = dec_repr((-i2) as nat) + r2;
        assert(t1 =~= t2) by {
            assert((int_chars(i1) + r1).len() == int_chars(i1).len() + r1.len());
            assert((int_chars(i2) + r2).len() == int_chars(i2).len() + r2.len());
            assert(int_chars(i1).len() == 1 + dec_repr((-i1) as nat).len());
            assert(int_chars(i2).len() == 1 + dec_repr((-i2) as nat).len());
            assert(t1.len() == t2.len());
            assert forall|i: int| 0 <= i < t1.len() implies t1[i] == t2[i] by {
                assert((int_chars(i1) + r1)[1 + i] == t1[i]);
                assert((int_chars(i2) + r2)[1 + i] == t2[i]);
            }
        }
        lemma_number_prefix_inj((-i1) as nat, (-i2) as nat, r1, r2);
    } else if i1 >= 0 && i2 >= 0 {
        lemma_number_prefix_inj(i1 as nat, i2 as nat, r1, r2);
    } else if i1 < 0 {
        lemma_dec_repr_digits(i2 as nat);
        assert((int_chars(i1) + r1)[0] == '-');
        assert((int_chars(i2) + r2)[0] == dec_repr(i2 as nat)[0]);
        assert(false);
    } else {
        lemma_dec_repr_digits(i1 as nat);
        assert((int_chars(i2) + r2)[0] == '-');
        assert((int_chars(i1) + r1)[0] == dec_repr(i1 as nat)[0]);
        assert(false);
    }
}

/// How one escaped character starts: never with a quote, and with a
/// backslash exactly for the escaped class.
proof fn lemma_esc_char_shape(c: char)
    ensures
        1 <= esc_char(c).len(),
        esc_char(c)[0] != '"',
        (esc_char(c)[0] == '\\') <==> (c == '"' || c == '\\' || (c as u32) < 0x20),
        !(c == '"' || c == '\\' || (c as u32) < 0x20) ==> esc_char(c) == seq![c],
{
}

/// Equal heads and equal tails make equal sequences.
proof fn lemma_cons_eq(a: Seq<char>, b: Seq<char>)
    requires
        a.len() > 0,
        b.len() > 0,
        a[0] == b[0],
        a.drop_first() == b.drop_first(),
    ensures
        a == b,
{
    assert(a.drop_first().len() == a.len() - 1);
    assert(b.drop_first().len() == b.len() - 1);
    assert forall|i: int| 0 <= i < a.len() implies a[i] == b[i] by {
        if i > 0 {
            assert(a[i] == a.drop_first()[i - 1]);
            assert(b[i] == b.drop_first()[i - 1]);
        }
    }
    assert(a =~= b);
}

/// Dropping the equal escape of the two leading characters leaves equal
/// remainders of two equal string-body texts.
proof fn lemma_jstring_drop(a: Seq<char>, b: Seq<char>, ra: Seq<char>, rb: Seq<char>, k: int)
    requires
        json_escaped(a) + seq!['"'] + ra == json_escaped(b) + seq!['"'] + rb,
        a.len() > 0,
        b.len() > 0,
        esc_char(a[0]).len() == k,
        esc_char(b[0]).len() == k,
        k >= 1,
    ensures
        json_escaped(a.drop_first()) + seq!['"'] + ra == json_escaped(b.drop_first()) + seq!['"']
            + rb,
{
    let la = json_escaped(a) + seq!['"'] + ra;
    let lb = json_escaped(b) + seq!['"'] + rb;
    let ta = json_escaped(a.drop_first()) + seq!['"'] + ra;
    let tb = json_escaped(b.drop_first()) + seq!['"'] + rb;
    assert(json_escaped(a) == esc_char(a[0]) + json_escaped(a.drop_first()));
    assert(json_escaped(b) == esc_char(b[0]) + json_escaped(b.drop_first()));
    assert(la.len() == json_escaped(a).len() + 1 + ra.len());
    assert(lb.len() == json_escaped(b).len() + 1 + rb.len());
    assert(json_escaped(a).len() == k + json_escaped(a.drop_first()).len());
    assert(json_escaped(b).len() == k + json_escaped(b.drop_first()).len());
    assert(ta.len() == json_escaped(a.drop_first()).len() + 1 + ra.len());
    assert(tb.len() == json_escaped(b.drop_first()).len() + 1 + rb.len());
    assert(ta =~= tb) by {
        assert forall|i: int| 0 <= i < ta.len() implies ta[i] == tb[i] by {
            assert(la[k + i] == ta[i]) by {
                if i < json_escaped(a.drop_first()).len() {
                    assert(la[k + i] == json_escaped(a)[k + i]);
                    assert(json_escaped(a)[k + i] == json_escaped(a.drop_first())[i]);
                } else {
                }
            }
            assert(lb[k + i] == tb[i]) by {
                if i < json_escaped(b.drop_first()).len() {
                    assert(lb[k + i] == json_escaped(b)[k + i]);
                    assert(json_escaped(b)[k + i] == json_escaped(b.drop_first())[i]);
                } else {
                }
            }
        }
    }
}

/// A JSON string body followed by its closing quote is read off a text in
/// only one way.
#[verifier::rlimit(60)]
proof fn lemma_jstring_prefix_inj(a: Seq<char>, b: Seq<char>, ra: Seq<char>, rb: Seq<char>)
    requires
        json_escaped(a) + seq!['"'] + ra == json_escaped(b) + seq!['"'] + rb,
    ensures
        a == b,
        ra == rb,
    decreases a.len(),
{
    let la = json_escaped(a) + seq!['"'] + ra;
    let lb = json_escaped(b) + seq!['"'] + rb;
    if a.len() == 0 && b.len() == 0 {
        assert(ra =~= rb) by {
            assert(la.len() == json_escaped(a).len() + 1 + ra.len());
            assert(lb.len() == json_escaped(b).len() + 1 + rb.len());
            assert(ra.len() == rb.len());
            assert forall|i: int| 0 <= i < ra.len() implies ra[i] == rb[i] by {
                assert(la[1 + i] == ra[i]);
                assert(lb[1 + i] == rb[i]);
            }
        }
        assert(a =~= b);
    } else if a.len() == 0 {
        lemma_esc_char_shape(b[0]);
        assert(la[0] == '"');
        assert(lb[0] == esc_char(b[0])[0]);
        assert(false);
    } else if b.len() == 0 {
        lemma_esc_char_shape(a[0]);
        assert(lb[0] == '"');
        assert(la[0] == esc_char(a[0])[0]);
        assert(false);
    } else {
        let ea = esc_char(a[0]);
        let eb = esc_char(b[0]);
        lemma_esc_char_shape(a[0]);
        lemma_esc_char_shape(b[0]);
        assert(la[0] == ea[0]);
        assert(lb[0] == eb[0]);
        if ea[0] != '\\' {
            assert(eb[0] != '\\');
            assert(ea == seq![a[0]] && eb == seq![b[0]]);
            assert(a[0] == b[0]);
            lemma_jstring_drop(a, b, ra, rb, 1);
            lemma_jstring_prefix_inj(a.drop_first(), b.drop_first(), ra, rb);
            lemma_cons_eq(a, b);
        } else {
            assert(eb[0] == '\\');
            let ka = a[0];
            let kb = b[0];
            assert(la[1] == ea[1]);
            assert(lb[1] == eb[1]);
            if ka == '"' || ka == '\\' {
                assert(ea[1] == ka);
                assert(eb[1] == ea[1]);
                assert(ea[1] != 'u');
                assert(kb == '"' || kb == '\\') by {
                    if !(kb == '"' || kb == '\\') {
                        assert(eb[1] == 'u');
                    }
                }
                assert(kb == ka);
                assert(ea.len() == 2 && eb.len() == 2);
                lemma_jstring_drop(a, b, ra, rb, 2);
                lemma_jstring_prefix_inj(a.drop_first(), b.drop_first(), ra, rb);
                lemma_cons_eq(a, b);
            } else {
                assert((ka as u32) < 0x20);
                assert(ea[1] == 'u');
                assert(eb[1] == 'u');
                assert((kb as u32) < 0x20) by {
                    if !((kb as u32) < 0x20) {
                        assert(eb[1] == kb || eb[1] == '"' || eb[1] == '\\');
                    }
                }
                assert(ea.len() == 6 && eb.len() == 6);
                assert(la[4] == ea[4] && la[5] == ea[5]);
                assert(lb[4] == eb[4] && lb[5] == eb[5]);
                lemma_hex_char_inj(((ka as u32) / 16) as nat, ((kb as u32) / 16) as nat);
                lemma_hex_char_inj(((ka as u32) % 16) as nat, ((kb as u32) % 16) as nat);
                lemma_char_eq_by_u32(ka, kb);
                lemma_jstring_drop(a, b, ra, rb, 6);
                lemma_jstring_prefix_inj(a.drop_first(), b.drop_first(), ra, rb);
                lemma_cons_eq(a, b);
            }
        }
    }
}

/// Equal texts behind a shared prefix have equal remainders.
proof fn lemma_peel(p: Seq<char>, x: Seq<char>, y: Seq<char>)
    requires
        p + x == p + y,
    ensures
        x == y,
{
    assert((p + x).len() == p.len() + x.len());
    assert((p + y).len() == p.len() + y.len());
    assert(x =~= y) by {
        assert forall|i: int| 0 <= i < x.len() implies x[i] == y[i] by {
            assert((p + x)[p.len() + i] == x[i]);
            assert((p + y)[p.len() + i] == y[i]);
        }
    }
}

/// The vin field of the persisted form.
pub open spec fn vin_part(m: SummaryModel) -> Seq<char> {
    match m.vin {
        Some(v) => seq!['"'] + (json_escaped(v) + seq!['"']),
        None => "null"@,
    }
}

/// The count fields and closing brace of the persisted form.
pub open spec fn counts_part(m: SummaryModel) -> Seq<char> {
    ",\n  \"moduleCount\": "@ + (dec_repr(m.module_count as nat) + (",\n  \"dtcCount\": "@ + (
    dec_repr(m.dtc_count as nat) + "\n}"@)))
}

/// Everything of the persisted form after the session id's closing quote.
pub open spec fn rest_after_id(m: SummaryModel) -> Seq<char> {
    ",\n  \"timestampMs\": "@ + (int_chars(m.timestamp_ms as int) + (",\n  \"vin\": "@ + (
    vin_part(m) + counts_part(m))))
}

/// The persisted form, regrouped around its variable parts.
proof fn lemma_summary_chars_shape(m: SummaryModel)
    ensures
        summary_chars(m) == "{\n  \"sessionId\": \""@ + (json_escaped(m.session_id) + seq!['"']
            + rest_after_id(m)),
{
    let l1 = "{\n  \"sessionId\": \""@;
    let l2 = ",\n  \"timestampMs\": "@;
    let l3 = ",\n  \"vin\": "@;
    let l4 = ",\n  \"moduleCount\": "@;
    let l5 = ",\n  \"dtcCount\": "@;
    let l6 = "\n}"@;
    let e = json_escaped(m.session_id) + seq!['"'];
    let i = int_chars(m.timestamp_ms as int);
    let v = vin_part(m);
    let d1 = dec_repr(m.module_count as nat);
    let d2 = dec_repr(m.dtc_count as nat);
    let c0 = l1 + e;
    let c1 = c0 + l2;
    let c2 = c1 + i;
    let c3 = c2 + l3;
    let c4 = c3 + v;
    let c5 = c4 + l4;
    let c6 = c5 + d1;
    let c7 = c6 + l5;
    let c8 = c7 + d2;
    vstd::seq_lib::lemma_concat_associative(c7, d2, l6);
    vstd::seq_lib::lemma_concat_associative(c6, l5, d2 + l6);
    vstd::seq_lib::lemma_concat_associative(c5, d1, l5 + (d2 + l6));
    vstd::seq_lib::lemma_concat_associative(c4, l4, d1 + (l5 + (d2 + l6)));
    vstd::seq_lib::lemma_concat_associative(c3, v, counts_part(m));
    vstd::seq_lib::lemma_concat_associative(c2, l3, v + counts_part(m));
    vstd::seq_lib::lemma_concat_associative(c1, i, l3 + (v + counts_part(m)));
    vstd::seq_lib::lemma_concat_associative(c0, l2, i + (l3 + (v + counts_part(m))));
    vstd::seq_lib::lemma_concat_associative(l1, e, rest_after_id(m));
    assert(summary_chars(m) == c8 + l6);
}

/// The persistence round-trip law: two summaries with the same persisted
/// form are the same value. Since the encoder writes exactly this form and
/// the parser accepts nothing else, a saved summary reloads only to an
/// equal value.
#[verifier::rlimit(100)]
pub proof fn lemma_summary_chars_injective(m1: SummaryModel, m2: SummaryModel)
    requires
        summary_chars(m1) == summary_chars(m2),
    ensures
        m1 == m2,
{
    reveal_strlit(",\n  \"timestampMs\": ");
    reveal_strlit(",\n  \"vin\": ");
    reveal_strlit(",\n  \"moduleCount\": ");
    reveal_strlit(",\n  \"dtcCount\": ");
    reveal_strlit("\n}");
    reveal_strlit("null");
    let l1 = "{\n  \"sessionId\": \""@;
    let l2 = ",\n  \"timestampMs\": "@;
    let l3 = ",\n  \"vin\": "@;
    let l4 = ",\n  \"moduleCount\": "@;
    let l5 = ",\n  \"dtcCount\": "@;
    let l6 = "\n}"@;
    lemma_summary_chars_shape(m1);
    lemma_summary_chars_shape(m2);
    lemma_peel(
        l1,
        json_escaped(m1.session_id) + seq!['"'] + rest_after_id(m1),
        json_escaped(m2.session_id) + seq!['"'] + rest_after_id(m2),
    );
    lemma_jstring_prefix_inj(m1.session_id, m2.session_id, rest_after_id(m1), rest_after_id(m2));
    lemma_peel(
        l2,
        int_chars(m1.timestamp_ms as int) + (l3 + (vin_part(m1) + counts_part(m1))),
        int_chars(m2.timestamp_ms as int) + (l3 + (vin_part(m2) + counts_part(m2))),
    );
    assert(l3[0] == ',');
    lemma_int_prefix_inj(
        m1.timestamp_ms as int,
        m2.timestamp_ms as int,
        l3 + (vin_part(m1) + counts_part(m1)),
        l3 + (vin_part(m2) + counts_part(m2)),
    );
    lemma_peel(l3, vin_part(m1) + counts_part(m1), vin_part(m2) + counts_part(m2));
    match (m1.vin, m2.vin) {
        (Some(v1), Some(v2)) => {
            vstd::seq_lib::lemma_concat_associative(
                seq!['"'],
                json_escaped(v1) + seq!['"'],
                counts_part(m1),
            );
            vstd::seq_lib::lemma_concat_associative(
                seq!['"'],
                json_escaped(v2) + seq!['"'],
                counts_part(m2),
            );
            vstd::seq_lib::lemma_concat_associative(
                json_escaped(v1),
                seq!['"'],
                counts_part(m1),
            );
            vstd::seq_lib::lemma_concat_associative(
                json_escaped(v2),
                seq!['"'],
                counts_part(m2),
            );
            lemma_peel(
                seq!['"'],
                json_escaped(v1) + seq!['"'] + counts_part(m1),
                json_escaped(v2) + seq!['"'] + counts_part(m2),
            );
            lemma_jstring_prefix_inj(v1, v2, counts_part(m1), counts_part(m2));
        },
        (None, None) => {
            lemma_peel("null"@, counts_part(m1), counts_part(m2));
        },
        (Some(v1), None) => {
            assert((vin_part(m1) + counts_part(m1))[0] == '"');
            assert((vin_part(m2) + counts_part(m2))[0] == 'n');
            assert(false);
        },
        (None, Some(v2)) => {
            assert((vin_part(m2) + counts_part(m2))[0] == '"');
            assert((vin_part(m1) + counts_part(m1))[0] == 'n');
            assert(false);
        },
    }
    assert(counts_part(m1) == counts_part(m2));
    lemma_peel(
        l4,
        dec_repr(m1.module_count as nat) + (l5 + (dec_repr(m1.dtc_count as nat) + l6)),
        dec_repr(m2.module_count as nat) + (l5 + (dec_repr(m2.dtc_count as nat) + l6)),
    );
    assert(l5[0] == ',');
    lemma_number_prefix_inj(
        m1.module_count as nat,
        m2.module_count as nat,
        l5 + (dec_repr(m1.dtc_count as nat) + l6),
        l5 + (dec_repr(m2.dtc_count as nat) + l6),
    );
    lemma_peel(l5, dec_repr(m1.dtc_count as nat) + l6, dec_repr(m2.dtc_count as nat) + l6);
    assert(l6[0] == '\n');
    lemma_number_prefix_inj(m1.dtc_count as nat, m2.dtc_count as nat, l6, l6);
    assert(m1.vin == m2.vin);
    assert(m1 =~~= m2);
}

} // verus!
