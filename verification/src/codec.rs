//! The serialized form of the server list: a compact JSON object
//! `{"servers":[...]}` with one object per record, fields in a fixed
//! order, and conventional JSON escaping (the two-character escapes for
//! quote, backslash and the usual control shortcuts, and `\u00xx` with
//! lowercase hex for the remaining control bytes; everything else,
//! multi-byte UTF-8 included, passes through verbatim).
//!
//! The encoder emits exactly this canonical form; the parser accepts
//! exactly it, and parsing inverts encoding: the save/load round trip of
//! the list rests on the contracts here.

use vstd::prelude::*;
use vstd::utf8::{encode_scalar, encode_utf8, decode_utf8_encode_utf8, encode_utf8_decode_utf8};

use crate::encoding::{bytes_to_string, dec_bytes, dec_value, is_digit_byte, lemma_dec_bytes_digits, lemma_dec_canonical, lemma_dec_len, lemma_dec_no_leading_zero, lemma_dec_roundtrip, lemma_dec_value_bound, u16_to_decimal};
use crate::server::{Server, ServerList};

verus! {

/// The lowercase hex digit of a value below 16.
pub open spec fn hex_digit(n: u8) -> u8 {
    if n < 10 {
        (48 + n) as u8
    } else {
        (87 + n) as u8
    }
}

/// The value of a lowercase hex digit byte.
pub open spec fn hex_value(d: u8) -> Option<u8> {
    if 48 <= d <= 57 {
        Some((d - 48) as u8)
    } else if 97 <= d <= 102 {
        Some((d - 87) as u8)
    } else {
        None
    }
}

/// The short two-character escapes: quote, backslash, and the control
/// bytes with a dedicated letter.
pub open spec fn short_escape(b: u8) -> Option<u8> {
    if b == 34 {
        Some(34u8)
    } else if b == 92 {
        Some(92u8)
    } else if b == 8 {
        Some(98u8)
    } else if b == 12 {
        Some(102u8)
    } else if b == 10 {
        Some(110u8)
    } else if b == 13 {
        Some(114u8)
    } else if b == 9 {
        Some(116u8)
    } else {
        None
    }
}

/// The byte a short-escape letter stands for.
pub open spec fn unescape_short(e: u8) -> Option<u8> {
    if e == 34 {
        Some(34u8)
    } else if e == 92 {
        Some(92u8)
    } else if e == 98 {
        Some(8u8)
    } else if e == 102 {
        Some(12u8)
    } else if e == 110 {
        Some(10u8)
    } else if e == 114 {
        Some(13u8)
    } else if e == 116 {
        Some(9u8)
    } else {
        None
    }
}

/// The escape sequence of one byte inside a JSON string.
pub open spec fn json_escape_byte(b: u8) -> Seq<u8> {
    match short_escape(b) {
        Some(e) => seq![92u8, e],
        None => if b < 32 {
            seq![92u8, 117u8, 48u8, 48u8, hex_digit(b / 16), hex_digit(b % 16)]
        } else {
            seq![b]
        },
    }
}

/// The escaped body of a JSON string.
pub open spec fn json_escape(s: Seq<u8>) -> Seq<u8>
    decreases s.len(),
{
    if s.len() == 0 {
        Seq::empty()
    } else {
        json_escape_byte(s[0]) + json_escape(s.drop_first())
    }
}

/// Escaping distributes over appending one byte.
pub proof fn lemma_json_escape_push(s: Seq<u8>, b: u8)
    ensures
        json_escape(s.push(b)) == json_escape(s) + json_escape_byte(b),
    decreases s.len(),
{
    if s.len() == 0 {
        assert(s.push(b).drop_first() =~= Seq::<u8>::empty());
        assert(s.push(b)[0] == b);
        assert(json_escape(Seq::<u8>::empty()) =~= Seq::<u8>::empty());
        assert(json_escape(s.push(b)) =~= json_escape_byte(b) + json_escape(
            s.push(b).drop_first(),
        ));
        assert(json_escape(s.push(b)) =~= json_escape_byte(b));
        assert(json_escape(s) + json_escape_byte(b) =~= json_escape_byte(b));
    } else {
        lemma_json_escape_push(s.drop_first(), b);
        assert(s.push(b).drop_first() =~= s.drop_first().push(b));
        assert(s.push(b)[0] == s[0]);
        assert(json_escape_byte(s[0]) + (json_escape(s.drop_first()) + json_escape_byte(b)) =~= (
        json_escape_byte(s[0]) + json_escape(s.drop_first())) + json_escape_byte(b));
    }
}

/// A complete JSON string: the escaped body between quotes.
pub open spec fn json_string(s: Seq<u8>) -> Seq<u8> {
    seq![34u8] + json_escape(s) + seq![34u8]
}

/// The JSON object of one server record, fields in declaration order.
#[verifier::opaque]
pub open spec fn server_json(s: Server) -> Seq<u8> {
    encode_utf8("{\"name\":"@) + json_string(encode_utf8(s.name@)) + encode_utf8(",\"host\":"@)
        + json_string(encode_utf8(s.host@)) + encode_utf8(",\"port\":"@) + dec_bytes(s.port as nat)
        + encode_utf8(",\"user\":"@) + json_string(encode_utf8(s.user@)) + encode_utf8(
        ",\"description\":"@,
    ) + json_string(encode_utf8(s.description@)) + encode_utf8("}"@)
}

/// The array elements from index `k` on, each but the first preceded by a
/// comma.
#[verifier::opaque]
pub open spec fn servers_json_from(ss: Seq<Server>, k: int) -> Seq<u8>
    decreases ss.len() - k,
{
    if k < 0 || k >= ss.len() {
        Seq::empty()
    } else {
        (if k == 0 {
            Seq::empty()
        } else {
            encode_utf8(","@)
        }) + server_json(ss[k]) + servers_json_from(ss, k + 1)
    }
}

/// The complete JSON document of a server list.
pub open spec fn server_list_json(ss: Seq<Server>) -> Seq<u8> {
    encode_utf8("{\"servers\":["@) + servers_json_from(ss, 0) + encode_utf8("]}"@)
}

/// Two records agree in every field.
pub open spec fn same_record(a: Server, b: Server) -> bool {
    &&& a.name@ == b.name@
    &&& a.host@ == b.host@
    &&& a.port == b.port
    &&& a.user@ == b.user@
    &&& a.description@ == b.description@
}

/// Two sequences of records agree pointwise: same records, same order.
pub open spec fn same_records(a: Seq<Server>, b: Seq<Server>) -> bool {
    a.len() == b.len() && forall|i: int| 0 <= i < a.len() ==> same_record(#[trigger] a[i], b[i])
}

/// The result of scanning a JSON string body from a position: the
/// unescaped bytes and the position after the closing quote. `None` on
/// anything that is not the canonical escaping.
pub open spec fn scan_string(data: Seq<u8>, pos: int) -> Option<(Seq<u8>, int)>
    decreases data.len() - pos,
    when 0 <= pos
{
    if pos >= data.len() {
        None
    } else if data[pos] == 34 {
        Some((Seq::empty(), pos + 1))
    } else if data[pos] == 92 {
        if pos + 1 < data.len() {
            let e = data[pos + 1];
            if unescape_short(e) is Some {
                match scan_string(data, pos + 2) {
                    None => None,
                    Some((tail, end)) => Some((seq![unescape_short(e)->Some_0] + tail, end)),
                }
            } else if e == 117 {
                if pos + 5 < data.len() && data[pos + 2] == 48 && data[pos + 3] == 48 && hex_value(
                    data[pos + 4],
                ) is Some && hex_value(data[pos + 5]) is Some {
                    let b = (hex_value(data[pos + 4])->Some_0 * 16 + hex_value(
                        data[pos + 5],
                    )->Some_0) as u8;
                    if b < 32 && short_escape(b) is None {
                        match scan_string(data, pos + 6) {
                            None => None,
                            Some((tail, end)) => Some((seq![b] + tail, end)),
                        }
                    } else {
                        None
                    }
                } else {
                    None
                }
            } else {
                None
            }
        } else {
            None
        }
    } else if data[pos] < 32 {
        None
    } else {
        match scan_string(data, pos + 1) {
            None => None,
            Some((tail, end)) => Some((seq![data[pos]] + tail, end)),
        }
    }
}

/// What a successful scan consumed: exactly the canonical escaping of its
/// result, closed by a quote.
pub proof fn lemma_scan_sound(data: Seq<u8>, pos: int)
    requires
        0 <= pos,
        scan_string(data, pos) is Some,
    ensures
        ({
            let (out, end) = scan_string(data, pos)->Some_0;
            &&& pos < end <= data.len()
            &&& end == pos + json_escape(out).len() + 1
            &&& data.subrange(pos, end) == json_escape(out) + seq![34u8]
        }),
    decreases data.len() - pos,
{
    let (out, end) = scan_string(data, pos)->Some_0;
    if data[pos] == 34 {
        assert(data.subrange(pos, pos + 1) =~= json_escape(Seq::empty()) + seq![34u8]);
    } else if data[pos] == 92 {
        let e = data[pos + 1];
        if unescape_short(e) is Some {
            let u = unescape_short(e)->Some_0;
            let (tail, tend) = scan_string(data, pos + 2)->Some_0;
            lemma_scan_sound(data, pos + 2);
            assert(short_escape(u) == Some(e));
            assert((seq![u] + tail)[0] == u);
            assert((seq![u] + tail).drop_first() =~= tail);
            assert(json_escape(out) =~= seq![92u8, e] + json_escape(tail));
            assert(data.subrange(pos, tend) =~= seq![92u8, e] + data.subrange(pos + 2, tend));
            assert(data.subrange(pos, tend) =~= json_escape(out) + seq![34u8]);
        } else {
            let h1 = hex_value(data[pos + 4])->Some_0;
            let h2 = hex_value(data[pos + 5])->Some_0;
            let b = (h1 * 16 + h2) as u8;
            let (tail, tend) = scan_string(data, pos + 6)->Some_0;
            lemma_scan_sound(data, pos + 6);
            assert(h1 < 16 && h2 < 16);
            assert(b / 16 == h1 && b % 16 == h2);
            assert(hex_digit(h1) == data[pos + 4] && hex_digit(h2) == data[pos + 5]);
            assert((seq![b] + tail)[0] == b);
            assert((seq![b] + tail).drop_first() =~= tail);
            assert(json_escape(out) =~= seq![92u8, 117u8, 48u8, 48u8, data[pos + 4], data[pos + 5]]
                + json_escape(tail));
            assert(data.subrange(pos, tend) =~= seq![
                92u8,
                117u8,
                48u8,
                48u8,
                data[pos + 4],
                data[pos + 5],
            ] + data.subrange(pos + 6, tend));
            assert(data.subrange(pos, tend) =~= json_escape(out) + seq![34u8]);
        }
    } else {
        let b = data[pos];
        let (tail, tend) = scan_string(data, pos + 1)->Some_0;
        lemma_scan_sound(data, pos + 1);
        assert((seq![b] + tail)[0] == b);
        assert((seq![b] + tail).drop_first() =~= tail);
        assert(json_escape(out) =~= seq![b] + json_escape(tail));
        assert(data.subrange(pos, tend) =~= seq![b] + data.subrange(pos + 1, tend));
        assert(data.subrange(pos, tend) =~= json_escape(out) + seq![34u8]);
    }
}

/// Scanning finds exactly what escaping wrote: wherever the data carries
/// the canonical escaping of `s` followed by a closing quote, the scan
/// succeeds and recovers `s`.
pub proof fn lemma_scan_escape(data: Seq<u8>, pos: int, s: Seq<u8>)
    requires
        0 <= pos,
        pos + json_escape(s).len() + 1 <= data.len(),
        data.subrange(pos, pos + json_escape(s).len()) == json_escape(s),
        data[pos + json_escape(s).len()] == 34,
    ensures
        scan_string(data, pos) == Some((s, pos + json_escape(s).len() + 1)),
    decreases s.len(),
{
    if s.len() == 0 {
        assert(data[pos] == 34);
    } else {
        let b = s[0];
        let eb = json_escape_byte(b);
        let tail = s.drop_first();
        let etail = json_escape(tail);
        assert(json_escape(s) =~= eb + etail);
        let el = eb.len();
        assert forall|k: int| 0 <= k < el implies data[pos + k] == eb[k] by {
            assert(data.subrange(pos, pos + json_escape(s).len())[k] == eb[k]);
        }
        assert(data.subrange(pos + el, pos + el + etail.len()) =~= etail) by {
            assert forall|k: int| 0 <= k < etail.len() implies data[pos + el + k] == etail[k] by {
                assert(data.subrange(pos, pos + json_escape(s).len())[el + k] == etail[k]);
            }
        }
        lemma_scan_escape(data, pos + el, tail);
        if short_escape(b) is Some {
            let e = short_escape(b)->Some_0;
            assert(eb =~= seq![92u8, e]);
            assert(data[pos] == 92 && data[pos + 1] == e);
            assert(unescape_short(e) == Some(b));
            assert(scan_string(data, pos + 2) == Some((tail, pos + json_escape(s).len() + 1)));
            assert(seq![b] + tail =~= s);
        } else if b < 32 {
            assert(eb =~= seq![92u8, 117u8, 48u8, 48u8, hex_digit(b / 16), hex_digit(b % 16)]);
            assert(data[pos] == 92 && data[pos + 1] == 117);
            assert(data[pos + 2] == 48 && data[pos + 3] == 48);
            assert(hex_value(hex_digit(b / 16)) == Some((b / 16) as u8));
            assert(hex_value(hex_digit(b % 16)) == Some((b % 16) as u8));
            assert((b / 16) * 16 + (b % 16) == b);
            assert(scan_string(data, pos + 6) == Some((tail, pos + json_escape(s).len() + 1)));
            assert(seq![b] + tail =~= s);
        } else {
            assert(eb =~= seq![b]);
            assert(data[pos + 0] == eb[0]);
            assert(data[pos] == b);
            assert(b != 34 && b != 92);
            assert(scan_string(data, pos + 1) == Some((tail, pos + json_escape(s).len() + 1)));
            assert(seq![b] + tail =~= s);
        }
    }
}

/// How a scan result extends when the scan continues from further in.
spec fn scan_compose(prefix: Seq<u8>, r: Option<(Seq<u8>, int)>) -> Option<(Seq<u8>, int)> {
    match r {
        None => None,
        Some((tail, end)) => Some((prefix + tail, end)),
    }
}

/// The value of a lowercase hex digit byte.
fn hex_value_of(d: u8) -> (r: Option<u8>)
    ensures
        r == hex_value(d),
{
    if 48 <= d && d <= 57 {
        Some(d - 48)
    } else if 97 <= d && d <= 102 {
        Some(d - 87)
    } else {
        None
    }
}

/// The byte a short-escape letter stands for.
fn unescape_short_of(e: u8) -> (r: Option<u8>)
    ensures
        r == unescape_short(e),
{
    if e == 34 {
        Some(34)
    } else if e == 92 {
        Some(92)
    } else if e == 98 {
        Some(8)
    } else if e == 102 {
        Some(12)
    } else if e == 110 {
        Some(10)
    } else if e == 114 {
        Some(13)
    } else if e == 116 {
        Some(9)
    } else {
        None
    }
}

/// Whether a byte has a short escape.
fn has_short_escape(b: u8) -> (r: bool)
    ensures
        r == (short_escape(b) is Some),
{
    b == 34 || b == 92 || b == 8 || b == 12 || b == 10 || b == 13 || b == 9
}

/// Scan a JSON string body starting after its opening quote; the result
/// is the unescaped bytes and the position after the closing quote.
fn scan_json_string(data: &[u8], start: usize) -> (r: Option<(Vec<u8>, usize)>)
    ensures
        r matches Some((out, end)) ==> scan_string(data@, start as int) == Some(
            (out@, end as int),
        ) && start < end <= data@.len(),
        r is None ==> scan_string(data@, start as int) is None,
{
    let n = data.len();
    let mut out: Vec<u8> = Vec::new();
    let mut p = start;
    loop
        invariant
            start <= p,
            n == data@.len(),
            scan_string(data@, start as int) == scan_compose(
                out@,
                scan_string(data@, p as int),
            ),
        decreases n - p,
    {
        if p >= n {
            return None;
        }
        let b = data[p];
        if b == 34 {
            proof {
                assert(out@ + Seq::<u8>::empty() =~= out@);
            }
            return Some((out, p + 1));
        }
        if b == 92 {
            if p + 1 >= n {
                return None;
            }
            let e = data[p + 1];
            match unescape_short_of(e) {
                Some(u) => {
                    let ghost out_pre = out@;
                    out.push(u);
                    proof {
                        let sc = scan_string(data@, p + 2);
                        if sc is Some {
                            let (tail, end) = sc->Some_0;
                            assert(out_pre + (seq![u] + tail) =~= (out_pre.push(u)) + tail);
                        }
                        assert(scan_compose(out_pre, scan_string(data@, p as int))
                            == scan_compose(out@, scan_string(data@, p + 2)));
                    }
                    p = p + 2;
                },
                None => {
                    if e != 117 {
                        return None;
                    }
                    if n - p < 6 {
                        return None;
                    }
                    if data[p + 2] != 48 || data[p + 3] != 48 {
                        return None;
                    }
                    let h1 = match hex_value_of(data[p + 4]) {
                        Some(h) => h,
                        None => {
                            return None;
                        },
                    };
                    let h2 = match hex_value_of(data[p + 5]) {
                        Some(h) => h,
                        None => {
                            return None;
                        },
                    };
                    let u = h1 * 16 + h2;
                    if !(u < 32 && !has_short_escape(u)) {
                        return None;
                    }
                    let ghost out_pre = out@;
                    out.push(u);
                    proof {
                        let sc = scan_string(data@, p + 6);
                        if sc is Some {
                            let (tail, end) = sc->Some_0;
                            assert(out_pre + (seq![u] + tail) =~= (out_pre.push(u)) + tail);
                        }
                        assert(scan_compose(out_pre, scan_string(data@, p as int))
                            == scan_compose(out@, scan_string(data@, p + 6)));
                    }
                    p = p + 6;
                },
            }
        } else if b < 32 {
            return None;
        } else {
            let ghost out_pre = out@;
            out.push(b);
            proof {
                let sc = scan_string(data@, p + 1);
                if sc is Some {
                    let (tail, end) = sc->Some_0;
                    assert(out_pre + (seq![b] + tail) =~= (out_pre.push(b)) + tail);
                }
                assert(scan_compose(out_pre, scan_string(data@, p as int)) == scan_compose(
                    out@,
                    scan_string(data@, p + 1),
                ));
            }
            p = p + 1;
        }
    }
}

/// The UTF-8 encoding of an ASCII character standing first in a sequence
/// is that character's code, as one byte.
proof fn lemma_ascii_head(s: Seq<char>, c: char)
    requires
        s.len() >= 1,
        s[0] == c,
        (c as u32) < 128,
    ensures
        encode_utf8(s) == encode_scalar(c as u32) + encode_utf8(s.drop_first()),
        encode_scalar(c as u32) == seq![c as u8],
{
    let cu = c as u32;
    assert(cu & 0x7F == cu) by (bit_vector)
        requires
            cu < 128,
    ;
    assert(c as u8 == (c as u32) as u8);
    assert(encode_scalar(c as u32) =~= seq![c as u8]);
}

/// The byte of the comma literal.
proof fn lemma_comma_bytes()
    ensures
        encode_utf8(","@) == seq![44u8],
{
    reveal_strlit(",");
    lemma_ascii_head(","@, ',');
    assert(","@.drop_first() =~= Seq::<char>::empty());
    assert(encode_utf8(","@) =~= seq![44u8]);
}

/// The bytes of the closing literal of the document.
proof fn lemma_close_bytes()
    ensures
        encode_utf8("]}"@) == seq![93u8, 125u8],
{
    reveal_strlit("]}");
    lemma_ascii_head("]}"@, ']');
    lemma_ascii_head("]}"@.drop_first(), '}');
    assert("]}"@.drop_first().drop_first() =~= Seq::<char>::empty());
    assert(encode_utf8("]}"@) =~= seq![93u8, 125u8]);
}

/// The first byte of a record object is the opening brace.
proof fn lemma_server_json_head(s: Server)
    ensures
        server_json(s).len() >= 1,
        server_json(s)[0] == 123u8,
{
    reveal(server_json);
    reveal_strlit("{\"name\":");
    lemma_ascii_head("{\"name\":"@, '{');
    assert(encode_utf8("{\"name\":"@)[0] == 123u8);
    assert(server_json(s)[0] == encode_utf8("{\"name\":"@)[0]);
}

/// Append the escaped bytes of a string to the output.
fn push_escaped(out: &mut Vec<u8>, s: &str)
    ensures
        final(out)@ == old(out)@ + json_escape(encode_utf8(s@)),
{
    let bytes = s.as_bytes();
    let n = bytes.len();
    let mut i: usize = 0;
    while i < n
        invariant
            i <= n,
            n == bytes@.len(),
            bytes@ == encode_utf8(s@),
            out@ == old(out)@ + json_escape(bytes@.take(i as int)),
        decreases n - i,
    {
        let b = bytes[i];
        if b == 34 {
            out.push(92);
            out.push(34);
        } else if b == 92 {
            out.push(92);
            out.push(92);
        } else if b == 8 {
            out.push(92);
            out.push(98);
        } else if b == 12 {
            out.push(92);
            out.push(102);
        } else if b == 10 {
            out.push(92);
            out.push(110);
        } else if b == 13 {
            out.push(92);
            out.push(114);
        } else if b == 9 {
            out.push(92);
            out.push(116);
        } else if b < 32 {
            out.push(92);
            out.push(117);
            out.push(48);
            out.push(48);
            let hi = b / 16;
            let lo = b % 16;
            out.push(if hi < 10 { 48 + hi } else { 87 + hi });
            out.push(if lo < 10 { 48 + lo } else { 87 + lo });
        } else {
            out.push(b);
        }
        proof {
            lemma_json_escape_push(bytes@.take(i as int), b);
            assert(bytes@.take(i + 1) =~= bytes@.take(i as int).push(b));
            assert(out@ =~= old(out)@ + json_escape(bytes@.take(i + 1)));
        }
        i = i + 1;
    }
    proof {
        assert(bytes@.take(n as int) =~= bytes@);
    }
}

/// Append a complete JSON string to the output.
fn push_json_string(out: &mut Vec<u8>, s: &str)
    ensures
        final(out)@ == old(out)@ + json_string(encode_utf8(s@)),
{
    out.push(34);
    push_escaped(out, s);
    out.push(34);
    proof {
        assert(out@ =~= old(out)@ + json_string(encode_utf8(s@)));
    }
}

/// Append the JSON object of one record to the output.
fn push_server_json(out: &mut Vec<u8>, s: &Server)
    ensures
        final(out)@ == old(out)@ + server_json(*s),
{
    out.extend_from_slice("{\"name\":".as_bytes());
    push_json_string(out, s.name.as_str());
    out.extend_from_slice(",\"host\":".as_bytes());
    push_json_string(out, s.host.as_str());
    out.extend_from_slice(",\"port\":".as_bytes());
    let mut digits = u16_to_decimal(s.port);
    out.append(&mut digits);
    out.extend_from_slice(",\"user\":".as_bytes());
    push_json_string(out, s.user.as_str());
    out.extend_from_slice(",\"description\":".as_bytes());
    push_json_string(out, s.description.as_str());
    out.extend_from_slice("}".as_bytes());
    proof {
        reveal(server_json);
        assert(out@ =~= old(out)@ + server_json(*s));
    }
}

/// A subrange equal to a concatenation splits into subranges equal to the
/// parts.
proof fn lemma_split_at(data: Seq<u8>, p: int, a: Seq<u8>, b: Seq<u8>)
    requires
        0 <= p,
        p + a.len() + b.len() <= data.len(),
        data.subrange(p, p + a.len() + b.len()) == a + b,
    ensures
        data.subrange(p, p + a.len()) == a,
        data.subrange(p + a.len(), p + a.len() + b.len()) == b,
{
    assert(data.subrange(p, p + a.len()) =~= a) by {
        assert forall|k: int| 0 <= k < a.len() implies data[p + k] == a[k] by {
            assert(data.subrange(p, p + a.len() + b.len())[k] == data[p + k]);
            assert((a + b)[k] == a[k]);
            assert(data.subrange(p, p + a.len() + b.len())[k] == (a + b)[k]);
        }
    }
    assert(data.subrange(p + a.len(), p + a.len() + b.len()) =~= b) by {
        assert forall|k: int| 0 <= k < b.len() implies data[p + a.len() + k] == b[k] by {
            assert(data.subrange(p, p + a.len() + b.len())[a.len() + k] == data[p + a.len() + k]);
            assert((a + b)[a.len() + k] == b[k]);
            assert(data.subrange(p, p + a.len() + b.len())[a.len() + k] == (a + b)[a.len() + k]);
        }
    }
}

/// Check that the bytes at `start` are exactly `pat`, and step past them.
fn expect_bytes(data: &[u8], start: usize, pat: &[u8]) -> (r: Option<usize>)
    ensures
        r matches Some(end) ==> end == start + pat@.len() && end <= data@.len() && data@.subrange(
            start as int,
            end as int,
        ) == pat@,
        r is None ==> !(start + pat@.len() <= data@.len() && data@.subrange(
            start as int,
            start + pat@.len(),
        ) == pat@),
{
    let n = data.len();
    let m = pat.len();
    if m > n || start > n - m {
        proof {
            assert(start + pat@.len() > data@.len());
        }
        return None;
    }
    let mut i: usize = 0;
    while i < m
        invariant
            i <= m,
            m == pat@.len(),
            n == data@.len(),
            start + m <= n,
            forall|j: int| 0 <= j < i ==> data@[start + j] == pat@[j],
        decreases m - i,
    {
        if data[start + i] != pat[i] {
            proof {
                let k = i as int;
                assert(data@.subrange(start as int, start + pat@.len())[k] != pat@[k]);
            }
            return None;
        }
        i = i + 1;
    }
    proof {
        assert(data@.subrange(start as int, start + pat@.len()) =~= pat@);
    }
    Some(start + m)
}

/// Check that the byte at `start` is a double quote, and step past it.
fn expect_quote(data: &[u8], start: usize) -> (r: Option<usize>)
    ensures
        r matches Some(end) ==> end == start + 1 && end <= data@.len() && data@[start as int]
            == 34u8,
        r is None ==> !(start < data@.len() && data@[start as int] == 34u8),
{
    if start < data.len() && data[start] == 34 {
        Some(start + 1)
    } else {
        None
    }
}

/// Parse a JSON string at `start` (opening quote included) into the
/// string it denotes; canonical escaping only, and the bytes must be
/// valid UTF-8.
fn parse_json_text(data: &[u8], start: usize) -> (r: Option<(String, usize)>)
    ensures
        r matches Some((s, end)) ==> start <= end <= data@.len() && data@.subrange(
            start as int,
            end as int,
        ) == json_string(encode_utf8(s@)),
        forall|cs: Seq<char>|
            #![trigger json_string(encode_utf8(cs))]
            {
                let js = json_string(encode_utf8(cs));
                (start + js.len() <= data@.len() && data@.subrange(start as int, start + js.len())
                    == js) ==> r is Some && r->Some_0.0@ == cs && r->Some_0.1 == start + js.len()
            },
{
    let q = expect_quote(data, start);
    proof {
        assert forall|cs: Seq<char>|
            #![trigger json_string(encode_utf8(cs))]
            {
                let js = json_string(encode_utf8(cs));
                start + js.len() <= data@.len() && data@.subrange(start as int, start + js.len())
                    == js
            } implies start < data@.len() && data@[start as int] == 34u8 && {
            let es = json_escape(encode_utf8(cs));
            &&& start + 1 + es.len() + 1 <= data@.len()
            &&& data@.subrange(start + 1, start + 1 + es.len()) == es
            &&& data@[start + 1 + es.len()] == 34u8
        } by {
            let js = json_string(encode_utf8(cs));
            let es = json_escape(encode_utf8(cs));
            assert(js =~= seq![34u8] + (es + seq![34u8]));
            assert(data@.subrange(start as int, start + 1 + (es + seq![34u8]).len()) == seq![34u8]
                + (es + seq![34u8]));
            lemma_split_at(data@, start as int, seq![34u8], es + seq![34u8]);
            assert(data@.subrange(start as int, start + 1)[0] == 34u8);
            lemma_split_at(data@, start + 1, es, seq![34u8]);
            assert(data@.subrange(start + 1 + es.len(), start + 1 + es.len() + 1)[0] == 34u8);
        }
    }
    let p = match q {
        Some(p) => p,
        None => {
            return None;
        },
    };
    let scanned = scan_json_string(data, p);
    proof {
        assert forall|cs: Seq<char>|
            #![trigger json_string(encode_utf8(cs))]
            {
                let js = json_string(encode_utf8(cs));
                start + js.len() <= data@.len() && data@.subrange(start as int, start + js.len())
                    == js
            } implies scan_string(data@, p as int) == Some(
            (encode_utf8(cs), start + json_string(encode_utf8(cs)).len()),
        ) by {
            let js = json_string(encode_utf8(cs));
            let es = json_escape(encode_utf8(cs));
            assert(js =~= seq![34u8] + (es + seq![34u8]));
            assert(data@.subrange(start as int, start + 1 + (es + seq![34u8]).len()) == seq![34u8]
                + (es + seq![34u8]));
            lemma_split_at(data@, start as int, seq![34u8], es + seq![34u8]);
            assert(data@.subrange(start as int, start + 1)[0] == 34u8);
            lemma_split_at(data@, start + 1, es, seq![34u8]);
            assert(data@.subrange(start + 1 + es.len(), start + 1 + es.len() + 1)[0] == 34u8);
            lemma_scan_escape(data@, start + 1, encode_utf8(cs));
        }
    }
    let (bytes, end) = match scanned {
        Some(be) => be,
        None => {
            return None;
        },
    };
    proof {
        lemma_scan_sound(data@, p as int);
        broadcast use vstd::utf8::encode_utf8_valid_utf8;
        broadcast use vstd::utf8::encode_utf8_decode_utf8;
        broadcast use vstd::utf8::decode_utf8_encode_utf8;

    }
    let ghost scanned_bytes = bytes@;
    let s = match bytes_to_string(bytes) {
        Ok(s) => s,
        Err(_) => {
            proof {
                assert forall|cs: Seq<char>|
                    #![trigger json_string(encode_utf8(cs))]
                    {
                        let js = json_string(encode_utf8(cs));
                        start + js.len() <= data@.len() && data@.subrange(
                            start as int,
                            start + js.len(),
                        ) == js
                    } implies false by {}
            }
            return None;
        },
    };
    proof {
        assert(data@.subrange(start as int, end as int) =~= seq![34u8] + (json_escape(
            scanned_bytes,
        ) + seq![34u8]));
        assert(encode_utf8(s@) == scanned_bytes);
        assert(data@.subrange(start as int, end as int) == json_string(encode_utf8(s@)));
    }
    Some((s, end))
}

/// Parse a decimal port number at `start`: the longest digit run, which
/// must be the canonical numeral of a value within 16 bits.
fn parse_port(data: &[u8], start: usize) -> (r: Option<(u16, usize)>)
    ensures
        r matches Some((v, end)) ==> start <= end <= data@.len() && data@.subrange(
            start as int,
            end as int,
        ) == dec_bytes(v as nat) && (end == data@.len() || !is_digit_byte(data@[end as int])),
        forall|n: u16|
            #![trigger dec_bytes(n as nat)]
            {
                let db = dec_bytes(n as nat);
                (start + db.len() < data@.len() && data@.subrange(start as int, start + db.len())
                    == db && !is_digit_byte(data@[start + db.len()])) ==> r is Some
                    && r->Some_0.0 == n && r->Some_0.1 == start + db.len()
            },
{
    let n = data.len();
    if start >= n {
        proof {
            assert forall|n0: u16|
                #![trigger dec_bytes(n0 as nat)]
                {
                    let db = dec_bytes(n0 as nat);
                    start + db.len() < data@.len() && data@.subrange(
                        start as int,
                        start + db.len(),
                    ) == db && !is_digit_byte(data@[start + db.len()])
                } implies false by {}
        }
        return None;
    }
    let mut end = start;
    loop
        invariant
            start <= end <= n,
            n == data@.len(),
            forall|j: int| start <= j < end ==> is_digit_byte(#[trigger] data@[j]),
        ensures
            start <= end <= n,
            end == n || !is_digit_byte(data@[end as int]),
            forall|j: int| start <= j < end ==> is_digit_byte(#[trigger] data@[j]),
        decreases n - end,
    {
        if end >= n {
            break ;
        }
        let b = data[end];
        if !(48 <= b && b <= 57) {
            break ;
        }
        end = end + 1;
    }
    let ghost region = data@.subrange(start as int, end as int);
    proof {
        assert forall|n0: u16|
            #![trigger dec_bytes(n0 as nat)]
            {
                let db = dec_bytes(n0 as nat);
                start + db.len() < data@.len() && data@.subrange(start as int, start + db.len())
                    == db && !is_digit_byte(data@[start + db.len()])
            } implies end == start + dec_bytes(n0 as nat).len() by {
            let db = dec_bytes(n0 as nat);
            lemma_dec_bytes_digits(n0 as nat);
            assert forall|j: int| start <= j < start + db.len() implies is_digit_byte(
                #[trigger] data@[j],
            ) by {
                assert(data@.subrange(start as int, start + db.len())[j - start] == db[j - start]);
            }
            if end < start + db.len() {
                assert(is_digit_byte(data@[end as int]));
            }
            if end > start + db.len() {
                assert(is_digit_byte(data@[start + db.len()]));
            }
        }
        assert forall|j: int| 0 <= j < region.len() implies is_digit_byte(
            #[trigger] region[j],
        ) by {
            assert(region[j] == data@[start + j]);
        }
    }
    let count = end - start;
    if count == 0 || count > 5 {
        proof {
            assert forall|n0: u16|
                #![trigger dec_bytes(n0 as nat)]
                {
                    let db = dec_bytes(n0 as nat);
                    start + db.len() < data@.len() && data@.subrange(
                        start as int,
                        start + db.len(),
                    ) == db && !is_digit_byte(data@[start + db.len()])
                } implies false by {
                lemma_dec_bytes_digits(n0 as nat);
                lemma_dec_len(n0 as nat);
            }
        }
        return None;
    }
    if count > 1 && data[start] == 48 {
        proof {
            assert forall|n0: u16|
                #![trigger dec_bytes(n0 as nat)]
                {
                    let db = dec_bytes(n0 as nat);
                    start + db.len() < data@.len() && data@.subrange(
                        start as int,
                        start + db.len(),
                    ) == db && !is_digit_byte(data@[start + db.len()])
                } implies false by {
                let db = dec_bytes(n0 as nat);
                lemma_dec_bytes_digits(n0 as nat);
                if n0 >= 1 {
                    lemma_dec_no_leading_zero(n0 as nat);
                    assert(data@.subrange(start as int, start + db.len())[0] == db[0]);
                } else {
                    lemma_dec_len(n0 as nat);
                }
            }
        }
        return None;
    }
    let mut acc: u32 = 0;
    let mut i = start;
    while i < end
        invariant
            start <= i <= end <= n,
            n == data@.len(),
            end - start <= 5,
            forall|j: int| start <= j < end ==> is_digit_byte(#[trigger] data@[j]),
            acc == dec_value(data@.subrange(start as int, i as int)),
            acc < 100000,
        decreases end - i,
    {
        let b = data[i];
        proof {
            let pre = data@.subrange(start as int, i as int);
            let cur = data@.subrange(start as int, i + 1);
            assert(cur.drop_last() =~= pre);
            assert(cur.last() == b);
            assert forall|j: int| 0 <= j < cur.len() implies is_digit_byte(
                #[trigger] cur[j],
            ) by {
                assert(cur[j] == data@[start + j]);
            }
            lemma_dec_value_bound(cur);
        }
        acc = acc * 10 + ((b - 48) as u32);
        i = i + 1;
    }
    proof {
        lemma_dec_canonical(region);
    }
    if acc > 65535 {
        proof {
            assert forall|n0: u16|
                #![trigger dec_bytes(n0 as nat)]
                {
                    let db = dec_bytes(n0 as nat);
                    start + db.len() < data@.len() && data@.subrange(
                        start as int,
                        start + db.len(),
                    ) == db && !is_digit_byte(data@[start + db.len()])
                } implies false by {
                let db = dec_bytes(n0 as nat);
                assert(end == start + db.len());
                assert(region =~= db);
                lemma_dec_roundtrip(n0 as nat);
            }
        }
        return None;
    }
    let v = acc as u16;
    proof {
        assert(data@.subrange(start as int, end as int) == dec_bytes(v as nat));
        assert forall|n0: u16|
            #![trigger dec_bytes(n0 as nat)]
            {
                let db = dec_bytes(n0 as nat);
                start + db.len() < data@.len() && data@.subrange(start as int, start + db.len())
                    == db && !is_digit_byte(data@[start + db.len()])
            } implies v == n0 && end == start + dec_bytes(n0 as nat).len() by {
            let db = dec_bytes(n0 as nat);
            assert(end == start + db.len());
            assert(region =~= db);
            lemma_dec_roundtrip(n0 as nat);
        }
    }
    Some((v, end))
}

/// Whether the encoding of record `s` sits at `start` in `data`.
pub open spec fn server_json_at(data: Seq<u8>, start: int, s: Server) -> bool {
    &&& 0 <= start
    &&& start + server_json(s).len() <= data.len()
    &&& data.subrange(start, start + server_json(s).len()) == server_json(s)
}

/// Where each field of a record's encoding sits, relative to its start.
/// The offsets are spelled as cumulative lengths of the pieces.
spec fn sj_name(start: int, s: Server) -> int {
    start + encode_utf8("{\"name\":"@).len()
}

spec fn sj_after_name(start: int, s: Server) -> int {
    sj_name(start, s) + json_string(encode_utf8(s.name@)).len()
}

spec fn sj_host(start: int, s: Server) -> int {
    sj_after_name(start, s) + encode_utf8(",\"host\":"@).len()
}

spec fn sj_after_host(start: int, s: Server) -> int {
    sj_host(start, s) + json_string(encode_utf8(s.host@)).len()
}

spec fn sj_port(start: int, s: Server) -> int {
    sj_after_host(start, s) + encode_utf8(",\"port\":"@).len()
}

spec fn sj_after_port(start: int, s: Server) -> int {
    sj_port(start, s) + dec_bytes(s.port as nat).len()
}

spec fn sj_user(start: int, s: Server) -> int {
    sj_after_port(start, s) + encode_utf8(",\"user\":"@).len()
}

spec fn sj_after_user(start: int, s: Server) -> int {
    sj_user(start, s) + json_string(encode_utf8(s.user@)).len()
}

spec fn sj_desc(start: int, s: Server) -> int {
    sj_after_user(start, s) + encode_utf8(",\"description\":"@).len()
}

spec fn sj_after_desc(start: int, s: Server) -> int {
    sj_desc(start, s) + json_string(encode_utf8(s.description@)).len()
}

spec fn sj_end(start: int, s: Server) -> int {
    sj_after_desc(start, s) + encode_utf8("}"@).len()
}

/// A record's encoding decomposes into its pieces, each at its offset.
#[verifier::rlimit(100)]
#[verifier::spinoff_prover]
proof fn lemma_server_json_parts(data: Seq<u8>, start: int, s: Server)
    requires
        server_json_at(data, start, s),
    ensures
        sj_end(start, s) == start + server_json(s).len() <= data.len(),
        data.subrange(start, sj_name(start, s)) == encode_utf8("{\"name\":"@),
        data.subrange(sj_name(start, s), sj_after_name(start, s)) == json_string(
            encode_utf8(s.name@),
        ),
        data.subrange(sj_after_name(start, s), sj_host(start, s)) == encode_utf8(",\"host\":"@),
        data.subrange(sj_host(start, s), sj_after_host(start, s)) == json_string(
            encode_utf8(s.host@),
        ),
        data.subrange(sj_after_host(start, s), sj_port(start, s)) == encode_utf8(",\"port\":"@),
        data.subrange(sj_port(start, s), sj_after_port(start, s)) == dec_bytes(s.port as nat),
        data.subrange(sj_after_port(start, s), sj_user(start, s)) == encode_utf8(",\"user\":"@),
        data.subrange(sj_user(start, s), sj_after_user(start, s)) == json_string(
            encode_utf8(s.user@),
        ),
        data.subrange(sj_after_user(start, s), sj_desc(start, s)) == encode_utf8(
            ",\"description\":"@,
        ),
        data.subrange(sj_desc(start, s), sj_after_desc(start, s)) == json_string(
            encode_utf8(s.description@),
        ),
        data.subrange(sj_after_desc(start, s), sj_end(start, s)) == encode_utf8("}"@),
{
    let l1 = encode_utf8("{\"name\":"@);
    let jn = json_string(encode_utf8(s.name@));
    let l2 = encode_utf8(",\"host\":"@);
    let jh = json_string(encode_utf8(s.host@));
    let l3 = encode_utf8(",\"port\":"@);
    let dp = dec_bytes(s.port as nat);
    let l4 = encode_utf8(",\"user\":"@);
    let ju = json_string(encode_utf8(s.user@));
    let l5 = encode_utf8(",\"description\":"@);
    let jd = json_string(encode_utf8(s.description@));
    let l6 = encode_utf8("}"@);
    reveal(server_json);
    let r1 = jn + (l2 + (jh + (l3 + (dp + (l4 + (ju + (l5 + (jd + l6))))))));
    assert(server_json(s) =~= l1 + r1);
    assert(data.subrange(start, start + l1.len() + r1.len()) == l1 + r1);
    lemma_split_at(data, start, l1, r1);
    let o1 = sj_name(start, s);
    let r2 = l2 + (jh + (l3 + (dp + (l4 + (ju + (l5 + (jd + l6)))))));
    assert(data.subrange(o1, o1 + jn.len() + r2.len()) == jn + r2);
    lemma_split_at(data, o1, jn, r2);
    let o2 = sj_after_name(start, s);
    let r3 = jh + (l3 + (dp + (l4 + (ju + (l5 + (jd + l6))))));
    assert(data.subrange(o2, o2 + l2.len() + r3.len()) == l2 + r3);
    lemma_split_at(data, o2, l2, r3);
    let o3 = sj_host(start, s);
    let r4 = l3 + (dp + (l4 + (ju + (l5 + (jd + l6)))));
    assert(data.subrange(o3, o3 + jh.len() + r4.len()) == jh + r4);
    lemma_split_at(data, o3, jh, r4);
    let o4 = sj_after_host(start, s);
    let r5 = dp + (l4 + (ju + (l5 + (jd + l6))));
    assert(data.subrange(o4, o4 + l3.len() + r5.len()) == l3 + r5);
    lemma_split_at(data, o4, l3, r5);
    let o5 = sj_port(start, s);
    let r6 = l4 + (ju + (l5 + (jd + l6)));
    assert(data.subrange(o5, o5 + dp.len() + r6.len()) == dp + r6);
    lemma_split_at(data, o5, dp, r6);
    let o6 = sj_after_port(start, s);
    let r7 = ju + (l5 + (jd + l6));
    assert(data.subrange(o6, o6 + l4.len() + r7.len()) == l4 + r7);
    lemma_split_at(data, o6, l4, r7);
    let o7 = sj_user(start, s);
    let r8 = l5 + (jd + l6);
    assert(data.subrange(o7, o7 + ju.len() + r8.len()) == ju + r8);
    lemma_split_at(data, o7, ju, r8);
    let o8 = sj_after_user(start, s);
    let r9 = jd + l6;
    assert(data.subrange(o8, o8 + l5.len() + r9.len()) == l5 + r9);
    lemma_split_at(data, o8, l5, r9);
    let o9 = sj_desc(start, s);
    assert(data.subrange(o9, o9 + jd.len() + l6.len()) == jd + l6);
    lemma_split_at(data, o9, jd, l6);
}

/// Two adjacent windows of a sequence join into one.
proof fn lemma_join(data: Seq<u8>, p: int, m: int, q: int)
    requires
        0 <= p <= m <= q <= data.len(),
    ensures
        data.subrange(p, q) == data.subrange(p, m) + data.subrange(m, q),
{
    assert(data.subrange(p, q) =~= data.subrange(p, m) + data.subrange(m, q));
}

/// Parse one record object at `start`: exactly the canonical encoding,
/// handing back the record and the position after its closing brace.
#[verifier::rlimit(100)]
#[verifier::spinoff_prover]
fn parse_server(data: &[u8], start: usize) -> (r: Option<(Server, usize)>)
    ensures
        r matches Some((s, end)) ==> start <= end <= data@.len() && data@.subrange(
            start as int,
            end as int,
        ) == server_json(s),
        forall|s0: Server|
            #![trigger server_json_at(data@, start as int, s0)]
            server_json_at(data@, start as int, s0) ==> r is Some && same_record(r->Some_0.0, s0)
                && r->Some_0.1 == start + server_json(s0).len(),
{
    let n = data.len();
    let p1 = match expect_bytes(data, start, "{\"name\":".as_bytes()) {
        Some(p) => p,
        None => {
            proof {
                assert forall|s0: Server| server_json_at(data@, start as int, s0) implies false by {
                    lemma_server_json_parts(data@, start as int, s0);
                }
            }
            return None;
        },
    };
    proof {
        assert forall|s0: Server| server_json_at(data@, start as int, s0) implies p1 == sj_name(
            start as int,
            s0,
        ) by {
            lemma_server_json_parts(data@, start as int, s0);
        }
    }
    let (name, p2) = match parse_json_text(data, p1) {
        Some(t) => t,
        None => {
            proof {
                assert forall|s0: Server| server_json_at(data@, start as int, s0) implies false by {
                    lemma_server_json_parts(data@, start as int, s0);
                }
            }
            return None;
        },
    };
    proof {
        assert forall|s0: Server| server_json_at(data@, start as int, s0) implies p2
            == sj_after_name(start as int, s0) && name@ == s0.name@ by {
            lemma_server_json_parts(data@, start as int, s0);
        }
    }
    let p3 = match expect_bytes(data, p2, ",\"host\":".as_bytes()) {
        Some(p) => p,
        None => {
            proof {
                assert forall|s0: Server| server_json_at(data@, start as int, s0) implies false by {
                    lemma_server_json_parts(data@, start as int, s0);
                }
            }
            return None;
        },
    };
    let (host, p4) = match parse_json_text(data, p3) {
        Some(t) => t,
        None => {
            proof {
                assert forall|s0: Server| server_json_at(data@, start as int, s0) implies false by {
                    lemma_server_json_parts(data@, start as int, s0);
                }
            }
            return None;
        },
    };
    proof {
        assert forall|s0: Server| server_json_at(data@, start as int, s0) implies p4
            == sj_after_host(start as int, s0) && host@ == s0.host@ by {
            lemma_server_json_parts(data@, start as int, s0);
        }
    }
    let p5 = match expect_bytes(data, p4, ",\"port\":".as_bytes()) {
        Some(p) => p,
        None => {
            proof {
                assert forall|s0: Server| server_json_at(data@, start as int, s0) implies false by {
                    lemma_server_json_parts(data@, start as int, s0);
                }
            }
            return None;
        },
    };
    let (port, p6) = match parse_port(data, p5) {
        Some(t) => t,
        None => {
            proof {
                assert forall|s0: Server| server_json_at(data@, start as int, s0) implies false by {
                    lemma_server_json_parts(data@, start as int, s0);
                    lemma_port_followed_by_comma(data@, start as int, s0);
                }
            }
            return None;
        },
    };
    proof {
        assert forall|s0: Server| server_json_at(data@, start as int, s0) implies p6
            == sj_after_port(start as int, s0) && port == s0.port by {
            lemma_server_json_parts(data@, start as int, s0);
            lemma_port_followed_by_comma(data@, start as int, s0);
        }
    }
    let p7 = match expect_bytes(data, p6, ",\"user\":".as_bytes()) {
        Some(p) => p,
        None => {
            proof {
                assert forall|s0: Server| server_json_at(data@, start as int, s0) implies false by {
                    lemma_server_json_parts(data@, start as int, s0);
                }
            }
            return None;
        },
    };
    let (user, p8) = match parse_json_text(data, p7) {
        Some(t) => t,
        None => {
            proof {
                assert forall|s0: Server| server_json_at(data@, start as int, s0) implies false by {
                    lemma_server_json_parts(data@, start as int, s0);
                }
            }
            return None;
        },
    };
    proof {
        assert forall|s0: Server| server_json_at(data@, start as int, s0) implies p8
            == sj_after_user(start as int, s0) && user@ == s0.user@ by {
            lemma_server_json_parts(data@, start as int, s0);
        }
    }
    let p9 = match expect_bytes(data, p8, ",\"description\":".as_bytes()) {
        Some(p) => p,
        None => {
            proof {
                assert forall|s0: Server| server_json_at(data@, start as int, s0) implies false by {
                    lemma_server_json_parts(data@, start as int, s0);
                }
            }
            return None;
        },
    };
    let (description, p10) = match parse_json_text(data, p9) {
        Some(t) => t,
        None => {
            proof {
                assert forall|s0: Server| server_json_at(data@, start as int, s0) implies false by {
                    lemma_server_json_parts(data@, start as int, s0);
                }
            }
            return None;
        },
    };
    proof {
        assert forall|s0: Server| server_json_at(data@, start as int, s0) implies p10 == sj_desc(
            start as int,
            s0,
        ) + json_string(encode_utf8(s0.description@)).len() && description@ == s0.description@ by {
            lemma_server_json_parts(data@, start as int, s0);
        }
    }
    let end = match expect_bytes(data, p10, "}".as_bytes()) {
        Some(p) => p,
        None => {
            proof {
                assert forall|s0: Server| server_json_at(data@, start as int, s0) implies false by {
                    lemma_server_json_parts(data@, start as int, s0);
                }
            }
            return None;
        },
    };
    let s = Server { name, host, port, user, description };
    proof {
        assert forall|s0: Server| server_json_at(data@, start as int, s0) implies same_record(
            s,
            s0,
        ) && end == start + server_json(s0).len() by {
            lemma_server_json_parts(data@, start as int, s0);
        }
        lemma_join(data@, start as int, p1 as int, p2 as int);
        lemma_join(data@, start as int, p2 as int, p3 as int);
        lemma_join(data@, start as int, p3 as int, p4 as int);
        lemma_join(data@, start as int, p4 as int, p5 as int);
        lemma_join(data@, start as int, p5 as int, p6 as int);
        lemma_join(data@, start as int, p6 as int, p7 as int);
        lemma_join(data@, start as int, p7 as int, p8 as int);
        lemma_join(data@, start as int, p8 as int, p9 as int);
        lemma_join(data@, start as int, p9 as int, p10 as int);
        lemma_join(data@, start as int, p10 as int, end as int);
        reveal(server_json);
        assert(data@.subrange(start as int, end as int) =~= server_json(s));
    }
    Some((s, end))
}

/// In a record's encoding, the byte after the port digits is a comma: the
/// digit run ends exactly where the numeral does.
proof fn lemma_port_followed_by_comma(data: Seq<u8>, start: int, s: Server)
    requires
        server_json_at(data, start, s),
    ensures
        !is_digit_byte(data[sj_after_port(start, s)]),
        sj_after_port(start, s) < data.len(),
{
    lemma_server_json_parts(data, start, s);
    reveal_strlit(",\"user\":");
    lemma_ascii_head(",\"user\":"@, ',');
    let l4 = encode_utf8(",\"user\":"@);
    assert(l4[0] == 44u8);
    assert(data.subrange(sj_after_port(start, s), sj_user(start, s))[0] == l4[0]);
    assert(data[sj_after_port(start, s)] == 44u8);
}

/// Appending one record to an array extends its encoding by a separator
/// (when the array was not empty) and the record's object.
proof fn lemma_json_from_snoc(ss: Seq<Server>, s: Server, k: int)
    requires
        0 <= k <= ss.len(),
    ensures
        servers_json_from(ss.push(s), k) == servers_json_from(ss, k) + ((if ss.len() > 0 {
            encode_utf8(","@)
        } else {
            Seq::<u8>::empty()
        }) + server_json(s)),
    decreases ss.len() - k,
{
    reveal(servers_json_from);
    let sep = if ss.len() > 0 {
        encode_utf8(","@)
    } else {
        Seq::<u8>::empty()
    };
    if k == ss.len() {
        assert(ss.push(s)[k] == s);
        assert(servers_json_from(ss.push(s), k + 1) =~= Seq::<u8>::empty());
        assert(servers_json_from(ss, k) =~= Seq::<u8>::empty());
        let ksep = if k == 0 {
            Seq::<u8>::empty()
        } else {
            encode_utf8(","@)
        };
        assert(servers_json_from(ss.push(s), k) == ksep + server_json(s) + servers_json_from(
            ss.push(s),
            k + 1,
        ));
        assert(servers_json_from(ss.push(s), k) =~= servers_json_from(ss, k) + (sep
            + server_json(s)));
    } else {
        lemma_json_from_snoc(ss, s, k + 1);
        assert(ss.push(s)[k] == ss[k]);
        let ksep = if k == 0 {
            Seq::<u8>::empty()
        } else {
            encode_utf8(","@)
        };
        assert(servers_json_from(ss.push(s), k) == ksep + server_json(ss[k]) + servers_json_from(
            ss.push(s),
            k + 1,
        ));
        assert(servers_json_from(ss, k) == ksep + server_json(ss[k]) + servers_json_from(
            ss,
            k + 1,
        ));
        assert(ksep + server_json(ss[k]) + (servers_json_from(ss, k + 1) + (sep + server_json(s)))
            =~= (ksep + server_json(ss[k]) + servers_json_from(ss, k + 1)) + (sep + server_json(
            s,
        )));
    }
}

/// Where the encoding of element `k` starts inside a list document.
spec fn pos_of(ss: Seq<Server>, k: int) -> int {
    encode_utf8("{\"servers\":["@).len() + (servers_json_from(ss, 0).len() - servers_json_from(
        ss,
        k,
    ).len()) + (if k > 0 {
        1int
    } else {
        0int
    })
}

/// The suffix of a list document from element `k` on: the element's
/// object, then the remaining elements, then the closing pair.
#[verifier::rlimit(100)]
#[verifier::spinoff_prover]
proof fn lemma_list_suffix_core(data: Seq<u8>, ss: Seq<Server>, k: int)
    requires
        data == server_list_json(ss),
        0 <= k < ss.len(),
    ensures
        0 <= pos_of(ss, k),
        pos_of(ss, k) + server_json(ss[k]).len() + (servers_json_from(ss, k + 1)
            + encode_utf8("]}"@)).len() == data.len(),
        data.subrange(pos_of(ss, k), data.len() as int) == server_json(ss[k]) + (
        servers_json_from(ss, k + 1) + encode_utf8("]}"@)),
        k + 1 < ss.len() ==> pos_of(ss, k + 1) == pos_of(ss, k) + server_json(ss[k]).len() + 1,
    decreases k,
{
    reveal(servers_json_from);
    let lit = encode_utf8("{\"servers\":["@);
    let close = encode_utf8("]}"@);
    let pk = pos_of(ss, k);
    let sjk = server_json(ss[k]);
    if k == 0 {
        assert(data =~= lit + (servers_json_from(ss, 0) + close));
        assert(data.subrange(0, data.len() as int) =~= data);
        lemma_split_at(data, 0, lit, servers_json_from(ss, 0) + close);
        assert(servers_json_from(ss, 0) + close =~= sjk + (servers_json_from(ss, 1) + close));
        assert(pk == lit.len());
        assert(lit.len() + (servers_json_from(ss, 0) + close).len() == data.len());
        assert(data.subrange(pk, data.len() as int) == sjk + (servers_json_from(ss, 1) + close));
    } else {
        lemma_list_suffix_core(data, ss, k - 1);
        let pk1 = pos_of(ss, k - 1);
        let sjk1 = server_json(ss[k - 1]);
        lemma_split_at(data, pk1, sjk1, servers_json_from(ss, k) + close);
        let after1 = pk1 + sjk1.len();
        assert(data.subrange(after1, data.len() as int) == servers_json_from(ss, k) + close);
        assert(servers_json_from(ss, k) + close =~= encode_utf8(","@) + (sjk + (
        servers_json_from(ss, k + 1) + close)));
        lemma_split_at(
            data,
            after1,
            encode_utf8(","@),
            sjk + (servers_json_from(ss, k + 1) + close),
        );
        assert(pk == after1 + 1);
        lemma_comma_bytes();
        assert(encode_utf8(","@).len() == 1);
        assert(after1 + 1 + (sjk + (servers_json_from(ss, k + 1) + close)).len() == data.len());
        assert(data.subrange(pk, data.len() as int) == sjk + (servers_json_from(ss, k + 1)
            + close));
    }
    assert(pk + sjk.len() + (servers_json_from(ss, k + 1) + close).len() == data.len());
    if k + 1 < ss.len() {
        assert(servers_json_from(ss, k + 1).len() - servers_json_from(ss, k + 1).len() == 0);
    }
}

/// In a list document, element `k`'s object sits at its position, followed
/// by a comma when more elements come, and by the closing bracket pair at
/// the very end of the document otherwise.
#[verifier::rlimit(100)]
#[verifier::spinoff_prover]
proof fn lemma_list_suffix(data: Seq<u8>, ss: Seq<Server>, k: int)
    requires
        data == server_list_json(ss),
        0 <= k < ss.len(),
    ensures
        server_json_at(data, pos_of(ss, k), ss[k]),
        k + 1 < ss.len() ==> {
            &&& pos_of(ss, k) + server_json(ss[k]).len() + 1 == pos_of(ss, k + 1)
            &&& pos_of(ss, k) + server_json(ss[k]).len() < data.len()
            &&& data[pos_of(ss, k) + server_json(ss[k]).len()] == 44u8
        },
        k + 1 == ss.len() ==> {
            &&& pos_of(ss, k) + server_json(ss[k]).len() + 2 == data.len()
            &&& data[pos_of(ss, k) + server_json(ss[k]).len()] == 93u8
            &&& data.subrange(pos_of(ss, k) + server_json(ss[k]).len(), data.len() as int)
                == encode_utf8("]}"@)
        },
{
    reveal(servers_json_from);
    let close = encode_utf8("]}"@);
    let pk = pos_of(ss, k);
    let sjk = server_json(ss[k]);
    lemma_list_suffix_core(data, ss, k);
    lemma_split_at(data, pk, sjk, servers_json_from(ss, k + 1) + close);
    let after = pk + sjk.len();
    assert(data.subrange(after, data.len() as int) == servers_json_from(ss, k + 1) + close);
    if k + 1 < ss.len() {
        lemma_comma_bytes();
        assert(servers_json_from(ss, k + 1) == encode_utf8(","@) + server_json(ss[k + 1])
            + servers_json_from(ss, k + 2));
        assert((servers_json_from(ss, k + 1) + close)[0] == 44u8);
        assert(data[after] == data.subrange(after, data.len() as int)[0]);
    } else {
        lemma_close_bytes();
        assert(servers_json_from(ss, k + 1) =~= Seq::<u8>::empty());
        assert(servers_json_from(ss, k + 1) + close =~= close);
        assert(data[after] == data.subrange(after, data.len() as int)[0]);
    }
}

/// After one element is parsed where the loop stands, the parsed records
/// still match every list the document could encode, one element further.
#[verifier::rlimit(100)]
#[verifier::spinoff_prover]
proof fn lemma_list_step(data: Seq<u8>, pre: Seq<Server>, s: Server, p: int, p2: int)
    requires
        forall|ss: Seq<Server>|
            data == #[trigger] server_list_json(ss) ==> pre.len() < ss.len() && same_records(
                pre,
                ss.take(pre.len() as int),
            ) && p == pos_of(ss, pre.len() as int),
        forall|s0: Server|
            #![trigger server_json_at(data, p, s0)]
            server_json_at(data, p, s0) ==> same_record(s, s0) && p2 == p + server_json(s0).len(),
    ensures
        forall|ss: Seq<Server>|
            data == #[trigger] server_list_json(ss) ==> {
                &&& pre.len() + 1 <= ss.len()
                &&& same_records(pre.push(s), ss.take(pre.len() as int + 1))
                &&& (pre.len() + 1 < ss.len() ==> p2 < data.len() && data[p2] == 44u8 && p2 + 1
                    == pos_of(ss, pre.len() as int + 1))
                &&& (pre.len() + 1 == ss.len() ==> p2 + 2 == data.len() && data[p2] == 93u8
                    && data.subrange(p2, data.len() as int) == encode_utf8("]}"@))
            },
{
    let k = pre.len() as int;
    assert forall|ss: Seq<Server>| data == #[trigger] server_list_json(ss) implies {
        &&& pre.len() + 1 <= ss.len()
        &&& same_records(pre.push(s), ss.take(pre.len() as int + 1))
        &&& (pre.len() + 1 < ss.len() ==> p2 < data.len() && data[p2] == 44u8 && p2 + 1 == pos_of(
            ss,
            pre.len() as int + 1,
        ))
        &&& (pre.len() + 1 == ss.len() ==> p2 + 2 == data.len() && data[p2] == 93u8
            && data.subrange(p2, data.len() as int) == encode_utf8("]}"@))
    } by {
        lemma_list_suffix(data, ss, k);
        assert(server_json_at(data, p, ss[k]));
        assert(same_record(s, ss[k]));
        assert(p2 == p + server_json(ss[k]).len());
        assert forall|i: int| 0 <= i < pre.push(s).len() implies same_record(
            #[trigger] pre.push(s)[i],
            ss.take(k + 1)[i],
        ) by {
            if i < k {
                assert(pre.push(s)[i] == pre[i]);
                assert(same_record(pre[i], ss.take(k)[i]));
                assert(ss.take(k)[i] == ss.take(k + 1)[i]);
            } else {
                assert(pre.push(s)[i] == s);
                assert(ss.take(k + 1)[i] == ss[k]);
            }
        }
    }
}

/// The document opens with its fixed prefix, whatever the list.
proof fn lemma_list_head(data: Seq<u8>, ss: Seq<Server>)
    requires
        data == server_list_json(ss),
    ensures
        ({
            let lit = encode_utf8("{\"servers\":["@);
            &&& lit.len() + 2 <= data.len()
            &&& data.subrange(0, lit.len() as int) == lit
            &&& (ss.len() == 0 ==> data.len() == lit.len() + 2 && data[lit.len() as int] == 93u8
                && data.subrange(lit.len() as int, data.len() as int) == encode_utf8("]}"@))
            &&& (ss.len() > 0 ==> data[lit.len() as int] == 123u8)
        }),
{
    reveal(servers_json_from);
    let lit = encode_utf8("{\"servers\":["@);
    let close = encode_utf8("]}"@);
    assert(data =~= lit + (servers_json_from(ss, 0) + close));
    assert(data.subrange(0, data.len() as int) =~= data);
    lemma_split_at(data, 0, lit, servers_json_from(ss, 0) + close);
    lemma_close_bytes();
    if ss.len() == 0 {
        assert(servers_json_from(ss, 0) =~= Seq::<u8>::empty());
        assert(servers_json_from(ss, 0) + close =~= close);
        assert(data.subrange(lit.len() as int, data.len() as int) == close);
        assert(data[lit.len() as int] == data.subrange(lit.len() as int, data.len() as int)[0]);
    } else {
        lemma_server_json_head(ss[0]);
        assert((servers_json_from(ss, 0) + close)[0] == servers_json_from(ss, 0)[0]);
        assert(servers_json_from(ss, 0)[0] == server_json(ss[0])[0]);
        assert(data[lit.len() as int] == data.subrange(lit.len() as int, data.len() as int)[0]);
    }
}

/// A document that carries the opening literal, the encoded elements and
/// the closing pair is exactly the list's canonical encoding.
proof fn lemma_assemble_list(data: Seq<u8>, ss: Seq<Server>, p2: int)
    requires
        0 <= p2 <= data.len(),
        data.subrange(0, p2) == encode_utf8("{\"servers\":["@) + servers_json_from(ss, 0),
        data.subrange(p2, data.len() as int) == encode_utf8("]}"@),
    ensures
        data == server_list_json(ss),
{
    assert(data.subrange(0, data.len() as int) =~= data.subrange(0, p2) + data.subrange(
        p2,
        data.len() as int,
    ));
    assert(data =~= data.subrange(0, data.len() as int));
    assert(data =~= (encode_utf8("{\"servers\":["@) + servers_json_from(ss, 0)) + encode_utf8(
        "]}"@,
    ));
}

/// Parse a canonical list document back into the server list it encodes.
///
/// Parsing inverts [`encode_server_list`]: on the encoding of any list the
/// result is `Ok` with the same records in the same order, and whenever
/// the result is `Ok` the input was exactly the canonical encoding of the
/// returned list.
#[verifier::rlimit(100)]
#[verifier::spinoff_prover]
pub fn parse_server_list(data: &[u8]) -> (r: Result<ServerList, ()>)
    ensures
        r matches Ok(list) ==> data@ == server_list_json(list.servers@),
        forall|ss: Seq<Server>|
            data@ == #[trigger] server_list_json(ss) ==> r is Ok && same_records(
                r->Ok_0.servers@,
                ss,
            ),
{
    let n = data.len();
    let p0 = match expect_bytes(data, 0, "{\"servers\":[".as_bytes()) {
        Some(p) => p,
        None => {
            proof {
                assert forall|ss: Seq<Server>|
                    data@ == #[trigger] server_list_json(ss) implies false by {
                    lemma_list_head(data@, ss);
                }
            }
            return Err(());
        },
    };
    if p0 < n && data[p0] == 93 {
        let end = match expect_bytes(data, p0, "]}".as_bytes()) {
            Some(e) => e,
            None => {
                proof {
                    assert forall|ss: Seq<Server>|
                        data@ == #[trigger] server_list_json(ss) implies false by {
                        lemma_list_head(data@, ss);
                        if ss.len() > 0 {
                            lemma_list_suffix(data@, ss, 0);
                        }
                    }
                }
                return Err(());
            },
        };
        if end != n {
            proof {
                assert forall|ss: Seq<Server>|
                    data@ == #[trigger] server_list_json(ss) implies false by {
                    lemma_list_head(data@, ss);
                    if ss.len() > 0 {
                        lemma_list_suffix(data@, ss, 0);
                    }
                }
            }
            return Err(());
        }
        let list = ServerList::new();
        proof {
            assert forall|ss: Seq<Server>|
                data@ == #[trigger] server_list_json(ss) implies same_records(
                list.servers@,
                ss,
            ) by {
                if ss.len() > 0 {
                    lemma_list_suffix(data@, ss, 0);
                    lemma_server_json_head(ss[0]);
                }
            }
            lemma_join(data@, 0, p0 as int, n as int);
            reveal(servers_json_from);
            assert(servers_json_from(list.servers@, 0) =~= Seq::<u8>::empty());
            assert(data@ =~= data@.subrange(0, n as int));
            assert(data@ == server_list_json(list.servers@));
        }
        return Ok(list);
    }
    let ghost lit = encode_utf8("{\"servers\":["@);
    let mut servers: Vec<Server> = Vec::new();
    let mut p = p0;
    proof {
        assert forall|ss: Seq<Server>|
            data@ == #[trigger] server_list_json(ss) implies 0 < ss.len() && same_records(
            servers@,
            ss.take(servers@.len() as int),
        ) && p == pos_of(ss, servers@.len() as int) by {
            lemma_list_head(data@, ss);
            assert(ss.len() > 0);
            assert(servers_json_from(ss, 0).len() - servers_json_from(ss, 0).len() == 0);
            assert(servers@.len() == 0);
            assert(ss.take(0) =~= Seq::<Server>::empty());
        }
        reveal(servers_json_from);
        assert(data@.subrange(0, p as int) =~= lit + servers_json_from(servers@, 0) + (
        Seq::<u8>::empty()));
    }
    loop
        invariant
            n == data@.len(),
            p <= n,
            lit == encode_utf8("{\"servers\":["@),
            data@.subrange(0, p as int) == lit + servers_json_from(servers@, 0) + (if servers@.len()
                > 0 {
                encode_utf8(","@)
            } else {
                Seq::<u8>::empty()
            }),
            forall|ss: Seq<Server>|
                data@ == #[trigger] server_list_json(ss) ==> servers@.len() < ss.len()
                    && same_records(servers@, ss.take(servers@.len() as int)) && p == pos_of(
                    ss,
                    servers@.len() as int,
                ),
        decreases n - p,
    {
        let ghost k = servers@.len() as int;
        let (s, p2) = match parse_server(data, p) {
            Some(t) => t,
            None => {
                proof {
                    assert forall|ss: Seq<Server>|
                        data@ == #[trigger] server_list_json(ss) implies false by {
                        lemma_list_suffix(data@, ss, k);
                        assert(server_json_at(data@, p as int, ss[k]));
                    }
                }
                return Err(());
            },
        };
        let ghost pre = servers@;
        servers.push(s);
        proof {
            lemma_list_step(data@, pre, s, p as int, p2 as int);
            // soundness: the consumed prefix now ends with this record
            lemma_join(data@, 0, p as int, p2 as int);
            lemma_json_from_snoc(pre, s, 0);
            assert(data@.subrange(0, p2 as int) =~= lit + servers_json_from(servers@, 0));
        }
        if p2 < n && data[p2] == 44 {
            proof {
                assert forall|ss: Seq<Server>|
                    data@ == #[trigger] server_list_json(ss) implies servers@.len() < ss.len() && (
                p2 + 1) == pos_of(ss, servers@.len() as int) by {
                    if k + 1 == ss.len() {
                        assert(data@[p2 as int] == 93u8);
                    }
                }
                lemma_join(data@, 0, p2 as int, p2 + 1);
                assert(data@.subrange(p2 as int, p2 + 1)[0] == data@[p2 as int]);
                assert(data@.subrange(p2 as int, p2 + 1) =~= encode_utf8(","@)) by {
                    lemma_comma_bytes();
                }
                assert(data@.subrange(0, p2 + 1) =~= lit + servers_json_from(servers@, 0)
                    + encode_utf8(","@));
            }
            p = p2 + 1;
        } else {
            let end = match expect_bytes(data, p2, "]}".as_bytes()) {
                Some(e) => e,
                None => {
                    proof {
                        assert forall|ss: Seq<Server>|
                            data@ == #[trigger] server_list_json(ss) implies false by {
                            if k + 1 < ss.len() {
                                assert(data@[p2 as int] == 44u8 && p2 < n);
                            } else {
                                assert(data@.subrange(p2 as int, n as int) == encode_utf8("]}"@));
                            }
                        }
                    }
                    return Err(());
                },
            };
            if end != n {
                proof {
                    assert forall|ss: Seq<Server>|
                        data@ == #[trigger] server_list_json(ss) implies false by {
                        if k + 1 < ss.len() {
                            assert(data@[p2 as int] == 44u8 && p2 < n);
                        } else {
                            assert(p2 + 2 == n);
                        }
                    }
                }
                return Err(());
            }
            let list = ServerList { servers };
            proof {
                assert forall|ss: Seq<Server>|
                    data@ == #[trigger] server_list_json(ss) implies same_records(
                    list.servers@,
                    ss,
                ) by {
                    if k + 1 < ss.len() {
                        assert(data@[p2 as int] == 44u8 && p2 < n);
                    }
                    assert(k + 1 == ss.len());
                    assert(ss.take(k + 1) =~= ss);
                }
                assert(data@.subrange(0, p2 as int) == encode_utf8("{\"servers\":["@)
                    + servers_json_from(list.servers@, 0));
                lemma_assemble_list(data@, list.servers@, p2 as int);
            }
            return Ok(list);
        }
    }
}

/// Serialize a server list into its canonical JSON document.
pub fn encode_server_list(list: &ServerList) -> (r: Vec<u8>)
    ensures
        r@ == server_list_json(list.servers@),
{
    let mut out: Vec<u8> = Vec::new();
    out.extend_from_slice("{\"servers\":[".as_bytes());
    let ghost lit = encode_utf8("{\"servers\":["@);
    proof {
        reveal(servers_json_from);
    }
    let n = list.servers.len();
    let mut i: usize = 0;
    while i < n
        invariant
            i <= n,
            n == list.servers@.len(),
            lit + servers_json_from(list.servers@, 0) == out@ + servers_json_from(
                list.servers@,
                i as int,
            ),
        decreases n - i,
    {
        if i > 0 {
            out.extend_from_slice(",".as_bytes());
        }
        push_server_json(&mut out, &list.servers[i]);
        proof {
            reveal(servers_json_from);
            assert(lit + servers_json_from(list.servers@, 0) =~= out@ + servers_json_from(
                list.servers@,
                i + 1,
            ));
        }
        i = i + 1;
    }
    out.extend_from_slice("]}".as_bytes());
    proof {
        reveal(servers_json_from);
        assert(servers_json_from(list.servers@, n as int) =~= Seq::<u8>::empty());
        assert(out@ =~= server_list_json(list.servers@));
    }
    out
}

} // verus!
