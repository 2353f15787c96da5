//! Storage codec for header sets.
//!
//! A header set is an ordered sequence of (name, value) pairs. For storage it
//! is serialized as a compact JSON array of two-element string arrays, e.g.
//! `[["Accept","text/html"],["X-Id","1"]]`. Pairs with an empty name are
//! dropped at the storage boundary. The decoder reads the same grammar back;
//! encoding then decoding returns the original pairs minus the empty-named
//! ones.

use vstd::prelude::*;
use crate::strings::{dec_digit, hex_digit, hex_char, push_char};

verus! {

/// A header set as it appears in specifications: ordered (name, value) pairs.
pub type HeaderSeq = Seq<(Seq<char>, Seq<char>)>;

/// JSON escape of one character: quotes, backslashes and control characters
/// are escaped, everything else stands for itself.
pub open spec fn escape_char(c: char) -> Seq<char> {
    if c == '"' {
        seq!['\\', '"']
    } else if c == '\\' {
        seq!['\\', '\\']
    } else if c == '\u{8}' {
        seq!['\\', 'b']
    } else if c == '\u{c}' {
        seq!['\\', 'f']
    } else if c == '\n' {
        seq!['\\', 'n']
    } else if c == '\r' {
        seq!['\\', 'r']
    } else if c == '\t' {
        seq!['\\', 't']
    } else if (c as u32) < 32 {
        seq!['\\', 'u', '0', '0', hex_digit((c as u32) as int / 16), hex_digit((c as u32) as int % 16)]
    } else {
        seq![c]
    }
}

/// JSON escape of a whole string.
pub open spec fn escape_str(s: Seq<char>) -> Seq<char>
    decreases s.len(),
{
    if s.len() == 0 {
        Seq::empty()
    } else {
        escape_char(s[0]) + escape_str(s.drop_first())
    }
}

/// A JSON string literal: the escaped text between double quotes.
pub open spec fn quoted(s: Seq<char>) -> Seq<char> {
    seq!['"'] + escape_str(s) + seq!['"']
}

/// One encoded pair: a two-element JSON array of strings.
pub open spec fn encoded_pair(k: Seq<char>, v: Seq<char>) -> Seq<char> {
    seq!['['] + quoted(k) + seq![','] + quoted(v) + seq![']']
}

/// The pairs whose name is non-empty, in their original order.
pub open spec fn drop_empty_keys(hs: HeaderSeq) -> HeaderSeq
    decreases hs.len(),
{
    if hs.len() == 0 {
        Seq::empty()
    } else if hs[0].0.len() == 0 {
        drop_empty_keys(hs.drop_first())
    } else {
        seq![hs[0]] + drop_empty_keys(hs.drop_first())
    }
}

/// Comma-separated encoded pairs (the interior of the outer array).
pub open spec fn encode_pairs(hs: HeaderSeq) -> Seq<char>
    decreases hs.len(),
{
    if hs.len() == 0 {
        Seq::empty()
    } else if hs.len() == 1 {
        encoded_pair(hs[0].0, hs[0].1)
    } else {
        encoded_pair(hs[0].0, hs[0].1) + seq![','] + encode_pairs(hs.drop_first())
    }
}

/// Storage form of a header set: empty-named pairs dropped, the rest as a
/// JSON array of two-element string arrays.
pub open spec fn encode_headers_spec(hs: HeaderSeq) -> Seq<char> {
    seq!['['] + encode_pairs(drop_empty_keys(hs)) + seq![']']
}

proof fn lemma_escape_str_snoc(s: Seq<char>, c: char)
    ensures
        escape_str(s.push(c)) == escape_str(s) + escape_char(c),
    decreases s.len(),
{
    assert(s.push(c).len() == s.len() + 1);
    if s.len() == 0 {
        assert(s.push(c)[0] == c);
        assert(s.push(c).drop_first() =~= Seq::<char>::empty());
        assert(escape_str(Seq::<char>::empty()) == Seq::<char>::empty());
        assert(escape_str(s.push(c)) == escape_char(c) + escape_str(Seq::<char>::empty()));
        assert(escape_str(s.push(c)) =~= escape_str(s) + escape_char(c));
    } else {
        assert(s.push(c)[0] == s[0]);
        assert(s.push(c).drop_first() =~= s.drop_first().push(c));
        lemma_escape_str_snoc(s.drop_first(), c);
        assert(escape_str(s.push(c)) == escape_char(s[0]) + escape_str(s.drop_first().push(c)));
        assert(escape_str(s) == escape_char(s[0]) + escape_str(s.drop_first()));
        assert(escape_str(s.push(c)) =~= escape_str(s) + escape_char(c));
    }
}

proof fn lemma_drop_empty_keys_snoc(hs: HeaderSeq, p: (Seq<char>, Seq<char>))
    ensures
        drop_empty_keys(hs.push(p)) == drop_empty_keys(hs) + (if p.0.len() == 0 {
            Seq::<(Seq<char>, Seq<char>)>::empty()
        } else {
            seq![p]
        }),
    decreases hs.len(),
{
    let tail: HeaderSeq = if p.0.len() == 0 { Seq::empty() } else { seq![p] };
    assert(hs.push(p).len() == hs.len() + 1);
    if hs.len() == 0 {
        assert(hs.push(p)[0] == p);
        assert(hs.push(p).drop_first() =~= Seq::<(Seq<char>, Seq<char>)>::empty());
        assert(drop_empty_keys(Seq::<(Seq<char>, Seq<char>)>::empty())
            == Seq::<(Seq<char>, Seq<char>)>::empty());
        assert(drop_empty_keys(hs.push(p)) =~= drop_empty_keys(hs) + tail);
    } else {
        assert(hs.push(p)[0] == hs[0]);
        assert(hs.push(p).drop_first() =~= hs.drop_first().push(p));
        lemma_drop_empty_keys_snoc(hs.drop_first(), p);
        assert(drop_empty_keys(hs.push(p)) =~= drop_empty_keys(hs) + tail);
    }
}

proof fn lemma_encode_pairs_snoc(hs: HeaderSeq, p: (Seq<char>, Seq<char>))
    ensures
        hs.len() == 0 ==> encode_pairs(hs.push(p)) == encoded_pair(p.0, p.1),
        hs.len() > 0 ==> encode_pairs(hs.push(p)) == encode_pairs(hs) + seq![','] + encoded_pair(
            p.0,
            p.1,
        ),
    decreases hs.len(),
{
    if hs.len() == 0 {
        assert(hs.push(p)[0] == p);
        assert(encode_pairs(hs.push(p)) =~= encoded_pair(p.0, p.1));
    } else {
        assert(hs.push(p).drop_first() =~= hs.drop_first().push(p));
        lemma_encode_pairs_snoc(hs.drop_first(), p);
        if hs.len() == 1 {
            assert(encode_pairs(hs.push(p)) =~= encode_pairs(hs) + seq![','] + encoded_pair(
                p.0,
                p.1,
            ));
        } else {
            assert(encode_pairs(hs.push(p)) =~= encode_pairs(hs) + seq![','] + encoded_pair(
                p.0,
                p.1,
            ));
        }
    }
}

/// Numeric value of a hexadecimal digit character, either case.
pub open spec fn hex_val(c: char) -> Option<int> {
    if c == '0' {
        Some(0)
    } else if c == '1' {
        Some(1)
    } else if c == '2' {
        Some(2)
    } else if c == '3' {
        Some(3)
    } else if c == '4' {
        Some(4)
    } else if c == '5' {
        Some(5)
    } else if c == '6' {
        Some(6)
    } else if c == '7' {
        Some(7)
    } else if c == '8' {
        Some(8)
    } else if c == '9' {
        Some(9)
    } else if c == 'a' || c == 'A' {
        Some(10)
    } else if c == 'b' || c == 'B' {
        Some(11)
    } else if c == 'c' || c == 'C' {
        Some(12)
    } else if c == 'd' || c == 'D' {
        Some(13)
    } else if c == 'e' || c == 'E' {
        Some(14)
    } else if c == 'f' || c == 'F' {
        Some(15)
    } else {
        None
    }
}

/// Character denoted by a single-letter JSON escape.
pub open spec fn unescape_simple(c: char) -> Option<char> {
    if c == '"' {
        Some('"')
    } else if c == '\\' {
        Some('\\')
    } else if c == '/' {
        Some('/')
    } else if c == 'b' {
        Some('\u{8}')
    } else if c == 'f' {
        Some('\u{c}')
    } else if c == 'n' {
        Some('\n')
    } else if c == 'r' {
        Some('\r')
    } else if c == 't' {
        Some('\t')
    } else {
        None
    }
}

/// Parses the body of a JSON string up to and including its closing quote;
/// the input starts just after the opening quote. Returns the decoded text
/// and the input that follows the closing quote.
pub open spec fn parse_string_body(s: Seq<char>) -> Option<(Seq<char>, Seq<char>)>
    decreases s.len(),
{
    if s.len() == 0 {
        None
    } else if s[0] == '"' {
        Some((Seq::empty(), s.drop_first()))
    } else if s[0] == '\\' {
        if s.len() < 2 {
            None
        } else if s[1] == 'u' {
            if s.len() < 6 {
                None
            } else {
                match (hex_val(s[2]), hex_val(s[3]), hex_val(s[4]), hex_val(s[5])) {
                    (Some(h1), Some(h2), Some(h3), Some(h4)) => {
                        let code = h1 * 4096 + h2 * 256 + h3 * 16 + h4;
                        if code < 0xD800 || code >= 0xE000 {
                            match parse_string_body(s.skip(6)) {
                                Some((t, r)) => Some((seq![(code as u32) as char] + t, r)),
                                None => None,
                            }
                        } else {
                            None
                        }
                    },
                    _ => None,
                }
            }
        } else {
            match unescape_simple(s[1]) {
                Some(c) => match parse_string_body(s.skip(2)) {
                    Some((t, r)) => Some((seq![c] + t, r)),
                    None => None,
                },
                None => None,
            }
        }
    } else if (s[0] as u32) < 32 {
        None
    } else {
        match parse_string_body(s.drop_first()) {
            Some((t, r)) => Some((seq![s[0]] + t, r)),
            None => None,
        }
    }
}

/// Parses a JSON string literal, opening quote included.
pub open spec fn parse_quoted(s: Seq<char>) -> Option<(Seq<char>, Seq<char>)> {
    if s.len() > 0 && s[0] == '"' {
        parse_string_body(s.drop_first())
    } else {
        None
    }
}

/// Parses one two-element array of strings.
pub open spec fn parse_pair(s: Seq<char>) -> Option<((Seq<char>, Seq<char>), Seq<char>)> {
    if s.len() > 0 && s[0] == '[' {
        match parse_quoted(s.drop_first()) {
            Some((k, r1)) => if r1.len() > 0 && r1[0] == ',' {
                match parse_quoted(r1.drop_first()) {
                    Some((v, r2)) => if r2.len() > 0 && r2[0] == ']' {
                        Some(((k, v), r2.drop_first()))
                    } else {
                        None
                    },
                    None => None,
                }
            } else {
                None
            },
            None => None,
        }
    } else {
        None
    }
}

/// Parses the interior of the outer array up to and including its closing
/// bracket: comma-separated pairs.
pub open spec fn parse_pairs(s: Seq<char>) -> Option<(HeaderSeq, Seq<char>)>
    decreases s.len(),
{
    if s.len() == 0 {
        None
    } else if s[0] == ']' {
        Some((Seq::empty(), s.drop_first()))
    } else {
        match parse_pair(s) {
            Some((p, r)) => {
                if r.len() >= s.len() || r.len() == 0 {
                    None
                } else if r[0] == ']' {
                    Some((seq![p], r.drop_first()))
                } else if r[0] == ',' {
                    match parse_pairs(r.drop_first()) {
                        Some((ps, r2)) => if ps.len() > 0 {
                            Some((seq![p] + ps, r2))
                        } else {
                            None
                        },
                        None => None,
                    }
                } else {
                    None
                }
            },
            None => None,
        }
    }
}

/// The header set denoted by a stored encoding, if the whole input is one
/// well-formed array of two-element string arrays.
pub open spec fn decode_headers_spec(s: Seq<char>) -> Option<HeaderSeq> {
    if s.len() > 0 && s[0] == '[' {
        match parse_pairs(s.drop_first()) {
            Some((ps, r)) => if r.len() == 0 {
                Some(ps)
            } else {
                None
            },
            None => None,
        }
    } else {
        None
    }
}

proof fn lemma_hex_digit_val(d: int)
    requires
        0 <= d < 16,
    ensures
        hex_val(hex_digit(d)) == Some(d),
{
}

proof fn lemma_parse_escaped(s: Seq<char>, rest: Seq<char>)
    ensures
        parse_string_body(escape_str(s) + seq!['"'] + rest) == Some((s, rest)),
    decreases s.len(),
{
    let input = escape_str(s) + seq!['"'] + rest;
    if s.len() == 0 {
        assert(escape_str(s) == Seq::<char>::empty());
        assert(input =~= seq!['"'] + rest);
        assert(input[0] == '"');
        assert(input.drop_first() =~= rest);
        assert(s =~= Seq::<char>::empty());
    } else {
        let c = s[0];
        let t = s.drop_first();
        lemma_parse_escaped(t, rest);
        let sub = escape_str(t) + seq!['"'] + rest;
        assert(escape_str(s) == escape_char(c) + escape_str(t));
        assert(input =~= escape_char(c) + sub);
        assert(s =~= seq![c] + t);
        if c == '"' || c == '\\' || c == '\u{8}' || c == '\u{c}' || c == '\n' || c == '\r' || c
            == '\t' {
            assert(input[0] == '\\');
            assert(input[1] != 'u');
            assert(unescape_simple(input[1]) == Some(c));
            assert(input.skip(2) =~= sub);
            assert(parse_string_body(input) == Some((seq![c] + t, rest)));
        } else if (c as u32) < 32 {
            let hi = (c as u32) as int / 16;
            let lo = (c as u32) as int % 16;
            assert(input[0] == '\\');
            assert(input[1] == 'u');
            assert(input[2] == '0');
            assert(input[3] == '0');
            assert(input[4] == hex_digit(hi));
            assert(input[5] == hex_digit(lo));
            lemma_hex_digit_val(hi);
            lemma_hex_digit_val(lo);
            let code = 0 * 4096 + 0 * 256 + hi * 16 + lo;
            assert(code == c as u32);
            assert(code < 0xD800);
            vstd::utf8::char_u32_cast(c, c as u32);
            assert((code as u32) as char == c);
            assert(input.skip(6) =~= sub);
            assert(parse_string_body(input) == Some((seq![c] + t, rest)));
        } else {
            assert(input[0] == c);
            assert(input.drop_first() =~= sub);
            assert(parse_string_body(input) == Some((seq![c] + t, rest)));
        }
    }
}

proof fn lemma_parse_quoted_of_encoded(s: Seq<char>, rest: Seq<char>)
    ensures
        parse_quoted(quoted(s) + rest) == Some((s, rest)),
{
    let input = quoted(s) + rest;
    assert(input[0] == '"');
    assert(input.drop_first() =~= escape_str(s) + seq!['"'] + rest);
    lemma_parse_escaped(s, rest);
}

proof fn lemma_parse_pair_of_encoded(k: Seq<char>, v: Seq<char>, rest: Seq<char>)
    ensures
        parse_pair(encoded_pair(k, v) + rest) == Some(((k, v), rest)),
{
    let input = encoded_pair(k, v) + rest;
    assert(input[0] == '[');
    let r1 = seq![','] + quoted(v) + seq![']'] + rest;
    assert(input.drop_first() =~= quoted(k) + r1);
    lemma_parse_quoted_of_encoded(k, r1);
    assert(r1[0] == ',');
    let r2 = seq![']'] + rest;
    assert(r1.drop_first() =~= quoted(v) + r2);
    lemma_parse_quoted_of_encoded(v, r2);
    assert(r2[0] == ']');
    assert(r2.drop_first() =~= rest);
}

#[verifier::spinoff_prover]
#[verifier::rlimit(50)]
proof fn lemma_parse_pairs_of_encoded(hs: HeaderSeq, rest: Seq<char>)
    ensures
        parse_pairs(encode_pairs(hs) + seq![']'] + rest) == Some((hs, rest)),
    decreases hs.len(),
{
    let input = encode_pairs(hs) + seq![']'] + rest;
    if hs.len() == 0 {
        assert(input =~= seq![']'] + rest);
        assert(input[0] == ']');
        assert(input.drop_first() =~= rest);
        assert(hs =~= Seq::<(Seq<char>, Seq<char>)>::empty());
    } else {
        let p = hs[0];
        let pair_enc = encoded_pair(p.0, p.1);
        assert(pair_enc[0] == '[');
        assert(pair_enc.len() > 0);
        if hs.len() == 1 {
            let r = seq![']'] + rest;
            assert(input =~= pair_enc + r);
            lemma_parse_pair_of_encoded(p.0, p.1, r);
            assert(input[0] == '[');
            assert(r[0] == ']');
            assert(r.drop_first() =~= rest);
            assert(seq![p] =~= hs);
        } else {
            let tail = hs.drop_first();
            let r = seq![','] + (encode_pairs(tail) + seq![']'] + rest);
            assert(input =~= pair_enc + r);
            lemma_parse_pair_of_encoded(p.0, p.1, r);
            assert(input[0] == '[');
            assert(r[0] == ',');
            assert(r.drop_first() =~= encode_pairs(tail) + seq![']'] + rest);
            lemma_parse_pairs_of_encoded(tail, rest);
            assert(seq![p] + tail =~= hs);
        }
    }
}

/// Round trip of the storage codec: a header set encoded for storage and
/// decoded back yields the same ordered pairs, minus any pair whose name
/// was empty.
pub proof fn lemma_header_round_trip(hs: HeaderSeq)
    ensures
        decode_headers_spec(encode_headers_spec(hs)) == Some(drop_empty_keys(hs)),
{
    let d = drop_empty_keys(hs);
    let enc = encode_headers_spec(hs);
    assert(enc[0] == '[');
    assert(enc.drop_first() =~= encode_pairs(d) + seq![']'] + Seq::<char>::empty());
    lemma_parse_pairs_of_encoded(d, Seq::empty());
}

/// Appends the JSON string literal for `s` to `out`.
fn write_quoted(out: &mut String, s: &str)
    ensures
        final(out)@ == old(out)@ + quoted(s@),
{
    push_char(out, '"');
    let n = s.unicode_len();
    let mut i: usize = 0;
    proof {
        assert(s@.take(0) =~= Seq::<char>::empty());
        assert(out@ =~= old(out)@ + seq!['"'] + escape_str(s@.take(0)));
    }
    while i < n
        invariant
            i <= n,
            n == s@.len(),
            out@ == old(out)@ + seq!['"'] + escape_str(s@.take(i as int)),
        decreases n - i,
    {
        let c = s.get_char(i);
        if c == '"' {
            push_char(out, '\\');
            push_char(out, '"');
        } else if c == '\\' {
            push_char(out, '\\');
            push_char(out, '\\');
        } else if c == '\u{8}' {
            push_char(out, '\\');
            push_char(out, 'b');
        } else if c == '\u{c}' {
            push_char(out, '\\');
            push_char(out, 'f');
        } else if c == '\n' {
            push_char(out, '\\');
            push_char(out, 'n');
        } else if c == '\r' {
            push_char(out, '\\');
            push_char(out, 'r');
        } else if c == '\t' {
            push_char(out, '\\');
            push_char(out, 't');
        } else if (c as u32) < 32 {
            push_char(out, '\\');
            push_char(out, 'u');
            push_char(out, '0');
            push_char(out, '0');
            push_char(out, hex_char(((c as u32) / 16) as u64));
            push_char(out, hex_char(((c as u32) % 16) as u64));
        } else {
            push_char(out, c);
        }
        proof {
            lemma_escape_str_snoc(s@.take(i as int), s@[i as int]);
            assert(s@.take(i + 1) =~= s@.take(i as int).push(s@[i as int]));
            assert(out@ =~= old(out)@ + seq!['"'] + escape_str(s@.take(i + 1)));
        }
        i = i + 1;
    }
    push_char(out, '"');
    proof {
        assert(s@.take(n as int) =~= s@);
        assert(out@ =~= old(out)@ + quoted(s@));
    }
}

/// Encodes a header set for storage: a compact JSON array of two-element
/// string arrays, with empty-named pairs dropped.
pub fn encode_headers(headers: &Vec<(String, String)>) -> (r: String)
    ensures
        r@ == encode_headers_spec(headers.deep_view()),
{
    let ghost hv: HeaderSeq = headers.deep_view();
    let mut out = String::new();
    push_char(&mut out, '[');
    let mut first: bool = true;
    let mut i: usize = 0;
    proof {
        assert(hv.take(0) =~= Seq::<(Seq<char>, Seq<char>)>::empty());
        assert(out@ =~= seq!['['] + encode_pairs(drop_empty_keys(hv.take(0))));
    }
    while i < headers.len()
        invariant
            i <= headers.len(),
            hv == headers.deep_view(),
            hv.len() == headers.len(),
            forall|j: int|
                0 <= j < headers.len() ==> hv[j] == (headers[j].0@, headers[j].1@),
            out@ == seq!['['] + encode_pairs(drop_empty_keys(hv.take(i as int))),
            first == (drop_empty_keys(hv.take(i as int)).len() == 0),
        decreases headers.len() - i,
    {
        let key_len = headers[i].0.unicode_len();
        proof {
            lemma_drop_empty_keys_snoc(hv.take(i as int), hv[i as int]);
            assert(hv.take(i + 1) =~= hv.take(i as int).push(hv[i as int]));
        }
        if key_len > 0 {
            if !first {
                push_char(&mut out, ',');
            }
            push_char(&mut out, '[');
            write_quoted(&mut out, headers[i].0.as_str());
            push_char(&mut out, ',');
            write_quoted(&mut out, headers[i].1.as_str());
            push_char(&mut out, ']');
            proof {
                let d = drop_empty_keys(hv.take(i as int));
                lemma_encode_pairs_snoc(d, hv[i as int]);
                assert(drop_empty_keys(hv.take(i + 1)) =~= d.push(hv[i as int]));
                assert(out@ =~= seq!['['] + encode_pairs(drop_empty_keys(hv.take(i + 1))));
            }
            first = false;
        } else {
            proof {
                assert(drop_empty_keys(hv.take(i + 1)) =~= drop_empty_keys(hv.take(i as int)));
            }
        }
        i = i + 1;
    }
    push_char(&mut out, ']');
    proof {
        assert(hv.take(headers.len() as int) =~= hv);
        assert(out@ =~= encode_headers_spec(hv));
    }
    out
}

fn hex_val_exec(c: char) -> (r: Option<u32>)
    ensures
        (r is Some) == (hex_val(c) is Some),
        r matches Some(v) ==> v < 16 && hex_val(c) == Some(v as int),
{
    if c == '0' {
        Some(0)
    } else if c == '1' {
        Some(1)
    } else if c == '2' {
        Some(2)
    } else if c == '3' {
        Some(3)
    } else if c == '4' {
        Some(4)
    } else if c == '5' {
        Some(5)
    } else if c == '6' {
        Some(6)
    } else if c == '7' {
        Some(7)
    } else if c == '8' {
        Some(8)
    } else if c == '9' {
        Some(9)
    } else if c == 'a' || c == 'A' {
        Some(10)
    } else if c == 'b' || c == 'B' {
        Some(11)
    } else if c == 'c' || c == 'C' {
        Some(12)
    } else if c == 'd' || c == 'D' {
        Some(13)
    } else if c == 'e' || c == 'E' {
        Some(14)
    } else if c == 'f' || c == 'F' {
        Some(15)
    } else {
        None
    }
}

fn unescape_simple_exec(c: char) -> (r: Option<char>)
    ensures
        r == unescape_simple(c),
{
    if c == '"' {
        Some('"')
    } else if c == '\\' {
        Some('\\')
    } else if c == '/' {
        Some('/')
    } else if c == 'b' {
        Some('\u{8}')
    } else if c == 'f' {
        Some('\u{c}')
    } else if c == 'n' {
        Some('\n')
    } else if c == 'r' {
        Some('\r')
    } else if c == 't' {
        Some('\t')
    } else {
        None
    }
}

/// Relies on std's `char::from_u32`: yields the character with the given
/// code point, or `None` for surrogates and values past the last code point.
#[verifier::external_body]
fn char_from_u32(u: u32) -> (r: Option<char>)
    ensures
        (r is Some) <==> (u < 0xD800 || (0xE000 <= u && u < 0x110000)),
        r matches Some(c) ==> c as u32 == u,
{
    char::from_u32(u)
}

fn parse_string_body_exec(s: &str, start: usize) -> (r: Option<(String, usize)>)
    requires
        start <= s@.len(),
    ensures
        (r is None) ==> parse_string_body(s@.skip(start as int)) is None,
        r matches Some((t, j)) ==> start <= j <= s@.len() && parse_string_body(
            s@.skip(start as int),
        ) == Some((t@, s@.skip(j as int))),
    decreases s@.len() - start,
{
    let n = s.unicode_len();
    let ghost cur = s@.skip(start as int);
    if start == n {
        proof {
            assert(cur =~= Seq::<char>::empty());
        }
        return None;
    }
    let c = s.get_char(start);
    proof {
        assert(cur[0] == s@[start as int]);
    }
    if c == '"' {
        proof {
            assert(cur.drop_first() =~= s@.skip(start + 1));
        }
        Some((String::new(), start + 1))
    } else if c == '\\' {
        if start + 1 == n {
            proof {
                assert(cur.len() < 2);
            }
            return None;
        }
        let e = s.get_char(start + 1);
        proof {
            assert(cur[1] == s@[start as int + 1]);
        }
        if e == 'u' {
            if n - start < 6 {
                proof {
                    assert(cur.len() < 6);
                }
                return None;
            }
            let h1 = hex_val_exec(s.get_char(start + 2));
            let h2 = hex_val_exec(s.get_char(start + 3));
            let h3 = hex_val_exec(s.get_char(start + 4));
            let h4 = hex_val_exec(s.get_char(start + 5));
            proof {
                assert(cur[2] == s@[start as int + 2]);
                assert(cur[3] == s@[start as int + 3]);
                assert(cur[4] == s@[start as int + 4]);
                assert(cur[5] == s@[start as int + 5]);
            }
            match (h1, h2, h3, h4) {
                (Some(v1), Some(v2), Some(v3), Some(v4)) => {
                    let code: u32 = v1 * 4096 + v2 * 256 + v3 * 16 + v4;
                    match char_from_u32(code) {
                        Some(ch) => {
                            proof {
                                assert(cur.skip(6) =~= s@.skip(start + 6));
                                vstd::utf8::char_u32_cast(ch, code);
                            }
                            match parse_string_body_exec(s, start + 6) {
                                Some((t, j)) => {
                                    let mut out = String::new();
                                    push_char(&mut out, ch);
                                    out.append(t.as_str());
                                    proof {
                                        assert(out@ =~= seq![ch] + t@);
                                    }
                                    Some((out, j))
                                },
                                None => None,
                            }
                        },
                        None => {
                            proof {
                                assert(code < 0x10000);
                                assert(0xD800 <= code && code < 0xE000);
                            }
                            None
                        },
                    }
                },
                _ => None,
            }
        } else {
            match unescape_simple_exec(e) {
                Some(u) => {
                    proof {
                        assert(cur.skip(2) =~= s@.skip(start + 2));
                    }
                    match parse_string_body_exec(s, start + 2) {
                        Some((t, j)) => {
                            let mut out = String::new();
                            push_char(&mut out, u);
                            out.append(t.as_str());
                            proof {
                                assert(out@ =~= seq![u] + t@);
                            }
                            Some((out, j))
                        },
                        None => None,
                    }
                },
                None => None,
            }
        }
    } else if (c as u32) < 32 {
        None
    } else {
        proof {
            assert(cur.drop_first() =~= s@.skip(start + 1));
        }
        match parse_string_body_exec(s, start + 1) {
            Some((t, j)) => {
                let mut out = String::new();
                push_char(&mut out, c);
                out.append(t.as_str());
                proof {
                    assert(out@ =~= seq![c] + t@);
                }
                Some((out, j))
            },
            None => None,
        }
    }
}

fn parse_quoted_exec(s: &str, start: usize) -> (r: Option<(String, usize)>)
    requires
        start <= s@.len(),
    ensures
        (r is None) ==> parse_quoted(s@.skip(start as int)) is None,
        r matches Some((t, j)) ==> start <= j <= s@.len() && parse_quoted(s@.skip(start as int))
            == Some((t@, s@.skip(j as int))),
{
    let n = s.unicode_len();
    let ghost cur = s@.skip(start as int);
    if start == n {
        return None;
    }
    let c = s.get_char(start);
    proof {
        assert(cur[0] == s@[start as int]);
    }
    if c == '"' {
        proof {
            assert(cur.drop_first() =~= s@.skip(start + 1));
        }
        parse_string_body_exec(s, start + 1)
    } else {
        None
    }
}

fn parse_pair_exec(s: &str, start: usize) -> (r: Option<((String, String), usize)>)
    requires
        start <= s@.len(),
    ensures
        (r is None) ==> parse_pair(s@.skip(start as int)) is None,
        r matches Some(((k, v), j)) ==> start <= j <= s@.len() && parse_pair(
            s@.skip(start as int),
        ) == Some(((k@, v@), s@.skip(j as int))),
{
    let n = s.unicode_len();
    let ghost cur = s@.skip(start as int);
    if start == n {
        return None;
    }
    let c = s.get_char(start);
    proof {
        assert(cur[0] == s@[start as int]);
    }
    if c != '[' {
        return None;
    }
    proof {
        assert(cur.drop_first() =~= s@.skip(start + 1));
    }
    match parse_quoted_exec(s, start + 1) {
        Some((k, j1)) => {
            if j1 == n {
                proof {
                    assert(s@.skip(j1 as int) =~= Seq::<char>::empty());
                }
                return None;
            }
            let c1 = s.get_char(j1);
            proof {
                assert(s@.skip(j1 as int)[0] == s@[j1 as int]);
            }
            if c1 != ',' {
                return None;
            }
            proof {
                assert(s@.skip(j1 as int).drop_first() =~= s@.skip(j1 + 1));
            }
            match parse_quoted_exec(s, j1 + 1) {
                Some((v, j2)) => {
                    if j2 == n {
                        proof {
                            assert(s@.skip(j2 as int) =~= Seq::<char>::empty());
                        }
                        return None;
                    }
                    let c2 = s.get_char(j2);
                    proof {
                        assert(s@.skip(j2 as int)[0] == s@[j2 as int]);
                    }
                    if c2 != ']' {
                        return None;
                    }
                    proof {
                        assert(s@.skip(j2 as int).drop_first() =~= s@.skip(j2 + 1));
                    }
                    Some(((k, v), j2 + 1))
                },
                None => None,
            }
        },
        None => None,
    }
}

fn parse_pairs_exec(s: &str, start: usize) -> (r: Option<(Vec<(String, String)>, usize)>)
    requires
        start <= s@.len(),
    ensures
        (r is None) ==> parse_pairs(s@.skip(start as int)) is None,
        r matches Some((ps, j)) ==> start <= j <= s@.len() && parse_pairs(s@.skip(start as int))
            == Some((ps.deep_view(), s@.skip(j as int))),
    decreases s@.len() - start,
{
    let n = s.unicode_len();
    let ghost cur = s@.skip(start as int);
    if start == n {
        proof {
            assert(cur =~= Seq::<char>::empty());
        }
        return None;
    }
    let c = s.get_char(start);
    proof {
        assert(cur[0] == s@[start as int]);
    }
    if c == ']' {
        let empty: Vec<(String, String)> = Vec::new();
        proof {
            assert(cur.drop_first() =~= s@.skip(start + 1));
            assert(empty.deep_view() =~= Seq::<(Seq<char>, Seq<char>)>::empty());
        }
        return Some((empty, start + 1));
    }
    match parse_pair_exec(s, start) {
        Some(((k, v), j)) => {
            proof {
                assert(s@.skip(j as int).len() == n - j);
            }
            if j <= start || j == n {
                return None;
            }
            let c1 = s.get_char(j);
            proof {
                assert(s@.skip(j as int)[0] == s@[j as int]);
            }
            if c1 == ']' {
                let mut one: Vec<(String, String)> = Vec::new();
                one.push((k, v));
                proof {
                    assert(s@.skip(j as int).drop_first() =~= s@.skip(j + 1));
                    assert(one.deep_view() =~= seq![(one@[0].0@, one@[0].1@)]);
                }
                Some((one, j + 1))
            } else if c1 == ',' {
                proof {
                    assert(s@.skip(j as int).drop_first() =~= s@.skip(j + 1));
                }
                match parse_pairs_exec(s, j + 1) {
                    Some((ps, j2)) => {
                        if ps.len() == 0 {
                            proof {
                                assert(ps.deep_view().len() == 0);
                            }
                            return None;
                        }
                        let ghost ps_view = ps.deep_view();
                        let mut out = ps;
                        out.insert(0, (k, v));
                        proof {
                            assert(out.deep_view() =~= seq![(k@, v@)] + ps_view);
                        }
                        Some((out, j2))
                    },
                    None => None,
                }
            } else {
                None
            }
        },
        None => None,
    }
}

/// Decodes a stored header encoding back into (name, value) pairs; yields
/// `None` unless the whole input is one well-formed array of two-element
/// string arrays.
pub fn decode_headers(s: &str) -> (r: Option<Vec<(String, String)>>)
    ensures
        (r is Some) == (decode_headers_spec(s@) is Some),
        r matches Some(hs) ==> decode_headers_spec(s@) == Some(hs.deep_view()),
{
    let n = s.unicode_len();
    if n == 0 {
        return None;
    }
    let c = s.get_char(0);
    if c != '[' {
        return None;
    }
    proof {
        assert(s@.drop_first() =~= s@.skip(1));
    }
    match parse_pairs_exec(s, 1) {
        Some((ps, j)) => {
            if j == n {
                proof {
                    assert(s@.skip(j as int).len() == 0);
                }
                Some(ps)
            } else {
                proof {
                    assert(s@.skip(j as int).len() == n - j);
                }
                None
            }
        },
        None => None,
    }
}

} // verus!
