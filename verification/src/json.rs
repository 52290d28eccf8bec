//! The JSON value model that message payloads are made of, with its
//! byte-level encoder and decoder and the proof that they round-trip.
//! Strings are kept as raw UTF-8 bytes, so an encoding's length is exactly
//! the body length that the transport framer announces. The decoder reads
//! the compact form the encoder writes: no white space between tokens,
//! integral numbers that fit a signed 64-bit integer.

use vstd::prelude::*;

verus! {

/// A JSON value. Numbers are restricted to signed 64-bit integers: the
/// envelope fields this core reads (ids, error codes) are integral, and
/// payloads are carried through opaquely.
pub enum Json {
    Null,
    Bool(bool),
    Int(i64),
    Str(Vec<u8>),
    Arr(Vec<Json>),
    Obj(Vec<(Vec<u8>, Json)>),
}

/// The mathematical model of a JSON value, over `Seq` instead of `Vec`.
pub enum JsonV {
    Null,
    Bool(bool),
    Int(i64),
    Str(Seq<u8>),
    Arr(Seq<JsonV>),
    Obj(Seq<(Seq<u8>, JsonV)>),
}

/// The model of an executable JSON value.
pub open spec fn view_json(j: Json) -> JsonV
    decreases j,
{
    match j {
        Json::Null => JsonV::Null,
        Json::Bool(b) => JsonV::Bool(b),
        Json::Int(i) => JsonV::Int(i),
        Json::Str(s) => JsonV::Str(s@),
        Json::Arr(items) => JsonV::Arr(view_json_seq(items@)),
        Json::Obj(members) => JsonV::Obj(view_member_seq(members@)),
    }
}

/// The models of a sequence of executable JSON values.
pub open spec fn view_json_seq(items: Seq<Json>) -> Seq<JsonV>
    decreases items,
{
    if items.len() == 0 {
        seq![]
    } else {
        seq![view_json(items[0])] + view_json_seq(items.skip(1))
    }
}

/// The models of a sequence of executable object members.
pub open spec fn view_member_seq(members: Seq<(Vec<u8>, Json)>) -> Seq<(Seq<u8>, JsonV)>
    decreases members,
{
    if members.len() == 0 {
        seq![]
    } else {
        seq![(members[0].0@, view_json(members[0].1))] + view_member_seq(members.skip(1))
    }
}

impl View for Json {
    type V = JsonV;

    open spec fn view(&self) -> JsonV {
        view_json(*self)
    }
}

/// The decimal digits of `n`, most significant first.
pub open spec fn spec_digits(n: nat) -> Seq<u8>
    decreases n,
{
    if n < 10 {
        seq![(48 + n) as u8]
    } else {
        spec_digits(n / 10).push((48 + n % 10) as u8)
    }
}

/// The byte encoding of an integer: an optional minus sign, then digits.
pub open spec fn spec_enc_int(i: int) -> Seq<u8> {
    if i < 0 {
        seq![45u8] + spec_digits((-i) as nat)
    } else {
        spec_digits(i as nat)
    }
}

/// The escape of one string byte: quote and backslash get a backslash,
/// control bytes become a four-digit unicode escape, all else is verbatim.
pub open spec fn spec_esc_byte(b: u8) -> Seq<u8> {
    if b == 34 {
        seq![92u8, 34u8]
    } else if b == 92 {
        seq![92u8, 92u8]
    } else if b < 32 {
        seq![92u8, 117u8, 48u8, 48u8, hex_digit((b / 16) as nat), hex_digit((b % 16) as nat)]
    } else {
        seq![b]
    }
}

/// The lower-case hexadecimal digit for a value below 16.
pub open spec fn hex_digit(n: nat) -> u8 {
    if n < 10 {
        (48 + n) as u8
    } else {
        (87 + n) as u8
    }
}

/// The escaped form of a whole string body.
pub open spec fn spec_esc(s: Seq<u8>) -> Seq<u8>
    decreases s.len(),
{
    if s.len() == 0 {
        seq![]
    } else {
        spec_esc_byte(s[0]) + spec_esc(s.skip(1))
    }
}

/// The byte encoding of a JSON value.
pub open spec fn spec_enc(j: JsonV) -> Seq<u8>
    decreases j,
{
    match j {
        JsonV::Null => seq![110u8, 117u8, 108u8, 108u8],
        JsonV::Bool(b) => if b {
            seq![116u8, 114u8, 117u8, 101u8]
        } else {
            seq![102u8, 97u8, 108u8, 115u8, 101u8]
        },
        JsonV::Int(i) => spec_enc_int(i as int),
        JsonV::Str(s) => seq![34u8] + spec_esc(s) + seq![34u8],
        JsonV::Arr(items) => seq![91u8] + spec_enc_list(items) + seq![93u8],
        JsonV::Obj(members) => seq![123u8] + spec_enc_members(members) + seq![125u8],
    }
}

/// The comma-separated encodings of array elements.
pub open spec fn spec_enc_list(items: Seq<JsonV>) -> Seq<u8>
    decreases items,
{
    if items.len() == 0 {
        seq![]
    } else if items.len() == 1 {
        spec_enc(items[0])
    } else {
        spec_enc(items[0]) + seq![44u8] + spec_enc_list(items.skip(1))
    }
}

/// The comma-separated encodings of object members, each a quoted key,
/// a colon, and the value.
pub open spec fn spec_enc_members(members: Seq<(Seq<u8>, JsonV)>) -> Seq<u8>
    decreases members,
{
    if members.len() == 0 {
        seq![]
    } else if members.len() == 1 {
        spec_enc_member(members[0])
    } else {
        spec_enc_member(members[0]) + seq![44u8] + spec_enc_members(members.skip(1))
    }
}

/// The encoding of one object member.
pub open spec fn spec_enc_member(m: (Seq<u8>, JsonV)) -> Seq<u8>
    decreases m,
{
    seq![34u8] + spec_esc(m.0) + seq![34u8, 58u8] + spec_enc(m.1)
}

/// Whether a byte is a decimal digit.
pub open spec fn is_digit(b: u8) -> bool {
    48 <= b && b <= 57
}

/// How many leading decimal digits a byte sequence has.
pub open spec fn digit_count(s: Seq<u8>) -> int
    decreases s.len(),
{
    if s.len() > 0 && is_digit(s[0]) {
        1 + digit_count(s.skip(1))
    } else {
        0
    }
}

/// The value of a sequence of decimal digit bytes, most significant first.
pub open spec fn digits_value(d: Seq<u8>) -> int
    decreases d.len(),
{
    if d.len() == 0 {
        0
    } else {
        digits_value(d.drop_last()) * 10 + (d.last() - 48)
    }
}

/// The value of a hexadecimal digit byte, or a negative number when the byte
/// is not one.
pub open spec fn hex_val(b: u8) -> int {
    if 48 <= b && b <= 57 {
        b - 48
    } else if 97 <= b && b <= 102 {
        b - 87
    } else if 65 <= b && b <= 70 {
        b - 55
    } else {
        -1
    }
}

/// Parses a string body that follows an opening quote: the decoded content
/// and the number of bytes consumed, the closing quote included. Accepts the
/// two mandatory escapes, the standard short escapes, and unicode escapes up
/// to U+007F; raw control bytes are refused.
pub open spec fn spec_parse_strbody(s: Seq<u8>) -> Option<(Seq<u8>, int)>
    decreases s.len(),
{
    if s.len() == 0 {
        None
    } else if s[0] == 34 {
        Some((seq![], 1))
    } else if s[0] == 92 {
        if s.len() < 2 {
            None
        } else if s[1] == 34 || s[1] == 92 || s[1] == 47 {
            match spec_parse_strbody(s.skip(2)) {
                Some((t, n)) => Some((seq![s[1]] + t, n + 2)),
                None => None,
            }
        } else if s[1] == 110 || s[1] == 116 || s[1] == 114 || s[1] == 98 || s[1] == 102 {
            match spec_parse_strbody(s.skip(2)) {
                Some((t, n)) => Some((seq![short_escape_of(s[1])] + t, n + 2)),
                None => None,
            }
        } else if s[1] == 117 {
            if s.len() < 6 {
                None
            } else if hex_val(s[2]) >= 0 && hex_val(s[3]) >= 0 && hex_val(s[4]) >= 0 && hex_val(
                s[5],
            ) >= 0 && hex_val(s[2]) * 4096 + hex_val(s[3]) * 256 + hex_val(s[4]) * 16 + hex_val(
                s[5],
            ) < 128 {
                match spec_parse_strbody(s.skip(6)) {
                    Some(
                        (t, n),
                    ) => Some(
                        (
                            seq![
                                (hex_val(s[2]) * 4096 + hex_val(s[3]) * 256 + hex_val(s[4]) * 16
                                    + hex_val(s[5])) as u8
                            ] + t,
                            n + 6,
                        ),
                    ),
                    None => None,
                }
            } else {
                None
            }
        } else {
            None
        }
    } else if s[0] < 32 {
        None
    } else {
        match spec_parse_strbody(s.skip(1)) {
            Some((t, n)) => Some((seq![s[0]] + t, n + 1)),
            None => None,
        }
    }
}

/// The byte that a short escape such as a backslash-n stands for.
pub open spec fn short_escape_of(e: u8) -> u8 {
    if e == 110 {
        10u8
    } else if e == 116 {
        9u8
    } else if e == 114 {
        13u8
    } else if e == 98 {
        8u8
    } else {
        12u8
    }
}

/// Parses one JSON value at the head of the sequence: the value and the
/// number of bytes consumed. The accepted grammar is the compact form that
/// the encoder emits: no white space between tokens, integral numbers of at
/// most nineteen digits that fit in a signed 64-bit integer.
pub open spec fn spec_parse_value(s: Seq<u8>) -> Option<(JsonV, int)>
    decreases s.len(), 0int,
{
    if s.len() == 0 {
        None
    } else if s[0] == 110 {
        if s.len() >= 4 && s[1] == 117 && s[2] == 108 && s[3] == 108 {
            Some((JsonV::Null, 4))
        } else {
            None
        }
    } else if s[0] == 116 {
        if s.len() >= 4 && s[1] == 114 && s[2] == 117 && s[3] == 101 {
            Some((JsonV::Bool(true), 4))
        } else {
            None
        }
    } else if s[0] == 102 {
        if s.len() >= 5 && s[1] == 97 && s[2] == 108 && s[3] == 115 && s[4] == 101 {
            Some((JsonV::Bool(false), 5))
        } else {
            None
        }
    } else if s[0] == 34 {
        match spec_parse_strbody(s.skip(1)) {
            Some((t, n)) => Some((JsonV::Str(t), 1 + n)),
            None => None,
        }
    } else if s[0] == 45 {
        let c = digit_count(s.skip(1));
        if c == 0 || c > 19 {
            None
        } else {
            let v = digits_value(s.skip(1).take(c));
            if v <= 0x8000_0000_0000_0000 {
                Some((JsonV::Int((-v) as i64), 1 + c))
            } else {
                None
            }
        }
    } else if is_digit(s[0]) {
        let c = digit_count(s);
        if c > 19 {
            None
        } else {
            let v = digits_value(s.take(c));
            if v <= i64::MAX {
                Some((JsonV::Int(v as i64), c))
            } else {
                None
            }
        }
    } else if s[0] == 91 {
        if s.len() >= 2 && s[1] == 93 {
            Some((JsonV::Arr(seq![]), 2))
        } else {
            match spec_parse_elems(s.skip(1)) {
                Some((items, n)) => Some((JsonV::Arr(items), 1 + n)),
                None => None,
            }
        }
    } else if s[0] == 123 {
        if s.len() >= 2 && s[1] == 125 {
            Some((JsonV::Obj(seq![]), 2))
        } else {
            match spec_parse_membs(s.skip(1)) {
                Some((members, n)) => Some((JsonV::Obj(members), 1 + n)),
                None => None,
            }
        }
    } else {
        None
    }
}

/// Parses one or more comma-separated array elements and the closing
/// bracket: the elements and the number of bytes consumed, the bracket
/// included.
pub open spec fn spec_parse_elems(s: Seq<u8>) -> Option<(Seq<JsonV>, int)>
    decreases s.len(), 1int,
{
    match spec_parse_value(s) {
        Some((v, n)) => {
            if 0 <= n && n < s.len() {
                if s[n] == 44 {
                    match spec_parse_elems(s.skip(n + 1)) {
                        Some((rest, m)) => Some((seq![v] + rest, n + 1 + m)),
                        None => None,
                    }
                } else if s[n] == 93 {
                    Some((seq![v], n + 1))
                } else {
                    None
                }
            } else {
                None
            }
        },
        None => None,
    }
}

/// Parses one or more comma-separated object members and the closing brace:
/// the members and the number of bytes consumed, the brace included.
pub open spec fn spec_parse_membs(s: Seq<u8>) -> Option<(Seq<(Seq<u8>, JsonV)>, int)>
    decreases s.len(), 1int,
{
    if s.len() > 0 && s[0] == 34 {
        match spec_parse_strbody(s.skip(1)) {
            Some((key, k)) => {
                let c = 1 + k;
                if 0 <= c && c < s.len() && s[c] == 58 {
                    match spec_parse_value(s.skip(c + 1)) {
                        Some((v, n)) => {
                            let p = c + 1 + n;
                            if 0 <= n && p < s.len() {
                                if s[p] == 44 {
                                    match spec_parse_membs(s.skip(p + 1)) {
                                        Some((rest, m)) => Some(
                                            (seq![(key, v)] + rest, p + 1 + m),
                                        ),
                                        None => None,
                                    }
                                } else if s[p] == 125 {
                                    Some((seq![(key, v)], p + 1))
                                } else {
                                    None
                                }
                            } else {
                                None
                            }
                        },
                        None => None,
                    }
                } else {
                    None
                }
            },
            None => None,
        }
    } else {
        None
    }
}

/// Powers of ten.
pub open spec fn pow10(k: nat) -> int
    decreases k,
{
    if k == 0 {
        1
    } else {
        10 * pow10((k - 1) as nat)
    }
}

/// Every byte of a printed number is a decimal digit, and there is at least
/// one.
pub proof fn lemma_digits_are_digits(n: nat)
    ensures
        spec_digits(n).len() >= 1,
        forall|i: int| 0 <= i < spec_digits(n).len() ==> is_digit(#[trigger] spec_digits(n)[i]),
    decreases n,
{
    if n >= 10 {
        lemma_digits_are_digits(n / 10);
    }
}

/// Reading the printed digits of a number back gives the number.
pub proof fn lemma_digits_value(n: nat)
    ensures
        digits_value(spec_digits(n)) == n,
    decreases n,
{
    if n < 10 {
        assert(spec_digits(n) =~= seq![(48 + n) as u8]);
        assert(spec_digits(n).drop_last() =~= Seq::<u8>::empty());
        assert(digits_value(Seq::<u8>::empty()) == 0);
        assert(spec_digits(n).last() == (48 + n) as u8);
    } else {
        lemma_digits_value(n / 10);
        vstd::arithmetic::div_mod::lemma_fundamental_div_mod(n as int, 10);
        assert(spec_digits(n).drop_last() =~= spec_digits(n / 10));
        assert(spec_digits(n).last() == (48 + n % 10) as u8);
    }
}

/// A number below the k-th power of ten prints in at most k digits.
pub proof fn lemma_digits_len(n: nat, k: nat)
    requires
        k >= 1,
        n < pow10(k),
    ensures
        spec_digits(n).len() <= k,
    decreases n,
{
    if n >= 10 {
        assert(pow10(k) == 10 * pow10((k - 1) as nat));
        lemma_digits_len(n / 10, (k - 1) as nat);
    }
}

/// Counting digits stops exactly at the end of a digit block.
pub proof fn lemma_digit_count(d: Seq<u8>, rest: Seq<u8>)
    requires
        forall|i: int| 0 <= i < d.len() ==> is_digit(#[trigger] d[i]),
        rest.len() == 0 || !is_digit(rest[0]),
    ensures
        digit_count(d + rest) == d.len(),
        (d + rest).take(d.len() as int) =~= d,
    decreases d.len(),
{
    if d.len() == 0 {
        assert(d + rest =~= rest);
    } else {
        assert((d + rest).skip(1) =~= d.skip(1) + rest);
        lemma_digit_count(d.skip(1), rest);
    }
}

/// Parsing a string body over an escaped string followed by the closing
/// quote recovers the string exactly.
pub proof fn lemma_strbody_roundtrip(t: Seq<u8>, rest: Seq<u8>)
    ensures
        spec_parse_strbody(spec_esc(t) + seq![34u8] + rest) == Some(
            (t, spec_esc(t).len() + 1 as int),
        ),
    decreases t.len(),
{
    let s = spec_esc(t) + seq![34u8] + rest;
    if t.len() == 0 {
        assert(s =~= seq![34u8] + rest);
        assert(s[0] == 34);
        assert(t =~= Seq::<u8>::empty());
    } else {
        let b = t[0];
        let t2 = t.skip(1);
        lemma_strbody_roundtrip(t2, rest);
        assert(spec_esc(t) =~= spec_esc_byte(b) + spec_esc(t2));
        if b == 34 || b == 92 {
            assert(s[0] == 92 && s[1] == b);
            assert(s.skip(2) =~= spec_esc(t2) + seq![34u8] + rest);
            assert(seq![b] + t2 =~= t);
        } else if b < 32 {
            assert(s[0] == 92 && s[1] == 117 && s[2] == 48 && s[3] == 48);
            assert(s[4] == hex_digit((b / 16) as nat));
            assert(s[5] == hex_digit((b % 16) as nat));
            assert(hex_val(s[4]) == b / 16);
            assert(hex_val(s[5]) == b % 16);
            let h = hex_val(s[2]) * 4096 + hex_val(s[3]) * 256 + hex_val(s[4]) * 16 + hex_val(
                s[5],
            );
            assert(h == b);
            assert(s.skip(6) =~= spec_esc(t2) + seq![34u8] + rest);
            assert(seq![(h as u8)] + t2 =~= t);
        } else {
            assert(s[0] == b);
            assert(s[0] != 34 && s[0] != 92 && !(s[0] < 32));
            assert(s.skip(1) =~= spec_esc(t2) + seq![34u8] + rest);
            assert(seq![b] + t2 =~= t);
        }
    }
}

/// The first byte of an encoding names its variant: a letter for a literal,
/// a quote, a sign or digit, an opening bracket or brace.
pub proof fn lemma_enc_first(v: JsonV)
    ensures
        spec_enc(v).len() >= 1,
        match v {
            JsonV::Null => spec_enc(v)[0] == 110,
            JsonV::Bool(b) => spec_enc(v)[0] == (if b {
                116u8
            } else {
                102u8
            }),
            JsonV::Int(i) => spec_enc(v)[0] == 45 || is_digit(spec_enc(v)[0]),
            JsonV::Str(_) => spec_enc(v)[0] == 34,
            JsonV::Arr(_) => spec_enc(v)[0] == 91,
            JsonV::Obj(_) => spec_enc(v)[0] == 123,
        },
{
    if let JsonV::Int(i) = v {
        if i >= 0 {
            lemma_digits_are_digits(i as nat);
        } else {
            lemma_digits_are_digits((-i) as nat);
        }
    }
}

/// Parsing an encoded value followed by anything that does not extend a
/// number recovers the value and consumes exactly the encoding.
#[verifier::rlimit(100)]
pub proof fn lemma_parse_enc(v: JsonV, rest: Seq<u8>)
    requires
        rest.len() == 0 || !is_digit(rest[0]),
    ensures
        spec_parse_value(spec_enc(v) + rest) == Some((v, spec_enc(v).len() as int)),
    decreases v, 0int,
{
    let s = spec_enc(v) + rest;
    lemma_enc_first(v);
    match v {
        JsonV::Null => {
            assert(s[0] == 110 && s[1] == 117 && s[2] == 108 && s[3] == 108);
        },
        JsonV::Bool(b) => {
            if b {
                assert(s[0] == 116 && s[1] == 114 && s[2] == 117 && s[3] == 101);
            } else {
                assert(s[0] == 102 && s[1] == 97 && s[2] == 108 && s[3] == 115 && s[4] == 101);
            }
        },
        JsonV::Int(i) => {
            lemma_parse_enc_int(i, rest);
        },
        JsonV::Str(t) => {
            assert(s[0] == 34);
            assert(s.skip(1) =~= spec_esc(t) + seq![34u8] + rest);
            lemma_strbody_roundtrip(t, rest);
        },
        JsonV::Arr(items) => {
            assert(s[0] == 91);
            if items.len() == 0 {
                assert(spec_enc(v) =~= seq![91u8, 93u8]);
                assert(s[1] == 93);
                assert(items =~= Seq::<JsonV>::empty());
            } else {
                lemma_enc_first(items[0]);
                let e0 = spec_enc(items[0]);
                if items.len() == 1 {
                    assert(spec_enc_list(items) == e0);
                } else {
                    assert(spec_enc_list(items) =~= e0 + seq![44u8] + spec_enc_list(
                        items.skip(1),
                    ));
                }
                assert(spec_enc_list(items)[0] == e0[0]);
                assert(s[1] == spec_enc_list(items)[0]);
                assert(s[1] != 93);
                assert(s.skip(1) =~= spec_enc_list(items) + seq![93u8] + rest);
                lemma_parse_enc_elems(items, rest);
            }
        },
        JsonV::Obj(members) => {
            assert(s[0] == 123);
            if members.len() == 0 {
                assert(spec_enc(v) =~= seq![123u8, 125u8]);
                assert(s[1] == 125);
                assert(members =~= Seq::<(Seq<u8>, JsonV)>::empty());
            } else {
                let m0 = spec_enc_member(members[0]);
                assert(m0 =~= seq![34u8] + spec_esc(members[0].0) + seq![34u8, 58u8] + spec_enc(
                    members[0].1,
                ));
                assert(m0[0] == 34);
                if members.len() == 1 {
                    assert(spec_enc_members(members) == m0);
                } else {
                    assert(spec_enc_members(members) =~= m0 + seq![44u8] + spec_enc_members(
                        members.skip(1),
                    ));
                }
                assert(spec_enc_members(members)[0] == m0[0]);
                assert(s[1] == 34);
                assert(s[1] != 125);
                assert(s.skip(1) =~= spec_enc_members(members) + seq![125u8] + rest);
                lemma_parse_enc_membs(members, rest);
            }
        },
    }
}

/// The number case of the round trip: printed digits read back as the same
/// integer, and the digit scan stops at the first byte after them.
pub proof fn lemma_parse_enc_int(i: i64, rest: Seq<u8>)
    requires
        rest.len() == 0 || !is_digit(rest[0]),
    ensures
        spec_parse_value(spec_enc(JsonV::Int(i)) + rest) == Some(
            (JsonV::Int(i), spec_enc(JsonV::Int(i)).len() as int),
        ),
{
    let s = spec_enc(JsonV::Int(i)) + rest;
    assert(pow10(19) == 10_000_000_000_000_000_000) by {
        reveal_with_fuel(pow10, 20);
    }
    if i >= 0 {
        let d = spec_digits(i as nat);
        lemma_digits_are_digits(i as nat);
        lemma_digits_value(i as nat);
        lemma_digits_len(i as nat, 19);
        assert(s =~= d + rest);
        assert(is_digit(s[0]));
        assert(s[0] != 110 && s[0] != 116 && s[0] != 102 && s[0] != 34 && s[0] != 45);
        lemma_digit_count(d, rest);
        assert(digits_value(s.take(d.len() as int)) == i);
    } else {
        let m = (-i) as nat;
        let d = spec_digits(m);
        lemma_digits_are_digits(m);
        lemma_digits_value(m);
        lemma_digits_len(m, 19);
        assert(s[0] == 45);
        assert(s.skip(1) =~= d + rest);
        lemma_digit_count(d, rest);
        assert(digits_value(s.skip(1).take(d.len() as int)) == m);
        assert(m <= 0x8000_0000_0000_0000);
    }
}

/// The element-list case of the round trip.
pub proof fn lemma_parse_enc_elems(items: Seq<JsonV>, rest: Seq<u8>)
    requires
        items.len() >= 1,
    ensures
        spec_parse_elems(spec_enc_list(items) + seq![93u8] + rest) == Some(
            (items, spec_enc_list(items).len() + 1 as int),
        ),
    decreases items, 1int,
{
    let s = spec_enc_list(items) + seq![93u8] + rest;
    let e0 = spec_enc(items[0]);
    if items.len() == 1 {
        assert(spec_enc_list(items) =~= e0);
        assert(s =~= e0 + (seq![93u8] + rest));
        lemma_parse_enc(items[0], seq![93u8] + rest);
        assert(s[e0.len() as int] == 93);
        assert(seq![items[0]] =~= items);
    } else {
        let tail = items.skip(1);
        assert(spec_enc_list(items) =~= e0 + seq![44u8] + spec_enc_list(tail));
        assert(s =~= e0 + (seq![44u8] + spec_enc_list(tail) + seq![93u8] + rest));
        lemma_parse_enc(items[0], seq![44u8] + spec_enc_list(tail) + seq![93u8] + rest);
        assert(s[e0.len() as int] == 44);
        assert(s.skip(e0.len() as int + 1) =~= spec_enc_list(tail) + seq![93u8] + rest);
        lemma_parse_enc_elems(tail, rest);
        assert(seq![items[0]] + tail =~= items);
    }
}

/// The member-list case of the round trip.
#[verifier::rlimit(60)]
pub proof fn lemma_parse_enc_membs(members: Seq<(Seq<u8>, JsonV)>, rest: Seq<u8>)
    requires
        members.len() >= 1,
    ensures
        spec_parse_membs(spec_enc_members(members) + seq![125u8] + rest) == Some(
            (members, spec_enc_members(members).len() + 1 as int),
        ),
    decreases members, 1int,
{
    let s = spec_enc_members(members) + seq![125u8] + rest;
    let key = members[0].0;
    let v0 = members[0].1;
    let m0 = spec_enc_member(members[0]);
    assert(m0 =~= seq![34u8] + spec_esc(key) + seq![34u8, 58u8] + spec_enc(v0));
    if members.len() == 1 {
        assert(spec_enc_members(members) =~= m0);
        assert(s[0] == 34);
        assert(s.skip(1) =~= spec_esc(key) + seq![34u8] + (seq![58u8] + spec_enc(v0) + seq![125u8]
            + rest));
        lemma_strbody_roundtrip(key, seq![58u8] + spec_enc(v0) + seq![125u8] + rest);
        let c = 2 + spec_esc(key).len() as int;
        assert(s[c] == 58);
        assert(s.skip(c + 1) =~= spec_enc(v0) + (seq![125u8] + rest));
        lemma_parse_enc(v0, seq![125u8] + rest);
        let p = c + 1 + spec_enc(v0).len() as int;
        assert(s[p] == 125);
        assert(seq![(key, v0)] =~= members);
    } else {
        let tail = members.skip(1);
        assert(spec_enc_members(members) =~= m0 + seq![44u8] + spec_enc_members(tail));
        assert(s[0] == 34);
        assert(s.skip(1) =~= spec_esc(key) + seq![34u8] + (seq![58u8] + spec_enc(v0) + seq![44u8]
            + spec_enc_members(tail) + seq![125u8] + rest));
        lemma_strbody_roundtrip(
            key,
            seq![58u8] + spec_enc(v0) + seq![44u8] + spec_enc_members(tail) + seq![125u8] + rest,
        );
        let c = 2 + spec_esc(key).len() as int;
        assert(s[c] == 58);
        assert(s.skip(c + 1) =~= spec_enc(v0) + (seq![44u8] + spec_enc_members(tail) + seq![125u8]
            + rest));
        lemma_parse_enc(v0, seq![44u8] + spec_enc_members(tail) + seq![125u8] + rest);
        let p = c + 1 + spec_enc(v0).len() as int;
        assert(s[p] == 44);
        assert(s.skip(p + 1) =~= spec_enc_members(tail) + seq![125u8] + rest);
        lemma_parse_enc_membs(tail, rest);
        assert(seq![(key, v0)] + tail =~= members);
    }
}

/// The round-trip law at the JSON level: parsing the encoding of any value
/// yields that value back and consumes the whole encoding.
pub proof fn lemma_json_roundtrip(v: JsonV)
    ensures
        spec_parse_value(spec_enc(v)) == Some((v, spec_enc(v).len() as int)),
{
    lemma_parse_enc(v, Seq::<u8>::empty());
    assert(spec_enc(v) + Seq::<u8>::empty() =~= spec_enc(v));
}

/// Escaping one byte more extends the escaped string at its end.
pub proof fn lemma_esc_snoc(s: Seq<u8>, b: u8)
    ensures
        spec_esc(s.push(b)) == spec_esc(s) + spec_esc_byte(b),
    decreases s.len(),
{
    if s.len() == 0 {
        assert(s.push(b).skip(1) =~= Seq::<u8>::empty());
        assert(s.push(b)[0] == b);
        assert(spec_esc(Seq::<u8>::empty()) =~= Seq::<u8>::empty());
        assert(spec_esc(s.push(b)) =~= spec_esc(s) + spec_esc_byte(b));
    } else {
        assert(s.push(b).skip(1) =~= s.skip(1).push(b));
        lemma_esc_snoc(s.skip(1), b);
        assert(spec_esc(s.push(b)) =~= spec_esc(s) + spec_esc_byte(b));
    }
}

/// Encoding one element more extends an element list at its end.
pub proof fn lemma_enc_list_snoc(items: Seq<JsonV>, x: JsonV)
    requires
        items.len() >= 1,
    ensures
        spec_enc_list(items.push(x)) == spec_enc_list(items) + seq![44u8] + spec_enc(x),
    decreases items.len(),
{
    if items.len() == 1 {
        assert(items.push(x).skip(1) =~= seq![x]);
        assert(spec_enc_list(seq![x]) == spec_enc(x));
        assert(spec_enc_list(items.push(x)) =~= spec_enc_list(items) + seq![44u8] + spec_enc(x));
    } else {
        assert(items.push(x).skip(1) =~= items.skip(1).push(x));
        lemma_enc_list_snoc(items.skip(1), x);
        assert(spec_enc_list(items.push(x)) =~= spec_enc_list(items) + seq![44u8] + spec_enc(x));
    }
}

/// Encoding one member more extends a member list at its end.
pub proof fn lemma_enc_members_snoc(members: Seq<(Seq<u8>, JsonV)>, x: (Seq<u8>, JsonV))
    requires
        members.len() >= 1,
    ensures
        spec_enc_members(members.push(x)) == spec_enc_members(members) + seq![44u8]
            + spec_enc_member(x),
    decreases members.len(),
{
    if members.len() == 1 {
        assert(members.push(x).skip(1) =~= seq![x]);
        assert(spec_enc_members(seq![x]) == spec_enc_member(x));
        assert(spec_enc_members(members.push(x)) =~= spec_enc_members(members) + seq![44u8]
            + spec_enc_member(x));
    } else {
        assert(members.push(x).skip(1) =~= members.skip(1).push(x));
        lemma_enc_members_snoc(members.skip(1), x);
        assert(spec_enc_members(members.push(x)) =~= spec_enc_members(members) + seq![44u8]
            + spec_enc_member(x));
    }
}

/// The model of a sequence of values, element by element.
pub proof fn lemma_view_json_seq(items: Seq<Json>)
    ensures
        view_json_seq(items).len() == items.len(),
        forall|i: int|
            0 <= i < items.len() ==> #[trigger] view_json_seq(items)[i] == view_json(items[i]),
    decreases items.len(),
{
    if items.len() > 0 {
        lemma_view_json_seq(items.skip(1));
    }
}

/// The model of a sequence of members, member by member.
pub proof fn lemma_view_member_seq(members: Seq<(Vec<u8>, Json)>)
    ensures
        view_member_seq(members).len() == members.len(),
        forall|i: int|
            0 <= i < members.len() ==> #[trigger] view_member_seq(members)[i] == (
            members[i].0@,
            view_json(members[i].1),
            ),
    decreases members.len(),
{
    if members.len() > 0 {
        lemma_view_member_seq(members.skip(1));
    }
}

/// Writes the decimal digits of a number, most significant first.
pub(crate) fn push_digits(n: u64, out: &mut Vec<u8>)
    ensures
        final(out)@ == old(out)@ + spec_digits(n as nat),
    decreases n,
{
    if n < 10 {
        out.push(48 + n as u8);
        assert(out@ =~= old(out)@ + spec_digits(n as nat));
    } else {
        push_digits(n / 10, out);
        out.push(48 + (n % 10) as u8);
        assert(out@ =~= old(out)@ + spec_digits(n as nat));
    }
}

/// Writes one string byte in its escaped form.
fn push_escaped(b: u8, out: &mut Vec<u8>)
    ensures
        final(out)@ == old(out)@ + spec_esc_byte(b),
{
    if b == 34 || b == 92 {
        out.push(92);
        out.push(b);
    } else if b < 32 {
        out.push(92);
        out.push(117);
        out.push(48);
        out.push(48);
        let hi = b / 16;
        let lo = b % 16;
        out.push(48 + hi);
        if lo < 10 {
            out.push(48 + lo);
        } else {
            out.push(87 + lo);
        }
    } else {
        out.push(b);
    }
    assert(out@ =~= old(out)@ + spec_esc_byte(b));
}

/// Writes a quoted, escaped string.
pub(crate) fn push_string(s: &Vec<u8>, out: &mut Vec<u8>)
    ensures
        final(out)@ == old(out)@ + seq![34u8] + spec_esc(s@) + seq![34u8],
{
    out.push(34);
    let ghost base = out@;
    let mut i: usize = 0;
    while i < s.len()
        invariant
            i <= s@.len(),
            out@ == base + spec_esc(s@.take(i as int)),
        decreases s@.len() - i,
    {
        push_escaped(s[i], out);
        proof {
            assert(s@.take(i as int).push(s@[i as int]) =~= s@.take(i + 1));
            lemma_esc_snoc(s@.take(i as int), s@[i as int]);
        }
        i = i + 1;
    }
    out.push(34);
    assert(s@.take(s@.len() as int) =~= s@);
    assert(out@ =~= old(out)@ + seq![34u8] + spec_esc(s@) + seq![34u8]);
}

impl Json {
    /// Appends the byte encoding of this value.
    #[verifier::loop_isolation(false)]
    #[verifier::rlimit(100)]
    pub fn encode_into(&self, out: &mut Vec<u8>)
        ensures
            final(out)@ == old(out)@ + spec_enc(self@),
        decreases *self,
    {
        match self {
            Json::Null => {
                out.push(110);
                out.push(117);
                out.push(108);
                out.push(108);
                assert(out@ =~= old(out)@ + spec_enc(self@));
            },
            Json::Bool(b) => {
                if *b {
                    out.push(116);
                    out.push(114);
                    out.push(117);
                    out.push(101);
                } else {
                    out.push(102);
                    out.push(97);
                    out.push(108);
                    out.push(115);
                    out.push(101);
                }
                assert(out@ =~= old(out)@ + spec_enc(self@));
            },
            Json::Int(i) => {
                let i = *i;
                if i < 0 {
                    out.push(45);
                    let m: u64 = if i == i64::MIN {
                        9223372036854775808u64
                    } else {
                        (-i) as u64
                    };
                    assert(m as nat == (-(i as int)) as nat);
                    push_digits(m, out);
                } else {
                    push_digits(i as u64, out);
                }
                assert(out@ =~= old(out)@ + spec_enc(self@));
            },
            Json::Str(s) => {
                push_string(s, out);
                assert(out@ =~= old(out)@ + spec_enc(self@));
            },
            Json::Arr(items) => {
                out.push(91);
                let ghost base = out@;
                let ghost model = view_json_seq(items@);
                proof {
                    lemma_view_json_seq(items@);
                }
                if items.len() > 0 {
                    items[0].encode_into(out);
                    let mut i: usize = 1;
                    while i < items.len()
                        invariant
                            1 <= i <= items@.len(),
                            model == view_json_seq(items@),
                            model.len() == items@.len(),
                            forall|k: int| 0 <= k < items@.len() ==> #[trigger] model[k]
                                == view_json(items@[k]),
                            out@ == base + spec_enc_list(model.take(i as int)),
                        decreases items@.len() - i,
                    {
                        out.push(44);
                        items[i].encode_into(out);
                        proof {
                            assert(model.take(i as int).push(model[i as int]) =~= model.take(
                                i + 1,
                            ));
                            lemma_enc_list_snoc(model.take(i as int), model[i as int]);
                            assert(out@ =~= base + spec_enc_list(model.take(i + 1)));
                        }
                        i = i + 1;
                    }
                    proof {
                        assert(model.take(model.len() as int) =~= model);
                        assert(model.take(1) =~= seq![model[0]]);
                    }
                }
                out.push(93);
                assert(out@ =~= old(out)@ + spec_enc(self@));
            },
            Json::Obj(members) => {
                out.push(123);
                let ghost base = out@;
                let ghost model = view_member_seq(members@);
                proof {
                    lemma_view_member_seq(members@);
                }
                if members.len() > 0 {
                    push_string(&members[0].0, out);
                    out.push(58);
                    members[0].1.encode_into(out);
                    proof {
                        assert(out@ =~= base + spec_enc_member(model[0]));
                    }
                    let mut i: usize = 1;
                    while i < members.len()
                        invariant
                            1 <= i <= members@.len(),
                            model == view_member_seq(members@),
                            model.len() == members@.len(),
                            forall|k: int| 0 <= k < members@.len() ==> #[trigger] model[k] == (
                            members@[k].0@,
                            view_json(members@[k].1),
                            ),
                            out@ == base + spec_enc_members(model.take(i as int)),
                        decreases members@.len() - i,
                    {
                        out.push(44);
                        push_string(&members[i].0, out);
                        out.push(58);
                        members[i].1.encode_into(out);
                        proof {
                            assert(model.take(i as int).push(model[i as int]) =~= model.take(
                                i + 1,
                            ));
                            lemma_enc_members_snoc(model.take(i as int), model[i as int]);
                            assert(out@ =~= base + spec_enc_members(model.take(i + 1)));
                        }
                        i = i + 1;
                    }
                    proof {
                        assert(model.take(model.len() as int) =~= model);
                        assert(model.take(1) =~= seq![model[0]]);
                    }
                }
                out.push(125);
                assert(out@ =~= old(out)@ + spec_enc(self@));
            },
        }
    }

    /// The byte encoding of this value.
    pub fn encode(&self) -> (out: Vec<u8>)
        ensures
            out@ == spec_enc(self@),
    {
        let mut out: Vec<u8> = Vec::new();
        self.encode_into(&mut out);
        assert(out@ =~= spec_enc(self@));
        out
    }
}

/// The bytes counted by the digit scan are digits, and the count stays in
/// range.
pub proof fn lemma_digit_count_prefix(t: Seq<u8>)
    ensures
        0 <= digit_count(t) <= t.len(),
        forall|i: int| 0 <= i < digit_count(t) ==> is_digit(#[trigger] t[i]),
    decreases t.len(),
{
    if t.len() > 0 && is_digit(t[0]) {
        lemma_digit_count_prefix(t.skip(1));
        assert forall|i: int| 0 <= i < digit_count(t) implies is_digit(#[trigger] t[i]) by {
            if i >= 1 {
                assert(t[i] == t.skip(1)[i - 1]);
            }
        }
    }
}

/// Powers of ten are positive.
pub proof fn lemma_pow10_pos(k: nat)
    ensures
        pow10(k) >= 1,
    decreases k,
{
    if k > 0 {
        lemma_pow10_pos((k - 1) as nat);
    }
}

/// Powers of ten grow with the exponent.
pub proof fn lemma_pow10_mono(a: nat, b: nat)
    requires
        a <= b,
    ensures
        pow10(a) <= pow10(b),
    decreases b,
{
    lemma_pow10_pos(a);
    if a < b {
        lemma_pow10_mono(a, (b - 1) as nat);
    }
}

/// A digit string's value is bounded by the power of ten of its length.
pub proof fn lemma_digits_value_bound(d: Seq<u8>)
    requires
        forall|i: int| 0 <= i < d.len() ==> is_digit(#[trigger] d[i]),
    ensures
        0 <= digits_value(d) < pow10(d.len() as nat),
    decreases d.len(),
{
    if d.len() > 0 {
        assert(forall|i: int| 0 <= i < d.drop_last().len() ==> is_digit(
            #[trigger] d.drop_last()[i],
        ));
        lemma_digits_value_bound(d.drop_last());
        assert(pow10(d.len() as nat) == 10 * pow10((d.len() - 1) as nat));
    }
}

/// The value of a hexadecimal digit byte, negative when it is not one.
fn hexv(b: u8) -> (r: i16)
    ensures
        r as int == hex_val(b),
{
    if 48 <= b && b <= 57 {
        (b - 48) as i16
    } else if 97 <= b && b <= 102 {
        (b - 87) as i16
    } else if 65 <= b && b <= 70 {
        (b - 55) as i16
    } else {
        -1
    }
}

/// Counts the decimal digits that start at `pos`.
pub(crate) fn count_digits(s: &Vec<u8>, pos: usize) -> (c: usize)
    requires
        pos <= s@.len(),
    ensures
        c as int == digit_count(s@.skip(pos as int)),
        pos + c <= s@.len(),
    decreases s@.len() - pos,
{
    if pos < s.len() && 48 <= s[pos] && s[pos] <= 57 {
        let c2 = count_digits(s, pos + 1);
        assert(s@.skip(pos as int).skip(1) =~= s@.skip(pos as int + 1));
        1 + c2
    } else {
        0
    }
}

/// Reads the value of `count` digit bytes that start at `pos`.
pub(crate) fn digits_val(s: &Vec<u8>, pos: usize, count: usize) -> (v: u64)
    requires
        pos + count <= s@.len(),
        count <= 19,
        forall|i: int| pos <= i < pos + count ==> is_digit(#[trigger] s@[i]),
    ensures
        v as int == digits_value(s@.subrange(pos as int, pos + count as int)),
    decreases count,
{
    proof {
        assert(forall|i: int|
            0 <= i < count ==> is_digit(
                #[trigger] s@.subrange(pos as int, pos + count as int)[i],
            ));
        lemma_digits_value_bound(s@.subrange(pos as int, pos + count as int));
        lemma_pow10_mono(count as nat, 19);
        assert(pow10(19) == 10_000_000_000_000_000_000) by {
            reveal_with_fuel(pow10, 20);
        }
    }
    let ln = s.len();
    if count == 0 {
        assert(s@.subrange(pos as int, pos as int) =~= Seq::<u8>::empty());
        0
    } else {
        let front = digits_val(s, pos, count - 1);
        proof {
            assert(s@.subrange(pos as int, pos + count as int).drop_last() =~= s@.subrange(
                pos as int,
                pos + count - 1 as int,
            ));
            assert(forall|i: int|
                0 <= i < count - 1 ==> is_digit(
                    #[trigger] s@.subrange(pos as int, pos + count - 1 as int)[i],
                ));
            lemma_digits_value_bound(s@.subrange(pos as int, pos + count - 1 as int));
            lemma_pow10_mono((count - 1) as nat, 18);
            assert(pow10(18) == 1_000_000_000_000_000_000) by {
                reveal_with_fuel(pow10, 19);
            }
        }
        assert(pos + count <= ln);
        let d = s[pos + count - 1];
        assert(s@.subrange(pos as int, pos + count as int).last() == d);
        front * 10 + (d - 48) as u64
    }
}

/// Parses a string body that starts at `pos`, after the opening quote,
/// appending the content; returns the position after the closing quote.
fn parse_strbody(s: &Vec<u8>, pos: usize, out: &mut Vec<u8>) -> (r: Option<usize>)
    requires
        pos <= s@.len(),
    ensures
        match r {
            Some(end) => pos < end <= s@.len() && (spec_parse_strbody(s@.skip(pos as int))
                matches Some((t, n)) && final(out)@ == old(out)@ + t && n == end - pos),
            None => spec_parse_strbody(s@.skip(pos as int)) is None,
        },
    decreases s@.len() - pos,
{
    let ghost t = s@.skip(pos as int);
    if pos >= s.len() {
        return None;
    }
    let b = s[pos];
    assert(t[0] == b);
    if b == 34 {
        assert(out@ =~= out@ + Seq::<u8>::empty());
        Some(pos + 1)
    } else if b == 92 {
        if pos + 1 >= s.len() {
            return None;
        }
        let e = s[pos + 1];
        assert(t[1] == e);
        if e == 34 || e == 92 || e == 47 {
            out.push(e);
            assert(s@.skip(pos as int).skip(2) =~= s@.skip(pos as int + 2));
            match parse_strbody(s, pos + 2, out) {
                Some(end) => {
                    proof {
                        let pr = spec_parse_strbody(s@.skip(pos as int + 2))->Some_0;
                        assert(out@ =~= old(out)@ + (seq![e] + pr.0));
                    }
                    Some(end)
                },
                None => None,
            }
        } else if e == 110 || e == 116 || e == 114 || e == 98 || e == 102 {
            let c: u8 = if e == 110 {
                10
            } else if e == 116 {
                9
            } else if e == 114 {
                13
            } else if e == 98 {
                8
            } else {
                12
            };
            assert(c == short_escape_of(t[1]));
            out.push(c);
            assert(s@.skip(pos as int).skip(2) =~= s@.skip(pos as int + 2));
            match parse_strbody(s, pos + 2, out) {
                Some(end) => {
                    proof {
                        let pr = spec_parse_strbody(s@.skip(pos as int + 2))->Some_0;
                        assert(out@ =~= old(out)@ + (seq![c] + pr.0));
                    }
                    Some(end)
                },
                None => None,
            }
        } else if e == 117 {
            if s.len() - pos < 6 {
                assert(t.len() < 6);
                return None;
            }
            let h2 = hexv(s[pos + 2]);
            let h3 = hexv(s[pos + 3]);
            let h4 = hexv(s[pos + 4]);
            let h5 = hexv(s[pos + 5]);
            assert(t[2] == s@[pos + 2] && t[3] == s@[pos + 3] && t[4] == s@[pos + 4] && t[5]
                == s@[pos + 5]);
            if h2 >= 0 && h3 >= 0 && h4 >= 0 && h5 >= 0 {
                let h: i32 = (h2 as i32) * 4096 + (h3 as i32) * 256 + (h4 as i32) * 16 + (
                h5 as i32);
                if h < 128 {
                    out.push(h as u8);
                    assert(s@.skip(pos as int).skip(6) =~= s@.skip(pos as int + 6));
                    match parse_strbody(s, pos + 6, out) {
                        Some(end) => {
                            proof {
                                let pr = spec_parse_strbody(s@.skip(pos as int + 6))->Some_0;
                                assert(out@ =~= old(out)@ + (seq![(h as u8)] + pr.0));
                            }
                            Some(end)
                        },
                        None => None,
                    }
                } else {
                    None
                }
            } else {
                None
            }
        } else {
            None
        }
    } else if b < 32 {
        None
    } else {
        out.push(b);
        assert(s@.skip(pos as int).skip(1) =~= s@.skip(pos as int + 1));
        match parse_strbody(s, pos + 1, out) {
            Some(end) => {
                proof {
                    let pr = spec_parse_strbody(s@.skip(pos as int + 1))->Some_0;
                    assert(out@ =~= old(out)@ + (seq![b] + pr.0));
                }
                Some(end)
            },
            None => None,
        }
    }
}

/// Modelling a pushed value pushes its model.
pub proof fn lemma_view_json_seq_push(s: Seq<Json>, j: Json)
    ensures
        view_json_seq(s.push(j)) == view_json_seq(s).push(view_json(j)),
    decreases s.len(),
{
    if s.len() == 0 {
        assert(s.push(j).skip(1) =~= Seq::<Json>::empty());
        assert(view_json_seq(Seq::<Json>::empty()) =~= Seq::<JsonV>::empty());
        assert(view_json_seq(s.push(j)) =~= view_json_seq(s).push(view_json(j)));
    } else {
        assert(s.push(j).skip(1) =~= s.skip(1).push(j));
        lemma_view_json_seq_push(s.skip(1), j);
        assert(view_json_seq(s.push(j)) =~= view_json_seq(s).push(view_json(j)));
    }
}

/// Modelling a pushed member pushes its model.
pub proof fn lemma_view_member_seq_push(s: Seq<(Vec<u8>, Json)>, m: (Vec<u8>, Json))
    ensures
        view_member_seq(s.push(m)) == view_member_seq(s).push((m.0@, view_json(m.1))),
    decreases s.len(),
{
    if s.len() == 0 {
        assert(s.push(m).skip(1) =~= Seq::<(Vec<u8>, Json)>::empty());
        assert(view_member_seq(Seq::<(Vec<u8>, Json)>::empty()) =~= Seq::<(Seq<u8>, JsonV)>::empty());
        assert(view_member_seq(s.push(m)) =~= view_member_seq(s).push((m.0@, view_json(m.1))));
    } else {
        assert(s.push(m).skip(1) =~= s.skip(1).push(m));
        lemma_view_member_seq_push(s.skip(1), m);
        assert(view_member_seq(s.push(m)) =~= view_member_seq(s).push((m.0@, view_json(m.1))));
    }
}

/// Parses one JSON value that starts at `pos`: the value and the position
/// just after it.
#[verifier::rlimit(100)]
pub fn parse_value(s: &Vec<u8>, pos: usize) -> (r: Option<(Json, usize)>)
    requires
        pos <= s@.len(),
    ensures
        match r {
            Some((j, end)) => pos < end <= s@.len() && spec_parse_value(s@.skip(pos as int))
                == Some((j@, end - pos)),
            None => spec_parse_value(s@.skip(pos as int)) is None,
        },
    decreases s@.len() - pos, 0int,
{
    let ghost t = s@.skip(pos as int);
    let ln = s.len();
    if pos >= ln {
        return None;
    }
    let b = s[pos];
    assert(t[0] == b);
    proof {
        if ln - pos >= 2 {
            assert(t[1] == s@[pos + 1]);
        }
        if ln - pos >= 4 {
            assert(t[2] == s@[pos + 2] && t[3] == s@[pos + 3]);
        }
        if ln - pos >= 5 {
            assert(t[4] == s@[pos + 4]);
        }
    }
    if b == 110 {
        if ln - pos >= 4 && s[pos + 1] == 117 && s[pos + 2] == 108 && s[pos + 3] == 108 {
            Some((Json::Null, pos + 4))
        } else {
            None
        }
    } else if b == 116 {
        if ln - pos >= 4 && s[pos + 1] == 114 && s[pos + 2] == 117 && s[pos + 3] == 101 {
            Some((Json::Bool(true), pos + 4))
        } else {
            None
        }
    } else if b == 102 {
        if ln - pos >= 5 && s[pos + 1] == 97 && s[pos + 2] == 108 && s[pos + 3] == 115 && s[pos
            + 4] == 101 {
            Some((Json::Bool(false), pos + 5))
        } else {
            None
        }
    } else if b == 34 {
        let mut content: Vec<u8> = Vec::new();
        assert(t.skip(1) =~= s@.skip(pos + 1));
        match parse_strbody(s, pos + 1, &mut content) {
            Some(end) => {
                proof {
                    let pr = spec_parse_strbody(s@.skip(pos + 1))->Some_0;
                    assert(content@ =~= Seq::<u8>::empty() + pr.0);
                }
                Some((Json::Str(content), end))
            },
            None => None,
        }
    } else if b == 45 {
        let c = count_digits(s, pos + 1);
        assert(t.skip(1) =~= s@.skip(pos + 1));
        if c == 0 || c > 19 {
            None
        } else {
            proof {
                lemma_digit_count_prefix(s@.skip(pos + 1));
                assert forall|i: int| pos + 1 <= i < pos + 1 + c implies is_digit(
                    #[trigger] s@[i],
                ) by {
                    assert(s@[i] == s@.skip(pos + 1)[i - pos - 1]);
                }
            }
            let v = digits_val(s, pos + 1, c);
            assert(t.skip(1).take(c as int) =~= s@.subrange(pos + 1, pos + 1 + c));
            if v <= 9223372036854775808u64 {
                let j: i64 = if v == 9223372036854775808u64 {
                    i64::MIN
                } else {
                    -(v as i64)
                };
                Some((Json::Int(j), pos + 1 + c))
            } else {
                None
            }
        }
    } else if 48 <= b && b <= 57 {
        let c = count_digits(s, pos);
        if c > 19 {
            None
        } else {
            proof {
                lemma_digit_count_prefix(s@.skip(pos as int));
                assert forall|i: int| pos <= i < pos + c implies is_digit(#[trigger] s@[i]) by {
                    assert(s@[i] == s@.skip(pos as int)[i - pos]);
                }
            }
            let v = digits_val(s, pos, c);
            assert(t.take(c as int) =~= s@.subrange(pos as int, pos + c));
            assert(c >= 1) by {
                assert(is_digit(t[0]));
                lemma_digit_count_prefix(t.skip(1));
            }
            if v <= 9223372036854775807u64 {
                Some((Json::Int(v as i64), pos + c))
            } else {
                None
            }
        }
    } else if b == 91 {
        if ln - pos >= 2 && s[pos + 1] == 93 {
            let items: Vec<Json> = Vec::new();
            assert(view_json_seq(items@) =~= Seq::<JsonV>::empty());
            Some((Json::Arr(items), pos + 2))
        } else {
            let mut items: Vec<Json> = Vec::new();
            assert(t.skip(1) =~= s@.skip(pos + 1));
            match parse_elems(s, pos + 1, &mut items) {
                Some(end) => {
                    proof {
                        let sp = spec_parse_elems(s@.skip(pos + 1))->Some_0;
                        assert(view_json_seq(Seq::<Json>::empty()) =~= Seq::<JsonV>::empty());
                        assert(view_json_seq(items@) =~= sp.0);
                    }
                    Some((Json::Arr(items), end))
                },
                None => None,
            }
        }
    } else if b == 123 {
        if ln - pos >= 2 && s[pos + 1] == 125 {
            let members: Vec<(Vec<u8>, Json)> = Vec::new();
            assert(view_member_seq(members@) =~= Seq::<(Seq<u8>, JsonV)>::empty());
            Some((Json::Obj(members), pos + 2))
        } else {
            let mut members: Vec<(Vec<u8>, Json)> = Vec::new();
            assert(t.skip(1) =~= s@.skip(pos + 1));
            match parse_membs(s, pos + 1, &mut members) {
                Some(end) => {
                    proof {
                        let sp = spec_parse_membs(s@.skip(pos + 1))->Some_0;
                        assert(view_member_seq(Seq::<(Vec<u8>, Json)>::empty()) =~= Seq::<
                            (Seq<u8>, JsonV),
                        >::empty());
                        assert(view_member_seq(members@) =~= sp.0);
                    }
                    Some((Json::Obj(members), end))
                },
                None => None,
            }
        }
    } else {
        None
    }
}

/// Parses the elements of a non-empty array, the closing bracket included,
/// appending the values; returns the position after the bracket.
fn parse_elems(s: &Vec<u8>, pos: usize, out: &mut Vec<Json>) -> (r: Option<usize>)
    requires
        pos <= s@.len(),
    ensures
        match r {
            Some(end) => pos < end <= s@.len() && (spec_parse_elems(s@.skip(pos as int))
                matches Some((items, n)) && view_json_seq(final(out)@) == view_json_seq(
                old(out)@,
            ) + items && n == end - pos),
            None => spec_parse_elems(s@.skip(pos as int)) is None,
        },
    decreases s@.len() - pos, 1int,
{
    let ghost t = s@.skip(pos as int);
    match parse_value(s, pos) {
        Some((v, end)) => {
            if end < s.len() {
                let b2 = s[end];
                assert(t[end - pos] == b2);
                if b2 == 44 {
                    out.push(v);
                    proof {
                        lemma_view_json_seq_push(old(out)@, v);
                    }
                    assert(t.skip(end - pos + 1) =~= s@.skip(end + 1));
                    match parse_elems(s, end + 1, out) {
                        Some(end2) => {
                            proof {
                                let sp2 = spec_parse_elems(s@.skip(end + 1))->Some_0;
                                assert(view_json_seq(old(out)@).push(v@) + sp2.0 =~= view_json_seq(
                                    old(out)@,
                                ) + (seq![v@] + sp2.0));
                            }
                            Some(end2)
                        },
                        None => None,
                    }
                } else if b2 == 93 {
                    out.push(v);
                    proof {
                        lemma_view_json_seq_push(old(out)@, v);
                        assert(view_json_seq(old(out)@).push(v@) =~= view_json_seq(old(out)@)
                            + seq![v@]);
                    }
                    Some(end + 1)
                } else {
                    None
                }
            } else {
                None
            }
        },
        None => None,
    }
}

/// Parses the members of a non-empty object, the closing brace included,
/// appending the key-value pairs; returns the position after the brace.
#[verifier::rlimit(100)]
fn parse_membs(s: &Vec<u8>, pos: usize, out: &mut Vec<(Vec<u8>, Json)>) -> (r: Option<usize>)
    requires
        pos <= s@.len(),
    ensures
        match r {
            Some(end) => pos < end <= s@.len() && (spec_parse_membs(s@.skip(pos as int))
                matches Some((members, n)) && view_member_seq(final(out)@) == view_member_seq(
                old(out)@,
            ) + members && n == end - pos),
            None => spec_parse_membs(s@.skip(pos as int)) is None,
        },
    decreases s@.len() - pos, 1int,
{
    let ghost t = s@.skip(pos as int);
    let ln = s.len();
    if pos < ln && s[pos] == 34 {
        assert(t[0] == s@[pos as int]);
        let mut key: Vec<u8> = Vec::new();
        assert(t.skip(1) =~= s@.skip(pos + 1));
        match parse_strbody(s, pos + 1, &mut key) {
            Some(kend) => {
                proof {
                    let kr = spec_parse_strbody(s@.skip(pos + 1))->Some_0;
                    assert(key@ =~= Seq::<u8>::empty() + kr.0);
                }
                if kend < ln && s[kend] == 58 {
                    assert(t[kend - pos] == s@[kend as int]);
                    assert(t.skip(kend - pos + 1) =~= s@.skip(kend + 1));
                    match parse_value(s, kend + 1) {
                        Some((v, vend)) => {
                            if vend < ln {
                                let b2 = s[vend];
                                assert(t[vend - pos] == b2);
                                if b2 == 44 {
                                    let ghost keyv = key@;
                                    out.push((key, v));
                                    proof {
                                        lemma_view_member_seq_push(old(out)@, (key, v));
                                    }
                                    assert(t.skip(vend - pos + 1) =~= s@.skip(vend + 1));
                                    match parse_membs(s, vend + 1, out) {
                                        Some(end2) => {
                                            proof {
                                                let sp2 = spec_parse_membs(
                                                    s@.skip(vend + 1),
                                                )->Some_0;
                                                assert(view_member_seq(old(out)@).push(
                                                    (keyv, v@),
                                                ) + sp2.0 =~= view_member_seq(old(out)@) + (
                                                seq![(keyv, v@)] + sp2.0));
                                            }
                                            Some(end2)
                                        },
                                        None => None,
                                    }
                                } else if b2 == 125 {
                                    let ghost keyv = key@;
                                    out.push((key, v));
                                    proof {
                                        lemma_view_member_seq_push(old(out)@, (key, v));
                                        assert(view_member_seq(old(out)@).push((keyv, v@))
                                            =~= view_member_seq(old(out)@) + seq![(keyv, v@)]);
                                    }
                                    Some(vend + 1)
                                } else {
                                    None
                                }
                            } else {
                                None
                            }
                        },
                        None => None,
                    }
                } else {
                    None
                }
            },
            None => None,
        }
    } else {
        if pos < ln {
            assert(t[0] == s@[pos as int]);
        }
        None
    }
}

/// What decoding a whole body yields: the parse must consume every byte.
pub open spec fn spec_decode(bytes: Seq<u8>) -> Option<JsonV> {
    match spec_parse_value(bytes) {
        Some((v, n)) => if n == bytes.len() {
            Some(v)
        } else {
            None
        },
        None => None,
    }
}

/// Decodes a whole JSON body.
pub fn decode_json(bytes: &Vec<u8>) -> (r: Option<Json>)
    ensures
        match r {
            Some(j) => spec_decode(bytes@) == Some(j@),
            None => spec_decode(bytes@) is None,
        },
{
    assert(bytes@.skip(0) =~= bytes@);
    match parse_value(bytes, 0) {
        Some((j, end)) => {
            if end == bytes.len() {
                Some(j)
            } else {
                None
            }
        },
        None => None,
    }
}

/// The round-trip law: decoding the encoding of any value gives the value
/// back.
pub proof fn lemma_decode_roundtrip(v: JsonV)
    ensures
        spec_decode(spec_enc(v)) == Some(v),
{
    lemma_json_roundtrip(v);
}

/// A byte-for-byte copy.
pub fn clone_bytes(v: &Vec<u8>) -> (r: Vec<u8>)
    ensures
        r@ == v@,
{
    let mut r: Vec<u8> = Vec::new();
    let mut i: usize = 0;
    while i < v.len()
        invariant
            i <= v@.len(),
            r@ == v@.take(i as int),
        decreases v@.len() - i,
    {
        r.push(v[i]);
        assert(r@ =~= v@.take(i + 1));
        i = i + 1;
    }
    assert(r@ =~= v@);
    r
}

impl Json {
    /// A structurally equal copy.
    #[verifier::loop_isolation(false)]
    pub fn deep_clone(&self) -> (r: Json)
        ensures
            r@ == self@,
        decreases *self,
    {
        match self {
            Json::Null => Json::Null,
            Json::Bool(b) => Json::Bool(*b),
            Json::Int(i) => Json::Int(*i),
            Json::Str(s) => Json::Str(clone_bytes(s)),
            Json::Arr(items) => {
                proof {
                    lemma_view_json_seq(items@);
                }
                let mut out: Vec<Json> = Vec::new();
                let mut i: usize = 0;
                assert(view_json_seq(out@) =~= view_json_seq(items@).take(0));
                while i < items.len()
                    invariant
                        i <= items@.len(),
                        view_json_seq(out@) == view_json_seq(items@).take(i as int),
                    decreases items@.len() - i,
                {
                    let c = items[i].deep_clone();
                    let ghost prev = out@;
                    out.push(c);
                    proof {
                        lemma_view_json_seq_push(prev, c);
                        assert(out@ == prev.push(c));
                        assert(view_json_seq(items@).take(i as int).push(
                            view_json(items@[i as int]),
                        ) =~= view_json_seq(items@).take(i + 1));
                    }
                    i = i + 1;
                }
                assert(view_json_seq(items@).take(items@.len() as int) =~= view_json_seq(
                    items@,
                ));
                Json::Arr(out)
            },
            Json::Obj(members) => {
                proof {
                    lemma_view_member_seq(members@);
                }
                let mut out: Vec<(Vec<u8>, Json)> = Vec::new();
                let mut i: usize = 0;
                assert(view_member_seq(out@) =~= view_member_seq(members@).take(0));
                while i < members.len()
                    invariant
                        i <= members@.len(),
                        view_member_seq(out@) == view_member_seq(members@).take(i as int),
                    decreases members@.len() - i,
                {
                    let k = clone_bytes(&members[i].0);
                    let c = members[i].1.deep_clone();
                    let ghost prev = out@;
                    let ghost kv = k@;
                    out.push((k, c));
                    proof {
                        lemma_view_member_seq_push(prev, (k, c));
                        assert(out@ == prev.push((k, c)));
                        assert(view_member_seq(members@).take(i as int).push(
                            (members@[i as int].0@, view_json(members@[i as int].1)),
                        ) =~= view_member_seq(members@).take(i + 1));
                    }
                    i = i + 1;
                }
                assert(view_member_seq(members@).take(members@.len() as int) =~= view_member_seq(
                    members@,
                ));
                Json::Obj(out)
            },
        }
    }
}

} // verus!
