use vstd::prelude::*;

use crate::error::{DecodeError, DecodeErrorV};
use crate::text::{
    chars_to_string, hex_char, hex_digit_char, hex_digit_val, hex_val, is_ws, lemma_hex_char_val,
    ws_char,
};

verus! {

broadcast use vstd::seq_lib::group_seq_lib_default, vstd::seq::group_seq_axioms;

/// What remains of `s` after dropping leading JSON whitespace.
pub open spec fn sp_ws(s: Seq<char>) -> Seq<char>
    decreases s.len(),
{
    if s.len() > 0 && is_ws(s[0]) {
        sp_ws(s.skip(1))
    } else {
        s
    }
}

/// Dropping whitespace never lengthens the input, and yields a suffix that
/// starts with a non-whitespace character (if anything is left).
pub proof fn lemma_ws_len(s: Seq<char>)
    ensures
        sp_ws(s).len() <= s.len(),
        sp_ws(s).len() > 0 ==> !is_ws(sp_ws(s)[0]),
    decreases s.len(),
{
    if s.len() > 0 && is_ws(s[0]) {
        lemma_ws_len(s.skip(1));
    }
}

/// Whitespace skipping is the identity on inputs that do not start with
/// whitespace.
pub proof fn lemma_ws_nop(s: Seq<char>)
    requires
        s.len() == 0 || !is_ws(s[0]),
    ensures
        sp_ws(s) == s,
{
}

/// The value of four hexadecimal digits at the front of `s`, or `None` if
/// fewer than four characters remain or one is not a hexadecimal digit.
pub open spec fn sp_hex4(s: Seq<char>) -> Option<u32> {
    if s.len() < 4 {
        None
    } else if hex_val(s[0]) is Some && hex_val(s[1]) is Some && hex_val(s[2]) is Some && hex_val(
        s[3],
    ) is Some {
        Some(
            (hex_val(s[0])->Some_0 * 4096 + hex_val(s[1])->Some_0 * 256 + hex_val(s[2])->Some_0
                * 16 + hex_val(s[3])->Some_0) as u32,
        )
    } else {
        None
    }
}

/// The body of a JSON string, after its opening quote: the decoded characters
/// accumulated onto `acc`, and the input remaining after the closing quote.
pub open spec fn sp_str_body(s: Seq<char>, acc: Seq<char>) -> Result<
    (Seq<char>, Seq<char>),
    DecodeErrorV,
>
    decreases s.len(),
{
    if s.len() == 0 {
        Err(DecodeErrorV::MalformedJson)
    } else if s[0] == '"' {
        Ok((acc, s.skip(1)))
    } else if s[0] == '\\' {
        if s.len() < 2 {
            Err(DecodeErrorV::MalformedJson)
        } else {
            let e = s[1];
            if e == '"' {
                sp_str_body(s.skip(2), acc.push('"'))
            } else if e == '\\' {
                sp_str_body(s.skip(2), acc.push('\\'))
            } else if e == '/' {
                sp_str_body(s.skip(2), acc.push('/'))
            } else if e == 'b' {
                sp_str_body(s.skip(2), acc.push('\u{0008}'))
            } else if e == 'f' {
                sp_str_body(s.skip(2), acc.push('\u{000C}'))
            } else if e == 'n' {
                sp_str_body(s.skip(2), acc.push('\n'))
            } else if e == 'r' {
                sp_str_body(s.skip(2), acc.push('\r'))
            } else if e == 't' {
                sp_str_body(s.skip(2), acc.push('\t'))
            } else if e == 'u' {
                if sp_hex4(s.skip(2)) is None {
                    Err(DecodeErrorV::MalformedJson)
                } else {
                    let h = sp_hex4(s.skip(2))->Some_0;
                    if h < 0xD800 || h > 0xDFFF {
                        sp_str_body(s.skip(6), acc.push(h as char))
                    } else if h < 0xDC00 {
                        // A high surrogate must be followed by an escaped low
                        // surrogate; together they name one scalar value.
                        if s.len() < 8 || s[6] != '\\' || s[7] != 'u' {
                            Err(DecodeErrorV::MalformedJson)
                        } else if sp_hex4(s.skip(8)) is None {
                            Err(DecodeErrorV::MalformedJson)
                        } else {
                            let l = sp_hex4(s.skip(8))->Some_0;
                            if 0xDC00 <= l && l <= 0xDFFF {
                                sp_str_body(
                                    s.skip(12),
                                    acc.push(
                                        ((0x10000 + (h - 0xD800) * 0x400 + (l
                                            - 0xDC00)) as u32) as char,
                                    ),
                                )
                            } else {
                                Err(DecodeErrorV::MalformedJson)
                            }
                        }
                    } else {
                        Err(DecodeErrorV::MalformedJson)
                    }
                }
            } else {
                Err(DecodeErrorV::MalformedJson)
            }
        }
    } else if (s[0] as u32) < 0x20 {
        Err(DecodeErrorV::MalformedJson)
    } else {
        sp_str_body(s.skip(1), acc.push(s[0]))
    }
}

/// A whole JSON string at the front of `s`: its decoded characters and the
/// input remaining after the closing quote.
pub open spec fn sp_string(s: Seq<char>) -> Result<(Seq<char>, Seq<char>), DecodeErrorV> {
    if s.len() == 0 || s[0] != '"' {
        Err(DecodeErrorV::MalformedJson)
    } else {
        sp_str_body(s.skip(1), Seq::empty())
    }
}

/// A parsed string body leaves strictly less input than it was given.
pub proof fn lemma_str_body_len(s: Seq<char>, acc: Seq<char>)
    ensures
        sp_str_body(s, acc) matches Ok(p) ==> p.1.len() < s.len(),
    decreases s.len(),
{
    if s.len() >= 2 && s[0] == '\\' {
        let e = s[1];
        lemma_str_body_len(s.skip(2), acc.push('"'));
        lemma_str_body_len(s.skip(2), acc.push('\\'));
        lemma_str_body_len(s.skip(2), acc.push('/'));
        lemma_str_body_len(s.skip(2), acc.push('\u{0008}'));
        lemma_str_body_len(s.skip(2), acc.push('\u{000C}'));
        lemma_str_body_len(s.skip(2), acc.push('\n'));
        lemma_str_body_len(s.skip(2), acc.push('\r'));
        lemma_str_body_len(s.skip(2), acc.push('\t'));
        if e == 'u' && sp_hex4(s.skip(2)) is Some {
            let h = sp_hex4(s.skip(2))->Some_0;
            lemma_str_body_len(s.skip(6), acc.push(h as char));
            if 0xD800 <= h < 0xDC00 && s.len() >= 8 && sp_hex4(s.skip(8)) is Some {
                let l = sp_hex4(s.skip(8))->Some_0;
                lemma_str_body_len(
                    s.skip(12),
                    acc.push(((0x10000 + (h - 0xD800) * 0x400 + (l - 0xDC00)) as u32) as char),
                );
            }
        }
    } else if s.len() >= 1 && s[0] != '"' && s[0] != '\\' && !((s[0] as u32) < 0x20) {
        lemma_str_body_len(s.skip(1), acc.push(s[0]));
    }
}

/// A parsed string leaves strictly less input than it was given.
pub proof fn lemma_string_len(s: Seq<char>)
    ensures
        sp_string(s) matches Ok(p) ==> p.1.len() < s.len(),
{
    if s.len() > 0 && s[0] == '"' {
        lemma_str_body_len(s.skip(1), Seq::empty());
    }
}

/// Skips JSON whitespace in `t` starting at `i`.
pub fn p_ws(t: &Vec<char>, i: usize) -> (j: usize)
    requires
        i <= t.len(),
    ensures
        i <= j <= t.len(),
        t@.skip(j as int) == sp_ws(t@.skip(i as int)),
{
    let mut j: usize = i;
    while j < t.len() && ws_char(t[j])
        invariant
            i <= j <= t.len(),
            sp_ws(t@.skip(i as int)) == sp_ws(t@.skip(j as int)),
        decreases t.len() - j,
    {
        proof {
            assert(t@.skip(j as int)[0] == t@[j as int]);
            assert(t@.skip(j as int).skip(1) =~= t@.skip(j + 1 as int));
        }
        j = j + 1;
    }
    proof {
        if j < t.len() {
            assert(t@.skip(j as int)[0] == t@[j as int]);
        }
        assert(sp_ws(t@.skip(j as int)) == t@.skip(j as int));
    }
    j
}

/// Reads four hexadecimal digits of `t` starting at `k`.
fn p_hex4(t: &Vec<char>, k: usize) -> (r: Option<u32>)
    requires
        k + 4 <= t.len(),
    ensures
        r == sp_hex4(t@.skip(k as int)),
        r matches Some(h) ==> h < 0x10000,
{
    let h0 = hex_digit_val(t[k]);
    let h1 = hex_digit_val(t[k + 1]);
    let h2 = hex_digit_val(t[k + 2]);
    let h3 = hex_digit_val(t[k + 3]);
    proof {
        assert(t@.skip(k as int)[0] == t@[k as int]);
        assert(t@.skip(k as int)[1] == t@[k + 1 as int]);
        assert(t@.skip(k as int)[2] == t@[k + 2 as int]);
        assert(t@.skip(k as int)[3] == t@[k + 3 as int]);
    }
    match (h0, h1, h2, h3) {
        (Some(a), Some(b), Some(c), Some(d)) => Some(a * 4096 + b * 256 + c * 16 + d),
        _ => None,
    }
}

/// Parses a JSON string of `t` starting at `i`; on success returns the decoded
/// string and the position just after the closing quote.
#[verifier::rlimit(60)]
pub fn p_string(t: &Vec<char>, i: usize) -> (r: Result<(String, usize), DecodeError>)
    requires
        i <= t.len(),
    ensures
        r matches Ok(p) ==> i < p.1 <= t.len() && sp_string(t@.skip(i as int)) == Ok::<
            _,
            DecodeErrorV,
        >((p.0@, t@.skip(p.1 as int))),
        r matches Err(e) ==> sp_string(t@.skip(i as int)) == Err::<(Seq<char>, Seq<char>), _>(e@),
{
    if i >= t.len() || t[i] != '"' {
        proof {
            if i < t.len() {
                assert(t@.skip(i as int)[0] == t@[i as int]);
            }
        }
        return Err(DecodeError::MalformedJson);
    }
    proof {
        assert(t@.skip(i as int)[0] == t@[i as int]);
        assert(t@.skip(i as int).skip(1) =~= t@.skip(i + 1 as int));
    }
    let mut acc: Vec<char> = Vec::new();
    let mut j: usize = i + 1;
    loop
        invariant
            i + 1 <= j <= t.len(),
            sp_string(t@.skip(i as int)) == sp_str_body(t@.skip(j as int), acc@),
        decreases t.len() - j,
    {
        if j >= t.len() {
            return Err(DecodeError::MalformedJson);
        }
        let c = t[j];
        proof {
            assert(t@.skip(j as int)[0] == t@[j as int]);
        }
        if c == '"' {
            proof {
                assert(t@.skip(j as int).skip(1) =~= t@.skip(j + 1 as int));
            }
            return Ok((chars_to_string(&acc), j + 1));
        } else if c == '\\' {
            if j + 1 >= t.len() {
                return Err(DecodeError::MalformedJson);
            }
            let e = t[j + 1];
            proof {
                assert(t@.skip(j as int)[1] == t@[j + 1 as int]);
                assert(t@.skip(j as int).skip(2) =~= t@.skip(j + 2 as int));
            }
            if e == '"' {
                acc.push('"');
                j = j + 2;
            } else if e == '\\' {
                acc.push('\\');
                j = j + 2;
            } else if e == '/' {
                acc.push('/');
                j = j + 2;
            } else if e == 'b' {
                acc.push('\u{0008}');
                j = j + 2;
            } else if e == 'f' {
                acc.push('\u{000C}');
                j = j + 2;
            } else if e == 'n' {
                acc.push('\n');
                j = j + 2;
            } else if e == 'r' {
                acc.push('\r');
                j = j + 2;
            } else if e == 't' {
                acc.push('\t');
                j = j + 2;
            } else if e == 'u' {
                if t.len() - j < 6 {
                    proof {
                        assert(t@.skip(j as int).skip(2).len() < 4);
                    }
                    return Err(DecodeError::MalformedJson);
                }
                let h = match p_hex4(t, j + 2) {
                    Some(h) => h,
                    None => {
                        return Err(DecodeError::MalformedJson);
                    },
                };
                if h < 0xD800 || h > 0xDFFF {
                    proof {
                        assert(t@.skip(j as int).skip(6) =~= t@.skip(j + 6 as int));
                    }
                    let c2 = char::from_u32(h).unwrap();
                    proof {
                        vstd::utf8::char_u32_cast(c2, h);
                        assert(c2 == (h as char));
                    }
                    acc.push(c2);
                    j = j + 6;
                } else if h < 0xDC00 {
                    if t.len() - j < 12 || t[j + 6] != '\\' || t[j + 7] != 'u' {
                        proof {
                            let s = t@.skip(j as int);
                            if t.len() >= j + 8 {
                                assert(s[6] == t@[j + 6 as int]);
                                assert(s[7] == t@[j + 7 as int]);
                            }
                            if t.len() < j + 12 && t.len() >= j + 8 {
                                assert(s.skip(8).len() < 4);
                            }
                        }
                        return Err(DecodeError::MalformedJson);
                    }
                    proof {
                        let s = t@.skip(j as int);
                        assert(s[6] == t@[j + 6 as int]);
                        assert(s[7] == t@[j + 7 as int]);
                        assert(s.skip(8) =~= t@.skip(j + 8 as int));
                        assert(s.skip(12) =~= t@.skip(j + 12 as int));
                    }
                    let l = match p_hex4(t, j + 8) {
                        Some(l) => l,
                        None => {
                            return Err(DecodeError::MalformedJson);
                        },
                    };
                    if !(0xDC00 <= l && l <= 0xDFFF) {
                        return Err(DecodeError::MalformedJson);
                    }
                    let v: u32 = 0x10000 + (h - 0xD800) * 0x400 + (l - 0xDC00);
                    let c2 = char::from_u32(v).unwrap();
                    proof {
                        vstd::utf8::char_u32_cast(c2, v);
                        assert(c2 == (v as char));
                    }
                    acc.push(c2);
                    j = j + 12;
                } else {
                    return Err(DecodeError::MalformedJson);
                }
            } else {
                return Err(DecodeError::MalformedJson);
            }
        } else if (c as u32) < 0x20 {
            return Err(DecodeError::MalformedJson);
        } else {
            proof {
                assert(t@.skip(j as int).skip(1) =~= t@.skip(j + 1 as int));
            }
            acc.push(c);
            j = j + 1;
        }
    }
}

/// The escape sequence the encoder emits for one character: quotes and
/// backslashes are escaped, control characters become `\u00..`, and every
/// other character stands for itself.
pub open spec fn esc_char(c: char) -> Seq<char> {
    if c == '"' {
        seq!['\\', '"']
    } else if c == '\\' {
        seq!['\\', '\\']
    } else if (c as u32) < 0x20 {
        seq!['\\', 'u', '0', '0', hex_char((c as u32) / 16), hex_char((c as u32) % 16)]
    } else {
        seq![c]
    }
}

/// The escaped form of a whole string, character by character.
pub open spec fn esc_str(s: Seq<char>) -> Seq<char>
    decreases s.len(),
{
    if s.len() == 0 {
        Seq::empty()
    } else {
        esc_char(s[0]) + esc_str(s.skip(1))
    }
}

/// The encoded form of a JSON string: the escaped characters in quotes.
pub open spec fn enc_string(s: Seq<char>) -> Seq<char> {
    seq!['"'] + esc_str(s) + seq!['"']
}

/// Escaping distributes over appending one character.
pub proof fn lemma_esc_str_snoc(s: Seq<char>, c: char)
    ensures
        esc_str(s.push(c)) == esc_str(s) + esc_char(c),
    decreases s.len(),
{
    if s.len() == 0 {
        assert(s.push(c).skip(1) =~= Seq::<char>::empty());
        assert(s.push(c)[0] == c);
        assert(esc_str(Seq::<char>::empty()) == Seq::<char>::empty());
        assert(esc_str(s.push(c)) =~= esc_char(c));
        assert(esc_str(s) + esc_char(c) =~= esc_char(c));
    } else {
        assert(s.push(c).skip(1) =~= s.skip(1).push(c));
        lemma_esc_str_snoc(s.skip(1), c);
        assert(esc_str(s.push(c)) =~= esc_str(s) + esc_char(c));
    }
}

/// Appends the encoded form of `s` (quotes included) to `out`.
pub fn push_enc_string(out: &mut Vec<char>, s: &str)
    ensures
        final(out)@ == old(out)@ + enc_string(s@),
{
    out.push('"');
    let cs = crate::text::chars_of(s);
    let mut k: usize = 0;
    proof {
        assert(s@.subrange(0, 0) =~= Seq::<char>::empty());
    }
    while k < cs.len()
        invariant
            k <= cs.len(),
            cs@ == s@,
            out@ == old(out)@ + seq!['"'] + esc_str(s@.subrange(0, k as int)),
        decreases cs.len() - k,
    {
        let c = cs[k];
        if c == '"' {
            out.push('\\');
            out.push('"');
        } else if c == '\\' {
            out.push('\\');
            out.push('\\');
        } else if (c as u32) < 0x20 {
            out.push('\\');
            out.push('u');
            out.push('0');
            out.push('0');
            out.push(hex_digit_char((c as u32) / 16));
            out.push(hex_digit_char((c as u32) % 16));
        } else {
            out.push(c);
        }
        proof {
            lemma_esc_str_snoc(s@.subrange(0, k as int), c);
            assert(s@.subrange(0, k as int).push(c) =~= s@.subrange(0, k + 1 as int));
            assert(out@ =~= old(out)@ + seq!['"'] + esc_str(s@.subrange(0, k + 1 as int)));
        }
        k = k + 1;
    }
    out.push('"');
    proof {
        assert(s@.subrange(0, s@.len() as int) =~= s@);
        assert(out@ =~= old(out)@ + enc_string(s@));
    }
}

/// Parsing an encoded string body recovers the source characters and
/// consumes exactly through the closing quote.
#[verifier::rlimit(100)]
#[verifier::spinoff_prover]
pub proof fn lemma_str_body_rt(v: Seq<char>, acc: Seq<char>, rest: Seq<char>)
    ensures
        sp_str_body(esc_str(v) + seq!['"'] + rest, acc) == Ok::<_, DecodeErrorV>((acc + v, rest)),
    decreases v.len(),
{
    broadcast use vstd::utf8::char_u32_cast;

    if v.len() == 0 {
        let s = esc_str(v) + seq!['"'] + rest;
        assert(s[0] == '"');
        assert(s.skip(1) =~= rest);
        assert(acc + v =~= acc);
    } else {
        let c = v[0];
        let s = esc_str(v) + seq!['"'] + rest;
        let s2 = esc_str(v.skip(1)) + seq!['"'] + rest;
        assert(esc_str(v) == esc_char(c) + esc_str(v.skip(1)));
        lemma_str_body_rt(v.skip(1), acc.push(c), rest);
        assert(acc.push(c) + v.skip(1) =~= acc + v);
        if c == '"' {
            assert(s[0] == '\\');
            assert(s[1] == '"');
            assert(s.skip(2) =~= s2);
        } else if c == '\\' {
            assert(s[0] == '\\');
            assert(s[1] == '\\');
            assert(s.skip(2) =~= s2);
        } else if (c as u32) < 0x20 {
            let u = c as u32;
            assert(s[0] == '\\');
            assert(s[1] == 'u');
            assert(s[2] == '0');
            assert(s[3] == '0');
            assert(s[4] == hex_char(u / 16));
            assert(s[5] == hex_char(u % 16));
            assert(s.skip(2)[0] == '0');
            assert(s.skip(2)[1] == '0');
            assert(s.skip(2)[2] == hex_char(u / 16));
            assert(s.skip(2)[3] == hex_char(u % 16));
            lemma_hex_char_val(u / 16);
            lemma_hex_char_val(u % 16);
            assert(hex_val('0') == Some(0u32));
            assert(s.skip(2).len() >= 4);
            assert(sp_hex4(s.skip(2)) == Some(((u / 16) * 16 + u % 16) as u32));
            assert((u / 16) * 16 + u % 16 == u) by (nonlinear_arith);
            assert(sp_hex4(s.skip(2)) == Some(u));
            vstd::utf8::char_u32_cast(c, u);
            assert((u as char) == c);
            assert(s.skip(6) =~= s2);
        } else {
            assert(s[0] == c);
            assert(c != '"' && c != '\\');
            assert(!((s[0] as u32) < 0x20));
            assert(s.skip(1) =~= s2);
        }
    }
}

/// Parsing an encoded string recovers the source characters exactly.
pub proof fn lemma_string_rt(v: Seq<char>, rest: Seq<char>)
    ensures
        sp_string(enc_string(v) + rest) == Ok::<_, DecodeErrorV>((v, rest)),
{
    let s = enc_string(v) + rest;
    assert(s[0] == '"');
    assert(s.skip(1) =~= esc_str(v) + seq!['"'] + rest);
    lemma_str_body_rt(v, Seq::empty(), rest);
    assert(Seq::<char>::empty() + v =~= v);
}

} // verus!
