use vstd::prelude::*;

use crate::errors::FuzzError;

verus! {

/// The printable-escaping codec for crash-log lines.
///
/// Printable ASCII passes through unchanged; tab, line feed, carriage return,
/// backslash and both quote characters get a two-byte backslash escape; every
/// other byte is rendered as `\xHH` with two lowercase hex digits. The
/// encoding is reversible: see `lemma_escape_round_trip`.

/// The lowercase hex digit for a value below 16.
pub open spec fn hex_digit(v: int) -> u8
    recommends
        0 <= v < 16,
{
    if v < 10 {
        (48 + v) as u8
    } else {
        (87 + v) as u8
    }
}

/// The value of a hex digit byte, or -1 if the byte is no hex digit.
/// Both letter cases are accepted when decoding.
pub open spec fn hex_value(c: u8) -> int {
    if 48 <= c <= 57 {
        c - 48
    } else if 97 <= c <= 102 {
        c - 87
    } else if 65 <= c <= 70 {
        c - 55
    } else {
        -1
    }
}

/// The escape-code byte for the six bytes with a short `\c` escape,
/// or -1 if the byte has none.
pub open spec fn short_escape_code(b: u8) -> int {
    if b == 9 {
        116
    } else if b == 10 {
        110
    } else if b == 13 {
        114
    } else if b == 92 {
        92
    } else if b == 39 {
        39
    } else if b == 34 {
        34
    } else {
        -1
    }
}

/// The byte encoded by a short escape code, or -1 if the code is none.
pub open spec fn short_code_byte(c: u8) -> int {
    if c == 116 {
        9
    } else if c == 110 {
        10
    } else if c == 114 {
        13
    } else if c == 92 {
        92
    } else if c == 39 {
        39
    } else if c == 34 {
        34
    } else {
        -1
    }
}

/// The encoding of one byte.
pub open spec fn escape_byte(b: u8) -> Seq<u8> {
    if short_escape_code(b) >= 0 {
        seq![92u8, short_escape_code(b) as u8]
    } else if 32 <= b <= 126 {
        seq![b]
    } else {
        seq![92u8, 120u8, hex_digit(b as int / 16), hex_digit(b as int % 16)]
    }
}

/// The encoding of a byte sequence: each byte's encoding, concatenated.
pub open spec fn escape_seq(s: Seq<u8>) -> Seq<u8>
    decreases s.len(),
{
    if s.len() == 0 {
        Seq::empty()
    } else {
        escape_byte(s[0]) + escape_seq(s.drop_first())
    }
}

/// The decoding of an encoded line: `None` when the line is not a
/// well-formed encoding. A bare byte must be printable ASCII; a backslash
/// must start a short escape or a two-digit hex escape.
pub open spec fn unescape_seq(s: Seq<u8>) -> Option<Seq<u8>>
    decreases s.len(),
{
    if s.len() == 0 {
        Some(Seq::empty())
    } else if s[0] == 92 {
        if s.len() >= 2 && short_code_byte(s[1]) >= 0 {
            match unescape_seq(s.skip(2)) {
                Some(t) => Some(seq![short_code_byte(s[1]) as u8] + t),
                None => None,
            }
        } else if s.len() >= 4 && s[1] == 120 && hex_value(s[2]) >= 0 && hex_value(s[3]) >= 0 {
            match unescape_seq(s.skip(4)) {
                Some(t) => Some(seq![(16 * hex_value(s[2]) + hex_value(s[3])) as u8] + t),
                None => None,
            }
        } else {
            None
        }
    } else if 32 <= s[0] <= 126 {
        match unescape_seq(s.skip(1)) {
            Some(t) => Some(seq![s[0]] + t),
            None => None,
        }
    } else {
        None
    }
}

/// Whether a log line decodes at all.
pub open spec fn decodable(line: Seq<u8>) -> bool {
    unescape_seq(line) is Some
}

/// Prepend an already-decoded prefix to the decoding of the rest of a line.
pub open spec fn opt_extend(prefix: Seq<u8>, rest: Option<Seq<u8>>) -> Option<Seq<u8>> {
    match rest {
        Some(t) => Some(prefix + t),
        None => None,
    }
}

proof fn lemma_opt_extend_empty(rest: Option<Seq<u8>>)
    ensures
        opt_extend(Seq::empty(), rest) == rest,
{
    match rest {
        Some(t) => {
            assert(Seq::<u8>::empty() + t =~= t);
        },
        None => {},
    }
}

proof fn lemma_opt_extend_push(prefix: Seq<u8>, b: u8, rest: Option<Seq<u8>>)
    ensures
        opt_extend(prefix, opt_extend(seq![b], rest)) == opt_extend(prefix.push(b), rest),
{
    match rest {
        Some(t) => {
            assert(prefix + (seq![b] + t) =~= prefix.push(b) + t);
        },
        None => {},
    }
}

proof fn lemma_opt_extend_whole(prefix: Seq<u8>)
    ensures
        opt_extend(prefix, Some(Seq::empty())) == Some(prefix),
{
    assert(prefix + Seq::<u8>::empty() =~= prefix);
}

/// Concatenation distributes over the encoding.
proof fn lemma_escape_seq_app(a: Seq<u8>, b: Seq<u8>)
    ensures
        escape_seq(a + b) == escape_seq(a) + escape_seq(b),
    decreases a.len(),
{
    if a.len() == 0 {
        assert(a + b =~= b);
        assert(escape_seq(a) + escape_seq(b) =~= escape_seq(b));
    } else {
        assert((a + b).drop_first() =~= a.drop_first() + b);
        lemma_escape_seq_app(a.drop_first(), b);
        assert(escape_byte(a[0]) + (escape_seq(a.drop_first()) + escape_seq(b)) =~= (escape_byte(
            a[0],
        ) + escape_seq(a.drop_first())) + escape_seq(b));
    }
}

/// Extending the encoded prefix by one byte appends that byte's encoding.
proof fn lemma_escape_seq_snoc(s: Seq<u8>, i: int)
    requires
        0 <= i < s.len(),
    ensures
        escape_seq(s.take(i + 1)) == escape_seq(s.take(i)) + escape_byte(s[i]),
{
    assert(s.take(i + 1) =~= s.take(i) + seq![s[i]]);
    lemma_escape_seq_app(s.take(i), seq![s[i]]);
    let single = seq![s[i]];
    assert(single[0] == s[i]);
    assert(single.drop_first() =~= Seq::<u8>::empty());
    assert(escape_seq(single) == escape_byte(s[i]) + escape_seq(Seq::<u8>::empty()));
    assert(escape_byte(s[i]) + Seq::<u8>::empty() =~= escape_byte(s[i]));
}

/// Round-trip law: decoding the encoding of any byte sequence gives back
/// exactly that sequence. In particular every line the crash log writes
/// decodes to the command it was written for.
pub proof fn lemma_escape_round_trip(s: Seq<u8>)
    ensures
        unescape_seq(escape_seq(s)) == Some(s),
    decreases s.len(),
{
    if s.len() == 0 {
        assert(s =~= Seq::<u8>::empty());
    } else {
        let b = s[0];
        let e = escape_byte(b);
        let rest = escape_seq(s.drop_first());
        lemma_escape_round_trip(s.drop_first());
        if short_escape_code(b) >= 0 {
            assert((e + rest).skip(2) =~= rest);
            assert(seq![b] + s.drop_first() =~= s);
        } else if 32 <= b <= 126 {
            assert((e + rest).skip(1) =~= rest);
            assert(seq![b] + s.drop_first() =~= s);
        } else {
            let q = b as int / 16;
            let r = b as int % 16;
            assert(0 <= r < 16 && 0 <= q < 16 && b == 16 * q + r) by {
                vstd::arithmetic::div_mod::lemma_fundamental_div_mod(b as int, 16);
            }
            assert(hex_value(hex_digit(q)) == q);
            assert(hex_value(hex_digit(r)) == r);
            assert((e + rest).skip(4) =~= rest);
            assert(seq![b] + s.drop_first() =~= s);
        }
    }
}

/// The lowercase hex digit of a value below 16.
fn hex_digit_byte(v: u8) -> (r: u8)
    requires
        v < 16,
    ensures
        r == hex_digit(v as int),
{
    if v < 10 {
        48 + v
    } else {
        87 + v
    }
}

/// The value of a hex digit byte, if it is one.
fn hex_value_byte(c: u8) -> (r: Option<u8>)
    ensures
        match r {
            Some(v) => v < 16 && hex_value(c) == v,
            None => hex_value(c) < 0,
        },
{
    if 48 <= c && c <= 57 {
        Some(c - 48)
    } else if 97 <= c && c <= 102 {
        Some(c - 87)
    } else if 65 <= c && c <= 70 {
        Some(c - 55)
    } else {
        None
    }
}

/// Encode a command's bytes as one printable crash-log line.
pub fn escape(data: &Vec<u8>) -> (r: Vec<u8>)
    ensures
        r@ == escape_seq(data@),
{
    let mut out: Vec<u8> = Vec::new();
    let mut i: usize = 0;
    while i < data.len()
        invariant
            i <= data@.len(),
            out@ == escape_seq(data@.take(i as int)),
        decreases data@.len() - i,
    {
        let b = data[i];
        if b == 9 {
            out.push(92);
            out.push(116);
        } else if b == 10 {
            out.push(92);
            out.push(110);
        } else if b == 13 {
            out.push(92);
            out.push(114);
        } else if b == 92 {
            out.push(92);
            out.push(92);
        } else if b == 39 {
            out.push(92);
            out.push(39);
        } else if b == 34 {
            out.push(92);
            out.push(34);
        } else if 32 <= b && b <= 126 {
            out.push(b);
        } else {
            out.push(92);
            out.push(120);
            out.push(hex_digit_byte(b / 16));
            out.push(hex_digit_byte(b % 16));
        }
        proof {
            lemma_escape_seq_snoc(data@, i as int);
            assert(out@ =~= escape_seq(data@.take(i as int + 1)));
        }
        i += 1;
    }
    proof {
        assert(data@.take(data@.len() as int) =~= data@);
    }
    out
}

/// Decode one crash-log line back into command bytes. A line that is not a
/// well-formed encoding — a bare non-printable byte, a truncated or unknown
/// escape, a bad hex digit — yields `DecodeError` and can be skipped.
pub fn unescape(line: &Vec<u8>) -> (r: Result<Vec<u8>, FuzzError>)
    ensures
        match r {
            Ok(decoded) => unescape_seq(line@) == Some(decoded@),
            Err(e) => e == FuzzError::DecodeError && unescape_seq(line@) is None,
        },
{
    let n = line.len();
    let mut out: Vec<u8> = Vec::new();
    let mut i: usize = 0;
    proof {
        assert(line@.skip(0) =~= line@);
        lemma_opt_extend_empty(unescape_seq(line@));
    }
    while i < n
        invariant
            i <= n,
            n == line@.len(),
            unescape_seq(line@) == opt_extend(out@, unescape_seq(line@.skip(i as int))),
        decreases n - i,
    {
        let ghost pre = out@;
        let ghost tail = line@.skip(i as int);
        let b = line[i];
        if b == 92 {
            if i + 1 >= n {
                proof {
                    assert(tail[0] == 92 && tail.len() == 1);
                    assert(unescape_seq(tail) is None);
                }
                return Err(FuzzError::DecodeError);
            }
            let c = line[i + 1];
            let short = if c == 116 {
                Some(9u8)
            } else if c == 110 {
                Some(10u8)
            } else if c == 114 {
                Some(13u8)
            } else if c == 92 {
                Some(92u8)
            } else if c == 39 {
                Some(39u8)
            } else if c == 34 {
                Some(34u8)
            } else {
                None
            };
            match short {
                Some(decoded) => {
                    out.push(decoded);
                    proof {
                        assert(tail[0] == 92 && tail[1] == c && tail.len() >= 2);
                        assert(short_code_byte(c) == decoded as int);
                        assert(tail.skip(2) =~= line@.skip(i as int + 2));
                        assert(unescape_seq(tail) == opt_extend(
                            seq![decoded],
                            unescape_seq(line@.skip(i as int + 2)),
                        ));
                        lemma_opt_extend_push(
                            pre,
                            decoded,
                            unescape_seq(line@.skip(i as int + 2)),
                        );
                    }
                    i += 2;
                }
                None => {
                    if c != 120 {
                        proof {
                            assert(tail[0] == 92 && tail[1] == c);
                            assert(short_code_byte(c) < 0 && c != 120);
                            assert(unescape_seq(tail) is None);
                        }
                        return Err(FuzzError::DecodeError);
                    }
                    if n - i < 4 {
                        proof {
                            assert(tail[0] == 92 && tail[1] == 120 && tail.len() < 4);
                            assert(short_code_byte(120u8) < 0);
                            assert(unescape_seq(tail) is None);
                        }
                        return Err(FuzzError::DecodeError);
                    }
                    let h1 = hex_value_byte(line[i + 2]);
                    let h2 = hex_value_byte(line[i + 3]);
                    match (h1, h2) {
                        (Some(v1), Some(v2)) => {
                            let decoded = 16 * v1 + v2;
                            out.push(decoded);
                            proof {
                                assert(tail[0] == 92 && tail[1] == 120 && tail[2] == line@[i
                                    as int + 2] && tail[3] == line@[i as int + 3] && tail.len()
                                    >= 4);
                                assert(short_code_byte(120u8) < 0);
                                assert(decoded as int == 16 * hex_value(tail[2]) + hex_value(
                                    tail[3],
                                ));
                                assert(tail.skip(4) =~= line@.skip(i as int + 4));
                                assert(unescape_seq(tail) == opt_extend(
                                    seq![decoded],
                                    unescape_seq(line@.skip(i as int + 4)),
                                ));
                                lemma_opt_extend_push(
                                    pre,
                                    decoded,
                                    unescape_seq(line@.skip(i as int + 4)),
                                );
                            }
                            i += 4;
                        }
                        _ => {
                            proof {
                                assert(tail[0] == 92 && tail[1] == 120);
                                assert(short_code_byte(120u8) < 0);
                                assert(hex_value(tail[2]) < 0 || hex_value(tail[3]) < 0);
                                assert(unescape_seq(tail) is None);
                            }
                            return Err(FuzzError::DecodeError);
                        }
                    }
                }
            }
        } else if 32 <= b && b <= 126 {
            out.push(b);
            proof {
                assert(tail[0] == b && b != 92);
                assert(tail.skip(1) =~= line@.skip(i as int + 1));
                assert(unescape_seq(tail) == opt_extend(
                    seq![b],
                    unescape_seq(line@.skip(i as int + 1)),
                ));
                lemma_opt_extend_push(pre, b, unescape_seq(line@.skip(i as int + 1)));
            }
            i += 1;
        } else {
            proof {
                assert(tail[0] == b);
                assert(unescape_seq(tail) is None);
            }
            return Err(FuzzError::DecodeError);
        }
    }
    proof {
        assert(line@.skip(n as int) =~= Seq::<u8>::empty());
        lemma_opt_extend_whole(out@);
    }
    Ok(out)
}

} // verus!
