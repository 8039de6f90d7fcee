//! Byte-level framing of the persisted artifact format.
//!
//! An artifact is a sequence of lines, each a sequence of fields: every
//! field is followed by a comma and every line ends with a newline. Field
//! content is kept free of the two separators by escaping: backslash,
//! comma, newline and carriage return become `\\`, `\c`, `\n` and `\r`.
//! Numbers travel as fixed-width hexadecimal, so the format is exact: no
//! value is rounded or reformatted on a round trip.

use vstd::prelude::*;

verus! {

pub const SEP_FIELD: u8 = 44;  // b','
pub const SEP_LINE: u8 = 10;  // b'\n'
pub const ESCAPE: u8 = 92;  // b'\\'
pub const CR: u8 = 13;  // b'\r'

// ---------------------------------------------------------------------------
// Escaping
// ---------------------------------------------------------------------------
/// The escaped form of one byte.
pub open spec fn esc_one(b: u8) -> Seq<u8> {
    if b == 92 {
        seq![92u8, 92u8]
    } else if b == 44 {
        seq![92u8, 99u8]  // \c
    } else if b == 10 {
        seq![92u8, 110u8]  // \n
    } else if b == 13 {
        seq![92u8, 114u8]  // \r
    } else {
        seq![b]
    }
}

/// The escaped form of a byte sequence.
pub open spec fn escape_bytes(s: Seq<u8>) -> Seq<u8>
    decreases s.len(),
{
    if s.len() == 0 {
        Seq::empty()
    } else {
        esc_one(s[0]) + escape_bytes(s.skip(1))
    }
}

/// The original of an escaped byte sequence, when it is well formed.
pub open spec fn unescape_bytes(s: Seq<u8>) -> Option<Seq<u8>>
    decreases s.len(),
{
    if s.len() == 0 {
        Some(Seq::empty())
    } else if s[0] == 92 {
        if s.len() == 1 {
            None
        } else {
            let orig: Option<u8> = if s[1] == 92 {
                Some(92u8)
            } else if s[1] == 99 {
                Some(44u8)
            } else if s[1] == 110 {
                Some(10u8)
            } else if s[1] == 114 {
                Some(13u8)
            } else {
                None
            };
            match (orig, unescape_bytes(s.skip(2))) {
                (Some(b), Some(rest)) => Some(seq![b] + rest),
                _ => None,
            }
        }
    } else {
        match unescape_bytes(s.skip(1)) {
            Some(rest) => Some(seq![s[0]] + rest),
            None => None,
        }
    }
}

/// A sequence is separator-free: no raw comma or newline occurs in it.
pub open spec fn sep_free(s: Seq<u8>) -> bool {
    forall|i: int| 0 <= i < s.len() ==> s[i] != 44 && s[i] != 10
}

/// Escaping hides both separators.
pub proof fn lemma_escape_sep_free(s: Seq<u8>)
    ensures
        sep_free(escape_bytes(s)),
    decreases s.len(),
{
    if s.len() > 0 {
        lemma_escape_sep_free(s.skip(1));
        assert forall|i: int| 0 <= i < escape_bytes(s).len() implies escape_bytes(s)[i] != 44
            && escape_bytes(s)[i] != 10 by {
            let head = esc_one(s[0]);
            if i >= head.len() {
                assert(escape_bytes(s)[i] == escape_bytes(s.skip(1))[i - head.len()]);
            }
        }
    }
}

/// Unescaping inverts escaping.
pub proof fn lemma_unescape_escape(s: Seq<u8>)
    ensures
        unescape_bytes(escape_bytes(s)) == Some(s),
    decreases s.len(),
{
    if s.len() == 0 {
        assert(escape_bytes(s) =~= Seq::<u8>::empty());
    } else {
        lemma_unescape_escape(s.skip(1));
        let head = esc_one(s[0]);
        let enc = escape_bytes(s);
        assert(enc == head + escape_bytes(s.skip(1)));
        if head.len() == 2 {
            assert(enc.skip(2) =~= escape_bytes(s.skip(1)));
            assert(unescape_bytes(enc) == Some(seq![s[0]] + s.skip(1)));
        } else {
            assert(enc.skip(1) =~= escape_bytes(s.skip(1)));
            assert(s[0] != 92 && s[0] != 44 && s[0] != 10 && s[0] != 13);
            assert(unescape_bytes(enc) == Some(seq![s[0]] + s.skip(1)));
        }
        assert(seq![s[0]] + s.skip(1) =~= s);
    }
}

/// Escaping distributes over concatenation.
pub proof fn lemma_escape_append(a: Seq<u8>, b: Seq<u8>)
    ensures
        escape_bytes(a + b) == escape_bytes(a) + escape_bytes(b),
    decreases a.len(),
{
    if a.len() == 0 {
        assert(a + b =~= b);
        assert(escape_bytes(a) =~= Seq::<u8>::empty());
        assert(escape_bytes(a) + escape_bytes(b) =~= escape_bytes(b));
    } else {
        lemma_escape_append(a.skip(1), b);
        assert((a + b).skip(1) =~= a.skip(1) + b);
        assert((a + b)[0] == a[0]);
        assert(escape_bytes(a + b) =~= escape_bytes(a) + escape_bytes(b));
    }
}

/// Escapes a byte sequence.
pub fn escape(s: &Vec<u8>) -> (out: Vec<u8>)
    ensures
        out@ == escape_bytes(s@),
{
    let mut out: Vec<u8> = Vec::new();
    let n = s.len();
    for i in 0..n
        invariant
            n == s@.len(),
            out@ == escape_bytes(s@.take(i as int)),
    {
        let b = s[i];
        if b == ESCAPE {
            out.push(ESCAPE);
            out.push(ESCAPE);
        } else if b == SEP_FIELD {
            out.push(ESCAPE);
            out.push(99);
        } else if b == SEP_LINE {
            out.push(ESCAPE);
            out.push(110);
        } else if b == CR {
            out.push(ESCAPE);
            out.push(114);
        } else {
            out.push(b);
        }
        proof {
            assert(s@.take(i + 1) =~= s@.take(i as int) + seq![s@[i as int]]);
            lemma_escape_append(s@.take(i as int), seq![s@[i as int]]);
            assert(seq![s@[i as int]].skip(1) =~= Seq::<u8>::empty());
            assert(escape_bytes(Seq::<u8>::empty()) == Seq::<u8>::empty());
            assert(esc_one(s@[i as int]) + Seq::<u8>::empty() =~= esc_one(s@[i as int]));
            assert(escape_bytes(seq![s@[i as int]]) =~= esc_one(s@[i as int]));
            assert(out@ =~= escape_bytes(s@.take(i + 1)));
        }
    }
    proof {
        assert(s@.take(n as int) =~= s@);
    }
    out
}

/// Unescapes a byte sequence, failing exactly where the spec does.
pub fn unescape(s: &Vec<u8>) -> (out: Option<Vec<u8>>)
    ensures
        match out {
            Some(v) => unescape_bytes(s@) == Some(v@),
            None => unescape_bytes(s@) is None,
        },
{
    let mut out: Vec<u8> = Vec::new();
    let mut pos: usize = 0;
    let n = s.len();
    proof {
        assert(s@.skip(0) =~= s@);
        match unescape_bytes(s@) {
            Some(rest) => {
                assert(out@ + rest =~= rest);
            },
            None => {},
        }
    }
    while pos < n
        invariant
            n == s@.len(),
            pos <= n,
            unescape_bytes(s@) == match unescape_bytes(s@.skip(pos as int)) {
                Some(rest) => Some(out@ + rest),
                None => None::<Seq<u8>>,
            },
        decreases n - pos,
    {
        let b = s[pos];
        if b == ESCAPE {
            if pos + 1 == n {
                proof {
                    assert(unescape_bytes(s@.skip(pos as int)) is None);
                }
                return None;
            }
            let c = s[pos + 1];
            let orig: u8 = if c == ESCAPE {
                ESCAPE
            } else if c == 99 {
                SEP_FIELD
            } else if c == 110 {
                SEP_LINE
            } else if c == 114 {
                CR
            } else {
                proof {
                    assert(unescape_bytes(s@.skip(pos as int)) is None);
                }
                return None;
            };
            proof {
                assert(s@.skip(pos as int).skip(2) =~= s@.skip(pos + 2));
            }
            out.push(orig);
            proof {
                match unescape_bytes(s@.skip(pos + 2)) {
                    Some(rest) => {
                        assert((out@.drop_last() + (seq![orig] + rest)) =~= out@ + rest);
                    },
                    None => {},
                }
                assert(unescape_bytes(s@) == match unescape_bytes(s@.skip(pos + 2)) {
                    Some(rest) => Some(out@ + rest),
                    None => None::<Seq<u8>>,
                });
            }
            pos = pos + 2;
        } else {
            proof {
                assert(s@.skip(pos as int).skip(1) =~= s@.skip(pos + 1));
            }
            out.push(b);
            proof {
                match unescape_bytes(s@.skip(pos + 1)) {
                    Some(rest) => {
                        assert((out@.drop_last() + (seq![b] + rest)) =~= out@ + rest);
                    },
                    None => {},
                }
                assert(unescape_bytes(s@) == match unescape_bytes(s@.skip(pos + 1)) {
                    Some(rest) => Some(out@ + rest),
                    None => None::<Seq<u8>>,
                });
            }
            pos = pos + 1;
        }
    }
    proof {
        assert(s@.skip(n as int) =~= Seq::<u8>::empty());
        assert(out@ + Seq::<u8>::empty() =~= out@);
    }
    Some(out)
}

// ---------------------------------------------------------------------------
// Fixed-width hexadecimal
// ---------------------------------------------------------------------------
/// The character of one hexadecimal digit.
pub open spec fn nibble_char(d: int) -> u8 {
    if d < 10 {
        (48 + d) as u8
    } else {
        (87 + d) as u8
    }
}

/// The value of one hexadecimal character, if it is one.
pub open spec fn nibble_val(c: u8) -> Option<int> {
    if 48 <= c <= 57 {
        Some((c - 48) as int)
    } else if 97 <= c <= 102 {
        Some((c - 87) as int)
    } else {
        None
    }
}

/// `n` hexadecimal digits of `v`, most significant first.
pub open spec fn hex_digits(v: int, n: nat) -> Seq<u8>
    decreases n,
{
    if n == 0 {
        Seq::empty()
    } else {
        hex_digits(v / 16, (n - 1) as nat).push(nibble_char(v % 16))
    }
}

/// The value of a sequence of hexadecimal characters.
pub open spec fn unhex(s: Seq<u8>) -> Option<int>
    decreases s.len(),
{
    if s.len() == 0 {
        Some(0)
    } else {
        match (unhex(s.drop_last()), nibble_val(s.last())) {
            (Some(v), Some(d)) => Some(v * 16 + d),
            _ => None,
        }
    }
}

/// Sixteen to the `n`.
pub open spec fn pow16(n: nat) -> int
    decreases n,
{
    if n == 0 {
        1
    } else {
        16 * pow16((n - 1) as nat)
    }
}

/// Hex digits decode back to the encoded value.
pub proof fn lemma_unhex_hex(v: int, n: nat)
    requires
        0 <= v < pow16(n),
    ensures
        unhex(hex_digits(v, n)) == Some(v),
    decreases n,
{
    if n > 0 {
        assert(v / 16 < pow16((n - 1) as nat)) by (nonlinear_arith)
            requires
                0 <= v,
                v < 16 * pow16((n - 1) as nat),
        ;
        lemma_unhex_hex(v / 16, (n - 1) as nat);
        let s = hex_digits(v, n);
        assert(s.drop_last() =~= hex_digits(v / 16, (n - 1) as nat));
        assert(nibble_val(nibble_char(v % 16)) == Some(v % 16));
        assert((v / 16) * 16 + v % 16 == v) by (nonlinear_arith)
            requires
                v >= 0,
        ;
    }
}

/// Hex digits are separator-free, and never a tag or escape character.
pub proof fn lemma_hex_digit_chars(v: int, n: nat)
    ensures
        forall|i: int|
            0 <= i < hex_digits(v, n).len() ==> (48 <= #[trigger] hex_digits(v, n)[i] <= 57 || 97
                <= hex_digits(v, n)[i] <= 102),
        hex_digits(v, n).len() == n,
    decreases n,
{
    if n > 0 {
        lemma_hex_digit_chars(v / 16, (n - 1) as nat);
        assert(0 <= v % 16 < 16);
    }
}

/// Appends the `n`-digit hexadecimal form of `v`.
pub fn push_hex(out: &mut Vec<u8>, v: u64, n: u32)
    ensures
        final(out)@ == old(out)@ + hex_digits(v as int, n as nat),
    decreases n,
{
    if n == 0 {
        proof {
            assert(old(out)@ + hex_digits(v as int, 0) =~= old(out)@);
        }
    } else {
        push_hex(out, v / 16, n - 1);
        let d: u64 = v % 16;
        let c: u8 = if d < 10 {
            (48 + d) as u8
        } else {
            (87 + d) as u8
        };
        out.push(c);
        proof {
            assert(out@ =~= old(out)@ + hex_digits(v as int, n as nat));
        }
    }
}

/// Reads `n` hexadecimal characters as a value, failing exactly where the
/// spec does.
pub fn parse_hex(s: &Vec<u8>, from: usize, n: u32) -> (r: Option<u64>)
    requires
        from + n <= s@.len(),
        n <= 16,
    ensures
        match r {
            Some(v) => unhex(s@.subrange(from as int, from + n)) == Some(v as int),
            None => unhex(s@.subrange(from as int, from + n)) is None,
        },
{
    let slen = s.len();
    let mut acc: u64 = 0;
    let mut k: u32 = 0;
    while k < n
        invariant
            from + n <= s@.len(),
            s@.len() == slen,
            n <= 16,
            k <= n,
            acc < pow16(k as nat),
            unhex(s@.subrange(from as int, from + k)) == Some(acc as int),
        decreases n - k,
    {
        proof {
            lemma_pow16_bounds();
            assert(s@.subrange(from as int, from + k + 1).drop_last() =~= s@.subrange(
                from as int,
                from + k,
            ));
            assert(s@.subrange(from as int, from + k + 1).last() == s@[from + k]);
        }
        let c = s[from + (k as usize)];
        let d: u64 = if 48 <= c && c <= 57 {
            (c - 48) as u64
        } else if 97 <= c && c <= 102 {
            (c - 87) as u64
        } else {
            proof {
                assert(unhex(s@.subrange(from as int, from + n)) is None) by {
                    lemma_unhex_prefix_none(s@.subrange(from as int, from + n), k as int);
                }
            }
            return None;
        };
        proof {
            assert(acc * 16 + d < pow16((k + 1) as nat)) by (nonlinear_arith)
                requires
                    acc < pow16(k as nat),
                    d < 16,
                    pow16((k + 1) as nat) == 16 * pow16(k as nat),
            ;
            lemma_pow16_bounds();
            assert(pow16((k + 1) as nat) <= pow16(16)) by {
                lemma_pow16_mono((k + 1) as nat, 16);
            }
        }
        acc = acc * 16 + d;
        k = k + 1;
    }
    proof {
        assert(s@.subrange(from as int, from + n) =~= s@.subrange(from as int, from + k));
    }
    Some(acc)
}

/// `pow16(16)` fits a `u64` bound.
pub proof fn lemma_pow16_bounds()
    ensures
        pow16(16) == 0x1_0000_0000_0000_0000,
{
    reveal_with_fuel(pow16, 17);
    assert(pow16(16) == 0x1_0000_0000_0000_0000);
}

/// `pow16` is monotone.
pub proof fn lemma_pow16_mono(a: nat, b: nat)
    requires
        a <= b,
    ensures
        pow16(a) <= pow16(b),
    decreases b,
{
    if a < b {
        lemma_pow16_mono(a, (b - 1) as nat);
        assert(pow16(b) == 16 * pow16((b - 1) as nat));
        assert(pow16((b - 1) as nat) >= 1) by {
            lemma_pow16_pos((b - 1) as nat);
        }
    }
}

/// `pow16` is positive.
pub proof fn lemma_pow16_pos(n: nat)
    ensures
        pow16(n) >= 1,
    decreases n,
{
    if n > 0 {
        lemma_pow16_pos((n - 1) as nat);
    }
}

/// If any position of `s` is not a hexadecimal character, `s` does not
/// decode.
pub proof fn lemma_unhex_prefix_none(s: Seq<u8>, bad: int)
    requires
        0 <= bad < s.len(),
        nibble_val(s[bad]) is None,
    ensures
        unhex(s) is None,
    decreases s.len(),
{
    if s.len() > 0 {
        if bad == s.len() - 1 {
        } else {
            lemma_unhex_prefix_none(s.drop_last(), bad);
        }
    }
}

// ---------------------------------------------------------------------------
// Splitting on a separator
// ---------------------------------------------------------------------------
/// Splits a byte sequence at every occurrence of `sep`. The result always
/// holds at least one part: content that ends with a separator yields a
/// final empty part.
pub open spec fn split_fold(s: Seq<u8>, sep: u8) -> Seq<Seq<u8>>
    decreases s.len(),
{
    if s.len() == 0 {
        seq![Seq::<u8>::empty()]
    } else {
        let prev = split_fold(s.drop_last(), sep);
        if s.last() == sep {
            prev + seq![Seq::<u8>::empty()]
        } else {
            prev.drop_last() + seq![prev.last().push(s.last())]
        }
    }
}

/// A split always yields at least one part.
pub proof fn lemma_split_len(s: Seq<u8>, sep: u8)
    ensures
        split_fold(s, sep).len() >= 1,
    decreases s.len(),
{
    if s.len() > 0 {
        lemma_split_len(s.drop_last(), sep);
    }
}

/// Appending a separator appends an empty part.
pub proof fn lemma_split_push_sep(a: Seq<u8>, sep: u8)
    ensures
        split_fold(a + seq![sep], sep) == split_fold(a, sep) + seq![Seq::<u8>::empty()],
{
    assert((a + seq![sep]).drop_last() =~= a);
    assert((a + seq![sep]).last() == sep);
}

/// Appending separator-free content extends the final part.
pub proof fn lemma_split_append_free(a: Seq<u8>, b: Seq<u8>, sep: u8)
    requires
        forall|i: int| 0 <= i < b.len() ==> b[i] != sep,
    ensures
        split_fold(a + b, sep) == split_fold(a, sep).drop_last() + seq![
            split_fold(a, sep).last() + b,
        ],
    decreases b.len(),
{
    lemma_split_len(a, sep);
    if b.len() == 0 {
        assert(a + b =~= a);
        assert(split_fold(a, sep).last() + b =~= split_fold(a, sep).last());
        assert(split_fold(a, sep).drop_last() + seq![split_fold(a, sep).last()] =~= split_fold(
            a,
            sep,
        ));
    } else {
        lemma_split_append_free(a, b.drop_last(), sep);
        assert((a + b).drop_last() =~= a + b.drop_last());
        assert((a + b).last() == b.last());
        let prev = split_fold(a + b.drop_last(), sep);
        lemma_split_len(a + b.drop_last(), sep);
        assert(prev.drop_last() =~= split_fold(a, sep).drop_last());
        assert(prev.last() == split_fold(a, sep).last() + b.drop_last());
        assert((split_fold(a, sep).last() + b.drop_last()).push(b.last()) =~= split_fold(a, sep)
            .last() + b);
        assert(split_fold(a + b, sep) =~= split_fold(a, sep).drop_last() + seq![
            split_fold(a, sep).last() + b,
        ]);
    }
}

/// Splits a byte vector at every occurrence of `sep`.
pub fn split_bytes(s: &Vec<u8>, sep: u8) -> (out: Vec<Vec<u8>>)
    ensures
        out.deep_view() == split_fold(s@, sep),
{
    let mut done: Vec<Vec<u8>> = Vec::new();
    let mut cur: Vec<u8> = Vec::new();
    let n = s.len();
    for i in 0..n
        invariant
            n == s@.len(),
            split_fold(s@.take(i as int), sep) == done.deep_view() + seq![cur@],
    {
        proof {
            assert(s@.take(i + 1).drop_last() =~= s@.take(i as int));
            assert(s@.take(i + 1).last() == s@[i as int]);
            lemma_split_len(s@.take(i as int), sep);
            assert((done.deep_view() + seq![cur@]).last() == cur@);
            assert((done.deep_view() + seq![cur@]).drop_last() =~= done.deep_view());
        }
        let b = s[i];
        if b == sep {
            done.push(cur);
            cur = Vec::new();
            proof {
                assert(split_fold(s@.take(i + 1), sep) =~~= done.deep_view() + seq![cur@]);
            }
        } else {
            cur.push(b);
            proof {
                assert(split_fold(s@.take(i + 1), sep) =~~= done.deep_view() + seq![cur@]);
            }
        }
    }
    proof {
        assert(s@.take(n as int) =~= s@);
    }
    done.push(cur);
    proof {
        assert(done.deep_view() =~~= split_fold(s@, sep));
    }
    done
}


} // verus!
