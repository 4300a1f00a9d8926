//! Formatting-code stripping for display text: drops the classic IRC
//! bold/reset/reverse/italic/underline control bytes and colour escapes.

use vstd::prelude::*;
use vstd::string::*;
use crate::strutil::push_char;

verus! {

/// Whether `b` is an ASCII digit byte.
pub open spec fn is_digit_byte(b: u8) -> bool {
    48 <= b <= 57
}

/// Skip up to two digit bytes.
pub open spec fn skip_digits2(s: Seq<u8>) -> Seq<u8> {
    if s.len() > 0 && is_digit_byte(s[0]) {
        if s.len() > 1 && is_digit_byte(s[1]) {
            s.skip(2)
        } else {
            s.skip(1)
        }
    } else {
        s
    }
}

/// Skip a colour code after the colour byte: up to two foreground digits,
/// then optionally a comma and up to two background digits.
pub open spec fn skip_color_args(s: Seq<u8>) -> Seq<u8> {
    let t = skip_digits2(s);
    if t.len() > 0 && t[0] == 44 {
        skip_digits2(t.drop_first())
    } else {
        t
    }
}

/// Skipping digits never grows the text.
proof fn lemma_skip_digits2_len(s: Seq<u8>)
    ensures
        skip_digits2(s).len() <= s.len(),
        skip_digits2(s).len() > 0 ==> s.len() > 0,
{
}

/// Skipping a colour code never grows the text.
proof fn lemma_skip_color_args_len(s: Seq<u8>)
    ensures
        skip_color_args(s).len() <= s.len(),
{
    lemma_skip_digits2_len(s);
    let t = skip_digits2(s);
    if t.len() > 0 && t[0] == 44 {
        lemma_skip_digits2_len(t.drop_first());
    }
}

/// The display text of `s`: formatting control bytes removed, colour
/// escapes removed together with their digit arguments, every other byte
/// kept as one character.
pub open spec fn strip_colors_spec(s: Seq<u8>) -> Seq<char>
    decreases s.len(),
    via strip_colors_spec_dec
{
    if s.len() == 0 {
        seq![]
    } else {
        let b = s[0];
        if b == 2 || b == 15 || b == 22 || b == 29 || b == 31 {
            strip_colors_spec(s.drop_first())
        } else if b == 3 {
            strip_colors_spec(skip_color_args(s.drop_first()))
        } else {
            seq![b as char] + strip_colors_spec(s.drop_first())
        }
    }
}

#[via_fn]
proof fn strip_colors_spec_dec(s: Seq<u8>) {
    if s.len() > 0 {
        lemma_skip_color_args_len(s.drop_first());
    }
}

/// Skip up to two digit bytes starting at `i`.
fn skip_digits2_at(bytes: &Vec<u8>, i: usize) -> (r: usize)
    requires
        i <= bytes.len(),
    ensures
        i <= r <= bytes.len(),
        bytes@.skip(r as int) == skip_digits2(bytes@.skip(i as int)),
{
    let n = bytes.len();
    let ghost s = bytes@.skip(i as int);
    if i < n && bytes[i] >= 48 && bytes[i] <= 57 {
        if i + 1 < n && bytes[i + 1] >= 48 && bytes[i + 1] <= 57 {
            proof {
                assert(s[0] == bytes@[i as int]);
                assert(s[1] == bytes@[i as int + 1]);
                assert(s.skip(2) =~= bytes@.skip(i as int + 2));
            }
            i + 2
        } else {
            proof {
                assert(s[0] == bytes@[i as int]);
                assert(s.len() > 1 ==> s[1] == bytes@[i as int + 1]);
                assert(s.skip(1) =~= bytes@.skip(i as int + 1));
            }
            i + 1
        }
    } else {
        proof {
            assert(s.len() > 0 ==> s[0] == bytes@[i as int]);
        }
        i
    }
}

/// Skip a whole colour code starting at `i`.
fn skip_color_args_at(bytes: &Vec<u8>, i: usize) -> (r: usize)
    requires
        i <= bytes.len(),
    ensures
        i <= r <= bytes.len(),
        bytes@.skip(r as int) == skip_color_args(bytes@.skip(i as int)),
{
    let n = bytes.len();
    let j = skip_digits2_at(bytes, i);
    let ghost t = skip_digits2(bytes@.skip(i as int));
    if j < n && bytes[j] == 44 {
        proof {
            assert(t[0] == bytes@[j as int]);
            assert(t.drop_first() =~= bytes@.skip(j as int + 1));
        }
        skip_digits2_at(bytes, j + 1)
    } else {
        proof {
            assert(t.len() > 0 ==> t[0] == bytes@[j as int]);
        }
        j
    }
}

/// Strip formatting and colour codes from `s`, byte by byte, exactly as
/// `strip_colors_spec` describes.
pub fn strip_colors(s: &str) -> (r: String)
    ensures
        r@ == strip_colors_spec(s.spec_bytes()),
{
    let bytes = s.as_bytes_vec();
    let n = bytes.len();
    let mut out = String::new();
    let mut i: usize = 0;
    proof {
        assert(bytes@.skip(0) =~= bytes@);
        assert(out@ + strip_colors_spec(bytes@) =~= strip_colors_spec(bytes@));
    }
    while i < n
        invariant
            n == bytes.len(),
            i <= n,
            strip_colors_spec(bytes@) == out@ + strip_colors_spec(bytes@.skip(i as int)),
        decreases n - i,
    {
        let b = bytes[i];
        let ghost rest = bytes@.skip(i as int);
        proof {
            assert(rest[0] == b);
            assert(rest.drop_first() =~= bytes@.skip(i as int + 1));
        }
        if b == 2 || b == 15 || b == 22 || b == 29 || b == 31 {
            i += 1;
        } else if b == 3 {
            let j = skip_color_args_at(&bytes, i + 1);
            proof {
                lemma_skip_color_args_len(rest.drop_first());
                assert(strip_colors_spec(rest) == strip_colors_spec(
                    skip_color_args(bytes@.skip(i as int + 1)),
                ));
            }
            i = j;
        } else {
            push_char(&mut out, b as char);
            proof {
                assert(strip_colors_spec(rest) == seq![b as char] + strip_colors_spec(
                    rest.drop_first(),
                ));
                assert(out@ + strip_colors_spec(bytes@.skip(i as int + 1)) =~= strip_colors_spec(
                    bytes@,
                ));
            }
            i += 1;
        }
    }
    proof {
        assert(bytes@.skip(n as int) =~= Seq::<u8>::empty());
        assert(strip_colors_spec(Seq::<u8>::empty()) =~= Seq::<char>::empty());
        assert(out@ =~= strip_colors_spec(bytes@));
    }
    out
}

} // verus!
