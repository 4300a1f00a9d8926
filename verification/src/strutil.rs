//! Verified helpers for working with strings as sequences of characters:
//! searching, splitting, joining, prefix tests and decimal parsing.

use vstd::prelude::*;
use vstd::string::*;

verus! {

// ---------------------------------------------------------------------------
// Finding a character
// ---------------------------------------------------------------------------

/// Index of the first occurrence of `c` in `s`, or -1 if `c` does not occur.
pub open spec fn find_char_spec(s: Seq<char>, c: char) -> int
    decreases s.len(),
{
    if s.len() == 0 {
        -1
    } else if s[0] == c {
        0
    } else {
        let r = find_char_spec(s.drop_first(), c);
        if r == -1 {
            -1
        } else {
            r + 1
        }
    }
}

/// The result of `find_char_spec` is either -1 with no occurrence at all, or
/// the index of an occurrence that no earlier index matches.
pub proof fn lemma_find_char_spec(s: Seq<char>, c: char)
    ensures
        find_char_spec(s, c) == -1 ==> forall|j: int| 0 <= j < s.len() ==> s[j] != c,
        find_char_spec(s, c) != -1 ==> 0 <= find_char_spec(s, c) < s.len()
            && s[find_char_spec(s, c)] == c
            && forall|j: int| 0 <= j < find_char_spec(s, c) ==> s[j] != c,
    decreases s.len(),
{
    if s.len() != 0 && s[0] != c {
        let t = s.drop_first();
        lemma_find_char_spec(t, c);
        if find_char_spec(t, c) == -1 {
            assert forall|j: int| 0 <= j < s.len() implies s[j] != c by {
                if j >= 1 {
                    assert(t[j - 1] != c);
                }
            }
        } else {
            let i = find_char_spec(t, c);
            assert(s[i + 1] == t[i]);
            assert forall|j: int| 0 <= j < i + 1 implies s[j] != c by {
                if j >= 1 {
                    assert(t[j - 1] != c);
                }
            }
        }
    }
}

/// If `c` first occurs at index `i`, then `find_char_spec` returns `i`.
pub proof fn lemma_find_char_at(s: Seq<char>, c: char, i: int)
    requires
        0 <= i < s.len(),
        s[i] == c,
        forall|j: int| 0 <= j < i ==> s[j] != c,
    ensures
        find_char_spec(s, c) == i,
    decreases s.len(),
{
    if i > 0 {
        lemma_find_char_at(s.drop_first(), c, i - 1);
    }
}

/// First index of `c` in `s`, if any.
pub fn find_char(s: &str, c: char) -> (r: Option<usize>)
    ensures
        match r {
            Some(i) => find_char_spec(s@, c) == i as int,
            None => find_char_spec(s@, c) == -1,
        },
{
    let n = s.unicode_len();
    let mut i: usize = 0;
    while i < n
        invariant
            n == s@.len(),
            i <= n,
            forall|j: int| 0 <= j < i ==> s@[j] != c,
        decreases n - i,
    {
        if s.get_char(i) == c {
            proof {
                lemma_find_char_at(s@, c, i as int);
            }
            return Some(i);
        }
        i += 1;
    }
    proof {
        lemma_find_char_spec(s@, c);
    }
    None
}

/// Whether `c` occurs in `s`.
pub fn contains_char(s: &str, c: char) -> (r: bool)
    ensures
        r == s@.contains(c),
{
    proof {
        lemma_find_char_spec(s@, c);
    }
    match find_char(s, c) {
        Some(i) => {
            proof {
                assert(s@[find_char_spec(s@, c)] == c);
            }
            true
        },
        None => {
            proof {
                assert(forall|j: int| 0 <= j < s@.len() ==> s@[j] != c);
                assert(!s@.contains(c));
            }
            false
        },
    }
}

// ---------------------------------------------------------------------------
// Comparing and prefix testing
// ---------------------------------------------------------------------------

/// Character-for-character equality of two string slices.
pub fn eq_str(a: &str, b: &str) -> (r: bool)
    ensures
        r == (a@ == b@),
{
    let na = a.unicode_len();
    let nb = b.unicode_len();
    if na != nb {
        return false;
    }
    let mut i: usize = 0;
    while i < na
        invariant
            na == a@.len(),
            na == b@.len(),
            i <= na,
            forall|j: int| 0 <= j < i ==> a@[j] == b@[j],
        decreases na - i,
    {
        if a.get_char(i) != b.get_char(i) {
            return false;
        }
        i += 1;
    }
    proof {
        assert(a@ =~= b@);
    }
    true
}

/// Whether `p` is a prefix of `s`.
pub fn starts_with_str(s: &str, p: &str) -> (r: bool)
    ensures
        r == p@.is_prefix_of(s@),
{
    let np = p.unicode_len();
    let ns = s.unicode_len();
    if np > ns {
        return false;
    }
    let mut i: usize = 0;
    while i < np
        invariant
            np == p@.len(),
            ns == s@.len(),
            np <= ns,
            i <= np,
            forall|j: int| 0 <= j < i ==> s@[j] == p@[j],
        decreases np - i,
    {
        if s.get_char(i) != p.get_char(i) {
            return false;
        }
        i += 1;
    }
    proof {
        assert(p@ =~= s@.subrange(0, p@.len() as int));
    }
    true
}

// ---------------------------------------------------------------------------
// Appending
// ---------------------------------------------------------------------------

/// Relies on `String::push`: appends exactly the given character at the end.
#[verifier::external_body]
pub fn push_char(s: &mut String, c: char)
    ensures
        final(s)@ == old(s)@.push(c),
{
    s.push(c)
}

// ---------------------------------------------------------------------------
// Splitting on a separator character
// ---------------------------------------------------------------------------

/// The pieces of `s` between occurrences of `sep`, in order; an empty `s`
/// yields one empty piece, as `str::split` does.
pub open spec fn split_on_spec(s: Seq<char>, sep: char) -> Seq<Seq<char>>
    decreases s.len(),
    via split_on_spec_dec
{
    let i = find_char_spec(s, sep);
    if i == -1 {
        seq![s]
    } else {
        seq![s.take(i)] + split_on_spec(s.skip(i + 1), sep)
    }
}

#[via_fn]
proof fn split_on_spec_dec(s: Seq<char>, sep: char) {
    lemma_find_char_spec(s, sep);
}

/// Split `s` at every occurrence of `sep`.
pub fn split_on(s: &str, sep: char) -> (r: Vec<String>)
    ensures
        r.deep_view() == split_on_spec(s@, sep),
    decreases s@.len(),
{
    let n = s.unicode_len();
    match find_char(s, sep) {
        None => {
            let mut v: Vec<String> = Vec::new();
            v.push(String::from_str(s));
            proof {
                assert(v.deep_view() =~= split_on_spec(s@, sep));
            }
            v
        },
        Some(i) => {
            proof {
                lemma_find_char_spec(s@, sep);
            }
            let head = s.substring_char(0, i);
            let tail = s.substring_char(i + 1, n);
            let mut v = split_on(tail, sep);
            v.insert(0, String::from_str(head));
            proof {
                assert(s@.take(i as int) == s@.subrange(0, i as int));
                assert(s@.skip(i + 1) == s@.subrange(i + 1, s@.len() as int));
                assert(v.deep_view() =~= split_on_spec(s@, sep));
            }
            v
        },
    }
}

// ---------------------------------------------------------------------------
// Splitting on runs of whitespace
// ---------------------------------------------------------------------------

/// The whitespace characters that delimit tokens on an IRC line.
pub open spec fn is_ws(c: char) -> bool {
    c == ' ' || c == '\t' || c == '\r' || c == '\n'
}

/// Index of the first whitespace character in `s`, or -1 if there is none.
pub open spec fn find_ws_spec(s: Seq<char>) -> int
    decreases s.len(),
{
    if s.len() == 0 {
        -1
    } else if is_ws(s[0]) {
        0
    } else {
        let r = find_ws_spec(s.drop_first());
        if r == -1 {
            -1
        } else {
            r + 1
        }
    }
}

proof fn lemma_find_ws_spec(s: Seq<char>)
    ensures
        find_ws_spec(s) == -1 ==> forall|j: int| 0 <= j < s.len() ==> !is_ws(s[j]),
        find_ws_spec(s) != -1 ==> 0 <= find_ws_spec(s) < s.len() && is_ws(s[find_ws_spec(s)])
            && forall|j: int| 0 <= j < find_ws_spec(s) ==> !is_ws(s[j]),
    decreases s.len(),
{
    if s.len() != 0 && !is_ws(s[0]) {
        let t = s.drop_first();
        lemma_find_ws_spec(t);
        if find_ws_spec(t) == -1 {
            assert forall|j: int| 0 <= j < s.len() implies !is_ws(s[j]) by {
                if j >= 1 {
                    assert(!is_ws(t[j - 1]));
                }
            }
        } else {
            let i = find_ws_spec(t);
            assert(s[i + 1] == t[i]);
            assert forall|j: int| 0 <= j < i + 1 implies !is_ws(s[j]) by {
                if j >= 1 {
                    assert(!is_ws(t[j - 1]));
                }
            }
        }
    }
}

proof fn lemma_find_ws_at(s: Seq<char>, i: int)
    requires
        0 <= i < s.len(),
        is_ws(s[i]),
        forall|j: int| 0 <= j < i ==> !is_ws(s[j]),
    ensures
        find_ws_spec(s) == i,
    decreases s.len(),
{
    if i > 0 {
        lemma_find_ws_at(s.drop_first(), i - 1);
    }
}

/// The non-empty maximal runs of non-whitespace characters of `s`, in order.
pub open spec fn split_ws_spec(s: Seq<char>) -> Seq<Seq<char>>
    decreases s.len(),
    via split_ws_spec_dec
{
    if s.len() == 0 {
        seq![]
    } else if is_ws(s[0]) {
        split_ws_spec(s.drop_first())
    } else {
        let i = find_ws_spec(s);
        if i == -1 {
            seq![s]
        } else {
            seq![s.take(i)] + split_ws_spec(s.skip(i))
        }
    }
}

#[via_fn]
proof fn split_ws_spec_dec(s: Seq<char>) {
    if s.len() != 0 && !is_ws(s[0]) {
        lemma_find_ws_spec(s);
    }
}

fn is_ws_exec(c: char) -> (r: bool)
    ensures
        r == is_ws(c),
{
    c == ' ' || c == '\t' || c == '\r' || c == '\n'
}

fn find_ws(s: &str) -> (r: Option<usize>)
    ensures
        match r {
            Some(i) => find_ws_spec(s@) == i as int,
            None => find_ws_spec(s@) == -1,
        },
{
    let n = s.unicode_len();
    let mut i: usize = 0;
    while i < n
        invariant
            n == s@.len(),
            i <= n,
            forall|j: int| 0 <= j < i ==> !is_ws(s@[j]),
        decreases n - i,
    {
        if is_ws_exec(s.get_char(i)) {
            proof {
                lemma_find_ws_at(s@, i as int);
            }
            return Some(i);
        }
        i += 1;
    }
    proof {
        lemma_find_ws_spec(s@);
    }
    None
}

/// Split `s` into its whitespace-delimited tokens; runs of whitespace
/// collapse and produce no empty tokens.
pub fn split_ws(s: &str) -> (r: Vec<String>)
    ensures
        r.deep_view() == split_ws_spec(s@),
    decreases s@.len(),
{
    let n = s.unicode_len();
    if n == 0 {
        let v: Vec<String> = Vec::new();
        proof {
            assert(v.deep_view() =~= split_ws_spec(s@));
        }
        return v;
    }
    if is_ws_exec(s.get_char(0)) {
        let rest = s.substring_char(1, n);
        proof {
            assert(s@.subrange(1, s@.len() as int) == s@.drop_first());
        }
        return split_ws(rest);
    }
    match find_ws(s) {
        None => {
            let mut v: Vec<String> = Vec::new();
            v.push(String::from_str(s));
            proof {
                assert(v.deep_view() =~= split_ws_spec(s@));
            }
            v
        },
        Some(i) => {
            proof {
                lemma_find_ws_spec(s@);
            }
            let head = s.substring_char(0, i);
            let rest = s.substring_char(i, n);
            let mut v = split_ws(rest);
            v.insert(0, String::from_str(head));
            proof {
                assert(s@.take(i as int) == s@.subrange(0, i as int));
                assert(s@.skip(i as int) == s@.subrange(i as int, s@.len() as int));
                assert(v.deep_view() =~= split_ws_spec(s@));
            }
            v
        },
    }
}

/// Whether some token of `toks` equals `t`.
pub fn tokens_contain(toks: &Vec<String>, t: &str) -> (r: bool)
    ensures
        r == toks.deep_view().contains(t@),
{
    let n = toks.len();
    let mut i: usize = 0;
    while i < n
        invariant
            n == toks.len(),
            i <= n,
            forall|j: int| 0 <= j < i ==> toks.deep_view()[j] != t@,
        decreases n - i,
    {
        if eq_str(toks[i].as_str(), t) {
            proof {
                assert(toks.deep_view()[i as int] == t@);
            }
            return true;
        }
        i += 1;
    }
    false
}

// ---------------------------------------------------------------------------
// Joining with a single separator character
// ---------------------------------------------------------------------------

/// The pieces of `v` joined with one `c` between neighbours.
pub open spec fn join_char_spec(v: Seq<Seq<char>>, c: char) -> Seq<char>
    decreases v.len(),
{
    if v.len() == 0 {
        seq![]
    } else if v.len() == 1 {
        v[0]
    } else {
        v[0] + seq![c] + join_char_spec(v.drop_first(), c)
    }
}

/// Appending one more piece to a non-empty join adds a separator and the piece.
pub proof fn lemma_join_char_push(v: Seq<Seq<char>>, x: Seq<char>, c: char)
    requires
        v.len() >= 1,
    ensures
        join_char_spec(v.push(x), c) == join_char_spec(v, c) + seq![c] + x,
    decreases v.len(),
{
    if v.len() == 1 {
        assert(v.push(x).drop_first() =~= seq![x]);
        assert(join_char_spec(seq![x], c) == x);
        assert(join_char_spec(v.push(x), c) =~= v[0] + seq![c] + x);
    } else {
        assert(v.push(x).drop_first() =~= v.drop_first().push(x));
        lemma_join_char_push(v.drop_first(), x, c);
        assert(join_char_spec(v.push(x), c) =~= join_char_spec(v, c) + seq![c] + x);
    }
}

/// Join the strings of `v` with single spaces.
pub fn join_space(v: &Vec<String>) -> (r: String)
    ensures
        r@ == join_char_spec(v.deep_view(), ' '),
    decreases v.len(),
{
    let n = v.len();
    let mut out = String::new();
    if n == 0 {
        return out;
    }
    out.append(v[0].as_str());
    let mut i: usize = 1;
    while i < n
        invariant
            n == v.len(),
            1 <= i <= n,
            out@ == join_char_spec(v.deep_view().take(i as int), ' '),
        decreases n - i,
    {
        push_char(&mut out, ' ');
        out.append(v[i].as_str());
        proof {
            lemma_join_char_push(v.deep_view().take(i as int), v.deep_view()[i as int], ' ');
            assert(v.deep_view().take(i as int).push(v.deep_view()[i as int])
                =~= v.deep_view().take(i + 1));
        }
        i += 1;
    }
    proof {
        assert(v.deep_view().take(n as int) =~= v.deep_view());
    }
    out
}

// ---------------------------------------------------------------------------
// Searching concatenations
// ---------------------------------------------------------------------------

/// If `c` does not occur in `a`, the first `c` of `a + [c] + b` sits right
/// after `a`.
pub proof fn lemma_find_in_concat(a: Seq<char>, b: Seq<char>, c: char)
    requires
        !a.contains(c),
    ensures
        find_char_spec(a + seq![c] + b, c) == a.len(),
{
    let s = a + seq![c] + b;
    assert(s[a.len() as int] == c);
    assert forall|j: int| 0 <= j < a.len() implies s[j] != c by {
        assert(s[j] == a[j]);
        assert(!a.contains(c));
    }
    lemma_find_char_at(s, c, a.len() as int);
}

/// If `c` does not occur in `s`, `find_char_spec` reports no occurrence.
pub proof fn lemma_find_absent(s: Seq<char>, c: char)
    requires
        !s.contains(c),
    ensures
        find_char_spec(s, c) == -1,
{
    lemma_find_char_spec(s, c);
    if find_char_spec(s, c) != -1 {
        assert(s[find_char_spec(s, c)] == c);
    }
}

/// A concatenation of two sequences free of `c` is free of `c`.
pub proof fn lemma_concat_not_contains(a: Seq<char>, b: Seq<char>, c: char)
    requires
        !a.contains(c),
        !b.contains(c),
    ensures
        !(a + b).contains(c),
{
    assert forall|k: int| 0 <= k < (a + b).len() implies (a + b)[k] != c by {
        if k < a.len() {
            assert((a + b)[k] == a[k]);
        } else {
            assert((a + b)[k] == b[k - a.len()]);
        }
    }
}

// ---------------------------------------------------------------------------
// Decimal numbers
// ---------------------------------------------------------------------------

/// Whether `c` is a decimal digit.
pub open spec fn is_dec_digit(c: char) -> bool {
    '0' <= c && c <= '9'
}

/// Whether `s` is a non-empty string of decimal digits.
pub open spec fn all_dec_digits(s: Seq<char>) -> bool {
    s.len() > 0 && forall|i: int| 0 <= i < s.len() ==> is_dec_digit(#[trigger] s[i])
}

/// The value of `s` read as a decimal number.
pub open spec fn dec_val(s: Seq<char>) -> int
    decreases s.len(),
{
    if s.len() == 0 {
        0
    } else {
        dec_val(s.drop_last()) * 10 + (s.last() as int - '0' as int)
    }
}

/// A decimal number is at least the value of any of its prefixes.
proof fn lemma_dec_val_prefix(s: Seq<char>, i: int)
    requires
        0 <= i <= s.len(),
        forall|j: int| 0 <= j < s.len() ==> is_dec_digit(#[trigger] s[j]),
    ensures
        dec_val(s.take(i)) <= dec_val(s),
        dec_val(s) >= 0,
    decreases s.len(),
{
    if s.len() == 0 {
    } else {
        lemma_dec_val_prefix(s.drop_last(), if i < s.len() { i } else { i - 1 });
        if i < s.len() {
            assert(s.drop_last().take(i) =~= s.take(i));
        } else {
            assert(s.take(i) =~= s);
        }
    }
}

/// The numeric value of a decimal digit.
fn digit_val(c: char) -> (d: u8)
    requires
        is_dec_digit(c),
    ensures
        d as int == c as int - '0' as int,
{
    match c {
        '0' => 0,
        '1' => 1,
        '2' => 2,
        '3' => 3,
        '4' => 4,
        '5' => 5,
        '6' => 6,
        '7' => 7,
        '8' => 8,
        _ => 9,
    }
}

/// Whether `s` is a decimal number that fits in a `u32`.
pub open spec fn fits_dec_u32(s: Seq<char>) -> bool {
    all_dec_digits(s) && dec_val(s) <= u32::MAX
}

/// Parse `s` as a decimal number that fits in a `u64`: `Some` exactly when
/// `s` is all digits and its value is at most `u64::MAX`.
pub fn parse_dec_u64(s: &str) -> (r: Option<u64>)
    ensures
        match r {
            Some(v) => all_dec_digits(s@) && v as int == dec_val(s@),
            None => !all_dec_digits(s@) || dec_val(s@) > u64::MAX,
        },
{
    let n = s.unicode_len();
    if n == 0 {
        return None;
    }
    let mut acc: u128 = 0;
    let mut i: usize = 0;
    while i < n
        invariant
            n == s@.len(),
            n > 0,
            i <= n,
            forall|j: int| 0 <= j < i ==> is_dec_digit(#[trigger] s@[j]),
            acc as int == dec_val(s@.take(i as int)),
            acc <= u64::MAX,
        decreases n - i,
    {
        let c = s.get_char(i);
        if !(c >= '0' && c <= '9') {
            return None;
        }
        let d: u128 = digit_val(c) as u128;
        let next: u128 = acc * 10 + d;
        proof {
            assert(s@.take(i + 1).drop_last() =~= s@.take(i as int));
            assert(s@.take(i + 1).last() == s@[i as int]);
        }
        if next > u64::MAX as u128 {
            proof {
                if all_dec_digits(s@) {
                    lemma_dec_val_prefix(s@, i + 1);
                }
            }
            return None;
        }
        acc = next;
        i += 1;
    }
    proof {
        assert(s@.take(n as int) =~= s@);
    }
    Some(acc as u64)
}

/// Parse `s` as a decimal `u32`.
pub fn parse_dec_u32(s: &str) -> (r: Option<u32>)
    ensures
        match r {
            Some(v) => all_dec_digits(s@) && v as int == dec_val(s@),
            None => !all_dec_digits(s@) || dec_val(s@) > u32::MAX,
        },
{
    match parse_dec_u64(s) {
        Some(v) => if v <= u32::MAX as u64 {
            Some(v as u32)
        } else {
            None
        },
        None => None,
    }
}

/// Parse `s` as a decimal `u16`.
pub fn parse_dec_u16(s: &str) -> (r: Option<u16>)
    ensures
        match r {
            Some(v) => all_dec_digits(s@) && v as int == dec_val(s@),
            None => !all_dec_digits(s@) || dec_val(s@) > u16::MAX,
        },
{
    match parse_dec_u64(s) {
        Some(v) => if v <= u16::MAX as u64 {
            Some(v as u16)
        } else {
            None
        },
        None => None,
    }
}

} // verus!
