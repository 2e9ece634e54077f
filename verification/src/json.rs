//! Byte-level machinery for the JSON wire format the remote service speaks:
//! whitespace and comment skipping, integer literals, string literals with
//! escapes, and skipping of unknown values.  Every executable function is
//! specified against a spec-level parser over `Seq<u8>`, and printing is
//! proved to be inverted by parsing.

use vstd::prelude::*;

verus! {

/// JSON insignificant whitespace.
pub open spec fn is_ws_byte(b: u8) -> bool {
    b == 0x20 || b == 0x09 || b == 0x0a || b == 0x0d
}

/// An ASCII decimal digit.
pub open spec fn is_digit(b: u8) -> bool {
    0x30 <= b <= 0x39
}

/// Index just past the end of a line comment starting inside it at `i`.
pub open spec fn spec_skip_line(s: Seq<u8>, i: int) -> int
    decreases s.len() - i,
    when 0 <= i <= s.len()
{
    if i == s.len() {
        i
    } else if s[i] == 0x0a {
        i + 1
    } else {
        spec_skip_line(s, i + 1)
    }
}

pub proof fn lemma_skip_line_bounds(s: Seq<u8>, i: int)
    requires
        0 <= i <= s.len(),
    ensures
        i <= spec_skip_line(s, i) <= s.len(),
    decreases s.len() - i,
{
    if i < s.len() && s[i] != 0x0a {
        lemma_skip_line_bounds(s, i + 1);
    }
}

/// Index just past the closing `*/` of a block comment starting inside it
/// at `i`; the end of the input if the comment is unterminated.
pub open spec fn spec_skip_block(s: Seq<u8>, i: int) -> int
    decreases s.len() - i,
    when 0 <= i <= s.len()
{
    if i + 2 > s.len() {
        s.len() as int
    } else if s[i] == 0x2a && s[i + 1] == 0x2f {
        i + 2
    } else {
        spec_skip_block(s, i + 1)
    }
}

pub proof fn lemma_skip_block_bounds(s: Seq<u8>, i: int)
    requires
        0 <= i <= s.len(),
    ensures
        i <= spec_skip_block(s, i) <= s.len(),
    decreases s.len() - i,
{
    if i + 2 <= s.len() && !(s[i] == 0x2a && s[i + 1] == 0x2f) {
        lemma_skip_block_bounds(s, i + 1);
    }
}

/// Index of the first significant byte at or after `i`: skips whitespace,
/// `//` line comments and `/* */` block comments.
pub open spec fn spec_ws(s: Seq<u8>, i: int) -> int
    decreases s.len() - i,
    when 0 <= i <= s.len()
{
    if i == s.len() {
        i
    } else if is_ws_byte(s[i]) {
        spec_ws(s, i + 1)
    } else if s[i] == 0x2f && i + 1 < s.len() && s[i + 1] == 0x2f {
        proof {
            lemma_skip_line_bounds(s, i + 2);
        }
        spec_ws(s, spec_skip_line(s, i + 2))
    } else if s[i] == 0x2f && i + 1 < s.len() && s[i + 1] == 0x2a {
        proof {
            lemma_skip_block_bounds(s, i + 2);
        }
        spec_ws(s, spec_skip_block(s, i + 2))
    } else {
        i
    }
}

pub proof fn lemma_ws_bounds(s: Seq<u8>, i: int)
    requires
        0 <= i <= s.len(),
    ensures
        i <= spec_ws(s, i) <= s.len(),
    decreases s.len() - i,
{
    if i == s.len() {
    } else if is_ws_byte(s[i]) {
        lemma_ws_bounds(s, i + 1);
    } else if s[i] == 0x2f && i + 1 < s.len() && s[i + 1] == 0x2f {
        lemma_skip_line_bounds(s, i + 2);
        lemma_ws_bounds(s, spec_skip_line(s, i + 2));
    } else if s[i] == 0x2f && i + 1 < s.len() && s[i + 1] == 0x2a {
        lemma_skip_block_bounds(s, i + 2);
        lemma_ws_bounds(s, spec_skip_block(s, i + 2));
    }
}

/// At a byte that neither is whitespace nor opens a comment, skipping is the
/// identity; the canonical encodings contain no insignificant bytes.
pub proof fn lemma_ws_at_significant(s: Seq<u8>, i: int)
    requires
        0 <= i < s.len(),
        !is_ws_byte(s[i]),
        s[i] != 0x2f,
    ensures
        spec_ws(s, i) == i,
{
}

fn skip_line(s: &[u8], i: usize) -> (r: usize)
    requires
        i <= s.len(),
    ensures
        r == spec_skip_line(s@, i as int),
        i <= r <= s.len(),
    decreases s@.len() - i,
{
    if i == s.len() {
        i
    } else if s[i] == 0x0a {
        i + 1
    } else {
        skip_line(s, i + 1)
    }
}

fn skip_block(s: &[u8], i: usize) -> (r: usize)
    requires
        i <= s.len(),
    ensures
        r == spec_skip_block(s@, i as int),
        i <= r <= s.len(),
    decreases s@.len() - i,
{
    if s.len() - i < 2 {
        s.len()
    } else if s[i] == 0x2a && s[i + 1] == 0x2f {
        i + 2
    } else {
        skip_block(s, i + 1)
    }
}

/// Skip whitespace and comments, returning the index of the first
/// significant byte.
pub fn ws(s: &[u8], i: usize) -> (r: usize)
    requires
        i <= s.len(),
    ensures
        r == spec_ws(s@, i as int),
        i <= r <= s.len(),
    decreases s@.len() - i,
{
    if i == s.len() {
        i
    } else {
        let b = s[i];
        if b == 0x20 || b == 0x09 || b == 0x0a || b == 0x0d {
            ws(s, i + 1)
        } else if b == 0x2f && i + 1 < s.len() && s[i + 1] == 0x2f {
            ws(s, skip_line(s, i + 2))
        } else if b == 0x2f && i + 1 < s.len() && s[i + 1] == 0x2a {
            ws(s, skip_block(s, i + 2))
        } else {
            i
        }
    }
}

/// Digit-accumulation step of an unsigned decimal literal: consume digits
/// starting at `i`, extending the already-read value `acc`; `None` when the
/// value would not fit in 64 bits.
pub open spec fn spec_num_body(s: Seq<u8>, i: int, acc: int) -> Option<(int, int)>
    decreases s.len() - i,
    when 0 <= i <= s.len()
{
    if i == s.len() || !is_digit(s[i]) {
        Some((acc, i))
    } else {
        let v = acc * 10 + (s[i] - 0x30);
        if v > 0xffff_ffff_ffff_ffff {
            None
        } else {
            spec_num_body(s, i + 1, v)
        }
    }
}

/// An unsigned decimal literal at `i`: at least one digit, value in 64 bits.
pub open spec fn spec_parse_u64(s: Seq<u8>, i: int) -> Option<(int, int)> {
    if 0 <= i < s.len() && is_digit(s[i]) {
        spec_num_body(s, i, 0)
    } else {
        None
    }
}

pub proof fn lemma_num_body_bounds(s: Seq<u8>, i: int, acc: int)
    requires
        0 <= i <= s.len(),
        0 <= acc <= 0xffff_ffff_ffff_ffff,
    ensures
        match spec_num_body(s, i, acc) {
            Some((v, j)) => i <= j <= s.len() && 0 <= v <= 0xffff_ffff_ffff_ffff,
            None => true,
        },
    decreases s.len() - i,
{
    if i == s.len() || !is_digit(s[i]) {
    } else {
        let v = acc * 10 + (s[i] - 0x30);
        if v <= 0xffff_ffff_ffff_ffff {
            lemma_num_body_bounds(s, i + 1, v);
        }
    }
}

fn parse_u64_body(s: &[u8], i: usize, acc: u64) -> (r: Option<(u64, usize)>)
    requires
        i <= s.len(),
    ensures
        match r {
            Some((v, j)) => spec_num_body(s@, i as int, acc as int) == Some(
                (v as int, j as int),
            ) && i <= j <= s.len(),
            None => spec_num_body(s@, i as int, acc as int) is None,
        },
    decreases s@.len() - i,
{
    if i == s.len() || !(s[i] >= 0x30 && s[i] <= 0x39) {
        Some((acc, i))
    } else {
        let d = (s[i] - 0x30) as u64;
        let wide: u128 = (acc as u128) * 10 + (d as u128);
        if wide > 0xffff_ffff_ffff_ffff {
            None
        } else {
            parse_u64_body(s, i + 1, wide as u64)
        }
    }
}

/// Parse an unsigned decimal literal at `i`.
pub fn parse_u64_at(s: &[u8], i: usize) -> (r: Option<(u64, usize)>)
    requires
        i <= s.len(),
    ensures
        match r {
            Some((v, j)) => spec_parse_u64(s@, i as int) == Some((v as int, j as int)) && i < j
                <= s.len(),
            None => spec_parse_u64(s@, i as int) is None,
        },
{
    if i < s.len() && s[i] >= 0x30 && s[i] <= 0x39 {
        match parse_u64_body(s, i, 0) {
            Some((v, j)) => {
                assert(j > i) by {
                    let d = (s@[i as int] - 0x30) as int;
                    assert(spec_num_body(s@, i as int, 0) == spec_num_body(s@, i as int + 1, d));
                    lemma_num_body_bounds(s@, i as int + 1, d);
                };
                Some((v, j))
            },
            None => None,
        }
    } else {
        None
    }
}

/// A signed decimal literal at `i`, value in the range of `i64`.
pub open spec fn spec_parse_i64(s: Seq<u8>, i: int) -> Option<(int, int)> {
    if 0 <= i < s.len() && s[i] == 0x2d {
        match spec_parse_u64(s, i + 1) {
            Some((v, j)) => if v <= 0x8000_0000_0000_0000 {
                Some((-v, j))
            } else {
                None
            },
            None => None,
        }
    } else {
        match spec_parse_u64(s, i) {
            Some((v, j)) => if v <= 0x7fff_ffff_ffff_ffff {
                Some((v, j))
            } else {
                None
            },
            None => None,
        }
    }
}

/// Parse a signed decimal literal at `i`.
pub fn parse_i64_at(s: &[u8], i: usize) -> (r: Option<(i64, usize)>)
    requires
        i <= s.len(),
    ensures
        match r {
            Some((v, j)) => spec_parse_i64(s@, i as int) == Some((v as int, j as int)) && i < j
                <= s.len(),
            None => spec_parse_i64(s@, i as int) is None,
        },
{
    if i < s.len() && s[i] == 0x2d {
        match parse_u64_at(s, i + 1) {
            Some((v, j)) => {
                if v <= 0x8000_0000_0000_0000 {
                    let m: i64 = if v == 0x8000_0000_0000_0000 {
                        i64::MIN
                    } else {
                        -(v as i64)
                    };
                    Some((m, j))
                } else {
                    None
                }
            },
            None => None,
        }
    } else {
        match parse_u64_at(s, i) {
            Some((v, j)) => {
                if v <= 0x7fff_ffff_ffff_ffff {
                    Some((v as i64, j))
                } else {
                    None
                }
            },
            None => None,
        }
    }
}

/// The decimal digits of a non-negative integer, most significant first.
pub open spec fn spec_dec(n: int) -> Seq<u8>
    decreases n,
    when 0 <= n
{
    if n < 10 {
        seq![(0x30 + n) as u8]
    } else {
        proof {
            assert(0 <= n / 10 < n) by (nonlinear_arith)
                requires
                    n >= 10,
            ;
        }
        spec_dec(n / 10) + seq![(0x30 + n % 10) as u8]
    }
}

/// The decimal rendering of a signed integer.
pub open spec fn spec_dec_i64(n: int) -> Seq<u8> {
    if n < 0 {
        seq![0x2du8] + spec_dec(-n)
    } else {
        spec_dec(n)
    }
}

/// Render an unsigned integer in decimal.
pub fn u64_to_dec(n: u64) -> (r: Vec<u8>)
    ensures
        r@ == spec_dec(n as int),
    decreases n,
{
    if n < 10 {
        let mut v: Vec<u8> = Vec::new();
        v.push(0x30 + n as u8);
        assert(v@ =~= spec_dec(n as int));
        v
    } else {
        proof {
            assert(0 <= n as int / 10 < n as int) by (nonlinear_arith)
                requires
                    n >= 10,
            ;
        }
        let mut v = u64_to_dec(n / 10);
        v.push(0x30 + (n % 10) as u8);
        assert(v@ =~= spec_dec(n as int));
        v
    }
}

/// Render a signed integer in decimal.
pub fn i64_to_dec(n: i64) -> (r: Vec<u8>)
    ensures
        r@ == spec_dec_i64(n as int),
{
    if n < 0 {
        let m: u64 = if n == i64::MIN {
            0x8000_0000_0000_0000u64
        } else {
            (-n) as u64
        };
        let digits = u64_to_dec(m);
        let mut v: Vec<u8> = Vec::new();
        v.push(0x2d);
        let mut k: usize = 0;
        while k < digits.len()
            invariant
                k <= digits.len(),
                v@ == seq![0x2du8] + digits@.take(k as int),
            decreases digits.len() - k,
        {
            v.push(digits[k]);
            assert(v@ =~= seq![0x2du8] + digits@.take(k as int + 1));
            k += 1;
        }
        assert(digits@.take(digits@.len() as int) =~= digits@);
        v
    } else {
        u64_to_dec(n as u64)
    }
}

/// Value of an ASCII hex digit.
pub open spec fn spec_hexv(b: u8) -> Option<u8> {
    if 0x30 <= b <= 0x39 {
        Some((b - 0x30) as u8)
    } else if 0x61 <= b <= 0x66 {
        Some((b - 0x61 + 10) as u8)
    } else if 0x41 <= b <= 0x46 {
        Some((b - 0x41 + 10) as u8)
    } else {
        None
    }
}

/// UTF-8 encoding of a code point below 0x10000.
pub open spec fn utf8_of_cp(cp: int) -> Seq<u8> {
    if cp < 0x80 {
        seq![cp as u8]
    } else if cp < 0x800 {
        seq![(0xc0 + cp / 64) as u8, (0x80 + cp % 64) as u8]
    } else {
        seq![(0xe0 + cp / 4096) as u8, (0x80 + (cp / 64) % 64) as u8, (0x80 + cp % 64) as u8]
    }
}

/// Body of a string literal from `i` (just past the opening quote) to its
/// closing quote: raw bytes, the short escapes, and `\uXXXX` for code points
/// outside the surrogate range.  Yields the decoded bytes and the index just
/// past the closing quote.
pub open spec fn spec_string_body(s: Seq<u8>, i: int, acc: Seq<u8>) -> Option<(Seq<u8>, int)>
    decreases s.len() - i,
    when 0 <= i <= s.len()
{
    if i == s.len() {
        None
    } else if s[i] == 0x22 {
        Some((acc, i + 1))
    } else if s[i] == 0x5c {
        if i + 1 == s.len() {
            None
        } else {
            let e = s[i + 1];
            if e == 0x22 {
                spec_string_body(s, i + 2, acc + seq![0x22u8])
            } else if e == 0x5c {
                spec_string_body(s, i + 2, acc + seq![0x5cu8])
            } else if e == 0x2f {
                spec_string_body(s, i + 2, acc + seq![0x2fu8])
            } else if e == 0x62 {
                spec_string_body(s, i + 2, acc + seq![0x08u8])
            } else if e == 0x66 {
                spec_string_body(s, i + 2, acc + seq![0x0cu8])
            } else if e == 0x6e {
                spec_string_body(s, i + 2, acc + seq![0x0au8])
            } else if e == 0x72 {
                spec_string_body(s, i + 2, acc + seq![0x0du8])
            } else if e == 0x74 {
                spec_string_body(s, i + 2, acc + seq![0x09u8])
            } else if e == 0x75 {
                if i + 6 > s.len() {
                    None
                } else {
                    match (
                        spec_hexv(s[i + 2]),
                        spec_hexv(s[i + 3]),
                        spec_hexv(s[i + 4]),
                        spec_hexv(s[i + 5]),
                    ) {
                        (Some(h1), Some(h2), Some(h3), Some(h4)) => {
                            let cp = (h1 as int) * 4096 + (h2 as int) * 256 + (h3 as int) * 16
                                + (h4 as int);
                            if 0xd800 <= cp < 0xe000 {
                                None
                            } else {
                                spec_string_body(s, i + 6, acc + utf8_of_cp(cp))
                            }
                        },
                        _ => None,
                    }
                }
            } else {
                None
            }
        }
    } else if s[i] < 0x20 {
        None
    } else {
        spec_string_body(s, i + 1, acc + seq![s[i]])
    }
}

/// A string literal at `i`: opening quote, body, closing quote.
pub open spec fn spec_parse_string(s: Seq<u8>, i: int) -> Option<(Seq<u8>, int)> {
    if 0 <= i < s.len() && s[i] == 0x22 {
        spec_string_body(s, i + 1, seq![])
    } else {
        None
    }
}

pub proof fn lemma_string_body_bounds(s: Seq<u8>, i: int, acc: Seq<u8>)
    requires
        0 <= i <= s.len(),
    ensures
        match spec_string_body(s, i, acc) {
            Some((v, j)) => i < j <= s.len(),
            None => true,
        },
    decreases s.len() - i,
{
    if i == s.len() {
    } else if s[i] == 0x22 {
    } else if s[i] == 0x5c {
        if i + 1 < s.len() {
            let e = s[i + 1];
            if e == 0x75 {
                if i + 6 <= s.len() {
                    match (
                        spec_hexv(s[i + 2]),
                        spec_hexv(s[i + 3]),
                        spec_hexv(s[i + 4]),
                        spec_hexv(s[i + 5]),
                    ) {
                        (Some(h1), Some(h2), Some(h3), Some(h4)) => {
                            let cp = (h1 as int) * 4096 + (h2 as int) * 256 + (h3 as int) * 16
                                + (h4 as int);
                            if !(0xd800 <= cp < 0xe000) {
                                lemma_string_body_bounds(s, i + 6, acc + utf8_of_cp(cp));
                            }
                        },
                        _ => {},
                    }
                }
            } else {
                lemma_string_body_bounds(s, i + 2, acc + seq![0u8]);
                lemma_string_body_bounds(s, i + 2, acc + seq![0x22u8]);
                lemma_string_body_bounds(s, i + 2, acc + seq![0x5cu8]);
                lemma_string_body_bounds(s, i + 2, acc + seq![0x2fu8]);
                lemma_string_body_bounds(s, i + 2, acc + seq![0x08u8]);
                lemma_string_body_bounds(s, i + 2, acc + seq![0x0cu8]);
                lemma_string_body_bounds(s, i + 2, acc + seq![0x0au8]);
                lemma_string_body_bounds(s, i + 2, acc + seq![0x0du8]);
                lemma_string_body_bounds(s, i + 2, acc + seq![0x09u8]);
            }
        }
    } else if s[i] < 0x20 {
    } else {
        lemma_string_body_bounds(s, i + 1, acc + seq![s[i]]);
    }
}

fn string_body(s: &[u8], i: usize, acc: Vec<u8>) -> (r: Option<(Vec<u8>, usize)>)
    requires
        i <= s.len(),
    ensures
        match r {
            Some((v, j)) => spec_string_body(s@, i as int, acc@) == Some((v@, j as int)) && i < j
                <= s.len(),
            None => spec_string_body(s@, i as int, acc@) is None,
        },
    decreases s@.len() - i,
{
    let ghost acc0: Seq<u8> = acc@;
    if i == s.len() {
        None
    } else if s[i] == 0x22 {
        Some((acc, i + 1))
    } else if s[i] == 0x5c {
        if i + 1 == s.len() {
            None
        } else {
            let e = s[i + 1];
            let mut acc = acc;
            if e == 0x22 {
                acc.push(0x22);
                assert(acc@ =~= acc0 + seq![0x22u8]);
                string_body(s, i + 2, acc)
            } else if e == 0x5c {
                acc.push(0x5c);
                assert(acc@ =~= acc0 + seq![0x5cu8]);
                string_body(s, i + 2, acc)
            } else if e == 0x2f {
                acc.push(0x2f);
                assert(acc@ =~= acc0 + seq![0x2fu8]);
                string_body(s, i + 2, acc)
            } else if e == 0x62 {
                acc.push(0x08);
                assert(acc@ =~= acc0 + seq![0x08u8]);
                string_body(s, i + 2, acc)
            } else if e == 0x66 {
                acc.push(0x0c);
                assert(acc@ =~= acc0 + seq![0x0cu8]);
                string_body(s, i + 2, acc)
            } else if e == 0x6e {
                acc.push(0x0a);
                assert(acc@ =~= acc0 + seq![0x0au8]);
                string_body(s, i + 2, acc)
            } else if e == 0x72 {
                acc.push(0x0d);
                assert(acc@ =~= acc0 + seq![0x0du8]);
                string_body(s, i + 2, acc)
            } else if e == 0x74 {
                acc.push(0x09);
                assert(acc@ =~= acc0 + seq![0x09u8]);
                string_body(s, i + 2, acc)
            } else if e == 0x75 {
                if s.len() - i < 6 {
                    None
                } else {
                    match (hexv(s[i + 2]), hexv(s[i + 3]), hexv(s[i + 4]), hexv(s[i + 5])) {
                        (Some(h1), Some(h2), Some(h3), Some(h4)) => {
                            let cp: u32 = (h1 as u32) * 4096 + (h2 as u32) * 256 + (h3 as u32)
                                * 16 + (h4 as u32);
                            if 0xd800 <= cp && cp < 0xe000 {
                                None
                            } else {
                                push_utf8(&mut acc, cp);
                                string_body(s, i + 6, acc)
                            }
                        },
                        _ => None,
                    }
                }
            } else {
                None
            }
        }
    } else if s[i] < 0x20 {
        None
    } else {
        let b = s[i];
        let mut acc = acc;
        acc.push(b);
        assert(acc@ =~= acc0 + seq![b]);
        string_body(s, i + 1, acc)
    }
}

fn hexv(b: u8) -> (r: Option<u8>)
    ensures
        r == spec_hexv(b),
{
    if b >= 0x30 && b <= 0x39 {
        Some(b - 0x30)
    } else if b >= 0x61 && b <= 0x66 {
        Some(b - 0x61 + 10)
    } else if b >= 0x41 && b <= 0x46 {
        Some(b - 0x41 + 10)
    } else {
        None
    }
}

fn push_utf8(acc: &mut Vec<u8>, cp: u32)
    requires
        cp < 0x10000,
    ensures
        final(acc)@ == old(acc)@ + utf8_of_cp(cp as int),
{
    if cp < 0x80 {
        acc.push(cp as u8);
        assert(acc@ =~= old(acc)@ + utf8_of_cp(cp as int));
    } else if cp < 0x800 {
        proof {
            assert(cp / 64 < 0x20 && cp % 64 < 64) by (nonlinear_arith)
                requires
                    cp < 0x800,
            ;
        }
        acc.push(0xc0 + (cp / 64) as u8);
        acc.push(0x80 + (cp % 64) as u8);
        assert(acc@ =~= old(acc)@ + utf8_of_cp(cp as int));
    } else {
        proof {
            assert(cp / 4096 < 0x10 && (cp / 64) % 64 < 64 && cp % 64 < 64) by (nonlinear_arith)
                requires
                    cp < 0x10000,
            ;
        }
        acc.push(0xe0 + (cp / 4096) as u8);
        acc.push(0x80 + ((cp / 64) % 64) as u8);
        acc.push(0x80 + (cp % 64) as u8);
        assert(acc@ =~= old(acc)@ + utf8_of_cp(cp as int));
    }
}

/// Parse a string literal at `i`, yielding its decoded bytes.
pub fn parse_string_at(s: &[u8], i: usize) -> (r: Option<(Vec<u8>, usize)>)
    requires
        i <= s.len(),
    ensures
        match r {
            Some((v, j)) => spec_parse_string(s@, i as int) == Some((v@, j as int)) && i < j
                <= s.len(),
            None => spec_parse_string(s@, i as int) is None,
        },
{
    if i < s.len() && s[i] == 0x22 {
        string_body(s, i + 1, Vec::new())
    } else {
        None
    }
}

/// Lowercase hex digit for a value below 16.
pub open spec fn hex_digit(n: int) -> u8 {
    if n < 10 {
        (0x30 + n) as u8
    } else {
        (0x61 + n - 10) as u8
    }
}

/// The escaped form of one byte inside a string literal: quote and
/// backslash get a short escape, control bytes a `\u00XX` escape, and
/// everything else stands for itself.
pub open spec fn esc_byte(b: u8) -> Seq<u8> {
    if b == 0x22 {
        seq![0x5cu8, 0x22u8]
    } else if b == 0x5c {
        seq![0x5cu8, 0x5cu8]
    } else if b < 0x20 {
        seq![0x5cu8, 0x75u8, 0x30u8, 0x30u8, hex_digit(b as int / 16), hex_digit(b as int % 16)]
    } else {
        seq![b]
    }
}

/// The escaped form of the byte suffix of `d` from `k` on.
pub open spec fn spec_escape(d: Seq<u8>, k: int) -> Seq<u8>
    decreases d.len() - k,
    when 0 <= k <= d.len()
{
    if k == d.len() {
        seq![]
    } else {
        esc_byte(d[k]) + spec_escape(d, k + 1)
    }
}

/// A whole string literal for the content bytes `d`.
pub open spec fn spec_quote(d: Seq<u8>) -> Seq<u8> {
    seq![0x22u8] + spec_escape(d, 0) + seq![0x22u8]
}

fn esc_rec(d: &[u8], k: usize, out: &mut Vec<u8>)
    requires
        k <= d.len(),
    ensures
        final(out)@ == old(out)@ + spec_escape(d@, k as int),
    decreases d@.len() - k,
{
    if k == d.len() {
        assert(out@ =~= old(out)@ + spec_escape(d@, k as int));
    } else {
        let b = d[k];
        if b == 0x22 {
            out.push(0x5c);
            out.push(0x22);
        } else if b == 0x5c {
            out.push(0x5c);
            out.push(0x5c);
        } else if b < 0x20 {
            out.push(0x5c);
            out.push(0x75);
            out.push(0x30);
            out.push(0x30);
            let hi = b / 16;
            let lo = b % 16;
            out.push(if hi < 10 {
                0x30 + hi
            } else {
                0x61 + hi - 10
            });
            out.push(if lo < 10 {
                0x30 + lo
            } else {
                0x61 + lo - 10
            });
        } else {
            out.push(b);
        }
        assert(out@ =~= old(out)@ + esc_byte(d@[k as int]));
        esc_rec(d, k + 1, out);
        assert(out@ =~= old(out)@ + spec_escape(d@, k as int));
    }
}

/// Append the string literal for the content bytes `d` to `out`.
pub fn push_quoted(out: &mut Vec<u8>, d: &[u8])
    ensures
        final(out)@ == old(out)@ + spec_quote(d@),
{
    out.push(0x22);
    esc_rec(d, 0, out);
    out.push(0x22);
    assert(out@ =~= old(out)@ + spec_quote(d@));
}


/// A byte that can occur inside a number literal (loose: sign, digits,
/// decimal point, exponent).
pub open spec fn is_num_byte(b: u8) -> bool {
    is_digit(b) || b == 0x2d || b == 0x2b || b == 0x2e || b == 0x65 || b == 0x45
}

/// First index at or after `i` holding no number byte.
pub open spec fn spec_skip_num(s: Seq<u8>, i: int) -> int
    decreases s.len() - i,
    when 0 <= i <= s.len()
{
    if i == s.len() || !is_num_byte(s[i]) {
        i
    } else {
        spec_skip_num(s, i + 1)
    }
}

pub proof fn lemma_skip_num_bounds(s: Seq<u8>, i: int)
    requires
        0 <= i <= s.len(),
    ensures
        i <= spec_skip_num(s, i) <= s.len(),
    decreases s.len() - i,
{
    if i < s.len() && is_num_byte(s[i]) {
        lemma_skip_num_bounds(s, i + 1);
    }
}

/// The bytes `null` stand at `i`.
pub open spec fn spec_lit_null(s: Seq<u8>, i: int) -> bool {
    i + 4 <= s.len() && s[i] == 0x6e && s[i + 1] == 0x75 && s[i + 2] == 0x6c && s[i + 3] == 0x6c
}

/// The bytes `true` stand at `i`.
pub open spec fn spec_lit_true(s: Seq<u8>, i: int) -> bool {
    i + 4 <= s.len() && s[i] == 0x74 && s[i + 1] == 0x72 && s[i + 2] == 0x75 && s[i + 3] == 0x65
}

/// The bytes `false` stand at `i`.
pub open spec fn spec_lit_false(s: Seq<u8>, i: int) -> bool {
    i + 5 <= s.len() && s[i] == 0x66 && s[i + 1] == 0x61 && s[i + 2] == 0x6c && s[i + 3] == 0x73
        && s[i + 4] == 0x65
}

/// Index just past one JSON value at `i`, of whatever shape; `None` when no
/// well-formed value starts there.  Used to pass over fields this crate does
/// not read.
pub open spec fn spec_skip_value(s: Seq<u8>, i: int) -> Option<int>
    decreases s.len() - i, 0int,
    when 0 <= i <= s.len()
{
    if i == s.len() {
        None
    } else if s[i] == 0x22 {
        match spec_string_body(s, i + 1, seq![]) {
            Some((d, j)) => Some(j),
            None => None,
        }
    } else if s[i] == 0x5b {
        let j = spec_ws(s, i + 1);
        proof {
            lemma_ws_bounds(s, i + 1);
        }
        if j < s.len() && s[j] == 0x5d {
            Some(j + 1)
        } else {
            spec_skip_arr_tail(s, j)
        }
    } else if s[i] == 0x7b {
        let j = spec_ws(s, i + 1);
        proof {
            lemma_ws_bounds(s, i + 1);
        }
        if j < s.len() && s[j] == 0x7d {
            Some(j + 1)
        } else {
            spec_skip_obj_tail(s, j)
        }
    } else if is_num_byte(s[i]) {
        proof {
            lemma_skip_num_bounds(s, i);
        }
        Some(spec_skip_num(s, i))
    } else if spec_lit_null(s, i) || spec_lit_true(s, i) {
        Some(i + 4)
    } else if spec_lit_false(s, i) {
        Some(i + 5)
    } else {
        None
    }
}

/// Tail of an array from the position of an element: the element, then
/// either a comma and another element or the closing bracket.
pub open spec fn spec_skip_arr_tail(s: Seq<u8>, j: int) -> Option<int>
    decreases s.len() - j, 1int,
    when 0 <= j <= s.len()
{
    match spec_skip_value(s, j) {
        Some(k) => if k <= j || k > s.len() {
            None
        } else {
            let c = spec_ws(s, k);
            proof {
                lemma_ws_bounds(s, k);
            }
            if c < s.len() && s[c] == 0x2c {
                let m = spec_ws(s, c + 1);
                proof {
                    lemma_ws_bounds(s, c + 1);
                }
                spec_skip_arr_tail(s, m)
            } else if c < s.len() && s[c] == 0x5d {
                Some(c + 1)
            } else {
                None
            }
        },
        None => None,
    }
}

/// Tail of an object from the position of a key: the member, then either a
/// comma and another member or the closing brace.
pub open spec fn spec_skip_obj_tail(s: Seq<u8>, j: int) -> Option<int>
    decreases s.len() - j, 1int,
    when 0 <= j <= s.len()
{
    if j < s.len() && s[j] == 0x22 {
        match spec_string_body(s, j + 1, seq![]) {
            Some((d, k)) => {
                proof {
                    lemma_string_body_bounds(s, j + 1, seq![]);
                }
                let c = spec_ws(s, k);
                proof {
                    lemma_ws_bounds(s, k);
                }
                if c < s.len() && s[c] == 0x3a {
                    let v = spec_ws(s, c + 1);
                    proof {
                        lemma_ws_bounds(s, c + 1);
                    }
                    match spec_skip_value(s, v) {
                        Some(k2) => if k2 <= v || k2 > s.len() {
                            None
                        } else {
                            let c2 = spec_ws(s, k2);
                            proof {
                                lemma_ws_bounds(s, k2);
                            }
                            if c2 < s.len() && s[c2] == 0x2c {
                                let m = spec_ws(s, c2 + 1);
                                proof {
                                    lemma_ws_bounds(s, c2 + 1);
                                }
                                spec_skip_obj_tail(s, m)
                            } else if c2 < s.len() && s[c2] == 0x7d {
                                Some(c2 + 1)
                            } else {
                                None
                            }
                        },
                        None => None,
                    }
                } else {
                    None
                }
            },
            None => None,
        }
    } else {
        None
    }
}

/// Pass over one JSON value at `i`.
pub fn skip_value(s: &[u8], i: usize) -> (r: Option<usize>)
    requires
        i <= s.len(),
    ensures
        match r {
            Some(j) => spec_skip_value(s@, i as int) == Some(j as int) && i < j <= s.len(),
            None => spec_skip_value(s@, i as int) is None,
        },
    decreases s@.len() - i, 0int,
{
    if i == s.len() {
        None
    } else if s[i] == 0x22 {
        match string_body(s, i + 1, Vec::new()) {
            Some((d, j)) => Some(j),
            None => None,
        }
    } else if s[i] == 0x5b {
        let j = ws(s, i + 1);
        if j < s.len() && s[j] == 0x5d {
            Some(j + 1)
        } else {
            skip_arr_tail(s, j)
        }
    } else if s[i] == 0x7b {
        let j = ws(s, i + 1);
        if j < s.len() && s[j] == 0x7d {
            Some(j + 1)
        } else {
            skip_obj_tail(s, j)
        }
    } else if s[i] >= 0x30 && s[i] <= 0x39 || s[i] == 0x2d || s[i] == 0x2b || s[i] == 0x2e
        || s[i] == 0x65 || s[i] == 0x45 {
        let r = skip_num(s, i + 1);
        assert(spec_skip_num(s@, i as int) == spec_skip_num(s@, i as int + 1));
        Some(r)
    } else if s.len() - i >= 4 && s[i] == 0x6e && s[i + 1] == 0x75 && s[i + 2] == 0x6c && s[i + 3]
        == 0x6c {
        Some(i + 4)
    } else if s.len() - i >= 4 && s[i] == 0x74 && s[i + 1] == 0x72 && s[i + 2] == 0x75 && s[i + 3]
        == 0x65 {
        Some(i + 4)
    } else if s.len() - i >= 5 && s[i] == 0x66 && s[i + 1] == 0x61 && s[i + 2] == 0x6c && s[i + 3]
        == 0x73 && s[i + 4] == 0x65 {
        Some(i + 5)
    } else {
        None
    }
}

fn skip_num(s: &[u8], i: usize) -> (r: usize)
    requires
        i <= s.len(),
    ensures
        r == spec_skip_num(s@, i as int),
        i <= r <= s.len(),
    decreases s@.len() - i,
{
    if i == s.len() {
        i
    } else if s[i] >= 0x30 && s[i] <= 0x39 || s[i] == 0x2d || s[i] == 0x2b || s[i] == 0x2e || s[i]
        == 0x65 || s[i] == 0x45 {
        skip_num(s, i + 1)
    } else {
        i
    }
}

fn skip_arr_tail(s: &[u8], j: usize) -> (r: Option<usize>)
    requires
        j <= s.len(),
    ensures
        match r {
            Some(k) => spec_skip_arr_tail(s@, j as int) == Some(k as int) && j < k <= s.len(),
            None => spec_skip_arr_tail(s@, j as int) is None,
        },
    decreases s@.len() - j, 1int,
{
    match skip_value(s, j) {
        Some(k) => {
            let c = ws(s, k);
            if c < s.len() && s[c] == 0x2c {
                let m = ws(s, c + 1);
                skip_arr_tail(s, m)
            } else if c < s.len() && s[c] == 0x5d {
                Some(c + 1)
            } else {
                None
            }
        },
        None => None,
    }
}

fn skip_obj_tail(s: &[u8], j: usize) -> (r: Option<usize>)
    requires
        j <= s.len(),
    ensures
        match r {
            Some(k) => spec_skip_obj_tail(s@, j as int) == Some(k as int) && j < k <= s.len(),
            None => spec_skip_obj_tail(s@, j as int) is None,
        },
    decreases s@.len() - j, 1int,
{
    if j < s.len() && s[j] == 0x22 {
        match string_body(s, j + 1, Vec::new()) {
            Some((d, k)) => {
                let c = ws(s, k);
                if c < s.len() && s[c] == 0x3a {
                    let v = ws(s, c + 1);
                    match skip_value(s, v) {
                        Some(k2) => {
                            let c2 = ws(s, k2);
                            if c2 < s.len() && s[c2] == 0x2c {
                                let m = ws(s, c2 + 1);
                                skip_obj_tail(s, m)
                            } else if c2 < s.len() && s[c2] == 0x7d {
                                Some(c2 + 1)
                            } else {
                                None
                            }
                        },
                        None => None,
                    }
                } else {
                    None
                }
            },
            None => None,
        }
    } else {
        None
    }
}


/// Ten to the `k`.
pub open spec fn pow10(k: nat) -> int
    decreases k,
{
    if k == 0 {
        1
    } else {
        10 * pow10((k - 1) as nat)
    }
}

pub proof fn lemma_pow10_pos(k: nat)
    ensures
        pow10(k) >= 1,
    decreases k,
{
    if k > 0 {
        lemma_pow10_pos((k - 1) as nat);
    }
}

/// The number denoted by a sequence of ASCII digits.
pub open spec fn seq_val(d: Seq<u8>) -> int
    decreases d.len(),
{
    if d.len() == 0 {
        0
    } else {
        seq_val(d.drop_last()) * 10 + (d.last() - 0x30)
    }
}

pub proof fn lemma_seq_val_nonneg(d: Seq<u8>)
    requires
        forall|t: int| 0 <= t < d.len() ==> is_digit(#[trigger] d[t]),
    ensures
        seq_val(d) >= 0,
    decreases d.len(),
{
    if d.len() > 0 {
        assert(forall|t: int|
            0 <= t < d.drop_last().len() ==> is_digit(#[trigger] d.drop_last()[t]));
        lemma_seq_val_nonneg(d.drop_last());
    }
}

/// `spec_dec` renders exactly the decimal digits of its argument.
pub proof fn lemma_dec_props(n: int)
    requires
        0 <= n,
    ensures
        spec_dec(n).len() >= 1,
        forall|t: int| 0 <= t < spec_dec(n).len() ==> is_digit(#[trigger] spec_dec(n)[t]),
        seq_val(spec_dec(n)) == n,
    decreases n,
{
    if n < 10 {
        assert(spec_dec(n) =~= seq![(0x30 + n) as u8]);
        assert(spec_dec(n).drop_last() =~= Seq::<u8>::empty());
        assert(seq_val(Seq::<u8>::empty()) == 0);
        assert(spec_dec(n).last() == (0x30 + n) as u8);
        assert(seq_val(spec_dec(n)) == seq_val(spec_dec(n).drop_last()) * 10 + (spec_dec(
            n,
        ).last() - 0x30));
    } else {
        assert(0 <= n / 10 < n) by (nonlinear_arith)
            requires
                n >= 10,
        ;
        lemma_dec_props(n / 10);
        let d = spec_dec(n);
        assert(d =~= spec_dec(n / 10) + seq![(0x30 + n % 10) as u8]);
        assert(d.drop_last() =~= spec_dec(n / 10));
        assert(d.last() == (0x30 + n % 10) as u8);
        assert(0 <= n % 10 < 10) by (nonlinear_arith)
            requires
                n >= 0,
        ;
        assert forall|t: int| 0 <= t < d.len() implies is_digit(#[trigger] d[t]) by {
            if t < d.len() - 1 {
                assert(d[t] == spec_dec(n / 10)[t]);
            } else {
                assert(d[t] == (0x30 + n % 10) as u8);
            }
        };
        assert(seq_val(d) == (n / 10) * 10 + n % 10);
        assert((n / 10) * 10 + n % 10 == n) by (nonlinear_arith)
            requires
                n >= 0,
        ;
    }
}

/// Peeling the most significant digit off a digit string.
pub proof fn lemma_seq_val_front(d: Seq<u8>)
    requires
        d.len() >= 1,
    ensures
        seq_val(d) == (d[0] - 0x30) * pow10((d.len() - 1) as nat) + seq_val(d.drop_first()),
    decreases d.len(),
{
    if d.len() == 1 {
        assert(d.drop_last() =~= Seq::<u8>::empty());
        assert(d.drop_first() =~= Seq::<u8>::empty());
        assert(seq_val(Seq::<u8>::empty()) == 0);
        assert(d.last() == d[0]);
        assert(seq_val(d) == seq_val(d.drop_last()) * 10 + (d.last() - 0x30));
        assert(pow10(0) == 1);
        assert((d[0] - 0x30) * 1 == d[0] - 0x30) by (nonlinear_arith);
    } else {
        let dl = d.drop_last();
        lemma_seq_val_front(dl);
        let a = d[0] - 0x30;
        let p = pow10((dl.len() - 1) as nat);
        let x = seq_val(dl.drop_first());
        let l = d.last() - 0x30;
        assert(dl[0] == d[0]);
        assert(seq_val(dl) == (dl[0] - 0x30) * pow10((dl.len() - 1) as nat) + seq_val(
            dl.drop_first(),
        ));
        assert(seq_val(dl) == a * p + x);
        assert(dl.drop_first() =~= d.drop_first().drop_last());
        assert(seq_val(d) == seq_val(dl) * 10 + l);
        assert(d.drop_first().last() == d.last());
        assert(d.drop_first().len() >= 1);
        assert(seq_val(d.drop_first()) == seq_val(d.drop_first().drop_last()) * 10 + l);
        assert(seq_val(d.drop_first()) == x * 10 + l);
        assert(pow10((d.len() - 1) as nat) == 10 * p);
        assert((a * p + x) * 10 + l == a * (10 * p) + (x * 10 + l)) by (nonlinear_arith);
        assert(seq_val(d) == a * pow10((d.len() - 1) as nat) + seq_val(d.drop_first()));
    }
}

/// Running the digit accumulator over a digit string bounded on the right by
/// a non-digit yields the accumulated value.
pub proof fn lemma_num_body_digits(s: Seq<u8>, i: int, d: Seq<u8>, acc: int)
    requires
        0 <= i,
        i + d.len() <= s.len(),
        s.subrange(i, i + d.len()) == d,
        forall|t: int| 0 <= t < d.len() ==> is_digit(#[trigger] d[t]),
        0 <= acc,
        acc * pow10(d.len() as nat) + seq_val(d) <= 0xffff_ffff_ffff_ffff,
        i + d.len() == s.len() || !is_digit(s[i + d.len()]),
    ensures
        spec_num_body(s, i, acc) == Some((acc * pow10(d.len() as nat) + seq_val(d), i + d.len())),
    decreases d.len(),
{
    if d.len() == 0 {
        assert(pow10(0) == 1);
        assert(i == s.len() || !is_digit(s[i]));
    } else {
        let b = d[0];
        assert(s[i] == s.subrange(i, i + d.len())[0]);
        assert(s[i] == b);
        assert(is_digit(b));
        let rest = d.drop_first();
        let p = pow10(rest.len() as nat);
        lemma_seq_val_front(d);
        let v = acc * 10 + (b - 0x30);
        assert(acc * pow10(d.len() as nat) == acc * 10 * p) by (nonlinear_arith)
            requires
                p == pow10(rest.len() as nat),
                pow10(d.len() as nat) == 10 * pow10((d.len() - 1) as nat),
                rest.len() == d.len() - 1,
        ;
        assert(v * p == acc * 10 * p + (b - 0x30) * p) by (nonlinear_arith)
            requires
                v == acc * 10 + (b - 0x30),
        ;
        assert(v * p + seq_val(rest) == acc * pow10(d.len() as nat) + seq_val(d));
        assert(forall|t: int| 0 <= t < rest.len() ==> is_digit(#[trigger] rest[t]));
        lemma_seq_val_nonneg(rest);
        lemma_pow10_pos(rest.len() as nat);
        assert(v <= v * p) by (nonlinear_arith)
            requires
                v >= 0,
                p >= 1,
        ;
        assert(v <= 0xffff_ffff_ffff_ffff);
        assert(s.subrange(i + 1, i + 1 + rest.len()) =~= rest) by {
            assert(forall|t: int|
                0 <= t < rest.len() ==> #[trigger] s.subrange(i + 1, i + 1 + rest.len())[t]
                    == s.subrange(i, i + d.len())[t + 1]);
        };
        lemma_num_body_digits(s, i + 1, rest, v);
        assert(spec_num_body(s, i, acc) == spec_num_body(s, i + 1, v));
    }
}

/// Parsing inverts unsigned decimal printing.
pub proof fn lemma_parse_u64_of_dec(s: Seq<u8>, i: int, n: int)
    requires
        0 <= n <= 0xffff_ffff_ffff_ffff,
        0 <= i,
        i + spec_dec(n).len() <= s.len(),
        s.subrange(i, i + spec_dec(n).len()) == spec_dec(n),
        i + spec_dec(n).len() == s.len() || !is_digit(s[i + spec_dec(n).len()]),
    ensures
        spec_parse_u64(s, i) == Some((n, i + spec_dec(n).len())),
{
    lemma_dec_props(n);
    let d = spec_dec(n);
    assert(s[i] == s.subrange(i, i + d.len())[0]);
    assert(is_digit(s[i]));
    lemma_num_body_digits(s, i, d, 0);
}

/// Parsing inverts signed decimal printing.
pub proof fn lemma_parse_i64_of_dec(s: Seq<u8>, i: int, n: int)
    requires
        -0x8000_0000_0000_0000 <= n <= 0x7fff_ffff_ffff_ffff,
        0 <= i,
        i + spec_dec_i64(n).len() <= s.len(),
        s.subrange(i, i + spec_dec_i64(n).len()) == spec_dec_i64(n),
        i + spec_dec_i64(n).len() == s.len() || !is_digit(s[i + spec_dec_i64(n).len()]),
    ensures
        spec_parse_i64(s, i) == Some((n, i + spec_dec_i64(n).len())),
{
    if n < 0 {
        let m = spec_dec(-n);
        assert(spec_dec_i64(n) =~= seq![0x2du8] + m);
        assert(s[i] == spec_dec_i64(n)[0]);
        assert(s[i] == 0x2d);
        assert(s.subrange(i + 1, i + 1 + m.len()) =~= m) by {
            assert(forall|t: int|
                0 <= t < m.len() ==> #[trigger] s.subrange(i + 1, i + 1 + m.len())[t]
                    == s.subrange(i, i + spec_dec_i64(n).len())[t + 1]);
        };
        lemma_parse_u64_of_dec(s, i + 1, -n);
    } else {
        lemma_dec_props(n);
        assert(s[i] == spec_dec_i64(n)[0]);
        assert(is_digit(s[i]));
        lemma_parse_u64_of_dec(s, i, n);
    }
}

pub proof fn lemma_hexv_hex_digit(x: int)
    requires
        0 <= x < 16,
    ensures
        spec_hexv(hex_digit(x)) == Some(x as u8),
{
}

proof fn lemma_byte_of(s: Seq<u8>, i: int, ee: Seq<u8>, u: int)
    requires
        0 <= i,
        0 <= u < ee.len(),
        i + ee.len() + 1 <= s.len(),
        s.subrange(i, i + ee.len() + 1) == ee + seq![0x22u8],
    ensures
        s[i + u] == ee[u],
{
    assert(s.subrange(i, i + ee.len() + 1)[u] == s[i + u]);
    assert((ee + seq![0x22u8])[u] == ee[u]);
}

/// Unescaping inverts escaping: the string body parser, run at a position
/// holding the escaped suffix of `d` followed by a closing quote, returns
/// exactly the remaining content bytes.
pub proof fn lemma_string_body_of_escape(s: Seq<u8>, d: Seq<u8>, k: int, i: int, acc: Seq<u8>)
    requires
        0 <= k <= d.len(),
        0 <= i,
        i + spec_escape(d, k).len() + 1 <= s.len(),
        s.subrange(i, i + spec_escape(d, k).len() + 1) == spec_escape(d, k) + seq![0x22u8],
    ensures
        spec_string_body(s, i, acc) == Some(
            (acc + d.skip(k), i + spec_escape(d, k).len() + 1),
        ),
    decreases d.len() - k,
{
    let ee = spec_escape(d, k);
    let whole = ee + seq![0x22u8];
    let sub = s.subrange(i, i + ee.len() + 1);
    if k == d.len() {
        assert(ee.len() == 0);
        assert(s[i] == sub[0]);
        assert(s[i] == 0x22);
        assert(acc + d.skip(k) =~= acc);
    } else {
        let b = d[k];
        let e = esc_byte(b);
        let rest = spec_escape(d, k + 1);
        assert(ee == e + rest);
        let i2 = i + e.len();
        assert(s.subrange(i2, i2 + rest.len() + 1) =~= rest + seq![0x22u8]) by {
            assert forall|t: int|
                0 <= t < rest.len() + 1 implies #[trigger] s.subrange(
                i2,
                i2 + rest.len() + 1,
            )[t] == (rest + seq![0x22u8])[t] by {
                assert(s.subrange(i2, i2 + rest.len() + 1)[t] == s[i2 + t]);
                assert(sub[e.len() + t] == s[i + (e.len() + t)]);
                if t < rest.len() {
                    assert(whole[e.len() + t] == ee[e.len() + t]);
                    assert(ee[e.len() + t] == rest[t]);
                    assert((rest + seq![0x22u8])[t] == rest[t]);
                } else {
                    assert(whole[e.len() + t] == 0x22);
                    assert((rest + seq![0x22u8])[t] == 0x22);
                }
            };
        };
        if b == 0x22 {
            lemma_byte_of(s, i, ee, 0);
            lemma_byte_of(s, i, ee, 1);
            assert(ee[0] == e[0] && ee[1] == e[1]);
            assert(s[i] == 0x5c && s[i + 1] == 0x22);
            lemma_string_body_of_escape(s, d, k + 1, i + 2, acc + seq![b]);
            assert((acc + seq![b]) + d.skip(k + 1) =~= acc + d.skip(k));
        } else if b == 0x5c {
            lemma_byte_of(s, i, ee, 0);
            lemma_byte_of(s, i, ee, 1);
            assert(ee[0] == e[0] && ee[1] == e[1]);
            assert(s[i] == 0x5c && s[i + 1] == 0x5c);
            lemma_string_body_of_escape(s, d, k + 1, i + 2, acc + seq![b]);
            assert((acc + seq![b]) + d.skip(k + 1) =~= acc + d.skip(k));
        } else if b < 0x20 {
            lemma_byte_of(s, i, ee, 0);
            lemma_byte_of(s, i, ee, 1);
            lemma_byte_of(s, i, ee, 2);
            lemma_byte_of(s, i, ee, 3);
            lemma_byte_of(s, i, ee, 4);
            lemma_byte_of(s, i, ee, 5);
            assert(ee[0] == e[0] && ee[1] == e[1] && ee[2] == e[2] && ee[3] == e[3] && ee[4]
                == e[4] && ee[5] == e[5]);
            assert(s[i] == 0x5c && s[i + 1] == 0x75 && s[i + 2] == 0x30 && s[i + 3] == 0x30);
            assert(s[i + 4] == hex_digit(b as int / 16) && s[i + 5] == hex_digit(b as int % 16));
            assert(0 <= b as int / 16 < 16 && 0 <= b as int % 16 < 16) by (nonlinear_arith)
                requires
                    b < 0x20,
            ;
            lemma_hexv_hex_digit(b as int / 16);
            lemma_hexv_hex_digit(b as int % 16);
            let cp = (spec_hexv(s[i + 2]).unwrap() as int) * 4096 + (spec_hexv(
                s[i + 3],
            ).unwrap() as int) * 256 + (spec_hexv(s[i + 4]).unwrap() as int) * 16 + (spec_hexv(
                s[i + 5],
            ).unwrap() as int);
            assert(cp == (b as int / 16) * 16 + (b as int % 16));
            assert(cp == b) by (nonlinear_arith)
                requires
                    cp == (b as int / 16) * 16 + (b as int % 16),
            ;
            assert(utf8_of_cp(cp) =~= seq![b]);
            lemma_string_body_of_escape(s, d, k + 1, i + 6, acc + seq![b]);
            assert((acc + seq![b]) + d.skip(k + 1) =~= acc + d.skip(k));
        } else {
            lemma_byte_of(s, i, ee, 0);
            assert(ee[0] == e[0]);
            assert(s[i] == b);
            assert(b != 0x22 && b != 0x5c && b >= 0x20);
            lemma_string_body_of_escape(s, d, k + 1, i + 1, acc + seq![b]);
            assert((acc + seq![b]) + d.skip(k + 1) =~= acc + d.skip(k));
        }
    }
}

/// Parsing inverts printing for whole string literals.
pub proof fn lemma_parse_string_of_quote(s: Seq<u8>, i: int, d: Seq<u8>)
    requires
        0 <= i,
        i + spec_quote(d).len() <= s.len(),
        s.subrange(i, i + spec_quote(d).len()) == spec_quote(d),
    ensures
        spec_parse_string(s, i) == Some((d, i + spec_quote(d).len())),
{
    let ee = spec_escape(d, 0);
    let q = spec_quote(d);
    let sub = s.subrange(i, i + q.len());
    assert(s[i] == sub[0]);
    assert(q[0] == 0x22);
    assert(s[i] == 0x22);
    assert(s.subrange(i + 1, i + 1 + ee.len() + 1) =~= ee + seq![0x22u8]) by {
        assert forall|t: int|
            0 <= t < ee.len() + 1 implies #[trigger] s.subrange(
            i + 1,
            i + 1 + ee.len() + 1,
        )[t] == (ee + seq![0x22u8])[t] by {
            assert(s.subrange(i + 1, i + 1 + ee.len() + 1)[t] == s[i + 1 + t]);
            assert(sub[1 + t] == s[i + 1 + t]);
            if t < ee.len() {
                assert(q[1 + t] == (seq![0x22u8] + ee)[1 + t]);
                assert((seq![0x22u8] + ee)[1 + t] == ee[t]);
                assert((ee + seq![0x22u8])[t] == ee[t]);
            } else {
                assert(q[1 + t] == 0x22);
                assert((ee + seq![0x22u8])[t] == 0x22);
            }
        };
    };
    lemma_string_body_of_escape(s, d, 0, i + 1, seq![]);
    assert(seq![] + d.skip(0) =~= d);
}

} // verus!
