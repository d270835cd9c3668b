//! The transcript wire format: one JSON object per line.
//!
//! Encoding and parsing are both specified as functions on character
//! sequences; parsing inverts encoding, which is what makes stored
//! transcripts reload exactly.

use vstd::prelude::*;
use crate::ids::{is_hex_char, nibble_char, nibble_val};
use crate::strutil::to_chars;

verus! {

// ---------------------------------------------------------------------------
// String escaping
// ---------------------------------------------------------------------------

/// The character with code `v`, for `v` in `[0, 32)`.
pub open spec fn control_char(v: int) -> char {
    if v == 0 {
        '\u{0}'
    } else if v == 1 {
        '\u{1}'
    } else if v == 2 {
        '\u{2}'
    } else if v == 3 {
        '\u{3}'
    } else if v == 4 {
        '\u{4}'
    } else if v == 5 {
        '\u{5}'
    } else if v == 6 {
        '\u{6}'
    } else if v == 7 {
        '\u{7}'
    } else if v == 8 {
        '\u{8}'
    } else if v == 9 {
        '\u{9}'
    } else if v == 10 {
        '\u{a}'
    } else if v == 11 {
        '\u{b}'
    } else if v == 12 {
        '\u{c}'
    } else if v == 13 {
        '\u{d}'
    } else if v == 14 {
        '\u{e}'
    } else if v == 15 {
        '\u{f}'
    } else if v == 16 {
        '\u{10}'
    } else if v == 17 {
        '\u{11}'
    } else if v == 18 {
        '\u{12}'
    } else if v == 19 {
        '\u{13}'
    } else if v == 20 {
        '\u{14}'
    } else if v == 21 {
        '\u{15}'
    } else if v == 22 {
        '\u{16}'
    } else if v == 23 {
        '\u{17}'
    } else if v == 24 {
        '\u{18}'
    } else if v == 25 {
        '\u{19}'
    } else if v == 26 {
        '\u{1a}'
    } else if v == 27 {
        '\u{1b}'
    } else if v == 28 {
        '\u{1c}'
    } else if v == 29 {
        '\u{1d}'
    } else if v == 30 {
        '\u{1e}'
    } else {
        '\u{1f}'
    }
}

proof fn lemma_control_char_inverse(c: char)
    requires
        (c as u32) < 32,
    ensures
        control_char(c as u32 as int) == c,
{
}

/// How one character is written inside a quoted JSON string.
pub open spec fn esc_char(c: char) -> Seq<char> {
    if c == '"' {
        seq!['\\', '"']
    } else if c == '\\' {
        seq!['\\', '\\']
    } else if (c as u32) < 32 {
        seq!['\\', 'u', '0', '0', nibble_char((c as u32) as int / 16), nibble_char(
            (c as u32) as int % 16,
        )]
    } else {
        seq![c]
    }
}

/// How a whole string is written inside quotes.
pub open spec fn escape(s: Seq<char>) -> Seq<char>
    decreases s.len(),
{
    if s.len() == 0 {
        Seq::empty()
    } else {
        esc_char(s[0]) + escape(s.drop_first())
    }
}

pub proof fn lemma_escape_concat(a: Seq<char>, b: Seq<char>)
    ensures
        escape(a + b) == escape(a) + escape(b),
    decreases a.len(),
{
    if a.len() == 0 {
        assert(a + b =~= b);
        assert(escape(a) + escape(b) =~= escape(b));
    } else {
        assert((a + b).drop_first() =~= a.drop_first() + b);
        lemma_escape_concat(a.drop_first(), b);
        assert((a + b)[0] == a[0]);
        assert(esc_char(a[0]) + (escape(a.drop_first()) + escape(b)) =~= (esc_char(a[0]) + escape(
            a.drop_first(),
        )) + escape(b));
    }
}

/// A quoted string: quote, escaped content, quote.
pub open spec fn enc_quoted(s: Seq<char>) -> Seq<char> {
    seq!['"'] + escape(s) + seq!['"']
}

// ---------------------------------------------------------------------------
// Spec parsers. Each takes the input suffix still to be read and returns the
// parsed value with the unread rest, or `None`.
// ---------------------------------------------------------------------------

/// Reads the body of a quoted string, the opening quote already consumed.
pub open spec fn p_str_body(s: Seq<char>) -> Option<(Seq<char>, Seq<char>)>
    decreases s.len(),
{
    if s.len() == 0 {
        None
    } else if s[0] == '"' {
        Some((Seq::empty(), s.skip(1)))
    } else if s[0] == '\\' {
        if s.len() < 2 {
            None
        } else if s[1] == '"' || s[1] == '\\' {
            match p_str_body(s.skip(2)) {
                Some((v, r)) => Some((seq![s[1]] + v, r)),
                None => None,
            }
        } else if s[1] == 'u' {
            if s.len() < 6 {
                None
            } else if s[2] == '0' && s[3] == '0' && is_hex_char(s[4]) && is_hex_char(s[5])
                && nibble_val(s[4]) * 16 + nibble_val(s[5]) < 32 {
                match p_str_body(s.skip(6)) {
                    Some((v, r)) => Some(
                        (seq![control_char(nibble_val(s[4]) * 16 + nibble_val(s[5]))] + v, r),
                    ),
                    None => None,
                }
            } else {
                None
            }
        } else {
            None
        }
    } else {
        match p_str_body(s.skip(1)) {
            Some((v, r)) => Some((seq![s[0]] + v, r)),
            None => None,
        }
    }
}

/// Reads a quoted string including its opening quote.
pub open spec fn p_quoted(s: Seq<char>) -> Option<(Seq<char>, Seq<char>)> {
    if s.len() > 0 && s[0] == '"' {
        p_str_body(s.skip(1))
    } else {
        None
    }
}

pub proof fn lemma_p_str_body_shrinks(s: Seq<char>)
    ensures
        match p_str_body(s) {
            Some((v, r)) => r.len() < s.len(),
            None => true,
        },
    decreases s.len(),
{
    if s.len() == 0 {
    } else if s[0] == '"' {
    } else if s[0] == '\\' {
        if s.len() >= 2 && (s[1] == '"' || s[1] == '\\') {
            lemma_p_str_body_shrinks(s.skip(2));
        } else if s.len() >= 6 && s[1] == 'u' {
            lemma_p_str_body_shrinks(s.skip(6));
        }
    } else {
        lemma_p_str_body_shrinks(s.skip(1));
    }
}

/// Parsing inverts escaping: the body parser consumes the escaped text and
/// the closing quote and returns the original string.
pub proof fn lemma_str_body_round_trip(v: Seq<char>, rest: Seq<char>)
    ensures
        p_str_body(escape(v) + seq!['"'] + rest) == Some((v, rest)),
    decreases v.len(),
{
    let s = escape(v) + seq!['"'] + rest;
    if v.len() == 0 {
        assert(s =~= seq!['"'] + rest);
        assert(s[0] == '"');
        assert(s.skip(1) =~= rest);
    } else {
        let c = v[0];
        let tail = v.drop_first();
        assert(escape(v) == esc_char(c) + escape(tail));
        lemma_str_body_round_trip(tail, rest);
        let srec = escape(tail) + seq!['"'] + rest;
        if c == '"' {
            assert(s =~= seq!['\\', '"'] + srec);
            assert(s[0] == '\\' && s[1] == '"');
            assert(s.skip(2) =~= srec);
            assert(seq![s[1]] + tail =~= v);
        } else if c == '\\' {
            assert(s =~= seq!['\\', '\\'] + srec);
            assert(s[0] == '\\' && s[1] == '\\');
            assert(s.skip(2) =~= srec);
            assert(seq![s[1]] + tail =~= v);
        } else if (c as u32) < 32 {
            let code = (c as u32) as int;
            assert(s =~= seq!['\\', 'u', '0', '0', nibble_char(code / 16), nibble_char(code % 16)]
                + srec);
            assert(s[0] == '\\' && s[1] == 'u' && s[2] == '0' && s[3] == '0');
            assert(s[4] == nibble_char(code / 16) && s[5] == nibble_char(code % 16));
            assert(0 <= code < 32);
            assert(0 <= code / 16 < 2 && 0 <= code % 16 < 16);
            assert(nibble_val(nibble_char(code / 16)) == code / 16);
            assert(nibble_val(nibble_char(code % 16)) == code % 16);
            assert(nibble_val(s[4]) * 16 + nibble_val(s[5]) == code) by {
                vstd::arithmetic::div_mod::lemma_fundamental_div_mod(code, 16);
            }
            assert(s.skip(6) =~= srec);
            lemma_control_char_inverse(c);
            assert(seq![control_char(code)] + tail =~= v);
        } else {
            assert(s =~= seq![c] + srec);
            assert(s[0] == c);
            assert(s.skip(1) =~= srec);
            assert(seq![s[0]] + tail =~= v);
        }
    }
}

pub proof fn lemma_quoted_round_trip(v: Seq<char>, rest: Seq<char>)
    ensures
        p_quoted(enc_quoted(v) + rest) == Some((v, rest)),
{
    let s = enc_quoted(v) + rest;
    assert(s[0] == '"');
    assert(s.skip(1) =~= escape(v) + seq!['"'] + rest);
    lemma_str_body_round_trip(v, rest);
}

// ---------------------------------------------------------------------------
// Executable escaping and string parsing
// ---------------------------------------------------------------------------

/// Appends the characters of `s` to `out`.
pub(crate) fn push_str(out: &mut Vec<char>, s: &str)
    ensures
        final(out)@ == old(out)@ + s@,
{
    let cs = to_chars(s);
    let n = cs.len();
    let mut i: usize = 0;
    while i < n
        invariant
            n == cs.len(),
            cs@ == s@,
            i <= n,
            out@ == old(out)@ + s@.take(i as int),
        decreases n - i,
    {
        out.push(cs[i]);
        i += 1;
        proof {
            assert(old(out)@ + s@.take(i as int) =~= (old(out)@ + s@.take(i as int - 1)).push(
                s@[i as int - 1],
            ));
        }
    }
    proof {
        assert(old(out)@ + s@.take(n as int) =~= old(out)@ + s@);
    }
}

/// Appends the escaped form of `s` to `out`.
pub(crate) fn push_escaped(out: &mut Vec<char>, s: &str)
    ensures
        final(out)@ == old(out)@ + escape(s@),
{
    let cs = to_chars(s);
    let n = cs.len();
    let mut i: usize = 0;
    while i < n
        invariant
            n == cs.len(),
            cs@ == s@,
            i <= n,
            out@ == old(out)@ + escape(s@.take(i as int)),
        decreases n - i,
    {
        let c = cs[i];
        if c == '"' {
            out.push('\\');
            out.push('"');
        } else if c == '\\' {
            out.push('\\');
            out.push('\\');
        } else {
            let code: u32 = c as u32;
            if code < 32 {
                out.push('\\');
                out.push('u');
                out.push('0');
                out.push('0');
                out.push(crate::ids::hex_char((code / 16) as u8));
                out.push(crate::ids::hex_char((code % 16) as u8));
            } else {
                out.push(c);
            }
        }
        i += 1;
        proof {
            lemma_escape_concat(s@.take(i as int - 1), seq![s@[i as int - 1]]);
            assert(s@.take(i as int - 1) + seq![s@[i as int - 1]] =~= s@.take(i as int));
            assert(seq![s@[i as int - 1]].drop_first() =~= Seq::<char>::empty());
            assert(escape(seq![s@[i as int - 1]]) =~= esc_char(s@[i as int - 1]) + escape(
                Seq::<char>::empty(),
            ));
            assert(escape(seq![s@[i as int - 1]]) =~= esc_char(s@[i as int - 1]));
            assert(out@ =~= old(out)@ + escape(s@.take(i as int)));
        }
    }
    proof {
        assert(s@.take(n as int) =~= s@);
    }
}

/// Appends the quoted form of `s` to `out`.
pub(crate) fn push_quoted(out: &mut Vec<char>, s: &str)
    ensures
        final(out)@ == old(out)@ + enc_quoted(s@),
{
    out.push('"');
    push_escaped(out, s);
    out.push('"');
    proof {
        assert(out@ =~= old(out)@ + enc_quoted(s@));
    }
}

/// Reads a quoted string starting at `pos`; on success returns its unescaped
/// content and the position just past the closing quote.
pub(crate) fn parse_quoted(chars: &Vec<char>, pos: usize) -> (r: Option<(Vec<char>, usize)>)
    requires
        pos <= chars@.len(),
    ensures
        match r {
            Some((v, p)) => {
                &&& pos <= p <= chars@.len()
                &&& p_quoted(chars@.skip(pos as int)) == Some((v@, chars@.skip(p as int)))
            },
            None => p_quoted(chars@.skip(pos as int)) is None,
        },
{
    let n = chars.len();
    if pos >= n || chars[pos] != '"' {
        return None;
    }
    let ghost whole = chars@.skip(pos as int);
    proof {
        assert(whole[0] == '"');
        assert(whole.skip(1) =~= chars@.skip(pos as int + 1));
    }
    let mut out: Vec<char> = Vec::new();
    let mut cur: usize = pos + 1;
    loop
        invariant
            pos + 1 <= cur <= n,
            n == chars@.len(),
            p_quoted(chars@.skip(pos as int)) == ({
                match p_str_body(chars@.skip(cur as int)) {
                    Some((v, r)) => Some((out@ + v, r)),
                    None => None,
                }
            }),
        decreases n - cur,
    {
        if cur >= n {
            assert(chars@.skip(cur as int) =~= Seq::<char>::empty());
            return None;
        }
        let c = chars[cur];
        let ghost s = chars@.skip(cur as int);
        proof {
            assert(s[0] == c);
        }
        if c == '"' {
            proof {
                assert(s.skip(1) =~= chars@.skip(cur as int + 1));
                assert(out@ + Seq::<char>::empty() =~= out@);
            }
            return Some((out, cur + 1));
        } else if c == '\\' {
            if cur + 1 >= n {
                assert(s.len() < 2);
                return None;
            }
            let e = chars[cur + 1];
            proof {
                assert(s[1] == e);
            }
            if e == '"' || e == '\\' {
                proof {
                    assert(s.skip(2) =~= chars@.skip(cur as int + 2));
                }
                let ghost prev = out@;
                out.push(e);
                cur = cur + 2;
                proof {
                    assert forall|v: Seq<char>| prev + (seq![e] + v) =~= out@ + v by {}
                }
            } else if e == 'u' {
                if n - cur < 6 {
                    assert(s.len() < 6);
                    return None;
                }
                let h0 = chars[cur + 2];
                let h1 = chars[cur + 3];
                let h2 = chars[cur + 4];
                let h3 = chars[cur + 5];
                proof {
                    assert(s[2] == h0 && s[3] == h1 && s[4] == h2 && s[5] == h3);
                }
                if h0 != '0' || h1 != '0' {
                    return None;
                }
                let d2 = match crate::ids::hex_digit_val(h2) {
                    Some(d) => d,
                    None => {
                        return None;
                    },
                };
                let d3 = match crate::ids::hex_digit_val(h3) {
                    Some(d) => d,
                    None => {
                        return None;
                    },
                };
                let code: u32 = (d2 as u32) * 16 + (d3 as u32);
                if code >= 32 {
                    return None;
                }
                let decoded = control_char_exec(code);
                proof {
                    assert(s.skip(6) =~= chars@.skip(cur as int + 6));
                }
                let ghost prev = out@;
                out.push(decoded);
                cur = cur + 6;
                proof {
                    assert forall|v: Seq<char>| prev + (seq![decoded] + v) =~= out@ + v by {}
                }
            } else {
                return None;
            }
        } else {
            proof {
                assert(s.skip(1) =~= chars@.skip(cur as int + 1));
            }
            let ghost prev = out@;
            out.push(c);
            cur = cur + 1;
            proof {
                assert forall|v: Seq<char>| prev + (seq![c] + v) =~= out@ + v by {}
            }
        }
    }
}

/// The character with code `code`.
fn control_char_exec(code: u32) -> (r: char)
    requires
        code < 32,
    ensures
        r == control_char(code as int),
{
    match code {
        0 => '\u{0}',
        1 => '\u{1}',
        2 => '\u{2}',
        3 => '\u{3}',
        4 => '\u{4}',
        5 => '\u{5}',
        6 => '\u{6}',
        7 => '\u{7}',
        8 => '\u{8}',
        9 => '\u{9}',
        10 => '\u{a}',
        11 => '\u{b}',
        12 => '\u{c}',
        13 => '\u{d}',
        14 => '\u{e}',
        15 => '\u{f}',
        16 => '\u{10}',
        17 => '\u{11}',
        18 => '\u{12}',
        19 => '\u{13}',
        20 => '\u{14}',
        21 => '\u{15}',
        22 => '\u{16}',
        23 => '\u{17}',
        24 => '\u{18}',
        25 => '\u{19}',
        26 => '\u{1a}',
        27 => '\u{1b}',
        28 => '\u{1c}',
        29 => '\u{1d}',
        30 => '\u{1e}',
        _ => '\u{1f}',
    }
}

// ---------------------------------------------------------------------------
// Decimal integers
// ---------------------------------------------------------------------------

/// Whether `c` is a decimal digit.
pub open spec fn is_digit(c: char) -> bool {
    0 <= nibble_val(c) <= 9
}

/// The decimal digits of `n`, most significant first, no leading zeros.
pub open spec fn dec_digits(n: nat) -> Seq<char>
    decreases n,
{
    if n < 10 {
        seq![nibble_char(n as int)]
    } else {
        dec_digits((n / 10) as nat) + seq![nibble_char((n % 10) as int)]
    }
}

/// How a signed integer is written.
pub open spec fn enc_i64(v: int) -> Seq<char> {
    if v < 0 {
        seq!['-'] + dec_digits((-v) as nat)
    } else {
        dec_digits(v as nat)
    }
}

/// The length of the longest digit prefix of `s`.
pub open spec fn digit_prefix_len(s: Seq<char>) -> int
    decreases s.len(),
{
    if s.len() == 0 || !is_digit(s[0]) {
        0
    } else {
        1 + digit_prefix_len(s.drop_first())
    }
}

/// The value of a digit string, most significant first.
pub open spec fn dec_val(d: Seq<char>) -> int
    decreases d.len(),
{
    if d.len() == 0 {
        0
    } else {
        dec_val(d.drop_last()) * 10 + nibble_val(d.last())
    }
}

/// Reads an unsigned decimal number: the longest digit prefix.
pub open spec fn p_nat(s: Seq<char>) -> Option<(int, Seq<char>)> {
    let k = digit_prefix_len(s);
    if k == 0 {
        None
    } else {
        Some((dec_val(s.take(k)), s.skip(k)))
    }
}

/// Reads a signed decimal number.
pub open spec fn p_int(s: Seq<char>) -> Option<(int, Seq<char>)> {
    if s.len() > 0 && s[0] == '-' {
        match p_nat(s.skip(1)) {
            Some((n, r)) => Some((-n, r)),
            None => None,
        }
    } else {
        p_nat(s)
    }
}

pub proof fn lemma_digit_prefix_len_bounds(s: Seq<char>)
    ensures
        0 <= digit_prefix_len(s) <= s.len(),
    decreases s.len(),
{
    if s.len() > 0 && is_digit(s[0]) {
        lemma_digit_prefix_len_bounds(s.drop_first());
    }
}

proof fn lemma_dec_digits_shape(n: nat)
    ensures
        dec_digits(n).len() >= 1,
        forall|k: int| 0 <= k < dec_digits(n).len() ==> is_digit(#[trigger] dec_digits(n)[k]),
    decreases n,
{
    if n < 10 {
        assert(is_digit(nibble_char(n as int)));
    } else {
        lemma_dec_digits_shape((n / 10) as nat);
        assert(is_digit(nibble_char((n % 10) as int)));
        assert forall|k: int| 0 <= k < dec_digits(n).len() implies is_digit(
            #[trigger] dec_digits(n)[k],
        ) by {
            if k < dec_digits((n / 10) as nat).len() {
                assert(dec_digits(n)[k] == dec_digits((n / 10) as nat)[k]);
            } else {
                assert(dec_digits(n)[k] == nibble_char((n % 10) as int));
            }
        }
    }
}

/// The digit prefix of a digit string followed by a non-digit is the string.
proof fn lemma_digit_prefix_of_digits(d: Seq<char>, rest: Seq<char>)
    requires
        forall|k: int| 0 <= k < d.len() ==> is_digit(#[trigger] d[k]),
        rest.len() == 0 || !is_digit(rest[0]),
    ensures
        digit_prefix_len(d + rest) == d.len(),
    decreases d.len(),
{
    if d.len() == 0 {
        assert(d + rest =~= rest);
    } else {
        assert((d + rest)[0] == d[0]);
        assert((d + rest).drop_first() =~= d.drop_first() + rest);
        assert(forall|k: int|
            0 <= k < d.drop_first().len() ==> is_digit(#[trigger] d.drop_first()[k]));
        lemma_digit_prefix_of_digits(d.drop_first(), rest);
    }
}

proof fn lemma_dec_val_of_digits(n: nat)
    ensures
        dec_val(dec_digits(n)) == n,
    decreases n,
{
    if n < 10 {
        let d = seq![nibble_char(n as int)];
        assert(dec_digits(n) == d);
        assert(d.drop_last() =~= Seq::<char>::empty());
        assert(d.last() == nibble_char(n as int));
        assert(dec_val(d) == dec_val(d.drop_last()) * 10 + nibble_val(d.last()));
        assert(dec_val(d.drop_last()) == 0);
        assert(nibble_val(nibble_char(n as int)) == n);
    } else {
        let pre = dec_digits((n / 10) as nat);
        let c = nibble_char((n % 10) as int);
        assert((pre + seq![c]).drop_last() =~= pre);
        assert((pre + seq![c]).last() == c);
        lemma_dec_val_of_digits((n / 10) as nat);
        assert(nibble_val(c) == n % 10);
        vstd::arithmetic::div_mod::lemma_fundamental_div_mod(n as int, 10);
    }
}

pub proof fn lemma_dec_val_nonneg(d: Seq<char>)
    requires
        forall|k: int| 0 <= k < d.len() ==> is_digit(#[trigger] d[k]),
    ensures
        dec_val(d) >= 0,
    decreases d.len(),
{
    if d.len() > 0 {
        assert(forall|k: int|
            0 <= k < d.drop_last().len() ==> is_digit(#[trigger] d.drop_last()[k]));
        lemma_dec_val_nonneg(d.drop_last());
    }
}

/// Extending a digit string never lowers its value.
pub proof fn lemma_dec_val_prefix(d: Seq<char>, j: int)
    requires
        0 <= j <= d.len(),
        forall|k: int| 0 <= k < d.len() ==> is_digit(#[trigger] d[k]),
    ensures
        dec_val(d.take(j)) <= dec_val(d),
    decreases d.len() - j,
{
    if j < d.len() {
        lemma_dec_val_prefix(d, j + 1);
        assert(d.take(j + 1).drop_last() =~= d.take(j));
        assert(d.take(j + 1).last() == d[j]);
        assert(forall|k: int| 0 <= k < d.take(j).len() ==> is_digit(#[trigger] d.take(j)[k]));
        lemma_dec_val_nonneg(d.take(j));
        assert(dec_val(d.take(j + 1)) == dec_val(d.take(j)) * 10 + nibble_val(d[j]));
    } else {
        assert(d.take(j) =~= d);
    }
}

/// Parsing inverts writing for unsigned numbers, provided the text that
/// follows does not begin with a digit.
pub proof fn lemma_nat_round_trip(n: nat, rest: Seq<char>)
    requires
        rest.len() == 0 || !is_digit(rest[0]),
    ensures
        p_nat(dec_digits(n) + rest) == Some(((n as int), rest)),
{
    let d = dec_digits(n);
    lemma_dec_digits_shape(n);
    lemma_digit_prefix_of_digits(d, rest);
    assert((d + rest).take(d.len() as int) =~= d);
    assert((d + rest).skip(d.len() as int) =~= rest);
    lemma_dec_val_of_digits(n);
}

/// Parsing inverts writing for signed numbers.
pub proof fn lemma_i64_round_trip(v: int, rest: Seq<char>)
    requires
        rest.len() == 0 || !is_digit(rest[0]),
    ensures
        p_int(enc_i64(v) + rest) == Some((v, rest)),
{
    if v < 0 {
        let d = dec_digits((-v) as nat);
        let s = enc_i64(v) + rest;
        assert(s =~= seq!['-'] + (d + rest));
        assert(s[0] == '-');
        assert(!is_digit('-'));
        assert(s.skip(1) =~= d + rest);
        lemma_nat_round_trip((-v) as nat, rest);
    } else {
        let d = dec_digits(v as nat);
        lemma_dec_digits_shape(v as nat);
        assert((enc_i64(v) + rest)[0] == d[0]);
        assert(is_digit(d[0]));
        assert(d[0] != '-');
        lemma_nat_round_trip(v as nat, rest);
    }
}

// ---------------------------------------------------------------------------
// Literals and keywords
// ---------------------------------------------------------------------------

/// Reads the exact literal `lit`.
pub open spec fn p_lit(s: Seq<char>, lit: Seq<char>) -> Option<Seq<char>> {
    if lit.len() <= s.len() && s.take(lit.len() as int) == lit {
        Some(s.skip(lit.len() as int))
    } else {
        None
    }
}

pub proof fn lemma_lit_round_trip(lit: Seq<char>, rest: Seq<char>)
    ensures
        p_lit(lit + rest, lit) == Some(rest),
{
    assert((lit + rest).take(lit.len() as int) =~= lit);
    assert((lit + rest).skip(lit.len() as int) =~= rest);
}

/// The quoted text of a message role.
pub open spec fn role_quoted(role: crate::state::MessageRole) -> Seq<char> {
    match role {
        crate::state::MessageRole::System => "\"system\""@,
        crate::state::MessageRole::User => "\"user\""@,
        crate::state::MessageRole::Assistant => "\"assistant\""@,
        crate::state::MessageRole::Tool => "\"tool\""@,
    }
}

/// Reads a quoted message role.
pub open spec fn p_role(s: Seq<char>) -> Option<(crate::state::MessageRole, Seq<char>)> {
    if p_lit(s, role_quoted(crate::state::MessageRole::System)) is Some {
        Some((crate::state::MessageRole::System, p_lit(s, role_quoted(crate::state::MessageRole::System))->Some_0))
    } else if p_lit(s, role_quoted(crate::state::MessageRole::User)) is Some {
        Some((crate::state::MessageRole::User, p_lit(s, role_quoted(crate::state::MessageRole::User))->Some_0))
    } else if p_lit(s, role_quoted(crate::state::MessageRole::Assistant)) is Some {
        Some((crate::state::MessageRole::Assistant, p_lit(s, role_quoted(crate::state::MessageRole::Assistant))->Some_0))
    } else if p_lit(s, role_quoted(crate::state::MessageRole::Tool)) is Some {
        Some((crate::state::MessageRole::Tool, p_lit(s, role_quoted(crate::state::MessageRole::Tool))->Some_0))
    } else {
        None
    }
}

pub proof fn lemma_role_round_trip(role: crate::state::MessageRole, rest: Seq<char>)
    ensures
        p_role(role_quoted(role) + rest) == Some((role, rest)),
{
    reveal_strlit("\"system\"");
    reveal_strlit("\"user\"");
    reveal_strlit("\"assistant\"");
    reveal_strlit("\"tool\"");
    lemma_lit_round_trip(role_quoted(role), rest);
    let s = role_quoted(role) + rest;
    match role {
        crate::state::MessageRole::System => {},
        crate::state::MessageRole::User => {
            assert(p_lit(s, role_quoted(crate::state::MessageRole::System)) is None) by {
                if p_lit(s, role_quoted(crate::state::MessageRole::System)) is Some {
                    assert(s.take(8)[1] == s[1]);
                }
            }
        },
        crate::state::MessageRole::Assistant => {
            assert(p_lit(s, role_quoted(crate::state::MessageRole::System)) is None) by {
                if p_lit(s, role_quoted(crate::state::MessageRole::System)) is Some {
                    assert(s.take(8)[1] == s[1]);
                }
            }
            assert(p_lit(s, role_quoted(crate::state::MessageRole::User)) is None) by {
                if p_lit(s, role_quoted(crate::state::MessageRole::User)) is Some {
                    assert(s.take(6)[1] == s[1]);
                }
            }
        },
        crate::state::MessageRole::Tool => {
            assert(p_lit(s, role_quoted(crate::state::MessageRole::System)) is None) by {
                if p_lit(s, role_quoted(crate::state::MessageRole::System)) is Some {
                    assert(s.take(8)[1] == s[1]);
                }
            }
            assert(p_lit(s, role_quoted(crate::state::MessageRole::User)) is None) by {
                if p_lit(s, role_quoted(crate::state::MessageRole::User)) is Some {
                    assert(s.take(6)[1] == s[1]);
                }
            }
            assert(p_lit(s, role_quoted(crate::state::MessageRole::Assistant)) is None) by {
                if p_lit(s, role_quoted(crate::state::MessageRole::Assistant)) is Some {
                    assert(s.take(11)[1] == s[1]);
                }
            }
        },
    }
}

/// The quoted text of a tool-call status.
pub open spec fn status_quoted(st: crate::state::ToolCallStatus) -> Seq<char> {
    match st {
        crate::state::ToolCallStatus::Pending => "\"pending\""@,
        crate::state::ToolCallStatus::Completed => "\"completed\""@,
        crate::state::ToolCallStatus::Failed => "\"failed\""@,
    }
}

/// Reads a quoted tool-call status.
pub open spec fn p_status(s: Seq<char>) -> Option<(crate::state::ToolCallStatus, Seq<char>)> {
    if p_lit(s, status_quoted(crate::state::ToolCallStatus::Pending)) is Some {
        Some((crate::state::ToolCallStatus::Pending, p_lit(s, status_quoted(crate::state::ToolCallStatus::Pending))->Some_0))
    } else if p_lit(s, status_quoted(crate::state::ToolCallStatus::Completed)) is Some {
        Some((crate::state::ToolCallStatus::Completed, p_lit(s, status_quoted(crate::state::ToolCallStatus::Completed))->Some_0))
    } else if p_lit(s, status_quoted(crate::state::ToolCallStatus::Failed)) is Some {
        Some((crate::state::ToolCallStatus::Failed, p_lit(s, status_quoted(crate::state::ToolCallStatus::Failed))->Some_0))
    } else {
        None
    }
}

pub proof fn lemma_status_round_trip(st: crate::state::ToolCallStatus, rest: Seq<char>)
    ensures
        p_status(status_quoted(st) + rest) == Some((st, rest)),
{
    reveal_strlit("\"pending\"");
    reveal_strlit("\"completed\"");
    reveal_strlit("\"failed\"");
    lemma_lit_round_trip(status_quoted(st), rest);
    let s = status_quoted(st) + rest;
    match st {
        crate::state::ToolCallStatus::Pending => {},
        crate::state::ToolCallStatus::Completed => {
            assert(p_lit(s, status_quoted(crate::state::ToolCallStatus::Pending)) is None) by {
                if p_lit(s, status_quoted(crate::state::ToolCallStatus::Pending)) is Some {
                    assert(s.take(9)[1] == s[1]);
                }
            }
        },
        crate::state::ToolCallStatus::Failed => {
            assert(p_lit(s, status_quoted(crate::state::ToolCallStatus::Pending)) is None) by {
                if p_lit(s, status_quoted(crate::state::ToolCallStatus::Pending)) is Some {
                    assert(s.take(9)[1] == s[1]);
                }
            }
            assert(p_lit(s, status_quoted(crate::state::ToolCallStatus::Completed)) is None) by {
                if p_lit(s, status_quoted(crate::state::ToolCallStatus::Completed)) is Some {
                    assert(s.take(11)[1] == s[1]);
                }
            }
        },
    }
}

/// How an optional string is written: `null` or a quoted string.
pub open spec fn enc_opt_str(o: Option<Seq<char>>) -> Seq<char> {
    match o {
        None => "null"@,
        Some(v) => enc_quoted(v),
    }
}

/// Reads an optional string.
pub open spec fn p_opt_str(s: Seq<char>) -> Option<(Option<Seq<char>>, Seq<char>)> {
    if s.len() > 0 && s[0] == '"' {
        match p_quoted(s) {
            Some((v, r)) => Some((Some(v), r)),
            None => None,
        }
    } else {
        match p_lit(s, "null"@) {
            Some(r) => Some((None, r)),
            None => None,
        }
    }
}

pub proof fn lemma_opt_str_round_trip(o: Option<Seq<char>>, rest: Seq<char>)
    ensures
        p_opt_str(enc_opt_str(o) + rest) == Some((o, rest)),
{
    reveal_strlit("null");
    match o {
        None => {
            let s = "null"@ + rest;
            assert(s[0] == 'n');
            lemma_lit_round_trip("null"@, rest);
        },
        Some(v) => {
            let s = enc_quoted(v) + rest;
            assert(s[0] == '"');
            lemma_quoted_round_trip(v, rest);
        },
    }
}

// ---------------------------------------------------------------------------
// Identifiers in the stream
// ---------------------------------------------------------------------------

/// Whether `t` is the canonical text of some identifier.
pub open spec fn is_uuid_seq(t: Seq<char>) -> bool {
    exists|id: u128| crate::ids::uuid_text(id) == t
}

/// The identifier a canonical text denotes.
pub open spec fn uuid_of(t: Seq<char>) -> u128 {
    choose|id: u128| crate::ids::uuid_text(id) == t
}

/// Reads the 36-character text of an identifier.
pub open spec fn p_uuid(s: Seq<char>) -> Option<(u128, Seq<char>)> {
    if s.len() >= 36 && is_uuid_seq(s.take(36)) {
        Some((uuid_of(s.take(36)), s.skip(36)))
    } else {
        None
    }
}

pub proof fn lemma_uuid_round_trip(id: u128, rest: Seq<char>)
    ensures
        p_uuid(crate::ids::uuid_text(id) + rest) == Some((id, rest)),
{
    let s = crate::ids::uuid_text(id) + rest;
    crate::ids::lemma_uuid_text_shape();
    assert(s.take(36) =~= crate::ids::uuid_text(id));
    assert(s.skip(36) =~= rest);
    assert(is_uuid_seq(s.take(36)));
    crate::ids::lemma_id_round_trip(id);
    assert(crate::ids::uuid_text(uuid_of(s.take(36))) == crate::ids::uuid_text(id));
}

// ---------------------------------------------------------------------------
// Executable counterparts
// ---------------------------------------------------------------------------

/// Appends the characters of `src` to `out`.
pub(crate) fn push_chars(out: &mut Vec<char>, src: &Vec<char>)
    ensures
        final(out)@ == old(out)@ + src@,
{
    let n = src.len();
    let mut i: usize = 0;
    while i < n
        invariant
            n == src@.len(),
            i <= n,
            out@ == old(out)@ + src@.take(i as int),
        decreases n - i,
    {
        out.push(src[i]);
        i += 1;
        proof {
            assert(old(out)@ + src@.take(i as int) =~= (old(out)@ + src@.take(i as int - 1)).push(
                src@[i as int - 1],
            ));
        }
    }
    proof {
        assert(old(out)@ + src@.take(n as int) =~= old(out)@ + src@);
    }
}

/// Appends the decimal digits of `n0` to `out`.
pub(crate) fn push_dec(out: &mut Vec<char>, n0: u64)
    ensures
        final(out)@ == old(out)@ + dec_digits(n0 as nat),
{
    let mut digs: Vec<char> = Vec::new();
    let mut v: u64 = n0;
    let d0: u8 = (v % 10) as u8;
    digs.push(crate::ids::hex_char(d0));
    v = v / 10;
    proof {
        if v == 0 {
            assert(digs@ =~= seq![nibble_char((n0 % 10) as int)]);
            assert(n0 < 10 && n0 % 10 == n0);
        } else {
            assert(digs@ =~= seq![nibble_char((n0 % 10) as int)]);
            assert(dec_digits(n0 as nat) == dec_digits((n0 / 10) as nat) + digs@);
        }
    }
    while v > 0
        invariant
            dec_digits(n0 as nat) == (if v == 0 {
                digs@
            } else {
                dec_digits(v as nat) + digs@
            }),
        decreases v,
    {
        let d: u8 = (v % 10) as u8;
        let ghost prev = digs@;
        let ghost pv = v as nat;
        digs.insert(0, crate::ids::hex_char(d));
        v = v / 10;
        proof {
            assert(digs@ =~= seq![nibble_char((pv % 10) as int)] + prev);
            if v == 0 {
                assert(pv < 10);
                assert(dec_digits(pv) =~= seq![nibble_char((pv % 10) as int)]);
                assert(dec_digits(pv) + prev =~= digs@);
            } else {
                assert(pv >= 10);
                assert(dec_digits(pv) == dec_digits((pv / 10) as nat) + seq![nibble_char(
                    (pv % 10) as int,
                )]);
                assert(dec_digits(pv) + prev =~= dec_digits((pv / 10) as nat) + digs@);
            }
        }
    }
    push_chars(out, &digs);
}

/// Appends the signed decimal form of `v` to `out`.
pub(crate) fn push_i64(out: &mut Vec<char>, v: i64)
    ensures
        final(out)@ == old(out)@ + enc_i64(v as int),
{
    if v < 0 {
        out.push('-');
        let mag: u64 = (-(v as i128)) as u64;
        proof {
            assert(mag as int == -(v as int));
        }
        let ghost mid = out@;
        push_dec(out, mag);
        proof {
            assert(out@ =~= old(out)@ + enc_i64(v as int));
        }
    } else {
        push_dec(out, v as u64);
    }
}

/// Reads the exact literal `lit` at `pos`.
pub(crate) fn expect_lit(chars: &Vec<char>, pos: usize, lit: &str) -> (r: Option<usize>)
    requires
        pos <= chars@.len(),
    ensures
        match r {
            Some(p) => {
                &&& pos <= p <= chars@.len()
                &&& p_lit(chars@.skip(pos as int), lit@) == Some(chars@.skip(p as int))
            },
            None => p_lit(chars@.skip(pos as int), lit@) is None,
        },
{
    let lc = to_chars(lit);
    let m = lc.len();
    let n = chars.len();
    if n - pos < m {
        proof {
            assert(chars@.skip(pos as int).len() < lit@.len());
        }
        return None;
    }
    let mut i: usize = 0;
    while i < m
        invariant
            m == lit@.len(),
            lc@ == lit@,
            n == chars@.len(),
            pos + m <= n,
            i <= m,
            forall|j: int| 0 <= j < i ==> chars@[pos + j] == lit@[j],
        decreases m - i,
    {
        if chars[pos + i] != lc[i] {
            proof {
                assert(chars@.skip(pos as int).take(lit@.len() as int)[i as int] == chars@[pos
                    + i as int]);
            }
            return None;
        }
        i += 1;
    }
    proof {
        assert(chars@.skip(pos as int).take(lit@.len() as int) =~= lit@);
        assert(chars@.skip(pos as int).skip(lit@.len() as int) =~= chars@.skip(
            pos as int + m as int,
        ));
    }
    Some(pos + m)
}

/// Reads an identifier at `pos`.
pub(crate) fn parse_uuid(chars: &Vec<char>, pos: usize) -> (r: Option<(u128, usize)>)
    requires
        pos <= chars@.len(),
    ensures
        match r {
            Some((id, p)) => {
                &&& pos <= p <= chars@.len()
                &&& p_uuid(chars@.skip(pos as int)) == Some((id, chars@.skip(p as int)))
            },
            None => p_uuid(chars@.skip(pos as int)) is None,
        },
{
    let n = chars.len();
    if n - pos < 36 {
        return None;
    }
    let mut sub: Vec<char> = Vec::new();
    let mut i: usize = 0;
    while i < 36
        invariant
            n == chars@.len(),
            pos + 36 <= n,
            i <= 36,
            sub@ == chars@.subrange(pos as int, pos as int + i as int),
        decreases 36 - i,
    {
        sub.push(chars[pos + i]);
        i += 1;
        proof {
            assert(chars@.subrange(pos as int, pos as int + i as int) =~= chars@.subrange(
                pos as int,
                pos as int + i as int - 1,
            ).push(chars@[pos + i as int - 1]));
        }
    }
    let text = crate::strutil::from_chars(sub.as_slice());
    proof {
        assert(text@ =~= chars@.skip(pos as int).take(36));
    }
    match crate::ids::parse_id(text.as_str()) {
        Some(id) => {
            proof {
                assert(is_uuid_seq(chars@.skip(pos as int).take(36)));
                crate::ids::lemma_id_round_trip(id);
                assert(chars@.skip(pos as int).skip(36) =~= chars@.skip(pos as int + 36));
            }
            Some((id, pos + 36))
        },
        None => {
            proof {
                assert(!is_uuid_seq(chars@.skip(pos as int).take(36)));
            }
            None
        },
    }
}

/// Reads a signed 64-bit number at `pos`. Fails when there is no number or
/// when the number does not fit the type.
#[verifier::rlimit(60)]
pub(crate) fn parse_i64(chars: &Vec<char>, pos: usize) -> (r: Option<(i64, usize)>)
    requires
        pos <= chars@.len(),
    ensures
        match r {
            Some((v, p)) => {
                &&& pos <= p <= chars@.len()
                &&& p_int(chars@.skip(pos as int)) == Some((v as int, chars@.skip(p as int)))
            },
            None => match p_int(chars@.skip(pos as int)) {
                Some((v, _)) => !(i64::MIN <= v <= i64::MAX),
                None => true,
            },
        },
{
    let n = chars.len();
    let neg = pos < n && chars[pos] == '-';
    proof {
        if neg {
            assert(pos < n && chars@[pos as int] == '-');
        }
    }
    let start = if neg {
        pos + 1
    } else {
        pos
    };
    let ghost s = chars@.skip(pos as int);
    let ghost body = chars@.skip(start as int);
    proof {
        if neg {
            assert(s[0] == '-');
            assert(s.skip(1) =~= body);
        } else {
            if s.len() > 0 {
                assert(s[0] != '-');
            }
        }
    }
    if start >= n || hex_like_digit(chars[start]).is_none() {
        proof {
            if body.len() > 0 {
                assert(!is_digit(body[0]));
            }
            assert(digit_prefix_len(body) == 0);
        }
        return None;
    }
    let mut mag: u64 = 0;
    let mut j: usize = start;
    while j < n && hex_like_digit(chars[j]).is_some()
        invariant
            n == chars@.len(),
            pos <= start <= j <= n,
            body == chars@.skip(start as int),
            s == chars@.skip(pos as int),
            neg ==> pos < n && s.len() > 0 && s[0] == '-' && start == pos + 1,
            !neg ==> start == pos && (s.len() == 0 || s[0] != '-'),
            forall|k: int| 0 <= k < j - start ==> is_digit(#[trigger] body[k]),
            mag as int == dec_val(body.take(j as int - start as int)),
        decreases n - j,
    {
        let d: u8 = match hex_like_digit(chars[j]) {
            Some(d) => d,
            None => {
                proof {
                    assert(false);
                }
                0
            },
        };
        proof {
            assert(body[j as int - start as int] == chars@[j as int]);
            assert(is_digit(body[j as int - start as int]));
        }
        if mag > (u64::MAX - (d as u64)) / 10 {
            proof {
                lemma_digit_prefix_len_bounds(body);
                let k = digit_prefix_len(body);
                assert(k >= j - start + 1) by {
                    lemma_digit_prefix_ge(body, j as int - start as int + 1);
                }
                let full = body.take(k);
                lemma_digit_prefix_all(body);
                assert(forall|t: int| 0 <= t < full.len() ==> is_digit(#[trigger] full[t]));
                assert(body.take(j as int - start as int + 1).drop_last() =~= body.take(
                    j as int - start as int,
                ));
                assert(dec_val(body.take(j as int - start as int + 1)) == (mag as int) * 10 + (
                d as int));
                assert((mag as int) * 10 + (d as int) > u64::MAX as int) by {
                    vstd::arithmetic::div_mod::lemma_fundamental_div_mod(
                        u64::MAX as int - d as int,
                        10,
                    );
                }
                assert(full.take(j as int - start as int + 1) =~= body.take(
                    j as int - start as int + 1,
                ));
                lemma_dec_val_prefix(full, j as int - start as int + 1);
                assert(dec_val(full) > u64::MAX as int);
                assert(p_nat(body) == Some((dec_val(full), body.skip(k))));
                let v = dec_val(full);
                if neg {
                    assert(pos < n);
                    assert(s.len() > 0);
                    assert(s[0] == chars@[pos as int]);
                    assert(s[0] == '-');
                    assert(s.skip(1) =~= body);
                    assert(p_int(s) == Some((-v, body.skip(k))));
                    assert(-v < i64::MIN);
                } else {
                    assert(p_int(s) == p_nat(body));
                    assert(v > i64::MAX);
                }
            }
            return None;
        }
        let ghost prev = mag as int;
        mag = mag * 10 + (d as u64);
        j += 1;
        proof {
            assert(body.take(j as int - start as int).drop_last() =~= body.take(
                j as int - start as int - 1,
            ));
            assert(body.take(j as int - start as int).last() == body[j as int - start as int - 1]);
        }
    }
    proof {
        if j < n {
            assert(body[j as int - start as int] == chars@[j as int]);
        }
        let k = digit_prefix_len(body);
        lemma_digit_prefix_char(body, j as int - start as int);
        assert(k == j - start);
        assert(p_nat(body) == Some((mag as int, body.skip(j as int - start as int))));
        assert(body.skip(j as int - start as int) =~= chars@.skip(j as int));
    }
    if neg {
        if mag > 9223372036854775808u64 {
            return None;
        }
        let v: i64 = (-(mag as i128)) as i64;
        proof {
            assert(v as int == -(mag as int));
        }
        Some((v, j))
    } else {
        if mag > i64::MAX as u64 {
            return None;
        }
        Some((mag as i64, j))
    }
}

/// The value of a decimal digit character, if it is one.
fn hex_like_digit(c: char) -> (r: Option<u8>)
    ensures
        match r {
            Some(v) => v <= 9 && nibble_val(c) == v as int,
            None => !is_digit(c),
        },
{
    match crate::ids::hex_digit_val(c) {
        Some(d) => {
            if d <= 9 {
                Some(d)
            } else {
                None
            }
        },
        None => None,
    }
}

proof fn lemma_digit_prefix_ge(s: Seq<char>, i: int)
    requires
        0 <= i <= s.len(),
        forall|k: int| 0 <= k < i ==> is_digit(#[trigger] s[k]),
    ensures
        digit_prefix_len(s) >= i,
    decreases i,
{
    lemma_digit_prefix_len_bounds(s);
    if i > 0 {
        assert(is_digit(s[0]));
        assert forall|k: int| 0 <= k < i - 1 implies is_digit(#[trigger] s.drop_first()[k]) by {
            assert(s.drop_first()[k] == s[k + 1]);
        }
        lemma_digit_prefix_ge(s.drop_first(), i - 1);
        assert(digit_prefix_len(s) == 1 + digit_prefix_len(s.drop_first()));
    }
}

proof fn lemma_digit_prefix_all(s: Seq<char>)
    ensures
        forall|t: int| 0 <= t < digit_prefix_len(s) ==> is_digit(#[trigger] s[t]),
    decreases s.len(),
{
    lemma_digit_prefix_len_bounds(s);
    if s.len() > 0 && is_digit(s[0]) {
        lemma_digit_prefix_all(s.drop_first());
        lemma_digit_prefix_len_bounds(s.drop_first());
        assert forall|t: int| 0 <= t < digit_prefix_len(s) implies is_digit(#[trigger] s[t]) by {
            if t > 0 {
                assert(s.drop_first()[t - 1] == s[t]);
            }
        }
    }
}

proof fn lemma_digit_prefix_char(s: Seq<char>, i: int)
    requires
        0 <= i <= s.len(),
        forall|k: int| 0 <= k < i ==> is_digit(#[trigger] s[k]),
        i == s.len() || !is_digit(s[i]),
    ensures
        digit_prefix_len(s) == i,
    decreases i,
{
    if i == 0 {
    } else {
        assert(forall|k: int| 0 <= k < i - 1 ==> is_digit(#[trigger] s.drop_first()[k]));
        lemma_digit_prefix_char(s.drop_first(), i - 1);
    }
}

// ---------------------------------------------------------------------------
// Tool calls
// ---------------------------------------------------------------------------

pub proof fn lemma_concat_assoc(a: Seq<char>, b: Seq<char>, c: Seq<char>)
    ensures
        (a + b) + c == a + (b + c),
{
    assert((a + b) + c =~= a + (b + c));
}

/// How one tool call is written.
pub open spec fn enc_tool_call(t: crate::state::ToolCallModel) -> Seq<char> {
    "{\"id\":\""@ + (crate::ids::uuid_text(t.id) + ("\",\"name\":"@ + (enc_quoted(t.name) + (
    ",\"arguments\":"@ + (enc_quoted(t.arguments) + (",\"status\":"@ + (status_quoted(t.status) + (
    ",\"response\":"@ + (enc_opt_str(t.response) + "}"@)))))))))
}

/// Reads one tool call.
pub open spec fn p_tool_call(s: Seq<char>) -> Option<(crate::state::ToolCallModel, Seq<char>)> {
    match p_lit(s, "{\"id\":\""@) {
        None => None,
        Some(s1) => match p_uuid(s1) {
            None => None,
            Some((id, s2)) => match p_lit(s2, "\",\"name\":"@) {
                None => None,
                Some(s3) => match p_quoted(s3) {
                    None => None,
                    Some((name, s4)) => match p_lit(s4, ",\"arguments\":"@) {
                        None => None,
                        Some(s5) => match p_quoted(s5) {
                            None => None,
                            Some((arguments, s6)) => match p_lit(s6, ",\"status\":"@) {
                                None => None,
                                Some(s7) => match p_status(s7) {
                                    None => None,
                                    Some((status, s8)) => match p_lit(s8, ",\"response\":"@) {
                                        None => None,
                                        Some(s9) => match p_opt_str(s9) {
                                            None => None,
                                            Some((response, s10)) => match p_lit(s10, "}"@) {
                                                None => None,
                                                Some(s11) => Some(
                                                    (
                                                        crate::state::ToolCallModel {
                                                            id,
                                                            name,
                                                            arguments,
                                                            status,
                                                            response,
                                                        },
                                                        s11,
                                                    ),
                                                ),
                                            },
                                        },
                                    },
                                },
                            },
                        },
                    },
                },
            },
        },
    }
}

pub proof fn lemma_tool_call_round_trip(t: crate::state::ToolCallModel, rest: Seq<char>)
    ensures
        p_tool_call(enc_tool_call(t) + rest) == Some((t, rest)),
{
    let s = enc_tool_call(t) + rest;
    // The nested suffixes of the encoding.
    let o9 = enc_opt_str(t.response) + "}"@;
    let o8 = ",\"response\":"@ + o9;
    let o7 = status_quoted(t.status) + o8;
    let o6 = ",\"status\":"@ + o7;
    let o5 = enc_quoted(t.arguments) + o6;
    let o4 = ",\"arguments\":"@ + o5;
    let o3 = enc_quoted(t.name) + o4;
    let o2 = "\",\"name\":"@ + o3;
    let o1 = crate::ids::uuid_text(t.id) + o2;
    // Re-associate `rest` into the nesting.
    lemma_concat_assoc("{\"id\":\""@, o1, rest);
    lemma_concat_assoc(crate::ids::uuid_text(t.id), o2, rest);
    lemma_concat_assoc("\",\"name\":"@, o3, rest);
    lemma_concat_assoc(enc_quoted(t.name), o4, rest);
    lemma_concat_assoc(",\"arguments\":"@, o5, rest);
    lemma_concat_assoc(enc_quoted(t.arguments), o6, rest);
    lemma_concat_assoc(",\"status\":"@, o7, rest);
    lemma_concat_assoc(status_quoted(t.status), o8, rest);
    lemma_concat_assoc(",\"response\":"@, o9, rest);
    lemma_concat_assoc(enc_opt_str(t.response), "}"@, rest);
    lemma_lit_round_trip("{\"id\":\""@, o1 + rest);
    lemma_uuid_round_trip(t.id, o2 + rest);
    lemma_lit_round_trip("\",\"name\":"@, o3 + rest);
    lemma_quoted_round_trip(t.name, o4 + rest);
    lemma_lit_round_trip(",\"arguments\":"@, o5 + rest);
    lemma_quoted_round_trip(t.arguments, o6 + rest);
    lemma_lit_round_trip(",\"status\":"@, o7 + rest);
    lemma_status_round_trip(t.status, o8 + rest);
    lemma_lit_round_trip(",\"response\":"@, o9 + rest);
    lemma_opt_str_round_trip(t.response, "}"@ + rest);
    lemma_lit_round_trip("}"@, rest);
}

pub proof fn lemma_p_tool_call_shrinks(s: Seq<char>)
    ensures
        match p_tool_call(s) {
            Some((t, r)) => r.len() < s.len(),
            None => true,
        },
{
    match p_lit(s, "{\"id\":\""@) {
        None => {},
        Some(s1) => {
            assert(s1.len() <= s.len());
            match p_uuid(s1) {
                None => {},
                Some((id, s2)) => {
                    assert(s2.len() < s1.len());
                    match p_lit(s2, "\",\"name\":"@) {
                        None => {},
                        Some(s3) => {
                            assert(s3.len() <= s2.len());
                            match p_quoted(s3) {
                                None => {},
                                Some((name, s4)) => {
                                    lemma_p_str_body_shrinks(s3.skip(1));
                                    assert(s4.len() < s3.len());
                                    match p_lit(s4, ",\"arguments\":"@) {
                                        None => {},
                                        Some(s5) => {
                                            assert(s5.len() <= s4.len());
                                            match p_quoted(s5) {
                                                None => {},
                                                Some((arguments, s6)) => {
                                                    lemma_p_str_body_shrinks(s5.skip(1));
                                                    assert(s6.len() < s5.len());
                                                    lemma_tool_call_tail_shrinks(s, s6);
                                                },
                                            }
                                        },
                                    }
                                },
                            }
                        },
                    }
                },
            }
        },
    }
}

proof fn lemma_tool_call_tail_shrinks(s: Seq<char>, s6: Seq<char>)
    requires
        s6.len() < s.len(),
    ensures
        match p_lit(s6, ",\"status\":"@) {
            None => true,
            Some(s7) => match p_status(s7) {
                None => true,
                Some((st, s8)) => match p_lit(s8, ",\"response\":"@) {
                    None => true,
                    Some(s9) => match p_opt_str(s9) {
                        None => true,
                        Some((resp, s10)) => match p_lit(s10, "}"@) {
                            None => true,
                            Some(s11) => s11.len() < s.len(),
                        },
                    },
                },
            },
        },
{
    match p_lit(s6, ",\"status\":"@) {
        None => {},
        Some(s7) => {
            assert(s7.len() <= s6.len());
            match p_status(s7) {
                None => {},
                Some((st, s8)) => {
                    assert(s8.len() <= s7.len());
                    match p_lit(s8, ",\"response\":"@) {
                        None => {},
                        Some(s9) => {
                            assert(s9.len() <= s8.len());
                            match p_opt_str(s9) {
                                None => {},
                                Some((resp, s10)) => {
                                    if s9.len() > 0 && s9[0] == '"' {
                                        lemma_p_str_body_shrinks(s9.skip(1));
                                    }
                                    assert(s10.len() <= s9.len());
                                    match p_lit(s10, "}"@) {
                                        None => {},
                                        Some(s11) => {
                                            assert(s11.len() <= s10.len());
                                        },
                                    }
                                },
                            }
                        },
                    }
                },
            }
        },
    }
}

/// How the tool calls after the first are written.
pub open spec fn enc_tcs_rest(ts: Seq<crate::state::ToolCallModel>) -> Seq<char>
    decreases ts.len(),
{
    if ts.len() == 0 {
        Seq::empty()
    } else {
        seq![','] + (enc_tool_call(ts[0]) + enc_tcs_rest(ts.drop_first()))
    }
}

/// How a tool-call list is written.
pub open spec fn enc_tool_calls(ts: Seq<crate::state::ToolCallModel>) -> Seq<char> {
    if ts.len() == 0 {
        seq!['[', ']']
    } else {
        seq!['['] + (enc_tool_call(ts[0]) + (enc_tcs_rest(ts.drop_first()) + seq![']']))
    }
}

/// Reads the elements of a non-empty tool-call list, the bracket already
/// consumed. `fuel` only bounds the recursion; any value of at least the
/// input length plus one gives the same answer.
pub open spec fn p_tcs_elems(s: Seq<char>, fuel: nat) -> Option<
    (Seq<crate::state::ToolCallModel>, Seq<char>),
>
    decreases fuel,
{
    if fuel == 0 {
        None
    } else {
        match p_tool_call(s) {
            None => None,
            Some((t, r)) => {
                if r.len() > 0 && r[0] == ',' {
                    match p_tcs_elems(r.skip(1), (fuel - 1) as nat) {
                        Some((ts, rr)) => Some((seq![t] + ts, rr)),
                        None => None,
                    }
                } else if r.len() > 0 && r[0] == ']' {
                    Some((seq![t], r.skip(1)))
                } else {
                    None
                }
            },
        }
    }
}

/// Reads a tool-call list.
pub open spec fn p_tool_calls(s: Seq<char>) -> Option<
    (Seq<crate::state::ToolCallModel>, Seq<char>),
> {
    if s.len() >= 2 && s[0] == '[' && s[1] == ']' {
        Some((Seq::empty(), s.skip(2)))
    } else if s.len() >= 1 && s[0] == '[' {
        p_tcs_elems(s.skip(1), s.len() as nat)
    } else {
        None
    }
}

pub proof fn lemma_tcs_fuel_agree(s: Seq<char>, f1: nat, f2: nat)
    requires
        f1 >= s.len() + 1,
        f2 >= s.len() + 1,
    ensures
        p_tcs_elems(s, f1) == p_tcs_elems(s, f2),
    decreases s.len(),
{
    lemma_p_tool_call_shrinks(s);
    match p_tool_call(s) {
        None => {},
        Some((t, r)) => {
            if r.len() > 0 && r[0] == ',' {
                lemma_tcs_fuel_agree(r.skip(1), (f1 - 1) as nat, (f2 - 1) as nat);
            }
        },
    }
}

#[verifier::rlimit(100)]
#[verifier::spinoff_prover]
proof fn lemma_tcs_elems_round_trip(
    ts: Seq<crate::state::ToolCallModel>,
    rest: Seq<char>,
    fuel: nat,
)
    requires
        ts.len() >= 1,
        fuel >= (enc_tool_call(ts[0]) + (enc_tcs_rest(ts.drop_first()) + (seq![']'] + rest))).len()
            + 1,
    ensures
        p_tcs_elems(enc_tool_call(ts[0]) + (enc_tcs_rest(ts.drop_first()) + (seq![']'] + rest)), fuel)
            == Some((ts, rest)),
    decreases ts.len(),
{
    let tail = enc_tcs_rest(ts.drop_first()) + (seq![']'] + rest);
    let s = enc_tool_call(ts[0]) + tail;
    lemma_tool_call_round_trip(ts[0], tail);
    assert(p_tool_call(s) == Some((ts[0], tail)));
    lemma_p_tool_call_shrinks(s);
    if ts.len() == 1 {
        assert(ts.drop_first().len() == 0);
        assert(enc_tcs_rest(ts.drop_first()) == Seq::<char>::empty());
        assert(tail =~= seq![']'] + rest);
        assert(tail[0] == ']');
        assert(tail.skip(1) =~= rest);
        assert(seq![ts[0]] =~= ts);
    } else {
        let ts1 = ts.drop_first();
        let inner = enc_tool_call(ts1[0]) + (enc_tcs_rest(ts1.drop_first()) + (seq![']'] + rest));
        assert(enc_tcs_rest(ts1) == seq![','] + (enc_tool_call(ts1[0]) + enc_tcs_rest(
            ts1.drop_first(),
        )));
        lemma_concat_assoc(enc_tool_call(ts1[0]), enc_tcs_rest(ts1.drop_first()), seq![']'] + rest);
        lemma_concat_assoc(
            seq![','],
            enc_tool_call(ts1[0]) + enc_tcs_rest(ts1.drop_first()),
            seq![']'] + rest,
        );
        assert(tail =~= seq![','] + inner);
        assert(tail[0] == ',');
        assert(tail.skip(1) =~= inner);
        assert(tail.len() < s.len());
        lemma_tcs_elems_round_trip(ts1, rest, (fuel - 1) as nat);
        assert(p_tcs_elems(inner, (fuel - 1) as nat) == Some((ts1, rest)));
        assert(seq![ts[0]] + ts1 =~= ts);
    }
}

pub proof fn lemma_tool_calls_round_trip(ts: Seq<crate::state::ToolCallModel>, rest: Seq<char>)
    ensures
        p_tool_calls(enc_tool_calls(ts) + rest) == Some((ts, rest)),
{
    reveal_strlit("{\"id\":\"");
    let s = enc_tool_calls(ts) + rest;
    if ts.len() == 0 {
        assert(s =~= seq!['[', ']'] + rest);
        assert(s[0] == '[' && s[1] == ']');
        assert(s.skip(2) =~= rest);
    } else {
        let body = enc_tool_call(ts[0]) + (enc_tcs_rest(ts.drop_first()) + (seq![']'] + rest));
        lemma_concat_assoc(enc_tcs_rest(ts.drop_first()), seq![']'], rest);
        lemma_concat_assoc(enc_tool_call(ts[0]), enc_tcs_rest(ts.drop_first()) + seq![']'], rest);
        assert(s =~= seq!['['] + body);
        assert(s[0] == '[');
        assert(enc_tool_call(ts[0])[0] == "{\"id\":\""@[0]);
        assert(s[1] == '{');
        assert(s.skip(1) =~= body);
        assert(s.len() == body.len() + 1);
        lemma_tcs_elems_round_trip(ts, rest, s.len() as nat);
    }
}

// ---------------------------------------------------------------------------
// Messages and metadata
// ---------------------------------------------------------------------------

/// How one message is written: the whole transcript line.
pub open spec fn enc_message(m: crate::state::MessageModel) -> Seq<char> {
    "{\"id\":\""@ + (crate::ids::uuid_text(m.id) + ("\",\"role\":"@ + (role_quoted(m.role) + (
    ",\"content\":"@ + (enc_quoted(m.content) + (",\"created_at\":"@ + (enc_i64(
        m.created_at as int,
    ) + (",\"tool_calls\":"@ + (enc_tool_calls(m.tool_calls) + "}"@)))))))))
}

/// Reads one whole transcript line.
pub open spec fn p_message(s: Seq<char>) -> Option<crate::state::MessageModel> {
    match p_lit(s, "{\"id\":\""@) {
        None => None,
        Some(s1) => match p_uuid(s1) {
            None => None,
            Some((id, s2)) => match p_lit(s2, "\",\"role\":"@) {
                None => None,
                Some(s3) => match p_role(s3) {
                    None => None,
                    Some((role, s4)) => match p_lit(s4, ",\"content\":"@) {
                        None => None,
                        Some(s5) => match p_quoted(s5) {
                            None => None,
                            Some((content, s6)) => match p_lit(s6, ",\"created_at\":"@) {
                                None => None,
                                Some(s7) => match p_int(s7) {
                                    None => None,
                                    Some((created, s8)) => if !(i64::MIN <= created
                                        <= i64::MAX) {
                                        None
                                    } else {
                                        match p_lit(s8, ",\"tool_calls\":"@) {
                                            None => None,
                                            Some(s9) => match p_tool_calls(s9) {
                                                None => None,
                                                Some((tool_calls, s10)) => match p_lit(
                                                    s10,
                                                    "}"@,
                                                ) {
                                                    None => None,
                                                    Some(s11) => if s11.len() == 0 {
                                                        Some(
                                                            crate::state::MessageModel {
                                                                id,
                                                                role,
                                                                content,
                                                                created_at: created as i64,
                                                                tool_calls,
                                                            },
                                                        )
                                                    } else {
                                                        None
                                                    },
                                                },
                                            },
                                        }
                                    },
                                },
                            },
                        },
                    },
                },
            },
        },
    }
}

/// Reading a written message line returns the message itself.
#[verifier::rlimit(100)]
#[verifier::spinoff_prover]
pub proof fn lemma_message_round_trip(m: crate::state::MessageModel)
    ensures
        p_message(enc_message(m)) == Some(m),
{
    reveal_strlit(",\"tool_calls\":");
    let s = enc_message(m);
    let o9 = enc_tool_calls(m.tool_calls) + "}"@;
    let o8 = ",\"tool_calls\":"@ + o9;
    let o7 = enc_i64(m.created_at as int) + o8;
    let o6 = ",\"created_at\":"@ + o7;
    let o5 = enc_quoted(m.content) + o6;
    let o4 = ",\"content\":"@ + o5;
    let o3 = role_quoted(m.role) + o4;
    let o2 = "\",\"role\":"@ + o3;
    let o1 = crate::ids::uuid_text(m.id) + o2;
    assert(o1 + Seq::<char>::empty() =~= o1);
    lemma_lit_round_trip("{\"id\":\""@, o1);
    assert(p_lit(s, "{\"id\":\""@) == Some(o1));
    lemma_uuid_round_trip(m.id, o2);
    lemma_lit_round_trip("\",\"role\":"@, o3);
    lemma_role_round_trip(m.role, o4);
    lemma_lit_round_trip(",\"content\":"@, o5);
    lemma_quoted_round_trip(m.content, o6);
    lemma_lit_round_trip(",\"created_at\":"@, o7);
    assert(o8[0] == ',');
    assert(!is_digit(','));
    lemma_i64_round_trip(m.created_at as int, o8);
    lemma_lit_round_trip(",\"tool_calls\":"@, o9);
    lemma_tool_calls_round_trip(m.tool_calls, "}"@);
    lemma_lit_round_trip("}"@, Seq::<char>::empty());
    assert("}"@ + Seq::<char>::empty() =~= "}"@);
}

/// How the metadata file for a conversation is written.
pub open spec fn enc_metadata(title: Seq<char>) -> Seq<char> {
    "{\"title\":"@ + (enc_quoted(title) + "}"@)
}

/// Reads a metadata file.
pub open spec fn p_metadata(s: Seq<char>) -> Option<Seq<char>> {
    match p_lit(s, "{\"title\":"@) {
        None => None,
        Some(s1) => match p_quoted(s1) {
            None => None,
            Some((title, s2)) => match p_lit(s2, "}"@) {
                None => None,
                Some(s3) => if s3.len() == 0 {
                    Some(title)
                } else {
                    None
                },
            },
        },
    }
}

/// Reading written metadata returns the title itself.
pub proof fn lemma_metadata_round_trip(title: Seq<char>)
    ensures
        p_metadata(enc_metadata(title)) == Some(title),
{
    let s = enc_metadata(title);
    let a1 = enc_quoted(title) + "}"@;
    lemma_lit_round_trip("{\"title\":"@, a1);
    assert(p_lit(s, "{\"title\":"@) == Some(a1));
    lemma_quoted_round_trip(title, "}"@);
    lemma_lit_round_trip("}"@, Seq::<char>::empty());
    assert("}"@ + Seq::<char>::empty() =~= "}"@);
}

// ---------------------------------------------------------------------------
// Executable encoding
// ---------------------------------------------------------------------------

/// Appends the encoding of one tool call to `out`.
pub(crate) fn push_tool_call(out: &mut Vec<char>, t: &crate::state::ToolCall)
    ensures
        final(out)@ == old(out)@ + enc_tool_call(t@),
{
    push_str(out, "{\"id\":\"");
    let idtext = crate::ids::format_id(t.id);
    push_str(out, idtext.as_str());
    let ghost g1 = out@;
    push_str(out, "\",\"name\":");
    push_quoted(out, t.name.as_str());
    let ghost g2 = out@;
    push_str(out, ",\"arguments\":");
    push_quoted(out, t.arguments.as_str());
    let ghost g3 = out@;
    push_str(out, ",\"status\":");
    match t.status {
        crate::state::ToolCallStatus::Pending => push_str(out, "\"pending\""),
        crate::state::ToolCallStatus::Completed => push_str(out, "\"completed\""),
        crate::state::ToolCallStatus::Failed => push_str(out, "\"failed\""),
    }
    let ghost g4 = out@;
    push_str(out, ",\"response\":");
    match &t.response {
        None => push_str(out, "null"),
        Some(v) => push_quoted(out, v.as_str()),
    }
    let ghost g5 = out@;
    push_str(out, "}");
    proof {
        let b = old(out)@;
        let u = crate::ids::uuid_text(t@.id);
        let q1 = enc_quoted(t@.name);
        let q2 = enc_quoted(t@.arguments);
        let st = status_quoted(t@.status);
        let rp = enc_opt_str(t@.response);
        let o9 = rp + "}"@;
        let o8 = ",\"response\":"@ + o9;
        let o7 = st + o8;
        let o6 = ",\"status\":"@ + o7;
        let o5 = q2 + o6;
        let o4 = ",\"arguments\":"@ + o5;
        let o3 = q1 + o4;
        let o2 = "\",\"name\":"@ + o3;
        let o1 = u + o2;
        // Re-associate the appended pieces into the nested encoding.
        assert(g5 == g4 + (",\"response\":"@ + rp)) by {
            lemma_concat_assoc(g4, ",\"response\":"@, rp);
        }
        assert(out@ == g4 + (",\"response\":"@ + o9)) by {
            lemma_concat_assoc(g4, ",\"response\":"@ + rp, "}"@);
            lemma_concat_assoc(",\"response\":"@, rp, "}"@);
        }
        assert(out@ == g3 + (",\"status\":"@ + o7)) by {
            lemma_concat_assoc(g3, ",\"status\":"@, st);
            lemma_concat_assoc(g3, ",\"status\":"@ + st, o8);
            lemma_concat_assoc(",\"status\":"@, st, o8);
        }
        assert(out@ == g2 + (",\"arguments\":"@ + o5)) by {
            lemma_concat_assoc(g2, ",\"arguments\":"@, q2);
            lemma_concat_assoc(g2, ",\"arguments\":"@ + q2, o6);
            lemma_concat_assoc(",\"arguments\":"@, q2, o6);
        }
        assert(out@ == g1 + ("\",\"name\":"@ + o3)) by {
            lemma_concat_assoc(g1, "\",\"name\":"@, q1);
            lemma_concat_assoc(g1, "\",\"name\":"@ + q1, o4);
            lemma_concat_assoc("\",\"name\":"@, q1, o4);
        }
        assert(out@ == b + ("{\"id\":\""@ + o1)) by {
            lemma_concat_assoc(b, "{\"id\":\""@, u);
            lemma_concat_assoc(b, "{\"id\":\""@ + u, o2);
            lemma_concat_assoc("{\"id\":\""@, u, o2);
        }
    }
}

/// Appends the encoding of a tool-call list to `out`.
pub(crate) fn push_tool_calls(out: &mut Vec<char>, v: &Vec<crate::state::ToolCall>)
    ensures
        final(out)@ == old(out)@ + enc_tool_calls(v.deep_view()),
{
    let ghost b = out@;
    let ghost dv = v.deep_view();
    let n = v.len();
    out.push('[');
    if n == 0 {
        out.push(']');
        proof {
            assert(out@ =~= b + enc_tool_calls(dv));
        }
        return;
    }
    push_tool_call(out, &v[0]);
    proof {
        assert(dv[0] == v@[0]@);
        assert(dv.skip(1) =~= dv.drop_first());
    }
    let mut i: usize = 1;
    while i < n
        invariant
            1 <= i <= n,
            n == v@.len(),
            dv == v.deep_view(),
            dv.len() == n,
            out@ + (enc_tcs_rest(dv.skip(i as int)) + seq![']']) == b + enc_tool_calls(dv),
        decreases n - i,
    {
        out.push(',');
        push_tool_call(out, &v[i]);
        proof {
            let tail = dv.skip(i as int);
            assert(tail[0] == dv[i as int]);
            assert(dv[i as int] == v@[i as int]@);
            assert(tail.drop_first() =~= dv.skip(i as int + 1));
            assert(enc_tcs_rest(tail) == seq![','] + (enc_tool_call(tail[0]) + enc_tcs_rest(
                tail.drop_first(),
            )));
            assert(out@ + (enc_tcs_rest(dv.skip(i as int + 1)) + seq![']']) =~= b
                + enc_tool_calls(dv));
        }
        i += 1;
    }
    out.push(']');
    proof {
        assert(enc_tcs_rest(dv.skip(n as int)) == Seq::<char>::empty());
        assert(out@ =~= b + enc_tool_calls(dv));
    }
}

/// Writes one message as its transcript line.
pub fn encode_message(m: &crate::state::ChatMessage) -> (r: String)
    ensures
        r@ == enc_message(m@),
{
    let mut out: Vec<char> = Vec::new();
    push_str(&mut out, "{\"id\":\"");
    let idtext = crate::ids::format_id(m.id);
    push_str(&mut out, idtext.as_str());
    let ghost g1 = out@;
    push_str(&mut out, "\",\"role\":");
    match m.role {
        crate::state::MessageRole::System => push_str(&mut out, "\"system\""),
        crate::state::MessageRole::User => push_str(&mut out, "\"user\""),
        crate::state::MessageRole::Assistant => push_str(&mut out, "\"assistant\""),
        crate::state::MessageRole::Tool => push_str(&mut out, "\"tool\""),
    }
    let ghost g2 = out@;
    push_str(&mut out, ",\"content\":");
    push_quoted(&mut out, m.content.as_str());
    let ghost g3 = out@;
    push_str(&mut out, ",\"created_at\":");
    push_i64(&mut out, m.created_at);
    let ghost g4 = out@;
    push_str(&mut out, ",\"tool_calls\":");
    push_tool_calls(&mut out, &m.tool_calls);
    let ghost g5 = out@;
    push_str(&mut out, "}");
    proof {
        let u = crate::ids::uuid_text(m@.id);
        let rl = role_quoted(m@.role);
        let q = enc_quoted(m@.content);
        let iv = enc_i64(m@.created_at as int);
        let tc = enc_tool_calls(m@.tool_calls);
        let o9 = tc + "}"@;
        let o8 = ",\"tool_calls\":"@ + o9;
        let o7 = iv + o8;
        let o6 = ",\"created_at\":"@ + o7;
        let o5 = q + o6;
        let o4 = ",\"content\":"@ + o5;
        let o3 = rl + o4;
        let o2 = "\",\"role\":"@ + o3;
        let o1 = u + o2;
        assert(out@ == g4 + (",\"tool_calls\":"@ + o9)) by {
            lemma_concat_assoc(g4, ",\"tool_calls\":"@, tc);
            lemma_concat_assoc(g4, ",\"tool_calls\":"@ + tc, "}"@);
            lemma_concat_assoc(",\"tool_calls\":"@, tc, "}"@);
        }
        assert(out@ == g3 + (",\"created_at\":"@ + o7)) by {
            lemma_concat_assoc(g3, ",\"created_at\":"@, iv);
            lemma_concat_assoc(g3, ",\"created_at\":"@ + iv, o8);
            lemma_concat_assoc(",\"created_at\":"@, iv, o8);
        }
        assert(out@ == g2 + (",\"content\":"@ + o5)) by {
            lemma_concat_assoc(g2, ",\"content\":"@, q);
            lemma_concat_assoc(g2, ",\"content\":"@ + q, o6);
            lemma_concat_assoc(",\"content\":"@, q, o6);
        }
        assert(out@ == g1 + ("\",\"role\":"@ + o3)) by {
            lemma_concat_assoc(g1, "\",\"role\":"@, rl);
            lemma_concat_assoc(g1, "\",\"role\":"@ + rl, o4);
            lemma_concat_assoc("\",\"role\":"@, rl, o4);
        }
        assert(out@ == Seq::<char>::empty() + ("{\"id\":\""@ + o1)) by {
            lemma_concat_assoc(Seq::<char>::empty(), "{\"id\":\""@, u);
            lemma_concat_assoc(Seq::<char>::empty(), "{\"id\":\""@ + u, o2);
            lemma_concat_assoc("{\"id\":\""@, u, o2);
        }
        assert(Seq::<char>::empty() + ("{\"id\":\""@ + o1) =~= "{\"id\":\""@ + o1);
    }
    crate::strutil::from_chars(out.as_slice())
}

/// Writes the metadata file contents for a title.
pub fn encode_metadata(title: &str) -> (r: String)
    ensures
        r@ == enc_metadata(title@),
{
    let mut out: Vec<char> = Vec::new();
    push_str(&mut out, "{\"title\":");
    push_quoted(&mut out, title);
    push_str(&mut out, "}");
    proof {
        assert(out@ =~= enc_metadata(title@));
    }
    crate::strutil::from_chars(out.as_slice())
}

// ---------------------------------------------------------------------------
// Executable parsing
// ---------------------------------------------------------------------------

/// Reads a quoted role at `pos`.
pub(crate) fn parse_role(chars: &Vec<char>, pos: usize) -> (r: Option<
    (crate::state::MessageRole, usize),
>)
    requires
        pos <= chars@.len(),
    ensures
        match r {
            Some((role, p)) => {
                &&& pos <= p <= chars@.len()
                &&& p_role(chars@.skip(pos as int)) == Some((role, chars@.skip(p as int)))
            },
            None => p_role(chars@.skip(pos as int)) is None,
        },
{
    if let Some(p) = expect_lit(chars, pos, "\"system\"") {
        return Some((crate::state::MessageRole::System, p));
    }
    if let Some(p) = expect_lit(chars, pos, "\"user\"") {
        return Some((crate::state::MessageRole::User, p));
    }
    if let Some(p) = expect_lit(chars, pos, "\"assistant\"") {
        return Some((crate::state::MessageRole::Assistant, p));
    }
    if let Some(p) = expect_lit(chars, pos, "\"tool\"") {
        return Some((crate::state::MessageRole::Tool, p));
    }
    None
}

/// Reads a quoted tool-call status at `pos`.
pub(crate) fn parse_status(chars: &Vec<char>, pos: usize) -> (r: Option<
    (crate::state::ToolCallStatus, usize),
>)
    requires
        pos <= chars@.len(),
    ensures
        match r {
            Some((st, p)) => {
                &&& pos <= p <= chars@.len()
                &&& p_status(chars@.skip(pos as int)) == Some((st, chars@.skip(p as int)))
            },
            None => p_status(chars@.skip(pos as int)) is None,
        },
{
    if let Some(p) = expect_lit(chars, pos, "\"pending\"") {
        return Some((crate::state::ToolCallStatus::Pending, p));
    }
    if let Some(p) = expect_lit(chars, pos, "\"completed\"") {
        return Some((crate::state::ToolCallStatus::Completed, p));
    }
    if let Some(p) = expect_lit(chars, pos, "\"failed\"") {
        return Some((crate::state::ToolCallStatus::Failed, p));
    }
    None
}

/// Reads `null` or a quoted string at `pos`.
pub(crate) fn parse_opt_str(chars: &Vec<char>, pos: usize) -> (r: Option<
    (Option<String>, usize),
>)
    requires
        pos <= chars@.len(),
    ensures
        match r {
            Some((o, p)) => {
                &&& pos <= p <= chars@.len()
                &&& p_opt_str(chars@.skip(pos as int)) == Some(
                    (o.deep_view(), chars@.skip(p as int)),
                )
            },
            None => p_opt_str(chars@.skip(pos as int)) is None,
        },
{
    let n = chars.len();
    if pos < n && chars[pos] == '"' {
        proof {
            assert(chars@.skip(pos as int)[0] == chars@[pos as int]);
        }
        match parse_quoted(chars, pos) {
            Some((v, p)) => {
                let text = crate::strutil::from_chars(v.as_slice());
                Some((Some(text), p))
            },
            None => None,
        }
    } else {
        proof {
            if chars@.skip(pos as int).len() > 0 {
                assert(chars@.skip(pos as int)[0] == chars@[pos as int]);
            }
        }
        match expect_lit(chars, pos, "null") {
            Some(p) => Some((None, p)),
            None => None,
        }
    }
}

/// Reads one tool call at `pos`.
#[verifier::rlimit(100)]
#[verifier::spinoff_prover]
pub(crate) fn parse_tool_call(chars: &Vec<char>, pos: usize) -> (r: Option<
    (crate::state::ToolCall, usize),
>)
    requires
        pos <= chars@.len(),
    ensures
        match r {
            Some((t, p)) => {
                &&& pos <= p <= chars@.len()
                &&& p_tool_call(chars@.skip(pos as int)) == Some((t@, chars@.skip(p as int)))
            },
            None => p_tool_call(chars@.skip(pos as int)) is None,
        },
{
    let p1 = match expect_lit(chars, pos, "{\"id\":\"") {
        Some(p) => p,
        None => {
            return None;
        },
    };
    let (id, p2) = match parse_uuid(chars, p1) {
        Some(x) => x,
        None => {
            return None;
        },
    };
    let p3 = match expect_lit(chars, p2, "\",\"name\":") {
        Some(p) => p,
        None => {
            return None;
        },
    };
    let (name, p4) = match parse_quoted(chars, p3) {
        Some(x) => x,
        None => {
            return None;
        },
    };
    let p5 = match expect_lit(chars, p4, ",\"arguments\":") {
        Some(p) => p,
        None => {
            return None;
        },
    };
    let (arguments, p6) = match parse_quoted(chars, p5) {
        Some(x) => x,
        None => {
            return None;
        },
    };
    let p7 = match expect_lit(chars, p6, ",\"status\":") {
        Some(p) => p,
        None => {
            return None;
        },
    };
    let (status, p8) = match parse_status(chars, p7) {
        Some(x) => x,
        None => {
            return None;
        },
    };
    let p9 = match expect_lit(chars, p8, ",\"response\":") {
        Some(p) => p,
        None => {
            return None;
        },
    };
    let (response, p10) = match parse_opt_str(chars, p9) {
        Some(x) => x,
        None => {
            return None;
        },
    };
    let p11 = match expect_lit(chars, p10, "}") {
        Some(p) => p,
        None => {
            return None;
        },
    };
    let t = crate::state::ToolCall {
        id,
        name: crate::strutil::from_chars(name.as_slice()),
        arguments: crate::strutil::from_chars(arguments.as_slice()),
        status,
        response,
    };
    Some((t, p11))
}

/// Reads a tool-call list at `pos`.
#[verifier::rlimit(100)]
#[verifier::spinoff_prover]
pub(crate) fn parse_tool_calls(chars: &Vec<char>, pos: usize) -> (r: Option<
    (Vec<crate::state::ToolCall>, usize),
>)
    requires
        pos <= chars@.len(),
    ensures
        match r {
            Some((v, p)) => {
                &&& pos <= p <= chars@.len()
                &&& p_tool_calls(chars@.skip(pos as int)) == Some(
                    (v.deep_view(), chars@.skip(p as int)),
                )
            },
            None => p_tool_calls(chars@.skip(pos as int)) is None,
        },
{
    let n = chars.len();
    let ghost s = chars@.skip(pos as int);
    if pos >= n || chars[pos] != '[' {
        proof {
            if s.len() > 0 {
                assert(s[0] == chars@[pos as int]);
            }
        }
        return None;
    }
    proof {
        assert(s[0] == chars@[pos as int]);
    }
    if pos + 1 < n && chars[pos + 1] == ']' {
        proof {
            assert(s[1] == chars@[pos as int + 1]);
            assert(s.skip(2) =~= chars@.skip(pos as int + 2));
        }
        let out: Vec<crate::state::ToolCall> = Vec::new();
        proof {
            assert(out.deep_view() =~= Seq::<crate::state::ToolCallModel>::empty());
        }
        return Some((out, pos + 2));
    }
    proof {
        if s.len() >= 2 {
            assert(s[1] == chars@[pos as int + 1]);
        }
    }
    let mut out: Vec<crate::state::ToolCall> = Vec::new();
    let mut cur: usize = pos + 1;
    proof {
        assert(s.skip(1) =~= chars@.skip(pos as int + 1));
        assert(out.deep_view() =~= Seq::<crate::state::ToolCallModel>::empty());
        assert(s.len() as nat == chars@.skip(pos as int + 1).len() + 1);
    }
    loop
        invariant
            pos + 1 <= cur <= n,
            n == chars@.len(),
            s == chars@.skip(pos as int),
            s.len() >= 1 && s[0] == '[',
            !(s.len() >= 2 && s[1] == ']'),
            p_tool_calls(s) == (match p_tcs_elems(
                chars@.skip(cur as int),
                (n - cur + 1) as nat,
            ) {
                Some((ts, r)) => Some((out.deep_view() + ts, r)),
                None => None,
            }),
        decreases n - cur,
    {
        let ghost pre = chars@.skip(cur as int);
        let (t, after) = match parse_tool_call(chars, cur) {
            Some(x) => x,
            None => {
                return None;
            },
        };
        proof {
            lemma_p_tool_call_shrinks(pre);
        }
        let ghost prev_dv = out.deep_view();
        out.push(t);
        proof {
            assert(out.deep_view() =~= prev_dv.push(t@));
        }
        if after < n && chars[after] == ',' {
            proof {
                let rseq = chars@.skip(after as int);
                assert(rseq[0] == chars@[after as int]);
                assert(rseq.skip(1) =~= chars@.skip(after as int + 1));
                lemma_tcs_fuel_agree(
                    chars@.skip(after as int + 1),
                    (n - cur) as nat,
                    (n - after) as nat,
                );
                assert forall|ts: Seq<crate::state::ToolCallModel>|
                    prev_dv + (seq![t@] + ts) =~= out.deep_view() + ts by {}
            }
            cur = after + 1;
        } else if after < n && chars[after] == ']' {
            proof {
                let rseq = chars@.skip(after as int);
                assert(rseq[0] == chars@[after as int]);
                assert(rseq.skip(1) =~= chars@.skip(after as int + 1));
                assert(prev_dv + seq![t@] =~= out.deep_view());
            }
            return Some((out, after + 1));
        } else {
            proof {
                let rseq = chars@.skip(after as int);
                if rseq.len() > 0 {
                    assert(rseq[0] == chars@[after as int]);
                }
            }
            return None;
        }
    }
}

/// Reads a whole transcript line back into a message.
///
/// Succeeds exactly on the output of [`encode_message`]; a `None` means the
/// line is not a canonical message encoding.
#[verifier::rlimit(100)]
#[verifier::spinoff_prover]
pub fn decode_message(line: &str) -> (r: Option<crate::state::ChatMessage>)
    ensures
        match r {
            Some(m) => p_message(line@) == Some(m@),
            None => p_message(line@) is None,
        },
{
    let chars = to_chars(line);
    proof {
        assert(chars@.skip(0) =~= line@);
    }
    let p1 = match expect_lit(&chars, 0, "{\"id\":\"") {
        Some(p) => p,
        None => {
            return None;
        },
    };
    let (id, p2) = match parse_uuid(&chars, p1) {
        Some(x) => x,
        None => {
            return None;
        },
    };
    let p3 = match expect_lit(&chars, p2, "\",\"role\":") {
        Some(p) => p,
        None => {
            return None;
        },
    };
    let (role, p4) = match parse_role(&chars, p3) {
        Some(x) => x,
        None => {
            return None;
        },
    };
    let p5 = match expect_lit(&chars, p4, ",\"content\":") {
        Some(p) => p,
        None => {
            return None;
        },
    };
    let (content, p6) = match parse_quoted(&chars, p5) {
        Some(x) => x,
        None => {
            return None;
        },
    };
    let p7 = match expect_lit(&chars, p6, ",\"created_at\":") {
        Some(p) => p,
        None => {
            return None;
        },
    };
    let (created_at, p8) = match parse_i64(&chars, p7) {
        Some(x) => x,
        None => {
            return None;
        },
    };
    let p9 = match expect_lit(&chars, p8, ",\"tool_calls\":") {
        Some(p) => p,
        None => {
            return None;
        },
    };
    let (tool_calls, p10) = match parse_tool_calls(&chars, p9) {
        Some(x) => x,
        None => {
            return None;
        },
    };
    let p11 = match expect_lit(&chars, p10, "}") {
        Some(p) => p,
        None => {
            return None;
        },
    };
    if p11 != chars.len() {
        proof {
            assert(chars@.skip(p11 as int).len() > 0);
        }
        return None;
    }
    proof {
        assert(chars@.skip(p11 as int).len() == 0);
    }
    let m = crate::state::ChatMessage {
        id,
        role,
        content: crate::strutil::from_chars(content.as_slice()),
        created_at,
        tool_calls,
    };
    Some(m)
}

/// Reads metadata file contents back into a title.
pub fn decode_metadata(text: &str) -> (r: Option<String>)
    ensures
        match r {
            Some(title) => p_metadata(text@) == Some(title@),
            None => p_metadata(text@) is None,
        },
{
    let chars = to_chars(text);
    proof {
        assert(chars@.skip(0) =~= text@);
    }
    let p1 = match expect_lit(&chars, 0, "{\"title\":") {
        Some(p) => p,
        None => {
            return None;
        },
    };
    let (title, p2) = match parse_quoted(&chars, p1) {
        Some(x) => x,
        None => {
            return None;
        },
    };
    let p3 = match expect_lit(&chars, p2, "}") {
        Some(p) => p,
        None => {
            return None;
        },
    };
    if p3 != chars.len() {
        proof {
            assert(chars@.skip(p3 as int).len() > 0);
        }
        return None;
    }
    proof {
        assert(chars@.skip(p3 as int).len() == 0);
    }
    Some(crate::strutil::from_chars(title.as_slice()))
}

// ---------------------------------------------------------------------------
// Line framing
// ---------------------------------------------------------------------------

/// The index of the first newline in `s`, or `-1`.
pub open spec fn first_nl(s: Seq<char>) -> int
    decreases s.len(),
{
    if s.len() == 0 {
        -1
    } else if s[0] == '\n' {
        0
    } else {
        let r = first_nl(s.drop_first());
        if r < 0 {
            -1
        } else {
            1 + r
        }
    }
}

/// The newline-terminated lines of `s`, without their terminators. Text
/// after the last newline is not a complete line and is dropped.
pub open spec fn complete_lines_of(s: Seq<char>) -> Seq<Seq<char>>
    decreases s.len(),
{
    let i = first_nl(s);
    if 0 <= i < s.len() {
        seq![s.take(i)] + complete_lines_of(s.skip(i + 1))
    } else {
        Seq::empty()
    }
}

pub proof fn lemma_first_nl_none(s: Seq<char>)
    requires
        forall|k: int| 0 <= k < s.len() ==> s[k] != '\n',
    ensures
        first_nl(s) == -1,
    decreases s.len(),
{
    if s.len() > 0 {
        assert forall|k: int| 0 <= k < s.drop_first().len() implies s.drop_first()[k] != '\n' by {
            assert(s.drop_first()[k] == s[k + 1]);
        }
        lemma_first_nl_none(s.drop_first());
    }
}

pub proof fn lemma_first_nl_bounds(s: Seq<char>)
    ensures
        -1 <= first_nl(s) < s.len(),
        first_nl(s) >= 0 ==> s[first_nl(s)] == '\n',
        forall|k: int| 0 <= k < first_nl(s) ==> s[k] != '\n',
        first_nl(s) < 0 ==> forall|k: int| 0 <= k < s.len() ==> s[k] != '\n',
    decreases s.len(),
{
    if s.len() > 0 && s[0] != '\n' {
        lemma_first_nl_bounds(s.drop_first());
        assert forall|k: int| 0 <= k < first_nl(s) implies s[k] != '\n' by {
            if k > 0 {
                assert(s.drop_first()[k - 1] == s[k]);
            }
        }
        if first_nl(s) < 0 {
            assert forall|k: int| 0 <= k < s.len() implies s[k] != '\n' by {
                if k > 0 {
                    assert(s.drop_first()[k - 1] == s[k]);
                }
            }
        }
    }
}

proof fn lemma_first_nl_at(s: Seq<char>, i: int)
    requires
        0 <= i < s.len(),
        s[i] == '\n',
        forall|k: int| 0 <= k < i ==> s[k] != '\n',
    ensures
        first_nl(s) == i,
    decreases i,
{
    if i > 0 {
        assert(s[0] != '\n');
        assert forall|k: int| 0 <= k < i - 1 implies s.drop_first()[k] != '\n' by {
            assert(s.drop_first()[k] == s[k + 1]);
        }
        assert(s.drop_first()[i - 1] == s[i]);
        lemma_first_nl_at(s.drop_first(), i - 1);
    }
}

/// Splits text into its complete lines.
pub fn split_complete_lines(text: &str) -> (r: Vec<String>)
    ensures
        r.deep_view() == complete_lines_of(text@),
{
    let chars = to_chars(text);
    let n = chars.len();
    let mut out: Vec<String> = Vec::new();
    let mut start: usize = 0;
    proof {
        assert(chars@.skip(0) =~= chars@);
        assert(out.deep_view() =~= Seq::<Seq<char>>::empty());
    }
    loop
        invariant
            start <= n,
            n == chars@.len(),
            chars@ == text@,
            complete_lines_of(text@) == out.deep_view() + complete_lines_of(
                chars@.skip(start as int),
            ),
        decreases n - start,
    {
        // Scan for the next newline.
        let mut j: usize = start;
        while j < n && chars[j] != '\n'
            invariant
                start <= j <= n,
                n == chars@.len(),
                forall|k: int| start <= k < j ==> chars@[k] != '\n',
            decreases n - j,
        {
            j += 1;
        }
        let ghost rest = chars@.skip(start as int);
        if j >= n {
            proof {
                assert forall|k: int| 0 <= k < rest.len() implies rest[k] != '\n' by {
                    assert(rest[k] == chars@[start + k]);
                }
                lemma_first_nl_none(rest);
                assert(out.deep_view() + complete_lines_of(rest) =~= out.deep_view());
            }
            return out;
        }
        // Collect the line before the newline.
        let mut line: Vec<char> = Vec::new();
        let mut k: usize = start;
        while k < j
            invariant
                start <= k <= j <= n,
                n == chars@.len(),
                line@ == chars@.subrange(start as int, k as int),
            decreases j - k,
        {
            line.push(chars[k]);
            k += 1;
            proof {
                assert(chars@.subrange(start as int, k as int) =~= chars@.subrange(
                    start as int,
                    k as int - 1,
                ).push(chars@[k as int - 1]));
            }
        }
        let ghost prev = out.deep_view();
        out.push(crate::strutil::from_chars(line.as_slice()));
        proof {
            assert(rest[j - start] == chars@[j as int]);
            assert forall|t: int| 0 <= t < j - start implies rest[t] != '\n' by {
                assert(rest[t] == chars@[start + t]);
            }
            lemma_first_nl_at(rest, j as int - start as int);
            assert(rest.take(j as int - start as int) =~= chars@.subrange(start as int, j as int));
            assert(rest.skip(j as int - start as int + 1) =~= chars@.skip(j as int + 1));
            assert(out.deep_view() =~= prev.push(chars@.subrange(start as int, j as int)));
            assert(prev + (seq![chars@.subrange(start as int, j as int)] + complete_lines_of(
                chars@.skip(j as int + 1),
            )) =~= out.deep_view() + complete_lines_of(chars@.skip(j as int + 1)));
        }
        start = j + 1;
    }
}

/// An encoded message line is never blank: it starts with a brace.
pub proof fn lemma_enc_message_not_blank(m: crate::state::MessageModel)
    ensures
        !crate::strutil::is_blank(enc_message(m)),
{
    reveal_strlit("{\"id\":\"");
    let s = enc_message(m);
    assert(s[0] == "{\"id\":\""@[0]);
    assert(s[0] == '{');
    assert(!crate::strutil::is_space_char('{'));
    crate::strutil::lemma_nonspace_head_not_blank(s);
}

// ---------------------------------------------------------------------------
// Whole-file framing of encoded messages
// ---------------------------------------------------------------------------

/// No character of `s` is a newline.
pub open spec fn no_nl(s: Seq<char>) -> bool {
    forall|k: int| 0 <= k < s.len() ==> s[k] != '\n'
}

proof fn lemma_no_nl_concat(a: Seq<char>, b: Seq<char>)
    requires
        no_nl(a),
        no_nl(b),
    ensures
        no_nl(a + b),
{
    assert forall|k: int| 0 <= k < (a + b).len() implies (a + b)[k] != '\n' by {
        if k < a.len() {
            assert((a + b)[k] == a[k]);
        } else {
            assert((a + b)[k] == b[k - a.len()]);
        }
    }
}

proof fn lemma_no_nl_escape(s: Seq<char>)
    ensures
        no_nl(escape(s)),
    decreases s.len(),
{
    if s.len() == 0 {
    } else {
        lemma_no_nl_escape(s.drop_first());
        assert(no_nl(esc_char(s[0]))) by {
            let c = s[0];
            if c == '"' || c == '\\' {
            } else if (c as u32) < 32 {
                assert(esc_char(c) == seq!['\\', 'u', '0', '0', nibble_char((c as u32) as int / 16),
                    nibble_char((c as u32) as int % 16)]);
            } else {
                assert(('\n' as u32) < 32);
                assert(c != '\n');
            }
        }
        lemma_no_nl_concat(esc_char(s[0]), escape(s.drop_first()));
    }
}

proof fn lemma_no_nl_hex_digits(v: int, n: nat)
    ensures
        no_nl(crate::ids::hex_digits(v, n)),
    decreases n,
{
    if n > 0 {
        lemma_no_nl_hex_digits(v / 16, (n - 1) as nat);
        let pre = crate::ids::hex_digits(v / 16, (n - 1) as nat);
        let c = nibble_char(v % 16);
        assert forall|k: int|
            0 <= k < crate::ids::hex_digits(v, n).len() implies crate::ids::hex_digits(v, n)[k]
            != '\n' by {
            if k < pre.len() {
                assert(crate::ids::hex_digits(v, n)[k] == pre[k]);
            } else {
                assert(crate::ids::hex_digits(v, n)[k] == c);
            }
        }
    }
}

proof fn lemma_no_nl_uuid(id: u128)
    ensures
        no_nl(crate::ids::uuid_text(id)),
{
    lemma_no_nl_hex_digits(id as int, 32);
    crate::ids::lemma_hex_digits_len(id as int, 32);
    let h = crate::ids::hex_digits(id as int, 32);
    assert forall|k: int|
        0 <= k < crate::ids::uuid_text(id).len() implies crate::ids::uuid_text(id)[k] != '\n' by {
        let t = crate::ids::uuid_text(id);
        if t[k] != '-' {
            assert(t.len() == 36);
            if k < 8 {
                assert(t[k] == h[k]);
            } else if k < 13 {
                assert(t[k] == h[k - 1]);
            } else if k < 18 {
                assert(t[k] == h[k - 2]);
            } else if k < 23 {
                assert(t[k] == h[k - 3]);
            } else {
                assert(t[k] == h[k - 4]);
            }
        }
    }
}

proof fn lemma_no_nl_dec_digits(n: nat)
    ensures
        no_nl(dec_digits(n)),
    decreases n,
{
    if n < 10 {
    } else {
        lemma_no_nl_dec_digits((n / 10) as nat);
        lemma_no_nl_concat(dec_digits((n / 10) as nat), seq![nibble_char((n % 10) as int)]);
    }
}

proof fn lemma_no_nl_enc_i64(v: int)
    ensures
        no_nl(enc_i64(v)),
{
    if v < 0 {
        lemma_no_nl_dec_digits((-v) as nat);
        lemma_no_nl_concat(seq!['-'], dec_digits((-v) as nat));
    } else {
        lemma_no_nl_dec_digits(v as nat);
    }
}

proof fn lemma_no_nl_quoted(sq: Seq<char>)
    ensures
        no_nl(enc_quoted(sq)),
{
    lemma_no_nl_escape(sq);
    lemma_no_nl_concat(seq!['"'], escape(sq));
    lemma_no_nl_concat(seq!['"'] + escape(sq), seq!['"']);
}

proof fn lemma_no_nl_literals()
    ensures
        no_nl("{\"id\":\""@),
        no_nl("\",\"name\":"@),
        no_nl(",\"arguments\":"@),
        no_nl(",\"status\":"@),
        no_nl(",\"response\":"@),
        no_nl("}"@),
        no_nl("\",\"role\":"@),
        no_nl(",\"content\":"@),
        no_nl(",\"created_at\":"@),
        no_nl(",\"tool_calls\":"@),
        no_nl("null"@),
        no_nl("\"system\""@),
        no_nl("\"user\""@),
        no_nl("\"assistant\""@),
        no_nl("\"tool\""@),
        no_nl("\"pending\""@),
        no_nl("\"completed\""@),
        no_nl("\"failed\""@),
{
    reveal_strlit("{\"id\":\"");
    reveal_strlit("\",\"name\":");
    reveal_strlit(",\"arguments\":");
    reveal_strlit(",\"status\":");
    reveal_strlit(",\"response\":");
    reveal_strlit("}");
    reveal_strlit("\",\"role\":");
    reveal_strlit(",\"content\":");
    reveal_strlit(",\"created_at\":");
    reveal_strlit(",\"tool_calls\":");
    reveal_strlit("null");
    reveal_strlit("\"system\"");
    reveal_strlit("\"user\"");
    reveal_strlit("\"assistant\"");
    reveal_strlit("\"tool\"");
    reveal_strlit("\"pending\"");
    reveal_strlit("\"completed\"");
    reveal_strlit("\"failed\"");
}

#[verifier::rlimit(100)]
#[verifier::spinoff_prover]
proof fn lemma_no_nl_tool_call(t: crate::state::ToolCallModel)
    ensures
        no_nl(enc_tool_call(t)),
{
    lemma_no_nl_literals();
    lemma_no_nl_uuid(t.id);
    lemma_no_nl_quoted(t.name);
    lemma_no_nl_quoted(t.arguments);
    assert(no_nl(status_quoted(t.status)));
    assert(no_nl(enc_opt_str(t.response))) by {
        match t.response {
            Some(v) => {
                lemma_no_nl_quoted(v);
            },
            None => {},
        }
    }
    let o9 = enc_opt_str(t.response) + "}"@;
    lemma_no_nl_concat(enc_opt_str(t.response), "}"@);
    let o8 = ",\"response\":"@ + o9;
    lemma_no_nl_concat(",\"response\":"@, o9);
    let o7 = status_quoted(t.status) + o8;
    lemma_no_nl_concat(status_quoted(t.status), o8);
    let o6 = ",\"status\":"@ + o7;
    lemma_no_nl_concat(",\"status\":"@, o7);
    let o5 = enc_quoted(t.arguments) + o6;
    lemma_no_nl_concat(enc_quoted(t.arguments), o6);
    let o4 = ",\"arguments\":"@ + o5;
    lemma_no_nl_concat(",\"arguments\":"@, o5);
    let o3 = enc_quoted(t.name) + o4;
    lemma_no_nl_concat(enc_quoted(t.name), o4);
    let o2 = "\",\"name\":"@ + o3;
    lemma_no_nl_concat("\",\"name\":"@, o3);
    let o1 = crate::ids::uuid_text(t.id) + o2;
    lemma_no_nl_concat(crate::ids::uuid_text(t.id), o2);
    lemma_no_nl_concat("{\"id\":\""@, o1);
}

proof fn lemma_no_nl_tcs_rest(ts: Seq<crate::state::ToolCallModel>)
    ensures
        no_nl(enc_tcs_rest(ts)),
    decreases ts.len(),
{
    if ts.len() > 0 {
        lemma_no_nl_tcs_rest(ts.drop_first());
        lemma_no_nl_tool_call(ts[0]);
        lemma_no_nl_concat(enc_tool_call(ts[0]), enc_tcs_rest(ts.drop_first()));
        lemma_no_nl_concat(seq![','], enc_tool_call(ts[0]) + enc_tcs_rest(ts.drop_first()));
    }
}

proof fn lemma_no_nl_tool_calls(ts: Seq<crate::state::ToolCallModel>)
    ensures
        no_nl(enc_tool_calls(ts)),
{
    if ts.len() == 0 {
    } else {
        lemma_no_nl_tool_call(ts[0]);
        lemma_no_nl_tcs_rest(ts.drop_first());
        lemma_no_nl_concat(enc_tcs_rest(ts.drop_first()), seq![']']);
        lemma_no_nl_concat(enc_tool_call(ts[0]), enc_tcs_rest(ts.drop_first()) + seq![']']);
        lemma_no_nl_concat(
            seq!['['],
            enc_tool_call(ts[0]) + (enc_tcs_rest(ts.drop_first()) + seq![']']),
        );
    }
}

/// An encoded message line contains no newline, which is what makes the
/// line-delimited transcript format sound.
#[verifier::rlimit(100)]
#[verifier::spinoff_prover]
pub proof fn lemma_enc_message_no_newline(m: crate::state::MessageModel)
    ensures
        no_nl(enc_message(m)),
{
    lemma_no_nl_literals();
    lemma_no_nl_uuid(m.id);
    assert(no_nl(role_quoted(m.role)));
    lemma_no_nl_quoted(m.content);
    lemma_no_nl_enc_i64(m.created_at as int);
    lemma_no_nl_tool_calls(m.tool_calls);
    let o9 = enc_tool_calls(m.tool_calls) + "}"@;
    lemma_no_nl_concat(enc_tool_calls(m.tool_calls), "}"@);
    let o8 = ",\"tool_calls\":"@ + o9;
    lemma_no_nl_concat(",\"tool_calls\":"@, o9);
    let o7 = enc_i64(m.created_at as int) + o8;
    lemma_no_nl_concat(enc_i64(m.created_at as int), o8);
    let o6 = ",\"created_at\":"@ + o7;
    lemma_no_nl_concat(",\"created_at\":"@, o7);
    let o5 = enc_quoted(m.content) + o6;
    lemma_no_nl_concat(enc_quoted(m.content), o6);
    let o4 = ",\"content\":"@ + o5;
    lemma_no_nl_concat(",\"content\":"@, o5);
    let o3 = role_quoted(m.role) + o4;
    lemma_no_nl_concat(role_quoted(m.role), o4);
    let o2 = "\",\"role\":"@ + o3;
    lemma_no_nl_concat("\",\"role\":"@, o3);
    let o1 = crate::ids::uuid_text(m.id) + o2;
    lemma_no_nl_concat(crate::ids::uuid_text(m.id), o2);
    lemma_no_nl_concat("{\"id\":\""@, o1);
}

/// Splitting a newline-terminated line off the front of a text.
pub proof fn lemma_complete_lines_head(line: Seq<char>, rest: Seq<char>)
    requires
        no_nl(line),
    ensures
        complete_lines_of(line + (seq!['\n'] + rest)) == seq![line] + complete_lines_of(rest),
{
    let s = line + (seq!['\n'] + rest);
    assert(s[line.len() as int] == '\n');
    assert forall|k: int| 0 <= k < line.len() implies s[k] != '\n' by {
        assert(s[k] == line[k]);
    }
    lemma_first_nl_at(s, line.len() as int);
    assert(s.take(line.len() as int) =~= line);
    assert(s.skip(line.len() as int + 1) =~= rest);
}

} // verus!
