//! Conversation and message identifiers.
//!
//! An identifier is a 128-bit value. Its canonical text form is the familiar
//! hyphenated, lower-case hexadecimal shape used for transcript file names;
//! formatting and parsing are verified inverses.

use vstd::prelude::*;
use crate::strutil::from_chars;

verus! {

/// Relies on uuid::Uuid::new_v4: draws a fresh random version-4 identifier.
/// Nothing is promised of the value.
#[verifier::external_body]
pub fn fresh_id() -> u128 {
    uuid::Uuid::new_v4().as_u128()
}

/// The lower-case hexadecimal digit for a value in `[0, 16)`.
pub open spec fn nibble_char(v: int) -> char {
    if v == 0 {
        '0'
    } else if v == 1 {
        '1'
    } else if v == 2 {
        '2'
    } else if v == 3 {
        '3'
    } else if v == 4 {
        '4'
    } else if v == 5 {
        '5'
    } else if v == 6 {
        '6'
    } else if v == 7 {
        '7'
    } else if v == 8 {
        '8'
    } else if v == 9 {
        '9'
    } else if v == 10 {
        'a'
    } else if v == 11 {
        'b'
    } else if v == 12 {
        'c'
    } else if v == 13 {
        'd'
    } else if v == 14 {
        'e'
    } else {
        'f'
    }
}

/// The value of a lower-case hexadecimal digit, or `-1` for any other character.
pub open spec fn nibble_val(c: char) -> int {
    if c == '0' {
        0
    } else if c == '1' {
        1
    } else if c == '2' {
        2
    } else if c == '3' {
        3
    } else if c == '4' {
        4
    } else if c == '5' {
        5
    } else if c == '6' {
        6
    } else if c == '7' {
        7
    } else if c == '8' {
        8
    } else if c == '9' {
        9
    } else if c == 'a' {
        10
    } else if c == 'b' {
        11
    } else if c == 'c' {
        12
    } else if c == 'd' {
        13
    } else if c == 'e' {
        14
    } else if c == 'f' {
        15
    } else {
        -1
    }
}

/// Whether `c` is a lower-case hexadecimal digit.
pub open spec fn is_hex_char(c: char) -> bool {
    0 <= nibble_val(c) < 16
}

/// `16^n`.
pub open spec fn pow16(n: nat) -> int
    decreases n,
{
    if n == 0 {
        1
    } else {
        16 * pow16((n - 1) as nat)
    }
}

/// The `n` low hexadecimal digits of `v`, most significant first.
pub open spec fn hex_digits(v: int, n: nat) -> Seq<char>
    decreases n,
{
    if n == 0 {
        Seq::empty()
    } else {
        hex_digits(v / 16, (n - 1) as nat).push(nibble_char(v % 16))
    }
}

/// The canonical text form of identifier `id`: 32 hexadecimal digits in the
/// grouping 8-4-4-4-12, separated by hyphens.
pub open spec fn uuid_text(id: u128) -> Seq<char> {
    let h = hex_digits(id as int, 32);
    h.take(8) + seq!['-'] + h.subrange(8, 12) + seq!['-'] + h.subrange(12, 16) + seq!['-']
        + h.subrange(16, 20) + seq!['-'] + h.skip(20)
}

pub proof fn lemma_pow16_pos(n: nat)
    ensures
        pow16(n) >= 1,
    decreases n,
{
    if n > 0 {
        lemma_pow16_pos((n - 1) as nat);
    }
}

pub proof fn lemma_pow16_mono(a: nat, b: nat)
    requires
        a <= b,
    ensures
        pow16(a) <= pow16(b),
    decreases b,
{
    if a < b {
        lemma_pow16_mono(a, (b - 1) as nat);
        lemma_pow16_pos((b - 1) as nat);
    }
}

pub proof fn lemma_hex_digits_len(v: int, n: nat)
    ensures
        hex_digits(v, n).len() == n,
    decreases n,
{
    if n > 0 {
        lemma_hex_digits_len(v / 16, (n - 1) as nat);
    }
}

pub proof fn lemma_hex_digits_are_hex(v: int, n: nat)
    requires
        v >= 0,
    ensures
        forall|k: int| 0 <= k < n ==> is_hex_char(#[trigger] hex_digits(v, n)[k]),
    decreases n,
{
    if n > 0 {
        lemma_hex_digits_are_hex(v / 16, (n - 1) as nat);
        lemma_hex_digits_len(v / 16, (n - 1) as nat);
        assert(is_hex_char(nibble_char(v % 16)));
    }
}

pub proof fn lemma_hex_digits_inj(a: int, b: int, n: nat)
    requires
        0 <= a < pow16(n),
        0 <= b < pow16(n),
        hex_digits(a, n) == hex_digits(b, n),
    ensures
        a == b,
    decreases n,
{
    if n == 0 {
        assert(a == 0 && b == 0);
    } else {
        let pa = hex_digits(a / 16, (n - 1) as nat);
        let pb = hex_digits(b / 16, (n - 1) as nat);
        lemma_hex_digits_len(a / 16, (n - 1) as nat);
        lemma_hex_digits_len(b / 16, (n - 1) as nat);
        assert(pa.push(nibble_char(a % 16)).drop_last() =~= pa);
        assert(pb.push(nibble_char(b % 16)).drop_last() =~= pb);
        assert(pa == pb);
        assert(pa.push(nibble_char(a % 16)).last() == nibble_char(a % 16));
        assert(pb.push(nibble_char(b % 16)).last() == nibble_char(b % 16));
        assert(nibble_char(a % 16) == nibble_char(b % 16));
        assert(a % 16 == b % 16);
        lemma_pow16_pos((n - 1) as nat);
        assert(a / 16 < pow16((n - 1) as nat)) by {
            if a / 16 >= pow16((n - 1) as nat) {
                assert(a >= 16 * (a / 16)) by {
                    vstd::arithmetic::div_mod::lemma_fundamental_div_mod(a, 16);
                }
                assert(16 * (a / 16) >= 16 * pow16((n - 1) as nat)) by (nonlinear_arith)
                    requires
                        a / 16 >= pow16((n - 1) as nat),
                ;
            }
        }
        assert(b / 16 < pow16((n - 1) as nat)) by {
            if b / 16 >= pow16((n - 1) as nat) {
                assert(b >= 16 * (b / 16)) by {
                    vstd::arithmetic::div_mod::lemma_fundamental_div_mod(b, 16);
                }
                assert(16 * (b / 16) >= 16 * pow16((n - 1) as nat)) by (nonlinear_arith)
                    requires
                        b / 16 >= pow16((n - 1) as nat),
                ;
            }
        }
        lemma_hex_digits_inj(a / 16, b / 16, (n - 1) as nat);
        vstd::arithmetic::div_mod::lemma_fundamental_div_mod(a, 16);
        vstd::arithmetic::div_mod::lemma_fundamental_div_mod(b, 16);
    }
}

proof fn lemma_pow16_32()
    ensures
        pow16(32) == 0x100000000000000000000000000000000,
{
    reveal_with_fuel(pow16, 33);
    assert(pow16(32) == 0x100000000000000000000000000000000);
}

/// The hexadecimal digit for `d`.
pub(crate) fn hex_char(d: u8) -> (r: char)
    requires
        d < 16,
    ensures
        r == nibble_char(d as int),
{
    if d == 0 {
        '0'
    } else if d == 1 {
        '1'
    } else if d == 2 {
        '2'
    } else if d == 3 {
        '3'
    } else if d == 4 {
        '4'
    } else if d == 5 {
        '5'
    } else if d == 6 {
        '6'
    } else if d == 7 {
        '7'
    } else if d == 8 {
        '8'
    } else if d == 9 {
        '9'
    } else if d == 10 {
        'a'
    } else if d == 11 {
        'b'
    } else if d == 12 {
        'c'
    } else if d == 13 {
        'd'
    } else if d == 14 {
        'e'
    } else {
        'f'
    }
}

/// The value of a hexadecimal digit character, if it is one.
pub(crate) fn hex_digit_val(c: char) -> (r: Option<u8>)
    ensures
        match r {
            Some(v) => v < 16 && nibble_val(c) == v as int,
            None => !is_hex_char(c),
        },
{
    match c {
        '0' => Some(0),
        '1' => Some(1),
        '2' => Some(2),
        '3' => Some(3),
        '4' => Some(4),
        '5' => Some(5),
        '6' => Some(6),
        '7' => Some(7),
        '8' => Some(8),
        '9' => Some(9),
        'a' => Some(10),
        'b' => Some(11),
        'c' => Some(12),
        'd' => Some(13),
        'e' => Some(14),
        'f' => Some(15),
        _ => None,
    }
}

/// The 32 hexadecimal digits of `id`, most significant first.
pub(crate) fn hex32(id: u128) -> (r: Vec<char>)
    ensures
        r@ == hex_digits(id as int, 32),
        r@.len() == 32,
{
    let mut out: Vec<char> = Vec::new();
    let mut v: u128 = id;
    let mut i: usize = 0;
    while i < 32
        invariant
            i <= 32,
            out@.len() == i,
            hex_digits(id as int, 32) == hex_digits(v as int, (32 - i) as nat) + out@,
        decreases 32 - i,
    {
        let d: u8 = (v % 16) as u8;
        let ghost prev_v = v as int;
        let ghost prev_out = out@;
        out.insert(0, hex_char(d));
        v = v / 16;
        i += 1;
        proof {
            assert(hex_digits(prev_v, (33 - i) as nat) == hex_digits(v as int, (32 - i) as nat).push(
                nibble_char(prev_v % 16),
            ));
            assert(hex_digits(v as int, (32 - i) as nat).push(nibble_char(prev_v % 16)) + prev_out
                =~= hex_digits(v as int, (32 - i) as nat) + out@);
        }
    }
    proof {
        assert(hex_digits(v as int, 0) + out@ =~= out@);
        lemma_hex_digits_len(id as int, 32);
    }
    out
}

/// Formats an identifier in its canonical hyphenated text form.
pub fn format_id(id: u128) -> (r: String)
    ensures
        r@ == uuid_text(id),
{
    let h = hex32(id);
    let mut out: Vec<char> = Vec::new();
    let mut i: usize = 0;
    while i < 32
        invariant
            i <= 32,
            h@ == hex_digits(id as int, 32),
            h@.len() == 32,
            out@ == ({
                let d = h@;
                if i <= 8 {
                    d.take(i as int)
                } else if i <= 12 {
                    d.take(8) + seq!['-'] + d.subrange(8, i as int)
                } else if i <= 16 {
                    d.take(8) + seq!['-'] + d.subrange(8, 12) + seq!['-'] + d.subrange(12, i as int)
                } else if i <= 20 {
                    d.take(8) + seq!['-'] + d.subrange(8, 12) + seq!['-'] + d.subrange(12, 16)
                        + seq!['-'] + d.subrange(16, i as int)
                } else {
                    d.take(8) + seq!['-'] + d.subrange(8, 12) + seq!['-'] + d.subrange(12, 16)
                        + seq!['-'] + d.subrange(16, 20) + seq!['-'] + d.subrange(20, i as int)
                }
            }),
        decreases 32 - i,
    {
        if i == 8 || i == 12 || i == 16 || i == 20 {
            out.push('-');
        }
        let ghost before = out@;
        out.push(h[i]);
        i += 1;
        proof {
            let d = h@;
            if i <= 8 {
                assert(out@ =~= d.take(i as int));
            } else if i <= 12 {
                assert(out@ =~= d.take(8) + seq!['-'] + d.subrange(8, i as int));
            } else if i <= 16 {
                assert(out@ =~= d.take(8) + seq!['-'] + d.subrange(8, 12) + seq!['-'] + d.subrange(
                    12,
                    i as int,
                ));
            } else if i <= 20 {
                assert(out@ =~= d.take(8) + seq!['-'] + d.subrange(8, 12) + seq!['-'] + d.subrange(
                    12,
                    16,
                ) + seq!['-'] + d.subrange(16, i as int));
            } else {
                assert(out@ =~= d.take(8) + seq!['-'] + d.subrange(8, 12) + seq!['-'] + d.subrange(
                    12,
                    16,
                ) + seq!['-'] + d.subrange(16, 20) + seq!['-'] + d.subrange(20, i as int));
            }
        }
    }
    proof {
        assert(h@.subrange(20, 32) =~= h@.skip(20));
        assert(out@ =~= uuid_text(id));
    }
    from_chars(out.as_slice())
}

/// Parses the canonical hyphenated text form back into an identifier.
///
/// Succeeds exactly on strings of the shape produced by [`format_id`].
pub fn parse_id(s: &str) -> (r: Option<u128>)
    ensures
        match r {
            Some(id) => s@ == uuid_text(id),
            None => forall|id: u128| s@ != uuid_text(id),
        },
{
    let chars = crate::strutil::to_chars(s);
    proof {
        lemma_uuid_text_shape();
    }
    if chars.len() != 36 {
        return None;
    }
    if !(chars[8] == '-' && chars[13] == '-' && chars[18] == '-' && chars[23] == '-') {
        return None;
    }
    // Collect the 32 digit positions, skipping the four hyphens.
    let mut digits: Vec<char> = Vec::new();
    let mut i: usize = 0;
    while i < 36
        invariant
            i <= 36,
            chars@ == s@,
            chars@.len() == 36,
            digits@ == digit_positions(chars@).take(digit_count(i as int)),
        decreases 36 - i,
    {
        if !(i == 8 || i == 13 || i == 18 || i == 23) {
            digits.push(chars[i]);
        }
        i += 1;
        proof {
            lemma_digit_positions(chars@, i as int);
        }
    }
    proof {
        assert(digits@ =~= digit_positions(chars@));
    }
    // Accumulate the digits, most significant first.
    let mut acc: u128 = 0;
    let mut k: usize = 0;
    while k < 32
        invariant
            k <= 32,
            digits@.len() == 32,
            chars@ == s@,
            chars@.len() == 36,
            digits@ == digit_positions(chars@),
            chars@[8] == '-' && chars@[13] == '-' && chars@[18] == '-' && chars@[23] == '-',
            (acc as int) < pow16(k as nat),
            hex_digits(acc as int, k as nat) == digits@.take(k as int),
        decreases 32 - k,
    {
        let d = match hex_digit_val(digits[k]) {
            Some(d) => d,
            None => {
                proof {
                    assert forall|id: u128| s@ != uuid_text(id) by {
                        if s@ == uuid_text(id) {
                            lemma_text_digits(id, s@);
                            lemma_hex_digits_are_hex(id as int, 32);
                            assert(is_hex_char(digits@[k as int]));
                        }
                    }
                }
                return None;
            },
        };
        proof {
            lemma_pow16_mono((k + 1) as nat, 32);
            lemma_pow16_32();
            assert(16 * (acc as int) + 15 < pow16((k + 1) as nat) <= pow16(32)) by {
                assert(16 * (acc as int) + 16 <= 16 * pow16(k as nat)) by (nonlinear_arith)
                    requires
                        (acc as int) < pow16(k as nat),
                ;
            }
        }
        let ghost old_acc = acc as int;
        acc = acc * 16 + (d as u128);
        k += 1;
        proof {
            vstd::arithmetic::div_mod::lemma_fundamental_div_mod_converse(
                acc as int,
                16,
                old_acc,
                d as int,
            );
            assert(hex_digits(acc as int, k as nat) == hex_digits(old_acc, (k - 1) as nat).push(
                nibble_char(d as int),
            ));
            assert(digits@.take(k as int) =~= digits@.take(k as int - 1).push(
                digits@[k as int - 1],
            ));
            assert(nibble_char(nibble_val(digits@[k as int - 1])) == digits@[k as int - 1]);
        }
    }
    proof {
        assert(digits@.take(32) =~= digits@);
        lemma_digits_text(acc, s@);
    }
    Some(acc)
}

/// The characters of a 36-character identifier string at its digit positions.
spec fn digit_positions(s: Seq<char>) -> Seq<char> {
    s.take(8) + s.subrange(9, 13) + s.subrange(14, 18) + s.subrange(19, 23) + s.subrange(24, 36)
}

/// How many of the first `i` positions of an identifier string hold digits.
spec fn digit_count(i: int) -> int {
    if i <= 8 {
        i
    } else if i <= 13 {
        i - 1
    } else if i <= 18 {
        i - 2
    } else if i <= 23 {
        i - 3
    } else {
        i - 4
    }
}

proof fn lemma_digit_positions(s: Seq<char>, i: int)
    requires
        s.len() == 36,
        0 <= i <= 36,
    ensures
        digit_positions(s).take(digit_count(i)) == ({
            if i <= 8 {
                s.take(i)
            } else if i <= 13 {
                s.take(8) + s.subrange(9, if i < 9 { 9 } else { i })
            } else if i <= 18 {
                s.take(8) + s.subrange(9, 13) + s.subrange(14, if i < 14 { 14 } else { i })
            } else if i <= 23 {
                s.take(8) + s.subrange(9, 13) + s.subrange(14, 18) + s.subrange(
                    19,
                    if i < 19 { 19 } else { i },
                )
            } else {
                s.take(8) + s.subrange(9, 13) + s.subrange(14, 18) + s.subrange(19, 23)
                    + s.subrange(24, if i < 24 { 24 } else { i })
            }
        }),
{
    if i <= 8 {
        assert(digit_positions(s).take(digit_count(i)) =~= s.take(i));
    } else if i <= 13 {
        assert(digit_positions(s).take(digit_count(i)) =~= s.take(8) + s.subrange(
            9,
            if i < 9 { 9 } else { i },
        ));
    } else if i <= 18 {
        assert(digit_positions(s).take(digit_count(i)) =~= s.take(8) + s.subrange(9, 13)
            + s.subrange(14, if i < 14 { 14 } else { i }));
    } else if i <= 23 {
        assert(digit_positions(s).take(digit_count(i)) =~= s.take(8) + s.subrange(9, 13)
            + s.subrange(14, 18) + s.subrange(19, if i < 19 { 19 } else { i }));
    } else {
        assert(digit_positions(s).take(digit_count(i)) =~= s.take(8) + s.subrange(9, 13)
            + s.subrange(14, 18) + s.subrange(19, 23) + s.subrange(
            24,
            if i < 24 { 24 } else { i },
        ));
    }
}

pub proof fn lemma_uuid_text_shape()
    ensures
        forall|id: u128| (#[trigger] uuid_text(id)).len() == 36,
        forall|id: u128|
            uuid_text(id)[8] == '-' && uuid_text(id)[13] == '-' && (#[trigger] uuid_text(id))[18]
                == '-' && uuid_text(id)[23] == '-',
{
    assert forall|id: u128| (#[trigger] uuid_text(id)).len() == 36 && uuid_text(id)[8] == '-'
        && uuid_text(id)[13] == '-' && uuid_text(id)[18] == '-' && uuid_text(id)[23] == '-' by {
        lemma_hex_digits_len(id as int, 32);
    }
}

/// Connects a string of identifier shape to the digits of the identifier.
proof fn lemma_text_digits(id: u128, s: Seq<char>)
    requires
        s == uuid_text(id),
    ensures
        digit_positions(s) == hex_digits(id as int, 32),
{
    lemma_hex_digits_len(id as int, 32);
    assert(digit_positions(s) =~= hex_digits(id as int, 32));
}

/// The converse: a 36-character string with hyphens in place whose digit
/// positions carry the digits of `id` is the text of `id`.
proof fn lemma_digits_text(id: u128, s: Seq<char>)
    requires
        s.len() == 36,
        s[8] == '-' && s[13] == '-' && s[18] == '-' && s[23] == '-',
        digit_positions(s) == hex_digits(id as int, 32),
    ensures
        s == uuid_text(id),
{
    lemma_hex_digits_len(id as int, 32);
    assert(s =~= uuid_text(id));
}

/// Formatting then parsing an identifier returns the identifier itself.
pub proof fn lemma_id_round_trip(id: u128)
    ensures
        forall|other: u128| uuid_text(id) == uuid_text(other) ==> other == id,
{
    assert forall|other: u128| uuid_text(id) == uuid_text(other) implies other == id by {
        lemma_text_digits(id, uuid_text(id));
        lemma_text_digits(other, uuid_text(other));
        lemma_pow16_32();
        lemma_hex_digits_inj(id as int, other as int, 32);
    }
}

} // verus!
