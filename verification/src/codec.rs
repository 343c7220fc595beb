//! Text codecs used by the snapshot format and the dispatch payload:
//! decimal rendering and parsing of unsigned integers, and JSON string
//! escaping.

use vstd::prelude::*;

verus! {

// ---------------------------------------------------------------------------
// Decimal digits
// ---------------------------------------------------------------------------

/// The character for one decimal digit value.
pub open spec fn digit_char(d: nat) -> char
    recommends
        d < 10,
{
    if d == 0 {
        '0'
    } else if d == 1 {
        '1'
    } else if d == 2 {
        '2'
    } else if d == 3 {
        '3'
    } else if d == 4 {
        '4'
    } else if d == 5 {
        '5'
    } else if d == 6 {
        '6'
    } else if d == 7 {
        '7'
    } else if d == 8 {
        '8'
    } else {
        '9'
    }
}

pub open spec fn is_digit_char(c: char) -> bool {
    48 <= c as u32 && c as u32 <= 57
}

/// The numeric value of one decimal digit character.
pub open spec fn digit_value(c: char) -> nat
    recommends
        is_digit_char(c),
{
    (c as u32 - 48) as nat
}

/// The decimal rendering of a natural number, most significant digit first,
/// with no leading zeros (and `0` rendered as "0").
pub open spec fn dec_chars(n: nat) -> Seq<char>
    decreases n,
{
    if n < 10 {
        seq![digit_char(n)]
    } else {
        dec_chars(n / 10).push(digit_char(n % 10))
    }
}

/// The numeric value of a sequence of decimal digit characters.
pub open spec fn dec_value(s: Seq<char>) -> nat
    recommends
        forall|i: int| 0 <= i < s.len() ==> is_digit_char(s[i]),
    decreases s.len(),
{
    if s.len() == 0 {
        0
    } else {
        dec_value(s.drop_last()) * 10 + digit_value(s.last())
    }
}

pub open spec fn all_digit_chars(s: Seq<char>) -> bool {
    forall|i: int| 0 <= i < s.len() ==> is_digit_char(#[trigger] s[i])
}

/// What parsing a decimal `u64` from text means: at least one character, all
/// of them decimal digits, and a value that fits in 64 bits.
pub open spec fn parse_dec_u64(s: Seq<char>) -> Option<u64> {
    if s.len() >= 1 && all_digit_chars(s) && dec_value(s) <= u64::MAX {
        Some(dec_value(s) as u64)
    } else {
        None
    }
}

/// Rendering a number always yields digit characters whose value is the
/// number itself.
pub proof fn lemma_dec_chars_value(n: nat)
    ensures
        dec_chars(n).len() >= 1,
        all_digit_chars(dec_chars(n)),
        dec_value(dec_chars(n)) == n,
    decreases n,
{
    if n < 10 {
        let s = dec_chars(n);
        assert(s =~= seq![digit_char(n)]);
        assert(s.drop_last() =~= Seq::<char>::empty());
        assert(s.last() == digit_char(n));
        assert(dec_value(s.drop_last()) == 0);
        assert(dec_value(s) == 0 * 10 + digit_value(digit_char(n)));
    } else {
        lemma_dec_chars_value(n / 10);
        let s = dec_chars(n);
        let prefix = dec_chars(n / 10);
        assert(s == prefix.push(digit_char(n % 10)));
        assert(s.drop_last() =~= prefix);
        assert(s.last() == digit_char(n % 10));
        assert(dec_value(s) == (n / 10) * 10 + (n % 10));
        assert((n / 10) * 10 + (n % 10) == n) by (nonlinear_arith);
    }
}

/// Parsing inverts rendering: the round trip over text gives the number back.
pub proof fn lemma_dec_round_trip(n: u64)
    ensures
        parse_dec_u64(dec_chars(n as nat)) == Some(n),
{
    lemma_dec_chars_value(n as nat);
}

/// A decimal value only grows as digits are appended on the right: the value
/// of a prefix never exceeds the value of the whole.
proof fn lemma_dec_value_prefix(s: Seq<char>, i: int)
    requires
        0 <= i <= s.len(),
    ensures
        dec_value(s.take(i)) <= dec_value(s),
    decreases s.len() - i,
{
    if i == s.len() {
        assert(s.take(i) =~= s);
    } else {
        lemma_dec_value_prefix(s, i + 1);
        let t = s.take(i + 1);
        assert(t.drop_last() =~= s.take(i));
        assert(dec_value(t) == dec_value(s.take(i)) * 10 + digit_value(t.last()));
        assert(dec_value(s.take(i)) <= dec_value(s.take(i)) * 10) by (nonlinear_arith);
    }
}

/// One digit character as a string slice.
fn digit_str(d: u64) -> (r: &'static str)
    requires
        d < 10,
    ensures
        r@ =~= seq![digit_char(d as nat)],
{
    proof {
        reveal_strlit("0");
        reveal_strlit("1");
        reveal_strlit("2");
        reveal_strlit("3");
        reveal_strlit("4");
        reveal_strlit("5");
        reveal_strlit("6");
        reveal_strlit("7");
        reveal_strlit("8");
        reveal_strlit("9");
    }
    if d == 0 {
        "0"
    } else if d == 1 {
        "1"
    } else if d == 2 {
        "2"
    } else if d == 3 {
        "3"
    } else if d == 4 {
        "4"
    } else if d == 5 {
        "5"
    } else if d == 6 {
        "6"
    } else if d == 7 {
        "7"
    } else if d == 8 {
        "8"
    } else {
        "9"
    }
}

/// Renders `n` in decimal.
pub fn u64_to_dec_string(n: u64) -> (s: String)
    ensures
        s@ == dec_chars(n as nat),
    decreases n,
{
    if n < 10 {
        let s = String::from_str(digit_str(n));
        proof {
            assert(s@ =~= dec_chars(n as nat));
        }
        s
    } else {
        let mut s = u64_to_dec_string(n / 10);
        s.append(digit_str(n % 10));
        proof {
            assert(s@ =~= dec_chars((n / 10) as nat).push(digit_char((n % 10) as nat)));
            assert(dec_chars(n as nat) == dec_chars((n as nat) / 10).push(
                digit_char((n as nat) % 10),
            ));
        }
        s
    }
}

/// Parses a decimal `u64`, rejecting empty text, non-digit characters and
/// values over `u64::MAX`.
pub fn parse_u64_dec(s: &str) -> (r: Option<u64>)
    ensures
        r == parse_dec_u64(s@),
{
    let n = s.unicode_len();
    if n == 0 {
        return None;
    }
    let mut acc: u64 = 0;
    let mut i: usize = 0;
    while i < n
        invariant
            0 <= i <= n,
            n == s@.len(),
            all_digit_chars(s@.take(i as int)),
            acc == dec_value(s@.take(i as int)),
        decreases n - i,
    {
        let c = s.get_char(i);
        let cv = c as u32;
        if cv < 48 || cv > 57 {
            proof {
                assert(!is_digit_char(s@[i as int]));
                assert(!all_digit_chars(s@));
            }
            return None;
        }
        let d: u64 = (cv - 48) as u64;
        proof {
            assert(s@.take(i + 1).drop_last() =~= s@.take(i as int));
            assert(s@.take(i + 1).last() == s@[i as int]);
            assert(dec_value(s@.take(i + 1)) == acc * 10 + d);
        }
        if acc > 1844674407370955161u64 || (acc == 1844674407370955161u64 && d > 5) {
            proof {
                assert(acc * 10 + d > u64::MAX) by (nonlinear_arith)
                    requires
                        acc > 1844674407370955161u64 || (acc == 1844674407370955161u64 && d > 5),
                ;
                lemma_dec_value_prefix(s@, i + 1);
                assert(dec_value(s@) > u64::MAX);
            }
            return None;
        }
        proof {
            assert(acc * 10 + d <= u64::MAX) by (nonlinear_arith)
                requires
                    acc < 1844674407370955161u64 || (acc == 1844674407370955161u64 && d <= 5),
                    d < 10,
            ;
        }
        acc = acc * 10 + d;
        i = i + 1;
    }
    proof {
        assert(s@.take(n as int) =~= s@);
    }
    Some(acc)
}

// ---------------------------------------------------------------------------
// Hyphen stripping
// ---------------------------------------------------------------------------

/// `s` with every `'-'` removed and all other characters kept in order.
pub open spec fn strip_hyphens_spec(s: Seq<char>) -> Seq<char>
    decreases s.len(),
{
    if s.len() == 0 {
        Seq::<char>::empty()
    } else if s.last() == '-' {
        strip_hyphens_spec(s.drop_last())
    } else {
        strip_hyphens_spec(s.drop_last()).push(s.last())
    }
}

/// Removes every `'-'` from `s`.
pub fn strip_hyphens(s: &str) -> (out: String)
    ensures
        out@ == strip_hyphens_spec(s@),
{
    let n = s.unicode_len();
    let mut out = String::new();
    let mut i: usize = 0;
    proof {
        assert(s@.take(0) =~= Seq::<char>::empty());
    }
    while i < n
        invariant
            0 <= i <= n,
            n == s@.len(),
            out@ == strip_hyphens_spec(s@.take(i as int)),
        decreases n - i,
    {
        let c = s.get_char(i);
        if c != '-' {
            out.append(s.substring_char(i, i + 1));
            proof {
                assert(s@.subrange(i as int, i + 1) =~= seq![s@[i as int]]);
            }
        }
        proof {
            assert(s@.take(i + 1).drop_last() =~= s@.take(i as int));
            assert(s@.take(i + 1).last() == s@[i as int]);
        }
        i = i + 1;
    }
    proof {
        assert(s@.take(n as int) =~= s@);
    }
    out
}

// ---------------------------------------------------------------------------
// JSON string escaping
// ---------------------------------------------------------------------------

/// The character for one hexadecimal digit value (lower case).
pub open spec fn hex_char(d: nat) -> char
    recommends
        d < 16,
{
    if d < 10 {
        digit_char(d)
    } else if d == 10 {
        'a'
    } else if d == 11 {
        'b'
    } else if d == 12 {
        'c'
    } else if d == 13 {
        'd'
    } else if d == 14 {
        'e'
    } else {
        'f'
    }
}

/// How one character is written inside a JSON string literal: quote and
/// backslash get a backslash escape, control characters a `\u00XX` escape,
/// and every other character stands for itself.
pub open spec fn json_escape_char(c: char) -> Seq<char> {
    if c == '"' {
        seq!['\\', '"']
    } else if c == '\\' {
        seq!['\\', '\\']
    } else if (c as u32) < 32 {
        seq!['\\', 'u', '0', '0', hex_char((c as u32 / 16) as nat), hex_char(
            (c as u32 % 16) as nat,
        )]
    } else {
        seq![c]
    }
}

/// A whole string escaped for use inside a JSON string literal.
pub open spec fn json_escape(s: Seq<char>) -> Seq<char>
    decreases s.len(),
{
    if s.len() == 0 {
        Seq::<char>::empty()
    } else {
        json_escape(s.drop_last()) + json_escape_char(s.last())
    }
}

proof fn lemma_json_escape_take(s: Seq<char>, i: int)
    requires
        0 <= i < s.len(),
    ensures
        json_escape(s.take(i + 1)) == json_escape(s.take(i)) + json_escape_char(s[i]),
{
    let t = s.take(i + 1);
    assert(t.len() == i + 1);
    assert(t.drop_last() =~= s.take(i));
    assert(t.last() == s[i]);
}

/// One hexadecimal digit as a string slice.
fn hex_str(d: u32) -> (r: &'static str)
    requires
        d < 16,
    ensures
        r@ =~= seq![hex_char(d as nat)],
{
    if d < 10 {
        digit_str(d as u64)
    } else {
        proof {
            reveal_strlit("a");
            reveal_strlit("b");
            reveal_strlit("c");
            reveal_strlit("d");
            reveal_strlit("e");
            reveal_strlit("f");
        }
        if d == 10 {
            "a"
        } else if d == 11 {
            "b"
        } else if d == 12 {
            "c"
        } else if d == 13 {
            "d"
        } else if d == 14 {
            "e"
        } else {
            "f"
        }
    }
}

/// Escapes `s` for use inside a JSON string literal.
pub fn json_escape_str(s: &str) -> (out: String)
    ensures
        out@ == json_escape(s@),
{
    let n = s.unicode_len();
    let mut out = String::new();
    let mut i: usize = 0;
    proof {
        assert(s@.take(0) =~= Seq::<char>::empty());
    }
    while i < n
        invariant
            0 <= i <= n,
            n == s@.len(),
            out@ == json_escape(s@.take(i as int)),
        decreases n - i,
    {
        let c = s.get_char(i);
        if c == '"' {
            out.append("\\\"");
            proof {
                reveal_strlit("\\\"");
                assert("\\\""@ =~= json_escape_char(c));
            }
        } else if c == '\\' {
            out.append("\\\\");
            proof {
                reveal_strlit("\\\\");
                assert("\\\\"@ =~= json_escape_char(c));
            }
        } else if (c as u32) < 32 {
            let cv = c as u32;
            out.append("\\u00");
            out.append(hex_str(cv / 16));
            out.append(hex_str(cv % 16));
            proof {
                reveal_strlit("\\u00");
                assert("\\u00"@ + seq![hex_char((cv / 16) as nat)] + seq![hex_char(
                    (cv % 16) as nat,
                )] =~= json_escape_char(c));
            }
        } else {
            out.append(s.substring_char(i, i + 1));
            proof {
                assert(s@.subrange(i as int, i + 1) =~= seq![s@[i as int]]);
                assert(seq![s@[i as int]] =~= json_escape_char(c));
            }
        }
        proof {
            lemma_json_escape_take(s@, i as int);
        }
        i = i + 1;
    }
    proof {
        assert(s@.take(n as int) =~= s@);
    }
    out
}

} // verus!
