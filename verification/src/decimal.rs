//! Decimal text for unsigned integers: reading and writing ASCII digits.
//!
//! Reading follows the rules of `u64::from_str`: an optional `+` followed by at
//! least one ASCII digit and nothing else, and a value that fits in 64 bits.
use vstd::prelude::*;

verus! {

/// Whether `b` is an ASCII decimal digit.
pub open spec fn is_digit_byte(b: u8) -> bool {
    0x30 <= b <= 0x39
}

/// Whether every byte of `s` is an ASCII decimal digit.
pub open spec fn all_digits(s: Seq<u8>) -> bool {
    forall|i: int| 0 <= i < s.len() ==> is_digit_byte(#[trigger] s[i])
}

/// Value of a sequence of ASCII digits, most significant first.
pub open spec fn digits_value(s: Seq<u8>) -> nat
    decreases s.len(),
{
    if s.len() == 0 {
        0
    } else {
        digits_value(s.drop_last()) * 10 + (s.last() - 0x30) as nat
    }
}

/// The digits of a number written for `u64::from_str`: a leading `+` is dropped.
pub open spec fn unsigned_digits(s: Seq<u8>) -> Seq<u8> {
    if s.len() > 0 && s[0] == 0x2b {
        s.drop_first()
    } else {
        s
    }
}

/// What `u64::from_str` gives for the bytes `s`: `None` where it reports an error.
pub open spec fn parse_u64_spec(s: Seq<u8>) -> Option<u64> {
    let d = unsigned_digits(s);
    if d.len() > 0 && all_digits(d) && digits_value(d) <= u64::MAX {
        Some(digits_value(d) as u64)
    } else {
        None
    }
}

/// The byte of a single decimal digit.
pub open spec fn digit_byte(d: nat) -> u8 {
    (d + 0x30) as u8
}

/// The shortest decimal writing of `n` in ASCII bytes, as `n.to_string()` gives it.
pub open spec fn decimal_bytes(n: nat) -> Seq<u8>
    decreases n,
{
    if n < 10 {
        seq![digit_byte(n)]
    } else {
        decimal_bytes(n / 10).push(digit_byte(n % 10))
    }
}

/// The characters of [`decimal_bytes`].
pub open spec fn decimal_chars(n: nat) -> Seq<char> {
    decimal_bytes(n).map_values(|b: u8| b as char)
}

/// The value of a sequence of digits never drops when more digits follow.
proof fn lemma_digits_value_prefix(s: Seq<u8>, k: int)
    requires
        0 <= k <= s.len(),
    ensures
        digits_value(s.take(k)) <= digits_value(s),
    decreases s.len(),
{
    if k < s.len() {
        lemma_digits_value_prefix(s.drop_last(), k);
        assert(s.drop_last().take(k) =~= s.take(k));
    } else {
        assert(s.take(k) =~= s);
    }
}

pub fn is_digit(b: u8) -> (r: bool)
    ensures
        r == is_digit_byte(b),
{
    0x30 <= b && b <= 0x39
}

/// Reads an unsigned 64-bit number written in decimal, as `u64::from_str` does.
pub fn parse_u64(s: &[u8]) -> (r: Option<u64>)
    ensures
        r == parse_u64_spec(s@),
{
    let n = s.len();
    let start: usize = if n > 0 && s[0] == 0x2b {
        1
    } else {
        0
    };
    let ghost d = unsigned_digits(s@);
    assert(d =~= s@.subrange(start as int, n as int));
    if start == n {
        return None;
    }
    let mut i: usize = start;
    let mut acc: u64 = 0;
    assert(s@.subrange(start as int, start as int) =~= Seq::<u8>::empty());
    while i < n
        invariant
            start <= i <= n,
            n == s@.len(),
            d == unsigned_digits(s@),
            d =~= s@.subrange(start as int, n as int),
            acc as nat == digits_value(s@.subrange(start as int, i as int)),
            forall|j: int| start <= j < i ==> is_digit_byte(#[trigger] s@[j]),
        decreases n - i,
    {
        let b = s[i];
        if !is_digit(b) {
            assert(d[i - start] == b);
            return None;
        }
        let dv: u64 = (b - 0x30) as u64;
        let ghost next = s@.subrange(start as int, i + 1);
        assert(next.drop_last() =~= s@.subrange(start as int, i as int));
        assert(digits_value(next) == acc * 10 + dv);
        if acc > (u64::MAX - dv) / 10 {
            assert(acc * 10 + dv > u64::MAX) by (nonlinear_arith)
                requires
                    acc > (u64::MAX - dv) / 10,
                    dv <= 9,
            ;
            proof {
                lemma_digits_value_prefix(d, i + 1 - start);
                assert(d.take(i + 1 - start) =~= next);
            }
            return None;
        }
        assert(acc * 10 + dv <= u64::MAX) by (nonlinear_arith)
            requires
                acc <= (u64::MAX - dv) / 10,
                dv <= 9,
        ;
        acc = acc * 10 + dv;
        i = i + 1;
    }
    assert(s@.subrange(start as int, n as int) =~= d);
    assert(all_digits(d)) by {
        assert forall|j: int| 0 <= j < d.len() implies is_digit_byte(#[trigger] d[j]) by {
            assert(d[j] == s@[j + start]);
        }
    }
    Some(acc)
}

/// The string form of one decimal digit.
fn digit_str(d: u64) -> (s: &'static str)
    requires
        d < 10,
    ensures
        s@ == seq![digit_byte(d as nat) as char],
{
    proof {
        reveal_strlit("0");
        reveal_strlit("1");
        reveal_strlit("2");
        reveal_strlit("3");
        reveal_strlit("4");
        reveal_strlit("5");
        reveal_strlit("6");
        reveal_strlit("7");
        reveal_strlit("8");
        reveal_strlit("9");
    }
    match d {
        0 => "0",
        1 => "1",
        2 => "2",
        3 => "3",
        4 => "4",
        5 => "5",
        6 => "6",
        7 => "7",
        8 => "8",
        _ => "9",
    }
}

/// Appends the decimal writing of `n` to `out`.
pub fn append_decimal(out: &mut String, n: u64)
    ensures
        final(out)@ == old(out)@ + decimal_chars(n as nat),
    decreases n,
{
    if n >= 10 {
        append_decimal(out, n / 10);
    }
    out.append(digit_str(n % 10));
    if n < 10 {
        assert(decimal_chars(n as nat) =~= seq![digit_byte(n as nat) as char]);
    } else {
        assert(decimal_chars(n as nat) =~= decimal_chars((n / 10) as nat).push(
            digit_byte((n % 10) as nat) as char,
        ));
    }
}

/// Writes `n` in decimal, as `n.to_string()` does.
pub fn format_u64(n: u64) -> (s: String)
    ensures
        s@ == decimal_chars(n as nat),
{
    let mut s = String::new();
    append_decimal(&mut s, n);
    assert(s@ =~= decimal_chars(n as nat));
    s
}

/// Reading back a number written in decimal gives the same number.
pub proof fn lemma_decimal_round_trip(n: u64)
    ensures
        parse_u64_spec(decimal_bytes(n as nat)) == Some(n),
{
    lemma_decimal_bytes_value(n as nat);
}

/// The UTF-8 bytes of a decimal writing are its ASCII digits.
pub proof fn lemma_decimal_text_bytes(n: nat)
    ensures
        vstd::utf8::encode_utf8(decimal_chars(n)) == decimal_bytes(n),
{
    lemma_decimal_bytes_value(n);
    let c = decimal_chars(n);
    let b = decimal_bytes(n);
    assert(vstd::utf8::is_ascii_chars(c)) by {
        assert forall|i: int| 0 <= i < c.len() implies '\0' <= #[trigger] c[i] <= '\u{7f}' by {
            assert(is_digit_byte(b[i]));
        }
    }
    vstd::utf8::is_ascii_chars_encode_utf8(c);
    assert forall|i: int| 0 <= i < b.len() implies vstd::utf8::encode_utf8(c)[i] == b[i] by {
        assert(is_digit_byte(b[i]));
        assert(c[i] as u8 == vstd::utf8::encode_utf8(c)[i]);
    }
    assert(vstd::utf8::encode_utf8(c) =~= b);
}

proof fn lemma_decimal_bytes_value(n: nat)
    ensures
        decimal_bytes(n).len() >= 1,
        is_digit_byte(decimal_bytes(n)[0]),
        all_digits(decimal_bytes(n)),
        digits_value(decimal_bytes(n)) == n,
    decreases n,
{
    let b = decimal_bytes(n);
    if n < 10 {
        assert(b.drop_last() =~= Seq::<u8>::empty());
        assert(b.last() == digit_byte(n));
        assert(digit_byte(n) == n + 0x30);
        assert(digits_value(b.drop_last()) == 0);
        assert(digits_value(b) == digits_value(b.drop_last()) * 10 + (b.last() - 0x30) as nat);
    } else {
        lemma_decimal_bytes_value(n / 10);
        assert(b.drop_last() =~= decimal_bytes(n / 10));
        assert(b.last() == digit_byte(n % 10));
        assert(digit_byte(n % 10) == n % 10 + 0x30);
        assert((n / 10) * 10 + n % 10 == n);
        assert(digits_value(b) == digits_value(b.drop_last()) * 10 + (b.last() - 0x30) as nat);
        assert(all_digits(b)) by {
            assert forall|i: int| 0 <= i < b.len() implies is_digit_byte(#[trigger] b[i]) by {
                if i < b.len() - 1 {
                    assert(b[i] == decimal_bytes(n / 10)[i]);
                }
            }
        }
    }
}

} // verus!
