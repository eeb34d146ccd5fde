//! Numbers as the store spells them: unsigned integers in base 10 or 16,
//! read leniently and written with a fixed minimum width.
use vstd::prelude::*;

verus! {

/// The value of a digit character in the given radix (10 or 16), if it is one.
/// Letters of either case count as hexadecimal digits.
pub open spec fn char_digit(c: char, radix: nat) -> Option<nat> {
    if '0' <= c && c <= '9' && (c as nat) - ('0' as nat) < radix {
        Some(((c as nat) - ('0' as nat)) as nat)
    } else if radix == 16 && 'a' <= c && c <= 'f' {
        Some(((c as nat) - ('a' as nat) + 10) as nat)
    } else if radix == 16 && 'A' <= c && c <= 'F' {
        Some(((c as nat) - ('A' as nat) + 10) as nat)
    } else {
        None
    }
}

pub open spec fn all_digits(s: Seq<char>, radix: nat) -> bool {
    forall|i: int| 0 <= i < s.len() ==> (#[trigger] char_digit(s[i], radix)) is Some
}

/// The number that a string of digits denotes, most significant digit first.
pub open spec fn digits_value(s: Seq<char>, radix: nat) -> nat
    decreases s.len(),
{
    if s.len() == 0 {
        0
    } else {
        digits_value(s.drop_last(), radix) * radix + char_digit(s.last(), radix).unwrap_or(0)
    }
}

/// The digits of an unsigned integer after an optional single leading `+`.
pub open spec fn unsigned_body(s: Seq<char>) -> Seq<char> {
    if s.len() > 0 && s[0] == '+' {
        s.subrange(1, s.len() as int)
    } else {
        s
    }
}

/// How a string reads as a `u32` in the given radix: an optional `+`, then at
/// least one digit, and a value that fits in 32 bits. Anything else is no number.
pub open spec fn parse_u32_spec(s: Seq<char>, radix: nat) -> Option<u32> {
    let body = unsigned_body(s);
    if body.len() > 0 && all_digits(body, radix) && digits_value(body, radix) <= u32::MAX {
        Some(digits_value(body, radix) as u32)
    } else {
        None
    }
}

/// The character for a digit value below 16.
pub open spec fn digit_char(d: nat, upper: bool) -> char {
    if d < 10 {
        (('0' as nat) + d) as char
    } else if upper {
        (('A' as nat) + d - 10) as char
    } else {
        (('a' as nat) + d - 10) as char
    }
}

/// The shortest spelling of `n` in the given radix (at least one digit).
pub open spec fn digits_of(n: nat, radix: nat, upper: bool) -> Seq<char>
    recommends
        radix >= 2,
    decreases n via digits_of_decreases
{
    if n < radix || radix < 2 {
        seq![digit_char(n, upper)]
    } else {
        digits_of(n / radix, radix, upper).push(digit_char(n % radix, upper))
    }
}

#[via_fn]
proof fn digits_of_decreases(n: nat, radix: nat, upper: bool) {
    if !(n < radix || radix < 2) {
        assert(n / radix < n) by (nonlinear_arith)
            requires
                n >= radix,
                radix >= 2,
        ;
    }
}

/// The spelling of `n` in the given radix, padded with zeros on the left to
/// at least `width` characters.
pub open spec fn padded_digits(n: nat, radix: nat, width: nat, upper: bool) -> Seq<char> {
    let d = digits_of(n, radix, upper);
    if d.len() < width {
        Seq::new((width - d.len()) as nat, |i: int| '0') + d
    } else {
        d
    }
}

/// Lowercase hexadecimal, at least eight digits: how substitute keys and
/// layout names are spelled.
pub open spec fn hex8_lower(n: u32) -> Seq<char> {
    padded_digits(n as nat, 16, 8, false)
}

/// Uppercase hexadecimal, at least eight digits.
pub open spec fn hex8_upper(n: u32) -> Seq<char> {
    padded_digits(n as nat, 16, 8, true)
}

/// Uppercase hexadecimal, at least four digits: how a locale identifier is spelled.
pub open spec fn hex4_upper(n: u32) -> Seq<char> {
    padded_digits(n as nat, 16, 4, true)
}

/// Lowercase hexadecimal, at least four digits.
pub open spec fn hex4_lower(n: u32) -> Seq<char> {
    padded_digits(n as nat, 16, 4, false)
}

/// Decimal, no padding: how preload keys are spelled.
pub open spec fn decimal(n: u32) -> Seq<char> {
    digits_of(n as nat, 10, false)
}

proof fn lemma_digits_value_prefix(s: Seq<char>, radix: nat, j: int)
    requires
        radix >= 1,
        0 <= j <= s.len(),
    ensures
        digits_value(s.subrange(0, j), radix) <= digits_value(s, radix),
    decreases s.len(),
{
    if j < s.len() {
        assert(s.subrange(0, s.len() - 1 as int) =~= s.drop_last());
        lemma_digits_value_prefix(s.drop_last(), radix, j);
        assert(s.drop_last().subrange(0, j) =~= s.subrange(0, j));
        let p = digits_value(s.drop_last(), radix);
        assert(p <= p * radix) by (nonlinear_arith)
            requires
                radix >= 1,
        ;
    } else {
        assert(s.subrange(0, j) =~= s);
    }
}

fn digit_value(c: char, radix: u32) -> (r: Option<u32>)
    requires
        radix == 10 || radix == 16,
    ensures
        r matches Some(d) ==> char_digit(c, radix as nat) == Some(d as nat) && d < radix,
        r is None ==> char_digit(c, radix as nat) is None,
{
    if '0' <= c && c <= '9' && (c as u32) - ('0' as u32) < radix {
        Some((c as u32) - ('0' as u32))
    } else if radix == 16 && 'a' <= c && c <= 'f' {
        Some((c as u32) - ('a' as u32) + 10)
    } else if radix == 16 && 'A' <= c && c <= 'F' {
        Some((c as u32) - ('A' as u32) + 10)
    } else {
        None
    }
}

/// Reads `s` as an unsigned 32-bit number in base 10 or 16, as
/// `u32::from_str_radix` does.
pub fn parse_u32(s: &str, radix: u32) -> (r: Option<u32>)
    requires
        radix == 10 || radix == 16,
    ensures
        r == parse_u32_spec(s@, radix as nat),
{
    let len = s.unicode_len();
    let mut start: usize = 0;
    if len > 0 && s.get_char(0) == '+' {
        start = 1;
    }
    let ghost body = unsigned_body(s@);
    assert(body =~= s@.subrange(start as int, len as int));
    if start == len {
        return None;
    }
    let mut acc: u64 = 0;
    let mut i: usize = start;
    while i < len
        invariant
            start <= i <= len,
            len == s@.len(),
            body == s@.subrange(start as int, len as int),
            body == unsigned_body(s@),
            radix == 10 || radix == 16,
            acc as nat == digits_value(body.subrange(0, i - start), radix as nat),
            all_digits(body.subrange(0, i - start), radix as nat),
            acc <= u32::MAX,
        decreases len - i,
    {
        let c = s.get_char(i);
        assert(body[i - start] == c);
        let ghost pre = body.subrange(0, i - start);
        let ghost next = body.subrange(0, i + 1 - start);
        assert(next.drop_last() =~= pre);
        assert(next.last() == c);
        match digit_value(c, radix) {
            None => {
                assert(!all_digits(body, radix as nat)) by {
                    assert(char_digit(body[i - start], radix as nat) is None);
                }
                assert(parse_u32_spec(s@, radix as nat) is None);
                return None;
            },
            Some(d) => {
                assert(acc * (radix as u64) + (d as u64) <= 16 * 0xFFFF_FFFFu64 + 16) by (nonlinear_arith)
                    requires
                        acc <= 0xFFFF_FFFFu64,
                        radix <= 16,
                        d < radix,
                ;
                let v: u64 = acc * (radix as u64) + (d as u64);
                assert(v as nat == digits_value(next, radix as nat));
                assert(all_digits(next, radix as nat)) by {
                    assert forall|k: int| 0 <= k < next.len() implies (#[trigger] char_digit(
                        next[k],
                        radix as nat,
                    )) is Some by {
                        if k < next.len() - 1 {
                            assert(next[k] == pre[k]);
                        }
                    }
                }
                if v > 0xFFFF_FFFFu64 {
                    proof {
                        lemma_digits_value_prefix(body, radix as nat, i + 1 - start);
                    }
                    return None;
                }
                acc = v;
                i = i + 1;
            },
        }
    }
    assert(body.subrange(0, len - start) =~= body);
    Some(acc as u32)
}

fn digit_str(d: u32, upper: bool) -> (r: &'static str)
    requires
        d < 16,
    ensures
        r@ == seq![digit_char(d as nat, upper)],
{
    proof {
        reveal_strlit("0");
        reveal_strlit("1");
        reveal_strlit("2");
        reveal_strlit("3");
        reveal_strlit("4");
        reveal_strlit("5");
        reveal_strlit("6");
        reveal_strlit("7");
        reveal_strlit("8");
        reveal_strlit("9");
        reveal_strlit("a");
        reveal_strlit("b");
        reveal_strlit("c");
        reveal_strlit("d");
        reveal_strlit("e");
        reveal_strlit("f");
        reveal_strlit("A");
        reveal_strlit("B");
        reveal_strlit("C");
        reveal_strlit("D");
        reveal_strlit("E");
        reveal_strlit("F");
    }
    let r = match d {
        0 => "0",
        1 => "1",
        2 => "2",
        3 => "3",
        4 => "4",
        5 => "5",
        6 => "6",
        7 => "7",
        8 => "8",
        9 => "9",
        10 => if upper { "A" } else { "a" },
        11 => if upper { "B" } else { "b" },
        12 => if upper { "C" } else { "c" },
        13 => if upper { "D" } else { "d" },
        14 => if upper { "E" } else { "e" },
        _ => if upper { "F" } else { "f" },
    };
    assert(r@ =~= seq![digit_char(d as nat, upper)]);
    r
}

fn push_digits(out: &mut String, n: u32, radix: u32, upper: bool)
    requires
        radix == 10 || radix == 16,
    ensures
        final(out)@ == old(out)@ + digits_of(n as nat, radix as nat, upper),
    decreases n,
{
    if n >= radix {
        push_digits(out, n / radix, radix, upper);
    }
    out.append(digit_str(n % radix, upper));
    assert(final(out)@ =~= old(out)@ + digits_of(n as nat, radix as nat, upper));
}

/// Spells `n` in base 10 or 16, padded with zeros on the left to `width`
/// characters, as the `{:0w}`, `{:0wx}` and `{:0wX}` formats do.
pub fn format_padded(n: u32, radix: u32, width: usize, upper: bool) -> (r: String)
    requires
        radix == 10 || radix == 16,
    ensures
        r@ == padded_digits(n as nat, radix as nat, width as nat, upper),
{
    let mut digits = String::new();
    push_digits(&mut digits, n, radix, upper);
    assert(digits@ =~= digits_of(n as nat, radix as nat, upper));
    let len = digits.as_str().unicode_len();
    let mut out = String::new();
    let mut k: usize = len;
    while k < width
        invariant
            len <= k,
            len == digits@.len(),
            k <= width || len >= width,
            len >= width ==> k == len,
            out@ =~= Seq::new((k - len) as nat, |i: int| '0'),
        decreases width - k,
    {
        proof {
            reveal_strlit("0");
        }
        out.append("0");
        k = k + 1;
    }
    out.append(digits.as_str());
    proof {
        if len >= width {
            assert(out@ =~= digits@);
        } else {
            assert(k == width);
        }
    }
    out
}

/// `{:08x}`
pub fn format_hex8_lower(n: u32) -> (r: String)
    ensures
        r@ == hex8_lower(n),
{
    format_padded(n, 16, 8, false)
}

/// `{:08X}`
pub fn format_hex8_upper(n: u32) -> (r: String)
    ensures
        r@ == hex8_upper(n),
{
    format_padded(n, 16, 8, true)
}

/// `{:04X}`
pub fn format_hex4_upper(n: u32) -> (r: String)
    ensures
        r@ == hex4_upper(n),
{
    format_padded(n, 16, 4, true)
}

/// `{:04x}`
pub fn format_hex4_lower(n: u32) -> (r: String)
    ensures
        r@ == hex4_lower(n),
{
    format_padded(n, 16, 4, false)
}

/// `{}`
pub fn format_decimal(n: u32) -> (r: String)
    ensures
        r@ == decimal(n),
{
    let r = format_padded(n, 10, 0, false);
    assert(r@ =~= decimal(n));
    r
}

} // verus!
