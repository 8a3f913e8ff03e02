//! IPv4 addresses as text.
//!
//! An address is a 32-bit number, first octet highest. Its text is the
//! dotted form: four decimal numbers from 0 to 255, without leading zeros,
//! with a dot between them. No other text is read as an address.

use crate::text::bytes_eq;
use vstd::prelude::*;

verus! {

/// The byte between the numbers of an address.
pub const DOT: u8 = 0x2e;

/// The byte of the digit zero.
pub const ZERO: u8 = 0x30;

pub open spec fn is_digit(b: u8) -> bool {
    0x30 <= b && b <= 0x39
}

/// The decimal digits of a number below 256, without leading zeros.
pub open spec fn decimal_of(n: u8) -> Seq<u8> {
    if n < 10 {
        seq![(ZERO + n) as u8]
    } else if n < 100 {
        seq![(ZERO + n / 10) as u8, (ZERO + n % 10) as u8]
    } else {
        seq![(ZERO + n / 100) as u8, (ZERO + (n / 10) % 10) as u8, (ZERO + n % 10) as u8]
    }
}

/// One of the four octets of an address; octet 0 is the highest.
pub open spec fn octet_of(ip: u32, index: int) -> u8 {
    if index == 0 {
        (ip / 0x100_0000) as u8
    } else if index == 1 {
        ((ip / 0x1_0000) % 0x100) as u8
    } else if index == 2 {
        ((ip / 0x100) % 0x100) as u8
    } else {
        (ip % 0x100) as u8
    }
}

/// The address with these four octets, highest first.
pub open spec fn address_of(a: u8, b: u8, c: u8, d: u8) -> u32 {
    (a * 0x100_0000 + b * 0x1_0000 + c * 0x100 + d) as u32
}

/// The dotted form of an address.
pub open spec fn dotted(ip: u32) -> Seq<u8> {
    decimal_of(octet_of(ip, 0)) + seq![DOT] + decimal_of(octet_of(ip, 1)) + seq![DOT] + decimal_of(
        octet_of(ip, 2),
    ) + seq![DOT] + decimal_of(octet_of(ip, 3))
}

/// How many digits stand at `at`, counted up to three.
pub open spec fn digits_at(text: Seq<u8>, at: int) -> int {
    if !(0 <= at < text.len() && is_digit(text[at])) {
        0
    } else if !(at + 1 < text.len() && is_digit(text[at + 1])) {
        1
    } else if !(at + 2 < text.len() && is_digit(text[at + 2])) {
        2
    } else {
        3
    }
}

/// The number that `count` digits at `at` write.
pub open spec fn number_at(text: Seq<u8>, at: int, count: int) -> int {
    if count == 1 {
        text[at] - ZERO
    } else if count == 2 {
        (text[at] - ZERO) * 10 + (text[at + 1] - ZERO)
    } else {
        (text[at] - ZERO) * 100 + (text[at + 1] - ZERO) * 10 + (text[at + 2] - ZERO)
    }
}

/// A number of one to three digits at `at` that is at most 255, with the
/// place behind it.
pub open spec fn octet_at(text: Seq<u8>, at: int) -> Option<(u8, int)> {
    let count = digits_at(text, at);
    if count == 0 || number_at(text, at, count) > 255 {
        None
    } else {
        Some((number_at(text, at, count) as u8, at + count))
    }
}

/// Whether a dot stands at `at`.
pub open spec fn dot_at(text: Seq<u8>, at: int) -> bool {
    0 <= at < text.len() && text[at] == DOT
}

/// The address that four numbers with dots between them write, where the
/// text holds just that.
pub open spec fn numbers_of(text: Seq<u8>) -> Option<u32> {
    match octet_at(text, 0) {
        Some((a, end_a)) if dot_at(text, end_a) => match octet_at(text, end_a + 1) {
            Some((b, end_b)) if dot_at(text, end_b) => match octet_at(text, end_b + 1) {
                Some((c, end_c)) if dot_at(text, end_c) => match octet_at(text, end_c + 1) {
                    Some((d, end_d)) if end_d == text.len() => Some(address_of(a, b, c, d)),
                    _ => None,
                },
                _ => None,
            },
            _ => None,
        },
        _ => None,
    }
}

/// Where the decimal form of `n` stands at `at` and no digit follows it,
/// the number read there is `n`.
proof fn lemma_octet_is_read(text: Seq<u8>, at: int, n: u8)
    requires
        0 <= at,
        at + decimal_of(n).len() <= text.len(),
        text.subrange(at, at + decimal_of(n).len()) == decimal_of(n),
        at + decimal_of(n).len() == text.len() || !is_digit(text[at + decimal_of(n).len()]),
    ensures
        octet_at(text, at) == Some((n, at + decimal_of(n).len())),
{
    let digits = decimal_of(n);
    let part = text.subrange(at, at + digits.len());
    assert(part[0] == text[at]);
    if n >= 10 {
        assert(part[1] == text[at + 1]);
    }
    if n >= 100 {
        assert(part[2] == text[at + 2]);
    }
}

/// The four octets of an address make that address.
proof fn lemma_octets_make_address(ip: u32)
    ensures
        address_of(octet_of(ip, 0), octet_of(ip, 1), octet_of(ip, 2), octet_of(ip, 3)) == ip,
{
}

/// The dotted form of an address is read as that address.
pub proof fn lemma_dotted_is_read(ip: u32)
    ensures
        numbers_of(dotted(ip)) == Some(ip),
{
    let a = octet_of(ip, 0);
    let b = octet_of(ip, 1);
    let c = octet_of(ip, 2);
    let d = octet_of(ip, 3);
    let text = dotted(ip);
    let end_a = decimal_of(a).len() as int;
    let end_b = end_a + 1 + decimal_of(b).len();
    let end_c = end_b + 1 + decimal_of(c).len();
    let end_d = end_c + 1 + decimal_of(d).len();
    assert(text.len() == end_d);
    assert(text.subrange(0, end_a) =~= decimal_of(a));
    assert(text[end_a] == DOT);
    assert(text.subrange(end_a + 1, end_b) =~= decimal_of(b));
    assert(text[end_b] == DOT);
    assert(text.subrange(end_b + 1, end_c) =~= decimal_of(c));
    assert(text[end_c] == DOT);
    assert(text.subrange(end_c + 1, end_d) =~= decimal_of(d));
    lemma_octet_is_read(text, 0, a);
    lemma_octet_is_read(text, end_a + 1, b);
    lemma_octet_is_read(text, end_b + 1, c);
    lemma_octet_is_read(text, end_c + 1, d);
    lemma_octets_make_address(ip);
}

/// The dotted form names one address only.
pub proof fn lemma_dotted_names_one_address(a: u32, b: u32)
    requires
        dotted(a) == dotted(b),
    ensures
        a == b,
{
    lemma_dotted_is_read(a);
    lemma_dotted_is_read(b);
}

/// Puts the decimal digits of `n` behind `out`.
fn push_decimal(out: &mut Vec<u8>, n: u8)
    ensures
        final(out)@ == old(out)@ + decimal_of(n),
{
    if n >= 100 {
        out.push(ZERO + n / 100);
    }
    if n >= 10 {
        out.push(ZERO + (n / 10) % 10);
    }
    out.push(ZERO + n % 10);
    assert(out@ =~= old(out)@ + decimal_of(n));
}

/// The dotted form of an address.
pub fn format_ipv4(ip: u32) -> (text: Vec<u8>)
    ensures
        text@ == dotted(ip),
{
    let mut text: Vec<u8> = Vec::new();
    push_decimal(&mut text, (ip / 0x100_0000) as u8);
    text.push(DOT);
    push_decimal(&mut text, ((ip / 0x1_0000) % 0x100) as u8);
    text.push(DOT);
    push_decimal(&mut text, ((ip / 0x100) % 0x100) as u8);
    text.push(DOT);
    push_decimal(&mut text, (ip % 0x100) as u8);
    assert(text@ =~= dotted(ip));
    text
}

fn is_digit_at(text: &[u8], at: usize) -> (found: bool)
    ensures
        found == (at < text@.len() && is_digit(text@[at as int])),
{
    at < text.len() && 0x30 <= text[at] && text[at] <= 0x39
}

/// Reads a number of one to three digits at `at`.
fn read_octet(text: &[u8], at: usize) -> (result: Option<(u8, usize)>)
    ensures
        match octet_at(text@, at as int) {
            Some((n, end)) => result == Some((n, end as usize)) && end <= text@.len(),
            None => result is None,
        },
{
    if !is_digit_at(text, at) {
        return None;
    }
    let mut number: u16 = (text[at] - ZERO) as u16;
    let mut end: usize = at + 1;
    if is_digit_at(text, end) {
        number = number * 10 + (text[end] - ZERO) as u16;
        end = end + 1;
        if is_digit_at(text, end) {
            number = number * 10 + (text[end] - ZERO) as u16;
            end = end + 1;
        }
    }
    if number > 255 {
        return None;
    }
    Some((number as u8, end))
}

fn is_dot_at(text: &[u8], at: usize) -> (found: bool)
    ensures
        found == dot_at(text@, at as int),
{
    at < text.len() && text[at] == DOT
}

/// Reads four numbers with dots between them.
fn read_numbers(text: &[u8]) -> (result: Option<u32>)
    ensures
        result == numbers_of(text@),
{
    let (a, end_a) = match read_octet(text, 0) {
        Some(found) => found,
        None => {
            return None;
        },
    };
    if !is_dot_at(text, end_a) {
        return None;
    }
    let (b, end_b) = match read_octet(text, end_a + 1) {
        Some(found) => found,
        None => {
            return None;
        },
    };
    if !is_dot_at(text, end_b) {
        return None;
    }
    let (c, end_c) = match read_octet(text, end_b + 1) {
        Some(found) => found,
        None => {
            return None;
        },
    };
    if !is_dot_at(text, end_c) {
        return None;
    }
    let (d, end_d) = match read_octet(text, end_c + 1) {
        Some(found) => found,
        None => {
            return None;
        },
    };
    if end_d != text.len() {
        return None;
    }
    Some((a as u32) * 0x100_0000 + (b as u32) * 0x1_0000 + (c as u32) * 0x100 + (d as u32))
}

/// Reads an address from its dotted form. The answer is `Some(ip)` exactly
/// where `text` is the dotted form of `ip`.
pub fn parse_ipv4(text: &[u8]) -> (result: Option<u32>)
    ensures
        result is Some ==> text@ == dotted(result->Some_0),
        result is None ==> forall|ip: u32| text@ != #[trigger] dotted(ip),
{
    let ip = match read_numbers(text) {
        Some(ip) => ip,
        None => {
            assert forall|ip: u32| text@ != #[trigger] dotted(ip) by {
                lemma_dotted_is_read(ip);
            }
            return None;
        },
    };
    let canonical = format_ipv4(ip);
    if bytes_eq(canonical.as_slice(), text) {
        Some(ip)
    } else {
        assert forall|other: u32| text@ != #[trigger] dotted(other) by {
            lemma_dotted_is_read(other);
        }
        None
    }
}

} // verus!
