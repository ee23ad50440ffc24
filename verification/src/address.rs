//! Addresses of nodes, as text and as numbers.
use crate::text::{chars_of, decimal, digit, number_text};
use vstd::prelude::*;

verus! {

/// An address of version 4 of the Internet Protocol.
#[derive(Clone, Copy, PartialEq, Eq, Structural, Debug)]
pub struct Ipv4 {
    pub a: u8,
    pub b: u8,
    pub c: u8,
    pub d: u8,
}

/// The text of an address: its four numbers with dots between them.
pub open spec fn ipv4_text(ip: Ipv4) -> Seq<char> {
    decimal(ip.a as nat) + seq!['.'] + decimal(ip.b as nat) + seq!['.'] + decimal(ip.c as nat)
        + seq!['.'] + decimal(ip.d as nat)
}

/// The text is that of some address.
pub open spec fn is_ipv4_text(text: Seq<char>) -> bool {
    exists|ip: Ipv4| text == #[trigger] ipv4_text(ip)
}

/// The address of which this is the text, if there is one.
pub open spec fn ipv4_of(text: Seq<char>) -> Option<Ipv4> {
    if is_ipv4_text(text) {
        Some(choose|ip: Ipv4| text == #[trigger] ipv4_text(ip))
    } else {
        None
    }
}

/// The character is a decimal digit.
pub open spec fn is_digit(c: char) -> bool {
    '0' <= c <= '9'
}

/// What the digit counts.
pub open spec fn worth(c: char) -> int {
    c as int - '0' as int
}

proof fn lemma_octet(n: nat)
    requires
        n <= 255,
    ensures
        n < 10 ==> decimal(n) == seq![digit(n as int)],
        10 <= n < 100 ==> decimal(n) == seq![digit(n as int / 10), digit(n as int % 10)],
        100 <= n ==> decimal(n) == seq![
            digit(n as int / 100),
            digit(n as int / 10 % 10),
            digit(n as int % 10),
        ],
        1 <= decimal(n).len() <= 3,
        forall|i: int| 0 <= i < decimal(n).len() ==> is_digit(#[trigger] decimal(n)[i]),
        decimal(n).len() > 1 ==> decimal(n)[0] != '0',
        decimal(n).len() == 1 ==> n == worth(decimal(n)[0]),
        decimal(n).len() == 2 ==> n == 10 * worth(decimal(n)[0]) + worth(decimal(n)[1]),
        decimal(n).len() == 3 ==> n == 100 * worth(decimal(n)[0]) + 10 * worth(decimal(n)[1])
            + worth(decimal(n)[2]),
{
    reveal_with_fuel(decimal, 3);
    if n >= 100 {
        assert(n / 10 / 10 < 10);
        assert(decimal(n) =~= seq![
            digit(n as int / 100),
            digit(n as int / 10 % 10),
            digit(n as int % 10),
        ]);
    } else if n >= 10 {
        assert(decimal(n) =~= seq![digit(n as int / 10), digit(n as int % 10)]);
    } else {
        assert(decimal(n) =~= seq![digit(n as int)]);
    }
}

proof fn lemma_read_digits(t: Seq<char>, n: nat)
    requires
        n <= 255,
        1 <= t.len() <= 3,
        forall|i: int| 0 <= i < t.len() ==> is_digit(#[trigger] t[i]),
        t.len() > 1 ==> t[0] != '0',
        t.len() == 1 ==> n == worth(t[0]),
        t.len() == 2 ==> n == 10 * worth(t[0]) + worth(t[1]),
        t.len() == 3 ==> n == 100 * worth(t[0]) + 10 * worth(t[1]) + worth(t[2]),
    ensures
        decimal(n) == t,
{
    lemma_octet(n);
    assert(is_digit(t[0]));
    if t.len() > 1 {
        assert(is_digit(t[1]));
    }
    if t.len() > 2 {
        assert(is_digit(t[2]));
    }
    assert(decimal(n) =~= t);
}

fn digit_of(c: char) -> (d: Option<u32>)
    ensures
        d is Some <==> is_digit(c),
        d matches Some(d) ==> d == worth(c) && d < 10,
{
    if '0' <= c && c <= '9' {
        Some(c as u32 - '0' as u32)
    } else {
        None
    }
}

fn digit_at(chars: &Vec<char>, at: usize) -> (d: Option<u32>)
    ensures
        d is Some <==> at < chars@.len() && is_digit(chars@[at as int]),
        d matches Some(d) ==> d == worth(chars@[at as int]) && d < 10,
{
    if at < chars.len() {
        digit_of(chars[at])
    } else {
        None
    }
}

/// `s` begins with the number, and no digit follows it.
spec fn begins_with(s: Seq<char>, v: u8, rest: Seq<char>) -> bool {
    s == decimal(v as nat) + rest && (rest.len() == 0 || !is_digit(rest[0]))
}

proof fn lemma_begins(s: Seq<char>, at: int, v: u8, rest: Seq<char>)
    requires
        0 <= at <= s.len(),
        begins_with(s.skip(at), v, rest),
    ensures
        ({
            let n = decimal(v as nat).len();
            &&& 1 <= n <= 3
            &&& at + n <= s.len()
            &&& forall|i: int| 0 <= i < n ==> is_digit(#[trigger] s[at + i])
            &&& at + n == s.len() || !is_digit(s[at + n])
            &&& n > 1 ==> s[at] != '0'
            &&& n == 1 ==> v == worth(s[at])
            &&& n == 2 ==> v == 10 * worth(s[at]) + worth(s[at + 1])
            &&& n == 3 ==> v == 100 * worth(s[at]) + 10 * worth(s[at + 1]) + worth(s[at + 2])
            &&& s.skip(at + n) == rest
        }),
{
    lemma_octet(v as nat);
    let t = decimal(v as nat);
    let tail = s.skip(at);
    assert(tail.len() == t.len() + rest.len());
    assert forall|i: int| 0 <= i < t.len() implies s[at + i] == #[trigger] t[i] by {
        assert(tail[i] == s[at + i]);
        assert((t + rest)[i] == t[i]);
    }
    assert forall|i: int| 0 <= i < t.len() implies is_digit(#[trigger] s[at + i]) by {
        assert(is_digit(t[i]));
    }
    if rest.len() > 0 {
        assert(tail[t.len() as int] == s[at + t.len()]);
        assert((t + rest)[t.len() as int] == rest[0]);
    }
    assert(s[at + 0] == t[0]);
    if t.len() > 1 {
        assert(s[at + 1] == t[1]);
    }
    if t.len() > 2 {
        assert(s[at + 2] == t[2]);
    }
    assert(s.skip(at + t.len()) =~= rest) by {
        assert forall|i: int| 0 <= i < rest.len() implies s.skip(at + t.len())[i] == rest[i] by {
            assert((t + rest)[t.len() + i] == rest[i]);
            assert(tail[t.len() + i] == s[at + t.len() + i]);
        }
    }
}

/// Reads a number of one to three digits that stands at `at`, is no more than
/// 255 and begins with no zero but its only one.
fn read_octet(chars: &Vec<char>, at: usize) -> (found: Option<(u8, usize)>)
    requires
        at <= chars@.len(),
    ensures
        found matches Some(f) ==> at < f.1 <= chars@.len() && chars@.subrange(
            at as int,
            f.1 as int,
        ) == decimal(f.0 as nat),
        forall|v: u8, rest: Seq<char>|
            #[trigger] begins_with(chars@.skip(at as int), v, rest) ==> found == Some(
                (v, (at + decimal(v as nat).len()) as usize),
            ),
{
    let ghost s = chars@;
    let len: usize = chars.len();
    assert(s.len() == len);
    proof {
        assert forall|v: u8, rest: Seq<char>| #[trigger]
            begins_with(s.skip(at as int), v, rest) implies ({
            let n = decimal(v as nat).len();
            &&& 1 <= n <= 3
            &&& at + n <= s.len()
            &&& is_digit(s[at as int])
            &&& n > 1 ==> is_digit(s[at + 1]) && s[at as int] != '0'
            &&& n > 2 ==> is_digit(s[at + 2])
            &&& at + n == s.len() || !is_digit(s[at + n])
            &&& n == 1 ==> v == worth(s[at as int])
            &&& n == 2 ==> v == 10 * worth(s[at as int]) + worth(s[at + 1])
            &&& n == 3 ==> v == 100 * worth(s[at as int]) + 10 * worth(s[at + 1]) + worth(
                s[at + 2],
            )
        }) by {
            lemma_begins(s, at as int, v, rest);
            let n = decimal(v as nat).len();
            assert(is_digit(s[at + 0]));
            if n > 1 {
                assert(is_digit(s[at + 1]));
            }
            if n > 2 {
                assert(is_digit(s[at + 2]));
            }
        }
    }
    let first: u32 = match digit_at(chars, at) {
        Some(d) => d,
        None => {
            return None;
        },
    };
    let second: u32 = match digit_at(chars, at + 1) {
        Some(d) => d,
        None => {
            proof {
                lemma_read_digits(s.subrange(at as int, at + 1), first as nat);
            }
            return Some((first as u8, at + 1));
        },
    };
    if first == 0 {
        return None;
    }
    let third: u32 = match digit_at(chars, at + 2) {
        Some(d) => d,
        None => {
            proof {
                lemma_read_digits(s.subrange(at as int, at + 2), (10 * first + second) as nat);
            }
            return Some(((10 * first + second) as u8, at + 2));
        },
    };
    if digit_at(chars, at + 3).is_some() {
        return None;
    }
    let total: u32 = 100 * first + 10 * second + third;
    if total > 255 {
        return None;
    }
    proof {
        lemma_read_digits(s.subrange(at as int, at + 3), total as nat);
    }
    Some((total as u8, at + 3))
}

/// The text of `c` and `d`, and the texts of the numbers before them.
spec fn last_two(ip: Ipv4) -> Seq<char> {
    decimal(ip.c as nat) + (seq!['.'] + decimal(ip.d as nat))
}

spec fn last_three(ip: Ipv4) -> Seq<char> {
    decimal(ip.b as nat) + (seq!['.'] + last_two(ip))
}

proof fn lemma_parts(ip: Ipv4)
    ensures
        ipv4_text(ip) == decimal(ip.a as nat) + (seq!['.'] + last_three(ip)),
{
    assert(ipv4_text(ip) =~= decimal(ip.a as nat) + (seq!['.'] + last_three(ip)));
}

/// Reads a number and the dot behind it.
fn read_part(chars: &Vec<char>, at: usize) -> (found: Option<(u8, usize)>)
    requires
        at <= chars@.len(),
    ensures
        found matches Some(f) ==> at < f.1 <= chars@.len() && chars@.skip(at as int) == decimal(
            f.0 as nat,
        ) + (seq!['.'] + chars@.skip(f.1 as int)),
        forall|v: u8, rest: Seq<char>|
            chars@.skip(at as int) == #[trigger] (decimal(v as nat) + (seq!['.'] + rest)) ==> (
            found matches Some(f) && f.0 == v && chars@.skip(f.1 as int) == rest),
{
    let ghost s = chars@;
    let found: Option<(u8, usize)> = read_octet(chars, at);
    proof {
        assert forall|v: u8, rest: Seq<char>|
            s.skip(at as int) == #[trigger] (decimal(v as nat) + (seq![
                '.',
            ] + rest)) implies found == Some((v, (at + decimal(v as nat).len()) as usize)) && at
            + decimal(v as nat).len() < s.len() && s[at + decimal(v as nat).len()] == '.'
            && s.skip(at + decimal(v as nat).len() + 1) == rest by {
            let more = seq!['.'] + rest;
            assert(more[0] == '.');
            assert(begins_with(s.skip(at as int), v, more));
            lemma_begins(s, at as int, v, more);
            let n = at + decimal(v as nat).len();
            assert(s.skip(n)[0] == '.');
            assert(s.skip(n + 1) =~= rest) by {
                assert forall|i: int| 0 <= i < rest.len() implies s.skip(n + 1)[i] == rest[i] by {
                    assert(s.skip(n)[i + 1] == more[i + 1]);
                }
            }
        }
    }
    match found {
        Some((v, next)) => {
            if next < chars.len() && chars[next] == '.' {
                assert(s.skip(at as int) =~= s.subrange(at as int, next as int) + (seq!['.']
                    + s.skip(next + 1)));
                Some((v, next + 1))
            } else {
                None
            }
        },
        None => None,
    }
}

/// Reads a number that stands at the end.
fn read_last(chars: &Vec<char>, at: usize) -> (found: Option<u8>)
    requires
        at <= chars@.len(),
    ensures
        found matches Some(v) ==> chars@.skip(at as int) == decimal(v as nat),
        forall|v: u8| chars@.skip(at as int) == #[trigger] decimal(v as nat) ==> found == Some(v),
{
    let ghost s = chars@;
    let found: Option<(u8, usize)> = read_octet(chars, at);
    proof {
        assert forall|v: u8| s.skip(at as int) == #[trigger] decimal(v as nat) implies found
            == Some((v, s.len() as usize)) by {
            assert(decimal(v as nat) + Seq::<char>::empty() =~= decimal(v as nat));
            assert(begins_with(s.skip(at as int), v, Seq::empty()));
            lemma_begins(s, at as int, v, Seq::empty());
        }
    }
    match found {
        Some((v, next)) => {
            if next == chars.len() {
                assert(s.skip(at as int) =~= s.subrange(at as int, next as int));
                Some(v)
            } else {
                None
            }
        },
        None => None,
    }
}

/// The address of which this is the text, if there is one. No number may begin
/// with a zero but its only one, and nothing else may stand in the text.
pub fn parse_ipv4(text: &str) -> (found: Option<Ipv4>)
    ensures
        found is Some <==> is_ipv4_text(text@),
        found matches Some(ip) ==> text@ == ipv4_text(ip),
        found == ipv4_of(text@),
{
    let chars: Vec<char> = chars_of(text);
    let ghost s = chars@;
    assert(s.skip(0) =~= s);
    proof {
        assert forall|ip: Ipv4| s == #[trigger] ipv4_text(ip) implies s.skip(0) == decimal(
            ip.a as nat,
        ) + (seq!['.'] + last_three(ip)) by {
            lemma_parts(ip);
        }
    }
    let (a, second): (u8, usize) = match read_part(&chars, 0) {
        Some(part) => part,
        None => {
            return None;
        },
    };
    let (b, third): (u8, usize) = match read_part(&chars, second) {
        Some(part) => part,
        None => {
            assert forall|ip: Ipv4| s == #[trigger] ipv4_text(ip) implies false by {
                assert(s.skip(second as int) == last_three(ip));
            }
            return None;
        },
    };
    let (c, fourth): (u8, usize) = match read_part(&chars, third) {
        Some(part) => part,
        None => {
            assert forall|ip: Ipv4| s == #[trigger] ipv4_text(ip) implies false by {
                assert(s.skip(second as int) == last_three(ip));
                assert(s.skip(third as int) == last_two(ip));
            }
            return None;
        },
    };
    proof {
        assert forall|ip: Ipv4| s == #[trigger] ipv4_text(ip) implies ip.a == a && ip.b == b
            && ip.c == c && s.skip(fourth as int) == decimal(ip.d as nat) by {
            assert(s.skip(second as int) == last_three(ip));
            assert(s.skip(third as int) == last_two(ip));
        }
    }
    match read_last(&chars, fourth) {
        Some(d) => {
            let ip = Ipv4 { a, b, c, d };
            proof {
                lemma_parts(ip);
                assert(s =~= ipv4_text(ip));
            }
            Some(ip)
        },
        None => None,
    }
}

proof fn lemma_one_reading(v: u8, rest: Seq<char>, w: u8, more: Seq<char>)
    requires
        decimal(v as nat) + rest == decimal(w as nat) + more,
        rest.len() == 0 || !is_digit(rest[0]),
        more.len() == 0 || !is_digit(more[0]),
    ensures
        v == w,
        rest == more,
{
    let s = decimal(v as nat) + rest;
    assert(s.skip(0) =~= s);
    assert(begins_with(s.skip(0), v, rest));
    assert(begins_with(s.skip(0), w, more));
    lemma_begins(s, 0, v, rest);
    lemma_begins(s, 0, w, more);
    let n = decimal(v as nat).len();
    let m = decimal(w as nat).len();
    if n < m {
        assert(is_digit(s[0int + n]));
    }
    if m < n {
        assert(is_digit(s[0int + m]));
    }
}

/// An address is read back from its text, and no other address has it.
pub proof fn address_is_read_back(ip: Ipv4)
    ensures
        ipv4_of(ipv4_text(ip)) == Some(ip),
{
    let s = ipv4_text(ip);
    let other = choose|other: Ipv4| s == #[trigger] ipv4_text(other);
    assert(s == ipv4_text(other));
    lemma_parts(ip);
    lemma_parts(other);
    let dot = seq!['.'];
    lemma_one_reading(ip.a, dot + last_three(ip), other.a, dot + last_three(other));
    assert((dot + last_three(ip)).skip(1) =~= last_three(ip));
    assert((dot + last_three(other)).skip(1) =~= last_three(other));
    lemma_one_reading(ip.b, dot + last_two(ip), other.b, dot + last_two(other));
    assert((dot + last_two(ip)).skip(1) =~= last_two(ip));
    assert((dot + last_two(other)).skip(1) =~= last_two(other));
    lemma_one_reading(
        ip.c,
        dot + decimal(ip.d as nat),
        other.c,
        dot + decimal(other.d as nat),
    );
    assert((dot + decimal(ip.d as nat)).skip(1) =~= decimal(ip.d as nat));
    assert((dot + decimal(other.d as nat)).skip(1) =~= decimal(other.d as nat));
    let none = Seq::<char>::empty();
    assert(decimal(ip.d as nat) + none =~= decimal(other.d as nat) + none);
    lemma_one_reading(ip.d, none, other.d, none);
}

/// The text of an address.
pub fn format_ipv4(ip: Ipv4) -> (text: String)
    ensures
        text@ == ipv4_text(ip),
        ipv4_of(text@) == Some(ip),
{
    let mut text: String = number_text(ip.a as u64);
    text.push('.');
    text.append(number_text(ip.b as u64).as_str());
    text.push('.');
    text.append(number_text(ip.c as u64).as_str());
    text.push('.');
    text.append(number_text(ip.d as u64).as_str());
    assert(text@ =~= ipv4_text(ip));
    proof {
        address_is_read_back(ip);
    }
    text
}

/// An address is written as its four numbers in order, each in decimal, with
/// dots between them, so that it stands in a text of seven to fifteen
/// characters.
pub proof fn address_is_four_numbers(ip: Ipv4)
    ensures
        ipv4_text(ip) == decimal(ip.a as nat) + seq!['.'] + decimal(ip.b as nat) + seq!['.']
            + decimal(ip.c as nat) + seq!['.'] + decimal(ip.d as nat),
        7 <= ipv4_text(ip).len() <= 15,
        ipv4_of(ipv4_text(ip)) == Some(ip),
{
    lemma_octet(ip.a as nat);
    lemma_octet(ip.b as nat);
    lemma_octet(ip.c as nat);
    lemma_octet(ip.d as nat);
    address_is_read_back(ip);
}

/// A text is read as an address exactly where it is that of one, and as no
/// other.
pub proof fn only_addresses_are_read(text: Seq<char>, ip: Ipv4)
    ensures
        ipv4_of(text) == Some(ip) <==> text == ipv4_text(ip),
{
    if text == ipv4_text(ip) {
        address_is_read_back(ip);
    }
}

} // verus!
