use vstd::prelude::*;

use crate::text::{
    decimal, digit_char, join_with, lemma_join_split, lemma_split_after_piece,
    lemma_split_without_separator, split_on, split_str, texts,
};

verus! {

/// An ASCII decimal digit.
pub open spec fn is_digit(c: char) -> bool {
    '0' <= c && c <= '9'
}

/// The value of a decimal digit.
pub open spec fn digit_value(c: char) -> int {
    c as int - '0' as int
}

/// Every character of the text is a decimal digit.
pub open spec fn all_digits(s: Seq<char>) -> bool {
    forall|i: int| 0 <= i < s.len() ==> is_digit(#[trigger] s[i])
}

/// The value of a run of decimal digits.
pub open spec fn digits_value(s: Seq<char>) -> int
    decreases s.len(),
{
    if s.len() == 0 {
        0
    } else {
        digits_value(s.drop_last()) * 10 + digit_value(s.last())
    }
}

/// An octet as dot-decimal notation writes it: one to three digits, no leading zero,
/// at most 255.
pub open spec fn canonical_octet(s: Seq<char>) -> bool {
    &&& 1 <= s.len() <= 3
    &&& all_digits(s)
    &&& s.len() > 1 ==> s[0] != '0'
    &&& digits_value(s) <= 255
}

/// The dot-decimal notation of an IPv4 address.
pub open spec fn dotted_quad(a: u8, b: u8, c: u8, d: u8) -> Seq<char> {
    decimal(a as nat) + seq!['.'] + decimal(b as nat) + seq!['.'] + decimal(c as nat) + seq!['.']
        + decimal(d as nat)
}

/// The text is an IPv4 address in dot-decimal notation.
pub open spec fn is_dotted_quad(text: Seq<char>) -> bool {
    exists|a: u8, b: u8, c: u8, d: u8| text == #[trigger] dotted_quad(a, b, c, d)
}

proof fn lemma_digit_char(d: nat)
    requires
        d < 10,
    ensures
        is_digit(digit_char(d)),
        digit_value(digit_char(d)) == d,
{
}

proof fn lemma_digit_char_of(c: char)
    requires
        is_digit(c),
    ensures
        digit_char(digit_value(c) as nat) == c,
{
}

/// The decimal notation of a byte value is a canonical octet of that value, without dots.
pub proof fn lemma_decimal_octet(n: nat)
    requires
        n < 256,
    ensures
        canonical_octet(decimal(n)),
        digits_value(decimal(n)) == n,
        n < 10 ==> decimal(n).len() == 1,
        n < 100 ==> decimal(n).len() <= 2,
        n >= 1 ==> decimal(n)[0] != '0',
        !decimal(n).contains('.'),
    decreases n,
{
    if n < 10 {
        lemma_digit_char(n);
        let s = decimal(n);
        assert(s == seq![digit_char(n)]);
        assert(s.drop_last() =~= Seq::<char>::empty());
        assert(digits_value(Seq::<char>::empty()) == 0);
        assert(digits_value(s) == digits_value(s.drop_last()) * 10 + digit_value(s.last()));
        assert(all_digits(s));
    } else {
        let m = n / 10;
        lemma_decimal_octet(m);
        lemma_digit_char(n % 10);
        let s = decimal(n);
        assert(s == decimal(m).push(digit_char(n % 10)));
        assert(s.drop_last() =~= decimal(m));
        vstd::arithmetic::div_mod::lemma_fundamental_div_mod(n as int, 10);
        assert(m * 10 + n % 10 == n);
        assert(digits_value(s) == digits_value(decimal(m)) * 10 + digit_value(digit_char(n % 10)));
        assert(all_digits(s)) by {
            assert forall|i: int| 0 <= i < s.len() implies is_digit(#[trigger] s[i]) by {
                if i < s.len() - 1 {
                    assert(s[i] == decimal(m)[i]);
                }
            }
        }
        assert(s[0] == decimal(m)[0]);
        if s.contains('.') {
            let k = choose|k: int| 0 <= k < s.len() && s[k] == '.';
            if k < s.len() - 1 {
                assert(decimal(m)[k] == '.');
            }
        }
    }
}

proof fn lemma_value_bounds(s: Seq<char>)
    requires
        all_digits(s),
    ensures
        0 <= digits_value(s),
        s.len() >= 1 && s[0] != '0' ==> digits_value(s) >= 1,
    decreases s.len(),
{
    if s.len() > 0 {
        let t = s.drop_last();
        assert(all_digits(t)) by {
            assert forall|i: int| 0 <= i < t.len() implies is_digit(#[trigger] t[i]) by {
                assert(t[i] == s[i]);
            }
        }
        lemma_value_bounds(t);
        assert(is_digit(s[s.len() - 1]));
        if s.len() >= 2 {
            assert(t[0] == s[0]);
        }
    }
}

/// A canonical octet is the decimal notation of its value.
pub proof fn lemma_octet_canonical(s: Seq<char>)
    requires
        canonical_octet(s),
    ensures
        decimal(digits_value(s) as nat) == s,
    decreases s.len(),
{
    lemma_value_bounds(s);
    assert(is_digit(s[s.len() - 1]));
    let t = s.drop_last();
    let d = digit_value(s.last());
    if s.len() == 1 {
        assert(t =~= Seq::<char>::empty());
        lemma_digit_char_of(s[0]);
        assert(seq![s[0]] =~= s);
    } else {
        assert(all_digits(t)) by {
            assert forall|i: int| 0 <= i < t.len() implies is_digit(#[trigger] t[i]) by {
                assert(t[i] == s[i]);
            }
        }
        lemma_value_bounds(t);
        assert(t[0] == s[0]);
        assert(canonical_octet(t));
        lemma_octet_canonical(t);
        let v = digits_value(s);
        vstd::arithmetic::div_mod::lemma_fundamental_div_mod_converse(v, 10, digits_value(t), d);
        lemma_digit_char_of(s.last());
        assert(t.push(s.last()) =~= s);
    }
}

/// A dot-decimal address splits at its dots into the notations of its four octets.
pub proof fn lemma_split_dotted_quad(a: u8, b: u8, c: u8, d: u8)
    ensures
        split_on(dotted_quad(a, b, c, d), '.') == seq![
            decimal(a as nat),
            decimal(b as nat),
            decimal(c as nat),
            decimal(d as nat),
        ],
{
    let da = decimal(a as nat);
    let db = decimal(b as nat);
    let dc = decimal(c as nat);
    let dd = decimal(d as nat);
    assert(!da.contains('.') && !db.contains('.') && !dc.contains('.') && !dd.contains('.')) by {
        lemma_decimal_octet(a as nat);
        lemma_decimal_octet(b as nat);
        lemma_decimal_octet(c as nat);
        lemma_decimal_octet(d as nat);
    }
    let tail2 = dc.push('.') + dd;
    let tail1 = db.push('.') + tail2;
    assert(dotted_quad(a, b, c, d) =~= da.push('.') + tail1);
    assert(split_on(dd, '.') == seq![dd]) by {
        lemma_split_without_separator(dd, '.');
    }
    assert(split_on(tail2, '.') == seq![dc] + seq![dd]) by {
        lemma_split_after_piece(dc, dd, '.');
    }
    assert(split_on(tail1, '.') == seq![db] + (seq![dc] + seq![dd])) by {
        lemma_split_after_piece(db, tail2, '.');
    }
    assert(split_on(da.push('.') + tail1, '.') == seq![da] + (seq![db] + (seq![dc] + seq![dd])))
        by {
        lemma_split_after_piece(da, tail1, '.');
    }
    assert(seq![da] + (seq![db] + (seq![dc] + seq![dd])) =~= seq![da, db, dc, dd]);
}

/// The dot-decimal text of an address determines the address.
pub proof fn lemma_dotted_quad_injective(
    a: u8,
    b: u8,
    c: u8,
    d: u8,
    a2: u8,
    b2: u8,
    c2: u8,
    d2: u8,
)
    requires
        dotted_quad(a, b, c, d) == dotted_quad(a2, b2, c2, d2),
    ensures
        a == a2 && b == b2 && c == c2 && d == d2,
{
    lemma_split_dotted_quad(a, b, c, d);
    lemma_split_dotted_quad(a2, b2, c2, d2);
    let p = seq![decimal(a as nat), decimal(b as nat), decimal(c as nat), decimal(d as nat)];
    let q = seq![decimal(a2 as nat), decimal(b2 as nat), decimal(c2 as nat), decimal(d2 as nat)];
    assert(p[0] == q[0] && p[1] == q[1] && p[2] == q[2] && p[3] == q[3]);
    lemma_decimal_octet(a as nat);
    lemma_decimal_octet(a2 as nat);
    lemma_decimal_octet(b as nat);
    lemma_decimal_octet(b2 as nat);
    lemma_decimal_octet(c as nat);
    lemma_decimal_octet(c2 as nat);
    lemma_decimal_octet(d as nat);
    lemma_decimal_octet(d2 as nat);
}

/// Four canonical octets joined by dots are a dot-decimal address.
proof fn lemma_join_octets(parts: Seq<Seq<char>>)
    requires
        parts.len() == 4,
        forall|i: int| 0 <= i < 4 ==> canonical_octet(#[trigger] parts[i]),
    ensures
        join_with(parts, '.') == dotted_quad(
            digits_value(parts[0]) as u8,
            digits_value(parts[1]) as u8,
            digits_value(parts[2]) as u8,
            digits_value(parts[3]) as u8,
        ),
{
    assert(canonical_octet(parts[0]));
    assert(canonical_octet(parts[1]));
    assert(canonical_octet(parts[2]));
    assert(canonical_octet(parts[3]));
    lemma_value_bounds(parts[0]);
    lemma_value_bounds(parts[1]);
    lemma_value_bounds(parts[2]);
    lemma_value_bounds(parts[3]);
    lemma_octet_canonical(parts[0]);
    lemma_octet_canonical(parts[1]);
    lemma_octet_canonical(parts[2]);
    lemma_octet_canonical(parts[3]);
    let p3 = parts.drop_last();
    let p2 = p3.drop_last();
    let p1 = p2.drop_last();
    assert(join_with(p1, '.') == parts[0]);
    assert(join_with(p2, '.') == parts[0].push('.') + parts[1]);
    assert(join_with(p3, '.') == (parts[0].push('.') + parts[1]).push('.') + parts[2]);
    assert(join_with(parts, '.') =~= dotted_quad(
        digits_value(parts[0]) as u8,
        digits_value(parts[1]) as u8,
        digits_value(parts[2]) as u8,
        digits_value(parts[3]) as u8,
    ));
}

/// Reads one octet of a dot-decimal address.
fn parse_octet(part: &str) -> (r: Option<u8>)
    ensures
        r is Some <==> canonical_octet(part@),
        r matches Some(v) ==> v == digits_value(part@),
{
    let n = part.unicode_len();
    if n < 1 || n > 3 {
        return None;
    }
    let mut value: u32 = 0;
    let mut i: usize = 0;
    while i < n
        invariant
            n == part@.len(),
            1 <= n <= 3,
            i <= n,
            all_digits(part@.subrange(0, i as int)),
            value == digits_value(part@.subrange(0, i as int)),
            i == 0 ==> value == 0,
            i == 1 ==> value < 10,
            i == 2 ==> value < 100,
            value < 1000,
        decreases n - i,
    {
        let c = part.get_char(i);
        let ghost prefix = part@.subrange(0, i + 1);
        assert(prefix.drop_last() =~= part@.subrange(0, i as int));
        if c < '0' || c > '9' {
            assert(!all_digits(part@)) by {
                assert(!is_digit(part@[i as int]));
            }
            return None;
        }
        value = value * 10 + (c as u32 - '0' as u32);
        assert(all_digits(prefix)) by {
            assert forall|k: int| 0 <= k < prefix.len() implies is_digit(#[trigger] prefix[k]) by {
                if k < i {
                    assert(prefix[k] == part@.subrange(0, i as int)[k]);
                }
            }
        }
        i += 1;
    }
    assert(part@.subrange(0, n as int) =~= part@);
    if n > 1 && part.get_char(0) == '0' {
        return None;
    }
    if value > 255 {
        return None;
    }
    Some(value as u8)
}

/// Reads an IPv4 address in dot-decimal notation: four decimal octets between dots, each
/// at most 255 and without leading zeros, as `Ipv4Addr`'s `FromStr` accepts them.
pub fn parse_dotted_quad(text: &str) -> (r: Option<(u8, u8, u8, u8)>)
    ensures
        r is Some <==> is_dotted_quad(text@),
        r matches Some((a, b, c, d)) ==> text@ == dotted_quad(a, b, c, d),
        forall|a: u8, b: u8, c: u8, d: u8|
            text@ == #[trigger] dotted_quad(a, b, c, d) ==> r == Some((a, b, c, d)),
{
    let parts = split_str(text, '.');
    let ghost pieces = texts(parts@);
    proof {
        lemma_join_split(text@, '.');
        if is_dotted_quad(text@) {
            let (a, b, c, d) = choose|a: u8, b: u8, c: u8, d: u8|
                text@ == #[trigger] dotted_quad(a, b, c, d);
            lemma_split_dotted_quad(a, b, c, d);
            lemma_decimal_octet(a as nat);
            lemma_decimal_octet(b as nat);
            lemma_decimal_octet(c as nat);
            lemma_decimal_octet(d as nat);
            assert(pieces.len() == 4);
            assert(canonical_octet(pieces[0]) && canonical_octet(pieces[1]) && canonical_octet(
                pieces[2],
            ) && canonical_octet(pieces[3]));
        }
    }
    if parts.len() != 4 {
        return None;
    }
    assert(pieces[0] == parts@[0]@ && pieces[1] == parts@[1]@);
    assert(pieces[2] == parts@[2]@ && pieces[3] == parts@[3]@);
    let a = parse_octet(parts[0].as_str());
    let b = parse_octet(parts[1].as_str());
    let c = parse_octet(parts[2].as_str());
    let d = parse_octet(parts[3].as_str());
    match (a, b, c, d) {
        (Some(a), Some(b), Some(c), Some(d)) => {
            proof {
                assert forall|i: int| 0 <= i < 4 implies canonical_octet(#[trigger] pieces[i]) by {
                    assert(i == 0 || i == 1 || i == 2 || i == 3);
                }
                lemma_join_octets(pieces);
                assert(is_dotted_quad(text@)) by {
                    assert(text@ == dotted_quad(a, b, c, d));
                }
                assert forall|a2: u8, b2: u8, c2: u8, d2: u8|
                    text@ == #[trigger] dotted_quad(a2, b2, c2, d2) implies (a, b, c, d) == (
                    a2,
                    b2,
                    c2,
                    d2,
                ) by {
                    lemma_dotted_quad_injective(a, b, c, d, a2, b2, c2, d2);
                }
            }
            Some((a, b, c, d))
        },
        _ => None,
    }
}

} // verus!
