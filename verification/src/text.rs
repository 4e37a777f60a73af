use vstd::prelude::*;

verus! {

/// `needle` occurs in `hay` as a run of consecutive characters.
pub open spec fn occurs_in(needle: Seq<char>, hay: Seq<char>) -> bool {
    exists|i: int|
        0 <= i && i + needle.len() <= hay.len() && #[trigger] hay.subrange(i, i + needle.len())
            == needle
}

/// The pieces of `s` between the occurrences of `sep`, in order; a string with
/// `k` separators has `k + 1` pieces, some of them possibly empty.
pub open spec fn split_on(s: Seq<char>, sep: char) -> Seq<Seq<char>>
    decreases s.len(),
{
    if s.len() == 0 {
        seq![Seq::<char>::empty()]
    } else {
        let front = split_on(s.drop_last(), sep);
        if s.last() == sep {
            front.push(Seq::<char>::empty())
        } else {
            front.update(front.len() - 1, front.last().push(s.last()))
        }
    }
}

/// The character of a decimal digit.
pub open spec fn digit_char(d: nat) -> char {
    if d == 0 {
        '0'
    } else if d == 1 {
        '1'
    } else if d == 2 {
        '2'
    } else if d == 3 {
        '3'
    } else if d == 4 {
        '4'
    } else if d == 5 {
        '5'
    } else if d == 6 {
        '6'
    } else if d == 7 {
        '7'
    } else if d == 8 {
        '8'
    } else {
        '9'
    }
}

/// The decimal notation of `n`, without leading zeros.
pub open spec fn decimal(n: nat) -> Seq<char>
    decreases n,
{
    if n < 10 {
        seq![digit_char(n)]
    } else {
        decimal(n / 10).push(digit_char(n % 10))
    }
}

/// Views of a vector of strings.
pub open spec fn texts(v: Seq<String>) -> Seq<Seq<char>> {
    v.map_values(|p: String| p@)
}

/// A string always splits into at least one piece.
pub proof fn lemma_split_nonempty(s: Seq<char>, sep: char)
    ensures
        split_on(s, sep).len() >= 1,
    decreases s.len(),
{
    if s.len() > 0 {
        lemma_split_nonempty(s.drop_last(), sep);
    }
}

/// A string without the separator is a single piece.
pub proof fn lemma_split_without_separator(s: Seq<char>, sep: char)
    requires
        !s.contains(sep),
    ensures
        split_on(s, sep) == seq![s],
    decreases s.len(),
{
    if s.len() > 0 {
        assert(!s.drop_last().contains(sep)) by {
            if s.drop_last().contains(sep) {
                let k = choose|k: int| 0 <= k < s.drop_last().len() && s.drop_last()[k] == sep;
                assert(s[k] == sep);
            }
        }
        lemma_split_without_separator(s.drop_last(), sep);
        assert(s.last() != sep) by {
            assert(s[s.len() - 1] == s.last());
        }
        assert(s.drop_last().push(s.last()) =~= s);
        assert(seq![s.drop_last()].update(0, s.drop_last().push(s.last())) =~= seq![s]);
    } else {
        assert(s =~= Seq::<char>::empty());
    }
}

/// Whether `needle` occurs in `hay`, as `str::contains` tells it.
pub fn str_contains(hay: &str, needle: &str) -> (found: bool)
    ensures
        found == occurs_in(needle@, hay@),
{
    let n = hay.unicode_len();
    let m = needle.unicode_len();
    if m > n {
        return false;
    }
    let mut i: usize = 0;
    while i <= n - m
        invariant
            n == hay@.len(),
            m == needle@.len(),
            m <= n,
            i <= n - m + 1,
            forall|j: int| 0 <= j < i ==> #[trigger] hay@.subrange(j, j + m) != needle@,
        decreases n - m + 1 - i,
    {
        let mut k: usize = 0;
        while k < m && hay.get_char(i + k) == needle.get_char(k)
            invariant
                n == hay@.len(),
                m == needle@.len(),
                m <= n,
                i <= n - m,
                k <= m,
                forall|t: int| 0 <= t < k ==> hay@[i + t] == needle@[t],
            decreases m - k,
        {
            k += 1;
        }
        if k == m {
            assert(hay@.subrange(i as int, i + m) =~= needle@);
            return true;
        }
        assert(hay@.subrange(i as int, i + m)[k as int] != needle@[k as int]);
        i += 1;
    }
    false
}

/// Splits `s` at every occurrence of `sep`, as `str::split` with a character does.
pub fn split_str(s: &str, sep: char) -> (parts: Vec<String>)
    ensures
        texts(parts@) == split_on(s@, sep),
{
    let n = s.unicode_len();
    let mut parts: Vec<String> = Vec::new();
    let mut start: usize = 0;
    let mut i: usize = 0;
    assert(s@.subrange(0, 0) =~= Seq::<char>::empty());
    assert(texts(parts@).push(s@.subrange(0, 0)) =~= seq![Seq::<char>::empty()]);
    while i < n
        invariant
            n == s@.len(),
            start <= i <= n,
            texts(parts@).push(s@.subrange(start as int, i as int)) == split_on(
                s@.subrange(0, i as int),
                sep,
            ),
        decreases n - i,
    {
        let ghost prefix = s@.subrange(0, i + 1);
        assert(prefix.drop_last() =~= s@.subrange(0, i as int));
        assert(prefix.last() == s@[i as int]);
        if s.get_char(i) == sep {
            let piece = String::from_str(s.substring_char(start, i));
            let ghost before = parts@;
            parts.push(piece);
            assert(texts(parts@) =~= texts(before).push(s@.subrange(start as int, i as int)));
            start = i + 1;
            assert(s@.subrange(start as int, i + 1) =~= Seq::<char>::empty());
        } else {
            let ghost front = texts(parts@).push(s@.subrange(start as int, i as int));
            assert(s@.subrange(start as int, i as int).push(s@[i as int]) =~= s@.subrange(
                start as int,
                i + 1,
            ));
            assert(front.update(front.len() - 1, front.last().push(s@[i as int]))
                =~= texts(parts@).push(s@.subrange(start as int, i + 1)));
        }
        i += 1;
    }
    let piece = String::from_str(s.substring_char(start, n));
    let ghost before = parts@;
    parts.push(piece);
    assert(texts(parts@) =~= texts(before).push(s@.subrange(start as int, n as int)));
    assert(s@.subrange(0, n as int) =~= s@);
    parts
}

/// The text of one decimal digit.
fn digit_text(d: u8) -> (text: &'static str)
    requires
        d < 10,
    ensures
        text@ == seq![digit_char(d as nat)],
{
    proof {
        reveal_strlit("0");
        reveal_strlit("1");
        reveal_strlit("2");
        reveal_strlit("3");
        reveal_strlit("4");
        reveal_strlit("5");
        reveal_strlit("6");
        reveal_strlit("7");
        reveal_strlit("8");
        reveal_strlit("9");
    }
    match d {
        0 => "0",
        1 => "1",
        2 => "2",
        3 => "3",
        4 => "4",
        5 => "5",
        6 => "6",
        7 => "7",
        8 => "8",
        _ => "9",
    }
}

/// The decimal notation of a byte, as `Display` writes it.
pub fn decimal_text(n: u8) -> (text: String)
    ensures
        text@ == decimal(n as nat),
    decreases n,
{
    if n < 10 {
        String::from_str(digit_text(n))
    } else {
        let front = decimal_text(n / 10);
        front.concat(digit_text(n % 10))
    }
}

} // verus!

verus! {

/// A single character occurs in a text exactly when the text contains it.
pub proof fn lemma_occurs_single(c: char, hay: Seq<char>)
    ensures
        occurs_in(seq![c], hay) <==> hay.contains(c),
{
    if hay.contains(c) {
        let k = choose|k: int| 0 <= k < hay.len() && hay[k] == c;
        assert(hay.subrange(k, k + 1) =~= seq![c]);
    }
    if occurs_in(seq![c], hay) {
        let k = choose|k: int|
            0 <= k && k + 1 <= hay.len() && #[trigger] hay.subrange(k, k + 1) == seq![c];
        assert(hay.subrange(k, k + 1)[0] == hay[k]);
    }
}

} // verus!

verus! {

/// The pieces joined back together, with `sep` between each two of them.
pub open spec fn join_with(parts: Seq<Seq<char>>, sep: char) -> Seq<char>
    decreases parts.len(),
{
    if parts.len() <= 1 {
        if parts.len() == 0 {
            Seq::empty()
        } else {
            parts[0]
        }
    } else {
        join_with(parts.drop_last(), sep).push(sep) + parts.last()
    }
}

/// Joining the pieces of a split gives back the text.
pub proof fn lemma_join_split(s: Seq<char>, sep: char)
    ensures
        join_with(split_on(s, sep), sep) == s,
    decreases s.len(),
{
    if s.len() == 0 {
        assert(s =~= Seq::<char>::empty());
    } else {
        let front = split_on(s.drop_last(), sep);
        lemma_join_split(s.drop_last(), sep);
        lemma_split_nonempty(s.drop_last(), sep);
        if s.last() == sep {
            let parts = front.push(Seq::<char>::empty());
            assert(parts.drop_last() =~= front);
            assert(join_with(parts, sep) =~= s.drop_last().push(sep));
            assert(s.drop_last().push(sep) =~= s);
        } else {
            let parts = front.update(front.len() - 1, front.last().push(s.last()));
            if front.len() == 1 {
                assert(front[0] == s.drop_last());
                assert(s.drop_last().push(s.last()) =~= s);
            } else {
                assert(parts.drop_last() =~= front.drop_last());
                assert(join_with(front, sep) == join_with(front.drop_last(), sep).push(sep)
                    + front.last());
                assert(join_with(parts, sep) =~= join_with(front, sep).push(s.last()));
                assert(s.drop_last().push(s.last()) =~= s);
            }
        }
    }
}

/// Splitting text that starts with a separator-free piece and a separator gives that
/// piece, then the pieces of the rest.
pub proof fn lemma_split_after_piece(x: Seq<char>, y: Seq<char>, sep: char)
    requires
        !x.contains(sep),
    ensures
        split_on(x.push(sep) + y, sep) == seq![x] + split_on(y, sep),
    decreases y.len(),
{
    lemma_split_without_separator(x, sep);
    if y.len() == 0 {
        assert(x.push(sep) + y =~= x.push(sep));
        assert(x.push(sep).drop_last() =~= x);
        assert(seq![x].push(Seq::<char>::empty()) =~= seq![x] + seq![Seq::<char>::empty()]);
    } else {
        let z = x.push(sep) + y;
        assert(z.drop_last() =~= x.push(sep) + y.drop_last());
        assert(z.last() == y.last());
        lemma_split_after_piece(x, y.drop_last(), sep);
        lemma_split_nonempty(y.drop_last(), sep);
        let rest = split_on(y.drop_last(), sep);
        if y.last() == sep {
            assert((seq![x] + rest).push(Seq::<char>::empty()) =~= seq![x] + rest.push(
                Seq::<char>::empty(),
            ));
        } else {
            let whole = seq![x] + rest;
            assert(whole.update(whole.len() - 1, whole.last().push(y.last())) =~= seq![x]
                + rest.update(rest.len() - 1, rest.last().push(y.last())));
        }
    }
}

} // verus!

verus! {

/// No piece of a split holds the separator; with `lemma_join_split` this fixes the pieces.
pub proof fn lemma_split_pieces_without_separator(s: Seq<char>, sep: char)
    ensures
        forall|i: int|
            0 <= i < split_on(s, sep).len() ==> !(#[trigger] split_on(s, sep)[i]).contains(sep),
    decreases s.len(),
{
    if s.len() > 0 {
        let front = split_on(s.drop_last(), sep);
        lemma_split_pieces_without_separator(s.drop_last(), sep);
        lemma_split_nonempty(s.drop_last(), sep);
        let parts = split_on(s, sep);
        assert forall|i: int| 0 <= i < parts.len() implies !(#[trigger] parts[i]).contains(sep) by {
            if s.last() == sep {
                if i < front.len() {
                    assert(parts[i] == front[i]);
                } else {
                    assert(parts[i] =~= Seq::<char>::empty());
                }
            } else if i < front.len() - 1 {
                assert(parts[i] == front[i]);
            } else {
                let piece = front.last().push(s.last());
                assert(parts[i] == piece);
                assert(!front[front.len() - 1].contains(sep));
                if piece.contains(sep) {
                    let k = choose|k: int| 0 <= k < piece.len() && piece[k] == sep;
                    if k < piece.len() - 1 {
                        assert(front.last()[k] == sep);
                    }
                }
            }
        }
    }
}

} // verus!
