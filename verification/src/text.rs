//! Text as sequences of characters: white space, trimming, splitting on a
//! separator, and the decoding of a cell that holds several values.

use vstd::prelude::*;

verus! {

/// The characters that count as white space when a value is trimmed.
pub open spec fn is_space(c: char) -> bool {
    ||| c == ' '
    ||| ('\u{9}' <= c && c <= '\u{d}')
    ||| c == '\u{85}'
    ||| c == '\u{a0}'
    ||| c == '\u{1680}'
    ||| ('\u{2000}' <= c && c <= '\u{200a}')
    ||| c == '\u{2028}'
    ||| c == '\u{2029}'
    ||| c == '\u{202f}'
    ||| c == '\u{205f}'
    ||| c == '\u{3000}'
}

/// `s` without the white space at its start.
pub open spec fn trim_start(s: Seq<char>) -> Seq<char>
    decreases s.len(),
{
    if s.len() > 0 && is_space(s.first()) {
        trim_start(s.drop_first())
    } else {
        s
    }
}

/// `s` without the white space at its end.
pub open spec fn trim_end(s: Seq<char>) -> Seq<char>
    decreases s.len(),
{
    if s.len() > 0 && is_space(s.last()) {
        trim_end(s.drop_last())
    } else {
        s
    }
}

/// `s` without the white space around it.
pub open spec fn trim(s: Seq<char>) -> Seq<char> {
    trim_end(trim_start(s))
}

/// The position of the first `sep` in `s`, or the length of `s` where it holds none.
pub open spec fn find(s: Seq<char>, sep: char) -> nat
    decreases s.len(),
{
    if s.len() == 0 || s.first() == sep {
        0
    } else {
        1 + find(s.drop_first(), sep)
    }
}

/// The pieces of `s` between its separators, in order. A text without a
/// separator is one piece, the empty text included.
pub open spec fn split(s: Seq<char>, sep: char) -> Seq<Seq<char>>
    decreases s.len(),
{
    let at = find(s, sep);
    if at >= s.len() {
        seq![s]
    } else {
        seq![s.take(at as int)] + split(s.skip(at as int + 1), sep)
    }
}

/// The pieces put together again, with `sep` between neighbours.
pub open spec fn join(pieces: Seq<Seq<char>>, sep: char) -> Seq<char>
    decreases pieces.len(),
{
    if pieces.len() == 0 {
        Seq::empty()
    } else if pieces.len() == 1 {
        pieces[0]
    } else {
        pieces[0] + seq![sep] + join(pieces.drop_first(), sep)
    }
}

/// What a cell of several values holds: its pieces between commas, each
/// trimmed, in the order of the cell.
pub open spec fn multi_value(cell: Seq<char>) -> Seq<Seq<char>> {
    split(cell, ',').map_values(|piece: Seq<char>| trim(piece))
}

/// The character of a decimal digit.
pub open spec fn digit_char(d: nat) -> char {
    if d == 0 {
        '0'
    } else if d == 1 {
        '1'
    } else if d == 2 {
        '2'
    } else if d == 3 {
        '3'
    } else if d == 4 {
        '4'
    } else if d == 5 {
        '5'
    } else if d == 6 {
        '6'
    } else if d == 7 {
        '7'
    } else if d == 8 {
        '8'
    } else {
        '9'
    }
}

/// `n` in decimal, without leading zeros.
pub open spec fn decimal(n: nat) -> Seq<char>
    decreases n,
{
    if n < 10 {
        seq![digit_char(n)]
    } else {
        decimal(n / 10).push(digit_char(n % 10))
    }
}

/// `n` in decimal, with zeros in front up to `width` characters.
pub open spec fn zero_padded(n: nat, width: nat) -> Seq<char> {
    let digits = decimal(n);
    if digits.len() >= width {
        digits
    } else {
        Seq::new((width - digits.len()) as nat, |i: int| '0') + digits
    }
}

/// A number in decimal has at least one character, all of them digits, and
/// as many as its size asks for.
pub proof fn lemma_decimal(n: nat)
    ensures
        decimal(n).len() >= 1,
        n < 10 ==> decimal(n).len() == 1,
        10 <= n < 100 ==> decimal(n).len() == 2,
        100 <= n < 1000 ==> decimal(n).len() == 3,
        1000 <= n < 10000 ==> decimal(n).len() == 4,
        forall|i: int| 0 <= i < decimal(n).len() ==> '0' <= #[trigger] decimal(n)[i] <= '9',
    decreases n,
{
    if n >= 10 {
        lemma_decimal(n / 10);
    }
}

/// A number that fits the width is written in exactly that many digits.
pub proof fn lemma_zero_padded(n: nat, width: nat)
    requires
        decimal(n).len() <= width,
    ensures
        zero_padded(n, width).len() == width,
        forall|i: int| 0 <= i < width ==> '0' <= #[trigger] zero_padded(n, width)[i] <= '9',
{
    lemma_decimal(n);
}

/// `find` stays within the text, finds a separator where it stops short of
/// the end, and passes none on its way.
pub proof fn lemma_find(s: Seq<char>, sep: char)
    ensures
        find(s, sep) <= s.len(),
        find(s, sep) < s.len() ==> s[find(s, sep) as int] == sep,
        forall|k: int| 0 <= k < find(s, sep) ==> s[k] != sep,
    decreases s.len(),
{
    if s.len() == 0 || s.first() == sep {
    } else {
        lemma_find(s.drop_first(), sep);
        let rest = s.drop_first();
        assert forall|k: int| 0 <= k < find(s, sep) implies s[k] != sep by {
            if k > 0 {
                assert(s[k] == rest[k - 1]);
            }
        }
    }
}

/// Where the first `at` characters hold no separator, `find` is `at` if a
/// separator stands there or the text ends there.
pub proof fn lemma_find_at(s: Seq<char>, sep: char, at: nat)
    requires
        at <= s.len(),
        forall|k: int| 0 <= k < at ==> s[k] != sep,
        at < s.len() ==> s[at as int] == sep,
    ensures
        find(s, sep) == at,
    decreases s.len(),
{
    if at > 0 {
        let rest = s.drop_first();
        assert forall|k: int| 0 <= k < at - 1 implies rest[k] != sep by {
            assert(rest[k] == s[k + 1]);
        }
        lemma_find_at(rest, sep, (at - 1) as nat);
    }
}

/// Splitting yields at least one piece, and no piece holds the separator.
pub proof fn lemma_split_pieces(s: Seq<char>, sep: char)
    ensures
        split(s, sep).len() >= 1,
        forall|i: int| 0 <= i < split(s, sep).len() ==> !#[trigger] split(s, sep)[i].contains(sep),
    decreases s.len(),
{
    lemma_find(s, sep);
    let at = find(s, sep);
    if at >= s.len() {
        assert(split(s, sep) =~= seq![s]);
    } else {
        let rest = s.skip(at as int + 1);
        lemma_split_pieces(rest, sep);
        assert forall|i: int| 0 <= i < split(s, sep).len() implies !#[trigger] split(
            s,
            sep,
        )[i].contains(sep) by {
            if i > 0 {
                assert(split(s, sep)[i] == split(rest, sep)[i - 1]);
            }
        }
    }
}

/// Joining the pieces of a text gives the text back.
pub proof fn lemma_join_split(s: Seq<char>, sep: char)
    ensures
        join(split(s, sep), sep) == s,
    decreases s.len(),
{
    lemma_find(s, sep);
    let at = find(s, sep);
    if at >= s.len() {
        assert(split(s, sep) =~= seq![s]);
    } else {
        let rest = s.skip(at as int + 1);
        lemma_join_split(rest, sep);
        lemma_split_pieces(rest, sep);
        let pieces = split(s, sep);
        assert(pieces.drop_first() =~= split(rest, sep));
        assert(s =~= s.take(at as int) + seq![sep] + rest);
    }
}

/// Splitting what was joined gives the pieces back, where there is at least
/// one piece and none of them holds the separator.
pub proof fn lemma_split_join(pieces: Seq<Seq<char>>, sep: char)
    requires
        pieces.len() >= 1,
        forall|i: int| 0 <= i < pieces.len() ==> !#[trigger] pieces[i].contains(sep),
    ensures
        split(join(pieces, sep), sep) == pieces,
    decreases pieces.len(),
{
    let first = pieces[0];
    assert(!first.contains(sep));
    if pieces.len() == 1 {
        lemma_find_at(first, sep, first.len());
        assert(pieces =~= seq![first]);
    } else {
        let rest = pieces.drop_first();
        assert forall|i: int| 0 <= i < rest.len() implies !#[trigger] rest[i].contains(sep) by {
            assert(rest[i] == pieces[i + 1]);
        }
        lemma_split_join(rest, sep);
        let joined = join(pieces, sep);
        assert(joined == first + seq![sep] + join(rest, sep));
        assert forall|k: int| 0 <= k < first.len() implies joined[k] != sep by {
            assert(joined[k] == first[k]);
        }
        lemma_find_at(joined, sep, first.len());
        assert(joined.take(first.len() as int) =~= first);
        assert(joined.skip(first.len() as int + 1) =~= join(rest, sep));
        assert(pieces =~= seq![first] + rest);
    }
}

/// A cell written as `n` values with commas between them, none of which
/// holds a comma itself, decodes to exactly these `n` values, each trimmed,
/// in the order in which they were written.
pub proof fn lemma_multi_value_of_joined(values: Seq<Seq<char>>)
    requires
        values.len() >= 1,
        forall|i: int| 0 <= i < values.len() ==> !#[trigger] values[i].contains(','),
    ensures
        multi_value(join(values, ',')).len() == values.len(),
        forall|i: int|
            0 <= i < values.len() ==> #[trigger] multi_value(join(values, ','))[i] == trim(
                values[i],
            ),
{
    lemma_split_join(values, ',');
}

/// A cell without a comma decodes to one value, the cell trimmed; the empty
/// cell decodes to one empty value.
pub proof fn lemma_multi_value_single(cell: Seq<char>)
    requires
        !cell.contains(','),
    ensures
        multi_value(cell) == seq![trim(cell)],
{
    lemma_find_at(cell, ',', cell.len());
    assert(split(cell, ',') =~= seq![cell]);
    assert(multi_value(cell) =~= seq![trim(cell)]);
}

/// Trimming keeps a run of the text: what it drops at either end is white
/// space, and what it keeps neither starts nor ends with white space.
pub proof fn lemma_trim(s: Seq<char>)
    ensures
        exists|a: int, b: int|
            0 <= a <= b <= s.len() && #[trigger] s.subrange(a, b) == trim(s) && (forall|k: int|
                0 <= k < a ==> is_space(s[k])) && (forall|k: int| b <= k < s.len() ==> is_space(s[k])),
        trim(s).len() > 0 ==> !is_space(trim(s).first()) && !is_space(trim(s).last()),
{
    let (a, b) = lemma_trim_bounds(s, 0, s.len() as int);
    assert(s.subrange(0, s.len() as int) =~= s);
}

/// The bounds of the trimmed part of `s[from..to]`.
proof fn lemma_trim_bounds(s: Seq<char>, from: int, to: int) -> (r: (int, int))
    requires
        0 <= from <= to <= s.len(),
    ensures
        from <= r.0 <= r.1 <= to,
        s.subrange(r.0, r.1) == trim(s.subrange(from, to)),
        forall|k: int| from <= k < r.0 ==> is_space(s[k]),
        forall|k: int| r.1 <= k < to ==> is_space(s[k]),
        r.0 < r.1 ==> !is_space(s[r.0]) && !is_space(s[r.1 - 1]),
    decreases to - from,
{
    let part = s.subrange(from, to);
    if from < to && is_space(s[from]) {
        assert(part.drop_first() =~= s.subrange(from + 1, to));
        lemma_trim_bounds(s, from + 1, to)
    } else if from < to && is_space(s[to - 1]) {
        assert(trim_start(part) == part);
        assert(part.drop_last() =~= s.subrange(from, to - 1));
        let r = lemma_trim_bounds(s, from, to - 1);
        assert(trim_start(s.subrange(from, to - 1)) == s.subrange(from, to - 1));
        r
    } else {
        assert(trim(part) == part);
        (from, to)
    }
}

/// Tells whether `c` is white space.
pub fn char_is_space(c: char) -> (r: bool)
    ensures
        r == is_space(c),
{
    c == ' ' || ('\u{9}' <= c && c <= '\u{d}') || c == '\u{85}' || c == '\u{a0}' || c == '\u{1680}'
        || ('\u{2000}' <= c && c <= '\u{200a}') || c == '\u{2028}' || c == '\u{2029}' || c
        == '\u{202f}' || c == '\u{205f}' || c == '\u{3000}'
}

/// The characters of `s`, one element each.
pub fn chars_of(s: &str) -> (out: Vec<char>)
    ensures
        out@ == s@,
{
    let mut out: Vec<char> = Vec::new();
    for c in it: s.chars()
        invariant
            it.seq() == s@,
            out@ == s@.take(it.index()),
    {
        out.push(c);
    }
    out
}

/// `String::push`: the character is appended, what the string held stays.
#[verifier::external_body]
pub(crate) fn push_char(s: &mut String, c: char)
    ensures
        final(s)@ == old(s)@.push(c),
{
    s.push(c)
}

/// The string made of `chars[from..to]`.
pub fn string_of(chars: &Vec<char>, from: usize, to: usize) -> (out: String)
    requires
        from <= to <= chars.len(),
    ensures
        out@ == chars@.subrange(from as int, to as int),
{
    let mut out = String::new();
    let mut i: usize = from;
    while i < to
        invariant
            from <= i <= to <= chars.len(),
            out@ == chars@.subrange(from as int, i as int),
        decreases to - i,
    {
        push_char(&mut out, chars[i]);
        i = i + 1;
    }
    out
}

/// The bounds of `chars[from..to]` trimmed.
pub fn trim_bounds(chars: &Vec<char>, from: usize, to: usize) -> (r: (usize, usize))
    requires
        from <= to <= chars.len(),
    ensures
        from <= r.0 <= r.1 <= to,
        chars@.subrange(r.0 as int, r.1 as int) == trim(chars@.subrange(from as int, to as int)),
{
    let mut a: usize = from;
    while a < to && char_is_space(chars[a])
        invariant
            from <= a <= to <= chars.len(),
            trim_start(chars@.subrange(from as int, to as int)) == trim_start(
                chars@.subrange(a as int, to as int),
            ),
        decreases to - a,
    {
        assert(chars@.subrange(a as int, to as int).drop_first() =~= chars@.subrange(
            a + 1,
            to as int,
        ));
        a = a + 1;
    }
    let mut b: usize = to;
    while b > a && char_is_space(chars[b - 1])
        invariant
            a <= b <= to <= chars.len(),
            trim_end(chars@.subrange(a as int, to as int)) == trim_end(
                chars@.subrange(a as int, b as int),
            ),
        decreases b - a,
    {
        assert(chars@.subrange(a as int, b as int).drop_last() =~= chars@.subrange(
            a as int,
            b - 1,
        ));
        b = b - 1;
    }
    (a, b)
}

/// Decodes a cell of several values: splits it on commas and trims each
/// piece. Never fails; the empty cell gives one empty value.
pub fn decode_multi_value(cell: &str) -> (out: Vec<String>)
    ensures
        out.deep_view() == multi_value(cell@),
{
    let chars = chars_of(cell);
    let mut out: Vec<String> = Vec::new();
    let ghost mut done: Seq<Seq<char>> = Seq::empty();
    let mut start: usize = 0;
    let mut i: usize = 0;
    proof {
        assert(chars@.skip(0) =~= chars@);
        assert(done + split(chars@, ',') =~= split(chars@, ','));
    }
    while i < chars.len()
        invariant
            start <= i <= chars.len(),
            forall|k: int| start <= k < i ==> chars@[k] != ',',
            split(chars@, ',') == done + split(chars@.skip(start as int), ','),
            out@.len() == done.len(),
            forall|k: int| 0 <= k < done.len() ==> out@[k]@ == trim(#[trigger] done[k]),
        decreases chars.len() - i,
    {
        if chars[i] == ',' {
            let ghost rest = chars@.skip(start as int);
            proof {
                assert forall|k: int| 0 <= k < i - start implies rest[k] != ',' by {
                    assert(rest[k] == chars@[start + k]);
                }
                lemma_find_at(rest, ',', (i - start) as nat);
                assert(rest.take(i - start) =~= chars@.subrange(start as int, i as int));
                assert(rest.skip(i - start + 1) =~= chars@.skip(i + 1));
            }
            let (a, b) = trim_bounds(&chars, start, i);
            out.push(string_of(&chars, a, b));
            proof {
                let piece = chars@.subrange(start as int, i as int);
                assert(done + (seq![piece] + split(chars@.skip(i + 1), ',')) =~= done.push(piece)
                    + split(chars@.skip(i + 1), ','));
                done = done.push(piece);
            }
            start = i + 1;
        }
        i = i + 1;
    }
    let ghost rest = chars@.skip(start as int);
    proof {
        assert forall|k: int| 0 <= k < rest.len() implies rest[k] != ',' by {
            assert(rest[k] == chars@[start + k]);
        }
        lemma_find_at(rest, ',', rest.len());
        assert(rest =~= chars@.subrange(start as int, chars.len() as int));
    }
    let (a, b) = trim_bounds(&chars, start, chars.len());
    out.push(string_of(&chars, a, b));
    proof {
        let pieces = done.push(rest);
        assert(split(chars@, ',') =~= pieces);
        assert(out.deep_view() =~= multi_value(cell@));
    }
    out
}

/// The character of the digit `d`.
fn digit(d: u128) -> (c: char)
    requires
        d < 10,
    ensures
        c == digit_char(d as nat),
{
    if d == 0 {
        '0'
    } else if d == 1 {
        '1'
    } else if d == 2 {
        '2'
    } else if d == 3 {
        '3'
    } else if d == 4 {
        '4'
    } else if d == 5 {
        '5'
    } else if d == 6 {
        '6'
    } else if d == 7 {
        '7'
    } else if d == 8 {
        '8'
    } else {
        '9'
    }
}

/// The digits of `n`.
fn decimal_digits(n: u128) -> (out: Vec<char>)
    ensures
        out@ == decimal(n as nat),
    decreases n,
{
    if n < 10 {
        let mut out: Vec<char> = Vec::new();
        out.push(digit(n));
        out
    } else {
        let mut out = decimal_digits(n / 10);
        out.push(digit(n % 10));
        out
    }
}

/// Appends `n` to `out`, with zeros in front up to `width` characters.
pub fn push_zero_padded(out: &mut String, n: u64, width: usize)
    ensures
        final(out)@ == old(out)@ + zero_padded(n as nat, width as nat),
{
    let digits = decimal_digits(n as u128);
    let ghost before = out@;
    let mut filled: usize = digits.len();
    while filled < width
        invariant
            digits.len() <= filled,
            digits.len() < width ==> filled <= width,
            digits.len() >= width ==> filled == digits.len(),
            out@ == before + Seq::new((filled - digits.len()) as nat, |i: int| '0'),
        decreases width - filled,
    {
        push_char(out, '0');
        filled = filled + 1;
        assert(out@ =~= before + Seq::new((filled - digits.len()) as nat, |i: int| '0'));
    }
    let ghost padded = out@;
    let mut i: usize = 0;
    while i < digits.len()
        invariant
            i <= digits.len(),
            out@ == padded + digits@.take(i as int),
        decreases digits.len() - i,
    {
        push_char(out, digits[i]);
        i = i + 1;
        assert(out@ =~= padded + digits@.take(i as int));
    }
    assert(out@ =~= before + zero_padded(n as nat, width as nat)) by {
        assert(digits@.take(digits.len() as int) =~= digits@);
        if digits.len() >= width {
            assert(padded =~= before);
        }
    }
}

/// Appends `n` to `out` in decimal.
pub fn push_decimal(out: &mut String, n: u128)
    ensures
        final(out)@ == old(out)@ + decimal(n as nat),
{
    let digits = decimal_digits(n);
    let ghost before = out@;
    let mut i: usize = 0;
    while i < digits.len()
        invariant
            i <= digits.len(),
            out@ == before + digits@.take(i as int),
        decreases digits.len() - i,
    {
        push_char(out, digits[i]);
        i = i + 1;
        assert(out@ =~= before + digits@.take(i as int));
    }
    assert(digits@.take(digits.len() as int) =~= digits@);
}

} // verus!
