//! What is written can be read back.

use crate::text::{
    decimal, digit, digits_value, ended_lines, index_of, is_space, joined, lines_of, number_value,
    numeral, padded, replaced, signed_decimal, trim_end, trim_start, without_return, words,
    NumberError,
};
use vstd::prelude::*;

verus! {

/// The value of a digit up to `f`.
pub open spec fn worth(c: char) -> int {
    if '0' <= c && c <= '9' {
        c as int - '0' as int
    } else {
        c as int - 'a' as int + 10
    }
}

/// The number that digits write to a base.
pub open spec fn value_of(s: Seq<char>, base: int) -> int
    decreases s.len(),
{
    if s.len() == 0 {
        0
    } else {
        value_of(s.drop_last(), base) * base + worth(s.last())
    }
}

/// The digits of a number write that number, each is below the base, and the first is not
/// zero unless it is the only one.
pub proof fn law_numerals(n: nat, base: nat)
    requires
        2 <= base <= 16,
    ensures
        value_of(numeral(n, base), base as int) == n,
        numeral(n, base).len() > 0,
        numeral(n, base).len() > 1 ==> numeral(n, base)[0] != '0',
        n > 0 ==> numeral(n, base)[0] != '0',
        forall|i: int|
            0 <= i < numeral(n, base).len() ==> {
                let c = #[trigger] numeral(n, base)[i];
                &&& '0' <= c && c <= '9' || 'a' <= c && c <= 'f'
                &&& 0 <= worth(c) < base
            },
    decreases n,
{
    let s = numeral(n, base);
    if n < base {
        assert(s =~= seq![digit(n as int)]);
        assert(s.drop_last() =~= seq![]);
        assert(value_of(s.drop_last(), base as int) == 0);
        assert(s.last() == digit(n as int));
    } else {
        assert(n / base < n) by (nonlinear_arith)
            requires
                n >= base,
                base >= 2,
        ;
        assert(n / base > 0) by (nonlinear_arith)
            requires
                n >= base,
                base >= 2,
        ;
        law_numerals(n / base, base);
        let front = numeral(n / base, base);
        assert(s =~= front.push(digit((n % base) as int)));
        assert(s.drop_last() =~= front);
        assert(n == (n / base) * base + n % base) by (nonlinear_arith)
            requires
                base >= 2,
        ;
        assert forall|i: int| 0 <= i < s.len() implies {
            let c = #[trigger] s[i];
            &&& '0' <= c && c <= '9' || 'a' <= c && c <= 'f'
            &&& 0 <= worth(c) < base
        } by {
            if i < front.len() {
                assert(s[i] == front[i]);
            }
        }
        assert(s[0] == front[0]);
    }
}

/// A number in decimal reads back, with or without a plus sign.
pub proof fn law_decimals_read_back(n: u64)
    ensures
        number_value(decimal(n as nat)) == Ok::<int, NumberError>(n as int),
        number_value(seq!['+'] + decimal(n as nat)) == Ok::<int, NumberError>(n as int),
        !decimal(n as nat).contains(':'),
{
    let s = decimal(n as nat);
    law_numerals(n as nat, 10);
    lemma_digits(s);
    assert(s[0] != '+');
    let signed = seq!['+'] + s;
    assert(signed.drop_first() =~= s);
    assert(signed[0] == '+');
    if s.contains(':') {
        let i = choose|i: int| 0 <= i < s.len() && s[i] == ':';
        assert(worth(s[i]) < 10);
    }
}

proof fn lemma_digits(s: Seq<char>)
    requires
        forall|i: int|
            0 <= i < s.len() ==> {
                let c = #[trigger] s[i];
                &&& '0' <= c && c <= '9' || 'a' <= c && c <= 'f'
                &&& 0 <= worth(c) < 10
            },
        value_of(s, 10) <= u64::MAX,
    ensures
        digits_value(s) == Ok::<int, NumberError>(value_of(s, 10)),
        0 <= value_of(s, 10),
    decreases s.len(),
{
    if s.len() > 0 {
        let front = s.drop_last();
        assert forall|i: int| 0 <= i < front.len() implies {
            let c = #[trigger] front[i];
            &&& '0' <= c && c <= '9' || 'a' <= c && c <= 'f'
            &&& 0 <= worth(c) < 10
        } by {
            assert(front[i] == s[i]);
        }
        assert(0 <= worth(s[s.len() - 1]) < 10);
        lemma_value_is_positive(front);
        lemma_digits(front);
    }
}

proof fn lemma_value_is_positive(s: Seq<char>)
    requires
        forall|i: int| 0 <= i < s.len() ==> 0 <= #[trigger] worth(s[i]) < 10,
    ensures
        0 <= value_of(s, 10),
    decreases s.len(),
{
    if s.len() > 0 {
        let front = s.drop_last();
        assert forall|i: int| 0 <= i < front.len() implies 0 <= #[trigger] worth(front[i]) < 10 by {
            assert(front[i] == s[i]);
            assert(0 <= worth(s[i]) < 10);
        }
        lemma_value_is_positive(front);
        assert(0 <= worth(s[s.len() - 1]) < 10);
    }
}

/// A negative number is its magnitude behind a minus sign.
pub proof fn law_signed_decimals(n: int)
    ensures
        n >= 0 ==> value_of(signed_decimal(n), 10) == n && signed_decimal(n)[0] != '-',
        n < 0 ==> signed_decimal(n)[0] == '-' && value_of(signed_decimal(n).drop_first(), 10)
            == -n,
{
    if n >= 0 {
        law_numerals(n as nat, 10);
    } else {
        law_numerals((-n) as nat, 10);
        assert(signed_decimal(n).drop_first() =~= decimal((-n) as nat));
    }
}

/// Filling up with zeros keeps the number and gives at least the width.
pub proof fn law_padded(n: nat, width: nat)
    ensures
        value_of(padded(n, width), 10) == n,
        padded(n, width).len() >= width,
        padded(n, width).len() > width ==> padded(n, width) == decimal(n),
{
    law_numerals(n, 10);
    let digits = decimal(n);
    if digits.len() < width {
        lemma_zeros((width - digits.len()) as nat, digits);
    }
}

proof fn lemma_zeros(k: nat, s: Seq<char>)
    ensures
        value_of(Seq::new(k, |i: int| '0') + s, 10) == value_of(s, 10),
    decreases s.len(), k,
{
    let zeros = Seq::new(k, |i: int| '0');
    let all = zeros + s;
    if s.len() > 0 {
        lemma_zeros(k, s.drop_last());
        assert(all.drop_last() =~= zeros + s.drop_last());
        assert(all.last() == s.last());
    } else if k > 0 {
        let fewer = Seq::new((k - 1) as nat, |i: int| '0');
        lemma_zeros((k - 1) as nat, s);
        assert(all.drop_last() =~= fewer + s);
        assert(all.last() == '0');
    }
}

/// Whether a text holds no space.
pub open spec fn unbroken(s: Seq<char>) -> bool {
    forall|i: int| 0 <= i < s.len() ==> !is_space(#[trigger] s[i])
}

/// A stretch without a space is one word, and a space separates words.
pub proof fn law_words(word: Seq<char>, a: Seq<char>, space: char, b: Seq<char>)
    requires
        word.len() > 0,
        unbroken(word),
        is_space(space),
    ensures
        words(word) == seq![word],
        words(a.push(space) + b) == words(a) + words(b),
        words(Seq::<char>::empty()).len() == 0,
{
    lemma_one_word(word);
    lemma_words_add(a, space, b);
}

proof fn lemma_one_word(word: Seq<char>)
    requires
        word.len() > 0,
        unbroken(word),
    ensures
        words(word) == seq![word],
    decreases word.len(),
{
    let rest = word.drop_last();
    assert(!is_space(word[word.len() - 1]));
    if rest.len() > 0 {
        assert forall|i: int| 0 <= i < rest.len() implies !is_space(#[trigger] rest[i]) by {
            assert(!is_space(word[i]));
        }
        lemma_one_word(rest);
        assert(!is_space(rest.last()));
        assert(words(word) =~= seq![word]) by {
            assert(words(rest).drop_last() =~= seq![]);
            assert(words(rest).last().push(word.last()) =~= word);
        }
    } else {
        assert(words(rest) =~= seq![]);
        assert(seq![word.last()] =~= word);
        assert(words(word) =~= seq![word]);
    }
}

proof fn lemma_words_add(a: Seq<char>, space: char, b: Seq<char>)
    requires
        is_space(space),
    ensures
        words(a.push(space) + b) == words(a) + words(b),
        b.len() > 0 && !is_space(b.last()) ==> words(b).len() > 0,
    decreases b.len(),
{
    let all = a.push(space) + b;
    if b.len() == 0 {
        assert(all =~= a.push(space));
        assert(all.drop_last() =~= a);
        assert(words(a) + words(b) =~= words(a));
    } else {
        let rest = b.drop_last();
        lemma_words_add(a, space, rest);
        assert(all.drop_last() =~= a.push(space) + rest);
        assert(all.last() == b.last());
        if is_space(b.last()) {
        } else if rest.len() > 0 && !is_space(rest.last()) {
            assert(all.drop_last().last() == rest.last());
            assert(words(all) =~= words(a) + words(b));
        } else {
            if rest.len() == 0 {
                assert(all.drop_last().last() == space);
            } else {
                assert(all.drop_last().last() == rest.last());
            }
            assert(words(all) =~= words(a) + words(b));
        }
    }
}

/// A line feed ends a line; a carriage return before it belongs to neither. What follows
/// the last line feed is a line, if it is anything.
pub proof fn law_lines(line: Seq<char>, rest: Seq<char>)
    requires
        !line.contains('\n'),
    ensures
        line.len() > 0 ==> lines_of(line) == seq![line],
        lines_of(line.push('\n') + rest) == seq![without_return(line)] + lines_of(rest),
        line.len() > 0 && line.last() == '\r' ==> without_return(line) == line.drop_last(),
        line.len() == 0 || line.last() != '\r' ==> without_return(line) == line,
        lines_of(Seq::<char>::empty()).len() == 0,
{
    lemma_no_line_ends(line);
    lemma_line_ends(line, rest);
    assert(lines_of(line.push('\n') + rest) =~= seq![without_return(line)] + lines_of(rest));
    if line.len() > 0 {
        assert(lines_of(line) =~= seq![line]);
    }
}

proof fn lemma_no_line_ends(s: Seq<char>)
    requires
        !s.contains('\n'),
    ensures
        ended_lines(s) == (Seq::<Seq<char>>::empty(), s),
    decreases s.len(),
{
    if s.len() > 0 {
        let front = s.drop_last();
        if front.contains('\n') {
            let i = choose|i: int| 0 <= i < front.len() && front[i] == '\n';
            assert(s[i] == '\n');
        }
        lemma_no_line_ends(front);
        assert(s[s.len() - 1] != '\n');
        assert(front.push(s.last()) =~= s);
    }
}

proof fn lemma_line_ends(line: Seq<char>, rest: Seq<char>)
    requires
        !line.contains('\n'),
    ensures
        ended_lines(line.push('\n') + rest).0 == seq![without_return(line)] + ended_lines(rest).0,
        ended_lines(line.push('\n') + rest).1 == ended_lines(rest).1,
    decreases rest.len(),
{
    let all = line.push('\n') + rest;
    if rest.len() == 0 {
        lemma_no_line_ends(line);
        assert(all.drop_last() =~= line);
        assert(ended_lines(all).0 =~= seq![without_return(line)] + ended_lines(rest).0);
    } else {
        lemma_line_ends(line, rest.drop_last());
        assert(all.drop_last() =~= line.push('\n') + rest.drop_last());
        assert(all.last() == rest.last());
        assert(ended_lines(all).0 =~= seq![without_return(line)] + ended_lines(rest).0);
    }
}

/// Trimming takes away spaces, all of them at the end that is trimmed, and nothing else.
pub proof fn law_trimming(s: Seq<char>)
    ensures
        exists|n: int|
            0 <= n <= s.len() && trim_start(s) == #[trigger] s.skip(n) && (forall|i: int|
                0 <= i < n ==> is_space(#[trigger] s[i])),
        trim_start(s).len() > 0 ==> !is_space(trim_start(s)[0]),
        exists|n: int|
            0 <= n <= s.len() && trim_end(s) == #[trigger] s.take(n) && (forall|i: int|
                n <= i < s.len() ==> is_space(#[trigger] s[i])),
        trim_end(s).len() > 0 ==> !is_space(trim_end(s).last()),
{
    lemma_trim_start(s);
    lemma_trim_end(s);
}

proof fn lemma_trim_start(s: Seq<char>)
    ensures
        exists|n: int|
            0 <= n <= s.len() && trim_start(s) == #[trigger] s.skip(n) && (forall|i: int|
                0 <= i < n ==> is_space(#[trigger] s[i])),
        trim_start(s).len() > 0 ==> !is_space(trim_start(s)[0]),
    decreases s.len(),
{
    if s.len() > 0 && is_space(s[0]) {
        let rest = s.drop_first();
        lemma_trim_start(rest);
        let n = choose|n: int|
            0 <= n <= rest.len() && trim_start(rest) == #[trigger] rest.skip(n) && (forall|i: int|
                0 <= i < n ==> is_space(#[trigger] rest[i]));
        assert(s.skip(n + 1) =~= rest.skip(n));
        assert forall|i: int| 0 <= i < n + 1 implies is_space(#[trigger] s[i]) by {
            if i > 0 {
                assert(is_space(rest[i - 1]));
            }
        }
    } else {
        assert(s.skip(0) =~= s);
    }
}

proof fn lemma_trim_end(s: Seq<char>)
    ensures
        exists|n: int|
            0 <= n <= s.len() && trim_end(s) == #[trigger] s.take(n) && (forall|i: int|
                n <= i < s.len() ==> is_space(#[trigger] s[i])),
        trim_end(s).len() > 0 ==> !is_space(trim_end(s).last()),
    decreases s.len(),
{
    if s.len() > 0 && is_space(s.last()) {
        let rest = s.drop_last();
        lemma_trim_end(rest);
        let n = choose|n: int|
            0 <= n <= rest.len() && trim_end(rest) == #[trigger] rest.take(n) && (forall|i: int|
                n <= i < rest.len() ==> is_space(#[trigger] rest[i]));
        assert(s.take(n) =~= rest.take(n));
        assert forall|i: int| n <= i < s.len() implies is_space(#[trigger] s[i]) by {
            if i < rest.len() {
                assert(is_space(rest[i]));
            }
        }
    } else {
        assert(s.take(s.len() as int) =~= s);
    }
}

/// The first place of a character is where it stands, and it stands nowhere before.
pub proof fn law_first_place(s: Seq<char>, c: char)
    ensures
        0 <= index_of(s, c) <= s.len(),
        index_of(s, c) < s.len() ==> s[index_of(s, c)] == c,
        forall|i: int| 0 <= i < index_of(s, c) ==> #[trigger] s[i] != c,
        index_of(s, c) < s.len() <==> s.contains(c),
    decreases s.len(),
{
    if s.len() > 0 && s[0] != c {
        let rest = s.drop_first();
        law_first_place(rest, c);
        assert forall|i: int| 0 <= i < index_of(s, c) implies #[trigger] s[i] != c by {
            if i > 0 {
                assert(rest[i - 1] == s[i]);
            }
        }
        if s.contains(c) {
            let i = choose|i: int| 0 <= i < s.len() && s[i] == c;
            assert(rest[i - 1] == c);
        }
        if index_of(s, c) < s.len() {
            assert(s[index_of(s, c)] == c);
        }
    } else if s.len() > 0 {
        assert(s[0] == c);
    }
}

/// Parts are joined with one separator between any two of them: those before and those
/// after any place can be joined on their own.
pub proof fn law_joining(a: Seq<Seq<char>>, b: Seq<Seq<char>>, separator: Seq<char>)
    requires
        a.len() > 0,
        b.len() > 0,
    ensures
        joined(a + b, separator) == joined(a, separator) + separator + joined(b, separator),
        joined(seq![a[0]], separator) == a[0],
        joined(Seq::<Seq<char>>::empty(), separator).len() == 0,
    decreases b.len(),
{
    let all = a + b;
    assert(all.last() == b.last());
    if b.len() == 1 {
        assert(all.drop_last() =~= a);
        assert(joined(b, separator) == b[0]);
    } else {
        let rest = b.drop_last();
        law_joining(a, rest, separator);
        assert(all.drop_last() =~= a + rest);
        assert(joined(all, separator) =~= joined(a, separator) + separator + joined(b, separator));
    }
}

/// Whether a pattern stands at a place.
pub open spec fn stands_at(s: Seq<char>, pattern: Seq<char>, i: int) -> bool {
    0 <= i && i + pattern.len() <= s.len() && s.subrange(i, i + pattern.len()) == pattern
}

/// Whether a pattern stands at none of the first places.
pub open spec fn absent(s: Seq<char>, pattern: Seq<char>, n: int) -> bool {
    forall|i: int| 0 <= i < n ==> !#[trigger] stands_at(s, pattern, i)
}

/// A text in which a pattern does not occur is kept; where it first occurs it is replaced,
/// and the rest is gone on with behind it.
pub proof fn law_replacing(
    a: Seq<char>,
    pattern: Seq<char>,
    b: Seq<char>,
    with: Seq<char>,
)
    requires
        pattern.len() > 0,
    ensures
        absent(a, pattern, a.len() as int) ==> replaced(a, pattern, with) == a,
        absent(a + pattern + b, pattern, a.len() as int) ==> replaced(a + pattern + b, pattern, with)
            == a + with + replaced(b, pattern, with),
{
    if absent(a, pattern, a.len() as int) {
        lemma_kept(a, pattern, with);
    }
    if absent(a + pattern + b, pattern, a.len() as int) {
        lemma_first_replaced(a, pattern, b, with);
    }
}

proof fn lemma_later(s: Seq<char>, pattern: Seq<char>, n: int)
    requires
        pattern.len() > 0,
        s.len() > 0,
        n > 0,
        absent(s, pattern, n),
    ensures
        absent(s.drop_first(), pattern, n - 1),
        s.len() >= pattern.len() ==> s.take(pattern.len() as int) != pattern,
{
    let rest = s.drop_first();
    let k = pattern.len() as int;
    assert forall|i: int| 0 <= i < n - 1 implies !#[trigger] stands_at(rest, pattern, i) by {
        if stands_at(rest, pattern, i) {
            assert(s.subrange(i + 1, i + 1 + k) =~= rest.subrange(i, i + k));
            assert(stands_at(s, pattern, i + 1));
        }
    }
    assert(!stands_at(s, pattern, 0));
    if s.len() >= k {
        assert(s.subrange(0, k) =~= s.take(k));
    }
}

proof fn lemma_kept(s: Seq<char>, pattern: Seq<char>, with: Seq<char>)
    requires
        pattern.len() > 0,
        absent(s, pattern, s.len() as int),
    ensures
        replaced(s, pattern, with) == s,
    decreases s.len(),
{
    if s.len() >= pattern.len() {
        lemma_later(s, pattern, s.len() as int);
        lemma_kept(s.drop_first(), pattern, with);
        assert(seq![s[0]] + s.drop_first() =~= s);
    }
}

proof fn lemma_first_replaced(
    a: Seq<char>,
    pattern: Seq<char>,
    b: Seq<char>,
    with: Seq<char>,
)
    requires
        pattern.len() > 0,
        absent(a + pattern + b, pattern, a.len() as int),
    ensures
        replaced(a + pattern + b, pattern, with) == a + with + replaced(b, pattern, with),
    decreases a.len(),
{
    let all = a + pattern + b;
    let k = pattern.len() as int;
    let tail = replaced(b, pattern, with);
    if a.len() == 0 {
        assert(all.take(k) =~= pattern);
        assert(all.skip(k) =~= b);
        assert(a + with + tail =~= with + tail);
    } else {
        let rest = a.drop_first();
        lemma_later(all, pattern, a.len() as int);
        assert(all.drop_first() =~= rest + pattern + b);
        lemma_first_replaced(rest, pattern, b, with);
        assert(all[0] == a[0]);
        assert(seq![a[0]] + (rest + with + tail) =~= a + with + tail);
    }
}

} // verus!
