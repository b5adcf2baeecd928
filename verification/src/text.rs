//! Text: how numbers are written out, and the few string operations the
//! library builds on.

use vstd::prelude::*;

verus! {

/// `String::push`: the character is added at the end, and nothing else changes.
pub assume_specification[ std::string::String::push ](s: &mut std::string::String, c: char)
    ensures
        final(s)@ == old(s)@.push(c),
;

/// The digit `d` of a number written to a base up to sixteen, in lower case.
pub open spec fn digit(d: int) -> char {
    if d == 0 { '0' } else if d == 1 { '1' } else if d == 2 { '2' } else if d == 3 { '3' }
    else if d == 4 { '4' } else if d == 5 { '5' } else if d == 6 { '6' } else if d == 7 { '7' }
    else if d == 8 { '8' } else if d == 9 { '9' } else if d == 10 { 'a' } else if d == 11 { 'b' }
    else if d == 12 { 'c' } else if d == 13 { 'd' } else if d == 14 { 'e' } else { 'f' }
}

/// `n` written to `base`, without leading zeros.
pub open spec fn numeral(n: nat, base: nat) -> Seq<char>
    decreases n,
    via numeral_decreases
{
    if base < 2 || n < base {
        seq![digit(n as int)]
    } else {
        numeral(n / base, base).push(digit((n % base) as int))
    }
}

#[via_fn]
proof fn numeral_decreases(n: nat, base: nat) {
    if !(base < 2 || n < base) {
        assert(n / base < n) by (nonlinear_arith)
            requires
                n >= base,
                base >= 2,
        ;
    }
}

/// `n` in decimal.
pub open spec fn decimal(n: nat) -> Seq<char> {
    numeral(n, 10)
}

/// A signed number in decimal, with a leading minus sign where it is negative.
pub open spec fn signed_decimal(n: int) -> Seq<char> {
    if n < 0 {
        seq!['-'] + decimal((-n) as nat)
    } else {
        decimal(n as nat)
    }
}

/// The character for one digit.
pub fn digit_char(d: u8) -> (c: char)
    requires
        d < 16,
    ensures
        c == digit(d as int),
{
    match d {
        0 => '0',
        1 => '1',
        2 => '2',
        3 => '3',
        4 => '4',
        5 => '5',
        6 => '6',
        7 => '7',
        8 => '8',
        9 => '9',
        10 => 'a',
        11 => 'b',
        12 => 'c',
        13 => 'd',
        14 => 'e',
        _ => 'f',
    }
}

/// Appends `n` in the given base.
pub fn push_numeral(out: &mut String, n: u64, base: u64)
    requires
        2 <= base <= 16,
    ensures
        final(out)@ == old(out)@ + numeral(n as nat, base as nat),
    decreases n,
{
    if n >= base {
        assert(n / base < n) by (nonlinear_arith)
            requires
                n >= base,
                base >= 2,
        ;
        push_numeral(out, n / base, base);
    }
    let d: u8 = (n % base) as u8;
    out.push(digit_char(d));
    proof {
        if n < base {
            assert(n % base == n) by (nonlinear_arith)
                requires
                    n < base,
                    base >= 2,
            ;
        }
        assert(out@ =~= old(out)@ + numeral(n as nat, base as nat));
    }
}

/// Appends `n` in decimal.
pub fn push_decimal(out: &mut String, n: u64)
    ensures
        final(out)@ == old(out)@ + decimal(n as nat),
{
    push_numeral(out, n, 10);
}

/// Appends a signed number in decimal.
pub fn push_signed_decimal(out: &mut String, n: i64)
    ensures
        final(out)@ == old(out)@ + signed_decimal(n as int),
{
    if n < 0 {
        out.push('-');
        let magnitude: u64 = (-(n as i128)) as u64;
        push_decimal(out, magnitude);
        assert(out@ =~= old(out)@ + signed_decimal(n as int));
    } else {
        push_decimal(out, n as u64);
    }
}

/// `n` in decimal, filled up with zeros to a width.
pub open spec fn padded(n: nat, width: nat) -> Seq<char> {
    let digits = decimal(n);
    if digits.len() < width {
        Seq::new((width - digits.len()) as nat, |i: int| '0') + digits
    } else {
        digits
    }
}

/// Appends `n` in decimal, filled up with zeros to a width.
pub fn push_padded(out: &mut String, n: u64, width: usize)
    ensures
        final(out)@ == old(out)@ + padded(n as nat, width as nat),
{
    let digits: String = decimal_string(n);
    let len: usize = to_chars(digits.as_str()).len();
    let ghost start = out@;
    let mut filled: usize = len;
    while filled < width
        invariant
            len == decimal(n as nat).len(),
            filled >= len,
            filled <= width || filled == len,
            out@ =~= start + Seq::new((filled - len) as nat, |i: int| '0'),
        decreases width - filled,
    {
        out.push('0');
        filled += 1;
    }
    out.append(digits.as_str());
    assert(out@ =~= start + padded(n as nat, width as nat));
}

/// How many digits `n` has in decimal.
pub fn decimal_width(n: u64) -> (r: usize)
    ensures
        r == decimal(n as nat).len(),
{
    let digits: String = decimal_string(n);
    to_chars(digits.as_str()).len()
}

/// `n` in decimal.
pub fn decimal_string(n: u64) -> (s: String)
    ensures
        s@ == decimal(n as nat),
{
    let mut s = String::new();
    push_decimal(&mut s, n);
    assert(s@ =~= decimal(n as nat));
    s
}

/// The characters of a string.
pub fn to_chars(s: &str) -> (v: Vec<char>)
    ensures
        v@ == s@,
{
    let mut v: Vec<char> = Vec::new();
    for c in it: s.chars()
        invariant
            v@ =~= s@.subrange(0, it.index()),
            it.seq() == s@,
    {
        v.push(c);
    }
    assert(v@ =~= s@);
    v
}

/// The string of the characters `v[from..to]`.
pub fn from_chars(v: &[char], from: usize, to: usize) -> (s: String)
    requires
        from <= to <= v@.len(),
    ensures
        s@ == v@.subrange(from as int, to as int),
{
    let mut s = String::new();
    let mut i: usize = from;
    while i < to
        invariant
            from <= i <= to <= v@.len(),
            s@ =~= v@.subrange(from as int, i as int),
        decreases to - i,
    {
        s.push(v[i]);
        i += 1;
    }
    s
}

/// Whether two strings hold the same characters.
pub fn same_text(a: &str, b: &str) -> (r: bool)
    ensures
        r == (a@ == b@),
{
    a.to_owned() == b.to_owned()
}

/// The characters that separate words.
pub open spec fn is_space(c: char) -> bool {
    let n = c as u32;
    ||| 9 <= n <= 13
    ||| n == 32
    ||| n == 0x85
    ||| n == 0xa0
    ||| n == 0x1680
    ||| 0x2000 <= n <= 0x200a
    ||| n == 0x2028
    ||| n == 0x2029
    ||| n == 0x202f
    ||| n == 0x205f
    ||| n == 0x3000
}

pub fn is_space_char(c: char) -> (r: bool)
    ensures
        r == is_space(c),
{
    let n: u32 = c as u32;
    (9 <= n && n <= 13) || n == 32 || n == 0x85 || n == 0xa0 || n == 0x1680 || (0x2000 <= n && n
        <= 0x200a) || n == 0x2028 || n == 0x2029 || n == 0x202f || n == 0x205f || n == 0x3000
}

/// The words of a text: its longest stretches without a space.
pub open spec fn words(s: Seq<char>) -> Seq<Seq<char>>
    decreases s.len(),
{
    if s.len() == 0 {
        seq![]
    } else {
        let rest = s.drop_last();
        if is_space(s.last()) {
            words(rest)
        } else if rest.len() > 0 && !is_space(rest.last()) {
            words(rest).drop_last().push(words(rest).last().push(s.last()))
        } else {
            words(rest).push(seq![s.last()])
        }
    }
}

/// The characters of several strings.
pub open spec fn texts(s: Seq<String>) -> Seq<Seq<char>> {
    s.map_values(|t: String| t@)
}

/// Splits a text into its words.
pub fn split_words(s: &[char]) -> (r: Vec<String>)
    ensures
        texts(r@) == words(s@),
{
    let mut r: Vec<String> = Vec::new();
    let mut current = String::new();
    let mut open: bool = false;
    let mut i: usize = 0;
    assert(texts(r@) =~= words(s@.take(0)));
    while i < s.len()
        invariant
            i <= s@.len(),
            open == (i > 0 && !is_space(s@[i - 1])),
            open ==> texts(r@).push(current@) == words(s@.take(i as int)),
            !open ==> texts(r@) == words(s@.take(i as int)) && current@ == Seq::<char>::empty(),
        decreases s@.len() - i,
    {
        let c: char = s[i];
        let ghost before = s@.take(i as int);
        let ghost after = s@.take(i + 1);
        let ghost done = r@;
        proof {
            assert(after.drop_last() =~= before);
            assert(after.last() == c);
            if i > 0 {
                assert(before.last() == s@[i - 1]);
            }
        }
        if is_space_char(c) {
            if open {
                r.push(current);
                assert(texts(r@) =~= words(before));
                current = String::new();
                open = false;
            }
        } else {
            let ghost word = current@;
            current.push(c);
            proof {
                if open {
                    assert(words(before).drop_last() =~= texts(done));
                    assert(words(before).last() == word);
                    assert(texts(r@).push(current@) =~= words(after));
                } else {
                    assert(current@ =~= seq![c]);
                    assert(texts(r@).push(current@) =~= words(after));
                }
            }
            open = true;
        }
        i += 1;
    }
    assert(s@.take(i as int) =~= s@);
    if open {
        let ghost done = r@;
        let ghost word = current@;
        r.push(current);
        assert(texts(r@) =~= texts(done).push(word));
    }
    r
}

/// A line without the carriage return at its end.
pub open spec fn without_return(line: Seq<char>) -> Seq<char> {
    if line.len() > 0 && line.last() == '\r' {
        line.drop_last()
    } else {
        line
    }
}

/// The lines of a text that are ended by a line feed, and what follows the last
/// of them.
pub open spec fn ended_lines(s: Seq<char>) -> (Seq<Seq<char>>, Seq<char>)
    decreases s.len(),
{
    if s.len() == 0 {
        (seq![], seq![])
    } else {
        let (done, rest) = ended_lines(s.drop_last());
        if s.last() == '\n' {
            (done.push(without_return(rest)), seq![])
        } else {
            (done, rest.push(s.last()))
        }
    }
}

/// The lines of a text.
pub open spec fn lines_of(s: Seq<char>) -> Seq<Seq<char>> {
    let (done, rest) = ended_lines(s);
    if rest.len() > 0 {
        done.push(rest)
    } else {
        done
    }
}

/// The characters of several lines.
pub open spec fn char_lists(s: Seq<Vec<char>>) -> Seq<Seq<char>> {
    s.map_values(|t: Vec<char>| t@)
}

/// Splits a text into its lines.
pub fn split_lines(s: &[char]) -> (r: Vec<Vec<char>>)
    ensures
        char_lists(r@) == lines_of(s@),
{
    let mut r: Vec<Vec<char>> = Vec::new();
    let mut current: Vec<char> = Vec::new();
    let mut i: usize = 0;
    proof {
        assert(char_lists(r@) =~= seq![]);
        assert(current@ =~= seq![]);
        assert(s@.take(0) =~= seq![]);
    }
    while i < s.len()
        invariant
            i <= s@.len(),
            ended_lines(s@.take(i as int)) == (char_lists(r@), current@),
        decreases s@.len() - i,
    {
        let c: char = s[i];
        let ghost after = s@.take(i + 1);
        proof {
            assert(after.drop_last() =~= s@.take(i as int));
            assert(after.last() == c);
        }
        if c == '\n' {
            let ghost done = r@;
            let ghost line = current@;
            if current.len() > 0 && current[current.len() - 1] == '\r' {
                let _ = current.pop();
            }
            assert(current@ =~= without_return(line));
            r.push(current);
            assert(char_lists(r@) =~= char_lists(done).push(without_return(line)));
            current = Vec::new();
            assert(current@ =~= seq![]);
        } else {
            current.push(c);
        }
        i += 1;
    }
    assert(s@.take(i as int) =~= s@);
    if current.len() > 0 {
        let ghost done = r@;
        let ghost line = current@;
        r.push(current);
        assert(char_lists(r@) =~= char_lists(done).push(line));
    }
    r
}

/// The text without the spaces at its start.
pub open spec fn trim_start(s: Seq<char>) -> Seq<char>
    decreases s.len(),
{
    if s.len() > 0 && is_space(s[0]) {
        trim_start(s.drop_first())
    } else {
        s
    }
}

/// The text without the spaces at its end.
pub open spec fn trim_end(s: Seq<char>) -> Seq<char>
    decreases s.len(),
{
    if s.len() > 0 && is_space(s.last()) {
        trim_end(s.drop_last())
    } else {
        s
    }
}

/// The text without the spaces around it.
pub fn trim(s: &[char]) -> (r: Vec<char>)
    ensures
        r@ == trim_end(trim_start(s@)),
{
    let mut from: usize = 0;
    assert(s@.skip(0) =~= s@);
    while from < s.len() && is_space_char(s[from])
        invariant
            from <= s@.len(),
            trim_start(s@) == trim_start(s@.skip(from as int)),
        decreases s@.len() - from,
    {
        assert(s@.skip(from as int).drop_first() =~= s@.skip(from + 1));
        from += 1;
    }
    let ghost tail = s@.skip(from as int);
    assert(trim_start(s@) == tail);
    let mut to: usize = s.len();
    assert(tail.take(tail.len() as int) =~= tail);
    while to > from && is_space_char(s[to - 1])
        invariant
            from <= to <= s@.len(),
            tail == s@.skip(from as int),
            trim_end(tail) == trim_end(tail.take(to - from)),
        decreases to,
    {
        assert(tail.take(to - from).drop_last() =~= tail.take(to - from - 1));
        assert(tail.take(to - from).last() == s@[to - 1]);
        to -= 1;
    }
    proof {
        if to > from {
            assert(tail.take(to - from).last() == s@[to - 1]);
        }
    }
    let mut r: Vec<char> = Vec::new();
    let mut i: usize = from;
    while i < to
        invariant
            from <= i <= to <= s@.len(),
            tail == s@.skip(from as int),
            r@ =~= tail.take(i - from),
        decreases to - i,
    {
        r.push(s[i]);
        i += 1;
    }
    r
}

/// The place of the first `c`, or the length of the text if there is none.
pub open spec fn index_of(s: Seq<char>, c: char) -> int
    decreases s.len(),
{
    if s.len() == 0 || s[0] == c {
        0
    } else {
        1 + index_of(s.drop_first(), c)
    }
}

/// What `index_of` says of the whole text.
proof fn lemma_index_of(s: Seq<char>, c: char)
    ensures
        0 <= index_of(s, c) <= s.len(),
        index_of(s, c) < s.len() ==> s[index_of(s, c)] == c,
        forall|i: int| 0 <= i < index_of(s, c) ==> s[i] != c,
        index_of(s, c) < s.len() <==> s.contains(c),
    decreases s.len(),
{
    if s.len() > 0 && s[0] != c {
        let rest = s.drop_first();
        lemma_index_of(rest, c);
        assert forall|i: int| 0 <= i < index_of(s, c) implies s[i] != c by {
            if i > 0 {
                assert(s[i] == rest[i - 1]);
            }
        }
        if s.contains(c) {
            let i = choose|i: int| 0 <= i < s.len() && s[i] == c;
            assert(rest[i - 1] == c);
        }
    }
}

/// The place of the first `c`, or the length of the text if there is none.
pub fn find(s: &[char], c: char) -> (r: usize)
    ensures
        r == index_of(s@, c),
        r <= s@.len(),
        r < s@.len() <==> s@.contains(c),
        r < s@.len() ==> s@[r as int] == c,
{
    let mut i: usize = 0;
    while i < s.len() && s[i] != c
        invariant
            i <= s@.len(),
            forall|j: int| 0 <= j < i ==> s@[j] != c,
        decreases s@.len() - i,
    {
        i += 1;
    }
    proof {
        lemma_index_of(s@, c);
        if index_of(s@, c) < i {
            assert(s@[index_of(s@, c)] != c);
        }
    }
    i
}

/// Why a text is no number.
#[derive(Debug, Clone, Copy, PartialEq, Eq, Structural)]
pub enum NumberError {
    Empty,
    InvalidDigit,
    TooLarge,
}

impl NumberError {
    pub open spec fn text(self) -> Seq<char> {
        match self {
            NumberError::Empty => "cannot parse integer from empty string"@,
            NumberError::InvalidDigit => "invalid digit found in string"@,
            NumberError::TooLarge => "number too large to fit in target type"@,
        }
    }

    pub fn to_str(self) -> (r: &'static str)
        ensures
            r@ == self.text(),
    {
        match self {
            NumberError::Empty => "cannot parse integer from empty string",
            NumberError::InvalidDigit => "invalid digit found in string",
            NumberError::TooLarge => "number too large to fit in target type",
        }
    }
}

/// The value of a decimal digit.
pub open spec fn digit_value(c: char) -> Option<int> {
    if '0' <= c && c <= '9' {
        Some(c as u32 - '0' as u32)
    } else {
        None
    }
}

/// The number that digits write in decimal, unless one of them is none or the
/// number does not fit into 64 bits; the first digit that does not do decides.
pub open spec fn digits_value(s: Seq<char>) -> Result<int, NumberError>
    decreases s.len(),
{
    if s.len() == 0 {
        Ok(0)
    } else {
        match digits_value(s.drop_last()) {
            Err(e) => Err(e),
            Ok(n) => match digit_value(s.last()) {
                None => Err(NumberError::InvalidDigit),
                Some(d) => if n * 10 + d > u64::MAX {
                    Err(NumberError::TooLarge)
                } else {
                    Ok(n * 10 + d)
                },
            },
        }
    }
}

/// The number that a text writes in decimal, with or without a plus sign.
pub open spec fn number_value(s: Seq<char>) -> Result<int, NumberError> {
    if s.len() == 0 {
        Err(NumberError::Empty)
    } else if s[0] == '+' {
        if s.len() == 1 {
            Err(NumberError::InvalidDigit)
        } else {
            digits_value(s.drop_first())
        }
    } else {
        digits_value(s)
    }
}

/// What comes of the first digits comes of all, once it is an error.
proof fn lemma_digits_error(s: Seq<char>, n: int)
    requires
        0 <= n <= s.len(),
        digits_value(s.take(n)) is Err,
    ensures
        digits_value(s) == digits_value(s.take(n)),
    decreases s.len() - n,
{
    if n < s.len() {
        assert(s.take(n + 1).drop_last() =~= s.take(n));
        lemma_digits_error(s, n + 1);
    } else {
        assert(s.take(n) =~= s);
    }
}

/// Reads a number written in decimal.
pub fn parse_number(s: &[char]) -> (r: Result<u64, NumberError>)
    ensures
        match r {
            Ok(n) => number_value(s@) == Ok::<int, NumberError>(n as int),
            Err(e) => number_value(s@) == Err::<int, NumberError>(e),
        },
{
    if s.len() == 0 {
        return Err(NumberError::Empty);
    }
    let mut from: usize = 0;
    if s[0] == '+' {
        if s.len() == 1 {
            return Err(NumberError::InvalidDigit);
        }
        from = 1;
    }
    let ghost digits = s@.skip(from as int);
    proof {
        if from == 0 {
            assert(digits =~= s@);
        } else {
            assert(digits =~= s@.drop_first());
        }
        assert(digits.take(0) =~= seq![]);
    }
    let mut n: u64 = 0;
    let mut i: usize = from;
    while i < s.len()
        invariant
            from <= i <= s@.len(),
            digits == s@.skip(from as int),
            number_value(s@) == digits_value(digits),
            digits_value(digits.take(i - from)) == Ok::<int, NumberError>(n as int),
        decreases s@.len() - i,
    {
        let c: char = s[i];
        proof {
            assert(digits.take(i - from + 1).drop_last() =~= digits.take(i - from));
            assert(digits.take(i - from + 1).last() == c);
        }
        if !('0' <= c && c <= '9') {
            proof {
                lemma_digits_error(digits, i - from + 1);
            }
            return Err(NumberError::InvalidDigit);
        }
        let d: u64 = (c as u32 - '0' as u32) as u64;
        let wide: u128 = n as u128 * 10 + d as u128;
        if wide > u64::MAX as u128 {
            proof {
                lemma_digits_error(digits, i - from + 1);
            }
            return Err(NumberError::TooLarge);
        }
        n = wide as u64;
        i += 1;
    }
    assert(digits.take(i - from) =~= digits);
    Ok(n)
}

/// The text with every `pattern` in it, from the left, replaced by `with`.
pub open spec fn replaced(s: Seq<char>, pattern: Seq<char>, with: Seq<char>) -> Seq<char>
    decreases s.len(),
{
    if pattern.len() == 0 || s.len() < pattern.len() {
        s
    } else if s.take(pattern.len() as int) == pattern {
        with + replaced(s.skip(pattern.len() as int), pattern, with)
    } else {
        seq![s[0]] + replaced(s.drop_first(), pattern, with)
    }
}

/// Replaces a pattern.
pub fn replace(s: &[char], pattern: &str, with: &str) -> (r: Vec<char>)
    requires
        pattern@.len() > 0,
    ensures
        r@ == replaced(s@, pattern@, with@),
{
    let pat: Vec<char> = to_chars(pattern);
    let sub: Vec<char> = to_chars(with);
    let mut r: Vec<char> = Vec::new();
    let n: usize = s.len();
    let mut i: usize = 0;
    assert(s@.skip(0) =~= s@);
    assert(r@ + replaced(s@.skip(0), pattern@, with@) =~= replaced(s@, pattern@, with@));
    while i < s.len()
        invariant
            i <= s@.len(),
            n == s@.len(),
            pat@ == pattern@,
            sub@ == with@,
            pattern@.len() > 0,
            r@ + replaced(s@.skip(i as int), pattern@, with@) == replaced(s@, pattern@, with@),
        decreases s@.len() - i,
    {
        let ghost rest = s@.skip(i as int);
        let ghost done = r@;
        let mut matched: bool = pat.len() <= s.len() - i;
        let mut k: usize = 0;
        while matched && k < pat.len()
            invariant
                k <= pat@.len(),
                i < s@.len(),
                n == s@.len(),
                rest == s@.skip(i as int),
                matched ==> pat@.len() <= s@.len() - i,
                matched ==> forall|j: int| 0 <= j < k ==> rest[j] == pat@[j],
                !matched ==> rest.len() < pat@.len() || rest.take(pat@.len() as int) != pat@,
            decreases pat@.len() - k + if matched {
                1int
            } else {
                0
            },
        {
            if s[i + k] != pat[k] {
                assert(rest.take(pat@.len() as int)[k as int] != pat@[k as int]);
                matched = false;
            } else {
                k += 1;
            }
        }
        if matched {
            assert(rest.take(pat@.len() as int) =~= pat@);
            let mut j: usize = 0;
            while j < sub.len()
                invariant
                    j <= sub@.len(),
                    r@ =~= done + sub@.take(j as int),
                decreases sub@.len() - j,
            {
                r.push(sub[j]);
                j += 1;
            }
            proof {
                assert(r@ =~= done + with@);
                assert(rest.skip(pattern@.len() as int) =~= s@.skip(i + pattern@.len()));
                assert(r@ + replaced(s@.skip(i + pattern@.len()), pattern@, with@) =~= done
                    + replaced(rest, pattern@, with@));
            }
            i += pat.len();
        } else {
            r.push(s[i]);
            proof {
                assert(rest.drop_first() =~= s@.skip(i + 1));
                if rest.len() < pattern@.len() {
                    assert(replaced(rest, pattern@, with@) == rest);
                    assert(replaced(rest.drop_first(), pattern@, with@) == rest.drop_first());
                    assert(r@ + rest.drop_first() =~= done + rest);
                } else {
                    assert(r@ + replaced(s@.skip(i + 1), pattern@, with@) =~= done + replaced(
                        rest,
                        pattern@,
                        with@,
                    ));
                }
            }
            i += 1;
        }
    }
    assert(s@.skip(i as int) =~= seq![]);
    assert(r@ + replaced(s@.skip(i as int), pattern@, with@) =~= r@);
    r
}

/// The parts with `separator` between them.
pub open spec fn joined(parts: Seq<Seq<char>>, separator: Seq<char>) -> Seq<char>
    decreases parts.len(),
{
    if parts.len() == 0 {
        seq![]
    } else if parts.len() == 1 {
        parts[0]
    } else {
        joined(parts.drop_last(), separator) + separator + parts.last()
    }
}

/// Joins parts.
pub fn join(parts: &Vec<String>, separator: &str) -> (r: String)
    ensures
        r@ == joined(texts(parts@), separator@),
{
    let mut r = String::new();
    let mut i: usize = 0;
    let ghost all = texts(parts@);
    assert(all.take(0) =~= seq![]);
    while i < parts.len()
        invariant
            i <= parts@.len(),
            all == texts(parts@),
            r@ == joined(all.take(i as int), separator@),
        decreases parts@.len() - i,
    {
        proof {
            assert(all.take(i + 1).drop_last() =~= all.take(i as int));
            assert(all.take(i + 1).last() == parts@[i as int]@);
            if i == 0 {
                assert(r@ + parts@[0]@ =~= parts@[0]@);
            }
        }
        if i > 0 {
            r.append(separator);
        }
        r.append(parts[i].as_str());
        i += 1;
    }
    assert(all.take(i as int) =~= all);
    r
}

/// Whether one text comes before another in dictionary order.
pub open spec fn text_less(a: Seq<char>, b: Seq<char>) -> bool
    decreases a.len(),
{
    if b.len() == 0 {
        false
    } else if a.len() == 0 {
        true
    } else if a[0] != b[0] {
        a[0] < b[0]
    } else {
        text_less(a.drop_first(), b.drop_first())
    }
}

proof fn lemma_not_less(a: Seq<char>)
    ensures
        !text_less(a, a),
    decreases a.len(),
{
    if a.len() > 0 {
        lemma_not_less(a.drop_first());
    }
}

/// Dictionary order is an order.
pub proof fn law_text_order(a: Seq<char>, b: Seq<char>, c: Seq<char>)
    ensures
        !text_less(a, a),
        text_less(a, b) && text_less(b, c) ==> text_less(a, c),
        text_less(a, b) || text_less(b, a) || a == b,
        !(text_less(a, b) && text_less(b, a)),
    decreases a.len() + b.len() + c.len(),
{
    lemma_not_less(a);
    if a.len() > 0 && b.len() > 0 && a[0] == b[0] {
        law_text_order(
            a.drop_first(),
            b.drop_first(),
            if c.len() > 0 {
                c.drop_first()
            } else {
                c
            },
        );
        if a.drop_first() == b.drop_first() {
            assert(a =~= seq![a[0]] + a.drop_first());
            assert(b =~= seq![b[0]] + b.drop_first());
        }
    }
    if a.len() == 0 && b.len() == 0 {
        assert(a =~= b);
    }
}

/// Whether one text comes before another.
pub fn is_text_less(a: &str, b: &str) -> (r: bool)
    ensures
        r == text_less(a@, b@),
{
    let x: Vec<char> = to_chars(a);
    let y: Vec<char> = to_chars(b);
    let mut i: usize = 0;
    assert(x@.skip(0) =~= x@);
    assert(y@.skip(0) =~= y@);
    while i < x.len() && i < y.len()
        invariant
            i <= x@.len(),
            i <= y@.len(),
            x@ == a@,
            y@ == b@,
            text_less(a@, b@) == text_less(x@.skip(i as int), y@.skip(i as int)),
        decreases x@.len() - i,
    {
        assert(x@.skip(i as int).drop_first() =~= x@.skip(i + 1));
        assert(y@.skip(i as int).drop_first() =~= y@.skip(i + 1));
        if x[i] != y[i] {
            return x[i] < y[i];
        }
        i += 1;
    }
    i < y.len()
}

/// Whether texts are in ascending order, none of them twice.
pub open spec fn ascending(s: Seq<Seq<char>>) -> bool {
    forall|i: int, j: int| 0 <= i < j < s.len() ==> text_less(#[trigger] s[i], #[trigger] s[j])
}

/// The texts in ascending order, each of them once.
pub fn sorted_texts(list: &Vec<String>) -> (r: Vec<String>)
    ensures
        ascending(texts(r@)),
        texts(r@).to_set() == texts(list@).to_set(),
{
    let mut r: Vec<String> = Vec::new();
    let mut i: usize = 0;
    assert(texts(r@).to_set() =~= texts(list@).take(0).to_set());
    while i < list.len()
        invariant
            i <= list@.len(),
            ascending(texts(r@)),
            texts(r@).to_set() == texts(list@).take(i as int).to_set(),
        decreases list@.len() - i,
    {
        let ghost before = r@;
        let ghost old_texts = texts(r@);
        let item: String = list[i].clone();
        let ghost x = item@;
        let mut at: usize = 0;
        while at < r.len() && is_text_less(r[at].as_str(), item.as_str())
            invariant
                r@ == before,
                at <= r@.len(),
                x == item@,
                old_texts == texts(before),
                ascending(old_texts),
                forall|j: int| 0 <= j < at ==> text_less(#[trigger] old_texts[j], x),
            decreases r@.len() - at,
        {
            at += 1;
        }
        proof {
            assert(texts(list@).take(i + 1) =~= texts(list@).take(i as int).push(x));
        }
        if at < r.len() && r[at] == item {
            proof {
                assert(old_texts[at as int] == x);
                lemma_to_set_push(texts(list@).take(i as int), x);
                assert(old_texts.to_set().contains(x));
                assert(old_texts.to_set().insert(x) =~= old_texts.to_set());
            }
        } else {
            r.insert(at, item);
            proof {
                let new = texts(r@);
                assert(new =~= old_texts.insert(at as int, x));
                if at < old_texts.len() {
                    law_text_order(old_texts[at as int], x, x);
                }
                assert forall|a: int, b: int| 0 <= a < b < new.len() implies text_less(
                    #[trigger] new[a],
                    #[trigger] new[b],
                ) by {
                    let p = if a < at {
                        old_texts[a]
                    } else if a == at {
                        x
                    } else {
                        old_texts[a - 1]
                    };
                    if a == at {
                        if b - 1 > at {
                            assert(text_less(old_texts[at as int], old_texts[b - 1]));
                            law_text_order(x, old_texts[at as int], old_texts[b - 1]);
                        }
                        law_text_order(x, old_texts[b - 1], x);
                    }
                }
                lemma_to_set_push(texts(list@).take(i as int), x);
                assert forall|t: Seq<char>|
                    new.to_set().contains(t) <==> #[trigger] old_texts.to_set().insert(
                        x,
                    ).contains(t) by {
                    if old_texts.contains(t) {
                        let k = choose|k: int| 0 <= k < old_texts.len() && old_texts[k] == t;
                        if k < at {
                            assert(new[k] == t);
                        } else {
                            assert(new[k + 1] == t);
                        }
                    }
                    if t == x {
                        assert(new[at as int] == x);
                    }
                    if new.contains(t) {
                        let k = choose|k: int| 0 <= k < new.len() && new[k] == t;
                        if k < at {
                            assert(old_texts[k] == t);
                        } else if k > at {
                            assert(old_texts[k - 1] == t);
                        }
                    }
                }
                assert(new.to_set() =~= old_texts.to_set().insert(x));
            }
        }
        i += 1;
    }
    assert(texts(list@).take(i as int) =~= texts(list@));
    r
}

proof fn lemma_to_set_push(s: Seq<Seq<char>>, x: Seq<char>)
    ensures
        s.push(x).to_set() == s.to_set().insert(x),
{
    assert forall|t: Seq<char>|
        s.push(x).to_set().contains(t) <==> #[trigger] s.to_set().insert(x).contains(t) by {
        if s.contains(t) {
            let k = choose|k: int| 0 <= k < s.len() && s[k] == t;
            assert(s.push(x)[k] == t);
        }
        if t == x {
            assert(s.push(x)[s.len() as int] == x);
        }
    }
    assert(s.push(x).to_set() =~= s.to_set().insert(x));
}

/// Two ascending lists of the same texts are the same list.
pub proof fn law_ascending_is_unique(a: Seq<Seq<char>>, b: Seq<Seq<char>>)
    requires
        ascending(a),
        ascending(b),
        a.to_set() == b.to_set(),
    ensures
        a == b,
    decreases a.len(),
{
    if a.len() == 0 {
        if b.len() > 0 {
            assert(b.to_set().contains(b[0]));
            assert(a.to_set().contains(b[0]));
        }
        assert(a =~= b);
    } else {
        assert(a.to_set().contains(a[0]));
        assert(b.contains(a[0]));
        let k = choose|k: int| 0 <= k < b.len() && b[k] == a[0];
        assert(b.to_set().contains(b[0]));
        assert(a.contains(b[0]));
        let m = choose|m: int| 0 <= m < a.len() && a[m] == b[0];
        law_text_order(a[0], b[0], a[0]);
        if k > 0 {
            assert(text_less(b[0], b[k]));
            if m > 0 {
                assert(text_less(a[0], a[m]));
            }
        }
        assert(a[0] == b[0]);
        let x = a.drop_first();
        let y = b.drop_first();
        assert forall|t: Seq<char>| x.to_set().contains(t) <==> y.to_set().contains(t) by {
            law_text_order(a[0], t, a[0]);
            if x.contains(t) {
                let i = choose|i: int| 0 <= i < x.len() && x[i] == t;
                assert(a[i + 1] == t);
                assert(text_less(a[0], a[i + 1]));
                assert(a.to_set().contains(t));
                assert(b.to_set().contains(t));
                let j = choose|j: int| 0 <= j < b.len() && b[j] == t;
                assert(y[j - 1] == t);
            }
            if y.contains(t) {
                let i = choose|i: int| 0 <= i < y.len() && y[i] == t;
                assert(b[i + 1] == t);
                assert(text_less(b[0], b[i + 1]));
                assert(b.to_set().contains(t));
                assert(a.to_set().contains(t));
                let j = choose|j: int| 0 <= j < a.len() && a[j] == t;
                assert(x[j - 1] == t);
            }
        }
        assert(x.to_set() =~= y.to_set());
        assert forall|i: int, j: int| 0 <= i < j < x.len() implies text_less(
            #[trigger] x[i],
            #[trigger] x[j],
        ) by {
            assert(text_less(a[i + 1], a[j + 1]));
        }
        assert forall|i: int, j: int| 0 <= i < j < y.len() implies text_less(
            #[trigger] y[i],
            #[trigger] y[j],
        ) by {
            assert(text_less(b[i + 1], b[j + 1]));
        }
        law_ascending_is_unique(x, y);
        assert(a =~= seq![a[0]] + x);
        assert(b =~= seq![b[0]] + y);
    }
}

/// What `String::from_utf8_lossy` makes of bytes.
pub uninterp spec fn lossy_text(bytes: Seq<u8>) -> Seq<char>;

/// `String::from_utf8_lossy`: a text for any bytes, which depends on nothing
/// else. Bytes that are valid UTF-8 are the encoding of the text; what stands for
/// other bytes is left to the name.
#[verifier::external_body]
pub(crate) fn from_utf8_lossy(bytes: &[u8]) -> (r: String)
    ensures
        r@ == lossy_text(bytes@),
        vstd::utf8::valid_utf8(bytes@) ==> vstd::utf8::encode_utf8(r@) == bytes@,
{
    String::from_utf8_lossy(bytes).into_owned()
}

} // verus!
