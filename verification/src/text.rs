//! Text utilities shared by the translator and the assembler: characters of
//! a string, decimal numerals, whitespace and comments.

use vstd::prelude::*;
use vstd::string::*;

verus! {

/// The decimal digit that stands for `d`, for `d` below ten.
pub open spec fn digit_char(d: nat) -> char {
    if d == 0 {
        '0'
    } else if d == 1 {
        '1'
    } else if d == 2 {
        '2'
    } else if d == 3 {
        '3'
    } else if d == 4 {
        '4'
    } else if d == 5 {
        '5'
    } else if d == 6 {
        '6'
    } else if d == 7 {
        '7'
    } else if d == 8 {
        '8'
    } else {
        '9'
    }
}

/// The decimal numeral of `n`, without sign or leading zeros.
pub open spec fn decimal(n: nat) -> Seq<char>
    decreases n,
{
    if n < 10 {
        seq![digit_char(n)]
    } else {
        decimal(n / 10).push(digit_char(n % 10))
    }
}

/// The characters of `s`, in order.
pub fn chars_of(s: &str) -> (v: Vec<char>)
    ensures
        v@ == s@,
{
    let mut v: Vec<char> = Vec::new();
    for c in it: s.chars()
        invariant
            it.seq() == s@,
            v@ == s@.take(it.index() as int),
    {
        v.push(c);
        assert(v@ =~= s@.take(it.index() + 1));
    }
    assert(s@.take(s@.len() as int) =~= s@);
    v
}

/// Whether `a` and `b` hold the same characters.
pub fn same_text(a: &str, b: &str) -> (same: bool)
    ensures
        same == (a@ == b@),
{
    let x = chars_of(a);
    let y = chars_of(b);
    if x.len() != y.len() {
        return false;
    }
    let mut i: usize = 0;
    while i < x.len()
        invariant
            x@ == a@,
            y@ == b@,
            x@.len() == y@.len(),
            i <= x@.len(),
            forall|k: int| 0 <= k < i ==> x@[k] == y@[k],
        decreases x@.len() - i,
    {
        if x[i] != y[i] {
            return false;
        }
        i += 1;
    }
    assert(x@ =~= y@);
    true
}

fn digit_text(d: usize) -> (t: &'static str)
    requires
        d < 10,
    ensures
        t@ == seq![digit_char(d as nat)],
{
    proof {
        reveal_strlit("0");
        reveal_strlit("1");
        reveal_strlit("2");
        reveal_strlit("3");
        reveal_strlit("4");
        reveal_strlit("5");
        reveal_strlit("6");
        reveal_strlit("7");
        reveal_strlit("8");
        reveal_strlit("9");
    }
    let t = if d == 0 {
        "0"
    } else if d == 1 {
        "1"
    } else if d == 2 {
        "2"
    } else if d == 3 {
        "3"
    } else if d == 4 {
        "4"
    } else if d == 5 {
        "5"
    } else if d == 6 {
        "6"
    } else if d == 7 {
        "7"
    } else if d == 8 {
        "8"
    } else {
        "9"
    };
    assert(t@ =~= seq![digit_char(d as nat)]);
    t
}

/// Writes `n` as a decimal numeral.
pub fn decimal_string(n: usize) -> (s: String)
    ensures
        s@ == decimal(n as nat),
    decreases n,
{
    if n < 10 {
        String::from_str(digit_text(n))
    } else {
        let mut s = decimal_string(n / 10);
        s.append(digit_text(n % 10));
        assert(s@ =~= decimal(n as nat));
        s
    }
}

/// Whether `c` separates words: a space, a tab, a line break, a carriage
/// return, a vertical tab or a form feed.
pub open spec fn is_space(c: char) -> bool {
    c == ' ' || c == '\t' || c == '\n' || c == '\r' || c == '\x0B' || c == '\x0C'
}

/// Whether `c` separates words.
pub fn is_space_char(c: char) -> (b: bool)
    ensures
        b == is_space(c),
{
    c == ' ' || c == '\t' || c == '\n' || c == '\r' || c == '\x0B' || c == '\x0C'
}

/// Where the comment of a line starts: the index of the first `//`, or the
/// length of the line where it has none.
pub open spec fn comment_start(s: Seq<char>) -> int
    decreases s.len(),
{
    if s.len() < 2 {
        s.len() as int
    } else if s[0] == '/' && s[1] == '/' {
        0
    } else {
        1 + comment_start(s.skip(1))
    }
}

/// The line without its comment.
pub open spec fn strip_comment(s: Seq<char>) -> Seq<char> {
    s.take(comment_start(s))
}

/// The number of characters before the first separator of `s`.
pub open spec fn word_len(s: Seq<char>) -> int
    decreases s.len(),
{
    if s.len() == 0 || is_space(s[0]) {
        0
    } else {
        1 + word_len(s.skip(1))
    }
}

/// The words of `s`: its longest runs of characters that are no separators,
/// in order.
pub open spec fn tokens(s: Seq<char>) -> Seq<Seq<char>>
    decreases s.len(),
{
    if s.len() == 0 {
        Seq::empty()
    } else if is_space(s[0]) {
        tokens(s.skip(1))
    } else {
        let n = word_len(s);
        if 0 < n <= s.len() {
            seq![s.take(n)] + tokens(s.skip(n))
        } else {
            Seq::empty()
        }
    }
}

/// The values of a sequence of strings, one for one.
pub open spec fn strings_view(v: Seq<String>) -> Seq<Seq<char>> {
    v.map_values(|s: String| s@)
}

/// A word is never longer than the text it starts.
pub proof fn lemma_word_len_bounds(s: Seq<char>)
    ensures
        0 <= word_len(s) <= s.len(),
        s.len() > 0 && !is_space(s[0]) ==> word_len(s) > 0,
    decreases s.len(),
{
    if s.len() == 0 || is_space(s[0]) {
    } else {
        lemma_word_len_bounds(s.skip(1));
    }
}

/// The comment of a line starts inside the line.
pub proof fn lemma_comment_start_bounds(s: Seq<char>)
    ensures
        0 <= comment_start(s) <= s.len(),
    decreases s.len(),
{
    if s.len() >= 2 && !(s[0] == '/' && s[1] == '/') {
        lemma_comment_start_bounds(s.skip(1));
    }
}

/// Finds where the comment of a line starts.
pub fn find_comment(chars: &Vec<char>) -> (k: usize)
    ensures
        k == comment_start(chars@),
{
    let n: usize = chars.len();
    let mut i: usize = 0;
    assert(chars@.skip(0) =~= chars@);
    while n - i >= 2
        invariant
            n == chars@.len(),
            i <= n,
            comment_start(chars@) == i + comment_start(chars@.skip(i as int)),
        decreases n - i,
    {
        proof {
            assert(chars@.skip(i as int).skip(1) =~= chars@.skip(i as int + 1));
        }
        if chars[i] == '/' && chars[i + 1] == '/' {
            return i;
        }
        i += 1;
    }
    n
}

/// Splits the line `line`, without its comment, into words.
pub fn tokenize(line: &str) -> (words: Vec<String>)
    ensures
        strings_view(words@) == tokens(strip_comment(line@)),
{
    let chars = chars_of(line);
    let end: usize = find_comment(&chars);
    proof {
        lemma_comment_start_bounds(line@);
    }
    let ghost body = line@.take(end as int);
    let mut words: Vec<String> = Vec::new();
    let mut i: usize = 0;
    assert(body.skip(0) =~= body);
    assert(strings_view(words@) =~= Seq::<Seq<char>>::empty());
    while i < end
        invariant
            chars@ == line@,
            end <= line@.len(),
            body == line@.take(end as int),
            i <= end,
            tokens(body) == strings_view(words@) + tokens(body.skip(i as int)),
        decreases end - i,
    {
        if is_space_char(chars[i]) {
            proof {
                assert(body.skip(i as int).skip(1) =~= body.skip(i as int + 1));
            }
            i += 1;
        } else {
            let mut j: usize = i;
            assert(body.skip(j as int) =~= body.skip(i as int));
            while j < end && !is_space_char(chars[j])
                invariant
                    chars@ == line@,
                    end <= line@.len(),
                    body == line@.take(end as int),
                    i <= j <= end,
                    word_len(body.skip(i as int)) == (j - i) + word_len(body.skip(j as int)),
                decreases end - j,
            {
                proof {
                    assert(body.skip(j as int).skip(1) =~= body.skip(j as int + 1));
                }
                j += 1;
            }
            let word = String::from_str(line.substring_char(i, j));
            proof {
                let rest = body.skip(i as int);
                lemma_word_len_bounds(rest);
                assert(word_len(body.skip(j as int)) == 0);
                assert(word_len(rest) == j - i);
                assert(rest.take(j - i) =~= line@.subrange(i as int, j as int));
                assert(rest.skip(j - i) =~= body.skip(j as int));
                assert(strings_view(words@.push(word)) =~= strings_view(words@) + seq![word@]);
                assert(tokens(rest) == seq![rest.take(j - i)] + tokens(rest.skip(j - i)));
            }
            words.push(word);
            i = j;
        }
    }
    assert(tokens(body.skip(end as int)) =~= Seq::<Seq<char>>::empty());
    words
}

/// Whether `c` is a decimal digit.
pub open spec fn is_digit(c: char) -> bool {
    '0' <= c <= '9'
}

/// The number that the digit `c` stands for; zero where `c` is no digit.
pub open spec fn digit_value(c: char) -> nat {
    if is_digit(c) {
        (c as nat - '0' as nat) as nat
    } else {
        0
    }
}

/// The number that the digits `s` write in base ten.
pub open spec fn digits_value(s: Seq<char>) -> nat
    decreases s.len(),
{
    if s.len() == 0 {
        0
    } else {
        digits_value(s.drop_last()) * 10 + digit_value(s.last())
    }
}

/// Whether `s` is one digit or more, and nothing else.
pub open spec fn is_numeral(s: Seq<char>) -> bool {
    s.len() > 0 && forall|i: int| 0 <= i < s.len() ==> is_digit(#[trigger] s[i])
}

/// The number that `s` writes: an optional `+`, then one decimal digit or
/// more. Leading zeros are accepted.
pub open spec fn number_value(s: Seq<char>) -> Option<nat> {
    let digits = if s.len() > 0 && s[0] == '+' {
        s.skip(1)
    } else {
        s
    };
    if is_numeral(digits) {
        Some(digits_value(digits))
    } else {
        None
    }
}

/// The number that `s` writes, where it writes one that fits a `usize`.
pub open spec fn machine_number(s: Seq<char>) -> Option<usize> {
    match number_value(s) {
        Some(n) => if n <= usize::MAX {
            Some(n as usize)
        } else {
            None
        },
        None => None,
    }
}

/// Reads `word` as a number. `None` where it is no numeral or does not fit.
pub fn parse_number(word: &str) -> (value: Option<usize>)
    ensures
        value == machine_number(word@),
{
    let chars = chars_of(word);
    let n: usize = chars.len();
    let start: usize = if n > 0 && chars[0] == '+' {
        1
    } else {
        0
    };
    let ghost digits = word@.skip(start as int);
    assert(word@.skip(0) =~= word@);
    if start == n {
        return None;
    }
    let mut value: usize = 0;
    let mut i: usize = start;
    assert(digits.take(0) =~= Seq::<char>::empty());
    while i < n
        invariant
            chars@ == word@,
            n == word@.len(),
            start <= i <= n,
            digits == word@.skip(start as int),
            digits == (if word@.len() > 0 && word@[0] == '+' {
                word@.skip(1)
            } else {
                word@
            }),
            forall|k: int| 0 <= k < i - start ==> is_digit(#[trigger] digits[k]),
            value == digits_value(digits.take(i - start)),
        decreases n - i,
    {
        let c = chars[i];
        assert(digits[i - start] == c);
        if !(c >= '0' && c <= '9') {
            return None;
        }
        let d: usize = (c as u32 - '0' as u32) as usize;
        proof {
            let next = digits.take(i - start + 1);
            assert(next.drop_last() =~= digits.take(i - start));
            assert(next.last() == c);
            lemma_digits_value_grows(digits, i - start + 1, digits.len() as int);
            assert(digits.take(digits.len() as int) =~= digits);
        }
        if value > (usize::MAX - d) / 10 {
            return None;
        }
        value = value * 10 + d;
        i += 1;
    }
    assert(digits.take(n - start) =~= digits);
    Some(value)
}

/// A longer run of digits writes no smaller number.
pub proof fn lemma_digits_value_grows(s: Seq<char>, i: int, j: int)
    requires
        0 <= i <= j <= s.len(),
    ensures
        digits_value(s.take(i)) <= digits_value(s.take(j)),
    decreases j - i,
{
    if i < j {
        lemma_digits_value_grows(s, i, j - 1);
        assert(s.take(j).drop_last() =~= s.take(j - 1));
    }
}

/// The number of separators that `s` starts with.
pub open spec fn leading_spaces(s: Seq<char>) -> int
    decreases s.len(),
{
    if s.len() == 0 || !is_space(s[0]) {
        0
    } else {
        1 + leading_spaces(s.skip(1))
    }
}

/// The number of separators that `s` ends with.
pub open spec fn trailing_spaces(s: Seq<char>) -> int
    decreases s.len(),
{
    if s.len() == 0 || !is_space(s.last()) {
        0
    } else {
        1 + trailing_spaces(s.drop_last())
    }
}

/// `s` without the separators at its two ends.
pub open spec fn trim(s: Seq<char>) -> Seq<char> {
    if leading_spaces(s) >= s.len() {
        Seq::empty()
    } else {
        s.subrange(leading_spaces(s), s.len() - trailing_spaces(s))
    }
}

/// The bounds of [`trim`]: where the kept part of `chars` starts and ends.
pub fn trim_bounds(chars: &Vec<char>) -> (bounds: (usize, usize))
    ensures
        bounds.0 <= bounds.1 <= chars@.len(),
        trim(chars@) == chars@.subrange(bounds.0 as int, bounds.1 as int),
{
    let n: usize = chars.len();
    let mut a: usize = 0;
    assert(chars@.skip(0) =~= chars@);
    while a < n && is_space_char(chars[a])
        invariant
            n == chars@.len(),
            a <= n,
            leading_spaces(chars@) == a + leading_spaces(chars@.skip(a as int)),
        decreases n - a,
    {
        proof {
            assert(chars@.skip(a as int).skip(1) =~= chars@.skip(a as int + 1));
        }
        a += 1;
    }
    if a == n {
        assert(chars@.subrange(n as int, n as int) =~= Seq::<char>::empty());
        return (n, n);
    }
    let mut b: usize = n;
    assert(chars@.take(n as int) =~= chars@);
    assert(chars@.skip(a as int)[0] == chars@[a as int]);
    while is_space_char(chars[b - 1])
        invariant
            n == chars@.len(),
            a < b <= n,
            !is_space(chars@[a as int]),
            leading_spaces(chars@) == a,
            trailing_spaces(chars@) == (n - b) + trailing_spaces(chars@.take(b as int)),
        decreases b,
    {
        proof {
            assert(chars@.take(b as int).drop_last() =~= chars@.take(b as int - 1));
        }
        b -= 1;
    }
    assert(chars@.take(b as int).last() == chars@[b - 1]);
    (a, b)
}

/// `line` without the separators at its two ends.
pub fn trimmed(line: &str) -> (t: String)
    ensures
        t@ == trim(line@),
{
    let chars = chars_of(line);
    let (a, b) = trim_bounds(&chars);
    String::from_str(line.substring_char(a, b))
}

/// The index of the first `c` in `s`; the length of `s` where it has none.
pub open spec fn index_of(s: Seq<char>, c: char) -> int
    decreases s.len(),
{
    if s.len() == 0 || s[0] == c {
        0
    } else {
        1 + index_of(s.skip(1), c)
    }
}

/// Finds the first `c` in `chars`.
pub fn find_char(chars: &Vec<char>, c: char) -> (i: usize)
    ensures
        i == index_of(chars@, c),
        i <= chars@.len(),
{
    let n: usize = chars.len();
    let mut i: usize = 0;
    assert(chars@.skip(0) =~= chars@);
    while i < n && chars[i] != c
        invariant
            n == chars@.len(),
            i <= n,
            index_of(chars@, c) == i + index_of(chars@.skip(i as int), c),
        decreases n - i,
    {
        proof {
            assert(chars@.skip(i as int).skip(1) =~= chars@.skip(i as int + 1));
        }
        i += 1;
    }
    i
}

/// The pieces of `s` between the occurrences of `c`: one more than there
/// are occurrences.
pub open spec fn split_on(s: Seq<char>, c: char) -> Seq<Seq<char>>
    decreases s.len(),
{
    let i = index_of(s, c);
    if i < 0 || i >= s.len() {
        seq![s]
    } else {
        seq![s.take(i)] + split_on(s.skip(i + 1), c)
    }
}

/// Splits `text` at every `c`.
pub fn split(text: &str, c: char) -> (pieces: Vec<String>)
    ensures
        strings_view(pieces@) == split_on(text@, c),
{
    let chars = chars_of(text);
    let n: usize = chars.len();
    let mut pieces: Vec<String> = Vec::new();
    let mut start: usize = 0;
    let mut i: usize = 0;
    assert(text@.skip(0) =~= text@);
    assert(strings_view(pieces@) =~= Seq::<Seq<char>>::empty());
    while i < n
        invariant
            chars@ == text@,
            n == text@.len(),
            start <= i <= n,
            index_of(text@.skip(start as int), c) == (i - start) + index_of(
                text@.skip(i as int),
                c,
            ),
            split_on(text@, c) == strings_view(pieces@) + split_on(text@.skip(start as int), c),
        decreases n - i,
    {
        proof {
            assert(text@.skip(i as int).skip(1) =~= text@.skip(i as int + 1));
            assert(text@.skip(i as int)[0] == text@[i as int]);
        }
        if chars[i] == c {
            let piece = String::from_str(text.substring_char(start, i));
            proof {
                let rest = text@.skip(start as int);
                assert(index_of(rest, c) == i - start);
                assert(rest.take(i - start) =~= text@.subrange(start as int, i as int));
                assert(rest.skip(i - start + 1) =~= text@.skip(i as int + 1));
                assert(strings_view(pieces@.push(piece)) =~= strings_view(pieces@) + seq![piece@]);
            }
            pieces.push(piece);
            start = i + 1;
        }
        i += 1;
    }
    let piece = String::from_str(text.substring_char(start, n));
    proof {
        let rest = text@.skip(start as int);
        assert(text@.skip(n as int) =~= Seq::<char>::empty());
        assert(index_of(rest, c) == n - start);
        assert(rest =~= text@.subrange(start as int, n as int));
        assert(strings_view(pieces@.push(piece)) =~= strings_view(pieces@) + seq![piece@]);
    }
    pieces.push(piece);
    pieces
}

/// The numeral of `n` in base two with `width` digits, the most significant
/// first: the low `width` bits of `n`.
pub open spec fn bits(n: nat, width: nat) -> Seq<char>
    decreases width,
{
    if width == 0 {
        Seq::empty()
    } else {
        bits(n / 2, (width - 1) as nat).push(
            if n % 2 == 1 {
                '1'
            } else {
                '0'
            },
        )
    }
}

/// Writes the low `width` bits of `n`, the most significant first.
pub fn bits_string(n: usize, width: usize) -> (s: String)
    ensures
        s@ == bits(n as nat, width as nat),
    decreases width,
{
    if width == 0 {
        String::new()
    } else {
        let mut s = bits_string(n / 2, width - 1);
        proof {
            reveal_strlit("0");
            reveal_strlit("1");
        }
        if n % 2 == 1 {
            s.append("1");
            assert(s@ =~= bits(n as nat, width as nat));
        } else {
            s.append("0");
            assert(s@ =~= bits(n as nat, width as nat));
        }
        s
    }
}

/// The digits of a numeral are digits, and they write the number.
pub proof fn lemma_decimal_value(n: nat)
    ensures
        decimal(n).len() > 0,
        forall|i: int| 0 <= i < decimal(n).len() ==> is_digit(
            #[trigger] decimal(n)[i],
        ),
        digits_value(decimal(n)) == n,
    decreases n,
{
    if n < 10 {
        assert(decimal(n) =~= seq![digit_char(n)]);
        assert(decimal(n).drop_last() =~= Seq::<char>::empty());
        assert(digits_value(Seq::<char>::empty()) == 0);
        assert(decimal(n).last() == digit_char(n));
        assert(digit_value(digit_char(n)) == n);
        assert(digits_value(decimal(n)) == digits_value(decimal(n).drop_last()) * 10 + digit_value(
            decimal(n).last(),
        ));
    } else {
        lemma_decimal_value(n / 10);
        let d = n % 10;
        assert(decimal(n).drop_last() =~= decimal(n / 10));
        assert(decimal(n).last() == digit_char(d));
        assert(digit_value(digit_char(d)) == d);
        assert(digits_value(decimal(n)) == digits_value(decimal(n).drop_last()) * 10 + digit_value(
            decimal(n).last(),
        ));
    }
}

/// Two numbers with one numeral are one number.
pub proof fn lemma_decimal_injective(a: nat, b: nat)
    requires
        decimal(a) == decimal(b),
    ensures
        a == b,
{
    lemma_decimal_value(a);
    lemma_decimal_value(b);
}

/// Reading a numeral gives back the number that it writes.
pub proof fn law_number_round_trip(n: nat)
    ensures
        number_value(decimal(n)) == Some(n),
{
    lemma_decimal_value(n);
    assert(decimal(n)[0] != '+') by {
        assert(is_digit(decimal(n)[0]));
    }
}

/// Whether `c` occurs nowhere in `s`.
pub open spec fn lacks(s: Seq<char>, c: char) -> bool {
    forall|i: int| 0 <= i < s.len() ==> #[trigger] s[i] != c
}

/// A text without `c` has its first `c` at its end.
pub proof fn lemma_index_of_absent(s: Seq<char>, c: char)
    requires
        lacks(s, c),
    ensures
        index_of(s, c) == s.len(),
    decreases s.len(),
{
    if s.len() > 0 {
        assert(s[0] != c);
        assert forall|i: int| 0 <= i < s.skip(1).len() implies #[trigger] s.skip(1)[i] != c by {
            assert(s.skip(1)[i] == s[i + 1]);
        }
        lemma_index_of_absent(s.skip(1), c);
    }
}

/// Where the first of two texts has no `c`, the first `c` of the two in a
/// row is the first `c` of the second.
pub proof fn lemma_index_of_add(first: Seq<char>, second: Seq<char>, c: char)
    requires
        lacks(first, c),
    ensures
        index_of(first + second, c) == first.len() + index_of(second, c),
    decreases first.len(),
{
    if first.len() == 0 {
        assert(first + second =~= second);
    } else {
        assert(first[0] != c);
        assert((first + second)[0] == first[0]);
        assert((first + second).skip(1) =~= first.skip(1) + second);
        assert forall|i: int| 0 <= i < first.skip(1).len() implies #[trigger] first.skip(1)[i]
            != c by {
            assert(first.skip(1)[i] == first[i + 1]);
        }
        lemma_index_of_add(first.skip(1), second, c);
    }
}

/// A text without a slash has no comment.
pub proof fn lemma_no_comment(s: Seq<char>)
    requires
        lacks(s, '/'),
    ensures
        strip_comment(s) == s,
    decreases s.len(),
{
    if s.len() >= 2 {
        assert(s[0] != '/');
        assert forall|i: int| 0 <= i < s.skip(1).len() implies #[trigger] s.skip(1)[i] != '/' by {
            assert(s.skip(1)[i] == s[i + 1]);
        }
        lemma_no_comment(s.skip(1));
        lemma_comment_start_bounds(s.skip(1));
        assert(s.skip(1).take(s.skip(1).len() as int) =~= s.skip(1));
        assert(comment_start(s.skip(1)) == s.len() - 1) by {
            if comment_start(s.skip(1)) < s.skip(1).len() {
                assert(s.skip(1).take(comment_start(s.skip(1))).len() < s.skip(1).len());
            }
        }
    }
    assert(s.take(s.len() as int) =~= s);
}

/// A text that starts and ends with no separator is trimmed already.
pub proof fn lemma_trim_of_trimmed(s: Seq<char>)
    requires
        s.len() > 0,
        !is_space(s[0]),
        !is_space(s.last()),
    ensures
        trim(s) == s,
{
    assert(s.subrange(0, s.len() as int) =~= s);
}

/// The index after the last `c` in `s`; zero where `s` has none.
pub open spec fn after_last(s: Seq<char>, c: char) -> int
    decreases s.len(),
{
    if s.len() == 0 {
        0
    } else if s.last() == c {
        s.len() as int
    } else {
        after_last(s.drop_last(), c)
    }
}

/// Finds the index after the last `c` among the characters of `chars`
/// from the index `from` on, counted from `from`.
pub fn find_after_last(chars: &Vec<char>, c: char, from: usize) -> (k: usize)
    requires
        from <= chars@.len(),
    ensures
        k == after_last(chars@.skip(from as int), c),
        k <= chars@.len() - from,
{
    let n: usize = chars.len();
    let ghost tail = chars@.skip(from as int);
    let mut i: usize = n;
    assert(tail.take(n - from) =~= tail);
    while i > from
        invariant
            from <= i <= n,
            n == chars@.len(),
            tail == chars@.skip(from as int),
            after_last(tail, c) == after_last(tail.take(i - from), c),
        decreases i,
    {
        proof {
            let part = tail.take(i - from);
            assert(part.last() == chars@[i - 1]);
            assert(part.drop_last() =~= tail.take(i - from - 1));
        }
        if chars[i - 1] == c {
            return i - from;
        }
        i -= 1;
    }
    0
}

/// The name of the file that `path` leads to: what follows its last `/`.
pub open spec fn file_name(path: Seq<char>) -> Seq<char> {
    path.skip(after_last(path, '/'))
}

/// The base name of the file that `path` leads to: the name of the file
/// without its extension, which starts at the last `.` of the name. A
/// name without a `.`, or with none but a first one, has no extension.
pub open spec fn base_name(path: Seq<char>) -> Seq<char> {
    let name = file_name(path);
    let end = after_last(name, '.');
    if end > 1 {
        name.take(end - 1)
    } else {
        name
    }
}

/// The base name of the file that `path` leads to.
pub fn base_name_of(path: &str) -> (name: String)
    ensures
        name@ == base_name(path@),
{
    let chars = chars_of(path);
    let n: usize = chars.len();
    let start: usize = find_after_last(&chars, '/', 0);
    assert(chars@.skip(0) =~= chars@);
    let dot: usize = find_after_last(&chars, '.', start);
    let end: usize = if dot > 1 {
        start + dot - 1
    } else {
        n
    };
    proof {
        let name = path@.skip(start as int);
        if dot > 1 {
            assert(name.take(dot - 1) =~= path@.subrange(start as int, end as int));
        } else {
            assert(name =~= path@.subrange(start as int, end as int));
        }
    }
    String::from_str(path.substring_char(start, end))
}

} // verus!
