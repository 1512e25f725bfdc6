//! Characters, decimal digits and lines of text.

use vstd::prelude::*;
use vstd::std_specs::iter::IteratorSpec;

verus! {

/// Believed of `String::push` of the standard library, as its documentation says: the string
/// afterwards is the string before with `ch` at its end.
pub assume_specification[ String::push ](s: &mut String, ch: char)
    ensures
        final(s)@ == old(s)@.push(ch),
;

/// Whether `c` is one of the ten ASCII decimal digits.
pub open spec fn is_digit(c: char) -> bool {
    '0' <= c <= '9'
}

/// The number that the digit `c` stands for.
pub open spec fn digit_value(c: char) -> int {
    c as int - '0' as int
}

/// The digit that stands for `d`, for `d` from 0 to 9.
pub open spec fn digit_char(d: int) -> char {
    ('0' as int + d) as char
}

/// The decimal digits of `n`, most significant first, without leading zeros.
pub open spec fn nat_text(n: nat) -> Seq<char>
    decreases n,
{
    if n < 10 {
        seq![digit_char(n as int)]
    } else {
        nat_text(n / 10).push(digit_char((n % 10) as int))
    }
}

/// The decimal text of `n`: a minus sign for a negative number, then its digits.
pub open spec fn int_text(n: int) -> Seq<char> {
    if n < 0 {
        seq!['-'] + nat_text((-n) as nat)
    } else {
        nat_text(n as nat)
    }
}

/// `n` written with exactly two decimal digits, for `n` from 0 to 99.
pub open spec fn two_digits(n: int) -> Seq<char> {
    seq![digit_char(n / 10), digit_char(n % 10)]
}

/// `n` written with exactly four decimal digits, for `n` from 0 to 9999.
pub open spec fn four_digits(n: int) -> Seq<char> {
    two_digits(n / 100) + two_digits(n % 100)
}

/// The number that one or two decimal digits spell; `None` for any other text.
pub open spec fn short_number(s: Seq<char>) -> Option<int> {
    if s.len() == 1 && is_digit(s[0]) {
        Some(digit_value(s[0]))
    } else if s.len() == 2 && is_digit(s[0]) && is_digit(s[1]) {
        Some(digit_value(s[0]) * 10 + digit_value(s[1]))
    } else {
        None
    }
}

/// The number that exactly four decimal digits spell; `None` for any other text.
pub open spec fn year_number(s: Seq<char>) -> Option<int> {
    if s.len() == 4 && is_digit(s[0]) && is_digit(s[1]) && is_digit(s[2]) && is_digit(s[3]) {
        Some(
            digit_value(s[0]) * 1000 + digit_value(s[1]) * 100 + digit_value(s[2]) * 10
                + digit_value(s[3]),
        )
    } else {
        None
    }
}

/// The value of the digit `c`, or `None` where `c` is no decimal digit.
pub fn digit_of(c: char) -> (r: Option<u8>)
    ensures
        r is Some <==> is_digit(c),
        r is Some ==> r->0 == digit_value(c) && r->0 < 10,
{
    if '0' <= c && c <= '9' {
        Some((c as u32 - '0' as u32) as u8)
    } else {
        None
    }
}

/// The digit for `d`.
pub(crate) fn char_of_digit(d: u8) -> (c: char)
    requires
        d < 10,
    ensures
        c == digit_char(d as int),
        is_digit(c),
        digit_value(c) == d,
{
    (48u8 + d) as char
}

/// Two digits written side by side are the two-digit text of the number they spell.
pub proof fn lemma_two_digits_of_pair(a: char, b: char)
    requires
        is_digit(a),
        is_digit(b),
    ensures
        two_digits(digit_value(a) * 10 + digit_value(b)) == seq![a, b],
{
    let n = digit_value(a) * 10 + digit_value(b);
    assert(n / 10 == digit_value(a) && n % 10 == digit_value(b));
    assert(digit_char(digit_value(a)) == a);
    assert(digit_char(digit_value(b)) == b);
}

/// The characters of `s`, in order.
pub fn chars_of(s: &str) -> (out: Vec<char>)
    ensures
        out@ == s@,
{
    let mut out: Vec<char> = Vec::new();
    for c in it: s.chars()
        invariant
            out@ == it.seq().take(it.index() as int),
            it.seq() == s@,
    {
        out.push(c);
    }
    out
}

/// Appends `n` to `s` as two decimal digits.
pub(crate) fn push_two_digits(s: &mut String, n: u8)
    requires
        n < 100,
    ensures
        final(s)@ == old(s)@ + two_digits(n as int),
{
    s.push(char_of_digit(n / 10));
    s.push(char_of_digit(n % 10));
}

/// Whether two texts hold the same characters.
pub fn same_text(a: &str, b: &str) -> (r: bool)
    ensures
        r == (a@ == b@),
{
    a.to_owned() == b.to_owned()
}

/// Appends the decimal digits of `n` to `out`.
pub(crate) fn push_nat(out: &mut String, n: u64)
    ensures
        final(out)@ == old(out)@ + nat_text(n as nat),
    decreases n,
{
    if n >= 10 {
        push_nat(out, n / 10);
    }
    out.push(char_of_digit((n % 10) as u8));
    proof {
        let tail = digit_char((n % 10) as int);
        if n >= 10 {
            assert(final(out)@ =~= old(out)@ + nat_text((n / 10) as nat).push(tail));
        } else {
            assert(final(out)@ =~= old(out)@ + seq![tail]);
        }
    }
}

/// Appends the decimal text of `n` to `out`.
pub(crate) fn push_int(out: &mut String, n: i64)
    ensures
        final(out)@ == old(out)@ + int_text(n as int),
{
    if n < 0 {
        out.push('-');
        let magnitude: u64 = (-(n as i128)) as u64;
        push_nat(out, magnitude);
        proof {
            assert(final(out)@ =~= old(out)@ + (seq!['-'] + nat_text((-n) as nat)));
        }
    } else {
        push_nat(out, n as u64);
    }
}

/// The place of the first line feed in `s`, or the length of `s` where it holds none.
pub open spec fn first_newline(s: Seq<char>) -> nat
    decreases s.len(),
{
    if s.len() == 0 || s[0] == '\n' {
        0
    } else {
        1 + first_newline(s.drop_first())
    }
}

/// `line` without the carriage return at its end, if it ends in one.
pub open spec fn without_carriage_return(line: Seq<char>) -> Seq<char> {
    if line.len() > 0 && line.last() == '\r' {
        line.drop_last()
    } else {
        line
    }
}

/// The lines of `s`. Each runs up to the next line feed and is kept without it, and without
/// the carriage return before it where there is one; what follows the last line feed, where
/// anything does, is the last line, kept whole.
pub open spec fn lines_of(s: Seq<char>) -> Seq<Seq<char>>
    decreases s.len(),
{
    if s.len() == 0 {
        Seq::empty()
    } else {
        let n = first_newline(s) as int;
        if n < s.len() {
            seq![without_carriage_return(s.take(n))] + lines_of(s.skip(n + 1))
        } else {
            seq![s]
        }
    }
}

/// Whether `s` is free of line feeds, so that it fits on one line.
pub open spec fn one_line(s: Seq<char>) -> bool {
    forall|i: int| 0 <= i < s.len() ==> s[i] != '\n'
}

/// Whether `s` is made of whole lines: it is empty or ends in a line feed.
pub open spec fn whole_lines(s: Seq<char>) -> bool {
    s.len() == 0 || s.last() == '\n'
}

/// The decimal digits of a number hold no line feed.
pub proof fn lemma_nat_text_one_line(n: nat)
    ensures
        one_line(nat_text(n)),
    decreases n,
{
    if n >= 10 {
        lemma_nat_text_one_line(n / 10);
    }
}

/// The decimal text of a number holds no line feed.
pub proof fn lemma_int_text_one_line(n: int)
    ensures
        one_line(int_text(n)),
{
    if n < 0 {
        lemma_nat_text_one_line((-n) as nat);
    } else {
        lemma_nat_text_one_line(n as nat);
    }
}

/// One more line at the end of a text of whole lines is one more line at the end of its lines.
pub proof fn lemma_lines_append(text: Seq<char>, line: Seq<char>)
    requires
        whole_lines(text),
        one_line(line),
    ensures
        lines_of(text + line.push('\n')) == lines_of(text).push(without_carriage_return(line)),
        whole_lines(text + line.push('\n')),
    decreases text.len(),
{
    let more = line.push('\n');
    let all = text + more;
    if text.len() == 0 {
        assert(all =~= more);
        lemma_first_newline(more, line.len() as int);
        assert(more.take(line.len() as int) =~= line);
        assert(more.skip(line.len() as int + 1) =~= Seq::<char>::empty());
        assert(lines_of(Seq::<char>::empty()) =~= Seq::<Seq<char>>::empty());
        assert(lines_of(more) =~= seq![without_carriage_return(line)]);
        assert(lines_of(text) =~= Seq::<Seq<char>>::empty());
        assert(lines_of(text).push(without_carriage_return(line)) =~= seq![
            without_carriage_return(line),
        ]);
    } else {
        let n = first_newline(text) as int;
        lemma_first_newline_found(text);
        assert(n < text.len());
        assert forall|j: int| 0 <= j < n implies all[j] != '\n' by {
            assert(all[j] == text[j]);
        }
        assert(all[n] == text[n]);
        lemma_first_newline(all, n);
        let rest = text.skip(n + 1);
        assert(whole_lines(rest)) by {
            if rest.len() > 0 {
                assert(rest.last() == text.last());
            }
        }
        lemma_lines_append(rest, line);
        assert(all.take(n) =~= text.take(n));
        assert(all.skip(n + 1) =~= rest + more);
        let head = seq![without_carriage_return(text.take(n))];
        assert(lines_of(all) == head + lines_of(rest + more));
        assert(lines_of(text) == head + lines_of(rest));
        assert(head + lines_of(rest).push(without_carriage_return(line)) =~= (head + lines_of(
            rest,
        )).push(without_carriage_return(line)));
    }
}

/// The first line feed of a text lies within the text, with no line feed before it, and at a
/// line feed where the text holds one.
pub proof fn lemma_first_newline_found(s: Seq<char>)
    ensures
        0 <= first_newline(s) <= s.len(),
        forall|j: int| 0 <= j < first_newline(s) ==> s[j] != '\n',
        first_newline(s) < s.len() ==> s[first_newline(s) as int] == '\n',
        !one_line(s) ==> first_newline(s) < s.len(),
    decreases s.len(),
{
    if s.len() > 0 && s[0] != '\n' {
        let rest = s.drop_first();
        lemma_first_newline_found(rest);
        assert forall|j: int| 0 <= j < first_newline(s) implies s[j] != '\n' by {
            if j > 0 {
                assert(s[j] == rest[j - 1]);
            }
        }
        if first_newline(s) < s.len() {
            assert(s[first_newline(s) as int] == rest[first_newline(rest) as int]);
        }
        if !one_line(s) {
            let k = choose|k: int| 0 <= k < s.len() && s[k] == '\n';
            assert(rest[k - 1] == s[k]);
        }
    }
}

/// The first line feed of `s` is at `k` where no earlier character is one and `k` is the end of
/// `s` or holds one.
pub proof fn lemma_first_newline(s: Seq<char>, k: int)
    requires
        0 <= k <= s.len(),
        forall|j: int| 0 <= j < k ==> s[j] != '\n',
        k == s.len() || s[k] == '\n',
    ensures
        first_newline(s) == k,
    decreases k,
{
    if k > 0 {
        lemma_first_newline(s.drop_first(), k - 1);
    }
}

/// The lines of `content`.
pub fn split_lines(content: &str) -> (lines: Vec<String>)
    ensures
        lines.deep_view() == lines_of(content@),
{
    let chars = chars_of(content);
    let mut lines: Vec<String> = Vec::new();
    let mut start: usize = 0;
    proof {
        assert(chars@.skip(0) =~= chars@);
        assert(lines.deep_view() =~= Seq::<Seq<char>>::empty());
    }
    while start < chars.len()
        invariant
            start <= chars.len(),
            chars@ == content@,
            lines.deep_view() + lines_of(chars@.skip(start as int)) == lines_of(chars@),
        decreases chars.len() - start,
    {
        let mut end: usize = start;
        while end < chars.len() && chars[end] != '\n'
            invariant
                start <= end <= chars.len(),
                forall|j: int| start <= j < end ==> chars@[j] != '\n',
            decreases chars.len() - end,
        {
            end += 1;
        }
        let stop: usize = if end < chars.len() && end > start && chars[end - 1] == '\r' {
            end - 1
        } else {
            end
        };
        let mut line = String::new();
        let mut i: usize = start;
        while i < stop
            invariant
                start <= i <= stop <= chars.len(),
                line@ == chars@.subrange(start as int, i as int),
            decreases stop - i,
        {
            line.push(chars[i]);
            i += 1;
        }
        let next: usize = if end < chars.len() {
            end + 1
        } else {
            end
        };
        proof {
            let tail = chars@.skip(start as int);
            lemma_first_newline(tail, end - start);
            assert(tail.take(end - start) =~= chars@.subrange(start as int, end as int));
            if end < chars.len() {
                assert(line@ =~= without_carriage_return(tail.take(end - start)));
                assert(tail.skip(end - start + 1) =~= chars@.skip(next as int));
            } else {
                assert(line@ =~= tail);
                assert(chars@.skip(next as int) =~= Seq::<char>::empty());
                assert(seq![line@] + lines_of(chars@.skip(next as int)) =~= seq![line@]);
            }
            assert(lines_of(tail) == seq![line@] + lines_of(chars@.skip(next as int)));
            assert(lines.deep_view().push(line@) + lines_of(chars@.skip(next as int))
                =~= lines.deep_view() + lines_of(tail));
        }
        let ghost before = lines.deep_view();
        lines.push(line);
        proof {
            assert(lines.deep_view() =~= before.push(line@));
        }
        start = next;
    }
    proof {
        assert(chars@.skip(start as int) =~= Seq::<char>::empty());
        assert(lines.deep_view() + Seq::<Seq<char>>::empty() =~= lines.deep_view());
    }
    lines
}

} // verus!
