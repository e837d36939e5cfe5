//! Text as sequences of characters: lines, decimal numbers, trailing
//! whitespace.
use vstd::prelude::*;

verus! {

/// `String::push` appends one character to the end of the string.
pub assume_specification[ String::push ](s: &mut String, c: char)
    ensures
        final(s)@ == old(s)@.push(c),
;

/// The lines of `s`: the pieces between its line feeds. There is always at
/// least one line, and a text that ends in a line feed has an empty last
/// line.
pub open spec fn split_lines(s: Seq<char>) -> Seq<Seq<char>>
    decreases s.len(),
{
    if s.len() == 0 {
        seq![Seq::empty()]
    } else {
        let before = split_lines(s.drop_last());
        if s.last() == '\n' {
            before.push(Seq::empty())
        } else {
            before.drop_last().push(before.last().push(s.last()))
        }
    }
}

/// The lines put together again, with a line feed between two neighbours.
pub open spec fn join_lines(lines: Seq<Seq<char>>) -> Seq<char>
    decreases lines.len(),
{
    if lines.len() == 0 {
        Seq::empty()
    } else if lines.len() == 1 {
        lines[0]
    } else {
        join_lines(lines.drop_last()) + seq!['\n'] + lines.last()
    }
}

/// Whether `s` holds no line feed.
pub open spec fn is_single_line(s: Seq<char>) -> bool {
    forall|i: int| 0 <= i < s.len() ==> s[i] != '\n'
}

/// Splitting loses nothing: no line holds a line feed, and joining the
/// lines gives the text back.
pub proof fn lemma_split_lines(s: Seq<char>)
    ensures
        split_lines(s).len() >= 1,
        forall|i: int| 0 <= i < split_lines(s).len() ==> is_single_line(#[trigger] split_lines(s)[i]),
        join_lines(split_lines(s)) == s,
    decreases s.len(),
{
    if s.len() > 0 {
        let init = s.drop_last();
        let before = split_lines(init);
        lemma_split_lines(init);
        if s.last() == '\n' {
            let lines = before.push(Seq::empty());
            assert(lines.drop_last() == before);
            assert(join_lines(lines) == init + seq!['\n'] + Seq::<char>::empty());
            assert(init + seq!['\n'] + Seq::<char>::empty() == s);
        } else {
            let lines = before.drop_last().push(before.last().push(s.last()));
            assert(lines.drop_last() == before.drop_last());
            assert(is_single_line(before.last()));
            if before.len() == 1 {
                assert(before.last() == init);
                assert(init.push(s.last()) == s);
            } else {
                assert(join_lines(lines) == join_lines(before.drop_last()) + seq!['\n']
                    + before.last().push(s.last()));
                assert(join_lines(before.drop_last()) + seq!['\n'] + before.last().push(s.last())
                    == (join_lines(before.drop_last()) + seq!['\n'] + before.last()).push(
                    s.last(),
                ));
                assert(init.push(s.last()) == s);
            }
        }
    }
}

/// A text without a line feed is its own single line.
pub proof fn lemma_split_single_line(s: Seq<char>)
    requires
        is_single_line(s),
    ensures
        split_lines(s) == seq![s],
    decreases s.len(),
{
    if s.len() > 0 {
        lemma_split_single_line(s.drop_last());
        assert(seq![s.drop_last()].drop_last().push(s.drop_last().push(s.last())) == seq![s]) by {
            assert(s.drop_last().push(s.last()) == s);
        }
    } else {
        assert(s == Seq::<char>::empty());
    }
}

/// The lines of `a`, a line feed, then `b` on one line: the lines of `a`
/// followed by `b`.
pub proof fn lemma_split_append_line(a: Seq<char>, b: Seq<char>)
    requires
        is_single_line(b),
    ensures
        split_lines(a + seq!['\n'] + b) == split_lines(a).push(b),
    decreases b.len(),
{
    let whole = a + seq!['\n'] + b;
    if b.len() == 0 {
        assert(whole.drop_last() == a);
        assert(b == Seq::<char>::empty());
    } else {
        let shorter = b.drop_last();
        lemma_split_append_line(a, shorter);
        assert(whole.drop_last() == a + seq!['\n'] + shorter);
        assert(whole.last() == b.last());
        assert(split_lines(a).push(shorter).drop_last() == split_lines(a));
        assert(shorter.push(b.last()) == b);
    }
}

/// The character of one decimal digit.
pub open spec fn digit(d: nat) -> char
    recommends
        d < 10,
{
    if d == 0 {
        '0'
    } else if d == 1 {
        '1'
    } else if d == 2 {
        '2'
    } else if d == 3 {
        '3'
    } else if d == 4 {
        '4'
    } else if d == 5 {
        '5'
    } else if d == 6 {
        '6'
    } else if d == 7 {
        '7'
    } else if d == 8 {
        '8'
    } else {
        '9'
    }
}

/// `n` written in decimal, without leading zeros.
pub open spec fn decimal(n: nat) -> Seq<char>
    decreases n,
{
    if n < 10 {
        seq![digit(n)]
    } else {
        decimal(n / 10).push(digit(n % 10))
    }
}

/// `n` blanks.
pub open spec fn blanks(n: nat) -> Seq<char> {
    Seq::new(n, |i: int| ' ')
}

/// `s` moved to the right end of a field of `width` characters; a text
/// that is wider than the field stays as it is.
pub open spec fn right_aligned(s: Seq<char>, width: nat) -> Seq<char> {
    if s.len() >= width {
        s
    } else {
        blanks((width - s.len()) as nat) + s
    }
}

/// A decimal number has one digit below 10, two below 100, three below
/// 1000 and at least four from there on, and holds no line feed.
pub proof fn lemma_decimal(n: nat)
    ensures
        decimal(n).len() >= 1,
        n < 10 ==> decimal(n).len() == 1,
        10 <= n < 100 ==> decimal(n).len() == 2,
        100 <= n < 1000 ==> decimal(n).len() == 3,
        1000 <= n ==> decimal(n).len() >= 4,
        is_single_line(decimal(n)),
    decreases n,
{
    if n >= 10 {
        lemma_decimal(n / 10);
    }
}

/// Appends the decimal digits of `n`.
pub fn push_decimal(buffer: &mut String, n: usize)
    ensures
        final(buffer)@ == old(buffer)@ + decimal(n as nat),
    decreases n,
{
    if n >= 10 {
        push_decimal(buffer, n / 10);
    }
    let d: usize = n % 10;
    let c: char = if d == 0 {
        '0'
    } else if d == 1 {
        '1'
    } else if d == 2 {
        '2'
    } else if d == 3 {
        '3'
    } else if d == 4 {
        '4'
    } else if d == 5 {
        '5'
    } else if d == 6 {
        '6'
    } else if d == 7 {
        '7'
    } else if d == 8 {
        '8'
    } else {
        '9'
    };
    buffer.push(c);
    proof {
        if n >= 10 {
            assert(old(buffer)@ + decimal((n / 10) as nat).push(c) == (old(buffer)@ + decimal(
                (n / 10) as nat,
            )).push(c));
        } else {
            assert(old(buffer)@ + seq![c] == old(buffer)@.push(c));
        }
    }
}

/// How many digits `n` has in decimal.
pub fn decimal_width(n: usize) -> (width: usize)
    ensures
        width == decimal(n as nat).len(),
        1 <= width <= n / 10 + 1,
    decreases n,
{
    if n < 10 {
        1
    } else {
        decimal_width(n / 10) + 1
    }
}

/// Appends `n` blanks.
pub fn push_blanks(buffer: &mut String, n: usize)
    ensures
        final(buffer)@ == old(buffer)@ + blanks(n as nat),
{
    let mut written: usize = 0;
    proof {
        assert(old(buffer)@ + blanks(0) == old(buffer)@);
    }
    while written < n
        invariant
            written <= n,
            buffer@ == old(buffer)@ + blanks(written as nat),
        decreases n - written,
    {
        buffer.push(' ');
        proof {
            assert((old(buffer)@ + blanks(written as nat)).push(' ') == old(buffer)@ + blanks(
                (written + 1) as nat,
            ));
        }
        written += 1;
    }
}

/// The characters with the Unicode property `White_Space`.
pub open spec fn is_whitespace(c: char) -> bool {
    ||| '\u{9}' <= c <= '\u{d}'
    ||| c == ' '
    ||| c == '\u{85}'
    ||| c == '\u{a0}'
    ||| c == '\u{1680}'
    ||| '\u{2000}' <= c <= '\u{200a}'
    ||| c == '\u{2028}'
    ||| c == '\u{2029}'
    ||| c == '\u{202f}'
    ||| c == '\u{205f}'
    ||| c == '\u{3000}'
}

/// Tells whether `c` is whitespace.
pub fn char_is_whitespace(c: char) -> (b: bool)
    ensures
        b == is_whitespace(c),
{
    ('\u{9}' <= c && c <= '\u{d}') || c == ' ' || c == '\u{85}' || c == '\u{a0}' || c
        == '\u{1680}' || ('\u{2000}' <= c && c <= '\u{200a}') || c == '\u{2028}' || c
        == '\u{2029}' || c == '\u{202f}' || c == '\u{205f}' || c == '\u{3000}'
}

/// `s` without the whitespace at its end.
pub open spec fn trimmed_end(s: Seq<char>) -> Seq<char>
    decreases s.len(),
{
    if s.len() > 0 && is_whitespace(s.last()) {
        trimmed_end(s.drop_last())
    } else {
        s
    }
}

/// What is trimmed is a prefix of the text, does not end in whitespace, and
/// leaves only whitespace behind.
pub proof fn lemma_trimmed_end(s: Seq<char>)
    ensures
        trimmed_end(s).len() <= s.len(),
        trimmed_end(s) == s.take(trimmed_end(s).len() as int),
        trimmed_end(s).len() > 0 ==> !is_whitespace(trimmed_end(s).last()),
        forall|i: int| trimmed_end(s).len() <= i < s.len() ==> is_whitespace(s[i]),
    decreases s.len(),
{
    if s.len() > 0 && is_whitespace(s.last()) {
        let init = s.drop_last();
        lemma_trimmed_end(init);
        assert(init.take(trimmed_end(init).len() as int) == s.take(trimmed_end(init).len() as int));
        assert forall|i: int| trimmed_end(s).len() <= i < s.len() implies is_whitespace(s[i]) by {
            if i < init.len() {
                assert(s[i] == init[i]);
            }
        }
    } else {
        assert(s.take(s.len() as int) == s);
    }
}

/// The text without its trailing whitespace.
pub fn trim_end(s: &str) -> (r: &str)
    ensures
        r@ == trimmed_end(s@),
{
    let total: usize = s.unicode_len();
    let mut seen: usize = 0;
    let mut keep: usize = 0;
    for c in it: s.chars()
        invariant
            it.seq() == s@,
            total == s@.len(),
            seen == it.index(),
            keep <= seen,
            s@.take(keep as int) == trimmed_end(s@.take(seen as int)),
    {
        proof {
            let shorter = s@.take(seen as int);
            let longer = s@.take(seen + 1);
            assert(longer.drop_last() == shorter);
            assert(longer.last() == c);
            if !is_whitespace(c) {
                assert(trimmed_end(longer) == longer);
            }
        }
        seen = seen + 1;
        if !char_is_whitespace(c) {
            keep = seen;
        }
    }
    proof {
        assert(s@.take(seen as int) == s@);
        assert(s@.take(keep as int) == s@.subrange(0, keep as int));
    }
    s.substring_char(0, keep)
}

} // verus!
