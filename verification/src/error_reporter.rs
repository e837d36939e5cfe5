//! A report of an error and of the chain of errors that caused it.
//!
//! A [`Report`] renders on one line, the causes joined by `": "`, or as
//! several lines, with each cause indented under the header `Caused by:`.
use crate::error::{chain_of, Error, ErrorRecord};
use crate::text::{
    blanks, decimal, decimal_width, lemma_decimal, push_blanks, push_decimal, right_aligned,
    split_lines, trim_end, trimmed_end,
};
use vstd::prelude::*;

verus! {

/// A chain on one line: the texts from the root to the deepest cause, with
/// `": "` between two neighbours.
pub open spec fn single_line(chain: Seq<Seq<char>>) -> Seq<char>
    decreases chain.len(),
{
    if chain.len() == 0 {
        Seq::empty()
    } else if chain.len() == 1 {
        chain[0]
    } else {
        single_line(chain.drop_last()) + ": "@ + chain.last()
    }
}

/// The columns that the number of a cause takes: four, or as many as it has
/// digits where it has more.
pub open spec fn number_width(index: nat) -> nat {
    right_aligned(decimal(index), 4).len()
}

/// What is put in front of a line of a cause. Without a number every line
/// gets the same four blanks. With a number the first line of the cause gets
/// the number, right-aligned in four columns, a colon and a blank; the lines
/// after it get blanks of that width.
pub open spec fn line_prefix(format: Option<nat>, first: bool) -> Seq<char> {
    match format {
        Some(index) => if first {
            right_aligned(decimal(index), 4) + ": "@
        } else {
            blanks(number_width(index) + 2)
        },
        None => "    "@,
    }
}

/// One line as it is written: an empty line stays empty, and a line that
/// continues what was written before gets no prefix.
pub open spec fn indent_line(
    line: Seq<char>,
    needs_indent: bool,
    first: bool,
    format: Option<nat>,
) -> Seq<char> {
    if needs_indent && line.len() > 0 {
        line_prefix(format, first) + line
    } else {
        line
    }
}

/// The lines as they are written, one after the other. Only the first of
/// them depends on `needs_indent` and on `first`: each later one starts a
/// line of the output and is no first line of a cause.
pub open spec fn indent_lines(
    lines: Seq<Seq<char>>,
    needs_indent: bool,
    first: bool,
    format: Option<nat>,
) -> Seq<char>
    decreases lines.len(),
{
    if lines.len() == 0 {
        Seq::empty()
    } else if lines.len() == 1 {
        indent_line(lines[0], needs_indent, first, format)
    } else {
        indent_lines(lines.drop_last(), needs_indent, first, format) + seq!['\n'] + indent_line(
            lines.last(),
            true,
            false,
            format,
        )
    }
}

/// `text` with its lines indented. `needs_indent` says whether the text
/// begins at the start of a line of the output, `first` whether it begins on
/// the first line of its cause.
pub open spec fn indented(
    text: Seq<char>,
    needs_indent: bool,
    first: bool,
    format: Option<nat>,
) -> Seq<char> {
    indent_lines(split_lines(text), needs_indent, first, format)
}

/// Whether the output stands at the start of a line once `text` is written.
pub open spec fn needs_indent_after(text: Seq<char>, needs_indent: bool) -> bool {
    let lines = split_lines(text);
    if lines.last().len() > 0 {
        false
    } else if lines.len() > 1 {
        true
    } else {
        needs_indent
    }
}

/// Whether the output still is on the first line of the cause once `text`
/// is written: it was before, and no line feed came with the text.
pub open spec fn first_line_after(text: Seq<char>, first: bool) -> bool {
    first && split_lines(text).len() == 1
}

/// The causes below the header, each on a line of its own. Numbered causes
/// count from zero.
pub open spec fn cause_blocks(causes: Seq<Seq<char>>, numbered: bool) -> Seq<char>
    decreases causes.len(),
{
    if causes.len() == 0 {
        Seq::empty()
    } else {
        let format = if numbered {
            Some((causes.len() - 1) as nat)
        } else {
            None
        };
        cause_blocks(causes.drop_last(), numbered) + seq!['\n'] + indented(
            causes.last(),
            true,
            true,
            format,
        )
    }
}

/// The backtrace section, or nothing where there is no trace to show.
pub open spec fn trace_section(trace: Option<Seq<char>>) -> Seq<char> {
    match trace {
        Some(t) => "\n\nStack backtrace:\n"@ + trimmed_end(t),
        None => Seq::empty(),
    }
}

/// A chain on several lines. An error without a source is its display text
/// and nothing else. Otherwise the causes follow under the header
/// `Caused by:`, numbered if there are two or more of them, and after them
/// the backtrace section.
pub open spec fn multi_line(chain: Seq<Seq<char>>, trace: Option<Seq<char>>) -> Seq<char> {
    if chain.len() <= 1 {
        chain[0]
    } else {
        chain[0] + "\n\nCaused by:"@ + cause_blocks(chain.skip(1), chain.len() > 2)
            + trace_section(trace)
    }
}

/// A writer that indents the text of one cause as it passes through, in one
/// piece or in several. It remembers where the output stands and how lines
/// are to be prefixed: with the number in `format`, or all alike where there
/// is none.
pub struct Indented {
    /// Whether the output stands at the start of a line.
    pub needs_indent: bool,
    /// Whether the output still is on the first line of the cause.
    pub first_line: bool,
    /// The number of the cause, where the causes are numbered.
    pub format: Option<usize>,
}

impl Indented {
    /// The number in `format`, as a natural number.
    pub open spec fn index(&self) -> Option<nat> {
        match self.format {
            Some(size) => Some(size as nat),
            None => None,
        }
    }

    /// A writer at the start of the first line of a cause.
    pub fn new(format: Option<usize>) -> (w: Indented)
        ensures
            w.needs_indent,
            w.first_line,
            w.format == format,
    {
        Indented { needs_indent: true, first_line: true, format }
    }

    /// Writes the prefix of the line that begins.
    fn write_prefix(&self, buffer: &mut String)
        ensures
            final(buffer)@ == old(buffer)@ + line_prefix(self.index(), self.first_line),
    {
        match self.format {
            Some(size) => {
                let digits = decimal_width(size);
                if self.first_line {
                    if digits < 4 {
                        push_blanks(buffer, 4 - digits);
                    }
                    let ghost padded = buffer@;
                    push_decimal(buffer, size);
                    buffer.append(": ");
                    proof {
                        let number = decimal(size as nat);
                        assert(padded + number == old(buffer)@ + right_aligned(number, 4));
                        assert(padded + number + ": "@ == old(buffer)@ + (right_aligned(number, 4)
                            + ": "@));
                    }
                } else {
                    let width = if digits < 4 {
                        4
                    } else {
                        digits
                    };
                    push_blanks(buffer, width + 2);
                }
            },
            None => {
                buffer.append("    ");
            },
        }
    }

    /// Appends `s` to `buffer`, indenting each line that starts in it.
    pub fn write_str(&mut self, buffer: &mut String, s: &str)
        ensures
            final(buffer)@ == old(buffer)@ + indented(
                s@,
                old(self).needs_indent,
                old(self).first_line,
                old(self).index(),
            ),
            final(self).needs_indent == needs_indent_after(s@, old(self).needs_indent),
            final(self).first_line == first_line_after(s@, old(self).first_line),
            final(self).format == old(self).format,
    {
        for c in it: s.chars()
            invariant
                it.seq() == s@,
                self.format == old(self).format,
                self.first_line == first_line_after(s@.take(it.index()), old(self).first_line),
                self.needs_indent == needs_indent_after(s@.take(it.index()), old(self).needs_indent),
                buffer@ == old(buffer)@ + indented(
                    s@.take(it.index()),
                    old(self).needs_indent,
                    old(self).first_line,
                    old(self).index(),
                ),
        {
            proof {
                let before = s@.take(it.index());
                assert(before.push(c) == s@.take(it.index() + 1));
                lemma_indented_push(
                    before,
                    c,
                    old(self).needs_indent,
                    old(self).first_line,
                    old(self).index(),
                );
            }
            if c == '\n' {
                self.needs_indent = true;
                self.first_line = false;
            } else if self.needs_indent {
                self.write_prefix(buffer);
                self.needs_indent = false;
            }
            buffer.push(c);
        }
        proof {
            assert(s@.take(s@.len() as int) == s@);
        }
    }
}

/// Indenting goes character by character. A line feed is written as it is.
/// Any other character is written after the prefix of its line where it is
/// the first of that line, and as it is where it is not.
pub proof fn lemma_indented_push(
    text: Seq<char>,
    c: char,
    needs_indent: bool,
    first: bool,
    format: Option<nat>,
)
    ensures
        indented(text.push(c), needs_indent, first, format) == if c != '\n' && needs_indent_after(
            text,
            needs_indent,
        ) {
            (indented(text, needs_indent, first, format) + line_prefix(
                format,
                first_line_after(text, first),
            )).push(c)
        } else {
            indented(text, needs_indent, first, format).push(c)
        },
        needs_indent_after(text.push(c), needs_indent) == (c == '\n'),
        first_line_after(text.push(c), first) == (first_line_after(text, first) && c != '\n'),
{
    let longer = text.push(c);
    let lines = split_lines(text);
    let written = indented(text, needs_indent, first, format);
    assert(longer.drop_last() == text);
    assert(longer.last() == c);
    crate::text::lemma_split_lines(text);
    if c == '\n' {
        assert(split_lines(longer) == lines.push(Seq::empty()));
        assert(split_lines(longer).drop_last() == lines);
        assert(written + seq!['\n'] + Seq::<char>::empty() == written.push('\n'));
    } else {
        let line = lines.last().push(c);
        assert(split_lines(longer) == lines.drop_last().push(line));
        assert(split_lines(longer).drop_last() == lines.drop_last());
        assert(split_lines(longer).last() == line);
        if lines.len() == 1 {
            let prefix = line_prefix(format, first);
            assert(lines.last() == lines[0]);
            assert(split_lines(longer)[0] == line);
            if lines[0].len() == 0 {
                assert(line == seq![c]);
                assert(written == Seq::<char>::empty());
                assert(prefix + line == (written + prefix).push(c));
                assert(line == written.push(c));
            } else {
                assert((prefix + lines[0]).push(c) == prefix + line);
            }
        } else {
            let prefix = line_prefix(format, false);
            let head = indent_lines(lines.drop_last(), needs_indent, first, format) + seq!['\n'];
            let tail = indent_line(lines.last(), true, false, format);
            assert(written == head + tail);
            if lines.last().len() == 0 {
                assert(line == seq![c]);
                assert(head + (prefix + line) == (head + tail + prefix).push(c));
            } else {
                assert((prefix + lines.last()).push(c) == prefix + line);
                assert(head + tail.push(c) == (head + tail).push(c));
            }
        }
    }
}

/// What is appended to a text is appended to its last part.
proof fn lemma_append_to_last_part(
    left: Seq<char>,
    right: Seq<char>,
    prefix: Seq<char>,
    c: char,
)
    ensures
        (left + right + prefix).push(c) == left + (right + prefix).push(c),
        (left + right).push(c) == left + right.push(c),
{
}

/// A text and then the characters of another but for the last, and then
/// that last one: the text and then the other.
proof fn lemma_concat_push(a: Seq<char>, b: Seq<char>)
    requires
        b.len() > 0,
    ensures
        (a + b.drop_last()).push(b.last()) == a + b,
        b.drop_last().push(b.last()) == b,
{
}

/// Writing a text in two pieces is writing it in one: the second piece goes
/// on where the first one stopped.
pub proof fn lemma_indented_in_pieces(
    a: Seq<char>,
    b: Seq<char>,
    needs_indent: bool,
    first: bool,
    format: Option<nat>,
)
    ensures
        indented(a + b, needs_indent, first, format) == indented(a, needs_indent, first, format)
            + indented(
            b,
            needs_indent_after(a, needs_indent),
            first_line_after(a, first),
            format,
        ),
        needs_indent_after(a + b, needs_indent) == needs_indent_after(
            b,
            needs_indent_after(a, needs_indent),
        ),
        first_line_after(a + b, first) == first_line_after(b, first_line_after(a, first)),
    decreases b.len(),
{
    let middle = needs_indent_after(a, needs_indent);
    let still = first_line_after(a, first);
    let left = indented(a, needs_indent, first, format);
    if b.len() == 0 {
        assert(a + b == a);
        assert(left + Seq::<char>::empty() == left);
    } else {
        let init = b.drop_last();
        let c = b.last();
        let right = indented(init, middle, still, format);
        let prefix = line_prefix(format, first_line_after(init, still));
        lemma_indented_in_pieces(a, init, needs_indent, first, format);
        lemma_indented_push(a + init, c, needs_indent, first, format);
        lemma_indented_push(init, c, middle, still, format);
        lemma_concat_push(a, b);
        lemma_append_to_last_part(left, right, prefix, c);
    }
}

/// An error together with the way it is to be rendered.
pub struct Report<E> {
    /// The error being reported.
    error: E,
    /// Whether the backtrace is part of the report.
    show_backtrace: bool,
    /// Whether the report is written on several lines.
    pretty: bool,
}

impl<E: Error> Report<E> {
    /// The error being reported.
    pub closed spec fn error(&self) -> E {
        self.error
    }

    /// Whether the report is written on several lines.
    pub closed spec fn is_pretty(&self) -> bool {
        self.pretty
    }

    /// Whether the backtrace is part of the report.
    pub closed spec fn shows_backtrace(&self) -> bool {
        self.show_backtrace
    }

    /// The trace that a multi-line report shows: that of the error, where
    /// the report is asked for it.
    pub open spec fn shown_trace(&self) -> Option<Seq<char>> {
        if self.shows_backtrace() {
            self.error().trace()
        } else {
            None
        }
    }

    /// The text of the report.
    pub open spec fn rendering(&self) -> Seq<char> {
        if self.is_pretty() {
            multi_line(chain_of(self.error()), self.shown_trace())
        } else {
            single_line(chain_of(self.error()))
        }
    }

    /// Create a new `Report` from an input error.
    pub fn new(error: E) -> (report: Report<E>)
        ensures
            report.error() == error,
            !report.is_pretty(),
            !report.shows_backtrace(),
    {
        Report { error, show_backtrace: false, pretty: false }
    }

    /// Enable pretty-printing the report.
    pub fn pretty(self, pretty: bool) -> (report: Self)
        ensures
            report.error() == self.error(),
            report.is_pretty() == pretty,
            report.shows_backtrace() == self.shows_backtrace(),
    {
        let mut report = self;
        report.pretty = pretty;
        report
    }

    /// Enable showing a backtrace for the report.
    pub fn show_backtrace(self, show_backtrace: bool) -> (report: Self)
        ensures
            report.error() == self.error(),
            report.is_pretty() == self.is_pretty(),
            report.shows_backtrace() == show_backtrace,
    {
        let mut report = self;
        report.show_backtrace = show_backtrace;
        report
    }

    /// Format the report as a single line.
    pub fn fmt_singleline(&self, f: &mut String)
        ensures
            final(f)@ == old(f)@ + single_line(chain_of(self.error())),
    {
        f.append(self.error.display());
        if let Some(cause) = self.error.source() {
            let sources = cause.chain();
            let ghost chain = chain_of(self.error);
            proof {
                cause.lemma_links_start();
                assert(chain.take(1) == seq![self.error.text()]);
            }
            let mut i: usize = 0;
            while i < sources.len()
                invariant
                    i <= sources@.len(),
                    chain == chain_of(self.error),
                    chain == seq![self.error.text()] + cause.texts(),
                    sources@.len() == cause.links().len(),
                    cause.texts().len() == cause.links().len(),
                    forall|k: int| 0 <= k < sources@.len() ==> *#[trigger] sources@[k] == cause.links()[k],
                    f@ == old(f)@ + single_line(chain.take(i + 1)),
                decreases sources@.len() - i,
            {
                f.append(": ");
                f.append(sources[i].display());
                proof {
                    cause.lemma_links_texts(i as int);
                    let longer = chain.take(i + 2);
                    assert(longer.drop_last() == chain.take(i + 1));
                    assert(longer.last() == sources@[i as int].message@);
                    assert(f@ == old(f)@ + (single_line(chain.take(i + 1)) + ": "@
                        + sources@[i as int].message@));
                }
                i += 1;
            }
            proof {
                assert(chain.take(chain.len() as int) == chain);
            }
        }
    }

    /// Format the report as multiple lines, with each error cause on its own line.
    pub fn fmt_multiline(&self, f: &mut String)
        ensures
            final(f)@ == old(f)@ + multi_line(chain_of(self.error()), self.shown_trace()),
    {
        let error = &self.error;

        f.append(error.display());

        if let Some(cause) = error.source() {
            f.append("\n\nCaused by:");

            let multiple = cause.source().is_some();
            let causes = cause.chain();
            let ghost chain = chain_of(self.error);
            let ghost head = old(f)@ + error.text() + "\n\nCaused by:"@;
            proof {
                cause.lemma_links_start();
                if multiple {
                    cause.cause()->0.lemma_links_start();
                }
                assert(chain.skip(1) == cause.texts());
                assert(multiple == (chain.len() > 2));
            }

            let mut ind: usize = 0;
            while ind < causes.len()
                invariant
                    ind <= causes@.len(),
                    causes@.len() == cause.links().len(),
                    cause.texts().len() == cause.links().len(),
                    forall|k: int| 0 <= k < causes@.len() ==> *#[trigger] causes@[k] == cause.links()[k],
                    f@ == head + cause_blocks(cause.texts().take(ind as int), multiple),
                decreases causes@.len() - ind,
            {
                f.push('\n');

                let format = if multiple {
                    Some(ind)
                } else {
                    None
                };
                let mut writer = Indented::new(format);

                writer.write_str(f, causes[ind].display());
                proof {
                    cause.lemma_links_texts(ind as int);
                    let shorter = cause.texts().take(ind as int);
                    let longer = cause.texts().take(ind + 1);
                    assert(longer.drop_last() == shorter);
                    assert(longer.last() == causes@[ind as int].message@);
                    assert(f@ == head + (cause_blocks(shorter, multiple) + seq!['\n'] + indented(
                        longer.last(),
                        true,
                        true,
                        writer.index(),
                    )));
                }
                ind += 1;
            }
            proof {
                assert(cause.texts().take(cause.texts().len() as int) == cause.texts());
            }
            let ghost blocks = f@;

            if self.show_backtrace {
                if let Some(backtrace) = error.backtrace() {
                    f.append("\n\nStack backtrace:\n");
                    f.append(trim_end(backtrace));
                }
            }
            proof {
                assert(f@ == blocks + trace_section(self.shown_trace()));
                assert(f@ == old(f)@ + (error.text() + "\n\nCaused by:"@ + cause_blocks(
                    chain.skip(1),
                    chain.len() > 2,
                ) + trace_section(self.shown_trace())));
            }
        }
    }

    /// Appends the report to `f`: on several lines where it is pretty, on
    /// one line where it is not.
    pub fn fmt(&self, f: &mut String)
        ensures
            final(f)@ == old(f)@ + self.rendering(),
    {
        if self.pretty {
            self.fmt_multiline(f)
        } else {
            self.fmt_singleline(f)
        }
    }

    /// The report as a text of its own.
    pub fn render(&self) -> (out: String)
        ensures
            out@ == self.rendering(),
    {
        let mut out = String::new();
        self.fmt(&mut out);
        proof {
            assert(Seq::<char>::empty() + self.rendering() == self.rendering());
        }
        out
    }
}

impl<E: Error> From<E> for Report<E> {
    fn from(error: E) -> (report: Self)
        ensures
            report.error() == error,
            !report.is_pretty(),
            !report.shows_backtrace(),
    {
        Report::new(error)
    }
}

impl<E: Error> vstd::std_specs::convert::FromSpecImpl<E> for Report<E> {
    open spec fn obeys_from_spec() -> bool {
        true
    }

    closed spec fn from_spec(error: E) -> Self {
        Report { error, show_backtrace: false, pretty: false }
    }
}

/// A report on one line of an error without a source is the display text of
/// that error, unchanged.
pub proof fn lemma_single_line_without_source<E: Error>(report: Report<E>)
    requires
        !report.is_pretty(),
        report.error().cause() is None,
    ensures
        report.rendering() == report.error().text(),
{
}

/// On one line a chain reads from the root to the deepest cause: the text of
/// the first error, `": "`, and the rest of the chain on one line.
pub proof fn lemma_single_line_chain(chain: Seq<Seq<char>>)
    requires
        chain.len() >= 2,
    ensures
        single_line(chain) == chain[0] + ": "@ + single_line(chain.skip(1)),
    decreases chain.len(),
{
    let rest = chain.skip(1);
    let init = chain.drop_last();
    if chain.len() == 2 {
        assert(init == seq![chain[0]]);
        assert(rest == seq![chain[1]]);
        assert(single_line(init) == chain[0]);
        assert(single_line(rest) == chain.last());
    } else {
        lemma_single_line_chain(init);
        assert(init.skip(1) == rest.drop_last());
        assert(init[0] == chain[0]);
        assert(rest.last() == chain.last());
        assert(single_line(rest) == single_line(rest.drop_last()) + ": "@ + rest.last());
        assert(chain[0] + ": "@ + single_line(rest.drop_last()) + ": "@ + chain.last() == chain[0]
            + ": "@ + (single_line(rest.drop_last()) + ": "@ + rest.last()));
    }
}

/// A report on one line of an error with a source is the display text of the
/// error, `": "`, and the chain of its source on one line.
pub proof fn lemma_single_line_with_source<E: Error>(report: Report<E>)
    requires
        !report.is_pretty(),
        report.error().cause() is Some,
    ensures
        report.rendering() == report.error().text() + ": "@ + single_line(
            report.error().cause()->0.texts(),
        ),
{
    let chain = chain_of(report.error());
    let cause = report.error().cause()->0;
    cause.lemma_links_start();
    lemma_single_line_chain(chain);
    assert(chain.skip(1) == cause.texts());
}

/// The prefixes hold no line feed.
pub proof fn lemma_line_prefix_single_line(format: Option<nat>, first: bool)
    ensures
        crate::text::is_single_line(line_prefix(format, first)),
{
    reveal_strlit(": ");
    reveal_strlit("    ");
    match format {
        Some(index) => {
            lemma_decimal(index);
        },
        None => {},
    }
}

/// Indenting keeps the lines apart: line for line, the output is the input
/// with its prefix, and an empty line stays empty.
pub proof fn lemma_indent_lines_split(
    lines: Seq<Seq<char>>,
    needs_indent: bool,
    first: bool,
    format: Option<nat>,
)
    requires
        lines.len() >= 1,
        forall|i: int| 0 <= i < lines.len() ==> crate::text::is_single_line(#[trigger] lines[i]),
    ensures
        split_lines(indent_lines(lines, needs_indent, first, format)).len() == lines.len(),
        split_lines(indent_lines(lines, needs_indent, first, format))[0] == indent_line(
            lines[0],
            needs_indent,
            first,
            format,
        ),
        forall|i: int|
            1 <= i < lines.len() ==> #[trigger] split_lines(
                indent_lines(lines, needs_indent, first, format),
            )[i] == indent_line(lines[i], true, false, format),
    decreases lines.len(),
{
    lemma_line_prefix_single_line(format, first);
    lemma_line_prefix_single_line(format, false);
    if lines.len() == 1 {
        crate::text::lemma_split_single_line(indent_line(lines[0], needs_indent, first, format));
    } else {
        let before = lines.drop_last();
        let last = indent_line(lines.last(), true, false, format);
        assert(crate::text::is_single_line(lines.last()));
        lemma_indent_lines_split(before, needs_indent, first, format);
        crate::text::lemma_split_append_line(
            indent_lines(before, needs_indent, first, format),
            last,
        );
        let out = split_lines(indent_lines(lines, needs_indent, first, format));
        let out_before = split_lines(indent_lines(before, needs_indent, first, format));
        assert(out == out_before.push(last));
        assert(out[0] == out_before[0]);
        assert forall|i: int| 1 <= i < lines.len() implies #[trigger] out[i] == indent_line(
            lines[i],
            true,
            false,
            format,
        ) by {
            if i < before.len() {
                assert(out[i] == out_before[i]);
                assert(before[i] == lines[i]);
            }
        }
    }
}

/// The text of a cause, indented, has the lines of the text, each with its
/// prefix: the first prefix on the first line, the prefix of a continuation
/// on each later line.
pub proof fn lemma_indented_lines(text: Seq<char>, format: Option<nat>, i: int)
    requires
        0 <= i < split_lines(text).len(),
    ensures
        split_lines(indented(text, true, true, format)).len() == split_lines(text).len(),
        split_lines(indented(text, true, true, format))[i] == indent_line(
            split_lines(text)[i],
            true,
            i == 0,
            format,
        ),
{
    crate::text::lemma_split_lines(text);
    lemma_indent_lines_split(split_lines(text), true, true, format);
}

/// An empty line inside a text comes out as an empty line: nothing is put
/// on it, no prefix and no blank.
pub proof fn lemma_blank_line_passes_through(text: Seq<char>, format: Option<nat>, i: int)
    requires
        0 <= i < split_lines(text).len(),
        split_lines(text)[i].len() == 0,
    ensures
        split_lines(indented(text, true, true, format)).len() == split_lines(text).len(),
        split_lines(indented(text, true, true, format))[i].len() == 0,
{
    lemma_indented_lines(text, format, i);
}

/// The numbered prefix of a first line ends in the number, a colon and a
/// blank, and the blanks in front of a continuation are as wide as it is:
/// six columns up to the index 9999, and one more for each further digit.
pub proof fn lemma_numbered_prefix_width(index: nat)
    ensures
        line_prefix(Some(index), true) == blanks((number_width(index) - decimal(index).len()) as nat)
            + decimal(index) + seq![':', ' '],
        line_prefix(Some(index), false) == blanks(line_prefix(Some(index), true).len()),
        index < 10000 ==> line_prefix(Some(index), true).len() == 6,
        index >= 10000 ==> line_prefix(Some(index), true).len() == decimal(index).len() + 2,
{
    reveal_strlit(": ");
    lemma_decimal(index);
    assert(": "@ == seq![':', ' ']);
    if index >= 1000 {
        lemma_decimal(index / 10);
        assert(blanks(0) + decimal(index) == decimal(index));
    }
}

/// In a numbered cause a line that is not empty comes out behind its prefix:
/// the first line of the text behind the number of the cause, right-aligned
/// in four columns, a colon and a blank; a later line behind blanks of that
/// width.
pub proof fn lemma_numbered_cause_lines(text: Seq<char>, index: nat, i: int)
    requires
        0 <= i < split_lines(text).len(),
        split_lines(text)[i].len() > 0,
    ensures
        split_lines(indented(text, true, true, Some(index))).len() == split_lines(text).len(),
        split_lines(indented(text, true, true, Some(index)))[i] == (if i == 0 {
            right_aligned(decimal(index), 4) + seq![':', ' ']
        } else {
            blanks(number_width(index) + 2)
        }) + split_lines(text)[i],
{
    lemma_indented_lines(text, Some(index), i);
    reveal_strlit(": ");
    assert(": "@ == seq![':', ' ']);
}

/// Without numbers every prefix is four blanks.
pub proof fn lemma_uniform_prefix(first: bool)
    ensures
        line_prefix(None, first) == blanks(4),
{
    reveal_strlit("    ");
    assert("    "@ == blanks(4));
}

/// Without numbers a line that is not empty comes out behind four blanks.
pub proof fn lemma_uniform_cause_lines(text: Seq<char>, i: int)
    requires
        0 <= i < split_lines(text).len(),
        split_lines(text)[i].len() > 0,
    ensures
        split_lines(indented(text, true, true, None)).len() == split_lines(text).len(),
        split_lines(indented(text, true, true, None))[i] == blanks(4) + split_lines(text)[i],
{
    lemma_indented_lines(text, None, i);
    lemma_uniform_prefix(i == 0);
}

/// The causes are written in the order of the chain and counted from zero:
/// what is written for the first `k + 1` causes is what is written for the
/// first `k`, a line feed, and cause `k` indented, under the number `k` where
/// the causes are numbered.
pub proof fn lemma_cause_numbering(causes: Seq<Seq<char>>, numbered: bool, k: int)
    requires
        0 <= k < causes.len(),
    ensures
        cause_blocks(causes.take(k + 1), numbered) == cause_blocks(causes.take(k), numbered)
            + seq!['\n'] + indented(
            causes[k],
            true,
            true,
            if numbered {
                Some(k as nat)
            } else {
                None
            },
        ),
        cause_blocks(causes.take(0), numbered) == Seq::<char>::empty(),
        causes.take(causes.len() as int) == causes,
{
    assert(causes.take(k + 1).drop_last() == causes.take(k));
}

/// A text whose first line is not empty and whose other lines are: indented
/// it is the first prefix and then the text.
proof fn lemma_indent_first_line_only(lines: Seq<Seq<char>>, format: Option<nat>)
    requires
        lines.len() >= 1,
        lines[0].len() > 0,
        forall|i: int| 1 <= i < lines.len() ==> (#[trigger] lines[i]).len() == 0,
    ensures
        indent_lines(lines, true, true, format) == line_prefix(format, true)
            + crate::text::join_lines(lines),
    decreases lines.len(),
{
    if lines.len() > 1 {
        let before = lines.drop_last();
        assert(before[0] == lines[0]);
        assert forall|i: int| 1 <= i < before.len() implies (#[trigger] before[i]).len() == 0 by {
            assert(before[i] == lines[i]);
        }
        lemma_indent_first_line_only(before, format);
        assert(lines.last() == lines[lines.len() - 1]);
        assert(line_prefix(format, true) + crate::text::join_lines(before) + seq!['\n']
            + lines.last() == line_prefix(format, true) + (crate::text::join_lines(before)
            + seq!['\n'] + lines.last()));
    }
}

/// A pretty report of an error whose source has no source of its own, where
/// the text of the source is one line that is not empty and no backtrace is
/// shown: the text of the error, the header `Caused by:` after an empty
/// line, and on the next line four blanks and the text of the source.
pub proof fn lemma_multi_line_single_cause<E: Error>(report: Report<E>)
    requires
        report.is_pretty(),
        report.shown_trace() is None,
        report.error().cause() is Some,
        report.error().cause()->0.cause() is None,
        split_lines(report.error().cause()->0.text())[0].len() > 0,
        forall|i: int|
            1 <= i < split_lines(report.error().cause()->0.text()).len() ==> (#[trigger] split_lines(
                report.error().cause()->0.text(),
            )[i]).len() == 0,
    ensures
        report.rendering() == report.error().text() + "\n\nCaused by:\n    "@
            + report.error().cause()->0.text(),
{
    let root = report.error().text();
    let cause = report.error().cause()->0.text();
    let chain = chain_of(report.error());
    let causes = chain.skip(1);
    assert(chain == seq![root, cause]);
    assert(causes == seq![cause]);
    assert(causes.drop_last() == Seq::<Seq<char>>::empty());
    crate::text::lemma_split_lines(cause);
    lemma_indent_first_line_only(split_lines(cause), None);
    assert(cause_blocks(causes, false) == seq!['\n'] + ("    "@ + cause)) by {
        assert(cause_blocks(causes.drop_last(), false) == Seq::<char>::empty());
        assert(Seq::<char>::empty() + seq!['\n'] + indented(cause, true, true, None) == seq!['\n'] + (
        "    "@ + cause));
    }
    reveal_strlit("\n\nCaused by:\n    ");
    reveal_strlit("\n\nCaused by:");
    reveal_strlit("    ");
    assert("\n\nCaused by:\n    "@ == "\n\nCaused by:"@ + seq!['\n'] + "    "@);
    assert(report.rendering() == root + "\n\nCaused by:"@ + (seq!['\n'] + ("    "@ + cause))
        + Seq::<char>::empty());
    assert(root + "\n\nCaused by:"@ + (seq!['\n'] + ("    "@ + cause)) + Seq::<char>::empty()
        == root + ("\n\nCaused by:"@ + seq!['\n'] + "    "@) + cause);
}

/// A pretty report of an error whose source has a source of its own: the
/// text of the error, the header `Caused by:` after an empty line, the
/// causes numbered from zero in the order of the chain, and the backtrace
/// section where one is shown.
pub proof fn lemma_multi_line_multiple_causes<E: Error>(report: Report<E>)
    requires
        report.is_pretty(),
        report.error().cause() is Some,
        report.error().cause()->0.cause() is Some,
    ensures
        report.rendering() == report.error().text() + "\n\nCaused by:"@ + cause_blocks(
            report.error().cause()->0.texts(),
            true,
        ) + trace_section(report.shown_trace()),
        report.error().cause()->0.texts().len() >= 2,
{
    let chain = chain_of(report.error());
    let cause = report.error().cause()->0;
    cause.lemma_links_start();
    cause.cause()->0.lemma_links_start();
    assert(chain.skip(1) == cause.texts());
}

/// A pretty report of an error without a source is the display text of that
/// error and nothing else.
pub proof fn lemma_multi_line_without_source<E: Error>(report: Report<E>)
    requires
        report.is_pretty(),
        report.error().cause() is None,
    ensures
        report.rendering() == report.error().text(),
{
}

} // verus!
