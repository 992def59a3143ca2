//! The diagnostic builder: collects a header, a file banner, annotated source
//! lines and a footer, and renders them as one block of text.

use crate::engine::text::{decimal, pad_right, push_decimal_left_aligned, push_repeated, repeated};
use vstd::prelude::*;
use vstd::string::*;

verus! {

/// Ends every coloured or bold span.
pub const ESCAPE: &'static str = "\u{1b}[0m";

pub const BOLD: &'static str = "\u{1b}[1m";

pub const RED: &'static str = "\u{1b}[31m";

pub const YELLOW: &'static str = "\u{1b}[33m";

pub const BLUE: &'static str = "\u{1b}[34m";

pub const CYAN: &'static str = "\u{1b}[36m";

/// The narrowest gutter a report is rendered with.
pub const MIN_GUTTER: u64 = 4;

/// How severe a diagnostic is.
#[derive(Clone, Copy, Debug, PartialEq, Eq)]
pub enum ErrorLevel {
    Help,
    Warning,
    Error,
}

impl ErrorLevel {
    /// The coloured tag of a diagnostic: the level's name and the
    /// diagnostic's identifier in square brackets.
    pub open spec fn label(self, id: Seq<char>) -> Seq<char> {
        match self {
            ErrorLevel::Help => BLUE@ + "Help ["@ + id + "]"@ + ESCAPE@,
            ErrorLevel::Warning => YELLOW@ + "Warning ["@ + id + "]"@ + ESCAPE@,
            ErrorLevel::Error => RED@ + "Error ["@ + id + "]"@ + ESCAPE@,
        }
    }

    pub fn to_str(&self, id: String) -> (text: String)
        ensures
            text@ == self.label(id@),
    {
        let mut text = String::new();
        match self {
            ErrorLevel::Help => {
                text.append(BLUE);
                text.append("Help [");
            },
            ErrorLevel::Warning => {
                text.append(YELLOW);
                text.append("Warning [");
            },
            ErrorLevel::Error => {
                text.append(RED);
                text.append("Error [");
            },
        }
        text.append(id.as_str());
        text.append("]");
        text.append(ESCAPE);
        text
    }
}

/// One annotated source line of a report.
#[derive(Debug)]
pub enum ErrorLine {
    /// A line shown for context only.
    EmptyLine { line_number: u64, line_string: String },
    /// A line followed, on the same row, by an arrow and a message.
    SuffixArrowError { line_number: u64, line_string: String, error_msg: String },
    /// A line with a caret on the row beneath it, under column `offset`
    /// (columns count from 1), followed by a message.
    InlineSingleArrowError {
        line_number: u64,
        offset: u64,
        line_string: String,
        error_msg: String,
    },
}

/// What an [`ErrorLine`] holds, as mathematical values.
pub enum ErrorLineView {
    EmptyLine { line_number: nat, line_string: Seq<char> },
    SuffixArrowError { line_number: nat, line_string: Seq<char>, error_msg: Seq<char> },
    InlineSingleArrowError {
        line_number: nat,
        offset: nat,
        line_string: Seq<char>,
        error_msg: Seq<char>,
    },
}

impl View for ErrorLine {
    type V = ErrorLineView;

    open spec fn view(&self) -> ErrorLineView {
        match *self {
            ErrorLine::EmptyLine { line_number, line_string } => ErrorLineView::EmptyLine {
                line_number: line_number as nat,
                line_string: line_string@,
            },
            ErrorLine::SuffixArrowError {
                line_number,
                line_string,
                error_msg,
            } => ErrorLineView::SuffixArrowError {
                line_number: line_number as nat,
                line_string: line_string@,
                error_msg: error_msg@,
            },
            ErrorLine::InlineSingleArrowError {
                line_number,
                offset,
                line_string,
                error_msg,
            } => ErrorLineView::InlineSingleArrowError {
                line_number: line_number as nat,
                offset: offset as nat,
                line_string: line_string@,
                error_msg: error_msg@,
            },
        }
    }
}

/// The gutter of a source line: the line number, left-aligned and padded
/// with spaces to `width` characters, then a bar and a tab.
pub open spec fn line_bar(line_number: nat, width: nat) -> Seq<char> {
    CYAN@ + pad_right(decimal(line_number), width, ' ') + "|\t"@ + ESCAPE@
}

/// The gutter of a row that belongs to no source line: `width` spaces in
/// place of the number.
pub open spec fn blank_bar(width: nat) -> Seq<char> {
    CYAN@ + repeated(' ', width) + "|\t"@ + ESCAPE@
}

/// The spaces that bring a caret under column `offset`; columns count from
/// 1, and column 0 is treated as column 1.
pub open spec fn caret_indent(offset: nat) -> nat {
    if offset == 0 {
        0
    } else {
        (offset - 1) as nat
    }
}

impl ErrorLineView {
    pub open spec fn line_number(self) -> nat {
        match self {
            ErrorLineView::EmptyLine { line_number, .. } => line_number,
            ErrorLineView::SuffixArrowError { line_number, .. } => line_number,
            ErrorLineView::InlineSingleArrowError { line_number, .. } => line_number,
        }
    }

    /// The rows this entry contributes to a report whose gutter is `width`
    /// characters wide; every row ends with a newline.
    pub open spec fn rendered(self, width: nat) -> Seq<char> {
        match self {
            ErrorLineView::EmptyLine { line_number, line_string } => line_bar(line_number, width)
                + line_string + "\n"@,
            ErrorLineView::SuffixArrowError { line_number, line_string, error_msg } => line_bar(
                line_number,
                width,
            ) + line_string + " "@ + YELLOW@ + "<--"@ + ESCAPE@ + error_msg + "\n"@,
            ErrorLineView::InlineSingleArrowError {
                line_number,
                offset,
                line_string,
                error_msg,
            } => line_bar(line_number, width) + line_string + "\n"@ + blank_bar(width) + repeated(
                ' ',
                caret_indent(offset),
            ) + "^ "@ + error_msg + "\n"@,
        }
    }
}

impl ErrorLine {
    pub fn line_number(&self) -> (n: u64)
        ensures
            n as nat == self@.line_number(),
    {
        match self {
            ErrorLine::EmptyLine { line_number, .. } => *line_number,
            ErrorLine::SuffixArrowError { line_number, .. } => *line_number,
            ErrorLine::InlineSingleArrowError { line_number, .. } => *line_number,
        }
    }

    pub fn to_str(&self, line_spacing: u64) -> (text: String)
        ensures
            text@ == self@.rendered(line_spacing as nat),
    {
        match self {
            ErrorLine::EmptyLine { line_number, line_string } => {
                let mut text = Self::get_line_bar(line_number, &line_spacing);
                text.append(line_string.as_str());
                text.append("\n");
                text
            },
            ErrorLine::SuffixArrowError { line_number, line_string, error_msg } => {
                let mut text = Self::get_line_bar(line_number, &line_spacing);
                text.append(line_string.as_str());
                text.append(" ");
                text.append(YELLOW);
                text.append("<--");
                text.append(ESCAPE);
                text.append(error_msg.as_str());
                text.append("\n");
                text
            },
            ErrorLine::InlineSingleArrowError { line_number, offset, line_string, error_msg } => {
                let mut text = Self::get_line_bar(line_number, &line_spacing);
                text.append(line_string.as_str());
                text.append("\n");
                text.append(CYAN);
                push_repeated(&mut text, ' ', line_spacing);
                text.append("|\t");
                text.append(ESCAPE);
                let indent: u64 = if *offset == 0 {
                    0
                } else {
                    *offset - 1
                };
                push_repeated(&mut text, ' ', indent);
                text.append("^ ");
                text.append(error_msg.as_str());
                text.append("\n");
                text
            },
        }
    }

    pub fn get_line_bar(line_number: &u64, line_spacing: &u64) -> (bar: String)
        ensures
            bar@ == line_bar(*line_number as nat, *line_spacing as nat),
    {
        let mut bar = String::from_str(CYAN);
        push_decimal_left_aligned(&mut bar, *line_number, *line_spacing);
        bar.append("|\t");
        bar.append(ESCAPE);
        bar
    }
}

/// The entries of a report, as mathematical values.
pub open spec fn lines_view(lines: Seq<ErrorLine>) -> Seq<ErrorLineView> {
    lines.map_values(|line: ErrorLine| line@)
}

/// How many entries at the front of `entries` have a line number smaller
/// than `line_number`.
pub open spec fn smaller_prefix(line_number: nat, entries: Seq<ErrorLineView>) -> nat
    decreases entries.len(),
{
    if entries.len() == 0 || line_number <= entries[0].line_number() {
        0
    } else {
        1 + smaller_prefix(line_number, entries.drop_first())
    }
}

/// `sorted` with `entry` put before the first entry whose line number is
/// not smaller than its own.
pub open spec fn insert_by_line(entry: ErrorLineView, sorted: Seq<ErrorLineView>) -> Seq<
    ErrorLineView,
> {
    sorted.insert(smaller_prefix(entry.line_number(), sorted) as int, entry)
}

/// The entries in ascending order of line number; entries of one line keep
/// the order in which they were added.
pub open spec fn sort_by_line(entries: Seq<ErrorLineView>) -> Seq<ErrorLineView>
    decreases entries.len(),
{
    if entries.len() == 0 {
        entries
    } else {
        insert_by_line(entries[0], sort_by_line(entries.drop_first()))
    }
}

/// The largest line number among the entries; 0 where there is none.
pub open spec fn max_line_number(entries: Seq<ErrorLineView>) -> nat
    decreases entries.len(),
{
    if entries.len() == 0 {
        0
    } else {
        let before = max_line_number(entries.drop_last());
        if entries.last().line_number() > before {
            entries.last().line_number()
        } else {
            before
        }
    }
}

/// The rows of the entries, in the order given.
pub open spec fn render_lines(entries: Seq<ErrorLineView>, width: nat) -> Seq<char>
    decreases entries.len(),
{
    if entries.len() == 0 {
        Seq::empty()
    } else {
        render_lines(entries.drop_last(), width) + entries.last().rendered(width)
    }
}

/// The header of a report. With a level it is the level's tag, a colon and
/// the message in bold, on a row of its own; without one it is the message
/// alone.
pub open spec fn header_text(level: Option<ErrorLevel>, id: Seq<char>, message: Seq<char>) -> Seq<
    char,
> {
    match level {
        Some(level) => level.label(id) + ": "@ + BOLD@ + message + ESCAPE@ + "\n"@,
        None => message,
    }
}

/// The footer of a report. With a level it is the level's tag, a colon and
/// the message, on a row of its own; without one it is the message alone.
pub open spec fn footer_text(level: Option<ErrorLevel>, id: Seq<char>, message: Seq<char>) -> Seq<
    char,
> {
    match level {
        Some(level) => level.label(id) + ": "@ + message + "\n"@,
        None => message,
    }
}

/// The row that names the file: an arrow that ends where the gutter's bar
/// stands, then the path.
pub open spec fn banner_text(path: Seq<char>, width: nat) -> Seq<char> {
    repeated(' ', (width - 1) as nat) + BLUE@ + "-->"@ + ESCAPE@ + " "@ + path + "\n"@
}

/// A text that may be absent; an absent one renders as nothing.
pub open spec fn optional_text(text: Option<Seq<char>>) -> Seq<char> {
    match text {
        Some(text) => text,
        None => Seq::empty(),
    }
}

/// Accumulates the parts of one diagnostic.
pub struct ErrorBuilder {
    header: Option<String>,
    footer: Option<String>,
    error_lines: Vec<ErrorLine>,
    id: Option<String>,
    file_path: Option<String>,
}

/// What an [`ErrorBuilder`] has accumulated, as mathematical values.
pub struct ErrorBuilderView {
    pub header: Option<Seq<char>>,
    pub footer: Option<Seq<char>>,
    pub error_lines: Seq<ErrorLineView>,
    pub id: Option<Seq<char>>,
    pub file_path: Option<Seq<char>>,
}

impl ErrorBuilderView {
    /// The width of the gutter shared by all rows: the largest line number
    /// among the entries, and at least [`MIN_GUTTER`].
    pub open spec fn gutter(self) -> nat {
        if max_line_number(self.error_lines) > MIN_GUTTER {
            max_line_number(self.error_lines)
        } else {
            MIN_GUTTER as nat
        }
    }

    /// The report: header, file banner, the entries in ascending order of
    /// line number, footer.
    pub open spec fn rendered(self) -> Seq<char> {
        optional_text(self.header) + (match self.file_path {
            Some(path) => banner_text(path, self.gutter()),
            None => Seq::empty(),
        }) + render_lines(sort_by_line(self.error_lines), self.gutter()) + optional_text(
            self.footer,
        )
    }

    /// The state a builder is left in by rendering: its entries are in
    /// ascending order of line number, and nothing else has changed.
    pub open spec fn built(self) -> ErrorBuilderView {
        ErrorBuilderView { error_lines: sort_by_line(self.error_lines), ..self }
    }
}

/// The view of a text that may be absent.
pub open spec fn optional_view(text: Option<String>) -> Option<Seq<char>> {
    match text {
        Some(text) => Some(text@),
        None => None,
    }
}

impl View for ErrorBuilder {
    type V = ErrorBuilderView;

    closed spec fn view(&self) -> ErrorBuilderView {
        ErrorBuilderView {
            header: optional_view(self.header),
            footer: optional_view(self.footer),
            error_lines: lines_view(self.error_lines@),
            id: optional_view(self.id),
            file_path: optional_view(self.file_path),
        }
    }
}

/// [`smaller_prefix`] is the one index with only smaller line numbers
/// before it and a line number that is not smaller at it.
pub proof fn lemma_smaller_prefix(line_number: nat, entries: Seq<ErrorLineView>, at: int)
    requires
        0 <= at <= entries.len(),
        forall|i: int| 0 <= i < at ==> (#[trigger] entries[i]).line_number() < line_number,
        at < entries.len() ==> line_number <= entries[at].line_number(),
    ensures
        smaller_prefix(line_number, entries) == at,
    decreases entries.len(),
{
    if at > 0 {
        let rest = entries.drop_first();
        assert(entries[0].line_number() < line_number);
        assert forall|i: int| 0 <= i < at - 1 implies (#[trigger] rest[i]).line_number()
            < line_number by {
            assert(rest[i] == entries[i + 1]);
        }
        lemma_smaller_prefix(line_number, rest, at - 1);
    }
}

/// The index at which an entry of line `line_number` goes among `lines`.
fn insertion_point(lines: &Vec<ErrorLine>, line_number: u64) -> (at: usize)
    ensures
        at <= lines.len(),
        forall|i: int| 0 <= i < at ==> (#[trigger] lines[i])@.line_number() < line_number,
        at < lines.len() ==> line_number <= lines[at as int]@.line_number(),
{
    let mut at: usize = 0;
    while at < lines.len() && lines[at].line_number() < line_number
        invariant
            at <= lines.len(),
            forall|i: int| 0 <= i < at ==> (#[trigger] lines[i])@.line_number() < line_number,
        decreases lines.len() - at,
    {
        at += 1;
    }
    at
}

/// Brings the entries into ascending order of line number, keeping the
/// order of entries of one line.
fn sort_lines(lines: &mut Vec<ErrorLine>)
    ensures
        lines_view(final(lines)@) == sort_by_line(lines_view(old(lines)@)),
{
    let mut pending: Vec<ErrorLine> = Vec::new();
    core::mem::swap(&mut pending, lines);
    let ghost all = lines_view(pending@);
    assert(all.skip(all.len() as int) =~= Seq::empty());
    assert(lines_view(lines@) =~= Seq::empty());
    assert(all.take(all.len() as int) =~= all);
    while pending.len() > 0
        invariant
            pending.len() <= all.len(),
            lines_view(pending@) == all.take(pending.len() as int),
            lines_view(lines@) == sort_by_line(all.skip(pending.len() as int)),
        decreases pending.len(),
    {
        let ghost before = lines_view(lines@);
        let ghost count = pending.len() as int;
        let entry = pending.pop().unwrap();
        let at = insertion_point(lines, entry.line_number());
        proof {
            assert(lines_view(pending@) =~= all.take(count - 1));
            assert(entry@ == all.take(count)[count - 1]);
            assert(entry@ == all[count - 1]);
            assert forall|i: int| 0 <= i < at implies (#[trigger] before[i]).line_number()
                < entry@.line_number() by {
                assert(before[i] == lines[i]@);
            }
            lemma_smaller_prefix(entry@.line_number(), before, at as int);
            let tail = all.skip(count - 1);
            assert(tail[0] == entry@);
            assert(tail.drop_first() =~= all.skip(count));
        }
        lines.insert(at, entry);
        assert(lines_view(lines@) =~= before.insert(at as int, entry@));
    }
}

impl ErrorBuilder {
    pub fn new() -> (builder: Self)
        ensures
            builder@ == (ErrorBuilderView {
                header: None,
                footer: None,
                error_lines: Seq::empty(),
                id: None,
                file_path: None,
            }),
    {
        let builder = Self {
            header: None,
            footer: None,
            error_lines: Vec::new(),
            id: None,
            file_path: None,
        };
        assert(lines_view(builder.error_lines@) =~= Seq::empty());
        builder
    }

    pub fn set_header(self, error_level: Option<ErrorLevel>, id: String, message: String) -> (builder:
        Self)
        ensures
            builder@ == (ErrorBuilderView {
                header: Some(header_text(error_level, id@, message@)),
                ..self@
            }),
    {
        let mut builder = self;
        builder.header = match error_level {
            Some(level) => {
                let mut text = level.to_str(id);
                text.append(": ");
                text.append(BOLD);
                text.append(message.as_str());
                text.append(ESCAPE);
                text.append("\n");
                Some(text)
            },
            None => Some(message),
        };
        builder
    }

    pub fn set_footer(self, error_type: Option<ErrorLevel>, id: String, message: &str) -> (builder:
        Self)
        ensures
            builder@ == (ErrorBuilderView {
                footer: Some(footer_text(error_type, id@, message@)),
                ..self@
            }),
    {
        let mut builder = self;
        builder.footer = match error_type {
            Some(level) => {
                let mut text = level.to_str(id);
                text.append(": ");
                text.append(message);
                text.append("\n");
                Some(text)
            },
            None => Some(String::from_str(message)),
        };
        builder
    }

    pub fn set_id(self, id: &str) -> (builder: Self)
        ensures
            builder@ == (ErrorBuilderView { id: Some(id@), ..self@ }),
    {
        let mut builder = self;
        builder.id = Some(String::from_str(id));
        builder
    }

    pub fn set_file_path(self, file_path: String) -> (builder: Self)
        ensures
            builder@ == (ErrorBuilderView { file_path: Some(file_path@), ..self@ }),
    {
        let mut builder = self;
        builder.file_path = Some(file_path);
        builder
    }

    pub fn add_error_line(self, error_line: ErrorLine) -> (builder: Self)
        ensures
            builder@ == (ErrorBuilderView {
                error_lines: self@.error_lines.push(error_line@),
                ..self@
            }),
    {
        let mut builder = self;
        builder.error_lines.push(error_line);
        assert(lines_view(builder.error_lines@) =~= lines_view(self.error_lines@).push(
            error_line@,
        ));
        builder
    }

    /// The widest line number among the entries, and at least
    /// [`MIN_GUTTER`].
    fn line_spacing(&self) -> (width: u64)
        ensures
            width as nat == self@.gutter(),
    {
        let mut width: u64 = 0;
        let mut i: usize = 0;
        while i < self.error_lines.len()
            invariant
                i <= self.error_lines.len(),
                width as nat == max_line_number(lines_view(self.error_lines@).take(i as int)),
            decreases self.error_lines.len() - i,
        {
            let line_number = self.error_lines[i].line_number();
            proof {
                let upto = lines_view(self.error_lines@).take(i + 1);
                assert(upto.drop_last() =~= lines_view(self.error_lines@).take(i as int));
                assert(upto.last() == self.error_lines[i as int]@);
            }
            if line_number > width {
                width = line_number;
            }
            i += 1;
        }
        assert(lines_view(self.error_lines@).take(i as int) =~= lines_view(self.error_lines@));
        if width > MIN_GUTTER {
            width
        } else {
            MIN_GUTTER
        }
    }

    /// Renders the report and leaves the entries in the order in which they
    /// were rendered.
    pub fn build(&mut self) -> (report: String)
        ensures
            report@ == old(self)@.rendered(),
            final(self)@ == old(self)@.built(),
    {
        let mut report = String::new();
        match &self.header {
            Some(header) => report.append(header.as_str()),
            None => {},
        }
        let line_spacing = self.line_spacing();
        match &self.file_path {
            Some(path) => {
                push_repeated(&mut report, ' ', line_spacing - 1);
                report.append(BLUE);
                report.append("-->");
                report.append(ESCAPE);
                report.append(" ");
                report.append(path.as_str());
                report.append("\n");
            },
            None => {},
        }
        let ghost start = report@;
        sort_lines(&mut self.error_lines);
        let ghost sorted = lines_view(self.error_lines@);
        let mut i: usize = 0;
        while i < self.error_lines.len()
            invariant
                i <= self.error_lines.len(),
                sorted == lines_view(self.error_lines@),
                report@ == start + render_lines(sorted.take(i as int), line_spacing as nat),
            decreases self.error_lines.len() - i,
        {
            let rows = self.error_lines[i].to_str(line_spacing);
            proof {
                let upto = sorted.take(i + 1);
                assert(upto.drop_last() =~= sorted.take(i as int));
                assert(upto.last() == self.error_lines[i as int]@);
            }
            report.append(rows.as_str());
            i += 1;
        }
        assert(sorted.take(i as int) =~= sorted);
        match &self.footer {
            Some(footer) => report.append(footer.as_str()),
            None => {},
        }
        report
    }
}

} // verus!
