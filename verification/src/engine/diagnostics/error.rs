//! The faults that a scan records, and the report of each.

use crate::engine::diagnostics::output::{
    header_text, ErrorBuilder, ErrorBuilderView, ErrorLevel, ErrorLine, ErrorLineView,
};
use crate::engine::lexer::context::{MushContext, MushContextView};
use crate::engine::text::{decimal, pad_left, push_decimal_zero_padded};
use vstd::prelude::*;
use vstd::string::*;

verus! {

/// A fault found while scanning a mush script.
#[derive(Debug, PartialEq, Eq)]
pub enum MushError {
    /// A character that starts no token.
    UnknownCharacter { unknown_character: char, ctx: MushContext },
    /// A string literal whose line, or whose source, ends before its
    /// closing quote. `partial` is the text read after the opening quote.
    IncompleteString { partial: String, ctx: MushContext },
    /// Bytes that are no well-formed UTF-8. This fault ends the scan.
    InvalidEncoding { ctx: MushContext },
}

/// What a [`MushError`] holds, as mathematical values.
pub enum MushErrorView {
    UnknownCharacter { unknown_character: char, ctx: MushContextView },
    IncompleteString { partial: Seq<char>, ctx: MushContextView },
    InvalidEncoding { ctx: MushContextView },
}

impl View for MushError {
    type V = MushErrorView;

    open spec fn view(&self) -> MushErrorView {
        match *self {
            MushError::UnknownCharacter {
                unknown_character,
                ctx,
            } => MushErrorView::UnknownCharacter { unknown_character, ctx: ctx@ },
            MushError::IncompleteString { partial, ctx } => MushErrorView::IncompleteString {
                partial: partial@,
                ctx: ctx@,
            },
            MushError::InvalidEncoding { ctx } => MushErrorView::InvalidEncoding { ctx: ctx@ },
        }
    }
}

/// The faults of a scan, as mathematical values.
pub open spec fn errors_view(errors: Seq<MushError>) -> Seq<MushErrorView> {
    errors.map_values(|error: MushError| error@)
}

/// The identifier with number `id`: the letter E and the number in decimal,
/// with leading zeros up to four digits.
pub open spec fn id_text(id: nat) -> Seq<char> {
    seq!['E'] + pad_left(decimal(id), 4, '0')
}

/// The column after `offset`, as far as columns go.
pub open spec fn column_after(offset: nat) -> nat {
    if offset < u64::MAX {
        offset + 1
    } else {
        offset
    }
}

impl MushErrorView {
    /// The number by which the kind of fault is known. It depends on the kind
    /// alone, not on when or where the fault was found.
    pub open spec fn number(self) -> nat {
        match self {
            MushErrorView::UnknownCharacter { .. } => 1,
            MushErrorView::IncompleteString { .. } => 2,
            MushErrorView::InvalidEncoding { .. } => 3,
        }
    }

    pub open spec fn ctx(self) -> MushContextView {
        match self {
            MushErrorView::UnknownCharacter { ctx, .. } => ctx,
            MushErrorView::IncompleteString { ctx, .. } => ctx,
            MushErrorView::InvalidEncoding { ctx } => ctx,
        }
    }

    /// The message of the report's header.
    pub open spec fn message(self) -> Seq<char> {
        match self {
            MushErrorView::UnknownCharacter { unknown_character, .. } => "Unknown character '"@
                + seq![unknown_character] + "'."@,
            MushErrorView::IncompleteString { .. } => "Unterminated string."@,
            MushErrorView::InvalidEncoding { .. } => "Invalid UTF-8 encoding."@,
        }
    }

    /// The message beside the caret.
    pub open spec fn hint(self) -> Seq<char> {
        match self {
            MushErrorView::UnknownCharacter { .. } => "Unknown character."@,
            MushErrorView::IncompleteString { .. } => "The string is not closed."@,
            MushErrorView::InvalidEncoding { .. } => "No character can be read here."@,
        }
    }

    /// The column under which the caret stands: that of the last character
    /// read, but for bytes that cannot be decoded, which stand one column
    /// further.
    pub open spec fn caret_column(self) -> nat {
        match self {
            MushErrorView::InvalidEncoding { ctx } => column_after(ctx.offset),
            _ => self.ctx().offset,
        }
    }

    /// The parts of the report: a header at level `Error` with the fault's
    /// identifier and message, the file, and the line as far as it was read,
    /// with a caret.
    pub open spec fn diagnostic(self) -> ErrorBuilderView {
        ErrorBuilderView {
            header: Some(
                header_text(Some(ErrorLevel::Error), id_text(self.number()), self.message()),
            ),
            footer: None,
            error_lines: seq![
                ErrorLineView::InlineSingleArrowError {
                    line_number: self.ctx().line_number,
                    offset: self.caret_column(),
                    line_string: self.ctx().line,
                    error_msg: self.hint(),
                },
            ],
            id: None,
            file_path: Some(self.ctx().file),
        }
    }
}

impl MushError {
    /// The context in which the fault was found.
    pub fn ctx(&self) -> (ctx: &MushContext)
        ensures
            ctx@ == self@.ctx(),
    {
        match self {
            MushError::UnknownCharacter { ctx, .. } => ctx,
            MushError::IncompleteString { ctx, .. } => ctx,
            MushError::InvalidEncoding { ctx } => ctx,
        }
    }

    pub fn report(&self) -> (text: String)
        ensures
            text@ == self@.diagnostic().rendered(),
    {
        let ctx = self.ctx();
        let mut message = String::new();
        let mut hint = String::new();
        let mut column = ctx.offset();
        match self {
            MushError::UnknownCharacter { unknown_character, .. } => {
                message.append("Unknown character '");
                message.push(*unknown_character);
                message.append("'.");
                hint.append("Unknown character.");
            },
            MushError::IncompleteString { .. } => {
                message.append("Unterminated string.");
                hint.append("The string is not closed.");
            },
            MushError::InvalidEncoding { .. } => {
                message.append("Invalid UTF-8 encoding.");
                hint.append("No character can be read here.");
                if column < u64::MAX {
                    column = column + 1;
                }
            },
        }
        assert(message@ =~= self@.message());
        assert(hint@ =~= self@.hint());
        assert(column as nat == self@.caret_column());
        let mut builder = ErrorBuilder::new().set_header(
            Some(ErrorLevel::Error),
            self.id(),
            message,
        ).set_file_path(ctx.file().clone()).add_error_line(
            ErrorLine::InlineSingleArrowError {
                line_number: ctx.line_number(),
                offset: column,
                line_string: String::from_str(ctx.line()),
                error_msg: hint,
            },
        );
        assert(builder@.error_lines =~= self@.diagnostic().error_lines);
        assert(builder@ == self@.diagnostic());
        builder.build()
    }

    pub fn id(&self) -> (id: String)
        ensures
            id@ == id_text(self@.number()),
    {
        match self {
            MushError::UnknownCharacter { .. } => Self::id_string(1),
            MushError::IncompleteString { .. } => Self::id_string(2),
            MushError::InvalidEncoding { .. } => Self::id_string(3),
        }
    }

    pub fn id_string(id: usize) -> (text: String)
        ensures
            text@ == id_text(id as nat),
    {
        let mut text = String::new();
        text.push('E');
        push_decimal_zero_padded(&mut text, id as u64, 4);
        assert(text@ =~= id_text(id as nat));
        text
    }
}

} // verus!
