//! The running context of a scan: which file is read, the text of the
//! current line as far as it has been read, and the current position.

use vstd::prelude::*;
use vstd::string::*;

verus! {

/// The context of a scan at one moment. Faults keep a copy of it, so that a
/// report can be rendered without the source.
#[derive(Debug, PartialEq, Eq)]
pub struct MushContext {
    file: String,
    line: String,
    line_number: u64,
    offset: u64,
}

/// What a [`MushContext`] holds, as mathematical values.
pub struct MushContextView {
    pub file: Seq<char>,
    pub line: Seq<char>,
    pub line_number: nat,
    pub offset: nat,
}

impl View for MushContext {
    type V = MushContextView;

    closed spec fn view(&self) -> MushContextView {
        MushContextView {
            file: self.file@,
            line: self.line@,
            line_number: self.line_number as nat,
            offset: self.offset as nat,
        }
    }
}

impl Clone for MushContext {
    fn clone(&self) -> (copy: Self)
        ensures
            copy@ == self@,
    {
        MushContext {
            file: self.file.clone(),
            line: self.line.clone(),
            line_number: self.line_number,
            offset: self.offset,
        }
    }
}

impl MushContext {
    pub fn new(file: String, line: String, line_number: u64, offset: u64) -> (ctx: Self)
        ensures
            ctx@ == (MushContextView {
                file: file@,
                line: line@,
                line_number: line_number as nat,
                offset: offset as nat,
            }),
    {
        Self { file, line, line_number, offset }
    }

    pub fn line(&self) -> (line: &str)
        ensures
            line@ == self@.line,
    {
        self.line.as_str()
    }

    pub fn set_line(&mut self, line: String)
        ensures
            final(self)@ == (MushContextView { line: line@, ..old(self)@ }),
    {
        self.line = line;
    }

    pub fn line_number(&self) -> (line_number: u64)
        ensures
            line_number as nat == self@.line_number,
    {
        self.line_number
    }

    pub fn set_line_number(&mut self, line_number: u64)
        ensures
            final(self)@ == (MushContextView { line_number: line_number as nat, ..old(self)@ }),
    {
        self.line_number = line_number;
    }

    pub fn increment_line_number(&mut self)
        requires
            old(self)@.line_number < u64::MAX,
        ensures
            final(self)@ == (MushContextView {
                line_number: old(self)@.line_number + 1,
                ..old(self)@
            }),
    {
        self.line_number += 1;
    }

    pub fn offset(&self) -> (offset: u64)
        ensures
            offset as nat == self@.offset,
    {
        self.offset
    }

    pub fn set_offset(&mut self, offset: u64)
        ensures
            final(self)@ == (MushContextView { offset: offset as nat, ..old(self)@ }),
    {
        self.offset = offset;
    }

    pub fn increment_offset(&mut self)
        requires
            old(self)@.offset < u64::MAX,
        ensures
            final(self)@ == (MushContextView { offset: old(self)@.offset + 1, ..old(self)@ }),
    {
        self.offset += 1
    }

    pub fn file(&self) -> (file: &String)
        ensures
            file@ == self@.file,
    {
        &self.file
    }

    /// Appends one character to the text of the current line.
    pub fn push_to_line(&mut self, c: char)
        ensures
            final(self)@ == (MushContextView { line: old(self)@.line.push(c), ..old(self)@ }),
    {
        self.line.push(c);
    }
}

} // verus!
