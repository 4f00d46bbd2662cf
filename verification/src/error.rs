//! What can be wrong with a report.

use vstd::prelude::*;

verus! {

/// Why a text is not the decimal notation of an unsigned integer.
#[derive(Clone, Copy, Debug, PartialEq, Eq, Structural)]
pub enum IntegerError {
    /// Nothing is there.
    Empty,
    /// A character is no digit.
    InvalidDigit,
    /// The number is too large for its type.
    TooLarge,
}

/// Why a report was not read.
#[derive(Clone, Copy, Debug, PartialEq, Eq, Structural)]
pub enum ScrapeError {
    /// The document holds no table.
    NoTable,
    /// The first table holds no span.
    NoSpan,
    /// The first table shows no date.
    NoDate,
    /// The day of the date is no small number.
    Day(IntegerError),
    /// The month of the date is not the name of one.
    Month,
    /// No span tells the time of day.
    TimeOfDay,
    /// No sentence tells when the meeting starts.
    StartTime,
    /// No sentence tells when the meeting ends.
    EndTime,
    /// No sentence tells who presides.
    Chair,
    /// The document holds more questions than can be numbered.
    TooLong,
    /// The stored number of the last meeting is no number.
    MeetingId(IntegerError),
}

impl IntegerError {
    /// The message for this error.
    pub open spec fn text(self) -> Seq<char> {
        match self {
            IntegerError::Empty => "cannot parse integer from empty string"@,
            IntegerError::InvalidDigit => "invalid digit found in string"@,
            IntegerError::TooLarge => "number too large to fit in target type"@,
        }
    }

    /// The message for this error.
    pub fn message(&self) -> (r: &'static str)
        ensures
            r@ == self.text(),
    {
        match self {
            IntegerError::Empty => "cannot parse integer from empty string",
            IntegerError::InvalidDigit => "invalid digit found in string",
            IntegerError::TooLarge => "number too large to fit in target type",
        }
    }
}

impl ScrapeError {
    /// The message for this error.
    pub open spec fn text(self) -> Seq<char> {
        match self {
            ScrapeError::NoTable => "No table found"@,
            ScrapeError::NoSpan => "No span in first table"@,
            ScrapeError::NoDate => "Could not find date in document"@,
            ScrapeError::Day(error) => error.text(),
            ScrapeError::Month => "Invalid month name"@,
            ScrapeError::TimeOfDay => "Could not extract time of day from the document"@,
            ScrapeError::StartTime => "Could not extract start time from the document"@,
            ScrapeError::EndTime => "Could not extract end time from the document"@,
            ScrapeError::Chair => "Could not extract chair"@,
            ScrapeError::TooLong => "Too many questions in the document"@,
            ScrapeError::MeetingId(error) => error.text(),
        }
    }

    /// The message for this error.
    pub fn message(&self) -> (r: &'static str)
        ensures
            r@ == self.text(),
    {
        match self {
            ScrapeError::NoTable => "No table found",
            ScrapeError::NoSpan => "No span in first table",
            ScrapeError::NoDate => "Could not find date in document",
            ScrapeError::Day(error) => error.message(),
            ScrapeError::Month => "Invalid month name",
            ScrapeError::TimeOfDay => "Could not extract time of day from the document",
            ScrapeError::StartTime => "Could not extract start time from the document",
            ScrapeError::EndTime => "Could not extract end time from the document",
            ScrapeError::Chair => "Could not extract chair",
            ScrapeError::TooLong => "Too many questions in the document",
            ScrapeError::MeetingId(error) => error.message(),
        }
    }
}

/// What the errors say.
pub proof fn law_errors_say(error: IntegerError)
    ensures
        IntegerError::Empty.text() == "cannot parse integer from empty string"@,
        IntegerError::InvalidDigit.text() == "invalid digit found in string"@,
        IntegerError::TooLarge.text() == "number too large to fit in target type"@,
        ScrapeError::Day(error).text() == error.text(),
        ScrapeError::MeetingId(error).text() == error.text(),
        ScrapeError::NoTable.text() == "No table found"@,
        ScrapeError::NoSpan.text() == "No span in first table"@,
        ScrapeError::NoDate.text() == "Could not find date in document"@,
        ScrapeError::Month.text() == "Invalid month name"@,
        ScrapeError::TimeOfDay.text() == "Could not extract time of day from the document"@,
        ScrapeError::StartTime.text() == "Could not extract start time from the document"@,
        ScrapeError::EndTime.text() == "Could not extract end time from the document"@,
        ScrapeError::Chair.text() == "Could not extract chair"@,
{
}

} // verus!
