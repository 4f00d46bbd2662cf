//! What a report tells of its meeting.

use crate::cleaning::{cleans_all, cleans_as};
use crate::commission::{commission_of, parse_commission_type};
use crate::document::{
    all_elements, document_of, parsable, Document, DocumentModel, Element, ElementModel,
};
use crate::error::ScrapeError;
use crate::number::{
    decimal, digits_value, integer_value, is_digit, lemma_padded_value, lemma_value_within,
    parse_integer, to_padded_decimal, zero_padded,
};
use crate::pattern::{
    all_rewritten, find_first, first_match, replace_all, FoundModel, CHAIR, CHAIR_TITLES, DATE, TIME,
};
use crate::records::{
    question_unquoted, MeetingModel, MeetingOutput, OutputModel, ScrapedMeeting,
};
use crate::sections::{closed_questions, extract_questions, numbered_questions, questions_of};
use crate::text::{
    contains_any, holds_any, holds_text, join, joined, law_pieces_hold_no_separator,
    law_replacing_is_splitting_and_joining, law_split_then_join, lowercase, pieces, replace,
    replaced, same_text, split, split_whitespace, stands_at, texts, trim, trimmed, words,
};
use vstd::prelude::*;

verus! {

/// The texts of all elements, one behind the other.
pub open spec fn all_texts(elements: Seq<ElementModel>) -> Seq<Seq<char>>
    decreases elements.len(),
{
    if elements.len() == 0 {
        Seq::empty()
    } else {
        all_texts(elements.drop_last()) + elements.last().texts
    }
}

/// The number of a month, in two digits, by its Dutch name in lower case.
pub open spec fn month_number(name: Seq<char>) -> Option<Seq<char>> {
    if name == "januari"@ {
        Some("01"@)
    } else if name == "februari"@ {
        Some("02"@)
    } else if name == "maart"@ {
        Some("03"@)
    } else if name == "april"@ {
        Some("04"@)
    } else if name == "mei"@ {
        Some("05"@)
    } else if name == "juni"@ {
        Some("06"@)
    } else if name == "juli"@ {
        Some("07"@)
    } else if name == "augustus"@ {
        Some("08"@)
    } else if name == "september"@ {
        Some("09"@)
    } else if name == "oktober"@ {
        Some("10"@)
    } else if name == "november"@ {
        Some("11"@)
    } else if name == "december"@ {
        Some("12"@)
    } else {
        None
    }
}

/// The date of a day, a month by its name in lower case and a year: the year, the number of
/// the month and the day in at least two digits.
pub open spec fn date_of(day: Seq<char>, month: Seq<char>, year: Seq<char>) -> Result<
    Seq<char>,
    ScrapeError,
> {
    match integer_value(day, 255) {
        Err(error) => Err(ScrapeError::Day(error)),
        Ok(number) => match month_number(month) {
            None => Err(ScrapeError::Month),
            Some(month) => Ok(year + "-"@ + month + "-"@ + zero_padded(decimal(number), 2)),
        },
    }
}

/// The date of a meeting, which the spans of the first table tell.
pub open spec fn meeting_date(document: DocumentModel) -> Result<Seq<char>, ScrapeError> {
    match document.first_table_spans {
        None => Err(ScrapeError::NoTable),
        Some(spans) => match first_match(DATE@, joined(all_texts(spans), " "@)) {
            None => Err(ScrapeError::NoDate),
            Some(found) => date_of(
                found.group(1)->Some_0,
                lowercase(found.group(2)->Some_0),
                found.group(3)->Some_0,
            ),
        },
    }
}

/// The time of day, by its Dutch name in lower case.
pub open spec fn time_of_day(name: Seq<char>) -> Option<Seq<char>> {
    if name == "namiddag"@ {
        Some("afternoon"@)
    } else if name == "voormiddag"@ {
        Some("morning"@)
    } else if name == "avond"@ {
        Some("evening"@)
    } else {
        None
    }
}

/// The time of day that the first of the spans to tell one tells.
pub open spec fn first_time_of_day(spans: Seq<ElementModel>) -> Option<Seq<char>>
    decreases spans.len(),
{
    if spans.len() == 0 {
        None
    } else {
        match time_of_day(lowercase(trimmed(spans[0].text()))) {
            Some(time) => Some(time),
            None => first_time_of_day(spans.drop_first()),
        }
    }
}

/// The text of an element on one line.
pub open spec fn line_of(element: ElementModel) -> Seq<char> {
    replaced(element.text(), "\n"@, " "@)
}

/// A time that was found, as it is kept.
pub open spec fn time_text(found: FoundModel) -> Seq<char> {
    found.group(1)->Some_0 + "h"@ + found.group(2)->Some_0
}

/// The time that the last of the elements tells which holds one of the keywords and a time.
pub open spec fn last_time(elements: Seq<ElementModel>, keywords: Seq<Seq<char>>) -> Option<
    Seq<char>,
>
    decreases elements.len(),
{
    if elements.len() == 0 {
        None
    } else {
        let before = last_time(elements.drop_last(), keywords);
        let line = line_of(elements.last());
        if holds_any(line, keywords) {
            match first_match(TIME@, line) {
                Some(found) => Some(time_text(found)),
                None => before,
            }
        } else {
            before
        }
    }
}

/// The words that announce when a meeting starts.
pub open spec fn start_keywords() -> Seq<Seq<char>> {
    seq![
        "De behandeling van de"@,
        "De behandeling van de vragen en de interpellatie vangt aan om"@,
        "De behandeling van de vragen en interpellaties vangt aan"@,
        "De behandeling van de vragen en van de interpellatie vangt aan om"@,
        "De openbare commissievergadering wordt geopend"@,
        "De vergadering wordt geopend"@,
        "De behandeling van de vragen vangt aan"@,
        "De gedachtewisseling vangt aan"@,
        "De behandeling van de interpellatie vangt"@,
    ]
}

/// The words that announce when a meeting ends.
pub open spec fn end_keywords() -> Seq<Seq<char>> {
    seq![
        "De openbare commissievergadering wordt gesloten"@,
        "De gedachtewisseling met de ministers eindigt"@,
        "De behandeling van de vragen eindigt"@,
        "De gedachtewisseling eindigt"@,
        "De vergadering wordt gesloten"@,
        "De behandeling van de interpellatie eindigt"@,
        "De behandeling van de interpellaties eindigt"@,
        "De behandeling van de vragen en interpellaties eindigt om"@,
    ]
}

/// The name in a part of the words that tell who presides, without titles.
pub open spec fn untitled(part: Seq<char>) -> Seq<char> {
    trimmed(all_rewritten(CHAIR_TITLES@, trimmed(part), ""@))
}

/// The names in the parts of the words that tell who presides.
pub open spec fn names_in(parts: Seq<Seq<char>>) -> Seq<Seq<char>>
    decreases parts.len(),
{
    if parts.len() == 0 {
        Seq::empty()
    } else {
        let before = names_in(parts.drop_last());
        let name = untitled(parts.last());
        if name.len() > 0 {
            before.push(name)
        } else {
            before
        }
    }
}

/// The parts, joined by `en`, of the words that tell who presides.
pub open spec fn chair_parts(chunk: Seq<char>) -> Seq<Seq<char>> {
    pieces(trimmed(replaced(chunk, "\u{a0}"@, " "@)), " en "@)
}

/// Who presides according to a line, if it tells.
pub open spec fn chair_told(line: Seq<char>) -> Option<Seq<char>> {
    match first_match(CHAIR@, line) {
        Some(found) => {
            let names = names_in(chair_parts(found.group(1)->Some_0));
            if names.len() > 0 {
                Some(joined(names, ", "@))
            } else {
                None
            }
        },
        None => None,
    }
}

/// Who presides according to the first of the elements that tells.
pub open spec fn first_chair(elements: Seq<ElementModel>) -> Option<Seq<char>>
    decreases elements.len(),
{
    if elements.len() == 0 {
        None
    } else {
        match chair_told(line_of(elements[0])) {
            Some(chair) => Some(chair),
            None => first_chair(elements.drop_first()),
        }
    }
}

/// The name of the commission, which the first span of the first table tells.
pub open spec fn meeting_commission(document: DocumentModel) -> Result<Seq<char>, ScrapeError> {
    match document.first_table_spans {
        None => Err(ScrapeError::NoTable),
        Some(spans) => if spans.len() == 0 {
            Err(ScrapeError::NoSpan)
        } else {
            Ok(commission_of(joined(words(spans[0].text()), " "@)).label())
        },
    }
}

/// What is there, or else the error.
pub open spec fn found_or(text: Option<Seq<char>>, error: ScrapeError) -> Result<
    Seq<char>,
    ScrapeError,
> {
    match text {
        Some(text) => Ok(text),
        None => Err(error),
    }
}

/// The start of a meeting.
pub open spec fn meeting_start(document: DocumentModel) -> Result<Seq<char>, ScrapeError> {
    found_or(last_time(document.spans_and_paragraphs, start_keywords()), ScrapeError::StartTime)
}

/// The end of a meeting.
pub open spec fn meeting_end(document: DocumentModel) -> Result<Seq<char>, ScrapeError> {
    found_or(last_time(document.spans_and_paragraphs, end_keywords()), ScrapeError::EndTime)
}

/// The time of day of a meeting.
pub open spec fn meeting_time_of_day(document: DocumentModel) -> Result<Seq<char>, ScrapeError> {
    found_or(first_time_of_day(document.spans), ScrapeError::TimeOfDay)
}

/// Who presides over a meeting.
pub open spec fn meeting_chair(document: DocumentModel) -> Result<Seq<char>, ScrapeError> {
    found_or(first_chair(document.spans_and_paragraphs), ScrapeError::Chair)
}

/// What a report tells of its meeting. Where several things are wrong, the first of date,
/// time of day, start, end, chair and commission decides.
pub open spec fn meeting_of(document: DocumentModel, session_id: u32, meeting_id: u32) -> Result<
    MeetingModel,
    ScrapeError,
> {
    match (
        meeting_date(document),
        meeting_time_of_day(document),
        meeting_start(document),
        meeting_end(document),
        meeting_chair(document),
        meeting_commission(document),
    ) {
        (Err(error), _, _, _, _, _) => Err(error),
        (_, Err(error), _, _, _, _) => Err(error),
        (_, _, Err(error), _, _, _) => Err(error),
        (_, _, _, Err(error), _, _) => Err(error),
        (_, _, _, _, Err(error), _) => Err(error),
        (_, _, _, _, _, Err(error)) => Err(error),
        (
            Ok(date),
            Ok(time_of_day),
            Ok(start_time),
            Ok(end_time),
            Ok(chair),
            Ok(commission),
        ) => Ok(
            MeetingModel {
                session_id,
                meeting_id,
                date,
                time_of_day,
                start_time,
                end_time,
                commission,
                chair,
            },
        ),
    }
}

/// What is kept of a report: the meeting and its questions, where the meeting can be read.
pub open spec fn output_of(
    document: DocumentModel,
    session_id: u32,
    meeting_id: u32,
    cleaned: spec_fn(Seq<char>) -> Seq<char>,
) -> Result<OutputModel, ScrapeError> {
    match meeting_of(document, session_id, meeting_id) {
        Err(error) => Err(error),
        Ok(meeting) => match numbered_questions(
            document.headings_and_paragraphs,
            session_id,
            meeting_id,
            meeting.date,
            cleaned,
        ) {
            Err(error) => Err(error),
            Ok(questions) => Ok(OutputModel { meeting, questions }),
        },
    }
}

/// The content of a text or the error in its place.
pub open spec fn text_or_error(r: Result<String, ScrapeError>) -> Result<Seq<char>, ScrapeError> {
    match r {
        Ok(text) => Ok(text@),
        Err(error) => Err(error),
    }
}

/// The model of a meeting or the error in its place.
pub open spec fn meeting_or_error(r: Result<ScrapedMeeting, ScrapeError>) -> Result<
    MeetingModel,
    ScrapeError,
> {
    match r {
        Ok(meeting) => Ok(meeting@),
        Err(error) => Err(error),
    }
}

/// The model of what is kept of a report, or the error in its place.
pub open spec fn output_or_error(r: Result<MeetingOutput, ScrapeError>) -> Result<
    OutputModel,
    ScrapeError,
> {
    match r {
        Ok(output) => Ok(output@),
        Err(error) => Err(error),
    }
}

/// The number of a month, in two digits, by its Dutch name in lower case.
pub fn number_of_month(name: &str) -> (r: Option<&'static str>)
    ensures
        match r {
            Some(number) => month_number(name@) == Some(number@),
            None => month_number(name@) is None,
        },
{
    if same_text(name, "januari") {
        Some("01")
    } else if same_text(name, "februari") {
        Some("02")
    } else if same_text(name, "maart") {
        Some("03")
    } else if same_text(name, "april") {
        Some("04")
    } else if same_text(name, "mei") {
        Some("05")
    } else if same_text(name, "juni") {
        Some("06")
    } else if same_text(name, "juli") {
        Some("07")
    } else if same_text(name, "augustus") {
        Some("08")
    } else if same_text(name, "september") {
        Some("09")
    } else if same_text(name, "oktober") {
        Some("10")
    } else if same_text(name, "november") {
        Some("11")
    } else if same_text(name, "december") {
        Some("12")
    } else {
        None
    }
}

/// The date of a day, a month by its name and a year.
pub fn format_date(day: &str, month: &str, year: &str) -> (r: Result<String, ScrapeError>)
    ensures
        text_or_error(r) == date_of(day@, lowercase(month@), year@),
{
    let number = match parse_integer(day, 255) {
        Ok(number) => number,
        Err(error) => {
            return Err(ScrapeError::Day(error));
        },
    };
    let lower = month.to_lowercase();
    match number_of_month(lower.as_str()) {
        Some(month_digits) => {
            let mut date = year.to_owned();
            date.append("-");
            date.append(month_digits);
            date.append("-");
            date.append(to_padded_decimal(number, 2).as_str());
            Ok(date)
        },
        None => Err(ScrapeError::Month),
    }
}

/// The texts of all elements, one behind the other.
fn collect_texts(elements: &Vec<Element>) -> (r: Vec<String>)
    ensures
        texts(r@) == all_texts(all_elements(elements@)),
{
    let ghost all = all_elements(elements@);
    let mut r: Vec<String> = Vec::new();
    let mut i: usize = 0;
    assert(texts(r@) == all_texts(all.take(0)));
    while i < elements.len()
        invariant
            all == all_elements(elements@),
            i <= elements.len(),
            texts(r@) == all_texts(all.take(i as int)),
        decreases elements.len() - i,
    {
        let ghost before = texts(r@);
        let ghost own = elements@[i as int]@.texts;
        let mut j: usize = 0;
        assert(before + own.take(0) == before);
        while j < elements[i].texts.len()
            invariant
                i < elements.len(),
                own == texts(elements@[i as int].texts@),
                j <= elements@[i as int].texts@.len(),
                texts(r@) == before + own.take(j as int),
            decreases elements@[i as int].texts@.len() - j,
        {
            let ghost sofar = texts(r@);
            r.push(elements[i].texts[j].clone());
            assert(texts(r@) == sofar.push(own[j as int]));
            assert(own.take(j + 1) == own.take(j as int).push(own[j as int]));
            j += 1;
        }
        assert(own.take(j as int) == own);
        assert(all.take(i + 1).drop_last() == all.take(i as int));
        assert(all.take(i + 1).last() == elements@[i as int]@);
        i += 1;
    }
    assert(all.take(i as int) == all);
    r
}

/// The date of a meeting, which the spans of the first table tell.
pub fn extract_date_from_document(document: &Document) -> (r: Result<String, ScrapeError>)
    ensures
        text_or_error(r) == meeting_date(document@),
{
    match &document.first_table_spans {
        None => Err(ScrapeError::NoTable),
        Some(spans) => {
            let text = join(&collect_texts(spans), " ");
            match find_first(DATE, text.as_str()) {
                None => Err(ScrapeError::NoDate),
                Some(found) => {
                    assert(found@.group(1) is Some);
                    assert(found@.group(2) is Some);
                    assert(found@.group(3) is Some);
                    match (found.group(1), found.group(2), found.group(3)) {
                        (Some(day), Some(month), Some(year)) => format_date(
                            day.as_str(),
                            month.as_str(),
                            year.as_str(),
                        ),
                        _ => Err(ScrapeError::NoDate),
                    }
                },
            }
        },
    }
}

/// The time of day, by its Dutch name in lower case.
pub fn translate_time_of_day(name: &str) -> (r: Option<&'static str>)
    ensures
        match r {
            Some(time) => time_of_day(name@) == Some(time@),
            None => time_of_day(name@) is None,
        },
{
    if same_text(name, "namiddag") {
        Some("afternoon")
    } else if same_text(name, "voormiddag") {
        Some("morning")
    } else if same_text(name, "avond") {
        Some("evening")
    } else {
        None
    }
}

/// The time of day of a meeting.
pub fn extract_time_of_day_from_document(document: &Document) -> (r: Result<String, ScrapeError>)
    ensures
        text_or_error(r) == meeting_time_of_day(document@),
{
    let ghost all = document@.spans;
    let mut i: usize = 0;
    assert(all.skip(0) == all);
    while i < document.spans.len()
        invariant
            all == all_elements(document.spans@),
            i <= document.spans@.len(),
            first_time_of_day(all) == first_time_of_day(all.skip(i as int)),
        decreases document.spans@.len() - i,
    {
        let text = document.spans[i].text();
        let lower = trim(text.as_str()).to_lowercase();
        assert(all.skip(i as int)[0] == document.spans@[i as int]@);
        assert(all.skip(i as int).drop_first() == all.skip(i + 1));
        if let Some(time) = translate_time_of_day(lower.as_str()) {
            return Ok(time.to_owned());
        }
        i += 1;
    }
    assert(all.skip(i as int).len() == 0);
    Err(ScrapeError::TimeOfDay)
}

/// A time that was found, as it is kept.
pub fn format_time(hour: &str, minute: &str) -> (r: String)
    ensures
        r@ == hour@ + "h"@ + minute@,
{
    let mut time = hour.to_owned();
    time.append("h");
    time.append(minute);
    time
}

/// The time that the last of the spans and paragraphs tells which holds one of the keywords
/// and a time.
pub fn extract_time_from_document(document: &Document, keywords: &[&str]) -> (r: Option<String>)
    ensures
        match r {
            Some(time) => last_time(
                document@.spans_and_paragraphs,
                keywords@.map_values(|k: &str| k@),
            ) == Some(time@),
            None => last_time(
                document@.spans_and_paragraphs,
                keywords@.map_values(|k: &str| k@),
            ) is None,
        },
{
    let nodes = &document.spans_and_paragraphs;
    let ghost all = document@.spans_and_paragraphs;
    let ghost kws = keywords@.map_values(|k: &str| k@);
    let mut time: Option<String> = None;
    let mut i: usize = 0;
    proof {
        reveal_strlit("\n");
    }
    while i < nodes.len()
        invariant
            "\n"@.len() > 0,
            all == all_elements(nodes@),
            kws == keywords@.map_values(|k: &str| k@),
            i <= nodes@.len(),
            match time {
                Some(t) => last_time(all.take(i as int), kws) == Some(t@),
                None => last_time(all.take(i as int), kws) is None,
            },
        decreases nodes@.len() - i,
    {
        let line = replace(nodes[i].text().as_str(), "\n", " ");
        proof {
            assert(all.take(i + 1).drop_last() == all.take(i as int));
            assert(all.take(i + 1).last() == nodes@[i as int]@);
            assert(keywords@.map_values(|p: &str| p@) =~= kws);
        }
        if contains_any(line.as_str(), keywords) {
            if let Some(found) = find_first(TIME, line.as_str()) {
                assert(found@.group(1) is Some);
                assert(found@.group(2) is Some);
                if let (Some(hour), Some(minute)) = (found.group(1), found.group(2)) {
                    time = Some(format_time(hour.as_str(), minute.as_str()));
                }
            }
        }
        i += 1;
    }
    assert(all.take(i as int) == all);
    time
}

/// The start of a meeting.
pub fn extract_start_time_from_document(document: &Document) -> (r: Result<String, ScrapeError>)
    ensures
        text_or_error(r) == meeting_start(document@),
{
    let keywords = [
        "De behandeling van de",
        "De behandeling van de vragen en de interpellatie vangt aan om",
        "De behandeling van de vragen en interpellaties vangt aan",
        "De behandeling van de vragen en van de interpellatie vangt aan om",
        "De openbare commissievergadering wordt geopend",
        "De vergadering wordt geopend",
        "De behandeling van de vragen vangt aan",
        "De gedachtewisseling vangt aan",
        "De behandeling van de interpellatie vangt",
    ];
    assert(keywords@.map_values(|k: &str| k@) =~= start_keywords());
    match extract_time_from_document(document, keywords.as_slice()) {
        Some(time) => Ok(time),
        None => Err(ScrapeError::StartTime),
    }
}

/// The end of a meeting.
pub fn extract_end_time_from_document(document: &Document) -> (r: Result<String, ScrapeError>)
    ensures
        text_or_error(r) == meeting_end(document@),
{
    let keywords = [
        "De openbare commissievergadering wordt gesloten",
        "De gedachtewisseling met de ministers eindigt",
        "De behandeling van de vragen eindigt",
        "De gedachtewisseling eindigt",
        "De vergadering wordt gesloten",
        "De behandeling van de interpellatie eindigt",
        "De behandeling van de interpellaties eindigt",
        "De behandeling van de vragen en interpellaties eindigt om",
    ];
    assert(keywords@.map_values(|k: &str| k@) =~= end_keywords());
    match extract_time_from_document(document, keywords.as_slice()) {
        Some(time) => Ok(time),
        None => Err(ScrapeError::EndTime),
    }
}

/// The names in the words that tell who presides.
pub fn chair_names(chunk: &str) -> (r: Vec<String>)
    ensures
        texts(r@) == names_in(chair_parts(chunk@)),
{
    proof {
        reveal_strlit("\u{a0}");
        reveal_strlit(" en ");
        reveal_strlit("");
    }
    let spaced = replace(chunk, "\u{a0}", " ");
    let parts = split(trim(spaced.as_str()), " en ");
    let ghost all = texts(parts@);
    let mut names: Vec<String> = Vec::new();
    let mut i: usize = 0;
    assert(texts(names@) == names_in(all.take(0)));
    while i < parts.len()
        invariant
            ""@.len() == 0,
            all == texts(parts@),
            i <= parts@.len(),
            texts(names@) == names_in(all.take(i as int)),
        decreases parts@.len() - i,
    {
        let ghost before = texts(names@);
        proof {
            assert(all.take(i + 1).drop_last() == all.take(i as int));
            assert(all.take(i + 1).last() == parts@[i as int]@);
        }
        let bare = replace_all(CHAIR_TITLES, trim(parts[i].as_str()), "");
        let name = trim(bare.as_str()).to_owned();
        if !name.as_str().is_empty() {
            names.push(name);
            assert(texts(names@) == before.push(name@));
        }
        i += 1;
    }
    assert(all.take(i as int) == all);
    names
}

/// Who presides over a meeting.
pub fn extract_chair_from_document(document: &Document) -> (r: Result<String, ScrapeError>)
    ensures
        text_or_error(r) == meeting_chair(document@),
{
    let nodes = &document.spans_and_paragraphs;
    let ghost all = document@.spans_and_paragraphs;
    let mut i: usize = 0;
    proof {
        reveal_strlit("\n");
        assert(all.skip(0) == all);
    }
    while i < nodes.len()
        invariant
            "\n"@.len() > 0,
            all == document@.spans_and_paragraphs,
            all == all_elements(nodes@),
            i <= nodes@.len(),
            first_chair(all) == first_chair(all.skip(i as int)),
        decreases nodes@.len() - i,
    {
        let line = replace(nodes[i].text().as_str(), "\n", " ");
        proof {
            assert(all.skip(i as int)[0] == nodes@[i as int]@);
            assert(all.skip(i as int).drop_first() == all.skip(i + 1));
        }
        if let Some(found) = find_first(CHAIR, line.as_str()) {
            assert(found@.group(1) is Some);
            if let Some(chunk) = found.group(1) {
                let names = chair_names(chunk.as_str());
                if names.len() > 0 {
                    assert(texts(names@).len() > 0);
                    return Ok(join(&names, ", "));
                }
                assert(texts(names@).len() == 0);
            }
        }
        i += 1;
    }
    assert(all.skip(i as int).len() == 0);
    Err(ScrapeError::Chair)
}

/// The name of the commission, which the first span of the first table tells.
pub fn extract_commission_from_document(document: &Document) -> (r: Result<String, ScrapeError>)
    ensures
        text_or_error(r) == meeting_commission(document@),
{
    match &document.first_table_spans {
        None => Err(ScrapeError::NoTable),
        Some(spans) => {
            if spans.len() == 0 {
                return Err(ScrapeError::NoSpan);
            }
            assert(all_elements(spans@)[0] == spans@[0]@);
            let raw = join(&split_whitespace(spans[0].text().as_str()), " ");
            Ok(parse_commission_type(raw.as_str()).name())
        },
    }
}

/// What a report tells of its meeting.
pub fn extract_meeting(document: &Document, session_id: u32, meeting_id: u32) -> (r: Result<
    ScrapedMeeting,
    ScrapeError,
>)
    ensures
        meeting_or_error(r) == meeting_of(document@, session_id, meeting_id),
{
    let date = extract_date_from_document(document)?;
    let time_of_day = extract_time_of_day_from_document(document)?;
    let start_time = extract_start_time_from_document(document)?;
    let end_time = extract_end_time_from_document(document)?;
    let chair = extract_chair_from_document(document)?;
    let commission = extract_commission_from_document(document)?;
    Ok(
        ScrapedMeeting {
            session_id,
            meeting_id,
            date,
            time_of_day,
            start_time,
            end_time,
            commission,
            chair,
        },
    )
}

/// What is kept of a report, whose texts `clean_text` cleans.
pub fn scrape_document<F: Fn(&str) -> String>(
    document: &Document,
    session_id: u32,
    meeting_id: u32,
    clean_text: &F,
) -> (r: Result<MeetingOutput, ScrapeError>)
    requires
        cleans_all(*clean_text),
    ensures
        meeting_of(document@, session_id, meeting_id) matches Err(error) ==> r == Err::<
            MeetingOutput,
            ScrapeError,
        >(error),
        r matches Err(error) ==> error == ScrapeError::TooLong || meeting_of(
            document@,
            session_id,
            meeting_id,
        ) == Err::<MeetingModel, ScrapeError>(error),
        r matches Ok(output) ==> meeting_of(document@, session_id, meeting_id) == Ok::<
            MeetingModel,
            ScrapeError,
        >(output@.meeting),
        meeting_of(document@, session_id, meeting_id) is Ok
            && document@.headings_and_paragraphs.len() <= i32::MAX ==> r is Ok,
        r matches Ok(output) ==> forall|i: int|
            0 <= i < output@.questions.len() ==> question_unquoted(
                #[trigger] output@.questions[i],
            ),
        forall|f: spec_fn(Seq<char>) -> Seq<char>| #[trigger]
            cleans_as(*clean_text, f) ==> output_or_error(r) == output_of(
                document@,
                session_id,
                meeting_id,
                f,
            ),
{
    let meeting = extract_meeting(document, session_id, meeting_id)?;
    let questions = extract_questions(
        document,
        session_id,
        meeting_id,
        meeting.date.as_str(),
        clean_text,
    )?;
    Ok(MeetingOutput { meeting, questions })
}

/// What is kept of a report in HTML, whose texts `clean_text` cleans.
pub fn scrape_meeting<F: Fn(&str) -> String>(
    content: &str,
    session_id: u32,
    meeting_id: u32,
    clean_text: &F,
) -> (r: Result<MeetingOutput, ScrapeError>)
    requires
        cleans_all(*clean_text),
        parsable(content@),
    ensures
        meeting_of(document_of(content@), session_id, meeting_id) matches Err(error) ==> r == Err::<
            MeetingOutput,
            ScrapeError,
        >(error),
        r matches Err(error) ==> error == ScrapeError::TooLong || meeting_of(
            document_of(content@),
            session_id,
            meeting_id,
        ) == Err::<MeetingModel, ScrapeError>(error),
        r matches Ok(output) ==> meeting_of(document_of(content@), session_id, meeting_id) == Ok::<
            MeetingModel,
            ScrapeError,
        >(output@.meeting),
        meeting_of(document_of(content@), session_id, meeting_id) is Ok
            && document_of(content@).headings_and_paragraphs.len() <= i32::MAX ==> r is Ok,
        r matches Ok(output) ==> forall|i: int|
            0 <= i < output@.questions.len() ==> question_unquoted(
                #[trigger] output@.questions[i],
            ),
        forall|f: spec_fn(Seq<char>) -> Seq<char>| #[trigger]
            cleans_as(*clean_text, f) ==> output_or_error(r) == output_of(
                document_of(content@),
                session_id,
                meeting_id,
                f,
            ),
{
    let document = Document::parse(content);
    scrape_document(&document, session_id, meeting_id, clean_text)
}

/// Every question of a report has the session, the meeting and the date of its meeting.
pub proof fn law_questions_belong_to_meeting(
    document: DocumentModel,
    session_id: u32,
    meeting_id: u32,
    cleaned: spec_fn(Seq<char>) -> Seq<char>,
    i: int,
)
    requires
        output_of(document, session_id, meeting_id, cleaned) is Ok,
        0 <= i < output_of(document, session_id, meeting_id, cleaned)->Ok_0.questions.len(),
    ensures
        ({
            let output = output_of(document, session_id, meeting_id, cleaned)->Ok_0;
            &&& output.meeting.session_id == session_id
            &&& output.meeting.meeting_id == meeting_id
            &&& output.questions[i].session_id == output.meeting.session_id
            &&& output.questions[i].meeting_id == output.meeting.meeting_id
            &&& output.questions[i].date == output.meeting.date
            &&& output.questions[i].question_id == i
        }),
{
}

proof fn lemma_names_not_empty(parts: Seq<Seq<char>>)
    ensures
        forall|i: int| 0 <= i < names_in(parts).len() ==> (#[trigger] names_in(parts)[i]).len() > 0,
    decreases parts.len(),
{
    if parts.len() > 0 {
        let before = names_in(parts.drop_last());
        lemma_names_not_empty(parts.drop_last());
        assert forall|i: int| 0 <= i < names_in(parts).len() implies (#[trigger] names_in(
            parts,
        )[i]).len() > 0 by {
            if i < before.len() {
                assert(names_in(parts)[i] == before[i]);
            }
        }
    }
}

/// Who presides is never an empty text.
pub proof fn law_chair_is_named(elements: Seq<ElementModel>)
    ensures
        first_chair(elements) matches Some(chair) ==> chair.len() > 0,
    decreases elements.len(),
{
    if elements.len() > 0 {
        law_chair_is_named(elements.drop_first());
        match first_match(CHAIR@, line_of(elements[0])) {
            Some(found) => {
                let parts = chair_parts(found.group(1)->Some_0);
                lemma_names_not_empty(parts);
                if names_in(parts).len() > 0 {
                    assert(names_in(parts).last().len() > 0);
                }
            },
            None => {},
        }
    }
}

/// The time that is kept is the one that the last fitting sentence tells: sentences before it
/// do not count, nor do those after it that hold no keyword or no time.
pub proof fn law_last_time_wins(
    before: Seq<ElementModel>,
    sentence: ElementModel,
    after: Seq<ElementModel>,
    keywords: Seq<Seq<char>>,
)
    requires
        holds_any(line_of(sentence), keywords),
        first_match(TIME@, line_of(sentence)) is Some,
        forall|i: int|
            0 <= i < after.len() ==> !holds_any(line_of(#[trigger] after[i]), keywords)
                || first_match(TIME@, line_of(after[i])) is None,
    ensures
        last_time(before.push(sentence) + after, keywords) == Some(
            time_text(first_match(TIME@, line_of(sentence))->Some_0),
        ),
    decreases after.len(),
{
    let all = before.push(sentence) + after;
    if after.len() == 0 {
        assert(all == before.push(sentence));
        assert(all.drop_last() == before);
    } else {
        assert(all.drop_last() == before.push(sentence) + after.drop_last());
        assert(all.last() == after.last());
        assert(after.last() == after[after.len() - 1]);
        law_last_time_wins(before, sentence, after.drop_last(), keywords);
    }
}

/// A date of a two-digit day is the year, the number of the month in two digits and the day in
/// two digits, with a dash between each two.
pub proof fn law_date_is_uniform(day: Seq<char>, month: Seq<char>, year: Seq<char>)
    requires
        date_of(day, month, year) is Ok,
        integer_value(day, 255)->Ok_0 < 100,
    ensures
        ({
            let date = date_of(day, month, year)->Ok_0;
            let at = year.len() as int;
            &&& date.len() == at + 6
            &&& date.take(at) == year
            &&& date[at] == '-' && date[at + 3] == '-'
            &&& is_digit(date[at + 1]) && is_digit(date[at + 2])
            &&& is_digit(date[at + 4]) && is_digit(date[at + 5])
        }),
{
    reveal_strlit("-");
    reveal_strlit("01");
    reveal_strlit("02");
    reveal_strlit("03");
    reveal_strlit("04");
    reveal_strlit("05");
    reveal_strlit("06");
    reveal_strlit("07");
    reveal_strlit("08");
    reveal_strlit("09");
    reveal_strlit("10");
    reveal_strlit("11");
    reveal_strlit("12");
    reveal_with_fuel(decimal, 2);
    let date = date_of(day, month, year)->Ok_0;
    assert(date.take(year.len() as int) =~= year);
}

/// A sentence announces the start of a meeting where it holds one of these phrases.
pub proof fn law_phrases_announce_the_start(line: Seq<char>)
    ensures
        holds_any(line, start_keywords()) <==> (holds_text(line, "De behandeling van de"@)
            || holds_text(line, "De behandeling van de vragen en de interpellatie vangt aan om"@)
            || holds_text(line, "De behandeling van de vragen en interpellaties vangt aan"@)
            || holds_text(line, "De behandeling van de vragen en van de interpellatie vangt aan om"@)
            || holds_text(line, "De openbare commissievergadering wordt geopend"@)
            || holds_text(line, "De vergadering wordt geopend"@)
            || holds_text(line, "De behandeling van de vragen vangt aan"@)
            || holds_text(line, "De gedachtewisseling vangt aan"@)
            || holds_text(line, "De behandeling van de interpellatie vangt"@)),
{
    assert(start_keywords()[0] == "De behandeling van de"@);
    assert(start_keywords()[1] == "De behandeling van de vragen en de interpellatie vangt aan om"@);
    assert(start_keywords()[2] == "De behandeling van de vragen en interpellaties vangt aan"@);
    assert(start_keywords()[3] == "De behandeling van de vragen en van de interpellatie vangt aan om"@);
    assert(start_keywords()[4] == "De openbare commissievergadering wordt geopend"@);
    assert(start_keywords()[5] == "De vergadering wordt geopend"@);
    assert(start_keywords()[6] == "De behandeling van de vragen vangt aan"@);
    assert(start_keywords()[7] == "De gedachtewisseling vangt aan"@);
    assert(start_keywords()[8] == "De behandeling van de interpellatie vangt"@);
    if holds_any(line, start_keywords()) {
        let k = choose|k: int|
            0 <= k < start_keywords().len() && holds_text(line, #[trigger] start_keywords()[k]);
        assert(k == 0 || k == 1 || k == 2 || k == 3 || k == 4 || k == 5 || k == 6 || k == 7 || k == 8);
    }
}

/// The last sentence that holds a phrase which announces the start, and a time, tells the start of
/// a meeting: its hour and its minute with an `h` between them.
pub proof fn law_last_announcement_tells_the_start(
    document: DocumentModel,
    before: Seq<ElementModel>,
    sentence: ElementModel,
    after: Seq<ElementModel>,
)
    requires
        document.spans_and_paragraphs == before.push(sentence) + after,
        holds_text(line_of(sentence), "De behandeling van de"@)
            || holds_text(line_of(sentence), "De behandeling van de vragen en de interpellatie vangt aan om"@)
            || holds_text(line_of(sentence), "De behandeling van de vragen en interpellaties vangt aan"@)
            || holds_text(line_of(sentence), "De behandeling van de vragen en van de interpellatie vangt aan om"@)
            || holds_text(line_of(sentence), "De openbare commissievergadering wordt geopend"@)
            || holds_text(line_of(sentence), "De vergadering wordt geopend"@)
            || holds_text(line_of(sentence), "De behandeling van de vragen vangt aan"@)
            || holds_text(line_of(sentence), "De gedachtewisseling vangt aan"@)
            || holds_text(line_of(sentence), "De behandeling van de interpellatie vangt"@),
        first_match(TIME@, line_of(sentence)) is Some,
        forall|i: int|
            0 <= i < after.len() ==> first_match(TIME@, line_of(#[trigger] after[i])) is None || (!holds_text(line_of(after[i]), "De behandeling van de"@)
                && !holds_text(line_of(after[i]), "De behandeling van de vragen en de interpellatie vangt aan om"@)
                && !holds_text(line_of(after[i]), "De behandeling van de vragen en interpellaties vangt aan"@)
                && !holds_text(line_of(after[i]), "De behandeling van de vragen en van de interpellatie vangt aan om"@)
                && !holds_text(line_of(after[i]), "De openbare commissievergadering wordt geopend"@)
                && !holds_text(line_of(after[i]), "De vergadering wordt geopend"@)
                && !holds_text(line_of(after[i]), "De behandeling van de vragen vangt aan"@)
                && !holds_text(line_of(after[i]), "De gedachtewisseling vangt aan"@)
                && !holds_text(line_of(after[i]), "De behandeling van de interpellatie vangt"@)),
    ensures
        meeting_start(document) == Ok::<Seq<char>, ScrapeError>(
            first_match(TIME@, line_of(sentence))->Some_0.group(1)->Some_0 + seq!['h'] + first_match(
                TIME@,
                line_of(sentence),
            )->Some_0.group(2)->Some_0,
        ),
{
    reveal_strlit("h");
    assert("h"@ == seq!['h']);
    law_phrases_announce_the_start(line_of(sentence));
    assert forall|i: int| 0 <= i < after.len() implies !holds_any(
        line_of(#[trigger] after[i]),
        start_keywords(),
    ) || first_match(TIME@, line_of(after[i])) is None by {
        law_phrases_announce_the_start(line_of(after[i]));
    }
    law_last_time_wins(before, sentence, after, start_keywords());
}

/// A sentence that holds no phrase which announces the start, or no time, never changes the start
/// of a meeting.
pub proof fn law_other_sentences_do_not_change_the_start(
    document: DocumentModel,
    other: DocumentModel,
    before: Seq<ElementModel>,
    sentence: ElementModel,
    after: Seq<ElementModel>,
)
    requires
        document.spans_and_paragraphs == before + after,
        other.spans_and_paragraphs == before.push(sentence) + after,
        first_match(TIME@, line_of(sentence)) is None || (!holds_text(line_of(sentence), "De behandeling van de"@)
            && !holds_text(line_of(sentence), "De behandeling van de vragen en de interpellatie vangt aan om"@)
            && !holds_text(line_of(sentence), "De behandeling van de vragen en interpellaties vangt aan"@)
            && !holds_text(line_of(sentence), "De behandeling van de vragen en van de interpellatie vangt aan om"@)
            && !holds_text(line_of(sentence), "De openbare commissievergadering wordt geopend"@)
            && !holds_text(line_of(sentence), "De vergadering wordt geopend"@)
            && !holds_text(line_of(sentence), "De behandeling van de vragen vangt aan"@)
            && !holds_text(line_of(sentence), "De gedachtewisseling vangt aan"@)
            && !holds_text(line_of(sentence), "De behandeling van de interpellatie vangt"@)),
    ensures
        meeting_start(other) == meeting_start(document),
        before.len() + after.len() == 0 ==> meeting_start(document) == Err::<
            Seq<char>,
            ScrapeError,
        >(ScrapeError::StartTime),
{
    law_phrases_announce_the_start(line_of(sentence));
    lemma_last_time_without(before, sentence, after, start_keywords());
}

/// A sentence announces the end of a meeting where it holds one of these phrases.
pub proof fn law_phrases_announce_the_end(line: Seq<char>)
    ensures
        holds_any(line, end_keywords()) <==> (holds_text(line, "De openbare commissievergadering wordt gesloten"@)
            || holds_text(line, "De gedachtewisseling met de ministers eindigt"@)
            || holds_text(line, "De behandeling van de vragen eindigt"@)
            || holds_text(line, "De gedachtewisseling eindigt"@)
            || holds_text(line, "De vergadering wordt gesloten"@)
            || holds_text(line, "De behandeling van de interpellatie eindigt"@)
            || holds_text(line, "De behandeling van de interpellaties eindigt"@)
            || holds_text(line, "De behandeling van de vragen en interpellaties eindigt om"@)),
{
    assert(end_keywords()[0] == "De openbare commissievergadering wordt gesloten"@);
    assert(end_keywords()[1] == "De gedachtewisseling met de ministers eindigt"@);
    assert(end_keywords()[2] == "De behandeling van de vragen eindigt"@);
    assert(end_keywords()[3] == "De gedachtewisseling eindigt"@);
    assert(end_keywords()[4] == "De vergadering wordt gesloten"@);
    assert(end_keywords()[5] == "De behandeling van de interpellatie eindigt"@);
    assert(end_keywords()[6] == "De behandeling van de interpellaties eindigt"@);
    assert(end_keywords()[7] == "De behandeling van de vragen en interpellaties eindigt om"@);
    if holds_any(line, end_keywords()) {
        let k = choose|k: int|
            0 <= k < end_keywords().len() && holds_text(line, #[trigger] end_keywords()[k]);
        assert(k == 0 || k == 1 || k == 2 || k == 3 || k == 4 || k == 5 || k == 6 || k == 7);
    }
}

/// The last sentence that holds a phrase which announces the end, and a time, tells the end of
/// a meeting: its hour and its minute with an `h` between them.
pub proof fn law_last_announcement_tells_the_end(
    document: DocumentModel,
    before: Seq<ElementModel>,
    sentence: ElementModel,
    after: Seq<ElementModel>,
)
    requires
        document.spans_and_paragraphs == before.push(sentence) + after,
        holds_text(line_of(sentence), "De openbare commissievergadering wordt gesloten"@)
            || holds_text(line_of(sentence), "De gedachtewisseling met de ministers eindigt"@)
            || holds_text(line_of(sentence), "De behandeling van de vragen eindigt"@)
            || holds_text(line_of(sentence), "De gedachtewisseling eindigt"@)
            || holds_text(line_of(sentence), "De vergadering wordt gesloten"@)
            || holds_text(line_of(sentence), "De behandeling van de interpellatie eindigt"@)
            || holds_text(line_of(sentence), "De behandeling van de interpellaties eindigt"@)
            || holds_text(line_of(sentence), "De behandeling van de vragen en interpellaties eindigt om"@),
        first_match(TIME@, line_of(sentence)) is Some,
        forall|i: int|
            0 <= i < after.len() ==> first_match(TIME@, line_of(#[trigger] after[i])) is None || (!holds_text(line_of(after[i]), "De openbare commissievergadering wordt gesloten"@)
                && !holds_text(line_of(after[i]), "De gedachtewisseling met de ministers eindigt"@)
                && !holds_text(line_of(after[i]), "De behandeling van de vragen eindigt"@)
                && !holds_text(line_of(after[i]), "De gedachtewisseling eindigt"@)
                && !holds_text(line_of(after[i]), "De vergadering wordt gesloten"@)
                && !holds_text(line_of(after[i]), "De behandeling van de interpellatie eindigt"@)
                && !holds_text(line_of(after[i]), "De behandeling van de interpellaties eindigt"@)
                && !holds_text(line_of(after[i]), "De behandeling van de vragen en interpellaties eindigt om"@)),
    ensures
        meeting_end(document) == Ok::<Seq<char>, ScrapeError>(
            first_match(TIME@, line_of(sentence))->Some_0.group(1)->Some_0 + seq!['h'] + first_match(
                TIME@,
                line_of(sentence),
            )->Some_0.group(2)->Some_0,
        ),
{
    reveal_strlit("h");
    assert("h"@ == seq!['h']);
    law_phrases_announce_the_end(line_of(sentence));
    assert forall|i: int| 0 <= i < after.len() implies !holds_any(
        line_of(#[trigger] after[i]),
        end_keywords(),
    ) || first_match(TIME@, line_of(after[i])) is None by {
        law_phrases_announce_the_end(line_of(after[i]));
    }
    law_last_time_wins(before, sentence, after, end_keywords());
}

/// A sentence that holds no phrase which announces the end, or no time, never changes the end
/// of a meeting.
pub proof fn law_other_sentences_do_not_change_the_end(
    document: DocumentModel,
    other: DocumentModel,
    before: Seq<ElementModel>,
    sentence: ElementModel,
    after: Seq<ElementModel>,
)
    requires
        document.spans_and_paragraphs == before + after,
        other.spans_and_paragraphs == before.push(sentence) + after,
        first_match(TIME@, line_of(sentence)) is None || (!holds_text(line_of(sentence), "De openbare commissievergadering wordt gesloten"@)
            && !holds_text(line_of(sentence), "De gedachtewisseling met de ministers eindigt"@)
            && !holds_text(line_of(sentence), "De behandeling van de vragen eindigt"@)
            && !holds_text(line_of(sentence), "De gedachtewisseling eindigt"@)
            && !holds_text(line_of(sentence), "De vergadering wordt gesloten"@)
            && !holds_text(line_of(sentence), "De behandeling van de interpellatie eindigt"@)
            && !holds_text(line_of(sentence), "De behandeling van de interpellaties eindigt"@)
            && !holds_text(line_of(sentence), "De behandeling van de vragen en interpellaties eindigt om"@)),
    ensures
        meeting_end(other) == meeting_end(document),
        before.len() + after.len() == 0 ==> meeting_end(document) == Err::<
            Seq<char>,
            ScrapeError,
        >(ScrapeError::EndTime),
{
    law_phrases_announce_the_end(line_of(sentence));
    lemma_last_time_without(before, sentence, after, end_keywords());
}

proof fn lemma_last_time_without(
    before: Seq<ElementModel>,
    sentence: ElementModel,
    after: Seq<ElementModel>,
    keywords: Seq<Seq<char>>,
)
    requires
        !holds_any(line_of(sentence), keywords) || first_match(TIME@, line_of(sentence)) is None,
    ensures
        last_time(before.push(sentence) + after, keywords) == last_time(before + after, keywords),
    decreases after.len(),
{
    let more = before.push(sentence) + after;
    let fewer = before + after;
    if after.len() == 0 {
        assert(more == before.push(sentence));
        assert(more.drop_last() == before);
        assert(fewer == before);
    } else {
        assert(more.drop_last() == before.push(sentence) + after.drop_last());
        assert(fewer.drop_last() == before + after.drop_last());
        assert(more.last() == after.last());
        assert(fewer.last() == after.last());
        lemma_last_time_without(before, sentence, after.drop_last(), keywords);
    }
}

/// A line is the text of an element, its texts with spaces between them, with each line end
/// turned into a space.
pub proof fn law_lines_have_no_line_ends(element: ElementModel)
    ensures
        line_of(element).len() == joined(element.texts, " "@).len(),
        forall|i: int|
            0 <= i < line_of(element).len() ==> #[trigger] line_of(element)[i] == (if joined(
                element.texts,
                " "@,
            )[i] == '\n' {
                ' '
            } else {
                joined(element.texts, " "@)[i]
            }),
{
    reveal_strlit("\n");
    reveal_strlit(" ");
    assert("\n"@ == seq!['\n']);
    assert(" "@ == seq![' ']);
    lemma_char_for_char(joined(element.texts, " "@), '\n', ' ');
}

proof fn lemma_char_for_char(s: Seq<char>, from: char, to: char)
    ensures
        replaced(s, seq![from], seq![to]).len() == s.len(),
        forall|i: int|
            0 <= i < s.len() ==> #[trigger] replaced(s, seq![from], seq![to])[i] == (if s[i] == from {
                to
            } else {
                s[i]
            }),
    decreases s.len(),
{
    if s.len() > 0 {
        let rest = s.drop_first();
        let done = replaced(rest, seq![from], seq![to]);
        lemma_char_for_char(rest, from, to);
        assert(stands_at(s, 0, seq![from]) <==> s[0] == from) by {
            assert(s.subrange(0, 1) =~= seq![s[0]]);
            if s[0] != from {
                assert(s.subrange(0, 1)[0] != seq![from][0]);
            }
        }
        assert(s.skip(1) == rest);
        let all = replaced(s, seq![from], seq![to]);
        assert(all == seq![if s[0] == from {
            to
        } else {
            s[0]
        }] + done);
        assert forall|i: int| 0 <= i < s.len() implies #[trigger] all[i] == (if s[i] == from {
            to
        } else {
            s[i]
        }) by {
            if i > 0 {
                assert(all[i] == done[i - 1]);
                assert(s[i] == rest[i - 1]);
            }
        }
    }
}

/// The months and their numbers; no other name is that of a month.
pub proof fn law_months_have_these_numbers(name: Seq<char>)
    ensures
        month_number("januari"@) == Some("01"@),
        month_number("februari"@) == Some("02"@),
        month_number("maart"@) == Some("03"@),
        month_number("april"@) == Some("04"@),
        month_number("mei"@) == Some("05"@),
        month_number("juni"@) == Some("06"@),
        month_number("juli"@) == Some("07"@),
        month_number("augustus"@) == Some("08"@),
        month_number("september"@) == Some("09"@),
        month_number("oktober"@) == Some("10"@),
        month_number("november"@) == Some("11"@),
        month_number("december"@) == Some("12"@),
        month_number(name) is Some <==> name == "januari"@
            || name == "februari"@
            || name == "maart"@
            || name == "april"@
            || name == "mei"@
            || name == "juni"@
            || name == "juli"@
            || name == "augustus"@
            || name == "september"@
            || name == "oktober"@
            || name == "november"@
            || name == "december"@,
{
    lemma_months_differ();
}

proof fn lemma_months_differ()
    ensures
        "januari"@ != "februari"@,
        "januari"@ != "maart"@,
        "januari"@ != "april"@,
        "januari"@ != "mei"@,
        "januari"@ != "juni"@,
        "januari"@ != "juli"@,
        "januari"@ != "augustus"@,
        "januari"@ != "september"@,
        "januari"@ != "oktober"@,
        "januari"@ != "november"@,
        "januari"@ != "december"@,
        "februari"@ != "maart"@,
        "februari"@ != "april"@,
        "februari"@ != "mei"@,
        "februari"@ != "juni"@,
        "februari"@ != "juli"@,
        "februari"@ != "augustus"@,
        "februari"@ != "september"@,
        "februari"@ != "oktober"@,
        "februari"@ != "november"@,
        "februari"@ != "december"@,
        "maart"@ != "april"@,
        "maart"@ != "mei"@,
        "maart"@ != "juni"@,
        "maart"@ != "juli"@,
        "maart"@ != "augustus"@,
        "maart"@ != "september"@,
        "maart"@ != "oktober"@,
        "maart"@ != "november"@,
        "maart"@ != "december"@,
        "april"@ != "mei"@,
        "april"@ != "juni"@,
        "april"@ != "juli"@,
        "april"@ != "augustus"@,
        "april"@ != "september"@,
        "april"@ != "oktober"@,
        "april"@ != "november"@,
        "april"@ != "december"@,
        "mei"@ != "juni"@,
        "mei"@ != "juli"@,
        "mei"@ != "augustus"@,
        "mei"@ != "september"@,
        "mei"@ != "oktober"@,
        "mei"@ != "november"@,
        "mei"@ != "december"@,
        "juni"@ != "juli"@,
        "juni"@ != "augustus"@,
        "juni"@ != "september"@,
        "juni"@ != "oktober"@,
        "juni"@ != "november"@,
        "juni"@ != "december"@,
        "juli"@ != "augustus"@,
        "juli"@ != "september"@,
        "juli"@ != "oktober"@,
        "juli"@ != "november"@,
        "juli"@ != "december"@,
        "augustus"@ != "september"@,
        "augustus"@ != "oktober"@,
        "augustus"@ != "november"@,
        "augustus"@ != "december"@,
        "september"@ != "oktober"@,
        "september"@ != "november"@,
        "september"@ != "december"@,
        "oktober"@ != "november"@,
        "oktober"@ != "december"@,
        "november"@ != "december"@,
{
    reveal_strlit("januari");
    reveal_strlit("februari");
    reveal_strlit("maart");
    reveal_strlit("april");
    reveal_strlit("mei");
    reveal_strlit("juni");
    reveal_strlit("juli");
    reveal_strlit("augustus");
    reveal_strlit("september");
    reveal_strlit("oktober");
    reveal_strlit("november");
    reveal_strlit("december");
    assert("januari"@.len() == 7);
    assert("februari"@.len() == 8);
    assert("maart"@.len() == 5);
    assert("april"@.len() == 5);
    assert("mei"@.len() == 3);
    assert("juni"@.len() == 4);
    assert("juli"@.len() == 4);
    assert("augustus"@.len() == 8);
    assert("september"@.len() == 9);
    assert("oktober"@.len() == 7);
    assert("november"@.len() == 8);
    assert("december"@.len() == 8);
    assert("januari"@[0] != "oktober"@[0]);
    assert("februari"@[0] != "augustus"@[0]);
    assert("februari"@[0] != "november"@[0]);
    assert("februari"@[0] != "december"@[0]);
    assert("maart"@[0] != "april"@[0]);
    assert("juni"@[2] != "juli"@[2]);
    assert("augustus"@[0] != "november"@[0]);
    assert("augustus"@[0] != "december"@[0]);
    assert("november"@[0] != "december"@[0]);
}

/// A date tells the day, the month and the year that were found: the number of the day, the number
/// of the month and the year can be read from it. What is no day is refused before what is no
/// month.
pub proof fn law_date_tells_day_month_and_year(
    day: Seq<char>,
    month: Seq<char>,
    year: Seq<char>,
)
    ensures
        integer_value(day, 255) matches Err(error) ==> date_of(day, month, year) == Err::<
            Seq<char>,
            ScrapeError,
        >(ScrapeError::Day(error)),
        integer_value(day, 255) is Ok && month_number(month) is None ==> date_of(day, month, year)
            == Err::<Seq<char>, ScrapeError>(ScrapeError::Month),
        integer_value(day, 255) is Ok && month_number(month) is Some ==> match date_of(
            day,
            month,
            year,
        ) {
            Ok(date) => {
                let at = year.len() as int;
                &&& date.len() >= at + 6
                &&& date.take(at) == year
                &&& date.subrange(at + 1, at + 3) == month_number(month)->Some_0
                &&& digits_value(date.skip(at + 4), 0, 255) == integer_value(day, 255)
            },
            Err(_) => false,
        },
{
    if integer_value(day, 255) is Ok && month_number(month) is Some {
        let number = integer_value(day, 255)->Ok_0;
        lemma_value_within(day, 255);
        lemma_padded_value(number, 2, 255);
        reveal_strlit("-");
        reveal_strlit("01");
        reveal_strlit("02");
        reveal_strlit("03");
        reveal_strlit("04");
        reveal_strlit("05");
        reveal_strlit("06");
        reveal_strlit("07");
        reveal_strlit("08");
        reveal_strlit("09");
        reveal_strlit("10");
        reveal_strlit("11");
        reveal_strlit("12");
        let date = date_of(day, month, year)->Ok_0;
        let at = year.len() as int;
        let digits = zero_padded(decimal(number), 2);
        assert(date.take(at) =~= year);
        assert(date.subrange(at + 1, at + 3) =~= month_number(month)->Some_0);
        assert(date.skip(at + 4) =~= digits);
    }
}

/// The date of a meeting is the first that stands in the texts of the spans of its first table,
/// one behind the other with spaces between them; the name of its month counts in any case.
pub proof fn law_date_stands_in_the_first_table(
    document: DocumentModel,
    a: Seq<ElementModel>,
    span: ElementModel,
)
    ensures
        document.first_table_spans is None ==> meeting_date(document) == Err::<
            Seq<char>,
            ScrapeError,
        >(ScrapeError::NoTable),
        document.first_table_spans matches Some(spans) ==> match first_match(
            DATE@,
            joined(all_texts(spans), " "@),
        ) {
            None => meeting_date(document) == Err::<Seq<char>, ScrapeError>(ScrapeError::NoDate),
            Some(found) => meeting_date(document) == date_of(
                found.group(1)->Some_0,
                lowercase(found.group(2)->Some_0),
                found.group(3)->Some_0,
            ),
        },
        all_texts(Seq::empty()).len() == 0,
        all_texts(a.push(span)) == all_texts(a) + span.texts,
{
    assert(a.push(span).drop_last() == a);
}

/// The first span that is one of the three words, in any case and with any white space around it,
/// tells the time of day.
pub proof fn law_first_word_tells_the_time_of_day(
    document: DocumentModel,
    before: Seq<ElementModel>,
    span: ElementModel,
    after: Seq<ElementModel>,
)
    requires
        document.spans == before + (seq![span] + after),
        forall|i: int|
            0 <= i < before.len() ==> {
                let word = lowercase(trimmed((#[trigger] before[i]).text()));
                word != "namiddag"@ && word != "voormiddag"@ && word != "avond"@
            },
    ensures
        lowercase(trimmed(span.text())) == "namiddag"@ ==> meeting_time_of_day(document) == Ok::<
            Seq<char>,
            ScrapeError,
        >("afternoon"@),
        lowercase(trimmed(span.text())) == "voormiddag"@ ==> meeting_time_of_day(document) == Ok::<
            Seq<char>,
            ScrapeError,
        >("morning"@),
        lowercase(trimmed(span.text())) == "avond"@ ==> meeting_time_of_day(document) == Ok::<
            Seq<char>,
            ScrapeError,
        >("evening"@),
        lowercase(trimmed(span.text())) != "namiddag"@ && lowercase(trimmed(span.text()))
            != "voormiddag"@ && lowercase(trimmed(span.text())) != "avond"@ && after.len() == 0
            ==> meeting_time_of_day(document) == Err::<Seq<char>, ScrapeError>(
            ScrapeError::TimeOfDay,
        ),
    decreases before.len(),
{
    reveal_strlit("namiddag");
    reveal_strlit("voormiddag");
    reveal_strlit("avond");
    assert("namiddag"@.len() == 8);
    assert("voormiddag"@.len() == 10);
    assert("avond"@.len() == 5);
    let spans = document.spans;
    if before.len() == 0 {
        assert(spans[0] == span);
        assert(spans.drop_first() == after);
        assert(after.len() == 0 ==> first_time_of_day(after) is None);
    } else {
        let rest = DocumentModel { spans: spans.drop_first(), ..document };
        assert(spans[0] == before[0]);
        assert(rest.spans == before.drop_first() + (seq![span] + after));
        assert(time_of_day(lowercase(trimmed(before[0].text()))) is None);
        assert(first_time_of_day(spans) == first_time_of_day(rest.spans));
        assert forall|i: int| 0 <= i < before.drop_first().len() implies {
            let word = lowercase(trimmed((#[trigger] before.drop_first()[i]).text()));
            word != "namiddag"@ && word != "voormiddag"@ && word != "avond"@
        } by {
            assert(before.drop_first()[i] == before[i + 1]);
        }
        law_first_word_tells_the_time_of_day(rest, before.drop_first(), span, after);
    }
}

/// Who presides is told by the first sentence that names somebody: the names with commas between
/// them, in the order in which they stand there.
pub proof fn law_first_sentence_tells_the_chair(
    document: DocumentModel,
    before: Seq<ElementModel>,
    sentence: ElementModel,
    after: Seq<ElementModel>,
)
    requires
        document.spans_and_paragraphs == before + (seq![sentence] + after),
        forall|i: int|
            0 <= i < before.len() ==> match first_match(CHAIR@, line_of(#[trigger] before[i])) {
                Some(found) => names_in(chair_parts(found.group(1)->Some_0)).len() == 0,
                None => true,
            },
    ensures
        first_match(CHAIR@, line_of(sentence)) matches Some(found) ==> names_in(
            chair_parts(found.group(1)->Some_0),
        ).len() > 0 ==> meeting_chair(document) == Ok::<Seq<char>, ScrapeError>(
            joined(names_in(chair_parts(found.group(1)->Some_0)), ", "@),
        ),
        first_match(CHAIR@, line_of(sentence)) is None && after.len() == 0 ==> meeting_chair(
            document,
        ) == Err::<Seq<char>, ScrapeError>(ScrapeError::Chair),
    decreases before.len(),
{
    let elements = document.spans_and_paragraphs;
    if before.len() == 0 {
        assert(elements[0] == sentence);
        assert(elements.drop_first() == after);
        assert(after.len() == 0 ==> first_chair(after) is None);
        assert(chair_told(line_of(sentence)) is None ==> first_chair(elements) == first_chair(after));
    } else {
        let rest = DocumentModel { spans_and_paragraphs: elements.drop_first(), ..document };
        assert(elements[0] == before[0]);
        assert(rest.spans_and_paragraphs == before.drop_first() + (seq![sentence] + after));
        assert(chair_told(line_of(before[0])) is None);
        assert(first_chair(elements) == first_chair(rest.spans_and_paragraphs));
        assert forall|i: int| 0 <= i < before.drop_first().len() implies match first_match(
            CHAIR@,
            line_of(#[trigger] before.drop_first()[i]),
        ) {
            Some(found) => names_in(chair_parts(found.group(1)->Some_0)).len() == 0,
            None => true,
        } by {
            assert(before.drop_first()[i] == before[i + 1]);
        }
        law_first_sentence_tells_the_chair(rest, before.drop_first(), sentence, after);
    }
}

/// The words that tell who presides are split at every `en`, and nothing of them is lost but the
/// white space around them; fixed spaces count as spaces.
pub proof fn law_chairs_are_split_at_en(chunk: Seq<char>, i: int)
    requires
        0 <= i < chair_parts(chunk).len(),
    ensures
        joined(chair_parts(chunk), " en "@) == trimmed(joined(pieces(chunk, "\u{a0}"@), " "@)),
        !holds_text(chair_parts(chunk)[i], " en "@),
{
    reveal_strlit(" en ");
    reveal_strlit("\u{a0}");
    let spaced = replaced(chunk, "\u{a0}"@, " "@);
    law_replacing_is_splitting_and_joining(chunk, "\u{a0}"@, " "@);
    law_split_then_join(trimmed(spaced), " en "@);
    law_pieces_hold_no_separator(trimmed(spaced), " en "@, i);
}

/// Each part that tells who presides gives one name, without titles and white space around it,
/// unless nothing is left of it; the names come in the order of the parts.
pub proof fn law_each_part_names_a_chair(parts: Seq<Seq<char>>, part: Seq<char>)
    ensures
        names_in(Seq::empty()).len() == 0,
        ({
            let name = trimmed(all_rewritten(CHAIR_TITLES@, trimmed(part), ""@));
            names_in(parts.push(part)) == (if name.len() > 0 {
                names_in(parts).push(name)
            } else {
                names_in(parts)
            })
        }),
{
    assert(parts.push(part).drop_last() == parts);
}

/// The commission is the one that the first span of the first table tells, its words with single
/// spaces between them, under its name.
pub proof fn law_first_span_tells_the_commission(document: DocumentModel)
    ensures
        document.first_table_spans is None ==> meeting_commission(document) == Err::<
            Seq<char>,
            ScrapeError,
        >(ScrapeError::NoTable),
        document.first_table_spans matches Some(spans) ==> if spans.len() == 0 {
            meeting_commission(document) == Err::<Seq<char>, ScrapeError>(ScrapeError::NoSpan)
        } else {
            meeting_commission(document) == Ok::<Seq<char>, ScrapeError>(
                commission_of(joined(words(joined(spans[0].texts, " "@)), " "@)).label(),
            )
        },
{
}

/// What is kept of a meeting is what the report tells of it, each thing in its place. Where
/// something is not told, the first of date, time of day, start, end, chair and commission that is
/// not decides what is wrong.
pub proof fn law_meeting_is_what_the_report_tells(
    document: DocumentModel,
    session_id: u32,
    meeting_id: u32,
)
    ensures
        meeting_of(document, session_id, meeting_id) matches Ok(meeting) ==> {
            &&& meeting.session_id == session_id
            &&& meeting.meeting_id == meeting_id
            &&& meeting_date(document) == Ok::<Seq<char>, ScrapeError>(meeting.date)
            &&& meeting_time_of_day(document) == Ok::<Seq<char>, ScrapeError>(meeting.time_of_day)
            &&& meeting_start(document) == Ok::<Seq<char>, ScrapeError>(meeting.start_time)
            &&& meeting_end(document) == Ok::<Seq<char>, ScrapeError>(meeting.end_time)
            &&& meeting_chair(document) == Ok::<Seq<char>, ScrapeError>(meeting.chair)
            &&& meeting_commission(document) == Ok::<Seq<char>, ScrapeError>(meeting.commission)
        },
        meeting_of(document, session_id, meeting_id) matches Err(error) ==> {
            ||| meeting_date(document) == Err::<Seq<char>, ScrapeError>(error)
            ||| meeting_date(document) is Ok && meeting_time_of_day(document) == Err::<
                Seq<char>,
                ScrapeError,
            >(error)
            ||| meeting_date(document) is Ok && meeting_time_of_day(document) is Ok
                && meeting_start(document) == Err::<Seq<char>, ScrapeError>(error)
            ||| meeting_date(document) is Ok && meeting_time_of_day(document) is Ok
                && meeting_start(document) is Ok && meeting_end(document) == Err::<
                Seq<char>,
                ScrapeError,
            >(error)
            ||| meeting_date(document) is Ok && meeting_time_of_day(document) is Ok
                && meeting_start(document) is Ok && meeting_end(document) is Ok && meeting_chair(
                document,
            ) == Err::<Seq<char>, ScrapeError>(error)
            ||| meeting_date(document) is Ok && meeting_time_of_day(document) is Ok
                && meeting_start(document) is Ok && meeting_end(document) is Ok && meeting_chair(
                document,
            ) is Ok && meeting_commission(document) == Err::<Seq<char>, ScrapeError>(error)
        },
{
}

/// What is kept of a report is its meeting and its questions, dated as the meeting; a meeting that
/// cannot be read is refused for what is wrong with it.
pub proof fn law_report_gives_meeting_and_questions(
    document: DocumentModel,
    session_id: u32,
    meeting_id: u32,
    cleaned: spec_fn(Seq<char>) -> Seq<char>,
)
    ensures
        meeting_of(document, session_id, meeting_id) matches Err(error) ==> output_of(
            document,
            session_id,
            meeting_id,
            cleaned,
        ) == Err::<OutputModel, ScrapeError>(error),
        meeting_of(document, session_id, meeting_id) matches Ok(meeting) ==> if closed_questions(
            document.headings_and_paragraphs,
            cleaned,
        ).len() > 0x8000_0000 {
            output_of(document, session_id, meeting_id, cleaned) == Err::<OutputModel, ScrapeError>(
                ScrapeError::TooLong,
            )
        } else {
            match output_of(document, session_id, meeting_id, cleaned) {
                Ok(output) => output.meeting == meeting && output.questions == questions_of(
                    document.headings_and_paragraphs,
                    session_id,
                    meeting_id,
                    meeting.date,
                    cleaned,
                ),
                Err(_) => false,
            }
        },
{
}

} // verus!
