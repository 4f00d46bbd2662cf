//! The questions of a report, found by its headings.

use crate::cleaning::{cleans_all, cleans_as, may_clean};
use crate::document::{all_elements, Document, ElementModel};
use crate::error::ScrapeError;
use crate::fixes::{handle_one_off_issues, repaired};
use crate::discussion::{
    contributions_json, discussion_contributions, law_contributions_read_back,
    law_json_says_who_says_what,
};
use crate::question::{
    all_identifiers, announced_questions, asked_by, data_unquoted, extract_question_data,
    joined_identifiers, question_data, respondents_among, subjects_of,
};
use crate::records::{all_questions, question_unquoted, QuestionModel, ScrapedQuestion};
use crate::speakers::{discussion_speakers, speakers_of};
use crate::text::{
    contains, contains_any, holds_any, holds_text, join, joined, latin, latin_lower,
    latin_lowercase, law_latin_part_in_lower_case, lemma_char_replaced, lemma_joined_free,
    lemma_single_piece,
    lemma_trimmed_not_empty, law_lowercase_of_latin, law_replacing_is_splitting_and_joining,
    law_split_at_separator, lemma_word_within, lowercase, pieces, replace, replaced, same_text, stands_at,
    starts_with, trim, trimmed, unquoted,
};
use vstd::prelude::*;

verus! {

/// The language in which the headings announce the questions.
#[derive(Clone, Copy, Debug, PartialEq, Eq, Structural)]
pub enum SectionLang {
    Nl,
    Fr,
}

/// What was read since the last question was closed: the Dutch and the French headings that
/// announce the next one, and the discussion.
pub struct Section {
    pub lang: SectionLang,
    pub nl: String,
    pub fr: String,
    pub discussion: String,
}

/// The model of a [`Section`].
#[verifier::ext_equal]
pub struct SectionModel {
    pub lang: SectionLang,
    pub nl: Seq<char>,
    pub fr: Seq<char>,
    pub discussion: Seq<char>,
}

impl View for Section {
    type V = SectionModel;

    open spec fn view(&self) -> SectionModel {
        SectionModel {
            lang: self.lang,
            nl: self.nl@,
            fr: self.fr@,
            discussion: self.discussion@,
        }
    }
}

/// A question whose headings and discussion were read.
pub struct ClosedQuestion {
    pub nl: String,
    pub fr: String,
    pub discussion: String,
}

/// The model of a [`ClosedQuestion`].
#[verifier::ext_equal]
pub struct ClosedModel {
    pub nl: Seq<char>,
    pub fr: Seq<char>,
    pub discussion: Seq<char>,
}

impl View for ClosedQuestion {
    type V = ClosedModel;

    open spec fn view(&self) -> ClosedModel {
        ClosedModel { nl: self.nl@, fr: self.fr@, discussion: self.discussion@ }
    }
}

/// The model of a question that may be there.
pub open spec fn optional_closed(closed: Option<ClosedQuestion>) -> Option<ClosedModel> {
    match closed {
        Some(question) => Some(question@),
        None => None,
    }
}

/// The models of a list of closed questions.
pub open spec fn all_closed(list: Seq<ClosedQuestion>) -> Seq<ClosedModel> {
    Seq::new(list.len(), |i: int| list[i]@)
}

/// The words by which a heading in lower case shows that it is French.
pub open spec fn french_words() -> Seq<Seq<char>> {
    seq![
        "questions jointes"@,
        "qestions jointes"@,
        "question"@,
        "questions et interpellation jointes"@,
        "questions et interpellations jointes"@,
        "interpellation et question jointes"@,
        "interpellations et question jointes"@,
        "interpellation et questions jointes"@,
        "interpellations et questions jointes"@,
    ]
}

/// The words by which a heading in lower case shows that it is Dutch.
pub open spec fn dutch_words() -> Seq<Seq<char>> {
    seq![
        "samengevoegde vragen"@,
        "toegevoegde vragen"@,
        "vraag"@,
        "samengevoegde vragen en interpellatie"@,
        "toegevoegde vragen en interpellaties"@,
        "interpellatie en vraag"@,
        "interpellaties en vraag"@,
        "interpellatie en vragen"@,
        "interpellaties en vragen"@,
    ]
}

/// The language after a heading in lower case: the one that its words show, French before
/// Dutch, or else the one before.
pub open spec fn language_after(lang: SectionLang, lower: Seq<char>) -> SectionLang {
    if holds_any(lower, french_words()) {
        SectionLang::Fr
    } else if holds_any(lower, dutch_words()) {
        SectionLang::Nl
    } else {
        lang
    }
}

/// Whether a heading in lower case announces a hearing.
pub open spec fn announces_hearing(lower: Seq<char>) -> bool {
    holds_text(lower, "hoorzitting"@) || holds_text(lower, "audition"@)
}

/// Whether a heading announces a question or a group of questions.
pub open spec fn announces_question(heading: Seq<char>) -> bool {
    ||| stands_at(heading, 0, "Samengevoegde"@)
    ||| holds_text(heading, "toegevoegde vragen"@)
    ||| holds_text(heading, "jointes"@)
    ||| stands_at(heading, 0, "Vraag van"@)
    ||| stands_at(heading, 0, "Question de"@)
}

/// Whether a heading announces a further question of a group.
pub open spec fn announces_subquestion(heading: Seq<char>) -> bool {
    stands_at(heading, 0, "-"@)
}

impl SectionModel {
    /// What was read before anything was.
    pub open spec fn start() -> SectionModel {
        SectionModel {
            lang: SectionLang::Nl,
            nl: Seq::empty(),
            fr: Seq::empty(),
            discussion: Seq::empty(),
        }
    }

    /// Whether a question was announced in both languages.
    pub open spec fn complete(self) -> bool {
        self.nl.len() > 0 && self.fr.len() > 0
    }

    /// The question that was read.
    pub open spec fn closed(self) -> ClosedModel {
        ClosedModel { nl: self.nl, fr: self.fr, discussion: self.discussion }
    }

    /// The question that a heading closes, if one was announced in both languages.
    pub open spec fn closed_by(self, heading: Seq<char>, lower: Seq<char>) -> Option<ClosedModel> {
        if trimmed(heading).len() > 0 && (announces_hearing(lower) || announces_question(heading))
            && self.complete() {
            Some(self.closed())
        } else {
            None
        }
    }

    /// The same language with nothing read.
    pub open spec fn cleared(self) -> SectionModel {
        SectionModel { lang: self.lang, ..SectionModel::start() }
    }

    /// With the announcement in the language of the section put in place of the one before.
    pub open spec fn announced(self, heading: Seq<char>) -> SectionModel {
        match self.lang {
            SectionLang::Nl => SectionModel { nl: heading, ..self },
            SectionLang::Fr => SectionModel { fr: heading, ..self },
        }
    }

    /// With a line added to the announcement in the language of the section.
    pub open spec fn continued(self, heading: Seq<char>) -> SectionModel {
        match self.lang {
            SectionLang::Nl => SectionModel { nl: self.nl.push('\n') + heading, ..self },
            SectionLang::Fr => SectionModel { fr: self.fr.push('\n') + heading, ..self },
        }
    }

    /// What was read after a heading, of which `lower` is the lower case.
    pub open spec fn after_heading(self, heading: Seq<char>, lower: Seq<char>) -> SectionModel {
        if trimmed(heading).len() == 0 {
            self
        } else {
            let section = SectionModel { lang: language_after(self.lang, lower), ..self };
            if announces_hearing(lower) {
                section.cleared()
            } else if announces_question(heading) {
                if self.complete() {
                    section.cleared().announced(heading)
                } else {
                    section.announced(heading)
                }
            } else if announces_subquestion(heading) {
                section.continued(heading)
            } else {
                section
            }
        }
    }

    /// What was read after a paragraph of the discussion.
    pub open spec fn after_paragraph(self, paragraph: Seq<char>) -> SectionModel {
        SectionModel { discussion: self.discussion + paragraph + "NEWPARAGRAPH"@, ..self }
    }
}

/// The questions closed up to some element of a report, and what was read since.
#[verifier::ext_equal]
pub struct ProgressModel {
    pub section: SectionModel,
    pub closed: Seq<ClosedModel>,
}

/// A heading once it was cleaned, with single quotes and without the known mistakes.
pub open spec fn heading_text(cleaned: Seq<char>) -> Seq<char> {
    repaired(replaced(cleaned, "\""@, "'"@))
}

impl ProgressModel {
    /// After a further element.
    pub open spec fn after_element(
        self,
        element: ElementModel,
        cleaned: spec_fn(Seq<char>) -> Seq<char>,
    ) -> ProgressModel {
        if element.name == "h2"@ {
            let heading = heading_text(cleaned(element.text()));
            let lower = lowercase(heading);
            ProgressModel {
                section: self.section.after_heading(heading, lower),
                closed: match self.section.closed_by(heading, lower) {
                    Some(question) => self.closed.push(question),
                    None => self.closed,
                },
            }
        } else if element.name == "p"@ && trimmed(element.text()).len() > 0 {
            ProgressModel {
                section: self.section.after_paragraph(
                    cleaned(repaired(trimmed(element.text()))),
                ),
                closed: self.closed,
            }
        } else {
            self
        }
    }
}

/// The progress after some elements of a report.
pub open spec fn progress(
    elements: Seq<ElementModel>,
    cleaned: spec_fn(Seq<char>) -> Seq<char>,
) -> ProgressModel
    decreases elements.len(),
{
    if elements.len() == 0 {
        ProgressModel { section: SectionModel::start(), closed: Seq::empty() }
    } else {
        progress(elements.drop_last(), cleaned).after_element(elements.last(), cleaned)
    }
}

/// The questions of a report: those that a heading closes and the one that its end closes,
/// if it was announced in both languages.
pub open spec fn closed_questions(
    elements: Seq<ElementModel>,
    cleaned: spec_fn(Seq<char>) -> Seq<char>,
) -> Seq<ClosedModel> {
    let end = progress(elements, cleaned);
    if end.section.complete() {
        end.closed.push(end.section.closed())
    } else {
        end.closed
    }
}

/// What is kept of a closed question, where `cleaned` is its discussion once it was cleaned.
/// The people, the discussion and the identifiers are taken from the Dutch announcement.
pub open spec fn question_of(
    question_id: int,
    session_id: u32,
    meeting_id: u32,
    date: Seq<char>,
    closed: ClosedModel,
    cleaned: Seq<char>,
) -> QuestionModel {
    let nl = question_data(closed.nl, closed.discussion, cleaned);
    let fr = question_data(closed.fr, closed.discussion, cleaned);
    QuestionModel {
        question_id,
        session_id,
        meeting_id,
        questioners: joined(nl.questioners, ","@),
        questionees: joined(nl.questionees, ","@),
        respondents: joined(nl.respondents, ","@),
        topics_nl: joined(nl.topics, ";"@),
        topics_fr: joined(fr.topics, ";"@),
        discussion: nl.discussion,
        internal_ids: joined(nl.internal_ids, ","@),
        date,
    }
}

/// What is kept of the questions of a report, which are numbered from zero.
pub open spec fn questions_of(
    elements: Seq<ElementModel>,
    session_id: u32,
    meeting_id: u32,
    date: Seq<char>,
    cleaned: spec_fn(Seq<char>) -> Seq<char>,
) -> Seq<QuestionModel> {
    let closed = closed_questions(elements, cleaned);
    Seq::new(
        closed.len(),
        |i: int|
            question_of(i, session_id, meeting_id, date, closed[i], cleaned(closed[i].discussion)),
    )
}

/// What is kept of the questions of a report, if they are no more than can be numbered.
pub open spec fn numbered_questions(
    elements: Seq<ElementModel>,
    session_id: u32,
    meeting_id: u32,
    date: Seq<char>,
    cleaned: spec_fn(Seq<char>) -> Seq<char>,
) -> Result<Seq<QuestionModel>, ScrapeError> {
    if closed_questions(elements, cleaned).len() > i32::MAX + 1 {
        Err(ScrapeError::TooLong)
    } else {
        Ok(questions_of(elements, session_id, meeting_id, date, cleaned))
    }
}

/// The models of a list of questions or the error in their place.
pub open spec fn questions_or_error(r: Result<Vec<ScrapedQuestion>, ScrapeError>) -> Result<
    Seq<QuestionModel>,
    ScrapeError,
> {
    match r {
        Ok(questions) => Ok(all_questions(questions@)),
        Err(error) => Err(error),
    }
}

/// Whether a heading in lower case shows that it is French.
fn shows_french(lower: &str) -> (r: bool)
    ensures
        r == holds_any(lower@, french_words()),
{
    let words = [
        "questions jointes",
        "qestions jointes",
        "question",
        "questions et interpellation jointes",
        "questions et interpellations jointes",
        "interpellation et question jointes",
        "interpellations et question jointes",
        "interpellation et questions jointes",
        "interpellations et questions jointes",
    ];
    assert(words@.map_values(|p: &str| p@) =~= french_words());
    contains_any(lower, words.as_slice())
}

/// Whether a heading in lower case shows that it is Dutch.
fn shows_dutch(lower: &str) -> (r: bool)
    ensures
        r == holds_any(lower@, dutch_words()),
{
    let words = [
        "samengevoegde vragen",
        "toegevoegde vragen",
        "vraag",
        "samengevoegde vragen en interpellatie",
        "toegevoegde vragen en interpellaties",
        "interpellatie en vraag",
        "interpellaties en vraag",
        "interpellatie en vragen",
        "interpellaties en vragen",
    ];
    assert(words@.map_values(|p: &str| p@) =~= dutch_words());
    contains_any(lower, words.as_slice())
}

/// Whether a heading announces a question or a group of questions.
fn opens_question(heading: &str) -> (r: bool)
    ensures
        r == announces_question(heading@),
{
    let is_group_start = starts_with(heading, "Samengevoegde") || contains(
        heading,
        "toegevoegde vragen",
    ) || contains(heading, "jointes");
    let is_single = starts_with(heading, "Vraag van") || starts_with(heading, "Question de");
    is_group_start || is_single
}

impl Section {
    /// What was read before anything was.
    pub fn new() -> (r: Section)
        ensures
            r@ == SectionModel::start(),
    {
        // Start with Dutch.
        Section {
            lang: SectionLang::Nl,
            nl: String::new(),
            fr: String::new(),
            discussion: String::new(),
        }
    }

    /// The question that was read, if it was announced in both languages.
    pub fn close(&self) -> (r: Option<ClosedQuestion>)
        ensures
            optional_closed(r) == (if self@.complete() {
                Some(self@.closed())
            } else {
                None
            }),
    {
        if !self.nl.as_str().is_empty() && !self.fr.as_str().is_empty() {
            Some(
                ClosedQuestion {
                    nl: self.nl.clone(),
                    fr: self.fr.clone(),
                    discussion: self.discussion.clone(),
                },
            )
        } else {
            None
        }
    }

    /// Forgets what was read, but for the language.
    fn clear(&mut self)
        ensures
            final(self)@ == old(self)@.cleared(),
    {
        self.nl = String::new();
        self.fr = String::new();
        self.discussion = String::new();
    }

    /// Reads a heading, of which `lower` is the lower case. Gives the question that it closes.
    pub fn read_heading(&mut self, heading: String, lower: &str) -> (r: Option<ClosedQuestion>)
        ensures
            final(self)@ == old(self)@.after_heading(heading@, lower@),
            optional_closed(r) == old(self)@.closed_by(heading@, lower@),
    {
        if trim(heading.as_str()).is_empty() {
            return None;
        }
        if shows_french(lower) {
            self.lang = SectionLang::Fr;
        } else if shows_dutch(lower) {
            self.lang = SectionLang::Nl;
        }
        if contains(lower, "hoorzitting") || contains(lower, "audition") {
            let closed = self.close();
            self.clear();
            return closed;
        }
        if opens_question(heading.as_str()) {
            let closed = self.close();
            if closed.is_some() {
                self.clear();
            }
            match self.lang {
                SectionLang::Nl => {
                    self.nl = heading;
                },
                SectionLang::Fr => {
                    self.fr = heading;
                },
            }
            return closed;
        }
        if starts_with(heading.as_str(), "-") {
            match self.lang {
                SectionLang::Nl => {
                    self.nl.push('\n');
                    self.nl.append(heading.as_str());
                },
                SectionLang::Fr => {
                    self.fr.push('\n');
                    self.fr.append(heading.as_str());
                },
            }
        }
        None
    }

    /// Reads a paragraph of the discussion.
    pub fn read_paragraph(&mut self, paragraph: &str)
        ensures
            final(self)@ == old(self)@.after_paragraph(paragraph@),
    {
        self.discussion.append(paragraph);
        self.discussion.append("NEWPARAGRAPH");
    }
}

/// The questions of a report, whose texts `clean_text` cleans.
pub fn find_closed_questions<F: Fn(&str) -> String>(document: &Document, clean_text: &F) -> (r: Vec<
    ClosedQuestion,
>)
    requires
        cleans_all(*clean_text),
    ensures
        r@.len() <= document@.headings_and_paragraphs.len() + 1,
        forall|f: spec_fn(Seq<char>) -> Seq<char>| #[trigger]
            cleans_as(*clean_text, f) ==> all_closed(r@) == closed_questions(
                document@.headings_and_paragraphs,
                f,
            ),
        forall|i: int|
            0 <= i < r@.len() ==> unquoted((#[trigger] r@[i])@.nl) && unquoted(r@[i]@.fr),
{
    let elements = &document.headings_and_paragraphs;
    let ghost all = document@.headings_and_paragraphs;
    let mut section = Section::new();
    let mut closed: Vec<ClosedQuestion> = Vec::new();
    let mut i: usize = 0;
    proof {
        reveal_strlit("\"");
        reveal_strlit("'");
        assert("\""@ =~= seq!['"']);
        assert(all_closed(closed@) =~= Seq::<ClosedModel>::empty());
        assert(all.take(0) =~= Seq::<ElementModel>::empty());
    }
    while i < elements.len()
        invariant
            "\""@ == seq!['"'],
            unquoted("'"@),
            unquoted(section@.nl),
            unquoted(section@.fr),
            forall|j: int|
                0 <= j < closed@.len() ==> unquoted((#[trigger] closed@[j])@.nl) && unquoted(
                    closed@[j]@.fr,
                ),
            cleans_all(*clean_text),
            all == all_elements(elements@),
            i <= elements.len(),
            closed@.len() <= i,
            forall|f: spec_fn(Seq<char>) -> Seq<char>| #[trigger]
                cleans_as(*clean_text, f) ==> progress(all.take(i as int), f) == (ProgressModel {
                    section: section@,
                    closed: all_closed(closed@),
                }),
        decreases elements.len() - i,
    {
        let element = &elements[i];
        let ghost before = section@;
        let ghost closed_before = all_closed(closed@);
        proof {
            assert(all.take(i + 1).drop_last() == all.take(i as int));
            assert(all.take(i + 1).last() == element@);
        }
        if same_text(element.name.as_str(), "h2") {
            let cleaned = clean_text(element.text().as_str());
            let raw = replace(cleaned.as_str(), "\"", "'");
            proof {
                lemma_char_replaced(cleaned@, "\""@, "'"@, '"');
            }
            let heading = handle_one_off_issues(raw);
            let lower = heading.as_str().to_lowercase();
            let ghost read = heading@;
            if let Some(question) = section.read_heading(heading, lower.as_str()) {
                closed.push(question);
                assert(all_closed(closed@) =~= closed_before.push(question@));
            }
            assert forall|f: spec_fn(Seq<char>) -> Seq<char>| #[trigger]
                cleans_as(*clean_text, f) implies progress(all.take(i + 1), f) == (ProgressModel {
                section: section@,
                closed: all_closed(closed@),
            }) by {
                assert(read == heading_text(f(element@.text())));
            }
        } else if same_text(element.name.as_str(), "p") {
            let joined_text = element.text();
            let text = trim(joined_text.as_str());
            if !text.is_empty() {
                let fixed = handle_one_off_issues(text.to_owned());
                let cleaned = clean_text(fixed.as_str());
                section.read_paragraph(cleaned.as_str());
                assert forall|f: spec_fn(Seq<char>) -> Seq<char>| #[trigger]
                    cleans_as(*clean_text, f) implies progress(all.take(i + 1), f) == (
                ProgressModel { section: section@, closed: all_closed(closed@) }) by {
                    assert(cleaned@ == f(repaired(trimmed(element@.text()))));
                }
            }
        }
        i += 1;
    }
    assert(all.take(i as int) == all);
    let ghost closed_before = all_closed(closed@);
    // The end of the report closes the last question.
    if let Some(question) = section.close() {
        closed.push(question);
        assert(all_closed(closed@) =~= closed_before.push(question@));
    }
    closed
}

/// What is kept of a closed question, whose discussion `clean_text` cleans.
pub fn scrape_question<F: Fn(&str) -> String>(
    question_id: i32,
    session_id: u32,
    meeting_id: u32,
    date: &str,
    closed: &ClosedQuestion,
    clean_text: &F,
) -> (r: Result<ScrapedQuestion, ScrapeError>)
    requires
        cleans_all(*clean_text),
    ensures
        r is Ok,
        r->Ok_0.question_id == question_id,
        r->Ok_0.session_id == session_id,
        r->Ok_0.meeting_id == meeting_id,
        r->Ok_0.date@ == date@,
        exists|cleaned: Seq<char>| #[trigger]
            may_clean(*clean_text, closed@.discussion, cleaned) && r->Ok_0@ == question_of(
                question_id as int,
                session_id,
                meeting_id,
                date@,
                closed@,
                cleaned,
            ),
        unquoted(closed@.nl) && unquoted(closed@.fr) ==> question_unquoted(r->Ok_0@),
        joined_identifiers(r->Ok_0@.internal_ids),
{
    let data_nl = extract_question_data(closed.nl.as_str(), closed.discussion.as_str(), clean_text)?;
    let data_fr = extract_question_data(closed.fr.as_str(), closed.discussion.as_str(), clean_text)?;
    let ghost cleaned = choose|cleaned: Seq<char>| #[trigger]
        may_clean(*clean_text, closed@.discussion, cleaned) && data_nl@ == question_data(
            closed@.nl,
            closed@.discussion,
            cleaned,
        );
    let question = ScrapedQuestion {
        question_id,
        session_id,
        meeting_id,
        questioners: join(&data_nl.questioners, ","),
        questionees: join(&data_nl.questionees, ","),
        respondents: join(&data_nl.respondents, ","),
        topics_nl: join(&data_nl.topics, ";"),
        topics_fr: join(&data_fr.topics, ";"),
        discussion: data_nl.discussion,
        internal_ids: join(&data_nl.internal_ids, ","),
        date: date.to_owned(),
    };
    assert(question@ == question_of(
        question_id as int,
        session_id,
        meeting_id,
        date@,
        closed@,
        cleaned,
    ));
    proof {
        assert(all_identifiers(data_nl@.internal_ids));
        if unquoted(closed@.nl) && unquoted(closed@.fr) {
            reveal_strlit(",");
            reveal_strlit(";");
            assert(data_unquoted(data_nl@) && data_unquoted(data_fr@));
            lemma_joined_free(data_nl@.questioners, ","@, '"');
            lemma_joined_free(data_nl@.questionees, ","@, '"');
            lemma_joined_free(data_nl@.topics, ";"@, '"');
            lemma_joined_free(data_fr@.topics, ";"@, '"');
            lemma_joined_free(data_nl@.internal_ids, ","@, '"');
        }
    }
    Ok(question)
}

/// Extracts questions from the document, whose texts `clean_text` cleans. More questions than can
/// be numbered are refused.
pub fn extract_questions<F: Fn(&str) -> String>(
    document: &Document,
    session_id: u32,
    meeting_id: u32,
    date: &str,
    clean_text: &F,
) -> (r: Result<Vec<ScrapedQuestion>, ScrapeError>)
    requires
        cleans_all(*clean_text),
    ensures
        document@.headings_and_paragraphs.len() <= i32::MAX ==> r is Ok,
        r matches Err(error) ==> error == ScrapeError::TooLong,
        forall|i: int|
            r is Ok && 0 <= i < r->Ok_0@.len() ==> {
                &&& (#[trigger] r->Ok_0@[i]).question_id == i
                &&& r->Ok_0@[i].session_id == session_id
                &&& r->Ok_0@[i].meeting_id == meeting_id
                &&& r->Ok_0@[i].date@ == date@
                &&& question_unquoted(r->Ok_0@[i]@)
                &&& joined_identifiers(r->Ok_0@[i]@.internal_ids)
            },
        forall|f: spec_fn(Seq<char>) -> Seq<char>| #[trigger]
            cleans_as(*clean_text, f) ==> questions_or_error(r) == numbered_questions(
                document@.headings_and_paragraphs,
                session_id,
                meeting_id,
                date@,
                f,
            ),
{
    let closed = find_closed_questions(document, clean_text);
    assert forall|f: spec_fn(Seq<char>) -> Seq<char>| #[trigger]
        cleans_as(*clean_text, f) implies closed@.len() == closed_questions(
        document@.headings_and_paragraphs,
        f,
    ).len() by {
        assert(all_closed(closed@).len() == closed@.len());
    }
    if closed.len() > 0x8000_0000 {
        return Err(ScrapeError::TooLong);
    }
    let mut questions: Vec<ScrapedQuestion> = Vec::new();
    let mut i: usize = 0;
    while i < closed.len()
        invariant
            cleans_all(*clean_text),
            closed@.len() <= i32::MAX + 1,
            forall|j: int|
                0 <= j < closed@.len() ==> unquoted((#[trigger] closed@[j])@.nl) && unquoted(
                    closed@[j]@.fr,
                ),
            i <= closed.len(),
            questions@.len() == i,
            forall|j: int|
                0 <= j < i ==> {
                    &&& (#[trigger] questions@[j]).question_id == j
                    &&& questions@[j].session_id == session_id
                    &&& questions@[j].meeting_id == meeting_id
                    &&& questions@[j].date@ == date@
                    &&& question_unquoted(questions@[j]@)
                    &&& joined_identifiers(questions@[j]@.internal_ids)
                },
            forall|f: spec_fn(Seq<char>) -> Seq<char>, j: int|
                #![trigger cleans_as(*clean_text, f), questions@[j]]
                cleans_as(*clean_text, f) && 0 <= j < i ==> questions@[j]@ == question_of(
                    j,
                    session_id,
                    meeting_id,
                    date@,
                    closed@[j]@,
                    f(closed@[j]@.discussion),
                ),
        decreases closed.len() - i,
    {
        let question = scrape_question(
            i as i32,
            session_id,
            meeting_id,
            date,
            &closed[i],
            clean_text,
        )?;
        questions.push(question);
        i += 1;
    }
    assert forall|f: spec_fn(Seq<char>) -> Seq<char>| #[trigger]
        cleans_as(*clean_text, f) implies all_questions(questions@) == questions_of(
        document@.headings_and_paragraphs,
        session_id,
        meeting_id,
        date@,
        f,
    ) by {
        let all = questions_of(
            document@.headings_and_paragraphs,
            session_id,
            meeting_id,
            date@,
            f,
        );
        assert(all_closed(closed@) == closed_questions(document@.headings_and_paragraphs, f));
        assert forall|j: int| 0 <= j < questions@.len() implies all_questions(questions@)[j]
            == all[j] by {
            assert(questions@[j]@ == all_questions(questions@)[j]);
        }
        assert(all_questions(questions@) =~= all);
    }
    Ok(questions)
}

/// The questions of a report are numbered from zero, and each has the session, the meeting and
/// the date.
pub proof fn law_questions_are_numbered(
    elements: Seq<ElementModel>,
    session_id: u32,
    meeting_id: u32,
    date: Seq<char>,
    cleaned: spec_fn(Seq<char>) -> Seq<char>,
    i: int,
)
    requires
        0 <= i < questions_of(elements, session_id, meeting_id, date, cleaned).len(),
    ensures
        ({
            let question = questions_of(elements, session_id, meeting_id, date, cleaned)[i];
            &&& question.question_id == i
            &&& question.session_id == session_id
            &&& question.meeting_id == meeting_id
            &&& question.date == date
        }),
{
}

proof fn lemma_closed_in_both(
    elements: Seq<ElementModel>,
    cleaned: spec_fn(Seq<char>) -> Seq<char>,
)
    ensures
        forall|i: int|
            0 <= i < progress(elements, cleaned).closed.len() ==> (#[trigger] progress(
                elements,
                cleaned,
            ).closed[i]).nl.len() > 0 && progress(elements, cleaned).closed[i].fr.len() > 0,
    decreases elements.len(),
{
    if elements.len() > 0 {
        lemma_closed_in_both(elements.drop_last(), cleaned);
    }
}

/// Every question of a report was announced in both languages.
pub proof fn law_questions_are_announced_in_both(
    elements: Seq<ElementModel>,
    cleaned: spec_fn(Seq<char>) -> Seq<char>,
    i: int,
)
    requires
        0 <= i < closed_questions(elements, cleaned).len(),
    ensures
        closed_questions(elements, cleaned)[i].nl.len() > 0,
        closed_questions(elements, cleaned)[i].fr.len() > 0,
{
    lemma_closed_in_both(elements, cleaned);
}

/// A hearing leaves nothing of what was read before.
pub proof fn law_hearing_clears(section: SectionModel, heading: Seq<char>, lower: Seq<char>)
    requires
        trimmed(heading).len() > 0,
        announces_hearing(lower),
    ensures
        section.after_heading(heading, lower) == (SectionModel {
            lang: language_after(section.lang, lower),
            ..SectionModel::start()
        }),
{
}

/// A heading that holds a word for a hearing, whatever its letters' case, announces one.
pub proof fn law_hearing_in_any_case(heading: Seq<char>, word: Seq<char>)
    requires
        holds_text(heading, word),
        latin(word),
        lowercase(word) == "hoorzitting"@ || lowercase(word) == "audition"@,
    ensures
        announces_hearing(lowercase(heading)),
{
    law_lowercase_of_latin(word);
    law_latin_part_in_lower_case(heading, word);
}

/// A heading without an indicator word keeps the language.
pub proof fn law_language_stays(section: SectionModel, heading: Seq<char>, lower: Seq<char>)
    requires
        !holds_any(lower, french_words()),
        !holds_any(lower, dutch_words()),
    ensures
        section.after_heading(heading, lower).lang == section.lang,
{
}

/// A heading that announces nothing closes no question and leaves what was read.
pub proof fn law_other_heading_changes_nothing(
    section: SectionModel,
    heading: Seq<char>,
    lower: Seq<char>,
)
    requires
        !announces_hearing(lower),
        !announces_question(heading),
        !announces_subquestion(heading),
    ensures
        section.closed_by(heading, lower) is None,
        section.after_heading(heading, lower).closed() == section.closed(),
{
}

/// A question that is announced in both languages is closed by the next announcement, whose
/// section starts with that announcement alone.
pub proof fn law_next_question_starts_afresh(
    section: SectionModel,
    heading: Seq<char>,
    lower: Seq<char>,
)
    requires
        section.complete(),
        trimmed(heading).len() > 0,
        !announces_hearing(lower),
        announces_question(heading),
    ensures
        section.closed_by(heading, lower) == Some(section.closed()),
        section.after_heading(heading, lower).discussion.len() == 0,
        !section.after_heading(heading, lower).complete(),
{
}

/// What was read after the paragraphs of a discussion.
pub open spec fn after_paragraphs(section: SectionModel, paragraphs: Seq<Seq<char>>) -> SectionModel
    decreases paragraphs.len(),
{
    if paragraphs.len() == 0 {
        section
    } else {
        after_paragraphs(section, paragraphs.drop_last()).after_paragraph(paragraphs.last())
    }
}

proof fn lemma_paragraphs_front(section: SectionModel, paragraphs: Seq<Seq<char>>)
    requires
        paragraphs.len() > 0,
    ensures
        after_paragraphs(section, paragraphs).discussion == section.discussion + paragraphs[0]
            + "NEWPARAGRAPH"@ + after_paragraphs(
            section.cleared(),
            paragraphs.drop_first(),
        ).discussion,
    decreases paragraphs.len(),
{
    let mark = "NEWPARAGRAPH"@;
    let last = paragraphs.last();
    if paragraphs.len() == 1 {
        assert(paragraphs.drop_last() == Seq::<Seq<char>>::empty());
        assert(paragraphs.drop_first() == Seq::<Seq<char>>::empty());
        assert(after_paragraphs(section, Seq::empty()) == section);
    } else {
        lemma_paragraphs_front(section, paragraphs.drop_last());
        assert(paragraphs.drop_last().drop_first() == paragraphs.drop_first().drop_last());
        let rest = after_paragraphs(
            section.cleared(),
            paragraphs.drop_first().drop_last(),
        ).discussion;
        assert(paragraphs.drop_first().last() == last);
        assert(section.discussion + paragraphs[0] + mark + rest + last + mark == section.discussion
            + paragraphs[0] + mark + (rest + last + mark));
    }
}

proof fn lemma_paragraphs_split(section: SectionModel, paragraphs: Seq<Seq<char>>)
    requires
        section.discussion.len() == 0,
        forall|i: int|
            0 <= i < paragraphs.len() ==> !holds_text(#[trigger] paragraphs[i], "NEWPARAGRAPH"@),
    ensures
        pieces(after_paragraphs(section, paragraphs).discussion, "NEWPARAGRAPH"@)
            == paragraphs.push(Seq::empty()),
    decreases paragraphs.len(),
{
    let mark = "NEWPARAGRAPH"@;
    reveal_strlit("NEWPARAGRAPH");
    if paragraphs.len() == 0 {
        assert(section.discussion == Seq::<char>::empty());
        assert(pieces(section.discussion, mark) == seq![Seq::<char>::empty()]);
    } else {
        let rest = paragraphs.drop_first();
        assert forall|i: int| 0 <= i < rest.len() implies !holds_text(
            #[trigger] rest[i],
            mark,
        ) by {
            assert(rest[i] == paragraphs[i + 1]);
        }
        lemma_paragraphs_split(section.cleared(), rest);
        lemma_paragraphs_front(section, paragraphs);
        let after = after_paragraphs(section.cleared(), rest).discussion;
        assert(section.discussion + paragraphs[0] == paragraphs[0]);
        law_split_at_separator(paragraphs[0], mark, after);
        lemma_single_piece(paragraphs[0], mark);
        assert(seq![paragraphs[0]] + rest.push(Seq::empty()) == paragraphs.push(Seq::empty()));
    }
}

/// The speakers of a discussion are those of the paragraphs that were read, and of the empty
/// one behind the last, where no paragraph holds the mark between them.
pub proof fn law_speakers_are_of_paragraphs_read(
    section: SectionModel,
    paragraphs: Seq<Seq<char>>,
)
    requires
        section.discussion.len() == 0,
        forall|i: int|
            0 <= i < paragraphs.len() ==> !holds_text(#[trigger] paragraphs[i], "NEWPARAGRAPH"@),
    ensures
        discussion_speakers(after_paragraphs(section, paragraphs).discussion) == speakers_of(
            paragraphs.push(Seq::empty()),
        ),
{
    lemma_paragraphs_split(section, paragraphs);
}

/// Of two questions with the same Dutch announcement and discussion, what is kept differs in the
/// French topics alone.
pub proof fn law_french_gives_french_topics_alone(
    question_id: int,
    session_id: u32,
    meeting_id: u32,
    date: Seq<char>,
    a: ClosedModel,
    b: ClosedModel,
    cleaned: Seq<char>,
)
    requires
        a.nl == b.nl,
        a.discussion == b.discussion,
    ensures
        question_of(question_id, session_id, meeting_id, date, b, cleaned) == (QuestionModel {
            topics_fr: question_of(question_id, session_id, meeting_id, date, b, cleaned).topics_fr,
            ..question_of(question_id, session_id, meeting_id, date, a, cleaned)
        }),
{
}

/// The heading that an element is read as.
pub open spec fn heading_of(
    element: ElementModel,
    cleaned: spec_fn(Seq<char>) -> Seq<char>,
) -> Seq<char> {
    heading_text(cleaned(element.text()))
}

/// Whether two elements are the same, or headings that start with `Question de`, of which both
/// announce a hearing or neither does.
pub open spec fn same_but_for_french(
    a: ElementModel,
    b: ElementModel,
    cleaned: spec_fn(Seq<char>) -> Seq<char>,
) -> bool {
    ||| a == b
    ||| {
        &&& a.name == "h2"@ && b.name == "h2"@
        &&& stands_at(heading_of(a, cleaned), 0, "Question de"@)
        &&& stands_at(heading_of(b, cleaned), 0, "Question de"@)
        &&& announces_hearing(lowercase(heading_of(a, cleaned))) == announces_hearing(
            lowercase(heading_of(b, cleaned)),
        )
    }
}

/// A heading that starts with `Question de` is French, announces a question and is not blank.
pub proof fn law_question_de_is_french(heading: Seq<char>, lang: SectionLang)
    requires
        stands_at(heading, 0, "Question de"@),
    ensures
        language_after(lang, lowercase(heading)) == SectionLang::Fr,
        announces_question(heading),
        trimmed(heading).len() > 0,
{
    reveal_strlit("Question de");
    reveal_strlit("question");
    let start = heading.subrange(0, 11);
    assert(start == "Question de"@);
    assert(heading[0] == start[0]);
    lemma_trimmed_not_empty(heading);
    let lower = lowercase(heading);
    let capital = heading.take(8);
    assert forall|i: int| 0 <= i < 8 implies #[trigger] capital[i] <= '\u{ff}' && latin_lower(
        capital[i],
    ) == "question"@[i] by {
        assert(capital[i] == start[i]);
    }
    assert(heading.subrange(0, 8) == capital);
    assert(stands_at(heading, 0, capital));
    law_latin_part_in_lower_case(heading, capital);
    assert(latin_lowercase(capital) =~= "question"@);
    assert(holds_text(lower, french_words()[2]));
}

/// Whether two questions have the same Dutch announcement and discussion.
pub open spec fn same_dutch(a: ClosedModel, b: ClosedModel) -> bool {
    a.nl == b.nl && a.discussion == b.discussion
}

proof fn lemma_progress_same_but_for_french(
    a: Seq<ElementModel>,
    b: Seq<ElementModel>,
    cleaned: spec_fn(Seq<char>) -> Seq<char>,
)
    requires
        a.len() == b.len(),
        forall|i: int| 0 <= i < a.len() ==> same_but_for_french(#[trigger] a[i], b[i], cleaned),
    ensures
        ({
            let left = progress(a, cleaned);
            let right = progress(b, cleaned);
            &&& left.section.lang == right.section.lang
            &&& same_dutch(left.section.closed(), right.section.closed())
            &&& left.section.complete() == right.section.complete()
            &&& left.section.fr.len() == 0 <==> right.section.fr.len() == 0
            &&& left.closed.len() == right.closed.len()
            &&& forall|i: int|
                0 <= i < left.closed.len() ==> same_dutch(#[trigger] left.closed[i], right.closed[i])
        }),
    decreases a.len(),
{
    if a.len() > 0 {
        let rest_a = a.drop_last();
        let rest_b = b.drop_last();
        assert forall|i: int| 0 <= i < rest_a.len() implies same_but_for_french(
            #[trigger] rest_a[i],
            rest_b[i],
            cleaned,
        ) by {
            assert(rest_a[i] == a[i]);
        }
        lemma_progress_same_but_for_french(rest_a, rest_b, cleaned);
        assert(same_but_for_french(a[a.len() - 1], b[b.len() - 1], cleaned));
        if a.last() != b.last() {
            reveal_strlit("Question de");
            let lang = progress(rest_a, cleaned).section.lang;
            law_question_de_is_french(heading_of(a.last(), cleaned), lang);
            law_question_de_is_french(heading_of(b.last(), cleaned), lang);
        }
    }
}

/// Reports that differ in headings that start with `Question de` alone give as many questions,
/// each the same but for its French topics.
pub proof fn law_french_headings_change_french_topics_alone(
    a: Seq<ElementModel>,
    b: Seq<ElementModel>,
    session_id: u32,
    meeting_id: u32,
    date: Seq<char>,
    cleaned: spec_fn(Seq<char>) -> Seq<char>,
)
    requires
        a.len() == b.len(),
        forall|i: int| 0 <= i < a.len() ==> same_but_for_french(#[trigger] a[i], b[i], cleaned),
    ensures
        ({
            let left = questions_of(a, session_id, meeting_id, date, cleaned);
            let right = questions_of(b, session_id, meeting_id, date, cleaned);
            &&& left.len() == right.len()
            &&& forall|i: int|
                0 <= i < left.len() ==> #[trigger] right[i] == (QuestionModel {
                    topics_fr: right[i].topics_fr,
                    ..left[i]
                })
        }),
{
    lemma_progress_same_but_for_french(a, b, cleaned);
    let left = closed_questions(a, cleaned);
    let right = closed_questions(b, cleaned);
    assert forall|i: int| 0 <= i < left.len() implies same_dutch(#[trigger] left[i], right[i]) by {
        if i < progress(a, cleaned).closed.len() {
            assert(left[i] == progress(a, cleaned).closed[i]);
        }
    }
    assert forall|i: int| 0 <= i < left.len() implies #[trigger] questions_of(
        b,
        session_id,
        meeting_id,
        date,
        cleaned,
    )[i] == (QuestionModel {
        topics_fr: questions_of(b, session_id, meeting_id, date, cleaned)[i].topics_fr,
        ..questions_of(a, session_id, meeting_id, date, cleaned)[i]
    }) by {
        assert(same_dutch(left[i], right[i]));
    }
}

/// The discussion that is kept of a question is the JSON text of the contributions to its cleaned
/// discussion: where somebody said something, it is not an empty list.
pub proof fn law_discussion_is_kept(
    elements: Seq<ElementModel>,
    session_id: u32,
    meeting_id: u32,
    date: Seq<char>,
    cleaned: spec_fn(Seq<char>) -> Seq<char>,
    i: int,
)
    requires
        0 <= i < questions_of(elements, session_id, meeting_id, date, cleaned).len(),
    ensures
        questions_of(elements, session_id, meeting_id, date, cleaned).len() == closed_questions(
            elements,
            cleaned,
        ).len(),
        questions_of(elements, session_id, meeting_id, date, cleaned)[i].discussion
            == contributions_json(
            discussion_contributions(cleaned(closed_questions(elements, cleaned)[i].discussion)),
        ),
        discussion_contributions(cleaned(closed_questions(elements, cleaned)[i].discussion)).len()
            > 0 ==> questions_of(
            elements,
            session_id,
            meeting_id,
            date,
            cleaned,
        )[i].discussion != "[]"@,
{
    let list = discussion_contributions(
        cleaned(closed_questions(elements, cleaned)[i].discussion),
    );
    if list.len() > 0 && contributions_json(list) == "[]"@ {
        law_json_says_who_says_what(Seq::empty());
        law_contributions_read_back(list, Seq::empty());
    }
}

/// Who asks whom about what, who answers and the identifiers are kept of a question as they are
/// told: the people and the identifiers with commas between them, the topics with semicolons, the
/// Dutch ones from the Dutch announcement and the French ones from the French one.
pub proof fn law_people_and_topics_are_kept(
    elements: Seq<ElementModel>,
    session_id: u32,
    meeting_id: u32,
    date: Seq<char>,
    cleaned: spec_fn(Seq<char>) -> Seq<char>,
    i: int,
)
    requires
        0 <= i < questions_of(elements, session_id, meeting_id, date, cleaned).len(),
    ensures
        ({
            let question = questions_of(elements, session_id, meeting_id, date, cleaned)[i];
            let closed = closed_questions(elements, cleaned)[i];
            let dutch = subjects_of(announced_questions(closed.nl));
            let french = subjects_of(announced_questions(closed.fr));
            &&& question.questioners == joined(dutch.questioners, ","@)
            &&& question.questionees == joined(dutch.questionees, ","@)
            &&& question.respondents == joined(
                respondents_among(discussion_speakers(closed.discussion), dutch.questioners),
                ","@,
            )
            &&& question.topics_nl == joined(dutch.topics, ";"@)
            &&& question.topics_fr == joined(french.topics, ";"@)
            &&& question.internal_ids == joined(dutch.internal_ids, ","@)
            &&& question.question_id == i
            &&& question.session_id == session_id
            &&& question.meeting_id == meeting_id
            &&& question.date == date
        }),
{
}

/// A question with one questioner, one topic and one identifier is kept with just these.
pub proof fn law_single_question_is_kept_plain(
    question_id: int,
    session_id: u32,
    meeting_id: u32,
    date: Seq<char>,
    closed: ClosedModel,
    cleaned: Seq<char>,
)
    requires
        announced_questions(closed.nl).len() == 1,
        announced_questions(closed.fr).len() == 1,
    ensures
        ({
            let question = question_of(question_id, session_id, meeting_id, date, closed, cleaned);
            let dutch = announced_questions(closed.nl)[0];
            let french = announced_questions(closed.fr)[0];
            &&& question.questioners == asked_by(dutch.questioner)
            &&& dutch.questionee is None ==> question.questionees == "Onbekend"@
            &&& dutch.questionee matches Some(name) ==> question.questionees == trimmed(name)
            &&& question.topics_nl == trimmed(dutch.topic)
            &&& question.topics_fr == trimmed(french.topic)
            &&& question.internal_ids == seq!['Q'] + trimmed(dutch.number)
        }),
{
    reveal_strlit("Q");
    assert("Q"@ == seq!['Q']);
    reveal_with_fuel(subjects_of, 2);
    let dutch = announced_questions(closed.nl);
    let french = announced_questions(closed.fr);
    assert(dutch.drop_last().len() == 0);
    assert(french.drop_last().len() == 0);
}

/// A heading in lower case is French where it holds one of the French words for questions, else
/// Dutch where it holds one of the Dutch words, and else in the language before.
pub proof fn law_words_show_the_language(lang: SectionLang, lower: Seq<char>)
    ensures
        language_after(lang, lower) == (if holds_text(lower, "question"@) || holds_text(
            lower,
            "qestions jointes"@,
        ) {
            SectionLang::Fr
        } else if holds_text(lower, "vraag"@) || holds_text(lower, "samengevoegde vragen"@)
            || holds_text(lower, "toegevoegde vragen"@) || holds_text(
            lower,
            "interpellatie en vragen"@,
        ) || holds_text(lower, "interpellaties en vragen"@) {
            SectionLang::Nl
        } else {
            lang
        }),
{
    let french = french_words();
    let dutch = dutch_words();
    assert(french[1] == "qestions jointes"@ && french[2] == "question"@);
    assert(dutch[0] == "samengevoegde vragen"@ && dutch[1] == "toegevoegde vragen"@);
    assert(dutch[2] == "vraag"@);
    assert(dutch[7] == "interpellatie en vragen"@ && dutch[8] == "interpellaties en vragen"@);
    assert(holds_text(lower, french[0]) ==> holds_text(lower, "question"@)) by {
        reveal_strlit("questions jointes");
        reveal_strlit("question");
        assert("questions jointes"@.subrange(0, 8) =~= "question"@);
        lemma_word_within(lower, "questions jointes"@, "question"@, 0);
    }
    assert(holds_text(lower, french[3]) ==> holds_text(lower, "question"@)) by {
        reveal_strlit("questions et interpellation jointes");
        reveal_strlit("question");
        assert("questions et interpellation jointes"@.subrange(0, 8) =~= "question"@);
        lemma_word_within(lower, "questions et interpellation jointes"@, "question"@, 0);
    }
    assert(holds_text(lower, french[4]) ==> holds_text(lower, "question"@)) by {
        reveal_strlit("questions et interpellations jointes");
        reveal_strlit("question");
        assert("questions et interpellations jointes"@.subrange(0, 8) =~= "question"@);
        lemma_word_within(lower, "questions et interpellations jointes"@, "question"@, 0);
    }
    assert(holds_text(lower, french[5]) ==> holds_text(lower, "question"@)) by {
        reveal_strlit("interpellation et question jointes");
        reveal_strlit("question");
        assert("interpellation et question jointes"@.subrange(18, 26) =~= "question"@);
        lemma_word_within(lower, "interpellation et question jointes"@, "question"@, 18);
    }
    assert(holds_text(lower, french[6]) ==> holds_text(lower, "question"@)) by {
        reveal_strlit("interpellations et question jointes");
        reveal_strlit("question");
        assert("interpellations et question jointes"@.subrange(19, 27) =~= "question"@);
        lemma_word_within(lower, "interpellations et question jointes"@, "question"@, 19);
    }
    assert(holds_text(lower, french[7]) ==> holds_text(lower, "question"@)) by {
        reveal_strlit("interpellation et questions jointes");
        reveal_strlit("question");
        assert("interpellation et questions jointes"@.subrange(18, 26) =~= "question"@);
        lemma_word_within(lower, "interpellation et questions jointes"@, "question"@, 18);
    }
    assert(holds_text(lower, french[8]) ==> holds_text(lower, "question"@)) by {
        reveal_strlit("interpellations et questions jointes");
        reveal_strlit("question");
        assert("interpellations et questions jointes"@.subrange(19, 27) =~= "question"@);
        lemma_word_within(lower, "interpellations et questions jointes"@, "question"@, 19);
    }
    assert(holds_text(lower, dutch[3]) ==> holds_text(lower, "samengevoegde vragen"@)) by {
        reveal_strlit("samengevoegde vragen en interpellatie");
        reveal_strlit("samengevoegde vragen");
        assert("samengevoegde vragen en interpellatie"@.subrange(0, 20) =~= "samengevoegde vragen"@);
        lemma_word_within(lower, "samengevoegde vragen en interpellatie"@, "samengevoegde vragen"@, 0);
    }
    assert(holds_text(lower, dutch[4]) ==> holds_text(lower, "toegevoegde vragen"@)) by {
        reveal_strlit("toegevoegde vragen en interpellaties");
        reveal_strlit("toegevoegde vragen");
        assert("toegevoegde vragen en interpellaties"@.subrange(0, 18) =~= "toegevoegde vragen"@);
        lemma_word_within(lower, "toegevoegde vragen en interpellaties"@, "toegevoegde vragen"@, 0);
    }
    assert(holds_text(lower, dutch[5]) ==> holds_text(lower, "vraag"@)) by {
        reveal_strlit("interpellatie en vraag");
        reveal_strlit("vraag");
        assert("interpellatie en vraag"@.subrange(17, 22) =~= "vraag"@);
        lemma_word_within(lower, "interpellatie en vraag"@, "vraag"@, 17);
    }
    assert(holds_text(lower, dutch[6]) ==> holds_text(lower, "vraag"@)) by {
        reveal_strlit("interpellaties en vraag");
        reveal_strlit("vraag");
        assert("interpellaties en vraag"@.subrange(18, 23) =~= "vraag"@);
        lemma_word_within(lower, "interpellaties en vraag"@, "vraag"@, 18);
    }
    if holds_any(lower, french) {
        let k = choose|k: int| 0 <= k < french.len() && holds_text(lower, #[trigger] french[k]);
        assert(k == 0 || k == 1 || k == 2 || k == 3 || k == 4 || k == 5 || k == 6 || k == 7 || k == 8);
    }
    if holds_any(lower, dutch) {
        let k = choose|k: int| 0 <= k < dutch.len() && holds_text(lower, #[trigger] dutch[k]);
        assert(k == 0 || k == 1 || k == 2 || k == 3 || k == 4 || k == 5 || k == 6 || k == 7 || k == 8);
    }
}

/// What a heading that is not blank, with the lower case `lower`, does to what was read:
/// - a hearing takes all of it away;
/// - where a question was announced in both languages, one that starts with `Samengevoegde`,
///   `Vraag van` or `Question de`, or holds `toegevoegde vragen` or `jointes`, takes all of it
///   away and is the announcement in its language; else it takes the place of that announcement;
/// - one that starts with a dash is a further line of the announcement in its language;
/// - any other changes nothing.
pub proof fn law_headings_announce(section: SectionModel, heading: Seq<char>, lower: Seq<char>)
    requires
        trimmed(heading).len() > 0,
    ensures
        ({
            let lang = language_after(section.lang, lower);
            let after = section.after_heading(heading, lower);
            let both = section.nl.len() > 0 && section.fr.len() > 0;
            let none = Seq::<char>::empty();
            &&& after.lang == lang
            &&& if holds_text(lower, "hoorzitting"@) || holds_text(lower, "audition"@) {
                after.nl == none && after.fr == none && after.discussion == none
            } else if stands_at(heading, 0, "Samengevoegde"@) || holds_text(
                heading,
                "toegevoegde vragen"@,
            ) || holds_text(heading, "jointes"@) || stands_at(heading, 0, "Vraag van"@)
                || stands_at(heading, 0, "Question de"@) {
                &&& after.nl == (if lang == SectionLang::Nl {
                    heading
                } else if both {
                    none
                } else {
                    section.nl
                })
                &&& after.fr == (if lang == SectionLang::Fr {
                    heading
                } else if both {
                    none
                } else {
                    section.fr
                })
                &&& after.discussion == (if both {
                    none
                } else {
                    section.discussion
                })
            } else if stands_at(heading, 0, "-"@) {
                &&& after.nl == (if lang == SectionLang::Nl {
                    section.nl + seq!['\n'] + heading
                } else {
                    section.nl
                })
                &&& after.fr == (if lang == SectionLang::Fr {
                    section.fr + seq!['\n'] + heading
                } else {
                    section.fr
                })
                &&& after.discussion == section.discussion
            } else {
                after.nl == section.nl && after.fr == section.fr && after.discussion
                    == section.discussion
            }
        }),
{
    assert(section.nl.push('\n') + heading == section.nl + seq!['\n'] + heading);
    assert(section.fr.push('\n') + heading == section.fr + seq!['\n'] + heading);
}

/// A blank heading changes nothing and closes nothing. Any other closes what was read, if it
/// announces a hearing, a question or a group of questions and a question was announced in both
/// languages: nothing of it is lost. No other heading closes anything.
pub proof fn law_headings_close(section: SectionModel, heading: Seq<char>, lower: Seq<char>)
    ensures
        trimmed(heading).len() == 0 ==> section.after_heading(heading, lower) == section
            && section.closed_by(heading, lower) is None,
        section.nl.len() == 0 || section.fr.len() == 0 ==> section.closed_by(heading, lower) is None,
        trimmed(heading).len() > 0 && section.nl.len() > 0 && section.fr.len() > 0 && (holds_text(
            lower,
            "hoorzitting"@,
        ) || holds_text(lower, "audition"@) || stands_at(heading, 0, "Samengevoegde"@)
            || holds_text(heading, "toegevoegde vragen"@) || holds_text(heading, "jointes"@)
            || stands_at(heading, 0, "Vraag van"@) || stands_at(heading, 0, "Question de"@))
            ==> match section.closed_by(heading, lower) {
            Some(question) => question.nl == section.nl && question.fr == section.fr
                && question.discussion == section.discussion,
            None => false,
        },
        !holds_text(lower, "hoorzitting"@) && !holds_text(lower, "audition"@) && !stands_at(
            heading,
            0,
            "Samengevoegde"@,
        ) && !holds_text(heading, "toegevoegde vragen"@) && !holds_text(heading, "jointes"@)
            && !stands_at(heading, 0, "Vraag van"@) && !stands_at(heading, 0, "Question de"@)
            ==> section.closed_by(heading, lower) is None,
{
}

/// A report is read from its start, with Dutch as the language and nothing read, one element after
/// the other: a heading once it was cleaned, with single quotes for double ones, and a paragraph
/// that is not blank, repaired and then cleaned, behind what was said before, with the mark behind
/// it. Other elements do not count.
pub proof fn law_elements_are_read_in_order(
    elements: Seq<ElementModel>,
    element: ElementModel,
    cleaned: spec_fn(Seq<char>) -> Seq<char>,
)
    ensures
        progress(Seq::empty(), cleaned).closed.len() == 0,
        progress(Seq::empty(), cleaned).section.lang == SectionLang::Nl,
        progress(Seq::empty(), cleaned).section.nl.len() == 0,
        progress(Seq::empty(), cleaned).section.fr.len() == 0,
        progress(Seq::empty(), cleaned).section.discussion.len() == 0,
        ({
            let before = progress(elements, cleaned);
            let after = progress(elements.push(element), cleaned);
            let heading = repaired(
                joined(pieces(cleaned(joined(element.texts, " "@)), "\""@), "'"@),
            );
            let paragraph = trimmed(joined(element.texts, " "@));
            if element.name == "h2"@ {
                &&& after.section == before.section.after_heading(heading, lowercase(heading))
                &&& before.section.closed_by(heading, lowercase(heading)) is None ==> after.closed
                    == before.closed
                &&& before.section.closed_by(heading, lowercase(heading)) matches Some(question)
                    ==> after.closed == before.closed.push(question)
            } else if element.name == "p"@ && paragraph.len() > 0 {
                &&& after.closed == before.closed
                &&& after.section.lang == before.section.lang
                &&& after.section.nl == before.section.nl
                &&& after.section.fr == before.section.fr
                &&& after.section.discussion == before.section.discussion + cleaned(
                    repaired(paragraph),
                ) + "NEWPARAGRAPH"@
            } else {
                after == before
            }
        }),
{
    reveal_strlit("\"");
    assert(elements.push(element).drop_last() == elements);
    law_replacing_is_splitting_and_joining(
        cleaned(joined(element.texts, " "@)),
        "\""@,
        "'"@,
    );
}

/// The end of a report closes the last question, if it was announced in both languages; what was
/// closed before stays.
pub proof fn law_end_closes_the_last_question(
    elements: Seq<ElementModel>,
    cleaned: spec_fn(Seq<char>) -> Seq<char>,
)
    ensures
        ({
            let end = progress(elements, cleaned);
            let all = closed_questions(elements, cleaned);
            if end.section.nl.len() > 0 && end.section.fr.len() > 0 {
                &&& all.len() == end.closed.len() + 1
                &&& all.drop_last() == end.closed
                &&& all.last().nl == end.section.nl
                &&& all.last().fr == end.section.fr
                &&& all.last().discussion == end.section.discussion
            } else {
                all == end.closed
            }
        }),
{
    let end = progress(elements, cleaned);
    assert(end.closed.push(end.section.closed()).drop_last() == end.closed);
}

} // verus!
