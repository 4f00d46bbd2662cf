//! What the headings of a question and its discussion tell.

use crate::cleaning::{cleans_all, may_clean};
use crate::discussion::{
    contributions_json, discussion_contributions, discussion_json, get_discussion_json,
};
use crate::error::ScrapeError;
use crate::pattern::{
    all_found, always_set, find_all, lies_in, optional_text, pattern_matches,
    question_number, Found, FoundModel, QUESTION,
};
use crate::speakers::{
    add_new, discussion_speakers, extract_speakers_from_discussion, law_speakers_are_distinct,
    lemma_with_new, with_new,
};
use crate::text::{
    all_unquoted, free_of, holds_text, is_listed, joined, law_replacing_is_splitting_and_joining,
    law_split_at_separator, lemma_join_then_split, lemma_joined_front, lemma_nothing_to_replace,
    lemma_part_free, lemma_replaced_free, lemma_single_piece, lemma_trimmed_ends,
    lemma_trimmed_is_part, pieces, replace, replaced, texts, trim, trimmed, unquoted, white_space,
};
use vstd::prelude::*;

verus! {

/// A question as a heading announces it.
pub struct QuestionCapture {
    pub questioner: String,
    pub questionee: Option<String>,
    pub topic: String,
    pub number: String,
}

/// The model of a [`QuestionCapture`].
#[verifier::ext_equal]
pub struct QuestionCaptureModel {
    pub questioner: Seq<char>,
    pub questionee: Option<Seq<char>>,
    pub topic: Seq<char>,
    pub number: Seq<char>,
}

impl View for QuestionCapture {
    type V = QuestionCaptureModel;

    open spec fn view(&self) -> QuestionCaptureModel {
        QuestionCaptureModel {
            questioner: self.questioner@,
            questionee: optional_text(self.questionee),
            topic: self.topic@,
            number: self.number@,
        }
    }
}

/// The models of a list of announced questions.
pub open spec fn all_captures(list: Seq<QuestionCapture>) -> Seq<QuestionCaptureModel> {
    Seq::new(list.len(), |i: int| list[i]@)
}

/// Who asks whom about what.
pub struct Subjects {
    pub questioners: Vec<String>,
    pub questionees: Vec<String>,
    pub topics: Vec<String>,
    pub internal_ids: Vec<String>,
}

/// The model of [`Subjects`].
#[verifier::ext_equal]
pub struct SubjectsModel {
    pub questioners: Seq<Seq<char>>,
    pub questionees: Seq<Seq<char>>,
    pub topics: Seq<Seq<char>>,
    pub internal_ids: Seq<Seq<char>>,
}

impl View for Subjects {
    type V = SubjectsModel;

    open spec fn view(&self) -> SubjectsModel {
        SubjectsModel {
            questioners: texts(self.questioners@),
            questionees: texts(self.questionees@),
            topics: texts(self.topics@),
            internal_ids: texts(self.internal_ids@),
        }
    }
}

/// What is known of a question in one language.
pub struct QuestionData {
    pub questioners: Vec<String>,
    pub questionees: Vec<String>,
    pub respondents: Vec<String>,
    pub topics: Vec<String>,
    pub discussion: String,
    pub internal_ids: Vec<String>,
}

/// The model of [`QuestionData`].
#[verifier::ext_equal]
pub struct QuestionDataModel {
    pub questioners: Seq<Seq<char>>,
    pub questionees: Seq<Seq<char>>,
    pub respondents: Seq<Seq<char>>,
    pub topics: Seq<Seq<char>>,
    pub discussion: Seq<char>,
    pub internal_ids: Seq<Seq<char>>,
}

impl View for QuestionData {
    type V = QuestionDataModel;

    open spec fn view(&self) -> QuestionDataModel {
        QuestionDataModel {
            questioners: texts(self.questioners@),
            questionees: texts(self.questionees@),
            respondents: texts(self.respondents@),
            topics: texts(self.topics@),
            discussion: self.discussion@,
            internal_ids: texts(self.internal_ids@),
        }
    }
}

/// The question that a match announces.
pub open spec fn capture_of(found: FoundModel) -> QuestionCaptureModel {
    QuestionCaptureModel {
        questioner: found.group(1)->Some_0,
        questionee: found.group(2),
        topic: found.group(3)->Some_0,
        number: found.group(4)->Some_0,
    }
}

/// The questions that a heading announces.
pub open spec fn announced_questions(question: Seq<char>) -> Seq<QuestionCaptureModel> {
    pattern_matches(QUESTION@, question).map_values(|found: FoundModel| capture_of(found))
}

/// Who asks: without the dash of a list and without `de heer`.
pub open spec fn asked_by(questioner: Seq<char>) -> Seq<char> {
    trimmed(replaced(replaced(trimmed(questioner), "- "@, ""@), "de heer "@, ""@))
}

/// Who is asked, or that nobody is known to be.
pub open spec fn asked_of(questionee: Option<Seq<char>>) -> Seq<char> {
    match questionee {
        Some(name) => trimmed(name),
        None => "Onbekend"@,
    }
}

/// The identifier of the question with a number.
pub open spec fn dossier_id(number: Seq<char>) -> Seq<char> {
    "Q"@ + trimmed(number)
}

/// Who asks whom about what in the announced questions. A question that is announced
/// again counts once, and a person who is asked several times is named once.
pub open spec fn subjects_of(captures: Seq<QuestionCaptureModel>) -> SubjectsModel
    decreases captures.len(),
{
    if captures.len() == 0 {
        SubjectsModel {
            questioners: Seq::empty(),
            questionees: Seq::empty(),
            topics: Seq::empty(),
            internal_ids: Seq::empty(),
        }
    } else {
        let before = subjects_of(captures.drop_last());
        let capture = captures.last();
        if before.internal_ids.contains(dossier_id(capture.number)) {
            before
        } else {
            SubjectsModel {
                questioners: before.questioners.push(asked_by(capture.questioner)),
                questionees: with_new(before.questionees, asked_of(capture.questionee)),
                topics: before.topics.push(trimmed(capture.topic)),
                internal_ids: before.internal_ids.push(dossier_id(capture.number)),
            }
        }
    }
}

/// Those of `speakers` who are not among the `questioners`, in their order.
pub open spec fn respondents_among(
    speakers: Seq<Seq<char>>,
    questioners: Seq<Seq<char>>,
) -> Seq<Seq<char>>
    decreases speakers.len(),
{
    if speakers.len() == 0 {
        Seq::empty()
    } else {
        let before = respondents_among(speakers.drop_last(), questioners);
        if questioners.contains(speakers.last()) {
            before
        } else {
            before.push(speakers.last())
        }
    }
}

/// What is known of the announced questions, whose discussion had the given speakers and
/// the given JSON text.
pub open spec fn data_of(
    captures: Seq<QuestionCaptureModel>,
    speakers: Seq<Seq<char>>,
    json: Seq<char>,
) -> QuestionDataModel {
    let subjects = subjects_of(captures);
    QuestionDataModel {
        questioners: subjects.questioners,
        questionees: subjects.questionees,
        respondents: respondents_among(speakers, subjects.questioners),
        topics: subjects.topics,
        discussion: json,
        internal_ids: subjects.internal_ids,
    }
}

/// What a heading and a discussion tell of a question, where `cleaned` is the discussion
/// once it was cleaned.
pub open spec fn question_data(
    question: Seq<char>,
    discussion: Seq<char>,
    cleaned: Seq<char>,
) -> QuestionDataModel {
    data_of(
        announced_questions(question),
        discussion_speakers(discussion),
        discussion_json(cleaned),
    )
}

/// Whether nothing that a heading says of a question holds a double quote.
pub open spec fn capture_unquoted(capture: QuestionCaptureModel) -> bool {
    &&& unquoted(capture.questioner)
    &&& capture.questionee matches Some(name) ==> unquoted(name)
    &&& unquoted(capture.topic)
    &&& unquoted(capture.number)
}

/// Whether nothing that is taken from the headings of a question holds a double quote.
pub open spec fn data_unquoted(data: QuestionDataModel) -> bool {
    &&& all_unquoted(data.questioners)
    &&& all_unquoted(data.questionees)
    &&& all_unquoted(data.topics)
    &&& all_unquoted(data.internal_ids)
}

/// Whether `id` has the shape of an identifier: a `Q` and the number of a question.
pub open spec fn identifier(id: Seq<char>) -> bool {
    id.len() > 0 && id[0] == 'Q' && question_number(id.skip(1))
}

/// Whether all of the texts have the shape of identifiers.
pub open spec fn all_identifiers(ids: Seq<Seq<char>>) -> bool {
    forall|i: int| 0 <= i < ids.len() ==> identifier(#[trigger] ids[i])
}

/// Whether `s` is a list of different identifiers, joined with commas.
pub open spec fn joined_identifiers(s: Seq<char>) -> bool {
    exists|ids: Seq<Seq<char>>| #[trigger]
        all_identifiers(ids) && ids.no_duplicates() && s == joined(ids, ","@)
}

/// The question that a match announces.
pub fn question_capture(found: &Found) -> (r: QuestionCapture)
    requires
        found@.group(1) is Some,
        found@.group(3) is Some,
        found@.group(4) is Some,
    ensures
        r@ == capture_of(found@),
{
    let questionee = match found.group(2) {
        Some(name) => Some(name.clone()),
        None => None,
    };
    let mut questioner = String::new();
    if let Some(text) = found.group(1) {
        questioner = text.clone();
    }
    let mut topic = String::new();
    if let Some(text) = found.group(3) {
        topic = text.clone();
    }
    let mut number = String::new();
    if let Some(text) = found.group(4) {
        number = text.clone();
    }
    QuestionCapture { questioner, questionee, topic, number }
}

/// The questions that a heading announces.
pub fn find_questions(question_text: &str) -> (r: Vec<QuestionCapture>)
    ensures
        all_captures(r@) == announced_questions(question_text@),
        unquoted(question_text@) ==> forall|i: int|
            0 <= i < r@.len() ==> capture_unquoted(#[trigger] all_captures(r@)[i]),
        forall|i: int|
            0 <= i < r@.len() ==> question_number((#[trigger] all_captures(r@)[i]).number),
{
    let found = find_all(QUESTION, question_text);
    let ghost all = pattern_matches(QUESTION@, question_text@);
    let mut captures: Vec<QuestionCapture> = Vec::new();
    let mut i: usize = 0;
    while i < found.len()
        invariant
            all == all_found(found@),
            forall|j: int, g: int|
                0 <= j < found@.len() && always_set(QUESTION@, g) ==> (#[trigger] found@[j]@.group(
                    g,
                )) is Some,
            forall|j: int|
                0 <= j < found@.len() ==> question_number((#[trigger] found@[j])@.group(4)->Some_0),
            i <= found.len(),
            captures@.len() == i,
            forall|j: int| 0 <= j < i ==> (#[trigger] captures@[j])@ == capture_of(all[j]),
        decreases found.len() - i,
    {
        assert(found@[i as int]@.group(1) is Some);
        assert(found@[i as int]@.group(3) is Some);
        assert(found@[i as int]@.group(4) is Some);
        captures.push(question_capture(&found[i]));
        i += 1;
    }
    assert(all_captures(captures@) =~= announced_questions(question_text@));
    proof {
        assert forall|j: int| 0 <= j < captures@.len() implies question_number(
            (#[trigger] all_captures(captures@)[j]).number,
        ) by {
            assert(captures@[j]@ == capture_of(all[j]));
            assert(found@[j]@ == all[j]);
        }
        if unquoted(question_text@) {
            assert forall|j: int| 0 <= j < captures@.len() implies capture_unquoted(
                #[trigger] all_captures(captures@)[j],
            ) by {
                assert(lies_in(question_text@, all[j]));
                assert(found@[j]@.group(1) is Some);
                assert(found@[j]@.group(3) is Some);
                assert(found@[j]@.group(4) is Some);
                lemma_part_free(question_text@, all[j].group(1)->Some_0, '"');
                if let Some(name) = all[j].group(2) {
                    lemma_part_free(question_text@, name, '"');
                }
                lemma_part_free(question_text@, all[j].group(3)->Some_0, '"');
                lemma_part_free(question_text@, all[j].group(4)->Some_0, '"');
            }
        }
    }
    captures
}

/// Who asks whom about what in the announced questions.
pub fn collect_subjects(captures: &Vec<QuestionCapture>) -> (r: Subjects)
    ensures
        r@ == subjects_of(all_captures(captures@)),
{
    proof {
        reveal_strlit("- ");
        reveal_strlit("de heer ");
    }
    let ghost all = all_captures(captures@);
    let mut r = Subjects {
        questioners: Vec::new(),
        questionees: Vec::new(),
        topics: Vec::new(),
        internal_ids: Vec::new(),
    };
    let mut i: usize = 0;
    assert(r@ =~= subjects_of(all.take(0)));
    while i < captures.len()
        invariant
            "- "@.len() > 0,
            "de heer "@.len() > 0,
            all == all_captures(captures@),
            i <= captures.len(),
            r@ == subjects_of(all.take(i as int)),
        decreases captures.len() - i,
    {
        let capture = &captures[i];
        let ghost before = r@;
        proof {
            assert(all.take(i + 1).drop_last() == all.take(i as int));
            assert(all.take(i + 1).last() == capture@);
        }
        let mut id = "Q".to_owned();
        id.append(trim(capture.number.as_str()));
        if !is_listed(&r.internal_ids, &id) {
            let plain = replace(trim(capture.questioner.as_str()), "- ", "");
            let untitled = replace(plain.as_str(), "de heer ", "");
            let questioner = trim(untitled.as_str()).to_owned();
            let questionee = match &capture.questionee {
                Some(name) => trim(name.as_str()).to_owned(),
                None => "Onbekend".to_owned(),
            };
            let topic = trim(capture.topic.as_str()).to_owned();
            r.questioners.push(questioner);
            add_new(&mut r.questionees, questionee);
            r.internal_ids.push(id);
            r.topics.push(topic);
            proof {
                assert(r@.questioners =~= before.questioners.push(asked_by(capture@.questioner)));
                assert(r@.internal_ids =~= before.internal_ids.push(dossier_id(capture@.number)));
                assert(r@.topics =~= before.topics.push(trimmed(capture@.topic)));
            }
        }
        i += 1;
    }
    assert(all.take(i as int) == all);
    r
}

/// Those of `speakers` who are not among the `questioners`.
pub fn select_respondents(speakers: &Vec<String>, questioners: &Vec<String>) -> (r: Vec<String>)
    ensures
        texts(r@) == respondents_among(texts(speakers@), texts(questioners@)),
{
    let ghost all = texts(speakers@);
    let mut r: Vec<String> = Vec::new();
    let mut i: usize = 0;
    assert(texts(r@) == respondents_among(all.take(0), texts(questioners@)));
    while i < speakers.len()
        invariant
            all == texts(speakers@),
            i <= speakers.len(),
            texts(r@) == respondents_among(all.take(i as int), texts(questioners@)),
        decreases speakers.len() - i,
    {
        let ghost before = texts(r@);
        proof {
            assert(all.take(i + 1).drop_last() == all.take(i as int));
            assert(all.take(i + 1).last() == speakers@[i as int]@);
        }
        if !is_listed(questioners, &speakers[i]) {
            r.push(speakers[i].clone());
            assert(texts(r@) == before.push(speakers@[i as int]@));
        }
        i += 1;
    }
    assert(all.take(i as int) == all);
    r
}

/// What is known of the announced questions, whose discussion had the given speakers and
/// the given JSON text.
pub fn assemble_question_data(
    captures: &Vec<QuestionCapture>,
    speakers: &Vec<String>,
    discussion: String,
) -> (r: QuestionData)
    ensures
        r@ == data_of(all_captures(captures@), texts(speakers@), discussion@),
{
    let subjects = collect_subjects(captures);
    // Who answers may differ from who is asked, so it is taken from the discussion.
    let respondents = select_respondents(speakers, &subjects.questioners);
    QuestionData {
        questioners: subjects.questioners,
        questionees: subjects.questionees,
        respondents,
        topics: subjects.topics,
        discussion,
        internal_ids: subjects.internal_ids,
    }
}

/// What a heading and a discussion, which `clean_text` cleans, tell of a question.
pub fn extract_question_data<F: Fn(&str) -> String>(
    question_text: &str,
    discussion_text: &str,
    clean_text: &F,
) -> (r: Result<QuestionData, ScrapeError>)
    requires
        cleans_all(*clean_text),
    ensures
        r is Ok,
        exists|cleaned: Seq<char>| #[trigger]
            may_clean(*clean_text, discussion_text@, cleaned) && r->Ok_0@ == question_data(
                question_text@,
                discussion_text@,
                cleaned,
            ),
        unquoted(question_text@) ==> data_unquoted(r->Ok_0@),
        all_identifiers(r->Ok_0@.internal_ids),
        r->Ok_0@.internal_ids.no_duplicates(),
{
    let captures = find_questions(question_text);
    proof {
        law_identifiers_have_one_shape(all_captures(captures@));
        law_each_question_counts_once(all_captures(captures@));
        if unquoted(question_text@) {
            law_unquoted_headings_give_unquoted_data(all_captures(captures@));
        }
    }
    let speakers = extract_speakers_from_discussion(discussion_text);
    let discussion = get_discussion_json(discussion_text, clean_text);
    Ok(assemble_question_data(&captures, &speakers, discussion))
}

/// Every question counts once: no identifier comes twice, and to each there is one
/// questioner and one topic. Nobody is named twice among those who are asked; they are no more
/// than the questions, and somebody is asked where there is a question.
pub proof fn law_each_question_counts_once(captures: Seq<QuestionCaptureModel>)
    ensures
        subjects_of(captures).internal_ids.no_duplicates(),
        subjects_of(captures).questionees.no_duplicates(),
        subjects_of(captures).questioners.len() == subjects_of(captures).internal_ids.len(),
        subjects_of(captures).topics.len() == subjects_of(captures).internal_ids.len(),
        subjects_of(captures).questionees.len() <= subjects_of(captures).internal_ids.len(),
        subjects_of(captures).questionees.len() == 0 <==> subjects_of(captures).internal_ids.len()
            == 0,
    decreases captures.len(),
{
    if captures.len() > 0 {
        law_each_question_counts_once(captures.drop_last());
    }
}

/// Where no heading says anything with a double quote in it, none is kept.
pub proof fn law_unquoted_headings_give_unquoted_data(captures: Seq<QuestionCaptureModel>)
    requires
        forall|i: int| 0 <= i < captures.len() ==> capture_unquoted(#[trigger] captures[i]),
    ensures
        all_unquoted(subjects_of(captures).questioners),
        all_unquoted(subjects_of(captures).questionees),
        all_unquoted(subjects_of(captures).topics),
        all_unquoted(subjects_of(captures).internal_ids),
    decreases captures.len(),
{
    if captures.len() > 0 {
        law_unquoted_headings_give_unquoted_data(captures.drop_last());
        let capture = captures.last();
        assert(capture_unquoted(captures[captures.len() - 1]));
        reveal_strlit("");
        reveal_strlit("Onbekend");
        reveal_strlit("Q");
        let bare = trimmed(capture.questioner);
        let undashed = replaced(bare, "- "@, ""@);
        let named = replaced(undashed, "de heer "@, ""@);
        lemma_trimmed_is_part(capture.questioner);
        lemma_part_free(capture.questioner, bare, '"');
        lemma_replaced_free(bare, "- "@, ""@, '"');
        lemma_replaced_free(undashed, "de heer "@, ""@, '"');
        lemma_trimmed_is_part(named);
        lemma_part_free(named, trimmed(named), '"');
        if let Some(name) = capture.questionee {
            lemma_trimmed_is_part(name);
            lemma_part_free(name, trimmed(name), '"');
        }
        lemma_trimmed_is_part(capture.topic);
        lemma_part_free(capture.topic, trimmed(capture.topic), '"');
        lemma_trimmed_is_part(capture.number);
        lemma_part_free(capture.number, trimmed(capture.number), '"');
        assert(unquoted(dossier_id(capture.number)));
    }
}

/// Where every announced question has a number, every identifier is a `Q` and such a number.
pub proof fn law_identifiers_have_one_shape(captures: Seq<QuestionCaptureModel>)
    requires
        forall|i: int| 0 <= i < captures.len() ==> question_number((#[trigger] captures[i]).number),
    ensures
        all_identifiers(subjects_of(captures).internal_ids),
    decreases captures.len(),
{
    if captures.len() > 0 {
        law_identifiers_have_one_shape(captures.drop_last());
        let number = captures.last().number;
        assert(question_number(captures[captures.len() - 1].number));
        reveal_strlit("Q");
        assert(!white_space(number[0]));
        assert(!white_space(number[number.len() - 1]));
        assert(trimmed(number) == number);
        assert(dossier_id(number).skip(1) == number);
    }
}

/// Identifiers that were joined can be told apart again: split at the commas, they are the same.
pub proof fn law_identifiers_read_back(ids: Seq<Seq<char>>)
    requires
        ids.len() > 0,
        all_identifiers(ids),
    ensures
        pieces(joined(ids, ","@), ","@) == ids,
{
    reveal_strlit(",");
    assert forall|i: int| 0 <= i < ids.len() implies free_of(#[trigger] ids[i], ',') by {
        let id = ids[i];
        assert(identifier(id));
        assert forall|j: int| 0 <= j < id.len() implies #[trigger] id[j] != ',' by {
            if j > 0 {
                assert(id[j] == id.skip(1)[j - 1]);
                if j == id.len() - 1 {
                    assert(id[j] == id.skip(1).last());
                }
            }
        }
    }
    assert(","@ == seq![',']);
    lemma_join_then_split(ids, ',');
}

/// Every announced question has its identifier listed.
pub proof fn law_no_question_is_lost(captures: Seq<QuestionCaptureModel>, i: int)
    requires
        0 <= i < captures.len(),
    ensures
        subjects_of(captures).internal_ids.contains(dossier_id(captures[i].number)),
    decreases captures.len(),
{
    let before = subjects_of(captures.drop_last());
    let id = dossier_id(captures[i].number);
    let longer = before.internal_ids.push(dossier_id(captures.last().number));
    if i == captures.len() - 1 {
        assert(longer[before.internal_ids.len() as int] == id);
    } else {
        law_no_question_is_lost(captures.drop_last(), i);
        let k = choose|k: int|
            0 <= k < before.internal_ids.len() && before.internal_ids[k] == id;
        assert(longer[k] == id);
    }
}

/// An announcement that repeats the number of an earlier one changes nothing.
pub proof fn law_repeated_question_is_ignored(
    captures: Seq<QuestionCaptureModel>,
    i: int,
    again: QuestionCaptureModel,
)
    requires
        0 <= i < captures.len(),
        dossier_id(again.number) == dossier_id(captures[i].number),
    ensures
        subjects_of(captures.push(again)) == subjects_of(captures),
{
    law_no_question_is_lost(captures, i);
    assert(captures.push(again).drop_last() == captures);
}

/// Those who answer are the speakers who ask nothing.
pub proof fn law_respondents_do_not_ask(
    speakers: Seq<Seq<char>>,
    questioners: Seq<Seq<char>>,
    name: Seq<char>,
)
    ensures
        respondents_among(speakers, questioners).contains(name) <==> speakers.contains(name)
            && !questioners.contains(name),
    decreases speakers.len(),
{
    if speakers.len() > 0 {
        let rest = speakers.drop_last();
        let before = respondents_among(rest, questioners);
        law_respondents_do_not_ask(rest, questioners, name);
        assert(speakers == rest.push(speakers.last()));
        assert(speakers.contains(name) <==> rest.contains(name) || name == speakers.last()) by {
            lemma_push_contains(rest, speakers.last(), name);
        }
        lemma_push_contains(before, speakers.last(), name);
    }
}

proof fn lemma_push_contains(list: Seq<Seq<char>>, new: Seq<char>, name: Seq<char>)
    ensures
        list.push(new).contains(name) <==> list.contains(name) || name == new,
{
    assert(list.push(new)[list.len() as int] == new);
    if list.contains(name) {
        let i = choose|i: int| 0 <= i < list.len() && list[i] == name;
        assert(list.push(new)[i] == name);
    }
}

/// Nobody is named twice among those who answer.
pub proof fn law_respondents_are_distinct(discussion: Seq<char>, questioners: Seq<Seq<char>>)
    ensures
        respondents_among(discussion_speakers(discussion), questioners).no_duplicates(),
{
    law_speakers_are_distinct(pieces(discussion, "NEWPARAGRAPH"@));
    lemma_respondents_distinct(discussion_speakers(discussion), questioners);
}

proof fn lemma_respondents_distinct(speakers: Seq<Seq<char>>, questioners: Seq<Seq<char>>)
    requires
        speakers.no_duplicates(),
    ensures
        respondents_among(speakers, questioners).no_duplicates(),
    decreases speakers.len(),
{
    if speakers.len() > 0 {
        let rest = speakers.drop_last();
        lemma_respondents_distinct(rest, questioners);
        law_respondents_do_not_ask(rest, questioners, speakers.last());
        assert(!rest.contains(speakers.last()));
    }
}

/// A questioner's name without the dash of a list and without `de heer` is kept as it is, but for
/// the white space around it: hyphens within a name stay.
pub proof fn law_questioner_is_kept(questioner: Seq<char>)
    requires
        !holds_text(trimmed(questioner), "- "@),
        !holds_text(trimmed(questioner), "de heer "@),
    ensures
        asked_by(questioner) == trimmed(questioner),
{
    lemma_nothing_to_replace(trimmed(questioner), "- "@, ""@);
    lemma_nothing_to_replace(trimmed(questioner), "de heer "@, ""@);
    lemma_trimmed_ends(questioner);
}

/// The dash of a list in front of a questioner's name is not kept, and the name is.
pub proof fn law_dash_is_no_part_of_the_name(name: Seq<char>)
    requires
        name.len() > 0,
        trimmed("- "@ + name) == "- "@ + name,
        trimmed(name) == name,
        !holds_text(name, "- "@),
        !holds_text(name, "de heer "@),
    ensures
        asked_by("- "@ + name) == name,
{
    reveal_strlit("");
    reveal_strlit("- ");
    assert(""@ == Seq::<char>::empty());
    lemma_front_left_out("- "@, name);
    lemma_nothing_to_replace(name, "de heer "@, ""@);
}

/// `de heer` in front of a questioner's name is not kept, and the name is.
pub proof fn law_de_heer_is_no_part_of_the_name(name: Seq<char>)
    requires
        name.len() > 0,
        trimmed("de heer "@ + name) == "de heer "@ + name,
        trimmed(name) == name,
        !holds_text("de heer "@ + name, "- "@),
        !holds_text(name, "de heer "@),
    ensures
        asked_by("de heer "@ + name) == name,
{
    reveal_strlit("");
    reveal_strlit("de heer ");
    assert(""@ == Seq::<char>::empty());
    lemma_nothing_to_replace("de heer "@ + name, "- "@, ""@);
    lemma_front_left_out("de heer "@, name);
}

proof fn lemma_front_left_out(front: Seq<char>, name: Seq<char>)
    requires
        front.len() > 0,
        forall|i: int| 0 < i < front.len() ==> #[trigger] front[i] != front[0],
        !holds_text(name, front),
    ensures
        replaced(front + name, front, Seq::empty()) == name,
{
    let none = Seq::<char>::empty();
    assert(none + front + name == front + name);
    law_replacing_is_splitting_and_joining(front + name, front, none);
    law_split_at_separator(none, front, name);
    lemma_single_piece(name, front);
    assert(pieces(none, front) == seq![none]);
    lemma_joined_front(none, seq![name], none);
    assert(joined(seq![name], none) == name);
    assert(none + none + name == name);
}

/// The first announcement of a question gives its identifier, who asks it and its topic, in the
/// same place of the three lists, and who is asked is listed.
pub proof fn law_first_announcement_counts(captures: Seq<QuestionCaptureModel>, i: int)
    requires
        0 <= i < captures.len(),
        forall|j: int|
            0 <= j < i ==> trimmed((#[trigger] captures[j]).number) != trimmed(captures[i].number),
    ensures
        exists|k: int| #[trigger] announced_at(captures, i, k),
        captures[i].questionee is None ==> subjects_of(captures).questionees.contains("Onbekend"@),
        captures[i].questionee matches Some(name) ==> subjects_of(captures).questionees.contains(
            trimmed(name),
        ),
    decreases captures.len(),
{
    reveal_strlit("Q");
    assert("Q"@ == seq!['Q']);
    let rest = captures.drop_last();
    let before = subjects_of(rest);
    let id = dossier_id(captures[i].number);
    if i < captures.len() - 1 {
        assert(rest[i] == captures[i]);
        assert forall|j: int| 0 <= j < i implies trimmed((#[trigger] rest[j]).number) != trimmed(
            rest[i].number,
        ) by {
            assert(rest[j] == captures[j]);
        }
        law_first_announcement_counts(rest, i);
        law_each_question_counts_once(rest);
        let k = choose|k: int| #[trigger] announced_at(rest, i, k);
        assert(announced_at(captures, i, k));
        lemma_with_new(
            before.questionees,
            asked_of(captures.last().questionee),
            asked_of(captures[i].questionee),
        );
    } else {
        assert(!before.internal_ids.contains(id)) by {
            if before.internal_ids.contains(id) {
                lemma_identifier_comes_from(rest, id);
                let j = choose|j: int|
                    0 <= j < rest.len() && dossier_id((#[trigger] rest[j]).number) == id;
                assert(rest[j] == captures[j]);
                assert(id.skip(1) == trimmed(captures[i].number));
                assert(dossier_id(captures[j].number).skip(1) == trimmed(captures[j].number));
            }
        }
        law_each_question_counts_once(rest);
        assert(announced_at(captures, i, before.internal_ids.len() as int));
        lemma_with_new(
            before.questionees,
            asked_of(captures[i].questionee),
            asked_of(captures[i].questionee),
        );
    }
}

/// Whether the announced question `i` has its identifier, who asks it and its topic in the place
/// `k` of the lists.
pub open spec fn announced_at(captures: Seq<QuestionCaptureModel>, i: int, k: int) -> bool {
    let subjects = subjects_of(captures);
    &&& 0 <= k < subjects.internal_ids.len()
    &&& k < subjects.questioners.len()
    &&& k < subjects.topics.len()
    &&& subjects.internal_ids[k] == seq!['Q'] + trimmed(captures[i].number)
    &&& subjects.questioners[k] == asked_by(captures[i].questioner)
    &&& subjects.topics[k] == trimmed(captures[i].topic)
}

proof fn lemma_identifier_comes_from(captures: Seq<QuestionCaptureModel>, id: Seq<char>)
    requires
        subjects_of(captures).internal_ids.contains(id),
    ensures
        exists|j: int| 0 <= j < captures.len() && dossier_id((#[trigger] captures[j]).number) == id,
    decreases captures.len(),
{
    if captures.len() > 0 {
        let rest = captures.drop_last();
        let before = subjects_of(rest).internal_ids;
        if before.contains(id) {
            lemma_identifier_comes_from(rest, id);
            let j = choose|j: int|
                0 <= j < rest.len() && dossier_id((#[trigger] rest[j]).number) == id;
            assert(captures[j] == rest[j]);
        } else {
            let all = subjects_of(captures).internal_ids;
            let k = choose|k: int| 0 <= k < all.len() && all[k] == id;
            if k < before.len() {
                assert(before[k] == id);
            }
            assert(dossier_id(captures[captures.len() - 1].number) == id);
        }
    }
}

/// What was listed stays where it is when a further question is announced.
pub proof fn law_questions_keep_their_order(
    captures: Seq<QuestionCaptureModel>,
    next: QuestionCaptureModel,
)
    ensures
        subjects_of(captures).internal_ids.is_prefix_of(
            subjects_of(captures.push(next)).internal_ids,
        ),
        subjects_of(captures).questioners.is_prefix_of(
            subjects_of(captures.push(next)).questioners,
        ),
        subjects_of(captures).topics.is_prefix_of(subjects_of(captures.push(next)).topics),
        subjects_of(captures).questionees.is_prefix_of(
            subjects_of(captures.push(next)).questionees,
        ),
{
    assert(captures.push(next).drop_last() == captures);
}

/// Those who answer come in the order in which they speak.
pub proof fn law_respondents_keep_their_order(
    a: Seq<Seq<char>>,
    b: Seq<Seq<char>>,
    questioners: Seq<Seq<char>>,
)
    ensures
        respondents_among(a + b, questioners) == respondents_among(a, questioners)
            + respondents_among(b, questioners),
    decreases b.len(),
{
    if b.len() == 0 {
        assert(a + b == a);
        assert(respondents_among(a, questioners) + respondents_among(b, questioners)
            == respondents_among(a, questioners));
    } else {
        assert((a + b).drop_last() == a + b.drop_last());
        assert((a + b).last() == b.last());
        law_respondents_keep_their_order(a, b.drop_last(), questioners);
    }
}

/// What is known of a question comes from where it is told: who asks whom about what from the
/// announcements, who answers from the speakers of the discussion who ask nothing, and the
/// discussion from the contributions to it.
pub proof fn law_data_come_from_heading_and_discussion(
    question: Seq<char>,
    discussion: Seq<char>,
    cleaned: Seq<char>,
    name: Seq<char>,
)
    ensures
        ({
            let data = question_data(question, discussion, cleaned);
            let subjects = subjects_of(announced_questions(question));
            &&& data.questioners == subjects.questioners
            &&& data.questionees == subjects.questionees
            &&& data.topics == subjects.topics
            &&& data.internal_ids == subjects.internal_ids
            &&& data.discussion == contributions_json(discussion_contributions(cleaned))
            &&& data.respondents.contains(name) <==> discussion_speakers(discussion).contains(name)
                && !data.questioners.contains(name)
        }),
{
    let questioners = subjects_of(announced_questions(question)).questioners;
    law_respondents_do_not_ask(discussion_speakers(discussion), questioners, name);
}

/// The announced questions are the matches in the heading, one for each: who asks in the first
/// group, who is asked in the second, the topic in the third and the number in the fourth.
pub proof fn law_announced_questions_are_the_matches(question: Seq<char>, i: int)
    requires
        0 <= i < pattern_matches(QUESTION@, question).len(),
    ensures
        announced_questions(question).len() == pattern_matches(QUESTION@, question).len(),
        ({
            let found = pattern_matches(QUESTION@, question)[i];
            let capture = announced_questions(question)[i];
            &&& capture.questioner == found.group(1)->Some_0
            &&& capture.questionee == found.group(2)
            &&& capture.topic == found.group(3)->Some_0
            &&& capture.number == found.group(4)->Some_0
        }),
{
}

/// Only who is asked in an announcement is listed as asked, and only what is announced has an
/// identifier.
pub proof fn law_only_what_is_announced_is_listed(
    captures: Seq<QuestionCaptureModel>,
    name: Seq<char>,
    id: Seq<char>,
)
    ensures
        subjects_of(captures).questionees.contains(name) ==> exists|j: int|
            0 <= j < captures.len() && match (#[trigger] captures[j]).questionee {
                Some(asked) => name == trimmed(asked),
                None => name == "Onbekend"@,
            },
        subjects_of(captures).internal_ids.contains(id) ==> exists|j: int|
            0 <= j < captures.len() && id == seq!['Q'] + trimmed((#[trigger] captures[j]).number),
    decreases captures.len(),
{
    reveal_strlit("Q");
    assert("Q"@ == seq!['Q']);
    if subjects_of(captures).internal_ids.contains(id) {
        lemma_identifier_comes_from(captures, id);
        let j = choose|j: int|
            0 <= j < captures.len() && dossier_id((#[trigger] captures[j]).number) == id;
        assert(id == seq!['Q'] + trimmed(captures[j].number));
    }
    if captures.len() > 0 && subjects_of(captures).questionees.contains(name) {
        let rest = captures.drop_last();
        law_only_what_is_announced_is_listed(rest, name, id);
        let last = captures[captures.len() - 1];
        lemma_with_new(subjects_of(rest).questionees, asked_of(last.questionee), name);
        if subjects_of(rest).questionees.contains(name) {
            let j = choose|j: int|
                0 <= j < rest.len() && match (#[trigger] rest[j]).questionee {
                    Some(asked) => name == trimmed(asked),
                    None => name == "Onbekend"@,
                };
            assert(captures[j] == rest[j]);
        } else {
            assert(asked_of(last.questionee) == name);
        }
    }
}

} // verus!
