//! The tables in which meetings and questions are kept: columns of texts, one text for each
//! row.

use crate::number::{decimal, signed_decimal, to_decimal, to_signed_decimal};
use crate::records::{
    all_meetings, all_questions, MeetingModel, QuestionModel, ScrapedMeeting, ScrapedQuestion,
};
use crate::text::texts;
use vstd::prelude::*;

verus! {

/// A column of a table.
pub struct Column {
    pub name: &'static str,
    pub values: Vec<String>,
}

/// The model of a [`Column`].
#[verifier::ext_equal]
pub struct ColumnModel {
    pub name: Seq<char>,
    pub values: Seq<Seq<char>>,
}

impl View for Column {
    type V = ColumnModel;

    open spec fn view(&self) -> ColumnModel {
        ColumnModel { name: self.name@, values: texts(self.values@) }
    }
}

/// The models of a list of columns.
pub open spec fn all_columns(list: Seq<Column>) -> Seq<ColumnModel> {
    Seq::new(list.len(), |i: int| list[i]@)
}

/// The names of the columns for meetings.
pub open spec fn meeting_column_names() -> Seq<Seq<char>> {
    seq![
        "session_id"@,
        "meeting_id"@,
        "date"@,
        "time_of_day"@,
        "start_time"@,
        "end_time"@,
        "commission"@,
        "chair"@,
    ]
}

/// What a meeting has in a column.
pub open spec fn meeting_cell(row: MeetingModel, column: int) -> Seq<char> {
    if column == 0 {
        decimal(row.session_id as nat)
    } else if column == 1 {
        decimal(row.meeting_id as nat)
    } else if column == 2 {
        row.date
    } else if column == 3 {
        row.time_of_day
    } else if column == 4 {
        row.start_time
    } else if column == 5 {
        row.end_time
    } else if column == 6 {
        row.commission
    } else {
        row.chair
    }
}

/// The table of the meetings: in each column what each meeting has there, in their order.
pub open spec fn meeting_table(rows: Seq<MeetingModel>) -> Seq<ColumnModel> {
    Seq::new(
        meeting_column_names().len(),
        |column: int|
            ColumnModel {
                name: meeting_column_names()[column],
                values: Seq::new(rows.len(), |i: int| meeting_cell(rows[i], column)),
            },
    )
}

/// The name of a column for meetings.
fn meeting_column_name(column: usize) -> (r: &'static str)
    requires
        column < 8,
    ensures
        r@ == meeting_column_names()[column as int],
{
    if column == 0 {
        "session_id"
    } else if column == 1 {
        "meeting_id"
    } else if column == 2 {
        "date"
    } else if column == 3 {
        "time_of_day"
    } else if column == 4 {
        "start_time"
    } else if column == 5 {
        "end_time"
    } else if column == 6 {
        "commission"
    } else {
        "chair"
    }
}

/// What a meeting has in a column.
fn meeting_cell_text(row: &ScrapedMeeting, column: usize) -> (r: String)
    ensures
        r@ == meeting_cell(row@, column as int),
{
    if column == 0 {
        to_decimal(row.session_id as u64)
    } else if column == 1 {
        to_decimal(row.meeting_id as u64)
    } else if column == 2 {
        row.date.clone()
    } else if column == 3 {
        row.time_of_day.clone()
    } else if column == 4 {
        row.start_time.clone()
    } else if column == 5 {
        row.end_time.clone()
    } else if column == 6 {
        row.commission.clone()
    } else {
        row.chair.clone()
    }
}

/// The table of the meetings.
pub fn meeting_columns(rows: &Vec<ScrapedMeeting>) -> (r: Vec<Column>)
    ensures
        all_columns(r@) == meeting_table(all_meetings(rows@)),
{
    let ghost all = all_meetings(rows@);
    let mut columns: Vec<Column> = Vec::new();
    let mut column: usize = 0;
    while column < 8
        invariant
            all == all_meetings(rows@),
            column <= 8,
            columns@.len() == column,
            forall|c: int| 0 <= c < column ==> (#[trigger] columns@[c])@ == meeting_table(all)[c],
        decreases 8 - column,
    {
        let mut values: Vec<String> = Vec::new();
        let mut i: usize = 0;
        while i < rows.len()
            invariant
                all == all_meetings(rows@),
                i <= rows@.len(),
                values@.len() == i,
                forall|j: int|
                    0 <= j < i ==> (#[trigger] values@[j])@ == meeting_cell(all[j], column as int),
            decreases rows@.len() - i,
        {
            values.push(meeting_cell_text(&rows[i], column));
            i += 1;
        }
        let name = meeting_column_name(column);
        columns.push(Column { name, values });
        assert(columns@[column as int]@ =~= meeting_table(all)[column as int]) by {
            assert(texts(values@) =~= meeting_table(all)[column as int].values);
        }
        column += 1;
    }
    assert(all_columns(columns@) =~= meeting_table(all));
    columns
}

/// The names of the columns for questions.
pub open spec fn question_column_names() -> Seq<Seq<char>> {
    seq![
        "question_id"@,
        "session_id"@,
        "meeting_id"@,
        "questioners"@,
        "questionees"@,
        "respondents"@,
        "topics_nl"@,
        "topics_fr"@,
        "discussion"@,
        "internal_ids"@,
        "date"@,
    ]
}

/// What a question has in a column.
pub open spec fn question_cell(row: QuestionModel, column: int) -> Seq<char> {
    if column == 0 {
        signed_decimal(row.question_id)
    } else if column == 1 {
        decimal(row.session_id as nat)
    } else if column == 2 {
        decimal(row.meeting_id as nat)
    } else if column == 3 {
        row.questioners
    } else if column == 4 {
        row.questionees
    } else if column == 5 {
        row.respondents
    } else if column == 6 {
        row.topics_nl
    } else if column == 7 {
        row.topics_fr
    } else if column == 8 {
        row.discussion
    } else if column == 9 {
        row.internal_ids
    } else {
        row.date
    }
}

/// The table of the questions: in each column what each question has there, in their order.
pub open spec fn question_table(rows: Seq<QuestionModel>) -> Seq<ColumnModel> {
    Seq::new(
        question_column_names().len(),
        |column: int|
            ColumnModel {
                name: question_column_names()[column],
                values: Seq::new(rows.len(), |i: int| question_cell(rows[i], column)),
            },
    )
}

/// The name of a column for questions.
fn question_column_name(column: usize) -> (r: &'static str)
    requires
        column < 11,
    ensures
        r@ == question_column_names()[column as int],
{
    if column == 0 {
        "question_id"
    } else if column == 1 {
        "session_id"
    } else if column == 2 {
        "meeting_id"
    } else if column == 3 {
        "questioners"
    } else if column == 4 {
        "questionees"
    } else if column == 5 {
        "respondents"
    } else if column == 6 {
        "topics_nl"
    } else if column == 7 {
        "topics_fr"
    } else if column == 8 {
        "discussion"
    } else if column == 9 {
        "internal_ids"
    } else {
        "date"
    }
}

/// What a question has in a column.
fn question_cell_text(row: &ScrapedQuestion, column: usize) -> (r: String)
    ensures
        r@ == question_cell(row@, column as int),
{
    if column == 0 {
        to_signed_decimal(row.question_id)
    } else if column == 1 {
        to_decimal(row.session_id as u64)
    } else if column == 2 {
        to_decimal(row.meeting_id as u64)
    } else if column == 3 {
        row.questioners.clone()
    } else if column == 4 {
        row.questionees.clone()
    } else if column == 5 {
        row.respondents.clone()
    } else if column == 6 {
        row.topics_nl.clone()
    } else if column == 7 {
        row.topics_fr.clone()
    } else if column == 8 {
        row.discussion.clone()
    } else if column == 9 {
        row.internal_ids.clone()
    } else {
        row.date.clone()
    }
}

/// The table of the questions.
pub fn question_columns(rows: &Vec<ScrapedQuestion>) -> (r: Vec<Column>)
    ensures
        all_columns(r@) == question_table(all_questions(rows@)),
{
    let ghost all = all_questions(rows@);
    let mut columns: Vec<Column> = Vec::new();
    let mut column: usize = 0;
    while column < 11
        invariant
            all == all_questions(rows@),
            column <= 11,
            columns@.len() == column,
            forall|c: int| 0 <= c < column ==> (#[trigger] columns@[c])@ == question_table(all)[c],
        decreases 11 - column,
    {
        let mut values: Vec<String> = Vec::new();
        let mut i: usize = 0;
        while i < rows.len()
            invariant
                all == all_questions(rows@),
                i <= rows@.len(),
                values@.len() == i,
                forall|j: int|
                    0 <= j < i ==> (#[trigger] values@[j])@ == question_cell(all[j], column as int),
            decreases rows@.len() - i,
        {
            values.push(question_cell_text(&rows[i], column));
            i += 1;
        }
        let name = question_column_name(column);
        columns.push(Column { name, values });
        assert(columns@[column as int]@ =~= question_table(all)[column as int]) by {
            assert(texts(values@) =~= question_table(all)[column as int].values);
        }
        column += 1;
    }
    assert(all_columns(columns@) =~= question_table(all));
    columns
}

/// Every column for meetings has a value for every meeting, and no two columns have the same
/// name.
pub proof fn law_meeting_table_is_even(rows: Seq<MeetingModel>)
    ensures
        forall|c: int|
            0 <= c < meeting_table(rows).len() ==> (#[trigger] meeting_table(rows)[c]).values.len()
                == rows.len(),
        meeting_column_names().no_duplicates(),
{
    reveal_strlit("session_id");
    assert("session_id"@.len() == 10);
    reveal_strlit("meeting_id");
    assert("meeting_id"@.len() == 10);
    reveal_strlit("date");
    assert("date"@.len() == 4);
    reveal_strlit("time_of_day");
    assert("time_of_day"@.len() == 11);
    reveal_strlit("start_time");
    assert("start_time"@.len() == 10);
    reveal_strlit("end_time");
    assert("end_time"@.len() == 8);
    reveal_strlit("commission");
    assert("commission"@.len() == 10);
    reveal_strlit("chair");
    assert("chair"@.len() == 5);
    assert("session_id"@[0] != "meeting_id"@[0]);
    assert("session_id"@[1] != "start_time"@[1]);
    assert("session_id"@[0] != "commission"@[0]);
    assert("meeting_id"@[0] != "start_time"@[0]);
    assert("meeting_id"@[0] != "commission"@[0]);
    assert("start_time"@[0] != "commission"@[0]);
}

/// Every column for questions has a value for every question, and no two columns have the same
/// name.
pub proof fn law_question_table_is_even(rows: Seq<QuestionModel>)
    ensures
        forall|c: int|
            0 <= c < question_table(rows).len() ==> (#[trigger] question_table(rows)[c]).values.len()
                == rows.len(),
        question_column_names().no_duplicates(),
{
    reveal_strlit("question_id");
    assert("question_id"@.len() == 11);
    reveal_strlit("session_id");
    assert("session_id"@.len() == 10);
    reveal_strlit("meeting_id");
    assert("meeting_id"@.len() == 10);
    reveal_strlit("questioners");
    assert("questioners"@.len() == 11);
    reveal_strlit("questionees");
    assert("questionees"@.len() == 11);
    reveal_strlit("respondents");
    assert("respondents"@.len() == 11);
    reveal_strlit("topics_nl");
    assert("topics_nl"@.len() == 9);
    reveal_strlit("topics_fr");
    assert("topics_fr"@.len() == 9);
    reveal_strlit("discussion");
    assert("discussion"@.len() == 10);
    reveal_strlit("internal_ids");
    assert("internal_ids"@.len() == 12);
    reveal_strlit("date");
    assert("date"@.len() == 4);
    assert("question_id"@[8] != "questioners"@[8]);
    assert("question_id"@[8] != "questionees"@[8]);
    assert("question_id"@[0] != "respondents"@[0]);
    assert("session_id"@[0] != "meeting_id"@[0]);
    assert("session_id"@[0] != "discussion"@[0]);
    assert("meeting_id"@[0] != "discussion"@[0]);
    assert("questioners"@[9] != "questionees"@[9]);
    assert("questioners"@[0] != "respondents"@[0]);
    assert("questionees"@[0] != "respondents"@[0]);
    assert("topics_nl"@[7] != "topics_fr"@[7]);
}

/// The table of the meetings has these columns, in this order, and in each of them what each meeting has
/// under that name, in the order of the meetings.
pub proof fn law_meeting_table_shows_every_meeting(rows: Seq<MeetingModel>, i: int)
    requires
        0 <= i < rows.len(),
    ensures
        meeting_table(rows).len() == 8,
        meeting_table(rows)[0].name == "session_id"@,
        meeting_table(rows)[0].values.len() == rows.len(),
        meeting_table(rows)[0].values[i] == decimal(rows[i].session_id as nat),
        meeting_table(rows)[1].name == "meeting_id"@,
        meeting_table(rows)[1].values.len() == rows.len(),
        meeting_table(rows)[1].values[i] == decimal(rows[i].meeting_id as nat),
        meeting_table(rows)[2].name == "date"@,
        meeting_table(rows)[2].values.len() == rows.len(),
        meeting_table(rows)[2].values[i] == rows[i].date,
        meeting_table(rows)[3].name == "time_of_day"@,
        meeting_table(rows)[3].values.len() == rows.len(),
        meeting_table(rows)[3].values[i] == rows[i].time_of_day,
        meeting_table(rows)[4].name == "start_time"@,
        meeting_table(rows)[4].values.len() == rows.len(),
        meeting_table(rows)[4].values[i] == rows[i].start_time,
        meeting_table(rows)[5].name == "end_time"@,
        meeting_table(rows)[5].values.len() == rows.len(),
        meeting_table(rows)[5].values[i] == rows[i].end_time,
        meeting_table(rows)[6].name == "commission"@,
        meeting_table(rows)[6].values.len() == rows.len(),
        meeting_table(rows)[6].values[i] == rows[i].commission,
        meeting_table(rows)[7].name == "chair"@,
        meeting_table(rows)[7].values.len() == rows.len(),
        meeting_table(rows)[7].values[i] == rows[i].chair,
{
}

/// The table of the questions has these columns, in this order, and in each of them what each question has
/// under that name, in the order of the questions.
pub proof fn law_question_table_shows_every_question(rows: Seq<QuestionModel>, i: int)
    requires
        0 <= i < rows.len(),
    ensures
        question_table(rows).len() == 11,
        question_table(rows)[0].name == "question_id"@,
        question_table(rows)[0].values.len() == rows.len(),
        question_table(rows)[0].values[i] == signed_decimal(rows[i].question_id),
        question_table(rows)[1].name == "session_id"@,
        question_table(rows)[1].values.len() == rows.len(),
        question_table(rows)[1].values[i] == decimal(rows[i].session_id as nat),
        question_table(rows)[2].name == "meeting_id"@,
        question_table(rows)[2].values.len() == rows.len(),
        question_table(rows)[2].values[i] == decimal(rows[i].meeting_id as nat),
        question_table(rows)[3].name == "questioners"@,
        question_table(rows)[3].values.len() == rows.len(),
        question_table(rows)[3].values[i] == rows[i].questioners,
        question_table(rows)[4].name == "questionees"@,
        question_table(rows)[4].values.len() == rows.len(),
        question_table(rows)[4].values[i] == rows[i].questionees,
        question_table(rows)[5].name == "respondents"@,
        question_table(rows)[5].values.len() == rows.len(),
        question_table(rows)[5].values[i] == rows[i].respondents,
        question_table(rows)[6].name == "topics_nl"@,
        question_table(rows)[6].values.len() == rows.len(),
        question_table(rows)[6].values[i] == rows[i].topics_nl,
        question_table(rows)[7].name == "topics_fr"@,
        question_table(rows)[7].values.len() == rows.len(),
        question_table(rows)[7].values[i] == rows[i].topics_fr,
        question_table(rows)[8].name == "discussion"@,
        question_table(rows)[8].values.len() == rows.len(),
        question_table(rows)[8].values[i] == rows[i].discussion,
        question_table(rows)[9].name == "internal_ids"@,
        question_table(rows)[9].values.len() == rows.len(),
        question_table(rows)[9].values[i] == rows[i].internal_ids,
        question_table(rows)[10].name == "date"@,
        question_table(rows)[10].values.len() == rows.len(),
        question_table(rows)[10].values[i] == rows[i].date,
{
}

} // verus!
