//! What is kept of a meeting.

use crate::text::unquoted;
use vstd::prelude::*;

verus! {

/// A meeting of a commission.
pub struct ScrapedMeeting {
    pub session_id: u32,
    pub meeting_id: u32,
    pub date: String,
    pub time_of_day: String,
    pub start_time: String,
    pub end_time: String,
    pub commission: String,
    pub chair: String,
}

/// The model of a [`ScrapedMeeting`].
#[verifier::ext_equal]
pub struct MeetingModel {
    pub session_id: u32,
    pub meeting_id: u32,
    pub date: Seq<char>,
    pub time_of_day: Seq<char>,
    pub start_time: Seq<char>,
    pub end_time: Seq<char>,
    pub commission: Seq<char>,
    pub chair: Seq<char>,
}

impl View for ScrapedMeeting {
    type V = MeetingModel;

    open spec fn view(&self) -> MeetingModel {
        MeetingModel {
            session_id: self.session_id,
            meeting_id: self.meeting_id,
            date: self.date@,
            time_of_day: self.time_of_day@,
            start_time: self.start_time@,
            end_time: self.end_time@,
            commission: self.commission@,
            chair: self.chair@,
        }
    }
}

/// A question that was asked in a meeting.
pub struct ScrapedQuestion {
    pub question_id: i32,
    pub session_id: u32,
    pub meeting_id: u32,
    pub questioners: String,
    pub questionees: String,
    pub respondents: String,
    pub topics_nl: String,
    pub topics_fr: String,
    pub discussion: String,
    pub internal_ids: String,
    pub date: String,
}

/// The model of a [`ScrapedQuestion`].
#[verifier::ext_equal]
pub struct QuestionModel {
    pub question_id: int,
    pub session_id: u32,
    pub meeting_id: u32,
    pub questioners: Seq<char>,
    pub questionees: Seq<char>,
    pub respondents: Seq<char>,
    pub topics_nl: Seq<char>,
    pub topics_fr: Seq<char>,
    pub discussion: Seq<char>,
    pub internal_ids: Seq<char>,
    pub date: Seq<char>,
}

impl View for ScrapedQuestion {
    type V = QuestionModel;

    open spec fn view(&self) -> QuestionModel {
        QuestionModel {
            question_id: self.question_id as int,
            session_id: self.session_id,
            meeting_id: self.meeting_id,
            questioners: self.questioners@,
            questionees: self.questionees@,
            respondents: self.respondents@,
            topics_nl: self.topics_nl@,
            topics_fr: self.topics_fr@,
            discussion: self.discussion@,
            internal_ids: self.internal_ids@,
            date: self.date@,
        }
    }
}

/// Whether nothing that was taken from the headings of a question holds a double quote.
pub open spec fn question_unquoted(question: QuestionModel) -> bool {
    &&& unquoted(question.questioners)
    &&& unquoted(question.questionees)
    &&& unquoted(question.topics_nl)
    &&& unquoted(question.topics_fr)
    &&& unquoted(question.internal_ids)
}

/// The models of a list of meetings.
pub open spec fn all_meetings(list: Seq<ScrapedMeeting>) -> Seq<MeetingModel> {
    Seq::new(list.len(), |i: int| list[i]@)
}

/// The models of a list of questions.
pub open spec fn all_questions(list: Seq<ScrapedQuestion>) -> Seq<QuestionModel> {
    Seq::new(list.len(), |i: int| list[i]@)
}

/// A meeting and its questions.
pub struct MeetingOutput {
    pub meeting: ScrapedMeeting,
    pub questions: Vec<ScrapedQuestion>,
}

/// The model of a [`MeetingOutput`].
#[verifier::ext_equal]
pub struct OutputModel {
    pub meeting: MeetingModel,
    pub questions: Seq<QuestionModel>,
}

impl View for MeetingOutput {
    type V = OutputModel;

    open spec fn view(&self) -> OutputModel {
        OutputModel { meeting: self.meeting@, questions: all_questions(self.questions@) }
    }
}

} // verus!
