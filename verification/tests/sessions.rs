use commission_meetings::error::{IntegerError, ScrapeError};
use commission_meetings::page::page_text;
use commission_meetings::records::{MeetingOutput, ScrapedMeeting, ScrapedQuestion};
use commission_meetings::session::{
    cache_path, format_meeting_id, known_meeting_id, may_have_new_meetings, meeting_url,
    next_meeting, parse_meeting_id, session_ids, Discovery, SessionOutput, LATEST_SESSION_ID,
};
use commission_meetings::table::{meeting_columns, question_columns};

#[test]
fn pages_are_windows_1252() {
    let bytes: Vec<u8> = (0..=255).collect();
    let text = page_text(&bytes);
    let chars: Vec<char> = text.chars().collect();
    assert_eq!(chars.len(), 256);
    let upper: Vec<char> = "\u{20ac}\u{81}\u{201a}\u{192}\u{201e}\u{2026}\u{2020}\u{2021}\
        \u{2c6}\u{2030}\u{160}\u{2039}\u{152}\u{8d}\u{17d}\u{8f}\u{90}\u{2018}\u{2019}\u{201c}\
        \u{201d}\u{2022}\u{2013}\u{2014}\u{2dc}\u{2122}\u{161}\u{203a}\u{153}\u{9d}\u{17e}\u{178}"
        .chars()
        .collect();
    for (byte, c) in chars.iter().enumerate() {
        if (0x80..0xa0).contains(&byte) {
            assert_eq!(*c, upper[byte - 0x80]);
        } else {
            assert_eq!(*c as usize, byte);
        }
    }
    assert_eq!(page_text(b"pr\xe9sident"), "président");
    assert_eq!(page_text(b""), "");
    assert_eq!(page_text(b"\xef\xbb\xbfpr\xc3\xa9sident"), "président");
}

#[test]
fn meetings_have_addresses() {
    assert_eq!(meeting_url(56, 7), "https://www.dekamer.be/doc/CCRI/html/56/ic007x.html");
    assert_eq!(meeting_url(55, 1234), "https://www.dekamer.be/doc/CCRI/html/55/ic1234x.html");
    assert_eq!(cache_path(56, 7), "sessions/56/meetings/commission/56-7.html");
    assert_ne!(cache_path(5, 67), cache_path(56, 7));
    assert_ne!(meeting_url(5, 67), meeting_url(56, 7));
}

#[test]
fn stored_meeting_reads_back() {
    for id in [0, 1, 430, u32::MAX] {
        assert_eq!(parse_meeting_id(&format_meeting_id(id)), Ok(id));
    }
    assert_eq!(parse_meeting_id(" 12\n"), Ok(12));
    assert_eq!(parse_meeting_id(" \n"), Err(ScrapeError::MeetingId(IntegerError::Empty)));
    assert_eq!(parse_meeting_id("x"), Err(ScrapeError::MeetingId(IntegerError::InvalidDigit)));
    assert_eq!(
        parse_meeting_id("4294967296"),
        Err(ScrapeError::MeetingId(IntegerError::TooLarge))
    );
}

#[test]
fn sessions_are_the_last_two() {
    assert_eq!(session_ids(), [56, 55]);
    assert!(may_have_new_meetings(LATEST_SESSION_ID));
    assert!(!may_have_new_meetings(55));
}

fn discover(current: u32, there: &[u32]) -> (u32, u32) {
    let mut discovery = Discovery::new(current);
    let mut requests = 1;
    while discovery.answer(!there.contains(&discovery.probe)) {
        requests += 1;
    }
    (discovery.last, requests)
}

#[test]
fn discovery_allows_three_missing_meetings() {
    assert_eq!(discover(10, &[]), (10, 4));
    assert_eq!(discover(10, &[11, 12]), (12, 6));
    assert_eq!(discover(10, &[14, 18]), (18, 12));
    assert_eq!(discover(10, &[15]), (10, 4));
    assert_eq!(discover(0, &[1, 2, 7]), (2, 6));
}

fn output(meeting_id: u32, questions: usize) -> MeetingOutput {
    let text = |name: &str| format!("{}{}", name, meeting_id);
    MeetingOutput {
        meeting: ScrapedMeeting {
            session_id: 56,
            meeting_id,
            date: text("date"),
            time_of_day: text("time"),
            start_time: text("start"),
            end_time: text("end"),
            commission: text("commission"),
            chair: text("chair"),
        },
        questions: (0..questions)
            .map(|i| ScrapedQuestion {
                question_id: i as i32,
                session_id: 56,
                meeting_id,
                questioners: text("questioners"),
                questionees: text("questionees"),
                respondents: text("respondents"),
                topics_nl: text("nl"),
                topics_fr: text("fr"),
                discussion: text("discussion"),
                internal_ids: text("ids"),
                date: text("date"),
            })
            .collect(),
    }
}

#[test]
fn unreadable_meetings_are_skipped() {
    let mut session = SessionOutput::new();
    session.record(Some(output(1, 2)));
    session.record(None);
    session.record(Some(output(3, 1)));
    let meetings: Vec<u32> = session.meetings.iter().map(|m| m.meeting_id).collect();
    assert_eq!(meetings, [1, 3]);
    let questions: Vec<(u32, i32)> =
        session.questions.iter().map(|q| (q.meeting_id, q.question_id)).collect();
    assert_eq!(questions, [(1, 0), (1, 1), (3, 0)]);
}

#[test]
fn meetings_make_a_table() {
    let rows = vec![output(1, 0).meeting, output(2, 0).meeting];
    let columns = meeting_columns(&rows);
    let table: Vec<(&str, Vec<&str>)> = columns
        .iter()
        .map(|c| (c.name, c.values.iter().map(|v| v.as_str()).collect()))
        .collect();
    assert_eq!(
        table,
        vec![
            ("session_id", vec!["56", "56"]),
            ("meeting_id", vec!["1", "2"]),
            ("date", vec!["date1", "date2"]),
            ("time_of_day", vec!["time1", "time2"]),
            ("start_time", vec!["start1", "start2"]),
            ("end_time", vec!["end1", "end2"]),
            ("commission", vec!["commission1", "commission2"]),
            ("chair", vec!["chair1", "chair2"]),
        ]
    );
    assert_eq!(meeting_columns(&vec![]).len(), 8);
}

#[test]
fn questions_make_a_table() {
    let columns = question_columns(&output(4, 2).questions);
    let table: Vec<(&str, Vec<&str>)> = columns
        .iter()
        .map(|c| (c.name, c.values.iter().map(|v| v.as_str()).collect()))
        .collect();
    assert_eq!(
        table,
        vec![
            ("question_id", vec!["0", "1"]),
            ("session_id", vec!["56", "56"]),
            ("meeting_id", vec!["4", "4"]),
            ("questioners", vec!["questioners4", "questioners4"]),
            ("questionees", vec!["questionees4", "questionees4"]),
            ("respondents", vec!["respondents4", "respondents4"]),
            ("topics_nl", vec!["nl4", "nl4"]),
            ("topics_fr", vec!["fr4", "fr4"]),
            ("discussion", vec!["discussion4", "discussion4"]),
            ("internal_ids", vec!["ids4", "ids4"]),
            ("date", vec!["date4", "date4"]),
        ]
    );
}

#[test]
fn sessions_keep_readable_meetings_in_order() {
    let mut session = SessionOutput::new();
    let mut done = 0;
    while let Some(id) = next_meeting(5, done) {
        session.record(if id % 2 == 1 { Some(output(id, id as usize)) } else { None });
        done = id;
    }
    assert_eq!(done, 5);
    let ids: Vec<u32> = session.meetings.iter().map(|m| m.meeting_id).collect();
    assert_eq!(ids, vec![1, 3, 5]);
    let ids: Vec<u32> = session.questions.iter().map(|q| q.meeting_id).collect();
    assert_eq!(ids, vec![1, 3, 3, 3, 5, 5, 5, 5, 5]);
    assert_eq!(next_meeting(0, 0), None);
    assert_eq!(next_meeting(u32::MAX, u32::MAX - 1), Some(u32::MAX));
    assert_eq!(next_meeting(u32::MAX, u32::MAX), None);
}

#[test]
fn no_meeting_is_known_where_none_was_stored() {
    assert_eq!(known_meeting_id(None).ok(), Some(0));
    assert_eq!(known_meeting_id(Some(" 17\n".to_string())).ok(), Some(17));
    assert!(known_meeting_id(Some("x".to_string())).is_err());
}
