use commission_meetings::discussion::{
    assemble_contributions, cleaned_discussion_json, contributions_to_json, find_turns,
    get_discussion_json, name_or_unknown, speaker_name, Contribution, Turn,
};
use commission_meetings::fixes::{announce_once, handle_one_off_issues};
use commission_meetings::pattern::{slice_bytes, Found, WHITE_SPACE};
use commission_meetings::question::{
    assemble_question_data, collect_subjects, extract_question_data, find_questions,
    question_capture, select_respondents, QuestionCapture,
};
use commission_meetings::sections::Section;
use commission_meetings::speakers::{
    add_new, extract_speakers_from_discussion, normalize_speaker_name,
};
use commission_meetings::text::is_white_space;

fn owned(list: &[&str]) -> Vec<String> {
    list.iter().map(|s| s.to_string()).collect()
}

fn unchanged(s: &str) -> String {
    s.to_string()
}

fn fixed(s: &str) -> String {
    handle_one_off_issues(s.to_string())
}

#[test]
fn single_mistakes_are_repaired() {
    assert_eq!(fixed("-Kjell Vander Elst"), "- Kjell Vander Elst");
    assert_eq!(fixed("- Vraag van Xavier Dubois"), "- Xavier Dubois");
    assert_eq!(fixed("-Vraag van Xavier Dubois"), "- Xavier Dubois");
    assert_eq!(
        fixed("03.02  Isabelle Hansez Je vous remercie beaucoup"),
        "03.02  Isabelle Hansez: Je vous remercie beaucoup"
    );
    assert_eq!(
        fixed("01.02  Stefaan Van Hecke (Ecolo-Groen: Mevrouw"),
        "01.02  Stefaan Van Hecke (Ecolo-Groen): Mevrouw"
    );
    assert_eq!(
        fixed("02.02  Minister Jan Jambon Ik denk dat het zo staat."),
        "02.02  Minister Jan Jambon: Ik denk dat het zo staat."
    );
    assert_eq!(fixed("Matti Vandael en Matti Vandael"), "Matti Vandemaele en Matti Vandemaele");
}

#[test]
fn sound_text_stays() {
    for s in ["", "- Kjell Vander Elst", "Vraag van Xavier Dubois", "a (b): c", "Matti Vandemaele"] {
        assert_eq!(fixed(s), s);
    }
    assert_eq!(announce_once("Vraag van X".to_string()), "Vraag van X");
    assert_eq!(announce_once("- Vraag van X".to_string()), "- X");
}

#[test]
fn names_are_normalized() {
    assert_eq!(normalize_speaker_name("Minister Jan Jambon"), "Jan Jambon");
    assert_eq!(normalize_speaker_name("Stefaan  Van Hecke (Ecolo-Groen)"), "Stefaan Van Hecke");
    assert_eq!(normalize_speaker_name(" (x) Mevrouw  Vanessa\u{a0}Matz "), "Vanessa Matz");
    assert_eq!(normalize_speaker_name("Eerste minister Bart De Wever"), "Bart De Wever");
    assert_eq!(normalize_speaker_name(" Xavier "), "Xavier");
    assert_eq!(normalize_speaker_name("(x)"), "");
}

#[test]
fn speakers_come_once_in_their_order() {
    let discussion = "01.01  Vanessa Matz (Les Engagés): Bonjour.NEWPARAGRAPH\
        Voorzitter: neen.NEWPARAGRAPH\
        01.02 01.03  Minister Jan Jambon: Ja, goed.NEWPARAGRAPH\
        01.04  Vanessa Matz (Les Engagés), rapporteur: Merci.NEWPARAGRAPH\
        Om 01.05 uur: niemand.NEWPARAGRAPH";
    assert_eq!(
        extract_speakers_from_discussion(discussion),
        owned(&["Vanessa Matz", "Jan Jambon"])
    );
    assert!(extract_speakers_from_discussion("").is_empty());
    let mut list = owned(&["a"]);
    add_new(&mut list, "b".to_string());
    add_new(&mut list, "a".to_string());
    assert_eq!(list, owned(&["a", "b"]));
}

#[test]
fn speakers_are_those_of_the_paragraphs_read() {
    let mut section = Section::new();
    for paragraph in ["01.01  Ann: a", "tekst", "01.02  Bob: b", "01.03  Ann: c"] {
        section.read_paragraph(paragraph);
    }
    assert_eq!(extract_speakers_from_discussion(&section.discussion), owned(&["Ann", "Bob"]));
}

#[test]
fn announced_speakers_lose_title_and_party() {
    assert_eq!(speaker_name(" Minister Jan Jambon (N-VA), rapporteur"), "Jan Jambon ");
    assert_eq!(speaker_name("De heer Xavier Dubois"), "Xavier Dubois");
    assert_eq!(speaker_name(""), "Onbekend");
    assert_eq!(speaker_name("(x)"), "Onbekend");
    assert_eq!(name_or_unknown(None), "Onbekend");
    let found = Found { start: 0, end: 1, groups: vec![Some("A".to_string())] };
    assert_eq!(name_or_unknown(Some(found)), "A");
}

#[test]
fn turns_are_found_in_bytes() {
    let text = "é\n01.01  Jan: a\nDe  voorzitter : b";
    let turns = find_turns(text);
    assert_eq!(turns.len(), 2);
    assert_eq!(turns[0].speaker, "Jan");
    assert_eq!(slice_bytes(text, turns[0].start, turns[0].end), "01.01  Jan:");
    assert_eq!(turns[1].speaker, "Voorzitter");
    assert_eq!(slice_bytes(text, turns[1].start, turns[1].end), "De  voorzitter :");
}

#[test]
fn contributions_are_what_stands_between_turns() {
    let text = "xx[A] een [B] Het incident is gesloten. [C] driNEWPARAGRAPHvier L'incident est clos.";
    let at = |mark: &str, speaker: &str| Turn {
        start: text.find(mark).unwrap(),
        end: text.find(mark).unwrap() + 3,
        speaker: speaker.to_string(),
    };
    let turns = vec![at("[A]", " Ann "), at("[B]", "Bob"), at("[C]", "Cis")];
    let said = assemble_contributions(text, &turns);
    let pairs: Vec<(&str, &str)> =
        said.iter().map(|c| (c.speaker.as_str(), c.text.as_str())).collect();
    assert_eq!(pairs, vec![("Ann", "een"), ("Cis", "dri\nvier")]);
    let silent = vec![at("[A]", ""), at("[B]", "Bob"), at("[C]", "")];
    assert!(assemble_contributions(text, &silent).is_empty());
    assert!(assemble_contributions(text, &vec![]).is_empty());
}

#[test]
fn contributions_become_json() {
    assert_eq!(contributions_to_json(&vec![]), "[]");
    let list = vec![
        Contribution { speaker: "Ann".to_string(), text: "\"Ja\"\n".to_string() },
        Contribution { speaker: "Bé".to_string(), text: "neen".to_string() },
    ];
    assert_eq!(
        contributions_to_json(&list),
        "[\n  {\n    \"speaker\": \"Ann\",\n    \"text\": \"\\\"Ja\\\"\\n\"\n  },\n  {\n    \
         \"speaker\": \"Bé\",\n    \"text\": \"neen\"\n  }\n]"
    );
}

#[test]
fn discussions_become_json() {
    let discussion = "InleidingNEWPARAGRAPH01.01  Vanessa Matz (Les Engagés): Na 20.00 uur \
        begon het.NEWPARAGRAPH01.02  Minister Jan Jambon: Ja.NEWPARAGRAPHHet incident is \
        gesloten.NEWPARAGRAPH";
    let expected = "[\n  {\n    \"speaker\": \"Vanessa Matz\",\n    \"text\": \"Na 20.00 uur \
        begon het.\"\n  },\n  {\n    \"speaker\": \"Jan Jambon\",\n    \"text\": \"Ja.\"\n  }\n]";
    assert_eq!(cleaned_discussion_json(discussion), expected);
    assert_eq!(get_discussion_json(discussion, &unchanged), expected);
    assert_eq!(get_discussion_json(discussion, &|_: &str| String::new()), "[]");
}

#[test]
fn questions_are_found_in_headings() {
    let heading = "Samengevoegde vragen van\n- Kjell Vander Elst aan Theo Francken (Defensie) over \
        'De F-35' (56002763C)\n- de heer Jan X à Théo Y sur “Le sujet” (n° 6003263c)\n- Ann Z over \
        'Iets' (nr. 6003264c)";
    let captures = find_questions(heading);
    assert_eq!(captures.len(), 3);
    assert_eq!(captures[0].questioner, "- Kjell Vander Elst");
    assert_eq!(captures[0].questionee, Some("Theo Francken".to_string()));
    assert_eq!(captures[0].topic, "De F-35");
    assert_eq!(captures[0].number, "56002763C");
    assert_eq!(captures[1].questionee, Some("Théo Y".to_string()));
    assert_eq!(captures[1].number, "6003263c");
    assert_eq!(captures[2].questionee, None);
    assert_eq!(captures[2].number, "6003264c");
    assert!(find_questions("Geen vraag").is_empty());
}

#[test]
fn matches_become_questions() {
    let text = |s: &str| Some(s.to_string());
    let found = Found {
        start: 0,
        end: 1,
        groups: vec![text("all"), text("a"), None, text("t"), text("1C")],
    };
    let capture = question_capture(&found);
    assert_eq!(capture.questioner, "a");
    assert_eq!(capture.questionee, None);
    assert_eq!(capture.topic, "t");
    assert_eq!(capture.number, "1C");
}

fn capture(questioner: &str, questionee: Option<&str>, topic: &str, number: &str) -> QuestionCapture {
    QuestionCapture {
        questioner: questioner.to_string(),
        questionee: questionee.map(|s| s.to_string()),
        topic: topic.to_string(),
        number: number.to_string(),
    }
}

#[test]
fn each_question_counts_once() {
    let captures = vec![
        capture(" - de heer Jan X", Some(" Theo "), " A ", "1C "),
        capture("- Ann Z", None, "B", "2C"),
        capture("- Jan X", Some("Theo"), "A", "1C"),
        capture("- Piet", Some("Theo"), "C", "3C"),
    ];
    let subjects = collect_subjects(&captures);
    assert_eq!(subjects.questioners, owned(&["Jan X", "Ann Z", "Piet"]));
    assert_eq!(subjects.questionees, owned(&["Theo", "Onbekend"]));
    assert_eq!(subjects.topics, owned(&["A", "B", "C"]));
    assert_eq!(subjects.internal_ids, owned(&["Q1C", "Q2C", "Q3C"]));
    let speakers = owned(&["Jan X", "Theo", "Voorzitter"]);
    assert_eq!(select_respondents(&speakers, &subjects.questioners), owned(&["Theo", "Voorzitter"]));
    let data = assemble_question_data(&captures, &speakers, "[]".to_string());
    assert_eq!(data.questioners, subjects.questioners);
    assert_eq!(data.questionees, subjects.questionees);
    assert_eq!(data.respondents, owned(&["Theo", "Voorzitter"]));
    assert_eq!(data.topics, subjects.topics);
    assert_eq!(data.discussion, "[]");
    assert_eq!(data.internal_ids, subjects.internal_ids);
}

#[test]
fn question_data_comes_from_heading_and_discussion() {
    let data = extract_question_data(
        "Vraag van Kjell Vander Elst aan Theo Francken over 'De F-35' (56002763C)",
        "01.01  Kjell Vander Elst (Vooruit): Vraag?NEWPARAGRAPH01.02  Minister Theo Francken: \
         Antwoord.NEWPARAGRAPH",
        &unchanged,
    )
    .unwrap();
    assert_eq!(data.questioners, owned(&["Kjell Vander Elst"]));
    assert_eq!(data.questionees, owned(&["Theo Francken"]));
    assert_eq!(data.respondents, owned(&["Theo Francken"]));
    assert_eq!(data.topics, owned(&["De F-35"]));
    assert_eq!(data.internal_ids, owned(&["Q56002763C"]));
    assert_eq!(
        data.discussion,
        "[\n  {\n    \"speaker\": \"Kjell Vander Elst\",\n    \"text\": \"Vraag?\"\n  },\n  {\n    \
         \"speaker\": \"Theo Francken\",\n    \"text\": \"Antwoord.\"\n  }\n]"
    );
}

#[test]
fn only_the_json_is_made_of_the_cleaned_discussion() {
    let clean = |_: &str| "01.01  Zoe: iets".to_string();
    let data = extract_question_data("", "01.01  Ann: a", &clean).unwrap();
    assert_eq!(data.respondents, owned(&["Ann"]));
    assert_eq!(
        data.discussion,
        "[\n  {\n    \"speaker\": \"Zoe\",\n    \"text\": \"iets\"\n  }\n]"
    );
}

#[test]
fn normal_names_stay() {
    let names = [
        "Minister Jan Jambon",
        "Stefaan  Van Hecke (Ecolo-Groen)",
        " (x) Mevrouw  Vanessa\u{a0}Matz ",
        "De heer\tXavier (a) (b) Dubois )",
        "Ann ((a) b) c",
        "Ann (a",
        "",
    ];
    for name in names {
        let normal = normalize_speaker_name(name);
        assert_eq!(normalize_speaker_name(&normal), normal);
    }
    assert_eq!(normalize_speaker_name("Ann ((a) b) c"), "Ann b) c");
    assert_eq!(normalize_speaker_name("Ann (a\nb) c"), "Ann c");
    assert_eq!(normalize_speaker_name(") Ann (a"), ") Ann (a");
    assert_eq!(normalize_speaker_name("Ministerie X"), "Ministerie X");
    assert_eq!(normalize_speaker_name("Minister"), "Minister");
    assert_eq!(normalize_speaker_name("Minister Minister X"), "Minister X");
    assert_eq!(normalize_speaker_name("Le ministre\u{2003} X"), "X");
    assert_eq!(normalize_speaker_name("le ministre X"), "le ministre X");
}

#[test]
fn patterns_know_the_white_space_of_unicode() {
    let white_space = regex::Regex::new(WHITE_SPACE).unwrap();
    for code in 0..=0x10ffffu32 {
        if let Some(c) = char::from_u32(code) {
            let mut bytes = [0; 4];
            assert_eq!(white_space.is_match(c.encode_utf8(&mut bytes)), is_white_space(c));
        }
    }
}

#[test]
fn somebody_is_asked_where_there_is_a_question() {
    let subjects = collect_subjects(&vec![]);
    assert!(subjects.questionees.is_empty() && subjects.internal_ids.is_empty());
    let captures = vec![capture("A", Some("T"), "x", "1C"), capture("B", Some("T"), "y", "2C")];
    let subjects = collect_subjects(&captures);
    assert_eq!((subjects.questionees.len(), subjects.internal_ids.len()), (1, 2));
}

#[test]
fn names_end_at_brackets_commas_colons_and_lines() {
    for (announced, name) in [
        ("Ann B (c)", "Ann B "),
        ("Ann, b", "Ann"),
        ("Ann: b", "Ann"),
        ("Ann\nb", "Ann"),
        ("Ann\rb", "Ann"),
        ("Ann) b", "Ann) b"),
        (", b", "Onbekend"),
    ] {
        assert_eq!(speaker_name(announced), name);
    }
}

#[test]
fn dashes_are_spaced_and_brackets_closed() {
    assert_eq!(fixed("-"), "-");
    assert_eq!(fixed("--a"), "- -a");
    assert_eq!(fixed("-\u{a0}a"), "-\u{a0}a");
    assert_eq!(fixed("a -b"), "a -b");
    assert_eq!(fixed("(a: b (c: d"), "(a): b (c: d");
    assert_eq!(fixed("(a (b:\u{a0}c"), "(a (b): c");
    assert_eq!(fixed("(a:b"), "(a:b");
    assert_eq!(fixed("(a\nb: c"), "(a\nb: c");
    assert_eq!(fixed("(a) b: c"), "(a) b: c");
    assert_eq!(fixed("(: c"), "(): c");
    assert_eq!(fixed("(a:: b"), "(a:: b");
    assert_eq!(fixed("x Isabelle Hansez Je"), "x Isabelle Hansez Je");
}

#[test]
fn numbers_of_questions_have_six_to_eight_digits() {
    for (number, found) in [
        ("12345C", false),
        ("123456C", true),
        ("12345678c", true),
        ("123456", false),
        ("٣٤٥٦٧٨C", true),
    ] {
        let captures = find_questions(&format!("Vraag van A over 'T' ({})", number));
        assert_eq!(captures.len(), found as usize);
        if found {
            assert_eq!(captures[0].number, number);
            let subjects = collect_subjects(&captures);
            assert_eq!(subjects.internal_ids, vec![format!("Q{}", number)]);
        }
    }
}

#[test]
fn speakers_of_both_discussions() {
    let a = "01.01  Ann: aNEWPARAGRAPH01.02  Bob: b";
    let b = "01.03  Bob: cNEWPARAGRAPH01.04  Cis: d";
    let both = format!("{}NEWPARAGRAPH{}", a, b);
    assert_eq!(extract_speakers_from_discussion(&both), owned(&["Ann", "Bob", "Cis"]));
}

#[test]
fn contributions_read_back() {
    let text: String = (0..0x200u32).filter_map(char::from_u32).chain("“€😀".chars()).collect();
    let list = vec![
        Contribution { speaker: "A\u{1}\u{1f}\u{7f}".to_string(), text },
        Contribution { speaker: String::new(), text: String::new() },
    ];
    let json = contributions_to_json(&list);
    assert!(json.starts_with("[\n  {\n    \"speaker\": \"A\\u0001\\u001f\u{7f}\",\n    \"text\": \"\\u0000"));
    assert!(json.contains("\\u0007\\b\\t\\n\\u000b\\f\\r\\u000e"));
    assert!(json.contains(" !\\\"#"));
    assert!(json.contains("[\\\\]"));
    let value: serde_json::Value = serde_json::from_str(&json).unwrap();
    for (i, c) in list.iter().enumerate() {
        assert_eq!(value[i]["speaker"], c.speaker.as_str());
        assert_eq!(value[i]["text"], c.text.as_str());
    }
}
