use commission_meetings::commission::{parse_commission_type, recognize_commission, Commission};
use commission_meetings::document::{is_parsable, Document, Element};
use commission_meetings::error::{IntegerError, ScrapeError};
use commission_meetings::meeting::{
    chair_names, extract_chair_from_document, extract_commission_from_document,
    extract_date_from_document, extract_end_time_from_document, extract_meeting,
    extract_start_time_from_document, extract_time_from_document,
    extract_time_of_day_from_document, format_date, format_time, number_of_month,
    scrape_document, scrape_meeting, translate_time_of_day,
};
use commission_meetings::sections::{
    extract_questions, find_closed_questions, scrape_question, ClosedQuestion, Section,
    SectionLang,
};

fn unchanged(s: &str) -> String {
    s.to_string()
}

fn one_line(s: &str) -> String {
    s.split_whitespace().collect::<Vec<_>>().join(" ")
}

fn element(name: &str, texts: &[&str]) -> Element {
    Element { name: name.to_string(), texts: texts.iter().map(|s| s.to_string()).collect() }
}

fn empty() -> Document {
    Document {
        spans: vec![],
        spans_and_paragraphs: vec![],
        first_table_spans: None,
        headings_and_paragraphs: vec![],
    }
}

const PAGE: &str = "<html><body>
<table><tr><td><span>Commissie  voor
 Justitie</span></td><td><span>Dinsdag</span> <span>3 Februari 2026</span></td></tr>
<tr><td><span> Namiddag </span></td></tr></table>
<table><tr><td><span>Voormiddag</span></td></tr></table>
<p>De behandeling van de vragen vangt aan om 14.13 uur. De vergadering wordt
voorgezeten door de heer Jan\u{a0}X en mevrouw Ann Y.</p>
<h2>Vraag van Kjell Vander Elst aan Theo Francken over \"De F-35\" (56002763C)</h2>
<h2>Question de Kjell Vander Elst à Theo Francken sur \"Le F-35\" (56002763C)</h2>
<p>01.01  <b>Kjell Vander Elst</b> (Vooruit): Vraag?</p>
<p>01.02  Minister Theo Francken: Antwoord.</p>
<p> </p>
<h2>Samengevoegde vragen van</h2>
<h2>-Piet P aan Jan Q over 'A' (1234567C)</h2>
<h2>Questions jointes de</h2>
<h2>- Piet P à Jan Q sur 'B' (1234567C)</h2>
<p>02.01  Piet P: Ja.</p>
<p>De vergadering wordt gesloten om 15:20 uur.</p>
</body></html>";

#[test]
fn commissions_are_known_by_a_word() {
    let cases = [
        ("Commissie voor Binnenlandse Zaken", Commission::BinnenlandseZakenVeiligheidMigratieEnBestuurszaken),
        (" JUSTITIE ", Commission::Justitie),
        ("Gezondheid", Commission::GezondheidEnGelijkeKansen),
        ("economie", Commission::EconomieConsumentenBeschermingEnDigitalisering),
        ("buitenlandse", Commission::BuitenlandseBetrekkingen),
        ("mobiliteit", Commission::MobiliteitOverheidsbedrijvenEnFederaleInstellingen),
        ("landsverdediging", Commission::Landsverdediging),
        ("energie", Commission::EnergieLeefmilieuEnKlimaat),
        ("sociale", Commission::SocialeZakenWerkEnPensioenen),
        ("FINANCIËN EN BEGROTING", Commission::FinancienEnBegroting),
        ("klimaatdialoog", Commission::InterparlementaireKlimaatdialoog),
        ("grondwet", Commission::GrondwetEnInstitutioneleVernieuwing),
        ("", Commission::Onbekend),
        ("justitie en binnenlandse zaken", Commission::BinnenlandseZakenVeiligheidMigratieEnBestuurszaken),
    ];
    for (raw, commission) in cases {
        assert_eq!(parse_commission_type(raw), commission);
        assert_eq!(recognize_commission(&commission.name()), commission);
        assert_eq!(parse_commission_type(&commission.name()), commission);
    }
    assert_eq!(Commission::FinancienEnBegroting.name(), "financiën en begroting");
    assert_eq!(Commission::Onbekend.name(), "onbekend");
    assert_eq!(recognize_commission("Justitie"), Commission::Onbekend);
}

#[test]
fn documents_are_read_from_html() {
    let document = Document::parse(PAGE);
    let texts = |list: &Vec<Element>| list.iter().map(|e| one_line(&e.text())).collect::<Vec<_>>();
    assert_eq!(document.spans.len(), 5);
    let spans = document.first_table_spans.as_ref().unwrap();
    assert_eq!(texts(spans), ["Commissie voor Justitie", "Dinsdag", "3 Februari 2026", "Namiddag"]);
    assert_eq!(document.headings_and_paragraphs.len(), 12);
    assert_eq!(document.headings_and_paragraphs[1].name, "h2");
    assert_eq!(document.headings_and_paragraphs[3].name, "p");
    assert_eq!(
        document.headings_and_paragraphs[3].texts,
        ["01.01  ", "Kjell Vander Elst", " (Vooruit): Vraag?"]
    );
    assert_eq!(document.spans_and_paragraphs.len(), 11);
    assert!(Document::parse("<p>x</p>").first_table_spans.is_none());
    assert!(Document::parse("<table></table>").first_table_spans.unwrap().is_empty());
}

#[test]
fn dates_are_formatted() {
    assert_eq!(format_date("3", "Februari", "2026").unwrap(), "2026-02-03");
    assert_eq!(format_date("31", "december", "2025").unwrap(), "2025-12-31");
    assert_eq!(format_date("255", "mei", "1").unwrap(), "1-05-255");
    assert_eq!(format_date("256", "mei", "1"), Err(ScrapeError::Day(IntegerError::TooLarge)));
    assert_eq!(format_date("٣", "x", "1"), Err(ScrapeError::Day(IntegerError::InvalidDigit)));
    assert_eq!(format_date("", "mei", "1"), Err(ScrapeError::Day(IntegerError::Empty)));
    assert_eq!(format_date("3", "March", "2026"), Err(ScrapeError::Month));
    let months = [
        "januari", "februari", "maart", "april", "mei", "juni", "juli", "augustus", "september",
        "oktober", "november", "december",
    ];
    for (i, month) in months.iter().enumerate() {
        assert_eq!(number_of_month(month), Some(format!("{:02}", i + 1).as_str()));
    }
    assert_eq!(number_of_month("Mei"), None);
}

#[test]
fn the_date_stands_in_the_first_table() {
    let mut document = empty();
    assert_eq!(extract_date_from_document(&document), Err(ScrapeError::NoTable));
    document.first_table_spans = Some(vec![]);
    assert_eq!(extract_date_from_document(&document), Err(ScrapeError::NoDate));
    document.first_table_spans = Some(vec![element("span", &["Dinsdag 3"]), element("span", &["mei", "2025"])]);
    assert_eq!(extract_date_from_document(&document).unwrap(), "2025-05-03");
    document.first_table_spans = Some(vec![element("span", &["3 may 2025"])]);
    assert_eq!(extract_date_from_document(&document), Err(ScrapeError::Month));
    document.first_table_spans = Some(vec![element("span", &["٣ mei 2025"])]);
    assert_eq!(
        extract_date_from_document(&document),
        Err(ScrapeError::Day(IntegerError::InvalidDigit))
    );
}

#[test]
fn the_first_time_of_day_counts() {
    let mut document = empty();
    assert_eq!(extract_time_of_day_from_document(&document), Err(ScrapeError::TimeOfDay));
    document.spans = vec![element("span", &["x"]), element("span", &[" AVOND "]), element("span", &["Namiddag"])];
    assert_eq!(extract_time_of_day_from_document(&document).unwrap(), "evening");
    assert_eq!(translate_time_of_day("namiddag"), Some("afternoon"));
    assert_eq!(translate_time_of_day("voormiddag"), Some("morning"));
    assert_eq!(translate_time_of_day("avond"), Some("evening"));
    assert_eq!(translate_time_of_day("nacht"), None);
}

#[test]
fn the_last_time_counts() {
    let mut document = empty();
    assert_eq!(extract_start_time_from_document(&document), Err(ScrapeError::StartTime));
    assert_eq!(extract_end_time_from_document(&document), Err(ScrapeError::EndTime));
    document.spans_and_paragraphs = vec![
        element("p", &["De vergadering wordt\ngeopend om 9.05 uur"]),
        element("span", &["De vergadering wordt geopend om 14:13 uur"]),
        element("p", &["De vergadering wordt geopend later"]),
        element("p", &["De vergadering wordt gesloten om 16.00 uur"]),
        element("p", &["Om 18.00 uur"]),
    ];
    assert_eq!(extract_start_time_from_document(&document).unwrap(), "14h13");
    assert_eq!(extract_end_time_from_document(&document).unwrap(), "16h00");
    assert_eq!(extract_time_from_document(&document, &["Om"]), Some("18h00".to_string()));
    assert_eq!(extract_time_from_document(&document, &["later"]), None);
    assert_eq!(extract_time_from_document(&document, &[]), None);
    assert_eq!(format_time("9", "05"), "9h05");
}

#[test]
fn the_general_words_for_a_start_fit_an_end_too() {
    let mut document = empty();
    document.spans_and_paragraphs = vec![
        element("p", &["De behandeling van de vragen vangt aan om 14.13 uur"]),
        element("p", &["De behandeling van de vragen eindigt om 15.20 uur"]),
    ];
    assert_eq!(extract_start_time_from_document(&document).unwrap(), "15h20");
    assert_eq!(extract_end_time_from_document(&document).unwrap(), "15h20");
}

#[test]
fn the_chair_is_named_without_titles() {
    assert_eq!(chair_names("de heer Jan\u{a0}X en mevrouw Ann Y"), ["Jan X", "Ann Y"]);
    assert_eq!(chair_names("mevrouw en de heer"), Vec::<String>::new());
    let mut document = empty();
    assert_eq!(extract_chair_from_document(&document), Err(ScrapeError::Chair));
    document.spans_and_paragraphs = vec![
        element("p", &["voorgezeten door de heer."]),
        element("p", &["Voorgezeten\ndoor", "mevrouw Ann Y en Piet Z."]),
        element("p", &["voorgezeten door Jan X."]),
    ];
    assert_eq!(extract_chair_from_document(&document).unwrap(), "Ann Y, Piet Z");
}

#[test]
fn the_commission_stands_in_the_first_span() {
    let mut document = empty();
    assert_eq!(extract_commission_from_document(&document), Err(ScrapeError::NoTable));
    document.first_table_spans = Some(vec![]);
    assert_eq!(extract_commission_from_document(&document), Err(ScrapeError::NoSpan));
    document.first_table_spans = Some(vec![element("span", &["Commissie\n voor", "Sociale  Zaken"])]);
    assert_eq!(
        extract_commission_from_document(&document).unwrap(),
        "sociale zaken, werk en pensioenen"
    );
}

#[test]
fn errors_have_messages() {
    let cases = [
        (ScrapeError::NoTable, "No table found"),
        (ScrapeError::NoSpan, "No span in first table"),
        (ScrapeError::NoDate, "Could not find date in document"),
        (ScrapeError::Day(IntegerError::Empty), "cannot parse integer from empty string"),
        (ScrapeError::Month, "Invalid month name"),
        (ScrapeError::TimeOfDay, "Could not extract time of day from the document"),
        (ScrapeError::StartTime, "Could not extract start time from the document"),
        (ScrapeError::EndTime, "Could not extract end time from the document"),
        (ScrapeError::Chair, "Could not extract chair"),
        (ScrapeError::TooLong, "Too many questions in the document"),
        (ScrapeError::MeetingId(IntegerError::InvalidDigit), "invalid digit found in string"),
    ];
    for (error, message) in cases {
        assert_eq!(error.message(), message);
    }
}

fn heading(section: &mut Section, text: &str) -> Option<ClosedQuestion> {
    section.read_heading(text.to_string(), &text.to_lowercase())
}

#[test]
fn headings_open_and_close_questions() {
    let mut section = Section::new();
    assert_eq!(section.lang, SectionLang::Nl);
    assert!(heading(&mut section, "Vraag van A").is_none());
    assert!(heading(&mut section, "- B").is_none());
    assert_eq!(section.nl, "Vraag van A\n- B");
    assert!(heading(&mut section, "Question de A").is_none());
    assert_eq!(section.lang, SectionLang::Fr);
    assert!(heading(&mut section, "- C").is_none());
    assert_eq!(section.fr, "Question de A\n- C");
    section.read_paragraph("p");
    section.read_paragraph("q");
    assert_eq!(section.discussion, "pNEWPARAGRAPHqNEWPARAGRAPH");
    assert!(heading(&mut section, "Besluit").is_none());
    assert!(heading(&mut section, "  ").is_none());
    let closed = heading(&mut section, "Samengevoegde vragen van").unwrap();
    assert_eq!(closed.nl, "Vraag van A\n- B");
    assert_eq!(closed.fr, "Question de A\n- C");
    assert_eq!(closed.discussion, "pNEWPARAGRAPHqNEWPARAGRAPH");
    assert_eq!(section.nl, "Samengevoegde vragen van");
    assert_eq!(section.fr, "");
    assert_eq!(section.discussion, "");
    assert_eq!(section.lang, SectionLang::Nl);
}

#[test]
fn hearings_clear_what_was_read() {
    let mut section = Section::new();
    heading(&mut section, "Vraag van A");
    section.read_paragraph("p");
    assert!(heading(&mut section, "Hoorzitting met B").is_none());
    assert_eq!(section.nl, "");
    assert_eq!(section.discussion, "");
    heading(&mut section, "Vraag van A");
    heading(&mut section, "Question de A");
    assert!(heading(&mut section, "Audition de B").is_some());
    assert_eq!(section.nl, "");
    assert_eq!(section.fr, "");
    assert!(section.close().is_none());
}

#[test]
fn questions_of_one_language_are_not_closed() {
    let mut document = empty();
    document.headings_and_paragraphs =
        vec![element("h2", &["Vraag van A"]), element("h2", &["Vraag van B"]), element("div", &["x"])];
    assert!(find_closed_questions(&document, &unchanged).is_empty());
}

#[test]
fn headings_are_cleaned_and_repaired() {
    let mut document = empty();
    document.headings_and_paragraphs = vec![
        element("h2", &["Samengevoegde vragen", "van"]),
        element("h2", &["-\"Ann\""]),
        element("h2", &["Questions jointes"]),
        element("p", &[" ", "Matti Vandael", " "]),
        element("p", &["  "]),
    ];
    let closed = find_closed_questions(&document, &|s: &str| s.to_uppercase());
    assert!(closed.is_empty());
    let closed = find_closed_questions(&document, &unchanged);
    assert_eq!(closed.len(), 1);
    assert_eq!(closed[0].nl, "Samengevoegde vragen van\n- 'Ann'");
    assert_eq!(closed[0].fr, "Questions jointes");
    assert_eq!(closed[0].discussion, "Matti VandemaeleNEWPARAGRAPH");
}

#[test]
fn closed_questions_are_scraped() {
    let closed = ClosedQuestion {
        nl: "Vraag van A aan B over 'T' (1234567C)\n- C aan B over 'U' (1234568C)".to_string(),
        fr: "Question de A à B sur 'V' (1234567C)".to_string(),
        discussion: "01.01  A: x".to_string(),
    };
    let question = scrape_question(4, 56, 7, "2026-02-03", &closed, &unchanged).unwrap();
    assert_eq!(question.question_id, 4);
    assert_eq!(question.session_id, 56);
    assert_eq!(question.meeting_id, 7);
    assert_eq!(question.questioners, "A,C");
    assert_eq!(question.questionees, "B");
    assert_eq!(question.respondents, "");
    assert_eq!(question.topics_nl, "T;U");
    assert_eq!(question.topics_fr, "V");
    assert_eq!(question.internal_ids, "Q1234567C,Q1234568C");
    assert_eq!(question.date, "2026-02-03");
}

#[test]
fn questions_are_numbered_from_zero() {
    let document = Document::parse(PAGE);
    let questions = extract_questions(&document, 56, 9, "2026-02-03", &one_line).unwrap();
    assert_eq!(questions.len(), 2);
    assert_eq!(questions[0].question_id, 0);
    assert_eq!(questions[0].questioners, "Kjell Vander Elst");
    assert_eq!(questions[0].questionees, "Theo Francken");
    assert_eq!(questions[0].respondents, "Theo Francken");
    assert_eq!(questions[0].topics_nl, "De F-35");
    assert_eq!(questions[0].topics_fr, "Le F-35");
    assert_eq!(questions[0].internal_ids, "Q56002763C");
    assert_eq!(questions[1].question_id, 1);
    assert_eq!(questions[1].questioners, "Piet P");
    assert_eq!(questions[1].topics_nl, "A");
    assert_eq!(questions[1].topics_fr, "B");
    assert_eq!(questions[1].respondents, "");
    for question in &questions {
        assert_eq!((question.session_id, question.meeting_id), (56, 9));
        assert_eq!(question.date, "2026-02-03");
    }
}

#[test]
fn meetings_are_scraped() {
    let output = scrape_meeting(PAGE, 56, 9, &one_line).unwrap();
    let meeting = &output.meeting;
    assert_eq!((meeting.session_id, meeting.meeting_id), (56, 9));
    assert_eq!(meeting.date, "2026-02-03");
    assert_eq!(meeting.time_of_day, "afternoon");
    assert_eq!(meeting.start_time, "14h13");
    assert_eq!(meeting.end_time, "15h20");
    assert_eq!(meeting.commission, "justitie");
    assert_eq!(meeting.chair, "Jan X, Ann Y");
    assert_eq!(output.questions.len(), 2);
    assert!(output.questions.iter().all(|q| q.date == meeting.date));
}

#[test]
fn the_first_error_counts() {
    let mut document = empty();
    assert_eq!(extract_meeting(&document, 1, 2).err(), Some(ScrapeError::NoTable));
    document.first_table_spans = Some(vec![element("span", &["3 mei 2025"])]);
    assert_eq!(extract_meeting(&document, 1, 2).err(), Some(ScrapeError::TimeOfDay));
    document.spans = vec![element("span", &["avond"])];
    assert_eq!(extract_meeting(&document, 1, 2).err(), Some(ScrapeError::StartTime));
    document.spans_and_paragraphs.push(element("p", &["De vergadering wordt geopend om 9.05 uur"]));
    assert_eq!(extract_meeting(&document, 1, 2).err(), Some(ScrapeError::EndTime));
    document.spans_and_paragraphs.push(element("p", &["De vergadering wordt gesloten om 9.06 uur"]));
    assert_eq!(
        scrape_document(&document, 1, 2, &unchanged).err(),
        Some(ScrapeError::Chair)
    );
    document.spans_and_paragraphs.push(element("p", &["voorgezeten door Jan X."]));
    let output = scrape_document(&document, 1, 2, &unchanged).unwrap();
    assert_eq!(output.meeting.commission, "onbekend");
    assert!(output.questions.is_empty());
    assert_eq!(scrape_meeting("", 1, 2, &unchanged).err(), Some(ScrapeError::NoTable));
}

#[test]
fn names_of_commissions_tell_them() {
    for raw in ["justitie", "begroting", "sociale", "klimaatdialoog", "energie", "x"] {
        let commission = parse_commission_type(raw);
        assert_eq!(parse_commission_type(&commission.name()), commission);
        assert_eq!(parse_commission_type(&commission.name().to_uppercase()), commission);
    }
}

#[test]
fn pages_must_fit_the_parser() {
    assert!(is_parsable(""));
    assert!(is_parsable(PAGE));
    assert!(is_parsable(&"&nGt;\0".repeat(1000)));
}

#[test]
fn the_first_table_counts() {
    let document = Document::parse(
        "<table><tr><td>x</td></tr></table><table><tr><td><span>y</span></td></tr></table>",
    );
    assert!(document.first_table_spans.unwrap().is_empty());
    let document = Document::parse(
        "<table><tr><td><span>a<b>b</b></span></td></tr></table><table><tr><td><span>y</span></td>\
         </tr></table>",
    );
    let spans = document.first_table_spans.unwrap();
    assert_eq!(spans.len(), 1);
    assert_eq!(spans[0].texts, vec!["a", "b"]);
    assert!(Document::parse("<span>x</span>").first_table_spans.is_none());
}

#[test]
fn hearings_are_known_in_any_case() {
    for text in ["HOORZITTING met “B”", "“B” en de hoorZitting", "Σ Audition Σ"] {
        let mut section = Section::new();
        heading(&mut section, "Vraag van A");
        heading(&mut section, text);
        assert_eq!(section.nl, "");
    }
}

#[test]
fn french_headings_change_french_topics_alone() {
    let other = PAGE.replace("\"Le F-35\"", "“Les vragen Σ”");
    let left = extract_questions(&Document::parse(PAGE), 56, 9, "d", &one_line).unwrap();
    let right = extract_questions(&Document::parse(&other), 56, 9, "d", &one_line).unwrap();
    assert_eq!(left.len(), right.len());
    assert_eq!(left[0].topics_fr, "Le F-35");
    assert_eq!(right[0].topics_fr, "Les vragen Σ");
    assert_eq!(left[1].topics_fr, right[1].topics_fr);
    for (a, b) in left.iter().zip(&right) {
        assert_eq!(a.question_id, b.question_id);
        assert_eq!(a.questioners, b.questioners);
        assert_eq!(a.questionees, b.questionees);
        assert_eq!(a.respondents, b.respondents);
        assert_eq!(a.topics_nl, b.topics_nl);
        assert_eq!(a.discussion, b.discussion);
        assert_eq!(a.internal_ids, b.internal_ids);
        assert_eq!(a.date, b.date);
    }
}

#[test]
fn headings_leave_no_double_quotes() {
    let mut document = empty();
    document.headings_and_paragraphs = vec![
        element("h2", &["Vraag van \"A\" aan \"B\" over \"T\" (1234567C)"]),
        element("h2", &["Question de A à B sur \"V\" (1234567C)"]),
        element("p", &["01.01  \"C\": x"]),
    ];
    let questions = extract_questions(&document, 56, 9, "d", &unchanged).unwrap();
    assert_eq!(questions[0].questioners, "'A'");
    assert_eq!(questions[0].questionees, "'B'");
    assert_eq!(questions[0].topics_nl, "T");
    assert_eq!(questions[0].topics_fr, "V");
    assert_eq!(questions[0].respondents, "\"C\"");
}
