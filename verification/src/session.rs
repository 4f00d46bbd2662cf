//! The sessions of the Chamber: which meetings there are, and where they are found.

use crate::error::{IntegerError, ScrapeError};
use crate::number::{
    decimal, integer_value, is_digit, law_decimal_is_read, law_decimal_reads_back,
    law_decimal_tells_apart, lemma_decimal_digits, lemma_padded_value, parse_integer, to_decimal, to_padded_decimal, zero_padded,
};
use crate::records::{
    all_meetings, all_questions, MeetingModel, MeetingOutput, OutputModel, QuestionModel,
    ScrapedMeeting, ScrapedQuestion,
};
use crate::text::{all_white, law_trimming_takes_white_space_around, trim, trimmed};
use vstd::prelude::*;

verus! {

/// The session that goes on.
pub const LATEST_SESSION_ID: u32 = 56;

/// The sessions that are read.
pub fn session_ids() -> (r: [u32; 2])
    ensures
        r@ == seq![56u32, 55u32],
{
    [56, 55]
}

/// Whether new meetings may have been added to a session.
pub fn may_have_new_meetings(session_id: u32) -> (r: bool)
    ensures
        r == (session_id == LATEST_SESSION_ID),
{
    session_id == LATEST_SESSION_ID
}

/// The address of the report of a meeting.
pub open spec fn url_of(session_id: nat, meeting_id: nat) -> Seq<char> {
    "https://www.dekamer.be/doc/CCRI/html/"@ + decimal(session_id) + "/ic"@ + zero_padded(
        decimal(meeting_id),
        3,
    ) + "x.html"@
}

/// The address of the report of a meeting.
pub fn meeting_url(session_id: u32, meeting_id: u32) -> (r: String)
    ensures
        r@ == url_of(session_id as nat, meeting_id as nat),
{
    let mut url = "https://www.dekamer.be/doc/CCRI/html/".to_owned();
    url.append(to_decimal(session_id as u64).as_str());
    url.append("/ic");
    url.append(to_padded_decimal(meeting_id as u64, 3).as_str());
    url.append("x.html");
    url
}

/// Where the report of a meeting is kept, below the directory for such copies.
pub open spec fn cache_path_of(session_id: nat, meeting_id: nat) -> Seq<char> {
    "sessions/"@ + decimal(session_id) + "/meetings/commission/"@ + decimal(session_id) + "-"@
        + decimal(meeting_id) + ".html"@
}

/// Where the report of a meeting is kept, below the directory for such copies.
pub fn cache_path(session_id: u32, meeting_id: u32) -> (r: String)
    ensures
        r@ == cache_path_of(session_id as nat, meeting_id as nat),
{
    let mut path = "sessions/".to_owned();
    path.append(to_decimal(session_id as u64).as_str());
    path.append("/meetings/commission/");
    path.append(to_decimal(session_id as u64).as_str());
    path.append("-");
    path.append(to_decimal(meeting_id as u64).as_str());
    path.append(".html");
    path
}

/// The number of a meeting that a stored text denotes.
pub open spec fn stored_meeting(text: Seq<char>) -> Result<nat, ScrapeError> {
    match integer_value(trimmed(text), u32::MAX as nat) {
        Ok(id) => Ok(id),
        Err(error) => Err(ScrapeError::MeetingId(error)),
    }
}

/// Reads the stored number of the last meeting.
pub fn parse_meeting_id(text: &str) -> (r: Result<u32, ScrapeError>)
    ensures
        match r {
            Ok(id) => stored_meeting(text@) == Ok::<nat, ScrapeError>(id as nat),
            Err(error) => stored_meeting(text@) == Err::<nat, ScrapeError>(error),
        },
{
    match parse_integer(trim(text), 0xffff_ffff) {
        Ok(id) => Ok(id as u32),
        Err(error) => Err(ScrapeError::MeetingId(error)),
    }
}

/// The number of the last meeting that is known, which is 0 where none was stored.
pub fn known_meeting_id(stored: Option<String>) -> (r: Result<u32, ScrapeError>)
    ensures
        match stored {
            None => r == Ok::<u32, ScrapeError>(0),
            Some(text) => match r {
                Ok(id) => stored_meeting(text@) == Ok::<nat, ScrapeError>(id as nat),
                Err(error) => stored_meeting(text@) == Err::<nat, ScrapeError>(error),
            },
        },
{
    match stored {
        None => Ok(0),
        Some(text) => parse_meeting_id(text.as_str()),
    }
}

/// The text to store for the number of the last meeting.
pub fn format_meeting_id(meeting_id: u32) -> (r: String)
    ensures
        r@ == decimal(meeting_id as nat),
{
    to_decimal(meeting_id as u64)
}

/// The search for the last meeting of a session, one meeting after the other.
pub struct Discovery {
    /// The last meeting known to be there.
    pub last: u32,
    /// The meeting to ask for next.
    pub probe: u32,
    /// How many meetings in a row were missing.
    pub misses: u32,
}

/// The model of a [`Discovery`].
pub struct DiscoveryModel {
    pub last: int,
    pub probe: int,
    pub misses: int,
}

impl View for Discovery {
    type V = DiscoveryModel;

    open spec fn view(&self) -> DiscoveryModel {
        DiscoveryModel {
            last: self.last as int,
            probe: self.probe as int,
            misses: self.misses as int,
        }
    }
}

impl DiscoveryModel {
    /// The search that starts after a meeting known to be there.
    pub open spec fn start(current: int) -> DiscoveryModel {
        DiscoveryModel { last: current, probe: current + 1, misses: 0 }
    }

    /// Whether the search is over: more than three meetings in a row were missing.
    pub open spec fn over(self) -> bool {
        self.misses > 3
    }

    /// The search after the answer on the meeting asked for.
    pub open spec fn answered(self, missing: bool) -> DiscoveryModel {
        if missing {
            if self.misses < 3 {
                DiscoveryModel { misses: self.misses + 1, probe: self.probe + 1, ..self }
            } else {
                DiscoveryModel { misses: self.misses + 1, ..self }
            }
        } else {
            DiscoveryModel { last: self.probe, probe: self.probe + 1, misses: 0 }
        }
    }
}

impl Discovery {
    /// The search that starts after a meeting known to be there.
    pub fn new(current_id: u32) -> (r: Discovery)
        requires
            current_id < u32::MAX,
        ensures
            r@ == DiscoveryModel::start(current_id as int),
    {
        Discovery { last: current_id, probe: current_id + 1, misses: 0 }
    }

    /// Takes the answer on the meeting asked for. Tells whether to ask for another.
    pub fn answer(&mut self, missing: bool) -> (r: bool)
        requires
            !old(self)@.over(),
            old(self).probe < u32::MAX || missing && old(self).misses == 3,
        ensures
            final(self)@ == old(self)@.answered(missing),
            r == !final(self)@.over(),
    {
        if missing {
            self.misses = self.misses + 1;
            // Allow up to 3 consecutive missing meeting IDs.
            if self.misses > 3 {
                return false;
            }
        } else {
            self.last = self.probe;
            self.misses = 0;
        }
        self.probe = self.probe + 1;
        true
    }
}

/// The search that starts after `current`, after up to `n` answers, where `missing` tells
/// which meetings are missing.
pub open spec fn search(missing: spec_fn(int) -> bool, current: int, n: nat) -> DiscoveryModel
    decreases n,
{
    if n == 0 {
        DiscoveryModel::start(current)
    } else {
        let before = search(missing, current, (n - 1) as nat);
        if before.over() {
            before
        } else {
            before.answered(missing(before.probe))
        }
    }
}

/// Whether the four meetings after `id` are missing.
pub open spec fn gap_after(missing: spec_fn(int) -> bool, id: int) -> bool {
    missing(id + 1) && missing(id + 2) && missing(id + 3) && missing(id + 4)
}

/// The meeting to read next, if the meetings up to `done` were read and `last` is the last one.
pub fn next_meeting(last: u32, done: u32) -> (r: Option<u32>)
    ensures
        r == (if done < last {
            Some((done + 1) as u32)
        } else {
            None::<u32>
        }),
{
    if done < last {
        Some(done + 1)
    } else {
        None
    }
}

/// What is kept of a session.
pub struct SessionOutput {
    pub meetings: Vec<ScrapedMeeting>,
    pub questions: Vec<ScrapedQuestion>,
}

/// The model of a [`SessionOutput`].
#[verifier::ext_equal]
pub struct SessionModel {
    pub meetings: Seq<MeetingModel>,
    pub questions: Seq<QuestionModel>,
}

impl View for SessionOutput {
    type V = SessionModel;

    open spec fn view(&self) -> SessionModel {
        SessionModel {
            meetings: all_meetings(self.meetings@),
            questions: all_questions(self.questions@),
        }
    }
}

impl SessionModel {
    /// Nothing yet.
    pub open spec fn start() -> SessionModel {
        SessionModel { meetings: Seq::empty(), questions: Seq::empty() }
    }

    /// With a further meeting, if it was read.
    pub open spec fn recorded(self, scraped: Option<OutputModel>) -> SessionModel {
        match scraped {
            Some(output) => SessionModel {
                meetings: self.meetings.push(output.meeting),
                questions: self.questions + output.questions,
            },
            None => self,
        }
    }
}

/// The model of what is kept of a meeting, if it was read.
pub open spec fn optional_output(scraped: Option<MeetingOutput>) -> Option<OutputModel> {
    match scraped {
        Some(output) => Some(output@),
        None => None,
    }
}

impl SessionOutput {
    /// Nothing yet.
    pub fn new() -> (r: SessionOutput)
        ensures
            r@ == SessionModel::start(),
    {
        SessionOutput { meetings: Vec::new(), questions: Vec::new() }
    }

    /// Keeps a meeting that was read; some meetings are empty and cannot be.
    pub fn record(&mut self, scraped: Option<MeetingOutput>)
        ensures
            final(self)@ == old(self)@.recorded(optional_output(scraped)),
    {
        if let Some(output) = scraped {
            let MeetingOutput { meeting, mut questions } = output;
            self.meetings.push(meeting);
            self.questions.append(&mut questions);
            assert(self@ =~= old(self)@.recorded(Some(output@)));
        }
    }
}

/// What is kept of a session once the meetings from 1 up to `done` were read, where `scraped`
/// gives what was read of a meeting.
pub open spec fn session_after(
    scraped: spec_fn(nat) -> Option<OutputModel>,
    done: nat,
) -> SessionModel
    decreases done,
{
    if done == 0 {
        SessionModel::start()
    } else {
        session_after(scraped, (done - 1) as nat).recorded(scraped(done))
    }
}

/// The meetings from 1 up to `last` that could be read, in ascending order.
pub open spec fn readable_meetings(
    scraped: spec_fn(nat) -> Option<OutputModel>,
    last: nat,
) -> Seq<nat>
    decreases last,
{
    if last == 0 {
        Seq::empty()
    } else if scraped(last) is Some {
        readable_meetings(scraped, (last - 1) as nat).push(last)
    } else {
        readable_meetings(scraped, (last - 1) as nat)
    }
}

/// The questions of the given meetings, one behind the other.
pub open spec fn questions_of_meetings(
    scraped: spec_fn(nat) -> Option<OutputModel>,
    meetings: Seq<nat>,
) -> Seq<QuestionModel>
    decreases meetings.len(),
{
    if meetings.len() == 0 {
        Seq::empty()
    } else {
        questions_of_meetings(scraped, meetings.drop_last()) + scraped(
            meetings.last(),
        )->Some_0.questions
    }
}

/// The readable meetings are those from 1 up to the last of which something was read, each once,
/// in ascending order.
pub proof fn law_readable_meetings_ascend(
    scraped: spec_fn(nat) -> Option<OutputModel>,
    last: nat,
    id: nat,
)
    ensures
        readable_meetings(scraped, last).contains(id) <==> 1 <= id <= last && scraped(id) is Some,
        forall|i: int, j: int|
            0 <= i < j < readable_meetings(scraped, last).len() ==> readable_meetings(
                scraped,
                last,
            )[i] < readable_meetings(scraped, last)[j],
    decreases last,
{
    if last > 0 {
        let before = readable_meetings(scraped, (last - 1) as nat);
        let all = readable_meetings(scraped, last);
        law_readable_meetings_ascend(scraped, (last - 1) as nat, id);
        if scraped(last) is Some {
            assert(all[before.len() as int] == last);
            if before.contains(id) {
                let i = choose|i: int| 0 <= i < before.len() && before[i] == id;
                assert(all[i] == id);
            }
            assert forall|i: int| 0 <= i < before.len() implies #[trigger] before[i] < last by {
                law_readable_meetings_ascend(scraped, (last - 1) as nat, before[i]);
                assert(before.contains(before[i]));
            }
        }
    }
}

/// A session keeps exactly the readable meetings, in ascending order, and their questions in the
/// same order.
pub proof fn law_session_keeps_readable_meetings(
    scraped: spec_fn(nat) -> Option<OutputModel>,
    last: nat,
)
    ensures
        session_after(scraped, last).meetings == readable_meetings(scraped, last).map_values(
            |id: nat| scraped(id)->Some_0.meeting,
        ),
        session_after(scraped, last).questions == questions_of_meetings(
            scraped,
            readable_meetings(scraped, last),
        ),
    decreases last,
{
    let f = |id: nat| scraped(id)->Some_0.meeting;
    if last == 0 {
        assert(session_after(scraped, last).meetings =~= readable_meetings(scraped, last).map_values(
            f,
        ));
    } else {
        law_session_keeps_readable_meetings(scraped, (last - 1) as nat);
        let before = readable_meetings(scraped, (last - 1) as nat);
        if scraped(last) is Some {
            assert(before.push(last).map_values(f) =~= before.map_values(f).push(f(last)));
            assert(before.push(last).drop_last() == before);
        }
    }
}

/// The number of the last meeting, stored and read again, is that number.
pub proof fn law_stored_meeting_reads_back(meeting_id: u32)
    ensures
        stored_meeting(decimal(meeting_id as nat)) == Ok::<nat, ScrapeError>(meeting_id as nat),
{
    law_decimal_reads_back(meeting_id as nat, u32::MAX as nat);
}

proof fn lemma_search_state(missing: spec_fn(int) -> bool, current: int, n: nat)
    ensures
        ({
            let s = search(missing, current, n);
            &&& 0 <= s.misses <= 4
            &&& current <= s.last
            &&& !s.over() ==> s.probe == s.last + s.misses + 1
            &&& s.over() ==> s.probe == s.last + 4
            &&& forall|k: int| s.last < k <= s.last + s.misses ==> #[trigger] missing(k)
            &&& s.last != current ==> !missing(s.last)
            &&& forall|k: int| current <= k < s.last ==> !#[trigger] gap_after(missing, k)
        }),
    decreases n,
{
    if n > 0 {
        lemma_search_state(missing, current, (n - 1) as nat);
        let before = search(missing, current, (n - 1) as nat);
        let s = search(missing, current, n);
        if !before.over() && !missing(before.probe) {
            assert forall|k: int| current <= k < s.last implies !#[trigger] gap_after(missing, k) by {
                if k >= before.last {
                    assert(before.probe <= k + 4);
                    assert(k + 1 <= before.probe);
                }
            }
        }
    }
}

/// A search that is over found the first meeting, at or after the one it started from, that
/// is followed by more than three missing ones.
pub proof fn law_search_ends_at_first_gap(missing: spec_fn(int) -> bool, current: int, n: nat)
    requires
        search(missing, current, n).over(),
    ensures
        search(missing, current, n).last >= current,
        gap_after(missing, search(missing, current, n).last),
        forall|k: int|
            current <= k < search(missing, current, n).last ==> !#[trigger] gap_after(missing, k),
        search(missing, current, n).last != current ==> !missing(
            search(missing, current, n).last,
        ),
{
    lemma_search_state(missing, current, n);
}

/// A search comes to an end where more than three meetings in a row are missing.
pub proof fn law_search_ends(missing: spec_fn(int) -> bool, current: int, gap: int)
    requires
        current <= gap,
        gap_after(missing, gap),
    ensures
        search(missing, current, (gap - current + 4) as nat).over(),
{
    let n = (gap - current + 4) as nat;
    lemma_search_state(missing, current, n);
    let s = search(missing, current, n);
    if !s.over() {
        lemma_search_probe(missing, current, n);
        assert(s.probe == gap + 5);
        if s.last > gap {
            assert(!gap_after(missing, gap));
        } else {
            assert(s.misses >= 4);
        }
    }
}

proof fn lemma_search_probe(missing: spec_fn(int) -> bool, current: int, n: nat)
    requires
        !search(missing, current, n).over(),
    ensures
        search(missing, current, n).probe == current + 1 + n,
    decreases n,
{
    if n > 0 {
        lemma_search_state(missing, current, (n - 1) as nat);
        lemma_search_probe(missing, current, (n - 1) as nat);
    }
}

/// Two numbers whose notations are followed by the same character, no digit, in the same
/// text are the same.
proof fn lemma_same_number(a: Seq<char>, b: Seq<char>, after_a: Seq<char>, after_b: Seq<char>)
    requires
        a + after_a == b + after_b,
        forall|i: int| 0 <= i < a.len() ==> is_digit(#[trigger] a[i]),
        forall|i: int| 0 <= i < b.len() ==> is_digit(#[trigger] b[i]),
        after_a.len() > 0 && !is_digit(after_a[0]),
        after_b.len() > 0 && !is_digit(after_b[0]),
    ensures
        a == b,
        after_a == after_b,
{
    let whole = a + after_a;
    if a.len() < b.len() {
        assert(whole[a.len() as int] == after_a[0]);
        assert((b + after_b)[a.len() as int] == b[a.len() as int]);
    } else if b.len() < a.len() {
        assert((b + after_b)[b.len() as int] == after_b[0]);
        assert(whole[b.len() as int] == a[b.len() as int]);
    } else {
        assert(whole.take(a.len() as int) == a);
        assert((b + after_b).take(b.len() as int) == b);
        assert(whole.skip(a.len() as int) == after_a);
        assert((b + after_b).skip(b.len() as int) == after_b);
    }
}

/// Different meetings have different addresses.
pub proof fn law_url_tells_apart(session_a: nat, meeting_a: nat, session_b: nat, meeting_b: nat)
    requires
        url_of(session_a, meeting_a) == url_of(session_b, meeting_b),
    ensures
        session_a == session_b,
        meeting_a == meeting_b,
{
    reveal_strlit("/ic");
    reveal_strlit("x.html");
    let site = "https://www.dekamer.be/doc/CCRI/html/"@;
    let padded_a = zero_padded(decimal(meeting_a), 3);
    let padded_b = zero_padded(decimal(meeting_b), 3);
    let rest_a = "/ic"@ + padded_a + "x.html"@;
    let rest_b = "/ic"@ + padded_b + "x.html"@;
    lemma_decimal_digits(session_a);
    lemma_decimal_digits(session_b);
    assert(url_of(session_a, meeting_a) == site + (decimal(session_a) + rest_a));
    assert(url_of(session_b, meeting_b) == site + (decimal(session_b) + rest_b));
    assert((site + (decimal(session_a) + rest_a)).skip(site.len() as int) == decimal(session_a)
        + rest_a);
    assert((site + (decimal(session_b) + rest_b)).skip(site.len() as int) == decimal(session_b)
        + rest_b);
    lemma_same_number(decimal(session_a), decimal(session_b), rest_a, rest_b);
    law_decimal_tells_apart(session_a, session_b);
    assert(rest_a.subrange(3, rest_a.len() - 6) == padded_a);
    assert(rest_b.subrange(3, rest_b.len() - 6) == padded_b);
    let max = if meeting_a < meeting_b {
        meeting_b
    } else {
        meeting_a
    };
    lemma_padded_value(meeting_a, 3, max);
    lemma_padded_value(meeting_b, 3, max);
}

/// The copies of different meetings are kept in different places.
pub proof fn law_cache_path_tells_apart(
    session_a: nat,
    meeting_a: nat,
    session_b: nat,
    meeting_b: nat,
)
    requires
        cache_path_of(session_a, meeting_a) == cache_path_of(session_b, meeting_b),
    ensures
        session_a == session_b,
        meeting_a == meeting_b,
{
    reveal_strlit("/meetings/commission/");
    reveal_strlit("-");
    reveal_strlit(".html");
    let top = "sessions/"@;
    let middle = "/meetings/commission/"@;
    let rest_a = middle + decimal(session_a) + "-"@ + decimal(meeting_a) + ".html"@;
    let rest_b = middle + decimal(session_b) + "-"@ + decimal(meeting_b) + ".html"@;
    lemma_decimal_digits(session_a);
    lemma_decimal_digits(session_b);
    lemma_decimal_digits(meeting_a);
    lemma_decimal_digits(meeting_b);
    assert(cache_path_of(session_a, meeting_a) == top + (decimal(session_a) + rest_a));
    assert(cache_path_of(session_b, meeting_b) == top + (decimal(session_b) + rest_b));
    assert((top + (decimal(session_a) + rest_a)).skip(top.len() as int) == decimal(session_a)
        + rest_a);
    assert((top + (decimal(session_b) + rest_b)).skip(top.len() as int) == decimal(session_b)
        + rest_b);
    lemma_same_number(decimal(session_a), decimal(session_b), rest_a, rest_b);
    law_decimal_tells_apart(session_a, session_b);
    let skip = middle.len() + decimal(session_a).len() + 1;
    let end_a = decimal(meeting_a) + ".html"@;
    let end_b = decimal(meeting_b) + ".html"@;
    assert(rest_a.skip(skip as int) == end_a);
    assert(rest_b.skip(skip as int) == end_b);
    lemma_same_number(decimal(meeting_a), decimal(meeting_b), ".html"@, ".html"@);
    law_decimal_tells_apart(meeting_a, meeting_b);
}

/// The session that goes on is the 56th, and it alone may have new meetings.
pub proof fn law_latest_session()
    ensures
        LATEST_SESSION_ID == 56,
{
}

/// A search that is over found the last meeting before the first four in a row that are missing:
/// the four behind it are missing, and of any four behind an earlier one, from the start on, one is
/// there. It is itself there, unless it is the one from which the search started.
pub proof fn law_search_stops_behind_four_missing(
    missing: spec_fn(int) -> bool,
    current: int,
    n: nat,
)
    requires
        search(missing, current, n).over(),
    ensures
        ({
            let last = search(missing, current, n).last;
            &&& last >= current
            &&& missing(last + 1) && missing(last + 2) && missing(last + 3) && missing(last + 4)
            &&& last != current ==> !missing(last)
            &&& forall|k: int|
                current <= k < last ==> !#[trigger] missing(k + 1) || !missing(k + 2) || !missing(
                    k + 3,
                ) || !missing(k + 4)
        }),
{
    law_search_ends_at_first_gap(missing, current, n);
    let last = search(missing, current, n).last;
    assert forall|k: int| current <= k < last implies !#[trigger] missing(k + 1) || !missing(k + 2)
        || !missing(k + 3) || !missing(k + 4) by {
        assert(!gap_after(missing, k));
    }
}

/// The search goes on, one meeting further each time, until four in a row were missing; a meeting
/// that is there starts the count anew.
pub proof fn law_search_goes_on(search: DiscoveryModel, current: int)
    ensures
        DiscoveryModel::start(current).last == current,
        DiscoveryModel::start(current).probe == current + 1,
        DiscoveryModel::start(current).misses == 0,
        search.over() <==> search.misses >= 4,
        search.answered(false).last == search.probe,
        search.answered(false).probe == search.probe + 1,
        search.answered(false).misses == 0,
        search.answered(true).last == search.last,
        search.answered(true).misses == search.misses + 1,
        search.misses < 3 ==> search.answered(true).probe == search.probe + 1,
{
}

/// The address of a report is that of the Chamber's reports in HTML, then the session, then `ic`
/// and the meeting in at least three digits, padded with zeros, then `x.html`.
pub proof fn law_address_of_a_report(session_id: nat, meeting_id: nat)
    ensures
        meeting_id < 10 ==> url_of(session_id, meeting_id)
            == "https://www.dekamer.be/doc/CCRI/html/"@ + decimal(session_id) + "/ic00"@ + decimal(
            meeting_id,
        ) + "x.html"@,
        10 <= meeting_id < 100 ==> url_of(session_id, meeting_id)
            == "https://www.dekamer.be/doc/CCRI/html/"@ + decimal(session_id) + "/ic0"@ + decimal(
            meeting_id,
        ) + "x.html"@,
        100 <= meeting_id ==> url_of(session_id, meeting_id)
            == "https://www.dekamer.be/doc/CCRI/html/"@ + decimal(session_id) + "/ic"@ + decimal(
            meeting_id,
        ) + "x.html"@,
{
    reveal_strlit("/ic");
    reveal_strlit("/ic0");
    reveal_strlit("/ic00");
    reveal_with_fuel(decimal, 4);
    let site = "https://www.dekamer.be/doc/CCRI/html/"@ + decimal(session_id);
    let number = decimal(meeting_id);
    assert(url_of(session_id, meeting_id) == site + ("/ic"@ + zero_padded(number, 3)) + "x.html"@);
    if meeting_id < 10 {
        assert(number.len() == 1);
        assert("/ic"@ + zero_padded(number, 3) =~= "/ic00"@ + number);
        assert(site + ("/ic00"@ + number) == site + "/ic00"@ + number);
    } else if meeting_id < 100 {
        assert(decimal(meeting_id / 10).len() == 1);
        assert(number.len() == 2);
        assert("/ic"@ + zero_padded(number, 3) =~= "/ic0"@ + number);
        assert(site + ("/ic0"@ + number) == site + "/ic0"@ + number);
    } else {
        lemma_three_digits(meeting_id);
        assert(zero_padded(number, 3) == number);
    }
}

proof fn lemma_three_digits(n: nat)
    requires
        n >= 100,
    ensures
        decimal(n).len() >= 3,
    decreases n,
{
    reveal_with_fuel(decimal, 4);
    if n / 10 >= 100 {
        lemma_three_digits(n / 10);
    } else {
        assert(decimal(n / 10 / 10).len() >= 1);
        assert(decimal(n / 10).len() >= 2);
    }
}

/// The copy of a report is kept in the directory of its session, under the session and the meeting.
pub proof fn law_place_of_a_copy(session_id: nat, meeting_id: nat)
    ensures
        cache_path_of(session_id, meeting_id) == "sessions/"@ + decimal(session_id)
            + "/meetings/commission/"@ + decimal(session_id) + "-"@ + decimal(meeting_id)
            + ".html"@,
{
}

/// A stored number is read whatever white space stands around it; what is no number, or is larger
/// than the numbers of meetings can be, is refused.
pub proof fn law_stored_meeting_is_read(a: Seq<char>, id: nat, b: Seq<char>)
    requires
        all_white(a),
        all_white(b),
    ensures
        id <= 0xffff_ffff ==> stored_meeting(a + decimal(id) + b) == Ok::<nat, ScrapeError>(id),
        id > 0xffff_ffff ==> stored_meeting(a + decimal(id) + b) == Err::<nat, ScrapeError>(
            ScrapeError::MeetingId(IntegerError::TooLarge),
        ),
        stored_meeting(a + b) == Err::<nat, ScrapeError>(
            ScrapeError::MeetingId(IntegerError::Empty),
        ),
{
    let s = decimal(id);
    lemma_decimal_digits(id);
    assert(is_digit(s[0]));
    assert(is_digit(s[s.len() - 1]));
    law_trimming_takes_white_space_around(a, s, b);
    law_decimal_is_read(id, 0xffff_ffff);
}

/// A meeting that was read is kept behind those before it, and so are its questions; one that was
/// not changes nothing.
pub proof fn law_sessions_grow(session: SessionModel, output: OutputModel)
    ensures
        SessionModel::start().meetings.len() == 0,
        SessionModel::start().questions.len() == 0,
        session.recorded(None) == session,
        session.recorded(Some(output)).meetings == session.meetings.push(output.meeting),
        session.recorded(Some(output)).questions == session.questions + output.questions,
{
}

} // verus!
