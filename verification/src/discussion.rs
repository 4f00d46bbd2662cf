//! The discussion of a question: who says what.

use crate::cleaning::{cleans_all, may_clean};
use crate::json::{
    json_object, json_string, law_json_tells_apart, lemma_plain_is_not_escaped, member_texts,
    object_texts, pretty_json, to_pretty_json, two_in_order,
};
use crate::pattern::{
    all_found, boundary, byte_len, byte_slice, ends_name, find_all, find_first,
    lemma_boundary_within, lies_in, name_start, pattern_matches, replace_first, slice_bytes, untitled, Found,
    FoundModel, SPEAKER, SPEAKER_NAME, TITLES,
};
use crate::text::{
    holds_text, joined, law_replacing_is_splitting_and_joining, law_split_at_separator,
    lemma_joined_front, lemma_nothing_to_replace, lemma_part_of_part, lemma_single_piece,
    lemma_trimmed_ends, lemma_trimmed_is_part, pieces, replace, replaced, trim, trimmed, white_space,
};
use crate::speakers::law_title_is_taken_away;
use vstd::prelude::*;

verus! {

/// Where a speaker is announced in a discussion, in bytes, and who it is. What is said
/// follows the announcement, up to the next one.
pub struct Turn {
    pub start: usize,
    pub end: usize,
    pub speaker: String,
}

/// The model of a [`Turn`].
#[verifier::ext_equal]
pub struct TurnModel {
    pub start: int,
    pub end: int,
    pub speaker: Seq<char>,
}

impl View for Turn {
    type V = TurnModel;

    open spec fn view(&self) -> TurnModel {
        TurnModel { start: self.start as int, end: self.end as int, speaker: self.speaker@ }
    }
}

/// What a speaker says.
pub struct Contribution {
    pub speaker: String,
    pub text: String,
}

/// The model of a [`Contribution`].
#[verifier::ext_equal]
pub struct ContributionModel {
    pub speaker: Seq<char>,
    pub text: Seq<char>,
}

impl View for Contribution {
    type V = ContributionModel;

    open spec fn view(&self) -> ContributionModel {
        ContributionModel { speaker: self.speaker@, text: self.text@ }
    }
}

/// The models of a list of turns.
pub open spec fn all_turns(list: Seq<Turn>) -> Seq<TurnModel> {
    Seq::new(list.len(), |i: int| list[i]@)
}

/// The models of a list of contributions.
pub open spec fn all_contributions(list: Seq<Contribution>) -> Seq<ContributionModel> {
    Seq::new(list.len(), |i: int| list[i]@)
}

/// Whether the turns stand in `text`, one behind the other, and cut no character.
pub open spec fn turns_lie_in(text: Seq<char>, turns: Seq<TurnModel>) -> bool {
    &&& forall|i: int|
        0 <= i < turns.len() ==> {
            &&& (#[trigger] turns[i]).start <= turns[i].end
            &&& boundary(text, turns[i].start)
            &&& boundary(text, turns[i].end)
        }
    &&& forall|i: int, j: int|
        0 <= i < j < turns.len() ==> (#[trigger] turns[i]).end <= (#[trigger] turns[j]).start
}

/// The name of an announced speaker: without a title, up to the first bracket, comma,
/// colon or line end.
pub open spec fn announced_name(announced: Seq<char>) -> Seq<char> {
    let name = name_start(untitled(trimmed(announced)));
    if name.len() > 0 {
        name
    } else {
        "Onbekend"@
    }
}

/// The name that the search for one gave, or that nobody is known.
pub open spec fn name_found(found: Option<FoundModel>) -> Seq<char> {
    match found {
        Some(name) => name.group(0)->Some_0,
        None => "Onbekend"@,
    }
}

/// The turn that an announcement opens; one without a speaker is the chair's.
pub open spec fn turn_of(found: FoundModel) -> TurnModel {
    TurnModel {
        start: found.start,
        end: found.end,
        speaker: match found.group(2) {
            Some(announced) => announced_name(announced),
            None => "Voorzitter"@,
        },
    }
}

/// The turns of a discussion.
pub open spec fn discussion_turns(text: Seq<char>) -> Seq<TurnModel> {
    pattern_matches(SPEAKER@, text).map_values(|found: FoundModel| turn_of(found))
}

/// `text` without the sentences that close an incident.
pub open spec fn without_closing(text: Seq<char>) -> Seq<char> {
    replaced(replaced(text, "Het incident is gesloten."@, ""@), "L'incident est clos."@, ""@)
}

/// What is said in the turn `i`: the text up to the next turn or, in the last turn, up to
/// the end of the discussion, with its paragraphs on lines of their own.
pub open spec fn turn_text(text: Seq<char>, turns: Seq<TurnModel>, i: int) -> Seq<char> {
    if i + 1 < turns.len() {
        trimmed(without_closing(trimmed(byte_slice(text, turns[i].end, turns[i + 1].start))))
    } else {
        trimmed(
            replaced(
                without_closing(byte_slice(text, turns[i].end, byte_len(text))),
                "NEWPARAGRAPH"@,
                "\n"@,
            ),
        )
    }
}

/// The contributions of the first `n` turns. A turn in which nothing is said, or nobody
/// speaks, gives none.
pub open spec fn contributions(
    text: Seq<char>,
    turns: Seq<TurnModel>,
    n: nat,
) -> Seq<ContributionModel>
    decreases n,
{
    if n == 0 {
        Seq::empty()
    } else {
        let before = contributions(text, turns, (n - 1) as nat);
        let said = turn_text(text, turns, n - 1);
        if turns[n - 1].speaker.len() > 0 && said.len() > 0 {
            before.push(
                ContributionModel { speaker: trimmed(turns[n - 1].speaker), text: said },
            )
        } else {
            before
        }
    }
}

/// The members of the object for a contribution.
pub open spec fn members(contribution: ContributionModel) -> Seq<(Seq<char>, Seq<char>)> {
    seq![("speaker"@, contribution.speaker), ("text"@, contribution.text)]
}

/// The contributions to a cleaned discussion.
pub open spec fn discussion_contributions(text: Seq<char>) -> Seq<ContributionModel> {
    contributions(text, discussion_turns(text), discussion_turns(text).len())
}

/// The JSON text of a list of contributions.
pub open spec fn contributions_json(list: Seq<ContributionModel>) -> Seq<char> {
    pretty_json(list.map_values(|c: ContributionModel| members(c)))
}

/// The JSON text of a cleaned discussion.
pub open spec fn discussion_json(text: Seq<char>) -> Seq<char> {
    contributions_json(discussion_contributions(text))
}

/// The name that the search for one gave.
pub fn name_or_unknown(found: Option<Found>) -> (r: String)
    requires
        found matches Some(name) ==> name@.group(0) is Some,
    ensures
        r@ == name_found(
            match found {
                Some(name) => Some(name@),
                None => None,
            },
        ),
{
    if let Some(name) = found {
        if let Some(text) = name.group(0) {
            return text.clone();
        }
    }
    "Onbekend".to_owned()
}

/// The name of an announced speaker.
pub fn speaker_name(announced: &str) -> (r: String)
    ensures
        r@ == announced_name(announced@),
{
    proof {
        reveal_strlit("");
    }
    let stripped = replace_first(TITLES, trim(announced), "");
    name_or_unknown(find_first(SPEAKER_NAME, stripped.as_str()))
}

/// The turns of a cleaned discussion.
pub fn find_turns(text: &str) -> (r: Vec<Turn>)
    ensures
        all_turns(r@) == discussion_turns(text@),
        turns_lie_in(text@, all_turns(r@)),
{
    let announced = find_all(SPEAKER, text);
    let ghost found = pattern_matches(SPEAKER@, text@);
    let mut turns: Vec<Turn> = Vec::new();
    let mut i: usize = 0;
    while i < announced.len()
        invariant
            found == all_found(announced@),
            i <= announced.len(),
            turns@.len() == i,
            forall|j: int| 0 <= j < i ==> (#[trigger] turns@[j])@ == turn_of(found[j]),
        decreases announced.len() - i,
    {
        let speaker = match announced[i].group(2) {
            Some(full) => speaker_name(full.as_str()),
            None => "Voorzitter".to_owned(),
        };
        assert(found[i as int] == announced@[i as int]@);
        turns.push(Turn { start: announced[i].start, end: announced[i].end, speaker });
        i += 1;
    }
    proof {
        let r = all_turns(turns@);
        assert(r =~= discussion_turns(text@));
        assert forall|k: int| 0 <= k < r.len() implies {
            &&& (#[trigger] r[k]).start <= r[k].end
            &&& boundary(text@, r[k].start)
            &&& boundary(text@, r[k].end)
        } by {
            assert(lies_in(text@, found[k]));
        }
        assert forall|k: int, m: int| 0 <= k < m < r.len() implies (#[trigger] r[k]).end <= (
        #[trigger] r[m]).start by {
            assert(found[k].end <= found[m].start);
        }
    }
    turns
}

/// `text` without the sentences that close an incident.
fn remove_closing(text: &str) -> (r: String)
    ensures
        r@ == without_closing(text@),
{
    proof {
        reveal_strlit("Het incident is gesloten.");
        reveal_strlit("L'incident est clos.");
    }
    let dutch = replace(text, "Het incident is gesloten.", "");
    replace(dutch.as_str(), "L'incident est clos.", "")
}

/// What is said in the given turns of a cleaned discussion.
pub fn assemble_contributions(text: &str, turns: &Vec<Turn>) -> (r: Vec<Contribution>)
    requires
        turns_lie_in(text@, all_turns(turns@)),
    ensures
        all_contributions(r@) == contributions(text@, all_turns(turns@), turns@.len()),
{
    let ghost all = all_turns(turns@);
    let mut out: Vec<Contribution> = Vec::new();
    let mut i: usize = 0;
    assert(all_contributions(out@) == contributions(text@, all, 0));
    while i < turns.len()
        invariant
            all == all_turns(turns@),
            turns_lie_in(text@, all),
            i <= turns.len(),
            all_contributions(out@) == contributions(text@, all, i as nat),
        decreases turns.len() - i,
    {
        assert(all[i as int] == turns@[i as int]@);
        let said = if i + 1 < turns.len() {
            assert(all[i + 1] == turns@[i + 1]@);
            let segment = trim(slice_bytes(text, turns[i].end, turns[i + 1].start));
            trim(remove_closing(segment).as_str()).to_owned()
        } else {
            proof {
                reveal_strlit("NEWPARAGRAPH");
                vstd::utf8::encode_utf8_valid_utf8(text@);
                vstd::utf8::is_char_boundary_start_end_of_seq(vstd::utf8::encode_utf8(text@));
                lemma_boundary_within(text@, all[i as int].end);
            }
            let segment = slice_bytes(text, turns[i].end, text.as_bytes().len());
            let lines = replace(remove_closing(segment).as_str(), "NEWPARAGRAPH", "\n");
            trim(lines.as_str()).to_owned()
        };
        assert(said@ == turn_text(text@, all, i as int));
        if !turns[i].speaker.as_str().is_empty() && !said.as_str().is_empty() {
            let ghost before = out@;
            let speaker = trim(turns[i].speaker.as_str()).to_owned();
            out.push(Contribution { speaker, text: said });
            assert(all_contributions(out@) == all_contributions(before).push(out@.last()@));
        }
        i += 1;
    }
    out
}

/// The JSON text of a list of contributions.
pub fn contributions_to_json(list: &Vec<Contribution>) -> (r: String)
    ensures
        r@ == contributions_json(all_contributions(list@)),
{
    proof {
        reveal_strlit("speaker");
        reveal_strlit("text");
    }
    let mut objects: Vec<Vec<(String, String)>> = Vec::new();
    let mut i: usize = 0;
    while i < list.len()
        invariant
            i <= list.len(),
            objects@.len() == i,
            "speaker"@.len() > 0,
            "text"@.len() > 0,
            "speaker"@[0] < "text"@[0],
            forall|j: int|
                0 <= j < i ==> member_texts((#[trigger] objects@[j])@) == members(list@[j]@),
        decreases list.len() - i,
    {
        let mut object: Vec<(String, String)> = Vec::new();
        object.push(("speaker".to_owned(), list[i].speaker.clone()));
        object.push(("text".to_owned(), list[i].text.clone()));
        assert(member_texts(object@) == members(list@[i as int]@));
        objects.push(object);
        i += 1;
    }
    assert(object_texts(objects@) =~= all_contributions(list@).map_values(
        |c: ContributionModel| members(c),
    ));
    assert forall|j: int| 0 <= j < objects@.len() implies two_in_order(
        #[trigger] object_texts(objects@)[j],
    ) by {
        assert(member_texts(objects@[j]@) == members(list@[j]@));
    }
    to_pretty_json(&objects)
}

/// The JSON text of a cleaned discussion.
pub fn cleaned_discussion_json(cleaned: &str) -> (r: String)
    ensures
        r@ == discussion_json(cleaned@),
        discussion_contributions(cleaned@).len() == 0 ==> r@ == "[]"@,
{
    let turns = find_turns(cleaned);
    contributions_to_json(&assemble_contributions(cleaned, &turns))
}

/// The JSON text of a discussion, which `clean_text` cleans first.
pub fn get_discussion_json<F: Fn(&str) -> String>(input: &str, clean_text: &F) -> (r: String)
    requires
        cleans_all(*clean_text),
    ensures
        exists|cleaned: Seq<char>| #[trigger]
            may_clean(*clean_text, input@, cleaned) && r@ == discussion_json(cleaned) && (
            discussion_contributions(cleaned).len() == 0 ==> r@ == "[]"@),
{
    let cleaned = clean_text(input);
    assert(may_clean(*clean_text, input@, cleaned@));
    cleaned_discussion_json(cleaned.as_str())
}

/// Every contribution says something, with no white space around it, and the turns give
/// no more contributions than there are turns.
pub proof fn law_contributions_say_something(text: Seq<char>, turns: Seq<TurnModel>, n: nat)
    ensures
        contributions(text, turns, n).len() <= n,
        forall|i: int|
            0 <= i < contributions(text, turns, n).len() ==> {
                let c = #[trigger] contributions(text, turns, n)[i];
                &&& c.text.len() > 0
                &&& trimmed(c.text) == c.text
                &&& trimmed(c.speaker) == c.speaker
            },
    decreases n,
{
    if n > 0 {
        law_contributions_say_something(text, turns, (n - 1) as nat);
        lemma_trimmed_ends(turns[n - 1].speaker);
        if n < turns.len() {
            lemma_trimmed_ends(
                without_closing(trimmed(byte_slice(text, turns[n - 1].end, turns[n as int].start))),
            );
        } else {
            lemma_trimmed_ends(
                replaced(
                    without_closing(byte_slice(text, turns[n - 1].end, byte_len(text))),
                    "NEWPARAGRAPH"@,
                    "\n"@,
                ),
            );
        }
    }
}

/// The JSON text tells lists of contributions apart: who said what can be read back.
pub proof fn law_contributions_read_back(a: Seq<ContributionModel>, b: Seq<ContributionModel>)
    requires
        contributions_json(a) == contributions_json(b),
    ensures
        a == b,
{
    let f = |c: ContributionModel| members(c);
    let left = a.map_values(f);
    let right = b.map_values(f);
    law_json_tells_apart(left, right);
    assert forall|i: int| 0 <= i < a.len() implies a[i] == b[i] by {
        assert(left[i] == members(a[i]));
        assert(right[i] == members(b[i]));
        assert(members(a[i])[0].1 == members(b[i])[0].1);
        assert(members(a[i])[1].1 == members(b[i])[1].1);
    }
    assert(left.len() == right.len());
    assert(a =~= b);
}

/// The name of an announced speaker is not empty and holds no character that ends a name.
pub proof fn law_announced_name_is_plain(announced: Seq<char>)
    ensures
        announced_name(announced).len() > 0,
        forall|i: int|
            0 <= i < announced_name(announced).len() ==> !ends_name(
                #[trigger] announced_name(announced)[i],
            ),
{
    reveal_strlit("Onbekend");
    lemma_name_start_plain(untitled(trimmed(announced)));
}

proof fn lemma_name_start_plain(text: Seq<char>)
    ensures
        forall|i: int| 0 <= i < name_start(text).len() ==> !ends_name(#[trigger] name_start(text)[i]),
    decreases text.len(),
{
    if text.len() > 0 && !ends_name(text[0]) {
        let rest = text.drop_first();
        lemma_name_start_plain(rest);
        assert forall|i: int| 0 <= i < name_start(text).len() implies !ends_name(
            #[trigger] name_start(text)[i],
        ) by {
            if i > 0 {
                assert(name_start(text)[i] == name_start(rest)[i - 1]);
            }
        }
    }
}

/// What is said in a turn that another follows is the whole text between the two announcements,
/// but for the white space around it, where none of the closing sentences stands in it.
pub proof fn law_turn_is_kept_whole(text: Seq<char>, turns: Seq<TurnModel>, i: int)
    requires
        0 <= i < turns.len() - 1,
        !holds_text(
            byte_slice(text, turns[i].end, turns[i + 1].start),
            "Het incident is gesloten."@,
        ),
        !holds_text(byte_slice(text, turns[i].end, turns[i + 1].start), "L'incident est clos."@),
    ensures
        turn_text(text, turns, i) == trimmed(byte_slice(text, turns[i].end, turns[i + 1].start)),
{
    let between = byte_slice(text, turns[i].end, turns[i + 1].start);
    lemma_without_closing_stays(between);
    lemma_trimmed_ends(between);
}

/// What is said in the last turn is the whole rest of the text, its paragraphs on lines of their
/// own, but for the white space around it, where none of the closing sentences stands in it.
pub proof fn law_last_turn_is_kept_whole(text: Seq<char>, turns: Seq<TurnModel>, i: int)
    requires
        i == turns.len() - 1,
        !holds_text(byte_slice(text, turns[i].end, byte_len(text)), "Het incident is gesloten."@),
        !holds_text(byte_slice(text, turns[i].end, byte_len(text)), "L'incident est clos."@),
    ensures
        turn_text(text, turns, i) == trimmed(
            joined(
                pieces(byte_slice(text, turns[i].end, byte_len(text)), "NEWPARAGRAPH"@),
                "\n"@,
            ),
        ),
{
    let rest = byte_slice(text, turns[i].end, byte_len(text));
    reveal_strlit("NEWPARAGRAPH");
    lemma_nothing_to_replace(rest, "Het incident is gesloten."@, ""@);
    lemma_nothing_to_replace(rest, "L'incident est clos."@, ""@);
    law_replacing_is_splitting_and_joining(rest, "NEWPARAGRAPH"@, "\n"@);
}

proof fn lemma_without_closing_stays(between: Seq<char>)
    requires
        !holds_text(between, "Het incident is gesloten."@),
        !holds_text(between, "L'incident est clos."@),
    ensures
        without_closing(trimmed(between)) == trimmed(between),
{
    let inner = trimmed(between);
    lemma_trimmed_is_part(between);
    if holds_text(inner, "Het incident is gesloten."@) {
        lemma_part_of_part(between, inner, "Het incident is gesloten."@);
    }
    if holds_text(inner, "L'incident est clos."@) {
        lemma_part_of_part(between, inner, "L'incident est clos."@);
    }
    lemma_nothing_to_replace(inner, "Het incident is gesloten."@, ""@);
    lemma_nothing_to_replace(inner, "L'incident est clos."@, ""@);
}

proof fn lemma_left_out(a: Seq<char>, sentence: Seq<char>, b: Seq<char>)
    requires
        sentence.len() > 0,
        forall|i: int| 0 < i < sentence.len() ==> #[trigger] sentence[i] != sentence[0],
        !holds_text(a, sentence),
        !holds_text(b, sentence),
    ensures
        replaced(a + sentence + b, sentence, Seq::empty()) == a + b,
{
    let none = Seq::<char>::empty();
    law_replacing_is_splitting_and_joining(a + sentence + b, sentence, none);
    law_split_at_separator(a, sentence, b);
    lemma_single_piece(a, sentence);
    lemma_single_piece(b, sentence);
    lemma_joined_front(a, seq![b], none);
    assert(joined(seq![b], none) == b);
    assert(a + none + b == a + b);
}

/// A closing sentence is left out of what is said in a turn that another follows, and what stands
/// around it is kept.
pub proof fn law_closing_sentence_is_left_out(
    text: Seq<char>,
    turns: Seq<TurnModel>,
    i: int,
    a: Seq<char>,
    b: Seq<char>,
)
    requires
        0 <= i < turns.len() - 1,
        !holds_text(a, "Het incident is gesloten."@),
        !holds_text(b, "Het incident is gesloten."@),
        !holds_text(a, "L'incident est clos."@),
        !holds_text(b, "L'incident est clos."@),
        !holds_text(a + b, "L'incident est clos."@),
        !holds_text(a + "L'incident est clos."@ + b, "Het incident is gesloten."@),
        trimmed(byte_slice(text, turns[i].end, turns[i + 1].start)) == a
            + "Het incident is gesloten."@ + b || trimmed(
            byte_slice(text, turns[i].end, turns[i + 1].start),
        ) == a + "L'incident est clos."@ + b,
    ensures
        turn_text(text, turns, i) == trimmed(a + b),
{
    reveal_strlit("");
    reveal_strlit("Het incident is gesloten.");
    reveal_strlit("L'incident est clos.");
    assert(""@ == Seq::<char>::empty());
    let dutch = "Het incident is gesloten."@;
    let french = "L'incident est clos."@;
    let between = trimmed(byte_slice(text, turns[i].end, turns[i + 1].start));
    if between == a + dutch + b {
        lemma_left_out(a, dutch, b);
        lemma_nothing_to_replace(a + b, french, ""@);
    } else {
        lemma_nothing_to_replace(a + french + b, dutch, ""@);
        lemma_left_out(a, french, b);
    }
}

/// Each turn in which somebody says something gives one contribution, behind those of the turns
/// before it, and no other turn gives any.
pub proof fn law_each_turn_with_words_contributes(
    text: Seq<char>,
    turns: Seq<TurnModel>,
    n: nat,
)
    ensures
        contributions(text, turns, 0).len() == 0,
        turns[n as int].speaker.len() > 0 && turn_text(text, turns, n as int).len() > 0
            ==> contributions(text, turns, n + 1).drop_last() == contributions(text, turns, n)
            && contributions(text, turns, n + 1).len() == contributions(text, turns, n).len() + 1
            && contributions(text, turns, n + 1).last().speaker == trimmed(
            turns[n as int].speaker,
        ) && contributions(text, turns, n + 1).last().text == turn_text(text, turns, n as int),
        turns[n as int].speaker.len() == 0 || turn_text(text, turns, n as int).len() == 0
            ==> contributions(text, turns, n + 1) == contributions(text, turns, n),
{
    let more = contributions(text, turns, n + 1);
    if turns[n as int].speaker.len() > 0 && turn_text(text, turns, n as int).len() > 0 {
        assert(more.drop_last() =~= contributions(text, turns, n));
    }
}

/// The turns of a discussion stand where the speakers are announced, one for each announcement;
/// one that names nobody is the chair's.
pub proof fn law_turns_are_the_announcements(text: Seq<char>, i: int)
    requires
        0 <= i < pattern_matches(SPEAKER@, text).len(),
    ensures
        discussion_turns(text).len() == pattern_matches(SPEAKER@, text).len(),
        discussion_turns(text)[i].start == pattern_matches(SPEAKER@, text)[i].start,
        discussion_turns(text)[i].end == pattern_matches(SPEAKER@, text)[i].end,
        pattern_matches(SPEAKER@, text)[i].group(2) is None ==> discussion_turns(text)[i].speaker
            == "Voorzitter"@,
        pattern_matches(SPEAKER@, text)[i].group(2) matches Some(name) ==> discussion_turns(
            text,
        )[i].speaker == announced_name(name),
        discussion_contributions(text) == contributions(
            text,
            discussion_turns(text),
            pattern_matches(SPEAKER@, text).len(),
        ),
{
}

/// A plain name is announced as it is, whatever party, function or remark stands behind it.
pub proof fn law_plain_name_is_announced(name: Seq<char>, ending: char, rest: Seq<char>)
    requires
        name.len() > 0,
        forall|i: int| 0 <= i < name.len() ==> !ends_name(#[trigger] name[i]),
        ending == '(' || ending == ',' || ending == ':' || ending == '\n' || ending == '\r',
        trimmed(name + seq![ending] + rest) == name + seq![ending] + rest,
        untitled(name + seq![ending] + rest) == name + seq![ending] + rest,
    ensures
        announced_name(name + seq![ending] + rest) == name,
{
    lemma_name_start_of(name, seq![ending] + rest);
    assert(name + seq![ending] + rest == name + (seq![ending] + rest));
}

/// A plain name with nothing behind it is announced as it is, and where there is none, nobody is
/// known.
pub proof fn law_name_alone_is_announced(name: Seq<char>)
    requires
        forall|i: int| 0 <= i < name.len() ==> !ends_name(#[trigger] name[i]),
        trimmed(name) == name,
        untitled(name) == name,
    ensures
        name.len() > 0 ==> announced_name(name) == name,
        name.len() == 0 ==> announced_name(name) == "Onbekend"@,
{
    lemma_name_start_of(name, Seq::empty());
    assert(name + Seq::<char>::empty() == name);
}

proof fn lemma_name_start_of(name: Seq<char>, rest: Seq<char>)
    requires
        forall|i: int| 0 <= i < name.len() ==> !ends_name(#[trigger] name[i]),
        rest.len() > 0 ==> ends_name(rest[0]),
    ensures
        name_start(name + rest) == name,
    decreases name.len(),
{
    if name.len() == 0 {
        assert(name + rest == rest);
        assert(name_start(rest) == Seq::<char>::empty());
    } else {
        assert((name + rest)[0] == name[0]);
        assert((name + rest).drop_first() == name.drop_first() + rest);
        lemma_name_start_of(name.drop_first(), rest);
        assert(seq![name[0]] + name.drop_first() == name);
    }
}

/// The JSON text is a list of objects, one for each contribution in their order, with who speaks
/// under `speaker` and what is said under `text`.
pub proof fn law_json_says_who_says_what(list: Seq<ContributionModel>)
    ensures
        list.len() == 0 ==> contributions_json(list) == "[]"@,
        list.len() > 0 ==> contributions_json(list) == "[\n  "@ + joined(
            list.map_values(
                |c: ContributionModel|
                    "{\n    \"speaker\": "@ + json_string(c.speaker) + ",\n    \"text\": "@
                        + json_string(c.text) + "\n  }"@,
            ),
            ",\n  "@,
        ) + "\n]"@,
{
    let f = |c: ContributionModel|
        "{\n    \"speaker\": "@ + json_string(c.speaker) + ",\n    \"text\": "@ + json_string(c.text)
            + "\n  }"@;
    let objects = list.map_values(|c: ContributionModel| members(c));
    let written = objects.map_values(|o: Seq<(Seq<char>, Seq<char>)>| json_object(o));
    reveal_strlit("speaker");
    reveal_strlit("text");
    reveal_strlit("{\n    \"speaker\": ");
    reveal_strlit(",\n    \"text\": ");
    reveal_strlit("{\n    ");
    reveal_strlit(",\n    ");
    reveal_strlit(": ");
    lemma_plain_is_not_escaped("speaker"@);
    lemma_plain_is_not_escaped("text"@);
    assert("{\n    "@ + json_string("speaker"@) + ": "@ =~= "{\n    \"speaker\": "@);
    assert(",\n    "@ + json_string("text"@) + ": "@ =~= ",\n    \"text\": "@);
    assert forall|i: int| 0 <= i < list.len() implies written[i] == f(list[i]) by {
        let c = list[i];
        assert(objects[i] == members(c));
        let key = "{\n    "@ + json_string("speaker"@) + ": "@;
        let second = ",\n    "@ + json_string("text"@) + ": "@;
        assert(json_object(members(c)) =~= key + json_string(c.speaker) + second + json_string(
            c.text,
        ) + "\n  }"@);
    }
    assert(written =~= list.map_values(f));
}

/// The title of an announced speaker is not kept, and the name behind it is.
pub proof fn law_title_is_not_announced(title: Seq<char>, name: Seq<char>)
    requires
        title == "Minister"@ || title == "De heer"@ || title == "Mevrouw"@ || title
            == "Le ministre"@ || title == "La ministre"@ || title == "Monsieur"@ || title
            == "Madame"@ || title == "Eerste minister"@ || title == "Staatssecretaris"@,
        name.len() > 0,
        forall|i: int| 0 <= i < name.len() ==> !ends_name(#[trigger] name[i]),
        trimmed(title + seq![' '] + name) == title + seq![' '] + name,
        !white_space(name[0]),
    ensures
        announced_name(title + seq![' '] + name) == name,
{
    law_title_is_taken_away(title, seq![' '], name);
    lemma_name_start_of(name, Seq::empty());
    assert(name + Seq::<char>::empty() == name);
}

/// A closing sentence is left out of what is said in the last turn, and what stands around it is
/// kept.
pub proof fn law_closing_sentence_is_left_out_at_the_end(
    text: Seq<char>,
    turns: Seq<TurnModel>,
    i: int,
    a: Seq<char>,
    b: Seq<char>,
)
    requires
        i == turns.len() - 1,
        !holds_text(a, "Het incident is gesloten."@),
        !holds_text(b, "Het incident is gesloten."@),
        !holds_text(a, "L'incident est clos."@),
        !holds_text(b, "L'incident est clos."@),
        !holds_text(a + b, "L'incident est clos."@),
        !holds_text(a + "L'incident est clos."@ + b, "Het incident is gesloten."@),
        byte_slice(text, turns[i].end, byte_len(text)) == a + "Het incident is gesloten."@ + b
            || byte_slice(text, turns[i].end, byte_len(text)) == a + "L'incident est clos."@ + b,
    ensures
        turn_text(text, turns, i) == trimmed(joined(pieces(a + b, "NEWPARAGRAPH"@), "\n"@)),
{
    reveal_strlit("");
    reveal_strlit("NEWPARAGRAPH");
    reveal_strlit("Het incident is gesloten.");
    reveal_strlit("L'incident est clos.");
    assert(""@ == Seq::<char>::empty());
    let dutch = "Het incident is gesloten."@;
    let french = "L'incident est clos."@;
    if byte_slice(text, turns[i].end, byte_len(text)) == a + dutch + b {
        lemma_left_out(a, dutch, b);
        lemma_nothing_to_replace(a + b, french, ""@);
    } else {
        lemma_nothing_to_replace(a + french + b, dutch, ""@);
        lemma_left_out(a, french, b);
    }
    law_replacing_is_splitting_and_joining(a + b, "NEWPARAGRAPH"@, "\n"@);
}

} // verus!
