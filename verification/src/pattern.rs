//! The patterns by which the reports are read, and the search for them.

use crate::text::{free_of, holds_text, stands_at, trimmed_start, white_space};
use vstd::prelude::*;
use vstd::utf8::{decode_utf8, encode_utf8, is_char_boundary};

verus! {

/// A question in a heading: group 1 is who asks, group 2 whom, where it is said,
/// group 3 the topic and group 4 the number. The number stands as in
/// `(56002763C)`, `(nr. 6003263c)` or `(n° 6003263c)`, the topic between straight or
/// curly quotes.
pub const QUESTION: &'static str = r#"(?m)(?:(?:Vraag van|Question de)\s)?([^\n]+?)(?:\s+(?:aan|à|au)\s+([^\n]+?))?(?:\s*\(.*?\))?\s*(?:over|sur)\s*["'“”](.+?)["'“”]\s*\(?(?:n[°ro]\.?\s*)?(\d{6,8}[A-Za-z])\)?"#;

/// A time of day: group 1 is the hour, group 2 the minute, with a dot or a colon between.
pub const TIME: &'static str = r"(\d{1,2})[.:](\d{2})\s*uur\b";

/// A date: group 1 is the day, group 2 the name of the month, group 3 the year.
pub const DATE: &'static str = r"(\d{1,2})\s+([a-zA-Z]+)\s+(\d{4})";

/// The start of a contribution to a discussion, at the start of a line or of a
/// paragraph. Group 2 is the speaker; the chair is announced without a number and
/// leaves it unset. Several numbers may stand in a row, as in `01.02 01.03`.
pub const SPEAKER: &'static str = r"(?m)(?:^|(?:NEWPARAGRAPH))[\n\r\s ]*(?:\d{2}\.\d{2}[\n\r\s ]+)*(\d{2}\.\d{2})[\n\r\s ]+([^:]+):|(?:Le  président|De  voorzitter)\s*:";

/// The name at the start of an announced speaker.
pub const SPEAKER_NAME: &'static str = r"^[^(,:\n\r]+";

/// A title in front of a name.
pub const TITLES: &'static str = r"^(Minister|De heer|Mevrouw|Le ministre|La ministre|Monsieur|Madame|Eerste minister|Staatssecretaris)\s+";

/// A title in front of the name of who presides.
pub const CHAIR_TITLES: &'static str = r"(?i)\b(?:de\s+)?(?:mevrouw|heer|mevrouwen|heren)\b";

/// Who presides: group 1 holds the names.
pub const CHAIR: &'static str = r"(?i)voorgezeten\s+door\s+([^\.]+?)\s*(?:\.|$)";

/// A dash that starts a heading with no space behind it: group 1 is what follows.
pub const LEADING_DASH: &'static str = r"^-(\S)";

/// A contribution of Isabelle Hansez that lacks its colon.
pub const HANSEZ: &'static str = r"^(\d{2}\.\d{2}\s+Isabelle\s+Hansez)\s+([A-Z])";

/// A bracket that is still open at a colon.
pub const OPEN_BRACKET: &'static str = r"(\([^():\n]*?):\s";

/// A contribution of minister Jan Jambon that lacks its colon.
pub const JAMBON: &'static str = r"^(\d{2}\.\d{2}\s+Minister\s+Jan\s+Jambon)\s+([A-ZÀ-Ý])";

/// A part between round brackets.
pub const BRACKETED: &'static str = r"\([^)]*\)";

/// A stretch of white space.
pub const WHITE_SPACE: &'static str = r"\s+";

/// The speaker at the start of a paragraph: group 1 is the name. Several numbers may
/// stand in a row, as in `01.02 01.03`.
pub const DISCUSSION_SPEAKER: &'static str = r"^(?:\d{2}\.\d{2}\s+)*\d{2}\.\d{2}\s+([^,:\n]+?)\s*[,:]";

/// The pattern is one of this module, which are all well-formed.
pub open spec fn known_pattern(pattern: Seq<char>) -> bool {
    ||| pattern == QUESTION@
    ||| pattern == TIME@
    ||| pattern == DATE@
    ||| pattern == SPEAKER@
    ||| pattern == SPEAKER_NAME@
    ||| pattern == TITLES@
    ||| pattern == CHAIR_TITLES@
    ||| pattern == CHAIR@
    ||| pattern == LEADING_DASH@
    ||| pattern == HANSEZ@
    ||| pattern == OPEN_BRACKET@
    ||| pattern == JAMBON@
    ||| pattern == BRACKETED@
    ||| pattern == WHITE_SPACE@
    ||| pattern == DISCUSSION_SPEAKER@
}

/// The groups that take part in every match of a pattern, because they stand neither
/// in an optional part nor in one of several alternatives. Group 0, the whole match,
/// always does.
pub open spec fn always_set(pattern: Seq<char>, group: int) -> bool {
    ||| group == 0
    ||| pattern == QUESTION@ && (group == 1 || group == 3 || group == 4)
    ||| pattern == TIME@ && (group == 1 || group == 2)
    ||| pattern == DATE@ && (group == 1 || group == 2 || group == 3)
    ||| pattern == CHAIR@ && group == 1
    ||| pattern == DISCUSSION_SPEAKER@ && group == 1
}

/// One match of a pattern: where it starts and ends in the bytes of the text, and the
/// text of each group, unset where the group takes no part in the match.
pub struct Found {
    pub start: usize,
    pub end: usize,
    pub groups: Vec<Option<String>>,
}

/// The model of a [`Found`].
#[verifier::ext_equal]
pub struct FoundModel {
    pub start: int,
    pub end: int,
    pub groups: Seq<Option<Seq<char>>>,
}

/// The content of a text that may be unset.
pub open spec fn optional_text(text: Option<String>) -> Option<Seq<char>> {
    match text {
        Some(s) => Some(s@),
        None => None,
    }
}

impl View for Found {
    type V = FoundModel;

    open spec fn view(&self) -> FoundModel {
        FoundModel {
            start: self.start as int,
            end: self.end as int,
            groups: Seq::new(self.groups@.len(), |i: int| optional_text(self.groups@[i])),
        }
    }
}

impl FoundModel {
    /// The text of a group.
    pub open spec fn group(self, group: int) -> Option<Seq<char>> {
        if 0 <= group < self.groups.len() {
            self.groups[group]
        } else {
            None
        }
    }
}

impl Found {
    /// The text of a group, if it takes part in the match.
    pub fn group(&self, group: usize) -> (r: Option<&String>)
        ensures
            match r {
                Some(s) => self@.group(group as int) == Some(s@),
                None => self@.group(group as int) is None,
            },
    {
        if group < self.groups.len() {
            assert(self@.groups[group as int] == optional_text(self.groups@[group as int]));
            match &self.groups[group] {
                Some(s) => Some(s),
                None => None,
            }
        } else {
            None
        }
    }
}

/// The models of a list of matches.
pub open spec fn all_found(list: Seq<Found>) -> Seq<FoundModel> {
    Seq::new(list.len(), |i: int| list[i]@)
}

/// Whether the byte index stands between two characters of `s`, or at an end of it.
pub open spec fn boundary(s: Seq<char>, at: int) -> bool {
    is_char_boundary(encode_utf8(s), at)
}

/// The text that the bytes of `s` from `from` up to `to` encode.
pub open spec fn byte_slice(s: Seq<char>, from: int, to: int) -> Seq<char> {
    decode_utf8(encode_utf8(s).subrange(from, to))
}

/// The number of bytes of `s`.
pub open spec fn byte_len(s: Seq<char>) -> int {
    encode_utf8(s).len() as int
}

/// Whether the match lies in `text`, cuts no character, has its part of the text as its group 0
/// and a part of the text as each other group that is set.
pub open spec fn lies_in(text: Seq<char>, found: FoundModel) -> bool {
    &&& 0 <= found.start <= found.end <= byte_len(text)
    &&& boundary(text, found.start)
    &&& boundary(text, found.end)
    &&& found.group(0) == Some(byte_slice(text, found.start, found.end))
    &&& forall|g: int| (#[trigger] found.group(g)) matches Some(part) ==> holds_text(text, part)
}

/// Whether the matches lie in `text`, one behind the other.
pub open spec fn lie_in(text: Seq<char>, found: Seq<FoundModel>) -> bool {
    &&& forall|i: int| 0 <= i < found.len() ==> lies_in(text, #[trigger] found[i])
    &&& forall|i: int, j: int|
        0 <= i < j < found.len() ==> (#[trigger] found[i]).end <= (#[trigger] found[j]).start
}

/// The successive matches of a pattern in a text, from left to right without overlaps.
pub uninterp spec fn pattern_matches(pattern: Seq<char>, text: Seq<char>) -> Seq<FoundModel>;

/// The characters of which the name of a group may be made.
pub open spec fn name_char(c: char) -> bool {
    '0' <= c <= '9' || 'A' <= c <= 'Z' || 'a' <= c <= 'z' || c == '_'
}

/// Whether each `$` of the template is followed by the one digit of a group.
pub open spec fn plain_template(template: Seq<char>) -> bool {
    forall|i: int|
        0 <= i < template.len() && #[trigger] template[i] == '$' ==> i + 1 < template.len() && '0'
            <= template[i + 1] <= '9' && (i + 2 < template.len() ==> !name_char(template[i + 2]))
}

/// The template with the text of the group put for each `$` and digit; an unset group
/// has no text.
pub open spec fn expanded(template: Seq<char>, found: FoundModel) -> Seq<char>
    decreases template.len(),
{
    if template.len() == 0 {
        Seq::empty()
    } else if template[0] == '$' && template.len() > 1 {
        (match found.group(template[1] as int - '0' as int) {
            Some(text) => text,
            None => Seq::empty(),
        }) + expanded(template.skip(2), found)
    } else {
        seq![template[0]] + expanded(template.drop_first(), found)
    }
}

/// `text` from the byte `from` on, each of the matches turned into the expanded
/// template.
pub open spec fn rewritten(
    text: Seq<char>,
    from: int,
    found: Seq<FoundModel>,
    template: Seq<char>,
) -> Seq<char>
    decreases found.len(),
{
    if found.len() == 0 {
        byte_slice(text, from, byte_len(text))
    } else {
        byte_slice(text, from, found[0].start) + expanded(template, found[0]) + rewritten(
            text,
            found[0].end,
            found.drop_first(),
            template,
        )
    }
}

/// The first match of a pattern in a text, if there is one.
pub open spec fn first_match(pattern: Seq<char>, text: Seq<char>) -> Option<FoundModel> {
    if pattern_matches(pattern, text).len() > 0 {
        Some(pattern_matches(pattern, text)[0])
    } else {
        None
    }
}

/// `text` with the first match of the pattern turned into the expanded template.
pub open spec fn first_rewritten(
    pattern: Seq<char>,
    text: Seq<char>,
    template: Seq<char>,
) -> Seq<char> {
    match first_match(pattern, text) {
        Some(found) => rewritten(text, 0, seq![found], template),
        None => text,
    }
}

/// `text` with every match of the pattern turned into the expanded template.
pub open spec fn all_rewritten(
    pattern: Seq<char>,
    text: Seq<char>,
    template: Seq<char>,
) -> Seq<char> {
    if pattern_matches(pattern, text).len() > 0 {
        rewritten(text, 0, pattern_matches(pattern, text), template)
    } else {
        text
    }
}

/// `text` with each part between round brackets, from an opening bracket up to the first closing
/// one behind it, turned into a space.
pub open spec fn unbracketed(text: Seq<char>) -> Seq<char>
    decreases text.len(),
{
    if text.len() == 0 {
        text
    } else if text[0] == '(' && text.contains(')') {
        let closing = text.index_of_first(')')->Some_0;
        proof {
            text.index_of_first_ensures(')');
        }
        seq![' '] + unbracketed(text.skip(closing + 1))
    } else {
        seq![text[0]] + unbracketed(text.drop_first())
    }
}

/// `text` with each stretch of white space turned into a space.
pub open spec fn single_spaced(text: Seq<char>) -> Seq<char>
    decreases text.len(),
{
    if text.len() == 0 {
        text
    } else if white_space(text[0]) {
        proof {
            lemma_trimmed_start_shorter(text.drop_first());
        }
        seq![' '] + single_spaced(trimmed_start(text.drop_first()))
    } else {
        seq![text[0]] + single_spaced(text.drop_first())
    }
}

/// The titles that may stand in front of a name.
pub open spec fn name_titles() -> Seq<Seq<char>> {
    seq![
        "Minister"@,
        "De heer"@,
        "Mevrouw"@,
        "Le ministre"@,
        "La ministre"@,
        "Monsieur"@,
        "Madame"@,
        "Eerste minister"@,
        "Staatssecretaris"@,
    ]
}

/// Whether `text` starts with the title and white space behind it.
pub open spec fn titled(text: Seq<char>, title: Seq<char>) -> bool {
    stands_at(text, 0, title) && title.len() < text.len() && white_space(text[title.len() as int])
}

/// `text` without the first of the titles with which it starts, nor the white space behind that.
pub open spec fn without_title(text: Seq<char>, titles: Seq<Seq<char>>) -> Seq<char>
    decreases titles.len(),
{
    if titles.len() == 0 {
        text
    } else if titled(text, titles[0]) {
        trimmed_start(text.skip(titles[0].len() as int))
    } else {
        without_title(text, titles.drop_first())
    }
}

/// `text` without a title at its start, nor the white space behind that.
pub open spec fn untitled(text: Seq<char>) -> Seq<char> {
    without_title(text, name_titles())
}

/// The characters that end a speaker's name.
pub open spec fn ends_name(c: char) -> bool {
    c == '(' || c == ',' || c == ':' || c == '\n' || c == '\r'
}

/// The longest start of `text` without a character that ends a name.
pub open spec fn name_start(text: Seq<char>) -> Seq<char>
    decreases text.len(),
{
    if text.len() == 0 || ends_name(text[0]) {
        Seq::empty()
    } else {
        seq![text[0]] + name_start(text.drop_first())
    }
}

/// `text` with a space behind the dash at its start, if something else than white space stands
/// there.
pub open spec fn dash_spaced(text: Seq<char>) -> Seq<char> {
    if text.len() > 1 && text[0] == '-' && !white_space(text[1]) {
        "- "@ + text.skip(1)
    } else {
        text
    }
}

/// Where the colon stands up to which a bracket is still open, if the text behind the bracket is
/// `text`: no bracket, colon or line end stands in front of it, and white space behind it.
pub open spec fn open_until(text: Seq<char>) -> Option<int>
    decreases text.len(),
{
    if text.len() < 2 || text[0] == '(' || text[0] == ')' || text[0] == '\n' {
        None
    } else if text[0] == ':' {
        if white_space(text[1]) {
            Some(0)
        } else {
            None
        }
    } else {
        match open_until(text.drop_first()) {
            Some(colon) => Some(colon + 1),
            None => None,
        }
    }
}

/// `text` with the first bracket that is still open at a colon closed in front of it.
pub open spec fn bracket_closed(text: Seq<char>) -> Seq<char>
    decreases text.len(),
{
    if text.len() == 0 {
        text
    } else if text[0] == '(' && open_until(text.drop_first()) is Some {
        let colon = open_until(text.drop_first())->Some_0 + 1;
        text.take(colon) + "): "@ + text.skip(colon + 2)
    } else {
        seq![text[0]] + bracket_closed(text.drop_first())
    }
}

/// Whether `text` may start with a digit. Of the characters that are not ASCII no more is said.
pub open spec fn may_start_with_digit(text: Seq<char>) -> bool {
    text.len() > 0 && ('0' <= text[0] <= '9' || text[0] > '\u{7f}')
}

/// Whether `number` may be that of a question: six to eight digits and a letter. Of the digits of
/// other scripts no more is said than that they are neither ASCII nor white space.
pub open spec fn question_number(number: Seq<char>) -> bool {
    &&& 7 <= number.len() <= 9
    &&& 'A' <= number.last() <= 'Z' || 'a' <= number.last() <= 'z'
    &&& forall|i: int|
        0 <= i < number.len() - 1 ==> '0' <= #[trigger] number[i] <= '9' || number[i] > '\u{7f}'
            && !white_space(number[i])
}

/// Whether each character of `s` stands in one of the texts `a` and `b`.
pub open spec fn made_of(s: Seq<char>, a: Seq<char>, b: Seq<char>) -> bool {
    forall|c: char| #[trigger] s.contains(c) ==> a.contains(c) || b.contains(c)
}

/// A character that occurs in neither of two texts does not occur in what is made of them.
pub proof fn lemma_made_free(s: Seq<char>, a: Seq<char>, b: Seq<char>, c: char)
    requires
        made_of(s, a, b),
        free_of(a, c),
        free_of(b, c),
    ensures
        free_of(s, c),
{
    assert forall|i: int| 0 <= i < s.len() implies #[trigger] s[i] != c by {
        assert(s.contains(s[i]));
    }
}

/// Trimming makes no text longer.
pub proof fn lemma_trimmed_start_shorter(s: Seq<char>)
    ensures
        trimmed_start(s).len() <= s.len(),
    decreases s.len(),
{
    if s.len() > 0 && white_space(s[0]) {
        lemma_trimmed_start_shorter(s.drop_first());
    }
}

/// All matches of a pattern in a text: `regex::Regex::captures_iter`, after
/// `regex::Regex::new`, which accepts every pattern of this module.
///
/// The matches are a function of the pattern and the text. They lie in the text, one
/// behind the other, on character boundaries, with the text between those as group 0 and
/// parts of the text as the other groups that are set, and each sets the groups that take part
/// in every match. Group 4 of [`QUESTION`] is the number of a question. What else a pattern
/// matches is not said.
#[verifier::external_body]
pub(crate) fn find_all(pattern: &str, text: &str) -> (r: Vec<Found>)
    requires
        known_pattern(pattern@),
    ensures
        all_found(r@) == pattern_matches(pattern@, text@),
        lie_in(text@, all_found(r@)),
        forall|i: int, g: int|
            0 <= i < r@.len() && always_set(pattern@, g) ==> (#[trigger] r@[i]@.group(g)) is Some,
        forall|i: int|
            pattern@ == QUESTION@ && 0 <= i < r@.len() ==> question_number(
                (#[trigger] r@[i])@.group(4)->Some_0,
            ),
{
    let regex = regex::Regex::new(pattern).unwrap();
    regex.captures_iter(text).map(|c| Found {
        start: c.get(0).unwrap().start(),
        end: c.get(0).unwrap().end(),
        groups: c.iter().map(|g| g.map(|m| m.as_str().to_string())).collect(),
    }).collect()
}

/// The first match of a pattern in a text: `regex::Regex::captures`, after
/// `regex::Regex::new`, which accepts every pattern of this module.
///
/// It is the first of the successive matches, and there is one where those are not
/// empty. It lies in the text, on character boundaries, with the text between those as
/// group 0 and parts of the text as the other groups that are set, and sets the groups that take
/// part in every match. [`SPEAKER_NAME`] finds the longest start of the text without a character
/// that ends a name, if it is not empty.
#[verifier::external_body]
pub(crate) fn find_first(pattern: &str, text: &str) -> (r: Option<Found>)
    requires
        known_pattern(pattern@),
    ensures
        match r {
            Some(found) => first_match(pattern@, text@) == Some(found@),
            None => first_match(pattern@, text@) is None,
        },
        r matches Some(found) ==> lies_in(text@, found@),
        forall|g: int|
            r is Some && always_set(pattern@, g) ==> (#[trigger] r->Some_0@.group(g)) is Some,
        pattern@ == SPEAKER_NAME@ ==> match r {
            Some(found) => found@.group(0) == Some(name_start(text@)) && name_start(text@).len() > 0,
            None => name_start(text@).len() == 0,
        },
{
    let regex = regex::Regex::new(pattern).unwrap();
    regex.captures(text).map(|c| Found {
        start: c.get(0).unwrap().start(),
        end: c.get(0).unwrap().end(),
        groups: c.iter().map(|g| g.map(|m| m.as_str().to_string())).collect(),
    })
}

/// A text with the first match of a pattern replaced: `regex::Regex::replace`, after
/// `regex::Regex::new`, which accepts every pattern of this module.
///
/// What stands around the match stays, and a text without a match stays as it is. A
/// `$` and a digit in the template stand for the text of that group, so every character comes
/// from the text or the template. [`TITLES`], replaced by nothing, takes away one of its titles
/// at the start of the text, if white space stands behind it, with all of that white space.
/// [`LEADING_DASH`], replaced by a dash, a space and its group, puts a space behind a dash at the
/// start of the text, if a character other than white space stands there. [`OPEN_BRACKET`],
/// replaced by its group, a bracket, a colon and a space, closes the first bracket that is still
/// open at a colon with white space behind it. [`HANSEZ`] and [`JAMBON`] leave a text that does
/// not start with a digit as it is.
#[verifier::external_body]
pub(crate) fn replace_first(pattern: &str, text: &str, template: &str) -> (r: String)
    requires
        known_pattern(pattern@),
        plain_template(template@),
    ensures
        r@ == first_rewritten(pattern@, text@, template@),
        made_of(r@, text@, template@),
        pattern@ == TITLES@ && template@ == ""@ ==> r@ == untitled(text@),
        pattern@ == LEADING_DASH@ && template@ == "- $1"@ ==> r@ == dash_spaced(text@),
        pattern@ == OPEN_BRACKET@ && template@ == "$1): "@ ==> r@ == bracket_closed(text@),
        (pattern@ == HANSEZ@ || pattern@ == JAMBON@) && !may_start_with_digit(text@) ==> r@
            == text@,
{
    regex::Regex::new(pattern).unwrap().replace(text, template).into_owned()
}

/// A text with all matches of a pattern replaced: `regex::Regex::replace_all`, after
/// `regex::Regex::new`, which accepts every pattern of this module.
///
/// What stands around the matches stays, and a text without a match stays as it is. A
/// `$` and a digit in the template stand for the text of that group, so every character comes
/// from the text or the template. [`BRACKETED`], replaced by a space, makes one of each part from
/// an opening bracket up to the first closing one behind it, and [`WHITE_SPACE`], replaced by a
/// space, one of each stretch of characters with the Unicode property `White_Space`.
#[verifier::external_body]
pub(crate) fn replace_all(pattern: &str, text: &str, template: &str) -> (r: String)
    requires
        known_pattern(pattern@),
        plain_template(template@),
    ensures
        r@ == all_rewritten(pattern@, text@, template@),
        made_of(r@, text@, template@),
        pattern@ == BRACKETED@ && template@ == " "@ ==> r@ == unbracketed(text@),
        pattern@ == WHITE_SPACE@ && template@ == " "@ ==> r@ == single_spaced(text@),
{
    regex::Regex::new(pattern).unwrap().replace_all(text, template).into_owned()
}

/// The part of `s` between two byte indices that cut no character.
pub fn slice_bytes(s: &str, from: usize, to: usize) -> (r: &str)
    requires
        from <= to,
        boundary(s@, from as int),
        boundary(s@, to as int),
    ensures
        r@ == byte_slice(s@, from as int, to as int),
{
    proof {
        let bytes = encode_utf8(s@);
        let head = bytes.subrange(0, to as int);
        vstd::utf8::encode_utf8_valid_utf8(s@);
        lemma_boundary_within(s@, to as int);
        vstd::utf8::valid_utf8_split(bytes, to as int);
        vstd::utf8::is_char_boundary_start_end_of_seq(head);
        if from < to {
            vstd::utf8::is_char_boundary_iff_not_is_continuation_byte(bytes, from as int);
            vstd::utf8::is_char_boundary_iff_not_is_continuation_byte(head, from as int);
        }
        assert(head.subrange(from as int, to as int) == bytes.subrange(from as int, to as int));
    }
    let (head, _) = s.split_at(to);
    let (_, part) = head.split_at(from);
    proof {
        vstd::utf8::encode_utf8_decode_utf8(part@);
    }
    part
}

/// A boundary lies within the text.
pub proof fn lemma_boundary_within(s: Seq<char>, at: int)
    requires
        boundary(s, at),
    ensures
        0 <= at <= byte_len(s),
{
    vstd::utf8::encode_utf8_valid_utf8(s);
    reveal_with_fuel(is_char_boundary, 1);
}

/// The patterns by which the reports are read.
pub proof fn law_patterns_are_these()
    ensures
        QUESTION@ == r#"(?m)(?:(?:Vraag van|Question de)\s)?([^\n]+?)(?:\s+(?:aan|à|au)\s+([^\n]+?))?(?:\s*\(.*?\))?\s*(?:over|sur)\s*["'“”](.+?)["'“”]\s*\(?(?:n[°ro]\.?\s*)?(\d{6,8}[A-Za-z])\)?"#@,
        TIME@ == r"(\d{1,2})[.:](\d{2})\s*uur\b"@,
        DATE@ == r"(\d{1,2})\s+([a-zA-Z]+)\s+(\d{4})"@,
        SPEAKER@ == r"(?m)(?:^|(?:NEWPARAGRAPH))[\n\r\s ]*(?:\d{2}\.\d{2}[\n\r\s ]+)*(\d{2}\.\d{2})[\n\r\s ]+([^:]+):|(?:Le  président|De  voorzitter)\s*:"@,
        SPEAKER_NAME@ == r"^[^(,:\n\r]+"@,
        TITLES@ == r"^(Minister|De heer|Mevrouw|Le ministre|La ministre|Monsieur|Madame|Eerste minister|Staatssecretaris)\s+"@,
        CHAIR_TITLES@ == r"(?i)\b(?:de\s+)?(?:mevrouw|heer|mevrouwen|heren)\b"@,
        CHAIR@ == r"(?i)voorgezeten\s+door\s+([^\.]+?)\s*(?:\.|$)"@,
        LEADING_DASH@ == r"^-(\S)"@,
        HANSEZ@ == r"^(\d{2}\.\d{2}\s+Isabelle\s+Hansez)\s+([A-Z])"@,
        OPEN_BRACKET@ == r"(\([^():\n]*?):\s"@,
        JAMBON@ == r"^(\d{2}\.\d{2}\s+Minister\s+Jan\s+Jambon)\s+([A-ZÀ-Ý])"@,
        BRACKETED@ == r"\([^)]*\)"@,
        WHITE_SPACE@ == r"\s+"@,
        DISCUSSION_SPEAKER@ == r"^(?:\d{2}\.\d{2}\s+)*\d{2}\.\d{2}\s+([^,:\n]+?)\s*[,:]"@,
{
}

/// A space is put behind a dash at the start of a text if something else than white space stands
/// there; any other text stays as it is.
pub proof fn law_dash_gets_a_space(rest: Seq<char>, other: Seq<char>)
    requires
        rest.len() > 0,
        !white_space(rest[0]),
        other.len() < 2 || other[0] != '-' || white_space(other[1]),
    ensures
        dash_spaced(seq!['-'] + rest) == seq!['-', ' '] + rest,
        dash_spaced(other) == other,
{
    reveal_strlit("- ");
    assert("- "@ == seq!['-', ' ']);
    assert((seq!['-'] + rest).skip(1) == rest);
}

/// A bracket that is still open at a colon is closed in front of it, and the white space behind the
/// colon becomes a space.
pub proof fn law_open_bracket_is_closed(
    before: Seq<char>,
    inside: Seq<char>,
    gap: char,
    rest: Seq<char>,
)
    requires
        forall|i: int| 0 <= i < before.len() ==> #[trigger] before[i] != '(',
        forall|i: int|
            0 <= i < inside.len() ==> #[trigger] inside[i] != '(' && inside[i] != ')' && inside[i]
                != ':' && inside[i] != '\n',
        white_space(gap),
    ensures
        bracket_closed(before + seq!['('] + inside + seq![':', gap] + rest) == before + seq!['(']
            + inside + seq![')', ':', ' '] + rest,
    decreases before.len(),
{
    let text = before + seq!['('] + inside + seq![':', gap] + rest;
    reveal_strlit("): ");
    assert("): "@ == seq![')', ':', ' ']);
    if before.len() == 0 {
        lemma_open_until_colon(inside, seq![':', gap] + rest);
        assert(text.drop_first() == inside + (seq![':', gap] + rest));
        let colon = inside.len() as int + 1;
        assert(text.take(colon) == seq!['('] + inside);
        assert(text.skip(colon + 2) == rest);
        assert(bracket_closed(text) == before + seq!['('] + inside + seq![')', ':', ' '] + rest);
    } else {
        let fewer = before.drop_first();
        law_open_bracket_is_closed(fewer, inside, gap, rest);
        assert(text[0] == before[0]);
        assert(text.drop_first() == fewer + seq!['('] + inside + seq![':', gap] + rest);
        assert(seq![text[0]] + (fewer + seq!['('] + inside + seq![')', ':', ' '] + rest) == before
            + seq!['('] + inside + seq![')', ':', ' '] + rest);
    }
}

proof fn lemma_open_until_colon(inside: Seq<char>, rest: Seq<char>)
    requires
        forall|i: int|
            0 <= i < inside.len() ==> #[trigger] inside[i] != '(' && inside[i] != ')' && inside[i]
                != ':' && inside[i] != '\n',
        rest.len() >= 2,
        rest[0] == ':',
        white_space(rest[1]),
    ensures
        open_until(inside + rest) == Some(inside.len() as int),
    decreases inside.len(),
{
    let text = inside + rest;
    if inside.len() == 0 {
        assert(text == rest);
    } else {
        assert(text[0] == inside[0]);
        assert(text.drop_first() == inside.drop_first() + rest);
        lemma_open_until_colon(inside.drop_first(), rest);
    }
}

} // verus!
