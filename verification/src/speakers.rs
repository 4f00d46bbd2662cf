//! The people who speak in a discussion.

use crate::pattern::{
    find_first, first_match, lemma_trimmed_start_shorter, name_titles, replace_all, replace_first,
    single_spaced, titled, unbracketed, untitled, without_title, BRACKETED, DISCUSSION_SPEAKER,
    TITLES, WHITE_SPACE,
};
use crate::text::{
    all_white, free_of, holds_text, is_listed, law_split_at_separator,
    law_trimming_takes_white_space_around, lemma_part_free, lemma_part_of_part, lemma_single_piece, lemma_skip_is_part,
    lemma_trimmed_ends, lemma_trimmed_is_part, lemma_trimmed_start_end, lemma_trimmed_start_is_part,
    pieces, split, stands_at, texts, trim, trim_start, trimmed, trimmed_start, white_space,
};
use vstd::prelude::*;

verus! {

/// A speaker's name without brackets, title and needless white space.
pub open spec fn normal_name(raw: Seq<char>) -> Seq<char> {
    trimmed(single_spaced(trimmed(untitled(trimmed(unbracketed(raw))))))
}

/// Who speaks in a paragraph, if it says so.
pub open spec fn paragraph_speaker(paragraph: Seq<char>) -> Option<Seq<char>> {
    match first_match(DISCUSSION_SPEAKER@, trimmed_start(paragraph)) {
        Some(found) => Some(normal_name(found.group(1)->Some_0)),
        None => None,
    }
}

/// `list` with `name` at its end, unless it is there already.
pub open spec fn with_new(list: Seq<Seq<char>>, name: Seq<char>) -> Seq<Seq<char>> {
    if list.contains(name) {
        list
    } else {
        list.push(name)
    }
}

/// The speakers of the paragraphs, each once, in the order in which they first speak.
pub open spec fn speakers_of(paragraphs: Seq<Seq<char>>) -> Seq<Seq<char>>
    decreases paragraphs.len(),
{
    if paragraphs.len() == 0 {
        Seq::empty()
    } else {
        let before = speakers_of(paragraphs.drop_last());
        match paragraph_speaker(paragraphs.last()) {
            Some(name) => with_new(before, name),
            None => before,
        }
    }
}

/// The speakers of a discussion.
pub open spec fn discussion_speakers(discussion: Seq<char>) -> Seq<Seq<char>> {
    speakers_of(pieces(discussion, "NEWPARAGRAPH"@))
}

/// Strip title from a speaker name.
pub fn normalize_speaker_name(raw: &str) -> (r: String)
    ensures
        r@ == normal_name(raw@),
{
    proof {
        reveal_strlit(" ");
        reveal_strlit("");
    }
    let no_parens = replace_all(BRACKETED, raw, " ");
    let no_title = replace_first(TITLES, trim(no_parens.as_str()), "");
    let spaced = replace_all(WHITE_SPACE, trim(no_title.as_str()), " ");
    trim(spaced.as_str()).to_owned()
}

/// Puts `name` at the end of `list`, unless it is there already.
pub fn add_new(list: &mut Vec<String>, name: String)
    ensures
        texts(final(list)@) == with_new(texts(old(list)@), name@),
{
    if !is_listed(list, &name) {
        list.push(name);
        assert(texts(list@) == texts(old(list)@).push(name@));
    }
}

/// Look at the discussion and extract the actual speakers.
pub fn extract_speakers_from_discussion(discussion_text: &str) -> (r: Vec<String>)
    ensures
        texts(r@) == discussion_speakers(discussion_text@),
{
    proof {
        reveal_strlit("NEWPARAGRAPH");
    }
    let paragraphs = split(discussion_text, "NEWPARAGRAPH");
    let ghost all = texts(paragraphs@);
    let mut seen: Vec<String> = Vec::new();
    let mut i: usize = 0;
    assert(texts(seen@) == speakers_of(all.take(0)));
    while i < paragraphs.len()
        invariant
            all == texts(paragraphs@),
            i <= paragraphs.len(),
            texts(seen@) == speakers_of(all.take(i as int)),
        decreases paragraphs.len() - i,
    {
        assert(all.take(i + 1).drop_last() == all.take(i as int));
        assert(all.take(i + 1).last() == paragraphs@[i as int]@);
        if let Some(found) = find_first(DISCUSSION_SPEAKER, trim_start(paragraphs[i].as_str())) {
            assert(found@.group(1) is Some);
            if let Some(raw) = found.group(1) {
                add_new(&mut seen, normalize_speaker_name(raw.as_str()));
            }
        }
        i += 1;
    }
    assert(all.take(i as int) == all);
    seen
}

/// A normal name has no white space around it.
pub proof fn law_normal_name_is_trimmed(raw: Seq<char>)
    ensures
        trimmed(normal_name(raw)) == normal_name(raw),
{
    lemma_trimmed_ends(single_spaced(trimmed(untitled(trimmed(unbracketed(raw))))));
}

/// Every speaker is listed once.
pub proof fn law_speakers_are_distinct(paragraphs: Seq<Seq<char>>)
    ensures
        speakers_of(paragraphs).no_duplicates(),
    decreases paragraphs.len(),
{
    if paragraphs.len() > 0 {
        law_speakers_are_distinct(paragraphs.drop_last());
    }
}

/// The speakers are those who speak in one of the paragraphs.
pub proof fn law_speakers_are_who_speaks(paragraphs: Seq<Seq<char>>, name: Seq<char>)
    ensures
        speakers_of(paragraphs).contains(name) <==> exists|i: int|
            0 <= i < paragraphs.len() && paragraph_speaker(#[trigger] paragraphs[i]) == Some(name),
    decreases paragraphs.len(),
{
    if paragraphs.len() > 0 {
        let rest = paragraphs.drop_last();
        let before = speakers_of(rest);
        law_speakers_are_who_speaks(rest, name);
        if before.contains(name) {
            let i = choose|i: int|
                0 <= i < rest.len() && paragraph_speaker(#[trigger] rest[i]) == Some(name);
            assert(paragraph_speaker(paragraphs[i]) == Some(name));
        }
        if paragraph_speaker(paragraphs.last()) == Some(name) {
            assert(paragraph_speaker(paragraphs[paragraphs.len() - 1]) == Some(name));
        }
        if exists|i: int|
            0 <= i < paragraphs.len() && paragraph_speaker(#[trigger] paragraphs[i]) == Some(name) {
            let i = choose|i: int|
                0 <= i < paragraphs.len() && paragraph_speaker(#[trigger] paragraphs[i]) == Some(
                    name,
                );
            if i < rest.len() {
                assert(paragraph_speaker(rest[i]) == Some(name));
            }
        }
        match paragraph_speaker(paragraphs.last()) {
            Some(last) => {
                lemma_with_new(before, last, name);
            },
            None => {},
        }
    }
}

/// What a list holds once a name was put in.
pub proof fn lemma_with_new(list: Seq<Seq<char>>, new: Seq<char>, name: Seq<char>)
    ensures
        with_new(list, new).contains(name) <==> list.contains(name) || name == new,
{
    if !list.contains(new) {
        let longer = list.push(new);
        assert(longer[list.len() as int] == new);
        if list.contains(name) {
            let i = choose|i: int| 0 <= i < list.len() && list[i] == name;
            assert(longer[i] == name);
        }
    }
}

/// Whether no bracket that is opened is closed behind.
pub open spec fn lacks_brackets(s: Seq<char>) -> bool {
    forall|i: int, j: int| 0 <= i < j < s.len() ==> !(#[trigger] s[i] == '(' && #[trigger] s[j] == ')')
}

/// Whether all white space is single spaces.
pub open spec fn evenly_spaced(s: Seq<char>) -> bool {
    forall|i: int|
        0 <= i < s.len() && white_space(#[trigger] s[i]) ==> s[i] == ' ' && (i + 1 < s.len()
            ==> !white_space(s[i + 1]))
}

/// Whether one of the titles, with a space behind it, stands at the start.
pub open spec fn starts_with_title(s: Seq<char>) -> bool {
    exists|i: int|
        0 <= i < name_titles().len() && stands_at(s, 0, (#[trigger] name_titles()[i]).push(' '))
}

proof fn lemma_part_lacks_brackets(s: Seq<char>, part: Seq<char>)
    requires
        holds_text(s, part),
        lacks_brackets(s),
    ensures
        lacks_brackets(part),
{
    let at = choose|at: int| stands_at(s, at, part);
    assert forall|i: int, j: int| 0 <= i < j < part.len() implies !(#[trigger] part[i] == '('
        && #[trigger] part[j] == ')') by {
        assert(s.subrange(at, at + part.len())[i] == s[at + i]);
        assert(s.subrange(at, at + part.len())[j] == s[at + j]);
    }
}

proof fn lemma_part_evenly_spaced(s: Seq<char>, part: Seq<char>)
    requires
        holds_text(s, part),
        evenly_spaced(s),
    ensures
        evenly_spaced(part),
{
    let at = choose|at: int| stands_at(s, at, part);
    assert forall|i: int| 0 <= i < part.len() && white_space(#[trigger] part[i]) implies part[i]
        == ' ' && (i + 1 < part.len() ==> !white_space(part[i + 1])) by {
        assert(s.subrange(at, at + part.len())[i] == s[at + i]);
        if i + 1 < part.len() {
            assert(s.subrange(at, at + part.len())[i + 1] == s[at + i + 1]);
        }
    }
}

proof fn lemma_unbracketed_free(s: Seq<char>, c: char)
    requires
        free_of(s, c),
        c != ' ',
    ensures
        free_of(unbracketed(s), c),
    decreases s.len(),
{
    if s.len() > 0 {
        if s[0] == '(' && s.contains(')') {
            s.index_of_first_ensures(')');
            lemma_unbracketed_free(s.skip(s.index_of_first(')')->Some_0 + 1), c);
        } else {
            lemma_unbracketed_free(s.drop_first(), c);
        }
    }
}

proof fn lemma_unbracketed_lacks_brackets(s: Seq<char>)
    ensures
        lacks_brackets(unbracketed(s)),
    decreases s.len(),
{
    if s.len() > 0 {
        if s[0] == '(' && s.contains(')') {
            s.index_of_first_ensures(')');
            lemma_unbracketed_lacks_brackets(s.skip(s.index_of_first(')')->Some_0 + 1));
        } else {
            let rest = s.drop_first();
            lemma_unbracketed_lacks_brackets(rest);
            if s[0] == '(' {
                assert forall|i: int| 0 <= i < rest.len() implies #[trigger] rest[i] != ')' by {
                    assert(rest[i] == s[i + 1]);
                }
                lemma_unbracketed_free(rest, ')');
            }
        }
    }
}

proof fn lemma_unbracketed_stays(s: Seq<char>)
    requires
        lacks_brackets(s),
    ensures
        unbracketed(s) == s,
    decreases s.len(),
{
    if s.len() > 0 {
        if s[0] == '(' && s.contains(')') {
            let j = choose|j: int| 0 <= j < s.len() && s[j] == ')';
            assert(s[0] == '(' && s[j] == ')');
        }
        let rest = s.drop_first();
        lemma_skip_is_part(s, 1);
        assert(s.skip(1) == rest);
        lemma_part_lacks_brackets(s, rest);
        lemma_unbracketed_stays(rest);
        assert(seq![s[0]] + rest == s);
    }
}

proof fn lemma_untitled_is_part(s: Seq<char>, titles: Seq<Seq<char>>)
    ensures
        holds_text(s, without_title(s, titles)),
    decreases titles.len(),
{
    if titles.len() == 0 {
        lemma_skip_is_part(s, 0);
        assert(s.skip(0) == s);
    } else if titled(s, titles[0]) {
        let rest = s.skip(titles[0].len() as int);
        lemma_skip_is_part(s, titles[0].len() as int);
        lemma_trimmed_start_is_part(rest);
        lemma_part_of_part(s, rest, trimmed_start(rest));
    } else {
        lemma_untitled_is_part(s, titles.drop_first());
    }
}

proof fn lemma_untitled_stays(s: Seq<char>, titles: Seq<Seq<char>>)
    requires
        evenly_spaced(s),
        forall|i: int| 0 <= i < titles.len() ==> !stands_at(s, 0, (#[trigger] titles[i]).push(' ')),
    ensures
        without_title(s, titles) == s,
    decreases titles.len(),
{
    if titles.len() > 0 {
        let title = titles[0];
        if titled(s, title) {
            assert(s[title.len() as int] == ' ');
            assert(s.subrange(0, title.len() as int + 1) == s.subrange(0, title.len() as int).push(' '));
            assert(stands_at(s, 0, title.push(' ')));
        }
        assert forall|i: int| 0 <= i < titles.drop_first().len() implies !stands_at(
            s,
            0,
            (#[trigger] titles.drop_first()[i]).push(' '),
        ) by {
            assert(titles.drop_first()[i] == titles[i + 1]);
        }
        lemma_untitled_stays(s, titles.drop_first());
    }
}

proof fn lemma_single_spaced_free(s: Seq<char>, c: char)
    requires
        free_of(s, c),
        c != ' ',
    ensures
        free_of(single_spaced(s), c),
    decreases s.len(),
{
    if s.len() > 0 {
        let rest = s.drop_first();
        if white_space(s[0]) {
            lemma_trimmed_start_shorter(rest);
            lemma_trimmed_start_is_part(rest);
            lemma_part_free(rest, trimmed_start(rest), c);
            lemma_single_spaced_free(trimmed_start(rest), c);
        } else {
            lemma_single_spaced_free(rest, c);
        }
    }
}

proof fn lemma_single_spaced_lacks_brackets(s: Seq<char>)
    requires
        lacks_brackets(s),
    ensures
        lacks_brackets(single_spaced(s)),
    decreases s.len(),
{
    if s.len() > 0 {
        let rest = s.drop_first();
        lemma_skip_is_part(s, 1);
        assert(s.skip(1) == rest);
        lemma_part_lacks_brackets(s, rest);
        if white_space(s[0]) {
            lemma_trimmed_start_shorter(rest);
            lemma_trimmed_start_is_part(rest);
            lemma_part_lacks_brackets(rest, trimmed_start(rest));
            lemma_single_spaced_lacks_brackets(trimmed_start(rest));
        } else {
            lemma_single_spaced_lacks_brackets(rest);
            if s[0] == '(' {
                assert forall|i: int| 0 <= i < rest.len() implies #[trigger] rest[i] != ')' by {
                    assert(s[0] == '(' && rest[i] == s[i + 1]);
                }
                lemma_single_spaced_free(rest, ')');
            }
        }
    }
}

proof fn lemma_single_spaced_evenly(s: Seq<char>)
    ensures
        evenly_spaced(single_spaced(s)),
    decreases s.len(),
{
    if s.len() > 0 {
        let rest = s.drop_first();
        if white_space(s[0]) {
            lemma_trimmed_start_shorter(rest);
            lemma_trimmed_start_end(rest);
            lemma_single_spaced_evenly(trimmed_start(rest));
        } else {
            lemma_single_spaced_evenly(rest);
        }
    }
}

proof fn lemma_single_spaced_stays(s: Seq<char>)
    requires
        evenly_spaced(s),
    ensures
        single_spaced(s) == s,
    decreases s.len(),
{
    if s.len() > 0 {
        let rest = s.drop_first();
        lemma_skip_is_part(s, 1);
        assert(s.skip(1) == rest);
        lemma_part_evenly_spaced(s, rest);
        lemma_single_spaced_stays(rest);
        if white_space(s[0]) {
            assert(rest.len() > 0 ==> rest[0] == s[1]);
            assert(trimmed_start(rest) == rest);
        }
        assert(seq![s[0]] + rest == s);
    }
}

/// A normal name holds no part between brackets, and its white space is single spaces.
pub proof fn law_normal_name_is_tidy(raw: Seq<char>)
    ensures
        lacks_brackets(normal_name(raw)),
        evenly_spaced(normal_name(raw)),
{
    let bare = unbracketed(raw);
    let name = untitled(trimmed(bare));
    lemma_unbracketed_lacks_brackets(raw);
    lemma_trimmed_is_part(bare);
    lemma_part_lacks_brackets(bare, trimmed(bare));
    lemma_untitled_is_part(trimmed(bare), name_titles());
    lemma_part_lacks_brackets(trimmed(bare), name);
    lemma_trimmed_is_part(name);
    lemma_part_lacks_brackets(name, trimmed(name));
    let spaced = single_spaced(trimmed(name));
    lemma_single_spaced_lacks_brackets(trimmed(name));
    lemma_single_spaced_evenly(trimmed(name));
    lemma_trimmed_is_part(spaced);
    lemma_part_lacks_brackets(spaced, trimmed(spaced));
    lemma_part_evenly_spaced(spaced, trimmed(spaced));
}

/// A name without brackets and title, whose white space inside is single spaces, stays, but for
/// the white space around it.
pub proof fn law_plain_name_stays(raw: Seq<char>)
    requires
        lacks_brackets(raw),
        evenly_spaced(trimmed(raw)),
        !starts_with_title(trimmed(raw)),
    ensures
        normal_name(raw) == trimmed(raw),
{
    lemma_unbracketed_stays(raw);
    lemma_trimmed_ends(raw);
    assert forall|i: int| 0 <= i < name_titles().len() implies !stands_at(
        trimmed(raw),
        0,
        (#[trigger] name_titles()[i]).push(' '),
    ) by {}
    lemma_untitled_stays(trimmed(raw), name_titles());
    lemma_single_spaced_stays(trimmed(raw));
}

/// A normal name stays as it is, unless a title is left at its start.
pub proof fn law_normal_name_stays(raw: Seq<char>)
    requires
        !starts_with_title(normal_name(raw)),
    ensures
        normal_name(normal_name(raw)) == normal_name(raw),
{
    law_normal_name_is_tidy(raw);
    law_normal_name_is_trimmed(raw);
    law_plain_name_stays(normal_name(raw));
}

/// `list` with those of `names` at its end that are not there already.
pub open spec fn with_all_new(list: Seq<Seq<char>>, names: Seq<Seq<char>>) -> Seq<Seq<char>>
    decreases names.len(),
{
    if names.len() == 0 {
        list
    } else {
        with_new(with_all_new(list, names.drop_last()), names.last())
    }
}

proof fn lemma_with_all_new(list: Seq<Seq<char>>, names: Seq<Seq<char>>, name: Seq<char>)
    ensures
        with_all_new(list, names).contains(name) <==> list.contains(name) || names.contains(name),
    decreases names.len(),
{
    if names.len() > 0 {
        let rest = names.drop_last();
        lemma_with_all_new(list, rest, name);
        lemma_with_new(with_all_new(list, rest), names.last(), name);
        if rest.contains(name) {
            let i = choose|i: int| 0 <= i < rest.len() && rest[i] == name;
            assert(names[i] == name);
        }
        if names.contains(name) && name != names.last() {
            let i = choose|i: int| 0 <= i < names.len() && names[i] == name;
            assert(rest[i] == name);
        }
        assert(names[names.len() - 1] == names.last());
    }
}

proof fn lemma_speakers_of_both(a: Seq<Seq<char>>, b: Seq<Seq<char>>)
    ensures
        speakers_of(a + b) == with_all_new(speakers_of(a), speakers_of(b)),
    decreases b.len(),
{
    if b.len() == 0 {
        assert(a + b == a);
    } else {
        let rest = b.drop_last();
        assert((a + b).drop_last() == a + rest);
        assert((a + b).last() == b.last());
        lemma_speakers_of_both(a, rest);
        match paragraph_speaker(b.last()) {
            Some(name) => {
                let before = speakers_of(rest);
                lemma_with_all_new(speakers_of(a), before, name);
                if !before.contains(name) {
                    assert(before.push(name).drop_last() == before);
                }
            },
            None => {},
        }
    }
}

/// The speakers of two discussions with the mark between paragraphs between them are those of the
/// first and then the new ones of the second.
pub proof fn law_speakers_of_both_discussions(a: Seq<char>, b: Seq<char>)
    ensures
        discussion_speakers(a + "NEWPARAGRAPH"@ + b) == with_all_new(
            discussion_speakers(a),
            discussion_speakers(b),
        ),
{
    let mark = "NEWPARAGRAPH"@;
    reveal_strlit("NEWPARAGRAPH");
    assert forall|i: int| 0 < i < mark.len() implies #[trigger] mark[i] != mark[0] by {}
    law_split_at_separator(a, mark, b);
    lemma_speakers_of_both(pieces(a, mark), pieces(b, mark));
}

/// A title in front of a text, with white space behind it, is all that is taken away.
pub proof fn law_title_is_taken_away(title: Seq<char>, gap: Seq<char>, name: Seq<char>)
    requires
        title == "Minister"@ || title == "De heer"@ || title == "Mevrouw"@ || title
            == "Le ministre"@ || title == "La ministre"@ || title == "Monsieur"@ || title
            == "Madame"@ || title == "Eerste minister"@ || title == "Staatssecretaris"@,
        gap.len() > 0,
        all_white(gap),
        name.len() > 0,
        !white_space(name[0]),
    ensures
        untitled(title + gap + name) == name,
{
    reveal_strlit("Minister");
    reveal_strlit("De heer");
    reveal_strlit("Mevrouw");
    reveal_strlit("Le ministre");
    reveal_strlit("La ministre");
    reveal_strlit("Monsieur");
    reveal_strlit("Madame");
    reveal_strlit("Eerste minister");
    reveal_strlit("Staatssecretaris");
    let titles = name_titles();
    let s = title + gap + name;
    let k = if title == titles[0] {
        0int
    } else if title == titles[1] {
        1
    } else if title == titles[2] {
        2
    } else if title == titles[3] {
        3
    } else if title == titles[4] {
        4
    } else if title == titles[5] {
        5
    } else if title == titles[6] {
        6
    } else if title == titles[7] {
        7
    } else {
        8
    };
    assert(titles[k] == title);
    assert(title.len() >= 2);
    assert forall|j: int| 0 <= j < k implies !titled(s, #[trigger] titles[j]) by {
        assert(titles[j].len() >= 2);
        if titled(s, titles[j]) {
            let start = s.subrange(0, titles[j].len() as int);
            assert(start[0] == s[0] && start[1] == s[1]);
            assert(s[0] == title[0] && s[1] == title[1]);
        }
    }
    assert(s == titles[k] + (gap + name));
    lemma_title_found(s, titles, k, gap + name);
    lemma_trimmed_start_of(gap, name);
    assert(s.skip(title.len() as int) == gap + name);
}

proof fn lemma_trimmed_start_of(gap: Seq<char>, name: Seq<char>)
    requires
        all_white(gap),
        name.len() > 0,
        !white_space(name[0]),
    ensures
        trimmed_start(gap + name) == name,
    decreases gap.len(),
{
    if gap.len() == 0 {
        assert(gap + name == name);
    } else {
        assert((gap + name)[0] == gap[0]);
        assert((gap + name).drop_first() == gap.drop_first() + name);
        lemma_trimmed_start_of(gap.drop_first(), name);
    }
}

proof fn lemma_title_found(s: Seq<char>, titles: Seq<Seq<char>>, k: int, rest: Seq<char>)
    requires
        0 <= k < titles.len(),
        s == titles[k] + rest,
        rest.len() > 0,
        white_space(rest[0]),
        forall|j: int| 0 <= j < k ==> !titled(s, #[trigger] titles[j]),
    ensures
        without_title(s, titles) == trimmed_start(s.skip(titles[k].len() as int)),
    decreases k,
{
    if k == 0 {
        assert(s.subrange(0, titles[0].len() as int) == titles[0]);
        assert(s[titles[0].len() as int] == rest[0]);
    } else {
        let fewer = titles.drop_first();
        assert(!titled(s, titles[0]));
        assert(fewer[k - 1] == titles[k]);
        assert forall|j: int| 0 <= j < k - 1 implies !titled(s, #[trigger] fewer[j]) by {
            assert(fewer[j] == titles[j + 1]);
        }
        lemma_title_found(s, fewer, k - 1, rest);
    }
}

/// Whether `name` is a name as it is kept: not empty, with single spaces inside, and neither
/// brackets nor a title.
pub open spec fn plain_name(name: Seq<char>) -> bool {
    &&& name.len() > 0
    &&& !white_space(name[0])
    &&& !white_space(name.last())
    &&& free_of(name, '(')
    &&& evenly_spaced(name)
    &&& !starts_with_title(name)
}

proof fn lemma_plain_name(name: Seq<char>)
    requires
        plain_name(name),
    ensures
        lacks_brackets(name),
        trimmed(name) == name,
        untitled(name) == name,
        single_spaced(name) == name,
{
    assert forall|i: int| 0 <= i < name_titles().len() implies !stands_at(
        name,
        0,
        (#[trigger] name_titles()[i]).push(' '),
    ) by {}
    lemma_untitled_stays(name, name_titles());
    lemma_single_spaced_stays(name);
    assert(!white_space(name[name.len() - 1]));
}

/// The title in front of a speaker's name is not kept, and the name is.
pub proof fn law_title_is_no_part_of_the_name(title: Seq<char>, name: Seq<char>)
    requires
        title == "Minister"@ || title == "De heer"@ || title == "Mevrouw"@ || title
            == "Le ministre"@ || title == "La ministre"@ || title == "Monsieur"@ || title
            == "Madame"@ || title == "Eerste minister"@ || title == "Staatssecretaris"@,
        plain_name(name),
    ensures
        normal_name(title + seq![' '] + name) == name,
{
    let whole = title + seq![' '] + name;
    lemma_plain_name(name);
    law_title_is_taken_away(title, seq![' '], name);
    reveal_strlit("Minister");
    reveal_strlit("De heer");
    reveal_strlit("Mevrouw");
    reveal_strlit("Le ministre");
    reveal_strlit("La ministre");
    reveal_strlit("Monsieur");
    reveal_strlit("Madame");
    reveal_strlit("Eerste minister");
    reveal_strlit("Staatssecretaris");
    assert forall|i: int| 0 <= i < whole.len() implies #[trigger] whole[i] != '(' by {
        if i >= title.len() + 1 {
            assert(whole[i] == name[i - title.len() - 1]);
        }
    }
    assert(lacks_brackets(whole));
    lemma_unbracketed_stays(whole);
    assert(whole[0] == title[0] && !white_space(title[0]));
    assert(whole[whole.len() - 1] == name.last());
    assert(trimmed(whole) == whole);
}

proof fn lemma_unbracketed_behind(a: Seq<char>, rest: Seq<char>)
    requires
        free_of(a, '('),
    ensures
        unbracketed(a + rest) == a + unbracketed(rest),
    decreases a.len(),
{
    if a.len() == 0 {
        assert(a + rest == rest);
        assert(a + unbracketed(rest) == unbracketed(rest));
    } else {
        assert((a + rest)[0] == a[0]);
        assert((a + rest).drop_first() == a.drop_first() + rest);
        lemma_unbracketed_behind(a.drop_first(), rest);
        assert(seq![a[0]] + (a.drop_first() + unbracketed(rest)) == a + unbracketed(rest));
    }
}

/// The party between brackets behind a speaker's name is not kept, and the name is.
pub proof fn law_party_is_no_part_of_the_name(name: Seq<char>, party: Seq<char>)
    requires
        plain_name(name),
        free_of(party, ')'),
    ensures
        normal_name(name + seq![' ', '('] + party + seq![')']) == name,
        normal_name(name) == name,
{
    let bracket = seq!['('] + party + seq![')'];
    let whole = name + seq![' ', '('] + party + seq![')'];
    lemma_plain_name(name);
    lemma_unbracketed_stays(name);
    assert(whole == (name + seq![' ']) + bracket);
    lemma_unbracketed_behind(name + seq![' '], bracket);
    assert(bracket[bracket.len() - 1] == ')');
    assert(bracket.contains(')'));
    bracket.index_of_first_ensures(')');
    let closing = bracket.index_of_first(')')->Some_0;
    assert(closing == bracket.len() - 1) by {
        if closing < bracket.len() - 1 {
            if closing > 0 {
                assert(bracket[closing] == party[closing - 1]);
            }
        }
    }
    assert(bracket.skip(closing + 1) == Seq::<char>::empty());
    assert(unbracketed(Seq::<char>::empty()) == Seq::<char>::empty());
    assert(unbracketed(bracket) == seq![' ']);
    let gap = seq![' ', ' '];
    assert(unbracketed(whole) == Seq::<char>::empty() + name + gap);
    law_trimming_takes_white_space_around(Seq::empty(), name, gap);
}

/// Who speaks first is listed first: the speakers of further paragraphs come behind.
pub proof fn law_speakers_keep_their_order(a: Seq<Seq<char>>, b: Seq<Seq<char>>)
    ensures
        speakers_of(a).len() <= speakers_of(a + b).len(),
        speakers_of(a + b).take(speakers_of(a).len() as int) == speakers_of(a),
        a.len() == 0 ==> speakers_of(a).len() == 0,
    decreases b.len(),
{
    if b.len() == 0 {
        assert(a + b == a);
        assert(speakers_of(a).take(speakers_of(a).len() as int) == speakers_of(a));
    } else {
        assert((a + b).drop_last() == a + b.drop_last());
        law_speakers_keep_their_order(a, b.drop_last());
        let before = speakers_of(a + b.drop_last());
        let n = speakers_of(a).len() as int;
        assert(speakers_of(a + b).take(n) == before.take(n));
    }
}

/// A paragraph's speaker is the name that the search finds behind its number, without title,
/// party and needless white space. White space in front of the paragraph does not count.
pub proof fn law_paragraph_speaker_is_who_is_found(gap: Seq<char>, paragraph: Seq<char>)
    requires
        all_white(gap),
        paragraph.len() > 0,
        !white_space(paragraph[0]),
    ensures
        first_match(DISCUSSION_SPEAKER@, paragraph) is None ==> paragraph_speaker(gap + paragraph)
            is None,
        first_match(DISCUSSION_SPEAKER@, paragraph) matches Some(found) ==> paragraph_speaker(
            gap + paragraph,
        ) == Some(normal_name(found.group(1)->Some_0)),
{
    lemma_trimmed_start_of(gap, paragraph);
}

/// A discussion of one paragraph has the speaker of that paragraph, if there is one.
pub proof fn law_one_paragraph_has_one_speaker(paragraph: Seq<char>)
    requires
        !holds_text(paragraph, "NEWPARAGRAPH"@),
    ensures
        paragraph_speaker(paragraph) is None ==> discussion_speakers(paragraph).len() == 0,
        paragraph_speaker(paragraph) matches Some(name) ==> discussion_speakers(paragraph)
            == seq![name],
{
    lemma_single_piece(paragraph, "NEWPARAGRAPH"@);
    reveal_with_fuel(speakers_of, 2);
    assert(seq![paragraph].drop_last().len() == 0);
    assert(!Seq::<Seq<char>>::empty().contains(paragraph_speaker(paragraph)->Some_0));
}

proof fn lemma_single_spaced_gap(a: Seq<char>, gap: Seq<char>, b: Seq<char>)
    requires
        evenly_spaced(a),
        a.len() > 0 ==> !white_space(a.last()),
        gap.len() > 0,
        all_white(gap),
        b.len() > 0,
        !white_space(b[0]),
        evenly_spaced(b),
    ensures
        single_spaced(a + gap + b) == a + seq![' '] + b,
    decreases a.len(),
{
    let s = a + gap + b;
    if a.len() == 0 {
        assert(s == gap + b);
        assert(s[0] == gap[0]);
        assert(s.drop_first() == gap.drop_first() + b);
        lemma_trimmed_start_of(gap.drop_first(), b);
        lemma_single_spaced_stays(b);
        assert(single_spaced(s) == seq![' '] + b);
        assert(a + seq![' '] + b == seq![' '] + b);
    } else {
        let rest = a.drop_first();
        lemma_skip_is_part(a, 1);
        assert(a.skip(1) == rest);
        lemma_part_evenly_spaced(a, rest);
        assert(s[0] == a[0]);
        assert(s.drop_first() == rest + gap + b);
        if rest.len() > 0 {
            assert(rest.last() == a.last());
        }
        lemma_single_spaced_gap(rest, gap, b);
        if white_space(a[0]) {
            assert(a.len() > 1);
            assert(!white_space(a[1]));
            assert((rest + gap + b)[0] == a[1]);
            assert(trimmed_start(rest + gap + b) == rest + gap + b);
        }
        assert(seq![a[0]] + (rest + seq![' '] + b) == a + seq![' '] + b);
    }
}

/// White space within a name becomes one space, and a part between brackets within it is not kept.
pub proof fn law_name_is_single_spaced(
    a: Seq<char>,
    gap: Seq<char>,
    party: Seq<char>,
    b: Seq<char>,
)
    requires
        a.len() > 0,
        !white_space(a[0]),
        !white_space(a.last()),
        evenly_spaced(a),
        free_of(a, '('),
        gap.len() > 0,
        all_white(gap),
        free_of(party, ')'),
        b.len() > 0,
        !white_space(b[0]),
        !white_space(b.last()),
        evenly_spaced(b),
        free_of(b, '('),
    ensures
        untitled(a + gap + b) == a + gap + b ==> normal_name(a + gap + b) == a + seq![' '] + b,
        untitled(a + seq![' ', ' ', ' '] + b) == a + seq![' ', ' ', ' '] + b ==> normal_name(
            a + seq![' ', '('] + party + seq![')', ' '] + b,
        ) == a + seq![' '] + b,
{
    lemma_gap_is_single(a, gap, b);
    let spaces = seq![' ', ' ', ' '];
    lemma_gap_is_single(a, spaces, b);
    let whole = a + seq![' ', '('] + party + seq![')', ' '] + b;
    let inner = seq!['('] + party + (seq![')', ' '] + b);
    assert(whole == (a + seq![' ']) + inner);
    lemma_unbracketed_behind(a + seq![' '], inner);
    assert(inner[party.len() as int + 1] == ')');
    assert(inner.contains(')'));
    inner.index_of_first_ensures(')');
    let closing = inner.index_of_first(')')->Some_0;
    assert(closing == party.len() + 1) by {
        if 0 < closing < party.len() + 1 {
            assert(inner[closing] == party[closing - 1]);
        }
    }
    let rest = seq![' '] + b;
    assert(inner.skip(closing + 1) == rest);
    assert(free_of(rest, '(')) by {
        assert forall|i: int| 0 <= i < rest.len() implies #[trigger] rest[i] != '(' by {
            if i > 0 {
                assert(rest[i] == b[i - 1]);
            }
        }
    }
    assert(lacks_brackets(rest));
    lemma_unbracketed_stays(rest);
    assert(unbracketed(whole) == a + spaces + b);
    let text = a + spaces + b;
    assert forall|i: int| 0 <= i < text.len() implies #[trigger] text[i] != '(' by {
        if i >= a.len() + 3 {
            assert(text[i] == b[i - a.len() - 3]);
        }
    }
    assert(lacks_brackets(text));
    lemma_unbracketed_stays(text);
}

proof fn lemma_gap_is_single(a: Seq<char>, gap: Seq<char>, b: Seq<char>)
    requires
        a.len() > 0,
        !white_space(a[0]),
        !white_space(a.last()),
        evenly_spaced(a),
        free_of(a, '('),
        gap.len() > 0,
        all_white(gap),
        b.len() > 0,
        !white_space(b[0]),
        !white_space(b.last()),
        evenly_spaced(b),
        free_of(b, '('),
    ensures
        unbracketed(a + gap + b) == a + gap + b,
        trimmed(a + gap + b) == a + gap + b,
        untitled(a + gap + b) == a + gap + b ==> normal_name(a + gap + b) == a + seq![' '] + b,
{
    let text = a + gap + b;
    assert forall|i: int| 0 <= i < text.len() implies #[trigger] text[i] != '(' by {
        if i >= a.len() + gap.len() {
            assert(text[i] == b[i - a.len() - gap.len()]);
        } else if i >= a.len() {
            assert(text[i] == gap[i - a.len()]);
        }
    }
    assert(lacks_brackets(text));
    lemma_unbracketed_stays(text);
    assert(text[0] == a[0]);
    assert(text[text.len() - 1] == b.last());
    assert(trimmed(text) == text);
    lemma_single_spaced_gap(a, gap, b);
    let name = a + seq![' '] + b;
    assert(name[0] == a[0]);
    assert(name[name.len() - 1] == b.last());
    assert(trimmed(name) == name);
}

} // verus!
