//! Repairs of single mistakes in the reports.

use crate::pattern::{
    bracket_closed, dash_spaced, first_match, first_rewritten, lemma_made_free,
    may_start_with_digit, open_until, replace_first, HANSEZ, JAMBON, LEADING_DASH, OPEN_BRACKET,
};
use crate::text::{
    holds_text, joined, law_replacing_is_splitting_and_joining, lemma_nothing_to_replace,
    lemma_replaced_free, pieces, replace, replaced, stands_at, starts_with, unquoted, white_space,
};
use vstd::prelude::*;

verus! {

/// A subquestion that repeats `Vraag van`, without it.
pub open spec fn announced_once(text: Seq<char>) -> Seq<char> {
    if stands_at(text, 0, "- Vraag van "@) {
        "- "@ + text.skip("- Vraag van "@.len() as int)
    } else {
        text
    }
}

/// The text of a numbered contribution, with the colon that the pattern finds missing put in.
pub open spec fn colon_added(pattern: Seq<char>, text: Seq<char>) -> Seq<char> {
    if may_start_with_digit(text) {
        first_rewritten(pattern, text, "$1: $2"@)
    } else {
        text
    }
}

/// `text` with the known mistakes repaired, but for the misspelt name.
pub open spec fn repaired_but_for_name(text: Seq<char>) -> Seq<char> {
    let announced = announced_once(dash_spaced(text));
    colon_added(JAMBON@, bracket_closed(colon_added(HANSEZ@, announced)))
}

/// `text` with the known mistakes repaired.
pub open spec fn repaired(text: Seq<char>) -> Seq<char> {
    replaced(repaired_but_for_name(text), "Matti Vandael"@, "Matti Vandemaele"@)
}

/// Leaves the second `Vraag van` out of a subquestion that repeats it.
pub fn announce_once(text: String) -> (r: String)
    ensures
        r@ == announced_once(text@),
{
    let repeated = "- Vraag van ";
    if starts_with(text.as_str(), repeated) {
        let len = text.as_str().unicode_len();
        let from = repeated.unicode_len();
        let rest = text.as_str().substring_char(from, len);
        assert(rest@ == text@.skip(from as int));
        let mut r = "- ".to_owned();
        r.append(rest);
        r
    } else {
        text
    }
}

/// Handle one-off mistakes from the commission meeting reports.
pub fn handle_one_off_issues(text: String) -> (r: String)
    ensures
        r@ == repaired(text@),
        unquoted(text@) ==> unquoted(r@),
{
    proof {
        reveal_strlit("- ");
        reveal_strlit("Matti Vandemaele");
        reveal_strlit("- $1");
        reveal_strlit("$1: $2");
        reveal_strlit("$1): ");
        reveal_strlit("Matti Vandael");
    }
    // IC56165: question 12 has '-Kjell Vander Elst' instead of '- Kjell Vander Elst'.
    let spaced = replace_first(LEADING_DASH, text.as_str(), "- $1");
    // IC56129: question 2 has an additional 'Vraag van Xavier Dubois'.
    let announced = announce_once(spaced);
    // IC56393: 'Isabelle Hansez Je vous remercie beaucoup' lacks its colon.
    let hansez = replace_first(HANSEZ, announced.as_str(), "$1: $2");
    // IC56188: 'Stefaan Van Hecke (Ecolo-Groen:' lacks its closing bracket.
    let closed = replace_first(OPEN_BRACKET, hansez.as_str(), "$1): ");
    // IC56161: 'Minister Jan Jambon Ik denk dat' lacks its colon.
    let jambon = replace_first(JAMBON, closed.as_str(), "$1: $2");
    proof {
        if unquoted(text@) {
            lemma_made_free(spaced@, text@, "- $1"@, '"');
            assert(unquoted(announced@));
            lemma_made_free(hansez@, announced@, "$1: $2"@, '"');
            lemma_made_free(closed@, hansez@, "$1): "@, '"');
            lemma_made_free(jambon@, closed@, "$1: $2"@, '"');
            lemma_replaced_free(jambon@, "Matti Vandael"@, "Matti Vandemaele"@, '"');
        }
    }
    // IC56430: 'Matti Vandael' is Matti Vandemaele.
    replace(jambon.as_str(), "Matti Vandael", "Matti Vandemaele")
}

/// A text that shows none of the mistakes stays as it is.
pub proof fn law_sound_text_stays(text: Seq<char>)
    requires
        dash_spaced(text) == text,
        bracket_closed(text) == text,
        may_start_with_digit(text) ==> first_match(HANSEZ@, text) is None && first_match(
            JAMBON@,
            text,
        ) is None,
        !stands_at(text, 0, "- Vraag van "@),
        !holds_text(text, "Matti Vandael"@),
    ensures
        repaired(text) == text,
{
    lemma_nothing_to_replace(text, "Matti Vandael"@, "Matti Vandemaele"@);
}

/// A repaired text that starts with a dash has white space behind it, or nothing. Texts that may
/// start with a digit start with no dash.
pub proof fn law_dash_is_spaced(text: Seq<char>)
    requires
        !may_start_with_digit(text),
    ensures
        repaired(text).len() > 1 && repaired(text)[0] == '-' ==> white_space(repaired(text)[1]),
{
    reveal_strlit("- ");
    reveal_strlit("- Vraag van ");
    reveal_strlit("Matti Vandael");
    reveal_strlit("Matti Vandemaele");
    reveal_strlit("): ");
    let from = "Matti Vandael"@;
    let to = "Matti Vandemaele"@;
    let announced = announced_once(dash_spaced(text));
    let closed = bracket_closed(announced);
    assert(announced.len() > 1 && announced[0] == '-' ==> white_space(announced[1]));
    assert(!may_start_with_digit(announced));
    if announced.len() > 0 {
        assert(closed.len() > 0 && closed[0] == announced[0]) by {
            if announced[0] == '(' && open_until(announced.drop_first()) is Some {
                lemma_open_until(announced.drop_first());
            }
        }
        if announced[0] == '-' {
            let rest = announced.drop_first();
            assert(closed == seq!['-'] + bracket_closed(rest));
            if rest.len() > 0 {
                assert(rest[0] == announced[1]);
                assert(bracket_closed(rest) == seq![rest[0]] + bracket_closed(rest.drop_first()));
                assert(closed[1] == rest[0]);
            }
            assert(!stands_at(closed, 0, from)) by {
                if stands_at(closed, 0, from) {
                    assert(closed.subrange(0, from.len() as int)[0] == closed[0]);
                }
            }
            let tail = closed.drop_first();
            assert(repaired(text) == seq!['-'] + replaced(tail, from, to));
            if tail.len() > 0 {
                assert(!stands_at(tail, 0, from)) by {
                    if stands_at(tail, 0, from) {
                        assert(tail.subrange(0, from.len() as int)[0] == tail[0]);
                    }
                }
                assert(replaced(tail, from, to)[0] == tail[0]);
            }
        } else if repaired(text).len() > 0 {
            assert(repaired(text)[0] != '-') by {
                if stands_at(closed, 0, from) {
                    assert(repaired(text)[0] == to[0]);
                } else {
                    assert(repaired(text)[0] == closed[0]);
                }
            }
        }
    }
}

/// The colon up to which a bracket is open stands in the text, with a character behind it.
proof fn lemma_open_until(text: Seq<char>)
    ensures
        open_until(text) matches Some(colon) ==> 0 <= colon < text.len() - 1 && text[colon] == ':',
    decreases text.len(),
{
    if text.len() >= 2 {
        lemma_open_until(text.drop_first());
    }
}

/// A repaired text never holds the misspelt name.
pub proof fn law_name_is_spelt_right(text: Seq<char>)
    ensures
        !holds_text(repaired(text), "Matti Vandael"@),
{
    let from = "Matti Vandael"@;
    let jambon = repaired_but_for_name(text);
    assert forall|at: int| !stands_at(repaired(text), at, from) by {
        if stands_at(repaired(text), at, from) {
            lemma_name_replaced(jambon, at);
        }
    }
}

/// No occurrence of the misspelt name stands in a text in which it was replaced.
proof fn lemma_name_replaced(s: Seq<char>, at: int)
    ensures
        !stands_at(replaced(s, "Matti Vandael"@, "Matti Vandemaele"@), at, "Matti Vandael"@),
    decreases s.len(),
{
    let from = "Matti Vandael"@;
    let to = "Matti Vandemaele"@;
    reveal_strlit("Matti Vandael");
    reveal_strlit("Matti Vandemaele");
    let r = replaced(s, from, to);
    if stands_at(r, at, from) {
        let part = r.subrange(at, at + from.len());
        assert(part == from);
        assert(part[0] == 'M' && part[11] == 'e' && part[12] == 'l');
        assert(r[at] == 'M');
        if s.len() == 0 {
        } else if stands_at(s, 0, from) {
            let rest = replaced(s.skip(from.len() as int), from, to);
            assert(r == to + rest);
            if at >= to.len() {
                assert(rest.subrange(at - to.len(), at - to.len() + from.len()) == part);
                lemma_name_replaced(s.skip(from.len() as int), at - to.len());
            } else if at == 0 {
                assert(part[11] == to[11]);
                assert(to[11] == 'm');
            } else {
                assert(r[at] == to[at]);
            }
        } else {
            let rest = replaced(s.drop_first(), from, to);
            assert(r == seq![s[0]] + rest);
            if at > 0 {
                assert(rest.subrange(at - 1, at - 1 + from.len()) == part);
                lemma_name_replaced(s.drop_first(), at - 1);
            } else {
                assert(from.skip(0) == from);
                lemma_name_copied(s, 0);
                assert(s.subrange(0, from.len() as int) == part);
            }
        }
    }
}

/// Where a text with the name replaced starts with characters of the misspelt name from
/// `k` on, those are the text's own: a replacement would bring an `M`.
proof fn lemma_name_copied(s: Seq<char>, k: int)
    requires
        0 <= k <= "Matti Vandael"@.len(),
        stands_at(
            replaced(s, "Matti Vandael"@, "Matti Vandemaele"@),
            0,
            "Matti Vandael"@.skip(k),
        ),
        k == 0 ==> !stands_at(s, 0, "Matti Vandael"@),
    ensures
        stands_at(s, 0, "Matti Vandael"@.skip(k)),
    decreases s.len(),
{
    let from = "Matti Vandael"@;
    let to = "Matti Vandemaele"@;
    reveal_strlit("Matti Vandael");
    reveal_strlit("Matti Vandemaele");
    let r = replaced(s, from, to);
    let tail = from.skip(k);
    assert(r.subrange(0, tail.len() as int) == tail);
    if k == from.len() {
        assert(s.subrange(0, 0) == tail);
    } else {
        assert(r[0] == r.subrange(0, tail.len() as int)[0]);
        assert(r[0] == from[k]);
        if s.len() == 0 {
        } else if stands_at(s, 0, from) {
            assert(r[0] == to[0]);
            assert(k > 0 ==> from[k] != 'M');
        } else {
            let rest = replaced(s.drop_first(), from, to);
            assert(r == seq![s[0]] + rest);
            assert(rest.subrange(0, tail.len() - 1) == from.skip(k + 1)) by {
                assert forall|i: int| 0 <= i < tail.len() - 1 implies rest[i] == from.skip(k + 1)[i]
                    by {
                    assert(rest[i] == r[i + 1]);
                    assert(r.subrange(0, tail.len() as int)[i + 1] == tail[i + 1]);
                }
            }
            lemma_name_copied(s.drop_first(), k + 1);
            let own = s.drop_first();
            assert(own.subrange(0, tail.len() - 1) == from.skip(k + 1));
            assert(s.subrange(0, tail.len() as int) == tail) by {
                assert forall|i: int| 0 <= i < tail.len() implies s[i] == tail[i] by {
                    if i > 0 {
                        assert(own.subrange(0, tail.len() - 1)[i - 1] == from.skip(k + 1)[i - 1]);
                    }
                }
            }
        }
    }
}

/// A subquestion that repeats `Vraag van` loses these words and keeps the rest; any other text
/// stays as it is.
pub proof fn law_repeated_words_are_left_out(rest: Seq<char>, other: Seq<char>)
    requires
        !stands_at(other, 0, "- Vraag van "@),
    ensures
        announced_once("- Vraag van "@ + rest) == "- "@ + rest,
        announced_once(other) == other,
{
    let words = "- Vraag van "@;
    assert((words + rest).subrange(0, words.len() as int) == words);
    assert((words + rest).skip(words.len() as int) == rest);
}

/// A text that starts with no digit is repaired in this order: a space behind the dash at its
/// start, the repeated words left out, the open bracket closed, the misspelt name put right.
pub proof fn law_repairs_of_texts_without_number(text: Seq<char>)
    requires
        text.len() > 0 ==> text[0] <= '\u{7f}' && !('0' <= text[0] <= '9'),
    ensures
        repaired(text) == joined(
            pieces(bracket_closed(announced_once(dash_spaced(text))), "Matti Vandael"@),
            "Matti Vandemaele"@,
        ),
        text.len() > 1 && text[0] == '-' && !white_space(text[1]) && !stands_at(
            seq!['-', ' '] + text.skip(1),
            0,
            "- Vraag van "@,
        ) ==> repaired(text) == joined(
            pieces(bracket_closed(seq!['-', ' '] + text.skip(1)), "Matti Vandael"@),
            "Matti Vandemaele"@,
        ),
{
    reveal_strlit("- ");
    reveal_strlit("- Vraag van ");
    reveal_strlit("Matti Vandael");
    reveal_strlit("): ");
    assert("- "@ == seq!['-', ' ']);
    let announced = announced_once(dash_spaced(text));
    let closed = bracket_closed(announced);
    assert(!may_start_with_digit(announced));
    assert(!may_start_with_digit(closed)) by {
        if announced.len() > 0 {
            if announced[0] == '(' && open_until(announced.drop_first()) is Some {
                lemma_open_until(announced.drop_first());
            }
            assert(closed[0] == announced[0]);
        }
    }
    law_replacing_is_splitting_and_joining(closed, "Matti Vandael"@, "Matti Vandemaele"@);
}

/// A text that may start with a digit is repaired in this order: the colon behind the name of one
/// speaker put in, the open bracket closed, the colon behind the name of another put in, the
/// misspelt name put right.
pub proof fn law_repairs_of_numbered_texts(text: Seq<char>)
    requires
        text.len() > 0,
        '0' <= text[0] <= '9' || text[0] > '\u{7f}',
        ({
            let closed = bracket_closed(first_rewritten(HANSEZ@, text, "$1: $2"@));
            closed.len() > 0 && ('0' <= closed[0] <= '9' || closed[0] > '\u{7f}')
        }),
    ensures
        repaired(text) == joined(
            pieces(
                first_rewritten(
                    JAMBON@,
                    bracket_closed(first_rewritten(HANSEZ@, text, "$1: $2"@)),
                    "$1: $2"@,
                ),
                "Matti Vandael"@,
            ),
            "Matti Vandemaele"@,
        ),
{
    reveal_strlit("- Vraag van ");
    reveal_strlit("Matti Vandael");
    assert(dash_spaced(text) == text);
    assert(announced_once(text) == text) by {
        if stands_at(text, 0, "- Vraag van "@) {
            assert(text.subrange(0, "- Vraag van "@.len() as int)[0] == text[0]);
        }
    }
    law_replacing_is_splitting_and_joining(
        repaired_but_for_name(text),
        "Matti Vandael"@,
        "Matti Vandemaele"@,
    );
}

} // verus!
