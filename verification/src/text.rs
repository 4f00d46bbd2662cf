//! Text operations on character sequences.
//!
//! A text is modelled as the sequence of its characters, a list of texts as a
//! sequence of such sequences.

use vstd::prelude::*;

verus! {

/// Appending a character: `String::push` adds it behind the others.
pub assume_specification[ String::push ](s: &mut String, c: char)
    ensures
        final(s)@ == old(s)@.push(c),
;

/// Whether the text is made of the characters of Latin-1, the first 256 of Unicode.
pub open spec fn latin(s: Seq<char>) -> bool {
    forall|i: int| 0 <= i < s.len() ==> #[trigger] s[i] <= '\u{ff}'
}

/// The lower case of a character of Latin-1.
pub open spec fn latin_lower(c: char) -> char {
    if 'A' <= c <= 'Z' || '\u{c0}' <= c <= '\u{de}' && c != '\u{d7}' {
        (c as int + 32) as char
    } else {
        c
    }
}

/// The text with the capital letters of Latin-1 in lower case.
pub open spec fn latin_lowercase(s: Seq<char>) -> Seq<char> {
    s.map_values(|c: char| latin_lower(c))
}

/// What the lower case of a text has for the character `c` in it, after Unicode, where `before`
/// and `after` stand around it.
pub uninterp spec fn lowercase_in(before: Seq<char>, c: char, after: Seq<char>) -> Seq<char>;

/// What the lower case of `s` has for its character `i`. That of a capital sigma depends on what
/// stands around it, that of any other character on it alone.
pub open spec fn lowercase_at(s: Seq<char>, i: int) -> Seq<char> {
    if s[i] <= '\u{ff}' {
        seq![latin_lower(s[i])]
    } else if s[i] == '\u{3a3}' {
        lowercase_in(s.take(i), s[i], s.skip(i + 1))
    } else {
        lowercase_in(Seq::empty(), s[i], Seq::empty())
    }
}

/// What the lower case of `s` has for its first `n` characters.
pub open spec fn lowercase_upto(s: Seq<char>, n: nat) -> Seq<char>
    decreases n,
{
    if n == 0 {
        Seq::empty()
    } else {
        lowercase_upto(s, (n - 1) as nat) + lowercase_at(s, n - 1)
    }
}

/// The lower case of a text, after Unicode.
pub open spec fn lowercase(s: Seq<char>) -> Seq<char> {
    lowercase_upto(s, s.len())
}

/// The lower case of a text: `str::to_lowercase`. Each character becomes its lower case, which is
/// a function of the character alone, but for the capital sigma, for which it is one of what
/// stands around it too. The capital letters of Latin-1 become the small letters that Unicode has
/// for them, and the other characters of Latin-1 stay. What becomes of the characters that are
/// not of Latin-1 is not said.
pub assume_specification[ str::to_lowercase ](s: &str) -> (r: String)
    ensures
        r@ == lowercase(s@),
        s@.len() == 1 && !latin(s@) ==> r@ == lowercase_in(Seq::empty(), s@[0], Seq::empty()),
;

/// The contents of a list of strings.
pub open spec fn texts(list: Seq<String>) -> Seq<Seq<char>> {
    Seq::new(list.len(), |i: int| list[i]@)
}

/// The characters with the Unicode property `White_Space`.
pub open spec fn white_space(c: char) -> bool {
    ||| '\u{9}' <= c <= '\u{d}'
    ||| c == '\u{20}'
    ||| c == '\u{85}'
    ||| c == '\u{a0}'
    ||| c == '\u{1680}'
    ||| '\u{2000}' <= c <= '\u{200a}'
    ||| c == '\u{2028}'
    ||| c == '\u{2029}'
    ||| c == '\u{202f}'
    ||| c == '\u{205f}'
    ||| c == '\u{3000}'
}

/// `s` without the white space at its start.
pub open spec fn trimmed_start(s: Seq<char>) -> Seq<char>
    decreases s.len(),
{
    if s.len() > 0 && white_space(s[0]) {
        trimmed_start(s.drop_first())
    } else {
        s
    }
}

/// `s` without the white space at its end.
pub open spec fn trimmed_end(s: Seq<char>) -> Seq<char>
    decreases s.len(),
{
    if s.len() > 0 && white_space(s.last()) {
        trimmed_end(s.drop_last())
    } else {
        s
    }
}

/// `s` without the white space around it.
pub open spec fn trimmed(s: Seq<char>) -> Seq<char> {
    trimmed_end(trimmed_start(s))
}

/// Whether `part` stands in `s` from index `at` on.
pub open spec fn stands_at(s: Seq<char>, at: int, part: Seq<char>) -> bool {
    0 <= at && at + part.len() <= s.len() && s.subrange(at, at + part.len()) == part
}

/// Whether `part` stands somewhere in `s`.
pub open spec fn holds_text(s: Seq<char>, part: Seq<char>) -> bool {
    exists|at: int| stands_at(s, at, part)
}

/// Whether one of `parts` stands somewhere in `s`.
pub open spec fn holds_any(s: Seq<char>, parts: Seq<Seq<char>>) -> bool {
    exists|i: int| 0 <= i < parts.len() && holds_text(s, #[trigger] parts[i])
}

/// `s` with every occurrence of `from`, taken from left to right without
/// overlaps, turned into `to`.
pub open spec fn replaced(s: Seq<char>, from: Seq<char>, to: Seq<char>) -> Seq<char>
    recommends
        from.len() > 0,
    decreases s.len(),
{
    if s.len() == 0 || from.len() == 0 {
        s
    } else if stands_at(s, 0, from) {
        to + replaced(s.skip(from.len() as int), from, to)
    } else {
        seq![s[0]] + replaced(s.drop_first(), from, to)
    }
}

/// `head` put in front of the first piece of `pieces`.
pub open spec fn with_head(head: Seq<char>, pieces: Seq<Seq<char>>) -> Seq<Seq<char>> {
    seq![head + pieces[0]] + pieces.skip(1)
}

/// The pieces of `s` between the occurrences of `separator`, taken from left to
/// right without overlaps.
pub open spec fn pieces(s: Seq<char>, separator: Seq<char>) -> Seq<Seq<char>>
    recommends
        separator.len() > 0,
    decreases s.len(),
{
    if s.len() == 0 || separator.len() == 0 {
        seq![s]
    } else if stands_at(s, 0, separator) {
        seq![Seq::<char>::empty()] + pieces(s.skip(separator.len() as int), separator)
    } else {
        with_head(seq![s[0]], pieces(s.drop_first(), separator))
    }
}

/// The characters of `s` up to its first white space.
pub open spec fn first_word(s: Seq<char>) -> Seq<char>
    decreases s.len(),
{
    if s.len() == 0 || white_space(s[0]) {
        Seq::empty()
    } else {
        seq![s[0]] + first_word(s.drop_first())
    }
}

/// The stretches of `s` that hold no white space.
pub open spec fn words(s: Seq<char>) -> Seq<Seq<char>>
    decreases s.len(),
{
    if s.len() == 0 {
        Seq::empty()
    } else if white_space(s[0]) {
        words(s.drop_first())
    } else {
        proof {
            lemma_first_word_within(s);
        }
        seq![first_word(s)] + words(s.skip(first_word(s).len() as int))
    }
}

/// A first word is no longer than the text it starts, and not empty where no white
/// space stands in front.
pub proof fn lemma_first_word_within(s: Seq<char>)
    ensures
        first_word(s).len() <= s.len(),
        s.len() > 0 && !white_space(s[0]) ==> first_word(s).len() > 0,
    decreases s.len(),
{
    if s.len() > 0 && !white_space(s[0]) {
        lemma_first_word_within(s.drop_first());
    }
}

/// The texts of `parts` one behind the other, `separator` between each two.
pub open spec fn joined(parts: Seq<Seq<char>>, separator: Seq<char>) -> Seq<char>
    decreases parts.len(),
{
    if parts.len() == 0 {
        Seq::empty()
    } else if parts.len() == 1 {
        parts[0]
    } else {
        joined(parts.drop_last(), separator) + separator + parts.last()
    }
}

/// Whether `c` has the Unicode property `White_Space`.
pub fn is_white_space(c: char) -> (r: bool)
    ensures
        r == white_space(c),
{
    ('\u{9}' <= c && c <= '\u{d}') || c == '\u{20}' || c == '\u{85}' || c == '\u{a0}' || c
        == '\u{1680}' || ('\u{2000}' <= c && c <= '\u{200a}') || c == '\u{2028}' || c == '\u{2029}'
        || c == '\u{202f}' || c == '\u{205f}' || c == '\u{3000}'
}

/// The characters of `s`.
pub fn chars_of(s: &str) -> (r: Vec<char>)
    ensures
        r@ == s@,
{
    let mut chars: Vec<char> = Vec::new();
    for c in it: s.chars()
        invariant
            it.seq() == s@,
            chars@ == s@.take(it.index() as int),
    {
        chars.push(c);
    }
    chars
}

/// `s` without the white space at its start.
pub fn trim_start(s: &str) -> (r: &str)
    ensures
        r@ == trimmed_start(s@),
{
    let chars = chars_of(s);
    let mut from: usize = 0;
    assert(s@.skip(0) == s@);
    while from < chars.len() && is_white_space(chars[from])
        invariant
            chars@ == s@,
            from <= chars.len(),
            trimmed_start(s@.skip(from as int)) == trimmed_start(s@),
        decreases chars.len() - from,
    {
        assert(s@.skip(from as int).drop_first() == s@.skip(from + 1));
        from += 1;
    }
    assert(s@.skip(from as int) == s@.subrange(from as int, s@.len() as int));
    s.substring_char(from, chars.len())
}

/// `s` without the white space at its end.
pub fn trim_end(s: &str) -> (r: &str)
    ensures
        r@ == trimmed_end(s@),
{
    let chars = chars_of(s);
    let mut to: usize = chars.len();
    assert(s@.take(s@.len() as int) == s@);
    while to > 0 && is_white_space(chars[to - 1])
        invariant
            chars@ == s@,
            to <= chars.len(),
            trimmed_end(s@.take(to as int)) == trimmed_end(s@),
        decreases to,
    {
        assert(s@.take(to as int).drop_last() == s@.take(to - 1));
        to -= 1;
    }
    assert(s@.take(to as int) == s@.subrange(0, to as int));
    s.substring_char(0, to)
}

/// `s` without the white space around it.
pub fn trim(s: &str) -> (r: &str)
    ensures
        r@ == trimmed(s@),
{
    trim_end(trim_start(s))
}

/// Whether the characters of `part` stand in `chars` from `at` on.
fn matches_at(chars: &Vec<char>, at: usize, part: &Vec<char>) -> (r: bool)
    ensures
        r == stands_at(chars@, at as int, part@),
{
    if at > chars.len() || part.len() > chars.len() - at {
        return false;
    }
    let mut i: usize = 0;
    while i < part.len()
        invariant
            at + part.len() <= chars.len(),
            i <= part.len(),
            forall|j: int| 0 <= j < i ==> chars@[at + j] == #[trigger] part@[j],
        decreases part.len() - i,
    {
        if chars[at + i] != part[i] {
            assert(chars@.subrange(at as int, at + part.len())[i as int] != part@[i as int]);
            return false;
        }
        i += 1;
    }
    assert(chars@.subrange(at as int, at + part.len()) == part@);
    true
}

/// Whether the two texts are the same.
pub fn same_text(a: &str, b: &str) -> (r: bool)
    ensures
        r == (a@ == b@),
{
    let left = chars_of(a);
    let right = chars_of(b);
    let same = left.len() == right.len() && matches_at(&left, 0, &right);
    proof {
        assert(a@.subrange(0, a@.len() as int) == a@);
    }
    same
}

/// Whether `s` starts with `part`.
pub fn starts_with(s: &str, part: &str) -> (r: bool)
    ensures
        r == stands_at(s@, 0, part@),
{
    matches_at(&chars_of(s), 0, &chars_of(part))
}

/// Whether `part` stands somewhere in `s`.
pub fn contains(s: &str, part: &str) -> (r: bool)
    ensures
        r == holds_text(s@, part@),
{
    let chars = chars_of(s);
    let wanted = chars_of(part);
    let mut at: usize = 0;
    while at <= chars.len()
        invariant
            chars@ == s@,
            wanted@ == part@,
            at <= chars.len() + 1,
            forall|j: int| 0 <= j < at ==> !stands_at(s@, j, part@),
        decreases chars.len() + 1 - at,
    {
        if matches_at(&chars, at, &wanted) {
            return true;
        }
        if at == chars.len() {
            assert forall|j: int| !stands_at(s@, j, part@) by {}
            return false;
        }
        at += 1;
    }
    false
}

/// `s` with every occurrence of `from` turned into `to`.
pub fn replace(s: &str, from: &str, to: &str) -> (r: String)
    requires
        from@.len() > 0,
    ensures
        r@ == replaced(s@, from@, to@),
{
    let chars = chars_of(s);
    let wanted = chars_of(from);
    let mut out = String::new();
    let mut at: usize = 0;
    assert(s@.skip(0) == s@);
    assert(out@ + replaced(s@, from@, to@) == replaced(s@, from@, to@));
    while at < chars.len()
        invariant
            chars@ == s@,
            wanted@ == from@,
            from@.len() > 0,
            at <= chars.len(),
            out@ + replaced(s@.skip(at as int), from@, to@) == replaced(s@, from@, to@),
        decreases chars.len() - at,
    {
        let ghost rest = s@.skip(at as int);
        let ghost before = out@;
        let found = matches_at(&chars, at, &wanted);
        proof {
            if at + from@.len() <= s@.len() {
                assert(rest.subrange(0, from@.len() as int) == s@.subrange(
                    at as int,
                    at + from@.len(),
                ));
            }
            assert(found == stands_at(rest, 0, from@));
        }
        if found {
            out.append(to);
            at += wanted.len();
            assert(rest.skip(from@.len() as int) == s@.skip(at as int));
            assert(before + (to@ + replaced(s@.skip(at as int), from@, to@)) == before + to@
                + replaced(s@.skip(at as int), from@, to@));
        } else {
            let c = chars[at];
            out.push(c);
            at += 1;
            assert(rest.drop_first() == s@.skip(at as int));
            assert(before + (seq![c] + replaced(s@.skip(at as int), from@, to@)) == before.push(c)
                + replaced(s@.skip(at as int), from@, to@));
        }
    }
    assert(s@.skip(at as int) == Seq::<char>::empty());
    assert(out@ + Seq::<char>::empty() == out@);
    out
}

proof fn lemma_pieces_some(s: Seq<char>, separator: Seq<char>)
    ensures
        pieces(s, separator).len() > 0,
    decreases s.len(),
{
    if s.len() == 0 || separator.len() == 0 {
    } else if stands_at(s, 0, separator) {
    } else {
        lemma_pieces_some(s.drop_first(), separator);
    }
}

/// The pieces of `s` between the occurrences of `separator`.
pub fn split(s: &str, separator: &str) -> (r: Vec<String>)
    requires
        separator@.len() > 0,
    ensures
        texts(r@) == pieces(s@, separator@),
{
    let chars = chars_of(s);
    let wanted = chars_of(separator);
    let mut out: Vec<String> = Vec::new();
    let mut current = String::new();
    let mut at: usize = 0;
    proof {
        lemma_pieces_some(s@, separator@);
        assert(s@.skip(0) == s@);
        assert(texts(out@) + with_head(current@, pieces(s@, separator@)) == pieces(s@, separator@))
            by {
            assert(current@ + pieces(s@, separator@)[0] == pieces(s@, separator@)[0]);
        }
    }
    while at < chars.len()
        invariant
            chars@ == s@,
            wanted@ == separator@,
            separator@.len() > 0,
            at <= chars.len(),
            texts(out@) + with_head(current@, pieces(s@.skip(at as int), separator@)) == pieces(
                s@,
                separator@,
            ),
        decreases chars.len() - at,
    {
        let ghost rest = s@.skip(at as int);
        let ghost head = current@;
        let ghost done = texts(out@);
        let found = matches_at(&chars, at, &wanted);
        proof {
            if at + separator@.len() <= s@.len() {
                assert(rest.subrange(0, separator@.len() as int) == s@.subrange(
                    at as int,
                    at + separator@.len(),
                ));
            }
            assert(found == stands_at(rest, 0, separator@));
        }
        if found {
            out.push(current);
            current = String::new();
            at += wanted.len();
            proof {
                let next = pieces(s@.skip(at as int), separator@);
                assert(rest.skip(separator@.len() as int) == s@.skip(at as int));
                lemma_pieces_some(s@.skip(at as int), separator@);
                assert(head + Seq::<char>::empty() == head);
                assert(pieces(rest, separator@).skip(1) == next);
                assert(current@ + next[0] == next[0]);
                assert(with_head(current@, next) == next);
                assert(texts(out@) == done.push(head));
                assert(texts(out@) + next == done + with_head(head, pieces(rest, separator@)));
            }
        } else {
            let c = chars[at];
            current.push(c);
            at += 1;
            proof {
                let next = pieces(s@.skip(at as int), separator@);
                assert(rest.drop_first() == s@.skip(at as int));
                lemma_pieces_some(s@.skip(at as int), separator@);
                assert(head + (seq![c] + next[0]) == head.push(c) + next[0]);
                assert(pieces(rest, separator@).skip(1) == next.skip(1));
            }
        }
    }
    proof {
        assert(s@.skip(at as int) == Seq::<char>::empty());
        let last = pieces(Seq::<char>::empty(), separator@);
        assert(last == seq![Seq::<char>::empty()]);
        assert(current@ + last[0] == current@);
        assert(with_head(current@, last) == seq![current@]);
    }
    let ghost done = out@;
    out.push(current);
    assert(texts(out@) == texts(done) + seq![out@.last()@]);
    out
}

/// The stretches of `s` that hold no white space.
pub fn split_whitespace(s: &str) -> (r: Vec<String>)
    ensures
        texts(r@) == words(s@),
{
    let chars = chars_of(s);
    let mut out: Vec<String> = Vec::new();
    let mut at: usize = 0;
    assert(s@.skip(0) == s@);
    assert(texts(out@) + words(s@) == words(s@));
    while at < chars.len()
        invariant
            chars@ == s@,
            at <= chars.len(),
            texts(out@) + words(s@.skip(at as int)) == words(s@),
        decreases chars.len() - at,
    {
        let ghost rest = s@.skip(at as int);
        let ghost done = texts(out@);
        if is_white_space(chars[at]) {
            at += 1;
            assert(rest.drop_first() == s@.skip(at as int));
        } else {
            let ghost from = at as int;
            let mut word = String::new();
            assert(word@ + first_word(rest) == first_word(rest));
            while at < chars.len() && !is_white_space(chars[at])
                invariant
                    chars@ == s@,
                    from <= at <= chars.len(),
                    word@.len() == at - from,
                    word@ + first_word(s@.skip(at as int)) == first_word(rest),
                decreases chars.len() - at,
            {
                let ghost before = word@;
                let c = chars[at];
                word.push(c);
                assert(s@.skip(at as int).drop_first() == s@.skip(at + 1));
                at += 1;
                assert(before + (seq![c] + first_word(s@.skip(at as int))) == before.push(c)
                    + first_word(s@.skip(at as int)));
            }
            assert(first_word(s@.skip(at as int)) == Seq::<char>::empty());
            assert(word@ == first_word(rest));
            assert(at > from) by {
                assert(first_word(rest).len() > 0);
            }
            out.push(word);
            proof {
                assert(rest.skip(word@.len() as int) == s@.skip(at as int));
                assert(texts(out@) == done.push(word@));
                assert(done.push(word@) + words(s@.skip(at as int)) == done + (seq![word@] + words(
                    s@.skip(at as int),
                )));
            }
        }
    }
    assert(s@.skip(at as int) == Seq::<char>::empty());
    assert(texts(out@) + Seq::<Seq<char>>::empty() == texts(out@));
    out
}

/// The texts of `parts` one behind the other, `separator` between each two.
pub fn join(parts: &Vec<String>, separator: &str) -> (r: String)
    ensures
        r@ == joined(texts(parts@), separator@),
{
    let mut out = String::new();
    let mut i: usize = 0;
    let ghost all = texts(parts@);
    while i < parts.len()
        invariant
            all == texts(parts@),
            i <= parts.len(),
            out@ == joined(all.take(i as int), separator@),
        decreases parts.len() - i,
    {
        let ghost before = out@;
        assert(all.take(i + 1).drop_last() == all.take(i as int));
        if i > 0 {
            out.append(separator);
        }
        out.append(parts[i].as_str());
        proof {
            if i == 0 {
                assert(before + all[0] == all[0]);
            }
        }
        i += 1;
    }
    assert(all.take(i as int) == all);
    out
}

/// Whether `wanted` is one of `list`.
pub fn is_listed(list: &Vec<String>, wanted: &String) -> (r: bool)
    ensures
        r == texts(list@).contains(wanted@),
{
    let mut i: usize = 0;
    while i < list.len()
        invariant
            i <= list.len(),
            forall|j: int| 0 <= j < i ==> texts(list@)[j] != wanted@,
        decreases list.len() - i,
    {
        if same_text(list[i].as_str(), wanted.as_str()) {
            assert(texts(list@)[i as int] == wanted@);
            return true;
        }
        i += 1;
    }
    false
}

/// Whether one of `parts` stands somewhere in `s`.
pub fn contains_any(s: &str, parts: &[&str]) -> (r: bool)
    ensures
        r == holds_any(s@, parts@.map_values(|p: &str| p@)),
{
    let ghost all = parts@.map_values(|p: &str| p@);
    let mut i: usize = 0;
    while i < parts.len()
        invariant
            all == parts@.map_values(|p: &str| p@),
            i <= parts.len(),
            forall|j: int| 0 <= j < i ==> !holds_text(s@, #[trigger] all[j]),
        decreases parts.len() - i,
    {
        if contains(s, parts[i]) {
            assert(holds_text(s@, all[i as int]));
            return true;
        }
        i += 1;
    }
    false
}

/// A text that does not hold what is to be replaced stays as it is.
pub proof fn lemma_nothing_to_replace(s: Seq<char>, from: Seq<char>, to: Seq<char>)
    requires
        !holds_text(s, from),
    ensures
        replaced(s, from, to) == s,
    decreases s.len(),
{
    if s.len() > 0 && from.len() > 0 {
        assert(!stands_at(s, 0, from));
        assert forall|at: int| !stands_at(s.drop_first(), at, from) by {
            if stands_at(s.drop_first(), at, from) {
                assert(s.subrange(at + 1, at + 1 + from.len()) == s.drop_first().subrange(
                    at,
                    at + from.len(),
                ));
                assert(stands_at(s, at + 1, from));
            }
        }
        lemma_nothing_to_replace(s.drop_first(), from, to);
        assert(seq![s[0]] + s.drop_first() == s);
    }
}

/// A trimmed text starts and ends with no white space.
pub proof fn lemma_trimmed_ends(s: Seq<char>)
    ensures
        trimmed(s).len() > 0 ==> !white_space(trimmed(s)[0]) && !white_space(trimmed(s).last()),
        trimmed(trimmed(s)) == trimmed(s),
{
    lemma_trimmed_start_end(s);
    lemma_trimmed_end_prefix(trimmed_start(s));
}

/// A text without the white space at its start does not start with any.
pub proof fn lemma_trimmed_start_end(s: Seq<char>)
    ensures
        trimmed_start(s).len() > 0 ==> !white_space(trimmed_start(s)[0]),
    decreases s.len(),
{
    if s.len() > 0 && white_space(s[0]) {
        lemma_trimmed_start_end(s.drop_first());
    }
}

/// A text that starts with no white space has something left when it is trimmed.
pub proof fn lemma_trimmed_not_empty(s: Seq<char>)
    requires
        s.len() > 0,
        !white_space(s[0]),
    ensures
        trimmed(s).len() > 0,
{
    lemma_trimmed_end_not_empty(s);
}

proof fn lemma_trimmed_end_not_empty(s: Seq<char>)
    requires
        s.len() > 0,
        !white_space(s[0]),
    ensures
        trimmed_end(s).len() > 0,
    decreases s.len(),
{
    if white_space(s.last()) {
        lemma_trimmed_end_not_empty(s.drop_last());
    }
}

/// What the lower case has for the first characters stands at its start.
pub proof fn lemma_lowercase_grows(s: Seq<char>, n: nat, m: nat)
    requires
        n <= m,
    ensures
        lowercase_upto(s, n).len() <= lowercase_upto(s, m).len(),
        lowercase_upto(s, m).take(lowercase_upto(s, n).len() as int) == lowercase_upto(s, n),
    decreases m,
{
    let start = lowercase_upto(s, n);
    if n == m {
        assert(start.take(start.len() as int) == start);
    } else {
        lemma_lowercase_grows(s, n, (m - 1) as nat);
        assert(lowercase_upto(s, m).take(start.len() as int) == lowercase_upto(
            s,
            (m - 1) as nat,
        ).take(start.len() as int));
    }
}

/// The lower case of Latin-1 characters in a text is theirs, whatever stands around them.
pub proof fn lemma_lowercase_of_latin_part(s: Seq<char>, at: nat, n: nat)
    requires
        at + n <= s.len(),
        latin(s.subrange(at as int, (at + n) as int)),
    ensures
        lowercase_upto(s, at + n) == lowercase_upto(s, at) + latin_lowercase(
            s.subrange(at as int, (at + n) as int),
        ),
    decreases n,
{
    let part = s.subrange(at as int, (at + n) as int);
    if n == 0 {
        assert(lowercase_upto(s, at) + latin_lowercase(part) == lowercase_upto(s, at));
    } else {
        let shorter = s.subrange(at as int, at + n - 1);
        assert(part.drop_last() == shorter);
        assert forall|i: int| 0 <= i < shorter.len() implies #[trigger] shorter[i] <= '\u{ff}' by {
            assert(shorter[i] == part[i]);
        }
        lemma_lowercase_of_latin_part(s, at, (n - 1) as nat);
        assert(part[n - 1] == s[at + n - 1]);
        assert(latin_lowercase(part) == latin_lowercase(shorter).push(latin_lower(part[n - 1])));
        assert(lowercase_upto(s, at) + latin_lowercase(part) == lowercase_upto(s, at)
            + latin_lowercase(shorter) + seq![latin_lower(part[n - 1])]);
    }
}

/// The lower case of a text of Latin-1 changes its capital letters alone.
pub proof fn law_lowercase_of_latin(s: Seq<char>)
    requires
        latin(s),
    ensures
        lowercase(s) == latin_lowercase(s),
{
    assert(s.subrange(0, s.len() as int) == s);
    lemma_lowercase_of_latin_part(s, 0, s.len());
    assert(lowercase_upto(s, 0) + latin_lowercase(s) == latin_lowercase(s));
}

/// Where a part of Latin-1 characters stands in a text, its lower case stands in the lower case
/// of the text; where it stands at the start, so does its lower case.
pub proof fn law_latin_part_in_lower_case(s: Seq<char>, part: Seq<char>)
    requires
        latin(part),
        holds_text(s, part),
    ensures
        holds_text(lowercase(s), latin_lowercase(part)),
        stands_at(s, 0, part) ==> stands_at(lowercase(s), 0, latin_lowercase(part)),
{
    let at = choose|at: int| stands_at(s, at, part);
    lemma_latin_part_at(s, at, part);
    if stands_at(s, 0, part) {
        lemma_latin_part_at(s, 0, part);
    }
}

proof fn lemma_latin_part_at(s: Seq<char>, at: int, part: Seq<char>)
    requires
        latin(part),
        stands_at(s, at, part),
    ensures
        stands_at(lowercase(s), lowercase_upto(s, at as nat).len() as int, latin_lowercase(part)),
{
    let before = lowercase_upto(s, at as nat);
    let lower = latin_lowercase(part);
    let end = (at + part.len()) as nat;
    lemma_lowercase_of_latin_part(s, at as nat, part.len());
    lemma_lowercase_grows(s, end, s.len());
    let start = lowercase_upto(s, end);
    assert(lowercase(s).take(start.len() as int) == before + lower);
    let from = before.len() as int;
    let to = start.len() as int;
    assert(lowercase(s).subrange(from, to) == lowercase(s).take(to).subrange(from, to));
    assert((before + lower).subrange(from, to) == lower);
}

proof fn lemma_lowercase_of_first(a: Seq<char>, b: Seq<char>, n: nat)
    requires
        free_of(a, '\u{3a3}'),
        n <= a.len(),
    ensures
        lowercase_upto(a + b, n) == lowercase_upto(a, n),
    decreases n,
{
    if n > 0 {
        lemma_lowercase_of_first(a, b, (n - 1) as nat);
        assert((a + b)[n - 1] == a[n - 1]);
    }
}

proof fn lemma_lowercase_of_second(a: Seq<char>, b: Seq<char>, n: nat)
    requires
        free_of(b, '\u{3a3}'),
        n <= b.len(),
    ensures
        lowercase_upto(a + b, a.len() + n) == lowercase_upto(a + b, a.len()) + lowercase_upto(b, n),
    decreases n,
{
    let front = lowercase_upto(a + b, a.len());
    if n == 0 {
        assert(front + lowercase_upto(b, 0) == front);
    } else {
        lemma_lowercase_of_second(a, b, (n - 1) as nat);
        assert((a + b)[a.len() + n - 1] == b[n - 1]);
        assert(front + (lowercase_upto(b, (n - 1) as nat) + lowercase_at(b, n - 1)) == front
            + lowercase_upto(b, (n - 1) as nat) + lowercase_at(b, n - 1));
    }
}

/// The lower case of two texts without a capital sigma, one behind the other, is that of the one
/// and then that of the other.
pub proof fn law_lowercase_of_both(a: Seq<char>, b: Seq<char>)
    requires
        free_of(a, '\u{3a3}'),
        free_of(b, '\u{3a3}'),
    ensures
        lowercase(a + b) == lowercase(a) + lowercase(b),
{
    lemma_lowercase_of_first(a, b, a.len());
    lemma_lowercase_of_second(a, b, b.len());
}

proof fn lemma_trimmed_end_prefix(s: Seq<char>)
    ensures
        trimmed_end(s).len() <= s.len(),
        trimmed_end(s) == s.take(trimmed_end(s).len() as int),
        trimmed_end(s).len() > 0 ==> !white_space(trimmed_end(s).last()),
    decreases s.len(),
{
    if s.len() > 0 && white_space(s.last()) {
        lemma_trimmed_end_prefix(s.drop_last());
    }
}

/// Texts joined behind a first one are that one, the separator and the texts joined.
pub proof fn lemma_joined_front(first: Seq<char>, rest: Seq<Seq<char>>, separator: Seq<char>)
    requires
        rest.len() > 0,
    ensures
        joined(seq![first] + rest, separator) == first + separator + joined(rest, separator),
    decreases rest.len(),
{
    let all = seq![first] + rest;
    assert(all.last() == rest.last());
    if rest.len() == 1 {
        assert(all.drop_last() == seq![first]);
        assert(joined(seq![first], separator) == first);
    } else {
        assert(all.drop_last() == seq![first] + rest.drop_last());
        lemma_joined_front(first, rest.drop_last(), separator);
        assert(first + separator + joined(rest.drop_last(), separator) + separator + rest.last()
            == first + separator + (joined(rest.drop_last(), separator) + separator
            + rest.last()));
    }
}

/// The pieces of a text, joined again, are that text.
pub proof fn law_split_then_join(s: Seq<char>, separator: Seq<char>)
    requires
        separator.len() > 0,
    ensures
        joined(pieces(s, separator), separator) == s,
    decreases s.len(),
{
    if s.len() == 0 {
    } else if stands_at(s, 0, separator) {
        let rest = s.skip(separator.len() as int);
        law_split_then_join(rest, separator);
        lemma_pieces_some(rest, separator);
        lemma_joined_front(Seq::empty(), pieces(rest, separator), separator);
        assert(s == s.subrange(0, separator.len() as int) + rest);
        assert(Seq::<char>::empty() + separator + rest == s);
    } else {
        let rest = s.drop_first();
        let parts = pieces(rest, separator);
        law_split_then_join(rest, separator);
        lemma_pieces_some(rest, separator);
        let more = with_head(seq![s[0]], parts);
        if parts.len() == 1 {
            assert(more == seq![seq![s[0]] + parts[0]]);
        } else {
            lemma_joined_front(seq![s[0]] + parts[0], parts.skip(1), separator);
            lemma_joined_front(parts[0], parts.skip(1), separator);
            assert(seq![parts[0]] + parts.skip(1) == parts);
            let tail = separator + joined(parts.skip(1), separator);
            assert(parts[0] + separator + joined(parts.skip(1), separator) == parts[0] + tail);
            assert(seq![s[0]] + parts[0] + separator + joined(parts.skip(1), separator)
                == seq![s[0]] + (parts[0] + tail));
        }
        assert(seq![s[0]] + rest == s);
    }
}

/// The pieces of two texts with the separator between them are those of the first and then those
/// of the second, where the first character of the separator does not come in it again.
pub proof fn law_split_at_separator(a: Seq<char>, separator: Seq<char>, b: Seq<char>)
    requires
        separator.len() > 0,
        forall|i: int| 0 < i < separator.len() ==> #[trigger] separator[i] != separator[0],
    ensures
        pieces(a + separator + b, separator) == pieces(a, separator) + pieces(b, separator),
    decreases a.len(),
{
    let s = a + separator + b;
    if a.len() == 0 {
        assert(s.subrange(0, separator.len() as int) == separator);
        assert(s.skip(separator.len() as int) == b);
        assert(a == Seq::<char>::empty());
    } else if stands_at(s, 0, separator) {
        let start = s.subrange(0, separator.len() as int);
        if a.len() < separator.len() {
            assert(start[a.len() as int] == separator[0]);
        }
        assert(a.subrange(0, separator.len() as int) == start);
        let rest = a.skip(separator.len() as int);
        law_split_at_separator(rest, separator, b);
        assert(s.skip(separator.len() as int) == rest + separator + b);
        let none = seq![Seq::<char>::empty()];
        assert(none + (pieces(rest, separator) + pieces(b, separator)) == none + pieces(
            rest,
            separator,
        ) + pieces(b, separator));
    } else {
        if stands_at(a, 0, separator) {
            assert(s.subrange(0, separator.len() as int) == a.subrange(0, separator.len() as int));
        }
        let rest = a.drop_first();
        law_split_at_separator(rest, separator, b);
        lemma_pieces_some(rest, separator);
        assert(s.drop_first() == rest + separator + b);
        let parts = pieces(rest, separator);
        assert((parts + pieces(b, separator)).skip(1) == parts.skip(1) + pieces(b, separator));
    }
}

/// A text that does not hold the separator is its only piece.
pub proof fn lemma_single_piece(s: Seq<char>, separator: Seq<char>)
    requires
        !holds_text(s, separator),
    ensures
        pieces(s, separator) == seq![s],
    decreases s.len(),
{
    if s.len() > 0 && separator.len() > 0 {
        assert(!stands_at(s, 0, separator));
        let rest = s.drop_first();
        assert forall|at: int| !stands_at(rest, at, separator) by {
            if stands_at(rest, at, separator) {
                assert(s.subrange(at + 1, at + 1 + separator.len()) == rest.subrange(
                    at,
                    at + separator.len(),
                ));
                assert(stands_at(s, at + 1, separator));
            }
        }
        lemma_single_piece(rest, separator);
        assert(seq![s[0]] + rest == s);
        assert(seq![rest].skip(1) == Seq::<Seq<char>>::empty());
    }
}

/// Texts that were joined with a character that none of them holds are the pieces at it.
pub proof fn lemma_join_then_split(parts: Seq<Seq<char>>, c: char)
    requires
        parts.len() > 0,
        forall|i: int| 0 <= i < parts.len() ==> free_of(#[trigger] parts[i], c),
    ensures
        pieces(joined(parts, seq![c]), seq![c]) == parts,
    decreases parts.len(),
{
    let separator = seq![c];
    let last = parts.last();
    assert(free_of(parts[parts.len() - 1], c));
    assert forall|at: int| !stands_at(last, at, separator) by {
        if stands_at(last, at, separator) {
            assert(last.subrange(at, at + 1)[0] == last[at]);
        }
    }
    lemma_single_piece(last, separator);
    if parts.len() == 1 {
        assert(parts == seq![last]);
    } else {
        let front = parts.drop_last();
        lemma_join_then_split(front, c);
        law_split_at_separator(joined(front, separator), separator, last);
        assert(front + seq![last] == parts);
    }
}

/// Whether `c` does not occur in `s`.
pub open spec fn free_of(s: Seq<char>, c: char) -> bool {
    forall|i: int| 0 <= i < s.len() ==> #[trigger] s[i] != c
}

/// Whether `s` holds no double quote.
pub open spec fn unquoted(s: Seq<char>) -> bool {
    free_of(s, '"')
}

/// Whether none of the texts holds a double quote.
pub open spec fn all_unquoted(list: Seq<Seq<char>>) -> bool {
    forall|i: int| 0 <= i < list.len() ==> unquoted(#[trigger] list[i])
}

/// A part of a part of a text is a part of that text.
pub proof fn lemma_part_of_part(s: Seq<char>, part: Seq<char>, inner: Seq<char>)
    requires
        holds_text(s, part),
        holds_text(part, inner),
    ensures
        holds_text(s, inner),
{
    let at = choose|at: int| stands_at(s, at, part);
    let within = choose|at: int| stands_at(part, at, inner);
    assert(s.subrange(at + within, at + within + inner.len()) == s.subrange(
        at,
        at + part.len(),
    ).subrange(within, within + inner.len()));
    assert(stands_at(s, at + within, inner));
}

/// What follows the first characters of a text is a part of it.
pub proof fn lemma_skip_is_part(s: Seq<char>, n: int)
    requires
        0 <= n <= s.len(),
    ensures
        holds_text(s, s.skip(n)),
{
    assert(s.subrange(n, n + s.skip(n).len()) == s.skip(n));
    assert(stands_at(s, n, s.skip(n)));
}

/// A text without the white space at its start is a part of it.
pub proof fn lemma_trimmed_start_is_part(s: Seq<char>)
    ensures
        holds_text(s, trimmed_start(s)),
    decreases s.len(),
{
    lemma_skip_is_part(s, 0);
    assert(s.skip(0) == s);
    if s.len() > 0 && white_space(s[0]) {
        lemma_trimmed_start_is_part(s.drop_first());
        lemma_skip_is_part(s, 1);
        assert(s.skip(1) == s.drop_first());
        lemma_part_of_part(s, s.drop_first(), trimmed_start(s.drop_first()));
    }
}

/// A trimmed text is a part of the text.
pub proof fn lemma_trimmed_is_part(s: Seq<char>)
    ensures
        holds_text(s, trimmed(s)),
{
    let rest = trimmed_start(s);
    lemma_trimmed_start_is_part(s);
    lemma_trimmed_end_prefix(rest);
    assert(rest.subrange(0, trimmed(s).len() as int) == trimmed(s));
    assert(stands_at(rest, 0, trimmed(s)));
    lemma_part_of_part(s, rest, trimmed(s));
}

/// A character that does not occur in a text does not occur in a part of it.
pub proof fn lemma_part_free(s: Seq<char>, part: Seq<char>, c: char)
    requires
        holds_text(s, part),
        free_of(s, c),
    ensures
        free_of(part, c),
{
    let at = choose|at: int| stands_at(s, at, part);
    assert forall|i: int| 0 <= i < part.len() implies #[trigger] part[i] != c by {
        assert(s.subrange(at, at + part.len())[i] == s[at + i]);
    }
}

/// Replacing brings no character that neither the text nor the replacement has.
pub proof fn lemma_replaced_free(s: Seq<char>, from: Seq<char>, to: Seq<char>, c: char)
    requires
        free_of(s, c),
        free_of(to, c),
    ensures
        free_of(replaced(s, from, to), c),
    decreases s.len(),
{
    if s.len() == 0 || from.len() == 0 {
    } else if stands_at(s, 0, from) {
        lemma_replaced_free(s.skip(from.len() as int), from, to, c);
    } else {
        lemma_replaced_free(s.drop_first(), from, to, c);
    }
}

/// A character that was replaced by a text without it is gone.
pub proof fn lemma_char_replaced(s: Seq<char>, from: Seq<char>, to: Seq<char>, c: char)
    requires
        from == seq![c],
        free_of(to, c),
    ensures
        free_of(replaced(s, from, to), c),
    decreases s.len(),
{
    if s.len() > 0 {
        if stands_at(s, 0, from) {
            lemma_char_replaced(s.skip(1), from, to, c);
        } else {
            assert(s[0] != c) by {
                if s[0] == c {
                    assert(s.subrange(0, 1) == from);
                }
            }
            lemma_char_replaced(s.drop_first(), from, to, c);
        }
    }
}

/// A character that occurs neither in the parts nor in the separator does not occur in the parts
/// joined.
pub proof fn lemma_joined_free(parts: Seq<Seq<char>>, separator: Seq<char>, c: char)
    requires
        forall|i: int| 0 <= i < parts.len() ==> free_of(#[trigger] parts[i], c),
        free_of(separator, c),
    ensures
        free_of(joined(parts, separator), c),
    decreases parts.len(),
{
    if parts.len() > 1 {
        lemma_joined_free(parts.drop_last(), separator, c);
    }
}

/// To replace a part is to split the text at it and to join the pieces with what takes its place:
/// nothing else of the text is lost or changed.
pub proof fn law_replacing_is_splitting_and_joining(
    s: Seq<char>,
    from: Seq<char>,
    to: Seq<char>,
)
    requires
        from.len() > 0,
    ensures
        replaced(s, from, to) == joined(pieces(s, from), to),
    decreases s.len(),
{
    if s.len() == 0 {
    } else if stands_at(s, 0, from) {
        let rest = s.skip(from.len() as int);
        law_replacing_is_splitting_and_joining(rest, from, to);
        lemma_pieces_some(rest, from);
        lemma_joined_front(Seq::empty(), pieces(rest, from), to);
        assert(Seq::<char>::empty() + to + joined(pieces(rest, from), to) == to + replaced(
            rest,
            from,
            to,
        ));
    } else {
        let rest = s.drop_first();
        let parts = pieces(rest, from);
        law_replacing_is_splitting_and_joining(rest, from, to);
        lemma_pieces_some(rest, from);
        let more = with_head(seq![s[0]], parts);
        if parts.len() == 1 {
            assert(more == seq![seq![s[0]] + parts[0]]);
        } else {
            lemma_joined_front(seq![s[0]] + parts[0], parts.skip(1), to);
            lemma_joined_front(parts[0], parts.skip(1), to);
            assert(seq![parts[0]] + parts.skip(1) == parts);
            let tail = to + joined(parts.skip(1), to);
            assert(parts[0] + to + joined(parts.skip(1), to) == parts[0] + tail);
            assert(seq![s[0]] + parts[0] + to + joined(parts.skip(1), to) == seq![s[0]] + (parts[0]
                + tail));
        }
    }
}

/// The first piece is what the text starts with.
proof fn lemma_first_piece_starts(s: Seq<char>, separator: Seq<char>)
    requires
        separator.len() > 0,
    ensures
        pieces(s, separator).len() > 0,
        stands_at(s, 0, pieces(s, separator)[0]),
    decreases s.len(),
{
    lemma_pieces_some(s, separator);
    if s.len() == 0 {
        assert(s.subrange(0, 0) == s);
    } else if stands_at(s, 0, separator) {
        assert(s.subrange(0, 0) == Seq::<char>::empty());
    } else {
        let rest = s.drop_first();
        lemma_first_piece_starts(rest, separator);
        let first = pieces(rest, separator)[0];
        assert(s.subrange(0, first.len() as int + 1) == seq![s[0]] + rest.subrange(0, first.len() as int));
    }
}

/// No piece holds the separator: the text is split wherever it stands.
pub proof fn law_pieces_hold_no_separator(s: Seq<char>, separator: Seq<char>, i: int)
    requires
        separator.len() > 0,
        0 <= i < pieces(s, separator).len(),
    ensures
        !holds_text(pieces(s, separator)[i], separator),
    decreases s.len(),
{
    if s.len() == 0 {
    } else if stands_at(s, 0, separator) {
        let rest = s.skip(separator.len() as int);
        if i > 0 {
            law_pieces_hold_no_separator(rest, separator, i - 1);
            assert(pieces(s, separator)[i] == pieces(rest, separator)[i - 1]);
        }
    } else {
        let rest = s.drop_first();
        lemma_first_piece_starts(rest, separator);
        law_pieces_hold_no_separator(rest, separator, i);
        if i > 0 {
            assert(pieces(s, separator)[i] == pieces(rest, separator)[i]);
        } else {
            let first = pieces(rest, separator)[0];
            let whole = seq![s[0]] + first;
            assert(pieces(s, separator)[0] == whole);
            assert forall|at: int| !stands_at(whole, at, separator) by {
                if stands_at(whole, at, separator) {
                    if at > 0 {
                        assert(first.subrange(at - 1, at - 1 + separator.len()) == whole.subrange(
                            at,
                            at + separator.len(),
                        ));
                        assert(stands_at(first, at - 1, separator));
                    } else {
                        assert(rest.subrange(0, first.len() as int) == first);
                        assert(s.subrange(0, separator.len() as int) == whole.subrange(
                            0,
                            separator.len() as int,
                        )) by {
                            assert forall|k: int| 0 <= k < separator.len() implies s[k]
                                == whole[k] by {
                                if k > 0 {
                                    assert(rest.subrange(0, first.len() as int)[k - 1] == rest[k
                                        - 1]);
                                }
                            }
                        }
                    }
                }
            }
        }
    }
}

/// Whether all characters of `s` are white space.
pub open spec fn all_white(s: Seq<char>) -> bool {
    forall|i: int| 0 <= i < s.len() ==> white_space(#[trigger] s[i])
}

proof fn lemma_trimmed_start_behind(a: Seq<char>, s: Seq<char>)
    requires
        all_white(a),
        s.len() > 0 ==> !white_space(s[0]),
    ensures
        trimmed_start(a + s) == s,
    decreases a.len(),
{
    if a.len() == 0 {
        assert(a + s == s);
    } else {
        assert((a + s)[0] == a[0]);
        assert((a + s).drop_first() == a.drop_first() + s);
        lemma_trimmed_start_behind(a.drop_first(), s);
    }
}

proof fn lemma_trimmed_end_before(s: Seq<char>, b: Seq<char>)
    requires
        all_white(b),
        s.len() > 0 ==> !white_space(s.last()),
    ensures
        trimmed_end(s + b) == s,
    decreases b.len(),
{
    if b.len() == 0 {
        assert(s + b == s);
    } else {
        assert((s + b).last() == b[b.len() - 1]);
        assert((s + b).drop_last() == s + b.drop_last());
        lemma_trimmed_end_before(s, b.drop_last());
    }
}

/// White space around a text that neither starts nor ends with any is all that trimming takes
/// away.
pub proof fn law_trimming_takes_white_space_around(a: Seq<char>, s: Seq<char>, b: Seq<char>)
    requires
        all_white(a),
        all_white(b),
        s.len() > 0,
        !white_space(s[0]),
        !white_space(s.last()),
    ensures
        trimmed(a + s + b) == s,
        trimmed_start(a + s + b) == s + b,
        trimmed(a + b).len() == 0,
{
    assert(a + s + b == a + (s + b));
    lemma_trimmed_start_behind(a, s + b);
    lemma_trimmed_end_before(s, b);
    let none = Seq::<char>::empty();
    assert(all_white(a + b)) by {
        assert forall|i: int| 0 <= i < (a + b).len() implies white_space(#[trigger] (a + b)[i]) by {
            if i >= a.len() {
                assert((a + b)[i] == b[i - a.len()]);
            }
        }
    }
    lemma_trimmed_start_behind(a + b, none);
    assert(a + b + none == a + b);
}

/// A text that holds a phrase holds a word of it.
pub proof fn lemma_word_within(s: Seq<char>, phrase: Seq<char>, word: Seq<char>, at: int)
    requires
        stands_at(phrase, at, word),
    ensures
        holds_text(s, phrase) ==> holds_text(s, word),
{
    if holds_text(s, phrase) {
        assert(holds_text(phrase, word));
        lemma_part_of_part(s, phrase, word);
    }
}

/// The words of a text are what stands between its white space: a first word, the white space
/// behind it left out, and the words of the rest.
pub proof fn law_words_stand_between_white_space(
    gap: Seq<char>,
    word: Seq<char>,
    rest: Seq<char>,
)
    requires
        all_white(gap),
        word.len() > 0,
        forall|i: int| 0 <= i < word.len() ==> !white_space(#[trigger] word[i]),
        rest.len() > 0 ==> white_space(rest[0]),
    ensures
        words(gap + word + rest) == seq![word] + words(rest),
        words(gap).len() == 0,
    decreases gap.len(),
{
    if gap.len() == 0 {
        let s = gap + word + rest;
        assert(s == word + rest);
        lemma_first_word_of(word, rest);
        assert(s[0] == word[0]);
        assert(s.skip(word.len() as int) == rest);
    } else {
        let s = gap + word + rest;
        assert(s[0] == gap[0]);
        assert(s.drop_first() == gap.drop_first() + word + rest);
        law_words_stand_between_white_space(gap.drop_first(), word, rest);
    }
}

proof fn lemma_first_word_of(word: Seq<char>, rest: Seq<char>)
    requires
        forall|i: int| 0 <= i < word.len() ==> !white_space(#[trigger] word[i]),
        rest.len() > 0 ==> white_space(rest[0]),
    ensures
        first_word(word + rest) == word,
    decreases word.len(),
{
    if word.len() == 0 {
        assert(word + rest == rest);
        assert(first_word(rest) == Seq::<char>::empty());
    } else {
        assert((word + rest)[0] == word[0]);
        assert((word + rest).drop_first() == word.drop_first() + rest);
        lemma_first_word_of(word.drop_first(), rest);
        assert(seq![word[0]] + word.drop_first() == word);
    }
}

/// Joined texts are the first, the separator and the other texts joined; a single text is itself
/// and none are nothing.
pub proof fn law_joined_texts(first: Seq<char>, rest: Seq<Seq<char>>, separator: Seq<char>)
    ensures
        joined(Seq::empty(), separator).len() == 0,
        joined(seq![first], separator) == first,
        rest.len() > 0 ==> joined(seq![first] + rest, separator) == first + separator + joined(
            rest,
            separator,
        ),
{
    if rest.len() > 0 {
        lemma_joined_front(first, rest, separator);
    }
}

/// A text holds a part where it stands anywhere in it, whatever is around it.
pub proof fn law_parts_are_held_anywhere(a: Seq<char>, part: Seq<char>, b: Seq<char>)
    ensures
        holds_text(a + part + b, part),
        stands_at(part + b, 0, part),
        holds_any(a + part + b, seq![part]),
{
    let s = a + part + b;
    assert(s.subrange(a.len() as int, a.len() as int + part.len()) == part);
    assert(stands_at(s, a.len() as int, part));
    assert((part + b).subrange(0, part.len() as int) == part);
    assert(holds_text(s, seq![part][0]));
}

} // verus!
