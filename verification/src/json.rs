//! Objects with two members as JSON text.

use crate::text::{joined, lemma_joined_front};
use vstd::prelude::*;

verus! {

/// The hexadecimal digit for a number below 16.
pub open spec fn hex_digit(n: int) -> char {
    if n < 10 {
        ('0' as int + n) as char
    } else {
        ('a' as int + n - 10) as char
    }
}

/// How a character is written in a JSON string.
pub open spec fn escaped_char(c: char) -> Seq<char> {
    if c == '"' {
        seq!['\\', '"']
    } else if c == '\\' {
        seq!['\\', '\\']
    } else if c == '\u{8}' {
        seq!['\\', 'b']
    } else if c == '\t' {
        seq!['\\', 't']
    } else if c == '\n' {
        seq!['\\', 'n']
    } else if c == '\u{c}' {
        seq!['\\', 'f']
    } else if c == '\r' {
        seq!['\\', 'r']
    } else if (c as int) < 0x20 {
        seq!['\\', 'u', '0', '0', hex_digit(c as int / 16), hex_digit(c as int % 16)]
    } else {
        seq![c]
    }
}

/// How the characters of a text are written in a JSON string.
pub open spec fn escaped(s: Seq<char>) -> Seq<char>
    decreases s.len(),
{
    if s.len() == 0 {
        Seq::empty()
    } else {
        escaped_char(s[0]) + escaped(s.drop_first())
    }
}

/// The JSON string for a text.
pub open spec fn json_string(s: Seq<char>) -> Seq<char> {
    seq!['"'] + escaped(s) + seq!['"']
}

/// A member of an object whose value is a text.
pub open spec fn json_member(member: (Seq<char>, Seq<char>)) -> Seq<char> {
    json_string(member.0) + ": "@ + json_string(member.1)
}

/// An object with two members, each on a line of its own.
pub open spec fn json_object(members: Seq<(Seq<char>, Seq<char>)>) -> Seq<char> {
    "{\n    "@ + json_member(members[0]) + ",\n    "@ + json_member(members[1]) + "\n  }"@
}

/// The objects one behind the other.
pub open spec fn json_objects(objects: Seq<Seq<(Seq<char>, Seq<char>)>>) -> Seq<char> {
    joined(objects.map_values(|o: Seq<(Seq<char>, Seq<char>)>| json_object(o)), ",\n  "@)
}

/// The JSON text, with line breaks and indentation, of a list of objects with two members.
pub open spec fn pretty_json(objects: Seq<Seq<(Seq<char>, Seq<char>)>>) -> Seq<char> {
    if objects.len() == 0 {
        "[]"@
    } else {
        "[\n  "@ + json_objects(objects) + "\n]"@
    }
}

/// Whether an object has two members, whose names start with characters in ascending order.
pub open spec fn two_in_order(members: Seq<(Seq<char>, Seq<char>)>) -> bool {
    &&& members.len() == 2
    &&& members[0].0.len() > 0
    &&& members[1].0.len() > 0
    &&& members[0].0[0] < members[1].0[0]
}

/// The contents of the members of an object.
pub open spec fn member_texts(members: Seq<(String, String)>) -> Seq<(Seq<char>, Seq<char>)> {
    Seq::new(members.len(), |i: int| (members[i].0@, members[i].1@))
}

/// The contents of the members of each of a list of objects.
pub open spec fn object_texts(objects: Seq<Vec<(String, String)>>) -> Seq<
    Seq<(Seq<char>, Seq<char>)>,
> {
    Seq::new(objects.len(), |i: int| member_texts(objects[i]@))
}

/// The JSON text of a list of objects whose members are texts:
/// `serde_json::to_string_pretty` on the same values. Each object and each member stands on a
/// line of its own, indented by two spaces for each level, the members in the order of their
/// names. In strings, quotes, backslashes and the control characters below the space are escaped.
#[verifier::external_body]
pub(crate) fn to_pretty_json(objects: &Vec<Vec<(String, String)>>) -> (r: String)
    requires
        forall|i: int| 0 <= i < objects@.len() ==> two_in_order(#[trigger] object_texts(objects@)[i]),
    ensures
        r@ == pretty_json(object_texts(objects@)),
{
    let values: Vec<serde_json::Value> = objects.iter().map(
        |members| serde_json::Value::Object(members.iter().map(
            |(key, text)| (key.clone(), serde_json::Value::String(text.clone())),
        ).collect()),
    ).collect();
    serde_json::to_string_pretty(&values).unwrap()
}

/// What follows the same text is the same.
proof fn lemma_same_behind(start: Seq<char>, a: Seq<char>, b: Seq<char>)
    requires
        start + a == start + b,
    ensures
        a == b,
{
    assert((start + a).skip(start.len() as int) == a);
    assert((start + b).skip(start.len() as int) == b);
}

proof fn lemma_escapes_tell_apart(c: char, d: char, a: Seq<char>, b: Seq<char>)
    requires
        escaped_char(c) + a == escaped_char(d) + b,
    ensures
        c == d,
        a == b,
{
    let left = escaped_char(c) + a;
    let right = escaped_char(d) + b;
    assert(left[0] == escaped_char(c)[0]);
    assert(right[0] == escaped_char(d)[0]);
    if escaped_char(c).len() > 1 && escaped_char(d).len() > 1 {
        assert(left[1] == escaped_char(c)[1]);
        assert(right[1] == escaped_char(d)[1]);
        if escaped_char(c).len() == 6 && escaped_char(d).len() == 6 {
            assert(left[4] == escaped_char(c)[4]);
            assert(right[4] == escaped_char(d)[4]);
            assert(left[5] == escaped_char(c)[5]);
            assert(right[5] == escaped_char(d)[5]);
        }
    }
    assert(c == d);
    lemma_same_behind(escaped_char(c), a, b);
}

/// Two texts whose JSON strings start the same text, up to the closing quote, are the same.
pub proof fn lemma_strings_tell_apart(s: Seq<char>, t: Seq<char>, a: Seq<char>, b: Seq<char>)
    requires
        escaped(s) + seq!['"'] + a == escaped(t) + seq!['"'] + b,
    ensures
        s == t,
        a == b,
    decreases s.len(),
{
    let quote = seq!['"'];
    let left = escaped(s) + quote + a;
    let right = escaped(t) + quote + b;
    if s.len() == 0 {
        assert(left[0] == '"');
        if t.len() > 0 {
            assert(right[0] == escaped_char(t[0])[0]);
        }
        assert(s == t);
        lemma_same_behind(escaped(s) + quote, a, b);
    } else if t.len() == 0 {
        assert(right[0] == '"');
        assert(left[0] == escaped_char(s[0])[0]);
    } else {
        let rest_s = s.drop_first();
        let rest_t = t.drop_first();
        assert(left == escaped_char(s[0]) + (escaped(rest_s) + quote + a));
        assert(right == escaped_char(t[0]) + (escaped(rest_t) + quote + b));
        lemma_escapes_tell_apart(
            s[0],
            t[0],
            escaped(rest_s) + quote + a,
            escaped(rest_t) + quote + b,
        );
        lemma_strings_tell_apart(rest_s, rest_t, a, b);
        assert(seq![s[0]] + rest_s == s);
        assert(seq![t[0]] + rest_t == t);
    }
}

proof fn lemma_members_tell_apart(
    m: (Seq<char>, Seq<char>),
    n: (Seq<char>, Seq<char>),
    a: Seq<char>,
    b: Seq<char>,
)
    requires
        json_member(m) + a == json_member(n) + b,
    ensures
        m == n,
        a == b,
{
    let quote = seq!['"'];
    let rest_m = ": "@ + json_string(m.1) + a;
    let rest_n = ": "@ + json_string(n.1) + b;
    assert(json_member(m) + a == quote + (escaped(m.0) + quote + rest_m));
    assert(json_member(n) + b == quote + (escaped(n.0) + quote + rest_n));
    lemma_same_behind(quote, escaped(m.0) + quote + rest_m, escaped(n.0) + quote + rest_n);
    lemma_strings_tell_apart(m.0, n.0, rest_m, rest_n);
    let start = ": "@ + quote;
    assert(rest_m == start + (escaped(m.1) + quote + a));
    assert(rest_n == start + (escaped(n.1) + quote + b));
    lemma_same_behind(start, escaped(m.1) + quote + a, escaped(n.1) + quote + b);
    lemma_strings_tell_apart(m.1, n.1, a, b);
}

proof fn lemma_objects_tell_apart(
    o: Seq<(Seq<char>, Seq<char>)>,
    p: Seq<(Seq<char>, Seq<char>)>,
    a: Seq<char>,
    b: Seq<char>,
)
    requires
        o.len() == 2,
        p.len() == 2,
        json_object(o) + a == json_object(p) + b,
    ensures
        o == p,
        a == b,
{
    let open = "{\n    "@;
    let between = ",\n    "@;
    let close = "\n  }"@;
    let tail_o = json_member(o[1]) + (close + a);
    let tail_p = json_member(p[1]) + (close + b);
    assert(json_object(o) + a == open + (json_member(o[0]) + (between + tail_o)));
    assert(json_object(p) + b == open + (json_member(p[0]) + (between + tail_p)));
    lemma_same_behind(
        open,
        json_member(o[0]) + (between + tail_o),
        json_member(p[0]) + (between + tail_p),
    );
    lemma_members_tell_apart(o[0], p[0], between + tail_o, between + tail_p);
    lemma_same_behind(between, tail_o, tail_p);
    lemma_members_tell_apart(o[1], p[1], close + a, close + b);
    lemma_same_behind(close, a, b);
    assert(o =~= p);
}

/// The objects behind the first, with what stands in front of them.
spec fn further_objects(objects: Seq<Seq<(Seq<char>, Seq<char>)>>) -> Seq<char> {
    if objects.len() == 1 {
        Seq::empty()
    } else {
        ",\n  "@ + json_objects(objects.drop_first())
    }
}

proof fn lemma_first_object(objects: Seq<Seq<(Seq<char>, Seq<char>)>>)
    requires
        objects.len() > 0,
    ensures
        json_objects(objects) == json_object(objects[0]) + further_objects(objects),
{
    let f = |o: Seq<(Seq<char>, Seq<char>)>| json_object(o);
    let all = objects.map_values(f);
    let rest = objects.drop_first().map_values(f);
    assert(all == seq![json_object(objects[0])] + rest);
    if objects.len() == 1 {
        assert(json_object(objects[0]) + Seq::<char>::empty() == json_object(objects[0]));
    } else {
        lemma_joined_front(json_object(objects[0]), rest, ",\n  "@);
        assert(json_object(objects[0]) + ",\n  "@ + joined(rest, ",\n  "@) == json_object(objects[0])
            + (",\n  "@ + joined(rest, ",\n  "@)));
    }
}

proof fn lemma_lists_tell_apart(
    a: Seq<Seq<(Seq<char>, Seq<char>)>>,
    b: Seq<Seq<(Seq<char>, Seq<char>)>>,
)
    requires
        a.len() > 0,
        b.len() > 0,
        forall|i: int| 0 <= i < a.len() ==> (#[trigger] a[i]).len() == 2,
        forall|i: int| 0 <= i < b.len() ==> (#[trigger] b[i]).len() == 2,
        json_objects(a) + "\n]"@ == json_objects(b) + "\n]"@,
    ensures
        a == b,
    decreases a.len(),
{
    reveal_strlit("\n]");
    reveal_strlit(",\n  ");
    let end = "\n]"@;
    let comma = ",\n  "@;
    lemma_first_object(a);
    lemma_first_object(b);
    let more_a = further_objects(a) + end;
    let more_b = further_objects(b) + end;
    assert(json_objects(a) + end == json_object(a[0]) + more_a);
    assert(json_objects(b) + end == json_object(b[0]) + more_b);
    lemma_objects_tell_apart(a[0], b[0], more_a, more_b);
    assert(a.len() > 1 ==> more_a[0] == ',');
    assert(a.len() == 1 ==> more_a[0] == '\n');
    assert(b.len() > 1 ==> more_b[0] == ',');
    assert(b.len() == 1 ==> more_b[0] == '\n');
    if a.len() > 1 {
        let rest_a = a.drop_first();
        let rest_b = b.drop_first();
        assert(more_a == comma + (json_objects(rest_a) + end));
        assert(more_b == comma + (json_objects(rest_b) + end));
        lemma_same_behind(comma, json_objects(rest_a) + end, json_objects(rest_b) + end);
        assert forall|i: int| 0 <= i < rest_a.len() implies (#[trigger] rest_a[i]).len() == 2 by {
            assert(rest_a[i] == a[i + 1]);
        }
        assert forall|i: int| 0 <= i < rest_b.len() implies (#[trigger] rest_b[i]).len() == 2 by {
            assert(rest_b[i] == b[i + 1]);
        }
        lemma_lists_tell_apart(rest_a, rest_b);
        assert(a == seq![a[0]] + rest_a);
        assert(b == seq![b[0]] + rest_b);
    }
    assert(a =~= b);
}

/// The JSON text tells lists of objects with two members apart: what was written can be read back.
pub proof fn law_json_tells_apart(
    a: Seq<Seq<(Seq<char>, Seq<char>)>>,
    b: Seq<Seq<(Seq<char>, Seq<char>)>>,
)
    requires
        forall|i: int| 0 <= i < a.len() ==> (#[trigger] a[i]).len() == 2,
        forall|i: int| 0 <= i < b.len() ==> (#[trigger] b[i]).len() == 2,
        pretty_json(a) == pretty_json(b),
    ensures
        a == b,
{
    reveal_strlit("[]");
    reveal_strlit("[\n  ");
    let start = "[\n  "@;
    if a.len() > 0 {
        assert(pretty_json(a) == start + (json_objects(a) + "\n]"@));
        assert(pretty_json(a)[1] == '\n');
    }
    if b.len() > 0 {
        assert(pretty_json(b) == start + (json_objects(b) + "\n]"@));
        assert(pretty_json(b)[1] == '\n');
    }
    if a.len() > 0 && b.len() > 0 {
        lemma_same_behind(start, json_objects(a) + "\n]"@, json_objects(b) + "\n]"@);
        lemma_lists_tell_apart(a, b);
    }
    assert(a =~= b);
}

/// A text without quotes, backslashes and control characters is written as it is.
pub proof fn lemma_plain_is_not_escaped(s: Seq<char>)
    requires
        forall|i: int|
            0 <= i < s.len() ==> #[trigger] s[i] != '"' && s[i] != '\\' && s[i] as int >= 0x20,
    ensures
        escaped(s) == s,
    decreases s.len(),
{
    if s.len() > 0 {
        lemma_plain_is_not_escaped(s.drop_first());
        assert(seq![s[0]] + s.drop_first() == s);
    }
}

} // verus!
