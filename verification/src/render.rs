//! The report as a self-contained, offline HTML page.

use crate::template::{PLACEHOLDER, TEMPLATE};
use crate::text::{chars_of, stands_at};
use vstd::prelude::*;

verus! {

/// How a character of the data is written in the page: what could end a script or begin markup
/// as the escape that JSON has for it, and everything else as it is.
pub open spec fn escaped_char(ch: char) -> Seq<char> {
    if ch == '&' {
        "\\u0026"@
    } else if ch == '<' {
        "\\u003c"@
    } else if ch == '>' {
        "\\u003e"@
    } else {
        seq![ch]
    }
}

/// The data as it is written in the page.
pub open spec fn escaped(json: Seq<char>) -> Seq<char>
    decreases json.len(),
{
    if json.len() == 0 {
        Seq::<char>::empty()
    } else {
        escaped(json.drop_last()) + escaped_char(json.last())
    }
}

/// `text` with every `pattern` replaced, found from left to right.
pub open spec fn replaced(text: Seq<char>, pattern: Seq<char>, replacement: Seq<char>) -> Seq<char>
    recommends
        pattern.len() > 0,
    decreases text.len(),
{
    if text.len() == 0 || pattern.len() == 0 {
        text
    } else if pattern.is_prefix_of(text) {
        replacement + replaced(text.skip(pattern.len() as int), pattern, replacement)
    } else {
        seq![text[0]] + replaced(text.drop_first(), pattern, replacement)
    }
}

/// The page for this data.
pub open spec fn page(json: Seq<char>) -> Seq<char> {
    replaced(TEMPLATE@, PLACEHOLDER@, escaped(json))
}

/// The data as it is written in the page.
pub fn escape_json(json: &str) -> (text: String)
    ensures
        text@ == escaped(json@),
{
    let mut text = String::new();
    for ch in it: json.chars()
        invariant
            it.seq() == json@,
            text@ == escaped(json@.take(it.index())),
    {
        let ghost before = text@;
        proof {
            assert(json@.take(it.index() + 1).drop_last() =~= json@.take(it.index()));
        }
        if ch == '&' {
            text.append("\\u0026");
        } else if ch == '<' {
            text.append("\\u003c");
        } else if ch == '>' {
            text.append("\\u003e");
        } else {
            text.push(ch);
            assert(text@ =~= before + seq![ch]);
        }
    }
    assert(json@.take(json@.len() as int) =~= json@);
    text
}

/// `text` with every `pattern` replaced, found from left to right.
pub fn replace_all(text: &str, pattern: &str, replacement: &str) -> (result: String)
    requires
        pattern@.len() > 0,
    ensures
        result@ == replaced(text@, pattern@, replacement@),
{
    let chars = chars_of(text);
    let searched = chars_of(pattern);
    let mut result = String::new();
    let mut at: usize = 0;
    assert(chars@.skip(0) =~= text@);
    assert(Seq::<char>::empty() + replaced(text@, pattern@, replacement@) =~= replaced(
        text@,
        pattern@,
        replacement@,
    ));
    while at < chars.len()
        invariant
            pattern@.len() > 0,
            chars@ == text@,
            searched@ == pattern@,
            at <= chars.len(),
            result@ + replaced(chars@.skip(at as int), pattern@, replacement@) == replaced(
                text@,
                pattern@,
                replacement@,
            ),
        decreases chars.len() - at,
    {
        let ghost rest = chars@.skip(at as int);
        let ghost before = result@;
        let found = stands_at(chars.as_slice(), searched.as_slice(), at);
        assert(found == pattern@.is_prefix_of(rest)) by {
            if at + pattern@.len() <= chars.len() {
                assert(rest.subrange(0, pattern@.len() as int) =~= chars@.subrange(
                    at as int,
                    at + pattern@.len(),
                ));
            }
        }
        if found {
            result.append(replacement);
            proof {
                assert(rest.skip(pattern@.len() as int) =~= chars@.skip(at + pattern@.len()));
                let tail = replaced(chars@.skip(at + pattern@.len()), pattern@, replacement@);
                assert(before + (replacement@ + tail) =~= before + replacement@ + tail);
            }
            at = at + searched.len();
        } else {
            result.push(chars[at]);
            proof {
                assert(rest.drop_first() =~= chars@.skip(at + 1));
                let tail = replaced(chars@.skip(at + 1), pattern@, replacement@);
                assert(before + (seq![rest[0]] + tail) =~= result@ + tail);
            }
            at = at + 1;
        }
    }
    assert(chars@.skip(at as int) =~= Seq::<char>::empty());
    assert(result@ + Seq::<char>::empty() =~= result@);
    result
}

/// Renders an analysis, given as JSON, as a self-contained, offline HTML report.
pub fn render_html(json: &str) -> (html: String)
    ensures
        html@ == page(json@),
{
    proof {
        reveal_strlit("__rozy_REPORT_JSON__");
    }
    replace_all(TEMPLATE, PLACEHOLDER, escape_json(json).as_str())
}

/// How often a character stands in a text.
pub open spec fn count(text: Seq<char>, ch: char) -> nat
    decreases text.len(),
{
    if text.len() == 0 {
        0
    } else {
        count(text.drop_first(), ch) + if text[0] == ch {
            1nat
        } else {
            0nat
        }
    }
}

proof fn lemma_count_add(left: Seq<char>, right: Seq<char>, ch: char)
    ensures
        count(left + right, ch) == count(left, ch) + count(right, ch),
    decreases left.len(),
{
    if left.len() == 0 {
        assert(left + right =~= right);
    } else {
        assert((left + right).drop_first() =~= left.drop_first() + right);
        lemma_count_add(left.drop_first(), right, ch);
    }
}

/// Whether a character could end a script or begin markup.
pub open spec fn is_markup(ch: char) -> bool {
    ch == '&' || ch == '<' || ch == '>'
}

/// Data as it is written in the page holds nothing that could end a script or begin markup.
pub proof fn law_escaped_data_has_no_markup(json: Seq<char>)
    ensures
        forall|i: int| 0 <= i < escaped(json).len() ==> !is_markup(#[trigger] escaped(json)[i]),
    decreases json.len(),
{
    reveal_strlit("\\u0026");
    reveal_strlit("\\u003c");
    reveal_strlit("\\u003e");
    if json.len() > 0 {
        law_escaped_data_has_no_markup(json.drop_last());
        let front = escaped(json.drop_last());
        assert forall|i: int| 0 <= i < escaped(json).len() implies !is_markup(
            #[trigger] escaped(json)[i],
        ) by {
            if i < front.len() {
                assert(escaped(json)[i] == front[i]);
            } else {
                assert(escaped(json)[i] == escaped_char(json.last())[i - front.len()]);
            }
        }
    }
}

proof fn lemma_count_of_none(text: Seq<char>, ch: char)
    requires
        forall|i: int| 0 <= i < text.len() ==> #[trigger] text[i] != ch,
    ensures
        count(text, ch) == 0,
    decreases text.len(),
{
    if text.len() > 0 {
        assert forall|i: int| 0 <= i < text.drop_first().len() implies #[trigger] text.drop_first()[i]
            != ch by {
            assert(text.drop_first()[i] == text[i + 1]);
        }
        lemma_count_of_none(text.drop_first(), ch);
    }
}

proof fn lemma_count_of_replaced(
    text: Seq<char>,
    pattern: Seq<char>,
    replacement: Seq<char>,
    ch: char,
)
    requires
        count(pattern, ch) == 0,
        count(replacement, ch) == 0,
    ensures
        count(replaced(text, pattern, replacement), ch) == count(text, ch),
    decreases text.len(),
{
    if text.len() > 0 && pattern.len() > 0 {
        if pattern.is_prefix_of(text) {
            let rest = text.skip(pattern.len() as int);
            lemma_count_of_replaced(rest, pattern, replacement, ch);
            lemma_count_add(replacement, replaced(rest, pattern, replacement), ch);
            lemma_count_add(pattern, rest, ch);
            assert(text =~= pattern + rest);
        } else {
            let rest = text.drop_first();
            lemma_count_of_replaced(rest, pattern, replacement, ch);
            lemma_count_add(seq![text[0]], replaced(rest, pattern, replacement), ch);
            lemma_count_add(seq![text[0]], rest, ch);
            assert(text =~= seq![text[0]] + rest);
        }
    }
}

/// All markup of a page is the template's: whatever the data holds, the page has as many of each
/// markup character as the template. In particular the data cannot end the script it stands in.
pub proof fn law_data_brings_no_markup(json: Seq<char>, ch: char)
    requires
        is_markup(ch),
    ensures
        count(page(json), ch) == count(TEMPLATE@, ch),
{
    reveal_strlit("__rozy_REPORT_JSON__");
    law_escaped_data_has_no_markup(json);
    lemma_count_of_none(escaped(json), ch);
    lemma_count_of_none(PLACEHOLDER@, ch);
    lemma_count_of_replaced(TEMPLATE@, PLACEHOLDER@, escaped(json), ch);
}

/// What a JSON text says, sign by sign.
pub enum JsonSign {
    /// A quote that begins or ends a string.
    Quote,
    /// A character outside of strings, by its code.
    Outside(int),
    /// A character of a string, by its code.
    Inside(int),
    /// A backslash in a string that no escape of JSON begins with.
    Invalid,
}

/// The value of a hexadecimal digit.
pub open spec fn hex_digit(ch: char) -> Option<int> {
    if '0' <= ch && ch <= '9' {
        Some(ch as int - 48)
    } else if 'a' <= ch && ch <= 'f' {
        Some(ch as int - 87)
    } else if 'A' <= ch && ch <= 'F' {
        Some(ch as int - 55)
    } else {
        None
    }
}

/// The code that four hexadecimal digits at the front of a text stand for.
pub open spec fn hex_code(text: Seq<char>) -> Option<int> {
    if text.len() < 4 {
        None
    } else {
        match (hex_digit(text[0]), hex_digit(text[1]), hex_digit(text[2]), hex_digit(text[3])) {
            (Some(a), Some(b), Some(c), Some(d)) => Some(((a * 16 + b) * 16 + c) * 16 + d),
            _ => None,
        }
    }
}

/// The code of the character that a short escape stands for.
pub open spec fn short_escape(ch: char) -> Option<int> {
    if ch == '"' || ch == '\\' || ch == '/' {
        Some(ch as int)
    } else if ch == 'b' {
        Some(8)
    } else if ch == 'f' {
        Some(12)
    } else if ch == 'n' {
        Some(10)
    } else if ch == 'r' {
        Some(13)
    } else if ch == 't' {
        Some(9)
    } else {
        None
    }
}

/// What a JSON text says from a place on that lies in a string or not.
pub open spec fn signs(text: Seq<char>, in_string: bool) -> Seq<JsonSign>
    decreases text.len(),
{
    if text.len() == 0 {
        Seq::<JsonSign>::empty()
    } else if text[0] == '"' {
        seq![JsonSign::Quote] + signs(text.drop_first(), !in_string)
    } else if in_string {
        if text[0] != '\\' {
            seq![JsonSign::Inside(text[0] as int)] + signs(text.drop_first(), true)
        } else if text.len() >= 2 && text[1] == 'u' && hex_code(text.skip(2)) is Some {
            seq![JsonSign::Inside(hex_code(text.skip(2)).unwrap())] + signs(text.skip(6), true)
        } else if text.len() >= 2 && short_escape(text[1]) is Some {
            seq![JsonSign::Inside(short_escape(text[1]).unwrap())] + signs(text.skip(2), true)
        } else {
            seq![JsonSign::Invalid] + signs(text.drop_first(), true)
        }
    } else {
        seq![JsonSign::Outside(text[0] as int)] + signs(text.drop_first(), false)
    }
}

/// Whether a text has no markup outside of strings and no escape that JSON does not have. All JSON
/// is like that.
pub open spec fn is_escapable(json: Seq<char>, in_string: bool) -> bool {
    forall|i: int|
        0 <= i < signs(json, in_string).len() ==> match #[trigger] signs(json, in_string)[i] {
            JsonSign::Outside(code) => !is_markup(code as char),
            JsonSign::Invalid => false,
            _ => true,
        }
}

/// Escaping goes from character to character.
pub proof fn lemma_escaped_add(left: Seq<char>, right: Seq<char>)
    ensures
        escaped(left + right) == escaped(left) + escaped(right),
    decreases right.len(),
{
    if right.len() == 0 {
        assert(left + right =~= left);
        assert(escaped(left) + escaped(right) =~= escaped(left));
    } else {
        lemma_escaped_add(left, right.drop_last());
        assert((left + right).drop_last() =~= left + right.drop_last());
        assert(escaped(left) + (escaped(right.drop_last()) + escaped_char(right.last()))
            =~= escaped(left) + escaped(right.drop_last()) + escaped_char(right.last()));
    }
}

/// Characters that are no markup are written as they are.
proof fn lemma_escaped_plain(text: Seq<char>)
    requires
        forall|i: int| 0 <= i < text.len() ==> !is_markup(#[trigger] text[i]),
    ensures
        escaped(text) == text,
    decreases text.len(),
{
    if text.len() > 0 {
        let front = text.drop_last();
        assert forall|i: int| 0 <= i < front.len() implies !is_markup(#[trigger] front[i]) by {
            assert(front[i] == text[i]);
        }
        lemma_escaped_plain(front);
        assert(!is_markup(text[text.len() - 1]));
        assert(escaped(text) =~= text);
    }
}

/// What follows a sign is escapable where the whole is.
proof fn lemma_rest_is_escapable(
    json: Seq<char>,
    in_string: bool,
    rest: Seq<char>,
    rest_in_string: bool,
)
    requires
        is_escapable(json, in_string),
        signs(json, in_string).len() > 0,
        signs(json, in_string).drop_first() == signs(rest, rest_in_string),
    ensures
        is_escapable(rest, rest_in_string),
{
    assert forall|i: int| 0 <= i < signs(rest, rest_in_string).len() implies match #[trigger] signs(
        rest,
        rest_in_string,
    )[i] {
        JsonSign::Outside(code) => !is_markup(code as char),
        JsonSign::Invalid => false,
        _ => true,
    } by {
        assert(signs(rest, rest_in_string)[i] == signs(json, in_string)[i + 1]);
    }
}

/// Characters at the front that are no markup say the same when what follows them is escaped.
proof fn lemma_plain_front(json: Seq<char>, in_string: bool, length: int, rest_in_string: bool)
    requires
        is_escapable(json, in_string),
        0 < length <= json.len(),
        length == 1 || length == 2 || length == 6,
        in_string && json[0] == '\\' ==> length > 1,
        length > 1 ==> in_string && json[0] == '\\' && rest_in_string,
        length == 2 ==> json[1] != 'u' && short_escape(json[1]) is Some,
        length == 6 ==> json[1] == 'u' && hex_code(json.skip(2)) is Some,
        length == 1 ==> !is_markup(json[0]) && rest_in_string == (if json[0] == '"' {
            !in_string
        } else {
            in_string
        }),
        signs(escaped(json.skip(length)), rest_in_string) == signs(
            json.skip(length),
            rest_in_string,
        ),
    ensures
        signs(escaped(json), in_string) == signs(json, in_string),
{
    let front = json.take(length);
    let rest = json.skip(length);
    let text = escaped(json);
    assert(json =~= front + rest);
    lemma_escaped_add(front, rest);
    assert forall|i: int| 0 <= i < front.len() implies !is_markup(#[trigger] front[i]) by {
        if i == 0 {
            assert(front[i] == json[0]);
        } else if length == 2 {
            assert(front[i] == json[1]);
        } else if i == 1 {
            assert(front[i] == json[1]);
        } else {
            assert(front[i] == json.skip(2)[i - 2]);
        }
    }
    lemma_escaped_plain(front);
    assert(text == front + escaped(rest));
    assert(text[0] == json[0]);
    assert(text.skip(length) =~= escaped(rest));
    if length == 1 {
        assert(text.drop_first() =~= escaped(rest));
        assert(json.drop_first() =~= rest);
    } else {
        assert(text[1] == front[1] && front[1] == json[1]);
        if length == 6 {
            assert(text.skip(2)[0] == front[2] && front[2] == json.skip(2)[0]);
            assert(text.skip(2)[1] == front[3] && front[3] == json.skip(2)[1]);
            assert(text.skip(2)[2] == front[4] && front[4] == json.skip(2)[2]);
            assert(text.skip(2)[3] == front[5] && front[5] == json.skip(2)[3]);
        }
    }
}

/// Markup in a string says the same when it is escaped.
proof fn lemma_markup_front(json: Seq<char>)
    requires
        json.len() > 0,
        is_markup(json[0]),
        signs(escaped(json.drop_first()), true) == signs(json.drop_first(), true),
    ensures
        signs(escaped(json), true) == signs(json, true),
{
    reveal_strlit("\\u0026");
    reveal_strlit("\\u003c");
    reveal_strlit("\\u003e");
    let front = seq![json[0]];
    let rest = json.drop_first();
    let written = escaped_char(json[0]);
    let text = escaped(json);
    assert(json =~= front + rest);
    lemma_escaped_add(front, rest);
    assert(front.drop_last() =~= Seq::<char>::empty());
    assert(escaped(front.drop_last()) =~= Seq::<char>::empty());
    assert(escaped(front) =~= written);
    assert(text == written + escaped(rest));
    assert(written.len() == 6);
    assert(text.skip(6) =~= escaped(rest));
    assert(text[0] == '\\' && text[1] == 'u');
    assert(text.skip(2)[0] == '0' && text.skip(2)[1] == '0');
    assert(text.skip(2)[2] == written[4] && text.skip(2)[3] == written[5]);
    assert(hex_code(text.skip(2)) == Some(json[0] as int));
}

/// The data says in the page what it said before: escaping changes how the characters of strings
/// are written, and nothing of what a JSON text says.
pub proof fn law_escaping_keeps_the_data(json: Seq<char>, in_string: bool)
    requires
        is_escapable(json, in_string),
    ensures
        signs(escaped(json), in_string) == signs(json, in_string),
    decreases json.len(),
{
    if json.len() > 0 {
        let first = signs(json, in_string)[0];
        let after = signs(json, in_string).drop_first();
        if in_string && json[0] == '\\' {
            assert(first != JsonSign::Invalid);
            let length: int = if json[1] == 'u' && hex_code(json.skip(2)) is Some {
                6
            } else {
                2
            };
            assert(after =~= signs(json.skip(length), true));
            lemma_rest_is_escapable(json, in_string, json.skip(length), true);
            law_escaping_keeps_the_data(json.skip(length), true);
            lemma_plain_front(json, in_string, length, true);
        } else {
            let rest_in_string = if json[0] == '"' {
                !in_string
            } else {
                in_string
            };
            assert(json.skip(1) =~= json.drop_first());
            let rest = signs(json.drop_first(), rest_in_string);
            assert(after =~= rest);
            lemma_rest_is_escapable(json, in_string, json.drop_first(), rest_in_string);
            law_escaping_keeps_the_data(json.drop_first(), rest_in_string);
            if is_markup(json[0]) {
                assert(in_string);
                lemma_markup_front(json);
            } else {
                lemma_plain_front(json, in_string, 1, rest_in_string);
            }
        }
    }
}

/// The page is the template with its placeholder replaced by a text that says what the data says
/// and holds no markup; nothing else is changed.
pub proof fn law_page_holds_the_data(json: Seq<char>)
    requires
        is_escapable(json, false),
    ensures
        exists|data: Seq<char>|
            {
                &&& page(json) == #[trigger] replaced(TEMPLATE@, PLACEHOLDER@, data)
                &&& signs(data, false) == signs(json, false)
                &&& forall|i: int| 0 <= i < data.len() ==> !is_markup(#[trigger] data[i])
            },
{
    law_escaping_keeps_the_data(json, false);
    law_escaped_data_has_no_markup(json);
    assert(page(json) == replaced(TEMPLATE@, PLACEHOLDER@, escaped(json)));
}

} // verus!
