//! What holds of every page and every summary, character by character and line by line.

use crate::memory::MemoryTotals;
use crate::render::{escaped, escaped_char, lemma_escaped_add, page, replaced};
use crate::summary::{repeated, summary_text, table_row};
use crate::template::{PLACEHOLDER, TEMPLATE};
use crate::text::{decimal, occurs_at, split};
use crate::text_laws::{
    are_digits, law_numbers_are_written_in_decimal, lemma_split_at_separator, lemma_split_whole,
};
use vstd::prelude::*;

verus! {

/// Data is written character by character: an ampersand and angle brackets as the escapes of JSON
/// for their codes, and everything else as it is.
pub proof fn law_characters_are_written_one_by_one(left: Seq<char>, ch: char, right: Seq<char>)
    ensures
        escaped(Seq::<char>::empty()).len() == 0,
        ch == '&' ==> escaped(left + seq![ch] + right) == escaped(left) + seq![
            '\\',
            'u',
            '0',
            '0',
            '2',
            '6',
        ] + escaped(right),
        ch == '<' ==> escaped(left + seq![ch] + right) == escaped(left) + seq![
            '\\',
            'u',
            '0',
            '0',
            '3',
            'c',
        ] + escaped(right),
        ch == '>' ==> escaped(left + seq![ch] + right) == escaped(left) + seq![
            '\\',
            'u',
            '0',
            '0',
            '3',
            'e',
        ] + escaped(right),
        ch != '&' && ch != '<' && ch != '>' ==> escaped(left + seq![ch] + right) == escaped(left)
            + seq![ch] + escaped(right),
{
    reveal_strlit("\\u0026");
    reveal_strlit("\\u003c");
    reveal_strlit("\\u003e");
    let one = seq![ch];
    lemma_escaped_add(left + one, right);
    lemma_escaped_add(left, one);
    assert(one.drop_last() =~= Seq::<char>::empty());
    assert(escaped(one.drop_last()) =~= Seq::<char>::empty());
    assert(escaped(one) =~= escaped_char(ch));
    assert("\\u0026"@ =~= seq!['\\', 'u', '0', '0', '2', '6']);
    assert("\\u003c"@ =~= seq!['\\', 'u', '0', '0', '3', 'c']);
    assert("\\u003e"@ =~= seq!['\\', 'u', '0', '0', '3', 'e']);
}

/// The first occurrence of a pattern is replaced, what comes in front of it stays, and what comes
/// behind it is treated in the same way.
pub proof fn law_patterns_are_replaced(
    front: Seq<char>,
    pattern: Seq<char>,
    back: Seq<char>,
    replacement: Seq<char>,
)
    requires
        pattern.len() > 0,
        forall|at: int|
            0 <= at < front.len() ==> !#[trigger] occurs_at(front + pattern + back, pattern, at),
    ensures
        replaced(front + pattern + back, pattern, replacement) == front + replacement + replaced(
            back,
            pattern,
            replacement,
        ),
    decreases front.len(),
{
    let text = front + pattern + back;
    let tail = replaced(back, pattern, replacement);
    if front.len() == 0 {
        assert(text.subrange(0, pattern.len() as int) =~= pattern);
        assert(pattern.is_prefix_of(text));
        assert(text.skip(pattern.len() as int) =~= back);
        assert(replacement + tail =~= front + replacement + tail);
    } else {
        let rest = front.drop_first();
        let shorter = rest + pattern + back;
        assert(text.drop_first() =~= shorter);
        assert(text[0] == front[0]);
        assert(!pattern.is_prefix_of(text)) by {
            assert(!occurs_at(text, pattern, 0));
        }
        assert forall|at: int| 0 <= at < rest.len() implies !#[trigger] occurs_at(
            shorter,
            pattern,
            at,
        ) by {
            assert(!occurs_at(text, pattern, at + 1));
            if at + pattern.len() <= shorter.len() {
                assert(shorter.subrange(at, at + pattern.len()) =~= text.subrange(
                    at + 1,
                    at + 1 + pattern.len(),
                ));
            }
        }
        law_patterns_are_replaced(rest, pattern, back, replacement);
        assert(seq![front[0]] + (rest + replacement + tail) =~= front + replacement + tail);
    }
}

/// A text without the pattern stays as it is.
pub proof fn law_other_texts_stay(text: Seq<char>, pattern: Seq<char>, replacement: Seq<char>)
    requires
        pattern.len() > 0,
        forall|at: int| 0 <= at < text.len() ==> !#[trigger] occurs_at(text, pattern, at),
    ensures
        replaced(text, pattern, replacement) == text,
    decreases text.len(),
{
    if text.len() > 0 {
        let rest = text.drop_first();
        assert(!pattern.is_prefix_of(text)) by {
            assert(!occurs_at(text, pattern, 0));
        }
        assert forall|at: int| 0 <= at < rest.len() implies !#[trigger] occurs_at(
            rest,
            pattern,
            at,
        ) by {
            assert(!occurs_at(text, pattern, at + 1));
            if at + pattern.len() <= rest.len() {
                assert(rest.subrange(at, at + pattern.len()) =~= text.subrange(
                    at + 1,
                    at + 1 + pattern.len(),
                ));
            }
        }
        law_other_texts_stay(rest, pattern, replacement);
        assert(seq![text[0]] + rest =~= text);
    }
}

/// The page is the template around the data, wherever the template has its placeholder.
pub proof fn law_pages_are_the_template_around_the_data(
    json: Seq<char>,
    front: Seq<char>,
    back: Seq<char>,
)
    requires
        TEMPLATE@ == front + PLACEHOLDER@ + back,
        forall|at: int|
            0 <= at < front.len() ==> !#[trigger] occurs_at(TEMPLATE@, PLACEHOLDER@, at),
        forall|at: int| 0 <= at < back.len() ==> !#[trigger] occurs_at(back, PLACEHOLDER@, at),
    ensures
        page(json) == front + escaped(json) + back,
{
    reveal_strlit("__rozy_REPORT_JSON__");
    law_patterns_are_replaced(front, PLACEHOLDER@, back, escaped(json));
    law_other_texts_stay(back, PLACEHOLDER@, escaped(json));
}

/// Whether a line is a row of the table: the label on the left, the value on the right, blanks in
/// between, and each in a column of twelve characters, or as wide as the value needs.
pub open spec fn is_row(line: Seq<char>, label: Seq<char>, value: Seq<char>) -> bool {
    &&& label.len() <= 12
    &&& line.len() == 13 + (if value.len() > 12 {
        value.len() as int
    } else {
        12
    })
    &&& line.take(label.len() as int) == label
    &&& line.skip(line.len() - value.len()) == value
    &&& forall|i: int| label.len() <= i < line.len() - value.len() ==> #[trigger] line[i] == ' '
}

proof fn lemma_row(label: Seq<char>, value: Seq<char>) -> (line: Seq<char>)
    requires
        label.len() <= 12,
        !label.contains('\n'),
        !value.contains('\n'),
    ensures
        table_row(label, value) == line.push('\n'),
        is_row(line, label, value),
        !line.contains('\n'),
{
    reveal_strlit(" ");
    reveal_strlit("\n");
    let left = repeated(' ', 12 - label.len());
    let right = repeated(' ', 12 - value.len());
    let line = label + left + " "@ + right + value;
    assert(table_row(label, value) =~= line.push('\n'));
    assert(line.take(label.len() as int) =~= label);
    assert(line.skip(line.len() - value.len()) =~= value);
    assert(!line.contains('\n')) by {
        if line.contains('\n') {
            let i = choose|i: int| 0 <= i < line.len() && line[i] == '\n';
            if i < label.len() {
                assert(label[i] == '\n');
            } else if i >= line.len() - value.len() {
                assert(value[i - (line.len() - value.len())] == '\n');
            } else {
                assert(line[i] == ' ');
            }
        }
    }
    line
}

proof fn lemma_number_row(label: Seq<char>, number: nat) -> (line: Seq<char>)
    requires
        label.len() <= 12,
        !label.contains('\n'),
    ensures
        table_row(label, decimal(number)) == line.push('\n'),
        is_row(line, label, decimal(number)),
        !line.contains('\n'),
{
    law_numbers_are_written_in_decimal(number);
    assert(!decimal(number).contains('\n')) by {
        if decimal(number).contains('\n') {
            let i = choose|i: int| 0 <= i < decimal(number).len() && decimal(number)[i] == '\n';
            assert(are_digits(decimal(number)));
        }
    }
    lemma_row(label, decimal(number))
}

/// A line is what comes up to a newline.
proof fn lemma_next_line(line: Seq<char>, rest: Seq<char>)
    requires
        !line.contains('\n'),
    ensures
        split(line.push('\n') + rest, '\n') == seq![line] + split(rest, '\n'),
{
    lemma_split_at_separator(line, rest, '\n');
    lemma_split_whole(line, '\n');
}

/// The summary shows, line by line, the name, a table of the bytes in each kind of memory and in
/// flash and RAM, and where the report is.
pub proof fn law_summary_shows_all_totals(
    name: Seq<char>,
    totals: MemoryTotals,
    output: Seq<char>,
)
    requires
        !name.contains('\n'),
        !output.contains('\n'),
    ensures
        ({
            let shown = split(summary_text(name, totals, output), '\n');
            &&& shown.len() == 12
            &&& shown[0].len() == 0
            &&& shown[1] == name
            &&& is_row(shown[2], "region"@, "bytes"@)
            &&& shown[3].len() == 25
            &&& forall|i: int| 0 <= i < 25 ==> #[trigger] shown[3][i] == '-'
            &&& is_row(shown[4], "text"@, decimal(totals.text as nat))
            &&& is_row(shown[5], "data"@, decimal(totals.data as nat))
            &&& is_row(shown[6], "bss"@, decimal(totals.bss as nat))
            &&& is_row(shown[7], "flash"@, decimal(totals.flash as nat))
            &&& is_row(shown[8], "ram"@, decimal(totals.ram as nat))
            &&& shown[9].len() == 0
            &&& shown[10] == "Report: "@ + output
            &&& shown[11].len() == 0
        }),
{
    reveal_strlit("\n");
    reveal_strlit("region");
    reveal_strlit("bytes");
    reveal_strlit("text");
    reveal_strlit("data");
    reveal_strlit("bss");
    reveal_strlit("flash");
    reveal_strlit("ram");
    reveal_strlit("\nReport: ");
    reveal_strlit("Report: ");
    let none = Seq::<char>::empty();
    let header = lemma_row("region"@, "bytes"@);
    let dashes = repeated('-', 25);
    let text = lemma_number_row("text"@, totals.text as nat);
    let data = lemma_number_row("data"@, totals.data as nat);
    let bss = lemma_number_row("bss"@, totals.bss as nat);
    let flash = lemma_number_row("flash"@, totals.flash as nat);
    let ram = lemma_number_row("ram"@, totals.ram as nat);
    let report = "Report: "@ + output;
    assert(!report.contains('\n')) by {
        if report.contains('\n') {
            let i = choose|i: int| 0 <= i < report.len() && report[i] == '\n';
            if i >= 8 {
                assert(output[i - 8] == '\n');
            }
        }
    }
    let from_report = report.push('\n') + none;
    let from_blank = none.push('\n') + from_report;
    let from_ram = ram.push('\n') + from_blank;
    let from_flash = flash.push('\n') + from_ram;
    let from_bss = bss.push('\n') + from_flash;
    let from_data = data.push('\n') + from_bss;
    let from_text = text.push('\n') + from_data;
    let from_dashes = dashes.push('\n') + from_text;
    let from_header = header.push('\n') + from_dashes;
    let from_name = name.push('\n') + from_header;
    let all = none.push('\n') + from_name;
    lemma_split_whole(none, '\n');
    lemma_next_line(report, none);
    lemma_next_line(none, from_report);
    lemma_next_line(ram, from_blank);
    lemma_next_line(flash, from_ram);
    lemma_next_line(bss, from_flash);
    lemma_next_line(data, from_bss);
    lemma_next_line(text, from_data);
    lemma_next_line(dashes, from_text);
    lemma_next_line(header, from_dashes);
    lemma_next_line(name, from_header);
    lemma_next_line(none, from_name);
    lemma_summary_is_its_lines(
        name,
        totals,
        output,
        header,
        text,
        data,
        bss,
        flash,
        ram,
    );
}

/// The name and the place of the report are shown as they are: of the rest of the summary nothing
/// depends on them.
pub proof fn law_summary_shows_name_and_output(
    name: Seq<char>,
    totals: MemoryTotals,
    output: Seq<char>,
)
    ensures
        ({
            let rest = summary_text(Seq::<char>::empty(), totals, Seq::<char>::empty());
            summary_text(name, totals, output) == rest.take(1) + name + rest.subrange(
                1,
                rest.len() - 1,
            ) + output + rest.skip(rest.len() - 1)
        }),
{
    reveal_strlit("\n");
    let none = Seq::<char>::empty();
    let nl = "\n"@;
    let middle = nl + table_row("region"@, "bytes"@) + repeated('-', 25) + nl + table_row(
        "text"@,
        decimal(totals.text as nat),
    ) + table_row("data"@, decimal(totals.data as nat)) + table_row(
        "bss"@,
        decimal(totals.bss as nat),
    ) + table_row("flash"@, decimal(totals.flash as nat)) + table_row(
        "ram"@,
        decimal(totals.ram as nat),
    ) + "\nReport: "@;
    lemma_summary_around_middle(name, totals, output, middle);
    lemma_summary_around_middle(none, totals, none, middle);
    let rest = nl + none + middle + none + nl;
    assert(rest =~= nl + middle + nl);
    assert(rest.take(1) =~= nl);
    assert(rest.skip(rest.len() - 1) =~= nl);
    assert(rest.subrange(1, rest.len() - 1) =~= middle);
}

proof fn lemma_summary_around_middle(
    name: Seq<char>,
    totals: MemoryTotals,
    output: Seq<char>,
    middle: Seq<char>,
)
    requires
        middle == "\n"@ + table_row("region"@, "bytes"@) + repeated('-', 25) + "\n"@ + table_row(
            "text"@,
            decimal(totals.text as nat),
        ) + table_row("data"@, decimal(totals.data as nat)) + table_row(
            "bss"@,
            decimal(totals.bss as nat),
        ) + table_row("flash"@, decimal(totals.flash as nat)) + table_row(
            "ram"@,
            decimal(totals.ram as nat),
        ) + "\nReport: "@,
    ensures
        summary_text(name, totals, output) == "\n"@ + name + middle + output + "\n"@,
{
    let nl = "\n"@;
    let front = nl + name;
    let a = table_row("region"@, "bytes"@);
    let b = repeated('-', 25);
    let c = table_row("text"@, decimal(totals.text as nat));
    let d = table_row("data"@, decimal(totals.data as nat));
    let e = table_row("bss"@, decimal(totals.bss as nat));
    let f = table_row("flash"@, decimal(totals.flash as nat));
    let g = table_row("ram"@, decimal(totals.ram as nat));
    let h = "\nReport: "@;
    lemma_assoc(front, nl, a);
    lemma_assoc(front, nl + a, b);
    lemma_assoc(front, nl + a + b, nl);
    lemma_assoc(front, nl + a + b + nl, c);
    lemma_assoc(front, nl + a + b + nl + c, d);
    lemma_assoc(front, nl + a + b + nl + c + d, e);
    lemma_assoc(front, nl + a + b + nl + c + d + e, f);
    lemma_assoc(front, nl + a + b + nl + c + d + e + f, g);
    lemma_assoc(front, nl + a + b + nl + c + d + e + f + g, h);
}

/// The summary is its lines, one after the other.
#[verifier::spinoff_prover]
proof fn lemma_summary_is_its_lines(
    name: Seq<char>,
    totals: MemoryTotals,
    output: Seq<char>,
    header: Seq<char>,
    text: Seq<char>,
    data: Seq<char>,
    bss: Seq<char>,
    flash: Seq<char>,
    ram: Seq<char>,
)
    requires
        table_row("region"@, "bytes"@) == header.push('\n'),
        table_row("text"@, decimal(totals.text as nat)) == text.push('\n'),
        table_row("data"@, decimal(totals.data as nat)) == data.push('\n'),
        table_row("bss"@, decimal(totals.bss as nat)) == bss.push('\n'),
        table_row("flash"@, decimal(totals.flash as nat)) == flash.push('\n'),
        table_row("ram"@, decimal(totals.ram as nat)) == ram.push('\n'),
    ensures
        summary_text(name, totals, output) == Seq::<char>::empty().push('\n') + (name.push('\n') + (
        header.push('\n') + (repeated('-', 25).push('\n') + (text.push('\n') + (data.push('\n') + (
        bss.push('\n') + (flash.push('\n') + (ram.push('\n') + (Seq::<char>::empty().push('\n') + ((
        "Report: "@ + output).push('\n') + Seq::<char>::empty())))))))))),
{
    reveal_strlit("\n");
    reveal_strlit("\nReport: ");
    reveal_strlit("Report: ");
    let nl = "\n"@;
    let h = header.push('\n');
    let d = repeated('-', 25);
    let t = text.push('\n');
    let da = data.push('\n');
    let b = bss.push('\n');
    let f = flash.push('\n');
    let r = ram.push('\n');
    let tail = (("Report: "@ + output).push('\n') + Seq::<char>::empty());
    let blank = Seq::<char>::empty().push('\n');
    assert("\nReport: "@ =~= blank + "Report: "@);
    assert(nl =~= blank);
    let s0 = nl + name + nl;
    let s1 = s0 + h;
    let s2 = s1 + d + nl;
    let s3 = s2 + t;
    let s4 = s3 + da;
    let s5 = s4 + b;
    let s6 = s5 + f;
    let s7 = s6 + r;
    let s8 = s7 + "\nReport: "@ + output + nl;
    assert(s8 =~= s7 + (blank + tail));
    let t8 = blank + tail;
    lemma_assoc(s6, r, t8);
    lemma_assoc(s5, f, r + t8);
    lemma_assoc(s4, b, f + (r + t8));
    lemma_assoc(s3, da, b + (f + (r + t8)));
    lemma_assoc(s2, t, da + (b + (f + (r + t8))));
    let t3 = t + (da + (b + (f + (r + t8))));
    assert(s1 + d + nl =~= s1 + d.push('\n'));
    lemma_assoc(s1, d.push('\n'), t3);
    lemma_assoc(s0, h, d.push('\n') + t3);
    assert(s0 =~= blank + name.push('\n'));
    lemma_assoc(blank, name.push('\n'), h + (d.push('\n') + t3));
    assert(summary_text(name, totals, output) == s8);
}

proof fn lemma_assoc(a: Seq<char>, b: Seq<char>, c: Seq<char>)
    ensures
        a + b + c == a + (b + c),
{
    assert(a + b + c =~= a + (b + c));
}

} // verus!
