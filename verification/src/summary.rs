//! The summary of an analysis for a terminal.

use crate::memory::MemoryTotals;
use crate::text::{chars_of, decimal, decimal_text};
use vstd::prelude::*;
use vstd::string::StringExecFns;

verus! {

/// So many of a character.
pub open spec fn repeated(ch: char, times: int) -> Seq<char> {
    Seq::new(
        if times > 0 {
            times as nat
        } else {
            0
        },
        |i: int| ch,
    )
}

/// A row of the table: a label on the left and a value on the right, each in a column of twelve
/// characters or as wide as it needs.
pub open spec fn table_row(label: Seq<char>, value: Seq<char>) -> Seq<char> {
    label + repeated(' ', 12 - label.len()) + " "@ + repeated(' ', 12 - value.len()) + value + "\n"@
}

/// The summary of an analysis.
pub open spec fn summary_text(name: Seq<char>, totals: MemoryTotals, output: Seq<char>) -> Seq<
    char,
> {
    "\n"@ + name + "\n"@ + table_row("region"@, "bytes"@) + repeated('-', 25) + "\n"@ + table_row(
        "text"@,
        decimal(totals.text as nat),
    ) + table_row("data"@, decimal(totals.data as nat)) + table_row(
        "bss"@,
        decimal(totals.bss as nat),
    ) + table_row("flash"@, decimal(totals.flash as nat)) + table_row(
        "ram"@,
        decimal(totals.ram as nat),
    ) + "\nReport: "@ + output + "\n"@
}

/// Appends so many of a character.
fn push_repeated(text: &mut String, ch: char, times: usize)
    ensures
        final(text)@ == old(text)@ + repeated(ch, times as int),
{
    for i in 0..times
        invariant
            text@ == old(text)@ + repeated(ch, i as int),
    {
        text.push(ch);
        assert(text@ =~= old(text)@ + repeated(ch, i + 1));
    }
    assert(times == 0 ==> text@ =~= old(text)@ + repeated(ch, 0));
}

/// Appends the blanks that fill a column of twelve characters.
fn push_padding(text: &mut String, length: usize)
    ensures
        final(text)@ == old(text)@ + repeated(' ', 12 - length),
{
    let missing: usize = if length < 12 {
        12 - length
    } else {
        0
    };
    push_repeated(text, ' ', missing);
    assert(repeated(' ', missing as int) =~= repeated(' ', 12 - length));
}

/// Appends a row of the table.
fn push_row(text: &mut String, label: &str, value: &str)
    ensures
        final(text)@ == old(text)@ + table_row(label@, value@),
{
    text.append(label);
    push_padding(text, chars_of(label).len());
    text.append(" ");
    push_padding(text, chars_of(value).len());
    text.append(value);
    text.append("\n");
    assert(text@ =~= old(text)@ + table_row(label@, value@));
}

/// The summary of an analysis.
pub fn render_summary(name: &str, totals: &MemoryTotals, output: &str) -> (text: String)
    ensures
        text@ == summary_text(name@, *totals, output@),
{
    let mut text = "\n".to_string();
    text.append(name);
    text.append("\n");
    push_row(&mut text, "region", "bytes");
    push_repeated(&mut text, '-', 25);
    text.append("\n");
    push_row(&mut text, "text", decimal_text(totals.text).as_str());
    push_row(&mut text, "data", decimal_text(totals.data).as_str());
    push_row(&mut text, "bss", decimal_text(totals.bss).as_str());
    push_row(&mut text, "flash", decimal_text(totals.flash).as_str());
    push_row(&mut text, "ram", decimal_text(totals.ram).as_str());
    text.append("\nReport: ");
    text.append(output);
    text.append("\n");
    text
}

} // verus!
