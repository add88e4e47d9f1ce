//! The reference counts as a coloured table for the terminal: one line for
//! each node, with its index, an equals sign and its count.

use vstd::prelude::*;
use vstd::string::{StrSliceExecFns, StringExecFns};
use vstd::utf8::encode_utf8;
use crate::fmt_colors::{styled, Colored, Style};
use crate::visits::FlakeNodeVisits;

verus! {

/// The character of the decimal digit `d`.
pub open spec fn digit(d: nat) -> char {
    if d == 0 {
        '0'
    } else if d == 1 {
        '1'
    } else if d == 2 {
        '2'
    } else if d == 3 {
        '3'
    } else if d == 4 {
        '4'
    } else if d == 5 {
        '5'
    } else if d == 6 {
        '6'
    } else if d == 7 {
        '7'
    } else if d == 8 {
        '8'
    } else {
        '9'
    }
}

/// The number `n` in decimal digits, without leading zeros.
pub open spec fn decimal_text(n: nat) -> Seq<char>
    decreases n,
{
    if n < 10 {
        seq![digit(n)]
    } else {
        decimal_text(n / 10).push(digit(n % 10))
    }
}

/// `text` with spaces behind it, as many as it is short of `width`
/// characters.
pub open spec fn padded(text: Seq<char>, width: nat) -> Seq<char> {
    if text.len() >= width {
        text
    } else {
        text + Seq::new((width - text.len()) as nat, |i: int| ' ')
    }
}

/// The width of the index column: the greatest length in bytes among the
/// indices of `counts`.
pub open spec fn column_width(counts: Seq<(Seq<char>, u32)>) -> nat
    decreases counts.len(),
{
    if counts.len() == 0 {
        0
    } else {
        let before = column_width(counts.drop_last());
        let here = encode_utf8(counts.last().0).len();
        if here > before {
            here
        } else {
            before
        }
    }
}

/// The line for the node `index` with the count `count`. The node at which
/// the walk began is dimmed. A node reached once or not at all has its
/// index in bold bright yellow; any other has its count in bold bright
/// green.
pub open spec fn report_line(index: Seq<char>, count: u32, start: Seq<char>, width: nat) -> Seq<
    char,
> {
    let name = padded(index, width);
    let number = decimal_text(count as nat);
    let sign = seq![' '] + Style::Red.around(seq!['=']) + seq![' '];
    if index == start {
        Style::Dimmed.around(name) + sign + Style::Dimmed.around(number) + seq!['\n']
    } else if count <= 1 {
        Style::BrightYellow.around(Style::Bold.around(name)) + sign + Style::Dimmed.around(number)
            + seq!['\n']
    } else {
        name + sign + Style::BrightGreen.around(Style::Bold.around(number)) + seq!['\n']
    }
}

/// The lines for all of `counts`, in order.
pub open spec fn report(counts: Seq<(Seq<char>, u32)>, start: Seq<char>, width: nat) -> Seq<char>
    decreases counts.len(),
{
    if counts.len() == 0 {
        Seq::empty()
    } else {
        report(counts.drop_last(), start, width) + report_line(
            counts.last().0,
            counts.last().1,
            start,
            width,
        )
    }
}

fn digit_text(d: u32) -> (text: &'static str)
    requires
        d < 10,
    ensures
        text@ == seq![digit(d as nat)],
{
    proof {
        reveal_strlit("0");
        reveal_strlit("1");
        reveal_strlit("2");
        reveal_strlit("3");
        reveal_strlit("4");
        reveal_strlit("5");
        reveal_strlit("6");
        reveal_strlit("7");
        reveal_strlit("8");
        reveal_strlit("9");
    }
    let text = if d == 0 {
        "0"
    } else if d == 1 {
        "1"
    } else if d == 2 {
        "2"
    } else if d == 3 {
        "3"
    } else if d == 4 {
        "4"
    } else if d == 5 {
        "5"
    } else if d == 6 {
        "6"
    } else if d == 7 {
        "7"
    } else if d == 8 {
        "8"
    } else {
        "9"
    };
    text
}

/// The number `n` in decimal digits.
pub fn decimal(n: u32) -> (text: String)
    ensures
        text@ == decimal_text(n as nat),
    decreases n,
{
    if n < 10 {
        digit_text(n).to_owned()
    } else {
        let mut text = decimal(n / 10);
        let last = digit_text(n % 10);
        text.append(last);
        text
    }
}

/// `text` filled up with spaces to `width` characters.
pub fn pad_to(text: &str, width: usize) -> (out: String)
    ensures
        out@ == padded(text@, width as nat),
{
    let mut out: String = text.to_owned();
    let mut length: usize = text.unicode_len();
    if length >= width {
        return out;
    }
    proof {
        reveal_strlit(" ");
    }
    let ghost short = (width - text@.len()) as nat;
    while length < width
        invariant
            text@.len() <= length <= width,
            short == width - text@.len(),
            " "@ == seq![' '],
            out@ == text@ + Seq::new((length - text@.len()) as nat, |i: int| ' '),
        decreases width - length,
    {
        out.append(" ");
        length += 1;
        assert(out@ =~= text@ + Seq::new((length - text@.len()) as nat, |i: int| ' '));
    }
    out
}

impl FlakeNodeVisits {
    /// The width of the index column of the table.
    pub fn column_width(&self) -> (width: usize)
        ensures
            width == column_width(self@.counts),
    {
        let entries = self.entries();
        let mut width: usize = 0;
        let mut i: usize = 0;
        while i < entries.len()
            invariant
                i <= entries.len(),
                crate::table::entries_view(entries@) == self@.counts,
                width == column_width(self@.counts.take(i as int)),
            decreases entries.len() - i,
        {
            proof {
                assert(self@.counts.take(i + 1).drop_last() =~= self@.counts.take(i as int));
            }
            let here = entries[i].0.as_str().as_bytes().len();
            if here > width {
                width = here;
            }
            i += 1;
        }
        assert(self@.counts.take(i as int) =~= self@.counts);
        width
    }

    /// The counts as a table: a line for each node, in the order of the
    /// graph's nodes.
    pub fn render(&self) -> (text: String)
        ensures
            text@ == report(self@.counts, self@.start, column_width(self@.counts)),
    {
        let entries = self.entries();
        let width = self.column_width();
        let dimmed = vec![Style::Dimmed];
        let red = vec![Style::Red];
        let rare = vec![Style::Bold, Style::BrightYellow];
        let often = vec![Style::Bold, Style::BrightGreen];
        let plain: Vec<Style> = Vec::new();
        let mut table = Colored::new();
        let mut i: usize = 0;
        proof {
            reveal_strlit("=");
            reveal_with_fuel(styled, 3);
        }
        while i < entries.len()
            invariant
                i <= entries.len(),
                crate::table::entries_view(entries@) == self@.counts,
                width == column_width(self@.counts),
                "="@ == seq!['='],
                forall|text: Seq<char>| #[trigger] styled(plain@, text) == text,
                forall|text: Seq<char>| #[trigger]
                    styled(dimmed@, text) == Style::Dimmed.around(text),
                forall|text: Seq<char>| #[trigger] styled(red@, text) == Style::Red.around(text),
                forall|text: Seq<char>| #[trigger]
                    styled(rare@, text) == Style::BrightYellow.around(Style::Bold.around(text)),
                forall|text: Seq<char>| #[trigger]
                    styled(often@, text) == Style::BrightGreen.around(Style::Bold.around(text)),
                table@ == report(self@.counts.take(i as int), self@.start, width as nat),
            decreases entries.len() - i,
        {
            proof {
                assert(self@.counts.take(i + 1).drop_last() =~= self@.counts.take(i as int));
                assert(self@.counts.take(i + 1).last() == self@.counts[i as int]);
            }
            let index = entries[i].0.as_str();
            let count = entries[i].1;
            let name = pad_to(index, width);
            let number = decimal(count);
            let ghost before = table@;
            if *index == *self.root_index() {
                table = table.text(&dimmed, name.as_str()).space().text(&red, "=").space().text(
                    &dimmed,
                    number.as_str(),
                ).line();
            } else if count <= 1 {
                table = table.text(&rare, name.as_str()).space().text(&red, "=").space().text(
                    &dimmed,
                    number.as_str(),
                ).line();
            } else {
                table = table.text(&plain, name.as_str()).space().text(&red, "=").space().text(
                    &often,
                    number.as_str(),
                ).line();
            }
            proof {
                assert(table@ =~= before + report_line(
                    self@.counts[i as int].0,
                    count,
                    self@.start,
                    width as nat,
                ));
            }
            i += 1;
        }
        assert(self@.counts.take(i as int) =~= self@.counts);
        table.into_string()
    }
}

} // verus!
