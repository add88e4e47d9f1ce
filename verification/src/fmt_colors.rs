//! Coloured text for the terminal: text wrapped in the escape sequences that
//! switch a style on and off again, and lines put together from such pieces.
//!
//! The escape sequences are written by the `owo-colors` crate. The library
//! states of each styling call what it hands back, and proves of everything
//! built from those calls what it produces.

use vstd::prelude::*;
use vstd::string::StringExecFns;
use owo_colors::OwoColorize;

verus! {

/// A way to set text off on a terminal.
#[derive(Clone, Copy, Debug, PartialEq, Eq)]
pub enum Style {
    Bold,
    Dimmed,
    Italic,
    Black,
    Red,
    Green,
    Yellow,
    Blue,
    Purple,
    Cyan,
    White,
    BrightGreen,
    BrightYellow,
    BrightMagenta,
    BrightCyan,
    OnBlack,
    OnWhite,
    OnBrightWhite,
}

impl Style {
    /// The escape sequence that switches the style on.
    pub open spec fn start(self) -> Seq<char> {
        match self {
            Style::Bold => "\x1b[1m"@,
            Style::Dimmed => "\x1b[2m"@,
            Style::Italic => "\x1b[3m"@,
            Style::Black => "\x1b[30m"@,
            Style::Red => "\x1b[31m"@,
            Style::Green => "\x1b[32m"@,
            Style::Yellow => "\x1b[33m"@,
            Style::Blue => "\x1b[34m"@,
            Style::Purple => "\x1b[35m"@,
            Style::Cyan => "\x1b[36m"@,
            Style::White => "\x1b[37m"@,
            Style::BrightGreen => "\x1b[92m"@,
            Style::BrightYellow => "\x1b[93m"@,
            Style::BrightMagenta => "\x1b[95m"@,
            Style::BrightCyan => "\x1b[96m"@,
            Style::OnBlack => "\x1b[40m"@,
            Style::OnWhite => "\x1b[47m"@,
            Style::OnBrightWhite => "\x1b[107m"@,
        }
    }

    /// The escape sequence that switches the style off again: a full reset
    /// after bold, dimmed and italic, the default foreground after a
    /// foreground colour, the default background after a background colour.
    pub open spec fn end(self) -> Seq<char> {
        match self {
            Style::Bold | Style::Dimmed | Style::Italic => "\x1b[0m"@,
            Style::OnBlack | Style::OnWhite | Style::OnBrightWhite => "\x1b[49m"@,
            _ => "\x1b[39m"@,
        }
    }

    /// `text` between the two escape sequences of the style.
    pub open spec fn around(self, text: Seq<char>) -> Seq<char> {
        self.start() + text + self.end()
    }

    /// `text` in this style.
    pub fn apply(self, text: &str) -> (styled: String)
        ensures
            styled@ == self.around(text@),
    {
        match self {
            Style::Bold => bold(text),
            Style::Dimmed => dimmed(text),
            Style::Italic => italic(text),
            Style::Black => black(text),
            Style::Red => red(text),
            Style::Green => green(text),
            Style::Yellow => yellow(text),
            Style::Blue => blue(text),
            Style::Purple => purple(text),
            Style::Cyan => cyan(text),
            Style::White => white(text),
            Style::BrightGreen => bright_green(text),
            Style::BrightYellow => bright_yellow(text),
            Style::BrightMagenta => bright_magenta(text),
            Style::BrightCyan => bright_cyan(text),
            Style::OnBlack => on_black(text),
            Style::OnWhite => on_white(text),
            Style::OnBrightWhite => on_bright_white(text),
        }
    }
}

/// `OwoColorize::bold` of `owo-colors`, written out with `format!`: the text
/// between the escape sequence for bold and the one that ends it.
#[verifier::external_body]
fn bold(text: &str) -> (styled: String)
    ensures
        styled@ == Style::Bold.around(text@),
{
    format!("{}", text.bold())
}

/// `OwoColorize::dimmed` of `owo-colors`, written out with `format!`: the text
/// between the escape sequence for dimmed and the one that ends it.
#[verifier::external_body]
fn dimmed(text: &str) -> (styled: String)
    ensures
        styled@ == Style::Dimmed.around(text@),
{
    format!("{}", text.dimmed())
}

/// `OwoColorize::italic` of `owo-colors`, written out with `format!`: the text
/// between the escape sequence for italic and the one that ends it.
#[verifier::external_body]
fn italic(text: &str) -> (styled: String)
    ensures
        styled@ == Style::Italic.around(text@),
{
    format!("{}", text.italic())
}

/// `OwoColorize::black` of `owo-colors`, written out with `format!`: the text
/// between the escape sequence for black and the one that ends it.
#[verifier::external_body]
fn black(text: &str) -> (styled: String)
    ensures
        styled@ == Style::Black.around(text@),
{
    format!("{}", text.black())
}

/// `OwoColorize::red` of `owo-colors`, written out with `format!`: the text
/// between the escape sequence for red and the one that ends it.
#[verifier::external_body]
fn red(text: &str) -> (styled: String)
    ensures
        styled@ == Style::Red.around(text@),
{
    format!("{}", text.red())
}

/// `OwoColorize::green` of `owo-colors`, written out with `format!`: the text
/// between the escape sequence for green and the one that ends it.
#[verifier::external_body]
fn green(text: &str) -> (styled: String)
    ensures
        styled@ == Style::Green.around(text@),
{
    format!("{}", text.green())
}

/// `OwoColorize::yellow` of `owo-colors`, written out with `format!`: the text
/// between the escape sequence for yellow and the one that ends it.
#[verifier::external_body]
fn yellow(text: &str) -> (styled: String)
    ensures
        styled@ == Style::Yellow.around(text@),
{
    format!("{}", text.yellow())
}

/// `OwoColorize::blue` of `owo-colors`, written out with `format!`: the text
/// between the escape sequence for blue and the one that ends it.
#[verifier::external_body]
fn blue(text: &str) -> (styled: String)
    ensures
        styled@ == Style::Blue.around(text@),
{
    format!("{}", text.blue())
}

/// `OwoColorize::purple` of `owo-colors`, written out with `format!`: the text
/// between the escape sequence for purple and the one that ends it.
#[verifier::external_body]
fn purple(text: &str) -> (styled: String)
    ensures
        styled@ == Style::Purple.around(text@),
{
    format!("{}", text.purple())
}

/// `OwoColorize::cyan` of `owo-colors`, written out with `format!`: the text
/// between the escape sequence for cyan and the one that ends it.
#[verifier::external_body]
fn cyan(text: &str) -> (styled: String)
    ensures
        styled@ == Style::Cyan.around(text@),
{
    format!("{}", text.cyan())
}

/// `OwoColorize::white` of `owo-colors`, written out with `format!`: the text
/// between the escape sequence for white and the one that ends it.
#[verifier::external_body]
fn white(text: &str) -> (styled: String)
    ensures
        styled@ == Style::White.around(text@),
{
    format!("{}", text.white())
}

/// `OwoColorize::bright_green` of `owo-colors`, written out with `format!`: the text
/// between the escape sequence for bright green and the one that ends it.
#[verifier::external_body]
fn bright_green(text: &str) -> (styled: String)
    ensures
        styled@ == Style::BrightGreen.around(text@),
{
    format!("{}", text.bright_green())
}

/// `OwoColorize::bright_yellow` of `owo-colors`, written out with `format!`: the text
/// between the escape sequence for bright yellow and the one that ends it.
#[verifier::external_body]
fn bright_yellow(text: &str) -> (styled: String)
    ensures
        styled@ == Style::BrightYellow.around(text@),
{
    format!("{}", text.bright_yellow())
}

/// `OwoColorize::bright_magenta` of `owo-colors`, written out with `format!`: the text
/// between the escape sequence for bright magenta and the one that ends it.
#[verifier::external_body]
fn bright_magenta(text: &str) -> (styled: String)
    ensures
        styled@ == Style::BrightMagenta.around(text@),
{
    format!("{}", text.bright_magenta())
}

/// `OwoColorize::bright_cyan` of `owo-colors`, written out with `format!`: the text
/// between the escape sequence for bright cyan and the one that ends it.
#[verifier::external_body]
fn bright_cyan(text: &str) -> (styled: String)
    ensures
        styled@ == Style::BrightCyan.around(text@),
{
    format!("{}", text.bright_cyan())
}

/// `OwoColorize::on_black` of `owo-colors`, written out with `format!`: the text
/// between the escape sequence for on a black background and the one that ends it.
#[verifier::external_body]
fn on_black(text: &str) -> (styled: String)
    ensures
        styled@ == Style::OnBlack.around(text@),
{
    format!("{}", text.on_black())
}

/// `OwoColorize::on_white` of `owo-colors`, written out with `format!`: the text
/// between the escape sequence for on a white background and the one that ends it.
#[verifier::external_body]
fn on_white(text: &str) -> (styled: String)
    ensures
        styled@ == Style::OnWhite.around(text@),
{
    format!("{}", text.on_white())
}

/// `OwoColorize::on_bright_white` of `owo-colors`, written out with `format!`: the text
/// between the escape sequence for on a bright white background and the one that ends it.
#[verifier::external_body]
fn on_bright_white(text: &str) -> (styled: String)
    ensures
        styled@ == Style::OnBrightWhite.around(text@),
{
    format!("{}", text.on_bright_white())
}

/// `text` in each of `styles` in turn: the first style lies innermost, the
/// last outermost.
pub open spec fn styled(styles: Seq<Style>, text: Seq<char>) -> Seq<char>
    decreases styles.len(),
{
    if styles.len() == 0 {
        text
    } else {
        styles.last().around(styled(styles.drop_last(), text))
    }
}

/// `text` in each of `styles` in turn, the first innermost.
pub fn paint(styles: &Vec<Style>, text: &str) -> (painted: String)
    ensures
        painted@ == styled(styles@, text@),
{
    let mut painted: String = text.to_owned();
    let mut i: usize = 0;
    while i < styles.len()
        invariant
            i <= styles.len(),
            painted@ == styled(styles@.take(i as int), text@),
        decreases styles.len() - i,
    {
        proof {
            assert(styles@.take(i + 1).drop_last() =~= styles@.take(i as int));
        }
        painted = styles[i].apply(painted.as_str());
        i += 1;
    }
    proof {
        assert(styles@.take(styles.len() as int) =~= styles@);
    }
    painted
}

/// A line of coloured text in the making: pieces are added at its end, one
/// after the other, with nothing, a space or a line break between them.
#[derive(Clone, Debug, PartialEq)]
pub struct Colored {
    text: String,
}

impl View for Colored {
    type V = Seq<char>;

    closed spec fn view(&self) -> Seq<char> {
        self.text@
    }
}

impl Colored {
    /// The empty text.
    pub fn new() -> (empty: Self)
        ensures
            empty@ == Seq::<char>::empty(),
    {
        Colored { text: String::new() }
    }

    /// Adds `text` in the styles `styles`, the first innermost.
    pub fn text(self, styles: &Vec<Style>, text: &str) -> (longer: Self)
        ensures
            longer@ == self@ + styled(styles@, text@),
    {
        let piece = paint(styles, text);
        Colored { text: self.text.concat(piece.as_str()) }
    }

    /// Adds what `inner` holds, as one piece in the styles `styles`.
    pub fn group(self, styles: &Vec<Style>, inner: Colored) -> (longer: Self)
        ensures
            longer@ == self@ + styled(styles@, inner@),
    {
        self.text(styles, inner.text.as_str())
    }

    /// Adds a space.
    pub fn space(self) -> (longer: Self)
        ensures
            longer@ == self@.push(' '),
    {
        proof {
            reveal_strlit(" ");
        }
        let longer = Colored { text: self.text.concat(" ") };
        longer
    }

    /// Adds a line break.
    pub fn line(self) -> (longer: Self)
        ensures
            longer@ == self@.push('\n'),
    {
        proof {
            reveal_strlit("\n");
        }
        let longer = Colored { text: self.text.concat("\n") };
        longer
    }

    /// The text put together so far.
    pub fn as_str(&self) -> (text: &str)
        ensures
            text@ == self@,
    {
        self.text.as_str()
    }

    /// The text put together.
    pub fn into_string(self) -> (text: String)
        ensures
            text@ == self@,
    {
        self.text
    }
}

} // verus!
