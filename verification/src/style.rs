//! Terminal styling of text through the `colored` crate.
//!
//! Whether `colored` writes escape sequences depends on the environment
//! (`CLICOLOR`, `CLICOLOR_FORCE`, `NO_COLOR`) and on whether standard output
//! is a terminal, so what a styled text looks like is not a function of the
//! text alone: the contracts below state what holds either way.
use colored::Colorize;
use vstd::prelude::*;

verus! {

/// The escape sequence with which `colored` ends a styled text.
pub open spec fn reset_sequence() -> Seq<char> {
    seq!['\x1b', '[', '0', 'm']
}

/// `s` holds `part` at position `i`.
pub open spec fn occurs_at(s: Seq<char>, part: Seq<char>, i: int) -> bool {
    0 <= i && i + part.len() <= s.len() && s.subrange(i, i + part.len()) == part
}

/// `s` holds `part` somewhere.
pub open spec fn contains_part(s: Seq<char>, part: Seq<char>) -> bool {
    exists|i: int| occurs_at(s, part, i)
}

/// The escape sequence with which `colored` starts a text styled with
/// `code` (the codes of its styles, then of its colour, separated by `;`).
pub open spec fn escape_start(code: Seq<char>) -> Seq<char> {
    seq!['\x1b', '['] + code + seq!['m']
}

/// What `text` styled with `code` can look like: the text itself when no
/// colors are written, or the escape sequence of the code, the text and the
/// reset sequence when they are (a text that holds the reset sequence itself
/// gets further escape sequences inside, which this does not describe).
pub open spec fn styled_with(res: Seq<char>, text: Seq<char>, code: Seq<char>) -> bool {
    ||| res == text
    ||| exists|body: Seq<char>|
        {
            &&& res == escape_start(code) + body + reset_sequence()
            &&& (!contains_part(text, reset_sequence()) ==> body == text)
        }
}

/// The code of red text.
pub open spec fn red_code() -> Seq<char> {
    seq!['3', '1']
}

/// The code of green text.
pub open spec fn green_code() -> Seq<char> {
    seq!['3', '2']
}

/// The code of yellow text.
pub open spec fn yellow_code() -> Seq<char> {
    seq!['3', '3']
}

/// The code of blue text.
pub open spec fn blue_code() -> Seq<char> {
    seq!['3', '4']
}

/// The code of magenta text.
pub open spec fn magenta_code() -> Seq<char> {
    seq!['3', '5']
}

/// The code of cyan text.
pub open spec fn cyan_code() -> Seq<char> {
    seq!['3', '6']
}

/// The code of white text.
pub open spec fn white_code() -> Seq<char> {
    seq!['3', '7']
}

/// The code of black text.
pub open spec fn black_code() -> Seq<char> {
    seq!['3', '0']
}

/// The code of bold text.
pub open spec fn bold_code() -> Seq<char> {
    seq!['1']
}

/// The code of dimmed text.
pub open spec fn dimmed_code() -> Seq<char> {
    seq!['2']
}

/// The code of text in italics.
pub open spec fn italic_code() -> Seq<char> {
    seq!['3']
}

/// The code of underlined text.
pub open spec fn underline_code() -> Seq<char> {
    seq!['4']
}

/// The code of blinking text.
pub open spec fn blink_code() -> Seq<char> {
    seq!['5']
}

/// The code of text in reversed colours.
pub open spec fn reversed_code() -> Seq<char> {
    seq!['7']
}

/// The code of hidden text.
pub open spec fn hidden_code() -> Seq<char> {
    seq!['8']
}

/// The code of struck through text.
pub open spec fn strikethrough_code() -> Seq<char> {
    seq!['9']
}

/// The code of text in green and bold: the style, then the colour.
pub open spec fn green_bold_code() -> Seq<char> {
    seq!['1', ';', '3', '2']
}

/// `text` in red: `Colorize::red`, rendered through `Display`. The result is
/// the text, or the text between the escape sequence of its code and the
/// reset when colors are written.
#[verifier::external_body]
pub(crate) fn red(text: &str) -> (res: String)
    ensures
        styled_with(res@, text@, red_code()),
{
    text.red().to_string()
}

/// `text` in yellow: `Colorize::yellow`, rendered through `Display`. The
/// result is the text, or the text between the escape sequence of its
/// code and the reset.
#[verifier::external_body]
pub(crate) fn yellow(text: &str) -> (res: String)
    ensures
        styled_with(res@, text@, yellow_code()),
{
    text.yellow().to_string()
}

/// `text` in green and bold: `Colorize::green` followed by
/// `ColoredString::bold`, rendered through `Display`. The result is the text,
/// or the text between the escape sequence of its
/// code and the reset.
#[verifier::external_body]
pub(crate) fn green_bold(text: &str) -> (res: String)
    ensures
        styled_with(res@, text@, green_bold_code()),
{
    text.green().bold().to_string()
}

/// `text` in green: `Colorize::green`, rendered through `Display`. The result
/// is the text, or the text between the escape sequence of its
/// code and the reset.
#[verifier::external_body]
pub(crate) fn green(text: &str) -> (res: String)
    ensures
        styled_with(res@, text@, green_code()),
{
    text.green().to_string()
}

/// `text` in bold: `Colorize::bold`, rendered through `Display`. The result
/// is the text, or the text between the escape sequence of its
/// code and the reset.
#[verifier::external_body]
pub(crate) fn bold(text: &str) -> (res: String)
    ensures
        styled_with(res@, text@, bold_code()),
{
    text.bold().to_string()
}

/// `text` in italics: `Colorize::italic`, rendered through `Display`. The
/// result is the text, or the text between the escape sequence of its
/// code and the reset.
#[verifier::external_body]
pub(crate) fn italic(text: &str) -> (res: String)
    ensures
        styled_with(res@, text@, italic_code()),
{
    text.italic().to_string()
}

/// `text` struck through: `Colorize::strikethrough`, rendered through
/// `Display`. The result is the text, or the text between the escape sequence of its
/// code and the reset.
#[verifier::external_body]
pub(crate) fn strikethrough(text: &str) -> (res: String)
    ensures
        styled_with(res@, text@, strikethrough_code()),
{
    text.strikethrough().to_string()
}

/// `text` in blue: `Colorize::blue`, rendered through `Display`. The result
/// is the text, or the text between the escape sequence of its
/// code and the reset.
#[verifier::external_body]
pub(crate) fn blue(text: &str) -> (res: String)
    ensures
        styled_with(res@, text@, blue_code()),
{
    text.blue().to_string()
}

/// `text` in cyan: `Colorize::cyan`, rendered through `Display`. The result
/// is the text, or the text between the escape sequence of its
/// code and the reset.
#[verifier::external_body]
pub(crate) fn cyan(text: &str) -> (res: String)
    ensures
        styled_with(res@, text@, cyan_code()),
{
    text.cyan().to_string()
}

/// `text` in magenta: `Colorize::magenta`, rendered through `Display`. The
/// result is the text, or the text between the escape sequence of its
/// code and the reset.
#[verifier::external_body]
pub(crate) fn magenta(text: &str) -> (res: String)
    ensures
        styled_with(res@, text@, magenta_code()),
{
    text.magenta().to_string()
}

/// `text` in white: `Colorize::white`, rendered through `Display`. The result
/// is the text, or the text between the escape sequence of its
/// code and the reset.
#[verifier::external_body]
pub(crate) fn white(text: &str) -> (res: String)
    ensures
        styled_with(res@, text@, white_code()),
{
    text.white().to_string()
}

/// `text` in black: `Colorize::black`, rendered through `Display`. The result
/// is the text, or the text between the escape sequence of its
/// code and the reset.
#[verifier::external_body]
pub(crate) fn black(text: &str) -> (res: String)
    ensures
        styled_with(res@, text@, black_code()),
{
    text.black().to_string()
}

/// `text` dimmed: `Colorize::dimmed`, rendered through `Display`. The result
/// is the text, or the text between the escape sequence of its
/// code and the reset.
#[verifier::external_body]
pub(crate) fn dimmed(text: &str) -> (res: String)
    ensures
        styled_with(res@, text@, dimmed_code()),
{
    text.dimmed().to_string()
}

/// `text` underlined: `Colorize::underline`, rendered through `Display`. The
/// result is the text, or the text between the escape sequence of its
/// code and the reset.
#[verifier::external_body]
pub(crate) fn underline(text: &str) -> (res: String)
    ensures
        styled_with(res@, text@, underline_code()),
{
    text.underline().to_string()
}

/// `text` in reversed colours: `Colorize::reversed`, rendered through
/// `Display`. The result is the text, or the text between the escape sequence of its
/// code and the reset.
#[verifier::external_body]
pub(crate) fn reversed(text: &str) -> (res: String)
    ensures
        styled_with(res@, text@, reversed_code()),
{
    text.reversed().to_string()
}

/// `text` blinking: `Colorize::blink`, rendered through `Display`. The result
/// is the text, or the text between the escape sequence of its
/// code and the reset.
#[verifier::external_body]
pub(crate) fn blink(text: &str) -> (res: String)
    ensures
        styled_with(res@, text@, blink_code()),
{
    text.blink().to_string()
}

/// `text` hidden: `Colorize::hidden`, rendered through `Display`. The result
/// is the text, or the text between the escape sequence of its
/// code and the reset.
#[verifier::external_body]
pub(crate) fn hidden(text: &str) -> (res: String)
    ensures
        styled_with(res@, text@, hidden_code()),
{
    text.hidden().to_string()
}

} // verus!

verus! {

/// The styles that a text can be shown in.
#[derive(Clone, Copy, PartialEq, Eq, Structural, Debug)]
pub enum Style {
    Red,
    Green,
    Yellow,
    Blue,
    Magenta,
    Cyan,
    White,
    Black,
    Bold,
    Dimmed,
    Italic,
    Underline,
    Blink,
    Reversed,
    Hidden,
    Strikethrough,
    GreenBold,
}

/// The code of a style.
pub open spec fn code_of(style: Style) -> Seq<char> {
    match style {
        Style::Red => red_code(),
        Style::Green => green_code(),
        Style::Yellow => yellow_code(),
        Style::Blue => blue_code(),
        Style::Magenta => magenta_code(),
        Style::Cyan => cyan_code(),
        Style::White => white_code(),
        Style::Black => black_code(),
        Style::Bold => bold_code(),
        Style::Dimmed => dimmed_code(),
        Style::Italic => italic_code(),
        Style::Underline => underline_code(),
        Style::Blink => blink_code(),
        Style::Reversed => reversed_code(),
        Style::Hidden => hidden_code(),
        Style::Strikethrough => strikethrough_code(),
        Style::GreenBold => green_bold_code(),
    }
}

/// A text and the style it is shown in, as plain values.
#[derive(Clone, Debug)]
pub struct StyledText {
    pub text: String,
    pub style: Style,
}

impl StyledText {
    /// The text as it is displayed in its style.
    pub fn to_string(&self) -> (res: String)
        ensures
            styled_with(res@, self.text@, code_of(self.style)),
    {
        let text = self.text.as_str();
        match self.style {
            Style::Red => red(text),
            Style::Green => green(text),
            Style::Yellow => yellow(text),
            Style::Blue => blue(text),
            Style::Magenta => magenta(text),
            Style::Cyan => cyan(text),
            Style::White => white(text),
            Style::Black => black(text),
            Style::Bold => bold(text),
            Style::Dimmed => dimmed(text),
            Style::Italic => italic(text),
            Style::Underline => underline(text),
            Style::Blink => blink(text),
            Style::Reversed => reversed(text),
            Style::Hidden => hidden(text),
            Style::Strikethrough => strikethrough(text),
            Style::GreenBold => green_bold(text),
        }
    }
}

} // verus!
