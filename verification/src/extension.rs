//! What the Lua extensions answer, and the configuration they give.
use vstd::prelude::*;
use crate::entities::config::Config;
use crate::entities::results::SearchResult;
use crate::style::{styled_with, red, green, blue, yellow, cyan, magenta, white, black, bold, dimmed,
    underline, reversed, italic, blink, hidden, strikethrough, red_code, green_code, blue_code,
    yellow_code, cyan_code, magenta_code, white_code, black_code, bold_code, dimmed_code,
    underline_code, reversed_code, italic_code, blink_code, hidden_code, strikethrough_code};

verus! {

/// The kind of error that an extension reports.
#[derive(Clone, Copy, PartialEq, Eq, Structural, Debug)]
pub enum ExtensionErrorType {
    UnknownOption,
    UnknownError,
}

/// The code with which an extension reports an unknown option.
pub open spec fn unknown_option_code() -> Seq<char> {
    "unknown_option"@
}

impl ExtensionErrorType {
    /// The kind of error that an extension's error code stands for.
    pub fn from(code: &str) -> (res: ExtensionErrorType)
        ensures
            res == if code@ == unknown_option_code() {
                ExtensionErrorType::UnknownOption
            } else {
                ExtensionErrorType::UnknownError
            },
    {
        if code.to_owned() == "unknown_option".to_owned() {
            ExtensionErrorType::UnknownOption
        } else {
            ExtensionErrorType::UnknownError
        }
    }

    /// The message of the error, as it is displayed.
    pub fn to_string(&self) -> (res: String)
        ensures
            res@ == match self {
                ExtensionErrorType::UnknownOption => "unknown extension option"@,
                ExtensionErrorType::UnknownError => "unknown extension error"@,
            },
    {
        match self {
            ExtensionErrorType::UnknownOption => "unknown extension option".to_owned(),
            ExtensionErrorType::UnknownError => "unknown extension error".to_owned(),
        }
    }
}

/// What an extension answers: a result and maybe an error.
#[derive(Clone, Debug)]
pub struct ExtensionResult {
    pub result: String,
    pub error: Option<ExtensionErrorType>,
}

/// The configuration that the Lua configuration gives.
#[derive(Clone, Copy, Debug)]
pub struct ConfigHandler {
    pub config: Config,
}

/// What `str::to_lowercase` makes of a text: each character mapped to its
/// lower case as Unicode defines it, independent of any locale.
pub uninterp spec fn spec_to_lowercase(s: Seq<char>) -> Seq<char>;

/// `str::to_lowercase`. Its result is named by `spec_to_lowercase`.
#[verifier::external_body]
fn to_lowercase(s: &str) -> (res: String)
    ensures
        res@ == spec_to_lowercase(s@),
{
    s.to_lowercase()
}

/// `name` holds the text `word`.
fn is_named(name: &String, word: &str) -> (res: bool)
    ensures
        res == (name@ == word@),
{
    *name == word.to_owned()
}

/// The code of the colour that an extension asks for by its lower case
/// name; none for a name that is not a colour.
pub open spec fn color_code(name: Seq<char>) -> Option<Seq<char>> {
    if name == "red"@ {
        Some(red_code())
    } else if name == "green"@ {
        Some(green_code())
    } else if name == "blue"@ {
        Some(blue_code())
    } else if name == "yellow"@ {
        Some(yellow_code())
    } else if name == "cyan"@ {
        Some(cyan_code())
    } else if name == "magenta"@ {
        Some(magenta_code())
    } else if name == "white"@ {
        Some(white_code())
    } else if name == "black"@ {
        Some(black_code())
    } else {
        None
    }
}

/// The code of the style that an extension asks for by its lower case
/// name; none for a name that is not a style.
pub open spec fn style_code(name: Seq<char>) -> Option<Seq<char>> {
    if name == "bold"@ {
        Some(bold_code())
    } else if name == "dimmed"@ {
        Some(dimmed_code())
    } else if name == "underline"@ {
        Some(underline_code())
    } else if name == "reversed"@ {
        Some(reversed_code())
    } else if name == "italic"@ {
        Some(italic_code())
    } else if name == "blink"@ {
        Some(blink_code())
    } else if name == "hidden"@ {
        Some(hidden_code())
    } else if name == "strikethrough"@ {
        Some(strikethrough_code())
    } else {
        None
    }
}

/// A decimal digit.
pub open spec fn decimal_digit(n: int) -> char {
    seq!['0', '1', '2', '3', '4', '5', '6', '7', '8', '9'][n]
}

/// The eight colours of the terminal, in the order of their numbers.
pub open spec fn terminal_colors() -> Seq<Seq<char>> {
    seq!["black"@, "red"@, "green"@, "yellow"@, "blue"@, "magenta"@, "cyan"@, "white"@]
}

/// The styles of the terminal, each with the number that selects it.
pub open spec fn terminal_styles() -> Seq<(Seq<char>, int)> {
    seq![
        ("bold"@, 1),
        ("dimmed"@, 2),
        ("italic"@, 3),
        ("underline"@, 4),
        ("blink"@, 5),
        ("reversed"@, 7),
        ("hidden"@, 8),
        ("strikethrough"@, 9),
    ]
}

proof fn lemma_texts_differ_at(a: Seq<char>, b: Seq<char>, j: int)
    requires
        0 <= j < a.len(),
        j < b.len(),
        a[j] != b[j],
    ensures
        a != b,
{
}

proof fn lemma_texts_differ_in_length(a: Seq<char>, b: Seq<char>)
    requires
        a.len() != b.len(),
    ensures
        a != b,
{
}

/// The colour at place `i` of the terminal's colours is selected by the
/// code `3i`, the foreground colour of that number.
pub proof fn lemma_color_code_is_terminal_number(i: int)
    requires
        0 <= i < terminal_colors().len(),
    ensures
        color_code(terminal_colors()[i]) == Some(seq!['3', decimal_digit(i)]),
{
    reveal_strlit("black");
    reveal_strlit("red");
    reveal_strlit("green");
    reveal_strlit("yellow");
    reveal_strlit("blue");
    reveal_strlit("magenta");
    reveal_strlit("cyan");
    reveal_strlit("white");
    let names = terminal_colors();
    if i == 0 {
        assert(names[0] == "black"@);
        lemma_texts_differ_at("black"@, "green"@, 0);
        lemma_texts_differ_at("black"@, "white"@, 0);
        lemma_texts_differ_in_length("black"@, "red"@);
        lemma_texts_differ_in_length("black"@, "blue"@);
        lemma_texts_differ_in_length("black"@, "yellow"@);
        lemma_texts_differ_in_length("black"@, "cyan"@);
        lemma_texts_differ_in_length("black"@, "magenta"@);
        assert(color_code("black"@) == Some(black_code()));
        assert(black_code() =~= seq!['3', decimal_digit(0)]);
    } else if i == 1 {
        assert(names[1] == "red"@);
        assert(color_code("red"@) == Some(red_code()));
        assert(red_code() =~= seq!['3', decimal_digit(1)]);
    } else if i == 2 {
        assert(names[2] == "green"@);
        lemma_texts_differ_in_length("green"@, "red"@);
        assert(color_code("green"@) == Some(green_code()));
        assert(green_code() =~= seq!['3', decimal_digit(2)]);
    } else if i == 3 {
        assert(names[3] == "yellow"@);
        lemma_texts_differ_in_length("yellow"@, "red"@);
        lemma_texts_differ_in_length("yellow"@, "green"@);
        lemma_texts_differ_in_length("yellow"@, "blue"@);
        assert(color_code("yellow"@) == Some(yellow_code()));
        assert(yellow_code() =~= seq!['3', decimal_digit(3)]);
    } else if i == 4 {
        assert(names[4] == "blue"@);
        lemma_texts_differ_in_length("blue"@, "red"@);
        lemma_texts_differ_in_length("blue"@, "green"@);
        assert(color_code("blue"@) == Some(blue_code()));
        assert(blue_code() =~= seq!['3', decimal_digit(4)]);
    } else if i == 5 {
        assert(names[5] == "magenta"@);
        lemma_texts_differ_in_length("magenta"@, "red"@);
        lemma_texts_differ_in_length("magenta"@, "green"@);
        lemma_texts_differ_in_length("magenta"@, "blue"@);
        lemma_texts_differ_in_length("magenta"@, "yellow"@);
        lemma_texts_differ_in_length("magenta"@, "cyan"@);
        assert(color_code("magenta"@) == Some(magenta_code()));
        assert(magenta_code() =~= seq!['3', decimal_digit(5)]);
    } else if i == 6 {
        assert(names[6] == "cyan"@);
        lemma_texts_differ_at("cyan"@, "blue"@, 0);
        lemma_texts_differ_in_length("cyan"@, "red"@);
        lemma_texts_differ_in_length("cyan"@, "green"@);
        lemma_texts_differ_in_length("cyan"@, "yellow"@);
        assert(color_code("cyan"@) == Some(cyan_code()));
        assert(cyan_code() =~= seq!['3', decimal_digit(6)]);
    } else if i == 7 {
        assert(names[7] == "white"@);
        lemma_texts_differ_at("white"@, "green"@, 0);
        lemma_texts_differ_in_length("white"@, "red"@);
        lemma_texts_differ_in_length("white"@, "blue"@);
        lemma_texts_differ_in_length("white"@, "yellow"@);
        lemma_texts_differ_in_length("white"@, "cyan"@);
        lemma_texts_differ_in_length("white"@, "magenta"@);
        assert(color_code("white"@) == Some(white_code()));
        assert(white_code() =~= seq!['3', decimal_digit(7)]);
    }
}

/// Each style of the terminal is selected by its number.
pub proof fn lemma_style_code_is_terminal_number(i: int)
    requires
        0 <= i < terminal_styles().len(),
    ensures
        style_code(terminal_styles()[i].0) == Some(seq![decimal_digit(terminal_styles()[i].1)]),
{
    reveal_strlit("bold");
    reveal_strlit("dimmed");
    reveal_strlit("italic");
    reveal_strlit("underline");
    reveal_strlit("blink");
    reveal_strlit("reversed");
    reveal_strlit("hidden");
    reveal_strlit("strikethrough");
    let styles = terminal_styles();
    if i == 0 {
        assert(styles[0] == ("bold"@, 1int));
        assert(style_code("bold"@) == Some(bold_code()));
        assert(bold_code() =~= seq![decimal_digit(1)]);
    } else if i == 1 {
        assert(styles[1] == ("dimmed"@, 2int));
        lemma_texts_differ_in_length("dimmed"@, "bold"@);
        assert(style_code("dimmed"@) == Some(dimmed_code()));
        assert(dimmed_code() =~= seq![decimal_digit(2)]);
    } else if i == 2 {
        assert(styles[2] == ("italic"@, 3int));
        lemma_texts_differ_at("italic"@, "dimmed"@, 0);
        lemma_texts_differ_in_length("italic"@, "bold"@);
        lemma_texts_differ_in_length("italic"@, "underline"@);
        lemma_texts_differ_in_length("italic"@, "reversed"@);
        assert(style_code("italic"@) == Some(italic_code()));
        assert(italic_code() =~= seq![decimal_digit(3)]);
    } else if i == 3 {
        assert(styles[3] == ("underline"@, 4int));
        lemma_texts_differ_in_length("underline"@, "bold"@);
        lemma_texts_differ_in_length("underline"@, "dimmed"@);
        assert(style_code("underline"@) == Some(underline_code()));
        assert(underline_code() =~= seq![decimal_digit(4)]);
    } else if i == 4 {
        assert(styles[4] == ("blink"@, 5int));
        lemma_texts_differ_in_length("blink"@, "bold"@);
        lemma_texts_differ_in_length("blink"@, "dimmed"@);
        lemma_texts_differ_in_length("blink"@, "underline"@);
        lemma_texts_differ_in_length("blink"@, "reversed"@);
        lemma_texts_differ_in_length("blink"@, "italic"@);
        assert(style_code("blink"@) == Some(blink_code()));
        assert(blink_code() =~= seq![decimal_digit(5)]);
    } else if i == 5 {
        assert(styles[5] == ("reversed"@, 7int));
        lemma_texts_differ_in_length("reversed"@, "bold"@);
        lemma_texts_differ_in_length("reversed"@, "dimmed"@);
        lemma_texts_differ_in_length("reversed"@, "underline"@);
        assert(style_code("reversed"@) == Some(reversed_code()));
        assert(reversed_code() =~= seq![decimal_digit(7)]);
    } else if i == 6 {
        assert(styles[6] == ("hidden"@, 8int));
        lemma_texts_differ_at("hidden"@, "dimmed"@, 0);
        lemma_texts_differ_at("hidden"@, "italic"@, 0);
        lemma_texts_differ_in_length("hidden"@, "bold"@);
        lemma_texts_differ_in_length("hidden"@, "underline"@);
        lemma_texts_differ_in_length("hidden"@, "reversed"@);
        lemma_texts_differ_in_length("hidden"@, "blink"@);
        assert(style_code("hidden"@) == Some(hidden_code()));
        assert(hidden_code() =~= seq![decimal_digit(8)]);
    } else if i == 7 {
        assert(styles[7] == ("strikethrough"@, 9int));
        lemma_texts_differ_in_length("strikethrough"@, "bold"@);
        lemma_texts_differ_in_length("strikethrough"@, "dimmed"@);
        lemma_texts_differ_in_length("strikethrough"@, "underline"@);
        lemma_texts_differ_in_length("strikethrough"@, "reversed"@);
        lemma_texts_differ_in_length("strikethrough"@, "italic"@);
        lemma_texts_differ_in_length("strikethrough"@, "blink"@);
        lemma_texts_differ_in_length("strikethrough"@, "hidden"@);
        assert(style_code("strikethrough"@) == Some(strikethrough_code()));
        assert(strikethrough_code() =~= seq![decimal_digit(9)]);
    }
}

/// Distinct colour names are shown in distinct colours.
pub proof fn lemma_color_codes_are_distinct(a: Seq<char>, b: Seq<char>)
    requires
        color_code(a) is Some,
        color_code(b) is Some,
        a != b,
    ensures
        color_code(a) != color_code(b),
{
    reveal_strlit("black");
    reveal_strlit("red");
    reveal_strlit("green");
    reveal_strlit("yellow");
    reveal_strlit("blue");
    reveal_strlit("magenta");
    reveal_strlit("cyan");
    reveal_strlit("white");
    let ca = color_code(a)->0;
    let cb = color_code(b)->0;
    if ca == cb {
        assert(ca[1] == cb[1]);
    }
}

/// Distinct style names are shown in distinct styles.
pub proof fn lemma_style_codes_are_distinct(a: Seq<char>, b: Seq<char>)
    requires
        style_code(a) is Some,
        style_code(b) is Some,
        a != b,
    ensures
        style_code(a) != style_code(b),
{
    reveal_strlit("bold");
    reveal_strlit("dimmed");
    reveal_strlit("italic");
    reveal_strlit("underline");
    reveal_strlit("blink");
    reveal_strlit("reversed");
    reveal_strlit("hidden");
    reveal_strlit("strikethrough");
    let ca = style_code(a)->0;
    let cb = style_code(b)->0;
    if ca == cb {
        assert(ca[0] == cb[0]);
    }
}

/// `text` in the colour that an extension names, in any case; the text
/// itself when the colour is not known.
pub fn apply_color(text: &str, color: &str) -> (res: String)
    ensures
        match color_code(spec_to_lowercase(color@)) {
            Some(code) => styled_with(res@, text@, code),
            None => res@ == text@,
        },
{
    let name = to_lowercase(color);
    if is_named(&name, "red") {
        red(text)
    } else if is_named(&name, "green") {
        green(text)
    } else if is_named(&name, "blue") {
        blue(text)
    } else if is_named(&name, "yellow") {
        yellow(text)
    } else if is_named(&name, "cyan") {
        cyan(text)
    } else if is_named(&name, "magenta") {
        magenta(text)
    } else if is_named(&name, "white") {
        white(text)
    } else if is_named(&name, "black") {
        black(text)
    } else {
        text.to_owned()
    }
}

/// `text` in the style that an extension names, in any case; the text
/// itself when the style is not known.
pub fn apply_style(text: &str, style: &str) -> (res: String)
    ensures
        match style_code(spec_to_lowercase(style@)) {
            Some(code) => styled_with(res@, text@, code),
            None => res@ == text@,
        },
{
    let name = to_lowercase(style);
    if is_named(&name, "bold") {
        bold(text)
    } else if is_named(&name, "dimmed") {
        dimmed(text)
    } else if is_named(&name, "underline") {
        underline(text)
    } else if is_named(&name, "reversed") {
        reversed(text)
    } else if is_named(&name, "italic") {
        italic(text)
    } else if is_named(&name, "blink") {
        blink(text)
    } else if is_named(&name, "hidden") {
        hidden(text)
    } else if is_named(&name, "strikethrough") {
        strikethrough(text)
    } else {
        text.to_owned()
    }
}

/// The result after the intercepting extension answered: its replacement
/// when it gave one, else the result unchanged.
pub fn apply_interception(result: &mut SearchResult, answer: Option<SearchResult>)
    ensures
        match answer {
            Some(replacement) => *final(result) == replacement,
            None => *final(result) == *old(result),
        },
{
    if let Some(replacement) = answer {
        *result = replacement;
    }
}

/// What to do next while an extension formats a list item by item.
pub enum FormattingStep {
    /// Ask the extension to format the next item.
    FormatNext,
    /// Stop: the items as the extension formatted them, or nothing when it
    /// declined an item (the items are then shown as usual).
    Finish(Option<Vec<String>>),
}

/// A list that an extension formats item by item: how many items there
/// are and what the extension made of those before.
pub struct ListFormatting {
    items: usize,
    formatted: Vec<String>,
}

impl ListFormatting {
    /// The number of items of the list.
    pub closed spec fn items(&self) -> nat {
        self.items as nat
    }

    /// What the extension made of the items so far.
    pub closed spec fn formatted(&self) -> Seq<Seq<char>> {
        self.formatted@.map_values(|s: String| s@)
    }

    /// The formatting of `items` items; when there are none it is done at
    /// once, with nothing to show.
    pub fn start(items: usize) -> (res: (ListFormatting, FormattingStep))
        ensures
            res.0.items() == items,
            res.0.formatted() == Seq::<Seq<char>>::empty(),
            items == 0 ==> (res.1 matches FormattingStep::Finish(Some(v)) && v@.len() == 0),
            items > 0 ==> res.1 is FormatNext,
    {
        let state = ListFormatting { items, formatted: Vec::new() };
        assert(state.formatted() =~= Seq::<Seq<char>>::empty());
        if items == 0 {
            (state, FormattingStep::Finish(Some(Vec::new())))
        } else {
            (state, FormattingStep::FormatNext)
        }
    }

    /// Takes the extension's answer for the next item: a declined item ends
    /// the formatting with nothing; the last formatted item ends it with all
    /// of them, in order.
    pub fn answer(self, formatted: Option<String>) -> (res: (ListFormatting, FormattingStep))
        requires
            self.formatted().len() < self.items(),
        ensures
            res.0.items() == self.items(),
            formatted is None ==> (res.1 matches FormattingStep::Finish(v) && v is None),
            formatted matches Some(text) ==> (self.formatted().len() + 1 < self.items() ==> (res.1 is FormatNext
                && res.0.formatted() == self.formatted().push(text@))),
            formatted matches Some(text) ==> (self.formatted().len() + 1 == self.items() ==> (
            res.1 matches FormattingStep::Finish(Some(v)) && v@.map_values(|s: String| s@)
                == self.formatted().push(text@))),
    {
        let ListFormatting { items, formatted: mut done } = self;
        let ghost before = done@.map_values(|s: String| s@);
        match formatted {
            None => (ListFormatting { items, formatted: done }, FormattingStep::Finish(None)),
            Some(text) => {
                let ghost t = text@;
                done.push(text);
                assert(done@.map_values(|s: String| s@) =~= before.push(t));
                if done.len() == items {
                    (ListFormatting { items, formatted: Vec::new() }, FormattingStep::Finish(Some(done)))
                } else {
                    (ListFormatting { items, formatted: done }, FormattingStep::FormatNext)
                }
            },
        }
    }
}

} // verus!
