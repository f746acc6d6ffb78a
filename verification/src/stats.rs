//! The statistics of a dictionary file as they are displayed: its path, the
//! number of its entries and its size.
use vstd::prelude::*;
use crate::render::{Piece, renders_all, join_pieces, cat, plain, lemma_renders_styled,
    lemma_renders_plain, lemma_renders_join};
use crate::style::{green, green_code, yellow_code};
use crate::text::{newline, newline_string, spaces, decimal, group_thousands, format_integer,
    push_char, chars_of, Join};

verus! {

/// The width to which the labels of the statistics are padded.
pub const LABEL_WIDTH: usize = 19;

/// `text` padded with spaces at its end to `width` characters.
pub open spec fn pad_right(text: Seq<char>, width: nat) -> Seq<char> {
    if text.len() >= width {
        text
    } else {
        text + spaces((width - text.len()) as nat)
    }
}

/// `text` padded with spaces at its end to `width` characters.
pub fn pad(text: &str, width: usize) -> (res: String)
    ensures
        res@ == pad_right(text@, width as nat),
{
    let chars = chars_of(text);
    let mut res = text.to_owned();
    let mut n: usize = chars.len();
    let ghost start: nat = n as nat;
    while n < width
        invariant
            start == text@.len(),
            start <= n,
            n <= start || n <= width,
            start < width ==> n <= width,
            start >= width ==> n == start,
            res@ == text@ + spaces((n - start) as nat),
        decreases width - n,
    {
        push_char(&mut res, ' ');
        assert(spaces((n + 1 - start) as nat) =~= spaces((n - start) as nat).push(' '));
        n = n + 1;
    }
    proof {
        if start >= width {
            assert(text@ + spaces(0) =~= text@);
        }
    }
    res
}

/// A line of the statistics: the label, padded and in green, a colon and
/// the value.
pub open spec fn stat_line(label: Seq<char>, value: Seq<Piece>) -> Seq<Piece> {
    seq![Piece::Styled(green_code(), pad_right(label, LABEL_WIDTH as nat)), Piece::Plain(": "@)] + value
}

/// The lines of the statistics: the dictionary file, and the number of its
/// entries and its size (in units of 1024 bytes) when they are known, the
/// numbers grouped by thousands and in yellow.
pub open spec fn stats_lines(path: Seq<char>, entries: Option<usize>, size: Option<usize>) -> Seq<
    Seq<Piece>,
> {
    seq![stat_line("dictionary file"@, seq![Piece::Plain(path)])] + (match entries {
        Some(n) => seq![
            stat_line(
                "dictionary entries"@,
                seq![Piece::Styled(yellow_code(), group_thousands(decimal(n as nat)))],
            ),
        ],
        None => Seq::empty(),
    }) + (match size {
        Some(s) => seq![
            stat_line(
                "dictionary size"@,
                seq![Piece::Styled(yellow_code(), group_thousands(decimal(s as nat))), Piece::Plain(" MB"@)],
            ),
        ],
        None => Seq::empty(),
    })
}

/// The statistics as they are displayed: their lines, one below the other.
pub open spec fn stats_template(path: Seq<char>, entries: Option<usize>, size: Option<usize>) -> Seq<
    Piece,
> {
    join_pieces(stats_lines(path, entries, size), seq![Piece::Plain(newline())])
}

fn label(text: &str) -> (res: String)
    ensures
        renders_all(res@, seq![Piece::Styled(green_code(), pad_right(text@, LABEL_WIDTH as nat))]),
{
    let padded = pad(text, LABEL_WIDTH);
    let res = green(padded.as_str());
    proof {
        lemma_renders_styled(res@, green_code(), padded@);
    }
    res
}

fn line(name: &str, value: String, Ghost(value_template): Ghost<Seq<Piece>>) -> (res: String)
    requires
        renders_all(value@, value_template),
    ensures
        renders_all(res@, stat_line(name@, value_template)),
{
    let head = label(name);
    proof {
        lemma_renders_plain(": "@);
    }
    let ghost head_template = seq![Piece::Styled(green_code(), pad_right(name@, LABEL_WIDTH as nat))];
    let ghost colon_template = seq![Piece::Plain(": "@)];
    let with_colon = cat(head, ": ", Ghost(head_template), Ghost(colon_template));
    assert(head_template + colon_template + value_template =~= stat_line(name@, value_template));
    cat(with_colon, value.as_str(), Ghost(head_template + colon_template), Ghost(value_template))
}

/// The statistics of the dictionary file at `path`, as they are displayed.
pub fn stats_text(path: &str, number_of_entries: Option<usize>, file_size: Option<usize>) -> (res:
    String)
    ensures
        renders_all(res@, stats_template(path@, number_of_entries, file_size)),
{
    let mut lines: Vec<String> = Vec::new();
    let ghost mut templates: Seq<Seq<Piece>> = Seq::empty();
    proof {
        lemma_renders_plain(path@);
    }
    let ghost path_template = seq![Piece::Plain(path@)];
    let first = line("dictionary file", plain(path), Ghost(path_template));
    lines.push(first);
    proof {
        templates = templates.push(stat_line("dictionary file"@, seq![Piece::Plain(path@)]));
    }
    assert(lines@.len() == templates.len() && forall|i: int|
        0 <= i < lines@.len() ==> renders_all(#[trigger] lines@[i]@, templates[i]));
    if let Some(n) = number_of_entries {
        let number = format_integer(n).to_string();
        proof {
            lemma_renders_styled(number@, yellow_code(), group_thousands(decimal(n as nat)));
        }
        let ghost number_template = seq![Piece::Styled(yellow_code(), group_thousands(decimal(n as nat)))];
        let l = line("dictionary entries", number, Ghost(number_template));
        lines.push(l);
        proof {
            templates = templates.push(
                stat_line(
                    "dictionary entries"@,
                    seq![Piece::Styled(yellow_code(), group_thousands(decimal(n as nat)))],
                ),
            );
        }
        assert(lines@.len() == templates.len() && forall|i: int|
            0 <= i < lines@.len() ==> renders_all(#[trigger] lines@[i]@, templates[i]));
    }
    if let Some(s) = file_size {
        let number = format_integer(s).to_string();
        proof {
            lemma_renders_styled(number@, yellow_code(), group_thousands(decimal(s as nat)));
            lemma_renders_plain(" MB"@);
        }
        let ghost number_template = seq![Piece::Styled(yellow_code(), group_thousands(decimal(s as nat)))];
        let ghost unit_template = seq![Piece::Plain(" MB"@)];
        let value = cat(number, " MB", Ghost(number_template), Ghost(unit_template));
        assert(number_template + unit_template =~= seq![
            Piece::Styled(yellow_code(), group_thousands(decimal(s as nat))),
            Piece::Plain(" MB"@),
        ]);
        let l = line("dictionary size", value, Ghost(number_template + unit_template));
        lines.push(l);
        proof {
            templates = templates.push(
                stat_line(
                    "dictionary size"@,
                    seq![Piece::Styled(yellow_code(), group_thousands(decimal(s as nat))), Piece::Plain(" MB"@)],
                ),
            );
        }
        assert(lines@.len() == templates.len() && forall|i: int|
            0 <= i < lines@.len() ==> renders_all(#[trigger] lines@[i]@, templates[i]));
    }
    assert(templates =~= stats_lines(path@, number_of_entries, file_size));
    let separator = newline_string();
    let ghost texts = lines@.map_values(|l: String| l@);
    assert forall|i: int| 0 <= i < texts.len() implies renders_all(#[trigger] texts[i], templates[i]) by {
        assert(texts[i] == lines@[i]@);
    }
    proof {
        lemma_renders_plain(newline());
        lemma_renders_join(texts, templates, separator@, seq![Piece::Plain(newline())]);
    }
    separator.join(lines)
}

} // verus!
