//! Joining, wrapping and indenting text, and formatting integers.
use vstd::prelude::*;
use crate::style::{Style, StyledText};

verus! {

/// The line separator of formatted text.
pub open spec fn newline() -> Seq<char> {
    seq!['\n']
}

/// A string that holds the line separator.
pub fn newline_string() -> (res: String)
    ensures
        res@ == newline(),
{
    let mut res = String::new();
    push_char(&mut res, '\n');
    res
}

/// The width at which formatted text is wrapped.
pub const LINE_WRAP_AT: usize = 80;

/// The pieces of `list` with `separator` between each two of them.
pub open spec fn join_seq(list: Seq<Seq<char>>, separator: Seq<char>) -> Seq<char>
    decreases list.len(),
{
    if list.len() == 0 {
        Seq::empty()
    } else if list.len() == 1 {
        list[0]
    } else {
        join_seq(list.drop_last(), separator) + separator + list.last()
    }
}

/// The text of each string of `list`.
pub open spec fn views(list: Seq<String>) -> Seq<Seq<char>> {
    list.map_values(|s: String| s@)
}

/// Appends a character to a string: `String::push`.
#[verifier::external_body]
pub(crate) fn push_char(s: &mut String, c: char)
    ensures
        final(s)@ == old(s)@.push(c),
{
    s.push(c);
}

/// Appends `other` to `s`.
pub fn push_str(s: &mut String, other: &str)
    ensures
        final(s)@ == old(s)@ + other@,
{
    s.append(other);
}

/// A string that holds `a` followed by `b`.
pub fn concat(a: &str, b: &str) -> (res: String)
    ensures
        res@ == a@ + b@,
{
    let mut res = a.to_owned();
    res.append(b);
    res
}

/// Joining a list of values with the value itself as separator.
pub trait Join {
    fn join(&self, list: Vec<Self>) -> Self where Self: Sized;
}

/// Joining a list of values and wrapping the result at a width.
pub trait JoinWrap {
    fn joinwrap(&self, list: Vec<Self>, width: usize) -> Self where Self: Sized;
}

impl Join for String {
    /// The strings of `list`, with `self` between each two of them.
    fn join(&self, list: Vec<String>) -> (res: String)
        ensures
            res@ == join_seq(views(list@), self@),
    {
        let mut res = String::new();
        let len = list.len();
        let mut i: usize = 0;
        while i < len
            invariant
                len == list@.len(),
                i <= len,
                res@ == join_seq(views(list@).take(i as int), self@),
            decreases len - i,
        {
            if i > 0 {
                res.append(self.as_str());
            }
            res.append(list[i].as_str());
            proof {
                let vs = views(list@);
                let taken = vs.take(i + 1);
                assert(taken.drop_last() =~= vs.take(i as int));
                if i == 0 {
                    assert(vs.take(0).len() == 0);
                    assert(taken.len() == 1);
                }
            }
            i = i + 1;
        }
        assert(views(list@).take(len as int) =~= views(list@));
        res
    }
}

/// What `textwrap::fill` makes of `text` at `width`: the words of the text
/// put on lines no wider than `width` where that can be done.
pub uninterp spec fn spec_fill(text: Seq<char>, width: usize) -> Seq<char>;

/// A character with Unicode's `White_Space` property, which
/// `char::is_whitespace`, and with it `str::trim`, tests for.
pub open spec fn is_white_space(c: char) -> bool {
    let n = c as u32;
    ||| 0x9 <= n <= 0xd
    ||| n == 0x20
    ||| n == 0x85
    ||| n == 0xa0
    ||| n == 0x1680
    ||| 0x2000 <= n <= 0x200a
    ||| n == 0x2028
    ||| n == 0x2029
    ||| n == 0x202f
    ||| n == 0x205f
    ||| n == 0x3000
}

/// A line that holds nothing but white space.
pub open spec fn is_blank(line: Seq<char>) -> bool {
    forall|i: int| 0 <= i < line.len() ==> is_white_space(#[trigger] line[i])
}

/// `s` without the white space at its end: `str::trim_end`.
pub open spec fn trim_end_white_space(s: Seq<char>) -> Seq<char>
    decreases s.len(),
{
    if s.len() > 0 && is_white_space(s.last()) {
        trim_end_white_space(s.drop_last())
    } else {
        s
    }
}

/// The length of the first line of `text`: the characters before its
/// first line break, or all of them.
pub open spec fn first_line_len(text: Seq<char>) -> nat
    decreases text.len(),
{
    if text.len() == 0 || text[0] == '\n' {
        0
    } else {
        1 + first_line_len(text.drop_first())
    }
}

/// What `textwrap::indent` makes of `text` with `prefix` in front of lines:
/// each line (the text split at its line breaks, a break at the very end
/// ending the last line) gets the prefix in front, a blank line gets the
/// prefix without its white space at the end, and the line breaks stay.
pub open spec fn spec_indent(text: Seq<char>, prefix: Seq<char>) -> Seq<char>
    decreases text.len(),
{
    if text.len() == 0 {
        Seq::empty()
    } else {
        let k = first_line_len(text) as int;
        let line = text.take(k);
        let head = (if is_blank(line) {
            trim_end_white_space(prefix)
        } else {
            prefix
        }) + line;
        if k >= text.len() {
            head
        } else {
            head + seq!['\n'] + spec_indent(text.skip(k + 1), prefix)
        }
    }
}

/// `text` without the spaces at its end.
pub open spec fn trim_trailing_spaces(text: Seq<char>) -> Seq<char>
    decreases text.len(),
{
    if text.len() > 0 && text.last() == ' ' {
        trim_trailing_spaces(text.drop_last())
    } else {
        text
    }
}

/// `textwrap::fill(text, width)`. Its result is named by `spec_fill`; a text
/// shorter (in UTF-8 bytes) than the width and without a line break comes
/// back with its trailing spaces trimmed, as the crate's fast path shows.
#[verifier::external_body]
fn textwrap_fill(text: &str, width: usize) -> (res: String)
    ensures
        res@ == spec_fill(text@, width),
        !text@.contains('\n') && vstd::utf8::encode_utf8(text@).len() < width ==> res@
            == trim_trailing_spaces(text@),
{
    textwrap::fill(text, width)
}

/// `textwrap::indent(text, prefix)`: the text split at its line breaks, each
/// line after the prefix, or after the prefix trimmed of its white space at
/// the end when the line is blank, as the crate's source shows.
#[verifier::external_body]
fn textwrap_indent(text: &str, prefix: &str) -> (res: String)
    ensures
        res@ == spec_indent(text@, prefix@),
{
    textwrap::indent(text, prefix)
}

/// `text` wrapped at `width`.
pub fn wrap(text: &str, width: usize) -> (res: String)
    ensures
        res@ == spec_fill(text@, width),
        !text@.contains('\n') && vstd::utf8::encode_utf8(text@).len() < width ==> res@
            == trim_trailing_spaces(text@),
{
    textwrap_fill(text, width)
}

/// The indentation prefix: one space.
pub open spec fn indent_prefix() -> Seq<char> {
    seq![' ']
}

/// `text` with each line indented by one space.
pub fn indent(text: &str) -> (res: String)
    ensures
        res@ == spec_indent(text@, indent_prefix()),
{
    let mut prefix = String::new();
    push_char(&mut prefix, ' ');
    textwrap_indent(text, prefix.as_str())
}

impl JoinWrap for String {
    /// The strings of `list` joined by `self`, wrapped at `width`.
    fn joinwrap(&self, list: Vec<String>, width: usize) -> (res: String)
        ensures
            res@ == spec_fill(join_seq(views(list@), self@), width),
    {
        let text = self.join(list);
        wrap(text.as_str(), width)
    }
}

/// The character of a decimal digit.
pub open spec fn digit_char(d: nat) -> char {
    (48 + d) as char
}

/// The decimal representation of `n`, without leading zeros.
pub open spec fn decimal(n: nat) -> Seq<char>
    decreases n,
{
    if n < 10 {
        seq![digit_char(n)]
    } else {
        decimal(n / 10).push(digit_char(n % 10))
    }
}

/// `digits` with a comma before each group of three from the right.
pub open spec fn group_thousands(digits: Seq<char>) -> Seq<char>
    decreases digits.len(),
{
    if digits.len() <= 3 {
        digits
    } else {
        group_thousands(digits.take(digits.len() - 3)) + seq![','] + digits.skip(
            digits.len() - 3,
        )
    }
}

fn digit_to_char(d: usize) -> (c: char)
    requires
        d < 10,
    ensures
        c == digit_char(d as nat),
{
    let b: u8 = 48 + d as u8;
    b as char
}

/// The decimal representation of `n`.
pub fn usize_to_string(n: usize) -> (res: String)
    ensures
        res@ == decimal(n as nat),
    decreases n,
{
    if n < 10 {
        let mut res = String::new();
        push_char(&mut res, digit_to_char(n));
        res
    } else {
        let mut res = usize_to_string(n / 10);
        push_char(&mut res, digit_to_char(n % 10));
        res
    }
}

fn group_prefix(digits: &Vec<char>, end: usize) -> (res: String)
    requires
        end <= digits@.len(),
    ensures
        res@ == group_thousands(digits@.take(end as int)),
    decreases end,
{
    if end <= 3 {
        let mut res = String::new();
        let mut i: usize = 0;
        while i < end
            invariant
                i <= end <= digits@.len(),
                res@ == digits@.take(i as int),
            decreases end - i,
        {
            push_char(&mut res, digits[i]);
            assert(digits@.take(i + 1) =~= digits@.take(i as int).push(digits@[i as int]));
            i = i + 1;
        }
        res
    } else {
        let mut res = group_prefix(digits, end - 3);
        push_char(&mut res, ',');
        let mut i: usize = end - 3;
        let ghost head = res@;
        while i < end
            invariant
                end > 3,
                end - 3 <= i <= end <= digits@.len(),
                res@ == head + digits@.subrange(end - 3, i as int),
            decreases end - i,
        {
            push_char(&mut res, digits[i]);
            assert(digits@.subrange(end - 3, i + 1) =~= digits@.subrange(end - 3, i as int).push(
                digits@[i as int],
            ));
            i = i + 1;
        }
        proof {
            let t = digits@.take(end as int);
            assert(t.take(t.len() - 3) =~= digits@.take(end - 3));
            assert(t.skip(t.len() - 3) =~= digits@.subrange(end - 3, end as int));
        }
        res
    }
}

fn string_chars(s: &str) -> (res: Vec<char>)
    ensures
        res@ == s@,
{
    let mut res: Vec<char> = Vec::new();
    let n = s.unicode_len();
    let mut i: usize = 0;
    while i < n
        invariant
            n == s@.len(),
            i <= n,
            res@ == s@.take(i as int),
        decreases n - i,
    {
        res.push(s.get_char(i));
        assert(s@.take(i + 1) =~= s@.take(i as int).push(s@[i as int]));
        i = i + 1;
    }
    assert(s@.take(n as int) =~= s@);
    res
}

/// The characters of a string.
pub fn chars_of(s: &str) -> (res: Vec<char>)
    ensures
        res@ == s@,
{
    string_chars(s)
}

/// `number` in decimal with its digits grouped by three with commas, in
/// yellow: `1000000` reads `1,000,000`.
pub fn format_integer(number: usize) -> (res: StyledText)
    ensures
        res.text@ == group_thousands(decimal(number as nat)),
        res.style == Style::Yellow,
{
    let digits = string_chars(usize_to_string(number).as_str());
    let grouped = group_prefix(&digits, digits.len());
    assert(digits@.take(digits@.len() as int) =~= digits@);
    StyledText { text: grouped, style: Style::Yellow }
}

/// `n` spaces.
pub open spec fn spaces(n: nat) -> Seq<char> {
    Seq::new(n, |i: int| ' ')
}

/// A line of `LINE_WRAP_AT` spaces, struck through.
pub fn horizontal_line() -> (res: StyledText)
    ensures
        res.text@ == spaces(LINE_WRAP_AT as nat),
        res.style == Style::Strikethrough,
{
    let mut line = String::new();
    let mut i: usize = 0;
    while i < LINE_WRAP_AT
        invariant
            i <= LINE_WRAP_AT,
            line@ == spaces(i as nat),
        decreases LINE_WRAP_AT - i,
    {
        push_char(&mut line, ' ');
        assert(line@ =~= spaces((i + 1) as nat));
        i = i + 1;
    }
    StyledText { text: line, style: Style::Strikethrough }
}

} // verus!

verus! {

/// `a` comes before `b`, or is equal to it, in the lexicographic order of
/// their characters (the order of `str` in Rust, which compares the UTF-8
/// bytes and so orders by code points).
pub open spec fn lex_le(a: Seq<char>, b: Seq<char>) -> bool
    decreases a.len(),
{
    if a.len() == 0 {
        true
    } else if b.len() == 0 {
        false
    } else if a[0] != b[0] {
        (a[0] as u32) < (b[0] as u32)
    } else {
        lex_le(a.drop_first(), b.drop_first())
    }
}

/// Any two texts are ordered one way or the other.
pub proof fn lemma_lex_total(a: Seq<char>, b: Seq<char>)
    ensures
        lex_le(a, b) || lex_le(b, a),
    decreases a.len(),
{
    if a.len() > 0 && b.len() > 0 {
        if a[0] == b[0] {
            lemma_lex_total(a.drop_first(), b.drop_first());
        } else {
            let x = a[0] as u32;
            let y = b[0] as u32;
            vstd::utf8::char_u32_cast(a[0], x);
            vstd::utf8::char_u32_cast(b[0], y);
            assert(x != y);
        }
    }
}

/// The lexicographic order is transitive.
pub proof fn lemma_lex_transitive(a: Seq<char>, b: Seq<char>, c: Seq<char>)
    requires
        lex_le(a, b),
        lex_le(b, c),
    ensures
        lex_le(a, c),
    decreases a.len(),
{
    if a.len() > 0 && b.len() > 0 && c.len() > 0 && a[0] == b[0] && b[0] == c[0] {
        lemma_lex_transitive(a.drop_first(), b.drop_first(), c.drop_first());
    }
}

/// Whether `a` comes before `b` or is equal to it.
pub fn lex_less_or_equal(a: &str, b: &str) -> (res: bool)
    ensures
        res == lex_le(a@, b@),
{
    let ca = chars_of(a);
    let cb = chars_of(b);
    let mut i: usize = 0;
    assert(a@.skip(0) =~= a@);
    assert(b@.skip(0) =~= b@);
    while i < ca.len()
        invariant
            ca@ == a@,
            cb@ == b@,
            i <= ca@.len(),
            i <= cb@.len(),
            forall|j: int| 0 <= j < i ==> ca@[j] == cb@[j],
            lex_le(a@, b@) == lex_le(a@.skip(i as int), b@.skip(i as int)),
        decreases ca@.len() - i,
    {
        if i >= cb.len() {
            return false;
        }
        if ca[i] != cb[i] {
            return (ca[i] as u32) < (cb[i] as u32);
        }
        assert(a@.skip(i as int).drop_first() =~= a@.skip(i + 1));
        assert(b@.skip(i as int).drop_first() =~= b@.skip(i + 1));
        i = i + 1;
    }
    true
}

} // verus!

verus! {

/// Joining one piece gives that piece; joining none gives nothing.
pub proof fn lemma_join_single(piece: Seq<char>, separator: Seq<char>)
    ensures
        join_seq(seq![piece], separator) == piece,
        join_seq(Seq::<Seq<char>>::empty(), separator) == Seq::<char>::empty(),
{
}

/// The characters other than commas of a grouped number are its digits.
pub open spec fn without_commas(s: Seq<char>) -> Seq<char>
    decreases s.len(),
{
    if s.len() == 0 {
        s
    } else if s.last() == ',' {
        without_commas(s.drop_last())
    } else {
        without_commas(s.drop_last()).push(s.last())
    }
}

proof fn lemma_without_commas_concat(a: Seq<char>, b: Seq<char>)
    ensures
        without_commas(a + b) == without_commas(a) + without_commas(b),
    decreases b.len(),
{
    if b.len() == 0 {
        assert(a + b =~= a);
        assert(without_commas(a) + without_commas(b) =~= without_commas(a));
    } else {
        lemma_without_commas_concat(a, b.drop_last());
        assert((a + b).drop_last() =~= a + b.drop_last());
        assert((a + b).last() == b.last());
    }
}

/// A digit is no comma.
pub proof fn lemma_decimal_has_no_comma(n: nat)
    ensures
        without_commas(decimal(n)) == decimal(n),
        forall|i: int| 0 <= i < decimal(n).len() ==> #[trigger] decimal(n)[i] != ',',
    decreases n,
{
    reveal_with_fuel(without_commas, 2);
    let d = n % 10;
    assert(digit_char(d) as u32 == 48 + d);
    assert(digit_char(d) != ',');
    if n >= 10 {
        lemma_decimal_has_no_comma(n / 10);
        assert(decimal(n).drop_last() == decimal(n / 10));
        assert(decimal(n).last() == digit_char(d));
    } else {
        assert(decimal(n) == seq![digit_char(d)]);
        assert(decimal(n).drop_last() =~= Seq::<char>::empty());
    }
}

/// Grouping the digits adds only commas: without them the digits remain.
pub proof fn lemma_grouping_keeps_digits(digits: Seq<char>)
    requires
        forall|i: int| 0 <= i < digits.len() ==> #[trigger] digits[i] != ',',
    ensures
        without_commas(group_thousands(digits)) == without_commas(digits),
    decreases digits.len(),
{
    if digits.len() > 3 {
        let head = digits.take(digits.len() - 3);
        let tail = digits.skip(digits.len() - 3);
        lemma_grouping_keeps_digits(head);
        lemma_without_commas_concat(group_thousands(head), seq![',']);
        lemma_without_commas_concat(group_thousands(head) + seq![','], tail);
        lemma_without_commas_concat(head, tail);
        assert(head + tail =~= digits);
        reveal_with_fuel(without_commas, 2);
        assert(seq![','].drop_last() =~= Seq::<char>::empty());
        assert(without_commas(seq![',']) == Seq::<char>::empty());
    }
}

} // verus!
