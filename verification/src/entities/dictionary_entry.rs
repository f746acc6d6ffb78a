//! A dictionary entry as an extract of Wiktionary describes it.
use vstd::prelude::*;
use crate::text::views;

verus! {

/// An entry of the dictionary: a word, its part of speech and what is
/// known of it.
#[derive(Clone, Debug)]
pub struct DictionaryEntry {
    pub lang_code: String,
    pub word: String,
    pub senses: Vec<Sense>,
    pub pos: String,
    pub translations: Vec<Translation>,
    pub sounds: Vec<Sound>,
    pub etymology_text: Option<String>,
}

/// One sense of a word.
#[derive(Clone, Debug)]
pub struct Sense {
    pub glosses: Vec<String>,
    pub examples: Vec<Example>,
    pub tags: Vec<String>,
}

/// An example of the use of a word in one of its senses.
#[derive(Clone, Debug)]
pub struct Example {
    pub reference: Option<String>,
    pub text: Option<String>,
}

/// A translation of a word into a language.
#[derive(Clone, Debug)]
pub struct Translation {
    pub lang: String,
    pub code: Option<String>,
    pub word: Option<String>,
}

/// A pronunciation of a word.
#[derive(Clone, Debug)]
pub struct Sound {
    pub ipa: Option<String>,
    pub enpr: Option<String>,
    pub tags: Vec<String>,
}

/// The text of an optional string.
pub open spec fn opt_view(s: Option<String>) -> Option<Seq<char>> {
    match s {
        Some(s) => Some(s@),
        None => None,
    }
}


pub ghost struct ExampleView {
    pub reference: Option<Seq<char>>,
    pub text: Option<Seq<char>>,
}

pub ghost struct TranslationView {
    pub lang: Seq<char>,
    pub code: Option<Seq<char>>,
    pub word: Option<Seq<char>>,
}

pub ghost struct SoundView {
    pub ipa: Option<Seq<char>>,
    pub enpr: Option<Seq<char>>,
    pub tags: Seq<Seq<char>>,
}

pub ghost struct SenseView {
    pub glosses: Seq<Seq<char>>,
    pub examples: Seq<ExampleView>,
    pub tags: Seq<Seq<char>>,
}

pub ghost struct DictionaryEntryView {
    pub lang_code: Seq<char>,
    pub word: Seq<char>,
    pub senses: Seq<SenseView>,
    pub pos: Seq<char>,
    pub translations: Seq<TranslationView>,
    pub sounds: Seq<SoundView>,
    pub etymology_text: Option<Seq<char>>,
}

impl View for Example {
    type V = ExampleView;

    open spec fn view(&self) -> ExampleView {
        ExampleView { reference: opt_view(self.reference), text: opt_view(self.text) }
    }
}

impl View for Translation {
    type V = TranslationView;

    open spec fn view(&self) -> TranslationView {
        TranslationView { lang: self.lang@, code: opt_view(self.code), word: opt_view(self.word) }
    }
}

impl View for Sound {
    type V = SoundView;

    open spec fn view(&self) -> SoundView {
        SoundView {
            ipa: opt_view(self.ipa),
            enpr: opt_view(self.enpr),
            tags: views(self.tags@),
        }
    }
}

impl View for Sense {
    type V = SenseView;

    open spec fn view(&self) -> SenseView {
        SenseView {
            glosses: views(self.glosses@),
            examples: self.examples@.map_values(|e: Example| e@),
            tags: views(self.tags@),
        }
    }
}

impl View for DictionaryEntry {
    type V = DictionaryEntryView;

    open spec fn view(&self) -> DictionaryEntryView {
        DictionaryEntryView {
            lang_code: self.lang_code@,
            word: self.word@,
            senses: self.senses@.map_values(|s: Sense| s@),
            pos: self.pos@,
            translations: self.translations@.map_values(|t: Translation| t@),
            sounds: self.sounds@.map_values(|s: Sound| s@),
            etymology_text: opt_view(self.etymology_text),
        }
    }
}

/// A copy of an optional string.
pub fn copy_opt_string(s: &Option<String>) -> (res: Option<String>)
    ensures
        opt_view(res) == opt_view(*s),
{
    match s {
        Some(s) => Some(s.clone()),
        None => None,
    }
}

/// A copy of a list of strings.
pub fn copy_strings(list: &Vec<String>) -> (res: Vec<String>)
    ensures
        views(res@) == views(list@),
{
    let mut res: Vec<String> = Vec::new();
    for i in 0..list.len()
        invariant
            res@.len() == i,
            forall|j: int| 0 <= j < i ==> #[trigger] res@[j]@ == list@[j]@,
    {
        res.push(list[i].clone());
    }
    assert(views(res@) =~= views(list@));
    res
}

impl Example {
    /// A copy of the example.
    pub fn duplicate(&self) -> (res: Example)
        ensures
            res@ == self@,
    {
        Example { reference: copy_opt_string(&self.reference), text: copy_opt_string(&self.text) }
    }
}

impl Translation {
    /// A copy of the translation.
    pub fn duplicate(&self) -> (res: Translation)
        ensures
            res@ == self@,
    {
        Translation {
            lang: self.lang.clone(),
            code: copy_opt_string(&self.code),
            word: copy_opt_string(&self.word),
        }
    }
}

impl Sound {
    /// A copy of the sound.
    pub fn duplicate(&self) -> (res: Sound)
        ensures
            res@ == self@,
    {
        Sound {
            ipa: copy_opt_string(&self.ipa),
            enpr: copy_opt_string(&self.enpr),
            tags: copy_strings(&self.tags),
        }
    }
}

impl Sense {
    /// A copy of the sense.
    pub fn duplicate(&self) -> (res: Sense)
        ensures
            res@ == self@,
    {
        let mut examples: Vec<Example> = Vec::new();
        for i in 0..self.examples.len()
            invariant
                examples@.len() == i,
                forall|j: int| 0 <= j < i ==> #[trigger] examples@[j]@ == self.examples@[j]@,
        {
            examples.push(self.examples[i].duplicate());
        }
        let res = Sense {
            glosses: copy_strings(&self.glosses),
            examples,
            tags: copy_strings(&self.tags),
        };
        assert(res@.examples =~= self@.examples);
        res
    }
}

impl DictionaryEntry {
    /// A copy of the entry.
    pub fn duplicate(&self) -> (res: DictionaryEntry)
        ensures
            res@ == self@,
    {
        let mut senses: Vec<Sense> = Vec::new();
        for i in 0..self.senses.len()
            invariant
                senses@.len() == i,
                forall|j: int| 0 <= j < i ==> #[trigger] senses@[j]@ == self.senses@[j]@,
        {
            senses.push(self.senses[i].duplicate());
        }
        let mut translations: Vec<Translation> = Vec::new();
        for i in 0..self.translations.len()
            invariant
                translations@.len() == i,
                forall|j: int|
                    0 <= j < i ==> #[trigger] translations@[j]@ == self.translations@[j]@,
        {
            translations.push(self.translations[i].duplicate());
        }
        let mut sounds: Vec<Sound> = Vec::new();
        for i in 0..self.sounds.len()
            invariant
                sounds@.len() == i,
                forall|j: int| 0 <= j < i ==> #[trigger] sounds@[j]@ == self.sounds@[j]@,
        {
            sounds.push(self.sounds[i].duplicate());
        }
        let res = DictionaryEntry {
            lang_code: self.lang_code.clone(),
            word: self.word.clone(),
            senses,
            pos: self.pos.clone(),
            translations,
            sounds,
            etymology_text: copy_opt_string(&self.etymology_text),
        };
        assert(res@.senses =~= self@.senses);
        assert(res@.translations =~= self@.translations);
        assert(res@.sounds =~= self@.sounds);
        res
    }
}

} // verus!

verus! {

use crate::render::{Piece, renders_all, join_pieces, cat, plain, lemma_renders_styled,
    lemma_renders_join, lemma_renders_filled, lemma_renders_indented, lemma_renders_concat,
    lemma_renders_plain};
use crate::style::{bold, italic, bold_code, italic_code, strikethrough_code, green_bold_code};
use crate::text::{Join, JoinWrap, join_seq, decimal, spec_fill, usize_to_string, wrap,
    newline, newline_string, indent, LINE_WRAP_AT, concat};

/// The tags of a sense or a sound, in parentheses and separated by commas;
/// nothing when there are none.
pub open spec fn tags_text(tags: Seq<Seq<char>>) -> Seq<char> {
    if tags.len() == 0 {
        Seq::empty()
    } else {
        "("@ + join_seq(tags, ", "@) + ")"@
    }
}

/// The gloss of a sense when it has exactly one; nothing otherwise.
pub open spec fn glosses_text(glosses: Seq<Seq<char>>) -> Seq<char> {
    if glosses.len() == 1 {
        glosses[0]
    } else {
        Seq::empty()
    }
}

/// An optional text, or nothing.
pub open spec fn text_or_empty(text: Option<Seq<char>>) -> Seq<char> {
    match text {
        Some(t) => t,
        None => Seq::empty(),
    }
}

/// The line of the example at `index`: its number, styled, and its text.
pub open spec fn example_template(index: nat, example: ExampleView) -> Seq<Piece> {
    seq![Piece::Styled(italic_code(), decimal(index)), Piece::Plain(". "@ + text_or_empty(example.text))]
}

/// The lines of a list of examples.
pub open spec fn example_templates(examples: Seq<ExampleView>) -> Seq<Seq<Piece>> {
    Seq::new(examples.len(), |i: int| example_template(i as nat, examples[i]))
}

/// The line separator as a template.
pub open spec fn newline_template() -> Seq<Piece> {
    seq![Piece::Plain(newline())]
}

/// The examples of a sense: their lines wrapped one narrower than the line
/// width, indented by one space.
pub open spec fn examples_template(examples: Seq<ExampleView>) -> Seq<Piece> {
    seq![
        Piece::Indented(
            seq![
                Piece::Filled(
                    join_pieces(example_templates(examples), newline_template()),
                    (LINE_WRAP_AT - 1) as usize,
                ),
            ],
        ),
    ]
}

/// A sense: its number and tags, styled, its gloss wrapped at the line
/// width, and its examples when it has any.
pub open spec fn sense_template(index: nat, sense: SenseView) -> Seq<Piece> {
    seq![
        Piece::Styled(bold_code(), decimal(index)),
        Piece::Plain(". "@),
        Piece::Styled(bold_code(), tags_text(sense.tags)),
        Piece::Plain(newline() + spec_fill(glosses_text(sense.glosses), LINE_WRAP_AT)),
    ] + if sense.examples.len() > 0 {
        newline_template() + examples_template(sense.examples)
    } else {
        Seq::empty()
    }
}

/// The senses of an entry, each numbered by its position.
pub open spec fn sense_templates(senses: Seq<SenseView>) -> Seq<Seq<Piece>> {
    Seq::new(senses.len(), |i: int| sense_template(i as nat, senses[i]))
}

/// The tags of a sense or a sound, formatted.
pub fn format_tags(tags: &Vec<String>) -> (res: String)
    ensures
        res@ == tags_text(views(tags@)),
{
    if tags.len() == 0 {
        String::new()
    } else {
        let separator = ", ".to_owned();
        let inner = separator.join(crate::entities::dictionary_entry::copy_strings(tags));
        let res = concat(concat("(", inner.as_str()).as_str(), ")");
        res
    }
}

/// The gloss of a sense, formatted.
pub fn format_glosses(glosses: &Vec<String>) -> (res: String)
    ensures
        res@ == glosses_text(views(glosses@)),
{
    if glosses.len() == 1 {
        glosses[0].clone()
    } else {
        String::new()
    }
}

fn example_to_string(index: usize, example: &Example) -> (res: String)
    ensures
        renders_all(res@, example_template(index as nat, example@)),
{
    let number = italic(usize_to_string(index).as_str());
    proof {
        lemma_renders_styled(number@, italic_code(), decimal(index as nat));
    }
    let text = match &example.text {
        Some(t) => t.clone(),
        None => String::new(),
    };
    let rest = concat(". ", text.as_str());
    proof {
        lemma_renders_plain(rest@);
    }
    let ghost t_number = seq![Piece::Styled(italic_code(), decimal(index as nat))];
    let ghost t_rest = seq![Piece::Plain(rest@)];
    let res = cat(number, rest.as_str(), Ghost(t_number), Ghost(t_rest));
    assert(seq![Piece::Styled(italic_code(), decimal(index as nat))] + seq![Piece::Plain(rest@)]
        =~= example_template(index as nat, example@));
    res
}

/// The lines of a list of examples, each numbered by its position.
pub fn examples_to_strings(examples: &Vec<Example>) -> (res: Vec<String>)
    ensures
        res@.len() == examples@.len(),
        forall|i: int|
            0 <= i < res@.len() ==> renders_all(
                #[trigger] res@[i]@,
                example_template(i as nat, examples@[i]@),
            ),
{
    let mut res: Vec<String> = Vec::new();
    for i in 0..examples.len()
        invariant
            res@.len() == i,
            forall|j: int|
                0 <= j < i ==> renders_all(
                    #[trigger] res@[j]@,
                    example_template(j as nat, examples@[j]@),
                ),
    {
        res.push(example_to_string(i, &examples[i]));
    }
    res
}

/// The examples of a sense, formatted.
pub fn format_examples(examples: &Vec<Example>) -> (res: String)
    ensures
        renders_all(res@, examples_template(examples@.map_values(|e: Example| e@))),
{
    let ghost evs = examples@.map_values(|e: Example| e@);
    let lines = examples_to_strings(examples);
    let ghost texts = views(lines@);
    let separator = newline_string();
    proof {
        lemma_renders_plain(newline());
        assert forall|i: int| 0 <= i < texts.len() implies renders_all(
            #[trigger] texts[i],
            example_templates(evs)[i],
        ) by {
            assert(renders_all(lines@[i]@, example_template(i as nat, examples@[i]@)));
        }
        lemma_renders_join(texts, example_templates(evs), newline(), newline_template());
    }
    let wrapped = separator.joinwrap(lines, LINE_WRAP_AT - 1);
    proof {
        lemma_renders_filled(
            join_seq(texts, newline()),
            join_pieces(example_templates(evs), newline_template()),
            (LINE_WRAP_AT - 1) as usize,
        );
    }
    let res = indent(wrapped.as_str());
    proof {
        lemma_renders_indented(
            wrapped@,
            seq![
                Piece::Filled(
                    join_pieces(example_templates(evs), newline_template()),
                    (LINE_WRAP_AT - 1) as usize,
                ),
            ],
        );
    }
    res
}

/// A sense, formatted with its number.
pub fn format_sense(sense: &Sense, index: usize) -> (res: String)
    ensures
        renders_all(res@, sense_template(index as nat, sense@)),
{
    let number = bold(usize_to_string(index).as_str());
    let tags = bold(format_tags(&sense.tags).as_str());
    let gloss = wrap(format_glosses(&sense.glosses).as_str(), LINE_WRAP_AT);
    let ghost tags_view = tags_text(sense@.tags);
    proof {
        lemma_renders_styled(number@, bold_code(), decimal(index as nat));
        lemma_renders_styled(tags@, bold_code(), tags_view);
        lemma_renders_plain(". "@);
    }
    let ghost t_number = seq![Piece::Styled(bold_code(), decimal(index as nat))];
    let ghost t_dot = seq![Piece::Plain(". "@)];
    let ghost t_tags = seq![Piece::Styled(bold_code(), tags_view)];
    let res = cat(number, plain(". ").as_str(), Ghost(t_number), Ghost(t_dot));
    let res = cat(res, tags.as_str(), Ghost(t_number + t_dot), Ghost(t_tags));
    let line = concat(newline_string().as_str(), gloss.as_str());
    proof {
        lemma_renders_plain(line@);
    }
    let ghost head = t_number + t_dot + t_tags;
    let ghost t_line = seq![Piece::Plain(line@)];
    let res = cat(res, line.as_str(), Ghost(head), Ghost(t_line));
    let ghost first = head + t_line;
    assert(first =~= seq![
        Piece::Styled(bold_code(), decimal(index as nat)),
        Piece::Plain(". "@),
        Piece::Styled(bold_code(), tags_text(sense@.tags)),
        Piece::Plain(newline() + spec_fill(glosses_text(sense@.glosses), LINE_WRAP_AT)),
    ]);
    if sense.examples.len() > 0 {
        let examples = format_examples(&sense.examples);
        proof {
            lemma_renders_plain(newline());
        }
        let res = cat(res, newline_string().as_str(), Ghost(first), Ghost(newline_template()));
        let res = cat(
            res,
            examples.as_str(),
            Ghost(first + newline_template()),
            Ghost(examples_template(sense@.examples)),
        );
        assert(first + newline_template() + examples_template(sense@.examples) =~= sense_template(
            index as nat,
            sense@,
        ));
        res
    } else {
        assert(first =~= sense_template(index as nat, sense@));
        res
    }
}

/// The senses, each formatted with its position as number.
pub fn senses_to_strings(senses: &Vec<Sense>) -> (res: Vec<String>)
    ensures
        res@.len() == senses@.len(),
        forall|i: int|
            0 <= i < res@.len() ==> renders_all(
                #[trigger] res@[i]@,
                sense_template(i as nat, senses@[i]@),
            ),
{
    let mut res: Vec<String> = Vec::new();
    for i in 0..senses.len()
        invariant
            res@.len() == i,
            forall|j: int|
                0 <= j < i ==> renders_all(#[trigger] res@[j]@, sense_template(j as nat, senses@[j]@)),
    {
        res.push(format_sense(&senses[i], i));
    }
    res
}

/// The senses, formatted one after the other; nothing when there are none.
pub fn format_senses(senses: &Vec<Sense>) -> (res: Option<String>)
    ensures
        senses@.len() == 0 ==> res.is_none(),
        senses@.len() > 0 ==> (res matches Some(s) && renders_all(
            s@,
            join_pieces(sense_templates(senses@.map_values(|s: Sense| s@)), newline_template()),
        )),
{
    if senses.len() == 0 {
        return None;
    }
    let ghost svs = senses@.map_values(|s: Sense| s@);
    let lines = senses_to_strings(senses);
    let ghost texts = views(lines@);
    proof {
        lemma_renders_plain(newline());
        assert forall|i: int| 0 <= i < texts.len() implies renders_all(
            #[trigger] texts[i],
            sense_templates(svs)[i],
        ) by {
            assert(renders_all(lines@[i]@, sense_template(i as nat, senses@[i]@)));
        }
        lemma_renders_join(texts, sense_templates(svs), newline(), newline_template());
    }
    Some(newline_string().join(lines))
}

} // verus!

verus! {

use crate::language::language_of_code;

/// The line of a pronunciation in IPA.
pub open spec fn ipa_line(index: nat, ipa: Seq<char>, tags: Seq<Seq<char>>) -> Seq<Piece> {
    seq![
        Piece::Plain(" "@),
        Piece::Styled(italic_code(), decimal(index)),
        Piece::Plain(". IPA:  "@ + ipa + " "@ + tags_text(tags)),
    ]
}

/// The line of a pronunciation in enPR.
pub open spec fn enpr_line(index: nat, enpr: Seq<char>, tags: Seq<Seq<char>>) -> Seq<Piece> {
    seq![
        Piece::Plain(" "@),
        Piece::Styled(italic_code(), decimal(index)),
        Piece::Plain(". enPr: "@ + enpr + " "@ + tags_text(tags)),
    ]
}

/// The lines of the sound at `index`: one for its IPA and one for its
/// enPR, each when it has one.
pub open spec fn lines_of_sound(index: nat, sound: SoundView) -> Seq<Seq<Piece>> {
    (match sound.ipa {
        Some(ipa) => seq![ipa_line(index, ipa, sound.tags)],
        None => Seq::empty(),
    }) + (match sound.enpr {
        Some(enpr) => seq![enpr_line(index, enpr, sound.tags)],
        None => Seq::empty(),
    })
}

/// The lines of a list of sounds, each numbered by its position.
pub open spec fn sound_lines(sounds: Seq<SoundView>) -> Seq<Seq<Piece>>
    decreases sounds.len(),
{
    if sounds.len() == 0 {
        Seq::empty()
    } else {
        sound_lines(sounds.drop_last()) + lines_of_sound(
            (sounds.len() - 1) as nat,
            sounds.last(),
        )
    }
}

/// The pronunciations of an entry: a title and the lines of its sounds.
pub open spec fn sounds_template(sounds: Seq<SoundView>) -> Seq<Piece> {
    seq![Piece::Styled(bold_code(), "Pronunciation"@), Piece::Plain(newline())] + join_pieces(
        sound_lines(sounds),
        newline_template(),
    )
}

fn sound_line(index: usize, label: &str, value: &String, tags: &Vec<String>) -> (res: String)
    ensures
        renders_all(
            res@,
            seq![
                Piece::Plain(" "@),
                Piece::Styled(italic_code(), decimal(index as nat)),
                Piece::Plain(label@ + value@ + " "@ + tags_text(views(tags@))),
            ],
        ),
{
    let number = italic(usize_to_string(index).as_str());
    let rest = concat(
        concat(concat(label, value.as_str()).as_str(), " ").as_str(),
        format_tags(tags).as_str(),
    );
    proof {
        lemma_renders_styled(number@, italic_code(), decimal(index as nat));
        lemma_renders_plain(" "@);
        lemma_renders_plain(rest@);
    }
    let ghost t_space = seq![Piece::Plain(" "@)];
    let ghost t_number = seq![Piece::Styled(italic_code(), decimal(index as nat))];
    let ghost t_rest = seq![Piece::Plain(rest@)];
    let res = cat(plain(" "), number.as_str(), Ghost(t_space), Ghost(t_number));
    let res = cat(res, rest.as_str(), Ghost(t_space + t_number), Ghost(t_rest));
    assert(t_space + t_number + t_rest =~= seq![
        Piece::Plain(" "@),
        Piece::Styled(italic_code(), decimal(index as nat)),
        Piece::Plain(label@ + value@ + " "@ + tags_text(views(tags@))),
    ]);
    res
}

/// The lines of the sounds, each numbered by its position: one line for
/// the IPA and one for the enPR of a sound, each when it has one.
pub fn sounds_to_strings(sounds: &Vec<Sound>) -> (res: Vec<String>)
    ensures
        res@.len() == sound_lines(sounds@.map_values(|s: Sound| s@)).len(),
        forall|i: int|
            0 <= i < res@.len() ==> renders_all(
                #[trigger] res@[i]@,
                sound_lines(sounds@.map_values(|s: Sound| s@))[i],
            ),
{
    let ghost svs = sounds@.map_values(|s: Sound| s@);
    let mut res: Vec<String> = Vec::new();
    proof {
        reveal_with_fuel(sound_lines, 1);
        assert(svs.take(0) =~= Seq::<SoundView>::empty());
    }
    for i in 0..sounds.len()
        invariant
            svs == sounds@.map_values(|s: Sound| s@),
            res@.len() == sound_lines(svs.take(i as int)).len(),
            forall|j: int|
                0 <= j < res@.len() ==> renders_all(
                    #[trigger] res@[j]@,
                    sound_lines(svs.take(i as int))[j],
                ),
    {
        let ghost before = res@;
        let ghost lines_before = sound_lines(svs.take(i as int));
        let sound = &sounds[i];
        let ghost ipa_part: Seq<Seq<Piece>> = match sound@.ipa {
            Some(ipa) => seq![ipa_line(i as nat, ipa, sound@.tags)],
            None => Seq::empty(),
        };
        match &sound.ipa {
            Some(ipa) => {
                res.push(sound_line(i, ". IPA:  ", ipa, &sound.tags));
            },
            None => {},
        }
        let ghost mid = res@;
        assert(mid.len() == lines_before.len() + ipa_part.len());
        assert(forall|j: int|
            0 <= j < mid.len() ==> renders_all(#[trigger] mid[j]@, (lines_before + ipa_part)[j]));
        match &sound.enpr {
            Some(enpr) => {
                res.push(sound_line(i, ". enPr: ", enpr, &sound.tags));
            },
            None => {},
        }
        proof {
            let taken = svs.take(i + 1);
            assert(taken.drop_last() =~= svs.take(i as int));
            assert(taken.last() == sound@);
            assert(sound_lines(taken) == lines_before + lines_of_sound(i as nat, sound@));
            assert(lines_of_sound(i as nat, sound@) == ipa_part + match sound@.enpr {
                Some(enpr) => seq![enpr_line(i as nat, enpr, sound@.tags)],
                None => Seq::<Seq<Piece>>::empty(),
            });
        }
    }
    assert(svs.take(sounds@.len() as int) =~= svs);
    res
}

/// The pronunciations of an entry, formatted; nothing when there are none.
pub fn format_sounds(sounds: &Vec<Sound>) -> (res: Option<String>)
    ensures
        sounds@.len() == 0 ==> res.is_none(),
        sounds@.len() > 0 ==> (res matches Some(s) && renders_all(
            s@,
            sounds_template(sounds@.map_values(|s: Sound| s@)),
        )),
{
    if sounds.len() == 0 {
        return None;
    }
    let ghost svs = sounds@.map_values(|s: Sound| s@);
    let lines = sounds_to_strings(sounds);
    let ghost texts = views(lines@);
    proof {
        lemma_renders_plain(newline());
        assert forall|i: int| 0 <= i < texts.len() implies renders_all(
            #[trigger] texts[i],
            sound_lines(svs)[i],
        ) by {
            assert(renders_all(lines@[i]@, sound_lines(svs)[i]));
        }
        lemma_renders_join(texts, sound_lines(svs), newline(), newline_template());
    }
    let body = newline_string().join(lines);
    let title = bold("Pronunciation");
    proof {
        lemma_renders_styled(title@, bold_code(), "Pronunciation"@);
    }
    let ghost t_title = seq![Piece::Styled(bold_code(), "Pronunciation"@)];
    let res = cat(title, newline_string().as_str(), Ghost(t_title), Ghost(newline_template()));
    let res = cat(
        res,
        body.as_str(),
        Ghost(t_title + newline_template()),
        Ghost(join_pieces(sound_lines(svs), newline_template())),
    );
    assert(t_title + newline_template() + join_pieces(sound_lines(svs), newline_template())
        =~= sounds_template(svs));
    Some(res)
}

} // verus!

verus! {

use crate::text::{lex_le, lex_less_or_equal, lemma_lex_total, lemma_lex_transitive};
use crate::language::Language;

/// The views of a list of translations.
pub open spec fn translation_views(ts: Seq<Translation>) -> Seq<TranslationView> {
    ts.map_values(|t: Translation| t@)
}

/// The code of a translation is the code of a supported language.
pub open spec fn has_known_code(t: TranslationView) -> bool {
    t.code matches Some(c) && language_of_code(c).is_some()
}

/// The translations are ordered by their language names.
pub open spec fn sorted_by_lang(ts: Seq<TranslationView>) -> bool {
    forall|i: int, j: int| 0 <= i < j < ts.len() ==> lex_le(#[trigger] ts[i].lang, #[trigger] ts[j].lang)
}

/// `ts` lists each translation of `input` into a supported language once,
/// ordered by language name.
pub open spec fn is_translation_listing(ts: Seq<TranslationView>, input: Seq<TranslationView>) -> bool {
    &&& ts.no_duplicates()
    &&& forall|t: TranslationView| #[trigger] ts.contains(t) <==> (input.contains(t) && has_known_code(t))
    &&& sorted_by_lang(ts)
}

/// The line of a translation: its language name, styled, and its word.
pub open spec fn translation_line(t: TranslationView) -> Seq<Piece> {
    seq![
        Piece::Plain(" "@),
        Piece::Styled(italic_code(), t.lang),
        Piece::Plain(") "@ + text_or_empty(t.word)),
    ]
}

/// The lines of a list of translations.
pub open spec fn translation_lines(ts: Seq<TranslationView>) -> Seq<Seq<Piece>> {
    Seq::new(ts.len(), |i: int| translation_line(ts[i]))
}

/// The translations of an entry: a title and the lines of its translations
/// into supported languages, as listed by `ts`.
pub open spec fn translations_template(ts: Seq<TranslationView>) -> Seq<Piece> {
    seq![Piece::Styled(bold_code(), "Translations"@), Piece::Plain(newline())] + join_pieces(
        translation_lines(ts),
        newline_template(),
    )
}

fn same_opt_string(a: &Option<String>, b: &Option<String>) -> (res: bool)
    ensures
        res == (opt_view(*a) == opt_view(*b)),
{
    match (a, b) {
        (Some(x), Some(y)) => x.eq(y),
        (None, None) => true,
        _ => false,
    }
}

fn same_translation(a: &Translation, b: &Translation) -> (res: bool)
    ensures
        res == (a@ == b@),
{
    a.lang == b.lang && same_opt_string(&a.code, &b.code) && same_opt_string(&a.word, &b.word)
}

/// Whether the code of a translation is that of a supported language.
pub fn known_code(code: &Option<String>) -> (res: bool)
    ensures
        res == (opt_view(*code) matches Some(c) && language_of_code(c).is_some()),
{
    match code {
        Some(c) => Language::from_str(c.as_str()).is_ok(),
        None => false,
    }
}

proof fn lemma_insert_keeps_order(s: Seq<TranslationView>, p: int, x: TranslationView)
    requires
        sorted_by_lang(s),
        0 <= p <= s.len(),
        forall|i: int| 0 <= i < p ==> lex_le(#[trigger] s[i].lang, x.lang),
        p < s.len() ==> !lex_le(s[p].lang, x.lang),
    ensures
        sorted_by_lang(s.insert(p, x)),
{
    let n = s.insert(p, x);
    if p < s.len() {
        lemma_lex_total(s[p].lang, x.lang);
    }
    assert forall|i: int, j: int| 0 <= i < j < n.len() implies lex_le(
        #[trigger] n[i].lang,
        #[trigger] n[j].lang,
    ) by {
        if j < p {
            assert(n[i] == s[i] && n[j] == s[j]);
        } else if j == p {
            assert(n[i] == s[i]);
        } else if i == p {
            assert(n[j] == s[j - 1]);
            if j - 1 > p {
                lemma_lex_transitive(x.lang, s[p].lang, s[j - 1].lang);
            }
        } else if i < p {
            assert(n[i] == s[i] && n[j] == s[j - 1]);
        } else {
            assert(n[i] == s[i - 1] && n[j] == s[j - 1]);
        }
    }
}

/// The translations into supported languages, each once, ordered by
/// language name.
pub fn listed_translations(translations: &Vec<Translation>) -> (res: Vec<Translation>)
    ensures
        is_translation_listing(
            translation_views(res@),
            translation_views(translations@),
        ),
{
    let ghost input = translation_views(translations@);
    let mut res: Vec<Translation> = Vec::new();
    for k in 0..translations.len()
        invariant
            input == translation_views(translations@),
            is_translation_listing(translation_views(res@), input.take(k as int)),
    {
        let t = &translations[k];
        let ghost before = translation_views(res@);
        proof {
            let prev = input.take(k as int);
            let next = input.take(k + 1);
            assert(next =~= prev.push(t@));
            assert forall|y: TranslationView| #[trigger] next.contains(y) <==> (prev.contains(y) || y == t@) by {
                if next.contains(y) {
                    let i = choose|i: int| 0 <= i < next.len() && next[i] == y;
                    if i < prev.len() {
                        assert(prev[i] == y);
                    }
                }
                if prev.contains(y) {
                    let i = choose|i: int| 0 <= i < prev.len() && prev[i] == y;
                    assert(next[i] == y);
                }
                if y == t@ {
                    assert(next[k as int] == y);
                }
            }
        }
        if known_code(&t.code) {
            let mut found = false;
            let mut q: usize = 0;
            while q < res.len()
                invariant
                    q <= res@.len(),
                    before == translation_views(res@),
                    found == (exists|i: int| 0 <= i < q && #[trigger] before[i] == t@),
                decreases res@.len() - q,
            {
                if same_translation(&res[q], t) {
                    found = true;
                    assert(before[q as int] == t@);
                }
                q = q + 1;
            }
            if !found {
                let mut p: usize = 0;
                while p < res.len() && lex_less_or_equal(res[p].lang.as_str(), t.lang.as_str())
                    invariant
                        p <= res@.len(),
                        before == translation_views(res@),
                        forall|i: int| 0 <= i < p ==> lex_le(#[trigger] before[i].lang, t@.lang),
                    decreases res@.len() - p,
                {
                    p = p + 1;
                }
                proof {
                    lemma_insert_keeps_order(before, p as int, t@);
                    assert(!before.contains(t@));
                }
                res.insert(p, t.duplicate());
                proof {
                    let after = translation_views(res@);
                    assert(after =~= before.insert(p as int, t@));
                    assert forall|y: TranslationView| #[trigger] after.contains(y) <==> (before.contains(y) || y == t@) by {
                        if after.contains(y) {
                            let i = choose|i: int| 0 <= i < after.len() && after[i] == y;
                            if i < p {
                                assert(before[i] == y);
                            } else if i > p {
                                assert(before[i - 1] == y);
                            }
                        }
                        if before.contains(y) {
                            let i = choose|i: int| 0 <= i < before.len() && before[i] == y;
                            if i < p {
                                assert(after[i] == y);
                            } else {
                                assert(after[i + 1] == y);
                            }
                        }
                        if y == t@ {
                            assert(after[p as int] == y);
                        }
                    }
                    assert forall|i: int, j: int| 0 <= i < after.len() && 0 <= j < after.len() && i != j implies after[i] != after[j] by {
                        if i != p && j != p {
                            let bi = if i < p { i } else { i - 1 };
                            let bj = if j < p { j } else { j - 1 };
                            assert(after[i] == before[bi] && after[j] == before[bj]);
                        } else if i == p {
                            let bj = if j < p { j } else { j - 1 };
                            assert(after[j] == before[bj]);
                        } else {
                            let bi = if i < p { i } else { i - 1 };
                            assert(after[i] == before[bi]);
                        }
                    }
                }
            } else {
                proof {
                    let i = choose|i: int| 0 <= i < res@.len() && before[i] == t@;
                    assert(before.contains(t@));
                }
            }
        }
    }
    assert(input.take(translations@.len() as int) =~= input);
    res
}

/// The lines of the translations into supported languages, each once,
/// ordered by language name.
pub fn translations_to_strings(translations: &Vec<Translation>) -> (res: Vec<String>)
    ensures
        exists|ts: Seq<TranslationView>|
            #[trigger] is_translation_listing(ts, translation_views(translations@))
                && res@.len() == ts.len() && forall|i: int|
                0 <= i < ts.len() ==> renders_all(#[trigger] res@[i]@, translation_line(ts[i])),
{
    let listed = listed_translations(translations);
    let ghost ts = translation_views(listed@);
    let mut res: Vec<String> = Vec::new();
    for i in 0..listed.len()
        invariant
            ts == translation_views(listed@),
            res@.len() == i,
            forall|j: int| 0 <= j < i ==> renders_all(#[trigger] res@[j]@, translation_line(ts[j])),
    {
        let t = &listed[i];
        let lang = italic(t.lang.as_str());
        let word = match &t.word {
            Some(w) => w.clone(),
            None => String::new(),
        };
        let rest = concat(") ", word.as_str());
        proof {
            lemma_renders_plain(" "@);
            crate::render::lemma_renders_styled(lang@, italic_code(), t@.lang);
            lemma_renders_plain(rest@);
        }
        let ghost t_space = seq![Piece::Plain(" "@)];
        let ghost t_lang = seq![Piece::Styled(italic_code(), t@.lang)];
        let ghost t_rest = seq![Piece::Plain(rest@)];
        let line = cat(plain(" "), lang.as_str(), Ghost(t_space), Ghost(t_lang));
        let line = cat(line, rest.as_str(), Ghost(t_space + t_lang), Ghost(t_rest));
        assert(t_space + t_lang + t_rest =~= translation_line(ts[i as int]));
        res.push(line);
    }
    assert(is_translation_listing(ts, translation_views(translations@)));
    res
}

/// The translations of an entry, formatted; nothing when it has none (when
/// none is into a supported language, the title stands alone).
pub fn format_translations(translations: &Vec<Translation>) -> (res: Option<String>)
    ensures
        translations@.len() == 0 ==> res.is_none(),
        translations@.len() > 0 ==> (res matches Some(s) && exists|ts: Seq<TranslationView>|
            #[trigger] is_translation_listing(ts, translation_views(translations@))
                && renders_all(s@, translations_template(ts))),
{
    if translations.len() == 0 {
        return None;
    }
    let lines = translations_to_strings(translations);
    let ghost ts = choose|ts: Seq<TranslationView>|
        #[trigger] is_translation_listing(ts, translation_views(translations@))
            && lines@.len() == ts.len() && forall|i: int|
            0 <= i < ts.len() ==> renders_all(#[trigger] lines@[i]@, translation_line(ts[i]));
    let ghost texts = views(lines@);
    proof {
        lemma_renders_plain(newline());
        assert forall|i: int| 0 <= i < texts.len() implies renders_all(
            #[trigger] texts[i],
            translation_lines(ts)[i],
        ) by {
            assert(renders_all(lines@[i]@, translation_line(ts[i])));
        }
        lemma_renders_join(texts, translation_lines(ts), newline(), newline_template());
    }
    let body = newline_string().join(lines);
    let title = bold("Translations");
    proof {
        crate::render::lemma_renders_styled(title@, bold_code(), "Translations"@);
    }
    let ghost t_title = seq![Piece::Styled(bold_code(), "Translations"@)];
    let res = cat(title, newline_string().as_str(), Ghost(t_title), Ghost(newline_template()));
    let res = cat(
        res,
        body.as_str(),
        Ghost(t_title + newline_template()),
        Ghost(join_pieces(translation_lines(ts), newline_template())),
    );
    assert(t_title + newline_template() + join_pieces(translation_lines(ts), newline_template())
        =~= translations_template(ts));
    Some(res)
}

} // verus!

verus! {

use crate::text::{spaces, horizontal_line};
use crate::render::lemma_renders_empty;

/// The etymology of an entry: a title and the text, wrapped at the line
/// width.
pub open spec fn etymology_template(etymology: Seq<char>) -> Seq<Piece> {
    seq![
        Piece::Filled(
            seq![
                Piece::Styled(bold_code(), "Etymology:"@),
                Piece::Plain(newline()),
                Piece::Plain(etymology),
            ],
            LINE_WRAP_AT,
        ),
    ]
}

/// The sections of an entry that it has, in order: etymology,
/// pronunciations, senses and translations (listed as `ts`).
pub open spec fn entry_sections(entry: DictionaryEntryView, ts: Seq<TranslationView>) -> Seq<
    Seq<Piece>,
> {
    (match entry.etymology_text {
        Some(e) => seq![etymology_template(e)],
        None => Seq::empty(),
    }) + (if entry.sounds.len() > 0 {
        seq![sounds_template(entry.sounds)]
    } else {
        Seq::empty()
    }) + (if entry.senses.len() > 0 {
        seq![join_pieces(sense_templates(entry.senses), newline_template())]
    } else {
        Seq::empty()
    }) + (if entry.translations.len() > 0 {
        seq![translations_template(ts)]
    } else {
        Seq::empty()
    })
}

/// A horizontal line: spaces across the line width, struck through.
pub open spec fn horizontal_line_piece() -> Piece {
    Piece::Styled(strikethrough_code(), spaces(LINE_WRAP_AT as nat))
}

/// A whole entry: between horizontal lines its word, styled, and its part
/// of speech; then its sections, separated by horizontal lines.
pub open spec fn entry_template(entry: DictionaryEntryView, ts: Seq<TranslationView>) -> Seq<Piece> {
    seq![
        horizontal_line_piece(),
        Piece::Plain(newline()),
        Piece::Styled(green_bold_code(), entry.word),
        Piece::Plain(" ("@ + entry.pos + ")"@ + newline()),
        horizontal_line_piece(),
        Piece::Plain(newline()),
    ] + join_pieces(
        entry_sections(entry, ts),
        seq![Piece::Plain(newline()), horizontal_line_piece(), Piece::Plain(newline())],
    ) + seq![Piece::Plain(newline())]
}

/// The etymology of an entry, formatted; nothing when it has none.
pub fn format_etymology(etymology: &Option<String>) -> (res: Option<String>)
    ensures
        etymology.is_none() ==> res.is_none(),
        etymology matches Some(e) ==> (res matches Some(s) && renders_all(
            s@,
            etymology_template(e@),
        )),
{
    match etymology {
        None => None,
        Some(e) => {
            let title = bold("Etymology:");
            let ghost title_view = title@;
            proof {
                lemma_renders_styled(title@, bold_code(), "Etymology:"@);
                lemma_renders_plain(newline());
                lemma_renders_plain(e@);
            }
            let mut list: Vec<String> = Vec::new();
            list.push(title);
            list.push(e.clone());
            proof {
                reveal_with_fuel(join_seq, 2);
                let vs = views(list@);
                assert(vs.drop_last() =~= seq![title_view]);
                assert(join_seq(vs, newline()) == title_view + newline() + e@);
                let t1 = seq![Piece::Styled(bold_code(), "Etymology:"@)];
                let t2 = seq![Piece::Plain(newline())];
                let t3 = seq![Piece::Plain(e@)];
                lemma_renders_concat(title_view, t1, newline(), t2);
                lemma_renders_concat(title_view + newline(), t1 + t2, e@, t3);
                assert(t1 + t2 + t3 =~= seq![
                    Piece::Styled(bold_code(), "Etymology:"@),
                    Piece::Plain(newline()),
                    Piece::Plain(e@),
                ]);
                lemma_renders_filled(
                    join_seq(vs, newline()),
                    t1 + t2 + t3,
                    LINE_WRAP_AT,
                );
            }
            Some(newline_string().joinwrap(list, LINE_WRAP_AT))
        },
    }
}

impl DictionaryEntry {
    /// The entry, formatted for reading: its word and part of speech between
    /// horizontal lines, then its etymology, pronunciations, senses and
    /// translations, each that it has, separated by horizontal lines.
    #[verifier::rlimit(40)]
    pub fn to_pretty_string(&self) -> (res: String)
        ensures
            exists|ts: Seq<TranslationView>|
                #[trigger] is_translation_listing(ts, self@.translations) && renders_all(
                    res@,
                    entry_template(self@, ts),
                ),
    {
        let ghost e = self@;
        let etymology = format_etymology(&self.etymology_text);
        let sounds = format_sounds(&self.sounds);
        let senses = format_senses(&self.senses);
        let translations = format_translations(&self.translations);
        assert(translation_views(self.translations@) == e.translations);
        let ghost ts: Seq<TranslationView> = if self.translations@.len() > 0 {
            choose|ts: Seq<TranslationView>|
                #[trigger] is_translation_listing(ts, translation_views(self.translations@))
                    && renders_all(translations.unwrap()@, translations_template(ts))
        } else {
            Seq::empty()
        };
        proof {
            if self.translations@.len() == 0 {
                assert(is_translation_listing(ts, e.translations));
            }
        }
        let mut entries: Vec<String> = Vec::new();
        let ghost mut templates: Seq<Seq<Piece>> = Seq::empty();
        if let Some(etymology) = etymology {
            entries.push(etymology);
            proof {
                templates = templates.push(etymology_template(self.etymology_text->0@));
            }
        }
        let ghost t1 = templates;
        if let Some(sounds) = sounds {
            entries.push(sounds);
            proof {
                templates = templates.push(sounds_template(e.sounds));
            }
        }
        let ghost t2 = templates;
        if let Some(senses) = senses {
            entries.push(senses);
            proof {
                templates = templates.push(join_pieces(sense_templates(e.senses), newline_template()));
            }
        }
        let ghost t3 = templates;
        if let Some(translations) = translations {
            entries.push(translations);
            proof {
                templates = templates.push(translations_template(ts));
            }
        }
        proof {
            let sec = entry_sections(e, ts);
            assert(templates =~= sec);
            assert(entries@.len() == templates.len());
            assert forall|i: int| 0 <= i < entries@.len() implies renders_all(
                #[trigger] views(entries@)[i],
                templates[i],
            ) by {
            }
        }
        let hl = horizontal_line().to_string();
        let ghost hl_t = seq![horizontal_line_piece()];
        proof {
            lemma_renders_styled(hl@, strikethrough_code(), spaces(LINE_WRAP_AT as nat));
            lemma_renders_plain(newline());
        }
        let separator = cat(newline_string(), hl.as_str(), Ghost(newline_template()), Ghost(hl_t));
        let separator = cat(
            separator,
            newline_string().as_str(),
            Ghost(newline_template() + hl_t),
            Ghost(newline_template()),
        );
        let ghost sep_t = newline_template() + hl_t + newline_template();
        assert(sep_t =~= seq![
            Piece::Plain(newline()),
            horizontal_line_piece(),
            Piece::Plain(newline()),
        ]);
        proof {
            lemma_renders_join(views(entries@), templates, separator@, sep_t);
        }
        let body = separator.join(entries);
        let word = crate::style::green_bold(self.word.as_str());
        let pos_line = concat(
            concat(concat(" (", self.pos.as_str()).as_str(), ")").as_str(),
            newline_string().as_str(),
        );
        proof {
            lemma_renders_styled(word@, green_bold_code(), e.word);
            lemma_renders_plain(pos_line@);
        }
        let ghost w_t = seq![Piece::Styled(green_bold_code(), e.word)];
        let ghost p_t = seq![Piece::Plain(pos_line@)];
        let res = cat(hl.clone(), newline_string().as_str(), Ghost(hl_t), Ghost(newline_template()));
        let ghost a1 = hl_t + newline_template();
        let res = cat(res, word.as_str(), Ghost(a1), Ghost(w_t));
        let ghost a2 = a1 + w_t;
        let res = cat(res, pos_line.as_str(), Ghost(a2), Ghost(p_t));
        let ghost a3 = a2 + p_t;
        let res = cat(res, hl.as_str(), Ghost(a3), Ghost(hl_t));
        let ghost a4 = a3 + hl_t;
        let res = cat(res, newline_string().as_str(), Ghost(a4), Ghost(newline_template()));
        let ghost a5 = a4 + newline_template();
        let ghost body_t = join_pieces(templates, sep_t);
        let res = cat(res, body.as_str(), Ghost(a5), Ghost(body_t));
        let ghost a6 = a5 + body_t;
        let res = cat(res, newline_string().as_str(), Ghost(a6), Ghost(newline_template()));
        assert(a6 + newline_template() =~= entry_template(e, ts));
        assert(is_translation_listing(ts, self@.translations));
        res
    }
}


/// Whether `part` stands in `whole` as a contiguous run.
pub open spec fn contains_run(whole: Seq<Piece>, part: Seq<Piece>) -> bool {
    exists|k: int|
        0 <= k && k + part.len() <= whole.len() && #[trigger] whole.subrange(k, k + part.len())
            == part
}

proof fn lemma_join_starts_with_first(list: Seq<Seq<Piece>>, separator: Seq<Piece>)
    requires
        list.len() > 0,
    ensures
        list[0].len() <= join_pieces(list, separator).len(),
        join_pieces(list, separator).subrange(0, list[0].len() as int) == list[0],
    decreases list.len(),
{
    if list.len() == 1 {
        assert(join_pieces(list, separator).subrange(0, list[0].len() as int) =~= list[0]);
    } else {
        let front = list.drop_last();
        lemma_join_starts_with_first(front, separator);
        assert(front[0] == list[0]);
        let j = join_pieces(list, separator);
        assert(j == join_pieces(front, separator) + separator + list.last());
        assert(j.subrange(0, list[0].len() as int) =~= join_pieces(front, separator).subrange(
            0,
            list[0].len() as int,
        ));
    }
}

proof fn lemma_join_holds_each(list: Seq<Seq<Piece>>, separator: Seq<Piece>, i: int)
    requires
        0 <= i < list.len(),
    ensures
        contains_run(join_pieces(list, separator), list[i]),
    decreases list.len(),
{
    let j = join_pieces(list, separator);
    if list.len() == 1 {
        assert(j.subrange(0int, 0int + list[i].len()) =~= list[i]);
        assert(contains_run(j, list[i]));
    } else {
        let front = list.drop_last();
        let jf = join_pieces(front, separator);
        assert(j == jf + separator + list.last());
        if i == list.len() - 1 {
            let k: int = jf.len() as int + separator.len() as int;
            assert(j.subrange(k, k + list[i].len()) =~= list[i]);
            assert(contains_run(j, list[i]));
        } else {
            lemma_join_holds_each(front, separator, i);
            assert(front[i] == list[i]);
            let k = choose|k: int|
                0 <= k && k + front[i].len() <= jf.len() && #[trigger] jf.subrange(
                    k,
                    k + front[i].len(),
                ) == front[i];
            assert(j.subrange(k, k + list[i].len()) =~= jf.subrange(k, k + front[i].len()));
            assert(contains_run(j, list[i]));
        }
    }
}

proof fn lemma_template_holds_sections(entry: DictionaryEntryView, ts: Seq<TranslationView>, i: int)
    requires
        0 <= i < entry_sections(entry, ts).len(),
    ensures
        contains_run(entry_template(entry, ts), entry_sections(entry, ts)[i]),
{
    let sep = seq![Piece::Plain(newline()), horizontal_line_piece(), Piece::Plain(newline())];
    let head = seq![
        horizontal_line_piece(),
        Piece::Plain(newline()),
        Piece::Styled(green_bold_code(), entry.word),
        Piece::Plain(" ("@ + entry.pos + ")"@ + newline()),
        horizontal_line_piece(),
        Piece::Plain(newline()),
    ];
    let body = join_pieces(entry_sections(entry, ts), sep);
    let part = entry_sections(entry, ts)[i];
    lemma_join_holds_each(entry_sections(entry, ts), sep, i);
    let k = choose|k: int|
        0 <= k && k + part.len() <= body.len() && #[trigger] body.subrange(k, k + part.len())
            == part;
    let whole = entry_template(entry, ts);
    assert(whole == head + body + seq![Piece::Plain(newline())]);
    assert(whole.subrange(k + 6, k + 6 + part.len()) =~= body.subrange(k, k + part.len()));
}

/// An entry with an etymology shows it first, right below the heading: the
/// title "Etymology:" in bold, a line break, then the etymology's text, the
/// whole wrapped at the line width.
pub proof fn lemma_entry_shows_etymology_first(entry: DictionaryEntryView, ts: Seq<TranslationView>)
    requires
        entry.etymology_text is Some,
    ensures
        entry_template(entry, ts).len() > 6,
        entry_template(entry, ts)[6] == Piece::Filled(
            seq![
                Piece::Styled(bold_code(), "Etymology:"@),
                Piece::Plain(newline()),
                Piece::Plain(entry.etymology_text->0),
            ],
            LINE_WRAP_AT,
        ),
{
    let sep = seq![Piece::Plain(newline()), horizontal_line_piece(), Piece::Plain(newline())];
    let sections = entry_sections(entry, ts);
    assert(sections[0] == etymology_template(entry.etymology_text->0));
    lemma_join_starts_with_first(sections, sep);
    let body = join_pieces(sections, sep);
    assert(body[0] == body.subrange(0, 1)[0]);
}

/// Each part that an entry has is shown: its etymology, its pronunciations,
/// its senses and its translations (listed as `ts`) each stand in the
/// rendering of the entry.
pub proof fn lemma_entry_shows_each_part(entry: DictionaryEntryView, ts: Seq<TranslationView>)
    ensures
        entry.etymology_text matches Some(e) ==> contains_run(
            entry_template(entry, ts),
            etymology_template(e),
        ),
        entry.sounds.len() > 0 ==> contains_run(
            entry_template(entry, ts),
            sounds_template(entry.sounds),
        ),
        entry.senses.len() > 0 ==> contains_run(
            entry_template(entry, ts),
            join_pieces(sense_templates(entry.senses), newline_template()),
        ),
        entry.translations.len() > 0 ==> contains_run(
            entry_template(entry, ts),
            translations_template(ts),
        ),
{
    let sections = entry_sections(entry, ts);
    let a: int = if entry.etymology_text is Some { 1int } else { 0int };
    let b: int = a + if entry.sounds.len() > 0 { 1int } else { 0int };
    let c: int = b + if entry.senses.len() > 0 { 1int } else { 0int };
    if entry.etymology_text is Some {
        assert(sections[0] == etymology_template(entry.etymology_text->0));
        lemma_template_holds_sections(entry, ts, 0);
    }
    if entry.sounds.len() > 0 {
        assert(sections[a] == sounds_template(entry.sounds));
        lemma_template_holds_sections(entry, ts, a);
    }
    if entry.senses.len() > 0 {
        assert(sections[b] == join_pieces(sense_templates(entry.senses), newline_template()));
        lemma_template_holds_sections(entry, ts, b);
    }
    if entry.translations.len() > 0 {
        assert(sections[c] == translations_template(ts));
        lemma_template_holds_sections(entry, ts, c);
    }
}

} // verus!
