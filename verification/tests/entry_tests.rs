use wiktionary_en::entities::dictionary_entry::{
    examples_to_strings, format_etymology, format_glosses, format_senses, format_sounds,
    format_tags, format_translations, listed_translations, sounds_to_strings,
    translations_to_strings, DictionaryEntry, Example, Sense, Sound, Translation,
};

fn plain_output() {
    colored::control::set_override(false);
}

fn s(text: &str) -> String {
    text.to_string()
}

fn translation(lang: &str, code: Option<&str>, word: Option<&str>) -> Translation {
    Translation { lang: s(lang), code: code.map(s), word: word.map(s) }
}

fn dog() -> DictionaryEntry {
    DictionaryEntry {
        lang_code: s("en"),
        word: s("dog"),
        senses: vec![Sense {
            glosses: vec![s("A mammal.")],
            examples: vec![Example { reference: None, text: Some(s("The dog barked.")) }],
            tags: vec![],
        }],
        pos: s("noun"),
        translations: vec![
            translation("German", Some("de"), Some("Hund")),
            translation("Latin", Some("la"), Some("canis")),
            translation("French", Some("fr"), Some("chien")),
            translation("German", Some("de"), Some("Hund")),
        ],
        sounds: vec![Sound { ipa: Some(s("/dɒɡ/")), enpr: None, tags: vec![s("UK")] }],
        etymology_text: None,
    }
}

#[test]
fn tags_in_parentheses() {
    assert_eq!(format_tags(&vec![]), "");
    assert_eq!(format_tags(&vec![s("UK")]), "(UK)");
    assert_eq!(format_tags(&vec![s("UK"), s("US")]), "(UK, US)");
}

#[test]
fn only_a_single_gloss_is_shown() {
    assert_eq!(format_glosses(&vec![s("one")]), "one");
    assert_eq!(format_glosses(&vec![]), "");
    assert_eq!(format_glosses(&vec![s("one"), s("two")]), "");
}

#[test]
fn examples_are_numbered() {
    plain_output();
    let examples = vec![
        Example { reference: None, text: Some(s("first")) },
        Example { reference: Some(s("ref")), text: None },
    ];
    assert_eq!(examples_to_strings(&examples), vec![s("0. first"), s("1. ")]);
}

#[test]
fn sounds_have_a_line_per_notation() {
    plain_output();
    let sounds = vec![
        Sound { ipa: Some(s("/a/")), enpr: Some(s("ā")), tags: vec![s("US")] },
        Sound { ipa: None, enpr: None, tags: vec![] },
        Sound { ipa: None, enpr: Some(s("b")), tags: vec![] },
    ];
    assert_eq!(
        sounds_to_strings(&sounds),
        vec![s(" 0. IPA:  /a/ (US)"), s(" 0. enPr: ā (US)"), s(" 2. enPr: b ")]
    );
    assert_eq!(format_sounds(&vec![]), None);
    assert_eq!(
        format_sounds(&sounds).unwrap(),
        "Pronunciation\n 0. IPA:  /a/ (US)\n 0. enPr: ā (US)\n 2. enPr: b "
    );
}

#[test]
fn translations_are_filtered_deduplicated_and_sorted() {
    plain_output();
    let entry = dog();
    let listed = listed_translations(&entry.translations);
    let langs: Vec<String> = listed.iter().map(|t| t.lang.clone()).collect();
    assert_eq!(langs, vec![s("French"), s("German")]);
    assert_eq!(
        translations_to_strings(&entry.translations),
        vec![s(" French) chien"), s(" German) Hund")]
    );
    assert_eq!(
        format_translations(&entry.translations).unwrap(),
        "Translations\n French) chien\n German) Hund"
    );
    assert_eq!(format_translations(&vec![]), None);
    assert_eq!(
        format_translations(&vec![translation("Latin", Some("la"), None)]).unwrap(),
        "Translations\n"
    );
}

#[test]
fn translation_without_word_or_code() {
    plain_output();
    let translations = vec![
        translation("Swedish", Some("sv"), None),
        translation("Unknown", None, Some("x")),
    ];
    assert_eq!(translations_to_strings(&translations), vec![s(" Swedish) ")]);
}

#[test]
fn senses_are_numbered_and_wrapped() {
    plain_output();
    let senses = vec![
        Sense { glosses: vec![s("A mammal.")], examples: vec![], tags: vec![s("zoology")] },
        Sense { glosses: vec![], examples: vec![], tags: vec![] },
    ];
    assert_eq!(format_senses(&senses).unwrap(), "0. (zoology)\nA mammal.\n1. \n");
    assert_eq!(format_senses(&vec![]), None);
}

#[test]
fn etymology_is_titled() {
    plain_output();
    assert_eq!(format_etymology(&None), None);
    assert_eq!(format_etymology(&Some(s("From Old English."))).unwrap(), "Etymology:\nFrom Old English.");
}

#[test]
fn pretty_entry() {
    plain_output();
    let line = " ".repeat(80);
    let expected = format!(
        "{line}\ndog (noun)\n{line}\nPronunciation\n 0. IPA:  /dɒɡ/ (UK)\n{line}\n0. \nA mammal.\n 0. The dog barked.\n{line}\nTranslations\n French) chien\n German) Hund\n"
    );
    assert_eq!(dog().to_pretty_string(), expected);
}

#[test]
fn pretty_entry_without_sections() {
    plain_output();
    let entry = DictionaryEntry {
        lang_code: s("en"),
        word: s("x"),
        senses: vec![],
        pos: s("letter"),
        translations: vec![],
        sounds: vec![],
        etymology_text: None,
    };
    let line = " ".repeat(80);
    assert_eq!(entry.to_pretty_string(), format!("{line}\nx (letter)\n{line}\n\n"));
}

#[test]
fn duplicate_is_equal() {
    let entry = dog();
    let copy = entry.duplicate();
    assert_eq!(copy.word, entry.word);
    assert_eq!(copy.translations.len(), entry.translations.len());
    assert_eq!(copy.senses[0].glosses, entry.senses[0].glosses);
}
