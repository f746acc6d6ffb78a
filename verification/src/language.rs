use vstd::prelude::*;
use crate::text::concat;

verus! {

/// The languages for which a dictionary extract can be used.
#[derive(Copy, Clone, PartialEq, Eq, Structural, Debug)]
pub enum Language {
    EN,
    DE,
    FR,
    ES,
    SV,
}

/// The error of parsing a language code that is not supported.
#[derive(Clone, Debug)]
pub struct UnsupportedLanguage {
    pub code: String,
}

impl UnsupportedLanguage {
    /// The message of the error, naming the code.
    pub fn message(&self) -> (res: String)
        ensures
            res@ == "unsupported language code: '"@ + self.code@ + "'"@,
    {
        concat(concat("unsupported language code: '", self.code.as_str()).as_str(), "'")
    }
}

/// The two letter code of a language.
pub open spec fn language_code(language: Language) -> Seq<char> {
    match language {
        Language::EN => seq!['e', 'n'],
        Language::DE => seq!['d', 'e'],
        Language::FR => seq!['f', 'r'],
        Language::ES => seq!['e', 's'],
        Language::SV => seq!['s', 'v'],
    }
}

/// All languages, in the order in which they are listed.
pub open spec fn all_languages() -> Seq<Language> {
    seq![Language::EN, Language::DE, Language::FR, Language::ES, Language::SV]
}

/// The language whose code is `code`, if there is one.
pub open spec fn language_of_code(code: Seq<char>) -> Option<Language> {
    if code == language_code(Language::EN) {
        Some(Language::EN)
    } else if code == language_code(Language::DE) {
        Some(Language::DE)
    } else if code == language_code(Language::FR) {
        Some(Language::FR)
    } else if code == language_code(Language::ES) {
        Some(Language::ES)
    } else if code == language_code(Language::SV) {
        Some(Language::SV)
    } else {
        None
    }
}

/// The default language.
pub open spec fn default_language() -> Language {
    Language::EN
}

impl Language {
    /// The two letter code of the language.
    pub fn value(&self) -> (res: String)
        ensures
            res@ == language_code(*self),
    {
        proof {
            reveal_strlit("en");
            reveal_strlit("de");
            reveal_strlit("fr");
            reveal_strlit("es");
            reveal_strlit("sv");
        }
        match self {
            Language::EN => "en".to_owned(),
            Language::DE => "de".to_owned(),
            Language::FR => "fr".to_owned(),
            Language::ES => "es".to_owned(),
            Language::SV => "sv".to_owned(),
        }
    }

    /// All languages, in the order EN, DE, FR, ES, SV.
    pub fn iterator() -> (res: Vec<Language>)
        ensures
            res@ == all_languages(),
    {
        let res = vec![Language::EN, Language::DE, Language::FR, Language::ES, Language::SV];
        assert(res@ =~= all_languages());
        res
    }

    /// The codes of all languages, in the order of `iterator`.
    pub fn as_strings() -> (res: Vec<String>)
        ensures
            res@.len() == all_languages().len(),
            forall|i: int| 0 <= i < res@.len() ==> #[trigger] res@[i]@ == language_code(all_languages()[i]),
    {
        let languages = Language::iterator();
        let mut res: Vec<String> = Vec::new();
        for i in 0..languages.len()
            invariant
                languages@ == all_languages(),
                res@.len() == i,
                forall|j: int| 0 <= j < i ==> #[trigger] res@[j]@ == language_code(all_languages()[j]),
        {
            res.push(languages[i].value());
        }
        res
    }

    /// The language whose code is `language`; an error names the code that
    /// is not supported.
    pub fn from_str(language: &str) -> (res: Result<Language, UnsupportedLanguage>)
        ensures
            match res {
                Ok(l) => language_of_code(language@) == Some(l),
                Err(e) => language_of_code(language@).is_none() && e.code@ == language@,
            },
    {
        let languages = Language::iterator();
        let code = language.to_owned();
        for i in 0..languages.len()
            invariant
                languages@ == all_languages(),
                code@ == language@,
                forall|j: int| 0 <= j < i ==> language_code(#[trigger] all_languages()[j]) != language@,
        {
            let value = languages[i].value();
            if value == code {
                return Ok(languages[i]);
            }
        }
        assert(language_code(all_languages()[0]) != language@);
        assert(language_code(all_languages()[1]) != language@);
        assert(language_code(all_languages()[2]) != language@);
        assert(language_code(all_languages()[3]) != language@);
        assert(language_code(all_languages()[4]) != language@);
        Err(UnsupportedLanguage { code })
    }

    /// The language whose code is `language`, or the default language when
    /// the code is not supported.
    pub fn from_str_or_default(language: &str) -> (res: Language)
        ensures
            res == match language_of_code(language@) {
                Some(l) => l,
                None => default_language(),
            },
    {
        match Language::from_str(language) {
            Ok(l) => l,
            Err(_) => Language::default(),
        }
    }
}

impl Default for Language {
    fn default() -> (res: Language)
        ensures
            res == default_language(),
    {
        Language::EN
    }
}

} // verus!

verus! {

/// Parsing the code of a language gives that language back.
pub proof fn lemma_code_roundtrip(language: Language)
    ensures
        language_of_code(language_code(language)) == Some(language),
{
    match language {
        Language::EN => {},
        Language::DE => {
            assert(language_code(Language::DE) != language_code(Language::EN));
        },
        Language::FR => {
            assert(language_code(Language::FR) != language_code(Language::EN));
            assert(language_code(Language::FR) != language_code(Language::DE));
        },
        Language::ES => {
            assert(language_code(Language::ES) != language_code(Language::EN));
            assert(language_code(Language::ES) != language_code(Language::DE));
            assert(language_code(Language::ES) != language_code(Language::FR));
        },
        Language::SV => {
            assert(language_code(Language::SV) != language_code(Language::EN));
            assert(language_code(Language::SV) != language_code(Language::DE));
            assert(language_code(Language::SV) != language_code(Language::FR));
            assert(language_code(Language::SV) != language_code(Language::ES));
        },
    }
}

/// Two languages with the same code are the same language.
pub proof fn lemma_codes_are_distinct(a: Language, b: Language)
    ensures
        language_code(a) == language_code(b) ==> a == b,
{
    lemma_code_roundtrip(a);
    lemma_code_roundtrip(b);
}

/// A code is accepted exactly when it is the code of a language.
pub proof fn lemma_parsed_language_has_the_code(code: Seq<char>)
    ensures
        language_of_code(code) matches Some(l) ==> language_code(l) == code,
        language_of_code(code).is_none() ==> forall|l: Language| language_code(l) != code,
{
    assert forall|l: Language| language_of_code(code).is_none() implies language_code(l) != code by {
        lemma_code_roundtrip(l);
    }
}

/// Every language is listed exactly once.
pub proof fn lemma_all_languages_listed_once(language: Language)
    ensures
        all_languages().contains(language),
        forall|i: int, j: int|
            0 <= i < j < all_languages().len() ==> all_languages()[i] != all_languages()[j],
{
    match language {
        Language::EN => assert(all_languages()[0] == language),
        Language::DE => assert(all_languages()[1] == language),
        Language::FR => assert(all_languages()[2] == language),
        Language::ES => assert(all_languages()[3] == language),
        Language::SV => assert(all_languages()[4] == language),
    }
}

} // verus!
