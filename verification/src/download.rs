//! Where the dictionary extracts are downloaded from, and when a download
//! may overwrite an existing file.
use vstd::prelude::*;
use crate::language::Language;

verus! {

/// The address of the extract of a language.
pub open spec fn resource_url_of(language: Language) -> Seq<char> {
    match language {
        Language::EN => "https://kaikki.org/dictionary/English/kaikki.org-dictionary-English.jsonl"@,
        Language::DE => "https://kaikki.org/dictionary/German/kaikki.org-dictionary-German.jsonl"@,
        Language::FR => "https://kaikki.org/dictionary/French/kaikki.org-dictionary-French.jsonl"@,
        Language::ES => "https://kaikki.org/dictionary/Spanish/kaikki.org-dictionary-Spanish.jsonl"@,
        Language::SV => "https://kaikki.org/dictionary/Swedish/kaikki.org-dictionary-Swedish.jsonl"@,
    }
}

/// The English name of a language, under which kaikki.org files its extract.
pub open spec fn english_name(language: Language) -> Seq<char> {
    match language {
        Language::EN => "English"@,
        Language::DE => "German"@,
        Language::FR => "French"@,
        Language::ES => "Spanish"@,
        Language::SV => "Swedish"@,
    }
}

/// The address of a language's extract names that language twice: as the
/// directory of the dictionary and in the file's name.
pub proof fn lemma_resource_url_names_its_language(language: Language)
    ensures
        resource_url_of(language) == "https://kaikki.org/dictionary/"@ + english_name(language)
            + "/kaikki.org-dictionary-"@ + english_name(language) + ".jsonl"@,
{
    reveal_strlit("https://kaikki.org/dictionary/");
    reveal_strlit("/kaikki.org-dictionary-");
    reveal_strlit(".jsonl");
    match language {
        Language::EN => {
            reveal_strlit("English");
            reveal_strlit("https://kaikki.org/dictionary/English/kaikki.org-dictionary-English.jsonl");
        },
        Language::DE => {
            reveal_strlit("German");
            reveal_strlit("https://kaikki.org/dictionary/German/kaikki.org-dictionary-German.jsonl");
        },
        Language::FR => {
            reveal_strlit("French");
            reveal_strlit("https://kaikki.org/dictionary/French/kaikki.org-dictionary-French.jsonl");
        },
        Language::ES => {
            reveal_strlit("Spanish");
            reveal_strlit("https://kaikki.org/dictionary/Spanish/kaikki.org-dictionary-Spanish.jsonl");
        },
        Language::SV => {
            reveal_strlit("Swedish");
            reveal_strlit("https://kaikki.org/dictionary/Swedish/kaikki.org-dictionary-Swedish.jsonl");
        },
    }
    assert(resource_url_of(language) =~= "https://kaikki.org/dictionary/"@ + english_name(language)
        + "/kaikki.org-dictionary-"@ + english_name(language) + ".jsonl"@);
}

/// Distinct languages are downloaded from distinct addresses.
pub proof fn lemma_resource_urls_are_distinct(a: Language, b: Language)
    requires
        a != b,
    ensures
        resource_url_of(a) != resource_url_of(b),
{
    lemma_resource_url_names_its_language(a);
    lemma_resource_url_names_its_language(b);
    reveal_strlit("https://kaikki.org/dictionary/");
    reveal_strlit("English");
    reveal_strlit("German");
    reveal_strlit("French");
    reveal_strlit("Spanish");
    reveal_strlit("Swedish");
    // The second letter of the name tells the languages apart.
    assert(resource_url_of(a)[31] == english_name(a)[1]);
    assert(resource_url_of(b)[31] == english_name(b)[1]);
}

/// The address of the extract of a language.
pub fn resource_url(language: &Language) -> (res: String)
    ensures
        res@ == resource_url_of(*language),
{
    let url = match language {
        Language::EN => "https://kaikki.org/dictionary/English/kaikki.org-dictionary-English.jsonl",
        Language::DE => "https://kaikki.org/dictionary/German/kaikki.org-dictionary-German.jsonl",
        Language::FR => "https://kaikki.org/dictionary/French/kaikki.org-dictionary-French.jsonl",
        Language::ES => "https://kaikki.org/dictionary/Spanish/kaikki.org-dictionary-Spanish.jsonl",
        Language::SV => "https://kaikki.org/dictionary/Swedish/kaikki.org-dictionary-Swedish.jsonl",
    };
    url.to_owned()
}

/// A download to make: from where, into which file.
#[derive(Clone, Debug)]
pub struct DownloadRequest {
    pub url: String,
    pub output_filename: String,
}

/// Why a download is refused.
#[derive(Clone, Debug)]
pub enum DownloadError {
    /// The file exists and overwriting it was not asked for.
    FileExists(String),
}

/// The downloader of dictionary extracts.
pub struct Downloader {}

impl Downloader {
    /// The download of the extract of `language` into `output_filename`,
    /// which is refused when the file exists (`output_exists`) and `force`
    /// is not given.
    pub fn download_dictionary_extract(
        language: &Language,
        force: bool,
        output_filename: String,
        output_exists: bool,
    ) -> (res: Result<DownloadRequest, DownloadError>)
        ensures
            output_exists && !force ==> (res matches Err(DownloadError::FileExists(f)) && f@
                == output_filename@),
            !(output_exists && !force) ==> (res matches Ok(r) && r.url@ == resource_url_of(
                *language,
            ) && r.output_filename@ == output_filename@),
    {
        let url = resource_url(language);
        if output_exists && !force {
            return Err(DownloadError::FileExists(output_filename));
        }
        Ok(DownloadRequest { url, output_filename })
    }
}

} // verus!
