//! Where the dictionary files are.
use vstd::prelude::*;
use crate::language::{Language, language_code};
use crate::text::{chars_of, push_char, push_str};

verus! {

/// `template` with its first `{}` replaced by `value`; the template as it
/// is when it has none.
pub open spec fn fill_placeholder(template: Seq<char>, value: Seq<char>) -> Seq<char>
    decreases template.len(),
{
    if template.len() < 2 {
        template
    } else if template[0] == '{' && template[1] == '}' {
        value + template.skip(2)
    } else {
        seq![template[0]] + fill_placeholder(template.drop_first(), value)
    }
}

/// `template` with its first `{}` replaced by `value`.
pub fn fill_template(template: &str, value: &str) -> (res: String)
    ensures
        res@ == fill_placeholder(template@, value@),
{
    let chars = chars_of(template);
    let n = chars.len();
    let mut res = String::new();
    let mut i: usize = 0;
    let mut filled = false;
    assert(template@.skip(0) =~= template@);
    while i < n
        invariant
            chars@ == template@,
            n == template@.len(),
            i <= n,
            !filled ==> fill_placeholder(template@, value@) == res@ + fill_placeholder(
                template@.skip(i as int),
                value@,
            ),
            filled ==> fill_placeholder(template@, value@) == res@ + template@.skip(i as int),
        decreases n - i,
    {
        let c = chars[i];
        let ghost rest = template@.skip(i as int);
        if !filled && i + 1 < n && c == '{' && chars[i + 1] == '}' {
            assert(rest[0] == '{' && rest[1] == '}');
            assert(rest.skip(2) =~= template@.skip(i + 2));
            push_str(&mut res, value);
            filled = true;
            i = i + 2;
        } else {
            proof {
                if !filled {
                    if rest.len() >= 2 {
                        assert(rest.drop_first() =~= template@.skip(i + 1));
                        assert(res@ + (seq![c] + fill_placeholder(rest.drop_first(), value@))
                            =~= res@.push(c) + fill_placeholder(template@.skip(i + 1), value@));
                    } else {
                        assert(rest =~= seq![c]);
                        assert(template@.skip(i + 1) =~= Seq::<char>::empty());
                        assert(res@ + rest =~= res@.push(c) + template@.skip(i + 1));
                    }
                } else {
                    assert(res@ + rest =~= res@.push(c) + template@.skip(i + 1));
                }
            }
            push_char(&mut res, c);
            i = i + 1;
        }
    }
    assert(template@.skip(n as int) =~= Seq::<char>::empty());
    assert(res@ + Seq::<char>::empty() =~= res@);
    res
}

/// The path of the dictionary file: the path given, or else the default
/// path of the language, `template` with the language code in place of its
/// `{}`.
pub fn get_db_path(path: Option<String>, language: &Language, template: &str) -> (res: String)
    ensures
        res@ == match path {
            Some(p) => p@,
            None => fill_placeholder(template@, language_code(*language)),
        },
{
    if let Some(path) = path {
        return path;
    }
    fill_template(template, language.value().as_str())
}

} // verus!
