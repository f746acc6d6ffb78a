//! Templates of formatted text: what a formatted text says, piece by piece,
//! up to the escape sequences of styled pieces.
use vstd::prelude::*;
use crate::style::styled_with;
use crate::text::{join_seq, spec_fill, spec_indent, indent_prefix};

verus! {

/// A piece of a formatted text.
pub ghost enum Piece {
    /// Text that stands as it is.
    Plain(Seq<char>),
    /// Text that is styled (colored, bold, italic, ...): the code of the
    /// style, and the text.
    Styled(Seq<char>, Seq<char>),
    /// The rendering of a template, wrapped at a width.
    Filled(Seq<Piece>, usize),
    /// The rendering of a template, indented by one space.
    Indented(Seq<Piece>),
}

/// The number of styled pieces in a template, nested ones included.
pub open spec fn styled_count(ps: Seq<Piece>) -> nat
    decreases ps,
{
    if ps.len() == 0 {
        0
    } else {
        let first: nat = match ps[0] {
            Piece::Plain(_) => 0,
            Piece::Styled(_, _) => 1,
            Piece::Filled(inner, _) => {
                proof {
                    assert(decreases_to!(ps => ps[0]));
                }
                styled_count(inner)
            },
            Piece::Indented(inner) => {
                proof {
                    assert(decreases_to!(ps => ps[0]));
                }
                styled_count(inner)
            },
        };
        first + styled_count(ps.drop_first())
    }
}

/// The codes and texts of the styled pieces of a template, in order.
pub open spec fn styled_texts(ps: Seq<Piece>) -> Seq<(Seq<char>, Seq<char>)>
    decreases ps,
{
    if ps.len() == 0 {
        Seq::empty()
    } else {
        let first: Seq<(Seq<char>, Seq<char>)> = match ps[0] {
            Piece::Plain(_) => Seq::empty(),
            Piece::Styled(code, t) => seq![(code, t)],
            Piece::Filled(inner, _) => {
                proof {
                    assert(decreases_to!(ps => ps[0]));
                }
                styled_texts(inner)
            },
            Piece::Indented(inner) => {
                proof {
                    assert(decreases_to!(ps => ps[0]));
                }
                styled_texts(inner)
            },
        };
        first + styled_texts(ps.drop_first())
    }
}

/// The text that a template stands for when its styled pieces are shown as
/// `outs`, in order.
pub open spec fn instantiate(ps: Seq<Piece>, outs: Seq<Seq<char>>) -> Seq<char>
    decreases ps,
{
    if ps.len() == 0 {
        Seq::empty()
    } else {
        match ps[0] {
            Piece::Plain(t) => t + instantiate(ps.drop_first(), outs),
            Piece::Styled(_, _) => outs[0] + instantiate(ps.drop_first(), outs.drop_first()),
            Piece::Filled(inner, width) => {
                proof {
                    assert(decreases_to!(ps => ps[0]));
                }
                let c = styled_count(inner) as int;
                spec_fill(instantiate(inner, outs.take(c)), width) + instantiate(
                    ps.drop_first(),
                    outs.skip(c),
                )
            },
            Piece::Indented(inner) => {
                proof {
                    assert(decreases_to!(ps => ps[0]));
                }
                let c = styled_count(inner) as int;
                spec_indent(instantiate(inner, outs.take(c)), indent_prefix()) + instantiate(
                    ps.drop_first(),
                    outs.skip(c),
                )
            },
        }
    }
}

/// Each of `outs` is a styled rendering of the matching text of `texts`.
pub open spec fn styled_renderings(outs: Seq<Seq<char>>, texts: Seq<(Seq<char>, Seq<char>)>) -> bool {
    &&& outs.len() == texts.len()
    &&& forall|i: int| 0 <= i < outs.len() ==> styled_with(#[trigger] outs[i], texts[i].1, texts[i].0)
}

/// `res` is a rendering of the template `ps`: the plain pieces as they
/// are, each styled piece as a styling of its text, wrapped and indented
/// pieces as `textwrap` wraps and indents their rendering.
pub open spec fn renders_all(res: Seq<char>, ps: Seq<Piece>) -> bool {
    exists|outs: Seq<Seq<char>>|
        styled_renderings(outs, styled_texts(ps)) && res == #[trigger] instantiate(ps, outs)
}

/// The pieces of `list` with the pieces of `separator` between each two.
pub open spec fn join_pieces(list: Seq<Seq<Piece>>, separator: Seq<Piece>) -> Seq<Piece>
    decreases list.len(),
{
    if list.len() == 0 {
        Seq::empty()
    } else if list.len() == 1 {
        list[0]
    } else {
        join_pieces(list.drop_last(), separator) + separator + list.last()
    }
}

proof fn lemma_count_is_len(ps: Seq<Piece>)
    ensures
        styled_texts(ps).len() == styled_count(ps),
    decreases ps,
{
    if ps.len() > 0 {
        assert(decreases_to!(ps => ps[0]));
        match ps[0] {
            Piece::Filled(inner, _) => lemma_count_is_len(inner),
            Piece::Indented(inner) => lemma_count_is_len(inner),
            _ => {},
        }
        lemma_count_is_len(ps.drop_first());
    }
}

proof fn lemma_concat_parts(pa: Seq<Piece>, pb: Seq<Piece>, oa: Seq<Seq<char>>, ob: Seq<Seq<char>>)
    requires
        oa.len() == styled_count(pa),
    ensures
        styled_count(pa + pb) == styled_count(pa) + styled_count(pb),
        styled_texts(pa + pb) == styled_texts(pa) + styled_texts(pb),
        instantiate(pa + pb, oa + ob) == instantiate(pa, oa) + instantiate(pb, ob),
    decreases pa.len(),
{
    let pab = pa + pb;
    if pa.len() == 0 {
        assert(pab =~= pb);
        assert(oa + ob =~= ob);
        assert(styled_texts(pa) =~= Seq::<(Seq<char>, Seq<char>)>::empty());
        assert(styled_texts(pab) =~= styled_texts(pa) + styled_texts(pb));
    } else {
        assert(pab[0] == pa[0]);
        assert(pab.drop_first() =~= pa.drop_first() + pb);
        lemma_count_is_len(pa);
        match pa[0] {
            Piece::Plain(t) => {
                lemma_concat_parts(pa.drop_first(), pb, oa, ob);
                assert(styled_texts(pab) =~= styled_texts(pa) + styled_texts(pb));
            },
            Piece::Styled(code, t) => {
                lemma_concat_parts(pa.drop_first(), pb, oa.drop_first(), ob);
                assert((oa + ob).drop_first() =~= oa.drop_first() + ob);
                assert(styled_texts(pab) =~= styled_texts(pa) + styled_texts(pb));
            },
            Piece::Filled(inner, w) => {
                let c = styled_count(inner) as int;
                lemma_concat_parts(pa.drop_first(), pb, oa.skip(c), ob);
                assert((oa + ob).take(c) =~= oa.take(c));
                assert((oa + ob).skip(c) =~= oa.skip(c) + ob);
                assert(styled_texts(pab) =~= styled_texts(pa) + styled_texts(pb));
            },
            Piece::Indented(inner) => {
                let c = styled_count(inner) as int;
                lemma_concat_parts(pa.drop_first(), pb, oa.skip(c), ob);
                assert((oa + ob).take(c) =~= oa.take(c));
                assert((oa + ob).skip(c) =~= oa.skip(c) + ob);
                assert(styled_texts(pab) =~= styled_texts(pa) + styled_texts(pb));
            },
        }
    }
}

/// Renderings of two templates, one after the other, render the two
/// templates one after the other.
pub proof fn lemma_renders_concat(a: Seq<char>, pa: Seq<Piece>, b: Seq<char>, pb: Seq<Piece>)
    requires
        renders_all(a, pa),
        renders_all(b, pb),
    ensures
        renders_all(a + b, pa + pb),
{
    let oa = choose|outs: Seq<Seq<char>>|
        styled_renderings(outs, styled_texts(pa)) && a == #[trigger] instantiate(pa, outs);
    let ob = choose|outs: Seq<Seq<char>>|
        styled_renderings(outs, styled_texts(pb)) && b == #[trigger] instantiate(pb, outs);
    lemma_count_is_len(pa);
    lemma_concat_parts(pa, pb, oa, ob);
    let o = oa + ob;
    assert(styled_renderings(o, styled_texts(pa + pb))) by {
        assert forall|i: int| 0 <= i < o.len() implies styled_with(
            #[trigger] o[i],
            styled_texts(pa + pb)[i].1,
            styled_texts(pa + pb)[i].0,
        ) by {
            if i < oa.len() {
                assert(styled_with(oa[i], styled_texts(pa)[i].1, styled_texts(pa)[i].0));
            } else {
                assert(styled_with(
                    ob[i - oa.len()],
                    styled_texts(pb)[i - oa.len()].1,
                    styled_texts(pb)[i - oa.len()].0,
                ));
            }
        }
    }
    assert(a + b == instantiate(pa + pb, o));
}

/// Plain text renders the template that holds it alone.
pub proof fn lemma_renders_plain(t: Seq<char>)
    ensures
        renders_all(t, seq![Piece::Plain(t)]),
{
    reveal_with_fuel(styled_texts, 2);
    reveal_with_fuel(instantiate, 2);
    let ps = seq![Piece::Plain(t)];
    let outs = Seq::<Seq<char>>::empty();
    assert(ps.drop_first() =~= Seq::<Piece>::empty());
    assert(styled_texts(ps) =~= Seq::<(Seq<char>, Seq<char>)>::empty());
    assert(t + Seq::<char>::empty() =~= t);
    assert(t == instantiate(ps, outs));
}

/// The empty text renders the empty template.
pub proof fn lemma_renders_empty()
    ensures
        renders_all(Seq::<char>::empty(), Seq::<Piece>::empty()),
{
    assert(Seq::<char>::empty() == instantiate(Seq::<Piece>::empty(), Seq::<Seq<char>>::empty()));
}

/// A text styled with `code` renders the template that holds the styled
/// text alone.
pub proof fn lemma_renders_styled(res: Seq<char>, code: Seq<char>, t: Seq<char>)
    requires
        styled_with(res, t, code),
    ensures
        renders_all(res, seq![Piece::Styled(code, t)]),
{
    reveal_with_fuel(styled_texts, 2);
    reveal_with_fuel(instantiate, 2);
    let ps = seq![Piece::Styled(code, t)];
    let outs = seq![res];
    assert(ps.drop_first() =~= Seq::<Piece>::empty());
    assert(styled_texts(ps) =~= seq![(code, t)]);
    assert(outs.drop_first() =~= Seq::<Seq<char>>::empty());
    assert(res + Seq::<char>::empty() =~= res);
    assert(res == instantiate(ps, outs));
    assert(styled_renderings(outs, styled_texts(ps)));
}

/// A wrapped rendering renders the wrapped template.
pub proof fn lemma_renders_filled(r: Seq<char>, inner: Seq<Piece>, width: usize)
    requires
        renders_all(r, inner),
    ensures
        renders_all(spec_fill(r, width), seq![Piece::Filled(inner, width)]),
{
    reveal_with_fuel(styled_texts, 2);
    reveal_with_fuel(instantiate, 2);
    let o = choose|outs: Seq<Seq<char>>|
        styled_renderings(outs, styled_texts(inner)) && r == #[trigger] instantiate(inner, outs);
    lemma_count_is_len(inner);
    let ps = seq![Piece::Filled(inner, width)];
    assert(ps.drop_first() =~= Seq::<Piece>::empty());
    let c = styled_count(inner) as int;
    assert(o.take(c) =~= o);
    assert(styled_texts(ps) =~= styled_texts(inner));
    assert(spec_fill(r, width) + Seq::<char>::empty() =~= spec_fill(r, width));
    assert(spec_fill(r, width) == instantiate(ps, o));
}

/// An indented rendering renders the indented template.
pub proof fn lemma_renders_indented(r: Seq<char>, inner: Seq<Piece>)
    requires
        renders_all(r, inner),
    ensures
        renders_all(spec_indent(r, indent_prefix()), seq![Piece::Indented(inner)]),
{
    reveal_with_fuel(styled_texts, 2);
    reveal_with_fuel(instantiate, 2);
    let o = choose|outs: Seq<Seq<char>>|
        styled_renderings(outs, styled_texts(inner)) && r == #[trigger] instantiate(inner, outs);
    lemma_count_is_len(inner);
    let ps = seq![Piece::Indented(inner)];
    assert(ps.drop_first() =~= Seq::<Piece>::empty());
    let c = styled_count(inner) as int;
    assert(o.take(c) =~= o);
    assert(styled_texts(ps) =~= styled_texts(inner));
    let s = spec_indent(r, indent_prefix());
    assert(s + Seq::<char>::empty() =~= s);
    assert(s == instantiate(ps, o));
}

/// Renderings of the pieces of a list, joined by a rendering of the
/// separator, render the joined template.
pub proof fn lemma_renders_join(
    texts: Seq<Seq<char>>,
    templates: Seq<Seq<Piece>>,
    sep: Seq<char>,
    sep_template: Seq<Piece>,
)
    requires
        texts.len() == templates.len(),
        forall|i: int| 0 <= i < texts.len() ==> renders_all(#[trigger] texts[i], templates[i]),
        renders_all(sep, sep_template),
    ensures
        renders_all(join_seq(texts, sep), join_pieces(templates, sep_template)),
    decreases texts.len(),
{
    if texts.len() == 0 {
        lemma_renders_empty();
    } else if texts.len() == 1 {
        assert(renders_all(texts[0], templates[0]));
    } else {
        lemma_renders_join(texts.drop_last(), templates.drop_last(), sep, sep_template);
        let j = join_seq(texts.drop_last(), sep);
        let jp = join_pieces(templates.drop_last(), sep_template);
        lemma_renders_concat(j, jp, sep, sep_template);
        assert(renders_all(texts.last(), templates.last()));
        lemma_renders_concat(j + sep, jp + sep_template, texts.last(), templates.last());
    }
}

} // verus!

verus! {

/// `a` followed by `b`, rendering the template of `a` followed by that of `b`.
pub fn cat(a: String, b: &str, Ghost(ta): Ghost<Seq<Piece>>, Ghost(tb): Ghost<Seq<Piece>>) -> (res:
    String)
    requires
        renders_all(a@, ta),
        renders_all(b@, tb),
    ensures
        res@ == a@ + b@,
        renders_all(res@, ta + tb),
{
    let mut res = a;
    res.append(b);
    proof {
        lemma_renders_concat(a@, ta, b@, tb);
    }
    res
}

/// A copy of `s`, rendering the plain template of its text.
pub fn plain(s: &str) -> (res: String)
    ensures
        res@ == s@,
        renders_all(res@, seq![Piece::Plain(s@)]),
{
    proof {
        lemma_renders_plain(s@);
    }
    s.to_owned()
}

} // verus!
