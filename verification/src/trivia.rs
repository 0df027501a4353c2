//! Trivia: non-semantic source text (whitespace, comments) attached to the
//! leading or trailing edge of a token.

use vstd::prelude::*;

verus! {

/// Classification of a single trivia fragment.
#[derive(Clone, Copy, PartialEq, Eq, Structural, Debug)]
pub enum TriviaKind {
    Whitespace,
    Newline,
    LineComment,
    BlockComment,
}

/// One trivia fragment: its kind and its exact source text.
///
/// The order of pieces within a token's leading or trailing list is
/// significant: concatenating their texts in order reproduces the exact
/// source bytes around the token.
#[derive(Debug)]
pub struct TriviaPiece {
    pub kind: TriviaKind,
    pub text: String,
}

/// Ghost image of a trivia piece.
#[verifier::ext_equal]
pub ghost struct TriviaView {
    pub kind: TriviaKind,
    pub text: Seq<char>,
}

impl View for TriviaPiece {
    type V = TriviaView;

    open spec fn view(&self) -> TriviaView {
        TriviaView { kind: self.kind, text: self.text@ }
    }
}

impl Clone for TriviaPiece {
    fn clone(&self) -> (r: Self)
        ensures
            r == *self,
    {
        TriviaPiece { kind: self.kind, text: self.text.clone() }
    }
}

impl TriviaPiece {
    /// Builds a trivia piece with the given kind and exact text.
    pub fn new(kind: TriviaKind, text: String) -> (r: TriviaPiece)
        ensures
            r@ == (TriviaView { kind, text: text@ }),
    {
        TriviaPiece { kind, text }
    }

    /// The exact length, in characters, of this piece's text.
    pub fn text_len(&self) -> (r: usize)
        ensures
            r == self@.text.len(),
    {
        self.text.as_str().unicode_len()
    }
}

/// The ghost image of a list of trivia pieces.
pub open spec fn pieces_view(ps: Seq<TriviaPiece>) -> Seq<TriviaView> {
    ps.map_values(|p: TriviaPiece| p@)
}

/// The source text of a list of trivia pieces: each piece's text, in order.
pub open spec fn trivia_text(ps: Seq<TriviaView>) -> Seq<char>
    decreases ps.len(),
{
    if ps.len() == 0 {
        Seq::empty()
    } else {
        ps[0].text + trivia_text(ps.drop_first())
    }
}

/// Appending a piece to a trivia list appends its text to the list's text.
pub proof fn lemma_trivia_text_push(ps: Seq<TriviaView>, p: TriviaView)
    ensures
        trivia_text(ps.push(p)) == trivia_text(ps) + p.text,
    decreases ps.len(),
{
    if ps.len() == 0 {
        assert(ps.push(p).drop_first() =~= Seq::<TriviaView>::empty());
        assert(ps.push(p)[0] == p);
        assert(trivia_text(ps.push(p)) == p.text + trivia_text(Seq::<TriviaView>::empty()));
        assert(p.text + Seq::<char>::empty() =~= Seq::<char>::empty() + p.text);
    } else {
        assert(ps.push(p).drop_first() =~= ps.drop_first().push(p));
        assert(ps.push(p)[0] == ps[0]);
        lemma_trivia_text_push(ps.drop_first(), p);
        assert(ps[0].text + (trivia_text(ps.drop_first()) + p.text) =~= (ps[0].text
            + trivia_text(ps.drop_first())) + p.text);
    }
}

/// Writes the exact text of every piece, in order, onto `out`.
pub fn write_trivia(ps: &Vec<TriviaPiece>, out: &mut String)
    ensures
        final(out)@ == old(out)@ + trivia_text(pieces_view(ps@)),
{
    let ghost views = pieces_view(ps@);
    let mut i: usize = 0;
    while i < ps.len()
        invariant
            i <= ps.len(),
            views == pieces_view(ps@),
            out@ == old(out)@ + trivia_text(views.take(i as int)),
        decreases ps.len() - i,
    {
        proof {
            assert(views.take(i + 1) =~= views.take(i as int).push(views[i as int]));
            lemma_trivia_text_push(views.take(i as int), views[i as int]);
        }
        out.append(ps[i].text.as_str());
        i = i + 1;
    }
    proof {
        assert(views.take(ps@.len() as int) =~= views);
    }
}

} // verus!
