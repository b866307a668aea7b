use vstd::prelude::*;

verus! {

/// A token of a placeholder pattern: a placeholder key, or literal text (with
/// whether it was quoted).
#[derive(Debug, Clone, PartialEq)]
pub enum PatternToken<P> {
    Placeholder(P),
    Literal { content: String, quoted: bool },
}

/// The mathematical model of a token, over the model `K` of its key.
pub ghost enum TokenModel<K> {
    Placeholder(K),
    Literal { content: Seq<char>, quoted: bool },
}

impl<P: View> View for PatternToken<P> {
    type V = TokenModel<P::V>;

    open spec fn view(&self) -> TokenModel<P::V> {
        match self {
            PatternToken::Placeholder(k) => TokenModel::Placeholder(k@),
            PatternToken::Literal { content, quoted } => TokenModel::Literal {
                content: content@,
                quoted: *quoted,
            },
        }
    }
}

/// The models of a sequence of tokens.
pub open spec fn tokens_view<P: View>(v: Seq<PatternToken<P>>) -> Seq<TokenModel<P::V>> {
    v.map_values(|t: PatternToken<P>| t@)
}

/// The models of a sequence with one more token are those of the sequence, and the new token's.
pub proof fn lemma_tokens_view_push<P: View>(v: Seq<PatternToken<P>>, x: PatternToken<P>)
    ensures
        tokens_view(v.push(x)) == tokens_view(v).push(x@),
{
    assert(tokens_view(v.push(x)) =~= tokens_view(v).push(x@));
}

} // verus!
