use vstd::prelude::*;

use super::key::PlaceholderKey;
use super::pattern::{
    spec_interpolate, InterpolatedKind, InterpolatorError, KindModel, Pattern, ReplacementProvider,
};
use super::token::{tokens_view, PatternToken, TokenModel};

verus! {

/// The tokens after the first placeholder that `r` has no replacement for; none where
/// every placeholder has one.
pub open spec fn spec_after_missing<E, R: ReplacementProvider<E>>(
    tokens: Seq<TokenModel<<R::Key as View>::V>>,
    r: R,
) -> Seq<TokenModel<<R::Key as View>::V>>
    decreases tokens.len(),
{
    if tokens.len() == 0 {
        Seq::empty()
    } else {
        match tokens[0] {
            TokenModel::Placeholder(k) => if r.spec_replacement(k) is None {
                tokens.drop_first()
            } else {
                spec_after_missing::<E, R>(tokens.drop_first(), r)
            },
            TokenModel::Literal { .. } => spec_after_missing::<E, R>(tokens.drop_first(), r),
        }
    }
}

/// The pieces `x` as pieces of replacement elements.
pub open spec fn elements<E>(x: Seq<E>) -> Seq<KindModel<E>> {
    x.map_values(|e: E| KindModel::Element(e))
}

/// Interpolates a pattern one piece at a time.
pub struct Interpolator<'i, P, E, R> {
    tokens: &'i [PatternToken<P>],
    token_idx: usize,
    replacements: &'i R,
    current: &'i [E],
    current_idx: usize,
}

impl<'i, P, E, R> Interpolator<'i, P, E, R> {
    /// The positions fit the tokens and the replacement being handed out.
    #[verifier::type_invariant]
    spec fn positions_fit(self) -> bool {
        &&& self.token_idx <= self.tokens@.len()
        &&& self.current_idx <= self.current@.len()
    }
}

impl<'i, P: PlaceholderKey, E, R: ReplacementProvider<E, Key = P>> Interpolator<'i, P, E, R> {
    /// The tokens not yet read.
    closed spec fn remaining(&self) -> Seq<TokenModel<P::V>> {
        tokens_view(self.tokens@).skip(self.token_idx as int)
    }

    /// The replacements.
    pub closed spec fn provider(&self) -> R {
        *self.replacements
    }

    /// The pieces still to hand out before the next missing placeholder or the end.
    pub closed spec fn pending(&self) -> Seq<KindModel<E>> {
        elements(self.current@.skip(self.current_idx as int)) + spec_interpolate::<E, R>(
            self.remaining(),
            *self.replacements,
        ).0
    }

    /// The key of the next placeholder without replacement, if any.
    pub closed spec fn missing(&self) -> Option<P::V> {
        spec_interpolate::<E, R>(self.remaining(), *self.replacements).1
    }

    /// The tokens after the next placeholder without replacement.
    pub closed spec fn continuation(&self) -> Seq<TokenModel<P::V>> {
        spec_after_missing::<E, R>(self.remaining(), *self.replacements)
    }

    /// An interpolator at the start of `pattern`.
    pub fn new(pattern: &'i Pattern<P>, replacements: &'i R) -> (r: Interpolator<'i, P, E, R>)
        ensures
            r.provider() == *replacements,
            r.pending() == spec_interpolate::<E, R>(pattern@, *replacements).0,
            r.missing() == spec_interpolate::<E, R>(pattern@, *replacements).1,
            r.continuation() == spec_after_missing::<E, R>(pattern@, *replacements),
    {
        let tokens = pattern.tokens();
        let r = Interpolator { tokens, token_idx: 0, replacements, current: &[], current_idx: 0 };
        assert(tokens_view(tokens@).skip(0) =~= pattern@);
        assert(elements(r.current@.skip(0)) =~= Seq::<KindModel<E>>::empty());
        assert(r.pending() =~= spec_interpolate::<E, R>(pattern@, *replacements).0);
        r
    }

    /// The next piece, `None` at the end, or the error for the next placeholder without
    /// replacement; after that error, interpolation goes on after that placeholder.
    pub fn try_next(&mut self) -> (r: Result<Option<InterpolatedKind<'i, E>>, InterpolatorError<P>>)
        ensures
            final(self).provider() == old(self).provider(),
            old(self).pending().len() > 0 ==> {
                &&& r matches Ok(Some(x)) && x@ == old(self).pending()[0]
                &&& final(self).pending() == old(self).pending().drop_first()
                &&& final(self).missing() == old(self).missing()
                &&& final(self).continuation() == old(self).continuation()
            },
            old(self).pending().len() == 0 && old(self).missing() is Some ==> {
                &&& r matches Err(InterpolatorError::MissingPlaceholder(k)) && Some(k@) == old(self).missing()
                &&& final(self).pending() == spec_interpolate::<E, R>(old(self).continuation(), old(self).provider()).0
                &&& final(self).missing() == spec_interpolate::<E, R>(old(self).continuation(), old(self).provider()).1
                &&& final(self).continuation() == spec_after_missing::<E, R>(old(self).continuation(), old(self).provider())
            },
            old(self).pending().len() == 0 && old(self).missing() is None ==> {
                &&& r matches Ok(None)
                &&& final(self).pending() == old(self).pending()
                &&& final(self).missing() == old(self).missing()
                &&& final(self).continuation() == old(self).continuation()
            },
    {
        proof {
            use_type_invariant(&*self);
        }
        if self.current_idx < self.current.len() {
            let cur = self.current;
            let x = &cur[self.current_idx];
            let ghost before = elements(cur@.skip(self.current_idx as int));
            self.current_idx = self.current_idx + 1;
            assert(elements(cur@.skip(self.current_idx as int)) =~= before.drop_first());
            assert(before[0] == KindModel::Element(*x));
            assert(self.pending() =~= old(self).pending().drop_first());
            return Ok(Some(InterpolatedKind::Element(x)));
        }
        assert(elements(self.current@.skip(self.current_idx as int)) =~= Seq::<KindModel<E>>::empty());
        assert(old(self).pending() =~= spec_interpolate::<E, R>(old(self).remaining(), *self.replacements).0);
        loop
            invariant
                self.token_idx <= self.tokens@.len(),
                self.current_idx == self.current@.len(),
                self.replacements == old(self).replacements,
                self.tokens == old(self).tokens,
                old(self).pending() == spec_interpolate::<E, R>(self.remaining(), *self.replacements).0,
                old(self).missing() == self.missing(),
                old(self).continuation() == self.continuation(),
            decreases self.tokens@.len() - self.token_idx,
        {
            assert(elements(self.current@.skip(self.current_idx as int)) =~= Seq::<KindModel<E>>::empty());
            if self.token_idx >= self.tokens.len() {
                assert(self.remaining() =~= Seq::<TokenModel<P::V>>::empty());
                assert(self.pending() =~= old(self).pending());
                return Ok(None);
            }
            let toks = self.tokens;
            let ghost rem = self.remaining();
            assert(rem[0] == toks@[self.token_idx as int]@);
            assert(rem.drop_first() =~= tokens_view(toks@).skip(self.token_idx + 1));
            match &toks[self.token_idx] {
                PatternToken::Literal { content, .. } => {
                    self.token_idx = self.token_idx + 1;
                    assert(self.remaining() =~= rem.drop_first());
                    assert(self.pending() =~= old(self).pending().drop_first());
                    return Ok(Some(InterpolatedKind::Literal(content)));
                },
                PatternToken::Placeholder(key) => {
                    self.token_idx = self.token_idx + 1;
                    assert(self.remaining() =~= rem.drop_first());
                    let reps: &'i R = self.replacements;
                    match reps.take_replacement(key) {
                        None => {
                            self.current_idx = 0;
                            self.current = &[];
                            assert(elements(self.current@.skip(0)) =~= Seq::<KindModel<E>>::empty());
                            assert(self.pending() =~= spec_interpolate::<E, R>(self.remaining(), *self.replacements).0);
                            return Err(InterpolatorError::MissingPlaceholder(key.clone_key()));
                        },
                        Some(elems) => {
                            self.current_idx = 0;
                            self.current = elems;
                            if elems.len() > 0 {
                                self.current_idx = 1;
                                assert(elements(elems@)[0] == KindModel::Element(elems@[0]));
                                assert(elements(elems@.skip(1)) =~= elements(elems@).drop_first());
                                assert(self.pending() =~= old(self).pending().drop_first());
                                return Ok(Some(InterpolatedKind::Element(&elems[0])));
                            }
                            assert(elems@.skip(0) =~= elems@);
                            assert(elements(elems@) =~= Seq::<KindModel<E>>::empty());
                            assert(old(self).pending() =~= spec_interpolate::<E, R>(self.remaining(), *self.replacements).0);
                        },
                    }
                },
            }
        }
    }
}

} // verus!
