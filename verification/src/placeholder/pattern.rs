use vstd::prelude::*;

use super::interpolator::Interpolator;
use std::collections::HashMap;
use super::key::PlaceholderKey;
use super::parser::{spec_parse_tokens, spec_tokens, Parser, ParserError, ParserOptions};
use super::token::{tokens_view, PatternToken, TokenModel};

verus! {

/// One piece of an interpolated pattern: literal text of the pattern, or an element of
/// a replacement.
#[derive(Debug, PartialEq)]
pub enum InterpolatedKind<'i, E> {
    Literal(&'i String),
    Element(&'i E),
}

/// The mathematical model of an interpolated piece.
pub ghost enum KindModel<E> {
    Literal(Seq<char>),
    Element(E),
}

impl<'i, E> View for InterpolatedKind<'i, E> {
    type V = KindModel<E>;

    open spec fn view(&self) -> KindModel<E> {
        match self {
            InterpolatedKind::Literal(s) => KindModel::Literal(s@),
            InterpolatedKind::Element(e) => KindModel::Element(**e),
        }
    }
}

/// The models of a sequence of interpolated pieces.
pub open spec fn kinds_view<'i, E>(v: Seq<InterpolatedKind<'i, E>>) -> Seq<KindModel<E>> {
    v.map_values(|k: InterpolatedKind<'i, E>| k@)
}

proof fn lemma_kinds_view_push<'i, E>(v: Seq<InterpolatedKind<'i, E>>, x: InterpolatedKind<'i, E>)
    ensures
        kinds_view(v.push(x)) == kinds_view(v).push(x@),
{
    assert(kinds_view(v.push(x)) =~= kinds_view(v).push(x@));
}

/// A source of replacements: for a placeholder key, the elements that stand for it.
pub trait ReplacementProvider<E> {
    type Key: PlaceholderKey;

    /// The elements that stand for the key `key`, if any.
    spec fn spec_replacement(&self, key: <Self::Key as View>::V) -> Option<Seq<E>>;

    /// The elements that stand for `key`, or `None` where there are none.
    fn take_replacement(&self, key: &Self::Key) -> (r: Option<&[E]>)
        ensures
            match self.spec_replacement(key@) {
                Some(v) => r matches Some(sl) && sl@ == v,
                None => r is None,
            },
    ;
}

impl<E> ReplacementProvider<E> for Vec<Vec<E>> {
    type Key = usize;

    open spec fn spec_replacement(&self, key: usize) -> Option<Seq<E>> {
        if key < self@.len() {
            Some(self@[key as int]@)
        } else {
            None
        }
    }

    fn take_replacement(&self, key: &usize) -> (r: Option<&[E]>) {
        if *key < self.len() {
            Some(self[*key].as_slice())
        } else {
            None
        }
    }
}

/// Whether `m` has a key whose text is `key`.
pub open spec fn has_key_text<V>(m: Map<String, V>, key: Seq<char>) -> bool {
    exists|k: String| m.dom().contains(k) && k@ == key
}

/// Looks `key` up in `m` with `HashMap::get`, which finds the entry whose key equals
/// `key`, `String`s being equal when their text is. The contract claims just that: the
/// entry found is that of a key with the text of `key` (every such key having that
/// entry), and where none is found no key has that text.
#[verifier::external_body]
fn hash_map_get<'a, E>(m: &'a HashMap<String, Vec<E>>, key: &String) -> (r: Option<&'a Vec<E>>)
    ensures
        match r {
            Some(v) => has_key_text(m@, key@) && forall|k: String|
                m@.dom().contains(k) && k@ == key@ ==> m@[k] == *v,
            None => !has_key_text(m@, key@),
        },
{
    m.get(key)
}

impl<E> ReplacementProvider<E> for HashMap<String, Vec<E>> {
    type Key = String;

    open spec fn spec_replacement(&self, key: Seq<char>) -> Option<Seq<E>> {
        if has_key_text(self@, key) {
            Some(self@[choose|k: String| self@.dom().contains(k) && k@ == key]@)
        } else {
            None
        }
    }

    fn take_replacement(&self, key: &String) -> (r: Option<&[E]>) {
        match hash_map_get(self, key) {
            Some(v) => Some(v.as_slice()),
            None => None,
        }
    }
}

/// Elements that can be written out as text.
pub trait Render {
    /// The text of the element.
    spec fn spec_render(&self) -> Seq<char>;

    /// Appends the text of the element to `out`.
    fn render_into(&self, out: &mut String)
        ensures
            final(out)@ == old(out)@ + self.spec_render(),
    ;
}

impl Render for String {
    open spec fn spec_render(&self) -> Seq<char> {
        self@
    }

    fn render_into(&self, out: &mut String) {
        out.append(self.as_str());
    }
}

/// The text of an interpolated piece.
pub open spec fn spec_render_kind<E: Render>(k: KindModel<E>) -> Seq<char> {
    match k {
        KindModel::Literal(t) => t,
        KindModel::Element(e) => e.spec_render(),
    }
}

/// The text of a sequence of interpolated pieces.
pub open spec fn spec_render_kinds<E: Render>(ks: Seq<KindModel<E>>) -> Seq<char>
    decreases ks.len(),
{
    if ks.len() == 0 {
        Seq::empty()
    } else {
        spec_render_kinds(ks.drop_last()) + spec_render_kind(ks.last())
    }
}

/// The pieces that interpolating `tokens` with `r` produces, left to right, and the key
/// of the first placeholder that `r` has no replacement for, where there is one;
/// production stops at that placeholder.
pub open spec fn spec_interpolate<E, R: ReplacementProvider<E>>(
    tokens: Seq<TokenModel<<R::Key as View>::V>>,
    r: R,
) -> (Seq<KindModel<E>>, Option<<R::Key as View>::V>)
    decreases tokens.len(),
{
    if tokens.len() == 0 {
        (Seq::empty(), None)
    } else {
        let rest = spec_interpolate::<E, R>(tokens.drop_first(), r);
        match tokens[0] {
            TokenModel::Literal { content, .. } => (
                seq![KindModel::Literal(content)] + rest.0,
                rest.1,
            ),
            TokenModel::Placeholder(k) => match r.spec_replacement(k) {
                None => (Seq::empty(), Some(k)),
                Some(v) => (v.map_values(|e: E| KindModel::Element(e)) + rest.0, rest.1),
            },
        }
    }
}

/// Errors of interpolation.
#[derive(Debug, Clone, PartialEq)]
pub enum InterpolatorError<K> {
    /// The replacements have nothing for this placeholder key.
    MissingPlaceholder(K),
}

/// Errors of parsing or interpolating a pattern.
#[derive(Debug, Clone, PartialEq)]
pub enum PatternError<K> {
    Parser(ParserError),
    Interpolator(InterpolatorError<K>),
}

/// Whether `e` is the error for a missing replacement of the key whose model is `k`.
pub open spec fn is_missing<K: View>(e: PatternError<K>, k: K::V) -> bool {
    e matches PatternError::Interpolator(InterpolatorError::MissingPlaceholder(k2)) && k2@ == k
}

/// A placeholder pattern: a sequence of tokens.
#[derive(Debug, Clone, PartialEq)]
pub struct Pattern<P>(Vec<PatternToken<P>>);

impl<P: View> View for Pattern<P> {
    type V = Seq<TokenModel<P::V>>;

    closed spec fn view(&self) -> Seq<TokenModel<P::V>> {
        tokens_view(self.0@)
    }
}

/// The result of interpolation: a sequence of pieces.
#[derive(Debug, PartialEq)]
pub struct InterpolatedPattern<'i, E>(Vec<InterpolatedKind<'i, E>>);

impl<'i, E> View for InterpolatedPattern<'i, E> {
    type V = Seq<KindModel<E>>;

    closed spec fn view(&self) -> Seq<KindModel<E>> {
        kinds_view(self.0@)
    }
}

impl<'i, E> InterpolatedKind<'i, E> {
    /// Appends the text of this piece to `out`.
    pub fn render_into(&self, out: &mut String) where E: Render
        ensures
            final(out)@ == old(out)@ + spec_render_kind(self@),
    {
        match self {
            InterpolatedKind::Literal(s) => out.append(s.as_str()),
            InterpolatedKind::Element(e) => e.render_into(out),
        }
    }
}

fn render_kinds_into<'i, E: Render>(ks: &Vec<InterpolatedKind<'i, E>>, out: &mut String)
    ensures
        final(out)@ == old(out)@ + spec_render_kinds(kinds_view(ks@)),
{
    let mut i: usize = 0;
    assert(kinds_view(ks@).take(0) =~= Seq::<KindModel<E>>::empty());
    while i < ks.len()
        invariant
            i <= ks@.len(),
            out@ == old(out)@ + spec_render_kinds(kinds_view(ks@).take(i as int)),
        decreases ks@.len() - i,
    {
        ks[i].render_into(out);
        assert(kinds_view(ks@).take(i + 1).drop_last() =~= kinds_view(ks@).take(i as int));
        i = i + 1;
        assert(out@ =~= old(out)@ + spec_render_kinds(kinds_view(ks@).take(i as int)));
    }
    assert(kinds_view(ks@).take(i as int) =~= kinds_view(ks@));
}

impl<'i, E> InterpolatedPattern<'i, E> {
    /// The pieces, in order.
    pub fn kinds(&self) -> (r: &[InterpolatedKind<'i, E>])
        ensures
            kinds_view(r@) == self@,
    {
        self.0.as_slice()
    }

    /// The text of the interpolated pattern.
    pub fn render(&self) -> (r: String) where E: Render
        ensures
            r@ == spec_render_kinds(self@),
    {
        let mut out = String::new();
        render_kinds_into(&self.0, &mut out);
        assert(out@ =~= spec_render_kinds(self@));
        out
    }

    /// Collects every piece that `interpolator` has left, or returns the error for the
    /// next placeholder without replacement.
    pub fn try_from_interpolator<P: PlaceholderKey, R: ReplacementProvider<E, Key = P>>(
        interpolator: Interpolator<'i, P, E, R>,
    ) -> (r: Result<InterpolatedPattern<'i, E>, InterpolatorError<P>>)
        ensures
            match interpolator.missing() {
                None => r matches Ok(ip) && ip@ == interpolator.pending(),
                Some(k) => r matches Err(InterpolatorError::MissingPlaceholder(k2)) && k2@ == k,
            },
    {
        let mut it = interpolator;
        let mut result: Vec<InterpolatedKind<'i, E>> = Vec::new();
        assert(kinds_view(result@) + it.pending() =~= interpolator.pending());
        loop
            invariant
                kinds_view(result@) + it.pending() == interpolator.pending(),
                it.missing() == interpolator.missing(),
            decreases it.pending().len(),
        {
            let ghost before = it.pending();
            match it.try_next() {
                Ok(Some(x)) => {
                    let ghost prev = result@;
                    result.push(x);
                    proof {
                        lemma_kinds_view_push(prev, x);
                        assert(kinds_view(result@) + it.pending() =~= kinds_view(prev) + before);
                    }
                },
                Ok(None) => {
                    assert(kinds_view(result@) =~= interpolator.pending());
                    return Ok(InterpolatedPattern(result));
                },
                Err(e) => {
                    return Err(e);
                },
            }
        }
    }
}

impl<P: PlaceholderKey> Pattern<P> {
    /// The pattern made of the given tokens.
    pub fn from_tokens(tokens: Vec<PatternToken<P>>) -> (r: Pattern<P>)
        ensures
            r@ == tokens_view(tokens@),
    {
        Pattern(tokens)
    }

    /// The tokens, in order.
    pub fn tokens(&self) -> (r: &[PatternToken<P>])
        ensures
            tokens_view(r@) == self@,
    {
        self.0.as_slice()
    }

    /// The pattern made of all tokens that `parser` has left, or the first error it
    /// meets.
    pub fn try_from_parser(parser: Parser<P>) -> (r: Result<Pattern<P>, ParserError>)
        ensures
            match spec_tokens::<P>(parser.input(), parser.allows_raw_letters(), parser.cursor()) {
                Ok(v) => r matches Ok(p) && p@ == v,
                Err(e) => r matches Err(e2) && e2@ == e,
            },
    {
        match parser.try_collect_into_vec() {
            Ok(tokens) => Ok(Pattern(tokens)),
            Err(e) => Err(e),
        }
    }

    /// Parses a placeholder pattern, with ASCII letters allowed only inside quotes.
    pub fn try_from_str(input: &str) -> (r: Result<Pattern<P>, ParserError>)
        ensures
            match spec_parse_tokens::<P>(input@, false) {
                Ok(v) => r matches Ok(p) && p@ == v,
                Err(e) => r matches Err(e2) && e2@ == e,
            },
    {
        let parser = Parser::<P>::new(input, ParserOptions { allow_raw_letters: false });
        Pattern::try_from_parser(parser)
    }

    /// Interpolates the pattern with `replacements`: literal tokens stay, each
    /// placeholder gives way to the elements of its replacement.
    pub fn interpolate<'i, E, R: ReplacementProvider<E, Key = P>>(
        &'i self,
        replacements: &'i R,
    ) -> (r: Result<InterpolatedPattern<'i, E>, PatternError<P>>)
        ensures
            match spec_interpolate::<E, R>(self@, *replacements) {
                (v, None) => r matches Ok(ip) && ip@ == v,
                (_, Some(k)) => r matches Err(e) && is_missing(e, k),
            },
    {
        let interpolator = Interpolator::new(self, replacements);
        match InterpolatedPattern::try_from_interpolator(interpolator) {
            Ok(ip) => Ok(ip),
            Err(e) => Err(PatternError::Interpolator(e)),
        }
    }

    /// Interpolates the pattern with `replacements` and writes the text of the result
    /// into `f`. Where a placeholder has no replacement, the text before it is written
    /// and the error returned.
    pub fn interpolate_to_write<'i, E: Render, R: ReplacementProvider<E, Key = P>>(
        &'i self,
        replacements: &'i R,
        f: &mut String,
    ) -> (r: Result<(), PatternError<P>>)
        ensures
            final(f)@ == old(f)@ + spec_render_kinds(spec_interpolate::<E, R>(self@, *replacements).0),
            match spec_interpolate::<E, R>(self@, *replacements).1 {
                None => r is Ok,
                Some(k) => r matches Err(e) && is_missing(e, k),
            },
    {
        let mut it = Interpolator::new(self, replacements);
        let ghost all = spec_interpolate::<E, R>(self@, *replacements);
        let ghost mut done: Seq<KindModel<E>> = Seq::empty();
        assert(done + it.pending() =~= all.0);
        loop
            invariant
                all == spec_interpolate::<E, R>(self@, *replacements),
                done + it.pending() == all.0,
                it.missing() == all.1,
                f@ == old(f)@ + spec_render_kinds(done),
            decreases it.pending().len(),
        {
            let ghost before = it.pending();
            match it.try_next() {
                Ok(Some(x)) => {
                    x.render_into(f);
                    proof {
                        let prev = done;
                        done = done.push(x@);
                        assert(done.drop_last() =~= prev);
                        assert(done + it.pending() =~= prev + before);
                    }
                },
                Ok(None) => {
                    assert(done =~= all.0);
                    return Ok(());
                },
                Err(e) => {
                    assert(done =~= all.0);
                    return Err(PatternError::Interpolator(e));
                },
            }
        }
    }

    /// Interpolates the pattern with `replacements` into a new string.
    pub fn interpolate_to_string<'i, E: Render, R: ReplacementProvider<E, Key = P>>(
        &'i self,
        replacements: &'i R,
    ) -> (r: Result<String, PatternError<P>>)
        ensures
            match spec_interpolate::<E, R>(self@, *replacements) {
                (v, None) => r matches Ok(s) && s@ == spec_render_kinds(v),
                (_, Some(k)) => r matches Err(e) && is_missing(e, k),
            },
    {
        let mut result = String::new();
        match self.interpolate_to_write(replacements, &mut result) {
            Ok(()) => {
                assert(result@ =~= spec_render_kinds(spec_interpolate::<E, R>(self@, *replacements).0));
                Ok(result)
            },
            Err(e) => Err(e),
        }
    }
}

} // verus!
