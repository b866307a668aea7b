use vstd::prelude::*;

use super::key::PlaceholderKey;
use super::parser::{
    cursor_wf, lemma_next_cursor, spec_next, spec_parse_tokens, spec_tokens, start_cursor, Cursor,
    ParserErrorModel, ParserState,
};
use super::pattern::{spec_interpolate, spec_render_kinds, KindModel, ReplacementProvider, Render};
use super::key::{decimal_digits, lemma_decimal_digits_are_digits, law_usize_key_decimal};
use super::token::TokenModel;

verus! {

/// Literal text of a token is never empty.
pub open spec fn literal_nonempty<K>(t: TokenModel<K>) -> bool {
    t matches TokenModel::Literal { content, .. } ==> content.len() > 0
}

proof fn lemma_next_literal_nonempty<P: PlaceholderKey>(s: Seq<char>, allow: bool, cur: Cursor)
    requires
        cursor_wf(s, cur),
    ensures
        spec_next::<P>(s, allow, cur).0 matches Ok(Some(t)) ==> literal_nonempty(t),
    decreases s.len() - cur.idx,
{
    if cur.idx < s.len() {
        let skip = Cursor { idx: cur.idx + 1, ..cur };
        let c = s[cur.idx as int];
        let doubled = cur.idx + 1 < s.len() && s[cur.idx + 1int] == '\'';
        match cur.state {
            super::parser::ParserState::Placeholder => {
                if c != '}' {
                    lemma_next_literal_nonempty::<P>(s, allow, skip);
                }
            },
            super::parser::ParserState::QuotedLiteral => {
                if c != '\'' {
                    lemma_next_literal_nonempty::<P>(s, allow, skip);
                } else if cur.start >= cur.idx {
                    let next = super::parser::advanced(
                        cur.idx,
                        if doubled {
                            super::parser::ParserState::Apostrophe { quoted: true }
                        } else {
                            super::parser::ParserState::Default
                        },
                    );
                    lemma_next_literal_nonempty::<P>(s, allow, next);
                }
            },
            super::parser::ParserState::Default => {
                if c == '{' || c == '\'' {
                    if cur.start >= cur.idx {
                        let next = super::parser::advanced(
                            cur.idx,
                            if c == '{' {
                                super::parser::ParserState::Placeholder
                            } else if doubled {
                                super::parser::ParserState::Apostrophe { quoted: false }
                            } else {
                                super::parser::ParserState::QuotedLiteral
                            },
                        );
                        lemma_next_literal_nonempty::<P>(s, allow, next);
                    }
                } else if allow || !crate::chars::spec_is_ascii_alphabetic(c) {
                    lemma_next_literal_nonempty::<P>(s, allow, skip);
                }
            },
            super::parser::ParserState::Apostrophe { .. } => {},
        }
    }
}

proof fn lemma_tokens_literal_nonempty<P: PlaceholderKey>(s: Seq<char>, allow: bool, cur: Cursor)
    requires
        cursor_wf(s, cur),
    ensures
        spec_tokens::<P>(s, allow, cur) matches Ok(ts) ==> forall|i: int|
            0 <= i < ts.len() ==> literal_nonempty(#[trigger] ts[i]),
    decreases super::parser::cursor_measure(s, cur),
{
    lemma_next_cursor::<P>(s, allow, cur);
    lemma_next_literal_nonempty::<P>(s, allow, cur);
    let (r, next) = spec_next::<P>(s, allow, cur);
    if let Ok(Some(t)) = r {
        lemma_tokens_literal_nonempty::<P>(s, allow, next);
        if let Ok(ts) = spec_tokens::<P>(s, allow, cur) {
            let rest = spec_tokens::<P>(s, allow, next)->Ok_0;
            assert(ts == seq![t] + rest);
            assert forall|i: int| 0 <= i < ts.len() implies literal_nonempty(#[trigger] ts[i]) by {
                if i > 0 {
                    assert(ts[i] == rest[i - 1]);
                }
            }
        }
    }
}

/// Parsing a placeholder pattern never yields a literal token with empty text.
pub proof fn law_parse_literals_nonempty<P: PlaceholderKey>(s: Seq<char>, allow: bool)
    ensures
        spec_parse_tokens::<P>(s, allow) matches Ok(ts) ==> forall|i: int|
            0 <= i < ts.len() ==> literal_nonempty(#[trigger] ts[i]),
{
    lemma_tokens_literal_nonempty::<P>(s, allow, start_cursor());
}

/// Whether the placeholder token `t`, if it is one, has a replacement in `r`.
pub open spec fn has_replacement<E, R: ReplacementProvider<E>>(
    t: TokenModel<<R::Key as View>::V>,
    r: R,
) -> bool {
    t matches TokenModel::Placeholder(k) ==> r.spec_replacement(k) is Some
}

/// Interpolation fails exactly when some placeholder has no replacement, and then it
/// names the first such placeholder.
pub proof fn law_interpolate_missing<E, R: ReplacementProvider<E>>(
    tokens: Seq<TokenModel<<R::Key as View>::V>>,
    r: R,
)
    ensures
        spec_interpolate::<E, R>(tokens, r).1 is None <==> forall|i: int|
            0 <= i < tokens.len() ==> #[trigger] has_replacement::<E, R>(tokens[i], r),
        spec_interpolate::<E, R>(tokens, r).1 matches Some(k) ==> exists|i: int|
            0 <= i < tokens.len() && tokens[i] == TokenModel::<<R::Key as View>::V>::Placeholder(k)
                && r.spec_replacement(k) is None && forall|j: int|
                0 <= j < i ==> #[trigger] has_replacement::<E, R>(tokens[j], r),
    decreases tokens.len(),
{
    if tokens.len() > 0 {
        let rest = tokens.drop_first();
        law_interpolate_missing::<E, R>(rest, r);
        assert forall|i: int| 0 <= i < rest.len() implies #[trigger] rest[i] == tokens[i + 1] by {}
        if spec_interpolate::<E, R>(tokens, r).1 is None {
            assert forall|i: int| 0 <= i < tokens.len() implies #[trigger] has_replacement::<E, R>(tokens[i], r) by {
                if i > 0 {
                    assert(has_replacement::<E, R>(rest[i - 1], r));
                }
            }
        } else {
            if has_replacement::<E, R>(tokens[0], r) {
                let i = choose|i: int|
                    0 <= i < rest.len() && rest[i] == TokenModel::<<R::Key as View>::V>::Placeholder(
                        spec_interpolate::<E, R>(rest, r).1->0,
                    ) && r.spec_replacement(spec_interpolate::<E, R>(rest, r).1->0) is None
                        && forall|j: int| 0 <= j < i ==> #[trigger] has_replacement::<E, R>(rest[j], r);
                assert(tokens[i + 1] == rest[i]);
                assert forall|j: int| 0 <= j < i + 1 implies #[trigger] has_replacement::<E, R>(tokens[j], r) by {
                    if j > 0 {
                        assert(has_replacement::<E, R>(rest[j - 1], r));
                    }
                }
                assert(!has_replacement::<E, R>(tokens[i + 1], r));
            } else {
                assert(!has_replacement::<E, R>(tokens[0], r));
            }
        }
    }
}

/// A pattern made only of literal tokens interpolates to those literals, whatever the
/// replacements.
pub proof fn law_interpolate_literals<E, R: ReplacementProvider<E>>(
    tokens: Seq<TokenModel<<R::Key as View>::V>>,
    r: R,
)
    requires
        forall|i: int| 0 <= i < tokens.len() ==> (#[trigger] tokens[i]) is Literal,
    ensures
        spec_interpolate::<E, R>(tokens, r) == (
            tokens.map_values(|t: TokenModel<<R::Key as View>::V>| KindModel::<E>::Literal(t->content)),
            None::<<R::Key as View>::V>,
        ),
    decreases tokens.len(),
{
    if tokens.len() > 0 {
        let rest = tokens.drop_first();
        assert forall|i: int| 0 <= i < rest.len() implies (#[trigger] rest[i]) is Literal by {
            assert(rest[i] == tokens[i + 1]);
        }
        law_interpolate_literals::<E, R>(rest, r);
        assert(tokens[0] is Literal);
        assert(spec_interpolate::<E, R>(tokens, r).0 =~= tokens.map_values(
            |t: TokenModel<<R::Key as View>::V>| KindModel::<E>::Literal(t->content),
        ));
    } else {
        assert(tokens.map_values(|t: TokenModel<<R::Key as View>::V>| KindModel::<E>::Literal(t->content))
            =~= Seq::<KindModel<E>>::empty());
    }
}

/// The text of pieces put one after the other is their texts one after the other.
pub proof fn law_render_concat<E: Render>(a: Seq<KindModel<E>>, b: Seq<KindModel<E>>)
    ensures
        spec_render_kinds(a + b) == spec_render_kinds(a) + spec_render_kinds(b),
    decreases b.len(),
{
    if b.len() == 0 {
        assert(a + b =~= a);
        assert(spec_render_kinds(a) + spec_render_kinds(b) =~= spec_render_kinds(a));
    } else {
        law_render_concat(a, b.drop_last());
        assert((a + b).drop_last() =~= a + b.drop_last());
        assert((a + b).last() == b.last());
        assert(spec_render_kinds(a + b) =~= spec_render_kinds(a) + spec_render_kinds(b));
    }
}

/// A character that unquoted literal text holds as it is.
pub open spec fn plain_text_char(c: char, allow: bool) -> bool {
    c != '{' && c != '\'' && (allow || !crate::chars::spec_is_ascii_alphabetic(c))
}

proof fn lemma_next_plain<P: PlaceholderKey>(s: Seq<char>, allow: bool, start: nat, idx: nat)
    requires
        start <= idx <= s.len(),
        forall|j: int| idx <= j < s.len() ==> plain_text_char(#[trigger] s[j], allow),
    ensures
        spec_next::<P>(s, allow, Cursor { start, idx, state: ParserState::Default }) == if start < s.len() {
            (
                Ok::<_, ParserErrorModel>(
                    Some(TokenModel::<P::V>::Literal { content: s.subrange(start as int, s.len() as int), quoted: false }),
                ),
                Cursor { start: s.len(), idx: s.len(), state: ParserState::Default },
            )
        } else {
            (Ok(None), Cursor { start, idx, state: ParserState::Default })
        },
    decreases s.len() - idx,
{
    if idx < s.len() {
        assert(plain_text_char(s[idx as int], allow));
        lemma_next_plain::<P>(s, allow, start, idx + 1);
    }
}

/// Text with no `{`, no apostrophe and (unless allowed) no ASCII letter parses to one
/// unquoted literal holding the whole text, or to no token when it is empty.
pub proof fn law_parse_plain_text<P: PlaceholderKey>(s: Seq<char>, allow: bool)
    requires
        forall|j: int| 0 <= j < s.len() ==> plain_text_char(#[trigger] s[j], allow),
    ensures
        spec_parse_tokens::<P>(s, allow) == if s.len() == 0 {
            Ok::<_, ParserErrorModel>(Seq::<TokenModel<P::V>>::empty())
        } else {
            Ok(seq![TokenModel::<P::V>::Literal { content: s, quoted: false }])
        },
{
    lemma_next_plain::<P>(s, allow, 0, 0);
    let end = Cursor { start: s.len(), idx: s.len(), state: ParserState::Default };
    lemma_next_plain::<P>(s, allow, s.len(), s.len());
    lemma_next_cursor::<P>(s, allow, start_cursor());
    assert(s.subrange(0, s.len() as int) =~= s);
    if s.len() > 0 {
        assert(spec_tokens::<P>(s, allow, end) == Ok::<_, ParserErrorModel>(Seq::<TokenModel<P::V>>::empty()));
        assert(seq![TokenModel::<P::V>::Literal { content: s, quoted: false }] + Seq::<TokenModel<P::V>>::empty()
            =~= seq![TokenModel::<P::V>::Literal { content: s, quoted: false }]);
    }
}

proof fn lemma_next_key<P: PlaceholderKey>(s: Seq<char>, allow: bool, idx: nat)
    requires
        1 <= idx <= s.len() - 1,
        s[s.len() - 1] == '}',
        forall|j: int| 1 <= j < s.len() - 1 ==> #[trigger] s[j] != '}',
    ensures
        spec_next::<P>(s, allow, Cursor { start: 1, idx, state: ParserState::Placeholder })
            == spec_next::<P>(s, allow, Cursor { start: 1, idx: (s.len() - 1) as nat, state: ParserState::Placeholder }),
    decreases s.len() - idx,
{
    if idx < s.len() - 1 {
        assert(s[idx as int] != '}');
        lemma_next_key::<P>(s, allow, idx + 1);
    }
}

/// `{key}`, where `key` holds no `}`, parses to one placeholder token when the key type
/// reads `key`, and to `InvalidPlaceholder` with `key` otherwise.
pub proof fn law_parse_single_placeholder<P: PlaceholderKey>(key: Seq<char>, allow: bool)
    requires
        forall|j: int| 0 <= j < key.len() ==> #[trigger] key[j] != '}',
    ensures
        spec_parse_tokens::<P>(seq!['{'] + key + seq!['}'], allow) == match P::spec_parse_key(key) {
            Some(k) => Ok::<_, ParserErrorModel>(seq![TokenModel::<P::V>::Placeholder(k)]),
            None => Err(ParserErrorModel::InvalidPlaceholder(key)),
        },
{
    let s = seq!['{'] + key + seq!['}'];
    let n = s.len();
    assert(s[0] == '{');
    assert(s[n - 1] == '}');
    assert forall|j: int| 1 <= j < n - 1 implies #[trigger] s[j] != '}' by {
        assert(s[j] == key[j - 1]);
    }
    assert(s.subrange(1, n - 1) =~= key);
    lemma_next_key::<P>(s, allow, 1);
    let after = Cursor { start: n, idx: n, state: ParserState::Default };
    lemma_next_cursor::<P>(s, allow, start_cursor());
    assert(spec_next::<P>(s, allow, after) == (Ok::<_, ParserErrorModel>(None::<TokenModel<P::V>>), after));
    if let Some(k) = P::spec_parse_key(key) {
        assert(spec_tokens::<P>(s, allow, after) == Ok::<_, ParserErrorModel>(Seq::<TokenModel<P::V>>::empty()));
        assert(seq![TokenModel::<P::V>::Placeholder(k)] + Seq::<TokenModel<P::V>>::empty()
            =~= seq![TokenModel::<P::V>::Placeholder(k)]);
    }
}

/// `{n}`, with `n` written in decimal, parses to the one placeholder `n`, for every
/// `usize` key `n`.
pub proof fn law_parse_decimal_placeholder(n: usize, allow: bool)
    ensures
        spec_parse_tokens::<usize>(seq!['{'] + decimal_digits(n as nat) + seq!['}'], allow)
            == Ok::<_, ParserErrorModel>(seq![TokenModel::<usize>::Placeholder(n)]),
{
    law_usize_key_decimal(n);
    let key = decimal_digits(n as nat);
    assert forall|j: int| 0 <= j < key.len() implies #[trigger] key[j] != '}' by {
        lemma_decimal_digits_are_digits(n as nat, j);
    }
    law_parse_single_placeholder::<usize>(key, allow);
}

/// A `String` element renders as exactly its text, so interpolating with `String`
/// elements puts their text in unchanged.
pub proof fn law_string_renders_as_itself(s: String)
    ensures
        s.spec_render() == s@,
{
}

} // verus!
