use vstd::prelude::*;

use super::key::PlaceholderKey;
use super::token::{lemma_tokens_view_push, tokens_view, PatternToken, TokenModel};
use crate::chars::{chars_of, is_ascii_alphabetic, spec_is_ascii_alphabetic, string_of};
use core::marker::PhantomData;

verus! {

/// Options of the placeholder-pattern parser.
#[derive(Debug, Clone, Copy)]
pub struct ParserOptions {
    /// Whether ASCII letters may stand outside quotes.
    pub allow_raw_letters: bool,
}

/// Errors of placeholder-pattern parsing.
#[derive(Debug, Clone, PartialEq)]
pub enum ParserError {
    /// The text between braces names no key; it is kept here.
    InvalidPlaceholder(String),
    /// A `{` is not closed.
    UnclosedPlaceholder,
    /// A quoted literal is not closed.
    UnclosedQuotedLiteral,
    /// An ASCII letter stands outside quotes where the options forbid it.
    IllegalCharacter(char),
}

/// The mathematical model of a parser error.
pub ghost enum ParserErrorModel {
    InvalidPlaceholder(Seq<char>),
    UnclosedPlaceholder,
    UnclosedQuotedLiteral,
    IllegalCharacter(char),
}

impl View for ParserError {
    type V = ParserErrorModel;

    open spec fn view(&self) -> ParserErrorModel {
        match self {
            ParserError::InvalidPlaceholder(s) => ParserErrorModel::InvalidPlaceholder(s@),
            ParserError::UnclosedPlaceholder => ParserErrorModel::UnclosedPlaceholder,
            ParserError::UnclosedQuotedLiteral => ParserErrorModel::UnclosedQuotedLiteral,
            ParserError::IllegalCharacter(c) => ParserErrorModel::IllegalCharacter(*c),
        }
    }
}

/// What the parser is reading.
#[derive(Debug, Clone, Copy, PartialEq, Eq, Structural)]
pub enum ParserState {
    /// Unquoted literal text.
    Default,
    /// The key of a placeholder.
    Placeholder,
    /// Quoted literal text.
    QuotedLiteral,
    /// The second apostrophe of `''`, inside quotes or not.
    Apostrophe { quoted: bool },
}

/// Where the parser stands: the start of the token being read, the position of the
/// next character, and what it is reading.
pub ghost struct Cursor {
    pub start: nat,
    pub idx: nat,
    pub state: ParserState,
}

/// A cursor that fits the input: `start <= idx <= len`, and at the second apostrophe of
/// `''` the token starts at it.
pub open spec fn cursor_wf(s: Seq<char>, cur: Cursor) -> bool {
    &&& cur.start <= cur.idx <= s.len()
    &&& cur.state is Apostrophe ==> {
        &&& cur.start == cur.idx
        &&& 1 <= cur.idx < s.len()
        &&& s[cur.idx - 1] == '\''
        &&& s[cur.idx as int] == '\''
    }
}

/// The cursor just past position `idx`, starting a new token there, in state `next`.
pub open spec fn advanced(idx: nat, next: ParserState) -> Cursor {
    Cursor { start: idx + 1, idx: idx + 1, state: next }
}

/// The next token of `s` from cursor `cur`, and the cursor after it. Literal text runs
/// until `{` or `'`; `{...}` is a placeholder, whose text the key type reads; `'...'`
/// is quoted literal text; `''` is an apostrophe, inside quotes or not. Empty literal
/// text makes no token.
pub open spec fn spec_next<P: PlaceholderKey>(s: Seq<char>, allow: bool, cur: Cursor) -> (
    Result<Option<TokenModel<P::V>>, ParserErrorModel>,
    Cursor,
)
    decreases s.len() - cur.idx,
{
    if cur.idx < s.len() {
        let c = s[cur.idx as int];
        let doubled = cur.idx + 1 < s.len() && s[cur.idx + 1int] == '\'';
        let skip = Cursor { idx: cur.idx + 1, ..cur };
        match cur.state {
            ParserState::Placeholder => if c == '}' {
                let text = s.subrange(cur.start as int, cur.idx as int);
                (
                    match P::spec_parse_key(text) {
                        Some(k) => Ok(Some(TokenModel::Placeholder(k))),
                        None => Err(ParserErrorModel::InvalidPlaceholder(text)),
                    },
                    advanced(cur.idx, ParserState::Default),
                )
            } else {
                spec_next::<P>(s, allow, skip)
            },
            ParserState::QuotedLiteral => if c == '\'' {
                let next = advanced(
                    cur.idx,
                    if doubled {
                        ParserState::Apostrophe { quoted: true }
                    } else {
                        ParserState::Default
                    },
                );
                if cur.start < cur.idx {
                    (
                        Ok(
                            Some(
                                TokenModel::Literal {
                                    content: s.subrange(cur.start as int, cur.idx as int),
                                    quoted: true,
                                },
                            ),
                        ),
                        next,
                    )
                } else {
                    spec_next::<P>(s, allow, next)
                }
            } else {
                spec_next::<P>(s, allow, skip)
            },
            ParserState::Default => if c == '{' || c == '\'' {
                let next = advanced(
                    cur.idx,
                    if c == '{' {
                        ParserState::Placeholder
                    } else if doubled {
                        ParserState::Apostrophe { quoted: false }
                    } else {
                        ParserState::QuotedLiteral
                    },
                );
                if cur.start < cur.idx {
                    (
                        Ok(
                            Some(
                                TokenModel::Literal {
                                    content: s.subrange(cur.start as int, cur.idx as int),
                                    quoted: false,
                                },
                            ),
                        ),
                        next,
                    )
                } else {
                    spec_next::<P>(s, allow, next)
                }
            } else if !allow && spec_is_ascii_alphabetic(c) {
                (Err(ParserErrorModel::IllegalCharacter(c)), cur)
            } else {
                spec_next::<P>(s, allow, skip)
            },
            ParserState::Apostrophe { quoted } => (
                Ok(
                    Some(
                        TokenModel::Literal {
                            content: s.subrange(cur.start - 1, cur.idx as int),
                            quoted,
                        },
                    ),
                ),
                advanced(
                    cur.idx,
                    if quoted {
                        ParserState::QuotedLiteral
                    } else {
                        ParserState::Default
                    },
                ),
            ),
        }
    } else {
        match cur.state {
            ParserState::Placeholder => (Err(ParserErrorModel::UnclosedPlaceholder), cur),
            ParserState::QuotedLiteral => (Err(ParserErrorModel::UnclosedQuotedLiteral), cur),
            _ => if cur.start < s.len() {
                (
                    Ok(
                        Some(
                            TokenModel::Literal {
                                content: s.subrange(cur.start as int, s.len() as int),
                                quoted: false,
                            },
                        ),
                    ),
                    Cursor { start: s.len(), ..cur },
                )
            } else {
                (Ok(None), cur)
            },
        }
    }
}

/// A measure that every token read makes smaller.
pub open spec fn cursor_measure(s: Seq<char>, cur: Cursor) -> int {
    2 * (s.len() - cur.idx) + if cur.start < s.len() {
        1int
    } else {
        0int
    }
}

/// Reading a token keeps the cursor fitting the input, and a token read shrinks the measure.
pub proof fn lemma_next_cursor<P: PlaceholderKey>(s: Seq<char>, allow: bool, cur: Cursor)
    requires
        cursor_wf(s, cur),
    ensures
        cursor_wf(s, spec_next::<P>(s, allow, cur).1),
        cur.idx <= spec_next::<P>(s, allow, cur).1.idx,
        spec_next::<P>(s, allow, cur).0 matches Ok(Some(_)) ==> cursor_measure(
            s,
            spec_next::<P>(s, allow, cur).1,
        ) < cursor_measure(s, cur),
    decreases s.len() - cur.idx,
{
    if cur.idx < s.len() {
        let c = s[cur.idx as int];
        let doubled = cur.idx + 1 < s.len() && s[cur.idx + 1int] == '\'';
        let skip = Cursor { idx: cur.idx + 1, ..cur };
        match cur.state {
            ParserState::Placeholder => if c != '}' {
                lemma_next_cursor::<P>(s, allow, skip);
            },
            ParserState::QuotedLiteral => {
                let next = advanced(
                    cur.idx,
                    if doubled {
                        ParserState::Apostrophe { quoted: true }
                    } else {
                        ParserState::Default
                    },
                );
                if c != '\'' {
                    lemma_next_cursor::<P>(s, allow, skip);
                } else if cur.start >= cur.idx {
                    lemma_next_cursor::<P>(s, allow, next);
                }
            },
            ParserState::Default => {
                let next = advanced(
                    cur.idx,
                    if c == '{' {
                        ParserState::Placeholder
                    } else if doubled {
                        ParserState::Apostrophe { quoted: false }
                    } else {
                        ParserState::QuotedLiteral
                    },
                );
                if c == '{' || c == '\'' {
                    if cur.start >= cur.idx {
                        lemma_next_cursor::<P>(s, allow, next);
                    }
                } else if allow || !spec_is_ascii_alphabetic(c) {
                    lemma_next_cursor::<P>(s, allow, skip);
                }
            },
            ParserState::Apostrophe { .. } => {},
        }
    }
}

/// The tokens of `s` from cursor `cur` on, or the error that parsing meets first.
pub open spec fn spec_tokens<P: PlaceholderKey>(s: Seq<char>, allow: bool, cur: Cursor) -> Result<
    Seq<TokenModel<P::V>>,
    ParserErrorModel,
>
    decreases cursor_measure(s, cur),
    when cursor_wf(s, cur)
{
    proof {
        lemma_next_cursor::<P>(s, allow, cur);
    }
    let (r, next) = spec_next::<P>(s, allow, cur);
    match r {
        Err(e) => Err(e),
        Ok(None) => Ok(Seq::empty()),
        Ok(Some(t)) => match spec_tokens::<P>(s, allow, next) {
            Ok(rest) => Ok(seq![t] + rest),
            Err(e) => Err(e),
        },
    }
}

/// The cursor at the start of the input.
pub open spec fn start_cursor() -> Cursor {
    Cursor { start: 0, idx: 0, state: ParserState::Default }
}

/// The tokens of the placeholder pattern `s`, or the error that parsing meets first.
pub open spec fn spec_parse_tokens<P: PlaceholderKey>(s: Seq<char>, allow: bool) -> Result<
    Seq<TokenModel<P::V>>,
    ParserErrorModel,
> {
    spec_tokens::<P>(s, allow, start_cursor())
}

/// The model of what `try_next` returns.
pub open spec fn next_result_view<P: View>(r: Result<Option<PatternToken<P>>, ParserError>) -> Result<
    Option<TokenModel<P::V>>,
    ParserErrorModel,
> {
    match r {
        Ok(Some(t)) => Ok(Some(t@)),
        Ok(None) => Ok(None),
        Err(e) => Err(e@),
    }
}

/// The position of the parser, as it holds it.
#[derive(Debug, Clone, Copy)]
struct Position {
    start: usize,
    idx: usize,
    state: ParserState,
}

impl Position {
    spec fn cursor(self) -> Cursor {
        Cursor { start: self.start as nat, idx: self.idx as nat, state: self.state }
    }

    /// The position just past `idx`, starting a new token there, in state `next`.
    fn advanced(self, len: usize, next: ParserState) -> (r: Position)
        requires
            self.idx < len,
        ensures
            r.cursor() == advanced(self.idx as nat, next),
    {
        Position { start: self.idx + 1, idx: self.idx + 1, state: next }
    }
}

/// A parser of placeholder patterns such as `"{0}, {1}"`, which hands out one token
/// at a time.
pub struct Parser<P> {
    input: Vec<char>,
    allow_raw_letters: bool,
    pos: Position,
    marker: PhantomData<P>,
}

impl<P> Parser<P> {
    /// The parser's position always fits its input.
    #[verifier::type_invariant]
    spec fn position_fits(self) -> bool {
        cursor_wf(self.input@, self.pos.cursor())
    }

    /// The characters being parsed.
    pub closed spec fn input(&self) -> Seq<char> {
        self.input@
    }

    /// Whether ASCII letters may stand outside quotes.
    pub closed spec fn allows_raw_letters(&self) -> bool {
        self.allow_raw_letters
    }

    /// Where the parser stands.
    pub closed spec fn cursor(&self) -> Cursor {
        self.pos.cursor()
    }
}

impl<P: PlaceholderKey> Parser<P> {
    /// A parser at the start of `input`.
    pub fn new(input: &str, options: ParserOptions) -> (r: Parser<P>)
        ensures
            r.input() == input@,
            r.allows_raw_letters() == options.allow_raw_letters,
            r.cursor() == start_cursor(),
            cursor_wf(r.input(), r.cursor()),
    {
        Parser {
            input: chars_of(input),
            allow_raw_letters: options.allow_raw_letters,
            pos: Position { start: 0, idx: 0, state: ParserState::Default },
            marker: PhantomData,
        }
    }

    /// The next token, `None` at the end of the input, or the error met.
    pub fn try_next(&mut self) -> (r: Result<Option<PatternToken<P>>, ParserError>)
        ensures
            cursor_wf(old(self).input(), old(self).cursor()),
            cursor_wf(final(self).input(), final(self).cursor()),
            final(self).input() == old(self).input(),
            final(self).allows_raw_letters() == old(self).allows_raw_letters(),
            (next_result_view(r), final(self).cursor()) == spec_next::<P>(
                old(self).input(),
                old(self).allows_raw_letters(),
                old(self).cursor(),
            ),
    {
        proof {
            use_type_invariant(&*self);
        }
        let ghost s = self.input@;
        let ghost allow = self.allow_raw_letters;
        let ghost goal = spec_next::<P>(s, allow, self.pos.cursor());
        proof {
            lemma_next_cursor::<P>(s, allow, self.pos.cursor());
        }
        let n = self.input.len();
        let mut pos = self.pos;
        while pos.idx < n
            invariant
                n == s.len(),
                s == self.input@,
                s == old(self).input@,
                allow == self.allow_raw_letters,
                allow == old(self).allow_raw_letters,
                cursor_wf(s, old(self).pos.cursor()),
                goal == spec_next::<P>(s, allow, old(self).pos.cursor()),
                cursor_wf(s, pos.cursor()),
                spec_next::<P>(s, allow, pos.cursor()) == goal,
            decreases n - pos.idx,
        {
            let c = self.input[pos.idx];
            let doubled = pos.idx + 1 < n && self.input[pos.idx + 1] == '\'';
            match pos.state {
                ParserState::Placeholder => {
                    if c == '}' {
                        let start = pos.start;
                        let end = pos.idx;
                        self.pos = pos.advanced(n, ParserState::Default);
                        return match P::parse_key(&self.input, start, end) {
                            Some(k) => Ok(Some(PatternToken::Placeholder(k))),
                            None => Err(ParserError::InvalidPlaceholder(string_of(&self.input, start, end))),
                        };
                    }
                    pos.idx = pos.idx + 1;
                },
                ParserState::QuotedLiteral => {
                    if c == '\'' {
                        let start = pos.start;
                        let end = pos.idx;
                        if doubled {
                            pos = pos.advanced(n, ParserState::Apostrophe { quoted: true });
                        } else {
                            pos = pos.advanced(n, ParserState::Default);
                        }
                        if start < end {
                            self.pos = pos;
                            let content = string_of(&self.input, start, end);
                            return Ok(Some(PatternToken::Literal { content, quoted: true }));
                        }
                    } else {
                        pos.idx = pos.idx + 1;
                    }
                },
                ParserState::Default => {
                    if c == '{' || c == '\'' {
                        let start = pos.start;
                        let end = pos.idx;
                        if c == '{' {
                            pos = pos.advanced(n, ParserState::Placeholder);
                        } else if doubled {
                            pos = pos.advanced(n, ParserState::Apostrophe { quoted: false });
                        } else {
                            pos = pos.advanced(n, ParserState::QuotedLiteral);
                        }
                        if start < end {
                            self.pos = pos;
                            let content = string_of(&self.input, start, end);
                            return Ok(Some(PatternToken::Literal { content, quoted: false }));
                        }
                    } else if !self.allow_raw_letters && is_ascii_alphabetic(c) {
                        self.pos = pos;
                        return Err(ParserError::IllegalCharacter(c));
                    } else {
                        pos.idx = pos.idx + 1;
                    }
                },
                ParserState::Apostrophe { quoted } => {
                    let start = pos.start - 1;
                    let end = pos.idx;
                    if quoted {
                        self.pos = pos.advanced(n, ParserState::QuotedLiteral);
                    } else {
                        self.pos = pos.advanced(n, ParserState::Default);
                    }
                    let content = string_of(&self.input, start, end);
                    return Ok(Some(PatternToken::Literal { content, quoted }));
                },
            }
        }
        match pos.state {
            ParserState::Placeholder => {
                self.pos = pos;
                Err(ParserError::UnclosedPlaceholder)
            },
            ParserState::QuotedLiteral => {
                self.pos = pos;
                Err(ParserError::UnclosedQuotedLiteral)
            },
            _ => {
                if pos.start < n {
                    let content = string_of(&self.input, pos.start, n);
                    self.pos = Position { start: n, ..pos };
                    Ok(Some(PatternToken::Literal { content, quoted: false }))
                } else {
                    self.pos = pos;
                    Ok(None)
                }
            },
        }
    }

    /// All tokens that the parser has left, or the first error it meets.
    #[verifier::loop_isolation(false)]
    pub fn try_collect_into_vec(self) -> (r: Result<Vec<PatternToken<P>>, ParserError>)
        ensures
            cursor_wf(self.input(), self.cursor()),
            match spec_tokens::<P>(self.input(), self.allows_raw_letters(), self.cursor()) {
                Ok(v) => r matches Ok(ts) && tokens_view(ts@) == v,
                Err(e) => r matches Err(e2) && e2@ == e,
            },
    {
        proof {
            use_type_invariant(&self);
        }
        let ghost s = self.input();
        let ghost allow = self.allows_raw_letters();
        let ghost goal = spec_tokens::<P>(s, allow, self.cursor());
        let mut parser = self;
        let mut result: Vec<PatternToken<P>> = Vec::new();
        assert(tokens_view(result@) =~= Seq::<TokenModel<P::V>>::empty());
        loop
            invariant
                cursor_wf(s, parser.cursor()),
                parser.input() == s,
                parser.allows_raw_letters() == allow,
                goal == match spec_tokens::<P>(s, allow, parser.cursor()) {
                    Ok(rest) => Ok(tokens_view(result@) + rest),
                    Err(e) => Err(e),
                },
            decreases cursor_measure(s, parser.cursor()),
        {
            let ghost cur = parser.cursor();
            proof {
                lemma_next_cursor::<P>(s, allow, cur);
            }
            match parser.try_next() {
                Err(e) => {
                    return Err(e);
                },
                Ok(None) => {
                    assert(tokens_view(result@) + Seq::<TokenModel<P::V>>::empty() =~= tokens_view(result@));
                    return Ok(result);
                },
                Ok(Some(t)) => {
                    let ghost prev = result@;
                    result.push(t);
                    proof {
                        lemma_tokens_view_push(prev, t);
                        let rest = spec_tokens::<P>(s, allow, parser.cursor());
                        if rest is Ok {
                            assert(tokens_view(prev) + (seq![t@] + rest->Ok_0) =~= tokens_view(result@) + rest->Ok_0);
                        }
                    }
                },
            }
        }
    }
}

} // verus!
