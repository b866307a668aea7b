use vstd::prelude::*;

use super::{items_view, lemma_items_view_push, Error, ItemModel, Pattern, PatternItem};
use crate::chars::{chars_of, string_of};
use crate::fields::{spec_length_of_count, spec_symbol_of_char, Field, FieldLength, FieldSymbol};

verus! {

/// The segment that the parser is reading: a run of one field symbol, or literal text,
/// quoted or not.
pub ghost enum SegModel {
    Symbol { symbol: FieldSymbol, count: nat },
    Literal { text: Seq<char>, quoted: bool },
}

/// The segment with which parsing starts: empty unquoted text.
pub open spec fn start_segment() -> SegModel {
    SegModel::Literal { text: Seq::empty(), quoted: false }
}

/// Closes a segment: a symbol run becomes a field, unquoted non-empty text a literal;
/// a run of more than six symbols, or text still quoted, is an error.
pub open spec fn spec_collect(seg: SegModel, items: Seq<ItemModel>) -> Result<Seq<ItemModel>, Error> {
    match seg {
        SegModel::Symbol { symbol, count } => match spec_length_of_count(count) {
            Some(length) => Ok(items.push(ItemModel::Field(Field { symbol, length }))),
            None => Err(Error::FieldTooLong(symbol)),
        },
        SegModel::Literal { text, quoted } => if quoted {
            Err(Error::UnclosedLiteral)
        } else if text.len() == 0 {
            Ok(items)
        } else {
            Ok(items.push(ItemModel::Literal(text)))
        },
    }
}

/// Whether `d` is an ASCII digit naming one of `n` replacements.
pub open spec fn names_replacement(d: char, n: nat) -> bool {
    '0' <= d && d <= '9' && (d as int) - ('0' as int) < n
}

/// Reads the placeholder `{d}` that starts at `s[i]`: its items are those of
/// replacement `d`.
pub open spec fn spec_placeholder(
    s: Seq<char>,
    i: nat,
    items: Seq<ItemModel>,
    repl: Seq<Seq<ItemModel>>,
) -> Result<(nat, SegModel, Seq<ItemModel>), Error> {
    if i + 1 >= s.len() {
        Err(Error::UnclosedPlaceholder)
    } else if !names_replacement(s[i + 1int], repl.len()) {
        Err(Error::UnknownSubstitution(s[i + 1int]))
    } else if i + 2 >= s.len() {
        Err(Error::UnclosedPlaceholder)
    } else if s[i + 2int] != '}' {
        Err(Error::UnknownSubstitution(s[i + 2int]))
    } else {
        Ok(((i + 3) as nat, start_segment(), items + repl[(s[i + 1int] as int) - ('0' as int)]))
    }
}

/// One step of UTS 35 pattern parsing at `s[i]`: the next position, segment and
/// items, or an error. `repl` holds the replacements of `{0}`, `{1}`, ... where
/// placeholders are read at all.
pub open spec fn spec_step(
    s: Seq<char>,
    i: nat,
    seg: SegModel,
    items: Seq<ItemModel>,
    repl: Option<Seq<Seq<ItemModel>>>,
) -> Result<(nat, SegModel, Seq<ItemModel>), Error> {
    let c = s[i as int];
    let doubled = i + 1 < s.len() && s[i + 1int] == '\'';
    if c == '\'' {
        match seg {
            SegModel::Literal { text, quoted } => if doubled {
                Ok(((i + 2) as nat, SegModel::Literal { text: text.push('\''), quoted }, items))
            } else {
                Ok(((i + 1) as nat, SegModel::Literal { text, quoted: !quoted }, items))
            },
            SegModel::Symbol { .. } => match spec_collect(seg, items) {
                Err(e) => Err(e),
                Ok(items2) => if doubled {
                    Ok(((i + 2) as nat, SegModel::Literal { text: seq!['\''], quoted: false }, items2))
                } else {
                    Ok(((i + 1) as nat, SegModel::Literal { text: Seq::empty(), quoted: true }, items2))
                },
            },
        }
    } else if seg is Literal && seg->quoted {
        Ok(((i + 1) as nat, SegModel::Literal { text: seg->text.push(c), quoted: true }, items))
    } else if c == '{' && repl is Some {
        match spec_collect(seg, items) {
            Err(e) => Err(e),
            Ok(items2) => spec_placeholder(s, i, items2, repl->0),
        }
    } else {
        match spec_symbol_of_char(c) {
            Some(sym) => match seg {
                SegModel::Symbol { symbol, count } if symbol == sym => Ok(
                    ((i + 1) as nat, SegModel::Symbol { symbol, count: count + 1 }, items),
                ),
                _ => match spec_collect(seg, items) {
                    Err(e) => Err(e),
                    Ok(items2) => Ok(((i + 1) as nat, SegModel::Symbol { symbol: sym, count: 1 }, items2)),
                },
            },
            None => match seg {
                SegModel::Literal { text, .. } => Ok(
                    ((i + 1) as nat, SegModel::Literal { text: text.push(c), quoted: false }, items),
                ),
                SegModel::Symbol { .. } => match spec_collect(seg, items) {
                    Err(e) => Err(e),
                    Ok(items2) => Ok(((i + 1) as nat, SegModel::Literal { text: seq![c], quoted: false }, items2)),
                },
            },
        }
    }
}

/// Every step moves forward.
pub proof fn lemma_step_advances(
    s: Seq<char>,
    i: nat,
    seg: SegModel,
    items: Seq<ItemModel>,
    repl: Option<Seq<Seq<ItemModel>>>,
)
    requires
        i < s.len(),
    ensures
        spec_step(s, i, seg, items, repl) matches Ok((j, _, _)) ==> i < j <= s.len(),
{
}

/// Parsing from position `i` on, in segment `seg`, with `items` read so far.
pub open spec fn spec_run(
    s: Seq<char>,
    i: nat,
    seg: SegModel,
    items: Seq<ItemModel>,
    repl: Option<Seq<Seq<ItemModel>>>,
) -> Result<Seq<ItemModel>, Error>
    decreases s.len() - i,
{
    if i >= s.len() {
        spec_collect(seg, items)
    } else {
        proof {
            lemma_step_advances(s, i, seg, items, repl);
        }
        match spec_step(s, i, seg, items, repl) {
            Err(e) => Err(e),
            Ok((j, seg2, items2)) => spec_run(s, j, seg2, items2, repl),
        }
    }
}

/// The items of a UTS 35 date/time pattern, or the error that parsing it meets first.
pub open spec fn spec_parse_pattern(s: Seq<char>) -> Result<Seq<ItemModel>, Error> {
    spec_run(s, 0, start_segment(), Seq::empty(), None)
}

/// The items of a combination pattern, whose placeholders `{0}` and `{1}` stand for
/// the time and the date pattern.
pub open spec fn spec_parse_combination(
    s: Seq<char>,
    time: Seq<ItemModel>,
    date: Seq<ItemModel>,
) -> Result<Seq<ItemModel>, Error> {
    spec_run(s, 0, start_segment(), Seq::empty(), Some(seq![time, date]))
}

/// The segment being read, as the parser holds it.
enum Segment {
    Symbol { symbol: FieldSymbol, count: usize },
    Literal { text: Vec<char>, quoted: bool },
}

impl View for Segment {
    type V = SegModel;

    closed spec fn view(&self) -> SegModel {
        match self {
            Segment::Symbol { symbol, count } => SegModel::Symbol { symbol: *symbol, count: *count as nat },
            Segment::Literal { text, quoted } => SegModel::Literal { text: text@, quoted: *quoted },
        }
    }
}

/// The models of a list of replacement item lists.
pub open spec fn replacements_view(r: Seq<Vec<PatternItem>>) -> Seq<Seq<ItemModel>> {
    r.map_values(|v: Vec<PatternItem>| items_view(v@))
}

fn collect_segment(seg: Segment, items: &mut Vec<PatternItem>) -> (r: Result<(), Error>)
    ensures
        match spec_collect(seg@, items_view(old(items)@)) {
            Ok(v) => r is Ok && items_view(final(items)@) == v,
            Err(e) => r == Err::<(), Error>(e),
        },
{
    match seg {
        Segment::Symbol { symbol, count } => match FieldLength::from_count(count) {
            Some(length) => {
                let it = PatternItem::Field(Field { symbol, length });
                let ghost prev = items@;
                items.push(it);
                proof {
                    lemma_items_view_push(prev, it);
                }
                Ok(())
            },
            None => Err(Error::FieldTooLong(symbol)),
        },
        Segment::Literal { text, quoted } => {
            if quoted {
                Err(Error::UnclosedLiteral)
            } else if text.len() == 0 {
                Ok(())
            } else {
                let it = PatternItem::Literal(string_of(&text, 0, text.len()));
                assert(text@.subrange(0, text@.len() as int) =~= text@);
                let ghost prev = items@;
                items.push(it);
                proof {
                    lemma_items_view_push(prev, it);
                }
                Ok(())
            }
        },
    }
}

/// Appends copies of `extra` to `items`.
fn extend_items(items: &mut Vec<PatternItem>, extra: &Vec<PatternItem>)
    ensures
        items_view(final(items)@) == items_view(old(items)@) + items_view(extra@),
{
    let ghost start = items_view(items@);
    let mut k: usize = 0;
    while k < extra.len()
        invariant
            k <= extra@.len(),
            items_view(items@) == start + items_view(extra@).take(k as int),
        decreases extra@.len() - k,
    {
        let it = extra[k].duplicate();
        let ghost prev = items@;
        items.push(it);
        proof {
            lemma_items_view_push(prev, it);
        }
        k = k + 1;
        assert(items_view(items@) =~= start + items_view(extra@).take(k as int));
    }
    assert(items_view(extra@).take(k as int) =~= items_view(extra@));
}

/// Parses the characters `s` as a UTS 35 pattern; where `with_placeholders` holds,
/// `{d}` stands for the items of `repl[d]`.
fn parse_chars(s: &Vec<char>, with_placeholders: bool, repl: &Vec<Vec<PatternItem>>) -> (r: Result<
    Vec<PatternItem>,
    Error,
>)
    ensures
        ({
            let rm = if with_placeholders {
                Some(replacements_view(repl@))
            } else {
                None
            };
            match spec_run(s@, 0, start_segment(), Seq::empty(), rm) {
                Ok(v) => r matches Ok(items) && items_view(items@) == v,
                Err(e) => r matches Err(e2) && e2 == e,
            }
        }),
{
    let ghost rm = if with_placeholders {
        Some(replacements_view(repl@))
    } else {
        None
    };
    let n = s.len();
    let mut seg = Segment::Literal { text: Vec::new(), quoted: false };
    let mut items: Vec<PatternItem> = Vec::new();
    let mut i: usize = 0;
    assert(seg@ == start_segment()) by {
        assert(seg@->text =~= Seq::<char>::empty());
    }
    assert(items_view(items@) =~= Seq::<ItemModel>::empty());
    while i < n
        invariant
            n == s@.len(),
            i <= n,
            seg is Symbol ==> seg->count <= i,
            rm == (if with_placeholders {
                Some(replacements_view(repl@))
            } else {
                None
            }),
            spec_run(s@, i as nat, seg@, items_view(items@), rm) == spec_run(
                s@,
                0,
                start_segment(),
                Seq::empty(),
                rm,
            ),
        decreases n - i,
    {
        let ghost old_seg = seg@;
        let ghost old_items = items_view(items@);
        let ghost old_i = i as nat;
        proof {
            lemma_step_advances(s@, old_i, old_seg, old_items, rm);
        }
        let c = s[i];
        let doubled = i + 1 < n && s[i + 1] == '\'';
        if c == '\'' {
            match seg {
                Segment::Literal { mut text, quoted } => {
                    if doubled {
                        text.push('\'');
                        seg = Segment::Literal { text, quoted };
                        i = i + 2;
                    } else {
                        seg = Segment::Literal { text, quoted: !quoted };
                        i = i + 1;
                    }
                },
                Segment::Symbol { symbol, count } => {
                    let r = collect_segment(Segment::Symbol { symbol, count }, &mut items);
                    if let Err(e) = r {
                        return Err(e);
                    }
                    if doubled {
                        let mut text = Vec::new();
                        text.push('\'');
                        seg = Segment::Literal { text, quoted: false };
                        assert(seg@->text =~= seq!['\'']);
                        i = i + 2;
                    } else {
                        seg = Segment::Literal { text: Vec::new(), quoted: true };
                        assert(seg@->text =~= Seq::<char>::empty());
                        i = i + 1;
                    }
                },
            }
        } else if let Segment::Literal { text, quoted: true } = &mut seg {
            text.push(c);
            i = i + 1;
        } else if c == '{' && with_placeholders {
            let r = collect_segment(seg, &mut items);
            if let Err(e) = r {
                return Err(e);
            }
            if i + 1 >= n {
                return Err(Error::UnclosedPlaceholder);
            }
            let d = s[i + 1];
            if !('0' <= d && d <= '9') {
                return Err(Error::UnknownSubstitution(d));
            }
            let idx = ((d as u32) - ('0' as u32)) as usize;
            if idx >= repl.len() {
                return Err(Error::UnknownSubstitution(d));
            }
            if i + 2 >= n {
                return Err(Error::UnclosedPlaceholder);
            }
            if s[i + 2] != '}' {
                return Err(Error::UnknownSubstitution(s[i + 2]));
            }
            extend_items(&mut items, &repl[idx]);
            seg = Segment::Literal { text: Vec::new(), quoted: false };
            assert(seg@ == start_segment()) by {
                assert(seg@->text =~= Seq::<char>::empty());
            }
            i = i + 3;
        } else {
            match FieldSymbol::from_char(c) {
                Some(sym) => {
                    match seg {
                        Segment::Symbol { symbol, count } => {
                            if symbol == sym {
                                seg = Segment::Symbol { symbol, count: count + 1 };
                            } else {
                                let r = collect_segment(Segment::Symbol { symbol, count }, &mut items);
                                if let Err(e) = r {
                                    return Err(e);
                                }
                                seg = Segment::Symbol { symbol: sym, count: 1 };
                            }
                        },
                        Segment::Literal { text, quoted } => {
                            let r = collect_segment(Segment::Literal { text, quoted }, &mut items);
                            if let Err(e) = r {
                                return Err(e);
                            }
                            seg = Segment::Symbol { symbol: sym, count: 1 };
                        },
                    }
                },
                None => {
                    match seg {
                        Segment::Literal { mut text, quoted: _ } => {
                            text.push(c);
                            seg = Segment::Literal { text, quoted: false };
                        },
                        Segment::Symbol { symbol, count } => {
                            let r = collect_segment(Segment::Symbol { symbol, count }, &mut items);
                            if let Err(e) = r {
                                return Err(e);
                            }
                            let mut text = Vec::new();
                            text.push(c);
                            seg = Segment::Literal { text, quoted: false };
                            assert(seg@->text =~= seq![c]);
                        },
                    }
                },
            }
            i = i + 1;
        }
    }
    let r = collect_segment(seg, &mut items);
    match r {
        Ok(()) => Ok(items),
        Err(e) => Err(e),
    }
}

impl Pattern {
    /// Parses a UTS 35 date/time pattern: runs of one field letter become fields,
    /// other text becomes literals, and text in `'...'` is literal, `''` standing
    /// for one apostrophe.
    pub fn from_bytes(input: &str) -> (r: Result<Pattern, Error>)
        ensures
            match spec_parse_pattern(input@) {
                Ok(v) => r matches Ok(p) && p@ == v,
                Err(e) => r matches Err(e2) && e2 == e,
            },
    {
        let chars = chars_of(input);
        let repl: Vec<Vec<PatternItem>> = Vec::new();
        match parse_chars(&chars, false, &repl) {
            Ok(items) => Ok(Pattern::from_items(items)),
            Err(e) => Err(e),
        }
    }

    /// Parses a combination pattern, in which `{0}` stands for the items of `time`
    /// and `{1}` for those of `date`.
    ///
    /// What a combination pattern means is defined by this library itself, not by
    /// UTS 35: the placeholders are read as above, literal text around them as in
    /// `from_bytes`, and the result is the pattern so spliced together; any other
    /// placeholder, or one that is not closed, is an error (see
    /// `spec_parse_combination`).
    pub fn from_bytes_combination(input: &str, date: Pattern, time: Pattern) -> (r: Result<
        Pattern,
        Error,
    >)
        ensures
            match spec_parse_combination(input@, time@, date@) {
                Ok(v) => r matches Ok(p) && p@ == v,
                Err(e) => r matches Err(e2) && e2 == e,
            },
    {
        let chars = chars_of(input);
        let ghost tv = time@;
        let ghost dv = date@;
        let mut repl: Vec<Vec<PatternItem>> = Vec::new();
        repl.push(time.into_items());
        repl.push(date.into_items());
        assert(replacements_view(repl@) =~= seq![tv, dv]);
        match parse_chars(&chars, true, &repl) {
            Ok(items) => Ok(Pattern::from_items(items)),
            Err(e) => Err(e),
        }
    }
}

} // verus!
