use vstd::prelude::*;

use crate::fields::{Field, FieldLength, FieldSymbol};

pub mod format;
pub mod laws;
pub mod parser;
pub mod roundtrip;

verus! {

/// One item of a date/time pattern: a field, or literal text.
#[derive(Debug, Clone, PartialEq)]
pub enum PatternItem {
    Field(Field),
    Literal(String),
}

/// The mathematical model of a pattern item: its text is a sequence of characters.
pub ghost enum ItemModel {
    Field(Field),
    Literal(Seq<char>),
}

impl View for PatternItem {
    type V = ItemModel;

    open spec fn view(&self) -> ItemModel {
        match self {
            PatternItem::Field(f) => ItemModel::Field(*f),
            PatternItem::Literal(s) => ItemModel::Literal(s@),
        }
    }
}

/// The models of a sequence of items.
pub open spec fn items_view(v: Seq<PatternItem>) -> Seq<ItemModel> {
    v.map_values(|it: PatternItem| it@)
}

/// The models of a sequence with one more item are those of the sequence, and the new item's.
pub proof fn lemma_items_view_push(v: Seq<PatternItem>, x: PatternItem)
    ensures
        items_view(v.push(x)) == items_view(v).push(x@),
{
    assert(items_view(v.push(x)) =~= items_view(v).push(x@));
}

/// Errors of pattern parsing.
#[derive(Debug, Clone, Copy, PartialEq, Eq, Structural)]
pub enum Error {
    /// A field symbol is repeated more often than any length allows.
    FieldTooLong(FieldSymbol),
    /// A placeholder names no replacement.
    UnknownSubstitution(char),
    /// A quoted literal is not closed.
    UnclosedLiteral,
    /// A placeholder is not closed.
    UnclosedPlaceholder,
}

/// The granularity of time represented in a pattern item, ordered from least
/// to most granular.
#[derive(Debug, Clone, Copy, PartialEq, Eq, Structural, PartialOrd, Ord)]
pub enum TimeGranularity {
    Hours,
    Minutes,
    Seconds,
}

/// Position of a granularity in the order `Hours < Minutes < Seconds`.
pub open spec fn granularity_rank(g: TimeGranularity) -> nat {
    match g {
        TimeGranularity::Hours => 0,
        TimeGranularity::Minutes => 1,
        TimeGranularity::Seconds => 2,
    }
}

/// The granularity of time an item represents; `None` for items that are not time fields.
pub open spec fn spec_item_granularity(it: ItemModel) -> Option<TimeGranularity> {
    match it {
        ItemModel::Field(f) => match f.symbol {
            FieldSymbol::Hour(_) => Some(TimeGranularity::Hours),
            FieldSymbol::Minute => Some(TimeGranularity::Minutes),
            FieldSymbol::Second(_) => Some(TimeGranularity::Seconds),
            _ => None,
        },
        ItemModel::Literal(_) => None,
    }
}

/// The greater of two optional granularities, `None` counting as least.
pub open spec fn spec_max_opt(a: Option<TimeGranularity>, b: Option<TimeGranularity>) -> Option<
    TimeGranularity,
> {
    match (a, b) {
        (None, y) => y,
        (Some(x), None) => Some(x),
        (Some(x), Some(y)) => if granularity_rank(y) >= granularity_rank(x) {
            Some(y)
        } else {
            Some(x)
        },
    }
}

/// The most granular time that any of the items represents.
pub open spec fn spec_max_granularity(items: Seq<ItemModel>) -> Option<TimeGranularity>
    decreases items.len(),
{
    if items.len() == 0 {
        None
    } else {
        spec_max_opt(
            spec_max_granularity(items.drop_last()),
            spec_item_granularity(items.last()),
        )
    }
}

impl PatternItem {
    /// A field item made of a symbol and a length.
    pub fn from_field(symbol: FieldSymbol, length: FieldLength) -> (r: PatternItem)
        ensures
            r@ == ItemModel::Field(Field { symbol, length }),
    {
        PatternItem::Field(Field { symbol, length })
    }

    /// A field item of `symbol` repeated `count` times; `FieldTooLong` unless
    /// `count` is one to six.
    pub fn try_from_symbol_count(symbol: FieldSymbol, count: u8) -> (r: Result<PatternItem, Error>)
        ensures
            match crate::fields::spec_length_of_count(count as nat) {
                Some(length) => r matches Ok(it) && it@ == ItemModel::Field(Field { symbol, length }),
                None => r == Err::<PatternItem, Error>(Error::FieldTooLong(symbol)),
            },
    {
        match FieldLength::from_count(count as usize) {
            Some(length) => Ok(PatternItem::Field(Field { symbol, length })),
            None => Err(Error::FieldTooLong(symbol)),
        }
    }

    /// A literal item holding the text `s`.
    pub fn from_literal(s: &str) -> (r: PatternItem)
        ensures
            r@ == ItemModel::Literal(s@),
    {
        PatternItem::Literal(String::from_str(s))
    }

    /// A copy of this item.
    pub fn duplicate(&self) -> (r: PatternItem)
        ensures
            r@ == self@,
    {
        match self {
            PatternItem::Field(f) => PatternItem::Field(*f),
            PatternItem::Literal(s) => PatternItem::Literal(s.clone()),
        }
    }
}

/// Retrieves the granularity of time represented by an item; `None` where the
/// item is not time-related.
fn get_time_granularity(item: &PatternItem) -> (r: Option<TimeGranularity>)
    ensures
        r == spec_item_granularity(item@),
{
    match item {
        PatternItem::Field(field) => match field.symbol {
            FieldSymbol::Hour(_) => Some(TimeGranularity::Hours),
            FieldSymbol::Minute => Some(TimeGranularity::Minutes),
            FieldSymbol::Second(_) => Some(TimeGranularity::Seconds),
            _ => None,
        },
        _ => None,
    }
}

fn max_opt(a: Option<TimeGranularity>, b: Option<TimeGranularity>) -> (r: Option<TimeGranularity>)
    ensures
        r == spec_max_opt(a, b),
{
    match (a, b) {
        (None, y) => y,
        (Some(x), None) => Some(x),
        (Some(x), Some(y)) => {
            if rank(y) >= rank(x) {
                Some(y)
            } else {
                Some(x)
            }
        },
    }
}

fn rank(g: TimeGranularity) -> (r: u8)
    ensures
        r == granularity_rank(g),
{
    match g {
        TimeGranularity::Hours => 0,
        TimeGranularity::Minutes => 1,
        TimeGranularity::Seconds => 2,
    }
}

/// A parsed date/time pattern: its items, and the most granular time they represent.
#[derive(Debug, PartialEq)]
pub struct Pattern {
    items: Vec<PatternItem>,
    time_granularity: Option<TimeGranularity>,
}

impl View for Pattern {
    type V = Seq<ItemModel>;

    closed spec fn view(&self) -> Seq<ItemModel> {
        items_view(self.items@)
    }
}

impl Pattern {
    #[verifier::type_invariant]
    closed spec fn granularity_cached(self) -> bool {
        self.time_granularity == spec_max_granularity(items_view(self.items@))
    }

    /// The items of the pattern, in order.
    pub fn items(&self) -> (r: &[PatternItem])
        ensures
            items_view(r@) == self@,
    {
        self.items.as_slice()
    }

    /// The most granular time that the pattern's items represent.
    pub fn most_granular_time(&self) -> (r: Option<TimeGranularity>)
        ensures
            r == spec_max_granularity(self@),
    {
        proof {
            use_type_invariant(self);
        }
        self.time_granularity
    }

    /// The pattern made of the given items.
    pub fn from_items(items: Vec<PatternItem>) -> (r: Pattern)
        ensures
            r@ == items_view(items@),
    {
        let mut g: Option<TimeGranularity> = None;
        let mut i: usize = 0;
        while i < items.len()
            invariant
                i <= items@.len(),
                g == spec_max_granularity(items_view(items@).take(i as int)),
            decreases items@.len() - i,
        {
            let ig = get_time_granularity(&items[i]);
            g = max_opt(g, ig);
            proof {
                let t = items_view(items@).take(i + 1);
                assert(t.drop_last() =~= items_view(items@).take(i as int));
            }
            i = i + 1;
        }
        assert(items_view(items@).take(i as int) =~= items_view(items@));
        Pattern { items, time_granularity: g }
    }

    /// The empty pattern.
    pub fn empty() -> (r: Pattern)
        ensures
            r@ == Seq::<ItemModel>::empty(),
    {
        let r = Pattern { items: Vec::new(), time_granularity: None };
        assert(r@ =~= Seq::<ItemModel>::empty());
        r
    }

    /// A copy of this pattern.
    pub fn duplicate(&self) -> (r: Pattern)
        ensures
            r@ == self@,
    {
        let mut items: Vec<PatternItem> = Vec::new();
        let mut i: usize = 0;
        while i < self.items.len()
            invariant
                i <= self.items@.len(),
                items_view(items@) == items_view(self.items@).take(i as int),
            decreases self.items@.len() - i,
        {
            let ghost prev = items@;
            let it = self.items[i].duplicate();
            items.push(it);
            proof {
                lemma_items_view_push(prev, it);
            }
            i = i + 1;
            assert(items_view(items@) =~= items_view(self.items@).take(i as int));
        }
        assert(items_view(self.items@).take(i as int) =~= items_view(self.items@));
        Pattern::from_items(items)
    }

    /// The items of the pattern, taken out of it.
    pub fn into_items(self) -> (r: Vec<PatternItem>)
        ensures
            items_view(r@) == self@,
    {
        self.items
    }
}

impl Clone for Pattern {
    fn clone(&self) -> (r: Pattern)
        ensures
            r@ == self@,
    {
        self.duplicate()
    }
}

impl Default for Pattern {
    fn default() -> (r: Pattern)
        ensures
            r@ == Seq::<ItemModel>::empty(),
    {
        Pattern::empty()
    }
}

} // verus!
