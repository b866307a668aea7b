use vstd::prelude::*;

use super::parser::{spec_collect, spec_parse_pattern, spec_run, spec_step, start_segment, SegModel};
use super::{granularity_rank, spec_item_granularity, spec_max_granularity, ItemModel, TimeGranularity};
use crate::fields::Field;

verus! {

/// The granularity of a pattern is the most granular time that any of its items
/// represents: no item is more granular, some item has it, and it is `None` exactly
/// when no item is a time field.
pub proof fn law_most_granular_time(items: Seq<ItemModel>)
    ensures
        forall|i: int|
            0 <= i < items.len() && (#[trigger] spec_item_granularity(items[i])) is Some ==> {
                &&& spec_max_granularity(items) is Some
                &&& granularity_rank(spec_item_granularity(items[i])->0) <= granularity_rank(
                    spec_max_granularity(items)->0,
                )
            },
        spec_max_granularity(items) matches Some(m) ==> exists|i: int|
            0 <= i < items.len() && spec_item_granularity(items[i]) == Some(m),
        spec_max_granularity(items) is None <==> forall|i: int|
            0 <= i < items.len() ==> (#[trigger] spec_item_granularity(items[i])) is None,
    decreases items.len(),
{
    if items.len() > 0 {
        let init = items.drop_last();
        law_most_granular_time(init);
        assert forall|i: int| 0 <= i < init.len() implies #[trigger] init[i] == items[i] by {}
        let last = items.len() - 1;
        if let Some(m) = spec_max_granularity(items) {
            if spec_item_granularity(items.last()) == Some(m) {
                assert(spec_item_granularity(items[last]) == Some(m));
            } else {
                let j = choose|j: int| 0 <= j < init.len() && spec_item_granularity(init[j]) == Some(m);
                assert(spec_item_granularity(items[j]) == Some(m));
            }
        }
        assert forall|i: int|
            0 <= i < items.len() && (#[trigger] spec_item_granularity(items[i])) is Some implies {
                &&& spec_max_granularity(items) is Some
                &&& granularity_rank(spec_item_granularity(items[i])->0) <= granularity_rank(
                    spec_max_granularity(items)->0,
                )
            } by {
            if i < last {
                assert(spec_item_granularity(init[i]) is Some);
            }
        }
        if spec_max_granularity(items) is None {
            assert forall|i: int| 0 <= i < items.len() implies (#[trigger] spec_item_granularity(
                items[i],
            )) is None by {
                if i < last {
                    assert(spec_item_granularity(init[i]) is None);
                }
            }
        } else {
            if spec_item_granularity(items.last()) is None {
                let j = choose|j: int| 0 <= j < init.len() && spec_item_granularity(init[j]) == spec_max_granularity(init);
                assert(spec_item_granularity(items[j]) is Some);
            } else {
                assert(spec_item_granularity(items[last]) is Some);
            }
        }
    }
}

/// An item on its own is well formed: literal text is not empty.
pub open spec fn item_ok(it: ItemModel) -> bool {
    it matches ItemModel::Literal(t) ==> t.len() > 0
}

/// Two neighbouring items are well formed: not two literals, and not two fields of
/// one symbol.
pub open spec fn adjacent_ok(a: ItemModel, b: ItemModel) -> bool {
    &&& !(a is Literal && b is Literal)
    &&& !(a matches ItemModel::Field(f) && b matches ItemModel::Field(g) && f.symbol == g.symbol)
}

/// A sequence of items in the form parsing gives: no empty literal, no two literals
/// side by side, and no two fields of one symbol side by side.
pub open spec fn normal_form(items: Seq<ItemModel>) -> bool
    decreases items.len(),
{
    if items.len() == 0 {
        true
    } else {
        &&& normal_form(items.drop_last())
        &&& item_ok(items.last())
        &&& (items.len() == 1 || adjacent_ok(items[items.len() - 2], items.last()))
    }
}

proof fn lemma_normal_form_push(items: Seq<ItemModel>, x: ItemModel)
    ensures
        normal_form(items.push(x)) == (normal_form(items) && item_ok(x) && (items.len() == 0
            || adjacent_ok(items.last(), x))),
{
    assert(items.push(x).drop_last() =~= items);
}

/// What holds of the parser's state between steps, for a pattern without placeholders.
spec fn run_inv(s: Seq<char>, i: nat, seg: SegModel, items: Seq<ItemModel>) -> bool {
    &&& normal_form(items)
    &&& seg is Literal ==> items.len() == 0 || items.last() is Field
    &&& (seg is Literal && seg->text.len() == 0) ==> items.len() == 0 || seg->quoted
    &&& (seg is Literal && seg->text.len() == 0 && seg->quoted && i < s.len()) ==> s[i as int] != '\''
    &&& seg matches SegModel::Symbol { symbol, .. } ==> items.len() == 0 || !(items.last() matches ItemModel::Field(f) && f.symbol == symbol)
}

proof fn lemma_collect_normal(s: Seq<char>, i: nat, seg: SegModel, items: Seq<ItemModel>)
    requires
        run_inv(s, i, seg, items),
    ensures
        spec_collect(seg, items) matches Ok(r) ==> {
            &&& normal_form(r)
            &&& seg is Symbol ==> r.len() > 0 && (r.last() matches ItemModel::Field(f) && f.symbol == seg->symbol)
            &&& seg is Literal ==> (r == items || (r.len() > 0 && r.last() is Literal))
        },
{
    if let Ok(r) = spec_collect(seg, items) {
        match seg {
            SegModel::Symbol { symbol, count } => {
                lemma_normal_form_push(items, r.last());
                assert(r.drop_last() =~= items);
            },
            SegModel::Literal { text, quoted } => {
                if text.len() > 0 {
                    lemma_normal_form_push(items, r.last());
                }
            },
        }
    }
}

proof fn lemma_run_normal(s: Seq<char>, i: nat, seg: SegModel, items: Seq<ItemModel>)
    requires
        run_inv(s, i, seg, items),
    ensures
        spec_run(s, i, seg, items, None) matches Ok(r) ==> normal_form(r),
    decreases s.len() - i,
{
    lemma_collect_normal(s, i, seg, items);
    if i < s.len() {
        let c = s[i as int];
        if let Ok((j, seg2, items2)) = spec_step(s, i, seg, items, None) {
            assert(run_inv(s, j, seg2, items2)) by {
                if c != '\'' && !(seg is Literal && seg->quoted) && spec_collect(seg, items) is Ok {
                    let r = spec_collect(seg, items)->Ok_0;
                    if items2 == r {
                        if r.len() > 0 && r.last() is Literal {
                            lemma_normal_form_push(r, r.last());
                        }
                    }
                }
            }
            super::parser::lemma_step_advances(s, i, seg, items, None);
            lemma_run_normal(s, j, seg2, items2);
        }
    }
}

/// Every pattern that parsing gives is in normal form.
pub proof fn law_parse_normal_form(s: Seq<char>)
    ensures
        spec_parse_pattern(s) matches Ok(items) ==> normal_form(items),
{
    lemma_run_normal(s, 0, start_segment(), Seq::empty());
}

/// The granularity of each item: every hour field (whichever hour cycle, whatever its
/// length) has `Hours`, the minute field `Minutes`, every second field `Seconds`, and
/// every other field and every literal none; and `Hours < Minutes < Seconds`.
pub proof fn law_item_granularity(f: Field, t: Seq<char>)
    ensures
        f.symbol is Hour ==> spec_item_granularity(ItemModel::Field(f)) == Some(TimeGranularity::Hours),
        f.symbol is Minute ==> spec_item_granularity(ItemModel::Field(f)) == Some(TimeGranularity::Minutes),
        f.symbol is Second ==> spec_item_granularity(ItemModel::Field(f)) == Some(TimeGranularity::Seconds),
        !(f.symbol is Hour || f.symbol is Minute || f.symbol is Second) ==> spec_item_granularity(
            ItemModel::Field(f),
        ) is None,
        spec_item_granularity(ItemModel::Literal(t)) is None,
        granularity_rank(TimeGranularity::Hours) < granularity_rank(TimeGranularity::Minutes),
        granularity_rank(TimeGranularity::Minutes) < granularity_rank(TimeGranularity::Seconds),
{
}

} // verus!
