use vstd::prelude::*;

use super::format::{
    double_quotes, leading_ws_len, needs_quoting, repeat_char, spec_format, spec_format_item,
    trimmed_len,
};
use super::laws::{adjacent_ok, item_ok, normal_form};
use super::parser::{spec_collect, spec_parse_pattern, spec_run, start_segment, SegModel};
use super::ItemModel;
use crate::chars::{spec_is_ascii_alphabetic, spec_is_whitespace};
use crate::fields::{
    lemma_length_count_roundtrip, lemma_symbol_char_roundtrip, spec_length_count,
    spec_symbol_char, spec_symbol_of_char, FieldSymbol,
};

verus! {

proof fn lemma_repeat_char(c: char, n: nat)
    ensures
        repeat_char(c, n).len() == n,
        forall|j: int| 0 <= j < n ==> #[trigger] repeat_char(c, n)[j] == c,
    decreases n,
{
    if n > 0 {
        lemma_repeat_char(c, (n - 1) as nat);
    }
}

proof fn lemma_format_concat(a: Seq<ItemModel>, b: Seq<ItemModel>)
    ensures
        spec_format(a + b) == spec_format(a) + spec_format(b),
    decreases b.len(),
{
    if b.len() == 0 {
        assert(a + b =~= a);
        assert(spec_format(a) + spec_format(b) =~= spec_format(a));
    } else {
        lemma_format_concat(a, b.drop_last());
        assert((a + b).drop_last() =~= a + b.drop_last());
        assert((a + b).last() == b.last());
        assert(spec_format(a + b) =~= spec_format(a) + spec_format(b));
    }
}

proof fn lemma_normal_form_at(items: Seq<ItemModel>, k: int)
    requires
        normal_form(items),
        0 <= k < items.len(),
    ensures
        item_ok(items[k]),
        k + 1 < items.len() ==> adjacent_ok(items[k], items[(k + 1) as int]),
    decreases items.len(),
{
    let init = items.drop_last();
    if k + 1 < items.len() {
        lemma_normal_form_at(init, k);
        assert(init[k] == items[k]);
        if k + 2 == items.len() {
            assert(items[(items.len() - 2) as int] == items[k]);
        } else {
            lemma_normal_form_at(init, k + 1);
            assert(init[(k + 1) as int] == items[(k + 1) as int]);
        }
    }
}

proof fn lemma_trimmed(t: Seq<char>)
    ensures
        trimmed_len(t) <= t.len(),
        forall|j: int| trimmed_len(t) <= j < t.len() ==> spec_is_whitespace(#[trigger] t[j]),
        trimmed_len(t) > 0 ==> !spec_is_whitespace(t[(trimmed_len(t) - 1) as int]),
    decreases t.len(),
{
    if t.len() > 0 && spec_is_whitespace(t.last()) {
        lemma_trimmed(t.drop_last());
        assert forall|j: int| trimmed_len(t) <= j < t.len() implies spec_is_whitespace(#[trigger] t[j]) by {
            if j < t.len() - 1 {
                assert(t.drop_last()[j] == t[j]);
            }
        }
        if trimmed_len(t) > 0 {
            assert(t.drop_last()[(trimmed_len(t) - 1) as int] == t[(trimmed_len(t) - 1) as int]);
        }
    }
}

proof fn lemma_leading(t: Seq<char>)
    ensures
        leading_ws_len(t) <= t.len(),
        forall|j: int| 0 <= j < leading_ws_len(t) ==> spec_is_whitespace(#[trigger] t[j]),
        leading_ws_len(t) < t.len() ==> !spec_is_whitespace(t[leading_ws_len(t) as int]),
    decreases t.len(),
{
    if t.len() > 0 && spec_is_whitespace(t[0]) {
        lemma_leading(t.drop_first());
        assert forall|j: int| 0 <= j < leading_ws_len(t) implies spec_is_whitespace(#[trigger] t[j]) by {
            if j > 0 {
                assert(t.drop_first()[(j - 1) as int] == t[j]);
            }
        }
        if leading_ws_len(t) < t.len() {
            assert(t.drop_first()[(leading_ws_len(t) - 1) as int] == t[leading_ws_len(t) as int]);
        }
    }
}

proof fn lemma_dq_concat(a: Seq<char>, b: Seq<char>)
    ensures
        double_quotes(a + b) == double_quotes(a) + double_quotes(b),
    decreases b.len(),
{
    if b.len() == 0 {
        assert(a + b =~= a);
        assert(double_quotes(a) + double_quotes(b) =~= double_quotes(a));
    } else {
        lemma_dq_concat(a, b.drop_last());
        assert((a + b).drop_last() =~= a + b.drop_last());
        assert((a + b).last() == b.last());
        assert(double_quotes(a + b) =~= double_quotes(a) + double_quotes(b));
    }
}

proof fn lemma_dq_single(c: char)
    ensures
        double_quotes(seq![c]) == if c == '\'' {
            seq!['\'', '\'']
        } else {
            seq![c]
        },
{
    assert(seq![c].drop_last() =~= Seq::<char>::empty());
    assert(seq![c].last() == c);
    assert(double_quotes(Seq::<char>::empty()) == Seq::<char>::empty());
    assert(Seq::<char>::empty() + seq![c] =~= seq![c]);
    assert(Seq::<char>::empty() + seq!['\'', '\''] =~= seq!['\'', '\'']);
}

/// Splits the text of `x` into that of its first character and that of the rest.
proof fn lemma_dq_front(x: Seq<char>)
    requires
        x.len() > 0,
    ensures
        double_quotes(x) == double_quotes(seq![x[0]]) + double_quotes(x.drop_first()),
{
    assert(x =~= seq![x[0]] + x.drop_first());
    lemma_dq_concat(seq![x[0]], x.drop_first());
}

proof fn lemma_dq_no_quotes(t: Seq<char>)
    requires
        forall|j: int| 0 <= j < t.len() ==> #[trigger] t[j] != '\'',
    ensures
        double_quotes(t) == t,
    decreases t.len(),
{
    if t.len() > 0 {
        assert forall|j: int| 0 <= j < t.drop_last().len() implies #[trigger] t.drop_last()[j] != '\'' by {
            assert(t.drop_last()[j] == t[j]);
        }
        lemma_dq_no_quotes(t.drop_last());
        assert(t[t.len() - 1] != '\'');
        assert(double_quotes(t) =~= t);
    }
}

proof fn lemma_dq_all_quotes(t: Seq<char>)
    requires
        forall|j: int| 0 <= j < t.len() ==> #[trigger] t[j] == '\'',
    ensures
        double_quotes(t).len() == 2 * t.len(),
        forall|j: int| 0 <= j < double_quotes(t).len() ==> #[trigger] double_quotes(t)[j] == '\'',
    decreases t.len(),
{
    if t.len() > 0 {
        assert forall|j: int| 0 <= j < t.drop_last().len() implies #[trigger] t.drop_last()[j] == '\'' by {
            assert(t.drop_last()[j] == t[j]);
        }
        lemma_dq_all_quotes(t.drop_last());
        assert(t[t.len() - 1] == '\'');
    }
}

/// The number of apostrophes with which `t` starts.
spec fn leading_quotes_len(t: Seq<char>) -> nat
    decreases t.len(),
{
    if t.len() > 0 && t[0] == '\'' {
        1 + leading_quotes_len(t.drop_first())
    } else {
        0
    }
}

proof fn lemma_leading_quotes(t: Seq<char>)
    ensures
        leading_quotes_len(t) <= t.len(),
        forall|j: int| 0 <= j < leading_quotes_len(t) ==> #[trigger] t[j] == '\'',
        leading_quotes_len(t) < t.len() ==> t[leading_quotes_len(t) as int] != '\'',
    decreases t.len(),
{
    if t.len() > 0 && t[0] == '\'' {
        lemma_leading_quotes(t.drop_first());
        assert forall|j: int| 0 <= j < leading_quotes_len(t) implies #[trigger] t[j] == '\'' by {
            if j > 0 {
                assert(t.drop_first()[j - 1] == t[j]);
            }
        }
        if leading_quotes_len(t) < t.len() {
            assert(t.drop_first()[leading_quotes_len(t) - 1] == t[leading_quotes_len(t) as int]);
        }
    }
}

/// Where `a + b` stands in `s` at `p`, `a` stands at `p` and `b` right after it.
proof fn lemma_split_at(s: Seq<char>, p: int, a: Seq<char>, b: Seq<char>)
    requires
        0 <= p,
        p + a.len() + b.len() <= s.len(),
        s.subrange(p, p + a.len() + b.len()) == a + b,
    ensures
        s.subrange(p, p + a.len()) == a,
        s.subrange(p + a.len(), p + a.len() + b.len()) == b,
{
    assert forall|j: int| 0 <= j < a.len() implies s.subrange(p, p + a.len())[j] == a[j] by {
        assert(s.subrange(p, p + a.len() + b.len())[j] == (a + b)[j]);
    }
    assert forall|j: int| 0 <= j < b.len() implies s.subrange(p + a.len(), p + a.len() + b.len())[j] == b[j] by {
        assert(s.subrange(p, p + a.len() + b.len())[a.len() + j] == (a + b)[a.len() + j]);
        assert(s.subrange(p, p + a.len() + b.len())[a.len() + j] == s[p + a.len() + j]);
        assert(s.subrange(p + a.len(), p + a.len() + b.len())[j] == s[p + a.len() + j]);
    }
    assert(s.subrange(p, p + a.len()) =~= a);
    assert(s.subrange(p + a.len(), p + a.len() + b.len()) =~= b);
}

/// Reading the text of `x` with its apostrophes doubled adds `x` to the literal text
/// being read: inside quotes any text, outside quotes text without letters.
proof fn lemma_run_dq(s: Seq<char>, q: nat, x: Seq<char>, u: Seq<char>, quoted: bool, coll: Seq<ItemModel>)
    requires
        q + double_quotes(x).len() <= s.len(),
        s.subrange(q as int, (q + double_quotes(x).len()) as int) == double_quotes(x),
        !quoted ==> forall|j: int| 0 <= j < x.len() ==> !spec_is_ascii_alphabetic(#[trigger] x[j]),
    ensures
        spec_run(s, q, SegModel::Literal { text: u, quoted }, coll, None) == spec_run(
            s,
            q + double_quotes(x).len(),
            SegModel::Literal { text: u + x, quoted },
            coll,
            None,
        ),
    decreases x.len(),
{
    if x.len() == 0 {
        assert(u + x =~= u);
    } else {
        let c = x[0];
        let head = double_quotes(seq![c]);
        let tail = x.drop_first();
        lemma_dq_front(x);
        lemma_dq_single(c);
        lemma_split_at(s, q as int, head, double_quotes(tail));
        assert(s[q as int] == head[0]);
        if c == '\'' {
            assert(s[q + 1int] == head[1]);
        } else {
            if !quoted {
                assert(!spec_is_ascii_alphabetic(x[0]));
                lemma_symbol_char_roundtrip(FieldSymbol::Minute, c);
            }
        }
        if !quoted {
            assert forall|j: int| 0 <= j < tail.len() implies !spec_is_ascii_alphabetic(#[trigger] tail[j]) by {
                assert(tail[j] == x[j + 1]);
            }
        }
        lemma_run_dq(s, q + head.len(), tail, u.push(c), quoted, coll);
        assert(u.push(c) + tail =~= u + x);
    }
}

/// Reading more of one field symbol.
proof fn lemma_run_symbol(
    s: Seq<char>,
    q: nat,
    m: nat,
    sym: FieldSymbol,
    count: nat,
    coll: Seq<ItemModel>,
)
    requires
        q + m <= s.len(),
        forall|j: int| q <= j < q + m ==> #[trigger] s[j] == spec_symbol_char(sym),
    ensures
        spec_run(s, q, SegModel::Symbol { symbol: sym, count }, coll, None) == spec_run(
            s,
            q + m,
            SegModel::Symbol { symbol: sym, count: count + m },
            coll,
            None,
        ),
    decreases m,
{
    if m > 0 {
        assert(s[q as int] == spec_symbol_char(sym));
        lemma_symbol_char_roundtrip(sym, s[q as int]);
        lemma_run_symbol(s, q + 1, (m - 1) as nat, sym, count + 1, coll);
    }
}

/// The state a chunk may start in: a symbol run, or any unquoted literal text.
spec fn ready(seg: SegModel) -> bool {
    seg is Symbol || (seg is Literal && !seg->quoted)
}

/// Reading a field written as its symbol repeated.
proof fn lemma_chunk_field(
    s: Seq<char>,
    p: nat,
    sym: FieldSymbol,
    n: nat,
    seg: SegModel,
    coll: Seq<ItemModel>,
    coll2: Seq<ItemModel>,
)
    requires
        n >= 1,
        p + n <= s.len(),
        s.subrange(p as int, (p + n) as int) == repeat_char(spec_symbol_char(sym), n),
        ready(seg),
        !(seg matches SegModel::Symbol { symbol, .. } && symbol == sym),
        spec_collect(seg, coll) == Ok::<_, super::Error>(coll2),
    ensures
        spec_run(s, p, seg, coll, None) == spec_run(
            s,
            p + n,
            SegModel::Symbol { symbol: sym, count: n },
            coll2,
            None,
        ),
{
    let c = spec_symbol_char(sym);
    lemma_repeat_char(c, n);
    assert forall|j: int| p <= j < p + n implies #[trigger] s[j] == c by {
        assert(s.subrange(p as int, (p + n) as int)[(j - p) as int] == s[j]);
    }
    lemma_symbol_char_roundtrip(sym, c);
    assert(s[p as int] == c);
    lemma_run_symbol(s, p + 1, (n - 1) as nat, sym, 1, coll2);
}

/// Reading letter-free literal text, written with its apostrophes doubled, after a
/// field or at the start.
proof fn lemma_chunk_unquoted(
    s: Seq<char>,
    p: nat,
    t: Seq<char>,
    seg: SegModel,
    coll: Seq<ItemModel>,
    coll2: Seq<ItemModel>,
)
    requires
        t.len() >= 1,
        p + double_quotes(t).len() <= s.len(),
        s.subrange(p as int, (p + double_quotes(t).len()) as int) == double_quotes(t),
        forall|j: int| 0 <= j < t.len() ==> !spec_is_ascii_alphabetic(#[trigger] t[j]),
        seg is Symbol || seg == start_segment(),
        spec_collect(seg, coll) == Ok::<_, super::Error>(coll2),
    ensures
        spec_run(s, p, seg, coll, None) == spec_run(
            s,
            p + double_quotes(t).len(),
            SegModel::Literal { text: t, quoted: false },
            coll2,
            None,
        ),
{
    if seg == start_segment() {
        lemma_run_dq(s, p, t, Seq::empty(), false, coll);
        assert(Seq::<char>::empty() + t =~= t);
    } else {
        let c = t[0];
        let head = double_quotes(seq![c]);
        let tail = t.drop_first();
        lemma_dq_front(t);
        lemma_dq_single(c);
        lemma_split_at(s, p as int, head, double_quotes(tail));
        assert(s[p as int] == head[0]);
        if c == '\'' {
            assert(s[p + 1int] == head[1]);
        } else {
            assert(!spec_is_ascii_alphabetic(t[0]));
            lemma_symbol_char_roundtrip(FieldSymbol::Minute, c);
        }
        assert forall|j: int| 0 <= j < tail.len() implies !spec_is_ascii_alphabetic(#[trigger] tail[j]) by {
            assert(tail[j] == t[j + 1]);
        }
        assert(seq![c] =~= Seq::<char>::empty().push(c));
        lemma_run_dq(s, p + head.len(), tail, seq![c], false, coll2);
        assert(seq![c] + tail =~= t);
    }
}

/// Reading literal text written as `pre` (doubled apostrophes, no letters), then
/// `'`, then `rest` with doubled apostrophes, then `'`, then `trail`, after a field or
/// at the start.
proof fn lemma_chunk_quoted(
    s: Seq<char>,
    p: nat,
    pre: Seq<char>,
    rest: Seq<char>,
    trail: Seq<char>,
    seg: SegModel,
    coll: Seq<ItemModel>,
    coll2: Seq<ItemModel>,
)
    requires
        rest.len() >= 1,
        rest[0] != '\'',
        ({
            let chunk = double_quotes(pre) + seq!['\''] + double_quotes(rest) + seq!['\''] + trail;
            &&& p + chunk.len() <= s.len()
            &&& s.subrange(p as int, (p + chunk.len()) as int) == chunk
            &&& p + chunk.len() < s.len() ==> s[(p + chunk.len()) as int] != '\''
        }),
        forall|j: int| 0 <= j < pre.len() ==> !spec_is_ascii_alphabetic(#[trigger] pre[j]),
        forall|j: int| 0 <= j < trail.len() ==> #[trigger] spec_is_whitespace(trail[j]),
        seg is Symbol || seg == start_segment(),
        spec_collect(seg, coll) == Ok::<_, super::Error>(coll2),
    ensures
        spec_run(s, p, seg, coll, None) == spec_run(
            s,
            p + double_quotes(pre).len() + double_quotes(rest).len() + trail.len() + 2,
            SegModel::Literal { text: pre + rest + trail, quoted: false },
            coll2,
            None,
        ),
{
    let dp = double_quotes(pre);
    let dr = double_quotes(rest);
    let q1: Seq<char> = seq!['\''];
    let p1 = p + dp.len();
    let p2 = p1 + 1;
    let p3 = p2 + dr.len();
    let p4 = p3 + 1;
    let end = p4 + trail.len();
    // Split the chunk into its parts.
    assert(dp + q1 + dr + q1 + trail =~= dp + (q1 + (dr + (q1 + trail))));
    lemma_split_at(s, p as int, dp, q1 + (dr + (q1 + trail)));
    lemma_split_at(s, p1 as int, q1, dr + (q1 + trail));
    lemma_split_at(s, p2 as int, dr, q1 + trail);
    lemma_split_at(s, p3 as int, q1, trail);
    assert(s[p1 as int] == '\'') by {
        assert(s.subrange(p1 as int, p2 as int)[0] == s[p1 as int]);
    }
    assert(s[p3 as int] == '\'') by {
        assert(s.subrange(p3 as int, p4 as int)[0] == s[p3 as int]);
    }
    lemma_dq_front(rest);
    lemma_dq_single(rest[0]);
    assert(s[p2 as int] == rest[0]) by {
        assert(dr[0] == rest[0]);
        assert(s.subrange(p2 as int, p3 as int)[0] == s[p2 as int]);
    }
    // The text before the quotes.
    if pre.len() > 0 {
        lemma_chunk_unquoted(s, p, pre, seg, coll, coll2);
    } else {
        assert(pre =~= Seq::<char>::empty());
        assert(dp =~= Seq::<char>::empty());
    }
    let seg1 = if pre.len() > 0 {
        SegModel::Literal { text: pre, quoted: false }
    } else {
        seg
    };
    let coll1 = if pre.len() > 0 {
        coll2
    } else {
        coll
    };
    assert(spec_run(s, p, seg, coll, None) == spec_run(s, p1, seg1, coll1, None));
    // The opening quote.
    if seg1 is Literal {
        assert(seg1->text =~= pre);
        if pre.len() == 0 {
            assert(coll2 == coll);
        }
    }
    assert(!(p1 + 1 < s.len() && s[p1 + 1int] == '\''));
    assert(spec_run(s, p1, seg1, coll1, None) == spec_run(
        s,
        p2,
        SegModel::Literal { text: pre, quoted: true },
        coll2,
        None,
    ));
    // The quoted text.
    lemma_run_dq(s, p2, rest, pre, true, coll2);
    // The closing quote.
    if trail.len() > 0 {
        assert(s[p4 as int] == trail[0]) by {
            assert(s.subrange(p4 as int, end as int)[0] == s[p4 as int]);
        }
        assert(spec_is_whitespace(trail[0]));
    }
    assert(!(p3 + 1 < s.len() && s[p3 + 1int] == '\''));
    // The trailing whitespace.
    assert forall|j: int| 0 <= j < trail.len() implies #[trigger] trail[j] != '\'' by {
        assert(spec_is_whitespace(trail[j]));
    }
    lemma_dq_no_quotes(trail);
    assert forall|j: int| 0 <= j < trail.len() implies !spec_is_ascii_alphabetic(#[trigger] trail[j]) by {
        assert(spec_is_whitespace(trail[j]));
    }
    lemma_run_dq(s, p4, trail, pre + rest, false, coll2);
}

/// The segment the parser is in right after reading an item.
spec fn after_item(x: ItemModel) -> SegModel {
    match x {
        ItemModel::Field(f) => SegModel::Symbol { symbol: f.symbol, count: spec_length_count(f.length) },
        ItemModel::Literal(t) => SegModel::Literal { text: t, quoted: false },
    }
}

/// The segment the parser is in before reading item `k`.
spec fn seg_before(items: Seq<ItemModel>, k: int) -> SegModel {
    if k == 0 {
        start_segment()
    } else {
        after_item(items[(k - 1) as int])
    }
}

/// The items collected before reading item `k`.
spec fn coll_before(items: Seq<ItemModel>, k: int) -> Seq<ItemModel> {
    if k == 0 {
        Seq::empty()
    } else {
        items.take(k - 1)
    }
}

proof fn lemma_collect_before(items: Seq<ItemModel>, k: int)
    requires
        normal_form(items),
        0 <= k <= items.len(),
    ensures
        spec_collect(seg_before(items, k), coll_before(items, k)) == Ok::<_, super::Error>(items.take(k)),
{
    if k == 0 {
        assert(items.take(0) =~= Seq::<ItemModel>::empty());
    } else {
        lemma_normal_form_at(items, k - 1);
        assert(items.take(k - 1).push(items[(k - 1) as int]) =~= items.take(k));
        if let ItemModel::Field(f) = items[(k - 1) as int] {
            lemma_length_count_roundtrip(f.length, spec_length_count(f.length));
        }
    }
}

proof fn lemma_format_field_starts(x: ItemModel)
    requires
        x is Field,
    ensures
        spec_format_item(x).len() > 0,
        x matches ItemModel::Field(f) ==> spec_format_item(x)[0] == spec_symbol_char(f.symbol),
{
    if let ItemModel::Field(f) = x {
        lemma_repeat_char(spec_symbol_char(f.symbol), spec_length_count(f.length));
    }
}

/// A letter of literal text lies between its leading and its trailing whitespace, so
/// text with a letter is written in quotes.
proof fn lemma_letter_quoted(t: Seq<char>, w: int)
    requires
        0 <= w < t.len(),
        spec_is_ascii_alphabetic(t[w]),
    ensures
        needs_quoting(t),
{
    let tl = trimmed_len(t);
    lemma_trimmed(t);
    let body = t.take(tl as int);
    let ll = leading_ws_len(body);
    lemma_leading(body);
    let core = body.skip(ll as int);
    assert(w < tl) by {
        if w >= tl {
            assert(spec_is_whitespace(t[w]));
        }
    }
    assert(body[w] == t[w]);
    assert(w >= ll) by {
        if w < ll {
            assert(spec_is_whitespace(body[w]));
        }
    }
    assert(core[w - ll] == t[w]);
    assert(core == super::format::core_text(t));
    assert(t[w] != '\'');
}

/// Reading the text of literal item `k`, which follows a field or starts the pattern.
#[verifier::rlimit(40)]
proof fn lemma_read_literal(items: Seq<ItemModel>, k: int, t: Seq<char>)
    requires
        normal_form(items),
        0 <= k < items.len(),
        items[k] == ItemModel::Literal(t),
        seg_before(items, k) is Symbol || seg_before(items, k) == start_segment(),
        spec_collect(seg_before(items, k), coll_before(items, k)) == Ok::<_, super::Error>(items.take(k)),
        spec_format(items) == spec_format(items.take(k)) + spec_format_item(items[k]) + spec_format(
            items.skip(k + 1),
        ),
    ensures
        spec_run(
            spec_format(items),
            spec_format(items.take(k)).len(),
            seg_before(items, k),
            coll_before(items, k),
            None,
        ) == spec_run(
            spec_format(items),
            spec_format(items.take(k)).len() + spec_format_item(items[k]).len(),
            SegModel::Literal { text: t, quoted: false },
            items.take(k),
            None,
        ),
{
    let s = spec_format(items);
    let f = spec_format_item(items[k]);
    let before = spec_format(items.take(k));
    let after = spec_format(items.skip(k + 1));
    let p = before.len();
    let seg = seg_before(items, k);
    let coll = coll_before(items, k);
    assert(s.subrange(p as int, (p + f.len()) as int) =~= f);
    lemma_normal_form_at(items, k);
    if !needs_quoting(t) {
        assert forall|j: int| 0 <= j < t.len() implies !spec_is_ascii_alphabetic(#[trigger] t[j]) by {
            if spec_is_ascii_alphabetic(t[j]) {
                lemma_letter_quoted(t, j);
            }
        }
        lemma_chunk_unquoted(s, p, t, seg, coll, items.take(k));
    } else {
        lemma_quoted_parts(t);
        let pre = quoted_pre(t);
        let rest = quoted_rest(t);
        let trail = t.skip(trimmed_len(t) as int);
        let chunk = double_quotes(pre) + seq!['\''] + double_quotes(rest) + seq!['\''] + trail;
        if p + chunk.len() < s.len() {
            lemma_next_is_field(items, k, t);
            assert(s[(p + chunk.len()) as int] == after[0]);
        }
        lemma_chunk_quoted(s, p, pre, rest, trail, seg, coll, items.take(k));
    }
}

/// The letter-free text before the opening quote of quoted literal text: its leading
/// whitespace, then the apostrophes that start the quoted part.
spec fn quoted_pre(t: Seq<char>) -> Seq<char> {
    let body = t.take(trimmed_len(t) as int);
    let core = body.skip(leading_ws_len(body) as int);
    body.take(leading_ws_len(body) as int) + core.take(leading_quotes_len(core) as int)
}

/// The quoted text after its leading apostrophes.
spec fn quoted_rest(t: Seq<char>) -> Seq<char> {
    let body = t.take(trimmed_len(t) as int);
    let core = body.skip(leading_ws_len(body) as int);
    core.skip(leading_quotes_len(core) as int)
}

/// Quoted literal text, regrouped: the apostrophes that start it can be read as doubled
/// apostrophes before the opening quote.
#[verifier::rlimit(40)]
proof fn lemma_quoted_parts(t: Seq<char>)
    requires
        needs_quoting(t),
    ensures
        ({
            let trail = t.skip(trimmed_len(t) as int);
            &&& super::format::spec_format_literal(t) == double_quotes(quoted_pre(t)) + seq!['\'']
                + double_quotes(quoted_rest(t)) + seq!['\''] + trail
            &&& quoted_pre(t) + quoted_rest(t) + trail == t
            &&& forall|j: int| 0 <= j < trail.len() ==> #[trigger] spec_is_whitespace(trail[j])
        }),
        quoted_rest(t).len() >= 1,
        quoted_rest(t)[0] != '\'',
        forall|j: int| 0 <= j < quoted_pre(t).len() ==> !spec_is_ascii_alphabetic(#[trigger] quoted_pre(t)[j]),
{
    let tl = trimmed_len(t);
    lemma_trimmed(t);
    let body = t.take(tl as int);
    let ll = leading_ws_len(body);
    lemma_leading(body);
    let lead = body.take(ll as int);
    let core = body.skip(ll as int);
    let trail = t.skip(tl as int);
    let kq = leading_quotes_len(core);
    lemma_leading_quotes(core);
    let quotes = core.take(kq as int);
    let rest = core.skip(kq as int);
    let pre = lead + quotes;
    assert(pre == quoted_pre(t));
    assert(rest == quoted_rest(t));
    // Something other than an apostrophe lies after the leading apostrophes.
    assert(core == super::format::core_text(t));
    let w = choose|i: int| 0 <= i < core.len() && #[trigger] core[i] != '\'';
    assert(w >= kq) by {
        if w < kq {
            assert(core[w] == '\'');
        }
    }
    assert(rest.len() >= 1);
    assert(rest[0] == core[kq as int]);
    // The written text, regrouped.
    assert forall|j: int| 0 <= j < lead.len() implies #[trigger] lead[j] != '\'' by {
        assert(lead[j] == body[j]);
        assert(spec_is_whitespace(body[j]));
    }
    lemma_dq_no_quotes(lead);
    assert forall|j: int| 0 <= j < quotes.len() implies #[trigger] quotes[j] == '\'' by {
        assert(quotes[j] == core[j]);
    }
    lemma_dq_all_quotes(quotes);
    assert(core =~= quotes + rest);
    lemma_dq_concat(quotes, rest);
    lemma_dq_concat(lead, quotes);
    let dq = double_quotes(quotes);
    let q1: Seq<char> = seq!['\''];
    assert(q1 + dq =~= dq + q1) by {
        assert forall|j: int| 0 <= j < dq.len() + 1 implies (q1 + dq)[j] == (dq + q1)[j] by {
            if j > 0 {
                assert((q1 + dq)[j] == dq[j - 1]);
            }
            if j < dq.len() {
                assert((dq + q1)[j] == dq[j]);
            }
        }
    }
    let dr = double_quotes(rest);
    assert(super::format::spec_format_literal(t) == lead + q1 + double_quotes(core) + q1 + trail);
    assert(lead + q1 + (dq + dr) + q1 + trail =~= lead + (q1 + dq) + dr + q1 + trail);
    assert(lead + (dq + q1) + dr + q1 + trail =~= (lead + dq) + q1 + dr + q1 + trail);
    assert forall|j: int| 0 <= j < pre.len() implies !spec_is_ascii_alphabetic(#[trigger] pre[j]) by {
        if j < lead.len() {
            assert(pre[j] == lead[j]);
            assert(lead[j] == body[j]);
            assert(spec_is_whitespace(body[j]));
        } else {
            assert(pre[j] == quotes[j - lead.len()]);
        }
    }
    assert forall|j: int| 0 <= j < trail.len() implies #[trigger] spec_is_whitespace(trail[j]) by {
        assert(trail[j] == t[tl + j]);
    }
    assert(pre + rest + trail =~= lead + core + trail);
    assert(lead + core =~= body);
    assert(body + trail =~= t);
}

/// After a literal that is not the last item, the text goes on with a field's letter.
proof fn lemma_next_is_field(items: Seq<ItemModel>, k: int, t: Seq<char>)
    requires
        normal_form(items),
        0 <= k < items.len(),
        items[k] == ItemModel::Literal(t),
        spec_format(items.skip(k + 1)).len() > 0,
    ensures
        spec_format(items.skip(k + 1))[0] != '\'',
{
    assert(k + 1 < items.len()) by {
        if k + 1 >= items.len() {
            assert(items.skip(k + 1) =~= Seq::<ItemModel>::empty());
        }
    }
    let y = items[k + 1];
    lemma_normal_form_at(items, k);
    assert(adjacent_ok(items[k], y));
    lemma_normal_form_at(items, k + 1);
    lemma_format_field_starts(y);
    assert(items.skip(k + 1) =~= seq![y] + items.skip(k + 2));
    lemma_format_concat(seq![y], items.skip(k + 2));
    assert(seq![y].drop_last() =~= Seq::<ItemModel>::empty());
    assert(spec_format(Seq::<ItemModel>::empty()) == Seq::<char>::empty());
    assert(Seq::<char>::empty() + spec_format_item(y) =~= spec_format_item(y));
    assert(spec_format(seq![y]) == spec_format_item(y));
    if let ItemModel::Field(g) = y {
        lemma_symbol_char_roundtrip(g.symbol, spec_symbol_char(g.symbol));
    }
}

/// Reading the text of item `k` takes the parser from the state before it to the state
/// before item `k + 1`.
proof fn lemma_read_item(items: Seq<ItemModel>, k: int)
    requires
        normal_form(items),
        0 <= k < items.len(),
    ensures
        spec_run(
            spec_format(items),
            spec_format(items.take(k)).len(),
            seg_before(items, k),
            coll_before(items, k),
            None,
        ) == spec_run(
            spec_format(items),
            spec_format(items.take(k + 1)).len(),
            seg_before(items, k + 1),
            coll_before(items, k + 1),
            None,
        ),
{
    let s = spec_format(items);
    let x = items[k];
    let f = spec_format_item(x);
    let before = spec_format(items.take(k));
    let after = spec_format(items.skip(k + 1));
    lemma_normal_form_at(items, k);
    assert(items.take(k + 1).drop_last() =~= items.take(k));
    assert(spec_format(items.take(k + 1)) == before + f);
    assert(items =~= items.take(k + 1) + items.skip(k + 1));
    lemma_format_concat(items.take(k + 1), items.skip(k + 1));
    assert(s == before + f + after);
    let p = before.len();
    assert(s.subrange(p as int, (p + f.len()) as int) =~= f);
    lemma_collect_before(items, k);
    let seg = seg_before(items, k);
    let coll = coll_before(items, k);
    if k > 0 {
        lemma_normal_form_at(items, k - 1);
    }
    assert(seg_before(items, k + 1) == after_item(x));
    assert(coll_before(items, k + 1) == items.take(k));
    match x {
        ItemModel::Field(fd) => {
            lemma_repeat_char(spec_symbol_char(fd.symbol), spec_length_count(fd.length));
            lemma_chunk_field(s, p, fd.symbol, spec_length_count(fd.length), seg, coll, items.take(k));
        },
        ItemModel::Literal(t) => {
            lemma_read_literal(items, k, t);
        },
    }
}

proof fn lemma_read_from(items: Seq<ItemModel>, k: int)
    requires
        normal_form(items),
        0 <= k <= items.len(),
    ensures
        spec_run(
            spec_format(items),
            spec_format(items.take(k)).len(),
            seg_before(items, k),
            coll_before(items, k),
            None,
        ) == Ok::<_, super::Error>(items),
    decreases items.len() - k,
{
    if k < items.len() {
        lemma_read_item(items, k);
        lemma_read_from(items, k + 1);
    } else {
        assert(items.take(k) =~= items);
        lemma_collect_before(items, k);
    }
}

/// Writing a pattern as a UTS 35 string and parsing that string gives the same items
/// back, for all items in normal form.
pub proof fn law_format_parse_roundtrip(items: Seq<ItemModel>)
    requires
        normal_form(items),
    ensures
        spec_parse_pattern(spec_format(items)) == Ok::<_, super::Error>(items),
{
    lemma_read_from(items, 0);
    assert(items.take(0) =~= Seq::<ItemModel>::empty());
}

/// Every pattern that parsing gives is given back by writing it and parsing again.
pub proof fn law_parse_format_parse(s: Seq<char>)
    ensures
        spec_parse_pattern(s) matches Ok(items) ==> spec_parse_pattern(spec_format(items))
            == Ok::<_, super::Error>(items),
{
    super::laws::law_parse_normal_form(s);
    if let Ok(items) = spec_parse_pattern(s) {
        law_format_parse_roundtrip(items);
    }
}

} // verus!
