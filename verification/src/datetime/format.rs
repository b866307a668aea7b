use vstd::prelude::*;

use super::{ItemModel, Pattern, PatternItem};
use crate::chars::{
    chars_of, is_ascii_alphabetic, is_whitespace, push_char, spec_is_ascii_alphabetic,
    spec_is_whitespace,
};
use crate::fields::{spec_length_count, spec_symbol_char};

verus! {

/// `n` copies of `c`.
pub open spec fn repeat_char(c: char, n: nat) -> Seq<char>
    decreases n,
{
    if n == 0 {
        Seq::empty()
    } else {
        repeat_char(c, (n - 1) as nat).push(c)
    }
}

/// The length of `t` without its trailing whitespace.
pub open spec fn trimmed_len(t: Seq<char>) -> nat
    decreases t.len(),
{
    if t.len() > 0 && spec_is_whitespace(t.last()) {
        trimmed_len(t.drop_last())
    } else {
        t.len()
    }
}

/// The number of whitespace characters with which `t` starts.
pub open spec fn leading_ws_len(t: Seq<char>) -> nat
    decreases t.len(),
{
    if t.len() > 0 && spec_is_whitespace(t[0]) {
        1 + leading_ws_len(t.drop_first())
    } else {
        0
    }
}

/// `t` with each apostrophe written twice, as UTS 35 writes an apostrophe in literal text.
pub open spec fn double_quotes(t: Seq<char>) -> Seq<char>
    decreases t.len(),
{
    if t.len() == 0 {
        Seq::empty()
    } else {
        double_quotes(t.drop_last()) + if t.last() == '\'' {
            seq!['\'', '\'']
        } else {
            seq![t.last()]
        }
    }
}

/// The text of `t` between its leading and its trailing whitespace.
pub open spec fn core_text(t: Seq<char>) -> Seq<char> {
    let body = t.take(trimmed_len(t) as int);
    body.skip(leading_ws_len(body) as int)
}

/// Whether literal text is written in quotes: where it holds an ASCII letter or an
/// apostrophe, unless the text between its leading and trailing whitespace is made of
/// apostrophes alone (in quotes, `'` would be `''''`, which reads back as two
/// apostrophes; such text is written unquoted, each apostrophe doubled).
pub open spec fn needs_quoting(t: Seq<char>) -> bool {
    &&& exists|i: int| 0 <= i < t.len() && (spec_is_ascii_alphabetic(#[trigger] t[i]) || t[i] == '\'')
    &&& exists|i: int| 0 <= i < core_text(t).len() && #[trigger] core_text(t)[i] != '\''
}

/// Literal text as written in a UTS 35 pattern: apostrophes are doubled, and text that
/// needs quoting (see `needs_quoting`) is put in quotes, with its leading and trailing
/// whitespace outside the quotes, in their order.
pub open spec fn spec_format_literal(t: Seq<char>) -> Seq<char> {
    if needs_quoting(t) {
        let body = t.take(trimmed_len(t) as int);
        let lead = leading_ws_len(body);
        body.take(lead as int) + seq!['\''] + double_quotes(body.skip(lead as int)) + seq!['\'']
            + t.skip(trimmed_len(t) as int)
    } else {
        double_quotes(t)
    }
}

/// An item as written in a pattern: a field as its symbol repeated, a literal as above.
pub open spec fn spec_format_item(it: ItemModel) -> Seq<char> {
    match it {
        ItemModel::Field(f) => repeat_char(spec_symbol_char(f.symbol), spec_length_count(f.length)),
        ItemModel::Literal(t) => spec_format_literal(t),
    }
}

/// The UTS 35 pattern string of a sequence of items.
pub open spec fn spec_format(items: Seq<ItemModel>) -> Seq<char>
    decreases items.len(),
{
    if items.len() == 0 {
        Seq::empty()
    } else {
        spec_format(items.drop_last()) + spec_format_item(items.last())
    }
}

fn push_repeated(out: &mut String, c: char, n: usize)
    ensures
        final(out)@ == old(out)@ + repeat_char(c, n as nat),
{
    let mut k: usize = 0;
    while k < n
        invariant
            k <= n,
            out@ == old(out)@ + repeat_char(c, k as nat),
        decreases n - k,
    {
        push_char(out, c);
        k = k + 1;
        assert(out@ =~= old(out)@ + repeat_char(c, k as nat));
    }
}

/// Appends `t[from..to]` with each apostrophe doubled.
fn push_doubled(out: &mut String, t: &Vec<char>, from: usize, to: usize)
    requires
        from <= to <= t@.len(),
    ensures
        final(out)@ == old(out)@ + double_quotes(t@.subrange(from as int, to as int)),
{
    let mut m: usize = from;
    assert(t@.subrange(from as int, from as int) =~= Seq::<char>::empty());
    while m < to
        invariant
            from <= m <= to <= t@.len(),
            out@ == old(out)@ + double_quotes(t@.subrange(from as int, m as int)),
        decreases to - m,
    {
        let c = t[m];
        assert(t@.subrange(from as int, m + 1).drop_last() =~= t@.subrange(from as int, m as int));
        assert(t@.subrange(from as int, m + 1).last() == c);
        if c == '\'' {
            push_char(out, '\'');
        }
        push_char(out, c);
        m = m + 1;
        assert(out@ =~= old(out)@ + double_quotes(t@.subrange(from as int, m as int)));
    }
}

/// Appends `t[from..to]` as it is.
fn push_range(out: &mut String, t: &Vec<char>, from: usize, to: usize)
    requires
        from <= to <= t@.len(),
    ensures
        final(out)@ == old(out)@ + t@.subrange(from as int, to as int),
{
    let mut m: usize = from;
    while m < to
        invariant
            from <= m <= to <= t@.len(),
            out@ == old(out)@ + t@.subrange(from as int, m as int),
        decreases to - m,
    {
        push_char(out, t[m]);
        m = m + 1;
        assert(out@ =~= old(out)@ + t@.subrange(from as int, m as int));
    }
}

fn format_literal_into(t: &Vec<char>, out: &mut String)
    ensures
        final(out)@ == old(out)@ + spec_format_literal(t@),
{
    let n = t.len();
    // Whether the text holds a letter or an apostrophe.
    let mut special = false;
    let mut k: usize = 0;
    while k < n
        invariant
            n == t@.len(),
            k <= n,
            special <==> exists|j: int| 0 <= j < k && (spec_is_ascii_alphabetic(#[trigger] t@[j]) || t@[j] == '\''),
        decreases n - k,
    {
        if is_ascii_alphabetic(t[k]) || t[k] == '\'' {
            special = true;
        }
        k = k + 1;
    }
    // The end of the text without its trailing whitespace.
    let mut e: usize = n;
    assert(t@.take(n as int) =~= t@);
    while e > 0 && is_whitespace(t[e - 1])
        invariant
            n == t@.len(),
            e <= n,
            trimmed_len(t@.take(e as int)) == trimmed_len(t@),
        decreases e,
    {
        assert(t@.take(e as int).drop_last() =~= t@.take(e - 1));
        e = e - 1;
    }
    assert(trimmed_len(t@.take(e as int)) == e);
    let ghost body = t@.take(e as int);
    // The end of the leading whitespace.
    let mut l: usize = 0;
    assert(body.skip(0) =~= body);
    while l < e && is_whitespace(t[l])
        invariant
            n == t@.len(),
            l <= e <= n,
            body == t@.take(e as int),
            leading_ws_len(body) == l + leading_ws_len(body.skip(l as int)),
        decreases e - l,
    {
        assert(body.skip(l as int).drop_first() =~= body.skip(l + 1));
        l = l + 1;
    }
    assert(leading_ws_len(body.skip(l as int)) == 0);
    assert(core_text(t@) =~= t@.subrange(l as int, e as int));
    // Whether the text between the whitespace holds anything but apostrophes.
    let mut other = false;
    let mut m: usize = l;
    while m < e
        invariant
            n == t@.len(),
            l <= m <= e <= n,
            other <==> exists|j: int| l <= j < m && #[trigger] t@[j] != '\'',
        decreases e - m,
    {
        if t[m] != '\'' {
            other = true;
        }
        m = m + 1;
    }
    assert(other <==> exists|i: int| 0 <= i < core_text(t@).len() && #[trigger] core_text(t@)[i] != '\'') by {
        if other {
            let j = choose|j: int| l <= j < e && #[trigger] t@[j] != '\'';
            assert(core_text(t@)[j - l] == t@[j]);
        }
        if exists|i: int| 0 <= i < core_text(t@).len() && #[trigger] core_text(t@)[i] != '\'' {
            let i = choose|i: int| 0 <= i < core_text(t@).len() && #[trigger] core_text(t@)[i] != '\'';
            assert(core_text(t@)[i] == t@[l + i]);
        }
    }
    if !(special && other) {
        assert(!needs_quoting(t@));
        assert(t@.subrange(0, n as int) =~= t@);
        push_doubled(out, t, 0, n);
        return;
    }
    assert(needs_quoting(t@));
    push_range(out, t, 0, l);
    assert(t@.subrange(0, l as int) =~= body.take(l as int));
    push_char(out, '\'');
    push_doubled(out, t, l, e);
    assert(t@.subrange(l as int, e as int) =~= body.skip(l as int));
    push_char(out, '\'');
    // The trailing whitespace, in its order.
    push_range(out, t, e, n);
    assert(t@.subrange(e as int, n as int) =~= t@.skip(e as int));
    assert(out@ =~= old(out)@ + spec_format_literal(t@));
}

fn format_item_into(item: &PatternItem, out: &mut String)
    ensures
        final(out)@ == old(out)@ + spec_format_item(item@),
{
    match item {
        PatternItem::Field(f) => {
            let c = f.symbol.to_char();
            let n = f.length.count();
            push_repeated(out, c, n);
        },
        PatternItem::Literal(s) => {
            let t = chars_of(s.as_str());
            format_literal_into(&t, out);
        },
    }
}

impl Pattern {
    /// The UTS 35 pattern string of this pattern.
    pub fn to_pattern_string(&self) -> (r: String)
        ensures
            r@ == spec_format(self@),
    {
        let items = self.items();
        let mut out = String::new();
        let mut i: usize = 0;
        assert(super::items_view(items@).take(0) =~= Seq::<ItemModel>::empty());
        while i < items.len()
            invariant
                i <= items@.len(),
                super::items_view(items@) == self@,
                out@ == spec_format(self@.take(i as int)),
            decreases items@.len() - i,
        {
            format_item_into(&items[i], &mut out);
            assert(self@.take(i + 1).drop_last() =~= self@.take(i as int));
            i = i + 1;
        }
        assert(self@.take(i as int) =~= self@);
        out
    }
}

} // verus!
