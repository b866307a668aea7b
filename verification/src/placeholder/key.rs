use vstd::prelude::*;

use crate::chars::string_of;

verus! {

/// A type whose values can name a placeholder, read from the text between braces.
pub trait PlaceholderKey: Sized + View {
    /// The key that `text` names, if any.
    spec fn spec_parse_key(text: Seq<char>) -> Option<Self::V>;

    /// Reads the key named by `text[from..to]`.
    fn parse_key(text: &Vec<char>, from: usize, to: usize) -> (r: Option<Self>)
        requires
            from <= to <= text@.len(),
        ensures
            match Self::spec_parse_key(text@.subrange(from as int, to as int)) {
                Some(k) => r matches Some(x) && x@ == k,
                None => r is None,
            },
    ;

    /// A copy of the key.
    fn clone_key(&self) -> (r: Self)
        ensures
            r@ == self@,
    ;
}

/// Whether every character of `t` is an ASCII digit.
pub open spec fn all_digits(t: Seq<char>) -> bool {
    forall|i: int| 0 <= i < t.len() ==> '0' <= #[trigger] t[i] && t[i] <= '9'
}

/// The number that the decimal digits `t` write.
pub open spec fn digits_value(t: Seq<char>) -> nat
    decreases t.len(),
{
    if t.len() == 0 {
        0
    } else {
        digits_value(t.drop_last()) * 10 + ((t.last() as int) - ('0' as int)) as nat
    }
}

/// The number that `t` writes in decimal, with an optional leading `+`, where it
/// fits in a `usize`.
pub open spec fn spec_parse_usize(t: Seq<char>) -> Option<usize> {
    let d = if t.len() > 0 && t[0] == '+' {
        t.drop_first()
    } else {
        t
    };
    if d.len() > 0 && all_digits(d) && digits_value(d) <= usize::MAX {
        Some(digits_value(d) as usize)
    } else {
        None
    }
}

proof fn lemma_digits_value_grows(t: Seq<char>, k: int)
    requires
        0 <= k <= t.len(),
        all_digits(t),
    ensures
        digits_value(t.take(k)) <= digits_value(t),
    decreases t.len() - k,
{
    if k < t.len() {
        lemma_digits_value_grows(t, k + 1);
        assert(t.take(k + 1).drop_last() =~= t.take(k));
        assert('0' <= t.take(k + 1).last());
    } else {
        assert(t.take(k) =~= t);
    }
}

impl PlaceholderKey for usize {
    open spec fn spec_parse_key(text: Seq<char>) -> Option<usize> {
        spec_parse_usize(text)
    }

    fn parse_key(text: &Vec<char>, from: usize, to: usize) -> (r: Option<usize>) {
        let ghost t = text@.subrange(from as int, to as int);
        let mut i = from;
        if i < to && text[i] == '+' {
            i = i + 1;
        }
        let ghost d = text@.subrange(i as int, to as int);
        assert(d =~= (if t.len() > 0 && t[0] == '+' { t.drop_first() } else { t }));
        if i >= to {
            return None;
        }
        let start = i;
        let mut v: usize = 0;
        while i < to
            invariant
                from <= start <= i <= to <= text@.len(),
                d == text@.subrange(start as int, to as int),
                t == text@.subrange(from as int, to as int),
                d == (if t.len() > 0 && t[0] == '+' { t.drop_first() } else { t }),
                d.len() > 0,
                all_digits(d.take(i - start)),
                v == digits_value(d.take(i - start)),
            decreases to - i,
        {
            let c = text[i];
            if !('0' <= c && c <= '9') {
                assert(d[i - start] == c);
                return None;
            }
            let digit = ((c as u32) - ('0' as u32)) as usize;
            assert(d.take(i - start + 1).drop_last() =~= d.take(i - start));
            assert(d.take(i - start + 1).last() == c);
            if v > (usize::MAX - digit) / 10 {
                proof {
                    assert(digits_value(d.take(i - start + 1)) == v * 10 + digit);
                    assert(v * 10 + digit > usize::MAX) by (nonlinear_arith)
                        requires
                            v > (usize::MAX - digit) / 10,
                            digit <= 9,
                    ;
                    assert(all_digits(d.take(i - start + 1)));
                    if all_digits(d) {
                        lemma_digits_value_grows(d, i - start + 1);
                    }
                }
                return None;
            }
            assert(v * 10 + digit <= usize::MAX) by (nonlinear_arith)
                requires
                    v <= (usize::MAX - digit) / 10,
                    digit <= 9,
            ;
            v = v * 10 + digit;
            i = i + 1;
        }
        assert(d.take(i - start) =~= d);
        Some(v)
    }

    fn clone_key(&self) -> (r: usize) {
        *self
    }
}

impl PlaceholderKey for String {
    open spec fn spec_parse_key(text: Seq<char>) -> Option<Seq<char>> {
        Some(text)
    }

    fn parse_key(text: &Vec<char>, from: usize, to: usize) -> (r: Option<String>) {
        Some(string_of(text, from, to))
    }

    fn clone_key(&self) -> (r: String) {
        self.clone()
    }
}

/// The decimal digit for `d`, which is below ten.
pub open spec fn digit_char(d: nat) -> char {
    if d == 0 { '0' }
    else if d == 1 { '1' }
    else if d == 2 { '2' }
    else if d == 3 { '3' }
    else if d == 4 { '4' }
    else if d == 5 { '5' }
    else if d == 6 { '6' }
    else if d == 7 { '7' }
    else if d == 8 { '8' }
    else { '9' }
}

/// The decimal digits of `n`, without leading zeros.
pub open spec fn decimal_digits(n: nat) -> Seq<char>
    decreases n,
{
    if n < 10 {
        seq![digit_char(n)]
    } else {
        decimal_digits(n / 10).push(digit_char(n % 10))
    }
}

proof fn lemma_digit_char(d: nat)
    requires
        d < 10,
    ensures
        '0' <= digit_char(d) && digit_char(d) <= '9',
        (digit_char(d) as int) - ('0' as int) == d,
{
}

proof fn lemma_decimal_digits(n: nat)
    ensures
        decimal_digits(n).len() > 0,
        all_digits(decimal_digits(n)),
        digits_value(decimal_digits(n)) == n,
    decreases n,
{
    if n < 10 {
        let t = decimal_digits(n);
        lemma_digit_char(n);
        assert(t.drop_last() =~= Seq::<char>::empty());
        assert(digits_value(t) == digits_value(t.drop_last()) * 10 + ((t.last() as int) - ('0' as int)) as nat);
    } else {
        lemma_decimal_digits(n / 10);
        lemma_digit_char(n % 10);
        let t = decimal_digits(n);
        assert(t.drop_last() =~= decimal_digits(n / 10));
        assert(t.last() == digit_char(n % 10));
        assert forall|i: int| 0 <= i < t.len() implies '0' <= #[trigger] t[i] && t[i] <= '9' by {
            if i < t.len() - 1 {
                assert(t[i] == decimal_digits(n / 10)[i]);
            }
        }
        assert(digits_value(t) == digits_value(t.drop_last()) * 10 + ((t.last() as int) - ('0' as int)) as nat);
        assert(n == (n / 10) * 10 + n % 10);
    }
}

/// Every character of the decimal digits of `n` is a digit.
pub proof fn lemma_decimal_digits_are_digits(n: nat, j: int)
    requires
        0 <= j < decimal_digits(n).len(),
    ensures
        '0' <= decimal_digits(n)[j] && decimal_digits(n)[j] <= '9',
{
    lemma_decimal_digits(n);
}

/// A `usize` key is read from its decimal digits, however many there are: the text
/// `n` writes in decimal names the key `n`, for every `n`.
pub proof fn law_usize_key_decimal(n: usize)
    ensures
        <usize as PlaceholderKey>::spec_parse_key(decimal_digits(n as nat)) == Some(n),
        <usize as PlaceholderKey>::spec_parse_key(seq!['+'] + decimal_digits(n as nat)) == Some(n),
{
    lemma_decimal_digits(n as nat);
    let t = decimal_digits(n as nat);
    assert('0' <= t[0] && t[0] <= '9');
    assert((seq!['+'] + t).drop_first() =~= t);
}

} // verus!
