//! Decimal numbers in texts: digits with at most one point among them, a sign before them, and an
//! exponent after them.
//!
//! A number is read in billionths, with what is left of one cut off.

use vstd::prelude::*;

use crate::seqs::{first_where, lemma_first_where};
use crate::text::{
    chars_of, fields_are_split_at_marks, is_digit, lemma_number_grows, number, split, split_fields,
    text_of,
};

verus! {

/// Nothing but digits.
pub open spec fn figures(text: Seq<char>) -> bool {
    forall|i: int| 0 <= i < text.len() ==> is_digit(#[trigger] text[i])
}

/// The most billionths that are counted. A number that is greater counts as this.
pub const AMOUNT_LIMIT: u128 = 1_000_000_000_000_000_000_000_000_000_000;

/// A number, up to the limit.
pub open spec fn limited(n: int) -> int {
    if n <= AMOUNT_LIMIT {
        n
    } else {
        AMOUNT_LIMIT as int
    }
}

/// The text without the sign before it.
pub open spec fn unsigned_text(text: Seq<char>) -> Seq<char> {
    if text.len() > 0 && (text[0] == '-' || text[0] == '+') {
        text.drop_first()
    } else {
        text
    }
}

/// The mark before an exponent.
pub open spec fn exponent_mark() -> spec_fn(char) -> bool {
    |ch: char| ch == 'e' || ch == 'E'
}

/// The exponent that a text is: digits, with or without a sign.
pub open spec fn exponent_of(text: Seq<char>) -> Option<int> {
    let body = unsigned_text(text);
    if body.len() == 0 || !figures(body) {
        None
    } else if text[0] == '-' {
        Some(-(number(body) as int))
    } else {
        Some(number(body) as int)
    }
}

/// The digits up to a place, filled with zeros.
pub open spec fn up_to(figures: Seq<char>, place: int) -> Seq<char> {
    Seq::new(
        if place > 0 {
            place as nat
        } else {
            0
        },
        |i: int|
            if i < figures.len() {
                figures[i]
            } else {
                '0'
            },
    )
}

/// The digits from a place on are all zero.
pub open spec fn ends_in_zeros(figures: Seq<char>, place: int) -> bool {
    forall|i: int| 0 <= i < figures.len() && place <= i ==> #[trigger] figures[i] == '0'
}

/// A number that was read.
#[derive(Debug, Clone, Copy, PartialEq, Eq, Structural)]
pub struct Amount {
    pub negative: bool,
    /// Its magnitude, in billionths, without what is left of one.
    pub billionths: u128,
    /// Nothing was left of a billionth.
    pub exact: bool,
}

impl Amount {
    /// The number of billionths, below zero for a negative number.
    pub open spec fn value(self) -> int {
        if self.negative {
            -(self.billionths as int)
        } else {
            self.billionths as int
        }
    }
}

/// The number that a text is, if it is one.
pub open spec fn amount_of(text: Seq<char>) -> Option<Amount> {
    let body = unsigned_text(text);
    let at = first_where(body, exponent_mark());
    let exponent = if at < body.len() {
        exponent_of(body.skip(at + 1))
    } else {
        Some(0)
    };
    let fields = split_fields(body.take(at), '.');
    let whole = fields[0];
    let fraction = if fields.len() == 2 {
        fields[1]
    } else {
        Seq::empty()
    };
    let place = whole.len() + exponent->0 + 9;
    if fields.len() > 2 || !figures(whole) || !figures(fraction) || whole.len() + fraction.len()
        == 0 || exponent is None {
        None
    } else {
        Some(
            Amount {
                negative: text.len() > 0 && text[0] == '-',
                billionths: limited(number(up_to(whole + fraction, place)) as int) as u128,
                exact: ends_in_zeros(whole + fraction, place),
            },
        )
    }
}

/// Billionths of the number that a text is, up to 64 bits either way.
pub open spec fn billionths(text: Seq<char>) -> Option<i64> {
    match amount_of(text) {
        Some(amount) => Some(
            if amount.value() > i64::MAX {
                i64::MAX
            } else if amount.value() < i64::MIN {
                i64::MIN
            } else {
                amount.value() as i64
            },
        ),
        None => None,
    }
}

pub fn all_figures(chars: &[char]) -> (yes: bool)
    ensures
        yes == figures(chars@),
{
    let mut i: usize = 0;
    while i < chars.len()
        invariant
            i <= chars@.len(),
            forall|j: int| 0 <= j < i ==> is_digit(#[trigger] chars@[j]),
        decreases chars@.len() - i,
    {
        if chars[i] < '0' || chars[i] > '9' {
            assert(!is_digit(chars@[i as int]));
            return false;
        }
        i += 1;
    }
    true
}

proof fn lemma_up_to_is_figures(figs: Seq<char>, place: int)
    requires
        figures(figs),
    ensures
        figures(up_to(figs, place)),
{
    let s = up_to(figs, place);
    assert forall|i: int| 0 <= i < s.len() implies is_digit(#[trigger] s[i]) by {
        if i < figs.len() {
            assert(is_digit(figs[i]));
        }
    }
}

proof fn lemma_zeros(text: Seq<char>, i: int)
    requires
        0 <= i <= text.len(),
        number(text.take(i)) == 0,
        forall|j: int| i <= j < text.len() ==> #[trigger] text[j] == '0',
    ensures
        number(text) == 0,
    decreases text.len() - i,
{
    if i < text.len() {
        assert(text.take(i + 1).drop_last() =~= text.take(i));
        assert(text.take(i + 1).last() == '0');
        lemma_zeros(text, i + 1);
    } else {
        assert(text.take(i) =~= text);
    }
}

/// What the digits up to a place come to, up to the limit.
fn value_up_to(figs: &[char], place: i128) -> (value: u128)
    requires
        figures(figs@),
    ensures
        value == limited(number(up_to(figs@, place as int)) as int),
{
    let ghost all = up_to(figs@, place as int);
    proof {
        lemma_up_to_is_figures(figs@, place as int);
    }
    let mut value: u128 = 0;
    let mut i: usize = 0;
    assert(all.take(0) =~= Seq::empty());
    while i < figs.len() && (i as i128) < place
        invariant
            i <= figs@.len(),
            i <= all.len(),
            figures(figs@),
            figures(all),
            all == up_to(figs@, place as int),
            value <= AMOUNT_LIMIT,
            value == number(all.take(i as int)),
        decreases figs@.len() - i,
    {
        assert(all.take(i + 1).drop_last() =~= all.take(i as int));
        assert(all[i as int] == figs@[i as int]);
        assert(is_digit(figs@[i as int]));
        value = value * 10 + (figs[i] as u32 - 48) as u128;
        i += 1;
        if value > AMOUNT_LIMIT {
            proof {
                lemma_number_grows(all, i as int);
            }
            return AMOUNT_LIMIT;
        }
    }
    if value == 0 {
        proof {
            lemma_zeros(all, i as int);
        }
        return 0;
    }
    let mut k: i128 = i as i128;
    while k < place
        invariant
            figs@.len() <= k || k >= place,
            0 <= k,
            k <= all.len(),
            all == up_to(figs@, place as int),
            all.len() == (if place > 0 {
                place as int
            } else {
                0
            }),
            figures(all),
            0 < value <= AMOUNT_LIMIT,
            value == number(all.take(k as int)),
        decreases place - k,
    {
        assert(all.take(k + 1).drop_last() =~= all.take(k as int));
        assert(all[k as int] == '0');
        value = value * 10;
        k += 1;
        if value > AMOUNT_LIMIT {
            proof {
                lemma_number_grows(all, k as int);
            }
            return AMOUNT_LIMIT;
        }
    }
    assert(all.take(k as int) =~= all);
    value
}

/// Whether the digits from a place on are all zero.
fn is_zero_from(figs: &[char], place: i128) -> (yes: bool)
    ensures
        yes == ends_in_zeros(figs@, place as int),
{
    let mut i: usize = 0;
    while i < figs.len()
        invariant
            i <= figs@.len(),
            forall|j: int| 0 <= j < i && place <= j ==> #[trigger] figs@[j] == '0',
        decreases figs@.len() - i,
    {
        if i as i128 >= place && figs[i] != '0' {
            return false;
        }
        i += 1;
    }
    true
}

/// A one with so many zeros.
pub open spec fn ten(n: nat) -> nat
    decreases n,
{
    if n == 0 {
        1
    } else {
        ten((n - 1) as nat) * 10
    }
}

proof fn lemma_number_scales(text: Seq<char>, i: int, k: nat)
    requires
        figures(text),
        0 <= i,
        i + k <= text.len(),
        number(text.take(i)) > 0,
    ensures
        number(text.take(i + k)) >= ten(k),
    decreases k,
{
    if k > 0 {
        lemma_number_scales(text, i, (k - 1) as nat);
        assert(text.take(i + k).drop_last() =~= text.take(i + k - 1));
    }
}

/// Far behind its last digit it no longer matters where a number ends.
proof fn lemma_far(figs: Seq<char>, p: int, q: int)
    requires
        figures(figs),
        figs.len() + 31 <= p <= q,
    ensures
        limited(number(up_to(figs, p)) as int) == limited(number(up_to(figs, q)) as int),
        ends_in_zeros(figs, p),
        ends_in_zeros(figs, q),
{
    let a = up_to(figs, p);
    let b = up_to(figs, q);
    let n = figs.len() as int;
    lemma_up_to_is_figures(figs, p);
    lemma_up_to_is_figures(figs, q);
    assert(a.take(n) =~= figs);
    assert(b.take(n) =~= figs);
    if number(figs) == 0 {
        lemma_zeros(a, n);
        lemma_zeros(b, n);
    } else {
        lemma_number_scales(a, n, 31);
        lemma_number_scales(b, n, 31);
        lemma_number_grows(a, n + 31);
        lemma_number_grows(b, n + 31);
        assert(ten(31) > AMOUNT_LIMIT) by {
            reveal_with_fuel(ten, 32);
        }
    }
}

proof fn lemma_near(figs: Seq<char>, p: int, q: int)
    requires
        p <= 0,
        q <= 0,
    ensures
        limited(number(up_to(figs, p)) as int) == limited(number(up_to(figs, q)) as int),
        ends_in_zeros(figs, p) == ends_in_zeros(figs, q),
{
    assert(up_to(figs, p) =~= up_to(figs, q));
    if ends_in_zeros(figs, p) {
        assert(ends_in_zeros(figs, q));
    }
    if ends_in_zeros(figs, q) {
        assert(ends_in_zeros(figs, p));
    }
}

fn drop_sign(chars: &mut Vec<char>) -> (negative: bool)
    ensures
        final(chars)@ == unsigned_text(old(chars)@),
        negative == (old(chars)@.len() > 0 && old(chars)@[0] == '-'),
{
    if chars.len() > 0 && (chars[0] == '-' || chars[0] == '+') {
        let sign = chars.remove(0);
        assert(chars@ =~= old(chars)@.drop_first());
        sign == '-'
    } else {
        false
    }
}

/// An exponent, up to the limit either way.
fn read_exponent(text: Vec<char>) -> (exponent: Option<i128>)
    ensures
        match exponent {
            Some(e) => exponent_of(text@) is Some && -(AMOUNT_LIMIT as int) <= e <= AMOUNT_LIMIT && (
            if e == AMOUNT_LIMIT {
                exponent_of(text@)->0 >= AMOUNT_LIMIT
            } else if e == -(AMOUNT_LIMIT as int) {
                exponent_of(text@)->0 <= -(AMOUNT_LIMIT as int)
            } else {
                exponent_of(text@)->0 == e
            }),
            None => exponent_of(text@) is None,
        },
{
    let mut body = text;
    let negative = drop_sign(&mut body);
    if body.len() == 0 || !all_figures(&body) {
        return None;
    }
    let value: i128 = value_up_to(&body, body.len() as i128) as i128;
    assert(up_to(body@, body@.len() as int) =~= body@);
    if negative {
        Some(-value)
    } else {
        Some(value)
    }
}

/// Reads a number.
pub fn read_amount(text: &str) -> (amount: Option<Amount>)
    ensures
        amount == amount_of(text@),
        amount is Some ==> amount->0.billionths <= AMOUNT_LIMIT,
{
    let mut body = chars_of(text);
    let negative = drop_sign(&mut body);
    let ghost whole_body = body@;
    let ghost mark = exponent_mark();
    let mut at: usize = 0;
    while at < body.len() && body[at] != 'e' && body[at] != 'E'
        invariant
            at <= body@.len(),
            body@ == whole_body,
            mark == exponent_mark(),
            forall|j: int| 0 <= j < at ==> !mark(#[trigger] whole_body[j]),
        decreases body@.len() - at,
    {
        at += 1;
    }
    proof {
        lemma_first_where(whole_body, mark, at as int);
    }
    let exponent: i128 = if at < body.len() {
        let mut rest = body.split_off(at);
        assert(body@ =~= whole_body.take(at as int));
        let _ = rest.remove(0);
        assert(rest@ =~= whole_body.skip(at + 1));
        match read_exponent(rest) {
            Some(exponent) => exponent,
            None => return None,
        }
    } else {
        assert(body@ =~= whole_body.take(at as int));
        0
    };
    let mantissa = text_of(&body);
    let fields = split(mantissa.as_str(), '.');
    let ghost expected = split_fields(mantissa@, '.');
    assert(fields@.len() == expected.len());
    assert(forall|i: int| 0 <= i < fields@.len() ==> #[trigger] fields@[i]@ == expected[i]);
    if fields.len() > 2 {
        return None;
    }
    let mut figs = chars_of(fields[0].as_str());
    let mut fraction: Vec<char> = if fields.len() == 2 {
        chars_of(fields[1].as_str())
    } else {
        Vec::new()
    };
    let ghost w = figs@;
    let ghost f = fraction@;
    assert(w == expected[0]);
    if !all_figures(&figs) || !all_figures(&fraction) || (figs.len() == 0 && fraction.len() == 0) {
        return None;
    }
    let place: i128 = figs.len() as i128 + exponent + 9;
    figs.append(&mut fraction);
    assert(figs@ =~= w + f);
    assert(figures(figs@)) by {
        assert forall|i: int| 0 <= i < figs@.len() implies is_digit(#[trigger] figs@[i]) by {
            if i < w.len() {
                assert(is_digit(w[i]));
            } else {
                assert(is_digit(f[i - w.len()]));
            }
        }
    }
    let amount = Amount {
        negative,
        billionths: value_up_to(&figs, place),
        exact: is_zero_from(&figs, place),
    };
    proof {
        if exponent == AMOUNT_LIMIT || exponent == -(AMOUNT_LIMIT as int) {
            let true_exponent = exponent_of(whole_body.skip(at + 1))->0;
            let true_place = w.len() + true_exponent + 9;
            if exponent > 0 {
                lemma_far(figs@, place as int, true_place);
            } else {
                lemma_near(figs@, place as int, true_place);
            }
        }
    }
    Some(amount)
}

/// Reads a number as a number of billionths.
pub fn parse_billionths(text: &str) -> (value: Option<i64>)
    ensures
        value == billionths(text@),
{
    match read_amount(text) {
        Some(amount) => {
            let n: i128 = if amount.negative {
                -(amount.billionths as i128)
            } else {
                amount.billionths as i128
            };
            Some(
                if n > i64::MAX as i128 {
                    i64::MAX
                } else if n < i64::MIN as i128 {
                    i64::MIN
                } else {
                    n as i64
                },
            )
        },
        None => None,
    }
}

pub proof fn lemma_number_joins(a: Seq<char>, b: Seq<char>)
    ensures
        number(a + b) == number(a) * ten(b.len()) + number(b),
    decreases b.len(),
{
    if b.len() == 0 {
        assert(a + b =~= a);
        assert(number(b) == 0);
        let t = ten(b.len()) as int;
        let k = number(a) as int;
        assert(k * t == k) by (nonlinear_arith)
            requires
                t == 1,
        ;
    } else {
        let front = b.drop_last();
        lemma_number_joins(a, front);
        assert((a + b).drop_last() =~= a + front);
        let k = number(a) as int;
        let t = ten(front.len()) as int;
        assert(ten(b.len()) == t * 10);
        assert(k * t * 10 == k * (t * 10)) by (nonlinear_arith);
        assert((a + b).last() == b.last());
    }
}

proof fn lemma_zeros_scale(figs: Seq<char>, k: nat)
    ensures
        number(up_to(figs, (figs.len() + k) as int)) == number(figs) * ten(k),
{
    let zeros = Seq::new(k, |i: int| '0');
    assert(up_to(figs, (figs.len() + k) as int) =~= figs + zeros);
    lemma_number_joins(figs, zeros);
    assert(number(zeros.take(0)) == 0);
    lemma_zeros(zeros, 0);
}

proof fn lemma_no_exponent(body: Seq<char>)
    requires
        forall|i: int| 0 <= i < body.len() ==> is_digit(#[trigger] body[i]) || body[i] == '.',
    ensures
        first_where(body, exponent_mark()) == body.len(),
        body.take(body.len() as int) == body,
{
    assert forall|i: int| 0 <= i < body.len() implies !exponent_mark()(#[trigger] body[i]) by {
        assert(is_digit(body[i]) || body[i] == '.');
    }
    lemma_first_where(body, exponent_mark(), body.len() as int);
    assert(body.take(body.len() as int) =~= body);
}

/// Digits with a point among them are the whole number before it and the fraction behind it, exact to
/// nine places; a minus before them makes the number negative, and a plus changes nothing.
pub proof fn decimals_are_read(whole: Seq<char>, fraction: Seq<char>)
    requires
        figures(whole),
        figures(fraction),
        whole.len() > 0,
        fraction.len() <= 9,
        number(whole) * 1_000_000_000 + number(fraction) * ten((9 - fraction.len()) as nat)
            <= AMOUNT_LIMIT,
    ensures
        ({
            let n = number(whole) * 1_000_000_000 + number(fraction) * ten(
                (9 - fraction.len()) as nat,
            );
            let text = whole.push('.') + fraction;
            let read = Amount { negative: false, billionths: n as u128, exact: true };
            &&& amount_of(text) == Some(read)
            &&& amount_of(seq!['+'] + text) == Some(read)
            &&& amount_of(seq!['-'] + text) == Some(Amount { negative: true, ..read })
            &&& fraction.len() == 0 ==> amount_of(whole) == Some(read) && amount_of(
                seq!['-'] + whole,
            ) == Some(Amount { negative: true, ..read })
        }),
{
    let text = whole.push('.') + fraction;
    let all = whole + fraction;
    let k = (9 - fraction.len()) as nat;
    assert(is_digit(whole[0]));
    assert forall|i: int| 0 <= i < text.len() implies is_digit(#[trigger] text[i]) || text[i]
        == '.' by {
        if i < whole.len() {
            assert(is_digit(whole[i]));
        } else if i > whole.len() {
            assert(is_digit(fraction[i - whole.len() - 1]));
        }
    }
    lemma_no_exponent(text);
    assert forall|i: int| 0 <= i < whole.len() implies is_digit(#[trigger] whole[i]) || whole[i]
        == '.' by {}
    lemma_no_exponent(whole);
    assert(!whole.contains('.')) by {
        if whole.contains('.') {
            let i = choose|i: int| 0 <= i < whole.len() && whole[i] == '.';
            assert(is_digit(whole[i]));
        }
    }
    assert(!fraction.contains('.')) by {
        if fraction.contains('.') {
            let i = choose|i: int| 0 <= i < fraction.len() && fraction[i] == '.';
            assert(is_digit(fraction[i]));
        }
    }
    fields_are_split_at_marks(whole, fraction, '.');
    fields_are_split_at_marks(fraction, whole, '.');
    assert(split_fields(text, '.') =~= seq![whole, fraction]);
    lemma_number_joins(whole, fraction);
    lemma_zeros_scale(all, k);
    assert(all.len() + k == whole.len() + 9);
    lemma_tens(fraction.len(), k);
    let w = number(whole) as int;
    let f = number(fraction) as int;
    let p = ten(fraction.len()) as int;
    let q = ten(k) as int;
    assert((w * p + f) * q == w * (p * q) + f * q) by (nonlinear_arith);
    reveal_with_fuel(ten, 10);
    assert(p * q == 1_000_000_000);
    assert((seq!['-'] + text).drop_first() =~= text);
    assert((seq!['+'] + text).drop_first() =~= text);
    assert((seq!['-'] + whole).drop_first() =~= whole);
    if fraction.len() == 0 {
        assert(all =~= whole);
        assert(whole + Seq::<char>::empty() =~= whole);
    }
}

proof fn lemma_tens(a: nat, b: nat)
    ensures
        ten(a) * ten(b) == ten(a + b),
    decreases b,
{
    if b == 0 {
        assert(ten(a) * 1 == ten(a));
    } else {
        lemma_tens(a, (b - 1) as nat);
        let x = ten(a);
        let y = ten((b - 1) as nat);
        assert(x * (y * 10) == x * y * 10) by (nonlinear_arith);
        assert(ten(a + b) == ten((a + b - 1) as nat) * 10);
    }
}

/// An exponent is that many places more.
pub proof fn exponents_move_the_point(whole: Seq<char>, exponent: Seq<char>)
    requires
        figures(whole),
        figures(exponent),
        whole.len() > 0,
        exponent.len() > 0,
        number(whole) * ten(9 + number(exponent)) <= AMOUNT_LIMIT,
    ensures
        amount_of(whole.push('e') + exponent) == Some(
            Amount {
                negative: false,
                billionths: (number(whole) * ten(9 + number(exponent))) as u128,
                exact: true,
            },
        ),
        amount_of(whole.push('E') + exponent) == amount_of(whole.push('e') + exponent),
{
    lemma_exponent(whole, exponent, 'e');
    lemma_exponent(whole, exponent, 'E');
}

proof fn lemma_exponent(whole: Seq<char>, exponent: Seq<char>, mark: char)
    requires
        figures(whole),
        figures(exponent),
        whole.len() > 0,
        exponent.len() > 0,
        mark == 'e' || mark == 'E',
        number(whole) * ten(9 + number(exponent)) <= AMOUNT_LIMIT,
    ensures
        amount_of(whole.push(mark) + exponent) == Some(
            Amount {
                negative: false,
                billionths: (number(whole) * ten(9 + number(exponent))) as u128,
                exact: true,
            },
        ),
{
    let text = whole.push(mark) + exponent;
    let at = whole.len() as int;
    assert(is_digit(whole[0]));
    assert(is_digit(exponent[0]));
    assert forall|i: int| 0 <= i < at implies !exponent_mark()(#[trigger] text[i]) by {
        assert(is_digit(whole[i]));
    }
    lemma_first_where(text, exponent_mark(), at);
    assert(text.skip(at + 1) =~= exponent);
    assert(text.take(at) =~= whole);
    assert(!whole.contains('.')) by {
        if whole.contains('.') {
            let i = choose|i: int| 0 <= i < whole.len() && whole[i] == '.';
            assert(is_digit(whole[i]));
        }
    }
    fields_are_split_at_marks(whole, whole, '.');
    assert(whole + Seq::<char>::empty() =~= whole);
    lemma_zeros_scale(whole, 9 + number(exponent));
}

} // verus!
