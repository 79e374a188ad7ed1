//! Numbers in the broker's replies, which are texts.

use vstd::prelude::*;

use crate::amounts::{
    amount_of, decimals_are_read, figures, read_amount, ten, unsigned_text, AMOUNT_LIMIT,
};
use crate::json::{Json, JsonView};
use crate::text::{
    chars_of, decimal_wide, digits, is_digit, lemma_digits_are_numeric, number, trim, trimmed,
};

verus! {

/// The number, up to 64 bits.
pub open spec fn capped(n: int) -> int {
    if n <= u64::MAX {
        n
    } else {
        u64::MAX as int
    }
}

/// A word in small letters, or in capitals, or in both.
pub open spec fn spells(text: Seq<char>, word: Seq<char>) -> bool {
    &&& text.len() == word.len()
    &&& forall|i: int|
        0 <= i < word.len() ==> #[trigger] text[i] == word[i] || text[i] as int == word[i] as int
            - 32
}

/// Whether a text without its sign is the name of an infinite number.
pub open spec fn endless(body: Seq<char>) -> bool {
    spells(body, "inf"@) || spells(body, "infinity"@)
}

/// Billionths of the number that a text is, if it is one. An infinite number is the most that is
/// counted.
pub open spec fn plain(text: Seq<char>) -> Option<int> {
    if endless(unsigned_text(text)) {
        Some(
            if text[0] == '-' {
                -(AMOUNT_LIMIT as int)
            } else {
                AMOUNT_LIMIT as int
            },
        )
    } else {
        finite(text)
    }
}

/// Billionths of the finite number that a text is, if it is one.
pub open spec fn finite(text: Seq<char>) -> Option<int> {
    match amount_of(text) {
        Some(amount) => Some(amount.value()),
        None => None,
    }
}

fn point_of(ch: char) -> (point: u32)
    ensures
        point == ch as int,
{
    ch as u32
}

fn is_spelled(chars: &[char], word: &str) -> (yes: bool)
    requires
        forall|i: int| 0 <= i < word@.len() ==> 97 <= (#[trigger] word@[i]) as int <= 122,
    ensures
        yes == spells(chars@, word@),
{
    let letters = chars_of(word);
    if chars.len() != letters.len() {
        return false;
    }
    let mut i: usize = 0;
    while i < letters.len()
        invariant
            i <= letters@.len(),
            letters@ == word@,
            chars@.len() == letters@.len(),
            forall|j: int| 0 <= j < word@.len() ==> 97 <= (#[trigger] word@[j]) as int <= 122,
            forall|j: int|
                0 <= j < i ==> #[trigger] chars@[j] == word@[j] || chars@[j] as int
                    == word@[j] as int - 32,
        decreases letters@.len() - i,
    {
        assert(97 <= word@[i as int] as int <= 122);
        let have: u32 = point_of(chars[i]);
        let want: u32 = point_of(letters[i]);
        if have != want && have != want - 32 {
            return false;
        }
        i += 1;
    }
    true
}

/// Reads a finite number.
pub fn read_finite(text: &str) -> (value: Option<i128>)
    ensures
        match value {
            Some(v) => finite(text@) == Some(v as int) && -(AMOUNT_LIMIT as int) <= v
                <= AMOUNT_LIMIT,
            None => finite(text@) is None,
        },
{
    match read_amount(text) {
        Some(amount) => Some(
            if amount.negative {
                -(amount.billionths as i128)
            } else {
                amount.billionths as i128
            },
        ),
        None => None,
    }
}

/// Reads a number.
pub fn read_plain(text: &str) -> (value: Option<i128>)
    ensures
        match value {
            Some(v) => plain(text@) == Some(v as int) && -(AMOUNT_LIMIT as int) <= v <= AMOUNT_LIMIT,
            None => plain(text@) is None,
        },
{
    let mut body = chars_of(text);
    let negative = body.len() > 0 && body[0] == '-';
    if body.len() > 0 && (body[0] == '-' || body[0] == '+') {
        let _ = body.remove(0);
        assert(body@ =~= text@.drop_first());
    }
    assert(body@ == unsigned_text(text@));
    proof {
        reveal_strlit("inf");
        reveal_strlit("infinity");
    }
    if is_spelled(&body, "inf") || is_spelled(&body, "infinity") {
        let limit: i128 = AMOUNT_LIMIT as i128;
        return Some(
            if negative {
                -limit
            } else {
                limit
            },
        );
    }
    read_finite(text)
}

/// Billionths of a field: nothing where it is missing, no text, or no number.
pub open spec fn field_number(value: Option<JsonView>) -> int {
    match value {
        Some(v) => match v.text() {
            Some(text) => match plain(trimmed(text)) {
                Some(n) => n,
                None => 0,
            },
            None => 0,
        },
        None => 0,
    }
}

/// Billionths of a field.
pub fn num_billionths(value: Option<&Json>) -> (n: i128)
    ensures
        n == field_number(match value {
            Some(v) => Some(v@),
            None => None,
        }),
        -(AMOUNT_LIMIT as int) <= n <= AMOUNT_LIMIT,
{
    match value {
        Some(v) => match v.as_str() {
            Some(text) => match read_plain(trim(text).as_str()) {
                Some(n) => n,
                None => 0,
            },
            None => 0,
        },
        None => 0,
    }
}

/// The whole part of a number that is not negative, up to 64 bits.
pub open spec fn whole_of(n: int) -> u64 {
    if n > 0 {
        capped(n / 1_000_000_000) as u64
    } else {
        0
    }
}

/// Ten-thousandths of a number that is not negative, up to 64 bits.
pub open spec fn fine_of(n: int) -> u64 {
    if n > 0 {
        capped(n / 100_000) as u64
    } else {
        0
    }
}

/// Ten-thousandths of a number, with what is left of one cut off.
pub open spec fn signed_fine_of(n: int) -> i128 {
    if n >= 0 {
        (n / 100_000) as i128
    } else {
        (-((-n) / 100_000)) as i128
    }
}

/// Billionths, up to 64 bits either way.
pub open spec fn rate_of(n: int) -> i64 {
    if n > i64::MAX {
        i64::MAX
    } else if n < i64::MIN {
        i64::MIN
    } else {
        n as i64
    }
}

pub fn to_whole(n: i128) -> (value: u64)
    ensures
        value == whole_of(n as int),
{
    if n > 0 {
        let whole: i128 = n / 1_000_000_000;
        if whole <= u64::MAX as i128 {
            whole as u64
        } else {
            u64::MAX
        }
    } else {
        0
    }
}

pub fn to_fine(n: i128) -> (value: u64)
    ensures
        value == fine_of(n as int),
{
    if n > 0 {
        let fine: i128 = n / 100_000;
        if fine <= u64::MAX as i128 {
            fine as u64
        } else {
            u64::MAX
        }
    } else {
        0
    }
}

pub fn to_signed_fine(n: i128) -> (value: i128)
    requires
        n > i128::MIN,
    ensures
        value == signed_fine_of(n as int),
{
    if n >= 0 {
        n / 100_000
    } else {
        -((-n) / 100_000)
    }
}

pub fn to_rate(n: i128) -> (value: i64)
    ensures
        value == rate_of(n as int),
{
    if n > i64::MAX as i128 {
        i64::MAX
    } else if n < i64::MIN as i128 {
        i64::MIN
    } else {
        n as i64
    }
}

/// A field as a whole number that is not negative.
pub fn num_u64(value: Option<&Json>) -> (n: u64)
    ensures
        n == whole_of(
            field_number(
                match value {
                    Some(v) => Some(v@),
                    None => None,
                },
            ),
        ),
{
    to_whole(num_billionths(value))
}

/// The digits of a fraction of billionths, without zeros at the end.
pub open spec fn fraction_digits(part: nat, places: nat) -> Seq<char>
    decreases places,
{
    if places == 0 || part == 0 {
        Seq::empty()
    } else if part % 10 == 0 {
        fraction_digits(part / 10, (places - 1) as nat)
    } else {
        padded(part, places)
    }
}

/// A number in so many digits.
pub open spec fn padded(n: nat, places: nat) -> Seq<char>
    decreases places,
{
    if places == 0 {
        Seq::empty()
    } else {
        padded(n / 10, (places - 1) as nat).push((48 + n % 10) as char)
    }
}

/// A number of billionths in decimal, in the least digits that say it.
pub open spec fn plain_text(n: int) -> Seq<char> {
    let magnitude = if n < 0 {
        -n
    } else {
        n
    };
    let whole = digits((magnitude / 1_000_000_000) as nat);
    let fraction = fraction_digits((magnitude % 1_000_000_000) as nat, 9);
    let body = if fraction.len() == 0 {
        whole
    } else {
        whole.push('.') + fraction
    };
    if n < 0 {
        seq!['-'] + body
    } else {
        body
    }
}

/// Writes a number in so many digits.
pub fn write_padded(n: u64, places: u32) -> (text: String)
    ensures
        text@ == padded(n as nat, places as nat),
    decreases places,
{
    if places == 0 {
        String::new()
    } else {
        let mut text = write_padded(n / 10, places - 1);
        text.push(crate::text::digit_char((n % 10) as u128));
        text
    }
}

fn write_fraction(part: u64, places: u32) -> (text: String)
    ensures
        text@ == fraction_digits(part as nat, places as nat),
    decreases places,
{
    if places == 0 || part == 0 {
        String::new()
    } else if part % 10 == 0 {
        write_fraction(part / 10, places - 1)
    } else {
        write_padded(part, places)
    }
}

/// Writes a number of billionths in decimal.
pub fn write_plain(n: i128) -> (text: String)
    requires
        n > i128::MIN,
    ensures
        text@ == plain_text(n as int),
{
    let magnitude: u128 = if n < 0 {
        (-n) as u128
    } else {
        n as u128
    };
    let mut text = String::new();
    if n < 0 {
        text.push('-');
    }
    assert(text@ =~= if n < 0 {
        seq!['-']
    } else {
        Seq::empty()
    });
    let ghost sign = text@;
    text.append(decimal_wide(magnitude / 1_000_000_000).as_str());
    let fraction = write_fraction((magnitude % 1_000_000_000) as u64, 9);
    if fraction.as_str().unicode_len() > 0 {
        text.push('.');
        text.append(fraction.as_str());
    }
    assert(text@ =~= sign + (if fraction@.len() == 0 {
        digits((magnitude / 1_000_000_000) as nat)
    } else {
        digits((magnitude / 1_000_000_000) as nat).push('.') + fraction@
    }));
    assert(text@ =~= plain_text(n as int));
    text
}

proof fn lemma_padded(n: nat, places: nat)
    requires
        n < ten(places),
    ensures
        figures(padded(n, places)),
        padded(n, places).len() == places,
        number(padded(n, places)) == n,
    decreases places,
{
    if places > 0 {
        assert(n / 10 < ten((places - 1) as nat));
        lemma_padded(n / 10, (places - 1) as nat);
        let front = padded(n / 10, (places - 1) as nat);
        let text = padded(n, places);
        assert(text.drop_last() =~= front);
        assert forall|i: int| 0 <= i < text.len() implies is_digit(#[trigger] text[i]) by {
            if i < front.len() {
                assert(is_digit(front[i]));
            }
        }
    } else {
        assert(number(Seq::<char>::empty()) == 0);
    }
}

proof fn lemma_fraction(part: nat, places: nat)
    requires
        part < ten(places),
    ensures
        figures(fraction_digits(part, places)),
        fraction_digits(part, places).len() <= places,
        number(fraction_digits(part, places)) * ten(
            (places - fraction_digits(part, places).len()) as nat,
        ) == part,
        part > 0 ==> fraction_digits(part, places).len() > 0,
    decreases places,
{
    let said = fraction_digits(part, places);
    if places == 0 || part == 0 {
        assert(number(Seq::<char>::empty()) == 0);
        let t = ten((places - said.len()) as nat) as int;
        assert(0 * t == 0) by (nonlinear_arith);
    } else if part % 10 == 0 {
        lemma_fraction(part / 10, (places - 1) as nat);
        let n = number(said) as int;
        let t = ten((places - 1 - said.len()) as nat) as int;
        assert(ten((places - said.len()) as nat) == t * 10);
        assert(n * (t * 10) == n * t * 10) by (nonlinear_arith);
    } else {
        lemma_padded(part, places);
        let n = number(said) as int;
        let t = ten((places - said.len()) as nat) as int;
        assert(n * t == n) by (nonlinear_arith)
            requires
                t == 1,
        ;
    }
}

/// A number that is written is read back.
pub proof fn written_number_reads_back(n: int)
    requires
        -(AMOUNT_LIMIT as int) <= n <= AMOUNT_LIMIT,
    ensures
        finite(plain_text(n)) == Some(n),
{
    let magnitude = if n < 0 {
        -n
    } else {
        n
    };
    let whole = digits((magnitude / 1_000_000_000) as nat);
    let part = (magnitude % 1_000_000_000) as nat;
    let fraction = fraction_digits(part, 9);
    reveal_with_fuel(ten, 10);
    lemma_fraction(part, 9);
    lemma_digits_are_numeric((magnitude / 1_000_000_000) as nat);
    decimals_are_read(whole, fraction);
}

/// A whole number is what is left of a number without its fraction, none where it is not positive, and
/// at most what 64 bits hold; ten-thousandths are counted alike.
pub proof fn fractions_are_cut_off(n: int)
    ensures
        n <= 0 ==> whole_of(n) == 0 && fine_of(n) == 0,
        0 < n < 1_000_000_000 * (u64::MAX + 1) ==> whole_of(n) * 1_000_000_000 <= n < (whole_of(n)
            + 1) * 1_000_000_000,
        n >= 1_000_000_000 * (u64::MAX + 1) ==> whole_of(n) == u64::MAX,
        0 < n < 100_000 * (u64::MAX + 1) ==> fine_of(n) * 100_000 <= n < (fine_of(n) + 1) * 100_000,
        n >= 100_000 * (u64::MAX + 1) ==> fine_of(n) == u64::MAX,
        0 <= n <= AMOUNT_LIMIT ==> signed_fine_of(n) * 100_000 <= n < (signed_fine_of(n) + 1)
            * 100_000,
        -(AMOUNT_LIMIT as int) <= n <= 0 ==> signed_fine_of(n) == -signed_fine_of(-n),
        i64::MIN <= n <= i64::MAX ==> rate_of(n) == n,
        n > i64::MAX ==> rate_of(n) == i64::MAX,
        n < i64::MIN ==> rate_of(n) == i64::MIN,
{
}

/// A field that is no text, or no number, counts as zero, and white space around a number does not
/// matter.
pub proof fn unreadable_fields_are_zero(value: Option<JsonView>)
    ensures
        value is None ==> field_number(value) == 0,
        value matches Some(v) ==> (v !is Text ==> field_number(value) == 0),
        value matches Some(JsonView::Text(text)) ==> match finite(trimmed(text)) {
            Some(n) => !endless(unsigned_text(trimmed(text))) ==> field_number(value) == n,
            None => !endless(unsigned_text(trimmed(text))) ==> field_number(value) == 0,
        },
{
}

} // verus!
