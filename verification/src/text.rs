//! Text operations that the wire formats and messages need.

use vstd::prelude::*;

verus! {

/// `String::push` appends one character.
pub assume_specification[ String::push ](text: &mut String, ch: char)
    ensures
        final(text)@ == old(text)@.push(ch),
;

/// The characters of a text.
pub fn chars_of(text: &str) -> (chars: Vec<char>)
    ensures
        chars@ == text@,
{
    let mut chars: Vec<char> = Vec::new();
    for ch in iter: text.chars()
        invariant
            chars@ == text@.take(iter.index() as int),
            iter.seq() == text@,
    {
        chars.push(ch);
    }
    chars
}

/// The text of some characters.
pub fn text_of(chars: &[char]) -> (text: String)
    ensures
        text@ == chars@,
{
    let mut text = String::new();
    let mut i: usize = 0;
    while i < chars.len()
        invariant
            i <= chars@.len(),
            text@ == chars@.take(i as int),
        decreases chars@.len() - i,
    {
        text.push(chars[i]);
        i += 1;
        assert(chars@.take(i as int) =~= chars@.take(i - 1).push(chars@[i - 1]));
    }
    assert(chars@.take(i as int) =~= chars@);
    text
}

/// Whether two texts are the same.
pub fn same(a: &str, b: &str) -> (yes: bool)
    ensures
        yes == (a@ == b@),
{
    a.to_owned() == b.to_owned()
}

/// Whether an optional text is the given one.
pub fn is_text(a: &Option<String>, b: &str) -> (yes: bool)
    ensures
        yes == (a is Some && a->0@ == b@),
{
    match a {
        Some(a) => same(a.as_str(), b),
        None => false,
    }
}

/// The text of an optional string.
pub open spec fn opt(a: Option<String>) -> Option<Seq<char>> {
    match a {
        Some(a) => Some(a@),
        None => None,
    }
}

/// A copy of an optional text.
pub fn copy_text(a: &Option<String>) -> (copy: Option<String>)
    ensures
        copy == *a,
{
    match a {
        Some(a) => Some(a.clone()),
        None => None,
    }
}

/// The text of two parts, one after the other.
pub fn joined(a: &str, b: &str) -> (text: String)
    ensures
        text@ == a@ + b@,
{
    let mut text = a.to_owned();
    text.append(b);
    text
}

/// Unicode's white space.
pub open spec fn white(ch: char) -> bool {
    let c = ch as u32;
    ||| 0x9 <= c <= 0xd
    ||| c == 0x20
    ||| c == 0x85
    ||| c == 0xa0
    ||| c == 0x1680
    ||| 0x2000 <= c <= 0x200a
    ||| c == 0x2028
    ||| c == 0x2029
    ||| c == 0x202f
    ||| c == 0x205f
    ||| c == 0x3000
}

pub fn is_white(ch: char) -> (yes: bool)
    ensures
        yes == white(ch),
{
    let c: u32 = ch as u32;
    (0x9 <= c && c <= 0xd) || c == 0x20 || c == 0x85 || c == 0xa0 || c == 0x1680 || (0x2000 <= c
        && c <= 0x200a) || c == 0x2028 || c == 0x2029 || c == 0x202f || c == 0x205f || c == 0x3000
}

/// Nothing but white space.
pub open spec fn blank(text: Seq<char>) -> bool {
    forall|i: int| 0 <= i < text.len() ==> white(#[trigger] text[i])
}

/// Whether a text is empty but for white space.
pub fn is_blank(text: &str) -> (yes: bool)
    ensures
        yes == blank(text@),
{
    let chars = chars_of(text);
    let mut i: usize = 0;
    while i < chars.len()
        invariant
            i <= chars@.len(),
            chars@ == text@,
            forall|j: int| 0 <= j < i ==> white(#[trigger] text@[j]),
        decreases chars@.len() - i,
    {
        if !is_white(chars[i]) {
            assert(!white(text@[i as int]));
            return false;
        }
        i += 1;
    }
    true
}

/// The text without white space at its start.
pub open spec fn trimmed_start(text: Seq<char>) -> Seq<char>
    decreases text.len(),
{
    if text.len() > 0 && white(text[0]) {
        trimmed_start(text.drop_first())
    } else {
        text
    }
}

/// The text without white space at its end.
pub open spec fn trimmed_end(text: Seq<char>) -> Seq<char>
    decreases text.len(),
{
    if text.len() > 0 && white(text.last()) {
        trimmed_end(text.drop_last())
    } else {
        text
    }
}

/// The text without white space at either end.
pub open spec fn trimmed(text: Seq<char>) -> Seq<char> {
    trimmed_end(trimmed_start(text))
}

/// Cuts white space off both ends.
pub fn trim(text: &str) -> (inner: String)
    ensures
        inner@ == trimmed(text@),
{
    let chars = chars_of(text);
    let mut from: usize = 0;
    let n: usize = chars.len();
    assert(text@.skip(0) =~= text@);
    while from < n && is_white(chars[from])
        invariant
            n == chars@.len(),
            from <= n,
            chars@ == text@,
            trimmed_start(text@) == trimmed_start(text@.skip(from as int)),
        decreases n - from,
    {
        assert(text@.skip(from as int).drop_first() =~= text@.skip(from + 1));
        from += 1;
    }
    assert(trimmed_start(text@) == text@.skip(from as int));
    let mut to: usize = n;
    assert(text@.skip(from as int) =~= text@.subrange(from as int, to as int));
    while to > from && is_white(chars[to - 1])
        invariant
            n == chars@.len(),
            from <= to <= n,
            chars@ == text@,
            trimmed(text@) == trimmed_end(text@.subrange(from as int, to as int)),
        decreases to - from,
    {
        assert(text@.subrange(from as int, to as int).drop_last() =~= text@.subrange(
            from as int,
            to - 1,
        ));
        to -= 1;
    }
    assert(trimmed(text@) == text@.subrange(from as int, to as int));
    let mut inner = String::new();
    let mut i: usize = from;
    while i < to
        invariant
            from <= i <= to <= n,
            n == chars@.len(),
            chars@ == text@,
            inner@ == text@.subrange(from as int, i as int),
        decreases to - i,
    {
        inner.push(chars[i]);
        i += 1;
        assert(text@.subrange(from as int, i as int) =~= text@.subrange(from as int, i - 1).push(
            text@[i - 1],
        ));
    }
    inner
}

/// `part` occurs in `text` from position `at` on.
pub open spec fn occurs_at(text: Seq<char>, part: Seq<char>, at: int) -> bool {
    0 <= at && at + part.len() <= text.len() && text.subrange(at, at + part.len()) == part
}

/// `part` occurs somewhere in `text`.
pub open spec fn contains(text: Seq<char>, part: Seq<char>) -> bool {
    exists|at: int| occurs_at(text, part, at)
}

fn matches_at(text: &[char], part: &[char], at: usize) -> (yes: bool)
    requires
        at + part@.len() <= text@.len(),
    ensures
        yes == occurs_at(text@, part@, at as int),
{
    let n: usize = text.len();
    let mut i: usize = 0;
    while i < part.len()
        invariant
            i <= part@.len(),
            n == text@.len(),
            at + part@.len() <= n,
            forall|j: int| 0 <= j < i ==> #[trigger] part@[j] == text@[at + j],
        decreases part@.len() - i,
    {
        if text[at + i] != part[i] {
            assert(text@.subrange(at as int, at + part@.len())[i as int] != part@[i as int]);
            return false;
        }
        i += 1;
    }
    assert(text@.subrange(at as int, at + part@.len()) =~= part@);
    true
}

/// Whether one text occurs in another.
pub fn has_part(text: &str, part: &str) -> (yes: bool)
    ensures
        yes == contains(text@, part@),
{
    let text_chars = chars_of(text);
    let part_chars = chars_of(part);
    let n: usize = text_chars.len();
    let m: usize = part_chars.len();
    if m > n {
        return false;
    }
    let mut at: usize = 0;
    while at <= n - m
        invariant
            n == text@.len(),
            m == part@.len(),
            m <= n,
            at <= n - m + 1,
            text_chars@ == text@,
            part_chars@ == part@,
            forall|k: int| 0 <= k < at ==> !occurs_at(text@, part@, k),
        decreases n - m + 1 - at,
    {
        if matches_at(&text_chars, &part_chars, at) {
            return true;
        }
        if at == n - m {
            assert forall|k: int| !occurs_at(text@, part@, k) by {
                if k == at {
                }
            }
            return false;
        }
        at += 1;
    }
    false
}

/// Whether a text begins with another.
pub fn has_prefix(text: &str, part: &str) -> (yes: bool)
    ensures
        yes == occurs_at(text@, part@, 0),
{
    let text_chars = chars_of(text);
    let part_chars = chars_of(part);
    if part_chars.len() > text_chars.len() {
        return false;
    }
    matches_at(&text_chars, &part_chars, 0)
}

/// The characters that are not white space, in order.
pub open spec fn solid(text: Seq<char>) -> Seq<char>
    decreases text.len(),
{
    if text.len() == 0 {
        text
    } else if white(text.last()) {
        solid(text.drop_last())
    } else {
        solid(text.drop_last()).push(text.last())
    }
}

/// Removes all white space.
pub fn without_white(text: &str) -> (result: String)
    ensures
        result@ == solid(text@),
{
    let chars = chars_of(text);
    let mut result = String::new();
    let mut i: usize = 0;
    assert(text@.take(0) =~= Seq::empty());
    while i < chars.len()
        invariant
            i <= chars@.len(),
            chars@ == text@,
            result@ == solid(text@.take(i as int)),
        decreases chars@.len() - i,
    {
        assert(text@.take(i + 1).drop_last() =~= text@.take(i as int));
        if !is_white(chars[i]) {
            result.push(chars[i]);
        }
        i += 1;
    }
    assert(text@.take(i as int) =~= text@);
    result
}

/// The first `count` characters of a text, or all of a shorter one.
pub fn take_chars(text: &str, count: usize) -> (head: String)
    ensures
        head@ == (if text@.len() <= count {
            text@
        } else {
            text@.take(count as int)
        }),
{
    if text.unicode_len() <= count {
        return text.to_owned();
    }
    text.substring_char(0, count).to_owned()
}

/// The fields of a text that `mark` separates: one more than there are marks.
pub open spec fn split_fields(text: Seq<char>, mark: char) -> Seq<Seq<char>>
    decreases text.len(),
{
    if text.len() == 0 {
        seq![Seq::empty()]
    } else {
        let rest = split_fields(text.drop_last(), mark);
        if text.last() == mark {
            rest.push(Seq::empty())
        } else {
            rest.update(rest.len() - 1, rest.last().push(text.last()))
        }
    }
}

pub proof fn lemma_split_has_a_field(text: Seq<char>, mark: char)
    ensures
        split_fields(text, mark).len() >= 1,
    decreases text.len(),
{
    if text.len() > 0 {
        lemma_split_has_a_field(text.drop_last(), mark);
    }
}

/// The texts of some strings.
pub open spec fn views(texts: Seq<String>) -> Seq<Seq<char>> {
    texts.map_values(|s: String| s@)
}

/// Splits a text at every mark.
pub fn split(text: &str, mark: char) -> (fields: Vec<String>)
    ensures
        views(fields@) == split_fields(text@, mark),
        fields@.len() >= 1,
{
    let chars = chars_of(text);
    let mut fields: Vec<String> = Vec::new();
    let mut field = String::new();
    let mut i: usize = 0;
    assert(text@.take(0) =~= Seq::empty());
    assert(views(fields@).push(field@) =~= split_fields(text@.take(0), mark));
    while i < chars.len()
        invariant
            i <= chars@.len(),
            chars@ == text@,
            views(fields@).push(field@) == split_fields(text@.take(i as int), mark),
        decreases chars@.len() - i,
    {
        assert(text@.take(i + 1).drop_last() =~= text@.take(i as int));
        let ghost before = views(fields@).push(field@);
        if chars[i] == mark {
            let ghost done = field@;
            let ghost texts = views(fields@);
            fields.push(field);
            field = String::new();
            assert(views(fields@) =~= texts.push(done));
            assert(views(fields@).push(field@) =~= before.push(Seq::empty()));
        } else {
            field.push(chars[i]);
            assert(views(fields@).push(field@) =~= before.update(
                before.len() - 1,
                before.last().push(chars@[i as int]),
            ));
        }
        i += 1;
    }
    assert(text@.take(i as int) =~= text@);
    let ghost last = field@;
    let ghost texts = views(fields@);
    fields.push(field);
    assert(views(fields@) =~= texts.push(last));
    fields
}

/// Decimal digits of a number.
pub open spec fn digits(n: nat) -> Seq<char>
    decreases n,
{
    if n < 10 {
        seq![digit(n)]
    } else {
        digits(n / 10).push(digit(n % 10))
    }
}

/// The digit for a number below ten.
pub open spec fn digit(n: nat) -> char {
    (48 + n) as char
}

/// The digit for a number below ten.
pub fn digit_char(n: u128) -> (ch: char)
    requires
        n < 10,
    ensures
        ch == digit(n as nat),
{
    match n {
        0 => '0',
        1 => '1',
        2 => '2',
        3 => '3',
        4 => '4',
        5 => '5',
        6 => '6',
        7 => '7',
        8 => '8',
        _ => '9',
    }
}

/// Writes a number in decimal.
pub fn decimal_wide(n: u128) -> (text: String)
    ensures
        text@ == digits(n as nat),
    decreases n,
{
    if n < 10 {
        let mut text = String::new();
        text.push(digit_char(n));
        assert(text@ =~= digits(n as nat));
        text
    } else {
        let mut text = decimal_wide(n / 10);
        text.push(digit_char(n % 10));
        text
    }
}

/// Writes a number in decimal.
pub fn decimal(n: u64) -> (text: String)
    ensures
        text@ == digits(n as nat),
{
    decimal_wide(n as u128)
}

pub open spec fn is_digit(ch: char) -> bool {
    '0' <= ch <= '9'
}

/// Nothing but digits, and at least one.
pub open spec fn numeric(text: Seq<char>) -> bool {
    text.len() > 0 && forall|i: int| 0 <= i < text.len() ==> is_digit(#[trigger] text[i])
}

/// The number that digits stand for.
pub open spec fn number(text: Seq<char>) -> nat
    decreases text.len(),
{
    if text.len() == 0 {
        0
    } else {
        number(text.drop_last()) * 10 + (text.last() as nat - 48) as nat
    }
}

pub proof fn lemma_number_grows(text: Seq<char>, i: int)
    requires
        0 <= i <= text.len(),
        forall|j: int| 0 <= j < text.len() ==> is_digit(#[trigger] text[j]),
    ensures
        number(text.take(i)) <= number(text),
    decreases text.len() - i,
{
    if i < text.len() {
        lemma_number_grows(text, i + 1);
        assert(text.take(i + 1).drop_last() =~= text.take(i));
    } else {
        assert(text.take(i) =~= text);
    }
}

/// The number of some digits, where it fits.
pub fn digits_value(chars: &[char]) -> (value: Option<u64>)
    ensures
        match value {
            Some(v) => numeric(chars@) && v == number(chars@),
            None => !numeric(chars@) || number(chars@) > u64::MAX,
        },
{
    if chars.len() == 0 {
        return None;
    }
    let mut value: u64 = 0;
    let mut fits = true;
    let mut i: usize = 0;
    while i < chars.len()
        invariant
            i <= chars@.len(),
            forall|j: int| 0 <= j < i ==> is_digit(#[trigger] chars@[j]),
            fits ==> value == number(chars@.take(i as int)),
            !fits ==> number(chars@.take(i as int)) > u64::MAX,
        decreases chars@.len() - i,
    {
        let ch = chars[i];
        if ch < '0' || ch > '9' {
            assert(!is_digit(chars@[i as int]));
            return None;
        }
        assert(chars@.take(i + 1).drop_last() =~= chars@.take(i as int));
        let d: u64 = (ch as u32 - 48) as u64;
        if fits {
            match value.checked_mul(10) {
                None => {
                    fits = false;
                },
                Some(tens) => match tens.checked_add(d) {
                    None => {
                        fits = false;
                    },
                    Some(sum) => {
                        value = sum;
                    },
                },
            }
        }
        i += 1;
    }
    assert(chars@.take(i as int) =~= chars@);
    if fits {
        Some(value)
    } else {
        None
    }
}

/// The text of a number that an unsigned integer is read from: digits, with or without a plus sign.
pub open spec fn unsigned_part(text: Seq<char>) -> Seq<char> {
    if text.len() > 0 && text[0] == '+' {
        text.drop_first()
    } else {
        text
    }
}

/// The unsigned integer that a text is, if it is one that fits.
pub open spec fn parsed_u64(text: Seq<char>) -> Option<u64> {
    let part = unsigned_part(text);
    if numeric(part) && number(part) <= u64::MAX {
        Some(number(part) as u64)
    } else {
        None
    }
}

/// Reads an unsigned integer.
pub fn parse_u64(text: &str) -> (value: Option<u64>)
    ensures
        value == parsed_u64(text@),
{
    let mut chars = chars_of(text);
    if chars.len() > 0 && chars[0] == '+' {
        let _ = chars.remove(0);
        assert(chars@ =~= text@.drop_first());
    }
    digits_value(&chars)
}

pub proof fn lemma_digits_are_numeric(n: nat)
    ensures
        numeric(digits(n)),
        number(digits(n)) == n,
    decreases n,
{
    if n >= 10 {
        lemma_digits_are_numeric(n / 10);
        assert(digits(n).drop_last() =~= digits(n / 10));
    } else {
        assert(digits(n).drop_last() =~= Seq::empty());
        assert(number(Seq::<char>::empty()) == 0);
    }
}

/// What is written in decimal reads back as the same number.
pub proof fn decimal_reads_back(n: u64)
    ensures
        parsed_u64(digits(n as nat)) == Some(n),
{
    lemma_digits_are_numeric(n as nat);
    assert(is_digit(digits(n as nat)[0]));
}

/// Whether characters are all digits, and there is one.
pub fn all_digits(chars: &[char]) -> (yes: bool)
    ensures
        yes == numeric(chars@),
{
    let mut i: usize = 0;
    while i < chars.len()
        invariant
            i <= chars@.len(),
            forall|j: int| 0 <= j < i ==> is_digit(#[trigger] chars@[j]),
        decreases chars@.len() - i,
    {
        if chars[i] < '0' || chars[i] > '9' {
            assert(!is_digit(chars@[i as int]));
            return false;
        }
        i += 1;
    }
    chars.len() > 0
}

/// Decimal text of a signed number.
pub open spec fn signed_digits(n: int) -> Seq<char> {
    if n < 0 {
        seq!['-'] + digits((-n) as nat)
    } else {
        digits(n as nat)
    }
}

/// Writes a signed number in decimal.
pub fn signed_decimal(n: i64) -> (text: String)
    ensures
        text@ == signed_digits(n as int),
{
    if n >= 0 {
        return decimal(n as u64);
    }
    let magnitude: u64 = if n == i64::MIN {
        0x8000_0000_0000_0000
    } else {
        (-n) as u64
    };
    let mut text = String::new();
    text.push('-');
    assert(text@ =~= seq!['-']);
    text.append(decimal(magnitude).as_str());
    text
}

/// Whether a text comes before another, by the code points of their first difference.
pub open spec fn precedes(a: Seq<char>, b: Seq<char>) -> bool
    decreases a.len(),
{
    if b.len() == 0 {
        false
    } else if a.len() == 0 {
        true
    } else if a[0] == b[0] {
        precedes(a.drop_first(), b.drop_first())
    } else {
        (a[0] as int) < (b[0] as int)
    }
}

/// Two texts that are not the same have an order.
pub proof fn lemma_precedes_total(a: Seq<char>, b: Seq<char>)
    ensures
        a == b || precedes(a, b) || precedes(b, a),
        !(precedes(a, b) && precedes(b, a)),
        !precedes(a, a),
    decreases a.len(),
{
    if a.len() > 0 && b.len() > 0 {
        lemma_precedes_total(a.drop_first(), b.drop_first());
        if a[0] == b[0] && a.drop_first() == b.drop_first() {
            assert(a =~= seq![a[0]] + a.drop_first());
            assert(b =~= seq![b[0]] + b.drop_first());
            assert(a == b);
        }
    } else if a.len() == 0 && b.len() == 0 {
        assert(a =~= b);
    }
    if a.len() > 0 {
        lemma_precedes_total(a.drop_first(), a.drop_first());
    }
}

/// The order of texts carries over.
pub proof fn lemma_precedes_transitive(a: Seq<char>, b: Seq<char>, c: Seq<char>)
    requires
        precedes(a, b),
        precedes(b, c),
    ensures
        precedes(a, c),
    decreases a.len(),
{
    if a.len() > 0 && b.len() > 0 && c.len() > 0 && a[0] == b[0] && b[0] == c[0] {
        lemma_precedes_transitive(a.drop_first(), b.drop_first(), c.drop_first());
    }
}

/// Whether a text comes before another.
pub fn comes_before(a: &str, b: &str) -> (yes: bool)
    ensures
        yes == precedes(a@, b@),
{
    let a_chars = chars_of(a);
    let b_chars = chars_of(b);
    let mut i: usize = 0;
    assert(a@.skip(0) =~= a@ && b@.skip(0) =~= b@);
    while i < a_chars.len() && i < b_chars.len() && a_chars[i] == b_chars[i]
        invariant
            i <= a_chars@.len(),
            i <= b_chars@.len(),
            a_chars@ == a@,
            b_chars@ == b@,
            precedes(a@, b@) == precedes(a@.skip(i as int), b@.skip(i as int)),
        decreases a_chars@.len() - i,
    {
        i += 1;
        assert(a@.skip(i - 1).drop_first() =~= a@.skip(i as int));
        assert(b@.skip(i - 1).drop_first() =~= b@.skip(i as int));
    }
    if i >= b_chars.len() {
        false
    } else if i >= a_chars.len() {
        true
    } else {
        lower(a_chars[i], b_chars[i])
    }
}

fn lower(a: char, b: char) -> (yes: bool)
    ensures
        yes == ((a as int) < (b as int)),
{
    (a as u32) < (b as u32)
}

/// Texts in order, none twice.
pub open spec fn in_order(texts: Seq<Seq<char>>) -> bool {
    forall|i: int, j: int|
        #![trigger texts[i], texts[j]]
        0 <= i < j < texts.len() ==> precedes(texts[i], texts[j])
}

/// Adds a text to others that are in order, unless it is among them.
pub fn insert_in_order(texts: &mut Vec<String>, text: &str)
    requires
        in_order(views(old(texts)@)),
    ensures
        in_order(views(final(texts)@)),
        forall|t: Seq<char>|
            #[trigger] views(final(texts)@).contains(t) <==> (t == text@ || views(
                old(texts)@,
            ).contains(t)),
{
    let ghost before = views(texts@);
    let mut i: usize = 0;
    while i < texts.len() && comes_before(texts[i].as_str(), text)
        invariant
            i <= texts@.len(),
            before == views(texts@),
            forall|k: int| 0 <= k < i ==> precedes(#[trigger] before[k], text@),
        decreases texts@.len() - i,
    {
        assert(before[i as int] == texts@[i as int]@);
        i += 1;
    }
    if i < texts.len() && same(texts[i].as_str(), text) {
        assert(before[i as int] == text@);
        return;
    }
    texts.insert(i, text.to_owned());
    let ghost after = views(texts@);
    proof {
        assert(after =~= before.insert(i as int, text@));
        if i < before.len() {
            lemma_precedes_total(before[i as int], text@);
            assert(precedes(text@, before[i as int]));
        }
        assert forall|a: int, b: int|
            #![trigger after[a], after[b]]
            0 <= a < b < after.len() implies precedes(after[a], after[b]) by {
            if a < i && b < i {
                assert(precedes(before[a], before[b]));
            } else if a < i && b == i {
                assert(precedes(before[a], text@));
            } else if a < i {
                assert(precedes(before[a], before[b - 1]));
            } else if a == i {
                if b - 1 > i {
                    assert(precedes(before[i as int], before[b - 1]));
                    lemma_precedes_transitive(text@, before[i as int], before[b - 1]);
                }
            } else {
                assert(precedes(before[a - 1], before[b - 1]));
            }
        }
        assert forall|t: Seq<char>| #[trigger] after.contains(t) <==> (t == text@
            || before.contains(t)) by {
            if before.contains(t) {
                let k = choose|k: int| 0 <= k < before.len() && before[k] == t;
                assert(after[if k < i { k } else { k + 1 }] == t);
            }
            if t == text@ {
                assert(after[i as int] == t);
            }
            if after.contains(t) && t != text@ {
                let k = choose|k: int| 0 <= k < after.len() && after[k] == t;
                assert(before[if k < i { k } else { k - 1 }] == t);
            }
        }
    }
}

/// Fields with a mark between each two.
pub open spec fn joined_fields(fields: Seq<Seq<char>>, mark: char) -> Seq<char>
    decreases fields.len(),
{
    if fields.len() == 0 {
        Seq::empty()
    } else if fields.len() == 1 {
        fields[0]
    } else {
        joined_fields(fields.drop_last(), mark).push(mark) + fields.last()
    }
}

/// A text that is split comes back when its fields are joined, and no field holds the mark.
pub proof fn split_fields_join_again(text: Seq<char>, mark: char)
    ensures
        joined_fields(split_fields(text, mark), mark) == text,
        forall|i: int|
            0 <= i < split_fields(text, mark).len() ==> !(#[trigger] split_fields(
                text,
                mark,
            )[i]).contains(mark),
    decreases text.len(),
{
    let fields = split_fields(text, mark);
    if text.len() == 0 {
        assert(fields[0] =~= text);
        assert(!Seq::<char>::empty().contains(mark));
    } else {
        let front = text.drop_last();
        let rest = split_fields(front, mark);
        split_fields_join_again(front, mark);
        lemma_split_has_a_field(front, mark);
        assert(text =~= front.push(text.last()));
        if text.last() == mark {
            assert(fields.drop_last() =~= rest);
            assert(joined_fields(fields, mark) =~= front.push(mark));
            assert(!Seq::<char>::empty().contains(mark));
        } else {
            let last = rest.last().push(text.last());
            assert(fields.drop_last() =~= rest.drop_last());
            if rest.len() == 1 {
                assert(joined_fields(fields, mark) =~= text);
            } else {
                assert(joined_fields(fields, mark) =~= joined_fields(rest, mark).push(text.last()));
            }
            assert(!last.contains(mark)) by {
                if last.contains(mark) {
                    let k = choose|k: int| 0 <= k < last.len() && last[k] == mark;
                    assert(rest[rest.len() - 1].contains(mark)) by {
                        assert(rest[rest.len() - 1][k] == mark);
                    }
                }
            }
        }
        assert forall|i: int| 0 <= i < fields.len() implies !(#[trigger] fields[i]).contains(
            mark,
        ) by {
            if i < rest.len() - 1 {
                assert(fields[i] == rest[i]);
            } else if i < rest.len() && text.last() == mark {
                assert(fields[i] == rest[i]);
            }
        }
    }
}

/// A text has one field more than it has marks.
pub proof fn fields_are_split_at_marks(a: Seq<char>, b: Seq<char>, mark: char)
    ensures
        split_fields(a.push(mark) + b, mark) == split_fields(a, mark) + split_fields(b, mark),
        !a.contains(mark) ==> split_fields(a, mark) == seq![a],
    decreases b.len(),
{
    let text = a.push(mark) + b;
    if b.len() == 0 {
        assert(text =~= a.push(mark));
        assert(text.drop_last() =~= a);
        assert(b =~= Seq::empty());
        assert(split_fields(text, mark) =~= split_fields(a, mark) + split_fields(b, mark));
    } else {
        let front = b.drop_last();
        fields_are_split_at_marks(a, front, mark);
        lemma_split_has_a_field(front, mark);
        assert(text.drop_last() =~= a.push(mark) + front);
        assert(split_fields(text, mark) =~= split_fields(a, mark) + split_fields(b, mark));
    }
    if !a.contains(mark) {
        lemma_unmarked(a, mark);
    }
}

proof fn lemma_unmarked(a: Seq<char>, mark: char)
    requires
        !a.contains(mark),
    ensures
        split_fields(a, mark) == seq![a],
    decreases a.len(),
{
    if a.len() == 0 {
        assert(a =~= Seq::empty());
    } else {
        let front = a.drop_last();
        assert(!front.contains(mark)) by {
            if front.contains(mark) {
                let k = choose|k: int| 0 <= k < front.len() && front[k] == mark;
                assert(a[k] == mark);
            }
        }
        lemma_unmarked(front, mark);
        assert(a[a.len() - 1] != mark);
        assert(front.push(a.last()) =~= a);
        assert(split_fields(a, mark) =~= seq![a]);
    }
}

/// Cutting white space off a text leaves a part of it that neither begins nor ends with white space,
/// and what is cut off is white space.
pub proof fn trimming_cuts_white_ends(text: Seq<char>) -> (from: int)
    ensures
        0 <= from,
        from + trimmed(text).len() <= text.len(),
        trimmed(text) == text.subrange(from, from + trimmed(text).len()),
        forall|i: int| 0 <= i < from ==> white(#[trigger] text[i]),
        forall|i: int| from + trimmed(text).len() <= i < text.len() ==> white(#[trigger] text[i]),
        trimmed(text).len() > 0 ==> !white(trimmed(text)[0]) && !white(trimmed(text).last()),
{
    let from = lemma_trimmed_start(text);
    let inner = trimmed_start(text);
    lemma_trimmed_end(inner);
    assert forall|i: int| from + trimmed(text).len() <= i < text.len() implies white(
        #[trigger] text[i],
    ) by {
        assert(inner[i - from] == text[i]);
    }
    from
}

proof fn lemma_trimmed_start(text: Seq<char>) -> (from: int)
    ensures
        0 <= from <= text.len(),
        trimmed_start(text) == text.skip(from),
        forall|i: int| 0 <= i < from ==> white(#[trigger] text[i]),
        from < text.len() ==> !white(text[from]),
    decreases text.len(),
{
    if text.len() > 0 && white(text[0]) {
        let rest = text.drop_first();
        let k = lemma_trimmed_start(rest);
        assert(rest.skip(k) =~= text.skip(k + 1));
        assert forall|i: int| 0 <= i < k + 1 implies white(#[trigger] text[i]) by {
            if i > 0 {
                assert(rest[i - 1] == text[i]);
            }
        }
        k + 1
    } else {
        assert(text.skip(0) =~= text);
        0
    }
}

proof fn lemma_trimmed_end(text: Seq<char>)
    ensures
        trimmed_end(text).len() <= text.len(),
        trimmed_end(text) == text.take(trimmed_end(text).len() as int),
        forall|i: int| trimmed_end(text).len() <= i < text.len() ==> white(#[trigger] text[i]),
        trimmed_end(text).len() > 0 ==> !white(trimmed_end(text).last()),
    decreases text.len(),
{
    if text.len() > 0 && white(text.last()) {
        let front = text.drop_last();
        lemma_trimmed_end(front);
        let n = trimmed_end(text).len() as int;
        assert(front.take(n) =~= text.take(n));
        assert forall|i: int| n <= i < text.len() implies white(#[trigger] text[i]) by {
            if i < front.len() {
                assert(front[i] == text[i]);
            }
        }
    } else {
        assert(text.take(text.len() as int) =~= text);
    }
}

/// Without its white space a text keeps all its other characters, in their order.
pub proof fn only_white_space_is_removed(a: Seq<char>, b: Seq<char>)
    ensures
        solid(a + b) == solid(a) + solid(b),
        blank(b) ==> solid(b).len() == 0,
        (forall|i: int| 0 <= i < b.len() ==> !white(#[trigger] b[i])) ==> solid(b) == b,
    decreases b.len(),
{
    if b.len() == 0 {
        assert(a + b =~= a);
        assert(solid(a + b) =~= solid(a) + solid(b));
    } else {
        let front = b.drop_last();
        only_white_space_is_removed(a, front);
        assert((a + b).drop_last() =~= a + front);
        assert(solid(a + b) =~= solid(a) + solid(b));
        if blank(b) {
            assert forall|i: int| 0 <= i < front.len() implies white(#[trigger] front[i]) by {
                assert(white(b[i]));
            }
            assert(white(b[b.len() - 1]));
        }
        if forall|i: int| 0 <= i < b.len() ==> !white(#[trigger] b[i]) {
            assert forall|i: int| 0 <= i < front.len() implies !white(#[trigger] front[i]) by {
                assert(!white(b[i]));
            }
            assert(!white(b[b.len() - 1]));
            assert(solid(b) =~= b);
        }
    }
}

/// A digit more at the end is ten times the number and the digit.
pub proof fn numbers_are_decimal(text: Seq<char>, d: nat)
    requires
        d < 10,
    ensures
        number(text.push((48 + d) as char)) == 10 * number(text) + d,
        number(Seq::empty()) == 0,
        is_digit((48 + d) as char),
{
    assert(text.push((48 + d) as char).drop_last() =~= text);
}

/// An unsigned number is read from digits alone, with at most a plus sign before them.
pub proof fn unsigned_numbers_are_digits(text: Seq<char>)
    ensures
        numeric(text) && number(text) <= u64::MAX ==> parsed_u64(text) == Some(number(text) as u64)
            && parsed_u64(seq!['+'] + text) == Some(number(text) as u64),
        numeric(text) && number(text) > u64::MAX ==> parsed_u64(text) is None && parsed_u64(
            seq!['+'] + text,
        ) is None,
        parsed_u64(text) is Some && !numeric(text) ==> text[0] == '+' && numeric(text.skip(1)),
{
    assert((seq!['+'] + text).drop_first() =~= text);
    if text.len() > 0 {
        assert(text.skip(1) =~= text.drop_first());
        assert(numeric(text) ==> is_digit(text[0]));
    }
}

/// Texts are ordered by their first character that differs, and a text comes before its
/// continuations.
pub proof fn texts_are_ordered_by_the_first_difference(
    head: Seq<char>,
    a: char,
    b: char,
    x: Seq<char>,
    y: Seq<char>,
)
    requires
        (a as int) < (b as int),
    ensures
        precedes(head.push(a) + x, head.push(b) + y),
        !precedes(head.push(b) + y, head.push(a) + x),
        precedes(head, head.push(a) + x),
        !precedes(head.push(a) + x, head),
    decreases head.len(),
{
    let p = head.push(a) + x;
    let q = head.push(b) + y;
    if head.len() > 0 {
        let rest = head.drop_first();
        texts_are_ordered_by_the_first_difference(rest, a, b, x, y);
        assert(p.drop_first() =~= rest.push(a) + x);
        assert(q.drop_first() =~= rest.push(b) + y);
    }
}

/// Spaces, tabs and line ends are white, and no character that prints in ASCII is.
pub proof fn printing_characters_are_not_white(ch: char)
    ensures
        (ch as u32) == 32 || 9 <= (ch as u32) <= 13 ==> white(ch),
        33 <= (ch as u32) <= 126 ==> !white(ch),
        is_digit(ch) ==> !white(ch),
{
}

} // verus!
