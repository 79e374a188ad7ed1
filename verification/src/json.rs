//! JSON values, read and written by `serde_json`.

use vstd::prelude::*;

use crate::seqs::{first_where, lemma_first_where};
use crate::tables::rows;
use crate::text::{
    chars_of, digits, digits_value, is_digit, joined, lemma_digits_are_numeric, number, numeric,
    same, signed_digits,
};

verus! {

/// A JSON value.
#[derive(Debug)]
pub enum Json {
    Null,
    Bool(bool),
    /// A number, in the text that stands for it.
    Number(String),
    Text(String),
    List(Vec<Json>),
    /// Members, no name twice.
    Object(Vec<Member>),
}

/// One member of an object.
#[derive(Debug)]
pub struct Member {
    pub name: String,
    pub value: Json,
}

/// A JSON value, by what it says.
pub enum JsonView {
    Null,
    Bool(bool),
    Number(Seq<char>),
    Text(Seq<char>),
    List(Seq<JsonView>),
    Object(Seq<(Seq<char>, JsonView)>),
}

/// A member, by what it says.
pub type MemberView = (Seq<char>, JsonView);

/// Picks the members with a name.
pub open spec fn named(name: Seq<char>) -> spec_fn(MemberView) -> bool {
    |m: MemberView| m.0 == name
}

impl JsonView {
    /// The member of an object with the given name.
    pub open spec fn field(self, name: Seq<char>) -> Option<JsonView> {
        match self {
            JsonView::Object(members) => {
                let i = first_where(members, named(name));
                if i < members.len() {
                    Some(members[i].1)
                } else {
                    None
                }
            },
            _ => None,
        }
    }

    /// The text of a member that is one.
    pub open spec fn text_field(self, name: Seq<char>) -> Option<Seq<char>> {
        match self.field(name) {
            Some(value) => value.text(),
            None => None,
        }
    }

    /// The items of a member that is a list.
    pub open spec fn list_field(self, name: Seq<char>) -> Option<Seq<JsonView>> {
        match self.field(name) {
            Some(value) => value.list(),
            None => None,
        }
    }

    /// The member of a member.
    pub open spec fn nested(self, outer: Seq<char>, inner: Seq<char>) -> Option<JsonView> {
        match self.field(outer) {
            Some(value) => value.field(inner),
            None => None,
        }
    }

    /// The part of a record: the member of an object with a name, or the item of a list at a place.
    pub open spec fn part(self, name: Seq<char>, place: int) -> Option<JsonView> {
        match self {
            JsonView::List(items) => if 0 <= place < items.len() {
                Some(items[place])
            } else {
                None
            },
            _ => self.field(name),
        }
    }

    /// The text of a part that is one.
    pub open spec fn text_part(self, name: Seq<char>, place: int) -> Option<Seq<char>> {
        match self.part(name, place) {
            Some(value) => value.text(),
            None => None,
        }
    }

    /// Whether a value is a record of so many parts: an object, or a list that has no more.
    pub open spec fn is_record(self, parts: int) -> bool {
        match self {
            JsonView::Object(_) => true,
            JsonView::List(items) => items.len() <= parts,
            _ => false,
        }
    }

    pub open spec fn text(self) -> Option<Seq<char>> {
        match self {
            JsonView::Text(text) => Some(text),
            _ => None,
        }
    }

    pub open spec fn list(self) -> Option<Seq<JsonView>> {
        match self {
            JsonView::List(items) => Some(items),
            _ => None,
        }
    }

    /// A number that is a non-negative integer of at most 64 bits. A number with a fraction or an
    /// exponent is none, whatever its value.
    pub open spec fn unsigned(self) -> Option<u64> {
        match self {
            JsonView::Number(text) => if numeric(text) && number(text) <= u64::MAX {
                Some(number(text) as u64)
            } else {
                None
            },
            _ => None,
        }
    }

    /// A number that is an integer of 64 bits with a sign.
    pub open spec fn signed(self) -> Option<i64> {
        match self {
            JsonView::Number(text) => if numeric(text) && number(text) <= i64::MAX {
                Some(number(text) as i64)
            } else if text.len() > 0 && text[0] == '-' && numeric(text.drop_first()) && number(
                text.drop_first(),
            ) <= 0x8000_0000_0000_0000 {
                Some((-(number(text.drop_first()) as int)) as i64)
            } else {
                None
            },
            _ => None,
        }
    }
}

impl Json {
    /// What a value says.
    pub open spec fn said(self) -> JsonView
        decreases self,
    {
        match self {
            Json::Null => JsonView::Null,
            Json::Bool(flag) => JsonView::Bool(flag),
            Json::Number(text) => JsonView::Number(text@),
            Json::Text(text) => JsonView::Text(text@),
            Json::List(items) => JsonView::List(
                Seq::new(
                    items@.len(),
                    |i: int|
                        if 0 <= i < items@.len() {
                            items@[i].said()
                        } else {
                            JsonView::Null
                        },
                ),
            ),
            Json::Object(members) => JsonView::Object(
                Seq::new(
                    members@.len(),
                    |i: int|
                        if 0 <= i < members@.len() {
                            (members@[i].name@, members@[i].value.said())
                        } else {
                            (Seq::empty(), JsonView::Null)
                        },
                ),
            ),
        }
    }
}

impl View for Json {
    type V = JsonView;

    open spec fn view(&self) -> JsonView {
        self.said()
    }
}

impl View for Member {
    type V = MemberView;

    open spec fn view(&self) -> MemberView {
        (self.name@, self.value@)
    }
}

/// A list says what its items say.
pub proof fn lemma_list_says(items: Vec<Json>)
    ensures
        Json::List(items)@ == JsonView::List(rows(items@)),
{
    assert(Json::List(items)@->List_0 =~= rows(items@));
}

/// An object says what its members say.
pub proof fn lemma_object_says(members: Vec<Member>)
    ensures
        Json::Object(members)@ == JsonView::Object(rows(members@)),
{
    assert(Json::Object(members)@->Object_0 =~= rows(members@));
}

impl Json {
    /// The member of an object with the given name.
    pub fn get(&self, name: &str) -> (value: Option<&Json>)
        ensures
            match value {
                Some(v) => self@.field(name@) == Some(v@),
                None => self@.field(name@) is None,
            },
    {
        match self {
            Json::Object(members) => {
                let ghost p = named(name@);
                let ghost all = rows(members@);
                let mut i: usize = 0;
                proof {
                    lemma_object_says(*members);
                }
                while i < members.len()
                    invariant
                        i <= members@.len(),
                        self@ == JsonView::Object(all),
                        all == rows(members@),
                        p == named(name@),
                        forall|j: int| 0 <= j < i ==> !p(#[trigger] all[j]),
                    decreases members@.len() - i,
                {
                    assert(all[i as int] == members@[i as int]@);
                    if same(members[i].name.as_str(), name) {
                        proof {
                            lemma_first_where(all, p, i as int);
                        }
                        return Some(&members[i].value);
                    }
                    i += 1;
                }
                proof {
                    lemma_first_where(all, p, i as int);
                }
                None
            },
            _ => None,
        }
    }

    /// The part of a record: the member of an object with a name, or the item of a list at a place.
    pub fn get_part(&self, name: &str, place: usize) -> (value: Option<&Json>)
        ensures
            match value {
                Some(v) => self@.part(name@, place as int) == Some(v@),
                None => self@.part(name@, place as int) is None,
            },
    {
        match self {
            Json::List(items) => {
                proof {
                    lemma_list_says(*items);
                }
                if place < items.len() {
                    Some(&items[place])
                } else {
                    None
                }
            },
            _ => self.get(name),
        }
    }

    /// The text of a part that is one.
    pub fn get_text_part(&self, name: &str, place: usize) -> (text: Option<&str>)
        ensures
            match text {
                Some(t) => self@.text_part(name@, place as int) == Some(t@),
                None => self@.text_part(name@, place as int) is None,
            },
    {
        match self.get_part(name, place) {
            Some(value) => value.as_str(),
            None => None,
        }
    }

    /// Whether a value is a record of so many parts.
    pub fn has_parts(&self, parts: usize) -> (yes: bool)
        ensures
            yes == self@.is_record(parts as int),
    {
        match self {
            Json::Object(_) => true,
            Json::List(items) => {
                proof {
                    lemma_list_says(*items);
                }
                items.len() <= parts
            },
            _ => false,
        }
    }

    pub fn as_str(&self) -> (text: Option<&str>)
        ensures
            match text {
                Some(t) => self@.text() == Some(t@),
                None => self@.text() is None,
            },
    {
        match self {
            Json::Text(text) => Some(text.as_str()),
            _ => None,
        }
    }

    pub fn as_array(&self) -> (items: Option<&Vec<Json>>)
        ensures
            match items {
                Some(i) => self@.list() == Some(rows(i@)),
                None => self@.list() is None,
            },
    {
        match self {
            Json::List(items) => {
                proof {
                    lemma_list_says(*items);
                }
                Some(items)
            },
            _ => None,
        }
    }

    pub fn as_u64(&self) -> (value: Option<u64>)
        ensures
            value == self@.unsigned(),
    {
        match self {
            Json::Number(text) => {
                let chars = chars_of(text.as_str());
                digits_value(&chars)
            },
            _ => None,
        }
    }

    pub fn as_i64(&self) -> (value: Option<i64>)
        ensures
            value == self@.signed(),
    {
        match self {
            Json::Number(text) => {
                let mut chars = chars_of(text.as_str());
                if chars.len() > 0 && chars[0] == '-' {
                    assert(!is_digit(text@[0]));
                    let _ = chars.remove(0);
                    assert(chars@ =~= text@.drop_first());
                    match digits_value(&chars) {
                        Some(n) => if n <= 0x7fff_ffff_ffff_ffff {
                            Some(-(n as i64))
                        } else if n == 0x8000_0000_0000_0000 {
                            Some(i64::MIN)
                        } else {
                            None
                        },
                        None => None,
                    }
                } else {
                    match digits_value(&chars) {
                        Some(n) => if n <= 0x7fff_ffff_ffff_ffff {
                            Some(n as i64)
                        } else {
                            None
                        },
                        None => None,
                    }
                }
            },
            _ => None,
        }
    }

    pub fn is_null(&self) -> (yes: bool)
        ensures
            yes == (self@ is Null),
    {
        match self {
            Json::Null => true,
            _ => false,
        }
    }

    /// The text of a member that is one.
    pub fn get_str(&self, name: &str) -> (text: Option<&str>)
        ensures
            match text {
                Some(t) => self@.text_field(name@) == Some(t@),
                None => self@.text_field(name@) is None,
            },
    {
        match self.get(name) {
            Some(value) => value.as_str(),
            None => None,
        }
    }

    /// The items of a member that is a list.
    pub fn get_array(&self, name: &str) -> (items: Option<&Vec<Json>>)
        ensures
            match items {
                Some(i) => self@.list_field(name@) == Some(rows(i@)),
                None => self@.list_field(name@) is None,
            },
    {
        match self.get(name) {
            Some(value) => value.as_array(),
            None => None,
        }
    }

    /// The member of a member.
    pub fn get_nested(&self, outer: &str, inner: &str) -> (value: Option<&Json>)
        ensures
            match value {
                Some(v) => self@.nested(outer@, inner@) == Some(v@),
                None => self@.nested(outer@, inner@) is None,
            },
    {
        match self.get(outer) {
            Some(value) => value.get(inner),
            None => None,
        }
    }

    /// Whether a member is the given text.
    pub fn field_is(&self, name: &str, text: &str) -> (yes: bool)
        ensures
            yes == (self@.text_field(name@) == Some(text@)),
    {
        match self.get_str(name) {
            Some(found) => same(found, text),
            None => false,
        }
    }
}

/// `serde_json::Value`, carried from the reader to `from_value`.
#[verifier::external_type_specification]
#[verifier::external_body]
pub struct ExValue(serde_json::Value);

/// What `serde_json` reads from a text: a value, or the message of its error.
pub uninterp spec fn json_read(text: Seq<char>) -> Result<JsonView, Seq<char>>;

/// The value that a text is, where the text is JSON.
pub open spec fn json_of(text: Seq<char>) -> Option<JsonView> {
    match json_read(text) {
        Ok(value) => Some(value),
        Err(_) => None,
    }
}

/// `serde_json::from_str` into a `serde_json::Value`, taken over variant by variant.
///
/// Claimed: the result depends on the text alone, and so does the message of an error, which is
/// `serde_json`'s own. A number keeps the text in which `serde_json` writes it: an unsigned integer
/// of 64 bits is all digits, and a number with a fraction or an exponent is not. Where an object
/// repeats a name, the last value is the one that counts.
#[verifier::external_body]
fn read_value(text: &str) -> (value: Result<Json, String>)
    ensures
        json_read(text@) == (match value {
            Ok(v) => Ok::<JsonView, Seq<char>>(v@),
            Err(message) => Err(message@),
        }),
{
    match serde_json::from_str::<serde_json::Value>(text) {
        Ok(value) => Ok(from_value(value)),
        Err(error) => Err(error.to_string()),
    }
}

/// A `serde_json::Value` as a value of this module, variant by variant.
#[verifier::external_body]
fn from_value(value: serde_json::Value) -> Json {
    match value {
        serde_json::Value::Null => Json::Null,
        serde_json::Value::Bool(b) => Json::Bool(b),
        serde_json::Value::Number(n) => Json::Number(n.to_string()),
        serde_json::Value::String(s) => Json::Text(s),
        serde_json::Value::Array(items) => Json::List(items.into_iter().map(from_value).collect()),
        serde_json::Value::Object(map) => Json::Object(
            map.into_iter().map(|(name, v)| Member { name, value: from_value(v) }).collect(),
        ),
    }
}

/// Reads JSON. A text that is none gives the reader's message.
pub fn read_json(text: &str) -> (value: Result<Json, String>)
    ensures
        json_read(text@) == (match value {
            Ok(v) => Ok::<JsonView, Seq<char>>(v@),
            Err(message) => Err(message@),
        }),
{
    read_value(text)
}

/// How far a text has been looked through for the names of its members.
#[verifier::ext_equal]
pub struct NameScan {
    /// Within a string.
    pub quoted: bool,
    /// Behind a backslash.
    pub escaped: bool,
    /// The string that came last, as it is written.
    pub last: Seq<char>,
    /// How many objects and lists have begun.
    pub begun: int,
    /// Those that have not ended, by their number, the outermost first.
    pub unended: Seq<int>,
    /// For each name its object, and the name as it is written.
    pub names: Seq<(int, Seq<char>)>,
}

impl NameScan {
    pub open spec fn start() -> NameScan {
        NameScan {
            quoted: false,
            escaped: false,
            last: Seq::empty(),
            begun: 0,
            unended: Seq::empty(),
            names: Seq::empty(),
        }
    }

    /// The scan with one more character.
    pub open spec fn step(self, ch: char) -> NameScan {
        if self.quoted {
            if !self.escaped && ch == '"' {
                NameScan { quoted: false, ..self }
            } else {
                NameScan {
                    escaped: !self.escaped && ch == '\\',
                    last: self.last.push(ch),
                    ..self
                }
            }
        } else if ch == '"' {
            NameScan { quoted: true, last: Seq::empty(), ..self }
        } else if ch == '{' || ch == '[' {
            NameScan { begun: self.begun + 1, unended: self.unended.push(self.begun), ..self }
        } else if (ch == '}' || ch == ']') && self.unended.len() > 0 {
            NameScan { unended: self.unended.drop_last(), ..self }
        } else if ch == ':' && self.unended.len() > 0 {
            NameScan { names: self.names.push((self.unended.last(), self.last)), ..self }
        } else {
            self
        }
    }

    /// The scan of a text.
    pub open spec fn of(text: Seq<char>) -> NameScan
        decreases text.len(),
    {
        if text.len() == 0 {
            NameScan::start()
        } else {
            NameScan::of(text.drop_last()).step(text.last())
        }
    }
}

/// What a name means that is written between quotes.
pub open spec fn meant(name: Seq<char>) -> Option<Seq<char>> {
    match json_of("\""@ + name + "\""@) {
        Some(value) => value.text(),
        None => None,
    }
}

/// The names that a text of JSON gives to members, with the number of the object that each belongs
/// to. The outermost object is number zero.
pub open spec fn member_names(text: Seq<char>) -> Seq<(int, Option<Seq<char>>)> {
    NameScan::of(text).names.map_values(|n: (int, Seq<char>)| (n.0, meant(n.1)))
}

/// Whether some object in a text of JSON names a member twice. The value that is read no longer tells.
pub open spec fn repeats_a_name(text: Seq<char>) -> bool {
    exists|i: int, j: int|
        0 <= i < j < member_names(text).len() && #[trigger] member_names(text)[i]
            == #[trigger] member_names(text)[j]
}

/// Whether the outermost object in a text of JSON gives a name twice.
pub open spec fn repeats_member(text: Seq<char>, name: Seq<char>) -> bool {
    exists|i: int, j: int|
        0 <= i < j < member_names(text).len() && #[trigger] member_names(text)[i] == (
            0int,
            Some(name),
        ) && #[trigger] member_names(text)[j] == (0int, Some(name))
}

/// A name that a text gives to a member.
struct WrittenName {
    owner: u64,
    name: Option<String>,
}

impl WrittenName {
    spec fn says(self) -> (int, Option<Seq<char>>) {
        (
            self.owner as int,
            match self.name {
                Some(name) => Some(name@),
                None => None,
            },
        )
    }
}

fn read_name(raw: &Vec<char>) -> (name: Option<String>)
    ensures
        match name {
            Some(n) => meant(raw@) == Some(n@),
            None => meant(raw@) is None,
        },
{
    let inner = crate::text::text_of(raw);
    let mut text = joined("\"", inner.as_str());
    text.append("\"");
    match read_json(text.as_str()) {
        Ok(Json::Text(name)) => Some(name),
        _ => None,
    }
}

/// The names that a text gives to members.
fn read_names(text: &str) -> (names: Vec<WrittenName>)
    ensures
        names@.len() == member_names(text@).len(),
        forall|i: int| 0 <= i < names@.len() ==> (#[trigger] names@[i]).says() == member_names(text@)[i],
{
    let chars = chars_of(text);
    let mut quoted = false;
    let mut escaped = false;
    let mut last: Vec<char> = Vec::new();
    let mut begun: u64 = 0;
    let mut unended: Vec<u64> = Vec::new();
    let mut names: Vec<WrittenName> = Vec::new();
    let ghost all = text@;
    let mut i: usize = 0;
    assert(all.take(0) =~= Seq::empty());
    while i < chars.len()
        invariant
            i <= chars@.len(),
            chars@ == all,
            begun <= i,
            ({
                let scan = NameScan::of(all.take(i as int));
                &&& scan.quoted == quoted
                &&& scan.escaped == escaped
                &&& scan.last == last@
                &&& scan.begun == begun
                &&& scan.unended.len() == unended@.len()
                &&& forall|k: int| 0 <= k < unended@.len() ==> scan.unended[k] == #[trigger] unended@[k]
                &&& scan.names.len() == names@.len()
                &&& forall|k: int|
                    0 <= k < names@.len() ==> (#[trigger] names@[k]).says() == (
                        scan.names[k].0,
                        meant(scan.names[k].1),
                    )
            }),
        decreases chars@.len() - i,
    {
        let ch = chars[i];
        let ghost before = NameScan::of(all.take(i as int));
        assert(all.take(i + 1).drop_last() =~= all.take(i as int));
        assert(NameScan::of(all.take(i + 1)) == before.step(ch));
        if quoted {
            if !escaped && ch == '"' {
                quoted = false;
            } else {
                escaped = !escaped && ch == '\\';
                last.push(ch);
            }
        } else if ch == '"' {
            quoted = true;
            last = Vec::new();
        } else if ch == '{' || ch == '[' {
            unended.push(begun);
            begun += 1;
        } else if (ch == '}' || ch == ']') && unended.len() > 0 {
            let _ = unended.pop();
        } else if ch == ':' && unended.len() > 0 {
            let owner: u64 = unended[unended.len() - 1];
            names.push(WrittenName { owner, name: read_name(&last) });
        }
        i += 1;
    }
    assert(all.take(i as int) =~= all);
    names
}

fn same_name(a: &WrittenName, b: &WrittenName) -> (yes: bool)
    ensures
        yes == (a.says() == b.says()),
{
    a.owner == b.owner && match (&a.name, &b.name) {
        (Some(a), Some(b)) => same(a.as_str(), b.as_str()),
        (None, None) => true,
        _ => false,
    }
}

/// Whether some object in a text of JSON names a member twice.
pub fn names_twice(text: &str) -> (yes: bool)
    ensures
        yes == repeats_a_name(text@),
{
    let names = read_names(text);
    let ghost said = member_names(text@);
    let mut i: usize = 0;
    while i < names.len()
        invariant
            i <= names@.len(),
            said == member_names(text@),
            names@.len() == said.len(),
            forall|k: int| 0 <= k < names@.len() ==> (#[trigger] names@[k]).says() == said[k],
            forall|a: int, b: int|
                0 <= a < i && a < b < said.len() ==> #[trigger] said[a] != #[trigger] said[b],
        decreases names@.len() - i,
    {
        let mut j: usize = i + 1;
        while j < names.len()
            invariant
                i < j <= names@.len(),
                said == member_names(text@),
                names@.len() == said.len(),
                forall|k: int| 0 <= k < names@.len() ==> (#[trigger] names@[k]).says() == said[k],
                forall|b: int| i < b < j ==> said[i as int] != #[trigger] said[b],
            decreases names@.len() - j,
        {
            if same_name(&names[i], &names[j]) {
                assert(said[i as int] == said[j as int]);
                return true;
            }
            j += 1;
        }
        i += 1;
    }
    false
}

/// Whether the outermost object in a text of JSON gives a name twice.
pub fn has_member_twice(text: &str, name: &str) -> (yes: bool)
    ensures
        yes == repeats_member(text@, name@),
{
    let names = read_names(text);
    let ghost said = member_names(text@);
    let wanted = WrittenName { owner: 0, name: Some(name.to_owned()) };
    let ghost one = (0int, Some(name@));
    let ghost mut first: int = 0;
    let mut found = false;
    let mut i: usize = 0;
    while i < names.len()
        invariant
            i <= names@.len(),
            said == member_names(text@),
            names@.len() == said.len(),
            forall|k: int| 0 <= k < names@.len() ==> (#[trigger] names@[k]).says() == said[k],
            one == (0int, Some(name@)),
            wanted.says() == one,
            found ==> 0 <= first < i && said[first] == one,
            forall|k: int|
                0 <= k < i && !(found && k == first) ==> #[trigger] said[k] != one,
        decreases names@.len() - i,
    {
        if same_name(&names[i], &wanted) {
            if found {
                assert(said[first] == one && said[i as int] == one);
                return true;
            }
            proof {
                first = i as int;
            }
            found = true;
        }
        i += 1;
    }
    false
}

/// An object that gives a name twice names a member twice.
pub proof fn lemma_repeated_member(text: Seq<char>, name: Seq<char>)
    ensures
        repeats_member(text, name) ==> repeats_a_name(text),
{
    if repeats_member(text, name) {
        let said = member_names(text);
        let (i, j) = choose|i: int, j: int|
            0 <= i < j < said.len() && #[trigger] said[i] == (0int, Some(name)) && #[trigger] said[j]
                == (0int, Some(name));
        assert(said[i] == said[j]);
    }
}

/// The value is a text or an integer of 64 bits with a sign.
pub open spec fn is_leaf(value: JsonView) -> bool {
    match value {
        JsonView::Text(_) => true,
        JsonView::Number(text) => exists|n: i64| text == #[trigger] signed_digits(n as int),
        _ => false,
    }
}

/// The value is an object of texts and integers, no name twice.
pub open spec fn is_flat(value: JsonView) -> bool {
    let m = members_of(value);
    &&& value is Object
    &&& forall|i: int| 0 <= i < m.len() ==> is_leaf((#[trigger] m[i]).1)
    &&& forall|i: int, j: int|
        0 <= i < j < m.len() ==> (#[trigger] m[i]).0 != (#[trigger] m[j]).0
}

/// Two values say the same as texts and as integers, or neither is there.
pub open spec fn says_the_same(a: Option<JsonView>, b: Option<JsonView>) -> bool {
    match (a, b) {
        (Some(a), Some(b)) => a.text() == b.text() && a.signed() == b.signed(),
        (None, None) => true,
        _ => false,
    }
}

/// The text that `serde_json` writes for a value.
pub uninterp spec fn written(value: JsonView) -> Seq<char>;

/// `serde_json::to_string` of a `serde_json::Value`, made variant by variant.
///
/// Claimed: the text depends on what the value says alone. What is written for a text reads back as that
/// text, and what is written for an object of texts and integers as an object whose members say the
/// same. In neither is a member named twice.
#[verifier::external_body]
fn write_value(value: &Json) -> (text: String)
    ensures
        text@ == written(value@),
        is_flat(value@) ==> json_of(text@) is Some && forall|name: Seq<char>|
            says_the_same(#[trigger] json_of(text@)->0.field(name), value@.field(name)),
        is_flat(value@) || value@ is Text ==> !repeats_a_name(text@),
        match json_of(text@) {
            Some(JsonView::Text(read)) => value@ is Text ==> read == value@->Text_0,
            _ => !(value@ is Text),
        },
{
    serde_json::to_string(&to_value(value)).unwrap_or_default()
}

/// A value of this module as a `serde_json::Value`, variant by variant. A text that is no number
/// becomes null, as a number that is not finite does.
#[verifier::external_body]
fn to_value(value: &Json) -> serde_json::Value {
    match value {
        Json::Null => serde_json::Value::Null,
        Json::Bool(b) => serde_json::Value::Bool(*b),
        Json::Number(text) => match text.parse::<serde_json::Number>() {
            Ok(n) => serde_json::Value::Number(n),
            Err(_) => serde_json::Value::Null,
        },
        Json::Text(text) => serde_json::Value::String(text.clone()),
        Json::List(items) => serde_json::Value::Array(items.iter().map(to_value).collect()),
        Json::Object(members) => serde_json::Value::Object(
            members.iter().map(|m| (m.name.clone(), to_value(&m.value))).collect(),
        ),
    }
}

/// Writes JSON.
pub fn write_json(value: &Json) -> (text: String)
    ensures
        text@ == written(value@),
        is_flat(value@) ==> json_of(text@) is Some && forall|name: Seq<char>|
            says_the_same(#[trigger] json_of(text@)->0.field(name), value@.field(name)),
        is_flat(value@) || value@ is Text ==> !repeats_a_name(text@),
        match json_of(text@) {
            Some(JsonView::Text(read)) => value@ is Text ==> read == value@->Text_0,
            _ => !(value@ is Text),
        },
{
    write_value(value)
}

/// The text of an integer stands for it.
pub proof fn lemma_number_says(value: JsonView, n: i64)
    requires
        value == JsonView::Number(signed_digits(n as int)),
    ensures
        is_leaf(value),
        value.signed() == Some(n),
{
    if n < 0 {
        let text = signed_digits(n as int);
        assert(text.drop_first() =~= digits((-n) as nat));
        lemma_digits_are_numeric((-n) as nat);
        assert(!is_digit(text[0]));
        assert(!numeric(text));
    } else {
        lemma_digits_are_numeric(n as nat);
    }
}

/// The member of an object at a place, where no member before it has its name.
pub proof fn lemma_member_at(value: JsonView, i: int)
    requires
        value is Object,
        0 <= i < members_of(value).len(),
        forall|j: int|
            0 <= j < i ==> (#[trigger] members_of(value)[j]).0 != members_of(value)[i].0,
    ensures
        value.field(members_of(value)[i].0) == Some(members_of(value)[i].1),
{
    let m = members_of(value);
    let name = m[i].0;
    lemma_first_where(m, named(name), i);
}

/// A text as a value.
pub fn text_value(text: &str) -> (value: Json)
    ensures
        value@ == JsonView::Text(text@),
{
    Json::Text(text.to_owned())
}

/// A member of an object.
pub fn member(name: &str, value: Json) -> (m: Member)
    ensures
        m@ == (name@, value@),
{
    Member { name: name.to_owned(), value }
}

/// The members of an object.
pub open spec fn members_of(value: JsonView) -> Seq<MemberView> {
    match value {
        JsonView::Object(members) => members,
        _ => Seq::empty(),
    }
}

/// A text as a member.
pub open spec fn text_of(name: Seq<char>, text: Seq<char>) -> MemberView {
    (name, JsonView::Text(text))
}

/// A number as a member.
pub open spec fn number_of(name: Seq<char>, text: Seq<char>) -> MemberView {
    (name, JsonView::Number(text))
}

/// A truth value as a member.
pub open spec fn flag_of(name: Seq<char>, flag: bool) -> MemberView {
    (name, JsonView::Bool(flag))
}

/// An object of some members.
pub fn object(members: Vec<Member>) -> (value: Json)
    ensures
        value@ == JsonView::Object(rows(members@)),
{
    proof {
        lemma_object_says(members);
    }
    Json::Object(members)
}

/// A list of some items.
pub fn list(items: Vec<Json>) -> (value: Json)
    ensures
        value@ == JsonView::List(rows(items@)),
{
    proof {
        lemma_list_says(items);
    }
    Json::List(items)
}

pub fn text_member(name: &str, text: &str) -> (m: Member)
    ensures
        m@ == text_of(name@, text@),
{
    member(name, text_value(text))
}

pub fn number_member(name: &str, text: String) -> (m: Member)
    ensures
        m@ == number_of(name@, text@),
{
    member(name, Json::Number(text))
}

pub fn bool_member(name: &str, flag: bool) -> (m: Member)
    ensures
        m@ == flag_of(name@, flag),
{
    member(name, Json::Bool(flag))
}

/// A member is found under its name: the first that has it. A value that is no object has none.
pub proof fn member_is_found_by_name(members: Seq<MemberView>, i: int, name: Seq<char>)
    ensures
        0 <= i < members.len() && members[i].0 == name && (forall|k: int|
            0 <= k < i ==> (#[trigger] members[k]).0 != name) ==> JsonView::Object(members).field(
            name,
        ) == Some(members[i].1),
        (forall|k: int| 0 <= k < members.len() ==> (#[trigger] members[k]).0 != name)
            ==> JsonView::Object(members).field(name) is None,
        (JsonView::Text(name)).field(name) is None && (JsonView::Null).field(name) is None,
{
    if 0 <= i < members.len() && members[i].0 == name && (forall|k: int|
        0 <= k < i ==> (#[trigger] members[k]).0 != name) {
        lemma_first_where(members, named(name), i);
    }
    if forall|k: int| 0 <= k < members.len() ==> (#[trigger] members[k]).0 != name {
        lemma_first_where(members, named(name), members.len() as int);
    }
}

/// A number is unsigned where it is nothing but digits that fit, and signed where such digits, with at
/// most a minus before them, do; a text is no number.
pub proof fn numbers_are_read_from_digits(n: u64)
    ensures
        (JsonView::Number(digits(n as nat))).unsigned() == Some(n),
        n <= i64::MAX ==> (JsonView::Number(digits(n as nat))).signed() == Some(n as i64),
        n <= i64::MAX ==> (JsonView::Number(seq!['-'] + digits(n as nat))).signed() == Some(
            (-(n as int)) as i64,
        ),
        (JsonView::Number(seq!['-'] + digits(n as nat))).unsigned() is None,
        (JsonView::Text(digits(n as nat))).unsigned() is None,
{
    let d = digits(n as nat);
    crate::text::lemma_digits_are_numeric(n as nat);
    let m = seq!['-'] + d;
    assert(m.drop_first() =~= d);
    assert(m[0] == '-');
    assert(!crate::text::is_digit(m[0]));
}

} // verus!
