//! Tokens of the gateway.
//!
//! A token holds for a day and may be asked for once a minute, so it is kept in a file and used
//! again.

use vstd::prelude::*;
use vstd::utf8::encode_utf8;

use crate::error::{is_kis, AppError, AppResult};
use crate::json::{
    has_member_twice, is_flat, is_leaf, json_of, lemma_member_at, lemma_number_says,
    lemma_repeated_member, members_of, number_member, number_of, object, read_json, repeats_member,
    says_the_same, text_member, text_of, write_json, written, Json, JsonView, Member,
};
use crate::text::{joined, opt, same, signed_decimal, signed_digits};

verus! {

/// A token, and what it was issued for.
#[derive(Debug)]
pub struct CachedToken {
    pub access_token: String,
    /// Seconds of UTC.
    pub expires_at: i64,
    pub base: String,
    pub app_key_fingerprint: String,
}

#[verifier::ext_equal]
pub struct TokenView {
    pub access_token: Seq<char>,
    pub expires_at: i64,
    pub base: Seq<char>,
    pub app_key_fingerprint: Seq<char>,
}

impl View for CachedToken {
    type V = TokenView;

    open spec fn view(&self) -> TokenView {
        TokenView {
            access_token: self.access_token@,
            expires_at: self.expires_at,
            base: self.base@,
            app_key_fingerprint: self.app_key_fingerprint@,
        }
    }
}

impl Clone for CachedToken {
    fn clone(&self) -> (copy: Self)
        ensures
            copy == *self,
    {
        CachedToken {
            access_token: self.access_token.clone(),
            expires_at: self.expires_at,
            base: self.base.clone(),
            app_key_fingerprint: self.app_key_fingerprint.clone(),
        }
    }
}

/// The hash of some bytes by FNV-1a, with 64 bits.
pub open spec fn fnv(bytes: Seq<u8>) -> u64
    decreases bytes.len(),
{
    if bytes.len() == 0 {
        0xcbf2_9ce4_8422_2325
    } else {
        (fnv(bytes.drop_last()) ^ (bytes.last() as u64)).wrapping_mul(0x100_0000_01b3)
    }
}

/// The hexadecimal digit for a number below sixteen.
pub open spec fn hex_digit(n: nat) -> char {
    if n < 10 {
        (48 + n) as char
    } else {
        (87 + n) as char
    }
}

/// A number in so many hexadecimal digits.
pub open spec fn hex(n: nat, places: nat) -> Seq<char>
    decreases places,
{
    if places == 0 {
        Seq::empty()
    } else {
        hex(n / 16, (places - 1) as nat).push(hex_digit(n % 16))
    }
}

fn hex_char(n: u64) -> (ch: char)
    requires
        n < 16,
    ensures
        ch == hex_digit(n as nat),
{
    match n {
        0 => '0',
        1 => '1',
        2 => '2',
        3 => '3',
        4 => '4',
        5 => '5',
        6 => '6',
        7 => '7',
        8 => '8',
        9 => '9',
        10 => 'a',
        11 => 'b',
        12 => 'c',
        13 => 'd',
        14 => 'e',
        _ => 'f',
    }
}

fn write_hex(n: u64, places: u32) -> (text: String)
    ensures
        text@ == hex(n as nat, places as nat),
    decreases places,
{
    if places == 0 {
        String::new()
    } else {
        let mut text = write_hex(n / 16, places - 1);
        text.push(hex_char(n % 16));
        text
    }
}

/// The fingerprint of a key: enough to tell keys apart without keeping the key.
pub open spec fn fingerprint(key: Seq<char>) -> Seq<char> {
    hex(fnv(encode_utf8(key)) as nat, 16)
}

/// The fingerprint of a key, which a token file holds in place of the key.
pub fn app_key_fingerprint(value: &str) -> (text: String)
    ensures
        text@ == fingerprint(value@),
{
    let bytes = value.as_bytes();
    let mut hash: u64 = 0xcbf2_9ce4_8422_2325;
    let mut i: usize = 0;
    assert(bytes@.take(0) =~= Seq::empty());
    while i < bytes.len()
        invariant
            i <= bytes@.len(),
            hash == fnv(bytes@.take(i as int)),
        decreases bytes@.len() - i,
    {
        assert(bytes@.take(i + 1).drop_last() =~= bytes@.take(i as int));
        hash = (hash ^ (bytes[i] as u64)).wrapping_mul(0x100_0000_01b3);
        i += 1;
    }
    assert(bytes@.take(i as int) =~= bytes@);
    write_hex(hash, 16)
}

/// Keys that differ in their last byte alone have different hashes.
pub proof fn last_byte_tells(bytes: Seq<u8>, a: u8, b: u8)
    requires
        a != b,
    ensures
        fnv(bytes.push(a)) != fnv(bytes.push(b)),
{
    assert(bytes.push(a).drop_last() =~= bytes);
    assert(bytes.push(b).drop_last() =~= bytes);
    let h = fnv(bytes);
    let x = h ^ (a as u64);
    let y = h ^ (b as u64);
    assert(x != y) by (bit_vector)
        requires
            x == h ^ (a as u64),
            y == h ^ (b as u64),
            a != b,
    ;
    lemma_odd_factor(x, y);
}

/// The factor has an inverse: it and 0xce96_5057_aff6_957b multiply to one more than a multiple of
/// 2^64.
proof fn lemma_odd_factor(x: u64, y: u64)
    requires
        x != y,
    ensures
        x.wrapping_mul(0x100_0000_01b3) != y.wrapping_mul(0x100_0000_01b3),
{
    let m = 0x1_0000_0000_0000_0000int;
    let f = 0x100_0000_01b3int;
    let g = 0xce96_5057_aff6_957bint;
    if (x * f) % m == (y * f) % m {
        assert((f * g) % m == 1);
        vstd::arithmetic::div_mod::lemma_mul_mod_noop_left(x * f, g, m);
        vstd::arithmetic::div_mod::lemma_mul_mod_noop_left(y * f, g, m);
        assert((x * f) * g == x * (f * g)) by (nonlinear_arith);
        assert((y * f) * g == y * (f * g)) by (nonlinear_arith);
        vstd::arithmetic::div_mod::lemma_mul_mod_noop_right(x as int, f * g, m);
        vstd::arithmetic::div_mod::lemma_mul_mod_noop_right(y as int, f * g, m);
        vstd::arithmetic::div_mod::lemma_small_mod(x as nat, m as nat);
        vstd::arithmetic::div_mod::lemma_small_mod(y as nat, m as nat);
    }
}

/// Keeps the token that requests are signed with.
#[derive(Debug)]
pub struct TokenManager {
    base: String,
    app_key: String,
    app_secret: String,
    cached: Option<CachedToken>,
}

#[verifier::ext_equal]
pub struct ManagerView {
    pub base: Seq<char>,
    pub app_key: Seq<char>,
    pub app_secret: Seq<char>,
    pub cached: Option<TokenView>,
}

pub open spec fn token_view(token: Option<CachedToken>) -> Option<TokenView> {
    match token {
        Some(token) => Some(token@),
        None => None,
    }
}

impl View for TokenManager {
    type V = ManagerView;

    closed spec fn view(&self) -> ManagerView {
        ManagerView {
            base: self.base@,
            app_key: self.app_key@,
            app_secret: self.app_secret@,
            cached: token_view(self.cached),
        }
    }
}

impl ManagerView {
    /// Whether a token can still be used: five minutes of it are left, and it was issued for this
    /// gateway and this key.
    pub open spec fn still_valid(self, token: TokenView, now: i64) -> bool {
        &&& token.expires_at - 300 > now
        &&& token.base == self.base
        &&& token.app_key_fingerprint == fingerprint(self.app_key)
    }

    /// The token that is kept, taken from the file where none is, if it can still be used.
    pub open spec fn usable(self, now: i64, file: Option<TokenView>) -> Option<TokenView> {
        match self.cached {
            Some(token) => if self.still_valid(token, now) {
                Some(token)
            } else {
                None
            },
            None => match file {
                Some(token) => if self.still_valid(token, now) {
                    Some(token)
                } else {
                    None
                },
                None => None,
            },
        }
    }

    /// The token of a reply.
    pub open spec fn issued(self, now: i64, token: Seq<char>, lasts: i64) -> TokenView {
        TokenView {
            access_token: token,
            expires_at: clamped(now + lasts),
            base: self.base,
            app_key_fingerprint: fingerprint(self.app_key),
        }
    }
}

pub open spec fn clamped(n: int) -> i64 {
    if n > i64::MAX {
        i64::MAX
    } else if n < i64::MIN {
        i64::MIN
    } else {
        n as i64
    }
}

fn clamp(n: i128) -> (value: i64)
    ensures
        value == clamped(n as int),
{
    if n > i64::MAX as i128 {
        i64::MAX
    } else if n < i64::MIN as i128 {
        i64::MIN
    } else {
        n as i64
    }
}

/// What is dropped after a token was turned away.
#[derive(Debug, Clone, Copy, PartialEq, Eq, Structural)]
pub struct Dropped {
    pub memory: bool,
    pub file: bool,
}

/// How long a token lasts, by the reply it came with.
pub open spec fn lasts(reply: JsonView) -> i64 {
    match reply.field("expires_in"@) {
        Some(value) => match value.signed() {
            Some(seconds) => seconds,
            None => 86_400,
        },
        None => 86_400,
    }
}

/// What is sent to be issued a token or a key.
pub open spec fn credentials_body(key: Seq<char>, name: Seq<char>, secret: Seq<char>) -> JsonView {
    JsonView::Object(
        seq![
            text_of("grant_type"@, "client_credentials"@),
            text_of("appkey"@, key),
            text_of(name, secret),
        ],
    )
}

fn credentials(key: &str, name: &str, secret: &str) -> (body: Json)
    ensures
        body@ == credentials_body(key@, name@, secret@),
{
    let mut m: Vec<Member> = Vec::new();
    m.push(text_member("grant_type", "client_credentials"));
    m.push(text_member("appkey", key));
    m.push(text_member(name, secret));
    let body = object(m);
    assert(body@->Object_0 =~= credentials_body(key@, name@, secret@)->Object_0);
    body
}

impl TokenManager {
    pub fn new(base: String, app_key: String, app_secret: String) -> (manager: Self)
        ensures
            manager@ == (ManagerView {
                base: base@,
                app_key: app_key@,
                app_secret: app_secret@,
                cached: None,
            }),
    {
        TokenManager { base, app_key, app_secret, cached: None }
    }

    /// The token that is kept.
    pub fn cached(&self) -> (token: Option<&CachedToken>)
        ensures
            match token {
                Some(token) => self@.cached == Some(token@),
                None => self@.cached is None,
            },
    {
        match &self.cached {
            Some(token) => Some(token),
            None => None,
        }
    }

    fn holds_still(&self, token: &CachedToken, now: i64) -> (yes: bool)
        ensures
            yes == self@.still_valid(token@, now),
    {
        (token.expires_at as i128) - 300 > now as i128 && same(
            token.base.as_str(),
            self.base.as_str(),
        ) && same(
            token.app_key_fingerprint.as_str(),
            app_key_fingerprint(self.app_key.as_str()).as_str(),
        )
    }

    /// The token to sign with. The file counts only where no token is kept, and its token is then
    /// kept. `None` asks for a new one.
    pub fn bearer(&mut self, now: i64, file: Option<CachedToken>) -> (token: Option<String>)
        ensures
            ({
                let usable = old(self)@.usable(now, token_view(file));
                &&& opt(token) == (match usable {
                    Some(token) => Some(token.access_token),
                    None => None,
                })
                &&& final(self)@ == (if usable is Some {
                    ManagerView { cached: usable, ..old(self)@ }
                } else {
                    old(self)@
                })
            }),
    {
        if let Some(token) = &self.cached {
            if self.holds_still(token, now) {
                return Some(token.access_token.clone());
            }
            return None;
        }
        match file {
            Some(token) => {
                if self.holds_still(&token, now) {
                    let text = token.access_token.clone();
                    self.cached = Some(token);
                    Some(text)
                } else {
                    None
                }
            },
            None => None,
        }
    }

    /// Where a new token is asked for.
    pub fn token_url(&self) -> (url: String)
        ensures
            url@ == self@.base + "/oauth2/tokenP"@,
    {
        joined(self.base.as_str(), "/oauth2/tokenP")
    }

    /// What is sent for a new token.
    pub fn token_request(&self) -> (body: Json)
        ensures
            body@ == credentials_body(self@.app_key, "appsecret"@, self@.app_secret),
    {
        credentials(self.app_key.as_str(), "appsecret", self.app_secret.as_str())
    }

    /// Takes in a reply: its token is kept, for as long as the reply says or for a day, and is to be
    /// written to the file.
    pub fn accept(&mut self, now: i64, reply: &Json) -> (token: AppResult<CachedToken>)
        ensures
            match reply@.text_field("access_token"@) {
                Some(text) => token matches Ok(issued) && {
                    &&& issued@ == old(self)@.issued(now, text, lasts(reply@))
                    &&& final(self)@ == (ManagerView { cached: Some(issued@), ..old(self)@ })
                },
                None => {
                    &&& token matches Err(error) && is_kis(
                        error,
                        "토큰 발급 실패: "@ + written(reply@),
                    )
                    &&& final(self)@ == old(self)@
                },
            },
    {
        let text = match reply.get_str("access_token") {
            Some(text) => text.to_owned(),
            None => return Err(
                AppError::Kis(joined("토큰 발급 실패: ", write_json(reply).as_str())),
            ),
        };
        let seconds: i64 = match reply.get("expires_in") {
            Some(value) => match value.as_i64() {
                Some(seconds) => seconds,
                None => 86_400,
            },
            None => 86_400,
        };
        let token = CachedToken {
            access_token: text,
            expires_at: clamp(now as i128 + seconds as i128),
            base: self.base.clone(),
            app_key_fingerprint: app_key_fingerprint(self.app_key.as_str()),
        };
        self.cached = Some(token.clone());
        Ok(token)
    }

    /// Drops a token that was turned away, from memory and from the file, and nothing else: where
    /// another token is kept already, a reply that comes late drops nothing.
    pub fn invalidate_rejected(&mut self, rejected: &str, file: Option<&CachedToken>) -> (dropped:
        Dropped)
        ensures
            match old(self)@.cached {
                Some(token) => if token.access_token != rejected@ {
                    dropped == (Dropped { memory: false, file: false }) && final(self)@ == old(
                        self,
                    )@
                } else {
                    dropped.memory && final(self)@ == (ManagerView { cached: None, ..old(self)@ })
                },
                None => !dropped.memory && final(self)@ == old(self)@,
            },
            old(self)@.cached is None || old(self)@.cached->0.access_token == rejected@ ==> (
            dropped.file <==> file is Some && file->0@.access_token == rejected@),
    {
        let mut memory = false;
        if let Some(token) = &self.cached {
            if !same(token.access_token.as_str(), rejected) {
                return Dropped { memory: false, file: false };
            }
            memory = true;
        }
        if memory {
            self.cached = None;
        }
        let file = match file {
            Some(token) => same(token.access_token.as_str(), rejected),
            None => false,
        };
        Dropped { memory, file }
    }

    /// Who asks for keys of the socket with the same credentials.
    pub fn approval_issuer(&self) -> (issuer: ApprovalKeyIssuer)
        ensures
            issuer.base@ == self@.base,
            issuer.app_key@ == self@.app_key,
            issuer.app_secret@ == self@.app_secret,
    {
        ApprovalKeyIssuer {
            base: self.base.clone(),
            app_key: self.app_key.clone(),
            app_secret: self.app_secret.clone(),
        }
    }
}

/// A token that was just issued is used until five minutes before its end, and one that was turned
/// away is not used again.
pub proof fn issued_token_is_used(manager: ManagerView, now: i64, then: i64, text: Seq<char>, lasts: i64)
    requires
        now + lasts <= i64::MAX,
        now + lasts >= i64::MIN,
    ensures
        ({
            let token = manager.issued(now, text, lasts);
            let after = ManagerView { cached: Some(token), ..manager };
            &&& after.usable(then, None) == (if then < now + lasts - 300 {
                Some(token)
            } else {
                None
            })
            &&& (ManagerView { cached: None, ..after }).usable(then, None) is None
        }),
{
}

/// A token is not used with another gateway or another key's fingerprint.
pub proof fn token_stays_with_its_key(manager: ManagerView, now: i64, file: Option<TokenView>)
    ensures
        match manager.usable(now, file) {
            Some(token) => token.base == manager.base && token.app_key_fingerprint == fingerprint(
                manager.app_key,
            ),
            None => true,
        },
{
}

/// A token file gives one of its parts twice.
pub open spec fn names_part_twice(raw: Seq<char>) -> bool {
    repeats_member(raw, "access_token"@) || repeats_member(raw, "expires_at"@) || repeats_member(
        raw,
        "base"@,
    ) || repeats_member(raw, "app_key_fingerprint"@)
}

/// The token that a file holds. A file that gives one of its parts twice holds none.
pub open spec fn file_token(raw: Seq<char>) -> Option<TokenView> {
    match json_of(raw) {
        Some(value) => if names_part_twice(raw) {
            None
        } else {
            value_token(value)
        },
        None => None,
    }
}

/// The token that a value of a token file is.
pub open spec fn value_token(value: JsonView) -> Option<TokenView> {
    let expires = match value.part("expires_at"@, 1) {
        Some(v) => v.signed(),
        None => None,
    };
    let base = text_or_empty(value.part("base"@, 2));
    let key = text_or_empty(value.part("app_key_fingerprint"@, 3));
    match (value.text_part("access_token"@, 0), expires, base, key) {
        (Some(access_token), Some(expires_at), Some(base), Some(app_key_fingerprint)) =>
        if value.is_record(4) {
            Some(TokenView { access_token, expires_at, base, app_key_fingerprint })
        } else {
            None
        },
        _ => None,
    }
}

/// A text, or an empty one where there is nothing. What is no text is none.
pub open spec fn text_or_empty(value: Option<JsonView>) -> Option<Seq<char>> {
    match value {
        Some(v) => v.text(),
        None => Some(Seq::empty()),
    }
}

fn read_text_or_empty(value: Option<&Json>) -> (text: Option<String>)
    ensures
        opt(text) == text_or_empty(
            match value {
                Some(v) => Some(v@),
                None => None,
            },
        ),
{
    match value {
        Some(v) => match v.as_str() {
            Some(text) => Some(text.to_owned()),
            None => None,
        },
        None => Some(String::new()),
    }
}

/// Reads a token file. A file of an early version has neither a gateway nor a fingerprint.
pub fn read_token(raw: &str) -> (token: Option<CachedToken>)
    ensures
        token_view(token) == file_token(raw@),
{
    match read_json(raw) {
        Ok(value) => {
            if has_member_twice(raw, "access_token") || has_member_twice(raw, "expires_at")
                || has_member_twice(raw, "base") || has_member_twice(raw, "app_key_fingerprint") {
                return None;
            }
            token_of(&value)
        },
        Err(_) => None,
    }
}

/// Reads the value of a token file.
pub fn token_of(value: &Json) -> (token: Option<CachedToken>)
    ensures
        token_view(token) == value_token(value@),
{
    if !value.has_parts(4) {
        return None;
    }
    let access_token = match value.get_text_part("access_token", 0) {
        Some(text) => text.to_owned(),
        None => return None,
    };
    let expires_at: i64 = match value.get_part("expires_at", 1) {
        Some(v) => match v.as_i64() {
            Some(at) => at,
            None => return None,
        },
        None => return None,
    };
    let base = match read_text_or_empty(value.get_part("base", 2)) {
        Some(text) => text,
        None => return None,
    };
    let app_key_fingerprint = match read_text_or_empty(value.get_part("app_key_fingerprint", 3)) {
        Some(text) => text,
        None => return None,
    };
    Some(CachedToken { access_token, expires_at, base, app_key_fingerprint })
}

/// What a token file says.
pub open spec fn token_body(token: TokenView) -> JsonView {
    JsonView::Object(
        seq![
            text_of("access_token"@, token.access_token),
            number_of("expires_at"@, signed_digits(token.expires_at as int)),
            text_of("base"@, token.base),
            text_of("app_key_fingerprint"@, token.app_key_fingerprint),
        ],
    )
}

/// A token as a value.
pub fn token_value(token: &CachedToken) -> (value: Json)
    ensures
        value@ == token_body(token@),
{
    let mut m: Vec<Member> = Vec::new();
    m.push(text_member("access_token", token.access_token.as_str()));
    m.push(number_member("expires_at", signed_decimal(token.expires_at)));
    m.push(text_member("base", token.base.as_str()));
    m.push(text_member("app_key_fingerprint", token.app_key_fingerprint.as_str()));
    let value = object(m);
    assert(value@->Object_0 =~= token_body(token@)->Object_0);
    value
}

/// The text of a token file. It reads back as the same token.
pub fn write_token(token: &CachedToken) -> (text: String)
    ensures
        text@ == written(token_body(token@)),
        file_token(text@) == Some(token@),
{
    let value = token_value(token);
    let text = write_json(&value);
    proof {
        lemma_token_says(token@);
        lemma_repeated_member(text@, "access_token"@);
        lemma_repeated_member(text@, "expires_at"@);
        lemma_repeated_member(text@, "base"@);
        lemma_repeated_member(text@, "app_key_fingerprint"@);
        let read = json_of(text@)->0;
        assert(says_the_same(read.field("access_token"@), value@.field("access_token"@)));
        assert(says_the_same(read.field("expires_at"@), value@.field("expires_at"@)));
        assert(says_the_same(read.field("base"@), value@.field("base"@)));
        assert(says_the_same(
            read.field("app_key_fingerprint"@),
            value@.field("app_key_fingerprint"@),
        ));
    }
    text
}

proof fn lemma_token_says(token: TokenView)
    ensures
        is_flat(token_body(token)),
        value_token(token_body(token)) == Some(token),
{
    reveal_strlit("access_token");
    reveal_strlit("expires_at");
    reveal_strlit("base");
    reveal_strlit("app_key_fingerprint");
    let value = token_body(token);
    let m = members_of(value);
    assert("access_token"@.len() == 12 && "expires_at"@.len() == 10 && "base"@.len() == 4);
    assert("app_key_fingerprint"@.len() == 19);
    lemma_number_says(m[1].1, token.expires_at);
    assert forall|i: int| 0 <= i < m.len() implies is_leaf((#[trigger] m[i]).1) by {
        assert(i == 0 || i == 1 || i == 2 || i == 3);
    }
    lemma_member_at(value, 0);
    lemma_member_at(value, 1);
    lemma_member_at(value, 2);
    lemma_member_at(value, 3);
}

/// Asks for keys of the socket, one for every connection: a key that no longer holds would have all
/// subscriptions turned away, again and again.
#[derive(Debug)]
pub struct ApprovalKeyIssuer {
    pub base: String,
    pub app_key: String,
    pub app_secret: String,
}

impl ApprovalKeyIssuer {
    /// Where a key is asked for.
    pub fn url(&self) -> (url: String)
        ensures
            url@ == self.base@ + "/oauth2/Approval"@,
    {
        joined(self.base.as_str(), "/oauth2/Approval")
    }

    /// What is sent for a key.
    pub fn request(&self) -> (body: Json)
        ensures
            body@ == credentials_body(self.app_key@, "secretkey"@, self.app_secret@),
    {
        credentials(self.app_key.as_str(), "secretkey", self.app_secret.as_str())
    }

    /// The key of a reply.
    pub fn read_key(&self, reply: &Json) -> (key: AppResult<String>)
        ensures
            match reply@.text_field("approval_key"@) {
                Some(text) => key matches Ok(k) && k@ == text,
                None => key matches Err(error) && is_kis(
                    error,
                    "approval_key 발급 실패: "@ + written(reply@),
                ),
            },
    {
        match reply.get_str("approval_key") {
            Some(text) => Ok(text.to_owned()),
            None => Err(
                AppError::Kis(joined("approval_key 발급 실패: ", write_json(reply).as_str())),
            ),
        }
    }
}

} // verus!
