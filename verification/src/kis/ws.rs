//! The broker's socket: subscriptions, their confirmation, and the frames that follow.

use vstd::prelude::*;

use crate::amounts::AMOUNT_LIMIT;
use crate::clock::{joined as joined_time, kst_str_to_fake_epoch, parsed_date, parsed_time};
use crate::error::{is_kis, AppError, AppResult};
use crate::json::{
    json_of, lemma_member_at, member, members_of, object, read_json, text_member, text_of, write_json, written, Json,
    JsonView, Member,
};
use crate::kis::crypto::{aes_cbc_decrypt, decrypted};
use crate::kis::numbers::{
    fine_of, finite, plain, plain_text, rate_of, read_finite, read_plain, to_fine, to_rate, to_whole, whole_of,
    write_plain,
};
use crate::seqs::{
    filter_mapped, filter_mapped_is_of_images, first_where, is_image, lemma_filter_mapped_step,
    lemma_first_where,
};
use crate::tables::rows;
use crate::text::{
    blank, comes_before, decimal, decimal_wide, digits, has_prefix, is_blank, is_digit, joined,
    lemma_digits_are_numeric, number, occurs_at, parse_u64, parsed_u64, precedes, same, split,
    split_fields, trim, trimmed, views,
};
use crate::types::{FeedEvent, FeedView, FillEvent, FillEventView, Nanos, Quote, QuoteView, Side};

verus! {

/// The least time between two subscriptions.
pub const SUBSCRIBE_INTERVAL: Nanos = 50_000_000;

/// How long subscriptions may stay unconfirmed.
pub const SUBSCRIBE_ACK_TIMEOUT: Nanos = 5_000_000_000;

/// What is subscribed to: a transaction, and its code or user.
pub type SubscriptionId = (String, String);

pub open spec fn sub_view(sub: SubscriptionId) -> (Seq<char>, Seq<char>) {
    (sub.0@, sub.1@)
}

pub open spec fn sub_views(subs: Seq<SubscriptionId>) -> Seq<(Seq<char>, Seq<char>)> {
    subs.map_values(|s: SubscriptionId| sub_view(s))
}

pub fn copy_sub(sub: &SubscriptionId) -> (copy: SubscriptionId)
    ensures
        sub_view(copy) == sub_view(*sub),
{
    (sub.0.clone(), sub.1.clone())
}

/// An answer to a subscription.
#[derive(Debug)]
pub struct SubscribeAck {
    pub tr_id: String,
    pub tr_key: String,
    pub success: bool,
    pub message: String,
    /// The key and the initial block that notices come encrypted with.
    pub aes_key_iv: Option<(String, String)>,
}

#[verifier::ext_equal]
pub struct SubscribeAckView {
    pub tr_id: Seq<char>,
    pub tr_key: Seq<char>,
    pub success: bool,
    pub message: Seq<char>,
    pub aes_key_iv: Option<(Seq<char>, Seq<char>)>,
}

pub open spec fn keys_view(keys: Option<(String, String)>) -> Option<(Seq<char>, Seq<char>)> {
    match keys {
        Some(pair) => Some((pair.0@, pair.1@)),
        None => None,
    }
}

impl View for SubscribeAck {
    type V = SubscribeAckView;

    open spec fn view(&self) -> SubscribeAckView {
        SubscribeAckView {
            tr_id: self.tr_id@,
            tr_key: self.tr_key@,
            success: self.success,
            message: self.message@,
            aes_key_iv: keys_view(self.aes_key_iv),
        }
    }
}

/// What a connection is made with.
#[derive(Debug)]
pub struct WsConfig {
    pub url: String,
    pub approval_key: String,
    /// Transactions and codes. A code for which both venues together send nothing is subscribed to
    /// at the exchange alone.
    pub subs: Vec<SubscriptionId>,
    /// The notices of fills, and whose.
    pub notice: Option<SubscriptionId>,
}

/// The waits between connections: a second, doubled up to half a minute, and a second again after a
/// connection that held for more than a minute.
#[derive(Debug, Clone, Copy, PartialEq, Eq, Structural)]
pub struct Backoff {
    pub seconds: u64,
}

impl Backoff {
    pub open spec fn wf(self) -> bool {
        1 <= self.seconds <= 30
    }

    /// The wait after a connection that held for so long.
    pub open spec fn wait(self, lasted: u64) -> u64 {
        if lasted > 60 {
            1
        } else {
            self.seconds
        }
    }

    pub fn new() -> (backoff: Self)
        ensures
            backoff.seconds == 1,
            backoff.wf(),
    {
        Backoff { seconds: 1 }
    }

    /// Takes in that a connection was lost, and says how many seconds to wait.
    pub fn lost(&mut self, lasted: u64) -> (wait: u64)
        requires
            old(self).wf(),
        ensures
            wait == old(self).wait(lasted),
            1 <= wait <= 30,
            final(self).wf(),
            final(self).seconds == (if 2 * wait <= 30 {
                2 * wait
            } else {
                30
            }),
    {
        let wait: u64 = if lasted > 60 {
            1
        } else {
            self.seconds
        };
        self.seconds = if 2 * wait <= 30 {
            2 * wait
        } else {
            30
        };
        wait
    }
}

/// How long to wait before a subscription is sent.
pub fn subscribe_delay(index: usize) -> (delay: Nanos)
    ensures
        delay == (if index > 0 {
            SUBSCRIBE_INTERVAL
        } else {
            0
        }),
{
    if index > 0 {
        SUBSCRIBE_INTERVAL
    } else {
        0
    }
}

/// What a subscription says.
pub open spec fn subscription_body(
    approval_key: Seq<char>,
    tr_id: Seq<char>,
    tr_key: Seq<char>,
) -> JsonView {
    let header = seq![
        text_of("approval_key"@, approval_key),
        text_of("custtype"@, "P"@),
        text_of("tr_type"@, "1"@),
        text_of("content-type"@, "utf-8"@),
    ];
    let input = seq![text_of("tr_id"@, tr_id), text_of("tr_key"@, tr_key)];
    JsonView::Object(
        seq![
            ("header"@, JsonView::Object(header)),
            ("body"@, JsonView::Object(seq![("input"@, JsonView::Object(input))])),
        ],
    )
}

/// A subscription as a value.
pub fn subscribe_value(approval_key: &str, tr_id: &str, tr_key: &str) -> (value: Json)
    ensures
        value@ == subscription_body(approval_key@, tr_id@, tr_key@),
{
    let ghost said = members_of(subscription_body(approval_key@, tr_id@, tr_key@));
    let ghost within = members_of(said[1].1);
    let mut header: Vec<Member> = Vec::new();
    header.push(text_member("approval_key", approval_key));
    header.push(text_member("custtype", "P"));
    header.push(text_member("tr_type", "1"));
    header.push(text_member("content-type", "utf-8"));
    assert(rows(header@) =~= members_of(said[0].1));
    let mut input: Vec<Member> = Vec::new();
    input.push(text_member("tr_id", tr_id));
    input.push(text_member("tr_key", tr_key));
    assert(rows(input@) =~= members_of(within[0].1));
    let mut body: Vec<Member> = Vec::new();
    body.push(member("input", object(input)));
    assert(rows(body@) =~= within);
    let mut m: Vec<Member> = Vec::new();
    m.push(member("header", object(header)));
    m.push(member("body", object(body)));
    assert(rows(m@) =~= said);
    object(m)
}

/// The text of a subscription.
pub fn subscribe_msg(approval_key: &str, tr_id: &str, tr_key: &str) -> (text: String)
    ensures
        text@ == written(subscription_body(approval_key@, tr_id@, tr_key@)),
{
    let value = subscribe_value(approval_key, tr_id, tr_key);
    write_json(&value)
}

/// All that a connection subscribes to.
pub fn required_subscriptions(cfg: &WsConfig) -> (subs: Vec<SubscriptionId>)
    ensures
        sub_views(subs@) == (match cfg.notice {
            Some(notice) => sub_views(cfg.subs@).push(sub_view(notice)),
            None => sub_views(cfg.subs@),
        }),
{
    let mut subs = copy_subs(&cfg.subs);
    if let Some(notice) = &cfg.notice {
        let ghost before = sub_views(subs@);
        let copy = copy_sub(notice);
        subs.push(copy);
        assert(sub_views(subs@) =~= before.push(sub_view(copy)));
    }
    subs
}

fn copy_subs(subs: &Vec<SubscriptionId>) -> (copy: Vec<SubscriptionId>)
    ensures
        sub_views(copy@) == sub_views(subs@),
{
    let mut copy: Vec<SubscriptionId> = Vec::new();
    let mut i: usize = 0;
    while i < subs.len()
        invariant
            i <= subs@.len(),
            sub_views(copy@) == sub_views(subs@).take(i as int),
        decreases subs@.len() - i,
    {
        let ghost before = sub_views(copy@);
        let one = copy_sub(&subs[i]);
        copy.push(one);
        i += 1;
        assert(sub_views(copy@) =~= before.push(sub_view(one)));
        assert(sub_views(subs@).take(i as int) =~= sub_views(subs@).take(i - 1).push(
            sub_views(subs@)[i - 1],
        ));
    }
    assert(sub_views(subs@).take(i as int) =~= sub_views(subs@));
    copy
}

/// Whether a subscription is the given one.
pub open spec fn is_sub(sub: (Seq<char>, Seq<char>)) -> spec_fn((Seq<char>, Seq<char>)) -> bool {
    |s: (Seq<char>, Seq<char>)| s == sub
}

/// Subscriptions without one.
pub open spec fn without(
    subs: Seq<(Seq<char>, Seq<char>)>,
    sub: (Seq<char>, Seq<char>),
) -> Seq<(Seq<char>, Seq<char>)> {
    let i = first_where(subs, is_sub(sub));
    if i < subs.len() {
        subs.remove(i)
    } else {
        subs
    }
}

/// Subscriptions, none twice.
pub open spec fn once_each(subs: Seq<(Seq<char>, Seq<char>)>) -> Seq<(Seq<char>, Seq<char>)>
    decreases subs.len(),
{
    if subs.len() == 0 {
        subs
    } else {
        let rest = once_each(subs.drop_last());
        if rest.contains(subs.last()) {
            rest
        } else {
            rest.push(subs.last())
        }
    }
}

fn find_sub(subs: &Vec<SubscriptionId>, tr_id: &str, tr_key: &str) -> (found: Option<usize>)
    ensures
        ({
            let i = first_where(sub_views(subs@), is_sub((tr_id@, tr_key@)));
            match found {
                Some(at) => at == i && at < subs@.len() && sub_views(subs@).contains(
                    (tr_id@, tr_key@),
                ),
                None => i == subs@.len() && !sub_views(subs@).contains((tr_id@, tr_key@)),
            }
        }),
{
    let ghost all = sub_views(subs@);
    let ghost p = is_sub((tr_id@, tr_key@));
    let mut i: usize = 0;
    while i < subs.len()
        invariant
            i <= subs@.len(),
            all == sub_views(subs@),
            p == is_sub((tr_id@, tr_key@)),
            forall|k: int| 0 <= k < i ==> !p(#[trigger] all[k]),
        decreases subs@.len() - i,
    {
        assert(all[i as int] == sub_view(subs@[i as int]));
        if same(subs[i].0.as_str(), tr_id) && same(subs[i].1.as_str(), tr_key) {
            assert(p(all[i as int]));
            proof {
                lemma_first_where(all, p, i as int);
            }
            return Some(i);
        }
        i += 1;
    }
    proof {
        lemma_first_where(all, p, i as int);
        assert forall|k: int| 0 <= k < all.len() implies all[k] != (tr_id@, tr_key@) by {
            assert(!p(all[k]));
        }
    }
    None
}

/// The failure of a subscription, as it is told.
pub open spec fn refusal(ack: SubscribeAckView) -> Seq<char> {
    "웹소켓 구독 실패("@ + ack.tr_id + "/"@ + ack.tr_key + "): "@ + ack.message
}

/// Takes in an answer: a subscription that succeeded is no longer open, and brings the keys that
/// came with it; one that failed is an error.
pub fn apply_subscribe_ack(
    pending: &mut Vec<SubscriptionId>,
    aes_key_iv: &mut Option<(String, String)>,
    ack: SubscribeAck,
) -> (result: AppResult<()>)
    ensures
        match result {
            Ok(_) => {
                &&& ack@.success
                &&& sub_views(final(pending)@) == without(
                    sub_views(old(pending)@),
                    (ack@.tr_id, ack@.tr_key),
                )
                &&& keys_view(*final(aes_key_iv)) == (if ack@.aes_key_iv is Some {
                    ack@.aes_key_iv
                } else {
                    keys_view(*old(aes_key_iv))
                })
            },
            Err(error) => {
                &&& !ack@.success
                &&& is_kis(error, refusal(ack@))
                &&& sub_views(final(pending)@) == sub_views(old(pending)@)
                &&& keys_view(*final(aes_key_iv)) == keys_view(*old(aes_key_iv))
            },
        },
{
    if !ack.success {
        let mut text = joined("웹소켓 구독 실패(", ack.tr_id.as_str());
        text.append("/");
        text.append(ack.tr_key.as_str());
        text.append("): ");
        text.append(ack.message.as_str());
        return Err(AppError::Kis(text));
    }
    let ghost before = sub_views(pending@);
    if let Some(i) = find_sub(pending, ack.tr_id.as_str(), ack.tr_key.as_str()) {
        pending.remove(i);
        assert(sub_views(pending@) =~= before.remove(i as int));
    }
    if let Some(keys) = ack.aes_key_iv {
        *aes_key_iv = Some(keys);
    }
    Ok(())
}

/// Texts in order with one more, after all that it does not come before.
pub open spec fn with_text(sorted: Seq<Seq<char>>, text: Seq<char>) -> Seq<Seq<char>> {
    sorted.insert(first_where(sorted, |t: Seq<char>| precedes(text, t)), text)
}

/// Subscriptions as texts, in order.
pub open spec fn sub_texts(subs: Seq<(Seq<char>, Seq<char>)>) -> Seq<Seq<char>>
    decreases subs.len(),
{
    if subs.len() == 0 {
        Seq::empty()
    } else {
        with_text(
            sub_texts(subs.drop_last()),
            subs.last().0 + "/"@ + subs.last().1,
        )
    }
}

/// Texts with a comma between them.
pub open spec fn listed(texts: Seq<Seq<char>>) -> Seq<char>
    decreases texts.len(),
{
    if texts.len() == 0 {
        Seq::empty()
    } else if texts.len() == 1 {
        texts[0]
    } else {
        listed(texts.drop_last()) + ", "@ + texts.last()
    }
}

fn insert_text(texts: &mut Vec<String>, text: String)
    ensures
        views(final(texts)@) == with_text(views(old(texts)@), text@),
{
    let ghost before = views(texts@);
    let ghost p = |t: Seq<char>| precedes(text@, t);
    let mut at: usize = 0;
    while at < texts.len() && !comes_before(text.as_str(), texts[at].as_str())
        invariant
            at <= texts@.len(),
            before == views(texts@),
            p == (|t: Seq<char>| precedes(text@, t)),
            forall|k: int| 0 <= k < at ==> !p(#[trigger] before[k]),
        decreases texts@.len() - at,
    {
        assert(before[at as int] == texts@[at as int]@);
        at += 1;
    }
    proof {
        if at < texts@.len() {
            assert(before[at as int] == texts@[at as int]@);
        }
        lemma_first_where(before, p, at as int);
    }
    let ghost said = text@;
    texts.insert(at, text);
    assert(views(texts@) =~= before.insert(at as int, said));
}

/// The subscriptions that are still open, in the order of their texts.
pub fn pending_subscriptions(pending: &Vec<SubscriptionId>) -> (text: String)
    ensures
        text@ == listed(sub_texts(sub_views(pending@))),
{
    let ghost all = sub_views(pending@);
    let mut texts: Vec<String> = Vec::new();
    let mut i: usize = 0;
    assert(all.take(0) =~= Seq::empty());
    assert(views(texts@) =~= Seq::empty());
    while i < pending.len()
        invariant
            i <= pending@.len(),
            all == sub_views(pending@),
            views(texts@) == sub_texts(all.take(i as int)),
        decreases pending@.len() - i,
    {
        assert(all.take(i + 1).drop_last() =~= all.take(i as int));
        assert(all[i as int] == sub_view(pending@[i as int]));
        let mut text = joined(pending[i].0.as_str(), "/");
        text.append(pending[i].1.as_str());
        insert_text(&mut texts, text);
        i += 1;
    }
    assert(all.take(i as int) =~= all);
    let ghost told = views(texts@);
    let mut text = String::new();
    let mut k: usize = 0;
    assert(told.take(0) =~= Seq::empty());
    assert(text@ =~= Seq::empty());
    while k < texts.len()
        invariant
            k <= texts@.len(),
            told == views(texts@),
            text@ == listed(told.take(k as int)),
        decreases texts@.len() - k,
    {
        assert(told.take(k + 1).drop_last() =~= told.take(k as int));
        assert(told[k as int] == texts@[k as int]@);
        if k > 0 {
            text.append(", ");
        }
        text.append(texts[k].as_str());
        assert(text@ =~= listed(told.take(k + 1)));
        k += 1;
    }
    assert(told.take(k as int) =~= told);
    text
}

/// Whether a text is the broker's sign of life, which is sent back as it came.
pub open spec fn pingpong(text: Seq<char>) -> bool {
    match json_of(text) {
        Some(v) => signs_of_life(v),
        None => false,
    }
}

/// Whether a message is the broker's sign of life.
pub open spec fn signs_of_life(v: JsonView) -> bool {
    v.nested("header"@, "tr_id"@) matches Some(id) && id.text() == Some("PINGPONG"@)
}

/// Whether a text is the broker's sign of life.
pub fn is_pingpong(txt: &str) -> (yes: bool)
    ensures
        yes == pingpong(txt@),
{
    match read_json(txt) {
        Ok(v) => is_sign_of_life(&v),
        Err(_) => false,
    }
}

/// Whether a message is the broker's sign of life.
pub fn is_sign_of_life(v: &Json) -> (yes: bool)
    ensures
        yes == signs_of_life(v@),
{
    match v.get_nested("header", "tr_id") {
        Some(id) => match id.as_str() {
            Some(text) => same(text, "PINGPONG"),
            None => false,
        },
        None => false,
    }
}

/// The text of a member of a member.
pub open spec fn nested_text(v: JsonView, outer: Seq<char>, inner: Seq<char>) -> Option<Seq<char>> {
    match v.nested(outer, inner) {
        Some(value) => value.text(),
        None => None,
    }
}

fn get_nested_text<'a>(v: &'a Json, outer: &str, inner: &str) -> (text: Option<&'a str>)
    ensures
        match text {
            Some(t) => nested_text(v@, outer@, inner@) == Some(t@),
            None => nested_text(v@, outer@, inner@) is None,
        },
{
    match v.get_nested(outer, inner) {
        Some(value) => value.as_str(),
        None => None,
    }
}

/// The keys that an answer brings.
pub open spec fn ack_keys(v: JsonView) -> Option<(Seq<char>, Seq<char>)> {
    match v.nested("body"@, "output"@) {
        Some(output) => match (output.text_field("key"@), output.text_field("iv"@)) {
            (Some(key), Some(iv)) => Some((key, iv)),
            _ => None,
        },
        None => None,
    }
}

/// The answer to a subscription that a value is.
pub open spec fn ack_of(v: JsonView) -> Option<SubscribeAckView> {
    match (nested_text(v, "body"@, "rt_cd"@), nested_text(v, "header"@, "tr_id"@)) {
        (Some(code), Some(tr_id)) => Some(
            SubscribeAckView {
                tr_id,
                tr_key: match nested_text(v, "header"@, "tr_key"@) {
                    Some(key) => key,
                    None => "?"@,
                },
                success: code == "0"@,
                message: trimmed(
                    match nested_text(v, "body"@, "msg1"@) {
                        Some(message) => message,
                        None => "(메시지 없음)"@,
                    },
                ),
                aes_key_iv: ack_keys(v),
            },
        ),
        _ => None,
    }
}

pub open spec fn ack_view(ack: Option<SubscribeAck>) -> Option<SubscribeAckView> {
    match ack {
        Some(ack) => Some(ack@),
        None => None,
    }
}

/// Reads the answer to a subscription from a value.
pub fn read_ack(v: &Json) -> (ack: Option<SubscribeAck>)
    ensures
        ack_view(ack) == ack_of(v@),
{
    let success = match get_nested_text(v, "body", "rt_cd") {
        Some(code) => same(code, "0"),
        None => return None,
    };
    let tr_id = match get_nested_text(v, "header", "tr_id") {
        Some(id) => id.to_owned(),
        None => return None,
    };
    let tr_key = match get_nested_text(v, "header", "tr_key") {
        Some(key) => key.to_owned(),
        None => "?".to_owned(),
    };
    let message = match get_nested_text(v, "body", "msg1") {
        Some(message) => trim(message),
        None => trim("(메시지 없음)"),
    };
    let aes_key_iv = match v.get_nested("body", "output") {
        Some(output) => match (output.get_str("key"), output.get_str("iv")) {
            (Some(key), Some(iv)) => Some((key.to_owned(), iv.to_owned())),
            _ => None,
        },
        None => None,
    };
    Some(SubscribeAck { tr_id, tr_key, success, message, aes_key_iv })
}

/// The answer to a subscription that a text is.
pub open spec fn ack_of_text(text: Seq<char>) -> Option<SubscribeAckView> {
    match json_of(text) {
        Some(v) => ack_of(v),
        None => None,
    }
}

/// Reads the answer to a subscription.
pub fn subscribe_ack(txt: &str) -> (ack: Option<SubscribeAck>)
    ensures
        ack_view(ack) == ack_of_text(txt@),
{
    match read_json(txt) {
        Ok(v) => read_ack(&v),
        Err(_) => None,
    }
}

/// A number among fields: zero where the field is missing or no number. In billionths.
pub open spec fn number_at(fields: Seq<Seq<char>>, i: int) -> int {
    if i < fields.len() {
        match plain(trimmed(fields[i])) {
            Some(n) => n,
            None => 0,
        }
    } else {
        0
    }
}

fn read_at(fields: &Vec<String>, from: usize, per: usize, i: usize) -> (n: i128)
    requires
        from + per <= fields@.len(),
    ensures
        n == number_at(views(fields@).subrange(from as int, from + per), i as int),
        -(AMOUNT_LIMIT as int) <= n <= AMOUNT_LIMIT,
{
    assert(fields.len() <= usize::MAX);
    if i >= per {
        return 0;
    }
    assert(views(fields@).subrange(from as int, from + per)[i as int] == fields@[from + i]@);
    match read_plain(trim(fields[from + i].as_str()).as_str()) {
        Some(n) => n,
        None => 0,
    }
}

/// The records of a payload: as many as it says, each with the same number of fields. What is left
/// over belongs to none.
pub open spec fn records(payload: Seq<char>, count: nat) -> Seq<Seq<Seq<char>>> {
    let fields = split_fields(payload, '^');
    let per = fields.len() / count;
    if per == 0 {
        Seq::empty()
    } else {
        Seq::new(count, |r: int| fields.subrange(r * per, (r + 1) * per))
    }
}

/// The trade that a record tells of: none without a code or with a time that cannot be read. The
/// running total of shares tells trades apart, because it grows with each and stays when a frame is
/// sent again. A trade says nothing of when the book came.
pub open spec fn tick_of(today: Seq<char>, micros: u64) -> spec_fn(Seq<Seq<char>>) -> Option<FeedView> {
    |f: Seq<Seq<char>>|
        tick_row(f, joined_time(parsed_date(today), parsed_time(f[1])), micros)
}

/// The trade that a record tells of, given the time that its own comes to.
pub open spec fn tick_row(f: Seq<Seq<char>>, at: Option<i64>, micros: u64) -> Option<FeedView> {
    if f.len() < 2 || f[0].len() == 0 {
        None
    } else {
        match at {
            Some(ts) => Some(
                FeedView::Quote(
                    QuoteView {
                        code: f[0],
                        price: whole_of(number_at(f, 2)),
                        change_rate: rate_of(number_at(f, 5)),
                        ask1: whole_of(number_at(f, 10)),
                        bid1: whole_of(number_at(f, 11)),
                        ask1_qty: 0,
                        bid1_qty: 0,
                        volume: whole_of(number_at(f, 12)),
                        trade_sequence: whole_of(number_at(f, 13)),
                        received_at_micros: micros,
                        trade_ts: ts,
                        book_ts: 0,
                    },
                ),
            ),
            None => None,
        }
    }
}

/// The top of the book that a record tells of.
pub open spec fn book_of(today: Seq<char>) -> spec_fn(Seq<Seq<char>>) -> Option<FeedView> {
    |f: Seq<Seq<char>>| book_row(f, joined_time(parsed_date(today), parsed_time(f[1])))
}

/// The top of the book that a record tells of, given the time that its own comes to.
pub open spec fn book_row(f: Seq<Seq<char>>, at: Option<i64>) -> Option<FeedView> {
    if f.len() < 2 || f[0].len() == 0 {
        None
    } else {
        match at {
            Some(ts) => Some(
                FeedView::Book {
                    code: f[0],
                    ask1: whole_of(number_at(f, 3)),
                    bid1: whole_of(number_at(f, 13)),
                    ask1_qty: whole_of(number_at(f, 23)),
                    bid1_qty: whole_of(number_at(f, 33)),
                    ts,
                },
            ),
            None => None,
        }
    }
}

pub open spec fn event_view(event: Option<FeedEvent>) -> Option<FeedView> {
    match event {
        Some(event) => Some(event@),
        None => None,
    }
}

fn record_time(fields: &Vec<String>, from: usize, per: usize, today: &str) -> (at: Option<i64>)
    requires
        from + per <= fields@.len(),
    ensures
        per >= 2 ==> at == joined_time(
            parsed_date(today@),
            parsed_time(views(fields@).subrange(from as int, from + per)[1]),
        ),
{
    assert(fields.len() <= usize::MAX);
    if per < 2 {
        return None;
    }
    assert(views(fields@).subrange(from as int, from + per)[1] == fields@[from + 1]@);
    kst_str_to_fake_epoch(today, fields[from + 1].as_str())
}

/// Reads the trade of a record, which begins at a place of the fields, given the time that its own
/// comes to.
pub fn tick_at(fields: &Vec<String>, from: usize, per: usize, at: Option<i64>, micros: u64) -> (event:
    Option<FeedEvent>)
    requires
        from + per <= fields@.len(),
    ensures
        event_view(event) == tick_row(
            views(fields@).subrange(from as int, from + per),
            at,
            micros,
        ),
{
    assert(fields.len() <= usize::MAX);
    let ghost f = views(fields@).subrange(from as int, from + per);
    if per < 2 {
        return None;
    }
    assert(f[0] == fields@[from as int]@);
    if fields[from].as_str().unicode_len() == 0 {
        return None;
    }
    match at {
        Some(ts) => Some(
            FeedEvent::Quote(
                Quote {
                    code: fields[from].clone(),
                    price: to_whole(read_at(fields, from, per, 2)),
                    change_rate: to_rate(read_at(fields, from, per, 5)),
                    ask1: to_whole(read_at(fields, from, per, 10)),
                    bid1: to_whole(read_at(fields, from, per, 11)),
                    ask1_qty: 0,
                    bid1_qty: 0,
                    volume: to_whole(read_at(fields, from, per, 12)),
                    trade_sequence: to_whole(read_at(fields, from, per, 13)),
                    received_at_micros: micros,
                    trade_ts: ts,
                    book_ts: 0,
                },
            ),
        ),
        None => None,
    }
}

/// Reads the top of the book of a record, which begins at a place of the fields, given the time that
/// its own comes to.
pub fn book_at(fields: &Vec<String>, from: usize, per: usize, at: Option<i64>) -> (event: Option<
    FeedEvent,
>)
    requires
        from + per <= fields@.len(),
    ensures
        event_view(event) == book_row(views(fields@).subrange(from as int, from + per), at),
{
    assert(fields.len() <= usize::MAX);
    let ghost f = views(fields@).subrange(from as int, from + per);
    if per < 2 {
        return None;
    }
    assert(f[0] == fields@[from as int]@);
    if fields[from].as_str().unicode_len() == 0 {
        return None;
    }
    match at {
        Some(ts) => Some(
            FeedEvent::Book {
                code: fields[from].clone(),
                ask1: to_whole(read_at(fields, from, per, 3)),
                bid1: to_whole(read_at(fields, from, per, 13)),
                ask1_qty: to_whole(read_at(fields, from, per, 23)),
                bid1_qty: to_whole(read_at(fields, from, per, 33)),
                ts,
            },
        ),
        None => None,
    }
}

proof fn lemma_record_bounds(n: int, count: int, per: int, r: int)
    requires
        count > 0,
        n >= 0,
        per == n / count,
        0 <= r < count,
    ensures
        0 <= r * per,
        r * per + per <= n,
        (r + 1) * per == r * per + per,
{
    assert(per * count <= n && 0 <= per) by (nonlinear_arith)
        requires
            per == n / count,
            count > 0,
            n >= 0,
    ;
    assert(0 <= r * per && r * per + per <= per * count && (r + 1) * per == r * per + per)
        by (nonlinear_arith)
        requires
            0 <= r < count,
            0 <= per,
    ;
}

/// Reads trades: code, time, price, rate, ask, bid, shares and the day's shares at the first,
/// second, third, sixth, eleventh, twelfth, thirteenth and fourteenth place of each record.
pub fn parse_ticks(payload: &str, cnt: usize, today: &str, micros: u64) -> (events: Vec<FeedEvent>)
    requires
        cnt > 0,
    ensures
        rows(events@) == filter_mapped(records(payload@, cnt as nat), tick_of(today@, micros)),
{
    let fields = split(payload, '^');
    let ghost all = views(fields@);
    let ghost told = records(payload@, cnt as nat);
    let ghost f = tick_of(today@, micros);
    let mut events: Vec<FeedEvent> = Vec::new();
    assert(rows(events@) =~= Seq::empty());
    let n: usize = fields.len();
    let per: usize = n / cnt;
    if per == 0 {
        return events;
    }
    let mut r: usize = 0;
    assert(told.take(0) =~= Seq::empty());
    while r < cnt
        invariant
            r <= cnt,
            cnt > 0,
            n == fields@.len(),
            per == n / cnt,
            per > 0,
            all == views(fields@),
            all == split_fields(payload@, '^'),
            told == records(payload@, cnt as nat),
            told.len() == cnt,
            f == tick_of(today@, micros),
            rows(events@) == filter_mapped(told.take(r as int), f),
        decreases cnt - r,
    {
        proof {
            lemma_record_bounds(n as int, cnt as int, per as int, r as int);
            lemma_filter_mapped_step(told, f, r as int);
            assert(told[r as int] == all.subrange(r * per, r * per + per));
        }
        let ghost before = rows(events@);
        let from: usize = r * per;
        let at = record_time(&fields, from, per, today);
        if let Some(event) = tick_at(&fields, from, per, at, micros) {
            events.push(event);
            assert(rows(events@) =~= before.push(event@));
        }
        r += 1;
    }
    assert(told.take(r as int) =~= told);
    events
}

/// Reads the tops of books: code, time, ask, bid, and the shares at each at the first, second,
/// fourth, fourteenth, twenty-fourth and thirty-fourth place of each record.
pub fn parse_books(payload: &str, cnt: usize, today: &str) -> (events: Vec<FeedEvent>)
    requires
        cnt > 0,
    ensures
        rows(events@) == filter_mapped(records(payload@, cnt as nat), book_of(today@)),
{
    let fields = split(payload, '^');
    let ghost all = views(fields@);
    let ghost told = records(payload@, cnt as nat);
    let ghost f = book_of(today@);
    let mut events: Vec<FeedEvent> = Vec::new();
    assert(rows(events@) =~= Seq::empty());
    let n: usize = fields.len();
    let per: usize = n / cnt;
    if per == 0 {
        return events;
    }
    let mut r: usize = 0;
    assert(told.take(0) =~= Seq::empty());
    while r < cnt
        invariant
            r <= cnt,
            cnt > 0,
            n == fields@.len(),
            per == n / cnt,
            per > 0,
            all == views(fields@),
            all == split_fields(payload@, '^'),
            told == records(payload@, cnt as nat),
            told.len() == cnt,
            f == book_of(today@),
            rows(events@) == filter_mapped(told.take(r as int), f),
        decreases cnt - r,
    {
        proof {
            lemma_record_bounds(n as int, cnt as int, per as int, r as int);
            lemma_filter_mapped_step(told, f, r as int);
            assert(told[r as int] == all.subrange(r * per, r * per + per));
        }
        let ghost before = rows(events@);
        let from: usize = r * per;
        let at = record_time(&fields, from, per, today);
        if let Some(event) = book_at(&fields, from, per, at) {
            events.push(event);
            assert(rows(events@) =~= before.push(event@));
        }
        r += 1;
    }
    assert(told.take(r as int) =~= told);
    events
}

/// When a notice came: the wall clock, and its number among the notices of this process. Notices
/// have no number of their own, and two fills of one second, quantity and price must stay two.
#[derive(Debug, Clone, Copy, PartialEq, Eq, Structural)]
pub struct NoticeStamp {
    pub received_nanos: u128,
    pub receive_sequence: u64,
}

/// What a fill of a notice is known by.
pub open spec fn notice_id(order_no: Seq<char>, time: Seq<char>, stamp: NoticeStamp) -> Seq<char> {
    "ws-notice:"@ + order_no + ":"@ + time + ":"@ + digits(stamp.received_nanos as nat) + ":"@
        + digits(stamp.receive_sequence as nat)
}

/// The fill that a notice tells of: none for a notice of anything else, for one that was refused,
/// and where the side, the shares, the price, the order, the code or the time cannot be read.
pub open spec fn notice_fill(text: Seq<char>, today: Seq<char>, stamp: NoticeStamp) -> Option<
    FillEventView,
> {
    let f = split_fields(text, '^');
    notice_row(f, joined_time(parsed_date(today), parsed_time(f[11])), stamp)
}

/// The fill that the fields of a notice tell of, given the time that its own comes to.
pub open spec fn notice_row(f: Seq<Seq<char>>, at: Option<i64>, stamp: NoticeStamp) -> Option<
    FillEventView,
> {
    if f.len() < 14 || f[12] != "0"@ || f[13] != "2"@ {
        None
    } else {
        let side = if f[4] == "01"@ {
            Some(Side::Sell)
        } else if f[4] == "02"@ {
            Some(Side::Buy)
        } else {
            None
        };
        match (
            parsed_u64(trimmed(f[9])),
            finite(trimmed(f[10])),
            side,
            at,
        ) {
            (Some(qty), Some(price), Some(side), Some(filled_at)) => if qty == 0 || price <= 0
                || blank(f[2]) || blank(f[8]) {
                None
            } else {
                Some(
                    FillEventView {
                        fill_id: notice_id(f[2], f[11], stamp),
                        order_no: f[2],
                        original_order_no: f[3],
                        org_no: Seq::empty(),
                        code: f[8],
                        side,
                        qty,
                        price: fine_of(price),
                        filled_at,
                        status: "filled"@,
                    },
                )
            },
            _ => None,
        }
    }
}

pub open spec fn fill_view(fill: Option<FillEvent>) -> Option<FillEventView> {
    match fill {
        Some(fill) => Some(fill@),
        None => None,
    }
}

/// Reads the fill of a notice: order, first order, side, code, shares, price, time, refusal and kind
/// at the third, fourth, fifth and ninth to fourteenth place.
pub fn parse_notice(plain_notice: &str, today: &str, stamp: NoticeStamp) -> (fill: Option<FillEvent>)
    ensures
        fill_view(fill) == notice_fill(plain_notice@, today@, stamp),
{
    let f = split(plain_notice, '^');
    let ghost all = split_fields(plain_notice@, '^');
    assert(f@.len() == all.len());
    assert(forall|i: int| 0 <= i < f@.len() ==> #[trigger] f@[i]@ == all[i]);
    assert(views(f@) =~= all);
    if f.len() < 14 {
        return None;
    }
    let at = kst_str_to_fake_epoch(today, f[11].as_str());
    notice_at(&f, at, stamp)
}

/// Reads the fill of a notice's fields, given the time that its own comes to.
pub fn notice_at(f: &Vec<String>, at: Option<i64>, stamp: NoticeStamp) -> (fill: Option<FillEvent>)
    ensures
        fill_view(fill) == notice_row(views(f@), at, stamp),
{
    let ghost all = views(f@);
    assert(forall|i: int| 0 <= i < f@.len() ==> #[trigger] f@[i]@ == all[i]);
    if f.len() < 14 {
        return None;
    }
    if !same(f[12].as_str(), "0") || !same(f[13].as_str(), "2") {
        return None;
    }
    let qty: u64 = match parse_u64(trim(f[9].as_str()).as_str()) {
        Some(qty) => qty,
        None => return None,
    };
    let price: i128 = match read_finite(trim(f[10].as_str()).as_str()) {
        Some(price) => price,
        None => return None,
    };
    let side = if same(f[4].as_str(), "01") {
        Side::Sell
    } else if same(f[4].as_str(), "02") {
        Side::Buy
    } else {
        return None;
    };
    if qty == 0 || price <= 0 || is_blank(f[2].as_str()) || is_blank(f[8].as_str()) {
        return None;
    }
    let filled_at: i64 = match at {
        Some(at) => at,
        None => return None,
    };
    let mut fill_id = joined("ws-notice:", f[2].as_str());
    fill_id.append(":");
    fill_id.append(f[11].as_str());
    fill_id.append(":");
    fill_id.append(decimal_wide(stamp.received_nanos).as_str());
    fill_id.append(":");
    fill_id.append(decimal(stamp.receive_sequence).as_str());
    Some(
        FillEvent {
            fill_id,
            order_no: f[2].clone(),
            original_order_no: f[3].clone(),
            org_no: String::new(),
            code: f[8].clone(),
            side,
            qty,
            price: to_fine(price),
            filled_at,
            status: "filled".to_owned(),
        },
    )
}

proof fn lemma_last_number(a: Seq<char>, m: nat, b: Seq<char>, n: nat)
    requires
        a + ":"@ + digits(m) == b + ":"@ + digits(n),
        digits(m).len() <= digits(n).len(),
    ensures
        m == n,
{
    reveal_strlit(":");
    lemma_digits_are_numeric(m);
    lemma_digits_are_numeric(n);
    let x = a + ":"@ + digits(m);
    let y = b + ":"@ + digits(n);
    let p = digits(m);
    let q = digits(n);
    if p.len() < q.len() {
        let at = x.len() - p.len() - 1;
        assert(x[at] == ':');
        let k = at - b.len() - 1;
        assert(y[at] == q[k]);
        assert(is_digit(q[k]));
        assert(false);
    }
    assert forall|i: int| 0 <= i < p.len() implies p[i] == q[i] by {
        assert(x[x.len() - p.len() + i] == p[i]);
        assert(y[y.len() - q.len() + i] == q[i]);
    }
    assert(p =~= q);
    assert(number(p) == number(q));
}

/// Notices that came one after the other are told apart, whatever they say.
pub proof fn notices_stay_apart(
    order_a: Seq<char>,
    time_a: Seq<char>,
    a: NoticeStamp,
    order_b: Seq<char>,
    time_b: Seq<char>,
    b: NoticeStamp,
)
    requires
        a.receive_sequence != b.receive_sequence,
    ensures
        notice_id(order_a, time_a, a) != notice_id(order_b, time_b, b),
{
    if notice_id(order_a, time_a, a) == notice_id(order_b, time_b, b) {
        let p = "ws-notice:"@ + order_a + ":"@ + time_a + ":"@ + digits(a.received_nanos as nat);
        let q = "ws-notice:"@ + order_b + ":"@ + time_b + ":"@ + digits(b.received_nanos as nat);
        let m = a.receive_sequence as nat;
        let n = b.receive_sequence as nat;
        if digits(m).len() <= digits(n).len() {
            lemma_last_number(p, m, q, n);
        } else {
            lemma_last_number(q, n, p, m);
        }
    }
}

/// The parts of a frame: whether it is encrypted, its transaction, how many records it holds, and
/// what they say, which may hold the mark itself.
pub open spec fn frame_parts(text: Seq<char>) -> Option<(Seq<char>, Seq<char>, Seq<char>, Seq<char>)> {
    let fields = split_fields(text, '|');
    if fields.len() < 4 {
        None
    } else {
        Some(
            (
                fields[0],
                fields[1],
                fields[2],
                text.skip((fields[0].len() + fields[1].len() + fields[2].len() + 3) as int),
            ),
        )
    }
}

/// How many records a frame holds: one where it does not say.
pub open spec fn record_count(text: Seq<char>) -> nat {
    match parsed_u64(text) {
        Some(n) => if 1 <= n <= usize::MAX {
            n as nat
        } else {
            1
        },
        None => 1,
    }
}

fn read_count(text: &str) -> (count: usize)
    ensures
        count == record_count(text@),
        count > 0,
{
    match parse_u64(text) {
        Some(n) => if 1 <= n && n <= usize::MAX as u64 {
            n as usize
        } else {
            1
        },
        None => 1,
    }
}

/// What frames are read with: the day, the process's own clock, and the stamp of a notice.
#[derive(Debug)]
pub struct FrameClock {
    /// Written `YYYYMMDD`.
    pub today: String,
    pub micros: u64,
    pub stamp: NoticeStamp,
}

/// The events of a frame. A notice that cannot be decrypted gives none.
pub open spec fn frame_events(
    text: Seq<char>,
    keys: Option<(Seq<char>, Seq<char>)>,
    today: Seq<char>,
    micros: u64,
    stamp: NoticeStamp,
) -> Seq<FeedView> {
    match frame_parts(text) {
        Some((flag, tr_id, count, payload)) => {
            if tr_id == "H0STCNT0"@ || tr_id == "H0UNCNT0"@ {
                filter_mapped(records(payload, record_count(count)), tick_of(today, micros))
            } else if tr_id == "H0STASP0"@ || tr_id == "H0UNASP0"@ {
                filter_mapped(records(payload, record_count(count)), book_of(today))
            } else if tr_id == "H0STCNI0"@ {
                let said = if flag == "1"@ {
                    match keys {
                        Some((key, iv)) => decrypted(key, iv, payload),
                        None => None,
                    }
                } else {
                    Some(payload)
                };
                match said {
                    Some(said) => match notice_fill(said, today, stamp) {
                        Some(fill) => seq![FeedView::Fill(fill)],
                        None => Seq::empty(),
                    },
                    None => Seq::empty(),
                }
            } else {
                Seq::empty()
            }
        },
        None => Seq::empty(),
    }
}

/// The length of some fields and the marks behind them.
spec fn span(fields: Seq<Seq<char>>, n: int) -> int
    decreases n,
{
    if n <= 0 {
        0
    } else {
        span(fields, n - 1) + fields[n - 1].len() + 1
    }
}

proof fn lemma_span_same(a: Seq<Seq<char>>, b: Seq<Seq<char>>, n: int)
    requires
        0 <= n,
        forall|i: int| 0 <= i < n ==> a[i] == b[i],
    ensures
        span(a, n) == span(b, n),
    decreases n,
{
    if n > 0 {
        lemma_span_same(a, b, n - 1);
    }
}

proof fn lemma_split_span(text: Seq<char>, mark: char)
    ensures
        span(split_fields(text, mark), split_fields(text, mark).len() as int) == text.len() + 1,
        split_fields(text, mark).len() >= 1,
    decreases text.len(),
{
    let whole = split_fields(text, mark);
    if text.len() > 0 {
        let front = text.drop_last();
        lemma_split_span(front, mark);
        let part = split_fields(front, mark);
        if text.last() == mark {
            lemma_span_same(part, whole, part.len() as int);
        } else {
            lemma_span_same(part, whole, part.len() - 1);
        }
    } else {
        assert(whole =~= seq![Seq::<char>::empty()]);
        reveal_with_fuel(span, 3);
    }
}

/// Cuts a frame into its parts.
fn cut_frame(text: &str) -> (parts: Option<(String, String, String, String)>)
    ensures
        match parts {
            Some((flag, tr_id, count, payload)) => frame_parts(text@) == Some(
                (flag@, tr_id@, count@, payload@),
            ),
            None => frame_parts(text@) is None,
        },
{
    let fields = split(text, '|');
    let ghost all = split_fields(text@, '|');
    assert(fields@.len() == all.len());
    assert(forall|i: int| 0 <= i < fields@.len() ==> #[trigger] fields@[i]@ == all[i]);
    if fields.len() < 4 {
        return None;
    }
    let mut payload = fields[3].clone();
    let mut i: usize = 4;
    proof {
        lemma_split_join(text@, '|', 3);
    }
    while i < fields.len()
        invariant
            4 <= i <= fields@.len(),
            all == split_fields(text@, '|'),
            fields@.len() == all.len(),
            forall|k: int| 0 <= k < fields@.len() ==> #[trigger] fields@[k]@ == all[k],
            payload@ == rejoined(all, '|', 3, i as int),
        decreases fields@.len() - i,
    {
        payload.push('|');
        payload.append(fields[i].as_str());
        i += 1;
    }
    proof {
        reveal_with_fuel(span, 4);
    }
    Some((fields[0].clone(), fields[1].clone(), fields[2].clone(), payload))
}

/// Fields from one on, with the marks between them.
spec fn rejoined(fields: Seq<Seq<char>>, mark: char, from: int, to: int) -> Seq<char>
    decreases to - from,
{
    if to <= from + 1 {
        fields[from]
    } else {
        rejoined(fields, mark, from, to - 1).push(mark) + fields[to - 1]
    }
}

proof fn lemma_rejoined_same(
    a: Seq<Seq<char>>,
    b: Seq<Seq<char>>,
    mark: char,
    from: int,
    to: int,
)
    requires
        0 <= from < to,
        forall|i: int| from <= i < to ==> a[i] == b[i],
    ensures
        rejoined(a, mark, from, to) == rejoined(b, mark, from, to),
    decreases to - from,
{
    if to > from + 1 {
        lemma_rejoined_same(a, b, mark, from, to - 1);
    }
}

/// Fields joined again from one on are the text from that field on.
proof fn lemma_split_join(text: Seq<char>, mark: char, from: int)
    requires
        0 <= from < split_fields(text, mark).len(),
    ensures
        0 <= span(split_fields(text, mark), from) <= text.len(),
        text.skip(span(split_fields(text, mark), from)) == rejoined(
            split_fields(text, mark),
            mark,
            from,
            split_fields(text, mark).len() as int,
        ),
    decreases text.len(),
{
    let whole = split_fields(text, mark);
    let n = whole.len() as int;
    if text.len() == 0 {
        assert(whole =~= seq![Seq::<char>::empty()]);
        assert(text.skip(0) =~= text);
        assert(text =~= Seq::<char>::empty());
    } else {
        let front = text.drop_last();
        let part = split_fields(front, mark);
        let k = part.len() as int;
        crate::text::lemma_split_has_a_field(front, mark);
        if text.last() == mark {
            if from < k {
                lemma_split_join(front, mark, from);
                lemma_span_same(part, whole, from);
                lemma_rejoined_same(part, whole, mark, from, k);
                assert(text.skip(span(whole, from)) =~= front.skip(span(part, from)).push(mark));
                assert(rejoined(whole, mark, from, n) =~= rejoined(whole, mark, from, k).push(
                    mark,
                ));
            } else {
                lemma_split_span(front, mark);
                lemma_span_same(part, whole, k);
                assert(span(whole, from) == text.len());
                assert(text.skip(text.len() as int) =~= Seq::empty());
            }
        } else {
            lemma_split_join(front, mark, from);
            lemma_span_same(part, whole, from);
            assert(text.skip(span(whole, from)) =~= front.skip(span(part, from)).push(
                text.last(),
            ));
            if from < k - 1 {
                lemma_rejoined_same(part, whole, mark, from, k - 1);
                assert(rejoined(whole, mark, from, n) =~= rejoined(part, mark, from, k).push(
                    text.last(),
                ));
            }
        }
    }
}

fn one_event(fill: Option<FillEvent>) -> (events: Vec<FeedEvent>)
    ensures
        rows(events@) == (match fill {
            Some(fill) => seq![FeedView::Fill(fill@)],
            None => Seq::empty(),
        }),
{
    let mut events: Vec<FeedEvent> = Vec::new();
    match fill {
        Some(fill) => {
            let ghost said = fill@;
            events.push(FeedEvent::Fill(fill));
            assert(rows(events@) =~= seq![FeedView::Fill(said)]);
        },
        None => {
            assert(rows(events@) =~= Seq::empty());
        },
    }
    events
}

/// Reads a frame: whether it is encrypted, its transaction, the number of its records and the
/// records, with a bar between. Both venues together and the exchange alone have the same fields.
pub fn parse_data_frame(txt: &str, aes: &Option<(String, String)>, clock: &FrameClock) -> (events:
    Vec<FeedEvent>)
    ensures
        rows(events@) == frame_events(
            txt@,
            keys_view(*aes),
            clock.today@,
            clock.micros,
            clock.stamp,
        ),
{
    let (flag, tr_id, count, payload) = match cut_frame(txt) {
        Some(parts) => parts,
        None => return one_event(None),
    };
    let cnt: usize = read_count(count.as_str());
    if same(tr_id.as_str(), "H0STCNT0") || same(tr_id.as_str(), "H0UNCNT0") {
        return parse_ticks(payload.as_str(), cnt, clock.today.as_str(), clock.micros);
    }
    if same(tr_id.as_str(), "H0STASP0") || same(tr_id.as_str(), "H0UNASP0") {
        return parse_books(payload.as_str(), cnt, clock.today.as_str());
    }
    if !same(tr_id.as_str(), "H0STCNI0") {
        return one_event(None);
    }
    if !same(flag.as_str(), "1") {
        return one_event(parse_notice(payload.as_str(), clock.today.as_str(), clock.stamp));
    }
    match aes {
        Some((key, iv)) => match aes_cbc_decrypt(key.as_str(), iv.as_str(), payload.as_str()) {
            Ok(said) => one_event(
                parse_notice(said.as_str(), clock.today.as_str(), clock.stamp),
            ),
            Err(_) => one_event(None),
        },
        None => one_event(None),
    }
}

/// What to do with a text that came.
#[derive(Debug)]
pub enum SocketAction {
    /// Send it back as it came.
    Echo,
    /// Hand these on.
    Events(Vec<FeedEvent>),
    Nothing,
}

/// A connection: the subscriptions that are not confirmed yet, and the keys of notices.
///
/// Only when all of them are confirmed does the feed count as connected. What comes in before is
/// handed on all the same.
#[derive(Debug)]
pub struct FeedSession {
    pending: Vec<SubscriptionId>,
    aes_key_iv: Option<(String, String)>,
}

#[verifier::ext_equal]
pub struct SessionView {
    pub pending: Seq<(Seq<char>, Seq<char>)>,
    pub keys: Option<(Seq<char>, Seq<char>)>,
}

impl View for FeedSession {
    type V = SessionView;

    closed spec fn view(&self) -> SessionView {
        SessionView { pending: sub_views(self.pending@), keys: keys_view(self.aes_key_iv) }
    }
}

impl SessionView {
    /// After an answer that is no failure.
    pub open spec fn confirmed(self, ack: SubscribeAckView) -> SessionView {
        SessionView {
            pending: without(self.pending, (ack.tr_id, ack.tr_key)),
            keys: if ack.aes_key_iv is Some {
                ack.aes_key_iv
            } else {
                self.keys
            },
        }
    }
}

/// Whether a text is JSON, by how it begins, and not a frame.
pub open spec fn is_message(text: Seq<char>) -> bool {
    occurs_at(text, "{"@, 0)
}

impl FeedSession {
    /// A connection for which subscriptions were sent.
    pub fn new(subscriptions: &Vec<SubscriptionId>) -> (session: Self)
        ensures
            session@ == (SessionView {
                pending: once_each(sub_views(subscriptions@)),
                keys: None,
            }),
    {
        let ghost all = sub_views(subscriptions@);
        let mut pending: Vec<SubscriptionId> = Vec::new();
        let mut i: usize = 0;
        assert(all.take(0) =~= Seq::empty());
        assert(sub_views(pending@) =~= Seq::empty());
        while i < subscriptions.len()
            invariant
                i <= subscriptions@.len(),
                all == sub_views(subscriptions@),
                sub_views(pending@) == once_each(all.take(i as int)),
            decreases subscriptions@.len() - i,
        {
            assert(all.take(i + 1).drop_last() =~= all.take(i as int));
            assert(all[i as int] == sub_view(subscriptions@[i as int]));
            let ghost before = sub_views(pending@);
            if find_sub(
                &pending,
                subscriptions[i].0.as_str(),
                subscriptions[i].1.as_str(),
            ).is_none() {
                let one = copy_sub(&subscriptions[i]);
                pending.push(one);
                assert(sub_views(pending@) =~= before.push(sub_view(one)));
            }
            i += 1;
        }
        assert(all.take(i as int) =~= all);
        FeedSession { pending, aes_key_iv: None }
    }

    /// Whether all subscriptions are confirmed.
    pub fn is_confirmed(&self) -> (yes: bool)
        ensures
            yes == (self@.pending.len() == 0),
    {
        assert(self@.pending.len() == self.pending@.len());
        self.pending.len() == 0
    }

    /// Takes in a text: a sign of life is sent back, an answer to a subscription confirms it or ends
    /// the connection, and anything else that is no JSON is a frame.
    pub fn on_text(&mut self, txt: &str, clock: &FrameClock) -> (action: AppResult<SocketAction>)
        ensures
            if !is_message(txt@) {
                &&& final(self)@ == old(self)@
                &&& action matches Ok(SocketAction::Events(events)) && rows(events@)
                    == frame_events(
                    txt@,
                    old(self)@.keys,
                    clock.today@,
                    clock.micros,
                    clock.stamp,
                )
            } else if pingpong(txt@) {
                final(self)@ == old(self)@ && action == Ok::<SocketAction, AppError>(
                    SocketAction::Echo,
                )
            } else {
                match ack_of_text(txt@) {
                    Some(ack) => if ack.success {
                        &&& final(self)@ == old(self)@.confirmed(ack)
                        &&& action == Ok::<SocketAction, AppError>(SocketAction::Nothing)
                    } else {
                        &&& final(self)@ == old(self)@
                        &&& action matches Err(error) && is_kis(error, refusal(ack))
                    },
                    None => final(self)@ == old(self)@ && action == Ok::<SocketAction, AppError>(
                        SocketAction::Nothing,
                    ),
                }
            },
    {
        if !has_prefix(txt, "{") {
            return Ok(SocketAction::Events(parse_data_frame(txt, &self.aes_key_iv, clock)));
        }
        if is_pingpong(txt) {
            return Ok(SocketAction::Echo);
        }
        match subscribe_ack(txt) {
            Some(ack) => {
                match apply_subscribe_ack(&mut self.pending, &mut self.aes_key_iv, ack) {
                    Ok(_) => Ok(SocketAction::Nothing),
                    Err(error) => Err(error),
                }
            },
            None => Ok(SocketAction::Nothing),
        }
    }

    /// The error of a connection that the server closed, or whose stream ended.
    pub fn closed(&self, by_server: bool) -> (error: AppError)
        ensures
            is_kis(
                error,
                if self@.pending.len() > 0 {
                    if by_server {
                        "웹소켓 구독 확인 중 서버가 연결을 종료했습니다"@
                    } else {
                        "웹소켓 구독 확인 중 스트림이 종료됐습니다"@
                    }
                } else {
                    if by_server {
                        "서버가 웹소켓을 종료했습니다"@
                    } else {
                        "웹소켓 스트림 종료"@
                    }
                },
            ),
    {
        assert(self@.pending.len() == self.pending@.len());
        let text = if self.pending.len() > 0 {
            if by_server {
                "웹소켓 구독 확인 중 서버가 연결을 종료했습니다"
            } else {
                "웹소켓 구독 확인 중 스트림이 종료됐습니다"
            }
        } else {
            if by_server {
                "서버가 웹소켓을 종료했습니다"
            } else {
                "웹소켓 스트림 종료"
            }
        };
        AppError::Kis(text.to_owned())
    }

    /// The error of subscriptions that were not confirmed in time, which names them.
    pub fn timed_out(&self, timeout: u64) -> (error: AppError)
        ensures
            is_kis(
                error,
                "웹소켓 필수 구독 확인 시간 초과("@ + plain_text(timeout as int) + "초): "@
                    + listed(sub_texts(self@.pending)),
            ),
    {
        let mut text = joined(
            "웹소켓 필수 구독 확인 시간 초과(",
            write_plain(timeout as i128).as_str(),
        );
        text.append("초): ");
        text.append(pending_subscriptions(&self.pending).as_str());
        AppError::Kis(text)
    }
}

/// The error of the socket itself.
pub fn ws_err(told: &str) -> (error: AppError)
    ensures
        is_kis(error, "웹소켓 오류: "@ + told@),
{
    AppError::Kis(joined("웹소켓 오류: ", told))
}

/// A subscription that was asked for once, and confirmed, is open no longer, and the others still
/// are.
pub proof fn confirmation_closes_one(subs: Seq<(Seq<char>, Seq<char>)>, ack: SubscribeAckView)
    requires
        once_each(subs) == subs,
        subs.contains((ack.tr_id, ack.tr_key)),
    ensures
        without(subs, (ack.tr_id, ack.tr_key)).len() == subs.len() - 1,
        !without(subs, (ack.tr_id, ack.tr_key)).contains((ack.tr_id, ack.tr_key)),
        forall|s: (Seq<char>, Seq<char>)|
            s != (ack.tr_id, ack.tr_key) ==> (subs.contains(s) <==> #[trigger] without(
                subs,
                (ack.tr_id, ack.tr_key),
            ).contains(s)),
{
    let sub = (ack.tr_id, ack.tr_key);
    let p = is_sub(sub);
    crate::seqs::lemma_first_where_bounds(subs, p);
    let i = first_where(subs, p);
    let at = choose|k: int| 0 <= k < subs.len() && subs[k] == sub;
    assert(p(subs[at]));
    assert(i < subs.len());
    lemma_once_each(subs);
    let rest = without(subs, sub);
    assert forall|k: int| 0 <= k < rest.len() implies rest[k] != sub by {
        if k < i {
            assert(!p(subs[k]));
        } else {
            assert(rest[k] == subs[k + 1]);
        }
    }
    assert forall|s: (Seq<char>, Seq<char>)| s != sub implies (subs.contains(s)
        <==> #[trigger] rest.contains(s)) by {
        if subs.contains(s) {
            let k = choose|k: int| 0 <= k < subs.len() && subs[k] == s;
            assert(rest[if k < i { k } else { k - 1 }] == s);
        }
        if rest.contains(s) {
            let k = choose|k: int| 0 <= k < rest.len() && rest[k] == s;
            assert(subs[if k < i { k } else { k + 1 }] == s);
        }
    }
}

/// No subscription is waited for twice, and none is forgotten.
pub proof fn lemma_once_each(subs: Seq<(Seq<char>, Seq<char>)>)
    ensures
        forall|i: int, j: int|
            #![trigger once_each(subs)[i], once_each(subs)[j]]
            0 <= i < j < once_each(subs).len() ==> once_each(subs)[i] != once_each(subs)[j],
        forall|s: (Seq<char>, Seq<char>)|
            subs.contains(s) <==> #[trigger] once_each(subs).contains(s),
    decreases subs.len(),
{
    if subs.len() > 0 {
        let front = subs.drop_last();
        lemma_once_each(front);
        let rest = once_each(front);
        let all = once_each(subs);
        assert forall|s: (Seq<char>, Seq<char>)| subs.contains(s) <==> #[trigger] all.contains(
            s,
        ) by {
            assert(front.contains(s) <==> rest.contains(s));
            if subs.contains(s) {
                let k = choose|k: int| 0 <= k < subs.len() && subs[k] == s;
                if k < front.len() {
                    assert(front[k] == s);
                    let m = choose|m: int| 0 <= m < rest.len() && rest[m] == s;
                    assert(all[m] == s);
                } else if !rest.contains(s) {
                    assert(all[rest.len() as int] == s);
                }
            }
            if all.contains(s) {
                let k = choose|k: int| 0 <= k < all.len() && all[k] == s;
                if k < rest.len() {
                    assert(rest[k] == s);
                    let m = choose|m: int| 0 <= m < front.len() && front[m] == s;
                    assert(subs[m] == s);
                } else {
                    assert(subs[subs.len() - 1] == s);
                }
            }
        }
    }
}

/// The records of a payload, put end to end, are its first fields in their order: each has as many
/// as can be given to all alike, and what is left over is fewer than there are records. A payload
/// with fewer fields than records holds none.
pub proof fn records_lie_end_to_end(payload: Seq<char>, count: nat)
    requires
        count > 0,
    ensures
        ({
            let fields = split_fields(payload, '^');
            let told = records(payload, count);
            &&& fields.len() < count ==> told.len() == 0
            &&& fields.len() >= count ==> {
                let per = told[0].len() as int;
                &&& told.len() == count
                &&& per > 0
                &&& count * per <= fields.len() < count * per + count
                &&& forall|r: int| 0 <= r < count ==> (#[trigger] told[r]).len() == per
                &&& forall|r: int, j: int|
                    #![trigger told[r][j]]
                    0 <= r < count && 0 <= j < per ==> told[r][j] == fields[r * per + j]
            }
        }),
{
    let fields = split_fields(payload, '^');
    let told = records(payload, count);
    let n = fields.len() as int;
    let c = count as int;
    let per = (fields.len() / count) as int;
    vstd::arithmetic::div_mod::lemma_fundamental_div_mod(n, c);
    vstd::arithmetic::div_mod::lemma_mod_bound(n, c);
    assert(n < c ==> per == 0) by (nonlinear_arith)
        requires
            n == c * per + n % c,
            0 <= n % c < c,
            0 <= n,
            c > 0,
            per >= 0,
    ;
    assert(n >= c ==> per > 0) by (nonlinear_arith)
        requires
            n == c * per + n % c,
            0 <= n % c < c,
            c > 0,
            per >= 0,
    ;
    if n >= c {
        assert forall|r: int| 0 <= r < count implies (#[trigger] told[r]).len() == per by {
            lemma_record_bounds(n, c, per, r);
        }
        assert(told[0].len() == per);
        assert forall|r: int, j: int|
            #![trigger told[r][j]]
            0 <= r < count && 0 <= j < per implies told[r][j] == fields[r * per + j] by {
            lemma_record_bounds(n, c, per, r);
        }
    }
}

/// Whether a field says a whole number.
pub open spec fn says(fields: Seq<Seq<char>>, i: int, n: u64) -> bool {
    i < fields.len() && plain(trimmed(fields[i])) == Some(n * 1_000_000_000)
}

/// A trade is read from the places of its record: the code from the first, and the price, the ask,
/// the bid, the shares and the running total from the third, eleventh, twelfth, thirteenth and
/// fourteenth. The rate of the sixth may have a fraction and a sign. A record without a code or a
/// time tells of none, and a trade says nothing of the book's time or shares.
pub proof fn trade_is_read_from_its_places(
    f: Seq<Seq<char>>,
    ts: i64,
    micros: u64,
    n: u64,
    rate: i64,
)
    requires
        f.len() >= 2,
    ensures
        tick_row(f, None, micros) is None,
        f[0].len() == 0 ==> tick_row(f, Some(ts), micros) is None,
        f[0].len() > 0 ==> (tick_row(f, Some(ts), micros) matches Some(FeedView::Quote(q)) && {
            &&& q.code == f[0]
            &&& says(f, 2, n) ==> q.price == n
            &&& says(f, 10, n) ==> q.ask1 == n
            &&& says(f, 11, n) ==> q.bid1 == n
            &&& says(f, 12, n) ==> q.volume == n
            &&& says(f, 13, n) ==> q.trade_sequence == n
            &&& f.len() > 5 && plain(trimmed(f[5])) == Some(rate as int) ==> q.change_rate == rate
            &&& f.len() <= 2 ==> q.price == 0
            &&& f.len() <= 13 ==> q.trade_sequence == 0
            &&& q.ask1_qty == 0 && q.bid1_qty == 0 && q.book_ts == 0
            &&& q.trade_ts == ts
            &&& q.received_at_micros == micros
        }),
{
}

/// The top of a book is read from the places of its record: the code from the first, the ask, the bid
/// and the shares at each from the fourth, fourteenth, twenty-fourth and thirty-fourth.
pub proof fn book_is_read_from_its_places(f: Seq<Seq<char>>, at: i64, n: u64)
    requires
        f.len() >= 2,
    ensures
        book_row(f, None) is None,
        f[0].len() == 0 ==> book_row(f, Some(at)) is None,
        f[0].len() > 0 ==> (book_row(f, Some(at)) matches Some(
            FeedView::Book { code, ask1, bid1, ask1_qty, bid1_qty, ts },
        ) && {
            &&& code == f[0]
            &&& ts == at
            &&& says(f, 3, n) ==> ask1 == n
            &&& says(f, 13, n) ==> bid1 == n
            &&& says(f, 23, n) ==> ask1_qty == n
            &&& says(f, 33, n) ==> bid1_qty == n
        }),
{
}

/// A notice tells of a fill exactly where it is not refused and of a fill, names a side, an order and
/// a code, has shares, a price and a time: the order is the third field, the first order the fourth,
/// the side the fifth, the code the ninth, then the shares, the price and the time.
pub proof fn fill_is_read_from_its_places(f: Seq<Seq<char>>, at: i64, stamp: NoticeStamp, n: u64)
    requires
        f.len() >= 14,
    ensures
        ({
            let told = notice_row(f, Some(at), stamp);
            &&& notice_row(f, None, stamp) is None
            &&& f[12] != "0"@ || f[13] != "2"@ ==> told is None
            &&& f[4] != "01"@ && f[4] != "02"@ ==> told is None
            &&& blank(f[2]) || blank(f[8]) ==> told is None
            &&& parsed_u64(trimmed(f[9])) is None || parsed_u64(trimmed(f[9])) == Some(0u64)
                ==> told is None
            &&& finite(trimmed(f[10])) is None || finite(trimmed(f[10]))->0 <= 0 ==> told is None
            &&& f[12] == "0"@ && f[13] == "2"@ && (f[4] == "01"@ || f[4] == "02"@) && !blank(f[2])
                && !blank(f[8]) && parsed_u64(trimmed(f[9])) == Some(n) && n > 0 && finite(
                trimmed(f[10]),
            ) is Some && finite(trimmed(f[10]))->0 > 0 ==> (told matches Some(fill) && {
                &&& fill.order_no == f[2]
                &&& fill.original_order_no == f[3]
                &&& fill.code == f[8]
                &&& f[4] == "01"@ ==> fill.side == Side::Sell
                &&& f[4] == "02"@ ==> fill.side == Side::Buy
                &&& fill.qty == n
                &&& fill.filled_at == at
                &&& finite(trimmed(f[10]))->0 < 1_000_000_000 * 1_000_000_000 ==> fill.price
                    * 100_000 <= finite(trimmed(f[10]))->0 < (fill.price + 1) * 100_000
            })
        }),
{
    reveal_strlit("01");
    reveal_strlit("02");
    assert("01"@[1] != "02"@[1]);
}

/// A frame is its four parts with the mark between them, and none of the first three holds the mark;
/// the last is all the rest.
pub proof fn frame_is_its_parts(text: Seq<char>)
    ensures
        frame_parts(text) matches Some((flag, tr_id, count, payload)) ==> {
            &&& text == flag.push('|') + tr_id.push('|') + count.push('|') + payload
            &&& !flag.contains('|') && !tr_id.contains('|') && !count.contains('|')
        },
        frame_parts(text) is None <==> split_fields(text, '|').len() < 4,
{
    let fields = split_fields(text, '|');
    let n = fields.len() as int;
    if n >= 4 {
        crate::text::split_fields_join_again(text, '|');
        lemma_split_join(text, '|', 0);
        lemma_split_join(text, '|', 3);
        lemma_front(fields, '|', n);
        let payload = rejoined(fields, '|', 3, n);
        reveal_with_fuel(span, 4);
        assert(text.skip(0) =~= text);
        assert(!fields[0].contains('|'));
        assert(!fields[1].contains('|'));
        assert(!fields[2].contains('|'));
        assert(text =~= fields[0].push('|') + fields[1].push('|') + fields[2].push('|') + payload);
    }
}

proof fn lemma_front(fields: Seq<Seq<char>>, mark: char, n: int)
    requires
        n >= 4,
    ensures
        rejoined(fields, mark, 0, n) == fields[0].push(mark) + fields[1].push(mark)
            + fields[2].push(mark) + rejoined(fields, mark, 3, n),
    decreases n,
{
    let head = fields[0].push(mark) + fields[1].push(mark) + fields[2].push(mark);
    if n > 4 {
        lemma_front(fields, mark, n - 1);
        assert(rejoined(fields, mark, 0, n) =~= head + rejoined(fields, mark, 3, n));
    } else {
        reveal_with_fuel(rejoined, 5);
        assert(rejoined(fields, mark, 0, 4) =~= head + fields[3]);
        assert(rejoined(fields, mark, 3, 4) == fields[3]);
    }
}

/// A frame of trades gives trades alone, one of books gives books alone, one of notices gives at most
/// one fill, and one of anything else gives nothing. An encrypted notice without keys gives nothing,
/// and one that is not encrypted is read as it is.
pub proof fn frame_gives_what_it_is_of(
    text: Seq<char>,
    keys: Option<(Seq<char>, Seq<char>)>,
    today: Seq<char>,
    micros: u64,
    stamp: NoticeStamp,
)
    requires
        frame_parts(text) is Some,
    ensures
        ({
            let (flag, tr_id, count, payload) = frame_parts(text)->0;
            let events = frame_events(text, keys, today, micros, stamp);
            let fields = split_fields(payload, '^');
            &&& tr_id == "H0STCNT0"@ || tr_id == "H0UNCNT0"@ ==> {
                &&& forall|i: int| 0 <= i < events.len() ==> (#[trigger] events[i]) is Quote
                &&& forall|i: int|
                    0 <= i < events.len() ==> is_image(
                        records(payload, record_count(count)),
                        tick_of(today, micros),
                        #[trigger] events[i],
                    )
            }
            &&& tr_id == "H0STASP0"@ || tr_id == "H0UNASP0"@ ==> {
                &&& forall|i: int| 0 <= i < events.len() ==> (#[trigger] events[i]) is Book
                &&& forall|i: int|
                    0 <= i < events.len() ==> is_image(
                        records(payload, record_count(count)),
                        book_of(today),
                        #[trigger] events[i],
                    )
            }
            &&& tr_id == "H0STCNI0"@ && flag != "1"@ ==> (match notice_fill(payload, today, stamp) {
                Some(fill) => events == seq![FeedView::Fill(fill)],
                None => events.len() == 0,
            })
            &&& tr_id == "H0STCNI0"@ && flag == "1"@ && keys is None ==> events.len() == 0
            &&& tr_id != "H0STCNT0"@ && tr_id != "H0UNCNT0"@ && tr_id != "H0STASP0"@ && tr_id
                != "H0UNASP0"@ && tr_id != "H0STCNI0"@ ==> events.len() == 0
        }),
{
    let (flag, tr_id, count, payload) = frame_parts(text)->0;
    let told = records(payload, record_count(count));
    reveal_strlit("H0STCNT0");
    reveal_strlit("H0UNCNT0");
    reveal_strlit("H0STASP0");
    reveal_strlit("H0UNASP0");
    reveal_strlit("H0STCNI0");
    assert("H0STCNT0"@[4] == 'C' && "H0STCNT0"@[6] == 'T');
    assert("H0UNCNT0"@[4] == 'C' && "H0UNCNT0"@[6] == 'T');
    assert("H0STASP0"@[4] == 'A');
    assert("H0UNASP0"@[4] == 'A');
    assert("H0STCNI0"@[6] == 'I' && "H0STCNI0"@[4] == 'C');
    filter_mapped_is_of_images(told, tick_of(today, micros));
    filter_mapped_is_of_images(told, book_of(today));
}

/// How many records a frame holds is what it says, where that is at least one, and one where it says
/// nothing.
pub proof fn count_is_what_is_said(n: u64)
    ensures
        1 <= n <= usize::MAX ==> record_count(digits(n as nat)) == n,
        n == 0 ==> record_count(digits(n as nat)) == 1,
        record_count(Seq::empty()) == 1,
{
    crate::text::decimal_reads_back(n);
}

/// The waits between connections double, from a second up to half a minute; only a connection that
/// held for more than a minute starts them over.
pub proof fn waits_double(backoff: Backoff, lasted: u64)
    requires
        backoff.wf(),
    ensures
        lasted <= 60 ==> backoff.wait(lasted) == backoff.seconds,
        lasted > 60 ==> backoff.wait(lasted) == 1,
{
}

/// An answer is of the transaction and the code that its header names, succeeds with the code `0`
/// alone, and brings keys only where it brings both.
pub proof fn answer_names_its_subscription(v: JsonView)
    ensures
        ack_of(v) matches Some(ack) ==> {
            &&& nested_text(v, "header"@, "tr_id"@) == Some(ack.tr_id)
            &&& nested_text(v, "header"@, "tr_key"@) matches Some(key) ==> ack.tr_key == key
            &&& ack.success <==> nested_text(v, "body"@, "rt_cd"@) == Some("0"@)
            &&& ack.aes_key_iv matches Some((key, iv)) ==> (v.nested("body"@, "output"@) matches Some(
                output,
            ) && output.text_field("key"@) == Some(key) && output.text_field("iv"@) == Some(iv))
        },
        ack_of(v) is None <==> nested_text(v, "header"@, "tr_id"@) is None || nested_text(
            v,
            "body"@,
            "rt_cd"@,
        ) is None,
{
}

/// Texts of which none comes before one that stands earlier.
pub open spec fn sorted_texts(texts: Seq<Seq<char>>) -> bool {
    forall|i: int, j: int|
        #![trigger texts[i], texts[j]]
        0 <= i < j < texts.len() ==> !precedes(texts[j], texts[i])
}

/// The subscriptions that are still open are told in the order of their texts, each once for every
/// time it is open, as its transaction and its key with a stroke between them.
pub proof fn open_subscriptions_are_told_in_order(subs: Seq<(Seq<char>, Seq<char>)>, i: int)
    requires
        0 <= i < subs.len(),
    ensures
        sorted_texts(sub_texts(subs)),
        sub_texts(subs).len() == subs.len(),
        sub_texts(subs).contains(subs[i].0 + "/"@ + subs[i].1),
    decreases subs.len(),
{
    let front = subs.drop_last();
    let before = sub_texts(front);
    let text = subs.last().0 + "/"@ + subs.last().1;
    let p = |t: Seq<char>| precedes(text, t);
    let k = first_where(before, p);
    crate::seqs::lemma_first_where_bounds(before, p);
    let all = sub_texts(subs);
    if front.len() > 0 {
        open_subscriptions_are_told_in_order(
            front,
            if i < front.len() {
                i
            } else {
                0
            },
        );
    }
    assert(all == before.insert(k, text));
    assert(all[k] == text);
    if i < front.len() {
        let own = subs[i].0 + "/"@ + subs[i].1;
        assert(front[i] == subs[i]);
        let m = choose|m: int| 0 <= m < before.len() && before[m] == own;
        assert(all[if m < k {
            m
        } else {
            m + 1
        }] == own);
    }
    assert forall|a: int, b: int|
        #![trigger all[a], all[b]]
        0 <= a < b < all.len() implies !precedes(all[b], all[a]) by {
        if b < k {
            assert(all[a] == before[a] && all[b] == before[b]);
        } else if b == k {
            assert(!p(before[a]));
        } else {
            assert(all[b] == before[b - 1]);
            if a == k {
                assert(p(before[k]));
                if b - 1 > k {
                    assert(!precedes(before[b - 1], before[k]));
                }
                if precedes(before[b - 1], text) {
                    crate::text::lemma_precedes_transitive(before[b - 1], text, before[k]);
                    crate::text::lemma_precedes_total(before[k], before[k]);
                }
            } else if a < k {
                assert(all[a] == before[a]);
            } else {
                assert(all[a] == before[a - 1]);
            }
        }
    }
}

/// Texts are told one behind the other with a comma and a space between each two.
pub proof fn texts_are_told_with_commas(texts: Seq<Seq<char>>, text: Seq<char>)
    ensures
        listed(Seq::empty()).len() == 0,
        listed(seq![text]) == text,
        texts.len() > 0 ==> listed(texts.push(text)) == listed(texts) + seq![',', ' '] + text,
{
    reveal_strlit(", ");
    assert(", "@ =~= seq![',', ' ']);
    assert(texts.push(text).drop_last() =~= texts);
}

/// A subscription is sent with the key of the connection, and names its transaction and its key.
pub proof fn subscription_names_what_is_wanted(
    approval_key: Seq<char>,
    tr_id: Seq<char>,
    tr_key: Seq<char>,
)
    ensures
        ({
            let body = subscription_body(approval_key, tr_id, tr_key);
            &&& nested_text(body, "header"@, "approval_key"@) == Some(approval_key)
            &&& nested_text(body, "header"@, "tr_type"@) == Some("1"@)
            &&& body.nested("body"@, "input"@) matches Some(input) && input.text_field("tr_id"@)
                == Some(tr_id) && input.text_field("tr_key"@) == Some(tr_key)
        }),
{
    let body = subscription_body(approval_key, tr_id, tr_key);
    let m = members_of(body);
    reveal_strlit("header");
    reveal_strlit("body");
    reveal_strlit("approval_key");
    reveal_strlit("custtype");
    reveal_strlit("tr_type");
    reveal_strlit("tr_id");
    reveal_strlit("tr_key");
    assert("header"@.len() == 6 && "body"@.len() == 4);
    assert("approval_key"@.len() == 12 && "custtype"@.len() == 8 && "tr_type"@.len() == 7);
    assert("tr_id"@.len() == 5 && "tr_key"@.len() == 6);
    assert(m[0].0 == "header"@ && m[1].0 == "body"@);
    lemma_member_at(body, 0);
    lemma_member_at(body, 1);
    let header = m[0].1;
    let h = members_of(header);
    assert(h[0].0 == "approval_key"@ && h[1].0 == "custtype"@ && h[2].0 == "tr_type"@);
    lemma_member_at(header, 0);
    lemma_member_at(header, 2);
    let inner = m[1].1;
    assert(members_of(inner)[0].0 == "input"@);
    lemma_member_at(inner, 0);
    let input = members_of(inner)[0].1;
    let n = members_of(input);
    assert(n[0].0 == "tr_id"@ && n[1].0 == "tr_key"@);
    lemma_member_at(input, 0);
    lemma_member_at(input, 1);
}

} // verus!
