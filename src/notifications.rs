//! Turning an event into the per-subscription items that are pushed to the
//! client.

use vstd::prelude::*;

use crate::error::KohakuError;

verus! {

/// `serde_json::Value`, the embed of a notification; carried through, never
/// looked into.
#[verifier::external_type_specification]
#[verifier::external_body]
pub struct ExValue(serde_json::Value);

/// Relies on the derived `Clone for serde_json::Value`: a deep copy, equal to
/// the original.
pub assume_specification[ <serde_json::Value as Clone>::clone ](v: &serde_json::Value) -> (r: serde_json::Value)
    ensures
        r == *v,
;

/// The text in which a subscription's format puts the message.
pub const MESSAGE_TOKEN: &'static str = "{message}";

/// `s` with every occurrence of the non-empty `from` replaced by `to`,
/// scanning from the left, occurrences not overlapping.
pub open spec fn replaced(s: Seq<char>, from: Seq<char>, to: Seq<char>) -> Seq<char>
    decreases s.len(),
{
    if from.len() == 0 || s.len() < from.len() {
        s
    } else if s.subrange(0, from.len() as int) == from {
        to + replaced(s.skip(from.len() as int), from, to)
    } else {
        seq![s[0]] + replaced(s.drop_first(), from, to)
    }
}

/// Relies on `str::replace`: every non-overlapping match of a non-empty
/// pattern, from the left, is replaced.
#[verifier::external_body]
fn replace_all(s: &str, from: &str, to: &str) -> (r: String)
    requires
        from@.len() > 0,
    ensures
        r@ == replaced(s@, from@, to@),
{
    s.replace(from, to)
}

/// A subscription of a channel to a topic.
#[derive(Debug, Clone)]
pub struct NotificationTarget {
    pub id: i32,
    /// Creation time, in seconds since the Unix epoch.
    pub created_at: i64,
    pub code: String,
    pub channel_id: i64,
    pub guild_id: i64,
    /// How the subscriber wants messages laid out; `{message}` stands for
    /// the message.
    pub format: Option<String>,
}

/// A subscription about to be stored.
#[derive(Debug, Clone)]
pub struct NewNotificationTarget {
    pub code: String,
    pub channel_id: i64,
    pub guild_id: i64,
    pub format: Option<String>,
}

/// A topic that can be subscribed to.
#[derive(Debug, Clone)]
pub struct NotificationCode {
    pub code: String,
    /// Time of the last event, or of creation, in seconds since the Unix epoch.
    pub last_used: i64,
    pub description: Option<String>,
}

/// What one subscribed channel receives for an event.
#[derive(Debug, Clone)]
pub struct NotificationData {
    pub triggering_event: String,
    pub channel_id: i64,
    pub guild_id: i64,
    pub embed: Option<serde_json::Value>,
    pub message: Option<String>,
}

/// What is pushed to the client for an event.
#[derive(Debug, Clone)]
pub struct NotificationPayload {
    pub code: String,
    /// Time of the event, in seconds since the Unix epoch.
    pub timestamp: i64,
    pub data: Vec<NotificationData>,
}

pub open spec fn opt_view(o: Option<String>) -> Option<Seq<char>> {
    match o {
        Some(s) => Some(s@),
        None => None,
    }
}

/// The message a subscriber gets: the format with the message put in, the
/// format alone, the message alone, or nothing.
pub open spec fn composed(format: Option<Seq<char>>, message: Option<Seq<char>>) -> Option<Seq<char>> {
    match (format, message) {
        (Some(f), Some(m)) => Some(replaced(f, MESSAGE_TOKEN@, m)),
        (Some(f), None) => Some(f),
        (None, Some(m)) => Some(m),
        (None, None) => None,
    }
}

/// Composes the message of one subscriber.
pub fn compose_message(format: &Option<String>, message: &Option<String>) -> (r: Option<String>)
    ensures
        opt_view(r) == composed(opt_view(*format), opt_view(*message)),
{
    match (format, message) {
        (Some(f), Some(m)) => {
            proof {
                reveal_strlit("{message}");
            }
            Some(replace_all(f.as_str(), MESSAGE_TOKEN, m.as_str()))
        },
        (Some(f), None) => Some(f.clone()),
        (None, Some(m)) => Some(m.clone()),
        (None, None) => None,
    }
}

/// A subscriber gets an item unless there is nothing at all to send it.
pub open spec fn gets_item(t: NotificationTarget, has_embed: bool, message: Option<Seq<char>>) -> bool {
    t.format is Some || has_embed || message is Some
}

/// Channel, guild and message of the items for `targets`, in order.
pub open spec fn items_of(targets: Seq<NotificationTarget>, has_embed: bool, message: Option<Seq<char>>) -> Seq<
    (i64, i64, Option<Seq<char>>),
>
    decreases targets.len(),
{
    if targets.len() == 0 {
        Seq::empty()
    } else {
        let rest = items_of(targets.drop_last(), has_embed, message);
        let t = targets.last();
        if gets_item(t, has_embed, message) {
            rest.push((t.channel_id, t.guild_id, composed(opt_view(t.format), message)))
        } else {
            rest
        }
    }
}

pub open spec fn item_view(d: NotificationData) -> (i64, i64, Option<Seq<char>>) {
    (d.channel_id, d.guild_id, opt_view(d.message))
}

/// The items of an event for its subscribers, each carrying the event name
/// and the embed.
pub fn build_notification_data(
    targets: &Vec<NotificationTarget>,
    triggering_event: &str,
    embed: &Option<serde_json::Value>,
    message: &Option<String>,
) -> (r: Vec<NotificationData>)
    ensures
        r@.map_values(|d: NotificationData| item_view(d)) == items_of(targets@, embed is Some, opt_view(*message)),
        forall|i: int| 0 <= i < r@.len() ==> (#[trigger] r@[i]).triggering_event@ == triggering_event@,
        forall|i: int| 0 <= i < r@.len() ==> (#[trigger] r@[i]).embed == *embed,
{
    let ghost has_embed = embed is Some;
    let ghost m = opt_view(*message);
    let mut out: Vec<NotificationData> = Vec::new();
    let mut i: usize = 0;
    while i < targets.len()
        invariant
            has_embed == embed is Some,
            m == opt_view(*message),
            i <= targets@.len(),
            out@.map_values(|d: NotificationData| item_view(d)) == items_of(targets@.subrange(0, i as int), has_embed, m),
            forall|j: int| 0 <= j < out@.len() ==> (#[trigger] out@[j]).triggering_event@ == triggering_event@,
            forall|j: int| 0 <= j < out@.len() ==> (#[trigger] out@[j]).embed == *embed,
        decreases targets.len() - i,
    {
        let t = &targets[i];
        proof {
            assert(targets@.subrange(0, i + 1).drop_last() =~= targets@.subrange(0, i as int));
            assert(targets@.subrange(0, i + 1).last() == targets@[i as int]);
        }
        if t.format.is_some() || embed.is_some() || message.is_some() {
            let msg = compose_message(&t.format, message);
            let ghost before = out@;
            out.push(
                NotificationData {
                    triggering_event: String::from_str(triggering_event),
                    channel_id: t.channel_id,
                    guild_id: t.guild_id,
                    embed: match embed {
                        Some(v) => Some(v.clone()),
                        None => None,
                    },
                    message: msg,
                },
            );
            proof {
                assert(out@.map_values(|d: NotificationData| item_view(d)) =~= before.map_values(
                    |d: NotificationData| item_view(d),
                ).push(item_view(out@.last())));
            }
        }
        i = i + 1;
    }
    assert(targets@.subrange(0, targets@.len() as int) =~= targets@);
    out
}

/// The payload for an event on topic `code` at `timestamp`.
pub fn build_payload(
    code: &str,
    timestamp: i64,
    targets: &Vec<NotificationTarget>,
    triggering_event: &str,
    embed: &Option<serde_json::Value>,
    message: &Option<String>,
) -> (r: NotificationPayload)
    ensures
        r.code@ == code@,
        r.timestamp == timestamp,
        r.data@.map_values(|d: NotificationData| item_view(d)) == items_of(targets@, embed is Some, opt_view(*message)),
        forall|i: int| 0 <= i < r.data@.len() ==> (#[trigger] r.data@[i]).embed == *embed,
        forall|i: int| 0 <= i < r.data@.len() ==> (#[trigger] r.data@[i]).triggering_event@ == triggering_event@,
{
    NotificationPayload {
        code: String::from_str(code),
        timestamp,
        data: build_notification_data(targets, triggering_event, embed, message),
    }
}

/// A lookup of subscriptions names a topic, a channel or a guild.
pub fn check_subscription_filter(code: Option<&str>, channel_id: Option<i64>, guild_id: Option<i64>) -> (r: Result<
    (),
    KohakuError,
>)
    ensures
        r is Err <==> code is None && channel_id is None && guild_id is None,
        r matches Err(e) ==> e is ValidationError,
{
    if code.is_none() && channel_id.is_none() && guild_id.is_none() {
        return Err(
            KohakuError::ValidationError(String::from_str("Invalid arguments! At least one argument must be set!")),
        );
    }
    Ok(())
}

} // verus!
