//! Limits on inbound messages, and the signed message envelope for
//! transports without an authenticated handshake.

use hmac::Mac;
use vstd::prelude::*;

use crate::jwt::now_timestamp;
use crate::text::{chars_of, str_eq, string_of_range};

verus! {

/// Counts messages in a sliding time window and refuses those beyond the
/// limit.
pub struct RateLimiter {
    messages: Vec<i64>,
    max_messages: usize,
    window_secs: i64,
}

impl RateLimiter {
    /// Times of the messages counted so far.
    pub closed spec fn times(&self) -> Seq<i64> {
        self.messages@
    }

    pub closed spec fn limit(&self) -> usize {
        self.max_messages
    }

    pub closed spec fn window(&self) -> i64 {
        self.window_secs
    }

    /// A limiter that allows `max_messages` per `window_secs` seconds.
    pub fn new(max_messages: usize, window_secs: i64) -> (r: Self)
        ensures
            r.times().len() == 0,
            r.limit() == max_messages,
            r.window() == window_secs,
    {
        RateLimiter { messages: Vec::new(), max_messages, window_secs }
    }

    /// Forgets messages that fell out of the window ending at `now`, then
    /// counts one more at `now` if the limit allows it.
    pub fn check_and_add_at(&mut self, now: i64) -> (r: bool)
        ensures
            final(self).limit() == old(self).limit(),
            final(self).window() == old(self).window(),
            ({
                let kept = old(self).times().filter(|t: i64| t > now - old(self).window());
                &&& r == (kept.len() < old(self).limit())
                &&& final(self).times() == if r { kept.push(now) } else { kept }
            }),
    {
        let cutoff: i128 = now as i128 - self.window_secs as i128;
        let ghost s = self.messages@;
        let mut kept: Vec<i64> = Vec::new();
        let mut i: usize = 0;
        while i < self.messages.len()
            invariant
                self.messages@ == s,
                i <= s.len(),
                cutoff == now - self.window_secs,
                kept@ == s.subrange(0, i as int).filter(|t: i64| t > now - self.window_secs),
            decreases self.messages.len() - i,
        {
            let t = self.messages[i];
            proof {
                reveal(Seq::filter);
                assert(s.subrange(0, i + 1).drop_last() =~= s.subrange(0, i as int));
            }
            if t as i128 > cutoff {
                kept.push(t);
            }
            i = i + 1;
        }
        assert(s.subrange(0, s.len() as int) =~= s);
        self.messages = kept;
        if self.messages.len() >= self.max_messages {
            return false;
        }
        self.messages.push(now);
        true
    }

    /// The same, at the current time.
    pub fn check_and_add(&mut self) -> (r: bool)
        ensures
            final(self).limit() == old(self).limit(),
            final(self).window() == old(self).window(),
    {
        let now = now_timestamp();
        self.check_and_add_at(now)
    }
}

/// Signed messages are accepted within this many seconds of their timestamp.
pub const MESSAGE_WINDOW_SECS: i64 = 30;

/// The MAC of `payload` under `secret`, as lower-case hex.
pub uninterp spec fn hmac_sha256_hex(secret: Seq<u8>, payload: Seq<char>) -> Seq<char>;

/// Relies on `Hmac::<Sha256>::new_from_slice` (which accepts keys of any
/// length), `update` and `finalize`, and on `hex::encode` for the digits.
#[verifier::external_body]
fn mac_hex(secret: &Vec<u8>, payload: &str) -> (r: String)
    ensures
        r@ == hmac_sha256_hex(secret@, payload@),
{
    let mut mac = hmac::Hmac::<sha2::Sha256>::new_from_slice(secret.as_slice()).expect("HMAC accepts keys of any length");
    mac.update(payload.as_bytes());
    hex::encode(mac.finalize().into_bytes())
}

/// The envelope of a payload: the payload, `.`, and its MAC.
pub open spec fn envelope_of(secret: Seq<u8>, payload: Seq<char>) -> Seq<char> {
    payload + seq!['.'] + hmac_sha256_hex(secret, payload)
}

/// Signs a payload into an envelope.
pub fn sign_payload(payload: &str, secret: &Vec<u8>) -> (r: String)
    ensures
        r@ == envelope_of(secret@, payload@),
{
    let mut out = String::from_str(payload);
    out.append(".");
    let mac = mac_hex(secret, payload);
    out.append(mac.as_str());
    proof {
        reveal_strlit(".");
        assert(out@ =~= envelope_of(secret@, payload@));
    }
    out
}

/// Opens an envelope: what precedes its first `.` is the payload, and what
/// follows must be the MAC of the payload. Answers the payload. Every
/// envelope that [`sign_payload`] makes of a payload without `.` is opened.
pub fn open_envelope(data: &str, secret: &Vec<u8>) -> (r: Result<String, String>)
    ensures
        r matches Ok(p) ==> data@ == envelope_of(secret@, p@) && !p@.contains('.'),
        (exists|p: Seq<char>| !p.contains('.') && #[trigger] envelope_of(secret@, p) == data@) ==> r is Ok,
{
    let v = chars_of(data);
    let mut dot: usize = 0;
    while dot < v.len() && v[dot] != '.'
        invariant
            v@ == data@,
            dot <= v@.len(),
            forall|j: int| 0 <= j < dot ==> v@[j] != '.',
        decreases v.len() - dot,
    {
        dot = dot + 1;
    }
    proof {
        if exists|p: Seq<char>| !p.contains('.') && #[trigger] envelope_of(secret@, p) == data@ {
            let p = choose|p: Seq<char>| !p.contains('.') && #[trigger] envelope_of(secret@, p) == data@;
            assert(data@[p.len() as int] == '.');
            if dot < p.len() {
                assert(data@[dot as int] == p[dot as int]);
                assert(p.contains('.'));
            }
            assert(dot == p.len());
        }
    }
    if dot >= v.len() {
        return Err(String::from_str("Invalid message format"));
    }
    let payload = string_of_range(&v, 0, dot);
    let signature = string_of_range(&v, dot + 1, v.len());
    let expected = mac_hex(secret, payload.as_str());
    proof {
        if exists|p: Seq<char>| !p.contains('.') && #[trigger] envelope_of(secret@, p) == data@ {
            let p = choose|p: Seq<char>| !p.contains('.') && #[trigger] envelope_of(secret@, p) == data@;
            assert(payload@ =~= p);
            assert(signature@ =~= hmac_sha256_hex(secret@, p));
        }
    }
    if !str_eq(expected.as_str(), signature.as_str()) {
        return Err(String::from_str("Invalid signature"));
    }
    proof {
        assert(data@ =~= payload@ + seq!['.'] + signature@);
        assert(!payload@.contains('.')) by {
            if payload@.contains('.') {
                let k = choose|k: int| 0 <= k < payload@.len() && payload@[k] == '.';
                assert(v@[k] == '.');
            }
        }
    }
    Ok(payload)
}

/// Whether a message stamped `timestamp` is fresh at `now`.
pub fn timestamp_fresh(timestamp: i64, now: i64) -> (r: bool)
    ensures
        r == (-MESSAGE_WINDOW_SECS <= now - timestamp <= MESSAGE_WINDOW_SECS),
{
    if now >= timestamp {
        (now as i128 - timestamp as i128) <= MESSAGE_WINDOW_SECS as i128
    } else {
        (timestamp as i128 - now as i128) <= MESSAGE_WINDOW_SECS as i128
    }
}

} // verus!

verus! {

/// What an inbound text frame of a signed-envelope session turned out to be.
#[derive(Debug, Clone, Copy, PartialEq, Eq, Structural)]
pub enum EnvelopeKind {
    /// The client authenticates the session.
    Authorization,
    Ping,
    Pong,
    /// The client sends data to process.
    Notification,
    /// The envelope failed its signature, freshness or parse check.
    Invalid,
}

/// What the runner of a signed-envelope session does with a text frame.
#[derive(Debug, Clone, Copy, PartialEq, Eq, Structural)]
pub enum EnvelopeAction {
    Ignore,
    /// Mark the session authenticated.
    Authenticate,
    /// Hand the data on.
    Process,
    /// Close the session.
    Close,
}

/// The decision for a text frame: frames over the rate limit close the
/// session; data is processed only on an authenticated session, and closes
/// any other; an authorization message authenticates; the rest is ignored.
/// Answers whether the session is authenticated afterwards, and the action.
pub open spec fn envelope_decision(authenticated: bool, within_rate: bool, kind: EnvelopeKind) -> (bool, EnvelopeAction) {
    if !within_rate {
        (authenticated, EnvelopeAction::Close)
    } else {
        match kind {
            EnvelopeKind::Authorization => (true, EnvelopeAction::Authenticate),
            EnvelopeKind::Notification => if authenticated {
                (true, EnvelopeAction::Process)
            } else {
                (false, EnvelopeAction::Close)
            },
            _ => (authenticated, EnvelopeAction::Ignore),
        }
    }
}

/// Decides what to do with a text frame of a signed-envelope session.
pub fn envelope_step(authenticated: bool, within_rate: bool, kind: EnvelopeKind) -> (r: (bool, EnvelopeAction))
    ensures
        r == envelope_decision(authenticated, within_rate, kind),
{
    if !within_rate {
        return (authenticated, EnvelopeAction::Close);
    }
    match kind {
        EnvelopeKind::Authorization => (true, EnvelopeAction::Authenticate),
        EnvelopeKind::Notification => {
            if authenticated {
                (true, EnvelopeAction::Process)
            } else {
                (false, EnvelopeAction::Close)
            }
        },
        _ => (authenticated, EnvelopeAction::Ignore),
    }
}

/// Data is processed only on a session that is already authenticated, and
/// nothing but an authorization message authenticates one.
pub proof fn lemma_process_needs_authorization(authenticated: bool, within_rate: bool, kind: EnvelopeKind)
    ensures
        envelope_decision(authenticated, within_rate, kind).1 == EnvelopeAction::Process ==> authenticated,
        !authenticated && envelope_decision(authenticated, within_rate, kind).0 ==> kind
            == EnvelopeKind::Authorization,
{
}

} // verus!
