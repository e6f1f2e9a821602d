//! Commit signers and the key audit log.

use vstd::prelude::*;
use vstd::wrapping::u64_specs::{wrapping_add, wrapping_mul};
use vstd::utf8::encode_utf8;
use crate::ids::AgentId;
use crate::text::{hex_pad, hex_pad_string, push_str, str_eq};

verus! {

/// Why a signer refused to sign.
#[derive(Debug, PartialEq, Eq)]
pub enum SignError {
    Denied { reason: String },
}

impl SignError {
    /// The error as a sentence.
    pub fn message(&self) -> (s: String)
        ensures
            s@ == (match self {
                SignError::Denied { reason } => "Signing denied: "@ + reason@,
            }),
    {
        match self {
            SignError::Denied { reason } => {
                let mut s = String::new();
                push_str(&mut s, "Signing denied: ");
                push_str(&mut s, reason.as_str());
                proof {
                    reveal_strlit("Signing denied: ");
                    reveal_strlit("");
                }
                s
            },
        }
    }
}

/// Something that signs commit payloads and checks signatures.
pub trait CommitSigner {
    /// A signature for `message`.
    fn sign(&self, message: &[u8]) -> Result<Vec<u8>, SignError>;

    /// Whether `signature` is a valid signature of `message` by `agent`.
    fn verify(&self, message: &[u8], signature: &[u8], agent: &AgentId) -> Result<bool, SignError>;
}

/// The position-weighted wrapping byte sum of `m`: the sum of `i * m[i]`,
/// modulo 2^64.
pub open spec fn weighted_sum(m: Seq<u8>) -> u64
    decreases m.len(),
{
    if m.len() == 0 {
        0
    } else {
        wrapping_add(weighted_sum(m.drop_last()), wrapping_mul((m.len() - 1) as u64, m.last() as u64))
    }
}

/// The placeholder signature of `m`: `noop-sig:` and the weighted sum as
/// sixteen lower-case hexadecimal digits, as UTF-8 bytes.
pub open spec fn noop_signature(m: Seq<u8>) -> Seq<u8> {
    encode_utf8("noop-sig:"@ + hex_pad(weighted_sum(m) as nat, 16))
}

/// A signer for tests and development: signs everything, accepts everything.
pub struct NoOpSigner;

impl CommitSigner for NoOpSigner {
    fn sign(&self, message: &[u8]) -> (r: Result<Vec<u8>, SignError>)
        ensures
            r matches Ok(sig) && sig@ == noop_signature(message@),
    {
        let mut sum: u64 = 0;
        let mut i: usize = 0;
        while i < message.len()
            invariant
                i <= message@.len(),
                sum == weighted_sum(message@.subrange(0, i as int)),
            decreases message@.len() - i,
        {
            proof {
                let next = message@.subrange(0, i + 1);
                assert(next.drop_last() =~= message@.subrange(0, i as int));
                assert(next.last() == message@[i as int]);
            }
            sum = sum.wrapping_add((i as u64).wrapping_mul(message[i] as u64));
            i = i + 1;
        }
        assert(message@.subrange(0, message@.len() as int) =~= message@);
        let mut s = String::new();
        push_str(&mut s, "noop-sig:");
        let h = hex_pad_string(sum, 16);
        push_str(&mut s, h.as_str());
        proof {
            reveal_strlit("noop-sig:");
            reveal_strlit("");
        }
        let sig = vstd::slice::slice_to_vec(s.as_str().as_bytes());
        Ok(sig)
    }

    fn verify(&self, message: &[u8], signature: &[u8], agent: &AgentId) -> (r: Result<bool, SignError>)
        ensures
            r == Ok::<bool, SignError>(true),
    {
        Ok(true)
    }
}

/// A signer that refuses to sign and rejects every signature.
pub struct DenyAllSigner {
    reason: String,
}

impl DenyAllSigner {
    /// A signer that refuses with `reason`.
    pub fn new(reason: &str) -> (s: Self)
        ensures
            s.reason_view() == reason@,
    {
        DenyAllSigner { reason: reason.to_owned() }
    }

    /// The reason given for refusing.
    pub closed spec fn reason_view(self) -> Seq<char> {
        self.reason@
    }
}

impl CommitSigner for DenyAllSigner {
    fn sign(&self, message: &[u8]) -> (r: Result<Vec<u8>, SignError>)
        ensures
            r matches Err(SignError::Denied { reason }) && reason@ == self.reason_view(),
    {
        Err(SignError::Denied { reason: self.reason.clone() })
    }

    fn verify(&self, message: &[u8], signature: &[u8], agent: &AgentId) -> (r: Result<bool, SignError>)
        ensures
            r == Ok::<bool, SignError>(false),
    {
        Ok(false)
    }
}

/// One step in the life of a signing key.
#[derive(Debug, PartialEq, Eq)]
pub enum KeyLifecycleEvent {
    Provisioned { agent: AgentId, key_id: String, timestamp: String },
    Rotated { agent: AgentId, old_key_id: String, new_key_id: String, timestamp: String },
    Compromised { agent: AgentId, key_id: String, timestamp: String, reason: String },
    Decommissioned { agent: AgentId, key_id: String, timestamp: String },
}

/// The agent an event concerns.
pub open spec fn event_agent(e: KeyLifecycleEvent) -> Seq<char> {
    match e {
        KeyLifecycleEvent::Provisioned { agent, .. } => agent@,
        KeyLifecycleEvent::Rotated { agent, .. } => agent@,
        KeyLifecycleEvent::Compromised { agent, .. } => agent@,
        KeyLifecycleEvent::Decommissioned { agent, .. } => agent@,
    }
}

/// When an event happened.
pub open spec fn event_time(e: KeyLifecycleEvent) -> Seq<char> {
    match e {
        KeyLifecycleEvent::Provisioned { timestamp, .. } => timestamp@,
        KeyLifecycleEvent::Rotated { timestamp, .. } => timestamp@,
        KeyLifecycleEvent::Compromised { timestamp, .. } => timestamp@,
        KeyLifecycleEvent::Decommissioned { timestamp, .. } => timestamp@,
    }
}

impl KeyLifecycleEvent {
    /// The agent the event concerns.
    pub fn agent(&self) -> (a: &AgentId)
        ensures
            a@ == event_agent(*self),
    {
        match self {
            KeyLifecycleEvent::Provisioned { agent, .. } => agent,
            KeyLifecycleEvent::Rotated { agent, .. } => agent,
            KeyLifecycleEvent::Compromised { agent, .. } => agent,
            KeyLifecycleEvent::Decommissioned { agent, .. } => agent,
        }
    }

    /// When the event happened.
    pub fn timestamp(&self) -> (t: &str)
        ensures
            t@ == event_time(*self),
    {
        match self {
            KeyLifecycleEvent::Provisioned { timestamp, .. } => timestamp.as_str(),
            KeyLifecycleEvent::Rotated { timestamp, .. } => timestamp.as_str(),
            KeyLifecycleEvent::Compromised { timestamp, .. } => timestamp.as_str(),
            KeyLifecycleEvent::Decommissioned { timestamp, .. } => timestamp.as_str(),
        }
    }
}

/// The events of a borrowed sequence.
pub open spec fn deref_events(v: Seq<&KeyLifecycleEvent>) -> Seq<KeyLifecycleEvent> {
    v.map_values(|e: &KeyLifecycleEvent| *e)
}

/// Append-only record of key lifecycle events.
pub struct KeyAuditLog {
    events: Vec<KeyLifecycleEvent>,
}

impl View for KeyAuditLog {
    type V = Seq<KeyLifecycleEvent>;

    closed spec fn view(&self) -> Seq<KeyLifecycleEvent> {
        self.events@
    }
}

impl Default for KeyAuditLog {
    fn default() -> (l: Self)
        ensures
            l@ == Seq::<KeyLifecycleEvent>::empty(),
    {
        KeyAuditLog::new()
    }
}

impl KeyAuditLog {
    /// An empty log.
    pub fn new() -> (l: Self)
        ensures
            l@ == Seq::<KeyLifecycleEvent>::empty(),
    {
        KeyAuditLog { events: Vec::new() }
    }

    /// Append an event.
    pub fn record(&mut self, event: KeyLifecycleEvent)
        ensures
            final(self)@ == old(self)@.push(event),
    {
        self.events.push(event);
    }

    /// The events concerning `agent`, oldest first.
    pub fn events_for(&self, agent: &AgentId) -> (r: Vec<&KeyLifecycleEvent>)
        ensures
            deref_events(r@) == self@.filter(|e: KeyLifecycleEvent| event_agent(e) == agent@),
    {
        let ghost g = self@;
        let ghost p = |e: KeyLifecycleEvent| event_agent(e) == agent@;
        let mut out: Vec<&KeyLifecycleEvent> = Vec::new();
        let mut i: usize = 0;
        while i < self.events.len()
            invariant
                g == self@,
                i <= g.len(),
                p == (|e: KeyLifecycleEvent| event_agent(e) == agent@),
                deref_events(out@) == g.take(i as int).filter(p),
            decreases g.len() - i,
        {
            let e = &self.events[i];
            proof {
                assert(g.take(i + 1).drop_last() =~= g.take(i as int));
                reveal_with_fuel(Seq::filter, 1);
            }
            let ghost before = out@;
            if str_eq(e.agent().0.as_str(), agent.0.as_str()) {
                out.push(e);
                assert(deref_events(out@) =~= deref_events(before).push(g[i as int]));
            } else {
                assert(deref_events(out@) =~= deref_events(before));
            }
            i = i + 1;
        }
        assert(g.take(g.len() as int) =~= g);
        out
    }

    /// Every event, oldest first.
    pub fn all_events(&self) -> (r: &[KeyLifecycleEvent])
        ensures
            r@ == self@,
    {
        self.events.as_slice()
    }

    /// Number of events.
    pub fn len(&self) -> (n: usize)
        ensures
            n == self@.len(),
    {
        self.events.len()
    }

    /// Whether the log is empty.
    pub fn is_empty(&self) -> (r: bool)
        ensures
            r == (self@.len() == 0),
    {
        self.events.len() == 0
    }
}

} // verus!
