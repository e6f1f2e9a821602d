//! Signing keys through their life: provisioned, scheduled for rotation,
//! rotated, compromised or decommissioned. Every step is recorded in the
//! audit log.

use vstd::prelude::*;
use crate::ids::AgentId;
use crate::text::{push_str, str_eq};
use super::signing::{KeyAuditLog, KeyLifecycleEvent};

verus! {

/// The state of a signing key.
#[derive(Debug, Clone, Copy, PartialEq, Eq, Structural)]
pub enum KeyStatus {
    Active,
    PendingRotation,
    Compromised,
    Decommissioned,
}

/// A signing key and its state.
#[derive(Debug, PartialEq, Eq)]
pub struct KeyRecord {
    pub key_id: String,
    pub agent: AgentId,
    pub status: KeyStatus,
    pub provisioned_at: String,
    pub rotation_due_at: Option<String>,
}

impl Clone for KeyRecord {
    fn clone(&self) -> (r: Self)
        ensures
            r == *self,
    {
        KeyRecord {
            key_id: self.key_id.clone(),
            agent: self.agent.clone(),
            status: self.status,
            provisioned_at: self.provisioned_at.clone(),
            rotation_due_at: match &self.rotation_due_at {
                Some(s) => Some(s.clone()),
                None => None,
            },
        }
    }
}

/// A key operation named a key that does not exist.
#[derive(Debug, PartialEq, Eq)]
pub enum KeyError {
    NotFound { key_id: String },
}

impl KeyError {
    /// The error as a sentence.
    pub fn message(&self) -> (s: String)
        ensures
            s@ == (match self {
                KeyError::NotFound { key_id } => "Key not found: "@ + key_id@,
            }),
    {
        match self {
            KeyError::NotFound { key_id } => {
                let mut s = String::new();
                push_str(&mut s, "Key not found: ");
                push_str(&mut s, key_id.as_str());
                proof {
                    reveal_strlit("Key not found: ");
                    reveal_strlit("");
                }
                s
            },
        }
    }
}

/// Position `i` holds the first key with id `id`.
pub open spec fn first_key(keys: Seq<KeyRecord>, id: Seq<char>, i: int) -> bool {
    &&& 0 <= i < keys.len()
    &&& keys[i].key_id@ == id
    &&& forall|j: int| 0 <= j < i ==> (#[trigger] keys[j]).key_id@ != id
}

/// No key has id `id`.
pub open spec fn no_key(keys: Seq<KeyRecord>, id: Seq<char>) -> bool {
    forall|j: int| 0 <= j < keys.len() ==> (#[trigger] keys[j]).key_id@ != id
}

/// The records of a borrowed sequence.
pub open spec fn deref_keys(v: Seq<&KeyRecord>) -> Seq<KeyRecord> {
    v.map_values(|k: &KeyRecord| *k)
}

/// A fresh active key.
pub open spec fn fresh_key(agent: AgentId, key_id: String, timestamp: String) -> KeyRecord {
    KeyRecord { key_id, agent, status: KeyStatus::Active, provisioned_at: timestamp, rotation_due_at: None }
}

/// The keys of a collective and their audit log.
pub struct KeyManager {
    keys: Vec<KeyRecord>,
    audit_log: KeyAuditLog,
}

impl Default for KeyManager {
    fn default() -> (m: Self)
        ensures
            m.keys_view() == Seq::<KeyRecord>::empty(),
            m.log_view() == Seq::<KeyLifecycleEvent>::empty(),
    {
        KeyManager::new()
    }
}

impl KeyManager {
    /// Every key, in the order provisioned.
    pub closed spec fn keys_view(self) -> Seq<KeyRecord> {
        self.keys@
    }

    /// The audit log's events.
    pub closed spec fn log_view(self) -> Seq<KeyLifecycleEvent> {
        self.audit_log@
    }

    /// No keys and an empty log.
    pub fn new() -> (m: Self)
        ensures
            m.keys_view() == Seq::<KeyRecord>::empty(),
            m.log_view() == Seq::<KeyLifecycleEvent>::empty(),
    {
        KeyManager { keys: Vec::new(), audit_log: KeyAuditLog::new() }
    }

    fn position(&self, key_id: &str) -> (r: Option<usize>)
        ensures
            match r {
                Some(i) => first_key(self.keys@, key_id@, i as int),
                None => no_key(self.keys@, key_id@),
            },
    {
        let mut i: usize = 0;
        while i < self.keys.len()
            invariant
                i <= self.keys@.len(),
                forall|j: int| 0 <= j < i ==> (#[trigger] self.keys@[j]).key_id@ != key_id@,
            decreases self.keys@.len() - i,
        {
            if str_eq(self.keys[i].key_id.as_str(), key_id) {
                return Some(i);
            }
            i = i + 1;
        }
        None
    }

    /// Provision a new active key for `agent` and log it; the new record is returned.
    pub fn provision(&mut self, agent: AgentId, key_id: String, timestamp: String) -> (k: &KeyRecord)
        ensures
            final(self).keys_view() == old(self).keys_view().push(fresh_key(agent, key_id, timestamp)),
            final(self).log_view() == old(self).log_view().push(
                KeyLifecycleEvent::Provisioned { agent, key_id, timestamp },
            ),
            *k == fresh_key(agent, key_id, timestamp),
    {
        self.audit_log.record(KeyLifecycleEvent::Provisioned {
            agent: agent.clone(),
            key_id: key_id.clone(),
            timestamp: timestamp.clone(),
        });
        self.keys.push(KeyRecord {
            key_id,
            agent,
            status: KeyStatus::Active,
            provisioned_at: timestamp,
            rotation_due_at: None,
        });
        let last = self.keys.len() - 1;
        &self.keys[last]
    }

    /// Mark the first key with `key_id` as due for rotation at the given
    /// time; false when there is no such key. Nothing is logged.
    pub fn schedule_rotation(&mut self, key_id: &str, rotation_due_at: String) -> (r: bool)
        ensures
            r == !no_key(old(self).keys_view(), key_id@),
            forall|i: int| first_key(old(self).keys_view(), key_id@, i) ==> final(self).keys_view() == old(self).keys_view().update(
                i,
                KeyRecord { status: KeyStatus::PendingRotation, rotation_due_at: Some(rotation_due_at), ..old(self).keys_view()[i] },
            ),
            no_key(old(self).keys_view(), key_id@) ==> final(self).keys_view() == old(self).keys_view(),
            final(self).log_view() == old(self).log_view(),
    {
        match self.position(key_id) {
            Some(i) => {
                let mut k = self.keys[i].clone();
                k.status = KeyStatus::PendingRotation;
                k.rotation_due_at = Some(rotation_due_at);
                self.keys.set(i, k);
                true
            },
            None => false,
        }
    }

    /// Rotate a key: the old key is decommissioned, the rotation is logged,
    /// and a new active key for the same agent is added.
    pub fn rotate(&mut self, old_key_id: &str, new_key_id: String, timestamp: String) -> (r: Result<(), KeyError>)
        ensures
            r is Err <==> no_key(old(self).keys_view(), old_key_id@),
            r matches Err(KeyError::NotFound { key_id }) ==> key_id@ == old_key_id@
                && final(self).keys_view() == old(self).keys_view() && final(self).log_view() == old(self).log_view(),
            forall|i: int| #[trigger] first_key(old(self).keys_view(), old_key_id@, i) ==> {
                let agent = old(self).keys_view()[i].agent;
                &&& final(self).keys_view() == old(self).keys_view().update(
                    i,
                    KeyRecord { status: KeyStatus::Decommissioned, ..old(self).keys_view()[i] },
                ).push(fresh_key(agent, new_key_id, timestamp))
                &&& final(self).log_view() == old(self).log_view().push(
                    KeyLifecycleEvent::Rotated { agent, old_key_id: old(self).keys_view()[i].key_id, new_key_id, timestamp },
                )
            },
    {
        let i = match self.position(old_key_id) {
            Some(i) => i,
            None => {
                return Err(KeyError::NotFound { key_id: old_key_id.to_owned() });
            },
        };
        let mut k = self.keys[i].clone();
        k.status = KeyStatus::Decommissioned;
        let agent = k.agent.clone();
        let old_id = k.key_id.clone();
        self.keys.set(i, k);
        self.audit_log.record(KeyLifecycleEvent::Rotated {
            agent: agent.clone(),
            old_key_id: old_id,
            new_key_id: new_key_id.clone(),
            timestamp: timestamp.clone(),
        });
        self.keys.push(KeyRecord {
            key_id: new_key_id,
            agent,
            status: KeyStatus::Active,
            provisioned_at: timestamp,
            rotation_due_at: None,
        });
        proof {
            assert forall|i2: int| #[trigger] first_key(old(self).keys_view(), old_key_id@, i2) implies i2 == i as int by {
                if i2 < i { assert(old(self).keys_view()[i2].key_id@ != old_key_id@); }
                if i2 > i { assert(old(self).keys_view()[i as int].key_id@ != old_key_id@); }
            }
        }
        Ok(())
    }

    /// Mark a key compromised and log why.
    pub fn compromise(&mut self, key_id: &str, timestamp: String, reason: String) -> (r: Result<(), KeyError>)
        ensures
            r is Err <==> no_key(old(self).keys_view(), key_id@),
            r matches Err(KeyError::NotFound { key_id: k }) ==> k@ == key_id@
                && final(self).keys_view() == old(self).keys_view() && final(self).log_view() == old(self).log_view(),
            forall|i: int| #[trigger] first_key(old(self).keys_view(), key_id@, i) ==> {
                &&& final(self).keys_view() == old(self).keys_view().update(
                    i,
                    KeyRecord { status: KeyStatus::Compromised, ..old(self).keys_view()[i] },
                )
                &&& final(self).log_view() == old(self).log_view().push(
                    KeyLifecycleEvent::Compromised { agent: old(self).keys_view()[i].agent, key_id: old(self).keys_view()[i].key_id, timestamp, reason },
                )
            },
    {
        let i = match self.position(key_id) {
            Some(i) => i,
            None => {
                return Err(KeyError::NotFound { key_id: key_id.to_owned() });
            },
        };
        let mut k = self.keys[i].clone();
        k.status = KeyStatus::Compromised;
        let agent = k.agent.clone();
        let id = k.key_id.clone();
        self.keys.set(i, k);
        self.audit_log.record(KeyLifecycleEvent::Compromised { agent, key_id: id, timestamp, reason });
        proof {
            assert forall|i2: int| #[trigger] first_key(old(self).keys_view(), key_id@, i2) implies i2 == i as int by {
                if i2 < i { assert(old(self).keys_view()[i2].key_id@ != key_id@); }
                if i2 > i { assert(old(self).keys_view()[i as int].key_id@ != key_id@); }
            }
        }
        Ok(())
    }

    /// Decommission a key and log it.
    pub fn decommission(&mut self, key_id: &str, timestamp: String) -> (r: Result<(), KeyError>)
        ensures
            r is Err <==> no_key(old(self).keys_view(), key_id@),
            r matches Err(KeyError::NotFound { key_id: k }) ==> k@ == key_id@
                && final(self).keys_view() == old(self).keys_view() && final(self).log_view() == old(self).log_view(),
            forall|i: int| #[trigger] first_key(old(self).keys_view(), key_id@, i) ==> {
                &&& final(self).keys_view() == old(self).keys_view().update(
                    i,
                    KeyRecord { status: KeyStatus::Decommissioned, ..old(self).keys_view()[i] },
                )
                &&& final(self).log_view() == old(self).log_view().push(
                    KeyLifecycleEvent::Decommissioned { agent: old(self).keys_view()[i].agent, key_id: old(self).keys_view()[i].key_id, timestamp },
                )
            },
    {
        let i = match self.position(key_id) {
            Some(i) => i,
            None => {
                return Err(KeyError::NotFound { key_id: key_id.to_owned() });
            },
        };
        let mut k = self.keys[i].clone();
        k.status = KeyStatus::Decommissioned;
        let agent = k.agent.clone();
        let id = k.key_id.clone();
        self.keys.set(i, k);
        self.audit_log.record(KeyLifecycleEvent::Decommissioned { agent, key_id: id, timestamp });
        proof {
            assert forall|i2: int| #[trigger] first_key(old(self).keys_view(), key_id@, i2) implies i2 == i as int by {
                if i2 < i { assert(old(self).keys_view()[i2].key_id@ != key_id@); }
                if i2 > i { assert(old(self).keys_view()[i as int].key_id@ != key_id@); }
            }
        }
        Ok(())
    }

    /// The first active key of `agent`.
    pub fn active_key(&self, agent: &AgentId) -> (r: Option<&KeyRecord>)
        ensures
            match r {
                Some(k) => exists|i: int| {
                    &&& 0 <= i < self.keys_view().len()
                    &&& *k == self.keys_view()[i]
                    &&& k.agent@ == agent@ && k.status == KeyStatus::Active
                    &&& forall|j: int| 0 <= j < i ==> !((#[trigger] self.keys_view()[j]).agent@ == agent@ && self.keys_view()[j].status == KeyStatus::Active)
                },
                None => forall|j: int| 0 <= j < self.keys_view().len() ==> !((#[trigger] self.keys_view()[j]).agent@ == agent@ && self.keys_view()[j].status == KeyStatus::Active),
            },
    {
        let mut i: usize = 0;
        while i < self.keys.len()
            invariant
                i <= self.keys@.len(),
                forall|j: int| 0 <= j < i ==> !((#[trigger] self.keys@[j]).agent@ == agent@ && self.keys@[j].status == KeyStatus::Active),
            decreases self.keys@.len() - i,
        {
            if str_eq(self.keys[i].agent.0.as_str(), agent.0.as_str()) && self.keys[i].status == KeyStatus::Active {
                return Some(&self.keys[i]);
            }
            i = i + 1;
        }
        None
    }

    /// Every key of `agent`, in the order provisioned.
    pub fn keys_for(&self, agent: &AgentId) -> (r: Vec<&KeyRecord>)
        ensures
            deref_keys(r@) == self.keys_view().filter(|k: KeyRecord| k.agent@ == agent@),
    {
        let ghost g = self.keys@;
        let ghost p = |k: KeyRecord| k.agent@ == agent@;
        let mut out: Vec<&KeyRecord> = Vec::new();
        let mut i: usize = 0;
        while i < self.keys.len()
            invariant
                g == self.keys@,
                i <= g.len(),
                p == (|k: KeyRecord| k.agent@ == agent@),
                deref_keys(out@) == g.take(i as int).filter(p),
            decreases g.len() - i,
        {
            let k = &self.keys[i];
            proof {
                assert(g.take(i + 1).drop_last() =~= g.take(i as int));
                reveal_with_fuel(Seq::filter, 1);
            }
            let ghost before = out@;
            if str_eq(k.agent.0.as_str(), agent.0.as_str()) {
                out.push(k);
                assert(deref_keys(out@) =~= deref_keys(before).push(g[i as int]));
            } else {
                assert(deref_keys(out@) =~= deref_keys(before));
            }
            i = i + 1;
        }
        assert(g.take(g.len() as int) =~= g);
        out
    }

    /// The audit log.
    pub fn audit_log(&self) -> (l: &KeyAuditLog)
        ensures
            l@ == self.log_view(),
    {
        &self.audit_log
    }
}

} // verus!
