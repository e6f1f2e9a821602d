//! Circulation: memory items checked out and in, and holds queued on them.

pub mod adapter;
pub mod holds;
pub mod tracker;

use vstd::prelude::*;
use crate::ids::{AgentId, ItemId};

verus! {

/// A collection items belong to.
#[derive(Debug, PartialEq, Eq)]
pub struct CollectionRef {
    pub uri: String,
}

impl Clone for CollectionRef {
    fn clone(&self) -> (r: Self)
        ensures
            r == *self,
    {
        CollectionRef { uri: self.uri.clone() }
    }
}

/// How soon a hold must be served.
#[derive(Debug, Clone, Copy, PartialEq, Eq, Structural, Hash)]
pub enum HoldUrgency {
    Rush,
    InterlibraryLoan,
    Normal,
}

/// A request for an item.
#[derive(Debug, PartialEq, Eq)]
pub struct Hold {
    pub hold_id: String,
    pub item_id: ItemId,
    pub collection: CollectionRef,
    pub requesting_agent: AgentId,
    pub urgency: HoldUrgency,
    pub queue_position: u32,
    pub placed_at: String,
    pub due_date: Option<String>,
    pub satisfied: bool,
}

impl Clone for Hold {
    fn clone(&self) -> (r: Self)
        ensures
            r == *self,
    {
        Hold {
            hold_id: self.hold_id.clone(),
            item_id: self.item_id.clone(),
            collection: self.collection.clone(),
            requesting_agent: self.requesting_agent.clone(),
            urgency: self.urgency,
            queue_position: self.queue_position,
            placed_at: self.placed_at.clone(),
            due_date: match &self.due_date {
                Some(d) => Some(d.clone()),
                None => None,
            },
            satisfied: self.satisfied,
        }
    }
}

} // verus!
