//! String-backed identifiers shared across modules.
//!
//! Each identifier is viewed as the character sequence it wraps, so two
//! identifiers are the same exactly when their views are equal.

use vstd::prelude::*;

verus! {

/// Identifier of an agent.
#[derive(Debug, PartialEq, Eq, Hash)]
pub struct AgentId(pub String);

/// Identifier of a memory or manifest entry.
#[derive(Debug, PartialEq, Eq, Hash)]
pub struct EntryId(pub String);

/// Identifier of a catalogued item.
#[derive(Debug, PartialEq, Eq, Hash)]
pub struct ItemId(pub String);

/// Identifier of a task.
#[derive(Debug, PartialEq, Eq, Hash)]
pub struct TaskId(pub String);

/// Identifier of a story arc.
#[derive(Debug, PartialEq, Eq, Hash)]
pub struct ArcId(pub String);

/// Identifier of a recurring motif.
#[derive(Debug, PartialEq, Eq, Hash)]
pub struct MotifId(pub String);

/// Identifier of a narrative tension.
#[derive(Debug, PartialEq, Eq, Hash)]
pub struct TensionId(pub String);

impl View for AgentId {
    type V = Seq<char>;

    open spec fn view(&self) -> Seq<char> {
        self.0@
    }
}

impl View for EntryId {
    type V = Seq<char>;

    open spec fn view(&self) -> Seq<char> {
        self.0@
    }
}

impl View for ItemId {
    type V = Seq<char>;

    open spec fn view(&self) -> Seq<char> {
        self.0@
    }
}

impl View for TaskId {
    type V = Seq<char>;

    open spec fn view(&self) -> Seq<char> {
        self.0@
    }
}

impl Clone for AgentId {
    fn clone(&self) -> (r: Self)
        ensures
            r == *self,
    {
        AgentId(self.0.clone())
    }
}

impl Clone for EntryId {
    fn clone(&self) -> (r: Self)
        ensures
            r == *self,
    {
        EntryId(self.0.clone())
    }
}

impl Clone for ItemId {
    fn clone(&self) -> (r: Self)
        ensures
            r == *self,
    {
        ItemId(self.0.clone())
    }
}

impl Clone for TaskId {
    fn clone(&self) -> (r: Self)
        ensures
            r == *self,
    {
        TaskId(self.0.clone())
    }
}

impl AgentId {
    /// Whether two agent identifiers name the same agent.
    pub fn same(&self, other: &AgentId) -> (r: bool)
        ensures
            r == (self@ == other@),
    {
        self.0 == other.0
    }
}

impl EntryId {
    /// Whether two entry identifiers name the same entry.
    pub fn same(&self, other: &EntryId) -> (r: bool)
        ensures
            r == (self@ == other@),
    {
        self.0 == other.0
    }
}

impl ItemId {
    /// Whether two item identifiers name the same item.
    pub fn same(&self, other: &ItemId) -> (r: bool)
        ensures
            r == (self@ == other@),
    {
        self.0 == other.0
    }
}

impl TaskId {
    /// Whether two task identifiers name the same task.
    pub fn same(&self, other: &TaskId) -> (r: bool)
        ensures
            r == (self@ == other@),
    {
        self.0 == other.0
    }
}


impl View for ArcId {
    type V = Seq<char>;

    open spec fn view(&self) -> Seq<char> {
        self.0@
    }
}

impl Clone for ArcId {
    fn clone(&self) -> (r: Self)
        ensures
            r == *self,
    {
        ArcId(self.0.clone())
    }
}

impl View for MotifId {
    type V = Seq<char>;

    open spec fn view(&self) -> Seq<char> {
        self.0@
    }
}

impl Clone for MotifId {
    fn clone(&self) -> (r: Self)
        ensures
            r == *self,
    {
        MotifId(self.0.clone())
    }
}

impl View for TensionId {
    type V = Seq<char>;

    open spec fn view(&self) -> Seq<char> {
        self.0@
    }
}

impl Clone for TensionId {
    fn clone(&self) -> (r: Self)
        ensures
            r == *self,
    {
        TensionId(self.0.clone())
    }
}

} // verus!
