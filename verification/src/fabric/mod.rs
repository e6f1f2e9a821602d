//! The fabric: patches, commit messages and progress of a piece of work.

pub mod commit;
pub mod diff;
pub mod patch;
pub mod progress;

use vstd::prelude::*;
use crate::ids::AgentId;
use crate::text::{dec, dec_string, push_str};
use commit::{CommitMessageBuilder, FabricMetadata, LoomTrailer, WeavePattern, message_of, pattern_name, trailer_lines};
use patch::{PatchBuilder, PatchError, validation_error};

verus! {

/// A finished piece of work: the patch, its commit message and metadata.
#[derive(Debug, PartialEq, Eq)]
pub struct Fabric {
    pub patch: String,
    pub commit_message: String,
    pub metadata: FabricMetadata,
}

/// Produces fabrics for an agent with a weave pattern.
pub struct FabricProducer {
    agent: AgentId,
    pattern: WeavePattern,
}

/// The thread count `NW/MF`.
pub open spec fn thread_count_text(warp: u32, weft: u32) -> Seq<char> {
    dec(warp as nat) + "W/"@ + dec(weft as nat) + "F"@
}

impl FabricProducer {
    /// A producer for an agent and pattern.
    pub fn new(agent: AgentId, pattern: WeavePattern) -> (p: Self)
        ensures
            p.agent() == agent@,
            p.pattern() == pattern,
    {
        FabricProducer { agent, pattern }
    }

    /// The producing agent.
    pub closed spec fn agent(self) -> Seq<char> {
        self.agent@
    }

    /// The weave pattern.
    pub closed spec fn pattern(self) -> WeavePattern {
        self.pattern
    }

    /// Check the patch and write the commit message: the task description,
    /// then the loom trailer. Fails as `PatchBuilder::validate` does.
    pub fn produce(
        &self,
        patch_content: &str,
        task_description: &str,
        warp_count: u32,
        weft_count: u32,
        inspector: Option<AgentId>,
    ) -> (r: Result<Fabric, PatchError>)
        ensures
            match validation_error(patch_content@) {
                Some(e) => r == Err::<Fabric, PatchError>(e),
                None => r is Ok && {
                    let f = r->Ok_0;
                    let insp = match inspector { Some(a) => Some(a@), None => None::<Seq<char>> };
                    &&& f.patch@ == patch_content@
                    &&& f.metadata.thread_count@ == thread_count_text(warp_count, weft_count)
                    &&& f.metadata.weave_pattern == self.pattern()
                    &&& f.metadata.inspected_by == inspector
                    &&& f.commit_message@ == message_of(
                        task_description@,
                        Seq::empty(),
                        Some(trailer_lines(thread_count_text(warp_count, weft_count), pattern_name(self.pattern()), insp)),
                        Seq::empty(),
                    )
                },
            },
    {
        let patch = match PatchBuilder::new(patch_content).validate() {
            Ok(b) => b.build(),
            Err(e) => return Err(e),
        };
        let mut count = String::new();
        let w = dec_string(warp_count as u64);
        push_str(&mut count, w.as_str());
        push_str(&mut count, "W/");
        let f = dec_string(weft_count as u64);
        push_str(&mut count, f.as_str());
        push_str(&mut count, "F");
        proof {
            reveal_strlit("W/");
            reveal_strlit("F");
            reveal_strlit("");
        }
        let metadata = FabricMetadata { thread_count: count, weave_pattern: self.pattern, inspected_by: inspector };
        let trailer = LoomTrailer::from_metadata(&metadata);
        let message = CommitMessageBuilder::new().with_description(task_description).with_trailer(trailer).build();
        let commit_message = match message {
            Ok(m) => m,
            Err(_) => {
                assert(false);
                String::new()
            },
        };
        Ok(Fabric { patch, commit_message, metadata })
    }
}

} // verus!
