//! Which tools an agent may call in each phase of a task.

use vstd::prelude::*;
use crate::text::str_eq;
use super::{TaskPhase, ToolSpec};

verus! {

/// The name and description of each tool of a phase, in order.
pub open spec fn phase_tools(phase: TaskPhase) -> Seq<(Seq<char>, Seq<char>)> {
    match phase {
        TaskPhase::Classify => seq![
            ("memory-retrieve"@, "Query memory store for relevant entries"@),
            ("memory-list"@, "List memory entry IDs by state"@),
            ("git-log"@, "View git commit history"@),
            ("git-diff"@, "View file differences"@),
            ("file-read"@, "Read file contents"@),
            ("file-search"@, "Search for files by pattern"@),
        ],
        TaskPhase::Plan => seq![
            ("memory-retrieve"@, "Query memory store for relevant entries"@),
            ("file-read"@, "Read file contents"@),
            ("file-search"@, "Search for files by pattern"@),
            ("git-log"@, "View git commit history"@),
            ("git-blame"@, "Annotate file with commit info"@),
        ],
        TaskPhase::Implement => seq![
            ("file-read"@, "Read file contents"@),
            ("file-write"@, "Write file contents"@),
            ("file-edit"@, "Edit file with replacements"@),
            ("git-diff"@, "View current changes"@),
            ("git-commit"@, "Create a commit"@),
            ("shell-run"@, "Execute shell commands"@),
        ],
        TaskPhase::Validate => seq![
            ("file-read"@, "Read file contents"@),
            ("git-diff"@, "View current changes"@),
            ("memory-retrieve"@, "Query memory for contradiction checking"@),
            ("continuity-check"@, "Run continuity validation"@),
            ("tool-risk-classify"@, "Classify tool risk level"@),
        ],
        TaskPhase::Catalog => seq![
            ("memory-store"@, "Store a memory entry"@),
            ("memory-transition"@, "Transition entry lifecycle state"@),
            ("memory-classify"@, "Classify and catalog a memory entry"@),
        ],
        TaskPhase::Coordinate => seq![
            ("forge-create-pr"@, "Create a pull request"@),
            ("forge-comment"@, "Post a PR comment"@),
            ("forge-add-label"@, "Add label to a PR"@),
            ("forge-list-prs"@, "List PRs by label"@),
        ],
    }
}

/// The name and description of each tool.
pub open spec fn tool_views(v: Seq<ToolSpec>) -> Seq<(Seq<char>, Seq<char>)> {
    v.map_values(|t: ToolSpec| (t.name@, t.description@))
}

/// The tool is one of the phase's.
pub open spec fn allowed_in(tool: Seq<char>, phase: TaskPhase) -> bool {
    exists|i: int| 0 <= i < phase_tools(phase).len() && (#[trigger] phase_tools(phase)[i]).0 == tool
}

/// Every phase, in pipeline order.
pub open spec fn all_phases() -> Seq<TaskPhase> {
    seq![TaskPhase::Classify, TaskPhase::Plan, TaskPhase::Implement, TaskPhase::Validate, TaskPhase::Catalog, TaskPhase::Coordinate]
}

fn tool(name: &str, description: &str, phase: TaskPhase) -> (t: ToolSpec)
    ensures
        t.name@ == name@,
        t.description@ == description@,
        t.phase == phase,
{
    ToolSpec { name: name.to_owned(), description: description.to_owned(), phase }
}

/// The tools of the classify phase.
fn classify_tools() -> (v: Vec<ToolSpec>)
    ensures
        tool_views(v@) == phase_tools(TaskPhase::Classify),
        forall|i: int| 0 <= i < v@.len() ==> (#[trigger] v@[i]).phase == TaskPhase::Classify,
{
    let mut v: Vec<ToolSpec> = Vec::new();
    v.push(tool("memory-retrieve", "Query memory store for relevant entries", TaskPhase::Classify));
    v.push(tool("memory-list", "List memory entry IDs by state", TaskPhase::Classify));
    v.push(tool("git-log", "View git commit history", TaskPhase::Classify));
    v.push(tool("git-diff", "View file differences", TaskPhase::Classify));
    v.push(tool("file-read", "Read file contents", TaskPhase::Classify));
    v.push(tool("file-search", "Search for files by pattern", TaskPhase::Classify));
    assert(tool_views(v@) =~= phase_tools(TaskPhase::Classify));
    v
}

/// The tools of the plan phase.
fn plan_tools() -> (v: Vec<ToolSpec>)
    ensures
        tool_views(v@) == phase_tools(TaskPhase::Plan),
        forall|i: int| 0 <= i < v@.len() ==> (#[trigger] v@[i]).phase == TaskPhase::Plan,
{
    let mut v: Vec<ToolSpec> = Vec::new();
    v.push(tool("memory-retrieve", "Query memory store for relevant entries", TaskPhase::Plan));
    v.push(tool("file-read", "Read file contents", TaskPhase::Plan));
    v.push(tool("file-search", "Search for files by pattern", TaskPhase::Plan));
    v.push(tool("git-log", "View git commit history", TaskPhase::Plan));
    v.push(tool("git-blame", "Annotate file with commit info", TaskPhase::Plan));
    assert(tool_views(v@) =~= phase_tools(TaskPhase::Plan));
    v
}

/// The tools of the implement phase.
fn implement_tools() -> (v: Vec<ToolSpec>)
    ensures
        tool_views(v@) == phase_tools(TaskPhase::Implement),
        forall|i: int| 0 <= i < v@.len() ==> (#[trigger] v@[i]).phase == TaskPhase::Implement,
{
    let mut v: Vec<ToolSpec> = Vec::new();
    v.push(tool("file-read", "Read file contents", TaskPhase::Implement));
    v.push(tool("file-write", "Write file contents", TaskPhase::Implement));
    v.push(tool("file-edit", "Edit file with replacements", TaskPhase::Implement));
    v.push(tool("git-diff", "View current changes", TaskPhase::Implement));
    v.push(tool("git-commit", "Create a commit", TaskPhase::Implement));
    v.push(tool("shell-run", "Execute shell commands", TaskPhase::Implement));
    assert(tool_views(v@) =~= phase_tools(TaskPhase::Implement));
    v
}

/// The tools of the validate phase.
fn validate_tools() -> (v: Vec<ToolSpec>)
    ensures
        tool_views(v@) == phase_tools(TaskPhase::Validate),
        forall|i: int| 0 <= i < v@.len() ==> (#[trigger] v@[i]).phase == TaskPhase::Validate,
{
    let mut v: Vec<ToolSpec> = Vec::new();
    v.push(tool("file-read", "Read file contents", TaskPhase::Validate));
    v.push(tool("git-diff", "View current changes", TaskPhase::Validate));
    v.push(tool("memory-retrieve", "Query memory for contradiction checking", TaskPhase::Validate));
    v.push(tool("continuity-check", "Run continuity validation", TaskPhase::Validate));
    v.push(tool("tool-risk-classify", "Classify tool risk level", TaskPhase::Validate));
    assert(tool_views(v@) =~= phase_tools(TaskPhase::Validate));
    v
}

/// The tools of the catalog phase.
fn catalog_tools() -> (v: Vec<ToolSpec>)
    ensures
        tool_views(v@) == phase_tools(TaskPhase::Catalog),
        forall|i: int| 0 <= i < v@.len() ==> (#[trigger] v@[i]).phase == TaskPhase::Catalog,
{
    let mut v: Vec<ToolSpec> = Vec::new();
    v.push(tool("memory-store", "Store a memory entry", TaskPhase::Catalog));
    v.push(tool("memory-transition", "Transition entry lifecycle state", TaskPhase::Catalog));
    v.push(tool("memory-classify", "Classify and catalog a memory entry", TaskPhase::Catalog));
    assert(tool_views(v@) =~= phase_tools(TaskPhase::Catalog));
    v
}

/// The tools of the coordinate phase.
fn coordinate_tools() -> (v: Vec<ToolSpec>)
    ensures
        tool_views(v@) == phase_tools(TaskPhase::Coordinate),
        forall|i: int| 0 <= i < v@.len() ==> (#[trigger] v@[i]).phase == TaskPhase::Coordinate,
{
    let mut v: Vec<ToolSpec> = Vec::new();
    v.push(tool("forge-create-pr", "Create a pull request", TaskPhase::Coordinate));
    v.push(tool("forge-comment", "Post a PR comment", TaskPhase::Coordinate));
    v.push(tool("forge-add-label", "Add label to a PR", TaskPhase::Coordinate));
    v.push(tool("forge-list-prs", "List PRs by label", TaskPhase::Coordinate));
    assert(tool_views(v@) =~= phase_tools(TaskPhase::Coordinate));
    v
}

/// The tools allowed in `phase`, each tagged with the phase.
pub fn tools_for_phase(phase: TaskPhase) -> (v: Vec<ToolSpec>)
    ensures
        tool_views(v@) == phase_tools(phase),
        forall|i: int| 0 <= i < v@.len() ==> (#[trigger] v@[i]).phase == phase,
{
    match phase {
        TaskPhase::Classify => classify_tools(),
        TaskPhase::Plan => plan_tools(),
        TaskPhase::Implement => implement_tools(),
        TaskPhase::Validate => validate_tools(),
        TaskPhase::Catalog => catalog_tools(),
        TaskPhase::Coordinate => coordinate_tools(),
    }
}

/// Whether a tool of that name is allowed in `phase`.
pub fn is_tool_allowed(tool_name: &str, phase: TaskPhase) -> (r: bool)
    ensures
        r == allowed_in(tool_name@, phase),
{
    let tools = tools_for_phase(phase);
    let mut i: usize = 0;
    while i < tools.len()
        invariant
            i <= tools@.len(),
            tool_views(tools@) == phase_tools(phase),
            forall|j: int| 0 <= j < i ==> (#[trigger] phase_tools(phase)[j]).0 != tool_name@,
        decreases tools@.len() - i,
    {
        assert(tool_views(tools@)[i as int] == (tools@[i as int].name@, tools@[i as int].description@));
        if str_eq(tools[i].name.as_str(), tool_name) {
            return true;
        }
        i = i + 1;
    }
    false
}

/// The phases, in pipeline order, that allow a tool of that name.
pub fn phases_for_tool(tool_name: &str) -> (r: Vec<TaskPhase>)
    ensures
        r@ == all_phases().filter(|p: TaskPhase| allowed_in(tool_name@, p)),
{
    let all = [
        TaskPhase::Classify,
        TaskPhase::Plan,
        TaskPhase::Implement,
        TaskPhase::Validate,
        TaskPhase::Catalog,
        TaskPhase::Coordinate,
    ];
    let ghost ph = all_phases();
    let ghost p = |x: TaskPhase| allowed_in(tool_name@, x);
    assert(all@ =~= ph);
    let mut out: Vec<TaskPhase> = Vec::new();
    let mut i: usize = 0;
    while i < 6
        invariant
            i <= 6,
            all@ == ph,
            ph == all_phases(),
            p == (|x: TaskPhase| allowed_in(tool_name@, x)),
            out@ == ph.take(i as int).filter(p),
        decreases 6 - i,
    {
        proof {
            assert(ph.take(i + 1).drop_last() =~= ph.take(i as int));
            reveal_with_fuel(Seq::filter, 1);
        }
        let phase = all[i];
        if is_tool_allowed(tool_name, phase) {
            out.push(phase);
        }
        i = i + 1;
    }
    assert(ph.take(6) =~= ph);
    out
}

} // verus!
