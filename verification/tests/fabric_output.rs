use but_ai::fabric::commit::compose_commit_message;
use but_ai::fabric::patch::{FileChange, PatchGenerator};
use but_ai::fabric::progress::ProgressReporter;
use but_ai::ids::AgentId;

#[test]
fn composed_message_writes_warp_and_weft_annotations() {
    let m = compose_commit_message("T", None, 3, 5, "twill", None);
    assert_eq!(m, "T\n\nThread-count: warp:3 weft:5\nWeave-pattern: twill");
    assert!(m.starts_with("T\n\n"));
    assert!(m.contains("warp:3"));
    assert!(m.contains("weft:5"));
}

#[test]
fn composed_message_with_body_and_inspector() {
    let m = compose_commit_message("Fix", Some("details"), 0, 12, "plain", Some("orozco"));
    assert_eq!(
        m,
        "Fix\n\ndetails\n\nThread-count: warp:0 weft:12\nWeave-pattern: plain\nInspected-by: orozco"
    );
}

#[test]
fn hunk_headers_count_lines_from_the_file_start() {
    let g = PatchGenerator::new()
        .with_context_lines(1)
        .add_change(FileChange::modification("f", "A\nb\nc\nd\nE", "X\nb\nc\nd\nY"));
    assert_eq!(
        g.generate().unwrap(),
        "diff --git a/f b/f\n--- a/f\n+++ b/f\n@@ -1,2 +1,2 @@\n-A\n+X\n b\n@@ -4,2 +4,2 @@\n d\n-E\n+Y\n"
    );
}

#[test]
fn single_hunk_after_unchanged_lines() {
    let g = PatchGenerator::new()
        .with_context_lines(1)
        .add_change(FileChange::modification("g", "a\nb\nc\nd", "a\nb\nc\nD"));
    assert_eq!(
        g.generate().unwrap(),
        "diff --git a/g b/g\n--- a/g\n+++ b/g\n@@ -3,2 +3,2 @@\n c\n-d\n+D\n"
    );
}

#[derive(Debug, Clone, Copy, PartialEq)]
enum Phase {
    Warping,
    Weaving,
}

#[test]
fn progress_tracks_tokens_files_and_phase() {
    let mut p: ProgressReporter<Phase, (u32, u32)> = ProgressReporter::new(AgentId("loom-1".into()), (2, 3), 100);
    assert_eq!(p.tokens_used(), 0);
    assert!(!p.is_over_budget());
    p.record_tokens(60);
    p.record_tokens(40);
    assert!(!p.is_over_budget());
    p.record_tokens(1);
    assert!(p.is_over_budget());
    assert_eq!(p.tokens_used(), 101);
    p.record_file_touched("src/a.rs".to_string());
    p.record_file_touched("src/b.rs".to_string());
    p.record_file_touched("src/a.rs".to_string());
    assert_eq!(p.files_touched_count(), 2);
    assert_eq!(p.files_touched(), &["src/a.rs".to_string(), "src/b.rs".to_string()]);
    p.advance_phase(Phase::Warping, 0, 4);
    p.advance_phase(Phase::Weaving, 1, 4);
    assert_eq!(p.files_touched_count(), 2);
}
