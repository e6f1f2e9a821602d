use but_ai::colophon::identity::IdentityManager;
use but_ai::colophon::metadata::NarrativeTrailer;
use but_ai::ids::{AgentId, ArcId, MotifId, TensionId};

#[test]
fn branch_star_stands_for_one_path_component() {
    let m = IdentityManager::with_standard_workshop("c", "t0");
    let o = AgentId("orozco".into());
    assert!(m.is_authorized_for_branch(&o, "feat/auth"));
    assert!(!m.is_authorized_for_branch(&o, "featured"));
    assert!(!m.is_authorized_for_branch(&o, "feat/a/b"));
    assert!(!m.is_authorized_for_branch(&o, "feat/"));
    assert!(!m.is_authorized_for_branch(&AgentId("nobody".into()), "feat/x"));
}

#[test]
fn colophon_can_be_changed_in_place() {
    let mut m = IdentityManager::with_standard_workshop("c", "t0");
    let o = AgentId("orozco".into());
    match m.get_colophon_mut(&o) {
        Some(c) => c.chapters_authored = 7,
        None => panic!("orozco is registered"),
    }
    assert_eq!(m.get_colophon(&o).unwrap().chapters_authored, 7);
    assert!(m.get_colophon_mut(&AgentId("nobody".into())).is_none());
}

#[test]
fn narrative_trailer_reads_back_what_it_writes() {
    let t = NarrativeTrailer {
        chapter_number: 42,
        arc: ArcId("authentication".into()),
        motifs: vec![MotifId("security-boundary".into()), MotifId("trust-verified".into())],
        tensions_introduced: vec![TensionId("timeout-vs-longrun".into())],
        continuity_verified_by: Some(AgentId("sato".into())),
    };
    let lines = t.to_trailer_lines();
    assert_eq!(
        lines,
        "Chapter: 42 of the authentication arc\nMotifs: security-boundary, trust-verified\nTension-introduced: timeout-vs-longrun\nContinuity: verified by sato"
    );
    let back = NarrativeTrailer::parse_from_message(&lines).unwrap();
    assert_eq!(back, t);
    let bare = NarrativeTrailer {
        chapter_number: 0,
        arc: ArcId("of the sea".into()),
        motifs: vec![],
        tensions_introduced: vec![],
        continuity_verified_by: None,
    };
    assert_eq!(NarrativeTrailer::parse_from_message(&bare.to_trailer_lines()).unwrap(), bare);
    assert!(NarrativeTrailer::parse_from_message("no trailer here").is_none());
}

#[test]
fn trailer_needs_a_chapter_line_naming_an_arc() {
    assert!(NarrativeTrailer::parse_from_message("Chapter: 7\nMotifs: a").is_none());
    // The number and the arc may come from different chapter lines.
    let t = NarrativeTrailer::parse_from_message("Chapter: x of the A arc\nChapter: 7").unwrap();
    assert_eq!(t.chapter_number, 7);
    assert_eq!(t.arc, ArcId("A".into()));
}
