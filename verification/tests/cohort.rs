use but_ai::cohort::identity::{signing_key_ref, study_branch_name, AgentRole, ResearchCentre};
use but_ai::ids::AgentId;

#[test]
fn lrrc_has_five_agents() {
    let centre = ResearchCentre::lrrc();
    assert_eq!(centre.all_agents().len(), 5);
}

#[test]
fn vassiliev_is_pi() {
    let centre = ResearchCentre::lrrc();
    let v = centre.get_agent(&AgentId("vassiliev".into())).unwrap();
    assert_eq!(v.role, AgentRole::PrincipalInvestigator);
}

#[test]
fn petrov_has_patch_limit() {
    let centre = ResearchCentre::lrrc();
    assert!(centre.is_within_patch_limit(&AgentId("petrov".into()), 500));
    assert!(!centre.is_within_patch_limit(&AgentId("petrov".into()), 900));
}

#[test]
fn branch_authorization_works() {
    let centre = ResearchCentre::lrrc();
    assert!(centre.is_authorized(&AgentId("petrov".into()), "study/LRRC-2026-001/experiment"));
    assert!(centre.is_authorized(&AgentId("petrov".into()), "feat/new-feature"));
    assert!(centre.is_authorized(&AgentId("vassiliev".into()), "any-branch"));
}

#[test]
fn study_branch_name_formats_correctly() {
    assert_eq!(
        study_branch_name("LRRC-2026-042", "experiment", None),
        "study/LRRC-2026-042/experiment"
    );
    assert_eq!(
        study_branch_name("LRRC-2026-042", "experiment", Some("LRRC-2026-039")),
        "study/LRRC-2026-042/experiment.LRRC-2026-039"
    );
}

#[test]
fn unknown_agents_are_refused() {
    let centre = ResearchCentre::lrrc();
    assert!(centre.get_agent(&AgentId("nobody".into())).is_none());
    assert!(!centre.is_authorized(&AgentId("nobody".into()), "feat/x"));
    assert!(!centre.is_within_patch_limit(&AgentId("nobody".into()), 1));
    assert_eq!(centre.agents_by_role(AgentRole::PrincipalInvestigator).len(), 1);
}

#[test]
fn signing_key_reference() {
    assert_eq!(signing_key_ref("LRRC", "petrov"), "openwallet:LRRC:petrov");
}

#[test]
fn agent_record_can_be_changed_in_place() {
    let mut centre = ResearchCentre::lrrc();
    let v = AgentId("vassiliev".into());
    match centre.get_agent_mut(&v) {
        Some(a) => a.specialty = "competing risks".to_string(),
        None => panic!("vassiliev is a member"),
    }
    assert_eq!(centre.get_agent(&v).unwrap().specialty, "competing risks");
    assert!(centre.get_agent_mut(&AgentId("nobody".into())).is_none());
}
