use but_ai::coordination::dependency::{DependencyGraph, DependencyNode, GraphError};
use but_ai::ids::AgentId;
use but_ai::repo::{ForgeType, PrRef, PrStatus, RepoRef};

fn pr(owner: &str, repo: &str, number: u64) -> PrRef {
    PrRef {
        repo: RepoRef {
            forge: ForgeType::GitHub,
            owner: owner.to_string(),
            repo: repo.to_string(),
        },
        number,
    }
}

fn node(pr_ref: PrRef, deps: Vec<PrRef>) -> DependencyNode {
    DependencyNode {
        pr: pr_ref,
        depends_on: deps,
        agent: AgentId("test-agent".to_string()),
        status: PrStatus::Open,
    }
}

#[test]
fn topological_sort_linear_chain() {
    let mut graph = DependencyGraph::new();

    let a = pr("org", "repo", 1);
    let b = pr("org", "repo", 2);
    let c = pr("org", "repo", 3);

    graph.upsert(node(c.clone(), vec![b.clone()]));
    graph.upsert(node(b.clone(), vec![a.clone()]));
    graph.upsert(node(a.clone(), vec![]));

    let sorted = graph.topological_sort().unwrap();
    let order: Vec<u64> = sorted.iter().map(|n| n.pr.number).collect();

    let pos_a = order.iter().position(|&n| n == 1).unwrap();
    let pos_b = order.iter().position(|&n| n == 2).unwrap();
    let pos_c = order.iter().position(|&n| n == 3).unwrap();
    assert!(pos_a < pos_b);
    assert!(pos_b < pos_c);
}

#[test]
fn topological_sort_detects_cycle() {
    let mut graph = DependencyGraph::new();

    let a = pr("org", "repo", 1);
    let b = pr("org", "repo", 2);

    graph.upsert(node(a.clone(), vec![b.clone()]));
    graph.upsert(node(b.clone(), vec![a.clone()]));

    assert!(graph.topological_sort().is_err());
}

#[test]
fn dependencies_met_checks_status() {
    let mut graph = DependencyGraph::new();

    let a = pr("org", "repo", 1);
    let b = pr("org", "repo", 2);

    graph.upsert(node(a.clone(), vec![]));
    graph.upsert(node(b.clone(), vec![a.clone()]));

    assert!(!graph.dependencies_met(&b));

    graph.set_status(&a, PrStatus::Merged);
    assert!(graph.dependencies_met(&b));
}

#[test]
fn ready_and_blocked() {
    let mut graph = DependencyGraph::new();

    let a = pr("org", "repo", 1);
    let b = pr("org", "repo", 2);
    let c = pr("org", "repo", 3);

    graph.upsert(node(a.clone(), vec![]));
    graph.upsert(node(b.clone(), vec![a.clone()]));
    graph.upsert(node(c.clone(), vec![a.clone()]));

    assert_eq!(graph.ready().len(), 1);
    assert_eq!(graph.ready()[0].pr, a);

    assert_eq!(graph.blocked().len(), 2);

    graph.set_status(&a, PrStatus::Merged);
    assert_eq!(graph.ready().len(), 2);
    assert!(graph.blocked().is_empty());
}

#[test]
fn external_dependencies_treated_as_satisfied() {
    let mut graph = DependencyGraph::new();

    let external = pr("other-org", "other-repo", 99);
    let local = pr("org", "repo", 1);

    graph.upsert(node(local.clone(), vec![external]));

    assert!(graph.dependencies_met(&local));
    assert_eq!(graph.ready().len(), 1);
}

#[test]
fn upsert_replaces_existing() {
    let mut graph = DependencyGraph::new();
    let a = pr("org", "repo", 1);

    graph.upsert(DependencyNode {
        pr: a.clone(),
        depends_on: vec![],
        agent: AgentId("old".to_string()),
        status: PrStatus::Open,
    });

    graph.upsert(DependencyNode {
        pr: a.clone(),
        depends_on: vec![],
        agent: AgentId("new".to_string()),
        status: PrStatus::Draft,
    });

    assert_eq!(graph.len(), 1);
    assert_eq!(graph.get(&a).unwrap().agent.0, "new");
    assert_eq!(graph.get(&a).unwrap().status, PrStatus::Draft);
}

#[test]
fn cycle_error_reports_counts() {
    let mut graph = DependencyGraph::new();
    let a = pr("org", "repo", 1);
    let b = pr("org", "repo", 2);
    let c = pr("org", "repo", 3);
    graph.upsert(node(c.clone(), vec![]));
    graph.upsert(node(a.clone(), vec![b.clone()]));
    graph.upsert(node(b.clone(), vec![a.clone()]));
    match graph.topological_sort() {
        Err(e) => {
            assert_eq!(e, GraphError::Cycle { sorted: 1, total: 3 });
            assert_eq!(e.message(), "Cycle detected in dependency graph: sorted 1 of 3 nodes");
        }
        Ok(_) => panic!("a cycle must be reported"),
    }
}

#[test]
fn remove_and_empty_graph() {
    let mut graph = DependencyGraph::default();
    assert!(graph.is_empty());
    assert!(graph.topological_sort().unwrap().is_empty());
    let a = pr("org", "repo", 1);
    graph.upsert(node(a.clone(), vec![]));
    assert!(!graph.dependencies_met(&pr("org", "repo", 7)));
    graph.remove(&a);
    assert_eq!(graph.len(), 0);
    assert!(graph.get(&a).is_none());
    assert!(graph.nodes().is_empty());
}

#[test]
fn closed_nodes_are_neither_ready_nor_blocked() {
    let mut graph = DependencyGraph::new();
    let a = pr("org", "repo", 1);
    let b = pr("org", "repo", 2);
    graph.upsert(node(a.clone(), vec![]));
    graph.upsert(node(b.clone(), vec![a.clone()]));
    graph.set_status(&b, PrStatus::Closed);
    assert_eq!(graph.ready().len(), 1);
    assert!(graph.blocked().is_empty());
}

#[test]
fn topological_sort_takes_the_last_ready_node_first() {
    let mut graph = DependencyGraph::new();
    let a = pr("org", "repo", 1);
    let b = pr("org", "repo", 2);
    graph.upsert(node(a.clone(), vec![]));
    graph.upsert(node(b.clone(), vec![]));
    let order: Vec<u64> = graph.topological_sort().unwrap().iter().map(|n| n.pr.number).collect();
    assert_eq!(order, vec![2, 1]);

    let c = pr("org", "repo", 3);
    let d = pr("org", "repo", 4);
    graph.upsert(node(c.clone(), vec![]));
    graph.upsert(node(d.clone(), vec![a.clone()]));
    let order: Vec<u64> = graph.topological_sort().unwrap().iter().map(|n| n.pr.number).collect();
    assert_eq!(order, vec![3, 2, 1, 4]);
}
