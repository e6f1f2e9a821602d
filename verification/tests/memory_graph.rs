use but_ai::ids::EntryId;
use but_ai::memory::see_also::{invert_relationship, Relationship, SeeAlsoGraph};

#[test]
fn bidirectional_linking() {
    let mut graph = SeeAlsoGraph::new(5);
    let a = EntryId("e1".into());
    let b = EntryId("e2".into());

    assert!(graph.add_link(a.clone(), b.clone(), Relationship::RelatedTo, "related work".into()));

    assert_eq!(graph.get_links(&a).len(), 1);
    assert_eq!(graph.get_links(&a)[0].target_id, b);
    assert_eq!(graph.get_links(&b).len(), 1);
    assert_eq!(graph.get_links(&b)[0].target_id, a);
}

#[test]
fn traversal() {
    let mut graph = SeeAlsoGraph::new(5);
    let a = EntryId("a".into());
    let b = EntryId("b".into());
    let c = EntryId("c".into());

    graph.add_link(a.clone(), b.clone(), Relationship::RelatedTo, "".into());
    graph.add_link(b.clone(), c.clone(), Relationship::RelatedTo, "".into());

    let one_hop = graph.traverse(&a, 1);
    assert_eq!(one_hop.len(), 1);

    let two_hops = graph.traverse(&a, 2);
    assert_eq!(two_hops.len(), 2);
}

#[test]
fn remove_entry_cleans_reverse() {
    let mut graph = SeeAlsoGraph::new(5);
    let a = EntryId("a".into());
    let b = EntryId("b".into());
    let c = EntryId("c".into());

    graph.add_link(a.clone(), b.clone(), Relationship::RelatedTo, "".into());
    graph.add_link(b.clone(), c.clone(), Relationship::RelatedTo, "".into());

    graph.remove_entry(&b);
    assert_eq!(graph.get_links(&a).len(), 0);
    assert_eq!(graph.get_links(&c).len(), 0);
}

#[test]
fn memory_relationships_are_their_own_inverse() {
    let mut graph = SeeAlsoGraph::new(5);
    let a = EntryId("old".into());
    let b = EntryId("new".into());
    graph.add_link(a.clone(), b.clone(), Relationship::SupersededBy, "replaced".into());
    assert_eq!(graph.get_links(&b)[0].relationship, Relationship::SupersededBy);
    assert_eq!(graph.get_links(&b)[0].note, "replaced");
    assert_eq!(invert_relationship(Relationship::DependsOn), Relationship::DependsOn);
    assert_eq!(graph.shortest_path(&a, &b), Some(1));
    assert_eq!(graph.entry_count(), 2);
    assert_eq!(graph.edge_count(), 2);
}
