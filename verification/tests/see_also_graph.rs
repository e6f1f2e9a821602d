use but_ai::catalog::see_also::{Relationship, SeeAlsoGraph, SeeAlsoLink};
use but_ai::ids::ItemId;

#[test]
fn see_also_bidirectional_linking() {
    let mut graph = SeeAlsoGraph::new(5);
    let a = ItemId("mem_001".into());
    let b = ItemId("mem_002".into());

    assert!(graph.add_link(a.clone(), b.clone(), Relationship::RelatedTo, "related work".into()));

    assert_eq!(graph.get_links(&a).len(), 1);
    assert_eq!(graph.get_links(&a)[0].target, b);

    assert_eq!(graph.get_links(&b).len(), 1);
    assert_eq!(graph.get_links(&b)[0].target, a);
}

#[test]
fn traversal_with_max_hops() {
    let mut graph = SeeAlsoGraph::new(5);
    let a = ItemId("a".into());
    let b = ItemId("b".into());
    let c = ItemId("c".into());
    let d = ItemId("d".into());

    graph.add_link(a.clone(), b.clone(), Relationship::RelatedTo, "".into());
    graph.add_link(b.clone(), c.clone(), Relationship::RelatedTo, "".into());
    graph.add_link(c.clone(), d.clone(), Relationship::RelatedTo, "".into());

    let one_hop = graph.traverse(&a, 1);
    assert_eq!(one_hop.len(), 1);
    assert_eq!(one_hop[0].0, b);

    let two_hops = graph.traverse(&a, 2);
    assert_eq!(two_hops.len(), 2);
}

#[test]
fn shortest_path() {
    let mut graph = SeeAlsoGraph::new(5);
    let a = ItemId("a".into());
    let b = ItemId("b".into());
    let c = ItemId("c".into());

    graph.add_link(a.clone(), b.clone(), Relationship::RelatedTo, "".into());
    graph.add_link(b.clone(), c.clone(), Relationship::RelatedTo, "".into());

    assert_eq!(graph.shortest_path(&a, &c), Some(2));
    assert_eq!(graph.shortest_path(&a, &a), Some(0));
    assert_eq!(graph.shortest_path(&a, &ItemId("nonexistent".into())), None);
}

#[test]
fn link_limit_enforced() {
    let mut graph = SeeAlsoGraph::new(2);
    let a = ItemId("a".into());
    let b = ItemId("b".into());
    let c = ItemId("c".into());
    let d = ItemId("d".into());

    assert!(graph.add_link(a.clone(), b.clone(), Relationship::RelatedTo, "".into()));
    assert!(graph.add_link(a.clone(), c.clone(), Relationship::RelatedTo, "".into()));
    assert!(!graph.add_link(a.clone(), d.clone(), Relationship::RelatedTo, "".into()));
}

#[test]
fn remove_item_cleans_reverse_links() {
    let mut graph = SeeAlsoGraph::new(5);
    let a = ItemId("a".into());
    let b = ItemId("b".into());
    let c = ItemId("c".into());

    graph.add_link(a.clone(), b.clone(), Relationship::RelatedTo, "".into());
    graph.add_link(b.clone(), c.clone(), Relationship::RelatedTo, "".into());

    graph.remove_item(&b);

    assert_eq!(graph.get_links(&a).len(), 0);
    assert_eq!(graph.get_links(&c).len(), 0);
}

#[test]
fn narrower_broader_inversion() {
    let mut graph = SeeAlsoGraph::new(5);
    let a = ItemId("auth".into());
    let b = ItemId("jwt".into());

    graph.add_link(a.clone(), b.clone(), Relationship::BroaderTerm, "auth is broader than jwt".into());

    assert_eq!(graph.get_links(&a)[0].relationship, Relationship::BroaderTerm);
    assert_eq!(graph.get_links(&b)[0].relationship, Relationship::NarrowerTerm);
}

#[test]
fn traversal_reports_distances_in_layers() {
    let mut graph = SeeAlsoGraph::new(5);
    let ids: Vec<ItemId> = ["a", "b", "c", "d", "e"].iter().map(|s| ItemId(s.to_string())).collect();
    graph.add_link(ids[0].clone(), ids[1].clone(), Relationship::RelatedTo, "".into());
    graph.add_link(ids[0].clone(), ids[2].clone(), Relationship::DependsOn, "".into());
    graph.add_link(ids[2].clone(), ids[3].clone(), Relationship::RelatedTo, "".into());
    graph.add_link(ids[1].clone(), ids[3].clone(), Relationship::RelatedTo, "".into());
    let r = graph.traverse(&ids[0], 10);
    assert_eq!(
        r,
        vec![(ids[1].clone(), 1), (ids[2].clone(), 1), (ids[3].clone(), 2)]
    );
    assert!(graph.traverse(&ids[0], 0).is_empty());
    assert!(graph.traverse(&ids[4], 3).is_empty());
    assert_eq!(graph.shortest_path(&ids[0], &ids[3]), Some(2));
    assert_eq!(graph.shortest_path(&ids[3], &ids[0]), Some(2));
}

#[test]
fn existing_link_counts_as_success() {
    let mut graph = SeeAlsoGraph::new(2);
    let a = ItemId("a".into());
    let b = ItemId("b".into());
    assert!(graph.add_link(a.clone(), b.clone(), Relationship::RelatedTo, "".into()));
    assert!(graph.add_link(a.clone(), b.clone(), Relationship::RelatedTo, "".into()));
    assert_eq!(graph.edge_count(), 2);
    assert_eq!(graph.item_count(), 2);
    assert!(graph.validate().is_empty());
    let mut full = SeeAlsoGraph::new(1);
    assert!(full.add_link(a.clone(), b.clone(), Relationship::RelatedTo, "".into()));
    // The limit is checked before the existing link is looked for.
    assert!(!full.add_link(a.clone(), b.clone(), Relationship::RelatedTo, "".into()));
    assert!(!full.add_link(ItemId("c".into()), b.clone(), Relationship::RelatedTo, "".into()));
    assert_eq!(full.item_count(), 3);
}

#[test]
fn existing_link_fails_when_the_target_is_full() {
    let mut graph = SeeAlsoGraph::new(2);
    let a = ItemId("a".into());
    let b = ItemId("b".into());
    let c = ItemId("c".into());
    assert!(graph.add_link(a.clone(), b.clone(), Relationship::RelatedTo, "".into()));
    assert!(graph.add_link(b.clone(), c.clone(), Relationship::RelatedTo, "".into()));
    // `b` holds two links: linking `a` to it again fails although the link exists.
    assert!(!graph.add_link(a.clone(), b.clone(), Relationship::RelatedTo, "".into()));
    assert_eq!(graph.edge_count(), 4);
    assert!(graph.validate().is_empty());
}

#[test]
fn validate_reports_broken_links() {
    let mut graph = SeeAlsoGraph::new(1);
    graph.import_edges(vec![
        (
            ItemId("a".into()),
            vec![
                SeeAlsoLink { target: ItemId("b".into()), relationship: Relationship::RelatedTo, note: String::new() },
                SeeAlsoLink { target: ItemId("z".into()), relationship: Relationship::RelatedTo, note: String::new() },
            ],
        ),
        (ItemId("b".into()), vec![]),
    ]);
    assert_eq!(
        graph.validate(),
        vec![
            "link from a to b has no reverse link".to_string(),
            "link from a to z points to non-existent item".to_string(),
            "item a has 2 links, exceeding max 1".to_string(),
        ]
    );
    let exported = graph.all_edges();
    assert_eq!(exported.len(), 2);
    assert_eq!(exported[0].0, ItemId("a".into()));
    assert_eq!(SeeAlsoGraph::default().item_count(), 0);
}

