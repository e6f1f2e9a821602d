use but_ai::memory::call_number::{call_number_distance, call_number_from_path, CallNumber, CallNumberHierarchy};
use but_ai::memory::classification::extract_keywords;

#[test]
fn path_to_call_number() {
    let cn = call_number_from_path("crates/but-ai/src/memory/store.rs", 5);
    assert_eq!(cn.to_string(), "CRATES.BUT-AI.MEMORY.STORE");
}

#[test]
fn parse_and_display() {
    let cn = CallNumber::parse("ARCH.AUTH.MIDDLEWARE");
    assert_eq!(cn.segments, vec!["ARCH", "AUTH", "MIDDLEWARE"]);
    assert_eq!(cn.to_string(), "ARCH.AUTH.MIDDLEWARE");
}

#[test]
fn distance_calculation() {
    let a = CallNumber::parse("ARCH.AUTH.MIDDLEWARE");
    let b = CallNumber::parse("ARCH.AUTH.SESSION");
    assert_eq!(call_number_distance(&a, &b), 2);
    assert_eq!(a.shared_depth(&b), 2);
    assert_eq!(call_number_distance(&a, &a), 0);
}

#[test]
fn path_depth_limit_and_extensions() {
    assert_eq!(call_number_from_path("a/b/c/d.rs", 2).to_string(), "A.B");
    assert_eq!(call_number_from_path("lib/mod.rs", 5).segments.len(), 0);
    assert_eq!(call_number_from_path("/x//y.tar.gz", 5).to_string(), "X.Y.TAR");
    assert_eq!(CallNumber::parse("..A..B.").segments, vec!["A", "B"]);
}

#[test]
fn extract_keywords_filters_stop_words() {
    let kw = extract_keywords("the authentication middleware is used for token validation");
    assert!(!kw.contains(&"the".to_string()));
    assert!(!kw.contains(&"is".to_string()));
    assert!(kw.contains(&"authentication".to_string()));
}

#[test]
fn keywords_are_lowercased_unique_and_capped() {
    let kw = extract_keywords("JWT jwt Token-Store, token_store; ab abc");
    assert_eq!(kw, vec!["jwt", "token-store", "token_store", "abc"]);
    let many = extract_keywords("one1 two2 three3 four4 five5 six6 seven7 eight8 nine9 ten10 eleven11");
    assert_eq!(many.len(), 10);
    assert_eq!(many[9], "ten10");
}

#[test]
fn hierarchy_registration() {
    let mut h = CallNumberHierarchy::default_hierarchy(5);
    assert!(h.register(&CallNumber::parse("ARCH.AUTH.MIDDLEWARE")));
    assert!(h.register(&CallNumber::parse("ARCH.AUTH.SESSION")));

    let neighbors = h.find_neighbors(&CallNumber::parse("ARCH.AUTH.MIDDLEWARE"));
    assert_eq!(neighbors.len(), 1);
    assert_eq!(neighbors[0].to_string(), "ARCH.AUTH.SESSION");
}

#[test]
fn max_depth_enforcement() {
    let mut h = CallNumberHierarchy::default_hierarchy(3);
    assert!(!h.register(&CallNumber::parse("A.B.C.D")));
    assert!(h.register(&CallNumber::parse("A.B.C")));
}

#[test]
fn lookup_keeps_deepest_description() {
    let mut h = CallNumberHierarchy::default_hierarchy(5);
    assert!(h.register(&CallNumber::parse("ARCH.AUTH")));
    assert_eq!(h.lookup(&CallNumber::parse("ARCH.AUTH.MISSING")), Some("Architecture decisions"));
    assert_eq!(h.lookup(&CallNumber::parse("NOPE")), None);
    assert_eq!(h.lookup(&CallNumber::parse("SEC")), Some("Security knowledge"));
}

#[test]
fn all_call_numbers_in_preorder() {
    let mut h = CallNumberHierarchy::default_hierarchy(5);
    assert!(h.register(&CallNumber::parse("ARCH.AUTH")));
    let all: Vec<String> = h.all_call_numbers().iter().map(|c| c.to_string()).collect();
    assert_eq!(all.len(), 11);
    assert_eq!(all[0], "ARCH");
    assert_eq!(all[1], "ARCH.AUTH");
    assert_eq!(all[2], "TEST");
    assert!(h.find_neighbors(&CallNumber::parse("")).is_empty());
}

#[test]
fn distance_is_symmetric_and_zero_to_itself() {
    let a = CallNumber::parse("ARCH.AUTH.MIDDLEWARE.JWT");
    let b = CallNumber::parse("ARCH.DB");
    assert_eq!(call_number_distance(&a, &b), call_number_distance(&b, &a));
    assert_eq!(call_number_distance(&a, &b), 4);
    assert_eq!(call_number_distance(&a, &a), 0);
}
