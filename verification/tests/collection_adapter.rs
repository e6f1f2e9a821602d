use but_ai::circulation::adapter::{AdapterError, CollectionAdapter, InMemoryAdapter, LoanId, LoanRequest, NullAdapter};
use but_ai::circulation::CollectionRef;
use but_ai::memory::call_number::CallNumber;

fn test_collection() -> CollectionRef {
    CollectionRef { uri: "github.com/org/repo".into() }
}

fn test_request() -> LoanRequest {
    LoanRequest {
        title: "Add auth middleware".into(),
        body: "Implements JWT validation".into(),
        requesting_collection: None,
        call_number: CallNumber::parse("ARCH.AUTH.MIDDLEWARE"),
        reason: "Feature implementation".into(),
        due_date: None,
        see_also: Vec::new(),
    }
}

#[test]
fn in_memory_create_and_read() {
    let mut adapter = InMemoryAdapter::new();
    let collection = test_collection();

    let loan_id = adapter.create_loan(&collection, &test_request()).unwrap();
    let info = adapter.get_loan(&collection, loan_id).unwrap();
    assert_eq!(info.title, "Add auth middleware");
}

#[test]
fn in_memory_notes() {
    let mut adapter = InMemoryAdapter::new();
    let collection = test_collection();

    let loan_id = adapter.create_loan(&collection, &test_request()).unwrap();
    adapter.post_note(&collection, loan_id.clone(), "Looks good!").unwrap();

    let notes = adapter.read_notes(&collection, loan_id).unwrap();
    assert_eq!(notes.len(), 1);
    assert_eq!(notes[0].body, "Looks good!");
}

#[test]
fn in_memory_search() {
    let mut adapter = InMemoryAdapter::new();
    let collection = test_collection();

    adapter.create_loan(&collection, &test_request()).unwrap();

    let results = adapter.search_loans(&collection, "auth").unwrap();
    assert_eq!(results.len(), 1);

    let no_results = adapter.search_loans(&collection, "database").unwrap();
    assert_eq!(no_results.len(), 0);
}

#[test]
fn null_adapter_errors() {
    let mut adapter = NullAdapter;
    let collection = test_collection();
    assert!(adapter.create_loan(&collection, &test_request()).is_err());
}

#[test]
fn loans_are_numbered_and_scoped_to_their_collection() {
    let mut adapter = InMemoryAdapter::new();
    let a = test_collection();
    let b = CollectionRef { uri: "github.com/org/other".into() };
    let first = adapter.create_loan(&a, &test_request()).unwrap();
    let second = adapter.create_loan(&b, &test_request()).unwrap();
    assert_eq!(first, LoanId(1));
    assert_eq!(second, LoanId(2));
    assert_eq!(adapter.get_loan(&b, first).unwrap_err(), AdapterError::LoanNotFound);
    assert_eq!(adapter.search_loans(&a, "AUTH").unwrap().len(), 1);
    assert_eq!(adapter.post_note(&b, first, "x").unwrap_err(), AdapterError::LoanNotFound);
    // the failed post still took note number 1
    let n = adapter.post_note(&a, first, "y").unwrap();
    assert_eq!(n.0, 2);
}

#[test]
fn subjects_are_added_as_labels() {
    let mut adapter = InMemoryAdapter::new();
    let c = test_collection();
    let id = adapter.create_loan(&c, &test_request()).unwrap();
    adapter.add_subject(&c, id, "security").unwrap();
    adapter.add_subject(&c, id, "auth").unwrap();
    assert_eq!(adapter.get_loan(&c, id).unwrap().labels, vec!["security", "auth"]);
    assert!(adapter.add_subject(&c, LoanId(9), "x").is_err());
    assert_eq!(
        AdapterError::Unavailable.message(),
        "NullAdapter: forge operations not available in this environment"
    );
}
