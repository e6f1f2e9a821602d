//! Collections on a forge: loans (pull requests), their notes (comments)
//! and subjects (labels), behind one interface, with an adapter that
//! refuses everything and one that keeps it all in memory.

use vstd::prelude::*;
use crate::circulation::CollectionRef;
use crate::ids::ItemId;
use crate::memory::call_number::CallNumber;
use crate::text::{clone_strings, contains, contains_str, str_eq, views};
use crate::vocab::{lower, to_lower};

verus! {

/// The number of a loan within an adapter.
#[derive(Debug, Clone, Copy, PartialEq, Eq, Structural, Hash)]
pub struct LoanId(pub u64);

/// The number of a note within an adapter.
#[derive(Debug, Clone, Copy, PartialEq, Eq, Structural, Hash)]
pub struct NoteId(pub u64);

/// Whether a loan is still open.
#[derive(Debug, Clone, Copy, PartialEq, Eq, Structural)]
pub enum LoanState {
    Open,
    Merged,
    Closed,
}

/// A request to open a loan.
#[derive(Debug, PartialEq, Eq)]
pub struct LoanRequest {
    pub title: String,
    pub body: String,
    pub requesting_collection: Option<CollectionRef>,
    pub call_number: CallNumber,
    pub reason: String,
    pub due_date: Option<String>,
    pub see_also: Vec<ItemId>,
}

/// What is known of a loan.
#[derive(Debug, PartialEq, Eq)]
pub struct LoanInfo {
    pub loan_id: LoanId,
    pub collection: CollectionRef,
    pub title: String,
    pub state: LoanState,
    pub labels: Vec<String>,
}

/// A loan as search lists it.
#[derive(Debug, PartialEq, Eq)]
pub struct LoanSummary {
    pub loan_id: LoanId,
    pub title: String,
    pub state: LoanState,
}

/// A note on a loan.
#[derive(Debug, PartialEq, Eq)]
pub struct Note {
    pub note_id: NoteId,
    pub author: String,
    pub body: String,
    pub created_at: String,
}

impl Clone for Note {
    fn clone(&self) -> (r: Self)
        ensures
            r == *self,
    {
        Note {
            note_id: self.note_id,
            author: self.author.clone(),
            body: self.body.clone(),
            created_at: self.created_at.clone(),
        }
    }
}

/// Why an adapter operation failed.
#[derive(Debug, Clone, Copy, PartialEq, Eq, Structural)]
pub enum AdapterError {
    /// The adapter does no forge work here.
    Unavailable,
    /// No loan of that number in that collection.
    LoanNotFound,
}

impl AdapterError {
    /// The error as a sentence.
    pub fn message(&self) -> (s: String)
        ensures
            s@ == (match *self {
                AdapterError::Unavailable => "NullAdapter: forge operations not available in this environment"@,
                AdapterError::LoanNotFound => "loan not found"@,
            }),
    {
        match self {
            AdapterError::Unavailable => "NullAdapter: forge operations not available in this environment".to_owned(),
            AdapterError::LoanNotFound => "loan not found".to_owned(),
        }
    }
}

/// Loans, notes and subjects of collections, in library terms.
pub trait CollectionAdapter {
    /// Open a loan (pull request) in a collection.
    fn create_loan(&mut self, collection: &CollectionRef, request: &LoanRequest) -> Result<LoanId, AdapterError>;

    /// Post a note (comment) on a loan.
    fn post_note(&mut self, collection: &CollectionRef, loan_id: LoanId, note: &str) -> Result<NoteId, AdapterError>;

    /// The notes of a loan.
    fn read_notes(&self, collection: &CollectionRef, loan_id: LoanId) -> Result<Vec<Note>, AdapterError>;

    /// Add a subject (label) to a loan.
    fn add_subject(&mut self, collection: &CollectionRef, loan_id: LoanId, subject: &str) -> Result<(), AdapterError>;

    /// What is known of a loan.
    fn get_loan(&self, collection: &CollectionRef, loan_id: LoanId) -> Result<LoanInfo, AdapterError>;

    /// The loans of a collection whose title contains the query, ignoring case.
    fn search_loans(&self, collection: &CollectionRef, query: &str) -> Result<Vec<LoanSummary>, AdapterError>;
}

/// An adapter for places without a forge: every operation fails.
pub struct NullAdapter;

impl CollectionAdapter for NullAdapter {
    fn create_loan(&mut self, collection: &CollectionRef, request: &LoanRequest) -> (r: Result<LoanId, AdapterError>)
        ensures
            r == Err::<LoanId, AdapterError>(AdapterError::Unavailable),
    {
        Err(AdapterError::Unavailable)
    }

    fn post_note(&mut self, collection: &CollectionRef, loan_id: LoanId, note: &str) -> (r: Result<NoteId, AdapterError>)
        ensures
            r == Err::<NoteId, AdapterError>(AdapterError::Unavailable),
    {
        Err(AdapterError::Unavailable)
    }

    fn read_notes(&self, collection: &CollectionRef, loan_id: LoanId) -> (r: Result<Vec<Note>, AdapterError>)
        ensures
            r is Err && r->Err_0 == AdapterError::Unavailable,
    {
        Err(AdapterError::Unavailable)
    }

    fn add_subject(&mut self, collection: &CollectionRef, loan_id: LoanId, subject: &str) -> (r: Result<(), AdapterError>)
        ensures
            r == Err::<(), AdapterError>(AdapterError::Unavailable),
    {
        Err(AdapterError::Unavailable)
    }

    fn get_loan(&self, collection: &CollectionRef, loan_id: LoanId) -> (r: Result<LoanInfo, AdapterError>)
        ensures
            r is Err && r->Err_0 == AdapterError::Unavailable,
    {
        Err(AdapterError::Unavailable)
    }

    fn search_loans(&self, collection: &CollectionRef, query: &str) -> (r: Result<Vec<LoanSummary>, AdapterError>)
        ensures
            r is Err && r->Err_0 == AdapterError::Unavailable,
    {
        Err(AdapterError::Unavailable)
    }
}

/// A note as plain values.
pub struct NoteView {
    pub note_id: u64,
    pub author: Seq<char>,
    pub body: Seq<char>,
    pub created_at: Seq<char>,
}

/// A stored loan as plain values.
pub struct LoanView {
    pub id: u64,
    pub collection: Seq<char>,
    pub title: Seq<char>,
    pub state: LoanState,
    pub labels: Seq<Seq<char>>,
    pub notes: Seq<NoteView>,
}

/// The in-memory adapter as plain values: its loans in the order opened
/// and the last loan and note numbers handed out.
pub struct AdapterView {
    pub loans: Seq<LoanView>,
    pub last_loan: u64,
    pub last_note: u64,
}

impl View for Note {
    type V = NoteView;

    open spec fn view(&self) -> NoteView {
        NoteView { note_id: self.note_id.0, author: self.author@, body: self.body@, created_at: self.created_at@ }
    }
}

/// The views of notes.
pub open spec fn note_views(v: Seq<Note>) -> Seq<NoteView> {
    v.map_values(|n: Note| n@)
}

/// A loan as the in-memory adapter keeps it.
struct StoredLoan {
    id: LoanId,
    collection: CollectionRef,
    title: String,
    state: LoanState,
    labels: Vec<String>,
    notes: Vec<Note>,
}

impl View for StoredLoan {
    type V = LoanView;

    closed spec fn view(&self) -> LoanView {
        LoanView {
            id: self.id.0,
            collection: self.collection.uri@,
            title: self.title@,
            state: self.state,
            labels: views(self.labels@),
            notes: note_views(self.notes@),
        }
    }
}

/// The position of the first loan with this number in this collection.
pub open spec fn loan_position(loans: Seq<LoanView>, collection: Seq<char>, id: u64) -> Option<int>
    decreases loans.len(),
{
    if loans.len() == 0 {
        None
    } else {
        match loan_position(loans.drop_last(), collection, id) {
            Some(i) => Some(i),
            None => if loans.last().id == id && loans.last().collection == collection { Some(loans.len() - 1) } else { None },
        }
    }
}

/// The loans of a collection whose lower-cased title contains the
/// lower-cased query, in order.
pub open spec fn found_loans(loans: Seq<LoanView>, collection: Seq<char>, query: Seq<char>) -> Seq<LoanView>
    decreases loans.len(),
{
    if loans.len() == 0 {
        Seq::empty()
    } else {
        let r = found_loans(loans.drop_last(), collection, query);
        let l = loans.last();
        if l.collection == collection && contains(lower(l.title), lower(query)) { r.push(l) } else { r }
    }
}

/// An adapter that keeps its loans in memory.
pub struct InMemoryAdapter {
    last_loan: u64,
    last_note: u64,
    loans: Vec<StoredLoan>,
}

impl View for InMemoryAdapter {
    type V = AdapterView;

    closed spec fn view(&self) -> AdapterView {
        AdapterView {
            loans: self.loans@.map_values(|l: StoredLoan| l@),
            last_loan: self.last_loan,
            last_note: self.last_note,
        }
    }
}

impl InMemoryAdapter {
    /// An adapter with no loans.
    pub fn new() -> (a: Self)
        ensures
            a@.loans == Seq::<LoanView>::empty(),
            a@.last_loan == 0,
            a@.last_note == 0,
    {
        let a = InMemoryAdapter { last_loan: 0, last_note: 0, loans: Vec::new() };
        assert(a@.loans =~= Seq::<LoanView>::empty());
        a
    }

    /// The position of a loan.
    fn find(&self, collection: &CollectionRef, loan_id: LoanId) -> (r: Option<usize>)
        ensures
            match r {
                Some(i) => loan_position(self@.loans, collection.uri@, loan_id.0) == Some(i as int) && i < self@.loans.len(),
                None => loan_position(self@.loans, collection.uri@, loan_id.0) is None,
            },
    {
        let ghost lv = self@.loans;
        let mut i: usize = 0;
        assert(lv.take(0) =~= Seq::<LoanView>::empty());
        while i < self.loans.len()
            invariant
                i <= self.loans@.len(),
                lv == self@.loans,
                loan_position(lv.take(i as int), collection.uri@, loan_id.0) is None,
            decreases self.loans@.len() - i,
        {
            let l = &self.loans[i];
            assert(lv.take(i + 1).drop_last() =~= lv.take(i as int));
            assert(lv[i as int] == l@);
            if l.id.0 == loan_id.0 && str_eq(l.collection.uri.as_str(), collection.uri.as_str()) {
                proof { lemma_position_prefix(lv, collection.uri@, loan_id.0, i + 1); }
                return Some(i);
            }
            i = i + 1;
        }
        assert(lv.take(i as int) =~= lv);
        None
    }
}

/// Where a prefix holds a matching loan, the whole sequence finds the same one.
proof fn lemma_position_prefix(loans: Seq<LoanView>, collection: Seq<char>, id: u64, k: int)
    requires
        0 <= k <= loans.len(),
        loan_position(loans.take(k), collection, id) is Some,
    ensures
        loan_position(loans, collection, id) == loan_position(loans.take(k), collection, id),
    decreases loans.len() - k,
{
    if k < loans.len() {
        assert(loans.take(k + 1).drop_last() =~= loans.take(k));
        assert(loan_position(loans.take(k + 1), collection, id) == loan_position(loans.take(k), collection, id));
        lemma_position_prefix(loans, collection, id, k + 1);
    } else {
        assert(loans.take(k) =~= loans);
    }
}

impl CollectionAdapter for InMemoryAdapter {
    /// Open a loan titled as requested, numbered one past the last (the
    /// counter wraps at the largest `u64`).
    fn create_loan(&mut self, collection: &CollectionRef, request: &LoanRequest) -> (r: Result<LoanId, AdapterError>)
        ensures
            r == Ok::<LoanId, AdapterError>(LoanId(old(self)@.last_loan.wrapping_add(1))),
            final(self)@.last_loan == old(self)@.last_loan.wrapping_add(1),
            final(self)@.last_note == old(self)@.last_note,
            final(self)@.loans == old(self)@.loans.push(LoanView {
                id: old(self)@.last_loan.wrapping_add(1),
                collection: collection.uri@,
                title: request.title@,
                state: LoanState::Open,
                labels: Seq::empty(),
                notes: Seq::empty(),
            }),
    {
        self.last_loan = self.last_loan.wrapping_add(1);
        let id = LoanId(self.last_loan);
        let ghost before = self@.loans;
        self.loans.push(StoredLoan {
            id,
            collection: collection.clone(),
            title: request.title.clone(),
            state: LoanState::Open,
            labels: Vec::new(),
            notes: Vec::new(),
        });
        proof {
            let l = self.loans@[self.loans@.len() - 1];
            assert(views(l.labels@) =~= Seq::<Seq<char>>::empty());
            assert(note_views(l.notes@) =~= Seq::<NoteView>::empty());
            assert(self@.loans =~= before.push(l@));
        }
        Ok(id)
    }

    /// Post a note by "agent"; the note number (one past the last, wrapping
    /// at the largest `u64`) is taken whether or not the loan is found.
    fn post_note(&mut self, collection: &CollectionRef, loan_id: LoanId, note: &str) -> (r: Result<NoteId, AdapterError>)
        ensures
            final(self)@.last_note == old(self)@.last_note.wrapping_add(1),
            final(self)@.last_loan == old(self)@.last_loan,
            match loan_position(old(self)@.loans, collection.uri@, loan_id.0) {
                Some(i) => {
                    &&& r == Ok::<NoteId, AdapterError>(NoteId(old(self)@.last_note.wrapping_add(1)))
                    &&& final(self)@.loans == old(self)@.loans.update(i, LoanView {
                        notes: old(self)@.loans[i].notes.push(NoteView {
                            note_id: old(self)@.last_note.wrapping_add(1),
                            author: "agent"@,
                            body: note@,
                            created_at: Seq::empty(),
                        }),
                        ..old(self)@.loans[i]
                    })
                },
                None => r == Err::<NoteId, AdapterError>(AdapterError::LoanNotFound) && final(self)@.loans == old(self)@.loans,
            },
    {
        self.last_note = self.last_note.wrapping_add(1);
        let note_id = NoteId(self.last_note);
        match self.find(collection, loan_id) {
            None => Err(AdapterError::LoanNotFound),
            Some(i) => {
                proof {
                    reveal_strlit("agent");
                }
                let ghost before = self@.loans;
                let mut loan = self.loans.remove(i);
                let ghost n0 = loan@.notes;
                loan.notes.push(Note {
                    note_id,
                    author: "agent".to_owned(),
                    body: note.to_owned(),
                    created_at: String::new(),
                });
                let ghost lv = loan@;
                self.loans.insert(i, loan);
                proof {
                    assert(lv.notes =~= n0.push(NoteView {
                        note_id: note_id.0,
                        author: "agent"@,
                        body: note@,
                        created_at: Seq::empty(),
                    }));
                    assert(self@.loans =~= before.update(i as int, lv));
                }
                Ok(note_id)
            },
        }
    }

    /// The notes of a loan, oldest first.
    fn read_notes(&self, collection: &CollectionRef, loan_id: LoanId) -> (r: Result<Vec<Note>, AdapterError>)
        ensures
            match loan_position(self@.loans, collection.uri@, loan_id.0) {
                Some(i) => r is Ok && note_views(r->Ok_0@) == self@.loans[i].notes,
                None => r is Err && r->Err_0 == AdapterError::LoanNotFound,
            },
    {
        match self.find(collection, loan_id) {
            None => Err(AdapterError::LoanNotFound),
            Some(i) => {
                let notes = &self.loans[i].notes;
                let mut out: Vec<Note> = Vec::new();
                let mut j: usize = 0;
                while j < notes.len()
                    invariant
                        j <= notes@.len(),
                        out@ == notes@.take(j as int),
                    decreases notes@.len() - j,
                {
                    out.push(notes[j].clone());
                    j = j + 1;
                    assert(out@ =~= notes@.take(j as int));
                }
                assert(notes@.take(j as int) =~= notes@);
                assert(note_views(out@) == self@.loans[i as int].notes);
                Ok(out)
            },
        }
    }

    /// Add a subject to a loan.
    fn add_subject(&mut self, collection: &CollectionRef, loan_id: LoanId, subject: &str) -> (r: Result<(), AdapterError>)
        ensures
            final(self)@.last_loan == old(self)@.last_loan,
            final(self)@.last_note == old(self)@.last_note,
            match loan_position(old(self)@.loans, collection.uri@, loan_id.0) {
                Some(i) => r is Ok && final(self)@.loans == old(self)@.loans.update(i, LoanView {
                    labels: old(self)@.loans[i].labels.push(subject@),
                    ..old(self)@.loans[i]
                }),
                None => r is Err && r->Err_0 == AdapterError::LoanNotFound && final(self)@.loans == old(self)@.loans,
            },
    {
        match self.find(collection, loan_id) {
            None => Err(AdapterError::LoanNotFound),
            Some(i) => {
                let ghost before = self@.loans;
                let mut loan = self.loans.remove(i);
                let ghost lb = views(loan.labels@);
                loan.labels.push(subject.to_owned());
                assert(views(loan.labels@) =~= lb.push(subject@));
                let ghost lv = loan@;
                self.loans.insert(i, loan);
                assert(self@.loans =~= before.update(i as int, lv));
                Ok(())
            },
        }
    }

    /// What is known of a loan.
    fn get_loan(&self, collection: &CollectionRef, loan_id: LoanId) -> (r: Result<LoanInfo, AdapterError>)
        ensures
            match loan_position(self@.loans, collection.uri@, loan_id.0) {
                Some(i) => r is Ok && {
                    let info = r->Ok_0;
                    &&& info.loan_id.0 == self@.loans[i].id
                    &&& info.collection.uri@ == self@.loans[i].collection
                    &&& info.title@ == self@.loans[i].title
                    &&& info.state == self@.loans[i].state
                    &&& views(info.labels@) == self@.loans[i].labels
                },
                None => r is Err && r->Err_0 == AdapterError::LoanNotFound,
            },
    {
        match self.find(collection, loan_id) {
            None => Err(AdapterError::LoanNotFound),
            Some(i) => {
                let l = &self.loans[i];
                Ok(LoanInfo {
                    loan_id: l.id,
                    collection: l.collection.clone(),
                    title: l.title.clone(),
                    state: l.state,
                    labels: clone_strings(&l.labels),
                })
            },
        }
    }

    /// The loans of the collection whose title contains the query,
    /// ignoring case, in the order opened.
    fn search_loans(&self, collection: &CollectionRef, query: &str) -> (r: Result<Vec<LoanSummary>, AdapterError>)
        ensures
            r is Ok,
            r->Ok_0@.len() == found_loans(self@.loans, collection.uri@, query@).len(),
            forall|i: int| 0 <= i < r->Ok_0@.len() ==> {
                &&& (#[trigger] r->Ok_0@[i]).loan_id.0 == found_loans(self@.loans, collection.uri@, query@)[i].id
                &&& r->Ok_0@[i].title@ == found_loans(self@.loans, collection.uri@, query@)[i].title
                &&& r->Ok_0@[i].state == found_loans(self@.loans, collection.uri@, query@)[i].state
            },
    {
        let ghost lv = self@.loans;
        let q = to_lower(query);
        let mut out: Vec<LoanSummary> = Vec::new();
        let mut i: usize = 0;
        assert(lv.take(0) =~= Seq::<LoanView>::empty());
        while i < self.loans.len()
            invariant
                i <= self.loans@.len(),
                lv == self@.loans,
                q@ == lower(query@),
                out@.len() == found_loans(lv.take(i as int), collection.uri@, query@).len(),
                forall|k: int| 0 <= k < out@.len() ==> {
                    &&& (#[trigger] out@[k]).loan_id.0 == found_loans(lv.take(i as int), collection.uri@, query@)[k].id
                    &&& out@[k].title@ == found_loans(lv.take(i as int), collection.uri@, query@)[k].title
                    &&& out@[k].state == found_loans(lv.take(i as int), collection.uri@, query@)[k].state
                },
            decreases self.loans@.len() - i,
        {
            let l = &self.loans[i];
            assert(lv.take(i + 1).drop_last() =~= lv.take(i as int));
            assert(lv[i as int] == l@);
            if str_eq(l.collection.uri.as_str(), collection.uri.as_str()) {
                let t = to_lower(l.title.as_str());
                if contains_str(t.as_str(), q.as_str()) {
                    out.push(LoanSummary { loan_id: l.id, title: l.title.clone(), state: l.state });
                }
            }
            i = i + 1;
        }
        assert(lv.take(i as int) =~= lv);
        Ok(out)
    }
}

} // verus!
