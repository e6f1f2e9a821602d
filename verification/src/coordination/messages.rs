//! The framing of coordination messages in pull request comments: each
//! message is a code fence tagged `but-ai-message` holding its JSON text.
//! This module finds the fenced texts; reading the JSON is left to the
//! caller.

use vstd::prelude::*;
use crate::parse::{find, first_at, nowhere, trim, trim_str};
use crate::text::{contains, contains_str, has_prefix, occurs_at, push_str, slice_chars, starts_with, views};

verus! {

/// The version tag of the coordination message schema.
pub const SCHEMA_VERSION: &'static str = "but-ai/coordination/v1";

/// The line that opens a message fence.
pub open spec fn fence_open() -> Seq<char> {
    seq!['`', '`', '`', 'b', 'u', 't', '-', 'a', 'i', '-', 'm', 'e', 's', 's', 'a', 'g', 'e']
}

/// The marker that closes a fence.
pub open spec fn fence_close() -> Seq<char> {
    seq!['`', '`', '`']
}

/// A fence was opened and never closed.
#[derive(Debug, Clone, Copy, PartialEq, Eq, Structural)]
pub enum FenceError {
    Unterminated,
}

impl FenceError {
    /// The error as a sentence.
    pub fn message(&self) -> (s: String)
        ensures
            s@ == "Unterminated code fence for but-ai-message"@,
    {
        "Unterminated code fence for but-ai-message".to_owned()
    }
}

/// Where a fenced text starts: after the fence line's newline, if any.
pub open spec fn body_start(s: Seq<char>, j: int) -> int {
    if starts_with(s.skip(j), seq!['\n']) { j + 1 } else { j }
}

/// The texts of the message fences of a comment, in order, each trimmed;
/// scanning stops at a fence that is never closed.
pub open spec fn fences(s: Seq<char>) -> Seq<Result<Seq<char>, FenceError>>
    decreases s.len(),
{
    if exists|a: int| first_at(s, fence_open(), a) {
        let a = choose|a: int| first_at(s, fence_open(), a);
        let j = a + fence_open().len();
        let rest = s.skip(body_start(s, j));
        if exists|e: int| first_at(rest, fence_close(), e) {
            let e = choose|e: int| first_at(rest, fence_close(), e);
            proof {
                assert(occurs_at(s, fence_open(), a));
                assert(occurs_at(rest, fence_close(), e));
            }
            seq![Ok(trim(rest.take(e)))] + fences(rest.skip(e + 3))
        } else {
            seq![Err(FenceError::Unterminated)]
        }
    } else {
        Seq::empty()
    }
}

/// The views of fence results.
pub open spec fn fence_views(v: Seq<Result<String, FenceError>>) -> Seq<Result<Seq<char>, FenceError>> {
    v.map_values(|r: Result<String, FenceError>| match r {
        Ok(s) => Ok(s@),
        Err(e) => Err(e),
    })
}

proof fn lemma_first_at_unique(s: Seq<char>, n: Seq<char>, i: int)
    requires
        first_at(s, n, i),
    ensures
        (choose|k: int| first_at(s, n, k)) == i,
{
    let k = choose|k: int| first_at(s, n, k);
    if k < i {
        assert(!occurs_at(s, n, k));
    }
    if k > i {
        assert(!occurs_at(s, n, i));
    }
}

/// The fenced message texts of a comment.
pub fn fenced_messages(comment: &str) -> (r: Vec<Result<String, FenceError>>)
    ensures
        fence_views(r@) == fences(comment@),
    decreases comment@.len(),
{
    proof {
        reveal_strlit("```but-ai-message");
        reveal_strlit("```");
        reveal_strlit("\n");
        assert("```but-ai-message"@ =~= fence_open());
        assert("```"@ =~= fence_close());
        assert("\n"@ =~= seq!['\n']);
    }
    let mut out: Vec<Result<String, FenceError>> = Vec::new();
    match find(comment, "```but-ai-message") {
        None => {
            assert(!exists|a: int| first_at(comment@, fence_open(), a)) by {
                if exists|a: int| first_at(comment@, fence_open(), a) {
                    let a = choose|a: int| first_at(comment@, fence_open(), a);
                    assert(occurs_at(comment@, fence_open(), a));
                }
            }
            assert(fence_views(out@) =~= Seq::<Result<Seq<char>, FenceError>>::empty());
            out
        },
        Some(a) => {
            assert(first_at(comment@, fence_open(), a as int));
            proof { lemma_first_at_unique(comment@, fence_open(), a as int); }
            let n = comment.unicode_len();
            let j = a + 17;
            let after = slice_chars(comment, j, n);
            assert(after@ =~= comment@.skip(j as int));
            let k = if has_prefix(after.as_str(), "\n") { j + 1 } else { j };
            let rest = slice_chars(comment, k, n);
            assert(rest@ =~= comment@.skip(k as int));
            match find(rest.as_str(), "```") {
                None => {
                    out.push(Err(FenceError::Unterminated));
                    proof {
                        if exists|e: int| first_at(rest@, fence_close(), e) {
                            let e = choose|e: int| first_at(rest@, fence_close(), e);
                            assert(occurs_at(rest@, fence_close(), e));
                        }
                        assert(fence_views(out@) =~= seq![Err::<Seq<char>, FenceError>(FenceError::Unterminated)]);
                        assert(comment@.skip(j as int) == after@);
                        assert(fences(comment@) == seq![Err::<Seq<char>, FenceError>(FenceError::Unterminated)]);
                    }
                    out
                },
                Some(e) => {
                    assert(first_at(rest@, fence_close(), e as int));
                    proof { lemma_first_at_unique(rest@, fence_close(), e as int); }
                    let body = slice_chars(rest.as_str(), 0, e);
                    assert(body@ =~= rest@.take(e as int));
                    let text = trim_str(body.as_str());
                    let m = rest.unicode_len();
                    let tail = slice_chars(rest.as_str(), e + 3, m);
                    assert(tail@ =~= rest@.skip(e + 3));
                    let more = fenced_messages(tail.as_str());
                    let ghost tv = text@;
                    out.push(Ok(text));
                    let mut i: usize = 0;
                    assert(fence_views(out@) =~= seq![Ok::<Seq<char>, FenceError>(tv)] + fence_views(more@).take(0));
                    while i < more.len()
                        invariant
                            i <= more@.len(),
                            fence_views(out@) == seq![Ok::<Seq<char>, FenceError>(tv)] + fence_views(more@).take(i as int),
                        decreases more@.len() - i,
                    {
                        let item = match &more[i] {
                            Ok(s) => Ok(s.clone()),
                            Err(e) => Err(*e),
                        };
                        let ghost before = fence_views(out@);
                        out.push(item);
                        assert(fence_views(out@) =~= before.push(fence_views(more@)[i as int]));
                        assert(fence_views(more@).take(i + 1) =~= fence_views(more@).take(i as int).push(fence_views(more@)[i as int]));
                        i = i + 1;
                    }
                    assert(fence_views(more@).take(more@.len() as int) =~= fence_views(more@));
                    proof {
                        let cs = comment@;
                        assert(exists|a2: int| first_at(cs, fence_open(), a2));
                        let a0 = choose|a2: int| first_at(cs, fence_open(), a2);
                        assert(a0 == a);
                        let j0 = a0 + fence_open().len();
                        assert(j0 == j);
                        assert(cs.skip(j0) == after@);
                        let k0 = body_start(cs, j0);
                        assert(k0 == k);
                        let r0 = cs.skip(k0);
                        assert(r0 == rest@);
                        assert(exists|e2: int| first_at(r0, fence_close(), e2));
                        let e0 = choose|e2: int| first_at(r0, fence_close(), e2);
                        assert(e0 == e);
                    }
                    assert(fences(comment@) == seq![Ok::<Seq<char>, FenceError>(trim(rest@.take(e as int)))] + fences(rest@.skip(e + 3)));
                    out
                },
            }
        },
    }
}

/// Whether a comment holds a message fence.
pub fn is_coordination_comment(comment: &str) -> (r: bool)
    ensures
        r == contains(comment@, fence_open()),
{
    proof {
        reveal_strlit("```but-ai-message");
        assert("```but-ai-message"@ =~= fence_open());
    }
    contains_str(comment, "```but-ai-message")
}

/// Wrap a message's JSON text in its fence.
pub fn frame(json: &str) -> (s: String)
    ensures
        s@ == fence_open() + "\n"@ + json@ + "\n```"@,
{
    let mut s = String::new();
    push_str(&mut s, "```but-ai-message");
    push_str(&mut s, "\n");
    push_str(&mut s, json);
    push_str(&mut s, "\n```");
    proof {
        reveal_strlit("```but-ai-message");
        reveal_strlit("\n");
        reveal_strlit("\n```");
        reveal_strlit("");
        assert("```but-ai-message"@ =~= fence_open());
    }
    s
}

} // verus!
