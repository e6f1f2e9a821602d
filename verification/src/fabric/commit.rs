//! Commit messages with loom trailers: the thread count (`3W/5F`: warp and
//! weft threads), the weave pattern and, optionally, the inspector.
//! `compose_commit_message` writes the thread count in the `warp:N weft:M`
//! annotation style.

use vstd::prelude::*;
use crate::ids::AgentId;
use crate::parse::{join, join_strings, parse_u64, parse_u64_str, split, split_str};
use crate::text::{clone_opt, dec, dec_string, push_str, slice_chars, views};

verus! {

/// How threads are interlaced.
#[derive(Debug, Clone, Copy, PartialEq, Eq, Structural)]
pub enum WeavePattern {
    Plain,
    Twill,
    Satin,
}

/// The name of a pattern as trailers write it.
pub open spec fn pattern_name(p: WeavePattern) -> Seq<char> {
    match p {
        WeavePattern::Plain => "plain"@,
        WeavePattern::Twill => "twill"@,
        WeavePattern::Satin => "satin"@,
    }
}

/// The name of a pattern as trailers write it.
pub fn pattern_label(p: WeavePattern) -> (s: &'static str)
    ensures
        s@ == pattern_name(p),
{
    match p {
        WeavePattern::Plain => "plain",
        WeavePattern::Twill => "twill",
        WeavePattern::Satin => "satin",
    }
}

/// What a weaving produced, besides the patch and message.
#[derive(Debug, PartialEq, Eq)]
pub struct FabricMetadata {
    pub thread_count: String,
    pub weave_pattern: WeavePattern,
    pub inspected_by: Option<AgentId>,
}

/// The trailer of a commit message.
#[derive(Debug, PartialEq, Eq)]
pub struct LoomTrailer {
    pub thread_count: String,
    pub weave_pattern: String,
    pub inspected_by: Option<String>,
}

/// The view of an optional text.
pub open spec fn opt_view(o: Option<String>) -> Option<Seq<char>> {
    match o {
        Some(s) => Some(s@),
        None => None,
    }
}

/// The trailer lines of a trailer's parts.
pub open spec fn trailer_lines(count: Seq<char>, pattern: Seq<char>, inspector: Option<Seq<char>>) -> Seq<char> {
    "Thread-count: "@ + count + "\nWeave-pattern: "@ + pattern + match inspector {
        Some(i) => "\nInspected-by: "@ + i,
        None => Seq::<char>::empty(),
    }
}

/// `s` without one trailing `c`, if it ends with it.
pub open spec fn strip_last(s: Seq<char>, c: char) -> Option<Seq<char>> {
    if s.len() > 0 && s.last() == c { Some(s.drop_last()) } else { None }
}

/// What `str::parse::<u32>` gives.
pub open spec fn parse_u32(s: Seq<char>) -> Option<u32> {
    match parse_u64(s) {
        Some(v) => if v <= u32::MAX { Some(v as u32) } else { None },
        None => None,
    }
}

/// The warp and weft counts of a thread count `NW/MF`.
pub open spec fn thread_counts(s: Seq<char>) -> Option<(u32, u32)> {
    let parts = split(s, seq!['/']);
    if parts.len() != 2 {
        None
    } else {
        match (strip_last(parts[0], 'W'), strip_last(parts[1], 'F')) {
            (Some(w), Some(f)) => match (parse_u32(w), parse_u32(f)) {
                (Some(a), Some(b)) => Some((a, b)),
                _ => None,
            },
            _ => None,
        }
    }
}

fn parse_u32_str(s: &str) -> (r: Option<u32>)
    ensures
        r == parse_u32(s@),
{
    match parse_u64_str(s) {
        Some(v) => if v <= 0xffff_ffff { Some(v as u32) } else { None },
        None => None,
    }
}

fn strip_last_char(s: &str, c: char) -> (r: Option<String>)
    ensures
        opt_view(r) == strip_last(s@, c),
{
    let n = s.unicode_len();
    if n > 0 && s.get_char(n - 1) == c {
        let t = slice_chars(s, 0, n - 1);
        assert(t@ =~= s@.drop_last());
        Some(t)
    } else {
        None
    }
}

impl LoomTrailer {
    /// The trailer of a weaving's metadata.
    pub fn from_metadata(metadata: &FabricMetadata) -> (t: Self)
        ensures
            t.thread_count@ == metadata.thread_count@,
            t.weave_pattern@ == pattern_name(metadata.weave_pattern),
            opt_view(t.inspected_by) == match metadata.inspected_by {
                Some(a) => Some(a@),
                None => None::<Seq<char>>,
            },
    {
        LoomTrailer {
            thread_count: metadata.thread_count.clone(),
            weave_pattern: pattern_label(metadata.weave_pattern).to_owned(),
            inspected_by: match &metadata.inspected_by {
                Some(a) => Some(a.0.clone()),
                None => None,
            },
        }
    }

    /// The trailer as commit trailer lines.
    pub fn to_trailer_lines(&self) -> (s: String)
        ensures
            s@ == trailer_lines(self.thread_count@, self.weave_pattern@, opt_view(self.inspected_by)),
    {
        let mut s = String::new();
        push_str(&mut s, "Thread-count: ");
        push_str(&mut s, self.thread_count.as_str());
        push_str(&mut s, "\nWeave-pattern: ");
        push_str(&mut s, self.weave_pattern.as_str());
        match &self.inspected_by {
            Some(i) => {
                push_str(&mut s, "\nInspected-by: ");
                push_str(&mut s, i.as_str());
            },
            None => {},
        }
        proof {
            reveal_strlit("Thread-count: ");
            reveal_strlit("\nWeave-pattern: ");
            reveal_strlit("\nInspected-by: ");
            reveal_strlit("");
        }
        assert(s@ =~= trailer_lines(self.thread_count@, self.weave_pattern@, opt_view(self.inspected_by)));
        s
    }

    /// The warp and weft counts of the thread count, if it reads `NW/MF`.
    pub fn parse_thread_count(&self) -> (r: Option<(u32, u32)>)
        ensures
            r == thread_counts(self.thread_count@),
    {
        proof {
            reveal_strlit("/");
            assert("/"@ =~= seq!['/']);
        }
        let parts = split_str(self.thread_count.as_str(), "/");
        if parts.len() != 2 {
            return None;
        }
        assert(views(parts@)[0] == parts@[0]@ && views(parts@)[1] == parts@[1]@);
        let w = match strip_last_char(parts[0].as_str(), 'W') {
            Some(w) => w,
            None => return None,
        };
        let f = match strip_last_char(parts[1].as_str(), 'F') {
            Some(f) => f,
            None => return None,
        };
        let a = match parse_u32_str(w.as_str()) {
            Some(a) => a,
            None => return None,
        };
        let b = match parse_u32_str(f.as_str()) {
            Some(b) => b,
            None => return None,
        };
        Some((a, b))
    }
}

/// A commit message could not be built.
#[derive(Debug, Clone, Copy, PartialEq, Eq, Structural)]
pub enum CommitError {
    MissingDescription,
}

impl CommitError {
    /// The error as a sentence.
    pub fn message(&self) -> (s: String)
        ensures
            s@ == "Commit message requires a description"@,
    {
        "Commit message requires a description".to_owned()
    }
}

/// The trailer lines of a builder: the loom trailer's, then `key: value`
/// for each extra trailer.
pub open spec fn all_trailer_lines(t: Option<Seq<char>>, extras: Seq<(Seq<char>, Seq<char>)>) -> Seq<Seq<char>> {
    (match t {
        Some(l) => seq![l],
        None => Seq::<Seq<char>>::empty(),
    }) + extras.map_values(|p: (Seq<char>, Seq<char>)| p.0 + ": "@ + p.1)
}

/// The message of a builder's parts.
pub open spec fn message_of(desc: Seq<char>, body: Seq<Seq<char>>, t: Option<Seq<char>>, extras: Seq<(Seq<char>, Seq<char>)>) -> Seq<char> {
    desc + (if body.len() > 0 { "\n\n"@ + join(body, "\n\n"@) } else { Seq::empty() })
        + (if t is Some || extras.len() > 0 { "\n\n"@ + join(all_trailer_lines(t, extras), "\n"@) } else { Seq::empty() })
}

/// Builds a commit message: a description, body paragraphs, then trailers.
pub struct CommitMessageBuilder {
    description: Option<String>,
    body: Vec<String>,
    trailer: Option<LoomTrailer>,
    extra_trailers: Vec<(String, String)>,
}

/// The views of key-value pairs.
pub open spec fn pair_views(v: Seq<(String, String)>) -> Seq<(Seq<char>, Seq<char>)> {
    v.map_values(|p: (String, String)| (p.0@, p.1@))
}

/// A builder as plain values.
pub struct BuilderView {
    pub description: Option<Seq<char>>,
    pub body: Seq<Seq<char>>,
    pub trailer: Option<Seq<char>>,
    pub extras: Seq<(Seq<char>, Seq<char>)>,
}

impl View for CommitMessageBuilder {
    type V = BuilderView;

    closed spec fn view(&self) -> BuilderView {
        BuilderView {
            description: opt_view(self.description),
            body: views(self.body@),
            trailer: match self.trailer {
                Some(t) => Some(trailer_lines(t.thread_count@, t.weave_pattern@, opt_view(t.inspected_by))),
                None => None,
            },
            extras: pair_views(self.extra_trailers@),
        }
    }
}

impl CommitMessageBuilder {
    /// An empty builder.
    pub fn new() -> (b: Self)
        ensures
            b@ == (BuilderView { description: None, body: Seq::empty(), trailer: None, extras: Seq::empty() }),
    {
        let b = CommitMessageBuilder { description: None, body: Vec::new(), trailer: None, extra_trailers: Vec::new() };
        assert(b@.body =~= Seq::<Seq<char>>::empty());
        assert(b@.extras =~= Seq::<(Seq<char>, Seq<char>)>::empty());
        b
    }

    /// Set the first line.
    pub fn with_description(self, desc: &str) -> (b: Self)
        ensures
            b@ == (BuilderView { description: Some(desc@), ..self@ }),
    {
        let mut s = self;
        s.description = Some(desc.to_owned());
        s
    }

    /// Add a body paragraph.
    pub fn with_body(self, paragraph: &str) -> (b: Self)
        ensures
            b@ == (BuilderView { body: self@.body.push(paragraph@), ..self@ }),
    {
        let mut s = self;
        let ghost before = views(s.body@);
        s.body.push(paragraph.to_owned());
        assert(views(s.body@) =~= before.push(paragraph@));
        s
    }

    /// Set the loom trailer.
    pub fn with_trailer(self, trailer: LoomTrailer) -> (b: Self)
        ensures
            b@ == (BuilderView {
                trailer: Some(trailer_lines(trailer.thread_count@, trailer.weave_pattern@, opt_view(trailer.inspected_by))),
                ..self@
            }),
    {
        let mut s = self;
        s.trailer = Some(trailer);
        s
    }

    /// Add a `key: value` trailer.
    pub fn with_extra_trailer(self, key: &str, value: &str) -> (b: Self)
        ensures
            b@ == (BuilderView { extras: self@.extras.push((key@, value@)), ..self@ }),
    {
        let mut s = self;
        let ghost before = pair_views(s.extra_trailers@);
        s.extra_trailers.push((key.to_owned(), value.to_owned()));
        assert(pair_views(s.extra_trailers@) =~= before.push((key@, value@)));
        s
    }

    /// The message; an error without a description.
    pub fn build(self) -> (r: Result<String, CommitError>)
        ensures
            match self@.description {
                None => r == Err::<String, CommitError>(CommitError::MissingDescription),
                Some(d) => r is Ok && r->Ok_0@ == message_of(d, self@.body, self@.trailer, self@.extras),
            },
    {
        let ghost v = self@;
        let desc = match self.description {
            Some(d) => d,
            None => return Err(CommitError::MissingDescription),
        };
        proof {
            reveal_strlit("\n\n");
            reveal_strlit("\n");
            reveal_strlit(": ");
        }
        let mut message = desc;
        if self.body.len() > 0 {
            push_str(&mut message, "\n\n");
            let b = join_strings(&self.body, "\n\n");
            push_str(&mut message, b.as_str());
        }
        let ghost after_body = message@;
        if self.trailer.is_some() || self.extra_trailers.len() > 0 {
            push_str(&mut message, "\n\n");
            let mut lines: Vec<String> = Vec::new();
            match &self.trailer {
                Some(t) => {
                    let l = t.to_trailer_lines();
                    lines.push(l);
                },
                None => {},
            }
            let ghost base = views(lines@);
            let mut i: usize = 0;
            while i < self.extra_trailers.len()
                invariant
                    i <= self.extra_trailers@.len(),
                    views(lines@) == base + pair_views(self.extra_trailers@).take(i as int).map_values(|p: (Seq<char>, Seq<char>)| p.0 + ": "@ + p.1),
                decreases self.extra_trailers@.len() - i,
            {
                let mut l = String::new();
                push_str(&mut l, self.extra_trailers[i].0.as_str());
                push_str(&mut l, ": ");
                push_str(&mut l, self.extra_trailers[i].1.as_str());
                let ghost before = views(lines@);
                let ghost lv = l@;
                lines.push(l);
                proof {
                    reveal_strlit(": ");
                    reveal_strlit("");
                    let pv = pair_views(self.extra_trailers@);
                    assert(views(lines@) =~= before.push(lv));
                    assert(pv.take(i + 1).map_values(|p: (Seq<char>, Seq<char>)| p.0 + ": "@ + p.1)
                        =~= pv.take(i as int).map_values(|p: (Seq<char>, Seq<char>)| p.0 + ": "@ + p.1).push(pv[i as int].0 + ": "@ + pv[i as int].1));
                }
                i = i + 1;
            }
            proof {
                let pv = pair_views(self.extra_trailers@);
                assert(pv.take(pv.len() as int) =~= pv);
                assert(views(lines@) =~= all_trailer_lines(v.trailer, v.extras));
            }
            let j = join_strings(&lines, "\n");
            push_str(&mut message, j.as_str());
        }
        proof {
            match v.description {
                Some(d) => {
                    assert(message@ =~= message_of(d, v.body, v.trailer, v.extras));
                },
                None => {},
            }
        }
        Ok(message)
    }
}

impl Default for CommitMessageBuilder {
    fn default() -> (b: Self)
        ensures
            b@ == (BuilderView { description: None, body: Seq::empty(), trailer: None, extras: Seq::empty() }),
    {
        CommitMessageBuilder::new()
    }
}

/// The message `compose_commit_message` writes.
pub open spec fn composed(title: Seq<char>, body: Option<Seq<char>>, warp: u32, weft: u32, pattern: Seq<char>, inspector: Option<Seq<char>>) -> Seq<char> {
    title + (match body {
        Some(b) => "\n\n"@ + b,
        None => Seq::<char>::empty(),
    }) + "\n\n"@ + "Thread-count: warp:"@ + dec(warp as nat) + " weft:"@ + dec(weft as nat) + "\nWeave-pattern: "@ + pattern
        + (match inspector {
        Some(i) => "\nInspected-by: "@ + i,
        None => Seq::<char>::empty(),
    })
}

/// A commit message with the loom trailers written out, the thread count in
/// the `warp:N weft:M` annotation style.
pub fn compose_commit_message(title: &str, body: Option<&str>, warp_count: u32, weft_count: u32, pattern: &str, inspector: Option<&str>) -> (m: String)
    ensures
        m@ == composed(title@, match body { Some(b) => Some(b@), None => None }, warp_count, weft_count, pattern@,
            match inspector { Some(i) => Some(i@), None => None }),
{
    let mut msg = title.to_owned();
    match body {
        Some(b) => {
            push_str(&mut msg, "\n\n");
            push_str(&mut msg, b);
        },
        None => {},
    }
    push_str(&mut msg, "\n\n");
    push_str(&mut msg, "Thread-count: warp:");
    let w = dec_string(warp_count as u64);
    push_str(&mut msg, w.as_str());
    push_str(&mut msg, " weft:");
    let f = dec_string(weft_count as u64);
    push_str(&mut msg, f.as_str());
    push_str(&mut msg, "\nWeave-pattern: ");
    push_str(&mut msg, pattern);
    match inspector {
        Some(i) => {
            push_str(&mut msg, "\nInspected-by: ");
            push_str(&mut msg, i);
        },
        None => {},
    }
    proof {
        reveal_strlit("\n\n");
        reveal_strlit("Thread-count: warp:");
        reveal_strlit(" weft:");
        reveal_strlit("\nWeave-pattern: ");
        reveal_strlit("\nInspected-by: ");
    }
    assert(msg@ =~= composed(title@, match body { Some(b) => Some(b@), None => None }, warp_count, weft_count, pattern@,
        match inspector { Some(i) => Some(i@), None => None }));
    msg
}

} // verus!
