//! Model provider shims: executables named `but-ai-provider-<name>`.

pub mod shim_protocol;

use vstd::prelude::*;
use crate::fabric::patch::marked_paths;
use crate::text::{has_prefix, slice_chars, views};

verus! {

/// The prefix of a provider shim's executable name.
pub open spec fn shim_prefix() -> Seq<char> {
    "but-ai-provider-"@
}

/// The names of the provider shims among directory entries: each entry
/// that starts with the shim prefix, without the prefix, in order.
pub fn discover_shims(directory_entries: &[String]) -> (r: Vec<String>)
    ensures
        views(r@) == marked_paths(views(directory_entries@), shim_prefix()),
{
    let prefix = "but-ai-provider-";
    proof { reveal_strlit("but-ai-provider-"); }
    let ghost ev = views(directory_entries@);
    let mut out: Vec<String> = Vec::new();
    let mut i: usize = 0;
    while i < directory_entries.len()
        invariant
            i <= directory_entries@.len(),
            ev == views(directory_entries@),
            prefix@ == shim_prefix(),
            views(out@) == marked_paths(ev.take(i as int), shim_prefix()),
        decreases directory_entries@.len() - i,
    {
        let e = directory_entries[i].as_str();
        assert(ev.take(i + 1).drop_last() =~= ev.take(i as int));
        assert(ev.take(i + 1).last() == e@);
        if has_prefix(e, prefix) {
            let name = slice_chars(e, prefix.unicode_len(), e.unicode_len());
            assert(name@ =~= e@.skip(shim_prefix().len() as int));
            let ghost before = views(out@);
            let ghost nv = name@;
            out.push(name);
            assert(views(out@) =~= before.push(nv));
        }
        i = i + 1;
    }
    assert(ev.take(directory_entries@.len() as int) =~= ev);
    out
}

} // verus!
