//! The reference scanner: a pass over a companion source file that
//! collects every substring of the form "sigil followed by one or more
//! word bytes" as a bare component mention.  Property sets are never
//! touched.

use vstd::prelude::*;

use crate::index::ProjectData;
use crate::index::is_component_name;
use crate::text::byte_is_word;
use crate::text::copy_range;
use crate::text::find_non_word;
use crate::text::is_word_byte;
use crate::text::lemma_skip_word_bounds;
use crate::text::skip_word;
use crate::text::SIGIL;

verus! {

/// The component mentions of `s[i..]` added to `acc`: at each sigil byte
/// followed by a word byte, the maximal word run forms a mention and the
/// scan resumes after it; any other byte is skipped.
pub open spec fn spec_scan_refs(s: Seq<u8>, i: int, acc: Set<Seq<u8>>) -> Set<Seq<u8>>
    decreases s.len() - i,
    via spec_scan_refs_dec
{
    if 0 <= i < s.len() {
        if s[i] == SIGIL && i + 1 < s.len() && is_word_byte(s[i + 1]) {
            let j = skip_word(s, i + 1, s.len() as int);
            spec_scan_refs(s, j, acc.insert(s.subrange(i, j)))
        } else {
            spec_scan_refs(s, i + 1, acc)
        }
    } else {
        acc
    }
}

#[via_fn]
proof fn spec_scan_refs_dec(s: Seq<u8>, i: int, acc: Set<Seq<u8>>) {
    if 0 <= i < s.len() {
        if s[i] == SIGIL && i + 1 < s.len() && is_word_byte(s[i + 1]) {
            lemma_skip_word_bounds(s, i + 1, s.len() as int);
        }
    }
}

/// Scan one companion source file for component mentions, adding each to
/// the component set of `data`.  Property sets are left unchanged.
pub fn scan_references(content: &Vec<u8>, data: &mut ProjectData)
    requires
        old(data).wf(),
    ensures
        final(data).wf(),
        final(data)@.components == spec_scan_refs(content@, 0, old(data)@.components),
        final(data)@.properties == old(data)@.properties,
{
    let n = content.len();
    let mut i: usize = 0;
    while i < n
        invariant
            data.wf(),
            0 <= i <= n,
            n == content.len(),
            spec_scan_refs(content@, 0, old(data)@.components) == spec_scan_refs(
                content@,
                i as int,
                data@.components,
            ),
            data@.properties == old(data)@.properties,
        decreases n - i,
    {
        if content[i] == SIGIL && i + 1 < n && byte_is_word(content[i + 1]) {
            let j = find_non_word(content, i + 1, n);
            let tok = copy_range(content, i, j);
            proof {
                lemma_skip_word_bounds(content@, i as int + 1, n as int);
                assert(tok@[0] == SIGIL);
                assert(is_component_name(tok@));
            }
            data.insert_component(tok);
            i = j;
        } else {
            i = i + 1;
        }
    }
}

} // verus!
