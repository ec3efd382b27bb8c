//! File routing for the workspace scan: classify each path by its
//! extension and name pattern, and fold one file's facts into the index
//! with the matching parser.

use vstd::prelude::*;
use vstd::slice::slice_to_vec;

use crate::index::ProjectData;
use crate::parse::parse_declaration_document;
use crate::parse::parse_document_model;
use crate::refs::scan_references;
use crate::refs::spec_scan_refs;
use crate::text::contains_seq_in;
use crate::text::contains_sub_in;
use crate::text::copy_range;
use crate::text::bytes_eq;
use crate::text::ends_with_seq;
use crate::text::ends_with_sub;
use crate::text::spec_lines;
use crate::text::split_lines;

verus! {

/// How the workspace scanner treats a file.
#[derive(Clone, Copy, Debug, PartialEq, Eq, Structural)]
pub enum FileKind {
    /// A tree-syntax declaration file: parsed for components and
    /// properties.
    Declaration,
    /// A companion source file: scanned for bare component mentions.
    Reference,
    /// Anything else: skipped.
    Ignored,
}

/// Bytes of the declaration-file extension.
pub open spec fn txt_ext_tree() -> Seq<u8> {
    seq![116u8, 114u8, 101u8, 101u8]
}

/// Bytes of the reference-file extension.
pub open spec fn txt_ext_ts() -> Seq<u8> {
    seq![116u8, 115u8]
}

/// Bytes of the declaration-file name pattern.
pub open spec fn txt_view_tree_pat() -> Seq<u8> {
    seq![46u8, 118u8, 105u8, 101u8, 119u8, 46u8, 116u8, 114u8, 101u8, 101u8]
}

/// Bytes of the ambient-declaration suffix that is always excluded.
pub open spec fn txt_ambient_suffix() -> Seq<u8> {
    seq![46u8, 100u8, 46u8, 116u8, 115u8]
}

/// Start of the path's final component: the index after the last
/// separator in `s[..j]`, or 0.
pub open spec fn file_name_start(s: Seq<u8>, j: int) -> int
    decreases j,
{
    if j > 0 {
        if s[j - 1] == 47 {
            j
        } else {
            file_name_start(s, j - 1)
        }
    } else {
        0
    }
}

/// Index of the last dot in `s[lo..j]`, or `lo - 1` when there is none.
pub open spec fn last_dot_from(s: Seq<u8>, lo: int, j: int) -> int
    decreases j - lo,
{
    if j > lo {
        if s[j - 1] == 46 {
            j - 1
        } else {
            last_dot_from(s, lo, j - 1)
        }
    } else {
        lo - 1
    }
}

/// The path's extension: the text after the last dot of the final
/// component, absent when the component holds no dot or only a leading
/// one.
pub open spec fn spec_extension(s: Seq<u8>) -> Option<Seq<u8>> {
    let fs = file_name_start(s, s.len() as int);
    let k = last_dot_from(s, fs, s.len() as int);
    if k > fs {
        Some(s.subrange(k + 1, s.len() as int))
    } else {
        None
    }
}

/// Classification of a path: a `tree` extension with the declaration-file
/// name pattern anywhere in the path is a declaration file; a `ts`
/// extension without the ambient-declaration suffix is a reference file;
/// everything else is ignored.
pub open spec fn spec_classify_path(path: Seq<u8>) -> FileKind {
    let ext = spec_extension(path);
    if ext == Some(txt_ext_tree()) && contains_seq_in(
        path,
        0,
        path.len() as int,
        txt_view_tree_pat(),
    ) {
        FileKind::Declaration
    } else if ext == Some(txt_ext_ts()) && !ends_with_seq(path, txt_ambient_suffix()) {
        FileKind::Reference
    } else {
        FileKind::Ignored
    }
}

fn lit_ext_tree() -> (r: Vec<u8>)
    ensures
        r@ == txt_ext_tree(),
{
    let a: [u8; 4] = [116, 114, 101, 101];
    let r = slice_to_vec(a.as_slice());
    proof {
        assert(r@ =~= txt_ext_tree());
    }
    r
}

fn lit_ext_ts() -> (r: Vec<u8>)
    ensures
        r@ == txt_ext_ts(),
{
    let a: [u8; 2] = [116, 115];
    let r = slice_to_vec(a.as_slice());
    proof {
        assert(r@ =~= txt_ext_ts());
    }
    r
}

fn lit_view_tree_pat() -> (r: Vec<u8>)
    ensures
        r@ == txt_view_tree_pat(),
{
    let a: [u8; 10] = [46, 118, 105, 101, 119, 46, 116, 114, 101, 101];
    let r = slice_to_vec(a.as_slice());
    proof {
        assert(r@ =~= txt_view_tree_pat());
    }
    r
}

fn lit_ambient_suffix() -> (r: Vec<u8>)
    ensures
        r@ == txt_ambient_suffix(),
{
    let a: [u8; 5] = [46, 100, 46, 116, 115];
    let r = slice_to_vec(a.as_slice());
    proof {
        assert(r@ =~= txt_ambient_suffix());
    }
    r
}

/// Classify a path by extension and name pattern.
pub fn classify_file(path: &Vec<u8>) -> (r: FileKind)
    ensures
        r == spec_classify_path(path@),
{
    let n = path.len();
    let mut fs = n;
    while fs > 0 && path[fs - 1] != 47
        invariant
            0 <= fs <= n,
            n == path.len(),
            file_name_start(path@, n as int) == file_name_start(path@, fs as int),
        decreases fs,
    {
        fs = fs - 1;
    }
    assert(fs == file_name_start(path@, n as int));
    let mut j = n;
    while j > fs && path[j - 1] != 46
        invariant
            fs <= j <= n,
            n == path.len(),
            last_dot_from(path@, fs as int, n as int) == last_dot_from(path@, fs as int, j as int),
        decreases j,
    {
        j = j - 1;
    }
    if j <= fs {
        assert(spec_extension(path@) is None);
        return FileKind::Ignored;
    }
    let k = j - 1;
    assert(k == last_dot_from(path@, fs as int, n as int));
    if k == fs {
        assert(spec_extension(path@) is None);
        return FileKind::Ignored;
    }
    let ext = copy_range(path, k + 1, n);
    assert(spec_extension(path@) == Some(ext@));
    let tree = lit_ext_tree();
    let ts = lit_ext_ts();
    if bytes_eq(&ext, &tree) {
        let pat = lit_view_tree_pat();
        if contains_sub_in(path, 0, n, &pat) {
            return FileKind::Declaration;
        }
        return FileKind::Ignored;
    }
    if bytes_eq(&ext, &ts) {
        let suffix = lit_ambient_suffix();
        if !ends_with_sub(path, &suffix) {
            return FileKind::Reference;
        }
        return FileKind::Ignored;
    }
    FileKind::Ignored
}

/// Fold one file's facts into the index: a declaration file is split into
/// lines and parsed, a reference file is scanned for mentions, and any
/// other file leaves the index unchanged.
pub fn ingest_file(path: &Vec<u8>, content: &Vec<u8>, data: &mut ProjectData)
    requires
        old(data).wf(),
    ensures
        final(data).wf(),
        spec_classify_path(path@) is Declaration ==> final(data)@ == parse_document_model(
            old(data)@,
            spec_lines(content@, 0),
        ),
        spec_classify_path(path@) is Reference ==> final(data)@.components == spec_scan_refs(
            content@,
            0,
            old(data)@.components,
        ) && final(data)@.properties == old(data)@.properties,
        spec_classify_path(path@) is Ignored ==> final(data)@ == old(data)@,
{
    match classify_file(path) {
        FileKind::Declaration => {
            let lines = split_lines(content);
            parse_declaration_document(&lines, data);
        },
        FileKind::Reference => {
            scan_references(content, data);
        },
        FileKind::Ignored => {},
    }
}

} // verus!
