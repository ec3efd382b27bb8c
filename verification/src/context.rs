//! The context resolver: classifies a (line text, cursor offset) pair into
//! a syntactic context, and finds the enclosing component of a line by
//! scanning upward for the nearest declaration line.

use vstd::prelude::*;

use crate::index::is_component_name;
use crate::parse::contains_binding_marker;
use crate::parse::declaration_token;
use crate::parse::has_binding_marker;
use crate::parse::spec_decl_token;
use crate::text::contains_byte_in;
use crate::text::find_byte_in;
use crate::text::find_non_ws;
use crate::text::rfind_non_ws;
use crate::text::rskip_ws;
use crate::text::skip_ws;
use crate::text::views_of;
use crate::text::SIGIL;
use crate::text::SPACE;

verus! {

/// The syntactic context of a cursor position.
#[derive(Clone, Copy, Debug, PartialEq, Eq, Structural)]
pub enum CursorContext {
    /// A component name is being written.
    ComponentName,
    /// The base component after a root component's name.
    ComponentExtends,
    /// A binding operator position.
    PropertyBinding,
    /// A property name inside a component block.
    PropertyName,
    /// A value position.
    Value,
}

/// Rule 1: the trimmed prefix up to the cursor starts with the sigil.
pub open spec fn rule_sigil_prefix(line: Seq<u8>, c: int) -> bool {
    let tstart = skip_ws(line, 0, c);
    tstart < c && line[tstart] == SIGIL
}

/// Rule 2: no indentation before the cursor and no space in the trimmed
/// prefix.
pub open spec fn rule_bare_root(line: Seq<u8>, c: int) -> bool {
    let tstart = skip_ws(line, 0, c);
    let tend = rskip_ws(line, tstart, c);
    tstart == 0 && !contains_byte_in(line, tstart, tend, SPACE)
}

/// Rule 3: no indentation before the cursor and a space in the trimmed
/// prefix.
pub open spec fn rule_extends(line: Seq<u8>, c: int) -> bool {
    let tstart = skip_ws(line, 0, c);
    let tend = rskip_ws(line, tstart, c);
    tstart == 0 && contains_byte_in(line, tstart, tend, SPACE)
}

/// Rule 4: the trimmed prefix holds the one-way binding marker.
pub open spec fn rule_binding(line: Seq<u8>, c: int) -> bool {
    let tstart = skip_ws(line, 0, c);
    let tend = rskip_ws(line, tstart, c);
    has_binding_marker(line, tstart, tend)
}

/// Rule 5: the cursor stands after some indentation.
pub open spec fn rule_indented(line: Seq<u8>, c: int) -> bool {
    skip_ws(line, 0, c) > 0
}

/// The cursor offset clamped into the line.
pub open spec fn clamp_offset(line: Seq<u8>, offset: int) -> int {
    if offset <= line.len() {
        offset
    } else {
        line.len() as int
    }
}

/// Classification of a cursor position: the first matching rule wins, in
/// the fixed order sigil prefix, bare root, extends, binding, indented;
/// everything else is a value position.
pub open spec fn spec_classify(line: Seq<u8>, offset: int) -> CursorContext {
    let c = clamp_offset(line, offset);
    if rule_sigil_prefix(line, c) {
        CursorContext::ComponentName
    } else if rule_bare_root(line, c) {
        CursorContext::ComponentName
    } else if rule_extends(line, c) {
        CursorContext::ComponentExtends
    } else if rule_binding(line, c) {
        CursorContext::PropertyBinding
    } else if rule_indented(line, c) {
        CursorContext::PropertyName
    } else {
        CursorContext::Value
    }
}

/// The classifier is total: every (line, offset) pair falls under exactly
/// one context, decided by the first matching rule in the fixed order of
/// `spec_classify`.
pub proof fn lemma_classify_total(line: Seq<u8>, offset: int)
    ensures
        ({
            let c = clamp_offset(line, offset);
            let r = spec_classify(line, offset);
            &&& (rule_sigil_prefix(line, c) ==> r == CursorContext::ComponentName)
            &&& (!rule_sigil_prefix(line, c) && rule_bare_root(line, c) ==> r
                == CursorContext::ComponentName)
            &&& (!rule_sigil_prefix(line, c) && !rule_bare_root(line, c) && rule_extends(line, c)
                ==> r == CursorContext::ComponentExtends)
            &&& (!rule_sigil_prefix(line, c) && !rule_bare_root(line, c) && !rule_extends(line, c)
                && rule_binding(line, c) ==> r == CursorContext::PropertyBinding)
            &&& (!rule_sigil_prefix(line, c) && !rule_bare_root(line, c) && !rule_extends(line, c)
                && !rule_binding(line, c) && rule_indented(line, c) ==> r
                == CursorContext::PropertyName)
            &&& (!rule_sigil_prefix(line, c) && !rule_bare_root(line, c) && !rule_extends(line, c)
                && !rule_binding(line, c) && !rule_indented(line, c) ==> r == CursorContext::Value)
        }),
{
}

/// Classify the cursor position `offset` in `line`.  The offset is
/// clamped into the line before use.
pub fn classify(line: &Vec<u8>, offset: usize) -> (r: CursorContext)
    ensures
        r == spec_classify(line@, offset as int),
{
    let n = line.len();
    let c = if offset <= n {
        offset
    } else {
        n
    };
    let tstart = find_non_ws(line, 0, c);
    let tend = rfind_non_ws(line, tstart, c);
    if tstart < c && line[tstart] == SIGIL {
        return CursorContext::ComponentName;
    }
    let space = find_byte_in(line, tstart, tend, SPACE);
    if tstart == 0 && !space {
        return CursorContext::ComponentName;
    }
    if tstart == 0 && space {
        return CursorContext::ComponentExtends;
    }
    if contains_binding_marker(line, tstart, tend) {
        return CursorContext::PropertyBinding;
    }
    if tstart > 0 {
        return CursorContext::PropertyName;
    }
    CursorContext::Value
}

/// The enclosing component of line `i`: the declaration token of the
/// nearest line at or above `i` that is a declaration line, scanning down
/// to line 0 inclusive.  Indices beyond the document are skipped.
pub open spec fn spec_enclosing(lines: Seq<Seq<u8>>, i: int) -> Option<Seq<u8>>
    decreases i,
{
    if i < 0 {
        None
    } else if i < lines.len() && spec_decl_token(lines[i]) is Some {
        spec_decl_token(lines[i])
    } else if i == 0 {
        None
    } else {
        spec_enclosing(lines, i - 1)
    }
}

/// When line 0 is not itself a declaration line, there is no enclosing
/// component for line 0: no preceding lines exist.
pub proof fn lemma_enclosing_at_line_zero(lines: Seq<Seq<u8>>)
    requires
        lines.len() > 0,
        spec_decl_token(lines[0]) is None,
    ensures
        spec_enclosing(lines, 0) is None,
{
}

/// Scanning from any index at or beyond the last line is the same as
/// scanning from the last line.
proof fn lemma_enclosing_oob(lines: Seq<Seq<u8>>, i: int)
    requires
        i >= lines.len(),
        i >= 0,
    ensures
        spec_enclosing(lines, i) == (if lines.len() == 0 {
            None::<Seq<u8>>
        } else {
            spec_enclosing(lines, lines.len() - 1)
        }),
    decreases i,
{
    if i > 0 && i - 1 >= lines.len() {
        lemma_enclosing_oob(lines, i - 1);
    }
}

/// Find the enclosing component of `current_line`, scanning upward from
/// it to line 0 for the nearest declaration line.
pub fn find_enclosing_component(lines: &Vec<Vec<u8>>, current_line: usize) -> (r: Option<Vec<u8>>)
    ensures
        (match r {
            Some(t) => spec_enclosing(views_of(lines@), current_line as int) == Some(t@)
                && is_component_name(t@),
            None => spec_enclosing(views_of(lines@), current_line as int) is None,
        }),
{
    let ghost lv = views_of(lines@);
    let n = lines.len();
    if n == 0 {
        proof {
            if current_line > 0 {
                lemma_enclosing_oob(lv, current_line as int);
            }
        }
        return None;
    }
    let start = if current_line >= n {
        proof {
            lemma_enclosing_oob(lv, current_line as int);
        }
        n - 1
    } else {
        current_line
    };
    let mut i = start + 1;
    while i > 0
        invariant
            i <= n,
            n == lines.len(),
            lv == views_of(lines@),
            spec_enclosing(lv, current_line as int) == spec_enclosing(lv, i - 1),
        decreases i,
    {
        proof {
            assert(lines@[i - 1]@ == lv[i - 1]);
        }
        match declaration_token(&lines[i - 1]) {
            Some(t) => {
                return Some(t);
            },
            None => {},
        }
        i = i - 1;
    }
    None
}

} // verus!
