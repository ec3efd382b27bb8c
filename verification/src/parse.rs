//! The declaration parser: a single line-oriented pass over a tree-syntax
//! document, stateful on the current component.
//!
//! A declaration line (zero leading whitespace, first token sigil-prefixed)
//! sets the current component.  An indented line contributes properties to
//! the current component in two independent ways: its leading identifier
//! when the line holds no binding marker, and the identifier following a
//! one-way binding marker.

use vstd::prelude::*;

use crate::index::IndexModel;
use crate::index::ProjectData;
use crate::index::is_component_name;
use crate::index::is_property_name;
use crate::index::is_reserved_word;
use crate::index::bytes_is_reserved;
use crate::index::model_add_decl;
use crate::index::model_add_prop;
use crate::index::model_props_of;
use crate::text::copy_bytes;
use crate::text::copy_range;
use crate::text::find_non_ident_cont;
use crate::text::find_non_ws;
use crate::text::find_ws;
use crate::text::is_ident_start_byte;
use crate::text::is_ws_byte;
use crate::text::byte_is_ident_start;
use crate::text::byte_is_ws;
use crate::text::lemma_skip_non_ws_bounds;
use crate::text::rfind_non_ws;
use crate::text::rskip_ws;
use crate::text::skip_ident_cont;
use crate::text::skip_non_ws;
use crate::text::skip_ws;
use crate::text::views_of;
use crate::text::SIGIL;
use crate::text::SPACE;
use crate::text::TAB;

verus! {

/// The component token of a declaration line: present when the line has no
/// leading tab or space and its trimmed text starts with the sigil; the
/// token runs to the first whitespace byte.
pub open spec fn spec_decl_token(line: Seq<u8>) -> Option<Seq<u8>> {
    if line.len() > 0 && line[0] != TAB && line[0] != SPACE {
        let tstart = skip_ws(line, 0, line.len() as int);
        if tstart < line.len() && line[tstart] == SIGIL {
            Some(line.subrange(tstart, skip_non_ws(line, tstart, line.len() as int)))
        } else {
            None
        }
    } else {
        None
    }
}

/// True when the two-byte one-way binding marker occurs inside `s[lo..hi]`.
pub open spec fn has_binding_marker(s: Seq<u8>, lo: int, hi: int) -> bool {
    exists|p: int| #![trigger s[p]] lo <= p && p + 2 <= hi && s[p] == 60 && s[p + 1] == 61
}

/// The leading identifier of an indented line, provided the trimmed line
/// holds no binding marker and the identifier is not a reserved literal.
pub open spec fn spec_plain_property(line: Seq<u8>) -> Option<Seq<u8>> {
    if line.len() > 0 && is_ws_byte(line[0]) {
        let tstart = skip_ws(line, 0, line.len() as int);
        let tend = rskip_ws(line, tstart, line.len() as int);
        if tstart < line.len() && is_ident_start_byte(line[tstart]) && !has_binding_marker(
            line,
            tstart,
            tend,
        ) {
            let tok = line.subrange(tstart, skip_ident_cont(line, tstart + 1, line.len() as int));
            if !is_reserved_word(tok) {
                Some(tok)
            } else {
                None
            }
        } else {
            None
        }
    } else {
        None
    }
}

/// True when the one-way binding marker at `p` is followed by whitespace
/// and an identifier, all inside `s[..hi]`.
pub open spec fn binding_match_at(s: Seq<u8>, p: int, hi: int) -> bool {
    p + 2 <= hi && s[p] == 60 && s[p + 1] == 61 && {
        let q = skip_ws(s, p + 2, hi);
        q > p + 2 && q < hi && is_ident_start_byte(s[q])
    }
}

/// The first position at or after `i` where a binding marker with a bound
/// identifier starts, or `hi`.
pub open spec fn find_binding(s: Seq<u8>, i: int, hi: int) -> int
    decreases hi - i,
{
    if i < hi {
        if binding_match_at(s, i, hi) {
            i
        } else {
            find_binding(s, i + 1, hi)
        }
    } else {
        hi
    }
}

/// The identifier bound by the first one-way binding marker of the trimmed
/// line, if any: the marker must be followed by whitespace and an
/// identifier.
pub open spec fn spec_binding_property(line: Seq<u8>) -> Option<Seq<u8>> {
    let tstart = skip_ws(line, 0, line.len() as int);
    let tend = rskip_ws(line, tstart, line.len() as int);
    let p = find_binding(line, tstart, tend);
    if p < tend {
        let q = skip_ws(line, p + 2, tend);
        Some(line.subrange(q, skip_ident_cont(line, q + 1, tend)))
    } else {
        None
    }
}

pub fn declaration_token(line: &Vec<u8>) -> (r: Option<Vec<u8>>)
    ensures
        (match r {
            Some(t) => spec_decl_token(line@) == Some(t@) && is_component_name(t@),
            None => spec_decl_token(line@) is None,
        }),
{
    let n = line.len();
    if n == 0 || line[0] == TAB || line[0] == SPACE {
        return None;
    }
    let tstart = find_non_ws(line, 0, n);
    if tstart < n && line[tstart] == SIGIL {
        let tok_end = find_ws(line, tstart, n);
        proof {
            lemma_skip_non_ws_bounds(line@, tstart as int, n as int);
            assert(skip_non_ws(line@, tstart as int, n as int) != tstart as int);
        }
        let t = copy_range(line, tstart, tok_end);
        proof {
            assert(t@[0] == line@[tstart as int]);
        }
        Some(t)
    } else {
        None
    }
}

/// Scan `line[lo..hi]` for the two-byte binding marker.
pub fn contains_binding_marker(line: &Vec<u8>, lo: usize, hi: usize) -> (r: bool)
    requires
        lo <= hi <= line.len(),
    ensures
        r == has_binding_marker(line@, lo as int, hi as int),
{
    if hi < 2 || hi - 2 < lo {
        proof {
            if has_binding_marker(line@, lo as int, hi as int) {
                let p = choose|p: int| #![trigger line@[p]]
                    lo <= p && p + 2 <= hi && line@[p] == 60 && line@[p + 1] == 61;
                assert(false);
            }
        }
        return false;
    }
    let mut p = lo;
    while p <= hi - 2
        invariant
            lo <= p <= hi - 1,
            2 <= hi <= line.len(),
            lo <= hi - 2,
            forall|q: int| #![trigger line@[q]] lo <= q < p ==> !(line@[q] == 60 && line@[q + 1] == 61),
        decreases hi - p,
    {
        if line[p] == 60 && line[p + 1] == 61 {
            return true;
        }
        p = p + 1;
    }
    proof {
        if has_binding_marker(line@, lo as int, hi as int) {
            let q = choose|q: int| #![trigger line@[q]]
                lo <= q && q + 2 <= hi && line@[q] == 60 && line@[q + 1] == 61;
            assert(q < p);
            assert(false);
        }
    }
    false
}

pub fn plain_property(line: &Vec<u8>) -> (r: Option<Vec<u8>>)
    ensures
        (match r {
            Some(t) => spec_plain_property(line@) == Some(t@) && is_property_name(t@),
            None => spec_plain_property(line@) is None,
        }),
{
    let n = line.len();
    if n == 0 || !byte_is_ws(line[0]) {
        return None;
    }
    let tstart = find_non_ws(line, 0, n);
    if tstart < n && byte_is_ident_start(line[tstart]) {
        let tend = rfind_non_ws(line, tstart, n);
        if contains_binding_marker(line, tstart, tend) {
            return None;
        }
        let tok_end = find_non_ident_cont(line, tstart + 1, n);
        let tok = copy_range(line, tstart, tok_end);
        proof {
            assert(tok@[0] == line@[tstart as int]);
            assert(tok@[0] != SIGIL);
        }
        if !bytes_is_reserved(&tok) {
            Some(tok)
        } else {
            None
        }
    } else {
        None
    }
}

pub fn binding_property(line: &Vec<u8>) -> (r: Option<Vec<u8>>)
    ensures
        (match r {
            Some(t) => spec_binding_property(line@) == Some(t@) && t@.len() > 0 && t@[0] != SIGIL
                && is_ident_start_byte(t@[0]),
            None => spec_binding_property(line@) is None,
        }),
{
    let n = line.len();
    let tstart = find_non_ws(line, 0, n);
    let tend = rfind_non_ws(line, tstart, n);
    let mut p = tstart;
    while p < tend
        invariant
            tstart <= p <= tend <= n,
            n == line.len(),
            tstart == skip_ws(line@, 0, n as int),
            tend == rskip_ws(line@, tstart as int, n as int),
            find_binding(line@, tstart as int, tend as int) == find_binding(
                line@,
                p as int,
                tend as int,
            ),
        decreases tend - p,
    {
        let mat = if tend >= 2 && p <= tend - 2 && line[p] == 60 && line[p + 1] == 61 {
            let q = find_non_ws(line, p + 2, tend);
            q > p + 2 && q < tend && byte_is_ident_start(line[q])
        } else {
            false
        };
        proof {
            assert(mat == binding_match_at(line@, p as int, tend as int));
        }
        if mat {
            let q = find_non_ws(line, p + 2, tend);
            let tok_end = find_non_ident_cont(line, q + 1, tend);
            let tok = copy_range(line, q, tok_end);
            proof {
                assert(find_binding(line@, p as int, tend as int) == p);
                assert(tok@[0] == line@[q as int]);
                assert(tok@[0] != SIGIL);
            }
            return Some(tok);
        }
        p = p + 1;
    }
    proof {
        assert(find_binding(line@, p as int, tend as int) == tend);
    }
    None
}

/// Parser state: the index built so far and the current component.
pub ghost struct ParseState {
    pub index: IndexModel,
    pub current: Option<Seq<u8>>,
}

/// The view of the running current-component value.
pub open spec fn opt_view(o: Option<Vec<u8>>) -> Option<Seq<u8>> {
    match o {
        Some(v) => Some(v@),
        None => None,
    }
}

/// Effect of one line on the parser state.  A declaration line first sets
/// the current component; an indented line then contributes its plain
/// property and its binding property, each independently, to the current
/// component if there is one.
pub open spec fn line_step(st: ParseState, line: Seq<u8>) -> ParseState {
    let st1 = match spec_decl_token(line) {
        Some(t) => ParseState { index: model_add_decl(st.index, t), current: Some(t) },
        None => st,
    };
    if line.len() > 0 && is_ws_byte(line[0]) {
        match st1.current {
            Some(c) => {
                let m1 = match spec_plain_property(line) {
                    Some(t) => model_add_prop(st1.index, c, t),
                    None => st1.index,
                };
                let m2 = match spec_binding_property(line) {
                    Some(t) => model_add_prop(m1, c, t),
                    None => m1,
                };
                ParseState { index: m2, current: st1.current }
            },
            None => st1,
        }
    } else {
        st1
    }
}

/// The parser state after folding the lines from `i` on.
pub open spec fn parse_from(st: ParseState, lines: Seq<Seq<u8>>, i: int) -> ParseState
    decreases lines.len() - i,
{
    if 0 <= i < lines.len() {
        parse_from(line_step(st, lines[i]), lines, i + 1)
    } else {
        st
    }
}

/// The index produced by parsing a whole document into `m`, starting with
/// no current component.
pub open spec fn parse_document_model(m: IndexModel, lines: Seq<Seq<u8>>) -> IndexModel {
    parse_from(ParseState { index: m, current: None }, lines, 0).index
}

/// Parse one tree-syntax document, folding its component and property
/// facts into `data`.
pub fn parse_declaration_document(lines: &Vec<Vec<u8>>, data: &mut ProjectData)
    requires
        old(data).wf(),
    ensures
        final(data).wf(),
        final(data)@ == parse_document_model(old(data)@, views_of(lines@)),
{
    let ghost lv = views_of(lines@);
    let ghost st0 = ParseState { index: old(data)@, current: None };
    let mut current: Option<Vec<u8>> = None;
    let n = lines.len();
    let mut i: usize = 0;
    while i < n
        invariant
            data.wf(),
            0 <= i <= n,
            n == lines.len(),
            lv == views_of(lines@),
            st0 == (ParseState { index: old(data)@, current: None::<Seq<u8>> }),
            parse_from(st0, lv, 0) == parse_from(
                ParseState { index: data@, current: opt_view(current) },
                lv,
                i as int,
            ),
            (current matches Some(c) ==> is_component_name(c@)),
        decreases n - i,
    {
        let ghost pre = ParseState { index: data@, current: opt_view(current) };
        let line = &lines[i];
        proof {
            assert(line@ == lv[i as int]);
        }
        match declaration_token(line) {
            Some(t) => {
                let t2 = copy_bytes(&t);
                data.add_declaration(t);
                current = Some(t2);
            },
            None => {},
        }
        let ghost st1 = ParseState { index: data@, current: opt_view(current) };
        proof {
            assert(st1 == (match spec_decl_token(lv[i as int]) {
                Some(t) => ParseState { index: model_add_decl(pre.index, t), current: Some(t) },
                None => pre,
            }));
        }
        if line.len() > 0 && byte_is_ws(line[0]) {
            match &current {
                Some(c) => {
                    match plain_property(line) {
                        Some(t) => {
                            data.add_property(c, t);
                        },
                        None => {},
                    }
                    let ghost mid = data@;
                    proof {
                        assert(mid == (match spec_plain_property(lv[i as int]) {
                            Some(t) => model_add_prop(st1.index, c@, t),
                            None => st1.index,
                        }));
                    }
                    match binding_property(line) {
                        Some(t) => {
                            data.add_property(c, t);
                        },
                        None => {},
                    }
                    proof {
                        assert(data@ == (match spec_binding_property(lv[i as int]) {
                            Some(t) => model_add_prop(mid, c@, t),
                            None => mid,
                        }));
                    }
                },
                None => {},
            }
        }
        proof {
            assert((ParseState { index: data@, current: opt_view(current) }) == line_step(
                pre,
                lv[i as int],
            ));
        }
        i = i + 1;
    }
    proof {
        assert(parse_from(ParseState { index: data@, current: opt_view(current) }, lv, n as int)
            == (ParseState { index: data@, current: opt_view(current) }));
    }
}

/// A document without declaration lines contributes nothing: parsing it
/// into any index leaves the index unchanged.
pub proof fn lemma_parse_no_declarations(m: IndexModel, lines: Seq<Seq<u8>>)
    requires
        forall|i: int| 0 <= i < lines.len() ==> spec_decl_token(#[trigger] lines[i]) is None,
    ensures
        parse_document_model(m, lines) == m,
{
    lemma_parse_from_no_decl(ParseState { index: m, current: None }, lines, 0);
}

proof fn lemma_parse_from_no_decl(st: ParseState, lines: Seq<Seq<u8>>, i: int)
    requires
        st.current is None,
        forall|j: int| 0 <= j < lines.len() ==> spec_decl_token(#[trigger] lines[j]) is None,
    ensures
        parse_from(st, lines, i) == st,
    decreases lines.len() - i,
{
    if 0 <= i < lines.len() {
        assert(line_step(st, lines[i]) == st);
        lemma_parse_from_no_decl(st, lines, i + 1);
    }
}

/// The empty index model.
pub open spec fn empty_model() -> IndexModel {
    IndexModel { components: Set::empty(), properties: Map::empty() }
}

/// Union of two index models: components united, property sets united
/// per key.
pub open spec fn join(a: IndexModel, b: IndexModel) -> IndexModel {
    IndexModel {
        components: a.components.union(b.components),
        properties: Map::new(
            |k: Seq<u8>| a.properties.dom().contains(k) || b.properties.dom().contains(k),
            |k: Seq<u8>| model_props_of(a, k).union(model_props_of(b, k)),
        ),
    }
}

/// The singleton property set contributed by one extracted token: empty
/// when the token is not an admissible property name.
pub open spec fn prop_singleton(t: Seq<u8>) -> Set<Seq<u8>> {
    if is_property_name(t) {
        Set::empty().insert(t)
    } else {
        Set::empty()
    }
}

/// The admissible property names one indented line contributes.
pub open spec fn line_props(line: Seq<u8>) -> Set<Seq<u8>> {
    let s1 = match spec_plain_property(line) {
        Some(t) => prop_singleton(t),
        None => Set::empty(),
    };
    let s2 = match spec_binding_property(line) {
        Some(t) => prop_singleton(t),
        None => Set::empty(),
    };
    s1.union(s2)
}

/// Contribution of one line, independent of the index it is folded into,
/// together with the next current component.
pub open spec fn line_delta(line: Seq<u8>, cur: Option<Seq<u8>>) -> (IndexModel, Option<Seq<u8>>) {
    let d1 = match spec_decl_token(line) {
        Some(t) => (
            IndexModel {
                components: Set::empty().insert(t),
                properties: Map::empty().insert(t, Set::empty()),
            },
            Some(t),
        ),
        None => (empty_model(), cur),
    };
    if line.len() > 0 && is_ws_byte(line[0]) {
        match d1.1 {
            Some(c) => (
                IndexModel {
                    components: d1.0.components,
                    properties: d1.0.properties.insert(c, line_props(line)),
                },
                d1.1,
            ),
            None => d1,
        }
    } else {
        d1
    }
}

/// Contribution of the document suffix from line `i` on, given the
/// current component.
pub open spec fn doc_delta(lines: Seq<Seq<u8>>, i: int, cur: Option<Seq<u8>>) -> IndexModel
    decreases lines.len() - i,
{
    if 0 <= i < lines.len() {
        join(line_delta(lines[i], cur).0, doc_delta(lines, i + 1, line_delta(lines[i], cur).1))
    } else {
        empty_model()
    }
}

/// For every key, the property set of a join is the union of the two
/// property sets, the empty set standing in for an absent key.
proof fn lemma_join_props(a: IndexModel, b: IndexModel, k: Seq<u8>)
    ensures
        model_props_of(join(a, b), k) == model_props_of(a, k).union(model_props_of(b, k)),
{
    if !a.properties.dom().contains(k) && !b.properties.dom().contains(k) {
        assert(model_props_of(join(a, b), k) =~= model_props_of(a, k).union(
            model_props_of(b, k),
        ));
    }
}

/// Joining is associative.
proof fn lemma_join_assoc(a: IndexModel, b: IndexModel, c: IndexModel)
    ensures
        join(join(a, b), c) == join(a, join(b, c)),
{
    assert(join(join(a, b), c).components =~= join(a, join(b, c)).components);
    assert forall|k: Seq<u8>|
        join(join(a, b), c).properties.dom().contains(k) == join(
            a,
            join(b, c),
        ).properties.dom().contains(k) by {}
    assert forall|k: Seq<u8>| #[trigger] join(join(a, b), c).properties.dom().contains(k) implies join(
        join(a, b),
        c,
    ).properties[k] == join(a, join(b, c)).properties[k] by {
        lemma_join_props(a, b, k);
        lemma_join_props(b, c, k);
        assert(join(join(a, b), c).properties[k] == model_props_of(join(a, b), k).union(
            model_props_of(c, k),
        ));
        assert(join(a, join(b, c)).properties[k] == model_props_of(a, k).union(
            model_props_of(join(b, c), k),
        ));
        assert(model_props_of(join(a, b), k).union(model_props_of(c, k)) =~= model_props_of(
            a,
            k,
        ).union(model_props_of(join(b, c), k)));
    }
    assert(join(join(a, b), c).properties =~~= join(a, join(b, c)).properties);
}

/// Joining the same contribution twice is the same as joining it once.
proof fn lemma_join_absorb(x: IndexModel, d: IndexModel)
    ensures
        join(join(x, d), d) == join(x, d),
{
    assert(join(join(x, d), d).components =~= join(x, d).components);
    assert forall|k: Seq<u8>| #[trigger] join(join(x, d), d).properties.dom().contains(k) implies join(
        join(x, d),
        d,
    ).properties[k] == join(x, d).properties[k] by {
        lemma_join_props(x, d, k);
        assert(join(join(x, d), d).properties[k] == model_props_of(join(x, d), k).union(
            model_props_of(d, k),
        ));
        assert(model_props_of(join(x, d), k).union(model_props_of(d, k)) =~= model_props_of(
            x,
            k,
        ).union(model_props_of(d, k)));
    }
    assert(join(join(x, d), d).properties =~~= join(x, d).properties);
}

/// Recording one admissible token is inserting its singleton set.
proof fn lemma_add_prop_as_union(m: IndexModel, c: Seq<u8>, t: Seq<u8>)
    requires
        m.properties.dom().contains(c),
    ensures
        model_add_prop(m, c, t).components == m.components,
        model_add_prop(m, c, t).properties == m.properties.insert(
            c,
            m.properties[c].union(prop_singleton(t)),
        ),
{
    if is_property_name(t) {
        assert(m.properties[c].insert(t) =~= m.properties[c].union(prop_singleton(t)));
    } else {
        assert(m.properties[c] =~= m.properties[c].union(prop_singleton(t)));
        assert(m.properties =~~= m.properties.insert(c, m.properties[c].union(prop_singleton(t))));
    }
}

/// One parser step equals joining the line's own contribution.
proof fn lemma_line_step_join(st: ParseState, line: Seq<u8>)
    requires
        (st.current matches Some(c) ==> st.index.properties.dom().contains(c)),
    ensures
        line_step(st, line).index == join(st.index, line_delta(line, st.current).0),
        line_step(st, line).current == line_delta(line, st.current).1,
        (line_step(st, line).current matches Some(c) ==> line_step(
            st,
            line,
        ).index.properties.dom().contains(c)),
{
    let m = st.index;
    let (d, cur1) = line_delta(line, st.current);
    let st1 = match spec_decl_token(line) {
        Some(t) => ParseState { index: model_add_decl(m, t), current: Some(t) },
        None => st,
    };
    // After a declaration, the current component always has a key.
    assert(st1.current matches Some(c) ==> st1.index.properties.dom().contains(c));
    if line.len() > 0 && is_ws_byte(line[0]) && st1.current is Some {
        let c = st1.current.unwrap();
        let mA = match spec_plain_property(line) {
            Some(t) => model_add_prop(st1.index, c, t),
            None => st1.index,
        };
        let sA = match spec_plain_property(line) {
            Some(t) => prop_singleton(t),
            None => Set::<Seq<u8>>::empty(),
        };
        let sB = match spec_binding_property(line) {
            Some(t) => prop_singleton(t),
            None => Set::<Seq<u8>>::empty(),
        };
        match spec_plain_property(line) {
            Some(t) => {
                lemma_add_prop_as_union(st1.index, c, t);
            },
            None => {
                assert(st1.index.properties =~~= st1.index.properties.insert(
                    c,
                    st1.index.properties[c].union(sA),
                ));
            },
        }
        assert(mA.properties == st1.index.properties.insert(
            c,
            st1.index.properties[c].union(sA),
        ));
        assert(mA.properties.dom().contains(c));
        assert(mA.properties[c] == st1.index.properties[c].union(sA));
        match spec_binding_property(line) {
            Some(t) => {
                lemma_add_prop_as_union(mA, c, t);
            },
            None => {
                assert(mA.properties =~~= mA.properties.insert(c, mA.properties[c].union(sB)));
            },
        }
        let mB = line_step(st, line).index;
        assert(mB.properties == mA.properties.insert(c, mA.properties[c].union(sB)));
        assert(mB.properties == st1.index.properties.insert(
            c,
            st1.index.properties[c].union(sA).union(sB),
        )) by {
            assert(mA.properties.insert(c, mA.properties[c].union(sB)) =~~= st1.index.properties
                .insert(c, st1.index.properties[c].union(sA).union(sB)));
        }
        assert(st1.index.properties[c].union(sA).union(sB) =~= st1.index.properties[c].union(
            line_props(line),
        ));
        assert(mB.components == st1.index.components);
        // Now relate to the join of the line delta.
        assert(mB.components =~= join(m, d).components);
        assert forall|k: Seq<u8>|
            mB.properties.dom().contains(k) == join(m, d).properties.dom().contains(k) by {}
        assert forall|k: Seq<u8>| #[trigger] mB.properties.dom().contains(k) implies mB.properties[k]
            == join(m, d).properties[k] by {
            lemma_join_props(m, d, k);
            if k == c {
                assert(model_props_of(d, k) == line_props(line)) by {
                    match spec_decl_token(line) {
                        Some(t) => {
                            assert(d.properties == Map::<Seq<u8>, Set<Seq<u8>>>::empty().insert(
                                t,
                                Set::empty(),
                            ).insert(c, line_props(line)));
                        },
                        None => {
                            assert(d.properties == Map::<Seq<u8>, Set<Seq<u8>>>::empty().insert(
                                c,
                                line_props(line),
                            ));
                        },
                    }
                }
                assert(st1.index.properties[c] =~= model_props_of(m, c).union(
                    (match spec_decl_token(line) {
                        Some(t) => Set::<Seq<u8>>::empty(),
                        None => Set::<Seq<u8>>::empty(),
                    }),
                )) by {
                    match spec_decl_token(line) {
                        Some(t) => {
                            assert(st1.index == model_add_decl(m, t));
                        },
                        None => {},
                    }
                }
                assert(mB.properties[k] =~= join(m, d).properties[k]);
            } else {
                assert(mB.properties[k] == st1.index.properties[k]);
                assert(model_props_of(d, k) =~= Set::<Seq<u8>>::empty()) by {
                    match spec_decl_token(line) {
                        Some(t) => {
                            if k == t {
                                assert(t == c);
                            }
                        },
                        None => {},
                    }
                }
                match spec_decl_token(line) {
                    Some(t) => {
                        assert(t == c);
                        assert(st1.index.properties[k] == m.properties[k]);
                        assert(mB.properties[k] =~= join(m, d).properties[k]);
                    },
                    None => {
                        assert(st1.index.properties[k] == m.properties[k]);
                        assert(mB.properties[k] =~= join(m, d).properties[k]);
                    },
                }
            }
        }
        assert(mB.properties =~~= join(m, d).properties);
    } else {
        // No extraction: only the declaration, if any, contributes.
        match spec_decl_token(line) {
            Some(t) => {
                assert(line_step(st, line).index == model_add_decl(m, t));
                assert(model_add_decl(m, t).components =~= join(m, d).components);
                assert forall|k: Seq<u8>| #[trigger] model_add_decl(
                    m,
                    t,
                ).properties.dom().contains(k) implies model_add_decl(m, t).properties[k] == join(
                    m,
                    d,
                ).properties[k] by {
                    lemma_join_props(m, d, k);
                    if k == t {
                        assert(model_add_decl(m, t).properties[k] =~= join(m, d).properties[k]);
                    } else {
                        assert(model_add_decl(m, t).properties[k] =~= join(m, d).properties[k]);
                    }
                }
                assert forall|k: Seq<u8>|
                    model_add_decl(m, t).properties.dom().contains(k) == join(
                        m,
                        d,
                    ).properties.dom().contains(k) by {}
                assert(model_add_decl(m, t).properties =~~= join(m, d).properties);
            },
            None => {
                assert(line_step(st, line).index == m);
                assert(m.components =~= join(m, d).components);
                assert forall|k: Seq<u8>| #[trigger] m.properties.dom().contains(k) implies m.properties[k]
                    == join(m, d).properties[k] by {
                    lemma_join_props(m, d, k);
                    assert(m.properties[k] =~= join(m, d).properties[k]);
                }
                assert(m.properties =~~= join(m, d).properties);
            },
        }
    }
}

/// Folding a document suffix equals joining its pure contribution.
proof fn lemma_parse_join(st: ParseState, lines: Seq<Seq<u8>>, i: int)
    requires
        (st.current matches Some(c) ==> st.index.properties.dom().contains(c)),
    ensures
        parse_from(st, lines, i).index == join(st.index, doc_delta(lines, i, st.current)),
    decreases lines.len() - i,
{
    if 0 <= i < lines.len() {
        let line = lines[i];
        lemma_line_step_join(st, line);
        let st2 = line_step(st, line);
        let (d_line, cur1) = line_delta(line, st.current);
        lemma_parse_join(st2, lines, i + 1);
        lemma_join_assoc(st.index, d_line, doc_delta(lines, i + 1, cur1));
    } else {
        let d = doc_delta(lines, i, st.current);
        assert(join(st.index, d).components =~= st.index.components);
        assert forall|k: Seq<u8>| #[trigger] st.index.properties.dom().contains(k) implies join(
            st.index,
            d,
        ).properties[k] == st.index.properties[k] by {
            lemma_join_props(st.index, d, k);
            assert(join(st.index, d).properties[k] =~= st.index.properties[k]);
        }
        assert(join(st.index, d).properties =~~= st.index.properties);
    }
}

/// Parsing is idempotent: parsing a document a second time, its results
/// united with the first pass's, changes nothing.
pub proof fn lemma_parse_idempotent(m: IndexModel, lines: Seq<Seq<u8>>)
    ensures
        parse_document_model(parse_document_model(m, lines), lines) == parse_document_model(
            m,
            lines,
        ),
{
    let d = doc_delta(lines, 0, None);
    lemma_parse_join(ParseState { index: m, current: None }, lines, 0);
    let m1 = parse_document_model(m, lines);
    lemma_parse_join(ParseState { index: m1, current: None }, lines, 0);
    lemma_join_absorb(m, d);
}

} // verus!
