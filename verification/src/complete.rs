//! The completion item generator: maps a cursor context, the enclosing
//! component and the project index to an ordered list of completion
//! candidates.
//!
//! Each candidate carries a rank used downstream as a total sort key:
//! lower ranks sort first.  The generator is pure and deterministic up to
//! the order of same-rank items taken from the index.

use vstd::prelude::*;
use vstd::slice::slice_to_vec;

use crate::context::classify;
use crate::context::find_enclosing_component;
use crate::context::spec_classify;
use crate::context::spec_enclosing;
use crate::context::CursorContext;
use crate::index::model_all_props;
use crate::index::model_props_of;
use crate::index::ProjectData;
use crate::parse::opt_view;
use crate::text::copy_bytes;
use crate::text::views_of;

verus! {

/// The category of a completion candidate, mirroring the kinds the
/// protocol distinguishes.
#[derive(Clone, Copy, Debug, PartialEq, Eq, Structural)]
pub enum CandidateKind {
    /// A component identity.
    Component,
    /// A property name.
    Property,
    /// A syntax operator.
    Operator,
    /// A literal value or value template.
    Literal,
}

/// Rank of the synthetic empty-list candidate: shown first.
pub const RANK_TOP: u8 = 0;

/// Rank of candidates drawn from the matching part of the index.
pub const RANK_PRIMARY: u8 = 1;

/// Rank of fallback candidates drawn from the whole index.
pub const RANK_SECONDARY: u8 = 2;

/// Rank of components offered in value position.
pub const RANK_LOW: u8 = 3;

/// One completion candidate.
pub struct CompletionCandidate {
    /// The text shown to the user.
    pub label: Vec<u8>,
    /// The candidate's category.
    pub kind: CandidateKind,
    /// An optional human-readable description.
    pub detail: Option<Vec<u8>>,
    /// The text inserted on acceptance.
    pub insert_text: Vec<u8>,
    /// Sort key: lower sorts first.
    pub rank: u8,
}

/// The mathematical view of a candidate.
pub ghost struct CandidateModel {
    pub label: Seq<u8>,
    pub kind: CandidateKind,
    pub detail: Option<Seq<u8>>,
    pub insert_text: Seq<u8>,
    pub rank: u8,
}

impl View for CompletionCandidate {
    type V = CandidateModel;

    open spec fn view(&self) -> CandidateModel {
        CandidateModel {
            label: self.label@,
            kind: self.kind,
            detail: (match self.detail {
                Some(d) => Some(d@),
                None => None,
            }),
            insert_text: self.insert_text@,
            rank: self.rank,
        }
    }
}

/// The views of a candidate list.
pub open spec fn cand_views(v: Seq<CompletionCandidate>) -> Seq<CandidateModel> {
    Seq::new(v.len(), |i: int| v[i]@)
}

/// The view of an optional borrowed byte vector.
pub open spec fn opt_ref_view(o: Option<&Vec<u8>>) -> Option<Seq<u8>> {
    match o {
        Some(v) => Some(v@),
        None => None,
    }
}

/// Bytes of the empty-list marker.
pub open spec fn txt_slash() -> Seq<u8> {
    seq![47u8]
}

/// Bytes of description of the empty-list marker.
pub open spec fn txt_empty_list_info() -> Seq<u8> {
    seq![69u8, 109u8, 112u8, 116u8, 121u8, 32u8, 108u8, 105u8, 115u8, 116u8]
}

/// Bytes of the one-way binding operator.
pub open spec fn txt_one_way() -> Seq<u8> {
    seq![60u8, 61u8]
}

/// Bytes of description of the one-way binding operator.
pub open spec fn txt_one_way_info() -> Seq<u8> {
    seq![79u8, 110u8, 101u8, 45u8, 119u8, 97u8, 121u8, 32u8, 98u8, 105u8, 110u8, 100u8, 105u8, 110u8, 103u8]
}

/// Bytes of the two-way binding operator.
pub open spec fn txt_two_way() -> Seq<u8> {
    seq![60u8, 61u8, 62u8]
}

/// Bytes of description of the two-way binding operator.
pub open spec fn txt_two_way_info() -> Seq<u8> {
    seq![84u8, 119u8, 111u8, 45u8, 119u8, 97u8, 121u8, 32u8, 98u8, 105u8, 110u8, 100u8, 105u8, 110u8, 103u8]
}

/// Bytes of the override operator.
pub open spec fn txt_caret() -> Seq<u8> {
    seq![94u8]
}

/// Bytes of description of the override operator.
pub open spec fn txt_override_info() -> Seq<u8> {
    seq![79u8, 118u8, 101u8, 114u8, 114u8, 105u8, 100u8, 101u8]
}

/// Bytes of the multi-property and dictionary marker.
pub open spec fn txt_star() -> Seq<u8> {
    seq![42u8]
}

/// Bytes of description of the multi-property marker.
pub open spec fn txt_multi_info() -> Seq<u8> {
    seq![77u8, 117u8, 108u8, 116u8, 105u8, 45u8, 112u8, 114u8, 111u8, 112u8, 101u8, 114u8, 116u8, 121u8, 32u8, 109u8, 97u8, 114u8, 107u8, 101u8, 114u8]
}

/// Bytes of the null literal.
pub open spec fn txt_null() -> Seq<u8> {
    seq![110u8, 117u8, 108u8, 108u8]
}

/// Bytes of description of the null literal.
pub open spec fn txt_null_info() -> Seq<u8> {
    seq![78u8, 117u8, 108u8, 108u8, 32u8, 118u8, 97u8, 108u8, 117u8, 101u8]
}

/// Bytes of the true literal.
pub open spec fn txt_true() -> Seq<u8> {
    seq![116u8, 114u8, 117u8, 101u8]
}

/// Bytes of description of the true literal.
pub open spec fn txt_true_info() -> Seq<u8> {
    seq![66u8, 111u8, 111u8, 108u8, 101u8, 97u8, 110u8, 32u8, 116u8, 114u8, 117u8, 101u8]
}

/// Bytes of the false literal.
pub open spec fn txt_false() -> Seq<u8> {
    seq![102u8, 97u8, 108u8, 115u8, 101u8]
}

/// Bytes of description of the false literal.
pub open spec fn txt_false_info() -> Seq<u8> {
    seq![66u8, 111u8, 111u8, 108u8, 101u8, 97u8, 110u8, 32u8, 102u8, 97u8, 108u8, 115u8, 101u8]
}

/// Bytes of the string-literal escape marker.
pub open spec fn txt_backslash() -> Seq<u8> {
    seq![92u8]
}

/// Bytes of description of the string template.
pub open spec fn txt_string_info() -> Seq<u8> {
    seq![83u8, 116u8, 114u8, 105u8, 110u8, 103u8, 32u8, 108u8, 105u8, 116u8, 101u8, 114u8, 97u8, 108u8]
}

/// Bytes of the two-line string template.
pub open spec fn txt_string_insert() -> Seq<u8> {
    seq![92u8, 10u8, 9u8, 92u8]
}

/// Bytes of the localized-string marker.
pub open spec fn txt_at_backslash() -> Seq<u8> {
    seq![64u8, 92u8]
}

/// Bytes of description of the localized-string template.
pub open spec fn txt_localized_info() -> Seq<u8> {
    seq![76u8, 111u8, 99u8, 97u8, 108u8, 105u8, 122u8, 101u8, 100u8, 32u8, 115u8, 116u8, 114u8, 105u8, 110u8, 103u8]
}

/// Bytes of the two-line localized-string template.
pub open spec fn txt_localized_insert() -> Seq<u8> {
    seq![64u8, 92u8, 10u8, 9u8, 92u8]
}

/// Bytes of description of the dictionary marker.
pub open spec fn txt_dict_info() -> Seq<u8> {
    seq![68u8, 105u8, 99u8, 116u8, 105u8, 111u8, 110u8, 97u8, 114u8, 121u8, 32u8, 109u8, 97u8, 114u8, 107u8, 101u8, 114u8]
}

/// Bytes of the prefix of a property's detail text.
pub open spec fn txt_property_of() -> Seq<u8> {
    seq![80u8, 114u8, 111u8, 112u8, 101u8, 114u8, 116u8, 121u8, 32u8, 111u8, 102u8, 32u8]
}

fn lit_slash() -> (r: Vec<u8>)
    ensures
        r@ == txt_slash(),
{
    let a: [u8; 1] = [47];
    let r = slice_to_vec(a.as_slice());
    proof {
        assert(r@ =~= txt_slash());
    }
    r
}

fn lit_empty_list_info() -> (r: Vec<u8>)
    ensures
        r@ == txt_empty_list_info(),
{
    let a: [u8; 10] = [69, 109, 112, 116, 121, 32, 108, 105, 115, 116];
    let r = slice_to_vec(a.as_slice());
    proof {
        assert(r@ =~= txt_empty_list_info());
    }
    r
}

fn lit_one_way() -> (r: Vec<u8>)
    ensures
        r@ == txt_one_way(),
{
    let a: [u8; 2] = [60, 61];
    let r = slice_to_vec(a.as_slice());
    proof {
        assert(r@ =~= txt_one_way());
    }
    r
}

fn lit_one_way_info() -> (r: Vec<u8>)
    ensures
        r@ == txt_one_way_info(),
{
    let a: [u8; 15] = [79, 110, 101, 45, 119, 97, 121, 32, 98, 105, 110, 100, 105, 110, 103];
    let r = slice_to_vec(a.as_slice());
    proof {
        assert(r@ =~= txt_one_way_info());
    }
    r
}

fn lit_two_way() -> (r: Vec<u8>)
    ensures
        r@ == txt_two_way(),
{
    let a: [u8; 3] = [60, 61, 62];
    let r = slice_to_vec(a.as_slice());
    proof {
        assert(r@ =~= txt_two_way());
    }
    r
}

fn lit_two_way_info() -> (r: Vec<u8>)
    ensures
        r@ == txt_two_way_info(),
{
    let a: [u8; 15] = [84, 119, 111, 45, 119, 97, 121, 32, 98, 105, 110, 100, 105, 110, 103];
    let r = slice_to_vec(a.as_slice());
    proof {
        assert(r@ =~= txt_two_way_info());
    }
    r
}

fn lit_caret() -> (r: Vec<u8>)
    ensures
        r@ == txt_caret(),
{
    let a: [u8; 1] = [94];
    let r = slice_to_vec(a.as_slice());
    proof {
        assert(r@ =~= txt_caret());
    }
    r
}

fn lit_override_info() -> (r: Vec<u8>)
    ensures
        r@ == txt_override_info(),
{
    let a: [u8; 8] = [79, 118, 101, 114, 114, 105, 100, 101];
    let r = slice_to_vec(a.as_slice());
    proof {
        assert(r@ =~= txt_override_info());
    }
    r
}

fn lit_star() -> (r: Vec<u8>)
    ensures
        r@ == txt_star(),
{
    let a: [u8; 1] = [42];
    let r = slice_to_vec(a.as_slice());
    proof {
        assert(r@ =~= txt_star());
    }
    r
}

fn lit_multi_info() -> (r: Vec<u8>)
    ensures
        r@ == txt_multi_info(),
{
    let a: [u8; 21] = [77, 117, 108, 116, 105, 45, 112, 114, 111, 112, 101, 114, 116, 121, 32, 109, 97, 114, 107, 101, 114];
    let r = slice_to_vec(a.as_slice());
    proof {
        assert(r@ =~= txt_multi_info());
    }
    r
}

fn lit_null() -> (r: Vec<u8>)
    ensures
        r@ == txt_null(),
{
    let a: [u8; 4] = [110, 117, 108, 108];
    let r = slice_to_vec(a.as_slice());
    proof {
        assert(r@ =~= txt_null());
    }
    r
}

fn lit_null_info() -> (r: Vec<u8>)
    ensures
        r@ == txt_null_info(),
{
    let a: [u8; 10] = [78, 117, 108, 108, 32, 118, 97, 108, 117, 101];
    let r = slice_to_vec(a.as_slice());
    proof {
        assert(r@ =~= txt_null_info());
    }
    r
}

fn lit_true() -> (r: Vec<u8>)
    ensures
        r@ == txt_true(),
{
    let a: [u8; 4] = [116, 114, 117, 101];
    let r = slice_to_vec(a.as_slice());
    proof {
        assert(r@ =~= txt_true());
    }
    r
}

fn lit_true_info() -> (r: Vec<u8>)
    ensures
        r@ == txt_true_info(),
{
    let a: [u8; 12] = [66, 111, 111, 108, 101, 97, 110, 32, 116, 114, 117, 101];
    let r = slice_to_vec(a.as_slice());
    proof {
        assert(r@ =~= txt_true_info());
    }
    r
}

fn lit_false() -> (r: Vec<u8>)
    ensures
        r@ == txt_false(),
{
    let a: [u8; 5] = [102, 97, 108, 115, 101];
    let r = slice_to_vec(a.as_slice());
    proof {
        assert(r@ =~= txt_false());
    }
    r
}

fn lit_false_info() -> (r: Vec<u8>)
    ensures
        r@ == txt_false_info(),
{
    let a: [u8; 13] = [66, 111, 111, 108, 101, 97, 110, 32, 102, 97, 108, 115, 101];
    let r = slice_to_vec(a.as_slice());
    proof {
        assert(r@ =~= txt_false_info());
    }
    r
}

fn lit_backslash() -> (r: Vec<u8>)
    ensures
        r@ == txt_backslash(),
{
    let a: [u8; 1] = [92];
    let r = slice_to_vec(a.as_slice());
    proof {
        assert(r@ =~= txt_backslash());
    }
    r
}

fn lit_string_info() -> (r: Vec<u8>)
    ensures
        r@ == txt_string_info(),
{
    let a: [u8; 14] = [83, 116, 114, 105, 110, 103, 32, 108, 105, 116, 101, 114, 97, 108];
    let r = slice_to_vec(a.as_slice());
    proof {
        assert(r@ =~= txt_string_info());
    }
    r
}

fn lit_string_insert() -> (r: Vec<u8>)
    ensures
        r@ == txt_string_insert(),
{
    let a: [u8; 4] = [92, 10, 9, 92];
    let r = slice_to_vec(a.as_slice());
    proof {
        assert(r@ =~= txt_string_insert());
    }
    r
}

fn lit_at_backslash() -> (r: Vec<u8>)
    ensures
        r@ == txt_at_backslash(),
{
    let a: [u8; 2] = [64, 92];
    let r = slice_to_vec(a.as_slice());
    proof {
        assert(r@ =~= txt_at_backslash());
    }
    r
}

fn lit_localized_info() -> (r: Vec<u8>)
    ensures
        r@ == txt_localized_info(),
{
    let a: [u8; 16] = [76, 111, 99, 97, 108, 105, 122, 101, 100, 32, 115, 116, 114, 105, 110, 103];
    let r = slice_to_vec(a.as_slice());
    proof {
        assert(r@ =~= txt_localized_info());
    }
    r
}

fn lit_localized_insert() -> (r: Vec<u8>)
    ensures
        r@ == txt_localized_insert(),
{
    let a: [u8; 5] = [64, 92, 10, 9, 92];
    let r = slice_to_vec(a.as_slice());
    proof {
        assert(r@ =~= txt_localized_insert());
    }
    r
}

fn lit_dict_info() -> (r: Vec<u8>)
    ensures
        r@ == txt_dict_info(),
{
    let a: [u8; 17] = [68, 105, 99, 116, 105, 111, 110, 97, 114, 121, 32, 109, 97, 114, 107, 101, 114];
    let r = slice_to_vec(a.as_slice());
    proof {
        assert(r@ =~= txt_dict_info());
    }
    r
}

fn lit_property_of() -> (r: Vec<u8>)
    ensures
        r@ == txt_property_of(),
{
    let a: [u8; 12] = [80, 114, 111, 112, 101, 114, 116, 121, 32, 111, 102, 32];
    let r = slice_to_vec(a.as_slice());
    proof {
        assert(r@ =~= txt_property_of());
    }
    r
}

/// A component offered as a completion, at the given rank.
pub open spec fn component_candidate(name: Seq<u8>, rank: u8) -> CandidateModel {
    CandidateModel {
        label: name,
        kind: CandidateKind::Component,
        detail: None,
        insert_text: name,
        rank,
    }
}

/// A property offered as a completion, at the given rank.
pub open spec fn property_candidate(name: Seq<u8>, detail: Option<Seq<u8>>, rank: u8) -> CandidateModel {
    CandidateModel {
        label: name,
        kind: CandidateKind::Property,
        detail,
        insert_text: name,
        rank,
    }
}

/// A syntax operator offered as a completion.
pub open spec fn operator_candidate(label: Seq<u8>, detail: Seq<u8>) -> CandidateModel {
    CandidateModel {
        label,
        kind: CandidateKind::Operator,
        detail: Some(detail),
        insert_text: label,
        rank: RANK_PRIMARY,
    }
}

/// A literal value or template offered as a completion.
pub open spec fn literal_candidate(label: Seq<u8>, detail: Seq<u8>, insert: Seq<u8>) -> CandidateModel {
    CandidateModel {
        label,
        kind: CandidateKind::Literal,
        detail: Some(detail),
        insert_text: insert,
        rank: RANK_PRIMARY,
    }
}

/// The synthetic empty-list candidate, ranked first.
pub open spec fn slash_candidate() -> CandidateModel {
    CandidateModel {
        label: txt_slash(),
        kind: CandidateKind::Operator,
        detail: Some(txt_empty_list_info()),
        insert_text: txt_slash(),
        rank: RANK_TOP,
    }
}

/// The four fixed candidates of the binding context.
pub open spec fn binding_candidates() -> Seq<CandidateModel> {
    seq![
        operator_candidate(txt_one_way(), txt_one_way_info()),
        operator_candidate(txt_two_way(), txt_two_way_info()),
        operator_candidate(txt_caret(), txt_override_info()),
        operator_candidate(txt_star(), txt_multi_info()),
    ]
}

/// The six fixed candidates of the value context.
pub open spec fn value_candidates() -> Seq<CandidateModel> {
    seq![
        literal_candidate(txt_null(), txt_null_info(), txt_null()),
        literal_candidate(txt_true(), txt_true_info(), txt_true()),
        literal_candidate(txt_false(), txt_false_info(), txt_false()),
        literal_candidate(txt_backslash(), txt_string_info(), txt_string_insert()),
        literal_candidate(txt_at_backslash(), txt_localized_info(), txt_localized_insert()),
        literal_candidate(txt_star(), txt_dict_info(), txt_star()),
    ]
}

/// The candidate list for a component position: every known component in
/// index order, at the given rank, starting at position `base` of `r`.
pub open spec fn components_from(d: ProjectData, rank: u8, r: Seq<CandidateModel>, base: int) -> bool {
    &&& r.len() == base + d.comp_views().len()
    &&& forall|i: int|
        0 <= i < d.comp_views().len() ==> r[base + i] == component_candidate(
            d.comp_views()[i],
            rank,
        )
}

/// The candidate list for a property position over the name set `u`: some
/// enumeration of `u` without repetition, every entry shaped alike, and
/// the synthetic empty-list candidate appended last.
pub open spec fn property_list_ok(u: Set<Seq<u8>>, detail: Option<Seq<u8>>, rank: u8, r: Seq<CandidateModel>) -> bool {
    &&& r.len() >= 1
    &&& r[r.len() - 1] == slash_candidate()
    &&& forall|i: int|
        0 <= i < r.len() - 1 ==> (#[trigger] r[i]) == property_candidate(r[i].label, detail, rank)
            && u.contains(r[i].label)
    &&& forall|p: Seq<u8>|
        #[trigger] u.contains(p) ==> exists|i: int| 0 <= i < r.len() - 1 && (#[trigger] r[i]).label
            == p
    &&& forall|i: int, j: int| 0 <= i < j < r.len() - 1 ==> r[i].label != r[j].label
}

/// What the generator owes for every context: the whole contract of
/// `generate`.
pub open spec fn generated_ok(
    d: ProjectData,
    context: CursorContext,
    enclosing: Option<Seq<u8>>,
    r: Seq<CandidateModel>,
) -> bool {
    match context {
        CursorContext::ComponentName => components_from(d, RANK_PRIMARY, r, 0),
        CursorContext::ComponentExtends => components_from(d, RANK_PRIMARY, r, 0),
        CursorContext::PropertyBinding => r == binding_candidates(),
        CursorContext::PropertyName => (match enclosing {
            Some(c) => property_list_ok(
                model_props_of(d@, c),
                Some(txt_property_of() + c),
                RANK_PRIMARY,
                r,
            ),
            None => property_list_ok(model_all_props(d@), None, RANK_SECONDARY, r),
        }),
        CursorContext::Value => {
            &&& r.len() >= 6
            &&& r.subrange(0, 6) == value_candidates()
            &&& components_from(d, RANK_LOW, r, 6)
        },
    }
}

/// The detail text of a property: the detail prefix followed by the
/// component's name.
fn detail_for(component: &Vec<u8>) -> (r: Vec<u8>)
    ensures
        r@ == txt_property_of() + component@,
{
    let mut v = lit_property_of();
    let n = component.len();
    let mut i: usize = 0;
    proof {
        assert(v@ == txt_property_of() + component@.subrange(0, 0));
    }
    while i < n
        invariant
            0 <= i <= n,
            n == component.len(),
            v@ == txt_property_of() + component@.subrange(0, i as int),
        decreases n - i,
    {
        v.push(component[i]);
        proof {
            assert(v@ =~= txt_property_of() + component@.subrange(0, i as int + 1));
        }
        i = i + 1;
    }
    proof {
        assert(component@.subrange(0, n as int) =~= component@);
    }
    v
}

/// The synthetic empty-list candidate.
fn slash_item() -> (res: CompletionCandidate)
    ensures
        res@ == slash_candidate(),
{
    CompletionCandidate {
        label: lit_slash(),
        kind: CandidateKind::Operator,
        detail: Some(lit_empty_list_info()),
        insert_text: lit_slash(),
        rank: RANK_TOP,
    }
}

/// Append every known component as a candidate at the given rank.
fn push_components(r: &mut Vec<CompletionCandidate>, data: &ProjectData, rank: u8)
    requires
        data.wf(),
    ensures
        final(r)@.len() == old(r)@.len() + data.comp_views().len(),
        forall|j: int| 0 <= j < old(r)@.len() ==> final(r)@[j] == old(r)@[j],
        forall|i: int|
            0 <= i < data.comp_views().len() ==> (#[trigger] final(r)@[old(r)@.len() + i])@
                == component_candidate(data.comp_views()[i], rank),
{
    let n = data.components.len();
    let ghost base = r@.len() as int;
    let mut i: usize = 0;
    while i < n
        invariant
            0 <= i <= n,
            n == data.components.len(),
            data.wf(),
            r@.len() == base + i,
            base == old(r)@.len(),
            forall|j: int| 0 <= j < base ==> r@[j] == old(r)@[j],
            forall|j: int|
                0 <= j < i ==> (#[trigger] r@[base + j])@ == component_candidate(
                    data.comp_views()[j],
                    rank,
                ),
        decreases n - i,
    {
        let label = copy_bytes(&data.components[i]);
        let insert = copy_bytes(&data.components[i]);
        r.push(
            CompletionCandidate {
                label,
                kind: CandidateKind::Component,
                detail: None,
                insert_text: insert,
                rank,
            },
        );
        proof {
            assert(data.comp_views()[i as int] == data.components@[i as int]@);
            assert(r@[base + i as int]@ == component_candidate(data.comp_views()[i as int], rank));
        }
        i = i + 1;
    }
}

/// Append one candidate for each listed property, all alike in detail and
/// rank.
fn push_properties(
    r: &mut Vec<CompletionCandidate>,
    props: &Vec<Vec<u8>>,
    detail: &Option<Vec<u8>>,
    rank: u8,
)
    ensures
        final(r)@.len() == old(r)@.len() + props@.len(),
        forall|j: int| 0 <= j < old(r)@.len() ==> final(r)@[j] == old(r)@[j],
        forall|i: int|
            0 <= i < props@.len() ==> (#[trigger] final(r)@[old(r)@.len() + i])@
                == property_candidate(views_of(props@)[i], opt_view(*detail), rank),
{
    let n = props.len();
    let ghost base = r@.len() as int;
    let mut i: usize = 0;
    while i < n
        invariant
            0 <= i <= n,
            n == props.len(),
            r@.len() == base + i,
            base == old(r)@.len(),
            forall|j: int| 0 <= j < base ==> r@[j] == old(r)@[j],
            forall|j: int|
                0 <= j < i ==> (#[trigger] r@[base + j])@ == property_candidate(
                    views_of(props@)[j],
                    opt_view(*detail),
                    rank,
                ),
        decreases n - i,
    {
        let label = copy_bytes(&props[i]);
        let insert = copy_bytes(&props[i]);
        let det = match detail {
            Some(d) => Some(copy_bytes(d)),
            None => None,
        };
        r.push(
            CompletionCandidate { label, kind: CandidateKind::Property, detail: det, insert_text: insert, rank },
        );
        proof {
            assert(views_of(props@)[i as int] == props@[i as int]@);
            assert(r@[base + i as int]@ == property_candidate(
                views_of(props@)[i as int],
                opt_view(*detail),
                rank,
            ));
        }
        i = i + 1;
    }
}

/// Append the property candidates for the name list `props` and close the
/// list with the synthetic empty-list candidate.
fn property_items(props: &Vec<Vec<u8>>, detail: &Option<Vec<u8>>, rank: u8, Ghost(u): Ghost<Set<Seq<u8>>>) -> (r: Vec<CompletionCandidate>)
    requires
        views_of(props@).to_set() == u,
        views_of(props@).no_duplicates(),
    ensures
        property_list_ok(u, opt_view(*detail), rank, cand_views(r@)),
{
    let mut r: Vec<CompletionCandidate> = Vec::new();
    push_properties(&mut r, props, detail, rank);
    let ghost r1 = r@;
    r.push(slash_item());
    proof {
        let cv = cand_views(r@);
        let m = props@.len() as int;
        assert(cv.len() == m + 1);
        assert(cv[m] == slash_candidate());
        assert forall|i: int|
            0 <= i < cv.len() - 1 implies (#[trigger] cv[i]) == property_candidate(
            cv[i].label,
            opt_view(*detail),
            rank,
        ) && u.contains(cv[i].label) by {
            assert(r1[0 + i]@ == property_candidate(views_of(props@)[i], opt_view(*detail), rank));
            assert(r@[i] == r1[i]);
            assert(views_of(props@).contains(views_of(props@)[i]));
            assert(u.contains(views_of(props@)[i]));
        }
        assert forall|p: Seq<u8>| #[trigger] u.contains(p) implies exists|i: int|
            0 <= i < cv.len() - 1 && (#[trigger] cv[i]).label == p by {
            assert(views_of(props@).contains(p));
            let i = choose|i: int| 0 <= i < views_of(props@).len() && views_of(props@)[i] == p;
            assert(r1[0 + i]@ == property_candidate(views_of(props@)[i], opt_view(*detail), rank));
            assert(r@[i] == r1[i]);
            assert(cv[i].label == p);
        }
        assert forall|i: int, j: int| 0 <= i < j < cv.len() - 1 implies cv[i].label != cv[
            j
        ].label by {
            assert(r1[0 + i]@ == property_candidate(views_of(props@)[i], opt_view(*detail), rank));
            assert(r1[0 + j]@ == property_candidate(views_of(props@)[j], opt_view(*detail), rank));
            assert(r@[i] == r1[i]);
            assert(r@[j] == r1[j]);
        }
    }
    r
}

/// Generate the ordered candidate list for a context, an optional
/// enclosing component, and the published index.
pub fn generate(context: CursorContext, enclosing: Option<&Vec<u8>>, data: &ProjectData) -> (r: Vec<
    CompletionCandidate,
>)
    requires
        data.wf(),
    ensures
        generated_ok(*data, context, opt_ref_view(enclosing), cand_views(r@)),
{
    match context {
        CursorContext::ComponentName => {
            let mut r: Vec<CompletionCandidate> = Vec::new();
            push_components(&mut r, data, RANK_PRIMARY);
            proof {
                assert forall|i: int|
                    0 <= i < data.comp_views().len() implies cand_views(r@)[i]
                    == component_candidate(data.comp_views()[i], RANK_PRIMARY) by {
                    assert(r@[0 + i]@ == component_candidate(data.comp_views()[i], RANK_PRIMARY));
                }
            }
            r
        },
        CursorContext::ComponentExtends => {
            let mut r: Vec<CompletionCandidate> = Vec::new();
            push_components(&mut r, data, RANK_PRIMARY);
            proof {
                assert forall|i: int|
                    0 <= i < data.comp_views().len() implies cand_views(r@)[i]
                    == component_candidate(data.comp_views()[i], RANK_PRIMARY) by {
                    assert(r@[0 + i]@ == component_candidate(data.comp_views()[i], RANK_PRIMARY));
                }
            }
            r
        },
        CursorContext::PropertyBinding => {
            let mut r: Vec<CompletionCandidate> = Vec::new();
            r.push(
                CompletionCandidate {
                    label: lit_one_way(),
                    kind: CandidateKind::Operator,
                    detail: Some(lit_one_way_info()),
                    insert_text: lit_one_way(),
                    rank: RANK_PRIMARY,
                },
            );
            r.push(
                CompletionCandidate {
                    label: lit_two_way(),
                    kind: CandidateKind::Operator,
                    detail: Some(lit_two_way_info()),
                    insert_text: lit_two_way(),
                    rank: RANK_PRIMARY,
                },
            );
            r.push(
                CompletionCandidate {
                    label: lit_caret(),
                    kind: CandidateKind::Operator,
                    detail: Some(lit_override_info()),
                    insert_text: lit_caret(),
                    rank: RANK_PRIMARY,
                },
            );
            r.push(
                CompletionCandidate {
                    label: lit_star(),
                    kind: CandidateKind::Operator,
                    detail: Some(lit_multi_info()),
                    insert_text: lit_star(),
                    rank: RANK_PRIMARY,
                },
            );
            proof {
                assert(cand_views(r@) =~= binding_candidates());
            }
            r
        },
        CursorContext::PropertyName => {
            match enclosing {
                Some(c) => {
                    let props = data.properties_of(c);
                    let det = Some(detail_for(c));
                    let r = property_items(
                        &props,
                        &det,
                        RANK_PRIMARY,
                        Ghost(model_props_of(data@, c@)),
                    );
                    r
                },
                None => {
                    let props = data.all_known_properties();
                    let det: Option<Vec<u8>> = None;
                    let r = property_items(
                        &props,
                        &det,
                        RANK_SECONDARY,
                        Ghost(model_all_props(data@)),
                    );
                    r
                },
            }
        },
        CursorContext::Value => {
            let mut r: Vec<CompletionCandidate> = Vec::new();
            r.push(
                CompletionCandidate {
                    label: lit_null(),
                    kind: CandidateKind::Literal,
                    detail: Some(lit_null_info()),
                    insert_text: lit_null(),
                    rank: RANK_PRIMARY,
                },
            );
            r.push(
                CompletionCandidate {
                    label: lit_true(),
                    kind: CandidateKind::Literal,
                    detail: Some(lit_true_info()),
                    insert_text: lit_true(),
                    rank: RANK_PRIMARY,
                },
            );
            r.push(
                CompletionCandidate {
                    label: lit_false(),
                    kind: CandidateKind::Literal,
                    detail: Some(lit_false_info()),
                    insert_text: lit_false(),
                    rank: RANK_PRIMARY,
                },
            );
            r.push(
                CompletionCandidate {
                    label: lit_backslash(),
                    kind: CandidateKind::Literal,
                    detail: Some(lit_string_info()),
                    insert_text: lit_string_insert(),
                    rank: RANK_PRIMARY,
                },
            );
            r.push(
                CompletionCandidate {
                    label: lit_at_backslash(),
                    kind: CandidateKind::Literal,
                    detail: Some(lit_localized_info()),
                    insert_text: lit_localized_insert(),
                    rank: RANK_PRIMARY,
                },
            );
            r.push(
                CompletionCandidate {
                    label: lit_star(),
                    kind: CandidateKind::Literal,
                    detail: Some(lit_dict_info()),
                    insert_text: lit_star(),
                    rank: RANK_PRIMARY,
                },
            );
            let ghost fixed = r@;
            push_components(&mut r, data, RANK_LOW);
            proof {
                assert(cand_views(r@).subrange(0, 6) =~= value_candidates());
                assert forall|i: int|
                    0 <= i < data.comp_views().len() implies cand_views(r@)[6 + i]
                    == component_candidate(data.comp_views()[i], RANK_LOW) by {
                    assert(r@[6 + i]@ == component_candidate(data.comp_views()[i], RANK_LOW));
                }
            }
            r
        },
    }
}

/// The binding context always yields exactly four candidates, whatever
/// the index holds.
pub proof fn lemma_binding_always_four(
    d: ProjectData,
    enclosing: Option<Seq<u8>>,
    r: Seq<CandidateModel>,
)
    requires
        generated_ok(d, CursorContext::PropertyBinding, enclosing, r),
    ensures
        r.len() == 4,
{
}

/// With no enclosing component, the property candidates enumerate exactly
/// the union of every component's property set, each name once, with the
/// empty-list marker appended last.
pub proof fn lemma_property_fallback_union(d: ProjectData, r: Seq<CandidateModel>, p: Seq<u8>)
    requires
        generated_ok(d, CursorContext::PropertyName, None, r),
    ensures
        r.len() >= 1,
        r[r.len() - 1] == slash_candidate(),
        model_all_props(d@).contains(p) <==> (exists|i: int|
            0 <= i < r.len() - 1 && (#[trigger] r[i]).label == p),
{
    if exists|i: int| 0 <= i < r.len() - 1 && (#[trigger] r[i]).label == p {
        let i = choose|i: int| 0 <= i < r.len() - 1 && (#[trigger] r[i]).label == p;
        assert(r[i] == property_candidate(r[i].label, None, RANK_SECONDARY));
        assert(model_all_props(d@).contains(r[i].label));
    }
}

/// Completion candidates for a cursor position inside a document: the
/// line is classified, the enclosing component is looked up, and the
/// generator is consulted.  A position past the last line yields nothing.
pub fn completion_items(
    lines: &Vec<Vec<u8>>,
    line: usize,
    character: usize,
    data: &ProjectData,
) -> (r: Vec<CompletionCandidate>)
    requires
        data.wf(),
    ensures
        (line as int) < lines@.len() ==> generated_ok(
            *data,
            spec_classify(views_of(lines@)[line as int], character as int),
            spec_enclosing(views_of(lines@), line as int),
            cand_views(r@),
        ),
        (line as int) >= lines@.len() ==> r@.len() == 0,
{
    if line < lines.len() {
        let ctx = classify(&lines[line], character);
        proof {
            assert(lines@[line as int]@ == views_of(lines@)[line as int]);
        }
        let enc = find_enclosing_component(lines, line);
        match &enc {
            Some(c) => generate(ctx, Some(c), data),
            None => generate(ctx, None, data),
        }
    } else {
        Vec::new()
    }
}

} // verus!
