//! The project index: the set of known components and, for each component
//! declared in a tree-syntax file, its set of property names.
//!
//! The index is modelled by [`IndexModel`]: a set of component identities
//! and a map from component identity to its property-name set.  Invariants:
//! every key of the property map is also a component, a component's
//! property set may be empty, and property names never begin with the
//! sigil nor equal one of the reserved literals `null`, `true`, `false`.

use vstd::prelude::*;

use crate::text::views_of;
use crate::text::bytes_eq;
use crate::text::copy_bytes;
use crate::text::copy_byte_vecs;
use crate::text::vecs_contain;
use crate::text::SIGIL;

verus! {

/// The mathematical model of a project index.
pub ghost struct IndexModel {
    /// Identities of all known components.
    pub components: Set<Seq<u8>>,
    /// Property-name sets, keyed by component identity.  A component
    /// mentioned only in reference files has no key here.
    pub properties: Map<Seq<u8>, Set<Seq<u8>>>,
}

/// True for the reserved literals `null`, `true` and `false`.
pub open spec fn is_reserved_word(t: Seq<u8>) -> bool {
    ||| t == seq![110u8, 117u8, 108u8, 108u8]
    ||| t == seq![116u8, 114u8, 117u8, 101u8]
    ||| t == seq![102u8, 97u8, 108u8, 115u8, 101u8]
}

/// A name that may stand in a property set: non-empty, not sigil-prefixed,
/// and not a reserved literal.
pub open spec fn is_property_name(t: Seq<u8>) -> bool {
    t.len() > 0 && t[0] != SIGIL && !is_reserved_word(t)
}

/// A component identity: a non-empty, sigil-prefixed token.
pub open spec fn is_component_name(t: Seq<u8>) -> bool {
    t.len() > 0 && t[0] == SIGIL
}

pub fn bytes_is_reserved(t: &Vec<u8>) -> (r: bool)
    ensures
        r == is_reserved_word(t@),
{
    if t.len() == 4 && t[0] == 110 && t[1] == 117 && t[2] == 108 && t[3] == 108 {
        proof {
            assert(t@ =~= seq![110u8, 117u8, 108u8, 108u8]);
        }
        true
    } else if t.len() == 4 && t[0] == 116 && t[1] == 114 && t[2] == 117 && t[3] == 101 {
        proof {
            assert(t@ =~= seq![116u8, 114u8, 117u8, 101u8]);
        }
        true
    } else if t.len() == 5 && t[0] == 102 && t[1] == 97 && t[2] == 108 && t[3] == 115 && t[4]
        == 101 {
        proof {
            assert(t@ =~= seq![102u8, 97u8, 108u8, 115u8, 101u8]);
        }
        true
    } else {
        proof {
            if t@ == seq![110u8, 117u8, 108u8, 108u8] {
                assert(t@.len() == 4 && t@[0] == 110 && t@[1] == 117 && t@[2] == 108 && t@[3]
                    == 108);
            }
            if t@ == seq![116u8, 114u8, 117u8, 101u8] {
                assert(t@.len() == 4 && t@[0] == 116 && t@[1] == 114 && t@[2] == 117 && t@[3]
                    == 101);
            }
            if t@ == seq![102u8, 97u8, 108u8, 115u8, 101u8] {
                assert(t@.len() == 5 && t@[0] == 102 && t@[1] == 97 && t@[2] == 108 && t@[3] == 115
                    && t@[4] == 101);
            }
        }
        false
    }
}

pub fn bytes_is_property_name(t: &Vec<u8>) -> (r: bool)
    ensures
        r == is_property_name(t@),
{
    t.len() > 0 && t[0] != SIGIL && !bytes_is_reserved(t)
}

/// One component's property list.
pub struct PropEntry {
    /// The component the properties belong to.
    pub name: Vec<u8>,
    /// The property names, each admissible and listed once.
    pub props: Vec<Vec<u8>>,
}

impl PropEntry {
    /// The property names as a set.
    pub open spec fn props_set(self) -> Set<Seq<u8>> {
        views_of(self.props@).to_set()
    }

    pub open spec fn wf(self) -> bool {
        &&& forall|a: int, b: int|
            0 <= a < b < self.props@.len() ==> self.props@[a]@ != self.props@[b]@
        &&& forall|a: int| 0 <= a < self.props@.len() ==> is_property_name(#[trigger] self.props@[a]@)
    }
}

/// The committed, queryable snapshot of known components and their
/// properties.  Built from scratch by a scan pass and then read only.
pub struct ProjectData {
    /// Identities of all discovered components.
    pub components: Vec<Vec<u8>>,
    /// Property lists of the components declared in tree-syntax files.
    pub component_properties: Vec<PropEntry>,
}

impl ProjectData {
    /// The component identities, in insertion order.
    pub open spec fn comp_views(self) -> Seq<Seq<u8>> {
        views_of(self.components@)
    }

    /// The keys of the property map, in insertion order.
    pub open spec fn entry_names(self) -> Seq<Seq<u8>> {
        Seq::new(self.component_properties@.len(), |i: int| self.component_properties@[i].name@)
    }

    /// The property set recorded for `k`, or the empty set.
    pub open spec fn props_at(self, k: Seq<u8>) -> Set<Seq<u8>> {
        if self.entry_names().contains(k) {
            self.component_properties@[self.entry_names().index_of(k)].props_set()
        } else {
            Set::empty()
        }
    }

    pub open spec fn wf(self) -> bool {
        &&& forall|i: int, j: int|
            0 <= i < j < self.comp_views().len() ==> self.comp_views()[i] != self.comp_views()[j]
        &&& forall|i: int|
            0 <= i < self.comp_views().len() ==> is_component_name(#[trigger] self.comp_views()[i])
        &&& forall|i: int, j: int|
            0 <= i < j < self.entry_names().len() ==> self.entry_names()[i]
                != self.entry_names()[j]
        &&& forall|i: int|
            0 <= i < self.component_properties@.len()
                ==> (#[trigger] self.component_properties@[i]).wf()
        &&& forall|i: int|
            0 <= i < self.entry_names().len() ==> self.comp_views().contains(
                #[trigger] self.entry_names()[i],
            )
    }

    pub fn new() -> (r: ProjectData)
        ensures
            r.wf(),
            r@.components == Set::<Seq<u8>>::empty(),
            r@.properties == Map::<Seq<u8>, Set<Seq<u8>>>::empty(),
    {
        let r = ProjectData { components: Vec::new(), component_properties: Vec::new() };
        proof {
            assert(r.comp_views() =~= Seq::<Seq<u8>>::empty());
            assert(r.entry_names() =~= Seq::<Seq<u8>>::empty());
            assert(r@.components =~= Set::<Seq<u8>>::empty());
            assert(r@.properties =~= Map::<Seq<u8>, Set<Seq<u8>>>::empty());
        }
        r
    }
}

/// Model-level effect of recording property `t` for component `c`: the
/// insertion happens only when `t` is an admissible property name and `c`
/// already has a property set.
pub open spec fn model_add_prop(m: IndexModel, c: Seq<u8>, t: Seq<u8>) -> IndexModel {
    if is_property_name(t) && m.properties.dom().contains(c) {
        IndexModel {
            components: m.components,
            properties: m.properties.insert(c, m.properties[c].insert(t)),
        }
    } else {
        m
    }
}

/// Model-level effect of recording a component declaration: the identity
/// joins the component set, and an empty property set is installed unless
/// one is already present.
pub open spec fn model_add_decl(m: IndexModel, t: Seq<u8>) -> IndexModel {
    IndexModel {
        components: m.components.insert(t),
        properties: if m.properties.dom().contains(t) {
            m.properties
        } else {
            m.properties.insert(t, Set::empty())
        },
    }
}

/// True when the entry already lists the property `x`.
fn entry_has_prop(e: &PropEntry, x: &Vec<u8>) -> (r: bool)
    ensures
        r == views_of(e.props@).contains(x@),
{
    let n = e.props.len();
    let mut i: usize = 0;
    while i < n
        invariant
            0 <= i <= n,
            n == e.props.len(),
            forall|j: int| 0 <= j < i ==> views_of(e.props@)[j] != x@,
        decreases n - i,
    {
        if bytes_eq(&e.props[i], x) {
            assert(views_of(e.props@)[i as int] == x@);
            return true;
        }
        i = i + 1;
    }
    false
}

impl ProjectData {
    /// Position of `x` in the component list, if present.
    fn find_component(&self, x: &Vec<u8>) -> (r: Option<usize>)
        ensures
            (match r {
                Some(i) => i < self.components.len() && self.comp_views()[i as int] == x@,
                None => !self.comp_views().contains(x@),
            }),
    {
        let n = self.components.len();
        let mut i: usize = 0;
        while i < n
            invariant
                0 <= i <= n,
                n == self.components.len(),
                forall|j: int| 0 <= j < i ==> self.comp_views()[j] != x@,
            decreases n - i,
        {
            if bytes_eq(&self.components[i], x) {
                return Some(i);
            }
            i = i + 1;
        }
        None
    }

    /// Position of the property entry for `x`, if present.
    fn find_entry(&self, x: &Vec<u8>) -> (r: Option<usize>)
        ensures
            (match r {
                Some(i) => i < self.component_properties.len() && self.entry_names()[i as int]
                    == x@,
                None => !self.entry_names().contains(x@),
            }),
    {
        let n = self.component_properties.len();
        let mut i: usize = 0;
        while i < n
            invariant
                0 <= i <= n,
                n == self.component_properties.len(),
                forall|j: int| 0 <= j < i ==> self.entry_names()[j] != x@,
            decreases n - i,
        {
            if bytes_eq(&self.component_properties[i].name, x) {
                return Some(i);
            }
            i = i + 1;
        }
        None
    }

    /// Add a component identity to the component set.  Idempotent: a name
    /// already present is left alone.
    pub fn insert_component(&mut self, name: Vec<u8>)
        requires
            old(self).wf(),
            is_component_name(name@),
        ensures
            final(self).wf(),
            final(self)@.components == old(self)@.components.insert(name@),
            final(self)@.properties == old(self)@.properties,
            final(self).component_properties@ == old(self).component_properties@,
    {
        match self.find_component(&name) {
            None => {
                self.components.push(name);
                proof {
                    let cv0 = old(self).comp_views();
                    let cv = self.comp_views();
                    assert(cv =~= cv0.push(name@));
                    old(self).comp_views().lemma_push_to_set_commute(name@);
                    assert(self@.components =~= old(self)@.components.insert(name@));
                    assert(self.entry_names() =~= old(self).entry_names());
                    assert(self@.properties =~~= old(self)@.properties);
                    assert forall|i: int, j: int| 0 <= i < j < cv.len() implies cv[i] != cv[j] by {
                        if j == cv0.len() {
                            if cv[i] == name@ {
                                assert(cv0[i] == name@);
                                assert(cv0.contains(name@));
                                assert(false);
                            }
                        }
                    }
                    assert forall|i: int|
                        0 <= i < self.entry_names().len() implies cv.contains(
                        #[trigger] self.entry_names()[i],
                    ) by {
                        assert(cv0.contains(old(self).entry_names()[i]));
                        let w = choose|w: int|
                            0 <= w < cv0.len() && cv0[w] == old(self).entry_names()[i];
                        assert(cv[w] == self.entry_names()[i]);
                    }
                }
            },
            Some(i) => {
                proof {
                    assert(self.comp_views()[i as int] == name@);
                    assert(self.comp_views().contains(name@));
                    assert(self@.components =~= old(self)@.components.insert(name@));
                }
            },
        }
    }

    /// Record property `prop` for `component`.  Nothing changes when the
    /// name is not an admissible property name, when the component has no
    /// property set, or when the property is already present.
    pub fn add_property(&mut self, component: &Vec<u8>, prop: Vec<u8>)
        requires
            old(self).wf(),
        ensures
            final(self).wf(),
            final(self)@ == model_add_prop(old(self)@, component@, prop@),
    {
        if !bytes_is_property_name(&prop) {
            return ;
        }
        match self.find_entry(component) {
            None => {
                proof {
                    assert(!self@.properties.dom().contains(component@));
                }
            },
            Some(i) => {
                proof {
                    assert(self.entry_names()[i as int] == component@);
                    assert(self.entry_names().contains(component@));
                    let j = self.entry_names().index_of(component@);
                    if j != i as int {
                        assert(self.entry_names()[j] == component@);
                        assert(false);
                    }
                    assert(self@.properties.dom().contains(component@));
                    assert(self@.properties[component@] == self.component_properties@[i as int]
                        .props_set());
                }
                if entry_has_prop(&self.component_properties[i], &prop) {
                    proof {
                        let m = self@.properties;
                        assert(m[component@].insert(prop@) =~= m[component@]);
                        assert(m.insert(component@, m[component@].insert(prop@)) =~~= m);
                    }
                } else {
                    let ghost pre = *self;
                    let name2 = copy_bytes(&self.component_properties[i].name);
                    let mut props2 = copy_byte_vecs(&self.component_properties[i].props);
                    let ghost pv0 = views_of(props2@);
                    props2.push(prop);
                    proof {
                        assert(views_of(props2@) =~= pv0.push(prop@));
                    }
                    let entry2 = PropEntry { name: name2, props: props2 };
                    self.component_properties.set(i, entry2);
                    proof {
                        let ii = i as int;
                        let pn = pre.entry_names();
                        let sn = self.entry_names();
                        assert(sn =~= pn);
                        assert(self.comp_views() == pre.comp_views());
                        assert(self.component_properties@[ii].name@ == component@);
                        assert(views_of(self.component_properties@[ii].props@) =~= views_of(
                            pre.component_properties@[ii].props@,
                        ).push(prop@));
                        views_of(pre.component_properties@[ii].props@).lemma_push_to_set_commute(
                            prop@,
                        );
                        assert(self.component_properties@[ii].props_set() =~= pre
                            .component_properties@[ii].props_set().insert(prop@));
                        // The updated entry is still well formed.
                        assert(self.component_properties@[ii].wf()) by {
                            let e = self.component_properties@[ii];
                            let pe = pre.component_properties@[ii];
                            assert(pe.wf());
                            let sp = views_of(e.props@);
                            let pp = views_of(pe.props@);
                            assert(sp =~= pp.push(prop@));
                            assert forall|a: int, b: int|
                                0 <= a < b < e.props@.len() implies e.props@[a]@ != e.props@[b]@ by {
                                assert(e.props@[a]@ == sp[a]);
                                assert(e.props@[b]@ == sp[b]);
                                if b == pp.len() {
                                    assert(sp[b] == prop@);
                                    if sp[a] == prop@ {
                                        assert(pp[a] == prop@);
                                        assert(pp.contains(prop@));
                                        assert(false);
                                    }
                                } else {
                                    assert(pe.props@[a]@ == pp[a]);
                                    assert(pe.props@[b]@ == pp[b]);
                                    assert(sp[a] == pp[a] && sp[b] == pp[b]);
                                }
                            }
                            assert forall|a: int|
                                0 <= a < e.props@.len() implies is_property_name(
                                #[trigger] e.props@[a]@,
                            ) by {
                                assert(e.props@[a]@ == sp[a]);
                                if a < pp.len() {
                                    assert(pe.props@[a]@ == pp[a]);
                                    assert(sp[a] == pp[a]);
                                } else {
                                    assert(sp[a] == prop@);
                                }
                            }
                        }
                        // Other entries are untouched.
                        assert forall|q: Seq<u8>| q != component@ implies #[trigger] self.props_at(
                            q,
                        ) == pre.props_at(q) by {
                            if sn.contains(q) {
                                let a = sn.index_of(q);
                                assert(sn[a] == q);
                                assert(a != ii);
                                assert(self.component_properties@[a]
                                    == pre.component_properties@[a]);
                            }
                        }
                        assert(self.props_at(component@) == self.component_properties@[ii]
                            .props_set()) by {
                            let a = sn.index_of(component@);
                            assert(sn[ii] == component@);
                            assert(sn.contains(component@));
                            if a != ii {
                                assert(sn[a] == component@);
                                assert(false);
                            }
                        }
                        assert(pre.props_at(component@) == pre.component_properties@[ii]
                            .props_set());
                        let m1 = self@.properties;
                        let m2 = pre@.properties.insert(
                            component@,
                            pre@.properties[component@].insert(prop@),
                        );
                        assert forall|q: Seq<u8>| m1.dom().contains(q) implies m2.dom().contains(q)
                            && m1[q] == m2[q] by {
                            if q != component@ {
                                assert(m1[q] == self.props_at(q));
                                assert(m2[q] == pre.props_at(q));
                            } else {
                                assert(m1[q] == self.props_at(component@));
                            }
                        }
                        assert forall|q: Seq<u8>| m2.dom().contains(q) implies m1.dom().contains(
                            q,
                        ) by {}
                        assert(m1 =~~= m2);
                        assert(self@.components =~= pre@.components);
                        assert(self@ == model_add_prop(old(self)@, component@, prop@));
                    }
                }
            },
        }
    }

    /// Record a component declaration: the identity joins the component
    /// set, and its property set is initialized (possibly empty) unless
    /// already present.
    pub fn add_declaration(&mut self, name: Vec<u8>)
        requires
            old(self).wf(),
            is_component_name(name@),
        ensures
            final(self).wf(),
            final(self)@ == model_add_decl(old(self)@, name@),
    {
        let name2 = copy_bytes(&name);
        self.insert_component(name2);
        let present = self.find_entry(&name).is_some();
        if !present {
            let ghost pre = *self;
            self.component_properties.push(PropEntry { name, props: Vec::new() });
            proof {
                let pn = pre.entry_names();
                let sn = self.entry_names();
                let k = pn.len() as int;
                assert(self.component_properties@[k].name@ == name@);
                assert(sn =~= pn.push(name@));
                assert(self.comp_views() == pre.comp_views());
                assert(views_of(self.component_properties@[k].props@) =~= Seq::<Seq<u8>>::empty());
                assert(self.component_properties@[k].props_set() =~= Set::<Seq<u8>>::empty());
                assert(self.component_properties@[k].wf());
                // The component set already holds the new key.
                assert(pre@.components.contains(name@));
                assert(pre.comp_views().contains(name@));
                // Key list stays duplicate-free.
                assert forall|i: int, j: int| 0 <= i < j < sn.len() implies sn[i] != sn[j] by {
                    if j == k {
                        if sn[i] == name@ {
                            assert(pn[i] == name@);
                            assert(pn.contains(name@));
                            assert(false);
                        }
                    }
                }
                // The fresh key maps to the empty set.
                assert(sn[k] == name@);
                assert(sn.contains(name@));
                let i0 = sn.index_of(name@);
                if i0 != k {
                    assert(sn[i0] == name@);
                    assert(pn[i0] == name@);
                    assert(pn.contains(name@));
                    assert(false);
                }
                assert(self.props_at(name@) =~= Set::<Seq<u8>>::empty());
                // Every other key is present exactly as before ...
                assert forall|q: Seq<u8>| q != name@ implies #[trigger] sn.contains(q)
                    == pn.contains(q) by {
                    if sn.contains(q) {
                        let i = sn.index_of(q);
                        assert(sn[i] == q);
                        assert(i != k);
                        assert(pn[i] == q);
                        assert(pn.contains(q));
                    }
                    if pn.contains(q) {
                        let j = pn.index_of(q);
                        assert(pn[j] == q);
                        assert(sn[j] == q);
                        assert(sn.contains(q));
                    }
                }
                // ... and maps to what it mapped to before.
                assert forall|q: Seq<u8>| q != name@ implies #[trigger] self.props_at(q)
                    == pre.props_at(q) by {
                    if sn.contains(q) {
                        let i = sn.index_of(q);
                        assert(sn[i] == q);
                        assert(i != k);
                        assert(pn[i] == q);
                        assert(pn.contains(q));
                        let j = pn.index_of(q);
                        assert(pn[j] == q);
                        if i != j {
                            assert(sn[j] == q);
                            assert(false);
                        }
                        assert(self.component_properties@[i] == pre.component_properties@[i]);
                    }
                }
                let m1 = self@.properties;
                let m2 = pre@.properties.insert(name@, Set::<Seq<u8>>::empty());
                assert forall|q: Seq<u8>| m1.dom().contains(q) implies m2.dom().contains(q) && m1[q]
                    == m2[q] by {
                    if q == name@ {
                        assert(m1[q] == self.props_at(name@));
                        assert(m2[q] =~= Set::<Seq<u8>>::empty());
                    } else {
                        assert(sn.contains(q));
                        assert(pn.contains(q));
                        assert(m1[q] == self.props_at(q));
                        assert(m2[q] == pre.props_at(q));
                    }
                }
                assert forall|q: Seq<u8>| m2.dom().contains(q) implies m1.dom().contains(q) by {
                    if q != name@ {
                        assert(pn.contains(q));
                        assert(sn.contains(q));
                    }
                }
                assert(m1 =~~= m2);
                assert(self@.components =~= pre@.components);
                assert(self@ == model_add_decl(old(self)@, name@));
            }
        } else {
            proof {
                assert(self@.properties.dom().contains(name@));
                assert(self@ == model_add_decl(old(self)@, name@));
            }
        }
    }
}

/// The property set recorded for `k`, or the empty set when `k` is
/// unknown.
pub open spec fn model_props_of(m: IndexModel, k: Seq<u8>) -> Set<Seq<u8>> {
    if m.properties.dom().contains(k) {
        m.properties[k]
    } else {
        Set::empty()
    }
}

/// The union of every component's property set.
pub open spec fn model_all_props(m: IndexModel) -> Set<Seq<u8>> {
    Set::new(
        |p: Seq<u8>|
            exists|k: Seq<u8>| #[trigger] m.properties.dom().contains(k) && m.properties[k]
                .contains(p),
    )
}

/// Union of the property sets of the first `i` entries.
spec fn props_union_up_to(d: ProjectData, i: int) -> Set<Seq<u8>> {
    Set::new(
        |p: Seq<u8>|
            exists|k: int|
                0 <= k < i && (#[trigger] d.component_properties@[k]).props_set().contains(p),
    )
}

proof fn lemma_distinct_no_duplicates(s: Seq<Seq<u8>>)
    requires
        forall|a: int, b: int| 0 <= a < b < s.len() ==> s[a] != s[b],
    ensures
        s.no_duplicates(),
{
    assert forall|a: int, b: int|
        0 <= a < s.len() && 0 <= b < s.len() && a != b implies s[a] != s[b] by {
        if a < b {
        } else {
            assert(s[b] != s[a]);
        }
    }
}

proof fn lemma_all_props(d: ProjectData)
    requires
        d.wf(),
    ensures
        props_union_up_to(d, d.component_properties@.len() as int) == model_all_props(d@),
{
    let n = d.component_properties@.len() as int;
    let u = props_union_up_to(d, n);
    let a = model_all_props(d@);
    assert forall|p: Seq<u8>| u.contains(p) implies a.contains(p) by {
        let k = choose|k: int|
            0 <= k < n && (#[trigger] d.component_properties@[k]).props_set().contains(p);
        let q = d.entry_names()[k];
        assert(d.entry_names().contains(q));
        let j = d.entry_names().index_of(q);
        assert(d.entry_names()[j] == q);
        if j != k {
            assert(false);
        }
        assert(d@.properties.dom().contains(q));
        assert(d@.properties[q] == d.props_at(q));
        assert(d@.properties[q].contains(p));
    }
    assert forall|p: Seq<u8>| a.contains(p) implies u.contains(p) by {
        let q = choose|q: Seq<u8>| #[trigger] d@.properties.dom().contains(q) && d@.properties[q]
            .contains(p);
        assert(d.entry_names().contains(q));
        let j = d.entry_names().index_of(q);
        assert(d.entry_names()[j] == q);
        assert(d@.properties[q] == d.props_at(q));
        assert(d.component_properties@[j].props_set().contains(p));
    }
    assert(u =~= a);
}

impl ProjectData {
    /// All known component identities, each listed once.
    pub fn all_components(&self) -> (r: Vec<Vec<u8>>)
        requires
            self.wf(),
        ensures
            views_of(r@) == self.comp_views(),
            views_of(r@).to_set() == self@.components,
            views_of(r@).no_duplicates(),
    {
        let r = copy_byte_vecs(&self.components);
        proof {
            lemma_distinct_no_duplicates(self.comp_views());
        }
        r
    }

    /// The property names of `component`, each listed once, or nothing
    /// when the component is unknown.
    pub fn properties_of(&self, component: &Vec<u8>) -> (r: Vec<Vec<u8>>)
        requires
            self.wf(),
        ensures
            views_of(r@).to_set() == model_props_of(self@, component@),
            views_of(r@).no_duplicates(),
    {
        match self.find_entry(component) {
            Some(i) => {
                proof {
                    assert(self.entry_names()[i as int] == component@);
                    assert(self.entry_names().contains(component@));
                    let j = self.entry_names().index_of(component@);
                    if j != i as int {
                        assert(self.entry_names()[j] == component@);
                        assert(false);
                    }
                    assert(self@.properties.dom().contains(component@));
                    assert(self@.properties[component@] == self.component_properties@[i as int]
                        .props_set());
                }
                let r = copy_byte_vecs(&self.component_properties[i].props);
                proof {
                    assert(views_of(r@).no_duplicates()) by {
                        let e = self.component_properties@[i as int];
                        assert(e.wf());
                        assert forall|a: int, b: int|
                            0 <= a < b < views_of(r@).len() implies views_of(r@)[a] != views_of(
                            r@,
                        )[b] by {
                            assert(views_of(r@)[a] == e.props@[a]@);
                            assert(views_of(r@)[b] == e.props@[b]@);
                        }
                        lemma_distinct_no_duplicates(views_of(r@));
                    }
                }
                r
            },
            None => {
                let r: Vec<Vec<u8>> = Vec::new();
                proof {
                    assert(!self@.properties.dom().contains(component@));
                    assert(views_of(r@) =~= Seq::<Seq<u8>>::empty());
                    assert(views_of(r@).to_set() =~= Set::<Seq<u8>>::empty());
                }
                r
            },
        }
    }

    /// The union of every component's property set, each name listed
    /// once.  Used when no enclosing component can be determined.
    pub fn all_known_properties(&self) -> (r: Vec<Vec<u8>>)
        requires
            self.wf(),
        ensures
            views_of(r@).to_set() == model_all_props(self@),
            views_of(r@).no_duplicates(),
    {
        let n = self.component_properties.len();
        let mut r: Vec<Vec<u8>> = Vec::new();
        let mut i: usize = 0;
        proof {
            assert(views_of(r@) =~= Seq::<Seq<u8>>::empty());
            assert(views_of(r@).to_set() =~= props_union_up_to(*self, 0));
        }
        while i < n
            invariant
                self.wf(),
                0 <= i <= n,
                n == self.component_properties.len(),
                views_of(r@).to_set() == props_union_up_to(*self, i as int),
                forall|a: int, b: int|
                    0 <= a < b < views_of(r@).len() ==> views_of(r@)[a] != views_of(r@)[b],
            decreases n - i,
        {
            let m = self.component_properties[i].props.len();
            let ghost vp = views_of(self.component_properties@[i as int].props@);
            let mut j: usize = 0;
            proof {
                assert(vp.subrange(0, 0).to_set() =~= Set::<Seq<u8>>::empty());
                assert(views_of(r@).to_set() =~= props_union_up_to(*self, i as int).union(
                    vp.subrange(0, 0).to_set(),
                ));
            }
            while j < m
                invariant
                    self.wf(),
                    0 <= i < n,
                    0 <= j <= m,
                    n == self.component_properties.len(),
                    m == self.component_properties@[i as int].props.len(),
                    vp == views_of(self.component_properties@[i as int].props@),
                    views_of(r@).to_set() == props_union_up_to(*self, i as int).union(
                        vp.subrange(0, j as int).to_set(),
                    ),
                    forall|a: int, b: int|
                        0 <= a < b < views_of(r@).len() ==> views_of(r@)[a] != views_of(r@)[b],
                decreases m - j,
            {
                let ghost uset = views_of(r@).to_set();
                let present = vecs_contain(&r, &self.component_properties[i].props[j]);
                proof {
                    assert(self.component_properties@[i as int].props@[j as int]@ == vp[j as int]);
                    assert(vp.subrange(0, j as int + 1) =~= vp.subrange(0, j as int).push(
                        vp[j as int],
                    ));
                    vp.subrange(0, j as int).lemma_push_to_set_commute(vp[j as int]);
                }
                if !present {
                    let c = copy_bytes(&self.component_properties[i].props[j]);
                    let ghost rv0 = r@;
                    r.push(c);
                    proof {
                        assert(views_of(r@) =~= views_of(rv0).push(vp[j as int]));
                        views_of(rv0).lemma_push_to_set_commute(vp[j as int]);
                        assert(views_of(r@).to_set() =~= uset.insert(vp[j as int]));
                        assert(views_of(r@).to_set() =~= props_union_up_to(*self, i as int).union(
                            vp.subrange(0, j as int + 1).to_set(),
                        ));
                        assert forall|a: int, b: int|
                            0 <= a < b < views_of(r@).len() implies views_of(r@)[a] != views_of(
                            r@,
                        )[b] by {
                            if b == views_of(rv0).len() {
                                if views_of(r@)[a] == vp[j as int] {
                                    assert(views_of(rv0)[a] == vp[j as int]);
                                    assert(views_of(rv0).contains(vp[j as int]));
                                    assert(uset.contains(vp[j as int]));
                                    assert(false);
                                }
                            }
                        }
                    }
                } else {
                    proof {
                        assert(uset.contains(vp[j as int]));
                        assert(views_of(r@).to_set() =~= props_union_up_to(*self, i as int).union(
                            vp.subrange(0, j as int + 1).to_set(),
                        ));
                    }
                }
                j = j + 1;
            }
            proof {
                assert(vp.subrange(0, m as int) =~= vp);
                assert(props_union_up_to(*self, i as int).union(vp.to_set())
                    =~= props_union_up_to(*self, i as int + 1)) by {
                    let lhs = props_union_up_to(*self, i as int).union(vp.to_set());
                    let rhs = props_union_up_to(*self, i as int + 1);
                    assert forall|p: Seq<u8>| lhs.contains(p) implies rhs.contains(p) by {
                        if props_union_up_to(*self, i as int).contains(p) {
                            let k = choose|k: int|
                                0 <= k < i as int && (#[trigger] self.component_properties@[k])
                                    .props_set().contains(p);
                            assert((self.component_properties@[k]).props_set().contains(p));
                        } else {
                            assert((self.component_properties@[i as int]).props_set().contains(p));
                        }
                    }
                    assert forall|p: Seq<u8>| rhs.contains(p) implies lhs.contains(p) by {
                        let k = choose|k: int|
                            0 <= k < i as int + 1 && (#[trigger] self.component_properties@[k])
                                .props_set().contains(p);
                        if k < i as int {
                            assert(props_union_up_to(*self, i as int).contains(p));
                        }
                    }
                }
            }
            i = i + 1;
        }
        proof {
            lemma_all_props(*self);
            lemma_distinct_no_duplicates(views_of(r@));
        }
        r
    }

    /// Number of known components.
    pub fn component_count(&self) -> (r: usize)
        requires
            self.wf(),
        ensures
            r == self@.components.len(),
    {
        proof {
            lemma_distinct_no_duplicates(self.comp_views());
            self.comp_views().unique_seq_to_set();
        }
        self.components.len()
    }

    /// Number of components that have a property set recorded.
    pub fn declared_count(&self) -> (r: usize)
        requires
            self.wf(),
        ensures
            r == self@.properties.dom().len(),
    {
        proof {
            lemma_distinct_no_duplicates(self.entry_names());
            self.entry_names().unique_seq_to_set();
            assert(self@.properties.dom() =~= self.entry_names().to_set());
        }
        self.component_properties.len()
    }
}

impl View for ProjectData {
    type V = IndexModel;

    open spec fn view(&self) -> IndexModel {
        IndexModel {
            components: self.comp_views().to_set(),
            properties: Map::new(
                |k: Seq<u8>| self.entry_names().contains(k),
                |k: Seq<u8>| self.props_at(k),
            ),
        }
    }
}

} // verus!
