//! Morphisms and categories: objects, arrows between them, identities and a
//! composition table.

use vstd::prelude::*;
use crate::names::{join_text, has_identity_prefix, identity_name, is_identity_name, make_identity_name};
use crate::strmap::StrMap;
use crate::table::CompositionTable;
use crate::category_laws::{law_add_morphism_keeps_coherence, law_add_object_keeps_coherence, law_compose_keeps_coherence, law_empty_is_coherent};

verus! {

/// Unique identifier for objects in a category.
pub type ObjId = String;

/// Unique identifier for morphisms.
pub type MorphId = String;

/// The mathematical value of a morphism: an identifier and its two ends.
pub struct Arrow {
    pub id: Seq<char>,
    pub source: Seq<char>,
    pub target: Seq<char>,
}

/// The identity arrow of `obj`: named `"id_"` followed by `obj`, from `obj` to `obj`.
pub open spec fn identity_arrow(obj: Seq<char>) -> Arrow {
    Arrow { id: identity_name(obj), source: obj, target: obj }
}

/// A morphism in a category: an arrow from source to target.
#[derive(Clone, Debug)]
pub struct Morphism {
    pub id: MorphId,
    pub source: ObjId,
    pub target: ObjId,
}

impl View for Morphism {
    type V = Arrow;

    open spec fn view(&self) -> Arrow {
        Arrow { id: self.id@, source: self.source@, target: self.target@ }
    }
}

impl Morphism {
    /// A morphism named `id` from `source` to `target`.
    pub fn new(id: &str, source: &str, target: &str) -> (m: Morphism)
        ensures
            m@ == (Arrow { id: id@, source: source@, target: target@ }),
    {
        Morphism { id: id.to_owned(), source: source.to_owned(), target: target.to_owned() }
    }

    /// A copy of this morphism.
    pub fn duplicate(&self) -> (m: Morphism)
        ensures
            m@ == self@,
    {
        Morphism { id: self.id.clone(), source: self.source.clone(), target: self.target.clone() }
    }

    /// The morphism written as `"<id>: <source> → <target>"`.
    pub fn to_string(&self) -> (s: String)
        ensures
            s@ == self.id@ + seq![':', ' '] + self.source@ + seq![' ', '\u{2192}', ' '] + self.target@,
    {
        proof {
            reveal_strlit(": ");
            reveal_strlit(" \u{2192} ");
        }
        let mut s = join_text(self.id.as_str(), ": ");
        s.append(self.source.as_str());
        s.append(" \u{2192} ");
        s.append(self.target.as_str());
        s
    }
}

impl PartialEq for Morphism {
    fn eq(&self, other: &Self) -> (r: bool) {
        self.id == other.id && self.source == other.source && self.target == other.target
    }
}

impl vstd::std_specs::cmp::PartialEqSpecImpl for Morphism {
    open spec fn obeys_eq_spec() -> bool {
        true
    }

    open spec fn eq_spec(&self, other: &Self) -> bool {
        self@ == other@
    }
}

/// The mathematical value of a category.
pub struct CategoryModel {
    pub name: Seq<char>,
    pub objects: Seq<Seq<char>>,
    pub morphisms: Seq<Arrow>,
    pub composition: Map<(Seq<char>, Seq<char>), Seq<char>>,
    pub identities: Map<Seq<char>, Arrow>,
    /// For each position of `morphisms`, whether that arrow was created as the
    /// identity of an object (rather than added or composed).
    pub identity_marks: Seq<bool>,
}

impl CategoryModel {
    /// The category after adding object `obj`: nothing changes if it is already an
    /// object; otherwise it is appended, and its identity arrow is appended to the
    /// morphisms and recorded as its identity.
    pub open spec fn with_object(self, obj: Seq<char>) -> CategoryModel {
        if self.objects.contains(obj) {
            self
        } else {
            CategoryModel {
                name: self.name,
                objects: self.objects.push(obj),
                morphisms: self.morphisms.push(identity_arrow(obj)),
                composition: self.composition,
                identities: self.identities.insert(obj, identity_arrow(obj)),
                identity_marks: self.identity_marks.push(true),
            }
        }
    }

    /// The category after adding arrow `m`: its source and then its target are
    /// added as objects (see `with_object`), then `m` is appended.
    pub open spec fn with_morphism(self, m: Arrow) -> CategoryModel {
        let c = self.with_object(m.source).with_object(m.target);
        CategoryModel {
            name: c.name,
            objects: c.objects,
            morphisms: c.morphisms.push(m),
            composition: c.composition,
            identities: c.identities,
            identity_marks: c.identity_marks.push(false),
        }
    }

    /// The first arrow named `id`, if any.
    pub open spec fn find(self, id: Seq<char>) -> Option<Arrow> {
        first_with_id(self.morphisms, id)
    }

    /// The arrow that `compose(f, g, h)` creates for the arrows `fa` and `ga`: named
    /// `h`, from the source of `ga` to the target of `fa`.
    pub open spec fn composite_arrow(fa: Arrow, ga: Arrow, h: Seq<char>) -> Arrow {
        Arrow { id: h, source: ga.source, target: fa.target }
    }

    /// The category after defining `f ∘ g` as the arrow named `h`: when arrows
    /// named `f` and `g` exist (the first of each), `(f, g) -> h` is recorded and
    /// the arrow `h` from the source of `g` to the target of `f` is appended,
    /// unless that very arrow is already a morphism; otherwise nothing changes.
    pub open spec fn with_composite(self, f: Seq<char>, g: Seq<char>, h: Seq<char>) -> CategoryModel {
        match (self.find(f), self.find(g)) {
            (Some(fa), Some(ga)) => {
                let a = CategoryModel::composite_arrow(fa, ga, h);
                if self.morphisms.contains(a) {
                    CategoryModel { composition: self.composition.insert((f, g), h), ..self }
                } else {
                    CategoryModel {
                        morphisms: self.morphisms.push(a),
                        composition: self.composition.insert((f, g), h),
                        identity_marks: self.identity_marks.push(false),
                        ..self
                    }
                }
            },
            _ => self,
        }
    }

    /// The arrows from `source` to `target`, in order.
    pub open spec fn hom(self, source: Seq<char>, target: Seq<char>) -> Seq<Arrow> {
        self.morphisms.filter(between(source, target))
    }

    /// The number of arrows that are not identity arrows (an arrow `"id_"+o` from
    /// `o` to `o`).
    pub open spec fn nontrivial_count(self) -> nat {
        self.morphisms.filter(nontrivial()).len()
    }

    /// The number of arrows added by `add_morphism` or `compose`, that is, not
    /// created by `add_object` as an object's identity, whatever their names.
    pub open spec fn added_count(self) -> nat {
        self.identity_marks.filter(unmarked()).len()
    }

    /// The arrows, each with its identity mark.
    pub open spec fn marked_arrows(self) -> Seq<(Arrow, bool)> {
        Seq::new(self.morphisms.len(), |i: int| (self.morphisms[i], self.identity_marks[i]))
    }

    /// Whether arrow `m` is neutral for the identities of its ends, as far as the
    /// composition table records composites with them: `m ∘ id_source` and
    /// `id_target ∘ m`, where recorded, are `m`. Arrows from an object to itself
    /// named like identities are exempt.
    pub open spec fn respects_identities(self, m: Arrow) -> bool {
        (m.source == m.target && is_identity_name(m.id)) || {
            &&& self.composition.contains_key((m.id, identity_name(m.source)))
                ==> self.composition[(m.id, identity_name(m.source))] == m.id
            &&& self.composition.contains_key((identity_name(m.target), m.id))
                ==> self.composition[(identity_name(m.target), m.id)] == m.id
        }
    }

    /// Every arrow respects the identities of its ends.
    pub open spec fn identity_laws_hold(self) -> bool {
        forall|i: int| 0 <= i < self.morphisms.len() ==> #[trigger] self.respects_identities(self.morphisms[i])
    }

    /// The structure every operation of the library keeps: objects are distinct,
    /// exactly the objects have identities, each identity is the object's identity
    /// arrow and is among the morphisms, every arrow runs between objects, every
    /// arrow carries an identity mark, marked arrows are identity arrows, and there
    /// are exactly as many marked arrows as objects.
    pub open spec fn is_coherent(self) -> bool {
        &&& self.objects.no_duplicates()
        &&& self.identity_marks.len() == self.morphisms.len()
        &&& forall|i: int| 0 <= i < self.morphisms.len() && #[trigger] self.identity_marks[i]
            ==> self.morphisms[i] == identity_arrow(self.morphisms[i].source)
        &&& self.identity_marks.filter(marked()).len() == self.objects.len()
        &&& forall|o: Seq<char>| #[trigger] self.identities.contains_key(o) <==> self.objects.contains(o)
        &&& forall|o: Seq<char>| #[trigger] self.identities.contains_key(o) ==> self.identities[o] == identity_arrow(o)
        &&& forall|o: Seq<char>| #[trigger] self.objects.contains(o) ==> self.morphisms.contains(identity_arrow(o))
        &&& forall|i: int| 0 <= i < self.morphisms.len() ==> {
            &&& self.objects.contains(#[trigger] self.morphisms[i].source)
            &&& self.objects.contains(self.morphisms[i].target)
        }
    }
}

/// The first arrow in `ms` named `id`, if any.
pub open spec fn first_with_id(ms: Seq<Arrow>, id: Seq<char>) -> Option<Arrow>
    decreases ms.len(),
{
    if ms.len() == 0 {
        None
    } else if ms[0].id == id {
        Some(ms[0])
    } else {
        first_with_id(ms.drop_first(), id)
    }
}

/// Arrows from `source` to `target`.
pub open spec fn between(source: Seq<char>, target: Seq<char>) -> spec_fn(Arrow) -> bool {
    |a: Arrow| a.source == source && a.target == target
}

/// Whether `a` is an identity arrow: named `"id_"` followed by its source, from
/// its source to itself.
pub open spec fn is_identity_arrow(a: Arrow) -> bool {
    a == identity_arrow(a.source)
}

/// Arrows that are not identity arrows.
pub open spec fn nontrivial() -> spec_fn(Arrow) -> bool {
    |a: Arrow| !is_identity_arrow(a)
}

/// Positions marked as identities of objects.
pub open spec fn marked() -> spec_fn(bool) -> bool {
    |b: bool| b
}

/// Positions not marked as identities of objects.
pub open spec fn unmarked() -> spec_fn(bool) -> bool {
    |b: bool| !b
}

/// A category with objects, morphisms, and composition.
#[derive(Clone)]
pub struct Category {
    pub name: String,
    pub objects: Vec<ObjId>,
    pub morphisms: Vec<Morphism>,
    /// Composition table: `(f.id, g.id) -> h.id` where `h = f ∘ g` ("f after g").
    pub composition: CompositionTable,
    /// Identity morphism for each object.
    pub identities: StrMap<Morphism>,
    /// For each morphism, whether it was created as the identity of an object.
    pub identity_marks: Vec<bool>,
}

impl View for Category {
    type V = CategoryModel;

    open spec fn view(&self) -> CategoryModel {
        CategoryModel {
            name: self.name@,
            objects: self.objects@.map_values(|s: String| s@),
            morphisms: self.morphisms@.map_values(|m: Morphism| m@),
            composition: self.composition@,
            identities: self.identities@.map_values(|m: Morphism| m@),
            identity_marks: self.identity_marks@,
        }
    }
}

impl Category {
    /// Every morphism carries an identity mark.
    pub open spec fn wf(&self) -> bool {
        self.identity_marks@.len() == self.morphisms@.len()
    }

    /// Create a new empty category.
    pub fn new(name: &str) -> (c: Category)
        ensures
            c.wf(),
            c@ == (CategoryModel {
                name: name@,
                objects: Seq::empty(),
                morphisms: Seq::empty(),
                composition: Map::empty(),
                identities: Map::empty(),
                identity_marks: Seq::empty(),
            }),
            c@.is_coherent(),
    {
        proof {
            law_empty_is_coherent(name@);
        }
        let c = Category {
            name: name.to_owned(),
            objects: Vec::new(),
            morphisms: Vec::new(),
            composition: CompositionTable::new(),
            identities: StrMap::new(),
            identity_marks: Vec::new(),
        };
        assert(c@.objects =~= Seq::<Seq<char>>::empty());
        assert(c@.morphisms =~= Seq::<Arrow>::empty());
        assert(c@.identities =~= Map::<Seq<char>, Arrow>::empty());
        c
    }

    fn has_object(&self, id: &String) -> (b: bool)
        ensures
            b == self@.objects.contains(id@),
    {
        let mut i: usize = 0;
        while i < self.objects.len()
            invariant
                i <= self.objects@.len(),
                forall|j: int| 0 <= j < i ==> self.objects@[j]@ != id@,
            decreases self.objects@.len() - i,
        {
            if self.objects[i] == *id {
                assert(self@.objects[i as int] == id@);
                return true;
            }
            i = i + 1;
        }
        proof {
            if self@.objects.contains(id@) {
                let j = choose|j: int| 0 <= j < self@.objects.len() && self@.objects[j] == id@;
                assert(self.objects@[j]@ == id@);
            }
        }
        false
    }

    /// Add an object to the category.
    pub fn add_object(&mut self, id: &str) -> (r: &mut Self)
        ensures
            old(self).wf() ==> r.wf(),
            r@ == old(self)@.with_object(id@),
            old(self)@.is_coherent() ==> r@.is_coherent(),
            *final(self) == *final(r),
    {
        proof {
            if old(self)@.is_coherent() {
                law_add_object_keeps_coherence(old(self)@, id@);
            }
        }
        let name = id.to_owned();
        if !self.has_object(&name) {
            let ghost pre = self@;
            let id_morph = Morphism { id: make_identity_name(id), source: name.clone(), target: name.clone() };
            self.identities.insert(id, id_morph.duplicate());
            self.objects.push(name);
            self.morphisms.push(id_morph);
            self.identity_marks.push(true);
            assert(self@.objects =~= pre.objects.push(id@));
            assert(self@.morphisms =~= pre.morphisms.push(identity_arrow(id@)));
            assert(self@.identities =~= pre.identities.insert(id@, identity_arrow(id@)));
        }
        self
    }

    /// Add a morphism to the category; its ends become objects if they were not.
    pub fn add_morphism(&mut self, morph: Morphism) -> (r: &mut Self)
        ensures
            old(self).wf() ==> r.wf(),
            r@ == old(self)@.with_morphism(morph@),
            old(self)@.is_coherent() ==> r@.is_coherent(),
            *final(self) == *final(r),
    {
        proof {
            if old(self)@.is_coherent() {
                law_add_morphism_keeps_coherence(old(self)@, morph@);
            }
        }
        if !self.has_object(&morph.source) {
            self.add_object(morph.source.as_str());
        }
        if !self.has_object(&morph.target) {
            self.add_object(morph.target.as_str());
        }
        let ghost pre = self@;
        self.morphisms.push(morph);
        self.identity_marks.push(false);
        assert(self@.morphisms =~= pre.morphisms.push(morph@));
        self
    }

    /// Whether `m` (its name and both ends) is already a morphism.
    fn has_morphism(&self, m: &Morphism) -> (b: bool)
        ensures
            b == self@.morphisms.contains(m@),
    {
        let mut i: usize = 0;
        while i < self.morphisms.len()
            invariant
                i <= self@.morphisms.len(),
                forall|j: int| 0 <= j < i ==> self@.morphisms[j] != m@,
            decreases self@.morphisms.len() - i,
        {
            let n = &self.morphisms[i];
            if n.id == m.id && n.source == m.source && n.target == m.target {
                assert(self@.morphisms[i as int] == m@);
                return true;
            }
            i = i + 1;
        }
        false
    }

    /// Define composition: `compose(f, g, h)` records `h = f ∘ g` (apply `g`, then
    /// `f`) and creates the morphism `h` from the source of `g` to the target of
    /// `f`, unless that very morphism already exists (as when recording
    /// `h ∘ id_A = h`). Nothing happens unless morphisms named `f` and `g` exist.
    pub fn compose(&mut self, f_id: &str, g_id: &str, result_id: &str)
        ensures
            old(self).wf() ==> final(self).wf(),
            final(self)@ == old(self)@.with_composite(f_id@, g_id@, result_id@),
            old(self)@.is_coherent() ==> final(self)@.is_coherent(),
    {
        proof {
            if old(self)@.is_coherent() {
                law_compose_keeps_coherence(old(self)@, f_id@, g_id@, result_id@);
            }
        }
        let f = match self.find_morphism(f_id) {
            Some(m) => Some(m.duplicate()),
            None => None,
        };
        let g = match self.find_morphism(g_id) {
            Some(m) => Some(m.duplicate()),
            None => None,
        };
        if let (Some(f), Some(g)) = (f, g) {
            let ghost pre = self@;
            let result = Morphism::new(result_id, g.source.as_str(), f.target.as_str());
            self.composition.insert(f_id, g_id, result_id);
            if !self.has_morphism(&result) {
                self.morphisms.push(result);
                self.identity_marks.push(false);
                assert(self@.morphisms =~= pre.morphisms.push(
                    CategoryModel::composite_arrow(f@, g@, result_id@),
                ));
            }
        }
    }

    /// Get the identity morphism for an object.
    pub fn identity(&self, obj: &str) -> (r: Option<&Morphism>)
        ensures
            match r {
                Some(m) => self@.identities.contains_key(obj@) && m@ == self@.identities[obj@],
                None => !self@.identities.contains_key(obj@),
            },
    {
        self.identities.get(obj)
    }

    /// Find the first morphism named `id`.
    pub fn find_morphism(&self, id: &str) -> (r: Option<&Morphism>)
        ensures
            match r {
                Some(m) => self@.find(id@) == Some(m@),
                None => self@.find(id@) is None,
            },
    {
        let key = id.to_owned();
        let ghost ms = self@.morphisms;
        let mut i: usize = 0;
        assert(ms.skip(0) =~= ms);
        while i < self.morphisms.len()
            invariant
                ms == self@.morphisms,
                i <= ms.len(),
                key@ == id@,
                first_with_id(ms, id@) == first_with_id(ms.skip(i as int), id@),
            decreases ms.len() - i,
        {
            assert(ms.skip(i as int)[0] == ms[i as int]);
            assert(ms.skip(i as int).drop_first() =~= ms.skip(i + 1));
            if self.morphisms[i].id == key {
                return Some(&self.morphisms[i]);
            }
            i = i + 1;
        }
        None
    }

    /// Get all morphisms from `source` to `target`, in order.
    pub fn hom(&self, source: &str, target: &str) -> (r: Vec<&Morphism>)
        ensures
            r@.map_values(|m: &Morphism| m@) == self@.hom(source@, target@),
    {
        let s = source.to_owned();
        let t = target.to_owned();
        let ghost ms = self@.morphisms;
        let mut r: Vec<&Morphism> = Vec::new();
        let mut i: usize = 0;
        while i < self.morphisms.len()
            invariant
                ms == self@.morphisms,
                i <= ms.len(),
                s@ == source@,
                t@ == target@,
                r@.map_values(|m: &Morphism| m@) == ms.take(i as int).filter(between(source@, target@)),
            decreases ms.len() - i,
        {
            let ghost prev = r@;
            assert(ms.take(i + 1) =~= ms.take(i as int).push(ms[i as int]));
            proof { ms.take(i as int).lemma_filter_push(ms[i as int], between(source@, target@)); }
            let m = &self.morphisms[i];
            if m.source == s && m.target == t {
                r.push(m);
                assert(r@.map_values(|m: &Morphism| m@) =~= prev.map_values(|m: &Morphism| m@).push(ms[i as int]));
            }
            i = i + 1;
        }
        assert(ms.take(ms.len() as int) =~= ms);
        r
    }

    /// Whether every morphism is neutral for the identities of its ends, where the
    /// composition table records such composites (`f ∘ id_A = f`, `id_B ∘ f = f`).
    pub fn verify_identity_laws(&self) -> (b: bool)
        ensures
            b == self@.identity_laws_hold(),
    {
        let ghost c = self@;
        let mut i: usize = 0;
        while i < self.morphisms.len()
            invariant
                c == self@,
                i <= c.morphisms.len(),
                forall|j: int| 0 <= j < i ==> #[trigger] c.respects_identities(c.morphisms[j]),
            decreases c.morphisms.len() - i,
        {
            let m = &self.morphisms[i];
            assert(m@ == c.morphisms[i as int]);
            let exempt = m.source == m.target && has_identity_prefix(m.id.as_str());
            if !exempt {
                let id_s = make_identity_name(m.source.as_str());
                let id_t = make_identity_name(m.target.as_str());
                match self.composition.get(m.id.as_str(), id_s.as_str()) {
                    Some(comp_id) => {
                        if !(*comp_id == m.id) {
                            assert(!c.respects_identities(c.morphisms[i as int]));
                            return false;
                        }
                    },
                    None => {},
                }
                match self.composition.get(id_t.as_str(), m.id.as_str()) {
                    Some(comp_id) => {
                        if !(*comp_id == m.id) {
                            assert(!c.respects_identities(c.morphisms[i as int]));
                            return false;
                        }
                    },
                    None => {},
                }
            }
            assert(c.respects_identities(c.morphisms[i as int]));
            i = i + 1;
        }
        true
    }

    /// Number of objects.
    pub fn num_objects(&self) -> (n: usize)
        ensures
            n == self@.objects.len(),
    {
        self.objects.len()
    }

    /// Number of non-identity morphisms: those that are not an identity arrow
    /// (`"id_"+o` from `o` to `o`).
    pub fn num_nontrivial_morphisms(&self) -> (n: usize)
        ensures
            n == self@.nontrivial_count(),
    {
        let ghost ms = self@.morphisms;
        let mut n: usize = 0;
        let mut i: usize = 0;
        while i < self.morphisms.len()
            invariant
                ms == self@.morphisms,
                i <= ms.len(),
                n == ms.take(i as int).filter(nontrivial()).len(),
                n <= i,
            decreases ms.len() - i,
        {
            assert(ms.take(i + 1) =~= ms.take(i as int).push(ms[i as int]));
            proof { ms.take(i as int).lemma_filter_push(ms[i as int], nontrivial()); }
            let m = &self.morphisms[i];
            let loop_id = make_identity_name(m.source.as_str());
            let identity = m.source == m.target && m.id == loop_id;
            assert(identity == is_identity_arrow(ms[i as int]));
            if !identity {
                n = n + 1;
            }
            i = i + 1;
        }
        assert(ms.take(ms.len() as int) =~= ms);
        n
    }
}

} // verus!
