//! Functors between categories: coordination strategies that map agents to
//! agents and protocols to protocols.

use vstd::prelude::*;
use crate::category::{Category, CategoryModel};
use crate::names::{identity_name, make_identity_name};
use crate::strmap::StrMap;

verus! {

/// The mathematical value of a functor.
pub struct FunctorModel {
    pub name: Seq<char>,
    pub source_cat: Seq<char>,
    pub target_cat: Seq<char>,
    pub obj_map: Map<Seq<char>, Seq<char>>,
    pub morph_map: Map<Seq<char>, Seq<char>>,
}

impl FunctorModel {
    /// Where both the object `o` and its identity are mapped, the identity of `o`
    /// goes to the identity of the image of `o`.
    pub open spec fn preserves_identity_at(self, o: Seq<char>) -> bool {
        self.obj_map.contains_key(o) && self.morph_map.contains_key(identity_name(o))
            ==> self.morph_map[identity_name(o)] == identity_name(self.obj_map[o])
    }

    /// `F(id_A) = id_F(A)` for every mapped object `A` whose identity is mapped.
    pub open spec fn preserves_identities(self) -> bool {
        forall|o: Seq<char>| #[trigger] self.obj_map.contains_key(o) ==> self.preserves_identity_at(o)
    }

    /// For the pair `k = (f, g)`: where `f ∘ g` is recorded in `src`, `f`, `g` and
    /// `f ∘ g` are mapped and `F(f) ∘ F(g)` is recorded in `tgt`, the latter is
    /// `F(f ∘ g)`.
    pub open spec fn preserves_composite_at(
        self,
        src: CategoryModel,
        tgt: CategoryModel,
        k: (Seq<char>, Seq<char>),
    ) -> bool {
        let mm = self.morph_map;
        src.composition.contains_key(k) && mm.contains_key(k.0) && mm.contains_key(k.1)
            && mm.contains_key(src.composition[k]) && tgt.composition.contains_key((mm[k.0], mm[k.1]))
            ==> tgt.composition[(mm[k.0], mm[k.1])] == mm[src.composition[k]]
    }

    /// `F(f ∘ g) = F(f) ∘ F(g)` wherever all of it is recorded.
    pub open spec fn preserves_composition(self, src: CategoryModel, tgt: CategoryModel) -> bool {
        forall|k: (Seq<char>, Seq<char>)| #[trigger]
            src.composition.contains_key(k) ==> self.preserves_composite_at(src, tgt, k)
    }

    /// The functor laws, as far as the recorded mappings and tables reach.
    pub open spec fn is_functorial(self, src: CategoryModel, tgt: CategoryModel) -> bool {
        self.preserves_identities() && self.preserves_composition(src, tgt)
    }
}

/// What a functor maps an object or morphism to reads back as last written.
pub proof fn law_mapping_reads_back(f: FunctorModel, a: Seq<char>, x: Seq<char>, b: Seq<char>)
    ensures
        (FunctorModel { obj_map: f.obj_map.insert(a, x), ..f }).obj_map[a] == x,
        (FunctorModel { morph_map: f.morph_map.insert(a, x), ..f }).morph_map[a] == x,
        b != a ==> (FunctorModel { obj_map: f.obj_map.insert(a, x), ..f }).obj_map.contains_key(b)
            == f.obj_map.contains_key(b),
        b != a && f.obj_map.contains_key(b) ==> (FunctorModel { obj_map: f.obj_map.insert(a, x), ..f }).obj_map[b]
            == f.obj_map[b],
{
}

/// A functorial mapping preserves every recorded composite, identity factors
/// included: if `f ∘ g` is recorded in the source, `f`, `g` and `f ∘ g` are
/// mapped and `F(f) ∘ F(g)` is recorded in the target, it is `F(f ∘ g)`.
pub proof fn law_functorial_preserves_composites(
    fm: FunctorModel,
    src: CategoryModel,
    tgt: CategoryModel,
    f: Seq<char>,
    g: Seq<char>,
)
    requires
        fm.is_functorial(src, tgt),
        src.composition.contains_key((f, g)),
        fm.morph_map.contains_key(f),
        fm.morph_map.contains_key(g),
        fm.morph_map.contains_key(src.composition[(f, g)]),
        tgt.composition.contains_key((fm.morph_map[f], fm.morph_map[g])),
    ensures
        tgt.composition[(fm.morph_map[f], fm.morph_map[g])] == fm.morph_map[src.composition[(f, g)]],
{
    assert(fm.preserves_composite_at(src, tgt, (f, g)));
}

/// A functorial mapping sends the identity of every mapped object `A` whose
/// identity is mapped to the identity of `F(A)`.
pub proof fn law_functorial_preserves_identities(fm: FunctorModel, src: CategoryModel, tgt: CategoryModel, o: Seq<char>)
    requires
        fm.is_functorial(src, tgt),
        fm.obj_map.contains_key(o),
        fm.morph_map.contains_key(identity_name(o)),
    ensures
        fm.morph_map[identity_name(o)] == identity_name(fm.obj_map[o]),
{
    assert(fm.preserves_identity_at(o));
}

/// Conversely, a mapping that preserves every mapped identity and every recorded
/// composite is functorial.
pub proof fn law_functor_laws_suffice(fm: FunctorModel, src: CategoryModel, tgt: CategoryModel)
    requires
        forall|o: Seq<char>|
            #[trigger] fm.obj_map.contains_key(o) && fm.morph_map.contains_key(identity_name(o))
                ==> fm.morph_map[identity_name(o)] == identity_name(fm.obj_map[o]),
        forall|f: Seq<char>, g: Seq<char>|
            #[trigger] src.composition.contains_key((f, g)) && fm.morph_map.contains_key(f)
                && fm.morph_map.contains_key(g) && fm.morph_map.contains_key(src.composition[(f, g)])
                && tgt.composition.contains_key((fm.morph_map[f], fm.morph_map[g]))
                ==> tgt.composition[(fm.morph_map[f], fm.morph_map[g])]
                == fm.morph_map[src.composition[(f, g)]],
    ensures
        fm.is_functorial(src, tgt),
{
    assert forall|k: (Seq<char>, Seq<char>)| #[trigger] src.composition.contains_key(k)
        implies fm.preserves_composite_at(src, tgt, k) by {
        assert(src.composition.contains_key((k.0, k.1)));
    }
}

/// A functor between categories: maps objects and morphisms preserving structure.
#[derive(Clone)]
pub struct Functor {
    pub name: String,
    pub source_cat: String,
    pub target_cat: String,
    /// Object mapping: source object -> target object.
    pub obj_map: StrMap<String>,
    /// Morphism mapping: source morphism -> target morphism.
    pub morph_map: StrMap<String>,
}

impl View for Functor {
    type V = FunctorModel;

    open spec fn view(&self) -> FunctorModel {
        FunctorModel {
            name: self.name@,
            source_cat: self.source_cat@,
            target_cat: self.target_cat@,
            obj_map: self.obj_map@.map_values(|s: String| s@),
            morph_map: self.morph_map@.map_values(|s: String| s@),
        }
    }
}

impl Functor {
    /// Create a new functor named `name` from category `source` to category `target`.
    pub fn new(name: &str, source: &str, target: &str) -> (f: Functor)
        ensures
            f@ == (FunctorModel {
                name: name@,
                source_cat: source@,
                target_cat: target@,
                obj_map: Map::empty(),
                morph_map: Map::empty(),
            }),
    {
        let f = Functor {
            name: name.to_owned(),
            source_cat: source.to_owned(),
            target_cat: target.to_owned(),
            obj_map: StrMap::new(),
            morph_map: StrMap::new(),
        };
        assert(f@.obj_map =~= Map::<Seq<char>, Seq<char>>::empty());
        assert(f@.morph_map =~= Map::<Seq<char>, Seq<char>>::empty());
        f
    }

    /// Map object `source` to `target`, replacing any earlier image.
    pub fn map_object(&mut self, source: &str, target: &str) -> (r: &mut Self)
        ensures
            r@ == (FunctorModel { obj_map: old(self)@.obj_map.insert(source@, target@), ..old(self)@ }),
            *final(self) == *final(r),
    {
        self.obj_map.insert(source, target.to_owned());
        assert(self@.obj_map =~= old(self)@.obj_map.insert(source@, target@));
        self
    }

    /// Map morphism `source` to `target`, replacing any earlier image.
    pub fn map_morphism(&mut self, source: &str, target: &str) -> (r: &mut Self)
        ensures
            r@ == (FunctorModel { morph_map: old(self)@.morph_map.insert(source@, target@), ..old(self)@ }),
            *final(self) == *final(r),
    {
        self.morph_map.insert(source, target.to_owned());
        assert(self@.morph_map =~= old(self)@.morph_map.insert(source@, target@));
        self
    }

    /// Check the functor laws: `F(id) = id` and `F(f ∘ g) = F(f) ∘ F(g)`.
    pub fn verify_functoriality(&self, source: &Category, target: &Category) -> (b: bool)
        ensures
            b == self@.is_functorial(source@, target@),
    {
        let ghost fm = self@;
        let ghost src = source@;
        let ghost tgt = target@;
        let n = self.obj_map.len();
        let mut i: usize = 0;
        while i < n
            invariant
                fm == self@,
                n == self.obj_map@.len(),
                self.obj_map.keys().len() == n,
                forall|k: Seq<char>| #[trigger] self.obj_map@.contains_key(k) <==> self.obj_map.keys().contains(k),
                i <= n,
                forall|j: int| 0 <= j < i ==> #[trigger] fm.preserves_identity_at(self.obj_map.keys()[j]),
            decreases n - i,
        {
            let src_obj = self.obj_map.key_at(i);
            let tgt_obj = self.obj_map.value_at(i);
            let ghost o = self.obj_map.keys()[i as int];
            let src_id = make_identity_name(src_obj.as_str());
            let tgt_id = make_identity_name(tgt_obj.as_str());
            match self.morph_map.get(src_id.as_str()) {
                Some(mapped) => {
                    if !(*mapped == tgt_id) {
                        assert(!fm.preserves_identity_at(o));
                        return false;
                    }
                },
                None => {},
            }
            assert(fm.preserves_identity_at(o));
            i = i + 1;
        }
        assert(fm.preserves_identities()) by {
            assert forall|o: Seq<char>| #[trigger] fm.obj_map.contains_key(o) implies fm.preserves_identity_at(o) by {
                assert(self.obj_map.keys().contains(o));
                let j = choose|j: int| 0 <= j < self.obj_map.keys().len() && self.obj_map.keys()[j] == o;
                assert(fm.preserves_identity_at(self.obj_map.keys()[j]));
            }
        }
        let m = source.composition.len();
        let mut i: usize = 0;
        while i < m
            invariant
                fm == self@,
                src == source@,
                tgt == target@,
                m == source.composition@.len(),
                source.composition.keys().len() == m,
                forall|k: (Seq<char>, Seq<char>)| #[trigger] source.composition@.contains_key(k)
                    <==> source.composition.keys().contains(k),
                i <= m,
                forall|j: int| 0 <= j < i ==> #[trigger] fm.preserves_composite_at(src, tgt, source.composition.keys()[j]),
            decreases m - i,
        {
            let (f, g, comp_result) = source.composition.entry_at(i);
            let ghost k = source.composition.keys()[i as int];
            if let (Some(f_map), Some(g_map)) = (self.morph_map.get(f.as_str()), self.morph_map.get(g.as_str())) {
                if let Some(fg_mapped) = self.morph_map.get(comp_result.as_str()) {
                    if let Some(target_comp) = target.composition.get(f_map.as_str(), g_map.as_str()) {
                        if !(*target_comp == *fg_mapped) {
                            assert(!fm.preserves_composite_at(src, tgt, k));
                            return false;
                        }
                    }
                }
            }
            assert(fm.preserves_composite_at(src, tgt, k));
            i = i + 1;
        }
        assert(fm.preserves_composition(src, tgt)) by {
            assert forall|k: (Seq<char>, Seq<char>)| #[trigger] src.composition.contains_key(k)
                implies fm.preserves_composite_at(src, tgt, k) by {
                assert(source.composition.keys().contains(k));
                let j = choose|j: int| 0 <= j < source.composition.keys().len() && source.composition.keys()[j] == k;
                assert(fm.preserves_composite_at(src, tgt, source.composition.keys()[j]));
            }
        }
        true
    }

    /// Apply the functor to an object.
    pub fn apply_to_object(&self, obj: &str) -> (r: Option<&String>)
        ensures
            match r {
                Some(t) => self@.obj_map.contains_key(obj@) && t@ == self@.obj_map[obj@],
                None => !self@.obj_map.contains_key(obj@),
            },
    {
        self.obj_map.get(obj)
    }

    /// Apply the functor to a morphism.
    pub fn apply_to_morphism(&self, morph: &str) -> (r: Option<&String>)
        ensures
            match r {
                Some(t) => self@.morph_map.contains_key(morph@) && t@ == self@.morph_map[morph@],
                None => !self@.morph_map.contains_key(morph@),
            },
    {
        self.morph_map.get(morph)
    }
}

} // verus!
