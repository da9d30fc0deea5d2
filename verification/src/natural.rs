//! Natural transformations between functors: protocol upgrades.

use vstd::prelude::*;
use crate::category::{Arrow, Category, CategoryModel};
use crate::functor::{Functor, FunctorModel};
use crate::names::{has_identity_prefix, is_identity_name};
use crate::strmap::StrMap;

verus! {

/// The mathematical value of a natural transformation.
pub struct NaturalTransformationModel {
    pub name: Seq<char>,
    pub source_functor: Seq<char>,
    pub target_functor: Seq<char>,
    pub components: Map<Seq<char>, Seq<char>>,
}

impl NaturalTransformationModel {
    /// The naturality square for arrow `m: A → B` between `F` and `G`: where
    /// `α_A`, `α_B`, `F(m)` and `G(m)` are all given and both `α_B ∘ F(m)` and
    /// `G(m) ∘ α_A` are recorded in `tgt`, they are the same. Arrows named like
    /// identities are exempt.
    pub open spec fn natural_at(
        self,
        f: FunctorModel,
        g: FunctorModel,
        tgt: CategoryModel,
        m: Arrow,
    ) -> bool {
        let alpha = self.components;
        is_identity_name(m.id) || !alpha.contains_key(m.source) || !alpha.contains_key(m.target)
            || !f.morph_map.contains_key(m.id) || !g.morph_map.contains_key(m.id) || {
            let lhs = (alpha[m.target], f.morph_map[m.id]);
            let rhs = (g.morph_map[m.id], alpha[m.source]);
            tgt.composition.contains_key(lhs) && tgt.composition.contains_key(rhs)
                ==> tgt.composition[lhs] == tgt.composition[rhs]
        }
    }

    /// The naturality square commutes for every morphism of `src`.
    pub open spec fn is_natural(
        self,
        f: FunctorModel,
        g: FunctorModel,
        src: CategoryModel,
        tgt: CategoryModel,
    ) -> bool {
        forall|i: int| 0 <= i < src.morphisms.len() ==> #[trigger] self.natural_at(f, g, tgt, src.morphisms[i])
    }
}

/// A natural transformation between two functors.
#[derive(Clone)]
pub struct NaturalTransformation {
    pub name: String,
    pub source_functor: String,
    pub target_functor: String,
    /// Component for each object: `α_A : F(A) → G(A)`.
    pub components: StrMap<String>,
}

impl View for NaturalTransformation {
    type V = NaturalTransformationModel;

    open spec fn view(&self) -> NaturalTransformationModel {
        NaturalTransformationModel {
            name: self.name@,
            source_functor: self.source_functor@,
            target_functor: self.target_functor@,
            components: self.components@.map_values(|s: String| s@),
        }
    }
}

impl NaturalTransformation {
    /// Create a new natural transformation named `name` from functor `source` to
    /// functor `target`.
    pub fn new(name: &str, source: &str, target: &str) -> (nt: NaturalTransformation)
        ensures
            nt@ == (NaturalTransformationModel {
                name: name@,
                source_functor: source@,
                target_functor: target@,
                components: Map::empty(),
            }),
    {
        let nt = NaturalTransformation {
            name: name.to_owned(),
            source_functor: source.to_owned(),
            target_functor: target.to_owned(),
            components: StrMap::new(),
        };
        assert(nt@.components =~= Map::<Seq<char>, Seq<char>>::empty());
        nt
    }

    /// Set the component for an object, replacing any earlier one.
    pub fn set_component(&mut self, obj: &str, morphism: &str) -> (r: &mut Self)
        ensures
            r@ == (NaturalTransformationModel {
                components: old(self)@.components.insert(obj@, morphism@),
                ..old(self)@
            }),
            *final(self) == *final(r),
    {
        self.components.insert(obj, morphism.to_owned());
        assert(self@.components =~= old(self)@.components.insert(obj@, morphism@));
        self
    }

    /// Check naturality: for every `f: A → B` of `cat_source`,
    /// `α_B ∘ F(f) = G(f) ∘ α_A` wherever both composites are recorded.
    pub fn verify_naturality(
        &self,
        f: &Functor,
        g: &Functor,
        cat_source: &Category,
        cat_target: &Category,
    ) -> (b: bool)
        ensures
            b == self@.is_natural(f@, g@, cat_source@, cat_target@),
    {
        let ghost nt = self@;
        let ghost src = cat_source@;
        let ghost tgt = cat_target@;
        let mut i: usize = 0;
        while i < cat_source.morphisms.len()
            invariant
                nt == self@,
                src == cat_source@,
                tgt == cat_target@,
                i <= src.morphisms.len(),
                forall|j: int| 0 <= j < i ==> #[trigger] nt.natural_at(f@, g@, tgt, src.morphisms[j]),
            decreases src.morphisms.len() - i,
        {
            let morph = &cat_source.morphisms[i];
            assert(morph@ == src.morphisms[i as int]);
            if !has_identity_prefix(morph.id.as_str()) {
                if let Some(alpha_a) = self.components.get(morph.source.as_str()) {
                    if let Some(alpha_b) = self.components.get(morph.target.as_str()) {
                        if let Some(f_morph) = f.apply_to_morphism(morph.id.as_str()) {
                            if let Some(g_morph) = g.apply_to_morphism(morph.id.as_str()) {
                                let lhs = cat_target.composition.get(alpha_b.as_str(), f_morph.as_str());
                                let rhs = cat_target.composition.get(g_morph.as_str(), alpha_a.as_str());
                                if let (Some(lhs), Some(rhs)) = (lhs, rhs) {
                                    if !(*lhs == *rhs) {
                                        assert(!nt.natural_at(f@, g@, tgt, src.morphisms[i as int]));
                                        return false;
                                    }
                                }
                            }
                        }
                    }
                }
            }
            assert(nt.natural_at(f@, g@, tgt, src.morphisms[i as int]));
            i = i + 1;
        }
        true
    }
}

/// A natural transformation makes every checkable square commute: for any
/// morphism `m: A → B` of the source not named like an identity, wherever it
/// stands among the morphisms, if `α_A`, `α_B`, `F(m)` and `G(m)` are given and
/// both `α_B ∘ F(m)` and `G(m) ∘ α_A` are recorded in the target, they are equal.
pub proof fn law_natural_squares_commute(
    nt: NaturalTransformationModel,
    f: FunctorModel,
    g: FunctorModel,
    src: CategoryModel,
    tgt: CategoryModel,
    m: Arrow,
)
    requires
        nt.is_natural(f, g, src, tgt),
        src.morphisms.contains(m),
        !is_identity_name(m.id),
        nt.components.contains_key(m.source),
        nt.components.contains_key(m.target),
        f.morph_map.contains_key(m.id),
        g.morph_map.contains_key(m.id),
        tgt.composition.contains_key((nt.components[m.target], f.morph_map[m.id])),
        tgt.composition.contains_key((g.morph_map[m.id], nt.components[m.source])),
    ensures
        tgt.composition[(nt.components[m.target], f.morph_map[m.id])]
            == tgt.composition[(g.morph_map[m.id], nt.components[m.source])],
{
    let i = choose|i: int| 0 <= i < src.morphisms.len() && src.morphisms[i] == m;
    assert(nt.natural_at(f, g, tgt, src.morphisms[i]));
}

/// Conversely, when every checkable square of every morphism of the source
/// commutes, the transformation is natural.
pub proof fn law_commuting_squares_make_natural(
    nt: NaturalTransformationModel,
    f: FunctorModel,
    g: FunctorModel,
    src: CategoryModel,
    tgt: CategoryModel,
)
    requires
        forall|m: Arrow|
            #[trigger] src.morphisms.contains(m) && !is_identity_name(m.id) && nt.components.contains_key(m.source)
                && nt.components.contains_key(m.target) && f.morph_map.contains_key(m.id)
                && g.morph_map.contains_key(m.id)
                && tgt.composition.contains_key((nt.components[m.target], f.morph_map[m.id]))
                && tgt.composition.contains_key((g.morph_map[m.id], nt.components[m.source]))
                ==> tgt.composition[(nt.components[m.target], f.morph_map[m.id])]
                == tgt.composition[(g.morph_map[m.id], nt.components[m.source])],
    ensures
        nt.is_natural(f, g, src, tgt),
{
    assert forall|i: int| 0 <= i < src.morphisms.len() implies #[trigger] nt.natural_at(f, g, tgt, src.morphisms[i]) by {
        assert(src.morphisms.contains(src.morphisms[i]));
    }
}

/// Naturality is checked morphism by morphism: a source with no morphisms is
/// natural, and appending a morphism `m: A → B` keeps naturality exactly when
/// its square commutes (or cannot be checked, or `m` is named like an identity).
pub proof fn law_naturality_by_morphism(
    nt: NaturalTransformationModel,
    f: FunctorModel,
    g: FunctorModel,
    src: CategoryModel,
    tgt: CategoryModel,
    m: Arrow,
)
    ensures
        nt.is_natural(f, g, CategoryModel { morphisms: Seq::empty(), ..src }, tgt),
        nt.is_natural(f, g, CategoryModel { morphisms: src.morphisms.push(m), ..src }, tgt) == (
        nt.is_natural(f, g, src, tgt) && (is_identity_name(m.id) || !nt.components.contains_key(m.source)
            || !nt.components.contains_key(m.target) || !f.morph_map.contains_key(m.id)
            || !g.morph_map.contains_key(m.id)
            || !tgt.composition.contains_key((nt.components[m.target], f.morph_map[m.id]))
            || !tgt.composition.contains_key((g.morph_map[m.id], nt.components[m.source]))
            || tgt.composition[(nt.components[m.target], f.morph_map[m.id])]
            == tgt.composition[(g.morph_map[m.id], nt.components[m.source])])),
{
    let d = CategoryModel { morphisms: src.morphisms.push(m), ..src };
    let n = src.morphisms.len() as int;
    assert(d.morphisms[n] == m);
    assert(nt.natural_at(f, g, tgt, d.morphisms[n]) == nt.natural_at(f, g, tgt, m));
    if nt.is_natural(f, g, d, tgt) {
        assert forall|i: int| 0 <= i < src.morphisms.len() implies #[trigger] nt.natural_at(f, g, tgt, src.morphisms[i]) by {
            assert(d.morphisms[i] == src.morphisms[i]);
            assert(nt.natural_at(f, g, tgt, d.morphisms[i]));
        }
    }
    if nt.is_natural(f, g, src, tgt) && nt.natural_at(f, g, tgt, m) {
        assert forall|i: int| 0 <= i < d.morphisms.len() implies #[trigger] nt.natural_at(f, g, tgt, d.morphisms[i]) by {
            if i < n {
                assert(d.morphisms[i] == src.morphisms[i]);
                assert(nt.natural_at(f, g, tgt, src.morphisms[i]));
            }
        }
    }
}

} // verus!
