//! Pullbacks and pushouts: merging and splitting agent teams.

use vstd::prelude::*;
use crate::category::{Arrow, Category, CategoryModel, Morphism};
use crate::category_laws::{law_add_morphism_keeps_coherence, law_add_object_keeps_coherence};
use crate::names::join_text;

verus! {

/// Name of the first projection of pullback object `p`: `"pb_proj1_"` then `p`.
pub open spec fn pullback_proj1_name(p: Seq<char>) -> Seq<char> {
    "pb_proj1_"@ + p
}

/// Name of the second projection of pullback object `p`: `"pb_proj2_"` then `p`.
pub open spec fn pullback_proj2_name(p: Seq<char>) -> Seq<char> {
    "pb_proj2_"@ + p
}

/// Name of the first injection into pushout object `p`: `"po_inj1_"` then `p`.
pub open spec fn pushout_inj1_name(p: Seq<char>) -> Seq<char> {
    "po_inj1_"@ + p
}

/// Name of the second injection into pushout object `p`: `"po_inj2_"` then `p`.
pub open spec fn pushout_inj2_name(p: Seq<char>) -> Seq<char> {
    "po_inj2_"@ + p
}

/// The names of the projections and injections: `"pb_proj1_"`, `"pb_proj2_"`,
/// `"po_inj1_"` and `"po_inj2_"` followed by the object's name; the first and
/// second of each kind always differ.
pub proof fn law_limit_names(p: Seq<char>)
    ensures
        pullback_proj1_name(p) == "pb_proj1_"@ + p,
        pullback_proj2_name(p) == "pb_proj2_"@ + p,
        pushout_inj1_name(p) == "po_inj1_"@ + p,
        pushout_inj2_name(p) == "po_inj2_"@ + p,
        pullback_proj1_name(p) != pullback_proj2_name(p),
        pushout_inj1_name(p) != pushout_inj2_name(p),
{
    reveal_strlit("pb_proj1_");
    reveal_strlit("pb_proj2_");
    reveal_strlit("po_inj1_");
    reveal_strlit("po_inj2_");
    assert(pullback_proj1_name(p)[7] != pullback_proj2_name(p)[7]);
    assert(pushout_inj1_name(p)[6] != pushout_inj2_name(p)[6]);
}

/// The category after forming the pullback object `p` of `fa: A → C` and
/// `ga: B → C`: `p` is added, then the projections `p → A` and `p → B`.
pub open spec fn pullback_model(c: CategoryModel, fa: Arrow, ga: Arrow, p: Seq<char>) -> CategoryModel {
    c.with_object(p).with_morphism(
        Arrow { id: pullback_proj1_name(p), source: p, target: fa.source },
    ).with_morphism(Arrow { id: pullback_proj2_name(p), source: p, target: ga.source })
}

/// The category after forming the pushout object `p` of `fa: C → A` and
/// `ga: C → B`: `p` is added, then the injections `A → p` and `B → p`.
pub open spec fn pushout_model(c: CategoryModel, fa: Arrow, ga: Arrow, p: Seq<char>) -> CategoryModel {
    c.with_object(p).with_morphism(
        Arrow { id: pushout_inj1_name(p), source: fa.target, target: p },
    ).with_morphism(Arrow { id: pushout_inj2_name(p), source: ga.target, target: p })
}

/// Forming a pullback keeps a category coherent, and the projections close the
/// square: both start at the pullback object and end at the sources of the two
/// given arrows.
pub proof fn law_pullback_square(c: CategoryModel, fa: Arrow, ga: Arrow, p: Seq<char>)
    requires
        c.is_coherent(),
    ensures
        pullback_model(c, fa, ga, p).is_coherent(),
        pullback_model(c, fa, ga, p).objects.contains(p),
        pullback_model(c, fa, ga, p).morphisms.contains(
            Arrow { id: pullback_proj1_name(p), source: p, target: fa.source },
        ),
        pullback_model(c, fa, ga, p).morphisms.contains(
            Arrow { id: pullback_proj2_name(p), source: p, target: ga.source },
        ),
{
    let p1 = Arrow { id: pullback_proj1_name(p), source: p, target: fa.source };
    let p2 = Arrow { id: pullback_proj2_name(p), source: p, target: ga.source };
    let c1 = c.with_object(p);
    law_add_object_keeps_coherence(c, p);
    let c2 = c1.with_morphism(p1);
    law_add_morphism_keeps_coherence(c1, p1);
    law_add_morphism_keeps_coherence(c2, p2);
    let d = c2.with_morphism(p2);
    let k = choose|k: int| 0 <= k < c2.morphisms.len() && c2.morphisms[k] == p1;
    assert(d.morphisms[k] == p1);
    assert(c1.objects.contains(p));
    assert forall|o: Seq<char>| c1.objects.contains(o) implies d.objects.contains(o) by {
        let j = choose|j: int| 0 <= j < c1.objects.len() && c1.objects[j] == o;
        assert(c2.objects[j] == o);
        assert(d.objects[j] == o);
    }
}

/// Forming a pushout keeps a category coherent, and the injections close the
/// square: both end at the pushout object and start at the targets of the two
/// given arrows.
pub proof fn law_pushout_square(c: CategoryModel, fa: Arrow, ga: Arrow, p: Seq<char>)
    requires
        c.is_coherent(),
    ensures
        pushout_model(c, fa, ga, p).is_coherent(),
        pushout_model(c, fa, ga, p).objects.contains(p),
        pushout_model(c, fa, ga, p).morphisms.contains(
            Arrow { id: pushout_inj1_name(p), source: fa.target, target: p },
        ),
        pushout_model(c, fa, ga, p).morphisms.contains(
            Arrow { id: pushout_inj2_name(p), source: ga.target, target: p },
        ),
{
    let i1 = Arrow { id: pushout_inj1_name(p), source: fa.target, target: p };
    let i2 = Arrow { id: pushout_inj2_name(p), source: ga.target, target: p };
    let c1 = c.with_object(p);
    law_add_object_keeps_coherence(c, p);
    let c2 = c1.with_morphism(i1);
    law_add_morphism_keeps_coherence(c1, i1);
    law_add_morphism_keeps_coherence(c2, i2);
    let d = c2.with_morphism(i2);
    let k = choose|k: int| 0 <= k < c2.morphisms.len() && c2.morphisms[k] == i1;
    assert(d.morphisms[k] == i1);
    assert forall|o: Seq<char>| c1.objects.contains(o) implies d.objects.contains(o) by {
        let j = choose|j: int| 0 <= j < c1.objects.len() && c1.objects[j] == o;
        assert(c2.objects[j] == o);
        assert(d.objects[j] == o);
    }
}

/// Compute the pullback (fiber product) of the morphisms named `f` (`A → C`) and
/// `g` (`B → C`): adds the object `pullback_obj` and the projections
/// `pb_proj1_<obj>: obj → A` and `pb_proj2_<obj>: obj → B`, and returns their
/// names. Returns `None`, changing nothing, unless both morphisms exist. The two
/// morphisms must share their target.
pub fn pullback(cat: &mut Category, f: &str, g: &str, pullback_obj: &str) -> (r: Option<(String, String)>)
    requires
        match (old(cat)@.find(f@), old(cat)@.find(g@)) {
            (Some(fa), Some(ga)) => fa.target == ga.target,
            _ => true,
        },
    ensures
        old(cat).wf() ==> final(cat).wf(),
        match (old(cat)@.find(f@), old(cat)@.find(g@)) {
            (Some(fa), Some(ga)) => {
                &&& r matches Some((p1, p2))
                &&& p1@ == pullback_proj1_name(pullback_obj@)
                &&& p2@ == pullback_proj2_name(pullback_obj@)
                &&& final(cat)@ == pullback_model(old(cat)@, fa, ga, pullback_obj@)
            },
            _ => r is None && final(cat)@ == old(cat)@,
        },
        old(cat)@.is_coherent() ==> final(cat)@.is_coherent(),
{
    proof {
        if old(cat)@.is_coherent() {
            if let (Some(fa), Some(ga)) = (old(cat)@.find(f@), old(cat)@.find(g@)) {
                law_pullback_square(old(cat)@, fa, ga, pullback_obj@);
            }
        }
    }
    let f_morph = match cat.find_morphism(f) {
        Some(m) => m.duplicate(),
        None => return None,
    };
    let g_morph = match cat.find_morphism(g) {
        Some(m) => m.duplicate(),
        None => return None,
    };
    cat.add_object(pullback_obj);
    let p1_name = join_text("pb_proj1_", pullback_obj);
    let p2_name = join_text("pb_proj2_", pullback_obj);
    let p1 = Morphism::new(p1_name.as_str(), pullback_obj, f_morph.source.as_str());
    let p2 = Morphism::new(p2_name.as_str(), pullback_obj, g_morph.source.as_str());
    let p1_id = p1.id.clone();
    let p2_id = p2.id.clone();
    cat.add_morphism(p1);
    cat.add_morphism(p2);
    Some((p1_id, p2_id))
}

/// Compute the pushout of the morphisms named `f` (`C → A`) and `g` (`C → B`):
/// adds the object `pushout_obj` and the injections `po_inj1_<obj>: A → obj` and
/// `po_inj2_<obj>: B → obj`, and returns their names. Returns `None`, changing
/// nothing, unless both morphisms exist. The two morphisms must share their source.
pub fn pushout(cat: &mut Category, f: &str, g: &str, pushout_obj: &str) -> (r: Option<(String, String)>)
    requires
        match (old(cat)@.find(f@), old(cat)@.find(g@)) {
            (Some(fa), Some(ga)) => fa.source == ga.source,
            _ => true,
        },
    ensures
        old(cat).wf() ==> final(cat).wf(),
        match (old(cat)@.find(f@), old(cat)@.find(g@)) {
            (Some(fa), Some(ga)) => {
                &&& r matches Some((i1, i2))
                &&& i1@ == pushout_inj1_name(pushout_obj@)
                &&& i2@ == pushout_inj2_name(pushout_obj@)
                &&& final(cat)@ == pushout_model(old(cat)@, fa, ga, pushout_obj@)
            },
            _ => r is None && final(cat)@ == old(cat)@,
        },
        old(cat)@.is_coherent() ==> final(cat)@.is_coherent(),
{
    proof {
        if old(cat)@.is_coherent() {
            if let (Some(fa), Some(ga)) = (old(cat)@.find(f@), old(cat)@.find(g@)) {
                law_pushout_square(old(cat)@, fa, ga, pushout_obj@);
            }
        }
    }
    let f_morph = match cat.find_morphism(f) {
        Some(m) => m.duplicate(),
        None => return None,
    };
    let g_morph = match cat.find_morphism(g) {
        Some(m) => m.duplicate(),
        None => return None,
    };
    cat.add_object(pushout_obj);
    let i1_name = join_text("po_inj1_", pushout_obj);
    let i2_name = join_text("po_inj2_", pushout_obj);
    let i1 = Morphism::new(i1_name.as_str(), f_morph.target.as_str(), pushout_obj);
    let i2 = Morphism::new(i2_name.as_str(), g_morph.target.as_str(), pushout_obj);
    let i1_id = i1.id.clone();
    let i2_id = i2.id.clone();
    cat.add_morphism(i1);
    cat.add_morphism(i2);
    Some((i1_id, i2_id))
}

} // verus!
