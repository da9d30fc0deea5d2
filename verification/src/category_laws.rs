//! Laws of the category model: what the operations keep, and how they relate.

use vstd::prelude::*;
use crate::category::{Arrow, CategoryModel, between, first_with_id, identity_arrow, is_identity_arrow, marked, nontrivial, unmarked};
use crate::names::{id_prefix, identity_name, is_identity_name};

verus! {

broadcast use vstd::seq_lib::group_seq_properties;

/// The name of an identity arrow starts with `"id_"`.
pub proof fn law_identity_names_are_marked(obj: Seq<char>)
    ensures
        is_identity_name(identity_name(obj)),
{
    assert(identity_name(obj).subrange(0, 3) =~= id_prefix());
}

/// A new, empty category is coherent.
pub proof fn law_empty_is_coherent(name: Seq<char>)
    ensures
        (CategoryModel {
            name: name,
            objects: Seq::empty(),
            morphisms: Seq::empty(),
            composition: Map::empty(),
            identities: Map::empty(),
            identity_marks: Seq::empty(),
        }).is_coherent(),
{
    reveal(Seq::filter);
}

/// Adding an object keeps a category coherent; afterwards it is an object and
/// its identity is its identity arrow.
pub proof fn law_add_object_keeps_coherence(c: CategoryModel, obj: Seq<char>)
    requires
        c.is_coherent(),
    ensures
        c.with_object(obj).is_coherent(),
        c.with_object(obj).objects.contains(obj),
        c.with_object(obj).identities.contains_key(obj),
        c.with_object(obj).identities[obj] == identity_arrow(obj),
{
    let d = c.with_object(obj);
    if !c.objects.contains(obj) {
        c.identity_marks.lemma_filter_push(true, marked());
        assert forall|i: int| 0 <= i < d.morphisms.len() && #[trigger] d.identity_marks[i] implies
            d.morphisms[i] == identity_arrow(d.morphisms[i].source) by {
            if i < c.morphisms.len() {
                assert(c.identity_marks[i]);
            }
        }
        assert forall|i: int, j: int| 0 <= i < d.objects.len() && 0 <= j < d.objects.len() && i != j
            implies d.objects[i] != d.objects[j] by {
            if i == c.objects.len() {
                assert(c.objects.contains(d.objects[j]));
            } else if j == c.objects.len() {
                assert(c.objects.contains(d.objects[i]));
            }
        }
        assert forall|o: Seq<char>| #[trigger] d.objects.contains(o) implies d.morphisms.contains(identity_arrow(o)) by {
            if o != obj {
                assert(c.objects.contains(o));
            }
        }
        assert forall|i: int| 0 <= i < d.morphisms.len() implies {
            &&& d.objects.contains(#[trigger] d.morphisms[i].source)
            &&& d.objects.contains(d.morphisms[i].target)
        } by {
            if i < c.morphisms.len() {
                assert(c.objects.contains(c.morphisms[i].source));
                assert(c.objects.contains(c.morphisms[i].target));
            }
        }
    }
}

/// Adding an object keeps the identity laws: its identity arrow is exempt and the
/// composition table is unchanged.
pub proof fn law_add_object_keeps_identity_laws(c: CategoryModel, obj: Seq<char>)
    requires
        c.identity_laws_hold(),
    ensures
        c.with_object(obj).identity_laws_hold(),
{
    let d = c.with_object(obj);
    if !c.objects.contains(obj) {
        law_identity_names_are_marked(obj);
        assert forall|i: int| 0 <= i < d.morphisms.len() implies #[trigger] d.respects_identities(d.morphisms[i]) by {
            if i < c.morphisms.len() {
                assert(c.respects_identities(c.morphisms[i]));
            }
        }
    }
}

/// Adding the same object twice is the same as adding it once.
pub proof fn law_add_object_idempotent(c: CategoryModel, obj: Seq<char>)
    ensures
        c.with_object(obj).with_object(obj) == c.with_object(obj),
{
}

/// Adding an object adds no non-identity morphism and no added (unmarked) one.
pub proof fn law_add_object_keeps_counts(c: CategoryModel, obj: Seq<char>)
    ensures
        c.with_object(obj).nontrivial_count() == c.nontrivial_count(),
        c.with_object(obj).added_count() == c.added_count(),
{
    if !c.objects.contains(obj) {
        c.identity_marks.lemma_filter_push(true, unmarked());
        c.morphisms.lemma_filter_push(identity_arrow(obj), nontrivial());
    }
}

/// Adding a morphism keeps a category coherent; afterwards both its ends are
/// objects and it is among the morphisms.
pub proof fn law_add_morphism_keeps_coherence(c: CategoryModel, m: Arrow)
    requires
        c.is_coherent(),
    ensures
        c.with_morphism(m).is_coherent(),
        c.with_morphism(m).objects.contains(m.source),
        c.with_morphism(m).objects.contains(m.target),
        c.with_morphism(m).morphisms.contains(m),
{
    let c1 = c.with_object(m.source);
    law_add_object_keeps_coherence(c, m.source);
    let c2 = c1.with_object(m.target);
    law_add_object_keeps_coherence(c1, m.target);
    assert(c2.objects.contains(m.source));
    let d = c.with_morphism(m);
    assert(d.morphisms[d.morphisms.len() - 1] == m);
    c2.identity_marks.lemma_filter_push(false, marked());
    assert forall|i: int| 0 <= i < d.morphisms.len() && #[trigger] d.identity_marks[i] implies
        d.morphisms[i] == identity_arrow(d.morphisms[i].source) by {
        assert(c2.identity_marks[i]);
    }
    assert forall|i: int| 0 <= i < d.morphisms.len() implies {
        &&& d.objects.contains(#[trigger] d.morphisms[i].source)
        &&& d.objects.contains(d.morphisms[i].target)
    } by {
        if i < c2.morphisms.len() {
            assert(c2.objects.contains(c2.morphisms[i].source));
            assert(c2.objects.contains(c2.morphisms[i].target));
        }
    }
    assert forall|o: Seq<char>| #[trigger] d.objects.contains(o) implies d.morphisms.contains(identity_arrow(o)) by {
        assert(c2.morphisms.contains(identity_arrow(o)));
    }
}

/// Adding a morphism adds exactly one added (unmarked) morphism, whatever it is,
/// and one non-identity morphism unless it is an identity arrow.
pub proof fn law_add_morphism_counts(c: CategoryModel, m: Arrow)
    ensures
        c.with_morphism(m).added_count() == c.added_count() + 1,
        c.with_morphism(m).nontrivial_count() == c.nontrivial_count() + if is_identity_arrow(m) {
            0int
        } else {
            1int
        },
{
    let c1 = c.with_object(m.source);
    let c2 = c1.with_object(m.target);
    law_add_object_keeps_counts(c, m.source);
    law_add_object_keeps_counts(c1, m.target);
    c2.identity_marks.lemma_filter_push(false, unmarked());
    c2.morphisms.lemma_filter_push(m, nontrivial());
}

/// Whether `compose(f, g, h)` appends a morphism to `c`: both named morphisms
/// exist and the composite arrow is not already a morphism.
pub open spec fn compose_appends(c: CategoryModel, f: Seq<char>, g: Seq<char>, h: Seq<char>) -> bool {
    match (c.find(f), c.find(g)) {
        (Some(fa), Some(ga)) => !c.morphisms.contains(CategoryModel::composite_arrow(fa, ga, h)),
        _ => false,
    }
}

/// Composing adds one added (unmarked) morphism exactly when it appends one; a
/// recorded composite that is already a morphism adds nothing.
pub proof fn law_compose_counts(c: CategoryModel, f: Seq<char>, g: Seq<char>, h: Seq<char>)
    ensures
        c.with_composite(f, g, h).added_count() == c.added_count() + if compose_appends(c, f, g, h) {
            1int
        } else {
            0int
        },
        c.with_composite(f, g, h).morphisms.len() == c.morphisms.len() + if compose_appends(c, f, g, h) {
            1int
        } else {
            0int
        },
{
    c.identity_marks.lemma_filter_push(false, unmarked());
}

/// Appending to a sequence keeps the first arrow with a name that was already
/// present.
proof fn lemma_find_after_push(ms: Seq<Arrow>, a: Arrow, id: Seq<char>)
    requires
        first_with_id(ms, id) is Some,
    ensures
        first_with_id(ms.push(a), id) == first_with_id(ms, id),
    decreases ms.len(),
{
    assert(ms.push(a)[0] == ms[0]);
    if ms[0].id != id {
        assert(ms.push(a).drop_first() =~= ms.drop_first().push(a));
        lemma_find_after_push(ms.drop_first(), a, id);
    }
}

/// Recording the same composite twice changes nothing more than recording it once.
pub proof fn law_compose_idempotent(c: CategoryModel, f: Seq<char>, g: Seq<char>, h: Seq<char>)
    ensures
        c.with_composite(f, g, h).with_composite(f, g, h) == c.with_composite(f, g, h),
{
    let d = c.with_composite(f, g, h);
    if let (Some(fa), Some(ga)) = (c.find(f), c.find(g)) {
        let a = CategoryModel::composite_arrow(fa, ga, h);
        if !c.morphisms.contains(a) {
            lemma_find_after_push(c.morphisms, a, f);
            lemma_find_after_push(c.morphisms, a, g);
            assert(d.morphisms[d.morphisms.len() - 1] == a);
        }
        assert(d.find(f) == Some(fa));
        assert(d.find(g) == Some(ga));
        assert(d.morphisms.contains(a));
        assert(d.composition.insert((f, g), h) =~= d.composition);
    }
}

/// The first arrow with a given name is one of the morphisms, has that name, and
/// no morphism before it has that name; there is none exactly when no morphism
/// has that name.
pub proof fn law_find_is_first_member(ms: Seq<Arrow>, id: Seq<char>)
    ensures
        match first_with_id(ms, id) {
            Some(a) => ms.contains(a) && a.id == id && exists|i: int|
                0 <= i < ms.len() && #[trigger] ms[i] == a && forall|j: int| 0 <= j < i ==> ms[j].id != id,
            None => forall|i: int| 0 <= i < ms.len() ==> #[trigger] ms[i].id != id,
        },
    decreases ms.len(),
{
    if ms.len() > 0 && ms[0].id != id {
        let rest = ms.drop_first();
        law_find_is_first_member(rest, id);
        match first_with_id(rest, id) {
            Some(a) => {
                let k = choose|k: int|
                    0 <= k < rest.len() && #[trigger] rest[k] == a && forall|j: int| 0 <= j < k ==> rest[j].id != id;
                assert(ms[k + 1] == a);
                assert forall|j: int| 0 <= j < k + 1 implies ms[j].id != id by {
                    if j > 0 {
                        assert(rest[j - 1] == ms[j]);
                    }
                }
            },
            None => {
                assert forall|i: int| 0 <= i < ms.len() implies #[trigger] ms[i].id != id by {
                    if i > 0 {
                        assert(rest[i - 1] == ms[i]);
                    }
                }
            },
        }
    } else if ms.len() > 0 {
        assert(ms[0] == ms[0]);
    }
}

/// Finding by name, built up one morphism at a time: nothing is found among no
/// morphisms, and appending an arrow keeps an earlier match, or else finds the
/// new arrow exactly when it has the name.
pub proof fn law_find_by_push(ms: Seq<Arrow>, a: Arrow, id: Seq<char>)
    ensures
        first_with_id(Seq::<Arrow>::empty(), id) is None,
        first_with_id(ms.push(a), id) == match first_with_id(ms, id) {
            Some(x) => Some(x),
            None => if a.id == id {
                Some(a)
            } else {
                None
            },
        },
    decreases ms.len(),
{
    assert(ms.push(a)[0] == if ms.len() == 0 { a } else { ms[0] });
    if ms.len() == 0 {
        assert(ms.push(a).drop_first() =~= Seq::<Arrow>::empty());
    } else if ms[0].id != id {
        assert(ms.push(a).drop_first() =~= ms.drop_first().push(a));
        law_find_by_push(ms.drop_first(), a, id);
    }
}

/// Composing changes the composition table at the pair `(f, g)` only: every other
/// recorded composite keeps its value and nothing else is recorded; when some
/// morphisms are named `f` and `g`, `f ∘ g` is recorded as `h`, and otherwise
/// nothing changes at all.
pub proof fn law_compose_updates_one_pair(c: CategoryModel, f: Seq<char>, g: Seq<char>, h: Seq<char>)
    ensures
        forall|k: (Seq<char>, Seq<char>)| k != (f, g) ==> (#[trigger] c.with_composite(f, g, h).composition.contains_key(k)
            == c.composition.contains_key(k) && (c.composition.contains_key(k)
            ==> c.with_composite(f, g, h).composition[k] == c.composition[k])),
        (exists|i: int| 0 <= i < c.morphisms.len() && #[trigger] c.morphisms[i].id == f)
            && (exists|j: int| 0 <= j < c.morphisms.len() && #[trigger] c.morphisms[j].id == g)
            ==> c.with_composite(f, g, h).composition.contains_key((f, g))
                && c.with_composite(f, g, h).composition[(f, g)] == h,
        !(exists|i: int| 0 <= i < c.morphisms.len() && #[trigger] c.morphisms[i].id == f)
            || !(exists|j: int| 0 <= j < c.morphisms.len() && #[trigger] c.morphisms[j].id == g)
            ==> c.with_composite(f, g, h) == c,
        c.with_composite(f, g, h).objects == c.objects,
        c.with_composite(f, g, h).identities == c.identities,
        c.morphisms.is_prefix_of(c.with_composite(f, g, h).morphisms),
{
    law_find_is_first_member(c.morphisms, f);
    law_find_is_first_member(c.morphisms, g);
}

/// The identity laws, checked for every morphism wherever it stands: when they
/// hold, any morphism `m` that is not a loop named like an identity has
/// `m ∘ id_source = m` and `id_target ∘ m = m` wherever these are recorded.
pub proof fn law_identity_laws_cover_every_morphism(c: CategoryModel, m: Arrow)
    requires
        c.identity_laws_hold(),
        c.morphisms.contains(m),
        !(m.source == m.target && is_identity_name(m.id)),
    ensures
        c.composition.contains_key((m.id, identity_name(m.source)))
            ==> c.composition[(m.id, identity_name(m.source))] == m.id,
        c.composition.contains_key((identity_name(m.target), m.id))
            ==> c.composition[(identity_name(m.target), m.id)] == m.id,
{
    let i = choose|i: int| 0 <= i < c.morphisms.len() && c.morphisms[i] == m;
    assert(c.respects_identities(c.morphisms[i]));
}

/// Conversely, when every morphism (but loops named like identities) is neutral
/// for the identities of its ends wherever that is recorded, the identity laws
/// hold.
pub proof fn law_identity_laws_from_every_morphism(c: CategoryModel)
    requires
        forall|m: Arrow| #[trigger] c.morphisms.contains(m) && !(m.source == m.target && is_identity_name(m.id)) ==> {
            &&& c.composition.contains_key((m.id, identity_name(m.source)))
                ==> c.composition[(m.id, identity_name(m.source))] == m.id
            &&& c.composition.contains_key((identity_name(m.target), m.id))
                ==> c.composition[(identity_name(m.target), m.id)] == m.id
        },
    ensures
        c.identity_laws_hold(),
{
    assert forall|i: int| 0 <= i < c.morphisms.len() implies #[trigger] c.respects_identities(c.morphisms[i]) by {
        assert(c.morphisms.contains(c.morphisms[i]));
    }
}

/// The hom-set from `s` to `t` holds exactly the morphisms from `s` to `t`
/// (endomorphisms included when `s == t`), each as often as it occurs and in the
/// order of the morphisms: no morphisms give an empty hom-set, and appending an
/// arrow appends it to the hom-set exactly when it runs from `s` to `t`.
pub proof fn law_hom_by_push(c: CategoryModel, a: Arrow, s: Seq<char>, t: Seq<char>)
    ensures
        (CategoryModel { morphisms: Seq::empty(), ..c }).hom(s, t) == Seq::<Arrow>::empty(),
        (CategoryModel { morphisms: c.morphisms.push(a), ..c }).hom(s, t) == if a.source == s && a.target == t {
            c.hom(s, t).push(a)
        } else {
            c.hom(s, t)
        },
{
    reveal(Seq::filter);
    c.morphisms.lemma_filter_push(a, between(s, t));
}

/// Membership in the hom-set: a morphism is in `hom(s, t)` exactly when it is one
/// of the morphisms and runs from `s` to `t`.
pub proof fn law_hom_members(c: CategoryModel, s: Seq<char>, t: Seq<char>, m: Arrow)
    ensures
        c.hom(s, t).contains(m) <==> (c.morphisms.contains(m) && m.source == s && m.target == t),
        c.hom(s, t).len() <= c.morphisms.len(),
{
    broadcast use vstd::seq_lib::group_filter_ensures;
    if c.hom(s, t).contains(m) {
        c.morphisms.lemma_filter_contains_rev(between(s, t), m);
        let i = choose|i: int| 0 <= i < c.hom(s, t).len() && c.hom(s, t)[i] == m;
        c.morphisms.lemma_filter_pred(between(s, t), i);
    }
    if c.morphisms.contains(m) && m.source == s && m.target == t {
        let i = choose|i: int| 0 <= i < c.morphisms.len() && c.morphisms[i] == m;
        c.morphisms.lemma_filter_contains(between(s, t), i);
    }
    c.morphisms.lemma_filter_len(between(s, t));
}

/// The counts, built up one morphism at a time: with no morphisms both are zero;
/// appending an arrow adds one to the non-identity count unless it is an identity
/// arrow (`"id_"+o` from `o` to `o`), and adds one to the added count exactly when
/// it is not marked as created for an object.
pub proof fn law_counts_by_push(c: CategoryModel, a: Arrow, mark: bool)
    ensures
        (CategoryModel { morphisms: Seq::empty(), identity_marks: Seq::empty(), ..c }).nontrivial_count() == 0,
        (CategoryModel { morphisms: Seq::empty(), identity_marks: Seq::empty(), ..c }).added_count() == 0,
        (CategoryModel { morphisms: c.morphisms.push(a), ..c }).nontrivial_count() == c.nontrivial_count()
            + if a.id == identity_name(a.source) && a.target == a.source {
            0int
        } else {
            1int
        },
        (CategoryModel { identity_marks: c.identity_marks.push(mark), ..c }).added_count() == c.added_count()
            + if mark {
            0int
        } else {
            1int
        },
{
    reveal(Seq::filter);
    c.morphisms.lemma_filter_push(a, nontrivial());
    c.identity_marks.lemma_filter_push(mark, unmarked());
}

/// After a morphism is added, some morphism with its name can be found.
pub proof fn law_added_morphism_is_found(c: CategoryModel, m: Arrow)
    ensures
        c.with_morphism(m).find(m.id) is Some,
{
    let d = c.with_morphism(m);
    law_find_is_first_member(d.morphisms, m.id);
    assert(d.morphisms[d.morphisms.len() - 1].id == m.id);
}

/// Composing keeps a category coherent.
pub proof fn law_compose_keeps_coherence(c: CategoryModel, f: Seq<char>, g: Seq<char>, h: Seq<char>)
    requires
        c.is_coherent(),
    ensures
        c.with_composite(f, g, h).is_coherent(),
{
    let d = c.with_composite(f, g, h);
    if let (Some(fa), Some(ga)) = (c.find(f), c.find(g)) {
        c.identity_marks.lemma_filter_push(false, marked());
        assert forall|i: int| 0 <= i < d.morphisms.len() && #[trigger] d.identity_marks[i] implies
            d.morphisms[i] == identity_arrow(d.morphisms[i].source) by {
            assert(c.identity_marks[i]);
        }
        law_find_is_first_member(c.morphisms, f);
        law_find_is_first_member(c.morphisms, g);
        let kf = choose|k: int| 0 <= k < c.morphisms.len() && c.morphisms[k] == fa;
        let kg = choose|k: int| 0 <= k < c.morphisms.len() && c.morphisms[k] == ga;
        assert(c.objects.contains(c.morphisms[kf].source));
        assert(c.objects.contains(c.morphisms[kf].target));
        assert(c.objects.contains(c.morphisms[kg].source));
        assert forall|i: int| 0 <= i < d.morphisms.len() implies {
            &&& d.objects.contains(#[trigger] d.morphisms[i].source)
            &&& d.objects.contains(d.morphisms[i].target)
        } by {
            if i < c.morphisms.len() {
                assert(c.objects.contains(c.morphisms[i].source));
                assert(c.objects.contains(c.morphisms[i].target));
            }
        }
        assert forall|o: Seq<char>| #[trigger] d.objects.contains(o) implies d.morphisms.contains(identity_arrow(o)) by {
            assert(c.morphisms.contains(identity_arrow(o)));
        }
    }
}

/// Composition follows the arrows: when `g: A → B` and `f: B → C` are the first
/// morphisms so named, `f ∘ g` is recorded as `h`, and afterwards `h: A → C` is a
/// morphism, appended only if it was not one already.
pub proof fn law_composite_spans_both(
    c: CategoryModel,
    f: Seq<char>,
    g: Seq<char>,
    h: Seq<char>,
    fa: Arrow,
    ga: Arrow,
)
    requires
        c.find(f) == Some(fa),
        c.find(g) == Some(ga),
        ga.target == fa.source,
    ensures
        c.with_composite(f, g, h).composition[(f, g)] == h,
        c.with_composite(f, g, h).morphisms.contains(Arrow { id: h, source: ga.source, target: fa.target }),
        c.with_composite(f, g, h).morphisms.len() == c.morphisms.len() + if c.morphisms.contains(
            Arrow { id: h, source: ga.source, target: fa.target },
        ) {
            0int
        } else {
            1int
        },
{
    let a = Arrow { id: h, source: ga.source, target: fa.target };
    let d = c.with_composite(f, g, h);
    if !c.morphisms.contains(a) {
        assert(d.morphisms[d.morphisms.len() - 1] == a);
    }
}

/// Nothing is ever removed: adding objects, morphisms and composites keeps the
/// earlier objects and morphisms as a prefix, in order; adding a morphism leaves
/// the composition table alone and composing leaves objects and identities alone.
pub proof fn law_operations_only_append(c: CategoryModel, obj: Seq<char>, m: Arrow, f: Seq<char>, g: Seq<char>, h: Seq<char>)
    ensures
        c.objects.is_prefix_of(c.with_object(obj).objects),
        c.morphisms.is_prefix_of(c.with_object(obj).morphisms),
        c.identity_marks.is_prefix_of(c.with_object(obj).identity_marks),
        c.objects.is_prefix_of(c.with_morphism(m).objects),
        c.morphisms.is_prefix_of(c.with_morphism(m).morphisms),
        c.identity_marks.is_prefix_of(c.with_morphism(m).identity_marks),
        c.with_morphism(m).composition == c.composition,
        c.objects == c.with_composite(f, g, h).objects,
        c.morphisms.is_prefix_of(c.with_composite(f, g, h).morphisms),
        c.identity_marks.is_prefix_of(c.with_composite(f, g, h).identity_marks),
        c.identities == c.with_composite(f, g, h).identities,
{
    let c1 = c.with_object(m.source);
    let c2 = c1.with_object(m.target);
    let d = c.with_morphism(m);
    assert(c.objects.is_prefix_of(c1.objects));
    assert(c1.objects.is_prefix_of(c2.objects));
    assert(c.morphisms.is_prefix_of(c1.morphisms));
    assert(c1.morphisms.is_prefix_of(c2.morphisms));
    assert(c2.morphisms.is_prefix_of(d.morphisms));
    assert(c.objects.is_prefix_of(d.objects));
    assert(c.identity_marks.is_prefix_of(c1.identity_marks));
    assert(c1.identity_marks.is_prefix_of(c2.identity_marks));
    assert(c2.identity_marks.is_prefix_of(d.identity_marks));
    assert(c.identity_marks.is_prefix_of(d.identity_marks));
    assert(c.morphisms.is_prefix_of(d.morphisms));
}

/// Every mark is either an identity mark or not.
proof fn lemma_marks_split(marks: Seq<bool>)
    ensures
        marks.filter(marked()).len() + marks.filter(unmarked()).len() == marks.len(),
    decreases marks.len(),
{
    if marks.len() > 0 {
        let init = marks.drop_last();
        lemma_marks_split(init);
        assert(init.push(marks.last()) =~= marks);
        init.lemma_filter_push(marks.last(), marked());
        init.lemma_filter_push(marks.last(), unmarked());
    } else {
        reveal(Seq::filter);
    }
}

/// In a coherent category the added (unmarked) morphisms are all morphisms but
/// one identity per object.
pub proof fn law_added_count_in_coherent(c: CategoryModel)
    requires
        c.is_coherent(),
    ensures
        c.added_count() + c.objects.len() == c.morphisms.len(),
{
    lemma_marks_split(c.identity_marks);
}

/// In a coherent category every object has its identity arrow `id_A: A → A`.
pub proof fn law_objects_have_identities(c: CategoryModel, obj: Seq<char>)
    requires
        c.is_coherent(),
        c.objects.contains(obj),
    ensures
        c.identities.contains_key(obj),
        c.identities[obj] == identity_arrow(obj),
        c.morphisms.contains(identity_arrow(obj)),
{
    assert(c.identities.contains_key(obj));
}

} // verus!
