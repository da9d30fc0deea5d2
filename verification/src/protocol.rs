//! Coordination protocols: registered agents with states, exchanging messages
//! that are morphisms of the protocol's category.

use vstd::prelude::*;
use crate::category::{Arrow, Category, CategoryModel, Morphism, identity_arrow, unmarked};
use crate::category_laws::{
    law_add_morphism_counts, law_add_morphism_keeps_coherence, law_add_object_keeps_coherence,
    law_add_object_keeps_counts,
};
use crate::names::join_text;
use crate::strmap::StrMap;

verus! {

/// The mathematical value of a coordination protocol.
pub struct ProtocolModel {
    pub name: Seq<char>,
    pub category: CategoryModel,
    pub agent_states: Map<Seq<char>, Seq<char>>,
}

/// Messages (arrows that are not identities of objects) sent by `agent`.
pub open spec fn sent_by(agent: Seq<char>) -> spec_fn((Arrow, bool)) -> bool {
    |e: (Arrow, bool)| e.0.source == agent && !e.1
}

/// Messages (arrows that are not identities of objects) received by `agent`.
pub open spec fn received_by(agent: Seq<char>) -> spec_fn((Arrow, bool)) -> bool {
    |e: (Arrow, bool)| e.0.target == agent && !e.1
}

/// The arrows of marked arrows, in order.
pub open spec fn arrows_of(es: Seq<(Arrow, bool)>) -> Seq<Arrow> {
    es.map_values(|e: (Arrow, bool)| e.0)
}

impl ProtocolModel {
    /// The protocol after registering agent `id` with `state`: `id` becomes an
    /// object of the category and its state is set.
    pub open spec fn with_agent(self, id: Seq<char>, state: Seq<char>) -> ProtocolModel {
        ProtocolModel {
            name: self.name,
            category: self.category.with_object(id),
            agent_states: self.agent_states.insert(id, state),
        }
    }

    /// The protocol after sending message `msg` from `from` to `to`.
    pub open spec fn with_message(self, msg: Seq<char>, from: Seq<char>, to: Seq<char>) -> ProtocolModel {
        ProtocolModel {
            name: self.name,
            category: self.category.with_morphism(Arrow { id: msg, source: from, target: to }),
            agent_states: self.agent_states,
        }
    }

    /// The protocol after setting the state of `agent`, if it is registered.
    pub open spec fn with_state(self, agent: Seq<char>, state: Seq<char>) -> ProtocolModel {
        if self.agent_states.contains_key(agent) {
            ProtocolModel {
                name: self.name,
                category: self.category,
                agent_states: self.agent_states.insert(agent, state),
            }
        } else {
            self
        }
    }

    /// The number of messages: arrows that are not identities of objects.
    pub open spec fn message_count(self) -> nat {
        self.category.added_count()
    }

    /// The category is coherent and every registered agent is one of its objects.
    pub open spec fn is_coherent(self) -> bool {
        &&& self.category.is_coherent()
        &&& forall|a: Seq<char>| #[trigger] self.agent_states.contains_key(a) ==> self.category.objects.contains(a)
    }
}

/// A coordination protocol modeled categorically.
#[derive(Clone)]
pub struct CoordinationProtocol {
    pub name: String,
    pub category: Category,
    /// Agent states, by agent.
    pub agent_states: StrMap<String>,
}

impl View for CoordinationProtocol {
    type V = ProtocolModel;

    open spec fn view(&self) -> ProtocolModel {
        ProtocolModel {
            name: self.name@,
            category: self.category@,
            agent_states: self.agent_states@.map_values(|s: String| s@),
        }
    }
}

impl CoordinationProtocol {
    /// Every morphism of the category carries an identity mark.
    pub open spec fn wf(&self) -> bool {
        self.category.wf()
    }

    /// Create a new coordination protocol named `name`; its category is named
    /// `name` followed by `"_cat"`.
    pub fn new(name: &str) -> (p: CoordinationProtocol)
        ensures
            p.wf(),
            p@ == (ProtocolModel {
                name: name@,
                category: CategoryModel {
                    name: name@ + "_cat"@,
                    objects: Seq::empty(),
                    morphisms: Seq::empty(),
                    composition: Map::empty(),
                    identities: Map::empty(),
                    identity_marks: Seq::empty(),
                },
                agent_states: Map::empty(),
            }),
            p@.is_coherent(),
    {
        let cat_name = join_text(name, "_cat");
        let p = CoordinationProtocol {
            name: name.to_owned(),
            category: Category::new(cat_name.as_str()),
            agent_states: StrMap::new(),
        };
        assert(p@.agent_states =~= Map::<Seq<char>, Seq<char>>::empty());
        p
    }

    /// Register agent `id` with initial `state` (re-registering replaces the state).
    pub fn register_agent(&mut self, id: &str, state: &str)
        ensures
            old(self).wf() ==> final(self).wf(),
            final(self)@ == old(self)@.with_agent(id@, state@),
            old(self)@.is_coherent() ==> final(self)@.is_coherent(),
    {
        proof {
            if old(self)@.is_coherent() {
                law_register_agent(old(self)@, id@, state@);
            }
        }
        self.category.add_object(id);
        self.agent_states.insert(id, state.to_owned());
        assert(self@.agent_states =~= old(self)@.agent_states.insert(id@, state@));
    }

    /// Send a message: a morphism named `msg_id` from `from` to `to`.
    pub fn send_message(&mut self, msg_id: &str, from: &str, to: &str)
        ensures
            old(self).wf() ==> final(self).wf(),
            final(self)@ == old(self)@.with_message(msg_id@, from@, to@),
            old(self)@.is_coherent() ==> final(self)@.is_coherent(),
    {
        proof {
            if old(self)@.is_coherent() {
                law_send_message(old(self)@, msg_id@, from@, to@);
            }
        }
        let morph = Morphism::new(msg_id, from, to);
        self.category.add_morphism(morph);
    }

    /// The state of an agent, if registered.
    pub fn get_state(&self, agent: &str) -> (r: Option<&String>)
        ensures
            match r {
                Some(s) => self@.agent_states.contains_key(agent@) && s@ == self@.agent_states[agent@],
                None => !self@.agent_states.contains_key(agent@),
            },
    {
        self.agent_states.get(agent)
    }

    /// Update the state of a registered agent; unknown agents are ignored.
    pub fn update_state(&mut self, agent: &str, state: &str)
        ensures
            old(self).wf() ==> final(self).wf(),
            final(self)@ == old(self)@.with_state(agent@, state@),
            old(self)@.is_coherent() ==> final(self)@.is_coherent(),
    {
        proof {
            if old(self)@.is_coherent() {
                law_update_state(old(self)@, agent@, state@);
            }
        }
        if self.agent_states.contains_key(agent) {
            self.agent_states.insert(agent, state.to_owned());
            assert(self@.agent_states =~= old(self)@.agent_states.insert(agent@, state@));
        }
    }

    /// All messages sent by an agent, in order.
    pub fn messages_from(&self, agent: &str) -> (r: Vec<&Morphism>)
        requires
            self.wf(),
        ensures
            r@.map_values(|m: &Morphism| m@) == arrows_of(self@.category.marked_arrows().filter(sent_by(agent@))),
    {
        let a = agent.to_owned();
        let ghost es = self@.category.marked_arrows();
        let mut r: Vec<&Morphism> = Vec::new();
        let mut i: usize = 0;
        while i < self.category.morphisms.len()
            invariant
                es == self@.category.marked_arrows(),
                self.wf(),
                i <= es.len(),
                a@ == agent@,
                r@.map_values(|m: &Morphism| m@) == arrows_of(es.take(i as int).filter(sent_by(agent@))),
            decreases es.len() - i,
        {
            let ghost prev = r@;
            let ghost before = es.take(i as int).filter(sent_by(agent@));
            assert(es.take(i + 1) =~= es.take(i as int).push(es[i as int]));
            proof {
                es.take(i as int).lemma_filter_push(es[i as int], sent_by(agent@));
                assert(arrows_of(before.push(es[i as int])) =~= arrows_of(before).push(es[i as int].0));
            }
            let m = &self.category.morphisms[i];
            if m.source == a && !self.category.identity_marks[i] {
                r.push(m);
                assert(r@.map_values(|m: &Morphism| m@) =~= prev.map_values(|m: &Morphism| m@).push(es[i as int].0));
            }
            i = i + 1;
        }
        assert(es.take(es.len() as int) =~= es);
        r
    }

    /// All messages received by an agent, in order.
    pub fn messages_to(&self, agent: &str) -> (r: Vec<&Morphism>)
        requires
            self.wf(),
        ensures
            r@.map_values(|m: &Morphism| m@) == arrows_of(self@.category.marked_arrows().filter(received_by(agent@))),
    {
        let a = agent.to_owned();
        let ghost es = self@.category.marked_arrows();
        let mut r: Vec<&Morphism> = Vec::new();
        let mut i: usize = 0;
        while i < self.category.morphisms.len()
            invariant
                es == self@.category.marked_arrows(),
                self.wf(),
                i <= es.len(),
                a@ == agent@,
                r@.map_values(|m: &Morphism| m@) == arrows_of(es.take(i as int).filter(received_by(agent@))),
            decreases es.len() - i,
        {
            let ghost prev = r@;
            let ghost before = es.take(i as int).filter(received_by(agent@));
            assert(es.take(i + 1) =~= es.take(i as int).push(es[i as int]));
            proof {
                es.take(i as int).lemma_filter_push(es[i as int], received_by(agent@));
                assert(arrows_of(before.push(es[i as int])) =~= arrows_of(before).push(es[i as int].0));
            }
            let m = &self.category.morphisms[i];
            if m.target == a && !self.category.identity_marks[i] {
                r.push(m);
                assert(r@.map_values(|m: &Morphism| m@) =~= prev.map_values(|m: &Morphism| m@).push(es[i as int].0));
            }
            i = i + 1;
        }
        assert(es.take(es.len() as int) =~= es);
        r
    }

    /// Number of registered agents.
    pub fn num_agents(&self) -> (n: usize)
        ensures
            n == self@.agent_states.len(),
    {
        assert(self@.agent_states.dom() =~= self.agent_states@.dom());
        self.agent_states.len()
    }

    /// Number of messages exchanged: every morphism sent, that is, every morphism
    /// of the category not created as an agent's identity.
    pub fn num_messages(&self) -> (n: usize)
        ensures
            n == self@.message_count(),
    {
        let ghost marks = self@.category.identity_marks;
        let mut n: usize = 0;
        let mut i: usize = 0;
        while i < self.category.identity_marks.len()
            invariant
                marks == self@.category.identity_marks,
                i <= marks.len(),
                n == marks.take(i as int).filter(unmarked()).len(),
                n <= i,
            decreases marks.len() - i,
        {
            assert(marks.take(i + 1) =~= marks.take(i as int).push(marks[i as int]));
            proof { marks.take(i as int).lemma_filter_push(marks[i as int], unmarked()); }
            if !self.category.identity_marks[i] {
                n = n + 1;
            }
            i = i + 1;
        }
        assert(marks.take(marks.len() as int) =~= marks);
        n
    }
}

/// The messages sent by and received by an agent, built up one morphism at a
/// time: no morphisms give no messages, and appending an arrow with its mark
/// appends it to the agent's sent (received) messages exactly when it starts
/// (ends) at the agent and is not marked as created for an object, whatever its
/// name.
pub proof fn law_messages_by_push(c: CategoryModel, a: Arrow, mark: bool, agent: Seq<char>)
    requires
        c.identity_marks.len() == c.morphisms.len(),
    ensures
        arrows_of((CategoryModel { morphisms: Seq::empty(), identity_marks: Seq::empty(), ..c }).marked_arrows().filter(
            sent_by(agent),
        )) == Seq::<Arrow>::empty(),
        arrows_of((CategoryModel { morphisms: Seq::empty(), identity_marks: Seq::empty(), ..c }).marked_arrows().filter(
            received_by(agent),
        )) == Seq::<Arrow>::empty(),
        arrows_of((CategoryModel { morphisms: c.morphisms.push(a), identity_marks: c.identity_marks.push(mark), ..c }).marked_arrows().filter(sent_by(agent)))
            == if a.source == agent && !mark {
            arrows_of(c.marked_arrows().filter(sent_by(agent))).push(a)
        } else {
            arrows_of(c.marked_arrows().filter(sent_by(agent)))
        },
        arrows_of((CategoryModel { morphisms: c.morphisms.push(a), identity_marks: c.identity_marks.push(mark), ..c }).marked_arrows().filter(received_by(agent)))
            == if a.target == agent && !mark {
            arrows_of(c.marked_arrows().filter(received_by(agent))).push(a)
        } else {
            arrows_of(c.marked_arrows().filter(received_by(agent)))
        },
{
    reveal(Seq::filter);
    let d = CategoryModel { morphisms: c.morphisms.push(a), identity_marks: c.identity_marks.push(mark), ..c };
    assert(d.marked_arrows() =~= c.marked_arrows().push((a, mark)));
    let e = CategoryModel { morphisms: Seq::empty(), identity_marks: Seq::empty(), ..c };
    assert(e.marked_arrows() =~= Seq::<(Arrow, bool)>::empty());
    assert(arrows_of(Seq::<(Arrow, bool)>::empty()) =~= Seq::<Arrow>::empty());
    c.marked_arrows().lemma_filter_push((a, mark), sent_by(agent));
    c.marked_arrows().lemma_filter_push((a, mark), received_by(agent));
    let fs = c.marked_arrows().filter(sent_by(agent));
    let fr = c.marked_arrows().filter(received_by(agent));
    assert(arrows_of(fs.push((a, mark))) =~= arrows_of(fs).push(a));
    assert(arrows_of(fr.push((a, mark))) =~= arrows_of(fr).push(a));
}

/// Sending a message makes it one of the sender's messages and one of the
/// receiver's, appended last, whatever its name.
pub proof fn law_sent_message_is_listed(p: ProtocolModel, msg: Seq<char>, from: Seq<char>, to: Seq<char>)
    requires
        p.category.identity_marks.len() == p.category.morphisms.len(),
    ensures
        arrows_of(p.with_message(msg, from, to).category.marked_arrows().filter(sent_by(from))).last()
            == (Arrow { id: msg, source: from, target: to }),
        arrows_of(p.with_message(msg, from, to).category.marked_arrows().filter(received_by(to))).last()
            == (Arrow { id: msg, source: from, target: to }),
{
    let m = Arrow { id: msg, source: from, target: to };
    let c2 = p.category.with_object(from).with_object(to);
    assert(c2.identity_marks.len() == c2.morphisms.len());
    law_messages_by_push(c2, m, false, from);
    law_messages_by_push(c2, m, false, to);
    assert(p.with_message(msg, from, to).category == CategoryModel {
        morphisms: c2.morphisms.push(m),
        identity_marks: c2.identity_marks.push(false),
        ..c2
    });
}

/// A new protocol is coherent.
pub proof fn law_new_protocol_is_coherent(p: ProtocolModel)
    requires
        p.category.objects == Seq::<Seq<char>>::empty(),
        p.category.morphisms == Seq::<Arrow>::empty(),
        p.category.identities == Map::<Seq<char>, Arrow>::empty(),
        p.category.identity_marks == Seq::<bool>::empty(),
        p.agent_states == Map::<Seq<char>, Seq<char>>::empty(),
    ensures
        p.is_coherent(),
{
    reveal(Seq::filter);
}

/// Registering an agent keeps a protocol coherent, makes the agent an object of
/// the category, and leaves the number of messages unchanged.
pub proof fn law_register_agent(p: ProtocolModel, id: Seq<char>, state: Seq<char>)
    requires
        p.is_coherent(),
    ensures
        p.with_agent(id, state).is_coherent(),
        p.with_agent(id, state).category.objects.contains(id),
        p.with_agent(id, state).message_count() == p.message_count(),
{
    law_add_object_keeps_coherence(p.category, id);
    law_add_object_keeps_counts(p.category, id);
    let q = p.with_agent(id, state);
    assert forall|a: Seq<char>| #[trigger] q.agent_states.contains_key(a) implies q.category.objects.contains(a) by {
        if a != id {
            assert(p.category.objects.contains(a));
            let j = choose|j: int| 0 <= j < p.category.objects.len() && p.category.objects[j] == a;
            assert(q.category.objects[j] == a);
        }
    }
}

/// The state of a registered agent reads back as written: after registering,
/// and after an update of a registered agent; updating an unregistered agent
/// changes nothing.
pub proof fn law_state_reads_back(p: ProtocolModel, id: Seq<char>, state: Seq<char>, next: Seq<char>)
    ensures
        p.with_agent(id, state).agent_states[id] == state,
        p.with_agent(id, state).with_state(id, next).agent_states[id] == next,
        !p.agent_states.contains_key(id) ==> p.with_state(id, next) == p,
        forall|other: Seq<char>| other != id ==> #[trigger] p.with_state(id, next).agent_states.contains_key(other)
            == p.agent_states.contains_key(other) && (p.agent_states.contains_key(other)
            ==> p.with_state(id, next).agent_states[other] == p.agent_states[other]),
{
}

/// Sending a message keeps a protocol coherent, makes both ends objects, adds
/// exactly one message whatever its name, and leaves the registered agents alone.
pub proof fn law_send_message(p: ProtocolModel, msg: Seq<char>, from: Seq<char>, to: Seq<char>)
    requires
        p.is_coherent(),
    ensures
        p.with_message(msg, from, to).is_coherent(),
        p.with_message(msg, from, to).category.objects.contains(from),
        p.with_message(msg, from, to).category.objects.contains(to),
        p.with_message(msg, from, to).message_count() == p.message_count() + 1,
        p.with_message(msg, from, to).agent_states == p.agent_states,
{
    let m = Arrow { id: msg, source: from, target: to };
    law_add_morphism_keeps_coherence(p.category, m);
    law_add_morphism_counts(p.category, m);
    let q = p.with_message(msg, from, to);
    let c1 = p.category.with_object(from);
    let c2 = c1.with_object(to);
    assert forall|a: Seq<char>| #[trigger] q.agent_states.contains_key(a) implies q.category.objects.contains(a) by {
        assert(p.category.objects.contains(a));
        let j = choose|j: int| 0 <= j < p.category.objects.len() && p.category.objects[j] == a;
        assert(c1.objects[j] == a);
        assert(c2.objects[j] == a);
        assert(q.category.objects[j] == a);
    }
}

/// In a coherent protocol every registered agent is an object of the category
/// and has its identity morphism `id_a: a → a`.
pub proof fn law_agents_have_identities(p: ProtocolModel, a: Seq<char>)
    requires
        p.is_coherent(),
        p.agent_states.contains_key(a),
    ensures
        p.category.objects.contains(a),
        p.category.identities.contains_key(a),
        p.category.identities[a] == identity_arrow(a),
{
    assert(p.category.objects.contains(a));
    assert(p.category.identities.contains_key(a));
}

/// Updating a state keeps a protocol coherent and leaves the category alone.
pub proof fn law_update_state(p: ProtocolModel, agent: Seq<char>, state: Seq<char>)
    requires
        p.is_coherent(),
    ensures
        p.with_state(agent, state).is_coherent(),
        p.with_state(agent, state).category == p.category,
{
}

} // verus!
