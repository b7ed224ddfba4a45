//! The add flow's core: the generational condition propagator.
//!
//! A parameter change rolls out to a main project and then to destinations in
//! sequence. The tracked map, seeded at generation zero from the source
//! document, records for each referenced condition the last destination
//! position where it was observed present; a destination processed at
//! position `g` receives exactly the tracked conditions whose generation is
//! still below `g` after re-observing that destination's live document.
use crate::entry_map::{find_key, lemma_find_key, EntryMap};
use crate::error::Error;
use crate::expression_builder::{app_id_subst, replace_app_id, subst_wf};
use crate::operator::views;
use crate::remote_config::{
    distinct_condition_names, has_condition_named, Condition, Parameter, RemoteConfig,
};
use vstd::prelude::*;

verus! {

/// Whether the parameter is being added anew or replaces an existing one.
#[derive(Clone, Copy, PartialEq, Debug)]
pub enum Action {
    Add,
    Update,
}

/// The add command's own inputs: the parameter name and description given on
/// the command line, if any. Transport and prompting happen outside.
pub struct AddCommand {
    pub name: Option<String>,
    pub description: Option<String>,
}

impl AddCommand {
    pub fn new(name: Option<String>, description: Option<String>) -> (r: AddCommand)
        ensures
            r.name == name,
            r.description == description,
    {
        AddCommand { name, description }
    }
}

/// A tracked condition: the position of the last destination it was observed
/// present in, and the condition as the source project stated it.
#[derive(Debug, Clone, PartialEq)]
pub struct GenerationalCondition {
    pub generation: usize,
    pub condition: Condition,
}

/// The names of a document's conditions.
pub open spec fn condition_names(conditions: Seq<Condition>) -> Set<Seq<char>> {
    Set::new(|n: Seq<char>| has_condition_named(conditions, n))
}

/// The tracked map's seed: every condition of the source document whose name
/// the parameter's conditional values reference, at generation zero, in
/// document order.
pub open spec fn seeded(conditions: Seq<Condition>, selected: Set<Seq<char>>) -> Seq<
    (String, GenerationalCondition),
>
    decreases conditions.len(),
{
    if conditions.len() == 0 {
        Seq::empty()
    } else {
        let rest = seeded(conditions.drop_last(), selected);
        if selected.contains(conditions.last().name@) {
            rest.push(
                (
                    conditions.last().name,
                    GenerationalCondition { generation: 0, condition: conditions.last() },
                ),
            )
        } else {
            rest
        }
    }
}

/// What each seeded entry looks like, and that every selected condition of
/// the document is seeded.
pub proof fn lemma_seeded_props(conditions: Seq<Condition>, selected: Set<Seq<char>>)
    ensures
        forall|e: int|
            0 <= e < seeded(conditions, selected).len() ==> {
                let entry = #[trigger] seeded(conditions, selected)[e];
                &&& entry.0@ == entry.1.condition.name@
                &&& entry.1.generation == 0
                &&& selected.contains(entry.0@)
                &&& exists|j: int|
                    0 <= j < conditions.len() && conditions[j] == entry.1.condition
            },
        forall|k: Seq<char>|
            #[trigger] selected.contains(k) && has_condition_named(conditions, k) ==> exists|
                e: int,
            |
                0 <= e < seeded(conditions, selected).len() && (#[trigger] seeded(
                    conditions,
                    selected,
                )[e]).0@ == k,
    decreases conditions.len(),
{
    if conditions.len() > 0 {
        lemma_seeded_props(conditions.drop_last(), selected);
        let rest = seeded(conditions.drop_last(), selected);
        assert forall|e: int| 0 <= e < rest.len() implies exists|j: int|
            0 <= j < conditions.len() && conditions[j] == (#[trigger] rest[e]).1.condition by {
            let j = choose|j: int|
                0 <= j < conditions.len() - 1 && conditions.drop_last()[j] == rest[e].1.condition;
            assert(conditions[j] == rest[e].1.condition);
        }
        assert forall|k: Seq<char>|
            #[trigger] selected.contains(k) && has_condition_named(conditions, k) implies exists|
            e: int,
        |
            0 <= e < seeded(conditions, selected).len() && (#[trigger] seeded(
                conditions,
                selected,
            )[e]).0@ == k by {
            let j = choose|j: int| 0 <= j < conditions.len() && conditions[j].name@ == k;
            if j == conditions.len() - 1 {
                let s = seeded(conditions, selected);
                assert(s[s.len() - 1].0@ == k);
            } else {
                assert(conditions.drop_last()[j].name@ == k);
                assert(has_condition_named(conditions.drop_last(), k));
                let e = choose|e: int| 0 <= e < rest.len() && rest[e].0@ == k;
                if selected.contains(conditions.last().name@) {
                    assert(seeded(conditions, selected)[e].0@ == k);
                } else {
                    assert(seeded(conditions, selected)[e].0@ == k);
                }
            }
        }
    }
}

impl RemoteConfig {
    /// Seeds the tracked map for a propagation run: the source document's
    /// conditions that the parameter's conditional values reference, each at
    /// generation zero.
    pub fn selected_conditions_map(&self, parameter: &Parameter) -> (r: EntryMap<
        GenerationalCondition,
    >)
        requires
            distinct_condition_names(self.conditions@),
        ensures
            r.wf(),
            r.entry_seq() == seeded(
                self.conditions@,
                parameter.conditional_values.as_map().dom(),
            ),
            keyed_by_condition_name(r.entry_seq()),
            forall|e: int|
                0 <= e < r.entry_seq().len() ==> (#[trigger] r.entry_seq()[e]).1.generation == 0
                    && exists|j: int|
                    0 <= j < self.conditions@.len() && self.conditions@[j] == r.entry_seq()[e]
                        .1
                        .condition,
    {
        let ghost selected = parameter.conditional_values.as_map().dom();
        let mut out: EntryMap<GenerationalCondition> = EntryMap::new();
        let mut i: usize = 0;
        proof {
            assert(self.conditions@.take(0) =~= Seq::<Condition>::empty());
        }
        while i < self.conditions.len()
            invariant
                i <= self.conditions@.len(),
                distinct_condition_names(self.conditions@),
                selected == parameter.conditional_values.as_map().dom(),
                out.wf(),
                out.entry_seq() == seeded(self.conditions@.take(i as int), selected),
                forall|e: int|
                    0 <= e < out.entry_seq().len() ==> exists|j: int|
                        0 <= j < i && (#[trigger] out.entry_seq()[e]).0@
                            == self.conditions@[j].name@,
            decreases self.conditions@.len() - i,
        {
            let ghost before = out.entry_seq();
            let condition = &self.conditions[i];
            if parameter.conditional_values.contains_key(condition.name.as_str()) {
                let entry_condition = condition.clone();
                let ghost key = condition.name@;
                proof {
                    lemma_find_key(out.entry_seq(), key);
                    if let Some(e) = find_key(out.entry_seq(), key) {
                        let j = choose|j: int|
                            0 <= j < i && out.entry_seq()[e].0@ == self.conditions@[j].name@;
                        assert(self.conditions@[j].name@ == self.conditions@[i as int].name@);
                        assert(false);
                    }
                }
                let name = condition.name.clone();
                out.insert(
                    name,
                    GenerationalCondition { generation: 0, condition: entry_condition },
                );
            }
            proof {
                let t = self.conditions@.take(i + 1);
                assert(t.drop_last() =~= self.conditions@.take(i as int));
                assert(t.last() == self.conditions@[i as int]);
                if selected.contains(self.conditions@[i as int].name@) {
                    assert(out.entry_seq() == seeded(self.conditions@.take(i as int), selected).push(
                        (
                            self.conditions@[i as int].name,
                            GenerationalCondition {
                                generation: 0,
                                condition: self.conditions@[i as int],
                            },
                        ),
                    ));
                }
            }
            i = i + 1;
        }
        proof {
            assert(self.conditions@.take(self.conditions@.len() as int) =~= self.conditions@);
            lemma_seeded_props(self.conditions@, selected);
        }
        out
    }
}

/// One tracked entry after re-observing a destination at position `g`: a
/// condition present there is now known present up to `g`.
pub open spec fn bump_entry(
    e: (String, GenerationalCondition),
    present: Set<Seq<char>>,
    g: usize,
) -> (String, GenerationalCondition) {
    if present.contains(e.0@) {
        (e.0, GenerationalCondition { generation: g, condition: e.1.condition })
    } else {
        e
    }
}

/// The whole tracked map after re-observing a destination.
pub open spec fn bumped(
    entries: Seq<(String, GenerationalCondition)>,
    present: Set<Seq<char>>,
    g: usize,
) -> Seq<(String, GenerationalCondition)> {
    entries.map_values(|e: (String, GenerationalCondition)| bump_entry(e, present, g))
}

/// The tracked entries a destination at position `g` still lacks.
pub open spec fn absent_entries(
    entries: Seq<(String, GenerationalCondition)>,
    g: usize,
) -> Seq<(String, GenerationalCondition)> {
    entries.filter(|e: (String, GenerationalCondition)| e.1.generation < g)
}

/// Every tracked entry is keyed by its condition's name.
pub open spec fn keyed_by_condition_name(entries: Seq<(String, GenerationalCondition)>) -> bool {
    forall|e: int| 0 <= e < entries.len() ==> (#[trigger] entries[e]).0@ == entries[e].1.condition.name@
}

/// What an appended condition looks like: the tracked condition with its
/// expression rewritten for the destination's application identifiers.
pub open spec fn substituted_condition(
    appended: Condition,
    entry: (String, GenerationalCondition),
    ids: Seq<Seq<char>>,
) -> bool {
    &&& appended.name == entry.1.condition.name
    &&& appended.tag_color == entry.1.condition.tag_color
    &&& app_id_subst(entry.1.condition.expression@, ids) == Some(appended.expression@)
}

impl RemoteConfig {
    /// One destination's step of a propagation run, the destination's live
    /// document being `self`, processed at sequential position `generation`.
    /// Every tracked condition present here is marked known-present; every
    /// tracked condition still unobserved up to this position is appended,
    /// its expression rewritten for this destination's application
    /// identifiers. When a rewrite fails, the document is left whole — no
    /// partial condition list survives — and the substitution error comes
    /// back; presence marks are kept either way.
    pub fn extend_conditions(
        &mut self,
        new_conditions: &mut EntryMap<GenerationalCondition>,
        generation: usize,
        app_ids: &Vec<String>,
    ) -> (r: Result<(), Error>)
        requires
            old(self).wf(),
            old(new_conditions).wf(),
            keyed_by_condition_name(old(new_conditions).entry_seq()),
            forall|e: int|
                0 <= e < old(new_conditions).entry_seq().len() ==> subst_wf(
                    (#[trigger] old(new_conditions).entry_seq()[e]).1.condition.expression@,
                    views(app_ids@),
                ),
        ensures
            final(new_conditions).entry_seq() == bumped(
                old(new_conditions).entry_seq(),
                condition_names(old(self).conditions@),
                generation,
            ),
            final(new_conditions).wf(),
            keyed_by_condition_name(final(new_conditions).entry_seq()),
            final(self).parameters == old(self).parameters,
            final(self).parameter_groups == old(self).parameter_groups,
            final(self).wf(),
            (r is Ok <==> forall|k: int|
                0 <= k < absent_entries(final(new_conditions).entry_seq(), generation).len()
                    ==> app_id_subst(
                    (#[trigger] absent_entries(final(new_conditions).entry_seq(), generation)[k])
                        .1
                        .condition
                        .expression@,
                    views(app_ids@),
                ) is Some),
            match r {
                Ok(_) => {
                    let absent = absent_entries(final(new_conditions).entry_seq(), generation);
                    &&& final(self).conditions@.len() == old(self).conditions@.len()
                        + absent.len()
                    &&& forall|j: int|
                        0 <= j < old(self).conditions@.len() ==> final(self).conditions@[j] == old(
                            self,
                        ).conditions@[j]
                    &&& forall|k: int|
                        0 <= k < absent.len() ==> substituted_condition(
                            #[trigger] final(self).conditions@[old(self).conditions@.len() + k],
                            absent[k],
                            views(app_ids@),
                        )
                },
                Err(_) => final(self).conditions == old(self).conditions,
            },
    {
        let ghost original = new_conditions.entry_seq();
        let ghost present = condition_names(self.conditions@);
        let tracked_len = new_conditions.len();
        let mut i: usize = 0;
        while i < tracked_len
            invariant
                i <= tracked_len,
                tracked_len == new_conditions.entry_seq().len(),
                original.len() == tracked_len,
                present == condition_names(self.conditions@),
                self == old(self),
                new_conditions.wf(),
                forall|e: int|
                    0 <= e < i ==> new_conditions.entry_seq()[e] == bump_entry(
                        #[trigger] original[e],
                        present,
                        generation,
                    ),
                forall|e: int|
                    i <= e < tracked_len ==> new_conditions.entry_seq()[e] == #[trigger] original[e],
            decreases tracked_len - i,
        {
            let entry = new_conditions.entry_at(i);
            let present_here = self.has_condition(entry.0.as_str());
            if present_here {
                let condition = entry.1.condition.clone();
                new_conditions.set_value_at(
                    i,
                    GenerationalCondition { generation, condition },
                );
            }
            proof {
                if present_here {
                    assert(present.contains(original[i as int].0@));
                } else {
                    assert(!present.contains(original[i as int].0@));
                }
            }
            i = i + 1;
        }
        proof {
            assert(new_conditions.entry_seq() =~= bumped(original, present, generation));
            assert(keyed_by_condition_name(new_conditions.entry_seq()));
        }
        let ghost b = new_conditions.entry_seq();
        let ghost ids = views(app_ids@);
        let mut appended: Vec<Condition> = Vec::new();
        let mut t: usize = 0;
        proof {
            reveal(Seq::filter);
            assert(b.take(0) =~= Seq::<(String, GenerationalCondition)>::empty());
            assert(appended@.len() == absent_entries(b.take(0), generation).len());
        }
        while t < tracked_len
            invariant
                t <= tracked_len,
                tracked_len == new_conditions.entry_seq().len(),
                b == new_conditions.entry_seq(),
                b == bumped(original, present, generation),
                original == old(new_conditions).entry_seq(),
                present == condition_names(old(self).conditions@),
                old(self).wf(),
                ids == views(app_ids@),
                new_conditions.wf(),
                self == old(self),
                forall|e: int|
                    0 <= e < b.len() ==> subst_wf(
                        (#[trigger] b[e]).1.condition.expression@,
                        ids,
                    ),
                keyed_by_condition_name(b),
                appended@.len() == absent_entries(b.take(t as int), generation).len(),
                forall|k: int|
                    0 <= k < appended@.len() ==> substituted_condition(
                        #[trigger] appended@[k],
                        absent_entries(b.take(t as int), generation)[k],
                        ids,
                    ),
            decreases tracked_len - t,
        {
            let entry = new_conditions.entry_at(t);
            if entry.1.generation < generation {
                let mut condition = entry.1.condition.clone();
                match replace_app_id(&mut condition.expression, app_ids) {
                    Err(error) => {
                        proof {
                            lemma_absent_contains(b, generation, t as int);
                            let absent = absent_entries(b, generation);
                            let k = choose|k: int|
                                0 <= k < absent.len() && #[trigger] absent[k] == b[t as int];
                            assert(app_id_subst(absent[k].1.condition.expression@, ids) is None);
                        }
                        return Err(error);
                    },
                    Ok(_) => {
                        appended.push(condition);
                    },
                }
            }
            proof {
                reveal(Seq::filter);
                let tk = b.take(t + 1);
                assert(tk.drop_last() =~= b.take(t as int));
                assert(tk.last() == b[t as int]);
            }
            t = t + 1;
        }
        proof {
            assert(b.take(tracked_len as int) =~= b);
            assert(absent_entries(b.take(tracked_len as int), generation) == absent_entries(
                b,
                generation,
            ));
        }
        let ghost old_conditions = self.conditions@;
        let ghost appended_view = appended@;
        self.conditions.append(&mut appended);
        proof {
            let absent = absent_entries(b, generation);
            assert(self.conditions@ == old_conditions + appended_view);
            assert forall|j: int| 0 <= j < old_conditions.len() implies self.conditions@[j]
                == old_conditions[j] by {}
            assert forall|k: int| 0 <= k < absent.len() implies substituted_condition(
                #[trigger] self.conditions@[old_conditions.len() + k],
                absent[k],
                ids,
            ) by {
                assert(self.conditions@[old_conditions.len() + k] == appended_view[k]);
            }
            assert forall|e: int|
                0 <= e < b.len() && (#[trigger] b[e]).1.generation < generation
                implies !has_condition_named(old(self).conditions@, b[e].0@) by {
                assert(b[e] == bump_entry(original[e], present, generation));
            }
            lemma_extended_wf(*old(self), *self, b, generation, ids);
            assert forall|k: int|
                0 <= k < absent_entries(b, generation).len() implies app_id_subst(
                (#[trigger] absent_entries(b, generation)[k]).1.condition.expression@,
                ids,
            ) is Some by {
                assert(substituted_condition(
                    self.conditions@[old_conditions.len() + k],
                    absent_entries(b, generation)[k],
                    ids,
                ));
            }
        }
        Ok(())
    }
}

/// The extended document keeps well-formedness: appended conditions come from
/// tracked entries a fresh observation left below the destination's position,
/// so their names are absent from the document and pairwise distinct.
proof fn lemma_extended_wf(
    old_self: RemoteConfig,
    new_self: RemoteConfig,
    b: Seq<(String, GenerationalCondition)>,
    generation: usize,
    ids: Seq<Seq<char>>,
)
    requires
        old_self.wf(),
        crate::entry_map::distinct_keys(b),
        keyed_by_condition_name(b),
        forall|e: int|
            0 <= e < b.len() ==> ((#[trigger] b[e]).1.generation < generation
                ==> !has_condition_named(old_self.conditions@, b[e].0@)),
        new_self.parameters == old_self.parameters,
        new_self.parameter_groups == old_self.parameter_groups,
        new_self.conditions@.len() == old_self.conditions@.len() + absent_entries(
            b,
            generation,
        ).len(),
        forall|j: int|
            0 <= j < old_self.conditions@.len() ==> new_self.conditions@[j]
                == old_self.conditions@[j],
        forall|k: int|
            0 <= k < absent_entries(b, generation).len() ==> substituted_condition(
                #[trigger] new_self.conditions@[old_self.conditions@.len() + k],
                absent_entries(b, generation)[k],
                ids,
            ),
    ensures
        new_self.wf(),
{
    let absent = absent_entries(b, generation);
    let n = old_self.conditions@.len() as int;
    assert forall|x: int, y: int|
        0 <= x < y < new_self.conditions@.len() implies new_self.conditions@[x].name@
        != new_self.conditions@[y].name@ by {
        if y < n {
            assert(old_self.conditions@[x].name@ != old_self.conditions@[y].name@);
        } else {
            let ky = y - n;
            assert(substituted_condition(new_self.conditions@[n + ky], absent[ky], ids));
            b.lemma_filter_pred(
                |e: (String, GenerationalCondition)| e.1.generation < generation,
                ky,
            );
            lemma_filter_member(b, generation, ky);
            let iy = choose|iy: int| 0 <= iy < b.len() && #[trigger] b[iy] == absent[ky];
            assert(new_self.conditions@[y].name@ == absent[ky].1.condition.name@);
            assert(absent[ky].0@ == absent[ky].1.condition.name@) by {
                assert(b[iy].0@ == b[iy].1.condition.name@);
            }
            if x < n {
                assert(absent[ky].1.generation < generation) by {
                    assert(b[iy].1.generation < generation
                        ==> !has_condition_named(old_self.conditions@, b[iy].0@));
                }
                assert(!has_condition_named(old_self.conditions@, absent[ky].0@));
                if new_self.conditions@[x].name@ == new_self.conditions@[y].name@ {
                    assert(old_self.conditions@[x].name@ == absent[ky].0@);
                    assert(has_condition_named(old_self.conditions@, absent[ky].0@));
                }
            } else {
                let kx = x - n;
                assert(substituted_condition(new_self.conditions@[n + kx], absent[kx], ids));
                assert(new_self.conditions@[x].name@ == absent[kx].1.condition.name@);
                lemma_filter_index_map(b, generation, kx, ky);
            }
        }
    }
    assert(distinct_condition_names(new_self.conditions@));
    assert(forall|g: int, name: Seq<char>|
        new_self.group_has(g, name) <==> old_self.group_has(g, name));
    assert forall|g: int, name: Seq<char>|
        new_self.group_has(g, name) implies !new_self.root_has(name) by {
        assert(old_self.group_has(g, name));
    }
    assert forall|g: int| 0 <= g < new_self.groups_len() implies (
    #[trigger] new_self.group_at(g)).parameters.wf() by {
        assert(old_self.group_at(g).parameters.wf());
    }
}

/// Two filtered positions of a distinct-keyed sequence name two different
/// conditions.
proof fn lemma_filter_index_map(
    b: Seq<(String, GenerationalCondition)>,
    generation: usize,
    kx: int,
    ky: int,
)
    requires
        crate::entry_map::distinct_keys(b),
        keyed_by_condition_name(b),
        0 <= kx < ky < absent_entries(b, generation).len(),
    ensures
        absent_entries(b, generation)[kx].1.condition.name@ != absent_entries(
            b,
            generation,
        )[ky].1.condition.name@,
    decreases b.len(),
{
    reveal(Seq::filter);
    let pred = |e: (String, GenerationalCondition)| e.1.generation < generation;
    let f = b.filter(pred);
    if b.len() > 0 {
        let fd = b.drop_last().filter(pred);
        assert(crate::entry_map::distinct_keys(b.drop_last())) by {
            assert(forall|a: int, c: int|
                0 <= a < c < b.len() - 1 ==> b.drop_last()[a].0@ != b.drop_last()[c].0@);
        }
        assert(keyed_by_condition_name(b.drop_last())) by {
            assert(forall|e: int|
                0 <= e < b.len() - 1 ==> (#[trigger] b.drop_last()[e]) == b[e]);
        }
        if pred(b.last()) {
            assert(f == fd.push(b.last()));
            if ky < fd.len() {
                lemma_filter_index_map(b.drop_last(), generation, kx, ky);
            } else {
                assert(ky == fd.len());
                assert(f[ky] == b.last());
                assert(kx < fd.len());
                lemma_filter_member(b.drop_last(), generation, kx);
                let ix = choose|ix: int|
                    0 <= ix < b.len() - 1 && #[trigger] b.drop_last()[ix] == fd[kx];
                assert(b[ix] == fd[kx]);
                assert(b[ix].0@ != b.last().0@);
                assert(b[ix].0@ == b[ix].1.condition.name@);
                assert(b.last().0@ == b.last().1.condition.name@) by {
                    assert(b[b.len() - 1].0@ == b[b.len() - 1].1.condition.name@);
                }
            }
        } else {
            assert(f == fd);
            lemma_filter_index_map(b.drop_last(), generation, kx, ky);
        }
    }
}

/// An entry below the destination's position is among the absent entries.
proof fn lemma_absent_contains(b: Seq<(String, GenerationalCondition)>, generation: usize, i: int)
    requires
        0 <= i < b.len(),
        b[i].1.generation < generation,
    ensures
        exists|k: int|
            0 <= k < absent_entries(b, generation).len() && #[trigger] absent_entries(
                b,
                generation,
            )[k] == b[i],
    decreases b.len(),
{
    reveal(Seq::filter);
    let f = absent_entries(b, generation);
    if b.len() > 0 {
        let fd = absent_entries(b.drop_last(), generation);
        if i == b.len() - 1 {
            assert(f[f.len() - 1] == b[i]);
        } else {
            assert(b.drop_last()[i] == b[i]);
            lemma_absent_contains(b.drop_last(), generation, i);
            let k = choose|k: int| 0 <= k < fd.len() && #[trigger] fd[k] == b[i];
            assert(f[k] == b[i]);
        }
    }
}

/// Each filtered entry is some entry of the original.
proof fn lemma_filter_member(b: Seq<(String, GenerationalCondition)>, generation: usize, k: int)
    requires
        0 <= k < absent_entries(b, generation).len(),
    ensures
        exists|i: int| 0 <= i < b.len() && #[trigger] b[i] == absent_entries(b, generation)[k],
    decreases b.len(),
{
    reveal(Seq::filter);
    let pred = |e: (String, GenerationalCondition)| e.1.generation < generation;
    let f = b.filter(pred);
    if b.len() > 0 {
        let fd = b.drop_last().filter(pred);
        if pred(b.last()) && k == fd.len() {
            assert(b[b.len() - 1] == f[k]);
        } else {
            lemma_filter_member(b.drop_last(), generation, k);
            let i = choose|i: int|
                0 <= i < b.len() - 1 && #[trigger] b.drop_last()[i] == absent_entries(
                    b.drop_last(),
                    generation,
                )[k];
            assert(b[i] == absent_entries(b, generation)[k]);
        }
    }
}

} // verus!
