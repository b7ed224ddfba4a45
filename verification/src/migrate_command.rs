//! The migrate flow: copy parameters one project has and another lacks.
//!
//! Conditions are never migrated: only default value, description and type
//! carry over, and the originating group membership is preserved, creating
//! the destination group (with its description) when it does not exist yet.
use crate::config::Project;
use crate::entry_map::{lemma_map_of_contains, lemma_map_of_get, EntryMap};
use crate::error::Error;
use crate::remote_config::{Parameter, ParameterValue, RemoteConfig};
use crate::strings::{clone_opt_string, contains_name, name_in_list, str_eq};
use vstd::prelude::*;

verus! {

/// A parameter the destination lacks, ready for insertion there.
pub struct NewParameter {
    pub group: Option<NewParameterGroup>,
    pub name: String,
    pub parameter: Parameter,
}

/// The originating group of a migrated parameter.
pub struct NewParameterGroup {
    pub name: String,
    pub description: Option<String>,
}

/// What the delta promises of each of its entries, against the source
/// document and the destination's existing names.
pub open spec fn new_parameter_ok(
    config: RemoteConfig,
    existing: Seq<String>,
    np: NewParameter,
) -> bool {
    &&& config.has_param(np.name@)
    &&& !contains_name(existing, np.name@)
    &&& np.parameter.default_value == config.param_at(np.name@).default_value
    &&& np.parameter.description == config.param_at(np.name@).description
    &&& np.parameter.value_type == config.param_at(np.name@).value_type
    &&& np.parameter.conditional_values.entry_seq() == Seq::<(String, ParameterValue)>::empty()
    &&& np.parameter.conditional_values.wf()
    &&& match np.group {
        None => config.root_has(np.name@),
        Some(gi) => exists|g: int|
            #[trigger] config.group_has(g, np.name@) && config.group_name_at(g) == gi.name@
                && config.group_at(g).description == gi.description,
    }
}

impl RemoteConfig {
    /// Every parameter name in use anywhere: root and every group.
    pub fn existing_parameter_names(&self) -> (r: Vec<String>)
        ensures
            forall|k: Seq<char>| contains_name(r@, k) <==> self.has_param(k),
    {
        let mut out: Vec<String> = Vec::new();
        let root_len = self.parameters.len();
        let mut t: usize = 0;
        while t < root_len
            invariant
                t <= root_len,
                root_len == self.parameters.entry_seq().len(),
                out@.len() == t,
                forall|j: int| 0 <= j < t ==> out@[j]@ == self.parameters.entry_seq()[j].0@,
            decreases root_len - t,
        {
            out.push(self.parameters.entry_at(t).0.clone());
            t = t + 1;
        }
        proof {
            assert forall|j: int| 0 <= j < out@.len() implies self.has_param(out@[j]@) by {
                lemma_map_of_contains(self.parameters.entry_seq(), out@[j]@);
            }
            assert forall|k: Seq<char>| self.root_has(k) implies contains_name(out@, k) by {
                lemma_map_of_contains(self.parameters.entry_seq(), k);
                let j = choose|j: int|
                    0 <= j < self.parameters.entry_seq().len()
                        && self.parameters.entry_seq()[j].0@ == k;
                assert(out@[j]@ == k);
            }
        }
        let group_count = self.parameter_groups.len();
        let mut g: usize = 0;
        while g < group_count
            invariant
                g <= group_count,
                group_count == self.groups_len(),
                forall|j: int| 0 <= j < out@.len() ==> self.has_param(out@[j]@),
                forall|k: Seq<char>| self.root_has(k) ==> contains_name(out@, k),
                forall|g2: int, k: Seq<char>|
                    0 <= g2 < g && #[trigger] self.group_has(g2, k) ==> contains_name(out@, k),
            decreases group_count - g,
        {
            let group_len = self.parameter_groups.entry_at(g).1.parameters.len();
            let mut t2: usize = 0;
            while t2 < group_len
                invariant
                    g < group_count,
                    group_count == self.groups_len(),
                    t2 <= group_len,
                    group_len == self.group_at(g as int).parameters.entry_seq().len(),
                    forall|j: int| 0 <= j < out@.len() ==> self.has_param(out@[j]@),
                    forall|k: Seq<char>| self.root_has(k) ==> contains_name(out@, k),
                    forall|g2: int, k: Seq<char>|
                        0 <= g2 < g && #[trigger] self.group_has(g2, k) ==> contains_name(out@, k),
                    forall|j: int|
                        0 <= j < t2 ==> contains_name(
                            out@,
                            self.group_at(g as int).parameters.entry_seq()[j].0@,
                        ),
                decreases group_len - t2,
            {
                let ghost before = out@;
                out.push(self.parameter_groups.entry_at(g).1.parameters.entry_at(t2).0.clone());
                proof {
                    let key = self.group_at(g as int).parameters.entry_seq()[t2 as int].0@;
                    lemma_map_of_contains(self.group_at(g as int).parameters.entry_seq(), key);
                    assert(self.group_has(g as int, key));
                    assert(out@[out@.len() - 1]@ == key);
                    assert forall|k: Seq<char>| contains_name(before, k) implies contains_name(
                        out@,
                        k,
                    ) by {
                        let j = choose|j: int| 0 <= j < before.len() && before[j]@ == k;
                        assert(out@[j]@ == k);
                    }
                }
                t2 = t2 + 1;
            }
            proof {
                assert forall|k: Seq<char>| #[trigger] self.group_has(g as int, k) implies
                    contains_name(out@, k) by {
                    lemma_map_of_contains(self.group_at(g as int).parameters.entry_seq(), k);
                    let j = choose|j: int|
                        0 <= j < self.group_at(g as int).parameters.entry_seq().len()
                            && self.group_at(g as int).parameters.entry_seq()[j].0@ == k;
                }
            }
            g = g + 1;
        }
        proof {
            assert forall|k: Seq<char>| self.has_param(k) implies contains_name(out@, k) by {
                if !self.root_has(k) {
                    let g2 = choose|g2: int| self.group_has(g2, k);
                    assert(self.group_has(g2, k));
                }
            }
        }
        out
    }
}

/// Whether some entry of the delta bears the name.
pub open spec fn delta_has_name(delta: Seq<NewParameter>, name: Seq<char>) -> bool {
    exists|i: int| 0 <= i < delta.len() && delta[i].name@ == name
}

proof fn lemma_delta_push(delta: Seq<NewParameter>, np: NewParameter)
    ensures
        forall|k: Seq<char>| delta_has_name(delta, k) ==> delta_has_name(delta.push(np), k),
        delta_has_name(delta.push(np), np.name@),
{
    assert(delta.push(np)[delta.len() as int].name@ == np.name@);
    assert forall|k: Seq<char>| delta_has_name(delta, k) implies delta_has_name(
        delta.push(np),
        k,
    ) by {
        let i = choose|i: int| 0 <= i < delta.len() && delta[i].name@ == k;
        assert(delta.push(np)[i].name@ == k);
    }
}

impl RemoteConfig {
    /// The parameters this document has and the given names lack, each with
    /// its conditional values stripped and its originating group remembered.
    pub fn find_new_parameters(&self, existing_names: &Vec<String>) -> (r: Vec<NewParameter>)
        requires
            self.wf(),
        ensures
            forall|i: int|
                0 <= i < r@.len() ==> new_parameter_ok(*self, existing_names@, #[trigger] r@[i]),
            forall|i: int, j: int| 0 <= i < j < r@.len() ==> r@[i].name@ != r@[j].name@,
            forall|k: Seq<char>|
                self.has_param(k) && !contains_name(existing_names@, k) ==> delta_has_name(r@, k),
    {
        let mut out: Vec<NewParameter> = Vec::new();
        let root_len = self.parameters.len();
        let mut t: usize = 0;
        while t < root_len
            invariant
                self.wf(),
                t <= root_len,
                root_len == self.parameters.entry_seq().len(),
                forall|i: int|
                    0 <= i < out@.len() ==> new_parameter_ok(
                        *self,
                        existing_names@,
                        #[trigger] out@[i],
                    ),
                forall|i: int| 0 <= i < out@.len() ==> (#[trigger] out@[i].group) is None,
                forall|i: int|
                    0 <= i < out@.len() ==> exists|t2: int|
                        0 <= t2 < t && #[trigger] out@[i].name@
                            == self.parameters.entry_seq()[t2].0@,
                forall|i: int, j: int| 0 <= i < j < out@.len() ==> out@[i].name@ != out@[j].name@,
                forall|t2: int|
                    0 <= t2 < t ==> contains_name(
                        existing_names@,
                        #[trigger] self.parameters.entry_seq()[t2].0@,
                    ) || delta_has_name(out@, self.parameters.entry_seq()[t2].0@),
            decreases root_len - t,
        {
            let entry = self.parameters.entry_at(t);
            if !name_in_list(existing_names, entry.0.as_str()) {
                let ghost before = out@;
                let ghost key = self.parameters.entry_seq()[t as int].0@;
                let np = NewParameter {
                    group: None,
                    name: entry.0.clone(),
                    parameter: entry.1.clone_without_conditional_values(),
                };
                proof {
                    lemma_map_of_contains(self.parameters.entry_seq(), key);
                    lemma_map_of_get(self.parameters.entry_seq(), t as int);
                    assert(self.root_has(key));
                    assert(self.param_at(key) == self.parameters.entry_seq()[t as int].1);
                    assert(new_parameter_ok(*self, existing_names@, np));
                    lemma_delta_push(before, np);
                    assert forall|i: int| 0 <= i < before.len() implies before[i].name@ != key by {
                        let t2 = choose|t2: int|
                            0 <= t2 < t && before[i].name@ == self.parameters.entry_seq()[t2].0@;
                        assert(self.parameters.entry_seq()[t2].0@ != key);
                    }
                }
                out.push(np);
            }
            t = t + 1;
        }
        proof {
            assert forall|k: Seq<char>|
                self.root_has(k) && !contains_name(existing_names@, k) implies delta_has_name(
                out@,
                k,
            ) by {
                lemma_map_of_contains(self.parameters.entry_seq(), k);
                let t2 = choose|t2: int|
                    0 <= t2 < self.parameters.entry_seq().len()
                        && self.parameters.entry_seq()[t2].0@ == k;
                assert(self.parameters.entry_seq()[t2].0@ == k);
            }
        }
        let ghost root_out = out@;
        let group_count = self.parameter_groups.len();
        let mut g: usize = 0;
        while g < group_count
            invariant
                self.wf(),
                g <= group_count,
                group_count == self.groups_len(),
                forall|i: int|
                    0 <= i < out@.len() ==> new_parameter_ok(
                        *self,
                        existing_names@,
                        #[trigger] out@[i],
                    ),
                forall|i: int|
                    0 <= i < out@.len() ==> (#[trigger] out@[i].group) is None || exists|g2: int|
                        0 <= g2 < g && self.group_has(g2, out@[i].name@),
                forall|i: int, j: int| 0 <= i < j < out@.len() ==> out@[i].name@ != out@[j].name@,
                forall|k: Seq<char>|
                    self.root_has(k) && !contains_name(existing_names@, k) ==> delta_has_name(
                        out@,
                        k,
                    ),
                forall|g2: int, k: Seq<char>|
                    0 <= g2 < g && #[trigger] self.group_has(g2, k) && !contains_name(
                        existing_names@,
                        k,
                    ) ==> delta_has_name(out@, k),
            decreases group_count - g,
        {
            let group_entry = self.parameter_groups.entry_at(g);
            let group_len = group_entry.1.parameters.len();
            let mut t2: usize = 0;
            while t2 < group_len
                invariant
                    self.wf(),
                    g < group_count,
                    group_count == self.groups_len(),
                    t2 <= group_len,
                    group_len == self.group_at(g as int).parameters.entry_seq().len(),
                    forall|i: int|
                        0 <= i < out@.len() ==> new_parameter_ok(
                            *self,
                            existing_names@,
                            #[trigger] out@[i],
                        ),
                    forall|i: int|
                        0 <= i < out@.len() ==> (#[trigger] out@[i].group) is None || (exists|
                            g2: int,
                        |
                            0 <= g2 < g && self.group_has(g2, out@[i].name@)) || (self.group_has(
                            g as int,
                            out@[i].name@,
                        ) && exists|t3: int|
                            0 <= t3 < t2 && out@[i].name@ == self.group_at(
                                g as int,
                            ).parameters.entry_seq()[t3].0@),
                    forall|i: int, j: int|
                        0 <= i < j < out@.len() ==> out@[i].name@ != out@[j].name@,
                    forall|k: Seq<char>|
                        self.root_has(k) && !contains_name(existing_names@, k) ==> delta_has_name(
                            out@,
                            k,
                        ),
                    forall|g2: int, k: Seq<char>|
                        0 <= g2 < g && #[trigger] self.group_has(g2, k) && !contains_name(
                            existing_names@,
                            k,
                        ) ==> delta_has_name(out@, k),
                    forall|t3: int|
                        0 <= t3 < t2 ==> contains_name(
                            existing_names@,
                            #[trigger] self.group_at(g as int).parameters.entry_seq()[t3].0@,
                        ) || delta_has_name(
                            out@,
                            self.group_at(g as int).parameters.entry_seq()[t3].0@,
                        ),
                decreases group_len - t2,
            {
                let inner = self.parameter_groups.entry_at(g).1.parameters.entry_at(t2);
                if !name_in_list(existing_names, inner.0.as_str()) {
                    let ghost before = out@;
                    let ghost key = self.group_at(g as int).parameters.entry_seq()[t2 as int].0@;
                    let np = NewParameter {
                        group: Some(
                            NewParameterGroup {
                                name: self.parameter_groups.entry_at(g).0.clone(),
                                description: clone_opt_string(
                                    &self.parameter_groups.entry_at(g).1.description,
                                ),
                            },
                        ),
                        name: inner.0.clone(),
                        parameter: inner.1.clone_without_conditional_values(),
                    };
                    proof {
                        let group_entries = self.group_at(g as int).parameters.entry_seq();
                        lemma_map_of_contains(group_entries, key);
                        assert(self.group_at(g as int).parameters.wf());
                        lemma_map_of_get(group_entries, t2 as int);
                        assert(self.group_has(g as int, key));
                        assert(!self.root_has(key));
                        let gw = choose|gw: int| self.group_has(gw, key);
                        assert(self.group_has(gw, key));
                        assert(gw == g as int);
                        assert(self.param_at(key) == group_entries[t2 as int].1);
                        assert(new_parameter_ok(*self, existing_names@, np));
                        lemma_delta_push(before, np);
                        assert forall|i: int| 0 <= i < before.len() implies before[i].name@
                            != key by {
                            if before[i].group is None {
                                assert(self.root_has(before[i].name@));
                            } else if exists|g2: int|
                                0 <= g2 < g && self.group_has(g2, before[i].name@) {
                                let g2 = choose|g2: int|
                                    0 <= g2 < g && self.group_has(g2, before[i].name@);
                                if before[i].name@ == key {
                                    assert(self.group_has(g2, key));
                                    assert(g2 == g as int);
                                }
                            } else {
                                let t3 = choose|t3: int|
                                    0 <= t3 < t2 && before[i].name@ == group_entries[t3].0@;
                                assert(group_entries[t3].0@ != key);
                            }
                        }
                    }
                    out.push(np);
                }
                t2 = t2 + 1;
            }
            proof {
                assert forall|k: Seq<char>|
                    #[trigger] self.group_has(g as int, k) && !contains_name(
                        existing_names@,
                        k,
                    ) implies delta_has_name(out@, k) by {
                    let group_entries = self.group_at(g as int).parameters.entry_seq();
                    lemma_map_of_contains(group_entries, k);
                    let t3 = choose|t3: int|
                        0 <= t3 < group_entries.len() && group_entries[t3].0@ == k;
                    assert(group_entries[t3].0@ == k);
                }
            }
            g = g + 1;
        }
        proof {
            assert forall|k: Seq<char>|
                self.has_param(k) && !contains_name(existing_names@, k) implies delta_has_name(
                out@,
                k,
            ) by {
                if !self.root_has(k) {
                    let g2 = choose|g2: int| self.group_has(g2, k);
                    assert(self.group_has(g2, k));
                }
            }
        }
        out
    }
}

/// Where a migrated parameter ends up: present, carrying the migrated value,
/// at the root or in a group bearing its originating group's name.
pub open spec fn placed(config: RemoteConfig, np: NewParameter) -> bool {
    &&& config.has_param(np.name@)
    &&& config.param_at(np.name@) == np.parameter
    &&& match np.group {
        None => config.root_has(np.name@),
        Some(gi) => exists|g: int|
            #[trigger] config.group_has(g, np.name@) && config.group_name_at(g) == gi.name@,
    }
}

impl RemoteConfig {
    /// Inserts each new parameter into its destination container, creating a
    /// group (with its description) where the destination lacks it; every
    /// parameter the document already had is untouched.
    pub fn apply_new_parameters(&mut self, new_parameters: Vec<NewParameter>)
        requires
            old(self).wf(),
            forall|i: int|
                0 <= i < new_parameters@.len() ==> !old(self).has_param(
                    #[trigger] new_parameters@[i].name@,
                ),
            forall|i: int, j: int|
                0 <= i < j < new_parameters@.len() ==> new_parameters@[i].name@
                    != new_parameters@[j].name@,
        ensures
            final(self).wf(),
            final(self).conditions == old(self).conditions,
            forall|i: int|
                0 <= i < new_parameters@.len() ==> placed(
                    *final(self),
                    #[trigger] new_parameters@[i],
                ),
            forall|k: Seq<char>|
                !delta_has_name(new_parameters@, k) ==> (final(self).has_param(k) <==> old(
                    self,
                ).has_param(k)) && (old(self).has_param(k) ==> final(self).param_at(k) == old(
                    self,
                ).param_at(k)),
    {
        let ghost orig = new_parameters@;
        let ghost orig_self = *self;
        let mut list = new_parameters;
        let total = list.len();
        let mut i: usize = 0;
        while list.len() > 0
            invariant
                i <= orig.len(),
                orig.len() == total,
                list@ == orig.skip(i as int),
                self.wf(),
                self.conditions == orig_self.conditions,
                forall|j: int| 0 <= j < i ==> placed(*self, #[trigger] orig[j]),
                forall|j: int| i <= j < orig.len() ==> !self.has_param(#[trigger] orig[j].name@),
                forall|j1: int, j2: int|
                    0 <= j1 < j2 < orig.len() ==> orig[j1].name@ != orig[j2].name@,
                forall|k: Seq<char>|
                    !delta_has_name(orig, k) ==> (self.has_param(k) <==> orig_self.has_param(k))
                        && (orig_self.has_param(k) ==> self.param_at(k) == orig_self.param_at(k)),
            decreases orig.len() - i,
        {
            let np = list.remove(0);
            proof {
                assert(np == orig[i as int]);
                assert(orig.skip(i as int).remove(0) =~= orig.skip(i + 1));
            }
            let ghost pre = *self;
            let ghost key = np.name@;
            let ghost value = np.parameter;
            match np.group {
                None => {
                    self.upsert_parameter(np.name, np.parameter);
                    proof {
                        assert(self.params_map()[key] == value);
                        assert(self.has_param(key));
                        assert(self.param_at(key) == value);
                        assert(self.root_has(key));
                        assert(placed(*self, orig[i as int]));
                    }
                },
                Some(gi) => {
                    match self.parameter_groups.find_index(gi.name.as_str()) {
                        Some(gidx) => {
                            proof {
                                crate::entry_map::lemma_find_key(
                                    self.parameter_groups.entry_seq(),
                                    gi.name@,
                                );
                            }
                            let ghost gname = gi.name@;
                            self.insert_param_into_group_at(gidx, np.name, np.parameter);
                            proof {
                                assert(self.params_map()[key] == value);
                                assert(self.has_param(key));
                                assert(self.param_at(key) == value);
                                assert(self.group_has(gidx as int, key));
                                assert(self.group_name_at(gidx as int) == gname);
                                assert(placed(*self, orig[i as int]));
                            }
                        },
                        None => {
                            proof {
                                crate::entry_map::lemma_find_key(
                                    self.parameter_groups.entry_seq(),
                                    gi.name@,
                                );
                                lemma_map_of_contains(self.parameter_groups.entry_seq(), gi.name@);
                            }
                            let ghost gname = gi.name@;
                            let ghost glen = self.groups_len();
                            let mut group_params: EntryMap<Parameter> = EntryMap::new();
                            group_params.insert(np.name, np.parameter);
                            proof {
                                assert(group_params.as_map() =~= Map::<
                                    Seq<char>,
                                    Parameter,
                                >::empty().insert(key, value));
                                assert forall|n: Seq<char>|
                                    group_params.spec_contains(n) implies !self.has_param(n) by {
                                    assert(n == key);
                                }
                            }
                            self.insert_group(gi.name, gi.description, group_params);
                            proof {
                                assert(self.group_at(glen).parameters.as_map().contains_key(key));
                                assert(self.group_has(glen, key));
                                assert(self.group_name_at(glen) == gname);
                                assert(self.params_map()[key] == value);
                                assert(self.has_param(key));
                                assert(self.param_at(key) == value);
                                assert(placed(*self, orig[i as int]));
                            }
                        },
                    }
                },
            }
            proof {
                assert forall|j: int| 0 <= j < i implies placed(*self, #[trigger] orig[j]) by {
                    assert(placed(pre, orig[j]));
                    assert(orig[j].name@ != key);
                    assert(self.params_map()[orig[j].name@] == pre.params_map()[orig[j].name@]);
                    assert(self.has_param(orig[j].name@));
                    assert(self.param_at(orig[j].name@) == pre.param_at(orig[j].name@));
                    match orig[j].group {
                        None => {
                            assert(self.root_has(orig[j].name@));
                        },
                        Some(gi2) => {
                            let gw = choose|gw: int|
                                #[trigger] pre.group_has(gw, orig[j].name@) && pre.group_name_at(
                                    gw,
                                ) == gi2.name@;
                            assert(self.group_has(gw, orig[j].name@));
                            assert(self.group_name_at(gw) == gi2.name@);
                        },
                    }
                }
                assert forall|j: int| i + 1 <= j < orig.len() implies !self.has_param(
                    #[trigger] orig[j].name@,
                ) by {
                    assert(orig[j].name@ != key);
                    assert(!pre.has_param(orig[j].name@));
                    assert(!pre.params_map().contains_key(orig[j].name@));
                    assert(!self.params_map().contains_key(orig[j].name@));
                }
                assert forall|k2: Seq<char>| !delta_has_name(orig, k2) implies (self.has_param(k2)
                    <==> orig_self.has_param(k2)) && (orig_self.has_param(k2) ==> self.param_at(k2)
                    == orig_self.param_at(k2)) by {
                    assert(k2 != key) by {
                        assert(orig[i as int].name@ == key);
                    }
                    assert(self.params_map().contains_key(k2) == pre.params_map().contains_key(
                        k2,
                    ));
                    if pre.params_map().contains_key(k2) {
                        assert(self.params_map()[k2] == pre.params_map()[k2]);
                    }
                }
            }
            i = i + 1;
        }
        proof {
            assert(i == orig.len());
        }
    }
}

/// The migrate command: one source project and the destinations the delta is
/// rolled out to. Transport and confirmation happen outside; the selection of
/// source and destinations is decided here.
pub struct MigrateCommand {
    pub source_project: Project,
    pub destinations: Vec<Project>,
}

/// Whether some project of the list bears the name.
pub open spec fn projects_contain(projects: Seq<Project>, name: Seq<char>) -> bool {
    exists|i: int| 0 <= i < projects.len() && projects[i].name@ == name
}

/// Position of the first project of the list bearing the name.
fn find_project_index(projects: &Vec<Project>, name: &str) -> (r: Option<usize>)
    ensures
        match r {
            Some(i) => i < projects@.len() && projects@[i as int].name@ == name@ && (forall|j: int|
                0 <= j < i ==> projects@[j].name@ != name@),
            None => !projects_contain(projects@, name@),
        },
{
    let mut i: usize = 0;
    while i < projects.len()
        invariant
            i <= projects@.len(),
            forall|j: int| 0 <= j < i ==> projects@[j].name@ != name@,
        decreases projects@.len() - i,
    {
        if str_eq(projects[i].name.as_str(), name) {
            return Some(i);
        }
        i = i + 1;
    }
    None
}

impl MigrateCommand {
    pub fn new(source_project: Project, destinations: Vec<Project>) -> (r: MigrateCommand)
        ensures
            r.source_project == source_project,
            r.destinations == destinations,
    {
        MigrateCommand { source_project, destinations }
    }

    /// Migration from the named source to every other stored project; the
    /// source must be a stored project. The first stored project bearing the
    /// source name becomes the source; every project bearing another name
    /// becomes a destination, in stored order.
    pub fn new_for_all_projects(source_project_name: String, projects: Vec<Project>) -> (r: Result<
        MigrateCommand,
        Error,
    >)
        ensures
            match r {
                Ok(cmd) => {
                    &&& projects_contain(projects@, source_project_name@)
                    &&& cmd.source_project.name@ == source_project_name@
                    &&& exists|i: int|
                        0 <= i < projects@.len() && projects@[i] == cmd.source_project
                    &&& cmd.destinations@ == projects@.filter(
                        |p: Project| p.name@ != source_project_name@,
                    )
                },
                Err(_) => !projects_contain(projects@, source_project_name@),
            },
    {
        let source_index = match find_project_index(&projects, source_project_name.as_str()) {
            Some(i) => i,
            None => {
                let mut message = String::new();
                message.append("Source project ");
                message.append(source_project_name.as_str());
                message.append(" was not found in configuration file");
                return Err(Error { message });
            },
        };
        let ghost orig = projects@;
        let total = projects.len();
        let mut remaining = projects;
        let mut source_project: Option<Project> = None;
        let mut destinations: Vec<Project> = Vec::new();
        let mut i: usize = 0;
        proof {
            reveal(Seq::filter);
            assert(orig.take(0) =~= Seq::<Project>::empty());
            assert(destinations@ =~= orig.take(0).filter(
                |p: Project| p.name@ != source_project_name@,
            ));
        }
        while remaining.len() > 0
            invariant
                i <= orig.len(),
                orig.len() == total,
                remaining@ == orig.skip(i as int),
                source_index < orig.len(),
                orig[source_index as int].name@ == source_project_name@,
                forall|j: int| 0 <= j < source_index ==> orig[j].name@ != source_project_name@,
                destinations@ == orig.take(i as int).filter(
                    |p: Project| p.name@ != source_project_name@,
                ),
                if i <= source_index {
                    source_project is None
                } else {
                    source_project == Some(orig[source_index as int])
                },
            decreases orig.len() - i,
        {
            let p = remaining.remove(0);
            proof {
                assert(p == orig[i as int]);
                assert(orig.skip(i as int).remove(0) =~= orig.skip(i + 1));
            }
            let is_source_name = str_eq(p.name.as_str(), source_project_name.as_str());
            if is_source_name {
                if source_project.is_none() {
                    source_project = Some(p);
                    proof {
                        assert(i == source_index);
                    }
                }
                // a second project bearing the source name is neither the
                // source nor a destination
            } else {
                destinations.push(p);
            }
            proof {
                reveal(Seq::filter);
                let t = orig.take(i + 1);
                assert(t.drop_last() =~= orig.take(i as int));
                assert(t.last() == orig[i as int]);
            }
            i = i + 1;
        }
        proof {
            assert(orig.take(orig.len() as int) =~= orig);
        }
        match source_project {
            Some(source_project) => Ok(MigrateCommand { source_project, destinations }),
            None => {
                proof {
                    assert(false);
                }
                Err(Error::new("Source project was not found in configuration file"))
            },
        }
    }

    /// Migration from the named source to the selected destinations: the
    /// stored projects among the given names, the source itself never among
    /// them.
    pub fn new_for_selected_projects(
        source_project_name: String,
        destinations: Vec<String>,
        projects: Vec<Project>,
    ) -> (r: Result<MigrateCommand, Error>)
        ensures
            match r {
                Ok(cmd) => {
                    &&& projects_contain(projects@, source_project_name@)
                    &&& cmd.source_project.name@ == source_project_name@
                    &&& exists|i: int|
                        0 <= i < projects@.len() && projects@[i] == cmd.source_project
                    &&& cmd.destinations@ == projects@.filter(
                        |p: Project|
                            contains_name(destinations@, p.name@) && p.name@
                                != source_project_name@,
                    )
                },
                Err(_) => !projects_contain(projects@, source_project_name@),
            },
    {
        let source_index = match find_project_index(&projects, source_project_name.as_str()) {
            Some(i) => i,
            None => {
                let mut message = String::new();
                message.append("Source project ");
                message.append(source_project_name.as_str());
                message.append(" was not found in configuration file");
                return Err(Error { message });
            },
        };
        let ghost orig = projects@;
        let ghost pred = |p: Project|
            contains_name(destinations@, p.name@) && p.name@ != source_project_name@;
        let total = projects.len();
        let mut remaining = projects;
        let mut source_project: Option<Project> = None;
        let mut selected: Vec<Project> = Vec::new();
        let mut i: usize = 0;
        proof {
            reveal(Seq::filter);
            assert(orig.take(0) =~= Seq::<Project>::empty());
            assert(selected@ =~= orig.take(0).filter(pred));
        }
        while remaining.len() > 0
            invariant
                i <= orig.len(),
                orig.len() == total,
                remaining@ == orig.skip(i as int),
                source_index < orig.len(),
                orig[source_index as int].name@ == source_project_name@,
                forall|j: int| 0 <= j < source_index ==> orig[j].name@ != source_project_name@,
                pred == (|p: Project|
                    contains_name(destinations@, p.name@) && p.name@ != source_project_name@),
                selected@ == orig.take(i as int).filter(pred),
                if i <= source_index {
                    source_project is None
                } else {
                    source_project == Some(orig[source_index as int])
                },
            decreases orig.len() - i,
        {
            let p = remaining.remove(0);
            proof {
                assert(p == orig[i as int]);
                assert(orig.skip(i as int).remove(0) =~= orig.skip(i + 1));
            }
            let is_source_name = str_eq(p.name.as_str(), source_project_name.as_str());
            let wanted = !is_source_name && name_in_list(&destinations, p.name.as_str());
            proof {
                assert(wanted == pred(orig[i as int]));
            }
            if is_source_name && source_project.is_none() {
                source_project = Some(p);
                proof {
                    assert(i == source_index);
                }
            } else if wanted {
                selected.push(p);
            }
            proof {
                reveal(Seq::filter);
                let t = orig.take(i + 1);
                assert(t.drop_last() =~= orig.take(i as int));
                assert(t.last() == orig[i as int]);
            }
            i = i + 1;
        }
        proof {
            assert(orig.take(orig.len() as int) =~= orig);
        }
        match source_project {
            Some(source_project) => Ok(MigrateCommand { source_project, destinations: selected }),
            None => {
                proof {
                    assert(false);
                }
                Err(Error::new("Source project was not found in configuration file"))
            },
        }
    }
}

} // verus!
