//! The remote-config document: conditions, parameters and parameter groups.
//!
//! The aggregate owns the one lookup used everywhere — find the container
//! (root or a named group) holding a given parameter — and keeps the
//! invariant that a parameter name occurs in exactly one container.
use crate::entry_map::{find_key, lemma_find_key, lemma_map_of_contains, EntryMap};
use crate::strings::str_eq;
use vstd::prelude::*;

verus! {

/// Presentation colour of a condition; irrelevant to the logic.
#[derive(Clone, Copy, PartialEq, Eq, Structural, Debug)]
pub enum TagColor {
    Unspecified,
    Blue,
    Brown,
    Cyan,
    DeepOrange,
    Green,
    Indigo,
    Lime,
    Orange,
    Pink,
    Purple,
    Teal,
}

/// A named boolean predicate evaluated by the remote service. The name is the
/// condition's identity: two conditions are the same for propagation purposes
/// exactly when their names match.
#[derive(Debug)]
pub struct Condition {
    pub name: String,
    pub expression: String,
    pub tag_color: TagColor,
}

impl Clone for Condition {
    fn clone(&self) -> (r: Condition)
        ensures
            r == *self,
    {
        Condition {
            name: self.name.clone(),
            expression: self.expression.clone(),
            tag_color: self.tag_color,
        }
    }
}

impl PartialEq for Condition {
    /// Conditions compare by name alone, regardless of expression text.
    fn eq(&self, other: &Condition) -> (r: bool) {
        self.name == other.name
    }
}

impl vstd::std_specs::cmp::PartialEqSpecImpl for Condition {
    open spec fn obeys_eq_spec() -> bool {
        true
    }

    open spec fn eq_spec(&self, other: &Condition) -> bool {
        self.name@ == other.name@
    }
}

#[derive(Clone, Copy, PartialEq, Eq, Structural, Debug)]
pub enum ParameterValueType {
    Unspecified,
    Boolean,
    String,
    Number,
    Json,
}

/// A typed literal, or the sentinel meaning "use the value baked into the
/// client app".
#[derive(Debug, PartialEq)]
pub enum ParameterValue {
    Value(String),
    UseInAppDefault(bool),
}

impl Clone for ParameterValue {
    fn clone(&self) -> (r: ParameterValue)
        ensures
            r == *self,
    {
        match self {
            ParameterValue::Value(s) => ParameterValue::Value(s.clone()),
            ParameterValue::UseInAppDefault(b) => ParameterValue::UseInAppDefault(*b),
        }
    }
}

/// A named flag entry: a default value and optional per-condition overrides.
#[derive(Debug, Clone, PartialEq)]
pub struct Parameter {
    pub default_value: Option<ParameterValue>,
    pub conditional_values: EntryMap<ParameterValue>,
    pub description: Option<String>,
    pub value_type: ParameterValueType,
}

/// A named organizational bucket of parameters.
#[derive(Debug, Clone, PartialEq)]
pub struct ParameterGroup {
    pub description: Option<String>,
    pub parameters: EntryMap<Parameter>,
}

/// One project's whole remote-config document.
#[derive(Debug, Clone, PartialEq)]
pub struct RemoteConfig {
    pub conditions: Vec<Condition>,
    pub parameters: EntryMap<Parameter>,
    pub parameter_groups: EntryMap<ParameterGroup>,
}

/// The container holding a parameter: the root map, or one named group.
#[derive(Clone, PartialEq, Debug)]
pub enum ParameterSource {
    Root,
    Group(String),
}

/// Whether some condition of the list bears the name.
pub open spec fn has_condition_named(conditions: Seq<Condition>, name: Seq<char>) -> bool {
    exists|i: int| 0 <= i < conditions.len() && conditions[i].name@ == name
}

/// Condition names never repeat.
pub open spec fn distinct_condition_names(conditions: Seq<Condition>) -> bool {
    forall|i: int, j: int| 0 <= i < j < conditions.len() ==> conditions[i].name@ != conditions[j].name@
}

impl RemoteConfig {
    /// The group value at a position of the group list.
    pub open spec fn group_at(self, g: int) -> ParameterGroup {
        self.parameter_groups.entry_seq()[g].1
    }

    /// The group name at a position of the group list.
    pub open spec fn group_name_at(self, g: int) -> Seq<char> {
        self.parameter_groups.entry_seq()[g].0@
    }

    pub open spec fn groups_len(self) -> int {
        self.parameter_groups.entry_seq().len() as int
    }

    /// The root map holds the parameter.
    pub open spec fn root_has(self, name: Seq<char>) -> bool {
        self.parameters.spec_contains(name)
    }

    /// The group at position `g` holds the parameter.
    pub open spec fn group_has(self, g: int, name: Seq<char>) -> bool {
        0 <= g < self.groups_len() && self.group_at(g).parameters.spec_contains(name)
    }

    /// The parameter occurs somewhere: root or a group.
    pub open spec fn has_param(self, name: Seq<char>) -> bool {
        self.root_has(name) || exists|g: int| self.group_has(g, name)
    }

    /// A parameter name occurs in exactly one container, every inner map is
    /// well-formed, and condition names are unique.
    pub open spec fn wf(self) -> bool {
        &&& self.parameters.wf()
        &&& self.parameter_groups.wf()
        &&& forall|g: int| 0 <= g < self.groups_len() ==> (#[trigger] self.group_at(g)).parameters.wf()
        &&& forall|g: int, name: Seq<char>|
            self.group_has(g, name) ==> !self.root_has(name)
        &&& forall|g1: int, g2: int, name: Seq<char>|
            self.group_has(g1, name) && self.group_has(g2, name) ==> g1 == g2
        &&& distinct_condition_names(self.conditions@)
    }

    /// The parameter's value, wherever it lives.
    pub open spec fn param_at(self, name: Seq<char>) -> Parameter {
        if self.root_has(name) {
            self.parameters.as_map()[name]
        } else {
            self.group_at(choose|g: int| self.group_has(g, name)).parameters.as_map()[name]
        }
    }

    /// Every parameter of the document, root and groups together, as one map.
    pub open spec fn params_map(self) -> Map<Seq<char>, Parameter> {
        Map::new(|n: Seq<char>| self.has_param(n), |n: Seq<char>| self.param_at(n))
    }

    /// Position of the first group holding the parameter.
    fn group_index_of(&self, name: &str) -> (r: Option<usize>)
        ensures
            match r {
                Some(g) => self.group_has(g as int, name@) && (forall|j: int|
                    0 <= j < g ==> !self.group_has(j, name@)),
                None => forall|j: int| !self.group_has(j, name@),
            },
    {
        let count = self.parameter_groups.len();
        let mut g: usize = 0;
        while g < count
            invariant
                g <= count,
                count == self.groups_len(),
                forall|j: int| 0 <= j < g ==> !self.group_has(j, name@),
            decreases count - g,
        {
            let group = &self.parameter_groups.entry_at(g).1;
            if group.contains_parameter(name) {
                return Some(g);
            }
            g = g + 1;
        }
        None
    }

    /// Designates the container currently holding the parameter, or reports
    /// that no container holds it. With a well-formed document the designated
    /// container is the only one holding the name.
    pub fn get_map_for_existing_parameter(&self, name: &str) -> (r: Option<ParameterSource>)
        ensures
            match r {
                Some(ParameterSource::Root) => self.root_has(name@),
                Some(ParameterSource::Group(gname)) => !self.root_has(name@) && exists|g: int|
                    #[trigger] self.group_has(g, name@) && self.group_name_at(g) == gname@,
                None => !self.has_param(name@),
            },
    {
        if self.parameters.contains_key(name) {
            Some(ParameterSource::Root)
        } else {
            match self.group_index_of(name) {
                Some(g) => Some(ParameterSource::Group(self.parameter_groups.entry_at(g).0.clone())),
                None => {
                    assert(!self.has_param(name@));
                    None
                },
            }
        }
    }

    /// The container and the parameter's current value there.
    pub fn find_parameter_source<'a>(&'a self, name: &str) -> (r: Option<(
        ParameterSource,
        &'a Parameter,
    )>)
        requires
            self.wf(),
        ensures
            match r {
                Some(found) => {
                    &&& self.has_param(name@)
                    &&& *found.1 == self.param_at(name@)
                    &&& match found.0 {
                        ParameterSource::Root => self.root_has(name@),
                        ParameterSource::Group(gname) => !self.root_has(name@) && exists|g: int|
                            #[trigger] self.group_has(g, name@) && self.group_name_at(g) == gname@,
                    }
                },
                None => !self.has_param(name@),
            },
    {
        match self.parameters.get(name) {
            Some(parameter) => Some((ParameterSource::Root, parameter)),
            None => {
                match self.group_index_of(name) {
                    Some(g) => {
                        let entry = self.parameter_groups.entry_at(g);
                        let parameter = match entry.1.parameters.get(name) {
                            Some(p) => p,
                            None => {
                                proof {
                                    assert(false);
                                }
                                return None;
                            },
                        };
                        proof {
                            let gg = choose|j: int| self.group_has(j, name@);
                            assert(gg == g as int);
                        }
                        Some((ParameterSource::Group(entry.0.clone()), parameter))
                    },
                    None => {
                        assert(!self.has_param(name@));
                        None
                    },
                }
            },
        }
    }

    /// Whether a condition of the document bears the name.
    pub fn has_condition(&self, name: &str) -> (r: bool)
        ensures
            r == has_condition_named(self.conditions@, name@),
    {
        let mut i: usize = 0;
        while i < self.conditions.len()
            invariant
                i <= self.conditions@.len(),
                forall|j: int| 0 <= j < i ==> self.conditions@[j].name@ != name@,
            decreases self.conditions@.len() - i,
        {
            if str_eq(self.conditions[i].name.as_str(), name) {
                return true;
            }
            i = i + 1;
        }
        false
    }
}

impl ParameterGroup {
    /// Whether the group holds the parameter.
    pub fn contains_parameter(&self, name: &str) -> (r: bool)
        ensures
            r == self.parameters.spec_contains(name@),
    {
        self.parameters.contains_key(name)
    }
}

impl RemoteConfig {
    /// Inserts or replaces a parameter in the container already holding it,
    /// or in the root where no container does; the uniqueness invariant is
    /// preserved without a collision ever arising across containers.
    pub fn upsert_parameter(&mut self, name: String, parameter: Parameter)
        requires
            old(self).wf(),
        ensures
            final(self).wf(),
            final(self).conditions == old(self).conditions,
            final(self).params_map() =~= old(self).params_map().insert(name@, parameter),
            final(self).groups_len() == old(self).groups_len(),
            forall|g: int|
                0 <= g < old(self).groups_len() ==> final(self).group_name_at(g) == old(
                    self,
                ).group_name_at(g) && final(self).group_at(g).description == old(self).group_at(
                    g,
                ).description,
            final(self).root_has(name@) <==> (old(self).root_has(name@) || !old(self).has_param(
                name@,
            )),
            forall|g: int| final(self).group_has(g, name@) <==> old(self).group_has(g, name@),
            forall|k: Seq<char>|
                k != name@ ==> (final(self).root_has(k) <==> old(self).root_has(k)),
            forall|g: int, k: Seq<char>|
                k != name@ ==> (final(self).group_has(g, k) <==> old(self).group_has(g, k)),
    {
        match self.group_index_of(name.as_str()) {
            None => {
                let ghost old_self = *self;
                self.parameters.insert(name, parameter);
                proof {
                    lemma_upsert_root(old_self, *self, name@, parameter);
                }
            },
            Some(g) => {
                let ghost old_self = *self;
                let (group_name, mut group) = self.parameter_groups.remove_at(g);
                group.parameters.insert(name, parameter);
                let ghost mid_groups = self.parameter_groups;
                self.parameter_groups.insert_at(g, group_name, group);
                proof {
                    assert(old_self.parameter_groups.entry_seq().remove(g as int).insert(
                        g as int,
                        (old_self.parameter_groups.entry_seq()[g as int].0, group),
                    ) =~= old_self.parameter_groups.entry_seq().update(
                        g as int,
                        (old_self.parameter_groups.entry_seq()[g as int].0, group),
                    ));
                    assert(!mid_groups.spec_contains(
                        old_self.parameter_groups.entry_seq()[g as int].0@,
                    )) by {
                        crate::entry_map::lemma_map_of_remove(
                            old_self.parameter_groups.entry_seq(),
                            g as int,
                        );
                    }
                    lemma_upsert_group(old_self, *self, g as int, name@, parameter);
                }
            },
        }
    }
}

/// After a root insert of a name no group holds, the document is well-formed
/// and its combined parameter map gains exactly that pair.
proof fn lemma_upsert_root(
    old_self: RemoteConfig,
    new_self: RemoteConfig,
    name: Seq<char>,
    parameter: Parameter,
)
    requires
        old_self.wf(),
        forall|j: int| !old_self.group_has(j, name),
        new_self.conditions == old_self.conditions,
        new_self.parameter_groups == old_self.parameter_groups,
        new_self.parameters.wf(),
        new_self.parameters.as_map() == old_self.parameters.as_map().insert(name, parameter),
    ensures
        new_self.wf(),
        new_self.params_map() =~= old_self.params_map().insert(name, parameter),
        new_self.root_has(name),
        forall|g: int| new_self.group_has(g, name) <==> old_self.group_has(g, name),
        forall|k: Seq<char>| k != name ==> (new_self.root_has(k) <==> old_self.root_has(k)),
        forall|g: int, k: Seq<char>|
            new_self.group_has(g, k) <==> old_self.group_has(g, k),
{
    assert(forall|g: int| 0 <= g < new_self.groups_len() ==> new_self.group_at(g)
        == old_self.group_at(g));
    assert(forall|g: int, n: Seq<char>|
        new_self.group_has(g, n) <==> old_self.group_has(g, n));
    assert forall|g: int, n: Seq<char>| new_self.group_has(g, n) implies !new_self.root_has(
        n,
    ) by {
        assert(old_self.group_has(g, n));
        assert(!old_self.root_has(n));
        assert(n != name);
    }
    assert forall|g: int| 0 <= g < new_self.groups_len() implies (
    #[trigger] new_self.group_at(g)).parameters.wf() by {
        assert(old_self.group_at(g).parameters.wf());
    }
    assert(new_self.wf());
    assert forall|n: Seq<char>| #[trigger] new_self.has_param(n) <==> old_self.params_map().insert(
        name,
        parameter,
    ).contains_key(n) by {
        if n == name {
            assert(new_self.root_has(name));
        } else {
            assert(new_self.root_has(n) <==> old_self.root_has(n));
            assert(forall|g: int| new_self.group_has(g, n) <==> old_self.group_has(g, n));
        }
    }
    assert forall|n: Seq<char>| new_self.has_param(n) implies new_self.param_at(n)
        == old_self.params_map().insert(name, parameter)[n] by {
        if n == name {
            assert(new_self.root_has(name));
            assert(new_self.param_at(name) == parameter);
        } else {
            if new_self.root_has(n) {
                assert(old_self.root_has(n));
                assert(new_self.param_at(n) == old_self.param_at(n));
            } else {
                let g = choose|g: int| new_self.group_has(g, n);
                assert(old_self.group_has(g, n));
                assert(!old_self.root_has(n));
                let g2 = choose|g2: int| old_self.group_has(g2, n);
                assert(g2 == g);
                assert(new_self.param_at(n) == old_self.param_at(n));
            }
            assert(old_self.has_param(n));
            assert(old_self.params_map()[n] == old_self.param_at(n));
        }
    }
}

/// After inserting into the one group that already holds the name, the
/// document is well-formed and its combined parameter map gains the pair.
proof fn lemma_upsert_group(
    old_self: RemoteConfig,
    new_self: RemoteConfig,
    g: int,
    name: Seq<char>,
    parameter: Parameter,
)
    requires
        old_self.wf(),
        old_self.group_has(g, name),
        new_self.conditions == old_self.conditions,
        new_self.parameters == old_self.parameters,
        new_self.parameter_groups.wf(),
        new_self.parameter_groups.entry_seq() == old_self.parameter_groups.entry_seq().update(
            g,
            (
                old_self.parameter_groups.entry_seq()[g].0,
                ParameterGroup {
                    description: old_self.group_at(g).description,
                    parameters: new_self.group_at(g).parameters,
                },
            ),
        ),
        new_self.group_at(g).parameters.wf(),
        new_self.group_at(g).parameters.as_map() == old_self.group_at(
            g,
        ).parameters.as_map().insert(name, parameter),
        new_self.group_at(g).description == old_self.group_at(g).description,
    ensures
        new_self.wf(),
        new_self.params_map() =~= old_self.params_map().insert(name, parameter),
        !new_self.root_has(name),
        forall|j: int| new_self.group_has(j, name) <==> old_self.group_has(j, name),
        forall|j: int|
            0 <= j < old_self.groups_len() ==> new_self.group_name_at(j) == old_self.group_name_at(
                j,
            ) && new_self.group_at(j).description == old_self.group_at(j).description,
        forall|k: Seq<char>| new_self.root_has(k) <==> old_self.root_has(k),
        forall|j: int, k: Seq<char>|
            k != name ==> (new_self.group_has(j, k) <==> old_self.group_has(j, k)),
    {
        assert(forall|j: int|
            0 <= j < new_self.groups_len() && j != g ==> new_self.group_at(j) == old_self.group_at(
                j,
            ) && new_self.group_name_at(j) == old_self.group_name_at(j));
        assert(new_self.group_name_at(g) == old_self.group_name_at(g));
        assert forall|j: int, n: Seq<char>| new_self.group_has(j, n) implies !new_self.root_has(
            n,
        ) by {
            if j == g && n != name {
                assert(old_self.group_has(g, n));
            } else if j == g && n == name {
                assert(old_self.group_has(g, name));
            } else {
                assert(old_self.group_has(j, n));
            }
            assert(!old_self.root_has(n));
        }
        assert forall|j1: int, j2: int, n: Seq<char>|
            new_self.group_has(j1, n) && new_self.group_has(j2, n) implies j1 == j2 by {
            assert(old_self.group_has(
                j1,
                if j1 == g && n == name {
                    name
                } else {
                    n
                },
            ));
            if j1 == g {
                assert(old_self.group_has(g, name) || old_self.group_has(g, n));
            }
            assert(new_self.group_has(j1, n) ==> old_self.group_has(j1, n) || (j1 == g && n
                == name));
            assert(new_self.group_has(j2, n) ==> old_self.group_has(j2, n) || (j2 == g && n
                == name));
            if old_self.group_has(j1, n) && old_self.group_has(j2, n) {
            } else if j1 == g && n == name {
                if old_self.group_has(j2, n) {
                    assert(old_self.group_has(g, name));
                }
            } else {
                if old_self.group_has(j1, n) {
                    assert(old_self.group_has(g, name));
                }
            }
        }
        assert(new_self.wf());
        assert forall|n: Seq<char>| #[trigger] new_self.has_param(n)
            <==> old_self.params_map().insert(name, parameter).contains_key(n) by {
            if n == name {
                assert(new_self.group_has(g, name));
            } else {
                assert(new_self.root_has(n) <==> old_self.root_has(n));
                assert(forall|j: int| new_self.group_has(j, n) <==> old_self.group_has(j, n));
            }
        }
        assert forall|n: Seq<char>| new_self.has_param(n) implies new_self.param_at(n)
            == old_self.params_map().insert(name, parameter)[n] by {
            if n == name {
                assert(!new_self.root_has(name));
                assert(new_self.group_at(g).parameters.spec_contains(name));
                assert(new_self.group_has(g, name));
                let j = choose|j: int| new_self.group_has(j, name);
                assert(new_self.group_has(j, name));
                assert(j == g);
                assert(new_self.param_at(name) == parameter);
            } else {
                if new_self.root_has(n) {
                    assert(new_self.param_at(n) == old_self.param_at(n));
                } else {
                    let j = choose|j: int| new_self.group_has(j, n);
                    assert(old_self.group_has(j, n));
                    let j2 = choose|j2: int| old_self.group_has(j2, n);
                    assert(j2 == j);
                    if j == g {
                        assert(new_self.group_at(g).parameters.as_map()[n] == old_self.group_at(
                            g,
                        ).parameters.as_map()[n]);
                    }
                    assert(new_self.param_at(n) == old_self.param_at(n));
                }
                assert(old_self.has_param(n));
                assert(old_self.params_map()[n] == old_self.param_at(n));
            }
        }
    }

impl RemoteConfig {
    /// Takes the parameter out of whichever container holds it: the first
    /// step of a move, and the whole mutation of a delete.
    pub fn remove_parameter(&mut self, name: &str) -> (r: Option<Parameter>)
        requires
            old(self).wf(),
        ensures
            final(self).wf(),
            final(self).conditions == old(self).conditions,
            final(self).groups_len() == old(self).groups_len(),
            forall|g: int|
                0 <= g < old(self).groups_len() ==> final(self).group_name_at(g) == old(
                    self,
                ).group_name_at(g) && final(self).group_at(g).description == old(self).group_at(
                    g,
                ).description,
            match r {
                None => !old(self).has_param(name@) && *final(self) == *old(self),
                Some(p) => {
                    &&& old(self).has_param(name@)
                    &&& p == old(self).param_at(name@)
                    &&& final(self).params_map() =~= old(self).params_map().remove(name@)
                    &&& !final(self).has_param(name@)
                    &&& forall|k: Seq<char>|
                        k != name@ ==> (final(self).root_has(k) <==> old(self).root_has(k))
                    &&& forall|g: int, k: Seq<char>|
                        k != name@ ==> (final(self).group_has(g, k) <==> old(self).group_has(
                            g,
                            k,
                        ))
                },
            },
    {
        if self.parameters.contains_key(name) {
            let ghost old_self = *self;
            let removed = self.parameters.remove(name);
            proof {
                lemma_find_key(old_self.parameters.entry_seq(), name@);
                lemma_map_of_contains(old_self.parameters.entry_seq(), name@);
                match find_key(old_self.parameters.entry_seq(), name@) {
                    Some(i) => {
                        crate::entry_map::lemma_map_of_get(old_self.parameters.entry_seq(), i);
                    },
                    None => {
                        assert(false);
                    },
                }
                lemma_remove_root(old_self, *self, name@);
            }
            removed
        } else {
            match self.group_index_of(name) {
                None => {
                    assert(!self.has_param(name@));
                    None
                },
                Some(g) => {
                    let ghost old_self = *self;
                    let (group_name, mut group) = self.parameter_groups.remove_at(g);
                    let ghost old_group = group;
                    let removed = group.parameters.remove(name);
                    let ghost mid_groups = self.parameter_groups;
                    self.parameter_groups.insert_at(g, group_name, group);
                    proof {
                        lemma_find_key(old_group.parameters.entry_seq(), name@);
                        lemma_map_of_contains(old_group.parameters.entry_seq(), name@);
                        match find_key(old_group.parameters.entry_seq(), name@) {
                            Some(i) => {
                                crate::entry_map::lemma_map_of_get(
                                    old_group.parameters.entry_seq(),
                                    i,
                                );
                            },
                            None => {
                                assert(false);
                            },
                        }
                        let g2 = choose|g2: int| old_self.group_has(g2, name@);
                        assert(g2 == g as int);
                        assert(old_self.param_at(name@) == old_group.parameters.as_map()[name@]);
                        assert(old_self.parameter_groups.entry_seq().remove(g as int).insert(
                            g as int,
                            (old_self.parameter_groups.entry_seq()[g as int].0, group),
                        ) =~= old_self.parameter_groups.entry_seq().update(
                            g as int,
                            (old_self.parameter_groups.entry_seq()[g as int].0, group),
                        ));
                        assert(!mid_groups.spec_contains(
                            old_self.parameter_groups.entry_seq()[g as int].0@,
                        )) by {
                            crate::entry_map::lemma_map_of_remove(
                                old_self.parameter_groups.entry_seq(),
                                g as int,
                            );
                        }
                        lemma_remove_group(old_self, *self, g as int, name@);
                    }
                    removed
                },
            }
        }
    }
}

/// After removing a name from the root, the document is well-formed and its
/// combined parameter map loses exactly that pair.
proof fn lemma_remove_root(old_self: RemoteConfig, new_self: RemoteConfig, name: Seq<char>)
    requires
        old_self.wf(),
        old_self.root_has(name),
        new_self.conditions == old_self.conditions,
        new_self.parameter_groups == old_self.parameter_groups,
        new_self.parameters.wf(),
        new_self.parameters.as_map() == old_self.parameters.as_map().remove(name),
    ensures
        new_self.wf(),
        new_self.params_map() =~= old_self.params_map().remove(name),
        !new_self.has_param(name),
        forall|k: Seq<char>| k != name ==> (new_self.root_has(k) <==> old_self.root_has(k)),
        forall|g: int, k: Seq<char>|
            new_self.group_has(g, k) <==> old_self.group_has(g, k),
{
    assert(forall|g: int| 0 <= g < new_self.groups_len() ==> new_self.group_at(g)
        == old_self.group_at(g));
    assert(forall|g: int, n: Seq<char>|
        new_self.group_has(g, n) <==> old_self.group_has(g, n));
    assert forall|g: int, n: Seq<char>| new_self.group_has(g, n) implies !new_self.root_has(
        n,
    ) by {
        assert(old_self.group_has(g, n));
        assert(!old_self.root_has(n));
    }
    assert forall|g: int| 0 <= g < new_self.groups_len() implies (
    #[trigger] new_self.group_at(g)).parameters.wf() by {
        assert(old_self.group_at(g).parameters.wf());
    }
    assert(new_self.wf());
    assert(!new_self.root_has(name));
    assert(forall|g: int| !new_self.group_has(g, name));
    assert forall|n: Seq<char>| #[trigger] new_self.has_param(n) <==> old_self.params_map().remove(
        name,
    ).contains_key(n) by {
        if n != name {
            assert(new_self.root_has(n) <==> old_self.root_has(n));
        }
    }
    assert forall|n: Seq<char>| new_self.has_param(n) implies new_self.param_at(n)
        == old_self.params_map().remove(name)[n] by {
        if new_self.root_has(n) {
            assert(old_self.root_has(n));
            assert(new_self.param_at(n) == old_self.param_at(n));
        } else {
            let g = choose|g: int| new_self.group_has(g, n);
            assert(old_self.group_has(g, n));
            assert(!old_self.root_has(n));
            let g2 = choose|g2: int| old_self.group_has(g2, n);
            assert(g2 == g);
            assert(new_self.param_at(n) == old_self.param_at(n));
        }
        assert(old_self.has_param(n));
        assert(old_self.params_map()[n] == old_self.param_at(n));
    }
}

/// After removing a name from the one group holding it, the document is
/// well-formed and its combined parameter map loses exactly that pair.
proof fn lemma_remove_group(old_self: RemoteConfig, new_self: RemoteConfig, g: int, name: Seq<char>)
    requires
        old_self.wf(),
        old_self.group_has(g, name),
        !old_self.root_has(name),
        new_self.conditions == old_self.conditions,
        new_self.parameters == old_self.parameters,
        new_self.parameter_groups.wf(),
        new_self.parameter_groups.entry_seq() == old_self.parameter_groups.entry_seq().update(
            g,
            (
                old_self.parameter_groups.entry_seq()[g].0,
                ParameterGroup {
                    description: old_self.group_at(g).description,
                    parameters: new_self.group_at(g).parameters,
                },
            ),
        ),
        new_self.group_at(g).parameters.wf(),
        new_self.group_at(g).parameters.as_map() == old_self.group_at(
            g,
        ).parameters.as_map().remove(name),
        new_self.group_at(g).description == old_self.group_at(g).description,
    ensures
        new_self.wf(),
        new_self.params_map() =~= old_self.params_map().remove(name),
        !new_self.has_param(name),
        forall|j: int|
            0 <= j < old_self.groups_len() ==> new_self.group_name_at(j) == old_self.group_name_at(
                j,
            ) && new_self.group_at(j).description == old_self.group_at(j).description,
        forall|k: Seq<char>| new_self.root_has(k) <==> old_self.root_has(k),
        forall|j: int, k: Seq<char>|
            k != name ==> (new_self.group_has(j, k) <==> old_self.group_has(j, k)),
{
    assert(forall|j: int|
        0 <= j < new_self.groups_len() && j != g ==> new_self.group_at(j) == old_self.group_at(j)
            && new_self.group_name_at(j) == old_self.group_name_at(j));
    assert(new_self.group_name_at(g) == old_self.group_name_at(g));
    assert forall|j: int, k: Seq<char>|
        k != name && old_self.group_has(j, k) implies new_self.group_has(j, k) by {
        if j == g {
            assert(new_self.group_at(g).parameters.spec_contains(k));
        }
    }
    assert forall|j: int, n: Seq<char>| new_self.group_has(j, n) implies old_self.group_has(
        j,
        n,
    ) by {
        if j == g {
            assert(new_self.group_at(g).parameters.spec_contains(n));
        }
    }
    assert forall|j: int, n: Seq<char>| new_self.group_has(j, n) implies !new_self.root_has(
        n,
    ) by {
        assert(old_self.group_has(j, n));
        assert(!old_self.root_has(n));
    }
    assert forall|j1: int, j2: int, n: Seq<char>|
        new_self.group_has(j1, n) && new_self.group_has(j2, n) implies j1 == j2 by {
        assert(old_self.group_has(j1, n));
        assert(old_self.group_has(j2, n));
    }
    assert forall|j: int| 0 <= j < new_self.groups_len() implies (
    #[trigger] new_self.group_at(j)).parameters.wf() by {
        if j != g {
            assert(old_self.group_at(j).parameters.wf());
        }
    }
    assert(new_self.wf());
    assert(!new_self.root_has(name));
    assert forall|j: int| !new_self.group_has(j, name) by {
        if new_self.group_has(j, name) {
            assert(old_self.group_has(j, name));
            assert(j == g);
            assert(!new_self.group_at(g).parameters.spec_contains(name));
        }
    }
    assert(!new_self.has_param(name));
    assert forall|n: Seq<char>| #[trigger] new_self.has_param(n) <==> old_self.params_map().remove(
        name,
    ).contains_key(n) by {
        if n != name {
            assert(new_self.root_has(n) <==> old_self.root_has(n));
            if old_self.has_param(n) && !old_self.root_has(n) {
                let j = choose|j: int| old_self.group_has(j, n);
                if j == g {
                    assert(new_self.group_at(g).parameters.spec_contains(n));
                    assert(new_self.group_has(g, n));
                } else {
                    assert(new_self.group_has(j, n));
                }
            }
        }
    }
    assert forall|n: Seq<char>| new_self.has_param(n) implies new_self.param_at(n)
        == old_self.params_map().remove(name)[n] by {
        if new_self.root_has(n) {
            assert(old_self.root_has(n));
            assert(new_self.param_at(n) == old_self.param_at(n));
        } else {
            let j = choose|j: int| new_self.group_has(j, n);
            assert(new_self.group_has(j, n));
            assert(old_self.group_has(j, n));
            let j2 = choose|j2: int| old_self.group_has(j2, n);
            assert(j2 == j);
            if j == g {
                assert(n != name);
                assert(new_self.group_at(g).parameters.as_map()[n] == old_self.group_at(
                    g,
                ).parameters.as_map()[n]);
            }
            assert(new_self.param_at(n) == old_self.param_at(n));
        }
        assert(old_self.has_param(n));
        assert(old_self.params_map()[n] == old_self.param_at(n));
    }
}

impl RemoteConfig {
    /// Puts a parameter into one group's map; the caller keeps the document
    /// invariant by inserting only a name no other container holds.
    pub fn insert_param_to_group(
        group: &mut ParameterGroup,
        parameter_name: String,
        parameter: Parameter,
    )
        requires
            old(group).parameters.wf(),
        ensures
            final(group).parameters.wf(),
            final(group).parameters.as_map() == old(group).parameters.as_map().insert(
                parameter_name@,
                parameter,
            ),
            final(group).description == old(group).description,
    {
        group.parameters.insert(parameter_name, parameter);
    }

    /// Puts a parameter, held by no container yet, into the group at a
    /// position of the group list.
    pub fn insert_param_into_group_at(&mut self, g: usize, name: String, parameter: Parameter)
        requires
            old(self).wf(),
            g < old(self).groups_len(),
            !old(self).has_param(name@),
        ensures
            final(self).wf(),
            final(self).conditions == old(self).conditions,
            final(self).parameters == old(self).parameters,
            final(self).params_map() =~= old(self).params_map().insert(name@, parameter),
            final(self).group_has(g as int, name@),
            final(self).groups_len() == old(self).groups_len(),
            forall|j: int|
                0 <= j < old(self).groups_len() ==> final(self).group_name_at(j) == old(
                    self,
                ).group_name_at(j) && final(self).group_at(j).description == old(self).group_at(
                    j,
                ).description,
            forall|j: int, k: Seq<char>|
                k != name@ ==> (final(self).group_has(j, k) <==> old(self).group_has(j, k)),
    {
        let ghost old_self = *self;
        let (group_name, mut group) = self.parameter_groups.remove_at(g);
        proof {
            assert(old_self.group_at(g as int).parameters.wf());
        }
        group.parameters.insert(name, parameter);
        let ghost mid_groups = self.parameter_groups;
        self.parameter_groups.insert_at(g, group_name, group);
        proof {
            assert(old_self.parameter_groups.entry_seq().remove(g as int).insert(
                g as int,
                (old_self.parameter_groups.entry_seq()[g as int].0, group),
            ) =~= old_self.parameter_groups.entry_seq().update(
                g as int,
                (old_self.parameter_groups.entry_seq()[g as int].0, group),
            ));
            assert(!mid_groups.spec_contains(old_self.parameter_groups.entry_seq()[g as int].0@))
                by {
                crate::entry_map::lemma_map_of_remove(
                    old_self.parameter_groups.entry_seq(),
                    g as int,
                );
            }
            lemma_insert_fresh_into_group(old_self, *self, g as int, name@, parameter);
        }
    }

    /// Adds a new group under a name no group uses yet, holding parameters no
    /// container holds.
    pub fn insert_group(
        &mut self,
        name: String,
        description: Option<String>,
        parameters: EntryMap<Parameter>,
    )
        requires
            old(self).wf(),
            parameters.wf(),
            !old(self).parameter_groups.spec_contains(name@),
            forall|n: Seq<char>| parameters.spec_contains(n) ==> !old(self).has_param(n),
        ensures
            final(self).wf(),
            final(self).conditions == old(self).conditions,
            final(self).parameters == old(self).parameters,
            final(self).groups_len() == old(self).groups_len() + 1,
            final(self).group_name_at(old(self).groups_len()) == name@,
            final(self).group_at(old(self).groups_len()) == (ParameterGroup {
                description,
                parameters,
            }),
            forall|j: int|
                0 <= j < old(self).groups_len() ==> final(self).group_at(j) == old(self).group_at(
                    j,
                ) && final(self).group_name_at(j) == old(self).group_name_at(j),
            final(self).params_map() =~= old(self).params_map().union_prefer_right(
                parameters.as_map(),
            ),
    {
        let ghost old_self = *self;
        let ghost new_group = ParameterGroup { description: description, parameters: parameters };
        proof {
            lemma_find_key(self.parameter_groups.entry_seq(), name@);
            lemma_map_of_contains(self.parameter_groups.entry_seq(), name@);
            if let Some(i) = find_key(self.parameter_groups.entry_seq(), name@) {
                assert(self.parameter_groups.entry_seq()[i].0@ == name@);
            }
        }
        self.parameter_groups.insert(name, ParameterGroup { description, parameters });
        proof {
            lemma_insert_new_group(old_self, *self, name@, new_group);
        }
    }

    /// Moves the parameter out of the group holding it into the root,
    /// reporting which group it left; a parameter no group holds moves
    /// nothing.
    pub fn move_parameter_out_of_group(&mut self, name: &str) -> (r: Option<String>)
        requires
            old(self).wf(),
        ensures
            final(self).wf(),
            final(self).conditions == old(self).conditions,
            match r {
                None => (forall|g: int| !old(self).group_has(g, name@)) && *final(self) == *old(
                    self,
                ),
                Some(gname) => {
                    &&& exists|g: int| #[trigger] old(self).group_has(g, name@) && old(
                        self,
                    ).group_name_at(g) == gname@
                    &&& final(self).params_map() =~= old(self).params_map()
                    &&& final(self).root_has(name@)
                    &&& forall|g: int| !final(self).group_has(g, name@)
                },
            },
    {
        let g = match self.group_index_of(name) {
            None => {
                return None;
            },
            Some(g) => g,
        };
        let group_name = self.parameter_groups.entry_at(g).0.clone();
        let ghost old_self = *self;
        let parameter = match self.remove_parameter(name) {
            Some(p) => p,
            None => {
                proof {
                    assert(false);
                }
                return None;
            },
        };
        let ghost mid_self = *self;
        let owned_name = name.to_owned();
        self.upsert_parameter(owned_name, parameter);
        proof {
            assert(self.params_map() =~= old_self.params_map());
            assert(self.root_has(name@));
            assert forall|j: int| !self.group_has(j, name@) by {
                assert(self.group_has(j, name@) <==> mid_self.group_has(j, name@));
                assert(!mid_self.has_param(name@));
            }
        }
        Some(group_name)
    }
}

/// After inserting a fresh name into the group at one position, the document
/// is well-formed and its combined parameter map gains the pair.
proof fn lemma_insert_fresh_into_group(
    old_self: RemoteConfig,
    new_self: RemoteConfig,
    g: int,
    name: Seq<char>,
    parameter: Parameter,
)
    requires
        old_self.wf(),
        0 <= g < old_self.groups_len(),
        !old_self.has_param(name),
        new_self.conditions == old_self.conditions,
        new_self.parameters == old_self.parameters,
        new_self.parameter_groups.wf(),
        new_self.parameter_groups.entry_seq() == old_self.parameter_groups.entry_seq().update(
            g,
            (
                old_self.parameter_groups.entry_seq()[g].0,
                ParameterGroup {
                    description: old_self.group_at(g).description,
                    parameters: new_self.group_at(g).parameters,
                },
            ),
        ),
        new_self.group_at(g).parameters.wf(),
        new_self.group_at(g).parameters.as_map() == old_self.group_at(
            g,
        ).parameters.as_map().insert(name, parameter),
        new_self.group_at(g).description == old_self.group_at(g).description,
    ensures
        new_self.wf(),
        new_self.params_map() =~= old_self.params_map().insert(name, parameter),
        new_self.group_has(g, name),
        forall|j: int|
            0 <= j < old_self.groups_len() ==> new_self.group_name_at(j) == old_self.group_name_at(
                j,
            ) && new_self.group_at(j).description == old_self.group_at(j).description,
        forall|k: Seq<char>| new_self.root_has(k) <==> old_self.root_has(k),
        forall|j: int, k: Seq<char>|
            k != name ==> (new_self.group_has(j, k) <==> old_self.group_has(j, k)),
{
    assert(forall|j: int|
        0 <= j < new_self.groups_len() && j != g ==> new_self.group_at(j) == old_self.group_at(j)
            && new_self.group_name_at(j) == old_self.group_name_at(j));
    assert(new_self.group_name_at(g) == old_self.group_name_at(g));
    assert(new_self.group_at(g).parameters.spec_contains(name));
    assert(new_self.group_has(g, name));
    assert forall|j: int, n: Seq<char>| new_self.group_has(j, n) implies !new_self.root_has(
        n,
    ) by {
        if j == g && n == name {
            assert(!old_self.root_has(name));
        } else {
            assert(old_self.group_has(j, n));
            assert(!old_self.root_has(n));
        }
    }
    assert forall|j1: int, j2: int, n: Seq<char>|
        new_self.group_has(j1, n) && new_self.group_has(j2, n) implies j1 == j2 by {
        if n == name {
            if j1 != g {
                assert(old_self.group_has(j1, name));
            }
            if j2 != g {
                assert(old_self.group_has(j2, name));
            }
        } else {
            assert(old_self.group_has(j1, n));
            assert(old_self.group_has(j2, n));
        }
    }
    assert forall|j: int| 0 <= j < new_self.groups_len() implies (
    #[trigger] new_self.group_at(j)).parameters.wf() by {
        if j != g {
            assert(old_self.group_at(j).parameters.wf());
        }
    }
    assert(new_self.wf());
    assert forall|n: Seq<char>| #[trigger] new_self.has_param(n) <==> old_self.params_map().insert(
        name,
        parameter,
    ).contains_key(n) by {
        if n == name {
            assert(new_self.group_has(g, name));
        } else {
            assert(new_self.root_has(n) <==> old_self.root_has(n));
            if old_self.has_param(n) && !old_self.root_has(n) {
                let j = choose|j: int| old_self.group_has(j, n);
                if j == g {
                    assert(new_self.group_at(g).parameters.spec_contains(n));
                    assert(new_self.group_has(g, n));
                } else {
                    assert(new_self.group_has(j, n));
                }
            }
            if new_self.has_param(n) && !new_self.root_has(n) {
                let j = choose|j: int| new_self.group_has(j, n);
                if j == g {
                    assert(old_self.group_at(g).parameters.spec_contains(n));
                    assert(old_self.group_has(g, n));
                } else {
                    assert(old_self.group_has(j, n));
                }
            }
        }
    }
    assert forall|n: Seq<char>| new_self.has_param(n) implies new_self.param_at(n)
        == old_self.params_map().insert(name, parameter)[n] by {
        if n == name {
            assert(!new_self.root_has(name));
            let j = choose|j: int| new_self.group_has(j, name);
            assert(new_self.group_has(j, name));
            assert(j == g);
            assert(new_self.param_at(name) == parameter);
        } else {
            if new_self.root_has(n) {
                assert(new_self.param_at(n) == old_self.param_at(n));
            } else {
                let j = choose|j: int| new_self.group_has(j, n);
                assert(new_self.group_has(j, n));
                assert(old_self.group_has(j, n));
                let j2 = choose|j2: int| old_self.group_has(j2, n);
                assert(j2 == j);
                if j == g {
                    assert(new_self.group_at(g).parameters.as_map()[n] == old_self.group_at(
                        g,
                    ).parameters.as_map()[n]);
                }
                assert(new_self.param_at(n) == old_self.param_at(n));
            }
            assert(old_self.has_param(n));
            assert(old_self.params_map()[n] == old_self.param_at(n));
        }
    }
}

/// After adding a wholly fresh group, the document is well-formed and its
/// combined parameter map gains the group's pairs.
proof fn lemma_insert_new_group(
    old_self: RemoteConfig,
    new_self: RemoteConfig,
    name: Seq<char>,
    group: ParameterGroup,
)
    requires
        old_self.wf(),
        group.parameters.wf(),
        !old_self.parameter_groups.spec_contains(name),
        forall|n: Seq<char>| group.parameters.spec_contains(n) ==> !old_self.has_param(n),
        new_self.conditions == old_self.conditions,
        new_self.parameters == old_self.parameters,
        new_self.parameter_groups.wf(),
        new_self.parameter_groups.entry_seq() == old_self.parameter_groups.entry_seq().push(
            (new_self.parameter_groups.entry_seq().last().0, group),
        ),
        new_self.parameter_groups.entry_seq().last().0@ == name,
    ensures
        new_self.wf(),
        new_self.groups_len() == old_self.groups_len() + 1,
        new_self.group_name_at(old_self.groups_len()) == name,
        new_self.group_at(old_self.groups_len()) == group,
        forall|j: int|
            0 <= j < old_self.groups_len() ==> new_self.group_at(j) == old_self.group_at(j)
                && new_self.group_name_at(j) == old_self.group_name_at(j),
        new_self.params_map() =~= old_self.params_map().union_prefer_right(
            group.parameters.as_map(),
        ),
{
    let glen = old_self.groups_len();
    assert(forall|j: int|
        0 <= j < glen ==> new_self.group_at(j) == old_self.group_at(j) && new_self.group_name_at(j)
            == old_self.group_name_at(j));
    assert(new_self.group_at(glen) == group);
    assert forall|j: int, n: Seq<char>| new_self.group_has(j, n) implies !new_self.root_has(
        n,
    ) by {
        if j == glen {
            assert(group.parameters.spec_contains(n));
            assert(!old_self.has_param(n));
        } else {
            assert(old_self.group_has(j, n));
            assert(!old_self.root_has(n));
        }
    }
    assert forall|j1: int, j2: int, n: Seq<char>|
        new_self.group_has(j1, n) && new_self.group_has(j2, n) implies j1 == j2 by {
        if j1 == glen && j2 != glen {
            assert(old_self.group_has(j2, n));
            assert(!old_self.has_param(n));
        } else if j2 == glen && j1 != glen {
            assert(old_self.group_has(j1, n));
            assert(!old_self.has_param(n));
        } else if j1 != glen && j2 != glen {
            assert(old_self.group_has(j1, n));
            assert(old_self.group_has(j2, n));
        }
    }
    assert forall|j: int| 0 <= j < new_self.groups_len() implies (
    #[trigger] new_self.group_at(j)).parameters.wf() by {
        if j != glen {
            assert(old_self.group_at(j).parameters.wf());
        }
    }
    assert(new_self.wf());
    assert forall|n: Seq<char>| #[trigger] new_self.has_param(n)
        <==> old_self.params_map().union_prefer_right(group.parameters.as_map()).contains_key(
        n,
    ) by {
        if group.parameters.spec_contains(n) {
            assert(new_self.group_has(glen, n));
        } else {
            assert(new_self.root_has(n) <==> old_self.root_has(n));
            if old_self.has_param(n) && !old_self.root_has(n) {
                let j = choose|j: int| old_self.group_has(j, n);
                assert(new_self.group_has(j, n));
            }
            if new_self.has_param(n) && !new_self.root_has(n) {
                let j = choose|j: int| new_self.group_has(j, n);
                assert(j != glen);
                assert(old_self.group_has(j, n));
            }
        }
    }
    assert forall|n: Seq<char>| new_self.has_param(n) implies new_self.param_at(n)
        == old_self.params_map().union_prefer_right(group.parameters.as_map())[n] by {
        if group.parameters.spec_contains(n) {
            assert(!new_self.root_has(n));
            assert(new_self.group_has(glen, n));
            let j = choose|j: int| new_self.group_has(j, n);
            assert(new_self.group_has(j, n));
            assert(j == glen);
            assert(new_self.param_at(n) == group.parameters.as_map()[n]);
        } else {
            if new_self.root_has(n) {
                assert(new_self.param_at(n) == old_self.param_at(n));
            } else {
                let j = choose|j: int| new_self.group_has(j, n);
                assert(new_self.group_has(j, n));
                assert(j != glen);
                assert(old_self.group_has(j, n));
                let j2 = choose|j2: int| old_self.group_has(j2, n);
                assert(j2 == j);
                assert(new_self.param_at(n) == old_self.param_at(n));
            }
            assert(old_self.has_param(n));
            assert(old_self.params_map()[n] == old_self.param_at(n));
        }
    }
}

impl Parameter {
    /// The same parameter with every conditional value stripped: only default
    /// value, description and type carry over.
    pub fn clone_without_conditional_values(&self) -> (r: Parameter)
        ensures
            r.default_value == self.default_value,
            r.description == self.description,
            r.value_type == self.value_type,
            r.conditional_values.entry_seq() == Seq::<(String, ParameterValue)>::empty(),
            r.conditional_values.wf(),
    {
        Parameter {
            default_value: match &self.default_value {
                Some(v) => Some(v.clone()),
                None => None,
            },
            description: crate::strings::clone_opt_string(&self.description),
            value_type: self.value_type,
            conditional_values: EntryMap::new(),
        }
    }

    /// A boolean parameter defaulting to `false`, with a description and no
    /// conditional values.
    pub fn stub() -> (r: Parameter)
        ensures
            r.value_type == ParameterValueType::Boolean,
            r.conditional_values.entry_seq() == Seq::<(String, ParameterValue)>::empty(),
            r.conditional_values.wf(),
            match r.default_value {
                Some(v) => v matches ParameterValue::Value(s) && s@ == "false"@,
                None => false,
            },
            match r.description {
                Some(d) => d@ == "desc"@,
                None => false,
            },
    {
        Parameter {
            default_value: Some(ParameterValue::Value("false".to_owned())),
            conditional_values: EntryMap::new(),
            description: Some("desc".to_owned()),
            value_type: ParameterValueType::Boolean,
        }
    }
}

impl ParameterValueType {
    /// The label shown for the type in a table cell.
    pub fn cell_content(&self) -> (r: &'static str)
        ensures
            r@ == match *self {
                ParameterValueType::String => "String"@,
                ParameterValueType::Boolean => "Bool"@,
                ParameterValueType::Number => "Number"@,
                ParameterValueType::Json => "JSON"@,
                ParameterValueType::Unspecified => "Unspecified"@,
            },
    {
        match self {
            ParameterValueType::String => "String",
            ParameterValueType::Boolean => "Bool",
            ParameterValueType::Number => "Number",
            ParameterValueType::Json => "JSON",
            ParameterValueType::Unspecified => "Unspecified",
        }
    }
}

impl ParameterValue {
    /// The text shown for the value in a table cell.
    pub fn cell_content(&self) -> (r: &str)
        ensures
            r@ == match *self {
                ParameterValue::Value(s) => s@,
                ParameterValue::UseInAppDefault(_) => "Use in app default"@,
            },
    {
        match self {
            ParameterValue::Value(string) => string.as_str(),
            ParameterValue::UseInAppDefault(_) => "Use in app default",
        }
    }
}

impl Default for RemoteConfig {
    /// An empty document: no conditions, no parameters, no groups.
    fn default() -> (r: RemoteConfig)
        ensures
            r.conditions@ == Seq::<Condition>::empty(),
            r.parameters.entry_seq() == Seq::<(String, Parameter)>::empty(),
            r.parameter_groups.entry_seq() == Seq::<(String, ParameterGroup)>::empty(),
            r.wf(),
            forall|n: Seq<char>| !r.has_param(n),
    {
        RemoteConfig {
            conditions: Vec::new(),
            parameters: EntryMap::new(),
            parameter_groups: EntryMap::new(),
        }
    }
}

impl RemoteConfig {
    /// An empty document but for one stub parameter at the root.
    pub fn new_with_root_stub_parameter(name: &str) -> (r: RemoteConfig)
        ensures
            r.wf(),
            r.conditions@ == Seq::<Condition>::empty(),
            r.parameter_groups.entry_seq() == Seq::<(String, ParameterGroup)>::empty(),
            r.root_has(name@),
            r.params_map() =~= Map::<Seq<char>, Parameter>::empty().insert(
                name@,
                r.param_at(name@),
            ),
            r.param_at(name@).value_type == ParameterValueType::Boolean,
            r.param_at(name@).conditional_values.entry_seq() == Seq::<(
                String,
                ParameterValue,
            )>::empty(),
    {
        let mut config = RemoteConfig::default();
        let stub = Parameter::stub();
        let ghost stub_value = stub;
        let ghost empty_config = config;
        config.upsert_parameter(name.to_owned(), stub);
        proof {
            assert(config.parameter_groups.entry_seq() =~= Seq::<(String, ParameterGroup)>::empty());
            assert(empty_config.params_map() =~= Map::<Seq<char>, Parameter>::empty());
            assert(config.params_map().contains_key(name@));
            assert(config.params_map()[name@] == stub_value);
            assert(config.has_param(name@));
            assert(config.param_at(name@) == stub_value);
            assert(config.params_map() =~= Map::<Seq<char>, Parameter>::empty().insert(
                name@,
                config.param_at(name@),
            ));
        }
        config
    }
}

/// A parameter name occurring in one container occurs in no other: lookup can
/// never designate a second container for it.
pub proof fn lemma_container_unique(config: RemoteConfig, name: Seq<char>)
    requires
        config.wf(),
    ensures
        config.root_has(name) ==> forall|g: int| !config.group_has(g, name),
        forall|g1: int, g2: int|
            config.group_has(g1, name) && config.group_has(g2, name) ==> g1 == g2,
{
}

} // verus!
