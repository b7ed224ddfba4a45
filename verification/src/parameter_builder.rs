//! Assembling a parameter from operator input, with validation.
//!
//! Validation failures are reported inline and re-prompted outside the
//! library; the rules themselves — what a well-formed name or value is — live
//! here.
use crate::entry_map::EntryMap;
use crate::error::Error;
use crate::remote_config::{Parameter, ParameterValue, ParameterValueType};
use crate::strings::clone_opt_string;
use vstd::prelude::*;
use vstd::string::StrSliceExecFns;

verus! {

/// Whether the text is JSON that the parser accepts. Relied on from
/// `is_valid_json`; the verdict depends on the text alone.
pub uninterp spec fn json_wf(s: Seq<char>) -> bool;

/// Relies on serde_json::from_str::<serde_json::Value>: whether parsing
/// succeeds is a function of the text alone, and `json_wf` names that
/// verdict.
#[verifier::external_body]
fn is_valid_json(s: &str) -> (r: bool)
    ensures
        r == json_wf(s@),
{
    serde_json::from_str::<serde_json::Value>(s).is_ok()
}

pub open spec fn is_ascii_alphabetic(c: char) -> bool {
    (65 <= c as u32 && c as u32 <= 90) || (97 <= c as u32 && c as u32 <= 122)
}

pub open spec fn is_ascii_digit(c: char) -> bool {
    48 <= c as u32 && c as u32 <= 57
}

pub open spec fn is_ascii_alphanumeric(c: char) -> bool {
    is_ascii_alphabetic(c) || is_ascii_digit(c)
}

/// A well-formed parameter name: nonempty, starting with an English letter or
/// underscore, continuing with English letters, digits and underscores.
pub open spec fn valid_name(s: Seq<char>) -> bool {
    &&& s.len() > 0
    &&& (is_ascii_alphabetic(s[0]) || s[0] == '_')
    &&& forall|i: int| 1 <= i < s.len() ==> is_ascii_alphanumeric(#[trigger] s[i]) || s[i] == '_'
}

/// A nonempty run of digits with at most one decimal point among them, and at
/// least one digit.
pub open spec fn digits_with_one_dot(t: Seq<char>) -> bool {
    &&& t.len() > 0
    &&& forall|i: int| 0 <= i < t.len() ==> is_ascii_digit(#[trigger] t[i]) || t[i] == '.'
    &&& exists|i: int| 0 <= i < t.len() && is_ascii_digit(t[i])
    &&& forall|i: int, j: int| 0 <= i < j < t.len() && t[i] == '.' ==> t[j] != '.'
}

/// A decimal numeric literal: an optional sign, then digits with at most one
/// decimal point among them, at least one digit in all.
pub open spec fn valid_number(s: Seq<char>) -> bool {
    if s.len() > 0 && (s[0] == '+' || s[0] == '-') {
        digits_with_one_dot(s.skip(1))
    } else {
        digits_with_one_dot(s)
    }
}

/// A well-formed value for a type: `true` or `false` for Boolean, a decimal
/// literal for Number, anything for String, well-formed JSON text for JSON.
pub open spec fn valid_value(s: Seq<char>, value_type: ParameterValueType) -> bool {
    match value_type {
        ParameterValueType::Boolean => s == "true"@ || s == "false"@,
        ParameterValueType::Number => valid_number(s),
        ParameterValueType::String => true,
        ParameterValueType::Json => json_wf(s),
        ParameterValueType::Unspecified => false,
    }
}

/// The pieces a parameter is assembled from while the operator fills them in.
pub struct Parts {
    pub name: String,
    pub description: Option<String>,
    pub default_value: ParameterValue,
    pub value_type: ParameterValueType,
    pub conditional_values: EntryMap<ParameterValue>,
}

impl Parts {
    /// Fresh parts under a validated name, with an optional description.
    pub fn new(name: String, description: Option<String>) -> (r: Parts)
        ensures
            r.name == name,
            r.description == description,
            r.value_type == ParameterValueType::String,
            r.conditional_values.entry_seq() == Seq::<(String, ParameterValue)>::empty(),
            r.conditional_values.wf(),
    {
        Parts {
            name,
            description,
            default_value: ParameterValue::default(),
            value_type: ParameterValueType::default(),
            conditional_values: EntryMap::new(),
        }
    }

    /// Parts pre-filled from an existing parameter: its description and type
    /// carry over, values are entered afresh.
    pub fn new_from_parameter(name: String, parameter: &Parameter) -> (r: Parts)
        ensures
            r.name == name,
            r.description == parameter.description,
            r.value_type == parameter.value_type,
            r.conditional_values.entry_seq() == Seq::<(String, ParameterValue)>::empty(),
            r.conditional_values.wf(),
    {
        Parts {
            name,
            description: clone_opt_string(&parameter.description),
            default_value: ParameterValue::default(),
            value_type: parameter.value_type,
            conditional_values: EntryMap::new(),
        }
    }

    /// Accepts the name exactly when it is well-formed, else says what is
    /// wrong with it.
    pub fn validate_name(name: String) -> (r: Result<String, &'static str>)
        ensures
            match r {
                Ok(n) => valid_name(name@) && n == name,
                Err(m) => !valid_name(name@) && (if name@.len() == 0 {
                    m@ == "Name must contain at least one character"@
                } else if !(is_ascii_alphabetic(name@[0]) || name@[0] == '_') {
                    m@
                        == "Parameter name must start with an underscore or English letter character [A-Z, a-z]"@
                } else {
                    m@
                        == "Parameter name can only include English letter characters, numbers and underscore"@
                }),
            },
    {
        let s = name.as_str();
        let len = s.unicode_len();
        if len == 0 {
            return Err("Name must contain at least one character");
        }
        let first = s.get_char(0);
        let first_u = first as u32;
        if !((65 <= first_u && first_u <= 90) || (97 <= first_u && first_u <= 122) || first == '_')
        {
            return Err(
                "Parameter name must start with an underscore or English letter character [A-Z, a-z]",
            );
        }
        let mut i: usize = 1;
        while i < len
            invariant
                1 <= i <= len,
                len == name@.len(),
                s@ == name@,
                is_ascii_alphabetic(name@[0]) || name@[0] == '_',
                forall|j: int|
                    1 <= j < i ==> is_ascii_alphanumeric(#[trigger] name@[j]) || name@[j] == '_',
            decreases len - i,
        {
            let c = s.get_char(i);
            let u = c as u32;
            if !((65 <= u && u <= 90) || (97 <= u && u <= 122) || (48 <= u && u <= 57) || c == '_')
            {
                return Err(
                    "Parameter name can only include English letter characters, numbers and underscore",
                );
            }
            i = i + 1;
        }
        Ok(name)
    }

    /// Accepts the value exactly when it is well-formed for the type. A value
    /// of unspecified type is never accepted, so the parts never hold one.
    pub fn validate_value(value: String, value_type: &ParameterValueType) -> (r: Result<
        String,
        &'static str,
    >)
        requires
            *value_type != ParameterValueType::Unspecified,
        ensures
            match r {
                Ok(v) => valid_value(value@, *value_type) && v == value,
                Err(m) => !valid_value(value@, *value_type) && m@ == (match *value_type {
                    ParameterValueType::Boolean => "Value must be a boolean"@,
                    ParameterValueType::Number => "Value must be numeric"@,
                    ParameterValueType::Json => "Invalid JSON"@,
                    _ => Seq::<char>::empty(),
                }),
            },
    {
        match value_type {
            ParameterValueType::Boolean => {
                if crate::strings::str_eq(value.as_str(), "true") || crate::strings::str_eq(
                    value.as_str(),
                    "false",
                ) {
                    Ok(value)
                } else {
                    Err("Value must be a boolean")
                }
            },
            ParameterValueType::Number => {
                if is_numeric(value.as_str()) {
                    Ok(value)
                } else {
                    Err("Value must be numeric")
                }
            },
            ParameterValueType::String => Ok(value),
            ParameterValueType::Json => {
                if is_valid_json(value.as_str()) {
                    Ok(value)
                } else {
                    Err("Invalid JSON")
                }
            },
            ParameterValueType::Unspecified => {
                proof {
                    assert(false);
                }
                Err("Value must be a boolean")
            },
        }
    }

    /// Validates the value for the parts' type and takes it as the default.
    pub fn set_default_value(&mut self, value: String) -> (r: Result<(), &'static str>)
        requires
            old(self).value_type != ParameterValueType::Unspecified,
        ensures
            match r {
                Ok(_) => valid_value(value@, old(self).value_type) && *final(self) == (Parts {
                    default_value: ParameterValue::Value(value),
                    ..*old(self)
                }),
                Err(_) => !valid_value(value@, old(self).value_type) && *final(self) == *old(self),
            },
    {
        match Parts::validate_value(value, &self.value_type) {
            Ok(value) => {
                self.default_value = ParameterValue::Value(value);
                Ok(())
            },
            Err(m) => Err(m),
        }
    }

    /// Validates the value for the parts' type and records it as the override
    /// for a condition.
    pub fn set_value_for_condition(&mut self, condition_name: String, value: String) -> (r: Result<
        (),
        &'static str,
    >)
        requires
            old(self).value_type != ParameterValueType::Unspecified,
            old(self).conditional_values.wf(),
        ensures
            final(self).name == old(self).name,
            final(self).description == old(self).description,
            final(self).default_value == old(self).default_value,
            final(self).value_type == old(self).value_type,
            final(self).conditional_values.wf(),
            match r {
                Ok(_) => valid_value(value@, old(self).value_type)
                    && final(self).conditional_values.as_map() == old(
                    self,
                ).conditional_values.as_map().insert(
                    condition_name@,
                    ParameterValue::Value(value),
                ),
                Err(_) => !valid_value(value@, old(self).value_type) && *final(self) == *old(self),
            },
    {
        match Parts::validate_value(value, &self.value_type) {
            Ok(value) => {
                self.conditional_values.insert(condition_name, ParameterValue::Value(value));
                Ok(())
            },
            Err(m) => Err(m),
        }
    }

    /// The finished parameter and its name.
    pub fn parameter(self) -> (r: (String, Parameter))
        ensures
            r.0 == self.name,
            r.1 == (Parameter {
                default_value: Some(self.default_value),
                conditional_values: self.conditional_values,
                description: self.description,
                value_type: self.value_type,
            }),
    {
        let parameter = Parameter {
            default_value: Some(self.default_value),
            conditional_values: self.conditional_values,
            description: self.description,
            value_type: self.value_type,
        };
        (self.name, parameter)
    }
}

/// The conditional-value map a list of name/value pairs denotes, each value
/// wrapped as a typed literal; a later pair wins a repeated name.
pub open spec fn values_map_of(pairs: Seq<(String, String)>) -> Map<Seq<char>, ParameterValue> {
    crate::entry_map::map_of(
        pairs.map_values(|p: (String, String)| (p.0, ParameterValue::Value(p.1))),
    )
}

/// Rebuilds a parameter from freshly entered values, as the custom-values
/// rollout does: name, description and type carry over from the original;
/// the default and the per-condition overrides arrive as text and are
/// validated for the type.
pub struct ParameterBuilder {
    pub parts: Parts,
}

impl ParameterBuilder {
    /// A builder pre-filled from an existing parameter.
    pub fn new_from_parameter(name: String, parameter: &Parameter) -> (r: ParameterBuilder)
        ensures
            r.parts.name == name,
            r.parts.description == parameter.description,
            r.parts.value_type == parameter.value_type,
            r.parts.conditional_values.entry_seq() == Seq::<(String, ParameterValue)>::empty(),
            r.parts.conditional_values.wf(),
    {
        ParameterBuilder { parts: Parts::new_from_parameter(name, parameter) }
    }

    /// Takes the default value and one override per condition, each validated
    /// for the parameter's type; the build succeeds exactly when every value
    /// is well-formed.
    pub fn add_values(self, default_value: String, condition_values: Vec<(String, String)>) -> (r:
        Result<(String, Parameter), Error>)
        requires
            self.parts.value_type != ParameterValueType::Unspecified,
            self.parts.conditional_values.entry_seq() == Seq::<(String, ParameterValue)>::empty(),
            self.parts.conditional_values.wf(),
        ensures
            r is Ok <==> (valid_value(default_value@, self.parts.value_type) && (forall|i: int|
                0 <= i < condition_values@.len() ==> valid_value(
                    (#[trigger] condition_values@[i]).1@,
                    self.parts.value_type,
                ))),
            match r {
                Ok(built) => {
                    &&& built.0 == self.parts.name
                    &&& built.1.description == self.parts.description
                    &&& built.1.value_type == self.parts.value_type
                    &&& built.1.default_value == Some(ParameterValue::Value(default_value))
                    &&& built.1.conditional_values.wf()
                    &&& built.1.conditional_values.as_map() == values_map_of(condition_values@)
                },
                Err(_) => true,
            },
    {
        let ghost original = self;
        let mut this = self;
        let ghost dv = default_value@;
        if let Err(message) = this.parts.set_default_value(default_value) {
            proof {
                assert(!valid_value(dv, original.parts.value_type));
            }
            return Err(Error::new(message));
        }
        let ghost all_pairs = condition_values@;
        let ghost mapped = all_pairs.map_values(
            |p: (String, String)| (p.0, ParameterValue::Value(p.1)),
        );
        let total = condition_values.len();
        let mut remaining = condition_values;
        let mut i: usize = 0;
        proof {
            assert(mapped.take(0) =~= Seq::<(String, ParameterValue)>::empty());
            assert(this.parts.conditional_values.as_map() == crate::entry_map::map_of(
                mapped.take(0),
            ));
        }
        while remaining.len() > 0
            invariant
                i <= all_pairs.len(),
                all_pairs.len() == total,
                all_pairs == condition_values@,
                dv == default_value@,
                valid_value(dv, original.parts.value_type),
                remaining@ == all_pairs.skip(i as int),
                mapped == all_pairs.map_values(
                    |p: (String, String)| (p.0, ParameterValue::Value(p.1)),
                ),
                this.parts.value_type == original.parts.value_type,
                original == self,
                this.parts.value_type != ParameterValueType::Unspecified,
                this.parts.name == original.parts.name,
                this.parts.description == original.parts.description,
                this.parts.default_value == ParameterValue::Value(default_value),
                this.parts.conditional_values.wf(),
                this.parts.conditional_values.as_map() == crate::entry_map::map_of(
                    mapped.take(i as int),
                ),
                forall|j: int|
                    0 <= j < i ==> valid_value((#[trigger] all_pairs[j]).1@, self.parts.value_type),
            decreases all_pairs.len() - i,
        {
            let (condition_name, value) = remaining.remove(0);
            proof {
                assert((condition_name, value) == all_pairs[i as int]);
                assert(all_pairs.skip(i as int).remove(0) =~= all_pairs.skip(i + 1));
            }
            if let Err(message) = this.parts.set_value_for_condition(condition_name, value) {
                proof {
                    assert(!valid_value(all_pairs[i as int].1@, original.parts.value_type));
                }
                return Err(Error::new(message));
            }
            proof {
                let t = mapped.take(i + 1);
                assert(t.drop_last() =~= mapped.take(i as int));
                assert(t.last() == mapped[i as int]);
                assert(mapped[i as int] == (
                    all_pairs[i as int].0,
                    ParameterValue::Value(all_pairs[i as int].1),
                ));
            }
            i = i + 1;
        }
        proof {
            assert(mapped.take(all_pairs.len() as int) =~= mapped);
        }
        Ok(this.parts.parameter())
    }
}

/// Executable twin of `valid_number`.
pub fn is_numeric(s: &str) -> (r: bool)
    ensures
        r == valid_number(s@),
{
    let len = s.unicode_len();
    if len == 0 {
        return false;
    }
    let first = s.get_char(0);
    let start: usize = if first == '+' || first == '-' {
        1
    } else {
        0
    };
    let ghost t = s@.skip(start as int);
    proof {
        if start == 0 {
            assert(t =~= s@);
        }
        assert(valid_number(s@) == digits_with_one_dot(t));
    }
    if start == len {
        assert(!digits_with_one_dot(t));
        return false;
    }
    let mut saw_digit = false;
    let mut saw_dot = false;
    let mut i: usize = start;
    while i < len
        invariant
            start <= i <= len,
            start < len,
            len == s@.len(),
            t == s@.skip(start as int),
            t.len() == len - start,
            forall|j: int| 0 <= j < i - start ==> is_ascii_digit(#[trigger] t[j]) || t[j] == '.',
            saw_digit == exists|j: int| 0 <= j < i - start && is_ascii_digit(t[j]),
            saw_dot == exists|j: int| 0 <= j < i - start && t[j] == '.',
            forall|a: int, b: int| 0 <= a < b < i - start && t[a] == '.' ==> t[b] != '.',
            valid_number(s@) == digits_with_one_dot(t),
        decreases len - i,
    {
        let c = s.get_char(i);
        let u = c as u32;
        proof {
            assert(t[i - start] == s@[i as int]);
        }
        if 48 <= u && u <= 57 {
            proof {
                assert(is_ascii_digit(t[i - start]));
            }
            saw_digit = true;
        } else if c == '.' {
            if saw_dot {
                proof {
                    let a = choose|a: int| 0 <= a < i - start && t[a] == '.';
                    assert(t[a] == '.' && t[i - start] == '.');
                    assert(!digits_with_one_dot(t));
                }
                return false;
            }
            saw_dot = true;
        } else {
            proof {
                assert(!(is_ascii_digit(t[i - start]) || t[i - start] == '.'));
                assert(!digits_with_one_dot(t));
            }
            return false;
        }
        i = i + 1;
    }
    if !saw_digit {
        assert(!digits_with_one_dot(t));
        return false;
    }
    assert(digits_with_one_dot(t));
    true
}

impl ParameterValueType {
    /// The type a selection label names.
    pub fn from_label(value: &str) -> (r: ParameterValueType)
        requires
            value@ == "Boolean"@ || value@ == "JSON"@ || value@ == "Number"@ || value@
                == "String"@,
        ensures
            value@ == "Boolean"@ ==> r == ParameterValueType::Boolean,
            value@ == "JSON"@ ==> r == ParameterValueType::Json,
            value@ == "Number"@ ==> r == ParameterValueType::Number,
            value@ == "String"@ ==> r == ParameterValueType::String,
    {
        proof {
            reveal_strlit("Boolean");
            reveal_strlit("JSON");
            reveal_strlit("Number");
            reveal_strlit("String");
            assert("Boolean"@.len() == 7);
            assert("JSON"@.len() == 4);
            assert("Number"@.len() == 6);
            assert("String"@.len() == 6);
            assert("Number"@[0] == 'N');
            assert("String"@[0] == 'S');
            assert("Boolean"@ != "JSON"@);
            assert("Boolean"@ != "Number"@);
            assert("Boolean"@ != "String"@);
            assert("JSON"@ != "Number"@);
            assert("JSON"@ != "String"@);
            assert("Number"@ != "String"@);
        }
        if crate::strings::str_eq(value, "Boolean") {
            ParameterValueType::Boolean
        } else if crate::strings::str_eq(value, "JSON") {
            ParameterValueType::Json
        } else if crate::strings::str_eq(value, "Number") {
            ParameterValueType::Number
        } else {
            ParameterValueType::String
        }
    }

    /// The labels a type is selected from, in the order offered.
    pub fn labels() -> (r: Vec<&'static str>)
        ensures
            r@.len() == 4,
            r@[0]@ == "Boolean"@,
            r@[1]@ == "Number"@,
            r@[2]@ == "String"@,
            r@[3]@ == "JSON"@,
    {
        let mut labels: Vec<&'static str> = Vec::new();
        labels.push("Boolean");
        labels.push("Number");
        labels.push("String");
        labels.push("JSON");
        labels
    }
}

impl Default for ParameterValueType {
    fn default() -> (r: ParameterValueType)
        ensures
            r == ParameterValueType::String,
    {
        ParameterValueType::String
    }
}

impl Default for ParameterValue {
    fn default() -> (r: ParameterValue)
        ensures
            r matches ParameterValue::Value(s) && s@ == Seq::<char>::empty(),
    {
        ParameterValue::Value(String::new())
    }
}

} // verus!
