//! Operators of the condition-expression compiler and their wire rendering.
//!
//! A binary operator renders as `dimension OP literal`; a set operator as
//! `dimension.op(['v1','v2'])`; the `in` operator as `dimension in ['v1',...]`.
use vstd::prelude::*;

verus! {

#[derive(Clone, Copy, PartialEq, Debug)]
pub enum BinaryOperator {
    Less,
    LessEq,
    Eq,
    More,
    MoreEq,
    BangEq,
}

#[derive(Clone, Copy, PartialEq, Debug)]
pub enum SetOperator {
    Contains,
    NotContains,
    Matches,
    ExactlyMatches,
    In,
    Binary(BinaryOperator),
}

/// The comparison symbol a binary operator puts on the wire.
pub open spec fn binary_symbol(op: BinaryOperator) -> Seq<char> {
    match op {
        BinaryOperator::Less => "<"@,
        BinaryOperator::LessEq => "<="@,
        BinaryOperator::Eq => "=="@,
        BinaryOperator::BangEq => "!="@,
        BinaryOperator::More => ">"@,
        BinaryOperator::MoreEq => ">="@,
    }
}

/// The method name a set operator puts on the wire.
pub open spec fn set_symbol(op: SetOperator) -> Seq<char> {
    match op {
        SetOperator::Contains => "contains"@,
        SetOperator::NotContains => "notContains"@,
        SetOperator::Matches => "matches"@,
        SetOperator::ExactlyMatches => "exactlyMatches"@,
        SetOperator::In => "in"@,
        SetOperator::Binary(b) => binary_symbol(b),
    }
}

/// `dimension OP literal`.
pub open spec fn binary_condition(name: Seq<char>, op: BinaryOperator, value: Seq<char>) -> Seq<
    char,
> {
    name + " "@ + binary_symbol(op) + " "@ + value
}

/// The value list inside the brackets: each value single-quoted, values
/// separated by commas, no spaces.
pub open spec fn quoted_values(values: Seq<Seq<char>>) -> Seq<char>
    decreases values.len(),
{
    if values.len() == 0 {
        Seq::empty()
    } else if values.len() == 1 {
        "'"@ + values[0] + "'"@
    } else {
        quoted_values(values.drop_last()) + ",'"@ + values.last() + "'"@
    }
}

/// What a set operator compiles to for a dimension and an operand list.
/// A binary operator embedded here takes the first value as its literal.
pub open spec fn set_condition(name: Seq<char>, op: SetOperator, values: Seq<Seq<char>>) -> Seq<
    char,
> {
    match op {
        SetOperator::In => name + " in ["@ + quoted_values(values) + "]"@,
        SetOperator::Binary(b) => binary_condition(
            name,
            b,
            if values.len() > 0 {
                values[0]
            } else {
                Seq::empty()
            },
        ),
        _ => name + "."@ + set_symbol(op) + "(["@ + quoted_values(values) + "])"@,
    }
}

/// The view of each string in a vector.
pub open spec fn views(values: Seq<String>) -> Seq<Seq<char>> {
    values.map_values(|v: String| v@)
}

impl BinaryOperator {
    /// The operator's wire symbol.
    pub fn as_str(&self) -> (r: &'static str)
        ensures
            r@ == binary_symbol(*self),
    {
        match self {
            BinaryOperator::Less => "<",
            BinaryOperator::LessEq => "<=",
            BinaryOperator::Eq => "==",
            BinaryOperator::BangEq => "!=",
            BinaryOperator::More => ">",
            BinaryOperator::MoreEq => ">=",
        }
    }

    /// Renders `condition_name OP value`.
    pub fn to_condition(&self, condition_name: &str, value: &str) -> (r: String)
        ensures
            r@ == binary_condition(condition_name@, *self, value@),
    {
        let mut out = String::new();
        out.append(condition_name);
        out.append(" ");
        out.append(self.as_str());
        out.append(" ");
        out.append(value);
        out
    }
}

/// Renders the operand list as `'v1','v2',...`.
pub fn render_quoted_values(values: &Vec<String>) -> (r: String)
    ensures
        r@ == quoted_values(views(values@)),
{
    let ghost vs = views(values@);
    let mut out = String::new();
    let mut i: usize = 0;
    proof {
        assert(vs.take(0) =~= Seq::<Seq<char>>::empty());
    }
    while i < values.len()
        invariant
            i <= values.len(),
            vs == views(values@),
            vs.len() == values@.len(),
            forall|j: int| 0 <= j < vs.len() ==> vs[j] == values@[j]@,
            out@ == quoted_values(vs.take(i as int)),
        decreases values.len() - i,
    {
        if i == 0 {
            out.append("'");
            out.append(values[i].as_str());
            out.append("'");
        } else {
            out.append(",'");
            out.append(values[i].as_str());
            out.append("'");
        }
        proof {
            let t = vs.take(i + 1);
            assert(t.drop_last() =~= vs.take(i as int));
            assert(t.last() == vs[i as int]);
            if i == 0 {
                assert(t.len() == 1);
                assert(t[0] == vs[0]);
            }
        }
        i = i + 1;
    }
    proof {
        assert(vs.take(values@.len() as int) =~= vs);
    }
    out
}

impl SetOperator {
    /// The operator's wire symbol.
    pub fn as_str(&self) -> (r: &'static str)
        ensures
            r@ == set_symbol(*self),
    {
        match self {
            SetOperator::Contains => "contains",
            SetOperator::NotContains => "notContains",
            SetOperator::Matches => "matches",
            SetOperator::ExactlyMatches => "exactlyMatches",
            SetOperator::In => "in",
            SetOperator::Binary(b) => b.as_str(),
        }
    }

    /// Renders a full clause for a dimension and an operand list.
    pub fn to_condition(&self, condition_name: &str, values: &Vec<String>) -> (r: String)
        ensures
            r@ == set_condition(condition_name@, *self, views(values@)),
    {
        match self {
            SetOperator::In => {
                let mut out = String::new();
                out.append(condition_name);
                out.append(" in [");
                let quoted = render_quoted_values(values);
                out.append(quoted.as_str());
                out.append("]");
                proof {
                    assert(out@ =~= set_condition(condition_name@, *self, views(values@)));
                }
                out
            },
            SetOperator::Binary(b) => {
                if values.len() > 0 {
                    let r = b.to_condition(condition_name, values[0].as_str());
                    proof {
                        assert(views(values@)[0] == values@[0]@);
                    }
                    r
                } else {
                    let r = b.to_condition(condition_name, "");
                    proof {
                        reveal_strlit("");
                        assert(""@ =~= Seq::<char>::empty());
                    }
                    r
                }
            },
            _ => {
                let mut out = String::new();
                out.append(condition_name);
                out.append(".");
                out.append(self.as_str());
                out.append("([");
                let quoted = render_quoted_values(values);
                out.append(quoted.as_str());
                out.append("])");
                proof {
                    assert(out@ =~= set_condition(condition_name@, *self, views(values@)));
                }
                out
            },
        }
    }
}

} // verus!
