//! The condition-expression compiler and app-id substitution.
//!
//! A structured condition (dimension, operator, operand) compiles to the wire
//! boolean-expression string. Dimensions scoped to one application (app
//! build, app version, user property) prepend an `app.id == '<id>'` conjunct.
//! App-id substitution rewrites that embedded identifier for a different
//! project holding an identifier of the same platform.
use crate::error::Error;
use crate::operator::{set_condition, views, SetOperator};
use crate::strings::{
    find_char, find_sub, scan_char, scan_sub, str_eq, third_segment, third_segment_bounds,
};
use vstd::prelude::*;
use vstd::string::{StrSliceExecFns, StringExecFns};

verus! {

/// The closed set of condition dimensions offered to the operator.
#[derive(Clone, Copy, PartialEq, Debug)]
pub enum ExpressionListItem {
    AppBuild,
    AppVersion,
    AppId,
    UserProperty,
    DeviceCountry,
    DeviceDateTime,
    DeviceLanguage,
    DeviceOS,
}

/// The dimension's name on the wire.
pub open spec fn dimension_name(item: ExpressionListItem) -> Seq<char> {
    match item {
        ExpressionListItem::AppBuild => "app.build"@,
        ExpressionListItem::AppVersion => "app.version"@,
        ExpressionListItem::AppId => "app.id"@,
        ExpressionListItem::UserProperty => "app.userProperty"@,
        ExpressionListItem::DeviceCountry => "device.country"@,
        ExpressionListItem::DeviceDateTime => "device.dateTime"@,
        ExpressionListItem::DeviceLanguage => "device.language"@,
        ExpressionListItem::DeviceOS => "device.os"@,
    }
}

/// Whether the dimension is scoped to one application and therefore prepends
/// an app-id conjunct.
pub open spec fn needs_app_id(item: ExpressionListItem) -> bool {
    match item {
        ExpressionListItem::AppBuild => true,
        ExpressionListItem::AppVersion => true,
        ExpressionListItem::UserProperty => true,
        _ => false,
    }
}

/// `app.id == '<id>'`.
pub open spec fn app_id_clause(id: Seq<char>) -> Seq<char> {
    "app.id == '"@ + id + "'"@
}

/// What a structured condition compiles to. The operand list and the selected
/// application identifier fully determine the result.
pub open spec fn spec_expression(
    item: ExpressionListItem,
    app_id: Seq<char>,
    op: SetOperator,
    values: Seq<Seq<char>>,
) -> Seq<char> {
    if item is AppId {
        app_id_clause(app_id)
    } else if needs_app_id(item) {
        app_id_clause(app_id) + " && "@ + set_condition(dimension_name(item), op, values)
    } else {
        set_condition(dimension_name(item), op, values)
    }
}

impl ExpressionListItem {
    /// The label under which the dimension is offered for selection.
    pub fn title(&self) -> (r: &'static str)
        ensures
            r@ == match *self {
                ExpressionListItem::AppBuild => "App build"@,
                ExpressionListItem::AppVersion => "App version"@,
                ExpressionListItem::AppId => "App ID"@,
                ExpressionListItem::UserProperty => "User property"@,
                ExpressionListItem::DeviceCountry => "Device country"@,
                ExpressionListItem::DeviceDateTime => "Device date time"@,
                ExpressionListItem::DeviceLanguage => "Device language"@,
                ExpressionListItem::DeviceOS => "Device OS"@,
            },
    {
        match self {
            ExpressionListItem::AppBuild => "App build",
            ExpressionListItem::AppVersion => "App version",
            ExpressionListItem::AppId => "App ID",
            ExpressionListItem::UserProperty => "User property",
            ExpressionListItem::DeviceCountry => "Device country",
            ExpressionListItem::DeviceDateTime => "Device date time",
            ExpressionListItem::DeviceLanguage => "Device language",
            ExpressionListItem::DeviceOS => "Device OS",
        }
    }

    /// All dimensions, in the order they are offered for selection.
    pub fn all() -> (r: Vec<ExpressionListItem>)
        ensures
            r@ == seq![
                ExpressionListItem::AppBuild,
                ExpressionListItem::AppVersion,
                ExpressionListItem::AppId,
                ExpressionListItem::UserProperty,
                ExpressionListItem::DeviceCountry,
                ExpressionListItem::DeviceDateTime,
                ExpressionListItem::DeviceLanguage,
                ExpressionListItem::DeviceOS,
            ],
    {
        let mut r: Vec<ExpressionListItem> = Vec::new();
        r.push(ExpressionListItem::AppBuild);
        r.push(ExpressionListItem::AppVersion);
        r.push(ExpressionListItem::AppId);
        r.push(ExpressionListItem::UserProperty);
        r.push(ExpressionListItem::DeviceCountry);
        r.push(ExpressionListItem::DeviceDateTime);
        r.push(ExpressionListItem::DeviceLanguage);
        r.push(ExpressionListItem::DeviceOS);
        proof {
            assert(r@ =~= seq![
                ExpressionListItem::AppBuild,
                ExpressionListItem::AppVersion,
                ExpressionListItem::AppId,
                ExpressionListItem::UserProperty,
                ExpressionListItem::DeviceCountry,
                ExpressionListItem::DeviceDateTime,
                ExpressionListItem::DeviceLanguage,
                ExpressionListItem::DeviceOS,
            ]);
        }
        r
    }
}

/// Renders `app.id == '<id>'` for a chosen application identifier.
pub fn build_app_id_expr(app_id: &str) -> (r: String)
    ensures
        r@ == app_id_clause(app_id@),
{
    let mut out = String::new();
    out.append("app.id == '");
    out.append(app_id);
    out.append("'");
    out
}

/// Compiles one structured condition. A purely deterministic renderer: the
/// same dimension, operator, operand and identifier always give the same
/// string; no validation is performed.
pub fn build_for_item(
    item: &ExpressionListItem,
    app_id: &str,
    operator: &SetOperator,
    values: &Vec<String>,
) -> (r: String)
    ensures
        r@ == spec_expression(*item, app_id@, *operator, views(values@)),
{
    match item {
        ExpressionListItem::AppId => build_app_id_expr(app_id),
        _ => {
            let clause = operator.to_condition(
                match item {
                    ExpressionListItem::AppBuild => "app.build",
                    ExpressionListItem::AppVersion => "app.version",
                    ExpressionListItem::AppId => "app.id",
                    ExpressionListItem::UserProperty => "app.userProperty",
                    ExpressionListItem::DeviceCountry => "device.country",
                    ExpressionListItem::DeviceDateTime => "device.dateTime",
                    ExpressionListItem::DeviceLanguage => "device.language",
                    ExpressionListItem::DeviceOS => "device.os",
                },
                values,
            );
            if needs_app_id_exec(item) {
                let mut out = build_app_id_expr(app_id);
                out.append(" && ");
                out.append(clause.as_str());
                out
            } else {
                clause
            }
        },
    }
}

/// Executable twin of `needs_app_id`.
pub fn needs_app_id_exec(item: &ExpressionListItem) -> (r: bool)
    ensures
        r == needs_app_id(*item),
{
    match item {
        ExpressionListItem::AppBuild => true,
        ExpressionListItem::AppVersion => true,
        ExpressionListItem::UserProperty => true,
        _ => false,
    }
}

/// Compiles expressions against one project's application identifiers.
pub struct ExpressionBuilder {
    pub app_ids: Vec<String>,
}

impl ExpressionBuilder {
    pub fn new(app_ids: Vec<String>) -> (r: ExpressionBuilder)
        ensures
            r.app_ids == app_ids,
    {
        ExpressionBuilder { app_ids }
    }

    /// Compiles the condition for the dimension chosen by the operator, with
    /// the identifier at `app_id_index` where the dimension is app-scoped.
    pub fn build(
        &self,
        item: &ExpressionListItem,
        app_id_index: usize,
        operator: &SetOperator,
        values: &Vec<String>,
    ) -> (r: String)
        requires
            *item is AppId || needs_app_id(*item) ==> app_id_index < self.app_ids@.len(),
        ensures
            r@ == spec_expression(
                *item,
                if *item is AppId || needs_app_id(*item) {
                    self.app_ids@[app_id_index as int]@
                } else {
                    Seq::empty()
                },
                *operator,
                views(values@),
            ),
    {
        let scoped = match item {
            ExpressionListItem::AppId => true,
            _ => needs_app_id_exec(item),
        };
        if scoped {
            build_for_item(item, self.app_ids[app_id_index].as_str(), operator, values)
        } else {
            build_for_item(item, "", operator, values)
        }
    }
}

/// The marker introducing the quoted application identifier in a compiled
/// expression.
pub open spec fn app_id_marker() -> Seq<char> {
    "app.id == '"@
}

/// First identifier in the list whose platform segment is `platform`.
pub open spec fn find_matching_id(ids: Seq<Seq<char>>, platform: Seq<char>) -> Option<int>
    decreases ids.len(),
{
    if ids.len() == 0 {
        None
    } else if third_segment(ids[0]) == Some(platform) {
        Some(0int)
    } else {
        match find_matching_id(ids.skip(1), platform) {
            None => None,
            Some(i) => Some(i + 1),
        }
    }
}

pub proof fn lemma_find_matching_id(ids: Seq<Seq<char>>, platform: Seq<char>)
    ensures
        match find_matching_id(ids, platform) {
            Some(i) => 0 <= i < ids.len() && third_segment(ids[i]) == Some(platform) && (forall|
                j: int,
            | 0 <= j < i ==> third_segment(ids[j]) != Some(platform)),
            None => forall|j: int| 0 <= j < ids.len() ==> third_segment(ids[j]) != Some(platform),
        },
    decreases ids.len(),
{
    if ids.len() > 0 && third_segment(ids[0]) != Some(platform) {
        lemma_find_matching_id(ids.skip(1), platform);
        assert(forall|j: int| 0 <= j < ids.len() - 1 ==> ids.skip(1)[j] == ids[j + 1]);
        match find_matching_id(ids.skip(1), platform) {
            Some(i) => {
                assert(ids[i + 1] == ids.skip(1)[i]);
                assert forall|j: int| 0 <= j < i + 1 implies third_segment(ids[j]) != Some(
                    platform,
                ) by {
                    if j > 0 {
                        assert(ids[j] == ids.skip(1)[j - 1]);
                    }
                }
            },
            None => {
                assert forall|j: int| 0 <= j < ids.len() implies third_segment(ids[j]) != Some(
                    platform,
                ) by {
                    if j > 0 {
                        assert(ids[j] == ids.skip(1)[j - 1]);
                    }
                }
            },
        }
    }
}

pub proof fn lemma_find_matching_id_is(ids: Seq<Seq<char>>, platform: Seq<char>, i: int)
    requires
        0 <= i < ids.len(),
        third_segment(ids[i]) == Some(platform),
        forall|j: int| 0 <= j < i ==> third_segment(ids[j]) != Some(platform),
    ensures
        find_matching_id(ids, platform) == Some(i),
{
    lemma_find_matching_id(ids, platform);
    match find_matching_id(ids, platform) {
        Some(k) => {
            if k < i {
                assert(third_segment(ids[k]) != Some(platform));
            }
            if i < k {
                assert(third_segment(ids[i]) != Some(platform));
            }
        },
        None => {
            assert(third_segment(ids[i]) != Some(platform));
        },
    }
}

/// Well-formedness demanded of app-id substitution's inputs: where the
/// expression embeds a quoted identifier, that identifier and every
/// identifier of the destination list name a platform as their third
/// colon-delimited segment.
pub open spec fn subst_wf(e: Seq<char>, ids: Seq<Seq<char>>) -> bool {
    match find_sub(e, app_id_marker()) {
        None => true,
        Some(m) => {
            let start = m + app_id_marker().len();
            match find_char(e.skip(start), '\'') {
                None => true,
                Some(q) => {
                    &&& third_segment(e.subrange(start, start + q)) is Some
                    &&& forall|j: int| 0 <= j < ids.len() ==> third_segment(ids[j]) is Some
                },
            }
        },
    }
}

/// What app-id substitution produces: `Some` carries the rewritten (or
/// untouched) expression; `None` means no destination identifier shares the
/// embedded identifier's platform.
pub open spec fn app_id_subst(e: Seq<char>, ids: Seq<Seq<char>>) -> Option<Seq<char>> {
    match find_sub(e, app_id_marker()) {
        None => Some(e),
        Some(m) => {
            let start = m + app_id_marker().len();
            match find_char(e.skip(start), '\'') {
                None => Some(e),
                Some(q) => {
                    let lit = e.subrange(start, start + q);
                    match third_segment(lit) {
                        None => Some(e),
                        Some(platform) => match find_matching_id(ids, platform) {
                            None => None,
                            Some(i) => Some(e.take(start) + ids[i] + e.skip(start + q)),
                        },
                    }
                },
            }
        },
    }
}

/// The error reported when no destination identifier shares the platform.
pub open spec fn platform_not_found_message(platform: Seq<char>) -> Seq<char> {
    "App ID for compatible platform "@ + platform + " was not found for this project"@
}

/// Rewrites the application identifier embedded in a compiled expression so
/// that it names the destination project's identifier of the same platform.
/// An expression without an app-id marker, or without a closing quote after
/// it, is left unchanged; when no destination identifier shares the platform
/// the expression is left unchanged and the platform-not-found error comes
/// back. Only the first marker occurrence is considered.
pub fn replace_app_id(expression: &mut String, app_ids: &Vec<String>) -> (r: Result<(), Error>)
    requires
        subst_wf(old(expression)@, views(app_ids@)),
    ensures
        match app_id_subst(old(expression)@, views(app_ids@)) {
            Some(s) => r is Ok && final(expression)@ == s,
            None => {
                &&& r is Err
                &&& final(expression)@ == old(expression)@
                &&& r->Err_0.message@ == platform_not_found_message(
                    third_segment(old(expression)@.subrange(
                        find_sub(old(expression)@, app_id_marker())->Some_0
                            + app_id_marker().len(),
                        find_sub(old(expression)@, app_id_marker())->Some_0
                            + app_id_marker().len() + find_char(
                            old(expression)@.skip(
                                find_sub(old(expression)@, app_id_marker())->Some_0
                                    + app_id_marker().len(),
                            ),
                            '\'',
                        )->Some_0,
                    ))->Some_0,
                )
            },
        },
{
    let ghost e = expression@;
    let ghost ids = views(app_ids@);
    let len = expression.as_str().unicode_len();
    let marker_len = "app.id == '".unicode_len();
    let m = match scan_sub(expression.as_str(), "app.id == '") {
        None => {
            return Ok(());
        },
        Some(m) => m,
    };
    let start = m + marker_len;
    let quote = match scan_char(expression.as_str(), '\'', start) {
        None => {
            return Ok(());
        },
        Some(q) => q,
    };
    proof {
        assert(find_char(e.skip(start as int), '\'') == Some(quote - start));
    }
    let ghost lit_view = e.subrange(start as int, quote as int);
    let bounds = {
        let lit = expression.as_str().substring_char(start, quote);
        match third_segment_bounds(lit) {
            None => {
                proof {
                    assert(third_segment(lit_view) is None);
                    assert(false);
                }
                return Ok(());
            },
            Some(b) => b,
        }
    };
    let ghost platform = third_segment(lit_view)->Some_0;
    proof {
        assert(e.subrange(start as int, quote as int).subrange(bounds.0 as int, bounds.1 as int)
            =~= e.subrange(start + bounds.0, start + bounds.1));
    }
    let plat_start = start + bounds.0;
    let plat_end = start + bounds.1;
    let mut i: usize = 0;
    let mut found: Option<usize> = None;
    while i < app_ids.len()
        invariant
            i <= app_ids.len(),
            ids == views(app_ids@),
            ids.len() == app_ids@.len(),
            forall|j: int| 0 <= j < ids.len() ==> ids[j] == app_ids@[j]@,
            forall|j: int| 0 <= j < ids.len() ==> third_segment(ids[j]) is Some,
            plat_end <= e.len(),
            plat_start <= plat_end,
            e == expression@,
            platform == e.subrange(plat_start as int, plat_end as int),
            found is None ==> forall|j: int|
                0 <= j < i ==> third_segment(ids[j]) != Some(platform),
            match found {
                Some(f) => f < app_ids@.len() && third_segment(ids[f as int]) == Some(platform)
                    && (forall|j: int| 0 <= j < f ==> third_segment(ids[j]) != Some(platform)),
                None => true,
            },
        decreases app_ids.len() - i,
    {
        if found.is_none() {
            let id = &app_ids[i];
            let seg = match third_segment_bounds(id.as_str()) {
                None => {
                    proof {
                        assert(third_segment(ids[i as int]) is None);
                        assert(false);
                    }
                    return Ok(());
                },
                Some(b) => b,
            };
            let id_platform = id.as_str().substring_char(seg.0, seg.1);
            let expr_platform = expression.as_str().substring_char(plat_start, plat_end);
            if str_eq(id_platform, expr_platform) {
                found = Some(i);
            }
        }
        i = i + 1;
    }
    match found {
        None => {
            proof {
                lemma_find_matching_id(ids, platform);
                if let Some(k) = find_matching_id(ids, platform) {
                    assert(third_segment(ids[k]) != Some(platform));
                }
            }
            let mut message = String::new();
            message.append("App ID for compatible platform ");
            {
                let plat = expression.as_str().substring_char(plat_start, plat_end);
                message.append(plat);
            }
            message.append(" was not found for this project");
            Err(Error { message })
        },
        Some(f) => {
            proof {
                lemma_find_matching_id_is(ids, platform, f as int);
            }
            let mut out = String::new();
            {
                let prefix = expression.as_str().substring_char(0, start);
                out.append(prefix);
            }
            out.append(app_ids[f].as_str());
            {
                let suffix = expression.as_str().substring_char(quote, len);
                out.append(suffix);
            }
            proof {
                assert(e.subrange(0, start as int) =~= e.take(start as int));
                assert(e.subrange(quote as int, e.len() as int) =~= e.skip(quote as int));
                assert(out@ == e.take(start as int) + ids[f as int] + e.skip(quote as int));
            }
            *expression = out;
            Ok(())
        },
    }
}

/// An expression without the app-id marker passes through substitution
/// unchanged: on it, substitution is the identity function.
pub proof fn lemma_subst_identity_without_marker(e: Seq<char>, ids: Seq<Seq<char>>)
    requires
        find_sub(e, app_id_marker()) is None,
    ensures
        app_id_subst(e, ids) == Some(e),
{
}

/// An expression embedding `app.id == '<id>'` substituted against a list
/// holding an identifier of `<id>`'s platform yields the same expression with
/// only the quoted literal replaced — by the first such identifier.
pub proof fn lemma_subst_replaces_literal(e: Seq<char>, ids: Seq<Seq<char>>, m: int, q: int, i: int)
    requires
        find_sub(e, app_id_marker()) == Some(m),
        find_char(e.skip(m + app_id_marker().len()), '\'') == Some(q),
        find_matching_id(ids, third_segment(e.subrange(m + app_id_marker().len(), m
            + app_id_marker().len() + q))->Some_0) == Some(i),
        third_segment(e.subrange(m + app_id_marker().len(), m + app_id_marker().len() + q))
            is Some,
    ensures
        app_id_subst(e, ids) == Some(e.take(m + app_id_marker().len()) + ids[i] + e.skip(m
            + app_id_marker().len() + q)),
{
}

/// Substitution against a destination list without an identifier of the
/// embedded platform fails rather than producing an invalid expression.
pub proof fn lemma_subst_fails_without_platform(e: Seq<char>, ids: Seq<Seq<char>>, m: int, q: int)
    requires
        find_sub(e, app_id_marker()) == Some(m),
        find_char(e.skip(m + app_id_marker().len()), '\'') == Some(q),
        third_segment(e.subrange(m + app_id_marker().len(), m + app_id_marker().len() + q))
            is Some,
        forall|j: int|
            0 <= j < ids.len() ==> third_segment(ids[j]) != Some(
                third_segment(e.subrange(m + app_id_marker().len(), m + app_id_marker().len()
                    + q))->Some_0,
            ),
    ensures
        app_id_subst(e, ids) is None,
{
    let platform = third_segment(e.subrange(m + app_id_marker().len(), m + app_id_marker().len()
        + q))->Some_0;
    lemma_find_matching_id(ids, platform);
    if let Some(k) = find_matching_id(ids, platform) {
        assert(third_segment(ids[k]) != Some(platform));
    }
}

/// A compiled expression of an app-scoped dimension embeds the app-id marker
/// right at its start, so substitution always finds it there.
pub proof fn lemma_compiled_expression_finds_marker(
    item: ExpressionListItem,
    app_id: Seq<char>,
    op: SetOperator,
    values: Seq<Seq<char>>,
)
    requires
        item is AppId || needs_app_id(item),
    ensures
        find_sub(spec_expression(item, app_id, op, values), app_id_marker()) == Some(0int),
{
    let e = spec_expression(item, app_id, op, values);
    let m = app_id_marker();
    assert(e.subrange(0, m.len() as int) =~= m);
    assert(crate::strings::matches_at(e, m, 0));
    crate::strings::lemma_find_sub_is(e, m, 0);
}

/// Expression compilation is deterministic: two results that meet the
/// compiler's contract for the same structured input are the same string.
pub proof fn lemma_compilation_deterministic(
    item: ExpressionListItem,
    app_id: Seq<char>,
    op: SetOperator,
    values: Seq<Seq<char>>,
    r1: Seq<char>,
    r2: Seq<char>,
)
    requires
        r1 == spec_expression(item, app_id, op, values),
        r2 == spec_expression(item, app_id, op, values),
    ensures
        r1 == r2,
{
}

} // verus!
