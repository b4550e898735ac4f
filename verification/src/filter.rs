//! Filters on payloads.

pub mod laws;

use crate::json;
use crate::json::{Json, JsonKind, JsonTree, TreeKind};
use crate::number;
use crate::number::{is_comparable, Number, Reading};
use crate::payload::Payload;
use crate::text;
use vstd::prelude::*;

verus! {

/// What a filter compares with.
#[derive(Debug, Clone, PartialEq)]
pub enum FilterValue {
    String(String),
    Number(Number),
    Bool(bool),
}

/// What a filter asks of a field.
#[derive(Debug, Clone, PartialEq)]
pub enum FilterOp {
    Eq(FilterValue),
    Ne(FilterValue),
    In(Vec<FilterValue>),
    Nin(Vec<FilterValue>),
    Gt(FilterValue),
    Gte(FilterValue),
    Lt(FilterValue),
    Lte(FilterValue),
    Contains(String),
    Icontains(String),
    Wildcard,
}

/// A filter.
#[derive(Debug, PartialEq)]
pub enum FilterExpr {
    Field(String, FilterOp),
    And(Vec<FilterExpr>),
    Or(Vec<FilterExpr>),
    Not(Box<FilterExpr>),
}

/// What a filter compares with, as a value.
pub enum ValueModel {
    Text(Seq<char>),
    Number { key: i64, text: Seq<char> },
    Bool(bool),
}

/// What a filter asks of a field, as a value.
pub enum OpModel {
    Eq(ValueModel),
    Ne(ValueModel),
    In(Seq<ValueModel>),
    Nin(Seq<ValueModel>),
    Gt(ValueModel),
    Gte(ValueModel),
    Lt(ValueModel),
    Lte(ValueModel),
    Contains(Seq<char>),
    Icontains(Seq<char>),
    Wildcard,
}

/// A filter as a value.
pub enum ExprModel {
    Field(Seq<char>, OpModel),
    And(Seq<ExprModel>),
    Or(Seq<ExprModel>),
    Not(Box<ExprModel>),
}

impl View for FilterValue {
    type V = ValueModel;

    open spec fn view(&self) -> ValueModel {
        match *self {
            FilterValue::String(s) => ValueModel::Text(s@),
            FilterValue::Number(n) => ValueModel::Number { key: n.key, text: n.text@ },
            FilterValue::Bool(b) => ValueModel::Bool(b),
        }
    }
}

/// Some values of a filter, as values.
pub open spec fn value_models(values: Seq<FilterValue>) -> Seq<ValueModel> {
    values.map_values(|v: FilterValue| v@)
}

impl View for FilterOp {
    type V = OpModel;

    open spec fn view(&self) -> OpModel {
        match *self {
            FilterOp::Eq(v) => OpModel::Eq(v@),
            FilterOp::Ne(v) => OpModel::Ne(v@),
            FilterOp::In(vs) => OpModel::In(value_models(vs@)),
            FilterOp::Nin(vs) => OpModel::Nin(value_models(vs@)),
            FilterOp::Gt(v) => OpModel::Gt(v@),
            FilterOp::Gte(v) => OpModel::Gte(v@),
            FilterOp::Lt(v) => OpModel::Lt(v@),
            FilterOp::Lte(v) => OpModel::Lte(v@),
            FilterOp::Contains(s) => OpModel::Contains(s@),
            FilterOp::Icontains(s) => OpModel::Icontains(s@),
            FilterOp::Wildcard => OpModel::Wildcard,
        }
    }
}

/// A filter as a value.
pub open spec fn expr_model(expr: FilterExpr) -> ExprModel
    decreases expr,
{
    match expr {
        FilterExpr::Field(field, op) => ExprModel::Field(field@, op@),
        FilterExpr::And(exprs) => ExprModel::And(expr_models(exprs@)),
        FilterExpr::Or(exprs) => ExprModel::Or(expr_models(exprs@)),
        FilterExpr::Not(inner) => ExprModel::Not(Box::new(expr_model(*inner))),
    }
}

/// Some filters as values.
pub open spec fn expr_models(exprs: Seq<FilterExpr>) -> Seq<ExprModel>
    decreases exprs,
{
    if exprs.len() == 0 {
        Seq::empty()
    } else {
        expr_models(exprs.drop_last()).push(expr_model(exprs.last()))
    }
}

impl View for FilterExpr {
    type V = ExprModel;

    open spec fn view(&self) -> ExprModel {
        expr_model(*self)
    }
}

proof fn lemma_expr_models(exprs: Seq<FilterExpr>)
    ensures
        expr_models(exprs).len() == exprs.len(),
        forall|i: int| 0 <= i < exprs.len() ==> #[trigger] expr_models(exprs)[i] == expr_model(exprs[i]),
    decreases exprs.len(),
{
    if exprs.len() > 0 {
        lemma_expr_models(exprs.drop_last());
    }
}

/// Whether something reads every text as a number or as words, the same text
/// each time alike.
pub open spec fn reads<N: Fn(&str) -> Reading>(read: N) -> bool {
    &&& forall|s: &str| #[trigger] call_requires(read, (s,))
    &&& forall|s: &str, t: &str, a: Reading, b: Reading| #[trigger]
        call_ensures(read, (s,), a) && #[trigger] call_ensures(read, (t,), b) && s@ == t@ ==> a == b
}

/// Whether a text may be read so.
pub open spec fn may_read<N: Fn(&str) -> Reading>(read: N, s: Seq<char>, r: Reading) -> bool {
    exists|t: &str| t@ == s && #[trigger] call_ensures(read, (t,), r)
}

/// How a text is read.
pub open spec fn reading<N: Fn(&str) -> Reading>(read: N, s: Seq<char>) -> Reading {
    choose|r: Reading| may_read(read, s, r)
}

/// What a value is as a text.
pub open spec fn displayed(value: ValueModel) -> Seq<char> {
    match value {
        ValueModel::Text(s) => s,
        ValueModel::Number { text, .. } => text,
        ValueModel::Bool(b) => if b {
            "true"@
        } else {
            "false"@
        },
    }
}

/// Where a text stands to a value.
#[derive(Clone, Copy, PartialEq, Eq, Structural)]
pub enum Standing {
    Below,
    Level,
    Above,
    /// Neither: one of the two compares with nothing.
    Apart,
}

/// Where one text stands to another, in the order of their characters.
pub open spec fn text_standing(s: Seq<char>, other: Seq<char>) -> Standing {
    if text::precedes(s, other) {
        Standing::Below
    } else if s == other {
        Standing::Level
    } else {
        Standing::Above
    }
}

/// Where one order key stands to another.
pub open spec fn key_standing(key: i64, other: i64) -> Standing {
    if !number::compares(key) || !number::compares(other) {
        Standing::Apart
    } else if key < other {
        Standing::Below
    } else if key == other {
        Standing::Level
    } else {
        Standing::Above
    }
}

/// Where a text stands to a value: as a number if both are numbers, as a text
/// otherwise.
pub open spec fn standing<N: Fn(&str) -> Reading>(read: N, value: ValueModel, s: Seq<char>) -> Standing {
    match value {
        ValueModel::Number { key, text } => match reading(read, s) {
            Reading::Ordered(k) => key_standing(k, key),
            Reading::Unordered => Standing::Apart,
            Reading::Words => text_standing(s, text),
        },
        _ => text_standing(s, displayed(value)),
    }
}

/// Whether a text equals a value: as a number if both are numbers, as a text
/// otherwise.
pub open spec fn equals<N: Fn(&str) -> Reading>(read: N, value: ValueModel, s: Seq<char>) -> bool {
    match value {
        ValueModel::Number { key, text } => match reading(read, s) {
            Reading::Ordered(k) => k == key && number::compares(key),
            Reading::Unordered => false,
            Reading::Words => s == text,
        },
        _ => s == displayed(value),
    }
}

/// Whether a text equals one of some values.
pub open spec fn equals_any<N: Fn(&str) -> Reading>(
    read: N,
    values: Seq<ValueModel>,
    s: Seq<char>,
) -> bool {
    exists|i: int| 0 <= i < values.len() && equals(read, #[trigger] values[i], s)
}

/// Whether a field that has a text is as asked.
pub open spec fn text_passes<N: Fn(&str) -> Reading>(read: N, op: OpModel, s: Seq<char>) -> bool {
    match op {
        OpModel::Eq(v) => equals(read, v, s),
        OpModel::Ne(v) => !equals(read, v, s),
        OpModel::In(vs) => equals_any(read, vs, s),
        OpModel::Nin(vs) => !equals_any(read, vs, s),
        OpModel::Gt(v) => standing(read, v, s) == Standing::Above,
        OpModel::Gte(v) => standing(read, v, s) == Standing::Above || standing(read, v, s)
            == Standing::Level,
        OpModel::Lt(v) => standing(read, v, s) == Standing::Below,
        OpModel::Lte(v) => standing(read, v, s) == Standing::Below || standing(read, v, s)
            == Standing::Level,
        OpModel::Contains(needle) => text::occurs(s, needle),
        OpModel::Icontains(needle) => text::occurs(text::lowered(s), text::lowered(needle)),
        OpModel::Wildcard => true,
    }
}

/// Whether a field is as asked. A field that is absent passes the wildcard only.
pub open spec fn field_passes<N: Fn(&str) -> Reading>(
    read: N,
    op: OpModel,
    payload: Map<Seq<char>, Seq<char>>,
    field: Seq<char>,
) -> bool {
    op is Wildcard || (payload.contains_key(field) && text_passes(read, op, payload[field]))
}

/// Whether a payload passes a filter.
pub open spec fn passes<N: Fn(&str) -> Reading>(
    read: N,
    expr: ExprModel,
    payload: Map<Seq<char>, Seq<char>>,
) -> bool
    decreases expr,
{
    match expr {
        ExprModel::Field(field, op) => field_passes(read, op, payload, field),
        ExprModel::And(exprs) => passes_all(read, exprs, payload),
        ExprModel::Or(exprs) => passes_any(read, exprs, payload),
        ExprModel::Not(inner) => !passes(read, *inner, payload),
    }
}

/// Whether a payload passes each of some filters.
pub open spec fn passes_all<N: Fn(&str) -> Reading>(
    read: N,
    exprs: Seq<ExprModel>,
    payload: Map<Seq<char>, Seq<char>>,
) -> bool
    decreases exprs,
{
    exprs.len() == 0 || (passes_all(read, exprs.drop_last(), payload) && passes(
        read,
        exprs.last(),
        payload,
    ))
}

/// Whether a payload passes one of some filters.
pub open spec fn passes_any<N: Fn(&str) -> Reading>(
    read: N,
    exprs: Seq<ExprModel>,
    payload: Map<Seq<char>, Seq<char>>,
) -> bool
    decreases exprs,
{
    exprs.len() > 0 && (passes_any(read, exprs.drop_last(), payload) || passes(
        read,
        exprs.last(),
        payload,
    ))
}

/// A conjunction is passed where each of its filters is.
pub proof fn law_and_is_all<N: Fn(&str) -> Reading>(
    read: N,
    exprs: Seq<ExprModel>,
    payload: Map<Seq<char>, Seq<char>>,
)
    ensures
        passes_all(read, exprs, payload) <==> forall|i: int|
            0 <= i < exprs.len() ==> passes(read, #[trigger] exprs[i], payload),
    decreases exprs.len(),
{
    if exprs.len() > 0 {
        let rest = exprs.drop_last();
        law_and_is_all(read, rest, payload);
        assert forall|i: int| 0 <= i < rest.len() implies rest[i] == exprs[i] by {}
        if passes_all(read, exprs, payload) {
            assert forall|i: int| 0 <= i < exprs.len() implies passes(
                read,
                #[trigger] exprs[i],
                payload,
            ) by {
                if i < rest.len() {
                    assert(passes(read, rest[i], payload));
                }
            }
        } else if !passes_all(read, rest, payload) {
            let i = choose|i: int|
                0 <= i < rest.len() && !passes(read, #[trigger] rest[i], payload);
            assert(!passes(read, exprs[i], payload));
        }
    }
}

/// A disjunction is passed where one of its filters is.
pub proof fn law_or_is_any<N: Fn(&str) -> Reading>(
    read: N,
    exprs: Seq<ExprModel>,
    payload: Map<Seq<char>, Seq<char>>,
)
    ensures
        passes_any(read, exprs, payload) <==> exists|i: int|
            0 <= i < exprs.len() && passes(read, #[trigger] exprs[i], payload),
    decreases exprs.len(),
{
    if exprs.len() > 0 {
        let rest = exprs.drop_last();
        law_or_is_any(read, rest, payload);
        if passes_any(read, rest, payload) {
            let i = choose|i: int|
                0 <= i < rest.len() && passes(read, #[trigger] rest[i], payload);
            assert(passes(read, exprs[i], payload));
        }
        if exists|i: int| 0 <= i < exprs.len() && passes(read, #[trigger] exprs[i], payload) {
            let i = choose|i: int|
                0 <= i < exprs.len() && passes(read, #[trigger] exprs[i], payload);
            if i < rest.len() {
                assert(passes(read, rest[i], payload));
            }
        }
    }
}

/// On a field that is there, `ne` is the opposite of `eq`, `nin` of `in`, and,
/// unless the two compare with nothing, `gt` of `lte` and `lt` of `gte`.
pub proof fn law_opposites<N: Fn(&str) -> Reading>(
    read: N,
    payload: Map<Seq<char>, Seq<char>>,
    field: Seq<char>,
    value: ValueModel,
    values: Seq<ValueModel>,
)
    requires
        payload.contains_key(field),
    ensures
        field_passes(read, OpModel::Ne(value), payload, field) == !field_passes(
            read,
            OpModel::Eq(value),
            payload,
            field,
        ),
        field_passes(read, OpModel::Nin(values), payload, field) == !field_passes(
            read,
            OpModel::In(values),
            payload,
            field,
        ),
        standing(read, value, payload[field]) != Standing::Apart ==> {
            &&& field_passes(read, OpModel::Lte(value), payload, field) == !field_passes(
                read,
                OpModel::Gt(value),
                payload,
                field,
            )
            &&& field_passes(read, OpModel::Gte(value), payload, field) == !field_passes(
                read,
                OpModel::Lt(value),
                payload,
                field,
            )
        },
{
}

/// A field that is absent passes nothing but the wildcard, and every payload
/// passes that.
pub proof fn law_absent_fields<N: Fn(&str) -> Reading>(
    read: N,
    payload: Map<Seq<char>, Seq<char>>,
    field: Seq<char>,
    op: OpModel,
)
    ensures
        field_passes(read, OpModel::Wildcard, payload, field),
        !payload.contains_key(field) ==> field_passes(read, op, payload, field) == (op
            == OpModel::Wildcard),
{
}

/// In ASCII, a field that contains a text contains it whatever the case.
pub proof fn law_contains_gives_icontains<N: Fn(&str) -> Reading>(
    read: N,
    payload: Map<Seq<char>, Seq<char>>,
    field: Seq<char>,
    needle: Seq<char>,
)
    requires
        text::all_ascii(needle),
        payload.contains_key(field) ==> text::all_ascii(payload[field]),
        field_passes(read, OpModel::Contains(needle), payload, field),
    ensures
        field_passes(read, OpModel::Icontains(needle), payload, field),
{
    text::law_lower_case_keeps_occurrences(payload[field], needle);
}

/// A text that equals a value stands level with it, and only such a text does.
pub proof fn law_equal_is_level<N: Fn(&str) -> Reading>(read: N, value: ValueModel, s: Seq<char>)
    ensures
        equals(read, value, s) == (standing(read, value, s) == Standing::Level),
{
    text::lemma_precedes_total(s, displayed(value));
}

/// A list of values is passed where one of them is equal.
pub proof fn law_in_is_any_eq<N: Fn(&str) -> Reading>(
    read: N,
    values: Seq<ValueModel>,
    payload: Map<Seq<char>, Seq<char>>,
    field: Seq<char>,
)
    ensures
        field_passes(read, OpModel::In(values), payload, field) <==> exists|i: int|
            0 <= i < values.len() && field_passes(
                read,
                OpModel::Eq(#[trigger] values[i]),
                payload,
                field,
            ),
{
    if field_passes(read, OpModel::In(values), payload, field) {
        let i = choose|i: int|
            0 <= i < values.len() && equals(read, #[trigger] values[i], payload[field]);
        assert(field_passes(read, OpModel::Eq(values[i]), payload, field));
    }
}

/// Filters on a field see that field alone.
pub proof fn law_filters_see_their_field<N: Fn(&str) -> Reading>(
    read: N,
    op: OpModel,
    one: Map<Seq<char>, Seq<char>>,
    other: Map<Seq<char>, Seq<char>>,
    field: Seq<char>,
)
    requires
        one.contains_key(field) == other.contains_key(field),
        one.contains_key(field) ==> one[field] == other[field],
    ensures
        passes(read, ExprModel::Field(field, op), one) == passes(
            read,
            ExprModel::Field(field, op),
            other,
        ),
{
}

fn read_text<N: Fn(&str) -> Reading>(read: &N, s: &str) -> (r: Reading)
    requires
        reads(*read),
    ensures
        r == reading(*read, s@),
{
    let r = read(s);
    proof {
        assert(may_read(*read, s@, r));
        let other = reading(*read, s@);
        assert(may_read(*read, s@, other));
    }
    r
}

impl FilterValue {
    /// What the value is as a text.
    pub fn display_string(&self) -> (r: String)
        ensures
            r@ == displayed(self@),
    {
        match self {
            FilterValue::String(s) => s.clone(),
            FilterValue::Number(n) => n.text.clone(),
            FilterValue::Bool(b) => if *b {
                "true".to_owned()
            } else {
                "false".to_owned()
            },
        }
    }
}

fn compare_texts(s: &str, other: &str) -> (r: Standing)
    ensures
        r == text_standing(s@, other@),
{
    if text::less(s, other) {
        Standing::Below
    } else if text::same(s, other) {
        Standing::Level
    } else {
        Standing::Above
    }
}

/// Where a text stands to a value.
pub fn numeric_order<N: Fn(&str) -> Reading>(value: &FilterValue, s: &str, read: &N) -> (r: Standing)
    requires
        reads(*read),
    ensures
        r == standing(*read, value@, s@),
{
    match value {
        FilterValue::Number(n) => match read_text(read, s) {
            Reading::Ordered(k) => if !is_comparable(k) || !is_comparable(n.key) {
                Standing::Apart
            } else if k < n.key {
                Standing::Below
            } else if k == n.key {
                Standing::Level
            } else {
                Standing::Above
            },
            Reading::Unordered => Standing::Apart,
            Reading::Words => compare_texts(s, n.text.as_str()),
        },
        _ => compare_texts(s, value.display_string().as_str()),
    }
}

/// Whether a text equals a value.
pub fn values_equal<N: Fn(&str) -> Reading>(value: &FilterValue, s: &str, read: &N) -> (r: bool)
    requires
        reads(*read),
    ensures
        r == equals(*read, value@, s@),
{
    match value {
        FilterValue::Number(n) => match read_text(read, s) {
            Reading::Ordered(k) => k == n.key && is_comparable(k),
            Reading::Unordered => false,
            Reading::Words => text::same(s, n.text.as_str()),
        },
        _ => text::same(s, value.display_string().as_str()),
    }
}

fn any_equal<N: Fn(&str) -> Reading>(values: &Vec<FilterValue>, s: &str, read: &N) -> (r: bool)
    requires
        reads(*read),
    ensures
        r == equals_any(*read, value_models(values@), s@),
{
    let ghost models = value_models(values@);
    let mut i: usize = 0;
    while i < values.len()
        invariant
            i <= values.len(),
            reads(*read),
            models == value_models(values@),
            forall|j: int| 0 <= j < i ==> !equals(*read, #[trigger] models[j], s@),
        decreases values.len() - i,
    {
        if values_equal(&values[i], s, read) {
            proof {
                assert(equals(*read, models[i as int], s@));
            }
            return true;
        }
        proof {
            assert(models[i as int] == values@[i as int]@);
        }
        i = i + 1;
    }
    false
}

/// Whether a field's text, if it has one, is as asked.
pub fn evaluate_op<N: Fn(&str) -> Reading>(op: &FilterOp, field: Option<&String>, read: &N) -> (r: bool)
    requires
        reads(*read),
    ensures
        r == (op@ is Wildcard || (field matches Some(s) && text_passes(*read, op@, s@))),
{
    if let FilterOp::Wildcard = op {
        return true;
    }
    match field {
        None => false,
        Some(found) => {
            let s = found.as_str();
            match op {
                FilterOp::Wildcard => true,
                FilterOp::Eq(v) => values_equal(v, s, read),
                FilterOp::Ne(v) => !values_equal(v, s, read),
                FilterOp::In(vs) => any_equal(vs, s, read),
                FilterOp::Nin(vs) => !any_equal(vs, s, read),
                FilterOp::Gt(v) => numeric_order(v, s, read) == Standing::Above,
                FilterOp::Gte(v) => {
                    let at = numeric_order(v, s, read);
                    at == Standing::Above || at == Standing::Level
                },
                FilterOp::Lt(v) => numeric_order(v, s, read) == Standing::Below,
                FilterOp::Lte(v) => {
                    let at = numeric_order(v, s, read);
                    at == Standing::Below || at == Standing::Level
                },
                FilterOp::Contains(needle) => text::contains(s, needle.as_str()),
                FilterOp::Icontains(needle) => text::contains(
                    text::to_lowercase(s).as_str(),
                    text::to_lowercase(needle.as_str()).as_str(),
                ),
            }
        },
    }
}

/// Whether a payload passes a filter; `read` says what a text is as a number.
pub fn evaluate<N: Fn(&str) -> Reading>(expr: &FilterExpr, payload: &Payload, read: &N) -> (r: bool)
    requires
        reads(*read),
    ensures
        r == passes(*read, expr@, payload@),
    decreases expr,
{
    match expr {
        FilterExpr::Field(field, op) => evaluate_op(op, payload.get(field.as_str()), read),
        FilterExpr::And(exprs) => {
            let mut i: usize = 0;
            proof {
                lemma_expr_models(exprs@);
            }
            while i < exprs.len()
                invariant
                    i <= exprs.len(),
                    reads(*read),
                    *expr == FilterExpr::And(*exprs),
                    expr_models(exprs@).len() == exprs@.len(),
                    forall|j: int|
                        0 <= j < exprs@.len() ==> #[trigger] expr_models(exprs@)[j] == expr_model(
                            exprs@[j],
                        ),
                    forall|j: int|
                        0 <= j < i ==> passes(
                            *read,
                            #[trigger] expr_models(exprs@)[j],
                            payload@,
                        ),
                decreases exprs.len() - i,
            {
                proof {
                    assert(decreases_to!(*expr => *exprs));
                    assert(decreases_to!(*exprs => exprs@));
                    assert(decreases_to!(exprs@ => exprs@[i as int]));
                }
                if !evaluate(&exprs[i], payload, read) {
                    proof {
                        assert(expr@ == ExprModel::And(expr_models(exprs@)));
                        let models = expr_models(exprs@);
                        assert(!passes(*read, models[i as int], payload@));
                        law_and_is_all(*read, models, payload@);
                    }
                    return false;
                }
                i = i + 1;
            }
            proof {
                law_and_is_all(*read, expr_models(exprs@), payload@);
            }
            true
        },
        FilterExpr::Or(exprs) => {
            let mut i: usize = 0;
            proof {
                lemma_expr_models(exprs@);
            }
            while i < exprs.len()
                invariant
                    i <= exprs.len(),
                    reads(*read),
                    *expr == FilterExpr::Or(*exprs),
                    expr_models(exprs@).len() == exprs@.len(),
                    forall|j: int|
                        0 <= j < exprs@.len() ==> #[trigger] expr_models(exprs@)[j] == expr_model(
                            exprs@[j],
                        ),
                    forall|j: int|
                        0 <= j < i ==> !passes(
                            *read,
                            #[trigger] expr_models(exprs@)[j],
                            payload@,
                        ),
                decreases exprs.len() - i,
            {
                proof {
                    assert(decreases_to!(*expr => *exprs));
                    assert(decreases_to!(*exprs => exprs@));
                    assert(decreases_to!(exprs@ => exprs@[i as int]));
                }
                if evaluate(&exprs[i], payload, read) {
                    proof {
                        assert(expr@ == ExprModel::Or(expr_models(exprs@)));
                        let models = expr_models(exprs@);
                        assert(passes(*read, models[i as int], payload@));
                        law_or_is_any(*read, models, payload@);
                    }
                    return true;
                }
                i = i + 1;
            }
            proof {
                law_or_is_any(*read, expr_models(exprs@), payload@);
            }
            false
        },
        FilterExpr::Not(inner) => !evaluate(inner, payload, read),
    }
}

/// Whether something turns the text of a JSON number into a number, or refuses
/// it, the same text each time alike.
pub open spec fn numbers<M: Fn(&str) -> Option<Number>>(number: M) -> bool {
    &&& forall|s: &str| #[trigger] call_requires(number, (s,))
    &&& forall|s: &str, t: &str, a: Option<Number>, b: Option<Number>| #[trigger]
        call_ensures(number, (s,), a) && #[trigger] call_ensures(number, (t,), b) && s@ == t@
            ==> number_model(a) == number_model(b)
}

/// A number, if there is one, as a value.
pub open spec fn number_model(n: Option<Number>) -> Option<(i64, Seq<char>)> {
    match n {
        Some(n) => Some((n.key, n.text@)),
        None => None,
    }
}

/// Whether the text of a number may be turned into this.
pub open spec fn may_number<M: Fn(&str) -> Option<Number>>(
    number: M,
    s: Seq<char>,
    r: Option<(i64, Seq<char>)>,
) -> bool {
    exists|t: &str, n: Option<Number>|
        t@ == s && number_model(n) == r && #[trigger] call_ensures(number, (t,), n)
}

/// What the text of a number is turned into.
pub open spec fn number_at<M: Fn(&str) -> Option<Number>>(number: M, s: Seq<char>) -> Option<
    (i64, Seq<char>),
> {
    choose|r: Option<(i64, Seq<char>)>| may_number(number, s, r)
}

/// What a JSON value is for a filter to compare with.
pub open spec fn parsed_value<M: Fn(&str) -> Option<Number>>(number: M, j: Json) -> Result<
    ValueModel,
    Seq<char>,
> {
    match j.kind {
        JsonKind::Text(s) => Ok(ValueModel::Text(s)),
        JsonKind::Number(s) => match number_at(number, s) {
            Some((key, text)) => Ok(ValueModel::Number { key, text }),
            None => Err("filter number "@ + s + " is out of range"@),
        },
        JsonKind::Bool(b) => Ok(ValueModel::Bool(b)),
        _ => Err(
            "filter value "@ + j.shown + " must be a string, number, or boolean"@,
        ),
    }
}

/// What some JSON values are for a filter to compare with; the first that is
/// nothing makes the error.
pub open spec fn parsed_items<M: Fn(&str) -> Option<Number>>(number: M, items: Seq<Json>) -> Result<
    Seq<ValueModel>,
    Seq<char>,
>
    decreases items.len(),
{
    if items.len() == 0 {
        Ok(Seq::empty())
    } else {
        match parsed_items(number, items.drop_last()) {
            Err(message) => Err(message),
            Ok(before) => match parsed_value(number, items.last()) {
                Err(message) => Err(message),
                Ok(value) => Ok(before.push(value)),
            },
        }
    }
}

/// What a JSON array is for a filter to compare with.
pub open spec fn parsed_values<M: Fn(&str) -> Option<Number>>(number: M, j: Json) -> Result<
    Seq<ValueModel>,
    Seq<char>,
> {
    match j.kind {
        JsonKind::List(items) => parsed_items(number, items),
        _ => Err("filter value "@ + j.shown + " must be an array"@),
    }
}

/// The text that a JSON value must be.
pub open spec fn expected_text(j: Json) -> Result<Seq<char>, Seq<char>> {
    match j.kind {
        JsonKind::Text(s) => Ok(s),
        _ => Err("filter value "@ + j.shown + " must be a string"@),
    }
}

/// An operator on one value.
pub open spec fn one_value_op(name: Seq<char>, value: ValueModel) -> OpModel {
    if name == "eq"@ {
        OpModel::Eq(value)
    } else if name == "ne"@ {
        OpModel::Ne(value)
    } else if name == "gt"@ {
        OpModel::Gt(value)
    } else if name == "gte"@ {
        OpModel::Gte(value)
    } else if name == "lt"@ {
        OpModel::Lt(value)
    } else {
        OpModel::Lte(value)
    }
}

/// Whether an operator takes one value.
pub open spec fn takes_one_value(name: Seq<char>) -> bool {
    name == "eq"@ || name == "ne"@ || name == "gt"@ || name == "gte"@ || name == "lt"@ || name
        == "lte"@
}

/// An operator by its name and its operand.
pub open spec fn parsed_op<M: Fn(&str) -> Option<Number>>(
    number: M,
    name: Seq<char>,
    j: Json,
) -> Result<OpModel, Seq<char>> {
    if takes_one_value(name) {
        match parsed_value(number, j) {
            Ok(value) => Ok(one_value_op(name, value)),
            Err(message) => Err(message),
        }
    } else if name == "in"@ || name == "nin"@ {
        match parsed_values(number, j) {
            Ok(values) => Ok(
                if name == "in"@ {
                    OpModel::In(values)
                } else {
                    OpModel::Nin(values)
                },
            ),
            Err(message) => Err(message),
        }
    } else if name == "contains"@ || name == "icontains"@ {
        match expected_text(j) {
            Ok(needle) => Ok(
                if name == "contains"@ {
                    OpModel::Contains(needle)
                } else {
                    OpModel::Icontains(needle)
                },
            ),
            Err(message) => Err(message),
        }
    } else {
        Err("unknown filter operator "@ + text::debug_form(name))
    }
}

/// The operators on a field, in order; the first that is none makes the error.
pub open spec fn parsed_ops<M: Fn(&str) -> Option<Number>>(
    number: M,
    field: Seq<char>,
    ops: Seq<(Seq<char>, Json)>,
) -> Result<Seq<ExprModel>, Seq<char>>
    decreases ops.len(),
{
    if ops.len() == 0 {
        Ok(Seq::empty())
    } else {
        match parsed_ops(number, field, ops.drop_last()) {
            Err(message) => Err(message),
            Ok(before) => match parsed_op(number, ops.last().0, ops.last().1) {
                Err(message) => Err(message),
                Ok(op) => Ok(before.push(ExprModel::Field(field, op))),
            },
        }
    }
}

/// What is asked of a field: the operators of an object, the wildcard for a
/// star, equality with any other value.
pub open spec fn parsed_condition<M: Fn(&str) -> Option<Number>>(
    number: M,
    field: Seq<char>,
    j: Json,
) -> Result<Seq<ExprModel>, Seq<char>> {
    if j.kind is Object {
        parsed_ops(number, field, j.kind->Object_0)
    } else if j.kind == JsonKind::Text("*"@) {
        Ok(seq![ExprModel::Field(field, OpModel::Wildcard)])
    } else {
        match parsed_value(number, j) {
            Ok(value) => Ok(seq![ExprModel::Field(field, OpModel::Eq(value))]),
            Err(message) => Err(message),
        }
    }
}

/// The filter that a JSON object is: all of its clauses, or the only one.
pub open spec fn parsed_expr<M: Fn(&str) -> Option<Number>>(number: M, j: Json) -> Result<
    ExprModel,
    Seq<char>,
>
    decreases j,
{
    match j.kind {
        JsonKind::Object(entries) => match parsed_clauses(number, entries) {
            Ok(clauses) => Ok(
                if clauses.len() == 1 {
                    clauses[0]
                } else {
                    ExprModel::And(clauses)
                },
            ),
            Err(message) => Err(message),
        },
        _ => Err("filters must be a JSON object, got "@ + j.shown),
    }
}

/// The clauses of some entries, in order; the first that is none makes the
/// error.
pub open spec fn parsed_clauses<M: Fn(&str) -> Option<Number>>(
    number: M,
    entries: Seq<(Seq<char>, Json)>,
) -> Result<Seq<ExprModel>, Seq<char>>
    decreases entries,
{
    if entries.len() == 0 {
        Ok(Seq::empty())
    } else {
        match parsed_clauses(number, entries.drop_last()) {
            Err(message) => Err(message),
            Ok(before) => match parsed_clause(number, entries.last().0, entries.last().1) {
                Err(message) => Err(message),
                Ok(clauses) => Ok(before + clauses),
            },
        }
    }
}

/// The clauses of an entry: a connective of a list of filters, or what is asked
/// of a field.
pub open spec fn parsed_clause<M: Fn(&str) -> Option<Number>>(
    number: M,
    key: Seq<char>,
    condition: Json,
) -> Result<Seq<ExprModel>, Seq<char>>
    decreases condition,
{
    if key == "AND"@ || key == "OR"@ || key == "NOT"@ {
        match condition.kind {
            JsonKind::List(items) => match parsed_list(number, items) {
                Ok(exprs) => Ok(seq![connective(key, exprs)]),
                Err(message) => Err(message),
            },
            _ => Err("AND/OR/NOT must hold a JSON array, got "@ + condition.shown),
        }
    } else {
        parsed_condition(number, key, condition)
    }
}

/// A connective of some filters; `NOT` negates their conjunction.
pub open spec fn connective(key: Seq<char>, exprs: Seq<ExprModel>) -> ExprModel {
    if key == "AND"@ {
        ExprModel::And(exprs)
    } else if key == "OR"@ {
        ExprModel::Or(exprs)
    } else {
        ExprModel::Not(Box::new(ExprModel::And(exprs)))
    }
}

/// The filters that some JSON values are, in order; the first that is none makes
/// the error.
pub open spec fn parsed_list<M: Fn(&str) -> Option<Number>>(number: M, items: Seq<Json>) -> Result<
    Seq<ExprModel>,
    Seq<char>,
>
    decreases items,
{
    if items.len() == 0 {
        Ok(Seq::empty())
    } else {
        match parsed_list(number, items.drop_last()) {
            Err(message) => Err(message),
            Ok(before) => match parsed_expr(number, items.last()) {
                Err(message) => Err(message),
                Ok(expr) => Ok(before.push(expr)),
            },
        }
    }
}

fn read_number<M: Fn(&str) -> Option<Number>>(number: &M, s: &str) -> (r: Option<Number>)
    requires
        numbers(*number),
    ensures
        number_model(r) == number_at(*number, s@),
{
    let r = number(s);
    proof {
        assert(may_number(*number, s@, number_model(r)));
        let other = number_at(*number, s@);
        assert(may_number(*number, s@, other));
    }
    r
}

/// What a JSON value is for a filter to compare with.
pub fn parse_filter_value<M: Fn(&str) -> Option<Number>>(
    value: &JsonTree,
    number: &M,
) -> (r: Result<FilterValue, String>)
    requires
        numbers(*number),
    ensures
        match r {
            Ok(v) => parsed_value(*number, value@) == Ok::<ValueModel, Seq<char>>(v@),
            Err(message) => parsed_value(*number, value@) == Err::<
                ValueModel,
                Seq<char>,
            >(message@),
        },
{
    match &value.kind {
        TreeKind::Text(s) => Ok(FilterValue::String(s.clone())),
        TreeKind::Number(s) => match read_number(number, s.as_str()) {
            Some(n) => Ok(FilterValue::Number(n)),
            None => Err(text::concat3("filter number ", s.as_str(), " is out of range")),
        },
        TreeKind::Bool(b) => Ok(FilterValue::Bool(*b)),
        _ => Err(
            text::concat3(
                "filter value ",
                value.shown.as_str(),
                " must be a string, number, or boolean",
            ),
        ),
    }
}

/// What a JSON array is for a filter to compare with.
pub fn parse_filter_values<M: Fn(&str) -> Option<Number>>(
    value: &JsonTree,
    number: &M,
) -> (r: Result<Vec<FilterValue>, String>)
    requires
        numbers(*number),
    ensures
        match r {
            Ok(vs) => parsed_values(*number, value@) == Ok::<
                Seq<ValueModel>,
                Seq<char>,
            >(value_models(vs@)),
            Err(message) => parsed_values(*number, value@) == Err::<
                Seq<ValueModel>,
                Seq<char>,
            >(message@),
        },
{
    match &value.kind {
        TreeKind::List(items) => {
            let ghost all = json::list_models(items@);
            let mut values: Vec<FilterValue> = Vec::new();
            let mut i: usize = 0;
            proof {
                assert(value_models(values@) =~= Seq::empty());
            }
            while i < items.len()
                invariant
                    i <= items.len(),
                    numbers(*number),
                    all == json::list_models(items@),
                    value@.kind == JsonKind::List(all),
                    parsed_items(*number, all.take(i as int)) == Ok::<Seq<ValueModel>, Seq<char>>(
                        value_models(values@),
                    ),
                decreases items.len() - i,
            {
                let ghost before = value_models(values@);
                proof {
                    json::lemma_list_models(items@);
                    assert(all.take(i + 1).drop_last() =~= all.take(i as int));
                    assert(all.take(i + 1).last() == items@[i as int]@);
                }
                match parse_filter_value(&items[i], number) {
                    Ok(v) => {
                        values.push(v);
                        proof {
                            assert(value_models(values@) =~= before.push(v@));
                        }
                    },
                    Err(message) => {
                        proof {
                            lemma_items_fail(*number, all, i as int);
                        }
                        return Err(message);
                    },
                }
                i = i + 1;
            }
            proof {
                json::lemma_list_models(items@);
                assert(all.take(i as int) =~= all);
            }
            Ok(values)
        },
        _ => Err(
            text::concat3("filter value ", value.shown.as_str(), " must be an array"),
        ),
    }
}

proof fn lemma_items_fail<M: Fn(&str) -> Option<Number>>(number: M, items: Seq<Json>, i: int)
    requires
        0 <= i < items.len(),
        parsed_items(number, items.take(i)) is Ok,
        parsed_value(number, items[i]) is Err,
    ensures
        parsed_items(number, items) == Err::<Seq<ValueModel>, Seq<char>>(
            parsed_value(number, items[i])->Err_0,
        ),
    decreases items.len() - i,
{
    lemma_items_fail_from(number, items, i, items.len() as int);
    assert(items.take(items.len() as int) =~= items);
}

proof fn lemma_items_fail_from<M: Fn(&str) -> Option<Number>>(
    number: M,
    items: Seq<Json>,
    i: int,
    n: int,
)
    requires
        0 <= i < n <= items.len(),
        parsed_items(number, items.take(i)) is Ok,
        parsed_value(number, items[i]) is Err,
    ensures
        parsed_items(number, items.take(n)) == Err::<Seq<ValueModel>, Seq<char>>(
            parsed_value(number, items[i])->Err_0,
        ),
    decreases n - i,
{
    assert(items.take(n).drop_last() =~= items.take(n - 1));
    if i < n - 1 {
        lemma_items_fail_from(number, items, i, n - 1);
    }
}

/// The text that a JSON value must be.
pub fn expect_string(value: &JsonTree) -> (r: Result<String, String>)
    ensures
        match r {
            Ok(s) => expected_text(value@) == Ok::<Seq<char>, Seq<char>>(s@),
            Err(message) => expected_text(value@) == Err::<Seq<char>, Seq<char>>(
                message@,
            ),
        },
{
    match value.as_text() {
        Some(s) => Ok(s.clone()),
        None => Err(
            text::concat3("filter value ", value.shown.as_str(), " must be a string"),
        ),
    }
}

fn build_op(name: &str, value: FilterValue) -> (r: FilterOp)
    ensures
        r@ == one_value_op(name@, value@),
{
    if text::same(name, "eq") {
        FilterOp::Eq(value)
    } else if text::same(name, "ne") {
        FilterOp::Ne(value)
    } else if text::same(name, "gt") {
        FilterOp::Gt(value)
    } else if text::same(name, "gte") {
        FilterOp::Gte(value)
    } else if text::same(name, "lt") {
        FilterOp::Lt(value)
    } else {
        FilterOp::Lte(value)
    }
}

/// An operator by its name and its operand.
pub fn parse_op<M: Fn(&str) -> Option<Number>>(
    name: &str,
    value: &JsonTree,
    number: &M,
) -> (r: Result<FilterOp, String>)
    requires
        numbers(*number),
    ensures
        match r {
            Ok(op) => parsed_op(*number, name@, value@) == Ok::<OpModel, Seq<char>>(
                op@,
            ),
            Err(message) => parsed_op(*number, name@, value@) == Err::<
                OpModel,
                Seq<char>,
            >(message@),
        },
{
    if text::same(name, "eq") || text::same(name, "ne") || text::same(name, "gt") || text::same(
        name,
        "gte",
    ) || text::same(name, "lt") || text::same(name, "lte") {
        match parse_filter_value(value, number) {
            Ok(v) => Ok(build_op(name, v)),
            Err(message) => Err(message),
        }
    } else if text::same(name, "in") || text::same(name, "nin") {
        match parse_filter_values(value, number) {
            Ok(vs) => if text::same(name, "in") {
                Ok(FilterOp::In(vs))
            } else {
                Ok(FilterOp::Nin(vs))
            },
            Err(message) => Err(message),
        }
    } else if text::same(name, "contains") || text::same(name, "icontains") {
        match expect_string(value) {
            Ok(needle) => if text::same(name, "contains") {
                Ok(FilterOp::Contains(needle))
            } else {
                Ok(FilterOp::Icontains(needle))
            },
            Err(message) => Err(message),
        }
    } else {
        Err(text::concat("unknown filter operator ", text::to_debug(name).as_str()))
    }
}

proof fn lemma_models_push(exprs: Seq<FilterExpr>, expr: FilterExpr)
    ensures
        expr_models(exprs.push(expr)) == expr_models(exprs).push(expr_model(expr)),
{
    assert(exprs.push(expr).drop_last() =~= exprs);
}

proof fn lemma_models_add(a: Seq<FilterExpr>, b: Seq<FilterExpr>)
    ensures
        expr_models(a + b) == expr_models(a) + expr_models(b),
    decreases b.len(),
{
    if b.len() == 0 {
        assert(a + b =~= a);
        assert(expr_models(a) + expr_models(b) =~= expr_models(a));
    } else {
        lemma_models_add(a, b.drop_last());
        assert((a + b).drop_last() =~= a + b.drop_last());
        assert(expr_models(a + b) =~= expr_models(a) + expr_models(b));
    }
}

proof fn lemma_ops_fail<M: Fn(&str) -> Option<Number>>(
    number: M,
    field: Seq<char>,
    ops: Seq<(Seq<char>, Json)>,
    i: int,
    n: int,
)
    requires
        0 <= i < n <= ops.len(),
        parsed_ops(number, field, ops.take(i)) is Ok,
        parsed_op(number, ops[i].0, ops[i].1) is Err,
    ensures
        parsed_ops(number, field, ops.take(n)) == Err::<Seq<ExprModel>, Seq<char>>(
            parsed_op(number, ops[i].0, ops[i].1)->Err_0,
        ),
    decreases n - i,
{
    assert(ops.take(n).drop_last() =~= ops.take(n - 1));
    if i < n - 1 {
        lemma_ops_fail(number, field, ops, i, n - 1);
    }
}

fn one_expr(expr: FilterExpr) -> (r: Vec<FilterExpr>)
    ensures
        expr_models(r@) == seq![expr@],
{
    let mut r: Vec<FilterExpr> = Vec::new();
    r.push(expr);
    proof {
        lemma_models_push(Seq::empty(), expr);
        assert(Seq::<FilterExpr>::empty().push(expr) =~= r@);
        assert(expr_models(r@) =~= seq![expr@]);
    }
    r
}

/// What is asked of a field.
pub fn parse_field_condition<M: Fn(&str) -> Option<Number>>(
    field: &str,
    condition: &JsonTree,
    number: &M,
) -> (r: Result<Vec<FilterExpr>, String>)
    requires
        numbers(*number),
    ensures
        match r {
            Ok(exprs) => parsed_condition(*number, field@, condition@) == Ok::<
                Seq<ExprModel>,
                Seq<char>,
            >(expr_models(exprs@)),
            Err(message) => parsed_condition(*number, field@, condition@) == Err::<
                Seq<ExprModel>,
                Seq<char>,
            >(message@),
        },
{
    match &condition.kind {
        TreeKind::Object(ops) => {
            let ghost all = json::entry_models(ops@);
            let mut exprs: Vec<FilterExpr> = Vec::new();
            let mut i: usize = 0;
            while i < ops.len()
                invariant
                    i <= ops.len(),
                    numbers(*number),
                    all == json::entry_models(ops@),
                    condition@.kind == JsonKind::Object(all),
                    parsed_ops(*number, field@, all.take(i as int)) == Ok::<
                        Seq<ExprModel>,
                        Seq<char>,
                    >(expr_models(exprs@)),
                decreases ops.len() - i,
            {
                proof {
                    json::lemma_entry_models(ops@);
                    assert(all.take(i + 1).drop_last() =~= all.take(i as int));
                    assert(all.take(i + 1).last() == all[i as int]);
                }
                match parse_op(ops[i].0.as_str(), &ops[i].1, number) {
                    Ok(op) => {
                        let expr = FilterExpr::Field(field.to_owned(), op);
                        proof {
                            lemma_models_push(exprs@, expr);
                        }
                        exprs.push(expr);
                    },
                    Err(message) => {
                        proof {
                            lemma_ops_fail(*number, field@, all, i as int, all.len() as int);
                            assert(all.take(all.len() as int) =~= all);
                        }
                        return Err(message);
                    },
                }
                i = i + 1;
            }
            proof {
                json::lemma_entry_models(ops@);
                assert(all.take(i as int) =~= all);
            }
            Ok(exprs)
        },
        TreeKind::Text(s) => {
            if text::same(s.as_str(), "*") {
                Ok(one_expr(FilterExpr::Field(field.to_owned(), FilterOp::Wildcard)))
            } else {
                match parse_filter_value(condition, number) {
                    Ok(v) => Ok(one_expr(FilterExpr::Field(field.to_owned(), FilterOp::Eq(v)))),
                    Err(message) => Err(message),
                }
            }
        },
        _ => match parse_filter_value(condition, number) {
            Ok(v) => Ok(one_expr(FilterExpr::Field(field.to_owned(), FilterOp::Eq(v)))),
            Err(message) => Err(message),
        },
    }
}

proof fn lemma_clauses_fail<M: Fn(&str) -> Option<Number>>(
    number: M,
    entries: Seq<(Seq<char>, Json)>,
    i: int,
    n: int,
)
    requires
        0 <= i < n <= entries.len(),
        parsed_clauses(number, entries.take(i)) is Ok,
        parsed_clause(number, entries[i].0, entries[i].1) is Err,
    ensures
        parsed_clauses(number, entries.take(n)) == Err::<Seq<ExprModel>, Seq<char>>(
            parsed_clause(number, entries[i].0, entries[i].1)->Err_0,
        ),
    decreases n - i,
{
    assert(entries.take(n).drop_last() =~= entries.take(n - 1));
    if i < n - 1 {
        lemma_clauses_fail(number, entries, i, n - 1);
    }
}

proof fn lemma_list_fails<M: Fn(&str) -> Option<Number>>(
    number: M,
    items: Seq<Json>,
    i: int,
    n: int,
)
    requires
        0 <= i < n <= items.len(),
        parsed_list(number, items.take(i)) is Ok,
        parsed_expr(number, items[i]) is Err,
    ensures
        parsed_list(number, items.take(n)) == Err::<Seq<ExprModel>, Seq<char>>(
            parsed_expr(number, items[i])->Err_0,
        ),
    decreases n - i,
{
    assert(items.take(n).drop_last() =~= items.take(n - 1));
    if i < n - 1 {
        lemma_list_fails(number, items, i, n - 1);
    }
}

/// The filter that a JSON object is; `number` says what the text of a JSON
/// number is.
pub fn parse_filter_expr<M: Fn(&str) -> Option<Number>>(
    value: &JsonTree,
    number: &M,
) -> (r: Result<FilterExpr, String>)
    requires
        numbers(*number),
    ensures
        match r {
            Ok(expr) => parsed_expr(*number, value@) == Ok::<ExprModel, Seq<char>>(
                expr@,
            ),
            Err(message) => parsed_expr(*number, value@) == Err::<
                ExprModel,
                Seq<char>,
            >(message@),
        },
    decreases value@, 1int,
{
    match &value.kind {
        TreeKind::Object(entries) => {
            let ghost all = json::entry_models(entries@);
            let mut clauses: Vec<FilterExpr> = Vec::new();
            let mut i: usize = 0;
            while i < entries.len()
                invariant
                    i <= entries.len(),
                    numbers(*number),
                    all == json::entry_models(entries@),
                    value@.kind == JsonKind::Object(all),
                    parsed_clauses(*number, all.take(i as int)) == Ok::<
                        Seq<ExprModel>,
                        Seq<char>,
                    >(expr_models(clauses@)),
                decreases entries.len() - i,
            {
                proof {
                    json::lemma_entry_models(entries@);
                    assert(all.take(i + 1).drop_last() =~= all.take(i as int));
                    assert(all.take(i + 1).last() == all[i as int]);
                    assert(decreases_to!(value@ => value@.kind));
                    assert(decreases_to!(value@.kind => all));
                    assert(decreases_to!(all => all[i as int]));
                    assert(decreases_to!(all[i as int] => all[i as int].1));
                    assert(all[i as int].1 == entries@[i as int].1@);
                }
                match parse_clause(entries[i].0.as_str(), &entries[i].1, number) {
                    Ok(more) => {
                        let mut more = more;
                        proof {
                            lemma_models_add(clauses@, more@);
                        }
                        clauses.append(&mut more);
                    },
                    Err(message) => {
                        proof {
                            lemma_clauses_fail(*number, all, i as int, all.len() as int);
                            assert(all.take(all.len() as int) =~= all);
                        }
                        return Err(message);
                    },
                }
                i = i + 1;
            }
            proof {
                json::lemma_entry_models(entries@);
                assert(all.take(i as int) =~= all);
                lemma_expr_models(clauses@);
            }
            if clauses.len() == 1 {
                Ok(clauses.remove(0))
            } else {
                Ok(FilterExpr::And(clauses))
            }
        },
        _ => Err(
            text::concat("filters must be a JSON object, got ", value.shown.as_str()),
        ),
    }
}

/// The clauses of an entry.
fn parse_clause<M: Fn(&str) -> Option<Number>>(
    key: &str,
    condition: &JsonTree,
    number: &M,
) -> (r: Result<Vec<FilterExpr>, String>)
    requires
        numbers(*number),
    ensures
        match r {
            Ok(exprs) => parsed_clause(*number, key@, condition@) == Ok::<
                Seq<ExprModel>,
                Seq<char>,
            >(expr_models(exprs@)),
            Err(message) => parsed_clause(*number, key@, condition@) == Err::<
                Seq<ExprModel>,
                Seq<char>,
            >(message@),
        },
    decreases condition@, 3int,
{
    if text::same(key, "AND") || text::same(key, "OR") || text::same(key, "NOT") {
        match parse_filter_list(condition, number) {
            Ok(exprs) => {
                let expr = if text::same(key, "AND") {
                    FilterExpr::And(exprs)
                } else if text::same(key, "OR") {
                    FilterExpr::Or(exprs)
                } else {
                    FilterExpr::Not(Box::new(FilterExpr::And(exprs)))
                };
                proof {
                    assert(expr_model(FilterExpr::And(exprs)) == ExprModel::And(
                        expr_models(exprs@),
                    ));
                    assert(expr@ == connective(key@, expr_models(exprs@)));
                }
                Ok(one_expr(expr))
            },
            Err(message) => Err(message),
        }
    } else {
        parse_field_condition(key, condition, number)
    }
}

/// The filters that the elements of a JSON array are.
pub fn parse_filter_list<M: Fn(&str) -> Option<Number>>(
    value: &JsonTree,
    number: &M,
) -> (r: Result<Vec<FilterExpr>, String>)
    requires
        numbers(*number),
    ensures
        match value@.kind {
            JsonKind::List(items) => match r {
                Ok(exprs) => parsed_list(*number, items) == Ok::<Seq<ExprModel>, Seq<char>>(
                    expr_models(exprs@),
                ),
                Err(message) => parsed_list(*number, items) == Err::<Seq<ExprModel>, Seq<char>>(
                    message@,
                ),
            },
            _ => r matches Err(message) && message@ == "AND/OR/NOT must hold a JSON array, got "@
                + value@.shown,
        },
    decreases value@, 2int,
{
    match &value.kind {
        TreeKind::List(items) => {
            let ghost all = json::list_models(items@);
            let mut exprs: Vec<FilterExpr> = Vec::new();
            let mut i: usize = 0;
            while i < items.len()
                invariant
                    i <= items.len(),
                    numbers(*number),
                    all == json::list_models(items@),
                    value@.kind == JsonKind::List(all),
                    parsed_list(*number, all.take(i as int)) == Ok::<Seq<ExprModel>, Seq<char>>(
                        expr_models(exprs@),
                    ),
                decreases items.len() - i,
            {
                proof {
                    json::lemma_list_models(items@);
                    assert(all.take(i + 1).drop_last() =~= all.take(i as int));
                    assert(all.take(i + 1).last() == all[i as int]);
                    assert(decreases_to!(value@ => value@.kind));
                    assert(decreases_to!(value@.kind => all));
                    assert(decreases_to!(all => all[i as int]));
                    assert(all[i as int] == items@[i as int]@);
                }
                match parse_filter_expr(&items[i], number) {
                    Ok(expr) => {
                        proof {
                            lemma_models_push(exprs@, expr);
                        }
                        exprs.push(expr);
                    },
                    Err(message) => {
                        proof {
                            lemma_list_fails(*number, all, i as int, all.len() as int);
                            assert(all.take(all.len() as int) =~= all);
                        }
                        return Err(message);
                    },
                }
                i = i + 1;
            }
            proof {
                json::lemma_list_models(items@);
                assert(all.take(i as int) =~= all);
            }
            Ok(exprs)
        },
        _ => Err(
            text::concat(
                "AND/OR/NOT must hold a JSON array, got ",
                value.shown.as_str(),
            ),
        ),
    }
}

/// The filter that a text is as JSON.
pub open spec fn parsed_arg<M: Fn(&str) -> Option<Number>>(
    number: M,
    s: Result<Json, Seq<char>>,
) -> Result<ExprModel, Seq<char>> {
    match s {
        Err(message) => Err("malformed filter JSON: "@ + message),
        Ok(j) => match parsed_expr(number, j) {
            Err(message) => Err("malformed filters: "@ + message),
            Ok(expr) => Ok(expr),
        },
    }
}

/// The filter that an argument is as JSON.
pub fn parse_filter_arg<M: Fn(&str) -> Option<Number>>(s: &str, number: &M) -> (r: Result<
    FilterExpr,
    String,
>)
    requires
        numbers(*number),
    ensures
        match r {
            Ok(expr) => parsed_arg(*number, json::json_in(s@)) == Ok::<ExprModel, Seq<char>>(expr@),
            Err(message) => parsed_arg(*number, json::json_in(s@)) == Err::<ExprModel, Seq<char>>(
                message@,
            ),
        },
{
    match JsonTree::parse(s) {
        Err(message) => Err(text::concat("malformed filter JSON: ", message.as_str())),
        Ok(value) => match parse_filter_expr(&value, number) {
            Err(message) => Err(text::concat("malformed filters: ", message.as_str())),
            Ok(expr) => Ok(expr),
        },
    }
}

} // verus!
