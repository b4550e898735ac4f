//! What filters mean: which payloads pass what is written in JSON.

use super::{ExprModel, FilterExpr, FilterOp, FilterValue, OpModel, Standing, ValueModel};
use crate::filter;
use crate::json::{Json, JsonKind};
use crate::number;
use crate::number::{Number, Reading};
use crate::text;
use vstd::prelude::*;

verus! {

/// A text stands to a number as the number that it is does, by their order keys;
/// a text that is no number stands to it as a text, in the order of characters.
pub proof fn law_standing_to_a_number<N: Fn(&str) -> Reading>(
    read: N,
    key: i64,
    shown: Seq<char>,
    s: Seq<char>,
    k: i64,
)
    requires
        number::compares(key),
        number::compares(k),
    ensures
        ({
            let stands = filter::standing(read, ValueModel::Number { key, text: shown }, s);
            &&& filter::reading(read, s) == Reading::Ordered(k) ==> {
                &&& stands is Below <==> k < key
                &&& stands is Level <==> k == key
                &&& stands is Above <==> k > key
            }
            &&& filter::reading(read, s) is Unordered ==> stands is Apart
            &&& filter::reading(read, s) is Words ==> {
                &&& stands is Below <==> text::precedes(s, shown)
                &&& stands is Level <==> s == shown
                &&& stands is Above <==> text::precedes(shown, s)
            }
        }),
{
    text::lemma_precedes_total(s, shown);
    text::lemma_precedes_total(shown, s);
}

/// A text stands to a text in the order of characters, and to a truth value as to
/// the word for it.
pub proof fn law_standing_to_a_text<N: Fn(&str) -> Reading>(read: N, other: Seq<char>, s: Seq<char>)
    ensures
        ({
            let stands = filter::standing(read, ValueModel::Text(other), s);
            &&& stands is Below <==> text::precedes(s, other)
            &&& stands is Level <==> s == other
            &&& stands is Above <==> text::precedes(other, s)
        }),
        filter::standing(read, ValueModel::Bool(true), s) == filter::standing(
            read,
            ValueModel::Text("true"@),
            s,
        ),
        filter::standing(read, ValueModel::Bool(false), s) == filter::standing(
            read,
            ValueModel::Text("false"@),
            s,
        ),
{
    text::lemma_precedes_total(s, other);
    text::lemma_precedes_total(other, s);
}

/// The operands of filters are what JSON says: a text, a number or a truth value,
/// and nothing else. A number is what it is turned into, or out of range.
pub proof fn law_operands<M: Fn(&str) -> Option<Number>>(number: M, j: Json)
    ensures
        match j.kind {
            JsonKind::Text(s) => filter::parsed_value(number, j) == Ok::<
                ValueModel,
                Seq<char>,
            >(ValueModel::Text(s)),
            JsonKind::Bool(b) => filter::parsed_value(number, j) == Ok::<
                ValueModel,
                Seq<char>,
            >(ValueModel::Bool(b)),
            JsonKind::Number(s) => match filter::number_at(number, s) {
                Some((key, shown)) => filter::parsed_value(number, j) == Ok::<
                    ValueModel,
                    Seq<char>,
                >(ValueModel::Number { key, text: shown }),
                None => filter::parsed_value(number, j) == Err::<ValueModel, Seq<char>>(
                    "filter number "@ + s + " is out of range"@,
                ),
            },
            _ => filter::parsed_value(number, j) == Err::<ValueModel, Seq<char>>(
                "filter value "@ + j.shown + " must be a string, number, or boolean"@,
            ),
        },
{
}

/// A list of operands has one for each item, in order; it is refused if one of
/// them is.
pub proof fn law_operand_lists<M: Fn(&str) -> Option<Number>>(number: M, items: Seq<Json>)
    ensures
        match filter::parsed_items(number, items) {
            Ok(values) => values.len() == items.len() && forall|i: int|
                0 <= i < items.len() ==> filter::parsed_value(number, #[trigger] items[i]) == Ok::<
                    ValueModel,
                    Seq<char>,
                >(values[i]),
            Err(_) => exists|i: int|
                0 <= i < items.len() && filter::parsed_value(number, #[trigger] items[i]) is Err,
        },
    decreases items.len(),
{
    if items.len() > 0 {
        let rest = items.drop_last();
        law_operand_lists(number, rest);
        assert(items[items.len() - 1] == items.last());
        match filter::parsed_items(number, items) {
            Ok(values) => {
                assert forall|i: int| 0 <= i < items.len() implies filter::parsed_value(
                    number,
                    #[trigger] items[i],
                ) == Ok::<ValueModel, Seq<char>>(values[i]) by {
                    if i < rest.len() {
                        assert(rest[i] == items[i]);
                    }
                }
            },
            Err(_) => {
                if filter::parsed_items(number, rest) is Err {
                    let i = choose|i: int|
                        0 <= i < rest.len() && filter::parsed_value(number, #[trigger] rest[i]) is Err;
                    assert(items[i] == rest[i]);
                }
            },
        }
    }
}

/// What some clauses ask for is asked for by each of two parts of them.
proof fn lemma_passes_parts<N: Fn(&str) -> Reading>(
    read: N,
    a: Seq<ExprModel>,
    b: Seq<ExprModel>,
    payload: Map<Seq<char>, Seq<char>>,
)
    ensures
        filter::passes_all(read, a + b, payload) == (filter::passes_all(read, a, payload)
            && filter::passes_all(read, b, payload)),
    decreases b.len(),
{
    if b.len() == 0 {
        assert(a + b =~= a);
    } else {
        lemma_passes_parts(read, a, b.drop_last(), payload);
        assert((a + b).drop_last() =~= a + b.drop_last());
        assert((a + b).last() == b.last());
    }
}

proof fn lemma_passes_one<N: Fn(&str) -> Reading>(
    read: N,
    one: ExprModel,
    payload: Map<Seq<char>, Seq<char>>,
)
    ensures
        filter::passes_all(read, seq![one], payload) == filter::passes(read, one, payload),
{
    assert(seq![one].drop_last() =~= Seq::empty());
    assert(filter::passes_all(read, seq![one].drop_last(), payload));
}

/// Whether a payload passes what an entry of a filter asks for.
pub open spec fn entry_passes<M: Fn(&str) -> Option<Number>, N: Fn(&str) -> Reading>(
    number: M,
    read: N,
    entry: (Seq<char>, Json),
    payload: Map<Seq<char>, Seq<char>>,
) -> bool {
    filter::parsed_clause(number, entry.0, entry.1) matches Ok(clauses) && filter::passes_all(
        read,
        clauses,
        payload,
    )
}

proof fn lemma_clauses<M: Fn(&str) -> Option<Number>, N: Fn(&str) -> Reading>(
    number: M,
    read: N,
    entries: Seq<(Seq<char>, Json)>,
    payload: Map<Seq<char>, Seq<char>>,
)
    ensures
        match filter::parsed_clauses(number, entries) {
            Ok(clauses) => {
                &&& filter::passes_all(read, clauses, payload) <==> forall|i: int|
                    0 <= i < entries.len() ==> entry_passes(
                        number,
                        read,
                        #[trigger] entries[i],
                        payload,
                    )
                &&& forall|i: int|
                    0 <= i < entries.len() ==> filter::parsed_clause(
                        number,
                        (#[trigger] entries[i]).0,
                        entries[i].1,
                    ) is Ok
            },
            Err(_) => exists|i: int|
                0 <= i < entries.len() && filter::parsed_clause(
                    number,
                    (#[trigger] entries[i]).0,
                    entries[i].1,
                ) is Err,
        },
    decreases entries.len(),
{
    if entries.len() > 0 {
        let rest = entries.drop_last();
        lemma_clauses(number, read, rest, payload);
        assert(entries[entries.len() - 1] == entries.last());
        assert forall|i: int| 0 <= i < rest.len() implies #[trigger] rest[i] == entries[i] by {}
        match filter::parsed_clauses(number, entries) {
            Ok(clauses) => {
                let before = filter::parsed_clauses(number, rest)->Ok_0;
                let last = filter::parsed_clause(number, entries.last().0, entries.last().1)->Ok_0;
                lemma_passes_parts(read, before, last, payload);
                if forall|i: int|
                    0 <= i < entries.len() ==> entry_passes(
                        number,
                        read,
                        #[trigger] entries[i],
                        payload,
                    ) {
                    assert forall|i: int| 0 <= i < rest.len() implies entry_passes(
                        number,
                        read,
                        #[trigger] rest[i],
                        payload,
                    ) by {
                        assert(entry_passes(number, read, entries[i], payload));
                    }
                    assert(entry_passes(number, read, entries[entries.len() - 1], payload));
                }
                if filter::passes_all(read, clauses, payload) {
                    assert forall|i: int| 0 <= i < entries.len() implies entry_passes(
                        number,
                        read,
                        #[trigger] entries[i],
                        payload,
                    ) by {
                        if i < rest.len() {
                            assert(entry_passes(number, read, rest[i], payload));
                        }
                    }
                }
                assert forall|i: int| 0 <= i < entries.len() implies filter::parsed_clause(
                    number,
                    (#[trigger] entries[i]).0,
                    entries[i].1,
                ) is Ok by {
                    if i < rest.len() {
                        assert(filter::parsed_clause(number, rest[i].0, rest[i].1) is Ok);
                    }
                }
            },
            Err(_) => {
                if filter::parsed_clauses(number, rest) is Err {
                    let i = choose|i: int|
                        0 <= i < rest.len() && filter::parsed_clause(
                            number,
                            (#[trigger] rest[i]).0,
                            rest[i].1,
                        ) is Err;
                    assert(entries[i] == rest[i]);
                }
            },
        }
    }
}

/// A filter is an object, and a payload passes it exactly where it passes each of
/// the object's entries; an empty object is passed by all. It is refused if it is
/// no object, or if one of its entries is refused.
pub proof fn law_an_object_asks_for_all<M: Fn(&str) -> Option<Number>, N: Fn(&str) -> Reading>(
    number: M,
    read: N,
    j: Json,
    payload: Map<Seq<char>, Seq<char>>,
)
    ensures
        match j.kind {
            JsonKind::Object(entries) => match filter::parsed_expr(number, j) {
                Ok(expr) => filter::passes(read, expr, payload) <==> forall|i: int|
                    0 <= i < entries.len() ==> entry_passes(
                        number,
                        read,
                        #[trigger] entries[i],
                        payload,
                    ),
                Err(_) => exists|i: int|
                    0 <= i < entries.len() && filter::parsed_clause(
                        number,
                        (#[trigger] entries[i]).0,
                        entries[i].1,
                    ) is Err,
            },
            _ => filter::parsed_expr(number, j) == Err::<ExprModel, Seq<char>>(
                "filters must be a JSON object, got "@ + j.shown,
            ),
        },
{
    match j.kind {
        JsonKind::Object(entries) => {
            lemma_clauses(number, read, entries, payload);
            if filter::parsed_clauses(number, entries) is Ok {
                let clauses = filter::parsed_clauses(number, entries)->Ok_0;
                if clauses.len() == 1 {
                    lemma_passes_one(read, clauses[0], payload);
                    assert(clauses =~= seq![clauses[0]]);
                }
            }
        },
        _ => {},
    }
}

/// Whether a name is one of the three connectives.
pub open spec fn is_connective(name: Seq<char>) -> bool {
    name == "AND"@ || name == "OR"@ || name == "NOT"@
}

proof fn lemma_names_differ()
    ensures
        "AND"@ != "OR"@,
        "AND"@ != "NOT"@,
        "OR"@ != "NOT"@,
        "eq"@ != "ne"@,
        "eq"@ != "gt"@,
        "eq"@ != "lt"@,
        "eq"@ != "in"@,
        "ne"@ != "gt"@,
        "ne"@ != "lt"@,
        "ne"@ != "in"@,
        "gt"@ != "lt"@,
        "gt"@ != "in"@,
        "lt"@ != "in"@,
        "gte"@ != "lte"@,
        "gte"@ != "nin"@,
        "lte"@ != "nin"@,
        "eq"@.len() == 2,
        "ne"@.len() == 2,
        "gt"@.len() == 2,
        "lt"@.len() == 2,
        "in"@.len() == 2,
        "gte"@.len() == 3,
        "lte"@.len() == 3,
        "nin"@.len() == 3,
        "contains"@.len() == 8,
        "icontains"@.len() == 9,
{
    reveal_strlit("AND");
    reveal_strlit("OR");
    reveal_strlit("NOT");
    reveal_strlit("eq");
    reveal_strlit("ne");
    reveal_strlit("gt");
    reveal_strlit("lt");
    reveal_strlit("in");
    reveal_strlit("gte");
    reveal_strlit("lte");
    reveal_strlit("nin");
    reveal_strlit("contains");
    reveal_strlit("icontains");
    assert("AND"@[0] == 'A');
    assert("NOT"@[0] == 'N');
    assert("OR"@.len() == 2);
    assert("AND"@.len() == 3);
    assert("NOT"@.len() == 3);
    assert("eq"@[0] == 'e');
    assert("ne"@[0] == 'n');
    assert("gt"@[0] == 'g');
    assert("lt"@[0] == 'l');
    assert("in"@[0] == 'i');
    assert("gte"@[0] == 'g');
    assert("lte"@[0] == 'l');
    assert("nin"@[0] == 'n');
}

proof fn lemma_list<M: Fn(&str) -> Option<Number>>(number: M, items: Seq<Json>)
    ensures
        match filter::parsed_list(number, items) {
            Ok(exprs) => exprs.len() == items.len() && forall|i: int|
                0 <= i < items.len() ==> filter::parsed_expr(number, #[trigger] items[i]) == Ok::<
                    ExprModel,
                    Seq<char>,
                >(exprs[i]),
            Err(_) => exists|i: int|
                0 <= i < items.len() && filter::parsed_expr(number, #[trigger] items[i]) is Err,
        },
    decreases items.len(),
{
    if items.len() > 0 {
        let rest = items.drop_last();
        lemma_list(number, rest);
        assert(items[items.len() - 1] == items.last());
        match filter::parsed_list(number, items) {
            Ok(exprs) => {
                assert forall|i: int| 0 <= i < items.len() implies filter::parsed_expr(
                    number,
                    #[trigger] items[i],
                ) == Ok::<ExprModel, Seq<char>>(exprs[i]) by {
                    if i < rest.len() {
                        assert(rest[i] == items[i]);
                    }
                }
            },
            Err(_) => {
                if filter::parsed_list(number, rest) is Err {
                    let i = choose|i: int|
                        0 <= i < rest.len() && filter::parsed_expr(number, #[trigger] rest[i]) is Err;
                    assert(items[i] == rest[i]);
                }
            },
        }
    }
}

/// Whether a payload passes the filter that a JSON value is.
pub open spec fn json_passes<M: Fn(&str) -> Option<Number>, N: Fn(&str) -> Reading>(
    number: M,
    read: N,
    j: Json,
    payload: Map<Seq<char>, Seq<char>>,
) -> bool {
    filter::parsed_expr(number, j) matches Ok(expr) && filter::passes(read, expr, payload)
}

/// `AND` of a list of filters is passed where each of them is, `OR` where one of
/// them is, and `NOT` where one of them is not. What is no list is refused, and so
/// is a list with something that is no filter.
pub proof fn law_connectives<M: Fn(&str) -> Option<Number>, N: Fn(&str) -> Reading>(
    number: M,
    read: N,
    condition: Json,
    payload: Map<Seq<char>, Seq<char>>,
)
    ensures
        match condition.kind {
            JsonKind::List(items) => if forall|i: int|
                0 <= i < items.len() ==> filter::parsed_expr(number, #[trigger] items[i]) is Ok {
                &&& entry_passes(number, read, ("AND"@, condition), payload) <==> forall|i: int|
                    0 <= i < items.len() ==> json_passes(number, read, #[trigger] items[i], payload)
                &&& entry_passes(number, read, ("OR"@, condition), payload) <==> exists|i: int|
                    0 <= i < items.len() && json_passes(number, read, #[trigger] items[i], payload)
                &&& entry_passes(number, read, ("NOT"@, condition), payload) <==> exists|i: int|
                    0 <= i < items.len() && !json_passes(number, read, #[trigger] items[i], payload)
            } else {
                &&& filter::parsed_clause(number, "AND"@, condition) is Err
                &&& filter::parsed_clause(number, "OR"@, condition) is Err
                &&& filter::parsed_clause(number, "NOT"@, condition) is Err
            },
            _ => {
                &&& filter::parsed_clause(number, "AND"@, condition) is Err
                &&& filter::parsed_clause(number, "OR"@, condition) is Err
                &&& filter::parsed_clause(number, "NOT"@, condition) is Err
            },
        },
{
    lemma_names_differ();
    match condition.kind {
        JsonKind::List(items) => {
            lemma_list(number, items);
            if filter::parsed_list(number, items) is Ok {
                let exprs = filter::parsed_list(number, items)->Ok_0;
                assert forall|i: int| 0 <= i < items.len() implies filter::parsed_expr(
                    number,
                    #[trigger] items[i],
                ) is Ok by {}
                assert forall|i: int| 0 <= i < items.len() implies json_passes(
                    number,
                    read,
                    #[trigger] items[i],
                    payload,
                ) == filter::passes(read, exprs[i], payload) by {}
                filter::law_and_is_all(read, exprs, payload);
                filter::law_or_is_any(read, exprs, payload);
                lemma_passes_one(read, ExprModel::And(exprs), payload);
                lemma_passes_one(read, ExprModel::Or(exprs), payload);
                lemma_passes_one(read, ExprModel::Not(Box::new(ExprModel::And(exprs))), payload);
                assert((forall|i: int|
                    0 <= i < exprs.len() ==> filter::passes(read, #[trigger] exprs[i], payload))
                    <==> (forall|i: int|
                    0 <= i < items.len() ==> json_passes(
                        number,
                        read,
                        #[trigger] items[i],
                        payload,
                    ))) by {
                    if forall|i: int|
                        0 <= i < items.len() ==> json_passes(
                            number,
                            read,
                            #[trigger] items[i],
                            payload,
                        ) {
                        assert forall|i: int| 0 <= i < exprs.len() implies filter::passes(
                            read,
                            #[trigger] exprs[i],
                            payload,
                        ) by {
                            assert(json_passes(number, read, items[i], payload));
                        }
                    }
                    if forall|i: int|
                        0 <= i < exprs.len() ==> filter::passes(read, #[trigger] exprs[i], payload) {
                        assert forall|i: int| 0 <= i < items.len() implies json_passes(
                            number,
                            read,
                            #[trigger] items[i],
                            payload,
                        ) by {
                            assert(filter::passes(read, exprs[i], payload));
                        }
                    }
                }
                if exists|i: int|
                    0 <= i < exprs.len() && filter::passes(read, #[trigger] exprs[i], payload) {
                    let i = choose|i: int|
                        0 <= i < exprs.len() && filter::passes(read, #[trigger] exprs[i], payload);
                    assert(json_passes(number, read, items[i], payload));
                }
                if exists|i: int|
                    0 <= i < items.len() && json_passes(number, read, #[trigger] items[i], payload) {
                    let i = choose|i: int|
                        0 <= i < items.len() && json_passes(
                            number,
                            read,
                            #[trigger] items[i],
                            payload,
                        );
                    assert(filter::passes(read, exprs[i], payload));
                }
            }
        },
        _ => {},
    }
}

/// Whether a text is as an operator, by its name, asks of it with an operand: `eq`
/// and `ne` that it stands level with the operand or not, `gt`, `gte`, `lt` and
/// `lte` that it stands above, not below, below, or not above; `in` and `nin` that
/// it stands level with one of a list or with none; `contains` that the operand
/// occurs in it, and `icontains` that it does in lower case.
pub open spec fn text_is<M: Fn(&str) -> Option<Number>, N: Fn(&str) -> Reading>(
    number: M,
    read: N,
    s: Seq<char>,
    name: Seq<char>,
    operand: Json,
) -> bool {
    let stands = filter::standing(read, filter::parsed_value(number, operand)->Ok_0, s);
    let items = operand.kind->List_0;
    let among = exists|i: int|
        0 <= i < items.len() && filter::standing(
            read,
            filter::parsed_value(number, #[trigger] items[i])->Ok_0,
            s,
        ) is Level;
    ||| name == "eq"@ && stands is Level
    ||| name == "ne"@ && !(stands is Level)
    ||| name == "gt"@ && stands is Above
    ||| name == "gte"@ && (stands is Above || stands is Level)
    ||| name == "lt"@ && stands is Below
    ||| name == "lte"@ && (stands is Below || stands is Level)
    ||| name == "in"@ && among
    ||| name == "nin"@ && !among
    ||| name == "contains"@ && text::occurs(s, operand.kind->Text_0)
    ||| name == "icontains"@ && text::occurs(
        text::lowered(s),
        text::lowered(operand.kind->Text_0),
    )
}

/// Whether an operator, by its name, takes an operand.
pub open spec fn takes<M: Fn(&str) -> Option<Number>>(
    number: M,
    name: Seq<char>,
    operand: Json,
) -> bool {
    ||| (name == "eq"@ || name == "ne"@ || name == "gt"@ || name == "gte"@ || name == "lt"@ || name
        == "lte"@) && filter::parsed_value(number, operand) is Ok
    ||| (name == "in"@ || name == "nin"@) && operand.kind is List && forall|i: int|
        0 <= i < operand.kind->List_0.len() ==> filter::parsed_value(
            number,
            #[trigger] operand.kind->List_0[i],
        ) is Ok
    ||| (name == "contains"@ || name == "icontains"@) && operand.kind is Text
}

/// An operator is parsed exactly where it takes its operand, and a field passes it
/// exactly where the payload has it with a text that is as asked.
pub proof fn law_operators_by_name<M: Fn(&str) -> Option<Number>, N: Fn(&str) -> Reading>(
    number: M,
    read: N,
    name: Seq<char>,
    operand: Json,
    field: Seq<char>,
    payload: Map<Seq<char>, Seq<char>>,
)
    ensures
        filter::parsed_op(number, name, operand) is Ok <==> takes(number, name, operand),
        filter::parsed_op(number, name, operand) matches Ok(op) ==> (filter::passes(
            read,
            ExprModel::Field(field, op),
            payload,
        ) <==> payload.contains_key(field) && text_is(
            number,
            read,
            payload[field],
            name,
            operand,
        )),
{
    lemma_names_differ();
    let s = payload[field];
    if operand.kind is List {
        let items = operand.kind->List_0;
        law_operand_lists(number, items);
        if filter::parsed_items(number, items) is Ok {
            let values = filter::parsed_items(number, items)->Ok_0;
            assert forall|i: int| 0 <= i < values.len() implies filter::equals(
                read,
                #[trigger] values[i],
                s,
            ) == (filter::standing(read, filter::parsed_value(number, items[i])->Ok_0, s) is Level) by {
                filter::law_equal_is_level(read, values[i], s);
                assert(filter::parsed_value(number, items[i]) == Ok::<ValueModel, Seq<char>>(values[i]));
            }
            if filter::equals_any(read, values, s) {
                let i = choose|i: int|
                    0 <= i < values.len() && filter::equals(read, #[trigger] values[i], s);
                assert(filter::standing(read, filter::parsed_value(number, items[i])->Ok_0, s) is Level);
            }
            if exists|i: int|
                0 <= i < items.len() && filter::standing(
                    read,
                    filter::parsed_value(number, #[trigger] items[i])->Ok_0,
                    s,
                ) is Level {
                let i = choose|i: int|
                    0 <= i < items.len() && filter::standing(
                        read,
                        filter::parsed_value(number, #[trigger] items[i])->Ok_0,
                        s,
                    ) is Level;
                assert(filter::equals(read, values[i], s));
            }
            assert forall|i: int| 0 <= i < items.len() implies filter::parsed_value(
                number,
                #[trigger] items[i],
            ) is Ok by {}
        }
    }
    if filter::parsed_value(number, operand) is Ok {
        filter::law_equal_is_level(read, filter::parsed_value(number, operand)->Ok_0, s);
    }
}

proof fn lemma_ops<M: Fn(&str) -> Option<Number>, N: Fn(&str) -> Reading>(
    number: M,
    read: N,
    field: Seq<char>,
    ops: Seq<(Seq<char>, Json)>,
    payload: Map<Seq<char>, Seq<char>>,
)
    ensures
        filter::parsed_ops(number, field, ops) is Ok <==> forall|i: int|
            0 <= i < ops.len() ==> takes(number, (#[trigger] ops[i]).0, ops[i].1),
        filter::parsed_ops(number, field, ops) matches Ok(clauses) ==> (filter::passes_all(
            read,
            clauses,
            payload,
        ) <==> forall|i: int|
            0 <= i < ops.len() ==> payload.contains_key(field) && text_is(
                number,
                read,
                payload[field],
                (#[trigger] ops[i]).0,
                ops[i].1,
            )),
    decreases ops.len(),
{
    if ops.len() > 0 {
        let rest = ops.drop_last();
        let last = ops.last();
        lemma_ops(number, read, field, rest, payload);
        law_operators_by_name(number, read, last.0, last.1, field, payload);
        assert(ops[ops.len() - 1] == last);
        assert forall|i: int| 0 <= i < rest.len() implies #[trigger] rest[i] == ops[i] by {}
        if forall|i: int| 0 <= i < ops.len() ==> takes(number, (#[trigger] ops[i]).0, ops[i].1) {
            assert forall|i: int| 0 <= i < rest.len() implies takes(
                number,
                (#[trigger] rest[i]).0,
                rest[i].1,
            ) by {
                assert(takes(number, ops[i].0, ops[i].1));
            }
            assert(takes(number, ops[ops.len() - 1].0, ops[ops.len() - 1].1));
        }
        if filter::parsed_ops(number, field, ops) is Ok {
            assert forall|i: int| 0 <= i < ops.len() implies takes(
                number,
                (#[trigger] ops[i]).0,
                ops[i].1,
            ) by {
                if i < rest.len() {
                    assert(takes(number, rest[i].0, rest[i].1));
                }
            }
            let clauses = filter::parsed_ops(number, field, ops)->Ok_0;
            let before = filter::parsed_ops(number, field, rest)->Ok_0;
            assert(clauses.drop_last() =~= before);
            if forall|i: int|
                0 <= i < ops.len() ==> payload.contains_key(field) && text_is(
                    number,
                    read,
                    payload[field],
                    (#[trigger] ops[i]).0,
                    ops[i].1,
                ) {
                assert forall|i: int| 0 <= i < rest.len() implies payload.contains_key(field)
                    && text_is(number, read, payload[field], (#[trigger] rest[i]).0, rest[i].1) by {
                    assert(text_is(number, read, payload[field], ops[i].0, ops[i].1));
                }
                assert(text_is(
                    number,
                    read,
                    payload[field],
                    ops[ops.len() - 1].0,
                    ops[ops.len() - 1].1,
                ));
            }
            if filter::passes_all(read, clauses, payload) {
                assert forall|i: int| 0 <= i < ops.len() implies payload.contains_key(field)
                    && text_is(number, read, payload[field], (#[trigger] ops[i]).0, ops[i].1) by {
                    if i < rest.len() {
                        assert(text_is(number, read, payload[field], rest[i].0, rest[i].1));
                    }
                }
            }
        }
    }
}

/// What is asked of a field: each operator of an object must hold of its text; a
/// star asks for nothing; any other value asks that the text stand level with it.
/// An object with an operator that does not take its operand is refused, and so is
/// a value that is no operand.
pub proof fn law_conditions<M: Fn(&str) -> Option<Number>, N: Fn(&str) -> Reading>(
    number: M,
    read: N,
    field: Seq<char>,
    condition: Json,
    payload: Map<Seq<char>, Seq<char>>,
)
    requires
        !is_connective(field),
    ensures
        match condition.kind {
            JsonKind::Object(ops) => {
                &&& filter::parsed_clause(number, field, condition) is Ok <==> forall|i: int|
                    0 <= i < ops.len() ==> takes(number, (#[trigger] ops[i]).0, ops[i].1)
                &&& filter::parsed_clause(number, field, condition) is Ok ==> (entry_passes(
                    number,
                    read,
                    (field, condition),
                    payload,
                ) <==> forall|i: int|
                    0 <= i < ops.len() ==> payload.contains_key(field) && text_is(
                        number,
                        read,
                        payload[field],
                        (#[trigger] ops[i]).0,
                        ops[i].1,
                    ))
            },
            _ => if condition.kind == JsonKind::Text("*"@) {
                entry_passes(number, read, (field, condition), payload)
            } else {
                &&& filter::parsed_clause(number, field, condition) is Ok <==> filter::parsed_value(
                    number,
                    condition,
                ) is Ok
                &&& entry_passes(number, read, (field, condition), payload) <==> {
                    &&& filter::parsed_value(number, condition) is Ok
                    &&& payload.contains_key(field)
                    &&& filter::standing(
                        read,
                        filter::parsed_value(number, condition)->Ok_0,
                        payload[field],
                    ) is Level
                }
            },
        },
{
    match condition.kind {
        JsonKind::Object(ops) => {
            lemma_ops(number, read, field, ops, payload);
        },
        _ => {
            if condition.kind == JsonKind::Text("*"@) {
                lemma_passes_one(read, ExprModel::Field(field, OpModel::Wildcard), payload);
            } else if filter::parsed_value(number, condition) is Ok {
                let value = filter::parsed_value(number, condition)->Ok_0;
                lemma_passes_one(read, ExprModel::Field(field, OpModel::Eq(value)), payload);
                filter::law_equal_is_level(read, value, payload[field]);
            }
        },
    }
}

/// A filter with one operator on one field is passed exactly by the payloads that
/// have the field with a text that is as the operator asks.
pub proof fn law_one_operator<M: Fn(&str) -> Option<Number>, N: Fn(&str) -> Reading>(
    number: M,
    read: N,
    j: Json,
    field: Seq<char>,
    condition: Json,
    name: Seq<char>,
    operand: Json,
    payload: Map<Seq<char>, Seq<char>>,
)
    requires
        j.kind == JsonKind::Object(seq![(field, condition)]),
        condition.kind == JsonKind::Object(seq![(name, operand)]),
        !is_connective(field),
        takes(number, name, operand),
    ensures
        filter::parsed_expr(number, j) is Ok,
        json_passes(number, read, j, payload) <==> payload.contains_key(field) && text_is(
            number,
            read,
            payload[field],
            name,
            operand,
        ),
{
    law_conditions(number, read, field, condition, payload);
    law_an_object_asks_for_all(number, read, j, payload);
    let entries = seq![(field, condition)];
    let ops = seq![(name, operand)];
    assert(entries[0] == (field, condition));
    assert(ops[0] == (name, operand));
    assert forall|i: int| 0 <= i < ops.len() implies takes(
        number,
        (#[trigger] ops[i]).0,
        ops[i].1,
    ) by {}
}

/// A filter in a program is the same as the one that it is made of: each operator
/// and each connective stands for itself.
pub proof fn law_filters_stand_for_themselves(
    field: String,
    v: FilterValue,
    vs: Vec<FilterValue>,
    s: String,
    inner: Box<FilterExpr>,
)
    ensures
        FilterOp::Eq(v)@ == OpModel::Eq(v@),
        FilterOp::Ne(v)@ == OpModel::Ne(v@),
        FilterOp::Gt(v)@ == OpModel::Gt(v@),
        FilterOp::Gte(v)@ == OpModel::Gte(v@),
        FilterOp::Lt(v)@ == OpModel::Lt(v@),
        FilterOp::Lte(v)@ == OpModel::Lte(v@),
        FilterOp::In(vs)@ == OpModel::In(vs@.map_values(|x: FilterValue| x@)),
        FilterOp::Nin(vs)@ == OpModel::Nin(vs@.map_values(|x: FilterValue| x@)),
        FilterOp::Contains(s)@ == OpModel::Contains(s@),
        FilterOp::Icontains(s)@ == OpModel::Icontains(s@),
        FilterOp::Wildcard@ == OpModel::Wildcard,
        FilterExpr::Not(inner)@ == ExprModel::Not(Box::new((*inner)@)),
        FilterValue::String(s)@ == ValueModel::Text(s@),
        FilterValue::Bool(true)@ == ValueModel::Bool(true),
        FilterValue::Bool(false)@ == ValueModel::Bool(false),
{
}

/// Which payloads pass an operator: the same as those that pass it by its name.
pub proof fn law_operators<N: Fn(&str) -> Reading>(
    read: N,
    field: Seq<char>,
    value: ValueModel,
    needle: Seq<char>,
    payload: Map<Seq<char>, Seq<char>>,
)
    requires
        payload.contains_key(field),
    ensures
        ({
            let stands = filter::standing(read, value, payload[field]);
            let passes = |op: OpModel| filter::passes(read, ExprModel::Field(field, op), payload);
            &&& passes(OpModel::Eq(value)) <==> stands is Level
            &&& passes(OpModel::Ne(value)) <==> !(stands is Level)
            &&& passes(OpModel::Gt(value)) <==> stands is Above
            &&& passes(OpModel::Gte(value)) <==> stands is Above || stands is Level
            &&& passes(OpModel::Lt(value)) <==> stands is Below
            &&& passes(OpModel::Lte(value)) <==> stands is Below || stands is Level
            &&& passes(OpModel::Contains(needle)) <==> text::occurs(payload[field], needle)
            &&& passes(OpModel::Icontains(needle)) <==> text::occurs(
                text::lowered(payload[field]),
                text::lowered(needle),
            )
            &&& passes(OpModel::Wildcard)
        }),
{
    filter::law_equal_is_level(read, value, payload[field]);
}

} // verus!
