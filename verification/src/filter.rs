//! Filters written as JSON documents (`{"age": {"$gt": 3}, "$or": [...]}`),
//! turned into filter expressions.

use crate::expr::{bin, BinaryExpr, BinaryOp, Expr, PropertyAccess, Value};
use crate::json::{Json, JsonNumber};
use crate::migrate::debug_quoted;
use crate::text::{starts_with, str_eq};
use vstd::prelude::*;

verus! {

/// The deepest nesting a filter may have.
pub const MAX_FILTER_DEPTH: u32 = 100;

/// The expression that is always true (or always false).
pub open spec fn const_expr(b: bool) -> Expr {
    Expr::Value { value: Value::Bool(b) }
}

/// The literal a JSON scalar stands for; arrays and objects stand for none.
/// Integers that fit in an `i64` become `I64`, larger ones `U64`.
pub open spec fn json_literal(j: Json) -> Option<Value> {
    match j {
        Json::Null => Some(Value::Null),
        Json::Bool(b) => Some(Value::Bool(b)),
        Json::Number(JsonNumber::PosInt(n)) => if n <= i64::MAX { Some(Value::I64(n as i64)) } else { Some(Value::U64(n)) },
        Json::Number(JsonNumber::NegInt(n)) => Some(Value::I64(n)),
        Json::Number(JsonNumber::Float(t)) => Some(Value::F64(t)),
        Json::String(s) => Some(Value::String(s)),
        _ => None,
    }
}

/// The comparison a `$`-operator names.
pub open spec fn comparison_of(key: Seq<char>) -> Option<BinaryOp> {
    if key == "$eq"@ {
        Some(BinaryOp::Eq)
    } else if key == "$ne"@ {
        Some(BinaryOp::NotEq)
    } else if key == "$gt"@ {
        Some(BinaryOp::Gt)
    } else if key == "$gte"@ {
        Some(BinaryOp::GtEq)
    } else if key == "$lt"@ {
        Some(BinaryOp::Lt)
    } else if key == "$lte"@ {
        Some(BinaryOp::LtEq)
    } else {
        None
    }
}

/// The expression of a filter object at nesting `depth`: the conjunction,
/// starting from `true`, of its members' expressions; `None` when it is not
/// an object, nests deeper than the limit, or holds an invalid member.
pub open spec fn filter_spec(depth: nat, e: Json) -> Option<Expr>
    decreases 101 - depth, 3nat, 0nat,
{
    if depth > 100 {
        None
    } else {
        match e {
            Json::Object(m) => members_spec(depth, m@),
            _ => None,
        }
    }
}

/// The conjunction of the expressions of members `m` of a filter object.
pub open spec fn members_spec(depth: nat, m: Seq<(String, Json)>) -> Option<Expr>
    decreases 101 - depth, 2nat, m.len(),
{
    if depth > 100 {
        None
    } else if m.len() == 0 {
        Some(const_expr(true))
    } else {
        match members_spec(depth, m.drop_last()) {
            None => None,
            Some(acc) => match member_spec(depth, m.last()) {
                None => None,
                Some(x) => Some(bin(BinaryOp::And, acc, x)),
            },
        }
    }
}

/// The expression of one member of a filter object: `$and` and `$or` over
/// an array of filters, `$not` of a filter, or a field's filter.
pub open spec fn member_spec(depth: nat, kv: (String, Json)) -> Option<Expr>
    decreases 101 - depth, 1nat, 0nat,
{
    if depth > 100 {
        None
    } else if kv.0@ == "$and"@ {
        match kv.1 {
            Json::Array(ops) => fold_spec(depth, ops@, BinaryOp::And, true),
            _ => None,
        }
    } else if kv.0@ == "$or"@ {
        match kv.1 {
            Json::Array(ops) => fold_spec(depth, ops@, BinaryOp::Or, false),
            _ => None,
        }
    } else if kv.0@ == "$not"@ {
        match filter_spec(depth + 1, kv.1) {
            Some(x) => Some(Expr::Not(Box::new(x))),
            None => None,
        }
    } else if kv.0@.len() > 0 && kv.0@[0] == '$' {
        None
    } else {
        field_spec(0, PropertyAccess { property: kv.0, object: Box::new(Expr::Parameter { position: 0 }) }, kv.1)
    }
}

/// `op` applied, from the left and starting with the constant `unit`, to the
/// expressions of the filters `ops` one level deeper.
pub open spec fn fold_spec(depth: nat, ops: Seq<Json>, op: BinaryOp, unit: bool) -> Option<Expr>
    decreases 101 - depth, 0nat, ops.len(),
{
    if depth > 100 {
        None
    } else if ops.len() == 0 {
        Some(const_expr(unit))
    } else {
        match fold_spec(depth, ops.drop_last(), op, unit) {
            None => None,
            Some(acc) => match filter_spec(depth + 1, ops.last()) {
                None => None,
                Some(x) => Some(bin(op, acc, x)),
            },
        }
    }
}

/// The filter of the property `prop` by `value` at field nesting `depth`:
/// equality with a scalar, or the conjunction, starting from `true`, of an
/// object's comparisons (`$eq`, `$gt`, ...) and its nested fields' filters.
pub open spec fn field_spec(depth: nat, prop: PropertyAccess, value: Json) -> Option<Expr>
    decreases 101 - depth, 2nat, 0nat,
{
    if depth > 100 {
        None
    } else {
        match value {
            Json::Object(m) => field_members_spec(depth, prop, m@),
            _ => match json_literal(value) {
                Some(v) => Some(bin(BinaryOp::Eq, Expr::Property(prop), Expr::Value { value: v })),
                None => None,
            },
        }
    }
}

/// The conjunction of the filters of members `m` on property `prop`.
pub open spec fn field_members_spec(depth: nat, prop: PropertyAccess, m: Seq<(String, Json)>) -> Option<Expr>
    decreases 101 - depth, 1nat, m.len(),
{
    if depth > 100 {
        None
    } else if m.len() == 0 {
        Some(const_expr(true))
    } else {
        match field_members_spec(depth, prop, m.drop_last()) {
            None => None,
            Some(acc) => match field_member_spec(depth, prop, m.last()) {
                None => None,
                Some(x) => Some(bin(BinaryOp::And, acc, x)),
            },
        }
    }
}

/// The filter of one member on property `prop`: a comparison with a scalar,
/// or the filter of the nested field it names.
pub open spec fn field_member_spec(depth: nat, prop: PropertyAccess, kv: (String, Json)) -> Option<Expr>
    decreases 101 - depth, 0nat, 0nat,
{
    if depth > 100 {
        None
    } else if kv.0@.len() > 0 && kv.0@[0] == '$' {
        match comparison_of(kv.0@) {
            None => None,
            Some(op) => match json_literal(kv.1) {
                Some(v) => Some(bin(op, Expr::Property(prop), Expr::Value { value: v })),
                None => None,
            },
        }
    } else {
        field_spec(depth + 1, PropertyAccess { property: kv.0, object: Box::new(Expr::Property(prop)) }, kv.1)
    }
}

/// The literal of a JSON scalar.
pub fn json_to_literal(j: &Json) -> (r: Result<Value, String>)
    ensures
        match json_literal(*j) {
            Some(v) => r matches Ok(w) && w == v,
            None => r is Err,
        },
{
    match j {
        Json::Null => Ok(Value::Null),
        Json::Bool(b) => Ok(Value::Bool(*b)),
        Json::Number(JsonNumber::PosInt(n)) => {
            if *n <= 9223372036854775807u64 {
                Ok(Value::I64(*n as i64))
            } else {
                Ok(Value::U64(*n))
            }
        },
        Json::Number(JsonNumber::NegInt(n)) => Ok(Value::I64(*n)),
        Json::Number(JsonNumber::Float(t)) => Ok(Value::F64(t.clone())),
        Json::String(s) => Ok(Value::String(s.clone())),
        Json::Array(_) => Err("an array is not a filter value".to_owned()),
        Json::Object(_) => Err("an object is not a filter value".to_owned()),
    }
}

fn comparison(key: &str) -> (r: Option<BinaryOp>)
    ensures
        r == comparison_of(key@),
{
    proof {
        reveal_strlit("$eq");
        reveal_strlit("$ne");
        reveal_strlit("$gt");
        reveal_strlit("$gte");
        reveal_strlit("$lt");
        reveal_strlit("$lte");
    }
    if str_eq(key, "$eq") {
        Some(BinaryOp::Eq)
    } else if str_eq(key, "$ne") {
        Some(BinaryOp::NotEq)
    } else if str_eq(key, "$gt") {
        Some(BinaryOp::Gt)
    } else if str_eq(key, "$gte") {
        Some(BinaryOp::GtEq)
    } else if str_eq(key, "$lt") {
        Some(BinaryOp::Lt)
    } else if str_eq(key, "$lte") {
        Some(BinaryOp::LtEq)
    } else {
        None
    }
}

fn is_operator(key: &str) -> (r: bool)
    ensures
        r == (key@.len() > 0 && key@[0] == '$'),
{
    proof {
        reveal_strlit("$");
        assert("$"@ =~= seq!['$']);
    }
    let r = starts_with(key, "$");
    proof {
        if key@.len() > 0 && key@[0] == '$' {
            assert(key@.subrange(0, 1) =~= "$"@);
        }
        if r {
            assert(key@.subrange(0, 1)[0] == "$"@[0]);
        }
    }
    r
}

/// The expression of a JSON filter: the conjunction, starting from `true`,
/// of the filters of its members.
pub fn to_expr(e: &Json) -> (r: Result<Expr, String>)
    ensures
        match filter_spec(0, *e) {
            Some(x) => r matches Ok(y) && y == x,
            None => r is Err,
        },
{
    to_expr_rec(0, e)
}

fn to_expr_rec(depth: u32, e: &Json) -> (r: Result<Expr, String>)
    ensures
        match filter_spec(depth as nat, *e) {
            Some(x) => r matches Ok(y) && y == x,
            None => r is Err,
        },
    decreases 101 - depth, 2nat,
{
    if depth > MAX_FILTER_DEPTH {
        return Err("reached maximum expression filter recursion depth of 100".to_owned());
    }
    let m = match e {
        Json::Object(m) => m,
        _ => return Err("filter value is not an object".to_owned()),
    };
    let ghost d = depth as nat;
    let mut expr = Expr::Value { value: Value::Bool(true) };
    let mut i: usize = 0;
    assert(m@.take(0) =~= Seq::<(String, Json)>::empty());
    while i < m.len()
        invariant
            depth <= 100,
            d == depth as nat,
            i <= m@.len(),
            members_spec(d, m@.take(i as int)) == Some(expr),
            *e == Json::Object(*m),
        decreases m@.len() - i,
    {
        proof {
            let t = m@.take(i + 1);
            assert(t.drop_last() =~= m@.take(i as int));
            assert(t.last() == m@[i as int]);
        }
        let x = match member_to_expr(depth, &m[i]) {
            Ok(x) => x,
            Err(e) => {
                proof {
                    lemma_members_none_extends(d, m@, i + 1);
                }
                return Err(e);
            },
        };
        expr = BinaryExpr::and(expr, x);
        i = i + 1;
    }
    assert(m@.take(m@.len() as int) =~= m@);
    Ok(expr)
}

fn member_to_expr(depth: u32, kv: &(String, Json)) -> (r: Result<Expr, String>)
    requires
        depth <= 100,
    ensures
        match member_spec(depth as nat, *kv) {
            Some(x) => r matches Ok(y) && y == x,
            None => r is Err,
        },
    decreases 101 - depth, 1nat,
{
    let key = kv.0.as_str();
    proof {
        reveal_strlit("$and");
        reveal_strlit("$or");
        reveal_strlit("$not");
    }
    if str_eq(key, "$and") {
        match &kv.1 {
            Json::Array(ops) => fold_filters(depth, ops, BinaryOp::And, true),
            _ => Err("operator $and must be used with an array, but got different type".to_owned()),
        }
    } else if str_eq(key, "$or") {
        match &kv.1 {
            Json::Array(ops) => fold_filters(depth, ops, BinaryOp::Or, false),
            _ => Err("operator $or must be used with an array, but got different type".to_owned()),
        }
    } else if str_eq(key, "$not") {
        match to_expr_rec(depth + 1, &kv.1) {
            Ok(x) => Ok(Expr::Not(Box::new(x))),
            Err(e) => Err(e),
        }
    } else if is_operator(key) {
        let q = debug_quoted(key);
        Err(string_concat_all("found an unknown filter operator '", q.as_str(), "'"))
    } else {
        let property = PropertyAccess { property: kv.0.clone(), object: Box::new(Expr::Parameter { position: 0 }) };
        field_filter_to_expr_rec(0, property, &kv.1)
    }
}

fn fold_filters(depth: u32, ops: &Vec<Json>, op: BinaryOp, unit: bool) -> (r: Result<Expr, String>)
    requires
        depth <= 100,
    ensures
        match fold_spec(depth as nat, ops@, op, unit) {
            Some(x) => r matches Ok(y) && y == x,
            None => r is Err,
        },
    decreases 101 - depth, 0nat,
{
    let ghost d = depth as nat;
    let mut acc = Expr::Value { value: Value::Bool(unit) };
    let mut k: usize = 0;
    assert(ops@.take(0) =~= Seq::<Json>::empty());
    while k < ops.len()
        invariant
            depth <= 100,
            d == depth as nat,
            k <= ops@.len(),
            fold_spec(d, ops@.take(k as int), op, unit) == Some(acc),
        decreases ops@.len() - k,
    {
        proof {
            let t = ops@.take(k + 1);
            assert(t.drop_last() =~= ops@.take(k as int));
            assert(t.last() == ops@[k as int]);
        }
        let inner = match to_expr_rec(depth + 1, &ops[k]) {
            Ok(x) => x,
            Err(e) => {
                proof {
                    lemma_fold_none_extends(d, ops@, op, unit, k + 1);
                }
                return Err(e);
            },
        };
        acc = Expr::Binary(BinaryExpr::new(op, acc, inner));
        k = k + 1;
    }
    assert(ops@.take(ops@.len() as int) =~= ops@);
    Ok(acc)
}

fn string_concat_all(a: &str, b: &str, c: &str) -> (r: String)
    ensures
        r@ == a@ + b@ + c@,
{
    crate::text::string_concat(a, b).concat(c)
}

proof fn lemma_members_none_extends(d: nat, m: Seq<(String, Json)>, k: int)
    requires
        0 < k <= m.len(),
        members_spec(d, m.take(k - 1)) is None || member_spec(d, m[k - 1]) is None,
        d <= 100,
    ensures
        members_spec(d, m) is None,
    decreases m.len() - k,
{
    let t = m.take(k);
    assert(t.drop_last() =~= m.take(k - 1));
    assert(t.last() == m[k - 1]);
    assert(members_spec(d, t) is None);
    if k < m.len() {
        let t2 = m.take(k + 1);
        assert(t2.drop_last() =~= t);
        lemma_members_none_extends(d, m, k + 1);
    } else {
        assert(t =~= m);
    }
}

proof fn lemma_fold_none_extends(d: nat, ops: Seq<Json>, op: BinaryOp, unit: bool, k: int)
    requires
        0 < k <= ops.len(),
        fold_spec(d, ops.take(k - 1), op, unit) is None || filter_spec(d + 1, ops[k - 1]) is None,
        d <= 100,
    ensures
        fold_spec(d, ops, op, unit) is None,
    decreases ops.len() - k,
{
    let t = ops.take(k);
    assert(t.drop_last() =~= ops.take(k - 1));
    assert(t.last() == ops[k - 1]);
    assert(fold_spec(d, t, op, unit) is None);
    if k < ops.len() {
        let t2 = ops.take(k + 1);
        assert(t2.drop_last() =~= t);
        lemma_fold_none_extends(d, ops, op, unit, k + 1);
    } else {
        assert(t =~= ops);
    }
}

fn copy_property(p: &PropertyAccess) -> (r: PropertyAccess)
    ensures
        r == *p,
{
    PropertyAccess { property: p.property.clone(), object: Box::new(p.object.copy()) }
}

fn field_filter_to_expr_rec(depth: u32, property: PropertyAccess, value: &Json) -> (r: Result<Expr, String>)
    ensures
        match field_spec(depth as nat, property, *value) {
            Some(x) => r matches Ok(y) && y == x,
            None => r is Err,
        },
    decreases 101 - depth, 1nat,
{
    if depth > MAX_FILTER_DEPTH {
        return Err("reached maximum field filter recursion depth of 100".to_owned());
    }
    let ghost d = depth as nat;
    let m = match value {
        Json::Object(m) => m,
        _ => {
            let v = match json_to_literal(value) {
                Ok(v) => v,
                Err(e) => return Err(e),
            };
            return Ok(BinaryExpr::eq(Expr::Property(property), Expr::Value { value: v }));
        },
    };
    let mut expr = Expr::Value { value: Value::Bool(true) };
    let mut i: usize = 0;
    assert(m@.take(0) =~= Seq::<(String, Json)>::empty());
    while i < m.len()
        invariant
            depth <= 100,
            d == depth as nat,
            i <= m@.len(),
            field_members_spec(d, property, m@.take(i as int)) == Some(expr),
            *value == Json::Object(*m),
        decreases m@.len() - i,
    {
        proof {
            let t = m@.take(i + 1);
            assert(t.drop_last() =~= m@.take(i as int));
            assert(t.last() == m@[i as int]);
        }
        let x = match field_member_to_expr(depth, &property, &m[i]) {
            Ok(x) => x,
            Err(e) => {
                proof {
                    lemma_field_members_none_extends(d, property, m@, i + 1);
                }
                return Err(e);
            },
        };
        expr = BinaryExpr::and(expr, x);
        i = i + 1;
    }
    assert(m@.take(m@.len() as int) =~= m@);
    Ok(expr)
}

fn field_member_to_expr(depth: u32, property: &PropertyAccess, kv: &(String, Json)) -> (r: Result<Expr, String>)
    requires
        depth <= 100,
    ensures
        match field_member_spec(depth as nat, *property, *kv) {
            Some(x) => r matches Ok(y) && y == x,
            None => r is Err,
        },
    decreases 101 - depth, 0nat,
{
    let key = kv.0.as_str();
    if is_operator(key) {
        match comparison(key) {
            None => {
                let q = debug_quoted(key);
                Err(string_concat_all("encountered unknown comparison operator '", q.as_str(), "'"))
            },
            Some(op) => match json_to_literal(&kv.1) {
                Ok(lit) => Ok(Expr::Binary(BinaryExpr::new(op, Expr::Property(copy_property(property)), Expr::Value { value: lit }))),
                Err(e) => Err(e),
            },
        }
    } else {
        let nested = PropertyAccess { property: kv.0.clone(), object: Box::new(Expr::Property(copy_property(property))) };
        field_filter_to_expr_rec(depth + 1, nested, &kv.1)
    }
}

proof fn lemma_field_members_none_extends(d: nat, prop: PropertyAccess, m: Seq<(String, Json)>, k: int)
    requires
        0 < k <= m.len(),
        field_members_spec(d, prop, m.take(k - 1)) is None || field_member_spec(d, prop, m[k - 1]) is None,
        d <= 100,
    ensures
        field_members_spec(d, prop, m) is None,
    decreases m.len() - k,
{
    let t = m.take(k);
    assert(t.drop_last() =~= m.take(k - 1));
    assert(t.last() == m[k - 1]);
    assert(field_members_spec(d, prop, t) is None);
    if k < m.len() {
        let t2 = m.take(k + 1);
        assert(t2.drop_last() =~= t);
        lemma_field_members_none_extends(d, prop, m, k + 1);
    } else {
        assert(t =~= m);
    }
}

} // verus!
