//! Parsing of CRUD query strings (`?sort=..&limit=..&.field~op=value`) into
//! query operators, paging cursors, and page links.

use vstd::prelude::*;
use crate::expr::{Expr, BinaryExpr, BinaryOp, PropertyAccess, Value, ValueView};
use crate::query::{SortBy, SortKey, QueryOp, keys_view};
use crate::text::{chars_of, str_eq, string_of_chars, string_concat};
use crate::types::{ObjectType, Type, TypeId, TypeSystem, id_field_name, type_id_name, same_type};
use crate::plan::{Mutation, QueryPlan, loaded, plan_fuel, plan_ops, login_value, is_login_filter, lookup_entity_spec,
    tree_spec, empty_state,
    without_projections, last_projection};
use crate::policies::{PolicySystem, labels_view};

verus! {

/// The pieces of `s` between occurrences of `sep` (as `str::split` gives them).
pub open spec fn split_seq(s: Seq<char>, sep: char) -> Seq<Seq<char>>
    decreases s.len(),
{
    if s.len() == 0 {
        seq![Seq::<char>::empty()]
    } else {
        let p = split_seq(s.drop_last(), sep);
        if s.last() == sep {
            p.push(Seq::<char>::empty())
        } else {
            p.update(p.len() - 1, p.last().push(s.last()))
        }
    }
}

proof fn lemma_split_nonempty(s: Seq<char>, sep: char)
    ensures
        split_seq(s, sep).len() >= 1,
    decreases s.len(),
{
    if s.len() > 0 {
        lemma_split_nonempty(s.drop_last(), sep);
    }
}

/// Splits `s` at every `sep`.
pub fn split_chars(s: &str, sep: char) -> (r: Vec<String>)
    ensures
        r@.map_values(|x: String| x@) == split_seq(s@, sep),
{
    let cs = chars_of(s);
    let mut parts: Vec<Vec<char>> = Vec::new();
    let mut cur: Vec<char> = Vec::new();
    let mut i: usize = 0;
    assert(s@.take(0) =~= Seq::<char>::empty());
    while i < cs.len()
        invariant
            cs@ == s@,
            i <= cs.len(),
            parts@.map_values(|x: Vec<char>| x@).push(cur@) == split_seq(s@.take(i as int), sep),
        decreases cs.len() - i,
    {
        let c = cs[i];
        let ghost t = s@.take(i + 1);
        assert(t.drop_last() =~= s@.take(i as int));
        let ghost before = parts@.map_values(|x: Vec<char>| x@);
        proof { lemma_split_nonempty(t.drop_last(), sep); }
        if c == sep {
            let done = cur;
            parts.push(done);
            cur = Vec::new();
            assert(parts@.map_values(|x: Vec<char>| x@) =~= before.push(done@));
        } else {
            cur.push(c);
            assert(before.push(cur@) =~= split_seq(t.drop_last(), sep).update(before.len() as int, split_seq(t.drop_last(), sep).last().push(c)));
        }
        i = i + 1;
    }
    assert(s@.take(cs.len() as int) =~= s@);
    parts.push(cur);
    let mut out: Vec<String> = Vec::new();
    let mut j: usize = 0;
    while j < parts.len()
        invariant
            j <= parts@.len(),
            out@.map_values(|x: String| x@) == parts@.map_values(|x: Vec<char>| x@).take(j as int),
        decreases parts@.len() - j,
    {
        let piece = string_of_chars(&parts[j]);
        let ghost before = out@.map_values(|x: String| x@);
        out.push(piece);
        assert(out@.map_values(|x: String| x@) =~= before.push(parts@[j as int]@));
        assert(parts@.map_values(|x: Vec<char>| x@).take(j + 1) =~= parts@.map_values(|x: Vec<char>| x@).take(j as int).push(parts@[j as int]@));
        j = j + 1;
    }
    assert(parts@.map_values(|x: Vec<char>| x@).take(parts@.len() as int) =~= parts@.map_values(|x: Vec<char>| x@));
    out
}

/// What `str::parse::<bool>` gives: `true` and `false` are the only accepted texts.
pub open spec fn parse_bool_spec(s: Seq<char>) -> Option<bool> {
    if s == "true"@ {
        Some(true)
    } else if s == "false"@ {
        Some(false)
    } else {
        None
    }
}

pub fn parse_bool(s: &str) -> (r: Option<bool>)
    ensures
        r == parse_bool_spec(s@),
{
    if str_eq(s, "true") {
        Some(true)
    } else if str_eq(s, "false") {
        Some(false)
    } else {
        None
    }
}

pub open spec fn is_digit(c: char) -> bool {
    '0' <= c && c <= '9'
}

/// Every character is a decimal digit.
pub open spec fn all_digits(d: Seq<char>) -> bool {
    forall|i: int| 0 <= i < d.len() ==> is_digit(#[trigger] d[i])
}

/// The value of a run of decimal digits.
pub open spec fn digits_value(s: Seq<char>) -> nat
    decreases s.len(),
{
    if s.len() == 0 {
        0
    } else {
        digits_value(s.drop_last()) * 10 + ((s.last() as int - '0' as int) as nat)
    }
}

/// What `str::parse::<u64>` gives: an optional `+` followed by at least one digit,
/// with a value that fits.
pub open spec fn parse_u64_spec(s: Seq<char>) -> Option<u64> {
    let d = if s.len() > 0 && s[0] == '+' { s.drop_first() } else { s };
    if d.len() > 0 && all_digits(d) && digits_value(d) <= u64::MAX {
        Some(digits_value(d) as u64)
    } else {
        None
    }
}

proof fn lemma_digits_value_mono(d: Seq<char>, i: int)
    requires
        0 <= i <= d.len(),
        forall|k: int| 0 <= k < d.len() ==> is_digit(#[trigger] d[k]),
    ensures
        digits_value(d.take(i)) <= digits_value(d),
    decreases d.len() - i,
{
    if i < d.len() {
        lemma_digits_value_mono(d, i + 1);
        assert(d.take(i + 1).drop_last() =~= d.take(i));
    } else {
        assert(d.take(i) =~= d);
    }
}

/// Parses an unsigned 64-bit decimal number as `str::parse::<u64>` does.
pub fn parse_u64(s: &str) -> (r: Option<u64>)
    ensures
        r == parse_u64_spec(s@),
{
    let cs = chars_of(s);
    let start: usize = if cs.len() > 0 && cs[0] == '+' { 1 } else { 0 };
    let ghost d = if s@.len() > 0 && s@[0] == '+' { s@.drop_first() } else { s@ };
    assert(d =~= s@.skip(start as int));
    if start >= cs.len() {
        return None;
    }
    let mut v: u64 = 0;
    let mut i: usize = start;
    assert(d.take(0) =~= Seq::<char>::empty());
    while i < cs.len()
        invariant
            cs@ == s@,
            start <= i <= cs.len(),
            d == s@.skip(start as int),
            d == (if s@.len() > 0 && s@[0] == '+' { s@.drop_first() } else { s@ }),
            forall|k: int| 0 <= k < i - start ==> is_digit(#[trigger] d[k]),
            v as nat == digits_value(d.take(i - start)),
        decreases cs.len() - i,
    {
        let c = cs[i];
        assert(d[i - start] == c);
        if !('0' <= c && c <= '9') {
            assert(!is_digit(d[i - start]));
            return None;
        }
        let digit: u64 = (c as u32 - '0' as u32) as u64;
        assert(d.take(i - start + 1).drop_last() =~= d.take(i - start));
        if v > (u64::MAX - digit) / 10 {
            proof {
                assert(digits_value(d.take(i - start + 1)) > u64::MAX) by (nonlinear_arith)
                    requires
                        v > (u64::MAX - digit) / 10,
                        digits_value(d.take(i - start + 1)) == v * 10 + digit,
                        digit <= 9,
                ;
                if all_digits(d) {
                    lemma_digits_value_mono(d, i - start + 1);
                }
            }
            return None;
        }
        v = v * 10 + digit;
        i = i + 1;
    }
    assert(d.take(d.len() as int) =~= d);
    Some(v)
}

/// A sign character.
pub open spec fn is_sign(c: char) -> bool {
    c == '+' || c == '-'
}

/// Text after an optional leading sign.
pub open spec fn unsigned_part(s: Seq<char>) -> Seq<char> {
    if s.len() > 0 && is_sign(s[0]) { s.drop_first() } else { s }
}

/// `inf`, `infinity` or `nan`, in any letter case.
pub open spec fn is_special_float(s: Seq<char>) -> bool {
    let l = crate::text::ascii_lower_seq(s);
    l == "inf"@ || l == "infinity"@ || l == "nan"@
}

/// Digits with at most one `.`, and at least one digit.
pub open spec fn is_mantissa(m: Seq<char>) -> bool {
    &&& forall|i: int| 0 <= i < m.len() ==> (is_digit(#[trigger] m[i]) || m[i] == '.')
    &&& forall|i: int, j: int| 0 <= i < j < m.len() && #[trigger] m[i] == '.' ==> #[trigger] m[j] != '.'
    &&& exists|i: int| 0 <= i < m.len() && is_digit(#[trigger] m[i])
}

/// An optional sign followed by at least one digit.
pub open spec fn is_exponent_digits(e: Seq<char>) -> bool {
    let d = unsigned_part(e);
    d.len() > 0 && all_digits(d)
}

/// Index of the first `e` or `E`, or the length when there is none.
pub open spec fn first_exp(s: Seq<char>, i: int) -> int
    decreases s.len() - i,
{
    if i >= s.len() {
        s.len() as int
    } else if s[i] == 'e' || s[i] == 'E' {
        i
    } else {
        first_exp(s, i + 1)
    }
}

/// Text that Rust's `f64` parser accepts: an optional sign, then `inf`,
/// `infinity` or `nan` (any case), or digits with at most one `.` and at least one
/// digit, optionally followed by `e`/`E`, an optional sign and digits.
pub open spec fn is_float_literal(s: Seq<char>) -> bool {
    let b = unsigned_part(s);
    ||| is_special_float(b)
    ||| {
        let k = first_exp(b, 0);
        &&& is_mantissa(b.subrange(0, k))
        &&& (k == b.len() || is_exponent_digits(b.subrange(k + 1, b.len() as int)))
    }
}

proof fn lemma_first_exp_bounds(s: Seq<char>, i: int)
    requires
        0 <= i <= s.len(),
    ensures
        i <= first_exp(s, i) <= s.len(),
        forall|j: int| i <= j < first_exp(s, i) ==> !(#[trigger] s[j] == 'e' || s[j] == 'E'),
        first_exp(s, i) < s.len() ==> (s[first_exp(s, i)] == 'e' || s[first_exp(s, i)] == 'E'),
    decreases s.len() - i,
{
    if i < s.len() && !(s[i] == 'e' || s[i] == 'E') {
        lemma_first_exp_bounds(s, i + 1);
    }
}

fn is_mantissa_chars(m: &Vec<char>, lo: usize, hi: usize) -> (r: bool)
    requires
        lo <= hi <= m.len(),
    ensures
        r == is_mantissa(m@.subrange(lo as int, hi as int)),
{
    let ghost sub = m@.subrange(lo as int, hi as int);
    let mut i: usize = lo;
    let mut seen_dot = false;
    let mut seen_digit = false;
    while i < hi
        invariant
            lo <= i <= hi <= m.len(),
            sub == m@.subrange(lo as int, hi as int),
            forall|k: int| 0 <= k < i - lo ==> (is_digit(#[trigger] sub[k]) || sub[k] == '.'),
            forall|a: int, b: int| 0 <= a < b < i - lo && #[trigger] sub[a] == '.' ==> #[trigger] sub[b] != '.',
            seen_dot <==> exists|k: int| 0 <= k < i - lo && sub[k] == '.',
            seen_digit <==> exists|k: int| 0 <= k < i - lo && is_digit(#[trigger] sub[k]),
        decreases hi - i,
    {
        let c = m[i];
        assert(sub[i - lo] == c);
        if c == '.' {
            if seen_dot {
                proof {
                    let k = choose|k: int| 0 <= k < i - lo && sub[k] == '.';
                    assert(sub[k] == '.' && sub[i - lo] == '.');
                }
                return false;
            }
            seen_dot = true;
        } else if '0' <= c && c <= '9' {
            seen_digit = true;
        } else {
            assert(!(is_digit(sub[i - lo]) || sub[i - lo] == '.'));
            return false;
        }
        i = i + 1;
    }
    seen_digit
}

fn is_exponent_chars(m: &Vec<char>, lo: usize, hi: usize) -> (r: bool)
    requires
        lo <= hi <= m.len(),
    ensures
        r == is_exponent_digits(m@.subrange(lo as int, hi as int)),
{
    let ghost e = m@.subrange(lo as int, hi as int);
    let start: usize = if lo < hi && (m[lo] == '+' || m[lo] == '-') { lo + 1 } else { lo };
    let ghost d = unsigned_part(e);
    assert(d =~= m@.subrange(start as int, hi as int));
    if start >= hi {
        return false;
    }
    let mut i: usize = start;
    while i < hi
        invariant
            start <= i <= hi <= m.len(),
            d == m@.subrange(start as int, hi as int),
            e == m@.subrange(lo as int, hi as int),
            d == unsigned_part(e),
            forall|k: int| 0 <= k < i - start ==> is_digit(#[trigger] d[k]),
        decreases hi - i,
    {
        assert(d[i - start] == m@[i as int]);
        if !('0' <= m[i] && m[i] <= '9') {
            assert(!is_digit(d[i - start]));
            return false;
        }
        i = i + 1;
    }
    true
}

/// Whether `s` is text that Rust's float parser accepts.
pub fn check_float_literal(s: &str) -> (r: bool)
    ensures
        r == is_float_literal(s@),
{
    let cs = chars_of(s);
    let start: usize = if cs.len() > 0 && (cs[0] == '+' || cs[0] == '-') { 1 } else { 0 };
    let ghost b = unsigned_part(s@);
    assert(b =~= s@.subrange(start as int, s@.len() as int));
    let mut body: Vec<char> = Vec::new();
    let mut i: usize = start;
    while i < cs.len()
        invariant
            start <= i <= cs.len(),
            cs@ == s@,
            body@ == s@.subrange(start as int, i as int),
        decreases cs.len() - i,
    {
        body.push(cs[i]);
        assert(body@ =~= s@.subrange(start as int, i + 1));
        i = i + 1;
    }
    assert(body@ == b);
    let body_str = string_of_chars(&body);
    let lower = crate::text::ascii_lowercase_chars(body_str.as_str());
    let lower_s = string_of_chars(&lower);
    if str_eq(lower_s.as_str(), "inf") || str_eq(lower_s.as_str(), "infinity") || str_eq(lower_s.as_str(), "nan") {
        return true;
    }
    let mut k: usize = 0;
    proof { lemma_first_exp_bounds(b, 0); }
    while k < body.len() && !(body[k] == 'e' || body[k] == 'E')
        invariant
            k <= body.len(),
            body@ == b,
            first_exp(b, 0) >= k,
            forall|j: int| 0 <= j < k ==> !(#[trigger] b[j] == 'e' || b[j] == 'E'),
            forall|j: int| 0 <= j < first_exp(b, 0) ==> !(#[trigger] b[j] == 'e' || b[j] == 'E'),
            first_exp(b, 0) < b.len() ==> (b[first_exp(b, 0)] == 'e' || b[first_exp(b, 0)] == 'E'),
            first_exp(b, 0) <= b.len(),
        decreases body.len() - k,
    {
        k = k + 1;
    }
    assert(k == first_exp(b, 0));
    if !is_mantissa_chars(&body, 0, k) {
        return false;
    }
    if k == body.len() {
        return true;
    }
    is_exponent_chars(&body, k + 1, body.len())
}

/// The filter operator named after `~` in a CRUD filter key (`Eq` when absent).
pub open spec fn operator_spec(op: Option<Seq<char>>) -> Option<BinaryOp> {
    match op {
        None => Some(BinaryOp::Eq),
        Some(o) => if o == "ne"@ {
            Some(BinaryOp::NotEq)
        } else if o == "lt"@ {
            Some(BinaryOp::Lt)
        } else if o == "lte"@ {
            Some(BinaryOp::LtEq)
        } else if o == "gt"@ {
            Some(BinaryOp::Gt)
        } else if o == "gte"@ {
            Some(BinaryOp::GtEq)
        } else if o == "like"@ {
            Some(BinaryOp::Like)
        } else if o == "unlike"@ {
            Some(BinaryOp::NotLike)
        } else {
            None
        },
    }
}

/// Converts the operator name of a CRUD filter key.
pub fn convert_operator(op_str: Option<&str>) -> (r: Result<BinaryOp, String>)
    ensures
        match (r, operator_spec(match op_str { Some(o) => Some(o@), None => None })) {
            (Ok(a), Some(b)) => a == b,
            (Err(_), None) => true,
            _ => false,
        },
{
    match op_str {
        None => Ok(BinaryOp::Eq),
        Some(o) => {
            if str_eq(o, "ne") {
                Ok(BinaryOp::NotEq)
            } else if str_eq(o, "lt") {
                Ok(BinaryOp::Lt)
            } else if str_eq(o, "lte") {
                Ok(BinaryOp::LtEq)
            } else if str_eq(o, "gt") {
                Ok(BinaryOp::Gt)
            } else if str_eq(o, "gte") {
                Ok(BinaryOp::GtEq)
            } else if str_eq(o, "like") {
                Ok(BinaryOp::Like)
            } else if str_eq(o, "unlike") {
                Ok(BinaryOp::NotLike)
            } else {
                let m = string_concat("found unsupported operator '", o);
                Err(m.concat("'"))
            }
        },
    }
}

/// The sort requested by a `sort` parameter: a field name, optionally preceded by
/// `+` (ascending) or `-` (descending).
pub open spec fn sort_param_key(value: Seq<char>) -> (Seq<char>, bool) {
    if value.len() > 0 && (value[0] == '-' || value[0] == '+') {
        (value.drop_first(), value[0] != '-')
    } else {
        (value, true)
    }
}

/// Parses a `sort` parameter; the field must exist on the base entity.
pub fn parse_sort(base_type: &ObjectType, value: &str) -> (r: Result<SortBy, String>)
    ensures
        r is Ok <==> base_type.spec_has_field(sort_param_key(value@).0),
        r matches Ok(sb) ==> sb.keys@.len() == 1 && sb.keys@[0].field_name@ == sort_param_key(value@).0
            && sb.keys@[0].ascending == sort_param_key(value@).1,
{
    let cs = chars_of(value);
    let mut ascending = true;
    let field_name: String = if cs.len() > 0 && (cs[0] == '-' || cs[0] == '+') {
        if cs[0] == '-' {
            ascending = false;
        }
        let mut rest: Vec<char> = Vec::new();
        let mut i: usize = 1;
        while i < cs.len()
            invariant
                1 <= i <= cs.len(),
                cs@ == value@,
                rest@ == value@.subrange(1, i as int),
            decreases cs.len() - i,
        {
            rest.push(cs[i]);
            assert(rest@ =~= value@.subrange(1, i + 1));
            i = i + 1;
        }
        assert(rest@ =~= value@.drop_first());
        string_of_chars(&rest)
    } else {
        value.to_owned()
    };
    if !base_type.has_field(field_name.as_str()) {
        let m = string_concat("trying to sort by non-existent field '", field_name.as_str());
        let m = m.concat("' on entity ");
        return Err(m.concat(base_type.name.as_str()));
    }
    let mut keys: Vec<SortKey> = Vec::new();
    keys.push(SortKey { field_name, ascending });
    Ok(SortBy { keys })
}

/// Some sort key is on the `id` field.
pub open spec fn sorts_by_id(keys: Seq<SortKey>) -> bool {
    exists|i: int| 0 <= i < keys.len() && (#[trigger] keys[i]).field_name@ == id_field_name()
}

/// Makes sure the sort ends with (or already has) the `id` field, which cursors need.
pub fn ensure_sort_by_id(sort: &mut SortBy)
    ensures
        sorts_by_id(old(sort).keys@) ==> final(sort).keys@ == old(sort).keys@,
        !sorts_by_id(old(sort).keys@) ==> final(sort).keys@.len() == old(sort).keys@.len() + 1
            && final(sort).keys@.take(old(sort).keys@.len() as int) == old(sort).keys@
            && final(sort).keys@.last().field_name@ == id_field_name()
            && final(sort).keys@.last().ascending,
{
    let mut i: usize = 0;
    while i < sort.keys.len()
        invariant
            i <= sort.keys@.len(),
            sort.keys@ == old(sort).keys@,
            forall|j: int| 0 <= j < i ==> (#[trigger] sort.keys@[j]).field_name@ != id_field_name(),
        decreases sort.keys@.len() - i,
    {
        if str_eq(sort.keys[i].field_name.as_str(), "id") {
            return;
        }
        i = i + 1;
    }
    sort.keys.push(SortKey { field_name: "id".to_owned(), ascending: true });
    assert(sort.keys@.take(old(sort).keys@.len() as int) =~= old(sort).keys@);
}

/// Whether every entity that `t` refers to is known to the type system.
pub open spec fn resolves(entities: Map<Seq<char>, ObjectType>, t: TypeId) -> bool
    decreases t,
{
    match t {
        TypeId::Entity { name, .. } => entities.contains_key(name@),
        TypeId::Array(inner) => resolves(entities, *inner),
        _ => true,
    }
}

/// The property-access expression `object.property`.
pub open spec fn prop(object: Expr, property: Seq<char>, name: String) -> Expr {
    Expr::Property(PropertyAccess { property: name, object: Box::new(object) })
}

/// Follows `fields` from the entity `cur` (or fails when the current type is not
/// an entity), returning the names walked and the type reached.
pub open spec fn chain_from(
    entities: Map<Seq<char>, ObjectType>,
    cur: Option<ObjectType>,
    fields: Seq<Seq<char>>,
    last: TypeId,
) -> Option<TypeId>
    decreases fields.len(),
{
    if fields.len() == 0 {
        Some(last)
    } else {
        match cur {
            None => None,
            Some(ent) => match ent.field_type_of(fields[0]) {
                None => None,
                Some(t) => if !resolves(entities, t) {
                    None
                } else {
                    let next = match t {
                        TypeId::Entity { name, .. } => Some(entities[name@]),
                        _ => None,
                    };
                    chain_from(entities, next, fields.drop_first(), t)
                },
            },
        }
    }
}

/// The property chain `$0.f1.f2...` over the given field names.
pub open spec fn chain_expr(fields: Seq<Seq<char>>) -> Expr
    decreases fields.len(),
{
    if fields.len() == 0 {
        Expr::Parameter { position: 0 }
    } else {
        Expr::Property(PropertyAccess {
            property: arbitrary(),
            object: Box::new(chain_expr(fields.drop_last())),
        })
    }
}

/// The names accessed by a property chain, innermost first, and whether it is a
/// well-formed chain rooted at parameter 0.
pub open spec fn chain_names(e: Expr) -> Option<Seq<Seq<char>>>
    decreases e,
{
    match e {
        Expr::Parameter { position } => if position == 0 { Some(Seq::empty()) } else { None },
        Expr::Property(p) => match chain_names(*p.object) {
            Some(ns) => Some(ns.push(p.property@)),
            None => None,
        },
        _ => None,
    }
}

/// Builds the property chain for `fields` over `base_type`, making sure each field
/// exists on the entity reached so far; returns it with the type of the last field.
pub fn make_property_chain(base_type: &ObjectType, fields: &Vec<String>, ts: &TypeSystem) -> (r: Result<(Expr, TypeId), String>)
    requires
        ts.wf(),
    ensures
        fields@.len() == 0 ==> r is Err,
        fields@.len() > 0 ==> match (r, chain_from(ts.entities@, Some(*base_type), fields@.map_values(|f: String| f@),
            TypeId::Entity { name: base_type.name, version_id: arbitrary() })) {
            (Ok((e, t)), Some(t2)) => t == t2 && chain_names(e) == Some(fields@.map_values(|f: String| f@)),
            (Err(_), None) => true,
            _ => false,
        },
{
    if fields.len() == 0 {
        return Err("cannot make property chain from no fields".to_owned());
    }
    let ghost names = fields@.map_values(|f: String| f@);
    let ghost ents = ts.entities@;
    let ghost start = TypeId::Entity { name: base_type.name, version_id: arbitrary() };
    let mut property_chain = Expr::Parameter { position: 0 };
    let mut cur: Option<&ObjectType> = Some(base_type);
    let mut last_type: TypeId = TypeId::Entity { name: base_type.name.clone(), version_id: String::new() };
    let mut i: usize = 0;
    assert(names.skip(0) =~= names);
    assert(names.take(0) =~= Seq::<Seq<char>>::empty());
    while i < fields.len()
        invariant
            ts.wf(),
            ents == ts.entities@,
            names == fields@.map_values(|f: String| f@),
            i <= fields@.len(),
            fields@.len() > 0,
            chain_from(ents, Some(*base_type), names, start)
                == chain_from(ents, match cur { Some(c) => Some(*c), None => None }, names.skip(i as int),
                    if i == 0 { start } else { last_type }),
            chain_names(property_chain) == Some(names.take(i as int)),
        decreases fields@.len() - i,
    {
        let field_str = fields[i].as_str();
        assert(names.skip(i as int)[0] == field_str@);
        assert(names.skip(i as int).drop_first() =~= names.skip(i + 1));
        let ent = match cur {
            Some(e) => e,
            None => {
                let m = string_concat("invalid property access: no field '", field_str);
                let m = m.concat("' on type '");
                let m = m.concat(type_id_name(&last_type).as_str());
                return Err(m.concat("'"));
            },
        };
        let t = match ent.get_field_type(field_str) {
            Some(t) => t,
            None => {
                let m = string_concat("entity '", ent.name.as_str());
                let m = m.concat("' doesn't have field '");
                let m = m.concat(field_str);
                return Err(m.concat("'"));
            },
        };
        let next: Option<&ObjectType> = match resolve_entity(ts, &t) {
            Err(e) => return Err(e),
            Ok(n) => n,
        };
        property_chain = Expr::Property(PropertyAccess {
            property: fields[i].clone(),
            object: Box::new(property_chain),
        });
        assert(names.take(i + 1) =~= names.take(i as int).push(field_str@));
        last_type = t;
        cur = next;
        i = i + 1;
    }
    assert(names.skip(fields@.len() as int) =~= Seq::<Seq<char>>::empty());
    assert(names.take(fields@.len() as int) =~= names);
    Ok((property_chain, last_type))
}

/// Checks that the entities `t` refers to exist; when `t` is an entity type,
/// returns that entity.
fn resolve_entity<'a>(ts: &'a TypeSystem, t: &TypeId) -> (r: Result<Option<&'a ObjectType>, String>)
    requires
        ts.wf(),
    ensures
        r is Ok <==> resolves(ts.entities@, *t),
        r matches Ok(n) ==> match *t {
            TypeId::Entity { name, .. } => n == Some(&ts.entities@[name@]),
            _ => n is None,
        },
    decreases *t,
{
    match t {
        TypeId::Entity { name, .. } => match ts.lookup_entity(name.as_str()) {
            Some(e) => Ok(Some(e)),
            None => Err(string_concat("type not found: ", name.as_str())),
        },
        TypeId::Array(inner) => match resolve_entity(ts, inner) {
            Ok(_) => Ok(None),
            Err(e) => Err(e),
        },
        _ => Ok(None),
    }
}

/// What one CRUD filter compares: the operator, the property path, the value.
pub type FilterSpec = (BinaryOp, Seq<Seq<char>>, ValueView);

/// The value of a filter on a field of type `t`, read from the text `value`.
pub open spec fn filter_value_spec(t: TypeId, value: Seq<char>) -> Option<ValueView> {
    match t {
        TypeId::String | TypeId::Id | TypeId::EntityId(_) => Some(ValueView::String(value)),
        TypeId::Float | TypeId::JsDate => if is_float_literal(value) { Some(ValueView::F64(value)) } else { None },
        TypeId::Boolean => match parse_bool_spec(value) {
            Some(b) => Some(ValueView::Bool(b)),
            None => None,
        },
        _ => None,
    }
}

/// The filter that the query parameter `.key=value` asks for (`key` without its
/// leading `.`): `key` is a dotted property path, optionally followed by `~` and
/// an operator name; `None` when the parameter is malformed.
pub open spec fn filter_param_spec(
    entities: Map<Seq<char>, ObjectType>,
    base: ObjectType,
    key: Seq<char>,
    value: Seq<char>,
) -> Option<FilterSpec> {
    let tokens = split_seq(key, '~');
    let fields = split_seq(tokens[0], '.');
    let op = operator_spec(if tokens.len() > 1 { Some(tokens[1]) } else { None });
    if tokens.len() > 2 || op is None {
        None
    } else {
        match chain_from(entities, Some(base), fields, TypeId::Entity { name: base.name, version_id: arbitrary() }) {
            None => None,
            Some(t) => match filter_value_spec(t, value) {
                None => None,
                Some(v) => Some((op->0, fields, v)),
            },
        }
    }
}

/// `e` is the comparison that `f` describes: the operator applied to the property
/// chain and the literal value.
pub open spec fn is_filter_expr(e: Expr, f: FilterSpec) -> bool {
    match e {
        Expr::Binary(b) => {
            &&& b.op == f.0
            &&& chain_names(*b.left) == Some(f.1)
            &&& match *b.right {
                Expr::Value { value } => value@ == f.2,
                _ => false,
            }
        },
        _ => false,
    }
}

fn filter_value(t: &TypeId, value: &str) -> (r: Result<Value, String>)
    ensures
        match (r, filter_value_spec(*t, value@)) {
            (Ok(v), Some(w)) => v@ == w,
            (Err(_), None) => true,
            _ => false,
        },
{
    match t {
        TypeId::String | TypeId::Id | TypeId::EntityId(_) => Ok(Value::String(value.to_owned())),
        TypeId::Float | TypeId::JsDate => {
            if check_float_literal(value) {
                Ok(Value::F64(value.to_owned()))
            } else {
                let m = string_concat("failed to convert filter value '", value);
                Err(m.concat("' to f64"))
            }
        },
        TypeId::Boolean => match parse_bool(value) {
            Some(b) => Ok(Value::Bool(b)),
            None => {
                let m = string_concat("failed to convert filter value '", value);
                Err(m.concat("' to bool"))
            },
        },
        _ => {
            let m = string_concat("trying to filter by a property of type '", type_id_name(t).as_str());
            Err(m.concat("' which is not supported"))
        },
    }
}

/// Builds the filter expression for the query parameter `.param_key=value`
/// (`param_key` given without its leading `.`).
pub fn filter_from_param(base_type: &ObjectType, param_key: &str, value: &str, ts: &TypeSystem) -> (r: Result<Expr, String>)
    requires
        ts.wf(),
    ensures
        match (r, filter_param_spec(ts.entities@, *base_type, param_key@, value@)) {
            (Ok(e), Some(f)) => is_filter_expr(e, f),
            (Err(_), None) => true,
            _ => false,
        },
{
    let tokens = split_chars(param_key, '~');
    let ghost tk = split_seq(param_key@, '~');
    proof { lemma_split_nonempty(param_key@, '~'); }
    assert(tokens@.map_values(|x: String| x@)[0] == tokens@[0]@);
    if tokens.len() > 2 {
        let m = string_concat("expected at most one occurrence of '~' in query parameter name '", param_key);
        return Err(m.concat("'"));
    }
    let fields = split_chars(tokens[0].as_str(), '.');
    let operator = if tokens.len() > 1 {
        assert(tokens@.map_values(|x: String| x@)[1] == tokens@[1]@);
        convert_operator(Some(tokens[1].as_str()))
    } else {
        convert_operator(None)
    };
    let operator = match operator {
        Ok(o) => o,
        Err(e) => return Err(e),
    };
    proof { lemma_split_nonempty(tk[0], '.'); }
    let (property_chain, field_type) = match make_property_chain(base_type, &fields, ts) {
        Ok(x) => x,
        Err(e) => return Err(e),
    };
    let v = match filter_value(&field_type, value) {
        Ok(v) => v,
        Err(e) => return Err(e),
    };
    Ok(Expr::Binary(BinaryExpr::new(operator, property_chain, Expr::Value { value: v })))
}

/// The query parameters whose key starts with `.`, as (key without the dot, value).
pub open spec fn dot_params(q: Seq<(String, String)>) -> Seq<(Seq<char>, Seq<char>)>
    decreases q.len(),
{
    if q.len() == 0 {
        Seq::empty()
    } else {
        let rest = dot_params(q.drop_last());
        let (k, v) = q.last();
        if k@.len() > 0 && k@[0] == '.' {
            rest.push((k@.drop_first(), v@))
        } else {
            rest
        }
    }
}

/// The filters asked for by the dot parameters, `None` if any is malformed.
pub open spec fn filters_spec(
    entities: Map<Seq<char>, ObjectType>,
    base: ObjectType,
    params: Seq<(Seq<char>, Seq<char>)>,
) -> Option<Seq<FilterSpec>>
    decreases params.len(),
{
    if params.len() == 0 {
        Some(Seq::empty())
    } else {
        match filters_spec(entities, base, params.drop_last()) {
            None => None,
            Some(fs) => match filter_param_spec(entities, base, params.last().0, params.last().1) {
                None => None,
                Some(f) => Some(fs.push(f)),
            },
        }
    }
}

/// `e` combines the filters `fs` as `f_n AND (f_{n-1} AND (... f_1))`.
pub open spec fn is_and_chain(e: Expr, fs: Seq<FilterSpec>) -> bool
    decreases fs.len(),
{
    if fs.len() == 0 {
        false
    } else if fs.len() == 1 {
        is_filter_expr(e, fs[0])
    } else {
        match e {
            Expr::Binary(b) => b.op == BinaryOp::And && is_filter_expr(*b.left, fs.last())
                && is_and_chain(*b.right, fs.drop_last()),
            _ => false,
        }
    }
}

/// Removes the first character.
fn drop_first_char(s: &str) -> (r: String)
    requires
        s@.len() > 0,
    ensures
        r@ == s@.drop_first(),
{
    let cs = chars_of(s);
    let mut out: Vec<char> = Vec::new();
    let mut i: usize = 1;
    while i < cs.len()
        invariant
            1 <= i <= cs.len(),
            cs@ == s@,
            out@ == s@.subrange(1, i as int),
        decreases cs.len() - i,
    {
        out.push(cs[i]);
        assert(out@ =~= s@.subrange(1, i + 1));
        i = i + 1;
    }
    assert(out@ =~= s@.drop_first());
    string_of_chars(&out)
}

/// Whether `s` starts with `.`.
fn starts_with_dot(s: &str) -> (r: bool)
    ensures
        r == (s@.len() > 0 && s@[0] == '.'),
{
    let cs = chars_of(s);
    cs.len() > 0 && cs[0] == '.'
}

/// Parses all CRUD filters (`.key=value` parameters) of a query string and
/// combines them with `AND`; `None` when there is none.
pub fn url_query_to_filter(base_type: &ObjectType, url_query: &Vec<(String, String)>, ts: &TypeSystem) -> (r: Result<Option<Expr>, String>)
    requires
        ts.wf(),
    ensures
        match (r, filters_spec(ts.entities@, *base_type, dot_params(url_query@))) {
            (Ok(None), Some(fs)) => fs.len() == 0,
            (Ok(Some(e)), Some(fs)) => fs.len() > 0 && is_and_chain(e, fs),
            (Err(_), None) => true,
            _ => false,
        },
{
    let mut filter: Option<Expr> = None;
    let mut i: usize = 0;
    let ghost ents = ts.entities@;
    assert(url_query@.take(0) =~= Seq::<(String, String)>::empty());
    while i < url_query.len()
        invariant
            ts.wf(),
            ents == ts.entities@,
            i <= url_query@.len(),
            filters_spec(ents, *base_type, dot_params(url_query@.take(i as int))) is Some,
            match (filter, filters_spec(ents, *base_type, dot_params(url_query@.take(i as int)))) {
                (None, Some(fs)) => fs.len() == 0,
                (Some(e), Some(fs)) => fs.len() > 0 && is_and_chain(e, fs),
                _ => false,
            },
        decreases url_query@.len() - i,
    {
        let ghost t = url_query@.take(i + 1);
        assert(t.drop_last() =~= url_query@.take(i as int));
        assert(t.last() == url_query@[i as int]);
        let (param_key, value) = (&url_query[i].0, &url_query[i].1);
        proof { lemma_dot_params_step(url_query@, i as int); }
        let ghost fs0 = filters_spec(ents, *base_type, dot_params(url_query@.take(i as int)))->0;
        if starts_with_dot(param_key.as_str()) {
            let key = drop_first_char(param_key.as_str());
            let expression = match filter_from_param(base_type, key.as_str(), value.as_str(), ts) {
                Ok(e) => e,
                Err(e) => {
                    proof {
                        lemma_filters_spec_none_extends(ents, *base_type, url_query@, i + 1);
                    }
                    return Err(string_concat("failed to parse filter: ", e.as_str()));
                },
            };
            let ghost f = filter_param_spec(ents, *base_type, key@, value@)->0;
            let ghost d1 = dot_params(url_query@.take(i + 1));
            assert(d1.drop_last() =~= dot_params(url_query@.take(i as int)));
            assert(d1.last() == (key@, value@));
            assert(filters_spec(ents, *base_type, d1) == Some(fs0.push(f)));
            filter = match filter {
                None => Some(expression),
                Some(e) => {
                    assert(fs0.push(f).drop_last() =~= fs0);
                    Some(BinaryExpr::and(expression, e))
                },
            };
        }
        i = i + 1;
    }
    assert(url_query@.take(url_query@.len() as int) =~= url_query@);
    Ok(filter)
}

/// The dot parameters of one more query parameter.
proof fn lemma_dot_params_step(q: Seq<(String, String)>, n: int)
    requires
        0 <= n < q.len(),
    ensures
        q[n].0@.len() > 0 && q[n].0@[0] == '.' ==> dot_params(q.take(n + 1))
            == dot_params(q.take(n)).push((q[n].0@.drop_first(), q[n].1@)),
        !(q[n].0@.len() > 0 && q[n].0@[0] == '.') ==> dot_params(q.take(n + 1)) == dot_params(q.take(n)),
{
    assert(q.take(n + 1).drop_last() =~= q.take(n));
    assert(q.take(n + 1).last() == q[n]);
}

/// Once the filters of a prefix of the query fail, those of the whole query do.
proof fn lemma_filters_spec_none_extends(
    ents: Map<Seq<char>, ObjectType>,
    base: ObjectType,
    q: Seq<(String, String)>,
    n: int,
)
    requires
        0 <= n <= q.len(),
        filters_spec(ents, base, dot_params(q.take(n))) is None,
    ensures
        filters_spec(ents, base, dot_params(q)) is None,
    decreases q.len() - n,
{
    if n < q.len() {
        lemma_dot_params_step(q, n);
        let d = dot_params(q.take(n));
        let d1 = dot_params(q.take(n + 1));
        if d1 != d {
            assert(d1.drop_last() =~= d);
        }
        lemma_filters_spec_none_extends(ents, base, q, n + 1);
    } else {
        assert(q.take(n) =~= q);
    }
}

/// A JSON value as the paging logic reads it: numbers keep their JSON text;
/// arrays and objects are carried as JSON text.
#[derive(Debug)]
pub enum JsonValue {
    Null,
    Bool(bool),
    Number(String),
    String(String),
    Other(String),
}

/// A JSON value with its text as character sequences.
pub enum JsonView {
    Null,
    Bool(bool),
    Number(Seq<char>),
    String(Seq<char>),
    Other(Seq<char>),
}

impl JsonValue {
    pub open spec fn view(&self) -> JsonView {
        match self {
            JsonValue::Null => JsonView::Null,
            JsonValue::Bool(b) => JsonView::Bool(*b),
            JsonValue::Number(n) => JsonView::Number(n@),
            JsonValue::String(s) => JsonView::String(s@),
            JsonValue::Other(o) => JsonView::Other(o@),
        }
    }

    pub fn copy(&self) -> (r: Self)
        ensures
            r@ == self@,
    {
        match self {
            JsonValue::Null => JsonValue::Null,
            JsonValue::Bool(b) => JsonValue::Bool(*b),
            JsonValue::Number(n) => JsonValue::Number(n.clone()),
            JsonValue::String(s) => JsonValue::String(s.clone()),
            JsonValue::Other(o) => JsonValue::Other(o.clone()),
        }
    }
}

/// One dimension of a paging cursor: a sort key and the value of the pivot
/// element on that key.
#[derive(Debug)]
pub struct CursorAxis {
    pub key: SortKey,
    pub value: JsonValue,
}

/// A paging cursor: the position after (or before) which the next page starts.
#[derive(Debug)]
pub struct Cursor {
    pub axes: Vec<CursorAxis>,
    pub forward: bool,
    pub inclusive: bool,
}

/// The axes of a cursor as plain values: field name, ascending, pivot value.
pub open spec fn axes_view(axes: Seq<CursorAxis>) -> Seq<(Seq<char>, bool, JsonView)> {
    axes.map_values(|a: CursorAxis| (a.key.field_name@, a.key.ascending, a.value@))
}

/// The comparison that selects elements beyond the pivot on one axis.
pub open spec fn cursor_op(ascending: bool, forward: bool, inclusive: bool) -> BinaryOp {
    if ascending == forward {
        if inclusive { BinaryOp::GtEq } else { BinaryOp::Gt }
    } else {
        if inclusive { BinaryOp::LtEq } else { BinaryOp::Lt }
    }
}

/// The expression value of a JSON pivot value for a field of type `t`.
pub open spec fn json_value_spec(t: TypeId, v: JsonView) -> Option<ValueView> {
    match t {
        TypeId::String | TypeId::Id | TypeId::EntityId(_) => match v {
            JsonView::String(s) => Some(ValueView::String(s)),
            _ => None,
        },
        TypeId::Float | TypeId::JsDate => match v {
            JsonView::Number(n) => Some(ValueView::F64(n)),
            _ => None,
        },
        TypeId::Boolean => match v {
            JsonView::Bool(b) => Some(ValueView::Bool(b)),
            _ => None,
        },
        _ => None,
    }
}

/// Converts a JSON pivot value to an expression value for a field of type `t`.
pub fn json_to_value(field_type: &TypeId, value: &JsonValue) -> (r: Result<Value, String>)
    ensures
        match (r, json_value_spec(*field_type, value@)) {
            (Ok(v), Some(w)) => v@ == w,
            (Err(_), None) => true,
            _ => false,
        },
{
    match field_type {
        TypeId::String | TypeId::Id | TypeId::EntityId(_) => match value {
            JsonValue::String(s) => Ok(Value::String(s.clone())),
            _ => Err("failed to convert filter value to string".to_owned()),
        },
        TypeId::Float | TypeId::JsDate => match value {
            JsonValue::Number(n) => Ok(Value::F64(n.clone())),
            _ => Err("failed to convert filter value to float".to_owned()),
        },
        TypeId::Boolean => match value {
            JsonValue::Bool(b) => Ok(Value::Bool(*b)),
            _ => Err("failed to convert filter value to bool".to_owned()),
        },
        _ => {
            let m = string_concat("trying to filter by property of type '", type_id_name(field_type).as_str());
            Err(m.concat("' which is not supported"))
        },
    }
}

/// The comparisons of a cursor, one per axis, or `None` if an axis does not name
/// a filterable field of `base` or its value does not fit the field's type.
pub open spec fn cursor_pairs_spec(
    entities: Map<Seq<char>, ObjectType>,
    base: ObjectType,
    axes: Seq<(Seq<char>, bool, JsonView)>,
    forward: bool,
    inclusive: bool,
) -> Option<Seq<FilterSpec>>
    decreases axes.len(),
{
    if axes.len() == 0 {
        Some(Seq::empty())
    } else {
        match cursor_pairs_spec(entities, base, axes.drop_last(), forward, inclusive) {
            None => None,
            Some(ps) => {
                let a = axes.last();
                match chain_from(entities, Some(base), seq![a.0], TypeId::Entity { name: base.name, version_id: arbitrary() }) {
                    None => None,
                    Some(t) => match json_value_spec(t, a.2) {
                        None => None,
                        Some(v) => Some(ps.push((cursor_op(a.1, forward, inclusive), seq![a.0], v))),
                    },
                }
            },
        }
    }
}

/// `e` is `eq_{j-1} AND (eq_{j-2} AND (... (eq_0 AND cmp_i)))`: the `i`-th comparison
/// guarded by equality on the first `j` axes.
pub open spec fn is_cursor_term(e: Expr, pairs: Seq<FilterSpec>, i: int, j: int) -> bool
    decreases j,
{
    if j <= 0 {
        is_filter_expr(e, pairs[i])
    } else {
        match e {
            Expr::Binary(b) => b.op == BinaryOp::And
                && is_filter_expr(*b.left, (BinaryOp::Eq, pairs[j - 1].1, pairs[j - 1].2))
                && is_cursor_term(*b.right, pairs, i, j - 1),
            _ => false,
        }
    }
}

/// `e` is the lexicographic "beyond the pivot" condition over the first `n` axes:
/// `(... (term_0 OR term_1) OR ...) OR term_{n-1}`.
pub open spec fn is_cursor_expr(e: Expr, pairs: Seq<FilterSpec>, n: int) -> bool
    decreases n,
{
    if n <= 1 {
        is_cursor_term(e, pairs, 0, 0)
    } else {
        match e {
            Expr::Binary(b) => b.op == BinaryOp::Or && is_cursor_expr(*b.left, pairs, n - 1)
                && is_cursor_term(*b.right, pairs, n - 1, n - 1),
            _ => false,
        }
    }
}

proof fn lemma_cursor_pairs_prefix(
    ents: Map<Seq<char>, ObjectType>,
    base: ObjectType,
    axes: Seq<(Seq<char>, bool, JsonView)>,
    forward: bool,
    inclusive: bool,
    n: int,
)
    requires
        0 <= n <= axes.len(),
        cursor_pairs_spec(ents, base, axes.take(n), forward, inclusive) is None,
    ensures
        cursor_pairs_spec(ents, base, axes, forward, inclusive) is None,
    decreases axes.len() - n,
{
    if n < axes.len() {
        assert(axes.take(n + 1).drop_last() =~= axes.take(n));
        lemma_cursor_pairs_prefix(ents, base, axes, forward, inclusive, n + 1);
    } else {
        assert(axes.take(n) =~= axes);
    }
}

impl Cursor {
    /// A cursor over the given (non-empty) axes, exclusive of the pivot.
    pub fn new(axes: Vec<CursorAxis>, forward: bool) -> (r: Self)
        requires
            axes@.len() > 0,
        ensures
            axes_view(r.axes@) == axes_view(axes@),
            r.forward == forward,
            !r.inclusive,
    {
        Self { axes, forward, inclusive: false }
    }

    /// Accepts a decoded cursor only if it has some sort axes.
    pub fn checked(c: Cursor) -> (r: Result<Cursor, String>)
        ensures
            r is Ok <==> c.axes@.len() > 0,
            r matches Ok(d) ==> d == c,
    {
        if c.axes.len() == 0 {
            Err("cursor must have some sort axes".to_owned())
        } else {
            Ok(c)
        }
    }

    fn copy_axes(&self) -> (r: Vec<CursorAxis>)
        ensures
            axes_view(r@) == axes_view(self.axes@),
    {
        let mut axes: Vec<CursorAxis> = Vec::new();
        let mut i: usize = 0;
        while i < self.axes.len()
            invariant
                i <= self.axes@.len(),
                axes_view(axes@) == axes_view(self.axes@).take(i as int),
            decreases self.axes@.len() - i,
        {
            let a = &self.axes[i];
            let ghost before = axes_view(axes@);
            axes.push(CursorAxis { key: a.key.copy(), value: a.value.copy() });
            assert(axes_view(axes@) =~= before.push(axes_view(self.axes@)[i as int]));
            assert(axes_view(self.axes@).take(i + 1) =~= axes_view(self.axes@).take(i as int).push(axes_view(self.axes@)[i as int]));
            i = i + 1;
        }
        assert(axes_view(self.axes@).take(self.axes@.len() as int) =~= axes_view(self.axes@));
        axes
    }

    /// The same pivot, paging the other way; the pivot element itself is included.
    pub fn reversed(&self) -> (r: Self)
        ensures
            axes_view(r.axes@) == axes_view(self.axes@),
            r.forward == !self.forward,
            r.inclusive == !self.inclusive,
    {
        Self { axes: self.copy_axes(), forward: !self.forward, inclusive: !self.inclusive }
    }

    /// The sort in which the next page is read: each axis ascending exactly when
    /// its key's direction agrees with the paging direction.
    pub fn get_sort(&self) -> (r: SortBy)
        ensures
            keys_view(r.keys@) == axes_view(self.axes@).map_values(
                |a: (Seq<char>, bool, JsonView)| (a.0, a.1 == self.forward)),
    {
        let mut keys: Vec<SortKey> = Vec::new();
        let mut i: usize = 0;
        let ghost target = axes_view(self.axes@).map_values(|a: (Seq<char>, bool, JsonView)| (a.0, a.1 == self.forward));
        while i < self.axes.len()
            invariant
                i <= self.axes@.len(),
                target == axes_view(self.axes@).map_values(|a: (Seq<char>, bool, JsonView)| (a.0, a.1 == self.forward)),
                keys_view(keys@) == target.take(i as int),
            decreases self.axes@.len() - i,
        {
            let mut key = self.axes[i].key.copy();
            key.ascending = key.ascending == self.forward;
            let ghost before = keys_view(keys@);
            keys.push(key);
            assert(keys_view(keys@) =~= before.push(target[i as int]));
            assert(target.take(i + 1) =~= target.take(i as int).push(target[i as int]));
            i = i + 1;
        }
        assert(target.take(self.axes@.len() as int) =~= target);
        SortBy { keys }
    }

    /// The filter that selects the elements beyond the pivot in the cursor's
    /// lexicographic sort.
    pub fn get_filter(&self, base_type: &ObjectType, ts: &TypeSystem) -> (r: Result<Expr, String>)
        requires
            ts.wf(),
            self.axes@.len() > 0,
        ensures
            match (r, cursor_pairs_spec(ts.entities@, *base_type, axes_view(self.axes@), self.forward, self.inclusive)) {
                (Ok(e), Some(ps)) => is_cursor_expr(e, ps, ps.len() as int),
                (Err(_), None) => true,
                _ => false,
            },
    {
        let ghost ents = ts.entities@;
        let ghost av = axes_view(self.axes@);
        let mut lhs: Vec<Expr> = Vec::new();
        let mut ops: Vec<BinaryOp> = Vec::new();
        let mut rhs: Vec<Value> = Vec::new();
        let mut i: usize = 0;
        assert(av.take(0) =~= Seq::<(Seq<char>, bool, JsonView)>::empty());
        while i < self.axes.len()
            invariant
                ts.wf(),
                ents == ts.entities@,
                av == axes_view(self.axes@),
                i <= self.axes@.len(),
                lhs@.len() == i,
                ops@.len() == i,
                rhs@.len() == i,
                cursor_pairs_spec(ents, *base_type, av.take(i as int), self.forward, self.inclusive) is Some,
                cursor_pairs_spec(ents, *base_type, av.take(i as int), self.forward, self.inclusive)->0.len() == i,
                forall|k: int| 0 <= k < i ==> {
                    let p = cursor_pairs_spec(ents, *base_type, av.take(i as int), self.forward, self.inclusive)->0[k];
                    &&& ops@[k] == p.0
                    &&& chain_names(#[trigger] lhs@[k]) == Some(p.1)
                    &&& rhs@[k]@ == p.2
                },
            decreases self.axes@.len() - i,
        {
            let axis = &self.axes[i];
            let ghost a = av[i as int];
            assert(a == (axis.key.field_name@, axis.key.ascending, axis.value@));
            let ghost t = av.take(i + 1);
            assert(t.drop_last() =~= av.take(i as int));
            assert(t.last() == a);
            let ghost prev = cursor_pairs_spec(ents, *base_type, av.take(i as int), self.forward, self.inclusive)->0;
            let op = if axis.key.ascending == self.forward {
                if self.inclusive { BinaryOp::GtEq } else { BinaryOp::Gt }
            } else {
                if self.inclusive { BinaryOp::LtEq } else { BinaryOp::Lt }
            };
            let mut fields: Vec<String> = Vec::new();
            fields.push(axis.key.field_name.clone());
            assert(fields@.map_values(|f: String| f@) =~= seq![a.0]);
            let (property_chain, field_type) = match make_property_chain(base_type, &fields, ts) {
                Ok(x) => x,
                Err(e) => {
                    proof { lemma_cursor_pairs_prefix(ents, *base_type, av, self.forward, self.inclusive, i + 1); }
                    return Err(e);
                },
            };
            let value = match json_to_value(&field_type, &axis.value) {
                Ok(v) => v,
                Err(e) => {
                    proof { lemma_cursor_pairs_prefix(ents, *base_type, av, self.forward, self.inclusive, i + 1); }
                    return Err(string_concat("Failed to convert axis JSON to expression value: ", e.as_str()));
                },
            };
            let ghost newp = (op, seq![a.0], value@);
            assert(op == cursor_op(a.1, self.forward, self.inclusive));
            assert(cursor_pairs_spec(ents, *base_type, t, self.forward, self.inclusive) == Some(prev.push(newp)));
            lhs.push(property_chain);
            ops.push(op);
            rhs.push(value);
            proof {
                let now = cursor_pairs_spec(ents, *base_type, t, self.forward, self.inclusive)->0;
                assert(now == prev.push(newp));
                assert forall|k: int| 0 <= k < i + 1 implies {
                    let p = now[k];
                    &&& ops@[k] == p.0
                    &&& chain_names(#[trigger] lhs@[k]) == Some(p.1)
                    &&& rhs@[k]@ == p.2
                } by {
                    if k < i {
                        assert(now[k] == prev[k]);
                    }
                }
            }
            i = i + 1;
        }
        assert(av.take(self.axes@.len() as int) =~= av);
        let ghost pairs = cursor_pairs_spec(ents, *base_type, av, self.forward, self.inclusive)->0;
        let mut expr: Option<Expr> = None;
        let n = self.axes.len();
        let mut i: usize = 0;
        while i < n
            invariant
                n == lhs@.len(),
                n == ops@.len(),
                n == rhs@.len(),
                n == pairs.len(),
                i <= n,
                forall|k: int| 0 <= k < n ==> {
                    let p = pairs[k];
                    &&& ops@[k] == p.0
                    &&& chain_names(#[trigger] lhs@[k]) == Some(p.1)
                    &&& rhs@[k]@ == p.2
                },
                i == 0 <==> expr is None,
                expr matches Some(e) ==> is_cursor_expr(e, pairs, i as int),
            decreases n - i,
        {
            let mut e = Expr::Binary(BinaryExpr::new(ops[i], lhs[i].copy(), Expr::Value { value: rhs[i].copy() }));
            assert(is_cursor_term(e, pairs, i as int, 0));
            expr = match expr {
                None => Some(e),
                Some(prev) => {
                    let mut j: usize = 0;
                    while j < i
                        invariant
                            j <= i < n,
                            n == lhs@.len(),
                            n == rhs@.len(),
                            n == pairs.len(),
                            forall|k: int| 0 <= k < n ==> {
                                let p = pairs[k];
                                &&& chain_names(#[trigger] lhs@[k]) == Some(p.1)
                                &&& rhs@[k]@ == p.2
                            },
                            is_cursor_term(e, pairs, i as int, j as int),
                        decreases i - j,
                    {
                        let eq = BinaryExpr::eq(lhs[j].copy(), Expr::Value { value: rhs[j].copy() });
                        assert(chain_names(lhs@[j as int]) == Some(pairs[j as int].1));
                        e = BinaryExpr::and(eq, e);
                        j = j + 1;
                    }
                    Some(BinaryExpr::or(prev, e))
                },
            };
            i = i + 1;
        }
        match expr {
            Some(e) => Ok(e),
            None => Err("cursor must have some sort axes".to_owned()),
        }
    }
}

/// A CRUD query parsed from a query string.
#[derive(Debug)]
pub struct Query {
    pub page_size: u64,
    pub offset: Option<u64>,
    pub cursor: Option<Cursor>,
    pub sort: SortBy,
    /// Filters restricting the result set, joined with `AND`.
    pub filters: Vec<Expr>,
}

/// The parse state of a CRUD query string, as plain values.
pub struct QueryState {
    pub page_size: u64,
    pub offset: Option<u64>,
    pub cursor_seen: bool,
    pub sort: Seq<(Seq<char>, bool)>,
    pub filters: Seq<FilterSpec>,
}

pub open spec fn initial_query_state() -> QueryState {
    QueryState {
        page_size: 1000,
        offset: None,
        cursor_seen: false,
        sort: seq![(id_field_name(), true)],
        filters: Seq::empty(),
    }
}

/// The effect of one query parameter; `None` is a failure. `cursor_ok` says
/// whether the cursor given with the query decoded into one with sort axes.
pub open spec fn param_step(
    ents: Map<Seq<char>, ObjectType>,
    base: ObjectType,
    st: QueryState,
    k: Seq<char>,
    v: Seq<char>,
    cursor_ok: bool,
) -> Option<QueryState> {
    if k == "sort"@ {
        let (f, asc) = sort_param_key(v);
        if base.spec_has_field(f) { Some(QueryState { sort: seq![(f, asc)], ..st }) } else { None }
    } else if k == "limit"@ || k == "page_size"@ {
        match parse_u64_spec(v) {
            Some(n) => Some(QueryState { page_size: n, ..st }),
            None => None,
        }
    } else if k == "offset"@ {
        match parse_u64_spec(v) {
            Some(n) => Some(QueryState { offset: Some(n), ..st }),
            None => None,
        }
    } else if k == "cursor"@ {
        if st.cursor_seen || !cursor_ok { None } else { Some(QueryState { cursor_seen: true, ..st }) }
    } else if k.len() > 0 && k[0] == '.' {
        match filter_param_spec(ents, base, k.drop_first(), v) {
            Some(f) => Some(QueryState { filters: st.filters.push(f), ..st }),
            None => None,
        }
    } else {
        Some(st)
    }
}

/// The parse state after the given parameters, in order.
pub open spec fn params_fold(
    ents: Map<Seq<char>, ObjectType>,
    base: ObjectType,
    q: Seq<(String, String)>,
    cursor_ok: bool,
) -> Option<QueryState>
    decreases q.len(),
{
    if q.len() == 0 {
        Some(initial_query_state())
    } else {
        match params_fold(ents, base, q.drop_last(), cursor_ok) {
            None => None,
            Some(st) => param_step(ents, base, st, q.last().0@, q.last().1@, cursor_ok),
        }
    }
}

/// Some sort key is on `id` (plain-value form).
pub open spec fn view_sorts_by_id(keys: Seq<(Seq<char>, bool)>) -> bool {
    exists|i: int| 0 <= i < keys.len() && (#[trigger] keys[i]).0 == id_field_name()
}

/// The sort with `id` appended when it is not already a key.
pub open spec fn with_id_sort(keys: Seq<(Seq<char>, bool)>) -> Seq<(Seq<char>, bool)> {
    if view_sorts_by_id(keys) { keys } else { keys.push((id_field_name(), true)) }
}

/// The cursor given with a query decoded into one with sort axes.
pub open spec fn cursor_decoded(fc: Option<Result<Cursor, String>>) -> bool {
    fc matches Some(Ok(c)) && c.axes@.len() > 0
}

/// Some parameter is named `cursor`.
pub open spec fn has_cursor_param(q: Seq<(String, String)>) -> bool {
    exists|i: int| 0 <= i < q.len() && (#[trigger] q[i]).0@ == "cursor"@
}

proof fn lemma_params_fold_none_extends(
    ents: Map<Seq<char>, ObjectType>,
    base: ObjectType,
    q: Seq<(String, String)>,
    cursor_ok: bool,
    n: int,
)
    requires
        0 <= n <= q.len(),
        params_fold(ents, base, q.take(n), cursor_ok) is None,
    ensures
        params_fold(ents, base, q, cursor_ok) is None,
    decreases q.len() - n,
{
    if n < q.len() {
        assert(q.take(n + 1).drop_last() =~= q.take(n));
        lemma_params_fold_none_extends(ents, base, q, cursor_ok, n + 1);
    } else {
        assert(q.take(n) =~= q);
    }
}

impl Query {
    /// The query of an empty query string: pages of 1000, sorted by `id`.
    pub fn new() -> (r: Self)
        ensures
            r.page_size == 1000,
            r.offset is None,
            r.cursor is None,
            keys_view(r.sort.keys@) == initial_query_state().sort,
            r.filters@.len() == 0,
    {
        let mut keys: Vec<SortKey> = Vec::new();
        keys.push(SortKey { field_name: "id".to_owned(), ascending: true });
        assert(keys_view(keys@) =~= initial_query_state().sort);
        Query { page_size: 1000, offset: None, cursor: None, sort: SortBy { keys }, filters: Vec::new() }
    }

    /// Parses a CRUD query string over `base_type`. `first_cursor` is what the
    /// value of the first `cursor` parameter decoded into.
    pub fn from_url_query(
        base_type: &ObjectType,
        url_query: &Vec<(String, String)>,
        ts: &TypeSystem,
        first_cursor: Option<Result<Cursor, String>>,
    ) -> (r: Result<Query, String>)
        requires
            ts.wf(),
            has_cursor_param(url_query@) ==> first_cursor is Some,
        ensures
            ({
                let cursor_ok = cursor_decoded(first_cursor);
                match params_fold(ts.entities@, *base_type, url_query@, cursor_ok) {
                    None => r is Err,
                    Some(st) => {
                        let pairs = match first_cursor {
                            Some(Ok(c)) => cursor_pairs_spec(ts.entities@, *base_type, axes_view(c.axes@), c.forward, c.inclusive),
                            _ => None,
                        };
                        &&& (r is Ok <==> (st.cursor_seen ==> pairs is Some))
                        &&& r matches Ok(q) ==> {
                            &&& q.page_size == st.page_size
                            &&& q.offset == st.offset
                            &&& (q.cursor is Some <==> st.cursor_seen)
                            &&& (st.cursor_seen ==> (first_cursor matches Some(Ok(c)) && q.cursor == Some(c)
                                && keys_view(q.sort.keys@) == axes_view(c.axes@).map_values(
                                    |a: (Seq<char>, bool, JsonView)| (a.0, a.1 == c.forward))
                                && q.filters@.len() == st.filters.len() + 1
                                && is_cursor_expr(q.filters@.last(), pairs->0, pairs->0.len() as int)))
                            &&& (!st.cursor_seen ==> keys_view(q.sort.keys@) == with_id_sort(st.sort)
                                && q.filters@.len() == st.filters.len())
                            &&& forall|k: int| 0 <= k < st.filters.len() ==> is_filter_expr(#[trigger] q.filters@[k], st.filters[k])
                        }
                    },
                }
            }),
    {
        let ghost ents = ts.entities@;
        let ghost fc = first_cursor;
        let ghost cursor_ok = cursor_decoded(fc);
        let mut slot = first_cursor;
        let mut q = Query::new();
        let mut i: usize = 0;
        assert(url_query@.take(0) =~= Seq::<(String, String)>::empty());
        while i < url_query.len()
            invariant
                ts.wf(),
                ents == ts.entities@,
                cursor_ok == cursor_decoded(fc),
                fc == first_cursor,
                has_cursor_param(url_query@) ==> fc is Some,
                i <= url_query@.len(),
                params_fold(ents, *base_type, url_query@.take(i as int), cursor_ok) is Some,
                ({
                    let st = params_fold(ents, *base_type, url_query@.take(i as int), cursor_ok)->0;
                    &&& q.page_size == st.page_size
                    &&& q.offset == st.offset
                    &&& keys_view(q.sort.keys@) == st.sort
                    &&& q.filters@.len() == st.filters.len()
                    &&& forall|k: int| 0 <= k < st.filters.len() ==> is_filter_expr(#[trigger] q.filters@[k], st.filters[k])
                    &&& (!st.cursor_seen ==> slot == fc && q.cursor is None)
                    &&& (st.cursor_seen ==> (fc matches Some(Ok(c)) && q.cursor == Some(c) && c.axes@.len() > 0))
                }),
            decreases url_query@.len() - i,
        {
            let ghost t = url_query@.take(i + 1);
            assert(t.drop_last() =~= url_query@.take(i as int));
            assert(t.last() == url_query@[i as int]);
            let ghost st = params_fold(ents, *base_type, url_query@.take(i as int), cursor_ok)->0;
            let param_key = url_query[i].0.as_str();
            let value = url_query[i].1.as_str();
            proof {
                reveal_strlit("sort");
                reveal_strlit("limit");
                reveal_strlit("page_size");
                reveal_strlit("offset");
                reveal_strlit("cursor");
                assert(params_fold(ents, *base_type, t, cursor_ok) == param_step(ents, *base_type, st, param_key@, value@, cursor_ok));
            }
            if str_eq(param_key, "sort") {
                match parse_sort(base_type, value) {
                    Ok(sb) => {
                        q.sort = sb;
                        assert(keys_view(q.sort.keys@) =~= seq![sort_param_key(value@)]);
                    },
                    Err(e) => {
                        assert(!base_type.spec_has_field(sort_param_key(value@).0));
                        assert(param_step(ents, *base_type, st, param_key@, value@, cursor_ok) is None);
                        assert(params_fold(ents, *base_type, t, cursor_ok) is None);
                        proof { lemma_params_fold_none_extends(ents, *base_type, url_query@, cursor_ok, i + 1); }
                        return Err(e);
                    },
                }
            } else if str_eq(param_key, "limit") || str_eq(param_key, "page_size") {
                match parse_u64(value) {
                    Some(n) => { q.page_size = n; },
                    None => {
                        proof { lemma_params_fold_none_extends(ents, *base_type, url_query@, cursor_ok, i + 1); }
                        let m = string_concat("failed to parse ", param_key);
                        let m = m.concat(". Expected u64, got '");
                        let m = m.concat(value);
                        return Err(m.concat("'"));
                    },
                }
            } else if str_eq(param_key, "offset") {
                match parse_u64(value) {
                    Some(n) => { q.offset = Some(n); },
                    None => {
                        proof { lemma_params_fold_none_extends(ents, *base_type, url_query@, cursor_ok, i + 1); }
                        let m = string_concat("failed to parse offset. Expected u64, got '", value);
                        return Err(m.concat("'"));
                    },
                }
            } else if str_eq(param_key, "cursor") {
                if q.cursor.is_some() {
                    proof { lemma_params_fold_none_extends(ents, *base_type, url_query@, cursor_ok, i + 1); }
                    return Err("only one occurrence of cursor is allowed.".to_owned());
                }
                assert(has_cursor_param(url_query@)) by {
                    assert(url_query@[i as int].0@ == "cursor"@);
                }
                let taken = slot;
                slot = None;
                match taken {
                    Some(Ok(c)) => {
                        match Cursor::checked(c) {
                            Ok(c) => { q.cursor = Some(c); },
                            Err(e) => {
                                proof { lemma_params_fold_none_extends(ents, *base_type, url_query@, cursor_ok, i + 1); }
                                return Err(e);
                            },
                        }
                    },
                    Some(Err(e)) => {
                        proof { lemma_params_fold_none_extends(ents, *base_type, url_query@, cursor_ok, i + 1); }
                        return Err(e);
                    },
                    None => {
                        return Err("missing cursor".to_owned());
                    },
                }
            } else if starts_with_dot(param_key) {
                let key = drop_first_char(param_key);
                match filter_from_param(base_type, key.as_str(), value, ts) {
                    Ok(expr) => {
                        let ghost before = q.filters@;
                        q.filters.push(expr);
                        proof {
                            let f = filter_param_spec(ents, *base_type, key@, value@)->0;
                            assert forall|k: int| 0 <= k < st.filters.push(f).len()
                                implies is_filter_expr(#[trigger] q.filters@[k], st.filters.push(f)[k]) by {
                                if k < st.filters.len() {
                                    assert(q.filters@[k] == before[k]);
                                }
                            }
                        }
                    },
                    Err(e) => {
                        proof { lemma_params_fold_none_extends(ents, *base_type, url_query@, cursor_ok, i + 1); }
                        let m = string_concat("failed to parse filter ", param_key);
                        return Err(m.concat(": ").concat(e.as_str()));
                    },
                }
            }
            i = i + 1;
        }
        assert(url_query@.take(url_query@.len() as int) =~= url_query@);
        let ghost st = params_fold(ents, *base_type, url_query@, cursor_ok)->0;
        let ghost old_keys = q.sort.keys@;
        ensure_sort_by_id(&mut q.sort);
        proof {
            lemma_sorts_by_id_view(old_keys);
            if sorts_by_id(old_keys) {
            } else {
                assert(keys_view(q.sort.keys@) =~= keys_view(old_keys).push((id_field_name(), true))) by {
                    assert(keys_view(q.sort.keys@).take(old_keys.len() as int) =~= keys_view(old_keys));
                }
            }
        }
        let cursor_filter = match &q.cursor {
            Some(c) => {
                let s = c.get_sort();
                match c.get_filter(base_type, ts) {
                    Ok(f) => Some((s, f)),
                    Err(e) => return Err(e),
                }
            },
            None => None,
        };
        match cursor_filter {
            Some((s, f)) => {
                q.sort = s;
                let ghost before = q.filters@;
                q.filters.push(f);
                proof {
                    assert forall|k: int| 0 <= k < st.filters.len()
                        implies is_filter_expr(#[trigger] q.filters@[k], st.filters[k]) by {
                        assert(q.filters@[k] == before[k]);
                    }
                }
            },
            None => {},
        }
        Ok(q)
    }
}

proof fn lemma_sorts_by_id_view(keys: Seq<SortKey>)
    ensures
        sorts_by_id(keys) == view_sorts_by_id(keys_view(keys)),
{
    if sorts_by_id(keys) {
        let i = choose|i: int| 0 <= i < keys.len() && (#[trigger] keys[i]).field_name@ == id_field_name();
        assert(keys_view(keys)[i].0 == id_field_name());
    }
    if view_sorts_by_id(keys_view(keys)) {
        let i = choose|i: int| 0 <= i < keys_view(keys).len() && (#[trigger] keys_view(keys)[i]).0 == id_field_name();
        assert(keys[i].field_name@ == id_field_name());
    }
}

impl Query {
    /// The query operators that retrieve the requested page: the sort, the
    /// filters, the offset (if any) and the page size.
    pub fn make_query_ops(&self) -> (r: Result<Vec<QueryOp>, String>)
        ensures
            r matches Ok(ops) && {
                let n = self.filters@.len() as int;
                let extra: int = if self.offset is Some { 1 } else { 0 };
                &&& ops@.len() == n + extra + 2
                &&& (ops@[0] matches QueryOp::SortBy(sb) && keys_view(sb.keys@) == keys_view(self.sort.keys@))
                &&& forall|k: int| 0 <= k < n ==> ops@[1 + k] == (QueryOp::Filter { expression: #[trigger] self.filters@[k] })
                &&& (self.offset matches Some(o) ==> ops@[1 + n] == (QueryOp::Skip { count: o }))
                &&& ops@.last() == (QueryOp::Take { count: self.page_size })
            },
    {
        let mut ops: Vec<QueryOp> = Vec::new();
        ops.push(QueryOp::SortBy(self.sort.copy()));
        let mut i: usize = 0;
        while i < self.filters.len()
            invariant
                i <= self.filters@.len(),
                ops@.len() == i + 1,
                ops@[0] matches QueryOp::SortBy(sb) && keys_view(sb.keys@) == keys_view(self.sort.keys@),
                forall|k: int| 0 <= k < i ==> ops@[1 + k] == (QueryOp::Filter { expression: #[trigger] self.filters@[k] }),
            decreases self.filters@.len() - i,
        {
            ops.push(QueryOp::Filter { expression: self.filters[i].copy() });
            i = i + 1;
        }
        if let Some(offset) = self.offset {
            ops.push(QueryOp::Skip { count: offset });
        }
        ops.push(QueryOp::Take { count: self.page_size });
        Ok(ops)
    }

    /// The sort keys that cursors of this query use: those of the query's cursor
    /// if it has one, else those of its sort.
    pub open spec fn pivot_keys(&self) -> Seq<(Seq<char>, bool)> {
        match self.cursor {
            Some(c) => axes_view(c.axes@).map_values(|a: (Seq<char>, bool, JsonView)| (a.0, a.1)),
            None => keys_view(self.sort.keys@),
        }
    }
}

/// The value of field `name` in a result object (`null` when absent).
pub open spec fn field_value(obj: Seq<(String, JsonValue)>, name: Seq<char>) -> JsonView
    decreases obj.len(),
{
    if obj.len() == 0 {
        JsonView::Null
    } else if obj[0].0@ == name {
        obj[0].1@
    } else {
        field_value(obj.drop_first(), name)
    }
}

fn lookup_field(obj: &Vec<(String, JsonValue)>, name: &str) -> (r: JsonValue)
    ensures
        r@ == field_value(obj@, name@),
{
    let mut i: usize = 0;
    assert(obj@.skip(0) =~= obj@);
    while i < obj.len()
        invariant
            i <= obj@.len(),
            field_value(obj@, name@) == field_value(obj@.skip(i as int), name@),
        decreases obj@.len() - i,
    {
        assert(obj@.skip(i as int)[0] == obj@[i as int]);
        if str_eq(obj[i].0.as_str(), name) {
            return obj[i].1.copy();
        }
        assert(obj@.skip(i as int).drop_first() =~= obj@.skip(i + 1));
        i = i + 1;
    }
    JsonValue::Null
}

/// The cursor whose pivot is the element `pivot`, paging in direction `forward`.
pub fn cursor_from_pivot(query: &Query, pivot: &Vec<(String, JsonValue)>, forward: bool) -> (r: Cursor)
    requires
        query.pivot_keys().len() > 0,
    ensures
        r.forward == forward,
        !r.inclusive,
        axes_view(r.axes@) == query.pivot_keys().map_values(
            |k: (Seq<char>, bool)| (k.0, k.1, field_value(pivot@, k.0))),
{
    let mut keys: Vec<SortKey> = Vec::new();
    match &query.cursor {
        Some(c) => {
            let mut i: usize = 0;
            while i < c.axes.len()
                invariant
                    i <= c.axes@.len(),
                    keys_view(keys@) == axes_view(c.axes@).map_values(|a: (Seq<char>, bool, JsonView)| (a.0, a.1)).take(i as int),
                decreases c.axes@.len() - i,
            {
                let ghost before = keys_view(keys@);
                keys.push(c.axes[i].key.copy());
                assert(keys_view(keys@) =~= before.push((c.axes@[i as int].key.field_name@, c.axes@[i as int].key.ascending)));
                assert(axes_view(c.axes@).map_values(|a: (Seq<char>, bool, JsonView)| (a.0, a.1)).take(i + 1)
                    =~= axes_view(c.axes@).map_values(|a: (Seq<char>, bool, JsonView)| (a.0, a.1)).take(i as int)
                        .push((c.axes@[i as int].key.field_name@, c.axes@[i as int].key.ascending)));
                i = i + 1;
            }
            assert(axes_view(c.axes@).map_values(|a: (Seq<char>, bool, JsonView)| (a.0, a.1)).take(c.axes@.len() as int)
                =~= axes_view(c.axes@).map_values(|a: (Seq<char>, bool, JsonView)| (a.0, a.1)));
        },
        None => {
            let s = query.sort.copy();
            keys = s.keys;
        },
    }
    let ghost pk = query.pivot_keys();
    let ghost target = pk.map_values(|k: (Seq<char>, bool)| (k.0, k.1, field_value(pivot@, k.0)));
    let mut axes: Vec<CursorAxis> = Vec::new();
    let mut i: usize = 0;
    while i < keys.len()
        invariant
            keys_view(keys@) == pk,
            target == pk.map_values(|k: (Seq<char>, bool)| (k.0, k.1, field_value(pivot@, k.0))),
            i <= keys@.len(),
            axes_view(axes@) == target.take(i as int),
        decreases keys@.len() - i,
    {
        let key = keys[i].copy();
        let value = lookup_field(pivot, key.field_name.as_str());
        let ghost before = axes_view(axes@);
        assert(keys_view(keys@)[i as int] == key@);
        axes.push(CursorAxis { key, value });
        assert(axes_view(axes@) =~= before.push(target[i as int]));
        assert(target.take(i + 1) =~= target.take(i as int).push(target[i as int]));
        i = i + 1;
    }
    assert(target.take(keys@.len() as int) =~= target);
    Cursor::new(axes, forward)
}

/// The cursor of the page that follows (`forward`) or precedes the `results`
/// read with `query`: pivoting on the last (or first) result; with no results,
/// the query's own cursor turned around when it pages the other way.
pub fn get_page(query: &Query, results: &Vec<Vec<(String, JsonValue)>>, forward: bool) -> (r: Option<Cursor>)
    requires
        query.pivot_keys().len() > 0,
    ensures
        results@.len() > 0 ==> (r matches Some(c) && c.forward == forward && !c.inclusive
            && axes_view(c.axes@) == query.pivot_keys().map_values(
                |k: (Seq<char>, bool)| (k.0, k.1, field_value(
                    (if forward { results@.last() } else { results@[0] })@, k.0)))),
        results@.len() == 0 ==> match query.cursor {
            Some(qc) => if qc.forward != forward {
                r matches Some(c) && axes_view(c.axes@) == axes_view(qc.axes@) && c.forward == !qc.forward
                    && c.inclusive == !qc.inclusive
            } else {
                r is None
            },
            None => r is None,
        },
{
    if results.len() > 0 {
        let pivot = if forward { &results[results.len() - 1] } else { &results[0] };
        Some(cursor_from_pivot(query, pivot, forward))
    } else {
        match &query.cursor {
            Some(c) => if c.forward != forward {
                Some(c.reversed())
            } else {
                None
            },
            None => None,
        }
    }
}

/// The results of a query in the order the caller asked for: a backwards
/// cursor reads them in reverse, so they are turned around.
pub fn order_results<T>(query: &Query, results: Vec<T>) -> (r: Vec<T>)
    ensures
        (query.cursor matches Some(c) && !c.forward) ==> r@ == results@.reverse(),
        !(query.cursor matches Some(c) && !c.forward) ==> r@ == results@,
{
    let backwards = match &query.cursor {
        Some(c) => !c.forward,
        None => false,
    };
    if !backwards {
        return results;
    }
    let mut results = results;
    let mut r: Vec<T> = Vec::new();
    let ghost orig = results@;
    while results.len() > 0
        invariant
            orig.len() == results@.len() + r@.len(),
            results@ == orig.take(results@.len() as int),
            r@ == orig.skip(results@.len() as int).reverse(),
        decreases results@.len(),
    {
        let ghost n = results@.len();
        let x = results.pop().unwrap();
        r.push(x);
        assert(results@ =~= orig.take(n - 1));
        assert(orig.skip(n - 1).reverse() =~= orig.skip(n as int).reverse().push(orig[n - 1]));
    }
    assert(orig.skip(0) =~= orig);
    r
}

/// Whether `form_urlencoded` leaves the byte as it is.
pub open spec fn form_unchanged(b: u8) -> bool {
    b == 42 || b == 45 || b == 46 || (48 <= b <= 57) || (65 <= b <= 90) || b == 95 || (97 <= b <= 122)
}

/// The upper-case hexadecimal digit of `d < 16`.
pub open spec fn hex_upper(d: int) -> char {
    if d < 10 {
        (48 + d) as char
    } else {
        (55 + d) as char
    }
}

/// How `application/x-www-form-urlencoded` writes a byte: unchanged, a space
/// as `+`, else `%` and two upper-case hexadecimal digits.
pub open spec fn form_byte(b: u8) -> Seq<char> {
    if form_unchanged(b) {
        seq![b as char]
    } else if b == 32 {
        seq!['+']
    } else {
        seq!['%', hex_upper(b as int / 16), hex_upper(b as int % 16)]
    }
}

/// How `application/x-www-form-urlencoded` writes some bytes.
pub open spec fn form_bytes(bs: Seq<u8>) -> Seq<char>
    decreases bs.len(),
{
    if bs.len() == 0 {
        Seq::empty()
    } else {
        form_byte(bs[0]) + form_bytes(bs.drop_first())
    }
}

/// The form encoding of a text: that of its UTF-8 bytes.
pub open spec fn form_encoded(s: Seq<char>) -> Seq<char> {
    form_bytes(vstd::utf8::encode_utf8(s))
}

/// Encodes `s` with `form_urlencoded::byte_serialize` over its UTF-8 bytes
/// and joins the pieces. The contract states what the crate's source does:
/// bytes `*-._`, digits and ASCII letters stay, a space becomes `+`, any
/// other byte becomes `%XX` in upper-case hexadecimal.
#[verifier::external_body]
fn form_byte_serialize(s: &str) -> (r: String)
    ensures
        r@ == form_encoded(s@),
{
    form_urlencoded::byte_serialize(s.as_bytes()).collect()
}

/// Form-encoded `key=value` pairs joined by `&`.
pub open spec fn form_query(pairs: Seq<(Seq<char>, Seq<char>)>) -> Seq<char>
    decreases pairs.len(),
{
    if pairs.len() == 0 {
        Seq::empty()
    } else if pairs.len() == 1 {
        form_encoded(pairs[0].0) + "="@ + form_encoded(pairs[0].1)
    } else {
        form_query(pairs.drop_last()) + "&"@ + form_encoded(pairs.last().0) + "="@ + form_encoded(pairs.last().1)
    }
}

/// The pairs of the request kept in a page link, in order.
pub open spec fn kept_pairs(url_query: Seq<(String, String)>) -> Seq<(Seq<char>, Seq<char>)>
    decreases url_query.len(),
{
    if url_query.len() == 0 {
        Seq::empty()
    } else {
        let (k, v) = url_query.last();
        if k@ == "cursor"@ || k@ == "sort"@ {
            kept_pairs(url_query.drop_last())
        } else {
            kept_pairs(url_query.drop_last()).push((k@, v@))
        }
    }
}

proof fn lemma_form_query_push(pairs: Seq<(Seq<char>, Seq<char>)>, p: (Seq<char>, Seq<char>))
    requires
        pairs.len() >= 1,
    ensures
        form_query(pairs.push(p)) == form_query(pairs) + "&"@ + form_encoded(p.0) + "="@ + form_encoded(p.1),
{
    assert(pairs.push(p).drop_last() =~= pairs);
}

/// The relative link to the page read with `cursor`: the request's path and
/// its query, without `cursor` and `sort`, with the new cursor last.
pub fn make_page_url(url_path: &str, url_query: &Vec<(String, String)>, cursor: &str) -> (r: String)
    ensures
        r@ == url_path@ + "?"@ + form_query(kept_pairs(url_query@).push(("cursor"@, cursor@))),
{
    let mut q = String::new();
    let mut first = true;
    let mut i: usize = 0;
    assert(url_query@.take(0) =~= Seq::<(String, String)>::empty());
    proof {
        reveal_strlit("cursor");
        reveal_strlit("sort");
        reveal_strlit("=");
        reveal_strlit("&");
    }
    while i < url_query.len()
        invariant
            i <= url_query@.len(),
            first == (kept_pairs(url_query@.take(i as int)).len() == 0),
            q@ == form_query(kept_pairs(url_query@.take(i as int))),
        decreases url_query@.len() - i,
    {
        let ghost t = url_query@.take(i + 1);
        assert(t.drop_last() =~= url_query@.take(i as int));
        assert(t.last() == url_query@[i as int]);
        let ghost kp = kept_pairs(url_query@.take(i as int));
        let key = url_query[i].0.as_str();
        let value = url_query[i].1.as_str();
        if !(str_eq(key, "cursor") || str_eq(key, "sort")) {
            let k = form_byte_serialize(key);
            let v = form_byte_serialize(value);
            if first {
                q = k.concat("=").concat(v.as_str());
                assert(kp.push((key@, value@)).len() == 1);
            } else {
                proof { lemma_form_query_push(kp, (key@, value@)); }
                q = q.concat("&").concat(k.as_str()).concat("=").concat(v.as_str());
            }
            first = false;
        }
        i = i + 1;
    }
    assert(url_query@.take(url_query@.len() as int) =~= url_query@);
    let kp = Ghost(kept_pairs(url_query@));
    let k = form_byte_serialize("cursor");
    let v = form_byte_serialize(cursor);
    if first {
        q = k.concat("=").concat(v.as_str());
        assert(kp@.push(("cursor"@, cursor@)).len() == 1);
    } else {
        proof { lemma_form_query_push(kp@, ("cursor"@, cursor@)); }
        q = q.concat("&").concat(k.as_str()).concat("=").concat(v.as_str());
    }
    string_concat(url_path, "?").concat(q.as_str())
}

/// Whether the query asks to delete everything (`all=true`).
pub open spec fn deletes_all(url_query: Seq<(String, String)>) -> bool {
    exists|i: int| 0 <= i < url_query.len() && (#[trigger] url_query[i]).0@ == "all"@ && url_query[i].1@ == "true"@
}

/// The name of a type, as messages show it.
pub open spec fn spec_ty_name(t: Type) -> Seq<char> {
    match t {
        Type::Float => "number"@,
        Type::String => "string"@,
        Type::Boolean => "boolean"@,
        Type::JsDate => "jsDate"@,
        Type::ArrayBuffer => "ArrayBuffer"@,
        Type::Entity(n) => n@,
        Type::EntityId(n) => "Id<"@ + n@ + ">"@,
        Type::Array(_) => "array"@,
    }
}

fn type_label(t: &Type) -> (r: String)
    ensures
        r@ == spec_ty_name(*t),
{
    match t {
        Type::Float => "number".to_owned(),
        Type::String => "string".to_owned(),
        Type::Boolean => "boolean".to_owned(),
        Type::JsDate => "jsDate".to_owned(),
        Type::ArrayBuffer => "ArrayBuffer".to_owned(),
        Type::Entity(n) => n.clone(),
        Type::EntityId(n) => string_concat("Id<", n.as_str()).concat(">"),
        Type::Array(_) => "array".to_owned(),
    }
}

fn has_delete_all(url_query: &Vec<(String, String)>) -> (r: bool)
    ensures
        r == deletes_all(url_query@),
{
    let mut i: usize = 0;
    while i < url_query.len()
        invariant
            i <= url_query@.len(),
            forall|k: int| 0 <= k < i ==> !((#[trigger] url_query@[k]).0@ == "all"@ && url_query@[k].1@ == "true"@),
        decreases url_query@.len() - i,
    {
        if str_eq(url_query[i].0.as_str(), "all") && str_eq(url_query[i].1.as_str(), "true") {
            return true;
        }
        i = i + 1;
    }
    false
}

/// The entity named `n` of a type system: a user-defined one, else a built-in one.
pub open spec fn entity_named(ts: TypeSystem, n: Seq<char>) -> ObjectType {
    if ts.entities@.contains_key(n) {
        ts.entities@[n]
    } else {
        ts.builtin@[n]
    }
}

/// The filter of a delete request on `ty_name`: the conjunction of the
/// query's filters. A delete needs a filter or `all=true`; only an entity
/// type can be deleted from.
pub fn delete_filter_from_url_query(ts: &TypeSystem, ty_name: &str, url_query: &Vec<(String, String)>) -> (r: Result<Option<Expr>, String>)
    requires
        ts.wf(),
        forall|n: Seq<char>| ts.entities@.contains_key(n) ==> (#[trigger] ts.entities@[n]).name@ == n,
        forall|n: Seq<char>| ts.builtin@.contains_key(n) ==> (#[trigger] ts.builtin@[n]).name@ == n,
    ensures
        match ts.spec_lookup_type(ty_name@) {
            None => r matches Err(e) && e@ == "Cannot delete from type `"@ + ty_name@ + "`, type not found"@,
            Some(Type::Entity(n)) => match filters_spec(ts.entities@, entity_named(*ts, n@), dot_params(url_query@)) {
                None => r is Err,
                Some(fs) => if fs.len() == 0 && !deletes_all(url_query@) {
                    r matches Err(e) && e@ == "crud delete requires a filter to be set or `all=true` parameter."@
                } else {
                    match r {
                        Ok(None) => fs.len() == 0,
                        Ok(Some(e)) => fs.len() > 0 && is_and_chain(e, fs),
                        Err(_) => false,
                    }
                },
            },
            Some(t) => r matches Err(e) && e@ == "Cannot delete scalar type "@ + ty_name@ + " ("@ + spec_ty_name(t) + ")"@,
        },
{
    let base = match ts.lookup_type(ty_name) {
        None => {
            proof {
                reveal_strlit("Cannot delete from type `");
                reveal_strlit("`, type not found");
            }
            return Err(string_concat("Cannot delete from type `", ty_name).concat("`, type not found"));
        },
        Some(Type::Entity(n)) => {
            match ts.entities.get(n.as_str()) {
                Some(e) => e,
                None => match ts.builtin.get(n.as_str()) {
                    Some(e) => e,
                    None => {
                        return Err(string_concat("Cannot delete from type `", ty_name).concat("`, type not found"));
                    },
                },
            }
        },
        Some(t) => {
            proof {
                reveal_strlit("Cannot delete scalar type ");
                reveal_strlit(" (");
                reveal_strlit(")");
            }
            let m = string_concat("Cannot delete scalar type ", ty_name).concat(" (");
            let tn = type_label(&t);
            return Err(m.concat(tn.as_str()).concat(")"));
        },
    };
    let filter = match url_query_to_filter(base, url_query, ts) {
        Ok(f) => f,
        Err(e) => return Err(string_concat("failed to convert crud URL to filter expression: ", e.as_str())),
    };
    if filter.is_none() && !has_delete_all(url_query) {
        return Err("crud delete requires a filter to be set or `all=true` parameter.".to_owned());
    }
    Ok(filter)
}

/// The bytes that `base64::decode` reads from a text (standard alphabet,
/// padded), or `None` when the text is not valid base64.
pub uninterp spec fn spec_base64_decode(s: Seq<char>) -> Option<Seq<u8>>;

/// The text that `base64::encode` writes for some bytes (standard alphabet,
/// padded).
pub uninterp spec fn spec_base64_encode(bytes: Seq<u8>) -> Seq<char>;

/// Decodes `s` with `base64::decode` (the standard alphabet, padded). The
/// result is the named `spec_base64_decode`.
#[verifier::external_body]
fn base64_decode(s: &str) -> (r: Option<Vec<u8>>)
    ensures
        match r {
            Some(b) => spec_base64_decode(s@) == Some(b@),
            None => spec_base64_decode(s@) is None,
        },
{
    base64::decode(s).ok()
}

/// Encodes bytes with `base64::encode` (the standard alphabet, padded). The
/// result is the named `spec_base64_encode`; decoding it gives the bytes back,
/// as base64 does.
#[verifier::external_body]
fn base64_encode(bytes: &Vec<u8>) -> (r: String)
    requires
        bytes@.len() <= usize::MAX / 2,
    ensures
        r@ == spec_base64_encode(bytes@),
        spec_base64_decode(r@) == Some(bytes@),
{
    base64::encode(bytes)
}

/// The JSON bytes that a `cursor` query parameter carries in base64.
pub fn cursor_json_from_param(value: &str) -> (r: Result<Vec<u8>, String>)
    ensures
        match spec_base64_decode(value@) {
            Some(b) => r matches Ok(v) && v@ == b,
            None => r matches Err(e) && e@ == "Failed to decode cursor from base64 encoded string"@,
        },
{
    match base64_decode(value) {
        Some(b) => Ok(b),
        None => Err("Failed to decode cursor from base64 encoded string".to_owned()),
    }
}

/// The `cursor` query parameter that carries a cursor's JSON bytes.
pub fn cursor_param_from_json(json: &Vec<u8>) -> (r: String)
    requires
        json@.len() <= usize::MAX / 2,
    ensures
        r@ == spec_base64_encode(json@),
        spec_base64_decode(r@) == Some(json@),
{
    base64_encode(json)
}


/// The parameters of a CRUD read: the entity type, the URL path of the
/// request (for page links) and its query string as pairs.
#[derive(Debug)]
pub struct QueryParams {
    pub ty_name: String,
    pub url_path: String,
    pub url_query: Vec<(String, String)>,
}

/// The parameters of a CRUD delete: the entity type and the query string as
/// pairs.
#[derive(Debug)]
pub struct CrudDeleteParams {
    pub ty_name: String,
    pub url_query: Vec<(String, String)>,
}

/// The operators of a delete plan: its login filters, then, when the query
/// string held filters, one filter with their conjunction.
pub open spec fn delete_ops(ops: Seq<QueryOp>, chains: Seq<Seq<Seq<char>>>, user: Seq<char>, fs: Seq<FilterSpec>) -> bool {
    if fs.len() == 0 {
        plan_ops(ops, chains, user, Seq::empty())
    } else {
        &&& ops.len() > 0
        &&& ops.last() matches QueryOp::Filter { expression } && is_and_chain(expression, fs)
        &&& plan_ops(ops, chains, user, seq![ops.last()])
    }
}

/// The delete that a CRUD request on `ty_name` with query string
/// `url_query` asks for: the rows of the entity type that its filters select
/// (all rows only with `all=true`), within the user's login restrictions.
pub fn delete_from_url_query(ts: &TypeSystem, ps: &PolicySystem, user_id: &Option<String>, path: &str, ty_name: &str,
    url_query: &Vec<(String, String)>) -> (r: Result<Mutation, String>)
    requires
        ts.wf(),
        ps.wf(),
        forall|n: Seq<char>| ts.entities@.contains_key(n) ==> (#[trigger] ts.entities@[n]).name@ == n,
        forall|n: Seq<char>| ts.builtin@.contains_key(n) ==> (#[trigger] ts.builtin@[n]).name@ == n,
    ensures
        match ts.spec_lookup_type(ty_name@) {
            None => r matches Err(e) && e@ == "Cannot delete from type `"@ + ty_name@ + "`, type not found"@,
            Some(Type::Entity(n)) => match filters_spec(ts.entities@, entity_named(*ts, n@), dot_params(url_query@)) {
                None => r is Err,
                Some(fs) => if fs.len() == 0 && !deletes_all(url_query@) {
                    r matches Err(e) && e@ == "crud delete requires a filter to be set or `all=true` parameter."@
                } else {
                    match loaded(*ts, *ps, *user_id, path@, entity_named(*ts, n@), plan_fuel(*ts)) {
                        None => r is Err,
                        Some((chains, st)) => r matches Ok(m) && m.filter_query_plan.state() == st
                            && same_type(m.base_entity, entity_named(*ts, n@))
                            && same_type(m.filter_query_plan.base, entity_named(*ts, n@))
                            && delete_ops(m.filter_query_plan.operators@, chains, login_value(*user_id), fs)
                            && tree_spec(*ts, labels_view(ps.labels@), path@, m.filter_query_plan.entity, entity_named(*ts, n@),
                                entity_named(*ts, n@).backing_table@, empty_state(), plan_fuel(*ts)),
                    }
                },
            },
            Some(t) => r matches Err(e) && e@ == "Cannot delete scalar type "@ + ty_name@ + " ("@ + spec_ty_name(t) + ")"@,
        },
{
    let filter = match delete_filter_from_url_query(ts, ty_name, url_query) {
        Ok(f) => f,
        Err(e) => return Err(e),
    };
    proof {
        if let Some(Type::Entity(n)) = ts.spec_lookup_type(ty_name@) {
            assert(n@ == ty_name@);
            assert(entity_named(*ts, n@) == lookup_entity_spec(*ts, ty_name@)->0);
        }
    }
    let r = Mutation::delete_from_expr(ts, ps, user_id, path, ty_name, &filter);
    proof {
        if r is Ok && filter is Some {
            let m = r->Ok_0;
            let x = filter->Some_0;
            {
                let ops = m.filter_query_plan.operators@;
                assert(ts.spec_lookup_type(ty_name@) matches Some(Type::Entity(_)));
                assert(loaded(*ts, *ps, *user_id, path@, lookup_entity_spec(*ts, ty_name@)->0, plan_fuel(*ts)) is Some);
                let pair = loaded(*ts, *ps, *user_id, path@, lookup_entity_spec(*ts, ty_name@)->0, plan_fuel(*ts))->0;
                let extra = seq![QueryOp::Filter { expression: x }];
                assert(plan_ops(ops, pair.0, login_value(*user_id), extra));
                assert(ops[pair.0.len() + 0int] == extra[0]);
                assert(ops.last() == ops[pair.0.len() as int]);
                assert(seq![ops.last()] =~= seq![QueryOp::Filter { expression: x }]);
            }
        }
    }
    r
}

/// The operators of a page query after the login filters: the sort, the
/// filters, the offset (if any) and the page size.
pub open spec fn page_ops(ops: Seq<QueryOp>, chains: Seq<Seq<Seq<char>>>, user: Seq<char>, q: Query) -> bool {
    let c = chains.len() as int;
    let n = q.filters@.len() as int;
    let extra: int = if q.offset is Some { 1 } else { 0 };
    &&& ops.len() == c + n + extra + 2
    &&& forall|j: int| 0 <= j < c ==> is_login_filter(#[trigger] ops[j], chains[j], user)
    &&& (ops[c] matches QueryOp::SortBy(sb) && keys_view(sb.keys@) == keys_view(q.sort.keys@))
    &&& forall|k: int| 0 <= k < n ==> ops[c + 1 + k] == (QueryOp::Filter { expression: #[trigger] q.filters@[k] })
    &&& (q.offset matches Some(o) ==> ops[c + 1 + n] == (QueryOp::Skip { count: o }))
    &&& ops.last() == (QueryOp::Take { count: q.page_size })
}

proof fn lemma_without_projections_keeps(ops: Seq<QueryOp>)
    requires
        forall|j: int| 0 <= j < ops.len() ==> !(#[trigger] ops[j] is Projection),
    ensures
        without_projections(ops) == ops,
        last_projection(ops) is None,
    decreases ops.len(),
{
    if ops.len() > 0 {
        assert forall|j: int| 0 <= j < ops.drop_last().len() implies !(#[trigger] ops.drop_last()[j] is Projection) by {
            assert(ops.drop_last()[j] == ops[j]);
        }
        lemma_without_projections_keeps(ops.drop_last());
        assert(!(ops[ops.len() - 1] is Projection));
        assert(ops.drop_last().push(ops.last()) =~= ops);
    }
}

/// Plans a CRUD read: the query that `params` describe over their entity
/// type (`first_cursor` is what the first `cursor` parameter decoded into),
/// and the plan that reads its page within the user's login restrictions.
pub fn plan_crud_query(ts: &TypeSystem, ps: &PolicySystem, user_id: &Option<String>, path: &str, params: &QueryParams,
    first_cursor: Option<Result<Cursor, String>>) -> (r: Result<(Query, QueryPlan), String>)
    requires
        ts.wf(),
        ps.wf(),
        has_cursor_param(params.url_query@) ==> first_cursor is Some,
    ensures
        if !ts.entities@.contains_key(params.ty_name@) {
            r matches Err(e) && e@ == "unexpected type name as crud query base type"@
        } else {
            let base = ts.entities@[params.ty_name@];
            match params_fold(ts.entities@, base, params.url_query@, cursor_decoded(first_cursor)) {
                None => r is Err,
                Some(st) => {
                    let pairs = match first_cursor {
                        Some(Ok(c)) => cursor_pairs_spec(ts.entities@, base, axes_view(c.axes@), c.forward, c.inclusive),
                        _ => None,
                    };
                    match loaded(*ts, *ps, *user_id, path@, base, plan_fuel(*ts)) {
                        None => r is Err,
                        Some((chains, pst)) => {
                            &&& (r is Ok <==> (st.cursor_seen ==> pairs is Some))
                            &&& r matches Ok(qp) ==> {
                                &&& qp.0.page_size == st.page_size
                                &&& qp.0.offset == st.offset
                                &&& (qp.0.cursor is Some <==> st.cursor_seen)
                                &&& qp.1.state() == pst
                                &&& same_type(qp.1.base, base)
                                &&& qp.1.allowed_fields is None
                                &&& page_ops(qp.1.operators@, chains, login_value(*user_id), qp.0)
                                &&& tree_spec(*ts, labels_view(ps.labels@), path@, qp.1.entity, base, base.backing_table@,
                                    empty_state(), plan_fuel(*ts))
                            }
                        },
                    }
                },
            }
        },
{
    let base = match ts.lookup_entity(params.ty_name.as_str()) {
        Some(b) => b,
        None => return Err("unexpected type name as crud query base type".to_owned()),
    };
    let query = match Query::from_url_query(base, &params.url_query, ts, first_cursor) {
        Ok(q) => q,
        Err(e) => return Err(e),
    };
    let ops = match query.make_query_ops() {
        Ok(ops) => ops,
        Err(e) => return Err(e),
    };
    let ghost opsv = ops@;
    proof {
        let n = query.filters@.len() as int;
        assert forall|j: int| 0 <= j < opsv.len() implies !(#[trigger] opsv[j] is Projection) by {
            if 1 <= j < 1 + n {
                assert(opsv[1 + (j - 1)] == (QueryOp::Filter { expression: query.filters@[j - 1] }));
            }
        }
        lemma_without_projections_keeps(opsv);
    }
    let plan = match QueryPlan::from_ops(ts, ps, user_id, path, base, ops) {
        Ok(p) => p,
        Err(e) => return Err(e),
    };
    proof {
        let pair = loaded(*ts, *ps, *user_id, path@, *base, plan_fuel(*ts))->0;
        let c = pair.0.len() as int;
        let pops = plan.operators@;
        let n = query.filters@.len() as int;
        assert(pops[c + 0] == opsv[0]);
        assert forall|k: int| 0 <= k < n implies pops[c + 1 + k] == (QueryOp::Filter { expression: #[trigger] query.filters@[k] }) by {
            assert(pops[c + (1 + k)] == opsv[1 + k]);
        }
        if let Some(o) = query.offset {
            assert(pops[c + (1 + n)] == opsv[1 + n]);
        }
        assert(pops[c + (opsv.len() - 1)] == opsv[opsv.len() - 1]);
    }
    Ok((query, plan))
}

} // verus!
