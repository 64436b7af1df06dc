//! Query operators and the SQL fragments built from them.

use vstd::prelude::*;
use crate::expr::{Expr, BinaryExpr, BinaryOp, bin};
use crate::text::{string_concat, u64_to_string, decimal};
use crate::types::{ObjectType, TypeId};
use vstd::string::StringSliceAdditionalSpecFns;

verus! {

/// Whether a field should be included in or omitted from the query result.
#[derive(Debug, Clone, Copy, PartialEq, Eq, Structural)]
pub enum KeepOrOmitField {
    Keep,
    Omit,
}

/// A field name and the direction in which to sort by it.
#[derive(Debug, Clone)]
pub struct SortKey {
    pub field_name: String,
    pub ascending: bool,
}

impl SortKey {
    /// The field name and direction.
    pub open spec fn view(&self) -> (Seq<char>, bool) {
        (self.field_name@, self.ascending)
    }

    pub fn copy(&self) -> (r: Self)
        ensures
            r@ == self@,
    {
        SortKey { field_name: self.field_name.clone(), ascending: self.ascending }
    }
}

/// The field names and directions of sort keys.
pub open spec fn keys_view(keys: Seq<SortKey>) -> Seq<(Seq<char>, bool)> {
    keys.map_values(|k: SortKey| k@)
}

/// Lexicographic sort by several keys.
#[derive(Debug, Clone)]
pub struct SortBy {
    pub keys: Vec<SortKey>,
}

impl SortBy {
    pub fn copy(&self) -> (r: Self)
        ensures
            keys_view(r.keys@) == keys_view(self.keys@),
    {
        let mut keys: Vec<SortKey> = Vec::new();
        let mut i: usize = 0;
        while i < self.keys.len()
            invariant
                i <= self.keys@.len(),
                keys_view(keys@) == keys_view(self.keys@).take(i as int),
            decreases self.keys@.len() - i,
        {
            let ghost before = keys_view(keys@);
            keys.push(self.keys[i].copy());
            assert(keys_view(keys@) =~= before.push(self.keys@[i as int]@));
            assert(keys_view(self.keys@).take(i + 1) =~= keys_view(self.keys@).take(i as int).push(self.keys@[i as int]@));
            i = i + 1;
        }
        assert(keys_view(self.keys@).take(self.keys@.len() as int) =~= keys_view(self.keys@));
        SortBy { keys }
    }
}

/// Operators used to mutate the result set.
#[derive(Debug)]
pub enum QueryOp {
    /// Filters elements by `expression`.
    Filter { expression: Expr },
    /// Projects the entity to one containing only `fields`.
    Projection { fields: Vec<String> },
    /// Limits the number of output rows by taking the first `count` rows.
    Take { count: u64 },
    /// Skips the first `count` rows.
    Skip { count: u64 },
    /// Lexicographically sorts elements by the sort keys.
    SortBy(SortBy),
}

/// The SQL dialect a query is built for.
#[derive(Debug, Clone, Copy, PartialEq, Eq, Structural)]
pub enum TargetDatabase {
    Postgres,
    Sqlite,
}

/// A chain of operators as sent by the TypeScript API: the outermost operator
/// applies last, the innermost is the entity queried.
#[derive(Debug)]
pub enum QueryOpChain {
    BaseEntity { name: String },
    Filter { expression: Expr, inner: Box<QueryOpChain> },
    Projection { fields: Vec<String>, inner: Box<QueryOpChain> },
    Take { count: u64, inner: Box<QueryOpChain> },
    Skip { count: u64, inner: Box<QueryOpChain> },
    SortBy { keys: Vec<SortKey>, inner: Box<QueryOpChain> },
}

/// The entity name at the bottom of an operator chain and the operators in the
/// order they apply (innermost first).
pub open spec fn chain_ops(op: QueryOpChain) -> (Seq<char>, Seq<QueryOp>)
    decreases op,
{
    match op {
        QueryOpChain::BaseEntity { name } => (name@, Seq::empty()),
        QueryOpChain::Filter { expression, inner } => {
            let (n, ops) = chain_ops(*inner);
            (n, ops.push(QueryOp::Filter { expression }))
        },
        QueryOpChain::Projection { fields, inner } => {
            let (n, ops) = chain_ops(*inner);
            (n, ops.push(QueryOp::Projection { fields }))
        },
        QueryOpChain::Take { count, inner } => {
            let (n, ops) = chain_ops(*inner);
            (n, ops.push(QueryOp::Take { count }))
        },
        QueryOpChain::Skip { count, inner } => {
            let (n, ops) = chain_ops(*inner);
            (n, ops.push(QueryOp::Skip { count }))
        },
        QueryOpChain::SortBy { keys, inner } => {
            let (n, ops) = chain_ops(*inner);
            (n, ops.push(QueryOp::SortBy(SortBy { keys })))
        },
    }
}

/// Converts an operator chain into the queried entity's name and the operators
/// to apply to it, in application order.
pub fn convert_ops(op: QueryOpChain) -> (r: Result<(String, Vec<QueryOp>), String>)
    ensures
        r matches Ok((n, ops)) && n@ == chain_ops(op).0 && ops@ == chain_ops(op).1,
    decreases op,
{
    let (query_op, inner) = match op {
        QueryOpChain::BaseEntity { name } => {
            return Ok((name, Vec::new()));
        },
        QueryOpChain::Filter { expression, inner } => (QueryOp::Filter { expression }, inner),
        QueryOpChain::Projection { fields, inner } => (QueryOp::Projection { fields }, inner),
        QueryOpChain::Take { count, inner } => (QueryOp::Take { count }, inner),
        QueryOpChain::Skip { count, inner } => (QueryOp::Skip { count }, inner),
        QueryOpChain::SortBy { keys, inner } => (QueryOp::SortBy(SortBy { keys }), inner),
    };
    match convert_ops(*inner) {
        Ok((entity_name, mut ops)) => {
            ops.push(query_op);
            Ok((entity_name, ops))
        },
        Err(e) => Err(e),
    }
}

/// The longest prefix of `s` that is at most `max_len` bytes long and ends at a
/// character boundary, so that no multi-byte character is broken.
pub fn max_prefix(s: &str, max_len: usize) -> (r: &str)
    requires
        s.spec_bytes().len() <= usize::MAX,
    ensures
        max_len >= s.spec_bytes().len() ==> r@ == s@,
        max_len < s.spec_bytes().len() ==> {
            exists|k: int| {
                &&& 0 <= k <= max_len
                &&& vstd::utf8::is_char_boundary(s.spec_bytes(), k)
                &&& r.spec_bytes() == s.spec_bytes().subrange(0, k)
                &&& forall|m: int| k < m <= max_len ==> !vstd::utf8::is_char_boundary(s.spec_bytes(), m)
            }
        },
{
    if max_len >= s.len() {
        return s;
    }
    let mut idx = max_len;
    proof {
        vstd::utf8::encode_utf8_valid_utf8(s@);
    }
    while !s.is_char_boundary(idx)
        invariant
            idx <= max_len,
            vstd::utf8::valid_utf8(s.spec_bytes()),
            forall|m: int| idx < m <= max_len ==> !vstd::utf8::is_char_boundary(s.spec_bytes(), m),
        decreases idx,
    {
        assert(idx != 0);
        idx = idx - 1;
    }
    let (head, _) = s.split_at(idx);
    head
}

/// The largest byte count, at most 63, that ends at a character boundary.
pub open spec fn identifier_cut(bytes: Seq<u8>) -> int {
    choose|k: int| 0 <= k <= 63 && vstd::utf8::is_char_boundary(bytes, k)
        && forall|m: int| k < m <= 63 ==> !vstd::utf8::is_char_boundary(bytes, m)
}

/// An identifier cut to its longest prefix of at most 63 bytes that does not
/// break a character.
pub open spec fn truncated_identifier(s: Seq<char>) -> Seq<char> {
    let b = vstd::utf8::encode_utf8(s);
    if b.len() <= 63 {
        s
    } else {
        vstd::utf8::decode_utf8(b.subrange(0, identifier_cut(b)))
    }
}

/// Truncates a database identifier (column or table name) to 63 bytes so that
/// Postgres accepts it.
pub fn truncate_identifier(s: &str) -> (r: &str)
    requires
        s.spec_bytes().len() <= usize::MAX,
    ensures
        r@ == truncated_identifier(s@),
        63 >= s.spec_bytes().len() ==> r@ == s@,
        63 < s.spec_bytes().len() ==> {
            exists|k: int| {
                &&& 0 <= k <= 63
                &&& vstd::utf8::is_char_boundary(s.spec_bytes(), k)
                &&& r.spec_bytes() == s.spec_bytes().subrange(0, k)
                &&& forall|m: int| k < m <= 63 ==> !vstd::utf8::is_char_boundary(s.spec_bytes(), m)
            }
        },
{
    let r = max_prefix(s, 63);
    proof {
        let b = s.spec_bytes();
        if b.len() > 63 {
            let k = choose|k: int| {
                &&& 0 <= k <= 63
                &&& vstd::utf8::is_char_boundary(b, k)
                &&& r.spec_bytes() == b.subrange(0, k)
                &&& forall|m: int| k < m <= 63 ==> !vstd::utf8::is_char_boundary(b, m)
            };
            let c = identifier_cut(b);
            assert(0 <= c <= 63 && vstd::utf8::is_char_boundary(b, c)
                && forall|m: int| c < m <= 63 ==> !vstd::utf8::is_char_boundary(b, m));
            if c < k {
                assert(!vstd::utf8::is_char_boundary(b, k));
            }
            if k < c {
                assert(!vstd::utf8::is_char_boundary(b, c));
            }
            assert(c == k);
            vstd::utf8::encode_utf8_decode_utf8(r@);
        }
    }
    r
}

/// Identifies a retrieved column within a SQL query: `table_field`.
#[derive(Debug, Clone)]
pub struct ColumnAlias {
    /// Name of the entity field that corresponds to this retrieved column.
    pub field_name: String,
    /// Name (or alias) of the table where the field resides.
    pub table_name: String,
}

impl ColumnAlias {
    pub fn to_string(&self) -> (r: String)
        ensures
            r@ == self.table_name@ + "_"@ + self.field_name@,
    {
        let s = string_concat(self.table_name.as_str(), "_");
        s.concat(self.field_name.as_str())
    }
}

/// A column retrieved from the database.
#[derive(Debug, Clone)]
pub struct Column {
    /// Column name, which is also the name of the entity field.
    pub name: String,
    /// Name of the table storing this column.
    pub table_name: String,
    /// Type of the entity field this column holds.
    pub type_id: TypeId,
    /// Default value of the entity field, if it has one.
    pub default: Option<String>,
}

impl Column {
    /// The alias used to address the column within a SQL query.
    pub fn alias(&self) -> (r: ColumnAlias)
        ensures
            r.field_name@ == self.name@,
            r.table_name@ == self.table_name@,
    {
        ColumnAlias { field_name: self.name.clone(), table_name: self.table_name.clone() }
    }
}

/// Index just past the first `Take` or `Skip` in `ops`, or `ops.len()` if there is none.
pub open spec fn first_break(ops: Seq<QueryOp>) -> int
    decreases ops.len(),
{
    if ops.len() == 0 {
        0
    } else if ops[0] is Take || ops[0] is Skip {
        1
    } else {
        1 + first_break(ops.drop_first())
    }
}

/// The split point of a list of operators lies inside it, and a nonempty
/// list always yields a nonempty first group.
pub proof fn lemma_first_break_bounds(ops: Seq<QueryOp>)
    ensures
        0 <= first_break(ops) <= ops.len(),
        ops.len() > 0 ==> first_break(ops) > 0,
    decreases ops.len(),
{
    if ops.len() > 0 {
        lemma_first_break_bounds(ops.drop_first());
    }
}

/// Splits `ops` after the first `Take` or `Skip` (inclusive); without one, everything
/// goes to the first part.
pub fn split_on_first_take(ops: &[QueryOp]) -> (r: (&[QueryOp], &[QueryOp]))
    ensures
        r.0@ == ops@.subrange(0, first_break(ops@)),
        r.1@ == ops@.subrange(first_break(ops@), ops@.len() as int),
{
    let mut i: usize = 0;
    proof { lemma_first_break_bounds(ops@); }
    assert(ops@.skip(0) =~= ops@);
    while i < ops.len()
        invariant
            i <= ops@.len(),
            forall|j: int| 0 <= j < i ==> !(ops@[j] is Take || ops@[j] is Skip),
            first_break(ops@) == i + first_break(ops@.skip(i as int)),
        decreases ops@.len() - i,
    {
        assert(ops@.skip(i as int)[0] == ops@[i as int]);
        match &ops[i] {
            QueryOp::Take { .. } | QueryOp::Skip { .. } => {
                return ops.split_at(i + 1);
            },
            _ => {},
        }
        assert(ops@.skip(i as int).drop_first() =~= ops@.skip(i + 1));
        i = i + 1;
    }
    ops.split_at(i)
}

/// The conjunction of the filters in `ops`, in order: `((f1 AND f2) AND f3) ...`.
pub open spec fn filters_conjunction(ops: Seq<QueryOp>) -> Option<Expr>
    decreases ops.len(),
{
    if ops.len() == 0 {
        None
    } else {
        let prev = filters_conjunction(ops.drop_last());
        match ops.last() {
            QueryOp::Filter { expression } => match prev {
                None => Some(expression),
                Some(p) => Some(bin(BinaryOp::And, p, expression)),
            },
            _ => prev,
        }
    }
}

/// The conjunction of all filter operators in `ops`.
pub fn gather_filters(ops: &[QueryOp]) -> (r: Option<Expr>)
    ensures
        r == filters_conjunction(ops@),
{
    let mut expr: Option<Expr> = None;
    let mut i: usize = 0;
    while i < ops.len()
        invariant
            i <= ops@.len(),
            expr == filters_conjunction(ops@.take(i as int)),
        decreases ops@.len() - i,
    {
        assert(ops@.take(i + 1).drop_last() =~= ops@.take(i as int));
        if let QueryOp::Filter { expression } = &ops[i] {
            match expr {
                Some(filter_expr) => {
                    expr = Some(BinaryExpr::and(filter_expr, expression.copy()));
                },
                None => {
                    expr = Some(expression.copy());
                },
            }
        }
        i = i + 1;
    }
    assert(ops@.take(ops@.len() as int) =~= ops@);
    expr
}

/// Index of the last `SortBy` operator, or -1.
pub open spec fn last_sort_index(ops: Seq<QueryOp>) -> int
    decreases ops.len(),
{
    if ops.len() == 0 {
        -1
    } else if ops.last() is SortBy {
        ops.len() - 1
    } else {
        last_sort_index(ops.drop_last())
    }
}

/// The last sort index is -1 or the position of a `SortBy`, and no `SortBy`
/// follows it.
pub proof fn lemma_last_sort_index(ops: Seq<QueryOp>)
    ensures
        -1 <= last_sort_index(ops) < ops.len(),
        last_sort_index(ops) >= 0 ==> ops[last_sort_index(ops)] is SortBy,
        forall|j: int| last_sort_index(ops) < j < ops.len() ==> !(#[trigger] ops[j] is SortBy),
    decreases ops.len(),
{
    if ops.len() > 0 {
        lemma_last_sort_index(ops.drop_last());
        if !(ops.last() is SortBy) {
            assert forall|j: int| last_sort_index(ops) < j < ops.len() implies !(#[trigger] ops[j] is SortBy) by {
                if j < ops.len() - 1 {
                    assert(ops.drop_last()[j] == ops[j]);
                }
            }
        }
    }
}

/// The last sort operator in `ops`, if any.
pub fn find_last_sort_by(ops: &[QueryOp]) -> (r: Option<&SortBy>)
    ensures
        last_sort_index(ops@) < 0 ==> r is None,
        last_sort_index(ops@) >= 0 ==> (r matches Some(s) && ops@[last_sort_index(ops@)] == QueryOp::SortBy(*s)),
{
    proof { lemma_last_sort_index(ops@); }
    let mut i: usize = ops.len();
    while i > 0
        invariant
            i <= ops@.len(),
            -1 <= last_sort_index(ops@) < ops@.len(),
            last_sort_index(ops@) >= 0 ==> ops@[last_sort_index(ops@)] is SortBy,
            forall|j: int| last_sort_index(ops@) < j < ops@.len() ==> !(#[trigger] ops@[j] is SortBy),
            forall|j: int| i <= j < ops@.len() ==> !(#[trigger] ops@[j] is SortBy),
        decreases i,
    {
        if let QueryOp::SortBy(s) = &ops[i - 1] {
            assert(ops@[i - 1] is SortBy);
            return Some(s);
        }
        i = i - 1;
    }
    proof {
        if last_sort_index(ops@) >= 0 {
            assert(ops@[last_sort_index(ops@)] is SortBy);
        }
    }
    None
}

/// How many operators of `ops` are `Take`.
pub open spec fn count_takes(ops: Seq<QueryOp>) -> nat
    decreases ops.len(),
{
    if ops.len() == 0 {
        0
    } else {
        count_takes(ops.drop_last()) + if ops.last() is Take { 1nat } else { 0nat }
    }
}

/// How many operators of `ops` are `Skip`.
pub open spec fn count_skips(ops: Seq<QueryOp>) -> nat
    decreases ops.len(),
{
    if ops.len() == 0 {
        0
    } else {
        count_skips(ops.drop_last()) + if ops.last() is Skip { 1nat } else { 0nat }
    }
}

/// The count of the (only) `Take` operator of `ops`, if any.
pub open spec fn take_count(ops: Seq<QueryOp>) -> Option<u64>
    decreases ops.len(),
{
    if ops.len() == 0 {
        None
    } else {
        match ops.last() {
            QueryOp::Take { count } => Some(count),
            _ => take_count(ops.drop_last()),
        }
    }
}

/// The count of the (only) `Skip` operator of `ops`, if any.
pub open spec fn skip_count(ops: Seq<QueryOp>) -> Option<u64>
    decreases ops.len(),
{
    if ops.len() == 0 {
        None
    } else {
        match ops.last() {
            QueryOp::Skip { count } => Some(count),
            _ => skip_count(ops.drop_last()),
        }
    }
}

/// The count of the `Take` operator in `ops` (at most one is allowed).
pub fn find_take_count(ops: &[QueryOp]) -> (r: Option<u64>)
    requires
        count_takes(ops@) <= 1,
    ensures
        r == take_count(ops@),
{
    let mut i: usize = ops.len();
    assert(ops@.take(ops@.len() as int) =~= ops@);
    while i > 0
        invariant
            i <= ops@.len(),
            take_count(ops@) == take_count(ops@.take(i as int)),
        decreases i,
    {
        assert(ops@.take(i as int).drop_last() =~= ops@.take(i - 1));
        if let QueryOp::Take { count } = &ops[i - 1] {
            return Some(*count);
        }
        i = i - 1;
    }
    None
}

/// The count of the `Skip` operator in `ops` (at most one is allowed).
pub fn find_skip_count(ops: &[QueryOp]) -> (r: Option<u64>)
    requires
        count_skips(ops@) <= 1,
    ensures
        r == skip_count(ops@),
{
    let mut i: usize = ops.len();
    assert(ops@.take(ops@.len() as int) =~= ops@);
    while i > 0
        invariant
            i <= ops@.len(),
            skip_count(ops@) == skip_count(ops@.take(i as int)),
        decreases i,
    {
        assert(ops@.take(i as int).drop_last() =~= ops@.take(i - 1));
        if let QueryOp::Skip { count } = &ops[i - 1] {
            return Some(*count);
        }
        i = i - 1;
    }
    None
}

/// The `LIMIT`/`OFFSET` clause for the given limit and offset.
pub open spec fn limit_offset_sql(target: TargetDatabase, limit: Option<u64>, offset: Option<u64>) -> Seq<char> {
    if target == TargetDatabase::Sqlite && limit is None && offset is Some {
        "LIMIT "@ + decimal(offset->0 as nat) + ",-1"@
    } else {
        let l = match limit { Some(l) => "LIMIT "@ + decimal(l as nat), None => Seq::empty() };
        let o = match offset { Some(o) => "OFFSET "@ + decimal(o as nat), None => Seq::empty() };
        l + " "@ + o
    }
}

/// Builds the `LIMIT`/`OFFSET` clause. SQLite does not accept `OFFSET` without
/// `LIMIT`, so there an offset alone becomes `LIMIT offset,-1`.
pub fn make_limit_and_offset_string(target: TargetDatabase, limit: Option<u64>, offset: Option<u64>) -> (r: String)
    ensures
        r@ == limit_offset_sql(target, limit, offset),
{
    if target == TargetDatabase::Sqlite && limit.is_none() && offset.is_some() {
        let o = u64_to_string(offset.unwrap());
        let s = string_concat("LIMIT ", o.as_str());
        s.concat(",-1")
    } else {
        let limit_str = match limit {
            Some(l) => string_concat("LIMIT ", u64_to_string(l).as_str()),
            None => String::new(),
        };
        let offset_str = match offset {
            Some(o) => string_concat("OFFSET ", u64_to_string(o).as_str()),
            None => String::new(),
        };
        let s = limit_str.concat(" ");
        s.concat(offset_str.as_str())
    }
}

/// The SQL quoting of `s`: wrapped in single quotes, with `'` doubled and `\`
/// doubled.
pub open spec fn sql_quoted(s: Seq<char>) -> Seq<char> {
    "'"@ + sql_quoted_body(s) + "'"@
}

pub open spec fn sql_quoted_body(s: Seq<char>) -> Seq<char>
    decreases s.len(),
{
    if s.len() == 0 {
        Seq::empty()
    } else {
        let c = s.last();
        let e = if c == '\'' { seq!['\'', '\''] } else if c == '\\' { seq!['\\', '\\'] } else { seq![c] };
        sql_quoted_body(s.drop_last()) + e
    }
}

/// Quotes `s` as SQL string data with `format_sql_query::QuotedData`. Claims
/// what its `Display` implementation writes: a quote, the text with quotes and
/// backslashes doubled, and a closing quote.
#[verifier::external_body]
fn quoted_data(s: &str) -> (r: String)
    ensures
        r@ == sql_quoted(s@),
{
    format!("{}", format_sql_query::QuotedData(s))
}

/// Escapes a string value for inclusion in SQL text.
pub fn escape_string(s: &str) -> (r: String)
    ensures
        r@ == sql_quoted(s@),
{
    quoted_data(s)
}

/// Text of a sort key in an `ORDER BY` clause.
pub open spec fn sort_key_sql(table: Seq<char>, k: SortKey) -> Seq<char> {
    "\""@ + table + "_"@ + k.field_name@ + "\" "@ + if k.ascending { "ASC"@ } else { "DESC"@ }
}

/// The sort keys, joined by `, `.
pub open spec fn sort_keys_sql(table: Seq<char>, keys: Seq<SortKey>) -> Seq<char>
    decreases keys.len(),
{
    if keys.len() == 0 {
        Seq::empty()
    } else if keys.len() == 1 {
        sort_key_sql(table, keys[0])
    } else {
        sort_keys_sql(table, keys.drop_last()) + ", "@ + sort_key_sql(table, keys.last())
    }
}

/// Every sort key names a field of `base`.
pub open spec fn sort_fields_exist(base: ObjectType, keys: Seq<SortKey>) -> bool {
    forall|i: int| 0 <= i < keys.len() ==> base.spec_has_field(#[trigger] keys[i].field_name@)
}

/// Builds the `ORDER BY` clause for `sort` over the base entity `base`; every
/// sort key must name a field of the entity.
pub fn make_sort_string(base: &ObjectType, sort: Option<&SortBy>) -> (r: Result<String, String>)
    ensures
        match sort {
            None => r matches Ok(s) && s@ == Seq::<char>::empty(),
            Some(sb) => {
                &&& (r is Ok <==> sort_fields_exist(*base, sb.keys@))
                &&& r matches Ok(s) ==> s@ == "ORDER BY "@ + sort_keys_sql(base.backing_table@, sb.keys@)
            },
        },
{
    match sort {
        None => Ok(String::new()),
        Some(sb) => {
            let mut tokens = String::new();
            let mut i: usize = 0;
            while i < sb.keys.len()
                invariant
                    sort == Some(sb),
                    i <= sb.keys@.len(),
                    forall|j: int| 0 <= j < i ==> base.spec_has_field(#[trigger] sb.keys@[j].field_name@),
                    tokens@ == sort_keys_sql(base.backing_table@, sb.keys@.take(i as int)),
                decreases sb.keys@.len() - i,
            {
                let key = &sb.keys[i];
                if !base.has_field(key.field_name.as_str()) {
                    assert(!base.spec_has_field(sb.keys@[i as int].field_name@));
                    let m = string_concat("entity '", base.name.as_str());
                    let m = m.concat("' has no field named '");
                    let m = m.concat(key.field_name.as_str());
                    return Err(m.concat("'"));
                }
                let ghost t = sb.keys@.take(i + 1);
                assert(t.drop_last() =~= sb.keys@.take(i as int));
                assert(t.last() == *key);
                let order: &str = if key.ascending { "ASC" } else { "DESC" };
                let alias = ColumnAlias { field_name: key.field_name.clone(), table_name: base.backing_table.clone() };
                let a = alias.to_string();
                let tok = string_concat("\"", a.as_str());
                let tok = tok.concat("\" ");
                let tok = tok.concat(order);
                assert(tok@ =~= sort_key_sql(base.backing_table@, *key));
                if i > 0 {
                    tokens = tokens.concat(", ");
                }
                tokens = tokens.concat(tok.as_str());
                proof {
                    if i == 0 {
                        assert(t.len() == 1);
                        assert(sort_keys_sql(base.backing_table@, t.drop_last()) =~= Seq::<char>::empty());
                    }
                }
                i = i + 1;
            }
            assert(sb.keys@.take(sb.keys@.len() as int) =~= sb.keys@);
            let s = string_concat("ORDER BY ", tokens.as_str());
            Ok(s)
        },
    }
}

} // verus!
