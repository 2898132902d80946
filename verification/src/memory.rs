use vstd::prelude::*;
use crate::models::{MemoryCategory, MemoryScope, category_of_code, scope_of_code};
use crate::parser::markdown::concat;
use crate::text::{starts_with, push_signed_decimal, push_str, signed_decimal, str_eq, string_of};

verus! {

/// The seconds since the Unix epoch, read from the system clock with std's
/// `SystemTime::elapsed` on `UNIX_EPOCH`, or the clock's error message. The
/// value depends on the time of the call: nothing is stated of it.
#[verifier::external_body]
pub(crate) fn seconds_since_epoch() -> (r: Result<u64, String>) {
    match std::time::UNIX_EPOCH.elapsed() {
        Ok(d) => Ok(d.as_secs()),
        Err(e) => Err(e.to_string()),
    }
}

/// A count of seconds as a signed timestamp (wrapping as `as i64` does).
pub fn timestamp_from_secs(secs: u64) -> (r: i64)
    ensures
        r == secs as i64,
{
    #[verifier::truncate]
    (secs as i64)
}

/// The creation and update times an entry is stored with: each the later of
/// the entry's own and the time of the insert.
pub fn insert_timestamps(created_at: i64, updated_at: i64, now: i64) -> (r: (i64, i64))
    ensures
        r.0 == if created_at >= now { created_at } else { now },
        r.1 == if updated_at >= now { updated_at } else { now },
{
    let c = if created_at >= now { created_at } else { now };
    let u = if updated_at >= now { updated_at } else { now };
    (c, u)
}

/// The current Unix time in seconds, or why the clock could not be read.
pub fn current_timestamp() -> (r: Result<i64, String>)
    ensures
        r matches Err(e) ==> starts_with(e@, "Failed to get timestamp: "@),
{
    match seconds_since_epoch() {
        Ok(s) => Ok(timestamp_from_secs(s)),
        Err(e) => {
            let m = concat("Failed to get timestamp: ", e.as_str());
            assert(m@.subrange(0, "Failed to get timestamp: "@.len() as int) =~= "Failed to get timestamp: "@);
            Err(m)
        },
    }
}

/// The name a scope is stored under.
pub open spec fn scope_name(s: MemoryScope) -> Seq<char> {
    match s {
        MemoryScope::ScopeGlobal => "global"@,
        MemoryScope::ScopeProject => "project"@,
        MemoryScope::ScopeSession => "session"@,
        MemoryScope::ScopeWorking => "working"@,
        MemoryScope::ScopePolicy => "policy"@,
        MemoryScope::ScopeIdentity => "identity"@,
    }
}

/// The scope a name stands for.
pub open spec fn scope_of_name(n: Seq<char>) -> Option<MemoryScope> {
    if n == "global"@ {
        Some(MemoryScope::ScopeGlobal)
    } else if n == "project"@ {
        Some(MemoryScope::ScopeProject)
    } else if n == "session"@ {
        Some(MemoryScope::ScopeSession)
    } else if n == "working"@ {
        Some(MemoryScope::ScopeWorking)
    } else if n == "policy"@ {
        Some(MemoryScope::ScopePolicy)
    } else if n == "identity"@ {
        Some(MemoryScope::ScopeIdentity)
    } else {
        None
    }
}

/// The name a category is stored under.
pub open spec fn category_name(c: MemoryCategory) -> Seq<char> {
    match c {
        MemoryCategory::CategoryFact => "fact"@,
        MemoryCategory::CategoryPreference => "preference"@,
        MemoryCategory::CategoryHistory => "history"@,
        MemoryCategory::CategoryContext => "context"@,
        MemoryCategory::CategoryInference => "inference"@,
    }
}

/// The category a name stands for.
pub open spec fn category_of_name(n: Seq<char>) -> Option<MemoryCategory> {
    if n == "fact"@ {
        Some(MemoryCategory::CategoryFact)
    } else if n == "preference"@ {
        Some(MemoryCategory::CategoryPreference)
    } else if n == "history"@ {
        Some(MemoryCategory::CategoryHistory)
    } else if n == "context"@ {
        Some(MemoryCategory::CategoryContext)
    } else if n == "inference"@ {
        Some(MemoryCategory::CategoryInference)
    } else {
        None
    }
}

/// `prefix` followed by the decimal numeral of `v`.
pub fn with_number(prefix: &str, v: i32) -> (r: String)
    ensures
        r@ == prefix@ + signed_decimal(v as int),
{
    let mut out: Vec<char> = Vec::new();
    push_str(&mut out, prefix);
    push_signed_decimal(&mut out, v as i64);
    string_of(&out)
}

/// The name of the scope stored under `scope`, or an error for a number that
/// names none.
pub fn scope_to_string(scope: i32) -> (r: Result<String, String>)
    ensures
        match scope_of_code(scope) {
            Some(s) => r is Ok && r->Ok_0@ == scope_name(s),
            None => r is Err && r->Err_0@ == "Invalid MemoryScope value: "@ + signed_decimal(scope as int),
        },
{
    match MemoryScope::try_from(scope) {
        Ok(MemoryScope::ScopeGlobal) => Ok("global".to_string()),
        Ok(MemoryScope::ScopeProject) => Ok("project".to_string()),
        Ok(MemoryScope::ScopeSession) => Ok("session".to_string()),
        Ok(MemoryScope::ScopeWorking) => Ok("working".to_string()),
        Ok(MemoryScope::ScopePolicy) => Ok("policy".to_string()),
        Ok(MemoryScope::ScopeIdentity) => Ok("identity".to_string()),
        Err(_) => Err(with_number("Invalid MemoryScope value: ", scope)),
    }
}

/// The scope a stored name stands for.
pub fn string_to_memory_scope(s: &str) -> (r: Option<MemoryScope>)
    ensures
        r == scope_of_name(s@),
{
    if str_eq(s, "global") {
        Some(MemoryScope::ScopeGlobal)
    } else if str_eq(s, "project") {
        Some(MemoryScope::ScopeProject)
    } else if str_eq(s, "session") {
        Some(MemoryScope::ScopeSession)
    } else if str_eq(s, "working") {
        Some(MemoryScope::ScopeWorking)
    } else if str_eq(s, "policy") {
        Some(MemoryScope::ScopePolicy)
    } else if str_eq(s, "identity") {
        Some(MemoryScope::ScopeIdentity)
    } else {
        None
    }
}

/// The name of the category stored under `cat`, or an error for a number that
/// names none.
pub fn category_to_string(cat: i32) -> (r: Result<String, String>)
    ensures
        match category_of_code(cat) {
            Some(c) => r is Ok && r->Ok_0@ == category_name(c),
            None => r is Err && r->Err_0@ == "Invalid MemoryCategory value: "@ + signed_decimal(cat as int),
        },
{
    match MemoryCategory::try_from(cat) {
        Ok(MemoryCategory::CategoryFact) => Ok("fact".to_string()),
        Ok(MemoryCategory::CategoryPreference) => Ok("preference".to_string()),
        Ok(MemoryCategory::CategoryHistory) => Ok("history".to_string()),
        Ok(MemoryCategory::CategoryContext) => Ok("context".to_string()),
        Ok(MemoryCategory::CategoryInference) => Ok("inference".to_string()),
        Err(_) => Err(with_number("Invalid MemoryCategory value: ", cat)),
    }
}

/// The category a stored name stands for.
pub fn string_to_memory_category(s: &str) -> (r: Option<MemoryCategory>)
    ensures
        r == category_of_name(s@),
{
    if str_eq(s, "fact") {
        Some(MemoryCategory::CategoryFact)
    } else if str_eq(s, "preference") {
        Some(MemoryCategory::CategoryPreference)
    } else if str_eq(s, "history") {
        Some(MemoryCategory::CategoryHistory)
    } else if str_eq(s, "context") {
        Some(MemoryCategory::CategoryContext)
    } else if str_eq(s, "inference") {
        Some(MemoryCategory::CategoryInference)
    } else {
        None
    }
}

/// The law of the stored names: every scope's name reads back as that scope,
/// and every name that stands for a scope is that scope's name.
pub proof fn lemma_scope_name_round_trip(s: MemoryScope, n: Seq<char>)
    ensures
        scope_of_name(scope_name(s)) == Some(s),
        scope_of_name(n) matches Some(t) ==> scope_name(t) == n,
{
    reveal_strlit("global");
    reveal_strlit("project");
    reveal_strlit("session");
    reveal_strlit("working");
    reveal_strlit("policy");
    reveal_strlit("identity");
    assert("global"@[0] == 'g');
    assert("project"@[1] == 'r');
    assert("session"@[0] == 's');
    assert("working"@[0] == 'w');
    assert("policy"@[1] == 'o');
    assert("identity"@[0] == 'i');
    assert("project"@[0] == 'p');
    assert("policy"@[0] == 'p');
}

/// The law of the stored names for categories.
pub proof fn lemma_category_name_round_trip(c: MemoryCategory, n: Seq<char>)
    ensures
        category_of_name(category_name(c)) == Some(c),
        category_of_name(n) matches Some(d) ==> category_name(d) == n,
{
    reveal_strlit("fact");
    reveal_strlit("preference");
    reveal_strlit("history");
    reveal_strlit("context");
    reveal_strlit("inference");
    assert("fact"@[0] == 'f');
    assert("preference"@[0] == 'p');
    assert("history"@[0] == 'h');
    assert("context"@[0] == 'c');
    assert("inference"@[0] == 'i');
}

/// The scope number of a stored row: the scope its name stands for, global
/// where the name stands for none.
pub fn scope_code_of_name(s: &str) -> (r: i32)
    ensures
        r == match scope_of_name(s@) {
            Some(t) => crate::models::scope_code(t),
            None => 0,
        },
{
    match string_to_memory_scope(s) {
        Some(t) => t.code(),
        None => MemoryScope::ScopeGlobal.code(),
    }
}

/// The category number of a stored row: the category its name stands for,
/// fact where the name stands for none.
pub fn category_code_of_name(s: &str) -> (r: i32)
    ensures
        r == match category_of_name(s@) {
            Some(c) => crate::models::category_code(c),
            None => 0,
        },
{
    match string_to_memory_category(s) {
        Some(c) => c.code(),
        None => MemoryCategory::CategoryFact.code(),
    }
}

/// The policy on writes: an identity entry cannot be inserted directly; every
/// other scope can.
pub fn check_insert_scope(scope: i32) -> (r: Result<(), String>)
    ensures
        r is Err <==> scope == 5,
        r matches Err(e) ==> e@ == "Identity memory is protected; cannot insert identity entries directly"@,
{
    if scope == MemoryScope::ScopeIdentity.code() {
        Err("Identity memory is protected; cannot insert identity entries directly".to_string())
    } else {
        Ok(())
    }
}

/// Direction for link traversal.
#[derive(Debug, Clone, Copy, PartialEq, Eq, Structural)]
pub enum LinkDirection {
    Outgoing,
    Incoming,
}

impl LinkDirection {
    /// The query for the links of an entry in this direction: the entry on
    /// the other end, the relation and its metadata.
    pub fn select_sql(self) -> (r: &'static str)
        ensures
            r@ == match self {
                LinkDirection::Outgoing => "SELECT to_entry_id, relation_type, metadata FROM memory_links WHERE from_entry_id = ?1"@,
                LinkDirection::Incoming => "SELECT from_entry_id, relation_type, metadata FROM memory_links WHERE to_entry_id = ?1"@,
            },
    {
        match self {
            LinkDirection::Outgoing => "SELECT to_entry_id, relation_type, metadata FROM memory_links WHERE from_entry_id = ?1",
            LinkDirection::Incoming => "SELECT from_entry_id, relation_type, metadata FROM memory_links WHERE to_entry_id = ?1",
        }
    }
}

/// A value bound to a `?` of a memory query: text, an integer, or the minimum
/// confidence of the filter, which the caller binds.
#[derive(Debug, Clone, PartialEq)]
pub enum SqlArg {
    Text(String),
    Int(i64),
    MinConfidence,
}

/// The model of a bound value.
pub enum SqlArgV {
    Text(Seq<char>),
    Int(i64),
    MinConfidence,
}

pub open spec fn sql_arg_view(a: SqlArg) -> SqlArgV {
    match a {
        SqlArg::Text(s) => SqlArgV::Text(s@),
        SqlArg::Int(i) => SqlArgV::Int(i),
        SqlArg::MinConfidence => SqlArgV::MinConfidence,
    }
}

/// The filters of a memory query, with the minimum confidence only marked as
/// present: the caller binds its value.
pub struct QueryFilter {
    pub scope: Option<String>,
    pub category: Option<String>,
    pub has_min_confidence: bool,
    pub tags: Vec<String>,
    pub owner: Option<String>,
    pub status: Option<String>,
    pub limit: Option<usize>,
    pub offset: Option<usize>,
}

pub open spec fn query_head() -> Seq<char> {
    "SELECT id, scope, category, key, value, source, confidence, created_at, updated_at, version, status, tags, owner, access_level, provenance, expires_at
             FROM memory_entries WHERE 1=1"@
}

/// `clause` where `present`, nothing otherwise.
pub open spec fn clause_if(present: bool, clause: Seq<char>) -> Seq<char> {
    if present {
        clause
    } else {
        Seq::empty()
    }
}

/// `s` written `n` times.
pub open spec fn repeat(s: Seq<char>, n: nat) -> Seq<char>
    decreases n,
{
    if n == 0 {
        Seq::empty()
    } else {
        repeat(s, (n - 1) as nat) + s
    }
}

/// The query text of a filter.
pub open spec fn query_sql(f: QueryFilter) -> Seq<char> {
    query_head() + clause_if(f.scope is Some, " AND scope = ?"@) + clause_if(
        f.category is Some,
        " AND category = ?"@,
    ) + clause_if(f.has_min_confidence, " AND confidence >= ?"@) + clause_if(
        f.owner is Some,
        " AND owner = ?"@,
    ) + clause_if(f.status is Some, " AND status = ?"@) + repeat(" AND tags LIKE ?"@, f.tags@.len())
        + " ORDER BY confidence DESC, created_at DESC"@ + clause_if(f.limit is Some, " LIMIT ?"@)
        + clause_if(f.offset is Some, " OFFSET ?"@)
}

/// The text value of an optional filter, as a bound value.
pub open spec fn text_arg(o: Option<String>) -> Seq<SqlArgV> {
    match o {
        Some(s) => seq![SqlArgV::Text(s@)],
        None => Seq::empty(),
    }
}

/// The integer value of an optional count, as a bound value.
pub open spec fn int_arg(o: Option<usize>) -> Seq<SqlArgV> {
    match o {
        Some(n) => seq![SqlArgV::Int(n as i64)],
        None => Seq::empty(),
    }
}

/// The pattern that finds a tag in the stored JSON list of tags.
pub open spec fn tag_pattern(t: Seq<char>) -> Seq<char> {
    seq!['%'] + t + seq!['%']
}

/// The values bound to the `?`s of a filter's query, in order.
pub open spec fn query_args(f: QueryFilter) -> Seq<SqlArgV> {
    text_arg(f.scope) + text_arg(f.category) + (if f.has_min_confidence {
        seq![SqlArgV::MinConfidence]
    } else {
        Seq::empty()
    }) + text_arg(f.owner) + text_arg(f.status) + f.tags@.map_values(
        |t: String| SqlArgV::Text(tag_pattern(t@)),
    ) + int_arg(f.limit) + int_arg(f.offset)
}

fn push_text_arg(sql: &mut Vec<char>, args: &mut Vec<SqlArg>, o: &Option<String>, clause: &str)
    ensures
        final(sql)@ == old(sql)@ + clause_if(*o is Some, clause@),
        final(args)@.map_values(|a: SqlArg| sql_arg_view(a)) == old(args)@.map_values(
            |a: SqlArg| sql_arg_view(a),
        ) + text_arg(*o),
{
    let ghost a0 = args@.map_values(|a: SqlArg| sql_arg_view(a));
    match o {
        Some(s) => {
            push_str(sql, clause);
            args.push(SqlArg::Text(s.clone()));
            assert(args@.map_values(|a: SqlArg| sql_arg_view(a)) =~= a0 + text_arg(*o));
        },
        None => {
            assert(sql@ =~= old(sql)@ + clause_if(*o is Some, clause@));
            assert(args@.map_values(|a: SqlArg| sql_arg_view(a)) =~= a0 + text_arg(*o));
        },
    }
}

fn push_int_arg(sql: &mut Vec<char>, args: &mut Vec<SqlArg>, o: Option<usize>, clause: &str)
    ensures
        final(sql)@ == old(sql)@ + clause_if(o is Some, clause@),
        final(args)@.map_values(|a: SqlArg| sql_arg_view(a)) == old(args)@.map_values(
            |a: SqlArg| sql_arg_view(a),
        ) + int_arg(o),
{
    let ghost a0 = args@.map_values(|a: SqlArg| sql_arg_view(a));
    match o {
        Some(n) => {
            push_str(sql, clause);
            let v: i64 = #[verifier::truncate] (n as i64);
            args.push(SqlArg::Int(v));
            assert(args@.map_values(|a: SqlArg| sql_arg_view(a)) =~= a0 + int_arg(o));
        },
        None => {
            assert(sql@ =~= old(sql)@ + clause_if(o is Some, clause@));
            assert(args@.map_values(|a: SqlArg| sql_arg_view(a)) =~= a0 + int_arg(o));
        },
    }
}

/// The query of a memory filter: one `AND` clause for each filter that is set
/// (scope, category, minimum confidence, owner, status, then one `LIKE` per
/// tag), ordered by confidence and then creation time, newest first, with
/// `LIMIT` and `OFFSET` where set; and the values for its `?`s, in order.
pub fn build_memory_query(f: &QueryFilter) -> (r: (String, Vec<SqlArg>))
    ensures
        r.0@ == query_sql(*f),
        r.1@.map_values(|a: SqlArg| sql_arg_view(a)) == query_args(*f),
{
    let mut sql: Vec<char> = Vec::new();
    let mut args: Vec<SqlArg> = Vec::new();
    push_str(
        &mut sql,
        "SELECT id, scope, category, key, value, source, confidence, created_at, updated_at, version, status, tags, owner, access_level, provenance, expires_at
             FROM memory_entries WHERE 1=1",
    );
    assert(args@.map_values(|a: SqlArg| sql_arg_view(a)) =~= Seq::<SqlArgV>::empty());
    push_text_arg(&mut sql, &mut args, &f.scope, " AND scope = ?");
    push_text_arg(&mut sql, &mut args, &f.category, " AND category = ?");
    let ghost a1 = args@.map_values(|a: SqlArg| sql_arg_view(a));
    if f.has_min_confidence {
        push_str(&mut sql, " AND confidence >= ?");
        args.push(SqlArg::MinConfidence);
    }
    assert(args@.map_values(|a: SqlArg| sql_arg_view(a)) =~= a1 + (if f.has_min_confidence {
        seq![SqlArgV::MinConfidence]
    } else {
        Seq::empty()
    }));
    push_text_arg(&mut sql, &mut args, &f.owner, " AND owner = ?");
    push_text_arg(&mut sql, &mut args, &f.status, " AND status = ?");
    let ghost s2 = sql@;
    let ghost a2 = args@.map_values(|a: SqlArg| sql_arg_view(a));
    let mut i: usize = 0;
    while i < f.tags.len()
        invariant
            i <= f.tags@.len(),
            sql@ == s2 + repeat(" AND tags LIKE ?"@, i as nat),
            args@.map_values(|a: SqlArg| sql_arg_view(a)) == a2 + f.tags@.subrange(0, i as int).map_values(
                |t: String| SqlArgV::Text(tag_pattern(t@)),
            ),
        decreases f.tags.len() - i,
    {
        push_str(&mut sql, " AND tags LIKE ?");
        let mut p: Vec<char> = Vec::new();
        p.push('%');
        push_str(&mut p, f.tags[i].as_str());
        p.push('%');
        assert(p@ =~= tag_pattern(f.tags@[i as int]@));
        let ghost av = args@.map_values(|a: SqlArg| sql_arg_view(a));
        args.push(SqlArg::Text(string_of(&p)));
        assert(args@.map_values(|a: SqlArg| sql_arg_view(a)) =~= av.push(SqlArgV::Text(tag_pattern(f.tags@[i as int]@))));
        assert(f.tags@.subrange(0, i + 1).map_values(|t: String| SqlArgV::Text(tag_pattern(t@)))
            =~= f.tags@.subrange(0, i as int).map_values(|t: String| SqlArgV::Text(tag_pattern(t@))).push(
            SqlArgV::Text(tag_pattern(f.tags@[i as int]@)),
        ));
        assert(args@.map_values(|a: SqlArg| sql_arg_view(a)) =~= a2 + f.tags@.subrange(0, i + 1).map_values(
            |t: String| SqlArgV::Text(tag_pattern(t@)),
        ));
        assert(sql@ =~= s2 + repeat(" AND tags LIKE ?"@, (i + 1) as nat));
        i = i + 1;
    }
    assert(f.tags@.subrange(0, f.tags@.len() as int) =~= f.tags@);
    push_str(&mut sql, " ORDER BY confidence DESC, created_at DESC");
    push_int_arg(&mut sql, &mut args, f.limit, " LIMIT ?");
    push_int_arg(&mut sql, &mut args, f.offset, " OFFSET ?");
    assert(sql@ =~= query_sql(*f));
    assert(args@.map_values(|a: SqlArg| sql_arg_view(a)) =~= query_args(*f));
    (string_of(&sql), args)
}

} // verus!
