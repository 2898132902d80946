use vstd::prelude::*;
use crate::memory::{
    SqlArg, SqlArgV, category_name, category_of_name, clause_if, scope_name, scope_of_name,
    seconds_since_epoch, sql_arg_view, string_to_memory_category as core_category_of,
    string_to_memory_scope as core_scope_of, text_arg, timestamp_from_secs, with_number,
};
use crate::models::{MemoryCategory, MemoryScope, category_of_code, scope_of_code};
use crate::text::{decimal, push_decimal, push_str, signed_decimal, str_eq, string_of};

verus! {

/// What a memory entry is about, in the unified store.
#[derive(Debug, Clone, Copy, PartialEq, Eq, Structural)]
pub enum MemoryTopic {
    TopicLearn,
    TopicWork,
    TopicTool,
    TopicInterest,
    TopicProject,
    TopicIdentify,
    TopicIntest,
    TopicFm25,
}

/// The topic stored under a number, 0 to 7 in declaration order.
pub open spec fn topic_of_code(v: i32) -> Option<MemoryTopic> {
    if v == 0 {
        Some(MemoryTopic::TopicLearn)
    } else if v == 1 {
        Some(MemoryTopic::TopicWork)
    } else if v == 2 {
        Some(MemoryTopic::TopicTool)
    } else if v == 3 {
        Some(MemoryTopic::TopicInterest)
    } else if v == 4 {
        Some(MemoryTopic::TopicProject)
    } else if v == 5 {
        Some(MemoryTopic::TopicIdentify)
    } else if v == 6 {
        Some(MemoryTopic::TopicIntest)
    } else if v == 7 {
        Some(MemoryTopic::TopicFm25)
    } else {
        None
    }
}

/// The number a topic is stored under.
pub open spec fn topic_code(t: MemoryTopic) -> i32 {
    match t {
        MemoryTopic::TopicLearn => 0,
        MemoryTopic::TopicWork => 1,
        MemoryTopic::TopicTool => 2,
        MemoryTopic::TopicInterest => 3,
        MemoryTopic::TopicProject => 4,
        MemoryTopic::TopicIdentify => 5,
        MemoryTopic::TopicIntest => 6,
        MemoryTopic::TopicFm25 => 7,
    }
}

impl MemoryTopic {
    /// The topic stored under a number.
    pub fn from_code(v: i32) -> (r: Option<MemoryTopic>)
        ensures
            r == topic_of_code(v),
    {
        if v == 0 {
            Some(MemoryTopic::TopicLearn)
        } else if v == 1 {
            Some(MemoryTopic::TopicWork)
        } else if v == 2 {
            Some(MemoryTopic::TopicTool)
        } else if v == 3 {
            Some(MemoryTopic::TopicInterest)
        } else if v == 4 {
            Some(MemoryTopic::TopicProject)
        } else if v == 5 {
            Some(MemoryTopic::TopicIdentify)
        } else if v == 6 {
            Some(MemoryTopic::TopicIntest)
        } else if v == 7 {
            Some(MemoryTopic::TopicFm25)
        } else {
            None
        }
    }

    /// The number this topic is stored under.
    pub fn code(self) -> (r: i32)
        ensures
            r == topic_code(self),
    {
        match self {
            MemoryTopic::TopicLearn => 0,
            MemoryTopic::TopicWork => 1,
            MemoryTopic::TopicTool => 2,
            MemoryTopic::TopicInterest => 3,
            MemoryTopic::TopicProject => 4,
            MemoryTopic::TopicIdentify => 5,
            MemoryTopic::TopicIntest => 6,
            MemoryTopic::TopicFm25 => 7,
        }
    }
}

/// The name a topic is stored under.
pub open spec fn topic_name(t: MemoryTopic) -> Seq<char> {
    match t {
        MemoryTopic::TopicLearn => "LEARN"@,
        MemoryTopic::TopicWork => "WORK"@,
        MemoryTopic::TopicTool => "TOOL"@,
        MemoryTopic::TopicInterest => "INTEREST"@,
        MemoryTopic::TopicProject => "PROJECT"@,
        MemoryTopic::TopicIdentify => "IDENTIFY"@,
        MemoryTopic::TopicIntest => "INTEST"@,
        MemoryTopic::TopicFm25 => "FM25"@,
    }
}

/// The topic a name stands for.
pub open spec fn topic_of_name(n: Seq<char>) -> Option<MemoryTopic> {
    if n == "LEARN"@ {
        Some(MemoryTopic::TopicLearn)
    } else if n == "WORK"@ {
        Some(MemoryTopic::TopicWork)
    } else if n == "TOOL"@ {
        Some(MemoryTopic::TopicTool)
    } else if n == "INTEREST"@ {
        Some(MemoryTopic::TopicInterest)
    } else if n == "PROJECT"@ {
        Some(MemoryTopic::TopicProject)
    } else if n == "IDENTIFY"@ {
        Some(MemoryTopic::TopicIdentify)
    } else if n == "INTEST"@ {
        Some(MemoryTopic::TopicIntest)
    } else if n == "FM25"@ {
        Some(MemoryTopic::TopicFm25)
    } else {
        None
    }
}

/// The current Unix time in seconds, or why the clock could not be read.
pub fn current_timestamp() -> (r: Result<i64, String>)
    ensures
        r matches Err(e) ==> e@ == "Time went backwards"@,
{
    match seconds_since_epoch() {
        Ok(s) => Ok(timestamp_from_secs(s)),
        Err(_) => Err("Time went backwards".to_string()),
    }
}

/// The name of the scope stored under `scope`, or an error for a number that
/// names none.
pub fn scope_to_string(scope: i32) -> (r: Result<String, String>)
    ensures
        match scope_of_code(scope) {
            Some(s) => r is Ok && r->Ok_0@ == scope_name(s),
            None => r is Err && r->Err_0@ == "Invalid Scope ID: "@ + signed_decimal(scope as int),
        },
{
    match MemoryScope::try_from(scope) {
        Ok(MemoryScope::ScopeGlobal) => Ok("global".to_string()),
        Ok(MemoryScope::ScopeProject) => Ok("project".to_string()),
        Ok(MemoryScope::ScopeSession) => Ok("session".to_string()),
        Ok(MemoryScope::ScopeWorking) => Ok("working".to_string()),
        Ok(MemoryScope::ScopePolicy) => Ok("policy".to_string()),
        Ok(MemoryScope::ScopeIdentity) => Ok("identity".to_string()),
        Err(_) => Err(with_number("Invalid Scope ID: ", scope)),
    }
}

/// The scope a stored name stands for.
pub fn string_to_scope(scope: &str) -> (r: Option<MemoryScope>)
    ensures
        r == scope_of_name(scope@),
{
    core_scope_of(scope)
}

/// The name of the category stored under `cat`, or an error for a number that
/// names none.
pub fn category_to_string(cat: i32) -> (r: Result<String, String>)
    ensures
        match category_of_code(cat) {
            Some(c) => r is Ok && r->Ok_0@ == category_name(c),
            None => r is Err && r->Err_0@ == "Invalid Category ID: "@ + signed_decimal(cat as int),
        },
{
    match MemoryCategory::try_from(cat) {
        Ok(MemoryCategory::CategoryFact) => Ok("fact".to_string()),
        Ok(MemoryCategory::CategoryPreference) => Ok("preference".to_string()),
        Ok(MemoryCategory::CategoryHistory) => Ok("history".to_string()),
        Ok(MemoryCategory::CategoryContext) => Ok("context".to_string()),
        Ok(MemoryCategory::CategoryInference) => Ok("inference".to_string()),
        Err(_) => Err(with_number("Invalid Category ID: ", cat)),
    }
}

/// The category a stored name stands for.
pub fn string_to_category(cat: &str) -> (r: Option<MemoryCategory>)
    ensures
        r == category_of_name(cat@),
{
    core_category_of(cat)
}

/// The name of the topic stored under `topic`, or an error for a number that
/// names none.
pub fn topic_to_string(topic: i32) -> (r: Result<String, String>)
    ensures
        match topic_of_code(topic) {
            Some(t) => r is Ok && r->Ok_0@ == topic_name(t),
            None => r is Err && r->Err_0@ == "Invalid Topic ID: "@ + signed_decimal(topic as int),
        },
{
    match MemoryTopic::from_code(topic) {
        Some(MemoryTopic::TopicLearn) => Ok("LEARN".to_string()),
        Some(MemoryTopic::TopicWork) => Ok("WORK".to_string()),
        Some(MemoryTopic::TopicTool) => Ok("TOOL".to_string()),
        Some(MemoryTopic::TopicInterest) => Ok("INTEREST".to_string()),
        Some(MemoryTopic::TopicProject) => Ok("PROJECT".to_string()),
        Some(MemoryTopic::TopicIdentify) => Ok("IDENTIFY".to_string()),
        Some(MemoryTopic::TopicIntest) => Ok("INTEST".to_string()),
        Some(MemoryTopic::TopicFm25) => Ok("FM25".to_string()),
        None => Err(with_number("Invalid Topic ID: ", topic)),
    }
}

/// The topic a stored name stands for.
pub fn string_to_topic(topic: &str) -> (r: Option<MemoryTopic>)
    ensures
        r == topic_of_name(topic@),
{
    if str_eq(topic, "LEARN") {
        Some(MemoryTopic::TopicLearn)
    } else if str_eq(topic, "WORK") {
        Some(MemoryTopic::TopicWork)
    } else if str_eq(topic, "TOOL") {
        Some(MemoryTopic::TopicTool)
    } else if str_eq(topic, "INTEREST") {
        Some(MemoryTopic::TopicInterest)
    } else if str_eq(topic, "PROJECT") {
        Some(MemoryTopic::TopicProject)
    } else if str_eq(topic, "IDENTIFY") {
        Some(MemoryTopic::TopicIdentify)
    } else if str_eq(topic, "INTEST") {
        Some(MemoryTopic::TopicIntest)
    } else if str_eq(topic, "FM25") {
        Some(MemoryTopic::TopicFm25)
    } else {
        None
    }
}

/// The scope a stored name stands for (the older name of `string_to_scope`).
pub fn string_to_memory_scope(s: &str) -> (r: Option<MemoryScope>)
    ensures
        r == scope_of_name(s@),
{
    string_to_scope(s)
}

/// The category a stored name stands for (the older name of
/// `string_to_category`).
pub fn string_to_memory_category(s: &str) -> (r: Option<MemoryCategory>)
    ensures
        r == category_of_name(s@),
{
    string_to_category(s)
}

/// The law of the stored topic names: every topic's name reads back as that
/// topic, and every name that stands for a topic is that topic's name.
pub proof fn lemma_topic_name_round_trip(t: MemoryTopic, n: Seq<char>)
    ensures
        topic_of_name(topic_name(t)) == Some(t),
        topic_of_name(n) matches Some(u) ==> topic_name(u) == n,
{
    reveal_strlit("LEARN");
    reveal_strlit("WORK");
    reveal_strlit("TOOL");
    reveal_strlit("INTEREST");
    reveal_strlit("PROJECT");
    reveal_strlit("IDENTIFY");
    reveal_strlit("INTEST");
    reveal_strlit("FM25");
    assert("LEARN"@[0] == 'L');
    assert("WORK"@[0] == 'W');
    assert("TOOL"@[0] == 'T');
    assert("INTEREST"@[0] == 'I');
    assert("PROJECT"@[0] == 'P');
    assert("IDENTIFY"@[0] == 'I');
    assert("INTEST"@[0] == 'I');
    assert("FM25"@[0] == 'F');
    assert("INTEREST"@[1] == 'N');
    assert("IDENTIFY"@[1] == 'D');
    assert("INTEST"@[1] == 'N');
    assert("INTEREST"@.len() == 8);
    assert("INTEST"@.len() == 6);
}

/// The law of the stored topic numbers.
pub proof fn lemma_topic_code_round_trip(t: MemoryTopic, v: i32)
    ensures
        topic_of_code(topic_code(t)) == Some(t),
        topic_of_code(v) matches Some(u) ==> topic_code(u) == v,
{
}

/// The policy on writes of the unified store: an identity entry cannot be
/// written; every other scope can.
pub fn check_insert_scope(scope: i32) -> (r: Result<(), String>)
    ensures
        r is Err <==> scope == 5,
        r matches Err(e) ==> e@ == "Security Violation: Identity memory is immutable after creation"@,
{
    if scope == MemoryScope::ScopeIdentity.code() {
        Err("Security Violation: Identity memory is immutable after creation".to_string())
    } else {
        Ok(())
    }
}

/// The filters of a query of the unified store, with the minimum confidence
/// only marked as present: the caller binds its value.
pub struct QueryFilter {
    pub scope: Option<String>,
    pub category: Option<String>,
    pub topic: Option<String>,
    pub has_min_confidence: bool,
    pub owner: Option<String>,
    pub limit: Option<usize>,
}

pub open spec fn query_head() -> Seq<char> {
    "SELECT id, scope, category, topic, key, value, source, confidence, created_at, updated_at, version, status, tags, owner, access_level, provenance, expires_at
             FROM memory_entries WHERE status = 'active'"@
}

/// The query text of a filter: active entries only, the limit written into
/// the text.
pub open spec fn query_sql(f: QueryFilter) -> Seq<char> {
    query_head() + clause_if(f.scope is Some, " AND scope = ?"@) + clause_if(
        f.category is Some,
        " AND category = ?"@,
    ) + clause_if(f.topic is Some, " AND topic = ?"@) + clause_if(
        f.has_min_confidence,
        " AND confidence >= ?"@,
    ) + clause_if(f.owner is Some, " AND owner = ?"@) + " ORDER BY confidence DESC, updated_at DESC"@
        + match f.limit {
        Some(n) => " LIMIT "@ + decimal(n as nat),
        None => Seq::empty(),
    }
}

/// The values bound to the `?`s of a filter's query, in order.
pub open spec fn query_args(f: QueryFilter) -> Seq<SqlArgV> {
    text_arg(f.scope) + text_arg(f.category) + text_arg(f.topic) + (if f.has_min_confidence {
        seq![SqlArgV::MinConfidence]
    } else {
        Seq::empty()
    }) + text_arg(f.owner)
}

fn push_clause(sql: &mut Vec<char>, args: &mut Vec<SqlArg>, o: &Option<String>, clause: &str)
    ensures
        final(sql)@ == old(sql)@ + clause_if(*o is Some, clause@),
        final(args)@.map_values(|a: SqlArg| sql_arg_view(a)) == old(args)@.map_values(
            |a: SqlArg| sql_arg_view(a),
        ) + text_arg(*o),
{
    let ghost a0 = args@.map_values(|a: SqlArg| sql_arg_view(a));
    match o {
        Some(s) => {
            push_str(sql, clause);
            args.push(SqlArg::Text(s.clone()));
            assert(args@.map_values(|a: SqlArg| sql_arg_view(a)) =~= a0 + text_arg(*o));
        },
        None => {
            assert(sql@ =~= old(sql)@ + clause_if(*o is Some, clause@));
            assert(args@.map_values(|a: SqlArg| sql_arg_view(a)) =~= a0 + text_arg(*o));
        },
    }
}

/// The query of a filter of the unified store: active entries, one `AND`
/// clause per filter that is set (scope, category, topic, minimum confidence,
/// owner), ordered by confidence and then update time, newest first, with the
/// limit written in; and the values for its `?`s, in order.
pub fn build_memory_query(f: &QueryFilter) -> (r: (String, Vec<SqlArg>))
    ensures
        r.0@ == query_sql(*f),
        r.1@.map_values(|a: SqlArg| sql_arg_view(a)) == query_args(*f),
{
    let mut sql: Vec<char> = Vec::new();
    let mut args: Vec<SqlArg> = Vec::new();
    push_str(
        &mut sql,
        "SELECT id, scope, category, topic, key, value, source, confidence, created_at, updated_at, version, status, tags, owner, access_level, provenance, expires_at
             FROM memory_entries WHERE status = 'active'",
    );
    assert(args@.map_values(|a: SqlArg| sql_arg_view(a)) =~= Seq::<SqlArgV>::empty());
    push_clause(&mut sql, &mut args, &f.scope, " AND scope = ?");
    push_clause(&mut sql, &mut args, &f.category, " AND category = ?");
    push_clause(&mut sql, &mut args, &f.topic, " AND topic = ?");
    let ghost a1 = args@.map_values(|a: SqlArg| sql_arg_view(a));
    if f.has_min_confidence {
        push_str(&mut sql, " AND confidence >= ?");
        args.push(SqlArg::MinConfidence);
    }
    assert(args@.map_values(|a: SqlArg| sql_arg_view(a)) =~= a1 + (if f.has_min_confidence {
        seq![SqlArgV::MinConfidence]
    } else {
        Seq::empty()
    }));
    push_clause(&mut sql, &mut args, &f.owner, " AND owner = ?");
    push_str(&mut sql, " ORDER BY confidence DESC, updated_at DESC");
    let ghost s2 = sql@;
    match f.limit {
        Some(n) => {
            push_str(&mut sql, " LIMIT ");
            push_decimal(&mut sql, n as u64);
        },
        None => {},
    }
    assert(sql@ =~= query_sql(*f));
    assert(args@.map_values(|a: SqlArg| sql_arg_view(a)) =~= query_args(*f));
    (string_of(&sql), args)
}

} // verus!
