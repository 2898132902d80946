use vstd::prelude::*;
use crate::memory::clause_if;
use crate::text::{push_str, string_of};

verus! {

pub open spec fn entries_query_head() -> Seq<char> {
    "SELECT id, scope, category, key, value, tags, owner FROM memory_entries WHERE status = 'active'"@
}

/// The query text for active memory entries of a scope, a category and a
/// tag, each only where given.
pub open spec fn entries_query_sql(scope: bool, category: bool, tag: bool) -> Seq<char> {
    entries_query_head() + clause_if(scope, " AND scope = ?"@) + clause_if(category, " AND category = ?"@)
        + clause_if(tag, " AND EXISTS (SELECT 1 FROM json_each(tags) WHERE json_each.value = ?)"@)
}

/// The given filters, in order, as the values of the query's `?`s.
pub open spec fn entries_query_args(scope: Option<Seq<char>>, category: Option<Seq<char>>, tag: Option<Seq<char>>) -> Seq<
    Seq<char>,
> {
    (match scope {
        Some(s) => seq![s],
        None => Seq::empty(),
    }) + (match category {
        Some(c) => seq![c],
        None => Seq::empty(),
    }) + (match tag {
        Some(t) => seq![t],
        None => Seq::empty(),
    })
}

pub open spec fn opt_str(o: Option<&str>) -> Option<Seq<char>> {
    match o {
        Some(s) => Some(s@),
        None => None,
    }
}

fn push_filter(sql: &mut Vec<char>, args: &mut Vec<String>, value: Option<&str>, clause: &str)
    ensures
        final(sql)@ == old(sql)@ + clause_if(value is Some, clause@),
        final(args)@.map_values(|a: String| a@) == old(args)@.map_values(|a: String| a@) + match value {
            Some(v) => seq![v@],
            None => Seq::<Seq<char>>::empty(),
        },
{
    let ghost a0 = args@.map_values(|a: String| a@);
    match value {
        Some(v) => {
            push_str(sql, clause);
            args.push(v.to_string());
            assert(args@.map_values(|a: String| a@) =~= a0 + seq![v@]);
        },
        None => {
            assert(sql@ =~= old(sql)@ + clause_if(value is Some, clause@));
            assert(args@.map_values(|a: String| a@) =~= a0 + Seq::<Seq<char>>::empty());
        },
    }
}

/// The query for active memory entries, filtered by scope, category and tag
/// where given (a tag matches any element of the stored JSON list), and the
/// values for its `?`s, in order.
pub fn memory_entries_query(scope: Option<&str>, category: Option<&str>, tag: Option<&str>) -> (r: (
    String,
    Vec<String>,
))
    ensures
        r.0@ == entries_query_sql(scope is Some, category is Some, tag is Some),
        r.1@.map_values(|a: String| a@) == entries_query_args(opt_str(scope), opt_str(category), opt_str(tag)),
{
    let mut sql: Vec<char> = Vec::new();
    let mut args: Vec<String> = Vec::new();
    push_str(&mut sql, "SELECT id, scope, category, key, value, tags, owner FROM memory_entries WHERE status = 'active'");
    assert(args@.map_values(|a: String| a@) =~= Seq::<Seq<char>>::empty());
    push_filter(&mut sql, &mut args, scope, " AND scope = ?");
    push_filter(&mut sql, &mut args, category, " AND category = ?");
    push_filter(&mut sql, &mut args, tag, " AND EXISTS (SELECT 1 FROM json_each(tags) WHERE json_each.value = ?)");
    assert(sql@ =~= entries_query_sql(scope is Some, category is Some, tag is Some));
    assert(args@.map_values(|a: String| a@) =~= entries_query_args(opt_str(scope), opt_str(category), opt_str(tag)));
    (string_of(&sql), args)
}

} // verus!
