use vstd::prelude::*;
use crate::text::{contains, find_from, trim, starts_with, replace_all, decimal, is_ws, lowercase, uppercase, occurs_at, chars_of, str_eq, push_range, push_str, string_of_range, string_of, trim_bounds, is_whitespace, occurs_at_exec, find_from_exec, lemma_find_from, replace_all_exec, push_decimal};
use crate::json::{Json, JsonV, json_view, json_parse, json_text, as_array_spec, parse_json, compact_json, lemma_object_view};

verus! {

broadcast use vstd::string::group_string_axioms;

// ---------------------------------------------------------------------------
// Render context
// ---------------------------------------------------------------------------

/// The variables of a pair list, later pairs overriding earlier ones.
pub open spec fn pairs_map(s: Seq<(Seq<char>, Seq<char>)>) -> Map<Seq<char>, Seq<char>>
    decreases s.len(),
{
    if s.len() == 0 {
        Map::empty()
    } else {
        pairs_map(s.drop_last()).insert(s.last().0, s.last().1)
    }
}

/// Variables available to a template, by name.
#[derive(Clone, Debug)]
pub struct RenderContext {
    variables: Vec<(String, String)>,
}

pub open spec fn string_pair_view(p: (String, String)) -> (Seq<char>, Seq<char>) {
    (p.0@, p.1@)
}

impl View for RenderContext {
    type V = Map<Seq<char>, Seq<char>>;

    closed spec fn view(&self) -> Map<Seq<char>, Seq<char>> {
        pairs_map(self.variables@.map_values(|p: (String, String)| string_pair_view(p)))
    }
}

proof fn lemma_pairs_map_push(s: Seq<(Seq<char>, Seq<char>)>, x: (Seq<char>, Seq<char>))
    ensures
        pairs_map(s.push(x)) == pairs_map(s).insert(x.0, x.1),
{
    assert(s.push(x).drop_last() =~= s);
}

/// Looking a key up from the end of the pairs finds what the map holds.
proof fn lemma_pairs_map_tail(s: Seq<(Seq<char>, Seq<char>)>, n: int, k: Seq<char>)
    requires
        0 <= n <= s.len(),
        forall|i: int| n <= i < s.len() ==> s[i].0 != k,
    ensures
        pairs_map(s).contains_key(k) == pairs_map(s.subrange(0, n)).contains_key(k),
        pairs_map(s).contains_key(k) ==> pairs_map(s)[k] == pairs_map(s.subrange(0, n))[k],
    decreases s.len() - n,
{
    if n < s.len() {
        lemma_pairs_map_tail(s.drop_last(), n, k);
        assert(s.drop_last().subrange(0, n) =~= s.subrange(0, n));
    } else {
        assert(s.subrange(0, n) =~= s);
    }
}

impl RenderContext {
    /// An empty context.
    pub fn new() -> (r: Self)
        ensures
            r@ == Map::<Seq<char>, Seq<char>>::empty(),
    {
        let r = RenderContext { variables: Vec::new() };
        assert(r.variables@.map_values(|p: (String, String)| string_pair_view(p)) =~= Seq::empty());
        r
    }

    /// The context with `key` set to `value`.
    pub fn with_var(self, key: &str, value: &str) -> (r: Self)
        ensures
            r@ == self@.insert(key@, value@),
    {
        let mut vars = self.variables;
        let ghost old_vars = vars@;
        vars.push((key.to_string(), value.to_string()));
        proof {
            let f = |p: (String, String)| string_pair_view(p);
            assert(vars@.map_values(f) =~= old_vars.map_values(f).push((key@, value@)));
            lemma_pairs_map_push(old_vars.map_values(f), (key@, value@));
        }
        RenderContext { variables: vars }
    }

    /// The context with every pair of `vars` set, in order.
    pub fn with_vars(self, vars: &[(&str, &str)]) -> (r: Self)
        ensures
            r@ == fold_pairs(self@, vars@.map_values(|p: (&str, &str)| (p.0@, p.1@))),
    {
        let mut ctx = self;
        let ghost pv = vars@.map_values(|p: (&str, &str)| (p.0@, p.1@));
        let mut i: usize = 0;
        while i < vars.len()
            invariant
                i <= vars@.len(),
                pv == vars@.map_values(|p: (&str, &str)| (p.0@, p.1@)),
                ctx@ == fold_pairs(self@, pv.subrange(0, i as int)),
            decreases vars.len() - i,
        {
            let (k, v) = vars[i];
            ctx = ctx.with_var(k, v);
            assert(pv.subrange(0, i + 1).drop_last() =~= pv.subrange(0, i as int));
            i = i + 1;
        }
        assert(pv.subrange(0, vars@.len() as int) =~= pv);
        ctx
    }

    /// The value of `key`, if it is set.
    pub fn get(&self, key: &str) -> (r: Option<&str>)
        ensures
            match r {
                Some(v) => self@.contains_key(key@) && self@[key@] == v@,
                None => !self@.contains_key(key@),
            },
    {
        let ghost pv = self.variables@.map_values(|p: (String, String)| string_pair_view(p));
        let mut n = self.variables.len();
        while n > 0
            invariant
                n <= self.variables@.len(),
                pv == self.variables@.map_values(|p: (String, String)| string_pair_view(p)),
                forall|i: int| n <= i < pv.len() ==> pv[i].0 != key@,
            decreases n,
        {
            if str_eq(self.variables[n - 1].0.as_str(), key) {
                proof {
                    lemma_pairs_map_tail(pv, n as int, key@);
                    assert(pv.subrange(0, n as int).drop_last() =~= pv.subrange(0, n - 1));
                }
                return Some(self.variables[n - 1].1.as_str());
            }
            n = n - 1;
        }
        proof {
            lemma_pairs_map_tail(pv, 0, key@);
        }
        None
    }
}

/// `base` with the pairs set in order.
pub open spec fn fold_pairs(base: Map<Seq<char>, Seq<char>>, s: Seq<(Seq<char>, Seq<char>)>) -> Map<
    Seq<char>,
    Seq<char>,
>
    decreases s.len(),
{
    if s.len() == 0 {
        base
    } else {
        fold_pairs(base, s.drop_last()).insert(s.last().0, s.last().1)
    }
}

// ---------------------------------------------------------------------------
// The rendering semantics
// ---------------------------------------------------------------------------

/// How deep blocks may nest (each optional block, each `each` item and each
/// nested render is one level).
pub const MAX_DEPTH: usize = 128;

pub open spec fn too_deep() -> Seq<char> {
    "template nesting too deep"@
}

pub open spec fn pat_open() -> Seq<char> {
    seq!['{', '{', '#']
}

pub open spec fn pat_close() -> Seq<char> {
    seq!['{', '{', '/']
}

pub open spec fn pat_opt() -> Seq<char> {
    seq!['{', '{', '?']
}

pub open spec fn pat_lbraces() -> Seq<char> {
    seq!['{', '{']
}

pub open spec fn pat_rbraces() -> Seq<char> {
    seq!['}', '}']
}

pub open spec fn pat_index() -> Seq<char> {
    seq!['{', '{', 'i', 'n', 'd', 'e', 'x', '}', '}']
}

pub open spec fn pat_each_sp() -> Seq<char> {
    seq!['e', 'a', 'c', 'h', ' ']
}

pub open spec fn word_each() -> Seq<char> {
    seq!['e', 'a', 'c', 'h']
}

/// The first index at or after `i` that holds a '}', or the end of `t`.
pub open spec fn scan_brace(t: Seq<char>, i: int) -> int
    decreases t.len() - i,
{
    if 0 <= i < t.len() && t[i] != '}' {
        scan_brace(t, i + 1)
    } else {
        i
    }
}

/// `{{/name}}` closes at `q`: the end of that closing tag.
pub open spec fn close_tag_end(t: Seq<char>, q: int) -> Option<int> {
    let r = scan_brace(t, q + 3);
    if occurs_at(t, pat_close(), q) && occurs_at(t, pat_rbraces(), r) {
        Some(r + 2)
    } else {
        None
    }
}

/// The first closing tag at or after `q`: (its start, its end).
pub open spec fn first_close(t: Seq<char>, q: int) -> Option<(int, int)>
    decreases t.len() - q,
{
    if q < 0 || q >= t.len() {
        None
    } else {
        match close_tag_end(t, q) {
            Some(e) => Some((q, e)),
            None => first_close(t, q + 1),
        }
    }
}

/// An optional block `{{?key}}body{{/...}}` that begins at `s`:
/// (end of key, start of body, end of body, end of block).
pub open spec fn opt_block_at(t: Seq<char>, s: int) -> Option<(int, int, int, int)> {
    let ke = scan_brace(t, s + 3);
    if occurs_at(t, pat_opt(), s) && ke > s + 3 && occurs_at(t, pat_rbraces(), ke) {
        match first_close(t, ke + 2) {
            Some((be, ce)) => Some((ke, ke + 2, be, ce)),
            None => None,
        }
    } else {
        None
    }
}

/// The first optional block that begins at or after `p`, with its start.
pub open spec fn find_opt(t: Seq<char>, p: int) -> Option<(int, (int, int, int, int))>
    decreases t.len() - p,
{
    if p < 0 || p >= t.len() {
        None
    } else {
        match opt_block_at(t, p) {
            Some(m) => Some((p, m)),
            None => find_opt(t, p + 1),
        }
    }
}

/// Prefixes an `Ok` text with `a`.
pub open spec fn rcat(a: Seq<char>, r: Result<Seq<char>, Seq<char>>) -> Result<Seq<char>, Seq<char>> {
    match r {
        Ok(x) => Ok(a + x),
        Err(e) => Err(e),
    }
}

pub proof fn lemma_rcat_assoc(a: Seq<char>, b: Seq<char>, x: Result<Seq<char>, Seq<char>>)
    ensures
        rcat(a, rcat(b, x)) == rcat(a + b, x),
{
    match x {
        Ok(y) => {
            assert(a + (b + y) =~= (a + b) + y);
        },
        Err(_) => {},
    }
}

/// The first index at or after `i` holding white space, or the end.
pub open spec fn ws_index(t: Seq<char>, i: int) -> int
    decreases t.len() - i,
{
    if 0 <= i < t.len() && !is_ws(t[i]) {
        ws_index(t, i + 1)
    } else {
        i
    }
}

/// The first index at or after `i` holding something other than white space, or the end.
pub open spec fn non_ws_index(t: Seq<char>, i: int) -> int
    decreases t.len() - i,
{
    if 0 <= i < t.len() && is_ws(t[i]) {
        non_ws_index(t, i + 1)
    } else {
        i
    }
}

/// A placeholder `{{token}}` that begins at `s` (its third character is not
/// '?', '#' or '/'): the end of the token.
pub open spec fn placeholder_at(t: Seq<char>, s: int) -> Option<int> {
    let r = scan_brace(t, s + 3);
    if occurs_at(t, pat_lbraces(), s) && s + 2 < t.len() && t[s + 2] != '?' && t[s + 2] != '#' && t[s + 2]
        != '/' && occurs_at(t, pat_rbraces(), r) {
        Some(r)
    } else {
        None
    }
}

/// The first placeholder at or after `p`: (its start, the end of its token).
pub open spec fn find_placeholder(t: Seq<char>, p: int) -> Option<(int, int)>
    decreases t.len() - p,
{
    if p < 0 || p >= t.len() {
        None
    } else {
        match placeholder_at(t, p) {
            Some(r) => Some((p, r)),
            None => find_placeholder(t, p + 1),
        }
    }
}

pub open spec fn quoted(v: Seq<char>) -> Seq<char> {
    "'"@ + v + "'"@
}

/// The value of a placeholder token: a helper call `uppercase x`,
/// `lowercase x` or `trim x`, or a variable.
pub open spec fn placeholder_value(token: Seq<char>, ctx: Map<Seq<char>, Seq<char>>) -> Result<
    Seq<char>,
    Seq<char>,
> {
    let a0 = non_ws_index(token, 0);
    let a1 = ws_index(token, a0);
    let b0 = non_ws_index(token, a1);
    let b1 = ws_index(token, b0);
    let helper = token.subrange(a0, a1);
    let key = token.subrange(b0, b1);
    if a0 < token.len() && b0 < token.len() && (helper == "uppercase"@ || helper == "lowercase"@
        || helper == "trim"@) {
        if ctx.contains_key(key) {
            let base = ctx[key];
            if helper == "uppercase"@ {
                Ok(uppercase(base))
            } else if helper == "lowercase"@ {
                Ok(lowercase(base))
            } else {
                Ok(trim(base))
            }
        } else {
            Err("Missing variable for helper "@ + quoted(helper) + ": "@ + quoted(key))
        }
    } else if ctx.contains_key(token) {
        Ok(ctx[token])
    } else {
        Err("Missing required variable: "@ + quoted(token))
    }
}

proof fn lemma_ws_index_run(t: Seq<char>, i: int, j: int)
    requires
        0 <= i <= j <= t.len(),
        forall|m: int| i <= m < j ==> !is_ws(#[trigger] t[m]),
        j == t.len() || is_ws(t[j]),
    ensures
        ws_index(t, i) == j,
    decreases j - i,
{
    if i < j {
        lemma_ws_index_run(t, i + 1, j);
    }
}

proof fn lemma_helper_token(h: Seq<char>, k: Seq<char>, ctx: Map<Seq<char>, Seq<char>>)
    requires
        h.len() > 0,
        forall|m: int| 0 <= m < h.len() ==> !is_ws(#[trigger] h[m]),
        h == "uppercase"@ || h == "lowercase"@ || h == "trim"@,
        k.len() > 0,
        forall|m: int| 0 <= m < k.len() ==> !is_ws(#[trigger] k[m]),
    ensures
        placeholder_value(h + seq![' '] + k, ctx) == if ctx.contains_key(k) {
            if h == "uppercase"@ {
                Ok::<Seq<char>, Seq<char>>(uppercase(ctx[k]))
            } else if h == "lowercase"@ {
                Ok::<Seq<char>, Seq<char>>(lowercase(ctx[k]))
            } else {
                Ok::<Seq<char>, Seq<char>>(trim(ctx[k]))
            }
        } else {
            Err::<Seq<char>, Seq<char>>("Missing variable for helper "@ + quoted(h) + ": "@ + quoted(k))
        },
{
    let t = h + seq![' '] + k;
    let n = h.len() as int;
    assert(t[0] == h[0]);
    assert(non_ws_index(t, 0) == 0);
    assert(t[n] == ' ');
    assert(is_ws(' '));
    assert forall|m: int| 0 <= m < n implies !is_ws(#[trigger] t[m]) by {
        assert(t[m] == h[m]);
    }
    lemma_ws_index_run(t, 0, n);
    assert(t[n + 1] == k[0]);
    assert(non_ws_index(t, n + 1) == n + 1);
    assert(non_ws_index(t, n) == n + 1);
    assert forall|m: int| n + 1 <= m < t.len() implies !is_ws(#[trigger] t[m]) by {
        assert(t[m] == k[m - n - 1]);
    }
    lemma_ws_index_run(t, n + 1, t.len() as int);
    assert(t.subrange(0, n) =~= h);
    assert(t.subrange(n + 1, t.len() as int) =~= k);
}

/// The law of helpers: `{{uppercase k}}`, `{{lowercase k}}` and `{{trim k}}`
/// give the value of the variable `k` in upper case, in lower case and
/// trimmed; where `k` is not set, the error names the helper and the
/// variable.
pub proof fn lemma_helpers(k: Seq<char>, ctx: Map<Seq<char>, Seq<char>>)
    requires
        k.len() > 0,
        forall|m: int| 0 <= m < k.len() ==> !is_ws(#[trigger] k[m]),
    ensures
        placeholder_value("uppercase"@ + seq![' '] + k, ctx) == if ctx.contains_key(k) {
            Ok::<Seq<char>, Seq<char>>(uppercase(ctx[k]))
        } else {
            Err::<Seq<char>, Seq<char>>("Missing variable for helper 'uppercase': "@ + quoted(k))
        },
        placeholder_value("lowercase"@ + seq![' '] + k, ctx) == if ctx.contains_key(k) {
            Ok::<Seq<char>, Seq<char>>(lowercase(ctx[k]))
        } else {
            Err::<Seq<char>, Seq<char>>("Missing variable for helper 'lowercase': "@ + quoted(k))
        },
        placeholder_value("trim"@ + seq![' '] + k, ctx) == if ctx.contains_key(k) {
            Ok::<Seq<char>, Seq<char>>(trim(ctx[k]))
        } else {
            Err::<Seq<char>, Seq<char>>("Missing variable for helper 'trim': "@ + quoted(k))
        },
{
    reveal_strlit("uppercase");
    reveal_strlit("lowercase");
    reveal_strlit("trim");
    reveal_strlit("Missing variable for helper ");
    reveal_strlit(": ");
    reveal_strlit("'");
    reveal_strlit("Missing variable for helper 'uppercase': ");
    reveal_strlit("Missing variable for helper 'lowercase': ");
    reveal_strlit("Missing variable for helper 'trim': ");
    assert("uppercase"@[0] != "lowercase"@[0] && "uppercase"@[0] != "trim"@[0] && "lowercase"@[0] != "trim"@[0]);
    assert forall|m: int| 0 <= m < "uppercase"@.len() implies !is_ws(#[trigger] "uppercase"@[m]) by {}
    assert forall|m: int| 0 <= m < "lowercase"@.len() implies !is_ws(#[trigger] "lowercase"@[m]) by {}
    assert forall|m: int| 0 <= m < "trim"@.len() implies !is_ws(#[trigger] "trim"@[m]) by {}
    lemma_helper_token("uppercase"@, k, ctx);
    lemma_helper_token("lowercase"@, k, ctx);
    lemma_helper_token("trim"@, k, ctx);
    assert("Missing variable for helper "@ + quoted("uppercase"@) + ": "@ =~= "Missing variable for helper 'uppercase': "@);
    assert("Missing variable for helper "@ + quoted("lowercase"@) + ": "@ =~= "Missing variable for helper 'lowercase': "@);
    assert("Missing variable for helper "@ + quoted("trim"@) + ": "@ =~= "Missing variable for helper 'trim': "@);
}

/// Phase 3 from position `p`: every placeholder replaced by its value.
pub open spec fn fill_from(t: Seq<char>, p: int, ctx: Map<Seq<char>, Seq<char>>) -> Result<
    Seq<char>,
    Seq<char>,
>
    decreases t.len() - p,
{
    if p < 0 || p > t.len() {
        Ok(Seq::empty())
    } else {
        match find_placeholder(t, p) {
            None => Ok(t.subrange(p, t.len() as int)),
            Some((s, r)) => {
                if !(p <= s && s + 2 <= r && r + 2 <= t.len()) {
                    Ok(Seq::empty())
                } else {
                    match placeholder_value(trim(t.subrange(s + 2, r)), ctx) {
                        Err(e) => Err(e),
                        Ok(v) => rcat(t.subrange(p, s) + v, fill_from(t, r + 2, ctx)),
                    }
                }
            },
        }
    }
}

/// The variables that an `each` item offers: the members of an object item
/// (strings as they are, other values as JSON text) and `item`, the item's JSON text.
pub open spec fn item_members(entries: Seq<(Seq<char>, JsonV)>) -> Map<Seq<char>, Seq<char>>
    decreases entries.len(),
{
    if entries.len() == 0 {
        Map::empty()
    } else {
        let (k, v) = entries.last();
        item_members(entries.drop_last()).insert(
            k,
            match v {
                JsonV::Str(s) => s,
                _ => json_text(v),
            },
        )
    }
}

pub open spec fn item_context(item: JsonV) -> Map<Seq<char>, Seq<char>> {
    let base = match item {
        JsonV::Object(entries) => item_members(entries),
        _ => Map::empty(),
    };
    base.insert("item"@, json_text(item))
}

proof fn lemma_item_members_at(entries: Seq<(Seq<char>, JsonV)>, i: int)
    requires
        0 <= i < entries.len(),
        forall|j: int| i < j < entries.len() ==> entries[j].0 != entries[i].0,
    ensures
        item_members(entries).contains_key(entries[i].0),
        entries[i].1 matches JsonV::Str(s) ==> item_members(entries)[entries[i].0] == s,
        !(entries[i].1 is Str) ==> item_members(entries)[entries[i].0] == json_text(entries[i].1),
    decreases entries.len(),
{
    if i < entries.len() - 1 {
        let d = entries.drop_last();
        assert forall|j: int| i < j < d.len() implies d[j].0 != d[i].0 by {
            assert(d[j] == entries[j]);
        }
        lemma_item_members_at(d, i);
        assert(d[i] == entries[i]);
        assert(entries.last().0 != entries[i].0);
    }
}

proof fn lemma_item_members_keys(entries: Seq<(Seq<char>, JsonV)>, k: Seq<char>)
    ensures
        item_members(entries).contains_key(k) <==> exists|j: int| 0 <= j < entries.len() && entries[j].0 == k,
    decreases entries.len(),
{
    if entries.len() > 0 {
        let d = entries.drop_last();
        lemma_item_members_keys(d, k);
        if exists|j: int| 0 <= j < d.len() && d[j].0 == k {
            let j = choose|j: int| 0 <= j < d.len() && d[j].0 == k;
            assert(entries[j].0 == k);
        }
        if exists|j: int| 0 <= j < entries.len() && entries[j].0 == k {
            let j = choose|j: int| 0 <= j < entries.len() && entries[j].0 == k;
            if j < d.len() {
                assert(d[j].0 == k);
            }
        }
    }
}

/// The law of `each` items: inside an `each` block over an object item, the
/// variable of a member (of equal keys, the last) holds the member's text
/// where it is a string, and the compact JSON text of the value where it is a
/// number, a boolean, null, an array or an object; `item` holds the JSON text
/// of the whole item; no other variable is set.
pub proof fn lemma_item_context(entries: Seq<(Seq<char>, JsonV)>, i: int)
    requires
        0 <= i < entries.len(),
        entries[i].0 != "item"@,
        forall|j: int| i < j < entries.len() ==> entries[j].0 != entries[i].0,
    ensures
        item_context(JsonV::Object(entries)).contains_key(entries[i].0),
        entries[i].1 matches JsonV::Str(s) ==> item_context(JsonV::Object(entries))[entries[i].0] == s,
        !(entries[i].1 is Str) ==> item_context(JsonV::Object(entries))[entries[i].0] == json_text(
            entries[i].1,
        ),
        item_context(JsonV::Object(entries))["item"@] == json_text(JsonV::Object(entries)),
        forall|k: Seq<char>|
            #[trigger] item_context(JsonV::Object(entries)).contains_key(k) <==> (k == "item"@ || exists|j: int|
                0 <= j < entries.len() && entries[j].0 == k),
{
    lemma_item_members_at(entries, i);
    assert forall|k: Seq<char>|
        #[trigger] item_context(JsonV::Object(entries)).contains_key(k) <==> (k == "item"@ || exists|j: int|
            0 <= j < entries.len() && entries[j].0 == k) by {
        lemma_item_members_keys(entries, k);
    }
}

/// Of an item that is no object, only `item` is set: to its JSON text.
pub proof fn lemma_item_context_other(item: JsonV)
    requires
        !(item is Object),
    ensures
        item_context(item) == Map::<Seq<char>, Seq<char>>::empty().insert("item"@, json_text(item)),
{
}

/// A start tag `{{#...}}` that begins at `p`, or a closing tag `{{/...}}`:
/// the end of its name, if its "}}" is there.
pub open spec fn tag_name_end(t: Seq<char>, p: int) -> Option<int> {
    find_from(t, pat_rbraces(), p + 3)
}

/// The name that closes a block whose start tag holds `tok`.
pub open spec fn closing_name(tok: Seq<char>) -> Seq<char> {
    if starts_with(tok, pat_each_sp()) {
        word_each()
    } else {
        tok
    }
}

/// Looks for the tag that closes the block: `stack` holds the names that
/// still have to close, innermost last. The result is (end of body, end of
/// the closing tag).
pub open spec fn close_scan(t: Seq<char>, scan: int, stack: Seq<Seq<char>>) -> Option<(int, int)>
    decreases t.len() - scan,
{
    if scan < 0 || scan >= t.len() || stack.len() == 0 {
        None
    } else {
        let no = find_from(t, pat_open(), scan);
        let nc = find_from(t, pat_close(), scan);
        let next: Option<(int, bool)> = match (no, nc) {
            (Some(o), Some(c)) => if o < c {
                Some((o, true))
            } else {
                Some((c, false))
            },
            (Some(o), None) => Some((o, true)),
            (None, Some(c)) => Some((c, false)),
            (None, None) => None,
        };
        match next {
            None => None,
            Some((p, is_open)) => {
                if !(scan <= p && p + 3 <= t.len()) {
                    None
                } else {
                    match tag_name_end(t, p) {
                        None => close_scan(t, p + 3, stack),
                        Some(q) => {
                            if !(p + 3 <= q && q + 2 <= t.len()) {
                                None
                            } else {
                                let tok = trim(t.subrange(p + 3, q));
                                if is_open {
                                    close_scan(t, q + 2, stack.push(closing_name(tok)))
                                } else if stack.last() == tok {
                                    if stack.len() == 1 {
                                        Some((p, q + 2))
                                    } else {
                                        close_scan(t, q + 2, stack.drop_last())
                                    }
                                } else {
                                    close_scan(t, q + 2, stack)
                                }
                            }
                        },
                    }
                }
            },
        }
    }
}

/// The list variable that an `each` start tag holds.
pub open spec fn each_var(token: Seq<char>) -> Seq<char> {
    if starts_with(token, pat_each_sp()) {
        trim(token.skip(4))
    } else {
        token
    }
}

/// The text of `{{?key}}...{{/...}}` blocks rendered (when `key` is set) or
/// dropped, then `{{#list}}...{{/list}}` blocks repeated once per item,
/// then placeholders filled, `fuel` levels deep at most.
pub open spec fn render_spec(t: Seq<char>, ctx: Map<Seq<char>, Seq<char>>, fuel: nat) -> Result<
    Seq<char>,
    Seq<char>,
>
    decreases fuel, 0int, 0int,
{
    if fuel == 0 {
        Err(too_deep())
    } else {
        match opt_from(t, 0, ctx, (fuel - 1) as nat) {
            Err(e) => Err(e),
            Ok(o) => match each_from(o, 0, ctx, (fuel - 1) as nat) {
                Err(e) => Err(e),
                Ok(u) => fill_from(u, 0, ctx),
            },
        }
    }
}

/// Phase 1 from position `p`.
pub open spec fn opt_from(t: Seq<char>, p: int, ctx: Map<Seq<char>, Seq<char>>, fuel: nat) -> Result<
    Seq<char>,
    Seq<char>,
>
    decreases fuel, 1int, t.len() - p,
{
    if p < 0 || p > t.len() {
        Ok(Seq::empty())
    } else {
        match find_opt(t, p) {
            None => Ok(t.subrange(p, t.len() as int)),
            Some((s, (ke, bs, be, ce))) => {
                if !(p <= s && s + 3 <= ke && ke <= bs && bs <= be && be <= t.len() && p < ce && ce
                    <= t.len()) {
                    Ok(Seq::empty())
                } else {
                    let key = trim(t.subrange(s + 3, ke));
                    let pre = t.subrange(p, s);
                    if ctx.contains_key(key) {
                        match render_spec(t.subrange(bs, be), ctx, fuel) {
                            Err(e) => Err(e),
                            Ok(mid) => rcat(pre + mid, opt_from(t, ce, ctx, fuel)),
                        }
                    } else {
                        rcat(pre, opt_from(t, ce, ctx, fuel))
                    }
                }
            },
        }
    }
}

/// The bodies of an `each` block, rendered for the items from `idx` on.
pub open spec fn items_from(
    arr: Seq<JsonV>,
    idx: int,
    body: Seq<char>,
    fuel: nat,
) -> Result<Seq<char>, Seq<char>>
    decreases fuel, 1int, arr.len() - idx,
{
    if idx < 0 || idx >= arr.len() {
        Ok(Seq::empty())
    } else {
        let b2 = replace_all(body, pat_index(), decimal(idx as nat));
        match render_spec(b2, item_context(arr[idx]), fuel) {
            Err(e) => Err(e),
            Ok(r) => rcat(r, items_from(arr, idx + 1, body, fuel)),
        }
    }
}

/// Phase 2 from position `p`.
pub open spec fn each_from(u: Seq<char>, p: int, ctx: Map<Seq<char>, Seq<char>>, fuel: nat) -> Result<
    Seq<char>,
    Seq<char>,
>
    decreases fuel, 2int, u.len() - p,
{
    if p < 0 || p > u.len() {
        Ok(Seq::empty())
    } else {
        match find_from(u, pat_open(), p) {
            None => Ok(u.subrange(p, u.len() as int)),
            Some(a) => {
                if !(p <= a && a + 3 <= u.len()) {
                    Ok(Seq::empty())
                } else {
                    let pre = u.subrange(p, a);
                    match tag_name_end(u, a) {
                        None => rcat(pre, each_from(u, a + 3, ctx, fuel)),
                        Some(q) => {
                            if !(a + 3 <= q && q + 2 <= u.len()) {
                                Ok(Seq::empty())
                            } else {
                                let token = trim(u.subrange(a + 3, q));
                                let var = each_var(token);
                                match close_scan(u, q + 2, seq![closing_name(token)]) {
                                    None => rcat(pre, each_from(u, q + 2, ctx, fuel)),
                                    Some((be, ce)) => {
                                        if !(q + 2 <= be && be <= u.len() && p < ce && ce
                                            <= u.len()) {
                                            Ok(Seq::empty())
                                        } else if !ctx.contains_key(var) {
                                            Err("Missing list variable for each: "@ + quoted(var))
                                        } else {
                                            match json_parse(ctx[var]) {
                                                Err(e) => Err(
                                                    "Invalid JSON array for "@ + quoted(var) + ": "@
                                                        + e,
                                                ),
                                                Ok(items) => match as_array_spec(items) {
                                                    None => Err(quoted(var) + " must be a JSON array"@),
                                                    Some(arr) => match items_from(
                                                        arr,
                                                        0,
                                                        u.subrange(q + 2, be),
                                                        fuel,
                                                    ) {
                                                        Err(e) => Err(e),
                                                        Ok(r) => rcat(
                                                            pre + r,
                                                            each_from(u, ce, ctx, fuel),
                                                        ),
                                                    },
                                                },
                                            }
                                        }
                                    },
                                }
                            }
                        },
                    }
                }
            },
        }
    }
}

/// `{{` starts at `i` wherever one of the longer openings does.
proof fn lemma_opening_braces(t: Seq<char>, p: Seq<char>, i: int)
    requires
        p.len() >= 2,
        p[0] == '{',
        p[1] == '{',
        occurs_at(t, p, i),
    ensures
        occurs_at(t, pat_lbraces(), i),
{
    assert(t.subrange(i, i + p.len() as int)[0] == t[i]);
    assert(t.subrange(i, i + p.len() as int)[1] == t[i + 1]);
    assert(t.subrange(i, i + 2) =~= pat_lbraces());
}

proof fn lemma_no_opt_block(t: Seq<char>, p: int)
    requires
        !contains(t, pat_lbraces()),
    ensures
        find_opt(t, p) is None,
    decreases t.len() - p,
{
    if 0 <= p < t.len() {
        if occurs_at(t, pat_opt(), p) {
            lemma_opening_braces(t, pat_opt(), p);
            assert(contains(t, pat_lbraces()));
        }
        lemma_no_opt_block(t, p + 1);
    }
}

proof fn lemma_no_placeholder(t: Seq<char>, p: int)
    requires
        !contains(t, pat_lbraces()),
    ensures
        find_placeholder(t, p) is None,
    decreases t.len() - p,
{
    if 0 <= p < t.len() {
        if occurs_at(t, pat_lbraces(), p) {
            assert(contains(t, pat_lbraces()));
        }
        lemma_no_placeholder(t, p + 1);
    }
}

/// Each phase leaves a text without any `{{` as it is.
proof fn lemma_plain_phases(t: Seq<char>, ctx: Map<Seq<char>, Seq<char>>, fuel: nat)
    requires
        !contains(t, pat_lbraces()),
    ensures
        opt_from(t, 0, ctx, fuel) == Ok::<Seq<char>, Seq<char>>(t),
        each_from(t, 0, ctx, fuel) == Ok::<Seq<char>, Seq<char>>(t),
        fill_from(t, 0, ctx) == Ok::<Seq<char>, Seq<char>>(t),
{
    assert(t.subrange(0, t.len() as int) =~= t);
    lemma_no_opt_block(t, 0);
    lemma_find_from(t, pat_open(), 0);
    if find_from(t, pat_open(), 0) is Some {
        let a = find_from(t, pat_open(), 0)->Some_0;
        lemma_opening_braces(t, pat_open(), a);
        assert(contains(t, pat_lbraces()));
    }
    lemma_no_placeholder(t, 0);
}

/// The law of plain text: a template without any `{{` renders as itself,
/// whatever the variables.
pub proof fn lemma_render_plain_text(t: Seq<char>, ctx: Map<Seq<char>, Seq<char>>, fuel: nat)
    requires
        fuel > 0,
        !contains(t, pat_lbraces()),
    ensures
        render_spec(t, ctx, fuel) == Ok::<Seq<char>, Seq<char>>(t),
{
    lemma_plain_phases(t, ctx, (fuel - 1) as nat);
}

/// No '{' in a text.
pub open spec fn no_brace(s: Seq<char>) -> bool {
    forall|m: int| 0 <= m < s.len() ==> #[trigger] s[m] != '{'
}

/// The copies that an `each` body `a{{index}}b` makes for the items from
/// place `i` up to `n`: each with the item's place written in decimal.
pub open spec fn indexed_copies(a: Seq<char>, b: Seq<char>, i: nat, n: nat) -> Seq<char>
    decreases n - i,
{
    if i >= n {
        Seq::empty()
    } else {
        a + decimal(i) + b + indexed_copies(a, b, i + 1, n)
    }
}

/// `n` copies of a text, one after the other.
pub open spec fn copies(a: Seq<char>, n: nat) -> Seq<char>
    decreases n,
{
    if n == 0 {
        Seq::empty()
    } else {
        a + copies(a, (n - 1) as nat)
    }
}

proof fn lemma_no_brace_plain(s: Seq<char>)
    requires
        no_brace(s),
    ensures
        !contains(s, pat_lbraces()),
{
    assert forall|j: int| !occurs_at(s, pat_lbraces(), j) by {
        if occurs_at(s, pat_lbraces(), j) {
            assert(s.subrange(j, j + 2)[0] == s[j]);
        }
    }
}

proof fn lemma_replace_index_prefix(a: Seq<char>, x: Seq<char>, r: Seq<char>)
    requires
        no_brace(a),
    ensures
        replace_all(a + x, pat_index(), r) == a + replace_all(x, pat_index(), r),
    decreases a.len(),
{
    if a.len() > 0 {
        let t = a + x;
        assert(!starts_with(t, pat_index())) by {
            if starts_with(t, pat_index()) {
                assert(t.subrange(0, 9)[0] == t[0]);
            }
        }
        assert(t.skip(1) =~= a.skip(1) + x);
        lemma_replace_index_prefix(a.skip(1), x, r);
        assert(seq![t[0]] + (a.skip(1) + replace_all(x, pat_index(), r)) =~= a + replace_all(
            x,
            pat_index(),
            r,
        ));
    } else {
        assert(a + x =~= x);
    }
}

proof fn lemma_decimal_no_brace(n: nat)
    ensures
        no_brace(decimal(n)),
    decreases n,
{
    if n >= 10 {
        lemma_decimal_no_brace(n / 10);
    }
}

proof fn lemma_each_items_from(arr: Seq<JsonV>, a: Seq<char>, b: Seq<char>, fuel: nat, i: nat)
    requires
        fuel > 0,
        no_brace(a),
        no_brace(b),
        i <= arr.len(),
    ensures
        items_from(arr, i as int, a + pat_index() + b, fuel) == Ok::<Seq<char>, Seq<char>>(
            indexed_copies(a, b, i, arr.len()),
        ),
        items_from(arr, i as int, a, fuel) == Ok::<Seq<char>, Seq<char>>(copies(a, (arr.len() - i) as nat)),
    decreases arr.len() - i,
{
    if i < arr.len() {
        lemma_each_items_from(arr, a, b, fuel, i + 1);
        let d = decimal(i);
        lemma_decimal_no_brace(i);
        lemma_replace_index_prefix(a, pat_index() + b, d);
        assert(a + pat_index() + b =~= a + (pat_index() + b));
        let t = pat_index() + b;
        assert(starts_with(t, pat_index())) by {
            assert(t.subrange(0, 9) =~= pat_index());
        }
        assert(t.skip(9) =~= b);
        assert(b + Seq::<char>::empty() =~= b);
        lemma_replace_index_prefix(b, Seq::<char>::empty(), d);
        assert(replace_all(Seq::<char>::empty(), pat_index(), d) == Seq::<char>::empty());
        assert(replace_all(t, pat_index(), d) == d + replace_all(b, pat_index(), d));
        assert(replace_all(b, pat_index(), d) == b);
        let b2 = a + d + b;
        assert(replace_all(a + pat_index() + b, pat_index(), d) == b2) by {
            assert(a + (d + b) =~= b2);
        }
        assert(no_brace(b2)) by {
            assert forall|m: int| 0 <= m < b2.len() implies #[trigger] b2[m] != '{' by {
                if m < a.len() {
                    assert(b2[m] == a[m]);
                } else if m < a.len() + d.len() {
                    assert(b2[m] == d[m - a.len()]);
                } else {
                    assert(b2[m] == b[m - a.len() - d.len()]);
                }
            }
        }
        lemma_no_brace_plain(b2);
        lemma_render_plain_text(b2, item_context(arr[i as int]), fuel);
        lemma_replace_index_prefix(a, Seq::<char>::empty(), d);
        assert(a + Seq::<char>::empty() =~= a);
        lemma_no_brace_plain(a);
        lemma_render_plain_text(a, item_context(arr[i as int]), fuel);
        assert(copies(a, (arr.len() - i) as nat) == a + copies(a, (arr.len() - (i + 1)) as nat));
    }
}

/// The law of `each` bodies: the body is rendered once for each item, in the
/// items' order; a body without any '{' comes out as it is each time, and
/// `{{index}}` in a body gives the item's place, counted from 0.
pub proof fn lemma_each_items(arr: Seq<JsonV>, a: Seq<char>, b: Seq<char>, fuel: nat)
    requires
        fuel > 0,
        no_brace(a),
        no_brace(b),
    ensures
        items_from(arr, 0, a, fuel) == Ok::<Seq<char>, Seq<char>>(copies(a, arr.len())),
        items_from(arr, 0, a + pat_index() + b, fuel) == Ok::<Seq<char>, Seq<char>>(
            indexed_copies(a, b, 0, arr.len()),
        ),
        pat_index() == "{{index}}"@,
{
    lemma_each_items_from(arr, a, b, fuel, 0);
    reveal_strlit("{{index}}");
    assert(pat_index() =~= "{{index}}"@);
}

/// The text of a template that holds one `each` block over the list `v`.
pub open spec fn each_block_text(pre: Seq<char>, v: Seq<char>, body: Seq<char>, post: Seq<char>) -> Seq<char> {
    pre + seq!['{', '{', '#', 'e', 'a', 'c', 'h', ' '] + v + seq!['}', '}'] + body + seq![
        '{',
        '{',
        '/',
        'e',
        'a',
        'c',
        'h',
        '}',
        '}',
    ] + post
}

proof fn lemma_find_first(t: Seq<char>, p: Seq<char>, from: int, x: int)
    requires
        0 <= from <= x,
        occurs_at(t, p, x),
        forall|j: int| from <= j < x ==> !occurs_at(t, p, j),
    ensures
        find_from(t, p, from) == Some(x),
{
    lemma_find_from(t, p, from);
    if find_from(t, p, from) is Some {
        let y = find_from(t, p, from)->Some_0;
        if y < x {
            assert(!occurs_at(t, p, y));
        }
    }
}

proof fn lemma_find_none(t: Seq<char>, p: Seq<char>, from: int)
    requires
        0 <= from,
        forall|j: int| from <= j ==> !occurs_at(t, p, j),
    ensures
        find_from(t, p, from) is None,
{
    lemma_find_from(t, p, from);
}

proof fn lemma_each_block_scan(pre: Seq<char>, v: Seq<char>, body: Seq<char>, post: Seq<char>)
    requires
        no_brace(pre),
        no_brace(body),
        no_brace(post),
        bare_name(v),
    ensures
        ({
            let t = each_block_text(pre, v, body, post);
            let a = pre.len() as int;
            let q = a + 8 + v.len();
            let be = q + 2 + body.len();
            &&& find_from(t, pat_open(), 0) == Some(a)
            &&& tag_name_end(t, a) == Some(q)
            &&& trim(t.subrange(a + 3, q)) == seq!['e', 'a', 'c', 'h', ' '] + v
            &&& close_scan(t, q + 2, seq![word_each()]) == Some((be, be + 9))
            &&& t.subrange(0, a) == pre
            &&& t.subrange(q + 2, be) == body
            &&& find_from(t, pat_open(), be + 9) is None
            &&& t.subrange(be + 9, t.len() as int) == post
            &&& forall|j: int| !occurs_at(t, pat_opt(), j)
            &&& t.len() == be + 9 + post.len()
        }),
{
    let t = each_block_text(pre, v, body, post);
    let a = pre.len() as int;
    let q = a + 8 + v.len();
    let bs = q + 2;
    let be = bs + body.len();
    let ce = be + 9;
    assert(t.len() == ce + post.len());
    // Where the braces are.
    assert forall|j: int| 0 <= j < t.len() && #[trigger] t[j] == '{' implies j == a || j == a + 1 || j == be || j
        == be + 1 by {
        if j < a {
            assert(t[j] == pre[j]);
        } else if a + 8 <= j < q {
            assert(t[j] == v[j - a - 8]);
        } else if bs <= j < be {
            assert(t[j] == body[j - bs]);
        } else if j >= ce {
            assert(t[j] == post[j - ce]);
        }
    }
    assert(t[a] == '{' && t[a + 1] == '{' && t[a + 2] == '#');
    assert(t[be] == '{' && t[be + 1] == '{' && t[be + 2] == '/');
    assert(t[a + 3] == 'e' && t[a + 4] == 'a' && t[a + 5] == 'c' && t[a + 6] == 'h' && t[a + 7] == ' ');
    assert(t[be + 3] == 'e' && t[be + 4] == 'a' && t[be + 5] == 'c' && t[be + 6] == 'h');
    assert(t[q] == '}' && t[q + 1] == '}' && t[be + 7] == '}' && t[be + 8] == '}');
    assert(pat_open() == seq!['{', '{', '#']);
    assert(pat_close() == seq!['{', '{', '/']);
    assert(pat_opt() == seq!['{', '{', '?']);
    assert(pat_rbraces() == seq!['}', '}']);
    assert forall|j: int| !occurs_at(t, pat_open(), j) || j == a by {
        lemma_triple_at(t, '{', '{', '#', j);
    }
    assert forall|j: int| !occurs_at(t, pat_close(), j) || j == be by {
        lemma_triple_at(t, '{', '{', '/', j);
    }
    assert forall|j: int| !occurs_at(t, pat_opt(), j) by {
        lemma_triple_at(t, '{', '{', '?', j);
    }
    lemma_triple_at(t, '{', '{', '#', a);
    lemma_triple_at(t, '{', '{', '/', be);
    lemma_find_first(t, pat_open(), 0, a);
    // The end of the start tag.
    assert forall|j: int| a + 3 <= j < q implies !occurs_at(t, pat_rbraces(), j) by {
        lemma_pair_at(t, '}', j);
        if j >= a + 8 {
            assert(t[j] == v[j - a - 8]);
        }
    }
    lemma_pair_at(t, '}', q);
    lemma_find_first(t, pat_rbraces(), a + 3, q);
    // The token of the start tag.
    let tok = t.subrange(a + 3, q);
    assert(tok =~= seq!['e', 'a', 'c', 'h', ' '] + v);
    assert(!is_ws('e'));
    assert(tok[0] == 'e');
    assert(tok.last() == v.last());
    assert(!is_ws(v[v.len() - 1]));
    assert(crate::text::trim_start(tok) == tok);
    assert(crate::text::trim_end(tok) == tok);
    // The closing tag.
    lemma_find_none(t, pat_open(), bs);
    assert forall|j: int| bs <= j < be implies !occurs_at(t, pat_close(), j) by {}
    lemma_find_first(t, pat_close(), bs, be);
    assert forall|j: int| be + 3 <= j < be + 7 implies !occurs_at(t, pat_rbraces(), j) by {
        lemma_pair_at(t, '}', j);
    }
    lemma_pair_at(t, '}', be + 7);
    lemma_find_first(t, pat_rbraces(), be + 3, be + 7);
    let ctok = t.subrange(be + 3, be + 7);
    assert(ctok =~= word_each());
    assert(crate::text::trim_start(ctok) == ctok);
    assert(crate::text::trim_end(ctok) == ctok);
    assert(seq![word_each()].last() == word_each());
    assert(close_scan(t, bs, seq![word_each()]) == Some((be, ce)));
    assert(t.subrange(0, a) =~= pre);
    assert(t.subrange(bs, be) =~= body);
    lemma_find_none(t, pat_open(), ce);
    assert(t.subrange(ce, t.len() as int) =~= post);
}

/// The law of `each` blocks: in a template whose only tags are one block
/// `{{#each v}}body{{/each}}` (no '{' elsewhere), the block gives way to the
/// body once for each item of the JSON array that `v` holds, and the rest
/// stays as it is; where `v` is not set, or holds JSON that is no array,
/// rendering fails and says so. (Item bodies are rendered one level deeper,
/// so they need a second level of `fuel`.)
pub proof fn lemma_each_block(
    pre: Seq<char>,
    v: Seq<char>,
    body: Seq<char>,
    post: Seq<char>,
    ctx: Map<Seq<char>, Seq<char>>,
    fuel: nat,
)
    requires
        fuel > 1,
        no_brace(pre),
        no_brace(body),
        no_brace(post),
        bare_name(v),
    ensures
        !ctx.contains_key(v) ==> render_spec(each_block_text(pre, v, body, post), ctx, fuel) == Err::<
            Seq<char>,
            Seq<char>,
        >("Missing list variable for each: "@ + quoted(v)),
        ctx.contains_key(v) && json_parse(ctx[v]) is Ok && !(json_parse(ctx[v])->Ok_0 is Array) ==> render_spec(
            each_block_text(pre, v, body, post),
            ctx,
            fuel,
        ) == Err::<Seq<char>, Seq<char>>(quoted(v) + " must be a JSON array"@),
        ctx.contains_key(v) && json_parse(ctx[v]) is Ok && json_parse(ctx[v])->Ok_0 is Array ==> render_spec(
            each_block_text(pre, v, body, post),
            ctx,
            fuel,
        ) == Ok::<Seq<char>, Seq<char>>(pre + copies(body, json_parse(ctx[v])->Ok_0->Array_0.len()) + post),
{
    let t = each_block_text(pre, v, body, post);
    let f = (fuel - 1) as nat;
    let a = pre.len() as int;
    let q = a + 8 + v.len();
    let be = q + 2 + body.len();
    lemma_each_block_scan(pre, v, body, post);
    lemma_find_opt_none(t, 0);
    assert(t.subrange(0, t.len() as int) =~= t);
    assert(opt_from(t, 0, ctx, f) == Ok::<Seq<char>, Seq<char>>(t));
    let tok = seq!['e', 'a', 'c', 'h', ' '] + v;
    assert(starts_with(tok, pat_each_sp())) by {
        assert(tok.subrange(0, 5) =~= pat_each_sp());
    }
    assert(closing_name(tok) == word_each());
    assert(tok.skip(4) =~= seq![' '] + v);
    assert(is_ws(' '));
    assert(crate::text::trim_start(seq![' '] + v) == crate::text::trim_start(v)) by {
        assert((seq![' '] + v).drop_first() =~= v);
    }
    assert(!is_ws(v[0]) && !is_ws(v[v.len() - 1]));
    assert(crate::text::trim_start(v) == v);
    assert(crate::text::trim_end(v) == v);
    assert(each_var(tok) == v);
    if ctx.contains_key(v) && json_parse(ctx[v]) is Ok && json_parse(ctx[v])->Ok_0 is Array {
        let arr = json_parse(ctx[v])->Ok_0->Array_0;
        lemma_each_items_from(arr, body, Seq::empty(), f, 0);
        let u = pre + copies(body, arr.len()) + post;
        lemma_plain_phases(t.subrange(be + 9, t.len() as int), ctx, f);
        assert(each_from(t, be + 9, ctx, f) == Ok::<Seq<char>, Seq<char>>(post));
        assert(each_from(t, 0, ctx, f) == Ok::<Seq<char>, Seq<char>>(u));
        lemma_copies_no_brace(body, arr.len());
        assert(no_brace(u)) by {
            let c = copies(body, arr.len());
            assert forall|m: int| 0 <= m < u.len() implies #[trigger] u[m] != '{' by {
                if m < pre.len() {
                    assert(u[m] == pre[m]);
                } else if m < pre.len() + c.len() {
                    assert(u[m] == c[m - pre.len()]);
                } else {
                    assert(u[m] == post[m - pre.len() - c.len()]);
                }
            }
        }
        lemma_no_brace_plain(u);
        lemma_plain_phases(u, ctx, f);
    }
}

proof fn lemma_copies_no_brace(a: Seq<char>, n: nat)
    requires
        no_brace(a),
    ensures
        no_brace(copies(a, n)),
    decreases n,
{
    if n > 0 {
        lemma_copies_no_brace(a, (n - 1) as nat);
        let c = copies(a, (n - 1) as nat);
        assert forall|m: int| 0 <= m < a.len() + c.len() implies #[trigger] (a + c)[m] != '{' by {
            if m < a.len() {
                assert((a + c)[m] == a[m]);
            } else {
                assert((a + c)[m] == c[m - a.len()]);
            }
        }
    }
}

/// The law of a variable: a context that a variable was set in holds it, and
/// setting a variable leaves the others as they were.
pub proof fn lemma_set_then_get(m: Map<Seq<char>, Seq<char>>, k: Seq<char>, v: Seq<char>, other: Seq<char>)
    ensures
        m.insert(k, v).contains_key(k) && m.insert(k, v)[k] == v,
        other != k ==> m.insert(k, v).contains_key(other) == m.contains_key(other),
        other != k && m.contains_key(other) ==> m.insert(k, v)[other] == m[other],
{
}

/// The laws of contexts: a new context holds no variable; of two settings of
/// one variable the last one counts; and setting a list of pairs sets them
/// one after the other.
pub proof fn lemma_context_laws(
    m: Map<Seq<char>, Seq<char>>,
    k: Seq<char>,
    k2: Seq<char>,
    v1: Seq<char>,
    v2: Seq<char>,
)
    ensures
        !Map::<Seq<char>, Seq<char>>::empty().contains_key(k),
        m.insert(k, v1).insert(k, v2).contains_key(k) && m.insert(k, v1).insert(k, v2)[k] == v2,
        fold_pairs(m, seq![(k, v1), (k2, v2)]) == m.insert(k, v1).insert(k2, v2),
{
    let s = seq![(k, v1), (k2, v2)];
    let one = seq![(k, v1)];
    assert(s.drop_last() =~= one);
    assert(one.drop_last() =~= Seq::<(Seq<char>, Seq<char>)>::empty());
    assert(fold_pairs(m, Seq::<(Seq<char>, Seq<char>)>::empty()) == m);
    assert(fold_pairs(m, one) == m.insert(k, v1));
    assert(fold_pairs(m, s) == fold_pairs(m, one).insert(k2, v2));
}

impl Default for RenderContext {
    /// The empty context.
    fn default() -> (r: Self)
        ensures
            r@ == Map::<Seq<char>, Seq<char>>::empty(),
    {
        RenderContext::new()
    }
}

/// A variable name as tags take it: not empty, without white space or braces.
pub open spec fn bare_name(k: Seq<char>) -> bool {
    &&& k.len() > 0
    &&& forall|i: int| 0 <= i < k.len() ==> !is_ws(#[trigger] k[i]) && k[i] != '{' && k[i] != '}'
}

/// A variable name that a placeholder takes as it is: a bare name that does
/// not start like a block tag (`?`, `#`, `/`).
pub open spec fn plain_name(k: Seq<char>) -> bool {
    &&& bare_name(k)
    &&& k[0] != '?' && k[0] != '#' && k[0] != '/'
}

/// Two equal characters `c c` at `j`, character by character.
proof fn lemma_pair_at(t: Seq<char>, c: char, j: int)
    ensures
        occurs_at(t, seq![c, c], j) <==> (0 <= j && j + 1 < t.len() && t[j] == c && t[j + 1] == c),
{
    if 0 <= j && j + 2 <= t.len() {
        let w = t.subrange(j, j + 2);
        assert(w[0] == t[j] && w[1] == t[j + 1]);
        if t[j] == c && t[j + 1] == c {
            assert(w =~= seq![c, c]);
        }
    }
}

/// A name without white space is its own trim.
proof fn lemma_trim_plain(k: Seq<char>)
    requires
        bare_name(k),
    ensures
        trim(k) == k,
{
    assert(!is_ws(k[0]));
    assert(!is_ws(k[k.len() - 1]));
    assert(crate::text::trim_start(k) == k);
    assert(crate::text::trim_end(k) == k);
}

/// In a name without white space, the white space search runs to the end.
proof fn lemma_ws_index_plain(k: Seq<char>, i: int)
    requires
        bare_name(k),
        0 <= i <= k.len(),
    ensures
        ws_index(k, i) == k.len(),
    decreases k.len() - i,
{
    if i < k.len() {
        assert(!is_ws(k[i]));
        lemma_ws_index_plain(k, i + 1);
    }
}

/// The first '}' at or after `i` is at `e`.
proof fn lemma_scan_brace_to(t: Seq<char>, i: int, e: int)
    requires
        0 <= i <= e < t.len(),
        t[e] == '}',
        forall|m: int| i <= m < e ==> t[m] != '}',
    ensures
        scan_brace(t, i) == e,
    decreases e - i,
{
    if i < e {
        lemma_scan_brace_to(t, i + 1, e);
    }
}

/// The search for a placeholder passes over positions that start none.
proof fn lemma_find_placeholder_skip(t: Seq<char>, p: int, s: int)
    requires
        0 <= p <= s,
        forall|j: int| p <= j < s ==> placeholder_at(t, j) is None,
    ensures
        find_placeholder(t, p) == find_placeholder(t, s),
    decreases s - p,
{
    if p < s && p < t.len() {
        lemma_find_placeholder_skip(t, p + 1, s);
    } else if p < s {
        assert(find_placeholder(t, p) is None);
        assert(find_placeholder(t, s) is None);
    }
}

/// No placeholder at or after `p` where no `{{` is.
proof fn lemma_find_placeholder_none(t: Seq<char>, p: int)
    requires
        0 <= p,
        forall|j: int| p <= j ==> !occurs_at(t, pat_lbraces(), j),
    ensures
        find_placeholder(t, p) is None,
    decreases t.len() - p,
{
    if p < t.len() {
        lemma_find_placeholder_none(t, p + 1);
    }
}

/// No optional block at or after `p` where no `{{?` is.
proof fn lemma_find_opt_none(t: Seq<char>, p: int)
    requires
        0 <= p,
        forall|j: int| p <= j ==> !occurs_at(t, pat_opt(), j),
    ensures
        find_opt(t, p) is None,
    decreases t.len() - p,
{
    if p < t.len() {
        lemma_find_opt_none(t, p + 1);
    }
}

/// In `pre {{k}} post`, the one `{{` is the placeholder's.
proof fn lemma_single_opening(pre: Seq<char>, k: Seq<char>, post: Seq<char>, j: int)
    requires
        plain_name(k),
        !contains(pre.push('{'), pat_lbraces()),
        !contains(post, pat_lbraces()),
        occurs_at(pre + seq!['{', '{'] + k + seq!['}', '}'] + post, pat_lbraces(), j),
    ensures
        j == pre.len(),
{
    let t = pre + seq!['{', '{'] + k + seq!['}', '}'] + post;
    let s = pre.len() as int;
    let r = s + 2 + k.len();
    lemma_pair_at(t, '{', j);
    assert(pat_lbraces() == seq!['{', '{']);
    if j + 1 < s {
        lemma_pair_at(pre.push('{'), '{', j);
        assert(pre.push('{')[j] == t[j] && pre.push('{')[j + 1] == t[j + 1]);
        assert(contains(pre.push('{'), pat_lbraces()));
    } else if j + 1 == s {
        lemma_pair_at(pre.push('{'), '{', j);
        assert(pre.push('{')[j] == t[j] && pre.push('{')[j + 1] == '{');
        assert(contains(pre.push('{'), pat_lbraces()));
    } else if j == s {
    } else if j == s + 1 {
        assert(t[s + 2] == k[0]);
    } else if j < r {
        assert(t[j] == k[j - s - 2]);
    } else if j < r + 2 {
        assert(t[j] == '}');
    } else {
        lemma_pair_at(post, '{', j - r - 2);
        assert(t[j] == post[j - r - 2] && t[j + 1] == post[j - r - 1]);
        assert(contains(post, pat_lbraces()));
    }
}

/// The law of substitution: in a template whose only `{{` opens a placeholder
/// for a plain variable name, the placeholder gives way to the variable's
/// value, and the rest stays as it is; where the variable is not set,
/// rendering fails with the missing variable's name.
#[verifier::spinoff_prover]
#[verifier::rlimit(40)]
pub proof fn lemma_placeholder_substituted(
    pre: Seq<char>,
    k: Seq<char>,
    post: Seq<char>,
    ctx: Map<Seq<char>, Seq<char>>,
    fuel: nat,
)
    requires
        fuel > 0,
        plain_name(k),
        !contains(pre.push('{'), pat_lbraces()),
        !contains(post, pat_lbraces()),
    ensures
        render_spec(pre + seq!['{', '{'] + k + seq!['}', '}'] + post, ctx, fuel) == if ctx.contains_key(
            k,
        ) {
            Ok::<Seq<char>, Seq<char>>(pre + ctx[k] + post)
        } else {
            Err::<Seq<char>, Seq<char>>("Missing required variable: "@ + quoted(k))
        },
{
    let t = pre + seq!['{', '{'] + k + seq!['}', '}'] + post;
    let s = pre.len() as int;
    let r = s + 2 + k.len();
    assert(t.len() == r + 2 + post.len());
    assert(t[s + 2] == k[0]);
    assert(t.subrange(0, t.len() as int) =~= t);
    // No optional block.
    assert forall|j: int| 0 <= j implies !occurs_at(t, pat_opt(), j) by {
        if occurs_at(t, pat_opt(), j) {
            lemma_opening_braces(t, pat_opt(), j);
            lemma_single_opening(pre, k, post, j);
            assert(t.subrange(j, j + 3)[2] == t[j + 2]);
        }
    }
    lemma_find_opt_none(t, 0);
    assert(opt_from(t, 0, ctx, (fuel - 1) as nat) == Ok::<Seq<char>, Seq<char>>(t));
    // No each block.
    lemma_find_from(t, pat_open(), 0);
    if find_from(t, pat_open(), 0) is Some {
        let a = find_from(t, pat_open(), 0)->Some_0;
        lemma_opening_braces(t, pat_open(), a);
        lemma_single_opening(pre, k, post, a);
        assert(t.subrange(a, a + 3)[2] == t[a + 2]);
    }
    assert(each_from(t, 0, ctx, (fuel - 1) as nat) == Ok::<Seq<char>, Seq<char>>(t));
    // The placeholder.
    assert forall|j: int| 0 <= j < s implies placeholder_at(t, j) is None by {
        if occurs_at(t, pat_lbraces(), j) {
            lemma_single_opening(pre, k, post, j);
        }
    }
    lemma_find_placeholder_skip(t, 0, s);
    assert forall|m: int| s + 3 <= m < r implies t[m] != '}' by {
        assert(t[m] == k[m - s - 2]);
    }
    lemma_scan_brace_to(t, s + 3, r);
    lemma_pair_at(t, '{', s);
    lemma_pair_at(t, '}', r);
    assert(pat_lbraces() == seq!['{', '{']);
    assert(pat_rbraces() == seq!['}', '}']);
    assert(placeholder_at(t, s) == Some(r));
    assert(find_placeholder(t, s) == Some((s, r)));
    assert(t.subrange(s + 2, r) =~= k);
    lemma_trim_plain(k);
    lemma_ws_index_plain(k, 0);
    assert(!is_ws(k[0]));
    assert(crate::renderer::non_ws_index(k, 0) == 0);
    // The rest holds no placeholder.
    assert forall|j: int| r + 2 <= j implies !occurs_at(t, pat_lbraces(), j) by {
        if occurs_at(t, pat_lbraces(), j) {
            lemma_single_opening(pre, k, post, j);
        }
    }
    lemma_find_placeholder_none(t, r + 2);
    assert(t.subrange(r + 2, t.len() as int) =~= post);
    assert(t.subrange(0, s) =~= pre);
    assert(fill_from(t, r + 2, ctx) == Ok::<Seq<char>, Seq<char>>(post));
    if ctx.contains_key(k) {
        assert(pre + ctx[k] + post =~= (pre + ctx[k]) + post);
    }
}

/// Three characters `a b c` at `j`, character by character.
proof fn lemma_triple_at(t: Seq<char>, a: char, b: char, c: char, j: int)
    ensures
        occurs_at(t, seq![a, b, c], j) <==> (0 <= j && j + 2 < t.len() && t[j] == a && t[j + 1] == b
            && t[j + 2] == c),
{
    if 0 <= j && j + 3 <= t.len() {
        let w = t.subrange(j, j + 3);
        assert(w[0] == t[j] && w[1] == t[j + 1] && w[2] == t[j + 2]);
        if t[j] == a && t[j + 1] == b && t[j + 2] == c {
            assert(w =~= seq![a, b, c]);
        }
    }
}

/// Joining a text that does not end in `{` (and holds no `{{`) to one without
/// `{{` makes no `{{`.
proof fn lemma_join_no_lbraces(a: Seq<char>, b: Seq<char>)
    requires
        !contains(a.push('{'), pat_lbraces()),
        !contains(b, pat_lbraces()),
    ensures
        !contains(a + b, pat_lbraces()),
{
    assert(pat_lbraces() == seq!['{', '{']);
    assert forall|j: int| !occurs_at(a + b, pat_lbraces(), j) by {
        lemma_pair_at(a + b, '{', j);
        if occurs_at(a + b, pat_lbraces(), j) {
            if j + 1 <= a.len() {
                lemma_pair_at(a.push('{'), '{', j);
                assert(a.push('{')[j] == (a + b)[j]);
                assert(contains(a.push('{'), pat_lbraces()));
            } else {
                lemma_pair_at(b, '{', j - a.len());
                assert(b[j - a.len()] == (a + b)[j] && b[j - a.len() + 1] == (a + b)[j + 1]);
                assert(contains(b, pat_lbraces()));
            }
        }
    }
}

/// The search for an optional block passes over positions that start none.
proof fn lemma_find_opt_skip(t: Seq<char>, p: int, s: int)
    requires
        0 <= p <= s,
        forall|j: int| p <= j < s ==> opt_block_at(t, j) is None,
    ensures
        find_opt(t, p) == find_opt(t, s),
    decreases s - p,
{
    if p < s && p < t.len() {
        lemma_find_opt_skip(t, p + 1, s);
    } else if p < s {
        assert(find_opt(t, p) is None);
        assert(find_opt(t, s) is None);
    }
}

/// The search for a closing tag passes over positions that start none.
proof fn lemma_first_close_skip(t: Seq<char>, q: int, s: int)
    requires
        0 <= q <= s,
        forall|j: int| q <= j < s ==> close_tag_end(t, j) is None,
    ensures
        first_close(t, q) == first_close(t, s),
    decreases s - q,
{
    if q < s && q < t.len() {
        lemma_first_close_skip(t, q + 1, s);
    } else if q < s {
        assert(first_close(t, q) is None);
        assert(first_close(t, s) is None);
    }
}

/// The text of an optional block `pre {{?k}}body{{/k}} post`.
pub open spec fn optional_block_text(pre: Seq<char>, k: Seq<char>, body: Seq<char>, post: Seq<char>) -> Seq<
    char,
> {
    pre + seq!['{', '{', '?'] + k + seq!['}', '}'] + body + seq!['{', '{', '/'] + k + seq!['}', '}'] + post
}

/// In such a text, `{{` opens the two tags and nothing else.
proof fn lemma_block_openings(pre: Seq<char>, k: Seq<char>, body: Seq<char>, post: Seq<char>, j: int)
    requires
        bare_name(k),
        !contains(pre.push('{'), pat_lbraces()),
        !contains(body.push('{'), pat_lbraces()),
        !contains(post, pat_lbraces()),
        occurs_at(optional_block_text(pre, k, body, post), pat_lbraces(), j),
    ensures
        j == pre.len() || j == pre.len() + k.len() + 5 + body.len(),
{
    let t = optional_block_text(pre, k, body, post);
    let s = pre.len() as int;
    let ke = s + 3 + k.len();
    let bs = ke + 2;
    let be = bs + body.len();
    let r2 = be + 3 + k.len();
    assert(pat_lbraces() == seq!['{', '{']);
    lemma_pair_at(t, '{', j);
    if j + 1 < s {
        lemma_pair_at(pre.push('{'), '{', j);
        assert(pre.push('{')[j] == t[j] && pre.push('{')[j + 1] == t[j + 1]);
    } else if j + 1 == s {
        lemma_pair_at(pre.push('{'), '{', j);
        assert(pre.push('{')[j] == t[j]);
    } else if j == s {
    } else if j == s + 1 {
        assert(t[s + 2] == '?');
    } else if j < ke {
        assert(t[j] == k[j - s - 3]);
    } else if j < bs {
        assert(t[j] == '}');
    } else if j + 1 < be {
        lemma_pair_at(body.push('{'), '{', j - bs);
        assert(body.push('{')[j - bs] == t[j] && body.push('{')[j - bs + 1] == t[j + 1]);
    } else if j + 1 == be {
        lemma_pair_at(body.push('{'), '{', j - bs);
        assert(body.push('{')[j - bs] == t[j]);
    } else if j == be {
    } else if j == be + 1 {
        assert(t[be + 2] == '/');
    } else if j < r2 {
        assert(t[j] == k[j - be - 3]);
    } else if j < r2 + 2 {
        assert(t[j] == '}');
    } else {
        lemma_pair_at(post, '{', j - r2 - 2);
        assert(post[j - r2 - 2] == t[j] && post[j - r2 - 1] == t[j + 1]);
    }
}

/// The law of optional blocks: in a template whose only tags are one block
/// `{{?k}}body{{/k}}`, the block gives way to its body where `k` is set, and
/// to nothing where it is not; the rest stays as it is. (A body is rendered
/// one level deeper, so it needs a second level of `fuel`.)
#[verifier::spinoff_prover]
#[verifier::rlimit(40)]
pub proof fn lemma_optional_block(
    pre: Seq<char>,
    k: Seq<char>,
    body: Seq<char>,
    post: Seq<char>,
    ctx: Map<Seq<char>, Seq<char>>,
    fuel: nat,
)
    requires
        fuel > 0,
        bare_name(k),
        !contains(pre.push('{'), pat_lbraces()),
        !contains(body.push('{'), pat_lbraces()),
        !contains(post, pat_lbraces()),
    ensures
        !ctx.contains_key(k) ==> render_spec(optional_block_text(pre, k, body, post), ctx, fuel)
            == Ok::<Seq<char>, Seq<char>>(pre + post),
        ctx.contains_key(k) && fuel > 1 ==> render_spec(optional_block_text(pre, k, body, post), ctx, fuel)
            == Ok::<Seq<char>, Seq<char>>(pre + body + post),
{
    let t = optional_block_text(pre, k, body, post);
    let f = (fuel - 1) as nat;
    let s = pre.len() as int;
    let ke = s + 3 + k.len();
    let bs = ke + 2;
    let be = bs + body.len();
    let r2 = be + 3 + k.len();
    let ce = r2 + 2;
    assert(t.len() == ce + post.len());
    assert(pat_lbraces() == seq!['{', '{']);
    assert(pat_rbraces() == seq!['}', '}']);
    assert(pat_opt() == seq!['{', '{', '?']);
    assert(pat_close() == seq!['{', '{', '/']);
    // The block found at `s`.
    assert forall|j: int| 0 <= j < s implies opt_block_at(t, j) is None by {
        if occurs_at(t, pat_opt(), j) {
            lemma_opening_braces(t, pat_opt(), j);
            lemma_block_openings(pre, k, body, post, j);
        }
    }
    lemma_find_opt_skip(t, 0, s);
    assert forall|m: int| s + 3 <= m < ke implies t[m] != '}' by {
        assert(t[m] == k[m - s - 3]);
    }
    lemma_scan_brace_to(t, s + 3, ke);
    lemma_triple_at(t, '{', '{', '?', s);
    lemma_pair_at(t, '}', ke);
    assert forall|j: int| bs <= j < be implies close_tag_end(t, j) is None by {
        if occurs_at(t, pat_close(), j) {
            lemma_opening_braces(t, pat_close(), j);
            lemma_block_openings(pre, k, body, post, j);
        }
    }
    lemma_first_close_skip(t, bs, be);
    assert forall|m: int| be + 3 <= m < r2 implies t[m] != '}' by {
        assert(t[m] == k[m - be - 3]);
    }
    lemma_scan_brace_to(t, be + 3, r2);
    lemma_triple_at(t, '{', '{', '/', be);
    lemma_pair_at(t, '}', r2);
    assert(close_tag_end(t, be) == Some(ce));
    assert(first_close(t, be) == Some((be, ce)));
    assert(opt_block_at(t, s) == Some((ke, bs, be, ce)));
    assert(find_opt(t, s) == Some((s, (ke, bs, be, ce))));
    // The key, the body and the rest.
    assert(t.subrange(s + 3, ke) =~= k);
    lemma_trim_plain(k);
    assert(t.subrange(0, s) =~= pre);
    assert(t.subrange(bs, be) =~= body);
    assert forall|j: int| ce <= j implies !occurs_at(t, pat_opt(), j) by {
        if occurs_at(t, pat_opt(), j) {
            lemma_opening_braces(t, pat_opt(), j);
            lemma_block_openings(pre, k, body, post, j);
        }
    }
    lemma_find_opt_none(t, ce);
    assert(t.subrange(ce, t.len() as int) =~= post);
    assert(opt_from(t, ce, ctx, f) == Ok::<Seq<char>, Seq<char>>(post));
    lemma_join_no_lbraces(pre, post);
    lemma_plain_phases(pre + post, ctx, f);
    if ctx.contains_key(k) && fuel > 1 {
        assert(!contains(body, pat_lbraces())) by {
            assert(body.push('{') + seq![] =~= body.push('{'));
            lemma_join_no_lbraces(body, seq![]);
            assert(body + seq![] =~= body);
        }
        lemma_render_plain_text(body, ctx, f);
        assert(pre + body.push('{') =~= (pre + body).push('{'));
        lemma_join_no_lbraces(pre, body.push('{'));
        lemma_join_no_lbraces(pre + body, post);
        lemma_plain_phases(pre + body + post, ctx, f);
        assert(opt_from(t, 0, ctx, f) == Ok::<Seq<char>, Seq<char>>(pre + body + post));
    }
}

// ---------------------------------------------------------------------------
// Executable scanning
// ---------------------------------------------------------------------------

fn scan_brace_exec(t: &Vec<char>, i: usize) -> (r: usize)
    requires
        i <= t@.len(),
    ensures
        r as int == scan_brace(t@, i as int),
        i <= r <= t@.len(),
{
    let mut k = i;
    while k < t.len() && t[k] != '}'
        invariant
            i <= k <= t@.len(),
            scan_brace(t@, i as int) == scan_brace(t@, k as int),
        decreases t.len() - k,
    {
        k = k + 1;
    }
    k
}

fn rbraces() -> (r: Vec<char>)
    ensures
        r@ == pat_rbraces(),
{
    vec!['}', '}']
}

fn close_tag_end_exec(t: &Vec<char>, q: usize) -> (r: Option<usize>)
    requires
        q < t@.len(),
    ensures
        r matches Some(e) ==> close_tag_end(t@, q as int) == Some(e as int),
        r is None ==> close_tag_end(t@, q as int) is None,
        r matches Some(e) ==> q + 5 <= e <= t@.len(),
{
    let cl = vec!['{', '{', '/'];
    assert(cl@ == pat_close());
    if !occurs_at_exec(t, &cl, q) {
        return None;
    }
    let n = t.len();
    assert(q + 3 <= n);
    let r = scan_brace_exec(t, q + 3);
    if occurs_at_exec(t, &rbraces(), r) {
        assert(r + 2 <= n);
        Some(r + 2)
    } else {
        None
    }
}

fn first_close_exec(t: &Vec<char>, q: usize) -> (r: Option<(usize, usize)>)
    ensures
        r matches Some((a, b)) ==> first_close(t@, q as int) == Some((a as int, b as int)),
        r is None ==> first_close(t@, q as int) is None,
        r matches Some((a, b)) ==> q <= a && a + 5 <= b <= t@.len(),
{
    let mut k = q;
    while k < t.len()
        invariant
            q <= k,
            first_close(t@, q as int) == first_close(t@, k as int),
        decreases t.len() - k,
    {
        match close_tag_end_exec(t, k) {
            Some(e) => {
                return Some((k, e));
            },
            None => {},
        }
        k = k + 1;
    }
    None
}

fn opt_block_at_exec(t: &Vec<char>, s: usize) -> (r: Option<(usize, usize, usize, usize)>)
    requires
        s < t@.len(),
    ensures
        r matches Some((a, b, c, d)) ==> opt_block_at(t@, s as int) == Some(
            (a as int, b as int, c as int, d as int),
        ),
        r is None ==> opt_block_at(t@, s as int) is None,
        r matches Some((ke, bs, be, ce)) ==> s + 3 < ke && bs == ke + 2 && bs <= be && be + 5 <= ce
            && ce <= t@.len(),
{
    let op = vec!['{', '{', '?'];
    assert(op@ == pat_opt());
    if !occurs_at_exec(t, &op, s) {
        return None;
    }
    let n = t.len();
    assert(s + 3 <= n);
    let ke = scan_brace_exec(t, s + 3);
    if !(ke > s + 3) || !occurs_at_exec(t, &rbraces(), ke) {
        return None;
    }
    assert(ke + 2 <= n);
    match first_close_exec(t, ke + 2) {
        Some((be, ce)) => Some((ke, ke + 2, be, ce)),
        None => None,
    }
}

fn find_opt_exec(t: &Vec<char>, p: usize) -> (r: Option<(usize, usize, usize, usize, usize)>)
    ensures
        r matches Some((s, a, b, c, d)) ==> find_opt(t@, p as int) == Some(
            (s as int, (a as int, b as int, c as int, d as int)),
        ),
        r is None ==> find_opt(t@, p as int) is None,
        r matches Some((s, ke, bs, be, ce)) ==> p <= s && s + 3 < ke && bs == ke + 2 && bs <= be
            && be + 5 <= ce && ce <= t@.len(),
{
    let mut k = p;
    while k < t.len()
        invariant
            p <= k,
            find_opt(t@, p as int) == find_opt(t@, k as int),
        decreases t.len() - k,
    {
        match opt_block_at_exec(t, k) {
            Some((ke, bs, be, ce)) => {
                return Some((k, ke, bs, be, ce));
            },
            None => {},
        }
        k = k + 1;
    }
    None
}

fn placeholder_at_exec(t: &Vec<char>, s: usize) -> (r: Option<usize>)
    requires
        s < t@.len(),
    ensures
        r matches Some(e) ==> placeholder_at(t@, s as int) == Some(e as int),
        r is None ==> placeholder_at(t@, s as int) is None,
        r matches Some(e) ==> s + 3 <= e && e + 2 <= t@.len(),
{
    let lb = vec!['{', '{'];
    assert(lb@ == pat_lbraces());
    if !occurs_at_exec(t, &lb, s) {
        return None;
    }
    let n = t.len();
    assert(s + 2 <= n);
    if !(s + 2 < n) {
        return None;
    }
    let c = t[s + 2];
    if c == '?' || c == '#' || c == '/' {
        return None;
    }
    let r = scan_brace_exec(t, s + 3);
    if occurs_at_exec(t, &rbraces(), r) {
        Some(r)
    } else {
        None
    }
}

fn find_placeholder_exec(t: &Vec<char>, p: usize) -> (r: Option<(usize, usize)>)
    ensures
        r matches Some((s, e)) ==> find_placeholder(t@, p as int) == Some((s as int, e as int)),
        r is None ==> find_placeholder(t@, p as int) is None,
        r matches Some((s, e)) ==> p <= s && s + 3 <= e && e + 2 <= t@.len(),
{
    let mut k = p;
    while k < t.len()
        invariant
            p <= k,
            find_placeholder(t@, p as int) == find_placeholder(t@, k as int),
        decreases t.len() - k,
    {
        match placeholder_at_exec(t, k) {
            Some(e) => {
                return Some((k, e));
            },
            None => {},
        }
        k = k + 1;
    }
    None
}

fn ws_index_exec(t: &Vec<char>, i: usize) -> (r: usize)
    requires
        i <= t@.len(),
    ensures
        r as int == ws_index(t@, i as int),
        i <= r <= t@.len(),
{
    let mut k = i;
    while k < t.len() && !is_whitespace(t[k])
        invariant
            i <= k <= t@.len(),
            ws_index(t@, i as int) == ws_index(t@, k as int),
        decreases t.len() - k,
    {
        k = k + 1;
    }
    k
}

fn non_ws_index_exec(t: &Vec<char>, i: usize) -> (r: usize)
    requires
        i <= t@.len(),
    ensures
        r as int == non_ws_index(t@, i as int),
        i <= r <= t@.len(),
{
    let mut k = i;
    while k < t.len() && is_whitespace(t[k])
        invariant
            i <= k <= t@.len(),
            non_ws_index(t@, i as int) == non_ws_index(t@, k as int),
        decreases t.len() - k,
    {
        k = k + 1;
    }
    k
}

fn range_eq(t: &Vec<char>, from: usize, to: usize, w: &str) -> (r: bool)
    requires
        from <= to <= t@.len(),
    ensures
        r == (t@.subrange(from as int, to as int) == w@),
{
    let s = string_of_range(t, from, to);
    str_eq(s.as_str(), w)
}

fn quoted_exec(v: &str) -> (r: Vec<char>)
    ensures
        r@ == quoted(v@),
{
    let mut out: Vec<char> = Vec::new();
    push_str(&mut out, "'");
    push_str(&mut out, v);
    push_str(&mut out, "'");
    assert(out@ =~= quoted(v@));
    out
}

fn message(parts: &Vec<char>) -> (r: String)
    ensures
        r@ == parts@,
{
    string_of(parts)
}

fn placeholder_value_exec(token: &Vec<char>, ctx: &RenderContext) -> (r: Result<Vec<char>, String>)
    ensures
        match r {
            Ok(v) => placeholder_value(token@, ctx@) == Ok::<Seq<char>, Seq<char>>(v@),
            Err(e) => placeholder_value(token@, ctx@) == Err::<Seq<char>, Seq<char>>(e@),
        },
{
    let a0 = non_ws_index_exec(token, 0);
    let a1 = ws_index_exec(token, a0);
    let b0 = non_ws_index_exec(token, a1);
    let b1 = ws_index_exec(token, b0);
    let is_up = range_eq(token, a0, a1, "uppercase");
    let is_low = range_eq(token, a0, a1, "lowercase");
    let is_trim = range_eq(token, a0, a1, "trim");
    if a0 < token.len() && b0 < token.len() && (is_up || is_low || is_trim) {
        let key = string_of_range(token, b0, b1);
        match ctx.get(key.as_str()) {
            Some(base) => {
                if is_up {
                    Ok(chars_of(base.to_uppercase().as_str()))
                } else if is_low {
                    Ok(chars_of(base.to_lowercase().as_str()))
                } else {
                    let bv = chars_of(base);
                    let (x, y) = trim_bounds(&bv, 0, bv.len());
                    assert(bv@.subrange(0, bv@.len() as int) =~= bv@);
                    let mut out: Vec<char> = Vec::new();
                    push_range(&mut out, &bv, x, y);
                    assert(out@ =~= trim(base@));
                    Ok(out)
                }
            },
            None => {
                let helper = string_of_range(token, a0, a1);
                let mut m: Vec<char> = Vec::new();
                push_str(&mut m, "Missing variable for helper ");
                let q1 = quoted_exec(helper.as_str());
                push_range(&mut m, &q1, 0, q1.len());
                push_str(&mut m, ": ");
                let q2 = quoted_exec(key.as_str());
                push_range(&mut m, &q2, 0, q2.len());
                assert(q1@.subrange(0, q1@.len() as int) =~= q1@);
                assert(q2@.subrange(0, q2@.len() as int) =~= q2@);
                assert(m@ =~= "Missing variable for helper "@ + quoted(helper@) + ": "@ + quoted(key@));
                Err(message(&m))
            },
        }
    } else {
        let name = string_of(token);
        match ctx.get(name.as_str()) {
            Some(v) => Ok(chars_of(v)),
            None => {
                let mut m: Vec<char> = Vec::new();
                push_str(&mut m, "Missing required variable: ");
                let q = quoted_exec(name.as_str());
                push_range(&mut m, &q, 0, q.len());
                assert(q@.subrange(0, q@.len() as int) =~= q@);
                assert(m@ =~= "Missing required variable: "@ + quoted(token@));
                Err(message(&m))
            },
        }
    }
}

fn fill_exec(t: &Vec<char>, ctx: &RenderContext) -> (r: Result<Vec<char>, String>)
    ensures
        match r {
            Ok(v) => fill_from(t@, 0, ctx@) == Ok::<Seq<char>, Seq<char>>(v@),
            Err(e) => fill_from(t@, 0, ctx@) == Err::<Seq<char>, Seq<char>>(e@),
        },
{
    let mut out: Vec<char> = Vec::new();
    let mut p: usize = 0;
    assert(rcat(out@, fill_from(t@, 0, ctx@)) =~~= fill_from(t@, 0, ctx@));
    loop
        invariant
            p <= t@.len(),
            rcat(out@, fill_from(t@, p as int, ctx@)) == fill_from(t@, 0, ctx@),
        decreases t.len() - p,
    {
        let ghost out0 = out@;
        let ghost p0 = p as int;
        match find_placeholder_exec(t, p) {
            None => {
                push_range(&mut out, t, p, t.len());
                assert(rcat(out0, fill_from(t@, p as int, ctx@)) == Ok::<Seq<char>, Seq<char>>(out@));
                return Ok(out);
            },
            Some((s, e)) => {
                let (a, b) = trim_bounds(t, s + 2, e);
                let mut token: Vec<char> = Vec::new();
                push_range(&mut token, t, a, b);
                assert(token@ =~= trim(t@.subrange(s + 2, e as int)));
                match placeholder_value_exec(&token, ctx) {
                    Err(m) => {
                        assert(fill_from(t@, p0, ctx@) == Err::<Seq<char>, Seq<char>>(m@));
                        return Err(m);
                    },
                    Ok(v) => {
                        push_range(&mut out, t, p, s);
                        push_range(&mut out, &v, 0, v.len());
                        assert(v@.subrange(0, v@.len() as int) =~= v@);
                        assert(out@ =~= out0 + t@.subrange(p as int, s as int) + v@);
                        p = e + 2;
                        assert(fill_from(t@, p0, ctx@) == rcat(
                            t@.subrange(p0, s as int) + v@,
                            fill_from(t@, p as int, ctx@),
                        ));
                        proof {
                            lemma_rcat_assoc(out0, t@.subrange(p0, s as int) + v@, fill_from(t@, p as int, ctx@));
                            assert(out@ =~= out0 + (t@.subrange(p0, s as int) + v@));
                        }
                    },
                }
            },
        }
    }
}

/// `r` is the executable form of the result `s`.
pub open spec fn same_result(r: Result<Vec<char>, String>, s: Result<Seq<char>, Seq<char>>) -> bool {
    match r {
        Ok(v) => s == Ok::<Seq<char>, Seq<char>>(v@),
        Err(e) => s == Err::<Seq<char>, Seq<char>>(e@),
    }
}

fn sub_vec(t: &Vec<char>, from: usize, to: usize) -> (r: Vec<char>)
    requires
        from <= to <= t@.len(),
    ensures
        r@ == t@.subrange(from as int, to as int),
{
    let mut r: Vec<char> = Vec::new();
    push_range(&mut r, t, from, to);
    assert(r@ =~= t@.subrange(from as int, to as int));
    r
}

fn append_vec(out: &mut Vec<char>, v: &Vec<char>)
    ensures
        final(out)@ == old(out)@ + v@,
{
    push_range(out, v, 0, v.len());
    assert(v@.subrange(0, v@.len() as int) =~= v@);
}

fn trimmed_range(t: &Vec<char>, from: usize, to: usize) -> (r: Vec<char>)
    requires
        from <= to <= t@.len(),
    ensures
        r@ == trim(t@.subrange(from as int, to as int)),
{
    let (a, b) = trim_bounds(t, from, to);
    sub_vec(t, a, b)
}

fn opt_exec(t: &Vec<char>, ctx: &RenderContext, fuel: usize) -> (r: Result<Vec<char>, String>)
    ensures
        same_result(r, opt_from(t@, 0, ctx@, fuel as nat)),
    decreases fuel, 1usize, 0usize,
{
    let mut out: Vec<char> = Vec::new();
    let mut p: usize = 0;
    assert(rcat(out@, opt_from(t@, 0, ctx@, fuel as nat)) =~~= opt_from(t@, 0, ctx@, fuel as nat));
    loop
        invariant
            p <= t@.len(),
            rcat(out@, opt_from(t@, p as int, ctx@, fuel as nat)) == opt_from(t@, 0, ctx@, fuel as nat),
        decreases t.len() - p,
    {
        let ghost out0 = out@;
        let ghost p0 = p as int;
        match find_opt_exec(t, p) {
            None => {
                push_range(&mut out, t, p, t.len());
                return Ok(out);
            },
            Some((s, ke, bs, be, ce)) => {
                let key = string_of(&trimmed_range(t, s + 3, ke));
                let ghost pre = t@.subrange(p0, s as int);
                let ghost rest = opt_from(t@, ce as int, ctx@, fuel as nat);
                push_range(&mut out, t, p, s);
                match ctx.get(key.as_str()) {
                    Some(_) => {
                        let inner = sub_vec(t, bs, be);
                        match render_rec(&inner, ctx, fuel) {
                            Err(m) => {
                                return Err(m);
                            },
                            Ok(mid) => {
                                append_vec(&mut out, &mid);
                                proof {
                                    lemma_rcat_assoc(out0, pre + mid@, rest);
                                    assert(out@ =~= out0 + (pre + mid@));
                                }
                            },
                        }
                    },
                    None => {
                        proof {
                            lemma_rcat_assoc(out0, pre, rest);
                        }
                    },
                }
                p = ce;
            },
        }
    }
}

pub open spec fn stack_view(s: Seq<Vec<char>>) -> Seq<Seq<char>> {
    s.map_values(|v: Vec<char>| v@)
}

fn close_scan_exec(u: &Vec<char>, scan0: usize, stack0: Vec<Vec<char>>) -> (r: Option<(usize, usize)>)
    ensures
        r matches Some((a, b)) ==> close_scan(
            u@,
            scan0 as int,
            stack_view(stack0@),
        ) == Some((a as int, b as int)) && scan0 <= a && a + 3 <= b && b <= u@.len(),
        r is None ==> close_scan(u@, scan0 as int, stack_view(stack0@)) is None,
{
    let ghost target = close_scan(u@, scan0 as int, stack_view(stack0@));
    let ghost s0 = stack_view(stack0@);
    let mut stack = stack0;
    let mut scan = scan0;
    let po = vec!['{', '{', '#'];
    let pc = vec!['{', '{', '/'];
    let rb = rbraces();
    assert(po@ == pat_open());
    assert(pc@ == pat_close());
    loop
        invariant
            scan0 <= scan,
            po@ == pat_open(),
            pc@ == pat_close(),
            rb@ == pat_rbraces(),
            target == close_scan(u@, scan as int, stack_view(stack@)),
            target == close_scan(u@, scan0 as int, s0),
            s0 == stack_view(stack0@),
        decreases u.len() - scan,
    {
        let ghost sv = stack_view(stack@);
        assert(sv.len() == stack@.len());
        if scan >= u.len() || stack.len() == 0 {
            assert(close_scan(u@, scan as int, sv) is None);
            assert(target is None);
            return None;
        }
        let no = find_from_exec(u, &po, scan);
        let nc = find_from_exec(u, &pc, scan);
        proof {
            lemma_find_from(u@, pat_open(), scan as int);
            lemma_find_from(u@, pat_close(), scan as int);
        }
        let next: Option<(usize, bool)> = match (no, nc) {
            (Some(o), Some(c)) => if o < c {
                Some((o, true))
            } else {
                Some((c, false))
            },
            (Some(o), None) => Some((o, true)),
            (None, Some(c)) => Some((c, false)),
            (None, None) => None,
        };
        match next {
            None => {
                assert(find_from(u@, pat_open(), scan as int) is None);
                assert(find_from(u@, pat_close(), scan as int) is None);
                return None;
            },
            Some((p, is_open)) => {
                let n = u.len();
                assert(p + 3 <= n);
                match find_from_exec(u, &rb, p + 3) {
                    None => {
                        scan = p + 3;
                    },
                    Some(q) => {
                        proof {
                            lemma_find_from(u@, pat_rbraces(), p + 3);
                        }
                        assert(q + 2 <= n);
                        let tok = trimmed_range(u, p + 3, q);
                        if is_open {
                            let ghost tv = tok@;
                            let cl = closing_name_exec(tok);
                            stack.push(cl);
                            assert(stack_view(stack@) =~= sv.push(closing_name(tv)));
                            scan = q + 2;
                        } else {
                            let top_matches = vec_eq(&stack[stack.len() - 1], &tok);
                            assert(sv.last() == stack@[stack@.len() - 1]@);
                            if top_matches {
                                if stack.len() == 1 {
                                    return Some((p, q + 2));
                                }
                                stack.pop();
                                assert(stack_view(stack@) =~= sv.drop_last());
                            }
                            scan = q + 2;
                        }
                    },
                }
            },
        }
    }
}

fn vec_eq(a: &Vec<char>, b: &Vec<char>) -> (r: bool)
    ensures
        r == (a@ == b@),
{
    if a.len() != b.len() {
        return false;
    }
    let r = occurs_at_exec(a, b, 0);
    proof {
        if r {
            assert(a@.subrange(0, b@.len() as int) =~= a@);
        } else if a@ == b@ {
            assert(a@.subrange(0, b@.len() as int) =~= b@);
        }
    }
    r
}

fn closing_name_exec(tok: Vec<char>) -> (r: Vec<char>)
    ensures
        r@ == closing_name(tok@),
{
    let es = vec!['e', 'a', 'c', 'h', ' '];
    assert(es@ == pat_each_sp());
    if occurs_at_exec(&tok, &es, 0) {
        let w = vec!['e', 'a', 'c', 'h'];
        assert(w@ == word_each());
        w
    } else {
        tok
    }
}

fn each_var_exec(token: &Vec<char>) -> (r: Vec<char>)
    ensures
        r@ == each_var(token@),
{
    let es = vec!['e', 'a', 'c', 'h', ' '];
    assert(es@ == pat_each_sp());
    if occurs_at_exec(token, &es, 0) {
        let r = trimmed_range(token, 4, token.len());
        assert(token@.subrange(4, token@.len() as int) =~= token@.skip(4));
        r
    } else {
        sub_vec(token, 0, token.len())
    }
}

fn item_context_exec(item: &Json) -> (r: RenderContext)
    ensures
        r@ == item_context(item@),
{
    let mut ctx = RenderContext::new();
    match item {
        Json::Object(entries) => {
            proof {
                lemma_object_view(*entries);
            }
            let ghost ev = entries@.map_values(|e: (String, Json)| (e.0@, json_view(e.1)));
            let mut i: usize = 0;
            assert(ev.subrange(0, 0) =~= Seq::<(Seq<char>, JsonV)>::empty());
            while i < entries.len()
                invariant
                    i <= entries@.len(),
                    ev == entries@.map_values(|e: (String, Json)| (e.0@, json_view(e.1))),
                    ctx@ == item_members(ev.subrange(0, i as int)),
                decreases entries.len() - i,
            {
                let val: String = match &entries[i].1 {
                    Json::Str(s) => s.clone(),
                    other => compact_json(other),
                };
                ctx = ctx.with_var(entries[i].0.as_str(), val.as_str());
                assert(ev.subrange(0, i + 1).drop_last() =~= ev.subrange(0, i as int));
                assert(ev.subrange(0, i + 1).last() == ev[i as int]);
                i = i + 1;
            }
            assert(ev.subrange(0, entries@.len() as int) =~= ev);
            assert(item@ == JsonV::Object(ev));
        },
        _ => {},
    }
    let text = compact_json(item);
    proof {
        reveal_strlit("item");
    }
    ctx.with_var("item", text.as_str())
}

fn items_exec(arr: &Vec<Json>, body: &Vec<char>, fuel: usize) -> (r: Result<Vec<char>, String>)
    ensures
        same_result(r, items_from(arr@.map_values(|x: Json| x@), 0, body@, fuel as nat)),
    decreases fuel, 0usize, 1usize,
{
    let ghost av = arr@.map_values(|x: Json| x@);
    let mut out: Vec<char> = Vec::new();
    let pat = vec!['{', '{', 'i', 'n', 'd', 'e', 'x', '}', '}'];
    assert(pat@ == pat_index());
    let mut idx: usize = 0;
    assert(rcat(out@, items_from(av, 0, body@, fuel as nat)) =~~= items_from(av, 0, body@, fuel as nat));
    while idx < arr.len()
        invariant
            idx <= arr@.len(),
            pat@ == pat_index(),
            av == arr@.map_values(|x: Json| x@),
            rcat(out@, items_from(av, idx as int, body@, fuel as nat)) == items_from(av, 0, body@, fuel as nat),
        decreases arr.len() - idx,
    {
        let ghost out0 = out@;
        let ictx = item_context_exec(&arr[idx]);
        let mut digits: Vec<char> = Vec::new();
        push_decimal(&mut digits, idx as u64);
        let b2 = replace_all_exec(body, &pat, &digits);
        match render_rec(&b2, &ictx, fuel) {
            Err(m) => {
                return Err(m);
            },
            Ok(v) => {
                append_vec(&mut out, &v);
                proof {
                    lemma_rcat_assoc(out0, v@, items_from(av, idx + 1, body@, fuel as nat));
                }
            },
        }
        idx = idx + 1;
    }
    Ok(out)
}

fn each_error(prefix: &str, var: &Vec<char>, suffix: &str) -> (r: String)
    ensures
        r@ == prefix@ + quoted(var@) + suffix@,
{
    let v = string_of(var);
    let q = quoted_exec(v.as_str());
    let mut m: Vec<char> = Vec::new();
    push_str(&mut m, prefix);
    append_vec(&mut m, &q);
    push_str(&mut m, suffix);
    assert(m@ =~= prefix@ + quoted(var@) + suffix@);
    string_of(&m)
}

fn each_exec(u: &Vec<char>, ctx: &RenderContext, fuel: usize) -> (r: Result<Vec<char>, String>)
    ensures
        same_result(r, each_from(u@, 0, ctx@, fuel as nat)),
    decreases fuel, 1usize, 0usize,
{
    let mut out: Vec<char> = Vec::new();
    let mut p: usize = 0;
    let po = vec!['{', '{', '#'];
    let rb = rbraces();
    assert(po@ == pat_open());
    assert(rcat(out@, each_from(u@, 0, ctx@, fuel as nat)) =~~= each_from(u@, 0, ctx@, fuel as nat));
    loop
        invariant
            p <= u@.len(),
            po@ == pat_open(),
            rb@ == pat_rbraces(),
            rcat(out@, each_from(u@, p as int, ctx@, fuel as nat)) == each_from(u@, 0, ctx@, fuel as nat),
        decreases u.len() - p,
    {
        let ghost out0 = out@;
        let ghost p0 = p as int;
        let n = u.len();
        proof {
            lemma_find_from(u@, pat_open(), p as int);
        }
        match find_from_exec(u, &po, p) {
            None => {
                push_range(&mut out, u, p, u.len());
                return Ok(out);
            },
            Some(a) => {
                assert(a + 3 <= n);
                let ghost pre = u@.subrange(p0, a as int);
                proof {
                    lemma_find_from(u@, pat_rbraces(), a + 3);
                }
                match find_from_exec(u, &rb, a + 3) {
                    None => {
                        push_range(&mut out, u, p, a);
                        proof {
                            lemma_rcat_assoc(out0, pre, each_from(u@, a + 3, ctx@, fuel as nat));
                        }
                        p = a + 3;
                    },
                    Some(q) => {
                        assert(q + 2 <= n);
                        let token = trimmed_range(u, a + 3, q);
                        let var = each_var_exec(&token);
                        let cl = closing_name_exec(sub_vec(&token, 0, token.len()));
                        assert(token@.subrange(0, token@.len() as int) =~= token@);
                        let ghost clv = cl@;
                        let stack = vec![cl];
                        assert(stack_view(stack@) =~= seq![clv]);
                        match close_scan_exec(u, q + 2, stack) {
                            None => {
                                push_range(&mut out, u, p, a);
                                proof {
                                    lemma_rcat_assoc(out0, pre, each_from(u@, q + 2, ctx@, fuel as nat));
                                }
                                p = q + 2;
                            },
                            Some((be, ce)) => {
                                let var_s = string_of(&var);
                                match ctx.get(var_s.as_str()) {
                                    None => {
                                        let m = each_error("Missing list variable for each: ", &var, "");
                                        proof {
                                            reveal_strlit("");
                                            assert(m@ =~= "Missing list variable for each: "@ + quoted(var@));
                                            assert(each_from(u@, p as int, ctx@, fuel as nat) == Err::<Seq<char>, Seq<char>>(m@));
                                        }
                                        return Err(m);
                                    },
                                    Some(items_json) => {
                                        match parse_json(items_json) {
                                            Err(e) => {
                                                let m = each_error("Invalid JSON array for ", &var, ": ");
                                                let mut mv = chars_of(m.as_str());
                                                push_str(&mut mv, e.as_str());
                                                return Err(string_of(&mv));
                                            },
                                            Ok(items) => match items.as_array() {
                                                None => {
                                                    let m = each_error("", &var, " must be a JSON array");
                                                    proof {
                                                        reveal_strlit("");
                                                        assert(m@ =~= quoted(var@) + " must be a JSON array"@);
                                                        assert(each_from(u@, p as int, ctx@, fuel as nat) == Err::<Seq<char>, Seq<char>>(m@));
                                                    }
                                                    return Err(m);
                                                },
                                                Some(arr) => {
                                                    let body = sub_vec(u, q + 2, be);
                                                    match items_exec(arr, &body, fuel) {
                                                        Err(m) => {
                                                            return Err(m);
                                                        },
                                                        Ok(rendered) => {
                                                            push_range(&mut out, u, p, a);
                                                            append_vec(&mut out, &rendered);
                                                            proof {
                                                                lemma_rcat_assoc(
                                                                    out0,
                                                                    pre + rendered@,
                                                                    each_from(u@, ce as int, ctx@, fuel as nat),
                                                                );
                                                                assert(out@ =~= out0 + (pre + rendered@));
                                                            }
                                                            p = ce;
                                                        },
                                                    }
                                                },
                                            },
                                        }
                                    },
                                }
                            },
                        }
                    },
                }
            },
        }
    }
}

fn render_rec(t: &Vec<char>, ctx: &RenderContext, fuel: usize) -> (r: Result<Vec<char>, String>)
    ensures
        same_result(r, render_spec(t@, ctx@, fuel as nat)),
    decreases fuel, 0usize, 0usize,
{
    if fuel == 0 {
        return Err("template nesting too deep".to_string());
    }
    match opt_exec(t, ctx, fuel - 1) {
        Err(e) => Err(e),
        Ok(o) => match each_exec(&o, ctx, fuel - 1) {
            Err(e) => Err(e),
            Ok(u) => fill_exec(&u, ctx),
        },
    }
}

/// Renders a template: `{{?key}}...{{/key}}` blocks are kept and rendered
/// when `key` is set and dropped otherwise; `{{#each list}}...{{/each}}` (or
/// `{{#list}}...{{/list}}`) blocks are repeated once per item of the JSON
/// array in `list`, with the item's members, `item` and `{{index}}` in scope;
/// then every `{{name}}` is replaced by its variable, and `{{uppercase x}}`,
/// `{{lowercase x}}`, `{{trim x}}` by the helper applied to `x`. A missing
/// variable is an error; blocks nest at most `MAX_DEPTH` levels deep.
pub fn render_markdown(template: &str, ctx: &RenderContext) -> (r: Result<String, String>)
    ensures
        match r {
            Ok(s) => render_spec(template@, ctx@, MAX_DEPTH as nat) == Ok::<Seq<char>, Seq<char>>(s@),
            Err(e) => render_spec(template@, ctx@, MAX_DEPTH as nat) == Err::<Seq<char>, Seq<char>>(e@),
        },
{
    let t = chars_of(template);
    match render_rec(&t, ctx, MAX_DEPTH) {
        Ok(v) => Ok(string_of(&v)),
        Err(e) => Err(e),
    }
}

} // verus!
