use vstd::prelude::*;
use crate::text::{chars_of, occurs_at, find_from, find_from_exec, lemma_find_from, str_eq, string_of_range, trim, trim_bounds};

verus! {

/// The state that a list of `prefix:value` labels describes.
pub struct NormalizedState {
    pub agent: Option<String>,
    pub state: Option<String>,
    pub task_type: Option<String>,
    pub priority: Option<String>,
    pub platform: Option<String>,
    pub env: Option<String>,
    pub status: Option<String>,
    /// The other prefixes with their values: one entry per prefix, in the
    /// order the prefixes first came, each with its latest value.
    pub extra: Vec<(String, String)>,
}

/// The model of a normalized state.
pub struct StateV {
    pub agent: Option<Seq<char>>,
    pub state: Option<Seq<char>>,
    pub task_type: Option<Seq<char>>,
    pub priority: Option<Seq<char>>,
    pub platform: Option<Seq<char>>,
    pub env: Option<Seq<char>>,
    pub status: Option<Seq<char>>,
    pub extra: Seq<(Seq<char>, Seq<char>)>,
}

pub open spec fn opt_view(o: Option<String>) -> Option<Seq<char>> {
    match o {
        Some(s) => Some(s@),
        None => None,
    }
}

pub open spec fn pairs_view(v: Seq<(String, String)>) -> Seq<(Seq<char>, Seq<char>)> {
    v.map_values(|p: (String, String)| (p.0@, p.1@))
}

impl NormalizedState {
    pub open spec fn model(&self) -> StateV {
        StateV {
            agent: opt_view(self.agent),
            state: opt_view(self.state),
            task_type: opt_view(self.task_type),
            priority: opt_view(self.priority),
            platform: opt_view(self.platform),
            env: opt_view(self.env),
            status: opt_view(self.status),
            extra: pairs_view(self.extra@),
        }
    }

    /// The state with nothing set.
    pub fn new() -> (r: NormalizedState)
        ensures
            r.model() == empty_state(),
    {
        let r = NormalizedState {
            agent: None,
            state: None,
            task_type: None,
            priority: None,
            platform: None,
            env: None,
            status: None,
            extra: Vec::new(),
        };
        assert(pairs_view(r.extra@) =~= Seq::<(Seq<char>, Seq<char>)>::empty());
        r
    }
}

pub open spec fn empty_state() -> StateV {
    StateV {
        agent: None,
        state: None,
        task_type: None,
        priority: None,
        platform: None,
        env: None,
        status: None,
        extra: Seq::empty(),
    }
}

/// The place of the entry for `key`, from `i` on.
pub open spec fn key_index(e: Seq<(Seq<char>, Seq<char>)>, key: Seq<char>, i: int) -> Option<int>
    decreases e.len() - i,
{
    if i < 0 || i >= e.len() {
        None
    } else if e[i].0 == key {
        Some(i)
    } else {
        key_index(e, key, i + 1)
    }
}

/// `e` with `key` set to `value`: in its entry, or in a new one at the end.
pub open spec fn upsert(e: Seq<(Seq<char>, Seq<char>)>, key: Seq<char>, value: Seq<char>) -> Seq<
    (Seq<char>, Seq<char>),
> {
    match key_index(e, key, 0) {
        Some(i) => e.update(i, (key, value)),
        None => e.push((key, value)),
    }
}

/// The state after one more label: a label without ':' changes nothing;
/// otherwise its trimmed prefix says which field its trimmed value sets.
pub open spec fn normalize_step(st: StateV, label: Seq<char>) -> StateV {
    match find_from(label, seq![':'], 0) {
        None => st,
        Some(i) => {
            let p = trim(label.subrange(0, i));
            let v = trim(label.subrange(i + 1, label.len() as int));
            if p == "agent"@ {
                StateV { agent: Some(v), ..st }
            } else if p == "state"@ {
                StateV { state: Some(v), ..st }
            } else if p == "type"@ {
                StateV { task_type: Some(v), ..st }
            } else if p == "p"@ {
                StateV { priority: Some(v), ..st }
            } else if p == "plat"@ {
                StateV { platform: Some(v), ..st }
            } else if p == "env"@ {
                StateV { env: Some(v), ..st }
            } else if p == "status"@ {
                StateV { status: Some(v), ..st }
            } else {
                StateV { extra: upsert(st.extra, p, v), ..st }
            }
        },
    }
}

/// The state that labels describe, read in order.
pub open spec fn normalize_spec(labels: Seq<Seq<char>>) -> StateV
    decreases labels.len(),
{
    if labels.len() == 0 {
        empty_state()
    } else {
        normalize_step(normalize_spec(labels.drop_last()), labels.last())
    }
}

/// The value stored for `key` in the other prefixes, if any.
pub open spec fn extra_get(e: Seq<(Seq<char>, Seq<char>)>, key: Seq<char>) -> Option<Seq<char>> {
    match key_index(e, key, 0) {
        Some(i) => Some(e[i].1),
        None => None,
    }
}

proof fn lemma_key_index(e: Seq<(Seq<char>, Seq<char>)>, key: Seq<char>, from: int)
    requires
        0 <= from,
    ensures
        key_index(e, key, from) matches Some(i) ==> from <= i < e.len() && e[i].0 == key && forall|j: int|
            from <= j < i ==> (#[trigger] e[j]).0 != key,
        key_index(e, key, from) is None ==> forall|j: int| from <= j < e.len() ==> (#[trigger] e[j]).0 != key,
    decreases e.len() - from,
{
    if from < e.len() && e[from].0 != key {
        lemma_key_index(e, key, from + 1);
    }
}

proof fn lemma_key_index_first(e: Seq<(Seq<char>, Seq<char>)>, key: Seq<char>, i: int)
    requires
        0 <= i < e.len(),
        e[i].0 == key,
        forall|j: int| 0 <= j < i ==> (#[trigger] e[j]).0 != key,
    ensures
        key_index(e, key, 0) == Some(i),
{
    lemma_key_index(e, key, 0);
    match key_index(e, key, 0) {
        Some(i2) => {
            if i2 < i {
                assert(e[i2].0 != key);
            } else if i2 > i {
                assert(e[i].0 != key);
            }
        },
        None => {
            assert(e[i].0 != key);
        },
    }
}

proof fn lemma_upsert_get(e: Seq<(Seq<char>, Seq<char>)>, key: Seq<char>, value: Seq<char>, other: Seq<char>)
    ensures
        extra_get(upsert(e, key, value), key) == Some(value),
        other != key ==> extra_get(upsert(e, key, value), other) == extra_get(e, other),
{
    let u = upsert(e, key, value);
    lemma_key_index(e, key, 0);
    lemma_key_index(e, other, 0);
    match key_index(e, key, 0) {
        Some(i) => {
            lemma_key_index_first(u, key, i);
            if other != key {
                match key_index(e, other, 0) {
                    Some(j) => {
                        lemma_key_index_first(u, other, j);
                    },
                    None => {
                        lemma_key_index(u, other, 0);
                        if key_index(u, other, 0) is Some {
                            let j = key_index(u, other, 0)->Some_0;
                            assert(u[j] == e[j] || j == i);
                        }
                    },
                }
            }
        },
        None => {
            lemma_key_index_first(u, key, e.len() as int);
            if other != key {
                match key_index(e, other, 0) {
                    Some(j) => {
                        lemma_key_index_first(u, other, j);
                    },
                    None => {
                        lemma_key_index(u, other, 0);
                        if key_index(u, other, 0) is Some {
                            let j = key_index(u, other, 0)->Some_0;
                            assert(j == e.len() || u[j] == e[j]);
                        }
                    },
                }
            }
        },
    }
}

/// The law of labels: a label read last decides its field. A label without
/// ':' changes nothing. Otherwise, of its trimmed prefix and trimmed value,
/// `agent`, `state`, `type`, `p`, `plat`, `env` and `status` set their field
/// to the value and leave the rest as it was; any other prefix sets its
/// entry among the other prefixes to the value and leaves every other field
/// and entry as it was.
pub proof fn lemma_normalize_last(labels: Seq<Seq<char>>, p: Seq<char>, v: Seq<char>, l: Seq<char>, other: Seq<char>)
    requires
        forall|m: int| 0 <= m < p.len() ==> #[trigger] p[m] != ':',
    ensures
        (forall|m: int| 0 <= m < l.len() ==> #[trigger] l[m] != ':') ==> normalize_spec(labels.push(l))
            == normalize_spec(labels),
        ({
            let st = normalize_spec(labels);
            let st2 = normalize_spec(labels.push(p + seq![':'] + v));
            let k = trim(p);
            let w = trim(v);
            &&& k == "agent"@ ==> st2 == StateV { agent: Some(w), ..st }
            &&& k == "state"@ ==> st2 == StateV { state: Some(w), ..st }
            &&& k == "type"@ ==> st2 == StateV { task_type: Some(w), ..st }
            &&& k == "p"@ ==> st2 == StateV { priority: Some(w), ..st }
            &&& k == "plat"@ ==> st2 == StateV { platform: Some(w), ..st }
            &&& k == "env"@ ==> st2 == StateV { env: Some(w), ..st }
            &&& k == "status"@ ==> st2 == StateV { status: Some(w), ..st }
            &&& (k != "agent"@ && k != "state"@ && k != "type"@ && k != "p"@ && k != "plat"@ && k != "env"@ && k
                != "status"@) ==> {
                &&& st2 == StateV { extra: st2.extra, ..st }
                &&& extra_get(st2.extra, k) == Some(w)
                &&& (other != k ==> extra_get(st2.extra, other) == extra_get(st.extra, other))
            }
        }),
{
    reveal_strlit("agent");
    reveal_strlit("state");
    reveal_strlit("type");
    reveal_strlit("p");
    reveal_strlit("plat");
    reveal_strlit("env");
    reveal_strlit("status");
    assert("agent"@[0] != "state"@[0] && "agent"@[0] != "type"@[0] && "agent"@[0] != "p"@[0]
        && "agent"@[0] != "plat"@[0] && "agent"@[0] != "env"@[0] && "agent"@[0] != "status"@[0]);
    assert("state"@.len() != "status"@.len() && "state"@[0] != "type"@[0] && "state"@[0] != "p"@[0]
        && "state"@[0] != "plat"@[0] && "state"@[0] != "env"@[0]);
    assert("type"@[0] != "p"@[0] && "type"@[0] != "plat"@[0] && "type"@[0] != "env"@[0] && "type"@[0] != "status"@[0]);
    assert("p"@.len() != "plat"@.len() && "p"@[0] != "env"@[0] && "p"@[0] != "status"@[0]);
    assert("plat"@[0] != "env"@[0] && "plat"@[0] != "status"@[0] && "env"@[0] != "status"@[0]);
    let ls = labels.push(l);
    assert(ls.drop_last() =~= labels);
    lemma_find_from(l, seq![':'], 0);
    if find_from(l, seq![':'], 0) is Some {
        let i = find_from(l, seq![':'], 0)->Some_0;
        assert(l.subrange(i, i + 1)[0] == l[i]);
    }
    let lab = p + seq![':'] + v;
    let n = p.len() as int;
    let lp = labels.push(lab);
    assert(lp.drop_last() =~= labels);
    lemma_find_from(lab, seq![':'], 0);
    assert(lab.subrange(n, n + 1) =~= seq![':']);
    assert(occurs_at(lab, seq![':'], n));
    let i = find_from(lab, seq![':'], 0)->Some_0;
    if i < n {
        assert(lab.subrange(i, i + 1)[0] == lab[i]);
        assert(lab[i] == p[i]);
    }
    assert(i == n);
    assert(lab.subrange(0, n) =~= p);
    assert(lab.subrange(n + 1, lab.len() as int) =~= v);
    lemma_upsert_get(normalize_spec(labels).extra, trim(p), trim(v), other);
}

fn upsert_exec(e: &mut Vec<(String, String)>, key: String, value: String)
    ensures
        pairs_view(final(e)@) == upsert(pairs_view(old(e)@), key@, value@),
{
    let ghost ev = pairs_view(e@);
    let mut i: usize = 0;
    while i < e.len()
        invariant
            i <= e@.len(),
            ev == pairs_view(e@),
            e@ == old(e)@,
            key_index(ev, key@, 0) == key_index(ev, key@, i as int),
        decreases e.len() - i,
    {
        if str_eq(e[i].0.as_str(), key.as_str()) {
            let ghost kv = key@;
            let ghost vv = value@;
            e.set(i, (key, value));
            assert(pairs_view(e@) =~= ev.update(i as int, (kv, vv)));
            return;
        }
        i = i + 1;
    }
    let ghost kv = key@;
    let ghost vv = value@;
    e.push((key, value));
    assert(pairs_view(e@) =~= ev.push((kv, vv)));
}

/// Reads `prefix:value` labels into a state: `agent`, `state`, `type`, `p`,
/// `plat`, `env` and `status` set their fields, every other prefix goes to
/// `extra`; a later label overrides an earlier one; labels without ':' are
/// ignored.
pub fn normalize_labels(labels: Vec<String>) -> (r: NormalizedState)
    ensures
        r.model() == normalize_spec(labels@.map_values(|s: String| s@)),
{
    let ghost lv = labels@.map_values(|s: String| s@);
    let mut state = NormalizedState::new();
    let mut n: usize = 0;
    assert(lv.subrange(0, 0) =~= Seq::<Seq<char>>::empty());
    while n < labels.len()
        invariant
            n <= labels@.len(),
            lv == labels@.map_values(|s: String| s@),
            state.model() == normalize_spec(lv.subrange(0, n as int)),
        decreases labels.len() - n,
    {
        let ghost st0 = state.model();
        let label = labels[n].as_str();
        let v = chars_of(label);
        let colon = vec![':'];
        assert(colon@ =~= seq![':']);
        proof {
            lemma_find_from(v@, colon@, 0);
        }
        match find_from_exec(&v, &colon, 0) {
            None => {},
            Some(i) => {
                let (a, b) = trim_bounds(&v, 0, i);
                assert(i + 1 <= v@.len());
                assert(v@.len() == v.len());
                let (c, d) = trim_bounds(&v, i + 1, v.len());
                let prefix = string_of_range(&v, a, b);
                let value = string_of_range(&v, c, d);
                let p = prefix.as_str();
                if str_eq(p, "agent") {
                    state.agent = Some(value);
                } else if str_eq(p, "state") {
                    state.state = Some(value);
                } else if str_eq(p, "type") {
                    state.task_type = Some(value);
                } else if str_eq(p, "p") {
                    state.priority = Some(value);
                } else if str_eq(p, "plat") {
                    state.platform = Some(value);
                } else if str_eq(p, "env") {
                    state.env = Some(value);
                } else if str_eq(p, "status") {
                    state.status = Some(value);
                } else {
                    upsert_exec(&mut state.extra, prefix, value);
                }
            },
        }
        assert(state.model() == normalize_step(st0, lv[n as int]));
        assert(lv.subrange(0, n + 1).drop_last() =~= lv.subrange(0, n as int));
        n = n + 1;
    }
    assert(lv.subrange(0, n as int) =~= lv);
    state
}

/// Completes a state: a state that is set and has no status is in progress.
pub fn resolve_state(state: &mut NormalizedState)
    ensures
        final(state).model() == (if old(state).state is Some && old(state).status is None {
            StateV { status: Some("in-progress"@), ..old(state).model() }
        } else {
            old(state).model()
        }),
{
    if state.state.is_some() && state.status.is_none() {
        state.status = Some("in-progress".to_string());
    }
}

/// One event of a timeline of label changes.
pub struct TimelineEvent {
    pub event_type: String,
    pub labels: Vec<String>,
    pub actor: String,
    pub timestamp: String,
    /// Further facts about the event, one entry per key.
    pub metadata: Vec<(String, String)>,
}

impl TimelineEvent {
    /// An event with the given kind, labels, actor and time, and no metadata.
    pub fn new(event_type: String, labels: Vec<String>, actor: String, timestamp: String) -> (r: TimelineEvent)
        ensures
            r.event_type == event_type,
            r.labels == labels,
            r.actor == actor,
            r.timestamp == timestamp,
            r.metadata@.len() == 0,
    {
        TimelineEvent { event_type, labels, actor, timestamp, metadata: Vec::new() }
    }
}

/// An event with the given kind, labels, actor and time, and no metadata.
pub fn build_timeline_event(
    event_type: String,
    labels: Vec<String>,
    actor: String,
    timestamp: String,
) -> (r: TimelineEvent)
    ensures
        r.event_type == event_type,
        r.labels == labels,
        r.actor == actor,
        r.timestamp == timestamp,
        r.metadata@.len() == 0,
{
    TimelineEvent::new(event_type, labels, actor, timestamp)
}

} // verus!
