use vstd::prelude::*;
use crate::text::{ascii_lower, chars_of, push_range, push_str, replace_all, replace_all_exec, trim, trim_bounds, string_of_range, str_eq};
use crate::json::{Json, JsonV, json_view, get_spec, get_str_spec, as_array_spec, as_bool_spec};
use crate::parser::xml_events::{XmlEvent, XmlEventV, xml_events_of, read_xml_events, attr_pair_view};

verus! {

broadcast use vstd::string::group_string_axioms;

// ---------------------------------------------------------------------------
// Pre-processing of Markdown+XML text
// ---------------------------------------------------------------------------

/// The tags that the template format knows, by index.
pub open spec fn tag_name(k: usize) -> Seq<char> {
    if k == 0 {
        "workflow"@
    } else if k == 1 {
        "rules"@
    } else if k == 2 {
        "step"@
    } else if k == 3 {
        "loop_restart"@
    } else {
        "output_template"@
    }
}

/// The index of an allowed tag name, `None` for any other name.
pub open spec fn allowed_index(name: Seq<char>) -> Option<usize> {
    if name == tag_name(0) {
        Some(0)
    } else if name == tag_name(1) {
        Some(1)
    } else if name == tag_name(2) {
        Some(2)
    } else if name == tag_name(3) {
        Some(3)
    } else if name == tag_name(4) {
        Some(4)
    } else {
        None
    }
}

pub open spec fn is_ascii_alnum(c: char) -> bool {
    ('0' <= c && c <= '9') || ('a' <= c && c <= 'z') || ('A' <= c && c <= 'Z')
}

/// The bytes that `u8::is_ascii_whitespace` accepts.
pub open spec fn is_ascii_ws(c: char) -> bool {
    c == ' ' || c == '\t' || c == '\n' || c == '\x0C' || c == '\r'
}

pub open spec fn is_tag_char(c: char) -> bool {
    is_ascii_alnum(c) || c == '-' || c == '_'
}

/// The end of the run of tag-name characters that starts at `j`.
pub open spec fn scan_name(s: Seq<char>, j: int) -> int
    decreases s.len() - j,
{
    if 0 <= j < s.len() && is_tag_char(s[j]) {
        scan_name(s, j + 1)
    } else {
        j
    }
}

/// The first '>' at or after `j`, or the end of `s`.
pub open spec fn scan_gt(s: Seq<char>, j: int) -> int
    decreases s.len() - j,
{
    if 0 <= j < s.len() && s[j] != '>' {
        scan_gt(s, j + 1)
    } else {
        j
    }
}

/// The end of the run of entity characters that starts at `k`, stopping at `lim`.
pub open spec fn scan_entity(s: Seq<char>, k: int, lim: int) -> int
    decreases s.len() - k,
{
    if 0 <= k < s.len() && k < lim && (is_ascii_alnum(s[k]) || s[k] == '#') {
        scan_entity(s, k + 1, lim)
    } else {
        k
    }
}

/// Walks back from `k` over ASCII white space, not below `lo`.
pub open spec fn back_ws(s: Seq<char>, k: int, lo: int) -> int
    decreases k - lo,
{
    if k > lo && 0 <= k < s.len() && is_ascii_ws(s[k]) {
        back_ws(s, k - 1, lo)
    } else {
        k
    }
}

pub proof fn lemma_scans(s: Seq<char>, j: int, lim: int)
    ensures
        scan_name(s, j) >= j,
        scan_gt(s, j) >= j,
        scan_entity(s, j, lim) >= j,
        0 <= j <= s.len() ==> scan_name(s, j) <= s.len() && scan_gt(s, j) <= s.len()
            && scan_entity(s, j, lim) <= s.len(),
    decreases s.len() - j,
{
    if 0 <= j < s.len() {
        lemma_scans(s, j + 1, lim);
    }
}

proof fn lemma_scan_entity_lim(s: Seq<char>, k: int, lim1: int, lim2: int)
    requires
        lim1 == lim2 || (lim1 >= s.len() && lim2 >= s.len()),
    ensures
        scan_entity(s, k, lim1) == scan_entity(s, k, lim2),
    decreases s.len() - k,
{
    if 0 <= k < s.len() {
        lemma_scan_entity_lim(s, k + 1, lim1, lim2);
    }
}

/// The entity names kept as they stand.
pub open spec fn known_entity(e: Seq<char>) -> bool {
    e == "lt"@ || e == "gt"@ || e == "amp"@ || e == "quot"@ || e == "apos"@ || (e.len() > 0
        && e[0] == '#')
}

/// The closing tags for the tags still open, innermost first.
pub open spec fn closers(stack: Seq<usize>) -> Seq<char>
    decreases stack.len(),
{
    if stack.len() == 0 {
        Seq::empty()
    } else {
        "</"@ + tag_name(stack.last()) + ">"@ + closers(stack.drop_last())
    }
}

/// The pre-processed text from position `i` on, with the tags in `stack` open.
///
/// A '<' that does not begin an allowed tag becomes "&lt;"; an allowed tag is
/// copied whole and tracked (a closing tag closes the innermost open tag when
/// the names agree; a tag ending in '/' opens nothing); an allowed tag without
/// its '>' is copied to the end. A '&' that does not begin a known entity
/// becomes "&amp;". Tags still open at the end are closed.
pub open spec fn pp(s: Seq<char>, i: int, stack: Seq<usize>) -> Seq<char>
    decreases s.len() - i,
{
    if i < 0 || i >= s.len() {
        closers(stack)
    } else if s[i] == '<' {
        let closing = i + 1 < s.len() && s[i + 1] == '/';
        let ns = if closing { i + 2 } else { i + 1 };
        let ne = scan_name(s, ns);
        proof {
            lemma_scans(s, ns, 0);
            lemma_scans(s, ne, 0);
        }
        let name = s.subrange(ns, if ne <= s.len() { ne } else { s.len() as int });
        match allowed_index(name) {
            Some(k) => {
                let gt = scan_gt(s, ne);
                if gt < s.len() {
                    let stack2 = if closing {
                        if stack.len() > 0 && stack.last() == k {
                            stack.drop_last()
                        } else {
                            stack
                        }
                    } else {
                        let b = back_ws(s, gt - 1, ns);
                        if b <= ns || s[b] != '/' {
                            stack.push(k)
                        } else {
                            stack
                        }
                    };
                    s.subrange(i, gt + 1) + pp(s, gt + 1, stack2)
                } else {
                    s.subrange(i, s.len() as int) + closers(stack)
                }
            },
            None => "&lt;"@ + pp(s, i + 1, stack),
        }
    } else if s[i] == '&' {
        let k = scan_entity(s, i + 1, i + 10);
        proof {
            lemma_scans(s, i + 1, i + 10);
        }
        if k < s.len() && s[k] == ';' && known_entity(s.subrange(i + 1, k)) {
            s.subrange(i, k + 1) + pp(s, k + 1, stack)
        } else {
            "&amp;"@ + pp(s, i + 1, stack)
        }
    } else {
        seq![s[i]] + pp(s, i + 1, stack)
    }
}

/// The pre-processing of a whole template text.
pub open spec fn preprocess_spec(s: Seq<char>) -> Seq<char> {
    pp(s, 0, Seq::empty())
}


/// No '<' and no '&' in a text.
pub open spec fn no_markup(s: Seq<char>) -> bool {
    forall|m: int| 0 <= m < s.len() ==> #[trigger] s[m] != '<' && s[m] != '&'
}

proof fn lemma_pp_run(s: Seq<char>, i: int, j: int, stack: Seq<usize>)
    requires
        0 <= i <= j <= s.len(),
        forall|m: int| i <= m < j ==> #[trigger] s[m] != '<' && s[m] != '&',
    ensures
        pp(s, i, stack) == s.subrange(i, j) + pp(s, j, stack),
    decreases j - i,
{
    if i < j {
        lemma_pp_run(s, i + 1, j, stack);
        assert(s.subrange(i, j) =~= seq![s[i]] + s.subrange(i + 1, j));
    } else {
        assert(s.subrange(i, j) =~= Seq::<char>::empty());
    }
}

proof fn lemma_pp_tail(s: Seq<char>, i: int, stack: Seq<usize>)
    requires
        0 <= i <= s.len(),
        forall|m: int| i <= m < s.len() ==> #[trigger] s[m] != '<' && s[m] != '&',
    ensures
        pp(s, i, stack) == s.subrange(i, s.len() as int) + closers(stack),
{
    lemma_pp_run(s, i, s.len() as int, stack);
}

proof fn lemma_scan_name_run(s: Seq<char>, p: int, q: int)
    requires
        0 <= p <= q <= s.len(),
        forall|m: int| p <= m < q ==> is_tag_char(#[trigger] s[m]),
        q == s.len() || !is_tag_char(s[q]),
    ensures
        scan_name(s, p) == q,
    decreases q - p,
{
    if p < q {
        lemma_scan_name_run(s, p + 1, q);
    }
}

proof fn lemma_scan_entity_run(s: Seq<char>, p: int, q: int, lim: int)
    requires
        0 <= p <= q < s.len(),
        q < lim,
        forall|m: int| p <= m < q ==> is_ascii_alnum(#[trigger] s[m]),
        !is_ascii_alnum(s[q]) && s[q] != '#',
    ensures
        scan_entity(s, p, lim) == q,
    decreases q - p,
{
    if p < q {
        lemma_scan_entity_run(s, p + 1, q, lim);
    }
}

proof fn lemma_tag_name_chars(k: usize)
    ensures
        4 <= tag_name(k).len() <= 15,
        forall|m: int| 0 <= m < tag_name(k).len() ==> is_tag_char(#[trigger] tag_name(k)[m]),
        tag_name(k)[0] != '/',
        tag_name(k).last() != '/' && !is_ascii_ws(tag_name(k).last()),
        allowed_index(tag_name(k)) == Some(if k < 4 { k } else { 4usize }),
{
    reveal_strlit("workflow");
    reveal_strlit("rules");
    reveal_strlit("step");
    reveal_strlit("loop_restart");
    reveal_strlit("output_template");
    assert("workflow"@[0] != "rules"@[0] && "workflow"@[0] != "step"@[0] && "workflow"@[0] != "loop_restart"@[0]
        && "workflow"@[0] != "output_template"@[0]);
    assert("rules"@[0] != "step"@[0] && "rules"@[0] != "loop_restart"@[0] && "rules"@[0] != "output_template"@[0]);
    assert("step"@[0] != "loop_restart"@[0] && "step"@[0] != "output_template"@[0]);
    assert("loop_restart"@[0] != "output_template"@[0]);
}

/// The law of plain text: a text without '<' and '&' is left as it is.
pub proof fn lemma_preprocess_plain(s: Seq<char>)
    requires
        no_markup(s),
    ensures
        preprocess_spec(s) == s,
{
    lemma_pp_tail(s, 0, Seq::empty());
    assert(s.subrange(0, s.len() as int) =~= s);
}

/// The law of bare ampersands: a '&' that no ';' follows is written `&amp;`,
/// the text round it left as it is.
pub proof fn lemma_preprocess_bare_amp(a: Seq<char>, b: Seq<char>)
    requires
        no_markup(a),
        no_markup(b),
        forall|m: int| 0 <= m < b.len() ==> #[trigger] b[m] != ';',
    ensures
        preprocess_spec(a + seq!['&'] + b) == a + "&amp;"@ + b,
{
    let s = a + seq!['&'] + b;
    let i = a.len() as int;
    lemma_pp_run(s, 0, i, Seq::empty());
    assert(s.subrange(0, i) =~= a);
    lemma_scans(s, i + 1, i + 10);
    let k = scan_entity(s, i + 1, i + 10);
    if k < s.len() {
        assert(s[k] == b[k - i - 1]);
    }
    lemma_pp_tail(s, i + 1, Seq::empty());
    assert(s.subrange(i + 1, s.len() as int) =~= b);
}

/// The law of entities: `&lt;`, `&gt;`, `&amp;`, `&quot;` and `&apos;` are
/// kept as they are.
pub proof fn lemma_preprocess_entity(a: Seq<char>, e: Seq<char>, b: Seq<char>)
    requires
        no_markup(a),
        no_markup(b),
        e == "lt"@ || e == "gt"@ || e == "amp"@ || e == "quot"@ || e == "apos"@,
    ensures
        preprocess_spec(a + seq!['&'] + e + seq![';'] + b) == a + seq!['&'] + e + seq![';'] + b,
{
    reveal_strlit("lt");
    reveal_strlit("gt");
    reveal_strlit("amp");
    reveal_strlit("quot");
    reveal_strlit("apos");
    let s = a + seq!['&'] + e + seq![';'] + b;
    let i = a.len() as int;
    let q = i + 1 + e.len();
    lemma_pp_run(s, 0, i, Seq::empty());
    assert(s.subrange(0, i) =~= a);
    assert forall|m: int| i + 1 <= m < q implies is_ascii_alnum(#[trigger] s[m]) by {
        assert(s[m] == e[m - i - 1]);
    }
    assert(s[q] == ';');
    lemma_scan_entity_run(s, i + 1, q, i + 10);
    assert(s.subrange(i + 1, q) =~= e);
    assert(known_entity(e));
    lemma_pp_tail(s, q + 1, Seq::empty());
    assert(s.subrange(q + 1, s.len() as int) =~= b);
    assert(s.subrange(i, q + 1) =~= seq!['&'] + e + seq![';']);
    assert(s.subrange(0, i) + (s.subrange(i, q + 1) + (b + closers(Seq::empty()))) =~= s);
}

/// The law of stray '<': a '<' that begins no tag name (what follows is no
/// letter, digit, '-', '_' or '/') is written `&lt;`.
pub proof fn lemma_preprocess_stray_lt(a: Seq<char>, b: Seq<char>)
    requires
        no_markup(a),
        no_markup(b),
        b.len() > 0 ==> !is_tag_char(b[0]) && b[0] != '/',
    ensures
        preprocess_spec(a + seq!['<'] + b) == a + "&lt;"@ + b,
{
    let s = a + seq!['<'] + b;
    let i = a.len() as int;
    lemma_pp_run(s, 0, i, Seq::empty());
    assert(s.subrange(0, i) =~= a);
    if i + 1 < s.len() {
        assert(s[i + 1] == b[0]);
    }
    lemma_scan_name_run(s, i + 1, i + 1);
    assert(s.subrange(i + 1, i + 1).len() == 0);
    lemma_tag_name_chars(0);
    lemma_tag_name_chars(1);
    lemma_tag_name_chars(2);
    lemma_tag_name_chars(3);
    lemma_tag_name_chars(4);
    assert(allowed_index(s.subrange(i + 1, i + 1)) is None);
    lemma_pp_tail(s, i + 1, Seq::empty());
    assert(s.subrange(i + 1, s.len() as int) =~= b);
}

/// The law of unclosed tags: an allowed tag left open to the end of the text
/// is closed there.
pub proof fn lemma_preprocess_autoclose(k: usize, body: Seq<char>)
    requires
        no_markup(body),
    ensures
        preprocess_spec(seq!['<'] + tag_name(k) + seq!['>'] + body) == seq!['<'] + tag_name(k) + seq!['>'] + body
            + seq!['<', '/'] + tag_name(k) + seq!['>'],
{
    let n = tag_name(k);
    let s = seq!['<'] + n + seq!['>'] + body;
    lemma_tag_name_chars(k);
    let ne: int = 1 + n.len() as int;
    assert(s[1] == n[0]);
    assert forall|m: int| 1 <= m < ne implies is_tag_char(#[trigger] s[m]) by {
        assert(s[m] == n[m - 1]);
    }
    assert(s[ne] == '>');
    lemma_scan_name_run(s, 1, ne);
    assert(s.subrange(1, ne) =~= n);
    let kk: usize = if k < 4 { k } else { 4usize };
    assert(tag_name(kk) == n);
    assert(scan_gt(s, ne) == ne);
    assert(s[ne - 1] == n.last());
    assert(back_ws(s, ne - 1, 1) == ne - 1);
    lemma_pp_tail(s, ne + 1, seq![kk]);
    assert(s.subrange(ne + 1, s.len() as int) =~= body);
    assert(seq![kk].last() == kk);
    assert(seq![kk].drop_last() =~= Seq::<usize>::empty());
    assert(closers(seq![kk]) == "</"@ + n + ">"@ + closers(Seq::<usize>::empty()));
    reveal_strlit("</");
    reveal_strlit(">");
    assert(s.subrange(0, ne + 1) =~= seq!['<'] + n + seq!['>']);
    assert(pp(s, 0, Seq::empty()) == s.subrange(0, ne + 1) + pp(s, ne + 1, seq![kk]));
    assert(pp(s, 0, Seq::empty()) =~= seq!['<'] + n + seq!['>'] + body + seq!['<', '/'] + n + seq!['>']);
}

fn eq_range(v: &Vec<char>, from: usize, to: usize, w: &str) -> (r: bool)
    requires
        from <= to <= v@.len(),
    ensures
        r == (v@.subrange(from as int, to as int) == w@),
{
    let c = chars_of(w);
    if to - from != c.len() {
        proof {
            if v@.subrange(from as int, to as int) == w@ {
                assert(v@.subrange(from as int, to as int).len() == c@.len());
            }
        }
        return false;
    }
    let mut k: usize = 0;
    while k < c.len()
        invariant
            from <= to <= v@.len(),
            to - from == c@.len(),
            c@ == w@,
            k <= c@.len(),
            forall|m: int| 0 <= m < k ==> v@[from + m] == c@[m],
        decreases c.len() - k,
    {
        if v[from + k] != c[k] {
            assert(v@.subrange(from as int, to as int)[k as int] != c@[k as int]);
            return false;
        }
        k = k + 1;
    }
    assert(v@.subrange(from as int, to as int) =~= c@);
    true
}

fn allowed_index_exec(v: &Vec<char>, from: usize, to: usize) -> (r: Option<usize>)
    requires
        from <= to <= v@.len(),
    ensures
        r == allowed_index(v@.subrange(from as int, to as int)),
{
    if eq_range(v, from, to, "workflow") {
        Some(0)
    } else if eq_range(v, from, to, "rules") {
        Some(1)
    } else if eq_range(v, from, to, "step") {
        Some(2)
    } else if eq_range(v, from, to, "loop_restart") {
        Some(3)
    } else if eq_range(v, from, to, "output_template") {
        Some(4)
    } else {
        None
    }
}

fn tag_name_exec(k: usize) -> (r: &'static str)
    ensures
        r@ == tag_name(k),
{
    if k == 0 {
        "workflow"
    } else if k == 1 {
        "rules"
    } else if k == 2 {
        "step"
    } else if k == 3 {
        "loop_restart"
    } else {
        "output_template"
    }
}

fn is_ascii_alnum_exec(c: char) -> (r: bool)
    ensures
        r == is_ascii_alnum(c),
{
    ('0' <= c && c <= '9') || ('a' <= c && c <= 'z') || ('A' <= c && c <= 'Z')
}

fn scan_name_exec(v: &Vec<char>, j: usize) -> (r: usize)
    requires
        j <= v@.len(),
    ensures
        r as int == scan_name(v@, j as int),
        j <= r <= v@.len(),
{
    let mut k = j;
    while k < v.len() && (is_ascii_alnum_exec(v[k]) || v[k] == '-' || v[k] == '_')
        invariant
            j <= k <= v@.len(),
            scan_name(v@, j as int) == scan_name(v@, k as int),
        decreases v.len() - k,
    {
        k = k + 1;
    }
    k
}

fn scan_gt_exec(v: &Vec<char>, j: usize) -> (r: usize)
    requires
        j <= v@.len(),
    ensures
        r as int == scan_gt(v@, j as int),
        j <= r <= v@.len(),
{
    let mut k = j;
    while k < v.len() && v[k] != '>'
        invariant
            j <= k <= v@.len(),
            scan_gt(v@, j as int) == scan_gt(v@, k as int),
        decreases v.len() - k,
    {
        k = k + 1;
    }
    k
}

fn scan_entity_exec(v: &Vec<char>, j: usize, lim: usize) -> (r: usize)
    requires
        j <= v@.len(),
    ensures
        r as int == scan_entity(v@, j as int, lim as int),
        j <= r <= v@.len(),
{
    let mut k = j;
    while k < v.len() && k < lim && (is_ascii_alnum_exec(v[k]) || v[k] == '#')
        invariant
            j <= k <= v@.len(),
            scan_entity(v@, j as int, lim as int) == scan_entity(v@, k as int, lim as int),
        decreases v.len() - k,
    {
        k = k + 1;
    }
    k
}

fn back_ws_exec(v: &Vec<char>, j: usize, lo: usize) -> (r: usize)
    requires
        j < v@.len(),
    ensures
        r as int == back_ws(v@, j as int, lo as int),
        r <= j,
{
    let mut k = j;
    while k > lo && (v[k] == ' ' || v[k] == '\t' || v[k] == '\n' || v[k] == '\x0C' || v[k] == '\r')
        invariant
            k <= j < v@.len(),
            back_ws(v@, j as int, lo as int) == back_ws(v@, k as int, lo as int),
        decreases k,
    {
        k = k - 1;
    }
    k
}

fn push_closers(out: &mut Vec<char>, stack: &Vec<usize>)
    ensures
        final(out)@ == old(out)@ + closers(stack@),
{
    let mut n = stack.len();
    assert(stack@.subrange(0, stack@.len() as int) =~= stack@);
    while n > 0
        invariant
            n <= stack@.len(),
            out@ + closers(stack@.subrange(0, n as int)) == old(out)@ + closers(stack@),
        decreases n,
    {
        let ghost before = out@;
        let ghost st = stack@.subrange(0, n as int);
        push_str(out, "</");
        push_str(out, tag_name_exec(stack[n - 1]));
        push_str(out, ">");
        assert(st.drop_last() =~= stack@.subrange(0, n - 1));
        assert(st.last() == stack@[n - 1]);
        n = n - 1;
        assert(out@ + closers(stack@.subrange(0, n as int)) =~= before + closers(st));
    }
    assert(closers(stack@.subrange(0, 0)) =~= Seq::<char>::empty());
    assert(stack@.subrange(0, stack@.len() as int) =~= stack@);
}

fn pp_lt(s: &Vec<char>, i: usize, out: &mut Vec<char>, stack: &mut Vec<usize>) -> (r: Option<usize>)
    requires
        i < s.len(),
        s@[i as int] == '<',
    ensures
        match r {
            Some(j) => i < j <= s@.len() && final(out)@ + pp(s@, j as int, final(stack)@)
                == old(out)@ + pp(s@, i as int, old(stack)@),
            None => final(out)@ == old(out)@ + pp(s@, i as int, old(stack)@),
        },
{
    let ghost out0 = out@;
    let ghost st0 = stack@;
    let closing = i + 1 < s.len() && s[i + 1] == '/';
    let ns = if closing { i + 2 } else { i + 1 };
    let ne = scan_name_exec(s, ns);
    match allowed_index_exec(s, ns, ne) {
        Some(k) => {
            let gt = scan_gt_exec(s, ne);
            if gt < s.len() {
                if closing {
                    if stack.len() > 0 && stack[stack.len() - 1] == k {
                        stack.pop();
                    }
                } else {
                    let b = back_ws_exec(s, gt - 1, ns);
                    if b <= ns || s[b] != '/' {
                        stack.push(k);
                    }
                }
                push_range(out, s, i, gt + 1);
                assert(pp(s@, i as int, st0) == s@.subrange(i as int, gt + 1) + pp(
                    s@,
                    gt + 1,
                    stack@,
                ));
                assert(out@ + pp(s@, gt + 1, stack@) =~= out0 + pp(s@, i as int, st0));
                Some(gt + 1)
            } else {
                push_range(out, s, i, s.len());
                push_closers(out, stack);
                assert(pp(s@, i as int, st0) == s@.subrange(i as int, s@.len() as int) + closers(
                    st0,
                ));
                assert(out@ =~= out0 + pp(s@, i as int, st0));
                None
            }
        },
        None => {
            push_str(out, "&lt;");
            assert(pp(s@, i as int, st0) == "&lt;"@ + pp(s@, i + 1, st0));
            assert(out@ + pp(s@, i + 1, stack@) =~= out0 + pp(s@, i as int, st0));
            Some(i + 1)
        },
    }
}

fn pp_amp(s: &Vec<char>, i: usize, out: &mut Vec<char>, stack: &Vec<usize>) -> (j: usize)
    requires
        i < s.len(),
        s@[i as int] == '&',
    ensures
        i < j <= s@.len(),
        final(out)@ + pp(s@, j as int, stack@) == old(out)@ + pp(s@, i as int, stack@),
{
    let ghost out0 = out@;
    let lim = if i <= usize::MAX - 10 { i + 10 } else { usize::MAX };
    let k = scan_entity_exec(s, i + 1, lim);
    proof {
        lemma_scan_entity_lim(s@, i + 1, lim as int, i + 10);
    }
    let keep = if k < s.len() && s[k] == ';' {
        eq_range(s, i + 1, k, "lt") || eq_range(s, i + 1, k, "gt") || eq_range(s, i + 1, k, "amp")
            || eq_range(s, i + 1, k, "quot") || eq_range(s, i + 1, k, "apos") || (k > i + 1 && s[i
            + 1] == '#')
    } else {
        false
    };
    proof {
        if k < s@.len() && s@[k as int] == ';' && k > i + 1 {
            assert(s@.subrange(i + 1, k as int)[0] == s@[i + 1]);
        }
    }
    if keep {
        push_range(out, s, i, k + 1);
        assert(pp(s@, i as int, stack@) == s@.subrange(i as int, k + 1) + pp(s@, k + 1, stack@));
        assert(out@ + pp(s@, k + 1, stack@) =~= out0 + pp(s@, i as int, stack@));
        k + 1
    } else {
        push_str(out, "&amp;");
        assert(pp(s@, i as int, stack@) == "&amp;"@ + pp(s@, i + 1, stack@));
        assert(out@ + pp(s@, i + 1, stack@) =~= out0 + pp(s@, i as int, stack@));
        i + 1
    }
}

/// Pre-processes Markdown+XML text: escapes every '<' that does not begin
/// an allowed tag and every '&' that does not begin a known entity, and closes
/// the allowed tags left open.
pub fn preprocess_markdown(input: &str) -> (r: String)
    ensures
        r@ == preprocess_spec(input@),
{
    let s = chars_of(input);
    let mut out: Vec<char> = Vec::new();
    let mut stack: Vec<usize> = Vec::new();
    let mut i: usize = 0;
    while i < s.len()
        invariant
            s@ == input@,
            i <= s@.len(),
            out@ + pp(s@, i as int, stack@) == pp(s@, 0, Seq::empty()),
        decreases s.len() - i,
    {
        let ghost out0 = out@;
        let ghost i0 = i as int;
        if s[i] == '<' {
            match pp_lt(&s, i, &mut out, &mut stack) {
                Some(j) => {
                    i = j;
                },
                None => {
                    return string_of_vec(&out);
                },
            }
        } else if s[i] == '&' {
            i = pp_amp(&s, i, &mut out, &stack);
        } else {
            out.push(s[i]);
            i = i + 1;
            assert(pp(s@, i0, stack@) == seq![s@[i0]] + pp(s@, i as int, stack@));
            assert(out@ + pp(s@, i as int, stack@) =~= out0 + pp(s@, i0, stack@));
        }
    }
    push_closers(&mut out, &stack);
    string_of_vec(&out)
}

fn string_of_vec(v: &Vec<char>) -> (r: String)
    ensures
        r@ == v@,
{
    crate::text::string_of(v)
}

// ---------------------------------------------------------------------------
// From XML events to the template value
// ---------------------------------------------------------------------------

/// A step being read: its id, whether it is critical, and its content so far.
#[verifier::ext_equal]
pub struct StepV {
    pub id: Seq<char>,
    pub critical: bool,
    pub content: Seq<char>,
}

/// What the parser has gathered from the events read so far.
#[verifier::ext_equal]
pub struct MdState {
    pub in_rules: bool,
    pub in_step: bool,
    pub in_loop: bool,
    pub in_output: bool,
    pub attrs: Seq<(Seq<char>, Seq<char>)>,
    pub rules: Seq<char>,
    pub steps: Seq<StepV>,
    pub current: Option<StepV>,
    pub loop_restart: Seq<char>,
    pub output: Seq<char>,
}

pub open spec fn md_init() -> MdState {
    MdState {
        in_rules: false,
        in_step: false,
        in_loop: false,
        in_output: false,
        attrs: Seq::empty(),
        rules: Seq::empty(),
        steps: Seq::empty(),
        current: None,
        loop_restart: Seq::empty(),
        output: Seq::empty(),
    }
}

/// The value of the last attribute named `key` (later attributes override
/// earlier ones, as a JSON object keyed by attribute name keeps them).
pub open spec fn attr_last(a: Seq<(Seq<char>, Seq<char>)>, key: Seq<char>) -> Option<Seq<char>>
    decreases a.len(),
{
    if a.len() == 0 {
        None
    } else if a.last().0 == key {
        Some(a.last().1)
    } else {
        attr_last(a.drop_last(), key)
    }
}

/// The five XML entities replaced, one after the other, as `str::replace` does.
pub open spec fn unescape(t: Seq<char>) -> Seq<char> {
    replace_all(
        replace_all(
            replace_all(replace_all(replace_all(t, "&lt;"@, "<"@), "&gt;"@, ">"@), "&amp;"@, "&"@),
            "&quot;"@,
            "\""@,
        ),
        "&apos;"@,
        "'"@,
    )
}

/// `s.eq_ignore_ascii_case("true") || s == "1"`.
pub open spec fn is_true_flag(s: Seq<char>) -> bool {
    (s.len() == 4 && (s[0] == 't' || s[0] == 'T') && (s[1] == 'r' || s[1] == 'R') && (s[2] == 'u'
        || s[2] == 'U') && (s[3] == 'e' || s[3] == 'E')) || s == "1"@
}

/// The effect of one event (other than end of input, an error, or `</workflow>`).
pub open spec fn md_step(st: MdState, ev: XmlEventV) -> Result<MdState, Seq<char>> {
    match ev {
        XmlEventV::Start { name, attrs } => {
            if name == tag_name(0) {
                match attrs {
                    Ok(a) => Ok(MdState { attrs: a, ..st }),
                    Err(e) => Err("Attribute parse error: "@ + e),
                }
            } else if name == tag_name(1) {
                Ok(MdState { in_rules: true, rules: Seq::empty(), ..st })
            } else if name == tag_name(2) {
                match attrs {
                    Err(e) => Err("Attribute parse error: "@ + e),
                    Ok(a) => match attr_last(a, "id"@) {
                        None => Err("Step requires 'id' attribute"@),
                        Some(id) => Ok(
                            MdState {
                                in_step: true,
                                current: Some(
                                    StepV {
                                        id,
                                        critical: match attr_last(a, "critical"@) {
                                            Some(c) => is_true_flag(c),
                                            None => false,
                                        },
                                        content: Seq::empty(),
                                    },
                                ),
                                ..st
                            },
                        ),
                    },
                }
            } else if name == tag_name(3) {
                Ok(MdState { in_loop: true, loop_restart: Seq::empty(), ..st })
            } else if name == tag_name(4) {
                Ok(MdState { in_output: true, output: Seq::empty(), ..st })
            } else {
                Ok(st)
            }
        },
        XmlEventV::End { name } => {
            if name == tag_name(1) {
                Ok(MdState { in_rules: false, ..st })
            } else if name == tag_name(2) {
                match st.current {
                    Some(c) => Ok(
                        MdState { in_step: false, steps: st.steps.push(c), current: None, ..st },
                    ),
                    None => Ok(MdState { in_step: false, ..st }),
                }
            } else if name == tag_name(3) {
                Ok(MdState { in_loop: false, ..st })
            } else if name == tag_name(4) {
                Ok(MdState { in_output: false, ..st })
            } else {
                Ok(st)
            }
        },
        XmlEventV::Text(raw) => {
            let t = unescape(raw);
            if st.in_rules {
                Ok(MdState { rules: st.rules + t + "\n"@, ..st })
            } else if st.in_step {
                match st.current {
                    Some(c) => Ok(
                        MdState { current: Some(StepV { content: c.content + t, ..c }), ..st },
                    ),
                    None => Ok(st),
                }
            } else if st.in_loop {
                Ok(MdState { loop_restart: st.loop_restart + t + "\n"@, ..st })
            } else if st.in_output {
                Ok(MdState { output: st.output + t + "\n"@, ..st })
            } else {
                Ok(st)
            }
        },
        XmlEventV::CData(t) => {
            if st.in_rules {
                Ok(MdState { rules: st.rules + t, ..st })
            } else if st.in_step {
                match st.current {
                    Some(c) => Ok(
                        MdState { current: Some(StepV { content: c.content + t, ..c }), ..st },
                    ),
                    None => Ok(st),
                }
            } else {
                Ok(st)
            }
        },
        _ => Ok(st),
    }
}

/// Reads the events from position `i`: stops at the end of input or at
/// `</workflow>`, fails at a reader error or a bad step.
pub open spec fn md_fold(evs: Seq<XmlEventV>, i: int, st: MdState) -> Result<MdState, Seq<char>>
    decreases evs.len() - i,
{
    if i < 0 || i >= evs.len() {
        Ok(st)
    } else {
        match evs[i] {
            XmlEventV::Eof => Ok(st),
            XmlEventV::Error(e) => Err("XML parse error: "@ + e),
            XmlEventV::End { name } => {
                if name == tag_name(0) {
                    Ok(st)
                } else {
                    match md_step(st, evs[i]) {
                        Ok(st2) => md_fold(evs, i + 1, st2),
                        Err(e) => Err(e),
                    }
                }
            },
            _ => match md_step(st, evs[i]) {
                Ok(st2) => md_fold(evs, i + 1, st2),
                Err(e) => Err(e),
            },
        }
    }
}

pub open spec fn step_json(s: StepV) -> JsonV {
    JsonV::Object(
        seq![
            ("content"@, JsonV::Str(s.content)),
            ("critical"@, JsonV::Bool(s.critical)),
            ("id"@, JsonV::Str(s.id)),
        ],
    )
}

pub open spec fn attr_or_empty(a: Seq<(Seq<char>, Seq<char>)>, key: Seq<char>) -> Seq<char> {
    match attr_last(a, key) {
        Some(v) => v,
        None => Seq::empty(),
    }
}

/// The template value built from what the parser gathered.
pub open spec fn md_result(st: MdState) -> JsonV {
    JsonV::Object(
        seq![
            (
                "output_template"@,
                JsonV::Object(
                    seq![
                        ("content"@, JsonV::Str(trim(st.output))),
                        ("format"@, JsonV::Str("markdown"@)),
                    ],
                ),
            ),
            (
                "workflow"@,
                JsonV::Object(
                    seq![
                        ("loop_restart"@, JsonV::Str(trim(st.loop_restart))),
                        ("restart"@, JsonV::Str(attr_or_empty(st.attrs, "restart"@))),
                        ("rules"@, JsonV::Str(trim(st.rules))),
                        ("steps"@, JsonV::Array(st.steps.map_values(|s: StepV| step_json(s)))),
                        ("title"@, JsonV::Str(attr_or_empty(st.attrs, "title"@))),
                    ],
                ),
            ),
        ],
    )
}

/// The template value that a sequence of XML events describes, or the error.
pub open spec fn md_template(evs: Seq<XmlEventV>) -> Result<JsonV, Seq<char>> {
    match md_fold(evs, 0, md_init()) {
        Ok(st) => Ok(md_result(st)),
        Err(e) => Err(e),
    }
}

/// The restart note that texts make: each unescaped and followed by a newline.
pub open spec fn note_of(ts: Seq<Seq<char>>) -> Seq<char>
    decreases ts.len(),
{
    if ts.len() == 0 {
        Seq::empty()
    } else {
        note_of(ts.drop_last()) + unescape(ts.last()) + "\n"@
    }
}

/// The events of a `<workflow>` (attributes `a`) that holds a
/// `<loop_restart>` (attributes `b`) made of the texts `ts`.
pub open spec fn loop_doc(
    a: Seq<(Seq<char>, Seq<char>)>,
    b: Result<Seq<(Seq<char>, Seq<char>)>, Seq<char>>,
    ts: Seq<Seq<char>>,
) -> Seq<XmlEventV> {
    seq![
        XmlEventV::Start { name: "workflow"@, attrs: Ok(a) },
        XmlEventV::Start { name: "loop_restart"@, attrs: b },
    ] + ts.map_values(|t: Seq<char>| XmlEventV::Text(t)) + seq![
        XmlEventV::End { name: "loop_restart"@ },
        XmlEventV::End { name: "workflow"@ },
    ]
}

proof fn lemma_tag_names()
    ensures
        "loop_restart"@ != "workflow"@,
        "loop_restart"@ != "rules"@,
        "loop_restart"@ != "step"@,
        "loop_restart"@ == tag_name(3),
        "workflow"@ == tag_name(0),
        "output_template"@ != "workflow"@,
{
    reveal_strlit("loop_restart");
    reveal_strlit("workflow");
    reveal_strlit("rules");
    reveal_strlit("step");
    reveal_strlit("output_template");
    assert("loop_restart"@[0] != "workflow"@[0]);
    assert("loop_restart"@[0] != "rules"@[0]);
    assert("loop_restart"@[0] != "step"@[0]);
    assert("output_template"@[0] != "workflow"@[0]);
}

proof fn lemma_loop_doc_fold(
    a: Seq<(Seq<char>, Seq<char>)>,
    b: Result<Seq<(Seq<char>, Seq<char>)>, Seq<char>>,
    ts: Seq<Seq<char>>,
    k: int,
)
    requires
        0 <= k <= ts.len(),
    ensures
        md_fold(loop_doc(a, b, ts), 2 + k, MdState { attrs: a, in_loop: true, loop_restart: note_of(ts.take(k)), ..md_init() })
            == md_fold(loop_doc(a, b, ts), 2 + ts.len() as int, MdState { attrs: a, in_loop: true, loop_restart: note_of(ts), ..md_init() }),
    decreases ts.len() - k,
{
    let evs = loop_doc(a, b, ts);
    if k == ts.len() {
        assert(ts.take(k) =~= ts);
    } else {
        lemma_loop_doc_fold(a, b, ts, k + 1);
        lemma_tag_names();
        assert(evs[2 + k] == XmlEventV::Text(ts[k]));
        assert(ts.take(k + 1).drop_last() =~= ts.take(k));
        let st = MdState { attrs: a, in_loop: true, loop_restart: note_of(ts.take(k)), ..md_init() };
        let st2 = MdState { attrs: a, in_loop: true, loop_restart: note_of(ts.take(k + 1)), ..md_init() };
        assert(md_step(st, evs[2 + k]) == Ok::<MdState, Seq<char>>(st2));
    }
}

/// The law of text inside `<loop_restart>`: outside rules and steps, each
/// text read there is unescaped and added to the restart note with a newline,
/// and nothing else changes.
pub proof fn lemma_loop_restart_text(st: MdState, raw: Seq<char>)
    requires
        st.in_loop,
        !st.in_rules,
        !st.in_step,
    ensures
        md_step(st, XmlEventV::Text(raw)) == Ok::<MdState, Seq<char>>(
            MdState { loop_restart: st.loop_restart + unescape(raw) + "\n"@, ..st },
        ),
{
}

/// The law of text: a text read inside `<rules>` is unescaped and added to
/// the rules with a newline; inside a `<step>`, added to that step's content
/// as it is; inside `<output_template>` (and no other of these), added to the
/// output body with a newline; outside all of them, dropped.
pub proof fn lemma_md_text(st: MdState, raw: Seq<char>)
    ensures
        st.in_rules ==> md_step(st, XmlEventV::Text(raw)) == Ok::<MdState, Seq<char>>(
            MdState { rules: st.rules + unescape(raw) + "\n"@, ..st },
        ),
        !st.in_rules && st.in_step && st.current is Some ==> md_step(st, XmlEventV::Text(raw)) == Ok::<
            MdState,
            Seq<char>,
        >(
            MdState {
                current: Some(
                    StepV { content: st.current->Some_0.content + unescape(raw), ..st.current->Some_0 },
                ),
                ..st
            },
        ),
        !st.in_rules && !st.in_step && !st.in_loop && st.in_output ==> md_step(st, XmlEventV::Text(raw))
            == Ok::<MdState, Seq<char>>(MdState { output: st.output + unescape(raw) + "\n"@, ..st }),
        !st.in_rules && !st.in_step && !st.in_loop && !st.in_output ==> md_step(st, XmlEventV::Text(raw))
            == Ok::<MdState, Seq<char>>(st),
{
}

/// The law of the result: the template's workflow has the `title` and
/// `restart` attributes of `<workflow>` (else empty), the trimmed rules and
/// restart note, and the steps read, in order, each with its id, content and
/// critical flag; its output template has the trimmed output body and the
/// format `markdown`.
pub proof fn lemma_md_result(st: MdState)
    ensures
        get_spec(md_result(st), "workflow"@) matches Some(w) && {
            &&& get_str_spec(w, "title"@) == Some(attr_or_empty(st.attrs, "title"@))
            &&& get_str_spec(w, "restart"@) == Some(attr_or_empty(st.attrs, "restart"@))
            &&& get_str_spec(w, "rules"@) == Some(trim(st.rules))
            &&& get_str_spec(w, "loop_restart"@) == Some(trim(st.loop_restart))
            &&& get_spec(w, "steps"@) matches Some(JsonV::Array(a)) && a.len() == st.steps.len()
                && forall|k: int|
                0 <= k < a.len() ==> {
                    &&& get_str_spec(#[trigger] a[k], "id"@) == Some(st.steps[k].id)
                    &&& get_str_spec(a[k], "content"@) == Some(st.steps[k].content)
                    &&& get_spec(a[k], "critical"@) == Some(JsonV::Bool(st.steps[k].critical))
                }
        },
        get_spec(md_result(st), "output_template"@) matches Some(o) && get_str_spec(o, "content"@) == Some(
            trim(st.output),
        ) && get_str_spec(o, "format"@) == Some("markdown"@),
{
    reveal_strlit("output_template");
    reveal_strlit("workflow");
    reveal_strlit("loop_restart");
    reveal_strlit("restart");
    reveal_strlit("rules");
    reveal_strlit("steps");
    reveal_strlit("title");
    reveal_strlit("content");
    reveal_strlit("critical");
    reveal_strlit("id");
    reveal_strlit("format");
    assert("output_template"@[0] != "workflow"@[0]);
    assert("loop_restart"@[0] != "restart"@[0]);
    assert("loop_restart"@[0] != "rules"@[0]);
    assert("loop_restart"@[0] != "steps"@[0]);
    assert("loop_restart"@[0] != "title"@[0]);
    assert("restart"@[1] != "rules"@[1]);
    assert("restart"@[0] != "steps"@[0]);
    assert("restart"@[0] != "title"@[0]);
    assert("rules"@[0] != "steps"@[0]);
    assert("rules"@[0] != "title"@[0]);
    assert("steps"@[0] != "title"@[0]);
    assert("content"@[1] != "critical"@[1]);
    assert("content"@[0] != "id"@[0]);
    assert("critical"@[0] != "id"@[0]);
    assert("content"@[0] != "format"@[0]);
    reveal_with_fuel(crate::json::entries_get, 6);
    let v = md_result(st);
    let top = v->Object_0;
    assert(top.drop_first()[0].0 == "workflow"@);
    let w = top[1].1;
    let we = w->Object_0;
    assert(we.drop_first()[0].0 == "restart"@);
    assert(we.drop_first().drop_first()[0].0 == "rules"@);
    assert(we.drop_first().drop_first().drop_first()[0].0 == "steps"@);
    assert(we.drop_first().drop_first().drop_first().drop_first()[0].0 == "title"@);
    let o = top[0].1;
    assert(o->Object_0.drop_first()[0].0 == "format"@);
    let a = st.steps.map_values(|s: StepV| step_json(s));
    assert forall|k: int| 0 <= k < a.len() implies {
        &&& get_str_spec(#[trigger] a[k], "id"@) == Some(st.steps[k].id)
        &&& get_str_spec(a[k], "content"@) == Some(st.steps[k].content)
        &&& get_spec(a[k], "critical"@) == Some(JsonV::Bool(st.steps[k].critical))
    } by {
        let e = a[k]->Object_0;
        assert(e.drop_first()[0].0 == "critical"@);
        assert(e.drop_first().drop_first()[0].0 == "id"@);
    }
}

proof fn lemma_attr_last(a: Seq<(Seq<char>, Seq<char>)>, key: Seq<char>)
    ensures
        attr_last(a, key) is None <==> forall|i: int| 0 <= i < a.len() ==> (#[trigger] a[i]).0 != key,
        attr_last(a, key) matches Some(v) ==> exists|i: int|
            0 <= i < a.len() && a[i] == (key, v) && forall|j: int| i < j < a.len() ==> (#[trigger] a[j]).0 != key,
    decreases a.len(),
{
    if a.len() > 0 {
        let d = a.drop_last();
        lemma_attr_last(d, key);
        if a.last().0 == key {
            assert(a[a.len() - 1] == (key, a.last().1));
        } else {
            if attr_last(d, key) is None {
                assert forall|i: int| 0 <= i < a.len() implies (#[trigger] a[i]).0 != key by {
                    if i < d.len() {
                        assert(a[i] == d[i]);
                    }
                }
            } else {
                let v = attr_last(d, key)->Some_0;
                let i = choose|i: int|
                    0 <= i < d.len() && d[i] == (key, v) && forall|j: int| i < j < d.len() ==> (#[trigger] d[j]).0 != key;
                assert(a[i] == d[i]);
                assert forall|j: int| i < j < a.len() implies (#[trigger] a[j]).0 != key by {
                    if j < d.len() {
                        assert(a[j] == d[j]);
                    }
                }
                assert(!(forall|i: int| 0 <= i < a.len() ==> (#[trigger] a[i]).0 != key)) by {
                    assert(a[i].0 == key);
                }
            }
        }
    }
}

/// The law of steps: a `<step>` whose attributes cannot be read fails with
/// the reader's error, and one without `id` fails; otherwise a step opens with
/// the last `id` attribute, an empty content, and the flag `critical` set
/// exactly where the last `critical` attribute is `1` or `true` in any case,
/// the steps read so far untouched; `</step>` adds the open step after them.
pub proof fn lemma_step_tags(st: MdState, a: Seq<(Seq<char>, Seq<char>)>, e: Seq<char>)
    ensures
        md_step(st, XmlEventV::Start { name: "step"@, attrs: Err(e) }) == Err::<MdState, Seq<char>>(
            "Attribute parse error: "@ + e,
        ),
        (forall|i: int| 0 <= i < a.len() ==> (#[trigger] a[i]).0 != "id"@) ==> md_step(
            st,
            XmlEventV::Start { name: "step"@, attrs: Ok(a) },
        ) == Err::<MdState, Seq<char>>("Step requires 'id' attribute"@),
        forall|i: int|
            0 <= i < a.len() && (#[trigger] a[i]).0 == "id"@ && (forall|j: int| i < j < a.len() ==> a[j].0 != "id"@)
                ==> ({
                let r = md_step(st, XmlEventV::Start { name: "step"@, attrs: Ok(a) });
                &&& r is Ok
                &&& r->Ok_0.in_step
                &&& r->Ok_0.steps == st.steps
                &&& r->Ok_0.current is Some
                &&& r->Ok_0.current->Some_0.id == a[i].1
                &&& r->Ok_0.current->Some_0.content.len() == 0
                &&& (r->Ok_0.current->Some_0.critical <==> exists|k: int|
                    0 <= k < a.len() && a[k].0 == "critical"@ && (forall|j: int| k < j < a.len() ==> a[j].0 != "critical"@)
                        && (a[k].1 == "1"@ || a[k].1.map_values(|ch: char| ascii_lower(ch)) == "true"@))
            }),
        st.current matches Some(c) ==> md_step(st, XmlEventV::End { name: "step"@ }) == Ok::<MdState, Seq<char>>(
            MdState { in_step: false, steps: st.steps.push(c), current: None, ..st },
        ),
{
    reveal_strlit("step");
    reveal_strlit("workflow");
    reveal_strlit("rules");
    reveal_strlit("true");
    assert("step"@[0] != "workflow"@[0] && "step"@[0] != "rules"@[0]);
    assert("step"@ == tag_name(2));
    lemma_attr_last(a, "id"@);
    lemma_attr_last(a, "critical"@);
    assert forall|i: int|
        0 <= i < a.len() && (#[trigger] a[i]).0 == "id"@ && (forall|j: int| i < j < a.len() ==> a[j].0 != "id"@)
            implies attr_last(a, "id"@) == Some(a[i].1) by {
        let v = attr_last(a, "id"@)->Some_0;
        let i2 = choose|i2: int|
            0 <= i2 < a.len() && a[i2] == ("id"@, v) && forall|j: int| i2 < j < a.len() ==> (#[trigger] a[j]).0 != "id"@;
        if i2 < i {
            assert(a[i].0 != "id"@);
        } else if i2 > i {
            assert(a[i2].0 != "id"@);
        }
    }
    match attr_last(a, "critical"@) {
        Some(c) => {
            let k = choose|k: int|
                0 <= k < a.len() && a[k] == ("critical"@, c) && forall|j: int| k < j < a.len() ==> (#[trigger] a[j]).0 != "critical"@;
            assert forall|k2: int|
                0 <= k2 < a.len() && a[k2].0 == "critical"@ && (forall|j: int| k2 < j < a.len() ==> a[j].0 != "critical"@)
                    implies k2 == k by {
                if k2 < k {
                    assert(a[k].0 == "critical"@);
                } else if k2 > k {
                    assert(a[k2].0 != "critical"@);
                }
            }
            lemma_true_flag(c);
        },
        None => {},
    }
}

proof fn lemma_lower_is(c: char, lo: char, up: char)
    requires
        97 <= lo as u32 <= 122,
        up as u32 == lo as u32 - 32,
        ascii_lower(c) == lo,
    ensures
        c == lo || c == up,
{
    if 65 <= (c as u32) && (c as u32) <= 90 {
        assert(((c as u32) + 32) as char == lo);
        assert((c as u32) + 32 == lo as u32);
        assert(c as u32 == up as u32);
    }
}

proof fn lemma_true_flag(c: Seq<char>)
    ensures
        is_true_flag(c) <==> (c == "1"@ || c.map_values(|ch: char| ascii_lower(ch)) == "true"@),
{
    reveal_strlit("true");
    let l = c.map_values(|ch: char| ascii_lower(ch));
    if l == "true"@ {
        assert(l.len() == 4);
        assert(l[0] == 't' && l[1] == 'r' && l[2] == 'u' && l[3] == 'e');
        lemma_lower_is(c[0], 't', 'T');
        lemma_lower_is(c[1], 'r', 'R');
        lemma_lower_is(c[2], 'u', 'U');
        lemma_lower_is(c[3], 'e', 'E');
    }
    if c.len() == 4 && (c[0] == 't' || c[0] == 'T') && (c[1] == 'r' || c[1] == 'R') && (c[2] == 'u' || c[2] == 'U')
        && (c[3] == 'e' || c[3] == 'E') {
        assert(l =~= "true"@);
    }
}

/// The law of the restart note: a `<loop_restart>` whose content is texts
/// gives `workflow.loop_restart`: those texts unescaped, each followed by a
/// newline, all trimmed; of a single text `t`, `trim(unescape(t) + "\n")`.
pub proof fn lemma_loop_restart_note(
    a: Seq<(Seq<char>, Seq<char>)>,
    b: Result<Seq<(Seq<char>, Seq<char>)>, Seq<char>>,
    ts: Seq<Seq<char>>,
)
    ensures
        md_template(loop_doc(a, b, ts)) is Ok,
        get_spec(md_template(loop_doc(a, b, ts))->Ok_0, "workflow"@) matches Some(w) && get_str_spec(
            w,
            "loop_restart"@,
        ) == Some(trim(note_of(ts))),
        ts.len() == 1 ==> note_of(ts) == unescape(ts[0]) + "\n"@,
{
    let evs = loop_doc(a, b, ts);
    lemma_tag_names();
    let n = ts.len() as int;
    assert(evs[0] == XmlEventV::Start { name: "workflow"@, attrs: Ok::<Seq<(Seq<char>, Seq<char>)>, Seq<char>>(a) });
    assert(evs[1] == XmlEventV::Start { name: "loop_restart"@, attrs: b });
    assert(evs[2 + n] == XmlEventV::End { name: "loop_restart"@ });
    assert(evs[3 + n] == XmlEventV::End { name: "workflow"@ });
    let st0 = MdState { attrs: a, ..md_init() };
    let st1 = MdState { attrs: a, in_loop: true, loop_restart: note_of(ts.take(0)), ..md_init() };
    assert(ts.take(0).len() == 0);
    assert(md_step(md_init(), evs[0]) == Ok::<MdState, Seq<char>>(st0));
    assert(md_step(st0, evs[1]) =~= Ok::<MdState, Seq<char>>(st1));
    lemma_loop_doc_fold(a, b, ts, 0);
    let stn = MdState { attrs: a, in_loop: true, loop_restart: note_of(ts), ..md_init() };
    let ste = MdState { attrs: a, in_loop: false, loop_restart: note_of(ts), ..md_init() };
    assert(md_step(stn, evs[2 + n]) == Ok::<MdState, Seq<char>>(ste));
    assert(md_fold(evs, 3 + n, ste) == Ok::<MdState, Seq<char>>(ste));
    assert(md_fold(evs, 2 + n, stn) == Ok::<MdState, Seq<char>>(ste));
    assert(md_fold(evs, 1, st0) == md_fold(evs, 2, st1));
    assert(md_fold(evs, 0, md_init()) == Ok::<MdState, Seq<char>>(ste));
    reveal_with_fuel(crate::json::entries_get, 3);
    let v = md_result(ste);
    assert(v->Object_0[1].0 == "workflow"@);
    assert(get_spec(v, "workflow"@) == Some(v->Object_0[1].1));
    if ts.len() == 1 {
        assert(ts.drop_last() =~= Seq::<Seq<char>>::empty());
    }
}

/// The template value of a Markdown+XML text, or the error.
pub open spec fn markdown_template_spec(input: Seq<char>) -> Result<JsonV, Seq<char>> {
    md_template(xml_events_of(preprocess_spec(input)))
}

struct StepAcc {
    id: String,
    critical: bool,
    content: Vec<char>,
}

struct Acc {
    in_rules: bool,
    in_step: bool,
    in_loop: bool,
    in_output: bool,
    attrs: Vec<(String, String)>,
    rules: Vec<char>,
    steps: Vec<StepAcc>,
    current: Option<StepAcc>,
    loop_restart: Vec<char>,
    output: Vec<char>,
}

spec fn step_acc_view(s: StepAcc) -> StepV {
    StepV { id: s.id@, critical: s.critical, content: s.content@ }
}

spec fn acc_view(a: Acc) -> MdState {
    MdState {
        in_rules: a.in_rules,
        in_step: a.in_step,
        in_loop: a.in_loop,
        in_output: a.in_output,
        attrs: a.attrs@.map_values(|p: (String, String)| attr_pair_view(p)),
        rules: a.rules@,
        steps: a.steps@.map_values(|s: StepAcc| step_acc_view(s)),
        current: match a.current {
            Some(c) => Some(step_acc_view(c)),
            None => None,
        },
        loop_restart: a.loop_restart@,
        output: a.output@,
    }
}

fn attr_last_exec(a: &Vec<(String, String)>, key: &str) -> (r: Option<String>)
    ensures
        match r {
            Some(v) => attr_last(a@.map_values(|p: (String, String)| attr_pair_view(p)), key@)
                == Some(v@),
            None => attr_last(a@.map_values(|p: (String, String)| attr_pair_view(p)), key@) is None,
        },
{
    let ghost av = a@.map_values(|p: (String, String)| attr_pair_view(p));
    let mut n = a.len();
    assert(av.subrange(0, av.len() as int) =~= av);
    while n > 0
        invariant
            n <= a@.len(),
            av == a@.map_values(|p: (String, String)| attr_pair_view(p)),
            attr_last(av, key@) == attr_last(av.subrange(0, n as int), key@),
        decreases n,
    {
        let ghost sub = av.subrange(0, n as int);
        assert(sub.last() == attr_pair_view(a@[n - 1]));
        if str_eq(a[n - 1].0.as_str(), key) {
            return Some(a[n - 1].1.clone());
        }
        assert(sub.drop_last() =~= av.subrange(0, n - 1));
        n = n - 1;
    }
    None
}

fn clone_attrs(a: &Vec<(String, String)>) -> (r: Vec<(String, String)>)
    ensures
        r@.map_values(|p: (String, String)| attr_pair_view(p)) == a@.map_values(
            |p: (String, String)| attr_pair_view(p),
        ),
{
    let mut r: Vec<(String, String)> = Vec::new();
    let mut i: usize = 0;
    while i < a.len()
        invariant
            i <= a@.len(),
            r@.len() == i,
            forall|k: int| 0 <= k < i ==> attr_pair_view(#[trigger] r@[k]) == attr_pair_view(a@[k]),
        decreases a.len() - i,
    {
        r.push((a[i].0.clone(), a[i].1.clone()));
        i = i + 1;
    }
    assert(r@.map_values(|p: (String, String)| attr_pair_view(p)) =~= a@.map_values(
        |p: (String, String)| attr_pair_view(p),
    ));
    r
}

fn is_true_flag_exec(s: &str) -> (r: bool)
    ensures
        r == is_true_flag(s@),
{
    let v = chars_of(s);
    let four = v.len() == 4 && (v[0] == 't' || v[0] == 'T') && (v[1] == 'r' || v[1] == 'R') && (
    v[2] == 'u' || v[2] == 'U') && (v[3] == 'e' || v[3] == 'E');
    four || str_eq(s, "1")
}

fn replace_step(v: &Vec<char>, p: &str, r: &str) -> (out: Vec<char>)
    requires
        p@.len() > 0,
    ensures
        out@ == replace_all(v@, p@, r@),
{
    let pv = chars_of(p);
    let rv = chars_of(r);
    replace_all_exec(v, &pv, &rv)
}

/// Replaces the five XML entities in raw text.
fn unescape_exec(raw: &str) -> (r: Vec<char>)
    ensures
        r@ == unescape(raw@),
{
    proof {
        reveal_strlit("&lt;");
        reveal_strlit("&gt;");
        reveal_strlit("&amp;");
        reveal_strlit("&quot;");
        reveal_strlit("&apos;");
    }
    let v = chars_of(raw);
    let v = replace_step(&v, "&lt;", "<");
    let v = replace_step(&v, "&gt;", ">");
    let v = replace_step(&v, "&amp;", "&");
    let v = replace_step(&v, "&quot;", "\"");
    replace_step(&v, "&apos;", "'")
}

fn append_text(dst: &mut Vec<char>, t: &Vec<char>, newline: bool)
    ensures
        final(dst)@ == if newline { old(dst)@ + t@ + "\n"@ } else { old(dst)@ + t@ },
{
    push_range(dst, t, 0, t.len());
    assert(t@.subrange(0, t@.len() as int) =~= t@);
    if newline {
        push_str(dst, "\n");
    }
}

fn md_step_exec(acc: &mut Acc, ev: &XmlEvent) -> (r: Result<(), String>)
    ensures
        match r {
            Ok(_) => md_step(acc_view(*old(acc)), ev@) == Ok::<MdState, Seq<char>>(acc_view(*final(acc))),
            Err(e) => md_step(acc_view(*old(acc)), ev@) == Err::<MdState, Seq<char>>(e@),
        },
{
    match ev {
        XmlEvent::Start { name, attrs } => {
            if str_eq(name.as_str(), "workflow") {
                match attrs {
                    Ok(a) => {
                        acc.attrs = clone_attrs(a);
                        Ok(())
                    },
                    Err(e) => Err(concat("Attribute parse error: ", e.as_str())),
                }
            } else if str_eq(name.as_str(), "rules") {
                acc.in_rules = true;
                acc.rules = Vec::new();
                Ok(())
            } else if str_eq(name.as_str(), "step") {
                match attrs {
                    Err(e) => Err(concat("Attribute parse error: ", e.as_str())),
                    Ok(a) => match attr_last_exec(a, "id") {
                        None => Err("Step requires 'id' attribute".to_string()),
                        Some(id) => {
                            let critical = match attr_last_exec(a, "critical") {
                                Some(c) => is_true_flag_exec(c.as_str()),
                                None => false,
                            };
                            acc.in_step = true;
                            acc.current = Some(StepAcc { id, critical, content: Vec::new() });
                            Ok(())
                        },
                    },
                }
            } else if str_eq(name.as_str(), "loop_restart") {
                acc.in_loop = true;
                acc.loop_restart = Vec::new();
                Ok(())
            } else if str_eq(name.as_str(), "output_template") {
                acc.in_output = true;
                acc.output = Vec::new();
                Ok(())
            } else {
                Ok(())
            }
        },
        XmlEvent::End { name } => {
            if str_eq(name.as_str(), "rules") {
                acc.in_rules = false;
            } else if str_eq(name.as_str(), "step") {
                acc.in_step = false;
                match acc.current.take() {
                    Some(c) => {
                        acc.steps.push(c);
                        assert(acc.steps@.map_values(|s: StepAcc| step_acc_view(s)) =~= old(
                            acc,
                        ).steps@.map_values(|s: StepAcc| step_acc_view(s)).push(step_acc_view(c)));
                    },
                    None => {},
                }
            } else if str_eq(name.as_str(), "loop_restart") {
                acc.in_loop = false;
            } else if str_eq(name.as_str(), "output_template") {
                acc.in_output = false;
            }
            Ok(())
        },
        XmlEvent::Text(raw) => {
            let t = unescape_exec(raw.as_str());
            if acc.in_rules {
                append_text(&mut acc.rules, &t, true);
            } else if acc.in_step {
                match acc.current.take() {
                    Some(mut c) => {
                        append_text(&mut c.content, &t, false);
                        acc.current = Some(c);
                    },
                    None => {},
                }
            } else if acc.in_loop {
                append_text(&mut acc.loop_restart, &t, true);
            } else if acc.in_output {
                append_text(&mut acc.output, &t, true);
            }
            Ok(())
        },
        XmlEvent::CData(t0) => {
            let t = chars_of(t0.as_str());
            if acc.in_rules {
                append_text(&mut acc.rules, &t, false);
            } else if acc.in_step {
                match acc.current.take() {
                    Some(mut c) => {
                        append_text(&mut c.content, &t, false);
                        acc.current = Some(c);
                    },
                    None => {},
                }
            }
            Ok(())
        },
        _ => Ok(()),
    }
}

/// `a` followed by `b`, as a new string.
pub fn concat(a: &str, b: &str) -> (r: String)
    ensures
        r@ == a@ + b@,
{
    let mut v: Vec<char> = Vec::new();
    push_str(&mut v, a);
    push_str(&mut v, b);
    string_of_vec(&v)
}

fn trimmed(v: &Vec<char>) -> (r: String)
    ensures
        r@ == trim(v@),
{
    let (a, b) = trim_bounds(v, 0, v.len());
    assert(v@.subrange(0, v@.len() as int) =~= v@);
    string_of_range(v, a, b)
}

fn str_json(s: String) -> (r: Json)
    ensures
        r@ == JsonV::Str(s@),
{
    Json::Str(s)
}

fn bool_json(b: bool) -> (r: Json)
    ensures
        r@ == JsonV::Bool(b),
{
    Json::Bool(b)
}

fn object2(k1: &str, v1: Json, k2: &str, v2: Json) -> (r: Json)
    ensures
        r@ == JsonV::Object(seq![(k1@, v1@), (k2@, v2@)]),
{
    let entries = vec![(k1.to_string(), v1), (k2.to_string(), v2)];
    let r = Json::Object(entries);
    proof {
        match r@ {
            JsonV::Object(o) => {
                assert(o =~= seq![(k1@, v1@), (k2@, v2@)]);
            },
            _ => {},
        }
    }
    r
}

fn step_to_json(st: &StepAcc) -> (r: Json)
    ensures
        r@ == step_json(step_acc_view(*st)),
{
    let content = str_json(string_of_vec(&st.content));
    let critical = bool_json(st.critical);
    let id = str_json(st.id.clone());
    let entries = vec![
        ("content".to_string(), content),
        ("critical".to_string(), critical),
        ("id".to_string(), id),
    ];
    let r = Json::Object(entries);
    proof {
        match r@ {
            JsonV::Object(o) => {
                assert(o.len() == 3);
                assert(o[0] == ("content"@, JsonV::Str(st.content@)));
                assert(o[1] == ("critical"@, JsonV::Bool(st.critical)));
                assert(o[2] == ("id"@, JsonV::Str(st.id@)));
                assert(o =~= seq![
                    ("content"@, JsonV::Str(st.content@)),
                    ("critical"@, JsonV::Bool(st.critical)),
                    ("id"@, JsonV::Str(st.id@)),
                ]);
            },
            _ => {},
        }
    }
    r
}

fn attr_or_empty_exec(a: &Vec<(String, String)>, key: &str) -> (r: String)
    ensures
        r@ == attr_or_empty(a@.map_values(|p: (String, String)| attr_pair_view(p)), key@),
{
    match attr_last_exec(a, key) {
        Some(v) => v,
        None => String::new(),
    }
}

fn md_result_exec(acc: &Acc) -> (r: Json)
    ensures
        r@ == md_result(acc_view(*acc)),
{
    let mut steps: Vec<Json> = Vec::new();
    let mut i: usize = 0;
    while i < acc.steps.len()
        invariant
            i <= acc.steps@.len(),
            steps@.len() == i,
            forall|k: int| 0 <= k < i ==> (#[trigger] steps@[k])@ == step_json(step_acc_view(acc.steps@[k])),
        decreases acc.steps.len() - i,
    {
        steps.push(step_to_json(&acc.steps[i]));
        i = i + 1;
    }
    let steps_json = Json::Array(steps);
    proof {
        match steps_json@ {
            JsonV::Array(a) => {
                assert(a =~= acc_view(*acc).steps.map_values(|s: StepV| step_json(s)));
            },
            _ => {},
        }
    }
    let output = object2("content", str_json(trimmed(&acc.output)), "format", str_json("markdown".to_string()));
    let entries = vec![
        ("loop_restart".to_string(), str_json(trimmed(&acc.loop_restart))),
        ("restart".to_string(), str_json(attr_or_empty_exec(&acc.attrs, "restart"))),
        ("rules".to_string(), str_json(trimmed(&acc.rules))),
        ("steps".to_string(), steps_json),
        ("title".to_string(), str_json(attr_or_empty_exec(&acc.attrs, "title"))),
    ];
    let ghost ev = seq![
        ("loop_restart"@, JsonV::Str(trim(acc.loop_restart@))),
        ("restart"@, JsonV::Str(attr_or_empty(acc_view(*acc).attrs, "restart"@))),
        ("rules"@, JsonV::Str(trim(acc.rules@))),
        ("steps"@, JsonV::Array(acc_view(*acc).steps.map_values(|s: StepV| step_json(s)))),
        ("title"@, JsonV::Str(attr_or_empty(acc_view(*acc).attrs, "title"@))),
    ];
    let workflow = Json::Object(entries);
    proof {
        match workflow@ {
            JsonV::Object(o) => {
                assert(o =~= ev);
            },
            _ => {},
        }
    }
    object2("output_template", output, "workflow", workflow)
}

/// The template value that a sequence of XML events describes: events are
/// read in order up to the end of input or `</workflow>`; a reader error or a
/// step without an id ends with an error.
pub fn template_from_events(evs: &Vec<XmlEvent>) -> (r: Result<Json, String>)
    ensures
        match r {
            Ok(j) => md_template(evs@.map_values(|e: XmlEvent| e@)) == Ok::<JsonV, Seq<char>>(j@),
            Err(e) => md_template(evs@.map_values(|e: XmlEvent| e@)) == Err::<JsonV, Seq<char>>(e@),
        },
{
    let ghost ev = evs@.map_values(|e: XmlEvent| e@);
    let mut acc = Acc {
        in_rules: false,
        in_step: false,
        in_loop: false,
        in_output: false,
        attrs: Vec::new(),
        rules: Vec::new(),
        steps: Vec::new(),
        current: None,
        loop_restart: Vec::new(),
        output: Vec::new(),
    };
    assert(acc_view(acc) =~= md_init());
    let mut i: usize = 0;
    while i < evs.len()
        invariant
            i <= evs@.len(),
            ev == evs@.map_values(|e: XmlEvent| e@),
            md_fold(ev, 0, md_init()) == md_fold(ev, i as int, acc_view(acc)),
        decreases evs.len() - i,
    {
        assert(ev[i as int] == evs@[i as int]@);
        match &evs[i] {
            XmlEvent::Eof => {
                return Ok(md_result_exec(&acc));
            },
            XmlEvent::Error(e) => {
                return Err(concat("XML parse error: ", e.as_str()));
            },
            XmlEvent::End { name } => {
                if str_eq(name.as_str(), "workflow") {
                    return Ok(md_result_exec(&acc));
                }
            },
            _ => {},
        }
        let ghost st0 = acc_view(acc);
        match md_step_exec(&mut acc, &evs[i]) {
            Ok(_) => {},
            Err(e) => {
                return Err(e);
            },
        }
        assert(md_fold(ev, i as int, st0) == md_fold(ev, i + 1, acc_view(acc)));
        i = i + 1;
    }
    Ok(md_result_exec(&acc))
}

/// Parses a Markdown document with embedded XML-like tags (`<workflow>`,
/// `<rules>`, `<step>`, `<loop_restart>`, `<output_template>`) into the
/// template value.
pub fn parse_markdown_template(input: &str) -> (r: Result<Json, String>)
    ensures
        match r {
            Ok(j) => markdown_template_spec(input@) == Ok::<JsonV, Seq<char>>(j@),
            Err(e) => markdown_template_spec(input@) == Err::<JsonV, Seq<char>>(e@),
        },
{
    let processed = preprocess_markdown(input);
    let evs = read_xml_events(processed.as_str());
    template_from_events(&evs)
}

// ---------------------------------------------------------------------------
// From the template value back to Markdown+XML
// ---------------------------------------------------------------------------

pub open spec fn str_or(v: Option<Seq<char>>, d: Seq<char>) -> Seq<char> {
    match v {
        Some(x) => x,
        None => d,
    }
}

pub open spec fn step_xml(step: JsonV) -> Seq<char> {
    let id = str_or(get_str_spec(step, "id"@), Seq::empty());
    let critical = match get_spec(step, "critical"@) {
        Some(c) => match as_bool_spec(c) {
            Some(b) => b,
            None => false,
        },
        None => false,
    };
    let content = str_or(get_str_spec(step, "content"@), Seq::empty());
    "<step id=\""@ + id + "\" critical=\""@ + (if critical { "true"@ } else { "false"@ }) + "\">\n"@
        + content + "\n</step>\n"@
}

pub open spec fn steps_xml(steps: Seq<JsonV>) -> Seq<char>
    decreases steps.len(),
{
    if steps.len() == 0 {
        Seq::empty()
    } else {
        steps_xml(steps.drop_last()) + step_xml(steps.last())
    }
}

pub open spec fn head_xml(workflow: JsonV) -> Seq<char> {
    "<workflow title=\""@ + str_or(get_str_spec(workflow, "title"@), Seq::empty())
        + "\" restart=\""@ + str_or(get_str_spec(workflow, "restart"@), Seq::empty()) + "\">\n"@
}

pub open spec fn rules_xml(workflow: JsonV) -> Seq<char> {
    match get_str_spec(workflow, "rules"@) {
        Some(r) => "<rules>\n"@ + r + "\n</rules>\n"@,
        None => Seq::empty(),
    }
}

pub open spec fn all_steps_xml(workflow: JsonV) -> Seq<char> {
    match get_spec(workflow, "steps"@) {
        Some(st) => match as_array_spec(st) {
            Some(a) => steps_xml(a),
            None => Seq::empty(),
        },
        None => Seq::empty(),
    }
}

pub open spec fn loop_restart_xml(workflow: JsonV) -> Seq<char> {
    match get_str_spec(workflow, "loop_restart"@) {
        Some(l) => "<loop_restart>\n"@ + l + "\n</loop_restart>\n"@,
        None => Seq::empty(),
    }
}

pub open spec fn output_xml(value: JsonV) -> Seq<char> {
    match get_spec(value, "output_template"@) {
        Some(o) => "<output_template format=\""@ + str_or(get_str_spec(o, "format"@), "markdown"@)
            + "\">\n"@ + str_or(get_str_spec(o, "content"@), Seq::empty())
            + "\n</output_template>\n"@,
        None => Seq::empty(),
    }
}

/// The Markdown+XML text of a template value, or the error when it has no
/// `workflow` member.
pub open spec fn serialize_markdown_spec(value: JsonV) -> Result<Seq<char>, Seq<char>> {
    match get_spec(value, "workflow"@) {
        None => Err("Missing 'workflow' object"@),
        Some(w) => Ok(
            head_xml(w) + rules_xml(w) + all_steps_xml(w) + loop_restart_xml(w) + output_xml(value)
                + "</workflow>\n"@,
        ),
    }
}

/// The law of the written frame: without a `workflow` member nothing is
/// written and the error says so; otherwise the text opens with the
/// `<workflow>` tag that carries the title and restart (empty where they are
/// no strings) and ends with the output template's section (its format, else
/// `markdown`, and its body), where there is one, and `</workflow>`.
pub proof fn lemma_serialize_frame(value: JsonV)
    ensures
        get_spec(value, "workflow"@) is None ==> serialize_markdown_spec(value) == Err::<Seq<char>, Seq<char>>(
            "Missing 'workflow' object"@,
        ),
        get_spec(value, "workflow"@) matches Some(w) ==> exists|m: Seq<char>|
            serialize_markdown_spec(value) == Ok::<Seq<char>, Seq<char>>(
                "<workflow title=\""@ + str_or(get_str_spec(w, "title"@), ""@) + "\" restart=\""@ + str_or(
                    get_str_spec(w, "restart"@),
                    ""@,
                ) + "\">\n"@ + m + match get_spec(value, "output_template"@) {
                    Some(o) => "<output_template format=\""@ + str_or(get_str_spec(o, "format"@), "markdown"@)
                        + "\">\n"@ + str_or(get_str_spec(o, "content"@), ""@) + "\n</output_template>\n"@,
                    None => ""@,
                } + "</workflow>\n"@,
            ),
{
    reveal_strlit("");
    assert(""@ =~= Seq::<char>::empty());
    if let Some(w) = get_spec(value, "workflow"@) {
        let m = rules_xml(w) + all_steps_xml(w) + loop_restart_xml(w);
        let r = serialize_markdown_spec(value)->Ok_0;
        let o = match get_spec(value, "output_template"@) {
            Some(o) => "<output_template format=\""@ + str_or(get_str_spec(o, "format"@), "markdown"@)
                + "\">\n"@ + str_or(get_str_spec(o, "content"@), ""@) + "\n</output_template>\n"@,
            None => ""@,
        };
        assert(output_xml(value) == o);
        assert(r =~= "<workflow title=\""@ + str_or(get_str_spec(w, "title"@), ""@) + "\" restart=\""@
            + str_or(get_str_spec(w, "restart"@), ""@) + "\">\n"@ + m + o + "</workflow>\n"@);
    }
}

/// The law of writing the rules: where the workflow has a string `rules`
/// `rl`, the `<rules>` section with `rl` comes right after the opening
/// `<workflow>` tag.
pub proof fn lemma_serialize_rules(value: JsonV, rl: Seq<char>)
    requires
        get_spec(value, "workflow"@) matches Some(w) && get_str_spec(w, "rules"@) == Some(rl),
    ensures
        exists|q: Seq<char>|
            serialize_markdown_spec(value) == Ok::<Seq<char>, Seq<char>>(
                head_xml(get_spec(value, "workflow"@)->Some_0) + "<rules>\n"@ + rl + "\n</rules>\n"@ + q,
            ),
{
    let w = get_spec(value, "workflow"@)->Some_0;
    let q = all_steps_xml(w) + loop_restart_xml(w) + output_xml(value) + "</workflow>\n"@;
    assert(serialize_markdown_spec(value)->Ok_0 =~= head_xml(w) + "<rules>\n"@ + rl + "\n</rules>\n"@ + q);
}

/// The law of writing the restart note: where the workflow has a string
/// `loop_restart` `l`, the text holds `<loop_restart>`, a newline, `l`, a
/// newline and `</loop_restart>` with its newline, right before the output
/// template's section, or before the closing `</workflow>` where the value
/// has no output template.
pub proof fn lemma_serialize_loop_restart(value: JsonV, l: Seq<char>)
    requires
        get_spec(value, "workflow"@) matches Some(w) && get_str_spec(w, "loop_restart"@) == Some(l),
    ensures
        serialize_markdown_spec(value) is Ok,
        exists|p: Seq<char>, q: Seq<char>|
            {
                &&& serialize_markdown_spec(value)->Ok_0 == p + "<loop_restart>\n"@ + l + "\n</loop_restart>\n"@ + q
                &&& (get_spec(value, "output_template"@) is Some ==> q.len() >= 17 && q.take(17)
                    == "<output_template "@)
                &&& (get_spec(value, "output_template"@) is None ==> q == "</workflow>\n"@)
            },
{
    let w = get_spec(value, "workflow"@)->Some_0;
    let p = head_xml(w) + rules_xml(w) + all_steps_xml(w);
    let q = output_xml(value) + "</workflow>\n"@;
    let r = serialize_markdown_spec(value)->Ok_0;
    assert(r == p + "<loop_restart>\n"@ + l + "\n</loop_restart>\n"@ + q);
    reveal_strlit("<output_template ");
    reveal_strlit("<output_template format=\"");
    if get_spec(value, "output_template"@) is Some {
        assert(q.take(17) =~= "<output_template "@);
    } else {
        assert(q =~= "</workflow>\n"@);
    }
}

fn get_str_or<'a>(v: &'a Json, key: &str, d: &'a str) -> (r: &'a str)
    ensures
        r@ == str_or(get_str_spec(v@, key@), d@),
{
    match v.get(key) {
        Some(x) => match x.as_str() {
            Some(s) => s,
            None => d,
        },
        None => d,
    }
}

fn push_step_xml(out: &mut Vec<char>, step: &Json)
    ensures
        final(out)@ == old(out)@ + step_xml(step@),
{
    proof {
        reveal_strlit("");
    }
    let id = get_str_or(step, "id", "");
    let critical = match step.get("critical") {
        Some(c) => match c.as_bool() {
            Some(b) => b,
            None => false,
        },
        None => false,
    };
    let content = get_str_or(step, "content", "");
    push_str(out, "<step id=\"");
    push_str(out, id);
    push_str(out, "\" critical=\"");
    push_str(out, if critical { "true" } else { "false" });
    push_str(out, "\">\n");
    push_str(out, content);
    push_str(out, "\n</step>\n");
    assert(out@ =~= old(out)@ + step_xml(step@));
}

fn push_head(out: &mut Vec<char>, w: &Json)
    ensures
        final(out)@ == old(out)@ + head_xml(w@),
{
    proof {
        reveal_strlit("");
    }
    let title = get_str_or(w, "title", "");
    let restart = get_str_or(w, "restart", "");
    push_str(out, "<workflow title=\"");
    push_str(out, title);
    push_str(out, "\" restart=\"");
    push_str(out, restart);
    push_str(out, "\">\n");
    assert(out@ =~= old(out)@ + head_xml(w@));
}

fn push_rules(out: &mut Vec<char>, w: &Json)
    ensures
        final(out)@ == old(out)@ + rules_xml(w@),
{
    match w.get("rules") {
        Some(r) => match r.as_str() {
            Some(rules) => {
                push_str(out, "<rules>\n");
                push_str(out, rules);
                push_str(out, "\n</rules>\n");
                assert(out@ =~= old(out)@ + rules_xml(w@));
            },
            None => {
                assert(out@ =~= old(out)@ + rules_xml(w@));
            },
        },
        None => {
            assert(out@ =~= old(out)@ + rules_xml(w@));
        },
    }
}

fn push_steps(out: &mut Vec<char>, w: &Json)
    ensures
        final(out)@ == old(out)@ + all_steps_xml(w@),
{
    match w.get("steps") {
        Some(st) => match st.as_array() {
            Some(steps) => {
                let ghost sv = steps@.map_values(|x: Json| x@);
                let mut i: usize = 0;
                assert(old(out)@ + steps_xml(sv.subrange(0, 0)) =~= old(out)@);
                while i < steps.len()
                    invariant
                        i <= steps@.len(),
                        sv == steps@.map_values(|x: Json| x@),
                        out@ == old(out)@ + steps_xml(sv.subrange(0, i as int)),
                    decreases steps.len() - i,
                {
                    push_step_xml(out, &steps[i]);
                    assert(sv.subrange(0, i + 1).drop_last() =~= sv.subrange(0, i as int));
                    i = i + 1;
                }
                assert(sv.subrange(0, steps@.len() as int) =~= sv);
            },
            None => {
                assert(out@ =~= old(out)@ + all_steps_xml(w@));
            },
        },
        None => {
            assert(out@ =~= old(out)@ + all_steps_xml(w@));
        },
    }
}

fn push_loop_restart(out: &mut Vec<char>, w: &Json)
    ensures
        final(out)@ == old(out)@ + loop_restart_xml(w@),
{
    match w.get("loop_restart") {
        Some(l) => match l.as_str() {
            Some(lr) => {
                push_str(out, "<loop_restart>\n");
                push_str(out, lr);
                push_str(out, "\n</loop_restart>\n");
                assert(out@ =~= old(out)@ + loop_restart_xml(w@));
            },
            None => {
                assert(out@ =~= old(out)@ + loop_restart_xml(w@));
            },
        },
        None => {
            assert(out@ =~= old(out)@ + loop_restart_xml(w@));
        },
    }
}

fn push_output(out: &mut Vec<char>, value: &Json)
    ensures
        final(out)@ == old(out)@ + output_xml(value@),
{
    proof {
        reveal_strlit("");
    }
    match value.get("output_template") {
        Some(o) => {
            let format = get_str_or(o, "format", "markdown");
            let content = get_str_or(o, "content", "");
            push_str(out, "<output_template format=\"");
            push_str(out, format);
            push_str(out, "\">\n");
            push_str(out, content);
            push_str(out, "\n</output_template>\n");
            assert(out@ =~= old(out)@ + output_xml(value@));
        },
        None => {
            assert(out@ =~= old(out)@ + output_xml(value@));
        },
    }
}

/// Writes a template value back as Markdown+XML.
pub fn serialize_markdown_template(value: &Json) -> (r: Result<String, String>)
    ensures
        match r {
            Ok(t) => serialize_markdown_spec(value@) == Ok::<Seq<char>, Seq<char>>(t@),
            Err(e) => serialize_markdown_spec(value@) == Err::<Seq<char>, Seq<char>>(e@),
        },
{
    let workflow = match value.get("workflow") {
        Some(w) => w,
        None => {
            return Err("Missing 'workflow' object".to_string());
        },
    };
    let mut out: Vec<char> = Vec::new();
    push_head(&mut out, workflow);
    push_rules(&mut out, workflow);
    push_steps(&mut out, workflow);
    push_loop_restart(&mut out, workflow);
    push_output(&mut out, value);
    push_str(&mut out, "</workflow>\n");
    assert(out@ =~= head_xml(workflow@) + rules_xml(workflow@) + all_steps_xml(workflow@)
        + loop_restart_xml(workflow@) + output_xml(value@) + "</workflow>\n"@);
    Ok(string_of_vec(&out))
}

} // verus!
