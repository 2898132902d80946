use vstd::prelude::*;
use crate::text::{
    chars_of, find_from, find_from_exec, lemma_find_from, occurs_at, occurs_at_exec, push_range,
    push_str, string_of, trim, trim_bounds,
};

verus! {

/// An ASCII decimal digit.
pub open spec fn is_digit(c: char) -> bool {
    48 <= (c as u32) && (c as u32) <= 57
}

/// The number that a run of decimal digits writes.
pub open spec fn digits_value(s: Seq<char>) -> nat
    decreases s.len(),
{
    if s.len() == 0 {
        0
    } else {
        digits_value(s.drop_last()) * 10 + ((s.last() as u32) - 48) as nat
    }
}

/// The digits of an unsigned number's text: what follows one optional leading '+'.
pub open spec fn unsigned_digits(s: Seq<char>) -> Seq<char> {
    if s.len() > 0 && s[0] == '+' {
        s.drop_first()
    } else {
        s
    }
}

/// Whether `str::parse::<u32>` accepts `s`: an optional '+', then at least one
/// ASCII digit and nothing else, of a value that fits in a `u32`.
pub open spec fn parses_as_u32(s: Seq<char>) -> bool {
    let d = unsigned_digits(s);
    &&& d.len() > 0
    &&& forall|i: int| 0 <= i < d.len() ==> is_digit(d[i])
    &&& digits_value(d) <= u32::MAX
}

/// A prefix of a run of digits writes no larger a number than the whole run.
proof fn lemma_digits_prefix(s: Seq<char>, k: int)
    requires
        0 <= k <= s.len(),
        forall|i: int| 0 <= i < s.len() ==> is_digit(s[i]),
    ensures
        digits_value(s.subrange(0, k)) <= digits_value(s),
    decreases s.len(),
{
    if k < s.len() {
        let t = s.drop_last();
        assert(t.subrange(0, k) =~= s.subrange(0, k));
        lemma_digits_prefix(t, k);
    } else {
        assert(s.subrange(0, k) =~= s);
    }
}

/// Whether `v[from..to]` is a text that `str::parse::<u32>` accepts.
fn is_u32_text(v: &Vec<char>, from: usize, to: usize) -> (r: bool)
    requires
        from <= to <= v@.len(),
    ensures
        r == parses_as_u32(v@.subrange(from as int, to as int)),
{
    let ghost s = v@.subrange(from as int, to as int);
    let mut start = from;
    if from < to && v[from] == '+' {
        start = from + 1;
    }
    let ghost d = unsigned_digits(s);
    assert(d =~= v@.subrange(start as int, to as int));
    if start == to {
        return false;
    }
    let mut i = start;
    let mut acc: u64 = 0;
    assert(v@.subrange(start as int, start as int) =~= Seq::<char>::empty());
    while i < to
        invariant
            from <= start < to <= v@.len(),
            start <= i <= to,
            d == v@.subrange(start as int, to as int),
            d == unsigned_digits(v@.subrange(from as int, to as int)),
            forall|k: int| start <= k < i ==> is_digit(v@[k]),
            acc == digits_value(v@.subrange(start as int, i as int)),
            acc <= u32::MAX,
        decreases to - i,
    {
        let c = v[i];
        let u = c as u32;
        assert(u == (v@[i as int] as u32));
        if u < 48 || u > 57 {
            assert(d[i - start] == v@[i as int]);
            assert(!is_digit(d[i - start]));
            return false;
        }
        let digit = (u - 48) as u64;
        assert(acc * 10 + digit <= 0xffff_ffffu64 * 10 + 9) by (nonlinear_arith)
            requires
                acc <= 0xffff_ffff,
                digit <= 9,
        ;
        let next = acc * 10 + digit;
        let ghost pre = v@.subrange(start as int, i + 1);
        assert(pre.drop_last() =~= v@.subrange(start as int, i as int));
        assert(next == digits_value(pre));
        if next > 0xffff_ffff {
            proof {
                if forall|k: int| 0 <= k < d.len() ==> is_digit(d[k]) {
                    lemma_digits_prefix(d, i + 1 - start);
                    assert(d.subrange(0, i + 1 - start) =~= pre);
                }
            }
            return false;
        }
        acc = next;
        i = i + 1;
    }
    assert(v@.subrange(start as int, i as int) =~= d);
    true
}

/// The crontab line that schedules `command` daily at `time` ("HH:MM"), or the
/// error that refuses `time`: it must hold exactly one ':', and both sides must
/// be numbers that `str::parse::<u32>` accepts.
pub open spec fn cron_entry_spec(command: Seq<char>, time: Seq<char>) -> Result<Seq<char>, Seq<char>> {
    match find_from(time, seq![':'], 0) {
        None => Err("Invalid time format. Use HH:MM"@),
        Some(i) => if find_from(time, seq![':'], i + 1) is Some {
            Err("Invalid time format. Use HH:MM"@)
        } else {
            let hour = time.subrange(0, i);
            let minute = time.subrange(i + 1, time.len() as int);
            if parses_as_u32(hour) && parses_as_u32(minute) {
                Ok(minute + " "@ + hour + " * * * "@ + command)
            } else {
                Err("Hour and minute must be numbers"@)
            }
        },
    }
}

/// The crontab line `"{minute} {hour} * * * {command}"` for a daily job at
/// `time` ("HH:MM"), or the error that refuses `time`.
pub fn cron_entry(command: &str, time: &str) -> (r: Result<String, String>)
    ensures
        match r {
            Ok(e) => cron_entry_spec(command@, time@) == Ok::<Seq<char>, Seq<char>>(e@),
            Err(m) => cron_entry_spec(command@, time@) == Err::<Seq<char>, Seq<char>>(m@),
        },
{
    let v = chars_of(time);
    let colon = vec![':'];
    assert(colon@ =~= seq![':']);
    proof {
        lemma_find_from(v@, colon@, 0);
    }
    match find_from_exec(&v, &colon, 0) {
        None => Err("Invalid time format. Use HH:MM".to_string()),
        Some(i) => {
            assert(occurs_at(v@, colon@, i as int));
            assert(i < v.len());
            match find_from_exec(&v, &colon, i + 1) {
                Some(_) => Err("Invalid time format. Use HH:MM".to_string()),
                None => {
                    let n = v.len();
                    if is_u32_text(&v, 0, i) && is_u32_text(&v, i + 1, n) {
                        let mut out: Vec<char> = Vec::new();
                        push_range(&mut out, &v, i + 1, n);
                        push_str(&mut out, " ");
                        push_range(&mut out, &v, 0, i);
                        push_str(&mut out, " * * * ");
                        push_str(&mut out, command);
                        Ok(string_of(&out))
                    } else {
                        Err("Hour and minute must be numbers".to_string())
                    }
                },
            }
        },
    }
}

/// Whether one of the lines of `text` from position `start` on, as
/// `str::lines` splits them, trimmed, is `entry`.
pub open spec fn line_from(text: Seq<char>, entry: Seq<char>, start: int) -> bool
    decreases text.len() - start,
{
    if start < 0 || start >= text.len() {
        false
    } else {
        match find_from(text, seq!['\n'], start) {
            None => trim(text.subrange(start, text.len() as int)) == entry,
            Some(i) => {
                proof {
                    lemma_find_from(text, seq!['\n'], start);
                }
                trim(text.subrange(start, i)) == entry || line_from(text, entry, i + 1)
            },
        }
    }
}

/// Whether one of the lines of `text`, trimmed, is `entry`.
pub open spec fn has_trimmed_line(text: Seq<char>, entry: Seq<char>) -> bool {
    line_from(text, entry, 0)
}

/// The crontab `existing` with `entry` added as its last line (after a line
/// break, where `existing` is not empty and does not end with one), or the
/// error for an entry that is already one of its lines.
pub open spec fn crontab_with_spec(existing: Seq<char>, entry: Seq<char>) -> Result<Seq<char>, Seq<char>> {
    if has_trimmed_line(existing, entry) {
        Err("This cron entry already exists"@)
    } else if existing.len() > 0 && existing.last() != '\n' {
        Ok(existing + seq!['\n'] + entry + seq!['\n'])
    } else {
        Ok(existing + entry + seq!['\n'])
    }
}

/// Whether `v[a..b]` is `e`.
fn range_is(v: &Vec<char>, a: usize, b: usize, e: &Vec<char>) -> (r: bool)
    requires
        a <= b <= v@.len(),
    ensures
        r == (v@.subrange(a as int, b as int) == e@),
{
    if b - a != e.len() {
        return false;
    }
    let r = occurs_at_exec(v, e, a);
    assert(r == (v@.subrange(a as int, b as int) =~= e@));
    r
}

/// Whether one of the lines of `v`, trimmed, is `e`.
fn has_line(v: &Vec<char>, e: &Vec<char>) -> (r: bool)
    ensures
        r == has_trimmed_line(v@, e@),
{
    let nl = vec!['\n'];
    assert(nl@ =~= seq!['\n']);
    let n = v.len();
    let mut start: usize = 0;
    while start < n
        invariant
            start <= n == v@.len(),
            nl@ == seq!['\n'],
            has_trimmed_line(v@, e@) == line_from(v@, e@, start as int),
        decreases n - start,
    {
        proof {
            lemma_find_from(v@, nl@, start as int);
        }
        match find_from_exec(v, &nl, start) {
            None => {
                let (a, b) = trim_bounds(v, start, n);
                return range_is(v, a, b, e);
            },
            Some(i) => {
                let (a, b) = trim_bounds(v, start, i);
                if range_is(v, a, b, e) {
                    return true;
                }
                start = i + 1;
            },
        }
    }
    false
}

/// The crontab `existing` with `entry` added as its last line, or the error for
/// an entry that is already one of its lines (trimmed).
pub fn crontab_with(existing: &str, entry: &str) -> (r: Result<String, String>)
    ensures
        match r {
            Ok(t) => crontab_with_spec(existing@, entry@) == Ok::<Seq<char>, Seq<char>>(t@),
            Err(m) => crontab_with_spec(existing@, entry@) == Err::<Seq<char>, Seq<char>>(m@),
        },
{
    let v = chars_of(existing);
    let e = chars_of(entry);
    if has_line(&v, &e) {
        return Err("This cron entry already exists".to_string());
    }
    let mut out: Vec<char> = Vec::new();
    push_range(&mut out, &v, 0, v.len());
    assert(v@.subrange(0, v@.len() as int) =~= v@);
    if v.len() > 0 && v[v.len() - 1] != '\n' {
        out.push('\n');
    }
    push_range(&mut out, &e, 0, e.len());
    assert(e@.subrange(0, e@.len() as int) =~= e@);
    out.push('\n');
    proof {
        if v@.len() > 0 && v@.last() != '\n' {
            assert(out@ =~= existing@ + seq!['\n'] + entry@ + seq!['\n']);
        } else {
            assert(out@ =~= existing@ + entry@ + seq!['\n']);
        }
    }
    Ok(string_of(&out))
}

/// In a text made of a prefix that is empty or ends with a line break, then
/// `entry` (with no line break), then a line break: the first line break at or
/// after a line start inside the prefix lies inside the prefix, and the one
/// after the prefix is the one that ends `entry`.
proof fn lemma_next_break(pre: Seq<char>, entry: Seq<char>, start: int) -> (i: int)
    requires
        pre.len() == 0 || pre.last() == '\n',
        !entry.contains('\n'),
        0 <= start <= pre.len(),
    ensures
        find_from(pre + entry + seq!['\n'], seq!['\n'], start) == Some(i),
        start == pre.len() ==> i == pre.len() + entry.len(),
        start < pre.len() ==> start <= i < pre.len() && pre[i] == '\n',
{
    if start == pre.len() {
        lemma_break_after_prefix(pre, entry);
        (pre.len() + entry.len()) as int
    } else {
        lemma_break_inside_prefix(pre, entry, start)
    }
}

proof fn lemma_break_after_prefix(pre: Seq<char>, entry: Seq<char>)
    requires
        !entry.contains('\n'),
    ensures
        find_from(pre + entry + seq!['\n'], seq!['\n'], pre.len() as int) == Some((pre.len() + entry.len()) as int),
{
    let t = pre + entry + seq!['\n'];
    let nl = seq!['\n'];
    let start = pre.len() as int;
    let end = (pre.len() + entry.len()) as int;
    assert(occurs_at(t, nl, end)) by {
        assert(t.subrange(end, end + 1) =~= nl);
    }
    lemma_find_from(t, nl, start);
    assert forall|j: int| start <= j < end implies !occurs_at(t, nl, j) by {
        assert(t[j] == entry[j - start]);
        if occurs_at(t, nl, j) {
            assert(t.subrange(j, j + 1)[0] == t[j]);
            assert(entry.contains('\n')) by {
                assert(entry[j - start] == '\n');
            }
        }
    }
}

proof fn lemma_break_inside_prefix(pre: Seq<char>, entry: Seq<char>, start: int) -> (i: int)
    requires
        pre.len() > 0 && pre.last() == '\n',
        0 <= start < pre.len(),
    ensures
        find_from(pre + entry + seq!['\n'], seq!['\n'], start) == Some(i),
        start <= i < pre.len() && pre[i] == '\n',
{
    let t = pre + entry + seq!['\n'];
    let nl = seq!['\n'];
    let k = pre.len() - 1;
    assert(occurs_at(t, nl, k)) by {
        assert(t.subrange(k, k + 1) =~= nl);
    }
    lemma_find_from(t, nl, start);
    let i = find_from(t, nl, start)->0;
    assert(pre[i] == '\n') by {
        assert(t.subrange(i, i + 1)[0] == t[i]);
    }
    i
}

/// Every line start inside the prefix, in such a text, reaches a line that
/// trims to `entry`, where `entry` is its own trim.
proof fn lemma_line_reaches_last(pre: Seq<char>, entry: Seq<char>, start: int)
    requires
        pre.len() == 0 || pre.last() == '\n',
        !entry.contains('\n'),
        trim(entry) == entry,
        0 <= start <= pre.len(),
    ensures
        line_from(pre + entry + seq!['\n'], entry, start),
    decreases pre.len() - start,
{
    let t = pre + entry + seq!['\n'];
    let i = lemma_next_break(pre, entry, start);
    if start == pre.len() {
        assert(t.subrange(start, i) =~= entry);
    } else {
        lemma_line_reaches_last(pre, entry, i + 1);
    }
}

/// Once an entry has been added to a crontab, adding it again is refused: the
/// entry is then one of the crontab's lines. This holds of every entry that is
/// one line with no white space at either end, as the entries that
/// `cron_entry` makes are when the command has none.
pub proof fn lemma_added_entry_is_refused(existing: Seq<char>, entry: Seq<char>)
    requires
        !entry.contains('\n'),
        trim(entry) == entry,
        crontab_with_spec(existing, entry) is Ok,
    ensures
        crontab_with_spec(crontab_with_spec(existing, entry)->Ok_0, entry)
            == Err::<Seq<char>, Seq<char>>("This cron entry already exists"@),
{
    let pre = if existing.len() > 0 && existing.last() != '\n' {
        existing + seq!['\n']
    } else {
        existing
    };
    assert(crontab_with_spec(existing, entry)->Ok_0 =~= pre + entry + seq!['\n']);
    lemma_line_reaches_last(pre, entry, 0);
}

/// A run of decimal digits whose number fits in a `u32`.
pub open spec fn small_number(s: Seq<char>) -> bool {
    s.len() > 0 && (forall|i: int| 0 <= i < s.len() ==> is_digit(#[trigger] s[i])) && digits_value(s) <= u32::MAX
}

proof fn lemma_no_colon_in(t: Seq<char>, a: int, b: int)
    requires
        0 <= a <= b <= t.len(),
        forall|m: int| a <= m < b ==> #[trigger] t[m] != ':',
    ensures
        forall|m: int| a <= m < b ==> !occurs_at(t, seq![':'], m),
{
    assert forall|m: int| a <= m < b implies !occurs_at(t, seq![':'], m) by {
        if occurs_at(t, seq![':'], m) {
            assert(t.subrange(m, m + 1)[0] == t[m]);
        }
    }
}

/// The law of daily entries: for a time `HH:MM` of two numbers, the entry
/// runs the command at minute `MM` of hour `HH`, every day:
/// `"MM HH * * * command"`; a time without ':' is refused.
pub proof fn lemma_cron_entry_daily(command: Seq<char>, hour: Seq<char>, minute: Seq<char>, t: Seq<char>)
    requires
        small_number(hour),
        small_number(minute),
    ensures
        cron_entry_spec(command, hour + seq![':'] + minute) == Ok::<Seq<char>, Seq<char>>(
            minute + " "@ + hour + " * * * "@ + command,
        ),
        (forall|m: int| 0 <= m < t.len() ==> #[trigger] t[m] != ':') ==> cron_entry_spec(command, t) == Err::<
            Seq<char>,
            Seq<char>,
        >("Invalid time format. Use HH:MM"@),
{
    let time = hour + seq![':'] + minute;
    let n = hour.len() as int;
    assert forall|m: int| 0 <= m < n implies #[trigger] time[m] != ':' by {
        assert(time[m] == hour[m]);
        assert(is_digit(hour[m]));
    }
    assert forall|m: int| n + 1 <= m < time.len() implies #[trigger] time[m] != ':' by {
        assert(time[m] == minute[m - n - 1]);
        assert(is_digit(minute[m - n - 1]));
    }
    lemma_no_colon_in(time, 0, n);
    lemma_no_colon_in(time, n + 1, time.len() as int);
    lemma_find_from(time, seq![':'], 0);
    lemma_find_from(time, seq![':'], n + 1);
    assert(time.subrange(n, n + 1) =~= seq![':']);
    assert(occurs_at(time, seq![':'], n));
    let i = find_from(time, seq![':'], 0)->Some_0;
    assert(i == n);
    assert(time.subrange(0, n) =~= hour);
    assert(time.subrange(n + 1, time.len() as int) =~= minute);
    assert(hour[0] != '+') by {
        assert(is_digit(hour[0]));
    }
    assert(minute[0] != '+') by {
        assert(is_digit(minute[0]));
    }
    assert(unsigned_digits(hour) == hour);
    assert(unsigned_digits(minute) == minute);
    if forall|m: int| 0 <= m < t.len() ==> #[trigger] t[m] != ':' {
        lemma_no_colon_in(t, 0, t.len() as int);
        lemma_find_from(t, seq![':'], 0);
    }
}

} // verus!
