use vstd::prelude::*;
use crate::text::{chars_of, find_from, find_from_exec, lemma_find_from, string_of_range};

verus! {

/// What `KEY=VALUE` splits into: the text before the first '=' and the text
/// after it; without '=', an error.
pub open spec fn keyval_spec(s: Seq<char>) -> Result<(Seq<char>, Seq<char>), Seq<char>> {
    match find_from(s, seq!['='], 0) {
        Some(i) => Ok((s.subrange(0, i), s.subrange(i + 1, s.len() as int))),
        None => Err("KEY=VALUE format required"@),
    }
}

/// Splits a `KEY=VALUE` argument at its first '='.
pub fn parse_keyval(s: &str) -> (r: Result<(String, String), String>)
    ensures
        match r {
            Ok((k, v)) => keyval_spec(s@) == Ok::<(Seq<char>, Seq<char>), Seq<char>>((k@, v@)),
            Err(e) => keyval_spec(s@) == Err::<(Seq<char>, Seq<char>), Seq<char>>(e@),
        },
{
    let v = chars_of(s);
    let eq = vec!['='];
    assert(eq@ =~= seq!['=']);
    proof {
        lemma_find_from(v@, eq@, 0);
    }
    match find_from_exec(&v, &eq, 0) {
        Some(pos) => {
            let n = v.len();
            assert(pos + 1 <= n);
            Ok((string_of_range(&v, 0, pos), string_of_range(&v, pos + 1, n)))
        },
        None => Err("KEY=VALUE format required".to_string()),
    }
}

/// The law of the split: the key, an '=', and the value give back the
/// argument, and the key holds no '='.
pub proof fn lemma_keyval_round_trip(s: Seq<char>)
    ensures
        keyval_spec(s) matches Ok((k, v)) ==> k + seq!['='] + v == s && !k.contains('='),
{
    crate::text::lemma_find_from(s, seq!['='], 0);
    match find_from(s, seq!['='], 0) {
        Some(i) => {
            assert(s.subrange(i, i + 1) =~= seq!['=']);
            assert(s.subrange(0, i) + seq!['='] + s.subrange(i + 1, s.len() as int) =~= s);
            assert forall|j: int| 0 <= j < i implies s.subrange(0, i)[j] != '=' by {
                assert(!crate::text::occurs_at(s, seq!['='], j));
                if s[j] == '=' {
                    assert(s.subrange(j, j + 1) =~= seq!['=']);
                }
            }
        },
        None => {},
    }
}

} // verus!
