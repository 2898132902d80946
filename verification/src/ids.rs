use vstd::prelude::*;

verus! {

/// A lowercase hexadecimal digit.
pub open spec fn is_lower_hex(c: char) -> bool {
    (48 <= (c as u32) && (c as u32) <= 57) || (97 <= (c as u32) && (c as u32) <= 102)
}

/// The form of the library's identifiers: 32 lowercase hex digits.
pub open spec fn id_form(s: Seq<char>) -> bool {
    s.len() == 32 && forall|i: int| 0 <= i < 32 ==> is_lower_hex(#[trigger] s[i])
}

/// The positions of the hyphens in a uuid's hyphenated text.
pub open spec fn uuid_hyphen_at(i: int) -> bool {
    i == 8 || i == 13 || i == 18 || i == 23
}

/// The hyphenated lowercase text of a version 4 uuid: 36 characters, hyphens
/// at 8, 13, 18 and 23, lowercase hex digits elsewhere, the version digit
/// '4' at 14 and a variant digit of 8, 9, a or b at 19.
pub open spec fn uuid_v4_form(s: Seq<char>) -> bool {
    &&& s.len() == 36
    &&& forall|i: int| 0 <= i < 36 ==> if uuid_hyphen_at(i) {
        s[i] == '-'
    } else {
        is_lower_hex(#[trigger] s[i])
    }
    &&& s[14] == '4'
    &&& (s[19] == '8' || s[19] == '9' || s[19] == 'a' || s[19] == 'b')
}

/// A fresh random identifier, `uuid::Uuid::new_v4().to_string()`. The value is
/// random; what holds of every one is stated: uuid's `Display` writes the
/// hyphenated lowercase form, and `new_v4` sets the version and variant bits.
#[verifier::external_body]
fn uuid_v4_text() -> (r: String)
    ensures
        uuid_v4_form(r@),
{
    uuid::Uuid::new_v4().to_string()
}

/// `s` without its '-' characters.
pub open spec fn without_dashes(s: Seq<char>) -> Seq<char>
    decreases s.len(),
{
    if s.len() == 0 {
        s
    } else if s.last() == '-' {
        without_dashes(s.drop_last())
    } else {
        without_dashes(s.drop_last()).push(s.last())
    }
}

/// No '-' is left.
pub proof fn lemma_without_dashes(s: Seq<char>)
    ensures
        !without_dashes(s).contains('-'),
    decreases s.len(),
{
    if s.len() > 0 {
        lemma_without_dashes(s.drop_last());
        let r = without_dashes(s.drop_last());
        if s.last() != '-' {
            assert forall|i: int| 0 <= i < r.len() + 1 implies r.push(s.last())[i] != '-' by {
                if i < r.len() {
                    assert(r.push(s.last())[i] == r[i]);
                }
            }
        }
    }
}

/// Taking the '-' out of two texts one after the other.
proof fn lemma_without_dashes_concat(a: Seq<char>, b: Seq<char>)
    ensures
        without_dashes(a + b) == without_dashes(a) + without_dashes(b),
    decreases b.len(),
{
    if b.len() == 0 {
        assert(a + b =~= a);
        assert(without_dashes(a) + without_dashes(b) =~= without_dashes(a));
    } else {
        lemma_without_dashes_concat(a, b.drop_last());
        assert((a + b).drop_last() =~= a + b.drop_last());
        assert((a + b).last() == b.last());
        if b.last() != '-' {
            assert(without_dashes(a) + without_dashes(b.drop_last()).push(b.last()) =~= (without_dashes(a)
                + without_dashes(b.drop_last())).push(b.last()));
        }
    }
}

/// A text without '-' is left as it is.
proof fn lemma_without_dashes_none(a: Seq<char>)
    requires
        forall|i: int| 0 <= i < a.len() ==> a[i] != '-',
    ensures
        without_dashes(a) == a,
    decreases a.len(),
{
    if a.len() > 0 {
        lemma_without_dashes_none(a.drop_last());
        assert(without_dashes(a.drop_last()).push(a.last()) =~= a);
    }
}

/// The hyphen-free part `s[from..to]` of a uuid text.
proof fn lemma_uuid_part(s: Seq<char>, from: int, to: int)
    requires
        uuid_v4_form(s),
        0 <= from <= to <= 36,
        forall|i: int| from <= i < to ==> !uuid_hyphen_at(i),
    ensures
        without_dashes(s.subrange(from, to)) == s.subrange(from, to),
        forall|i: int| 0 <= i < to - from ==> is_lower_hex(#[trigger] s.subrange(from, to)[i]),
{
    assert forall|i: int| 0 <= i < to - from implies is_lower_hex(#[trigger] s.subrange(from, to)[i]) by {
        assert(s.subrange(from, to)[i] == s[from + i]);
        assert(!uuid_hyphen_at(from + i));
    }
    assert forall|i: int| 0 <= i < to - from implies s.subrange(from, to)[i] != '-' by {
        assert(is_lower_hex(s.subrange(from, to)[i]));
    }
    lemma_without_dashes_none(s.subrange(from, to));
}

/// A uuid text without its hyphens: 32 lowercase hex digits, with the version
/// digit at 12 and the variant digit at 16.
proof fn lemma_uuid_compact(s: Seq<char>)
    requires
        uuid_v4_form(s),
    ensures
        without_dashes(s).len() == 32,
        forall|i: int| 0 <= i < 32 ==> is_lower_hex(#[trigger] without_dashes(s)[i]),
        without_dashes(s)[12] == s[14],
        without_dashes(s)[16] == s[19],
{
    let p1 = s.subrange(0, 8);
    let p2 = s.subrange(9, 13);
    let p3 = s.subrange(14, 18);
    let p4 = s.subrange(19, 23);
    let p5 = s.subrange(24, 36);
    let d = seq!['-'];
    assert(s[8] == '-' && s[13] == '-' && s[18] == '-' && s[23] == '-') by {
        assert(uuid_hyphen_at(8) && uuid_hyphen_at(13) && uuid_hyphen_at(18) && uuid_hyphen_at(23));
    }
    assert(s =~= p1 + d + p2 + d + p3 + d + p4 + d + p5);
    lemma_uuid_part(s, 0, 8);
    lemma_uuid_part(s, 9, 13);
    lemma_uuid_part(s, 14, 18);
    lemma_uuid_part(s, 19, 23);
    lemma_uuid_part(s, 24, 36);
    assert(without_dashes(d) =~= Seq::<char>::empty()) by {
        assert(d.drop_last() =~= Seq::<char>::empty());
        assert(d.last() == '-');
        assert(without_dashes(Seq::<char>::empty()) =~= Seq::<char>::empty());
    }
    lemma_without_dashes_concat(p1 + d + p2 + d + p3 + d + p4 + d, p5);
    lemma_without_dashes_concat(p1 + d + p2 + d + p3 + d + p4, d);
    lemma_without_dashes_concat(p1 + d + p2 + d + p3 + d, p4);
    lemma_without_dashes_concat(p1 + d + p2 + d + p3, d);
    lemma_without_dashes_concat(p1 + d + p2 + d, p3);
    lemma_without_dashes_concat(p1 + d + p2, d);
    lemma_without_dashes_concat(p1 + d, p2);
    lemma_without_dashes_concat(p1, d);
    let r = without_dashes(s);
    assert(r =~= p1 + p2 + p3 + p4 + p5);
    assert forall|i: int| 0 <= i < 32 implies is_lower_hex(#[trigger] r[i]) by {
        if i < 8 {
            assert(r[i] == p1[i]);
        } else if i < 12 {
            assert(r[i] == p2[i - 8]);
        } else if i < 16 {
            assert(r[i] == p3[i - 12]);
        } else if i < 20 {
            assert(r[i] == p4[i - 16]);
        } else {
            assert(r[i] == p5[i - 20]);
        }
    }
}

/// The text with every '-' taken out, as `str::replace("-", "")` does.
pub fn compact_id(s: &str) -> (r: String)
    ensures
        r@ == without_dashes(s@),
{
    let v = crate::text::chars_of(s);
    let mut out: Vec<char> = Vec::new();
    let mut i: usize = 0;
    while i < v.len()
        invariant
            i <= v@.len(),
            v@ == s@,
            out@ == without_dashes(v@.subrange(0, i as int)),
        decreases v.len() - i,
    {
        let ghost o0 = out@;
        if v[i] != '-' {
            out.push(v[i]);
        }
        assert(v@.subrange(0, i + 1).drop_last() =~= v@.subrange(0, i as int));
        assert(without_dashes(v@.subrange(0, i + 1)) =~= out@);
        i = i + 1;
    }
    assert(v@.subrange(0, v@.len() as int) =~= v@);
    crate::text::string_of(&out)
}

/// A fresh random identifier: a version 4 uuid without its hyphens, that is
/// 32 lowercase hex digits with the version digit '4' at 12 and a variant
/// digit of 8, 9, a or b at 16.
pub fn new_id() -> (r: String)
    ensures
        r@.len() == 32,
        forall|i: int| 0 <= i < 32 ==> is_lower_hex(#[trigger] r@[i]),
        r@[12] == '4',
        r@[16] == '8' || r@[16] == '9' || r@[16] == 'a' || r@[16] == 'b',
        !r@.contains('-'),
        id_form(r@),
{
    let u = uuid_v4_text();
    let r = compact_id(u.as_str());
    proof {
        lemma_without_dashes(u@);
        lemma_uuid_compact(u@);
    }
    r
}

} // verus!
