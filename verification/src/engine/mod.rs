pub mod labels;
pub mod policy;
pub mod resolver;
pub mod file_detector;
pub mod size_calc;
pub mod constraint_engine;
pub mod detector;
pub mod label_parser;

use vstd::prelude::*;
use self::detector::{Detector, detect_spec, detector_table};
use self::file_detector::{FileDetector, file_labels};
use self::labels::{strictly_sorted, text_set, texts};
use self::resolver::{Resolver, resolve_spec};
use self::size_calc::{SizeCalculator, issue_size, pr_size};
use crate::text::{push_str, string_of};

verus! {

/// The label that the detector finds for a category, as `category:label`.
pub open spec fn category_label(text: Seq<char>, category: Seq<char>) -> Seq<Seq<char>> {
    match detect_spec(detector_table(), text, category) {
        Some(v) => seq![category + seq![':'] + v],
        None => Seq::empty(),
    }
}

/// The labels that the text of an issue or pull request calls for, in the
/// order type, stage, p, lang, env, constraint, plat.
pub open spec fn text_labels(text: Seq<char>) -> Seq<Seq<char>> {
    category_label(text, "type"@) + category_label(text, "stage"@) + category_label(text, "p"@)
        + category_label(text, "lang"@) + category_label(text, "env"@) + category_label(
        text,
        "constraint"@,
    ) + category_label(text, "plat"@)
}

/// The size label: by changed lines where either count is not negative, by
/// the text's words otherwise (`m` where they name no size).
pub open spec fn size_label(text: Seq<char>, additions: i32, deletions: i32) -> Seq<char> {
    "size:"@ + if additions >= 0 || deletions >= 0 {
        pr_size(additions + deletions)
    } else {
        match issue_size(text) {
            Some(s) => s,
            None => "m"@,
        }
    }
}

/// The text of an issue or pull request: its title, a space, its body.
pub open spec fn full_text(title: Seq<char>, body: Seq<char>) -> Seq<char> {
    title + " "@ + body
}

fn push_detection(detector: &Detector, text: &str, category: &str, out: &mut Vec<String>)
    requires
        detector.table() == detector_table(),
    ensures
        texts(final(out)@) == texts(old(out)@) + category_label(text@, category@),
{
    let ghost o0 = texts(out@);
    match detector.detect(text, category) {
        Some(v) => {
            let mut l: Vec<char> = Vec::new();
            push_str(&mut l, category);
            l.push(':');
            push_str(&mut l, v.as_str());
            let label = string_of(&l);
            assert(label@ =~= category@ + seq![':'] + v@);
            out.push(label);
            assert(texts(out@) =~= o0 + category_label(text@, category@));
        },
        None => {
            assert(texts(out@) =~= o0 + category_label(text@, category@));
        },
    }
}

/// The labels of an issue or pull request: those its text calls for (type,
/// stage, priority, language, environment, constraint, platform), those its
/// changed files call for, and its size, resolved against the current labels
/// and those added or removed by hand.
pub fn resolve_full_state(
    title: String,
    body: String,
    additions: i32,
    deletions: i32,
    changed_files: Vec<String>,
    current_labels: Vec<String>,
    manual_add: Vec<String>,
    manual_remove: Vec<String>,
) -> (r: Vec<String>)
    requires
        additions >= 0 || deletions >= 0 ==> i32::MIN <= additions + deletions <= i32::MAX,
    ensures
        strictly_sorted(r@),
        exists|fl: Seq<Seq<char>>|
            #![trigger fl.to_set()]
            fl.to_set() == file_labels(changed_files@) && text_set(r@) == resolve_spec(
                text_labels(full_text(title@, body@)) + fl + seq![
                    size_label(full_text(title@, body@), additions, deletions),
                ],
                texts(manual_add@),
                texts(manual_remove@),
                texts(current_labels@),
                changed_files@,
            ),
{
    let detector = Detector::new();
    let mut t: Vec<char> = Vec::new();
    push_str(&mut t, title.as_str());
    push_str(&mut t, " ");
    push_str(&mut t, body.as_str());
    let full = string_of(&t);
    let ghost ft = full_text(title@, body@);
    assert(full@ == ft);
    let mut detected: Vec<String> = Vec::new();
    assert(texts(detected@) =~= Seq::<Seq<char>>::empty());
    push_detection(&detector, full.as_str(), "type", &mut detected);
    push_detection(&detector, full.as_str(), "stage", &mut detected);
    push_detection(&detector, full.as_str(), "p", &mut detected);
    push_detection(&detector, full.as_str(), "lang", &mut detected);
    push_detection(&detector, full.as_str(), "env", &mut detected);
    push_detection(&detector, full.as_str(), "constraint", &mut detected);
    push_detection(&detector, full.as_str(), "plat", &mut detected);
    assert(texts(detected@) =~= text_labels(ft));
    let files_found = FileDetector::detect(&changed_files);
    proof {
        self::labels::lemma_text_set_texts(files_found@);
    }
    let ghost fl = texts(files_found@);
    let mut i: usize = 0;
    while i < files_found.len()
        invariant
            i <= files_found@.len(),
            fl == texts(files_found@),
            texts(detected@) == text_labels(ft) + fl.subrange(0, i as int),
        decreases files_found.len() - i,
    {
        let ghost d0 = texts(detected@);
        detected.push(files_found[i].clone());
        assert(texts(detected@) =~= d0.push(files_found@[i as int]@));
        assert(fl[i as int] == files_found@[i as int]@);
        assert(fl.subrange(0, i + 1) =~= fl.subrange(0, i as int).push(fl[i as int]));
        assert(texts(detected@) =~= text_labels(ft) + fl.subrange(0, i + 1));
        i = i + 1;
    }
    assert(fl.subrange(0, fl.len() as int) =~= fl);
    let size = if additions >= 0 || deletions >= 0 {
        SizeCalculator::calculate_pr_size(additions, deletions)
    } else {
        match SizeCalculator::detect_issue_size(full.as_str()) {
            Some(s) => s,
            None => "m".to_string(),
        }
    };
    let mut sl: Vec<char> = Vec::new();
    push_str(&mut sl, "size:");
    push_str(&mut sl, size.as_str());
    let size_text = string_of(&sl);
    assert(size_text@ == size_label(ft, additions, deletions));
    let ghost d1 = texts(detected@);
    detected.push(size_text);
    assert(texts(detected@) =~= d1.push(size_label(ft, additions, deletions)));
    let r = Resolver::resolve(detected, manual_add, manual_remove, current_labels, changed_files);
    assert(text_labels(ft) + fl + seq![size_label(ft, additions, deletions)] =~= texts(detected@));
    r
}

} // verus!
