use vstd::prelude::*;
use vstd::string::StrSliceExecFns;

use crate::license::{License, SingleLicense};
use crate::text::{normalize, normalized};

verus! {

/// Largest accepted edit distance per template character, as a fraction:
/// a match needs `distance / template length` strictly below it.
pub const MAX_RATIO_NUMERATOR: usize = 1;

pub const MAX_RATIO_DENOMINATOR: usize = 10;

/// What `strsim::levenshtein` returns for two strings.
pub uninterp spec fn levenshtein_of(a: Seq<char>, b: Seq<char>) -> nat;

/// What `strsim::osa_distance` returns for two strings.
pub uninterp spec fn osa_distance_of(a: Seq<char>, b: Seq<char>) -> nat;

/// Relies on `strsim::levenshtein`: the edit distance of the two strings,
/// a function of their characters alone.
#[verifier::external_body]
fn levenshtein(a: &str, b: &str) -> (r: usize)
    ensures
        r as nat == levenshtein_of(a@, b@),
{
    strsim::levenshtein(a, b)
}

/// Relies on `strsim::osa_distance`: the optimal string alignment distance
/// of the two strings, a function of their characters alone.
#[verifier::external_body]
fn osa_distance(a: &str, b: &str) -> (r: usize)
    ensures
        r as nat == osa_distance_of(a@, b@),
{
    strsim::osa_distance(a, b)
}

/// `score / len < numerator / denominator`, without division.
pub open spec fn ratio_below(score: int, len: int, numerator: int, denominator: int) -> bool {
    score * denominator < numerator * len
}

/// Whether a distance of `score` against a template of `len` characters is
/// below the given ratio; the boundary itself does not pass.
pub fn within_ratio(score: usize, len: usize, numerator: usize, denominator: usize) -> (r: bool)
    ensures
        r == ratio_below(score as int, len as int, numerator as int, denominator as int),
{
    proof {
        assert((score as int) * (denominator as int) <= (usize::MAX as int) * (usize::MAX as int))
            by (nonlinear_arith)
            requires
                score <= usize::MAX,
                denominator <= usize::MAX,
        ;
        assert((numerator as int) * (len as int) <= (usize::MAX as int) * (usize::MAX as int))
            by (nonlinear_arith)
            requires
                numerator <= usize::MAX,
                len <= usize::MAX,
        ;
    }
    let lhs: u128 = (score as u128) * (denominator as u128);
    let rhs: u128 = (numerator as u128) * (len as u128);
    lhs < rhs
}

/// Whether a distance of `score` against a template of `len` characters
/// passes the default threshold: `score / len < 0.1`, strictly.
pub fn within_threshold(score: usize, len: usize) -> (r: bool)
    ensures
        r == ratio_below(score as int, len as int, 1, 10),
        r == (10 * score < len),
{
    within_ratio(score, len, MAX_RATIO_NUMERATOR, MAX_RATIO_DENOMINATOR)
}

/// The `len` characters of `text` that start at `offset`, if there are that many.
pub fn window_at(text: &str, offset: usize, len: usize) -> (r: Option<&str>)
    ensures
        r is Some <==> offset + len <= text@.len(),
        r is Some ==> r->0@ == text@.subrange(offset as int, offset + len),
{
    let n = text.unicode_len();
    if offset > n || len > n - offset {
        None
    } else {
        Some(text.substring_char(offset, offset + len))
    }
}

/// Whether already normalized text matches an already normalized template:
/// the alignment distance gives the offset of the region compared, and that
/// region must lie within the text and be close enough to the template.
pub open spec fn aligned_match(text: Seq<char>, template: Seq<char>) -> bool {
    let offset = osa_distance_of(text, template);
    &&& offset + template.len() <= text.len()
    &&& ratio_below(
        levenshtein_of(text.subrange(offset as int, (offset + template.len()) as int), template) as int,
        template.len() as int,
        1,
        10,
    )
}

pub open spec fn text_matches(text: Seq<char>, template: Seq<char>) -> bool {
    aligned_match(normalized(text), normalized(template))
}

/// Scores a candidate text against a license template.
pub fn matches(text: &str, template: &str) -> (r: bool)
    ensures
        r == text_matches(text@, template@),
{
    let text = normalize(text);
    let template = normalize(template);
    let offset = osa_distance(text.as_str(), template.as_str());
    let len = template.as_str().unicode_len();
    match window_at(text.as_str(), offset, len) {
        None => false,
        Some(window) => {
            let score = levenshtein(window, template.as_str());
            within_threshold(score, len)
        },
    }
}

pub open spec fn single_matches(text: Seq<char>, license: SingleLicense) -> bool {
    match license.template {
        Some(template) => text_matches(text, template@),
        None => false,
    }
}

/// Whether a text satisfies an obligation: a license without a template
/// never does, and every part of a conjunction must match on its own.
pub open spec fn license_matches(text: Seq<char>, license: License) -> bool {
    match license {
        License::Single(l) => single_matches(text, l),
        License::Multiple(ls) => forall|i: int| 0 <= i < ls@.len() ==> single_matches(text, #[trigger] ls@[i]),
        License::Unspecified => false,
    }
}

pub(crate) fn single_license_matches(text: &str, license: &SingleLicense) -> (r: bool)
    ensures
        r == single_matches(text@, *license),
{
    match &license.template {
        Some(template) => matches(text, template.as_str()),
        None => false,
    }
}

fn all_parts_match(text: &str, parts: &Vec<SingleLicense>) -> (r: bool)
    ensures
        r == (forall|j: int| 0 <= j < parts@.len() ==> single_matches(text@, #[trigger] parts@[j])),
{
    let mut i: usize = 0;
    while i < parts.len()
        invariant
            i <= parts@.len(),
            forall|j: int| 0 <= j < i ==> single_matches(text@, #[trigger] parts@[j]),
        decreases parts@.len() - i,
    {
        if !single_license_matches(text, &parts[i]) {
            assert(!single_matches(text@, parts@[i as int]));
            return false;
        }
        i += 1;
    }
    true
}

/// Scores a candidate text against every license of an obligation.
pub fn check_against_template(text: &str, license: &License) -> (r: bool)
    ensures
        r == license_matches(text@, *license),
{
    match license {
        License::Single(l) => single_license_matches(text, l),
        License::Multiple(ls) => all_parts_match(text, ls),
        License::Unspecified => false,
    }
}

/// A distance ratio exactly at the threshold does not pass; one just below does.
pub proof fn lemma_threshold_boundary(score: int, len: int)
    requires
        0 <= score,
        0 < len,
    ensures
        10 * score == len ==> !ratio_below(score, len, 1, 10),
        10 * score < len ==> ratio_below(score, len, 1, 10),
        10 * score > len ==> !ratio_below(score, len, 1, 10),
{
}

} // verus!
