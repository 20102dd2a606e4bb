use vstd::prelude::*;

use crate::license::{Confidence, DirEntry, License, LicenseKind, LicenseText, SingleLicense};
use crate::score::{check_against_template, license_matches, single_license_matches, single_matches};
use crate::text::{chars_of, same_chars, same_text, upper_all, upper_chars};

verus! {

impl View for LicenseText {
    type V = (Seq<char>, Seq<char>, Confidence);

    open spec fn view(&self) -> Self::V {
        (self.path@, self.text@, self.confidence)
    }
}

/// The views of a sequence of license texts.
pub open spec fn texts_view(ts: Seq<LicenseText>) -> Seq<(Seq<char>, Seq<char>, Confidence)> {
    ts.map_values(|t: LicenseText| t@)
}

/// A bare `LICENSE`-style file name, in any case.
pub open spec fn generic_name(name: Seq<char>) -> bool {
    let u = upper_all(name);
    u == "LICENSE"@ || u == "LICENSE.MD"@ || u == "LICENSE.TXT"@
}

/// A file name conventionally tied to this license.
pub open spec fn specific_name(name: Seq<char>, license: SingleLicense) -> bool {
    match license.kind {
        LicenseKind::Mit => name == "LICENSE-MIT"@,
        LicenseKind::Apache2 => name == "LICENSE-APACHE"@,
        LicenseKind::Custom => {
            let u = upper_all(name);
            u == upper_all(license.name@) || u == "LICENSE-"@ + upper_all(license.name@)
        },
        LicenseKind::OtherKnown => false,
    }
}

pub open spec fn generic_candidate(e: DirEntry) -> bool {
    generic_name(e.name@) && e.text is Some
}

pub open spec fn specific_candidate(e: DirEntry, license: SingleLicense) -> bool {
    specific_name(e.name@, license) && e.text is Some
}

/// What a readable file becomes: confidence `pass` when it matches, `fail` otherwise.
pub open spec fn scored(e: DirEntry, matched: bool, pass: Confidence, fail: Confidence) -> (
    Seq<char>,
    Seq<char>,
    Confidence,
) {
    (e.path@, e.text->0@, if matched { pass } else { fail })
}

/// The candidates of specific mode, in directory order.
pub open spec fn specific_texts(es: Seq<DirEntry>, license: SingleLicense) -> Seq<
    (Seq<char>, Seq<char>, Confidence),
>
    decreases es.len(),
{
    if es.len() == 0 {
        Seq::empty()
    } else {
        let rest = specific_texts(es.drop_last(), license);
        let e = es.last();
        if specific_candidate(e, license) {
            rest.push(
                scored(
                    e,
                    single_matches(e.text->0@, license),
                    Confidence::Confident,
                    Confidence::SemiConfident,
                ),
            )
        } else {
            rest
        }
    }
}

/// Whether a file name is a generic license file name.
pub fn is_generic_license_name(name: &str) -> (r: bool)
    ensures
        r == generic_name(name@),
{
    let u = upper_chars(name);
    same_chars(&u, &chars_of("LICENSE")) || same_chars(&u, &chars_of("LICENSE.MD")) || same_chars(
        &u,
        &chars_of("LICENSE.TXT"),
    )
}

/// Whether a file name is conventionally tied to the given license.
pub fn name_matches(name: &str, license: &SingleLicense) -> (r: bool)
    ensures
        r == specific_name(name@, *license),
{
    match license.kind {
        LicenseKind::Mit => same_text(name, "LICENSE-MIT"),
        LicenseKind::Apache2 => same_text(name, "LICENSE-APACHE"),
        LicenseKind::Custom => {
            let u = upper_chars(name);
            let mut custom = upper_chars(license.name.as_str());
            if same_chars(&u, &custom) {
                return true;
            }
            let mut prefixed = chars_of("LICENSE-");
            prefixed.append(&mut custom);
            same_chars(&u, &prefixed)
        },
        LicenseKind::OtherKnown => false,
    }
}

fn scored_text(e: &DirEntry, text: &String, matched: bool, pass: Confidence, fail: Confidence) -> (r:
    LicenseText)
    requires
        e.text == Some(*text),
    ensures
        r@ == scored(*e, matched, pass, fail),
{
    LicenseText {
        path: e.path.clone(),
        text: text.clone(),
        confidence: if matched {
            pass
        } else {
            fail
        },
    }
}

/// The result of generic mode: the first readable file with a generic name,
/// scored against the whole obligation.
pub open spec fn generic_text(es: Seq<DirEntry>, license: License) -> Option<(Seq<char>, Seq<char>, Confidence)>
    decreases es.len(),
{
    if es.len() == 0 {
        None
    } else if generic_candidate(es[0]) {
        Some(
            scored(
                es[0],
                license_matches(es[0].text->0@, license),
                Confidence::Confident,
                Confidence::Unsure,
            ),
        )
    } else {
        generic_text(es.skip(1), license)
    }
}

/// Generic mode: the first readable file with a generic license name, scored
/// against the whole obligation (`Confident` if it matches, else `Unsure`).
pub fn find_generic_license_text(entries: &Vec<DirEntry>, license: &License) -> (r: Option<
    LicenseText,
>)
    ensures
        match r {
            Some(t) => generic_text(entries@, *license) == Some(t@),
            None => generic_text(entries@, *license) is None,
        },
{
    let mut i: usize = 0;
    assert(entries@.skip(0) =~= entries@);
    while i < entries.len()
        invariant
            i <= entries@.len(),
            generic_text(entries@, *license) == generic_text(entries@.skip(i as int), *license),
        decreases entries@.len() - i,
    {
        let e = &entries[i];
        assert(entries@.skip(i as int)[0] == entries@[i as int]);
        assert(entries@.skip(i as int).skip(1) =~= entries@.skip(i + 1));
        if is_generic_license_name(e.name.as_str()) {
            match &e.text {
                Some(text) => {
                    let matched = check_against_template(text.as_str(), license);
                    let r = scored_text(e, text, matched, Confidence::Confident, Confidence::Unsure);
                    return Some(r);
                },
                None => {},
            }
        }
        i += 1;
    }
    None
}

/// Specific mode: every readable file whose name is tied to the license, in
/// directory order, scored (`Confident` if it matches, else `SemiConfident`).
pub fn find_license_text(entries: &Vec<DirEntry>, license: &SingleLicense) -> (r: Vec<LicenseText>)
    ensures
        texts_view(r@) == specific_texts(entries@, *license),
{
    let mut texts: Vec<LicenseText> = Vec::new();
    let mut i: usize = 0;
    while i < entries.len()
        invariant
            i <= entries@.len(),
            texts_view(texts@) == specific_texts(entries@.subrange(0, i as int), *license),
        decreases entries@.len() - i,
    {
        let e = &entries[i];
        let ghost before = texts@;
        assert(entries@.subrange(0, i + 1).drop_last() =~= entries@.subrange(0, i as int));
        if name_matches(e.name.as_str(), license) {
            match &e.text {
                Some(text) => {
                    let matched = single_license_matches(text.as_str(), license);
                    texts.push(
                        scored_text(e, text, matched, Confidence::Confident, Confidence::SemiConfident),
                    );
                },
                None => {},
            }
        }
        i += 1;
        assert(texts_view(texts@) =~= specific_texts(entries@.subrange(0, i as int), *license));
    }
    assert(entries@.subrange(0, entries@.len() as int) =~= entries@);
    texts
}

} // verus!
