use lichking_bundle::bundle::{bundle, inline_package, sort_by_name, PackageInfo};
use lichking_bundle::license::{
    Confidence, DirEntry, License, LicenseKind, LicenseText, SingleLicense,
};
use lichking_bundle::locate::{
    find_generic_license_text, find_license_text, is_generic_license_name, name_matches,
};
use lichking_bundle::resolve::{choose_text, Report, Severity};
use lichking_bundle::score::{check_against_template, window_at, within_threshold};
use lichking_bundle::text::{indented_lines, normalize};

const MIT: &str = "Permission is hereby granted, free of charge, to any person obtaining a copy\nof this software.";

fn single(kind: LicenseKind, name: &str, template: Option<&str>) -> SingleLicense {
    SingleLicense { kind, name: name.to_string(), template: template.map(|t| t.to_string()) }
}

fn entry(name: &str, text: Option<&str>) -> DirEntry {
    DirEntry {
        name: name.to_string(),
        path: format!("/pkg/{}", name),
        text: text.map(|t| t.to_string()),
    }
}

fn candidate(path: &str, confidence: Confidence) -> LicenseText {
    LicenseText { path: path.to_string(), text: format!("text of {}", path), confidence }
}

fn messages(report: &Report) -> Vec<(Severity, String)> {
    report.diagnostics.iter().map(|d| (d.severity, d.message.clone())).collect()
}

#[test]
fn normalize_replaces_breaks_and_upper_cases() {
    assert_eq!(normalize("a\r\nb"), "A B");
    assert_eq!(normalize("Hello\nWorld"), "HELLO WORLD");
    assert_eq!(normalize(""), "");
}

#[test]
fn normalize_collapses_in_one_pass_only() {
    assert_eq!(normalize("a   b"), "A  B");
    assert_eq!(normalize("a    b"), "A  B");
}

#[test]
fn normalize_upper_cases_beyond_ascii() {
    assert_eq!(normalize("straße é"), "STRASSE É");
}

#[test]
fn normalize_is_idempotent_on_plain_text() {
    let once = normalize("Copyright (c) 2016\r\nSome  Body");
    assert_eq!(normalize(&once), once);
}

#[test]
fn threshold_boundary_is_strict() {
    assert!(!within_threshold(1, 10));
    assert!(within_threshold(1, 11));
    assert!(within_threshold(0, 1));
    assert!(!within_threshold(0, 0));
    assert!(!within_threshold(5, 40));
    assert!(within_threshold(3, 40));
}

#[test]
fn window_needs_enough_characters() {
    assert_eq!(window_at("abcdef", 2, 3), Some("cde"));
    assert_eq!(window_at("abcdef", 3, 3), Some("def"));
    assert_eq!(window_at("abcdef", 4, 3), None);
    assert_eq!(window_at("abcdef", 7, 0), None);
}

#[test]
fn identical_text_matches_template() {
    assert!(lichking_bundle::score::matches(MIT, MIT));
    assert!(lichking_bundle::score::matches("permission is hereby granted, free of charge, to any person obtaining a copy of this software.", MIT));
}

#[test]
fn aligned_window_skips_a_leading_prefix() {
    let template = "ABCDEFGHIJKLMNOPQRST";
    assert!(lichking_bundle::score::matches("XABCDEFGHIJKLMNOPQRST", template));
    assert!(!lichking_bundle::score::matches("ABCDEFGHIJKLMNOPQRSTY", template));
    assert!(lichking_bundle::score::matches("ABCDEFGHIJKLMNOPQRSTUVWXYZ1234Y", "ABCDEFGHIJKLMNOPQRSTUVWXYZ1234"));
}

#[test]
fn short_or_unrelated_text_does_not_match() {
    assert!(!lichking_bundle::score::matches("MIT", MIT));
    assert!(!lichking_bundle::score::matches("ABCDEFGHIX", "ABCDEFGHIJ"));
    assert!(!lichking_bundle::score::matches("completely different words here", "nothing alike at all, truly not"));
}

#[test]
fn obligation_without_template_never_matches() {
    let custom = License::Single(single(LicenseKind::Custom, "Foo", None));
    assert!(!check_against_template(MIT, &custom));
    assert!(!check_against_template(MIT, &License::Unspecified));
}

#[test]
fn conjunction_needs_every_part_to_match() {
    let both = License::Multiple(vec![
        single(LicenseKind::Mit, "MIT", Some(MIT)),
        single(LicenseKind::Apache2, "Apache-2.0", Some("Apache License Version 2.0, January 2004")),
    ]);
    assert!(!check_against_template(MIT, &both));
    let one = License::Multiple(vec![single(LicenseKind::Mit, "MIT", Some(MIT))]);
    assert!(check_against_template(MIT, &one));
    let missing = License::Multiple(vec![
        single(LicenseKind::Mit, "MIT", Some(MIT)),
        single(LicenseKind::OtherKnown, "ISC", None),
    ]);
    assert!(!check_against_template(MIT, &missing));
}

#[test]
fn generic_names_ignore_case() {
    assert!(is_generic_license_name("LICENSE"));
    assert!(is_generic_license_name("license.md"));
    assert!(is_generic_license_name("License.Txt"));
    assert!(!is_generic_license_name("LICENSE-MIT"));
    assert!(!is_generic_license_name("COPYING"));
}

#[test]
fn specific_names_follow_conventions() {
    let mit = single(LicenseKind::Mit, "MIT", Some(MIT));
    assert!(name_matches("LICENSE-MIT", &mit));
    assert!(!name_matches("license-mit", &mit));
    let apache = single(LicenseKind::Apache2, "Apache-2.0", None);
    assert!(name_matches("LICENSE-APACHE", &apache));
    let custom = single(LicenseKind::Custom, "Foo", None);
    assert!(name_matches("foo", &custom));
    assert!(name_matches("License-FOO", &custom));
    assert!(!name_matches("LICENSE", &custom));
    let isc = single(LicenseKind::OtherKnown, "ISC", None);
    assert!(!name_matches("LICENSE-ISC", &isc));
}

#[test]
fn generic_mode_takes_first_readable_generic_file() {
    let license = License::Single(single(LicenseKind::Mit, "MIT", Some(MIT)));
    let entries = vec![
        entry("README", Some("readme")),
        entry("LICENSE", None),
        entry("license.txt", Some(MIT)),
        entry("LICENSE.md", Some("other")),
    ];
    let found = find_generic_license_text(&entries, &license).unwrap();
    assert_eq!(found.path, "/pkg/license.txt");
    assert_eq!(found.confidence, Confidence::Confident);
    let entries = vec![entry("LICENSE.md", Some("other"))];
    let found = find_generic_license_text(&entries, &license).unwrap();
    assert_eq!(found.confidence, Confidence::Unsure);
    assert!(find_generic_license_text(&vec![entry("COPYING", Some(MIT))], &license).is_none());
}

#[test]
fn conjunction_in_generic_mode_is_unsure_when_one_part_fails() {
    let both = License::Multiple(vec![
        single(LicenseKind::Mit, "MIT", Some(MIT)),
        single(LicenseKind::Apache2, "Apache-2.0", Some("Apache License Version 2.0, January 2004")),
    ]);
    let found = find_generic_license_text(&vec![entry("LICENSE", Some(MIT))], &both).unwrap();
    assert_eq!(found.confidence, Confidence::Unsure);
}

#[test]
fn specific_mode_collects_every_matching_file() {
    let custom = single(LicenseKind::Custom, "Foo", Some("foo license terms apply here"));
    let entries = vec![
        entry("FOO", Some("foo license terms apply here")),
        entry("LICENSE-foo", Some("something else entirely, not it")),
        entry("license-Foo", None),
        entry("LICENSE", Some("foo license terms apply here")),
    ];
    let texts = find_license_text(&entries, &custom);
    assert_eq!(texts.len(), 2);
    assert_eq!(texts[0].path, "/pkg/FOO");
    assert_eq!(texts[0].confidence, Confidence::Confident);
    assert_eq!(texts[1].path, "/pkg/LICENSE-foo");
    assert_eq!(texts[1].confidence, Confidence::SemiConfident);
}

#[test]
fn confident_candidate_wins_silently() {
    let mut report = Report::new();
    let texts = vec![
        candidate("a", Confidence::SemiConfident),
        candidate("b", Confidence::Confident),
        candidate("c", Confidence::SemiConfident),
    ];
    let picked = choose_text(&mut report, "pkg", "MIT", "/root", texts).unwrap();
    assert_eq!(picked.path, "b");
    assert!(report.diagnostics.is_empty());
    assert!(!report.missing_license);
    assert!(!report.low_quality_license);
}

#[test]
fn several_confident_candidates_are_reported() {
    let mut report = Report::new();
    let texts = vec![candidate("a", Confidence::Confident), candidate("b", Confidence::Confident)];
    let picked = choose_text(&mut report, "pkg", "MIT", "/root", texts).unwrap();
    assert_eq!(picked.path, "a");
    assert_eq!(
        messages(&report),
        vec![
            (Severity::Error, "pkg has multiple candidates for license MIT:".to_string()),
            (Severity::Error, "    a".to_string()),
            (Severity::Error, "    b".to_string()),
        ]
    );
    assert!(report.success());
}

#[test]
fn one_semi_confident_candidate_warns() {
    let mut report = Report::new();
    let texts = vec![candidate("x", Confidence::Unsure), candidate("a", Confidence::SemiConfident)];
    let picked = choose_text(&mut report, "pkg", "MIT", "/root", texts).unwrap();
    assert_eq!(picked.path, "a");
    assert_eq!(
        messages(&report),
        vec![
            (Severity::Warning, "pkg has only a low-confidence candidate for license MIT:".to_string()),
            (Severity::Warning, "    a".to_string()),
        ]
    );
    assert!(report.success());
}

#[test]
fn two_semi_confident_candidates_lower_quality() {
    let mut report = Report::new();
    let texts = vec![candidate("a", Confidence::SemiConfident), candidate("b", Confidence::SemiConfident)];
    let picked = choose_text(&mut report, "pkg", "MIT", "/root", texts).unwrap();
    assert_eq!(picked.path, "a");
    assert!(report.low_quality_license);
    assert!(!report.missing_license);
    assert_eq!(
        messages(&report),
        vec![
            (Severity::Error, "pkg has multiple low-confidence candidates for license MIT:".to_string()),
            (Severity::Error, "    a".to_string()),
            (Severity::Error, "    b".to_string()),
        ]
    );
}

#[test]
fn unsure_candidates_lower_quality() {
    let mut report = Report::new();
    let picked = choose_text(&mut report, "pkg", "MIT", "/root", vec![candidate("u", Confidence::Unsure)]).unwrap();
    assert_eq!(picked.path, "u");
    assert!(report.low_quality_license);
    assert_eq!(report.diagnostics[0].severity, Severity::Warning);
    assert_eq!(report.diagnostics[0].message, "pkg has only a very low-confidence candidate for license MIT:");

    let mut report = Report::new();
    let texts = vec![candidate("u", Confidence::Unsure), candidate("v", Confidence::Unsure)];
    let picked = choose_text(&mut report, "pkg", "MIT", "/root", texts).unwrap();
    assert_eq!(picked.path, "u");
    assert!(report.low_quality_license);
    assert_eq!(report.diagnostics.len(), 3);
    assert_eq!(report.diagnostics[0].message, "pkg has multiple very low-confidence candidates for license MIT:");
}

#[test]
fn no_candidate_marks_license_missing() {
    let mut report = Report::new();
    let picked = choose_text(&mut report, "pkg", "MIT", "/root", Vec::new());
    assert!(picked.is_none());
    assert!(report.missing_license);
    assert!(!report.low_quality_license);
    assert_eq!(
        messages(&report),
        vec![(Severity::Error, "pkg has no candidate texts for license MIT in /root".to_string())]
    );
    assert!(!report.success());
}

#[test]
fn text_lines_are_indented() {
    assert_eq!(indented_lines("a\r\nb\n"), vec!["    a".to_string(), "    b".to_string()]);
    assert_eq!(indented_lines("a\n\nb"), vec!["    a".to_string(), "    ".to_string(), "    b".to_string()]);
    assert_eq!(indented_lines(""), Vec::<String>::new());
    assert_eq!(indented_lines("x\r"), vec!["    x\r".to_string()]);
}

fn package(name: &str, label: &str, license: License, entries: Vec<DirEntry>) -> PackageInfo {
    PackageInfo {
        name: name.to_string(),
        license_label: label.to_string(),
        license,
        root: format!("/src/{}", name),
        entries,
    }
}

#[test]
fn packages_sort_by_name_keeping_equal_names_in_order() {
    let ps = vec![
        package("zeta", "MIT", License::Unspecified, Vec::new()),
        package("alpha", "1", License::Unspecified, Vec::new()),
        package("Beta", "MIT", License::Unspecified, Vec::new()),
        package("alpha", "2", License::Unspecified, Vec::new()),
        package("alp", "MIT", License::Unspecified, Vec::new()),
    ];
    let sorted = sort_by_name(ps);
    let names: Vec<(String, String)> = sorted.iter().map(|p| (p.name.clone(), p.license_label.clone())).collect();
    assert_eq!(
        names,
        vec![
            ("Beta".to_string(), "MIT".to_string()),
            ("alp".to_string(), "MIT".to_string()),
            ("alpha".to_string(), "1".to_string()),
            ("alpha".to_string(), "2".to_string()),
            ("zeta".to_string(), "MIT".to_string()),
        ]
    );
}

#[test]
fn conjunction_in_specific_mode_resolves_each_part() {
    let apache = "Apache License Version 2.0, January 2004";
    let p = package(
        "dual",
        "MIT AND Apache-2.0",
        License::Multiple(vec![
            single(LicenseKind::Mit, "MIT", Some(MIT)),
            single(LicenseKind::Apache2, "Apache-2.0", Some(apache)),
        ]),
        vec![entry("LICENSE-MIT", Some(MIT)), entry("LICENSE-APACHE", Some("not the apache text at all"))],
    );
    let mut report = Report::new();
    let mut out = Vec::new();
    inline_package(&mut report, &p, &mut out);
    let expected: Vec<String> = vec![
        " * dual under MIT AND Apache-2.0:",
        "",
        "    Permission is hereby granted, free of charge, to any person obtaining a copy",
        "    of this software.",
        "",
        "    ===============",
        "",
        "    not the apache text at all",
        "",
    ]
    .into_iter()
    .map(|s| s.to_string())
    .collect();
    assert_eq!(out, expected);
    assert_eq!(
        messages(&report),
        vec![
            (Severity::Warning, "dual has only a low-confidence candidate for license Apache-2.0:".to_string()),
            (Severity::Warning, "    /pkg/LICENSE-APACHE".to_string()),
        ]
    );
    assert!(report.success());
}

#[test]
fn generic_unsure_text_is_used_with_an_error() {
    let p = package(
        "gen",
        "MIT",
        License::Single(single(LicenseKind::Mit, "MIT", Some(MIT))),
        vec![entry("LICENSE", Some("Some other license"))],
    );
    let mut report = Report::new();
    let mut out = Vec::new();
    inline_package(&mut report, &p, &mut out);
    assert_eq!(out[2], "    Some other license");
    assert_eq!(report.diagnostics.len(), 2);
    assert_eq!(report.diagnostics[0].severity, Severity::Error);
    assert_eq!(report.diagnostics[0].message, "gen has only a very low-confidence candidate for license MIT:");
}

#[test]
fn end_to_end_demo_bundle() {
    let foo = package(
        "foo",
        "MIT",
        License::Single(single(LicenseKind::Mit, "MIT", Some(MIT))),
        vec![entry("LICENSE-MIT", Some(MIT))],
    );
    let bar = package("bar", "Unspecified", License::Unspecified, Vec::new());
    let (out, report) = bundle("demo", vec![foo, bar]);
    let expected: Vec<String> = vec![
        "The demo package uses some third party libraries under their own license terms:",
        "",
        " * bar under Unspecified:",
        "",
        "",
        "",
        " * foo under MIT:",
        "",
        "    Permission is hereby granted, free of charge, to any person obtaining a copy",
        "    of this software.",
        "",
        "",
    ]
    .into_iter()
    .map(|s| s.to_string())
    .collect();
    assert_eq!(out, expected);
    assert_eq!(messages(&report), vec![(Severity::Error, "bar does not specify a license".to_string())]);
    assert!(report.missing_license);
    assert!(!report.low_quality_license);
    assert!(!report.success());
}

#[test]
fn bundle_is_deterministic_and_ignores_input_order() {
    let make = |names: &[&str]| -> Vec<PackageInfo> {
        names
            .iter()
            .map(|n| {
                package(
                    n,
                    "MIT",
                    License::Single(single(LicenseKind::Mit, "MIT", Some(MIT))),
                    vec![entry("LICENSE-MIT", Some(MIT)), entry("LICENSE", Some("x"))],
                )
            })
            .collect()
    };
    let (out1, r1) = bundle("root", make(&["b", "a", "c"]));
    let (out2, r2) = bundle("root", make(&["c", "b", "a"]));
    assert_eq!(out1, out2);
    assert_eq!(messages(&r1), messages(&r2));
    assert_eq!(r1.missing_license, r2.missing_license);
    assert_eq!(r1.low_quality_license, r2.low_quality_license);
    assert_eq!(out1[2], " * a under MIT:");
}
