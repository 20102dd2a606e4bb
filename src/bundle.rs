use vstd::prelude::*;

use crate::license::{Confidence, DirEntry, License, LicenseText, SingleLicense};
use crate::locate::{find_generic_license_text, find_license_text, generic_text, specific_texts};
use crate::resolve::{
    choose_diagnostics, choose_text, chosen, headline, joined, joined2, owned, path_line,
    raises_low_quality, raises_missing, Report, Severity, TextView,
};
use crate::text::{chars_of, indented, indented_lines, strings_view};

verus! {

/// A package to bundle: its name, its declared license (as displayed and as
/// parsed), its root directory and the files directly under it.
pub struct PackageInfo {
    pub name: String,
    pub license_label: String,
    pub license: License,
    pub root: String,
    pub entries: Vec<DirEntry>,
}

/// The specific-mode candidates of a package for one license.
pub open spec fn candidates(p: PackageInfo, l: SingleLicense) -> Seq<TextView> {
    specific_texts(p.entries@, l)
}

/// The lines that one license of a package contributes.
pub open spec fn license_block(p: PackageInfo, l: SingleLicense) -> Seq<Seq<char>> {
    match chosen(candidates(p, l)) {
        Some(t) => indented(t.1),
        None => Seq::empty(),
    }
}

pub open spec fn license_diagnostics(p: PackageInfo, l: SingleLicense) -> Seq<(Severity, Seq<char>)> {
    choose_diagnostics(p.name@, l.name@, p.root@, candidates(p, l))
}

/// The lines between the texts of two licenses that all apply.
pub open spec fn separator() -> Seq<Seq<char>> {
    seq![Seq::empty(), "    ==============="@, Seq::empty()]
}

pub open spec fn parts_block(p: PackageInfo, ls: Seq<SingleLicense>) -> Seq<Seq<char>>
    decreases ls.len(),
{
    if ls.len() == 0 {
        Seq::empty()
    } else if ls.len() == 1 {
        license_block(p, ls[0])
    } else {
        parts_block(p, ls.drop_last()) + separator() + license_block(p, ls.last())
    }
}

pub open spec fn parts_diagnostics(p: PackageInfo, ls: Seq<SingleLicense>) -> Seq<(Severity, Seq<char>)>
    decreases ls.len(),
{
    if ls.len() == 0 {
        Seq::empty()
    } else {
        parts_diagnostics(p, ls.drop_last()) + license_diagnostics(p, ls.last())
    }
}

pub open spec fn parts_raise_missing(p: PackageInfo, ls: Seq<SingleLicense>) -> bool
    decreases ls.len(),
{
    ls.len() > 0 && (parts_raise_missing(p, ls.drop_last()) || raises_missing(candidates(p, ls.last())))
}

pub open spec fn parts_raise_low_quality(p: PackageInfo, ls: Seq<SingleLicense>) -> bool
    decreases ls.len(),
{
    ls.len() > 0 && (parts_raise_low_quality(p, ls.drop_last()) || raises_low_quality(
        candidates(p, ls.last()),
    ))
}

/// What a generic-mode text reports: nothing when confident.
pub open spec fn generic_diagnostics(p: PackageInfo, t: TextView) -> Seq<(Severity, Seq<char>)> {
    match t.2 {
        Confidence::Confident => Seq::empty(),
        Confidence::SemiConfident => seq![
            (Severity::Warning, headline(p.name@, " has only a low-confidence candidate for license "@, p.license_label@)),
            (Severity::Warning, path_line(t.0)),
        ],
        Confidence::Unsure => seq![
            (Severity::Error, headline(p.name@, " has only a very low-confidence candidate for license "@, p.license_label@)),
            (Severity::Error, path_line(t.0)),
        ],
    }
}

pub open spec fn unspecified_message(p: PackageInfo) -> Seq<char> {
    p.name@ + " does not specify a license"@
}

/// The license text lines of a package.
pub open spec fn package_body(p: PackageInfo) -> Seq<Seq<char>> {
    match p.license {
        License::Unspecified => Seq::empty(),
        _ => match generic_text(p.entries@, p.license) {
            Some(t) => indented(t.1),
            None => match p.license {
                License::Single(l) => license_block(p, l),
                License::Multiple(ls) => parts_block(p, ls@),
                License::Unspecified => Seq::empty(),
            },
        },
    }
}

pub open spec fn package_header(p: PackageInfo) -> Seq<char> {
    " * "@ + p.name@ + " under "@ + p.license_label@ + ":"@
}

/// The lines of a package's section of the bundle.
pub open spec fn package_block(p: PackageInfo) -> Seq<Seq<char>> {
    seq![package_header(p), Seq::empty()] + package_body(p) + seq![Seq::<char>::empty()]
}

pub open spec fn package_diagnostics(p: PackageInfo) -> Seq<(Severity, Seq<char>)> {
    match p.license {
        License::Unspecified => seq![(Severity::Error, unspecified_message(p))],
        _ => match generic_text(p.entries@, p.license) {
            Some(t) => generic_diagnostics(p, t),
            None => match p.license {
                License::Single(l) => license_diagnostics(p, l),
                License::Multiple(ls) => parts_diagnostics(p, ls@),
                License::Unspecified => Seq::empty(),
            },
        },
    }
}

/// Whether a package leaves a license obligation without any text.
pub open spec fn package_raises_missing(p: PackageInfo) -> bool {
    match p.license {
        License::Unspecified => true,
        _ => match generic_text(p.entries@, p.license) {
            Some(t) => false,
            None => match p.license {
                License::Single(l) => raises_missing(candidates(p, l)),
                License::Multiple(ls) => parts_raise_missing(p, ls@),
                License::Unspecified => true,
            },
        },
    }
}

/// Whether a package's license text is of doubtful quality.
pub open spec fn package_raises_low_quality(p: PackageInfo) -> bool {
    match p.license {
        License::Unspecified => false,
        _ => match generic_text(p.entries@, p.license) {
            Some(t) => false,
            None => match p.license {
                License::Single(l) => raises_low_quality(candidates(p, l)),
                License::Multiple(ls) => parts_raise_low_quality(p, ls@),
                License::Unspecified => false,
            },
        },
    }
}

fn push_lines(out: &mut Vec<String>, lines: Vec<String>)
    ensures
        strings_view(final(out)@) == strings_view(old(out)@) + strings_view(lines@),
{
    let mut lines = lines;
    let ghost added = lines@;
    let mut moved = Vec::new();
    moved.append(&mut lines);
    let ghost start = out@;
    out.append(&mut moved);
    assert(strings_view(out@) =~= strings_view(start) + strings_view(added));
}

fn push_line(out: &mut Vec<String>, line: String)
    ensures
        strings_view(final(out)@) == strings_view(old(out)@).push(line@),
{
    out.push(line);
    assert(strings_view(out@) =~= strings_view(old(out)@).push(line@));
}

fn emit_generic(report: &mut Report, p: &PackageInfo, t: &LicenseText)
    ensures
        final(report).missing_license == old(report).missing_license,
        final(report).low_quality_license == old(report).low_quality_license,
        final(report).messages() == old(report).messages() + generic_diagnostics(*p, t@),
{
    match t.confidence {
        Confidence::Confident => {
            assert(old(report).messages() + Seq::empty() =~= old(report).messages());
        },
        Confidence::SemiConfident => {
            report.emit(
                Severity::Warning,
                joined(
                    p.name.as_str(),
                    " has only a low-confidence candidate for license ",
                    p.license_label.as_str(),
                    ":",
                ),
            );
            report.emit(Severity::Warning, joined2("    ", t.path.as_str()));
            assert(report.messages() =~= old(report).messages() + generic_diagnostics(*p, t@));
        },
        Confidence::Unsure => {
            report.emit(
                Severity::Error,
                joined(
                    p.name.as_str(),
                    " has only a very low-confidence candidate for license ",
                    p.license_label.as_str(),
                    ":",
                ),
            );
            report.emit(Severity::Error, joined2("    ", t.path.as_str()));
            assert(report.messages() =~= old(report).messages() + generic_diagnostics(*p, t@));
        },
    }
}

/// Resolves one license of a package through specific mode and writes its text.
fn inline_license(report: &mut Report, p: &PackageInfo, l: &SingleLicense, out: &mut Vec<String>)
    ensures
        strings_view(final(out)@) == strings_view(old(out)@) + license_block(*p, *l),
        final(report).messages() == old(report).messages() + license_diagnostics(*p, *l),
        final(report).missing_license == (old(report).missing_license || raises_missing(
            candidates(*p, *l),
        )),
        final(report).low_quality_license == (old(report).low_quality_license || raises_low_quality(
            candidates(*p, *l),
        )),
{
    let texts = find_license_text(&p.entries, l);
    let picked = choose_text(report, p.name.as_str(), l.name.as_str(), p.root.as_str(), texts);
    match picked {
        Some(t) => {
            let lines = indented_lines(t.text.as_str());
            push_lines(out, lines);
        },
        None => {
            assert(strings_view(out@) + Seq::empty() =~= strings_view(out@));
        },
    }
}

/// Resolves each license of a conjunction in turn, with a separator between texts.
fn inline_parts(report: &mut Report, p: &PackageInfo, ls: &Vec<SingleLicense>, out: &mut Vec<String>)
    ensures
        strings_view(final(out)@) == strings_view(old(out)@) + parts_block(*p, ls@),
        final(report).messages() == old(report).messages() + parts_diagnostics(*p, ls@),
        final(report).missing_license == (old(report).missing_license || parts_raise_missing(
            *p,
            ls@,
        )),
        final(report).low_quality_license == (old(report).low_quality_license
            || parts_raise_low_quality(*p, ls@)),
{
    let mut i: usize = 0;
    assert(ls@.subrange(0, 0) =~= Seq::<SingleLicense>::empty());
    assert(strings_view(out@) =~= strings_view(old(out)@) + parts_block(*p, ls@.subrange(0, 0)));
    assert(report.messages() =~= old(report).messages() + parts_diagnostics(*p, ls@.subrange(0, 0)));
    while i < ls.len()
        invariant
            i <= ls@.len(),
            strings_view(out@) == strings_view(old(out)@) + parts_block(*p, ls@.subrange(0, i as int)),
            report.messages() == old(report).messages() + parts_diagnostics(*p, ls@.subrange(0, i as int)),
            report.missing_license == (old(report).missing_license || parts_raise_missing(
                *p,
                ls@.subrange(0, i as int),
            )),
            report.low_quality_license == (old(report).low_quality_license
                || parts_raise_low_quality(*p, ls@.subrange(0, i as int))),
        decreases ls@.len() - i,
    {
        let ghost prefix = ls@.subrange(0, i + 1);
        assert(prefix.drop_last() =~= ls@.subrange(0, i as int));
        assert(prefix.last() == ls@[i as int]);
        if i > 0 {
            push_line(out, String::new());
            push_line(out, owned("    ==============="));
            push_line(out, String::new());
        }
        let ghost mid = strings_view(out@);
        inline_license(report, p, &ls[i], out);
        proof {
            if i > 0 {
                assert(mid =~= strings_view(old(out)@) + parts_block(*p, ls@.subrange(0, i as int)) + separator());
            } else {
                assert(mid =~= strings_view(old(out)@));
            }
        }
        i += 1;
        assert(strings_view(out@) =~= strings_view(old(out)@) + parts_block(*p, ls@.subrange(0, i as int)));
        assert(report.messages() =~= old(report).messages() + parts_diagnostics(*p, ls@.subrange(0, i as int)));
    }
    assert(ls@.subrange(0, ls@.len() as int) =~= ls@);
}

/// Writes a package's section of the bundle: a header line, a blank line, the
/// license text (from generic mode if it finds a file, otherwise from specific
/// mode for each license), and a blank line.
pub fn inline_package(report: &mut Report, p: &PackageInfo, out: &mut Vec<String>)
    ensures
        strings_view(final(out)@) == strings_view(old(out)@) + package_block(*p),
        final(report).messages() == old(report).messages() + package_diagnostics(*p),
        final(report).missing_license == (old(report).missing_license || package_raises_missing(*p)),
        final(report).low_quality_license == (old(report).low_quality_license
            || package_raises_low_quality(*p)),
{
    let ghost start = strings_view(out@);
    let header = joined(" * ", p.name.as_str(), " under ", p.license_label.as_str());
    let header = joined2(header.as_str(), ":");
    push_line(out, header);
    push_line(out, String::new());
    let ghost body_start = strings_view(out@);
    match &p.license {
        License::Unspecified => {
            report.emit(Severity::Error, joined2(p.name.as_str(), " does not specify a license"));
            report.missing_license = true;
        },
        _ => {
            match find_generic_license_text(&p.entries, &p.license) {
                Some(t) => {
                    emit_generic(report, p, &t);
                    push_lines(out, indented_lines(t.text.as_str()));
                },
                None => {
                    match &p.license {
                        License::Single(l) => inline_license(report, p, l, out),
                        License::Multiple(ls) => inline_parts(report, p, ls, out),
                        License::Unspecified => {},
                    }
                },
            }
        },
    }
    assert(strings_view(out@) =~= body_start + package_body(*p));
    push_line(out, String::new());
    assert(strings_view(out@) =~= start + package_block(*p));
}

/// Lexicographic order of names, character by character.
pub open spec fn name_le(a: Seq<char>, b: Seq<char>) -> bool
    decreases a.len(),
{
    if a.len() == 0 {
        true
    } else if b.len() == 0 {
        false
    } else if a[0] != b[0] {
        (a[0] as int) < (b[0] as int)
    } else {
        name_le(a.skip(1), b.skip(1))
    }
}

/// Puts `p` after every package whose name is not greater than its own.
pub open spec fn insert_by_name(s: Seq<PackageInfo>, p: PackageInfo) -> Seq<PackageInfo>
    decreases s.len(),
{
    if s.len() == 0 {
        seq![p]
    } else if name_le(s.last().name@, p.name@) {
        s.push(p)
    } else {
        insert_by_name(s.drop_last(), p).push(s.last())
    }
}

/// The packages in order of name; packages of equal name keep their order.
pub open spec fn sorted_by_name(ps: Seq<PackageInfo>) -> Seq<PackageInfo>
    decreases ps.len(),
{
    if ps.len() == 0 {
        Seq::empty()
    } else {
        insert_by_name(sorted_by_name(ps.drop_last()), ps.last())
    }
}

pub open spec fn root_header(root: Seq<char>) -> Seq<char> {
    "The "@ + root + " package uses some third party libraries under their own license terms:"@
}

pub open spec fn blocks(ps: Seq<PackageInfo>) -> Seq<Seq<char>>
    decreases ps.len(),
{
    if ps.len() == 0 {
        Seq::empty()
    } else {
        blocks(ps.drop_last()) + package_block(ps.last()) + seq![Seq::<char>::empty()]
    }
}

pub open spec fn all_diagnostics(ps: Seq<PackageInfo>) -> Seq<(Severity, Seq<char>)>
    decreases ps.len(),
{
    if ps.len() == 0 {
        Seq::empty()
    } else {
        all_diagnostics(ps.drop_last()) + package_diagnostics(ps.last())
    }
}

pub open spec fn any_missing(ps: Seq<PackageInfo>) -> bool {
    exists|i: int| 0 <= i < ps.len() && package_raises_missing(#[trigger] ps[i])
}

pub open spec fn any_low_quality(ps: Seq<PackageInfo>) -> bool {
    exists|i: int| 0 <= i < ps.len() && package_raises_low_quality(#[trigger] ps[i])
}

/// The whole bundle, for packages already in order.
pub open spec fn document(root: Seq<char>, ps: Seq<PackageInfo>) -> Seq<Seq<char>> {
    seq![root_header(root), Seq::empty()] + blocks(ps)
}

/// Whether `a` comes before `b` or equals it, by name.
pub fn name_not_after(a: &str, b: &str) -> (r: bool)
    ensures
        r == name_le(a@, b@),
{
    let x = chars_of(a);
    let y = chars_of(b);
    let mut i: usize = 0;
    assert(x@.skip(0) =~= x@);
    assert(y@.skip(0) =~= y@);
    while i < x.len() && i < y.len() && x[i] == y[i]
        invariant
            i <= x@.len(),
            i <= y@.len(),
            name_le(x@, y@) == name_le(x@.skip(i as int), y@.skip(i as int)),
        decreases x@.len() - i,
    {
        assert(x@.skip(i as int).skip(1) =~= x@.skip(i + 1));
        assert(y@.skip(i as int).skip(1) =~= y@.skip(i + 1));
        i += 1;
    }
    if i == x.len() {
        true
    } else if i == y.len() {
        false
    } else {
        x[i] < y[i]
    }
}

/// Sorts packages by name, keeping the order of packages of equal name.
pub fn sort_by_name(packages: Vec<PackageInfo>) -> (r: Vec<PackageInfo>)
    ensures
        r@ == sorted_by_name(packages@),
{
    let ghost all = packages@;
    let mut rest = packages;
    let mut sorted: Vec<PackageInfo> = Vec::new();
    let ghost taken: Seq<PackageInfo> = Seq::empty();
    while rest.len() > 0
        invariant
            all == taken + rest@,
            sorted@ == sorted_by_name(taken),
        decreases rest@.len(),
    {
        let ghost before = rest@;
        let p = rest.remove(0);
        proof {
            assert(before[0] == p);
            assert(taken.push(p).drop_last() =~= taken);
            assert(all =~= taken.push(p) + rest@);
            taken = taken.push(p);
        }
        let ghost s = sorted@;
        let mut j: usize = sorted.len();
        assert(s.subrange(0, s.len() as int) =~= s);
        assert(insert_by_name(s, p) + s.subrange(s.len() as int, s.len() as int) =~= insert_by_name(s, p));
        while j > 0 && !name_not_after(sorted[j - 1].name.as_str(), p.name.as_str())
            invariant
                j <= s.len(),
                sorted@ == s,
                insert_by_name(s, p) == insert_by_name(s.subrange(0, j as int), p) + s.subrange(j as int, s.len() as int),
            decreases j,
        {
            let ghost t = s.subrange(0, j as int);
            assert(t.drop_last() =~= s.subrange(0, j - 1));
            assert(insert_by_name(t, p) == insert_by_name(s.subrange(0, j - 1), p).push(t.last()));
            assert(insert_by_name(t, p) + s.subrange(j as int, s.len() as int) =~= insert_by_name(s.subrange(0, j - 1), p) + s.subrange(j - 1, s.len() as int));
            j -= 1;
        }
        proof {
            let t = s.subrange(0, j as int);
            if j == 0 {
                assert(t =~= Seq::<PackageInfo>::empty());
            }
            assert(insert_by_name(s, p) =~= t.push(p) + s.subrange(j as int, s.len() as int));
            assert(s.insert(j as int, p) =~= t.push(p) + s.subrange(j as int, s.len() as int));
        }
        sorted.insert(j, p);
    }
    assert(taken =~= all);
    sorted
}

proof fn lemma_name_le_total(a: Seq<char>, b: Seq<char>)
    ensures
        name_le(a, b) || name_le(b, a),
    decreases a.len(),
{
    if a.len() > 0 && b.len() > 0 {
        if a[0] == b[0] {
            lemma_name_le_total(a.skip(1), b.skip(1));
        } else {
            assert((a[0] as int) != (b[0] as int));
        }
    }
}

proof fn lemma_name_le_trans(a: Seq<char>, b: Seq<char>, c: Seq<char>)
    requires
        name_le(a, b),
        name_le(b, c),
    ensures
        name_le(a, c),
    decreases a.len(),
{
    if a.len() > 0 && b.len() > 0 && c.len() > 0 && a[0] == b[0] && b[0] == c[0] {
        lemma_name_le_trans(a.skip(1), b.skip(1), c.skip(1));
    }
}

pub open spec fn is_sorted_by_name(s: Seq<PackageInfo>) -> bool {
    forall|i: int, j: int| 0 <= i < j < s.len() ==> name_le(#[trigger] s[i].name@, #[trigger] s[j].name@)
}

proof fn lemma_insert_elements(s: Seq<PackageInfo>, p: PackageInfo)
    ensures
        insert_by_name(s, p).len() == s.len() + 1,
        insert_by_name(s, p).to_multiset() == s.to_multiset().insert(p),
    decreases s.len(),
{
    broadcast use vstd::seq_lib::group_to_multiset_ensures;
    if s.len() > 0 {
        lemma_insert_elements(s.drop_last(), p);
        assert(s.drop_last().push(s.last()) =~= s);
        if !name_le(s.last().name@, p.name@) {
            assert(insert_by_name(s, p).to_multiset() =~= s.to_multiset().insert(p));
        }
    }
}

proof fn lemma_insert_sorted(s: Seq<PackageInfo>, p: PackageInfo)
    requires
        is_sorted_by_name(s),
    ensures
        is_sorted_by_name(insert_by_name(s, p)),
    decreases s.len(),
{
    broadcast use vstd::seq_lib::group_to_multiset_ensures;
    let r = insert_by_name(s, p);
    if s.len() == 0 {
    } else if name_le(s.last().name@, p.name@) {
        assert forall|i: int, j: int| 0 <= i < j < r.len() implies name_le(#[trigger] r[i].name@, #[trigger] r[j].name@) by {
            if j == s.len() {
                if i < s.len() - 1 {
                    lemma_name_le_trans(s[i].name@, s.last().name@, p.name@);
                }
            }
        }
    } else {
        let t = s.drop_last();
        let inner = insert_by_name(t, p);
        lemma_insert_sorted(t, p);
        lemma_insert_elements(t, p);
        lemma_name_le_total(s.last().name@, p.name@);
        assert forall|k: int| 0 <= k < inner.len() implies name_le(#[trigger] inner[k].name@, s.last().name@) by {
            assert(inner.to_multiset().count(inner[k]) > 0);
            assert(t.to_multiset().insert(p).count(inner[k]) > 0);
            if inner[k] != p {
                assert(t.to_multiset().count(inner[k]) > 0);
                assert(t.contains(inner[k]));
                let m = choose|m: int| 0 <= m < t.len() && t[m] == inner[k];
                assert(name_le(s[m].name@, s[s.len() - 1].name@));
            }
        }
        assert forall|i: int, j: int| 0 <= i < j < r.len() implies name_le(#[trigger] r[i].name@, #[trigger] r[j].name@) by {
            if j == r.len() - 1 {
                assert(r[i] == inner[i]);
            } else {
                assert(r[i] == inner[i]);
                assert(r[j] == inner[j]);
            }
        }
    }
}

/// Sorting by name yields the same packages, each name no greater than
/// those after it (strictly smaller where names are distinct).
pub proof fn lemma_sorted_by_name(ps: Seq<PackageInfo>)
    ensures
        is_sorted_by_name(sorted_by_name(ps)),
        sorted_by_name(ps).to_multiset() == ps.to_multiset(),
    decreases ps.len(),
{
    broadcast use vstd::seq_lib::group_to_multiset_ensures;
    if ps.len() > 0 {
        lemma_sorted_by_name(ps.drop_last());
        lemma_insert_sorted(sorted_by_name(ps.drop_last()), ps.last());
        lemma_insert_elements(sorted_by_name(ps.drop_last()), ps.last());
        assert(ps.drop_last().push(ps.last()) =~= ps);
    }
}

proof fn lemma_name_le_antisym(a: Seq<char>, b: Seq<char>)
    requires
        name_le(a, b),
        name_le(b, a),
    ensures
        a == b,
    decreases a.len(),
{
    if a.len() > 0 && b.len() > 0 {
        lemma_name_le_antisym(a.skip(1), b.skip(1));
        assert(a =~= seq![a[0]] + a.skip(1));
        assert(b =~= seq![b[0]] + b.skip(1));
    }
}

pub open spec fn distinct_names(s: Seq<PackageInfo>) -> bool {
    forall|i: int, j: int| 0 <= i < s.len() && 0 <= j < s.len() && i != j ==> #[trigger] s[i].name@ != #[trigger] s[j].name@
}

proof fn lemma_sorted_unique(a: Seq<PackageInfo>, b: Seq<PackageInfo>)
    requires
        is_sorted_by_name(a),
        is_sorted_by_name(b),
        a.to_multiset() == b.to_multiset(),
        distinct_names(a),
    ensures
        a == b,
    decreases a.len(),
{
    broadcast use vstd::seq_lib::group_to_multiset_ensures;
    if a.len() == 0 {
        vstd::seq_lib::to_multiset_len(b);
        assert(b.len() == 0);
        assert(a =~= b);
    } else {
        vstd::seq_lib::to_multiset_len(a);
        vstd::seq_lib::to_multiset_len(b);
        assert(b.len() == a.len());
        let x = a.last();
        let y = b.last();
        assert(a.to_multiset().count(y) > 0);
        assert(a.contains(y));
        let i = choose|i: int| 0 <= i < a.len() && a[i] == y;
        assert(b.to_multiset().count(x) > 0);
        assert(b.contains(x));
        let j = choose|j: int| 0 <= j < b.len() && b[j] == x;
        if x != y {
            assert(i != a.len() - 1);
            assert(j != b.len() - 1);
            assert(name_le(a[i].name@, a[a.len() - 1].name@));
            assert(name_le(b[j].name@, b[b.len() - 1].name@));
            lemma_name_le_antisym(x.name@, y.name@);
            assert(a[i].name@ == a[a.len() - 1].name@);
        }
        assert(a.drop_last().push(x) =~= a);
        assert(b.drop_last().push(y) =~= b);
        let ma = a.drop_last().to_multiset();
        let mb = b.drop_last().to_multiset();
        assert(a.to_multiset() == ma.insert(x));
        assert(b.to_multiset() == mb.insert(y));
        assert forall|v: PackageInfo| ma.count(v) == mb.count(v) by {
            assert(ma.insert(x).count(v) == mb.insert(x).count(v));
        }
        assert(ma =~= mb);
        lemma_sorted_unique(a.drop_last(), b.drop_last());
    }
}

/// The bundle depends only on which packages there are, not on the order in
/// which they are given, as long as no two of them share a name.
pub proof fn lemma_bundle_order_independent(root: Seq<char>, ps: Seq<PackageInfo>, qs: Seq<PackageInfo>)
    requires
        ps.to_multiset() == qs.to_multiset(),
        distinct_names(ps),
    ensures
        sorted_by_name(ps) == sorted_by_name(qs),
        document(root, sorted_by_name(ps)) == document(root, sorted_by_name(qs)),
        all_diagnostics(sorted_by_name(ps)) == all_diagnostics(sorted_by_name(qs)),
        any_missing(sorted_by_name(ps)) == any_missing(sorted_by_name(qs)),
        any_low_quality(sorted_by_name(ps)) == any_low_quality(sorted_by_name(qs)),
{
    broadcast use vstd::seq_lib::group_to_multiset_ensures;
    lemma_sorted_by_name(ps);
    lemma_sorted_by_name(qs);
    let a = sorted_by_name(ps);
    assert(distinct_names(a)) by {
        assert forall|i: int, j: int| 0 <= i < a.len() && 0 <= j < a.len() && i != j implies #[trigger] a[i].name@ != #[trigger] a[j].name@ by {
            if a[i].name@ == a[j].name@ {
                assert(ps.to_multiset().count(a[i]) > 0);
                assert(ps.contains(a[i]));
                assert(ps.contains(a[j])) by {
                    assert(a.to_multiset().count(a[j]) > 0);
                }
                let k = choose|k: int| 0 <= k < ps.len() && ps[k] == a[i];
                let l = choose|l: int| 0 <= l < ps.len() && ps[l] == a[j];
                if k == l {
                    assert(a[i] == a[j]);
                    assert(a.to_multiset().count(a[i]) >= 2) by {
                        lemma_count_two(a, i, j);
                    }
                    assert(ps.to_multiset().count(ps[k]) >= 2);
                    lemma_count_distinct(ps, k);
                }
            }
        }
    }
    lemma_sorted_unique(a, sorted_by_name(qs));
}

proof fn lemma_count_two(s: Seq<PackageInfo>, i: int, j: int)
    requires
        0 <= i < s.len(),
        0 <= j < s.len(),
        i != j,
        s[i] == s[j],
    ensures
        s.to_multiset().count(s[i]) >= 2,
    decreases s.len(),
{
    broadcast use vstd::seq_lib::group_to_multiset_ensures;
    let t = s.drop_last();
    assert(t.push(s.last()) =~= s);
    if i == s.len() - 1 {
        assert(t[j] == s[j]);
        assert(t.to_multiset().count(s[i]) > 0);
    } else if j == s.len() - 1 {
        assert(t[i] == s[i]);
        assert(t.to_multiset().count(s[i]) > 0);
    } else {
        lemma_count_two(t, i, j);
    }
}

proof fn lemma_count_distinct(s: Seq<PackageInfo>, k: int)
    requires
        0 <= k < s.len(),
        distinct_names(s),
    ensures
        s.to_multiset().count(s[k]) == 1,
    decreases s.len(),
{
    broadcast use vstd::seq_lib::group_to_multiset_ensures;
    let t = s.drop_last();
    assert(t.push(s.last()) =~= s);
    assert(distinct_names(t)) by {
        assert forall|i: int, j: int| 0 <= i < t.len() && 0 <= j < t.len() && i != j implies #[trigger] t[i].name@ != #[trigger] t[j].name@ by {
            assert(t[i] == s[i] && t[j] == s[j]);
        }
    }
    if k == s.len() - 1 {
        if t.to_multiset().count(s[k]) > 0 {
            assert(t.contains(s[k]));
            let m = choose|m: int| 0 <= m < t.len() && t[m] == s[k];
            assert(s[m].name@ == s[k].name@);
        }
    } else {
        lemma_count_distinct(t, k);
        assert(s.last() != s[k]) by {
            assert(s[s.len() - 1].name@ != s[k].name@);
        }
    }
}

/// In generic mode, a text that fails one part of a conjunction is at best unsure.
pub proof fn lemma_conjunction_generic(es: Seq<DirEntry>, ls: Vec<SingleLicense>, t: TextView, k: int)
    requires
        generic_text(es, License::Multiple(ls)) == Some(t),
        0 <= k < ls@.len(),
        !crate::score::single_matches(t.1, ls@[k]),
    ensures
        t.2 == Confidence::Unsure,
    decreases es.len(),
{
    if es.len() > 0 {
        if crate::locate::generic_candidate(es[0]) {
            assert(t.1 == es[0].text->0@);
            let lic = License::Multiple(ls);
            assert(lic is Multiple);
            assert(lic->Multiple_0 == ls);
            assert(!crate::score::single_matches(t.1, lic->Multiple_0@[k]));
            assert(!crate::score::license_matches(t.1, lic));
        } else {
            lemma_conjunction_generic(es.skip(1), ls, t, k);
        }
    }
}

/// In specific mode, each part of a two-license conjunction is resolved on
/// its own: the package's text is the first part's, a separator, and the
/// second part's, and each part contributes its own diagnostics and flags.
pub proof fn lemma_conjunction_specific(p: PackageInfo, ls: Vec<SingleLicense>)
    requires
        p.license == License::Multiple(ls),
        generic_text(p.entries@, p.license) is None,
        ls@.len() == 2,
    ensures
        package_body(p) == license_block(p, ls@[0]) + separator() + license_block(p, ls@[1]),
        package_diagnostics(p) == license_diagnostics(p, ls@[0]) + license_diagnostics(p, ls@[1]),
        package_raises_missing(p) == (raises_missing(candidates(p, ls@[0])) || raises_missing(
            candidates(p, ls@[1]),
        )),
        package_raises_low_quality(p) == (raises_low_quality(candidates(p, ls@[0]))
            || raises_low_quality(candidates(p, ls@[1]))),
{
    let first = ls@.drop_last();
    assert(first.drop_last() =~= Seq::<SingleLicense>::empty());
    assert(first =~= seq![ls@[0]]);
    assert(parts_diagnostics(p, Seq::<SingleLicense>::empty()) =~= Seq::empty());
    assert(parts_diagnostics(p, first) =~= license_diagnostics(p, ls@[0]));
    assert(!parts_raise_missing(p, Seq::<SingleLicense>::empty()));
    assert(!parts_raise_low_quality(p, Seq::<SingleLicense>::empty()));
    assert(ls@.last() == ls@[1]);
    assert(parts_block(p, first) == license_block(p, ls@[0]));
    assert(parts_block(p, ls@) == parts_block(p, first) + separator() + license_block(p, ls@[1]));
    assert(parts_raise_missing(p, first) == raises_missing(candidates(p, ls@[0])));
    assert(parts_raise_missing(p, ls@) == (parts_raise_missing(p, first) || raises_missing(candidates(p, ls@[1]))));
    assert(parts_raise_low_quality(p, first) == raises_low_quality(candidates(p, ls@[0])));
    assert(parts_diagnostics(p, ls@) == parts_diagnostics(p, first) + license_diagnostics(p, ls@[1]));
}

/// Writes the whole bundle: a header naming the root package, a blank line,
/// and each package's section followed by a blank line.
pub fn inline(report: &mut Report, root_name: &str, packages: &Vec<PackageInfo>, out: &mut Vec<String>)
    ensures
        strings_view(final(out)@) == strings_view(old(out)@) + document(root_name@, packages@),
        final(report).messages() == old(report).messages() + all_diagnostics(packages@),
        final(report).missing_license == (old(report).missing_license || any_missing(packages@)),
        final(report).low_quality_license == (old(report).low_quality_license || any_low_quality(
            packages@,
        )),
{
    let ghost start = strings_view(out@);
    let lead = joined2("The ", root_name);
    push_line(
        out,
        joined2(lead.as_str(), " package uses some third party libraries under their own license terms:"),
    );
    assert(strings_view(out@) =~= start.push(root_header(root_name@)));
    push_line(out, String::new());
    let mut i: usize = 0;
    assert(packages@.subrange(0, 0) =~= Seq::<PackageInfo>::empty());
    assert(strings_view(out@) =~= start + document(root_name@, packages@.subrange(0, 0)));
    assert(report.messages() =~= old(report).messages() + all_diagnostics(packages@.subrange(0, 0)));
    while i < packages.len()
        invariant
            i <= packages@.len(),
            strings_view(out@) == start + document(root_name@, packages@.subrange(0, i as int)),
            report.messages() == old(report).messages() + all_diagnostics(packages@.subrange(0, i as int)),
            report.missing_license == (old(report).missing_license || any_missing(packages@.subrange(0, i as int))),
            report.low_quality_license == (old(report).low_quality_license || any_low_quality(packages@.subrange(0, i as int))),
        decreases packages@.len() - i,
    {
        let ghost prefix = packages@.subrange(0, i + 1);
        assert(prefix.drop_last() =~= packages@.subrange(0, i as int));
        assert(prefix.last() == packages@[i as int]);
        inline_package(report, &packages[i], out);
        push_line(out, String::new());
        i += 1;
        assert(strings_view(out@) =~= start + document(root_name@, packages@.subrange(0, i as int)));
        assert(report.messages() =~= old(report).messages() + all_diagnostics(packages@.subrange(0, i as int)));
        assert(any_missing(prefix) == (any_missing(prefix.drop_last()) || package_raises_missing(prefix.last()))) by {
            if package_raises_missing(prefix.last()) {
                assert(package_raises_missing(prefix[prefix.len() - 1]));
            }
            if any_missing(prefix.drop_last()) {
                let k = choose|k: int| 0 <= k < prefix.len() - 1 && package_raises_missing(#[trigger] prefix.drop_last()[k]);
                assert(package_raises_missing(prefix[k]));
            }
            if any_missing(prefix) {
                let k = choose|k: int| 0 <= k < prefix.len() && package_raises_missing(#[trigger] prefix[k]);
                if k < prefix.len() - 1 {
                    assert(package_raises_missing(prefix.drop_last()[k]));
                }
            }
        }
        assert(any_low_quality(prefix) == (any_low_quality(prefix.drop_last()) || package_raises_low_quality(prefix.last()))) by {
            if package_raises_low_quality(prefix.last()) {
                assert(package_raises_low_quality(prefix[prefix.len() - 1]));
            }
            if any_low_quality(prefix.drop_last()) {
                let k = choose|k: int| 0 <= k < prefix.len() - 1 && package_raises_low_quality(#[trigger] prefix.drop_last()[k]);
                assert(package_raises_low_quality(prefix[k]));
            }
            if any_low_quality(prefix) {
                let k = choose|k: int| 0 <= k < prefix.len() && package_raises_low_quality(#[trigger] prefix[k]);
                if k < prefix.len() - 1 {
                    assert(package_raises_low_quality(prefix.drop_last()[k]));
                }
            }
        }
    }
    assert(packages@.subrange(0, packages@.len() as int) =~= packages@);
}

/// Bundles the license texts of all packages, in order of name. The run
/// succeeds exactly when no license is missing and none is of low quality.
pub fn bundle(root_name: &str, packages: Vec<PackageInfo>) -> (r: (Vec<String>, Report))
    ensures
        strings_view(r.0@) == document(root_name@, sorted_by_name(packages@)),
        r.1.messages() == all_diagnostics(sorted_by_name(packages@)),
        r.1.missing_license == any_missing(sorted_by_name(packages@)),
        r.1.low_quality_license == any_low_quality(sorted_by_name(packages@)),
{
    let sorted = sort_by_name(packages);
    let mut report = Report::new();
    let mut out: Vec<String> = Vec::new();
    assert(report.messages() =~= Seq::empty());
    inline(&mut report, root_name, &sorted, &mut out);
    assert(strings_view(out@) =~= document(root_name@, sorted@));
    assert(report.messages() =~= all_diagnostics(sorted@));
    (out, report)
}

} // verus!
