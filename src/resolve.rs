use vstd::prelude::*;

use crate::license::{Confidence, LicenseText};
use crate::locate::texts_view;

verus! {

/// How serious a diagnostic is.
#[derive(Debug, Clone, Copy, PartialEq, Eq, Structural)]
pub enum Severity {
    Warning,
    Error,
}

/// One user-facing message.
pub struct Diagnostic {
    pub severity: Severity,
    pub message: String,
}

impl View for Diagnostic {
    type V = (Severity, Seq<char>);

    open spec fn view(&self) -> Self::V {
        (self.severity, self.message@)
    }
}

pub open spec fn diagnostics_view(ds: Seq<Diagnostic>) -> Seq<(Severity, Seq<char>)> {
    ds.map_values(|d: Diagnostic| d@)
}

/// The run-wide state: the two failure flags, which are only ever raised,
/// and the diagnostics emitted so far.
pub struct Report {
    pub missing_license: bool,
    pub low_quality_license: bool,
    pub diagnostics: Vec<Diagnostic>,
}

impl Report {
    pub open spec fn succeeded(&self) -> bool {
        !self.missing_license && !self.low_quality_license
    }

    pub open spec fn messages(&self) -> Seq<(Severity, Seq<char>)> {
        diagnostics_view(self.diagnostics@)
    }

    /// A report with no flag raised and no diagnostic.
    pub fn new() -> (r: Report)
        ensures
            !r.missing_license,
            !r.low_quality_license,
            r.diagnostics@.len() == 0,
    {
        Report { missing_license: false, low_quality_license: false, diagnostics: Vec::new() }
    }

    /// Whether the run succeeded: neither flag was raised.
    pub fn success(&self) -> (r: bool)
        ensures
            r == self.succeeded(),
    {
        !self.missing_license && !self.low_quality_license
    }

    /// Records one diagnostic after those already emitted.
    pub fn emit(&mut self, severity: Severity, message: String)
        ensures
            final(self).missing_license == old(self).missing_license,
            final(self).low_quality_license == old(self).low_quality_license,
            final(self).messages() == old(self).messages().push((severity, message@)),
    {
        self.diagnostics.push(Diagnostic { severity, message });
        assert(final(self).messages() =~= old(self).messages().push((severity, message@)));
    }
}

pub type TextView = (Seq<char>, Seq<char>, Confidence);

/// The candidates of one confidence tier, in their original order.
pub open spec fn tier(ts: Seq<TextView>, c: Confidence) -> Seq<TextView>
    decreases ts.len(),
{
    if ts.len() == 0 {
        Seq::empty()
    } else if ts.last().2 == c {
        tier(ts.drop_last(), c).push(ts.last())
    } else {
        tier(ts.drop_last(), c)
    }
}

/// The candidate picked: the first of the best non-empty tier.
pub open spec fn chosen(ts: Seq<TextView>) -> Option<TextView> {
    let c = tier(ts, Confidence::Confident);
    let s = tier(ts, Confidence::SemiConfident);
    let u = tier(ts, Confidence::Unsure);
    if c.len() > 0 {
        Some(c[0])
    } else if s.len() > 0 {
        Some(s[0])
    } else if u.len() > 0 {
        Some(u[0])
    } else {
        None
    }
}

/// Whether choosing among these candidates marks the run as low quality:
/// nothing confident, and several semi-confident or only unsure ones.
pub open spec fn raises_low_quality(ts: Seq<TextView>) -> bool {
    let c = tier(ts, Confidence::Confident);
    let s = tier(ts, Confidence::SemiConfident);
    let u = tier(ts, Confidence::Unsure);
    c.len() == 0 && (s.len() > 1 || (s.len() == 0 && u.len() > 0))
}

/// Whether choosing among these candidates marks a license as missing.
pub open spec fn raises_missing(ts: Seq<TextView>) -> bool {
    tier(ts, Confidence::Confident).len() == 0 && tier(ts, Confidence::SemiConfident).len() == 0
        && tier(ts, Confidence::Unsure).len() == 0
}

pub open spec fn path_line(path: Seq<char>) -> Seq<char> {
    "    "@ + path
}

pub open spec fn path_lines(severity: Severity, ts: Seq<TextView>) -> Seq<(Severity, Seq<char>)> {
    ts.map_values(|t: TextView| (severity, path_line(t.0)))
}

pub open spec fn headline(package: Seq<char>, middle: Seq<char>, license: Seq<char>) -> Seq<char> {
    package + middle + license + ":"@
}

/// The diagnostics that choosing among these candidates emits.
pub open spec fn choose_diagnostics(
    package: Seq<char>,
    license: Seq<char>,
    root: Seq<char>,
    ts: Seq<TextView>,
) -> Seq<(Severity, Seq<char>)> {
    let c = tier(ts, Confidence::Confident);
    let s = tier(ts, Confidence::SemiConfident);
    let u = tier(ts, Confidence::Unsure);
    if c.len() == 1 {
        Seq::empty()
    } else if c.len() > 1 {
        seq![(Severity::Error, headline(package, " has multiple candidates for license "@, license))]
            + path_lines(Severity::Error, c)
    } else if s.len() == 1 {
        seq![
            (Severity::Warning, headline(package, " has only a low-confidence candidate for license "@, license)),
            (Severity::Warning, path_line(s[0].0)),
        ]
    } else if s.len() > 1 {
        seq![(Severity::Error, headline(package, " has multiple low-confidence candidates for license "@, license))]
            + path_lines(Severity::Error, s)
    } else if u.len() == 1 {
        seq![
            (Severity::Warning, headline(package, " has only a very low-confidence candidate for license "@, license)),
            (Severity::Warning, path_line(u[0].0)),
        ]
    } else if u.len() > 1 {
        seq![(Severity::Error, headline(package, " has multiple very low-confidence candidates for license "@, license))]
            + path_lines(Severity::Error, u)
    } else {
        seq![(Severity::Error, package + " has no candidate texts for license "@ + license + " in "@ + root)]
    }
}

pub open spec fn option_view(r: Option<LicenseText>) -> Option<TextView> {
    match r {
        Some(t) => Some(t@),
        None => None,
    }
}

/// `a` followed by `b`.
pub(crate) fn joined2(a: &str, b: &str) -> (r: String)
    ensures
        r@ == a@ + b@,
{
    let mut r = String::new();
    r.append(a);
    r.append(b);
    assert(r@ =~= a@ + b@);
    r
}

/// A string holding exactly the characters of `a`.
pub(crate) fn owned(a: &str) -> (r: String)
    ensures
        r@ == a@,
{
    let mut r = String::new();
    r.append(a);
    assert(r@ =~= a@);
    r
}

/// `a` followed by `b`, `c` and `d`.
pub(crate) fn joined(a: &str, b: &str, c: &str, d: &str) -> (r: String)
    ensures
        r@ == a@ + b@ + c@ + d@,
{
    let mut r = String::new();
    r.append(a);
    r.append(b);
    r.append(c);
    r.append(d);
    assert(r@ =~= a@ + b@ + c@ + d@);
    r
}

fn emit_path_lines(report: &mut Report, severity: Severity, ts: &Vec<LicenseText>)
    ensures
        final(report).missing_license == old(report).missing_license,
        final(report).low_quality_license == old(report).low_quality_license,
        final(report).messages() == old(report).messages() + path_lines(severity, texts_view(ts@)),
{
    let mut i: usize = 0;
    while i < ts.len()
        invariant
            i <= ts@.len(),
            report.missing_license == old(report).missing_license,
            report.low_quality_license == old(report).low_quality_license,
            report.messages() == old(report).messages() + path_lines(
                severity,
                texts_view(ts@.subrange(0, i as int)),
            ),
        decreases ts@.len() - i,
    {
        let line = joined2("    ", ts[i].path.as_str());
        report.emit(severity, line);
        i += 1;
        assert(report.messages() =~= old(report).messages() + path_lines(
            severity,
            texts_view(ts@.subrange(0, i as int)),
        ));
    }
    assert(ts@.subrange(0, ts@.len() as int) =~= ts@);
}

/// Splits candidates into the three confidence tiers, keeping their order.
fn partition(texts: Vec<LicenseText>) -> (r: (Vec<LicenseText>, Vec<LicenseText>, Vec<LicenseText>))
    ensures
        texts_view(r.0@) == tier(texts_view(texts@), Confidence::Confident),
        texts_view(r.1@) == tier(texts_view(texts@), Confidence::SemiConfident),
        texts_view(r.2@) == tier(texts_view(texts@), Confidence::Unsure),
{
    let ghost all = texts_view(texts@);
    let n = texts.len();
    let mut rest = texts;
    let mut confident: Vec<LicenseText> = Vec::new();
    let mut semi: Vec<LicenseText> = Vec::new();
    let mut unsure: Vec<LicenseText> = Vec::new();
    let mut k: usize = 0;
    while k < n
        invariant
            n == all.len(),
            k <= n,
            texts_view(rest@) == all.subrange(k as int, n as int),
            texts_view(confident@) == tier(all.subrange(0, k as int), Confidence::Confident),
            texts_view(semi@) == tier(all.subrange(0, k as int), Confidence::SemiConfident),
            texts_view(unsure@) == tier(all.subrange(0, k as int), Confidence::Unsure),
        decreases n - k,
    {
        assert(texts_view(rest@).len() == n - k);
        assert(texts_view(rest@)[0] == all[k as int]);
        let ghost before = rest@;
        let t = rest.remove(0);
        assert(t@ == all[k as int]);
        assert(rest@ =~= before.subrange(1, before.len() as int));
        assert(all.subrange(0, k + 1).drop_last() =~= all.subrange(0, k as int));
        assert(all.subrange(0, k + 1).last() == all[k as int]);
        match t.confidence {
            Confidence::Confident => confident.push(t),
            Confidence::SemiConfident => semi.push(t),
            Confidence::Unsure => unsure.push(t),
        }
        assert forall|j: int| 0 <= j < rest@.len() implies #[trigger] texts_view(rest@)[j] == all[k + 1 + j] by {
            assert(rest@[j] == before[j + 1]);
            assert(texts_view(before)[j + 1] == all[k + 1 + j]);
        }
        k += 1;
        assert(texts_view(rest@) =~= all.subrange(k as int, n as int));
        assert(texts_view(confident@) =~= tier(all.subrange(0, k as int), Confidence::Confident));
        assert(texts_view(semi@) =~= tier(all.subrange(0, k as int), Confidence::SemiConfident));
        assert(texts_view(unsure@) =~= tier(all.subrange(0, k as int), Confidence::Unsure));
    }
    assert(all.subrange(0, n as int) =~= all);
    (confident, semi, unsure)
}

/// Picks one candidate text for a license obligation, reporting ambiguity and
/// low confidence, and raising the run's flags where the pick is doubtful or
/// there is nothing to pick.
pub fn choose_text(
    report: &mut Report,
    package: &str,
    license: &str,
    root: &str,
    texts: Vec<LicenseText>,
) -> (r: Option<LicenseText>)
    ensures
        option_view(r) == chosen(texts_view(texts@)),
        final(report).missing_license == (old(report).missing_license || raises_missing(
            texts_view(texts@),
        )),
        final(report).low_quality_license == (old(report).low_quality_license || raises_low_quality(
            texts_view(texts@),
        )),
        final(report).messages() == old(report).messages() + choose_diagnostics(
            package@,
            license@,
            root@,
            texts_view(texts@),
        ),
{
    let ghost ts = texts_view(texts@);
    let (mut confident, mut semi, mut unsure) = partition(texts);
    if confident.len() >= 1 {
        if confident.len() > 1 {
            let head = joined(package, " has multiple candidates for license ", license, ":");
            report.emit(Severity::Error, head);
            emit_path_lines(report, Severity::Error, &confident);
        }
        assert(report.messages() =~= old(report).messages() + choose_diagnostics(package@, license@, root@, ts));
        assert(texts_view(confident@)[0] == confident@[0]@);
        return Some(confident.remove(0));
    }
    if semi.len() == 1 {
        report.emit(
            Severity::Warning,
            joined(package, " has only a low-confidence candidate for license ", license, ":"),
        );
        report.emit(Severity::Warning, joined2("    ", semi[0].path.as_str()));
        assert(report.messages() =~= old(report).messages() + choose_diagnostics(package@, license@, root@, ts));
        assert(texts_view(semi@)[0] == semi@[0]@);
        return Some(semi.remove(0));
    } else if semi.len() > 1 {
        report.low_quality_license = true;
        report.emit(
            Severity::Error,
            joined(package, " has multiple low-confidence candidates for license ", license, ":"),
        );
        emit_path_lines(report, Severity::Error, &semi);
        assert(report.messages() =~= old(report).messages() + choose_diagnostics(package@, license@, root@, ts));
        assert(texts_view(semi@)[0] == semi@[0]@);
        return Some(semi.remove(0));
    }
    if unsure.len() == 1 {
        report.low_quality_license = true;
        report.emit(
            Severity::Warning,
            joined(package, " has only a very low-confidence candidate for license ", license, ":"),
        );
        report.emit(Severity::Warning, joined2("    ", unsure[0].path.as_str()));
        assert(report.messages() =~= old(report).messages() + choose_diagnostics(package@, license@, root@, ts));
        assert(texts_view(unsure@)[0] == unsure@[0]@);
        return Some(unsure.remove(0));
    } else if unsure.len() > 1 {
        report.low_quality_license = true;
        report.emit(
            Severity::Error,
            joined(package, " has multiple very low-confidence candidates for license ", license, ":"),
        );
        emit_path_lines(report, Severity::Error, &unsure);
        assert(report.messages() =~= old(report).messages() + choose_diagnostics(package@, license@, root@, ts));
        assert(texts_view(unsure@)[0] == unsure@[0]@);
        return Some(unsure.remove(0));
    }
    let mut tail = joined2(" in ", root);
    let message = joined(package, " has no candidate texts for license ", license, tail.as_str());
    assert(message@ =~= package@ + " has no candidate texts for license "@ + license@ + " in "@ + root@);
    report.emit(Severity::Error, message);
    report.missing_license = true;
    assert(report.messages() =~= old(report).messages() + choose_diagnostics(package@, license@, root@, ts));
    None
}

/// With exactly one confident candidate, that candidate is picked, nothing is
/// reported and neither flag is raised, whatever else was found.
pub proof fn lemma_confident_wins(package: Seq<char>, license: Seq<char>, root: Seq<char>, ts: Seq<TextView>)
    requires
        tier(ts, Confidence::Confident).len() == 1,
    ensures
        chosen(ts) == Some(tier(ts, Confidence::Confident)[0]),
        choose_diagnostics(package, license, root, ts) == Seq::<(Severity, Seq<char>)>::empty(),
        !raises_low_quality(ts),
        !raises_missing(ts),
{
}

/// Without candidates nothing is picked and a license is marked missing.
pub proof fn lemma_no_candidates(package: Seq<char>, license: Seq<char>, root: Seq<char>)
    ensures
        chosen(Seq::<TextView>::empty()) is None,
        raises_missing(Seq::<TextView>::empty()),
        choose_diagnostics(package, license, root, Seq::<TextView>::empty()) == seq![
            (Severity::Error, package + " has no candidate texts for license "@ + license + " in "@ + root),
        ],
{
    assert(tier(Seq::<TextView>::empty(), Confidence::Confident).len() == 0);
    assert(tier(Seq::<TextView>::empty(), Confidence::SemiConfident).len() == 0);
    assert(tier(Seq::<TextView>::empty(), Confidence::Unsure).len() == 0);
}

/// With two semi-confident candidates and no confident one, the first of the
/// two is picked, the run is marked low quality, and one error lists both paths.
pub proof fn lemma_two_semi_confident(package: Seq<char>, license: Seq<char>, root: Seq<char>, ts: Seq<TextView>)
    requires
        tier(ts, Confidence::Confident).len() == 0,
        tier(ts, Confidence::SemiConfident).len() == 2,
    ensures
        chosen(ts) == Some(tier(ts, Confidence::SemiConfident)[0]),
        raises_low_quality(ts),
        choose_diagnostics(package, license, root, ts) == seq![
            (Severity::Error, headline(package, " has multiple low-confidence candidates for license "@, license)),
            (Severity::Error, path_line(tier(ts, Confidence::SemiConfident)[0].0)),
            (Severity::Error, path_line(tier(ts, Confidence::SemiConfident)[1].0)),
        ],
{
    let s = tier(ts, Confidence::SemiConfident);
    assert(path_lines(Severity::Error, s) =~= seq![
        (Severity::Error, path_line(s[0].0)),
        (Severity::Error, path_line(s[1].0)),
    ]);
    assert(choose_diagnostics(package, license, root, ts) =~= seq![
        (Severity::Error, headline(package, " has multiple low-confidence candidates for license "@, license)),
        (Severity::Error, path_line(s[0].0)),
        (Severity::Error, path_line(s[1].0)),
    ]);
}

} // verus!
