//! What is shown of a repository: where each item stands, and how a target
//! differs from its source.

use crate::copy::same_bytes;
use crate::diff::{diff_lines, is_space, unified_diff};
use crate::error::Error;
use crate::list::{first_failure, items_of, list_items};
use crate::path::{slash_text, texts};
use crate::plan::{lookup, seen_at, Observed, Seen, SeenView};
use crate::snapshot::Snapshot;
use crate::structs::{link_text, links_view, Content, Link, LinkView};
use crate::text::{decimal, decimal_text};
use vstd::prelude::*;

verus! {

/// The number of lines of context in a diff.
pub const CONTEXT_LINES: usize = 3;

/// What a line of a report says.
#[derive(Debug, Clone, Copy, PartialEq, Eq, Structural)]
pub enum Kind {
    /// A line that only the first text has.
    Removed,
    /// A line that only the second text has.
    Added,
    /// Any other line of a diff.
    Context,
    /// The two files hold different bytes.
    Mismatch,
    /// One file is text and the other is not.
    Unlike,
}

/// A line of a report.
#[derive(Debug, PartialEq, Eq)]
pub struct Line {
    pub kind: Kind,
    pub text: String,
}

/// A line of a report, as plain values.
pub ghost struct LineView {
    pub kind: Kind,
    pub text: Seq<char>,
}

impl View for Line {
    type V = LineView;

    open spec fn view(&self) -> LineView {
        LineView { kind: self.kind, text: self.text@ }
    }
}

/// The view of each line.
pub open spec fn lines_view(lines: Seq<Line>) -> Seq<LineView> {
    lines.map_values(|l: Line| l@)
}

/// The length of a text without the white space at its end.
pub open spec fn trimmed_len(text: Seq<char>) -> nat
    decreases text.len(),
{
    if text.len() == 0 {
        0
    } else if is_space(text.last()) {
        trimmed_len(text.drop_last())
    } else {
        text.len()
    }
}

/// A text without the white space at its end.
pub open spec fn trimmed(text: Seq<char>) -> Seq<char> {
    text.subrange(0, trimmed_len(text) as int)
}

/// What a line of a diff says, by its first character.
pub open spec fn kind_of(line: Seq<char>) -> Kind {
    if line.len() > 0 && line[0] == '+' {
        Kind::Added
    } else if line.len() > 0 && line[0] == '-' {
        Kind::Removed
    } else {
        Kind::Context
    }
}

/// A line of a diff as a line of a report.
pub open spec fn shown(line: Seq<char>) -> LineView {
    LineView { kind: kind_of(line), text: trimmed(line) }
}

/// The diff of two texts as the lines of a report.
pub open spec fn text_diff(
    first: Seq<Seq<char>>,
    second: Seq<Seq<char>>,
    from_file: Seq<char>,
    to_file: Seq<char>,
    from_date: Seq<char>,
    to_date: Seq<char>,
) -> Seq<LineView> {
    diff_lines(first, second, from_file, to_file, from_date, to_date, CONTEXT_LINES as nat).map_values(
        |line: Seq<char>| shown(line),
    )
}

/// What is said of two files of different bytes.
pub open spec fn mismatch_text(source_size: nat, target_size: nat) -> Seq<char> {
    "binary files do not match. src size:"@ + decimal_text(source_size) + ", dst size:"@
        + decimal_text(target_size)
}

/// The comparison of the bytes of two files as the lines of a report.
pub open spec fn binary_diff(
    source_size: nat,
    source: Seq<u8>,
    target_size: nat,
    target: Seq<u8>,
) -> Seq<LineView> {
    if source == target {
        Seq::empty()
    } else {
        seq![LineView { kind: Kind::Mismatch, text: mismatch_text(source_size, target_size) }]
    }
}

/// The comparison of what two files hold as the lines of a report.
pub open spec fn content_diff(
    source: Content,
    target: Content,
    from_file: Seq<char>,
    to_file: Seq<char>,
    from_date: Seq<char>,
    to_date: Seq<char>,
) -> Seq<LineView> {
    match (source, target) {
        (Content::Text(a), Content::Text(b)) => text_diff(
            texts(a@),
            texts(b@),
            from_file,
            to_file,
            from_date,
            to_date,
        ),
        (Content::Binary(m, a), Content::Binary(n, b)) => binary_diff(m as nat, a@, n as nat, b@),
        _ => seq![LineView { kind: Kind::Unlike, text: "file types do not match"@ }],
    }
}

/// Takes the white space off the end of a text.
pub fn trim_end(text: &str) -> (r: &str)
    ensures
        r@ == trimmed(text@),
{
    let mut n: usize = text.unicode_len();
    assert(text@.subrange(0, n as int) =~= text@);
    while n > 0 && text.get_char(n - 1).is_whitespace()
        invariant
            n <= text@.len(),
            trimmed_len(text@) == trimmed_len(text@.subrange(0, n as int)),
        decreases n,
    {
        assert(text@.subrange(0, n as int).drop_last() =~= text@.subrange(0, n - 1));
        n -= 1;
    }
    text.substring_char(0, n)
}

/// Says what a line of a diff is, by its first character.
pub fn classify_line(line: &str) -> (kind: Kind)
    ensures
        kind == kind_of(line@),
{
    if line.unicode_len() == 0 {
        Kind::Context
    } else {
        let first = line.get_char(0);
        if first == '+' {
            Kind::Added
        } else if first == '-' {
            Kind::Removed
        } else {
            Kind::Context
        }
    }
}

/// Compares two texts, each given as its lines, and gives the unified diff
/// with three lines of context as the lines of a report: each line of the
/// diff without the white space at its end, marked as added where it begins
/// with `+` and as removed where it begins with `-`.
pub fn get_text_diff(
    first: &Vec<String>,
    second: &Vec<String>,
    from_file: &str,
    to_file: &str,
    from_date: &str,
    to_date: &str,
) -> (r: Vec<Line>)
    ensures
        lines_view(r@) == text_diff(
            texts(first@),
            texts(second@),
            from_file@,
            to_file@,
            from_date@,
            to_date@,
        ),
{
    let diff = unified_diff(first, second, from_file, to_file, from_date, to_date, CONTEXT_LINES);
    let mut lines: Vec<Line> = Vec::new();
    let mut i: usize = 0;
    while i < diff.len()
        invariant
            i <= diff.len(),
            lines@.len() == i,
            forall|j: int| 0 <= j < i ==> (#[trigger] lines@[j])@ == shown(diff@[j]@),
        decreases diff.len() - i,
    {
        let line = diff[i].as_str();
        lines.push(Line { kind: classify_line(line), text: trim_end(line).to_owned() });
        i += 1;
    }
    assert(lines_view(lines@) =~= texts(diff@).map_values(|line: Seq<char>| shown(line)));
    lines
}

/// Compares the bytes of two files: nothing is said of files that hold the
/// same bytes; of others, that they do not match, with the sizes that were
/// reported for them.
pub fn check_binary_diff(source_size: usize, source: &Vec<u8>, target_size: usize, target: &Vec<u8>) -> (r:
    Vec<Line>)
    ensures
        lines_view(r@) == binary_diff(source_size as nat, source@, target_size as nat, target@),
{
    let mut lines: Vec<Line> = Vec::new();
    if !same_bytes(source, target) {
        let mut text = String::from_str("binary files do not match. src size:");
        text.append(decimal(source_size as u64).as_str());
        text.append(", dst size:");
        text.append(decimal(target_size as u64).as_str());
        lines.push(Line { kind: Kind::Mismatch, text });
    }
    assert(lines_view(lines@) =~= binary_diff(
        source_size as nat,
        source@,
        target_size as nat,
        target@,
    ));
    lines
}

/// Compares what two files hold: two texts by their lines, two files that
/// are no text by their bytes. A text and a file that is none are unlike.
pub fn show_content_diff(
    source: &Content,
    target: &Content,
    from_file: &str,
    to_file: &str,
    from_date: &str,
    to_date: &str,
) -> (r: Vec<Line>)
    ensures
        lines_view(r@) == content_diff(
            *source,
            *target,
            from_file@,
            to_file@,
            from_date@,
            to_date@,
        ),
{
    match (source, target) {
        (Content::Text(a), Content::Text(b)) => get_text_diff(
            a,
            b,
            from_file,
            to_file,
            from_date,
            to_date,
        ),
        (Content::Binary(m, a), Content::Binary(n, b)) => check_binary_diff(*m, a, *n, b),
        _ => {
            let mut lines: Vec<Line> = Vec::new();
            lines.push(Line { kind: Kind::Unlike, text: String::from_str("file types do not match") });
            assert(lines_view(lines@) =~= seq![
                LineView { kind: Kind::Unlike, text: "file types do not match"@ },
            ]);
            lines
        },
    }
}

/// Where an item stands.
#[derive(Debug, Clone, Copy, PartialEq, Eq, Structural)]
pub enum Status {
    /// The target is a symlink to the source.
    Linking,
    /// The target is a symlink to something else.
    Elsewhere,
    /// The target is no symlink.
    Exists,
    /// There is no target.
    NoLink,
}

/// What is shown of one item.
#[derive(Debug, PartialEq, Eq)]
pub struct Report {
    pub status: Status,
    /// What is written beside the status, if the item is shown at all.
    pub line: Option<String>,
    /// Whether the target is to be compared with the source.
    pub compare: bool,
}

/// A report, as plain values.
pub ghost struct ReportView {
    pub status: Status,
    pub line: Option<Seq<char>>,
    pub compare: bool,
}

impl View for Report {
    type V = ReportView;

    open spec fn view(&self) -> ReportView {
        ReportView {
            status: self.status,
            line: match self.line {
                Some(l) => Some(l@),
                None => None,
            },
            compare: self.compare,
        }
    }
}

/// The view of each report.
pub open spec fn reports_view(reports: Seq<Report>) -> Seq<ReportView> {
    reports.map_values(|r: Report| r@)
}

/// What is shown of one repository: its name and its items.
#[derive(Debug, PartialEq, Eq)]
pub struct Section {
    pub name: Option<String>,
    pub reports: Vec<Report>,
}

/// A section, as plain values.
pub ghost struct SectionView {
    pub name: Option<Seq<char>>,
    pub reports: Seq<ReportView>,
}

impl View for Section {
    type V = SectionView;

    open spec fn view(&self) -> SectionView {
        SectionView {
            name: match self.name {
                Some(n) => Some(n@),
                None => None,
            },
            reports: reports_view(self.reports@),
        }
    }
}

/// The view of each section.
pub open spec fn sections_view(sections: Seq<Section>) -> Seq<SectionView> {
    sections.map_values(|s: Section| s@)
}

/// Where an item stands, by what was seen at its target.
pub open spec fn status_of(link: LinkView, seen: SeenView) -> Status {
    match seen {
        SeenView::Missing => Status::NoLink,
        SeenView::Link(to) => if to == link.source {
            Status::Linking
        } else {
            Status::Elsewhere
        },
        SeenView::Other => Status::Exists,
    }
}

/// What is shown of an item: a link that is made or missing is written as a
/// link; a target that is no symlink is written by its path and, unless the
/// item is a directory, compared with the source; a symlink to something
/// else is not shown.
pub open spec fn report_of(link: LinkView, seen: SeenView) -> ReportView {
    match status_of(link, seen) {
        Status::Linking => ReportView {
            status: Status::Linking,
            line: Some(link_text(link)),
            compare: false,
        },
        Status::NoLink => ReportView {
            status: Status::NoLink,
            line: Some(link_text(link)),
            compare: false,
        },
        Status::Exists => ReportView {
            status: Status::Exists,
            line: Some(slash_text(link.target)),
            compare: !link.is_dir,
        },
        Status::Elsewhere => ReportView { status: Status::Elsewhere, line: None, compare: false },
    }
}

/// What is shown of the items, each by what was seen at its target.
pub open spec fn reports_of(items: Seq<LinkView>, table: Seq<Observed>) -> Seq<ReportView> {
    items.map_values(|l: LinkView| report_of(l, seen_at(table, l.target)))
}

/// What is shown of a repository.
pub open spec fn section_of(snap: Snapshot, table: Seq<Observed>) -> Result<SectionView, Error> {
    match items_of(snap, false) {
        Ok(items) => Ok(
            SectionView {
                name: if snap.root@.len() > 0 {
                    Some(snap.root@.last())
                } else {
                    None
                },
                reports: reports_of(items, table),
            },
        ),
        Err(e) => Err(e),
    }
}

/// What is shown of the repositories from the `from`-th on that are listed
/// before one of them fails.
pub open spec fn sections_before_failure(snaps: Seq<Snapshot>, table: Seq<Observed>, from: int) -> Seq<
    SectionView,
>
    decreases snaps.len() - from,
{
    if from < 0 || from >= snaps.len() {
        Seq::empty()
    } else {
        match section_of(snaps[from], table) {
            Ok(section) => seq![section] + sections_before_failure(snaps, table, from + 1),
            Err(_) => Seq::empty(),
        }
    }
}

/// What is shown of several repositories, as far as they could be listed.
#[derive(Debug, PartialEq, Eq)]
pub struct Shown {
    /// The sections of the repositories before the first that cannot be
    /// listed.
    pub sections: Vec<Section>,
    /// Why that repository cannot be listed.
    pub failed: Option<Error>,
}

/// Says what is shown of one item, given what was seen at its target; `None`
/// stands for a target that was not looked at and counts as missing.
pub fn show_item(link: &Link, seen: Option<&Seen>) -> (r: Report)
    ensures
        r@ == report_of(
            link@,
            match seen {
                Some(s) => s@,
                None => SeenView::Missing,
            },
        ),
{
    match seen {
        None | Some(Seen::Missing) => Report {
            status: Status::NoLink,
            line: Some(link.describe()),
            compare: false,
        },
        Some(Seen::Link(to)) => if to.same(&link.source) {
            Report { status: Status::Linking, line: Some(link.describe()), compare: false }
        } else {
            Report { status: Status::Elsewhere, line: None, compare: false }
        },
        Some(Seen::Other) => Report {
            status: Status::Exists,
            line: Some(link.target.to_text()),
            compare: !link.is_dir,
        },
    }
}

/// Says what is shown of a repository: one report for each of its items, in
/// walk order.
pub fn show_link(snap: &Snapshot, observed: &Vec<Observed>) -> (r: Result<Vec<Report>, Error>)
    ensures
        match r {
            Ok(reports) => items_of(*snap, false) is Ok && reports_view(reports@) == reports_of(
                items_of(*snap, false)->Ok_0,
                observed@,
            ),
            Err(e) => items_of(*snap, false) == Err::<Seq<LinkView>, Error>(e),
        },
{
    let items = match list_items(snap, false) {
        Ok(items) => items,
        Err(e) => {
            return Err(e);
        },
    };
    let mut reports: Vec<Report> = Vec::new();
    let mut i: usize = 0;
    while i < items.len()
        invariant
            i <= items.len(),
            reports@.len() == i,
            forall|j: int|
                0 <= j < i ==> (#[trigger] reports@[j])@ == report_of(
                    items@[j]@,
                    seen_at(observed@, items@[j]@.target),
                ),
        decreases items.len() - i,
    {
        reports.push(show_item(&items[i], lookup(observed, &items[i].target)));
        i += 1;
    }
    assert(reports_view(reports@) =~= reports_of(links_view(items@), observed@));
    Ok(reports)
}

/// Says what is shown of several repositories: for each its name, which is
/// the last component of its root, and the reports of its items. A
/// repository that cannot be listed ends the showing: the sections of the
/// repositories before it are handed out together with the failure.
pub fn show_list(snaps: &Vec<Snapshot>, observed: &Vec<Observed>) -> (r: Shown)
    ensures
        sections_view(r.sections@) == sections_before_failure(snaps@, observed@, 0),
        r.failed == first_failure(snaps@, false, 0),
{
    let mut sections: Vec<Section> = Vec::new();
    let mut i: usize = 0;
    assert(sections_view(sections@) =~= Seq::empty());
    while i < snaps.len()
        invariant
            i <= snaps.len(),
            sections@.len() == i,
            sections_view(sections@) + sections_before_failure(snaps@, observed@, i as int)
                == sections_before_failure(snaps@, observed@, 0),
            first_failure(snaps@, false, i as int) == first_failure(snaps@, false, 0),
        decreases snaps.len() - i,
    {
        let ghost before = sections_view(sections@);
        let ghost rest = sections_before_failure(snaps@, observed@, i + 1);
        match show_link(&snaps[i], observed) {
            Ok(reports) => {
                let name = match snaps[i].root.file_name() {
                    Some(n) => Some(n.clone()),
                    None => None,
                };
                sections.push(Section { name, reports });
                let ghost added = sections@[i as int]@;
                assert(sections_view(sections@) =~= before + seq![added]);
                assert(section_of(snaps@[i as int], observed@) == Ok::<SectionView, Error>(added));
                assert((before + seq![added]) + rest =~= before + (seq![added] + rest));
            },
            Err(e) => {
                assert(before + Seq::<SectionView>::empty() =~= before);
                return Shown { sections, failed: Some(e) };
            },
        }
        i += 1;
    }
    assert(sections_view(sections@) + Seq::<SectionView>::empty() =~= sections_view(sections@));
    Shown { sections, failed: None }
}

} // verus!
