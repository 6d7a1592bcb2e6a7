//! The directories of a project held against its chapters.

use crate::config::{projected_dirs, Config, ReportType};
use crate::dirset::{lemma_listing_of, listing_of, DirSet};
use crate::error::CheckError;
use crate::orgmode::{org_report, todo_do_chapter};
use crate::reports::cli::{console_lines, render, terminal_palette, Palette, PaletteView};
use crate::text::{ascending, join_lines, joined};
use vstd::prelude::*;

verus! {

/// The directories that are needed and do not exist, and those that exist
/// and are not needed.
pub open spec fn reconciled(needed: Set<Seq<char>>, existing: Set<Seq<char>>) -> (
    Set<Seq<char>>,
    Set<Seq<char>>,
) {
    (needed.difference(existing), existing.difference(needed))
}

/// Where every needed directory exists and no other, nothing is missing
/// and nothing is extra.
pub proof fn lemma_reconcile_same(dirs: Set<Seq<char>>)
    ensures
        reconciled(dirs, dirs) == (Set::<Seq<char>>::empty(), Set::<Seq<char>>::empty()),
{
    assert(dirs.difference(dirs) =~= Set::<Seq<char>>::empty());
}

/// Swapping the two sets swaps the two results.
pub proof fn lemma_reconcile_swapped(a: Set<Seq<char>>, b: Set<Seq<char>>)
    ensures
        reconciled(a, b) == (reconciled(b, a).1, reconciled(b, a).0),
{
}

/// The missing and the extra directories: the names of `needed` that are
/// not in `existing`, and those of `existing` that are not in `needed`.
pub fn reconcile(needed: &DirSet, existing: &DirSet) -> (r: (DirSet, DirSet))
    ensures
        (r.0.as_set(), r.1.as_set()) == reconciled(needed.as_set(), existing.as_set()),
        ascending(r.0@),
        ascending(r.1@),
{
    (needed.difference(existing), existing.difference(needed))
}

/// The missing and the extra directories of a project whose directories
/// are `existing`.
pub fn analyze(config: &Config, existing: &DirSet) -> (r: (DirSet, DirSet))
    ensures
        (r.0.as_set(), r.1.as_set()) == reconciled(
            projected_dirs(config.chapters@),
            existing.as_set(),
        ),
        ascending(r.0@),
        ascending(r.1@),
{
    let needed = config.computed_chapter_dirs();
    reconcile(&needed, existing)
}

/// The text of the report for the terminal: its lines, each followed by a
/// line feed.
pub fn report(missing_dirs: &DirSet, extra_dirs: &DirSet, palette: &Palette) -> (r: String)
    ensures
        r@ == joined(console_lines(palette@, missing_dirs@, extra_dirs@)),
{
    let lines = render(missing_dirs, extra_dirs, palette);
    join_lines(&lines)
}

/// What the org-mode report of the missing directories comes to: the
/// text of their headings.
pub open spec fn org_result(
    config: Config,
    missing: Seq<Seq<char>>,
    r: Result<String, CheckError>,
) -> bool {
    r matches Ok(text) && text@ == org_report(config.language@, config.project@, missing)
}

/// What the report for the terminal may come to: its text in a palette of
/// the terminal library.
pub open spec fn console_result(
    missing: Seq<Seq<char>>,
    extra: Seq<Seq<char>>,
    r: Result<String, CheckError>,
) -> bool {
    r matches Ok(text) && exists|p: PaletteView|
        terminal_palette(p) && text@ == joined(#[trigger] console_lines(p, missing, extra))
}

/// What a run prints for a project whose directories are `existing`: the
/// report that the configuration asks for, about the missing directories
/// and, on the terminal, the extra ones, each in ascending order.
pub open spec fn run_result(
    config: Config,
    existing: Set<Seq<char>>,
    r: Result<String, CheckError>,
) -> bool {
    let found = reconciled(projected_dirs(config.chapters@), existing);
    if config.report_type == ReportType::OrgMode {
        org_result(config, listing_of(found.0), r)
    } else {
        console_result(listing_of(found.0), listing_of(found.1), r)
    }
}

/// Holds the directories of a project against its chapters and gives the
/// text of the report that the configuration asks for.
pub fn run(config: &Config, existing: &DirSet) -> (r: Result<String, CheckError>)
    ensures
        run_result(*config, existing.as_set(), r),
{
    let (missing_dirs, extra_dirs) = analyze(config, existing);
    proof {
        lemma_listing_of(missing_dirs@);
        lemma_listing_of(extra_dirs@);
    }
    match config.report_type {
        ReportType::OrgMode => {
            let r = todo_do_chapter(&missing_dirs, config);
            assert(org_result(*config, missing_dirs@, r));
            r
        },
        ReportType::CLI => {
            let palette = Palette::terminal();
            let text = report(&missing_dirs, &extra_dirs, &palette);
            assert(terminal_palette(palette@) && text@ == joined(
                console_lines(palette@, missing_dirs@, extra_dirs@),
            ));
            let r = Ok(text);
            assert(console_result(missing_dirs@, extra_dirs@, r));
            r
        },
    }
}

} // verus!
