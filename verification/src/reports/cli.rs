//! The report for the terminal, with colours.

use crate::dirset::{clone_names, names_of, DirSet};
use crate::text::{decimal, decimal_string};
use termion::{color, style};
use vstd::prelude::*;

verus! {

/// The escape sequence that sets the foreground colour green.
pub open spec fn green_code() -> Seq<char> {
    "\u{1b}[38;5;2m"@
}

/// The escape sequence that sets the foreground colour red.
pub open spec fn red_code() -> Seq<char> {
    "\u{1b}[38;5;1m"@
}

/// The escape sequence that sets bold type.
pub open spec fn bold_code() -> Seq<char> {
    "\u{1b}[1m"@
}

/// The escape sequence that ends all styling.
pub open spec fn reset_code() -> Seq<char> {
    "\u{1b}[m"@
}

/// The escape sequences of a palette as mathematical values.
pub struct PaletteView {
    pub green: Seq<char>,
    pub red: Seq<char>,
    pub bold: Seq<char>,
    pub reset: Seq<char>,
}

/// The escape sequences that style the report.
#[derive(Debug, PartialEq, Eq)]
pub struct Palette {
    pub green: String,
    pub red: String,
    pub bold: String,
    pub reset: String,
}

impl View for Palette {
    type V = PaletteView;

    open spec fn view(&self) -> PaletteView {
        PaletteView {
            green: self.green@,
            red: self.red@,
            bold: self.bold@,
            reset: self.reset@,
        }
    }
}

/// A palette that the terminal library can hand out: bold and reset are
/// fixed, and each colour is its escape sequence or, where colours are
/// switched off, nothing.
pub open spec fn terminal_palette(p: PaletteView) -> bool {
    &&& p.green == green_code() || p.green == Seq::<char>::empty()
    &&& p.red == red_code() || p.red == Seq::<char>::empty()
    &&& p.bold == bold_code()
    &&& p.reset == reset_code()
}

/// The line that says that nothing is wrong.
pub open spec fn all_clear_line(p: PaletteView) -> Seq<char> {
    p.green + p.bold + "All good!"@ + p.reset
}

/// The heading of the missing directories; it starts with an empty line.
pub open spec fn missing_header(p: PaletteView, count: nat) -> Seq<char> {
    "\n"@ + p.red + p.bold + "Error: Found "@ + decimal(count) + " Missing directories"@ + p.reset
}

/// The heading of the extra directories; it starts with an empty line.
pub open spec fn extra_header(p: PaletteView, count: nat) -> Seq<char> {
    "\n"@ + p.red + p.bold + "Found "@ + decimal(count) + " Extra directories"@ + p.reset
}

/// The line of an extra directory.
pub open spec fn extra_line(p: PaletteView, dir: Seq<char>) -> Seq<char> {
    p.red + p.bold + dir + p.reset
}

/// The heading and the lines of the missing directories, or nothing where
/// none is missing.
pub open spec fn missing_block(p: PaletteView, missing: Seq<Seq<char>>) -> Seq<Seq<char>> {
    if missing.len() == 0 {
        Seq::empty()
    } else {
        seq![missing_header(p, missing.len())] + missing
    }
}

/// The heading and the lines of the extra directories, or nothing where
/// none is extra.
pub open spec fn extra_block(p: PaletteView, extra: Seq<Seq<char>>) -> Seq<Seq<char>> {
    if extra.len() == 0 {
        Seq::empty()
    } else {
        seq![extra_header(p, extra.len())] + extra.map_values(|dir: Seq<char>| extra_line(p, dir))
    }
}

/// The lines of the report, in the order in which they are printed.
pub open spec fn console_lines(
    p: PaletteView,
    missing: Seq<Seq<char>>,
    extra: Seq<Seq<char>>,
) -> Seq<Seq<char>> {
    if missing.len() == 0 && extra.len() == 0 {
        seq![all_clear_line(p)]
    } else {
        missing_block(p, missing) + extra_block(p, extra)
    }
}

/// With nothing missing and nothing extra the report is the all-clear line
/// alone.
pub proof fn lemma_all_clear(p: PaletteView)
    ensures
        console_lines(p, Seq::empty(), Seq::empty()) == seq![all_clear_line(p)],
{
}

/// Where directories are missing, the report starts with a heading that
/// holds their number, and the lines that follow it are the missing
/// directories, one each; the rest of the report is about the extra ones.
pub proof fn lemma_missing_lines(p: PaletteView, missing: Seq<Seq<char>>, extra: Seq<Seq<char>>)
    requires
        missing.len() > 0,
    ensures
        console_lines(p, missing, extra).len() == 1 + missing.len() + extra_block(p, extra).len(),
        console_lines(p, missing, extra)[0] == missing_header(p, missing.len()),
        console_lines(p, missing, extra).subrange(1, 1 + missing.len() as int) == missing,
        console_lines(p, missing, extra).skip(1 + missing.len() as int) == extra_block(p, extra),
{
    let lines = console_lines(p, missing, extra);
    assert(lines.subrange(1, 1 + missing.len() as int) =~= missing);
    assert(lines.skip(1 + missing.len() as int) =~= extra_block(p, extra));
}

/// Where directories are extra, the report ends with a heading that holds
/// their number and one line for each of them.
pub proof fn lemma_extra_lines(p: PaletteView, missing: Seq<Seq<char>>, extra: Seq<Seq<char>>)
    requires
        extra.len() > 0,
    ensures
        console_lines(p, missing, extra).len() == missing_block(p, missing).len() + 1 + extra.len(),
        console_lines(p, missing, extra)[missing_block(p, missing).len() as int] == extra_header(
            p,
            extra.len(),
        ),
        forall|i: int|
            0 <= i < extra.len() ==> #[trigger] console_lines(p, missing, extra)[missing_block(
                p,
                missing,
            ).len() + 1 + i] == extra_line(p, extra[i]),
{
}

/// What termion's `color::Fg(color::Green)` displays as: the escape
/// sequence for foreground colour 2 of the 256-colour table, or nothing
/// where the environment has switched colours off.
#[verifier::external_body]
fn green_foreground() -> (r: String)
    ensures
        r@ == green_code() || r@ == Seq::<char>::empty(),
{
    format!("{}", color::Fg(color::Green))
}

/// What termion's `color::Fg(color::Red)` displays as: the escape sequence
/// for foreground colour 1 of the 256-colour table, or nothing where the
/// environment has switched colours off.
#[verifier::external_body]
fn red_foreground() -> (r: String)
    ensures
        r@ == red_code() || r@ == Seq::<char>::empty(),
{
    format!("{}", color::Fg(color::Red))
}

/// What termion's `style::Bold` displays as: the escape sequence `CSI 1 m`.
#[verifier::external_body]
fn bold() -> (r: String)
    ensures
        r@ == bold_code(),
{
    format!("{}", style::Bold)
}

/// What termion's `style::Reset` displays as: the escape sequence `CSI m`.
#[verifier::external_body]
fn reset() -> (r: String)
    ensures
        r@ == reset_code(),
{
    format!("{}", style::Reset)
}

impl Palette {
    /// The palette of the terminal library.
    pub fn terminal() -> (r: Palette)
        ensures
            terminal_palette(r@),
    {
        Palette { green: green_foreground(), red: red_foreground(), bold: bold(), reset: reset() }
    }
}

/// The line that says that nothing is wrong.
fn all_clear(palette: &Palette) -> (r: String)
    ensures
        r@ == all_clear_line(palette@),
{
    let mut r = palette.green.clone();
    r.append(palette.bold.as_str());
    r.append("All good!");
    r.append(palette.reset.as_str());
    assert(r@ =~= all_clear_line(palette@));
    r
}

/// A heading: an empty line, then in bold red the words before the number,
/// the number and the words after it.
fn header(palette: &Palette, before: &str, count: usize, after: &str) -> (r: String)
    ensures
        r@ == "\n"@ + palette@.red + palette@.bold + before@ + decimal(count as nat) + after@
            + palette@.reset,
{
    let mut r = String::from_str("\n");
    r.append(palette.red.as_str());
    r.append(palette.bold.as_str());
    r.append(before);
    let number = decimal_string(count as u64);
    r.append(number.as_str());
    r.append(after);
    r.append(palette.reset.as_str());
    assert(r@ =~= "\n"@ + palette@.red + palette@.bold + before@ + decimal(count as nat) + after@
        + palette@.reset);
    r
}

/// The lines of the report for the terminal with the escape sequences of
/// `palette`: the all-clear line where nothing is missing and nothing is
/// extra; else, for the missing directories and then for the extra ones,
/// as far as there are any, a heading with their number and one line for
/// each in ascending order, those of the extra ones in bold red.
pub fn render(missing: &DirSet, extra: &DirSet, palette: &Palette) -> (r: Vec<String>)
    ensures
        names_of(r@) == console_lines(palette@, missing@, extra@),
{
    let ghost p = palette@;
    if missing.is_empty() && extra.is_empty() {
        let mut lines: Vec<String> = Vec::new();
        lines.push(all_clear(palette));
        assert(names_of(lines@) =~= console_lines(p, missing@, extra@));
        return lines;
    }
    let mut lines: Vec<String> = Vec::new();
    if !missing.is_empty() {
        let names = missing.names();
        lines.push(header(palette, "Error: Found ", names.len(), " Missing directories"));
        let mut copies = clone_names(names);
        lines.append(&mut copies);
    }
    assert(names_of(lines@) =~= missing_block(p, missing@));
    if !extra.is_empty() {
        let names = extra.names();
        let ghost start = lines@;
        lines.push(header(palette, "Found ", names.len(), " Extra directories"));
        let mut i: usize = 0;
        while i < names.len()
            invariant
                i <= names.len(),
                p == palette@,
                names_of(names@) == extra@,
                lines@.len() == start.len() + 1 + i,
                names_of(lines@).take(start.len() as int + 1) == names_of(start) + seq![
                    extra_header(p, extra@.len()),
                ],
                forall|k: int|
                    0 <= k < i ==> (#[trigger] lines@[start.len() + 1 + k])@ == extra_line(
                        p,
                        extra@[k],
                    ),
            decreases names.len() - i,
        {
            let ghost before = lines@;
            let mut line = palette.red.clone();
            line.append(palette.bold.as_str());
            line.append(names[i].as_str());
            line.append(palette.reset.as_str());
            assert(line@ =~= extra_line(p, extra@[i as int])) by {
                assert(names_of(names@)[i as int] == names@[i as int]@);
            }
            lines.push(line);
            i += 1;
            proof {
                assert(names_of(lines@).take(start.len() as int + 1) =~= names_of(before).take(
                    start.len() as int + 1,
                ));
                assert forall|k: int| 0 <= k < i implies (#[trigger] lines@[start.len() + 1 + k])@
                    == extra_line(p, extra@[k]) by {
                    if k < i - 1 {
                        assert(lines@[start.len() + 1 + k] == before[start.len() + 1 + k]);
                    }
                }
            }
        }
        proof {
            let got = names_of(lines@);
            let want = names_of(start) + extra_block(p, extra@);
            assert(got.len() == want.len());
            assert forall|k: int| 0 <= k < got.len() implies got[k] == want[k] by {
                if k < start.len() + 1 {
                    assert(got[k] == got.take(start.len() as int + 1)[k]);
                } else {
                    assert(lines@[start.len() + 1 + (k - start.len() - 1)]@ == extra_line(
                        p,
                        extra@[k - start.len() - 1],
                    ));
                }
            }
            assert(got =~= want);
        }
    }
    assert(names_of(lines@) =~= console_lines(p, missing@, extra@));
    lines
}

/// The lines of the report for the terminal, styled as the terminal
/// library styles them here.
pub fn folder_status_report(missing: &DirSet, extra: &DirSet) -> (r: Vec<String>)
    ensures
        exists|p: PaletteView|
            terminal_palette(p) && names_of(r@) == #[trigger] console_lines(p, missing@, extra@),
{
    let palette = Palette::terminal();
    render(missing, extra, &palette)
}

} // verus!
