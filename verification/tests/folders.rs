use challenge_checker::analytics::folders::{analyze, reconcile, report, run};
use challenge_checker::chapters::Chapters;
use challenge_checker::config::{Chapter, Config, Document, Loaded, ReportType};
use challenge_checker::dirset::DirSet;
use challenge_checker::fileops::list_directories;
use challenge_checker::orgmode::todo_do_chapter;
use challenge_checker::reports::cli::Palette;

fn set_of(names: &[&str]) -> DirSet {
    DirSet::from_names(&names.iter().map(|s| s.to_string()).collect())
}

fn config_of(chapters: &[(&str, &str)]) -> Config {
    let mut map = Chapters::new();
    for (key, name) in chapters.iter() {
        map.insert(key.to_string(), Chapter { name: name.to_string(), topics: None });
    }
    let document = Document {
        language: "rust".to_string(),
        project: "Rust Language".to_string(),
        chapters: map,
    };
    Config::from_file("tests/challenges/c1/basic.yaml", Loaded::Parsed(document)).unwrap()
}

fn palette(green: &str, red: &str) -> Palette {
    Palette {
        green: green.to_string(),
        red: red.to_string(),
        bold: "\u{1b}[1m".to_string(),
        reset: "\u{1b}[m".to_string(),
    }
}

#[test]
fn test_analyze() {
    let mut config = config_of(&[("01", "basics"), ("02", "loops")]);

    config.root_dir = "tests/challenges/c1".to_string();

    let existing =
        list_directories(Some(vec!["01.basics".to_string(), "02.loops".to_string()]), true).unwrap();
    let (missing_dirs, extra_dirs) = analyze(&config, &existing);

    let expected_missing_dirs = DirSet::new();
    let expected_extra_dirs = DirSet::new();

    assert_eq!(expected_missing_dirs, missing_dirs);
    assert_eq!(expected_extra_dirs, extra_dirs);
}

#[test]
fn analyze_finds_missing_and_extra_directories() {
    let config = config_of(&[("01", "basics"), ("02", "loops"), ("03", "recursion")]);
    let existing = set_of(&["02.loops", "99.scratch", "notes"]);
    let (missing, extra) = analyze(&config, &existing);
    assert_eq!(missing, set_of(&["01.basics", "03.recursion"]));
    assert_eq!(extra, set_of(&["99.scratch", "notes"]));
}

#[test]
fn reconcile_of_equal_sets_finds_nothing() {
    for names in [&[][..], &["a"][..], &["01.basics", "02.loops", ".git"][..]] {
        let dirs = set_of(names);
        let (missing, extra) = reconcile(&dirs, &dirs.clone());
        assert_eq!(missing, DirSet::new());
        assert_eq!(extra, DirSet::new());
    }
}

#[test]
fn reconcile_with_swapped_sets_swaps_the_results() {
    let a = set_of(&["a", "b", "c"]);
    let b = set_of(&["b", "c", "d", "e"]);
    let (missing, extra) = reconcile(&a, &b);
    let (missing_back, extra_back) = reconcile(&b, &a);
    assert_eq!(missing, extra_back);
    assert_eq!(extra, missing_back);
    assert_eq!(missing, set_of(&["a"]));
    assert_eq!(extra, set_of(&["d", "e"]));
}

#[test]
fn reconcile_of_empty_sets_is_empty() {
    let (missing, extra) = reconcile(&DirSet::new(), &DirSet::new());
    assert!(missing.is_empty());
    assert!(extra.is_empty());
    let (missing, extra) = reconcile(&set_of(&["a"]), &DirSet::new());
    assert_eq!(missing, set_of(&["a"]));
    assert!(extra.is_empty());
    let (missing, extra) = reconcile(&DirSet::new(), &set_of(&["a"]));
    assert!(missing.is_empty());
    assert_eq!(extra, set_of(&["a"]));
}

#[test]
fn reconcile_compares_names_exactly() {
    let (missing, extra) = reconcile(&set_of(&["01.Basics", "02.loops"]), &set_of(&["01.basics", "02.loops "]));
    assert_eq!(missing, set_of(&["01.Basics", "02.loops"]));
    assert_eq!(extra, set_of(&["01.basics", "02.loops "]));
}

#[test]
fn report_text_is_the_lines_with_line_feeds() {
    let text = report(&DirSet::new(), &DirSet::new(), &palette("<g>", "<r>"));
    assert_eq!(text, "<g>\u{1b}[1mAll good!\u{1b}[m\n");
    let text = report(&set_of(&["b", "a"]), &set_of(&["x"]), &palette("<g>", "<r>"));
    assert_eq!(
        text,
        "\n<r>\u{1b}[1mError: Found 2 Missing directories\u{1b}[m\na\nb\n\
         \n<r>\u{1b}[1mFound 1 Extra directories\u{1b}[m\n<r>\u{1b}[1mx\u{1b}[m\n"
    );
}

#[test]
fn run_in_org_mode_lists_the_missing_chapters() {
    let mut config = config_of(&[("10", "macros"), ("02", "loops"), ("01", "basics")]);
    config.report_type = ReportType::new("org");
    let text = run(&config, &set_of(&["01.basics", "extra"])).unwrap();
    assert_eq!(
        text,
        "\n* TODO [rust] Rust Language :: Learn 02.loops\n\
         \n* TODO [rust] Rust Language :: Learn 10.macros\n"
    );
}

#[test]
fn run_in_org_mode_leaves_the_extra_directories_out() {
    let mut config = config_of(&[("01", "basics"), ("02", "loops"), ("03", "recursion")]);
    config.project = "RustBook".to_string();
    config.report_type = ReportType::OrgMode;
    let text = run(&config, &set_of(&["01.basics", "02.loops", "99.junk"]));
    assert_eq!(text, Ok("\n* TODO [rust] RustBook :: Learn 03.recursion\n".to_string()));
}

#[test]
fn run_in_org_mode_gives_what_the_org_report_gives() {
    let mut config = config_of(&[("20", "async"), ("100", "ffi"), ("01", "basics")]);
    config.report_type = ReportType::OrgMode;
    let existing = set_of(&["01.basics", "junk"]);
    let (missing, _) = analyze(&config, &existing);
    assert_eq!(run(&config, &existing), todo_do_chapter(&missing, &config));
}

#[test]
fn run_in_org_mode_with_nothing_missing_prints_nothing() {
    let mut config = config_of(&[("01", "basics")]);
    config.report_type = ReportType::OrgMode;
    assert_eq!(run(&config, &set_of(&["01.basics", "extra"])), Ok(String::new()));
}

#[test]
fn run_on_the_terminal_reports_in_a_palette_of_the_terminal() {
    let config = config_of(&[("01", "basics"), ("02", "loops")]);
    let existing = set_of(&["01.basics", "junk"]);
    let text = run(&config, &existing).unwrap();
    let missing = set_of(&["02.loops"]);
    let extra = set_of(&["junk"]);
    let styled = report(&missing, &extra, &palette("\u{1b}[38;5;2m", "\u{1b}[38;5;1m"));
    let plain = report(&missing, &extra, &palette("", ""));
    assert!(text == styled || text == plain);
}

#[test]
fn run_on_the_terminal_with_matching_directories_is_all_clear() {
    let config = config_of(&[("01", "basics"), ("02", "loops")]);
    let text = run(&config, &set_of(&["02.loops", "01.basics"])).unwrap();
    assert!(
        text == "\u{1b}[38;5;2m\u{1b}[1mAll good!\u{1b}[m\n" || text == "\u{1b}[1mAll good!\u{1b}[m\n"
    );
}
