use challenge_checker::chapters::Chapters;
use challenge_checker::config::{Config, Document, Loaded};
use challenge_checker::dirset::DirSet;
use challenge_checker::error::CheckError;
use challenge_checker::orgmode::{add_entry, todo_do_chapter};

fn set_of(names: &[&str]) -> DirSet {
    DirSet::from_names(&names.iter().map(|s| s.to_string()).collect())
}

fn config_of(language: &str, project: &str) -> Config {
    let document = Document {
        language: language.to_string(),
        project: project.to_string(),
        chapters: Chapters::new(),
    };
    Config::from_file("challenges.yaml", Loaded::Parsed(document)).unwrap()
}

#[test]
fn one_missing_chapter_gives_one_heading() {
    let text = todo_do_chapter(&set_of(&["03.recursion"]), &config_of("rust", "RustBook")).unwrap();
    assert_eq!(text, "\n* TODO [rust] RustBook :: Learn 03.recursion\n");
}

#[test]
fn headings_come_in_lexicographic_order() {
    let text =
        todo_do_chapter(&set_of(&["10.macros", "02.loops"]), &config_of("rust", "RustBook")).unwrap();
    assert_eq!(
        text,
        "\n* TODO [rust] RustBook :: Learn 02.loops\n\n* TODO [rust] RustBook :: Learn 10.macros\n"
    );
    let first = text.find("02.loops").unwrap();
    let second = text.find("10.macros").unwrap();
    assert!(first < second);
}

#[test]
fn headings_are_ordered_by_characters_not_by_numbers() {
    let text =
        todo_do_chapter(&set_of(&["20.async", "100.ffi"]), &config_of("rust", "RustBook")).unwrap();
    assert_eq!(
        text,
        "\n* TODO [rust] RustBook :: Learn 100.ffi\n\n* TODO [rust] RustBook :: Learn 20.async\n"
    );
}

#[test]
fn the_report_is_there_for_every_input() {
    let config = config_of("c", "C & C++ <basics>");
    assert_eq!(
        todo_do_chapter(&set_of(&["01.intro"]), &config),
        Ok("\n* TODO [c] C & C++ <basics> :: Learn 01.intro\n".to_string())
    );
    let odd = config_of("{language}", "{{ if x }} {# note #} \\");
    assert_eq!(
        todo_do_chapter(&set_of(&["{chapter}", "a\nb"]), &odd),
        Ok("\n* TODO [{language}] {{ if x }} {# note #} \\ :: Learn a\nb\n\
            \n* TODO [{language}] {{ if x }} {# note #} \\ :: Learn {chapter}\n"
            .to_string())
    );
}

#[test]
fn equal_inputs_give_equal_reports() {
    let missing = set_of(&["02.loops", "03.recursion"]);
    let first = todo_do_chapter(&missing, &config_of("rust", "RustBook"));
    let mut other = config_of("rust", "RustBook");
    other.root_dir = "elsewhere".to_string();
    other.dirs_cached = true;
    let second = todo_do_chapter(&missing, &other);
    assert!(first.is_ok());
    assert_eq!(first, second);
}

#[test]
fn nothing_missing_gives_an_empty_report() {
    assert_eq!(todo_do_chapter(&DirSet::new(), &config_of("rust", "RustBook")), Ok(String::new()));
}

#[test]
fn values_appear_character_for_character() {
    let config = config_of("c<+>", "Tom & Jerry's \"C\" {book}");
    let text = todo_do_chapter(&set_of(&["01.a&b<c>'d'"]), &config).unwrap();
    assert_eq!(text, "\n* TODO [c<+>] Tom & Jerry's \"C\" {book} :: Learn 01.a&b<c>'d'\n");
}

#[test]
fn empty_values_leave_their_places_empty() {
    let text = todo_do_chapter(&set_of(&[""]), &config_of("", "")).unwrap();
    assert_eq!(text, "\n* TODO []  :: Learn \n");
}

#[test]
fn a_rendered_heading_is_added_to_the_report() {
    assert_eq!(add_entry("abc".to_string(), Ok("def".to_string())), Ok("abcdef".to_string()));
    assert_eq!(add_entry(String::new(), Ok(String::new())), Ok(String::new()));
}

#[test]
fn a_failed_rendering_is_a_template_render_error() {
    let failure = tinytemplate::error::Error::GenericError { msg: "no such template".to_string() };
    assert_eq!(add_entry("abc".to_string(), Err(failure)), Err(CheckError::TemplateRenderError));
}
