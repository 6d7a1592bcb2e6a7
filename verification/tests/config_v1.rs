use challenge_checker::chapters::Chapters;
use challenge_checker::config::{Chapter as ChapterV2, Loaded, ReportType};
use challenge_checker::config_v1::{Chapter, Config, Document};
use challenge_checker::dirset::DirSet;
use challenge_checker::error::CheckError;

fn numbered(number: i32, name: &str) -> Chapter {
    Chapter { number, name: name.to_string(), topics: None }
}

fn basic_document() -> Document {
    Document {
        language: "rust".to_string(),
        project: "Rust Language".to_string(),
        chapters: vec![numbered(1, "basics"), numbered(2, "loops")],
    }
}

// Check that a loaded document becomes the configuration of a run.
#[test]
fn config_v1_test_read_config() {
    let basics = Chapter { number: 1, name: "basics".to_string(), topics: None };
    let loops = Chapter { number: 2, name: "loops".to_string(), topics: None };
    let config = Config {
        project: "Rust Language".to_string(),
        language: "rust".to_string(),
        chapters: vec![basics, loops],
        dirs_cached: false,
        root_dir: "tests/challenges/c1/challenges_v1.yaml".to_string(),
    };

    let actual = Config::from_file(
        "tests/challenges/c1/challenges_v1.yaml",
        Loaded::Parsed(basic_document()),
    )
    .unwrap();
    assert_eq!(config, actual);
}

#[test]
fn v1_from_path_takes_the_path_as_root() {
    let config = Config::from_path("some/where", Loaded::Parsed(basic_document())).unwrap();
    assert_eq!(config.root_dir, "some/where");
    assert!(!config.dirs_cached);
    assert_eq!(config.chapters, vec![numbered(1, "basics"), numbered(2, "loops")]);
}

#[test]
fn v1_from_file_takes_the_file_name_as_root() {
    let config = Config::from_file("old/challenges.yaml", Loaded::Parsed(basic_document())).unwrap();
    assert_eq!(config.root_dir, "old/challenges.yaml");
    assert!(!config.dirs_cached);
    assert_eq!(config.language, "rust");
    assert_eq!(config.project, "Rust Language");
}

#[test]
fn v1_new_reads_the_file_of_the_fixed_name() {
    let config = Config::new(Loaded::Parsed(basic_document())).unwrap();
    assert_eq!(config.root_dir, "challenges.yaml");
    assert!(!config.dirs_cached);
}

#[test]
fn v1_absent_and_malformed_files_fail() {
    assert_eq!(Config::from_file("x.yaml", Loaded::Absent), Err(CheckError::ConfigNotFound));
    assert_eq!(Config::from_file("x.yaml", Loaded::Malformed), Err(CheckError::ConfigParseError));
    assert_eq!(Config::from_path("x", Loaded::Absent), Err(CheckError::ConfigNotFound));
    assert_eq!(Config::from_path("x", Loaded::Malformed), Err(CheckError::ConfigParseError));
    assert_eq!(Config::new(Loaded::Absent), Err(CheckError::ConfigNotFound));
    assert_eq!(Config::new(Loaded::Malformed), Err(CheckError::ConfigParseError));
}

#[test]
fn v1_document_with_a_repeated_number_is_a_parse_error() {
    let document = Document {
        language: "rust".to_string(),
        project: "Rust Language".to_string(),
        chapters: vec![numbered(1, "basics"), numbered(2, "loops"), numbered(1, "again")],
    };
    assert_eq!(Config::from_file("x.yaml", Loaded::Parsed(document)), Err(CheckError::ConfigParseError));
}

#[test]
fn unique_numbers_are_told_from_repeated_ones() {
    assert!(Config::has_unique_numbers(&vec![]));
    assert!(Config::has_unique_numbers(&vec![numbered(1, "a")]));
    assert!(Config::has_unique_numbers(&vec![numbered(1, "a"), numbered(2, "a"), numbered(-1, "a")]));
    assert!(!Config::has_unique_numbers(&vec![numbered(1, "a"), numbered(2, "b"), numbered(2, "c")]));
    assert!(!Config::has_unique_numbers(&vec![numbered(3, "a"), numbered(2, "b"), numbered(3, "c")]));
}

#[test]
fn migration_rekeys_the_chapters() {
    let legacy = Config::from_file("challenges.yaml", Loaded::Parsed(basic_document())).unwrap();
    let current = legacy.to_v2();

    let mut chapters = Chapters::new();
    chapters.insert("01".to_string(), ChapterV2 { name: "basics".to_string(), topics: None });
    chapters.insert("02".to_string(), ChapterV2 { name: "loops".to_string(), topics: None });
    assert_eq!(current.chapters, chapters);
    assert_eq!(current.language, "rust");
    assert_eq!(current.project, "Rust Language");
    assert!(!current.dirs_cached);
    assert_eq!(current.report_type, ReportType::CLI);
    assert_eq!(current.root_dir, "challenges.yaml");
}

#[test]
fn migration_resets_the_cache_flag_and_keeps_the_root() {
    let legacy = Config {
        language: "go".to_string(),
        project: "Go Tour".to_string(),
        chapters: vec![numbered(3, "maps")],
        dirs_cached: true,
        root_dir: "/srv/tour".to_string(),
    };
    let current = legacy.to_v2();
    assert!(!current.dirs_cached);
    assert_eq!(current.root_dir, "/srv/tour");
    assert_eq!(current.report_type, ReportType::CLI);
    assert_eq!(current.language, "go");
    assert_eq!(current.project, "Go Tour");
}

#[test]
fn migration_keeps_names_and_topics() {
    let topics = Some(vec!["for".to_string(), "while".to_string(), "".to_string()]);
    let legacy = Config {
        language: "rust".to_string(),
        project: "p".to_string(),
        chapters: vec![
            Chapter { number: 12, name: "Loops & more".to_string(), topics: topics.clone() },
            Chapter { number: 7, name: "".to_string(), topics: Some(vec![]) },
        ],
        dirs_cached: false,
        root_dir: ".".to_string(),
    };
    let current = legacy.to_v2();
    assert_eq!(current.chapters.len(), 2);
    assert_eq!(
        current.chapters.get("12"),
        Some(&ChapterV2 { name: "Loops & more".to_string(), topics })
    );
    assert_eq!(
        current.chapters.get("07"),
        Some(&ChapterV2 { name: "".to_string(), topics: Some(vec![]) })
    );
}

#[test]
fn migration_pads_keys_to_two_digits() {
    let legacy = Config {
        language: "rust".to_string(),
        project: "p".to_string(),
        chapters: vec![numbered(0, "zero"), numbered(9, "nine"), numbered(10, "ten"),
            numbered(123, "many"), numbered(-4, "minus")],
        dirs_cached: false,
        root_dir: ".".to_string(),
    };
    let current = legacy.to_v2();
    let keys: Vec<&str> = current.chapters.entries().iter().map(|e| e.0.as_str()).collect();
    assert_eq!(keys, vec!["-4", "00", "09", "10", "123"]);
}

#[test]
fn migration_lets_a_later_chapter_replace_an_earlier_one_with_its_number() {
    let legacy = Config {
        language: "rust".to_string(),
        project: "p".to_string(),
        chapters: vec![numbered(1, "first"), numbered(2, "loops"), numbered(1, "second")],
        dirs_cached: false,
        root_dir: ".".to_string(),
    };
    let current = legacy.to_v2();
    assert_eq!(current.chapters.len(), 2);
    assert_eq!(current.chapters.get("01"), Some(&ChapterV2 { name: "second".to_string(), topics: None }));
    assert_eq!(current.chapters.get("02"), Some(&ChapterV2 { name: "loops".to_string(), topics: None }));
}

#[test]
fn migrated_chapters_project_to_their_directories() {
    let legacy = Config::from_file("challenges.yaml", Loaded::Parsed(basic_document())).unwrap();
    let dirs = legacy.to_v2().computed_chapter_dirs();
    let expected = DirSet::from_names(&vec!["01.basics".to_string(), "02.loops".to_string()]);
    assert_eq!(dirs, expected);
}
