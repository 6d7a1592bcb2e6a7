use challenge_checker::dirset::DirSet;
use challenge_checker::error::CheckError;
use challenge_checker::fileops::{is_not_chapter, list_directories};

fn names(list: &[&str]) -> Vec<String> {
    list.iter().map(|s| s.to_string()).collect()
}

#[test]
fn test_list_directories() {
    let actual = list_directories(Some(names(&["01.basics", "02.loops"])), true).unwrap();
    let expected = DirSet::from_names(&names(&["01.basics", "02.loops"]));
    assert_eq!(expected, actual);
}

#[test]
fn hidden_directories_are_left_out_on_request() {
    let found = names(&[".git", "02.loops", ".github", "01.basics", "."]);
    let actual = list_directories(Some(found), true).unwrap();
    assert_eq!(actual, DirSet::from_names(&names(&["01.basics", "02.loops"])));
}

#[test]
fn hidden_directories_stay_without_the_request() {
    let found = names(&[".git", "02.loops", "01.basics"]);
    let actual = list_directories(Some(found), false).unwrap();
    assert_eq!(actual, DirSet::from_names(&names(&[".git", "01.basics", "02.loops"])));
    assert_eq!(actual.len(), 3);
}

#[test]
fn unreadable_root_is_a_directory_read_error() {
    assert_eq!(list_directories(None, true), Err(CheckError::DirectoryReadError));
    assert_eq!(list_directories(None, false), Err(CheckError::DirectoryReadError));
}

#[test]
fn empty_root_has_no_directories() {
    assert_eq!(list_directories(Some(vec![]), true), Ok(DirSet::new()));
    assert_eq!(list_directories(Some(vec![]), false), Ok(DirSet::new()));
}

#[test]
fn names_that_start_with_a_dot_are_no_chapters() {
    assert!(!is_not_chapter(".git"));
    assert!(!is_not_chapter("."));
    assert!(!is_not_chapter(".."));
    assert!(is_not_chapter("01.basics"));
    assert!(is_not_chapter("a.b"));
    assert!(is_not_chapter(""));
    assert!(is_not_chapter(" .git"));
}
