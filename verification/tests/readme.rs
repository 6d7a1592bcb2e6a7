use challenge_checker::analytics::readme::{check_readmes, readme_path, run};

fn probed(list: &[(&str, bool)]) -> Vec<(String, bool)> {
    list.iter().map(|(name, present)| (name.to_string(), *present)).collect()
}

#[test]
fn readme_path_is_under_the_directory() {
    assert_eq!(readme_path(".", "01.basics"), "./01.basics/README.md");
    assert_eq!(readme_path("tests/challenges/c1", "02.loops"), "tests/challenges/c1/02.loops/README.md");
    assert_eq!(readme_path("", ""), "//README.md");
}

#[test]
fn check_lists_the_directories_without_a_readme_in_order() {
    let lines = check_readmes(&probed(&[("10.macros", false), ("01.basics", true), ("02.loops", false)]));
    assert_eq!(
        lines,
        vec![
            "Checking READMEs".to_string(),
            "README missing in 02.loops".to_string(),
            "README missing in 10.macros".to_string(),
        ]
    );
}

#[test]
fn check_of_complete_directories_has_the_title_alone() {
    assert_eq!(check_readmes(&probed(&[("a", true), ("b", true)])), vec!["Checking READMEs".to_string()]);
    assert_eq!(check_readmes(&vec![]), vec!["Checking READMEs".to_string()]);
}

#[test]
fn run_puts_its_title_before_the_check() {
    assert_eq!(
        run(&probed(&[("b", false), ("a", false), ("c", true)])),
        vec![
            "\n\nRunning analytics on the README".to_string(),
            "Checking READMEs".to_string(),
            "README missing in a".to_string(),
            "README missing in b".to_string(),
        ]
    );
    assert_eq!(
        run(&vec![]),
        vec!["\n\nRunning analytics on the README".to_string(), "Checking READMEs".to_string()]
    );
}
