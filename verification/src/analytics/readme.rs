//! The README files of the directories of a project.

use crate::dirset::{lemma_listing_of, listing_of, names_of, DirSet};
use vstd::prelude::*;

verus! {

/// The path of the README of the directory `dir` under `root`.
pub open spec fn readme_path_of(root: Seq<char>, dir: Seq<char>) -> Seq<char> {
    root + "/"@ + dir + "/README.md"@
}

/// The line that reports a directory without a README.
pub open spec fn missing_line(dir: Seq<char>) -> Seq<char> {
    "README missing in "@ + dir
}

/// The directories that were probed and found without a README.
pub open spec fn lacking(probed: Seq<(String, bool)>) -> Set<Seq<char>> {
    Set::new(
        |dir: Seq<char>|
            exists|i: int| 0 <= i < probed.len() && (#[trigger] probed[i]).0@ == dir && !probed[i].1,
    )
}

/// The lines of the check: its title, then a line for each directory
/// without a README, in ascending order of the names.
pub open spec fn readme_lines(probed: Seq<(String, bool)>) -> Seq<Seq<char>> {
    seq!["Checking READMEs"@] + listing_of(lacking(probed)).map_values(
        |dir: Seq<char>| missing_line(dir),
    )
}

/// The path at which the README of the directory `dir` under `root_dir`
/// is looked for.
pub fn readme_path(root_dir: &str, dir: &str) -> (r: String)
    ensures
        r@ == readme_path_of(root_dir@, dir@),
{
    let mut r = String::from_str(root_dir);
    r.append("/");
    r.append(dir);
    r.append("/README.md");
    assert(r@ =~= readme_path_of(root_dir@, dir@));
    r
}

/// The lines of the check of the READMEs, from the directories that were
/// probed, each with whether its README is there.
pub fn check_readmes(probed: &Vec<(String, bool)>) -> (r: Vec<String>)
    ensures
        names_of(r@) == readme_lines(probed@),
{
    let mut without = DirSet::new();
    let mut i: usize = 0;
    proof {
        assert(without.as_set() =~= lacking(probed@.take(0)));
    }
    while i < probed.len()
        invariant
            i <= probed.len(),
            without.as_set() == lacking(probed@.take(i as int)),
        decreases probed.len() - i,
    {
        let ghost before = probed@.take(i as int);
        let ghost after = probed@.take(i + 1);
        let ghost name = probed@[i as int].0@;
        proof {
            assert forall|dir: Seq<char>|
                lacking(after).contains(dir) <==> (lacking(before).contains(dir) || (dir == name
                    && !probed@[i as int].1)) by {
                if lacking(after).contains(dir) {
                    let k = choose|k: int|
                        0 <= k < after.len() && (#[trigger] after[k]).0@ == dir && !after[k].1;
                    if k < i {
                        assert(before[k].0@ == dir && !before[k].1);
                    }
                }
                if lacking(before).contains(dir) {
                    let k = choose|k: int|
                        0 <= k < before.len() && (#[trigger] before[k]).0@ == dir && !before[k].1;
                    assert(after[k].0@ == dir && !after[k].1);
                }
                if dir == name && !probed@[i as int].1 {
                    assert(after[i as int].0@ == dir && !after[i as int].1);
                }
            }
        }
        if !probed[i].1 {
            without.insert(probed[i].0.clone());
            assert(without.as_set() =~= lacking(after));
        } else {
            assert(without.as_set() =~= lacking(after));
        }
        i += 1;
    }
    proof {
        assert(probed@.take(i as int) =~= probed@);
    }
    let names = without.names();
    proof {
        lemma_listing_of(without@);
    }
    let mut lines: Vec<String> = Vec::new();
    lines.push(String::from_str("Checking READMEs"));
    let mut k: usize = 0;
    while k < names.len()
        invariant
            k <= names.len(),
            names_of(names@) == listing_of(lacking(probed@)),
            lines@.len() == k + 1,
            lines@[0]@ == "Checking READMEs"@,
            forall|j: int| 0 <= j < k ==> (#[trigger] lines@[j + 1])@ == missing_line(names@[j]@),
        decreases names.len() - k,
    {
        let mut line = String::from_str("README missing in ");
        line.append(names[k].as_str());
        lines.push(line);
        k += 1;
    }
    proof {
        let got = names_of(lines@);
        let want = readme_lines(probed@);
        assert(got.len() == want.len());
        assert forall|j: int| 0 <= j < got.len() implies got[j] == want[j] by {
            if j > 0 {
                assert(lines@[(j - 1) + 1]@ == missing_line(names@[j - 1]@));
                assert(names_of(names@)[j - 1] == names@[j - 1]@);
            }
        }
        assert(got =~= want);
    }
    lines
}

/// The lines of the analysis of the READMEs: its title after two empty
/// lines, then the lines of the check.
pub fn run(probed: &Vec<(String, bool)>) -> (r: Vec<String>)
    ensures
        names_of(r@) == seq!["\n\nRunning analytics on the README"@] + readme_lines(probed@),
{
    let mut lines: Vec<String> = Vec::new();
    lines.push(String::from_str("\n\nRunning analytics on the README"));
    let mut rest = check_readmes(probed);
    lines.append(&mut rest);
    assert(names_of(lines@) =~= seq!["\n\nRunning analytics on the README"@] + readme_lines(
        probed@,
    ));
    lines
}

} // verus!
