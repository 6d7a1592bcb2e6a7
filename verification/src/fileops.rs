//! What is found under the root directory of a project.

use crate::dirset::{lemma_insert_set, names_of, DirSet};
use crate::error::CheckError;
use crate::text::ascending;
use vstd::prelude::*;

verus! {

/// A name that starts with a dot, as those of `.git` and `.github` do.
pub open spec fn is_hidden(name: Seq<char>) -> bool {
    name.len() > 0 && name[0] == '.'
}

/// The names among `names` that count as directories of the project: all
/// of them, or those that are not hidden.
pub open spec fn listed(names: Seq<Seq<char>>, exclude_hidden: bool) -> Set<Seq<char>> {
    names.to_set().filter(|name: Seq<char>| !(exclude_hidden && is_hidden(name)))
}

/// Whether a directory of this name can be that of a chapter: whether the
/// name does not start with a dot.
pub fn is_not_chapter(dir_name: &str) -> (r: bool)
    ensures
        r == !is_hidden(dir_name@),
{
    broadcast use vstd::string::group_string_axioms;

    let mut rest = dir_name.chars();
    match rest.next() {
        Some(first) => first != '.',
        None => true,
    }
}

/// The set of the directories of a project, from the names of the
/// directories found directly under its root: `None` where the root could
/// not be read. With `exclude_hidden` the names that start with a dot are
/// left out.
pub fn list_directories(found: Option<Vec<String>>, exclude_hidden: bool) -> (r: Result<
    DirSet,
    CheckError,
>)
    ensures
        match found {
            Some(names) => r matches Ok(dirs) && dirs.as_set() == listed(
                names_of(names@),
                exclude_hidden,
            ) && ascending(dirs@),
            None => r == Err::<DirSet, CheckError>(CheckError::DirectoryReadError),
        },
{
    let names = match found {
        Some(names) => names,
        None => {
            return Err(CheckError::DirectoryReadError);
        },
    };
    let ghost all = names_of(names@);
    let mut dirs = DirSet::new();
    let mut i: usize = 0;
    proof {
        assert(all.take(0) =~= Seq::<Seq<char>>::empty());
        assert(listed(all.take(0), exclude_hidden) =~= Set::<Seq<char>>::empty());
    }
    while i < names.len()
        invariant
            i <= names.len(),
            all == names_of(names@),
            dirs.as_set() == listed(all.take(i as int), exclude_hidden),
            ascending(dirs@),
        decreases names.len() - i,
    {
        proof {
            lemma_insert_set(all.take(i as int), i as int, all[i as int]);
            assert(all.take(i + 1) =~= all.take(i as int).insert(i as int, all[i as int]));
        }
        if !exclude_hidden || is_not_chapter(names[i].as_str()) {
            dirs.insert(names[i].clone());
            proof {
                assert(dirs.as_set() =~= listed(all.take(i + 1), exclude_hidden));
            }
        } else {
            proof {
                assert(dirs.as_set() =~= listed(all.take(i + 1), exclude_hidden));
            }
        }
        i += 1;
    }
    proof {
        assert(all.take(i as int) =~= all);
    }
    Ok(dirs)
}

} // verus!
