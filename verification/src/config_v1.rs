//! The configuration in its earlier form, in which the chapters are a list
//! and each chapter carries its number. It is kept for the migration to the
//! current form.

use crate::chapters::{keys_of, lemma_map_of_dom, lemma_map_of_lookup, map_of, Chapters};
use crate::config::{
    config_file_name, dir_name, lemma_listed_dirs, listed_dirs, projected_dirs, Chapter as ChapterV2,
    ChapterView as ChapterV2View, Config as ConfigV2, Loaded, ReportType,
};
use crate::dirset::{clone_names, names_of};
use crate::error::CheckError;
use crate::text::{lemma_zero_padded_injective, zero_padded, zero_padded_string};
use vstd::prelude::*;

verus! {

/// A chapter with its number.
#[derive(Debug, PartialEq)]
pub struct Chapter {
    pub number: i32,
    pub name: String,
    pub topics: Option<Vec<String>>,
}

impl Chapter {
    /// The key under which the current form holds this chapter: its number
    /// in decimal, at least two characters wide.
    pub open spec fn key(&self) -> Seq<char> {
        zero_padded(self.number as int)
    }

    /// The chapter as the current form holds it: name and topics, unchanged.
    pub open spec fn migrated(&self) -> ChapterV2View {
        ChapterV2View {
            name: self.name@,
            topics: match self.topics {
                Some(topics) => Some(names_of(topics@)),
                None => None,
            },
        }
    }
}

/// The keys and chapters of the current form for a list of numbered
/// chapters, in the order of the list.
pub open spec fn migrated_entries(chapters: Seq<Chapter>) -> Seq<(Seq<char>, ChapterV2View)> {
    chapters.map_values(|c: Chapter| (c.key(), c.migrated()))
}

/// No two chapters of the list have the same number.
pub open spec fn unique_numbers(chapters: Seq<Chapter>) -> bool {
    forall|i: int, j: int|
        0 <= i < j < chapters.len() ==> (#[trigger] chapters[i]).number != (
        #[trigger] chapters[j]).number
}

/// What a configuration file of the earlier form holds.
#[derive(Debug, PartialEq)]
pub struct Document {
    pub language: String,
    pub project: String,
    pub chapters: Vec<Chapter>,
}

/// The configuration of a run in the earlier form.
#[derive(Debug, PartialEq)]
pub struct Config {
    pub language: String,
    pub project: String,
    pub chapters: Vec<Chapter>,
    pub dirs_cached: bool,
    pub root_dir: String,
}

impl Config {
    /// `self` is the configuration that a fresh load of `document` with the
    /// root directory `root` gives.
    pub open spec fn loaded_from(&self, document: Document, root: Seq<char>) -> bool {
        &&& self.language == document.language
        &&& self.project == document.project
        &&& self.chapters == document.chapters
        &&& !self.dirs_cached
        &&& self.root_dir@ == root
    }

    /// The outcome of loading: the failure that `loaded` stands for, a
    /// parse error for a document in which two chapters share a number, or
    /// the configuration of the document with the root directory `root`.
    pub open spec fn load_result(
        loaded: Loaded<Document>,
        root: Seq<char>,
        r: Result<Config, CheckError>,
    ) -> bool {
        match loaded {
            Loaded::Absent => r == Err::<Config, CheckError>(CheckError::ConfigNotFound),
            Loaded::Malformed => r == Err::<Config, CheckError>(CheckError::ConfigParseError),
            Loaded::Parsed(document) => if unique_numbers(document.chapters@) {
                r matches Ok(config) && config.loaded_from(document, root)
            } else {
                r == Err::<Config, CheckError>(CheckError::ConfigParseError)
            },
        }
    }

    /// Whether no two chapters share a number.
    pub fn has_unique_numbers(chapters: &Vec<Chapter>) -> (r: bool)
        ensures
            r == unique_numbers(chapters@),
    {
        let mut j: usize = 0;
        while j < chapters.len()
            invariant
                j <= chapters.len(),
                forall|a: int, b: int|
                    0 <= a < b < j ==> (#[trigger] chapters@[a]).number != (
                    #[trigger] chapters@[b]).number,
            decreases chapters.len() - j,
        {
            let mut i: usize = 0;
            while i < j
                invariant
                    i <= j < chapters.len(),
                    forall|a: int|
                        0 <= a < i ==> (#[trigger] chapters@[a]).number != chapters@[j as int].number,
                decreases j - i,
            {
                if chapters[i].number == chapters[j].number {
                    return false;
                }
                i += 1;
            }
            j += 1;
        }
        true
    }

    /// The configuration read from the file `config_filename`: the path
    /// that it was loaded from becomes its root directory.
    pub fn from_file(config_filename: &str, loaded: Loaded<Document>) -> (r: Result<
        Config,
        CheckError,
    >)
        ensures
            Config::load_result(loaded, config_filename@, r),
    {
        Config::from_path(config_filename, loaded)
    }

    /// The configuration read from the configuration file of the project at
    /// `project_path`, which becomes its root directory.
    pub fn from_path(project_path: &str, loaded: Loaded<Document>) -> (r: Result<
        Config,
        CheckError,
    >)
        ensures
            Config::load_result(loaded, project_path@, r),
    {
        match loaded {
            Loaded::Absent => Err(CheckError::ConfigNotFound),
            Loaded::Malformed => Err(CheckError::ConfigParseError),
            Loaded::Parsed(document) => {
                if Config::has_unique_numbers(&document.chapters) {
                    Ok(
                        Config {
                            language: document.language,
                            project: document.project,
                            chapters: document.chapters,
                            dirs_cached: false,
                            root_dir: String::from_str(project_path),
                        },
                    )
                } else {
                    Err(CheckError::ConfigParseError)
                }
            },
        }
    }

    /// The configuration read from the file of the fixed name in the
    /// current directory.
    pub fn new(loaded: Loaded<Document>) -> (r: Result<Config, CheckError>)
        ensures
            Config::load_result(loaded, config_file_name(), r),
    {
        Config::from_file("challenges.yaml", loaded)
    }

    /// The same configuration in the current form. Language, project and
    /// root directory carry over; each chapter keeps its name and topics and
    /// goes under the key of its number, a later chapter taking the place of
    /// an earlier one with the same number; the directories count as not
    /// cached, and the report is the one for the terminal.
    pub fn to_v2(&self) -> (r: ConfigV2)
        ensures
            r.language@ == self.language@,
            r.project@ == self.project@,
            r.chapters@ == map_of(migrated_entries(self.chapters@)),
            !r.dirs_cached,
            r.root_dir@ == self.root_dir@,
            r.report_type == ReportType::CLI,
    {
        let ghost all = migrated_entries(self.chapters@);
        let mut chapters = Chapters::new();
        let mut i: usize = 0;
        proof {
            assert(all.take(0) =~= Seq::<(Seq<char>, ChapterV2View)>::empty());
        }
        while i < self.chapters.len()
            invariant
                i <= self.chapters.len(),
                all == migrated_entries(self.chapters@),
                chapters@ == map_of(all.take(i as int)),
            decreases self.chapters.len() - i,
        {
            let chapter = &self.chapters[i];
            let topics = match &chapter.topics {
                Some(topics) => Some(clone_names(topics)),
                None => None,
            };
            let new_chapter = ChapterV2 { name: chapter.name.clone(), topics };
            let index = zero_padded_string(chapter.number);
            proof {
                assert(all.take(i + 1).drop_last() =~= all.take(i as int));
                assert(all.take(i + 1).last() == (index@, new_chapter@));
            }
            chapters.insert(index, new_chapter);
            i += 1;
        }
        proof {
            assert(all.take(i as int) =~= all);
        }
        ConfigV2 {
            language: self.language.clone(),
            project: self.project.clone(),
            chapters,
            dirs_cached: false,
            root_dir: self.root_dir.clone(),
            report_type: ReportType::CLI,
        }
    }
}

/// The keys of the migrated chapters are the keys of the numbers, whether
/// or not a number occurs twice.
pub proof fn lemma_migrated_keys(chapters: Seq<Chapter>)
    ensures
        map_of(migrated_entries(chapters)).dom() == chapters.map_values(
            |c: Chapter| c.key(),
        ).to_set(),
{
    lemma_map_of_dom(migrated_entries(chapters));
    assert(keys_of(migrated_entries(chapters)) =~= chapters.map_values(|c: Chapter| c.key()));
}

/// Chapters with different numbers go under different keys.
pub proof fn lemma_unique_keys(chapters: Seq<Chapter>)
    requires
        unique_numbers(chapters),
    ensures
        keys_of(migrated_entries(chapters)).no_duplicates(),
{
    let keys = keys_of(migrated_entries(chapters));
    assert forall|i: int, j: int| 0 <= i < keys.len() && 0 <= j < keys.len() && i != j implies keys[i]
        != keys[j] by {
        if keys[i] == keys[j] {
            lemma_zero_padded_injective(chapters[i].number as int, chapters[j].number as int);
            if i < j {
                assert(chapters[i].number != chapters[j].number);
            } else {
                assert(chapters[j].number != chapters[i].number);
            }
        }
    }
}

/// Where no two chapters share a number, the migration loses none: there
/// are as many chapters after it as before, and each is found under the
/// key of its number with its name and topics.
pub proof fn lemma_migration_keeps_all(chapters: Seq<Chapter>)
    requires
        unique_numbers(chapters),
    ensures
        map_of(migrated_entries(chapters)).dom().len() == chapters.len(),
        forall|i: int|
            0 <= i < chapters.len() ==> {
                &&& map_of(migrated_entries(chapters)).contains_key((#[trigger] chapters[i]).key())
                &&& map_of(migrated_entries(chapters))[chapters[i].key()] == chapters[i].migrated()
            },
{
    let entries = migrated_entries(chapters);
    lemma_unique_keys(chapters);
    lemma_map_of_dom(entries);
    keys_of(entries).unique_seq_to_set();
    assert forall|i: int| 0 <= i < chapters.len() implies {
        &&& map_of(entries).contains_key((#[trigger] chapters[i]).key())
        &&& map_of(entries)[chapters[i].key()] == chapters[i].migrated()
    } by {
        lemma_map_of_lookup(entries, i);
    }
}

/// Where no two chapters share a number, the directories that the migrated
/// configuration asks for are, for each chapter, its number at least two
/// digits wide, a dot and its name.
pub proof fn lemma_migrated_dirs(chapters: Seq<Chapter>)
    requires
        unique_numbers(chapters),
    ensures
        projected_dirs(map_of(migrated_entries(chapters))) == chapters.map_values(
            |c: Chapter| dir_name(zero_padded(c.number as int), c.name@),
        ).to_set(),
{
    let entries = migrated_entries(chapters);
    lemma_unique_keys(chapters);
    lemma_listed_dirs(entries);
    assert(listed_dirs(entries) =~= chapters.map_values(
        |c: Chapter| dir_name(zero_padded(c.number as int), c.name@),
    ));
}

} // verus!
