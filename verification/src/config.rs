//! The configuration of a challenge repository in its current form.

use crate::chapters::{keys_of, lemma_map_of_dom, lemma_map_of_lookup, Chapters};
use crate::dirset::{clone_names, lemma_insert_set, names_of, DirSet};
use crate::error::CheckError;
use crate::text::{ascending, lemma_ascending_no_duplicates, order_of, Order};
use vstd::prelude::*;

verus! {

/// Which report a run prints.
#[derive(Clone, Copy, Debug, PartialEq, Eq, Structural)]
pub enum ReportType {
    /// A list of headings for an org-mode agenda.
    OrgMode,
    /// A report for the terminal.
    CLI,
}

impl Default for ReportType {
    fn default() -> (r: Self)
        ensures
            r == ReportType::CLI,
    {
        ReportType::CLI
    }
}

impl ReportType {
    /// The report that the word `type_str` asks for: `org` selects the
    /// org-mode report, every other word the terminal report.
    pub fn new(type_str: &str) -> (r: Self)
        ensures
            r == if type_str@ == "org"@ {
                ReportType::OrgMode
            } else {
                ReportType::CLI
            },
    {
        match order_of(type_str, "org") {
            Order::Equal => ReportType::OrgMode,
            _ => ReportType::CLI,
        }
    }
}

/// What a chapter is, as mathematical values.
pub struct ChapterView {
    pub name: Seq<char>,
    pub topics: Option<Seq<Seq<char>>>,
}

/// A chapter of a book or a tutorial: a name and, where they are given, the
/// topics to master. On disk a chapter is a directory named by its key, a
/// dot and its name.
#[derive(Debug, PartialEq)]
pub struct Chapter {
    pub name: String,
    pub topics: Option<Vec<String>>,
}

impl View for Chapter {
    type V = ChapterView;

    open spec fn view(&self) -> ChapterView {
        ChapterView {
            name: self.name@,
            topics: match self.topics {
                Some(topics) => Some(names_of(topics@)),
                None => None,
            },
        }
    }
}

impl Clone for Chapter {
    fn clone(&self) -> (r: Chapter)
        ensures
            r@ == self@,
    {
        let topics = match &self.topics {
            Some(topics) => Some(clone_names(topics)),
            None => None,
        };
        Chapter { name: self.name.clone(), topics }
    }
}

/// The name of the directory of the chapter `name` under `key`.
pub open spec fn dir_name(key: Seq<char>, name: Seq<char>) -> Seq<char> {
    key + seq!['.'] + name
}

/// The directory names of a list of chapters, in the order of the list.
pub open spec fn listed_dirs(l: Seq<(Seq<char>, ChapterView)>) -> Seq<Seq<char>> {
    l.map_values(|e: (Seq<char>, ChapterView)| dir_name(e.0, e.1.name))
}

/// The directory names that a mapping of chapters asks for.
pub open spec fn projected_dirs(chapters: Map<Seq<char>, ChapterView>) -> Set<Seq<char>> {
    Set::new(
        |d: Seq<char>|
            exists|key: Seq<char>|
                chapters.contains_key(key) && d == dir_name(key, chapters[key].name),
    )
}

/// The file that holds the configuration of a project.
pub open spec fn config_file_name() -> Seq<char> {
    "challenges.yaml"@
}

/// What a configuration file holds.
#[derive(Debug, PartialEq)]
pub struct Document {
    pub language: String,
    pub project: String,
    pub chapters: Chapters,
}

/// How the reading of a configuration file ended.
#[derive(Debug, PartialEq)]
pub enum Loaded<D> {
    /// There is no such file.
    Absent,
    /// The file holds no well-formed document.
    Malformed,
    /// The document that the file holds.
    Parsed(D),
}

/// The configuration of a run: what the file says of the project, and where
/// and how the run was asked to work.
#[derive(Debug, PartialEq)]
pub struct Config {
    pub language: String,
    pub project: String,
    pub chapters: Chapters,
    pub dirs_cached: bool,
    pub root_dir: String,
    pub report_type: ReportType,
}

impl Config {
    /// `self` is the configuration that a fresh load of `document` with the
    /// root directory `root` gives.
    pub open spec fn loaded_from(&self, document: Document, root: Seq<char>) -> bool {
        &&& self.language == document.language
        &&& self.project == document.project
        &&& self.chapters == document.chapters
        &&& !self.dirs_cached
        &&& self.root_dir@ == root
        &&& self.report_type == ReportType::CLI
    }

    /// The outcome of loading: the failure that `loaded` stands for, or the
    /// configuration of its document with the root directory `root`.
    pub open spec fn load_result(
        loaded: Loaded<Document>,
        root: Seq<char>,
        r: Result<Config, CheckError>,
    ) -> bool {
        match loaded {
            Loaded::Absent => r == Err::<Config, CheckError>(CheckError::ConfigNotFound),
            Loaded::Malformed => r == Err::<Config, CheckError>(CheckError::ConfigParseError),
            Loaded::Parsed(document) => r matches Ok(config) && config.loaded_from(
                document,
                root,
            ),
        }
    }

    /// The path of the configuration file of the project at `project_path`.
    pub fn config_path(project_path: &str) -> (r: String)
        ensures
            r@ == project_path@ + seq!['/'] + config_file_name(),
    {
        proof {
            reveal_strlit("/");
        }
        let mut r = String::from_str(project_path);
        r.append("/");
        r.append("challenges.yaml");
        assert(r@ =~= project_path@ + seq!['/'] + config_file_name());
        r
    }

    /// The configuration read from the file `config_filename`: the path
    /// that it was loaded from becomes its root directory.
    pub fn from_file(config_filename: &str, loaded: Loaded<Document>) -> (r: Result<
        Config,
        CheckError,
    >)
        ensures
            Config::load_result(loaded, config_filename@, r),
    {
        Config::from_path(config_filename, loaded)
    }

    /// The configuration read from the configuration file of the project at
    /// `project_path`, which becomes its root directory.
    pub fn from_path(project_path: &str, loaded: Loaded<Document>) -> (r: Result<
        Config,
        CheckError,
    >)
        ensures
            Config::load_result(loaded, project_path@, r),
    {
        match loaded {
            Loaded::Absent => Err(CheckError::ConfigNotFound),
            Loaded::Malformed => Err(CheckError::ConfigParseError),
            Loaded::Parsed(document) => Ok(
                Config {
                    language: document.language,
                    project: document.project,
                    chapters: document.chapters,
                    dirs_cached: false,
                    root_dir: String::from_str(project_path),
                    report_type: ReportType::CLI,
                },
            ),
        }
    }

    /// The configuration read from the file of the fixed name in the
    /// current directory.
    pub fn new(loaded: Loaded<Document>) -> (r: Result<Config, CheckError>)
        ensures
            Config::load_result(loaded, config_file_name(), r),
    {
        Config::from_file("challenges.yaml", loaded)
    }

    /// The directories that the chapters ask for: for each chapter its key,
    /// a dot and its name.
    pub fn computed_chapter_dirs(&self) -> (r: DirSet)
        ensures
            r.as_set() == projected_dirs(self.chapters@),
            ascending(r@),
    {
        let entries = self.chapters.entries();
        let ghost listing = self.chapters.listing();
        let mut r = DirSet::new();
        let mut i: usize = 0;
        proof {
            assert(listed_dirs(listing).take(0) =~= Seq::<Seq<char>>::empty());
            assert(listed_dirs(listing).take(0).to_set() =~= Set::<Seq<char>>::empty());
        }
        while i < entries.len()
            invariant
                i <= entries.len(),
                crate::chapters::entries_of(entries@) == listing,
                r.as_set() == listed_dirs(listing).take(i as int).to_set(),
                ascending(r@),
            decreases entries.len() - i,
        {
            let mut name = entries[i].0.clone();
            name.append(".");
            name.append(entries[i].1.name.as_str());
            proof {
                reveal_strlit(".");
                let all = listed_dirs(listing);
                assert(listing[i as int] == (entries@[i as int].0@, entries@[i as int].1@));
                assert(name@ =~= all[i as int]);
                lemma_insert_set(all.take(i as int), i as int, all[i as int]);
                assert(all.take(i + 1) =~= all.take(i as int).insert(i as int, all[i as int]));
            }
            r.insert(name);
            i += 1;
        }
        proof {
            assert(listed_dirs(listing).take(i as int) =~= listed_dirs(listing));
            lemma_ascending_no_duplicates(keys_of(listing));
            lemma_listed_dirs(listing);
        }
        r
    }
}

/// The directory names of a list without repeated keys are those that its
/// mapping asks for.
pub proof fn lemma_listed_dirs(l: Seq<(Seq<char>, ChapterView)>)
    requires
        keys_of(l).no_duplicates(),
    ensures
        listed_dirs(l).to_set() == projected_dirs(crate::chapters::map_of(l)),
{
    let chapters = crate::chapters::map_of(l);
    let dirs = listed_dirs(l);
    lemma_map_of_dom(l);
    assert forall|d: Seq<char>| dirs.contains(d) <==> projected_dirs(chapters).contains(d) by {
        if dirs.contains(d) {
            let i = choose|i: int| 0 <= i < dirs.len() && dirs[i] == d;
            lemma_map_of_lookup(l, i);
            assert(chapters.contains_key(l[i].0) && d == dir_name(l[i].0, chapters[l[i].0].name));
        }
        if projected_dirs(chapters).contains(d) {
            let key = choose|key: Seq<char>|
                chapters.contains_key(key) && d == dir_name(key, chapters[key].name);
            assert(keys_of(l).to_set().contains(key));
            assert(keys_of(l).contains(key));
            let i = choose|i: int| 0 <= i < l.len() && keys_of(l)[i] == key;
            lemma_map_of_lookup(l, i);
            assert(dirs[i] == d);
        }
    }
    assert(dirs.to_set() =~= projected_dirs(chapters));
}

} // verus!
