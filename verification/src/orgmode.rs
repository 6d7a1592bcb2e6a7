//! The report for an org-mode agenda: one heading for each missing chapter.

use crate::config::Config;
use crate::dirset::{names_of, DirSet};
use crate::error::CheckError;
use crate::text::ascending;
use std::collections::HashMap;
use tinytemplate::{format_unescaped, TinyTemplate};
use vstd::prelude::*;

verus! {

#[verifier::external_type_specification]
#[verifier::external_body]
pub struct ExTemplateError(tinytemplate::error::Error);

/// The template of a heading, with a place for each of its four values.
pub open spec fn todo_template() -> Seq<char> {
    "\n* TODO [{language}] {project} :: Learn {chapter}\n{body}"@
}

/// The template with each place taken by its value.
pub open spec fn filled_template(
    language: Seq<char>,
    project: Seq<char>,
    chapter: Seq<char>,
    body: Seq<char>,
) -> Seq<char> {
    "\n* TODO ["@ + language + "] "@ + project + " :: Learn "@ + chapter + "\n"@ + body
}

/// The heading for the missing chapter directory `chapter`: it starts with
/// a line feed of its own and has an empty body.
pub open spec fn todo_entry(language: Seq<char>, project: Seq<char>, chapter: Seq<char>) -> Seq<
    char,
> {
    "\n* TODO ["@ + language + "] "@ + project + " :: Learn "@ + chapter + "\n"@
}

/// The headings for the chapter directories of `missing`, in the order of
/// the list, with nothing between them.
pub open spec fn org_report(language: Seq<char>, project: Seq<char>, missing: Seq<Seq<char>>) -> Seq<
    char,
>
    decreases missing.len(),
{
    if missing.len() == 0 {
        Seq::empty()
    } else {
        org_report(language, project, missing.drop_last()) + todo_entry(
            language,
            project,
            missing.last(),
        )
    }
}

/// Fills in the heading template with tinytemplate: a new `TinyTemplate`
/// whose default formatter is `format_unescaped`, `add_template` with
/// `template`, and `render` with the four values. This template compiles
/// to four literal texts and four values, each value is found in the
/// context, and a string value is appended as it is: the call succeeds,
/// and the text is the template with each place taken by its value,
/// character for character.
#[verifier::external_body]
fn render_todo(
    template: &'static str,
    language: &str,
    project: &str,
    chapter: &str,
    body: &str,
) -> (r: Result<String, tinytemplate::error::Error>)
    requires
        template@ == todo_template(),
    ensures
        match r {
            Ok(text) => text@ == filled_template(language@, project@, chapter@, body@),
            Err(_) => false,
        },
{
    let mut engine = TinyTemplate::new();
    engine.set_default_formatter(&format_unescaped);
    engine.add_template("todo", template)?;
    let context = HashMap::from(
        [("language", language), ("project", project), ("chapter", chapter), ("body", body)],
    );
    engine.render("todo", &context)
}

/// The report with one more heading, as its rendering came out: the text
/// so far followed by the heading, or the failure of the template.
pub fn add_entry(report: String, rendered: Result<String, tinytemplate::error::Error>) -> (r: Result<
    String,
    CheckError,
>)
    ensures
        match rendered {
            Ok(entry) => r matches Ok(text) && text@ == report@ + entry@,
            Err(_) => r == Err::<String, CheckError>(CheckError::TemplateRenderError),
        },
{
    match rendered {
        Ok(entry) => {
            let mut text = report;
            text.append(entry.as_str());
            Ok(text)
        },
        Err(_) => Err(CheckError::TemplateRenderError),
    }
}

/// The org-mode report: a heading for each missing chapter directory, in
/// ascending order of the names. The template is fixed and can be filled
/// in with any values, so the report is there for every input.
pub fn todo_do_chapter(missing_chapters: &DirSet, config: &Config) -> (r: Result<
    String,
    CheckError,
>)
    ensures
        r matches Ok(text) && text@ == org_report(
            config.language@,
            config.project@,
            missing_chapters@,
        ),
        ascending(missing_chapters@),
{
    let names = missing_chapters.names();
    let ghost all = missing_chapters@;
    let ghost language = config.language@;
    let ghost project = config.project@;
    let mut text = String::new();
    let mut i: usize = 0;
    proof {
        assert(all.take(0) =~= Seq::<Seq<char>>::empty());
    }
    while i < names.len()
        invariant
            i <= names.len(),
            names_of(names@) == all,
            all == missing_chapters@,
            ascending(all),
            language == config.language@,
            project == config.project@,
            text@ == org_report(language, project, all.take(i as int)),
        decreases names.len() - i,
    {
        let rendered = render_todo(
            "\n* TODO [{language}] {project} :: Learn {chapter}\n{body}",
            config.language.as_str(),
            config.project.as_str(),
            names[i].as_str(),
            "",
        );
        proof {
            reveal_strlit("");
            assert(filled_template(language, project, names@[i as int]@, ""@) =~= todo_entry(
                language,
                project,
                names@[i as int]@,
            ));
            assert(all.take(i + 1).drop_last() =~= all.take(i as int));
            assert(all.take(i + 1).last() == names@[i as int]@);
        }
        match add_entry(text, rendered) {
            Ok(longer) => {
                text = longer;
            },
            Err(e) => {
                return Err(e);
            },
        }
        i += 1;
    }
    proof {
        assert(all.take(i as int) =~= all);
    }
    Ok(text)
}

} // verus!
