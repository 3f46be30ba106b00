//! Which files a command line selects.
//!
//! The command line is matched by clap. What the program then does is
//! decided here: show the files that were named, show every regular file of
//! the current directory, or end at once with a message. Whatever is
//! selected is never empty.

use clap::{Arg, ArgAction, ArgGroup, Command};
use vstd::prelude::*;

verus! {

/// The texts of a list of strings, in its order.
pub open spec fn texts_of(strings: Seq<String>) -> Seq<Seq<char>> {
    Seq::new(strings.len(), |i: int| strings[i]@)
}

/// What clap found on a command line that it accepts.
#[derive(Debug)]
pub struct Matches {
    /// Whether `-a` or `--all` was given.
    pub all: bool,
    /// The paths that were given, in their order.
    pub files: Vec<String>,
}

/// What clap answers to a command line that it does not accept, or that
/// asks for help.
#[derive(Debug)]
pub struct Rejection {
    /// The status with which the program is to end.
    pub code: i32,
    /// The help or the complaint.
    pub message: String,
}

/// What clap decides on the command line `argv`, whose first string is the
/// program's name: `Ok` with the flag and the paths, or `Err` with the status
/// with which the program is to end.
pub uninterp spec fn clap_outcome(argv: Seq<Seq<char>>) -> Result<(bool, Seq<Seq<char>>), i32>;

/// The message that clap renders, as plain text, where it does not accept
/// the command line `argv` or is asked for help.
pub uninterp spec fn clap_message(argv: Seq<Seq<char>>) -> Seq<char>;

/// Whether a word asks for help: `--help` or `-h`.
pub open spec fn is_help_flag(word: Seq<char>) -> bool {
    word == seq!['-', '-', 'h', 'e', 'l', 'p'] || word == seq!['-', 'h']
}

/// The decision to reject a command line with the status `code`.
pub open spec fn rejected(code: i32) -> Result<(bool, Seq<Seq<char>>), i32> {
    Err(code)
}

/// The part of an outcome of matching that [`clap_outcome`] names.
pub open spec fn decision_of(outcome: Result<Matches, Rejection>) -> Result<
    (bool, Seq<Seq<char>>),
    i32,
> {
    match outcome {
        Ok(m) => Ok((m.all, texts_of(m.files@))),
        Err(r) => Err(r.code),
    }
}

/// The message that an outcome of matching carries; none where clap
/// accepted the command line.
pub open spec fn message_of(outcome: Result<Matches, Rejection>) -> Seq<char> {
    match outcome {
        Ok(_) => Seq::empty(),
        Err(r) => r.message@,
    }
}

/// Matches `argv` with clap's `Command::try_get_matches_from`, against a
/// command with the flag `-a`/`--all` and the positional `FILE`s, of which
/// one is required. What clap rejects is read with `Error::exit_code` and
/// `Error::render`.
///
/// Believed, not proved:
/// - that the flag, the paths, the status and the rendered message depend on
///   `argv` alone;
/// - that the status is 0 or 2, the two that `Error::exit_code` can return;
/// - that a command line of the program's name alone is rejected with
///   status 2, since the required group is missing;
/// - that the program's name followed by `--help` or `-h` alone is answered
///   with the help and status 0.
#[verifier::external_body]
fn match_arguments(argv: &Vec<String>) -> (outcome: Result<Matches, Rejection>)
    ensures
        decision_of(outcome) == clap_outcome(texts_of(argv@)),
        outcome matches Err(r) ==> r.message@ == clap_message(texts_of(argv@)),
        outcome matches Err(r) ==> r.code == 0 || r.code == 2,
        argv@.len() == 1 ==> decision_of(outcome) == rejected(2),
        argv@.len() == 2 && is_help_flag(argv@[1]@) ==> decision_of(outcome) == rejected(0),
{
    let all = Arg::new("all").short('a').long("all").action(ArgAction::SetTrue);
    let files = Arg::new("files").action(ArgAction::Append).value_name("FILE");
    let command = Command::new("showfiles")
        .arg(all.help("Dump all files in the current directory"))
        .arg(files.help("File(s) to dump"))
        .group(ArgGroup::new("file_opts").args(["all", "files"]).required(true));
    match command.try_get_matches_from(argv) {
        Ok(mut m) => Ok(Matches {
            all: m.get_flag("all"),
            files: m.remove_many("files").map(|v| v.collect()).unwrap_or_default(),
        }),
        Err(e) => Err(Rejection { code: e.exit_code(), message: e.render().to_string() }),
    }
}

/// What the program is to do.
#[derive(Debug)]
pub enum Plan {
    /// Show these files, in this order.
    Show(Vec<String>),
    /// Show every regular file of the current directory.
    ShowAll,
    /// Print the message, on the error stream or on standard output, and end
    /// with the status, before any file is read.
    Exit { to_stderr: bool, code: i32, message: String },
}

/// Mathematical model of a [`Plan`].
pub enum PlanView {
    Show(Seq<Seq<char>>),
    ShowAll,
    Exit { to_stderr: bool, code: i32, message: Seq<char> },
}

impl View for Plan {
    type V = PlanView;

    open spec fn view(&self) -> PlanView {
        match self {
            Plan::Show(files) => PlanView::Show(texts_of(files@)),
            Plan::ShowAll => PlanView::ShowAll,
            Plan::Exit { to_stderr, code, message } => PlanView::Exit {
                to_stderr: *to_stderr,
                code: *code,
                message: message@,
            },
        }
    }
}

impl PlanView {
    /// The message of a plan to end; empty for the other plans.
    pub open spec fn message(self) -> Seq<char> {
        match self {
            PlanView::Exit { message, .. } => message,
            _ => Seq::empty(),
        }
    }
}

/// The status of a usage error.
pub open spec fn usage_code() -> i32 {
    2
}

/// The complaint about a command line that names no file and does not ask
/// for all of them, or does both.
pub open spec fn usage_complaint() -> Seq<char> {
    "error: give one or more FILEs, or --all\n"@
}

/// The plan that follows from a decision on a command line and the message
/// that came with it.
///
/// Paths alone are shown in their order; the flag alone asks for the whole
/// directory. Both at once, or neither, is a usage error, told on the error
/// stream. A command line that was rejected ends the program with the
/// status that came with the rejection; the message goes to standard output
/// where that status is 0, else to the error stream.
pub open spec fn plan_of(
    decision: Result<(bool, Seq<Seq<char>>), i32>,
    message: Seq<char>,
) -> PlanView {
    match decision {
        Ok((all, files)) => {
            if all && files.len() == 0 {
                PlanView::ShowAll
            } else if !all && files.len() > 0 {
                PlanView::Show(files)
            } else {
                PlanView::Exit { to_stderr: true, code: usage_code(), message: usage_complaint() }
            }
        },
        Err(code) => PlanView::Exit { to_stderr: code != 0, code, message },
    }
}

/// Decides what to do with the outcome of matching a command line.
pub fn plan(outcome: Result<Matches, Rejection>) -> (r: Plan)
    ensures
        r@ == plan_of(decision_of(outcome), message_of(outcome)),
{
    match outcome {
        Ok(m) => {
            if m.all && m.files.len() == 0 {
                Plan::ShowAll
            } else if !m.all && m.files.len() > 0 {
                Plan::Show(m.files)
            } else {
                Plan::Exit {
                    to_stderr: true,
                    code: 2,
                    message: String::from_str("error: give one or more FILEs, or --all\n"),
                }
            }
        },
        Err(r) => Plan::Exit { to_stderr: r.code != 0, code: r.code, message: r.message },
    }
}

/// Decides what to do on the command line `argv`, whose first string is the
/// program's name.
///
/// The plan is the one that follows from clap's decision on `argv`, with
/// the message that clap rendered. A plan to end has status 0 and a message
/// for standard output, or status 2 and a message for the error stream. A
/// plan to show files names at least one. The program's name alone is a
/// usage error; followed by `--help` or `-h` alone it gets the help.
pub fn parse_args(argv: &Vec<String>) -> (r: Plan)
    ensures
        r@ == plan_of(clap_outcome(texts_of(argv@)), clap_message(texts_of(argv@))),
        r@ matches PlanView::Exit { to_stderr, code, .. } ==> (code == 0 && !to_stderr) || (code
            == usage_code() && to_stderr),
        r@ matches PlanView::Show(files) ==> files.len() > 0,
        argv@.len() == 1 ==> r@ == (PlanView::Exit {
            to_stderr: true,
            code: usage_code(),
            message: clap_message(texts_of(argv@)),
        }),
        argv@.len() == 2 && is_help_flag(argv@[1]@) ==> r@ == (PlanView::Exit {
            to_stderr: false,
            code: 0,
            message: clap_message(texts_of(argv@)),
        }),
{
    let outcome = match_arguments(argv);
    plan(outcome)
}

/// An entry of a directory, as far as the choice of files reads it.
#[derive(Debug)]
pub struct DirItem {
    /// The entry's name, where it is valid text.
    pub name: Option<String>,
    /// Whether the entry is a regular file.
    pub is_file: bool,
}

/// Mathematical model of a [`DirItem`].
pub struct DirItemView {
    pub name: Option<Seq<char>>,
    pub is_file: bool,
}

impl View for DirItem {
    type V = DirItemView;

    open spec fn view(&self) -> DirItemView {
        DirItemView {
            name: match self.name {
                Some(n) => Some(n@),
                None => None,
            },
            is_file: self.is_file,
        }
    }
}

/// The models of the entries of a listing, in its order.
pub open spec fn items_of(items: Seq<DirItem>) -> Seq<DirItemView> {
    Seq::new(items.len(), |i: int| items[i]@)
}

/// Whether an entry is a regular file.
pub open spec fn is_regular() -> spec_fn(DirItemView) -> bool {
    |d: DirItemView| d.is_file
}

/// Whether every entry has a name that is valid text.
pub open spec fn all_named(items: Seq<DirItemView>) -> bool {
    forall|i: int| 0 <= i < items.len() ==> (#[trigger] items[i]).name is Some
}

/// The names of the entries, in their order.
pub open spec fn names_of(items: Seq<DirItemView>) -> Seq<Seq<char>> {
    Seq::new(
        items.len(),
        |i: int|
            match items[i].name {
                Some(n) => n,
                None => Seq::empty(),
            },
    )
}

/// Why a listing selects no files.
#[derive(Debug, PartialEq, Eq)]
pub enum ListingError {
    /// A regular file has a name that is not valid text.
    UnnamedFile,
    /// The listing holds no regular file.
    NoFiles,
}

/// What [`selected_files`] makes of the regular files `regular` of a
/// listing: their names, in their order, if each has one and there is at
/// least one file.
pub open spec fn selection_of(regular: Seq<DirItemView>) -> Result<Seq<Seq<char>>, ListingError> {
    if !all_named(regular) {
        Err(ListingError::UnnamedFile)
    } else if regular.len() == 0 {
        Err(ListingError::NoFiles)
    } else {
        Ok(names_of(regular))
    }
}

/// The view of a selection: the texts of the names.
pub open spec fn selection_view(r: Result<Vec<String>, ListingError>) -> Result<
    Seq<Seq<char>>,
    ListingError,
> {
    match r {
        Ok(names) => Ok(texts_of(names@)),
        Err(e) => Err(e),
    }
}

/// The files that showing all of a directory means: the names of its
/// regular files, in the order of the listing. The selection fails where a
/// regular file's name is not valid text, and where there is no regular
/// file: what is selected is never empty.
pub fn selected_files(items: &Vec<DirItem>) -> (r: Result<Vec<String>, ListingError>)
    ensures
        selection_view(r) == selection_of(items_of(items@).filter(is_regular())),
        r matches Ok(names) ==> names@.len() > 0,
{
    let ghost all = items_of(items@);
    let mut names: Vec<String> = Vec::new();
    let mut i: usize = 0;
    proof {
        reveal(Seq::filter);
        assert(all.take(0) =~= Seq::<DirItemView>::empty());
        assert(texts_of(names@) =~= names_of(all.take(0).filter(is_regular())));
    }
    while i < items.len()
        invariant
            i <= items.len(),
            all == items_of(items@),
            all_named(all.take(i as int).filter(is_regular())),
            texts_of(names@) == names_of(all.take(i as int).filter(is_regular())),
        decreases items.len() - i,
    {
        let item = &items[i];
        let ghost kept = all.take(i as int).filter(is_regular());
        proof {
            assert(all.take(i + 1) =~= all.take(i as int).push(item@));
            all.take(i as int).lemma_filter_push(item@, is_regular());
        }
        if item.is_file {
            match &item.name {
                Some(name) => {
                    let ghost before = names@;
                    names.push(name.clone());
                    proof {
                        let shown = kept.push(item@);
                        assert(texts_of(before).len() == names_of(kept).len());
                        assert forall|j: int| 0 <= j < names@.len() implies texts_of(names@)[j]
                            == names_of(shown)[j] by {
                            if j < before.len() {
                                assert(texts_of(before)[j] == names_of(kept)[j]);
                            }
                        }
                        assert(texts_of(names@) =~= names_of(shown));
                    }
                },
                None => {
                    proof {
                        all.lemma_filter_contains(is_regular(), i as int);
                        let regular = all.filter(is_regular());
                        let k = choose|k: int| 0 <= k < regular.len() && regular[k] == all[i as int];
                        assert(regular[k].name is None);
                    }
                    return Err(ListingError::UnnamedFile);
                },
            }
        }
        i = i + 1;
    }
    assert(all.take(i as int) =~= all);
    assert(texts_of(names@).len() == names_of(all.filter(is_regular())).len());
    if names.len() == 0 {
        Err(ListingError::NoFiles)
    } else {
        Ok(names)
    }
}

} // verus!
