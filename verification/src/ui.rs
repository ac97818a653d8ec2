//! What the interactive front decides: which action to take, where a text
//! comes from, whether to go on, and what an action does to the journal.

use crate::cli::{ChangePassword, Edit, EditToday, List, SubCommand, ViewToday};
use crate::config::Config;
use crate::date::{date_text, Date};
use crate::db::{LoadError, State};
use crate::entries::Dated;
use crate::text::{same_text, text_views, trim_text, trimmed};
use vstd::prelude::*;
use vstd::string::StringExecFns;

verus! {

/// What an action did.
#[derive(Debug, Clone, Copy, PartialEq, Eq, Structural)]
pub enum AppResult {
    /// The journal changed and is to be saved.
    ChangedState,
    /// The journal is as it was.
    DidntChangeState,
    /// The user asked to stop.
    Quit,
}

/// The actions that the user can choose from.
#[derive(Debug, Clone, Copy, PartialEq, Eq, PartialOrd, Ord, Hash, Structural)]
pub enum PathWay {
    ChangePassword,
    List,
    View,
    Edit,
    ViewToday,
    EditToday,
    Quit,
}

/// Why a choice is no action to run.
#[derive(Debug, Clone, Copy, PartialEq, Eq, Structural)]
pub enum SubCommandFromPathWayError {
    /// The choice was to stop.
    QuitVariantWasUsed,
}

/// Where a text comes from that may be given in clear or in a file.
#[derive(Debug, Clone, PartialEq, Eq)]
pub enum TextSource {
    /// Neither was given: ask the user.
    Ask,
    /// It was given in clear.
    Given(String),
    /// It is to be read from this file.
    File(String),
}

/// A text was given both in clear and in a file.
#[derive(Debug, Clone, Copy, PartialEq, Eq, Structural)]
pub struct BothGiven;

/// What to do after an attempt to load the journal.
#[derive(Debug, Clone, Copy, PartialEq, Eq, Structural)]
pub enum LoadStep {
    /// The journal is loaded.
    Done,
    /// The password was wrong: ask for it again and load again.
    Retry,
    /// Loading failed for good.
    Fail(LoadError),
}

/// What to do after an action.
#[derive(Debug, Clone, Copy, PartialEq, Eq, Structural)]
pub enum LoopStep {
    /// Ask for the next action; the result so far is this.
    Again(AppResult),
    /// Stop with this result.
    Done(AppResult),
}

/// A question with a list of answers to choose from.
#[derive(Debug, Clone)]
pub struct Selection {
    /// The question.
    pub message: String,
    /// The answers, in the order in which they are shown.
    pub choices: Vec<String>,
}

/// The name under which an action is shown.
pub open spec fn pathway_name(pathway: PathWay) -> Seq<char> {
    match pathway {
        PathWay::ChangePassword => "Change Password"@,
        PathWay::List => "List"@,
        PathWay::View => "View"@,
        PathWay::Edit => "Edit"@,
        PathWay::ViewToday => "View Today"@,
        PathWay::EditToday => "Edit Today"@,
        PathWay::Quit => "Quit"@,
    }
}

/// The actions in the order in which they are shown.
pub open spec fn pathways() -> Seq<PathWay> {
    seq![
        PathWay::ChangePassword,
        PathWay::List,
        PathWay::View,
        PathWay::Edit,
        PathWay::ViewToday,
        PathWay::EditToday,
        PathWay::Quit,
    ]
}

/// The action that is shown under `name`, if there is one.
pub open spec fn pathway_named(name: Seq<char>) -> Option<PathWay> {
    if name == pathway_name(PathWay::ChangePassword) {
        Some(PathWay::ChangePassword)
    } else if name == pathway_name(PathWay::List) {
        Some(PathWay::List)
    } else if name == pathway_name(PathWay::View) {
        Some(PathWay::View)
    } else if name == pathway_name(PathWay::Edit) {
        Some(PathWay::Edit)
    } else if name == pathway_name(PathWay::ViewToday) {
        Some(PathWay::ViewToday)
    } else if name == pathway_name(PathWay::EditToday) {
        Some(PathWay::EditToday)
    } else if name == pathway_name(PathWay::Quit) {
        Some(PathWay::Quit)
    } else {
        None
    }
}

impl PathWay {
    /// The name under which the action is shown.
    pub fn to_string(&self) -> (name: String)
        ensures
            name@ == pathway_name(*self),
    {
        match self {
            PathWay::ChangePassword => "Change Password".to_owned(),
            PathWay::List => "List".to_owned(),
            PathWay::View => "View".to_owned(),
            PathWay::Edit => "Edit".to_owned(),
            PathWay::ViewToday => "View Today".to_owned(),
            PathWay::EditToday => "Edit Today".to_owned(),
            PathWay::Quit => "Quit".to_owned(),
        }
    }

    /// The action that is shown under `name`.
    pub fn from_str(name: &str) -> (r: Result<PathWay, ()>)
        ensures
            match pathway_named(name@) {
                Some(pathway) => r == Ok::<PathWay, ()>(pathway),
                None => r is Err,
            },
    {
        if same_text(name, "Change Password") {
            Ok(PathWay::ChangePassword)
        } else if same_text(name, "List") {
            Ok(PathWay::List)
        } else if same_text(name, "View") {
            Ok(PathWay::View)
        } else if same_text(name, "Edit") {
            Ok(PathWay::Edit)
        } else if same_text(name, "View Today") {
            Ok(PathWay::ViewToday)
        } else if same_text(name, "Edit Today") {
            Ok(PathWay::EditToday)
        } else if same_text(name, "Quit") {
            Ok(PathWay::Quit)
        } else {
            Err(())
        }
    }
}

impl SubCommandFromPathWayError {
    /// The name of the error.
    pub fn to_string(&self) -> (name: String)
        ensures
            name@ == "QuitVariantWasUsed"@,
    {
        "QuitVariantWasUsed".to_owned()
    }
}

/// Every action has a name of its own, and is found again under it.
pub proof fn lemma_pathway_names_are_distinct(pathway: PathWay)
    ensures
        pathway_named(pathway_name(pathway)) == Some(pathway),
{
    reveal_strlit("Change Password");
    reveal_strlit("List");
    reveal_strlit("View");
    reveal_strlit("Edit");
    reveal_strlit("View Today");
    reveal_strlit("Edit Today");
    reveal_strlit("Quit");
    let c = "Change Password"@;
    let l = "List"@;
    let v = "View"@;
    let e = "Edit"@;
    let vt = "View Today"@;
    let et = "Edit Today"@;
    let q = "Quit"@;
    assert(c.len() == 15 && l.len() == 4 && v.len() == 4 && e.len() == 4 && vt.len() == 10
        && et.len() == 10 && q.len() == 4);
    assert(l[0] == 'L' && v[0] == 'V' && e[0] == 'E' && q[0] == 'Q');
    assert(vt[0] == 'V' && et[0] == 'E');
}

impl SubCommand {
    /// The action that a choice stands for, with nothing given for it;
    /// none for the choice to stop.
    pub fn try_from(value: PathWay) -> (r: Result<SubCommand, SubCommandFromPathWayError>)
        ensures
            r == (match value {
                PathWay::ChangePassword => Ok::<SubCommand, SubCommandFromPathWayError>(
                    SubCommand::ChangePassword(
                        ChangePassword { new_password: None, new_password_file: None },
                    ),
                ),
                PathWay::List => Ok(SubCommand::List(List {  })),
                PathWay::View => Ok(SubCommand::View(crate::cli::View { date: None })),
                PathWay::Edit => Ok(
                    SubCommand::Edit(Edit { date: None, content: None, content_path: None }),
                ),
                PathWay::ViewToday => Ok(SubCommand::ViewToday(ViewToday {  })),
                PathWay::EditToday => Ok(
                    SubCommand::EditToday(EditToday { content: None, content_path: None }),
                ),
                PathWay::Quit => Err(SubCommandFromPathWayError::QuitVariantWasUsed),
            }),
    {
        match value {
            PathWay::ChangePassword => Ok(
                SubCommand::ChangePassword(
                    ChangePassword { new_password: None, new_password_file: None },
                ),
            ),
            PathWay::List => Ok(SubCommand::List(List {  })),
            PathWay::View => Ok(SubCommand::View(crate::cli::View { date: None })),
            PathWay::Edit => Ok(
                SubCommand::Edit(Edit { date: None, content: None, content_path: None }),
            ),
            PathWay::ViewToday => Ok(SubCommand::ViewToday(ViewToday {  })),
            PathWay::EditToday => Ok(
                SubCommand::EditToday(EditToday { content: None, content_path: None }),
            ),
            PathWay::Quit => Err(SubCommandFromPathWayError::QuitVariantWasUsed),
        }
    }
}

/// Where a text comes from: given in clear, in a file, or to be asked for;
/// given both ways it is refused.
pub fn text_source(text: &Option<String>, file: &Option<String>) -> (r: Result<
    TextSource,
    BothGiven,
>)
    ensures
        r == (match (*text, *file) {
            (None, None) => Ok::<TextSource, BothGiven>(TextSource::Ask),
            (Some(text), None) => Ok(TextSource::Given(text)),
            (None, Some(file)) => Ok(TextSource::File(file)),
            (Some(_), Some(_)) => Err(BothGiven),
        }),
{
    match (text, file) {
        (None, None) => Ok(TextSource::Ask),
        (Some(text), None) => Ok(TextSource::Given(text.clone())),
        (None, Some(file)) => Ok(TextSource::File(file.clone())),
        (Some(_), Some(_)) => Err(BothGiven),
    }
}

/// Where the password of the run comes from.
pub fn init(config: &Config) -> (r: Result<TextSource, BothGiven>)
    ensures
        r == (match (config.password, config.password_file) {
            (None, None) => Ok::<TextSource, BothGiven>(TextSource::Ask),
            (Some(text), None) => Ok(TextSource::Given(text)),
            (None, Some(file)) => Ok(TextSource::File(file)),
            (Some(_), Some(_)) => Err(BothGiven),
        }),
{
    text_source(&config.password, &config.password_file)
}

/// The password that a password file holds: its contents without the
/// white space at their ends.
pub fn password_from_file(contents: &str) -> (password: String)
    ensures
        password@ == trimmed(contents@),
{
    trim_text(contents).to_owned()
}

/// What to do after an attempt to load the journal: a wrong password is
/// asked for again, any other failure is final.
pub fn after_load(loaded: Result<(), LoadError>) -> (step: LoadStep)
    ensures
        step == (match loaded {
            Ok(_) => LoadStep::Done,
            Err(LoadError::IncorrectPassword) => LoadStep::Retry,
            Err(e) => LoadStep::Fail(e),
        }),
{
    match loaded {
        Ok(_) => LoadStep::Done,
        Err(LoadError::IncorrectPassword) => LoadStep::Retry,
        Err(e) => LoadStep::Fail(e),
    }
}

/// Whether a next action is asked for when one is done: yes where looping
/// is switched on; else no where it is switched off; else only where no
/// action was named on the command line.
pub open spec fn loops(config: Config, subcommand: Option<SubCommand>) -> bool {
    if config.do_loop == Some(true) {
        true
    } else if config.dont_loop == Some(true) {
        false
    } else {
        subcommand is None
    }
}

/// Tells whether a next action is asked for when one is done.
pub fn should_loop(config: &Config, subcommand: &Option<SubCommand>) -> (b: bool)
    ensures
        b == loops(*config, *subcommand),
{
    if let Some(do_loop) = config.do_loop {
        if do_loop {
            return true;
        }
    }
    if let Some(dont_loop) = config.dont_loop {
        if dont_loop {
            return false;
        }
    }
    if subcommand.is_some() {
        return false;
    }
    true
}

/// What to do after an action, given the result so far: without looping,
/// stop with what the action did; with it, stop on `Quit` with the result
/// so far, and else go on, the result being `ChangedState` once any action
/// changed the journal.
pub fn app(looping: bool, so_far: AppResult, outcome: AppResult) -> (step: LoopStep)
    ensures
        step == (if !looping {
            LoopStep::Done(outcome)
        } else {
            match outcome {
                AppResult::ChangedState => LoopStep::Again(AppResult::ChangedState),
                AppResult::Quit => LoopStep::Done(so_far),
                AppResult::DidntChangeState => LoopStep::Again(so_far),
            }
        }),
{
    if !looping {
        LoopStep::Done(outcome)
    } else {
        match outcome {
            AppResult::ChangedState => LoopStep::Again(AppResult::ChangedState),
            AppResult::Quit => LoopStep::Done(so_far),
            AppResult::DidntChangeState => LoopStep::Again(so_far),
        }
    }
}

/// The question that asks for an action, with every action as an answer.
pub fn prompt_pathway() -> (question: Selection)
    ensures
        question.message@ == "Welcome to jrn. Please choose a course of action"@,
        text_views(question.choices@) == pathways().map_values(|p: PathWay| pathway_name(p)),
{
    let mut choices: Vec<String> = Vec::new();
    choices.push(PathWay::ChangePassword.to_string());
    choices.push(PathWay::List.to_string());
    choices.push(PathWay::View.to_string());
    choices.push(PathWay::Edit.to_string());
    choices.push(PathWay::ViewToday.to_string());
    choices.push(PathWay::EditToday.to_string());
    choices.push(PathWay::Quit.to_string());
    assert(text_views(choices@) =~= pathways().map_values(|p: PathWay| pathway_name(p)));
    Selection {
        message: "Welcome to jrn. Please choose a course of action".to_owned(),
        choices,
    }
}

/// What writing `content` on `date` does, given what was there: nothing to
/// save where the same text was there, a change elsewhere.
pub open spec fn edit_result(old: Map<Date, Seq<char>>, date: Date, content: Seq<char>) -> AppResult {
    if old.contains_key(date) && old[date] == content {
        AppResult::DidntChangeState
    } else {
        AppResult::ChangedState
    }
}

/// Writes `new_content` on `date`.
pub fn edit_entry(date: &Date, new_content: &str, state: &mut State) -> (r: AppResult)
    ensures
        final(state)@.entries == old(state)@.entries.insert(*date, new_content@),
        final(state)@.password == old(state)@.password,
        r == edit_result(old(state)@.entries, *date, new_content@),
{
    let old_content = state.get_entry(date);
    state.set_entry(date, new_content);
    match old_content {
        Some(old_content) => {
            if same_text(old_content.as_str(), new_content) {
                AppResult::DidntChangeState
            } else {
                AppResult::ChangedState
            }
        },
        None => AppResult::ChangedState,
    }
}

/// Writes `content` on today's date, by the local clock.
pub fn edit_today(content: &str, state: &mut State) -> (r: AppResult)
    ensures
        exists|today: Date|
            {
                &&& today.names_a_day()
                &&& final(state)@.entries == old(state)@.entries.insert(today, content@)
                &&& r == edit_result(old(state)@.entries, today, content@)
            },
        final(state)@.password == old(state)@.password,
{
    let today = Date::today();
    edit_entry(&today, content, state)
}

/// Replaces the password in memory.
pub fn change_password(new_password: &str, state: &mut State) -> (r: AppResult)
    ensures
        final(state)@.password == new_password@,
        final(state)@.entries == old(state)@.entries,
        r == (if old(state)@.password == new_password@ {
            AppResult::DidntChangeState
        } else {
            AppResult::ChangedState
        }),
{
    let same = same_text(state.password.as_str(), new_password);
    state.change_password(new_password);
    if same {
        AppResult::DidntChangeState
    } else {
        AppResult::ChangedState
    }
}

/// The text to show for `date`: the entry, if there is one.
pub fn view_entries(date: &Date, state: &State) -> (r: Option<String>)
    ensures
        match r {
            Some(text) => state@.entries.contains_key(*date) && text@ == state@.entries[*date],
            None => !state@.entries.contains_key(*date),
        },
{
    state.get_entry(date)
}

/// The text to show for an entry that may be missing.
pub fn shown_text(entry: Option<String>) -> (text: String)
    ensures
        text@ == (match entry {
            Some(entry) => entry@,
            None => "<No Entry>"@,
        }),
{
    match entry {
        Some(entry) => entry,
        None => "<No Entry>".to_owned(),
    }
}

/// The text to show for today, by the local clock.
pub fn view_today(state: &State) -> (text: String)
    ensures
        exists|today: Date|
            today.names_a_day() && text@ == (if state@.entries.contains_key(today) {
                state@.entries[today]
            } else {
                "<No Entry>"@
            }),
{
    let today = Date::today();
    let entry = state.get_entry(&today);
    shown_text(entry)
}

/// The new password, given what was entered and what was entered again:
/// none where the two differ, and the user is asked once more.
pub fn get_new_password(first: &str, second: &str) -> (r: Option<String>)
    ensures
        match r {
            Some(password) => first@ == second@ && password@ == first@,
            None => first@ != second@,
        },
{
    if same_text(first, second) {
        Some(first.to_owned())
    } else {
        None
    }
}

/// Whether the dates of `dates` rise from each to the next.
pub open spec fn rising(dates: Seq<Date>) -> bool {
    forall|i: int, j: int| 0 <= i < j < dates.len() ==> dates[i].precedes(&dates[j])
}

/// Puts `date` in its place among rising dates, unless it is there.
fn insert_in_order(dates: &mut Vec<Date>, date: Date)
    requires
        rising(old(dates)@),
    ensures
        rising(final(dates)@),
        forall|d: Date| final(dates)@.contains(d) <==> old(dates)@.contains(d) || d == date,
{
    let n = dates.len();
    let mut i: usize = 0;
    while i < n && dates[i].is_before(&date)
        invariant
            n == dates@.len(),
            i <= n,
            dates@ == old(dates)@,
            forall|k: int| 0 <= k < i ==> dates@[k].precedes(&date),
        decreases n - i,
    {
        i += 1;
    }
    let ghost before = dates@;
    if i < n && dates[i] == date {
        assert(before.contains(date));
        return ;
    }
    dates.insert(i, date);
    proof {
        let after = dates@;
        assert forall|a: int, b: int| 0 <= a < b < after.len() implies after[a].precedes(
            &after[b],
        ) by {
            if b < i {
                assert(before[a].precedes(&before[b]));
            } else if b == i {
            } else if a < i {
                assert(before[a].precedes(&before[b - 1]));
            } else if a == i {
                assert(!before[i as int].precedes(&date));
                if b - 1 > i {
                    assert(before[i as int].precedes(&before[b - 1]));
                }
            } else {
                assert(before[a - 1].precedes(&before[b - 1]));
            }
        }
        assert forall|d: Date| after.contains(d) <==> before.contains(d) || d == date by {
            if after.contains(d) {
                let k = choose|k: int| 0 <= k < after.len() && after[k] == d;
                if k < i {
                    assert(before[k] == d);
                } else if k > i {
                    assert(before[k - 1] == d);
                }
            }
            if before.contains(d) {
                let k = choose|k: int| 0 <= k < before.len() && before[k] == d;
                if k < i {
                    assert(after[k] == d);
                } else {
                    assert(after[k + 1] == d);
                }
            }
            if d == date {
                assert(after[i as int] == d);
            }
        }
    }
}

/// The dates that have an entry, from the earliest to the latest.
pub fn entry_dates(state: &State) -> (dates: Vec<Date>)
    ensures
        rising(dates@),
        forall|d: Date| dates@.contains(d) <==> state@.entries.contains_key(d),
{
    let ghost source = state.entries.seq();
    let n = state.entries.len();
    let mut dates: Vec<Date> = Vec::new();
    let mut i: usize = 0;
    proof {
        crate::entries::lemma_by_date(source);
    }
    while i < n
        invariant
            n == source.len(),
            i <= n,
            source == state.entries.seq(),
            rising(dates@),
            forall|d: Date|
                dates@.contains(d) <==> exists|k: int|
                    0 <= k < i && (#[trigger] source[k]).date == d,
        decreases n - i,
    {
        let ghost before = dates@;
        let date = state.entries.at(i).date;
        insert_in_order(&mut dates, date);
        proof {
            assert forall|d: Date|
                dates@.contains(d) <==> exists|k: int|
                    0 <= k < i + 1 && (#[trigger] source[k]).date == d by {
                if dates@.contains(d) {
                    if d == date {
                        assert(source[i as int].date == d);
                    } else {
                        assert(before.contains(d));
                        let k = choose|k: int| 0 <= k < i && (#[trigger] source[k]).date == d;
                        assert(0 <= k < i + 1 && source[k].date == d);
                    }
                }
                if exists|k: int| 0 <= k < i + 1 && (#[trigger] source[k]).date == d {
                    let k = choose|k: int| 0 <= k < i + 1 && (#[trigger] source[k]).date == d;
                    if k < i {
                        assert(before.contains(d));
                    }
                }
            }
        }
        i += 1;
    }
    proof {
        assert forall|d: Date| dates@.contains(d) <==> state@.entries.contains_key(d) by {
            if dates@.contains(d) {
                let k = choose|k: int| 0 <= k < n && (#[trigger] source[k]).date == d;
                assert(state.entries@.contains_key(source[k].date_spec()));
            }
            if state@.entries.contains_key(d) {
                assert(state.entries@.contains_key(d));
                let k = crate::entries::position_of(source, d);
                assert(source[k].date == d);
            }
        }
    }
    dates
}

/// The dates to choose an entry from: those that have an entry, from the
/// earliest to the latest; or today alone where none has.
pub fn get_dates(state: &State, today: Date) -> (dates: Vec<Date>)
    ensures
        rising(dates@),
        forall|d: Date|
            dates@.contains(d) <==> (if state@.entries.dom() =~= Set::<Date>::empty() {
                d == today
            } else {
                state@.entries.contains_key(d)
            }),
{
    let mut dates = entry_dates(state);
    if dates.len() == 0 {
        assert forall|d: Date| !state@.entries.contains_key(d) by {
            assert(!dates@.contains(d));
        }
        assert(state@.entries.dom() =~= Set::<Date>::empty());
        dates.push(today);
        assert(dates@[0] == today);
    } else {
        assert(dates@.contains(dates@[0]));
        assert(state@.entries.dom().contains(dates@[0]));
    }
    dates
}

/// The answers to show for some dates: their texts, in the order given or
/// from the last to the first.
pub fn date_choices(dates: &Vec<Date>, reverse: bool) -> (choices: Vec<String>)
    ensures
        text_views(choices@) == (if reverse {
            dates@.reverse()
        } else {
            dates@
        }).map_values(|d: Date| date_text(d)),
{
    let n = dates.len();
    let ghost shown = if reverse {
        dates@.reverse()
    } else {
        dates@
    };
    let mut choices: Vec<String> = Vec::new();
    let mut i: usize = 0;
    while i < n
        invariant
            n == dates@.len(),
            i <= n,
            shown == (if reverse {
                dates@.reverse()
            } else {
                dates@
            }),
            choices@.len() == i,
            forall|k: int| 0 <= k < i ==> (#[trigger] choices@[k])@ == date_text(shown[k]),
        decreases n - i,
    {
        let date = if reverse {
            dates[n - 1 - i]
        } else {
            dates[i]
        };
        choices.push(date.to_string());
        i += 1;
    }
    assert(text_views(choices@) =~= shown.map_values(|d: Date| date_text(d)));
    choices
}

/// The line that lists one date.
pub open spec fn listed(date: Date) -> Seq<char> {
    "- "@ + date_text(date)
}

/// The lines that list the dates that have an entry, from the earliest to
/// the latest.
pub fn list_entries(state: &State) -> (lines: Vec<String>)
    ensures
        exists|dates: Seq<Date>|
            {
                &&& rising(dates)
                &&& forall|d: Date| dates.contains(d) <==> state@.entries.contains_key(d)
                &&& #[trigger] text_views(lines@) == dates.map_values(|d: Date| listed(d))
            },
{
    let dates = entry_dates(state);
    let mut lines: Vec<String> = Vec::new();
    let mut i: usize = 0;
    while i < dates.len()
        invariant
            i <= dates@.len(),
            lines@.len() == i,
            forall|k: int| 0 <= k < i ==> (#[trigger] lines@[k])@ == listed(dates@[k]),
        decreases dates@.len() - i,
    {
        let line = "- ".to_owned().concat(dates[i].to_string().as_str());
        lines.push(line);
        i += 1;
    }
    assert(text_views(lines@) =~= dates@.map_values(|d: Date| listed(d)));
    lines
}

} // verus!
