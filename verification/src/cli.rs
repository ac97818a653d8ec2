//! What the command line can ask for.

use crate::date::Date;
use vstd::prelude::*;

verus! {

/// The arguments of one run.
#[derive(PartialEq, Debug, Clone)]
pub struct Arguments {
    /// Print the default configuration and stop.
    pub dump_default_config: bool,
    /// The configuration file to use.
    pub config_file: Option<String>,
    /// The password, given in clear.
    pub password: Option<String>,
    /// The file to read the password from.
    pub password_file: Option<String>,
    /// Do not ask for a next action when one is done.
    pub dont_loop: bool,
    /// Ask for a next action when one is done.
    pub do_loop: bool,
    /// The file type under which entries are edited.
    pub file_type: Option<String>,
    /// The file that holds the journal.
    pub file_path: Option<String>,
    /// The action to take.
    pub subcommand: Option<SubCommand>,
}

/// An action, with what was given for it.
#[derive(PartialEq, Debug, Clone)]
pub enum SubCommand {
    /// Change the password.
    ChangePassword(ChangePassword),
    /// List the dates that have an entry.
    List(List),
    /// Show an entry.
    View(View),
    /// Edit an entry.
    Edit(Edit),
    /// Show today's entry.
    ViewToday(ViewToday),
    /// Edit today's entry.
    EditToday(EditToday),
}

/// Change the password.
#[derive(PartialEq, Debug, Clone, Default)]
pub struct ChangePassword {
    /// The new password, given in clear.
    pub new_password: Option<String>,
    /// The file to read the new password from.
    pub new_password_file: Option<String>,
}

/// List the dates that have an entry.
#[derive(PartialEq, Debug, Clone, Default)]
pub struct List {}

/// Show an entry.
#[derive(PartialEq, Debug, Clone, Default)]
pub struct View {
    /// The date of the entry.
    pub date: Option<Date>,
}

/// Edit an entry.
#[derive(PartialEq, Debug, Clone, Default)]
pub struct Edit {
    /// The date of the entry.
    pub date: Option<Date>,
    /// The new text.
    pub content: Option<String>,
    /// The file to read the new text from.
    pub content_path: Option<String>,
}

/// Show today's entry.
#[derive(PartialEq, Debug, Clone, Default)]
pub struct ViewToday {}

/// Edit today's entry.
#[derive(PartialEq, Debug, Clone, Default)]
pub struct EditToday {
    /// The new text.
    pub content: Option<String>,
    /// The file to read the new text from.
    pub content_path: Option<String>,
}

} // verus!
