//! The command vocabulary: the requests that a line can make.

use chrono::NaiveDateTime;
use vstd::prelude::*;

verus! {

/// One request, fully parsed. A field that the line did not supply is `None`.
#[derive(PartialEq, Eq, Clone, Debug)]
pub enum Command {
    TodoCreate {
        title: String,
        description: Option<String>,
        start: Option<NaiveDateTime>,
        end: Option<NaiveDateTime>,
    },
    TodoRead { ids: Vec<i8> },
    TodoUpdate {
        ids: Vec<i8>,
        title: Option<String>,
        description: Option<String>,
        start: Option<NaiveDateTime>,
        end: Option<NaiveDateTime>,
    },
    TodoDelete { ids: Vec<i8> },
    UserRead,
    CalendarRead,
}

/// A command as contracts see it: a text is the sequence of its characters,
/// a list of identifiers the sequence of its numbers.
pub enum CommandView {
    TodoCreate {
        title: Seq<char>,
        description: Option<Seq<char>>,
        start: Option<NaiveDateTime>,
        end: Option<NaiveDateTime>,
    },
    TodoRead { ids: Seq<i8> },
    TodoUpdate {
        ids: Seq<i8>,
        title: Option<Seq<char>>,
        description: Option<Seq<char>>,
        start: Option<NaiveDateTime>,
        end: Option<NaiveDateTime>,
    },
    TodoDelete { ids: Seq<i8> },
    UserRead,
    CalendarRead,
}

/// Whether a text that may be absent has characters where it is present.
pub open spec fn absent_or_not_empty(text: Option<Seq<char>>) -> bool {
    text matches Some(text) ==> text.len() > 0
}

/// Whether identifiers are at least one, and none of them below zero.
pub open spec fn are_ids(ids: Seq<i8>) -> bool {
    &&& ids.len() > 0
    &&& forall|i: int| 0 <= i < ids.len() ==> ids[i] >= 0
}

impl CommandView {
    /// Whether the command holds what a line can ask for: every text that it
    /// holds has characters, and where it holds identifiers they are at
    /// least one, none of them below zero.
    pub open spec fn well_formed(self) -> bool {
        match self {
            CommandView::TodoCreate { title, description, .. } => {
                &&& title.len() > 0
                &&& absent_or_not_empty(description)
            },
            CommandView::TodoRead { ids } => are_ids(ids),
            CommandView::TodoUpdate { ids, title, description, .. } => {
                &&& are_ids(ids)
                &&& absent_or_not_empty(title)
                &&& absent_or_not_empty(description)
            },
            CommandView::TodoDelete { ids } => are_ids(ids),
            CommandView::UserRead => true,
            CommandView::CalendarRead => true,
        }
    }
}

/// The characters of a text that may be absent.
pub open spec fn text_view(text: Option<String>) -> Option<Seq<char>> {
    match text {
        Some(text) => Some(text@),
        None => None,
    }
}

impl View for Command {
    type V = CommandView;

    open spec fn view(&self) -> CommandView {
        match self {
            Command::TodoCreate { title, description, start, end } => CommandView::TodoCreate {
                title: title@,
                description: text_view(*description),
                start: *start,
                end: *end,
            },
            Command::TodoRead { ids } => CommandView::TodoRead { ids: ids@ },
            Command::TodoUpdate { ids, title, description, start, end } => CommandView::TodoUpdate {
                ids: ids@,
                title: text_view(*title),
                description: text_view(*description),
                start: *start,
                end: *end,
            },
            Command::TodoDelete { ids } => CommandView::TodoDelete { ids: ids@ },
            Command::UserRead => CommandView::UserRead,
            Command::CalendarRead => CommandView::CalendarRead,
        }
    }
}

} // verus!
