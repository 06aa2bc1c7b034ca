//! The console of the interactive program: what a key does in each mode.
//!
//! The console holds the categories, the meeting and what the user is in the
//! middle of.  [`Console::handle_key`] takes one key and changes the console;
//! what has to be done with files it hands back as an [`Action`] for the
//! caller to perform.

use crate::input::{category_input, count_input, parse_category_input, parse_count_input};
use crate::meeting::{
    initial_view, lists_roster, roster_add, starts, stops, Meeting, MeetingView,
};
use crate::model::{
    add_category, has_title, remove_category, trim, trimmed, without_title, EmployeeCategory,
};
use crate::snapshot::{restore, restored_roster, snapshot, snapshot_of};
use crate::storage::{attendee_views, AttendeeInfo};
use vstd::prelude::*;

verus! {

/// What the user is in the middle of.
#[derive(Debug, Clone, Copy, PartialEq, Eq, Structural)]
pub enum Mode {
    /// Looking at the meeting.
    View,
    /// Typing a new category.
    AddCategory,
    /// Choosing a category to delete.
    DeleteCategory,
    /// Choosing the category of attendees to add.
    AddAttendeeSelect,
    /// Typing how many attendees to add.
    AddAttendeeCount,
    /// Choosing attendees to remove.
    RemoveAttendee,
    /// Typing the name of a file to save the attendees to.
    SaveAttendees,
    /// Choosing a file to load attendees from.
    LoadAttendees,
}

/// A key that the user pressed.
#[derive(Debug, Clone, Copy, PartialEq, Eq, Structural)]
pub enum Key {
    Char(char),
    Enter,
    Esc,
    Backspace,
    Up,
    Down,
    Other,
}

/// What the caller has to do after a key.
#[derive(Debug, PartialEq, Eq)]
pub enum Action {
    /// Nothing.
    Nothing,
    /// List the attendee files and hand them to [`Console::files_listed`].
    ListFiles,
    /// Save the attendees to the file of this name.
    Save { name: String, attendees: Vec<AttendeeInfo> },
    /// Load attendees from the file of this name and hand them to
    /// [`Console::attendees_loaded`].
    Load { name: String },
}

/// The console: the categories, the meeting, and the state of the dialogue.
#[derive(Debug)]
pub struct Console {
    /// What the user is in the middle of.
    pub mode: Mode,
    /// What the user has typed so far.
    pub input_text: String,
    /// Whether salaries are shown beside the categories.
    pub show_salaries: bool,
    /// The categories to choose from.
    pub categories: Vec<EmployeeCategory>,
    /// The meeting.
    pub meeting: Meeting,
    /// The attendee files to choose from.
    pub files: Vec<String>,
    /// The place of the chosen line in the list that is shown.
    pub selected: usize,
    /// The place of the category that attendees are being added of.
    pub add_attendee_idx: Option<usize>,
}

/// `String::push`: appends the character to the text.
#[verifier::external_body]
fn push_char(text: &mut String, c: char)
    ensures
        final(text)@ == old(text)@.push(c),
{
    text.push(c);
}

/// `String::pop`: takes the last character off the text, if it has one.
#[verifier::external_body]
fn pop_char(text: &mut String)
    ensures
        final(text)@ == if old(text)@.len() > 0 {
            old(text)@.drop_last()
        } else {
            old(text)@
        },
{
    text.pop();
}

/// The place of the chosen line after a step up.
pub open spec fn step_up(selected: usize) -> usize {
    if selected > 0 {
        (selected - 1) as usize
    } else {
        selected
    }
}

/// The place of the chosen line after a step down in a list of `len` lines.
pub open spec fn step_down(selected: usize, len: int) -> usize {
    if selected + 1 < len {
        (selected + 1) as usize
    } else {
        selected
    }
}

/// The first `n` names of a list without the name of the category file, in
/// their order.
pub open spec fn attendee_files(names: Seq<String>, n: int) -> Seq<String>
    decreases n,
{
    if n <= 0 {
        Seq::empty()
    } else if names[n - 1]@ == "categories.toml"@ {
        attendee_files(names, n - 1)
    } else {
        attendee_files(names, n - 1).push(names[n - 1])
    }
}

impl Console {
    /// The console is valid when its meeting is.
    pub open spec fn wf(&self) -> bool {
        self.meeting.wf()
    }

    /// The console with another text on its input line.
    pub open spec fn with_input(self, input_text: String) -> Console {
        Console { input_text, ..self }
    }

    /// The console with another meeting.
    pub open spec fn with_meeting(self, meeting: Meeting) -> Console {
        Console { meeting, ..self }
    }

    /// The console with other categories.
    pub open spec fn with_categories(self, categories: Vec<EmployeeCategory>) -> Console {
        Console { categories, ..self }
    }

    /// The console with other files.
    pub open spec fn with_files(self, files: Vec<String>) -> Console {
        Console { files, ..self }
    }

    /// Whether `after` is `self` in the mode `mode`, with the line `selected`
    /// chosen and an empty input line.
    pub open spec fn opens(self, after: Console, mode: Mode, selected: usize) -> bool {
        &&& after.input_text@ == Seq::<char>::empty()
        &&& after.with_input(self.input_text) == (Console { mode, selected, ..self })
    }

    /// What a key does while the user looks at the meeting.
    ///
    /// `s` starts or stops the timer, `c` resets the meeting, `p` shows or
    /// hides the salaries, `l` asks for the attendee files, and `a`, `d`,
    /// `e`, `r` and `w` open the other modes with an empty input line.
    /// Every other key does nothing.
    pub open spec fn view_key(self, key: Key, after: Console, action: Action) -> bool {
        match key {
            Key::Char(c) => if c == 's' {
                &&& action is Nothing
                &&& after.with_meeting(self.meeting) == self
                &&& if self.meeting@.running {
                    stops(self.meeting, after.meeting)
                } else {
                    starts(self.meeting, after.meeting)
                }
            } else if c == 'c' {
                &&& action is Nothing
                &&& after.with_meeting(self.meeting) == self
                &&& after.meeting.wf()
                &&& after.meeting@ == initial_view()
            } else if c == 'a' {
                action is Nothing && self.opens(after, Mode::AddCategory, self.selected)
            } else if c == 'd' {
                action is Nothing && self.opens(after, Mode::DeleteCategory, self.selected)
            } else if c == 'e' {
                action is Nothing && self.opens(after, Mode::AddAttendeeSelect, 0)
            } else if c == 'r' {
                action is Nothing && self.opens(after, Mode::RemoveAttendee, self.selected)
            } else if c == 'w' {
                action is Nothing && self.opens(after, Mode::SaveAttendees, self.selected)
            } else if c == 'l' {
                &&& action is ListFiles
                &&& after.files@ == Seq::<String>::empty()
                &&& after.with_files(self.files) == (Console {
                    mode: Mode::LoadAttendees,
                    selected: 0,
                    ..self
                })
            } else if c == 'p' {
                action is Nothing && after == (Console {
                    show_salaries: !self.show_salaries,
                    ..self
                })
            } else {
                action is Nothing && after == self
            },
            _ => action is Nothing && after == self,
        }
    }

    /// Handles a key while the user looks at the meeting.
    fn handle_view_key(&mut self, key: Key) -> (action: Action)
        requires
            old(self).wf(),
        ensures
            final(self).wf(),
            old(self).view_key(key, *final(self), action),
    {
        match key {
            Key::Char(c) => {
                if c == 's' {
                    if self.meeting.is_running() {
                        self.meeting.stop();
                    } else {
                        self.meeting.start();
                    }
                    Action::Nothing
                } else if c == 'c' {
                    self.meeting.reset();
                    Action::Nothing
                } else if c == 'a' {
                    self.input_text = String::new();
                    self.mode = Mode::AddCategory;
                    Action::Nothing
                } else if c == 'd' {
                    self.input_text = String::new();
                    self.mode = Mode::DeleteCategory;
                    Action::Nothing
                } else if c == 'e' {
                    self.input_text = String::new();
                    self.selected = 0;
                    self.mode = Mode::AddAttendeeSelect;
                    Action::Nothing
                } else if c == 'r' {
                    self.input_text = String::new();
                    self.mode = Mode::RemoveAttendee;
                    Action::Nothing
                } else if c == 'w' {
                    self.input_text = String::new();
                    self.mode = Mode::SaveAttendees;
                    Action::Nothing
                } else if c == 'l' {
                    self.selected = 0;
                    self.files = Vec::new();
                    self.mode = Mode::LoadAttendees;
                    Action::ListFiles
                } else if c == 'p' {
                    self.show_salaries = !self.show_salaries;
                    Action::Nothing
                } else {
                    Action::Nothing
                }
            },
            _ => Action::Nothing,
        }
    }

    /// What a key does to the input line while the user types: a character
    /// is appended, backspace takes the last one off, escape returns to the
    /// view, and enter is for the mode to say.
    pub open spec fn entry_key(self, key: Key, after: Console, action: Action) -> bool {
        match key {
            Key::Enter => match self.mode {
                Mode::AddCategory => self.category_entered(after, action),
                Mode::AddAttendeeCount => self.count_entered(after, action),
                _ => self.file_name_entered(after, action),
            },
            Key::Esc => action is Nothing && after == (Console { mode: Mode::View, ..self }),
            Key::Char(c) => {
                &&& action is Nothing
                &&& after.input_text@ == self.input_text@.push(c)
                &&& after.with_input(self.input_text) == self
            },
            Key::Backspace => {
                &&& action is Nothing
                &&& after.input_text@ == if self.input_text@.len() > 0 {
                    self.input_text@.drop_last()
                } else {
                    self.input_text@
                }
                &&& after.with_input(self.input_text) == self
            },
            _ => action is Nothing && after == self,
        }
    }

    /// What enter does after a category was typed: the category that the
    /// input stands for joins the list, unless the list has one of its title,
    /// and the console returns to the view.
    pub open spec fn category_entered(self, after: Console, action: Action) -> bool {
        &&& action is Nothing
        &&& after.with_categories(self.categories) == (Console { mode: Mode::View, ..self })
        &&& match category_input(self.input_text@) {
            Some(view) => if has_title(self.categories@, view.title) {
                after.categories@ == self.categories@
            } else {
                exists|category: EmployeeCategory|
                    category@ == view && category.wf() && after.categories@
                        == self.categories@.push(category)
            },
            None => after.categories@ == self.categories@,
        }
    }

    /// What enter does after a count was typed.
    ///
    /// An input that stands for no count changes nothing.  Otherwise that
    /// many attendees of the category chosen before join the meeting, where
    /// there is such a category and its counter has room, and the console
    /// returns to the view.
    pub open spec fn count_entered(self, after: Console, action: Action) -> bool {
        match count_input(self.input_text@) {
            None => action is Nothing && after == self,
            Some(count) => {
                &&& action is Nothing
                &&& after.with_meeting(self.meeting) == (Console {
                    mode: Mode::View,
                    add_attendee_idx: None,
                    ..self
                })
                &&& after.meeting.wf()
                &&& if self.add_attendee_idx is Some && self.add_attendee_idx->Some_0
                    < self.categories@.len() {
                    let category = self.categories@[self.add_attendee_idx->Some_0 as int];
                    after.meeting@ == (MeetingView {
                        roster: roster_add(
                            self.meeting@.roster,
                            category@.title,
                            category@.salary,
                            count,
                        ),
                        ..self.meeting@
                    })
                } else {
                    after.meeting == self.meeting
                }
            },
        }
    }

    /// What enter does after a file name was typed: the attendees are to be
    /// saved under the name, without the white space around it, and the
    /// console returns to the view.
    pub open spec fn file_name_entered(self, after: Console, action: Action) -> bool {
        &&& after == (Console { mode: Mode::View, ..self })
        &&& action matches Action::Save { name, attendees } && name@ == trimmed(self.input_text@)
            && snapshot_of(attendees@, self.meeting@.roster)
    }

    /// What a key does while the user chooses a category to delete: up and
    /// down move the choice, enter deletes every category with the title of
    /// the chosen one, and enter and escape return to the view.
    pub open spec fn delete_key(self, key: Key, after: Console, action: Action) -> bool {
        &&& action is Nothing
        &&& match key {
            Key::Up => after == (Console { selected: step_up(self.selected), ..self }),
            Key::Down => after == (Console {
                selected: step_down(self.selected, self.categories@.len() as int),
                ..self
            }),
            Key::Enter => {
                &&& after.with_categories(self.categories) == (Console { mode: Mode::View, ..self })
                &&& after.categories@ == if self.selected < self.categories@.len() {
                    without_title(
                        self.categories@,
                        self.categories@[self.selected as int]@.title,
                        self.categories@.len() as int,
                    )
                } else {
                    self.categories@
                }
            },
            Key::Esc => after == (Console { mode: Mode::View, ..self }),
            _ => after == self,
        }
    }

    /// What a key does while the user chooses the category of attendees to
    /// add: up and down move the choice, enter keeps it and asks for the
    /// count, escape returns to the view.
    pub open spec fn select_key(self, key: Key, after: Console, action: Action) -> bool {
        &&& action is Nothing
        &&& match key {
            Key::Up => after == (Console { selected: step_up(self.selected), ..self }),
            Key::Down => after == (Console {
                selected: step_down(self.selected, self.categories@.len() as int),
                ..self
            }),
            Key::Enter => {
                &&& after.input_text@ == Seq::<char>::empty()
                &&& after.with_input(self.input_text) == (Console {
                    mode: Mode::AddAttendeeCount,
                    add_attendee_idx: Some(self.selected),
                    ..self
                })
            },
            Key::Esc => after == (Console { mode: Mode::View, ..self }),
            _ => after == self,
        }
    }

    /// What a key does while the user chooses attendees to remove: up and
    /// down move the choice in a listing of the roster, enter removes the
    /// category at the chosen place of a listing, and enter and escape return
    /// to the view.
    pub open spec fn remove_key(self, key: Key, after: Console, action: Action) -> bool {
        &&& action is Nothing
        &&& match key {
            Key::Up => after == (Console { selected: step_up(self.selected), ..self }),
            Key::Down => exists|list: Seq<(String, u64, u32)>|
                lists_roster(list, self.meeting@.roster) && after == (Console {
                    selected: step_down(self.selected, list.len() as int),
                    ..self
                }),
            Key::Enter => {
                &&& after.with_meeting(self.meeting) == (Console { mode: Mode::View, ..self })
                &&& exists|list: Seq<(String, u64, u32)>|
                    lists_roster(list, self.meeting@.roster) && if self.selected < list.len() {
                        after.meeting@ == (MeetingView {
                            roster: self.meeting@.roster.remove(list[self.selected as int].0@),
                            ..self.meeting@
                        })
                    } else {
                        after.meeting == self.meeting
                    }
            },
            Key::Esc => after == (Console { mode: Mode::View, ..self }),
            _ => after == self,
        }
    }

    /// What a key does while the user chooses a file to load: up and down
    /// move the choice, enter asks for the chosen file to be loaded, and
    /// enter and escape return to the view.
    pub open spec fn load_key(self, key: Key, after: Console, action: Action) -> bool {
        match key {
            Key::Up => action is Nothing && after == (Console {
                selected: step_up(self.selected),
                ..self
            }),
            Key::Down => action is Nothing && after == (Console {
                selected: step_down(self.selected, self.files@.len() as int),
                ..self
            }),
            Key::Enter => {
                &&& after == (Console { mode: Mode::View, ..self })
                &&& if self.selected < self.files@.len() {
                    action matches Action::Load { name } && name@
                        == self.files@[self.selected as int]@
                } else {
                    action is Nothing
                }
            },
            Key::Esc => action is Nothing && after == (Console { mode: Mode::View, ..self }),
            _ => action is Nothing && after == self,
        }
    }

    /// What a key does to the console, and what it leaves for the caller to
    /// do.
    pub open spec fn handled(self, key: Key, after: Console, action: Action) -> bool {
        match self.mode {
            Mode::View => self.view_key(key, after, action),
            Mode::AddCategory | Mode::AddAttendeeCount | Mode::SaveAttendees => self.entry_key(
                key,
                after,
                action,
            ),
            Mode::DeleteCategory => self.delete_key(key, after, action),
            Mode::AddAttendeeSelect => self.select_key(key, after, action),
            Mode::RemoveAttendee => self.remove_key(key, after, action),
            Mode::LoadAttendees => self.load_key(key, after, action),
        }
    }

    /// Moves the choice one line up.
    fn move_up(&mut self)
        ensures
            *final(self) == (Console { selected: step_up(old(self).selected), ..*old(self) }),
    {
        if self.selected > 0 {
            self.selected -= 1;
        }
    }

    /// Moves the choice one line down in a list of `len` lines.
    fn move_down(&mut self, len: usize)
        ensures
            *final(self) == (Console {
                selected: step_down(old(self).selected, len as int),
                ..*old(self)
            }),
    {
        if self.selected < len && self.selected + 1 < len {
            self.selected += 1;
        }
    }

    /// Handles a key while the user types.
    fn handle_entry_key(&mut self, key: Key) -> (action: Action)
        requires
            old(self).wf(),
            old(self).mode == Mode::AddCategory || old(self).mode == Mode::AddAttendeeCount
                || old(self).mode == Mode::SaveAttendees,
        ensures
            final(self).wf(),
            old(self).entry_key(key, *final(self), action),
    {
        match key {
            Key::Enter => match self.mode {
                Mode::AddCategory => {
                    match parse_category_input(self.input_text.as_str()) {
                        Some(category) => {
                            add_category(&mut self.categories, category);
                        },
                        None => {},
                    }
                    self.mode = Mode::View;
                    Action::Nothing
                },
                Mode::AddAttendeeCount => {
                    match parse_count_input(self.input_text.as_str()) {
                        Some(count) => {
                            let chosen = self.add_attendee_idx;
                            self.add_attendee_idx = None;
                            match chosen {
                                Some(at) => {
                                    if at < self.categories.len() {
                                        self.meeting.add_attendee(&self.categories[at], count);
                                    }
                                },
                                None => {},
                            }
                            self.mode = Mode::View;
                            Action::Nothing
                        },
                        None => Action::Nothing,
                    }
                },
                _ => {
                    let name = trim(self.input_text.as_str()).to_owned();
                    let attendees = snapshot(&self.meeting);
                    self.mode = Mode::View;
                    Action::Save { name, attendees }
                },
            },
            Key::Esc => {
                self.mode = Mode::View;
                Action::Nothing
            },
            Key::Char(c) => {
                push_char(&mut self.input_text, c);
                Action::Nothing
            },
            Key::Backspace => {
                pop_char(&mut self.input_text);
                Action::Nothing
            },
            _ => Action::Nothing,
        }
    }

    /// Handles a key while the user chooses something.
    fn handle_choice_key(&mut self, key: Key) -> (action: Action)
        requires
            old(self).wf(),
            old(self).mode == Mode::DeleteCategory || old(self).mode == Mode::AddAttendeeSelect
                || old(self).mode == Mode::RemoveAttendee || old(self).mode
                == Mode::LoadAttendees,
        ensures
            final(self).wf(),
            old(self).handled(key, *final(self), action),
    {
        match key {
            Key::Up => {
                self.move_up();
                Action::Nothing
            },
            Key::Down => {
                match self.mode {
                    Mode::RemoveAttendee => {
                        let list = self.meeting.attendees();
                        self.move_down(list.len());
                    },
                    Mode::LoadAttendees => {
                        self.move_down(self.files.len());
                    },
                    _ => {
                        self.move_down(self.categories.len());
                    },
                }
                Action::Nothing
            },
            Key::Enter => match self.mode {
                Mode::DeleteCategory => {
                    if self.selected < self.categories.len() {
                        let title = self.categories[self.selected].title().to_owned();
                        remove_category(&mut self.categories, title.as_str());
                    }
                    self.mode = Mode::View;
                    Action::Nothing
                },
                Mode::AddAttendeeSelect => {
                    self.add_attendee_idx = Some(self.selected);
                    self.input_text = String::new();
                    self.mode = Mode::AddAttendeeCount;
                    Action::Nothing
                },
                Mode::RemoveAttendee => {
                    let list = self.meeting.attendees();
                    if self.selected < list.len() {
                        let title = list[self.selected].0.clone();
                        let count = list[self.selected].2;
                        self.meeting.remove_attendee(title.as_str(), count);
                    }
                    self.mode = Mode::View;
                    Action::Nothing
                },
                _ => {
                    let action = if self.selected < self.files.len() {
                        Action::Load { name: self.files[self.selected].clone() }
                    } else {
                        Action::Nothing
                    };
                    self.mode = Mode::View;
                    action
                },
            },
            Key::Esc => {
                self.mode = Mode::View;
                Action::Nothing
            },
            _ => Action::Nothing,
        }
    }

    /// Handles a key: changes the console as the mode asks, and returns what
    /// is left for the caller to do.
    pub fn handle_key(&mut self, key: Key) -> (action: Action)
        requires
            old(self).wf(),
        ensures
            final(self).wf(),
            old(self).handled(key, *final(self), action),
    {
        match self.mode {
            Mode::View => self.handle_view_key(key),
            Mode::AddCategory | Mode::AddAttendeeCount | Mode::SaveAttendees => {
                self.handle_entry_key(key)
            },
            _ => self.handle_choice_key(key),
        }
    }

    /// A console in the view mode, with the given categories and a new
    /// meeting.
    pub fn new(categories: Vec<EmployeeCategory>) -> (console: Self)
        ensures
            console.wf(),
            console.mode == Mode::View,
            console.input_text@ == Seq::<char>::empty(),
            !console.show_salaries,
            console.categories == categories,
            console.meeting@ == initial_view(),
            console.files@ == Seq::<String>::empty(),
            console.selected == 0,
            console.add_attendee_idx is None,
    {
        Console {
            mode: Mode::View,
            input_text: String::new(),
            show_salaries: false,
            categories,
            meeting: Meeting::new(),
            files: Vec::new(),
            selected: 0,
            add_attendee_idx: None,
        }
    }

    /// Whether a key asks to leave the program: `q`, while the user looks at
    /// the meeting.
    pub fn is_quit(&self, key: Key) -> (quit: bool)
        ensures
            quit == (self.mode == Mode::View && key == Key::Char('q')),
    {
        match self.mode {
            Mode::View => match key {
                Key::Char(c) => c == 'q',
                _ => false,
            },
            _ => false,
        }
    }

    /// Takes the names of the files that were found: all of them are attendee
    /// files but the category file.
    pub fn files_listed(&mut self, names: &[String])
        requires
            old(self).wf(),
        ensures
            final(self).wf(),
            final(self).with_files(old(self).files) == *old(self),
            final(self).files@ == attendee_files(names@, names@.len() as int),
    {
        let reserved: String = "categories.toml".to_owned();
        let mut files: Vec<String> = Vec::new();
        let mut i: usize = 0;
        while i < names.len()
            invariant
                i <= names@.len(),
                reserved@ == "categories.toml"@,
                files@ == attendee_files(names@, i as int),
            decreases names@.len() - i,
        {
            if names[i] != reserved {
                files.push(names[i].clone());
            }
            i += 1;
        }
        self.files = files;
    }

    /// Takes the attendees that were loaded: they replace the roster of the
    /// meeting, each with the salary of its category.
    pub fn attendees_loaded(&mut self, entries: &[AttendeeInfo])
        requires
            old(self).wf(),
        ensures
            final(self).wf(),
            final(self).with_meeting(old(self).meeting) == *old(self),
            final(self).meeting@ == (MeetingView {
                roster: restored_roster(
                    attendee_views(entries@),
                    old(self).categories@,
                    entries@.len() as int,
                ),
                ..old(self).meeting@
            }),
    {
        restore(&mut self.meeting, entries, self.categories.as_slice());
    }
}

} // verus!
