//! The screens of the terminal interface and what a key does on each: the home screen's form,
//! the admin's panel of join requests, and the joiner's resend button.
use vstd::prelude::*;
use crate::config::ChatChoice;
use crate::text::{chars_of, decimal_string, decimal_text, same_chars, texts};
use vstd::arithmetic::div_mod::lemma_add_mod_noop_right;

verus! {

/// The screen the interface shows: the chat list, the set-up of a new chat (as its admin, or
/// joining one), a chat, or nothing (the program is quitting).
#[derive(Debug, Clone, Copy, PartialEq, Eq, Structural)]
pub enum Screen {
    Home,
    InitServer,
    InitClient,
    Chat,
    Quit,
}

/// A key as the set-up screens see it: the arrows (up and down with whether control was held),
/// enter, escape, delete, backspace, a character (with whether control was held), or anything
/// else.
#[derive(Debug, Clone, Copy, PartialEq, Eq, Structural)]
pub enum ScreenKey {
    Up(bool),
    Down(bool),
    Left,
    Right,
    Enter,
    Esc,
    Delete,
    Backspace,
    Char(char, bool),
    Other,
}

/// What a key on the home screen asks of the program: nothing, to quit, to delete the selected
/// chat, to open it, to create the chat of the form, or to join through the form's rendezvous.
#[derive(Debug, Clone, Copy, PartialEq, Eq, Structural)]
pub enum HomeAction {
    Nothing,
    Quit,
    DeleteChosen,
    OpenChosen,
    Create,
    Join,
}

/// The home screen: the focused section (0 the chat list, 1 creating a chat, 2 joining one) and
/// field, the three inputs, and the chat marked for deletion (a second press deletes it).
pub struct HomeForm {
    pub section: usize,
    pub field: usize,
    pub chat_name: Vec<char>,
    pub user_name: Vec<char>,
    pub rendezvous: Vec<char>,
    pub marked: Option<usize>,
}

/// What the home screen looks like to a contract.
#[verifier::ext_equal]
pub struct HomeView {
    pub section: int,
    pub field: int,
    pub chat_name: Seq<char>,
    pub user_name: Seq<char>,
    pub rendezvous: Seq<char>,
    pub marked: Option<usize>,
}

impl View for HomeForm {
    type V = HomeView;

    open spec fn view(&self) -> HomeView {
        HomeView {
            section: self.section as int,
            field: self.field as int,
            chat_name: self.chat_name@,
            user_name: self.user_name@,
            rendezvous: self.rendezvous@,
            marked: self.marked,
        }
    }
}

/// The home screen with its focus moved.
pub open spec fn focused(f: HomeView, section: int, field: int) -> HomeView {
    HomeView { section, field, ..f }
}

/// The name a chat is listed under: `user @ chat`.
pub open spec fn combo_name(user: Seq<char>, chat: Seq<char>) -> Seq<char> {
    user + seq![' ', '@', ' '] + chat
}

/// Whether the form names a chat this user already has.
pub open spec fn combo_exists(f: HomeView, listed: Seq<Seq<char>>) -> bool {
    f.chat_name.len() > 0 && f.user_name.len() > 0 && listed.contains(
        combo_name(f.user_name, f.chat_name),
    )
}

/// Whether the chat name can be used: given, and not one of this user's chats.
pub open spec fn chat_name_valid(f: HomeView, listed: Seq<Seq<char>>) -> bool {
    f.chat_name.len() > 0 && !combo_exists(f, listed)
}

/// Focus one step up: within a section, then to the section above (its last field).
pub open spec fn focus_up(f: HomeView) -> HomeView {
    if f.section == 1 && f.field > 0 {
        focused(f, 1, f.field - 1)
    } else if f.section == 1 && f.field == 0 {
        focused(f, 0, f.field)
    } else if f.section == 2 && f.field > 0 {
        focused(f, 2, f.field - 1)
    } else if f.section == 2 && f.field == 0 {
        focused(f, 1, 2)
    } else {
        f
    }
}

/// Focus one step down: within a section, then to the section below (its first field).
pub open spec fn focus_down(f: HomeView) -> HomeView {
    if f.section == 0 {
        focused(f, 1, 0)
    } else if f.section == 1 && f.field < 2 {
        focused(f, 1, f.field + 1)
    } else if f.section == 1 && f.field == 2 {
        focused(f, 2, 0)
    } else if f.section == 2 && f.field < 1 {
        focused(f, 2, f.field + 1)
    } else {
        f
    }
}

/// The input that the focused field edits: 0 the chat name, 1 the user name, 2 the rendezvous
/// (in the join section: 0 the user name, 1 the rendezvous); -1 for none.
pub open spec fn edited_input(f: HomeView) -> int {
    if f.section == 1 && 0 <= f.field <= 2 {
        f.field
    } else if f.section == 2 && 0 <= f.field <= 1 {
        f.field + 1
    } else {
        -1
    }
}

/// The form with the input `which` (see `edited_input`) replaced.
pub open spec fn with_input(f: HomeView, which: int, t: Seq<char>) -> HomeView {
    if which == 0 {
        HomeView { chat_name: t, ..f }
    } else if which == 1 {
        HomeView { user_name: t, ..f }
    } else if which == 2 {
        HomeView { rendezvous: t, ..f }
    } else {
        f
    }
}

/// The input `which` of the form.
pub open spec fn input_of(f: HomeView, which: int) -> Seq<char> {
    if which == 0 {
        f.chat_name
    } else if which == 1 {
        f.user_name
    } else {
        f.rendezvous
    }
}

/// What a key does on the home screen, with `listed` the chats (by section name), `choice` the
/// selected one, and `rendezvous_ok` whether the rendezvous input reads as a socket address.
/// Control-q quits; the arrows (or `j`/`k` on the list or with control) move the focus; on the
/// list, left/right (`h`/`l`) select the previous/next chat cyclically, delete keys mark the
/// selected chat and, when it is marked, delete it, escape unmarks and enter opens the
/// selection; in the forms enter steps to the next field while the current one is valid and on
/// the last one creates or joins when all are; characters and backspace edit the focused input.
pub open spec fn home_stepped(
    f: HomeView,
    listed: Seq<Seq<char>>,
    choice: int,
    key: ScreenKey,
    rendezvous_ok: bool,
) -> (HomeView, int, HomeAction) {
    let list = f.section == 0;
    let user_valid = f.user_name.len() > 0;
    let rendezvous_valid = f.rendezvous.len() > 0 && rendezvous_ok;
    let chat_valid = chat_name_valid(f, listed);
    let count = listed.len() as int;
    match key {
        ScreenKey::Char(c, ctrl) => {
            if c == 'q' && ctrl {
                (f, choice, HomeAction::Quit)
            } else if c == 'k' && (list || ctrl) {
                (focus_up(f), choice, HomeAction::Nothing)
            } else if c == 'j' && (list || ctrl) {
                (focus_down(f), choice, HomeAction::Nothing)
            } else if list && c == 'h' {
                (f, previous_choice(choice, count), HomeAction::Nothing)
            } else if list && c == 'l' {
                (f, next_choice(choice, count), HomeAction::Nothing)
            } else if list && (c == 'X' || c == 'd') {
                marked_press(f, choice)
            } else if f.section == 1 || f.section == 2 {
                let which = edited_input(f);
                if which >= 0 {
                    (with_input(f, which, input_of(f, which).push(c)), choice, HomeAction::Nothing)
                } else {
                    (f, choice, HomeAction::Nothing)
                }
            } else {
                (f, choice, HomeAction::Nothing)
            }
        },
        ScreenKey::Up(_) => (focus_up(f), choice, HomeAction::Nothing),
        ScreenKey::Down(_) => (focus_down(f), choice, HomeAction::Nothing),
        ScreenKey::Left => {
            if list {
                (f, previous_choice(choice, count), HomeAction::Nothing)
            } else {
                (f, choice, HomeAction::Nothing)
            }
        },
        ScreenKey::Right => {
            if list {
                (f, next_choice(choice, count), HomeAction::Nothing)
            } else {
                (f, choice, HomeAction::Nothing)
            }
        },
        ScreenKey::Delete => {
            if list {
                marked_press(f, choice)
            } else {
                (f, choice, HomeAction::Nothing)
            }
        },
        ScreenKey::Backspace => {
            if list {
                marked_press(f, choice)
            } else {
                let which = edited_input(f);
                if which >= 0 {
                    (with_input(f, which, drop_last_or_empty(input_of(f, which))), choice, HomeAction::Nothing)
                } else {
                    (f, choice, HomeAction::Nothing)
                }
            }
        },
        ScreenKey::Esc => {
            if list {
                (HomeView { marked: None, ..f }, choice, HomeAction::Nothing)
            } else {
                (f, choice, HomeAction::Nothing)
            }
        },
        ScreenKey::Enter => {
            if list {
                if 0 <= choice < count {
                    (HomeView { marked: None, ..f }, choice, HomeAction::OpenChosen)
                } else {
                    (f, choice, HomeAction::Nothing)
                }
            } else if f.section == 1 {
                if f.field == 0 && chat_valid {
                    (focused(f, 1, 1), choice, HomeAction::Nothing)
                } else if f.field == 1 && user_valid {
                    (focused(f, 1, 2), choice, HomeAction::Nothing)
                } else if f.field == 2 && rendezvous_valid && chat_valid && user_valid {
                    (f, choice, HomeAction::Create)
                } else {
                    (f, choice, HomeAction::Nothing)
                }
            } else if f.section == 2 {
                if f.field == 0 && user_valid {
                    (focused(f, 2, 1), choice, HomeAction::Nothing)
                } else if f.field == 1 && rendezvous_valid && user_valid {
                    (f, choice, HomeAction::Join)
                } else {
                    (f, choice, HomeAction::Nothing)
                }
            } else {
                (f, choice, HomeAction::Nothing)
            }
        },
        ScreenKey::Other => (f, choice, HomeAction::Nothing),
    }
}

/// The selection one back, wrapping to the last chat.
pub open spec fn previous_choice(choice: int, count: int) -> int {
    if choice > 0 {
        choice - 1
    } else if count > 0 {
        count - 1
    } else {
        choice
    }
}

/// The selection one on, wrapping to the first chat.
pub open spec fn next_choice(choice: int, count: int) -> int {
    if count > 0 {
        (choice + 1) % count
    } else {
        choice
    }
}

/// A delete key on the list: a marked selection is deleted (and the mark dropped), else the
/// selection is marked.
pub open spec fn marked_press(f: HomeView, choice: int) -> (HomeView, int, HomeAction) {
    if f.marked == Some(choice as usize) && 0 <= choice <= usize::MAX {
        (HomeView { marked: None, ..f }, choice, HomeAction::DeleteChosen)
    } else {
        (HomeView { marked: Some(choice as usize), ..f }, choice, HomeAction::Nothing)
    }
}

/// A text without its last character, if it has one (`String::pop`).
pub open spec fn drop_last_or_empty(t: Seq<char>) -> Seq<char> {
    if t.len() > 0 {
        t.drop_last()
    } else {
        t
    }
}


/// Whether `name` is one of the `listed` texts.
fn is_listed(listed: &Vec<String>, name: &Vec<char>) -> (res: bool)
    ensures
        res == texts(listed@).contains(name@),
{
    let mut i: usize = 0;
    while i < listed.len()
        invariant
            i <= listed@.len(),
            forall|j: int| 0 <= j < i ==> texts(listed@)[j] != name@,
        decreases listed@.len() - i,
    {
        let item = chars_of(listed[i].as_str());
        assert(item@.subrange(0, item@.len() as int) =~= item@);
        if same_chars(&item, 0, item.len(), name) {
            assert(texts(listed@)[i as int] == name@);
            return true;
        }
        i = i + 1;
    }
    false
}

impl HomeForm {
    /// The home screen as it opens: the chat list focused, the inputs empty, nothing marked.
    pub fn new() -> (f: HomeForm)
        ensures
            f@ == (HomeView {
                section: 0,
                field: 0,
                chat_name: Seq::empty(),
                user_name: Seq::empty(),
                rendezvous: Seq::empty(),
                marked: None,
            }),
    {
        HomeForm {
            section: 0,
            field: 0,
            chat_name: Vec::new(),
            user_name: Vec::new(),
            rendezvous: Vec::new(),
            marked: None,
        }
    }

    /// Whether the form names a chat this user already has (see `combo_exists`).
    pub fn combo_taken(&self, listed: &Vec<String>) -> (res: bool)
        ensures
            res == combo_exists(self@, texts(listed@)),
    {
        if self.chat_name.len() == 0 || self.user_name.len() == 0 {
            return false;
        }
        let mut name: Vec<char> = Vec::new();
        let mut i: usize = 0;
        while i < self.user_name.len()
            invariant
                i <= self.user_name@.len(),
                name@ == self.user_name@.take(i as int),
            decreases self.user_name@.len() - i,
        {
            name.push(self.user_name[i]);
            i = i + 1;
            assert(name@ =~= self.user_name@.take(i as int));
        }
        name.push(' ');
        name.push('@');
        name.push(' ');
        let ghost head = name@;
        let mut j: usize = 0;
        while j < self.chat_name.len()
            invariant
                j <= self.chat_name@.len(),
                name@ == head + self.chat_name@.take(j as int),
            decreases self.chat_name@.len() - j,
        {
            name.push(self.chat_name[j]);
            j = j + 1;
            assert(name@ =~= head + self.chat_name@.take(j as int));
        }
        assert(self.user_name@.take(i as int) =~= self.user_name@);
        assert(self.chat_name@.take(j as int) =~= self.chat_name@);
        assert(name@ =~= combo_name(self.user_name@, self.chat_name@));
        is_listed(listed, &name)
    }

    /// Whether the chat name can be used (see `chat_name_valid`).
    pub fn chat_name_ok(&self, listed: &Vec<String>) -> (res: bool)
        ensures
            res == chat_name_valid(self@, texts(listed@)),
    {
        self.chat_name.len() > 0 && !self.combo_taken(listed)
    }

    /// Focus one step up (see `focus_up`).
    fn up(&mut self)
        ensures
            final(self)@ == focus_up(old(self)@),
    {
        if self.section == 1 && self.field > 0 {
            self.field = self.field - 1;
        } else if self.section == 1 && self.field == 0 {
            self.section = 0;
        } else if self.section == 2 && self.field > 0 {
            self.field = self.field - 1;
        } else if self.section == 2 && self.field == 0 {
            self.section = 1;
            self.field = 2;
        }
    }

    /// Focus one step down (see `focus_down`).
    fn down(&mut self)
        ensures
            final(self)@ == focus_down(old(self)@),
    {
        if self.section == 0 {
            self.section = 1;
            self.field = 0;
        } else if self.section == 1 && self.field < 2 {
            self.field = self.field + 1;
        } else if self.section == 1 && self.field == 2 {
            self.section = 2;
            self.field = 0;
        } else if self.section == 2 && self.field < 1 {
            self.field = self.field + 1;
        }
    }

    /// A delete key on the list (see `marked_press`).
    fn press_delete(&mut self, choice: usize) -> (act: HomeAction)
        ensures
            (final(self)@, choice as int, act) == marked_press(old(self)@, choice as int),
    {
        if self.marked == Some(choice) {
            self.marked = None;
            HomeAction::DeleteChosen
        } else {
            self.marked = Some(choice);
            HomeAction::Nothing
        }
    }

    /// Types `c` into the focused input (see `edited_input`).
    fn type_char(&mut self, c: char)
        ensures
            edited_input(old(self)@) >= 0 ==> final(self)@ == with_input(
                old(self)@,
                edited_input(old(self)@),
                input_of(old(self)@, edited_input(old(self)@)).push(c),
            ),
            edited_input(old(self)@) < 0 ==> final(self)@ == old(self)@,
    {
        if self.section == 1 && self.field == 0 {
            self.chat_name.push(c);
        } else if (self.section == 1 && self.field == 1) || (self.section == 2 && self.field == 0) {
            self.user_name.push(c);
        } else if (self.section == 1 && self.field == 2) || (self.section == 2 && self.field == 1) {
            self.rendezvous.push(c);
        }
    }

    /// Removes the last character of the focused input, if any (see `edited_input`).
    fn erase_char(&mut self)
        ensures
            edited_input(old(self)@) >= 0 ==> final(self)@ == with_input(
                old(self)@,
                edited_input(old(self)@),
                drop_last_or_empty(input_of(old(self)@, edited_input(old(self)@))),
            ),
            edited_input(old(self)@) < 0 ==> final(self)@ == old(self)@,
    {
        if self.section == 1 && self.field == 0 {
            self.chat_name.pop();
        } else if (self.section == 1 && self.field == 1) || (self.section == 2 && self.field == 0) {
            self.user_name.pop();
        } else if (self.section == 1 && self.field == 2) || (self.section == 2 && self.field == 1) {
            self.rendezvous.pop();
        }
    }

    /// What a key does on the home screen (see `home_stepped`); the selection of `chats` moves
    /// with the list keys, its chats stay.
    pub fn key(&mut self, chats: &mut ChatChoice, key: ScreenKey, rendezvous_ok: bool) -> (act: HomeAction)
        ensures
            final(chats).available@ == old(chats).available@,
            (final(self)@, final(chats).choice as int, act) == home_stepped(
                old(self)@,
                texts(old(chats).available@),
                old(chats).choice as int,
                key,
                rendezvous_ok,
            ),
    {
        let list = self.section == 0;
        let count = chats.available.len();
        let choice = chats.choice;
        match key {
            ScreenKey::Char(c, ctrl) => {
                if c == 'q' && ctrl {
                    HomeAction::Quit
                } else if c == 'k' && (list || ctrl) {
                    self.up();
                    HomeAction::Nothing
                } else if c == 'j' && (list || ctrl) {
                    self.down();
                    HomeAction::Nothing
                } else if list && c == 'h' {
                    chats.choice = previous(choice, count);
                    HomeAction::Nothing
                } else if list && c == 'l' {
                    chats.choice = next(choice, count);
                    HomeAction::Nothing
                } else if list && (c == 'X' || c == 'd') {
                    self.press_delete(choice)
                } else if self.section == 1 || self.section == 2 {
                    self.type_char(c);
                    HomeAction::Nothing
                } else {
                    HomeAction::Nothing
                }
            },
            ScreenKey::Up(_) => {
                self.up();
                HomeAction::Nothing
            },
            ScreenKey::Down(_) => {
                self.down();
                HomeAction::Nothing
            },
            ScreenKey::Left => {
                if list {
                    chats.choice = previous(choice, count);
                }
                HomeAction::Nothing
            },
            ScreenKey::Right => {
                if list {
                    chats.choice = next(choice, count);
                }
                HomeAction::Nothing
            },
            ScreenKey::Delete => {
                if list {
                    self.press_delete(choice)
                } else {
                    HomeAction::Nothing
                }
            },
            ScreenKey::Backspace => {
                if list {
                    self.press_delete(choice)
                } else {
                    self.erase_char();
                    HomeAction::Nothing
                }
            },
            ScreenKey::Esc => {
                if list {
                    self.marked = None;
                }
                HomeAction::Nothing
            },
            ScreenKey::Enter => {
                if list {
                    if choice < count {
                        self.marked = None;
                        HomeAction::OpenChosen
                    } else {
                        HomeAction::Nothing
                    }
                } else if self.section == 1 {
                    let chat_valid = self.chat_name_ok(&chats.available);
                    let user_valid = self.user_name.len() > 0;
                    let rendezvous_valid = self.rendezvous.len() > 0 && rendezvous_ok;
                    if self.field == 0 && chat_valid {
                        self.field = 1;
                        HomeAction::Nothing
                    } else if self.field == 1 && user_valid {
                        self.field = 2;
                        HomeAction::Nothing
                    } else if self.field == 2 && rendezvous_valid && chat_valid && user_valid {
                        HomeAction::Create
                    } else {
                        HomeAction::Nothing
                    }
                } else if self.section == 2 {
                    let user_valid = self.user_name.len() > 0;
                    let rendezvous_valid = self.rendezvous.len() > 0 && rendezvous_ok;
                    if self.field == 0 && user_valid {
                        self.field = 1;
                        HomeAction::Nothing
                    } else if self.field == 1 && rendezvous_valid && user_valid {
                        HomeAction::Join
                    } else {
                        HomeAction::Nothing
                    }
                } else {
                    HomeAction::Nothing
                }
            },
            ScreenKey::Other => HomeAction::Nothing,
        }
    }
}

/// The selection one back (see `previous_choice`).
fn previous(choice: usize, count: usize) -> (res: usize)
    ensures
        res == previous_choice(choice as int, count as int),
{
    if choice > 0 {
        choice - 1
    } else if count > 0 {
        count - 1
    } else {
        choice
    }
}

/// The selection one on (see `next_choice`).
fn next(choice: usize, count: usize) -> (res: usize)
    ensures
        res == next_choice(choice as int, count as int),
{
    if count > 0 {
        proof {
            lemma_add_mod_noop_right(1, choice as int, count as int);
        }
        (choice % count + 1) % count
    } else {
        choice
    }
}

/// The admin's panel of join requests: the focused section (0 the members, 1 the requests, 2 the
/// button back to the chat), whether the accept (else the delete) button of the focused request
/// is chosen, and the focused request.
#[derive(Debug, Clone, Copy, PartialEq, Eq, Structural)]
pub struct RequestPanel {
    pub section: usize,
    pub accept: bool,
    pub index: usize,
}

/// What a key on the admin's panel asks of the program: nothing, to go to the chat, or to
/// answer the request at an index (accepting it, or not).
#[derive(Debug, Clone, Copy, PartialEq, Eq, Structural)]
pub enum PanelAction {
    Nothing,
    ToChat,
    Answer(usize, bool),
}

/// What a key does on the admin's panel, with `count` requests waiting. `q`, or control-a, goes
/// to the chat; in the requests `k`/`j` (or the arrows, without control) move between them and
/// `h`/`l` (or left/right) choose accept or delete; with control, `k`/`j` (or the arrows) move
/// between the sections; enter answers the focused request, or on the button goes to the chat.
pub open spec fn panel_stepped(p: RequestPanel, count: int, key: ScreenKey) -> (RequestPanel, PanelAction) {
    let on_requests = p.section == 1;
    let up = match key {
        ScreenKey::Char(c, ctrl) => c == 'k' && !ctrl,
        ScreenKey::Up(ctrl) => !ctrl,
        _ => false,
    };
    let down = match key {
        ScreenKey::Char(c, ctrl) => c == 'j' && !ctrl,
        ScreenKey::Down(ctrl) => !ctrl,
        _ => false,
    };
    let section_up = match key {
        ScreenKey::Char(c, ctrl) => c == 'k' && ctrl,
        ScreenKey::Up(ctrl) => ctrl,
        _ => false,
    };
    let section_down = match key {
        ScreenKey::Char(c, ctrl) => c == 'j' && ctrl,
        ScreenKey::Down(ctrl) => ctrl,
        _ => false,
    };
    let to_accept = key == ScreenKey::Left || (key matches ScreenKey::Char(c, _) && c == 'h');
    let to_delete = key == ScreenKey::Right || (key matches ScreenKey::Char(c, _) && c == 'l');
    if key matches ScreenKey::Char(c, ctrl) && ((ctrl && c == 'a') || c == 'q') {
        (p, PanelAction::ToChat)
    } else if up && on_requests {
        (RequestPanel { index: if p.index > 0 { (p.index - 1) as usize } else { p.index }, ..p }, PanelAction::Nothing)
    } else if down && on_requests {
        (RequestPanel { index: if p.index + 1 < count { (p.index + 1) as usize } else { p.index }, ..p }, PanelAction::Nothing)
    } else if to_accept && on_requests {
        (RequestPanel { accept: true, ..p }, PanelAction::Nothing)
    } else if to_delete && on_requests {
        (RequestPanel { accept: false, ..p }, PanelAction::Nothing)
    } else if section_up && p.section > 0 {
        (RequestPanel { section: (p.section - 1) as usize, ..p }, PanelAction::Nothing)
    } else if section_down && p.section < 2 {
        (RequestPanel { section: (p.section + 1) as usize, ..p }, PanelAction::Nothing)
    } else if key == ScreenKey::Enter && on_requests {
        if p.index < count {
            (p, PanelAction::Answer(p.index, p.accept))
        } else {
            (p, PanelAction::Nothing)
        }
    } else if key == ScreenKey::Enter && p.section == 2 {
        (p, PanelAction::ToChat)
    } else {
        (p, PanelAction::Nothing)
    }
}

impl RequestPanel {
    /// The panel as it opens: the button back to the chat focused, accept chosen, the first
    /// request.
    pub fn new() -> (p: RequestPanel)
        ensures
            p == (RequestPanel { section: 2, accept: false, index: 0 }),
    {
        RequestPanel { section: 2, accept: false, index: 0 }
    }

    /// What a key does on the panel (see `panel_stepped`).
    pub fn key(&mut self, count: usize, key: ScreenKey) -> (act: PanelAction)
        ensures
            (*final(self), act) == panel_stepped(*old(self), count as int, key),
    {
        let on_requests = self.section == 1;
        let (up, down, section_up, section_down) = match key {
            ScreenKey::Char(c, ctrl) => (c == 'k' && !ctrl, c == 'j' && !ctrl, c == 'k' && ctrl, c == 'j' && ctrl),
            ScreenKey::Up(ctrl) => (!ctrl, false, ctrl, false),
            ScreenKey::Down(ctrl) => (false, !ctrl, false, ctrl),
            _ => (false, false, false, false),
        };
        let (to_chat, to_accept, to_delete) = match key {
            ScreenKey::Char(c, ctrl) => ((ctrl && c == 'a') || c == 'q', c == 'h', c == 'l'),
            ScreenKey::Left => (false, true, false),
            ScreenKey::Right => (false, false, true),
            _ => (false, false, false),
        };
        let enter = match key {
            ScreenKey::Enter => true,
            _ => false,
        };
        if to_chat {
            PanelAction::ToChat
        } else if up && on_requests {
            if self.index > 0 {
                self.index = self.index - 1;
            }
            PanelAction::Nothing
        } else if down && on_requests {
            if self.index < count && count - self.index > 1 {
                self.index = self.index + 1;
            }
            PanelAction::Nothing
        } else if to_accept && on_requests {
            self.accept = true;
            PanelAction::Nothing
        } else if to_delete && on_requests {
            self.accept = false;
            PanelAction::Nothing
        } else if section_up && self.section > 0 {
            self.section = self.section - 1;
            PanelAction::Nothing
        } else if section_down && self.section < 2 {
            self.section = self.section + 1;
            PanelAction::Nothing
        } else if enter && on_requests {
            if self.index < count {
                PanelAction::Answer(self.index, self.accept)
            } else {
                PanelAction::Nothing
            }
        } else if enter && self.section == 2 {
            PanelAction::ToChat
        } else {
            PanelAction::Nothing
        }
    }

    /// After a request was answered and dropped, with `remaining` left: the focus steps back
    /// when it is past the last one.
    pub fn answered(&mut self, remaining: usize)
        ensures
            final(self).section == old(self).section,
            final(self).accept == old(self).accept,
            final(self).index == (if old(self).index > 0 && old(self).index >= remaining {
                old(self).index - 1
            } else {
                old(self).index as int
            }),
    {
        if self.index > 0 && self.index >= remaining {
            self.index = self.index - 1;
        }
    }
}

/// The pause before the joiner's request can be sent again, after `sent` sends: 3, 6 and 9
/// seconds, then 30, in a cycle of four.
pub open spec fn resend_pause(sent: int) -> int {
    if sent % 4 == 3 {
        30
    } else {
        3 * (sent % 4 + 1)
    }
}

/// The joiner's resend button: when (in milliseconds of the program's clock) it works again,
/// and how many times the request was sent again.
#[derive(Debug, Clone, Copy, PartialEq, Eq, Structural)]
pub struct ResendTimer {
    pub ready_at: u64,
    pub sent: u64,
}

impl ResendTimer {
    /// A button that works at once.
    pub fn new() -> (t: ResendTimer)
        ensures
            t == (ResendTimer { ready_at: 0, sent: 0 }),
    {
        ResendTimer { ready_at: 0, sent: 0 }
    }

    /// Whether the button works at `now`.
    pub fn ready(&self, now: u64) -> (res: bool)
        ensures
            res == (now >= self.ready_at),
    {
        now >= self.ready_at
    }

    /// A press at `now`: when the button works, the request goes out again (the result) and the
    /// button rests for the next pause (see `resend_pause`); otherwise nothing happens.
    pub fn press(&mut self, now: u64) -> (resend: bool)
        ensures
            resend == (now >= old(self).ready_at),
            resend ==> final(self).sent == (old(self).sent + 1) % 0x1_0000_0000_0000_0000
                && final(self).ready_at == (if now + resend_pause(old(self).sent as int) * 1000
                <= u64::MAX {
                now + resend_pause(old(self).sent as int) * 1000
            } else {
                u64::MAX as int
            }),
            !resend ==> *final(self) == *old(self),
    {
        if now < self.ready_at {
            return false;
        }
        let step = self.sent % 4;
        let pause: u64 = if step == 3 {
            30
        } else {
            3 * (step + 1)
        };
        self.ready_at = now.saturating_add(pause * 1000);
        self.sent = self.sent.wrapping_add(1);
        true
    }
}

/// The separator before the name at `i` of `n`: " and " before the last, else ", ".
pub open spec fn name_separator(i: int, n: int) -> Seq<char> {
    if i == n - 1 {
        seq![' ', 'a', 'n', 'd', ' ']
    } else {
        seq![',', ' ']
    }
}

/// The first `i` of the names, separated (see `name_separator`).
pub open spec fn listed_names(names: Seq<Seq<char>>, i: int) -> Seq<char>
    decreases i,
{
    if i <= 0 {
        Seq::empty()
    } else if i == 1 {
        names[0]
    } else {
        listed_names(names, i - 1) + name_separator(i - 1, names.len() as int) + names[i - 1]
    }
}

/// The typing indicator: the names, separated, then " is typing" (one name) or " are typing".
pub open spec fn typing_text(names: Seq<Seq<char>>) -> Seq<char> {
    listed_names(names, names.len() as int) + if names.len() == 1 {
        seq![' ', 'i', 's', ' ', 't', 'y', 'p', 'i', 'n', 'g']
    } else {
        seq![' ', 'a', 'r', 'e', ' ', 't', 'y', 'p', 'i', 'n', 'g']
    }
}

/// Appends the characters of `t` to `out`.
fn push_all(out: &mut Vec<char>, t: &Vec<char>)
    ensures
        final(out)@ == old(out)@ + t@,
{
    let mut i: usize = 0;
    while i < t.len()
        invariant
            i <= t@.len(),
            out@ == old(out)@ + t@.take(i as int),
        decreases t@.len() - i,
    {
        out.push(t[i]);
        i = i + 1;
        assert(out@ =~= old(out)@ + t@.take(i as int));
    }
    assert(t@.take(i as int) =~= t@);
}

/// The typing indicator for the peers who are typing (see `typing_text`).
pub fn typing_line(names: &Vec<String>) -> (res: Vec<char>)
    ensures
        res@ == typing_text(texts(names@)),
{
    let ghost all = texts(names@);
    let n = names.len();
    let mut out: Vec<char> = Vec::new();
    let mut i: usize = 0;
    while i < n
        invariant
            n == names@.len(),
            all == texts(names@),
            i <= n,
            out@ == listed_names(all, i as int),
        decreases n - i,
    {
        let name = chars_of(names[i].as_str());
        if i > 0 {
            let sep = if i == n - 1 {
                vec![' ', 'a', 'n', 'd', ' ']
            } else {
                vec![',', ' ']
            };
            assert(sep@ == name_separator(i as int, n as int));
            push_all(&mut out, &sep);
        } else {
            assert(out@ =~= Seq::<char>::empty());
        }
        push_all(&mut out, &name);
        i = i + 1;
    }
    let tail = if n == 1 {
        vec![' ', 'i', 's', ' ', 't', 'y', 'p', 'i', 'n', 'g']
    } else {
        vec![' ', 'a', 'r', 'e', ' ', 't', 'y', 'p', 'i', 'n', 'g']
    };
    push_all(&mut out, &tail);
    out
}

/// The status line of a chat, by priority: who is typing; nothing while the user types; for an
/// admin, how many join requests wait ("1 request waiting", "2 requests waiting"); "connected
/// to peers" once every peer is reached and synced; else nothing.
pub open spec fn status_text(typing: Seq<Seq<char>>, typing_own: bool, admin_waiting: nat, synced: bool) -> Seq<char> {
    if typing.len() > 0 {
        typing_text(typing)
    } else if typing_own {
        Seq::empty()
    } else if admin_waiting > 0 {
        decimal_text(admin_waiting) + seq![' ', 'r', 'e', 'q', 'u', 'e', 's', 't'] + (if admin_waiting == 1 {
            Seq::empty()
        } else {
            seq!['s']
        }) + seq![' ', 'w', 'a', 'i', 't', 'i', 'n', 'g']
    } else if synced {
        seq!['c', 'o', 'n', 'n', 'e', 'c', 't', 'e', 'd', ' ', 't', 'o', ' ', 'p', 'e', 'e', 'r', 's']
    } else {
        Seq::empty()
    }
}

/// The status line of a chat (see `status_text`), with `admin_waiting` the join requests that
/// wait for an admin (0 for a member).
pub fn status_line(typing: &Vec<String>, typing_own: bool, admin_waiting: u64, synced: bool) -> (res: Vec<char>)
    ensures
        res@ == status_text(texts(typing@), typing_own, admin_waiting as nat, synced),
{
    if typing.len() > 0 {
        typing_line(typing)
    } else if typing_own {
        Vec::new()
    } else if admin_waiting > 0 {
        let count = decimal_string(admin_waiting);
        let mut out = chars_of(count.as_str());
        let mut tail = vec![' ', 'r', 'e', 'q', 'u', 'e', 's', 't'];
        if admin_waiting != 1 {
            tail.push('s');
        }
        tail.push(' ');
        tail.push('w');
        tail.push('a');
        tail.push('i');
        tail.push('t');
        tail.push('i');
        tail.push('n');
        tail.push('g');
        push_all(&mut out, &tail);
        assert(out@ =~= status_text(texts(typing@), typing_own, admin_waiting as nat, synced));
        out
    } else if synced {
        let out = vec!['c', 'o', 'n', 'n', 'e', 'c', 't', 'e', 'd', ' ', 't', 'o', ' ', 'p', 'e', 'e', 'r', 's'];
        assert(out@ =~= status_text(texts(typing@), typing_own, admin_waiting as nat, synced));
        out
    } else {
        Vec::new()
    }
}

/// What the typing indicator falls back to when the names do not fit: "`n` ppl are typing".
pub fn crowd_line(n: u64) -> (res: Vec<char>)
    ensures
        res@ == decimal_text(n as nat) + seq![' ', 'p', 'p', 'l', ' ', 'a', 'r', 'e', ' ', 't', 'y', 'p', 'i', 'n', 'g'],
{
    let count = decimal_string(n);
    let mut out = chars_of(count.as_str());
    let tail = vec![' ', 'p', 'p', 'l', ' ', 'a', 'r', 'e', ' ', 't', 'y', 'p', 'i', 'n', 'g'];
    push_all(&mut out, &tail);
    out
}

/// Whether the focus is on a field of the home screen: the list, one of the three fields of
/// the create section, or one of the two of the join section.
pub open spec fn in_form(f: HomeView) -> bool {
    (f.section == 0 && f.field == 0) || (f.section == 1 && 0 <= f.field <= 2) || (f.section == 2 && 0
        <= f.field <= 1)
}

/// No key moves the focus off the home screen's fields.
pub proof fn law_focus_stays_in_form(
    f: HomeView,
    listed: Seq<Seq<char>>,
    choice: int,
    key: ScreenKey,
    rendezvous_ok: bool,
)
    requires
        in_form(f),
    ensures
        in_form(home_stepped(f, listed, choice, key, rendezvous_ok).0),
{
}

/// Where a field stands in the home screen's order, top to bottom: the list, the three fields
/// of the create section, the two of the join section.
pub open spec fn form_position(f: HomeView) -> int {
    if f.section == 0 {
        0
    } else if f.section == 1 {
        1 + f.field
    } else {
        4 + f.field
    }
}

/// The up and down keys walk the home screen's fields in their order, one step at a time:
/// up goes to the field just above (staying on the list at the top), down to the field just
/// below (staying on the last field at the bottom); the inputs are untouched. Each field has
/// its own place in the order, so every field is reached from every other by these keys.
pub proof fn law_focus_walks_the_form(
    f: HomeView,
    g: HomeView,
    listed: Seq<Seq<char>>,
    choice: int,
    ctrl: bool,
    rendezvous_ok: bool,
)
    requires
        in_form(f),
        in_form(g),
    ensures
        ({
            let (u, uc, ua) = home_stepped(f, listed, choice, ScreenKey::Up(ctrl), rendezvous_ok);
            let (d, dc, da) = home_stepped(f, listed, choice, ScreenKey::Down(ctrl), rendezvous_ok);
            &&& in_form(u) && in_form(d)
            &&& form_position(u) == (if form_position(f) > 0 { form_position(f) - 1 } else { 0 })
            &&& form_position(d) == (if form_position(f) < 5 { form_position(f) + 1 } else { 5 })
            &&& u.chat_name == f.chat_name && u.user_name == f.user_name && u.rendezvous == f.rendezvous
            &&& d.chat_name == f.chat_name && d.user_name == f.user_name && d.rendezvous == f.rendezvous
            &&& uc == choice && dc == choice && ua == HomeAction::Nothing && da == HomeAction::Nothing
        }),
        0 <= form_position(f) <= 5,
        form_position(f) == form_position(g) ==> f.section == g.section && f.field == g.field,
{
}

/// With `count` requests waiting and the requests focused, up (`k` or the arrow, without
/// control) moves to the previous request and down (`j` or the arrow) to the next, each
/// staying put at its end; neither changes the section or the chosen button. Down then up,
/// or up then down, comes back to the same request.
pub proof fn law_requests_up_and_down(p: RequestPanel, count: int, up: ScreenKey, down: ScreenKey)
    requires
        0 <= count <= usize::MAX,
        p.section == 1,
        up == ScreenKey::Up(false) || up == ScreenKey::Char('k', false),
        down == ScreenKey::Down(false) || down == ScreenKey::Char('j', false),
    ensures
        ({
            let (u, ua) = panel_stepped(p, count, up);
            let (d, da) = panel_stepped(p, count, down);
            &&& ua == PanelAction::Nothing && da == PanelAction::Nothing
            &&& u.section == p.section && u.accept == p.accept && d.section == p.section && d.accept == p.accept
            &&& p.index > 0 ==> u.index == p.index - 1
            &&& p.index == 0 ==> u.index == 0
            &&& p.index + 1 < count ==> d.index == p.index + 1
            &&& p.index + 1 >= count ==> d.index == p.index
        }),
        p.index + 1 < count ==> panel_stepped(panel_stepped(p, count, down).0, count, up).0 == p,
        0 < p.index < count ==> panel_stepped(panel_stepped(p, count, up).0, count, down).0 == p,
{
    if up == ScreenKey::Up(false) {
        assert(up matches ScreenKey::Up(ctrl) && !ctrl);
    } else {
        assert(up matches ScreenKey::Char(c, ctrl) && c == 'k' && !ctrl);
    }
    if down == ScreenKey::Down(false) {
        assert(down matches ScreenKey::Down(ctrl) && !ctrl);
    } else {
        assert(down matches ScreenKey::Char(c, ctrl) && c == 'j' && !ctrl);
    }
}

/// On the chat list, with a chat selected among `listed`: right (`l`) and left (`h`) select the
/// next and previous chat, wrapping around at the ends, and each undoes the other; a first
/// delete key marks the selection and a second one deletes it; enter opens it.
pub proof fn law_list_keys(f: HomeView, listed: Seq<Seq<char>>, choice: int, rendezvous_ok: bool)
    requires
        f.section == 0,
        0 <= choice < listed.len(),
        listed.len() <= usize::MAX,
    ensures
        ({
            let n = listed.len() as int;
            let r = home_stepped(f, listed, choice, ScreenKey::Right, rendezvous_ok).1;
            let l = home_stepped(f, listed, choice, ScreenKey::Left, rendezvous_ok).1;
            &&& r == (if choice + 1 < n { choice + 1 } else { 0 })
            &&& l == (if choice > 0 { choice - 1 } else { n - 1 })
            &&& home_stepped(f, listed, r, ScreenKey::Left, rendezvous_ok).1 == choice
            &&& home_stepped(f, listed, l, ScreenKey::Right, rendezvous_ok).1 == choice
        }),
        ({
            let (m, mc, ma) = home_stepped(HomeView { marked: None, ..f }, listed, choice, ScreenKey::Delete, rendezvous_ok);
            &&& ma == HomeAction::Nothing && mc == choice
            &&& home_stepped(m, listed, choice, ScreenKey::Delete, rendezvous_ok).2 == HomeAction::DeleteChosen
        }),
        home_stepped(f, listed, choice, ScreenKey::Enter, rendezvous_ok).2 == HomeAction::OpenChosen,
{
    let n = listed.len() as int;
    if choice + 1 < n {
        vstd::arithmetic::div_mod::lemma_small_mod((choice + 1) as nat, n as nat);
    } else {
        vstd::arithmetic::div_mod::lemma_mod_self_0(n);
    }
    if choice > 0 {
        vstd::arithmetic::div_mod::lemma_small_mod(choice as nat, n as nat);
    } else {
        vstd::arithmetic::div_mod::lemma_mod_self_0(n);
    }
}

/// In a field of the create or join section, a typed character (without control) goes to the
/// end of that field's input and nothing else changes; backspace then gives back the form as
/// it was.
pub proof fn law_type_in_field(f: HomeView, listed: Seq<Seq<char>>, choice: int, c: char, rendezvous_ok: bool)
    requires
        in_form(f),
        f.section != 0,
    ensures
        ({
            let (t, tc, ta) = home_stepped(f, listed, choice, ScreenKey::Char(c, false), rendezvous_ok);
            &&& tc == choice && ta == HomeAction::Nothing
            &&& t.section == f.section && t.field == f.field && t.marked == f.marked
            &&& t.chat_name == (if f.section == 1 && f.field == 0 { f.chat_name.push(c) } else { f.chat_name })
            &&& t.user_name == (if (f.section == 1 && f.field == 1) || (f.section == 2 && f.field == 0) {
                f.user_name.push(c)
            } else {
                f.user_name
            })
            &&& t.rendezvous == (if (f.section == 1 && f.field == 2) || (f.section == 2 && f.field == 1) {
                f.rendezvous.push(c)
            } else {
                f.rendezvous
            })
            &&& home_stepped(t, listed, choice, ScreenKey::Backspace, rendezvous_ok).0 == f
        }),
{
    let t = home_stepped(f, listed, choice, ScreenKey::Char(c, false), rendezvous_ok).0;
    assert(f.chat_name.push(c).drop_last() =~= f.chat_name);
    assert(f.user_name.push(c).drop_last() =~= f.user_name);
    assert(f.rendezvous.push(c).drop_last() =~= f.rendezvous);
    assert(home_stepped(t, listed, choice, ScreenKey::Backspace, rendezvous_ok).0 =~= f);
}

/// On the requests of the admin's panel: left (or `h`) chooses accepting and right (or `l`)
/// deleting, keeping the focused request; enter then answers the focused request with that
/// choice, when there is such a request; `q` goes to the chat; control-up and control-down
/// move to the members and to the button back to the chat.
pub proof fn law_panel_answers(p: RequestPanel, count: int)
    requires
        p.section == 1,
    ensures
        panel_stepped(p, count, ScreenKey::Left).0 == (RequestPanel { accept: true, ..p }),
        panel_stepped(p, count, ScreenKey::Char('h', false)).0 == (RequestPanel { accept: true, ..p }),
        panel_stepped(p, count, ScreenKey::Right).0 == (RequestPanel { accept: false, ..p }),
        panel_stepped(p, count, ScreenKey::Char('l', false)).0 == (RequestPanel { accept: false, ..p }),
        p.index < count ==> panel_stepped(p, count, ScreenKey::Enter) == (p, PanelAction::Answer(p.index, p.accept)),
        p.index >= count ==> panel_stepped(p, count, ScreenKey::Enter).1 == PanelAction::Nothing,
        panel_stepped(p, count, ScreenKey::Char('q', false)) == (p, PanelAction::ToChat),
        panel_stepped(p, count, ScreenKey::Up(true)).0.section == 0,
        panel_stepped(p, count, ScreenKey::Down(true)).0.section == 2,
        panel_stepped(p, count, ScreenKey::Up(true)).0.index == p.index,
        panel_stepped(p, count, ScreenKey::Down(true)).0.index == p.index,
{
}

/// The joiner's pauses between resends go 3, 6, 9 and 30 seconds, over and over.
pub proof fn law_resend_pauses(k: int)
    requires
        k >= 0,
    ensures
        resend_pause(4 * k) == 3,
        resend_pause(4 * k + 1) == 6,
        resend_pause(4 * k + 2) == 9,
        resend_pause(4 * k + 3) == 30,
        resend_pause(k + 4) == resend_pause(k),
{
    assert((4 * k) % 4 == 0);
    assert((4 * k + 1) % 4 == 1);
    assert((4 * k + 2) % 4 == 2);
    assert((4 * k + 3) % 4 == 3);
    assert((k + 4) % 4 == k % 4);
}

/// Enter in the forms: on a field whose input is valid it steps to the next field of the
/// section; on the last field it creates (or joins) once every input of the section is valid;
/// on an invalid field it does nothing. The chat name is valid when it is given and, with a
/// user name given, does not name a chat of this user; the user name when it is given; the rendezvous when it is given and reads
/// as an address.
pub proof fn law_form_enter(f: HomeView, listed: Seq<Seq<char>>, choice: int, ok: bool)
    requires
        in_form(f),
        f.section != 0,
    ensures
        ({
            let (g, gc, act) = home_stepped(f, listed, choice, ScreenKey::Enter, ok);
            let chat_ok = f.chat_name.len() > 0 && !(f.user_name.len() > 0 && listed.contains(f.user_name + seq![' ', '@', ' '] + f.chat_name));
            let user_ok = f.user_name.len() > 0;
            let rv_ok = f.rendezvous.len() > 0 && ok;
            &&& gc == choice
            &&& g.chat_name == f.chat_name && g.user_name == f.user_name && g.rendezvous == f.rendezvous
            &&& f.section == 1 && f.field == 0 ==> (if chat_ok { g.section == 1 && g.field == 1 } else { g == f })
                && act == HomeAction::Nothing
            &&& f.section == 1 && f.field == 1 ==> (if user_ok { g.section == 1 && g.field == 2 } else { g == f })
                && act == HomeAction::Nothing
            &&& f.section == 1 && f.field == 2 ==> g == f && (act == HomeAction::Create <==> chat_ok && user_ok && rv_ok)
                && (act == HomeAction::Create || act == HomeAction::Nothing)
            &&& f.section == 2 && f.field == 0 ==> (if user_ok { g.section == 2 && g.field == 1 } else { g == f })
                && act == HomeAction::Nothing
            &&& f.section == 2 && f.field == 1 ==> g == f && (act == HomeAction::Join <==> user_ok && rv_ok)
                && (act == HomeAction::Join || act == HomeAction::Nothing)
        }),
{
}

} // verus!
