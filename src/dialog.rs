use vstd::prelude::*;

verus! {

/// A key press, as the dialogs see it.
#[derive(Debug, Clone, Copy, PartialEq, Eq, Structural)]
pub enum Key {
    Esc,
    Tab,
    BackTab,
    Enter,
    Up,
    Down,
    Backspace,
    Char(char),
    Other,
}

/// What a dialog asks of the application after a key.
#[derive(Debug)]
pub enum Action {
    /// Nothing for the application to do.
    NoOp,
    ClosePopup,
    ErrorMessage(String),
    StatusMessage(String),
    /// Write the profiles at these positions to this file.
    ExportProfiles { indices: Vec<usize>, path: String },
    /// Read profiles from this file and hand them to the import dialog.
    OpenFile(String),
    /// Import the profiles at these positions of those read.
    ImportProfiles(Vec<usize>),
}

/// What `str::trim` gives for a string.
pub uninterp spec fn trimmed_of(s: Seq<char>) -> Seq<char>;

/// Relies on `str::trim`: the string without leading and trailing white
/// space, a function of the characters alone.
#[verifier::external_body]
fn trim_text(s: &str) -> (r: String)
    ensures
        r@ == trimmed_of(s@),
{
    s.trim().to_string()
}

/// The selection flags of a list of items.
pub open spec fn flags_of(items: Seq<(String, bool)>) -> Seq<bool> {
    items.map_values(|p: (String, bool)| p.1)
}

/// The labels of a list of items.
pub open spec fn labels_of(items: Seq<(String, bool)>) -> Seq<Seq<char>> {
    items.map_values(|p: (String, bool)| p.0@)
}

/// The cursor after a key in a list of `len` items.
pub open spec fn cursor_after(key: Key, cursor: int, len: int) -> int {
    match key {
        Key::Up | Key::Char('k') => if cursor > 0 { cursor - 1 } else { cursor },
        Key::Down | Key::Char('j') => if cursor + 1 < len { cursor + 1 } else { cursor },
        _ => cursor,
    }
}

/// The selection flags after a key: space toggles the item under the cursor;
/// `a` clears every flag when all are set, and sets every flag otherwise.
pub open spec fn flags_after(key: Key, flags: Seq<bool>, cursor: int) -> Seq<bool> {
    match key {
        Key::Char(' ') => if 0 <= cursor < flags.len() {
            flags.update(cursor, !flags[cursor])
        } else {
            flags
        },
        Key::Char('a') => {
            let all = forall|i: int| 0 <= i < flags.len() ==> #[trigger] flags[i];
            Seq::new(flags.len(), |i: int| !all)
        },
        _ => flags,
    }
}

/// The positions below `limit` whose flag is set, in ascending order.
pub open spec fn selected_positions(flags: Seq<bool>, limit: int) -> Seq<usize>
    decreases flags.len(),
{
    if flags.len() == 0 {
        Seq::empty()
    } else {
        let rest = selected_positions(flags.drop_last(), limit);
        let i = flags.len() - 1;
        if flags.last() && i < limit {
            rest.push(i as usize)
        } else {
            rest
        }
    }
}

/// Applies a list key (cursor movement, toggling) to `items` and `cursor`.
pub fn handle_list_key(items: &mut Vec<(String, bool)>, cursor: &mut usize, key: Key)
    ensures
        *final(cursor) == cursor_after(key, *old(cursor) as int, old(items)@.len() as int),
        flags_of(final(items)@) == flags_after(key, flags_of(old(items)@), *old(cursor) as int),
        labels_of(final(items)@) == labels_of(old(items)@),
{
    let n = items.len();
    match key {
        Key::Up | Key::Char('k') => {
            if *cursor > 0 {
                *cursor = *cursor - 1;
            }
        },
        Key::Down | Key::Char('j') => {
            if *cursor < n && *cursor + 1 < n {
                *cursor = *cursor + 1;
            }
        },
        Key::Char(' ') => {
            let c = *cursor;
            if c < n {
                let flag = items[c].1;
                let label = items[c].0.clone();
                items.set(c, (label, !flag));
                assert(flags_of(items@) =~= flags_of(old(items)@).update(c as int, !flag));
                assert(labels_of(items@) =~= labels_of(old(items)@));
            }
        },
        Key::Char('a') => {
            let mut all = true;
            let mut i: usize = 0;
            while i < n
                invariant
                    n == items@.len(),
                    i <= n,
                    items@ == old(items)@,
                    all == forall|j: int| 0 <= j < i ==> #[trigger] items@[j].1,
                decreases n - i,
            {
                if !items[i].1 {
                    all = false;
                }
                i = i + 1;
            }
            assert(all == forall|j: int| 0 <= j < n ==> #[trigger] flags_of(old(items)@)[j]) by {
                if !all {
                    let j = choose|j: int| 0 <= j < n && !items@[j].1;
                    assert(!flags_of(old(items)@)[j]);
                }
            }
            let mut k: usize = 0;
            while k < n
                invariant
                    n == items@.len(),
                    n == old(items)@.len(),
                    k <= n,
                    forall|j: int| 0 <= j < k ==> #[trigger] items@[j].1 == !all,
                    forall|j: int| k <= j < n ==> #[trigger] items@[j] == old(items)@[j],
                    labels_of(items@) == labels_of(old(items)@),
                decreases n - k,
            {
                let label = items[k].0.clone();
                let ghost before = items@;
                items.set(k, (label, !all));
                assert(labels_of(items@) =~= labels_of(before));
                k = k + 1;
            }
            assert(flags_of(items@) =~= flags_after(key, flags_of(old(items)@), *old(cursor) as int));
        },
        _ => {},
    }
}

/// The positions of the selected items below `limit`.
pub fn selected_indices(items: &Vec<(String, bool)>, limit: usize) -> (r: Vec<usize>)
    ensures
        r@ == selected_positions(flags_of(items@), limit as int),
{
    let n = items.len();
    let mut out: Vec<usize> = Vec::new();
    let mut i: usize = 0;
    while i < n
        invariant
            n == items@.len(),
            i <= n,
            out@ == selected_positions(flags_of(items@).take(i as int), limit as int),
        decreases n - i,
    {
        let ghost t = flags_of(items@).take(i + 1);
        assert(t.drop_last() =~= flags_of(items@).take(i as int));
        if items[i].1 && i < limit {
            out.push(i);
        }
        i = i + 1;
    }
    assert(flags_of(items@).take(n as int) =~= flags_of(items@));
    out
}

/// Edits a text field: backspace removes the last character, a character
/// key appends it, other keys leave it.
pub fn edit_text(text: &mut String, key: Key)
    ensures
        final(text)@ == match key {
            Key::Backspace => if old(text)@.len() > 0 {
                old(text)@.drop_last()
            } else {
                old(text)@
            },
            Key::Char(c) => old(text)@.push(c),
            _ => old(text)@,
        },
{
    match key {
        Key::Backspace => {
            let n = text.as_str().unicode_len();
            if n > 0 {
                let kept = String::from_str(text.as_str().substring_char(0, n - 1));
                assert(text@.subrange(0, n - 1) =~= text@.drop_last());
                *text = kept;
            }
        },
        Key::Char(c) => {
            push_char(text, c);
        },
        _ => {},
    }
}

/// Relies on `String::push`: appends one character.
#[verifier::external_body]
fn push_char(s: &mut String, c: char)
    ensures
        final(s)@ == old(s)@.push(c),
{
    s.push(c)
}

/// Items labelled `names`, every one selected.
pub open spec fn all_selected(items: Seq<(String, bool)>, names: Seq<String>) -> bool {
    items.len() == names.len() && forall|i: int| 0 <= i < items.len() ==> (#[trigger] items[i]).0@
        == names[i]@ && items[i].1
}

/// The same items, each selected.
fn select_all(names: &Vec<String>) -> (r: Vec<(String, bool)>)
    ensures
        all_selected(r@, names@),
{
    let n = names.len();
    let mut out: Vec<(String, bool)> = Vec::new();
    let mut i: usize = 0;
    while i < n
        invariant
            n == names@.len(),
            i <= n,
            out@.len() == i,
            forall|j: int| 0 <= j < i ==> (#[trigger] out@[j]).0@ == names@[j]@ && out@[j].1,
        decreases n - i,
    {
        out.push((names[i].clone(), true));
        i = i + 1;
    }
    out
}

/// Which part of the export dialog takes the keys.
#[derive(Debug, Clone, Copy, PartialEq, Eq, Structural)]
pub enum ActiveField {
    ProfileList,
    Filename,
}

/// The dialog that exports connection profiles to a file: which profiles are
/// selected, where the cursor is, and the file name.
#[derive(Debug)]
pub struct ProfileExportDialog {
    pub visible: bool,
    pub active_field: ActiveField,
    /// Profile names and whether each is selected.
    pub profiles: Vec<(String, bool)>,
    pub cursor: usize,
    pub filename: String,
}

impl ProfileExportDialog {
    pub fn new() -> (r: Self)
        ensures
            !r.visible,
            r.active_field == ActiveField::ProfileList,
            r.profiles@.len() == 0,
            r.cursor == 0,
            r.filename@.len() == 0,
    {
        ProfileExportDialog {
            visible: false,
            active_field: ActiveField::ProfileList,
            profiles: Vec::new(),
            cursor: 0,
            filename: String::new(),
        }
    }

    /// Shows the dialog with every one of the named profiles selected.
    pub fn show(&mut self, names: &Vec<String>)
        ensures
            final(self).visible,
            final(self).active_field == ActiveField::ProfileList,
            all_selected(final(self).profiles@, names@),
            final(self).cursor == 0,
            final(self).filename@ == "profiles.toml"@,
    {
        self.profiles = select_all(names);
        self.cursor = 0;
        self.filename = String::from_str("profiles.toml");
        self.active_field = ActiveField::ProfileList;
        self.visible = true;
    }

    pub fn dismiss(&mut self)
        ensures
            !final(self).visible,
            final(self).active_field == old(self).active_field,
            final(self).profiles == old(self).profiles,
            final(self).cursor == old(self).cursor,
            final(self).filename == old(self).filename,
    {
        self.visible = false;
    }

    /// Handles a key. `profile_count` is the number of profiles that exist,
    /// of which the selected positions are taken.
    pub fn handle_key_event(&mut self, key: Key, profile_count: usize) -> (r: Action)
        ensures
            key == Key::Esc ==> !final(self).visible && r is ClosePopup,
            (key == Key::Tab || key == Key::BackTab) ==> r is NoOp && final(self).active_field
                != old(self).active_field && final(self).profiles == old(self).profiles
                && final(self).cursor == old(self).cursor && final(self).filename == old(
                self,
            ).filename,
            key == Key::Enter ==> export_submitted(*old(self), *final(self), profile_count, r),
            key != Key::Esc && key != Key::Tab && key != Key::BackTab && key != Key::Enter ==> r is NoOp
                && final(self).visible == old(self).visible && final(self).active_field == old(
                self,
            ).active_field && if old(self).active_field == ActiveField::ProfileList {
                final(self).cursor == cursor_after(key, old(self).cursor as int, old(self).profiles@.len() as int)
                    && flags_of(final(self).profiles@) == flags_after(key, flags_of(old(self).profiles@), old(self).cursor as int)
                    && labels_of(final(self).profiles@) == labels_of(old(self).profiles@)
                    && final(self).filename == old(self).filename
            } else {
                final(self).cursor == old(self).cursor && final(self).profiles == old(self).profiles
                    && final(self).filename@ == match key {
                    Key::Backspace => if old(self).filename@.len() > 0 {
                        old(self).filename@.drop_last()
                    } else {
                        old(self).filename@
                    },
                    Key::Char(c) => old(self).filename@.push(c),
                    _ => old(self).filename@,
                }
            },
    {
        match key {
            Key::Esc => {
                self.dismiss();
                Action::ClosePopup
            },
            Key::Tab | Key::BackTab => {
                self.active_field = match self.active_field {
                    ActiveField::ProfileList => ActiveField::Filename,
                    ActiveField::Filename => ActiveField::ProfileList,
                };
                Action::NoOp
            },
            Key::Enter => self.submit(profile_count),
            _ => {
                match self.active_field {
                    ActiveField::ProfileList => handle_list_key(&mut self.profiles, &mut self.cursor, key),
                    ActiveField::Filename => edit_text(&mut self.filename, key),
                }
                Action::NoOp
            },
        }
    }

    /// Asks for the selected profiles to be written to the file named, or
    /// says why not.
    pub fn submit(&mut self, profile_count: usize) -> (r: Action)
        ensures
            export_submitted(*old(self), *final(self), profile_count, r),
    {
        let name = trim_text(self.filename.as_str());
        if name.as_str().unicode_len() == 0 {
            return Action::ErrorMessage(String::from_str("Filename is required"));
        }
        let indices = selected_indices(&self.profiles, profile_count);
        if indices.len() == 0 {
            return Action::ErrorMessage(String::from_str("No profiles selected"));
        }
        self.dismiss();
        Action::ExportProfiles { indices, path: name }
    }
}

/// What Enter does in the export dialog: an error where the file name is
/// blank or no profile is selected, the dialog left as it was; otherwise the
/// dialog hides and asks for the selected profiles to be written.
pub open spec fn export_submitted(
    before: ProfileExportDialog,
    after: ProfileExportDialog,
    profile_count: usize,
    r: Action,
) -> bool {
    let name = trimmed_of(before.filename@);
    let sel = selected_positions(flags_of(before.profiles@), profile_count as int);
    if name.len() == 0 {
        after == before && r is ErrorMessage && r->ErrorMessage_0@ == "Filename is required"@
    } else if sel.len() == 0 {
        after == before && r is ErrorMessage && r->ErrorMessage_0@ == "No profiles selected"@
    } else {
        !after.visible && after.profiles == before.profiles && after.cursor == before.cursor
            && after.filename == before.filename && after.active_field == before.active_field
            && r is ExportProfiles && r->indices@ == sel && r->path@ == name
    }
}

/// The phase of the import dialog.
#[derive(Debug, Clone, Copy, PartialEq, Eq, Structural)]
pub enum Phase {
    /// The user types the path of the file to read.
    FilePath,
    /// The user picks which of the profiles read to import.
    SelectProfiles,
}

/// The dialog that imports connection profiles from a file.
#[derive(Debug)]
pub struct ProfileImportDialog {
    pub visible: bool,
    pub phase: Phase,
    pub file_path: String,
    /// Labels of the profiles read, and whether each is selected.
    pub parsed_profiles: Vec<(String, bool)>,
    pub cursor: usize,
}

impl ProfileImportDialog {
    pub fn new() -> (r: Self)
        ensures
            !r.visible,
            r.phase == Phase::FilePath,
            r.file_path@.len() == 0,
            r.parsed_profiles@.len() == 0,
            r.cursor == 0,
    {
        ProfileImportDialog {
            visible: false,
            phase: Phase::FilePath,
            file_path: String::new(),
            parsed_profiles: Vec::new(),
            cursor: 0,
        }
    }

    pub fn show(&mut self)
        ensures
            final(self).visible,
            final(self).phase == Phase::FilePath,
            final(self).file_path@ == "profiles.toml"@,
            final(self).parsed_profiles@.len() == 0,
            final(self).cursor == 0,
    {
        self.phase = Phase::FilePath;
        self.file_path = String::from_str("profiles.toml");
        self.parsed_profiles = Vec::new();
        self.cursor = 0;
        self.visible = true;
    }

    pub fn dismiss(&mut self)
        ensures
            !final(self).visible,
            final(self).phase == old(self).phase,
            final(self).file_path == old(self).file_path,
            final(self).parsed_profiles == old(self).parsed_profiles,
            final(self).cursor == old(self).cursor,
    {
        self.visible = false;
    }

    /// Takes the profiles read from the file, every one selected, and moves
    /// on to choosing among them.
    pub fn load_profiles(&mut self, labels: &Vec<String>)
        ensures
            final(self).visible == old(self).visible,
            final(self).phase == Phase::SelectProfiles,
            all_selected(final(self).parsed_profiles@, labels@),
            final(self).cursor == 0,
            final(self).file_path == old(self).file_path,
    {
        self.parsed_profiles = select_all(labels);
        self.cursor = 0;
        self.phase = Phase::SelectProfiles;
    }

    /// Handles a key.
    pub fn handle_key_event(&mut self, key: Key) -> (r: Action)
        ensures
            key == Key::Esc && old(self).phase == Phase::SelectProfiles ==> r is NoOp
                && final(self).phase == Phase::FilePath && final(self).parsed_profiles@.len() == 0
                && final(self).visible == old(self).visible,
            key == Key::Esc && old(self).phase == Phase::FilePath ==> r is ClosePopup
                && !final(self).visible,
            key == Key::Enter && old(self).phase == Phase::FilePath ==> open_requested(*old(self), *final(self), r),
            key == Key::Enter && old(self).phase == Phase::SelectProfiles ==> import_submitted(*old(self), *final(self), r),
            key != Key::Esc && key != Key::Enter ==> r is NoOp && final(self).visible == old(self).visible
                && final(self).phase == old(self).phase && if old(self).phase == Phase::FilePath {
                final(self).parsed_profiles == old(self).parsed_profiles && final(self).cursor == old(self).cursor
                    && final(self).file_path@ == match key {
                    Key::Backspace => if old(self).file_path@.len() > 0 {
                        old(self).file_path@.drop_last()
                    } else {
                        old(self).file_path@
                    },
                    Key::Char(c) => old(self).file_path@.push(c),
                    _ => old(self).file_path@,
                }
            } else {
                final(self).cursor == cursor_after(key, old(self).cursor as int, old(self).parsed_profiles@.len() as int)
                    && flags_of(final(self).parsed_profiles@) == flags_after(key, flags_of(old(self).parsed_profiles@), old(self).cursor as int)
                    && labels_of(final(self).parsed_profiles@) == labels_of(old(self).parsed_profiles@)
                    && final(self).file_path == old(self).file_path
            },
    {
        match key {
            Key::Esc => {
                if self.phase == Phase::SelectProfiles {
                    self.phase = Phase::FilePath;
                    self.parsed_profiles = Vec::new();
                    return Action::NoOp;
                }
                self.dismiss();
                Action::ClosePopup
            },
            Key::Enter => match self.phase {
                Phase::FilePath => self.open_file(),
                Phase::SelectProfiles => self.submit(),
            },
            _ => {
                match self.phase {
                    Phase::FilePath => edit_text(&mut self.file_path, key),
                    Phase::SelectProfiles => handle_list_key(&mut self.parsed_profiles, &mut self.cursor, key),
                }
                Action::NoOp
            },
        }
    }

    /// Asks for the file to be read, or says why not.
    pub fn open_file(&mut self) -> (r: Action)
        ensures
            open_requested(*old(self), *final(self), r),
    {
        let path = trim_text(self.file_path.as_str());
        if path.as_str().unicode_len() == 0 {
            return Action::ErrorMessage(String::from_str("File path is required"));
        }
        Action::OpenFile(path)
    }

    /// Asks for the selected profiles to be imported, or says why not.
    pub fn submit(&mut self) -> (r: Action)
        ensures
            import_submitted(*old(self), *final(self), r),
    {
        let n = self.parsed_profiles.len();
        let indices = selected_indices(&self.parsed_profiles, n);
        if indices.len() == 0 {
            return Action::ErrorMessage(String::from_str("No profiles selected"));
        }
        self.dismiss();
        Action::ImportProfiles(indices)
    }
}

/// What Enter does while the path is typed: an error where it is blank,
/// otherwise a request to read the file; the dialog stays as it is.
pub open spec fn open_requested(before: ProfileImportDialog, after: ProfileImportDialog, r: Action) -> bool {
    let path = trimmed_of(before.file_path@);
    after == before && if path.len() == 0 {
        r is ErrorMessage && r->ErrorMessage_0@ == "File path is required"@
    } else {
        r is OpenFile && r->OpenFile_0@ == path
    }
}

/// What Enter does while profiles are chosen: an error where none is
/// selected, the dialog left as it was; otherwise the dialog hides and asks
/// for the selected ones to be imported.
pub open spec fn import_submitted(before: ProfileImportDialog, after: ProfileImportDialog, r: Action) -> bool {
    let sel = selected_positions(flags_of(before.parsed_profiles@), before.parsed_profiles@.len() as int);
    if sel.len() == 0 {
        after == before && r is ErrorMessage && r->ErrorMessage_0@ == "No profiles selected"@
    } else {
        !after.visible && after.phase == before.phase && after.parsed_profiles == before.parsed_profiles
            && after.file_path == before.file_path && after.cursor == before.cursor
            && r is ImportProfiles && r->ImportProfiles_0@ == sel
    }
}

/// What `Path::join` gives for two paths written as text, as lossy text.
pub uninterp spec fn joined_of(base: Seq<char>, rest: Seq<char>) -> Seq<char>;

/// Relies on `Path::join`: `rest` appended to `base` as a path, a function of
/// the two texts alone.
#[verifier::external_body]
fn join_path(base: &str, rest: &str) -> (r: String)
    ensures
        r@ == joined_of(base@, rest@),
{
    std::path::Path::new(base).join(rest).to_string_lossy().to_string()
}

/// Relies on `dirs::home_dir`: the user's home directory, if it can be found.
#[verifier::external_body]
fn home_dir() -> (r: Option<String>) {
    dirs::home_dir().map(|p| p.to_string_lossy().to_string())
}

/// Whether `path` begins with `~/`.
pub open spec fn starts_with_home(path: Seq<char>) -> bool {
    path.len() >= 2 && path[0] == '~' && path[1] == '/'
}

/// `path` with a leading `~/` replaced by the directory `home`, where there is
/// one; otherwise `path` as it is.
pub fn expand_tilde_with(path: &str, home: &Option<String>) -> (r: String)
    ensures
        r@ == if starts_with_home(path@) && home is Some {
            joined_of(home->0@, path@.skip(2))
        } else {
            path@
        },
{
    let n = path.unicode_len();
    if n >= 2 && path.get_char(0) == '~' && path.get_char(1) == '/' {
        if let Some(h) = home {
            let rest = path.substring_char(2, n);
            assert(rest@ =~= path@.skip(2));
            return join_path(h.as_str(), rest);
        }
    }
    String::from_str(path)
}

/// `path` with a leading `~/` replaced by the user's home directory, where it
/// can be found.
pub fn expand_tilde(path: &str) -> (r: String)
    ensures
        !starts_with_home(path@) ==> r@ == path@,
        starts_with_home(path@) ==> r@ == path@ || exists|h: Seq<char>| r@ == joined_of(h, path@.skip(2)),
{
    let home = home_dir();
    expand_tilde_with(path, &home)
}

} // verus!
