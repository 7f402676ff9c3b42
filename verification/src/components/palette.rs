//! The command palette's items: built-in commands, open buffers and
//! files, and what the palette runs.

use vstd::prelude::*;
use crate::editor::document::DocumentId;
use crate::editor::workspace::{path_file_name, path_parent, std_path_file_name, std_path_parent};
use crate::text::fuzzy::{FuzzyMatcher, FuzzyMatchResult, is_index_ranking, spec_match, matches_of, candidate_fits, query_fits};
use crate::keymap::input::{spec_trim, trim_chars};
use crate::text::unicode::{spec_decimal, decimal_chars, push_str, push_all, string_from_chars, chars_of};

verus! {

/// An item of the palette's list.
#[derive(Debug, Clone, PartialEq, Eq)]
pub struct PaletteItem {
    /// What the item stands for: a path, a buffer number or a command.
    pub id: String,
    /// The text of the row.
    pub title: String,
    /// A second line: a directory or a description.
    pub subtitle: Option<String>,
    /// A status badge, such as `[+]`.
    pub badge: Option<String>,
    /// The text that the query is matched against.
    pub search_key: String,
    /// Whether the item is a file path (which path-aware matching scores).
    pub is_path: bool,
}

/// The view of an optional string.
pub open spec fn opt_view(s: Option<String>) -> Option<Seq<char>> {
    match s {
        Some(x) => Some(x@),
        None => None,
    }
}

impl PaletteItem {
    /// An item with no subtitle or badge, not a path.
    pub fn new(id: &str, title: &str, search_key: &str) -> (r: PaletteItem)
        ensures
            r.id@ == id@,
            r.title@ == title@,
            r.subtitle is None,
            r.badge is None,
            r.search_key@ == search_key@,
            !r.is_path,
    {
        PaletteItem {
            id: id.to_owned(),
            title: title.to_owned(),
            subtitle: None,
            badge: None,
            search_key: search_key.to_owned(),
            is_path: false,
        }
    }

    /// The item with the given subtitle.
    pub fn with_subtitle(self, subtitle: &str) -> (r: PaletteItem)
        ensures
            opt_view(r.subtitle) == Some(subtitle@),
            r.id == self.id && r.title == self.title && r.badge == self.badge,
            r.search_key == self.search_key && r.is_path == self.is_path,
    {
        let mut item = self;
        item.subtitle = Some(subtitle.to_owned());
        item
    }

    /// The item with the given badge.
    pub fn with_badge(self, badge: &str) -> (r: PaletteItem)
        ensures
            opt_view(r.badge) == Some(badge@),
            r.id == self.id && r.title == self.title && r.subtitle == self.subtitle,
            r.search_key == self.search_key && r.is_path == self.is_path,
    {
        let mut item = self;
        item.badge = Some(badge.to_owned());
        item
    }

    /// The item marked as a path or not.
    pub fn with_is_path(self, is_path: bool) -> (r: PaletteItem)
        ensures
            r.is_path == is_path,
            r.id == self.id && r.title == self.title && r.subtitle == self.subtitle,
            r.badge == self.badge && r.search_key == self.search_key,
    {
        let mut item = self;
        item.is_path = is_path;
        item
    }
}

/// What the palette is open for.
#[derive(Debug, Clone, Copy, PartialEq, Eq, Structural)]
pub enum PaletteMode {
    FilePicker,
    BufferPicker,
    Command,
}

/// An open document as the buffer picker lists it.
#[derive(Debug, Clone, PartialEq, Eq)]
pub struct BufferPickerItem {
    pub id: DocumentId,
    pub display_name: String,
    pub relative_path: Option<String>,
    pub is_modified: bool,
    pub is_read_only: bool,
}

/// Whether a palette item shows a buffer: numbered `n: name`, found by
/// number, name and path, the path as subtitle, and a badge `[+]` when
/// modified, else `[ro]` when read-only.
pub open spec fn is_buffer_item(b: BufferPickerItem, item: PaletteItem) -> bool {
    let n = spec_decimal(b.id.0 as nat);
    let path = match b.relative_path {
        Some(p) => p@,
        None => Seq::<char>::empty(),
    };
    &&& item.id@ == n
    &&& item.title@ == n + ": "@ + b.display_name@
    &&& item.search_key@ == n + " "@ + b.display_name@ + " "@ + path
    &&& opt_view(item.subtitle) == opt_view(b.relative_path)
    &&& opt_view(item.badge) == if b.is_modified {
        Some("[+]"@)
    } else if b.is_read_only {
        Some("[ro]"@)
    } else {
        None
    }
    &&& !item.is_path
}

/// The palette item of an open buffer (see `is_buffer_item`).
pub fn buffer_item(b: &BufferPickerItem) -> (r: PaletteItem)
    ensures
        is_buffer_item(*b, r),
{
    let n = decimal_chars(b.id.0 as u64);
    let mut title = n.clone();
    push_str(&mut title, ": ");
    push_str(&mut title, b.display_name.as_str());
    let mut key = n.clone();
    push_str(&mut key, " ");
    push_str(&mut key, b.display_name.as_str());
    push_str(&mut key, " ");
    match &b.relative_path {
        Some(p) => push_str(&mut key, p.as_str()),
        None => {},
    }
    let id = string_from_chars(&n);
    let title_s = string_from_chars(&title);
    let key_s = string_from_chars(&key);
    let mut item = PaletteItem::new(id.as_str(), title_s.as_str(), key_s.as_str());
    match &b.relative_path {
        Some(p) => {
            item = item.with_subtitle(p.as_str());
        },
        None => {},
    }
    if b.is_modified {
        item = item.with_badge("[+]");
    } else if b.is_read_only {
        item = item.with_badge("[ro]");
    }
    item
}

/// The palette items of the open buffers, in order.
pub fn buffer_palette_items(buffers: &Vec<BufferPickerItem>) -> (r: Vec<PaletteItem>)
    ensures
        r@.len() == buffers@.len(),
        forall|i: int| 0 <= i < buffers@.len() ==> is_buffer_item(buffers@[i], #[trigger] r@[i]),
{
    let mut r: Vec<PaletteItem> = Vec::new();
    let mut i: usize = 0;
    while i < buffers.len()
        invariant
            i <= buffers@.len(),
            r@.len() == i,
            forall|j: int| 0 <= j < i ==> is_buffer_item(buffers@[j], #[trigger] r@[j]),
        decreases buffers.len() - i,
    {
        r.push(buffer_item(&buffers[i]));
        i = i + 1;
    }
    r
}

/// A built-in command: its name, another name, what arguments it takes,
/// and what it does.
#[derive(Debug, Clone, Copy)]
pub struct CommandDescriptor {
    pub name: &'static str,
    pub alias: Option<&'static str>,
    pub args: Option<&'static str>,
    pub description: &'static str,
}

/// The view of an optional string slice.
pub open spec fn opt_str_view(s: Option<&'static str>) -> Option<Seq<char>> {
    match s {
        Some(x) => Some(x@),
        None => None,
    }
}

/// The built-in commands: name, alias, arguments and description.
pub open spec fn spec_builtin_commands() -> Seq<(Seq<char>, Option<Seq<char>>, Option<Seq<char>>, Seq<char>)> {
    seq![

        (":w"@, Some(":write"@), Some("[path]"@), "Write/save the current buffer to disk"@),
        (":q"@, Some(":quit"@), None::<Seq<char>>, "Close the current buffer (exits if last)"@),
        (":q!"@, Some(":quit!"@), None::<Seq<char>>, "Force close buffer, discarding unsaved changes"@),
        (":wq"@, Some(":x"@), None::<Seq<char>>, "Write changes and close the buffer"@),
        (":e"@, Some(":open"@), Some("<path>"@), "Open file at path into a buffer"@),
        (":b"@, Some(":buffer"@), Some("<id|name>"@), "Switch to buffer by index or file name"@),
        (":bn"@, Some(":bnext"@), None::<Seq<char>>, "Switch to the next buffer"@),
        (":bp"@, Some(":bprev"@), None::<Seq<char>>, "Switch to the previous buffer"@),
        (":bc"@, Some(":bclose"@), None::<Seq<char>>, "Close current buffer"@),
        (":pwd"@, None::<Seq<char>>, None::<Seq<char>>, "Print current workspace root directory"@),
        (":cd"@, None::<Seq<char>>, Some("<path>"@), "Change current workspace directory"@),
        (":theme"@, None::<Seq<char>>, Some("<name>"@), "Switch Catppuccin theme (latte, frappe, macchiato, mocha)"@),
    ]
}

/// Whether a command descriptor holds the given name, alias, arguments
/// and description.
pub open spec fn describes(c: CommandDescriptor, d: (Seq<char>, Option<Seq<char>>, Option<Seq<char>>, Seq<char>)) -> bool {
    c.name@ == d.0 && opt_str_view(c.alias) == d.1 && opt_str_view(c.args) == d.2 && c.description@ == d.3
}

/// The built-in commands (see `spec_builtin_commands`).
pub fn builtin_commands() -> (r: Vec<CommandDescriptor>)
    ensures
        r@.len() == spec_builtin_commands().len(),
        forall|i: int| 0 <= i < r@.len() ==> describes(#[trigger] r@[i], spec_builtin_commands()[i]),
{
    let r = vec![

        CommandDescriptor { name: ":w", alias: Some(":write"), args: Some("[path]"), description: "Write/save the current buffer to disk" },
        CommandDescriptor { name: ":q", alias: Some(":quit"), args: None, description: "Close the current buffer (exits if last)" },
        CommandDescriptor { name: ":q!", alias: Some(":quit!"), args: None, description: "Force close buffer, discarding unsaved changes" },
        CommandDescriptor { name: ":wq", alias: Some(":x"), args: None, description: "Write changes and close the buffer" },
        CommandDescriptor { name: ":e", alias: Some(":open"), args: Some("<path>"), description: "Open file at path into a buffer" },
        CommandDescriptor { name: ":b", alias: Some(":buffer"), args: Some("<id|name>"), description: "Switch to buffer by index or file name" },
        CommandDescriptor { name: ":bn", alias: Some(":bnext"), args: None, description: "Switch to the next buffer" },
        CommandDescriptor { name: ":bp", alias: Some(":bprev"), args: None, description: "Switch to the previous buffer" },
        CommandDescriptor { name: ":bc", alias: Some(":bclose"), args: None, description: "Close current buffer" },
        CommandDescriptor { name: ":pwd", alias: None, args: None, description: "Print current workspace root directory" },
        CommandDescriptor { name: ":cd", alias: None, args: Some("<path>"), description: "Change current workspace directory" },
        CommandDescriptor { name: ":theme", alias: None, args: Some("<name>"), description: "Switch Catppuccin theme (latte, frappe, macchiato, mocha)" },
    ];
    assert forall|i: int| 0 <= i < r@.len() implies describes(#[trigger] r@[i], spec_builtin_commands()[i]) by {
    }
    r
}

/// Whether a palette item shows a command: found by its name, the row
/// shows the name and its arguments, the search key adds the alias and
/// the description, and the description is the subtitle.
pub open spec fn is_command_item(
    d: (Seq<char>, Option<Seq<char>>, Option<Seq<char>>, Seq<char>),
    item: PaletteItem,
) -> bool {
    &&& item.id@ == d.0
    &&& item.title@ == match d.2 {
        Some(a) => d.0 + " "@ + a,
        None => d.0,
    }
    &&& item.search_key@ == match d.1 {
        Some(a) => d.0 + " "@ + a + " "@ + d.3,
        None => d.0 + " "@ + d.3,
    }
    &&& opt_view(item.subtitle) == Some(d.3)
    &&& item.badge is None
    &&& !item.is_path
}

/// The name, alias, arguments and description of a command.
pub open spec fn command_view(c: CommandDescriptor) -> (Seq<char>, Option<Seq<char>>, Option<Seq<char>>, Seq<char>) {
    (c.name@, opt_str_view(c.alias), opt_str_view(c.args), c.description@)
}

/// The palette item of a command (see `is_command_item`).
pub fn command_item(c: &CommandDescriptor) -> (r: PaletteItem)
    ensures
        is_command_item(command_view(*c), r),
{
    let mut title: Vec<char> = Vec::new();
    push_str(&mut title, c.name);
    match c.args {
        Some(a) => {
            push_str(&mut title, " ");
            push_str(&mut title, a);
        },
        None => {},
    }
    let mut key: Vec<char> = Vec::new();
    push_str(&mut key, c.name);
    push_str(&mut key, " ");
    match c.alias {
        Some(a) => {
            push_str(&mut key, a);
            push_str(&mut key, " ");
        },
        None => {},
    }
    push_str(&mut key, c.description);
    let title_s = string_from_chars(&title);
    let key_s = string_from_chars(&key);
    proof {
        match c.alias {
            Some(a) => {
                assert(key@ =~= c.name@ + " "@ + a@ + " "@ + c.description@);
            },
            None => {
                assert(key@ =~= c.name@ + " "@ + c.description@);
            },
        }
        match c.args {
            Some(a) => {
                assert(title@ =~= c.name@ + " "@ + a@);
            },
            None => {
                assert(title@ =~= c.name@);
            },
        }
    }
    PaletteItem::new(c.name, title_s.as_str(), key_s.as_str()).with_subtitle(c.description)
}

/// The palette items of the built-in commands, in order.
pub fn command_palette_items() -> (r: Vec<PaletteItem>)
    ensures
        r@.len() == spec_builtin_commands().len(),
        forall|i: int| 0 <= i < r@.len() ==> is_command_item(spec_builtin_commands()[i], #[trigger] r@[i]),
{
    let cmds = builtin_commands();
    let mut r: Vec<PaletteItem> = Vec::new();
    let mut i: usize = 0;
    while i < cmds.len()
        invariant
            i <= cmds@.len(),
            cmds@.len() == spec_builtin_commands().len(),
            forall|j: int| 0 <= j < cmds@.len() ==> describes(#[trigger] cmds@[j], spec_builtin_commands()[j]),
            r@.len() == i,
            forall|j: int| 0 <= j < i ==> is_command_item(spec_builtin_commands()[j], #[trigger] r@[j]),
        decreases cmds.len() - i,
    {
        let item = command_item(&cmds[i]);
        assert(command_view(cmds@[i as int]) == spec_builtin_commands()[i as int]);
        r.push(item);
        i = i + 1;
    }
    r
}

/// What the command palette runs: the typed text, unless it is blank or
/// only `:` once trimmed, in which case the chosen item's command.
pub open spec fn spec_command_to_run(raw_input: Seq<char>, item_id: Seq<char>) -> Seq<char> {
    let t = spec_trim(raw_input);
    if t.len() > 0 && t != ":"@ {
        raw_input
    } else {
        item_id
    }
}

/// What the command palette runs (see `spec_command_to_run`).
pub fn command_to_run(raw_input: String, item_id: String) -> (r: String)
    ensures
        r@ == spec_command_to_run(raw_input@, item_id@),
{
    let v = chars_of(raw_input.as_str());
    let t = trim_chars(&v);
    let is_colon = t.len() == 1 && t[0] == ':';
    proof {
        reveal_strlit(":");
        if t@ == ":"@ {
            assert(t@[0] == ':');
        }
        if is_colon {
            assert(t@ =~= ":"@);
        }
    }
    if t.len() > 0 && !is_colon {
        raw_input
    } else {
        item_id
    }
}

/// The palette item for a file at `rel_path` in the workspace: titled
/// with its file name (the whole path when it has none), with its
/// directory (when not empty) as subtitle, found by its path, a path.
pub fn file_item(rel_path: &str) -> (r: PaletteItem)
    ensures
        r.id@ == rel_path@,
        r.title@ == match std_path_file_name(rel_path@) {
            Some(n) => n,
            None => rel_path@,
        },
        opt_view(r.subtitle) == match std_path_parent(rel_path@) {
            Some(d) => if d.len() > 0 { Some(d) } else { None },
            None => None,
        },
        r.badge is None,
        r.search_key@ == rel_path@,
        r.is_path,
{
    let name = match path_file_name(rel_path) {
        Some(n) => n,
        None => rel_path.to_owned(),
    };
    let item = PaletteItem::new(rel_path, name.as_str(), rel_path).with_is_path(true);
    match path_parent(rel_path) {
        Some(d) => {
            if d.as_str().is_empty() {
                item
            } else {
                item.with_subtitle(d.as_str())
            }
        },
        None => item,
    }
}

/// The palette items of the workspace files at `paths`, in order.
pub fn file_palette_items(paths: &Vec<String>) -> (r: Vec<PaletteItem>)
    ensures
        r@.len() == paths@.len(),
        forall|i: int| 0 <= i < paths@.len() ==> (#[trigger] r@[i]).id@ == paths@[i]@ && r@[i].is_path,
{
    let mut r: Vec<PaletteItem> = Vec::new();
    let mut i: usize = 0;
    while i < paths.len()
        invariant
            i <= paths@.len(),
            r@.len() == i,
            forall|j: int| 0 <= j < i ==> (#[trigger] r@[j]).id@ == paths@[j]@ && r@[j].is_path,
        decreases paths.len() - i,
    {
        r.push(file_item(paths[i].as_str()));
        i = i + 1;
    }
    r
}

/// The matches of `query` against the search keys of `items`, in order,
/// with the configuration for file paths in the file picker.
pub open spec fn palette_matches(items: Seq<PaletteItem>, query: Seq<char>, mode: PaletteMode) -> Seq<Option<(u32, Seq<u32>)>> {
    Seq::new(items.len(), |i: int| spec_match(query, items[i].search_key@, mode == PaletteMode::FilePicker))
}

/// The rows the palette shows for the typed `text`: the items whose search
/// key matches the trimmed text, best first, equal scores in item order,
/// by position in `items`, with the positions to highlight (see
/// `FuzzyMatcher::filter_and_sort_indexed`; file paths are matched as
/// paths). With nothing typed every item shows, in order.
pub fn palette_rows(matcher: &mut FuzzyMatcher, items: &Vec<PaletteItem>, text: &str, mode: PaletteMode) -> (r: Vec<FuzzyMatchResult<usize>>)
    requires
        query_fits(spec_trim(text@)),
        forall|i: int| 0 <= i < items@.len() ==> candidate_fits((#[trigger] items@[i]).search_key@),
    ensures
        is_index_ranking(r@, palette_matches(items@, spec_trim(text@), mode)),
{
    let query = string_from_chars(&trim_chars(&chars_of(text)));
    let mut keys: Vec<String> = Vec::new();
    let mut i: usize = 0;
    while i < items.len()
        invariant
            i <= items@.len(),
            keys@.len() == i,
            forall|j: int| 0 <= j < i ==> (#[trigger] keys@[j])@ == items@[j].search_key@,
        decreases items.len() - i,
    {
        keys.push(items[i].search_key.clone());
        i = i + 1;
    }
    proof {
        assert forall|j: int| 0 <= j < keys@.len() implies candidate_fits(#[trigger] keys@[j]@) by {
            assert(keys@[j]@ == items@[j].search_key@);
        }
    }
    let r = matcher.filter_and_sort_indexed(query.as_str(), &keys, mode == PaletteMode::FilePicker);
    proof {
        assert(matches_of(query@, keys@, mode == PaletteMode::FilePicker) =~= palette_matches(items@, spec_trim(text@), mode)) by {
            assert forall|j: int| 0 <= j < keys@.len() implies keys@[j]@ == items@[j].search_key@ by {}
        }
    }
    r
}

/// A key the palette's list reacts to.
#[derive(Debug, Clone, Copy, PartialEq, Eq, Structural)]
pub enum PaletteKey {
    /// Escape: close the palette.
    Dismiss,
    /// Down, or Ctrl with `n`: the next row.
    Next,
    /// Up, or Ctrl with `p`: the previous row.
    Previous,
    /// Page Down: five rows down.
    PageDown,
    /// Page Up: five rows up.
    PageUp,
    /// Return or the keypad's Enter: choose the selected row.
    Activate,
}

/// The palette key for a GDK key value, with Ctrl held or not; `None` for
/// the keys the search field takes.
pub fn palette_key(keyval: u32, ctrl: bool) -> (r: Option<PaletteKey>)
    ensures
        r == if keyval == 0xff1b {
            Some(PaletteKey::Dismiss)
        } else if keyval == 0xff54 || (ctrl && (keyval == 0x6e || keyval == 0x4e)) {
            Some(PaletteKey::Next)
        } else if keyval == 0xff52 || (ctrl && (keyval == 0x70 || keyval == 0x50)) {
            Some(PaletteKey::Previous)
        } else if keyval == 0xff56 {
            Some(PaletteKey::PageDown)
        } else if keyval == 0xff55 {
            Some(PaletteKey::PageUp)
        } else if keyval == 0xff0d || keyval == 0xff8d {
            Some(PaletteKey::Activate)
        } else {
            None
        },
{
    if keyval == 0xff1b {
        Some(PaletteKey::Dismiss)
    } else if keyval == 0xff54 || (ctrl && (keyval == 0x6e || keyval == 0x4e)) {
        Some(PaletteKey::Next)
    } else if keyval == 0xff52 || (ctrl && (keyval == 0x70 || keyval == 0x50)) {
        Some(PaletteKey::Previous)
    } else if keyval == 0xff56 {
        Some(PaletteKey::PageDown)
    } else if keyval == 0xff55 {
        Some(PaletteKey::PageUp)
    } else if keyval == 0xff0d || keyval == 0xff8d {
        Some(PaletteKey::Activate)
    } else {
        None
    }
}

/// The row selected after a move of `step` rows down (`down`) or up over
/// `count` rows: with no row nothing changes; from no selection, the
/// first row; otherwise the move stops at the last or the first row.
pub open spec fn spec_moved(selected: Option<u32>, count: u32, step: u32, down: bool) -> Option<u32> {
    if count == 0 {
        selected
    } else {
        match selected {
            None => Some(0),
            Some(cur) => if down {
                Some(if cur + step < count - 1 { (cur + step) as u32 } else { (count - 1) as u32 })
            } else {
                Some(if cur >= step { (cur - step) as u32 } else { 0 })
            },
        }
    }
}

/// The row selected after a move of `step` rows (see `spec_moved`).
pub fn moved_selection(selected: Option<u32>, count: u32, step: u32, down: bool) -> (r: Option<u32>)
    ensures
        r == spec_moved(selected, count, step, down),
{
    if count == 0 {
        selected
    } else {
        match selected {
            None => Some(0),
            Some(cur) => if down {
                if (cur as u64) + (step as u64) < (count as u64) - 1 {
                    Some(cur + step)
                } else {
                    Some(count - 1)
                }
            } else {
                if cur >= step {
                    Some(cur - step)
                } else {
                    Some(0)
                }
            },
        }
    }
}

/// The row selected when the palette's rows are shown with the cursor
/// asked for at row `cursor`: none when no row shows, else that row,
/// clamped to the last.
pub fn initial_selection(cursor: usize, shown: usize) -> (r: Option<u32>)
    ensures
        r == if shown == 0 {
            None::<u32>
        } else if cursor < shown - 1 {
            Some(cursor as u32)
        } else {
            Some((shown - 1) as u32)
        },
{
    if shown == 0 {
        None
    } else {
        let last = shown - 1;
        let row = if cursor < last { cursor } else { last };
        Some(row as u32)
    }
}

/// What choosing in the palette gives.
#[derive(Debug, Clone, PartialEq, Eq)]
pub enum PaletteChoice {
    /// The item at this position of the palette's items.
    Item(usize),
    /// The text typed, trimmed, run as a command line.
    Typed(String),
    /// Nothing: the palette stays open.
    Nothing,
}

/// What choosing gives: the selected row's item; with no row selected, in
/// the command palette, the trimmed text when some was typed; otherwise
/// nothing.
pub fn palette_choice(selected_item: Option<usize>, mode: PaletteMode, text: &str) -> (r: PaletteChoice)
    ensures
        match selected_item {
            Some(i) => r == PaletteChoice::Item(i),
            None => if mode == PaletteMode::Command && spec_trim(text@).len() > 0 {
                r matches PaletteChoice::Typed(t) && t@ == spec_trim(text@)
            } else {
                r == PaletteChoice::Nothing
            },
        },
{
    match selected_item {
        Some(i) => PaletteChoice::Item(i),
        None => {
            let t = trim_chars(&chars_of(text));
            if mode == PaletteMode::Command && t.len() > 0 {
                PaletteChoice::Typed(string_from_chars(&t))
            } else {
                PaletteChoice::Nothing
            }
        },
    }
}

/// The counter beside the search field: rows shown of all items.
pub fn counter_text(shown: usize, total: usize) -> (r: String)
    ensures
        r@ == spec_decimal(shown as nat) + " / "@ + spec_decimal(total as nat),
{
    let mut v: Vec<char> = Vec::new();
    push_all(&mut v, &decimal_chars(shown as u64));
    push_str(&mut v, " / ");
    push_all(&mut v, &decimal_chars(total as u64));
    string_from_chars(&v)
}

} // verus!
