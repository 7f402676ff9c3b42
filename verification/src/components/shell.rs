//! The application's model: how it starts, the messages its views send,
//! and what each message changes or asks the caller to do.

use vstd::prelude::*;
use crate::components::which_key::WhichKeyData;
use crate::editor::document::DocumentId;
use crate::editor::state::EditorState;
use crate::keymap::actions::Mode;
use crate::config::editor::str_eq;
use crate::text::unicode::{str_to_lowercase, unicode_str_to_lowercase};

verus! {

/// How the application is started: optionally with a path to open.
#[derive(Debug, Clone, Default)]
pub struct AppInit {
    pub target_path: Option<String>,
}

/// Which palette the view should open next.
#[derive(Debug, Clone, Copy, PartialEq, Eq, Structural)]
pub enum PaletteOpenRequest {
    File,
    Buffer,
    Command,
}

/// A message to the application.
#[derive(Debug)]
pub enum AppMsg {
    ModeChanged(Mode),
    DocumentChanged(DocumentId),
    OpenFilePicker,
    OpenBufferPicker,
    OpenCommandPalette,
    OpenFile(String),
    ExecuteCommand(String),
    ShowWhichKey(WhichKeyData),
    HideWhichKey,
    Quit,
    Noop,
}

/// What the caller does after a message: nothing, open a file, run a
/// command line, or quit.
#[derive(Debug, Clone, PartialEq, Eq)]
pub enum AppEffect {
    Nothing,
    OpenFile(String),
    ExecuteCommand(String),
    Quit,
}

/// The application's own state: the mode shown, the overlay shown, and a
/// palette waiting to be opened.
#[derive(Debug)]
pub struct AppModel {
    pub mode: Mode,
    pub which_key: Option<WhichKeyData>,
    pub pending_palette: Option<PaletteOpenRequest>,
}

/// What a message does to the model `m0` and the editor state `s0`: a
/// mode change is recorded in both; a document change switches to it; the
/// overlay is shown or hidden; a palette request waits to be opened; files
/// to open, command lines and quitting are left to the caller.
pub open spec fn updated(
    m0: AppModel,
    s0: EditorState,
    msg: AppMsg,
    m1: AppModel,
    s1: EditorState,
    e: AppEffect,
) -> bool {
    match msg {
        AppMsg::ModeChanged(mode) => {
            &&& m1 == (AppModel { mode, ..m0 })
            &&& s1 == (EditorState { mode, ..s0 })
            &&& e == AppEffect::Nothing
        },
        AppMsg::DocumentChanged(id) => {
            &&& m1 == m0
            &&& if s0.documents@.contains(id) {
                &&& EditorState::only_switched(s0, s1)
                &&& s1.current_document_id == id
                &&& s1.access_history@ == crate::editor::state::without(s0.access_history@, id).push(id)
            } else {
                s1 == s0
            }
            &&& e == AppEffect::Nothing
        },
        AppMsg::OpenFile(p) => m1 == m0 && s1 == s0 && (e matches AppEffect::OpenFile(q) && q@ == p@),
        AppMsg::ExecuteCommand(c) => m1 == m0 && s1 == s0 && (e matches AppEffect::ExecuteCommand(d) && d@
            == c@),
        AppMsg::ShowWhichKey(w) => m1 == (AppModel { which_key: Some(w), ..m0 }) && s1 == s0 && e
            == AppEffect::Nothing,
        AppMsg::HideWhichKey => m1 == (AppModel { which_key: None, ..m0 }) && s1 == s0 && e
            == AppEffect::Nothing,
        AppMsg::OpenFilePicker => m1 == (AppModel {
            pending_palette: Some(PaletteOpenRequest::File),
            ..m0
        }) && s1 == s0 && e == AppEffect::Nothing,
        AppMsg::OpenBufferPicker => m1 == (AppModel {
            pending_palette: Some(PaletteOpenRequest::Buffer),
            ..m0
        }) && s1 == s0 && e == AppEffect::Nothing,
        AppMsg::OpenCommandPalette => m1 == (AppModel {
            pending_palette: Some(PaletteOpenRequest::Command),
            ..m0
        }) && s1 == s0 && e == AppEffect::Nothing,
        AppMsg::Quit => m1 == m0 && s1 == s0 && e == AppEffect::Quit,
        AppMsg::Noop => m1 == m0 && s1 == s0 && e == AppEffect::Nothing,
    }
}

impl AppModel {
    /// The model at start: normal mode, no overlay, no palette waiting.
    pub fn new() -> (r: AppModel)
        ensures
            r.mode == Mode::Normal,
            r.which_key is None,
            r.pending_palette is None,
    {
        AppModel { mode: Mode::Normal, which_key: None, pending_palette: None }
    }

    /// Handles a message (see `updated`).
    pub fn update(&mut self, state: &mut EditorState, msg: AppMsg) -> (e: AppEffect)
        ensures
            updated(*old(self), *old(state), msg, *final(self), *final(state), e),
    {
        match msg {
            AppMsg::ModeChanged(mode) => {
                self.mode = mode;
                state.mode = mode;
                AppEffect::Nothing
            },
            AppMsg::DocumentChanged(id) => {
                state.switch_document(id);
                AppEffect::Nothing
            },
            AppMsg::OpenFile(p) => AppEffect::OpenFile(p),
            AppMsg::ExecuteCommand(c) => AppEffect::ExecuteCommand(c),
            AppMsg::ShowWhichKey(w) => {
                self.which_key = Some(w);
                AppEffect::Nothing
            },
            AppMsg::HideWhichKey => {
                self.which_key = None;
                AppEffect::Nothing
            },
            AppMsg::OpenFilePicker => {
                self.pending_palette = Some(PaletteOpenRequest::File);
                AppEffect::Nothing
            },
            AppMsg::OpenBufferPicker => {
                self.pending_palette = Some(PaletteOpenRequest::Buffer);
                AppEffect::Nothing
            },
            AppMsg::OpenCommandPalette => {
                self.pending_palette = Some(PaletteOpenRequest::Command);
                AppEffect::Nothing
            },
            AppMsg::Quit => AppEffect::Quit,
            AppMsg::Noop => AppEffect::Nothing,
        }
    }

    /// The palette waiting to be opened, which no longer waits.
    pub fn take_pending_palette(&mut self) -> (r: Option<PaletteOpenRequest>)
        ensures
            r == old(self).pending_palette,
            *final(self) == (AppModel { pending_palette: None, ..*old(self) }),
    {
        let r = self.pending_palette;
        self.pending_palette = None;
        r
    }
}

/// The colour scheme the window asks for.
#[derive(Debug, Clone, Copy, PartialEq, Eq, Structural)]
pub enum ColorSchemeChoice {
    ForceDark,
    ForceLight,
    Default,
}

/// The colour scheme a `theme-variant` setting names, in any case:
/// `dark`, `light`, or `system`/`default`; `None` for another name.
pub fn color_scheme_for(variant: &str) -> (r: Option<ColorSchemeChoice>)
    ensures
        ({
            let v = unicode_str_to_lowercase(variant@);
            r == if v == "dark"@ {
                Some(ColorSchemeChoice::ForceDark)
            } else if v == "light"@ {
                Some(ColorSchemeChoice::ForceLight)
            } else if v == "system"@ || v == "default"@ {
                Some(ColorSchemeChoice::Default)
            } else {
                None
            }
        }),
{
    let lower = str_to_lowercase(variant);
    let v = lower.as_str();
    if str_eq(v, "dark") {
        Some(ColorSchemeChoice::ForceDark)
    } else if str_eq(v, "light") {
        Some(ColorSchemeChoice::ForceLight)
    } else if str_eq(v, "system") || str_eq(v, "default") {
        Some(ColorSchemeChoice::Default)
    } else {
        None
    }
}

/// The pixels above and below each line for a line spacing: half of it
/// above (rounded down), the rest below; none when it is zero.
pub fn line_spacing_split(spacing: u32) -> (r: (u32, u32))
    ensures
        r.0 == spacing / 2,
        r.1 == spacing - spacing / 2,
        r.0 + r.1 == spacing,
{
    (spacing / 2, spacing - spacing / 2)
}

} // verus!
