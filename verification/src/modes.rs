//! Editing modes and the small pieces of state that key handling keeps.
use vstd::prelude::*;

verus! {

/// The browser's input mode.
#[derive(Debug, Clone, Copy, PartialEq, Eq, Structural)]
pub enum Mode {
    Normal,
    Insert,
    UrlNormal,
    UrlInsert,
    Command,
    Terminal,
    Hint,
}

/// The text shown for a mode in the mode label.
pub open spec fn mode_label(mode: Mode) -> Seq<char> {
    match mode {
        Mode::Normal => "NORMAL"@,
        Mode::Insert => "INSERT"@,
        Mode::UrlNormal => "URL"@,
        Mode::UrlInsert => "URL INSERT"@,
        Mode::Command => "COMMAND"@,
        Mode::Terminal => "TERMINAL"@,
        Mode::Hint => "HINT"@,
    }
}

impl Mode {
    /// The text shown for this mode in the mode label.
    pub fn label(&self) -> (s: String)
        ensures
            s@ == mode_label(*self),
    {
        match self {
            Mode::Normal => String::from_str("NORMAL"),
            Mode::Insert => String::from_str("INSERT"),
            Mode::UrlNormal => String::from_str("URL"),
            Mode::UrlInsert => String::from_str("URL INSERT"),
            Mode::Command => String::from_str("COMMAND"),
            Mode::Terminal => String::from_str("TERMINAL"),
            Mode::Hint => String::from_str("HINT"),
        }
    }
}

/// The current mode of a window.
#[derive(Debug, Clone, Copy)]
pub struct ModeState {
    current: Mode,
}

impl View for ModeState {
    type V = Mode;

    closed spec fn view(&self) -> Mode {
        self.current
    }
}

/// The characters typed so far in Hint mode.
pub type HintBuffer = String;

/// Whether the next URL submitted from the command bar opens in a new tab.
pub type NewTabFlag = bool;

/// Whether a `g` was pressed in Normal mode and awaits the next key.
pub type GPrefix = bool;

/// A fresh mode state, in Normal mode.
pub fn new_mode_state() -> (state: ModeState)
    ensures
        state@ == Mode::Normal,
{
    ModeState { current: Mode::Normal }
}

/// An empty hint buffer.
pub fn new_hint_buffer() -> (buffer: HintBuffer)
    ensures
        buffer@ == Seq::<char>::empty(),
{
    String::new()
}

/// A new-tab flag that is not set.
pub fn new_tab_flag() -> (flag: NewTabFlag)
    ensures
        !flag,
{
    false
}

/// A `g` prefix that is not pending.
pub fn new_g_prefix() -> (prefix: GPrefix)
    ensures
        !prefix,
{
    false
}

/// Switches to `mode`; reading the state afterwards gives `mode`.
pub fn set_mode(state: &mut ModeState, mode: Mode)
    ensures
        final(state)@ == mode,
{
    state.current = mode;
}

/// The mode that the state holds.
pub fn current_mode(state: &ModeState) -> (mode: Mode)
    ensures
        mode == state@,
{
    state.current
}

} // verus!
