//! Keyboard routing: which key presses the menu and the console get, and who
//! holds the focus.

use vstd::prelude::*;

use crate::shell::input::{InputState, Key};

verus! {

/// True only when a key goes from up to down. The latch remembers how it was.
pub fn pressed_once(down: bool, latch: &mut bool) -> (fired: bool)
    ensures
        fired == (down && !*old(latch)),
        *final(latch) == down,
{
    let fired: bool = down && !*latch;
    *latch = down;
    fired
}

/// The keys that the menu and the console read.
#[derive(Clone, Copy, Debug, PartialEq, Eq, Structural)]
pub struct UiKeys {
    pub menu_toggle: bool,
    pub console_toggle: bool,
    pub up: bool,
    pub down: bool,
    pub enter: bool,
    pub backspace: bool,
    pub delete: bool,
    pub left: bool,
    pub right: bool,
    pub home: bool,
    pub end: bool,
    pub page_up: bool,
    pub page_down: bool,
}

/// Which of these keys are held: Tab is for the menu and the backquote for the
/// console.
pub open spec fn ui_keys_held(input: InputState) -> UiKeys {
    UiKeys {
        menu_toggle: input.key_down(Key::Tab),
        console_toggle: input.key_down(Key::Backquote),
        up: input.key_down(Key::ArrowUp),
        down: input.key_down(Key::ArrowDown),
        enter: input.key_down(Key::Enter),
        backspace: input.key_down(Key::Backspace),
        delete: input.key_down(Key::Delete),
        left: input.key_down(Key::ArrowLeft),
        right: input.key_down(Key::ArrowRight),
        home: input.key_down(Key::Home),
        end: input.key_down(Key::End),
        page_up: input.key_down(Key::PageUp),
        page_down: input.key_down(Key::PageDown),
    }
}

/// Read the keys that the menu and the console want.
pub fn ui_keys(input: &InputState) -> (r: UiKeys)
    ensures
        r == ui_keys_held(*input),
{
    UiKeys {
        menu_toggle: input.is_key_pressed(Key::Tab),
        console_toggle: input.is_key_pressed(Key::Backquote),
        up: input.is_key_pressed(Key::ArrowUp),
        down: input.is_key_pressed(Key::ArrowDown),
        enter: input.is_key_pressed(Key::Enter),
        backspace: input.is_key_pressed(Key::Backspace),
        delete: input.is_key_pressed(Key::Delete),
        left: input.is_key_pressed(Key::ArrowLeft),
        right: input.is_key_pressed(Key::ArrowRight),
        home: input.is_key_pressed(Key::Home),
        end: input.is_key_pressed(Key::End),
        page_up: input.is_key_pressed(Key::PageUp),
        page_down: input.is_key_pressed(Key::PageDown),
    }
}

/// Keys that went down since `was`.
pub open spec fn newly(down: UiKeys, was: UiKeys) -> UiKeys {
    UiKeys {
        menu_toggle: down.menu_toggle && !was.menu_toggle,
        console_toggle: down.console_toggle && !was.console_toggle,
        up: down.up && !was.up,
        down: down.down && !was.down,
        enter: down.enter && !was.enter,
        backspace: down.backspace && !was.backspace,
        delete: down.delete && !was.delete,
        left: down.left && !was.left,
        right: down.right && !was.right,
        home: down.home && !was.home,
        end: down.end && !was.end,
        page_up: down.page_up && !was.page_up,
        page_down: down.page_down && !was.page_down,
    }
}

/// What the console is asked to do.
#[derive(Clone, Copy, Debug, PartialEq, Eq, Structural)]
pub enum ConsoleAction {
    Submit,
    Backspace,
    Delete,
    Left,
    Right,
    Home,
    End,
    HistoryPrev,
    HistoryNext,
}

/// What the menu is asked to do.
#[derive(Clone, Copy, Debug, PartialEq, Eq, Structural)]
pub enum MenuAction {
    Up,
    Down,
    Activate,
    Back,
}

/// One step of a frame's keyboard routing.
#[derive(Clone, Copy, Debug, PartialEq, Eq, Structural)]
pub enum UiStep {
    OpenMenu,
    CloseMenu,
    OpenConsole,
    CloseConsole,
    /// Show the current settings in the menu.
    SyncMenu,
    /// Drop what was typed.
    ClearTyped,
    /// Put what was typed into the console's input line.
    InsertTyped,
    Console(ConsoleAction),
    /// Scroll the console by so many lines.
    ScrollUp(u32),
    ScrollDown(u32),
    Menu(MenuAction),
}

/// Who holds the keyboard, and which keys were down.
#[derive(Clone, Copy, Debug, PartialEq, Eq, Structural)]
pub struct UiState {
    pub menu_open: bool,
    pub console_open: bool,
    pub latches: UiKeys,
}

/// No key.
pub open spec fn no_keys() -> UiKeys {
    UiKeys {
        menu_toggle: false,
        console_toggle: false,
        up: false,
        down: false,
        enter: false,
        backspace: false,
        delete: false,
        left: false,
        right: false,
        home: false,
        end: false,
        page_up: false,
        page_down: false,
    }
}

/// A list of at most one step.
pub open spec fn step_if(wanted: bool, step: UiStep) -> Seq<UiStep> {
    if wanted {
        seq![step]
    } else {
        seq![]
    }
}

impl UiState {
    /// The menu and the console are never open together, so that the focus is
    /// never ambiguous.
    pub open spec fn wf(self) -> bool {
        !(self.menu_open && self.console_open)
    }

    /// Some layer holds the keyboard.
    pub open spec fn focused(self) -> bool {
        self.console_open || self.menu_open
    }

    /// The menu key pressed.
    pub open spec fn menu_key(self) -> (UiState, Seq<UiStep>) {
        if self.menu_open {
            (UiState { menu_open: false, ..self }, seq![UiStep::CloseMenu])
        } else {
            (
                UiState { menu_open: true, console_open: false, ..self },
                seq![UiStep::CloseConsole, UiStep::OpenMenu, UiStep::SyncMenu],
            )
        }
    }

    /// The console key pressed; the key's own character is dropped.
    pub open spec fn console_key(self) -> (UiState, Seq<UiStep>) {
        if self.console_open {
            (
                UiState { console_open: false, ..self },
                seq![UiStep::CloseConsole, UiStep::ClearTyped],
            )
        } else {
            (
                UiState { menu_open: false, console_open: true, ..self },
                seq![UiStep::CloseMenu, UiStep::OpenConsole, UiStep::ClearTyped],
            )
        }
    }

    /// The state and steps after the two keys that open and close.
    pub open spec fn toggled(self, fired: UiKeys) -> (UiState, Seq<UiStep>) {
        let (a, first) = if fired.menu_toggle {
            self.menu_key()
        } else {
            (self, seq![])
        };
        let (b, second) = if fired.console_toggle {
            a.console_key()
        } else {
            (a, seq![])
        };
        (b, first + second)
    }

    /// What the layer that is open gets.
    pub open spec fn routed(self, fired: UiKeys) -> Seq<UiStep> {
        if self.console_open {
            console_part(fired)
        } else if self.menu_open {
            menu_part(fired)
        } else {
            seq![]
        }
    }

    /// The state and the steps of a frame in which `down` keys are held.
    pub open spec fn updated(self, down: UiKeys) -> (UiState, Seq<UiStep>) {
        let fired = newly(down, self.latches);
        let (after, toggles) = self.toggled(fired);
        (UiState { latches: down, ..after }, toggles + after.routed(fired))
    }

    /// Nothing open, no key held.
    pub fn new() -> (r: Self)
        ensures
            r == (UiState { menu_open: false, console_open: false, latches: no_keys() }),
            r.wf(),
            !r.focused(),
    {
        let keys = UiKeys {
            menu_toggle: false,
            console_toggle: false,
            up: false,
            down: false,
            enter: false,
            backspace: false,
            delete: false,
            left: false,
            right: false,
            home: false,
            end: false,
            page_up: false,
            page_down: false,
        };
        UiState { menu_open: false, console_open: false, latches: keys }
    }

    /// Whether a layer wants typed characters.
    pub fn ui_wants_text(&self) -> (r: bool)
        ensures
            r == self.console_open,
    {
        self.console_open
    }

    /// Whether a layer holds the keyboard, so that the camera must not react.
    pub fn ui_has_focus(&self) -> (r: bool)
        ensures
            r == self.focused(),
    {
        self.console_open || self.menu_open
    }

    /// Route one frame of keyboard input. Every key is latched whether or not it
    /// is used, so that a key held while a layer opens does not act on it.
    pub fn update_ui(&mut self, down: UiKeys) -> (steps: Vec<UiStep>)
        requires
            old(self).wf(),
        ensures
            final(self).wf(),
            (*final(self), steps@) == old(self).updated(down),
    {
        let ghost start = *self;
        let fired: UiKeys = fired_keys(down, self.latches);
        self.latches = down;
        let mut steps: Vec<UiStep> = Vec::new();
        if fired.menu_toggle {
            if self.menu_open {
                self.menu_open = false;
                steps.push(UiStep::CloseMenu);
            } else {
                self.console_open = false;
                self.menu_open = true;
                steps.push(UiStep::CloseConsole);
                steps.push(UiStep::OpenMenu);
                steps.push(UiStep::SyncMenu);
            }
        }
        if fired.console_toggle {
            if self.console_open {
                self.console_open = false;
                steps.push(UiStep::CloseConsole);
            } else {
                self.menu_open = false;
                self.console_open = true;
                steps.push(UiStep::CloseMenu);
                steps.push(UiStep::OpenConsole);
            }
            steps.push(UiStep::ClearTyped);
        }
        assert(steps@ =~= start.toggled(fired).1);
        if self.console_open {
            console_steps(&mut steps, fired);
        } else if self.menu_open {
            menu_steps(&mut steps, fired);
        } else {
            assert(steps@ + seq![] =~= steps@);
        }
        steps
    }

    /// What Escape does: the console closes, the menu steps back, or no layer
    /// uses the key.
    pub open spec fn escaped(self) -> (UiState, Seq<UiStep>) {
        if self.console_open {
            (
                UiState { console_open: false, ..self },
                seq![UiStep::CloseConsole, UiStep::ClearTyped],
            )
        } else if self.menu_open {
            (self, seq![UiStep::Menu(MenuAction::Back)])
        } else {
            (self, seq![])
        }
    }

    /// Handle Escape. The application must exit only where no layer used the
    /// key, that is where there are no steps.
    pub fn handle_escape(&mut self) -> (steps: Vec<UiStep>)
        ensures
            (*final(self), steps@) == old(self).escaped(),
            steps@.len() == 0 <==> !old(self).focused(),
    {
        let mut steps: Vec<UiStep> = Vec::new();
        let ghost start = *self;
        if self.console_open {
            self.console_open = false;
            steps.push(UiStep::CloseConsole);
            steps.push(UiStep::ClearTyped);
        } else if self.menu_open {
            steps.push(UiStep::Menu(MenuAction::Back));
        }
        assert(steps@ =~= start.escaped().1);
        steps
    }
}

/// The keys that went down since `was`.
fn fired_keys(down: UiKeys, was: UiKeys) -> (fired: UiKeys)
    ensures
        fired == newly(down, was),
{
    UiKeys {
        menu_toggle: down.menu_toggle && !was.menu_toggle,
        console_toggle: down.console_toggle && !was.console_toggle,
        up: down.up && !was.up,
        down: down.down && !was.down,
        enter: down.enter && !was.enter,
        backspace: down.backspace && !was.backspace,
        delete: down.delete && !was.delete,
        left: down.left && !was.left,
        right: down.right && !was.right,
        home: down.home && !was.home,
        end: down.end && !was.end,
        page_up: down.page_up && !was.page_up,
        page_down: down.page_down && !was.page_down,
    }
}

fn push_if(steps: &mut Vec<UiStep>, wanted: bool, step: UiStep)
    ensures
        final(steps)@ == old(steps)@ + step_if(wanted, step),
{
    let ghost before = steps@;
    if wanted {
        steps.push(step);
    }
    assert(steps@ =~= before + step_if(wanted, step));
}

/// The steps of an open console.
pub open spec fn console_part(fired: UiKeys) -> Seq<UiStep> {
    seq![UiStep::InsertTyped] + step_if(fired.enter, UiStep::Console(ConsoleAction::Submit))
        + step_if(fired.backspace, UiStep::Console(ConsoleAction::Backspace)) + step_if(
        fired.delete,
        UiStep::Console(ConsoleAction::Delete),
    ) + step_if(fired.left, UiStep::Console(ConsoleAction::Left)) + step_if(
        fired.right,
        UiStep::Console(ConsoleAction::Right),
    ) + step_if(fired.home, UiStep::Console(ConsoleAction::Home)) + step_if(
        fired.end,
        UiStep::Console(ConsoleAction::End),
    ) + step_if(fired.up, UiStep::Console(ConsoleAction::HistoryPrev)) + step_if(
        fired.down,
        UiStep::Console(ConsoleAction::HistoryNext),
    ) + step_if(fired.page_up, UiStep::ScrollUp(4)) + step_if(
        fired.page_down,
        UiStep::ScrollDown(4),
    )
}

fn console_steps(steps: &mut Vec<UiStep>, fired: UiKeys)
    ensures
        final(steps)@ == old(steps)@ + console_part(fired),
{
    let mut list: Vec<UiStep> = vec![UiStep::InsertTyped];
    assert(list@ =~= seq![UiStep::InsertTyped]);
    push_if(&mut list, fired.enter, UiStep::Console(ConsoleAction::Submit));
    push_if(&mut list, fired.backspace, UiStep::Console(ConsoleAction::Backspace));
    push_if(&mut list, fired.delete, UiStep::Console(ConsoleAction::Delete));
    push_if(&mut list, fired.left, UiStep::Console(ConsoleAction::Left));
    push_if(&mut list, fired.right, UiStep::Console(ConsoleAction::Right));
    push_if(&mut list, fired.home, UiStep::Console(ConsoleAction::Home));
    push_if(&mut list, fired.end, UiStep::Console(ConsoleAction::End));
    push_if(&mut list, fired.up, UiStep::Console(ConsoleAction::HistoryPrev));
    push_if(&mut list, fired.down, UiStep::Console(ConsoleAction::HistoryNext));
    push_if(&mut list, fired.page_up, UiStep::ScrollUp(4));
    push_if(&mut list, fired.page_down, UiStep::ScrollDown(4));
    steps.append(&mut list);
}

/// The steps of an open menu.
pub open spec fn menu_part(fired: UiKeys) -> Seq<UiStep> {
    seq![UiStep::ClearTyped] + step_if(fired.up, UiStep::Menu(MenuAction::Up)) + step_if(
        fired.down,
        UiStep::Menu(MenuAction::Down),
    ) + step_if(fired.enter, UiStep::Menu(MenuAction::Activate))
}

fn menu_steps(steps: &mut Vec<UiStep>, fired: UiKeys)
    ensures
        final(steps)@ == old(steps)@ + menu_part(fired),
{
    let mut list: Vec<UiStep> = vec![UiStep::ClearTyped];
    assert(list@ =~= seq![UiStep::ClearTyped]);
    push_if(&mut list, fired.up, UiStep::Menu(MenuAction::Up));
    push_if(&mut list, fired.down, UiStep::Menu(MenuAction::Down));
    push_if(&mut list, fired.enter, UiStep::Menu(MenuAction::Activate));
    steps.append(&mut list);
}

// --- laws --------------------------------------------------------------------

/// A key that stays down acts once: with the same keys held, the next frame
/// opens, closes and sends nothing, but for handing over what was typed.
pub proof fn law_held_keys_act_once(state: UiState, down: UiKeys)
    requires
        state.wf(),
    ensures
        ({
            let once = state.updated(down).0;
            let (twice, steps) = once.updated(down);
            &&& twice == once
            &&& steps == (if once.console_open {
                seq![UiStep::InsertTyped]
            } else if once.menu_open {
                seq![UiStep::ClearTyped]
            } else {
                seq![]
            })
        }),
{
    let once = state.updated(down).0;
    let (twice, steps) = once.updated(down);
    let quiet = newly(down, once.latches);
    assert(quiet == no_keys());
    assert(steps =~= once.routed(quiet));
    if once.console_open {
        assert(console_part(quiet) =~= seq![UiStep::InsertTyped]);
    } else if once.menu_open {
        assert(menu_part(quiet) =~= seq![UiStep::ClearTyped]);
    }
}

/// The menu and the console are never open together, whatever keys are pressed.
pub proof fn law_one_layer_has_the_focus(state: UiState, down: UiKeys)
    requires
        state.wf(),
    ensures
        state.updated(down).0.wf(),
        state.escaped().0.wf(),
{
}

/// Without a layer open, keys other than the two that open one send nothing.
pub proof fn law_closed_layers_take_no_keys(state: UiState, down: UiKeys)
    requires
        !state.focused(),
        !down.menu_toggle,
        !down.console_toggle,
    ensures
        state.updated(down).1.len() == 0,
        !state.updated(down).0.focused(),
{
}

} // verus!
