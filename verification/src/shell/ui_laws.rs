//! What the menu and console keys do, said key by key.

use vstd::prelude::*;
use crate::shell::input::{InputState, Key};
use crate::shell::ui::{
    console_part, menu_part, newly, step_if, ui_keys_held, ConsoleAction, MenuAction, UiKeys,
    UiState, UiStep,
};

verus! {

/// A key that is down now and was not before.
pub open spec fn pressed(was: InputState, now: InputState, key: Key) -> bool {
    now.key_down(key) && !was.key_down(key)
}

/// A list begins with one step, and another is in it if and only if `held`.
#[verifier::opaque]
spec fn lists(steps: Seq<UiStep>, first: UiStep, x: UiStep, held: bool) -> bool {
    steps.len() > 0 && steps[0] == first && (steps.contains(x) <==> held)
}

/// A list of one step.
proof fn lemma_lone_step(step: UiStep, x: UiStep)
    ensures
        lists(seq![step], step, x, x == step),
{
    reveal(lists);
    assert(seq![step][0] == step);
}

/// A list of steps with one more at its end, where that is wanted.
proof fn lemma_one_more(
    before: Seq<UiStep>,
    first: UiStep,
    x: UiStep,
    held: bool,
    wanted: bool,
    step: UiStep,
)
    requires
        lists(before, first, x, held),
    ensures
        lists(before + step_if(wanted, step), first, x, held || (wanted && x == step)),
{
    reveal(lists);
    let after = before + step_if(wanted, step);
    if before.contains(x) {
        let i = choose|i: int| 0 <= i < before.len() && before[i] == x;
        assert(after[i] == x);
    }
    if wanted && x == step {
        assert(after[before.len() as int] == x);
    }
    if after.contains(x) {
        let i = choose|i: int| 0 <= i < after.len() && after[i] == x;
        if i < before.len() {
            assert(before[i] == x);
        }
    }
}

/// What an open console is asked to do.
proof fn lemma_console_part(fired: UiKeys, x: UiStep)
    ensures
        lists(
            console_part(fired),
            UiStep::InsertTyped,
            x,
            x == UiStep::InsertTyped || (fired.enter && x
                == UiStep::Console(ConsoleAction::Submit)) || (fired.backspace && x
                == UiStep::Console(ConsoleAction::Backspace)) || (fired.delete && x
                == UiStep::Console(ConsoleAction::Delete)) || (fired.left && x
                == UiStep::Console(ConsoleAction::Left)) || (fired.right && x
                == UiStep::Console(ConsoleAction::Right)) || (fired.home && x
                == UiStep::Console(ConsoleAction::Home)) || (fired.end && x
                == UiStep::Console(ConsoleAction::End)) || (fired.up && x
                == UiStep::Console(ConsoleAction::HistoryPrev)) || (fired.down && x
                == UiStep::Console(ConsoleAction::HistoryNext)) || (fired.page_up && x
                == UiStep::ScrollUp(4)) || (fired.page_down && x
                == UiStep::ScrollDown(4)),
        ),
{
    let first = UiStep::InsertTyped;
    let p0 = seq![first];
    let h0 = x == first;
    lemma_lone_step(first, x);
    let s1 = UiStep::Console(ConsoleAction::Submit);
    lemma_one_more(p0, first, x, h0, fired.enter, s1);
    let p1 = p0 + step_if(fired.enter, s1);
    let h1 = h0 || (fired.enter && x == s1);
    let s2 = UiStep::Console(ConsoleAction::Backspace);
    lemma_one_more(p1, first, x, h1, fired.backspace, s2);
    let p2 = p1 + step_if(fired.backspace, s2);
    let h2 = h1 || (fired.backspace && x == s2);
    let s3 = UiStep::Console(ConsoleAction::Delete);
    lemma_one_more(p2, first, x, h2, fired.delete, s3);
    let p3 = p2 + step_if(fired.delete, s3);
    let h3 = h2 || (fired.delete && x == s3);
    let s4 = UiStep::Console(ConsoleAction::Left);
    lemma_one_more(p3, first, x, h3, fired.left, s4);
    let p4 = p3 + step_if(fired.left, s4);
    let h4 = h3 || (fired.left && x == s4);
    let s5 = UiStep::Console(ConsoleAction::Right);
    lemma_one_more(p4, first, x, h4, fired.right, s5);
    let p5 = p4 + step_if(fired.right, s5);
    let h5 = h4 || (fired.right && x == s5);
    let s6 = UiStep::Console(ConsoleAction::Home);
    lemma_one_more(p5, first, x, h5, fired.home, s6);
    let p6 = p5 + step_if(fired.home, s6);
    let h6 = h5 || (fired.home && x == s6);
    let s7 = UiStep::Console(ConsoleAction::End);
    lemma_one_more(p6, first, x, h6, fired.end, s7);
    let p7 = p6 + step_if(fired.end, s7);
    let h7 = h6 || (fired.end && x == s7);
    let s8 = UiStep::Console(ConsoleAction::HistoryPrev);
    lemma_one_more(p7, first, x, h7, fired.up, s8);
    let p8 = p7 + step_if(fired.up, s8);
    let h8 = h7 || (fired.up && x == s8);
    let s9 = UiStep::Console(ConsoleAction::HistoryNext);
    lemma_one_more(p8, first, x, h8, fired.down, s9);
    let p9 = p8 + step_if(fired.down, s9);
    let h9 = h8 || (fired.down && x == s9);
    let s10 = UiStep::ScrollUp(4);
    lemma_one_more(p9, first, x, h9, fired.page_up, s10);
    let p10 = p9 + step_if(fired.page_up, s10);
    let h10 = h9 || (fired.page_up && x == s10);
    let s11 = UiStep::ScrollDown(4);
    lemma_one_more(p10, first, x, h10, fired.page_down, s11);
    let p11 = p10 + step_if(fired.page_down, s11);
    let h11 = h10 || (fired.page_down && x == s11);
}

/// What an open menu is asked to do.
proof fn lemma_menu_part(fired: UiKeys, x: UiStep)
    ensures
        lists(
            menu_part(fired),
            UiStep::ClearTyped,
            x,
            x == UiStep::ClearTyped || (fired.up && x
                == UiStep::Menu(MenuAction::Up)) || (fired.down && x
                == UiStep::Menu(MenuAction::Down)) || (fired.enter && x
                == UiStep::Menu(MenuAction::Activate)),
        ),
{
    let first = UiStep::ClearTyped;
    let p0 = seq![first];
    let h0 = x == first;
    lemma_lone_step(first, x);
    let s1 = UiStep::Menu(MenuAction::Up);
    lemma_one_more(p0, first, x, h0, fired.up, s1);
    let p1 = p0 + step_if(fired.up, s1);
    let h1 = h0 || (fired.up && x == s1);
    let s2 = UiStep::Menu(MenuAction::Down);
    lemma_one_more(p1, first, x, h1, fired.down, s2);
    let p2 = p1 + step_if(fired.down, s2);
    let h2 = h1 || (fired.down && x == s2);
    let s3 = UiStep::Menu(MenuAction::Activate);
    lemma_one_more(p2, first, x, h2, fired.enter, s3);
    let p3 = p2 + step_if(fired.enter, s3);
    let h3 = h2 || (fired.enter && x == s3);
}

/// While the console is open, what was typed is taken in first, and each editing key
/// does its one thing when it goes down.
pub proof fn law_console_keys(s: UiState, was: InputState, now: InputState)
    requires
        s.wf(),
        s.console_open,
        s.latches == ui_keys_held(was),
        !pressed(was, now, Key::Tab),
        !pressed(was, now, Key::Backquote),
    ensures
        ({
            let steps = s.updated(ui_keys_held(now)).1;
            &&& steps.len() > 0 && steps[0] == UiStep::InsertTyped
            &&& steps.contains(UiStep::Console(ConsoleAction::Submit)) <==> pressed(was, now, Key::Enter)
            &&& steps.contains(UiStep::Console(ConsoleAction::Backspace)) <==> pressed(was, now, Key::Backspace)
            &&& steps.contains(UiStep::Console(ConsoleAction::Delete)) <==> pressed(was, now, Key::Delete)
            &&& steps.contains(UiStep::Console(ConsoleAction::Left)) <==> pressed(was, now, Key::ArrowLeft)
            &&& steps.contains(UiStep::Console(ConsoleAction::Right)) <==> pressed(was, now, Key::ArrowRight)
            &&& steps.contains(UiStep::Console(ConsoleAction::Home)) <==> pressed(was, now, Key::Home)
            &&& steps.contains(UiStep::Console(ConsoleAction::End)) <==> pressed(was, now, Key::End)
            &&& steps.contains(UiStep::Console(ConsoleAction::HistoryPrev)) <==> pressed(was, now, Key::ArrowUp)
            &&& steps.contains(UiStep::Console(ConsoleAction::HistoryNext)) <==> pressed(was, now, Key::ArrowDown)
            &&& steps.contains(UiStep::ScrollUp(4)) <==> pressed(was, now, Key::PageUp)
            &&& steps.contains(UiStep::ScrollDown(4)) <==> pressed(was, now, Key::PageDown)
            &&& forall|a: MenuAction|
                #![trigger steps.contains(UiStep::Menu(a))]
                !steps.contains(UiStep::Menu(a))
        }),
{
    let fired = newly(ui_keys_held(now), ui_keys_held(was));
    reveal(lists);
    assert(s.updated(ui_keys_held(now)).1 =~= console_part(fired));
    lemma_console_part(fired, UiStep::Console(ConsoleAction::Submit));
    lemma_console_part(fired, UiStep::Console(ConsoleAction::Backspace));
    lemma_console_part(fired, UiStep::Console(ConsoleAction::Delete));
    lemma_console_part(fired, UiStep::Console(ConsoleAction::Left));
    lemma_console_part(fired, UiStep::Console(ConsoleAction::Right));
    lemma_console_part(fired, UiStep::Console(ConsoleAction::Home));
    lemma_console_part(fired, UiStep::Console(ConsoleAction::End));
    lemma_console_part(fired, UiStep::Console(ConsoleAction::HistoryPrev));
    lemma_console_part(fired, UiStep::Console(ConsoleAction::HistoryNext));
    lemma_console_part(fired, UiStep::ScrollUp(4));
    lemma_console_part(fired, UiStep::ScrollDown(4));
    assert forall|a: MenuAction|
        #![trigger console_part(fired).contains(UiStep::Menu(a))]
        !console_part(fired).contains(UiStep::Menu(a)) by {
        lemma_console_part(fired, UiStep::Menu(a));
    }
}

/// While the menu is open, the arrow keys move in it and Enter activates.
pub proof fn law_menu_keys(s: UiState, was: InputState, now: InputState)
    requires
        s.wf(),
        s.menu_open,
        s.latches == ui_keys_held(was),
        !pressed(was, now, Key::Tab),
        !pressed(was, now, Key::Backquote),
    ensures
        ({
            let steps = s.updated(ui_keys_held(now)).1;
            &&& steps.len() > 0 && steps[0] == UiStep::ClearTyped
            &&& steps.contains(UiStep::Menu(MenuAction::Up)) <==> pressed(was, now, Key::ArrowUp)
            &&& steps.contains(UiStep::Menu(MenuAction::Down)) <==> pressed(was, now, Key::ArrowDown)
            &&& steps.contains(UiStep::Menu(MenuAction::Activate)) <==> pressed(was, now, Key::Enter)
            &&& forall|a: ConsoleAction|
                #![trigger steps.contains(UiStep::Console(a))]
                !steps.contains(UiStep::Console(a))
        }),
{
    let fired = newly(ui_keys_held(now), ui_keys_held(was));
    reveal(lists);
    assert(s.updated(ui_keys_held(now)).1 =~= menu_part(fired));
    lemma_menu_part(fired, UiStep::Menu(MenuAction::Up));
    lemma_menu_part(fired, UiStep::Menu(MenuAction::Down));
    lemma_menu_part(fired, UiStep::Menu(MenuAction::Activate));
    assert forall|a: ConsoleAction|
        #![trigger menu_part(fired).contains(UiStep::Console(a))]
        !menu_part(fired).contains(UiStep::Console(a)) by {
        lemma_menu_part(fired, UiStep::Console(a));
    }
}

/// Tab opens and closes the menu, the backquote key the console, each when it goes
/// down; opening one closes the other. Without either, both stay as they are, and
/// what is held is remembered.
pub proof fn law_toggle_keys(s: UiState, was: InputState, now: InputState)
    requires
        s.wf(),
        s.latches == ui_keys_held(was),
    ensures
        ({
            let r = s.updated(ui_keys_held(now)).0;
            let tab = pressed(was, now, Key::Tab);
            let quote = pressed(was, now, Key::Backquote);
            &&& r.latches == ui_keys_held(now)
            &&& !tab && !quote ==> r.menu_open == s.menu_open && r.console_open == s.console_open
            &&& tab && !quote ==> r.menu_open == !s.menu_open && (!s.menu_open ==> !r.console_open)
            &&& quote && !tab ==> r.console_open == !s.console_open && (!s.console_open
                ==> !r.menu_open)
            &&& !(r.menu_open && r.console_open)
        }),
{
}

/// Nothing happens while neither is open and neither is opened.
pub proof fn law_closed_keys(s: UiState, was: InputState, now: InputState)
    requires
        !s.menu_open,
        !s.console_open,
        s.latches == ui_keys_held(was),
        !pressed(was, now, Key::Tab),
        !pressed(was, now, Key::Backquote),
    ensures
        s.updated(ui_keys_held(now)).1.len() == 0,
{
}

/// Opening and closing are told to the widgets: an opened menu is brought up to date,
/// and a console that opens or closes forgets what was typed.
pub proof fn law_toggles_are_told(s: UiState)
    requires
        s.wf(),
    ensures
        s.menu_key().1 == (if s.menu_open {
            seq![UiStep::CloseMenu]
        } else {
            seq![UiStep::CloseConsole, UiStep::OpenMenu, UiStep::SyncMenu]
        }),
        s.console_key().1 == (if s.console_open {
            seq![UiStep::CloseConsole, UiStep::ClearTyped]
        } else {
            seq![UiStep::CloseMenu, UiStep::OpenConsole, UiStep::ClearTyped]
        }),
{
}

/// Escape closes an open console, steps back in an open menu and otherwise does
/// nothing here.
pub proof fn law_escape(s: UiState)
    requires
        s.wf(),
    ensures
        ({
            let (r, steps) = s.escaped();
            &&& !r.console_open
            &&& r.menu_open == s.menu_open
            &&& r.latches == s.latches
            &&& s.console_open ==> steps == seq![UiStep::CloseConsole, UiStep::ClearTyped]
            &&& s.menu_open ==> steps == seq![UiStep::Menu(MenuAction::Back)]
            &&& !s.console_open && !s.menu_open ==> steps.len() == 0
        }),
{
}

} // verus!
