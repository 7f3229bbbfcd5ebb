//! How the interface answers keys and mouse clicks.
use vstd::prelude::*;
use crate::app::{next_index, prev_index, App, AppMode, Focus};
use crate::ui::{inside, is_inside, Rect};

verus! {

/// A key press, as far as the interface tells keys apart.
#[derive(PartialEq, Eq, Structural, Clone, Copy, Debug)]
pub enum Key {
    Char(char),
    Esc,
    Enter,
    Tab,
    BackTab,
    Left,
    Right,
    Up,
    Down,
    Other,
}

/// A mouse event at a cell; `left_press` for a press of the left button, else
/// a move, a release, a scroll or another button.
#[derive(PartialEq, Eq, Structural, Clone, Copy, Debug)]
pub struct MouseInput {
    pub column: u16,
    pub row: u16,
    pub left_press: bool,
}

/// What the caller has to do after an input: after `Select(i)`, run the tools
/// that describe NIC `i` and select it with their reports (`App::select_nic`).
#[derive(PartialEq, Eq, Structural, Clone, Copy, Debug)]
pub enum Action {
    Nothing,
    Select(usize),
}

/// The part of the state that input changes.
pub ghost struct UiView {
    pub mode: AppMode,
    pub focus: Option<Focus>,
    pub selected: usize,
    pub menu: Option<usize>,
    pub hovered: Option<usize>,
    pub show_throughput: bool,
    pub quit: bool,
}

impl App {
    pub open spec fn ui(self) -> UiView {
        UiView {
            mode: self.mode,
            focus: self.focus,
            selected: self.selected_idx,
            menu: self.menu_selected,
            hovered: self.hovered_nic_idx,
            show_throughput: self.show_throughput,
            quit: self.quit,
        }
    }

    pub open spec fn with_ui(self, u: UiView) -> App {
        App {
            mode: u.mode,
            focus: u.focus,
            selected_idx: u.selected,
            menu_selected: u.menu,
            hovered_nic_idx: u.hovered,
            show_throughput: u.show_throughput,
            quit: u.quit,
            ..self
        }
    }

    /// A state the interface can be in: there are NICs, and every index into
    /// them is in range; the filter button, which no key or click focuses,
    /// does not have the focus.
    pub open spec fn wf(self) -> bool {
        &&& self.nics.len() > 0
        &&& self.selected_idx < self.nics.len()
        &&& (self.menu_selected matches Some(i) ==> i < self.nics.len())
        &&& (self.hovered_nic_idx matches Some(i) ==> i < self.nics.len())
        &&& self.focus != Some(Focus::FilterBtn)
    }

    /// Whether key `key` can be answered: the NIC list is not empty where a
    /// key steps through it, the NIC menu highlight is a NIC where Enter selects
    /// it, and the filter button, which no key focuses, does not have the focus
    /// where Tab, Shift+Tab or Enter act on the focus.
    pub open spec fn key_accepted(self, key: Key) -> bool {
        let n = self.nics.len();
        match self.mode {
            AppMode::Normal => match key {
                Key::Right => n > 0 && self.selected_idx < usize::MAX,
                Key::Left => n > 0 && self.selected_idx <= n,
                Key::Tab | Key::BackTab | Key::Enter => self.focus != Some(Focus::FilterBtn),
                _ => true,
            },
            AppMode::NicMenu => match key {
                Key::Up => self.menu_selected == Some(0usize) ==> n > 0,
                Key::Down => self.menu_selected is Some ==> n > 0,
                Key::Enter => self.menu_selected matches Some(i) ==> i < n,
                _ => true,
            },
            AppMode::About => true,
        }
    }

    /// Whether mouse event `m` can be answered: the areas it is tested against
    /// have representable edges, and the NIC menu does not start on the last row.
    pub open spec fn mouse_accepted(self, m: MouseInput) -> bool {
        match self.mode {
            AppMode::NicMenu => self.list_rect.fits() && self.list_rect.y < u16::MAX,
            AppMode::Normal => m.left_press ==> {
                &&& self.btn_nic_rect.fits()
                &&& self.btn_toggle_rect.fits()
                &&& self.btn_about_rect.fits()
                &&& self.btn_quit_rect.fits()
            },
            AppMode::About => true,
        }
    }
}

fn rect_fits(r: Rect) -> (res: bool)
    ensures
        res == r.fits(),
{
    r.x as u32 + r.width as u32 <= u16::MAX as u32 && r.y as u32 + r.height as u32 <= u16::MAX as u32
}

impl App {
    pub fn accepts_key(&self, key: Key) -> (res: bool)
        ensures
            res == self.key_accepted(key),
    {
        let n = self.nics.len();
        match self.mode {
            AppMode::Normal => match key {
                Key::Right => n > 0 && self.selected_idx < usize::MAX,
                Key::Left => n > 0 && self.selected_idx <= n,
                Key::Tab | Key::BackTab | Key::Enter => match self.focus {
                    Some(Focus::FilterBtn) => false,
                    _ => true,
                },
                _ => true,
            },
            AppMode::NicMenu => match key {
                Key::Up => self.menu_selected != Some(0usize) || n > 0,
                Key::Down => self.menu_selected.is_none() || n > 0,
                Key::Enter => match self.menu_selected {
                    Some(i) => i < n,
                    None => true,
                },
                _ => true,
            },
            AppMode::About => true,
        }
    }

    pub fn accepts_mouse(&self, m: MouseInput) -> (res: bool)
        ensures
            res == self.mouse_accepted(m),
    {
        match self.mode {
            AppMode::NicMenu => rect_fits(self.list_rect) && self.list_rect.y < u16::MAX,
            AppMode::Normal => !m.left_press || (rect_fits(self.btn_nic_rect) && rect_fits(
                self.btn_toggle_rect,
            ) && rect_fits(self.btn_about_rect) && rect_fits(self.btn_quit_rect)),
            AppMode::About => true,
        }
    }
}

/// In a well-formed state every key can be answered, and so can every mouse
/// event once the screen areas have representable edges.
pub proof fn lemma_wf_accepts(app: App, key: Key, m: MouseInput)
    requires
        app.wf(),
    ensures
        app.key_accepted(key),
        (app.list_rect.fits() && app.list_rect.y < u16::MAX && app.btn_nic_rect.fits()
            && app.btn_toggle_rect.fits() && app.btn_about_rect.fits() && app.btn_quit_rect.fits())
            ==> app.mouse_accepted(m),
{
}

/// The button focused after Tab: the cycle runs over the NIC, throughput, about
/// and quit buttons.
pub open spec fn tab_next(f: Option<Focus>) -> Option<Focus> {
    match f {
        None => Some(Focus::NicBtn),
        Some(Focus::NicBtn) => Some(Focus::ToggleBtn),
        Some(Focus::ToggleBtn) => Some(Focus::AboutBtn),
        Some(Focus::AboutBtn) => Some(Focus::QuitBtn),
        Some(Focus::QuitBtn) => Some(Focus::NicBtn),
        Some(Focus::FilterBtn) => Some(Focus::FilterBtn),
    }
}

/// The button focused after Shift+Tab: the same cycle backwards.
pub open spec fn tab_prev(f: Option<Focus>) -> Option<Focus> {
    match f {
        None => Some(Focus::QuitBtn),
        Some(Focus::NicBtn) => Some(Focus::QuitBtn),
        Some(Focus::ToggleBtn) => Some(Focus::NicBtn),
        Some(Focus::AboutBtn) => Some(Focus::ToggleBtn),
        Some(Focus::QuitBtn) => Some(Focus::AboutBtn),
        Some(Focus::FilterBtn) => Some(Focus::FilterBtn),
    }
}

/// The menu entry highlighted after Up: the one before, or the last after the first.
pub open spec fn menu_up(menu: Option<usize>, n: usize) -> usize {
    match menu {
        Some(i) => if i == 0 {
            (n - 1) as usize
        } else {
            (i - 1) as usize
        },
        None => 0,
    }
}

/// The menu entry highlighted after Down: the one after, or the first after the last.
pub open spec fn menu_down(menu: Option<usize>, n: usize) -> usize {
    match menu {
        Some(i) => if i >= n - 1 {
            0
        } else {
            (i + 1) as usize
        },
        None => 0,
    }
}

/// The state after key `key`, with `n` NICs, before a NIC it selects (see
/// `key_target`) is shown. In the main view `m` opens the NIC menu, on the
/// selected NIC, whatever has the focus; Enter acts on the focused button, and
/// with no focus opens the NIC menu too.
pub open spec fn key_ui(u: UiView, n: usize, key: Key) -> UiView {
    match u.mode {
        AppMode::Normal => match key {
            Key::Char('q') | Key::Char('Q') | Key::Esc => UiView { quit: true, ..u },
            Key::Tab => UiView { focus: tab_next(u.focus), ..u },
            Key::BackTab => UiView { focus: tab_prev(u.focus), ..u },
            Key::Char('m') => UiView { mode: AppMode::NicMenu, menu: Some(u.selected), ..u },
            Key::Enter => match u.focus {
                Some(Focus::NicBtn) | None => UiView {
                    mode: AppMode::NicMenu,
                    menu: Some(u.selected),
                    ..u
                },
                Some(Focus::ToggleBtn) => UiView { show_throughput: !u.show_throughput, ..u },
                Some(Focus::AboutBtn) => UiView { mode: AppMode::About, ..u },
                Some(Focus::QuitBtn) => UiView { quit: true, ..u },
                Some(Focus::FilterBtn) => u,
            },
            _ => u,
        },
        AppMode::NicMenu => match key {
            Key::Esc | Key::Char('q') | Key::Char('m') => UiView { mode: AppMode::Normal, ..u },
            Key::Up => UiView { hovered: None, menu: Some(menu_up(u.menu, n)), ..u },
            Key::Down => UiView { hovered: None, menu: Some(menu_down(u.menu, n)), ..u },
            Key::Enter => UiView { mode: AppMode::Normal, ..u },
            _ => u,
        },
        AppMode::About => match key {
            Key::Esc | Key::Enter | Key::Char('q') => UiView { mode: AppMode::Normal, ..u },
            _ => u,
        },
    }
}

/// The NIC that key `key` selects, with `n` NICs: the next one for Right and
/// the previous one for Left in the main view, the highlighted entry for Enter
/// in the NIC menu.
pub open spec fn key_target(u: UiView, n: usize, key: Key) -> Option<usize> {
    match u.mode {
        AppMode::Normal => match key {
            Key::Right => Some(next_index(u.selected, n)),
            Key::Left => Some(prev_index(u.selected, n)),
            _ => None,
        },
        AppMode::NicMenu => match key {
            Key::Enter => u.menu,
            _ => None,
        },
        AppMode::About => None,
    }
}

/// The action for a NIC to select, if any.
pub open spec fn select_action(target: Option<usize>) -> Action {
    match target {
        Some(i) => Action::Select(i),
        None => Action::Nothing,
    }
}

pub open spec fn sat_sub16(a: u16, b: int) -> u16 {
    if a >= b {
        (a - b) as u16
    } else {
        0
    }
}

/// The NIC menu entry under the pointer: the rows below the menu's top border
/// count from 0, up to the number of NICs taken modulo 2^16.
pub open spec fn hovered_entry(app: App, pos: (u16, u16)) -> Option<usize> {
    if inside(pos, app.list_rect) {
        let row = sat_sub16(pos.1, app.list_rect.y + 1);
        if row < (app.nics.len() as u16) {
            Some(row as usize)
        } else {
            None
        }
    } else {
        None
    }
}

/// The state after the mouse event `m`, before a NIC it selects (see
/// `mouse_target`) is shown.
pub open spec fn mouse_ui(app: App, m: MouseInput) -> UiView {
    let u = app.ui();
    let pos = (m.column, m.row);
    match u.mode {
        AppMode::NicMenu => {
            let hovered = hovered_entry(app, pos);
            if m.left_press {
                match hovered {
                    Some(idx) => UiView { mode: AppMode::Normal, hovered, ..u },
                    None => if !inside(pos, app.list_rect) {
                        UiView { mode: AppMode::Normal, hovered, ..u }
                    } else {
                        UiView { hovered, ..u }
                    },
                }
            } else {
                UiView { hovered, ..u }
            }
        },
        AppMode::Normal => {
            let u = UiView { focus: None, ..u };
            if !m.left_press {
                u
            } else if inside(pos, app.btn_quit_rect) {
                UiView { quit: true, ..u }
            } else if inside(pos, app.btn_about_rect) {
                UiView { mode: AppMode::About, ..u }
            } else if inside(pos, app.btn_toggle_rect) {
                UiView { show_throughput: !u.show_throughput, ..u }
            } else if inside(pos, app.btn_nic_rect) {
                UiView { mode: AppMode::NicMenu, menu: Some(u.selected), ..u }
            } else {
                u
            }
        },
        AppMode::About => if m.left_press {
            UiView { mode: AppMode::Normal, ..u }
        } else {
            u
        },
    }
}

/// The NIC that the mouse event `m` selects: the entry of the NIC menu under a
/// left click.
pub open spec fn mouse_target(app: App, m: MouseInput) -> Option<usize> {
    if app.mode == AppMode::NicMenu && m.left_press {
        hovered_entry(app, (m.column, m.row))
    } else {
        None
    }
}

fn tab_next_exec(f: Option<Focus>) -> (res: Option<Focus>)
    ensures
        res == tab_next(f),
{
    match f {
        None => Some(Focus::NicBtn),
        Some(Focus::NicBtn) => Some(Focus::ToggleBtn),
        Some(Focus::ToggleBtn) => Some(Focus::AboutBtn),
        Some(Focus::AboutBtn) => Some(Focus::QuitBtn),
        Some(Focus::QuitBtn) => Some(Focus::NicBtn),
        Some(Focus::FilterBtn) => Some(Focus::FilterBtn),
    }
}

fn tab_prev_exec(f: Option<Focus>) -> (res: Option<Focus>)
    ensures
        res == tab_prev(f),
{
    match f {
        None => Some(Focus::QuitBtn),
        Some(Focus::NicBtn) => Some(Focus::QuitBtn),
        Some(Focus::ToggleBtn) => Some(Focus::NicBtn),
        Some(Focus::AboutBtn) => Some(Focus::ToggleBtn),
        Some(Focus::QuitBtn) => Some(Focus::AboutBtn),
        Some(Focus::FilterBtn) => Some(Focus::FilterBtn),
    }
}

impl App {
    /// Answers a key press. A NIC that the key selects is returned, to be
    /// shown with its tool reports (`App::select_nic`).
    pub fn handle_key(&mut self, key: Key) -> (action: Action)
        requires
            old(self).key_accepted(key),
        ensures
            old(self).wf() ==> final(self).wf(),
            action == select_action(key_target(old(self).ui(), old(self).nics.len(), key)),
            action matches Action::Select(i) ==> i < old(self).nics.len(),
            *final(self) == old(self).with_ui(key_ui(old(self).ui(), old(self).nics.len(), key)),
    {
        match self.mode {
            AppMode::Normal => match key {
                Key::Char('q') | Key::Char('Q') | Key::Esc => {
                    self.quit = true;
                    Action::Nothing
                },
                Key::Right => Action::Select(self.next_nic_index()),
                Key::Left => Action::Select(self.prev_nic_index()),
                Key::Tab => {
                    self.focus = tab_next_exec(self.focus);
                    Action::Nothing
                },
                Key::BackTab => {
                    self.focus = tab_prev_exec(self.focus);
                    Action::Nothing
                },
                Key::Char('m') => {
                    self.mode = AppMode::NicMenu;
                    self.menu_selected = Some(self.selected_idx);
                    Action::Nothing
                },
                Key::Enter => {
                    match self.focus {
                        Some(Focus::NicBtn) | None => {
                            self.mode = AppMode::NicMenu;
                            self.menu_selected = Some(self.selected_idx);
                        },
                        Some(Focus::ToggleBtn) => {
                            self.show_throughput = !self.show_throughput;
                        },
                        Some(Focus::AboutBtn) => {
                            self.mode = AppMode::About;
                        },
                        Some(Focus::QuitBtn) => {
                            self.quit = true;
                        },
                        Some(Focus::FilterBtn) => {},
                    }
                    Action::Nothing
                },
                _ => Action::Nothing,
            },
            AppMode::NicMenu => match key {
                Key::Esc | Key::Char('q') | Key::Char('m') => {
                    self.mode = AppMode::Normal;
                    Action::Nothing
                },
                Key::Up => {
                    self.hovered_nic_idx = None;
                    let i = match self.menu_selected {
                        Some(i) => if i == 0 {
                            self.nics.len() - 1
                        } else {
                            i - 1
                        },
                        None => 0,
                    };
                    self.menu_selected = Some(i);
                    Action::Nothing
                },
                Key::Down => {
                    self.hovered_nic_idx = None;
                    let i = match self.menu_selected {
                        Some(i) => if i >= self.nics.len() - 1 {
                            0
                        } else {
                            i + 1
                        },
                        None => 0,
                    };
                    self.menu_selected = Some(i);
                    Action::Nothing
                },
                Key::Enter => {
                    self.mode = AppMode::Normal;
                    match self.menu_selected {
                        Some(i) => Action::Select(i),
                        None => Action::Nothing,
                    }
                },
                _ => Action::Nothing,
            },
            AppMode::About => {
                match key {
                    Key::Esc | Key::Enter | Key::Char('q') => {
                        self.mode = AppMode::Normal;
                    },
                    _ => {},
                }
                Action::Nothing
            },
        }
    }

    /// Answers a mouse event: moves the pointer, updates the hovered NIC menu
    /// entry, and acts on a left click. A NIC that the click selects is
    /// returned, to be shown with its tool reports (`App::select_nic`).
    pub fn handle_mouse(&mut self, m: MouseInput) -> (action: Action)
        requires
            old(self).mouse_accepted(m),
        ensures
            old(self).wf() ==> final(self).wf(),
            action == select_action(mouse_target(*old(self), m)),
            action matches Action::Select(i) ==> i < old(self).nics.len(),
            *final(self) == (App {
                mouse_pos: (m.column, m.row),
                ..old(self).with_ui(mouse_ui(*old(self), m))
            }),
    {
        self.mouse_pos = (m.column, m.row);
        let pos = self.mouse_pos;
        let mut action = Action::Nothing;
        if self.mode == AppMode::NicMenu {
            let over_list = is_inside(pos, self.list_rect);
            if over_list {
                let inner_y: u16 = if pos.1 >= self.list_rect.y + 1 {
                    pos.1 - (self.list_rect.y + 1)
                } else {
                    0
                };
                let n16 = self.nics.len() as u16;
                proof {
                    let n = self.nics.len();
                    assert((n as u16) as usize <= n) by (bit_vector);
                }
                if inner_y < n16 {
                    self.hovered_nic_idx = Some(inner_y as usize);
                } else {
                    self.hovered_nic_idx = None;
                }
            } else {
                self.hovered_nic_idx = None;
            }
            if m.left_press {
                match self.hovered_nic_idx {
                    Some(idx) => {
                        self.mode = AppMode::Normal;
                        action = Action::Select(idx);
                    },
                    None => {
                        if !over_list {
                            self.mode = AppMode::Normal;
                        }
                    },
                }
            }
        } else if self.mode == AppMode::Normal {
            self.focus = None;
            if m.left_press {
                if is_inside(pos, self.btn_quit_rect) {
                    self.quit = true;
                } else if is_inside(pos, self.btn_about_rect) {
                    self.mode = AppMode::About;
                } else if is_inside(pos, self.btn_toggle_rect) {
                    self.show_throughput = !self.show_throughput;
                } else if is_inside(pos, self.btn_nic_rect) {
                    self.mode = AppMode::NicMenu;
                    self.menu_selected = Some(self.selected_idx);
                }
            }
        } else if self.mode == AppMode::About {
            if m.left_press {
                self.mode = AppMode::Normal;
            }
        }
        action
    }
}

/// Shift+Tab undoes Tab and Tab undoes Shift+Tab on every button of the focus
/// cycle, and four presses of Tab come back to the button one started from.
pub proof fn lemma_tab_cycle(f: Focus)
    requires
        f != Focus::FilterBtn,
    ensures
        tab_prev(tab_next(Some(f))) == Some(f),
        tab_next(tab_prev(Some(f))) == Some(f),
        tab_next(tab_next(tab_next(tab_next(Some(f))))) == Some(f),
{
}

/// Esc closes the NIC menu and the about box without quitting; in the main
/// view it quits.
pub proof fn lemma_escape_closes_or_quits(u: UiView, n: usize)
    ensures
        u.mode != AppMode::Normal ==> key_ui(u, n, Key::Esc) == (UiView { mode: AppMode::Normal, ..u }),
        u.mode == AppMode::Normal ==> key_ui(u, n, Key::Esc) == (UiView { quit: true, ..u }),
        key_target(u, n, Key::Esc) is None,
{
}

/// With the focus on no button, Tab focuses the NIC button and Shift+Tab the quit button.
pub proof fn lemma_tab_from_nothing()
    ensures
        tab_next(None) == Some(Focus::NicBtn),
        tab_prev(None) == Some(Focus::QuitBtn),
{
}

/// In the NIC menu of `n` NICs, Up undoes Down and Down undoes Up on every
/// highlighted entry, and both keep the highlight on an entry.
pub proof fn lemma_menu_up_down(i: usize, n: usize)
    requires
        i < n,
    ensures
        menu_up(Some(menu_down(Some(i), n)), n) == i,
        menu_down(Some(menu_up(Some(i), n)), n) == i,
        menu_up(Some(i), n) < n,
        menu_down(Some(i), n) < n,
{
}

/// In the main view Enter activates the focused button: the NIC button (or no
/// focus) opens the NIC menu on the selected NIC, the throughput button toggles
/// the throughput view, the about button opens the about box and the quit button
/// quits; `m` opens the NIC menu whatever has the focus. Neither selects a NIC.
pub proof fn lemma_enter_activates_focused_button(u: UiView, n: usize)
    requires
        u.mode == AppMode::Normal,
    ensures
        (u.focus == Some(Focus::NicBtn) || u.focus is None) ==> key_ui(u, n, Key::Enter) == (UiView {
            mode: AppMode::NicMenu,
            menu: Some(u.selected),
            ..u
        }),
        u.focus == Some(Focus::ToggleBtn) ==> key_ui(u, n, Key::Enter) == (UiView {
            show_throughput: !u.show_throughput,
            ..u
        }),
        u.focus == Some(Focus::AboutBtn) ==> key_ui(u, n, Key::Enter) == (UiView {
            mode: AppMode::About,
            ..u
        }),
        u.focus == Some(Focus::QuitBtn) ==> key_ui(u, n, Key::Enter) == (UiView { quit: true, ..u }),
        key_ui(u, n, Key::Char('m')) == (UiView { mode: AppMode::NicMenu, menu: Some(u.selected), ..u }),
        key_target(u, n, Key::Enter) is None,
        key_target(u, n, Key::Char('m')) is None,
{
}

} // verus!
