use vstd::prelude::*;
use crate::constants::{WINDOW_INIT_X_POS, WINDOW_INIT_Y_POS, WINDOW_WIDTH, WINDOW_HEIGHT, TITLE_BAR_HEIGHT, TOOLBAR_HEIGHT};
use crate::text::string_of;

verus! {

/// Whether keys go to the address bar.
#[derive(Debug, Clone, Copy, PartialEq, Eq, Structural)]
pub enum InputMode {
    Normal,
    Editing,
}

/// What the shell does after a key.
#[derive(Debug, Clone, PartialEq, Eq)]
pub enum KeyAction {
    Nothing,
    RedrawAddressBar,
    Navigate(String),
}

/// Where a click landed.
#[derive(Debug, Clone, Copy, PartialEq, Eq, Structural)]
pub enum ClickTarget {
    Outside,
    Toolbar,
    Content { x: i64, y: i64 },
}

/// The address bar of the browser window: the text typed so far and whether typing goes to it.
#[derive(Debug, Clone)]
pub struct AddressBar {
    input_url: Vec<char>,
    mode: InputMode,
}

impl AddressBar {
    pub closed spec fn text(&self) -> Seq<char> {
        self.input_url@
    }

    pub closed spec fn mode_view(&self) -> InputMode {
        self.mode
    }

    pub fn new() -> (r: Self)
        ensures
            r.text().len() == 0,
            r.mode_view() == InputMode::Normal,
    {
        AddressBar { input_url: Vec::new(), mode: InputMode::Normal }
    }

    pub fn input_url(&self) -> (r: String)
        ensures
            r@ == self.text(),
    {
        string_of(&self.input_url)
    }

    pub fn mode(&self) -> (r: InputMode)
        ensures
            r == self.mode_view(),
    {
        self.mode
    }

    /// Handles a key. Outside editing it is ignored. While editing, Enter navigates to the
    /// typed text and leaves editing with an empty bar, Delete and Backspace drop the last
    /// character, and any other key is appended.
    pub fn handle_key(&mut self, c: char) -> (r: KeyAction)
        ensures
            old(self).mode_view() == InputMode::Normal ==> r == KeyAction::Nothing && final(self).text() == old(self).text()
                && final(self).mode_view() == InputMode::Normal,
            old(self).mode_view() == InputMode::Editing ==> {
                if c == '\n' {
                    &&& r is Navigate
                    &&& r->Navigate_0@ == old(self).text()
                    &&& final(self).text().len() == 0
                    &&& final(self).mode_view() == InputMode::Normal
                } else if c == '\x7f' || c == '\x08' {
                    &&& r == KeyAction::RedrawAddressBar
                    &&& final(self).text() == if old(self).text().len() > 0 {
                        old(self).text().drop_last()
                    } else {
                        old(self).text()
                    }
                    &&& final(self).mode_view() == InputMode::Editing
                } else {
                    &&& r == KeyAction::RedrawAddressBar
                    &&& final(self).text() == old(self).text().push(c)
                    &&& final(self).mode_view() == InputMode::Editing
                }
            },
    {
        match self.mode {
            InputMode::Normal => KeyAction::Nothing,
            InputMode::Editing => {
                if c == '\n' {
                    let url = string_of(&self.input_url);
                    self.input_url = Vec::new();
                    self.mode = InputMode::Normal;
                    KeyAction::Navigate(url)
                } else if c == '\x7f' || c == '\x08' {
                    self.input_url.pop();
                    KeyAction::RedrawAddressBar
                } else {
                    self.input_url.push(c);
                    KeyAction::RedrawAddressBar
                }
            },
        }
    }

    /// Handles a click at screen position `(x, y)`. A click outside the window changes
    /// nothing; one on the toolbar empties the bar and starts editing; one in the content area
    /// stops editing and gives the position in the content area.
    pub fn handle_click(&mut self, x: i64, y: i64) -> (r: ClickTarget)
        ensures
            ({
                let rx = x - WINDOW_INIT_X_POS;
                let ry = y - WINDOW_INIT_Y_POS;
                if rx < 0 || rx > WINDOW_WIDTH || ry < 0 || ry > WINDOW_HEIGHT {
                    r == ClickTarget::Outside && *final(self) == *old(self)
                } else if TITLE_BAR_HEIGHT <= ry < TOOLBAR_HEIGHT + TITLE_BAR_HEIGHT {
                    &&& r == ClickTarget::Toolbar
                    &&& final(self).text().len() == 0
                    &&& final(self).mode_view() == InputMode::Editing
                } else {
                    &&& r == (ClickTarget::Content { x: rx as i64, y: (ry - TITLE_BAR_HEIGHT - TOOLBAR_HEIGHT) as i64 })
                    &&& final(self).text() == old(self).text()
                    &&& final(self).mode_view() == InputMode::Normal
                }
            }),
    {
        if x < WINDOW_INIT_X_POS || y < WINDOW_INIT_Y_POS {
            return ClickTarget::Outside;
        }
        let rx = x - WINDOW_INIT_X_POS;
        let ry = y - WINDOW_INIT_Y_POS;
        if rx > WINDOW_WIDTH || ry > WINDOW_HEIGHT {
            return ClickTarget::Outside;
        }
        if ry < TOOLBAR_HEIGHT + TITLE_BAR_HEIGHT && ry >= TITLE_BAR_HEIGHT {
            self.input_url = Vec::new();
            self.mode = InputMode::Editing;
            return ClickTarget::Toolbar;
        }
        self.mode = InputMode::Normal;
        ClickTarget::Content { x: rx, y: ry - TITLE_BAR_HEIGHT - TOOLBAR_HEIGHT }
    }
}

} // verus!
