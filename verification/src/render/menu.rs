//! The application menu: which menu item an activation event came from.
//!
//! The menu bar itself is built by the windowing layer; what the library
//! keeps is the id of each item, so that an activated item can be told
//! apart.

use vstd::prelude::*;

verus! {

/// Identifies which menu action was triggered.
#[derive(Debug, Clone, Copy, PartialEq, Eq, Structural)]
pub enum MenuAction {
    NewTab,
    CloseTab,
    Exit,
    Copy,
    Paste,
    NextTab,
    PrevTab,
}

/// Holds the item ids of the menu bar so the event loop can resolve events.
pub struct AppMenu {
    new_tab_id: String,
    close_tab_id: String,
    exit_id: String,
    copy_id: String,
    paste_id: String,
    next_tab_id: String,
    prev_tab_id: String,
}

/// The value of an [`AppMenu`]: the id of each item, in the order of
/// [`MenuAction`]'s variants.
pub struct AppMenuView {
    pub new_tab: Seq<char>,
    pub close_tab: Seq<char>,
    pub exit: Seq<char>,
    pub copy: Seq<char>,
    pub paste: Seq<char>,
    pub next_tab: Seq<char>,
    pub prev_tab: Seq<char>,
}

impl View for AppMenu {
    type V = AppMenuView;

    closed spec fn view(&self) -> AppMenuView {
        AppMenuView {
            new_tab: self.new_tab_id@,
            close_tab: self.close_tab_id@,
            exit: self.exit_id@,
            copy: self.copy_id@,
            paste: self.paste_id@,
            next_tab: self.next_tab_id@,
            prev_tab: self.prev_tab_id@,
        }
    }
}

/// The action of the first item, in menu order, whose id is `id`.
pub open spec fn resolve_spec(m: AppMenuView, id: Seq<char>) -> Option<MenuAction> {
    if id == m.new_tab {
        Some(MenuAction::NewTab)
    } else if id == m.close_tab {
        Some(MenuAction::CloseTab)
    } else if id == m.exit {
        Some(MenuAction::Exit)
    } else if id == m.copy {
        Some(MenuAction::Copy)
    } else if id == m.paste {
        Some(MenuAction::Paste)
    } else if id == m.next_tab {
        Some(MenuAction::NextTab)
    } else if id == m.prev_tab {
        Some(MenuAction::PrevTab)
    } else {
        None
    }
}

impl AppMenu {
    /// A menu whose items carry these ids.
    pub fn from_ids(
        new_tab_id: String,
        close_tab_id: String,
        exit_id: String,
        copy_id: String,
        paste_id: String,
        next_tab_id: String,
        prev_tab_id: String,
    ) -> (m: Self)
        ensures
            m@ == (AppMenuView {
                new_tab: new_tab_id@,
                close_tab: close_tab_id@,
                exit: exit_id@,
                copy: copy_id@,
                paste: paste_id@,
                next_tab: next_tab_id@,
                prev_tab: prev_tab_id@,
            }),
    {
        AppMenu {
            new_tab_id,
            close_tab_id,
            exit_id,
            copy_id,
            paste_id,
            next_tab_id,
            prev_tab_id,
        }
    }

    /// Resolve the id of an activated menu item to a known `MenuAction`, or
    /// `None` for unknown items.
    pub fn resolve(&self, id: &str) -> (r: Option<MenuAction>)
        ensures
            r == resolve_spec(self@, id@),
    {
        let id = id.to_owned();
        if id == self.new_tab_id {
            Some(MenuAction::NewTab)
        } else if id == self.close_tab_id {
            Some(MenuAction::CloseTab)
        } else if id == self.exit_id {
            Some(MenuAction::Exit)
        } else if id == self.copy_id {
            Some(MenuAction::Copy)
        } else if id == self.paste_id {
            Some(MenuAction::Paste)
        } else if id == self.next_tab_id {
            Some(MenuAction::NextTab)
        } else if id == self.prev_tab_id {
            Some(MenuAction::PrevTab)
        } else {
            None
        }
    }
}

/// With distinct item ids, each item's id resolves to that item's action.
pub proof fn lemma_resolve_each_item(m: AppMenuView)
    requires
        seq![m.new_tab, m.close_tab, m.exit, m.copy, m.paste, m.next_tab, m.prev_tab].no_duplicates(),
    ensures
        resolve_spec(m, m.new_tab) == Some(MenuAction::NewTab),
        resolve_spec(m, m.close_tab) == Some(MenuAction::CloseTab),
        resolve_spec(m, m.exit) == Some(MenuAction::Exit),
        resolve_spec(m, m.copy) == Some(MenuAction::Copy),
        resolve_spec(m, m.paste) == Some(MenuAction::Paste),
        resolve_spec(m, m.next_tab) == Some(MenuAction::NextTab),
        resolve_spec(m, m.prev_tab) == Some(MenuAction::PrevTab),
{
    let s = seq![m.new_tab, m.close_tab, m.exit, m.copy, m.paste, m.next_tab, m.prev_tab];
    assert(s[0] == m.new_tab && s[1] == m.close_tab && s[2] == m.exit && s[3] == m.copy && s[4]
        == m.paste && s[5] == m.next_tab && s[6] == m.prev_tab);
}

} // verus!
