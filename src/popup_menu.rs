use vstd::prelude::*;

use crate::text::str_eq;

verus! {

/// The entries of the two context menus.
#[derive(Debug, Clone, Copy, PartialEq, Eq, Structural)]
pub enum MenuAction {
    NewFolder,
    OpenTerminalHere,
    OpenFile,
    Cut,
    Copy,
    Paste,
    MoveToTrash,
    Rename,
    OpenInTerminal,
}

impl MenuAction {
    pub open spec fn label_spec(self) -> Seq<char> {
        match self {
            MenuAction::NewFolder => "New Folder"@,
            MenuAction::OpenTerminalHere => "Open Terminal Here"@,
            MenuAction::OpenFile => "Open File"@,
            MenuAction::Cut => "Cut"@,
            MenuAction::Copy => "Copy"@,
            MenuAction::Paste => "Paste"@,
            MenuAction::MoveToTrash => "Move to Trash"@,
            MenuAction::Rename => "Rename..."@,
            MenuAction::OpenInTerminal => "Open in Terminal"@,
        }
    }

    pub open spec fn icon_spec(self) -> Seq<char> {
        match self {
            MenuAction::NewFolder => "folder-new-symbolic"@,
            MenuAction::OpenTerminalHere => "utilities-terminal-symbolic"@,
            MenuAction::OpenFile => "document-open-symbolic"@,
            MenuAction::Cut => "edit-cut-symbolic"@,
            MenuAction::Copy => "edit-copy-symbolic"@,
            MenuAction::Paste => "edit-paste-symbolic"@,
            MenuAction::MoveToTrash => "user-trash-symbolic"@,
            MenuAction::Rename => "document-edit-symbolic"@,
            MenuAction::OpenInTerminal => "utilities-terminal-symbolic"@,
        }
    }

    /// Offered when the entry under the menu is a file.
    pub open spec fn show_if_file(self) -> bool {
        !(self is OpenInTerminal)
    }

    /// Offered when the entry under the menu is a directory.
    pub open spec fn show_if_dir(self) -> bool {
        !(self is OpenFile)
    }

    /// The text of the menu row.
    pub fn label(&self) -> (r: &'static str)
        ensures
            r@ == self.label_spec(),
    {
        match self {
            MenuAction::NewFolder => "New Folder",
            MenuAction::OpenTerminalHere => "Open Terminal Here",
            MenuAction::OpenFile => "Open File",
            MenuAction::Cut => "Cut",
            MenuAction::Copy => "Copy",
            MenuAction::Paste => "Paste",
            MenuAction::MoveToTrash => "Move to Trash",
            MenuAction::Rename => "Rename...",
            MenuAction::OpenInTerminal => "Open in Terminal",
        }
    }

    /// The icon of the menu row.
    pub fn icon_name(&self) -> (r: &'static str)
        ensures
            r@ == self.icon_spec(),
    {
        match self {
            MenuAction::NewFolder => "folder-new-symbolic",
            MenuAction::OpenTerminalHere => "utilities-terminal-symbolic",
            MenuAction::OpenFile => "document-open-symbolic",
            MenuAction::Cut => "edit-cut-symbolic",
            MenuAction::Copy => "edit-copy-symbolic",
            MenuAction::Paste => "edit-paste-symbolic",
            MenuAction::MoveToTrash => "user-trash-symbolic",
            MenuAction::Rename => "document-edit-symbolic",
            MenuAction::OpenInTerminal => "utilities-terminal-symbolic",
        }
    }

    /// The action whose row reads `label`, if any.
    pub fn from_label(label: &str) -> (r: Option<MenuAction>)
        ensures
            r matches Some(a) ==> a.label_spec() == label@,
            r is None ==> forall|a: MenuAction| #[trigger] a.label_spec() != label@,
    {
        let all = all_actions();
        let mut i: usize = 0;
        while i < all.len()
            invariant
                all@ == all_actions_spec(),
                i <= all@.len(),
                forall|k: int| 0 <= k < i ==> (#[trigger] all@[k]).label_spec() != label@,
            decreases all@.len() - i,
        {
            let a = all[i];
            if str_eq(a.label(), label) {
                return Some(a);
            }
            i = i + 1;
        }
        proof {
            assert forall|a: MenuAction| #[trigger] a.label_spec() != label@ by {
                match a {
                    MenuAction::NewFolder => assert(all@[0] == a),
                    MenuAction::OpenTerminalHere => assert(all@[1] == a),
                    MenuAction::OpenFile => assert(all@[2] == a),
                    MenuAction::Cut => assert(all@[3] == a),
                    MenuAction::Copy => assert(all@[4] == a),
                    MenuAction::Paste => assert(all@[5] == a),
                    MenuAction::MoveToTrash => assert(all@[6] == a),
                    MenuAction::Rename => assert(all@[7] == a),
                    MenuAction::OpenInTerminal => assert(all@[8] == a),
                }
            }
        }
        None
    }
}

pub open spec fn all_actions_spec() -> Seq<MenuAction> {
    seq![
        MenuAction::NewFolder,
        MenuAction::OpenTerminalHere,
        MenuAction::OpenFile,
        MenuAction::Cut,
        MenuAction::Copy,
        MenuAction::Paste,
        MenuAction::MoveToTrash,
        MenuAction::Rename,
        MenuAction::OpenInTerminal,
    ]
}

fn all_actions() -> (r: Vec<MenuAction>)
    ensures
        r@ == all_actions_spec(),
{
    let r = vec![
        MenuAction::NewFolder,
        MenuAction::OpenTerminalHere,
        MenuAction::OpenFile,
        MenuAction::Cut,
        MenuAction::Copy,
        MenuAction::Paste,
        MenuAction::MoveToTrash,
        MenuAction::Rename,
        MenuAction::OpenInTerminal,
    ];
    assert(r@ =~= all_actions_spec());
    r
}

/// The menu over an empty area, in order.
pub open spec fn empty_menu_spec() -> Seq<MenuAction> {
    seq![MenuAction::NewFolder, MenuAction::OpenTerminalHere]
}

/// The menu over an entry before filtering, in order.
pub open spec fn file_menu_spec() -> Seq<MenuAction> {
    seq![
        MenuAction::OpenFile,
        MenuAction::Cut,
        MenuAction::Copy,
        MenuAction::Paste,
        MenuAction::MoveToTrash,
        MenuAction::Rename,
        MenuAction::OpenInTerminal,
    ]
}

/// An action is offered for an entry that is a file, a directory, both or
/// neither.
pub open spec fn offered(a: MenuAction, is_file: bool, is_dir: bool) -> bool {
    (a.show_if_file() && is_file) || (a.show_if_dir() && is_dir)
}

/// The actions of `s` that are offered, in order.
pub open spec fn offered_actions(s: Seq<MenuAction>, is_file: bool, is_dir: bool) -> Seq<MenuAction>
    decreases s.len(),
{
    if s.len() == 0 {
        Seq::empty()
    } else {
        let rest = offered_actions(s.drop_last(), is_file, is_dir);
        if offered(s.last(), is_file, is_dir) {
            rest.push(s.last())
        } else {
            rest
        }
    }
}

/// The rows of the menu over an empty area.
pub fn get_empty_right_click() -> (r: Vec<MenuAction>)
    ensures
        r@ == empty_menu_spec(),
{
    let r = vec![MenuAction::NewFolder, MenuAction::OpenTerminalHere];
    assert(r@ =~= empty_menu_spec());
    r
}

/// The rows of the menu over an entry: those offered for what the entry
/// is, in menu order.
pub fn get_file_right_click(is_file: bool, is_dir: bool) -> (r: Vec<MenuAction>)
    ensures
        r@ == offered_actions(file_menu_spec(), is_file, is_dir),
{
    let all = vec![
        MenuAction::OpenFile,
        MenuAction::Cut,
        MenuAction::Copy,
        MenuAction::Paste,
        MenuAction::MoveToTrash,
        MenuAction::Rename,
        MenuAction::OpenInTerminal,
    ];
    assert(all@ =~= file_menu_spec());
    let mut r: Vec<MenuAction> = Vec::new();
    let mut i: usize = 0;
    while i < all.len()
        invariant
            all@ == file_menu_spec(),
            i <= all@.len(),
            r@ == offered_actions(all@.subrange(0, i as int), is_file, is_dir),
        decreases all@.len() - i,
    {
        let a = all[i];
        let show_if_file = match a {
            MenuAction::OpenInTerminal => false,
            _ => true,
        };
        let show_if_dir = match a {
            MenuAction::OpenFile => false,
            _ => true,
        };
        proof {
            let pre = all@.subrange(0, i + 1);
            assert(pre.drop_last() =~= all@.subrange(0, i as int));
        }
        if (show_if_file && is_file) || (show_if_dir && is_dir) {
            r.push(a);
        }
        i = i + 1;
    }
    assert(all@.subrange(0, i as int) =~= all@);
    r
}

} // verus!
