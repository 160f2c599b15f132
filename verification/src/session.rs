//! The decisions of the session around a transfer: which command a key of
//! the main menu stands for, and what a key does in the file browser.

use vstd::prelude::*;

verus! {

/// The key `l`.
pub const KEY_L: u8 = 0x6c;

/// The key `b`.
pub const KEY_B: u8 = 0x62;

/// The key `d`.
pub const KEY_D: u8 = 0x64;

/// The key `u`.
pub const KEY_U: u8 = 0x75;

/// The key `q`.
pub const KEY_Q: u8 = 0x71;

/// The key `w`.
pub const KEY_W: u8 = 0x77;

/// The key `s`.
pub const KEY_S: u8 = 0x73;

/// The return key.
pub const KEY_RETURN: u8 = 0x0d;

/// A command of the main menu.
#[derive(Clone, Copy, Debug, PartialEq, Eq, Structural)]
pub enum MenuCommand {
    ListFiles,
    BrowseFiles,
    DownloadFile,
    UploadFiles,
    Quit,
    /// The key stands for no command.
    Nothing,
}

/// The command that a key of the main menu stands for.
pub open spec fn menu_command_spec(key: u8) -> MenuCommand {
    if key == KEY_L {
        MenuCommand::ListFiles
    } else if key == KEY_B {
        MenuCommand::BrowseFiles
    } else if key == KEY_D {
        MenuCommand::DownloadFile
    } else if key == KEY_U {
        MenuCommand::UploadFiles
    } else if key == KEY_Q {
        MenuCommand::Quit
    } else {
        MenuCommand::Nothing
    }
}

/// The command that a key of the main menu stands for: `l` lists the files,
/// `b` opens the browser, `d` downloads, `u` uploads, `q` quits.
pub fn menu_command(key: u8) -> (command: MenuCommand)
    ensures
        command == menu_command_spec(key),
{
    if key == KEY_L {
        MenuCommand::ListFiles
    } else if key == KEY_B {
        MenuCommand::BrowseFiles
    } else if key == KEY_D {
        MenuCommand::DownloadFile
    } else if key == KEY_U {
        MenuCommand::UploadFiles
    } else if key == KEY_Q {
        MenuCommand::Quit
    } else {
        MenuCommand::Nothing
    }
}

/// What a key does in the file browser.
#[derive(Clone, Copy, Debug, PartialEq, Eq, Structural)]
pub enum BrowseAction {
    /// Leave the browser.
    Quit,
    /// Show the list again with the file of this index selected.
    Select(usize),
    /// Send the file of this index, then show the list again.
    Download(usize),
}

/// What a key does in a browser that shows `count` files with the file of
/// index `selected` selected.
pub open spec fn browse_spec(selected: usize, count: usize, key: u8) -> BrowseAction {
    if key == KEY_Q {
        BrowseAction::Quit
    } else if key == KEY_W {
        BrowseAction::Select(
            if selected > 0 {
                (selected - 1) as usize
            } else {
                0
            },
        )
    } else if key == KEY_S {
        BrowseAction::Select(
            if selected + 1 < count {
                (selected + 1) as usize
            } else if count > 0 {
                (count - 1) as usize
            } else {
                0
            },
        )
    } else if key == KEY_RETURN && selected < count {
        BrowseAction::Download(selected)
    } else {
        BrowseAction::Select(selected)
    }
}

/// What a key does in the file browser: `q` leaves, `w` moves the selection
/// up and `s` down, neither past an end of the list, and the return key
/// sends the selected file. Any other key changes nothing.
pub fn browse_key(selected: usize, count: usize, key: u8) -> (action: BrowseAction)
    ensures
        action == browse_spec(selected, count, key),
{
    if key == KEY_Q {
        BrowseAction::Quit
    } else if key == KEY_W {
        if selected > 0 {
            BrowseAction::Select(selected - 1)
        } else {
            BrowseAction::Select(0)
        }
    } else if key == KEY_S {
        if selected < count && selected + 1 < count {
            BrowseAction::Select(selected + 1)
        } else if count > 0 {
            BrowseAction::Select(count - 1)
        } else {
            BrowseAction::Select(0)
        }
    } else if key == KEY_RETURN && selected < count {
        BrowseAction::Download(selected)
    } else {
        BrowseAction::Select(selected)
    }
}

/// A selection within the list stays within the list, whatever the key.
pub proof fn lemma_selection_stays_within(selected: usize, count: usize, key: u8)
    requires
        selected < count,
    ensures
        match browse_spec(selected, count, key) {
            BrowseAction::Quit => true,
            BrowseAction::Select(i) => i < count,
            BrowseAction::Download(i) => i == selected,
        },
{
}

} // verus!
