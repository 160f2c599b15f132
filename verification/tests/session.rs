use shiftbbs::session::{browse_key, menu_command, BrowseAction, MenuCommand};

#[test]
fn menu_keys() {
    assert_eq!(menu_command(b'l'), MenuCommand::ListFiles);
    assert_eq!(menu_command(b'b'), MenuCommand::BrowseFiles);
    assert_eq!(menu_command(b'd'), MenuCommand::DownloadFile);
    assert_eq!(menu_command(b'u'), MenuCommand::UploadFiles);
    assert_eq!(menu_command(b'q'), MenuCommand::Quit);
    assert_eq!(menu_command(b'x'), MenuCommand::Nothing);
    assert_eq!(menu_command(b'L'), MenuCommand::Nothing);
    assert_eq!(menu_command(0x0d), MenuCommand::Nothing);
}

#[test]
fn browser_moves_within_the_list() {
    assert_eq!(browse_key(0, 3, b'w'), BrowseAction::Select(0));
    assert_eq!(browse_key(2, 3, b'w'), BrowseAction::Select(1));
    assert_eq!(browse_key(0, 3, b's'), BrowseAction::Select(1));
    assert_eq!(browse_key(1, 3, b's'), BrowseAction::Select(2));
    assert_eq!(browse_key(2, 3, b's'), BrowseAction::Select(2));
    assert_eq!(browse_key(usize::MAX, usize::MAX, b's'), BrowseAction::Select(usize::MAX - 1));
}

#[test]
fn browser_downloads_and_quits() {
    assert_eq!(browse_key(1, 3, 0x0d), BrowseAction::Download(1));
    assert_eq!(browse_key(1, 3, b'q'), BrowseAction::Quit);
    assert_eq!(browse_key(1, 3, b'x'), BrowseAction::Select(1));
}

#[test]
fn browser_of_an_empty_list() {
    assert_eq!(browse_key(0, 0, b's'), BrowseAction::Select(0));
    assert_eq!(browse_key(0, 0, b'w'), BrowseAction::Select(0));
    assert_eq!(browse_key(0, 0, 0x0d), BrowseAction::Select(0));
}
