use ira::couch::{
    controllers_tooltip, key_action, lit_dots, page_after, prompts, route, CouchAction, CouchKey,
    CouchPage, NavCommand,
};

#[test]
fn the_grid_moves_launches_and_goes_back() {
    let all = CouchPage::AllSoftware;
    assert_eq!(route(all, NavCommand::Left, false), CouchAction::GridMove(-1, 0));
    assert_eq!(route(all, NavCommand::Down, false), CouchAction::GridMove(0, 1));
    assert_eq!(route(all, NavCommand::Confirm, true), CouchAction::LaunchGridGame);
    assert_eq!(route(all, NavCommand::Back, false), CouchAction::ShowHome);
    assert_eq!(page_after(all, CouchAction::ShowHome), CouchPage::Home);
}

#[test]
fn home_moves_sideways_and_opens_the_grid_from_its_tile() {
    let home = CouchPage::Home;
    assert_eq!(route(home, NavCommand::Right, false), CouchAction::HomeMove(1));
    assert_eq!(route(home, NavCommand::Up, false), CouchAction::Ignore);
    assert_eq!(route(home, NavCommand::Back, false), CouchAction::Ignore);
    assert_eq!(route(home, NavCommand::Confirm, false), CouchAction::LaunchHomeGame);
    assert_eq!(route(home, NavCommand::Confirm, true), CouchAction::OpenAll);
    assert_eq!(page_after(home, CouchAction::OpenAll), CouchPage::AllSoftware);
    assert_eq!(page_after(home, CouchAction::HomeMove(1)), CouchPage::Home);
}

#[test]
fn keys_map_to_commands_and_escape_backs_out() {
    assert_eq!(key_action(CouchPage::AllSoftware, CouchKey::Escape, false), Some(CouchAction::ShowHome));
    assert_eq!(key_action(CouchPage::Home, CouchKey::Escape, false), Some(CouchAction::Quit));
    assert_eq!(key_action(CouchPage::Home, CouchKey::ControlQ, false), Some(CouchAction::Quit));
    assert_eq!(key_action(CouchPage::Home, CouchKey::Enter, true), Some(CouchAction::OpenAll));
    assert_eq!(key_action(CouchPage::AllSoftware, CouchKey::Up, false), Some(CouchAction::GridMove(0, -1)));
    assert_eq!(key_action(CouchPage::Home, CouchKey::Other, false), None);
}

#[test]
fn prompts_and_pad_dots() {
    assert_eq!(prompts(CouchPage::Home), vec![("A".to_string(), "Play".to_string())]);
    assert_eq!(
        prompts(CouchPage::AllSoftware),
        vec![("B".to_string(), "Back".to_string()), ("A".to_string(), "Play".to_string())]
    );
    assert_eq!(lit_dots(0), vec![false; 4]);
    assert_eq!(lit_dots(2), vec![true, true, false, false]);
    assert_eq!(lit_dots(9), vec![true; 4]);
    assert_eq!(controllers_tooltip(3), "Controllers connected: 3");
}
