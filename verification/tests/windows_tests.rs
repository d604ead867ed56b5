use rolling_drones::windows::{
    can_chat, media_list_state, may_send, partner_after_click, select_media, server_after_click, MediaRequest,
};

fn table() -> Vec<((u8, u8), bool)> {
    vec![((1, 5), true), ((2, 5), true), ((3, 5), false), ((1, 6), true)]
}

#[test]
fn chatting_needs_both_clients_registered_at_the_server() {
    assert!(can_chat(&table(), 1, Some(2), Some(5)));
    assert!(!can_chat(&table(), 1, Some(3), Some(5)));
    assert!(!can_chat(&table(), 1, Some(2), Some(6)));
    assert!(!can_chat(&table(), 1, None, Some(5)));
    assert!(!can_chat(&table(), 1, Some(2), None));
}

#[test]
fn an_empty_message_is_not_sent() {
    assert!(may_send(&table(), 1, Some(2), Some(5), "hi"));
    assert!(!may_send(&table(), 1, Some(2), Some(5), ""));
    assert!(!may_send(&table(), 1, Some(3), Some(5), "hi"));
}

#[test]
fn clicking_clients_and_servers_toggles_the_choice() {
    assert_eq!(partner_after_click(Some(2), 2, true), None);
    assert_eq!(partner_after_click(None, 2, true), Some(2));
    assert_eq!(partner_after_click(Some(4), 2, false), Some(4));
    assert_eq!(partner_after_click(Some(4), 2, true), Some(2));
    assert_eq!(server_after_click(Some(5), 5), None);
    assert_eq!(server_after_click(Some(5), 6), Some(6));
    assert_eq!(server_after_click(None, 6), Some(6));
}

#[test]
fn selecting_a_media_asks_for_a_text_or_its_position() {
    assert_eq!(select_media(Some(30), "notes.txt"), MediaRequest::TextFile(30));
    assert_eq!(select_media(Some(30), "cat.png"), MediaRequest::MediaPosition(30));
    assert_eq!(select_media(Some(30), ".txt.png"), MediaRequest::MediaPosition(30));
    assert_eq!(select_media(Some(30), "txt"), MediaRequest::MediaPosition(30));
    assert_eq!(select_media(None, "notes.txt"), MediaRequest::Unreachable);
}

#[test]
fn the_media_list_shows_only_for_the_server_it_came_from() {
    assert_eq!(media_list_state(Some(Some(30)), Some(Some(30))), (true, false));
    assert_eq!(media_list_state(Some(Some(30)), Some(Some(31))), (false, true));
    assert_eq!(media_list_state(Some(None), None), (false, true));
    assert_eq!(media_list_state(None, None), (false, false));
    assert_eq!(media_list_state(Some(None), Some(None)), (true, false));
}
