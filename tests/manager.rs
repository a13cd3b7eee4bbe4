use iced_wry::{get_updater, IcedWebviewManager, IcedWryMessage, IdCounter, WebviewUpdateMessage};

#[test]
fn ids_start_at_one_and_increase() {
    let mut ids = IdCounter::new();
    assert_eq!(ids.increment_id(), Some(1));
    assert_eq!(ids.increment_id(), Some(2));
    assert_eq!(ids.increment_id(), Some(3));
}

#[test]
fn manager_and_webviews_share_the_counter() {
    let mut ids = IdCounter::new();
    let mut m: IcedWebviewManager<&str> = IcedWebviewManager::new(&mut ids).unwrap();
    assert_eq!(m.manager_id(), 1);
    assert_eq!(m.insert_webview(&mut ids, "a"), Some(2));
    assert_eq!(m.insert_webview(&mut ids, "b"), Some(3));
    assert_eq!(m.get(2), Some(&"a"));
    assert_eq!(m.get(3), Some(&"b"));
    assert_eq!(m.get(1), None);
}

#[test]
fn update_resolves_each_id_in_order() {
    let mut ids = IdCounter::new();
    let mut m: IcedWebviewManager<String> = IcedWebviewManager::new(&mut ids).unwrap();
    let a = m.insert_webview(&mut ids, "a".to_string()).unwrap();
    let b = m.insert_webview(&mut ids, "b".to_string()).unwrap();
    let r = m.update(IcedWryMessage::HideWebviews(vec![b, 40, a]));
    assert_eq!(r.len(), 3);
    assert_eq!(r[0], (b, Some(&"b".to_string())));
    assert_eq!(r[1], (40, None));
    assert_eq!(r[2], (a, Some(&"a".to_string())));
}

#[test]
fn update_with_no_ids_resolves_nothing() {
    let mut ids = IdCounter::new();
    let mut m: IcedWebviewManager<u8> = IcedWebviewManager::new(&mut ids).unwrap();
    m.insert_webview(&mut ids, 1);
    assert!(m.update(IcedWryMessage::HideWebviews(vec![])).is_empty());
}

#[test]
fn reset_forgets_every_webview_but_not_the_ids() {
    let mut ids = IdCounter::new();
    let mut m: IcedWebviewManager<u8> = IcedWebviewManager::new(&mut ids).unwrap();
    let a = m.insert_webview(&mut ids, 1).unwrap();
    m.reset();
    assert_eq!(m.get(a), None);
    assert_eq!(m.manager_id(), 1);
    assert_eq!(m.insert_webview(&mut ids, 2), Some(a + 1));
}

#[test]
fn updater_has_no_receiver() {
    let sender = get_updater();
    assert!(sender.send((1, WebviewUpdateMessage::Hide)).is_err());
}
