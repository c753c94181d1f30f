use std::collections::HashMap;
use wiktitrage::request::{Page, Query, Resp, StartError};
use wiktitrage::rotation::{Action, RotationState};
use wiktitrage::session::open_session;

fn article(texts: Vec<Option<&str>>) -> Query {
    let mut map = HashMap::new();
    for (i, text) in texts.into_iter().enumerate() {
        let id = i as u64 + 1;
        map.insert(id, Page { pageid: id, title: format!("page {}", id), desc: text.map(|t| t.to_string()) });
    }
    Query { pages: map }
}

#[test]
fn session_opens_on_the_first_entries_found() {
    let text = "== Français ==\n=== Étymologie ===\nDu latin cattus.\n== Anglais ==\n=== Étymologie ===\nDe chat.";
    let mut pages = Resp::new(article(vec![None, Some(text), Some("rien")]));
    let state: RotationState = open_session(&mut pages, 7).unwrap();
    assert_eq!(state.len(), 2);
    assert_eq!(state.cursor(), 0);
    assert_eq!(state.ticks_remaining(), 7);
    assert_eq!(state.opening(), Action::Publish("Du latin cattus.".to_string()));
    assert_eq!(state.current().lang, "== Français ==");
}

#[test]
fn session_does_not_open_without_entries() {
    let mut pages = Resp::new(article(vec![None, Some("rien"), Some("")]));
    match open_session(&mut pages, 7) {
        Err(e) => assert_eq!(e, StartError::NothingFound),
        Ok(_) => panic!("a session opened on nothing"),
    }
}
