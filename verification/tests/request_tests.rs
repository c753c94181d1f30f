use wiktitrage::parser::Wik;
use std::collections::HashMap;
use wiktitrage::request::{page_ids, request_url, Page, Query, Resp, StartError};

fn page(id: u64, text: Option<&str>) -> Page {
    Page { pageid: id, title: format!("page {}", id), desc: text.map(|t| t.to_string()) }
}

fn query(pages: Vec<Page>) -> Query {
    let mut map = HashMap::new();
    for p in pages {
        map.insert(p.pageid, p);
    }
    Query { pages: map }
}

const CHAT: &str = "== Français ==\n=== Étymologie ===\nDu latin cattus.";

#[test]
fn address_holds_the_parameters_and_the_word() {
    assert_eq!(
        request_url("chat"),
        Ok("https://fr.wiktionary.org/w/api.php?&explaintext&format=json&action=query&prop=extracts&exlimit=1&titles=chat".to_string())
    );
}

#[test]
fn address_encodes_the_word() {
    let address = request_url("pomme de terre").unwrap();
    assert!(address.ends_with("&titles=pomme+de+terre"));
    assert!(address.starts_with("https://fr.wiktionary.org/w/api.php?"));
}

#[test]
fn empty_word_is_refused() {
    assert_eq!(request_url(""), Err(StartError::EmptyTerm));
}

#[test]
fn page_without_text_has_no_lines() {
    assert_eq!(page(1, None).get_line(), None);
}

#[test]
fn page_with_text_is_parsed() {
    let lines = page(1, Some(CHAT)).get_line();
    assert_eq!(
        lines,
        Some(vec![Wik { desc: "Du latin cattus.".to_string(), lang: "== Français ==".to_string() }])
    );
    assert_eq!(page(2, Some("")).get_line(), Some(vec![]));
}

#[test]
fn producer_visits_each_page_once() {
    let mut resp = Resp::new(query(vec![page(1, None), page(2, Some(CHAT)), page(3, Some("rien"))]));
    let mut sizes = Vec::new();
    for _ in 0..3 {
        sizes.push(resp.next().map(|v| v.len()));
    }
    sizes.sort();
    assert_eq!(sizes, vec![Some(0), Some(0), Some(1)]);
    assert_eq!(resp.next(), None);
    assert_eq!(resp.next(), None);
}

#[test]
fn page_without_text_gives_no_entries() {
    let mut resp = Resp::new(query(vec![page(1, None)]));
    assert_eq!(resp.next(), Some(vec![]));
    assert_eq!(resp.next(), None);
}

#[test]
fn page_ids_are_the_keys() {
    let q = query(vec![page(7, None), page(3, Some(CHAT)), page(11, None)]);
    let mut ids = page_ids(&q.pages);
    ids.sort();
    assert_eq!(ids, vec![3, 7, 11]);
}

#[test]
fn first_non_empty_page_is_chosen() {
    let other = "== Anglais ==\n=== Étymologie ===\nDe chat.";
    let mut resp = Resp::new(query(vec![
        page(1, None),
        page(2, Some("rien")),
        page(3, Some(CHAT)),
        page(4, Some(other)),
    ]));
    let entries = resp.first_non_empty().unwrap();
    assert_eq!(entries.len(), 1);
    assert!(entries[0].desc == "Du latin cattus." || entries[0].desc == "De chat.");
    let mut later = 0;
    while let Some(found) = resp.next() {
        if let Some(e) = found.first() {
            assert_ne!(e.desc, entries[0].desc);
            later += 1;
        }
    }
    assert!(later <= 1);
}

#[test]
fn first_non_empty_of_one_page() {
    let mut resp = Resp::new(query(vec![page(2, Some(CHAT))]));
    let entries = resp.first_non_empty().unwrap();
    assert_eq!(
        entries,
        vec![Wik { desc: "Du latin cattus.".to_string(), lang: "== Français ==".to_string() }]
    );
    assert_eq!(resp.first_non_empty(), Err(StartError::NothingFound));
}

#[test]
fn nothing_found_when_no_page_gives_an_entry() {
    let mut resp = Resp::new(query(vec![page(1, None), page(2, Some("rien"))]));
    assert_eq!(resp.first_non_empty(), Err(StartError::NothingFound));
    assert_eq!(resp.next(), None);
    let mut none = Resp::new(query(vec![]));
    assert_eq!(none.first_non_empty(), Err(StartError::NothingFound));
}
