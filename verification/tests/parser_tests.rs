use wiktitrage::parser::{parse, Wik};

fn entry(lang: &str, desc: &str) -> Wik {
    Wik { desc: desc.to_string(), lang: lang.to_string() }
}

#[test]
fn two_sections_one_missing() {
    let lines = [
        "== Français ==",
        "=== Étymologie ===",
        "From Latin foo.",
        "== English ==",
        "=== Étymologie ===",
        "Étymologie manquante ou incomplète.",
    ];
    let out = parse(&lines.join("\n"));
    assert_eq!(out, vec![entry("== Français ==", "From Latin foo.")]);
}

#[test]
fn empty_text_gives_nothing() {
    assert_eq!(parse(""), Vec::<Wik>::new());
}

#[test]
fn only_newlines_give_nothing() {
    assert_eq!(parse("\n\n\n"), Vec::<Wik>::new());
}

#[test]
fn blank_lines_do_not_break_a_window() {
    let text = "\n\n== Français ==\n\n\n=== Étymologie ===\n\nDu latin cattus.\n\n";
    assert_eq!(parse(text), vec![entry("== Français ==", "Du latin cattus.")]);
}

#[test]
fn blank_lines_change_nothing() {
    let dense = "== Français ==\n=== Étymologie ===\nDu latin cattus.\n== Anglais ==\n=== Étymologie ===\nDe chat.";
    let loose = "== Français ==\n\n=== Étymologie ===\n\n\nDu latin cattus.\n\n== Anglais ==\n=== Étymologie ===\n\nDe chat.\n";
    assert_eq!(parse(dense), parse(loose));
    assert_eq!(parse(dense).len(), 2);
}

#[test]
fn two_entries_in_order() {
    let text = "== Français ==\n=== Étymologie ===\nDu latin cattus.\n=== Nom commun ===\nchat\n== Anglais ==\n=== Étymologie ===\nDe chat.";
    assert_eq!(
        parse(text),
        vec![entry("== Français ==", "Du latin cattus."), entry("== Anglais ==", "De chat.")]
    );
}

#[test]
fn fewer_than_three_lines_give_nothing() {
    assert_eq!(parse("== Français ==\n=== Étymologie ==="), Vec::<Wik>::new());
    assert_eq!(parse("== Français =="), Vec::<Wik>::new());
}

#[test]
fn section_without_etymology_gives_nothing() {
    let text = "== Français ==\n=== Nom commun ===\nchat\n=== Traductions ===\ncat";
    assert_eq!(parse(text), Vec::<Wik>::new());
}

#[test]
fn heading_must_be_wrapped_on_both_sides() {
    assert_eq!(parse("== Français\n=== Étymologie ===\ntexte"), Vec::<Wik>::new());
    assert_eq!(parse("Français ==\n=== Étymologie ===\ntexte"), Vec::<Wik>::new());
    assert_eq!(parse("==Français==\n=== Étymologie ===\ntexte"), Vec::<Wik>::new());
    assert_eq!(
        parse("== ==\n=== Étymologie ===\ntexte"),
        vec![entry("== ==", "texte")]
    );
}

#[test]
fn etymology_heading_must_match_exactly() {
    assert_eq!(parse("== Français ==\n=== Étymologie === \ntexte"), Vec::<Wik>::new());
    assert_eq!(parse("== Français ==\n=== Etymologie ===\ntexte"), Vec::<Wik>::new());
    assert_eq!(parse("== Français ==\n==== Étymologie ====\ntexte"), Vec::<Wik>::new());
}

#[test]
fn third_level_heading_is_no_language() {
    let text = "=== Étymologie ===\n=== Étymologie ===\ntexte";
    assert_eq!(parse(text), Vec::<Wik>::new());
}

#[test]
fn only_the_first_etymology_under_a_heading_is_found() {
    let text = "== Français ==\n=== Étymologie ===\nun\n=== Étymologie ===\ndeux";
    assert_eq!(parse(text), vec![entry("== Français ==", "un")]);
}

#[test]
fn placeholder_is_dropped_only_at_the_start() {
    let text = "== Français ==\n=== Étymologie ===\nVoir : Étymologie manquante ou incomplète";
    assert_eq!(
        parse(text),
        vec![entry("== Français ==", "Voir : Étymologie manquante ou incomplète")]
    );
    let bare = "== Français ==\n=== Étymologie ===\nÉtymologie manquante ou incomplète";
    assert_eq!(parse(bare), Vec::<Wik>::new());
}

#[test]
fn no_entry_starts_with_the_placeholder_and_count_is_bounded() {
    let text = "== A ==\n=== Étymologie ===\nÉtymologie manquante ou incomplète. x\n== B ==\n=== Étymologie ===\nb\n\n== C ==\n=== Étymologie ===\nc";
    let out = parse(text);
    let lines = text.split('\n').filter(|l| !l.is_empty()).count();
    assert_eq!(lines, 9);
    assert!(out.len() <= lines - 2);
    assert_eq!(out.len(), 2);
    for e in &out {
        assert!(!e.desc.starts_with("Étymologie manquante ou incomplète"));
        assert!(!e.desc.is_empty());
    }
}

#[test]
fn parsing_twice_gives_the_same() {
    let text = "== Français ==\n=== Étymologie ===\nDu latin.\n";
    assert_eq!(parse(text), parse(text));
    assert_eq!(parse(text).clone(), vec![entry("== Français ==", "Du latin.")]);
}

#[test]
fn carriage_returns_are_part_of_the_line() {
    let text = "== Français ==\r\n=== Étymologie ===\r\ntexte";
    assert_eq!(parse(text), Vec::<Wik>::new());
}
