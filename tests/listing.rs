use rist::config::{builtin_config, first_run_config, LayoutConfig};
use rist::entry::{classify, entry_kind, truncate_name, Child, EntryKind};
use rist::layout::{column_width_of, items_per_line, listing, pad_entries, render};

fn chars(s: &str) -> Vec<char> {
    s.chars().collect()
}

fn text(v: &[char]) -> String {
    v.iter().collect()
}

fn child(name: &str, is_dir: bool, mode: u32) -> Child {
    Child { name: chars(name), is_dir, mode }
}

fn scenario_children() -> Vec<Child> {
    vec![
        child("a.txt", false, 0o644),
        child("b.sh", false, 0o755),
        child("c", true, 0o755),
        child(".d", false, 0o644),
    ]
}

#[test]
fn scenario_classifies_three_and_prints_two() {
    let cfg = first_run_config();
    let es = classify(&scenario_children(), false, &cfg);
    assert_eq!(es.len(), 3);
    assert_eq!(text(&es[0].name), "a.txt");
    assert_eq!(es[0].kind, EntryKind::PlainFile);
    assert_eq!(text(&es[1].name), "b.sh");
    assert_eq!(es[1].kind, EntryKind::Executable);
    assert_eq!(text(&es[2].name), "c");
    assert_eq!(es[2].kind, EntryKind::Directory);
    let out = text(&listing(&scenario_children(), false, &cfg, 80));
    let expected = "\x1b[1;33mb.sh      \x1b[0;37m  \x1b[1;34mc         \x1b[0;37m  \n";
    assert_eq!(out, expected);
    assert!(!out.contains("a.txt"));
}

#[test]
fn printed_count_is_one_less_than_listed() {
    let cfg = first_run_config();
    let out = text(&listing(&scenario_children(), true, &cfg, 80));
    // four listed entries, three printed
    assert_eq!(out.matches("\x1b[0;37m").count(), 3);
    assert!(out.contains(".d"));
    let empty: Vec<Child> = Vec::new();
    assert_eq!(text(&listing(&empty, false, &cfg, 80)), "\n");
    let one = vec![child("only", false, 0o644)];
    assert_eq!(text(&listing(&one, false, &cfg, 80)), "\n");
}

#[test]
fn padding_reaches_widest_visible_name() {
    let cfg = builtin_config();
    let cs = vec![
        child("short", false, 0o644),
        child("a_much_longer_name.txt", false, 0o644),
        child("mid_name", false, 0o644),
    ];
    let es = classify(&cs, false, &cfg);
    let w = column_width_of(&es, &cfg);
    assert_eq!(w, 22);
    let padded = pad_entries(&es, w);
    for e in padded.iter() {
        assert_eq!(e.name.len(), 22);
    }
    assert_eq!(text(&padded[0].name), "short                 ");
}

#[test]
fn width_never_below_truncate_at() {
    let cfg = builtin_config();
    let es = classify(&scenario_children(), false, &cfg);
    assert_eq!(column_width_of(&es, &cfg), 10);
}

#[test]
fn hidden_names_do_not_widen_the_column() {
    let cfg = builtin_config();
    let cs = vec![child("a", false, 0o644), child(".a_long_hidden_name", false, 0o644)];
    let es = classify(&cs, true, &cfg);
    assert_eq!(es.len(), 2);
    assert!(es[1].hidden);
    assert_eq!(column_width_of(&es, &cfg), 10);
}

#[test]
fn truncation_cuts_names() {
    let mut cfg = builtin_config();
    cfg.truncate = true;
    cfg.truncate_at = 3;
    let cs = vec![child("abcdef", false, 0o644), child("xy", false, 0o644)];
    let es = classify(&cs, false, &cfg);
    assert_eq!(text(&es[0].name), "abc");
    assert_eq!(column_width_of(&es, &cfg), 3);
    let padded = pad_entries(&es, 3);
    assert_eq!(text(&padded[1].name), "xy ");
    let mut cfg = builtin_config();
    cfg.absolute_limit = 4;
    let es = classify(&cs, false, &cfg);
    assert_eq!(text(&es[0].name), "abcd");
    assert_eq!(text(&truncate_name(&chars("hello"), 0)), "");
    assert_eq!(text(&truncate_name(&chars("hello"), 9)), "hello");
}

#[test]
fn hidden_test_follows_truncation() {
    let mut cfg = builtin_config();
    cfg.truncate = true;
    cfg.truncate_at = 0;
    let cs = vec![child(".hidden", false, 0o644)];
    let es = classify(&cs, false, &cfg);
    assert_eq!(es.len(), 1);
    assert!(!es[0].hidden);
}

#[test]
fn kinds_from_mode_bits() {
    assert_eq!(entry_kind(true, 0o644), EntryKind::Directory);
    assert_eq!(entry_kind(false, 0o100), EntryKind::Executable);
    assert_eq!(entry_kind(false, 0o010), EntryKind::Executable);
    assert_eq!(entry_kind(false, 0o001), EntryKind::Executable);
    assert_eq!(entry_kind(false, 0o666), EntryKind::PlainFile);
}

#[test]
fn items_per_line_from_terminal_width() {
    let cfg = builtin_config();
    assert_eq!(items_per_line(&cfg, 10, 80), 6);
    assert_eq!(items_per_line(&cfg, 10, 11), 0);
    assert_eq!(items_per_line(&cfg, usize::MAX, 80), 0);
    let mut zero = builtin_config();
    zero.spacing = 0;
    assert_eq!(items_per_line(&zero, 0, 80), 0);
    let explicit = first_run_config();
    assert_eq!(items_per_line(&explicit, 10, 11), 4);
}

#[test]
fn line_breaks_follow_items_per_line() {
    let cfg = LayoutConfig {
        truncate: false,
        truncate_at: 1,
        absolute_limit: 40,
        items: 0,
        spacing: 0,
        items_explicit: false,
    };
    let cs: Vec<Child> = ["a", "b", "c", "d", "e", "f"].iter().map(|n| child(n, false, 0o644)).collect();
    // width 1 and no spacing on a 2-column terminal: a break after every second printed entry
    let out = text(&listing(&cs, false, &cfg, 2));
    let cell = |n: &str| format!("\x1b[0;37m{}\x1b[0;37m", n);
    let expected = format!(
        "{}{}\n{}{}\n{}\n",
        cell("b"),
        cell("c"),
        cell("d"),
        cell("e"),
        cell("f")
    );
    assert_eq!(out, expected);
    // a terminal narrower than a column: one unbroken line
    let mut wide = cfg;
    wide.truncate_at = 5;
    let out = text(&listing(&cs, false, &wide, 2));
    assert_eq!(out.matches('\n').count(), 1);
}

#[test]
fn render_colours_by_kind_and_hidden() {
    let cfg = builtin_config();
    let cs = vec![
        child("x", false, 0o644),
        child(".dir", true, 0o755),
        child(".exe", false, 0o755),
        child(".txt", false, 0o644),
        child("dir", true, 0o755),
        child("exe", false, 0o700),
        child("txt", false, 0o600),
    ];
    let es = classify(&cs, true, &cfg);
    let out = text(&render(&es, 0, 1));
    let expected = "\x1b[0;34m.dir\x1b[0;37m \x1b[0;33m.exe\x1b[0;37m \x1b[1;30m.txt\x1b[0;37m \
                    \x1b[1;34mdir\x1b[0;37m \x1b[1;33mexe\x1b[0;37m \x1b[0;37mtxt\x1b[0;37m \n";
    assert_eq!(out, expected);
}

#[test]
fn listing_is_repeatable() {
    let cfg = first_run_config();
    let a = listing(&scenario_children(), true, &cfg, 50);
    let b = listing(&scenario_children(), true, &cfg, 50);
    assert_eq!(a, b);
}
