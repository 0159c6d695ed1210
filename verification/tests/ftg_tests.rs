use ftg::excl::ExclusionSet;
use ftg::interactive::{handle_action, process_ids_line, ActionChoice, IdEvent, IdsReply};
use ftg::should_exclude;
use ftg::text::{parse_index, split_whitespace_tokens, trim};
use ftg::tree::{format_entry_line, generate_tree, Entry, EntryKind};
use ftg::{default_output_name, output_name_for};

fn file(name: &str) -> Entry {
    Entry {
        name: name.to_string(),
        kind: EntryKind::File,
        children: Vec::new(),
    }
}

fn dir(name: &str, children: Vec<Entry>) -> Entry {
    Entry {
        name: name.to_string(),
        kind: EntryKind::Directory,
        children,
    }
}

#[test]
fn membership_follows_edit_history() {
    let mut set = ExclusionSet::new();
    let name = "alpha".to_string();
    assert!(!set.contains(&name));
    set.add(name.clone());
    assert!(set.contains(&name));
    assert!(should_exclude(&name, &set));
    set.remove(&name);
    assert!(!set.contains(&name));
    set.add(name.clone());
    set.add("beta".to_string());
    set.clear();
    assert!(!set.contains(&name));
    assert!(!set.contains(&"beta".to_string()));
    set.add(name.clone());
    assert!(set.contains(&name));
}

#[test]
fn default_set_holds_the_fixed_names() {
    let set = ExclusionSet::build_default();
    for name in [
        "node_modules",
        ".next",
        ".vscode",
        ".idea",
        ".git",
        "target",
        "Cargo.lock",
        "zig-cache",
        "zig-out",
        "vendor",
        "go.sum",
        "DerivedData",
        ".svelte-kit",
    ] {
        assert!(set.contains(&name.to_string()), "missing {}", name);
    }
    assert!(!set.contains(&"src".to_string()));
}

#[test]
fn csv_patterns_insert_every_segment_verbatim() {
    let mut set = ExclusionSet::new();
    set.add_from_csv("foo, bar,,baz");
    assert!(set.contains(&"foo".to_string()));
    assert!(set.contains(&" bar".to_string()));
    assert!(!set.contains(&"bar".to_string()));
    assert!(set.contains(&"".to_string()));
    assert!(set.contains(&"baz".to_string()));
    assert!(!set.contains(&"qux".to_string()));
}

#[test]
fn line_per_visible_entry_and_kind_tags() {
    let tree = vec![
        dir("a", vec![file("x"), file("y")]),
        file("b"),
        dir("c", vec![]),
    ];
    let set = ExclusionSet::new();
    let lines = generate_tree(&tree, "", &set);
    assert_eq!(lines.len(), 5);
    assert_eq!(lines[0], "├── [Directory] a");
    assert_eq!(lines[1], "│   ├── [File] x");
    assert_eq!(lines[2], "│   └── [File] y");
    assert_eq!(lines[3], "├── [File] b");
    assert_eq!(lines[4], "└── [Directory] c");
}

#[test]
fn connector_counts_excluded_siblings() {
    // The middle entry is excluded: the first still gets the tee, the last
    // still gets the elbow, and no line is emitted for the excluded one.
    let tree = vec![file("a"), dir("target", vec![file("hidden")]), file("c")];
    let set = ExclusionSet::build_default();
    let lines = generate_tree(&tree, "", &set);
    assert_eq!(lines, vec!["├── [File] a", "└── [File] c"]);
}

#[test]
fn excluded_last_sibling_leaves_earlier_connectors_alone() {
    // Root holds `src` (dir, not last) and `Cargo.lock` (file, last,
    // excluded by default): `src` keeps the tee and its child is indented
    // with the continuation bar.
    let tree = vec![dir("src", vec![file("main.rs")]), file("Cargo.lock")];
    let set = ExclusionSet::build_default();
    let lines = generate_tree(&tree, "", &set);
    assert_eq!(lines, vec!["├── [Directory] src", "│   └── [File] main.rs"]);
}

#[test]
fn user_patterns_suppress_lines_but_not_slots() {
    // `-e foo,bar` with root `foo` then `baz`: only `baz` is printed, and
    // it keeps the last-sibling elbow it had in the raw listing.
    let mut set = ExclusionSet::new();
    set.add_from_csv("foo,bar");
    let tree = vec![file("foo"), file("baz")];
    let lines = generate_tree(&tree, "", &set);
    assert_eq!(lines, vec!["└── [File] baz"]);
}

#[test]
fn indentation_tracks_nesting_depth() {
    let tree = vec![dir(
        "a",
        vec![dir("b", vec![file("leaf")]), file("tail")],
    )];
    let set = ExclusionSet::new();
    let lines = generate_tree(&tree, "", &set);
    assert_eq!(lines[0], "└── [Directory] a");
    assert_eq!(lines[1], "    ├── [Directory] b");
    assert_eq!(lines[2], "    │   └── [File] leaf");
    assert_eq!(lines[3], "    └── [File] tail");
}

#[test]
fn generation_is_idempotent() {
    let tree = vec![
        dir("a", vec![file("x")]),
        file("Cargo.lock"),
        dir("b", vec![dir("c", vec![file("y")])]),
    ];
    let set = ExclusionSet::build_default();
    let first = generate_tree(&tree, "", &set);
    let second = generate_tree(&tree, "", &set);
    assert_eq!(first, second);
}

#[test]
fn clear_then_generate_keeps_defaults_excluded() {
    // Interactive `clear` empties the set for the rest of the loop, but
    // the defaults are always applied: generation re-adds them, so with
    // no user exclusions beyond the defaults only the default names stay
    // excluded and everything else appears.
    let mut set = ExclusionSet::build_default();
    let names = vec!["node_modules".to_string(), "main.rs".to_string()];
    let reply = process_ids_line(&"clear".to_string(), &names, &mut set);
    assert!(matches!(reply, IdsReply::Cleared));
    assert!(!set.contains(&"node_modules".to_string()));
    let action = handle_action(&"y".to_string(), &mut set);
    assert_eq!(action, ActionChoice::Generate);
    set.add_defaults();
    let tree = vec![dir("node_modules", vec![file("pkg")]), file("main.rs")];
    let lines = generate_tree(&tree, "", &set);
    assert_eq!(lines, vec!["└── [File] main.rs"]);
}

#[test]
fn ids_line_adds_removes_and_reports() {
    let mut set = ExclusionSet::new();
    set.add("a".to_string());
    let names = vec!["a".to_string(), "b".to_string(), "c".to_string()];
    let reply = process_ids_line(&" 2 5 -1 ".to_string(), &names, &mut set);
    match reply {
        IdsReply::Events(events) => {
            assert_eq!(events.len(), 3);
            assert!(matches!(&events[0], IdEvent::Added(n) if n == "b"));
            assert!(matches!(&events[1], IdEvent::InvalidId(t) if t == "5"));
            assert!(matches!(&events[2], IdEvent::Removed(n) if n == "a"));
        }
        other => panic!("unexpected reply: {:?}", other),
    }
    assert!(set.contains(&"b".to_string()));
    assert!(!set.contains(&"a".to_string()));
    assert!(!set.contains(&"c".to_string()));
}

#[test]
fn malformed_ids_are_fatal() {
    let names = vec!["a".to_string()];
    let mut set = ExclusionSet::new();
    let reply = process_ids_line(&"1 x".to_string(), &names, &mut set);
    assert!(matches!(reply, IdsReply::BadToken));
    // The first token was applied before the bad one stopped the line.
    assert!(set.contains(&"a".to_string()));

    let mut set2 = ExclusionSet::new();
    let reply2 = process_ids_line(&"-z".to_string(), &names, &mut set2);
    assert!(matches!(reply2, IdsReply::BadToken));

    let mut set3 = ExclusionSet::new();
    let reply3 = process_ids_line(&"-".to_string(), &names, &mut set3);
    assert!(matches!(reply3, IdsReply::BadToken));
}

#[test]
fn zero_and_out_of_range_ids_only_report() {
    let names = vec!["a".to_string()];
    let mut set = ExclusionSet::new();
    let reply = process_ids_line(&"0 2 -0 -2".to_string(), &names, &mut set);
    match reply {
        IdsReply::Events(events) => {
            assert_eq!(events.len(), 4);
            for (event, expected) in events.iter().zip(["0", "2", "-0", "-2"]) {
                assert!(matches!(event, IdEvent::InvalidId(t) if t == expected));
            }
        }
        other => panic!("unexpected reply: {:?}", other),
    }
    assert!(!set.contains(&"a".to_string()));
}

#[test]
fn menu_choices_classify_as_specified() {
    let mut set = ExclusionSet::new();
    set.add("a".to_string());
    assert_eq!(handle_action(&" y ".to_string(), &mut set), ActionChoice::Generate);
    assert!(set.contains(&"a".to_string()));
    assert_eq!(handle_action(&"m".to_string(), &mut set), ActionChoice::More);
    assert!(set.contains(&"a".to_string()));
    assert_eq!(
        handle_action(&"anything".to_string(), &mut set),
        ActionChoice::Invalid
    );
    assert!(set.contains(&"a".to_string()));
    assert_eq!(handle_action(&"c".to_string(), &mut set), ActionChoice::ClearList);
    assert!(!set.contains(&"a".to_string()));
}

#[test]
fn text_helpers_behave_like_std() {
    assert_eq!(trim(" \t a b \n"), "a b");
    assert_eq!(trim("   "), "");
    assert_eq!(trim(""), "");
    assert_eq!(trim("x"), "x");
    let toks = split_whitespace_tokens("  one\ttwo  three ");
    assert_eq!(toks, vec!["one", "two", "three"]);
    let none: Vec<String> = Vec::new();
    assert_eq!(split_whitespace_tokens("   "), none);
    assert_eq!(parse_index("0"), Some(0));
    assert_eq!(parse_index("007"), Some(7));
    assert_eq!(parse_index("42"), Some(42));
    assert_eq!(parse_index(""), None);
    assert_eq!(parse_index("1x"), None);
    assert_eq!(parse_index("+1"), None);
    assert_eq!(parse_index("99999999999999999999999999999"), None);
}

#[test]
fn format_entry_line_is_exact() {
    assert_eq!(
        format_entry_line("", false, EntryKind::Directory, "src"),
        "├── [Directory] src"
    );
    assert_eq!(
        format_entry_line("│   ", true, EntryKind::File, "a.txt"),
        "│   └── [File] a.txt"
    );
}

#[test]
fn output_name_wraps_the_timestamp() {
    assert_eq!(output_name_for("2024-01-02_03-04-05"), "file_tree_2024-01-02_03-04-05.md");
    let name = default_output_name();
    assert!(name.starts_with("file_tree_"));
    assert!(name.ends_with(".md"));
    // The clock-derived part is not empty.
    assert!(name.len() > "file_tree_.md".len());
}

#[test]
fn listing_names_reflect_the_set() {
    let mut set = ExclusionSet::new();
    set.add("one".to_string());
    set.add("two".to_string());
    set.add("one".to_string());
    set.add_from_csv("two,three");
    let names = set.names();
    assert!(names.contains(&"one".to_string()));
    assert!(names.contains(&"two".to_string()));
    assert!(names.contains(&"three".to_string()));
    // Repeated inserts are listed once.
    assert_eq!(names.len(), 3);
}
