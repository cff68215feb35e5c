use codex_toolkit::instructions::InstructionAudience;
use codex_toolkit::instructions::InstructionPriority;
use codex_toolkit::instructions::InstructionSection;
use codex_toolkit::instructions::InstructionSource;
use codex_toolkit::instructions::ResolvedInstructionLayers;
use codex_toolkit::paths;
use codex_toolkit::text;
use codex_toolkit::text_map::TextMap;
use codex_toolkit::text_order;

#[test]
fn white_space_is_that_of_unicode() {
    for code in 0..=0x10ffff_u32 {
        if let Some(c) = char::from_u32(code) {
            assert_eq!(text::white(c), c.is_whitespace(), "{code:x}");
        }
    }
}

#[test]
fn numbers_are_written_and_read() {
    for n in [0, 7, 10, 1_234_567, u64::MAX] {
        assert_eq!(text::render_u64(n), n.to_string());
        assert_eq!(text::parse_u64(&text::chars_of(&n.to_string())), Some(n));
    }
    for n in [0, -1, i64::MIN, i64::MAX] {
        assert_eq!(text::render_i64(n), n.to_string());
    }
    for bad in ["", "-1", "1x", "18446744073709551616"] {
        assert_eq!(text::parse_u64(&text::chars_of(bad)), None);
    }
    assert_eq!(text::parse_u64(&text::chars_of("+5")), "+5".parse::<u64>().ok());
}

#[test]
fn characters_are_measured() {
    for c in ['a', 'ß', '→', '😀'] {
        assert_eq!(text::char_bytes(c), c.len_utf8());
        assert_eq!(text::char_units(c), c.len_utf16());
    }
    assert_eq!(text::byte_len("aß→😀"), "aß→😀".len());
    let s = text::chars_of("aß→");
    assert_eq!(text::position_of_byte(&s, 3), Some(2));
    assert_eq!(text::position_of_byte(&s, 2), None);
}

#[test]
fn texts_are_split_and_joined() {
    let s = text::chars_of("a\r\nb\n\nc");
    let rows = |lines: Vec<Vec<char>>| -> Vec<String> {
        lines.iter().map(|line| text::text_of(line)).collect()
    };
    assert_eq!(rows(text::split_bare_lines(&s)), vec!["a", "b", "", "c"]);
    assert_eq!(rows(text::split_plain_lines(&s)), vec!["a\r", "b", "", "c"]);
    let words: Vec<String> = text::split_words(&text::chars_of("  one two\tthree "))
        .iter()
        .map(|word| text::text_of(word))
        .collect();
    assert_eq!(words, vec!["one", "two", "three"]);
    assert_eq!(text::join_texts(&words, ", "), "one, two, three");
    assert_eq!(
        text::text_of(&text::replace(
            &text::chars_of("aXbX"),
            &text::chars_of("X"),
            &text::chars_of("--")
        )),
        "a--b--"
    );
    assert_eq!(text::text_of(text::trim(&text::chars_of(" \u{a0}x\n"))), "x");
}

#[test]
fn texts_are_sorted() {
    let items: Vec<String> = ["b", "B", "a", "b", "ab"].iter().map(|s| s.to_string()).collect();
    let mut expected = items.clone();
    expected.sort();
    assert_eq!(text_order::sort_texts(&items), expected);
    expected.dedup();
    assert_eq!(text_order::sort_set(&items), expected);
}

#[test]
fn paths_are_taken_apart() {
    assert_eq!(paths::join("/a", "b/c"), "/a/b/c");
    assert_eq!(paths::join("/a", "/b"), "/b");
    assert_eq!(paths::file_name("/a/b.rs").as_deref(), Some("b.rs"));
    assert_eq!(paths::extension("/a/b.tar.gz").as_deref(), Some("gz"));
    assert_eq!(paths::extension("/a/.hidden"), None);
    assert_eq!(paths::parent("/a/b").as_deref(), Some("/a"));
    assert_eq!(paths::parent("/"), None);
    assert!(paths::starts_with("/a/b", "/a"));
    assert!(!paths::starts_with("/ab", "/a"));
    assert!(paths::same_path("/a//b/", "/a/b"));
    assert_eq!(paths::strip_prefix("/a/b/c", "/a").as_deref(), Some("b/c"));
    let mut list: Vec<String> = ["/a/b", "/a-b", "/a", "/a/b"].iter().map(|s| s.to_string()).collect();
    let sorted = paths::sort_paths(&list);
    list.sort_by(|x, y| std::path::Path::new(x).cmp(std::path::Path::new(y)));
    list.dedup();
    assert_eq!(sorted, list);
}

#[test]
fn maps_keep_their_latest_value() {
    let mut map = TextMap::new();
    map.insert("a", 1);
    map.insert("b", 2);
    map.insert("a", 3);
    assert_eq!(map.len(), 2);
    assert_eq!(map.get("a"), Some(&3));
    assert_eq!(map.remove("a"), Some(3));
    assert!(!map.contains("a"));
    assert_eq!(map.keys(), vec!["b"]);
    assert_eq!(map.remove("a"), None);
}

#[test]
fn sections_go_to_their_audience() {
    let section = |audience, text: &str| {
        InstructionSection::new(
            audience,
            InstructionPriority::Repo,
            InstructionSource::ProjectDoc,
            text,
        )
    };
    let mut layers = ResolvedInstructionLayers::default();
    assert!(layers.base_instructions.is_empty() && layers.sections.is_empty());
    layers.sections = vec![
        section(InstructionAudience::Developer, "one"),
        section(InstructionAudience::ContextualUser, "two"),
        section(InstructionAudience::Developer, "three"),
    ];
    assert_eq!(layers.developer_sections(), vec!["one", "three"]);
    assert_eq!(
        layers.sections_for(InstructionAudience::ContextualUser),
        vec!["two"]
    );
}

fn short_texts() -> Vec<String> {
    let mut all = vec![String::new()];
    let mut last = all.clone();
    for _ in 0..5 {
        let mut next = Vec::new();
        for s in &last {
            for c in ['a', ' ', '\n', '\r', 'é'] {
                next.push(format!("{s}{c}"));
            }
        }
        all.extend(next.iter().cloned());
        last = next;
    }
    all
}

fn rows_of(rows: Vec<Vec<char>>) -> Vec<String> {
    rows.iter().map(|row| text::text_of(row)).collect()
}

#[test]
fn texts_are_handled_as_std_handles_them() {
    for s in short_texts() {
        let chars = text::chars_of(&s);
        assert_eq!(text::text_of(text::trim(&chars)), s.trim(), "{s:?}");
        assert_eq!(text::text_of(text::trim_start(&chars)), s.trim_start(), "{s:?}");
        assert_eq!(text::text_of(text::trim_end(&chars)), s.trim_end(), "{s:?}");
        assert_eq!(text::blank(&chars), s.trim().is_empty(), "{s:?}");
        assert_eq!(
            rows_of(text::split_bare_lines(&chars)),
            s.lines().collect::<Vec<_>>(),
            "{s:?}"
        );
        assert_eq!(
            rows_of(text::split_on(&chars, '\n')),
            s.split('\n').collect::<Vec<_>>(),
            "{s:?}"
        );
        assert_eq!(
            rows_of(text::split_words(&chars)),
            s.split_whitespace().collect::<Vec<_>>(),
            "{s:?}"
        );
        assert_eq!(text::byte_len(&s), s.len(), "{s:?}");
        for needle in ["a", "aa", " \n", "é"] {
            let wanted = text::chars_of(needle);
            assert_eq!(
                text::text_of(&text::replace(&chars, &wanted, &['x', 'y'])),
                s.replace(needle, "xy"),
                "{s:?}"
            );
            assert_eq!(
                text::match_positions(&chars, &wanted).len(),
                s.matches(needle).count(),
                "{s:?}"
            );
            assert_eq!(text::has_text(&chars, &wanted), s.contains(needle), "{s:?}");
            assert_eq!(text::starts_with(&chars, &wanted), s.starts_with(needle), "{s:?}");
        }
    }
}
