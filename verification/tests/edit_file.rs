use codex_toolkit::edit::apply_edits;
use codex_toolkit::edit::context_anchor_windows;
use codex_toolkit::edit::levenshtein;
use codex_toolkit::edit::EditOperation;
use codex_toolkit::errors::FunctionCallError;
use codex_toolkit::edit::shift_line_indentation;
use codex_toolkit::edit::remove_shared_indentation;

fn edit(old_text: &str, new_text: &str, replace_all: bool) -> EditOperation {
    EditOperation {
        old_text: old_text.to_string(),
        new_text: new_text.to_string(),
        replace_all,
    }
}

fn refused(message: &str) -> FunctionCallError {
    FunctionCallError::RespondToModel(message.to_string())
}

#[test]
fn apply_edits_replaces_exact_match() {
    let edits = vec![edit("beta", "BETA", false)];

    let updated = apply_edits("alpha\nbeta\ngamma\n".to_string(), &edits, &[])
        .expect("apply exact replacement");
    assert_eq!(updated, "alpha\nBETA\ngamma\n");
}

#[test]
fn apply_edits_requires_replace_all_for_ambiguous_match() {
    let edits = vec![edit("dup", "value", false)];

    let err = apply_edits("dup\ndup\n".to_string(), &edits, &[]).expect_err("ambiguous edit");
    assert_eq!(
        err,
        refused("edit 1 old_text matched multiple locations; provide more context or set replace_all")
    );
}

#[test]
fn apply_edits_matches_trimmed_lines() {
    let edits = vec![edit("line2   ", "changed", false)];

    let updated = apply_edits("  line1\n line2 \nline3\n".to_string(), &edits, &[])
        .expect("trimmed line match");
    assert_eq!(updated, "  line1\n changed\nline3\n");
}

#[test]
fn apply_edits_matches_indentation_flexible_block() {
    let edits = vec![edit(
        "if ready:\n    run()\n",
        "if ready:\n    launch()\n",
        false,
    )];

    let updated = apply_edits(
        "fn main():\n        if ready:\n            run()\n".to_string(),
        &edits,
        &[],
    )
    .expect("indentation flexible match");
    assert_eq!(
        updated,
        "fn main():\n        if ready:\n            launch()\n"
    );
}

#[test]
fn apply_edits_rejects_context_anchor_match_with_extra_lines() {
    let content = "before\nbegin\nkeep me\nremove me\nend\nafter\n";
    let edits = vec![edit("begin\nkeep me\nend\n", "begin\nchanged\nend\n", false)];

    assert!(context_anchor_windows(content, "begin\nkeep me\nend\n").is_empty());
    let err = apply_edits(content.to_string(), &edits, &[])
        .expect_err("context-anchor match with extra lines should fail");
    assert_eq!(err, refused("edit 1 old_text was not found in the file"));
}

#[test]
fn apply_edits_replace_all_updates_multiple_ranges() {
    let edits = vec![edit("value", "item", true)];

    let updated =
        apply_edits("value\nother\nvalue\n".to_string(), &edits, &[]).expect("replace all");
    assert_eq!(updated, "item\nother\nitem\n");
}

#[test]
fn edits_that_say_nothing_are_refused() {
    assert_eq!(
        apply_edits("a\n".to_string(), &[edit("", "b", false)], &[]),
        Err(refused(
            "edit 1 has empty old_text; use write_file to create or rewrite files"
        ))
    );
    assert_eq!(
        apply_edits("a\n".to_string(), &[edit("a", "b", false), edit("b", "b", false)], &[]),
        Err(refused("edit 2 would not change the file"))
    );
}

#[test]
fn edits_build_on_each_other() {
    let edits = vec![edit("one", "two", false), edit("two\n", "three\n", false)];
    assert_eq!(
        apply_edits("one\n".to_string(), &edits, &[]),
        Ok("three\n".to_string())
    );
}

#[test]
fn a_chosen_window_is_replaced() {
    let content = "start\nlet x = 1;\nlet y = 2;\nstop\n";
    let old = "start\nlet x = 1;\nlet y = 3;\nstop\n";
    let windows = context_anchor_windows(content, old);
    assert_eq!(windows.len(), 1);
    let edits = vec![edit(old, "start\nstop\n", false)];
    assert_eq!(
        apply_edits(content.to_string(), &edits, &[Some(0)]),
        Ok("start\nstop\n".to_string())
    );
    assert_eq!(
        apply_edits(content.to_string(), &edits, &[None]),
        Err(refused("edit 1 old_text was not found in the file"))
    );
}

#[test]
fn distances_between_texts() {
    assert_eq!(levenshtein("kitten", "sitting"), 3);
    assert_eq!(levenshtein("", "abc"), 3);
    assert_eq!(levenshtein("abc", ""), 3);
    assert_eq!(levenshtein("same", "same"), 0);
    assert_eq!(levenshtein("flaw", "lawn"), levenshtein("lawn", "flaw"));
}

#[test]
fn replacements_take_the_indentation_of_the_passage() {
    let content = "fn f() {\n        if a {\n            b();\n        }\n}\n";
    let old = "if a {\n    b();\n}\n";
    let new = "if c {\n    d();\n}\n";
    assert_eq!(
        apply_edits(content.to_string(), &[edit(old, new, false)], &[None]),
        Ok("fn f() {\n        if c {\n            d();\n        }\n}\n".to_string())
    );
}

#[test]
fn passages_that_overlap_cannot_all_be_replaced() {
    let content = "\ta\n\ta\n\ta\n";
    let edits = vec![edit(" a\n a\n", "x", true)];
    assert_eq!(
        apply_edits(content.to_string(), &edits, &[None]),
        Err(refused("edit 1 replaces passages that overlap"))
    );
}

#[test]
fn lines_are_shifted_within_their_indentation() {
    let shift = |line: &str, delta: isize| -> String {
        let chars: Vec<char> = line.chars().collect();
        shift_line_indentation(&chars, delta).into_iter().collect()
    };
    assert_eq!(shift("  a b ", 2), "    a b ");
    assert_eq!(shift("  a b ", 0), "  a b ");
    assert_eq!(shift("\t a", -1), " a");
    assert_eq!(shift("  a", -9), "a");
    assert_eq!(shift("   ", 4), "   ");
    assert_eq!(shift("   ", -2), "   ");
    for line in ["x", "\t  x y", "", "  ", "\u{3000}z"] {
        for by in 0..4 {
            assert_eq!(shift(&shift(line, by), -by), line);
            assert_eq!(shift(line, -by).trim_start(), line.trim_start());
        }
    }
}

#[test]
fn shared_indentation_is_removed() {
    let dedent = |value: &str| -> String {
        let chars: Vec<char> = value.chars().collect();
        remove_shared_indentation(&chars).into_iter().collect()
    };
    assert_eq!(dedent("    a\n\n      b\n \n    c"), "a\n\n  b\n \nc");
    assert_eq!(dedent(" \n\t\n"), " \n\t\n");
    for value in ["  a\n b\n", "a", "\t\ta\n\n\t b", "", "  \n x"] {
        let once = dedent(value);
        assert_eq!(dedent(&once), once);
        let indented: Vec<String> = value
            .split('\n')
            .map(|line| {
                if line.trim().is_empty() {
                    line.to_string()
                } else {
                    format!(" \t{line}")
                }
            })
            .collect();
        assert_eq!(dedent(&indented.join("\n")), once);
    }
}

#[test]
fn the_first_edit_that_fails_is_named() {
    let edits = vec![edit("a", "b", false), edit("x", "y", false), edit("", "z", false)];
    assert_eq!(
        apply_edits("a".to_string(), &edits, &[None, None, None]),
        Err(refused("edit 2 old_text was not found in the file"))
    );
}
