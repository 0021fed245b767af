use jack_do::{
    next_action, process_parsed, FileOutcome, NodeKind, ParseResult, Pattern, RunAction, RunEvent,
    RunState, Span, SyntaxTree,
};

fn span_of(source: &str, needle: &str) -> Span {
    let start = source.find(needle).unwrap();
    Span::new(start, start + needle.len())
}

fn rewritten(source: &str, tree: SyntaxTree) -> Option<String> {
    match process_parsed(source, ParseResult::Parsed { tree }) {
        FileOutcome::Rewritten { text, .. } => Some(text),
        FileOutcome::Unchanged => None,
        other => panic!("unexpected outcome: {:?}", other),
    }
}

fn two_bindings(source: &str, first_used: bool, second_used: bool) -> SyntaxTree {
    let mut tree = SyntaxTree::new();
    let root = tree.add_node(NodeKind::Other, Span::new(0, source.len()), None).unwrap();
    let statement = tree
        .add_node(
            NodeKind::VariableDeclaration {
                declarations: vec![Pattern::Identifier(Some(0)), Pattern::Identifier(Some(1))],
            },
            span_of(source, "let a = 1, b = 2;"),
            Some(root),
        )
        .unwrap();
    let first =
        tree.add_node(NodeKind::VariableDeclarator, span_of(source, "a = 1"), Some(statement));
    let second =
        tree.add_node(NodeKind::VariableDeclarator, span_of(source, "b = 2"), Some(statement));
    let uses = |used: bool| if used { vec![root] } else { vec![] };
    tree.add_symbol("a".to_string(), first.unwrap(), uses(first_used)).unwrap();
    tree.add_symbol("b".to_string(), second.unwrap(), uses(second_used)).unwrap();
    tree
}

#[test]
fn one_of_two_bindings_is_removed() {
    let source = "let a = 1, b = 2;\nuse(b);\n";
    assert_eq!(
        rewritten(source, two_bindings(source, false, true)),
        Some("let b = 2;\nuse(b);\n".to_string())
    );
    let source = "let a = 1, b = 2;\nuse(a);\n";
    assert_eq!(
        rewritten(source, two_bindings(source, true, false)),
        Some("let a = 1;\nuse(a);\n".to_string())
    );
}

#[test]
fn statement_of_unused_bindings_is_removed_with_its_line() {
    let source = "start();\nlet a = 1, b = 2;\nend();\n";
    assert_eq!(
        rewritten(source, two_bindings(source, false, false)),
        Some("start();\nend();\n".to_string())
    );
}

#[test]
fn indented_statement_is_removed_with_its_line() {
    let source = "{\n\t  let a = 1, b = 2;  \r\n  end();\n}\n";
    assert_eq!(
        rewritten(source, two_bindings(source, false, false)),
        Some("{\n  end();\n}\n".to_string())
    );
}

#[test]
fn file_without_unused_symbols_is_not_rewritten() {
    let source = "let a = 1, b = 2;\nuse(a, b);\n";
    assert_eq!(rewritten(source, two_bindings(source, true, true)), None);
    assert_eq!(rewritten("", SyntaxTree::new()), None);
}

fn import_of_three(source: &str, used: [bool; 3]) -> SyntaxTree {
    let mut tree = SyntaxTree::new();
    let root = tree.add_node(NodeKind::Other, Span::new(0, source.len()), None).unwrap();
    let statement = tree
        .add_node(
            NodeKind::ImportDeclaration { specifiers: Some(vec![Some(0), Some(1), Some(2)]) },
            span_of(source, "import { one, two, three } from \"numbers\";"),
            Some(root),
        )
        .unwrap();
    for (at, name) in ["one", "two", "three"].into_iter().enumerate() {
        let specifier = tree
            .add_node(NodeKind::ImportSpecifier, span_of(source, name), Some(statement))
            .unwrap();
        let references = if used[at] { vec![root] } else { vec![] };
        tree.add_symbol(name.to_string(), specifier, references).unwrap();
    }
    tree
}

#[test]
fn two_of_three_specifiers_are_removed() {
    let source = "import { one, two, three } from \"numbers\";\nrest();\n";
    assert_eq!(
        rewritten(source, import_of_three(source, [true, false, false])),
        Some("import { one } from \"numbers\";\nrest();\n".to_string())
    );
    assert_eq!(
        rewritten(source, import_of_three(source, [false, true, false])),
        Some("import { two } from \"numbers\";\nrest();\n".to_string())
    );
    assert_eq!(
        rewritten(source, import_of_three(source, [false, false, true])),
        Some("import { three } from \"numbers\";\nrest();\n".to_string())
    );
}

#[test]
fn import_of_unused_specifiers_is_removed_with_its_newline() {
    let source = "import { one, two, three } from \"numbers\";\nrest();\n";
    assert_eq!(
        rewritten(source, import_of_three(source, [false, false, false])),
        Some("rest();\n".to_string())
    );
}

#[test]
fn file_that_did_not_parse_is_left_alone() {
    let diagnostics = vec!["unexpected token".to_string(), "expected `;`".to_string()];
    let outcome = process_parsed("let = ;", ParseResult::Failed { diagnostics: diagnostics.clone() });
    match outcome {
        FileOutcome::ParseFailed { diagnostics: reported } => assert_eq!(reported, diagnostics),
        other => panic!("unexpected outcome: {:?}", other),
    }
    let outcome = process_parsed("let = ;", ParseResult::Failed { diagnostics: vec![] });
    assert!(matches!(outcome, FileOutcome::ParseFailed { .. }));
}

#[test]
fn nested_unused_declarations_are_a_conflict() {
    let source = "function f() {\n  let x;\n}\nrest();\n";
    let mut tree = SyntaxTree::new();
    let root = tree.add_node(NodeKind::Other, Span::new(0, source.len()), None).unwrap();
    let function = tree
        .add_node(NodeKind::Other, span_of(source, "function f() {\n  let x;\n}"), Some(root))
        .unwrap();
    let statement = tree
        .add_node(
            NodeKind::VariableDeclaration { declarations: vec![Pattern::Identifier(Some(1))] },
            span_of(source, "let x;"),
            Some(function),
        )
        .unwrap();
    let declarator =
        tree.add_node(NodeKind::VariableDeclarator, span_of(source, "x"), Some(statement));
    tree.add_symbol("f".to_string(), function, vec![]).unwrap();
    tree.add_symbol("x".to_string(), declarator.unwrap(), vec![]).unwrap();
    let outcome = process_parsed(source, ParseResult::Parsed { tree });
    assert!(matches!(outcome, FileOutcome::Conflict));
}

#[test]
fn range_outside_the_text_is_a_conflict() {
    let mut tree = SyntaxTree::new();
    let root = tree.add_node(NodeKind::Other, Span::new(0, 50), None).unwrap();
    tree.add_symbol("a".to_string(), root, vec![]).unwrap();
    let outcome = process_parsed("short", ParseResult::Parsed { tree });
    assert!(matches!(outcome, FileOutcome::Conflict));
}

fn run(events: &[RunEvent]) -> Vec<RunAction> {
    let mut state = RunState::new();
    let mut actions = Vec::new();
    for event in events {
        let (next, action) = next_action(state, event);
        state = next;
        actions.push(action);
        if action == RunAction::Abort || action == RunAction::Finish {
            break;
        }
    }
    actions
}

#[test]
fn run_starts_with_discovery() {
    assert_eq!(RunState::new(), RunState::Discovering { found: 0 });
}

#[test]
fn rejected_pattern_ends_the_run_at_once() {
    assert_eq!(run(&[RunEvent::PatternRejected]), vec![RunAction::Abort]);
}

#[test]
fn failed_entry_ends_the_run_before_any_file_is_touched() {
    let events = [
        RunEvent::FileFound,
        RunEvent::FileFound,
        RunEvent::EntryFailed,
        RunEvent::FileFound,
        RunEvent::Exhausted,
    ];
    assert_eq!(run(&events), vec![RunAction::NextEntry, RunAction::NextEntry, RunAction::Abort]);
}

#[test]
fn files_are_processed_once_discovery_has_ended() {
    let events = [
        RunEvent::FileFound,
        RunEvent::FileFound,
        RunEvent::FileFound,
        RunEvent::Exhausted,
        RunEvent::FileDone,
        RunEvent::FileFailed,
        RunEvent::FileDone,
    ];
    assert_eq!(
        run(&events),
        vec![
            RunAction::NextEntry,
            RunAction::NextEntry,
            RunAction::NextEntry,
            RunAction::ProcessFile,
            RunAction::ProcessFile,
            RunAction::ProcessFile,
            RunAction::Finish,
        ]
    );
}

#[test]
fn file_failures_do_not_end_the_run() {
    let state = RunState::Processing { left: 3 };
    assert_eq!(
        next_action(state, &RunEvent::FileFailed),
        (RunState::Processing { left: 2 }, RunAction::ProcessFile)
    );
    assert_eq!(
        next_action(state, &RunEvent::FileDone),
        (RunState::Processing { left: 2 }, RunAction::ProcessFile)
    );
    let state = RunState::Processing { left: 1 };
    assert_eq!(next_action(state, &RunEvent::FileFailed), (RunState::Ended, RunAction::Finish));
    assert_eq!(next_action(state, &RunEvent::FileDone), (RunState::Ended, RunAction::Finish));
}

#[test]
fn run_without_files_is_done_when_discovery_is() {
    assert_eq!(run(&[RunEvent::Exhausted]), vec![RunAction::Finish]);
}

#[test]
fn found_files_are_counted() {
    let state = RunState::Discovering { found: 4 };
    assert_eq!(
        next_action(state, &RunEvent::FileFound),
        (RunState::Discovering { found: 5 }, RunAction::NextEntry)
    );
    assert_eq!(
        next_action(state, &RunEvent::Exhausted),
        (RunState::Processing { left: 4 }, RunAction::ProcessFile)
    );
    let state = RunState::Discovering { found: usize::MAX };
    assert_eq!(next_action(state, &RunEvent::FileFound), (RunState::Ended, RunAction::Abort));
}

#[test]
fn events_out_of_place_end_the_run() {
    let discovering = RunState::Discovering { found: 2 };
    let processing = RunState::Processing { left: 2 };
    let ended = (RunState::Ended, RunAction::Abort);
    assert_eq!(next_action(discovering, &RunEvent::FileDone), ended);
    assert_eq!(next_action(discovering, &RunEvent::FileFailed), ended);
    assert_eq!(next_action(processing, &RunEvent::FileFound), ended);
    assert_eq!(next_action(processing, &RunEvent::Exhausted), ended);
    assert_eq!(next_action(processing, &RunEvent::EntryFailed), ended);
    assert_eq!(next_action(processing, &RunEvent::PatternRejected), ended);
    assert_eq!(next_action(RunState::Ended, &RunEvent::FileFound), ended);
    assert_eq!(next_action(RunState::Ended, &RunEvent::Exhausted), ended);
}
