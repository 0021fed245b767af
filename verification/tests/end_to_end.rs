use jack_do::{parse_source, process_file, FileOutcome, NodeKind, ParseResult};

fn run(file_name: &str, source: &str) -> String {
    match process_file(source, file_name) {
        FileOutcome::Rewritten { text, .. } => text,
        FileOutcome::Unchanged => source.to_string(),
        other => panic!("unexpected outcome: {:?}", other),
    }
}

#[test]
fn parsed_binding_without_use_is_removed() {
    let source = "let a = 1, b = 2;\nconsole.log(b);\n";
    assert_eq!(run("x.ts", source), "let b = 2;\nconsole.log(b);\n");
}

#[test]
fn parsed_last_binding_without_use_is_removed() {
    let source = "let a = 1, b = 2;\nconsole.log(a);\n";
    assert_eq!(run("x.ts", source), "let a = 1;\nconsole.log(a);\n");
}

#[test]
fn parsed_statement_without_use_is_removed() {
    let source = "console.log(0);\nlet a = 1, b = 2;\nconsole.log(1);\n";
    assert_eq!(run("x.ts", source), "console.log(0);\nconsole.log(1);\n");
}

#[test]
fn parsed_file_without_unused_names_stays() {
    let source = "let a = 1, b = 2;\nconsole.log(a, b);\n";
    assert!(matches!(process_file(source, "x.ts"), FileOutcome::Unchanged));
}

#[test]
fn parsed_import_keeps_the_used_specifier() {
    let source = "import { a, b, c } from \"x\";\nconsole.log(a);\n";
    assert_eq!(run("x.ts", source), "import { a } from \"x\";\nconsole.log(a);\n");
    let source = "import { a, b, c } from \"x\";\nconsole.log(b);\n";
    assert_eq!(run("x.ts", source), "import { b } from \"x\";\nconsole.log(b);\n");
    let source = "import { a, b, c } from \"x\";\nconsole.log(c);\n";
    assert_eq!(run("x.ts", source), "import { c } from \"x\";\nconsole.log(c);\n");
}

#[test]
fn parsed_trailing_bindings_without_use_are_removed() {
    let source = "let a = 1, b = 2, c = 3;\nconsole.log(a);\n";
    assert_eq!(run("x.ts", source), "let a = 1;\nconsole.log(a);\n");
}

#[test]
fn parsed_import_without_use_is_removed() {
    let source = "import { a, b, c } from \"x\";\nimport d, * as e from \"y\";\nconsole.log(1);\n";
    assert_eq!(run("x.ts", source), "console.log(1);\n");
}

#[test]
fn parsed_import_for_its_effect_alone_stays() {
    let source = "import \"x\";\nconsole.log(1);\n";
    assert!(matches!(process_file(source, "x.ts"), FileOutcome::Unchanged));
}

#[test]
fn parsed_export_is_kept() {
    let source = "export const a = 1;\nconst b = 2;\nexport default function f() {}\n";
    assert_eq!(run("x.ts", source), "export const a = 1;\nexport default function f() {}\n");
}

#[test]
fn parsed_destructuring_without_use_is_removed() {
    let source = "const o = { a: 1, b: [2, 3] };\nconst { a, b: [, c] } = o;\nconsole.log(1);\n";
    assert_eq!(run("x.ts", source), "const o = { a: 1, b: [2, 3] };\nconsole.log(1);\n");
}

#[test]
fn parsed_destructuring_with_a_default_is_cut_at_the_declarator() {
    let source = "const o = {};\nconst { a = 1 } = o;\n";
    assert_eq!(run("x.ts", source), "const o = {};\nconst ;\n");
}

#[test]
fn parsed_destructuring_with_one_unused_name_is_cut_at_the_declarator() {
    let source = "const o = { a: 1, b: 2 };\nconst { a, b } = o;\nconsole.log(b);\n";
    assert_eq!(run("x.ts", source), "const o = { a: 1, b: 2 };\nconst ;\nconsole.log(b);\n");
}

#[test]
fn parsed_indented_statement_goes_with_its_line() {
    let source = "function f() {\n    const x = 1;\n    return 2;\n}\nconsole.log(f());\n";
    assert_eq!(run("x.ts", source), "function f() {\n    return 2;\n}\nconsole.log(f());\n");
}

#[test]
fn parsed_name_below_an_export_is_kept() {
    let source = "export function f() {\n    const x = 1;\n    return 2;\n}\n";
    assert!(matches!(process_file(source, "x.ts"), FileOutcome::Unchanged));
}

#[test]
fn parsed_typed_binding_is_removed() {
    let source = "const n: number = 1;\nexport const m: number = 2;\n";
    assert_eq!(run("x.ts", source), "export const m: number = 2;\n");
}

#[test]
fn parsed_unused_function_is_removed() {
    let source = "function f() {\n  return 1;\n}\nconsole.log(1);\n";
    assert_eq!(run("x.ts", source), "console.log(1);\n");
}

#[test]
fn parsed_unused_name_inside_an_unused_function_is_a_conflict() {
    let source = "function f() {\n  const x = 1;\n}\nconsole.log(1);\n";
    assert!(matches!(process_file(source, "x.ts"), FileOutcome::Conflict));
}

#[test]
fn parsed_text_of_several_bytes_a_character_is_kept() {
    let source = "const a = \"é\", b = \"ü\", c = \"ß\";\nconsole.log(a, c);\n";
    assert_eq!(run("x.ts", source), "const a = \"é\", c = \"ß\";\nconsole.log(a, c);\n");
}

#[test]
fn text_that_does_not_parse_is_reported() {
    let source = "let = ;\n";
    match process_file(source, "x.ts") {
        FileOutcome::ParseFailed { diagnostics } => assert!(!diagnostics.is_empty()),
        other => panic!("unexpected outcome: {:?}", other),
    }
}

#[test]
fn second_pass_may_find_what_the_first_set_free() {
    let source = "const a = 1;\nconst b = a;\nconsole.log(1);\n";
    let once = run("x.ts", source);
    assert_eq!(once, "const a = 1;\nconsole.log(1);\n");
    let twice = run("x.ts", &once);
    assert_eq!(twice, "console.log(1);\n");
    assert_eq!(run("x.ts", &twice), twice);
}

#[test]
fn parsed_tree_lists_parents_first_and_symbols_at_their_declarators() {
    let source = "let a = 1, b = 2;\nconsole.log(b);\n";
    let tree = match parse_source(source, "x.ts") {
        ParseResult::Parsed { tree } => tree,
        other => panic!("unexpected result: {:?}", other),
    };
    assert!(tree.node_count() > 4);
    assert_eq!(tree.node(0).unwrap().parent, None);
    assert_eq!(tree.node(0).unwrap().span.start, 0);
    assert_eq!(tree.node(0).unwrap().span.end, source.len());
    for id in 1..tree.node_count() {
        assert!(tree.node(id).unwrap().parent.unwrap() < id);
    }
    assert_eq!(tree.symbol_count(), 2);
    let a = tree.symbol(0).unwrap();
    let b = tree.symbol(1).unwrap();
    assert_eq!((a.name.as_str(), a.references.len()), ("a", 0));
    assert_eq!((b.name.as_str(), b.references.len()), ("b", 1));
    let declarator = tree.node(a.declaration).unwrap();
    assert!(matches!(declarator.kind, NodeKind::VariableDeclarator));
    assert_eq!(&source[declarator.span.start..declarator.span.end], "a = 1");
    let statement = tree.node(declarator.parent.unwrap()).unwrap();
    match &statement.kind {
        NodeKind::VariableDeclaration { declarations } => assert_eq!(declarations.len(), 2),
        other => panic!("unexpected kind: {:?}", other),
    }
    assert_eq!(&source[statement.span.start..statement.span.end], "let a = 1, b = 2;");
}

#[test]
fn language_is_told_by_the_name_of_the_file() {
    let source = "const n: number = 1;\nconsole.log(n);\n";
    assert!(matches!(parse_source(source, "x.ts"), ParseResult::Parsed { .. }));
    assert!(matches!(parse_source(source, "x.js"), ParseResult::Failed { .. }));
}

#[test]
fn parsed_patterns_and_specifiers_are_read_in_order() {
    let source = "import d, { e } from \"x\";\nconst { a, b: [, c, ...g], f = 1, ...h } = d(e);\n";
    let tree = match parse_source(source, "x.ts") {
        ParseResult::Parsed { tree } => tree,
        other => panic!("unexpected result: {:?}", other),
    };
    let names: Vec<String> =
        (0..tree.symbol_count()).map(|id| tree.symbol(id).unwrap().name.clone()).collect();
    let position = |name: &str| names.iter().position(|known| known == name);
    let mut statements = 0;
    let mut imports = 0;
    for id in 0..tree.node_count() {
        match &tree.node(id).unwrap().kind {
            NodeKind::VariableDeclaration { declarations } => {
                statements += 1;
                assert_eq!(
                    format!("{:?}", declarations),
                    format!(
                        "[Object([Identifier({:?}), Array([None, Some(Identifier({:?})), \
                         Some(Identifier({:?}))]), Other, Identifier({:?})])]",
                        position("a"),
                        position("c"),
                        position("g"),
                        position("h"),
                    )
                );
            }
            NodeKind::ImportDeclaration { specifiers } => {
                imports += 1;
                assert_eq!(specifiers, &Some(vec![position("d"), position("e")]));
            }
            _ => {}
        }
    }
    assert_eq!((statements, imports), (1, 1));
    assert!(position("a").is_some() && position("c").is_some() && position("d").is_some());
    assert!(position("g").is_some() && position("h").is_some());
}

#[test]
fn parsed_rest_binding_in_use_keeps_the_statement() {
    let source = "const o = { a: 1 };\nconst { a, ...r } = o;\nconsole.log(r);\n";
    assert_eq!(run("x.ts", source), "const o = { a: 1 };\nconst ;\nconsole.log(r);\n");
    let source = "const o = [1, 2];\nconst [x, ...ys] = o, z = 1;\nconsole.log(ys);\n";
    assert_eq!(run("x.ts", source), "const o = [1, 2];\nconst ;\nconsole.log(ys);\n");
}

#[test]
fn parsed_rest_binding_without_use_goes_with_the_statement() {
    let source = "const o = { a: 1 };\nconst { a, ...r } = o;\nconsole.log(1);\n";
    assert_eq!(run("x.ts", source), "const o = { a: 1 };\nconsole.log(1);\n");
    let source = "const o = [1, 2];\nconst [, ...ys] = o;\nconsole.log(1);\n";
    assert_eq!(run("x.ts", source), "const o = [1, 2];\nconsole.log(1);\n");
}
