use jack_do::{merge_spans, NodeKind, Pattern, SyntaxTree, Span, UnusedDeclarationAnalyzer};

fn node(tree: &mut SyntaxTree, kind: NodeKind, span: (usize, usize), parent: Option<usize>) -> usize {
    tree.add_node(kind, Span::new(span.0, span.1), parent).unwrap()
}

fn symbol(tree: &mut SyntaxTree, name: &str, declaration: usize, references: Vec<usize>) -> usize {
    tree.add_symbol(name.to_string(), declaration, references).unwrap()
}

fn removed(tree: &SyntaxTree) -> Vec<(usize, usize)> {
    let analyzer = UnusedDeclarationAnalyzer::new(tree);
    analyzer.find_unused_spans().iter().map(|span| (span.start, span.end)).collect()
}

#[test]
fn empty_tree_holds_nothing() {
    let tree = SyntaxTree::new();
    assert_eq!(tree.node_count(), 0);
    assert_eq!(tree.symbol_count(), 0);
    assert!(tree.node(0).is_none());
    assert!(tree.symbol(0).is_none());
    assert_eq!(removed(&tree), vec![]);
}

#[test]
fn node_with_unknown_parent_is_not_added() {
    let mut tree = SyntaxTree::new();
    assert_eq!(tree.add_node(NodeKind::Other, Span::new(0, 1), Some(0)), None);
    assert_eq!(tree.add_node(NodeKind::Other, Span::new(0, 1), None), Some(0));
    assert_eq!(tree.add_node(NodeKind::Other, Span::new(0, 1), Some(1)), None);
    assert_eq!(tree.add_node(NodeKind::Other, Span::new(0, 1), Some(0)), Some(1));
    assert_eq!(tree.node_count(), 2);
    assert_eq!(tree.node(1).unwrap().parent, Some(0));
    assert_eq!(tree.node(1).unwrap().span, Span::new(0, 1));
}

#[test]
fn symbol_with_unknown_declaration_is_not_added() {
    let mut tree = SyntaxTree::new();
    assert_eq!(tree.add_symbol("a".to_string(), 0, vec![]), None);
    let root = node(&mut tree, NodeKind::Other, (0, 1), None);
    assert_eq!(tree.add_symbol("a".to_string(), root, vec![]), Some(0));
    assert_eq!(tree.add_symbol("b".to_string(), 1, vec![]), None);
    assert_eq!(tree.symbol_count(), 1);
    assert_eq!(tree.symbol(0).unwrap().name, "a");
    assert_eq!(tree.symbol(0).unwrap().declaration, 0);
}

#[test]
fn symbol_without_references_is_unused() {
    let mut tree = SyntaxTree::new();
    let root = node(&mut tree, NodeKind::Other, (0, 20), None);
    let function = node(&mut tree, NodeKind::Other, (0, 10), Some(root));
    let used = symbol(&mut tree, "used", function, vec![root]);
    let unused = symbol(&mut tree, "unused", function, vec![]);
    let analyzer = UnusedDeclarationAnalyzer::new(&tree);
    assert!(!analyzer.is_unused(used));
    assert!(analyzer.is_unused(unused));
    assert!(!analyzer.is_unused(2));
}

#[test]
fn reserved_names_are_never_unused() {
    let mut tree = SyntaxTree::new();
    let root = node(&mut tree, NodeKind::Other, (0, 20), None);
    let arguments = symbol(&mut tree, "arguments", root, vec![]);
    let this = symbol(&mut tree, "this", root, vec![]);
    let argument = symbol(&mut tree, "argument", root, vec![]);
    let this_one = symbol(&mut tree, "this_", root, vec![]);
    let upper = symbol(&mut tree, "This", root, vec![]);
    let empty = symbol(&mut tree, "", root, vec![]);
    let analyzer = UnusedDeclarationAnalyzer::new(&tree);
    assert!(!analyzer.is_unused(arguments));
    assert!(!analyzer.is_unused(this));
    assert!(analyzer.is_unused(argument));
    assert!(analyzer.is_unused(this_one));
    assert!(analyzer.is_unused(upper));
    assert!(analyzer.is_unused(empty));
}

#[test]
fn symbol_below_an_export_is_never_unused() {
    let mut tree = SyntaxTree::new();
    let root = node(&mut tree, NodeKind::Other, (0, 100), None);
    let named = node(&mut tree, NodeKind::ExportNamedDeclaration, (0, 20), Some(root));
    let statement = node(
        &mut tree,
        NodeKind::VariableDeclaration { declarations: vec![Pattern::Identifier(Some(0))] },
        (7, 20),
        Some(named),
    );
    let declarator = node(&mut tree, NodeKind::VariableDeclarator, (13, 19), Some(statement));
    let default = node(&mut tree, NodeKind::ExportDefaultDeclaration, (21, 40), Some(root));
    let function = node(&mut tree, NodeKind::Other, (36, 40), Some(default));
    let all = node(&mut tree, NodeKind::ExportAllDeclaration, (41, 60), Some(root));
    let plain = node(&mut tree, NodeKind::Other, (61, 80), Some(root));
    let a = symbol(&mut tree, "a", declarator, vec![]);
    let f = symbol(&mut tree, "f", function, vec![]);
    let at_export = symbol(&mut tree, "g", all, vec![]);
    let p = symbol(&mut tree, "p", plain, vec![]);
    let analyzer = UnusedDeclarationAnalyzer::new(&tree);
    assert!(!analyzer.is_unused(a));
    assert!(!analyzer.is_unused(f));
    assert!(!analyzer.is_unused(at_export));
    assert!(analyzer.is_unused(p));
    assert_eq!(removed(&tree), vec![(61, 80)]);
}

fn two_declarators(first_used: bool, second_used: bool) -> SyntaxTree {
    // let a = 1, b = 2;
    let mut tree = SyntaxTree::new();
    let root = node(&mut tree, NodeKind::Other, (0, 18), None);
    let statement = node(
        &mut tree,
        NodeKind::VariableDeclaration {
            declarations: vec![Pattern::Identifier(Some(0)), Pattern::Identifier(Some(1))],
        },
        (0, 17),
        Some(root),
    );
    let first = node(&mut tree, NodeKind::VariableDeclarator, (4, 9), Some(statement));
    let second = node(&mut tree, NodeKind::VariableDeclarator, (11, 16), Some(statement));
    symbol(&mut tree, "a", first, if first_used { vec![root] } else { vec![] });
    symbol(&mut tree, "b", second, if second_used { vec![root] } else { vec![] });
    tree
}

#[test]
fn one_unused_binding_takes_its_declarator() {
    assert_eq!(removed(&two_declarators(false, true)), vec![(4, 9)]);
    assert_eq!(removed(&two_declarators(true, false)), vec![(11, 16)]);
}

#[test]
fn all_bindings_unused_take_the_statement_once() {
    assert_eq!(removed(&two_declarators(false, false)), vec![(0, 17)]);
}

#[test]
fn used_bindings_take_nothing() {
    assert_eq!(removed(&two_declarators(true, true)), vec![]);
}

fn destructuring(pattern: Pattern, names: &[(&str, bool)]) -> SyntaxTree {
    // const <pattern> = value;
    let mut tree = SyntaxTree::new();
    let root = node(&mut tree, NodeKind::Other, (0, 40), None);
    let statement = node(
        &mut tree,
        NodeKind::VariableDeclaration { declarations: vec![pattern] },
        (0, 30),
        Some(root),
    );
    let declarator = node(&mut tree, NodeKind::VariableDeclarator, (6, 29), Some(statement));
    for (name, used) in names {
        symbol(&mut tree, name, declarator, if *used { vec![root] } else { vec![] });
    }
    tree
}

#[test]
fn object_pattern_with_unused_leaves_takes_the_statement() {
    let pattern = Pattern::Object(vec![
        Pattern::Identifier(Some(0)),
        Pattern::Object(vec![Pattern::Identifier(Some(1))]),
    ]);
    let tree = destructuring(pattern, &[("a", false), ("b", false)]);
    assert_eq!(removed(&tree), vec![(0, 30)]);
}

#[test]
fn array_pattern_with_unused_leaves_and_holes_takes_the_statement() {
    let pattern = Pattern::Array(vec![
        Some(Pattern::Identifier(Some(0))),
        None,
        Some(Pattern::Array(vec![None, Some(Pattern::Identifier(Some(1)))])),
    ]);
    let tree = destructuring(pattern, &[("a", false), ("b", false)]);
    assert_eq!(removed(&tree), vec![(0, 30)]);
}

#[test]
fn empty_patterns_take_the_statement() {
    let tree = destructuring(Pattern::Object(vec![]), &[("a", false)]);
    assert_eq!(removed(&tree), vec![(0, 30)]);
    let tree = destructuring(Pattern::Array(vec![None]), &[("a", false)]);
    assert_eq!(removed(&tree), vec![(0, 30)]);
}

#[test]
fn pattern_with_a_used_leaf_keeps_the_statement() {
    let pattern = Pattern::Object(vec![Pattern::Identifier(Some(0)), Pattern::Identifier(Some(1))]);
    let tree = destructuring(pattern, &[("a", true), ("b", true)]);
    assert_eq!(removed(&tree), vec![]);
}

#[test]
fn unused_leaf_beside_a_used_one_takes_the_declarator() {
    let pattern = Pattern::Object(vec![Pattern::Identifier(Some(0)), Pattern::Identifier(Some(1))]);
    let tree = destructuring(pattern, &[("a", false), ("b", true)]);
    assert_eq!(removed(&tree), vec![(6, 29)]);
}

#[test]
fn pattern_of_another_shape_counts_as_used() {
    let pattern = Pattern::Object(vec![Pattern::Identifier(Some(0)), Pattern::Other]);
    let tree = destructuring(pattern, &[("a", false)]);
    assert_eq!(removed(&tree), vec![(6, 29)]);
}

#[test]
fn name_without_symbol_counts_as_used() {
    let pattern = Pattern::Array(vec![Some(Pattern::Identifier(None))]);
    let tree = destructuring(pattern, &[("a", false)]);
    assert_eq!(removed(&tree), vec![(6, 29)]);
    let pattern = Pattern::Identifier(Some(7));
    let tree = destructuring(pattern, &[("a", false)]);
    assert_eq!(removed(&tree), vec![(6, 29)]);
}

#[test]
fn declarator_without_statement_above_takes_itself() {
    let mut tree = SyntaxTree::new();
    let root = node(&mut tree, NodeKind::Other, (0, 40), None);
    let lone = node(&mut tree, NodeKind::VariableDeclarator, (1, 5), None);
    let odd = node(&mut tree, NodeKind::VariableDeclarator, (6, 9), Some(root));
    symbol(&mut tree, "a", lone, vec![]);
    symbol(&mut tree, "b", odd, vec![]);
    assert_eq!(removed(&tree), vec![(6, 9), (1, 5)]);
}

fn import(specifiers: Option<Vec<Option<usize>>>, used: &[bool]) -> SyntaxTree {
    // import d, { a, b } from "x";
    let mut tree = SyntaxTree::new();
    let root = node(&mut tree, NodeKind::Other, (0, 40), None);
    let statement =
        node(&mut tree, NodeKind::ImportDeclaration { specifiers }, (0, 29), Some(root));
    let kinds = [
        (NodeKind::ImportDefaultSpecifier, (7, 8)),
        (NodeKind::ImportSpecifier, (12, 13)),
        (NodeKind::ImportNamespaceSpecifier, (15, 16)),
    ];
    for (at, (kind, span)) in kinds.into_iter().enumerate() {
        if at < used.len() {
            let specifier = node(&mut tree, kind, span, Some(statement));
            symbol(&mut tree, "s", specifier, if used[at] { vec![root] } else { vec![] });
        }
    }
    tree
}

#[test]
fn import_with_unused_specifiers_goes_whole() {
    let tree = import(Some(vec![Some(0), Some(1), Some(2)]), &[false, false, false]);
    assert_eq!(removed(&tree), vec![(0, 29)]);
}

#[test]
fn import_with_a_used_specifier_loses_the_others() {
    let tree = import(Some(vec![Some(0), Some(1), Some(2)]), &[false, true, false]);
    assert_eq!(removed(&tree), vec![(15, 16), (7, 8)]);
    let tree = import(Some(vec![Some(0), Some(1), Some(2)]), &[true, false, true]);
    assert_eq!(removed(&tree), vec![(12, 13)]);
}

#[test]
fn import_without_specifier_list_goes_whole() {
    let tree = import(None, &[false]);
    assert_eq!(removed(&tree), vec![(0, 29)]);
}

#[test]
fn specifier_without_symbol_keeps_the_import() {
    let tree = import(Some(vec![Some(0), None]), &[false]);
    assert_eq!(removed(&tree), vec![(7, 8)]);
}

#[test]
fn specifier_outside_an_import_takes_itself() {
    let mut tree = SyntaxTree::new();
    let root = node(&mut tree, NodeKind::Other, (0, 40), None);
    let specifier = node(&mut tree, NodeKind::ImportSpecifier, (3, 4), Some(root));
    symbol(&mut tree, "a", specifier, vec![]);
    assert_eq!(removed(&tree), vec![(3, 4)]);
}

#[test]
fn bindings_outside_declarators_take_themselves() {
    let mut tree = SyntaxTree::new();
    let root = node(&mut tree, NodeKind::Other, (0, 40), None);
    let statement = node(
        &mut tree,
        NodeKind::VariableDeclaration { declarations: vec![] },
        (0, 30),
        Some(root),
    );
    let identifier = node(&mut tree, NodeKind::BindingIdentifier, (12, 13), Some(statement));
    let rest = node(&mut tree, NodeKind::BindingRestElement, (15, 20), Some(statement));
    let other = node(&mut tree, NodeKind::Other, (31, 35), Some(root));
    symbol(&mut tree, "a", identifier, vec![]);
    symbol(&mut tree, "b", rest, vec![]);
    symbol(&mut tree, "c", other, vec![]);
    assert_eq!(removed(&tree), vec![(31, 35), (15, 20), (12, 13)]);
}

#[test]
fn merged_ranges_run_from_the_last_to_the_first() {
    let spans = vec![
        Span::new(5, 8),
        Span::new(1, 2),
        Span::new(5, 8),
        Span::new(5, 9),
        Span::new(0, 3),
        Span::new(1, 2),
    ];
    let merged = merge_spans(&spans);
    assert_eq!(merged, vec![Span::new(5, 9), Span::new(5, 8), Span::new(1, 2), Span::new(0, 3)]);
    assert_eq!(merge_spans(&vec![]), vec![]);
}

#[test]
fn rest_binding_is_a_leaf_like_any_other() {
    // const { a, ...r } = value;
    let pattern = || Pattern::Object(vec![Pattern::Identifier(Some(0)), Pattern::Identifier(Some(1))]);
    let tree = destructuring(pattern(), &[("a", false), ("r", true)]);
    assert_eq!(removed(&tree), vec![(6, 29)]);
    let tree = destructuring(pattern(), &[("a", false), ("r", false)]);
    assert_eq!(removed(&tree), vec![(0, 30)]);
}
