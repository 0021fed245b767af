//! Which node has to go for an unused symbol.

use vstd::prelude::*;
use crate::classifier::symbol_is_unused;
use crate::span::Span;
use crate::syntax::{is_parent_of, NodeKind, Pattern, SyntaxTree};

verus! {

/// Whether an import statement that has no specifier list counts as one
/// whose specifiers are all unused. It does: such a statement goes whole.
pub const IMPORT_WITHOUT_SPECIFIERS_IS_UNUSED: bool = true;

/// Whether a pattern of a shape other than name, object and array counts as
/// one that binds unused symbols only. It does not: its declaration is kept
/// rather than cut too far.
pub const UNRECOGNIZED_PATTERN_IS_UNUSED: bool = false;

/// True where every leaf of `pattern` binds an unused symbol; the name of a
/// rest binding is a leaf like any other. An elided slot of an array pattern
/// binds nothing and stands in the way of nothing; a name without a symbol,
/// or a shape other than name, object and array, counts as used.
pub open spec fn pattern_entirely_unused(tree: SyntaxTree, pattern: Pattern) -> bool
    decreases pattern,
{
    match pattern {
        Pattern::Identifier(symbol) => symbol matches Some(s) && symbol_is_unused(
            tree,
            s as int,
        ),
        Pattern::Object(properties) => forall|i: int|
            0 <= i < properties.len() ==> pattern_entirely_unused(tree, #[trigger] properties[i]),
        Pattern::Array(elements) => forall|i: int|
            0 <= i < elements.len() ==> ((#[trigger] elements[i]) matches Some(element)
                ==> pattern_entirely_unused(tree, element)),
        Pattern::Other => UNRECOGNIZED_PATTERN_IS_UNUSED,
    }
}

/// True where `node` is a variable declaration statement in which every
/// declarator binds unused symbols only.
pub open spec fn declaration_entirely_unused(tree: SyntaxTree, node: int) -> bool {
    &&& 0 <= node < tree.nodes().len()
    &&& tree.nodes()[node].kind matches NodeKind::VariableDeclaration { declarations }
    &&& forall|i: int|
        0 <= i < declarations.len() ==> pattern_entirely_unused(tree, #[trigger] declarations[i])
}

/// True where `node` is an import statement whose every specifier binds an
/// unused symbol. A statement without a specifier list is one.
pub open spec fn import_entirely_unused(tree: SyntaxTree, node: int) -> bool {
    &&& 0 <= node < tree.nodes().len()
    &&& tree.nodes()[node].kind matches NodeKind::ImportDeclaration { specifiers }
    &&& match specifiers {
        Some(list) => forall|i: int|
            0 <= i < list.len() ==> ((#[trigger] list[i]) matches Some(s) && symbol_is_unused(
                tree,
                s as int,
            )),
        None => IMPORT_WITHOUT_SPECIFIERS_IS_UNUSED,
    }
}

/// The node whose removal deletes the declaration of `symbol` and nothing
/// else.
///
/// For a declarator it is the statement around it where nothing in that
/// statement is used, else the declarator. For an import specifier it is
/// the import statement where none of its specifiers is used, else the
/// specifier. For every other declaration it is the declaring node itself.
pub open spec fn removal_node(tree: SyntaxTree, symbol: int) -> int {
    let declaration = tree.symbols()[symbol].declaration as int;
    let node = tree.nodes()[declaration];
    if node.kind is VariableDeclarator {
        match node.parent {
            Some(p) if declaration_entirely_unused(tree, p as int) => p as int,
            _ => declaration,
        }
    } else if node.kind.is_import_specifier() {
        match node.parent {
            Some(p) if import_entirely_unused(tree, p as int) => p as int,
            _ => declaration,
        }
    } else {
        declaration
    }
}

/// True where `symbol` is unused and `span` is the range of the node that
/// has to go for it.
pub open spec fn removes(tree: SyntaxTree, symbol: int, span: Span) -> bool {
    symbol_is_unused(tree, symbol) && tree.nodes()[removal_node(tree, symbol)].span
        == span
}

/// The byte ranges that have to go: for each unused symbol the range of the
/// node that it resolves to.
pub open spec fn removal_spans(tree: SyntaxTree) -> Set<Span> {
    Set::new(|span: Span| exists|symbol: int| #[trigger] removes(tree, symbol, span))
}

/// An unused symbol that a declarator of a statement declares takes the
/// whole statement with it where every declarator of the statement binds
/// unused symbols only, and its own declarator alone where one of them binds
/// anything else.
pub proof fn lemma_statement_goes_whole_or_by_declarator(
    tree: SyntaxTree,
    symbol: int,
    statement: int,
)
    requires
        tree.well_formed(),
        symbol_is_unused(tree, symbol),
        tree.nodes()[tree.symbols()[symbol].declaration as int].kind is VariableDeclarator,
        is_parent_of(
            tree.nodes(),
            statement,
            tree.symbols()[symbol].declaration as int,
        ),
        tree.nodes()[statement].kind is VariableDeclaration,
    ensures
        ({
            let declarations = tree.nodes()[statement].kind->declarations;
            let declarator = tree.symbols()[symbol].declaration as int;
            &&& (forall|i: int|
                0 <= i < declarations.len() ==> pattern_entirely_unused(
                    tree,
                    #[trigger] declarations[i],
                )) ==> removal_node(tree, symbol) == statement
            &&& (exists|i: int|
                0 <= i < declarations.len() && !pattern_entirely_unused(
                    tree,
                    #[trigger] declarations[i],
                )) ==> removal_node(tree, symbol) == declarator
        }),
{
}

/// True where some leaf of `pattern` binds a symbol that is not unused. A
/// name without a symbol, or a shape other than name, object and array,
/// counts as such a leaf.
pub open spec fn pattern_has_used_leaf(tree: SyntaxTree, pattern: Pattern) -> bool
    decreases pattern,
{
    match pattern {
        Pattern::Identifier(symbol) => !(symbol matches Some(s) && symbol_is_unused(
            tree,
            s as int,
        )),
        Pattern::Object(properties) => exists|i: int|
            0 <= i < properties.len() && pattern_has_used_leaf(tree, #[trigger] properties[i]),
        Pattern::Array(elements) => exists|i: int|
            0 <= i < elements.len() && ((#[trigger] elements[i]) matches Some(element)
                && pattern_has_used_leaf(tree, element)),
        Pattern::Other => true,
    }
}

/// A pattern binds unused symbols only exactly where none of its leaves is
/// used.
pub proof fn lemma_entirely_unused_means_no_used_leaf(tree: SyntaxTree, pattern: Pattern)
    ensures
        pattern_entirely_unused(tree, pattern) <==> !pattern_has_used_leaf(tree, pattern),
    decreases pattern,
{
    match pattern {
        Pattern::Identifier(_) => {},
        Pattern::Object(properties) => {
            assert forall|i: int| 0 <= i < properties.len() implies (pattern_entirely_unused(
                tree,
                #[trigger] properties[i],
            ) <==> !pattern_has_used_leaf(tree, properties[i])) by {
                assert(decreases_to!(pattern => pattern->Object_0[i]));
                lemma_entirely_unused_means_no_used_leaf(tree, properties[i]);
            }
        },
        Pattern::Array(elements) => {
            assert forall|i: int|
                0 <= i < elements.len() && (#[trigger] elements[i]) is Some implies (
            pattern_entirely_unused(tree, elements[i]->Some_0) <==> !pattern_has_used_leaf(
                tree,
                elements[i]->Some_0,
            )) by {
                assert(decreases_to!(pattern => pattern->Array_0[i]->Some_0));
                lemma_entirely_unused_means_no_used_leaf(tree, elements[i]->Some_0);
            }
        },
        Pattern::Other => {},
    }
}

/// Where every leaf of the one pattern of a statement is unused, each symbol
/// that its declarator declares takes the whole statement with it.
pub proof fn lemma_unused_destructuring_goes_whole(tree: SyntaxTree, symbol: int, statement: int)
    requires
        tree.well_formed(),
        symbol_is_unused(tree, symbol),
        tree.nodes()[tree.symbols()[symbol].declaration as int].kind is VariableDeclarator,
        is_parent_of(
            tree.nodes(),
            statement,
            tree.symbols()[symbol].declaration as int,
        ),
        tree.nodes()[statement].kind is VariableDeclaration,
        tree.nodes()[statement].kind->declarations.len() == 1,
        !pattern_has_used_leaf(tree, tree.nodes()[statement].kind->declarations[0]),
    ensures
        removal_node(tree, symbol) == statement,
{
    lemma_entirely_unused_means_no_used_leaf(
        tree,
        tree.nodes()[statement].kind->declarations[0],
    );
}

/// A declarator whose pattern has a used leaf stays as it is, and so does
/// its statement, as long as no unused symbol is declared at either of them.
pub proof fn lemma_used_destructuring_is_kept(
    tree: SyntaxTree,
    declarator: int,
    statement: int,
    index: int,
)
    requires
        tree.well_formed(),
        0 <= declarator < tree.nodes().len(),
        tree.nodes()[declarator].kind is VariableDeclarator,
        is_parent_of(tree.nodes(), statement, declarator),
        tree.nodes()[statement].kind is VariableDeclaration,
        0 <= index < tree.nodes()[statement].kind->declarations.len(),
        pattern_has_used_leaf(tree, tree.nodes()[statement].kind->declarations[index]),
        forall|symbol: int|
            symbol_is_unused(tree, symbol) ==> (#[trigger] tree.symbols()[symbol]).declaration
                != declarator && tree.symbols()[symbol].declaration != statement,
    ensures
        forall|symbol: int|
            symbol_is_unused(tree, symbol) ==> #[trigger] removal_node(tree, symbol)
                != declarator && removal_node(tree, symbol) != statement,
{
    lemma_entirely_unused_means_no_used_leaf(
        tree,
        tree.nodes()[statement].kind->declarations[index],
    );
    assert forall|symbol: int| symbol_is_unused(tree, symbol) implies #[trigger] removal_node(
        tree,
        symbol,
    ) != declarator && removal_node(tree, symbol) != statement by {
        let declaration = tree.symbols()[symbol].declaration as int;
        assert(tree.symbols()[symbol].declaration != declarator);
        assert(!declaration_entirely_unused(tree, statement));
    }
}

/// An unused symbol that a specifier of an import statement declares takes
/// the whole statement with it where every specifier of the statement binds
/// an unused symbol, or the statement has no specifier list; and its own
/// specifier alone where one of them binds anything else.
pub proof fn lemma_import_goes_whole_or_by_specifier(
    tree: SyntaxTree,
    symbol: int,
    statement: int,
)
    requires
        tree.well_formed(),
        symbol_is_unused(tree, symbol),
        tree.nodes()[tree.symbols()[symbol].declaration as int].kind.is_import_specifier(),
        is_parent_of(
            tree.nodes(),
            statement,
            tree.symbols()[symbol].declaration as int,
        ),
        tree.nodes()[statement].kind is ImportDeclaration,
    ensures
        ({
            let specifiers = tree.nodes()[statement].kind->specifiers;
            let specifier = tree.symbols()[symbol].declaration as int;
            &&& specifiers is None ==> removal_node(tree, symbol) == statement
            &&& (specifiers matches Some(list) && forall|i: int|
                0 <= i < list.len() ==> ((#[trigger] list[i]) matches Some(s) && symbol_is_unused(
                    tree,
                    s as int,
                ))) ==> removal_node(tree, symbol) == statement
            &&& (specifiers matches Some(list) && exists|i: int|
                0 <= i < list.len() && !((#[trigger] list[i]) matches Some(s) && symbol_is_unused(
                    tree,
                    s as int,
                ))) ==> removal_node(tree, symbol) == specifier
        }),
{
}

/// A specifier that binds a symbol in use stays as it is, and so does its
/// import statement, as long as no unused symbol is declared at either of
/// them.
pub proof fn lemma_import_in_use_is_kept(
    tree: SyntaxTree,
    specifier: int,
    statement: int,
    index: int,
)
    requires
        tree.well_formed(),
        0 <= specifier < tree.nodes().len(),
        tree.nodes()[specifier].kind.is_import_specifier(),
        is_parent_of(tree.nodes(), statement, specifier),
        tree.nodes()[statement].kind matches NodeKind::ImportDeclaration { specifiers: Some(list) }
            && 0 <= index < list.len() && !(list[index] matches Some(s) && symbol_is_unused(
            tree,
            s as int,
        )),
        forall|symbol: int|
            symbol_is_unused(tree, symbol) ==> (#[trigger] tree.symbols()[symbol]).declaration
                != specifier && tree.symbols()[symbol].declaration != statement,
    ensures
        forall|symbol: int|
            symbol_is_unused(tree, symbol) ==> #[trigger] removal_node(tree, symbol) != specifier
                && removal_node(tree, symbol) != statement,
{
    assert(!import_entirely_unused(tree, statement)) by {
        let list = tree.nodes()[statement].kind->specifiers->Some_0;
        assert(!(list[index] matches Some(s) && symbol_is_unused(tree, s as int)));
    }
    assert forall|symbol: int| symbol_is_unused(tree, symbol) implies #[trigger] removal_node(
        tree,
        symbol,
    ) != specifier && removal_node(tree, symbol) != statement by {
        assert(tree.symbols()[symbol].declaration != specifier);
        assert(!declaration_entirely_unused(tree, statement));
    }
}

} // verus!
