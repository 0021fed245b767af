//! The front end: the parser and its symbol table, read into the records
//! that the analysis works on.
//!
//! Parsing and name resolution are the work of the `oxc` crates. Nothing is
//! claimed here of what they find in a text, but that it depends on what
//! they are given and on nothing else: what each of their functions hands
//! out has a name. What is read from them is stated over those names, and
//! the tree that is built from it is well-formed whatever they hand out.

use vstd::prelude::*;
use oxc_ast::ast::{BindingPattern, BindingPatternKind};
use oxc_ast::AstKind;
use oxc_index::Idx;
use oxc_semantic::SemanticBuilder;
use oxc_span::GetSpan;
use crate::span::Span;
use crate::syntax::{NodeKind, Pattern, SyntaxTree};

verus! {

/// `Allocator` of `oxc_allocator`: the arena in which a syntax tree lives.
#[verifier::external_type_specification]
#[verifier::external_body]
pub struct ExAllocator(oxc_allocator::Allocator);

/// `SourceType` of `oxc_span`: the language of a text.
#[verifier::external_type_specification]
#[verifier::external_body]
pub struct ExSourceType(oxc_span::SourceType);

/// `ParserReturn` of `oxc_parser`: a parsed program and the errors that the
/// parser met.
#[verifier::external_type_specification]
#[verifier::external_body]
pub struct ExParserReturn<'a>(oxc_parser::ParserReturn<'a>);

/// `Semantic` of `oxc_semantic`: the nodes of a program and its symbol
/// table.
#[verifier::external_type_specification]
#[verifier::external_body]
pub struct ExSemantic<'a>(oxc_semantic::Semantic<'a>);

/// `AstKind` of `oxc_ast`: what a node is, with a reference to the part of
/// the syntax tree that it stands for.
#[verifier::external_type_specification]
#[verifier::external_body]
pub struct ExAstKind<'a>(oxc_ast::AstKind<'a>);

/// `BindingPattern` of `oxc_ast`: the left side of a declarator.
#[verifier::external_type_specification]
#[verifier::external_body]
pub struct ExBindingPattern<'a>(oxc_ast::ast::BindingPattern<'a>);

/// What is reported of a file whose nodes and symbols do not fit together.
pub const MISFIT: &'static str = "the nodes and symbols of the text do not fit together";

/// The kinds of node that the analysis tells apart.
pub enum NodeTag {
    VariableDeclarator,
    VariableDeclaration,
    BindingIdentifier,
    BindingRestElement,
    ImportSpecifier,
    ImportDefaultSpecifier,
    ImportNamespaceSpecifier,
    ImportDeclaration,
    ExportNamedDeclaration,
    ExportDefaultDeclaration,
    ExportAllDeclaration,
    Other,
}

/// The shapes of pattern that the analysis tells apart. A name comes with
/// the position of the symbol that it binds, where one was resolved.
pub enum PatternTag {
    Identifier(Option<usize>),
    Object,
    Array,
    Other,
}

/// `Allocator::default` of `oxc_allocator`: an empty arena for the parser to
/// build the tree in. Nothing is claimed of it.
#[verifier::external_body]
fn new_allocator() -> (allocator: oxc_allocator::Allocator) {
    oxc_allocator::Allocator::default()
}

/// The language of the file of the given name.
pub uninterp spec fn language_of(file_name: Seq<char>) -> oxc_span::SourceType;

/// `SourceType::from_path` of `oxc_span`: the language of a file, told by
/// the ending of its name; the default language where the name tells
/// nothing. The contract claims that the language depends on the name alone.
#[verifier::external_body]
fn source_type_of(file_name: &str) -> (source_type: oxc_span::SourceType)
    ensures
        source_type == language_of(file_name@),
{
    oxc_span::SourceType::from_path(file_name).unwrap_or_default()
}

/// What the parser makes of a text in a language, in an arena.
pub uninterp spec fn program_of(
    allocator: oxc_allocator::Allocator,
    source: Seq<char>,
    language: oxc_span::SourceType,
) -> oxc_parser::ParserReturn<'static>;

/// `Parser::new` and `Parser::parse` of `oxc_parser`: the syntax tree of a
/// text, together with the errors that the parser met. The contract claims
/// that they depend on the arena, the text and the language alone.
#[verifier::external_body]
fn parse<'a>(
    allocator: &'a oxc_allocator::Allocator,
    source: &'a str,
    source_type: oxc_span::SourceType,
) -> (parsed: oxc_parser::ParserReturn<'a>)
    ensures
        parsed == program_of(*allocator, source@, source_type),
{
    oxc_parser::Parser::new(allocator, source, source_type).parse()
}

/// The errors that the parser met, written out.
pub uninterp spec fn errors_of(parsed: oxc_parser::ParserReturn) -> Vec<String>;

/// The field `errors` of `ParserReturn` of `oxc_parser`: each error that the
/// parser met, written out. The contract claims that they depend on what
/// the parser returned alone.
#[verifier::external_body]
fn diagnostics_of(parsed: &oxc_parser::ParserReturn) -> (diagnostics: Vec<String>)
    ensures
        diagnostics == errors_of(*parsed),
{
    parsed.errors.iter().map(|error| format!("{:?}", error)).collect()
}

/// The nodes and the symbol table of a parsed program.
pub uninterp spec fn semantic_of(parsed: oxc_parser::ParserReturn) -> oxc_semantic::Semantic;

/// `SemanticBuilder::new` and `SemanticBuilder::build` of `oxc_semantic`:
/// the nodes of a parsed program and its symbol table. The contract claims
/// that they depend on the program alone.
#[verifier::external_body]
fn build_semantic<'a>(parsed: &'a oxc_parser::ParserReturn<'a>) -> (semantic:
    oxc_semantic::Semantic<'a>)
    ensures
        semantic == semantic_of(*parsed),
{
    SemanticBuilder::new().build(&parsed.program).semantic
}

/// The nodes that the front end holds: for each, by identity, what it is and
/// the position of its parent.
pub uninterp spec fn semantic_nodes(semantic: oxc_semantic::Semantic) -> Seq<
    (AstKind, Option<usize>),
>;

/// `AstNodes::iter`, `AstNode::kind` and `AstNodes::parent_id` of
/// `oxc_semantic`: for each node, in the order of the nodes' identities,
/// what it is and the position of its parent among the nodes. The contract
/// claims that this is what the front end holds, whatever that is.
#[verifier::external_body]
fn nodes_of<'a>(semantic: &oxc_semantic::Semantic<'a>) -> (nodes: Vec<
    (AstKind<'a>, Option<usize>),
>)
    ensures
        nodes@ == semantic_nodes(*semantic),
{
    let nodes = semantic.nodes();
    nodes.iter().map(|node| (node.kind(), nodes.parent_id(node.id()).map(|id| id.index())))
        .collect()
}

/// The symbols that the front end holds: for each, by identity, its name,
/// the position of the node that declares it, and the positions of the
/// nodes that refer to it.
pub uninterp spec fn semantic_symbols(semantic: oxc_semantic::Semantic) -> Vec<
    (String, usize, Vec<usize>),
>;

/// `SymbolTable::symbol_ids`, `get_name`, `get_declaration` and
/// `get_resolved_references` of `oxc_semantic`: for each symbol, in the
/// order of the symbols' identities, its name, the position among the nodes
/// of the node that declares it, and the positions of the nodes that refer
/// to it. The contract claims that this is what the front end holds,
/// whatever that is.
#[verifier::external_body]
fn symbols_of(semantic: &oxc_semantic::Semantic) -> (symbols: Vec<(String, usize, Vec<usize>)>)
    ensures
        symbols == semantic_symbols(*semantic),
{
    let table = semantic.symbols();
    table.symbol_ids().map(|id| (
        table.get_name(id).to_string(),
        table.get_declaration(id).index(),
        table.get_resolved_references(id).map(|reference| reference.node_id().index()).collect(),
    )).collect()
}

/// Which of the kinds that the analysis tells apart a node is of.
pub uninterp spec fn kind_tag(kind: AstKind) -> NodeTag;

/// Tells the variants of `AstKind` of `oxc_ast` apart, as far as the
/// analysis does. The contract claims that the kind depends on the node
/// alone.
#[verifier::external_body]
fn tag_of(kind: AstKind) -> (tag: NodeTag)
    ensures
        tag == kind_tag(kind),
{
    match kind {
        AstKind::VariableDeclarator(_) => NodeTag::VariableDeclarator,
        AstKind::VariableDeclaration(_) => NodeTag::VariableDeclaration,
        AstKind::BindingIdentifier(_) => NodeTag::BindingIdentifier,
        AstKind::BindingRestElement(_) => NodeTag::BindingRestElement,
        AstKind::ImportSpecifier(_) => NodeTag::ImportSpecifier,
        AstKind::ImportDefaultSpecifier(_) => NodeTag::ImportDefaultSpecifier,
        AstKind::ImportNamespaceSpecifier(_) => NodeTag::ImportNamespaceSpecifier,
        AstKind::ImportDeclaration(_) => NodeTag::ImportDeclaration,
        AstKind::ExportNamedDeclaration(_) => NodeTag::ExportNamedDeclaration,
        AstKind::ExportDefaultDeclaration(_) => NodeTag::ExportDefaultDeclaration,
        AstKind::ExportAllDeclaration(_) => NodeTag::ExportAllDeclaration,
        _ => NodeTag::Other,
    }
}

/// The text that a node covers.
pub uninterp spec fn kind_span(kind: AstKind) -> Span;

/// `GetSpan::span` of `oxc_span` on an `AstKind`: the text that a node
/// covers. The contract claims that the range depends on the node alone.
#[verifier::external_body]
fn span_of(kind: AstKind) -> (span: Span)
    ensures
        span == kind_span(kind),
{
    let span = kind.span();
    Span { start: span.start as usize, end: span.end as usize }
}

/// The pattern of each declarator of a declaration statement, in order.
pub uninterp spec fn kind_patterns(kind: AstKind) -> Seq<&BindingPattern>;

/// The field `declarations` of `VariableDeclaration` of `oxc_ast`, and the
/// field `id` of each `VariableDeclarator` in it: the pattern of each
/// declarator of a statement, in order. Another node has none. The contract
/// claims that the patterns depend on the node alone.
#[verifier::external_body]
fn declared_patterns<'a>(kind: AstKind<'a>) -> (patterns: Vec<&'a BindingPattern<'a>>)
    ensures
        patterns@ == kind_patterns(kind),
{
    match kind {
        AstKind::VariableDeclaration(declaration) => {
            declaration.declarations.iter().map(|declarator| &declarator.id).collect()
        },
        _ => Vec::new(),
    }
}

/// The symbol that each specifier of an import statement binds, in order.
pub uninterp spec fn kind_imports(kind: AstKind) -> Option<Vec<Option<usize>>>;

/// The field `specifiers` of `ImportDeclaration` of `oxc_ast`, and
/// `ImportDeclarationSpecifier::local` of each specifier in it: the position
/// of the symbol that each specifier of an import binds, in order; nothing
/// where the statement has no list of specifiers, or the node is no import.
/// The contract claims that the symbols depend on the node alone: nodes are
/// had from the front end only once it has resolved the names.
#[verifier::external_body]
fn imported_symbols(kind: AstKind) -> (symbols: Option<Vec<Option<usize>>>)
    ensures
        symbols == kind_imports(kind),
{
    match kind {
        AstKind::ImportDeclaration(declaration) => declaration.specifiers.as_ref().map(|list|
            list.iter().map(|s| s.local().symbol_id.get().map(|id| id.index())).collect()),
        _ => None,
    }
}

/// Which of the shapes that the analysis tells apart a pattern is of.
pub uninterp spec fn pattern_shape(pattern: BindingPattern) -> PatternTag;

/// Tells the variants of `BindingPatternKind` of `oxc_ast` apart, and reads
/// the field `symbol_id` of a `BindingIdentifier`. The contract claims that
/// the shape depends on the pattern alone: patterns are had from the front
/// end only once it has resolved the names.
#[verifier::external_body]
fn pattern_tag_of(pattern: &BindingPattern) -> (tag: PatternTag)
    ensures
        tag == pattern_shape(*pattern),
{
    match &pattern.kind {
        BindingPatternKind::BindingIdentifier(name) => PatternTag::Identifier(
            name.symbol_id.get().map(|id| id.index()),
        ),
        BindingPatternKind::ObjectPattern(_) => PatternTag::Object,
        BindingPatternKind::ArrayPattern(_) => PatternTag::Array,
        BindingPatternKind::AssignmentPattern(_) => PatternTag::Other,
    }
}

/// The patterns that an object or array pattern is made of, in order: the
/// pattern of each property, or in each slot, and behind them the pattern of
/// the rest binding, where the pattern has one.
pub uninterp spec fn pattern_slots(pattern: BindingPattern) -> Seq<Option<&BindingPattern>>;

/// The fields `properties` and `rest` of `ObjectPattern` and the fields
/// `elements` and `rest` of `ArrayPattern` of `oxc_ast`: the pattern of each
/// property of an object pattern, and the pattern in each slot of an array
/// pattern, nothing for an elided slot; behind them the pattern that the
/// rest binding binds, where there is one. A pattern of another shape has
/// none. The contract claims that the parts depend on the pattern alone.
#[verifier::external_body]
fn pattern_parts<'a>(pattern: &'a BindingPattern<'a>) -> (parts: Vec<
    Option<&'a BindingPattern<'a>>,
>)
    ensures
        parts@ == pattern_slots(*pattern),
{
    match &pattern.kind {
        BindingPatternKind::ObjectPattern(object) => {
            let rest = object.rest.iter().map(|rest| Some(&rest.argument));
            object.properties.iter().map(|property| Some(&property.value)).chain(rest).collect()
        },
        BindingPatternKind::ArrayPattern(array) => {
            let rest = array.rest.iter().map(|rest| Some(&rest.argument));
            array.elements.iter().map(|element| element.as_ref()).chain(rest).collect()
        },
        _ => Vec::new(),
    }
}

/// True where `read` is what a reading of `pattern` down to `depth` levels
/// gives: a name with its symbol, an object pattern with the reading of each
/// of its properties, an array pattern with the reading of each of its
/// slots and nothing for an elided slot, either of them with the reading of
/// its rest binding behind the others. A pattern of another shape, and
/// what lies deeper than `depth`, reads as a shape that is not known.
pub open spec fn is_reading_of(read: Pattern, pattern: BindingPattern, depth: nat) -> bool
    decreases depth,
{
    if depth == 0 {
        read is Other
    } else {
        let slots = pattern_slots(pattern);
        match pattern_shape(pattern) {
            PatternTag::Identifier(symbol) => read == Pattern::Identifier(symbol),
            PatternTag::Object => {
                &&& read matches Pattern::Object(properties)
                &&& properties.len() == slots.len()
                &&& forall|i: int|
                    0 <= i < slots.len() ==> match slots[i] {
                        Some(part) => is_reading_of(
                            #[trigger] properties[i],
                            *part,
                            (depth - 1) as nat,
                        ),
                        None => properties[i] is Other,
                    }
            },
            PatternTag::Array => {
                &&& read matches Pattern::Array(elements)
                &&& elements.len() == slots.len()
                &&& forall|i: int|
                    0 <= i < slots.len() ==> match slots[i] {
                        Some(part) => (#[trigger] elements[i]) matches Some(element)
                            && is_reading_of(element, *part, (depth - 1) as nat),
                        None => elements[i] is None,
                    }
            },
            PatternTag::Other => read is Other,
        }
    }
}

/// True where `read` is what the analysis needs of the node `kind`: its
/// kind, for a declaration statement with the reading of the pattern of each
/// declarator, for an import statement with the symbols of its specifiers.
pub open spec fn is_kind_of(read: NodeKind, kind: AstKind, depth: nat) -> bool {
    match kind_tag(kind) {
        NodeTag::VariableDeclarator => read is VariableDeclarator,
        NodeTag::VariableDeclaration => {
            &&& read matches NodeKind::VariableDeclaration { declarations }
            &&& declarations.len() == kind_patterns(kind).len()
            &&& forall|i: int|
                0 <= i < declarations.len() ==> is_reading_of(
                    #[trigger] declarations[i],
                    *kind_patterns(kind)[i],
                    depth,
                )
        },
        NodeTag::BindingIdentifier => read is BindingIdentifier,
        NodeTag::BindingRestElement => read is BindingRestElement,
        NodeTag::ImportSpecifier => read is ImportSpecifier,
        NodeTag::ImportDefaultSpecifier => read is ImportDefaultSpecifier,
        NodeTag::ImportNamespaceSpecifier => read is ImportNamespaceSpecifier,
        NodeTag::ImportDeclaration => read == (NodeKind::ImportDeclaration {
            specifiers: kind_imports(kind),
        }),
        NodeTag::ExportNamedDeclaration => read is ExportNamedDeclaration,
        NodeTag::ExportDefaultDeclaration => read is ExportDefaultDeclaration,
        NodeTag::ExportAllDeclaration => read is ExportAllDeclaration,
        NodeTag::Other => read is Other,
    }
}

/// True where the nodes and symbols that the front end holds fit together:
/// every node comes behind its parent, and every symbol is declared at one
/// of the nodes.
pub open spec fn semantic_fits(semantic: oxc_semantic::Semantic) -> bool {
    let nodes = semantic_nodes(semantic);
    let symbols = semantic_symbols(semantic);
    &&& forall|i: int|
        0 <= i < nodes.len() ==> ((#[trigger] nodes[i]).1 matches Some(p) ==> p < i)
    &&& forall|s: int| 0 <= s < symbols.len() ==> (#[trigger] symbols[s]).1 < nodes.len()
}

/// True where `tree` holds the nodes and symbols that the front end holds,
/// each at its place: of a node its span, its parent and what the analysis
/// needs of its kind; of a symbol its name, its declaration and its
/// references.
pub open spec fn is_tree_of(tree: SyntaxTree, semantic: oxc_semantic::Semantic) -> bool {
    let nodes = semantic_nodes(semantic);
    let symbols = semantic_symbols(semantic);
    &&& tree.nodes().len() == nodes.len()
    &&& forall|i: int|
        0 <= i < nodes.len() ==> {
            &&& (#[trigger] tree.nodes()[i]).span == kind_span(nodes[i].0)
            &&& tree.nodes()[i].parent == nodes[i].1
            &&& is_kind_of(tree.nodes()[i].kind, nodes[i].0, nodes.len())
        }
    &&& tree.symbols().len() == symbols.len()
    &&& forall|s: int|
        0 <= s < symbols.len() ==> {
            &&& (#[trigger] tree.symbols()[s]).name@ == symbols[s].0@
            &&& tree.symbols()[s].declaration == symbols[s].1
            &&& tree.symbols()[s].references@ == symbols[s].2@
        }
}

/// Reads a pattern, down to `depth` levels. What lies deeper counts as a
/// shape that is not known.
fn read_pattern(pattern: &BindingPattern, depth: usize) -> (read: Pattern)
    ensures
        is_reading_of(read, *pattern, depth as nat),
    decreases depth,
{
    if depth == 0 {
        return Pattern::Other;
    }
    match pattern_tag_of(pattern) {
        PatternTag::Identifier(symbol) => Pattern::Identifier(symbol),
        PatternTag::Object => {
            let parts = pattern_parts(pattern);
            let mut properties: Vec<Pattern> = Vec::new();
            let mut i: usize = 0;
            while i < parts.len()
                invariant
                    depth > 0,
                    parts@ == pattern_slots(*pattern),
                    i <= parts.len(),
                    properties.len() == i,
                    forall|j: int|
                        0 <= j < i ==> match parts@[j] {
                            Some(part) => is_reading_of(
                                #[trigger] properties[j],
                                *part,
                                (depth - 1) as nat,
                            ),
                            None => properties[j] is Other,
                        },
                decreases parts.len() - i,
            {
                let property = match parts[i] {
                    Some(part) => read_pattern(part, depth - 1),
                    None => Pattern::Other,
                };
                properties.push(property);
                i += 1;
            }
            Pattern::Object(properties)
        },
        PatternTag::Array => {
            let parts = pattern_parts(pattern);
            let mut elements: Vec<Option<Pattern>> = Vec::new();
            let mut i: usize = 0;
            while i < parts.len()
                invariant
                    depth > 0,
                    parts@ == pattern_slots(*pattern),
                    i <= parts.len(),
                    elements.len() == i,
                    forall|j: int|
                        0 <= j < i ==> match parts@[j] {
                            Some(part) => (#[trigger] elements[j]) matches Some(element)
                                && is_reading_of(element, *part, (depth - 1) as nat),
                            None => elements[j] is None,
                        },
                decreases parts.len() - i,
            {
                let element = match parts[i] {
                    Some(part) => Some(read_pattern(part, depth - 1)),
                    None => None,
                };
                elements.push(element);
                i += 1;
            }
            Pattern::Array(elements)
        },
        PatternTag::Other => Pattern::Other,
    }
}

/// Reads what the analysis needs of a node, patterns down to `depth` levels.
/// No pattern is deeper than the tree has nodes.
fn read_kind(kind: AstKind, depth: usize) -> (read: NodeKind)
    ensures
        is_kind_of(read, kind, depth as nat),
{
    match tag_of(kind) {
        NodeTag::VariableDeclarator => NodeKind::VariableDeclarator,
        NodeTag::VariableDeclaration => {
            let patterns = declared_patterns(kind);
            let mut declarations: Vec<Pattern> = Vec::new();
            let mut i: usize = 0;
            while i < patterns.len()
                invariant
                    patterns@ == kind_patterns(kind),
                    i <= patterns.len(),
                    declarations.len() == i,
                    forall|j: int|
                        0 <= j < i ==> is_reading_of(
                            #[trigger] declarations[j],
                            *patterns@[j],
                            depth as nat,
                        ),
                decreases patterns.len() - i,
            {
                declarations.push(read_pattern(patterns[i], depth));
                i += 1;
            }
            NodeKind::VariableDeclaration { declarations }
        },
        NodeTag::BindingIdentifier => NodeKind::BindingIdentifier,
        NodeTag::BindingRestElement => NodeKind::BindingRestElement,
        NodeTag::ImportSpecifier => NodeKind::ImportSpecifier,
        NodeTag::ImportDefaultSpecifier => NodeKind::ImportDefaultSpecifier,
        NodeTag::ImportNamespaceSpecifier => NodeKind::ImportNamespaceSpecifier,
        NodeTag::ImportDeclaration => NodeKind::ImportDeclaration {
            specifiers: imported_symbols(kind),
        },
        NodeTag::ExportNamedDeclaration => NodeKind::ExportNamedDeclaration,
        NodeTag::ExportDefaultDeclaration => NodeKind::ExportDefaultDeclaration,
        NodeTag::ExportAllDeclaration => NodeKind::ExportAllDeclaration,
        NodeTag::Other => NodeKind::Other,
    }
}

/// Reads the nodes and symbols that the front end found into a tree. There
/// is no tree to be had where they do not fit together: where a node comes
/// before its parent, or a symbol is declared at no node.
fn read_tree(semantic: &oxc_semantic::Semantic) -> (tree: Option<SyntaxTree>)
    ensures
        tree is Some <==> semantic_fits(*semantic),
        tree matches Some(t) ==> t.well_formed() && is_tree_of(t, *semantic),
{
    let nodes = nodes_of(semantic);
    let symbols = symbols_of(semantic);
    let mut tree = SyntaxTree::new();
    let mut i: usize = 0;
    while i < nodes.len()
        invariant
            nodes@ == semantic_nodes(*semantic),
            i <= nodes.len(),
            tree.nodes().len() == i,
            tree.symbols().len() == 0,
            forall|j: int|
                0 <= j < i ==> {
                    &&& (#[trigger] tree.nodes()[j]).span == kind_span(nodes@[j].0)
                    &&& tree.nodes()[j].parent == nodes@[j].1
                    &&& is_kind_of(tree.nodes()[j].kind, nodes@[j].0, nodes.len() as nat)
                    &&& nodes@[j].1 matches Some(p) ==> p < j
                },
        decreases nodes.len() - i,
    {
        let (kind, parent) = nodes[i];
        let ghost before = tree.nodes();
        if tree.add_node(read_kind(kind, nodes.len()), span_of(kind), parent).is_none() {
            assert(nodes@[i as int].1 matches Some(p) && p >= i);
            return None;
        }
        assert forall|j: int| 0 <= j < i + 1 implies {
            &&& (#[trigger] tree.nodes()[j]).span == kind_span(nodes@[j].0)
            &&& tree.nodes()[j].parent == nodes@[j].1
            &&& is_kind_of(tree.nodes()[j].kind, nodes@[j].0, nodes.len() as nat)
            &&& nodes@[j].1 matches Some(p) ==> p < j
        } by {
            if j < i {
                assert(tree.nodes()[j] == before[j]);
            }
        }
        i += 1;
    }
    let mut s: usize = 0;
    while s < symbols.len()
        invariant
            nodes@ == semantic_nodes(*semantic),
            symbols == semantic_symbols(*semantic),
            tree.nodes().len() == nodes.len(),
            forall|j: int|
                0 <= j < nodes.len() ==> {
                    &&& (#[trigger] tree.nodes()[j]).span == kind_span(nodes@[j].0)
                    &&& tree.nodes()[j].parent == nodes@[j].1
                    &&& is_kind_of(tree.nodes()[j].kind, nodes@[j].0, nodes.len() as nat)
                    &&& nodes@[j].1 matches Some(p) ==> p < j
                },
            s <= symbols.len(),
            tree.symbols().len() == s,
            forall|j: int|
                0 <= j < s ==> {
                    &&& (#[trigger] tree.symbols()[j]).name@ == symbols[j].0@
                    &&& tree.symbols()[j].declaration == symbols[j].1
                    &&& tree.symbols()[j].references@ == symbols[j].2@
                    &&& symbols[j].1 < nodes.len()
                },
        decreases symbols.len() - s,
    {
        let name = symbols[s].0.clone();
        let references = symbols[s].2.clone();
        let ghost before = tree.symbols();
        if tree.add_symbol(name, symbols[s].1, references).is_none() {
            assert(symbols[s as int].1 >= nodes.len());
            return None;
        }
        assert forall|j: int| 0 <= j < s + 1 implies {
            &&& (#[trigger] tree.symbols()[j]).name@ == symbols[j].0@
            &&& tree.symbols()[j].declaration == symbols[j].1
            &&& tree.symbols()[j].references@ == symbols[j].2@
            &&& symbols[j].1 < nodes.len()
        } by {
            if j < s {
                assert(tree.symbols()[j] == before[j]);
            }
        }
        s += 1;
    }
    proof {
        use_type_invariant(&tree);
        assert forall|j: int| 0 <= j < nodes@.len() implies ((#[trigger] nodes@[j]).1 matches Some(
            p,
        ) ==> p < j) by {
            assert(tree.nodes()[j].parent == nodes@[j].1);
        }
        assert forall|j: int| 0 <= j < symbols.len() implies (#[trigger] symbols[j]).1
            < nodes@.len() by {
            assert(tree.symbols()[j].declaration == symbols[j].1);
        }
    }
    Some(tree)
}

/// What the front end made of a file's text.
#[derive(Debug)]
pub enum ParseResult {
    /// The text did not parse; the front end's diagnostics say why.
    Failed { diagnostics: Vec<String> },
    /// The syntax tree and symbol table of the text.
    Parsed { tree: SyntaxTree },
}

/// True where `result` is what the front end makes of `program`, which is
/// what the parser returned for a text.
///
/// Where the parser met errors, `result` is those errors. Else the names of
/// the program are resolved, and `result` is the tree that holds the nodes
/// and symbols of the program; where those do not fit together, it is the
/// one diagnostic that says so.
pub open spec fn is_parse_of(result: ParseResult, program: oxc_parser::ParserReturn) -> bool {
    let errors = errors_of(program);
    let semantic = semantic_of(program);
    if errors.len() > 0 {
        result == (ParseResult::Failed { diagnostics: errors })
    } else if semantic_fits(semantic) {
        result matches ParseResult::Parsed { tree } && tree.well_formed() && is_tree_of(
            tree,
            semantic,
        )
    } else {
        result matches ParseResult::Failed { diagnostics } && diagnostics.len() == 1
            && diagnostics[0]@ == MISFIT@
    }
}

/// Parses `source`, the text of the file named `file_name`, and resolves its
/// names. The result is the tree and the symbols of the text, or the
/// diagnostics of the parser where it met errors. A text whose nodes and
/// symbols do not fit together counts as one that did not parse.
///
/// The text is parsed in an arena of its own, in the language that the name
/// of the file tells.
pub fn parse_source(source: &str, file_name: &str) -> (parsed: ParseResult)
    ensures
        parsed matches ParseResult::Parsed { tree } ==> tree.well_formed(),
        exists|allocator: oxc_allocator::Allocator| #[trigger]
            is_parse_of(parsed, program_of(allocator, source@, language_of(file_name@))),
{
    let allocator = new_allocator();
    let program = parse(&allocator, source, source_type_of(file_name));
    let diagnostics = diagnostics_of(&program);
    let result = if diagnostics.len() > 0 {
        ParseResult::Failed { diagnostics }
    } else {
        let semantic = build_semantic(&program);
        match read_tree(&semantic) {
            Some(tree) => ParseResult::Parsed { tree },
            None => {
                let mut diagnostics: Vec<String> = Vec::new();
                diagnostics.push(String::from_str(MISFIT));
                ParseResult::Failed { diagnostics }
            },
        }
    };
    assert(is_parse_of(result, program_of(allocator, source@, language_of(file_name@))));
    result
}

} // verus!
