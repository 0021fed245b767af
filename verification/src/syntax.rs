//! The syntax tree and symbol table of one source file, held as arenas of
//! plain records that are indexed by identity.

use vstd::prelude::*;
use crate::span::Span;

verus! {

/// The shape on the left side of a declarator: what it binds, and how.
#[derive(Debug)]
pub enum Pattern {
    /// A single name, with the symbol it declares where one was resolved.
    Identifier(Option<usize>),
    /// An object pattern: the sub-pattern of each property, in order, and
    /// behind them the pattern of its rest binding, where it has one.
    Object(Vec<Pattern>),
    /// An array pattern: one entry per slot, `None` for an elided slot, and
    /// behind them the pattern of its rest binding, where it has one.
    Array(Vec<Option<Pattern>>),
    /// Any other shape.
    Other,
}

/// What a node of the tree is. Statements carry what the analysis reads of
/// their children.
#[derive(Debug)]
pub enum NodeKind {
    /// One binding of a variable declaration statement.
    VariableDeclarator,
    /// A variable declaration statement, with the pattern of each of its
    /// declarators, in order.
    VariableDeclaration { declarations: Vec<Pattern> },
    /// A name that is bound outside of a declarator.
    BindingIdentifier,
    /// A rest binding, `...name`.
    BindingRestElement,
    /// `name` or `name as local` between the braces of an import.
    ImportSpecifier,
    /// The default binding of an import.
    ImportDefaultSpecifier,
    /// `* as name` in an import.
    ImportNamespaceSpecifier,
    /// An import statement, with the symbol of each of its specifiers, in
    /// order; `None` for the list where the statement has none, and `None`
    /// for a specifier whose symbol was not resolved.
    ImportDeclaration { specifiers: Option<Vec<Option<usize>>> },
    /// `export { .. }`, `export const ..` and the like.
    ExportNamedDeclaration,
    /// `export default ..`.
    ExportDefaultDeclaration,
    /// `export * from ..`.
    ExportAllDeclaration,
    /// Anything else.
    Other,
}

impl NodeKind {
    /// True of the three kinds of export declaration.
    pub open spec fn is_export(&self) -> bool {
        self is ExportNamedDeclaration || self is ExportDefaultDeclaration
            || self is ExportAllDeclaration
    }

    /// True of the three kinds of import specifier.
    pub open spec fn is_import_specifier(&self) -> bool {
        self is ImportSpecifier || self is ImportDefaultSpecifier
            || self is ImportNamespaceSpecifier
    }
}

/// A node of the syntax tree.
#[derive(Debug)]
pub struct Node {
    pub kind: NodeKind,
    /// The text the node covers.
    pub span: Span,
    /// The node that holds this one; `None` at the root.
    pub parent: Option<usize>,
}

/// A declared name.
#[derive(Debug)]
pub struct Symbol {
    pub name: String,
    /// The node that introduces the binding.
    pub declaration: usize,
    /// The nodes at which the name is used.
    pub references: Vec<usize>,
}

/// The syntax tree and the symbol table of one file. A node's identity is its
/// position among the nodes, a symbol's its position among the symbols.
///
/// Nodes are kept in the order in which the tree was walked: a parent comes
/// before each of its children. Every symbol is declared at a node of the
/// tree. A tree is built node by node and symbol by symbol, and what does
/// not fit is not taken in, so that every tree is well-formed.
#[derive(Debug)]
pub struct SyntaxTree {
    nodes: Vec<Node>,
    symbols: Vec<Symbol>,
}

/// True where `parent` is a node of the tree and holds the node `child`.
pub open spec fn is_parent_of(nodes: Seq<Node>, parent: int, child: int) -> bool {
    &&& 0 <= parent < nodes.len()
    &&& 0 <= child < nodes.len()
    &&& nodes[child].parent matches Some(p) && p == parent
}

/// True where every node lies behind its parent.
pub open spec fn parents_precede(nodes: Seq<Node>) -> bool {
    forall|i: int|
        0 <= i < nodes.len() ==> ((#[trigger] nodes[i]).parent matches Some(p) ==> p < i)
}

/// True where every symbol is declared at one of `count` nodes.
pub open spec fn declarations_exist(symbols: Seq<Symbol>, count: nat) -> bool {
    forall|s: int| 0 <= s < symbols.len() ==> (#[trigger] symbols[s]).declaration < count
}

impl SyntaxTree {
    /// The nodes, by identity.
    pub closed spec fn nodes(&self) -> Seq<Node> {
        self.nodes@
    }

    /// The symbols, by identity.
    pub closed spec fn symbols(&self) -> Seq<Symbol> {
        self.symbols@
    }

    /// What holds of every tree: parents precede their children, and symbols
    /// are declared at nodes of the tree.
    #[verifier::type_invariant]
    pub open spec fn well_formed(&self) -> bool {
        &&& parents_precede(self.nodes())
        &&& declarations_exist(self.symbols(), self.nodes().len())
    }

    /// A tree without nodes or symbols.
    pub fn new() -> (tree: SyntaxTree)
        ensures
            tree.nodes().len() == 0,
            tree.symbols().len() == 0,
            tree.well_formed(),
    {
        SyntaxTree { nodes: Vec::new(), symbols: Vec::new() }
    }

    pub fn node_count(&self) -> (count: usize)
        ensures
            count == self.nodes().len(),
    {
        self.nodes.len()
    }

    pub fn symbol_count(&self) -> (count: usize)
        ensures
            count == self.symbols().len(),
    {
        self.symbols.len()
    }

    /// Adds a node behind the nodes that are there and returns its identity.
    /// A node whose parent is not in the tree yet is not added.
    pub fn add_node(&mut self, kind: NodeKind, span: Span, parent: Option<usize>) -> (id: Option<
        usize,
    >)
        ensures
            final(self).symbols() == old(self).symbols(),
            id is Some <==> (parent matches Some(p) ==> p < old(self).nodes().len()),
            id matches Some(n) ==> n == old(self).nodes().len() && final(self).nodes() == old(
                self,
            ).nodes().push(Node { kind, span, parent }),
            id is None ==> final(self).nodes() == old(self).nodes(),
            final(self).well_formed(),
    {
        let known = match parent {
            Some(p) => p < self.nodes.len(),
            None => true,
        };
        proof {
            use_type_invariant(&*self);
        }
        if !known {
            return None;
        }
        // The tree is taken apart and put together again as a whole, so that
        // no tree is ever seen while it is being changed.
        let mut taken = SyntaxTree::new();
        std::mem::swap(self, &mut taken);
        let SyntaxTree { mut nodes, symbols } = taken;
        let id = nodes.len();
        nodes.push(Node { kind, span, parent });
        *self = SyntaxTree { nodes, symbols };
        Some(id)
    }

    /// Adds a symbol behind the symbols that are there and returns its
    /// identity. A symbol whose declaration is not a node of the tree is not
    /// added.
    pub fn add_symbol(&mut self, name: String, declaration: usize, references: Vec<usize>) -> (id:
        Option<usize>)
        ensures
            final(self).nodes() == old(self).nodes(),
            id is Some <==> declaration < old(self).nodes().len(),
            id matches Some(s) ==> s == old(self).symbols().len() && final(self).symbols() == old(
                self,
            ).symbols().push(Symbol { name, declaration, references }),
            id is None ==> final(self).symbols() == old(self).symbols(),
            final(self).well_formed(),
    {
        proof {
            use_type_invariant(&*self);
        }
        if declaration >= self.nodes.len() {
            return None;
        }
        let mut taken = SyntaxTree::new();
        std::mem::swap(self, &mut taken);
        let SyntaxTree { nodes, mut symbols } = taken;
        let id = symbols.len();
        symbols.push(Symbol { name, declaration, references });
        *self = SyntaxTree { nodes, symbols };
        Some(id)
    }

    pub(crate) fn node_at(&self, id: usize) -> (node: &Node)
        requires
            id < self.nodes().len(),
        ensures
            *node == self.nodes()[id as int],
    {
        &self.nodes[id]
    }

    pub(crate) fn symbol_at(&self, id: usize) -> (symbol: &Symbol)
        requires
            id < self.symbols().len(),
        ensures
            *symbol == self.symbols()[id as int],
    {
        &self.symbols[id]
    }

    /// The node with the given identity.
    pub fn node(&self, id: usize) -> (node: Option<&Node>)
        ensures
            node is Some <==> id < self.nodes().len(),
            node matches Some(n) ==> *n == self.nodes()[id as int],
    {
        if id < self.nodes.len() {
            Some(&self.nodes[id])
        } else {
            None
        }
    }

    /// The symbol with the given identity.
    pub fn symbol(&self, id: usize) -> (symbol: Option<&Symbol>)
        ensures
            symbol is Some <==> id < self.symbols().len(),
            symbol matches Some(s) ==> *s == self.symbols()[id as int],
    {
        if id < self.symbols.len() {
            Some(&self.symbols[id])
        } else {
            None
        }
    }
}

} // verus!
