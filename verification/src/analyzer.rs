//! The analysis of one file: its unused symbols, and the byte ranges that
//! have to go for them.

use vstd::prelude::*;
use vstd::string::StringSliceAdditionalSpecFns;
use vstd::utf8::encode_utf8_decode_utf8;
use crate::classifier::{
    has_export_ancestor, is_reserved_name, symbol_is_unused, unused_symbols, ARGUMENTS, THIS,
};
use crate::merger::{
    is_removal_order, lemma_descending_order_is_unique, merge_spans, removal_order,
};
use crate::resolver::{
    declaration_entirely_unused, import_entirely_unused, pattern_entirely_unused, removal_node,
    removal_spans, removes, IMPORT_WITHOUT_SPECIFIERS_IS_UNUSED, UNRECOGNIZED_PATTERN_IS_UNUSED,
};
use crate::span::Span;
use crate::syntax::{NodeKind, Pattern, SyntaxTree};

verus! {

fn bytes_equal(left: &[u8], right: &[u8]) -> (same: bool)
    ensures
        same == (left@ == right@),
{
    if left.len() != right.len() {
        return false;
    }
    let mut i: usize = 0;
    while i < left.len()
        invariant
            left@.len() == right@.len(),
            i <= left@.len(),
            forall|j: int| 0 <= j < i ==> left@[j] == right@[j],
        decreases left@.len() - i,
    {
        if left[i] != right[i] {
            return false;
        }
        i += 1;
    }
    assert(left@ =~= right@);
    true
}

fn same_text(left: &str, right: &str) -> (same: bool)
    ensures
        same == (left@ == right@),
{
    proof {
        encode_utf8_decode_utf8(left@);
        encode_utf8_decode_utf8(right@);
    }
    bytes_equal(left.as_bytes(), right.as_bytes())
}

/// The classification of a file's symbols, and the resolution of each unused
/// symbol to the node that has to go.
pub struct UnusedDeclarationAnalyzer<'a> {
    tree: &'a SyntaxTree,
    unused: Vec<bool>,
}

impl<'a> UnusedDeclarationAnalyzer<'a> {
    /// The file that was analyzed.
    pub closed spec fn tree(&self) -> SyntaxTree {
        *self.tree
    }

    /// The symbols that the analyzer holds to be unused.
    pub closed spec fn unused(&self) -> Set<int> {
        Set::new(|s: int| 0 <= s < self.unused@.len() && self.unused@[s])
    }

    /// True where the file is well-formed and the analyzer holds exactly its
    /// unused symbols to be unused. Every analyzer that `new` made is such.
    #[verifier::type_invariant]
    pub closed spec fn well_formed(&self) -> bool {
        &&& self.tree.well_formed()
        &&& self.unused@.len() == self.tree.symbols().len()
        &&& forall|s: int|
            0 <= s < self.unused@.len() ==> #[trigger] self.unused@[s] == symbol_is_unused(
                *self.tree,
                s,
            )
    }

    /// What a well-formed analyzer holds to be unused is what is unused.
    pub proof fn lemma_unused_is_exact(&self)
        requires
            self.well_formed(),
        ensures
            self.tree().well_formed(),
            self.unused() == unused_symbols(self.tree()),
    {
        assert(self.unused() =~= unused_symbols(self.tree()));
    }

    /// Classifies every symbol of the file.
    pub fn new(tree: &'a SyntaxTree) -> (analyzer: Self)
        ensures
            tree.well_formed(),
            analyzer.well_formed(),
            analyzer.tree() == *tree,
            analyzer.unused() == unused_symbols(*tree),
    {
        proof {
            use_type_invariant(tree);
        }
        let mut unused: Vec<bool> = Vec::new();
        let count = tree.symbol_count();
        let mut symbol_id: usize = 0;
        while symbol_id < count
            invariant
                tree.well_formed(),
                count == tree.symbols().len(),
                symbol_id <= count,
                unused@.len() == symbol_id,
                forall|s: int|
                    0 <= s < symbol_id ==> #[trigger] unused@[s] == symbol_is_unused(*tree, s),
            decreases count - symbol_id,
        {
            let is_unused = !Self::should_skip_symbol(tree, symbol_id) && !Self::is_symbol_used(
                tree,
                symbol_id,
            ) && !Self::is_symbol_exported(tree, symbol_id);
            unused.push(is_unused);
            symbol_id += 1;
        }
        let analyzer = UnusedDeclarationAnalyzer { tree, unused };
        proof {
            analyzer.lemma_unused_is_exact();
        }
        analyzer
    }

    /// Tells whether the symbol is one of the unused symbols of the file.
    pub fn is_unused(&self, symbol_id: usize) -> (unused: bool)
        ensures
            unused == self.unused().contains(symbol_id as int),
            unused == symbol_is_unused(self.tree(), symbol_id as int),
    {
        proof {
            use_type_invariant(self);
        }
        symbol_id < self.unused.len() && self.unused[symbol_id]
    }

    fn should_skip_symbol(tree: &SyntaxTree, symbol_id: usize) -> (skip: bool)
        requires
            symbol_id < tree.symbols().len(),
        ensures
            skip == is_reserved_name(tree.symbols()[symbol_id as int].name@),
    {
        let name = tree.symbol_at(symbol_id).name.as_str();
        same_text(name, ARGUMENTS) || same_text(name, THIS)
    }

    fn is_symbol_used(tree: &SyntaxTree, symbol_id: usize) -> (used: bool)
        requires
            symbol_id < tree.symbols().len(),
        ensures
            used == (tree.symbols()[symbol_id as int].references@.len() != 0),
    {
        tree.symbol_at(symbol_id).references.len() != 0
    }

    fn is_symbol_exported(tree: &SyntaxTree, symbol_id: usize) -> (exported: bool)
        requires
            tree.well_formed(),
            symbol_id < tree.symbols().len(),
        ensures
            exported == has_export_ancestor(
                tree.nodes(),
                tree.symbols()[symbol_id as int].declaration as int,
            ),
    {
        let declaration = tree.symbol_at(symbol_id).declaration;
        let mut current: usize = declaration;
        loop
            invariant
                tree.well_formed(),
                symbol_id < tree.symbols().len(),
                declaration == tree.symbols()[symbol_id as int].declaration,
                current < tree.nodes().len(),
                has_export_ancestor(tree.nodes(), declaration as int) == has_export_ancestor(
                    tree.nodes(),
                    current as int,
                ),
            decreases current,
        {
            let node = tree.node_at(current);
            match node.kind {
                NodeKind::ExportNamedDeclaration
                | NodeKind::ExportDefaultDeclaration
                | NodeKind::ExportAllDeclaration => {
                    return true;
                },
                _ => {},
            }
            match node.parent {
                Some(parent) => {
                    current = parent;
                },
                None => {
                    return false;
                },
            }
        }
    }

    /// The node that has to go for the unused symbol `symbol_id`.
    fn resolve(&self, symbol_id: usize) -> (node_id: usize)
        requires
            self.well_formed(),
            symbol_id < self.tree().symbols().len(),
        ensures
            node_id == removal_node(self.tree(), symbol_id as int),
            node_id < self.tree().nodes().len(),
    {
        let declaration = self.tree.symbol_at(symbol_id).declaration;
        let node = self.tree.node_at(declaration);
        match node.kind {
            NodeKind::VariableDeclarator => {
                if let Some(parent) = node.parent {
                    if self.is_entire_variable_declaration_unused(parent) {
                        return parent;
                    }
                }
                declaration
            },
            NodeKind::ImportSpecifier
            | NodeKind::ImportDefaultSpecifier
            | NodeKind::ImportNamespaceSpecifier => {
                if let Some(parent) = node.parent {
                    if self.is_entire_import_declaration_unused(parent) {
                        return parent;
                    }
                }
                declaration
            },
            _ => declaration,
        }
    }

    /// The byte ranges to remove, from the last to the first: the ranges of
    /// the nodes that the unused symbols resolve to, each one once.
    pub fn find_unused_spans(&self) -> (spans: Vec<Span>)
        ensures
            self.tree().well_formed(),
            is_removal_order(self.tree(), spans@),
            spans@ == removal_order(self.tree()),
    {
        proof {
            use_type_invariant(self);
        }
        let mut found: Vec<Span> = Vec::new();
        let count = self.unused.len();
        let mut symbol_id: usize = 0;
        while symbol_id < count
            invariant
                self.well_formed(),
                count == self.tree().symbols().len(),
                symbol_id <= count,
                forall|span: Span|
                    found@.contains(span) <==> exists|s: int|
                        0 <= s < symbol_id && #[trigger] removes(self.tree(), s, span),
            decreases count - symbol_id,
        {
            if self.unused[symbol_id] {
                let node_id = self.resolve(symbol_id);
                let span = self.tree.node_at(node_id).span;
                let ghost before = found@;
                found.push(span);
                assert(removes(self.tree(), symbol_id as int, span));
                assert forall|x: Span|
                    found@.contains(x) <==> exists|s: int|
                        0 <= s < symbol_id + 1 && #[trigger] removes(self.tree(), s, x) by {
                    if found@.contains(x) {
                        let i = choose|i: int| 0 <= i < found@.len() && found@[i] == x;
                        if i < before.len() {
                            assert(before[i] == x);
                            assert(before.contains(x));
                        }
                    }
                    if exists|s: int|
                        0 <= s < symbol_id + 1 && #[trigger] removes(self.tree(), s, x) {
                        let s = choose|s: int|
                            0 <= s < symbol_id + 1 && #[trigger] removes(self.tree(), s, x);
                        if s < symbol_id {
                            assert(before.contains(x));
                            let i = choose|i: int| 0 <= i < before.len() && before[i] == x;
                            assert(found@[i] == x);
                        } else {
                            assert(found@[before.len() as int] == x);
                        }
                    }
                }
            }
            symbol_id += 1;
        }
        let spans = merge_spans(&found);
        assert forall|span: Span|
            spans@.contains(span) <==> removal_spans(self.tree()).contains(span) by {
            if removal_spans(self.tree()).contains(span) {
                let s = choose|s: int| #[trigger] removes(self.tree(), s, span);
                assert(0 <= s < symbol_id);
            }
        }
        proof {
            assert(is_removal_order(self.tree(), spans@));
            lemma_descending_order_is_unique(spans@, removal_order(self.tree()));
        }
        spans
    }

    fn is_entire_variable_declaration_unused(&self, node_id: usize) -> (unused: bool)
        requires
            self.well_formed(),
            node_id < self.tree().nodes().len(),
        ensures
            unused == declaration_entirely_unused(self.tree(), node_id as int),
    {
        match &self.tree.node_at(node_id).kind {
            NodeKind::VariableDeclaration { declarations } => {
                let mut i: usize = 0;
                while i < declarations.len()
                    invariant
                        self.well_formed(),
                        node_id < self.tree().nodes().len(),
                        self.tree().nodes()[node_id as int].kind
                            == (NodeKind::VariableDeclaration { declarations: *declarations }),
                        i <= declarations.len(),
                        forall|j: int|
                            0 <= j < i ==> pattern_entirely_unused(
                                self.tree(),
                                #[trigger] declarations[j],
                            ),
                    decreases declarations.len() - i,
                {
                    if !self.is_pattern_entirely_unused(&declarations[i]) {
                        assert(self.tree().nodes()[node_id as int].kind->declarations[i as int]
                            == declarations[i as int]);
                        return false;
                    }
                    i += 1;
                }
                true
            },
            _ => false,
        }
    }

    fn is_pattern_entirely_unused(&self, pattern: &Pattern) -> (unused: bool)
        requires
            self.well_formed(),
        ensures
            unused == pattern_entirely_unused(self.tree(), *pattern),
        decreases pattern,
    {
        match pattern {
            Pattern::Identifier(symbol) => match symbol {
                Some(symbol_id) => self.is_unused(*symbol_id),
                None => false,
            },
            Pattern::Object(properties) => {
                let mut i: usize = 0;
                while i < properties.len()
                    invariant
                        self.well_formed(),
                        *pattern == Pattern::Object(*properties),
                        i <= properties.len(),
                        forall|j: int|
                            0 <= j < i ==> pattern_entirely_unused(
                                self.tree(),
                                #[trigger] properties[j],
                            ),
                    decreases properties.len() - i,
                {
                    assert(decreases_to!(*pattern => pattern->Object_0[i as int]));
                    if !self.is_pattern_entirely_unused(&properties[i]) {
                        assert(!pattern_entirely_unused(self.tree(), properties[i as int]));
                        return false;
                    }
                    i += 1;
                }
                true
            },
            Pattern::Array(elements) => {
                let mut i: usize = 0;
                while i < elements.len()
                    invariant
                        self.well_formed(),
                        *pattern == Pattern::Array(*elements),
                        i <= elements.len(),
                        forall|j: int|
                            0 <= j < i ==> ((#[trigger] elements[j]) matches Some(element)
                                ==> pattern_entirely_unused(self.tree(), element)),
                    decreases elements.len() - i,
                {
                    match &elements[i] {
                        Some(element) => {
                            assert(decreases_to!(*pattern => pattern->Array_0[i as int]->Some_0));
                            if !self.is_pattern_entirely_unused(element) {
                                assert(elements[i as int] == Some(*element));
                                return false;
                            }
                        },
                        None => {},
                    }
                    i += 1;
                }
                true
            },
            Pattern::Other => UNRECOGNIZED_PATTERN_IS_UNUSED,
        }
    }

    fn is_entire_import_declaration_unused(&self, node_id: usize) -> (unused: bool)
        requires
            self.well_formed(),
            node_id < self.tree().nodes().len(),
        ensures
            unused == import_entirely_unused(self.tree(), node_id as int),
    {
        match &self.tree.node_at(node_id).kind {
            NodeKind::ImportDeclaration { specifiers } => match specifiers {
                Some(list) => {
                    let mut i: usize = 0;
                    while i < list.len()
                        invariant
                            self.well_formed(),
                            node_id < self.tree().nodes().len(),
                            self.tree().nodes()[node_id as int].kind
                                == (NodeKind::ImportDeclaration { specifiers: Some(*list) }),
                            i <= list.len(),
                            forall|j: int|
                                0 <= j < i ==> ((#[trigger] list[j]) matches Some(s)
                                    && symbol_is_unused(self.tree(), s as int)),
                        decreases list.len() - i,
                    {
                        let bound_unused = match list[i] {
                            Some(symbol_id) => self.is_unused(symbol_id),
                            None => false,
                        };
                        if !bound_unused {
                            return false;
                        }
                        i += 1;
                    }
                    true
                },
                None => IMPORT_WITHOUT_SPECIFIERS_IS_UNUSED,
            },
            _ => false,
        }
    }
}

} // verus!
