//! Which symbols of a file are unused.

use vstd::prelude::*;
use crate::syntax::{Node, SyntaxTree};

verus! {

/// The name that every function body binds to its argument list.
pub const ARGUMENTS: &'static str = "arguments";

/// The name that every function body binds to its receiver.
pub const THIS: &'static str = "this";

/// True of the names that the language binds by itself. A symbol of such a
/// name is never reported, whether or not anything refers to it.
pub open spec fn is_reserved_name(name: Seq<char>) -> bool {
    name == ARGUMENTS@ || name == THIS@
}

/// True where the node `id` or a node above it is an export declaration.
pub open spec fn has_export_ancestor(nodes: Seq<Node>, id: int) -> bool
    decreases id,
{
    if 0 <= id < nodes.len() {
        nodes[id].kind.is_export() || (nodes[id].parent matches Some(p) && p < id
            && has_export_ancestor(nodes, p as int))
    } else {
        false
    }
}

/// The node that lies `steps` parent links above the node `id`, where the
/// tree reaches that far up.
pub open spec fn ancestor(nodes: Seq<Node>, id: int, steps: nat) -> Option<int>
    decreases steps,
{
    if !(0 <= id < nodes.len()) {
        None
    } else if steps == 0 {
        Some(id)
    } else {
        match nodes[id].parent {
            Some(p) => ancestor(nodes, p as int, (steps - 1) as nat),
            None => None,
        }
    }
}

/// True of the symbols that are unused: those that exist, bear no reserved
/// name, are referred to nowhere, and are declared neither at nor below an
/// export declaration.
pub open spec fn symbol_is_unused(tree: SyntaxTree, symbol: int) -> bool {
    &&& 0 <= symbol < tree.symbols().len()
    &&& !is_reserved_name(tree.symbols()[symbol].name@)
    &&& tree.symbols()[symbol].references@.len() == 0
    &&& !has_export_ancestor(tree.nodes(), tree.symbols()[symbol].declaration as int)
}

/// The unused symbols of a file.
pub open spec fn unused_symbols(tree: SyntaxTree) -> Set<int> {
    Set::new(|symbol: int| symbol_is_unused(tree, symbol))
}

/// A node has an export declaration at or above it exactly where walking up
/// its parent links comes upon one.
pub proof fn lemma_export_ancestor_is_reached(tree: SyntaxTree, id: int)
    requires
        tree.well_formed(),
    ensures
        has_export_ancestor(tree.nodes(), id) <==> exists|steps: nat|
            (#[trigger] ancestor(tree.nodes(), id, steps)) matches Some(a)
                && tree.nodes()[a].kind.is_export(),
    decreases id,
{
    let nodes = tree.nodes();
    if 0 <= id < nodes.len() {
        if let Some(p) = nodes[id].parent {
            lemma_export_ancestor_is_reached(tree, p as int);
        }
        if has_export_ancestor(nodes, id) {
            if nodes[id].kind.is_export() {
                assert(ancestor(nodes, id, 0) == Some(id));
            } else {
                let p = nodes[id].parent->Some_0 as int;
                let steps = choose|steps: nat|
                    (#[trigger] ancestor(nodes, p, steps)) matches Some(a)
                        && nodes[a].kind.is_export();
                assert(ancestor(nodes, id, steps + 1) == ancestor(nodes, p, steps));
            }
        }
        if exists|steps: nat|
            (#[trigger] ancestor(nodes, id, steps)) matches Some(a) && nodes[a].kind.is_export() {
            let steps = choose|steps: nat|
                (#[trigger] ancestor(nodes, id, steps)) matches Some(a)
                    && nodes[a].kind.is_export();
            if steps > 0 {
                let p = nodes[id].parent->Some_0 as int;
                assert(ancestor(nodes, id, steps) == ancestor(nodes, p, (steps - 1) as nat));
            }
        }
    } else {
        assert forall|steps: nat| (#[trigger] ancestor(nodes, id, steps)) is None by {}
    }
}

/// A symbol whose declaration lies at or below an export declaration is
/// never unused, however few references it has.
pub proof fn lemma_exported_symbol_is_kept(tree: SyntaxTree, symbol: int, steps: nat)
    requires
        tree.well_formed(),
        0 <= symbol < tree.symbols().len(),
        ancestor(
            tree.nodes(),
            tree.symbols()[symbol].declaration as int,
            steps,
        ) matches Some(a) && tree.nodes()[a].kind.is_export(),
    ensures
        !symbol_is_unused(tree, symbol),
{
    lemma_export_ancestor_is_reached(tree, tree.symbols()[symbol].declaration as int);
}

/// A symbol named `arguments` or `this` is never unused, even where nothing
/// refers to it.
pub proof fn lemma_reserved_symbol_is_kept(tree: SyntaxTree, symbol: int)
    requires
        0 <= symbol < tree.symbols().len(),
        tree.symbols()[symbol].name@ == "arguments"@ || tree.symbols()[symbol].name@
            == "this"@,
    ensures
        !symbol_is_unused(tree, symbol),
{
}

} // verus!
