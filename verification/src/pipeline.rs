//! The pass over one file.

use vstd::prelude::*;
use vstd::string::StringSliceAdditionalSpecFns;
use vstd::utf8::encode_utf8;
use crate::analyzer::UnusedDeclarationAnalyzer;
use crate::merger::{is_removal_order, removal_order};
use crate::patcher::{apply_modifications, removable, removed_ranges, text_without};
use crate::span::Span;
use crate::frontend::{is_parse_of, language_of, parse_source, program_of, ParseResult};

verus! {

/// What to do with a file after the pass over it.
#[derive(Debug)]
pub enum FileOutcome {
    /// The file did not parse. It is left as it is, and each diagnostic is
    /// to be reported.
    ParseFailed { diagnostics: Vec<String> },
    /// Nothing in the file is unused. It is left as it is.
    Unchanged,
    /// The file is to be written anew with this text; `removed` lists the
    /// ranges that were cut out of it, in the order in which they were cut.
    Rewritten { text: String, removed: Vec<Span> },
    /// The ranges to remove reach into one another, or do not fit the text.
    /// The file is left as it is.
    Conflict,
}

/// True where `outcome` is what the pass over a file comes to, given its
/// text and what the front end made of it.
///
/// A file that did not parse is left as it is, and its diagnostics are
/// handed on. A file in which nothing is unused is left as it is. Otherwise
/// the ranges of the unused declarations are widened and cut out of the
/// text; where they cannot be, because they reach into one another or do not
/// fit the text, the file is left as it is.
pub open spec fn is_outcome_of(text: Seq<u8>, parsed: ParseResult, outcome: FileOutcome) -> bool {
    match parsed {
        ParseResult::Failed { diagnostics } => outcome == (FileOutcome::ParseFailed {
            diagnostics,
        }),
        ParseResult::Parsed { tree } => {
            let spans = removal_order(tree);
            &&& is_removal_order(tree, spans)
            &&& if spans.len() == 0 {
                outcome is Unchanged
            } else if removable(text, spans) {
                outcome matches FileOutcome::Rewritten { text: patched, removed }
                    && encode_utf8(patched@) == text_without(text, spans) && removed@
                    == removed_ranges(text, spans)
            } else {
                outcome is Conflict
            }
        },
    }
}

/// Finds the unused declarations of a parsed file and removes them from its
/// text.
pub fn process_parsed(source: &str, parsed: ParseResult) -> (outcome: FileOutcome)
    ensures
        is_outcome_of(source.spec_bytes(), parsed, outcome),
{
    match parsed {
        ParseResult::Failed { diagnostics } => FileOutcome::ParseFailed { diagnostics },
        ParseResult::Parsed { tree } => {
            let analyzer = UnusedDeclarationAnalyzer::new(&tree);
            let unused_spans = analyzer.find_unused_spans();
            if unused_spans.len() == 0 {
                return FileOutcome::Unchanged;
            }
            match apply_modifications(source, &unused_spans) {
                Some(patch) => FileOutcome::Rewritten { text: patch.text, removed: patch.removed },
                None => FileOutcome::Conflict,
            }
        },
    }
}

/// Finds the unused declarations of the file named `file_name`, whose text
/// is `source`, and removes them from the text. The outcome is what the pass
/// comes to for what the front end makes of the text, parsed in an arena of
/// its own and in the language that the name of the file tells.
pub fn process_file(source: &str, file_name: &str) -> (outcome: FileOutcome)
    ensures
        exists|allocator: oxc_allocator::Allocator, parsed: ParseResult|
            #![trigger is_parse_of(parsed, program_of(allocator, source@, language_of(file_name@)))]
            is_parse_of(parsed, program_of(allocator, source@, language_of(file_name@)))
                && is_outcome_of(source.spec_bytes(), parsed, outcome),
{
    let parsed = parse_source(source, file_name);
    let ghost made = parsed;
    let outcome = process_parsed(source, parsed);
    proof {
        let allocator = choose|allocator: oxc_allocator::Allocator| #[trigger]
            is_parse_of(made, program_of(allocator, source@, language_of(file_name@)));
        assert(is_parse_of(made, program_of(allocator, source@, language_of(file_name@)))
            && is_outcome_of(source.spec_bytes(), made, outcome));
    }
    outcome
}

} // verus!
