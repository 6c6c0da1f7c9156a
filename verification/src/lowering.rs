//! Lowering outputs and diagnostics, the fixpoint driver over rewrite passes,
//! and the source-text helpers the rewrite rules share.
//!
//! The rewrite engine itself is not part of this library: parsing Python
//! source, walking its syntax tree to propose edits and diagnostics
//! (`lower_source`, the statement and expression collectors, the type facts
//! gathered from the tree, and the tree-reading half of `match` lowering)
//! rests on the ruff parser crates, which this library does not link.
//! What stands here is everything around a pass: the outputs and diagnostics
//! a pass reports, applying its edits, iterating passes to a fixpoint, and the
//! text helpers in `source_text` and `match_lower`. A lowering is handed to
//! `Transpiler::transpile` as a function by its caller.

use vstd::prelude::*;
use vstd::string::StringSliceAdditionalSpecFns;
use vstd::utf8::*;

use crate::edit::{apply_edits, edit_outcome, Edit, EditError};
use crate::text::{
    concat_str, lemma_utf8_concat, lemma_utf8_injective, push_all, push_range,
    string_from_valid_utf8, str_eq, utf8,
};

verus! {

broadcast use vstd::utf8::encode_utf8_valid_utf8, vstd::utf8::valid_utf8_concat;

/// The most rewrite passes one lowering may take before it is declared non-convergent.
pub const MAX_LOWERING_PASSES: usize = 128;

/// Whether the engine changed source or deliberately left a risky seam alone.
#[derive(Debug, Clone, Copy, PartialEq, Eq, Structural)]
pub enum DiagnosticDisposition {
    Applied,
    NeedsReview,
    NotLowerable,
}

/// One rule decision associated with a source byte range.
#[derive(Debug, Clone, PartialEq, Eq)]
pub struct LoweringDiagnostic {
    pub rule: String,
    pub disposition: DiagnosticDisposition,
    pub start: usize,
    pub end: usize,
    pub message: String,
}

/// Lowered Python source and the evidence-backed decisions that produced it.
#[derive(Debug, Clone, PartialEq, Eq)]
pub struct LoweringOutput {
    pub code: String,
    pub changed: bool,
    pub target_tag: String,
    pub diagnostics: Vec<LoweringDiagnostic>,
}

/// Parsing or edit-planning failure.
#[derive(Debug)]
pub enum LoweringError {
    Parse(String),
    Edit(EditError),
    NonConvergent { passes: usize },
    HelperInjection(String),
}

/// The diagnostics of a sequence that record applied rewrites.
pub open spec fn applied_only(diagnostics: Seq<LoweringDiagnostic>) -> Seq<LoweringDiagnostic> {
    diagnostics.filter(|d: LoweringDiagnostic| d.disposition == DiagnosticDisposition::Applied)
}

/// Repeated rewrite passes over one source, until a pass proposes no edit.
///
/// Every pass inspects the current code. A pass with edits contributes only its
/// applied diagnostics and rewrites the code; the first pass without edits
/// contributes all of its diagnostics and ends the lowering.
pub struct LoweringPasses {
    source: String,
    code: String,
    diagnostics: Vec<LoweringDiagnostic>,
    passes: usize,
    converged: bool,
}

impl LoweringPasses {
    pub closed spec fn source_text(&self) -> Seq<char> {
        self.source@
    }

    pub closed spec fn code_text(&self) -> Seq<char> {
        self.code@
    }

    pub closed spec fn collected(&self) -> Seq<LoweringDiagnostic> {
        self.diagnostics@
    }

    pub closed spec fn pass_count(&self) -> nat {
        self.passes as nat
    }

    pub closed spec fn is_converged(&self) -> bool {
        self.converged
    }

    /// Start lowering `source`.
    pub fn new(source: &str) -> (passes: LoweringPasses)
        ensures
            passes.source_text() == source@,
            passes.code_text() == source@,
            passes.collected() == Seq::<LoweringDiagnostic>::empty(),
            passes.pass_count() == 0,
            !passes.is_converged(),
    {
        LoweringPasses {
            source: source.to_owned(),
            code: source.to_owned(),
            diagnostics: Vec::new(),
            passes: 0,
            converged: false,
        }
    }

    /// The code the next pass inspects.
    pub fn code(&self) -> (code: &str)
        ensures
            code@ == self.code_text(),
    {
        self.code.as_str()
    }

    /// Whether a pass has found nothing left to rewrite.
    pub fn converged(&self) -> (done: bool)
        ensures
            done == self.is_converged(),
    {
        self.converged
    }

    /// Record one pass's proposed edits and diagnostics over the current code.
    pub fn record_pass(&mut self, edits: Vec<Edit>, diagnostics: Vec<LoweringDiagnostic>) -> (result:
        Result<(), LoweringError>)
        requires
            !old(self).is_converged(),
            old(self).pass_count() < MAX_LOWERING_PASSES,
        ensures
            final(self).source_text() == old(self).source_text(),
            final(self).pass_count() == old(self).pass_count() + 1,
            edits@.len() == 0 ==> result is Ok && final(self).is_converged()
                && final(self).code_text() == old(self).code_text()
                && final(self).collected() == old(self).collected() + diagnostics@,
            edits@.len() > 0 ==> match edit_outcome(utf8(old(self).code_text()), edits@) {
                Err(error) => result matches Err(LoweringError::Edit(e)) && e == error,
                Ok(bytes) => if final(self).pass_count() == MAX_LOWERING_PASSES {
                    result matches Err(LoweringError::NonConvergent { passes }) && passes
                        == MAX_LOWERING_PASSES
                } else {
                    result is Ok && !final(self).is_converged() && utf8(final(self).code_text())
                        == bytes && final(self).collected() == old(self).collected()
                        + applied_only(diagnostics@)
                },
            },
    {
        self.passes = self.passes + 1;
        if edits.len() == 0 {
            let ghost before = self.diagnostics@;
            let mut incoming = diagnostics;
            self.diagnostics.append(&mut incoming);
            self.converged = true;
            return Ok(());
        }
        let code = match apply_edits(self.code.as_str(), edits) {
            Ok(code) => code,
            Err(error) => return Err(LoweringError::Edit(error)),
        };
        if self.passes == MAX_LOWERING_PASSES {
            return Err(LoweringError::NonConvergent { passes: MAX_LOWERING_PASSES });
        }
        let ghost before = self.diagnostics@;
        let mut i: usize = 0;
        let ghost incoming = diagnostics@;
        let mut rest = diagnostics;
        let mut kept: Vec<LoweringDiagnostic> = Vec::new();
        while rest.len() > 0
            invariant
                kept@ + applied_only(rest@) == applied_only(incoming),
            decreases rest@.len(),
        {
            let ghost rest_before = rest@;
            let diagnostic = rest.remove(0);
            proof {
                assert(rest_before =~= seq![diagnostic] + rest@);
                lemma_filter_cons(diagnostic, rest@);
            }
            if diagnostic.disposition == DiagnosticDisposition::Applied {
                kept.push(diagnostic);
            }
        }
        assert(applied_only(rest@) =~= Seq::<LoweringDiagnostic>::empty());
        self.diagnostics.append(&mut kept);
        self.code = code;
        Ok(())
    }

    /// The lowering output once helpers are in place in `code`.
    pub fn finish(self, code: String, target_tag: &str) -> (output: LoweringOutput)
        ensures
            output.code@ == code@,
            output.changed == (code@ != self.source_text()),
            output.target_tag@ == target_tag@,
            output.diagnostics@ == self.collected(),
    {
        let changed = !str_eq(code.as_str(), self.source.as_str());
        LoweringOutput {
            code,
            changed,
            target_tag: target_tag.to_owned(),
            diagnostics: self.diagnostics,
        }
    }
}

proof fn lemma_filter_cons(head: LoweringDiagnostic, tail: Seq<LoweringDiagnostic>)
    ensures
        applied_only(seq![head] + tail) == if head.disposition == DiagnosticDisposition::Applied {
            seq![head] + applied_only(tail)
        } else {
            applied_only(tail)
        },
{
    tail.lemma_filter_prepend(head, |d: LoweringDiagnostic| d.disposition == DiagnosticDisposition::Applied);
    if head.disposition != DiagnosticDisposition::Applied {
        assert(Seq::<LoweringDiagnostic>::empty() + applied_only(tail) =~= applied_only(tail));
    }
}

} // verus!
