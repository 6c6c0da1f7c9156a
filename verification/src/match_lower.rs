//! The text side of lowering `match` statements: pattern plans and their
//! cross products, fresh temporaries, and the source spans of case bodies.

use vstd::prelude::*;
use vstd::string::StringSliceAdditionalSpecFns;
use vstd::utf8::*;

use crate::lines::{find_from, first_match_from};
use crate::release::{decimal_bytes, decimal_text};
use crate::source_text::{cuts, line_start_of, reindent_text, reindented_from};
use crate::text::{concat_str, first_byte_from, has_prefix_at, str_range, utf8};

verus! {

broadcast use vstd::utf8::encode_utf8_valid_utf8, vstd::utf8::encode_utf8_decode_utf8;

/// The most alternatives that or-patterns may expand to.
pub const MAX_PATTERN_ALTERNATIVES: usize = 256;

/// Why a `match` statement could not be lowered.
#[derive(Debug, Clone, Copy, PartialEq, Eq, Structural)]
pub enum MatchLowerError {
    InvalidSourceRange { start: usize, end: usize },
    EmptyCaseBody,
    GeneratedNameExhausted,
    TooManyPatternAlternatives { limit: usize },
}

/// A condition under which a pattern matches, with the names it binds.
#[derive(Debug)]
pub struct PatternPlan {
    pub condition: String,
    pub bindings: Vec<String>,
}

/// A plan as texts.
pub open spec fn plan_view(plan: PatternPlan) -> (Seq<char>, Seq<Seq<char>>) {
    (plan.condition@, plan.bindings@.map_values(|name: String| name@))
}

/// Two plans that must both hold: the conjunction of their conditions, and
/// the bindings of the first followed by those of the second.
pub open spec fn combined_view(
    first: (Seq<char>, Seq<Seq<char>>),
    second: (Seq<char>, Seq<Seq<char>>),
) -> (Seq<char>, Seq<Seq<char>>) {
    ("("@ + first.0 + ") and ("@ + second.0 + ")"@, first.1 + second.1)
}

fn copy_names(names: &Vec<String>) -> (copy: Vec<String>)
    ensures
        copy@.map_values(|name: String| name@) == names@.map_values(|name: String| name@),
{
    let mut copy: Vec<String> = Vec::new();
    let mut i: usize = 0;
    while i < names.len()
        invariant
            i <= names@.len(),
            copy@.map_values(|name: String| name@) == names@.take(i as int).map_values(|name: String| name@),
        decreases names@.len() - i,
    {
        copy.push(names[i].clone());
        proof {
            assert(names@.take(i + 1).map_values(|name: String| name@) =~= names@.take(i as int).map_values(
                |name: String| name@,
            ).push(names@[i as int]@));
        }
        i = i + 1;
    }
    assert(names@.take(names@.len() as int) =~= names@);
    copy
}

impl PatternPlan {
    /// The plan of a pattern that always matches and binds nothing.
    pub fn always() -> (plan: PatternPlan)
        ensures
            plan.condition@ == "True"@,
            plan.bindings@.len() == 0,
    {
        PatternPlan { condition: "True".to_owned(), bindings: Vec::new() }
    }

    /// The plan that holds when both plans hold.
    pub fn combine(self, other: PatternPlan) -> (plan: PatternPlan)
        ensures
            plan_view(plan) == combined_view(plan_view(self), plan_view(other)),
    {
        let head = concat_str("(", self.condition.as_str());
        let head = concat_str(head.as_str(), ") and (");
        let head = concat_str(head.as_str(), other.condition.as_str());
        let condition = concat_str(head.as_str(), ")");
        let mut bindings = self.bindings;
        let mut rest = other.bindings;
        let ghost first = bindings@;
        let ghost second = rest@;
        bindings.append(&mut rest);
        proof {
            assert(bindings@.map_values(|name: String| name@) =~= first.map_values(|name: String| name@)
                + second.map_values(|name: String| name@));
        }
        PatternPlan { condition, bindings }
    }

    fn copy(&self) -> (plan: PatternPlan)
        ensures
            plan_view(plan) == plan_view(*self),
    {
        PatternPlan { condition: self.condition.clone(), bindings: copy_names(&self.bindings) }
    }
}

/// Every plan of `left` combined with every plan of `right`, left-major.
pub open spec fn cross(
    left: Seq<(Seq<char>, Seq<Seq<char>>)>,
    right: Seq<(Seq<char>, Seq<Seq<char>>)>,
) -> Seq<(Seq<char>, Seq<Seq<char>>)>
    decreases left.len(),
{
    if left.len() == 0 {
        Seq::empty()
    } else {
        cross(left.drop_last(), right) + right.map_values(
            |plan: (Seq<char>, Seq<Seq<char>>)| combined_view(left.last(), plan),
        )
    }
}

/// The plans as texts.
pub open spec fn plan_views(plans: Seq<PatternPlan>) -> Seq<(Seq<char>, Seq<Seq<char>>)> {
    plans.map_values(|plan: PatternPlan| plan_view(plan))
}

/// Combine two sets of alternative plans into every pairing of them,
/// refusing more than `MAX_PATTERN_ALTERNATIVES` alternatives.
pub fn combine_plan_sets(left: Vec<PatternPlan>, right: Vec<PatternPlan>) -> (combined: Result<
    Vec<PatternPlan>,
    MatchLowerError,
>)
    ensures
        combined is Ok <==> left@.len() * right@.len() <= MAX_PATTERN_ALTERNATIVES,
        combined matches Ok(plans) ==> plan_views(plans@) == cross(plan_views(left@), plan_views(right@)),
        combined matches Err(error) ==> error == (MatchLowerError::TooManyPatternAlternatives {
            limit: MAX_PATTERN_ALTERNATIVES,
        }),
{
    let l = left.len() as u128;
    let r = right.len() as u128;
    assert(l * r < 0x1_0000_0000_0000_0000_0000_0000_0000_0000) by (nonlinear_arith)
        requires
            l < 0x1_0000_0000_0000_0000,
            r < 0x1_0000_0000_0000_0000,
    ;
    if l * r > MAX_PATTERN_ALTERNATIVES as u128 {
        return Err(MatchLowerError::TooManyPatternAlternatives { limit: MAX_PATTERN_ALTERNATIVES });
    }
    let ghost lv = plan_views(left@);
    let ghost rv = plan_views(right@);
    let mut combined: Vec<PatternPlan> = Vec::new();
    let mut i: usize = 0;
    assert(plan_views(combined@) =~= cross(lv.take(0), rv));
    while i < left.len()
        invariant
            i <= left@.len(),
            lv == plan_views(left@),
            rv == plan_views(right@),
            plan_views(combined@) == cross(lv.take(i as int), rv),
        decreases left@.len() - i,
    {
        let ghost before = plan_views(combined@);
        let mut j: usize = 0;
        while j < right.len()
            invariant
                i < left@.len(),
                j <= right@.len(),
                lv == plan_views(left@),
                rv == plan_views(right@),
                plan_views(combined@) == before + rv.take(j as int).map_values(
                    |plan: (Seq<char>, Seq<Seq<char>>)| combined_view(lv[i as int], plan),
                ),
            decreases right@.len() - j,
        {
            let plan = left[i].copy().combine(right[j].copy());
            let ghost prior = combined@;
            combined.push(plan);
            proof {
                assert(plan_views(combined@) =~= plan_views(prior).push(plan_view(plan)));
                assert(rv.take(j + 1).map_values(|p: (Seq<char>, Seq<Seq<char>>)| combined_view(lv[i as int], p))
                    =~= rv.take(j as int).map_values(
                    |p: (Seq<char>, Seq<Seq<char>>)| combined_view(lv[i as int], p),
                ).push(combined_view(lv[i as int], rv[j as int])));
            }
            j = j + 1;
        }
        proof {
            assert(rv.take(rv.len() as int) =~= rv);
            assert(lv.take(i + 1).drop_last() =~= lv.take(i as int));
            assert(lv.take(i + 1).last() == lv[i as int]);
        }
        i = i + 1;
    }
    assert(lv.take(lv.len() as int) =~= lv);
    Ok(combined)
}

/// The source text `start..end`, when both ends cut the source in order.
pub fn source_slice(source: &str, start: usize, end: usize) -> (slice: Result<&str, MatchLowerError>)
    ensures
        slice is Ok <==> start <= end && cuts(source.spec_bytes(), start as int) && cuts(
            source.spec_bytes(),
            end as int,
        ),
        slice matches Ok(text) ==> text.spec_bytes() == source.spec_bytes().subrange(start as int, end as int),
        slice matches Err(error) ==> error == (MatchLowerError::InvalidSourceRange { start, end }),
{
    let n = source.as_bytes().len();
    if start > end || end > n || !source.is_char_boundary(start) || !source.is_char_boundary(end) {
        return Err(MatchLowerError::InvalidSourceRange { start, end });
    }
    Ok(str_range(source, start, end))
}

/// Where the line holding `offset` starts; an error when `offset` does not cut the source.
pub fn line_start(source: &str, offset: usize) -> (start: Result<usize, MatchLowerError>)
    ensures
        start is Ok <==> cuts(source.spec_bytes(), offset as int),
        start matches Ok(s) ==> s == line_start_of(source.spec_bytes(), offset as int),
        start matches Err(error) ==> error == (MatchLowerError::InvalidSourceRange { start: 0, end: offset }),
{
    match crate::source_text::line_start(source, offset) {
        Some(start) => Ok(start),
        None => Err(MatchLowerError::InvalidSourceRange { start: 0, end: offset }),
    }
}

/// Where the line holding `offset` ends, newline included; an error when
/// `offset` does not cut the source.
pub fn line_end_including_newline(source: &str, offset: usize) -> (end: Result<usize, MatchLowerError>)
    ensures
        end is Ok <==> cuts(source.spec_bytes(), offset as int),
        end matches Ok(e) ==> e == match first_byte_from(source.spec_bytes(), offset as int, 0x0a) {
            Some(i) => i + 1,
            None => source.spec_bytes().len() as int,
        },
        end matches Err(error) ==> error == (MatchLowerError::InvalidSourceRange {
            start: offset,
            end: source.spec_bytes().len() as usize,
        }),
{
    match crate::source_text::line_end_including_newline(source, offset) {
        Some(end) => Ok(end),
        None => Err(MatchLowerError::InvalidSourceRange { start: offset, end: source.as_bytes().len() }),
    }
}


/// The UTF-8 bytes of the temporary name for `role` with number `n`.
pub open spec fn candidate_name(role: Seq<char>, n: nat) -> Seq<u8> {
    utf8("_monty_compat_match_"@ + role + "_"@) + decimal_bytes(n)
}

/// Whether `needle` occurs anywhere in `haystack`.
pub open spec fn occurs(haystack: Seq<u8>, needle: Seq<u8>) -> bool {
    first_match_from(haystack, 0, needle) is Some
}

/// The first number from `counter` on, within `tries` attempts, whose name
/// does not occur in the source; a counter that would overflow ends the search.
pub open spec fn first_free(source: Seq<u8>, role: Seq<char>, counter: int, tries: int) -> Option<int>
    decreases tries,
{
    if tries <= 0 || counter < 0 || counter >= usize::MAX {
        None
    } else if !occurs(source, candidate_name(role, counter as nat)) {
        Some(counter)
    } else {
        first_free(source, role, counter + 1, tries - 1)
    }
}

/// Hands out temporary names that do not occur in a source.
pub struct PatternCompiler<'a> {
    source: &'a str,
    counter: usize,
}

impl<'a> PatternCompiler<'a> {
    pub closed spec fn text(&self) -> Seq<u8> {
        self.source.spec_bytes()
    }

    /// The number the next temporary name tries first.
    pub closed spec fn next_number(&self) -> usize {
        self.counter
    }

    pub fn new(source: &'a str) -> (compiler: PatternCompiler<'a>)
        ensures
            compiler.text() == source.spec_bytes(),
            compiler.next_number() == 0,
    {
        PatternCompiler { source, counter: 0 }
    }

    /// A temporary name for `role` that the source does not contain, trying
    /// one number after another, at most once per source byte plus one.
    pub fn fresh_name(&mut self, role: &str) -> (name: Result<String, MatchLowerError>)
        ensures
            final(self).text() == old(self).text(),
            match first_free(
                old(self).text(),
                role@,
                old(self).next_number() as int,
                old(self).text().len() + 1int,
            ) {
                Some(k) => name matches Ok(n) && utf8(n@) == candidate_name(role@, k as nat)
                    && final(self).next_number() == k + 1,
                None => name == Err::<String, MatchLowerError>(MatchLowerError::GeneratedNameExhausted),
            },
    {
        let head = concat_str("_monty_compat_match_", role);
        let head = concat_str(head.as_str(), "_");
        let bytes = self.source.as_bytes();
        let n = bytes.len();
        let ghost text = self.text();
        let ghost start = self.counter as int;
        let mut i: usize = 0;
        loop
            invariant
                i <= n,
                n == text.len(),
                bytes@ == text,
                self.text() == text,
                text == old(self).text(),
                start == old(self).next_number() as int,
                self.counter == start + i,
                head@ == "_monty_compat_match_"@ + role@ + "_"@,
                first_free(text, role@, start, n + 1int) == first_free(text, role@, self.counter as int, n + 1 - i),
            decreases n - i,
        {
            let digits = decimal_text(self.counter as u64);
            let name = concat_str(head.as_str(), digits.as_str());
            proof {
                crate::text::lemma_utf8_concat(head@, digits@);
                assert(utf8(name@) == candidate_name(role@, self.counter as nat));
                reveal_strlit("_monty_compat_match_");
                assert(utf8(name@).len() > 0) by {
                    crate::text::lemma_utf8_concat("_monty_compat_match_"@, role@ + "_"@);
                }
            }
            if self.counter == usize::MAX {
                return Err(MatchLowerError::GeneratedNameExhausted);
            }
            self.counter = self.counter + 1;
            if find_from(bytes, 0, name.as_str().as_bytes()).is_none() {
                return Ok(name);
            }
            if i == n {
                assert(first_free(text, role@, self.counter as int, 0) is None);
                return Err(MatchLowerError::GeneratedNameExhausted);
            }
            i = i + 1;
        }
    }
}

/// The source span of a case body and the indentation in front of it, or
/// why there is none. `body` holds where the body's first statement (with
/// its decorators) begins and where its last statement ends.
pub open spec fn suite_parts(bytes: Seq<u8>, body: Option<(usize, usize)>) -> Result<(int, int, int), MatchLowerError> {
    match body {
        None => Err(MatchLowerError::EmptyCaseBody),
        Some((first_start, last_end)) => if !cuts(bytes, first_start as int) {
            Err(MatchLowerError::InvalidSourceRange { start: 0, end: first_start })
        } else if !cuts(bytes, last_end as int) {
            Err(MatchLowerError::InvalidSourceRange { start: last_end, end: bytes.len() as usize })
        } else {
            let start = line_start_of(bytes, first_start as int);
            let end = match first_byte_from(bytes, last_end as int, 0x0a) {
                Some(i) => i + 1,
                None => bytes.len() as int,
            };
            if start > end {
                Err(MatchLowerError::InvalidSourceRange { start: start as usize, end: end as usize })
            } else {
                Ok((start, first_start as int, end))
            }
        },
    }
}

/// The source of a case body moved to `new_indent`.
pub fn suite_source(source: &str, body: Option<(usize, usize)>, new_indent: &str) -> (text: Result<
    String,
    MatchLowerError,
>)
    ensures
        match suite_parts(source.spec_bytes(), body) {
            Ok((start, first, end)) => text matches Ok(t) && utf8(t@) == reindented_from(
                source.spec_bytes().subrange(start, end),
                0,
                decode_utf8(source.spec_bytes().subrange(start, first)),
                new_indent@,
            ),
            Err(error) => text == Err::<String, MatchLowerError>(error),
        },
{
    let (first_start, last_end) = match body {
        Some(span) => span,
        None => return Err(MatchLowerError::EmptyCaseBody),
    };
    let start = line_start(source, first_start)?;
    let end = line_end_including_newline(source, last_end)?;
    let ghost bytes = source.spec_bytes();
    proof {
        crate::source_text::lemma_line_start_cuts(bytes, first_start as int);
        crate::text::lemma_first_byte_found(bytes, last_end as int, 0x0a);
        match first_byte_from(bytes, last_end as int, 0x0a) {
            Some(i) => {
                crate::text::lemma_ascii_is_boundary(bytes, i);
                crate::text::lemma_boundary_after_ascii(bytes, i);
            },
            None => {
                vstd::utf8::is_char_boundary_start_end_of_seq(bytes);
            },
        }
    }
    let old_indent = source_slice(source, start, first_start)?;
    let block = source_slice(source, start, end)?;
    Ok(reindent_text(block, old_indent, new_indent))
}

} // verus!
