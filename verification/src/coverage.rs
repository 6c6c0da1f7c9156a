//! The audited lowering coverage of every feature a Monty release does not support.

use vstd::prelude::*;

verus! {

/// The strongest guarantee the lowering engine can make for a discovered seam.
#[derive(Debug, Clone, Copy, PartialEq, Eq, Structural)]
pub enum LoweringAvailability {
    /// Every occurrence represented by the feature has a semantics-preserving rewrite.
    Automatic,
    /// A rewrite exists when conservative static preconditions can be proven.
    Contextual,
    /// Monty's supported surface cannot express the required observable semantics.
    NotLowerable,
}

/// Auditable coverage for one behavioral capability feature.
#[derive(Debug, Clone, Copy, PartialEq, Eq)]
pub struct FeatureLowering {
    pub feature: &'static str,
    pub availability: LoweringAvailability,
}

/// One coverage entry as plain values.
pub open spec fn entry_view(entry: FeatureLowering) -> (Seq<char>, LoweringAvailability) {
    (entry.feature@, entry.availability)
}

/// The release-audited coverage table, in ascending feature order.
///
/// `NotLowerable` is deliberate: a diagnostic is preferable to code with
/// observably different Python semantics.
pub open spec fn coverage_table() -> Seq<FeatureLowering> {
    seq![
        FeatureLowering { feature: "async.for", availability: LoweringAvailability::NotLowerable },
        FeatureLowering { feature: "async.gather_return_exceptions", availability: LoweringAvailability::Contextual },
        FeatureLowering { feature: "async.with", availability: LoweringAvailability::Contextual },
        FeatureLowering { feature: "builtin.bytes_iterable", availability: LoweringAvailability::Contextual },
        FeatureLowering { feature: "builtin.enumerate_lazy", availability: LoweringAvailability::Contextual },
        FeatureLowering { feature: "builtin.filter_lazy", availability: LoweringAvailability::Contextual },
        FeatureLowering { feature: "builtin.int_unicode_decimal", availability: LoweringAvailability::Contextual },
        FeatureLowering { feature: "builtin.iter_callable_stop_iteration", availability: LoweringAvailability::Contextual },
        FeatureLowering { feature: "builtin.map_lazy", availability: LoweringAvailability::Contextual },
        FeatureLowering { feature: "builtin.zip_lazy", availability: LoweringAvailability::Contextual },
        FeatureLowering { feature: "class.assign_name", availability: LoweringAvailability::Contextual },
        FeatureLowering { feature: "class.assign_object_class", availability: LoweringAvailability::NotLowerable },
        FeatureLowering { feature: "class.body_comprehension_scope", availability: LoweringAvailability::Contextual },
        FeatureLowering { feature: "class.body_if", availability: LoweringAvailability::Contextual },
        FeatureLowering { feature: "class.body_tuple_assignment", availability: LoweringAvailability::Contextual },
        FeatureLowering { feature: "class.bound_method_equality", availability: LoweringAvailability::Contextual },
        FeatureLowering { feature: "class.bound_method_type", availability: LoweringAvailability::Contextual },
        FeatureLowering { feature: "class.classmethod", availability: LoweringAvailability::Contextual },
        FeatureLowering { feature: "class.default_repr_qualified", availability: LoweringAvailability::Contextual },
        FeatureLowering { feature: "class.getattr_hook", availability: LoweringAvailability::Contextual },
        FeatureLowering { feature: "class.inheritance", availability: LoweringAvailability::Contextual },
        FeatureLowering { feature: "class.isinstance_type", availability: LoweringAvailability::Contextual },
        FeatureLowering { feature: "class.nested_class", availability: LoweringAvailability::Contextual },
        FeatureLowering { feature: "class.private_name_mangling", availability: LoweringAvailability::Contextual },
        FeatureLowering { feature: "class.property", availability: LoweringAvailability::Contextual },
        FeatureLowering { feature: "class.setattr_hook", availability: LoweringAvailability::Contextual },
        FeatureLowering { feature: "class.staticmethod", availability: LoweringAvailability::Contextual },
        FeatureLowering { feature: "class.super", availability: LoweringAvailability::Contextual },
        FeatureLowering { feature: "class.type_identity", availability: LoweringAvailability::Contextual },
        FeatureLowering { feature: "comprehension.generator_lazy", availability: LoweringAvailability::Contextual },
        FeatureLowering { feature: "comprehension.generator_type", availability: LoweringAvailability::NotLowerable },
        FeatureLowering { feature: "dataclass.basic", availability: LoweringAvailability::Contextual },
        FeatureLowering { feature: "exception.assert_message", availability: LoweringAvailability::Automatic },
        FeatureLowering { feature: "exception.explicit_cause", availability: LoweringAvailability::NotLowerable },
        FeatureLowering { feature: "expression.ellipsis", availability: LoweringAvailability::Contextual },
        FeatureLowering { feature: "format.percent_string", availability: LoweringAvailability::Contextual },
        FeatureLowering { feature: "format.str_format", availability: LoweringAvailability::Contextual },
        FeatureLowering { feature: "fstring.custom_format", availability: LoweringAvailability::Contextual },
        FeatureLowering { feature: "fstring.invalid_static_spec_dead_code", availability: LoweringAvailability::Contextual },
        FeatureLowering { feature: "fstring.user_class_spec", availability: LoweringAvailability::Contextual },
        FeatureLowering { feature: "function.closure_late_binding", availability: LoweringAvailability::Contextual },
        FeatureLowering { feature: "match.class", availability: LoweringAvailability::Contextual },
        FeatureLowering { feature: "match.guard", availability: LoweringAvailability::Contextual },
        FeatureLowering { feature: "match.literal", availability: LoweringAvailability::Contextual },
        FeatureLowering { feature: "match.mapping", availability: LoweringAvailability::Contextual },
        FeatureLowering { feature: "match.or", availability: LoweringAvailability::Contextual },
        FeatureLowering { feature: "match.sequence", availability: LoweringAvailability::Contextual },
        FeatureLowering { feature: "operator.dict_union", availability: LoweringAvailability::Automatic },
        FeatureLowering { feature: "operator.nan_shared_sequence", availability: LoweringAvailability::Contextual },
        FeatureLowering { feature: "protocol.add", availability: LoweringAvailability::Contextual },
        FeatureLowering { feature: "protocol.binary.bitand", availability: LoweringAvailability::Contextual },
        FeatureLowering { feature: "protocol.binary.bitor", availability: LoweringAvailability::Contextual },
        FeatureLowering { feature: "protocol.binary.bitxor", availability: LoweringAvailability::Contextual },
        FeatureLowering { feature: "protocol.binary.floordiv", availability: LoweringAvailability::Contextual },
        FeatureLowering { feature: "protocol.binary.lshift", availability: LoweringAvailability::Contextual },
        FeatureLowering { feature: "protocol.binary.matmul", availability: LoweringAvailability::Contextual },
        FeatureLowering { feature: "protocol.binary.mod", availability: LoweringAvailability::Contextual },
        FeatureLowering { feature: "protocol.binary.mul", availability: LoweringAvailability::Contextual },
        FeatureLowering { feature: "protocol.binary.pow", availability: LoweringAvailability::Contextual },
        FeatureLowering { feature: "protocol.binary.rshift", availability: LoweringAvailability::Contextual },
        FeatureLowering { feature: "protocol.binary.sub", availability: LoweringAvailability::Contextual },
        FeatureLowering { feature: "protocol.binary.truediv", availability: LoweringAvailability::Contextual },
        FeatureLowering { feature: "protocol.callable", availability: LoweringAvailability::Contextual },
        FeatureLowering { feature: "protocol.contains", availability: LoweringAvailability::Contextual },
        FeatureLowering { feature: "protocol.conversion.float", availability: LoweringAvailability::NotLowerable },
        FeatureLowering { feature: "protocol.conversion.index", availability: LoweringAvailability::NotLowerable },
        FeatureLowering { feature: "protocol.conversion.int", availability: LoweringAvailability::NotLowerable },
        FeatureLowering { feature: "protocol.equality", availability: LoweringAvailability::Contextual },
        FeatureLowering { feature: "protocol.getitem", availability: LoweringAvailability::Contextual },
        FeatureLowering { feature: "protocol.hash", availability: LoweringAvailability::Contextual },
        FeatureLowering { feature: "protocol.iterator", availability: LoweringAvailability::Contextual },
        FeatureLowering { feature: "protocol.length", availability: LoweringAvailability::Contextual },
        FeatureLowering { feature: "protocol.ordering", availability: LoweringAvailability::Contextual },
        FeatureLowering { feature: "protocol.reflected.add", availability: LoweringAvailability::NotLowerable },
        FeatureLowering { feature: "protocol.reflected.bitand", availability: LoweringAvailability::NotLowerable },
        FeatureLowering { feature: "protocol.reflected.bitor", availability: LoweringAvailability::NotLowerable },
        FeatureLowering { feature: "protocol.reflected.bitxor", availability: LoweringAvailability::NotLowerable },
        FeatureLowering { feature: "protocol.reflected.floordiv", availability: LoweringAvailability::NotLowerable },
        FeatureLowering { feature: "protocol.reflected.lshift", availability: LoweringAvailability::NotLowerable },
        FeatureLowering { feature: "protocol.reflected.matmul", availability: LoweringAvailability::NotLowerable },
        FeatureLowering { feature: "protocol.reflected.mod", availability: LoweringAvailability::NotLowerable },
        FeatureLowering { feature: "protocol.reflected.mul", availability: LoweringAvailability::NotLowerable },
        FeatureLowering { feature: "protocol.reflected.pow", availability: LoweringAvailability::NotLowerable },
        FeatureLowering { feature: "protocol.reflected.rshift", availability: LoweringAvailability::NotLowerable },
        FeatureLowering { feature: "protocol.reflected.sub", availability: LoweringAvailability::NotLowerable },
        FeatureLowering { feature: "protocol.reflected.truediv", availability: LoweringAvailability::NotLowerable },
        FeatureLowering { feature: "protocol.reversed", availability: LoweringAvailability::Contextual },
        FeatureLowering { feature: "protocol.round", availability: LoweringAvailability::Contextual },
        FeatureLowering { feature: "protocol.setitem", availability: LoweringAvailability::Contextual },
        FeatureLowering { feature: "protocol.truthiness", availability: LoweringAvailability::Contextual },
        FeatureLowering { feature: "protocol.unary.invert", availability: LoweringAvailability::Contextual },
        FeatureLowering { feature: "protocol.unary.neg", availability: LoweringAvailability::Contextual },
        FeatureLowering { feature: "protocol.unary.pos", availability: LoweringAvailability::Contextual },
        FeatureLowering { feature: "statement.delete", availability: LoweringAvailability::Contextual },
        FeatureLowering { feature: "statement.delete_attribute", availability: LoweringAvailability::NotLowerable },
        FeatureLowering { feature: "statement.delete_name", availability: LoweringAvailability::NotLowerable },
        FeatureLowering { feature: "statement.for_attribute_target", availability: LoweringAvailability::Automatic },
        FeatureLowering { feature: "statement.for_subscript_target", availability: LoweringAvailability::Automatic },
        FeatureLowering { feature: "statement.function_decorator", availability: LoweringAvailability::Contextual },
        FeatureLowering { feature: "statement.generator", availability: LoweringAvailability::NotLowerable },
        FeatureLowering { feature: "statement.raise_from", availability: LoweringAvailability::NotLowerable },
        FeatureLowering { feature: "statement.try_star", availability: LoweringAvailability::NotLowerable },
        FeatureLowering { feature: "statement.yield_from", availability: LoweringAvailability::NotLowerable },
        FeatureLowering { feature: "with.attribute_target", availability: LoweringAvailability::Contextual },
        FeatureLowering { feature: "with.empty_list_target", availability: LoweringAvailability::Contextual },
        FeatureLowering { feature: "with.empty_tuple_target", availability: LoweringAvailability::Contextual },
        FeatureLowering { feature: "with.exception_arguments", availability: LoweringAvailability::NotLowerable },
        FeatureLowering { feature: "with.exit_bound_once", availability: LoweringAvailability::Contextual },
        FeatureLowering { feature: "with.subscript_target", availability: LoweringAvailability::Contextual },
    ]
}

/// The immutable, release-audited lowering coverage table.
pub fn lowering_coverage() -> (table: Vec<FeatureLowering>)
    ensures
        table@ == coverage_table(),
{
    let table = vec![
        FeatureLowering { feature: "async.for", availability: LoweringAvailability::NotLowerable },
        FeatureLowering { feature: "async.gather_return_exceptions", availability: LoweringAvailability::Contextual },
        FeatureLowering { feature: "async.with", availability: LoweringAvailability::Contextual },
        FeatureLowering { feature: "builtin.bytes_iterable", availability: LoweringAvailability::Contextual },
        FeatureLowering { feature: "builtin.enumerate_lazy", availability: LoweringAvailability::Contextual },
        FeatureLowering { feature: "builtin.filter_lazy", availability: LoweringAvailability::Contextual },
        FeatureLowering { feature: "builtin.int_unicode_decimal", availability: LoweringAvailability::Contextual },
        FeatureLowering { feature: "builtin.iter_callable_stop_iteration", availability: LoweringAvailability::Contextual },
        FeatureLowering { feature: "builtin.map_lazy", availability: LoweringAvailability::Contextual },
        FeatureLowering { feature: "builtin.zip_lazy", availability: LoweringAvailability::Contextual },
        FeatureLowering { feature: "class.assign_name", availability: LoweringAvailability::Contextual },
        FeatureLowering { feature: "class.assign_object_class", availability: LoweringAvailability::NotLowerable },
        FeatureLowering { feature: "class.body_comprehension_scope", availability: LoweringAvailability::Contextual },
        FeatureLowering { feature: "class.body_if", availability: LoweringAvailability::Contextual },
        FeatureLowering { feature: "class.body_tuple_assignment", availability: LoweringAvailability::Contextual },
        FeatureLowering { feature: "class.bound_method_equality", availability: LoweringAvailability::Contextual },
        FeatureLowering { feature: "class.bound_method_type", availability: LoweringAvailability::Contextual },
        FeatureLowering { feature: "class.classmethod", availability: LoweringAvailability::Contextual },
        FeatureLowering { feature: "class.default_repr_qualified", availability: LoweringAvailability::Contextual },
        FeatureLowering { feature: "class.getattr_hook", availability: LoweringAvailability::Contextual },
        FeatureLowering { feature: "class.inheritance", availability: LoweringAvailability::Contextual },
        FeatureLowering { feature: "class.isinstance_type", availability: LoweringAvailability::Contextual },
        FeatureLowering { feature: "class.nested_class", availability: LoweringAvailability::Contextual },
        FeatureLowering { feature: "class.private_name_mangling", availability: LoweringAvailability::Contextual },
        FeatureLowering { feature: "class.property", availability: LoweringAvailability::Contextual },
        FeatureLowering { feature: "class.setattr_hook", availability: LoweringAvailability::Contextual },
        FeatureLowering { feature: "class.staticmethod", availability: LoweringAvailability::Contextual },
        FeatureLowering { feature: "class.super", availability: LoweringAvailability::Contextual },
        FeatureLowering { feature: "class.type_identity", availability: LoweringAvailability::Contextual },
        FeatureLowering { feature: "comprehension.generator_lazy", availability: LoweringAvailability::Contextual },
        FeatureLowering { feature: "comprehension.generator_type", availability: LoweringAvailability::NotLowerable },
        FeatureLowering { feature: "dataclass.basic", availability: LoweringAvailability::Contextual },
        FeatureLowering { feature: "exception.assert_message", availability: LoweringAvailability::Automatic },
        FeatureLowering { feature: "exception.explicit_cause", availability: LoweringAvailability::NotLowerable },
        FeatureLowering { feature: "expression.ellipsis", availability: LoweringAvailability::Contextual },
        FeatureLowering { feature: "format.percent_string", availability: LoweringAvailability::Contextual },
        FeatureLowering { feature: "format.str_format", availability: LoweringAvailability::Contextual },
        FeatureLowering { feature: "fstring.custom_format", availability: LoweringAvailability::Contextual },
        FeatureLowering { feature: "fstring.invalid_static_spec_dead_code", availability: LoweringAvailability::Contextual },
        FeatureLowering { feature: "fstring.user_class_spec", availability: LoweringAvailability::Contextual },
        FeatureLowering { feature: "function.closure_late_binding", availability: LoweringAvailability::Contextual },
        FeatureLowering { feature: "match.class", availability: LoweringAvailability::Contextual },
        FeatureLowering { feature: "match.guard", availability: LoweringAvailability::Contextual },
        FeatureLowering { feature: "match.literal", availability: LoweringAvailability::Contextual },
        FeatureLowering { feature: "match.mapping", availability: LoweringAvailability::Contextual },
        FeatureLowering { feature: "match.or", availability: LoweringAvailability::Contextual },
        FeatureLowering { feature: "match.sequence", availability: LoweringAvailability::Contextual },
        FeatureLowering { feature: "operator.dict_union", availability: LoweringAvailability::Automatic },
        FeatureLowering { feature: "operator.nan_shared_sequence", availability: LoweringAvailability::Contextual },
        FeatureLowering { feature: "protocol.add", availability: LoweringAvailability::Contextual },
        FeatureLowering { feature: "protocol.binary.bitand", availability: LoweringAvailability::Contextual },
        FeatureLowering { feature: "protocol.binary.bitor", availability: LoweringAvailability::Contextual },
        FeatureLowering { feature: "protocol.binary.bitxor", availability: LoweringAvailability::Contextual },
        FeatureLowering { feature: "protocol.binary.floordiv", availability: LoweringAvailability::Contextual },
        FeatureLowering { feature: "protocol.binary.lshift", availability: LoweringAvailability::Contextual },
        FeatureLowering { feature: "protocol.binary.matmul", availability: LoweringAvailability::Contextual },
        FeatureLowering { feature: "protocol.binary.mod", availability: LoweringAvailability::Contextual },
        FeatureLowering { feature: "protocol.binary.mul", availability: LoweringAvailability::Contextual },
        FeatureLowering { feature: "protocol.binary.pow", availability: LoweringAvailability::Contextual },
        FeatureLowering { feature: "protocol.binary.rshift", availability: LoweringAvailability::Contextual },
        FeatureLowering { feature: "protocol.binary.sub", availability: LoweringAvailability::Contextual },
        FeatureLowering { feature: "protocol.binary.truediv", availability: LoweringAvailability::Contextual },
        FeatureLowering { feature: "protocol.callable", availability: LoweringAvailability::Contextual },
        FeatureLowering { feature: "protocol.contains", availability: LoweringAvailability::Contextual },
        FeatureLowering { feature: "protocol.conversion.float", availability: LoweringAvailability::NotLowerable },
        FeatureLowering { feature: "protocol.conversion.index", availability: LoweringAvailability::NotLowerable },
        FeatureLowering { feature: "protocol.conversion.int", availability: LoweringAvailability::NotLowerable },
        FeatureLowering { feature: "protocol.equality", availability: LoweringAvailability::Contextual },
        FeatureLowering { feature: "protocol.getitem", availability: LoweringAvailability::Contextual },
        FeatureLowering { feature: "protocol.hash", availability: LoweringAvailability::Contextual },
        FeatureLowering { feature: "protocol.iterator", availability: LoweringAvailability::Contextual },
        FeatureLowering { feature: "protocol.length", availability: LoweringAvailability::Contextual },
        FeatureLowering { feature: "protocol.ordering", availability: LoweringAvailability::Contextual },
        FeatureLowering { feature: "protocol.reflected.add", availability: LoweringAvailability::NotLowerable },
        FeatureLowering { feature: "protocol.reflected.bitand", availability: LoweringAvailability::NotLowerable },
        FeatureLowering { feature: "protocol.reflected.bitor", availability: LoweringAvailability::NotLowerable },
        FeatureLowering { feature: "protocol.reflected.bitxor", availability: LoweringAvailability::NotLowerable },
        FeatureLowering { feature: "protocol.reflected.floordiv", availability: LoweringAvailability::NotLowerable },
        FeatureLowering { feature: "protocol.reflected.lshift", availability: LoweringAvailability::NotLowerable },
        FeatureLowering { feature: "protocol.reflected.matmul", availability: LoweringAvailability::NotLowerable },
        FeatureLowering { feature: "protocol.reflected.mod", availability: LoweringAvailability::NotLowerable },
        FeatureLowering { feature: "protocol.reflected.mul", availability: LoweringAvailability::NotLowerable },
        FeatureLowering { feature: "protocol.reflected.pow", availability: LoweringAvailability::NotLowerable },
        FeatureLowering { feature: "protocol.reflected.rshift", availability: LoweringAvailability::NotLowerable },
        FeatureLowering { feature: "protocol.reflected.sub", availability: LoweringAvailability::NotLowerable },
        FeatureLowering { feature: "protocol.reflected.truediv", availability: LoweringAvailability::NotLowerable },
        FeatureLowering { feature: "protocol.reversed", availability: LoweringAvailability::Contextual },
        FeatureLowering { feature: "protocol.round", availability: LoweringAvailability::Contextual },
        FeatureLowering { feature: "protocol.setitem", availability: LoweringAvailability::Contextual },
        FeatureLowering { feature: "protocol.truthiness", availability: LoweringAvailability::Contextual },
        FeatureLowering { feature: "protocol.unary.invert", availability: LoweringAvailability::Contextual },
        FeatureLowering { feature: "protocol.unary.neg", availability: LoweringAvailability::Contextual },
        FeatureLowering { feature: "protocol.unary.pos", availability: LoweringAvailability::Contextual },
        FeatureLowering { feature: "statement.delete", availability: LoweringAvailability::Contextual },
        FeatureLowering { feature: "statement.delete_attribute", availability: LoweringAvailability::NotLowerable },
        FeatureLowering { feature: "statement.delete_name", availability: LoweringAvailability::NotLowerable },
        FeatureLowering { feature: "statement.for_attribute_target", availability: LoweringAvailability::Automatic },
        FeatureLowering { feature: "statement.for_subscript_target", availability: LoweringAvailability::Automatic },
        FeatureLowering { feature: "statement.function_decorator", availability: LoweringAvailability::Contextual },
        FeatureLowering { feature: "statement.generator", availability: LoweringAvailability::NotLowerable },
        FeatureLowering { feature: "statement.raise_from", availability: LoweringAvailability::NotLowerable },
        FeatureLowering { feature: "statement.try_star", availability: LoweringAvailability::NotLowerable },
        FeatureLowering { feature: "statement.yield_from", availability: LoweringAvailability::NotLowerable },
        FeatureLowering { feature: "with.attribute_target", availability: LoweringAvailability::Contextual },
        FeatureLowering { feature: "with.empty_list_target", availability: LoweringAvailability::Contextual },
        FeatureLowering { feature: "with.empty_tuple_target", availability: LoweringAvailability::Contextual },
        FeatureLowering { feature: "with.exception_arguments", availability: LoweringAvailability::NotLowerable },
        FeatureLowering { feature: "with.exit_bound_once", availability: LoweringAvailability::Contextual },
        FeatureLowering { feature: "with.subscript_target", availability: LoweringAvailability::Contextual },
    ];
    assert(table@ =~= coverage_table());
    table
}

} // verus!
