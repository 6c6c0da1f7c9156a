//! The capability features and special methods behind Python's operators.

use vstd::prelude::*;

verus! {

/// A binary operator of Python's expression grammar.
#[derive(Debug, Clone, Copy, PartialEq, Eq, Structural)]
pub enum BinaryOperator {
    Add,
    Sub,
    Mult,
    MatMult,
    Div,
    FloorDiv,
    Mod,
    Pow,
    LShift,
    RShift,
    BitAnd,
    BitXor,
    BitOr,
}

/// A unary operator of Python's expression grammar.
#[derive(Debug, Clone, Copy, PartialEq, Eq, Structural)]
pub enum UnaryOperator {
    Invert,
    Not,
    UAdd,
    USub,
}

/// The stem Python's special-method names use for a binary operator.
pub open spec fn operator_stem(operator: BinaryOperator) -> Seq<char> {
    match operator {
        BinaryOperator::Add => "add"@,
        BinaryOperator::Sub => "sub"@,
        BinaryOperator::Mult => "mul"@,
        BinaryOperator::MatMult => "matmul"@,
        BinaryOperator::Div => "truediv"@,
        BinaryOperator::FloorDiv => "floordiv"@,
        BinaryOperator::Mod => "mod"@,
        BinaryOperator::Pow => "pow"@,
        BinaryOperator::LShift => "lshift"@,
        BinaryOperator::RShift => "rshift"@,
        BinaryOperator::BitAnd => "bitand"@,
        BinaryOperator::BitXor => "bitxor"@,
        BinaryOperator::BitOr => "bitor"@,
    }
}

/// The reflected special method Python tries on the right operand.
pub open spec fn reflected_method(operator: BinaryOperator) -> Seq<char> {
    match operator {
        BinaryOperator::Add => "__radd__"@,
        BinaryOperator::Sub => "__rsub__"@,
        BinaryOperator::Mult => "__rmul__"@,
        BinaryOperator::MatMult => "__rmatmul__"@,
        BinaryOperator::Div => "__rtruediv__"@,
        BinaryOperator::FloorDiv => "__rfloordiv__"@,
        BinaryOperator::Mod => "__rmod__"@,
        BinaryOperator::Pow => "__rpow__"@,
        BinaryOperator::LShift => "__rlshift__"@,
        BinaryOperator::RShift => "__rrshift__"@,
        BinaryOperator::BitAnd => "__rand__"@,
        BinaryOperator::BitXor => "__rxor__"@,
        BinaryOperator::BitOr => "__ror__"@,
    }
}

/// The capability feature of a binary operator dispatched to a user class.
pub fn binary_protocol_feature(operator: BinaryOperator) -> (feature: &'static str)
    ensures
        feature@ == "protocol.binary."@ + operator_stem(operator),
{
    let feature = match operator {
        BinaryOperator::Add => "protocol.binary.add",
        BinaryOperator::Sub => "protocol.binary.sub",
        BinaryOperator::Mult => "protocol.binary.mul",
        BinaryOperator::MatMult => "protocol.binary.matmul",
        BinaryOperator::Div => "protocol.binary.truediv",
        BinaryOperator::FloorDiv => "protocol.binary.floordiv",
        BinaryOperator::Mod => "protocol.binary.mod",
        BinaryOperator::Pow => "protocol.binary.pow",
        BinaryOperator::LShift => "protocol.binary.lshift",
        BinaryOperator::RShift => "protocol.binary.rshift",
        BinaryOperator::BitAnd => "protocol.binary.bitand",
        BinaryOperator::BitXor => "protocol.binary.bitxor",
        BinaryOperator::BitOr => "protocol.binary.bitor",
    };
    proof {
        reveal_strlit("protocol.binary.");
        reveal_strlit("add");
        reveal_strlit("sub");
        reveal_strlit("mul");
        reveal_strlit("matmul");
        reveal_strlit("truediv");
        reveal_strlit("floordiv");
        reveal_strlit("mod");
        reveal_strlit("pow");
        reveal_strlit("lshift");
        reveal_strlit("rshift");
        reveal_strlit("bitand");
        reveal_strlit("bitxor");
        reveal_strlit("bitor");
        reveal_strlit("protocol.binary.add");
        reveal_strlit("protocol.binary.sub");
        reveal_strlit("protocol.binary.mul");
        reveal_strlit("protocol.binary.matmul");
        reveal_strlit("protocol.binary.truediv");
        reveal_strlit("protocol.binary.floordiv");
        reveal_strlit("protocol.binary.mod");
        reveal_strlit("protocol.binary.pow");
        reveal_strlit("protocol.binary.lshift");
        reveal_strlit("protocol.binary.rshift");
        reveal_strlit("protocol.binary.bitand");
        reveal_strlit("protocol.binary.bitxor");
        reveal_strlit("protocol.binary.bitor");
        assert(feature@ =~= "protocol.binary."@ + operator_stem(operator));
    }
    feature
}

/// The capability feature and special method of a unary operator dispatched
/// to a user class; `not` has none.
pub fn unary_protocol(operator: UnaryOperator) -> (protocol: Option<(&'static str, &'static str)>)
    ensures
        match operator {
            UnaryOperator::USub => protocol matches Some((f, m)) && f@ == "protocol.unary.neg"@ && m@
                == "__neg__"@,
            UnaryOperator::UAdd => protocol matches Some((f, m)) && f@ == "protocol.unary.pos"@ && m@
                == "__pos__"@,
            UnaryOperator::Invert => protocol matches Some((f, m)) && f@ == "protocol.unary.invert"@
                && m@ == "__invert__"@,
            UnaryOperator::Not => protocol is None,
        },
{
    match operator {
        UnaryOperator::USub => Some(("protocol.unary.neg", "__neg__")),
        UnaryOperator::UAdd => Some(("protocol.unary.pos", "__pos__")),
        UnaryOperator::Invert => Some(("protocol.unary.invert", "__invert__")),
        UnaryOperator::Not => None,
    }
}

/// The capability feature and reflected special method of a binary operator
/// whose right operand is a user class.
pub fn reflected_protocol(operator: BinaryOperator) -> (protocol: (&'static str, &'static str))
    ensures
        protocol.0@ == "protocol.reflected."@ + operator_stem(operator),
        protocol.1@ == reflected_method(operator),
{
    let protocol = match operator {
        BinaryOperator::Add => ("protocol.reflected.add", "__radd__"),
        BinaryOperator::Sub => ("protocol.reflected.sub", "__rsub__"),
        BinaryOperator::Mult => ("protocol.reflected.mul", "__rmul__"),
        BinaryOperator::MatMult => ("protocol.reflected.matmul", "__rmatmul__"),
        BinaryOperator::Div => ("protocol.reflected.truediv", "__rtruediv__"),
        BinaryOperator::FloorDiv => ("protocol.reflected.floordiv", "__rfloordiv__"),
        BinaryOperator::Mod => ("protocol.reflected.mod", "__rmod__"),
        BinaryOperator::Pow => ("protocol.reflected.pow", "__rpow__"),
        BinaryOperator::LShift => ("protocol.reflected.lshift", "__rlshift__"),
        BinaryOperator::RShift => ("protocol.reflected.rshift", "__rrshift__"),
        BinaryOperator::BitAnd => ("protocol.reflected.bitand", "__rand__"),
        BinaryOperator::BitXor => ("protocol.reflected.bitxor", "__rxor__"),
        BinaryOperator::BitOr => ("protocol.reflected.bitor", "__ror__"),
    };
    proof {
        reveal_strlit("protocol.reflected.");
        reveal_strlit("add");
        reveal_strlit("sub");
        reveal_strlit("mul");
        reveal_strlit("matmul");
        reveal_strlit("truediv");
        reveal_strlit("floordiv");
        reveal_strlit("mod");
        reveal_strlit("pow");
        reveal_strlit("lshift");
        reveal_strlit("rshift");
        reveal_strlit("bitand");
        reveal_strlit("bitxor");
        reveal_strlit("bitor");
        reveal_strlit("protocol.reflected.add");
        reveal_strlit("protocol.reflected.sub");
        reveal_strlit("protocol.reflected.mul");
        reveal_strlit("protocol.reflected.matmul");
        reveal_strlit("protocol.reflected.truediv");
        reveal_strlit("protocol.reflected.floordiv");
        reveal_strlit("protocol.reflected.mod");
        reveal_strlit("protocol.reflected.pow");
        reveal_strlit("protocol.reflected.lshift");
        reveal_strlit("protocol.reflected.rshift");
        reveal_strlit("protocol.reflected.bitand");
        reveal_strlit("protocol.reflected.bitxor");
        reveal_strlit("protocol.reflected.bitor");
        assert(protocol.0@ =~= "protocol.reflected."@ + operator_stem(operator));
    }
    protocol
}

} // verus!
