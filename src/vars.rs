use vstd::prelude::*;

verus! {

/// A circuit variable holding one field element, identified by its index in
/// the constraint system that owns it.
#[derive(Debug, Clone, Copy, PartialEq, Eq, Structural)]
pub struct Variable(pub usize);

/// A variable whose value the constraint system has constrained to 0 or 1.
#[derive(Debug, Clone, Copy, PartialEq, Eq, Structural)]
pub struct BoolVariable(pub Variable);

/// Eight bit variables forming one byte, most significant bit first.
#[derive(Debug, Clone, Copy)]
pub struct ByteVariable(pub [BoolVariable; 8]);

/// What a typed circuit variable offers: the ordered list of variables that
/// back it, and the mapping between its plain value and the canonical
/// representatives of the field elements that those variables hold.
pub trait CircuitVariable: Sized {
    /// The plain value that the variable stands for.
    type ValueType;

    /// How many variables back a value of this type.
    spec fn arity() -> nat;

    /// The variables that back `self`, in their fixed order.
    spec fn spec_variables(&self) -> Seq<Variable>;

    /// The canonical field elements that encode `value`, one per backing
    /// variable.
    spec fn spec_elements(value: Self::ValueType) -> Seq<u64>;

    fn variables(&self) -> (r: Vec<Variable>)
        ensures
            r@ == self.spec_variables(),
            r@.len() == Self::arity(),
    ;

    fn from_variables(variables: &[Variable]) -> (r: Self)
        requires
            variables@.len() == Self::arity(),
        ensures
            r.spec_variables() == variables@,
    ;

    /// The field elements to write into the backing variables for `value`.
    fn elements(value: Self::ValueType) -> (r: Vec<u64>)
        ensures
            r@ == Self::spec_elements(value),
            r@.len() == Self::arity(),
    ;

    /// The plain value read back from the backing variables' field elements.
    fn from_elements(elements: &[u64]) -> (r: Self::ValueType)
        requires
            elements@.len() == Self::arity(),
        ensures
            forall|v: Self::ValueType| Self::spec_elements(v) == elements@ ==> r == v,
    ;
}

/// What a typed variable offers to a byte-oriented protocol: an encoding of
/// its plain value as a fixed number of bytes, and the way back.
pub trait EvmVariable: Sized {
    /// The plain value that the variable stands for.
    type ValueType;

    /// How many bytes encode a value.
    spec fn byte_len() -> nat;

    /// The bytes that encode `value`.
    spec fn spec_encode(value: Self::ValueType) -> Seq<u8>;

    fn encode_value(value: Self::ValueType) -> (r: Vec<u8>)
        ensures
            r@ == Self::spec_encode(value),
            r@.len() == Self::byte_len(),
    ;

    fn decode_value(bytes: &[u8]) -> (r: Self::ValueType)
        requires
            bytes@.len() == Self::byte_len(),
        ensures
            Self::spec_encode(r) == bytes@,
    ;
}

} // verus!
