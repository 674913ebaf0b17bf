use vstd::prelude::*;

verus! {

/// Failure of a rule: a rule-specific mismatch, or the end of the input where a
/// consumption was required.
#[derive(Debug)]
pub enum ProductionError<E> {
    Token(E),
    EndStream,
}

impl<E: View> View for ProductionError<E> {
    type V = ProductionError<E::V>;

    open spec fn view(&self) -> ProductionError<E::V> {
        match self {
            ProductionError::Token(e) => ProductionError::Token(e@),
            ProductionError::EndStream => ProductionError::EndStream,
        }
    }
}

impl<E> ProductionError<E> {
    /// Maps the rule-specific error with `f`; `EndStream` passes through unchanged.
    pub fn to<T, F: Fn(E) -> T>(self, f: F) -> (r: ProductionError<T>)
        requires
            self matches ProductionError::Token(e) ==> f.requires((e,)),
        ensures
            match self {
                ProductionError::Token(e) => r matches ProductionError::Token(t) && f.ensures((e,), t),
                ProductionError::EndStream => r matches ProductionError::EndStream,
            },
    {
        match self {
            ProductionError::Token(e) => ProductionError::Token(f(e)),
            ProductionError::EndStream => ProductionError::EndStream,
        }
    }
}

} // verus!
