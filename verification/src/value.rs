use vstd::prelude::*;

use crate::ast::{Expr, ExprView};

use std::sync::Arc;

verus! {

/// A runtime value. A number is the bit pattern of an IEEE-754 double.
/// String text is shared by reference with an atomic count, so cloning a
/// string value never copies the backing bytes and values may be read
/// from any thread. A function captures its name, its ordered
/// parameter names and its unevaluated body; it closes over nothing,
/// so its body is evaluated against the environment of the call site.
#[derive(Debug)]
pub enum Value {
    Unit,
    Number(u64),
    String(Arc<Vec<u8>>),
    Function(Vec<u8>, Vec<Vec<u8>>, Arc<Expr>),
}

/// The mathematical shape of a runtime value.
#[verifier::ext_equal]
pub enum ValueView {
    Unit,
    Number(u64),
    String(Seq<u8>),
    Function(Seq<u8>, Seq<Seq<u8>>, ExprView),
}

impl View for Value {
    type V = ValueView;

    open spec fn view(&self) -> ValueView {
        match self {
            Value::Unit => ValueView::Unit,
            Value::Number(n) => ValueView::Number(*n),
            Value::String(s) => ValueView::String((**s)@),
            Value::Function(name, params, body) => ValueView::Function(
                name@,
                params.deep_view(),
                (**body).model(),
            ),
        }
    }
}

/// Relies on `Arc::clone`: the copy shares the same backing allocation,
/// so it carries the same value.
#[verifier::external_body]
pub(crate) fn arc_clone<T>(v: &Arc<T>) -> (r: Arc<T>)
    ensures
        r == *v,
{
    Arc::clone(v)
}

impl Clone for Value {
    /// A copy of a value has the same view; string text and function
    /// bodies are shared, not copied.
    fn clone(&self) -> (r: Self)
        ensures
            r@ == self@,
    {
        match self {
            Value::Unit => Value::Unit,
            Value::Number(n) => Value::Number(*n),
            Value::String(s) => Value::String(arc_clone(s)),
            Value::Function(name, params, body) => Value::Function(
                crate::bytes::clone_bytes(name),
                crate::bytes::clone_names(params),
                arc_clone(body),
            ),
        }
    }
}

/// Copies a list of values, element by element; each copy has the view
/// of its original.
pub fn clone_values(v: &Vec<Value>) -> (r: Vec<Value>)
    ensures
        r@.len() == v@.len(),
        forall|i: int| 0 <= i < v@.len() ==> r@[i]@ == v@[i]@,
{
    let mut r: Vec<Value> = Vec::new();
    let mut i: usize = 0;
    while i < v.len()
        invariant
            i <= v.len(),
            r@.len() == i,
            forall|j: int| 0 <= j < i ==> r@[j]@ == v@[j]@,
        decreases v.len() - i,
    {
        r.push(v[i].clone());
        i = i + 1;
    }
    r
}

} // verus!
