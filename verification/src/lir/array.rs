use crate::error::Error;
use crate::lir::{Expression, ExpressionView, Operator, OperatorView, Sort};
use vstd::prelude::*;

verus! {

/// The array operators.
#[derive(Clone, Copy, PartialEq, Eq, Structural, Debug)]
pub enum Array {
    Select,
    Store,
}

impl Array {
    /// `select(arr, index)`: the element of `arr` at `index`.
    ///
    /// Fails unless `arr` is an array and `index` has its index sort (range).
    pub fn select(arr: Expression, index: Expression) -> (r: Result<Expression, Error>)
        ensures
            r is Ok <==> (arr.sort is Array && index.sort == *arr.sort->range),
            r is Ok ==> r.unwrap()@ == (ExpressionView {
                operator: OperatorView::Array(Array::Select),
                operands: seq![arr@, index@],
                sort: *arr.sort->domain,
            }),
            !(arr.sort is Array) ==> r == Err::<Expression, Error>(Error::ExpectedArray(arr.sort)),
            arr.sort is Array && index.sort != *arr.sort->range ==> r == Err::<Expression, Error>(
                Error::ExpectedSort { expected: *arr.sort->range, actual: index.sort },
            ),
    {
        arr.sort().expect_array()?;
        let (range, domain) = arr.sort().unwrap_array();
        index.sort().expect_sort(range)?;
        let result_sort = domain.clone();
        Ok(Expression::binary(Operator::Array(Array::Select), arr, index, result_sort))
    }

    /// `store(arr, index, value)`: `arr` with the element at `index` replaced by `value`.
    ///
    /// Fails unless `arr` is an array, `index` has its index sort and `value` its element sort.
    pub fn store(arr: Expression, index: Expression, value: Expression) -> (r: Result<Expression, Error>)
        ensures
            r is Ok <==> (arr.sort is Array && index.sort == *arr.sort->range && value.sort
                == *arr.sort->domain),
            r is Ok ==> r.unwrap()@ == (ExpressionView {
                operator: OperatorView::Array(Array::Store),
                operands: seq![arr@, index@, value@],
                sort: arr.sort,
            }),
            !(arr.sort is Array) ==> r == Err::<Expression, Error>(Error::ExpectedArray(arr.sort)),
            arr.sort is Array && index.sort != *arr.sort->range ==> r == Err::<Expression, Error>(
                Error::ExpectedSort { expected: *arr.sort->range, actual: index.sort },
            ),
            arr.sort is Array && index.sort == *arr.sort->range && value.sort != *arr.sort->domain
                ==> r == Err::<Expression, Error>(
                Error::ExpectedSort { expected: *arr.sort->domain, actual: value.sort },
            ),
    {
        arr.sort().expect_array()?;
        let (range, domain) = arr.sort().unwrap_array();
        index.sort().expect_sort(range)?;
        value.sort().expect_sort(domain)?;
        let result_sort = arr.sort.clone();
        Ok(Expression::ternary(Operator::Array(Array::Store), arr, index, value, result_sort))
    }
}

} // verus!
