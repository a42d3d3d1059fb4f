use crate::error::Error;
use crate::ir::{constant_sort, Constant, Sort, Variable};
use vstd::prelude::*;

verus! {

/// An expression of the structured representation.
#[derive(Debug)]
pub enum Expression {
    Variable(Variable),
    Constant(Constant),
    Add(Box<Expression>, Box<Expression>),
    Sub(Box<Expression>, Box<Expression>),
    Mul(Box<Expression>, Box<Expression>),
    Divu(Box<Expression>, Box<Expression>),
    Modu(Box<Expression>, Box<Expression>),
    Divs(Box<Expression>, Box<Expression>),
    Mods(Box<Expression>, Box<Expression>),
    And(Box<Expression>, Box<Expression>),
    Or(Box<Expression>, Box<Expression>),
    Xor(Box<Expression>, Box<Expression>),
    Shl(Box<Expression>, Box<Expression>),
    Shr(Box<Expression>, Box<Expression>),
    Cmpeq(Box<Expression>, Box<Expression>),
    Cmpneq(Box<Expression>, Box<Expression>),
    Cmplts(Box<Expression>, Box<Expression>),
    Cmpltu(Box<Expression>, Box<Expression>),
    Zext(usize, Box<Expression>),
    Sext(usize, Box<Expression>),
    Trun(usize, Box<Expression>),
    Ite(Box<Expression>, Box<Expression>, Box<Expression>),
}

/// The sort of an expression: that of its variable or constant; that of the left operand for
/// arithmetic and bitwise operators and of the then-branch for `Ite`; one bit for
/// comparisons; the given width for extensions and truncations.
pub open spec fn sort_of(e: Expression) -> Sort
    decreases e,
{
    match e {
        Expression::Variable(v) => v.sort,
        Expression::Constant(c) => constant_sort(c),
        Expression::Add(l, _) => sort_of(*l),
        Expression::Sub(l, _) => sort_of(*l),
        Expression::Mul(l, _) => sort_of(*l),
        Expression::Divu(l, _) => sort_of(*l),
        Expression::Modu(l, _) => sort_of(*l),
        Expression::Divs(l, _) => sort_of(*l),
        Expression::Mods(l, _) => sort_of(*l),
        Expression::And(l, _) => sort_of(*l),
        Expression::Or(l, _) => sort_of(*l),
        Expression::Xor(l, _) => sort_of(*l),
        Expression::Shl(l, _) => sort_of(*l),
        Expression::Shr(l, _) => sort_of(*l),
        Expression::Cmpeq(_, _) => Sort::BitVector(1),
        Expression::Cmpneq(_, _) => Sort::BitVector(1),
        Expression::Cmplts(_, _) => Sort::BitVector(1),
        Expression::Cmpltu(_, _) => Sort::BitVector(1),
        Expression::Zext(bits, _) => Sort::BitVector(bits),
        Expression::Sext(bits, _) => Sort::BitVector(bits),
        Expression::Trun(bits, _) => Sort::BitVector(bits),
        Expression::Ite(_, t, _) => sort_of(*t),
    }
}

/// Whether `s` is a bit-vector sort narrower than `bits`.
pub open spec fn narrower(s: Sort, bits: usize) -> bool {
    s matches Sort::BitVector(w) && w < bits
}

/// Whether `s` is a bit-vector sort wider than `bits`.
pub open spec fn wider(s: Sort, bits: usize) -> bool {
    s matches Sort::BitVector(w) && w > bits
}

impl Expression {
    /// The sort of the expression.
    pub fn sort(&self) -> (r: Sort)
        ensures
            r == sort_of(*self),
        decreases self,
    {
        match self {
            Expression::Variable(v) => v.sort,
            Expression::Constant(c) => c.sort(),
            Expression::Add(l, _) => l.sort(),
            Expression::Sub(l, _) => l.sort(),
            Expression::Mul(l, _) => l.sort(),
            Expression::Divu(l, _) => l.sort(),
            Expression::Modu(l, _) => l.sort(),
            Expression::Divs(l, _) => l.sort(),
            Expression::Mods(l, _) => l.sort(),
            Expression::And(l, _) => l.sort(),
            Expression::Or(l, _) => l.sort(),
            Expression::Xor(l, _) => l.sort(),
            Expression::Shl(l, _) => l.sort(),
            Expression::Shr(l, _) => l.sort(),
            Expression::Cmpeq(_, _) => Sort::BitVector(1),
            Expression::Cmpneq(_, _) => Sort::BitVector(1),
            Expression::Cmplts(_, _) => Sort::BitVector(1),
            Expression::Cmpltu(_, _) => Sort::BitVector(1),
            Expression::Zext(bits, _) => Sort::BitVector(*bits),
            Expression::Sext(bits, _) => Sort::BitVector(*bits),
            Expression::Trun(bits, _) => Sort::BitVector(*bits),
            Expression::Ite(_, t, _) => t.sort(),
        }
    }

    /// Create a new `Expression` from a `Variable`.
    pub fn variable(variable: Variable) -> (r: Expression)
        ensures
            r == Expression::Variable(variable),
    {
        Expression::Variable(variable)
    }

    /// Create a new `Expression` from a `Constant`.
    pub fn constant(constant: Constant) -> (r: Expression)
        ensures
            r == Expression::Constant(constant),
    {
        Expression::Constant(constant)
    }

    /// Create a addition `Expression`.
    /// # Error
    /// The sort of the lhs and the rhs are not the same.
    pub fn add(lhs: Expression, rhs: Expression) -> (r: Result<Expression, Error>)
        ensures
            r is Ok <==> sort_of(lhs) == sort_of(rhs),
            r is Ok ==> r == Ok::<Expression, Error>(Expression::Add(Box::new(lhs), Box::new(rhs))),
            r is Err ==> r == Err::<Expression, Error>(Error::SortMismatch),
    {
        lhs.sort().expect_sort(&rhs.sort())?;
        Ok(Expression::Add(Box::new(lhs), Box::new(rhs)))
    }

    /// Create a subtraction `Expression`.
    /// # Error
    /// The sort of the lhs and the rhs are not the same.
    pub fn sub(lhs: Expression, rhs: Expression) -> (r: Result<Expression, Error>)
        ensures
            r is Ok <==> sort_of(lhs) == sort_of(rhs),
            r is Ok ==> r == Ok::<Expression, Error>(Expression::Sub(Box::new(lhs), Box::new(rhs))),
            r is Err ==> r == Err::<Expression, Error>(Error::SortMismatch),
    {
        lhs.sort().expect_sort(&rhs.sort())?;
        Ok(Expression::Sub(Box::new(lhs), Box::new(rhs)))
    }

    /// Create a unsigned multiplication `Expression`.
    /// # Error
    /// The sort of the lhs and the rhs are not the same.
    pub fn mul(lhs: Expression, rhs: Expression) -> (r: Result<Expression, Error>)
        ensures
            r is Ok <==> sort_of(lhs) == sort_of(rhs),
            r is Ok ==> r == Ok::<Expression, Error>(Expression::Mul(Box::new(lhs), Box::new(rhs))),
            r is Err ==> r == Err::<Expression, Error>(Error::SortMismatch),
    {
        lhs.sort().expect_sort(&rhs.sort())?;
        Ok(Expression::Mul(Box::new(lhs), Box::new(rhs)))
    }

    /// Create a unsigned division `Expression`.
    /// # Error
    /// The sort of the lhs and the rhs are not the same.
    pub fn divu(lhs: Expression, rhs: Expression) -> (r: Result<Expression, Error>)
        ensures
            r is Ok <==> sort_of(lhs) == sort_of(rhs),
            r is Ok ==> r == Ok::<Expression, Error>(Expression::Divu(Box::new(lhs), Box::new(rhs))),
            r is Err ==> r == Err::<Expression, Error>(Error::SortMismatch),
    {
        lhs.sort().expect_sort(&rhs.sort())?;
        Ok(Expression::Divu(Box::new(lhs), Box::new(rhs)))
    }

    /// Create a unsigned modulus `Expression`.
    /// # Error
    /// The sort of the lhs and the rhs are not the same.
    pub fn modu(lhs: Expression, rhs: Expression) -> (r: Result<Expression, Error>)
        ensures
            r is Ok <==> sort_of(lhs) == sort_of(rhs),
            r is Ok ==> r == Ok::<Expression, Error>(Expression::Modu(Box::new(lhs), Box::new(rhs))),
            r is Err ==> r == Err::<Expression, Error>(Error::SortMismatch),
    {
        lhs.sort().expect_sort(&rhs.sort())?;
        Ok(Expression::Modu(Box::new(lhs), Box::new(rhs)))
    }

    /// Create a signed division `Expression`.
    /// # Error
    /// The sort of the lhs and the rhs are not the same.
    pub fn divs(lhs: Expression, rhs: Expression) -> (r: Result<Expression, Error>)
        ensures
            r is Ok <==> sort_of(lhs) == sort_of(rhs),
            r is Ok ==> r == Ok::<Expression, Error>(Expression::Divs(Box::new(lhs), Box::new(rhs))),
            r is Err ==> r == Err::<Expression, Error>(Error::SortMismatch),
    {
        lhs.sort().expect_sort(&rhs.sort())?;
        Ok(Expression::Divs(Box::new(lhs), Box::new(rhs)))
    }

    /// Create a signed modulus `Expression`.
    /// # Error
    /// The sort of the lhs and the rhs are not the same.
    pub fn mods(lhs: Expression, rhs: Expression) -> (r: Result<Expression, Error>)
        ensures
            r is Ok <==> sort_of(lhs) == sort_of(rhs),
            r is Ok ==> r == Ok::<Expression, Error>(Expression::Mods(Box::new(lhs), Box::new(rhs))),
            r is Err ==> r == Err::<Expression, Error>(Error::SortMismatch),
    {
        lhs.sort().expect_sort(&rhs.sort())?;
        Ok(Expression::Mods(Box::new(lhs), Box::new(rhs)))
    }

    /// Create a binary and `Expression`.
    /// # Error
    /// The sort of the lhs and the rhs are not the same.
    pub fn and(lhs: Expression, rhs: Expression) -> (r: Result<Expression, Error>)
        ensures
            r is Ok <==> sort_of(lhs) == sort_of(rhs),
            r is Ok ==> r == Ok::<Expression, Error>(Expression::And(Box::new(lhs), Box::new(rhs))),
            r is Err ==> r == Err::<Expression, Error>(Error::SortMismatch),
    {
        lhs.sort().expect_sort(&rhs.sort())?;
        Ok(Expression::And(Box::new(lhs), Box::new(rhs)))
    }

    /// Create a binary or `Expression`.
    /// # Error
    /// The sort of the lhs and the rhs are not the same.
    pub fn or(lhs: Expression, rhs: Expression) -> (r: Result<Expression, Error>)
        ensures
            r is Ok <==> sort_of(lhs) == sort_of(rhs),
            r is Ok ==> r == Ok::<Expression, Error>(Expression::Or(Box::new(lhs), Box::new(rhs))),
            r is Err ==> r == Err::<Expression, Error>(Error::SortMismatch),
    {
        lhs.sort().expect_sort(&rhs.sort())?;
        Ok(Expression::Or(Box::new(lhs), Box::new(rhs)))
    }

    /// Create a binary xor `Expression`.
    /// # Error
    /// The sort of the lhs and the rhs are not the same.
    pub fn xor(lhs: Expression, rhs: Expression) -> (r: Result<Expression, Error>)
        ensures
            r is Ok <==> sort_of(lhs) == sort_of(rhs),
            r is Ok ==> r == Ok::<Expression, Error>(Expression::Xor(Box::new(lhs), Box::new(rhs))),
            r is Err ==> r == Err::<Expression, Error>(Error::SortMismatch),
    {
        lhs.sort().expect_sort(&rhs.sort())?;
        Ok(Expression::Xor(Box::new(lhs), Box::new(rhs)))
    }

    /// Create a logical shift-left `Expression`.
    /// # Error
    /// The sort of the lhs and the rhs are not the same.
    pub fn shl(lhs: Expression, rhs: Expression) -> (r: Result<Expression, Error>)
        ensures
            r is Ok <==> sort_of(lhs) == sort_of(rhs),
            r is Ok ==> r == Ok::<Expression, Error>(Expression::Shl(Box::new(lhs), Box::new(rhs))),
            r is Err ==> r == Err::<Expression, Error>(Error::SortMismatch),
    {
        lhs.sort().expect_sort(&rhs.sort())?;
        Ok(Expression::Shl(Box::new(lhs), Box::new(rhs)))
    }

    /// Create a logical shift-right `Expression`.
    /// # Error
    /// The sort of the lhs and the rhs are not the same.
    pub fn shr(lhs: Expression, rhs: Expression) -> (r: Result<Expression, Error>)
        ensures
            r is Ok <==> sort_of(lhs) == sort_of(rhs),
            r is Ok ==> r == Ok::<Expression, Error>(Expression::Shr(Box::new(lhs), Box::new(rhs))),
            r is Err ==> r == Err::<Expression, Error>(Error::SortMismatch),
    {
        lhs.sort().expect_sort(&rhs.sort())?;
        Ok(Expression::Shr(Box::new(lhs), Box::new(rhs)))
    }

    /// Create a equals comparison `Expression`.
    /// # Error
    /// The sort of the lhs and the rhs are not the same.
    pub fn cmpeq(lhs: Expression, rhs: Expression) -> (r: Result<Expression, Error>)
        ensures
            r is Ok <==> sort_of(lhs) == sort_of(rhs),
            r is Ok ==> r == Ok::<Expression, Error>(Expression::Cmpeq(Box::new(lhs), Box::new(rhs))),
            r is Err ==> r == Err::<Expression, Error>(Error::SortMismatch),
    {
        lhs.sort().expect_sort(&rhs.sort())?;
        Ok(Expression::Cmpeq(Box::new(lhs), Box::new(rhs)))
    }

    /// Create a not-equals comparison `Expression`.
    /// # Error
    /// The sort of the lhs and the rhs are not the same.
    pub fn cmpneq(lhs: Expression, rhs: Expression) -> (r: Result<Expression, Error>)
        ensures
            r is Ok <==> sort_of(lhs) == sort_of(rhs),
            r is Ok ==> r == Ok::<Expression, Error>(Expression::Cmpneq(Box::new(lhs), Box::new(rhs))),
            r is Err ==> r == Err::<Expression, Error>(Error::SortMismatch),
    {
        lhs.sort().expect_sort(&rhs.sort())?;
        Ok(Expression::Cmpneq(Box::new(lhs), Box::new(rhs)))
    }

    /// Create a unsigned less-than comparison `Expression`.
    /// # Error
    /// The sort of the lhs and the rhs are not the same.
    pub fn cmpltu(lhs: Expression, rhs: Expression) -> (r: Result<Expression, Error>)
        ensures
            r is Ok <==> sort_of(lhs) == sort_of(rhs),
            r is Ok ==> r == Ok::<Expression, Error>(Expression::Cmpltu(Box::new(lhs), Box::new(rhs))),
            r is Err ==> r == Err::<Expression, Error>(Error::SortMismatch),
    {
        lhs.sort().expect_sort(&rhs.sort())?;
        Ok(Expression::Cmpltu(Box::new(lhs), Box::new(rhs)))
    }

    /// Create a signed less-than comparison `Expression`.
    /// # Error
    /// The sort of the lhs and the rhs are not the same.
    pub fn cmplts(lhs: Expression, rhs: Expression) -> (r: Result<Expression, Error>)
        ensures
            r is Ok <==> sort_of(lhs) == sort_of(rhs),
            r is Ok ==> r == Ok::<Expression, Error>(Expression::Cmplts(Box::new(lhs), Box::new(rhs))),
            r is Err ==> r == Err::<Expression, Error>(Error::SortMismatch),
    {
        lhs.sort().expect_sort(&rhs.sort())?;
        Ok(Expression::Cmplts(Box::new(lhs), Box::new(rhs)))
    }

    /// Create an expression to zero-extend src to the number of bits specified in bits.
    /// # Error
    /// src has more or equal number of bits than bits
    pub fn zext(bits: usize, src: Expression) -> (r: Result<Expression, Error>)
        ensures
            r is Ok <==> narrower(sort_of(src), bits),
            r is Ok ==> r == Ok::<Expression, Error>(Expression::Zext(bits, Box::new(src))),
            r is Err ==> r == Err::<Expression, Error>(Error::SortMismatch),
    {
        match src.sort() {
            Sort::BitVector(w) => {
                if w < bits {
                    Ok(Expression::Zext(bits, Box::new(src)))
                } else {
                    Err(Error::SortMismatch)
                }
            },
            _ => Err(Error::SortMismatch),
        }
    }

    /// Create an expression to sign-extend src to the number of bits specified in bits.
    /// # Error
    /// src has more or equal number of bits than bits
    pub fn sext(bits: usize, src: Expression) -> (r: Result<Expression, Error>)
        ensures
            r is Ok <==> narrower(sort_of(src), bits),
            r is Ok ==> r == Ok::<Expression, Error>(Expression::Sext(bits, Box::new(src))),
            r is Err ==> r == Err::<Expression, Error>(Error::SortMismatch),
    {
        match src.sort() {
            Sort::BitVector(w) => {
                if w < bits {
                    Ok(Expression::Sext(bits, Box::new(src)))
                } else {
                    Err(Error::SortMismatch)
                }
            },
            _ => Err(Error::SortMismatch),
        }
    }

    /// Create an expression to truncate the number of bits in src to the number of bits given.
    /// # Error
    /// src has less-than or equal bits than bits
    pub fn trun(bits: usize, src: Expression) -> (r: Result<Expression, Error>)
        ensures
            r is Ok <==> wider(sort_of(src), bits),
            r is Ok ==> r == Ok::<Expression, Error>(Expression::Trun(bits, Box::new(src))),
            r is Err ==> r == Err::<Expression, Error>(Error::SortMismatch),
    {
        match src.sort() {
            Sort::BitVector(w) => {
                if w > bits {
                    Ok(Expression::Trun(bits, Box::new(src)))
                } else {
                    Err(Error::SortMismatch)
                }
            },
            _ => Err(Error::SortMismatch),
        }
    }

    /// Create an if-then-else expression.
    /// # Error
    /// condition is not 1-bit, or the sorts of then and else_ do not match.
    pub fn ite(cond: Expression, then: Expression, else_: Expression) -> (r: Result<Expression, Error>)
        ensures
            r is Ok <==> sort_of(cond) == Sort::BitVector(1) && sort_of(then) == sort_of(else_),
            r is Ok ==> r == Ok::<Expression, Error>(Expression::Ite(Box::new(cond), Box::new(then), Box::new(else_))),
            r is Err ==> r == Err::<Expression, Error>(Error::SortMismatch),
    {
        cond.sort().expect_sort(&Sort::BitVector(1))?;
        then.sort().expect_sort(&else_.sort())?;
        Ok(Expression::Ite(Box::new(cond), Box::new(then), Box::new(else_)))
    }
}

} // verus!
