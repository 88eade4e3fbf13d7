//! Immutable numbers.

use vstd::prelude::*;
use crate::ieee::{double_to_i64, f64_bits_to_i64, i64_to_double, i64_to_f64_bits};
use crate::base::{
    objects_wf, count_of, created, is_live, payload_of, released, retained, type_check,
    CFError, CFRuntime, CFTypeID, CFTypeRef, NumberValue, Objects, Payload, PayloadView,
    NUMBER_TYPE_ID,
};

verus! {

/// What asking the object `h` for a signed 64-bit integer answers: its value
/// when it holds one; for a double, its value when it is integral and in
/// range, a conversion failure otherwise.
pub open spec fn i64_of(v: Objects, h: CFTypeRef) -> Result<i64, CFError> {
    if !is_live(v, h) {
        Err(CFError::Released)
    } else {
        match payload_of(v, h) {
            PayloadView::Number(NumberValue::SInt64(n)) => Ok(n),
            PayloadView::Number(NumberValue::Float64(b)) => match double_to_i64(b) {
                Some(n) => Ok(n),
                None => Err(CFError::ConversionFailed),
            },
            PayloadView::Data(_) => Err(CFError::TypeMismatch),
        }
    }
}

/// What asking the object `h` for a double answers, as its IEEE-754 bit
/// pattern: its value when it holds one; for an integer, the double equal to
/// it when a double holds it exactly, a conversion failure otherwise.
pub open spec fn f64_bits_of(v: Objects, h: CFTypeRef) -> Result<u64, CFError> {
    if !is_live(v, h) {
        Err(CFError::Released)
    } else {
        match payload_of(v, h) {
            PayloadView::Number(NumberValue::Float64(b)) => Ok(b),
            PayloadView::Number(NumberValue::SInt64(n)) => match i64_to_double(n) {
                Some(b) => Ok(b),
                None => Err(CFError::ConversionFailed),
            },
            PayloadView::Data(_) => Err(CFError::TypeMismatch),
        }
    }
}

/// An owned reference to an immutable number object. Each value of this type
/// stands for one reference that it gives back when it is released; it cannot
/// be copied, so that reference is given back at most once.
pub struct CFNumber {
    obj: CFTypeRef,
}

impl CFNumber {
    /// The handle of the object this wrapper holds a reference to.
    pub closed spec fn handle(&self) -> CFTypeRef {
        self.obj
    }

    /// The handle of the object this wrapper holds a reference to.
    #[allow(non_snake_case)]
    pub fn as_concrete_TypeRef(&self) -> (r: CFTypeRef)
        ensures
            r == self.handle(),
    {
        self.obj
    }

    /// The type identifier of number objects.
    pub fn type_id() -> (r: CFTypeID)
        ensures
            r == NUMBER_TYPE_ID,
    {
        NUMBER_TYPE_ID
    }

    /// Adopts a reference that the caller owns (one obtained from a creating
    /// call), after checking that `h` names a number. Adopting a handle that
    /// names no live object is a programming error.
    pub fn wrap_under_create_rule(rt: &CFRuntime, h: CFTypeRef) -> (r: Result<CFNumber, CFError>)
        requires
            is_live(rt@, h),
        ensures
            type_check(rt@, h, NUMBER_TYPE_ID) is Ok ==> r is Ok && r->Ok_0.handle() == h,
            type_check(rt@, h, NUMBER_TYPE_ID) is Err ==> r is Err && r->Err_0 == type_check(
                rt@,
                h,
                NUMBER_TYPE_ID,
            )->Err_0,
    {
        match rt.check_type(h, NUMBER_TYPE_ID) {
            Ok(()) => Ok(CFNumber { obj: h }),
            Err(e) => Err(e),
        }
    }

    /// Takes a reference of its own to a number borrowed from elsewhere: checks
    /// that `h` names a live number, then retains it.
    pub fn wrap_under_get_rule(rt: &mut CFRuntime, h: CFTypeRef) -> (r: Result<CFNumber, CFError>)
        requires
            old(rt).wf(),
        ensures
            final(rt).wf(),
            type_check(old(rt)@, h, NUMBER_TYPE_ID) is Err ==> r is Err && r->Err_0 == type_check(
                old(rt)@,
                h,
                NUMBER_TYPE_ID,
            )->Err_0 && final(rt)@ == old(rt)@,
            type_check(old(rt)@, h, NUMBER_TYPE_ID) is Ok && count_of(old(rt)@, h)
                == u64::MAX ==> r is Err && r->Err_0 == CFError::CountExhausted && final(rt)@ == old(
                rt,
            )@,
            type_check(old(rt)@, h, NUMBER_TYPE_ID) is Ok && count_of(old(rt)@, h)
                < u64::MAX ==> r is Ok && r->Ok_0.handle() == h && final(rt)@ == retained(
                old(rt)@,
                h,
            ),
    {
        match rt.check_type(h, NUMBER_TYPE_ID) {
            Ok(()) => match rt.retain(h) {
                Ok(()) => Ok(CFNumber { obj: h }),
                Err(e) => Err(e),
            },
            Err(e) => Err(e),
        }
    }

    /// A second wrapper over the same number, with a reference of its own.
    pub fn retain(&self, rt: &mut CFRuntime) -> (r: Result<CFNumber, CFError>)
        requires
            old(rt).wf(),
        ensures
            final(rt).wf(),
            !is_live(old(rt)@, self.handle()) ==> r is Err && r->Err_0 == CFError::Released
                && final(rt)@ == old(rt)@,
            is_live(old(rt)@, self.handle()) && count_of(old(rt)@, self.handle())
                == u64::MAX ==> r is Err && r->Err_0 == CFError::CountExhausted && final(rt)@ == old(
                rt,
            )@,
            is_live(old(rt)@, self.handle()) && count_of(old(rt)@, self.handle())
                < u64::MAX ==> r is Ok && r->Ok_0.handle() == self.handle() && final(rt)@
                == retained(old(rt)@, self.handle()),
    {
        match rt.retain(self.obj) {
            Ok(()) => Ok(CFNumber { obj: self.obj }),
            Err(e) => Err(e),
        }
    }

    /// Gives back the reference this wrapper holds. The wrapper is consumed, so
    /// nothing can be asked of it afterwards.
    pub fn release(self, rt: &mut CFRuntime) -> (r: Result<(), CFError>)
        requires
            old(rt).wf(),
        ensures
            final(rt).wf(),
            !is_live(old(rt)@, self.handle()) ==> r == Err::<(), CFError>(CFError::Released)
                && final(rt)@ == old(rt)@,
            is_live(old(rt)@, self.handle()) ==> r == Ok::<(), CFError>(()) && final(rt)@
                == released(old(rt)@, self.handle()),
    {
        rt.release(self.obj)
    }

    /// Creates a number holding the signed 64-bit integer `value`.
    pub fn from_i64(rt: &mut CFRuntime, value: i64) -> (r: Option<CFNumber>)
        requires
            old(rt).wf(),
        ensures
            final(rt).wf(),
            r is Some,
            (final(rt)@, r->Some_0.handle()) == created(
                old(rt)@,
                PayloadView::Number(NumberValue::SInt64(value)),
            ),
    {
        let h = rt.create(Payload::Number(NumberValue::SInt64(value)));
        Some(CFNumber { obj: h })
    }

    /// Numbers cannot hold unsigned 64-bit integers: this always fails.
    pub fn from_u64(_value: u64) -> (r: Option<CFNumber>)
        ensures
            r is None,
    {
        None
    }

    /// Creates a number holding the double whose IEEE-754 bit pattern is `bits`.
    pub fn from_f64_bits(rt: &mut CFRuntime, bits: u64) -> (r: Option<CFNumber>)
        requires
            old(rt).wf(),
        ensures
            final(rt).wf(),
            r is Some,
            (final(rt)@, r->Some_0.handle()) == created(
                old(rt)@,
                PayloadView::Number(NumberValue::Float64(bits)),
            ),
    {
        let h = rt.create(Payload::Number(NumberValue::Float64(bits)));
        Some(CFNumber { obj: h })
    }

    /// The value as a signed 64-bit integer; a double converts only when it is
    /// integral and in range.
    pub fn to_i64(&self, rt: &CFRuntime) -> (r: Result<i64, CFError>)
        ensures
            r == i64_of(rt@, self.handle()),
    {
        match rt.number_value(self.obj) {
            Ok(NumberValue::SInt64(n)) => Ok(n),
            Ok(NumberValue::Float64(b)) => match f64_bits_to_i64(b) {
                Some(n) => Ok(n),
                None => Err(CFError::ConversionFailed),
            },
            Err(e) => Err(e),
        }
    }

    /// Numbers cannot be read as unsigned 64-bit integers: this always reports
    /// the representation as unsupported, whatever the number holds.
    pub fn to_u64(&self) -> (r: Result<u64, CFError>)
        ensures
            r == Err::<u64, CFError>(CFError::Unsupported),
    {
        Err(CFError::Unsupported)
    }

    /// The value as a double, given as its IEEE-754 bit pattern; an integer
    /// converts only when a double holds it exactly.
    pub fn to_f64_bits(&self, rt: &CFRuntime) -> (r: Result<u64, CFError>)
        ensures
            r == f64_bits_of(rt@, self.handle()),
    {
        match rt.number_value(self.obj) {
            Ok(NumberValue::Float64(b)) => Ok(b),
            Ok(NumberValue::SInt64(n)) => match i64_to_f64_bits(n) {
                Some(b) => Ok(b),
                None => Err(CFError::ConversionFailed),
            },
            Err(e) => Err(e),
        }
    }
}

/// Creates a number holding `value`.
pub fn number(rt: &mut CFRuntime, value: i64) -> (r: CFNumber)
    requires
        old(rt).wf(),
    ensures
        final(rt).wf(),
        (final(rt)@, r.handle()) == created(
            old(rt)@,
            PayloadView::Number(NumberValue::SInt64(value)),
        ),
{
    CFNumber::from_i64(rt, value).unwrap()
}

/// A number created from a signed 64-bit integer gives that integer back.
pub proof fn lemma_i64_round_trip(v: Objects, value: i64)
    requires
        objects_wf(v),
    ensures
        ({
            let (w, h) = created(v, PayloadView::Number(NumberValue::SInt64(value)));
            i64_of(w, h) == Ok::<i64, CFError>(value)
        }),
{
}

/// A number created from a double gives the same bit pattern back.
pub proof fn lemma_f64_round_trip(v: Objects, bits: u64)
    requires
        objects_wf(v),
    ensures
        ({
            let (w, h) = created(v, PayloadView::Number(NumberValue::Float64(bits)));
            f64_bits_of(w, h) == Ok::<u64, CFError>(bits)
        }),
{
}

/// Once the last reference to a number is given back, asking it for a value
/// is rejected.
pub proof fn lemma_released_number_rejected(v: Objects, h: CFTypeRef)
    requires
        is_live(v, h),
        count_of(v, h) == 1,
    ensures
        i64_of(released(v, h), h) == Err::<i64, CFError>(CFError::Released),
        f64_bits_of(released(v, h), h) == Err::<u64, CFError>(CFError::Released),
{
}

} // verus!
