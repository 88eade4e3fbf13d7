//! Immutable byte buffers.

use vstd::prelude::*;
use crate::base::{
    objects_wf, count_of, created, is_live, payload_of, released, retained, type_check, CFError, CFRuntime,
    CFTypeID, CFTypeRef, Objects, Payload, PayloadView, DATA_TYPE_ID,
};

verus! {

/// What asking the object `h` for its bytes answers.
pub open spec fn bytes_of(v: Objects, h: CFTypeRef) -> Result<Seq<u8>, CFError> {
    if !is_live(v, h) {
        Err(CFError::Released)
    } else {
        match payload_of(v, h) {
            PayloadView::Data(b) => Ok(b),
            PayloadView::Number(_) => Err(CFError::TypeMismatch),
        }
    }
}

/// An owned reference to an immutable byte buffer. Each value of this type
/// stands for one reference that it gives back when it is released; it cannot
/// be copied, so that reference is given back at most once.
pub struct CFData {
    obj: CFTypeRef,
}

impl CFData {
    /// The handle of the object this wrapper holds a reference to.
    pub closed spec fn handle(&self) -> CFTypeRef {
        self.obj
    }

    /// The handle of the object this wrapper holds a reference to.
    pub fn as_type_ref(&self) -> (r: CFTypeRef)
        ensures
            r == self.handle(),
    {
        self.obj
    }

    /// The type identifier of byte-buffer objects.
    pub fn type_id() -> (r: CFTypeID)
        ensures
            r == DATA_TYPE_ID,
    {
        DATA_TYPE_ID
    }

    /// Creates a byte buffer holding a copy of `buf`.
    pub fn new_from_buf(rt: &mut CFRuntime, buf: &[u8]) -> (r: CFData)
        requires
            old(rt).wf(),
        ensures
            final(rt).wf(),
            (final(rt)@, r.handle()) == created(old(rt)@, PayloadView::Data(buf@)),
    {
        let bytes = vstd::slice::slice_to_vec(buf);
        let h = rt.create(Payload::Data(bytes));
        CFData { obj: h }
    }

    /// Adopts a reference that the caller owns (one obtained from a creating
    /// call), after checking that `h` names a byte buffer. Adopting a handle
    /// that names no live object is a programming error.
    pub fn wrap_under_create_rule(rt: &CFRuntime, h: CFTypeRef) -> (r: Result<CFData, CFError>)
        requires
            is_live(rt@, h),
        ensures
            type_check(rt@, h, DATA_TYPE_ID) is Ok ==> r is Ok && r->Ok_0.handle() == h,
            type_check(rt@, h, DATA_TYPE_ID) is Err ==> r is Err && r->Err_0 == type_check(
                rt@,
                h,
                DATA_TYPE_ID,
            )->Err_0,
    {
        match rt.check_type(h, DATA_TYPE_ID) {
            Ok(()) => Ok(CFData { obj: h }),
            Err(e) => Err(e),
        }
    }

    /// Takes a reference of its own to a byte buffer borrowed from elsewhere:
    /// checks that `h` names a live byte buffer, then retains it.
    pub fn wrap_under_get_rule(rt: &mut CFRuntime, h: CFTypeRef) -> (r: Result<CFData, CFError>)
        requires
            old(rt).wf(),
        ensures
            final(rt).wf(),
            type_check(old(rt)@, h, DATA_TYPE_ID) is Err ==> r is Err && r->Err_0 == type_check(
                old(rt)@,
                h,
                DATA_TYPE_ID,
            )->Err_0 && final(rt)@ == old(rt)@,
            type_check(old(rt)@, h, DATA_TYPE_ID) is Ok && count_of(old(rt)@, h) == u64::MAX ==> r is Err
                && r->Err_0 == CFError::CountExhausted && final(rt)@ == old(rt)@,
            type_check(old(rt)@, h, DATA_TYPE_ID) is Ok && count_of(old(rt)@, h) < u64::MAX ==> r is Ok
                && r->Ok_0.handle() == h && final(rt)@ == retained(old(rt)@, h),
    {
        match rt.check_type(h, DATA_TYPE_ID) {
            Ok(()) => match rt.retain(h) {
                Ok(()) => Ok(CFData { obj: h }),
                Err(e) => Err(e),
            },
            Err(e) => Err(e),
        }
    }

    /// A second wrapper over the same byte buffer, with a reference of its own.
    pub fn retain(&self, rt: &mut CFRuntime) -> (r: Result<CFData, CFError>)
        requires
            old(rt).wf(),
        ensures
            final(rt).wf(),
            !is_live(old(rt)@, self.handle()) ==> r is Err && r->Err_0 == CFError::Released
                && final(rt)@ == old(rt)@,
            is_live(old(rt)@, self.handle()) && count_of(old(rt)@, self.handle()) == u64::MAX
                ==> r is Err && r->Err_0 == CFError::CountExhausted && final(rt)@ == old(rt)@,
            is_live(old(rt)@, self.handle()) && count_of(old(rt)@, self.handle()) < u64::MAX
                ==> r is Ok && r->Ok_0.handle() == self.handle() && final(rt)@ == retained(
                old(rt)@,
                self.handle(),
            ),
    {
        match rt.retain(self.obj) {
            Ok(()) => Ok(CFData { obj: self.obj }),
            Err(e) => Err(e),
        }
    }

    /// Gives back the reference this wrapper holds. The wrapper is consumed, so
    /// nothing can be asked of it afterwards.
    pub fn release(self, rt: &mut CFRuntime) -> (r: Result<(), CFError>)
        requires
            old(rt).wf(),
        ensures
            final(rt).wf(),
            !is_live(old(rt)@, self.handle()) ==> r == Err::<(), CFError>(CFError::Released)
                && final(rt)@ == old(rt)@,
            is_live(old(rt)@, self.handle()) ==> r == Ok::<(), CFError>(()) && final(rt)@
                == released(old(rt)@, self.handle()),
    {
        rt.release(self.obj)
    }

    /// A read-only view of the bytes; it cannot outlive the borrow of the
    /// runtime it is read from.
    pub fn bytes<'a>(&self, rt: &'a CFRuntime) -> (r: Result<&'a [u8], CFError>)
        ensures
            bytes_of(rt@, self.handle()) is Ok ==> r is Ok && r->Ok_0@ == bytes_of(
                rt@,
                self.handle(),
            )->Ok_0,
            bytes_of(rt@, self.handle()) is Err ==> r is Err && r->Err_0 == bytes_of(
                rt@,
                self.handle(),
            )->Err_0,
    {
        rt.data_bytes(self.obj)
    }

    /// The number of bytes.
    pub fn len(&self, rt: &CFRuntime) -> (r: Result<usize, CFError>)
        ensures
            bytes_of(rt@, self.handle()) is Ok ==> r is Ok && r->Ok_0 == bytes_of(
                rt@,
                self.handle(),
            )->Ok_0.len(),
            bytes_of(rt@, self.handle()) is Err ==> r is Err && r->Err_0 == bytes_of(
                rt@,
                self.handle(),
            )->Err_0,
    {
        match rt.data_bytes(self.obj) {
            Ok(b) => Ok(b.len()),
            Err(e) => Err(e),
        }
    }

    /// A copy of the bytes, owned by the caller.
    pub fn copy_to_buf(&self, rt: &CFRuntime) -> (r: Result<Vec<u8>, CFError>)
        ensures
            bytes_of(rt@, self.handle()) is Ok ==> r is Ok && r->Ok_0@ == bytes_of(
                rt@,
                self.handle(),
            )->Ok_0,
            bytes_of(rt@, self.handle()) is Err ==> r is Err && r->Err_0 == bytes_of(
                rt@,
                self.handle(),
            )->Err_0,
    {
        match rt.data_bytes(self.obj) {
            Ok(b) => Ok(vstd::slice::slice_to_vec(b)),
            Err(e) => Err(e),
        }
    }
}

/// A byte buffer created from `buf` gives `buf` back, byte for byte, and so
/// reports its length.
pub proof fn lemma_bytes_round_trip(v: Objects, buf: Seq<u8>)
    requires
        objects_wf(v),
    ensures
        ({
            let (w, h) = created(v, PayloadView::Data(buf));
            bytes_of(w, h) == Ok::<Seq<u8>, CFError>(buf)
        }),
{
}

/// Once the last reference to a byte buffer is given back, asking it for its
/// bytes is rejected.
pub proof fn lemma_released_data_rejected(v: Objects, h: CFTypeRef)
    requires
        is_live(v, h),
        count_of(v, h) == 1,
    ensures
        bytes_of(released(v, h), h) == Err::<Seq<u8>, CFError>(CFError::Released),
{
}

} // verus!
