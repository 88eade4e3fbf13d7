//! The object runtime: reference-counted, immutable objects addressed by handles.
//!
//! A runtime hands out a handle for each object it creates. Every object
//! carries a reference count; `retain` raises it, `release` lowers it, and the
//! release that brings it to zero frees the object. Handles are never reused,
//! so a handle whose object was freed stays dead and every query on it fails.

use vstd::prelude::*;

verus! {

/// Identifier of a concrete object type.
pub type CFTypeID = u64;

/// Type identifier of number objects.
pub const NUMBER_TYPE_ID: CFTypeID = 22;

/// Type identifier of byte-buffer objects.
pub const DATA_TYPE_ID: CFTypeID = 20;

/// An opaque handle naming one object of a runtime.
#[derive(Clone, Copy, Debug, PartialEq, Eq, Structural)]
pub struct CFTypeRef {
    pub index: usize,
}

/// What went wrong in an operation on an object.
#[derive(Clone, Copy, Debug, PartialEq, Eq, Structural)]
pub enum CFError {
    /// The handle names no live object: it was released.
    Released,
    /// The object is not of the type the operation expects.
    TypeMismatch,
    /// The reference count cannot be raised any further.
    CountExhausted,
    /// The requested representation is not supported at all.
    Unsupported,
    /// The value cannot be given in the requested representation.
    ConversionFailed,
}

/// The value of a number object, in the representation it was created with.
#[derive(Clone, Copy, Debug, PartialEq, Eq, Structural)]
pub enum NumberValue {
    /// A signed 64-bit integer.
    SInt64(i64),
    /// A double, held as its IEEE-754 bit pattern.
    Float64(u64),
}

/// The immutable contents of an object.
pub enum Payload {
    Number(NumberValue),
    Data(Vec<u8>),
}

/// The contents of an object, as a mathematical value.
pub ghost enum PayloadView {
    Number(NumberValue),
    Data(Seq<u8>),
}

impl View for Payload {
    type V = PayloadView;

    open spec fn view(&self) -> PayloadView {
        match self {
            Payload::Number(n) => PayloadView::Number(*n),
            Payload::Data(b) => PayloadView::Data(b@),
        }
    }
}

/// The type identifier of an object with the given contents.
pub open spec fn type_id_of(p: PayloadView) -> CFTypeID {
    match p {
        PayloadView::Number(_) => NUMBER_TYPE_ID,
        PayloadView::Data(_) => DATA_TYPE_ID,
    }
}

/// A live object: its contents and its reference count.
pub struct Slot {
    payload: Payload,
    count: u64,
}

/// A live object, as a mathematical value.
pub ghost struct SlotView {
    pub payload: PayloadView,
    pub count: nat,
}

/// The objects of a runtime, by handle index; `None` for a freed object.
pub type Objects = Seq<Option<SlotView>>;

/// Whether `h` names a live object of `v`.
pub open spec fn is_live(v: Objects, h: CFTypeRef) -> bool {
    h.index < v.len() && v[h.index as int] is Some
}

/// The reference count of the object that `h` names (zero once it is freed).
pub open spec fn count_of(v: Objects, h: CFTypeRef) -> nat {
    if is_live(v, h) {
        v[h.index as int]->Some_0.count
    } else {
        0
    }
}

/// The contents of the live object that `h` names.
pub open spec fn payload_of(v: Objects, h: CFTypeRef) -> PayloadView
    recommends
        is_live(v, h),
{
    v[h.index as int]->Some_0.payload
}

/// The objects after creating one with contents `p`, and its handle: the new
/// object comes last, with a reference count of one.
pub open spec fn created(v: Objects, p: PayloadView) -> (Objects, CFTypeRef) {
    (v.push(Some(SlotView { payload: p, count: 1 })), CFTypeRef { index: v.len() as usize })
}

/// The objects after one more reference to the live object `h` is taken.
pub open spec fn retained(v: Objects, h: CFTypeRef) -> Objects {
    v.update(h.index as int, Some(SlotView { payload: payload_of(v, h), count: count_of(v, h) + 1 }))
}

/// The objects after one reference to the live object `h` is given back: the
/// count drops by one, and the object is freed when it reaches zero.
pub open spec fn released(v: Objects, h: CFTypeRef) -> Objects {
    if count_of(v, h) <= 1 {
        v.update(h.index as int, None)
    } else {
        v.update(
            h.index as int,
            Some(SlotView { payload: payload_of(v, h), count: (count_of(v, h) - 1) as nat }),
        )
    }
}

/// Every handle fits in a `usize`, and every live object holds at least one
/// reference and no more than a 64-bit count can record.
pub open spec fn objects_wf(v: Objects) -> bool {
    &&& v.len() <= usize::MAX
    &&& forall|i: int|
        0 <= i < v.len() && #[trigger] v[i] is Some ==> 1 <= v[i]->Some_0.count <= u64::MAX
}

/// What a check of `h` against the type `expected` answers.
pub open spec fn type_check(v: Objects, h: CFTypeRef, expected: CFTypeID) -> Result<(), CFError> {
    if !is_live(v, h) {
        Err(CFError::Released)
    } else if type_id_of(payload_of(v, h)) != expected {
        Err(CFError::TypeMismatch)
    } else {
        Ok(())
    }
}

/// The objects after `n` more references to `h` are taken.
pub open spec fn retained_n(v: Objects, h: CFTypeRef, n: nat) -> Objects
    decreases n,
{
    if n == 0 {
        v
    } else {
        retained(retained_n(v, h, (n - 1) as nat), h)
    }
}

/// The objects after `n` references to `h` are given back, one at a time.
pub open spec fn released_n(v: Objects, h: CFTypeRef, n: nat) -> Objects
    decreases n,
{
    if n == 0 {
        v
    } else {
        released_n(released(v, h), h, (n - 1) as nat)
    }
}

/// Giving back a reference just taken restores the objects as they were.
pub proof fn lemma_release_undoes_retain(v: Objects, h: CFTypeRef)
    requires
        is_live(v, h),
        count_of(v, h) >= 1,
    ensures
        released(retained(v, h), h) == v,
        is_live(retained(v, h), h),
        count_of(retained(v, h), h) == count_of(v, h) + 1,
{
    let i = h.index as int;
    assert(v[i] is Some);
    assert(released(retained(v, h), h) =~= v);
}

/// Taking `n` shared references to a live object and giving all `n` back
/// leaves every object, and so every reference count, as it was.
pub proof fn lemma_shares_balance(v: Objects, h: CFTypeRef, n: nat)
    requires
        is_live(v, h),
        count_of(v, h) >= 1,
    ensures
        is_live(retained_n(v, h, n), h),
        count_of(retained_n(v, h, n), h) == count_of(v, h) + n,
        released_n(retained_n(v, h, n), h, n) == v,
    decreases n,
{
    if n > 0 {
        let m = (n - 1) as nat;
        lemma_shares_balance(v, h, m);
        let w = retained_n(v, h, m);
        lemma_release_undoes_retain(w, h);
    }
}

/// Creating an object and giving back its one reference frees it again: the
/// objects are those from before, with one dead handle after them.
pub proof fn lemma_create_release_balance(v: Objects, p: PayloadView)
    requires
        objects_wf(v),
    ensures
        ({
            let (w, h) = created(v, p);
            &&& count_of(w, h) == 1
            &&& released(w, h) == v.push(None)
            &&& count_of(released(w, h), h) == 0
        }),
{
    let (w, h) = created(v, p);
    assert(released(w, h) =~= v.push(None));
}

/// The set of objects of one process: it creates, retains, releases and
/// answers queries.
pub struct CFRuntime {
    slots: Vec<Option<Slot>>,
}

impl View for CFRuntime {
    type V = Objects;

    closed spec fn view(&self) -> Objects {
        Seq::new(
            self.slots@.len(),
            |i: int|
                match self.slots@[i] {
                    Some(s) => Some(SlotView { payload: s.payload@, count: s.count as nat }),
                    None => None,
                },
        )
    }
}

impl CFRuntime {
    /// Every handle fits in a `usize`, and every live object holds at least
    /// one reference and no more than a 64-bit count can record.
    pub open spec fn wf(&self) -> bool {
        objects_wf(self@)
    }

    /// A runtime without objects.
    pub fn new() -> (r: CFRuntime)
        ensures
            r.wf(),
            r@ == Seq::<Option<SlotView>>::empty(),
    {
        let r = CFRuntime { slots: Vec::new() };
        assert(r@ =~= Seq::<Option<SlotView>>::empty());
        r
    }

    /// Creates an object with contents `payload`; the caller owns the one
    /// reference it starts with.
    pub fn create(&mut self, payload: Payload) -> (h: CFTypeRef)
        requires
            old(self).wf(),
        ensures
            final(self).wf(),
            (final(self)@, h) == created(old(self)@, payload@),
    {
        let ghost p = payload@;
        let h = CFTypeRef { index: self.slots.len() };
        self.slots.push(Some(Slot { payload, count: 1 }));
        proof {
            vstd::std_specs::vec::axiom_spec_len(&self.slots);
        }
        assert(self@ =~= created(old(self)@, p).0);
        h
    }

    /// Whether `h` names a live object.
    pub fn is_live(&self, h: CFTypeRef) -> (r: bool)
        ensures
            r == is_live(self@, h),
    {
        h.index < self.slots.len() && self.slots[h.index].is_some()
    }

    /// The reference count of the object that `h` names; zero once freed.
    pub fn retain_count(&self, h: CFTypeRef) -> (r: u64)
        ensures
            r == count_of(self@, h),
    {
        if h.index < self.slots.len() {
            match &self.slots[h.index] {
                Some(s) => s.count,
                None => 0,
            }
        } else {
            0
        }
    }

    /// The type identifier of the live object that `h` names.
    pub fn type_of(&self, h: CFTypeRef) -> (r: Result<CFTypeID, CFError>)
        ensures
            is_live(self@, h) ==> r == Ok::<CFTypeID, CFError>(type_id_of(payload_of(self@, h))),
            !is_live(self@, h) ==> r == Err::<CFTypeID, CFError>(CFError::Released),
    {
        if h.index < self.slots.len() {
            match &self.slots[h.index] {
                Some(s) => match &s.payload {
                    Payload::Number(_) => Ok(NUMBER_TYPE_ID),
                    Payload::Data(_) => Ok(DATA_TYPE_ID),
                },
                None => Err(CFError::Released),
            }
        } else {
            Err(CFError::Released)
        }
    }

    /// Checks that `h` names a live object of type `expected`.
    pub fn check_type(&self, h: CFTypeRef, expected: CFTypeID) -> (r: Result<(), CFError>)
        ensures
            r == type_check(self@, h, expected),
    {
        match self.type_of(h) {
            Ok(t) => if t == expected {
                Ok(())
            } else {
                Err(CFError::TypeMismatch)
            },
            Err(e) => Err(e),
        }
    }

    /// The value of the live number object that `h` names.
    pub fn number_value(&self, h: CFTypeRef) -> (r: Result<NumberValue, CFError>)
        ensures
            !is_live(self@, h) ==> r == Err::<NumberValue, CFError>(CFError::Released),
            is_live(self@, h) ==> match payload_of(self@, h) {
                PayloadView::Number(n) => r == Ok::<NumberValue, CFError>(n),
                PayloadView::Data(_) => r == Err::<NumberValue, CFError>(CFError::TypeMismatch),
            },
    {
        if h.index < self.slots.len() {
            match &self.slots[h.index] {
                Some(s) => match &s.payload {
                    Payload::Number(n) => Ok(*n),
                    Payload::Data(_) => Err(CFError::TypeMismatch),
                },
                None => Err(CFError::Released),
            }
        } else {
            Err(CFError::Released)
        }
    }

    /// The bytes of the live byte-buffer object that `h` names; the view
    /// cannot outlive the runtime borrow it comes from.
    pub fn data_bytes(&self, h: CFTypeRef) -> (r: Result<&[u8], CFError>)
        ensures
            !is_live(self@, h) ==> r is Err && r->Err_0 == CFError::Released,
            is_live(self@, h) ==> match payload_of(self@, h) {
                PayloadView::Data(b) => r is Ok && r->Ok_0@ == b,
                PayloadView::Number(_) => r is Err && r->Err_0 == CFError::TypeMismatch,
            },
    {
        if h.index < self.slots.len() {
            match &self.slots[h.index] {
                Some(s) => match &s.payload {
                    Payload::Data(b) => Ok(b.as_slice()),
                    Payload::Number(_) => Err(CFError::TypeMismatch),
                },
                None => Err(CFError::Released),
            }
        } else {
            Err(CFError::Released)
        }
    }

    /// Takes one more reference to the live object `h`.
    pub fn retain(&mut self, h: CFTypeRef) -> (r: Result<(), CFError>)
        requires
            old(self).wf(),
        ensures
            final(self).wf(),
            !is_live(old(self)@, h) ==> r == Err::<(), CFError>(CFError::Released) && final(self)@
                == old(self)@,
            is_live(old(self)@, h) && count_of(old(self)@, h) == u64::MAX ==> r == Err::<
                (),
                CFError,
            >(CFError::CountExhausted) && final(self)@ == old(self)@,
            is_live(old(self)@, h) && count_of(old(self)@, h) < u64::MAX ==> r == Ok::<
                (),
                CFError,
            >(()) && final(self)@ == retained(old(self)@, h),
    {
        if h.index >= self.slots.len() {
            return Err(CFError::Released);
        }
        let mut slot: Option<Slot> = None;
        self.slots.set_and_swap(h.index, &mut slot);
        match slot {
            Some(s) => {
                let Slot { payload, count } = s;
                if count == u64::MAX {
                    self.slots.set(h.index, Some(Slot { payload, count }));
                    assert(self.slots@ =~= old(self).slots@);
                    Err(CFError::CountExhausted)
                } else {
                    self.slots.set(h.index, Some(Slot { payload, count: count + 1 }));
                    assert(self@ =~= retained(old(self)@, h));
                    Ok(())
                }
            },
            None => {
                self.slots.set(h.index, None);
                assert(self.slots@ =~= old(self).slots@);
                Err(CFError::Released)
            },
        }
    }

    /// Gives back one reference to the live object `h`; the last one frees it.
    pub fn release(&mut self, h: CFTypeRef) -> (r: Result<(), CFError>)
        requires
            old(self).wf(),
        ensures
            final(self).wf(),
            !is_live(old(self)@, h) ==> r == Err::<(), CFError>(CFError::Released) && final(self)@
                == old(self)@,
            is_live(old(self)@, h) ==> r == Ok::<(), CFError>(()) && final(self)@ == released(
                old(self)@,
                h,
            ),
            is_live(old(self)@, h) ==> count_of(final(self)@, h) == count_of(old(self)@, h) - 1,
    {
        if h.index >= self.slots.len() {
            return Err(CFError::Released);
        }
        let mut slot: Option<Slot> = None;
        self.slots.set_and_swap(h.index, &mut slot);
        match slot {
            Some(s) => {
                let Slot { payload, count } = s;
                if count <= 1 {
                    assert(self@ =~= released(old(self)@, h));
                } else {
                    self.slots.set(h.index, Some(Slot { payload, count: count - 1 }));
                    assert(self@ =~= released(old(self)@, h));
                }
                Ok(())
            },
            None => {
                assert(self.slots@ =~= old(self).slots@);
                Err(CFError::Released)
            },
        }
    }
}

} // verus!
