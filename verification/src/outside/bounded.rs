//! Collections and strings of a fixed capacity, from `heapless`.

use vstd::prelude::*;

use crate::proto::DeviceError;

verus! {

/// Up to ten candidate steps: destination, first pixel, last pixel and direction of each.
///
/// Holds a `heapless::Vec`.
#[verifier::external_body]
pub struct StepChoices {
    inner: heapless::Vec<(u16, u16, u16, u16), 10>,
}

/// The steps that a list holds, in order.
pub uninterp spec fn choices_of(list: StepChoices) -> Seq<(u16, u16, u16, u16)>;

impl StepChoices {
    /// `heapless::Vec::new` makes a list that holds nothing.
    #[verifier::external_body]
    pub(crate) fn new() -> (list: Self)
        ensures
            choices_of(list) == Seq::<(u16, u16, u16, u16)>::empty(),
    {
        StepChoices { inner: heapless::Vec::new() }
    }

    /// `heapless::Vec::push` appends the item, unless the list holds ten: then it fails and
    /// leaves the list as it is.
    #[verifier::external_body]
    pub(crate) fn push(&mut self, item: (u16, u16, u16, u16)) -> (ok: bool)
        ensures
            ok == (10 > choices_of(*old(self)).len()),
            choices_of(*final(self)) == (if ok {
                choices_of(*old(self)).push(item)
            } else {
                choices_of(*old(self))
            }),
    {
        self.inner.push(item).is_ok()
    }

    /// The length of a `heapless::Vec` as a slice is the number of its items, ten at most.
    #[verifier::external_body]
    pub(crate) fn len(&self) -> (n: usize)
        ensures
            n == choices_of(*self).len(),
            n <= 10,
    {
        self.inner.len()
    }

    /// Indexing a `heapless::Vec` gives the item at that place.
    #[verifier::external_body]
    pub(crate) fn at(&self, i: usize) -> (item: (u16, u16, u16, u16))
        requires
            i < choices_of(*self).len(),
        ensures
            item == choices_of(*self)[i as int],
    {
        self.inner[i]
    }
}

/// Up to four errors.
///
/// Holds a `heapless::Vec`.
#[verifier::external_body]
pub struct ErrorList {
    inner: heapless::Vec<DeviceError, 4>,
}

/// The errors that a list holds, in order.
pub uninterp spec fn errors_of(list: ErrorList) -> Seq<DeviceError>;

impl ErrorList {
    /// `heapless::Vec::new` makes a list that holds nothing.
    #[verifier::external_body]
    pub(crate) fn new() -> (list: Self)
        ensures
            errors_of(list) == Seq::<DeviceError>::empty(),
    {
        ErrorList { inner: heapless::Vec::new() }
    }

    /// `heapless::Vec::push` appends the item, unless the list holds four: then it fails and
    /// leaves the list as it is.
    #[verifier::external_body]
    pub(crate) fn push(&mut self, item: DeviceError) -> (ok: bool)
        ensures
            ok == (4 > errors_of(*old(self)).len()),
            errors_of(*final(self)) == (if ok {
                errors_of(*old(self)).push(item)
            } else {
                errors_of(*old(self))
            }),
    {
        self.inner.push(item).is_ok()
    }

    /// `heapless::Vec::clear` leaves nothing in the list.
    #[verifier::external_body]
    pub(crate) fn clear(&mut self)
        ensures
            errors_of(*final(self)) == Seq::<DeviceError>::empty(),
    {
        self.inner.clear()
    }

    /// The length of a `heapless::Vec` as a slice is the number of its items, four at most.
    #[verifier::external_body]
    pub(crate) fn len(&self) -> (n: usize)
        ensures
            n == errors_of(*self).len(),
            n <= 4,
    {
        self.inner.len()
    }

    /// Indexing a `heapless::Vec` gives the item at that place.
    #[verifier::external_body]
    pub(crate) fn at(&self, i: usize) -> (item: &DeviceError)
        requires
            i < errors_of(*self).len(),
        ensures
            *item == errors_of(*self)[i as int],
    {
        &self.inner[i]
    }
}

/// `heapless::String::try_from` takes a string whose UTF-8 encoding has at most `N` bytes, and
/// refuses a longer one.
#[verifier::external_body]
pub(crate) fn string_of_capacity<const N: usize>(s: &str) -> (r: Option<String>)
    ensures
        r is Some <==> vstd::utf8::encode_utf8(s@).len() <= N,
        r matches Some(t) ==> t@ == s@,
{
    match heapless::String::<N>::try_from(s) {
        Ok(t) => Some(t.as_str().to_string()),
        Err(_) => None,
    }
}

} // verus!
