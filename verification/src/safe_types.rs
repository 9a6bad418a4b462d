//! Equivalents of `&[T]`, `&mut [T]`, `&str` and `String` that plugins and the
//! server hand each other.
use crate::text::str_eq;
use vstd::prelude::*;
use vstd::std_specs::cmp::PartialEqSpecImpl;

verus! {

/// Equivalent of `&[T]`
#[derive(Clone, Copy)]
pub struct SSlice<'a, T> {
    slice: &'a [T],
}

impl<'a, T> SSlice<'a, T> {
    pub closed spec fn view(&self) -> Seq<T> {
        self.slice@
    }

    pub fn from_slice(slice: &'a [T]) -> (res: Self)
        ensures
            res@ == slice@,
    {
        Self { slice }
    }

    pub fn into_slice(self) -> (res: &'a [T])
        ensures
            res@ == self@,
    {
        self.slice
    }

    pub fn as_slice(&self) -> (res: &[T])
        ensures
            res@ == self@,
    {
        self.slice
    }

    pub fn len(&self) -> (res: usize)
        ensures
            res == self@.len(),
    {
        self.slice.len()
    }
}

/// Equivalent of `&mut [T]`
pub struct SMutSlice<'a, T> {
    slice: &'a mut [T],
}

impl<'a, T> SMutSlice<'a, T> {
    pub closed spec fn view(&self) -> Seq<T> {
        self.slice@
    }

    pub fn from_slice(slice: &'a mut [T]) -> (res: Self)
        ensures
            res@ == old(slice)@,
    {
        Self { slice }
    }

    pub fn into_slice(self) -> (res: &'a mut [T])
        ensures
            res@ == self@,
    {
        self.slice
    }

    pub fn as_slice(&self) -> (res: &[T])
        ensures
            res@ == self@,
    {
        &*self.slice
    }

    /// Borrows the elements mutably: what is written through the result is
    /// what the slice then holds.
    pub fn as_slice_mut(&mut self) -> (res: &mut [T])
        ensures
            res@ == old(self)@,
            final(self)@ == final(res)@,
    {
        &mut *self.slice
    }

    pub fn len(&self) -> (res: usize)
        ensures
            res == self@.len(),
    {
        self.slice.len()
    }
}

/// Equivalent of `&str`
#[derive(Clone, Copy, Hash)]
pub struct SStr<'a> {
    s: &'a str,
}

impl<'a> SStr<'a> {
    pub closed spec fn view(&self) -> Seq<char> {
        self.s@
    }

    pub fn from_str(s: &'a str) -> (res: Self)
        ensures
            res@ == s@,
    {
        Self { s }
    }

    pub fn as_str(&self) -> (res: &str)
        ensures
            res@ == self@,
    {
        self.s
    }

    pub fn into_str(self) -> (res: &'a str)
        ensures
            res@ == self@,
    {
        self.s
    }
}

/// Two `SStr` are equal when their texts are.
impl<'a> PartialEq for SStr<'a> {
    fn eq(&self, other: &Self) -> (res: bool) {
        str_eq(self.s, other.s)
    }
}

impl<'a> PartialEqSpecImpl for SStr<'a> {
    open spec fn obeys_eq_spec() -> bool {
        true
    }

    open spec fn eq_spec(&self, other: &Self) -> bool {
        self.view() == other.view()
    }
}

impl<'a> Eq for SStr<'a> {

}

/// Equivalent of `String`
pub struct SString {
    inner: String,
}

impl SString {
    pub closed spec fn view(&self) -> Seq<char> {
        self.inner@
    }

    pub fn from_string(s: String) -> (res: Self)
        ensures
            res@ == s@,
    {
        Self { inner: s }
    }

    pub fn into_string(self) -> (res: String)
        ensures
            res@ == self@,
    {
        self.inner
    }

    pub fn as_str(&self) -> (res: &str)
        ensures
            res@ == self@,
    {
        self.inner.as_str()
    }
}

/// Two `SString` are equal when their texts are.
impl PartialEq for SString {
    fn eq(&self, other: &Self) -> (res: bool) {
        str_eq(self.inner.as_str(), other.inner.as_str())
    }
}

impl PartialEqSpecImpl for SString {
    open spec fn obeys_eq_spec() -> bool {
        true
    }

    open spec fn eq_spec(&self, other: &Self) -> bool {
        self.view() == other.view()
    }
}

impl Eq for SString {

}

} // verus!
