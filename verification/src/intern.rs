//! Trusted interface to the `internment` crate, which keeps one copy of each
//! distinct string in a process-wide append-only pool.
//!
//! The pool hands out `Intern<String>` handles; `intern_text` names the string
//! a handle stands for. Everything the rest of the crate knows about a handle
//! goes through that name.

use vstd::prelude::*;

verus! {

#[verifier::external_type_specification]
#[verifier::external_body]
#[verifier::reject_recursive_types(T)]
pub struct ExIntern<T: 'static + ?Sized>(internment::Intern<T>);

/// The text an interned-string handle stands for.
pub uninterp spec fn intern_text(i: internment::Intern<String>) -> Seq<char>;

/// Relies on `internment::Intern::new`: the returned handle stands for exactly
/// the value that was interned.
#[verifier::external_body]
pub(crate) fn intern_str(s: &str) -> (r: internment::Intern<String>)
    ensures
        intern_text(r) == s@,
{
    internment::Intern::new(s.to_owned())
}

/// Relies on `internment::Intern`'s `PartialEq`: the pool keeps one pointer
/// per distinct value, so pointer equality holds exactly when the interned
/// strings are equal.
#[verifier::external_body]
pub(crate) fn intern_eq(a: &internment::Intern<String>, b: &internment::Intern<String>) -> (r:
    bool)
    ensures
        r == (intern_text(*a) == intern_text(*b)),
{
    a == b
}

/// Relies on `internment::Intern::as_ref`: a handle dereferences to the very
/// string that was interned.
#[verifier::external_body]
pub(crate) fn intern_get(i: &internment::Intern<String>) -> (s: &String)
    ensures
        s@ == intern_text(*i),
{
    i.as_ref()
}

} // verus!
