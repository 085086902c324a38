//! Structures of definitions as records of fields.

use vstd::prelude::*;

use crate::defs::field;
use crate::defs::field::DefField;
use crate::text::base;
use crate::value::{Member, MemberView, Record};

verus! {

broadcast use base::group_views;

/// The structure of a definition.
pub trait DefStruct: View + Sized {
    /// The fields, by the names that text gives them.
    spec fn members(v: Self::V) -> Seq<MemberView>;

    /// The structure that some fields are.
    spec fn read_members(m: Seq<MemberView>) -> Option<Self::V>;

    /// A structure reads back from its fields.
    proof fn record_reads_back(v: Self::V)
        ensures
            Self::read_members(Self::members(v)) == Some(v),
    ;

    /// The fields, by the names that text gives them.
    fn record(&self) -> (r: Record)
        ensures
            r@ == Self::members(self@),
    ;

    /// The structure that some fields are.
    fn from_record(r: &Record) -> (o: Option<Self>)
        ensures
            field::opt_view(o) == Self::read_members(r@),
    ;
}

/// A field with its name.
pub open spec fn member_view<T: DefField>(name: Seq<char>, v: T::V) -> MemberView {
    MemberView { name, value: T::field(v) }
}

/// A field with its name.
pub fn new_member<T: DefField>(name: &str, x: &T) -> (r: Member)
    ensures
        r@ == member_view::<T>(name@, x@),
{
    Member { name: name.to_owned(), value: x.to_value() }
}

} // verus!
