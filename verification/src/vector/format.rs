//! Debug output.
use core::fmt::Formatter;
use vstd::prelude::*;

use crate::vector::iter::Iter;
use crate::vector::listing::Listing;
use crate::vector::CompactVec;

verus! {

/// `core::fmt::Formatter`, which carries the options and the output of a format
/// call. Nothing is said of what is inside.
#[verifier::external_type_specification]
#[verifier::external_body]
pub struct ExFormatter<'a>(core::fmt::Formatter<'a>);

/// `core::fmt::Error`, which a format call gives where its output fails.
#[verifier::external_type_specification]
#[verifier::external_body]
pub struct ExFormatError(core::fmt::Error);

/// `core::fmt::DebugList`, which writes a list entry by entry. Nothing is said of
/// what is inside.
#[verifier::external_type_specification]
#[verifier::external_body]
pub struct ExDebugList<'a, 'b: 'a>(core::fmt::DebugList<'a, 'b>);

/// `core::fmt::Formatter::debug_list`, which starts a list. What has been written
/// cannot be seen in the formatter, so nothing is said of it.
pub assume_specification<'a, 'b>[ core::fmt::Formatter::<'a>::debug_list ](
    f: &'b mut core::fmt::Formatter<'a>,
) -> (list: core::fmt::DebugList<'b, 'a>)
;

/// `core::fmt::DebugList::finish`, which ends a list. Whether that succeeds rests
/// on the output behind the formatter, so nothing is said of it.
pub assume_specification<'a, 'b: 'a>[ core::fmt::DebugList::<'a, 'b>::finish ](
    list: &mut core::fmt::DebugList<'a, 'b>,
) -> (r: core::fmt::Result)
;

/// `core::fmt::DebugList::entries`, which writes what an iterator yields, from
/// first to last, behind what the list has: here the elements of the vector that
/// is shown. They go on the record of the list; what the formatter makes of them
/// cannot be seen, so nothing is said of it.
#[verifier::external_body]
fn write_entries(_shown: &CompactVec, entries: Iter<'_>, list: &mut Listing<'_, '_>)
    requires
        entries@ == _shown@,
    ensures
        final(list).start() == old(list).start(),
        final(list).entries() == old(list).entries() + entries@,
{
    list.list.entries(entries);
}

impl core::fmt::Debug for CompactVec {
    /// Writes the elements as a list, in the form of a `Vec<u32>`: every element
    /// once, in order, and nothing else.
    fn fmt(&self, f: &mut Formatter<'_>) -> (r: core::fmt::Result)
        ensures
            exists|listing: Listing<'_, '_>|
                {
                    &&& listing.start() == *old(f)
                    &&& #[trigger] listing.entries() == self@
                    &&& listing.ends_with(r)
                },
    {
        let mut listing = Listing::begin(f);
        write_entries(self, self.iter(), &mut listing);
        listing.finish()
    }
}

} // verus!
