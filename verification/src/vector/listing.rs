//! A list in debug output, with a record of what is written into it.
use core::fmt::{DebugList, Formatter};
use vstd::prelude::*;

verus! {

/// A list that is being written to a formatter, entry by entry.
///
/// What has been written cannot be seen in the formatter, so a record goes with
/// the list: the formatter on which it was started and the entries so far.
pub struct Listing<'a, 'b: 'a> {
    pub(super) list: DebugList<'a, 'b>,
    start: Ghost<Formatter<'b>>,
    entries: Ghost<Seq<u32>>,
}

impl<'a, 'b: 'a> Listing<'a, 'b> {
    /// The formatter as it was when the list was started.
    pub closed spec fn start(self) -> Formatter<'b> {
        self.start@
    }

    /// The entries, in the order in which they were written.
    pub closed spec fn entries(self) -> Seq<u32> {
        self.entries@
    }

    /// Ending this list, as it is, may give `r`.
    pub closed spec fn ends_with(self, r: core::fmt::Result) -> bool {
        exists|list: &mut DebugList<'a, 'b>|
            *list == self.list && #[trigger] call_ensures(
                DebugList::<'a, 'b>::finish,
                (list,),
                r,
            )
    }

    /// Starts a list.
    pub(super) fn begin(f: &'a mut Formatter<'b>) -> (listing: Self)
        ensures
            listing.start() == *old(f),
            listing.entries() == Seq::<u32>::empty(),
    {
        let ghost start = *f;
        Listing { list: f.debug_list(), start: Ghost(start), entries: Ghost(Seq::empty()) }
    }

    /// Ends the list and gives what that gave.
    pub(super) fn finish(self) -> (r: core::fmt::Result)
        ensures
            self.ends_with(r),
    {
        let mut list = self.list;
        reply(DebugList::finish, &mut list)
    }
}

/// What `end` gives for `list`.
fn reply<L, G: FnOnce(L) -> core::fmt::Result>(end: G, list: L) -> (r: core::fmt::Result)
    requires
        call_requires(end, (list,)),
    ensures
        call_ensures(end, (list,), r),
{
    end(list)
}

} // verus!
