//! The move request that files one year's messages into its folder.
use vstd::prelude::*;
use crate::classify::YearGroup;
use crate::text::create_uidset;
use crate::text::folder_name;
use crate::text::uidset_text;
use crate::text::year_to_folder;

verus! {

/// A request to move the messages of `uid_set` into `folder`.
#[derive(Clone, Debug, PartialEq, Eq)]
pub struct MoveRequest {
    /// The messages' identifiers, joined by commas.
    pub uid_set: String,
    /// The destination folder.
    pub folder: String,
}

/// The one move request that files `uids` into the archive folder of `year`.
pub fn archive_request(year: u32, uids: &[u32]) -> (r: MoveRequest)
    ensures
        r.uid_set@ == uidset_text(uids@),
        r.folder@ == folder_name(year),
{
    MoveRequest { uid_set: create_uidset(uids), folder: year_to_folder(year) }
}

/// One operation of a batch's work on the server.
#[derive(Clone, Debug, PartialEq, Eq)]
pub enum BatchOp {
    /// Make sure the archive folder of this year exists.
    EnsureFolder(u32),
    /// Move messages into an archive folder.
    Archive(MoveRequest),
}

/// `op` makes sure of the folder of `year`.
pub open spec fn is_ensure(op: BatchOp, year: u32) -> bool {
    op == BatchOp::EnsureFolder(year)
}

/// `op` moves exactly `uids` into the folder of `year`.
pub open spec fn is_archive(op: BatchOp, year: u32, uids: Seq<u32>) -> bool {
    match op {
        BatchOp::Archive(m) => m.uid_set@ == uidset_text(uids) && m.folder@ == folder_name(year),
        _ => false,
    }
}

/// The operations for a batch's year groups, in order: for each group, make
/// sure of its year's folder, then move its messages there.
pub fn batch_plan(groups: &[YearGroup]) -> (r: Vec<BatchOp>)
    requires
        groups@.len() * 2 <= usize::MAX,
    ensures
        r@.len() == 2 * groups@.len(),
        forall|i: int|
            0 <= i < groups@.len() ==> is_ensure(r@[2 * i], (#[trigger] groups@[i]).year)
                && is_archive(r@[2 * i + 1], groups@[i].year, groups@[i].uids@),
{
    let mut r: Vec<BatchOp> = Vec::new();
    let mut i: usize = 0;
    while i < groups.len()
        invariant
            i <= groups@.len(),
            r@.len() == 2 * i,
            forall|k: int|
                0 <= k < i ==> is_ensure(r@[2 * k], (#[trigger] groups@[k]).year) && is_archive(
                    r@[2 * k + 1],
                    groups@[k].year,
                    groups@[k].uids@,
                ),
        decreases groups@.len() - i,
    {
        let g = &groups[i];
        r.push(BatchOp::EnsureFolder(g.year));
        r.push(BatchOp::Archive(archive_request(g.year, g.uids.as_slice())));
        i = i + 1;
    }
    r
}

} // verus!
