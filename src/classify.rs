//! Grouping a batch's fetched records by the year they were received.
use vstd::prelude::*;
use chrono::Datelike;
use crate::text::parse_year;
use crate::text::year_of_text;

verus! {

/// What the server reported of one message: its identifier and the year of
/// its internal date, as the server's date reads (`%Y`). Either may be absent.
#[derive(Clone, Debug, PartialEq, Eq)]
pub struct FetchedRecord {
    pub uid: Option<u32>,
    pub year_text: Option<String>,
}

/// Why a batch's records could not be grouped.
#[derive(Clone, Copy, Debug, PartialEq, Eq, Structural)]
pub enum ClassifyError {
    /// A record has no internal date.
    MissingDate,
    /// A record has no identifier.
    MissingIdentifier,
    /// A record's year is not a decimal integer.
    DateParseError,
}

/// The identifiers of one year, in the order first seen, each once.
#[derive(Clone, Debug, PartialEq, Eq)]
pub struct YearGroup {
    pub year: u32,
    pub uids: Vec<u32>,
}

/// The year and identifier of a record, or the first thing wrong with it:
/// the date is looked at before its year, and the year before the identifier.
pub open spec fn record_entry(rec: FetchedRecord) -> Result<(u32, u32), ClassifyError> {
    match rec.year_text {
        None => Err(ClassifyError::MissingDate),
        Some(t) => match year_of_text(t@) {
            None => Err(ClassifyError::DateParseError),
            Some(y) => match rec.uid {
                None => Err(ClassifyError::MissingIdentifier),
                Some(u) => Ok((y, u)),
            },
        },
    }
}

/// Whether every record has a date, a readable year and an identifier.
pub open spec fn all_valid(recs: Seq<FetchedRecord>) -> bool {
    forall|k: int| 0 <= k < recs.len() ==> (#[trigger] record_entry(recs[k])) is Ok
}

/// `e` is the error of the first record that has one.
pub open spec fn first_error_is(recs: Seq<FetchedRecord>, e: ClassifyError) -> bool {
    exists|k: int|
        0 <= k < recs.len() && (forall|j: int| 0 <= j < k ==> (#[trigger] record_entry(recs[j])) is Ok)
            && record_entry(recs[k]) == Err::<(u32, u32), ClassifyError>(e)
}

/// The identifiers of the records of `year`, in order, each kept once.
pub open spec fn uids_of_year(recs: Seq<FetchedRecord>, year: u32) -> Seq<u32>
    decreases recs.len(),
{
    if recs.len() == 0 {
        Seq::empty()
    } else {
        let prev = uids_of_year(recs.drop_last(), year);
        let e = record_entry(recs.last());
        if e is Ok && e->Ok_0.0 == year && !prev.contains(e->Ok_0.1) {
            prev.push(e->Ok_0.1)
        } else {
            prev
        }
    }
}

/// `groups` holds one group for each year of `recs` but the current one, and
/// each group holds the identifiers of its year.
pub open spec fn groups_match(groups: Seq<YearGroup>, recs: Seq<FetchedRecord>, current: i32) -> bool {
    &&& forall|j: int, k: int|
        0 <= j < k < groups.len() ==> (#[trigger] groups[j]).year != (#[trigger] groups[k]).year
    &&& forall|j: int|
        0 <= j < groups.len() ==> (#[trigger] groups[j]).year as int != current as int
            && groups[j].uids@ == uids_of_year(recs, groups[j].year)
            && groups[j].uids@.len() > 0
    &&& forall|k: int|
        0 <= k < recs.len() && (#[trigger] record_entry(recs[k])) is Ok
            && record_entry(recs[k])->Ok_0.0 as int != current as int ==> exists|j: int|
            0 <= j < groups.len() && (#[trigger] groups[j]).year == record_entry(recs[k])->Ok_0.0
}

/// Reads the year and identifier of one record.
pub fn check_record(rec: &FetchedRecord) -> (r: Result<(u32, u32), ClassifyError>)
    ensures
        r == record_entry(*rec),
{
    let year = match &rec.year_text {
        None => return Err(ClassifyError::MissingDate),
        Some(t) => match parse_year(t.as_str()) {
            None => return Err(ClassifyError::DateParseError),
            Some(y) => y,
        },
    };
    match rec.uid {
        None => Err(ClassifyError::MissingIdentifier),
        Some(u) => Ok((year, u)),
    }
}

/// An identifier is among those of `year` exactly when a record of that year
/// carries it.
pub proof fn lemma_uids_of_year_contains(recs: Seq<FetchedRecord>, year: u32, uid: u32)
    ensures
        uids_of_year(recs, year).contains(uid) <==> exists|k: int|
            0 <= k < recs.len() && #[trigger] record_entry(recs[k]) == Ok::<(u32, u32), ClassifyError>(
                (year, uid),
            ),
    decreases recs.len(),
{
    if recs.len() > 0 {
        let prev = recs.drop_last();
        lemma_uids_of_year_contains(prev, year, uid);
        if uids_of_year(prev, year).contains(uid) {
            let idx = choose|idx: int|
                0 <= idx < uids_of_year(prev, year).len() && uids_of_year(prev, year)[idx] == uid;
            assert(uids_of_year(recs, year)[idx] == uid);
        }
        if uids_of_year(recs, year).contains(uid) {
            if !uids_of_year(prev, year).contains(uid) {
                let e = record_entry(recs.last());
                assert(uids_of_year(recs, year) == uids_of_year(prev, year).push(e->Ok_0.1));
                let i = uids_of_year(recs, year).len() - 1;
                assert(uids_of_year(recs, year)[i] == uid);
                assert(record_entry(recs[recs.len() - 1]) == Ok::<(u32, u32), ClassifyError>(
                    (year, uid),
                ));
            } else {
                let k = choose|k: int|
                    0 <= k < prev.len() && #[trigger] record_entry(prev[k]) == Ok::<
                        (u32, u32),
                        ClassifyError,
                    >((year, uid));
                assert(prev[k] == recs[k]);
            }
        } else {
            assert forall|k: int| 0 <= k < recs.len() implies #[trigger] record_entry(recs[k]) != Ok::<
                (u32, u32),
                ClassifyError,
            >((year, uid)) by {
                if k < prev.len() {
                    assert(prev[k] == recs[k]);
                } else {
                    assert(recs[k] == recs.last());
                    let e = record_entry(recs.last());
                    if e == Ok::<(u32, u32), ClassifyError>((year, uid)) {
                        if !uids_of_year(prev, year).contains(uid) {
                            assert(uids_of_year(recs, year) == uids_of_year(prev, year).push(uid));
                            assert(uids_of_year(recs, year)[uids_of_year(prev, year).len() as int]
                                == uid);
                        }
                    }
                }
            }
        }
    }
}

fn contains_uid(v: &Vec<u32>, u: u32) -> (r: bool)
    ensures
        r == v@.contains(u),
{
    let mut i: usize = 0;
    while i < v.len()
        invariant
            i <= v@.len(),
            forall|k: int| 0 <= k < i ==> v@[k] != u,
        decreases v@.len() - i,
    {
        if v[i] == u {
            return true;
        }
        i = i + 1;
    }
    false
}

fn find_year(groups: &Vec<YearGroup>, year: u32) -> (r: Option<usize>)
    ensures
        match r {
            Some(j) => j < groups@.len() && groups@[j as int].year == year,
            None => forall|j: int| 0 <= j < groups@.len() ==> (#[trigger] groups@[j]).year != year,
        },
{
    let mut i: usize = 0;
    while i < groups.len()
        invariant
            i <= groups@.len(),
            forall|j: int| 0 <= j < i ==> (#[trigger] groups@[j]).year != year,
        decreases groups@.len() - i,
    {
        if groups[i].year == year {
            return Some(i);
        }
        i = i + 1;
    }
    None
}

/// Groups a batch's records by year, leaving out those of `current_year`.
/// Fails with the error of the first record that lacks a date, a readable
/// year or an identifier.
pub fn classify(records: &[FetchedRecord], current_year: i32) -> (r: Result<
    Vec<YearGroup>,
    ClassifyError,
>)
    ensures
        match r {
            Ok(groups) => all_valid(records@) && groups_match(groups@, records@, current_year),
            Err(e) => first_error_is(records@, e),
        },
        all_valid(records@) ==> r is Ok,
{
    let mut groups: Vec<YearGroup> = Vec::new();
    let mut i: usize = 0;
    while i < records.len()
        invariant
            i <= records@.len(),
            forall|k: int| 0 <= k < i ==> (#[trigger] record_entry(records@[k])) is Ok,
            groups_match(groups@, records@.take(i as int), current_year),
        decreases records@.len() - i,
    {
        let ghost before = records@.take(i as int);
        let ghost after = records@.take(i + 1);
        let ghost old_groups = groups@;
        let (year, uid) = match check_record(&records[i]) {
            Err(e) => {
                assert(record_entry(records@[i as int]) == Err::<(u32, u32), ClassifyError>(e));
                return Err(e);
            },
            Ok(p) => p,
        };
        proof {
            assert(after.drop_last() =~= before);
            assert(after.last() == records@[i as int]);
            assert forall|k: int| 0 <= k < before.len() implies after[k] == before[k] by {}
            lemma_uids_of_year_contains(before, year, uid);
        }
        proof {
            assert forall|y: u32|
                #[trigger] uids_of_year(after, y) == (if y == year && !uids_of_year(
                    before,
                    y,
                ).contains(uid) {
                    uids_of_year(before, y).push(uid)
                } else {
                    uids_of_year(before, y)
                }) by {}
        }
        let ghost mut witness: int = -1;
        if year as i64 != current_year as i64 {
            match find_year(&groups, year) {
                Some(j) => {
                    proof {
                        witness = j as int;
                    }
                    if !contains_uid(&groups[j].uids, uid) {
                        groups[j].uids.push(uid);
                        assert(groups@ == old_groups.update(
                            j as int,
                            YearGroup { year, uids: groups@[j as int].uids },
                        ));
                        assert(groups@[j as int].uids@ == old_groups[j as int].uids@.push(uid));
                    }
                    proof {
                        assert forall|jj: int| 0 <= jj < groups@.len() implies (#[trigger] groups@[jj]).year
                            == old_groups[jj].year by {}
                    }
                },
                None => {
                    proof {
                        if uids_of_year(before, year).len() > 0 {
                            let u0 = uids_of_year(before, year)[0];
                            lemma_uids_of_year_contains(before, year, u0);
                            assert(uids_of_year(before, year).contains(u0));
                            let k = choose|k: int|
                                0 <= k < before.len() && #[trigger] record_entry(before[k]) == Ok::<
                                    (u32, u32),
                                    ClassifyError,
                                >((year, u0));
                            assert(record_entry(before[k]) is Ok);
                        }
                        assert(uids_of_year(before, year) =~= Seq::<u32>::empty());
                    }
                    let mut v: Vec<u32> = Vec::new();
                    v.push(uid);
                    groups.push(YearGroup { year, uids: v });
                    assert(v@ =~= uids_of_year(after, year));
                    proof {
                        witness = old_groups.len() as int;
                        assert forall|jj: int| 0 <= jj < old_groups.len() implies (#[trigger] groups@[jj]).year
                            == old_groups[jj].year by {}
                    }
                },
            }
        }
        proof {
            assert(year as int != current_year as int ==> 0 <= witness < groups@.len()
                && groups@[witness].year == year);
            assert forall|jj: int| 0 <= jj < old_groups.len() implies (#[trigger] groups@[jj]).year
                == old_groups[jj].year && jj < groups@.len() by {}
            assert forall|j: int|
                0 <= j < groups@.len() implies (#[trigger] groups@[j]).year as int != current_year as int
                && groups@[j].uids@ == uids_of_year(after, groups@[j].year) && groups@[j].uids@.len()
                > 0 by {
                if j < old_groups.len() && groups@[j] == old_groups[j] {
                    assert(old_groups[j].uids@ == uids_of_year(before, old_groups[j].year));
                }
            }
            assert forall|k: int|
                0 <= k < after.len() && (#[trigger] record_entry(after[k])) is Ok
                    && record_entry(after[k])->Ok_0.0 as int != current_year as int implies exists|
                j: int,
            | 0 <= j < groups@.len() && (#[trigger] groups@[j]).year == record_entry(
                after[k],
            )->Ok_0.0 by {
                if k < before.len() {
                    assert(after[k] == before[k]);
                    let j0 = choose|j: int|
                        0 <= j < old_groups.len() && (#[trigger] old_groups[j]).year
                            == record_entry(before[k])->Ok_0.0;
                    assert(groups@[j0].year == old_groups[j0].year);
                } else {
                    assert(after[k] == records@[i as int]);
                    assert(groups@[witness].year == year);
                }
            }
        }
        i = i + 1;
    }
    assert(records@.take(records@.len() as int) =~= records@);
    Ok(groups)
}

/// Whether no two records carry the same identifier.
pub open spec fn distinct_uids(recs: Seq<FetchedRecord>) -> bool {
    forall|k1: int, k2: int|
        0 <= k1 < k2 < recs.len() ==> (#[trigger] recs[k1]).uid != (#[trigger] recs[k2]).uid
}

/// In the groups of a batch whose identifiers are distinct, a message of the
/// current year is in no group, and every other message is in the group of its
/// year and in no other.
pub proof fn lemma_each_message_in_its_year(
    recs: Seq<FetchedRecord>,
    current: i32,
    groups: Seq<YearGroup>,
    k: int,
)
    requires
        all_valid(recs),
        distinct_uids(recs),
        groups_match(groups, recs, current),
        0 <= k < recs.len(),
    ensures
        forall|j: int|
            0 <= j < groups.len() ==> ((#[trigger] groups[j]).uids@.contains(
                record_entry(recs[k])->Ok_0.1,
            ) <==> (record_entry(recs[k])->Ok_0.0 as int != current as int && groups[j].year
                == record_entry(recs[k])->Ok_0.0)),
        record_entry(recs[k])->Ok_0.0 as int != current as int ==> exists|j: int|
            0 <= j < groups.len() && (#[trigger] groups[j]).year == record_entry(recs[k])->Ok_0.0,
{
    let (year, uid) = record_entry(recs[k])->Ok_0;
    assert(record_entry(recs[k]) is Ok);
    assert forall|j: int| 0 <= j < groups.len() implies ((#[trigger] groups[j]).uids@.contains(uid)
        <==> (year as int != current as int && groups[j].year == year)) by {
        let gy = groups[j].year;
        lemma_uids_of_year_contains(recs, gy, uid);
        if groups[j].uids@.contains(uid) {
            let k2 = choose|k2: int|
                0 <= k2 < recs.len() && #[trigger] record_entry(recs[k2]) == Ok::<
                    (u32, u32),
                    ClassifyError,
                >((gy, uid));
            if k2 != k {
                if k2 < k {
                    assert(recs[k2].uid != recs[k].uid);
                } else {
                    assert(recs[k].uid != recs[k2].uid);
                }
            }
        }
        if year as int != current as int && gy == year {
            assert(record_entry(recs[k]) == Ok::<(u32, u32), ClassifyError>((gy, uid)));
        }
    }
}

/// Relies on chrono's `Utc::now` and `Datelike::year`: the year of the system
/// clock's present moment, in UTC.
#[verifier::external_body]
fn current_year() -> (r: i32) {
    chrono::Utc::now().year()
}

/// Groups a batch's records by year as `classify` does, with the current
/// year read once from the system clock.
pub fn classify_now(records: &[FetchedRecord]) -> (r: Result<Vec<YearGroup>, ClassifyError>)
    ensures
        match r {
            Ok(groups) => all_valid(records@) && exists|current: i32|
                groups_match(groups@, records@, current),
            Err(e) => first_error_is(records@, e),
        },
        all_valid(records@) ==> r is Ok,
{
    let current = current_year();
    classify(records, current)
}

} // verus!
