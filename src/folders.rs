//! Which archive folders are known to exist, and the exchange with the server
//! that makes sure one does: at most one LIST and one CREATE per year.
use vstd::prelude::*;
use crate::text::folder_name;
use crate::text::year_to_folder;

verus! {

/// Why a year's folder could not be made sure of.
#[derive(Clone, Copy, Debug, PartialEq, Eq, Structural)]
pub enum FolderError {
    /// The exact-name listing matched more than one folder.
    ProtocolInvariantViolation,
    /// The server refused to create the folder.
    FolderCreateError,
}

/// What the server answered to the last request, or `Start` for a new year.
#[derive(Clone, Copy, Debug, PartialEq, Eq, Structural)]
pub enum EnsureEvent {
    Start,
    /// The listing of the folder's exact name returned this many entries.
    Listed(usize),
    /// The folder's creation succeeded (`true`) or was refused (`false`).
    Created(bool),
}

/// What to do next for the year being made sure of.
#[derive(Clone, Debug, PartialEq, Eq)]
pub enum EnsureStep {
    /// The folder exists; nothing is left to do.
    Done,
    /// List the folder of this exact name.
    List(String),
    /// Create the folder of this name.
    Create(String),
}

/// An `EnsureStep` with its folder name as text.
pub enum StepView {
    Done,
    List(Seq<char>),
    Create(Seq<char>),
}

impl View for EnsureStep {
    type V = StepView;

    open spec fn view(&self) -> StepView {
        match self {
            EnsureStep::Done => StepView::Done,
            EnsureStep::List(n) => StepView::List(n@),
            EnsureStep::Create(n) => StepView::Create(n@),
        }
    }
}

/// A step's outcome with the step seen as a `StepView`.
pub open spec fn outcome_view(r: Result<EnsureStep, FolderError>) -> Result<StepView, FolderError> {
    match r {
        Ok(s) => Ok(s@),
        Err(e) => Err(e),
    }
}

/// The years whose folders are known to exist after `event`, and what comes
/// next, starting from the known years `cached`.
pub open spec fn step_spec(cached: Set<u32>, year: u32, event: EnsureEvent) -> (Set<u32>, Result<
    StepView,
    FolderError,
>) {
    match event {
        EnsureEvent::Start => if cached.contains(year) {
            (cached, Ok(StepView::Done))
        } else {
            (cached, Ok(StepView::List(folder_name(year))))
        },
        EnsureEvent::Listed(n) => if n >= 2 {
            (cached, Err(FolderError::ProtocolInvariantViolation))
        } else if n == 1 {
            (cached.insert(year), Ok(StepView::Done))
        } else {
            (cached, Ok(StepView::Create(folder_name(year))))
        },
        EnsureEvent::Created(ok) => if ok {
            (cached.insert(year), Ok(StepView::Done))
        } else {
            (cached, Err(FolderError::FolderCreateError))
        },
    }
}

/// One whole exchange for `year`, where the server's listing returns `listed`
/// entries and its creation succeeds exactly when `create_ok`: the requests
/// made, in order, the outcome, and the years known afterwards.
pub open spec fn ensure_run(cached: Set<u32>, year: u32, listed: usize, create_ok: bool) -> (
    Seq<StepView>,
    Result<(), FolderError>,
    Set<u32>,
) {
    let (c1, r1) = step_spec(cached, year, EnsureEvent::Start);
    match r1 {
        Ok(StepView::List(name)) => {
            let (c2, r2) = step_spec(c1, year, EnsureEvent::Listed(listed));
            match r2 {
                Ok(StepView::Create(name2)) => {
                    let (c3, r3) = step_spec(c2, year, EnsureEvent::Created(create_ok));
                    let res = match r3 {
                        Ok(_) => Ok(()),
                        Err(e) => Err(e),
                    };
                    (seq![StepView::List(name), StepView::Create(name2)], res, c3)
                },
                Ok(_) => (seq![StepView::List(name)], Ok(()), c2),
                Err(e) => (seq![StepView::List(name)], Err(e), c2),
            }
        },
        _ => (Seq::empty(), Ok(()), c1),
    }
}

/// The years whose archive folders are known to exist in this run. It only
/// ever grows, and a year enters it only once its folder was listed or created.
pub struct FolderCache {
    years: Vec<u32>,
}

impl View for FolderCache {
    type V = Set<u32>;

    closed spec fn view(&self) -> Set<u32> {
        self.years@.to_set()
    }
}

impl FolderCache {
    /// A cache that knows of no folder.
    pub fn new() -> (r: FolderCache)
        ensures
            r@ == Set::<u32>::empty(),
    {
        let r = FolderCache { years: Vec::new() };
        assert(r.years@.to_set() =~= Set::<u32>::empty());
        r
    }

    /// Whether the folder of `year` is known to exist.
    pub fn contains(&self, year: u32) -> (r: bool)
        ensures
            r == self@.contains(year),
    {
        let mut i: usize = 0;
        while i < self.years.len()
            invariant
                i <= self.years@.len(),
                forall|k: int| 0 <= k < i ==> self.years@[k] != year,
            decreases self.years@.len() - i,
        {
            if self.years[i] == year {
                assert(self.years@.contains(year));
                return true;
            }
            i = i + 1;
        }
        false
    }

    fn insert(&mut self, year: u32)
        ensures
            final(self)@ == old(self)@.insert(year),
    {
        if !self.contains(year) {
            self.years.push(year);
            assert(self.years@.to_set() =~= old(self)@.insert(year)) by {
                assert forall|y: u32| self.years@.contains(y) <==> (old(self).years@.contains(y)
                    || y == year) by {
                    if self.years@.contains(y) && y != year {
                        let k = choose|k: int| 0 <= k < self.years@.len() && self.years@[k] == y;
                        assert(old(self).years@[k] == y);
                    }
                    if old(self).years@.contains(y) {
                        let k = choose|k: int|
                            0 <= k < old(self).years@.len() && old(self).years@[k] == y;
                        assert(self.years@[k] == y);
                    }
                    if y == year {
                        assert(self.years@[self.years@.len() - 1] == y);
                    }
                }
            }
        } else {
            assert(old(self)@.insert(year) =~= old(self)@);
        }
    }

    /// Takes the next step of making sure that the folder of `year` exists,
    /// given the server's answer `event` to the last request: list the folder
    /// unless it is known, create it when the listing found none, and record
    /// it once it was found or created. More than one listed folder, or a
    /// refused creation, is an error, and leaves the year unrecorded.
    pub fn ensure_folder_step(&mut self, year: u32, event: EnsureEvent) -> (r: Result<
        EnsureStep,
        FolderError,
    >)
        ensures
            (final(self)@, outcome_view(r)) == step_spec(old(self)@, year, event),
    {
        match event {
            EnsureEvent::Start => {
                if self.contains(year) {
                    Ok(EnsureStep::Done)
                } else {
                    Ok(EnsureStep::List(year_to_folder(year)))
                }
            },
            EnsureEvent::Listed(n) => {
                if n >= 2 {
                    Err(FolderError::ProtocolInvariantViolation)
                } else if n == 1 {
                    self.insert(year);
                    Ok(EnsureStep::Done)
                } else {
                    Ok(EnsureStep::Create(year_to_folder(year)))
                }
            },
            EnsureEvent::Created(ok) => {
                if ok {
                    self.insert(year);
                    Ok(EnsureStep::Done)
                } else {
                    Err(FolderError::FolderCreateError)
                }
            },
        }
    }
}

/// Making sure of a year's folder twice in a row, where the first time
/// succeeded, asks the server for exactly one listing and at most one
/// creation: the second time is answered from the cache.
pub proof fn lemma_second_ensure_hits_cache(
    cached: Set<u32>,
    year: u32,
    listed1: usize,
    create_ok1: bool,
    listed2: usize,
    create_ok2: bool,
)
    requires
        !cached.contains(year),
        ensure_run(cached, year, listed1, create_ok1).1 is Ok,
    ensures
        ({
            let (calls1, _, after1) = ensure_run(cached, year, listed1, create_ok1);
            let (calls2, res2, after2) = ensure_run(after1, year, listed2, create_ok2);
            &&& calls1.len() >= 1
            &&& calls1[0] == StepView::List(folder_name(year))
            &&& calls1.len() == 1 || (calls1.len() == 2 && calls1[1] == StepView::Create(
                folder_name(year),
            ))
            &&& calls2.len() == 0
            &&& res2 is Ok
            &&& after2 == after1
            &&& after1 == cached.insert(year)
        }),
{
}

/// When the exact-name listing of a year's folder returns two or more
/// entries, making sure of the folder fails with a protocol violation after
/// that one listing: nothing is created and the year is not recorded.
pub proof fn lemma_ambiguous_listing_fails(cached: Set<u32>, year: u32, listed: usize, create_ok: bool)
    requires
        !cached.contains(year),
        listed >= 2,
    ensures
        ensure_run(cached, year, listed, create_ok) == (
            seq![StepView::List(folder_name(year))],
            Err::<(), FolderError>(FolderError::ProtocolInvariantViolation),
            cached,
        ),
{
}

} // verus!
