//! The order of a save, as a state machine that the caller drives: the recovery checkpoint
//! is written before any photograph or page is, and a finished save removes only the
//! checkpoint that it wrote itself.
use vstd::prelude::*;
use std::path::PathBuf;
use crate::calendar::{CalendarDate, ymd_reading, parse_ymd};
use crate::recovery::{SaveResult, owns_checkpoint, texts_view};
use crate::sessions::{opt_view, clone_opt_string};
use crate::text::{chars_of, string_of, find, find_from, lemma_find_from_facts};

verus! {

/// The first segment of a slash-separated path: everything before the first `/`.
pub open spec fn first_segment(p: Seq<char>) -> Seq<char> {
    match find_from(p, seq!['/'], 0) {
        Some(i) => p.take(i),
        None => p,
    }
}

/// The day whose folder holds a recorded photograph, when the folder names a day of the
/// journal's year. Equal years are equal `%Y` texts.
pub open spec fn asset_folder_date(path: Seq<char>, year: int) -> Result<(int, int, int), Seq<char>> {
    match ymd_reading(first_segment(path)) {
        None => Err("Invalid photograph directory."@),
        Some(d) => if d.0 == year {
            Ok(d)
        } else {
            Err("Photograph directory is outside this journal year."@)
        },
    }
}

/// The day whose folder holds a recorded photograph: the first segment of its path, read
/// as `YYYY-MM-DD`, which must fall in `year`.
pub fn asset_folder(path: &str, year: i32) -> (r: Result<CalendarDate, String>)
    ensures
        match r {
            Ok(d) => asset_folder_date(path@, year as int) == Ok::<(int, int, int), Seq<char>>(d@),
            Err(e) => asset_folder_date(path@, year as int) == Err::<(int, int, int), Seq<char>>(e@),
        },
{
    let chars = chars_of(path);
    let slash = ['/'];
    proof {
        assert(slash@ =~= seq!['/']);
        lemma_find_from_facts(path@, seq!['/'], 0);
    }
    let cs = chars.as_slice();
    let ss = slash.as_slice();
    assert(cs@ == path@ && ss@ == seq!['/']);
    let found = find(cs, ss, 0);
    assert(find_from(cs@, ss@, 0) == find_from(path@, seq!['/'], 0));
    let first = match found {
        Some(i) => {
            let ghost j = find_from(path@, seq!['/'], 0).unwrap();
            assert(0 <= j < cs@.len() && cs@.len() == cs.len());
            assert(j as usize == i);
            assert(path@.take(i as int) =~= chars@.subrange(0, i as int));
            string_of(&cs[0..i])
        },
        None => string_of(cs),
    };
    assert(first@ == first_segment(path@));
    match parse_ymd(first.as_str()) {
        None => Err(String::from_str("Invalid photograph directory.")),
        Some(d) => {
            if d.year() == year {
                Ok(d)
            } else {
                Err(String::from_str("Photograph directory is outside this journal year."))
            }
        },
    }
}

/// Where a save stands: which step's outcome it waits for.
pub enum SavePhase {
    Reading,
    Checkpointing,
    Reloading,
    Storing(usize),
    Persisting,
    Checking,
    Removing,
    Finished,
}

/// What the caller is asked to do next.
pub enum SaveStep {
    /// Read the journal's recovery checkpoint.
    ReadRecords,
    /// Write the checkpoint with this save's record in it.
    WriteCheckpoint,
    /// Reload the journal from the recorded text.
    Reload,
    /// Store the recorded photograph of this index in the folder of this day.
    StoreAsset(usize, CalendarDate),
    /// Replace the page on disk with the recorded text.
    Persist,
    /// Read the checkpoint again and report the token it now holds for this page.
    ReadCheckpoint,
    /// Remove this page's record from the checkpoint.
    RemoveCheckpoint,
    /// The save is over, with this result.
    Finish(SaveResult),
    /// The save is over, with this error.
    Fail(String),
}

/// How the step that the caller was asked to do went.
pub enum SaveEvent {
    Done,
    Failed(String),
    Persisted(Vec<PathBuf>),
    Token(Option<String>),
}

/// A save's result, as values.
pub struct ResultModel {
    pub saved: bool,
    pub recovered: bool,
    pub base: Option<Seq<char>>,
    pub cause: Option<Seq<char>>,
    pub conflicts: Seq<PathBuf>,
}

/// A step, as values.
pub enum StepModel {
    ReadRecords,
    WriteCheckpoint,
    Reload,
    StoreAsset(int, (int, int, int)),
    Persist,
    ReadCheckpoint,
    RemoveCheckpoint,
    Finish(ResultModel),
    Fail(Seq<char>),
}

/// An outcome, as values.
pub enum EventModel {
    Done,
    Failed(Seq<char>),
    Persisted(Seq<PathBuf>),
    Token(Option<Seq<char>>),
}

/// A save in progress, as values: its phase, the recorded text and the base it was
/// recorded against, why a photograph could not be recorded, whether photographs still
/// wait to be placed, the recorded photographs' paths, the journal's year, the record's
/// token, and the conflict copies the page write made.
pub struct FlowModel {
    pub phase: SavePhase,
    pub raw: Seq<char>,
    pub base: Option<Seq<char>>,
    pub asset_error: Option<Seq<char>>,
    pub waiting: bool,
    pub paths: Seq<Seq<char>>,
    pub year: int,
    pub token: Seq<char>,
    pub conflicts: Seq<PathBuf>,
}

pub open spec fn result_model(r: SaveResult) -> ResultModel {
    ResultModel {
        saved: r.saved,
        recovered: r.recovered,
        base: opt_view(r.base),
        cause: opt_view(r.cause),
        conflicts: r.conflicts@,
    }
}

impl SaveStep {
    pub open spec fn model(self) -> StepModel {
        match self {
            SaveStep::ReadRecords => StepModel::ReadRecords,
            SaveStep::WriteCheckpoint => StepModel::WriteCheckpoint,
            SaveStep::Reload => StepModel::Reload,
            SaveStep::StoreAsset(i, d) => StepModel::StoreAsset(i as int, d@),
            SaveStep::Persist => StepModel::Persist,
            SaveStep::ReadCheckpoint => StepModel::ReadCheckpoint,
            SaveStep::RemoveCheckpoint => StepModel::RemoveCheckpoint,
            SaveStep::Finish(r) => StepModel::Finish(result_model(r)),
            SaveStep::Fail(e) => StepModel::Fail(e@),
        }
    }
}

impl SaveEvent {
    pub open spec fn model(self) -> EventModel {
        match self {
            SaveEvent::Done => EventModel::Done,
            SaveEvent::Failed(e) => EventModel::Failed(e@),
            SaveEvent::Persisted(c) => EventModel::Persisted(c@),
            SaveEvent::Token(t) => EventModel::Token(opt_view(t)),
        }
    }
}

/// The cause that an outcome reports, if it is a failure.
pub open spec fn failure(e: EventModel) -> Option<Seq<char>> {
    match e {
        EventModel::Failed(c) => Some(c),
        _ => None,
    }
}

/// What a save reports when the page was saved but its checkpoint could not be removed.
pub open spec fn kept_message(c: Seq<char>) -> Seq<char> {
    "Saved to the journal; an older recovery copy remains: "@ + c
}

/// The save ends with this result.
pub open spec fn finish(s: FlowModel, saved: bool, recovered: bool, base: Option<Seq<char>>, cause: Option<Seq<char>>, conflicts: Seq<PathBuf>) -> (FlowModel, StepModel) {
    (
        FlowModel { phase: SavePhase::Finished, ..s },
        StepModel::Finish(ResultModel { saved, recovered, base, cause, conflicts }),
    )
}

/// The save ends without writing the page, with the checkpoint in place.
pub open spec fn unsaved(s: FlowModel, cause: Seq<char>) -> (FlowModel, StepModel) {
    finish(s, false, true, s.base, Some(cause), Seq::empty())
}

/// The step after the photographs before the `i`-th were stored: store the next one in the
/// folder of its day, or, after the last, replace the page.
pub open spec fn from_asset(s: FlowModel, i: int) -> (FlowModel, StepModel) {
    if 0 <= i < s.paths.len() {
        match asset_folder_date(s.paths[i], s.year) {
            Err(m) => unsaved(s, m),
            Ok(d) => (FlowModel { phase: SavePhase::Storing(i as usize), ..s }, StepModel::StoreAsset(i, d)),
        }
    } else {
        (FlowModel { phase: SavePhase::Persisting, ..s }, StepModel::Persist)
    }
}

/// The next state and step of a save, given the outcome of the step it asked for.
pub open spec fn next_step(s: FlowModel, e: EventModel) -> (FlowModel, StepModel) {
    match s.phase {
        SavePhase::Reading => match failure(e) {
            Some(c) => finish(s, false, false, s.base, Some("Recovery could not be read: "@ + c + "."@), Seq::empty()),
            None => (FlowModel { phase: SavePhase::Checkpointing, ..s }, StepModel::WriteCheckpoint),
        },
        SavePhase::Checkpointing => match failure(e) {
            Some(c) => finish(s, false, false, s.base, Some("Recovery could not be written: "@ + c + "."@), Seq::empty()),
            None => (FlowModel { phase: SavePhase::Reloading, ..s }, StepModel::Reload),
        },
        SavePhase::Reloading => match failure(e) {
            Some(c) => (FlowModel { phase: SavePhase::Finished, ..s }, StepModel::Fail(c)),
            None => match s.asset_error {
                Some(c) => unsaved(s, "Writing is in recovery, but an image could not be copied: "@ + c),
                None => if s.waiting {
                    unsaved(s, "Photographs are still waiting to be inserted. Try again."@)
                } else {
                    from_asset(s, 0)
                },
            },
        },
        SavePhase::Storing(i) => match failure(e) {
            Some(c) => unsaved(s, c),
            None => from_asset(s, i + 1),
        },
        SavePhase::Persisting => match e {
            EventModel::Failed(c) => unsaved(s, c),
            EventModel::Persisted(cs) => (FlowModel { phase: SavePhase::Checking, conflicts: cs, ..s }, StepModel::ReadCheckpoint),
            _ => (FlowModel { phase: SavePhase::Checking, conflicts: Seq::empty(), ..s }, StepModel::ReadCheckpoint),
        },
        SavePhase::Checking => match e {
            EventModel::Failed(c) => finish(s, true, true, Some(s.raw), Some(kept_message(c)), s.conflicts),
            EventModel::Token(t) => if t == Some(s.token) {
                (FlowModel { phase: SavePhase::Removing, ..s }, StepModel::RemoveCheckpoint)
            } else {
                finish(s, true, false, Some(s.raw), None, s.conflicts)
            },
            _ => finish(s, true, false, Some(s.raw), None, s.conflicts),
        },
        SavePhase::Removing => match failure(e) {
            Some(c) => finish(s, true, true, Some(s.raw), Some(kept_message(c)), s.conflicts),
            None => finish(s, true, false, Some(s.raw), None, s.conflicts),
        },
        SavePhase::Finished => (s, StepModel::Fail(Seq::empty())),
    }
}

/// A save in progress.
pub struct SaveFlow {
    phase: SavePhase,
    raw: String,
    base: Option<String>,
    asset_error: Option<String>,
    waiting: bool,
    paths: Vec<String>,
    year: i32,
    token: String,
    conflicts: Vec<PathBuf>,
}

impl View for SaveFlow {
    type V = FlowModel;

    closed spec fn view(&self) -> FlowModel {
        FlowModel {
            phase: self.phase,
            raw: self.raw@,
            base: opt_view(self.base),
            asset_error: opt_view(self.asset_error),
            waiting: self.waiting,
            paths: texts_view(self.paths@),
            year: self.year as int,
            token: self.token@,
            conflicts: self.conflicts@,
        }
    }
}

/// The save, finished, and the step that reports its result.
fn finished(flow: SaveFlow, saved: bool, recovered: bool, base: Option<String>, cause: Option<String>, conflicts: Vec<PathBuf>) -> (r: (SaveFlow, SaveStep))
    ensures
        r == (SaveFlow { phase: SavePhase::Finished, ..flow }, SaveStep::Finish(SaveResult { saved, recovered, base, cause, conflicts })),
{
    (SaveFlow { phase: SavePhase::Finished, ..flow }, SaveStep::Finish(SaveResult { saved, recovered, base, cause, conflicts }))
}

/// A copy of a list of paths.
pub(crate) fn clone_paths(v: &Vec<PathBuf>) -> (r: Vec<PathBuf>)
    ensures
        r@ == v@,
{
    let r = v.clone();
    assert forall|i: int| 0 <= i < r@.len() implies r@[i] == v@[i] by {
        assert(cloned::<PathBuf>(v@[i], r@[i]));
    }
    assert(r@ =~= v@);
    r
}

/// The two texts, one after the other.
fn joined(a: &str, b: &str) -> (r: String)
    ensures
        r@ == a@ + b@,
{
    let mut r = String::from_str(a);
    r.append(b);
    r
}

impl SaveFlow {
    /// A save of the recorded text `raw`, recorded against `base`: `asset_error` tells why a
    /// photograph that the writing shows could not be recorded, `waiting` whether pasted
    /// photographs or input wait to be placed, `paths` the recorded photographs, `year` the
    /// journal's year and `token` the record's token. The first step reads the checkpoint.
    pub fn start(raw: String, base: Option<String>, asset_error: Option<String>, waiting: bool, paths: Vec<String>, year: i32, token: String) -> (r: (SaveFlow, SaveStep))
        ensures
            r.0@ == (FlowModel {
                phase: SavePhase::Reading,
                raw: raw@,
                base: opt_view(base),
                asset_error: opt_view(asset_error),
                waiting,
                paths: texts_view(paths@),
                year: year as int,
                token: token@,
                conflicts: Seq::empty(),
            }),
            r.1.model() == StepModel::ReadRecords,
    {
        let flow = SaveFlow { phase: SavePhase::Reading, raw, base, asset_error, waiting, paths, year, token, conflicts: Vec::new() };
        assert(flow.conflicts@ =~= Seq::<PathBuf>::empty());
        (flow, SaveStep::ReadRecords)
    }

    /// The save ends without writing the page, with the checkpoint in place.
    fn unsaved(self, cause: String) -> (r: (SaveFlow, SaveStep))
        ensures
            (r.0@, r.1.model()) == unsaved(self@, cause@),
    {
        let base = clone_opt_string(&self.base);
        let none: Vec<PathBuf> = Vec::new();
        assert(none@ =~= Seq::<PathBuf>::empty());
        finished(self, false, true, base, Some(cause), none)
    }

    /// Stores the `i`-th photograph next, or, after the last, replaces the page.
    fn from_asset(self, i: usize) -> (r: (SaveFlow, SaveStep))
        ensures
            (r.0@, r.1.model()) == from_asset(self@, i as int),
    {
        if i < self.paths.len() {
            let folder = asset_folder(self.paths[i].as_str(), self.year);
            match folder {
                Err(m) => self.unsaved(m),
                Ok(d) => (SaveFlow { phase: SavePhase::Storing(i), ..self }, SaveStep::StoreAsset(i, d)),
            }
        } else {
            (SaveFlow { phase: SavePhase::Persisting, ..self }, SaveStep::Persist)
        }
    }

    /// The next step of the save, given how the step it asked for went.
    pub fn step(self, event: SaveEvent) -> (r: (SaveFlow, SaveStep))
        requires
            !(self@.phase is Finished),
        ensures
            (r.0@, r.1.model()) == next_step(self@, event.model()),
    {
        let ghost s = self@;
        let ghost e = event.model();
        match self.phase {
            SavePhase::Reading => match event {
                SaveEvent::Failed(c) => {
                    let base = clone_opt_string(&self.base);
                    let mut cause = joined("Recovery could not be read: ", c.as_str());
                    cause.append(".");
                    finished(self, false, false, base, Some(cause), Vec::new())
                },
                _ => (SaveFlow { phase: SavePhase::Checkpointing, ..self }, SaveStep::WriteCheckpoint),
            },
            SavePhase::Checkpointing => match event {
                SaveEvent::Failed(c) => {
                    let base = clone_opt_string(&self.base);
                    let mut cause = joined("Recovery could not be written: ", c.as_str());
                    cause.append(".");
                    finished(self, false, false, base, Some(cause), Vec::new())
                },
                _ => (SaveFlow { phase: SavePhase::Reloading, ..self }, SaveStep::Reload),
            },
            SavePhase::Reloading => match event {
                SaveEvent::Failed(c) => (SaveFlow { phase: SavePhase::Finished, ..self }, SaveStep::Fail(c)),
                _ => {
                    match &self.asset_error {
                        Some(c) => {
                            let cause = joined("Writing is in recovery, but an image could not be copied: ", c.as_str());
                            self.unsaved(cause)
                        },
                        None => {
                            if self.waiting {
                                self.unsaved(String::from_str("Photographs are still waiting to be inserted. Try again."))
                            } else {
                                self.from_asset(0)
                            }
                        },
                    }
                },
            },
            SavePhase::Storing(i) => match event {
                SaveEvent::Failed(c) => self.unsaved(c),
                _ => {
                    if i < self.paths.len() {
                        self.from_asset(i + 1)
                    } else {
                        (SaveFlow { phase: SavePhase::Persisting, ..self }, SaveStep::Persist)
                    }
                },
            },
            SavePhase::Persisting => match event {
                SaveEvent::Failed(c) => self.unsaved(c),
                SaveEvent::Persisted(cs) => (SaveFlow { phase: SavePhase::Checking, conflicts: cs, ..self }, SaveStep::ReadCheckpoint),
                _ => (SaveFlow { phase: SavePhase::Checking, conflicts: Vec::new(), ..self }, SaveStep::ReadCheckpoint),
            },
            SavePhase::Checking => match event {
                SaveEvent::Failed(c) => {
                    let raw = self.raw.clone();
                    let cause = joined("Saved to the journal; an older recovery copy remains: ", c.as_str());
                    let conflicts = clone_paths(&self.conflicts);
                    finished(self, true, true, Some(raw), Some(cause), conflicts)
                },
                SaveEvent::Token(t) => {
                    let owned = match &t {
                        Some(c) => owns_checkpoint(Some(c.as_str()), self.token.as_str()),
                        None => false,
                    };
                    if owned {
                        (SaveFlow { phase: SavePhase::Removing, ..self }, SaveStep::RemoveCheckpoint)
                    } else {
                        let raw = self.raw.clone();
                        let conflicts = clone_paths(&self.conflicts);
                        finished(self, true, false, Some(raw), None, conflicts)
                    }
                },
                _ => {
                    let raw = self.raw.clone();
                    let conflicts = clone_paths(&self.conflicts);
                    finished(self, true, false, Some(raw), None, conflicts)
                },
            },
            SavePhase::Removing => {
                let raw = self.raw.clone();
                let conflicts = clone_paths(&self.conflicts);
                match event {
                    SaveEvent::Failed(c) => {
                        let cause = joined("Saved to the journal; an older recovery copy remains: ", c.as_str());
                        finished(self, true, true, Some(raw), Some(cause), conflicts)
                    },
                    _ => finished(self, true, false, Some(raw), None, conflicts),
                }
            },
            SavePhase::Finished => (self, SaveStep::Fail(String::new())),
        }
    }
}

} // verus!

verus! {

/// The state and step of a save after the first `k` outcomes, from the state `s` in which
/// it asked for its first step.
pub open spec fn after(s: FlowModel, events: Seq<EventModel>, k: int) -> (FlowModel, StepModel)
    decreases k,
{
    if k <= 0 {
        (s, StepModel::ReadRecords)
    } else {
        let p = after(s, events, k - 1);
        next_step(p.0, events[k - 1])
    }
}

/// A phase in which the checkpoint has been written.
pub open spec fn past_checkpoint(p: SavePhase) -> bool {
    p is Reloading || p is Storing || p is Persisting || p is Checking || p is Removing
}

/// The step that a state waits on.
pub open spec fn asks(p: SavePhase, step: StepModel) -> bool {
    match p {
        SavePhase::Reading => step is ReadRecords,
        SavePhase::Checkpointing => step is WriteCheckpoint,
        SavePhase::Reloading => step is Reload,
        SavePhase::Storing(i) => step matches StepModel::StoreAsset(j, _) && j == i,
        SavePhase::Persisting => step is Persist,
        SavePhase::Checking => step is ReadCheckpoint,
        SavePhase::Removing => step is RemoveCheckpoint,
        SavePhase::Finished => step is Finish || step is Fail,
    }
}

/// The checkpoint was written by one of the first `k` steps.
pub open spec fn checkpoint_written(s: FlowModel, events: Seq<EventModel>, k: int) -> bool {
    exists|j: int| 0 <= j < k && (#[trigger] after(s, events, j)).1 is WriteCheckpoint && failure(events[j]) is None
}

/// The page was written by one of the first `k` steps.
pub open spec fn page_written(s: FlowModel, events: Seq<EventModel>, k: int) -> bool {
    exists|j: int| 0 <= j < k && (#[trigger] after(s, events, j)).1 is Persist && failure(events[j]) is None
}

proof fn lemma_run(s: FlowModel, events: Seq<EventModel>, k: int)
    requires
        s.phase is Reading,
        s.paths.len() <= usize::MAX,
        0 <= k <= events.len(),
    ensures
        asks(after(s, events, k).0.phase, after(s, events, k).1),
        after(s, events, k).0.raw == s.raw,
        after(s, events, k).0.base == s.base,
        after(s, events, k).0.token == s.token,
        after(s, events, k).0.paths == s.paths,
        past_checkpoint(after(s, events, k).0.phase) ==> checkpoint_written(s, events, k),
        after(s, events, k).0.phase is Checking || after(s, events, k).0.phase is Removing
            ==> page_written(s, events, k),
        after(s, events, k).1 matches StepModel::Finish(r) ==> {
            &&& (r.recovered ==> checkpoint_written(s, events, k))
            &&& (r.saved ==> page_written(s, events, k) && r.base == Some(s.raw))
            &&& (!r.saved ==> r.base == s.base)
        },
    decreases k,
{
    if k > 0 {
        lemma_run(s, events, k - 1);
        let p = after(s, events, k - 1);
        let e = events[k - 1];
        let n = after(s, events, k);
        assert(n == next_step(p.0, e));
        if checkpoint_written(s, events, k - 1) {
            let j = choose|j: int| 0 <= j < k - 1 && (#[trigger] after(s, events, j)).1 is WriteCheckpoint && failure(events[j]) is None;
            assert(after(s, events, j).1 is WriteCheckpoint);
        }
        if page_written(s, events, k - 1) {
            let j = choose|j: int| 0 <= j < k - 1 && (#[trigger] after(s, events, j)).1 is Persist && failure(events[j]) is None;
            assert(after(s, events, j).1 is Persist);
        }
        if p.0.phase is Checkpointing && failure(e) is None {
            assert(after(s, events, k - 1).1 is WriteCheckpoint);
        }
        if p.0.phase is Persisting && failure(e) is None {
            assert(after(s, events, k - 1).1 is Persist);
        }
        match p.0.phase {
            SavePhase::Reloading => {
                if failure(e) is None && p.0.asset_error is None && !p.0.waiting {
                    assert(n == from_asset(p.0, 0));
                }
            },
            SavePhase::Storing(i) => {
                if failure(e) is None {
                    assert(n == from_asset(p.0, i + 1));
                }
            },
            _ => {},
        }
    }
}

/// The order of a save. Whatever the outcomes of its steps: a photograph is stored, or the
/// page replaced, only after the recovery checkpoint was written; the checkpoint is removed
/// only right after a read found this save's own record in it; a result that reports a
/// recovery copy comes after the checkpoint was written, and a result that reports the page
/// saved comes after the page was written and takes the saved text as its base, while an
/// unsaved result keeps the base the writing was recorded against.
pub proof fn lemma_save_order(s: FlowModel, events: Seq<EventModel>, k: int)
    requires
        s.phase is Reading,
        s.paths.len() <= usize::MAX,
        0 <= k <= events.len(),
    ensures
        after(s, events, k).1 is StoreAsset || after(s, events, k).1 is Persist
            ==> checkpoint_written(s, events, k),
        after(s, events, k).1 is RemoveCheckpoint ==> k > 0
            && after(s, events, k - 1).1 is ReadCheckpoint
            && events[k - 1] == EventModel::Token(Some(s.token)),
        after(s, events, k).1 matches StepModel::Finish(r) ==> {
            &&& (r.recovered ==> checkpoint_written(s, events, k))
            &&& (r.saved ==> page_written(s, events, k) && r.base == Some(s.raw))
            &&& (!r.saved ==> r.base == s.base)
        },
{
    lemma_run(s, events, k);
    if after(s, events, k).1 is RemoveCheckpoint {
        assert(k > 0);
        lemma_run(s, events, k - 1);
        let p = after(s, events, k - 1);
        assert(p.0.phase is Checking);
    }
}

/// A save whose recovery checkpoint could not be read, or could not be written, ends there:
/// it reports the page unsaved and no recovery copy, with a cause, no conflict copies and
/// the base the writing was recorded against, and it never asked to reload the journal,
/// store a photograph or replace the page.
pub proof fn lemma_failed_checkpoint(s: FlowModel, events: Seq<EventModel>, k: int)
    requires
        s.phase is Reading,
        1 <= k <= 2,
        k <= events.len(),
        failure(events[k - 1]) is Some,
        k == 2 ==> failure(events[0]) is None,
    ensures
        after(s, events, k).1 matches StepModel::Finish(r) && !r.saved && !r.recovered && r.cause is Some
            && r.base == s.base && r.conflicts.len() == 0,
        forall|j: int| 0 <= j <= k ==> !((#[trigger] after(s, events, j)).1 is Reload)
            && !(after(s, events, j).1 is StoreAsset) && !(after(s, events, j).1 is Persist),
{
    assert(after(s, events, 0) == (s, StepModel::ReadRecords));
    assert(after(s, events, 1) == next_step(s, events[0]));
    if k == 2 {
        assert(after(s, events, 2) == next_step(after(s, events, 1).0, events[1]));
    }
}

} // verus!
