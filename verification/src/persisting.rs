//! Replacing a page on disk, as a state machine that the caller drives: every version of
//! the page found on disk that is not the one the writing was based on is preserved in a
//! conflict copy, and the page is replaced only when it has not changed since it was checked.
use vstd::prelude::*;
use std::path::PathBuf;

verus! {

/// Where a page replacement stands.
pub enum PersistPhase {
    ReadingCurrent,
    CopyingCurrent,
    ReadingLatest,
    CopyingLatest,
    Replacing,
    CopyingDisplaced,
    Finished,
}

/// What the caller is asked to do next.
pub enum PersistStep {
    /// Read the page's bytes as they are now on disk (`None` when there is no page).
    ReadPage,
    /// Preserve these bytes in a new conflict copy beside the page.
    CopyConflict(Vec<u8>),
    /// Put the new text in place of the page, which should hold these bytes (`None`: no
    /// page may exist), and report what was displaced.
    Replace(Option<Vec<u8>>),
    /// The page was replaced; these conflict copies were made.
    Finish(Vec<PathBuf>),
    /// The page was not replaced, for this reason.
    Fail(String),
}

/// How the step that the caller was asked to do went.
pub enum PersistEvent {
    /// The page's bytes, or `None` when there is no page.
    Read(Option<Vec<u8>>),
    /// The conflict copy that was made, and how its path reads.
    Copied(PathBuf, String),
    /// The new text took the place of a missing page.
    Replaced,
    /// The new text took the place of the page; the displaced file is kept where this
    /// text says, and held these bytes.
    Displaced(String, Vec<u8>),
    Failed(String),
}

pub open spec fn bytes_view(o: Option<Vec<u8>>) -> Option<Seq<u8>> {
    match o {
        Some(v) => Some(v@),
        None => None,
    }
}

/// A step, as values.
pub enum PersistStepModel {
    ReadPage,
    CopyConflict(Seq<u8>),
    Replace(Option<Seq<u8>>),
    Finish(Seq<PathBuf>),
    Fail(Seq<char>),
}

/// An outcome, as values.
pub enum PersistEventModel {
    Read(Option<Seq<u8>>),
    Copied(PathBuf, Seq<char>),
    Replaced,
    Displaced(Seq<char>, Seq<u8>),
    Failed(Seq<char>),
}

impl PersistStep {
    pub open spec fn model(self) -> PersistStepModel {
        match self {
            PersistStep::ReadPage => PersistStepModel::ReadPage,
            PersistStep::CopyConflict(b) => PersistStepModel::CopyConflict(b@),
            PersistStep::Replace(e) => PersistStepModel::Replace(bytes_view(e)),
            PersistStep::Finish(c) => PersistStepModel::Finish(c@),
            PersistStep::Fail(m) => PersistStepModel::Fail(m@),
        }
    }
}

impl PersistEvent {
    pub open spec fn model(self) -> PersistEventModel {
        match self {
            PersistEvent::Read(b) => PersistEventModel::Read(bytes_view(b)),
            PersistEvent::Copied(p, s) => PersistEventModel::Copied(p, s@),
            PersistEvent::Replaced => PersistEventModel::Replaced,
            PersistEvent::Displaced(s, b) => PersistEventModel::Displaced(s@, b@),
            PersistEvent::Failed(m) => PersistEventModel::Failed(m@),
        }
    }
}

/// A page replacement in progress, as values: its phase, the bytes the writing was based
/// on, the page as first read and as read again, the conflict copies made and how their
/// paths read.
pub struct PersistModel {
    pub phase: PersistPhase,
    pub base: Option<Seq<u8>>,
    pub current: Option<Seq<u8>>,
    pub latest: Option<Seq<u8>>,
    pub conflicts: Seq<PathBuf>,
    pub shown: Seq<Seq<char>>,
}

/// The texts joined with `", "` between them.
pub open spec fn comma_list(s: Seq<Seq<char>>) -> Seq<char>
    decreases s.len(),
{
    if s.len() == 0 {
        Seq::empty()
    } else if s.len() == 1 {
        s[0]
    } else {
        comma_list(s.drop_last()) + ", "@ + s.last()
    }
}

/// Why a replacement stops when the page changed between the two reads.
pub open spec fn changed_again(shown: Seq<Seq<char>>) -> Seq<char> {
    "The page changed again while saving. Preserved copies: "@ + comma_list(shown) + ". Try again."@
}

/// Why a replacement stops when the displaced file was not the page that was checked.
pub open spec fn displaced_message(copy: Seq<char>, displaced: Seq<char>) -> Seq<char> {
    "This page changed during saving. The displaced version is retained at "@ + copy + " (and "@
        + displaced + "). Review both files before trying again."@
}

/// The replacement stops with this reason.
pub open spec fn stop(s: PersistModel, m: Seq<char>) -> (PersistModel, PersistStepModel) {
    (PersistModel { phase: PersistPhase::Finished, ..s }, PersistStepModel::Fail(m))
}

/// The next state and step of a replacement, given the outcome of the step it asked for;
/// `displaced` is how the displaced file's path reads, once known.
pub open spec fn next_persist(s: PersistModel, displaced: Seq<char>, e: PersistEventModel) -> (PersistModel, PersistStepModel) {
    match e {
        PersistEventModel::Failed(m) => stop(s, m),
        _ => match s.phase {
            PersistPhase::ReadingCurrent => match e {
                PersistEventModel::Read(c) => if c != s.base && c is Some {
                    (PersistModel { phase: PersistPhase::CopyingCurrent, current: c, ..s }, PersistStepModel::CopyConflict(c.unwrap()))
                } else {
                    (PersistModel { phase: PersistPhase::ReadingLatest, current: c, ..s }, PersistStepModel::ReadPage)
                },
                _ => stop(s, Seq::empty()),
            },
            PersistPhase::CopyingCurrent => match e {
                PersistEventModel::Copied(p, d) => (
                    PersistModel { phase: PersistPhase::ReadingLatest, conflicts: s.conflicts.push(p), shown: s.shown.push(d), ..s },
                    PersistStepModel::ReadPage,
                ),
                _ => stop(s, Seq::empty()),
            },
            PersistPhase::ReadingLatest => match e {
                PersistEventModel::Read(l) => if l != s.current {
                    if l is Some {
                        (PersistModel { phase: PersistPhase::CopyingLatest, latest: l, ..s }, PersistStepModel::CopyConflict(l.unwrap()))
                    } else {
                        stop(PersistModel { latest: l, ..s }, changed_again(s.shown))
                    }
                } else {
                    (PersistModel { phase: PersistPhase::Replacing, latest: l, ..s }, PersistStepModel::Replace(s.current))
                },
                _ => stop(s, Seq::empty()),
            },
            PersistPhase::CopyingLatest => match e {
                PersistEventModel::Copied(p, d) => stop(
                    PersistModel { conflicts: s.conflicts.push(p), shown: s.shown.push(d), ..s },
                    changed_again(s.shown.push(d)),
                ),
                _ => stop(s, Seq::empty()),
            },
            PersistPhase::Replacing => match e {
                PersistEventModel::Replaced => (PersistModel { phase: PersistPhase::Finished, ..s }, PersistStepModel::Finish(s.conflicts)),
                PersistEventModel::Displaced(_, previous) => if Some(previous) == s.current {
                    (PersistModel { phase: PersistPhase::Finished, ..s }, PersistStepModel::Finish(s.conflicts))
                } else {
                    (PersistModel { phase: PersistPhase::CopyingDisplaced, ..s }, PersistStepModel::CopyConflict(previous))
                },
                _ => stop(s, Seq::empty()),
            },
            PersistPhase::CopyingDisplaced => match e {
                PersistEventModel::Copied(_, d) => stop(s, displaced_message(d, displaced)),
                _ => stop(s, Seq::empty()),
            },
            PersistPhase::Finished => stop(s, Seq::empty()),
        },
    }
}

/// The displayed path of the displaced file that an outcome reports, or `old`.
pub open spec fn displaced_after(old: Seq<char>, e: PersistEventModel) -> Seq<char> {
    match e {
        PersistEventModel::Displaced(d, _) => d,
        _ => old,
    }
}

/// A page replacement in progress.
pub struct PersistFlow {
    phase: PersistPhase,
    base: Option<Vec<u8>>,
    current: Option<Vec<u8>>,
    latest: Option<Vec<u8>>,
    conflicts: Vec<PathBuf>,
    shown: Vec<String>,
    displaced: String,
}

impl View for PersistFlow {
    type V = PersistModel;

    closed spec fn view(&self) -> PersistModel {
        PersistModel {
            phase: self.phase,
            base: bytes_view(self.base),
            current: bytes_view(self.current),
            latest: bytes_view(self.latest),
            conflicts: self.conflicts@,
            shown: crate::recovery::texts_view(self.shown@),
        }
    }
}

/// Whether two optional byte strings are equal.
pub fn same_bytes(a: &Option<Vec<u8>>, b: &Option<Vec<u8>>) -> (r: bool)
    ensures
        r == (bytes_view(*a) == bytes_view(*b)),
{
    match (a, b) {
        (None, None) => true,
        (Some(x), Some(y)) => {
            if x.len() != y.len() {
                return false;
            }
            let mut i: usize = 0;
            while i < x.len()
                invariant
                    i <= x.len(),
                    x@.len() == y@.len(),
                    *a == Some(*x),
                    *b == Some(*y),
                    forall|k: int| 0 <= k < i ==> x@[k] == y@[k],
                decreases x.len() - i,
            {
                if x[i] != y[i] {
                    assert(x@ != y@) by {
                        if x@ == y@ {
                            assert(x@[i as int] == y@[i as int]);
                        }
                    }
                    return false;
                }
                i += 1;
            }
            assert(x@ =~= y@);
            true
        },
        _ => false,
    }
}

/// A copy of optional bytes.
fn clone_bytes(o: &Option<Vec<u8>>) -> (r: Option<Vec<u8>>)
    ensures
        bytes_view(r) == bytes_view(*o),
{
    match o {
        Some(v) => Some(v.clone()),
        None => None,
    }
}

/// The texts joined with `", "` between them.
fn comma_joined(s: &[String]) -> (r: String)
    ensures
        r@ == comma_list(crate::recovery::texts_view(s@)),
{
    let ghost v = crate::recovery::texts_view(s@);
    let mut r = String::new();
    let mut i: usize = 0;
    while i < s.len()
        invariant
            i <= s.len(),
            v == crate::recovery::texts_view(s@),
            r@ == comma_list(v.take(i as int)),
        decreases s.len() - i,
    {
        let ghost before = r@;
        if i > 0 {
            r.append(", ");
        }
        r.append(s[i].as_str());
        proof {
            let t = v.take(i + 1);
            assert(t.drop_last() =~= v.take(i as int));
            if i == 0 {
                assert(v.take(0) =~= Seq::<Seq<char>>::empty());
                assert(r@ =~= t[0]);
            }
        }
        i += 1;
    }
    assert(v.take(s.len() as int) =~= v);
    r
}

/// Why a replacement stops when the page changed between the two reads.
fn changed_again_text(shown: &[String]) -> (r: String)
    ensures
        r@ == changed_again(crate::recovery::texts_view(shown@)),
{
    let mut r = String::from_str("The page changed again while saving. Preserved copies: ");
    let list = comma_joined(shown);
    r.append(list.as_str());
    r.append(". Try again.");
    r
}

impl PersistFlow {
    /// A replacement of a page whose writing was based on `base` (`None`: no page). The
    /// first step reads the page.
    pub fn start(base: Option<Vec<u8>>) -> (r: (PersistFlow, PersistStep))
        ensures
            r.0@ == (PersistModel {
                phase: PersistPhase::ReadingCurrent,
                base: bytes_view(base),
                current: None,
                latest: None,
                conflicts: Seq::empty(),
                shown: Seq::empty(),
            }),
            r.1.model() == PersistStepModel::ReadPage,
    {
        let flow = PersistFlow {
            phase: PersistPhase::ReadingCurrent,
            base,
            current: None,
            latest: None,
            conflicts: Vec::new(),
            shown: Vec::new(),
            displaced: String::new(),
        };
        assert(flow.conflicts@ =~= Seq::<PathBuf>::empty());
        assert(crate::recovery::texts_view(flow.shown@) =~= Seq::<Seq<char>>::empty());
        (flow, PersistStep::ReadPage)
    }

    /// How the displaced file's path reads, once the page was replaced.
    pub closed spec fn displaced_text(self) -> Seq<char> {
        self.displaced@
    }

    /// The replacement stops with this reason.
    fn stop(self, m: String) -> (r: (PersistFlow, PersistStep))
        ensures
            (r.0@, r.1.model()) == stop(self@, m@),
            r.0.displaced_text() == self.displaced_text(),
    {
        (PersistFlow { phase: PersistPhase::Finished, ..self }, PersistStep::Fail(m))
    }

    /// The next step of the replacement, given how the step it asked for went.
    pub fn step(self, event: PersistEvent) -> (r: (PersistFlow, PersistStep))
        ensures
            (r.0@, r.1.model()) == next_persist(self@, displaced_after(self.displaced_text(), event.model()), event.model()),
            r.0.displaced_text() == displaced_after(self.displaced_text(), event.model()),
    {
        match event {
            PersistEvent::Failed(m) => self.stop(m),
            PersistEvent::Read(bytes) => match self.phase {
                PersistPhase::ReadingCurrent => {
                    let differs = !same_bytes(&bytes, &self.base);
                    match bytes {
                        Some(c) if differs => {
                            let copy = c.clone();
                            (PersistFlow { phase: PersistPhase::CopyingCurrent, current: Some(c), ..self }, PersistStep::CopyConflict(copy))
                        },
                        other => (PersistFlow { phase: PersistPhase::ReadingLatest, current: other, ..self }, PersistStep::ReadPage),
                    }
                },
                PersistPhase::ReadingLatest => {
                    if !same_bytes(&bytes, &self.current) {
                        match bytes {
                            Some(l) => {
                                let copy = l.clone();
                                (PersistFlow { phase: PersistPhase::CopyingLatest, latest: Some(l), ..self }, PersistStep::CopyConflict(copy))
                            },
                            None => {
                                let m = changed_again_text(self.shown.as_slice());
                                let flow = PersistFlow { latest: None, ..self };
                                flow.stop(m)
                            },
                        }
                    } else {
                        let expected = clone_bytes(&self.current);
                        (PersistFlow { phase: PersistPhase::Replacing, latest: bytes, ..self }, PersistStep::Replace(expected))
                    }
                },
                _ => self.stop(String::new()),
            },
            PersistEvent::Copied(p, d) => match self.phase {
                PersistPhase::CopyingCurrent => {
                    let mut flow = self;
                    flow.conflicts.push(p);
                    flow.shown.push(d);
                    proof {
                        assert(crate::recovery::texts_view(flow.shown@) =~= self@.shown.push(d@));
                    }
                    (PersistFlow { phase: PersistPhase::ReadingLatest, ..flow }, PersistStep::ReadPage)
                },
                PersistPhase::CopyingLatest => {
                    let mut flow = self;
                    flow.conflicts.push(p);
                    flow.shown.push(d);
                    proof {
                        assert(crate::recovery::texts_view(flow.shown@) =~= self@.shown.push(d@));
                    }
                    let m = changed_again_text(flow.shown.as_slice());
                    flow.stop(m)
                },
                PersistPhase::CopyingDisplaced => {
                    let mut m = String::from_str("This page changed during saving. The displaced version is retained at ");
                    m.append(d.as_str());
                    m.append(" (and ");
                    m.append(self.displaced.as_str());
                    m.append("). Review both files before trying again.");
                    self.stop(m)
                },
                _ => self.stop(String::new()),
            },
            PersistEvent::Replaced => match self.phase {
                PersistPhase::Replacing => {
                    let conflicts = crate::saving::clone_paths(&self.conflicts);
                    (PersistFlow { phase: PersistPhase::Finished, ..self }, PersistStep::Finish(conflicts))
                },
                _ => self.stop(String::new()),
            },
            PersistEvent::Displaced(d, previous) => match self.phase {
                PersistPhase::Replacing => {
                    let prev = Some(previous);
                    if same_bytes(&prev, &self.current) {
                        let conflicts = crate::saving::clone_paths(&self.conflicts);
                        (PersistFlow { phase: PersistPhase::Finished, displaced: d, ..self }, PersistStep::Finish(conflicts))
                    } else {
                        match prev {
                            Some(b) => (PersistFlow { phase: PersistPhase::CopyingDisplaced, displaced: d, ..self }, PersistStep::CopyConflict(b)),
                            None => (PersistFlow { displaced: d, ..self }).stop(String::new()),
                        }
                    }
                },
                _ => {
                    let flow = PersistFlow { displaced: d, ..self };
                    flow.stop(String::new())
                },
            },
        }
    }
}

} // verus!

verus! {

/// The state, displaced text and step of a replacement after the first `k` outcomes, from
/// the state `s` in which it asked for its first step.
pub open spec fn persist_after(s: PersistModel, d: Seq<char>, events: Seq<PersistEventModel>, k: int) -> (PersistModel, Seq<char>, PersistStepModel)
    decreases k,
{
    if k <= 0 {
        (s, d, PersistStepModel::ReadPage)
    } else {
        let p = persist_after(s, d, events, k - 1);
        let e = events[k - 1];
        let dn = displaced_after(p.1, e);
        let n = next_persist(p.0, dn, e);
        (n.0, dn, n.1)
    }
}

/// Step `i` read the page and found `x`.
pub open spec fn read_at(s: PersistModel, d: Seq<char>, events: Seq<PersistEventModel>, i: int, x: Option<Seq<u8>>) -> bool {
    (#[trigger] persist_after(s, d, events, i)).2 is ReadPage && events[i] == PersistEventModel::Read(x)
}

/// Step `m` preserved `b` in a conflict copy.
pub open spec fn copied_at(s: PersistModel, d: Seq<char>, events: Seq<PersistEventModel>, m: int, b: Seq<u8>) -> bool {
    (#[trigger] persist_after(s, d, events, m)).2 == PersistStepModel::CopyConflict(b) && events[m] is Copied
}

/// The version `c`, read at step `i`, was preserved before step `j` if it needed to be:
/// when there was a page and it was not the base.
pub open spec fn preserved_between(s: PersistModel, d: Seq<char>, events: Seq<PersistEventModel>, i: int, j: int, c: Option<Seq<u8>>) -> bool {
    c is Some && c != s.base ==> exists|m: int| i < m < j && copied_at(s, d, events, m, c.unwrap())
}

proof fn lemma_persist_run(s: PersistModel, d: Seq<char>, events: Seq<PersistEventModel>, k: int)
    requires
        s.phase is ReadingCurrent,
        0 <= k <= events.len(),
    ensures
        ({
            let n = persist_after(s, d, events, k);
            &&& n.0.base == s.base
            &&& n.0.phase is ReadingCurrent ==> n.2 is ReadPage
            &&& n.0.phase is ReadingLatest ==> n.2 is ReadPage
                && exists|i: int| 0 <= i < k && read_at(s, d, events, i, n.0.current)
                    && preserved_between(s, d, events, i, k, n.0.current)
            &&& n.0.phase is CopyingCurrent ==> n.0.current is Some && n.0.current != s.base
                && n.2 == PersistStepModel::CopyConflict(n.0.current.unwrap())
                && k > 0 && read_at(s, d, events, k - 1, n.0.current)
            &&& n.0.phase is Replacing ==> n.2 == PersistStepModel::Replace(n.0.current)
                && exists|i: int, j: int| 0 <= i < j < k && read_at(s, d, events, i, n.0.current)
                    && read_at(s, d, events, j, n.0.current)
                    && preserved_between(s, d, events, i, j, n.0.current)
            &&& n.2 is Finish ==> n.0.phase is Finished
        }),
    decreases k,
{
    if k > 0 {
        lemma_persist_run(s, d, events, k - 1);
        let p = persist_after(s, d, events, k - 1);
        let e = events[k - 1];
        let n = persist_after(s, d, events, k);
        match p.0.phase {
            PersistPhase::ReadingCurrent => {
                if e is Read {
                    assert(read_at(s, d, events, k - 1, n.0.current));
                }
            },
            PersistPhase::CopyingCurrent => {
                if e is Copied {
                    assert(copied_at(s, d, events, k - 1, p.0.current.unwrap()));
                    assert(preserved_between(s, d, events, k - 2, k, n.0.current));
                }
            },
            PersistPhase::ReadingLatest => {
                if n.0.phase is Replacing {
                    let i = choose|i: int| 0 <= i < k - 1 && read_at(s, d, events, i, p.0.current)
                        && preserved_between(s, d, events, i, k - 1, p.0.current);
                    assert(read_at(s, d, events, k - 1, n.0.current));
                    assert(read_at(s, d, events, i, n.0.current));
                    assert(preserved_between(s, d, events, i, k - 1, n.0.current));
                }
            },
            PersistPhase::Replacing => {
                if n.0.phase is Replacing {
                    let (i, j) = choose|i: int, j: int| 0 <= i < j < k - 1 && read_at(s, d, events, i, p.0.current)
                        && read_at(s, d, events, j, p.0.current)
                        && preserved_between(s, d, events, i, j, p.0.current);
                    assert(read_at(s, d, events, i, n.0.current));
                }
            },
            _ => {},
        }
    }
}

/// The order of a page replacement. Whatever the outcomes of its steps: the page is
/// replaced only when two reads of it, one after the other, found the same version, and
/// that version, if it existed and was not the version the writing was based on, was
/// preserved in a conflict copy between the two reads; the replacement is told to expect
/// exactly that version; and it reports success only right after the page was replaced
/// and nothing but that version was displaced.
pub proof fn lemma_persist_order(s: PersistModel, d: Seq<char>, events: Seq<PersistEventModel>, k: int)
    requires
        s.phase is ReadingCurrent,
        0 <= k <= events.len(),
    ensures
        persist_after(s, d, events, k).2 matches PersistStepModel::Replace(e) ==>
            exists|i: int, j: int| 0 <= i < j < k && read_at(s, d, events, i, e) && read_at(s, d, events, j, e)
                && preserved_between(s, d, events, i, j, e),
        persist_after(s, d, events, k).2 is Finish ==> k > 0 && ({
            &&& persist_after(s, d, events, k - 1).2 matches PersistStepModel::Replace(e)
            &&& (events[k - 1] is Replaced
                || (events[k - 1] matches PersistEventModel::Displaced(_, previous) && e == Some(previous)))
        }),
{
    lemma_persist_run(s, d, events, k);
    let n = persist_after(s, d, events, k);
    if k > 0 {
        lemma_persist_run(s, d, events, k - 1);
    }
    if n.2 is Replace {
        assert(n.0.phase is Replacing);
    }
}

} // verus!
