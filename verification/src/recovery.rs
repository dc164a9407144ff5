//! Recovery checkpoints: what is kept of unsaved writing, and how a save proceeds so that
//! nothing replaces a page before its recovery copy exists.
use vstd::prelude::*;
use std::path::PathBuf;
use crate::markdown::text_references;

verus! {

#[verifier::external_type_specification]
#[verifier::external_body]
pub struct ExJsonValue(serde_json::Value);

/// A photograph that has been pasted or dropped but not yet placed in the page.
#[derive(Clone, Debug)]
pub struct PendingImage {
    pub bytes: Vec<u8>,
    pub from: usize,
    pub to: usize,
    pub at: String,
    pub corrected: bool,
}

impl PendingImage {
    pub open spec fn spec_view(&self) -> (Seq<u8>, usize, usize, Seq<char>, bool) {
        (self.bytes@, self.from, self.to, self.at@, self.corrected)
    }

    /// A copy of the pending photograph.
    pub fn duplicate(&self) -> (r: PendingImage)
        ensures
            r.spec_view() == self.spec_view(),
    {
        PendingImage { bytes: self.bytes.clone(), from: self.from, to: self.to, at: self.at.clone(), corrected: self.corrected }
    }
}

/// A photograph to include in an exported copy: its path in the page and its bytes.
pub struct CopyAsset {
    pub path: String,
    pub bytes: Vec<u8>,
}

/// How a save ended: whether the page was written, whether a recovery copy of the writing
/// exists, the saved text the page is now based on, why it did not fully succeed, and the
/// copies kept of versions that changed on disk.
pub struct SaveResult {
    pub saved: bool,
    pub recovered: bool,
    pub base: Option<String>,
    pub cause: Option<String>,
    pub conflicts: Vec<PathBuf>,
}

/// Where recovery checkpoints are kept.
pub struct RecoveryStore {
    pub directory: PathBuf,
}

impl RecoveryStore {
    /// A store that keeps its checkpoints in `directory`.
    pub fn new(directory: PathBuf) -> (r: RecoveryStore)
        ensures
            r.directory == directory,
    {
        RecoveryStore { directory }
    }
}

} // verus!

verus! {

/// `a` comes before `b` in the order of strings: character by character.
pub open spec fn text_before(a: Seq<char>, b: Seq<char>) -> bool
    decreases a.len(),
{
    if a.len() == 0 {
        b.len() > 0
    } else if b.len() == 0 {
        false
    } else if a[0] < b[0] {
        true
    } else if a[0] == b[0] {
        text_before(a.skip(1), b.skip(1))
    } else {
        false
    }
}

/// Whether `a` comes before `b` in the order of strings.
pub fn string_before(a: &str, b: &str) -> (r: bool)
    ensures
        r == text_before(a@, b@),
{
    let x = crate::text::chars_of(a);
    let y = crate::text::chars_of(b);
    let mut i: usize = 0;
    assert(a@.skip(0) =~= a@);
    assert(b@.skip(0) =~= b@);
    while i < x.len() && i < y.len() && x[i] == y[i]
        invariant
            i <= x.len(),
            i <= y.len(),
            x@ == a@,
            y@ == b@,
            text_before(a@, b@) == text_before(a@.skip(i as int), b@.skip(i as int)),
        decreases x.len() - i,
    {
        assert(a@.skip(i as int).skip(1) =~= a@.skip(i + 1));
        assert(b@.skip(i as int).skip(1) =~= b@.skip(i + 1));
        i += 1;
    }
    let ghost sa = a@.skip(i as int);
    let ghost sb = b@.skip(i as int);
    assert(sa.len() == x.len() - i && sb.len() == y.len() - i);
    if i == x.len() {
        i < y.len()
    } else if i == y.len() {
        false
    } else {
        assert(sa[0] == x@[i as int] && sb[0] == y@[i as int]);
        x[i] < y[i]
    }
}

pub open spec fn texts_view(v: Seq<String>) -> Seq<Seq<char>> {
    v.map_values(|s: String| s@)
}

/// An order of positions `0..n`: each position once.
pub open spec fn is_order(r: Seq<usize>, n: int) -> bool {
    &&& r.len() == n
    &&& forall|a: int| 0 <= a < n ==> #[trigger] r[a] < n
    &&& forall|a: int, b: int| 0 <= a < b < n ==> r[a] != r[b]
}

/// Positions ordered by their tokens, keeping positions with equal tokens in order.
pub open spec fn ordered_by_token(r: Seq<usize>, tokens: Seq<Seq<char>>) -> bool {
    forall|a: int, b: int| 0 <= a < b < r.len() ==> {
        &&& !text_before(tokens[r[b] as int], tokens[r[a] as int])
        &&& (tokens[r[b] as int] == tokens[r[a] as int] ==> r[a] < r[b])
    }
}

proof fn lemma_text_before_total(a: Seq<char>, b: Seq<char>)
    ensures
        a == b || text_before(a, b) || text_before(b, a),
        !(text_before(a, b) && text_before(b, a)),
        !text_before(a, a),
    decreases a.len(),
{
    if a.len() > 0 && b.len() > 0 && a[0] == b[0] {
        lemma_text_before_total(a.skip(1), b.skip(1));
        if a.skip(1) == b.skip(1) {
            assert(a =~= seq![a[0]] + a.skip(1));
            assert(b =~= seq![b[0]] + b.skip(1));
        }
    } else if a.len() == 0 && b.len() == 0 {
        assert(a =~= b);
    }
    if a.len() > 0 {
        lemma_text_before_total(a.skip(1), a.skip(1));
    }
}

proof fn lemma_text_before_transitive(a: Seq<char>, b: Seq<char>, c: Seq<char>)
    requires
        !text_before(b, a),
        !text_before(c, b),
    ensures
        !text_before(c, a),
    decreases a.len(),
{
    lemma_text_before_total(a, b);
    lemma_text_before_total(b, c);
    lemma_text_before_total(a, c);
    if a.len() > 0 && b.len() > 0 && c.len() > 0 && a[0] == b[0] && b[0] == c[0] {
        lemma_text_before_transitive(a.skip(1), b.skip(1), c.skip(1));
    }
}

/// The positions of checkpoint records in the order of their tokens; records with equal
/// tokens keep the order they are given in.
#[verifier::spinoff_prover]
pub fn token_order(tokens: &[String]) -> (r: Vec<usize>)
    ensures
        is_order(r@, tokens@.len() as int),
        ordered_by_token(r@, texts_view(tokens@)),
{
    let ghost t = texts_view(tokens@);
    let mut out: Vec<usize> = Vec::new();
    let mut i: usize = 0;
    while i < tokens.len()
        invariant
            i <= tokens.len(),
            t == texts_view(tokens@),
            out@.len() == i,
            forall|a: int| 0 <= a < i ==> #[trigger] out@[a] < i,
            forall|a: int, b: int| 0 <= a < b < i ==> out@[a] != out@[b],
            ordered_by_token(out@, t),
        decreases tokens.len() - i,
    {
        let mut pos: usize = 0;
        while pos < out.len() && !string_before(tokens[i].as_str(), tokens[out[pos]].as_str())
            invariant
                pos <= out.len(),
                out@.len() == i,
                i < tokens.len(),
                t == texts_view(tokens@),
                forall|a: int| 0 <= a < i ==> #[trigger] out@[a] < i,
                forall|k: int| 0 <= k < pos ==> !text_before(t[i as int], t[#[trigger] out@[k] as int]),
            decreases out.len() - pos,
        {
            pos += 1;
        }
        let ghost before = out@;
        proof {
            if pos < out.len() {
                assert(text_before(t[i as int], t[before[pos as int] as int]));
            }
        }
        out.insert(pos, i);
        proof {
            assert(out@ =~= before.insert(pos as int, i));
            assert forall|a: int, b: int| 0 <= a < b < out@.len() implies {
                &&& !text_before(t[out@[b] as int], t[out@[a] as int])
                &&& (t[out@[b] as int] == t[out@[a] as int] ==> out@[a] < out@[b])
            } by {
                if b < pos {
                    assert(out@[a] == before[a] && out@[b] == before[b]);
                } else if a > pos {
                    assert(out@[a] == before[a - 1] && out@[b] == before[b - 1]);
                } else if a == pos {
                    assert(out@[a] == i);
                    assert(out@[b] == before[b - 1]);
                    lemma_text_before_total(t[i as int], t[before[pos as int] as int]);
                    if b - 1 > pos {
                        lemma_text_before_transitive(t[i as int], t[before[pos as int] as int], t[before[b - 1] as int]);
                    }
                    lemma_text_before_total(t[i as int], t[before[b - 1] as int]);
                } else {
                    assert(out@[a] == before[a]);
                    if b == pos {
                        assert(out@[b] == i);
                        lemma_text_before_total(t[i as int], t[before[a] as int]);
                    } else {
                        assert(out@[b] == before[b - 1]);
                    }
                }
            }
            assert forall|a: int, b: int| 0 <= a < b < i + 1 implies out@[a] != out@[b] by {
                if b < pos {
                    assert(out@[a] == before[a] && out@[b] == before[b]);
                } else if a > pos {
                    assert(out@[a] == before[a - 1] && out@[b] == before[b - 1]);
                } else if a == pos {
                    assert(out@[b] == before[b - 1]);
                } else if b == pos {
                    assert(out@[a] == before[a]);
                } else {
                    assert(out@[a] == before[a] && out@[b] == before[b - 1]);
                }
            }
            assert forall|a: int| 0 <= a < i + 1 implies #[trigger] out@[a] < i + 1 by {
                if a < pos {
                    assert(out@[a] == before[a]);
                } else if a > pos {
                    assert(out@[a] == before[a - 1]);
                }
            }
        }
        i += 1;
    }
    out
}

} // verus!

verus! {

pub open spec fn date_views(v: Seq<crate::calendar::CalendarDate>) -> Seq<(int, int, int)> {
    v.map_values(|d: crate::calendar::CalendarDate| d@)
}

/// The positions in `s` whose record is not of the date `day`, in order.
pub open spec fn without_date(s: Seq<usize>, dates: Seq<(int, int, int)>, day: (int, int, int)) -> Seq<usize>
    decreases s.len(),
{
    if s.len() == 0 {
        s
    } else {
        let rest = without_date(s.drop_last(), dates, day);
        if dates[s.last() as int] != day {
            rest.push(s.last())
        } else {
            rest
        }
    }
}

/// The checkpoints restored from the first `n` records, taken in token order: a record
/// that still needs restoring replaces any earlier restored page of its date and comes
/// last; other records restore nothing.
pub open spec fn restored_upto(dates: Seq<(int, int, int)>, needed: Seq<bool>, n: int) -> Seq<usize>
    decreases n,
{
    if n <= 0 {
        Seq::empty()
    } else {
        let before = restored_upto(dates, needed, n - 1);
        if needed[n - 1] {
            without_date(before, dates, dates[n - 1]).push((n - 1) as usize)
        } else {
            before
        }
    }
}

/// Which records restore a page, in the order the pages are shown: for each date only the
/// latest record in token order that still needs restoring.
pub fn restored_selection(dates: &[crate::calendar::CalendarDate], needed: &[bool]) -> (r: Vec<usize>)
    requires
        dates@.len() == needed@.len(),
    ensures
        r@ == restored_upto(date_views(dates@), needed@, dates@.len() as int),
{
    let ghost d = date_views(dates@);
    let mut out: Vec<usize> = Vec::new();
    let mut n: usize = 0;
    while n < dates.len()
        invariant
            n <= dates.len(),
            dates@.len() == needed@.len(),
            d == date_views(dates@),
            out@ == restored_upto(d, needed@, n as int),
            forall|k: int| 0 <= k < out@.len() ==> #[trigger] out@[k] < n,
        decreases dates.len() - n,
    {
        if needed[n] {
            let ghost before = out@;
            let mut kept: Vec<usize> = Vec::new();
            let mut k: usize = 0;
            while k < out.len()
                invariant
                    k <= out.len(),
                    n < dates.len(),
                    d == date_views(dates@),
                    out@ == before,
                    forall|j: int| 0 <= j < out@.len() ==> #[trigger] out@[j] < n,
                    kept@ == without_date(before.take(k as int), d, d[n as int]),
                    forall|j: int| 0 <= j < kept@.len() ==> #[trigger] kept@[j] < n,
                decreases out.len() - k,
            {
                let j = out[k];
                let same = dates[j] == dates[n];
                proof {
                    crate::calendar::CalendarDate::lemma_same_view(dates@[j as int], dates@[n as int]);
                }
                assert(before.take(k + 1).drop_last() =~= before.take(k as int));
                if !same {
                    kept.push(j);
                }
                k += 1;
            }
            assert(before.take(before.len() as int) =~= before);
            kept.push(n);
            out = kept;
        }
        n += 1;
    }
    out
}

proof fn lemma_plan(
    order: Seq<usize>,
    picks: Seq<usize>,
    dv: Seq<(int, int, int)>,
    needed: Seq<bool>,
    dates: Seq<crate::calendar::CalendarDate>,
    settled: Seq<bool>,
)
    requires
        is_order(order, dates.len() as int),
        dates.len() == settled.len(),
        dv.len() == dates.len(),
        needed.len() == dates.len(),
        forall|q: int| 0 <= q < dates.len() ==> #[trigger] dv[q] == dates[order[q] as int]@,
        forall|q: int| 0 <= q < dates.len() ==> #[trigger] needed[q] == !settled[order[q] as int],
        picks == restored_upto(dv, needed, dates.len() as int),
        dates.len() <= usize::MAX,
    ensures
        forall|k: int| 0 <= k < picks.len() ==> #[trigger] picks[k] < dates.len() && !settled[order[picks[k] as int] as int],
        forall|a: int, b: int| 0 <= a < b < picks.len()
            ==> dates[order[picks[a] as int] as int]@ != dates[order[picks[b] as int] as int]@,
        forall|k: int, p: int| 0 <= k < picks.len() && picks[k] < p < dates.len() && !settled[#[trigger] order[p] as int]
            ==> dates[order[p] as int]@ != dates[order[#[trigger] picks[k] as int] as int]@,
        forall|p: int| 0 <= p < dates.len() && !settled[#[trigger] order[p] as int]
            ==> exists|k: int| 0 <= k < picks.len() && #[trigger] dates[order[picks[k] as int] as int]@ == dates[order[p] as int]@,
{
    lemma_restored_pages(dv, needed, dates.len() as int);
    assert forall|k: int| 0 <= k < picks.len() implies #[trigger] picks[k] < dates.len()
        && !settled[order[picks[k] as int] as int] by {
        assert(needed[picks[k] as int]);
    }
    assert forall|a: int, b: int| 0 <= a < b < picks.len()
        implies dates[order[picks[a] as int] as int]@ != dates[order[picks[b] as int] as int]@ by {
        assert(picks[a] < dates.len() && picks[b] < dates.len());
        assert(dv[picks[a] as int] != dv[picks[b] as int]);
    }
    assert forall|k: int, q: int| 0 <= k < picks.len() && picks[k] < q < dates.len() && !settled[#[trigger] order[q] as int]
        implies dates[order[q] as int]@ != dates[order[#[trigger] picks[k] as int] as int]@ by {
        assert(needed[q]);
        assert(picks[k] < dates.len());
        assert(dv[q] != dv[picks[k] as int]);
    }
    assert forall|q: int| 0 <= q < dates.len() && !settled[#[trigger] order[q] as int]
        implies exists|k: int| 0 <= k < picks.len() && #[trigger] dates[order[picks[k] as int] as int]@ == dates[order[q] as int]@ by {
        assert(needed[q]);
        let k = choose|k: int| 0 <= k < picks.len() && #[trigger] dv[picks[k] as int] == dv[q];
        assert(picks[k] < dates.len());
        assert(dv[picks[k] as int] == dates[order[picks[k] as int] as int]@);
    }
}

/// Which checkpoint records restore a page: the records in token order, and the positions
/// in that order of the records that restore one. A record whose page on disk already holds
/// everything it holds (`settled`) restores nothing; each other record's date gets exactly
/// one page, from the last such record of that date in token order, and no two pages share
/// a date.
#[verifier::spinoff_prover]
pub fn restore_plan(tokens: &[String], dates: &[crate::calendar::CalendarDate], settled: &[bool]) -> (r: (Vec<usize>, Vec<usize>))
    requires
        tokens@.len() == dates@.len(),
        dates@.len() == settled@.len(),
    ensures
        is_order(r.0@, tokens@.len() as int),
        ordered_by_token(r.0@, texts_view(tokens@)),
        forall|k: int| 0 <= k < r.1@.len() ==> #[trigger] r.1@[k] < dates@.len() && !settled@[r.0@[r.1@[k] as int] as int],
        forall|a: int, b: int| 0 <= a < b < r.1@.len()
            ==> dates@[r.0@[r.1@[a] as int] as int]@ != dates@[r.0@[r.1@[b] as int] as int]@,
        forall|k: int, p: int| 0 <= k < r.1@.len() && r.1@[k] < p < dates@.len() && !settled@[#[trigger] r.0@[p] as int]
            ==> dates@[r.0@[p] as int]@ != dates@[r.0@[#[trigger] r.1@[k] as int] as int]@,
        forall|p: int| 0 <= p < dates@.len() && !settled@[#[trigger] r.0@[p] as int]
            ==> exists|k: int| 0 <= k < r.1@.len() && #[trigger] dates@[r.0@[r.1@[k] as int] as int]@ == dates@[r.0@[p] as int]@,
{
    let order = token_order(tokens);
    let n = order.len();
    let mut in_order: Vec<crate::calendar::CalendarDate> = Vec::new();
    let mut needed: Vec<bool> = Vec::new();
    let mut p: usize = 0;
    while p < n
        invariant
            p <= n,
            n == order@.len(),
            is_order(order@, tokens@.len() as int),
            tokens@.len() == dates@.len(),
            dates@.len() == settled@.len(),
            in_order@.len() == p,
            needed@.len() == p,
            forall|q: int| 0 <= q < p ==> #[trigger] in_order@[q] == dates@[order@[q] as int],
            forall|q: int| 0 <= q < p ==> #[trigger] needed@[q] == !settled@[order@[q] as int],
        decreases n - p,
    {
        let i = order[p];
        assert(order@[p as int] < tokens@.len());
        in_order.push(dates[i]);
        needed.push(!settled[i]);
        p += 1;
    }
    let picks = restored_selection(in_order.as_slice(), needed.as_slice());
    proof {
        let dv = date_views(in_order@);
        assert forall|q: int| 0 <= q < n implies #[trigger] dv[q] == dates@[order@[q] as int]@ by {
            assert(in_order@[q] == dates@[order@[q] as int]);
        }
        lemma_plan(order@, picks@, dv, needed@, dates@, settled@);
    }
    let r = (order, picks);
    proof {
        assert forall|q: int| 0 <= q < dates@.len() && !settled@[#[trigger] r.0@[q] as int]
            implies exists|k: int| 0 <= k < r.1@.len()
                && #[trigger] dates@[r.0@[r.1@[k] as int] as int]@ == dates@[r.0@[q] as int]@ by {
            assert(!settled@[order@[q] as int]);
            let k = choose|k: int| 0 <= k < picks@.len()
                && #[trigger] dates@[order@[picks@[k] as int] as int]@ == dates@[order@[q] as int]@;
            assert(dates@[r.0@[r.1@[k] as int] as int]@ == dates@[r.0@[q] as int]@);
        }
    }
    r
}

/// The latest record, in token order, of a date.
pub fn latest_for_date(dates: &[crate::calendar::CalendarDate], date: &crate::calendar::CalendarDate) -> (r: Option<usize>)
    ensures
        match r {
            Some(i) => i < dates@.len() && dates@[i as int]@ == date@
                && forall|j: int| i < j < dates@.len() ==> (#[trigger] dates@[j])@ != date@,
            None => forall|j: int| 0 <= j < dates@.len() ==> (#[trigger] dates@[j])@ != date@,
        },
{
    let mut i = dates.len();
    while i > 0
        invariant
            i <= dates@.len(),
            forall|j: int| i <= j < dates@.len() ==> (#[trigger] dates@[j])@ != date@,
        decreases i,
    {
        proof {
            crate::calendar::CalendarDate::lemma_same_view(dates@[i - 1], *date);
        }
        if dates[i - 1] == *date {
            return Some(i - 1);
        }
        i -= 1;
    }
    None
}

/// Whether a checkpoint record holds nothing that the saved page lacks: no pending
/// photographs or input, and the page on disk is exactly the recorded text.
pub fn checkpoint_settled(no_pending: bool, no_input: bool, disk: Option<&[u8]>, raw: &[u8]) -> (r: bool)
    ensures
        r == (no_pending && no_input && (disk matches Some(b) && b@ == raw@)),
{
    if !(no_pending && no_input) {
        return false;
    }
    match disk {
        None => false,
        Some(b) => {
            if b.len() != raw.len() {
                return false;
            }
            let mut i: usize = 0;
            while i < b.len()
                invariant
                    i <= b.len(),
                    no_pending && no_input,
                    disk == Some(b),
                    b@.len() == raw@.len(),
                    forall|k: int| 0 <= k < i ==> b@[k] == raw@[k],
                decreases b.len() - i,
            {
                if b[i] != raw[i] {
                    assert(b@ != raw@) by {
                        if b@ == raw@ {
                            assert(b@[i as int] == raw@[i as int]);
                        }
                    }
                    return false;
                }
                i += 1;
            }
            assert(b@ =~= raw@);
            true
        },
    }
}

/// The key of a page record kept, by an earlier version, in a file of its own: the file's
/// name without its `.json` extension, for a name with that extension (a name that is
/// only `.json` has none).
pub open spec fn legacy_record_key_of(name: Seq<char>) -> Option<Seq<char>> {
    if name.len() > 5 && name.skip(name.len() - 5) == seq!['.', 'j', 's', 'o', 'n'] {
        Some(name.take(name.len() - 5))
    } else {
        None
    }
}

/// The key of a page record file of an earlier version, if `name` names one.
pub fn legacy_record_key(name: &str) -> (r: Option<String>)
    ensures
        crate::sessions::opt_view(r) == legacy_record_key_of(name@),
{
    let chars = crate::text::chars_of(name);
    let ext: Vec<char> = vec!['.', 'j', 's', 'o', 'n'];
    if chars.len() <= 5 || !crate::text::matches_at(chars.as_slice(), ext.as_slice(), chars.len() - 5) {
        proof {
            if chars@.len() > 5 {
                assert(chars@.subrange(chars@.len() - 5, chars@.len() as int) =~= chars@.skip(chars@.len() - 5));
            }
        }
        return None;
    }
    assert(chars@.subrange(chars@.len() - 5, chars@.len() as int) =~= chars@.skip(chars@.len() - 5));
    let stem = crate::text::string_of(&chars[0..chars.len() - 5]);
    assert(chars@.subrange(0, chars@.len() - 5) =~= chars@.take(chars@.len() - 5));
    Some(stem)
}

/// Whether the checkpoint now on disk is still the one that a save wrote, so that the save
/// may remove it: a newer checkpoint of the page has another token.
pub fn owns_checkpoint(current: Option<&str>, token: &str) -> (r: bool)
    ensures
        r == (current matches Some(c) && c@ == token@),
{
    match current {
        None => false,
        Some(c) => {
            let a = crate::text::chars_of(c);
            let b = crate::text::chars_of(token);
            crate::text::same_chars(a.as_slice(), b.as_slice())
        },
    }
}

} // verus!

verus! {

proof fn lemma_text_before_strict(a: Seq<char>, b: Seq<char>, c: Seq<char>)
    requires
        text_before(a, b),
        text_before(b, c),
    ensures
        text_before(a, c),
{
    lemma_text_before_total(a, b);
    lemma_text_before_total(b, c);
    lemma_text_before_total(a, c);
    lemma_text_before_transitive(a, b, c);
}

/// Texts in strictly increasing order.
pub open spec fn sorted_texts(s: Seq<Seq<char>>) -> bool {
    forall|i: int, j: int| 0 <= i < j < s.len() ==> text_before(#[trigger] s[i], #[trigger] s[j])
}

/// Inserts `p` into a list of texts in strictly increasing order, unless it is there.
fn insert_sorted(out: &mut Vec<String>, p: &String)
    requires
        sorted_texts(texts_view(old(out)@)),
    ensures
        sorted_texts(texts_view(final(out)@)),
        forall|x: Seq<char>| texts_view(final(out)@).contains(x) <==> (texts_view(old(out)@).contains(x) || x == p@),
{
    let ghost before = texts_view(out@);
    let mut pos: usize = 0;
    while pos < out.len() && string_before(out[pos].as_str(), p.as_str())
        invariant
            pos <= out.len(),
            before == texts_view(out@),
            forall|k: int| 0 <= k < pos ==> text_before(#[trigger] before[k], p@),
        decreases out.len() - pos,
    {
        pos += 1;
    }
    if pos < out.len() && out[pos] == *p {
        assert(before[pos as int] == p@);
        return;
    }
    proof {
        if pos < out.len() {
            lemma_text_before_total(before[pos as int], p@);
        }
    }
    out.insert(pos, p.clone());
    proof {
        let after = texts_view(out@);
        assert(after =~= before.insert(pos as int, p@));
        assert forall|i: int, j: int| 0 <= i < j < after.len() implies text_before(#[trigger] after[i], #[trigger] after[j]) by {
            if j < pos {
                assert(after[i] == before[i] && after[j] == before[j]);
            } else if i > pos {
                assert(after[i] == before[i - 1] && after[j] == before[j - 1]);
            } else if i == pos {
                assert(after[j] == before[j - 1]);
                if j - 1 > pos {
                    lemma_text_before_strict(p@, before[pos as int], before[j - 1]);
                }
            } else if j == pos {
                assert(after[i] == before[i]);
            } else {
                assert(after[i] == before[i] && after[j] == before[j - 1]);
                assert(text_before(p@, before[j - 1])) by {
                    if j - 1 > pos {
                        lemma_text_before_strict(p@, before[pos as int], before[j - 1]);
                    }
                }
                lemma_text_before_strict(before[i], p@, before[j - 1]);
            }
        }
        assert forall|x: Seq<char>| after.contains(x) <==> (before.contains(x) || x == p@) by {
            if after.contains(x) {
                let k = choose|k: int| 0 <= k < after.len() && after[k] == x;
                if k < pos {
                    assert(before[k] == x);
                } else if k > pos {
                    assert(before[k - 1] == x);
                }
            }
            if before.contains(x) {
                let k = choose|k: int| 0 <= k < before.len() && before[k] == x;
                if k < pos {
                    assert(after[k] == x);
                } else {
                    assert(after[k + 1] == x);
                }
            }
            if x == p@ {
                assert(after[pos as int] == x);
            }
        }
    }
}

/// One of the first `k` references leads to `x`.
pub open spec fn among_first(refs: Seq<(int, int, Seq<char>)>, k: int, x: Seq<char>) -> bool {
    exists|m: int| 0 <= m < k && refs[m].2 == x
}

/// A destination that one of the texts shows as a photograph.
pub open spec fn shown_path(contents: Seq<Seq<char>>, x: Seq<char>) -> bool {
    exists|i: int, j: int| 0 <= i < contents.len() && 0 <= j < text_references(contents[i]).len()
        && #[trigger] text_references(contents[i])[j].2 == x
}

/// The photographs that a page's session texts show, each once, in the order of strings:
/// the photographs a recovery record keeps.
pub fn recorded_paths(contents: &[String]) -> (r: Vec<String>)
    ensures
        sorted_texts(texts_view(r@)),
        forall|x: Seq<char>| texts_view(r@).contains(x) <==> shown_path(texts_view(contents@), x),
{
    let ghost all = texts_view(contents@);
    let mut out: Vec<String> = Vec::new();
    let mut s: usize = 0;
    while s < contents.len()
        invariant
            s <= contents.len(),
            all == texts_view(contents@),
            sorted_texts(texts_view(out@)),
            forall|x: Seq<char>| texts_view(out@).contains(x) <==> shown_path(all.take(s as int), x),
        decreases contents.len() - s,
    {
        let paths = crate::markdown::image_paths(contents[s].as_str());
        let ghost tr = text_references(all[s as int]);
        let ghost start = texts_view(out@);
        let mut k: usize = 0;
        while k < paths.len()
            invariant
                k <= paths.len(),
                s < contents.len(),
                all == texts_view(contents@),
                tr == text_references(all[s as int]),
                paths@.len() == tr.len(),
                forall|m: int| 0 <= m < paths@.len() ==> (#[trigger] paths@[m])@ == tr[m].2,
                sorted_texts(texts_view(out@)),
                forall|x: Seq<char>| #[trigger] texts_view(out@).contains(x) <==> (start.contains(x)
                    || among_first(tr, k as int, x)),
            decreases paths.len() - k,
        {
            let ghost prev = texts_view(out@);
            insert_sorted(&mut out, &paths[k]);
            proof {
                assert forall|x: Seq<char>| #[trigger] texts_view(out@).contains(x) <==> (start.contains(x)
                    || among_first(tr, k + 1, x)) by {
                    assert(texts_view(out@).contains(x) <==> (prev.contains(x) || x == paths@[k as int]@));
                    assert(prev.contains(x) <==> (start.contains(x) || among_first(tr, k as int, x)));
                    if x == paths@[k as int]@ {
                        assert(tr[k as int].2 == x);
                    }
                    if among_first(tr, k as int, x) {
                        let m = choose|m: int| 0 <= m < k && tr[m].2 == x;
                        assert(0 <= m < k + 1 && tr[m].2 == x);
                    }
                    if among_first(tr, k + 1, x) {
                        let m = choose|m: int| 0 <= m < k + 1 && tr[m].2 == x;
                        if m == k {
                            assert(paths@[k as int]@ == x);
                        } else {
                            assert(among_first(tr, k as int, x));
                        }
                    }
                }
            }
            k += 1;
        }
        proof {
            let next = all.take(s + 1);
            assert forall|x: Seq<char>| texts_view(out@).contains(x) <==> shown_path(next, x) by {
                if shown_path(next, x) {
                    let (i, j) = choose|i: int, j: int| 0 <= i < next.len() && 0 <= j < text_references(next[i]).len()
                        && #[trigger] text_references(next[i])[j].2 == x;
                    if i < s {
                        assert(all.take(s as int)[i] == next[i]);
                        assert(shown_path(all.take(s as int), x));
                    } else {
                        assert(next[i] == all[s as int]);
                        assert(tr[j].2 == x);
                    }
                }
                if start.contains(x) {
                    assert(shown_path(all.take(s as int), x));
                    let (i, j) = choose|i: int, j: int| 0 <= i < s && 0 <= j < text_references(all.take(s as int)[i]).len()
                        && #[trigger] text_references(all.take(s as int)[i])[j].2 == x;
                    assert(next[i] == all.take(s as int)[i]);
                    assert(text_references(next[i])[j].2 == x);
                }
                if among_first(tr, paths@.len() as int, x) {
                    let m = choose|m: int| 0 <= m < paths@.len() && tr[m].2 == x;
                    assert(next[s as int] == all[s as int]);
                    assert(text_references(next[s as int])[m].2 == x);
                }
            }
        }
        s += 1;
    }
    assert(all.take(contents.len() as int) =~= all);
    out
}

} // verus!

verus! {

/// Where an imported photograph is stored inside the journal's year folder: in its day's
/// folder under a fresh ULID; or why the photograph is refused.
pub fn import_path(date: &crate::calendar::CalendarDate, bytes: &[u8]) -> (r: Result<String, String>)
    ensures
        match crate::photographs::photograph_format(bytes@) {
            Err(e) => r matches Err(m) && m@ == "Unsupported photograph. "@ + e,
            Ok((ext, _)) => r matches Ok(p) && exists|id: Seq<char>| crate::ids::ulid_text(id)
                && p@ == crate::photographs::stored_path_text(date@, id, ext),
        },
{
    match crate::photographs::format(bytes) {
        Err(e) => {
            let mut m = String::from_str("Unsupported photograph. ");
            m.append(e.as_str());
            Err(m)
        },
        Ok(_) => crate::photographs::fresh_path(date, bytes),
    }
}

/// When a recovery record is made and the token that tells it apart from every other
/// record: the current local time in RFC 3339 and a fresh ULID.
pub fn new_record_stamp() -> (r: (String, String))
    ensures
        crate::calendar::rfc3339_reading(r.0@) is Some,
        crate::ids::ulid_text(r.1@),
{
    (crate::calendar::now_rfc3339(), crate::ids::new_ulid())
}

/// How an import ends after it tried to keep the photograph both in the recovery cache
/// and in the journal: it fails only when both failed, and then says why each did.
pub fn import_outcome(path: String, cached: Result<(), String>, stored: Result<(), String>) -> (r: Result<String, String>)
    ensures
        match (cached, stored) {
            (Err(c), Err(s)) => r matches Err(m) && m@ == "Journal: "@ + s@ + ". Recovery: "@ + c@ + ". The image remains in memory."@,
            _ => r matches Ok(p) && p@ == path@,
        },
{
    match (cached, stored) {
        (Err(c), Err(s)) => {
            let mut m = String::from_str("Journal: ");
            m.append(s.as_str());
            m.append(". Recovery: ");
            m.append(c.as_str());
            m.append(". The image remains in memory.");
            Err(m)
        },
        _ => Ok(path),
    }
}

} // verus!

verus! {

proof fn lemma_without_date(s: Seq<usize>, dates: Seq<(int, int, int)>, day: (int, int, int))
    ensures
        forall|x: usize| without_date(s, dates, day).contains(x) <==> (s.contains(x) && dates[x as int] != day),
        forall|k: int| 0 <= k < without_date(s, dates, day).len() ==> #[trigger] dates[without_date(s, dates, day)[k] as int] != day,
        (forall|a: int, b: int| 0 <= a < b < s.len() ==> s[a] != s[b]) ==>
            forall|a: int, b: int| 0 <= a < b < without_date(s, dates, day).len() ==> without_date(s, dates, day)[a] != without_date(s, dates, day)[b],
        (forall|a: int, b: int| 0 <= a < b < s.len() ==> dates[s[a] as int] != dates[s[b] as int]) ==>
            forall|a: int, b: int| 0 <= a < b < without_date(s, dates, day).len()
                ==> dates[without_date(s, dates, day)[a] as int] != dates[without_date(s, dates, day)[b] as int],
    decreases s.len(),
{
    if s.len() > 0 {
        let p = s.drop_last();
        lemma_without_date(p, dates, day);
        let rest = without_date(p, dates, day);
        let w = without_date(s, dates, day);
        assert forall|x: usize| w.contains(x) <==> (s.contains(x) && dates[x as int] != day) by {
            if s.contains(x) {
                let k = choose|k: int| 0 <= k < s.len() && s[k] == x;
                if k < s.len() - 1 {
                    assert(p[k] == x);
                }
            }
            if p.contains(x) {
                let k = choose|k: int| 0 <= k < p.len() && p[k] == x;
                assert(s[k] == x);
            }
            if dates[s.last() as int] != day {
                assert(w == rest.push(s.last()));
                if w.contains(x) {
                    let k = choose|k: int| 0 <= k < w.len() && w[k] == x;
                    if k < rest.len() {
                        assert(rest[k] == x);
                    }
                }
                if rest.contains(x) {
                    let k = choose|k: int| 0 <= k < rest.len() && rest[k] == x;
                    assert(w[k] == x);
                }
                assert(w[rest.len() as int] == s.last());
            }
            assert(s[s.len() - 1] == s.last());
        }
        if dates[s.last() as int] != day {
            assert(w == rest.push(s.last()));
            assert forall|k: int| 0 <= k < w.len() implies #[trigger] dates[w[k] as int] != day by {
                if k < rest.len() {
                    assert(w[k] == rest[k]);
                }
            }
            if forall|a: int, b: int| 0 <= a < b < s.len() ==> s[a] != s[b] {
                assert forall|a: int, b: int| 0 <= a < b < w.len() implies w[a] != w[b] by {
                    if b == rest.len() {
                        assert(rest.contains(w[a]));
                        assert(p.contains(w[a]));
                        let k = choose|k: int| 0 <= k < p.len() && p[k] == w[a];
                        assert(s[k] == p[k]);
                    }
                }
            }
            if forall|a: int, b: int| 0 <= a < b < s.len() ==> dates[s[a] as int] != dates[s[b] as int] {
                assert forall|a: int, b: int| 0 <= a < b < w.len() implies dates[w[a] as int] != dates[w[b] as int] by {
                    if b == rest.len() {
                        assert(rest.contains(w[a]));
                        assert(p.contains(w[a]));
                        let k = choose|k: int| 0 <= k < p.len() && p[k] == w[a];
                        assert(s[k] == p[k]);
                    }
                }
            }
        }
    }
}

/// What a restore brings back. Of the first `n` records in token order, the pages restored
/// are those of records that still need restoring, one page for each date that has such a
/// record, and for each date the page of its latest such record.
pub proof fn lemma_restored_pages(dates: Seq<(int, int, int)>, needed: Seq<bool>, n: int)
    requires
        0 <= n <= dates.len(),
        dates.len() == needed.len(),
        n <= usize::MAX + 1,
    ensures
        ({
            let r = restored_upto(dates, needed, n);
            &&& forall|k: int| 0 <= k < r.len() ==> #[trigger] r[k] < n && needed[r[k] as int]
            &&& forall|a: int, b: int| 0 <= a < b < r.len() ==> dates[r[a] as int] != dates[r[b] as int]
            &&& forall|k: int, j: int| 0 <= k < r.len() && r[k] < j < n && #[trigger] needed[j] ==> dates[j] != dates[#[trigger] r[k] as int]
            &&& forall|j: int| 0 <= j < n && needed[j] ==> exists|k: int| 0 <= k < r.len() && #[trigger] dates[r[k] as int] == dates[j]
        }),
    decreases n,
{
    if n > 0 {
        lemma_restored_pages(dates, needed, n - 1);
        let before = restored_upto(dates, needed, n - 1);
        let r = restored_upto(dates, needed, n);
        if needed[n - 1] {
            let day = dates[n - 1];
            lemma_without_date(before, dates, day);
            let w = without_date(before, dates, day);
            assert(r == w.push((n - 1) as usize));
            assert forall|k: int| 0 <= k < r.len() implies #[trigger] r[k] < n && needed[r[k] as int] by {
                if k < w.len() {
                    assert(w.contains(w[k]));
                    assert(before.contains(w[k]));
                    let i = choose|i: int| 0 <= i < before.len() && before[i] == w[k];
                    assert(before[i] < n - 1);
                }
            }
            assert forall|a: int, b: int| 0 <= a < b < r.len() implies dates[r[a] as int] != dates[r[b] as int] by {
                if b == w.len() {
                    assert(dates[w[a] as int] != day);
                }
            }
            assert forall|k: int, j: int| 0 <= k < r.len() && r[k] < j < n && #[trigger] needed[j] implies dates[j] != dates[#[trigger] r[k] as int] by {
                if k < w.len() {
                    assert(w.contains(w[k]));
                    assert(before.contains(w[k]));
                    let i = choose|i: int| 0 <= i < before.len() && before[i] == w[k];
                    if j < n - 1 {
                        assert(r[k] == before[i]);
                    } else {
                        assert(dates[w[k] as int] != day);
                    }
                }
            }
            assert forall|j: int| 0 <= j < n && needed[j] implies exists|k: int| 0 <= k < r.len() && #[trigger] dates[r[k] as int] == dates[j] by {
                if dates[j] == day {
                    assert(dates[r[w.len() as int] as int] == dates[j]);
                } else {
                    let k = choose|k: int| 0 <= k < before.len() && #[trigger] dates[before[k] as int] == dates[j];
                    assert(before.contains(before[k]));
                    assert(w.contains(before[k]));
                    let m = choose|m: int| 0 <= m < w.len() && w[m] == before[k];
                    assert(r[m] == w[m]);
                    assert(dates[r[m] as int] == dates[j]);
                }
            }
        } else {
            assert(r == before);
            assert forall|k: int, j: int| 0 <= k < r.len() && r[k] < j < n && #[trigger] needed[j] implies dates[j] != dates[#[trigger] r[k] as int] by {
                if j < n - 1 {
                    assert(r[k] == before[k]);
                }
            }
        }
    }
}

} // verus!
