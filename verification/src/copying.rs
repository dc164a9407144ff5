//! Exporting a copy of a page: which photographs it carries, where they go beside the copy,
//! and how the copy's text points at them.
use vstd::prelude::*;
use crate::ids::{ulid_text, new_ulid};
use crate::markdown::{image_references, text_references};
use crate::recovery::{CopyAsset, texts_view};
use crate::text::{chars_of, string_of, push_all, push_str, decimal, decimal_chars, same_chars};

verus! {

/// The destinations of one text's references, from the last to the first.
pub open spec fn reversed_paths(refs: Seq<(int, int, Seq<char>)>) -> Seq<Seq<char>> {
    Seq::new(refs.len(), |i: int| refs[refs.len() - 1 - i].2)
}

/// The destinations that a copy visits: the sessions in order, and in each session its
/// rendered photographs from the last to the first.
pub open spec fn visit_order(contents: Seq<Seq<char>>) -> Seq<Seq<char>>
    decreases contents.len(),
{
    if contents.len() == 0 {
        Seq::empty()
    } else {
        visit_order(contents.drop_last()) + reversed_paths(text_references(contents.last()))
    }
}

/// Each destination once, in the order of its first visit.
pub open spec fn first_visits(s: Seq<Seq<char>>) -> Seq<Seq<char>>
    decreases s.len(),
{
    if s.len() == 0 {
        Seq::empty()
    } else {
        let before = first_visits(s.drop_last());
        if before.contains(s.last()) {
            before
        } else {
            before.push(s.last())
        }
    }
}

/// The photographs a copy of these session texts carries, in the order they are copied:
/// each once, at its first visit.
pub fn copy_paths(contents: &[String]) -> (r: Vec<String>)
    ensures
        texts_view(r@) == first_visits(visit_order(texts_view(contents@))),
{
    let ghost all = texts_view(contents@);
    let mut out: Vec<String> = Vec::new();
    let ghost visited: Seq<Seq<char>> = Seq::empty();
    let mut s: usize = 0;
    while s < contents.len()
        invariant
            s <= contents.len(),
            all == texts_view(contents@),
            visited == visit_order(all.take(s as int)),
            texts_view(out@) == first_visits(visited),
        decreases contents.len() - s,
    {
        let refs = image_references(contents[s].as_str());
        let ghost tr = text_references(all[s as int]);
        assert(refs@.len() == tr.len());
        assert(all.take(s + 1).drop_last() =~= all.take(s as int));
        assert(all.take(s + 1).last() == contents@[s as int]@);
        let mut k = refs.len();
        let ghost start = visited;
        while k > 0
            invariant
                k <= refs.len(),
                refs@.len() == tr.len(),
                tr == text_references(all[s as int]),
                s < contents.len(),
                all == texts_view(contents@),
                forall|i: int| 0 <= i < refs@.len() ==> (#[trigger] refs@[i]).2@ == tr[i].2,
                visited == start + reversed_paths(tr).take(refs.len() - k),
                texts_view(out@) == first_visits(visited),
            decreases k,
        {
            let path = &refs[k - 1].2;
            let ghost before = visited;
            proof {
                visited = visited.push(path@);
                assert(reversed_paths(tr).take(refs.len() - k + 1) =~= reversed_paths(tr).take(refs.len() - k).push(path@));
                assert(visited.drop_last() =~= before);
            }
            let mut seen = false;
            let mut j: usize = 0;
            while j < out.len()
                invariant
                    j <= out.len(),
                    seen == exists|m: int| 0 <= m < j && out@[m]@ == path@,
                decreases out.len() - j,
            {
                let a = chars_of(out[j].as_str());
                let b = chars_of(path.as_str());
                if same_chars(a.as_slice(), b.as_slice()) {
                    seen = true;
                }
                j += 1;
            }
            proof {
                let fv = first_visits(before);
                assert(fv == texts_view(out@));
                if seen {
                    let m = choose|m: int| 0 <= m < out@.len() && out@[m]@ == path@;
                    assert(fv[m] == path@);
                } else {
                    assert forall|m: int| 0 <= m < fv.len() implies fv[m] != path@ by {
                        assert(fv[m] == out@[m]@);
                    }
                }
            }
            if !seen {
                let ghost old_out = out@;
                out.push(path.clone());
                assert(texts_view(out@) =~= texts_view(old_out).push(path@));
            }
            k -= 1;
        }
        assert(reversed_paths(tr).take(refs.len() as int) =~= reversed_paths(tr));
        s += 1;
    }
    assert(all.take(contents.len() as int) =~= all);
    out
}

/// A fresh name for the folder of a copy's photographs: `photographs-` and a ULID.
pub fn copy_folder() -> (r: String)
    ensures
        exists|id: Seq<char>| ulid_text(id) && r@ == "photographs-"@ + id,
{
    let id = new_ulid();
    let mut r = String::from_str("photographs-");
    r.append(id.as_str());
    r
}

/// Where the `n`-th photograph of a copy goes, beside the copy: `folder/n.extension`.
pub fn copy_relative(folder: &str, n: usize, extension: &str) -> (r: String)
    ensures
        r@ == folder@ + "/"@ + decimal(n as nat) + "."@ + extension@,
{
    let mut out: Vec<char> = Vec::new();
    push_str(&mut out, folder);
    push_str(&mut out, "/");
    let digits = decimal_chars(n as u64);
    push_all(&mut out, digits.as_slice());
    push_str(&mut out, ".");
    push_str(&mut out, extension);
    string_of(out.as_slice())
}

/// The first position in `s` at or after `from` that holds `x`.
pub open spec fn first_index(s: Seq<Seq<char>>, x: Seq<char>, from: int) -> Option<int>
    decreases s.len() - from,
{
    if from < 0 || from >= s.len() {
        None
    } else if s[from] == x {
        Some(from)
    } else {
        first_index(s, x, from + 1)
    }
}

/// The first pending photograph of a copy with this path, if there is one.
pub fn pending_asset(pending: &[CopyAsset], path: &str) -> (r: Option<usize>)
    ensures
        r == match first_index(pending@.map_values(|a: CopyAsset| a.path@), path@, 0) {
            Some(i) => Some(i as usize),
            None => None::<usize>,
        },
{
    let ghost ps = pending@.map_values(|a: CopyAsset| a.path@);
    let target = chars_of(path);
    let mut i: usize = 0;
    while i < pending.len()
        invariant
            i <= pending.len(),
            target@ == path@,
            ps == pending@.map_values(|a: CopyAsset| a.path@),
            first_index(ps, path@, 0) == first_index(ps, path@, i as int),
        decreases pending.len() - i,
    {
        let a = chars_of(pending[i].path.as_str());
        if same_chars(a.as_slice(), target.as_slice()) {
            assert(ps[i as int] == path@);
            return Some(i);
        }
        i += 1;
    }
    None
}

/// What replaces the destination `p` in a copy: the new place of the photograph when
/// `paths` lists it, or `p` itself.
pub open spec fn replacement(p: Seq<char>, paths: Seq<Seq<char>>, relatives: Seq<Seq<char>>) -> Seq<char> {
    match first_index(paths, p, 0) {
        Some(i) => if i < relatives.len() {
            relatives[i]
        } else {
            p
        },
        None => p,
    }
}

/// The references come one after another, each within the text.
pub open spec fn refs_in_order(refs: Seq<(int, int, Seq<char>)>, len: int) -> bool {
    &&& forall|i: int| 0 <= i < refs.len() ==> 0 <= (#[trigger] refs[i]).0 <= refs[i].1 <= len
    &&& forall|i: int, j: int| 0 <= i < j < refs.len() ==> (#[trigger] refs[i]).1 <= (#[trigger] refs[j]).0
}

/// The text after replacing the references from the `n`-th on, the last first.
pub open spec fn replaced_from(text: Seq<char>, refs: Seq<(int, int, Seq<char>)>, paths: Seq<Seq<char>>, relatives: Seq<Seq<char>>, n: int) -> Seq<char>
    decreases refs.len() - n,
{
    if n < 0 || n >= refs.len() {
        text
    } else {
        let t = replaced_from(text, refs, paths, relatives, n + 1);
        t.take(refs[n].0) + replacement(refs[n].2, paths, relatives) + t.skip(refs[n].1)
    }
}

/// The copy's text of one session: each rendered photograph's destination replaced by its
/// new place, from the last to the first; `None` when the photographs' ranges do not come
/// one after another.
pub fn rewrite_references(content: &str, paths: &[String], relatives: &[String]) -> (r: Option<String>)
    ensures
        match r {
            Some(t) => refs_in_order(text_references(content@), content@.len() as int)
                && t@ == replaced_from(content@, text_references(content@), texts_view(paths@), texts_view(relatives@), 0),
            None => !refs_in_order(text_references(content@), content@.len() as int),
        },
{
    let refs = image_references(content);
    let ghost tr = text_references(content@);
    let text = chars_of(content);
    let ghost pv = texts_view(paths@);
    let ghost rv = texts_view(relatives@);
    let mut i: usize = 0;
    while i < refs.len()
        invariant
            i <= refs.len(),
            refs@.len() == tr.len(),
            tr == text_references(content@),
            text@ == content@,
            forall|m: int| 0 <= m < refs@.len() ==> (#[trigger] refs@[m]).0 as int == tr[m].0
                && refs@[m].1 as int == tr[m].1 && refs@[m].2@ == tr[m].2,
            forall|m: int| 0 <= m < i ==> 0 <= (#[trigger] tr[m]).0 <= tr[m].1 <= content@.len(),
            forall|m: int| 0 < m < i ==> tr[m - 1].1 <= (#[trigger] tr[m]).0,
        decreases refs.len() - i,
    {
        let (a, b, _) = &refs[i];
        if !(*a <= *b && *b <= text.len()) {
            assert(!(0 <= tr[i as int].0 <= tr[i as int].1 <= content@.len()));
            return None;
        }
        if i > 0 && refs[i - 1].1 > *a {
            assert(!(tr[i - 1].1 <= tr[i as int].0));
            return None;
        }
        i += 1;
    }
    proof {
        assert forall|x: int, y: int| 0 <= x < y < tr.len() implies (#[trigger] tr[x]).1 <= (#[trigger] tr[y]).0 by {
            lemma_chain(tr, x, y);
        }
    }
    let mut t: Vec<char> = text;
    let mut n = refs.len();
    while n > 0
        invariant
            n <= refs.len(),
            refs@.len() == tr.len(),
            refs_in_order(tr, content@.len() as int),
            forall|m: int| 0 <= m < refs@.len() ==> (#[trigger] refs@[m]).0 as int == tr[m].0
                && refs@[m].1 as int == tr[m].1 && refs@[m].2@ == tr[m].2,
            t@ == replaced_from(content@, tr, pv, rv, n as int),
            pv == texts_view(paths@),
            rv == texts_view(relatives@),
            n < refs.len() ==> t@.len() >= tr[n as int].0 && t@.take(tr[n as int].0) == content@.take(tr[n as int].0),
            n == refs.len() ==> t@ == content@,
        decreases n,
    {
        let (a, b, p) = &refs[n - 1];
        let ghost prev = t@;
        proof {
            if n < refs.len() {
                assert(tr[n - 1].1 <= tr[n as int].0);
                assert(prev.take(*b as int) =~= prev.take(tr[n as int].0).take(*b as int));
                assert(content@.take(*b as int) =~= content@.take(tr[n as int].0).take(*b as int));
            }
        }
        let repl = replacement_of(p.as_str(), paths, relatives);
        let mut next: Vec<char> = Vec::new();
        push_all(&mut next, &t.as_slice()[0..*a]);
        push_all(&mut next, repl.as_slice());
        let tail = &t.as_slice()[*b..t.len()];
        push_all(&mut next, tail);
        proof {
            assert(next@ =~= prev.take(*a as int) + replacement(p@, pv, rv) + prev.skip(*b as int));
            assert(next@.take(*a as int) =~= prev.take(*a as int));
            assert(prev.take(*a as int) =~= prev.take(*b as int).take(*a as int));
            assert(content@.take(*a as int) =~= content@.take(*b as int).take(*a as int));
        }
        t = next;
        n -= 1;
    }
    Some(string_of(t.as_slice()))
}

proof fn lemma_chain(tr: Seq<(int, int, Seq<char>)>, x: int, y: int)
    requires
        0 <= x < y < tr.len(),
        forall|m: int| 0 <= m < tr.len() ==> 0 <= (#[trigger] tr[m]).0 <= tr[m].1,
        forall|m: int| 0 < m < tr.len() ==> tr[m - 1].1 <= (#[trigger] tr[m]).0,
    ensures
        tr[x].1 <= tr[y].0,
    decreases y - x,
{
    assert(tr[y - 1].1 <= tr[y].0);
    if x < y - 1 {
        lemma_chain(tr, x, y - 1);
        assert(tr[y - 1].0 <= tr[y - 1].1);
    }
}

/// The characters that replace destination `p`.
fn replacement_of(p: &str, paths: &[String], relatives: &[String]) -> (r: Vec<char>)
    ensures
        r@ == replacement(p@, texts_view(paths@), texts_view(relatives@)),
{
    let ghost pv = texts_view(paths@);
    let target = chars_of(p);
    let mut i: usize = 0;
    while i < paths.len()
        invariant
            i <= paths.len(),
            target@ == p@,
            pv == texts_view(paths@),
            first_index(pv, p@, 0) == first_index(pv, p@, i as int),
        decreases paths.len() - i,
    {
        let a = chars_of(paths[i].as_str());
        if same_chars(a.as_slice(), target.as_slice()) {
            assert(pv[i as int] == p@);
            if i < relatives.len() {
                return chars_of(relatives[i].as_str());
            }
            return target;
        }
        i += 1;
    }
    target
}

} // verus!

verus! {

/// A copy carries each photograph once, and every photograph that it visits: the list of
/// first visits holds exactly the visited destinations, with no destination twice.
pub proof fn lemma_first_visits(s: Seq<Seq<char>>)
    ensures
        forall|x: Seq<char>| first_visits(s).contains(x) <==> s.contains(x),
        forall|i: int, j: int| 0 <= i < j < first_visits(s).len() ==> first_visits(s)[i] != first_visits(s)[j],
    decreases s.len(),
{
    if s.len() > 0 {
        let p = s.drop_last();
        lemma_first_visits(p);
        let before = first_visits(p);
        assert forall|x: Seq<char>| first_visits(s).contains(x) <==> s.contains(x) by {
            if s.contains(x) {
                let k = choose|k: int| 0 <= k < s.len() && s[k] == x;
                if k < s.len() - 1 {
                    assert(p[k] == x);
                    assert(p.contains(x));
                }
            }
            if p.contains(x) {
                let k = choose|k: int| 0 <= k < p.len() && p[k] == x;
                assert(s[k] == x);
            }
            if !before.contains(s.last()) {
                assert(first_visits(s) == before.push(s.last()));
                if first_visits(s).contains(x) {
                    let k = choose|k: int| 0 <= k < first_visits(s).len() && first_visits(s)[k] == x;
                    if k < before.len() {
                        assert(before[k] == x);
                    }
                }
                if before.contains(x) {
                    let k = choose|k: int| 0 <= k < before.len() && before[k] == x;
                    assert(first_visits(s)[k] == x);
                }
                assert(first_visits(s)[before.len() as int] == s.last());
            }
            assert(s.last() == s[s.len() - 1]);
        }
        if !before.contains(s.last()) {
            assert(first_visits(s) == before.push(s.last()));
            assert forall|i: int, j: int| 0 <= i < j < first_visits(s).len() implies first_visits(s)[i] != first_visits(s)[j] by {
                if j == before.len() {
                    assert(first_visits(s)[i] == before[i]);
                }
            }
        }
    }
}

} // verus!
