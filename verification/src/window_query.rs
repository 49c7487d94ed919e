//! Choosing the windows that belong to the target processes while the
//! top-level windows are walked, and ordering the result by handle.
use vstd::prelude::*;
use crate::text::{lex_less, lex_lt, lemma_lex_lt_asymmetric, lemma_lex_lt_irreflexive, lemma_lex_lt_total, lemma_lex_lt_transitive};
use crate::tool_types::WindowEntry;
use std::collections::HashSet;

verus! {

/// Entries ordered by handle text: no entry comes after one whose
/// handle text is greater.
pub open spec fn hwnd_sorted(s: Seq<WindowEntry>) -> bool {
    forall|i: int, j: int| 0 <= i < j < s.len() ==> !lex_lt(#[trigger] s[j].hwnd@, #[trigger] s[i].hwnd@)
}

/// Whether an entry's handle text is `k`.
pub open spec fn has_hwnd(k: Seq<char>) -> spec_fn(WindowEntry) -> bool {
    |e: WindowEntry| e.hwnd@ == k
}

/// `r` is `input` sorted stably by handle text: ordered, and for every
/// handle text the entries with that text come in the same order as in
/// `input` (so `r` holds exactly the entries of `input`).
pub open spec fn stable_sort_by_hwnd(r: Seq<WindowEntry>, input: Seq<WindowEntry>) -> bool {
    &&& hwnd_sorted(r)
    &&& forall|k: Seq<char>| #[trigger] r.filter(has_hwnd(k)) == input.filter(has_hwnd(k))
}

proof fn lemma_filter_none(s: Seq<WindowEntry>, pred: spec_fn(WindowEntry) -> bool)
    requires
        forall|i: int| 0 <= i < s.len() ==> !pred(#[trigger] s[i]),
    ensures
        s.filter(pred) == Seq::<WindowEntry>::empty(),
    decreases s.len(),
{
    reveal(Seq::filter);
    if s.len() > 0 {
        lemma_filter_none(s.drop_last(), pred);
    }
}

proof fn lemma_filter_single(x: WindowEntry, pred: spec_fn(WindowEntry) -> bool)
    ensures
        seq![x].filter(pred) == if pred(x) {
            seq![x]
        } else {
            Seq::<WindowEntry>::empty()
        },
{
    reveal_with_fuel(Seq::filter, 2);
    assert(seq![x].drop_last() =~= Seq::<WindowEntry>::empty());
}

/// Inserting `x` at `p`, after every entry whose handle text is smaller
/// and before the rest, keeps a stable sort.
proof fn lemma_insert_keeps_sort(out: Seq<WindowEntry>, x: WindowEntry, p: int, rest: Seq<WindowEntry>)
    requires
        0 <= p <= out.len(),
        stable_sort_by_hwnd(out, rest),
        forall|q: int| 0 <= q < p ==> lex_lt(#[trigger] out[q].hwnd@, x.hwnd@),
        forall|q: int| p <= q < out.len() ==> !lex_lt(#[trigger] out[q].hwnd@, x.hwnd@),
    ensures
        stable_sort_by_hwnd(out.insert(p, x), seq![x] + rest),
{
    let n = out.insert(p, x);
    let a = out.take(p);
    let b = out.skip(p);
    assert(out =~= a + b);
    assert(n =~= a + (seq![x] + b));
    assert forall|i: int, j: int| 0 <= i < j < n.len() implies !lex_lt(#[trigger] n[j].hwnd@, #[trigger] n[i].hwnd@) by {
        if i < p && j == p {
            lemma_lex_lt_asymmetric(out[i].hwnd@, x.hwnd@);
        } else if i < p && j > p {
            // out[i] < x <= out[j - 1]
            if lex_lt(out[j - 1].hwnd@, out[i].hwnd@) {
                lemma_lex_lt_transitive(out[j - 1].hwnd@, out[i].hwnd@, x.hwnd@);
            }
        } else if i == p && j > p {
            assert(!lex_lt(out[j - 1].hwnd@, x.hwnd@));
        } else if i > p {
            assert(n[i] == out[i - 1] && n[j] == out[j - 1]);
        }
    }
    assert forall|k: Seq<char>| #[trigger] n.filter(has_hwnd(k)) == (seq![x] + rest).filter(has_hwnd(k)) by {
        let pr = has_hwnd(k);
        Seq::filter_distributes_over_add(a, b, pr);
        Seq::filter_distributes_over_add(seq![x], b, pr);
        Seq::filter_distributes_over_add(a, seq![x] + b, pr);
        Seq::filter_distributes_over_add(seq![x], rest, pr);
        lemma_filter_single(x, pr);
        assert(out.filter(pr) == rest.filter(pr));
        if x.hwnd@ == k {
            assert forall|q: int| 0 <= q < a.len() implies !pr(#[trigger] a[q]) by {
                assert(lex_lt(out[q].hwnd@, x.hwnd@));
                lemma_lex_lt_irreflexive(x.hwnd@);
            }
            lemma_filter_none(a, pr);
            assert(a.filter(pr) + (seq![x] + b.filter(pr)) =~= seq![x] + (a.filter(pr) + b.filter(pr)));
        } else {
            assert(a.filter(pr) + (Seq::<WindowEntry>::empty() + b.filter(pr)) =~= Seq::<WindowEntry>::empty() + (a.filter(pr) + b.filter(pr)));
        }
    }
}

/// Sorts entries by handle text, keeping the order of entries with the
/// same handle text (`sort_by(|l, r| l.hwnd.cmp(&r.hwnd))`).
pub fn sort_by_hwnd(entries: Vec<WindowEntry>) -> (r: Vec<WindowEntry>)
    ensures
        stable_sort_by_hwnd(r@, entries@),
{
    let ghost input = entries@;
    let mut rest = entries;
    let mut out: Vec<WindowEntry> = Vec::new();
    assert(input.skip(input.len() as int) =~= Seq::<WindowEntry>::empty());
    assert(input.take(input.len() as int) =~= input);
    while rest.len() > 0
        invariant
            rest.len() <= input.len(),
            rest@ == input.take(rest.len() as int),
            stable_sort_by_hwnd(out@, input.skip(rest.len() as int)),
        decreases rest.len(),
    {
        let ghost m = rest.len() as int;
        let x = match rest.pop() {
            Some(x) => x,
            None => {
                return out;
            },
        };
        assert(x == input[m - 1]);
        assert(rest@ =~= input.take(m - 1));
        assert(input.skip(m - 1) =~= seq![x] + input.skip(m));
        let mut p: usize = 0;
        loop
            invariant
                p <= out.len(),
                forall|q: int| 0 <= q < p ==> lex_lt(#[trigger] out@[q].hwnd@, x.hwnd@),
            ensures
                p <= out.len(),
                forall|q: int| 0 <= q < p ==> lex_lt(#[trigger] out@[q].hwnd@, x.hwnd@),
                p < out.len() ==> !lex_lt(out@[p as int].hwnd@, x.hwnd@),
            decreases out.len() - p,
        {
            if p == out.len() {
                break;
            }
            if !lex_less(out[p].hwnd.as_str(), x.hwnd.as_str()) {
                break;
            }
            p = p + 1;
        }
        proof {
            assert forall|q: int| p <= q < out@.len() implies !lex_lt(#[trigger] out@[q].hwnd@, x.hwnd@) by {
                let op = out@[p as int].hwnd@;
                let oq = out@[q].hwnd@;
                assert(!lex_lt(op, x.hwnd@));
                if q > p {
                    assert(!lex_lt(oq, op));
                    lemma_lex_lt_total(op, oq);
                    if lex_lt(oq, x.hwnd@) && lex_lt(op, oq) {
                        lemma_lex_lt_transitive(op, oq, x.hwnd@);
                    }
                }
            }
            lemma_insert_keeps_sort(out@, x, p as int, input.skip(m));
        }
        out.insert(p, x);
    }
    out
}


proof fn lemma_filter_empty_of_empty(s: Seq<WindowEntry>, pred: spec_fn(WindowEntry) -> bool)
    requires
        s.len() == 0,
    ensures
        s.filter(pred).len() == 0,
{
    reveal(Seq::filter);
}

/// An entry with key `k` in `b` has a counterpart with key `k` in `a`
/// when their entries with key `k` agree.
proof fn lemma_key_present(a: Seq<WindowEntry>, b: Seq<WindowEntry>, j: int) -> (i: int)
    requires
        0 <= j < b.len(),
        a.filter(has_hwnd(b[j].hwnd@)) == b.filter(has_hwnd(b[j].hwnd@)),
    ensures
        0 <= i < a.len(),
        a[i].hwnd@ == b[j].hwnd@,
{
    let p = has_hwnd(b[j].hwnd@);
    b.lemma_filter_contains(p, j);
    a.lemma_filter_contains_rev(p, b[j]);
    let i = choose|i: int| 0 <= i < a.len() && a[i] == b[j];
    i
}

proof fn lemma_sorted_drop_first(a: Seq<WindowEntry>)
    requires
        hwnd_sorted(a),
        a.len() > 0,
    ensures
        hwnd_sorted(a.drop_first()),
{
    assert forall|i: int, j: int| 0 <= i < j < a.drop_first().len() implies !lex_lt(
        #[trigger] a.drop_first()[j].hwnd@,
        #[trigger] a.drop_first()[i].hwnd@,
    ) by {
        assert(a.drop_first()[i] == a[i + 1] && a.drop_first()[j] == a[j + 1]);
    }
}

/// Two sequences sorted by handle text whose entries agree, handle text
/// by handle text, are equal.
proof fn lemma_sorted_same_filters_equal(a: Seq<WindowEntry>, b: Seq<WindowEntry>)
    requires
        hwnd_sorted(a),
        hwnd_sorted(b),
        forall|k: Seq<char>| #[trigger] a.filter(has_hwnd(k)) == b.filter(has_hwnd(k)),
    ensures
        a == b,
    decreases a.len(),
{
    if a.len() == 0 || b.len() == 0 {
        if b.len() > 0 {
            lemma_filter_empty_of_empty(a, has_hwnd(b[0].hwnd@));
            b.lemma_filter_contains(has_hwnd(b[0].hwnd@), 0);
        }
        if a.len() > 0 {
            lemma_filter_empty_of_empty(b, has_hwnd(a[0].hwnd@));
            a.lemma_filter_contains(has_hwnd(a[0].hwnd@), 0);
        }
        assert(a =~= b);
    } else {
        let ka = a[0].hwnd@;
        let kb = b[0].hwnd@;
        let i = lemma_key_present(a, b, 0);
        let j = lemma_key_present(b, a, 0);
        if i > 0 {
            assert(!lex_lt(a[i].hwnd@, a[0].hwnd@));
        }
        if j > 0 {
            assert(!lex_lt(b[j].hwnd@, b[0].hwnd@));
        }
        lemma_lex_lt_total(ka, kb);
        assert(ka == kb);
        let a1 = a.drop_first();
        let b1 = b.drop_first();
        assert(a =~= seq![a[0]] + a1);
        assert(b =~= seq![b[0]] + b1);
        a1.lemma_filter_prepend(a[0], has_hwnd(ka));
        b1.lemma_filter_prepend(b[0], has_hwnd(ka));
        assert(a.filter(has_hwnd(ka)) == b.filter(has_hwnd(ka)));
        assert(a.filter(has_hwnd(ka))[0] == a[0]);
        assert(b.filter(has_hwnd(ka))[0] == b[0]);
        assert forall|k: Seq<char>| #[trigger] a1.filter(has_hwnd(k)) == b1.filter(has_hwnd(k)) by {
            a1.lemma_filter_prepend(a[0], has_hwnd(k));
            b1.lemma_filter_prepend(b[0], has_hwnd(k));
            assert(a.filter(has_hwnd(k)) == b.filter(has_hwnd(k)));
            if k == ka {
                assert(a1.filter(has_hwnd(k)) =~= a.filter(has_hwnd(k)).drop_first());
                assert(b1.filter(has_hwnd(k)) =~= b.filter(has_hwnd(k)).drop_first());
            } else {
                assert(a.filter(has_hwnd(k)) =~= a1.filter(has_hwnd(k)));
                assert(b.filter(has_hwnd(k)) =~= b1.filter(has_hwnd(k)));
            }
        }
        lemma_sorted_drop_first(a);
        lemma_sorted_drop_first(b);
        lemma_sorted_same_filters_equal(a1, b1);
    }
}

/// A stable sort by handle text has one result: two sequences that both
/// sort the same entries stably are equal.
pub proof fn lemma_stable_sort_unique(r1: Seq<WindowEntry>, r2: Seq<WindowEntry>, input: Seq<WindowEntry>)
    requires
        stable_sort_by_hwnd(r1, input),
        stable_sort_by_hwnd(r2, input),
    ensures
        r1 == r2,
{
    assert forall|k: Seq<char>| #[trigger] r1.filter(has_hwnd(k)) == r2.filter(has_hwnd(k)) by {
        assert(r1.filter(has_hwnd(k)) == input.filter(has_hwnd(k)));
        assert(r2.filter(has_hwnd(k)) == input.filter(has_hwnd(k)));
    }
    lemma_sorted_same_filters_equal(r1, r2);
}

/// The windows that a walk keeps: of the windows walked, as (process
/// id, description) pairs in walk order, those whose process is in `ids`.
pub open spec fn selected_windows(ids: Set<u32>, walk: Seq<(u32, WindowEntry)>) -> Seq<WindowEntry>
    decreases walk.len(),
{
    if walk.len() == 0 {
        Seq::<WindowEntry>::empty()
    } else {
        let earlier = selected_windows(ids, walk.drop_last());
        if ids.contains(walk.last().0) {
            earlier.push(walk.last().1)
        } else {
            earlier
        }
    }
}

/// The state of a walk over the capturable windows: the ids of the
/// target processes and the windows kept so far.
pub struct WindowSelection {
    process_ids: HashSet<u32>,
    chosen: Vec<WindowEntry>,
}

impl WindowSelection {
    /// The target process ids.
    pub closed spec fn targets(&self) -> Set<u32> {
        self.process_ids@
    }

    /// The windows kept so far, in the order they were kept.
    pub closed spec fn found(&self) -> Seq<WindowEntry> {
        self.chosen@
    }

    /// A selection for the given process ids, with no window kept yet.
    pub fn new(process_ids: HashSet<u32>) -> (s: Self)
        ensures
            s.targets() == process_ids@,
            s.found() == Seq::<WindowEntry>::empty(),
    {
        WindowSelection { process_ids, chosen: Vec::new() }
    }

    /// Whether there is any process to look for; without one the walk is
    /// skipped.
    pub fn has_targets(&self) -> (r: bool)
        ensures
            r == !self.targets().is_empty(),
    {
        !self.process_ids.is_empty()
    }

    /// Whether a window of process `pid` is kept: `pid` is a target.
    pub fn wants(&self, pid: u32) -> (r: bool)
        ensures
            r == self.targets().contains(pid),
    {
        broadcast use vstd::std_specs::hash::group_hash_axioms;
        self.process_ids.contains(&pid)
    }

    /// Keeps a window.
    pub fn record(&mut self, entry: WindowEntry)
        ensures
            final(self).targets() == old(self).targets(),
            final(self).found() == old(self).found().push(entry),
    {
        self.chosen.push(entry);
    }

    /// The windows kept, ordered by handle.
    pub fn into_sorted_windows(self) -> (r: Vec<WindowEntry>)
        ensures
            stable_sort_by_hwnd(r@, self.found()),
    {
        sort_by_hwnd(self.chosen)
    }
}

/// The state of a walk over all top-level windows, which also skips
/// windows whose process id reads as zero.
pub struct WindowSearch {
    selection: WindowSelection,
}

impl WindowSearch {
    /// The target process ids.
    pub closed spec fn targets(&self) -> Set<u32> {
        self.selection.targets()
    }

    /// The windows found so far, in the order they were found.
    pub closed spec fn found(&self) -> Seq<WindowEntry> {
        self.selection.found()
    }

    /// A search for windows of the given processes (each id kept once),
    /// with none found yet.
    pub fn new(process_ids: &[u32]) -> (s: Self)
        ensures
            s.targets() == process_ids@.to_set(),
            s.found() == Seq::<WindowEntry>::empty(),
    {
        broadcast use vstd::std_specs::hash::group_hash_axioms;
        let mut target_process_ids: HashSet<u32> = HashSet::new();
        let n = process_ids.len();
        assert(target_process_ids@ =~= process_ids@.take(0).to_set());
        for i in 0..n
            invariant
                n == process_ids@.len(),
                target_process_ids@ == process_ids@.take(i as int).to_set(),
        {
            target_process_ids.insert(process_ids[i]);
            assert(process_ids@.take(i + 1) =~= process_ids@.take(i as int).push(process_ids@[i as int]));
            assert(process_ids@.take(i as int).push(process_ids@[i as int]).to_set() =~= process_ids@.take(i as int).to_set().insert(process_ids@[i as int])) by {
                broadcast use vstd::seq_lib::group_seq_properties;
            }
        }
        assert(process_ids@.take(n as int) =~= process_ids@);
        WindowSearch { selection: WindowSelection::new(target_process_ids) }
    }

    /// Whether there is any process to look for; without one the walk is
    /// skipped.
    pub fn has_targets(&self) -> (r: bool)
        ensures
            r == !self.targets().is_empty(),
    {
        self.selection.has_targets()
    }

    /// Whether a window of process `pid` is wanted: `pid` is nonzero and
    /// one of the targets.
    pub fn wants(&self, pid: u32) -> (r: bool)
        ensures
            r == (pid != 0 && self.targets().contains(pid)),
    {
        pid != 0 && self.selection.wants(pid)
    }

    /// Keeps a window that was found.
    pub fn record(&mut self, entry: WindowEntry)
        ensures
            final(self).targets() == old(self).targets(),
            final(self).found() == old(self).found().push(entry),
    {
        self.selection.record(entry);
    }

    /// The windows found, ordered by handle.
    pub fn into_sorted_windows(self) -> (r: Vec<WindowEntry>)
        ensures
            stable_sort_by_hwnd(r@, self.found()),
    {
        self.selection.into_sorted_windows()
    }
}

} // verus!
