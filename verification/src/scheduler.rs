//! The parser candidate scheduler. Candidates are released in
//! an order honoring hard-predecessor precedence: when a module is handed
//! out, every module it namespace-imports or star-re-exports has already
//! been marked parsed — unless no candidate is ready, which means the
//! remainder is blocked by dependency cycles. The tie is then broken
//! deterministically by releasing the lexicographically smallest unparsed
//! candidate overall. This is a deliberate, documented generalization of
//! breaking the cycle at its own smallest member: it keeps the rule total
//! and simply stated, at the cost that a blocked module that merely
//! depends on a cycle can be released before the cycle's members; a
//! namespace expansion against a not-yet-released target then yields an
//! empty or partial expansion.

use vstd::prelude::*;
use crate::bytes::{bytes_lt, lex_lt, str_bytes, string_eq, view_bytes};
use crate::graph::{resolve_chars, seq_index_of, lemma_seq_index_of, lemma_seq_index_of_first};
use crate::path_resolver::PathResolver;

verus! {

/// Fold one pre-scanned specifier into a predecessor list: resolve it,
/// find the target among the candidates, drop failures and self-imports.
pub open spec fn pred_step(
    paths: Seq<Seq<char>>,
    files: Seq<Seq<u8>>,
    cur: Seq<char>,
    selfi: int,
    acc: Seq<int>,
    sp: Seq<char>,
) -> Seq<int> {
    match resolve_chars(files, cur, sp) {
        None => acc,
        Some(t) => {
            let j = seq_index_of(paths, t);
            if j >= 0 && j != selfi {
                acc.push(j)
            } else {
                acc
            }
        },
    }
}

/// The hard-predecessor list of candidate `selfi`, from its pre-scanned
/// namespace-import / star-re-export specifiers.
pub open spec fn preds_upto(
    paths: Seq<Seq<char>>,
    files: Seq<Seq<u8>>,
    cur: Seq<char>,
    selfi: int,
    sps: Seq<Seq<char>>,
    bound: int,
) -> Seq<int>
    decreases bound,
{
    if bound <= 0 {
        Seq::empty()
    } else {
        pred_step(
            paths,
            files,
            cur,
            selfi,
            preds_upto(paths, files, cur, selfi, sps, bound - 1),
            sps[bound - 1],
        )
    }
}

/// Candidate `i` is ready in the given state: unparsed, every hard
/// predecessor parsed.
pub open spec fn spec_ready(preds: Seq<Seq<int>>, parsed: Seq<bool>, i: int) -> bool {
    &&& 0 <= i < parsed.len()
    &&& !parsed[i]
    &&& forall|j: int| 0 <= j < preds[i].len() ==> parsed[#[trigger] preds[i][j]]
}

/// First ready candidate at or after `i`.
pub open spec fn first_ready_from(preds: Seq<Seq<int>>, parsed: Seq<bool>, i: int) -> Option<int>
    decreases parsed.len() - i,
{
    if i >= parsed.len() {
        None
    } else if spec_ready(preds, parsed, i) {
        Some(i)
    } else {
        first_ready_from(preds, parsed, i + 1)
    }
}

/// The unparsed candidate below `bound` with the lexicographically
/// smallest path, if any.
pub open spec fn min_unparsed_upto(paths: Seq<Seq<char>>, parsed: Seq<bool>, bound: int) -> Option<
    int,
>
    decreases bound,
{
    if bound <= 0 {
        None
    } else {
        let m = min_unparsed_upto(paths, parsed, bound - 1);
        if parsed[bound - 1] {
            m
        } else {
            match m {
                None => Some(bound - 1),
                Some(b) => if lex_lt(view_bytes(paths[bound - 1]), view_bytes(paths[b])) {
                    Some(bound - 1)
                } else {
                    Some(b)
                },
            }
        }
    }
}

/// The candidate `get_one_candidate` hands out: the first ready one in
/// index order, else — when the remainder is blocked by cycles — the
/// lexicographically smallest unparsed one, else nothing.
pub open spec fn sched_next(paths: Seq<Seq<char>>, preds: Seq<Seq<int>>, parsed: Seq<bool>) -> Option<
    int,
> {
    match first_ready_from(preds, parsed, 0) {
        Some(i) => Some(i),
        None => min_unparsed_upto(paths, parsed, parsed.len() as int),
    }
}

/// The chosen candidate is always unparsed and in range.
pub proof fn lemma_sched_next_unparsed(
    paths: Seq<Seq<char>>,
    preds: Seq<Seq<int>>,
    parsed: Seq<bool>,
)
    requires
        sched_next(paths, preds, parsed) is Some,
    ensures
        0 <= sched_next(paths, preds, parsed)->Some_0 < parsed.len(),
        !parsed[sched_next(paths, preds, parsed)->Some_0],
{
    match first_ready_from(preds, parsed, 0) {
        Some(i) => {
            lemma_first_ready_in_range(preds, parsed, 0);
        },
        None => {
            lemma_min_unparsed_in_range(paths, parsed, parsed.len() as int);
        },
    }
}

pub proof fn lemma_first_ready_in_range(preds: Seq<Seq<int>>, parsed: Seq<bool>, i: int)
    requires
        first_ready_from(preds, parsed, i) is Some,
    ensures
        0 <= first_ready_from(preds, parsed, i)->Some_0 < parsed.len(),
        !parsed[first_ready_from(preds, parsed, i)->Some_0],
    decreases parsed.len() - i,
{
    if i < parsed.len() && !spec_ready(preds, parsed, i) {
        lemma_first_ready_in_range(preds, parsed, i + 1);
    }
}

pub proof fn lemma_min_unparsed_in_range(paths: Seq<Seq<char>>, parsed: Seq<bool>, bound: int)
    requires
        min_unparsed_upto(paths, parsed, bound) is Some,
        bound <= parsed.len(),
    ensures
        0 <= min_unparsed_upto(paths, parsed, bound)->Some_0 < bound,
        !parsed[min_unparsed_upto(paths, parsed, bound)->Some_0],
    decreases bound,
{
    if bound > 0 {
        if min_unparsed_upto(paths, parsed, bound - 1) is Some {
            lemma_min_unparsed_in_range(paths, parsed, bound - 1);
        }
    }
}

/// `first_ready_from` finds the first ready index.
pub proof fn lemma_first_ready_at(preds: Seq<Seq<int>>, parsed: Seq<bool>, k: int, i: int)
    requires
        0 <= k <= i < parsed.len(),
        spec_ready(preds, parsed, i),
        forall|j: int| k <= j < i ==> !spec_ready(preds, parsed, j),
    ensures
        first_ready_from(preds, parsed, k) == Some(i),
    decreases i - k,
{
    if k < i {
        lemma_first_ready_at(preds, parsed, k + 1, i);
    }
}

/// With no ready candidate, `first_ready_from` finds nothing.
pub proof fn lemma_no_ready(preds: Seq<Seq<int>>, parsed: Seq<bool>, k: int)
    requires
        forall|j: int| k <= j < parsed.len() ==> !spec_ready(preds, parsed, j),
    ensures
        first_ready_from(preds, parsed, k) is None,
    decreases parsed.len() - k,
{
    if k < parsed.len() {
        lemma_no_ready(preds, parsed, k + 1);
    }
}

/// The scheduler state. `paths[i]` is a candidate module, `preds[i]` the
/// indices of its hard predecessors, `parsed[i]` whether it has been
/// acknowledged as parsed.
pub struct ParserCandidateScheduler {
    pub paths: Vec<String>,
    pub preds: Vec<Vec<usize>>,
    pub parsed: Vec<bool>,
}

impl ParserCandidateScheduler {
    pub open spec fn paths_view(&self) -> Seq<Seq<char>> {
        self.paths@.map_values(|p: String| p@)
    }

    pub open spec fn preds_view(&self) -> Seq<Seq<int>> {
        self.preds@.map_values(|v: Vec<usize>| v@.map_values(|x: usize| x as int))
    }

    pub open spec fn wf(&self) -> bool {
        &&& self.preds@.len() == self.paths@.len()
        &&& self.parsed@.len() == self.paths@.len()
        &&& forall|i: int, j: int|
            0 <= i < self.preds@.len() && 0 <= j < (#[trigger] self.preds@[i])@.len()
                ==> (#[trigger] self.preds@[i]@[j]) < self.paths@.len()
        &&& forall|i: int, j: int|
            0 <= i < j < self.paths_view().len() ==> self.paths_view()[i] != self.paths_view()[j]
    }

    /// Candidate `i` is ready: unparsed, with every hard predecessor parsed.
    pub open spec fn ready(&self, i: int) -> bool {
        &&& 0 <= i < self.paths@.len()
        &&& !self.parsed@[i]
        &&& forall|j: int| 0 <= j < self.preds@[i]@.len() ==> self.parsed@[(#[trigger] self.preds@[i]@[j]) as int]
    }

    /// `ready` is `spec_ready` over the spec views of the state.
    pub proof fn lemma_ready_iff(&self, i: int)
        requires
            self.wf(),
            0 <= i < self.paths@.len(),
        ensures
            self.ready(i) <==> spec_ready(self.preds_view(), self.parsed@, i),
    {
        assert(self.preds_view()[i] == self.preds@[i]@.map_values(|x: usize| x as int));
        if self.ready(i) {
            assert forall|j: int| 0 <= j < self.preds_view()[i].len() implies self.parsed@[#[trigger] self.preds_view()[i][j]] by {
                assert(self.preds_view()[i][j] == self.preds@[i]@[j] as int);
            }
        }
        if spec_ready(self.preds_view(), self.parsed@, i) {
            assert forall|j: int| 0 <= j < self.preds@[i]@.len() implies self.parsed@[(#[trigger] self.preds@[i]@[j]) as int] by {
                assert(self.preds_view()[i][j] == self.preds@[i]@[j] as int);
            }
        }
    }

    /// Build the scheduler from the discovered candidates: each with its
    /// canonical path and the specifiers found under namespace-import or
    /// star-re-export forms in its pre-scan. Candidate paths are distinct.
    pub fn new(candidates: &Vec<(String, Vec<String>)>, resolver: &PathResolver) -> (r: Self)
        requires
            forall|i: int, j: int|
                0 <= i < j < candidates@.len() ==> (#[trigger] candidates@[i]).0@
                    != (#[trigger] candidates@[j]).0@,
        ensures
            r.wf(),
            r.paths_view() == candidates@.map_values(|c: (String, Vec<String>)| c.0@),
            forall|i: int| 0 <= i < r.parsed@.len() ==> !(#[trigger] r.parsed@[i]),
            forall|i: int|
                0 <= i < r.preds@.len() ==> (#[trigger] r.preds@[i])@.map_values(|x: usize| x as int)
                    == preds_upto(
                    r.paths_view(),
                    resolver.files_view(),
                    candidates@[i].0@,
                    i,
                    candidates@[i].1@.map_values(|x: String| x@),
                    candidates@[i].1@.len() as int,
                ),
    {
        let ghost pv = candidates@.map_values(|c: (String, Vec<String>)| c.0@);
        let ghost files = resolver.files_view();
        let mut paths: Vec<String> = Vec::new();
        let mut i: usize = 0;
        while i < candidates.len()
            invariant
                0 <= i <= candidates@.len(),
                paths@.len() == i,
                pv == candidates@.map_values(|c: (String, Vec<String>)| c.0@),
                paths@.map_values(|p: String| p@) =~= pv.take(i as int),
            decreases candidates@.len() - i,
        {
            let ghost oldm = paths@.map_values(|p: String| p@);
            let ghost oldv = paths@;
            paths.push(candidates[i].0.clone());
            proof {
                assert(pv[i as int] == candidates@[i as int].0@);
                let m = paths@.map_values(|p: String| p@);
                assert(m.len() == i + 1);
                assert forall|j: int| 0 <= j < i + 1 implies m[j] == pv.take(i + 1)[j] by {
                    if j < i {
                        assert(paths@[j] == oldv[j]);
                        assert(m[j] == oldm[j]);
                        assert(oldm[j] == pv.take(i as int)[j]);
                    } else {
                        assert(paths@[j] == candidates@[i as int].0);
                    }
                }
                assert(m =~= pv.take(i + 1));
            }
            i += 1;
        }
        proof {
            assert(pv.take(pv.len() as int) =~= pv);
        }
        let mut preds: Vec<Vec<usize>> = Vec::new();
        let mut parsed: Vec<bool> = Vec::new();
        let mut i: usize = 0;
        while i < candidates.len()
            invariant
                0 <= i <= candidates@.len(),
                pv == candidates@.map_values(|c: (String, Vec<String>)| c.0@),
                paths@.map_values(|p: String| p@) == pv,
                paths@.len() == candidates@.len(),
                files == resolver.files_view(),
                preds@.len() == i,
                parsed@.len() == i,
                forall|a: int| 0 <= a < i ==> !(#[trigger] parsed@[a]),
                forall|a: int, b: int|
                    0 <= a < i && 0 <= b < (#[trigger] preds@[a])@.len()
                        ==> (#[trigger] preds@[a]@[b]) < paths@.len(),
                forall|a: int|
                    0 <= a < i ==> (#[trigger] preds@[a])@.map_values(|x: usize| x as int)
                        == preds_upto(
                        pv,
                        files,
                        candidates@[a].0@,
                        a,
                        candidates@[a].1@.map_values(|x: String| x@),
                        candidates@[a].1@.len() as int,
                    ),
            decreases candidates@.len() - i,
        {
            let cur = &candidates[i].0;
            let sps = &candidates[i].1;
            let mut pl: Vec<usize> = Vec::new();
            let mut k: usize = 0;
            while k < sps.len()
                invariant
                    0 <= k <= sps@.len(),
                    pv == candidates@.map_values(|c: (String, Vec<String>)| c.0@),
                    paths@.map_values(|p: String| p@) == pv,
                    paths@.len() == candidates@.len(),
                    files == resolver.files_view(),
                    0 <= i < candidates@.len(),
                    cur == &candidates@[i as int].0,
                    sps == &candidates@[i as int].1,
                    forall|b: int| 0 <= b < pl@.len() ==> (#[trigger] pl@[b]) < paths@.len(),
                    pl@.map_values(|x: usize| x as int) == preds_upto(
                        pv,
                        files,
                        candidates@[i as int].0@,
                        i as int,
                        sps@.map_values(|x: String| x@),
                        k as int,
                    ),
                decreases sps@.len() - k,
            {
                let sp = &sps[k];
                match resolver.resolve_path(cur.as_str(), sp.as_str()) {
                    Err(_) => {
                        proof {
                            assert(resolve_chars(files, cur@, sp@) is None);
                        }
                    },
                    Ok(t) => {
                        proof {
                            vstd::utf8::encode_utf8_decode_utf8(t@);
                            assert(resolve_chars(files, cur@, sp@) == Some(t@));
                        }
                        match find_path(&paths, &t) {
                            Some(j) => {
                                if j != i {
                                    pl.push(j);
                                }
                            },
                            None => {},
                        }
                    },
                }
                proof {
                    assert(sps@.map_values(|x: String| x@)[k as int] == sp@);
                    assert(pl@.map_values(|x: usize| x as int) =~= preds_upto(
                        pv,
                        files,
                        candidates@[i as int].0@,
                        i as int,
                        sps@.map_values(|x: String| x@),
                        k + 1,
                    ));
                }
                k += 1;
            }
            preds.push(pl);
            parsed.push(false);
            i += 1;
        }
        let r = ParserCandidateScheduler { paths, preds, parsed };
        r
    }

    /// Count of candidates not yet marked parsed.
    pub fn get_total_remaining_candidate_count(&self) -> (r: usize)
        ensures
            r as int == count_unparsed(self.parsed@),
    {
        let mut c: usize = 0;
        let mut i: usize = 0;
        while i < self.parsed.len()
            invariant
                0 <= i <= self.parsed@.len(),
                c as int == count_unparsed(self.parsed@.take(i as int)),
                c <= i,
            decreases self.parsed@.len() - i,
        {
            if !self.parsed[i] {
                c += 1;
            }
            proof {
                assert(self.parsed@.take(i + 1).drop_last() =~= self.parsed@.take(i as int));
                assert(self.parsed@.take(i + 1).last() == self.parsed@[i as int]);
            }
            i += 1;
        }
        proof {
            assert(self.parsed@.take(self.parsed@.len() as int) =~= self.parsed@);
        }
        c
    }

    /// Hand out one candidate, or nothing when all are parsed. The choice
    /// is deterministic and pinned to `sched_next`: the first ready
    /// candidate in index order, else the lexicographically smallest
    /// unparsed one.
    ///
    /// The scheduler safety contract: the returned candidate is unparsed,
    /// and either every one of its hard predecessors is already parsed, or
    /// no unparsed candidate has that property — the remainder is blocked
    /// by dependency cycles — and then the lexicographically smallest
    /// unparsed candidate overall is released. This deterministic fallback
    /// generalizes the cycle-break rule: it may release a candidate that
    /// merely depends on a cycle before the cycle's own members, a
    /// documented deviation chosen for its simple, total statement.
    pub fn get_one_candidate(&self) -> (r: Option<String>)
        requires
            self.wf(),
        ensures
            match r {
                Some(p) => (exists|i: int|
                    {
                        &&& 0 <= i < self.paths@.len()
                        &&& #[trigger] self.paths_view()[i] == p@
                        &&& !self.parsed@[i]
                        &&& self.ready(i) || ((forall|j: int|
                            0 <= j < self.paths@.len() ==> !self.ready(j)) && (forall|j: int|
                            0 <= j < self.paths@.len() && !self.parsed@[j] && j != i ==> lex_lt(
                            view_bytes(self.paths_view()[i]),
                            view_bytes(#[trigger] self.paths_view()[j]),
                        )))
                    }) && sched_next(self.paths_view(), self.preds_view(), self.parsed@) is Some
                    && p@ == self.paths_view()[sched_next(
                    self.paths_view(),
                    self.preds_view(),
                    self.parsed@,
                )->Some_0],
                None => (forall|i: int|
                    0 <= i < self.parsed@.len() ==> (#[trigger] self.parsed@[i])) && sched_next(
                    self.paths_view(),
                    self.preds_view(),
                    self.parsed@,
                ) is None,
            },
    {
        let mut i: usize = 0;
        while i < self.paths.len()
            invariant
                self.wf(),
                0 <= i <= self.paths@.len(),
                forall|j: int| 0 <= j < i ==> !self.ready(j),
            decreases self.paths@.len() - i,
        {
            if !self.parsed[i] {
                let mut ok = true;
                let ps = &self.preds[i];
                let mut k: usize = 0;
                while k < ps.len()
                    invariant
                        self.wf(),
                        0 <= i < self.paths@.len(),
                        ps == &self.preds@[i as int],
                        0 <= k <= ps@.len(),
                        ok <==> (forall|j: int|
                            0 <= j < k ==> self.parsed@[(#[trigger] ps@[j]) as int]),
                    decreases ps@.len() - k,
                {
                    if !self.parsed[ps[k]] {
                        ok = false;
                    }
                    k += 1;
                }
                if ok {
                    let p = self.paths[i].clone();
                    proof {
                        assert(self.ready(i as int));
                        assert(self.paths_view()[i as int] == p@);
                        self.lemma_ready_iff(i as int);
                        assert forall|j: int| 0 <= j < i implies !spec_ready(
                            self.preds_view(),
                            self.parsed@,
                            j,
                        ) by {
                            self.lemma_ready_iff(j);
                        }
                        lemma_first_ready_at(self.preds_view(), self.parsed@, 0, i as int);
                    }
                    return Some(p);
                }
                proof {
                    assert(!self.ready(i as int));
                }
            } else {
                proof {
                    assert(!self.ready(i as int));
                }
            }
            i += 1;
        }
        // No candidate is ready: either everything is parsed, or the
        // remaining candidates are blocked by cycles. Release the
        // lexicographically smallest unparsed candidate.
        proof {
            assert forall|j: int| 0 <= j < self.parsed@.len() implies !spec_ready(
                self.preds_view(),
                self.parsed@,
                j,
            ) by {
                self.lemma_ready_iff(j);
            }
            lemma_no_ready(self.preds_view(), self.parsed@, 0);
        }
        let mut best: usize = self.paths.len();
        let mut i: usize = 0;
        while i < self.paths.len()
            invariant
                self.wf(),
                0 <= i <= self.paths@.len(),
                best <= self.paths@.len(),
                best == self.paths@.len() ==> min_unparsed_upto(
                    self.paths_view(),
                    self.parsed@,
                    i as int,
                ) is None,
                best < self.paths@.len() ==> min_unparsed_upto(
                    self.paths_view(),
                    self.parsed@,
                    i as int,
                ) == Some(best as int),
                best == self.paths@.len() ==> forall|j: int|
                    0 <= j < i ==> (#[trigger] self.parsed@[j]),
                best < self.paths@.len() ==> {
                    &&& !self.parsed@[best as int]
                    &&& best < i
                    &&& forall|j: int|
                        0 <= j < i && !(#[trigger] self.parsed@[j]) && j != best ==> lex_lt(
                            view_bytes(self.paths_view()[best as int]),
                            view_bytes(self.paths_view()[j]),
                        )
                },
            decreases self.paths@.len() - i,
        {
            if !self.parsed[i] {
                if best == self.paths.len() {
                    best = i;
                } else {
                    if bytes_lt(str_bytes(self.paths[i].as_str()), str_bytes(self.paths[best].as_str())) {
                        proof {
                            let bi = view_bytes(self.paths_view()[i as int]);
                            let bb = view_bytes(self.paths_view()[best as int]);
                            assert(lex_lt(bi, bb));
                            assert forall|j: int|
                                0 <= j < i && !(#[trigger] self.parsed@[j]) && j != i implies lex_lt(
                                bi,
                                view_bytes(self.paths_view()[j]),
                            ) by {
                                if j == best {
                                } else {
                                    crate::bytes::lemma_lex_trans(
                                        bi,
                                        bb,
                                        view_bytes(self.paths_view()[j]),
                                    );
                                }
                            }
                        }
                        best = i;
                    } else {
                        proof {
                            crate::bytes::lemma_lex_total(
                                view_bytes(self.paths_view()[i as int]),
                                view_bytes(self.paths_view()[best as int]),
                            );
                            if view_bytes(self.paths_view()[i as int]) == view_bytes(
                                self.paths_view()[best as int],
                            ) {
                                crate::bytes::lemma_view_bytes_injective(
                                    self.paths_view()[i as int],
                                    self.paths_view()[best as int],
                                );
                                assert(false);
                            }
                        }
                    }
                }
            }
            i += 1;
        }
        if best < self.paths.len() {
            let p = self.paths[best].clone();
            proof {
                assert(self.paths_view()[best as int] == p@);
            }
            Some(p)
        } else {
            None
        }
    }

    /// Acknowledge that the module at `path` has been parsed.
    pub fn mark_candidate_as_parsed(&mut self, path: &String)
        requires
            old(self).wf(),
        ensures
            final(self).wf(),
            final(self).paths == old(self).paths,
            final(self).preds == old(self).preds,
            final(self).parsed@.len() == old(self).parsed@.len(),
            forall|i: int|
                0 <= i < final(self).parsed@.len() ==> (#[trigger] final(self).parsed@[i]) == (
                old(self).paths_view()[i] == path@ || old(self).parsed@[i]),
    {
        let mut i: usize = 0;
        while i < self.paths.len()
            invariant
                self.wf(),
                *self == *old(self),
                0 <= i <= self.paths@.len(),
                forall|j: int| 0 <= j < i ==> old(self).paths_view()[j] != path@,
            decreases self.paths@.len() - i,
        {
            if string_eq(&self.paths[i], path) {
                self.parsed[i] = true;
                proof {
                    assert forall|a: int|
                        0 <= a < self.parsed@.len() implies (#[trigger] self.parsed@[a]) == (
                    old(self).paths_view()[a] == path@ || old(self).parsed@[a]) by {
                        if a != i {
                            assert(old(self).paths_view()[a] != path@ || a > i);
                            if old(self).paths_view()[a] == path@ {
                                assert(a > i);
                                assert(old(self).paths_view()[i as int] == path@);
                                assert(false);
                            }
                        }
                    }
                }
                return ;
            }
            i += 1;
        }
    }
}

/// Count of `false` entries.
pub open spec fn count_unparsed(s: Seq<bool>) -> int
    decreases s.len(),
{
    if s.len() == 0 {
        0
    } else {
        count_unparsed(s.drop_last()) + if s.last() {
            0int
        } else {
            1int
        }
    }
}

/// Index of the candidate whose path equals `t`, if any.
fn find_path(paths: &Vec<String>, t: &String) -> (r: Option<usize>)
    ensures
        match r {
            Some(j) => j < paths@.len() && seq_index_of(
                paths@.map_values(|p: String| p@),
                t@,
            ) == j as int,
            None => seq_index_of(paths@.map_values(|p: String| p@), t@) < 0,
        },
{
    let ghost pv = paths@.map_values(|p: String| p@);
    let mut i: usize = 0;
    while i < paths.len()
        invariant
            pv == paths@.map_values(|p: String| p@),
            0 <= i <= paths@.len(),
            forall|j: int| 0 <= j < i ==> pv[j] != t@,
        decreases paths@.len() - i,
    {
        if string_eq(&paths[i], t) {
            proof {
                assert(pv[i as int] == t@);
                lemma_seq_index_of_first(pv, t@, i as int);
            }
            return Some(i);
        }
        i += 1;
    }
    proof {
        lemma_seq_index_of(pv, t@);
        if seq_index_of(pv, t@) >= 0 {
            assert(pv[seq_index_of(pv, t@)] == t@);
            assert(false);
        }
    }
    None
}


/// Marking entries parsed never raises the unparsed count.
pub proof fn lemma_count_le(a: Seq<bool>, b: Seq<bool>)
    requires
        a.len() == b.len(),
        forall|j: int| 0 <= j < a.len() ==> (a[j] ==> b[j]),
    ensures
        count_unparsed(b) <= count_unparsed(a),
    decreases a.len(),
{
    if a.len() > 0 {
        assert forall|j: int|
            0 <= j < a.drop_last().len() implies (a.drop_last()[j] ==> b.drop_last()[j]) by {
            assert(a.drop_last()[j] == a[j]);
            assert(b.drop_last()[j] == b[j]);
        }
        lemma_count_le(a.drop_last(), b.drop_last());
        assert(a.last() == a[a.len() - 1]);
        assert(b.last() == b[b.len() - 1]);
    }
}

/// Marking an unparsed entry parsed strictly lowers the unparsed count.
pub proof fn lemma_count_strict(a: Seq<bool>, b: Seq<bool>, w: int)
    requires
        a.len() == b.len(),
        forall|j: int| 0 <= j < a.len() ==> (a[j] ==> b[j]),
        0 <= w < a.len(),
        !a[w],
        b[w],
    ensures
        count_unparsed(b) < count_unparsed(a),
    decreases a.len(),
{
    assert forall|j: int|
        0 <= j < a.drop_last().len() implies (a.drop_last()[j] ==> b.drop_last()[j]) by {
        assert(a.drop_last()[j] == a[j]);
        assert(b.drop_last()[j] == b[j]);
    }
    if w == a.len() - 1 {
        lemma_count_le(a.drop_last(), b.drop_last());
        assert(a.last() == a[w] && b.last() == b[w]);
    } else {
        lemma_count_strict(a.drop_last(), b.drop_last(), w);
        assert(a.last() == a[a.len() - 1]);
        assert(b.last() == b[b.len() - 1]);
    }
}


/// The unparsed count is never negative.
pub proof fn lemma_count_nonneg(s: Seq<bool>)
    ensures
        count_unparsed(s) >= 0,
    decreases s.len(),
{
    if s.len() > 0 {
        lemma_count_nonneg(s.drop_last());
    }
}

} // verus!
