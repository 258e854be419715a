//! The path resolver: resolve an import specifier against the importing module's
//! canonical path to the canonical path of an existing project file.
//!
//! Canonical paths are project-root-relative, `/`-separated strings. The
//! resolver holds the set of files discovered under the project root (the
//! discovery walk itself is I/O and happens outside), so resolution is a
//! pure function: specifiers beginning with `.` are taken relative to the
//! importing module's directory, all others relative to the project root;
//! then the literal path, the path with each recognized source extension,
//! and an `index` entry inside the path are tried in that order. A path
//! whose `..` segments climb above the project root is rejected.

use vstd::prelude::*;
use crate::bytes::{bytes_eq, str_bytes, view_bytes};

verus! {

/// Why a specifier failed to resolve.
#[derive(PartialEq, Eq, Structural, Clone, Copy, Debug)]
pub enum ResolveError {
    /// The normalized path escapes the project root.
    OutsideRoot,
    /// No project file matches any resolution candidate.
    NotFound,
}

/// Split a byte path on `/`. The result always has at least one segment;
/// empty segments (leading, trailing or doubled separators) are kept here
/// and ignored by normalization.
pub open spec fn split_path(s: Seq<u8>) -> Seq<Seq<u8>>
    decreases s.len(),
{
    if s.len() == 0 {
        seq![Seq::<u8>::empty()]
    } else {
        let rest = split_path(s.drop_last());
        if s.last() == 47u8 {
            rest.push(Seq::<u8>::empty())
        } else {
            rest.update(rest.len() - 1, rest.last().push(s.last()))
        }
    }
}

/// One normalization step: drop empty and `.` segments, let `..` pop the
/// last kept segment (failing at the root), keep everything else.
pub open spec fn normalize(st: Seq<Seq<u8>>, segs: Seq<Seq<u8>>) -> Option<Seq<Seq<u8>>>
    decreases segs.len(),
{
    if segs.len() == 0 {
        Some(st)
    } else {
        let seg = segs[0];
        if seg.len() == 0 || seg == seq![46u8] {
            normalize(st, segs.drop_first())
        } else if seg == seq![46u8, 46u8] {
            if st.len() == 0 {
                None
            } else {
                normalize(st.drop_last(), segs.drop_first())
            }
        } else {
            normalize(st.push(seg), segs.drop_first())
        }
    }
}

/// Join segments with `/`.
pub open spec fn join_path(segs: Seq<Seq<u8>>) -> Seq<u8>
    decreases segs.len(),
{
    if segs.len() == 0 {
        Seq::empty()
    } else if segs.len() == 1 {
        segs[0]
    } else {
        join_path(segs.drop_last()) + seq![47u8] + segs.last()
    }
}

pub open spec fn ext_ts() -> Seq<u8> {
    seq![46u8, 116u8, 115u8]
}

/// `.d.ts`, the declaration-file variant.
pub open spec fn ext_dts() -> Seq<u8> {
    seq![46u8, 100u8, 46u8, 116u8, 115u8]
}

pub open spec fn ext_tsx() -> Seq<u8> {
    seq![46u8, 116u8, 115u8, 120u8]
}

pub open spec fn ext_js() -> Seq<u8> {
    seq![46u8, 106u8, 115u8]
}

pub open spec fn ext_jsx() -> Seq<u8> {
    seq![46u8, 106u8, 115u8, 120u8]
}

/// `/index`, the directory entry tried last.
pub open spec fn index_entry() -> Seq<u8> {
    seq![47u8, 105u8, 110u8, 100u8, 101u8, 120u8]
}

/// The resolution candidates for a normalized path, in the order tried:
/// the literal path, the path with each source extension (the
/// declaration-file variant after the plain TypeScript forms), then an
/// `index` file with each source extension inside the path taken as a
/// directory.
pub open spec fn candidate_list(p: Seq<u8>) -> Seq<Seq<u8>> {
    seq![
        p,
        p + ext_ts(),
        p + ext_tsx(),
        p + ext_dts(),
        p + ext_js(),
        p + ext_jsx(),
        p + index_entry() + ext_ts(),
        p + index_entry() + ext_tsx(),
        p + index_entry() + ext_dts(),
        p + index_entry() + ext_js(),
        p + index_entry() + ext_jsx(),
    ]
}

/// First candidate that names an existing file.
pub open spec fn first_hit(files: Seq<Seq<u8>>, cands: Seq<Seq<u8>>) -> Option<Seq<u8>>
    decreases cands.len(),
{
    if cands.len() == 0 {
        None
    } else if files.contains(cands[0]) {
        Some(cands[0])
    } else {
        first_hit(files, cands.drop_first())
    }
}

/// The normalized segment stack a `(current, specifier)` pair points at, or
/// `None` when it escapes the project root.
pub open spec fn normalized_target(cur: Seq<u8>, sp: Seq<u8>) -> Option<Seq<Seq<u8>>> {
    let base = if sp.len() > 0 && sp[0] == 46u8 {
        split_path(cur).drop_last()
    } else {
        Seq::<Seq<u8>>::empty()
    };
    normalize(base, split_path(sp))
}

/// Full resolution outcome over byte views.
pub open spec fn resolve_spec(files: Seq<Seq<u8>>, cur: Seq<u8>, sp: Seq<u8>) -> Option<Seq<u8>> {
    match normalized_target(cur, sp) {
        None => None,
        Some(st) => first_hit(files, candidate_list(join_path(st))),
    }
}

/// Resolution depends on the caller only through the normalized target:
/// any two `(module, specifier)` pairs that point at the same normalized
/// path resolve to the same canonical path.
pub proof fn lemma_resolution_canonical(
    files: Seq<Seq<u8>>,
    c1: Seq<u8>,
    s1: Seq<u8>,
    c2: Seq<u8>,
    s2: Seq<u8>,
)
    requires
        normalized_target(c1, s1) == normalized_target(c2, s2),
    ensures
        resolve_spec(files, c1, s1) == resolve_spec(files, c2, s2),
{
}

/// A hit always names an existing file.
pub proof fn lemma_first_hit_is_file(files: Seq<Seq<u8>>, cands: Seq<Seq<u8>>)
    requires
        first_hit(files, cands) is Some,
    ensures
        files.contains(first_hit(files, cands)->Some_0),
    decreases cands.len(),
{
    if cands.len() > 0 && !files.contains(cands[0]) {
        lemma_first_hit_is_file(files, cands.drop_first());
    }
}

/// The path resolver: the canonical paths of every file under the project
/// root.
pub struct PathResolver {
    pub files: Vec<String>,
}

impl PathResolver {
    /// Byte views of the known files.
    pub open spec fn files_view(&self) -> Seq<Seq<u8>> {
        self.files@.map_values(|f: String| view_bytes(f@))
    }

    pub fn new(files: Vec<String>) -> (r: Self)
        ensures
            r.files == files,
    {
        PathResolver { files }
    }

    /// Return a clone of the stored file whose bytes equal `cand`, if any.
    fn find_file(&self, cand: &Vec<u8>) -> (r: Option<String>)
        ensures
            match r {
                Some(p) => self.files_view().contains(cand@) && view_bytes(p@) == cand@,
                None => !self.files_view().contains(cand@),
            },
    {
        let mut i: usize = 0;
        while i < self.files.len()
            invariant
                0 <= i <= self.files.len(),
                forall|j: int| 0 <= j < i ==> self.files_view()[j] != cand@,
            decreases self.files.len() - i,
        {
            if bytes_eq(str_bytes(self.files[i].as_str()), cand.as_slice()) {
                assert(self.files_view()[i as int] == cand@);
                return Some(self.files[i].clone());
            }
            i += 1;
        }
        assert(forall|j: int| 0 <= j < self.files_view().len() ==> self.files_view()[j] != cand@);
        None
    }

    /// Scan the candidates in order for the first one naming a file.
    fn first_hit_exec(&self, cands: &Vec<Vec<u8>>) -> (r: Option<String>)
        ensures
            match r {
                Some(p) => first_hit(self.files_view(), cands.deep_view()) == Some(
                    view_bytes(p@),
                ),
                None => first_hit(self.files_view(), cands.deep_view()) is None,
            },
    {
        let ghost dv = cands.deep_view();
        let mut i: usize = 0;
        proof {
            assert(dv.skip(0) =~= dv);
        }
        while i < cands.len()
            invariant
                0 <= i <= cands.len(),
                dv == cands.deep_view(),
                dv.len() == cands@.len(),
                first_hit(self.files_view(), dv) == first_hit(self.files_view(), dv.skip(i as int)),
            decreases cands.len() - i,
        {
            assert(dv.skip(i as int)[0] == dv[i as int]);
            assert(dv[i as int] =~= cands@[i as int]@);
            match self.find_file(&cands[i]) {
                Some(p) => {
                    return Some(p);
                },
                None => {},
            }
            proof {
                assert(dv.skip(i as int).drop_first() =~= dv.skip(i + 1));
            }
            i += 1;
        }
        assert(dv.skip(i as int).len() == 0);
        None
    }

    /// Resolve `specifier` as written in the module at `current_path` to
    /// the canonical path of an existing project file. Specifiers that do
    /// not resolve are reported, never guessed at.
    pub fn resolve_path(&self, current_path: &str, specifier: &str) -> (r: Result<
        String,
        ResolveError,
    >)
        ensures
            match r {
                Ok(p) => resolve_spec(self.files_view(), view_bytes(current_path@), view_bytes(specifier@))
                    == Some(view_bytes(p@)) && self.files_view().contains(view_bytes(p@)),
                Err(e) => resolve_spec(
                    self.files_view(),
                    view_bytes(current_path@),
                    view_bytes(specifier@),
                ) is None && (e == ResolveError::OutsideRoot <==> normalized_target(
                    view_bytes(current_path@),
                    view_bytes(specifier@),
                ) is None),
            },
    {
        let sp = str_bytes(specifier);
        let relative = sp.len() > 0 && sp[0] == 46u8;
        let mut base: Vec<Vec<u8>> = Vec::new();
        if relative {
            let mut d = split_bytes(str_bytes(current_path));
            proof {
                assert(d.deep_view().len() > 0);
            }
            let _ = d.pop();
            proof {
                assert(d.deep_view() =~~= split_path(view_bytes(current_path@)).drop_last());
            }
            base = d;
        } else {
            assert(base.deep_view() =~= Seq::<Seq<u8>>::empty());
        }
        let segs = split_bytes(sp);
        match normalize_exec(&base, &segs) {
            None => Err(ResolveError::OutsideRoot),
            Some(st) => {
                let joined = join_exec(&st);
                let cands = build_candidates(&joined);
                match self.first_hit_exec(&cands) {
                    Some(p) => {
                        proof {
                            lemma_first_hit_is_file(self.files_view(), cands.deep_view());
                        }
                        Ok(p)
                    },
                    None => Err(ResolveError::NotFound),
                }
            },
        }
    }
}

/// Executable split on `/`.
fn split_bytes(s: &[u8]) -> (r: Vec<Vec<u8>>)
    ensures
        r.deep_view() == split_path(s@),
        r.deep_view().len() > 0,
{
    let mut segs: Vec<Vec<u8>> = Vec::new();
    segs.push(Vec::new());
    proof {
        assert(s@.take(0) =~= Seq::<u8>::empty());
        assert(segs.deep_view() =~~= split_path(s@.take(0)));
    }
    let mut i: usize = 0;
    while i < s.len()
        invariant
            0 <= i <= s.len(),
            segs.deep_view() == split_path(s@.take(i as int)),
            segs.len() > 0,
        decreases s.len() - i,
    {
        let b = s[i];
        let ghost pre = s@.take(i as int);
        proof {
            assert(s@.take(i + 1).drop_last() =~= pre);
            assert(s@.take(i + 1).last() == s@[i as int]);
        }
        if b == 47u8 {
            segs.push(Vec::new());
            proof {
                assert(segs.deep_view() =~~= split_path(s@.take(i + 1)));
            }
        } else {
            let mut last = segs.pop().unwrap();
            last.push(b);
            segs.push(last);
            proof {
                let prev = split_path(pre);
                assert(segs.deep_view() =~~= prev.update(
                    prev.len() - 1,
                    prev.last().push(s@[i as int]),
                ));
            }
        }
        i += 1;
    }
    proof {
        assert(s@.take(s@.len() as int) =~= s@);
    }
    segs
}

/// Executable normalization.
fn normalize_exec(base: &Vec<Vec<u8>>, segs: &Vec<Vec<u8>>) -> (r: Option<Vec<Vec<u8>>>)
    ensures
        r is Some ==> normalize(base.deep_view(), segs.deep_view()) == Some(
            (r->Some_0).deep_view(),
        ),
        r is None ==> normalize(base.deep_view(), segs.deep_view()) is None,
{
    let ghost b0 = base.deep_view();
    let ghost dv = segs.deep_view();
    let mut st = copy_segs(base);
    let mut i: usize = 0;
    proof {
        assert(dv.skip(0) =~= dv);
    }
    while i < segs.len()
        invariant
            0 <= i <= segs.len(),
            b0 == base.deep_view(),
            dv == segs.deep_view(),
            dv.len() == segs@.len(),
            normalize(b0, dv) == normalize(st.deep_view(), dv.skip(i as int)),
        decreases segs.len() - i,
    {
        let seg = &segs[i];
        proof {
            assert(dv.skip(i as int)[0] == dv[i as int]);
            assert(dv[i as int] =~= segs@[i as int]@);
            assert(dv.skip(i as int).drop_first() =~= dv.skip(i + 1));
        }
        if seg.len() == 0 {
            // empty segment: ignored
        } else if seg.len() == 1 && seg[0] == 46u8 {
            proof {
                assert(seg@ =~= seq![46u8]);
            }
        } else if seg.len() == 2 && seg[0] == 46u8 && seg[1] == 46u8 {
            proof {
                assert(seg@ =~= seq![46u8, 46u8]);
            }
            if st.len() == 0 {
                proof {
                    assert(st.deep_view().len() == 0);
                    assert(dv.skip(i as int)[0] == seq![46u8, 46u8]);
                    assert(normalize(st.deep_view(), dv.skip(i as int)) is None);
                    assert(normalize(b0, dv) is None);
                }
                return None;
            }
            let ghost before = st.deep_view();
            let _ = st.pop();
            proof {
                assert(st.deep_view() =~~= before.drop_last());
            }
        } else {
            proof {
                assert(seg@.len() > 0);
                assert(seg@ != seq![46u8] && seg@ != seq![46u8, 46u8]) by {
                    if seg@.len() == 1 {
                        assert(seg@[0] != 46u8);
                    } else if seg@.len() == 2 {
                        assert(seg@[0] != 46u8 || seg@[1] != 46u8);
                        assert(seq![46u8, 46u8][0] == 46u8 && seq![46u8, 46u8][1] == 46u8);
                    }
                }
            }
            let ghost before = st.deep_view();
            let copy = copy_bytes(seg);
            st.push(copy);
            proof {
                assert(st.deep_view() =~~= before.push(seg@));
            }
        }
        i += 1;
    }
    proof {
        assert(dv.skip(i as int).len() == 0);
    }
    Some(st)
}

/// Executable join with `/`.
fn join_exec(segs: &Vec<Vec<u8>>) -> (r: Vec<u8>)
    ensures
        r@ == join_path(segs.deep_view()),
{
    let ghost dv = segs.deep_view();
    let mut acc: Vec<u8> = Vec::new();
    proof {
        assert(dv.take(0) =~= Seq::<Seq<u8>>::empty());
        assert(acc@ =~= join_path(dv.take(0)));
    }
    let mut i: usize = 0;
    while i < segs.len()
        invariant
            0 <= i <= segs.len(),
            dv == segs.deep_view(),
            dv.len() == segs@.len(),
            acc@ == join_path(dv.take(i as int)),
        decreases segs.len() - i,
    {
        proof {
            assert(dv.take(i + 1).drop_last() =~= dv.take(i as int));
            assert(dv.take(i + 1).last() == dv[i as int]);
            assert(dv[i as int] =~= segs@[i as int]@);
        }
        if i > 0 {
            acc.push(47u8);
        }
        let ghost mid = acc@;
        push_all(&mut acc, &segs[i]);
        proof {
            if i == 0 {
                assert(acc@ =~= join_path(dv.take(1)));
            } else {
                assert(acc@ =~= join_path(dv.take(i as int)) + seq![47u8] + dv[i as int]);
            }
        }
        i += 1;
    }
    proof {
        assert(dv.take(dv.len() as int) =~= dv);
    }
    acc
}

/// Append all of `src` to `dst`.
fn push_all(dst: &mut Vec<u8>, src: &Vec<u8>)
    ensures
        final(dst)@ == old(dst)@ + src@,
{
    let mut i: usize = 0;
    while i < src.len()
        invariant
            0 <= i <= src.len(),
            dst@ == old(dst)@ + src@.take(i as int),
        decreases src.len() - i,
    {
        dst.push(src[i]);
        proof {
            assert(old(dst)@ + src@.take(i as int) + seq![src@[i as int]] =~= old(dst)@ + src@.take(
                i + 1,
            ));
        }
        i += 1;
    }
    proof {
        assert(src@.take(src@.len() as int) =~= src@);
    }
}

/// Fresh copy of a segment list.
fn copy_segs(src: &Vec<Vec<u8>>) -> (r: Vec<Vec<u8>>)
    ensures
        r.deep_view() == src.deep_view(),
{
    let mut v: Vec<Vec<u8>> = Vec::new();
    let mut i: usize = 0;
    while i < src.len()
        invariant
            0 <= i <= src.len(),
            v.len() == i,
            v.deep_view() == src.deep_view().take(i as int),
        decreases src.len() - i,
    {
        let c = copy_bytes(&src[i]);
        proof {
            assert(c.deep_view() =~= src.deep_view()[i as int]);
        }
        let ghost cdv = c.deep_view();
        let ghost prev = v.deep_view();
        let ghost prevv = v@;
        v.push(c);
        proof {
            assert(v@.len() == i + 1);
            assert forall|j: int| 0 <= j < i + 1 implies v.deep_view()[j]
                == src.deep_view().take(i + 1)[j] by {
                if j < i {
                    assert(v@[j] == prevv[j]);
                    assert(v.deep_view()[j] == prev[j]);
                    assert(prev[j] == src.deep_view()[j]);
                } else {
                    assert(v.deep_view()[j] == cdv);
                }
            }
            assert(v.deep_view() =~= src.deep_view().take(i + 1));
        }
        i += 1;
    }
    proof {
        assert(src.deep_view().take(src.deep_view().len() as int) =~= src.deep_view());
    }
    v
}

/// Fresh copy of a byte vector.
fn copy_bytes(src: &Vec<u8>) -> (r: Vec<u8>)
    ensures
        r@ == src@,
{
    let mut v: Vec<u8> = Vec::new();
    push_all(&mut v, src);
    proof {
        assert(Seq::<u8>::empty() + src@ =~= src@);
    }
    v
}

/// Concatenation of a path and a suffix.
fn concat_bytes(a: &Vec<u8>, b: &Vec<u8>) -> (r: Vec<u8>)
    ensures
        r@ == a@ + b@,
{
    let mut v = copy_bytes(a);
    push_all(&mut v, b);
    v
}

/// The eleven resolution candidates, in trial order.
fn build_candidates(p: &Vec<u8>) -> (r: Vec<Vec<u8>>)
    ensures
        r.deep_view() == candidate_list(p@),
{
    let ts: Vec<u8> = vec![46u8, 116u8, 115u8];
    let tsx: Vec<u8> = vec![46u8, 116u8, 115u8, 120u8];
    let dts: Vec<u8> = vec![46u8, 100u8, 46u8, 116u8, 115u8];
    let js: Vec<u8> = vec![46u8, 106u8, 115u8];
    let jsx: Vec<u8> = vec![46u8, 106u8, 115u8, 120u8];
    let idx: Vec<u8> = vec![47u8, 105u8, 110u8, 100u8, 101u8, 120u8];
    proof {
        assert(ts@ =~= ext_ts());
        assert(tsx@ =~= ext_tsx());
        assert(dts@ =~= ext_dts());
        assert(js@ =~= ext_js());
        assert(jsx@ =~= ext_jsx());
        assert(idx@ =~= index_entry());
    }
    let p_idx = concat_bytes(p, &idx);
    let mut r: Vec<Vec<u8>> = Vec::new();
    r.push(copy_bytes(p));
    r.push(concat_bytes(p, &ts));
    r.push(concat_bytes(p, &tsx));
    r.push(concat_bytes(p, &dts));
    r.push(concat_bytes(p, &js));
    r.push(concat_bytes(p, &jsx));
    r.push(concat_bytes(&p_idx, &ts));
    r.push(concat_bytes(&p_idx, &tsx));
    r.push(concat_bytes(&p_idx, &dts));
    r.push(concat_bytes(&p_idx, &js));
    r.push(concat_bytes(&p_idx, &jsx));
    proof {
        assert(r.deep_view() =~~= candidate_list(p@));
    }
    r
}

} // verus!
