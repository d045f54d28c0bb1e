//! Memory-mapped-I/O callback scopes.
//!
//! A scope owns an optional read and an optional write callback identifier
//! together with the set of pairwise-disjoint address sub-intervals the
//! callbacks are still responsible for. Unmapping a window splits every
//! sub-interval against it; a scope whose sub-interval set becomes empty is
//! garbage and is discarded by the emulator.
//!
//! An interval is a pair `(base, size)` standing for the half-open range
//! `[base, base + size)`. When an unmap window cuts an interval in the
//! middle, the right remainder deliberately starts one address past the
//! window's end — an asymmetry kept for compatibility with the behaviour
//! this layer reproduces, so the window's end address itself loses
//! coverage in that case.

use vstd::prelude::*;

verus! {

/// An interval's arithmetic stays inside `u64`.
pub open spec fn iv_wf(r: (u64, usize)) -> bool {
    r.0 + r.1 <= u64::MAX
}

/// `a` lies inside the half-open interval `r`.
pub open spec fn iv_covers(r: (u64, usize), a: int) -> bool {
    r.0 <= a < r.0 + r.1
}

/// Some interval of `rs` covers `a`.
pub open spec fn scope_covers(rs: Seq<(u64, usize)>, a: int) -> bool {
    exists|i: int| 0 <= i < rs.len() && iv_covers(rs[i], a)
}

/// Every interval of `rs` is well formed.
pub open spec fn ivs_wf(rs: Seq<(u64, usize)>) -> bool {
    forall|i: int| 0 <= i < rs.len() ==> iv_wf(rs[i])
}

/// The sub-intervals replacing `r` once the window `[lo, hi)` is unmapped:
/// nothing when the window swallows the interval, the interval itself when
/// they are disjoint, one or two remainders otherwise. A middle cut keeps
/// `[base, lo)` and `[hi + 1, end)`.
pub open spec fn split_one(r: (u64, usize), lo: int, hi: int) -> Seq<(u64, usize)> {
    let b = r.0 as int;
    let e = r.0 + r.1;
    if lo > b {
        if lo >= e {
            seq![r]
        } else if hi >= e {
            seq![(r.0, ((lo - b) as usize))]
        } else {
            seq![(r.0, ((lo - b) as usize)), (((hi + 1) as u64), ((e - (hi + 1)) as usize))]
        }
    } else if hi > b {
        if hi >= e {
            Seq::empty()
        } else {
            seq![((hi as u64), ((e - hi) as usize))]
        }
    } else {
        seq![r]
    }
}

/// `split_one` applied to every interval in order.
pub open spec fn split_all(rs: Seq<(u64, usize)>, lo: int, hi: int) -> Seq<(u64, usize)>
    decreases rs.len(),
{
    if rs.len() == 0 {
        Seq::empty()
    } else {
        split_one(rs[0], lo, hi) + split_all(rs.drop_first(), lo, hi)
    }
}

/// Splitting one interval `[b, b + s)` against an unmap window `[lo, hi)`
/// obeys the interval algebra: every remainder lies inside the source and
/// outside the window; every source address outside the window — except
/// the window's end, which the middle-cut boundary choice may drop — stays
/// covered; the remainders are pairwise disjoint and well formed.
pub proof fn lemma_split_one_algebra(r: (u64, usize), lo: int, hi: int)
    requires
        iv_wf(r),
        0 <= lo <= hi <= u64::MAX,
    ensures
        forall|k: int, a: int|
            0 <= k < split_one(r, lo, hi).len() && iv_covers(split_one(r, lo, hi)[k], a) ==> (
            iv_covers(r, a) && !(lo <= a < hi)),
        forall|a: int|
            iv_covers(r, a) && !(lo <= a < hi) && a != hi ==> scope_covers(
                split_one(r, lo, hi),
                a,
            ),
        forall|k1: int, k2: int, a: int|
            0 <= k1 < split_one(r, lo, hi).len() && 0 <= k2 < split_one(r, lo, hi).len() && k1
                != k2 ==> !(iv_covers(split_one(r, lo, hi)[k1], a) && iv_covers(
                split_one(r, lo, hi)[k2],
                a,
            )),
        forall|k: int| 0 <= k < split_one(r, lo, hi).len() ==> iv_wf(split_one(r, lo, hi)[k]),
{
    let b = r.0 as int;
    let e = r.0 + r.1;
    let pieces = split_one(r, lo, hi);
    if lo > b {
        if lo >= e {
            assert forall|a: int| iv_covers(r, a) && !(lo <= a < hi) && a != hi implies
                scope_covers(pieces, a) by {
                assert(iv_covers(pieces[0], a));
            }
        } else if hi >= e {
            assert(pieces[0].0 == r.0 && pieces[0].1 == (lo - b) as usize);
            assert forall|a: int| iv_covers(r, a) && !(lo <= a < hi) && a != hi implies
                scope_covers(pieces, a) by {
                assert(iv_covers(pieces[0], a));
            }
        } else {
            assert(pieces[0].0 == r.0 && pieces[0].1 == (lo - b) as usize);
            assert(pieces[1].0 == (hi + 1) as u64 && pieces[1].1 == (e - (hi + 1)) as usize);
            assert forall|a: int| iv_covers(r, a) && !(lo <= a < hi) && a != hi implies
                scope_covers(pieces, a) by {
                if a < lo {
                    assert(iv_covers(pieces[0], a));
                } else {
                    assert(iv_covers(pieces[1], a));
                }
            }
        }
    } else if hi > b {
        if hi >= e {
        } else {
            assert(pieces[0].0 == hi as u64 && pieces[0].1 == (e - hi) as usize);
            assert forall|a: int| iv_covers(r, a) && !(lo <= a < hi) && a != hi implies
                scope_covers(pieces, a) by {
                assert(iv_covers(pieces[0], a));
            }
        }
    } else {
        assert forall|a: int| iv_covers(r, a) && !(lo <= a < hi) && a != hi implies scope_covers(
            pieces,
            a,
        ) by {
            assert(iv_covers(pieces[0], a));
        }
    }
}

/// Coverage over a concatenation splits into coverage over the parts.
proof fn lemma_scope_covers_concat(x: Seq<(u64, usize)>, y: Seq<(u64, usize)>, a: int)
    ensures
        scope_covers(x + y, a) == (scope_covers(x, a) || scope_covers(y, a)),
{
    if scope_covers(x + y, a) {
        let i = choose|i: int| 0 <= i < (x + y).len() && iv_covers((x + y)[i], a);
        if i < x.len() {
            assert(iv_covers(x[i], a));
        } else {
            assert(iv_covers(y[i - x.len()], a));
        }
    }
    if scope_covers(x, a) {
        let i = choose|i: int| 0 <= i < x.len() && iv_covers(x[i], a);
        assert(iv_covers((x + y)[i], a));
    }
    if scope_covers(y, a) {
        let i = choose|i: int| 0 <= i < y.len() && iv_covers(y[i], a);
        assert(iv_covers((x + y)[x.len() + i], a));
    }
}

/// Splitting a scope's whole interval set against `[lo, hi)` removes
/// exactly the window from its coverage: window addresses are no longer
/// covered, addresses strictly outside `[lo, hi]` keep their coverage, no
/// coverage appears from nowhere, and the result stays well formed.
pub proof fn lemma_split_all_coverage(rs: Seq<(u64, usize)>, lo: int, hi: int)
    requires
        ivs_wf(rs),
        0 <= lo <= hi <= u64::MAX,
    ensures
        forall|a: int| lo <= a < hi ==> !scope_covers(split_all(rs, lo, hi), a),
        forall|a: int|
            (a < lo || a > hi) ==> scope_covers(split_all(rs, lo, hi), a) == scope_covers(rs, a),
        forall|a: int| scope_covers(split_all(rs, lo, hi), a) ==> scope_covers(rs, a),
        ivs_wf(split_all(rs, lo, hi)),
    decreases rs.len(),
{
    if rs.len() == 0 {
        assert(split_all(rs, lo, hi).len() == 0);
    } else {
        let rest = rs.drop_first();
        let head_pieces = split_one(rs[0], lo, hi);
        lemma_split_one_algebra(rs[0], lo, hi);
        lemma_split_all_coverage(rest, lo, hi);
        assert(split_all(rs, lo, hi) == head_pieces + split_all(rest, lo, hi));
        assert forall|a: int| true implies scope_covers(split_all(rs, lo, hi), a) == (
            scope_covers(head_pieces, a) || scope_covers(split_all(rest, lo, hi), a)) by {
            lemma_scope_covers_concat(head_pieces, split_all(rest, lo, hi), a);
        }
        assert forall|a: int| lo <= a < hi implies !scope_covers(split_all(rs, lo, hi), a) by {
            lemma_scope_covers_concat(head_pieces, split_all(rest, lo, hi), a);
            if scope_covers(head_pieces, a) {
                let k = choose|k: int| 0 <= k < head_pieces.len() && iv_covers(head_pieces[k], a);
                assert(iv_covers(head_pieces[k], a));
            }
        }
        assert forall|a: int| (a < lo || a > hi) implies scope_covers(split_all(rs, lo, hi), a)
            == scope_covers(rs, a) by {
            lemma_scope_covers_concat(head_pieces, split_all(rest, lo, hi), a);
            if scope_covers(rs, a) {
                let i = choose|i: int| 0 <= i < rs.len() && iv_covers(rs[i], a);
                if i == 0 {
                    assert(scope_covers(head_pieces, a));
                } else {
                    assert(iv_covers(rest[i - 1], a));
                    assert(scope_covers(rest, a));
                }
            }
            if scope_covers(split_all(rs, lo, hi), a) {
                if scope_covers(head_pieces, a) {
                    let k = choose|k: int|
                        0 <= k < head_pieces.len() && iv_covers(head_pieces[k], a);
                    assert(iv_covers(head_pieces[k], a));
                    assert(iv_covers(rs[0], a));
                } else {
                    assert(scope_covers(split_all(rest, lo, hi), a));
                    assert(scope_covers(rest, a));
                    let i = choose|i: int| 0 <= i < rest.len() && iv_covers(rest[i], a);
                    assert(iv_covers(rs[i + 1], a));
                }
            }
        }
        assert forall|a: int| scope_covers(split_all(rs, lo, hi), a) implies scope_covers(
            rs,
            a,
        ) by {
            lemma_scope_covers_concat(head_pieces, split_all(rest, lo, hi), a);
            if scope_covers(head_pieces, a) {
                let k = choose|k: int| 0 <= k < head_pieces.len() && iv_covers(head_pieces[k], a);
                assert(iv_covers(head_pieces[k], a));
                assert(iv_covers(rs[0], a));
            } else {
                assert(scope_covers(split_all(rest, lo, hi), a));
                assert(scope_covers(rest, a));
                let j = choose|j: int| 0 <= j < rest.len() && iv_covers(rest[j], a);
                assert(iv_covers(rs[j + 1], a));
            }
        }
        assert forall|j: int| 0 <= j < split_all(rs, lo, hi).len() implies iv_wf(
            split_all(rs, lo, hi)[j],
        ) by {
            if j < head_pieces.len() {
                assert(split_all(rs, lo, hi)[j] == head_pieces[j]);
            } else {
                assert(split_all(rs, lo, hi)[j] == split_all(rest, lo, hi)[j - head_pieces.len()]);
            }
        }
    }
}

/// One memory-mapped-I/O callback scope: the optional callback identifiers
/// and the sub-intervals they still back.
pub struct MmioCallbackScope {
    pub regions: Vec<(u64, usize)>,
    pub read_callback: Option<u64>,
    pub write_callback: Option<u64>,
}

impl MmioCallbackScope {
    /// Every interval of the scope is well formed.
    pub open spec fn wf(&self) -> bool {
        ivs_wf(self.regions@)
    }

    /// Whether any sub-interval is left; a scope without one is garbage.
    pub fn has_regions(&self) -> (r: bool)
        ensures
            r == (self.regions@.len() > 0),
    {
        !self.regions.is_empty()
    }

    /// Whether the scope currently covers `addr`.
    pub fn contains(&self, addr: u64) -> (r: bool)
        ensures
            r == scope_covers(self.regions@, addr as int),
    {
        let n = self.regions.len();
        let mut i: usize = 0;
        while i < n
            invariant
                i <= n,
                n == self.regions@.len(),
                forall|j: int| 0 <= j < i ==> !iv_covers(self.regions@[j], addr as int),
            decreases n - i,
        {
            let (b, s) = self.regions[i];
            if b <= addr && (addr - b) < s as u64 {
                assert(iv_covers(self.regions@[i as int], addr as int));
                return true;
            }
            i += 1;
        }
        false
    }

    /// Remove the window `[begin, begin + size)` from the scope's
    /// coverage, splitting every sub-interval against it.
    pub fn unmap(&mut self, begin: u64, size: usize)
        requires
            begin + size <= u64::MAX,
            old(self).wf(),
        ensures
            final(self).regions@ == split_all(old(self).regions@, begin as int, begin + size),
            final(self).read_callback == old(self).read_callback,
            final(self).write_callback == old(self).write_callback,
            final(self).wf(),
    {
        let ghost orig = self.regions@;
        let ghost lo = begin as int;
        let ghost hi = begin + size;
        let end: u64 = begin + (size as u64);
        let n = self.regions.len();
        let mut result: Vec<(u64, usize)> = Vec::new();
        let mut i: usize = 0;
        proof {
            assert(orig.skip(0) =~= orig);
            assert(result@ + split_all(orig, lo, hi) =~= split_all(orig, lo, hi));
        }
        while i < n
            invariant
                i <= n,
                n == self.regions@.len(),
                self.regions@ == orig,
                ivs_wf(orig),
                0 <= lo <= hi <= u64::MAX,
                lo == begin as int,
                hi == begin + size,
                end == hi,
                split_all(orig, lo, hi) == result@ + split_all(orig.skip(i as int), lo, hi),
            decreases n - i,
        {
            let ghost before = result@;
            proof {
                assert(iv_wf(orig[i as int]));
            }
            let (b, s) = self.regions[i];
            let e: u64 = b + (s as u64);
            proof {
                assert(orig.skip(i as int) =~= seq![orig[i as int]] + orig.skip(i as int + 1));
                assert(orig.skip(i as int)[0] == orig[i as int]);
                assert(orig.skip(i as int).drop_first() =~= orig.skip(i as int + 1));
            }
            if begin > b {
                if begin >= e {
                    result.push((b, s));
                    proof {
                        assert(result@ =~= before + split_one(orig[i as int], lo, hi));
                    }
                } else if end >= e {
                    proof {
                        assert(begin - b < s as u64);
                    }
                    result.push((b, ((begin - b) as usize)));
                    proof {
                        assert(result@ =~= before + split_one(orig[i as int], lo, hi));
                    }
                } else {
                    let second_b: u64 = end + 1;
                    proof {
                        assert(begin - b < s as u64);
                        assert(e - second_b < s as u64);
                    }
                    result.push((b, ((begin - b) as usize)));
                    result.push((second_b, ((e - second_b) as usize)));
                    proof {
                        assert(result@ =~= before + split_one(orig[i as int], lo, hi));
                    }
                }
            } else if end > b {
                if end >= e {
                    proof {
                        assert(result@ =~= before + split_one(orig[i as int], lo, hi));
                    }
                } else {
                    proof {
                        assert(e - end <= s as u64);
                    }
                    result.push((end, ((e - end) as usize)));
                    proof {
                        assert(result@ =~= before + split_one(orig[i as int], lo, hi));
                    }
                }
            } else {
                result.push((b, s));
                proof {
                    assert(result@ =~= before + split_one(orig[i as int], lo, hi));
                }
            }
            proof {
                assert(before + (split_one(orig[i as int], lo, hi) + split_all(
                    orig.skip(i as int + 1),
                    lo,
                    hi,
                )) =~= result@ + split_all(orig.skip(i as int + 1), lo, hi));
            }
            i += 1;
        }
        proof {
            assert(orig.skip(n as int) =~= Seq::<(u64, usize)>::empty());
            assert(split_all(orig, lo, hi) =~= result@);
            lemma_split_all_coverage(orig, lo, hi);
        }
        self.regions = result;
    }
}

/// The ghost image of a scope: its intervals and callback identifiers.
#[verifier::ext_equal]
pub ghost struct GScope {
    pub regions: Seq<(u64, usize)>,
    pub read_callback: Option<u64>,
    pub write_callback: Option<u64>,
}

/// The ghost image of one scope.
pub open spec fn gscope(s: MmioCallbackScope) -> GScope {
    GScope { regions: s.regions@, read_callback: s.read_callback, write_callback: s.write_callback }
}

/// The ghost image of a scope list.
pub open spec fn gscopes(s: Seq<MmioCallbackScope>) -> Seq<GScope> {
    s.map_values(|x: MmioCallbackScope| gscope(x))
}

/// The scope list after an unmap: every scope's intervals are split
/// against the window and scopes left without coverage are dropped.
pub open spec fn g_scopes_unmap(s: Seq<GScope>, lo: int, hi: int) -> Seq<GScope>
    decreases s.len(),
{
    if s.len() == 0 {
        Seq::empty()
    } else {
        let head = GScope {
            regions: split_all(s[0].regions, lo, hi),
            read_callback: s[0].read_callback,
            write_callback: s[0].write_callback,
        };
        (if head.regions.len() > 0 {
            seq![head]
        } else {
            Seq::empty()
        }) + g_scopes_unmap(s.drop_first(), lo, hi)
    }
}

/// The read-callback identifier responsible for `a`: that of the first
/// scope covering `a`, which may itself be absent.
pub open spec fn g_read_cb_at(s: Seq<GScope>, a: int) -> Option<u64>
    decreases s.len(),
{
    if s.len() == 0 {
        None
    } else if scope_covers(s[0].regions, a) {
        s[0].read_callback
    } else {
        g_read_cb_at(s.drop_first(), a)
    }
}

/// The write-callback identifier responsible for `a`.
pub open spec fn g_write_cb_at(s: Seq<GScope>, a: int) -> Option<u64>
    decreases s.len(),
{
    if s.len() == 0 {
        None
    } else if scope_covers(s[0].regions, a) {
        s[0].write_callback
    } else {
        g_write_cb_at(s.drop_first(), a)
    }
}

/// Every interval of every scope is well formed.
pub open spec fn g_scopes_wf(s: Seq<GScope>) -> bool {
    forall|i: int| 0 <= i < s.len() ==> ivs_wf(s[i].regions)
}

/// Unmapping `[lo, hi)` silences exactly the window: no callback fires any
/// longer for an address inside it, while every address strictly outside
/// `[lo, hi]` keeps the callback it had before.
pub proof fn lemma_unmap_silences_window(s: Seq<GScope>, lo: int, hi: int, a: int)
    requires
        g_scopes_wf(s),
        0 <= lo <= hi <= u64::MAX,
    ensures
        lo <= a < hi ==> g_read_cb_at(g_scopes_unmap(s, lo, hi), a) is None && g_write_cb_at(
            g_scopes_unmap(s, lo, hi),
            a,
        ) is None,
        (a < lo || a > hi) ==> g_read_cb_at(g_scopes_unmap(s, lo, hi), a) == g_read_cb_at(s, a)
            && g_write_cb_at(g_scopes_unmap(s, lo, hi), a) == g_write_cb_at(s, a),
    decreases s.len(),
{
    if s.len() > 0 {
        let rest = s.drop_first();
        lemma_unmap_silences_window(rest, lo, hi, a);
        lemma_split_all_coverage(s[0].regions, lo, hi);
        let head = GScope {
            regions: split_all(s[0].regions, lo, hi),
            read_callback: s[0].read_callback,
            write_callback: s[0].write_callback,
        };
        let after = g_scopes_unmap(s, lo, hi);
        if head.regions.len() > 0 {
            assert(after =~= seq![head] + g_scopes_unmap(rest, lo, hi));
            assert(after[0] == head);
            assert(after.drop_first() =~= g_scopes_unmap(rest, lo, hi));
        } else {
            assert(after =~= g_scopes_unmap(rest, lo, hi));
            assert(!scope_covers(head.regions, a));
        }
    }
}

} // verus!
