//! The engine's memory-region bookkeeping: a sorted list of disjoint,
//! page-aligned regions, each either plain storage carrying its bytes or a
//! memory-mapped-I/O window carrying none. Mapping inserts a region,
//! unmapping splits regions against the removed window, protecting
//! re-permissions the window, and the reported region list is exactly the
//! current bookkeeping.

use vstd::prelude::*;
use crate::unicorn_const::{uc_error, MemRegion};

verus! {

/// One mapped region. `bytes` backs a plain region and is empty for a
/// memory-mapped-I/O region, whose contents live behind callbacks.
pub struct MappedRegion {
    pub begin: u64,
    pub size: usize,
    pub perms: u32,
    pub mmio: bool,
    pub bytes: Vec<u8>,
}

/// The ghost image of a region.
#[verifier::ext_equal]
pub ghost struct GRegion {
    pub begin: int,
    pub size: int,
    pub perms: u32,
    pub mmio: bool,
    pub bytes: Seq<u8>,
}

/// The ghost image of one region.
pub open spec fn gview(r: MappedRegion) -> GRegion {
    GRegion {
        begin: r.begin as int,
        size: r.size as int,
        perms: r.perms,
        mmio: r.mmio,
        bytes: r.bytes@,
    }
}

/// The ghost image of a region list.
pub open spec fn gviews(s: Seq<MappedRegion>) -> Seq<GRegion> {
    s.map_values(|x: MappedRegion| gview(x))
}

/// A single region is well formed: page aligned, non-empty, within the
/// address space, and its byte store matches its kind.
pub open spec fn g_region_wf(r: GRegion) -> bool {
    &&& r.begin % 4096 == 0
    &&& r.size % 4096 == 0
    &&& r.size > 0
    &&& 0 <= r.begin
    &&& r.begin + r.size <= u64::MAX
    &&& r.bytes.len() == (if r.mmio {
        0int
    } else {
        r.size
    })
}

/// A region list is well formed: every region is, and they are sorted and
/// pairwise disjoint.
pub open spec fn g_regions_wf(s: Seq<GRegion>) -> bool {
    &&& forall|i: int| 0 <= i < s.len() ==> g_region_wf(#[trigger] s[i])
    &&& forall|i: int, j: int|
        0 <= i < j < s.len() ==> #[trigger] s[i].begin + s[i].size <= #[trigger] s[j].begin
}

/// `a` lies inside region `r`.
pub open spec fn g_covers(r: GRegion, a: int) -> bool {
    r.begin <= a < r.begin + r.size
}

/// The byte stored at `a`: taken from the first region covering `a`,
/// absent when no region does or the covering region is memory-mapped
/// I/O.
pub open spec fn g_mem_byte(s: Seq<GRegion>, a: int) -> Option<u8>
    decreases s.len(),
{
    if s.len() == 0 {
        None
    } else if g_covers(s[0], a) {
        if s[0].mmio {
            None
        } else {
            Some(s[0].bytes[a - s[0].begin])
        }
    } else {
        g_mem_byte(s.drop_first(), a)
    }
}

/// The byte at `a`, reading zero where none is stored.
pub open spec fn g_byte_or_zero(s: Seq<GRegion>, a: int) -> u8 {
    match g_mem_byte(s, a) {
        Some(b) => b,
        None => 0,
    }
}

/// The `len` bytes starting at `addr`.
pub open spec fn g_read_bytes(s: Seq<GRegion>, addr: int, len: nat) -> Seq<u8> {
    Seq::new(len, |k: int| g_byte_or_zero(s, addr + k))
}

/// The whole range `[a, a + len)` lies inside one plain-storage region.
pub open spec fn g_in_ram(s: Seq<GRegion>, a: int, len: int) -> bool {
    exists|i: int|
        0 <= i < s.len() && !s[i].mmio && s[i].begin <= a && a + len <= s[i].begin + s[i].size
}

/// A sequence of `n` zero bytes.
pub open spec fn g_zero(n: nat) -> Seq<u8> {
    Seq::new(n, |k: int| 0u8)
}

/// The ghost image of a freshly mapped region.
pub open spec fn g_new_region(address: u64, size: usize, perms: u32, mmio: bool) -> GRegion {
    GRegion {
        begin: address as int,
        size: size as int,
        perms,
        mmio,
        bytes: if mmio {
            Seq::empty()
        } else {
            g_zero(size as nat)
        },
    }
}

/// `r` intersects the window `[lo, hi)`.
pub open spec fn g_overlaps(r: GRegion, lo: int, hi: int) -> bool {
    !(r.begin + r.size <= lo || hi <= r.begin)
}

/// The list with `r` inserted at its sorted position.
pub open spec fn g_insert(s: Seq<GRegion>, r: GRegion) -> Seq<GRegion>
    decreases s.len(),
{
    if s.len() == 0 {
        seq![r]
    } else if r.begin < s[0].begin {
        seq![r] + s
    } else {
        seq![s[0]] + g_insert(s.drop_first(), r)
    }
}

/// What is left of `r` once the window `[lo, hi)` is unmapped: the region
/// itself when disjoint from the window, else the remainders on either
/// side, their bytes carried over.
pub open spec fn g_split_one(r: GRegion, lo: int, hi: int) -> Seq<GRegion> {
    let b = r.begin;
    let e = r.begin + r.size;
    if hi <= b || lo >= e {
        seq![r]
    } else {
        (if lo > b {
            seq![
                GRegion {
                    begin: b,
                    size: lo - b,
                    perms: r.perms,
                    mmio: r.mmio,
                    bytes: if r.mmio {
                        Seq::empty()
                    } else {
                        r.bytes.subrange(0, lo - b)
                    },
                },
            ]
        } else {
            Seq::empty()
        }) + (if hi < e {
            seq![
                GRegion {
                    begin: hi,
                    size: e - hi,
                    perms: r.perms,
                    mmio: r.mmio,
                    bytes: if r.mmio {
                        Seq::empty()
                    } else {
                        r.bytes.subrange(hi - b, r.size)
                    },
                },
            ]
        } else {
            Seq::empty()
        })
    }
}

/// `g_split_one` applied to every region in order.
pub open spec fn g_unmap(s: Seq<GRegion>, lo: int, hi: int) -> Seq<GRegion>
    decreases s.len(),
{
    if s.len() == 0 {
        Seq::empty()
    } else {
        g_split_one(s[0], lo, hi) + g_unmap(s.drop_first(), lo, hi)
    }
}

/// `r` after the window `[lo, hi)` is given permissions `p`: the parts
/// outside the window keep their permissions, the part inside takes `p`.
pub open spec fn g_protect_one(r: GRegion, lo: int, hi: int, p: u32) -> Seq<GRegion> {
    let b = r.begin;
    let e = r.begin + r.size;
    if hi <= b || lo >= e {
        seq![r]
    } else {
        let m_lo = if lo > b {
            lo
        } else {
            b
        };
        let m_hi = if hi < e {
            hi
        } else {
            e
        };
        (if lo > b {
            seq![
                GRegion {
                    begin: b,
                    size: lo - b,
                    perms: r.perms,
                    mmio: r.mmio,
                    bytes: if r.mmio {
                        Seq::empty()
                    } else {
                        r.bytes.subrange(0, lo - b)
                    },
                },
            ]
        } else {
            Seq::empty()
        }) + seq![
            GRegion {
                begin: m_lo,
                size: m_hi - m_lo,
                perms: p,
                mmio: r.mmio,
                bytes: if r.mmio {
                    Seq::empty()
                } else {
                    r.bytes.subrange(m_lo - b, m_hi - b)
                },
            },
        ] + (if hi < e {
            seq![
                GRegion {
                    begin: hi,
                    size: e - hi,
                    perms: r.perms,
                    mmio: r.mmio,
                    bytes: if r.mmio {
                        Seq::empty()
                    } else {
                        r.bytes.subrange(hi - b, r.size)
                    },
                },
            ]
        } else {
            Seq::empty()
        })
    }
}

/// `g_protect_one` applied to every region in order.
pub open spec fn g_protect(s: Seq<GRegion>, lo: int, hi: int, p: u32) -> Seq<GRegion>
    decreases s.len(),
{
    if s.len() == 0 {
        Seq::empty()
    } else {
        g_protect_one(s[0], lo, hi, p) + g_protect(s.drop_first(), lo, hi, p)
    }
}

/// The reported region list: begin, inclusive end, and permissions of
/// every region in order.
pub open spec fn g_rep(s: Seq<GRegion>) -> Seq<MemRegion>
    decreases s.len(),
{
    if s.len() == 0 {
        Seq::empty()
    } else {
        seq![
            MemRegion {
                begin: s[0].begin as u64,
                end: (s[0].begin + s[0].size - 1) as u64,
                perms: s[0].perms,
            },
        ] + g_rep(s.drop_first())
    }
}

/// In a list whose first `i` regions avoid `a`, the byte at `a` comes from
/// region `i` when it covers `a`.
pub proof fn lemma_mem_byte_at(s: Seq<GRegion>, i: int, a: int)
    requires
        0 <= i < s.len(),
        g_covers(s[i], a),
        forall|j: int| 0 <= j < i ==> !g_covers(#[trigger] s[j], a),
    ensures
        g_mem_byte(s, a) == (if s[i].mmio {
            None
        } else {
            Some(s[i].bytes[a - s[i].begin])
        }),
    decreases i,
{
    if i > 0 {
        lemma_mem_byte_at(s.drop_first(), i - 1, a);
    }
}

/// A list no region of which covers `a` stores no byte at `a`.
pub proof fn lemma_mem_byte_none(s: Seq<GRegion>, a: int)
    requires
        forall|j: int| 0 <= j < s.len() ==> !g_covers(#[trigger] s[j], a),
    ensures
        g_mem_byte(s, a) is None,
    decreases s.len(),
{
    if s.len() > 0 {
        lemma_mem_byte_none(s.drop_first(), a);
    }
}

/// Inserting at position `i` realises the sorted insertion.
proof fn lemma_g_insert_at(s: Seq<GRegion>, i: int, r: GRegion)
    requires
        0 <= i <= s.len(),
        forall|j: int| 0 <= j < i ==> #[trigger] s[j].begin <= r.begin,
        i < s.len() ==> r.begin < s[i].begin,
    ensures
        g_insert(s, r) == s.insert(i, r),
    decreases i,
{
    if s.len() == 0 {
        assert(g_insert(s, r) =~= s.insert(0, r));
    } else if i == 0 {
        assert(g_insert(s, r) =~= s.insert(0, r));
    } else {
        lemma_g_insert_at(s.drop_first(), i - 1, r);
        assert(g_insert(s, r) =~= s.insert(i, r));
    }
}

/// The remainders of one region split against a page-aligned window are
/// well formed, nested in the source region, and sorted.
proof fn lemma_g_split_one_wf(r: GRegion, lo: int, hi: int)
    requires
        g_region_wf(r),
        lo % 4096 == 0,
        hi % 4096 == 0,
        0 <= lo < hi,
    ensures
        forall|k: int|
            0 <= k < g_split_one(r, lo, hi).len() ==> g_region_wf(
                #[trigger] g_split_one(r, lo, hi)[k],
            ) && g_split_one(r, lo, hi)[k].begin >= r.begin && g_split_one(r, lo, hi)[k].begin
                + g_split_one(r, lo, hi)[k].size <= r.begin + r.size,
        forall|k1: int, k2: int|
            0 <= k1 < k2 < g_split_one(r, lo, hi).len() ==> #[trigger] g_split_one(r, lo, hi)[k1].begin + g_split_one(r, lo, hi)[k1].size <= #[trigger] g_split_one(r, lo, hi)[k2].begin,
{
    let b = r.begin;
    let e = r.begin + r.size;
    let pieces = g_split_one(r, lo, hi);
    if hi <= b || lo >= e {
        assert(pieces[0] == r);
    } else {
        assert((lo - b) % 4096 == 0) by (nonlinear_arith)
            requires
                lo % 4096 == 0,
                b % 4096 == 0,
        ;
        assert((b + r.size) % 4096 == 0) by (nonlinear_arith)
            requires
                b % 4096 == 0,
                r.size % 4096 == 0,
        ;
        assert((e - hi) % 4096 == 0) by (nonlinear_arith)
            requires
                hi % 4096 == 0,
                e % 4096 == 0,
        ;
        if lo > b && hi < e {
            assert(pieces.len() == 2);
            assert(g_region_wf(pieces[0]));
            assert(g_region_wf(pieces[1]));
        } else if lo > b {
            assert(pieces.len() == 1);
            assert(g_region_wf(pieces[0]));
        } else if hi < e {
            assert(pieces.len() == 1);
            assert(g_region_wf(pieces[0]));
        } else {
            assert(pieces.len() == 0);
        }
    }
}

/// The pieces of one region re-permissioned over a page-aligned window
/// are well formed, nested in the source region, and sorted.
proof fn lemma_g_protect_one_wf(r: GRegion, lo: int, hi: int, p: u32)
    requires
        g_region_wf(r),
        lo % 4096 == 0,
        hi % 4096 == 0,
        0 <= lo < hi,
    ensures
        forall|k: int|
            0 <= k < g_protect_one(r, lo, hi, p).len() ==> g_region_wf(
                #[trigger] g_protect_one(r, lo, hi, p)[k],
            ) && g_protect_one(r, lo, hi, p)[k].begin >= r.begin && g_protect_one(r, lo, hi, p)[k].begin + g_protect_one(r, lo, hi, p)[k].size <= r.begin + r.size,
        forall|k1: int, k2: int|
            0 <= k1 < k2 < g_protect_one(r, lo, hi, p).len() ==> #[trigger] g_protect_one(
                r,
                lo,
                hi,
                p,
            )[k1].begin + g_protect_one(r, lo, hi, p)[k1].size <= #[trigger] g_protect_one(
                r,
                lo,
                hi,
                p,
            )[k2].begin,
{
    let b = r.begin;
    let e = r.begin + r.size;
    let pieces = g_protect_one(r, lo, hi, p);
    if hi <= b || lo >= e {
        assert(pieces[0] == r);
    } else {
        let m_lo = if lo > b {
            lo
        } else {
            b
        };
        let m_hi = if hi < e {
            hi
        } else {
            e
        };
        assert((lo - b) % 4096 == 0) by (nonlinear_arith)
            requires
                lo % 4096 == 0,
                b % 4096 == 0,
        ;
        assert((b + r.size) % 4096 == 0) by (nonlinear_arith)
            requires
                b % 4096 == 0,
                r.size % 4096 == 0,
        ;
        assert((e - hi) % 4096 == 0) by (nonlinear_arith)
            requires
                hi % 4096 == 0,
                e % 4096 == 0,
        ;
        assert((m_hi - m_lo) % 4096 == 0) by (nonlinear_arith)
            requires
                m_lo % 4096 == 0,
                m_hi % 4096 == 0,
        ;
        assert(m_lo < m_hi);
        assert(m_lo % 4096 == 0 && m_hi % 4096 == 0);
        if lo > b && hi < e {
            assert(pieces.len() == 3);
            assert(pieces[1].size == m_hi - m_lo);
            assert(g_region_wf(pieces[0]));
            assert(g_region_wf(pieces[1]));
            assert(g_region_wf(pieces[2]));
        } else if lo > b {
            assert(pieces.len() == 2);
            assert(pieces[1].size == m_hi - m_lo);
            assert(g_region_wf(pieces[0]));
            assert(g_region_wf(pieces[1]));
        } else if hi < e {
            assert(pieces.len() == 2);
            assert(pieces[0].size == m_hi - m_lo);
            assert(g_region_wf(pieces[0]));
            assert(g_region_wf(pieces[1]));
        } else {
            assert(pieces.len() == 1);
            assert(pieces[0].size == m_hi - m_lo);
            assert(g_region_wf(pieces[0]));
        }
    }
}

/// Unmapping a page-aligned window keeps the region list well formed, and
/// every remaining region starts no earlier than the old first region.
proof fn lemma_g_unmap_wf(s: Seq<GRegion>, lo: int, hi: int)
    requires
        g_regions_wf(s),
        lo % 4096 == 0,
        hi % 4096 == 0,
        0 <= lo < hi,
    ensures
        g_regions_wf(g_unmap(s, lo, hi)),
        s.len() > 0 ==> forall|k: int|
            0 <= k < g_unmap(s, lo, hi).len() ==> (#[trigger] g_unmap(s, lo, hi)[k]).begin >= s[0].begin && g_unmap(s, lo, hi)[k].begin + g_unmap(s, lo, hi)[k].size <= s.last().begin
                + s.last().size,
    decreases s.len(),
{
    if s.len() > 0 {
        let rest = s.drop_first();
        let after = g_unmap(s, lo, hi);
        let head_pieces = g_split_one(s[0], lo, hi);
        lemma_g_unmap_wf(rest, lo, hi);
        assert(g_region_wf(s[0]));
        lemma_g_split_one_wf(s[0], lo, hi);
        assert(after == head_pieces + g_unmap(rest, lo, hi));
        assert forall|k: int| 0 <= k < head_pieces.len() implies g_region_wf(
            #[trigger] head_pieces[k],
        ) && head_pieces[k].begin >= s[0].begin && head_pieces[k].begin + head_pieces[k].size <= s[0].begin + s[0].size by {}
        if rest.len() > 0 {
            assert(rest[0].begin == s[1].begin);
            assert(s[0].begin + s[0].size <= s[1].begin);
            assert(s.last() == rest.last());
        }
        assert forall|k: int| 0 <= k < after.len() implies g_region_wf(#[trigger] after[k])
            && after[k].begin >= s[0].begin && after[k].begin + after[k].size <= s.last().begin
            + s.last().size by {
            if k < head_pieces.len() {
                assert(after[k] == head_pieces[k]);
                assert(s[0].begin + s[0].size <= s.last().begin + s.last().size || s.len() == 1);
            } else {
                assert(after[k] == g_unmap(rest, lo, hi)[k - head_pieces.len()]);
            }
        }
        assert forall|k1: int, k2: int| 0 <= k1 < k2 < after.len() implies #[trigger] after[k1].begin + after[k1].size <= #[trigger] after[k2].begin by {
            if k2 < head_pieces.len() {
            } else if k1 >= head_pieces.len() {
            } else {
                assert(after[k1] == head_pieces[k1]);
                assert(after[k2] == g_unmap(rest, lo, hi)[k2 - head_pieces.len()]);
            }
        }
    }
}

/// Re-permissioning a page-aligned window keeps the region list well
/// formed, with the same begin/end bounds as unmapping keeps.
proof fn lemma_g_protect_wf(s: Seq<GRegion>, lo: int, hi: int, p: u32)
    requires
        g_regions_wf(s),
        lo % 4096 == 0,
        hi % 4096 == 0,
        0 <= lo < hi,
    ensures
        g_regions_wf(g_protect(s, lo, hi, p)),
        s.len() > 0 ==> forall|k: int|
            0 <= k < g_protect(s, lo, hi, p).len() ==> (#[trigger] g_protect(s, lo, hi, p)[k]).begin >= s[0].begin && g_protect(s, lo, hi, p)[k].begin + g_protect(s, lo, hi, p)[k].size <= s.last().begin + s.last().size,
    decreases s.len(),
{
    if s.len() > 0 {
        let rest = s.drop_first();
        let after = g_protect(s, lo, hi, p);
        let head_pieces = g_protect_one(s[0], lo, hi, p);
        lemma_g_protect_wf(rest, lo, hi, p);
        assert(g_region_wf(s[0]));
        lemma_g_protect_one_wf(s[0], lo, hi, p);
        assert(after == head_pieces + g_protect(rest, lo, hi, p));
        assert forall|k: int| 0 <= k < head_pieces.len() implies g_region_wf(
            #[trigger] head_pieces[k],
        ) && head_pieces[k].begin >= s[0].begin && head_pieces[k].begin + head_pieces[k].size <= s[0].begin + s[0].size by {}
        assert forall|k1: int, k2: int| 0 <= k1 < k2 < head_pieces.len() implies #[trigger]
        head_pieces[k1].begin + head_pieces[k1].size <= #[trigger] head_pieces[k2].begin by {}
        if rest.len() > 0 {
            assert(rest[0].begin == s[1].begin);
            assert(s[0].begin + s[0].size <= s[1].begin);
            assert(s.last() == rest.last());
        }
        assert forall|k: int| 0 <= k < after.len() implies g_region_wf(#[trigger] after[k])
            && after[k].begin >= s[0].begin && after[k].begin + after[k].size <= s.last().begin
            + s.last().size by {
            if k < head_pieces.len() {
                assert(after[k] == head_pieces[k]);
                assert(s[0].begin + s[0].size <= s.last().begin + s.last().size || s.len() == 1);
            } else {
                assert(after[k] == g_protect(rest, lo, hi, p)[k - head_pieces.len()]);
            }
        }
        assert forall|k1: int, k2: int| 0 <= k1 < k2 < after.len() implies #[trigger] after[k1].begin + after[k1].size <= #[trigger] after[k2].begin by {
            if k2 < head_pieces.len() {
            } else if k1 >= head_pieces.len() {
            } else {
                assert(after[k1] == head_pieces[k1]);
                assert(after[k2] == g_protect(rest, lo, hi, p)[k2 - head_pieces.len()]);
            }
        }
    }
}

/// Copy the bytes `v[from..to]` into a fresh vector.
pub fn vec_copy_range(v: &Vec<u8>, from: usize, to: usize) -> (r: Vec<u8>)
    requires
        from <= to <= v@.len(),
    ensures
        r@ == v@.subrange(from as int, to as int),
{
    let mut r: Vec<u8> = Vec::new();
    let mut i: usize = from;
    while i < to
        invariant
            from <= i <= to <= v@.len(),
            r@ == v@.subrange(from as int, i as int),
        decreases to - i,
    {
        r.push(v[i]);
        proof {
            assert(r@ =~= v@.subrange(from as int, i as int + 1));
        }
        i += 1;
    }
    r
}

/// A fresh vector of `n` zero bytes.
pub fn zero_bytes(n: usize) -> (r: Vec<u8>)
    ensures
        r@ == g_zero(n as nat),
{
    let mut r: Vec<u8> = Vec::new();
    let mut i: usize = 0;
    proof {
        assert(r@ =~= g_zero(0));
    }
    while i < n
        invariant
            i <= n,
            r@ == g_zero(i as nat),
        decreases n - i,
    {
        r.push(0);
        proof {
            assert(r@ =~= g_zero((i + 1) as nat));
        }
        i += 1;
    }
    r
}


/// The outcome of mapping `[address, address + size)`: an argument error
/// for a misaligned, empty, wrapping or ill-permissioned request, a map
/// error when the window clashes with an existing region, else the list
/// with the fresh region inserted.
pub open spec fn spec_regions_map(
    s: Seq<GRegion>,
    address: u64,
    size: usize,
    perms: u32,
    mmio: bool,
) -> Result<Seq<GRegion>, uc_error> {
    if address % 4096 != 0 || size % 4096 != 0 || size == 0 || address + size > u64::MAX || perms
        & 0xffff_fff8u32 != 0 {
        Err(uc_error::ARG)
    } else if exists|j: int|
        0 <= j < s.len() && g_overlaps(#[trigger] s[j], address as int, address + size) {
        Err(uc_error::MAP)
    } else {
        Ok(g_insert(s, g_new_region(address, size, perms, mmio)))
    }
}

/// Map `[address, address + size)` as a fresh region, zero-filled plain
/// storage unless `mmio`.
pub fn regions_map(
    regions: &mut Vec<MappedRegion>,
    address: u64,
    size: usize,
    perms: u32,
    mmio: bool,
) -> (r: Result<(), uc_error>)
    requires
        g_regions_wf(gviews(old(regions)@)),
    ensures
        spec_regions_map(gviews(old(regions)@), address, size, perms, mmio) matches Ok(g) ==> r
            == Ok::<(), uc_error>(()) && gviews(final(regions)@) == g && g_regions_wf(g),
        spec_regions_map(gviews(old(regions)@), address, size, perms, mmio) matches Err(e) ==> r
            == Err::<(), uc_error>(e) && final(regions)@ == old(regions)@,
{
    let ghost gv = gviews(regions@);
    if address % 4096 != 0 || size % 4096 != 0 || size == 0 {
        return Err(uc_error::ARG);
    }
    if address > u64::MAX - (size as u64) {
        return Err(uc_error::ARG);
    }
    if perms & 0xffff_fff8u32 != 0 {
        return Err(uc_error::ARG);
    }
    let ghost nr = g_new_region(address, size, perms, mmio);
    let n = regions.len();
    let mut i: usize = 0;
    while i < n
        invariant
            i <= n,
            n == regions@.len(),
            regions@ == old(regions)@,
            gv == gviews(regions@),
            g_regions_wf(gv),
            address % 4096 == 0,
            size % 4096 == 0,
            size > 0,
            address + size <= u64::MAX,
            perms & 0xffff_fff8u32 == 0,
            nr == g_new_region(address, size, perms, mmio),
            forall|j: int| 0 <= j < i ==> (#[trigger] gv[j]).begin + gv[j].size <= address,
        decreases n - i,
    {
        proof {
            assert(g_region_wf(gv[i as int]));
        }
        let rb = regions[i].begin;
        let rsz = regions[i].size;
        if rb + (rsz as u64) <= address {
            i += 1;
        } else {
            if address + (size as u64) <= rb {
                proof {
                    assert forall|j: int| 0 <= j < gv.len() implies !g_overlaps(
                        #[trigger] gv[j],
                        address as int,
                        address + size,
                    ) by {
                        assert(g_region_wf(gv[j]));
                        if j > i {
                            assert(gv[i as int].begin + gv[i as int].size <= gv[j].begin);
                        }
                    }
                    assert forall|j: int| 0 <= j < i implies (#[trigger] gv[j]).begin
                        <= nr.begin by {
                        assert(g_region_wf(gv[j]));
                    }
                    lemma_g_insert_at(gv, i as int, nr);
                }
                let fresh = if mmio {
                    Vec::new()
                } else {
                    zero_bytes(size)
                };
                let new_region = MappedRegion { begin: address, size, perms, mmio, bytes: fresh };
                proof {
                    assert(gview(new_region) =~= nr);
                }
                regions.insert(i, new_region);
                proof {
                    assert(gviews(regions@) =~~= gv.insert(i as int, nr));
                    lemma_insert_keeps_wf(gv, i as int, nr);
                }
                return Ok(());
            } else {
                proof {
                    assert(g_overlaps(gv[i as int], address as int, address + size));
                }
                return Err(uc_error::MAP);
            }
        }
    }
    proof {
        assert forall|j: int| 0 <= j < gv.len() implies !g_overlaps(
            #[trigger] gv[j],
            address as int,
            address + size,
        ) by {
            assert(g_region_wf(gv[j]));
        }
        assert forall|j: int| 0 <= j < gv.len() implies (#[trigger] gv[j]).begin <= nr.begin by {
            assert(g_region_wf(gv[j]));
        }
        lemma_g_insert_at(gv, gv.len() as int, nr);
    }
    let fresh = if mmio {
        Vec::new()
    } else {
        zero_bytes(size)
    };
    let new_region = MappedRegion { begin: address, size, perms, mmio, bytes: fresh };
    proof {
        assert(gview(new_region) =~= nr);
    }
    regions.push(new_region);
    proof {
        assert(gviews(regions@) =~~= gv.insert(gv.len() as int, nr));
        lemma_insert_keeps_wf(gv, gv.len() as int, nr);
    }
    Ok(())
}

/// Inserting a well-formed region at its sorted, non-overlapping position
/// keeps the list well formed.
proof fn lemma_insert_keeps_wf(s: Seq<GRegion>, i: int, r: GRegion)
    requires
        g_regions_wf(s),
        g_region_wf(r),
        0 <= i <= s.len(),
        forall|j: int| 0 <= j < i ==> (#[trigger] s[j]).begin + s[j].size <= r.begin,
        i < s.len() ==> r.begin + r.size <= s[i].begin,
    ensures
        g_regions_wf(s.insert(i, r)),
{
    let t = s.insert(i, r);
    assert forall|k: int| 0 <= k < t.len() implies g_region_wf(#[trigger] t[k]) by {
        if k < i {
            assert(t[k] == s[k]);
        } else if k == i {
            assert(t[k] == r);
        } else {
            assert(t[k] == s[k - 1]);
        }
    }
    assert forall|k1: int, k2: int| 0 <= k1 < k2 < t.len() implies #[trigger] t[k1].begin + t[k1].size <= #[trigger] t[k2].begin by {
        if k2 < i {
        } else if k1 < i && k2 == i {
            assert(t[k1] == s[k1] && t[k2] == r);
        } else if k1 < i {
            assert(t[k1] == s[k1] && t[k2] == s[k2 - 1]);
            if k2 - 1 == k1 {
            } else {
                assert(s[k1].begin + s[k1].size <= s[k2 - 1].begin);
            }
        } else if k1 == i {
            assert(t[k1] == r && t[k2] == s[k2 - 1]);
            if k2 - 1 == i {
            } else {
                assert(s[i].begin + s[i].size <= s[k2 - 1].begin);
                assert(g_region_wf(s[i]));
            }
        } else {
            assert(t[k1] == s[k1 - 1] && t[k2] == s[k2 - 1]);
        }
    }
}

/// Remove every region's intersection with the page-aligned window
/// `[address, address + size)`, splitting regions the window cuts.
pub fn regions_unmap(regions: &mut Vec<MappedRegion>, address: u64, size: usize)
    requires
        g_regions_wf(gviews(old(regions)@)),
        address % 4096 == 0,
        size % 4096 == 0,
        size > 0,
        address + size <= u64::MAX,
    ensures
        gviews(final(regions)@) == g_unmap(gviews(old(regions)@), address as int, address + size),
        g_regions_wf(gviews(final(regions)@)),
{
    let ghost orig = gviews(regions@);
    let ghost lo = address as int;
    let ghost hi = address + size;
    let end: u64 = address + (size as u64);
    let mut result: Vec<MappedRegion> = Vec::new();
    proof {
        assert(gviews(result@) + g_unmap(orig, lo, hi) =~~= g_unmap(orig, lo, hi));
    }
    while regions.len() > 0
        invariant
            g_regions_wf(gviews(regions@)),
            lo == address as int,
            hi == lo + size,
            end == hi,
            0 <= lo < hi <= u64::MAX,
            g_unmap(orig, lo, hi) == gviews(result@) + g_unmap(gviews(regions@), lo, hi),
        decreases regions.len(),
    {
        let ghost pre = gviews(regions@);
        let ghost before = gviews(result@);
        proof {
            assert(g_region_wf(pre[0]));
        }
        let region = regions.remove(0);
        proof {
            assert(gviews(regions@) =~~= pre.drop_first());
            assert(gview(region) == pre[0]);
            assert forall|k1: int, k2: int|
                0 <= k1 < k2 < gviews(regions@).len() implies #[trigger] gviews(regions@)[k1].begin + gviews(regions@)[k1].size <= #[trigger] gviews(regions@)[k2].begin by {
                assert(pre[k1 + 1].begin + pre[k1 + 1].size <= pre[k2 + 1].begin);
            }
        }
        let b = region.begin;
        let rsz = region.size;
        let e: u64 = b + (rsz as u64);
        if end <= b || address >= e {
            result.push(region);
            proof {
                assert(gviews(result@) =~~= before + g_split_one(pre[0], lo, hi));
            }
        } else {
            if address > b {
                let keep: usize = ((address - b) as usize);
                let piece_bytes = if region.mmio {
                    Vec::new()
                } else {
                    vec_copy_range(&region.bytes, 0, keep)
                };
                let piece = MappedRegion {
                    begin: b,
                    size: keep,
                    perms: region.perms,
                    mmio: region.mmio,
                    bytes: piece_bytes,
                };
                result.push(piece);
            }
            if end < e {
                let off: usize = ((end - b) as usize);
                let piece_bytes = if region.mmio {
                    Vec::new()
                } else {
                    vec_copy_range(&region.bytes, off, rsz)
                };
                let piece = MappedRegion {
                    begin: end,
                    size: rsz - off,
                    perms: region.perms,
                    mmio: region.mmio,
                    bytes: piece_bytes,
                };
                result.push(piece);
            }
            proof {
                assert(gviews(result@) =~~= before + g_split_one(pre[0], lo, hi));
            }
        }
        proof {
            assert(before + (g_split_one(pre[0], lo, hi) + g_unmap(pre.drop_first(), lo, hi))
                =~~= gviews(result@) + g_unmap(gviews(regions@), lo, hi));
        }
    }
    proof {
        assert(gviews(regions@).len() == 0);
        assert(g_unmap(orig, lo, hi) =~~= gviews(result@));
        lemma_g_unmap_wf(orig, lo, hi);
    }
    *regions = result;
}

/// Give the page-aligned window `[address, address + size)` permissions
/// `perms`, splitting regions the window cuts; coverage and contents are
/// untouched.
pub fn regions_protect(regions: &mut Vec<MappedRegion>, address: u64, size: usize, perms: u32)
    requires
        g_regions_wf(gviews(old(regions)@)),
        address % 4096 == 0,
        size % 4096 == 0,
        size > 0,
        address + size <= u64::MAX,
    ensures
        gviews(final(regions)@) == g_protect(
            gviews(old(regions)@),
            address as int,
            address + size,
            perms,
        ),
        g_regions_wf(gviews(final(regions)@)),
{
    let ghost orig = gviews(regions@);
    let ghost lo = address as int;
    let ghost hi = address + size;
    let end: u64 = address + (size as u64);
    let mut result: Vec<MappedRegion> = Vec::new();
    proof {
        assert(gviews(result@) + g_protect(orig, lo, hi, perms) =~~= g_protect(
            orig,
            lo,
            hi,
            perms,
        ));
    }
    while regions.len() > 0
        invariant
            g_regions_wf(gviews(regions@)),
            lo == address as int,
            hi == lo + size,
            end == hi,
            0 <= lo < hi <= u64::MAX,
            g_protect(orig, lo, hi, perms) == gviews(result@) + g_protect(
                gviews(regions@),
                lo,
                hi,
                perms,
            ),
        decreases regions.len(),
    {
        let ghost pre = gviews(regions@);
        let ghost before = gviews(result@);
        proof {
            assert(g_region_wf(pre[0]));
        }
        let region = regions.remove(0);
        proof {
            assert(gviews(regions@) =~~= pre.drop_first());
            assert(gview(region) == pre[0]);
            assert forall|k1: int, k2: int|
                0 <= k1 < k2 < gviews(regions@).len() implies #[trigger] gviews(regions@)[k1].begin + gviews(regions@)[k1].size <= #[trigger] gviews(regions@)[k2].begin by {
                assert(pre[k1 + 1].begin + pre[k1 + 1].size <= pre[k2 + 1].begin);
            }
        }
        let b = region.begin;
        let rsz = region.size;
        let e: u64 = b + (rsz as u64);
        if end <= b || address >= e {
            result.push(region);
            proof {
                assert(gviews(result@) =~~= before + g_protect_one(pre[0], lo, hi, perms));
            }
        } else {
            let m_lo: u64 = if address > b {
                address
            } else {
                b
            };
            let m_hi: u64 = if end < e {
                end
            } else {
                e
            };
            if address > b {
                let keep: usize = ((address - b) as usize);
                let piece_bytes = if region.mmio {
                    Vec::new()
                } else {
                    vec_copy_range(&region.bytes, 0, keep)
                };
                result.push(
                    MappedRegion {
                        begin: b,
                        size: keep,
                        perms: region.perms,
                        mmio: region.mmio,
                        bytes: piece_bytes,
                    },
                );
            }
            let off1: usize = ((m_lo - b) as usize);
            let off2: usize = ((m_hi - b) as usize);
            let mid_bytes = if region.mmio {
                Vec::new()
            } else {
                vec_copy_range(&region.bytes, off1, off2)
            };
            result.push(
                MappedRegion {
                    begin: m_lo,
                    size: off2 - off1,
                    perms,
                    mmio: region.mmio,
                    bytes: mid_bytes,
                },
            );
            if end < e {
                let off: usize = ((end - b) as usize);
                let piece_bytes = if region.mmio {
                    Vec::new()
                } else {
                    vec_copy_range(&region.bytes, off, rsz)
                };
                result.push(
                    MappedRegion {
                        begin: end,
                        size: rsz - off,
                        perms: region.perms,
                        mmio: region.mmio,
                        bytes: piece_bytes,
                    },
                );
            }
            proof {
                assert(gviews(result@) =~~= before + g_protect_one(pre[0], lo, hi, perms));
            }
        }
        proof {
            assert(before + (g_protect_one(pre[0], lo, hi, perms) + g_protect(
                pre.drop_first(),
                lo,
                hi,
                perms,
            )) =~~= gviews(result@) + g_protect(gviews(regions@), lo, hi, perms));
        }
    }
    proof {
        assert(gviews(regions@).len() == 0);
        assert(g_protect(orig, lo, hi, perms) =~~= gviews(result@));
        lemma_g_protect_wf(orig, lo, hi, perms);
    }
    *regions = result;
}

/// The reported region list: one entry per region, in order.
pub fn regions_report(regions: &Vec<MappedRegion>) -> (r: Vec<MemRegion>)
    requires
        g_regions_wf(gviews(regions@)),
    ensures
        r@ == g_rep(gviews(regions@)),
{
    let ghost gv = gviews(regions@);
    let n = regions.len();
    let mut result: Vec<MemRegion> = Vec::new();
    let mut i: usize = 0;
    proof {
        assert(gv.skip(0) =~~= gv);
        assert(result@ + g_rep(gv) =~= g_rep(gv));
    }
    while i < n
        invariant
            i <= n,
            n == regions@.len(),
            gv == gviews(regions@),
            g_regions_wf(gv),
            g_rep(gv) == result@ + g_rep(gv.skip(i as int)),
        decreases n - i,
    {
        proof {
            assert(g_region_wf(gv[i as int]));
            assert(gv.skip(i as int) =~~= seq![gv[i as int]] + gv.skip(i as int + 1));
            assert(gv.skip(i as int)[0] == gv[i as int]);
            assert(gv.skip(i as int).drop_first() =~~= gv.skip(i as int + 1));
        }
        let ghost before = result@;
        let b = regions[i].begin;
        let rsz = regions[i].size;
        let p = regions[i].perms;
        result.push(MemRegion { begin: b, end: b + (rsz as u64) - 1, perms: p });
        proof {
            assert(result@ =~= before + g_rep(gv.skip(i as int)).take(1));
            assert(g_rep(gv.skip(i as int)).take(1) =~= seq![g_rep(gv.skip(i as int))[0]]);
            assert(before + (seq![g_rep(gv.skip(i as int))[0]] + g_rep(gv.skip(i as int + 1)))
                =~= result@ + g_rep(gv.skip(i as int + 1)));
        }
        i += 1;
    }
    proof {
        assert(gv.skip(n as int) =~~= Seq::<GRegion>::empty());
        assert(g_rep(gv) =~= result@);
    }
    result
}

/// Read `len` bytes starting at `address`. The whole range must lie in
/// one plain-storage region; an empty read always succeeds.
pub fn mem_read_bytes(regions: &Vec<MappedRegion>, address: u64, len: usize) -> (r: Result<
    Vec<u8>,
    uc_error,
>)
    requires
        g_regions_wf(gviews(regions@)),
    ensures
        r is Ok <==> (len == 0 || g_in_ram(gviews(regions@), address as int, len as int)),
        r matches Ok(v) ==> v@ == g_read_bytes(gviews(regions@), address as int, len as nat),
        r is Err ==> r == Err::<Vec<u8>, uc_error>(uc_error::READ_UNMAPPED),
{
    let ghost gv = gviews(regions@);
    if len == 0 {
        let empty: Vec<u8> = Vec::new();
        proof {
            assert(empty@ =~= g_read_bytes(gv, address as int, 0));
        }
        return Ok(empty);
    }
    let n = regions.len();
    let mut i: usize = 0;
    while i < n
        invariant
            i <= n,
            n == regions@.len(),
            gv == gviews(regions@),
            g_regions_wf(gv),
            len > 0,
            forall|j: int|
                0 <= j < i ==> !(!(#[trigger] gv[j]).mmio && gv[j].begin <= address && address
                    + len <= gv[j].begin + gv[j].size),
        decreases n - i,
    {
        proof {
            assert(g_region_wf(gv[i as int]));
        }
        let b = regions[i].begin;
        let rsz = regions[i].size;
        let is_mmio = regions[i].mmio;
        if !is_mmio && b <= address && address - b <= (rsz as u64) - (1u64) && (len as u64) <= (
        rsz as u64) - (address - b) {
            let off: usize = ((address - b) as usize);
            let data = vec_copy_range(&regions[i].bytes, off, off + len);
            proof {
                assert forall|k: int| 0 <= k < len implies data@[k] == g_byte_or_zero(
                    gv,
                    address + k,
                ) by {
                    assert forall|j: int| 0 <= j < i implies !g_covers(
                        #[trigger] gv[j],
                        address + k,
                    ) by {
                        assert(gv[j].begin + gv[j].size <= gv[i as int].begin);
                    }
                    lemma_mem_byte_at(gv, i as int, address + k);
                }
                assert(data@ =~= g_read_bytes(gv, address as int, len as nat));
            }
            return Ok(data);
        }
        proof {
            assert(!(!gv[i as int].mmio && gv[i as int].begin <= address && address + len <= gv[i as int].begin + gv[i as int].size));
        }
        i += 1;
    }
    Err(uc_error::READ_UNMAPPED)
}

/// A byte store overwritten with `data` starting at offset `off`.
pub open spec fn g_overwrite(bytes: Seq<u8>, off: int, data: Seq<u8>) -> Seq<u8> {
    Seq::new(
        bytes.len(),
        |k: int|
            if off <= k < off + data.len() {
                data[k - off]
            } else {
                bytes[k]
            },
    )
}

/// A region after a write of `data` at `addr`: its bytes are overwritten
/// when the whole range lies inside it, else it is untouched.
pub open spec fn g_region_store(r: GRegion, addr: int, data: Seq<u8>) -> GRegion {
    if !r.mmio && r.begin <= addr && addr + data.len() <= r.begin + r.size {
        GRegion {
            begin: r.begin,
            size: r.size,
            perms: r.perms,
            mmio: r.mmio,
            bytes: g_overwrite(r.bytes, addr - r.begin, data),
        }
    } else {
        r
    }
}

/// The region list after a write of `data` at `addr`.
pub open spec fn g_store_bytes(s: Seq<GRegion>, addr: int, data: Seq<u8>) -> Seq<GRegion> {
    s.map_values(|r: GRegion| g_region_store(r, addr, data))
}

/// Write `data` at `address`. The whole range must lie in one
/// plain-storage region; an empty write always succeeds.
pub fn mem_write_bytes(regions: &mut Vec<MappedRegion>, address: u64, data: &[u8]) -> (r: Result<
    (),
    uc_error,
>)
    requires
        g_regions_wf(gviews(old(regions)@)),
    ensures
        r is Ok <==> (data@.len() == 0 || g_in_ram(
            gviews(old(regions)@),
            address as int,
            data@.len() as int,
        )),
        r is Ok ==> gviews(final(regions)@) == g_store_bytes(
            gviews(old(regions)@),
            address as int,
            data@,
        ) && g_regions_wf(gviews(final(regions)@)),
        r is Err ==> r == Err::<(), uc_error>(uc_error::WRITE_UNMAPPED) && final(regions)@ == old(
            regions,
        )@,
{
    let ghost gv = gviews(regions@);
    let len = data.len();
    if len == 0 {
        proof {
            assert forall|j: int| 0 <= j < gv.len() implies g_store_bytes(gv, address as int, data@)[j] =~= gv[j] by {
                assert(g_region_wf(gv[j]));
                if !gv[j].mmio && gv[j].begin <= address && address + 0 <= gv[j].begin + gv[j].size {
                    assert(g_overwrite(gv[j].bytes, address - gv[j].begin, data@) =~= gv[j].bytes);
                }
            }
            assert(gviews(regions@) =~~= g_store_bytes(gv, address as int, data@));
        }
        return Ok(());
    }
    let n = regions.len();
    let mut i: usize = 0;
    while i < n
        invariant
            i <= n,
            n == regions@.len(),
            regions@ == old(regions)@,
            gv == gviews(regions@),
            g_regions_wf(gv),
            len == data@.len(),
            len > 0,
            forall|j: int|
                0 <= j < i ==> !(!(#[trigger] gv[j]).mmio && gv[j].begin <= address && address
                    + len <= gv[j].begin + gv[j].size),
        decreases n - i,
    {
        proof {
            assert(g_region_wf(gv[i as int]));
        }
        let b = regions[i].begin;
        let rsz = regions[i].size;
        let is_mmio = regions[i].mmio;
        if !is_mmio && b <= address && address - b <= (rsz as u64) - (1u64) && (len as u64) <= (
        rsz as u64) - (address - b) {
            let off: usize = ((address - b) as usize);
            let mut region = regions.remove(i);
            let ghost old_region = gview(region);
            let mut k: usize = 0;
            while k < len
                invariant
                    k <= len,
                    len == data@.len(),
                    off + len <= usize::MAX,
                    off + len <= region.bytes@.len(),
                    region.begin == old_region.begin,
                    region.size == old_region.size,
                    region.perms == old_region.perms,
                    region.mmio == old_region.mmio,
                    region.bytes@.len() == old_region.bytes.len(),
                    forall|m: int| 0 <= m < k ==> region.bytes@[off + m] == data@[m],
                    forall|m: int|
                        0 <= m < region.bytes@.len() && !(off <= m < off + k)
                            ==> region.bytes@[m] == old_region.bytes[m],
                decreases len - k,
            {
                region.bytes.set(off + k, data[k]);
                k += 1;
            }
            proof {
                assert(gview(region) =~= g_region_store(old_region, address as int, data@));
            }
            regions.insert(i, region);
            proof {
                assert(gviews(regions@) =~~= gv.update(
                    i as int,
                    g_region_store(gv[i as int], address as int, data@),
                ));
                assert forall|j: int| 0 <= j < gv.len() implies g_store_bytes(
                    gv,
                    address as int,
                    data@,
                )[j] == gviews(regions@)[j] by {
                    if j != i {
                        assert(g_region_wf(gv[j]));
                        if !gv[j].mmio && gv[j].begin <= address && address + len <= gv[j].begin
                            + gv[j].size {
                            if j < i {
                                assert(gv[j].begin + gv[j].size <= gv[i as int].begin);
                            } else {
                                assert(gv[i as int].begin + gv[i as int].size <= gv[j].begin);
                            }
                        }
                    }
                }
                assert(gviews(regions@) =~~= g_store_bytes(gv, address as int, data@));
                assert forall|j: int| 0 <= j < gviews(regions@).len() implies g_region_wf(
                    #[trigger] gviews(regions@)[j],
                ) by {
                    assert(g_region_wf(gv[j]));
                }
                assert forall|k1: int, k2: int|
                    0 <= k1 < k2 < gviews(regions@).len() implies #[trigger] gviews(regions@)[k1].begin + gviews(regions@)[k1].size <= #[trigger] gviews(regions@)[k2].begin by {
                    assert(gv[k1].begin + gv[k1].size <= gv[k2].begin);
                }
            }
            return Ok(());
        }
        proof {
            assert(!(!gv[i as int].mmio && gv[i as int].begin <= address && address + len <= gv[i as int].begin + gv[i as int].size));
        }
        i += 1;
    }
    Err(uc_error::WRITE_UNMAPPED)
}


/// A write is read back exactly: after storing `data` at `addr` into a
/// well-formed region list that has the range in plain storage, reading
/// the range yields `data`, and every byte outside the range is
/// untouched.
pub proof fn lemma_store_then_read(s: Seq<GRegion>, addr: int, data: Seq<u8>)
    requires
        g_regions_wf(s),
        data.len() > 0,
        g_in_ram(s, addr, data.len() as int),
    ensures
        g_read_bytes(g_store_bytes(s, addr, data), addr, data.len()) == data,
        forall|a: int|
            !(addr <= a < addr + data.len()) ==> g_mem_byte(g_store_bytes(s, addr, data), a)
                == g_mem_byte(s, a),
{
    let t = g_store_bytes(s, addr, data);
    let i = choose|i: int|
        0 <= i < s.len() && !s[i].mmio && s[i].begin <= addr && addr + data.len() <= s[i].begin
            + s[i].size;
    assert(g_region_wf(s[i]));
    assert(t[i] == g_region_store(s[i], addr, data));
    assert forall|a: int| addr <= a < addr + data.len() implies g_mem_byte(t, a) == Some(
        data[a - addr],
    ) by {
        assert forall|j: int| 0 <= j < i implies !g_covers(#[trigger] t[j], a) by {
            assert(s[j].begin + s[j].size <= s[i].begin);
            assert(t[j] == g_region_store(s[j], addr, data));
        }
        assert(g_covers(t[i], a));
        lemma_mem_byte_at(t, i, a);
        assert(t[i].bytes[a - t[i].begin] == data[a - addr]);
    }
    assert(g_read_bytes(t, addr, data.len()) =~= data);
    assert forall|a: int| !(addr <= a < addr + data.len()) implies g_mem_byte(t, a) == g_mem_byte(
        s,
        a,
    ) by {
        if exists|j: int| 0 <= j < s.len() && g_covers(#[trigger] s[j], a) {
            let j = choose|j: int| 0 <= j < s.len() && g_covers(#[trigger] s[j], a);
            assert forall|m: int| 0 <= m < j implies !g_covers(#[trigger] t[m], a) && !g_covers(
                #[trigger] s[m],
                a,
            ) by {
                assert(s[m].begin + s[m].size <= s[j].begin);
                assert(t[m] == g_region_store(s[m], addr, data));
            }
            assert(t[j] == g_region_store(s[j], addr, data));
            assert(g_covers(t[j], a));
            lemma_mem_byte_at(t, j, a);
            lemma_mem_byte_at(s, j, a);
            if j == i {
                assert(t[i].bytes[a - s[i].begin] == s[i].bytes[a - s[i].begin]);
            } else {
                if !s[j].mmio && s[j].begin <= addr && addr + data.len() <= s[j].begin + s[j].size {
                    assert(g_covers(s[i], addr));
                    assert(g_covers(s[j], addr));
                    if j < i {
                        assert(s[j].begin + s[j].size <= s[i].begin);
                    } else {
                        assert(s[i].begin + s[i].size <= s[j].begin);
                    }
                }
                assert(t[j] == s[j]);
            }
        } else {
            assert forall|m: int| 0 <= m < t.len() implies !g_covers(#[trigger] t[m], a) by {
                assert(!g_covers(s[m], a));
                assert(t[m] == g_region_store(s[m], addr, data));
            }
            lemma_mem_byte_none(t, a);
            lemma_mem_byte_none(s, a);
        }
    }
}


/// First-match byte lookup over a concatenation: a prefix that avoids
/// `a` defers to the suffix, and a prefix that covers `a` decides.
proof fn lemma_mem_byte_concat(x: Seq<GRegion>, y: Seq<GRegion>, a: int)
    ensures
        (forall|k: int| 0 <= k < x.len() ==> !g_covers(#[trigger] x[k], a)) ==> g_mem_byte(
            x + y,
            a,
        ) == g_mem_byte(y, a),
        (exists|k: int| 0 <= k < x.len() && g_covers(#[trigger] x[k], a)) ==> g_mem_byte(x + y, a)
            == g_mem_byte(x, a),
    decreases x.len(),
{
    if x.len() == 0 {
        assert(x + y =~= y);
    } else {
        lemma_mem_byte_concat(x.drop_first(), y, a);
        assert((x + y)[0] == x[0]);
        assert((x + y).drop_first() =~= x.drop_first() + y);
        if !g_covers(x[0], a) {
            if exists|k: int| 0 <= k < x.len() && g_covers(#[trigger] x[k], a) {
                let k = choose|k: int| 0 <= k < x.len() && g_covers(#[trigger] x[k], a);
                assert(g_covers(x.drop_first()[k - 1], a));
            }
        }
    }
}

/// The remainders of one region split against a window cover exactly the
/// source addresses outside the window, and carry the source's bytes for
/// them.
proof fn lemma_g_split_one_bytes(r: GRegion, lo: int, hi: int)
    requires
        g_region_wf(r),
        0 <= lo <= hi,
    ensures
        forall|a: int, k: int|
            0 <= k < g_split_one(r, lo, hi).len() && #[trigger] g_covers(
                g_split_one(r, lo, hi)[k],
                a,
            ) ==> g_covers(r, a) && !(lo <= a < hi),
        forall|a: int|
            g_covers(r, a) && !(lo <= a < hi) ==> g_mem_byte(g_split_one(r, lo, hi), a) == (
            if r.mmio {
                None::<u8>
            } else {
                Some(r.bytes[a - r.begin])
            }),
{
    let b = r.begin;
    let e = r.begin + r.size;
    let pieces = g_split_one(r, lo, hi);
    if hi <= b || lo >= e {
        assert(pieces[0] == r);
        assert forall|a: int| g_covers(r, a) && !(lo <= a < hi) implies g_mem_byte(pieces, a) == (
        if r.mmio {
            None::<u8>
        } else {
            Some(r.bytes[a - r.begin])
        }) by {
            lemma_mem_byte_at(pieces, 0, a);
        }
    } else {
        assert forall|a: int| g_covers(r, a) && !(lo <= a < hi) implies g_mem_byte(pieces, a) == (
        if r.mmio {
            None::<u8>
        } else {
            Some(r.bytes[a - r.begin])
        }) by {
            if a < lo {
                assert(lo > b);
                assert(g_covers(pieces[0], a));
                lemma_mem_byte_at(pieces, 0, a);
            } else {
                assert(hi < e);
                let k = pieces.len() - 1;
                assert(pieces[k].begin == hi && pieces[k].size == e - hi);
                assert(g_covers(pieces[k], a));
                assert forall|m: int| 0 <= m < k implies !g_covers(#[trigger] pieces[m], a) by {
                    assert(pieces[m].begin + pieces[m].size == lo);
                }
                lemma_mem_byte_at(pieces, k, a);
            }
        }
    }
}

/// Unmapping removes exactly the window: every byte inside `[lo, hi)` is
/// gone, and every byte outside it is unchanged.
pub proof fn lemma_g_unmap_bytes(s: Seq<GRegion>, lo: int, hi: int)
    requires
        forall|i: int| 0 <= i < s.len() ==> g_region_wf(#[trigger] s[i]),
        0 <= lo <= hi,
    ensures
        forall|a: int|
            #[trigger] g_mem_byte(g_unmap(s, lo, hi), a) == (if lo <= a < hi {
                None::<u8>
            } else {
                g_mem_byte(s, a)
            }),
    decreases s.len(),
{
    if s.len() == 0 {
        assert(g_unmap(s, lo, hi).len() == 0);
    } else {
        let rest = s.drop_first();
        let head_pieces = g_split_one(s[0], lo, hi);
        let after = g_unmap(s, lo, hi);
        assert forall|i: int| 0 <= i < rest.len() implies g_region_wf(#[trigger] rest[i]) by {
            assert(rest[i] == s[i + 1]);
        }
        lemma_g_unmap_bytes(rest, lo, hi);
        lemma_g_split_one_bytes(s[0], lo, hi);
        assert(after == head_pieces + g_unmap(rest, lo, hi));
        assert forall|a: int| true implies #[trigger] g_mem_byte(after, a) == (if lo <= a < hi {
            None::<u8>
        } else {
            g_mem_byte(s, a)
        }) by {
            lemma_mem_byte_concat(head_pieces, g_unmap(rest, lo, hi), a);
            if lo <= a < hi {
                assert(g_mem_byte(after, a) == g_mem_byte(g_unmap(rest, lo, hi), a));
            } else if g_covers(s[0], a) {
                if s[0].mmio {
                    assert(g_mem_byte(head_pieces, a) == None::<u8>);
                    assert(exists|k: int|
                        0 <= k < head_pieces.len() && g_covers(#[trigger] head_pieces[k], a)) by {
                        if a < lo {
                            assert(g_covers(head_pieces[0], a));
                        } else {
                            assert(g_covers(head_pieces[head_pieces.len() - 1], a));
                        }
                    }
                } else {
                    assert(g_mem_byte(head_pieces, a) == Some(s[0].bytes[a - s[0].begin]));
                    assert(exists|k: int|
                        0 <= k < head_pieces.len() && g_covers(#[trigger] head_pieces[k], a)) by {
                        if a < lo {
                            assert(g_covers(head_pieces[0], a));
                        } else {
                            assert(g_covers(head_pieces[head_pieces.len() - 1], a));
                        }
                    }
                }
                assert(g_mem_byte(after, a) == g_mem_byte(head_pieces, a));
            } else {
                assert forall|k: int| 0 <= k < head_pieces.len() implies !g_covers(
                    #[trigger] head_pieces[k],
                    a,
                ) by {}
                assert(g_mem_byte(after, a) == g_mem_byte(g_unmap(rest, lo, hi), a));
                assert(g_mem_byte(s, a) == g_mem_byte(rest, a));
            }
        }
    }
}

} // verus!
