use crate::dataset::{
    lemma_prefix_total_mono, locate, prefix_total, slice_rows, DatasetMeta, Decoder,
};
use crate::error::ViewerError;
use crate::row::{mat_rep, materialize, MaterializedRow, RawRow, ValModel};
use vstd::arithmetic::div_mod::{
    lemma_fundamental_div_mod, lemma_mod_bound, lemma_mod_multiples_basic,
};
use vstd::prelude::*;

verus! {

/// Number of rows one cache window holds.
pub const WINDOW_SIZE: usize = 1000;

/// The aligned start of the window that covers index `i`.
pub open spec fn window_start_spec(i: int) -> int {
    i - (i % (WINDOW_SIZE as int))
}

pub fn window_start_of(i: usize) -> (r: usize)
    ensures
        r == window_start_spec(i as int),
        r % WINDOW_SIZE == 0,
        r <= i < r + WINDOW_SIZE,
{
    proof {
        lemma_mod_bound(i as int, WINDOW_SIZE as int);
        lemma_fundamental_div_mod(i as int, WINDOW_SIZE as int);
        lemma_mod_multiples_basic(i as int / WINDOW_SIZE as int, WINDOW_SIZE as int);
    }
    i - (i % WINDOW_SIZE)
}

/// The model of the row at global index `i`, row groups in order.
pub open spec fn row_at(groups: Seq<Seq<Seq<ValModel>>>, i: int) -> Seq<ValModel>
    decreases groups.len(),
{
    if groups.len() == 0 {
        Seq::empty()
    } else if i < groups[0].len() {
        groups[0][i]
    } else {
        row_at(groups.drop_first(), i - groups[0].len())
    }
}

/// The metadata's group sizes agree with the decoder's contents.
pub open spec fn meta_matches<D: Decoder>(meta: DatasetMeta, dec: D) -> bool {
    &&& meta.group_sizes@.len() == dec.contents().len()
    &&& forall|g: int|
        0 <= g < dec.contents().len() ==> meta.group_sizes@[g] == (
        #[trigger] dec.contents()[g]).len()
}

proof fn lemma_prefix_total_drop_first(sizes: Seq<usize>, g: int)
    requires
        1 <= g <= sizes.len(),
    ensures
        prefix_total(sizes, g) == sizes[0] + prefix_total(sizes.drop_first(), g - 1),
    decreases g,
{
    if g > 1 {
        lemma_prefix_total_drop_first(sizes, g - 1);
        assert(sizes.drop_first()[g - 2] == sizes[g - 1]);
        assert(prefix_total(sizes.drop_first(), g - 1) == prefix_total(sizes.drop_first(), g - 2)
            + sizes.drop_first()[g - 2]);
    } else {
        assert(prefix_total(sizes, 0) == 0);
        assert(prefix_total(sizes.drop_first(), 0) == 0);
    }
}

/// The row at a global index is the row of its owning group at the
/// in-group offset, the offset counted from the group's cumulative start.
pub proof fn lemma_row_at_group(
    groups: Seq<Seq<Seq<ValModel>>>,
    sizes: Seq<usize>,
    g: int,
    off: int,
)
    requires
        sizes.len() == groups.len(),
        forall|j: int| 0 <= j < groups.len() ==> sizes[j] == (#[trigger] groups[j]).len(),
        0 <= g < groups.len(),
        0 <= off < groups[g].len(),
    ensures
        row_at(groups, prefix_total(sizes, g) + off) == groups[g][off],
    decreases g,
{
    if g == 0 {
    } else {
        lemma_prefix_total_drop_first(sizes, g);
        lemma_prefix_total_mono(sizes.drop_first(), 0, g - 1);
        let dg = groups.drop_first();
        let ds = sizes.drop_first();
        assert forall|j: int| 0 <= j < dg.len() implies ds[j] == (#[trigger] dg[j]).len() by {
            assert(dg[j] == groups[j + 1]);
            assert(ds[j] == sizes[j + 1]);
        }
        assert(dg[g - 1] == groups[g]);
        lemma_row_at_group(dg, ds, g - 1, off);
        let i = prefix_total(sizes, g) + off;
        assert(i - groups[0].len() == prefix_total(ds, g - 1) + off);
        assert(i >= groups[0].len());
    }
}

/// The cache's one window: up to `WINDOW_SIZE` materialized rows starting
/// at an aligned offset.  The ghost `source` holds the models of the
/// decoded rows the window was materialized from.
pub struct CacheWindow {
    pub start: usize,
    pub rows: Vec<MaterializedRow>,
    pub source: Ghost<Seq<Seq<ValModel>>>,
}

/// The windowed cache: table metadata and at most one window of
/// materialized rows, replaced wholesale whenever the requested index
/// leaves its bounds.
pub struct WindowCache {
    pub meta: DatasetMeta,
    pub window: Option<CacheWindow>,
    /// Number of window installations performed, each one sequential
    /// decode sweep by the caller.
    pub decode_passes: u64,
}

impl WindowCache {
    /// Total rows of the table under this cache.
    pub open spec fn total(self) -> int {
        self.meta.total_spec()
    }

    /// Rows the window starting at `start` must hold: a full window, or
    /// what is left of the table.
    pub open spec fn window_len_spec(self, start: int) -> int {
        if self.total() - start < WINDOW_SIZE {
            self.total() - start
        } else {
            WINDOW_SIZE as int
        }
    }

    /// The window invariant: aligned start inside the table, the exact
    /// expected length, and every held row equal to the materialization of
    /// the decoded row it was installed from.
    pub open spec fn window_wf(self) -> bool {
        match self.window {
            Option::None => true,
            Option::Some(w) => {
                &&& (w.start as int) % (WINDOW_SIZE as int) == 0
                &&& (w.start as int) < self.total()
                &&& w.rows@.len() == self.window_len_spec(w.start as int)
                &&& w.source@.len() == w.rows@.len()
                &&& forall|k: int|
                    0 <= k < w.rows@.len() ==> (#[trigger] w.rows@[k]).rep() == mat_rep(
                        w.source@[k],
                        self.meta.fields@,
                    )
            },
        }
    }

    pub open spec fn wf(self) -> bool {
        &&& self.meta.wf()
        &&& self.window_wf()
    }

    /// True when the active window already covers index `i`.
    pub open spec fn hit(self, i: int) -> bool {
        match self.window {
            Option::None => false,
            Option::Some(w) => w.start == window_start_spec(i),
        }
    }

    /// A cache over an open table; the window is created lazily on first
    /// access.
    pub fn new(meta: DatasetMeta) -> (c: WindowCache)
        requires
            meta.wf(),
        ensures
            c.wf(),
            c.meta == meta,
            c.window is None,
            c.decode_passes == 0,
    {
        WindowCache { meta, window: Option::None, decode_passes: 0 }
    }

    pub fn total_rows(&self) -> (n: usize)
        requires
            self.wf(),
        ensures
            n == self.total(),
    {
        self.meta.total_rows()
    }

    /// How many rows the window starting at `start` is to hold.
    pub fn window_len(&self, start: usize) -> (n: usize)
        requires
            self.wf(),
            (start as int) < self.total(),
        ensures
            n == self.window_len_spec(start as int),
    {
        let total = self.meta.total_rows();
        if total - start < WINDOW_SIZE {
            total - start
        } else {
            WINDOW_SIZE
        }
    }

    /// Answers index `i` from the active window alone: the row on a hit,
    /// nothing on a miss, and a rejection at or past the table's end.
    /// Never a decode pass.
    pub fn lookup(&self, i: usize) -> (r: Result<Option<MaterializedRow>, ViewerError>)
        requires
            self.wf(),
        ensures
            match r {
                Ok(Some(row)) => {
                    &&& (i as int) < self.total()
                    &&& self.hit(i as int)
                    &&& self.window matches Some(w) && row.rep() == mat_rep(
                        w.source@[i - w.start],
                        self.meta.fields@,
                    )
                    &&& row.rep().len() == self.meta.fields@.len()
                },
                Ok(None) => (i as int) < self.total() && !self.hit(i as int),
                Err(e) => e == ViewerError::IndexOutOfRange && i >= self.total(),
            },
    {
        let total = self.meta.total_rows();
        if i >= total {
            return Err(ViewerError::IndexOutOfRange);
        }
        match &self.window {
            Option::Some(w) => {
                if w.start == window_start_of(i) {
                    let idx = i - w.start;
                    proof {
                        assert((idx as int) < w.rows@.len());
                    }
                    Ok(Some(w.rows[idx].duplicate()))
                } else {
                    Ok(None)
                }
            },
            Option::None => Ok(None),
        }
    }

    /// Discards the active window.
    pub fn clear(&mut self)
        requires
            old(self).wf(),
        ensures
            final(self).wf(),
            final(self).meta == old(self).meta,
            final(self).decode_passes == old(self).decode_passes,
            final(self).window is None,
    {
        self.window = Option::None;
    }

    /// Installs the freshly decoded rows as the window starting at
    /// `start`, materializing each: accepted exactly when `start` is
    /// aligned, lies inside the table, and the row count is what that
    /// window must hold.  Each installation counts as one decode pass.
    pub fn install_window(&mut self, start: usize, raws: Vec<RawRow>) -> (ok: bool)
        requires
            old(self).wf(),
        ensures
            final(self).wf(),
            final(self).meta == old(self).meta,
            ok <==> ((start as int) % (WINDOW_SIZE as int) == 0 && (start as int) < old(
                self,
            ).total() && raws@.len() == old(self).window_len_spec(start as int)),
            ok ==> {
                &&& final(self).window matches Some(w)
                &&& w.start == start
                &&& w.source@ == raws@.map_values(|row: RawRow| row.model())
                &&& final(self).decode_passes == (if old(self).decode_passes < u64::MAX {
                    old(self).decode_passes + 1
                } else {
                    u64::MAX as int
                })
            },
            !ok ==> *final(self) == *old(self),
    {
        let total = self.meta.total_rows();
        if start % WINDOW_SIZE != 0 || start >= total {
            return false;
        }
        let expected = self.window_len(start);
        if raws.len() != expected {
            return false;
        }
        let ghost source = raws@.map_values(|row: RawRow| row.model());
        let mut rows: Vec<MaterializedRow> = Vec::new();
        let mut k: usize = 0;
        while k < raws.len()
            invariant
                k <= raws@.len(),
                rows@.len() == k,
                source == raws@.map_values(|row: RawRow| row.model()),
                forall|j: int|
                    0 <= j < k ==> (#[trigger] rows@[j]).rep() == mat_rep(
                        source[j],
                        self.meta.fields@,
                    ),
                self.meta == old(self).meta,
            decreases raws@.len() - k,
        {
            let m = materialize(&raws[k], &self.meta.fields);
            rows.push(m);
            k = k + 1;
        }
        self.decode_passes = match self.decode_passes.checked_add(1) {
            Option::Some(c) => c,
            Option::None => u64::MAX,
        };
        self.window = Option::Some(CacheWindow { start, rows, source: Ghost(source) });
        true
    }
}

/// Windowed, bounded-memory random access over a sequentially decodable
/// table, the decode passes made through the table's own `Decoder`.
pub struct Pager<D: Decoder> {
    pub dec: D,
    pub cache: WindowCache,
}

/// Every window row was installed from the decoded row it stands for.
pub open spec fn window_linked<D: Decoder>(cache: WindowCache, dec: D) -> bool {
    match cache.window {
        Option::None => true,
        Option::Some(w) => forall|k: int|
            0 <= k < w.source@.len() ==> w.source@[k] == row_at(
                dec.contents(),
                w.start + k,
            ),
    }
}

/// Decodes the rows of the window starting at `start`: the owning row
/// group is entered with the computed skip, and decoding resumes at
/// following group starts, with skip zero, until the window is full or the
/// table ends.
fn refill_raws<D: Decoder>(dec: &D, meta: &DatasetMeta, start: usize) -> (r: Result<
    Vec<RawRow>,
    ViewerError,
>)
    requires
        meta.wf(),
        meta_matches(*meta, *dec),
        (start as int) < meta.total_spec(),
    ensures
        match r {
            Ok(rows) => {
                &&& rows@.len() == if meta.total_spec() - start < WINDOW_SIZE {
                    meta.total_spec() - start
                } else {
                    WINDOW_SIZE as int
                }
                &&& forall|k: int|
                    0 <= k < rows@.len() ==> (#[trigger] rows@[k]).model() == row_at(
                        dec.contents(),
                        start + k,
                    )
            },
            Err(e) => e == ViewerError::DecodeError,
        },
{
    let total = meta.total_rows();
    let end = if total - start < WINDOW_SIZE {
        total
    } else {
        start + WINDOW_SIZE
    };
    let (g0, off0) = match locate(meta, start) {
        Ok(p) => p,
        Err(_) => {
            proof {
                assert(false);
            }
            (0, 0)
        },
    };
    let mut out: Vec<RawRow> = Vec::new();
    let gcount = meta.group_sizes.len();
    let mut g: usize = g0;
    let mut skip: usize = off0;
    let mut next: usize = start;
    while next < end
        invariant
            gcount == meta.group_sizes@.len(),
            meta.wf(),
            meta_matches(*meta, *dec),
            (start as int) < meta.total_spec(),
            end == if meta.total_spec() - start < WINDOW_SIZE {
                meta.total_spec()
            } else {
                start + WINDOW_SIZE
            },
            start <= next <= end,
            end <= meta.total_spec(),
            out@.len() == next - start,
            forall|k: int|
                0 <= k < out@.len() ==> (#[trigger] out@[k]).model() == row_at(
                    dec.contents(),
                    start + k,
                ),
            next < end ==> {
                &&& (g as int) < meta.group_sizes@.len()
                &&& skip <= meta.group_sizes@[g as int]
                &&& next == prefix_total(meta.group_sizes@, g as int) + skip
            },
        decreases meta.group_sizes@.len() - g,
    {
        let ghost gs = meta.group_sizes@;
        let ghost size_g = gs[g as int] as int;
        let need = end - next;
        let mut raws = match dec.decode_sequential(g, skip, need) {
            Ok(rows) => rows,
            Err(_) => {
                return Err(ViewerError::DecodeError);
            },
        };
        proof {
            assert(dec.contents()[g as int].len() == size_g);
            let c = dec.contents()[g as int];
            let mods = raws@.map_values(|row: RawRow| row.model());
            assert(mods == slice_rows(c, skip as int, need as int));
            assert(skip as int <= size_g);
            let lo: int = if (skip as int) < c.len() {
                skip as int
            } else {
                c.len() as int
            };
            let hi: int = if skip + need < c.len() {
                skip + need
            } else {
                c.len() as int
            };
            assert(slice_rows(c, skip as int, need as int) == c.subrange(lo, hi));
            assert(lo == skip as int);
            assert(lo <= hi <= c.len());
            assert(mods.len() == raws@.len());
            assert(raws@.len() == hi - lo);
            assert(raws@.len() == (if skip + need < size_g {
                skip + need
            } else {
                size_g
            }) - skip);
            assert forall|j2: int| 0 <= j2 < raws@.len() implies (#[trigger] raws@[j2]).model()
                == dec.contents()[g as int][skip + j2] by {
                assert(mods[j2] == raws@[j2].model());
                assert(mods[j2] == dec.contents()[g as int][skip + j2]);
            }
            assert forall|j2: int| 0 <= j2 < raws@.len() implies (#[trigger] raws@[j2]).model()
                == row_at(dec.contents(), next + j2) by {
                lemma_row_at_group(dec.contents(), gs, g as int, skip + j2);
            }
        }
        let taken = raws.len();
        let ghost rsnap = raws@;
        let ghost out_before = out@;
        out.append(&mut raws);
        proof {
            assert(out@ == out_before + rsnap);
            assert forall|k: int| 0 <= k < out@.len() implies (#[trigger] out@[k]).model()
                == row_at(dec.contents(), start + k) by {
                if k < out_before.len() {
                    assert(out@[k] == out_before[k]);
                } else {
                    assert(out@[k] == rsnap[k - out_before.len()]);
                    assert(rsnap[k - out_before.len()].model() == row_at(
                        dec.contents(),
                        next + (k - out_before.len()),
                    ));
                }
            }
            lemma_prefix_total_mono(gs, g + 1, gs.len() as int);
            assert(prefix_total(gs, g + 1) == prefix_total(gs, g as int) + gs[g as int]);
            if taken < need {
                assert(skip + taken == size_g);
                assert(next + taken == prefix_total(gs, g + 1));
                if g + 1 == gs.len() {
                    assert(prefix_total(gs, g + 1) == meta.total_spec());
                    assert(next + taken >= end);
                }
            }
            assert(g < gcount);
        }
        next = next + taken;
        g = g + 1;
        skip = 0;
    }
    proof {
        assert(out@.len() == end - start);
    }
    Ok(out)
}

impl<D: Decoder> Pager<D> {
    /// Total rows of the table under this pager.
    pub open spec fn total(self) -> int {
        self.cache.total()
    }

    pub open spec fn wf(self) -> bool {
        &&& self.cache.wf()
        &&& meta_matches(self.cache.meta, self.dec)
        &&& window_linked(self.cache, self.dec)
    }

    /// True when the active window already covers index `i`.
    pub open spec fn hit(self, i: int) -> bool {
        self.cache.hit(i)
    }

    /// A pager over an open table; the window is created lazily on first
    /// access.
    pub fn new(dec: D, meta: DatasetMeta) -> (p: Pager<D>)
        requires
            meta.wf(),
            meta_matches(meta, dec),
        ensures
            p.wf(),
            p.dec == dec,
            p.cache.meta == meta,
            p.cache.window is None,
            p.cache.decode_passes == 0,
    {
        Pager { dec, cache: WindowCache::new(meta) }
    }

    pub fn total_rows(&self) -> (n: usize)
        requires
            self.wf(),
        ensures
            n == self.total(),
    {
        self.cache.total_rows()
    }

    /// The ordered field names of the schema.
    pub fn schema_fields(&self) -> (names: Vec<String>)
        ensures
            names@.len() == self.cache.meta.fields@.len(),
            forall|j: int|
                0 <= j < names@.len() ==> (#[trigger] names@[j])@
                    == self.cache.meta.fields@[j].name@,
    {
        self.cache.meta.schema_fields()
    }

    /// Returns the materialized row at `global_index`.
    ///
    /// A hit on the active window is answered from memory, with the pager
    /// left untouched and no decode pass; a miss discards the window and
    /// refills it from the aligned start `global_index - (global_index mod
    /// WINDOW_SIZE)`.  An index at or past the table's end is rejected, and
    /// a decode failure is propagated with the window left empty.
    pub fn get_row(&mut self, global_index: usize) -> (r: Result<MaterializedRow, ViewerError>)
        requires
            old(self).wf(),
        ensures
            final(self).wf(),
            final(self).cache.meta == old(self).cache.meta,
            final(self).dec == old(self).dec,
            match r {
                Ok(row) => {
                    &&& (global_index as int) < old(self).total()
                    &&& row.rep() == mat_rep(
                        row_at(old(self).dec.contents(), global_index as int),
                        old(self).cache.meta.fields@,
                    )
                    &&& row.rep().len() == old(self).cache.meta.fields@.len()
                    &&& final(self).hit(global_index as int)
                },
                Err(ViewerError::IndexOutOfRange) => global_index >= old(self).total()
                    && *final(self) == *old(self),
                Err(ViewerError::DecodeError) => (global_index as int) < old(self).total()
                    && final(self).cache.window is None,
                Err(ViewerError::OpenError) => false,
            },
            old(self).hit(global_index as int) && (global_index as int) < old(self).total()
                ==> *final(self) == *old(self) && (r matches Ok(_)),
            !old(self).hit(global_index as int) && (r matches Ok(_))
                ==> final(self).cache.decode_passes == (if old(self).cache.decode_passes
                < u64::MAX {
                old(self).cache.decode_passes + 1
            } else {
                u64::MAX as int
            }),
    {
        match self.cache.lookup(global_index) {
            Ok(Some(row)) => {
                return Ok(row);
            },
            Ok(None) => (),
            Err(e) => {
                return Err(e);
            },
        }
        let ws = window_start_of(global_index);
        self.cache.clear();
        let raws = match refill_raws(&self.dec, &self.cache.meta, ws) {
            Ok(raws) => raws,
            Err(e) => {
                return Err(e);
            },
        };
        let ok = self.cache.install_window(ws, raws);
        proof {
            assert(ok);
        }
        match self.cache.lookup(global_index) {
            Ok(Some(row)) => Ok(row),
            _ => {
                proof {
                    assert(false);
                }
                Err(ViewerError::DecodeError)
            },
        }
    }
}

} // verus!
