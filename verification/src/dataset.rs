use crate::error::ViewerError;
use crate::row::{Field, RawRow, ValModel};
use vstd::prelude::*;

verus! {

/// Sum of the first `g` row-group sizes.
pub open spec fn prefix_total(sizes: Seq<usize>, g: int) -> int
    decreases g,
{
    if g <= 0 {
        0
    } else {
        prefix_total(sizes, g - 1) + sizes[g - 1]
    }
}

pub proof fn lemma_prefix_total_mono(sizes: Seq<usize>, g1: int, g2: int)
    requires
        0 <= g1 <= g2 <= sizes.len(),
    ensures
        prefix_total(sizes, g1) <= prefix_total(sizes, g2),
    decreases g2,
{
    if g2 > g1 {
        lemma_prefix_total_mono(sizes, g1, g2 - 1);
    }
}

/// Immutable description of an open table: the ordered row-group sizes and
/// the schema, with the total row count computed once and cached.
pub struct DatasetMeta {
    pub group_sizes: Vec<usize>,
    pub fields: Vec<Field>,
    pub total: usize,
}

impl DatasetMeta {
    /// Total row count: the sum over all row groups.
    pub open spec fn total_spec(self) -> int {
        prefix_total(self.group_sizes@, self.group_sizes@.len() as int)
    }

    /// The cached total agrees with the sum over the groups.
    pub open spec fn wf(self) -> bool {
        self.total == self.total_spec()
    }

    /// Builds the metadata, caching the total row count; refuses a table
    /// whose total would not fit the machine's word.
    pub fn new(group_sizes: Vec<usize>, fields: Vec<Field>) -> (r: Option<DatasetMeta>)
        ensures
            match r {
                Some(m) => m.wf() && m.group_sizes@ == group_sizes@ && m.fields@ == fields@
                    && m.total_spec() <= usize::MAX,
                None => prefix_total(group_sizes@, group_sizes@.len() as int) > usize::MAX,
            },
    {
        let mut acc: usize = 0;
        let mut g: usize = 0;
        while g < group_sizes.len()
            invariant
                g <= group_sizes@.len(),
                acc == prefix_total(group_sizes@, g as int),
            decreases group_sizes@.len() - g,
        {
            acc = match acc.checked_add(group_sizes[g]) {
                Some(a) => a,
                None => {
                    proof {
                        lemma_prefix_total_mono(
                            group_sizes@,
                            g + 1,
                            group_sizes@.len() as int,
                        );
                    }
                    return None;
                },
            };
            g = g + 1;
        }
        Some(DatasetMeta { group_sizes, fields, total: acc })
    }

    pub fn total_rows(&self) -> (n: usize)
        requires
            self.wf(),
        ensures
            n == self.total_spec(),
    {
        self.total
    }

    pub fn field_count(&self) -> (n: usize)
        ensures
            n == self.fields@.len(),
    {
        self.fields.len()
    }

    /// The ordered field names of the schema.
    pub fn schema_fields(&self) -> (names: Vec<String>)
        ensures
            names@.len() == self.fields@.len(),
            forall|j: int|
                0 <= j < names@.len() ==> (#[trigger] names@[j])@ == self.fields@[j].name@,
    {
        let mut names: Vec<String> = Vec::new();
        let mut k: usize = 0;
        while k < self.fields.len()
            invariant
                k <= self.fields@.len(),
                names@.len() == k,
                forall|j: int|
                    0 <= j < k ==> (#[trigger] names@[j])@ == self.fields@[j].name@,
            decreases self.fields@.len() - k,
        {
            names.push(self.fields[k].name.clone());
            k = k + 1;
        }
        names
    }
}

/// Maps a global row index to its owning row group and in-group offset by
/// walking the cumulative row-group counts in order.  The first group whose
/// cumulative end exceeds the index owns it.
pub fn locate(meta: &DatasetMeta, global_index: usize) -> (r: Result<(usize, usize), ViewerError>)
    requires
        meta.wf(),
    ensures
        match r {
            Ok(p) => {
                &&& global_index < meta.total_spec()
                &&& (p.0 as int) < meta.group_sizes@.len()
                &&& prefix_total(meta.group_sizes@, p.0 as int) <= global_index
                &&& p.1 == global_index - prefix_total(meta.group_sizes@, p.0 as int)
                &&& (p.1 as int) < meta.group_sizes@[p.0 as int]
            },
            Err(e) => e == ViewerError::IndexOutOfRange && global_index >= meta.total_spec(),
        },
{
    let mut g: usize = 0;
    let mut before: usize = 0;
    while g < meta.group_sizes.len()
        invariant
            meta.wf(),
            g <= meta.group_sizes@.len(),
            before == prefix_total(meta.group_sizes@, g as int),
            global_index >= before,
        decreases meta.group_sizes@.len() - g,
    {
        let size = meta.group_sizes[g];
        proof {
            lemma_prefix_total_mono(meta.group_sizes@, g + 1, meta.group_sizes@.len() as int);
        }
        if global_index < before + size {
            return Ok((g, global_index - before));
        }
        before = before + size;
        g = g + 1;
    }
    Err(ViewerError::IndexOutOfRange)
}

/// The rows one sequential pass over a row group yields: the first `skip`
/// rows are discarded, then up to `take` rows are taken, stopping at the
/// group's end.
pub open spec fn slice_rows(grp: Seq<Seq<ValModel>>, skip: int, take: int) -> Seq<Seq<ValModel>> {
    let lo = if skip < grp.len() {
        skip
    } else {
        grp.len() as int
    };
    let hi = if skip + take < grp.len() {
        skip + take
    } else {
        grp.len() as int
    };
    grp.subrange(lo, hi)
}

/// Sequential-decode interface of an open table.  A row group decodes only
/// by a forward scan from its own start; there is no indexed seek inside a
/// group.
pub trait Decoder {
    /// The decoded contents: for each row group in order, the rows it
    /// holds, as value models.
    spec fn contents(&self) -> Seq<Seq<Seq<ValModel>>>;

    /// Decodes the named row group from its start, discarding `skip` rows,
    /// then yielding up to `take` further rows.  A failure indicates file
    /// corruption and is propagated, never skipped.
    fn decode_sequential(&self, group: usize, skip: usize, take: usize) -> (r: Result<
        Vec<RawRow>,
        ViewerError,
    >)
        requires
            group < self.contents().len(),
        ensures
            match r {
                Ok(rows) => rows@.map_values(|row: RawRow| row.model()) == slice_rows(
                    self.contents()[group as int],
                    skip as int,
                    take as int,
                ),
                Err(e) => e == ViewerError::DecodeError,
            },
    ;
}

/// A table held wholly in memory, organized as row groups: the in-memory
/// stand-in for an on-disk table.
pub struct InMemoryTable {
    pub groups: Vec<Vec<RawRow>>,
}

impl InMemoryTable {
    /// The per-group sizes, for building consistent metadata.
    pub fn group_sizes(&self) -> (sizes: Vec<usize>)
        ensures
            sizes@.len() == self.contents().len(),
            forall|g: int|
                0 <= g < sizes@.len() ==> #[trigger] sizes@[g] == self.contents()[g].len(),
    {
        let mut sizes: Vec<usize> = Vec::new();
        let mut g: usize = 0;
        while g < self.groups.len()
            invariant
                g <= self.groups@.len(),
                sizes@.len() == g,
                forall|j: int|
                    0 <= j < g ==> #[trigger] sizes@[j] == self.groups@[j]@.len(),
            decreases self.groups@.len() - g,
        {
            sizes.push(self.groups[g].len());
            g = g + 1;
        }
        sizes
    }
}

impl Decoder for InMemoryTable {
    open spec fn contents(&self) -> Seq<Seq<Seq<ValModel>>> {
        self.groups@.map_values(|grp: Vec<RawRow>| grp@.map_values(|row: RawRow| row.model()))
    }

    fn decode_sequential(&self, group: usize, skip: usize, take: usize) -> (r: Result<
        Vec<RawRow>,
        ViewerError,
    >) {
        let grp = &self.groups[group];
        let lo = if skip < grp.len() {
            skip
        } else {
            grp.len()
        };
        let hi = match skip.checked_add(take) {
            Some(s) => if s < grp.len() {
                s
            } else {
                grp.len()
            },
            None => grp.len(),
        };
        let mut rows: Vec<RawRow> = Vec::new();
        let mut i: usize = lo;
        while i < hi
            invariant
                lo <= i,
                i <= hi || i == lo,
                hi <= grp@.len(),
                rows@.len() == i - lo,
                forall|j: int|
                    0 <= j < rows@.len() ==> (#[trigger] rows@[j]).model() == grp@[lo + j].model(),
            decreases hi - i,
        {
            rows.push(grp[i].duplicate());
            i = i + 1;
        }
        proof {
            assert(rows@.map_values(|row: RawRow| row.model()) =~= slice_rows(
                self.contents()[group as int],
                skip as int,
                take as int,
            ));
        }
        Ok(rows)
    }
}

} // verus!
