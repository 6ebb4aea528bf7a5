//! The capped-sample sink of the extraction pipeline: scan a record
//! stream, keep the distinct barcode values that pass both gates, and
//! stop growing once a target number of unique values is reached.

use vstd::prelude::*;

use dashmap::DashSet;

use crate::error::AppError;
use crate::matcher::{
    all_bases, fail_quality_filter, fail_sequence_filter, fails_pattern, process_barcode,
    spec_fail_quality, spec_revcomp,
};
use crate::pipeline::{first_invalid_base, SequencingRecord};
use crate::position::Position;
use crate::shared_set::{shared_set_contents, shared_set_insert, shared_set_into_vec,
    shared_set_new};

verus! {

/// Ghost image of the sampling run: values kept so far and their
/// number.
pub struct SampleStateV {
    pub seen: Set<Seq<u8>>,
    pub count: nat,
}

/// The exact region the position addresses; the sampler indexes it
/// directly, so records must reach to the region's end.
pub open spec fn exact_slice(s: Seq<u8>, pos: Position) -> Seq<u8> {
    s.subrange(pos.spec_start() as int, pos.spec_end() as int)
}

pub struct SampleStepV {
    pub state: SampleStateV,
    pub error: Option<AppError>,
}

/// One record through the sampling sink: nothing happens at or past
/// the cap; a record failing either gate is skipped; a surviving slice
/// is normalised and kept when new. An alien byte under
/// reverse-complement stops the run.
pub open spec fn sample_step_spec(
    pos: Position,
    pattern: Seq<u8>,
    capacity: nat,
    st: SampleStateV,
    rec: (Seq<u8>, Seq<u8>),
) -> SampleStepV {
    let sseq = exact_slice(rec.0, pos);
    let squal = exact_slice(rec.1, pos);
    if st.count >= capacity {
        SampleStepV { state: st, error: None }
    } else if spec_fail_quality(squal) || fails_pattern(sseq, pattern) {
        SampleStepV { state: st, error: None }
    } else if pos.spec_strand() && !all_bases(sseq) {
        SampleStepV { state: st, error: Some(AppError::InvalidBase(first_invalid_base(sseq))) }
    } else {
        let barcode = if pos.spec_strand() {
            spec_revcomp(sseq)
        } else {
            sseq
        };
        if st.seen.contains(barcode) {
            SampleStepV { state: st, error: None }
        } else {
            SampleStepV {
                state: SampleStateV { seen: st.seen.insert(barcode), count: st.count + 1 },
                error: None,
            }
        }
    }
}

pub struct SampleRunV {
    pub state: SampleStateV,
    pub error: Option<AppError>,
}

/// The whole sampling run folded over the record stream.
pub open spec fn sample_run_spec(
    pos: Position,
    pattern: Seq<u8>,
    capacity: nat,
    st: SampleStateV,
    rs: Seq<(Seq<u8>, Seq<u8>)>,
) -> SampleRunV
    decreases rs.len(),
{
    if rs.len() == 0 {
        SampleRunV { state: st, error: None }
    } else {
        let step = sample_step_spec(pos, pattern, capacity, st, rs[0]);
        match step.error {
            Some(e) => SampleRunV { state: step.state, error: Some(e) },
            None => sample_run_spec(pos, pattern, capacity, step.state, rs.drop_first()),
        }
    }
}

/// The sampling run never keeps more values than its cap, and its
/// count always counts its kept values.
pub proof fn lemma_sample_run_capped(
    pos: Position,
    pattern: Seq<u8>,
    capacity: nat,
    st: SampleStateV,
    rs: Seq<(Seq<u8>, Seq<u8>)>,
)
    requires
        st.seen.finite(),
        st.seen.len() == st.count,
        st.count <= capacity,
    ensures
        ({
            let run = sample_run_spec(pos, pattern, capacity, st, rs);
            run.state.seen.finite() && run.state.seen.len() == run.state.count
                && run.state.count <= capacity
        }),
    decreases rs.len(),
{
    if rs.len() > 0 {
        let step = sample_step_spec(pos, pattern, capacity, st, rs[0]);
        if step.error is None {
            lemma_sample_run_capped(pos, pattern, capacity, step.state, rs.drop_first());
        }
    }
}

/// The running capped sampler, holding the shared set and its size.
pub struct SampleExtractor {
    pub pos: Position,
    pub pattern: Vec<u8>,
    pub set: DashSet<Vec<u8>>,
    pub count: usize,
    pub capacity: usize,
}

impl SampleExtractor {
    pub open spec fn state_view(&self) -> SampleStateV {
        SampleStateV { seen: shared_set_contents(self.set), count: self.count as nat }
    }

    pub open spec fn wf(&self) -> bool {
        self.pos.wf() && shared_set_contents(self.set).finite() && shared_set_contents(
            self.set,
        ).len() == self.count && self.count <= self.capacity
    }

    pub fn new(pos: &Position, pattern: &[u8], capacity: usize) -> (r: Self)
        requires
            pos.wf(),
        ensures
            r.wf(),
            r.pos == *pos,
            r.pattern@ == pattern@,
            r.capacity == capacity,
            r.state_view() == (SampleStateV { seen: Set::<Seq<u8>>::empty(), count: 0nat }),
    {
        let r = SampleExtractor {
            pos: *pos,
            pattern: vstd::slice::slice_to_vec(pattern),
            set: shared_set_new(),
            count: 0,
            capacity,
        };
        r
    }

    /// One record through the sampler; the state advances exactly as
    /// the step spec says.
    pub fn step(&mut self, rec: &SequencingRecord) -> (r: Result<(), AppError>)
        requires
            old(self).wf(),
            rec.seq@.len() >= old(self).pos.spec_end(),
            rec.qual@.len() >= old(self).pos.spec_end(),
        ensures
            final(self).wf(),
            final(self).pos == old(self).pos,
            final(self).pattern == old(self).pattern,
            final(self).capacity == old(self).capacity,
            ({
                let step = sample_step_spec(
                    old(self).pos,
                    old(self).pattern@,
                    old(self).capacity as nat,
                    old(self).state_view(),
                    (rec.seq@, rec.qual@),
                );
                final(self).state_view() == step.state && (match step.error {
                    Some(e) => r == Err::<(), AppError>(e),
                    None => r is Ok,
                })
            }),
    {
        let ghost step = sample_step_spec(
            self.pos,
            self.pattern@,
            self.capacity as nat,
            self.state_view(),
            (rec.seq@, rec.qual@),
        );
        if self.count >= self.capacity {
            return Ok(());
        }
        let start = self.pos.start();
        let end = self.pos.end();
        let seq_slice = &rec.seq.as_slice()[start..end];
        let qual_slice = &rec.qual.as_slice()[start..end];
        if fail_quality_filter(qual_slice) || fail_sequence_filter(
            seq_slice,
            self.pattern.as_slice(),
        ) {
            return Ok(());
        }
        if self.pos.is_revcomp() {
            if let Some(b) = crate::pipeline::find_alien_base(seq_slice) {
                return Err(AppError::InvalidBase(b));
            }
        }
        let barcode = process_barcode(seq_slice, self.pos.is_revcomp());
        let ghost contents0 = shared_set_contents(self.set);
        let ghost bview = barcode@;
        let inserted = shared_set_insert(&mut self.set, barcode);
        if inserted {
            self.count = self.count + 1;
        } else {
            proof {
                assert(shared_set_contents(self.set) =~= contents0);
            }
        }
        Ok(())
    }

    /// Hands the kept values out, each exactly once, in an order the
    /// contract leaves open.
    pub fn into_sample(self) -> (r: Vec<Vec<u8>>)
        requires
            self.wf(),
        ensures
            r@.map_values(|v: Vec<u8>| v@).to_set() == self.state_view().seen,
            forall|i: int, j: int| 0 <= i < j < r@.len() ==> r@[i]@ != r@[j]@,
            r@.len() == self.state_view().count,
    {
        let ghost contents = shared_set_contents(self.set);
        let v = shared_set_into_vec(self.set);
        proof {
            let mapped = v@.map_values(|x: Vec<u8>| x@);
            lemma_distinct_len(mapped);
            assert(mapped.to_set() == contents);
        }
        v
    }
}

/// A sequence of pairwise distinct values has as many values as its
/// set.
proof fn lemma_distinct_len<A>(s: Seq<A>)
    requires
        forall|i: int, j: int| 0 <= i < j < s.len() ==> s[i] != s[j],
    ensures
        s.to_set().finite(),
        s.to_set().len() == s.len(),
    decreases s.len(),
{
    assert(s.no_duplicates());
    s.unique_seq_to_set();
}

/// Scans a record stream and keeps up to `capacity` distinct barcode
/// values that pass both gates; scanning past the cap never grows the
/// sample.
pub fn extract_sample_barcodes(
    pos: &Position,
    pattern: &[u8],
    records: &Vec<SequencingRecord>,
    capacity: usize,
) -> (r: Result<Vec<Vec<u8>>, AppError>)
    requires
        pos.wf(),
        forall|i: int|
            0 <= i < records@.len() ==> (#[trigger] records@[i]).seq@.len() >= pos.spec_end()
                && records@[i].qual@.len() >= pos.spec_end(),
    ensures
        ({
            let run = sample_run_spec(
                *pos,
                pattern@,
                capacity as nat,
                SampleStateV { seen: Set::empty(), count: 0 },
                records@.map_values(|x: SequencingRecord| (x.seq@, x.qual@)),
            );
            match run.error {
                Some(e) => r == Err::<Vec<Vec<u8>>, AppError>(e),
                None => r matches Ok(v) && v@.map_values(|x: Vec<u8>| x@).to_set()
                    == run.state.seen && v@.len() == run.state.count && v@.len() <= capacity
                    && (forall|i: int, j: int| 0 <= i < j < v@.len() ==> v@[i]@ != v@[j]@),
            }
        }),
{
    let ghost rs = records@.map_values(|x: SequencingRecord| (x.seq@, x.qual@));
    let ghost st0 = SampleStateV { seen: Set::<Seq<u8>>::empty(), count: 0nat };
    let ghost run = sample_run_spec(*pos, pattern@, capacity as nat, st0, rs);
    let mut ext = SampleExtractor::new(pos, pattern, capacity);
    proof {
        assert(rs.subrange(0, rs.len() as int) =~= rs);
    }
    let mut i: usize = 0;
    while i < records.len()
        invariant
            0 <= i <= records@.len(),
            rs == records@.map_values(|x: SequencingRecord| (x.seq@, x.qual@)),
            run == sample_run_spec(*pos, pattern@, capacity as nat, st0, rs),
            st0 == (SampleStateV { seen: Set::<Seq<u8>>::empty(), count: 0nat }),
            forall|k: int|
                0 <= k < records@.len() ==> (#[trigger] records@[k]).seq@.len()
                    >= pos.spec_end() && records@[k].qual@.len() >= pos.spec_end(),
            ext.wf(),
            ext.pos == *pos,
            ext.pattern@ == pattern@,
            ext.capacity == capacity,
            sample_run_spec(
                *pos,
                pattern@,
                capacity as nat,
                ext.state_view(),
                rs.subrange(i as int, rs.len() as int),
            ) == run,
        decreases records@.len() - i,
    {
        let ghost rest = rs.subrange(i as int, rs.len() as int);
        let ghost st_before = ext.state_view();
        proof {
            assert(rest[0] == rs[i as int]);
            assert(rs[i as int] == (records@[i as int].seq@, records@[i as int].qual@));
            assert(rest.drop_first() =~= rs.subrange(i + 1, rs.len() as int));
        }
        let rec = &records[i];
        match ext.step(rec) {
            Err(e) => {
                proof {
                    assert(run.error == Some(e));
                }
                return Err(e);
            },
            Ok(()) => {
            },
        }
        i += 1;
    }
    proof {
        assert(rs.subrange(i as int, rs.len() as int) =~= Seq::<(Seq<u8>, Seq<u8>)>::empty());
        assert(run.error is None);
        assert(run.state == ext.state_view());
    }
    let sample = ext.into_sample();
    Ok(sample)
}

} // verus!
