use vstd::prelude::*;
use crate::integration_methods::row_filled;
use crate::scalar::from_whole;
use crate::scalar::Scalar;

verus! {

/// What is to be saved of a run.
#[derive(Clone)]
pub enum SaveItems {
    /// Every observable of every node against time.
    Timeseries,
    /// Within each node, the second observable of each pair against the first.
    ParametricCurve2d { variable_pairs: Vec<[usize; 2]> },
    /// Both.
    TimeseriesAndParametricCurve2d { variable_pairs: Vec<[usize; 2]> },
}

/// What there is to do with a segment once it is full.
#[derive(Clone, Copy, Debug, PartialEq, Eq)]
pub enum Saving {
    Timeseries,
    ParametricCurves,
    Both,
}

impl SaveItems {
    /// What there is to do with a segment once it is full.
    pub open spec fn saving_spec(&self) -> Saving {
        match self {
            SaveItems::Timeseries => Saving::Timeseries,
            SaveItems::ParametricCurve2d { .. } => Saving::ParametricCurves,
            SaveItems::TimeseriesAndParametricCurve2d { .. } => Saving::Both,
        }
    }

    /// What there is to do with a segment once it is full.
    pub fn saving(&self) -> (saving: Saving)
        ensures
            saving == self.saving_spec(),
    {
        match self {
            SaveItems::Timeseries => Saving::Timeseries,
            SaveItems::ParametricCurve2d { .. } => Saving::ParametricCurves,
            SaveItems::TimeseriesAndParametricCurve2d { .. } => Saving::Both,
        }
    }
}

/// A segment of output in the making: one row for each step and in each row one column
/// for each observable of each node, together with the time at which the segment starts.
pub struct Timeseries<R> {
    dt: R,
    num_nodes: usize,
    num_variables: usize,
    segment_start_time: R,
    segment: Vec<Vec<R>>,
}

impl<R: Scalar> Timeseries<R> {
    /// The rows of the segment.
    pub closed spec fn rows(&self) -> Seq<Seq<R>> {
        Seq::new(self.segment@.len(), |r: int| self.segment@[r]@)
    }

    /// The time at which the segment starts: row `r` stands for `start_time + (r + 1) dt`.
    pub closed spec fn start_time(&self) -> R {
        self.segment_start_time
    }

    /// The step width between two rows.
    pub closed spec fn step(&self) -> R {
        self.dt
    }

    pub closed spec fn nodes(&self) -> usize {
        self.num_nodes
    }

    /// How many observables each node has.
    pub closed spec fn variables(&self) -> usize {
        self.num_variables
    }

    /// A segment of `segment_size` rows for `num_nodes` nodes with `dim_save_state`
    /// observables each, every entry `fill`. `None` where a row would be longer than the
    /// machine can count.
    pub fn new(dt: R, num_nodes: usize, dim_save_state: usize, segment_size: usize, fill: R) -> (made:
        Option<Self>)
        ensures
            made is None <==> num_nodes * dim_save_state > usize::MAX,
            made matches Some(series) ==> {
                &&& series.step() == dt
                &&& series.nodes() == num_nodes
                &&& series.variables() == dim_save_state
                &&& series.start_time() == fill
                &&& series.rows() == Seq::new(
                    segment_size as nat,
                    |r: int| Seq::new((num_nodes * dim_save_state) as nat, |c: int| fill),
                )
            },
    {
        let full_dimension = match num_nodes.checked_mul(dim_save_state) {
            Some(width) => width,
            None => {
                return None;
            },
        };
        let mut segment: Vec<Vec<R>> = Vec::new();
        let mut r: usize = 0;
        while r < segment_size
            invariant
                r <= segment_size,
                segment@.len() == r,
                forall|q: int|
                    0 <= q < r ==> (#[trigger] segment@[q])@ == Seq::new(
                        full_dimension as nat,
                        |c: int| fill,
                    ),
            decreases segment_size - r,
        {
            let mut row: Vec<R> = Vec::new();
            let mut c: usize = 0;
            while c < full_dimension
                invariant
                    c <= full_dimension,
                    row@.len() == c,
                    forall|d: int| 0 <= d < c ==> #[trigger] row@[d] == fill,
                decreases full_dimension - c,
            {
                row.push(fill);
                c += 1;
            }
            assert(row@ =~= Seq::new(full_dimension as nat, |c: int| fill));
            segment.push(row);
            r += 1;
        }
        let made = Timeseries {
            dt,
            num_nodes,
            num_variables: dim_save_state,
            segment_start_time: fill,
            segment,
        };
        assert(made.rows() =~= Seq::new(
            segment_size as nat,
            |r: int| Seq::new((num_nodes * dim_save_state) as nat, |c: int| fill),
        ));
        Some(made)
    }

    /// The rows of the segment.
    pub fn segment(&self) -> (rows: &Vec<Vec<R>>)
        ensures
            rows@.len() == self.rows().len(),
            forall|r: int| 0 <= r < rows@.len() ==> (#[trigger] rows@[r])@ == self.rows()[r],
    {
        &self.segment
    }

    /// How many rows the segment has.
    pub fn segment_len(&self) -> (len: usize)
        ensures
            len == self.rows().len(),
    {
        self.segment.len()
    }

    /// The time at which the segment starts.
    pub fn segment_start_time(&self) -> (time: R)
        ensures
            time == self.start_time(),
    {
        self.segment_start_time
    }

    /// Sets the time at which the segment starts.
    pub fn update_time(&mut self, time: &R)
        ensures
            final(self).start_time() == *time,
            final(self).rows() == old(self).rows(),
            final(self).step() == old(self).step(),
            final(self).nodes() == old(self).nodes(),
            final(self).variables() == old(self).variables(),
    {
        self.segment_start_time = *time;
        assert(self.rows() =~= old(self).rows());
    }

    /// Writes the observables `kept` into row `row` from its start, as far as both reach.
    pub fn write_row(&mut self, row: usize, kept: &Vec<R>)
        requires
            row < old(self).rows().len(),
        ensures
            final(self).rows() == old(self).rows().update(
                row as int,
                row_filled(old(self).rows()[row as int], kept@),
            ),
            final(self).start_time() == old(self).start_time(),
            final(self).step() == old(self).step(),
            final(self).nodes() == old(self).nodes(),
            final(self).variables() == old(self).variables(),
    {
        let mut c: usize = 0;
        let ghost before = self.segment@[row as int]@;
        while c < self.segment[row].len() && c < kept.len()
            invariant
                row < self.segment@.len(),
                self.segment@.len() == old(self).segment@.len(),
                self.dt == old(self).dt,
                self.num_nodes == old(self).num_nodes,
                self.num_variables == old(self).num_variables,
                self.segment_start_time == old(self).segment_start_time,
                before == old(self).segment@[row as int]@,
                forall|q: int|
                    0 <= q < self.segment@.len() && q != row ==> #[trigger] self.segment@[q] == old(self).segment@[q],
                self.segment@[row as int]@.len() == before.len(),
                c <= before.len(),
                c <= kept@.len(),
                forall|d: int| 0 <= d < c ==> #[trigger] self.segment@[row as int]@[d] == kept@[d],
                forall|d: int|
                    c <= d < before.len() ==> #[trigger] self.segment@[row as int]@[d] == before[d],
            decreases before.len() - c,
        {
            self.segment[row].set(c, kept[c]);
            c += 1;
        }
        proof {
            assert(self.segment@[row as int]@ =~= row_filled(before, kept@));
            assert(self.rows() =~= old(self).rows().update(
                row as int,
                row_filled(old(self).rows()[row as int], kept@),
            ));
        }
    }
}

} // verus!
