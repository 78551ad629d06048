//! What surrounds one call of the model: checking the input, joining it to
//! the context kept from the call before, and keeping what the call leaves.

use vstd::prelude::*;
use crate::vad::hysteresis::window_size_at;
use crate::vad::silero_vad::{
    SileroVadDetector,
    VadError,
    STATE_WORDS,
    supported_rate,
    zeros,
    zero_words,
};

verus! {

/// The rows of a batch as sequences of words.
pub open spec fn rows_of(rows: Seq<Vec<u32>>) -> Seq<Seq<u32>> {
    rows.map_values(|row: Vec<u32>| row@)
}

/// The rate is a multiple of 16000 above 16000, which the detector thins
/// out to 16000.
pub open spec fn is_multiple_rate(sampling_rate: int) -> bool {
    sampling_rate > 16000 && sampling_rate % 16000 == 0
}

/// Every how many samples one is kept.
pub open spec fn stride_of(sampling_rate: int) -> int {
    if is_multiple_rate(sampling_rate) {
        sampling_rate / 16000
    } else {
        1
    }
}

/// The rate that the model is called at.
pub open spec fn effective_rate(sampling_rate: int) -> int {
    if is_multiple_rate(sampling_rate) {
        16000
    } else {
        sampling_rate
    }
}

/// Every `stride`-th sample of `row`, from the first on.
pub open spec fn decimated(row: Seq<u32>, stride: int) -> Seq<u32> {
    Seq::new(((row.len() + stride - 1) / stride) as nat, |j: int| row[j * stride])
}

/// The batch with each row thinned out for the rate.
pub open spec fn validated_rows(x: Seq<Seq<u32>>, sampling_rate: int) -> Seq<Seq<u32>> {
    x.map_values(|row: Seq<u32>| decimated(row, stride_of(sampling_rate)))
}

/// A row of `length` samples is too short at `rate`: the rate is more than
/// 31.25 times the length.
pub open spec fn too_short(rate: int, length: int) -> bool {
    4 * rate > 125 * length
}

/// Why a batch at a rate is refused, if it is.
pub open spec fn validation_error(x: Seq<Seq<u32>>, sampling_rate: int) -> Option<VadError> {
    if !supported_rate(effective_rate(sampling_rate)) {
        Some(VadError::UnsupportedSampleRate)
    } else if x.len() > 0 && too_short(
        effective_rate(sampling_rate),
        validated_rows(x, sampling_rate)[0].len() as int,
    ) {
        Some(VadError::InputTooShort)
    } else {
        None
    }
}

/// The number of samples kept from one model input for the next.
pub open spec fn context_size_at(rate: int) -> int {
    if rate == 16000 {
        64
    } else {
        32
    }
}

/// A grid of `rows` rows of `columns` zero words.
pub open spec fn zero_grid(rows: int, columns: int) -> Seq<Seq<u32>> {
    Seq::new(rows as nat, |i: int| zeros(columns))
}

/// The grid holds no word: it has no row, or its rows are empty.
pub open spec fn is_empty_grid(grid: Seq<Seq<u32>>) -> bool {
    grid.len() == 0 || grid[0].len() == 0
}

/// Each row of `a` followed by the row of `b` with the same index, if there
/// is one; `b` itself where `a` holds no word.
pub open spec fn concatenated(a: Seq<Seq<u32>>, b: Seq<Seq<u32>>) -> Seq<Seq<u32>> {
    if is_empty_grid(a) {
        b
    } else {
        Seq::new(
            a.len(),
            |i: int|
                if i < b.len() {
                    a[i] + b[i]
                } else {
                    a[i]
                },
        )
    }
}

/// The last `size` words of each row; zeros for a row that is shorter.
pub open spec fn last_columns(rows: Seq<Seq<u32>>, size: int) -> Seq<Seq<u32>> {
    rows.map_values(
        |row: Seq<u32>|
            if size <= row.len() {
                row.subrange(row.len() - size, row.len() as int)
            } else {
                zeros(size)
            },
    )
}

/// All rows, one behind the other.
pub open spec fn flattened(rows: Seq<Seq<u32>>) -> Seq<u32>
    decreases rows.len(),
{
    if rows.len() == 0 {
        Seq::empty()
    } else {
        flattened(rows.drop_last()) + rows.last()
    }
}

/// What the model is called with: a tensor of `batch` rows of `width`
/// samples each, row by row in `data`, at `rate`.
pub struct ModelInput {
    pub rows: Vec<Vec<u32>>,
    pub data: Vec<u32>,
    pub batch: usize,
    pub width: usize,
    pub rate: i32,
}

impl ModelInput {
    /// The tensor has one row for each row of the batch.
    pub open spec fn wf(self) -> bool {
        self.batch == self.rows@.len()
    }
}

/// A copy of `row` behind `target`.
pub fn append_words(target: &mut Vec<u32>, row: &Vec<u32>)
    ensures
        final(target)@ == old(target)@ + row@,
{
    let mut j: usize = 0;
    while j < row.len()
        invariant
            j <= row.len(),
            target@ == old(target)@ + row@.take(j as int),
        decreases row.len() - j,
    {
        target.push(row[j]);
        assert(row@.take(j + 1) =~= row@.take(j as int).push(row@[j as int]));
        j += 1;
    }
    assert(row@.take(row.len() as int) =~= row@);
}

/// Every `stride`-th sample of `row`.
pub fn decimate(row: &Vec<u32>, stride: usize) -> (kept: Vec<u32>)
    requires
        stride > 0,
    ensures
        kept@ == decimated(row@, stride as int),
{
    let length = row.len();
    let whole = length / stride;
    let rest = length % stride;
    assert(whole * stride + rest == length && (rest != 0 ==> whole < length)
        && (length + stride - 1) / (stride as int) == if rest != 0 {
        whole + 1
    } else {
        whole as int
    }) by (nonlinear_arith)
        requires
            stride > 0,
            length >= 0,
            whole == length / stride,
            rest == length % stride,
    ;
    let count = if rest != 0 {
        whole + 1
    } else {
        whole
    };
    let mut kept: Vec<u32> = Vec::new();
    let mut j: usize = 0;
    while j < count
        invariant
            j <= count,
            stride > 0,
            length == row.len(),
            count == (length + stride - 1) / (stride as int),
            kept.len() == j,
            forall|m: int| 0 <= m < j ==> kept@[m] == row@[m * stride],
        decreases count - j,
    {
        assert(j * stride < length) by (nonlinear_arith)
            requires
                0 <= j < count,
                count == (length + stride - 1) / (stride as int),
                stride > 0,
        ;
        kept.push(row[j * stride]);
        j += 1;
    }
    assert(kept@ =~= decimated(row@, stride as int));
    kept
}

/// Checks a batch at a rate. A rate that is a multiple of 16000 above 16000
/// has each row thinned out to 16000. Any rate but 8000 and 16000 is then
/// refused, and so is a batch whose first row is too short for the rate.
pub fn validate_input(x: &[Vec<u32>], sr: i32) -> (checked: Result<(Vec<Vec<u32>>, i32), VadError>)
    ensures
        match checked {
            Ok((rows, rate)) => {
                &&& validation_error(rows_of(x@), sr as int).is_none()
                &&& rows_of(rows@) == validated_rows(rows_of(x@), sr as int)
                &&& rate == effective_rate(sr as int)
            },
            Err(error) => validation_error(rows_of(x@), sr as int) == Some(error),
        },
{
    let multiple = sr > 16000 && sr % 16000 == 0;
    let stride: usize = if multiple {
        (sr / 16000) as usize
    } else {
        1
    };
    let rate: i32 = if multiple {
        16000
    } else {
        sr
    };
    if rate != 8000 && rate != 16000 {
        return Err(VadError::UnsupportedSampleRate);
    }
    let mut rows: Vec<Vec<u32>> = Vec::new();
    let mut i: usize = 0;
    while i < x.len()
        invariant
            i <= x.len(),
            stride == stride_of(sr as int),
            rows.len() == i,
            forall|m: int|
                0 <= m < i ==> (#[trigger] rows@[m])@ == decimated(x@[m]@, stride_of(sr as int)),
        decreases x.len() - i,
    {
        rows.push(decimate(&x[i], stride));
        i += 1;
    }
    assert(rows_of(rows@) =~= validated_rows(rows_of(x@), sr as int));
    assert(rows@.len() > 0 ==> rows@[0]@ == rows_of(rows@)[0]);
    if rows.len() > 0 && 4 * (rate as i128) > 125 * (rows[0].len() as i128) {
        return Err(VadError::InputTooShort);
    }
    Ok((rows, rate))
}

/// Each row of `a` followed by the row of `b` with the same index.
pub fn concatenate(a: &Vec<Vec<u32>>, b: &Vec<Vec<u32>>) -> (joined: Vec<Vec<u32>>)
    ensures
        rows_of(joined@) == concatenated(rows_of(a@), rows_of(b@)),
{
    let empty = a.len() == 0 || a[0].len() == 0;
    let mut joined: Vec<Vec<u32>> = Vec::new();
    let count = if empty {
        b.len()
    } else {
        a.len()
    };
    let mut i: usize = 0;
    while i < count
        invariant
            i <= count,
            empty == is_empty_grid(rows_of(a@)),
            count == if empty {
                b.len()
            } else {
                a.len()
            },
            joined.len() == i,
            forall|m: int|
                0 <= m < i ==> (#[trigger] joined@[m])@ == concatenated(rows_of(a@), rows_of(b@))[m],
        decreases count - i,
    {
        let mut row: Vec<u32> = Vec::new();
        if !empty {
            append_words(&mut row, &a[i]);
        }
        if i < b.len() {
            append_words(&mut row, &b[i]);
        }
        proof {
            let wanted = concatenated(rows_of(a@), rows_of(b@))[i as int];
            assert(row@ =~= wanted);
        }
        joined.push(row);
        i += 1;
    }
    assert(rows_of(joined@) =~= concatenated(rows_of(a@), rows_of(b@)));
    joined
}

/// The last `context_size` words of each row.
pub fn get_last_columns(array: &Vec<Vec<u32>>, context_size: usize) -> (kept: Vec<Vec<u32>>)
    ensures
        rows_of(kept@) == last_columns(rows_of(array@), context_size as int),
{
    let mut kept: Vec<Vec<u32>> = Vec::new();
    let mut i: usize = 0;
    while i < array.len()
        invariant
            i <= array.len(),
            kept.len() == i,
            forall|m: int|
                0 <= m < i ==> (#[trigger] kept@[m])@ == last_columns(
                    rows_of(array@),
                    context_size as int,
                )[m],
        decreases array.len() - i,
    {
        let row = &array[i];
        let columns = row.len();
        let mut tail: Vec<u32> = Vec::new();
        if context_size <= columns {
            let start = columns - context_size;
            let mut j: usize = 0;
            while j < context_size
                invariant
                    j <= context_size,
                    start + context_size == columns,
                    columns == row.len(),
                    tail.len() == j,
                    forall|m: int| 0 <= m < j ==> tail@[m] == row@[start + m],
                decreases context_size - j,
            {
                tail.push(row[start + j]);
                j += 1;
            }
            assert(tail@ =~= row@.subrange(columns - context_size, columns as int));
        } else {
            tail = zero_words(context_size);
        }
        kept.push(tail);
        i += 1;
    }
    assert(rows_of(kept@) =~= last_columns(rows_of(array@), context_size as int));
    kept
}

/// All rows, one behind the other.
pub fn flatten(rows: &Vec<Vec<u32>>) -> (data: Vec<u32>)
    ensures
        data@ == flattened(rows_of(rows@)),
{
    let mut data: Vec<u32> = Vec::new();
    let mut i: usize = 0;
    assert(rows_of(rows@).take(0) =~= Seq::<Seq<u32>>::empty());
    while i < rows.len()
        invariant
            i <= rows.len(),
            data@ == flattened(rows_of(rows@).take(i as int)),
        decreases rows.len() - i,
    {
        append_words(&mut data, &rows[i]);
        proof {
            let seen = rows_of(rows@).take(i + 1);
            assert(seen.drop_last() =~= rows_of(rows@).take(i as int));
            assert(seen.last() == rows@[i as int]@);
        }
        i += 1;
    }
    assert(rows_of(rows@).take(rows.len() as int) =~= rows_of(rows@));
    data
}

/// A grid of `rows` rows of `columns` zero words.
pub fn zero_rows(rows: usize, columns: usize) -> (grid: Vec<Vec<u32>>)
    ensures
        rows_of(grid@) == zero_grid(rows as int, columns as int),
{
    let mut grid: Vec<Vec<u32>> = Vec::new();
    let mut i: usize = 0;
    while i < rows
        invariant
            i <= rows,
            grid.len() == i,
            forall|m: int| 0 <= m < i ==> (#[trigger] grid@[m])@ == zeros(columns as int),
        decreases rows - i,
    {
        grid.push(zero_words(columns));
        i += 1;
    }
    assert(rows_of(grid@) =~= zero_grid(rows as int, columns as int));
    grid
}

impl SileroVadDetector {
    /// A call at `rate` with `batch` rows cannot go on from what the call
    /// before left: there was none, or it was at another rate or with
    /// another number of rows.
    pub open spec fn stale(self, rate: int, batch: int) -> bool {
        ||| self.last_batch_size == 0
        ||| (self.last_sr != 0 && self.last_sr != rate)
        ||| self.last_batch_size != batch
    }

    /// The context that a call at `rate` with `batch` rows starts from.
    pub open spec fn context_for(self, rate: int, batch: int) -> Seq<Seq<u32>> {
        if self.stale(rate, batch) || is_empty_grid(rows_of(self.context@)) {
            zero_grid(batch, context_size_at(rate))
        } else {
            rows_of(self.context@)
        }
    }

    /// The rows that the model is called with for the batch `x` at `sr`.
    pub open spec fn input_rows(self, x: Seq<Seq<u32>>, sr: int) -> Seq<Seq<u32>> {
        concatenated(
            self.context_for(effective_rate(sr), x.len() as int),
            validated_rows(x, sr),
        )
    }

    /// Why the batch `x` at `sr` cannot be handed to the model, if it
    /// cannot: the batch is refused, its first row is not one window long,
    /// or its rows do not make up a tensor.
    pub open spec fn call_error(self, x: Seq<Seq<u32>>, sr: int) -> Option<VadError> {
        let rows = self.input_rows(x, sr);
        if validation_error(x, sr).is_some() {
            validation_error(x, sr)
        } else if validated_rows(x, sr)[0].len() != window_size_at(effective_rate(sr)) {
            Some(VadError::TensorShapeMismatch)
        } else if flattened(rows).len() != rows.len() * rows[0].len() {
            Some(VadError::TensorShapeMismatch)
        } else {
            None
        }
    }

    /// Prepares one call of the model for the batch `x` at `sr`.
    ///
    /// A batch that is refused, or whose first row is not one window long,
    /// leaves the detector as it was. Otherwise the detector is reset if
    /// the call cannot go on from the one before, a missing context becomes
    /// zeros, and the rows of the batch are joined to the context.
    pub fn prepare_call(&mut self, x: &[Vec<u32>], sr: i32) -> (prepared: Result<
        ModelInput,
        VadError,
    >)
        requires
            old(self).wf(),
            x@.len() > 0,
        ensures
            final(self).wf(),
            final(self).params == old(self).params,
            final(self).audio_length_samples == old(self).audio_length_samples,
            match prepared {
                Ok(input) => {
                    &&& old(self).call_error(rows_of(x@), sr as int).is_none()
                    &&& rows_of(input.rows@) == old(self).input_rows(rows_of(x@), sr as int)
                    &&& input.data@ == flattened(rows_of(input.rows@))
                    &&& input.wf()
                    &&& input.batch == x@.len()
                    &&& input.width == input.rows@[0]@.len()
                    &&& input.rate == effective_rate(sr as int)
                },
                Err(error) => old(self).call_error(rows_of(x@), sr as int) == Some(error),
            },
            validation_error(rows_of(x@), sr as int).is_some() || validated_rows(
                rows_of(x@),
                sr as int,
            )[0].len() != window_size_at(effective_rate(sr as int)) ==> *final(self) == *old(self),
            validation_error(rows_of(x@), sr as int).is_none() && validated_rows(
                rows_of(x@),
                sr as int,
            )[0].len() == window_size_at(effective_rate(sr as int)) ==> {
                let rate = effective_rate(sr as int);
                let batch = x@.len() as int;
                &&& rows_of(final(self).context@) == old(self).context_for(rate, batch)
                &&& if old(self).stale(rate, batch) {
                    &&& final(self).state@ == zeros(STATE_WORDS as int)
                    &&& final(self).last_sr == 0
                    &&& final(self).last_batch_size == 0
                } else {
                    &&& final(self).state == old(self).state
                    &&& final(self).last_sr == old(self).last_sr
                    &&& final(self).last_batch_size == old(self).last_batch_size
                }
            },
    {
        let (rows, rate) = match validate_input(x, sr) {
            Ok(checked) => checked,
            Err(error) => {
                return Err(error);
            },
        };
        let number_samples: usize = if rate == 16000 {
            512
        } else {
            256
        };
        assert(rows@[0]@ == rows_of(rows@)[0]);
        if rows[0].len() != number_samples {
            return Err(VadError::TensorShapeMismatch);
        }
        let batch_size = rows.len();
        let context_size: usize = if rate == 16000 {
            64
        } else {
            32
        };
        let stale = self.last_batch_size == 0 || (self.last_sr != 0 && self.last_sr != rate)
            || self.last_batch_size != batch_size;
        if stale {
            self.reset_states();
        }
        let ghost kept = rows_of(self.context@);
        if self.context.len() == 0 || self.context[0].len() == 0 {
            self.context = zero_rows(batch_size, context_size);
        }
        assert(rows_of(self.context@) == old(self).context_for(rate as int, batch_size as int)) by {
            if self.context@.len() > 0 {
                assert(rows_of(self.context@)[0] == self.context@[0]@);
            }
            if kept.len() > 0 {
                assert(kept[0] == old(self).context@[0]@ || stale);
            }
        }
        let joined = concatenate(&self.context, &rows);
        let data = flatten(&joined);
        let ghost wanted = rows_of(joined@);
        assert(wanted.len() == joined@.len() == batch_size);
        assert(joined@[0]@ == wanted[0]);
        let height = joined.len();
        let columns = joined[0].len();
        let product = height.checked_mul(columns);
        let total = data.len();
        let shaped = match product {
            Some(expected) => total == expected,
            None => false,
        };
        assert(shaped == (total == height * columns));
        assert(wanted.len() * wanted[0].len() == height * columns) by (nonlinear_arith)
            requires
                wanted.len() == height,
                wanted[0].len() == columns,
        ;
        assert(wanted == old(self).input_rows(rows_of(x@), sr as int));
        assert(shaped == (flattened(wanted).len() == wanted.len() * wanted[0].len()));
        if !shaped {
            return Err(VadError::TensorShapeMismatch);
        }
        let width = joined[0].len();
        Ok(ModelInput { rows: joined, data, batch: batch_size, width, rate })
    }

    /// Keeps what one call of the model leaves: the state that the model
    /// returned, and the last samples of each row of its input as the
    /// context of the next call. A state that has not the shape of the
    /// recurrent state is refused and leaves the detector as it was.
    pub fn complete_call(&mut self, input: &ModelInput, new_state: Vec<u32>) -> (kept: Result<
        (),
        VadError,
    >)
        requires
            old(self).wf(),
            input.wf(),
        ensures
            final(self).wf(),
            kept.is_ok() <==> new_state@.len() == STATE_WORDS,
            kept.is_err() ==> kept == Err::<(), VadError>(VadError::TensorShapeMismatch)
                && *final(self) == *old(self),
            kept.is_ok() ==> {
                &&& final(self).params == old(self).params
                &&& final(self).audio_length_samples == old(self).audio_length_samples
                &&& final(self).state@ == new_state@
                &&& rows_of(final(self).context@) == last_columns(
                    rows_of(input.rows@),
                    context_size_at(input.rate as int),
                )
                &&& final(self).last_sr == input.rate
                &&& final(self).last_batch_size == input.batch
            },
    {
        if new_state.len() != STATE_WORDS {
            return Err(VadError::TensorShapeMismatch);
        }
        let context_size: usize = if input.rate == 16000 {
            64
        } else {
            32
        };
        self.context = get_last_columns(&input.rows, context_size);
        assert(rows_of(self.context@).len() == self.context@.len());
        assert(rows_of(input.rows@).len() == input.rows@.len());
        self.last_sr = input.rate;
        self.last_batch_size = input.batch;
        self.state = new_state;
        Ok(())
    }
}

} // verus!
