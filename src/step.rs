use crate::error::ModelError;
use crate::rotary::{check_positions, positions_ok};
use vstd::prelude::*;

verus! {

/// What a generation step is handed: the new tokens (`batch` rows of
/// `seq_len`), the whole context (`batch_full` rows of `seq_len_full`), and
/// the first absolute position of each row of either.
pub struct StepInput {
    pub batch: usize,
    pub seq_len: usize,
    pub batch_full: usize,
    pub seq_len_full: usize,
    pub offsets: Vec<usize>,
    pub offsets_full: Vec<usize>,
    pub no_cache: bool,
}

impl StepInput {
    /// The length of the sequence that the final pass runs over.
    pub open spec fn final_len(&self) -> nat {
        if self.no_cache {
            self.seq_len_full as nat
        } else {
            self.seq_len as nat
        }
    }

    /// The error that the step fails with before any computation, if any:
    /// rows that disagree in number or an empty final sequence are shape
    /// errors; positions are checked for the whole context, and for the new
    /// tokens when they are run on their own.
    pub open spec fn fault(&self) -> Option<ModelError> {
        if self.batch != self.batch_full {
            Some(ModelError::ShapeMismatch)
        } else if !positions_ok(self.offsets_full@, self.batch_full as nat, self.seq_len_full as nat) {
            if self.offsets_full@.len() != self.batch_full {
                Some(ModelError::ShapeMismatch)
            } else {
                Some(ModelError::UnsupportedConfiguration)
            }
        } else if !self.no_cache && !positions_ok(self.offsets@, self.batch as nat, self.seq_len as nat) {
            if self.offsets@.len() != self.batch {
                Some(ModelError::ShapeMismatch)
            } else {
                Some(ModelError::UnsupportedConfiguration)
            }
        } else if self.final_len() == 0 {
            Some(ModelError::ShapeMismatch)
        } else {
            None
        }
    }

    /// Checks the step's shapes and positions; on success, the index of the
    /// last position of the final pass, whose hidden state gives the logits.
    pub fn check(&self) -> (r: Result<usize, ModelError>)
        ensures
            self.fault() is None ==> r == Ok::<usize, ModelError>((self.final_len() - 1) as usize),
            self.fault() matches Some(e) ==> r == Err::<usize, ModelError>(e),
    {
        if self.batch != self.batch_full {
            return Err(ModelError::ShapeMismatch);
        }
        match check_positions(&self.offsets_full, self.batch_full, self.seq_len_full) {
            Ok(()) => {},
            Err(e) => {
                return Err(e);
            },
        }
        if !self.no_cache {
            match check_positions(&self.offsets, self.batch, self.seq_len) {
                Ok(()) => {},
                Err(e) => {
                    return Err(e);
                },
            }
        }
        let len = if self.no_cache {
            self.seq_len_full
        } else {
            self.seq_len
        };
        if len == 0 {
            return Err(ModelError::ShapeMismatch);
        }
        Ok(len - 1)
    }
}

} // verus!
