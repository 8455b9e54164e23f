use crate::text::{decimal_digits, decimal_string};
use vstd::prelude::*;
use vstd::string::*;

verus! {

/// The file name of the checkpoint written after `step` batches of epoch `epoch`.
pub open spec fn checkpoint_name_spec(epoch: nat, step: nat) -> Seq<char> {
    "checkpoint_epoch_"@ + decimal_digits(epoch) + "_"@ + decimal_digits(step) + ".ron"@
}

/// The file name of the checkpoint written after `step` batches of epoch `epoch`.
pub fn checkpoint_name(epoch: usize, step: usize) -> (name: String)
    ensures
        name@ == checkpoint_name_spec(epoch as nat, step as nat),
{
    let mut name = "checkpoint_epoch_".to_owned();
    let e = decimal_string(epoch);
    name.append(e.as_str());
    name.append("_");
    let s = decimal_string(step);
    name.append(s.as_str());
    name.append(".ron");
    name
}

/// Where a training run stands, seen as values.
pub struct ProgressModel {
    /// The current epoch, counted from zero.
    pub epoch: nat,
    /// Batches trained in the current epoch.
    pub step: nat,
    /// Batches trained in the whole run.
    pub total_steps: nat,
    /// A checkpoint is written every this many batches.
    pub save_every_n_steps: nat,
}

/// Counts the batches of a training run and says when a checkpoint is due.
pub struct TrainingProgress {
    epoch: usize,
    step: usize,
    total_steps: usize,
    save_every_n_steps: usize,
}

impl View for TrainingProgress {
    type V = ProgressModel;

    closed spec fn view(&self) -> ProgressModel {
        ProgressModel {
            epoch: self.epoch as nat,
            step: self.step as nat,
            total_steps: self.total_steps as nat,
            save_every_n_steps: self.save_every_n_steps as nat,
        }
    }
}

impl TrainingProgress {
    /// A run that has trained no batch yet and checkpoints every `save_every_n_steps` batches.
    pub fn new(save_every_n_steps: usize) -> (p: Self)
        ensures
            p@ == (ProgressModel { epoch: 0, step: 0, total_steps: 0, save_every_n_steps: save_every_n_steps as nat }),
    {
        TrainingProgress { epoch: 0, step: 0, total_steps: 0, save_every_n_steps }
    }

    /// Starts epoch `epoch`: its batch count starts from zero.
    pub fn start_epoch(&mut self, epoch: usize)
        ensures
            final(self)@ == (ProgressModel { epoch: epoch as nat, step: 0, ..old(self)@ }),
    {
        self.epoch = epoch;
        self.step = 0;
    }

    /// Counts one trained batch; returns the checkpoint file name where the run's batch
    /// count is a multiple of the checkpoint interval.
    pub fn record_step(&mut self) -> (checkpoint: Option<String>)
        requires
            old(self)@.save_every_n_steps > 0,
            old(self)@.step < usize::MAX,
            old(self)@.total_steps < usize::MAX,
        ensures
            final(self)@ == (ProgressModel {
                step: old(self)@.step + 1,
                total_steps: old(self)@.total_steps + 1,
                ..old(self)@
            }),
            checkpoint is Some <==> final(self)@.total_steps % final(self)@.save_every_n_steps == 0,
            checkpoint matches Some(name) ==> name@ == checkpoint_name_spec(
                final(self)@.epoch,
                final(self)@.step,
            ),
    {
        self.step = self.step + 1;
        self.total_steps = self.total_steps + 1;
        if self.total_steps % self.save_every_n_steps == 0 {
            Some(checkpoint_name(self.epoch, self.step))
        } else {
            None
        }
    }

    /// Batches trained in the current epoch.
    pub fn step(&self) -> (n: usize)
        ensures
            n == self@.step,
    {
        self.step
    }

    /// Batches trained in the whole run.
    pub fn total_steps(&self) -> (n: usize)
        ensures
            n == self@.total_steps,
    {
        self.total_steps
    }
}

} // verus!
