use vstd::prelude::*;

verus! {

/// How far an iteration over a dataset has come.
#[derive(Clone, Copy, Debug, PartialEq, Eq, Structural)]
pub struct Progress {
    pub items_processed: usize,
    pub items_total: usize,
}

/// One item handed to a [`Logger`], with where in training it was produced.
pub struct LogItem<T> {
    pub progress: Progress,
    pub item: T,
    pub epoch: Option<usize>,
    pub epoch_total: Option<usize>,
    pub iteration: Option<usize>,
}

impl<T> LogItem<T> {
    pub fn new(item: T, progress: Progress) -> (r: LogItem<T>)
        ensures
            r.item == item,
            r.progress == progress,
            r.epoch is None,
            r.epoch_total is None,
            r.iteration is None,
    {
        LogItem { epoch: None, epoch_total: None, iteration: None, progress, item }
    }

    pub fn iteration(self, iteration: usize) -> (r: LogItem<T>)
        ensures
            r == (LogItem { iteration: Some(iteration), ..self }),
    {
        let mut s = self;
        s.iteration = Some(iteration);
        s
    }

    pub fn epoch(self, epoch: usize) -> (r: LogItem<T>)
        ensures
            r == (LogItem { epoch: Some(epoch), ..self }),
    {
        let mut s = self;
        s.epoch = Some(epoch);
        s
    }

    pub fn epoch_total(self, epoch: usize) -> (r: LogItem<T>)
        ensures
            r == (LogItem { epoch_total: Some(epoch), ..self }),
    {
        let mut s = self;
        s.epoch_total = Some(epoch);
        s
    }
}

/// A sink for training log items.
pub trait Logger<T>: Send {
    fn log(&mut self, item: LogItem<T>);

    fn clear(&mut self);
}

} // verus!
