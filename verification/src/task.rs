//! The traffic between a pager and whoever performs its I/O.
//!
//! An operation that needs I/O returns [`Turn::Ask`] with a [`Request`] and a
//! task.  The caller performs the request and hands the task back, with the
//! [`IoEvent`] that says how it went, until the operation is [`Turn::Done`].

use vstd::prelude::*;

use crate::error::MappedPageError;
use crate::plan::{Step, StepView, steps_of};

verus! {

/// What a pager asks for.
#[derive(Debug)]
pub enum Request {
    /// Carry out the steps in order, up to the first that fails.
    Apply(Vec<Step>),
    /// Drop the map and make the file this many bytes long.
    SetLen(u64),
    /// Map the whole file.
    Remap,
}

#[verifier::ext_equal]
pub enum RequestView {
    Apply(Seq<StepView>),
    SetLen(u64),
    Remap,
}

impl View for Request {
    type V = RequestView;

    open spec fn view(&self) -> RequestView {
        match self {
            Request::Apply(steps) => RequestView::Apply(steps_of(steps@)),
            Request::SetLen(len) => RequestView::SetLen(*len),
            Request::Remap => RequestView::Remap,
        }
    }
}

/// How a request went.
#[derive(Debug)]
pub enum IoEvent {
    Done,
    /// The request failed.  Of a list of steps, the first `completed` were
    /// carried out and the next one failed.
    Failed { completed: usize, error: std::io::Error },
}

/// Where an operation stands that results in a `T`, or in an error of type `E`,
/// and goes on with a `K`.
#[derive(Debug)]
pub enum Turn<T, K, E = MappedPageError> {
    Done(Result<T, E>),
    Ask(Request, K),
}

/// A doubling of the file that is under way.
#[derive(Debug)]
pub enum GrowTask {
    /// The file is being made longer.
    SetLen,
    /// The longer file is being mapped.
    Remap,
    /// The file could not be made longer and is being mapped as it was.
    Restore(std::io::Error),
    /// The longer file could not be mapped and is being made shorter again.
    Rollback(std::io::Error),
}

#[derive(Debug)]
pub enum GrowTurn {
    Grown,
    Failed(MappedPageError),
    Ask(Request, GrowTask),
}

/// A reservation of pages that waits for the file to grow.
#[derive(Debug)]
pub struct ReserveTask {
    /// The pages reserved so far.
    pub got: Vec<u64>,
    /// How many pages are wanted in all.
    pub want: usize,
    pub grow: GrowTask,
}

#[verifier::ext_equal]
pub struct ReserveTaskView {
    pub got: Seq<u64>,
    pub want: usize,
    pub grow: GrowTask,
}

impl View for ReserveTask {
    type V = ReserveTaskView;

    open spec fn view(&self) -> ReserveTaskView {
        ReserveTaskView { got: self.got@, want: self.want, grow: self.grow }
    }
}

#[derive(Debug)]
pub enum ReserveTurn {
    Reserved(Vec<u64>),
    /// The file could not grow; the pages reserved so far stay reserved.
    Failed(Vec<u64>, MappedPageError),
    Ask(Request, ReserveTask),
}

#[verifier::ext_equal]
pub enum ReserveTurnView {
    Reserved(Seq<u64>),
    Failed(Seq<u64>, MappedPageError),
    Ask(Request, ReserveTaskView),
}

impl View for ReserveTurn {
    type V = ReserveTurnView;

    open spec fn view(&self) -> ReserveTurnView {
        match self {
            ReserveTurn::Reserved(ids) => ReserveTurnView::Reserved(ids@),
            ReserveTurn::Failed(ids, e) => ReserveTurnView::Failed(ids@, *e),
            ReserveTurn::Ask(request, task) => ReserveTurnView::Ask(*request, task@),
        }
    }
}

} // verus!
