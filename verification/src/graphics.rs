//! What the engine and the training loop offer to a display: frames to
//! draw, handed out on request.

pub mod map;

use crate::algogen::AlgoGen;
use crate::problems::{GenericSol, ManyStepProblem, SingleStepProblem};
use vstd::prelude::*;

verus! {

/// A rectangle to draw: place, size and colour, seven numbers in all.
pub type Entity = [i64; 7];

/// The rectangles of one picture.
pub type Frame = Vec<Entity>;

/// One instruction to a display.
#[derive(Debug, Clone)]
pub enum DrawInstruction {
    /// Draw these rectangles.
    Frame(Vec<Entity>),
    /// The world that follows has this width and height.
    WorldSize([usize; 2]),
}

/// The instructions that wait for the display.
pub struct ToDraw(pub Vec<DrawInstruction>);

/// A problem that can show how a solution fares on it.
pub trait SingleStepDrawable: SingleStepProblem {
    /// The instructions that show the solution at work.
    open spec fn frames(&self, sol: &GenericSol) -> Seq<DrawInstruction> {
        arbitrary()
    }

    /// The instructions that show the solution at work.
    fn get_frames(&self, sol: &GenericSol) -> (frames: Vec<DrawInstruction>)
        requires
            self.valid(),
        ensures
            frames@ == self.frames(sol),
    ;
}

/// A step-by-step problem that can show its current state.
pub trait ManyStepDrawable: ManyStepProblem {
    /// The instructions that show the current state.
    open spec fn shown(&self) -> Seq<DrawInstruction> {
        arbitrary()
    }

    /// The instructions that show the current state.
    fn get_frames(&self) -> (frames: Vec<DrawInstruction>)
        requires
            self.valid(),
        ensures
            frames@ == self.shown(),
    ;
}

/// The engine shows its first individual at work, then its last.
impl<T: SingleStepDrawable> ManyStepDrawable for AlgoGen<T> {
    open spec fn shown(&self) -> Seq<DrawInstruction> {
        self.problem.frames(&self.pop@[0]) + self.problem.frames(&self.pop@[self.pop@.len() - 1])
    }

    fn get_frames(&self) -> (frames: Vec<DrawInstruction>) {
        let mut a: Vec<DrawInstruction> = Vec::new();
        let mut first = self.problem.get_frames(&self.pop[0]);
        a.append(&mut first);
        let mut last = self.problem.get_frames(&self.pop[self.pop.len() - 1]);
        a.append(&mut last);
        a
    }
}

} // verus!
