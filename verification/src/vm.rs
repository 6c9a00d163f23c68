//! The part of the interpreter that iteration touches.
use vstd::prelude::*;

use crate::heap::Heap;
use crate::intern::Interns;
use crate::model::HeapModel;
use crate::resource::ResourceTracker;

verus! {

/// The interpreter, as far as iterators see it.
pub struct VM<T: ResourceTracker> {
    pub heap: Heap<T>,
    pub interns: Interns,
    /// How many frames are on the call stack.
    pub frame_depth: usize,
    /// Where the running instruction starts, by which exception handlers are found.
    pub instruction_ip: usize,
    /// How many suspensions of the collector are in force.
    pub gc_pause_depth: usize,
}

/// The state of a `VM`.
#[verifier::ext_equal]
pub struct VmModel {
    pub heap: HeapModel,
    pub interns: Interns,
    pub frames: FrameState,
    pub gc_pause_depth: nat,
}

/// Where the interpreter stands in the program: what a nested call may leave disturbed.
#[derive(Clone, Copy, PartialEq, Eq, Structural, Debug)]
pub struct FrameState {
    pub frame_depth: usize,
    pub instruction_ip: usize,
}

impl<T: ResourceTracker> View for VM<T> {
    type V = VmModel;

    open spec fn view(&self) -> VmModel {
        VmModel {
            heap: self.heap@,
            interns: self.interns,
            frames: FrameState {
                frame_depth: self.frame_depth,
                instruction_ip: self.instruction_ip,
            },
            gc_pause_depth: self.gc_pause_depth as nat,
        }
    }
}

impl VmModel {
    pub open spec fn with_heap(self, heap: HeapModel) -> VmModel {
        VmModel { heap, ..self }
    }
}

impl<T: ResourceTracker> VM<T> {
    /// An interpreter that has not begun to run.
    pub fn new(tracker: T, interns: Interns) -> (vm: VM<T>)
        ensures
            vm@.heap.slots.len() == 0,
            vm@.heap.budget == tracker.budget(),
            vm@.heap.overtime == tracker.overtime(),
            vm@.heap.since_gc == 0,
            !vm@.heap.potential_cycle,
            vm@.heap.counted(),
            vm@.interns == interns,
            vm@.frames == (FrameState { frame_depth: 0, instruction_ip: 0 }),
            vm@.gc_pause_depth == 0,
    {
        VM {
            heap: Heap::new(tracker),
            interns,
            frame_depth: 0,
            instruction_ip: 0,
            gc_pause_depth: 0,
        }
    }

    /// Suspends the collector once more.
    pub fn pause_gc(&mut self)
        requires
            old(self)@.gc_pause_depth < usize::MAX,
        ensures
            final(self)@ == (VmModel {
                gc_pause_depth: old(self)@.gc_pause_depth + 1,
                ..old(self)@
            }),
    {
        self.gc_pause_depth = self.gc_pause_depth + 1;
    }

    /// Ends one suspension of the collector.
    pub fn resume_gc(&mut self)
        requires
            old(self)@.gc_pause_depth > 0,
        ensures
            final(self)@ == (VmModel {
                gc_pause_depth: (old(self)@.gc_pause_depth - 1) as nat,
                ..old(self)@
            }),
    {
        self.gc_pause_depth = self.gc_pause_depth - 1;
    }

    /// Where the interpreter stands.
    pub fn frame_state(&self) -> (state: FrameState)
        ensures
            state == self@.frames,
    {
        FrameState { frame_depth: self.frame_depth, instruction_ip: self.instruction_ip }
    }

    /// Puts the interpreter back to where it stood.
    pub fn restore_frame_state(&mut self, state: FrameState)
        ensures
            final(self)@ == (VmModel { frames: state, ..old(self)@ }),
    {
        self.frame_depth = state.frame_depth;
        self.instruction_ip = state.instruction_ip;
    }
}

} // verus!
