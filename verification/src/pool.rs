//! The dispatcher's shared state: the task queue fed by the scanner, the
//! submitted/completed/failed counters and the scan-complete flag. A runtime
//! wraps one `Processor` in a lock and drives any number of workers against
//! it; every transition's effect on the queue and the counts is proved here,
//! so that once the scan is complete and the queue drained, the counters
//! account for every submitted task exactly.

use vstd::prelude::*;

verus! {

/// Task represents a unit of work to be processed: a media asset to upload
/// or a document to parse and persist. Content is loaded lazily by the
/// worker, so it is usually absent.
#[derive(Debug)]
pub enum Task {
    Asset { path: String, content: Option<Vec<u8>> },
    Document { path: String, content: Option<Vec<u8>> },
}

/// Mathematical image of a task.
pub enum TaskV {
    Asset { path: Seq<char>, content: Option<Seq<u8>> },
    Document { path: Seq<char>, content: Option<Seq<u8>> },
}

impl View for Task {
    type V = TaskV;

    open spec fn view(&self) -> TaskV {
        match self {
            Task::Asset { path, content } => TaskV::Asset {
                path: path@,
                content: match content {
                    Option::Some(c) => Option::Some(c@),
                    Option::None => Option::None,
                },
            },
            Task::Document { path, content } => TaskV::Document {
                path: path@,
                content: match content {
                    Option::Some(c) => Option::Some(c@),
                    Option::None => Option::None,
                },
            },
        }
    }
}

impl DeepView for Task {
    type V = TaskV;

    open spec fn deep_view(&self) -> TaskV {
        self.view()
    }
}

/// What a worker should do after consulting the queue: run a task, wait for
/// the scanner to produce more, or exit because nothing more will come.
#[derive(Debug)]
pub enum WorkerStep {
    Run(Task),
    Wait,
    Exit,
}

/// Mathematical image of the pipeline state.
pub struct ProcessorV {
    pub tasks: Seq<TaskV>,
    pub submitted: int,
    pub completed: int,
    pub failed: int,
    pub in_flight: int,
    pub scan_complete: bool,
}

/// Processor holds the pipeline state shared by the scanner and the
/// workers.
pub struct Processor {
    tasks: Vec<Task>,
    total_submitted: u64,
    total_completed: u64,
    total_failed: u64,
    in_flight: u64,
    scan_complete: bool,
}

impl View for Processor {
    type V = ProcessorV;

    closed spec fn view(&self) -> ProcessorV {
        ProcessorV {
            tasks: self.tasks.deep_view(),
            submitted: self.total_submitted as int,
            completed: self.total_completed as int,
            failed: self.total_failed as int,
            in_flight: self.in_flight as int,
            scan_complete: self.scan_complete,
        }
    }
}

impl Processor {
    /// Every submitted task is queued, in flight, or accounted for in
    /// exactly one of the two result counters.
    pub open spec fn wf(self) -> bool {
        self@.submitted == self@.completed + self@.failed + self@.in_flight + self@.tasks.len()
    }

    /// A fresh pipeline: nothing submitted, scan not complete.
    pub fn new() -> (p: Processor)
        ensures
            p.wf(),
            p@.tasks.len() == 0,
            p@.submitted == 0 && p@.completed == 0 && p@.failed == 0 && p@.in_flight == 0,
            !p@.scan_complete,
    {
        let p = Processor {
            tasks: Vec::new(),
            total_submitted: 0,
            total_completed: 0,
            total_failed: 0,
            in_flight: 0,
            scan_complete: false,
        };
        proof {
            assert(p.tasks.deep_view() =~= Seq::<TaskV>::empty());
        }
        p
    }

    /// Submit a task to be processed: it joins the back of the queue and
    /// the submitted count grows by one.
    pub fn submit_task(&mut self, task: Task)
        requires
            old(self).wf(),
            !old(self)@.scan_complete,
            old(self)@.submitted < u64::MAX,
        ensures
            final(self).wf(),
            final(self)@ == (ProcessorV {
                tasks: old(self)@.tasks.push(task@),
                submitted: old(self)@.submitted + 1,
                ..old(self)@
            }),
    {
        let ghost t = task;
        let ghost d = self@.tasks;
        self.tasks.push(task);
        self.total_submitted = self.total_submitted + 1;
        proof {
            assert(self.tasks.deep_view() =~= d.push(t@));
        }
    }

    /// The scanner signals, exactly once, that enumeration has finished.
    pub fn mark_scan_complete(&mut self)
        requires
            old(self).wf(),
        ensures
            final(self).wf(),
            final(self)@ == (ProcessorV { scan_complete: true, ..old(self)@ }),
    {
        self.scan_complete = true;
    }

    /// A worker asks for work. A queued task is handed out (and counted in
    /// flight); an empty queue means exit once the scan is complete, and
    /// wait otherwise.
    pub fn take_task(&mut self) -> (r: WorkerStep)
        requires
            old(self).wf(),
        ensures
            final(self).wf(),
            old(self)@.tasks.len() > 0 ==> (r matches WorkerStep::Run(t) && t@ == old(
                self,
            )@.tasks[0] && final(self)@ == (ProcessorV {
                tasks: old(self)@.tasks.drop_first(),
                in_flight: old(self)@.in_flight + 1,
                ..old(self)@
            })),
            old(self)@.tasks.len() == 0 && old(self)@.scan_complete ==> (r is Exit && *final(self)
                == *old(self)),
            old(self)@.tasks.len() == 0 && !old(self)@.scan_complete ==> (r is Wait && *final(self)
                == *old(self)),
    {
        if self.tasks.len() > 0 {
            let ghost d = self@.tasks;
            let t = self.tasks.remove(0);
            self.in_flight = self.in_flight + 1;
            proof {
                assert(self.tasks.deep_view() =~= d.drop_first());
            }
            WorkerStep::Run(t)
        } else if self.scan_complete {
            WorkerStep::Exit
        } else {
            WorkerStep::Wait
        }
    }

    /// A worker reports the outcome of the task it was running.
    pub fn finish_task(&mut self, success: bool)
        requires
            old(self).wf(),
            old(self)@.in_flight > 0,
        ensures
            final(self).wf(),
            success ==> final(self)@ == (ProcessorV {
                completed: old(self)@.completed + 1,
                in_flight: old(self)@.in_flight - 1,
                ..old(self)@
            }),
            !success ==> final(self)@ == (ProcessorV {
                failed: old(self)@.failed + 1,
                in_flight: old(self)@.in_flight - 1,
                ..old(self)@
            }),
    {
        self.in_flight = self.in_flight - 1;
        if success {
            self.total_completed = self.total_completed + 1;
        } else {
            self.total_failed = self.total_failed + 1;
        }
    }

    /// How many tasks have been submitted.
    pub fn total_submitted(&self) -> (r: u64)
        ensures
            r == self@.submitted,
    {
        self.total_submitted
    }

    /// How many tasks finished successfully.
    pub fn total_completed(&self) -> (r: u64)
        ensures
            r == self@.completed,
    {
        self.total_completed
    }

    /// How many tasks failed.
    pub fn total_failed(&self) -> (r: u64)
        ensures
            r == self@.failed,
    {
        self.total_failed
    }

    /// How many tasks are waiting in the queue.
    pub fn queue_len(&self) -> (r: usize)
        ensures
            r == self@.tasks.len(),
    {
        self.tasks.len()
    }

    /// Whether the scanner has signalled completion.
    pub fn is_scan_complete(&self) -> (r: bool)
        ensures
            r == self@.scan_complete,
    {
        self.scan_complete
    }
}

/// Law: pool completeness. Once the scan is complete, the queue is drained
/// and no task is in flight, the completed and failed counts account for
/// every submitted task exactly — however many workers took part.
pub proof fn lemma_pool_completeness(p: Processor)
    requires
        p.wf(),
        p@.tasks.len() == 0,
        p@.in_flight == 0,
    ensures
        p@.submitted == p@.completed + p@.failed,
{
}

} // verus!
