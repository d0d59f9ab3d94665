use std::cell::RefCell;
use std::rc::Rc;

use malfs::stages::Stage;
use malfs::stages::StageRunner;
use malfs::stages::Stage2;

struct CountingStage {
    hits: u32,
    id: u32,
    log: Rc<RefCell<Vec<u32>>>,
}

impl Stage for CountingStage {
    fn run(&mut self) {
        self.hits += 1;
        self.log.borrow_mut().push(self.id);
    }
}

fn stage(id: u32, log: &Rc<RefCell<Vec<u32>>>) -> CountingStage {
    CountingStage { hits: 0, id, log: Rc::clone(log) }
}

#[test]
fn runner_starts_empty() {
    let runner: StageRunner<CountingStage> = StageRunner::new();
    assert_eq!(runner.stages.len(), 0);
}

#[test]
fn run_all_runs_each_stage_once_in_insertion_order() {
    let log = Rc::new(RefCell::new(Vec::new()));
    let mut runner = StageRunner::new();
    runner.add(stage(1, &log));
    runner.add(stage(2, &log));
    runner.add(stage(3, &log));
    runner.run_all();
    assert_eq!(runner.stages.len(), 3);
    for s in &runner.stages {
        assert_eq!(s.hits, 1);
    }
    assert_eq!(*log.borrow(), vec![1, 2, 3]);
}

#[test]
fn duplicates_are_permitted() {
    let log = Rc::new(RefCell::new(Vec::new()));
    let mut runner = StageRunner::new();
    runner.add(stage(7, &log));
    runner.add(stage(7, &log));
    assert_eq!(runner.stages.len(), 2);
    runner.run_all();
    assert_eq!(*log.borrow(), vec![7, 7]);
}

#[test]
fn stage2_constructs() {
    let _s = Stage2::new();
}
