use limitcut::steps::{
    batch_step, next_step, watch_step, BatchStep, Step, Task, WatchStep,
};

fn steps(task: Task) -> Vec<Step> {
    let mut step = Step::CheckInputs;
    let mut all = Vec::new();
    while step != Step::Done {
        all.push(step);
        step = next_step(step, task);
    }
    all
}

#[test]
fn a_full_run() {
    let task = Task {
        combine: true,
        preview: false,
        dry_run: false,
    };
    assert_eq!(
        steps(task),
        [
            Step::CheckInputs,
            Step::PrepareOutput,
            Step::ChooseEncoder,
            Step::FindCutPoint,
            Step::PlanTimes,
            Step::Encode,
            Step::Report
        ]
    );
    assert_eq!(next_step(Step::Done, task), Step::Done);
}

#[test]
fn a_run_over_one_video_compares_nothing() {
    let task = Task {
        combine: false,
        preview: false,
        dry_run: false,
    };
    assert!(!steps(task).contains(&Step::FindCutPoint));
    assert!(steps(task).contains(&Step::Encode));
}

#[test]
fn a_dry_run_only_shows() {
    for combine in [false, true] {
        let task = Task {
            combine,
            preview: false,
            dry_run: true,
        };
        assert_eq!(steps(task).last(), Some(&Step::ShowCommand));
        assert!(!steps(task).contains(&Step::Encode));
    }
}

#[test]
fn a_preview_is_all() {
    for dry_run in [false, true] {
        let task = Task {
            combine: true,
            preview: true,
            dry_run,
        };
        assert_eq!(steps(task), [Step::CheckInputs, Step::RenderPreview]);
    }
}

#[test]
fn a_batch_goes_on_after_a_failure() {
    let went_well = [false, true, false, false, true];
    let mut outcomes = Vec::new();
    let mut processed = Vec::new();
    let end = loop {
        match batch_step(went_well.len(), &outcomes) {
            BatchStep::Process(place) => {
                processed.push(place);
                outcomes.push(went_well[place]);
            }
            end => break end,
        }
    };
    assert_eq!(processed, [0, 1, 2, 3, 4]);
    assert_eq!(
        end,
        BatchStep::Finish {
            succeeded: 2,
            failed: 3
        }
    );
    assert_eq!(
        batch_step(0, &Vec::new()),
        BatchStep::Finish {
            succeeded: 0,
            failed: 0
        }
    );
}

#[test]
fn a_watch_waits_only_where_nothing_is_found() {
    assert_eq!(watch_step(0, 0), WatchStep::Wait);
    assert_eq!(watch_step(2, 0), WatchStep::Process(0));
    assert_eq!(watch_step(2, 1), WatchStep::Process(1));
    assert_eq!(watch_step(2, 2), WatchStep::Look);
}
