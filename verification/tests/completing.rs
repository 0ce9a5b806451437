use skybox_merger::completion::{Action, Completion, Stage};
use skybox_merger::error::SkyboxError;

fn sources() -> Vec<String> {
    vec!["sleft.png", "sright.png", "sup.png", "sdown.png", "sfront.png", "sback.png"]
        .into_iter()
        .map(String::from)
        .collect()
}

#[test]
fn completion_starts_with_the_write() {
    let run = Completion::new(sources());
    assert_eq!(run.stage(), Stage::Writing);
    assert_eq!(run.next(), Action::Write);
    assert_eq!(run.outcome(), None);
    assert!(run.warnings().is_empty());
}

#[test]
fn failed_write_removes_nothing() {
    let mut run = Completion::new(sources());
    run.record(false);
    assert_eq!(run.stage(), Stage::Failed);
    assert_eq!(run.next(), Action::Done);
    assert_eq!(run.outcome(), Some(Err(SkyboxError::Encode)));
    run.record(true);
    run.record(false);
    assert_eq!(run.stage(), Stage::Failed);
    assert_eq!(run.next(), Action::Done);
    assert!(run.warnings().is_empty());
}

#[test]
fn every_source_is_removed_after_the_write() {
    let mut run = Completion::new(sources());
    run.record(true);
    let mut removed: Vec<String> = Vec::new();
    loop {
        match run.next() {
            Action::Remove(path) => {
                assert_eq!(run.stage(), Stage::Removing);
                assert_eq!(run.outcome(), None);
                removed.push(path);
                run.record(true);
            }
            Action::Done => break,
            Action::Write => panic!("the skybox was written already"),
        }
    }
    assert_eq!(removed, sources());
    assert_eq!(run.stage(), Stage::Merged);
    assert_eq!(run.outcome(), Some(Ok(())));
    assert!(run.warnings().is_empty());
}

#[test]
fn failed_removal_does_not_stop_the_others() {
    for failing in 0..6 {
        let mut run = Completion::new(sources());
        run.record(true);
        let mut tried: Vec<String> = Vec::new();
        while let Action::Remove(path) = run.next() {
            let succeeded = tried.len() != failing;
            tried.push(path);
            run.record(succeeded);
        }
        assert_eq!(tried, sources());
        assert_eq!(run.next(), Action::Done);
        assert_eq!(run.outcome(), Some(Ok(())));
        assert_eq!(run.warnings(), &vec![sources()[failing].clone()]);
    }
}

#[test]
fn every_failed_removal_is_noted() {
    let mut run = Completion::new(sources());
    run.record(true);
    for _ in 0..6 {
        run.record(false);
    }
    assert_eq!(run.stage(), Stage::Merged);
    assert_eq!(run.outcome(), Some(Ok(())));
    assert_eq!(run.warnings(), &sources());
    run.record(false);
    assert_eq!(run.warnings(), &sources());
    assert_eq!(run.next(), Action::Done);
}

#[test]
fn nothing_to_remove_is_merged_once_written() {
    let mut run = Completion::new(Vec::new());
    assert_eq!(run.next(), Action::Write);
    run.record(true);
    assert_eq!(run.stage(), Stage::Merged);
    assert_eq!(run.next(), Action::Done);
    assert_eq!(run.outcome(), Some(Ok(())));
}
