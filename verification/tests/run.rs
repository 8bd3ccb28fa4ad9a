use ullis::config::{Architecture, ConfigError, TrainConfig};
use ullis::run::{
    apply_overrides, check_arguments, check_fresh, check_vocabulary, check_wired, needed_tokens,
    reject_resume_field, reject_resume_file_config, reject_resume_overrides, OptimizerKind,
    ResumeField, RunConfig, RunError, TrainOverrides, TrainRun, HINT_STEP,
};

fn none() -> TrainOverrides {
    TrainOverrides {
        architecture: None,
        d_model: None,
        n_layers: None,
        context_len: None,
        batch_size: None,
        vocab_size: None,
        seed: None,
        memory_budget_mib: None,
        optimizer: None,
    }
}

fn base() -> RunConfig {
    RunConfig {
        config: TrainConfig::default(),
        optimizer: OptimizerKind::StatelessSgd,
    }
}

#[test]
fn arguments_are_checked() {
    let rate = 1e-3_f32.to_bits();
    assert_eq!(check_arguments(1, 1, rate), Ok(()));
    assert_eq!(check_arguments(0, 1, rate), Err(RunError::Arguments));
    assert_eq!(check_arguments(1, 0, rate), Err(RunError::Arguments));
    assert_eq!(
        check_arguments(1, 1, f32::NAN.to_bits()),
        Err(RunError::Arguments)
    );
    assert_eq!(
        check_arguments(1, 1, 0.0_f32.to_bits()),
        Err(RunError::Arguments)
    );
}

#[test]
fn no_overrides_change_nothing() {
    assert_eq!(apply_overrides(base(), &none()), Ok(base()));
}

#[test]
fn overrides_replace_their_fields() {
    let asked = TrainOverrides {
        context_len: Some(512),
        memory_budget_mib: Some(2048),
        ..none()
    };
    let made = apply_overrides(base(), &asked).unwrap();
    assert_eq!(made.config.context_len, 512);
    assert_eq!(made.config.memory_budget_bytes, 2048 * 1024 * 1024);
    assert_eq!(made.config.d_model, base().config.d_model);
    let huge = TrainOverrides {
        memory_budget_mib: Some(usize::MAX),
        ..none()
    };
    assert_eq!(
        apply_overrides(base(), &huge),
        Err(RunError::MemoryOverflow)
    );
}

#[test]
fn the_hybrid_is_not_trained() {
    let mut run = base();
    assert_eq!(check_wired(&run, true), Ok(()));
    assert_eq!(check_fresh(&run, true), Ok(()));
    assert_eq!(check_wired(&run, false), Err(RunError::Optimizer));
    assert_eq!(check_fresh(&run, false), Err(RunError::Optimizer));
    run.config.architecture = Architecture::RosaRwkv7;
    assert_eq!(check_wired(&run, true), Err(RunError::NotWired));
    assert_eq!(check_wired(&run, false), Err(RunError::NotWired));
    let mut broken = base();
    broken.config.batch_size = 0;
    assert_eq!(
        check_fresh(&broken, true),
        Err(RunError::Config(ConfigError::BatchSize))
    );
}

#[test]
fn a_resumed_run_keeps_its_model() {
    assert_eq!(reject_resume_overrides(&base(), &none()), Ok(()));
    let same = TrainOverrides {
        d_model: Some(base().config.d_model),
        ..none()
    };
    assert_eq!(reject_resume_overrides(&base(), &same), Ok(()));
    let other = TrainOverrides {
        d_model: Some(base().config.d_model + 1),
        ..none()
    };
    assert_eq!(
        reject_resume_overrides(&base(), &other),
        Err(RunError::Resume(ResumeField::DModel))
    );
    assert_eq!(reject_resume_field(ResumeField::Seed, Some(1), 1), Ok(()));
    assert_eq!(
        reject_resume_field(ResumeField::Seed, Some(2), 1),
        Err(RunError::Resume(ResumeField::Seed))
    );
    let file = TrainConfig {
        n_layers: 9,
        ..TrainConfig::default()
    };
    assert_eq!(
        reject_resume_file_config(&TrainConfig::default(), &file),
        Err(RunError::ResumeConfig)
    );
    assert_eq!(
        reject_resume_file_config(&TrainConfig::default(), &TrainConfig::default()),
        Ok(())
    );
    assert_eq!(
        check_vocabulary(1, &TrainConfig::default()),
        Err(RunError::Vocabulary)
    );
    assert_eq!(check_vocabulary(8192, &TrainConfig::default()), Ok(()));
}

#[test]
fn no_stretch_goes_unsaved() {
    let mut run = TrainRun::new(7, 3);
    let mut saved = Vec::new();
    while run.wants_more() {
        let report = run.finish_step(true);
        if report.save {
            saved.push(report.step);
        }
    }
    assert_eq!(saved, vec![3, 6, 7]);
}

#[test]
fn a_run_that_learns_nothing_gets_one_hint() {
    let mut run = TrainRun::new(300, 1000);
    let mut hints = Vec::new();
    while run.wants_more() {
        let report = run.finish_step(false);
        if report.hint {
            hints.push(report.step);
        }
    }
    assert_eq!(hints, vec![HINT_STEP]);
}

#[test]
fn enough_tokens_are_asked_for() {
    assert_eq!(needed_tokens(10, 2, 16), 320);
    assert_eq!(needed_tokens(usize::MAX, 2, 16), usize::MAX);
}
