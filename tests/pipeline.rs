use voicepeak_cli::audio_merge::SILENCE_SECS;
use voicepeak_cli::{
    cleanup_after_failure, concat_entries_of, concat_list, merge_method, needs_merge_tool,
    plan_run, Artifact, Destination, MergeError, MergeMethod, PlaybackMode, Step,
};

fn strings(v: &[&str]) -> Vec<String> {
    v.iter().map(|s| s.to_string()).collect()
}

#[test]
fn silence_goes_only_between_parts() {
    let entries = concat_entries_of(&strings(&["p1.wav", "p2.wav", "p3.wav"]), "silence.wav");
    assert_eq!(entries, vec!["p1.wav", "silence.wav", "p2.wav", "silence.wav", "p3.wav"]);
    assert_eq!(entries.iter().filter(|e| *e == "silence.wav").count(), 2);
    assert_eq!(SILENCE_SECS, 1);
}

#[test]
fn single_and_no_parts_get_no_silence() {
    assert_eq!(concat_entries_of(&strings(&["only.wav"]), "s.wav"), vec!["only.wav"]);
    assert!(concat_entries_of(&vec![], "s.wav").is_empty());
}

#[test]
fn concat_list_names_each_file_in_order() {
    let text = concat_list(&strings(&["/tmp/a.wav", "/tmp/s.wav", "/tmp/b.wav"]));
    assert_eq!(text, "file '/tmp/a.wav'\nfile '/tmp/s.wav'\nfile '/tmp/b.wav'\n");
    assert_eq!(concat_list(&vec![]), "");
}

#[test]
fn merge_method_by_part_count() {
    assert_eq!(merge_method(0), Err(MergeError::NoInputs));
    assert_eq!(merge_method(1), Ok(MergeMethod::Copy));
    assert_eq!(merge_method(3), Ok(MergeMethod::ConcatWithSilence));
}

#[test]
fn single_chunk_to_file_needs_no_merge_tool() {
    assert!(!needs_merge_tool(PlaybackMode::Batch, Destination::SaveToFile, 1));
    assert!(!needs_merge_tool(PlaybackMode::Sequential, Destination::SaveToFile, 1));
    let plan = plan_run(1, PlaybackMode::Batch, Destination::SaveToFile);
    assert_eq!(
        plan,
        vec![
            Step::Synthesize { chunk: 0 },
            Step::Merge { into: Artifact::Output },
            Step::Delete(Artifact::Part(0)),
        ]
    );
    assert_eq!(merge_method(1), Ok(MergeMethod::Copy));
}

#[test]
fn merge_tool_rule() {
    assert!(needs_merge_tool(PlaybackMode::Batch, Destination::Play, 1));
    assert!(!needs_merge_tool(PlaybackMode::Sequential, Destination::Play, 5));
    assert!(needs_merge_tool(PlaybackMode::Sequential, Destination::SaveToFile, 2));
}

#[test]
fn sequential_play_plan() {
    assert_eq!(
        plan_run(2, PlaybackMode::Sequential, Destination::Play),
        vec![
            Step::Synthesize { chunk: 0 },
            Step::Play(Artifact::Part(0)),
            Step::Delete(Artifact::Part(0)),
            Step::Synthesize { chunk: 1 },
            Step::Play(Artifact::Part(1)),
            Step::Delete(Artifact::Part(1)),
        ]
    );
}

#[test]
fn batch_play_plan() {
    assert_eq!(
        plan_run(3, PlaybackMode::Batch, Destination::Play),
        vec![
            Step::CheckMergeTool,
            Step::Synthesize { chunk: 0 },
            Step::Synthesize { chunk: 1 },
            Step::Synthesize { chunk: 2 },
            Step::Merge { into: Artifact::Merged },
            Step::Delete(Artifact::Part(0)),
            Step::Delete(Artifact::Part(1)),
            Step::Delete(Artifact::Part(2)),
            Step::Play(Artifact::Merged),
            Step::Delete(Artifact::Merged),
        ]
    );
}

#[test]
fn save_plan_for_several_chunks() {
    assert_eq!(
        plan_run(2, PlaybackMode::Sequential, Destination::SaveToFile),
        vec![
            Step::CheckMergeTool,
            Step::Synthesize { chunk: 0 },
            Step::Synthesize { chunk: 1 },
            Step::Merge { into: Artifact::Output },
            Step::Delete(Artifact::Part(0)),
            Step::Delete(Artifact::Part(1)),
        ]
    );
}

#[test]
fn cleanup_after_a_failed_synthesis() {
    let plan = plan_run(3, PlaybackMode::Batch, Destination::Play);
    assert_eq!(
        cleanup_after_failure(&plan, 3),
        vec![Artifact::Part(0), Artifact::Part(1), Artifact::Part(2)]
    );
    assert_eq!(cleanup_after_failure(&plan, 8), vec![Artifact::Merged]);
    assert!(cleanup_after_failure(&plan, 0).is_empty());
}

#[test]
fn cleanup_in_sequential_mode() {
    let plan = plan_run(2, PlaybackMode::Sequential, Destination::Play);
    assert_eq!(cleanup_after_failure(&plan, 4), vec![Artifact::Part(1)]);
    assert_eq!(cleanup_after_failure(&plan, 1), vec![Artifact::Part(0)]);
}

#[test]
fn saved_output_is_never_cleaned_up() {
    let plan = plan_run(2, PlaybackMode::Batch, Destination::SaveToFile);
    assert_eq!(
        cleanup_after_failure(&plan, 3),
        vec![Artifact::Part(0), Artifact::Part(1)]
    );
}
