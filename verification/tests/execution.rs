use dedupe_utils::paths::stem_end_of;
use dedupe_utils::record::FileInfo;
use dedupe_utils::relocation::{
    collision_name_of, is_token_text, warning_text_of, MoveAction, MoveEvent, MoveOperation,
    MoveState, DUPLICATE_MARKER, TOKEN_LENGTH,
};

fn photo() -> MoveOperation {
    let fi = FileInfo {
        file_path: "/in/photo.jpg".to_string(),
        hash: "1".to_string(),
        exif_data: None,
    };
    MoveOperation::new("/tmp/foo".to_string(), fi)
}

fn is_pending(state: &MoveState) -> bool {
    matches!(state, MoveState::Pending)
}

/// Runs the relocation against answers that a test chose, and returns the
/// actions that were asked for and the state in which it ended.
fn run(
    op: &MoveOperation,
    found: bool,
    is_dir: bool,
    directory_ok: bool,
    occupied: bool,
    rename_ok: bool,
    token: &str,
) -> (Vec<String>, MoveState) {
    let mut log = Vec::new();
    let (mut state, mut action) = op.begin();
    loop {
        let event = match &action {
            MoveAction::ExamineSource { path } => {
                log.push(format!("examine source {}", path));
                MoveEvent::SourceExamined { found, is_dir }
            }
            MoveAction::PrepareDirectory { path } => {
                log.push(format!("prepare {}", path));
                MoveEvent::DirectoryPrepared { ok: directory_ok }
            }
            MoveAction::ExamineDestination { path } => {
                log.push(format!("examine destination {}", path));
                MoveEvent::DestinationExamined { occupied }
            }
            MoveAction::Warn { message } => {
                log.push(format!("warn {}", message));
                MoveEvent::WarningEmitted
            }
            MoveAction::Rename { from, to } => {
                log.push(format!("rename {} {}", from, to));
                MoveEvent::RenameFinished { ok: rename_ok }
            }
            MoveAction::Done => return (log, state),
        };
        let step = op.execute_with_token(state, event, token);
        state = step.0;
        action = step.1;
    }
}

#[test]
fn free_destination_is_used_as_planned() {
    let (log, state) = run(&photo(), true, false, true, false, true, "abc123");
    assert_eq!(
        log,
        vec![
            "examine source /in/photo.jpg",
            "prepare /tmp/foo/unsorted",
            "examine destination /tmp/foo/unsorted/photo.jpg",
            "rename /in/photo.jpg /tmp/foo/unsorted/photo.jpg",
        ]
    );
    match state {
        MoveState::Moved { destination } => assert_eq!(destination, "/tmp/foo/unsorted/photo.jpg"),
        _ => panic!("the file was not moved"),
    }
}

#[test]
fn taken_destination_is_not_overwritten() {
    let (log, state) = run(&photo(), true, false, true, true, true, "abc123");
    assert_eq!(
        log,
        vec![
            "examine source /in/photo.jpg",
            "prepare /tmp/foo/unsorted",
            "examine destination /tmp/foo/unsorted/photo.jpg",
            "warn warning: detected potential duplicate, renaming to: photo_duplicate_abc123.jpg",
            "rename /in/photo.jpg /tmp/foo/unsorted/photo_duplicate_abc123.jpg",
        ]
    );
    match state {
        MoveState::Moved { destination } => {
            assert_eq!(destination, "/tmp/foo/unsorted/photo_duplicate_abc123.jpg")
        }
        _ => panic!("the file was not moved"),
    }
}

#[test]
fn taken_destination_draws_a_token_of_six_characters() {
    let op = photo();
    let (state, _) = op.begin();
    let (state, _) = op.execute(state, MoveEvent::SourceExamined { found: true, is_dir: false });
    let (state, _) = op.execute(state, MoveEvent::DirectoryPrepared { ok: true });
    let (state, action) = op.execute(state, MoveEvent::DestinationExamined { occupied: true });
    let (destination, file_name) = match &state {
        MoveState::Announcing { destination, file_name } => (destination.clone(), file_name.clone()),
        _ => panic!("no other name was made"),
    };
    assert!(file_name.starts_with("photo_duplicate_"));
    assert!(file_name.ends_with(".jpg"));
    assert_eq!(file_name.len(), "photo_duplicate_".len() + 6 + ".jpg".len());
    let token = &file_name["photo_duplicate_".len()..file_name.len() - ".jpg".len()];
    assert_eq!(token.len(), 6);
    assert!(token.chars().all(|c| c.is_ascii_alphanumeric()));
    assert!(is_token_text(token));
    assert_eq!(destination, format!("/tmp/foo/unsorted/{}", file_name));
    assert_ne!(destination, *op.target_path());
    match action {
        MoveAction::Warn { message } => assert_eq!(
            message,
            format!("warning: detected potential duplicate, renaming to: {}", file_name)
        ),
        _ => panic!("no warning was asked for"),
    }
    let (state, action) = op.execute(state, MoveEvent::WarningEmitted);
    match action {
        MoveAction::Rename { from, to } => {
            assert_eq!(from, "/in/photo.jpg");
            assert_eq!(to, destination);
        }
        _ => panic!("no rename was asked for"),
    }
    let (state, action) = op.execute(state, MoveEvent::RenameFinished { ok: true });
    assert!(matches!(action, MoveAction::Done));
    match state {
        MoveState::Moved { destination: at } => assert_eq!(at, destination),
        _ => panic!("the file was not moved"),
    }
}

#[test]
fn second_execution_finds_no_source_and_does_nothing() {
    let op = photo();
    let (first_log, first) = run(&op, true, false, true, false, true, "abc123");
    assert_eq!(first_log.len(), 4);
    assert!(matches!(first, MoveState::Moved { .. }));
    let (second_log, second) = run(&op, false, false, true, false, true, "abc123");
    assert_eq!(second_log, vec!["examine source /in/photo.jpg"]);
    assert!(matches!(second, MoveState::Skipped));
}

#[test]
fn source_that_is_a_directory_is_skipped() {
    let (log, state) = run(&photo(), true, true, true, false, true, "abc123");
    assert_eq!(log, vec!["examine source /in/photo.jpg"]);
    assert!(matches!(state, MoveState::Skipped));
}

#[test]
fn missing_directory_that_cannot_be_made_ends_the_move() {
    let (log, state) = run(&photo(), true, false, false, false, true, "abc123");
    assert_eq!(log, vec!["examine source /in/photo.jpg", "prepare /tmp/foo/unsorted"]);
    assert!(matches!(state, MoveState::DirectoryFailed));
}

#[test]
fn failed_rename_is_abandoned() {
    let (log, state) = run(&photo(), true, false, true, false, false, "abc123");
    assert_eq!(log.len(), 4);
    match state {
        MoveState::Abandoned { destination } => {
            assert_eq!(destination, "/tmp/foo/unsorted/photo.jpg")
        }
        _ => panic!("the move was not abandoned"),
    }
}

#[test]
fn failed_rename_after_collision_is_abandoned() {
    let (_, state) = run(&photo(), true, false, true, true, false, "Zz9Yx8");
    match state {
        MoveState::Abandoned { destination } => {
            assert_eq!(destination, "/tmp/foo/unsorted/photo_duplicate_Zz9Yx8.jpg")
        }
        _ => panic!("the move was not abandoned"),
    }
}

#[test]
fn event_that_answers_nothing_changes_nothing() {
    let op = photo();
    let (state, _) = op.begin();
    let (state, action) = op.execute(state, MoveEvent::RenameFinished { ok: true });
    assert!(is_pending(&state));
    match action {
        MoveAction::ExamineSource { path } => assert_eq!(path, "/in/photo.jpg"),
        _ => panic!("the source was not asked for again"),
    }
    let (state, _) = op.execute(state, MoveEvent::DestinationExamined { occupied: true });
    assert!(is_pending(&state));
    let (state, _) = op.execute(state, MoveEvent::WarningEmitted);
    assert!(is_pending(&state));
    let (state, _) = op.execute(state, MoveEvent::DirectoryPrepared { ok: false });
    assert!(is_pending(&state));
}

#[test]
fn ended_move_stays_ended() {
    let op = photo();
    for event in [
        MoveEvent::SourceExamined { found: true, is_dir: false },
        MoveEvent::DirectoryPrepared { ok: true },
        MoveEvent::DestinationExamined { occupied: true },
        MoveEvent::WarningEmitted,
        MoveEvent::RenameFinished { ok: true },
    ] {
        let (state, action) = op.execute(MoveState::Skipped, event);
        assert!(matches!(state, MoveState::Skipped));
        assert!(matches!(action, MoveAction::Done));
        let (state, action) = op.execute(MoveState::DirectoryFailed, event);
        assert!(matches!(state, MoveState::DirectoryFailed));
        assert!(matches!(action, MoveAction::Done));
        let moved = MoveState::Moved { destination: "/x".to_string() };
        let (state, action) = op.execute(moved, event);
        assert!(matches!(state, MoveState::Moved { .. }));
        assert!(matches!(action, MoveAction::Done));
        let abandoned = MoveState::Abandoned { destination: "/x".to_string() };
        let (state, action) = op.execute(abandoned, event);
        assert!(matches!(state, MoveState::Abandoned { .. }));
        assert!(matches!(action, MoveAction::Done));
    }
}

#[test]
fn action_follows_from_the_state() {
    let op = photo();
    match op.action_of(&MoveState::PreparingDirectory) {
        MoveAction::PrepareDirectory { path } => assert_eq!(path, "/tmp/foo/unsorted"),
        _ => panic!("wrong action"),
    }
    match op.action_of(&MoveState::CheckingDestination) {
        MoveAction::ExamineDestination { path } => assert_eq!(path, "/tmp/foo/unsorted/photo.jpg"),
        _ => panic!("wrong action"),
    }
    match op.action_of(&MoveState::Renaming { destination: "/elsewhere".to_string() }) {
        MoveAction::Rename { from, to } => {
            assert_eq!(from, "/in/photo.jpg");
            assert_eq!(to, "/elsewhere");
        }
        _ => panic!("wrong action"),
    }
}

#[test]
fn marker_and_token_stand_before_the_extension() {
    assert_eq!(collision_name_of("photo.jpg", "abc123"), "photo_duplicate_abc123.jpg");
    assert_eq!(collision_name_of("archive.tar.gz", "abc123"), "archive.tar_duplicate_abc123.gz");
    assert_eq!(collision_name_of("a.b", "000000"), "a_duplicate_000000.b");
}

#[test]
fn name_without_extension_gets_marker_and_token_at_the_end() {
    assert_eq!(collision_name_of("README", "abc123"), "README_duplicate_abc123");
    assert_eq!(collision_name_of(".bashrc", "abc123"), ".bashrc_duplicate_abc123");
}

#[test]
fn empty_extension_keeps_its_dot() {
    assert_eq!(collision_name_of("photo.", "abc123"), "photo_duplicate_abc123.");
}

#[test]
fn stem_ends_where_the_standard_library_says() {
    for name in ["photo.jpg", "a.b.c", "README", ".bashrc", ".a.b", "x.", "a", "..x", "a.b."] {
        let chars: Vec<char> = name.chars().collect();
        let end = stem_end_of(&chars);
        let stem: String = chars[..end].iter().collect();
        let expected = std::path::Path::new(name).file_stem().unwrap().to_str().unwrap();
        assert_eq!(stem, expected, "for the name {:?}", name);
        let extension = std::path::Path::new(name).extension().map(|e| e.to_str().unwrap());
        if end < chars.len() {
            let found: String = chars[end + 1..].iter().collect();
            assert_eq!(Some(found.as_str()), extension);
        } else {
            assert_eq!(None, extension);
        }
    }
}

#[test]
fn tokens_are_six_letters_or_digits() {
    assert_eq!(TOKEN_LENGTH, 6);
    assert_eq!(DUPLICATE_MARKER, "_duplicate_");
    assert!(is_token_text("abc123"));
    assert!(is_token_text("ABCxyz"));
    assert!(is_token_text("000000"));
    assert!(!is_token_text("abc12"));
    assert!(!is_token_text("abc1234"));
    assert!(!is_token_text("abc/12"));
    assert!(!is_token_text("abc.12"));
    assert!(!is_token_text("abc 12"));
    assert!(!is_token_text("abcd\u{e9}f"));
    assert!(!is_token_text(""));
}

#[test]
fn warning_names_the_new_file() {
    assert_eq!(
        warning_text_of("photo_duplicate_abc123.jpg"),
        "warning: detected potential duplicate, renaming to: photo_duplicate_abc123.jpg"
    );
}
