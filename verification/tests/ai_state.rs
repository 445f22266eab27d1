use document_finder::ai::state::{snapshot, AiState, ModelEntry, ModelInfo, ModelStatus};
use tokio_util::sync::CancellationToken;

fn entry(id: &'static str) -> ModelEntry<u8> {
    ModelEntry {
        id,
        kind: 7,
        display_name: "A model",
        description: "What it does",
        is_default: true,
        license: "MIT",
        approx_bytes: 1000,
    }
}

#[test]
fn status_is_read_back() {
    let mut state = AiState::default();
    assert_eq!(state.get_status("m"), ModelStatus::NotDownloaded);
    state.set_status("m", ModelStatus::Verifying);
    state.set_status("n", ModelStatus::Cancelled);
    assert_eq!(state.get_status("m"), ModelStatus::Verifying);
    let failed = ModelStatus::Failed {
        msg: "checksum".to_string(),
    };
    state.set_status("m", failed.clone());
    assert_eq!(state.get_status("m"), failed);
    assert_eq!(state.get_status("n"), ModelStatus::Cancelled);
    let loading = ModelStatus::Downloading {
        downloaded: 3,
        total: 9,
    };
    state.set_status("n", loading.clone());
    assert_eq!(state.get_status("n"), loading);
}

#[test]
fn poisoned_statuses_are_frozen() {
    let mut state = AiState::default();
    state.set_status("m", ModelStatus::Ready);
    state.statuses_poisoned = true;
    assert_eq!(state.get_status("m"), ModelStatus::NotDownloaded);
    state.set_status("m", ModelStatus::Verifying);
    assert!(state.try_begin_download("m", CancellationToken::new()).is_ok());
    assert!(state.cancel_download("m").is_some());
    state.statuses_poisoned = false;
    assert_eq!(state.get_status("m"), ModelStatus::Ready);
}

#[test]
fn one_download_per_model() {
    let mut state = AiState::default();
    let first = CancellationToken::new();
    let second = CancellationToken::new();
    let third = CancellationToken::new();
    assert!(state.try_begin_download("m", first.clone()).is_ok());
    assert!(state.try_begin_download("m", second.clone()) == Err(second.clone()));
    assert!(state.try_begin_download("n", third.clone()).is_ok());
    let cancelled = state.cancel_download("m");
    assert!(cancelled == Some(first.clone()));
    assert!(first.is_cancelled());
    assert!(!second.is_cancelled());
    assert!(!third.is_cancelled());
    assert!(state.try_begin_download("n", second.clone()).is_err());
    assert!(state.try_begin_download("m", CancellationToken::new()).is_ok());
}

#[test]
fn cancelling_nothing_does_nothing() {
    let mut state = AiState::default();
    let token = CancellationToken::new();
    assert!(state.try_begin_download("m", token.clone()).is_ok());
    assert!(state.cancel_download("other").is_none());
    assert!(!token.is_cancelled());
}

#[test]
fn clearing_frees_the_slot_without_cancelling() {
    let mut state = AiState::default();
    let token = CancellationToken::new();
    assert!(state.try_begin_download("m", token.clone()).is_ok());
    assert!(state.clear_cancel("m") == Some(token.clone()));
    assert!(state.clear_cancel("m").is_none());
    assert!(!token.is_cancelled());
    assert!(state.try_begin_download("m", token.clone()).is_ok());
}

#[test]
fn model_on_disk_is_ready() {
    let mut state = AiState::default();
    let info = ModelInfo::from_entry(Some(12), &entry("m"), &mut state);
    assert_eq!(info.id, "m");
    assert_eq!(info.kind, 7);
    assert_eq!(info.display_name, "A model");
    assert_eq!(info.description, "What it does");
    assert!(info.is_default);
    assert_eq!(info.license, "MIT");
    assert_eq!(info.approx_bytes, 1000);
    assert_eq!(info.on_disk_bytes, 12);
    assert_eq!(info.status, ModelStatus::Ready);
    assert_eq!(state.get_status("m"), ModelStatus::Ready);
}

#[test]
fn model_not_on_disk_keeps_its_status() {
    let mut state = AiState::default();
    let info = ModelInfo::from_entry(Some(0), &entry("m"), &mut state);
    assert_eq!(info.status, ModelStatus::NotDownloaded);
    let info = ModelInfo::from_entry(None, &entry("m"), &mut state);
    assert_eq!(info.status, ModelStatus::NotDownloaded);
    assert_eq!(info.on_disk_bytes, 0);
    state.set_status("m", ModelStatus::Verifying);
    let info = ModelInfo::from_entry(Some(5), &entry("m"), &mut state);
    assert_eq!(info.status, ModelStatus::Verifying);
    assert_eq!(info.on_disk_bytes, 5);
}

#[test]
fn listing_all_models() {
    let mut state = AiState::default();
    state.set_status("b", ModelStatus::Verifying);
    let registry = vec![entry("a"), entry("b"), entry("c")];
    let sizes = vec![Some(4), Some(5), None];
    let rows = snapshot(&registry, &sizes, &mut state);
    let seen: Vec<(&str, &ModelStatus)> = rows.iter().map(|r| (r.id.as_str(), &r.status)).collect();
    assert_eq!(
        seen,
        vec![
            ("a", &ModelStatus::Ready),
            ("b", &ModelStatus::Verifying),
            ("c", &ModelStatus::NotDownloaded),
        ]
    );
    let copy = rows[0].clone();
    assert_eq!(copy.id, "a");
    let again = snapshot(&registry, &sizes, &mut state);
    for (one, two) in rows.iter().zip(again.iter()) {
        assert_eq!(one.status, two.status);
    }
}

#[test]
fn listing_when_poisoned_notes_nothing() {
    let mut state = AiState::default();
    state.statuses_poisoned = true;
    let rows = snapshot(&vec![entry("a"), entry("a")], &vec![Some(4), Some(0)], &mut state);
    assert_eq!(rows[0].status, ModelStatus::Ready);
    assert_eq!(rows[1].status, ModelStatus::NotDownloaded);
}

#[test]
fn downloads_and_statuses_are_apart() {
    let mut state = AiState::default();
    state.set_status("m", ModelStatus::Verifying);
    assert!(state.try_begin_download("m", CancellationToken::new()).is_ok());
    assert_eq!(state.get_status("m"), ModelStatus::Verifying);
    state.set_status("m", ModelStatus::Ready);
    assert!(state.try_begin_download("m", CancellationToken::new()).is_err());
    state.cancel_download("m");
    assert_eq!(state.get_status("m"), ModelStatus::Ready);
}

#[test]
fn listing_an_identifier_twice() {
    let mut state = AiState::default();
    let registry = vec![entry("a"), entry("a"), entry("a")];
    let sizes = vec![Some(0), Some(4), None];
    let statuses = |rows: Vec<ModelInfo<u8>>| {
        let mut all = Vec::new();
        for row in rows {
            all.push(row.status);
        }
        all
    };
    assert_eq!(
        statuses(snapshot(&registry, &sizes, &mut state)),
        vec![
            ModelStatus::NotDownloaded,
            ModelStatus::Ready,
            ModelStatus::Ready,
        ]
    );
    assert_eq!(
        statuses(snapshot(&registry, &sizes, &mut state)),
        vec![ModelStatus::Ready, ModelStatus::Ready, ModelStatus::Ready]
    );
}
