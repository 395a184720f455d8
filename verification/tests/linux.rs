use loomik::capture::linux::{check_source, list_windows, own_window, LinuxCaptureError, WindowInfo};
use loomik::model::SourceKind;

fn window(id: u32, title: &str, legacy: &str) -> WindowInfo {
    WindowInfo {
        id,
        pid: Some(7),
        class: "editor\0Editor\0".to_string(),
        viewable: true,
        width: 800,
        height: 600,
        utf8_title: title.to_string(),
        legacy_title: legacy.to_string(),
    }
}

#[test]
fn linux_refuses_display_sources() {
    assert!(check_source(SourceKind::Window).is_ok());
    let error = check_source(SourceKind::Display).unwrap_err();
    assert_eq!(error, LinuxCaptureError::DisplayUnsupported);
    assert_eq!(
        error.message(),
        "Linux supports isolated window recording; choose a window or media file"
    );
}

#[test]
fn recorder_windows_are_recognised_by_process_or_class() {
    assert!(own_window(Some(42), 42, "editor"));
    assert!(!own_window(Some(41), 42, "editor\0Editor\0"));
    assert!(own_window(None, 42, "loomik\0Loomik\0"));
    assert!(own_window(Some(1), 42, "LOOMIK"));
    assert!(own_window(None, 42, "org.LooMik.Studio"));
    assert!(!own_window(None, 42, "loomi k"));
    assert!(!own_window(None, 42, ""));
}

#[test]
fn window_list_is_filtered_and_sorted_by_title() {
    let mut small = window(4, "Small", "");
    small.width = 99;
    let mut short = window(5, "Short", "");
    short.height = 59;
    let mut hidden = window(6, "Hidden", "");
    hidden.viewable = false;
    let mut recorder = window(7, "Recorder", "");
    recorder.pid = Some(42);
    let mut classed = window(8, "Studio", "");
    classed.class = "Loomik".to_string();
    let mut edge = window(9, "Edge", "");
    edge.width = 100;
    edge.height = 60;
    let windows = vec![
        window(1, "  Terminal ", ""),
        window(2, "", "Browser"),
        window(3, "   ", "Ignored"),
        small,
        short,
        hidden,
        recorder,
        classed,
        window(10, "Browser", ""),
        edge,
        window(11, "", ""),
        window(12, "browser", ""),
    ];
    let listed = list_windows(&windows, 42);
    let names: Vec<(u32, &str)> = listed.iter().map(|w| (w.id, w.name.as_str())).collect();
    assert_eq!(
        names,
        vec![(2, "Browser"), (10, "Browser"), (9, "Edge"), (1, "Terminal"), (12, "browser")]
    );
    assert_eq!((listed[2].width, listed[2].height), (100, 60));
    assert_eq!((listed[0].width, listed[0].height), (800, 600));
    assert!(list_windows(&vec![], 42).is_empty());
}
