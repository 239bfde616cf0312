use pinnacle::foreign_toplevel::{refresh_toplevel, to_state_vec, TextChange, ToplevelState};

#[test]
fn states_are_listed_in_order() {
    assert_eq!(
        to_state_vec(true, true, true, true),
        vec![ToplevelState::Maximized, ToplevelState::Fullscreen, ToplevelState::Minimized, ToplevelState::Activated]
    );
    assert!(to_state_vec(false, false, false, false).is_empty());
    assert_eq!(to_state_vec(false, false, true, false), vec![ToplevelState::Minimized]);
    assert_eq!(ToplevelState::Fullscreen.number(), 3);
    assert_eq!(ToplevelState::Activated.number(), 2);
}

#[test]
fn refresh_toplevel_tracks_changes() {
    let mut record = None;
    let first = refresh_toplevel(&mut record, Some("term".to_string()), Some("foot".to_string()), vec![], Some(1));
    assert!(first.created);
    assert!(!first.something_changed());

    let same = refresh_toplevel(&mut record, Some("term".to_string()), Some("foot".to_string()), vec![], Some(1));
    assert!(!same.created);
    assert_eq!(same.title, TextChange::Unchanged);
    assert!(!same.something_changed());

    let changed = refresh_toplevel(
        &mut record,
        Some("vim".to_string()),
        Some("foot".to_string()),
        vec![ToplevelState::Activated],
        Some(2),
    );
    assert_eq!(changed.title, TextChange::ChangedTo("vim".to_string()));
    assert_eq!(changed.app_id, TextChange::Unchanged);
    assert!(changed.states_changed && changed.output_changed);
    assert!(changed.something_changed());

    let cleared = refresh_toplevel(&mut record, None, Some("foot".to_string()), vec![ToplevelState::Activated], Some(2));
    assert_eq!(cleared.title, TextChange::Cleared);
    assert!(!cleared.something_changed());
    assert_eq!(record.unwrap().title, None);
}

use pinnacle::foreign_toplevel::refresh::{
    FocusedWindow, ToplevelRecords, WindowSnapshot, XdgToplevelInfo,
};

fn window(surface: Option<u64>, title: &str, xdg: bool, output: u64) -> WindowSnapshot {
    WindowSnapshot {
        surface,
        xdg: if xdg {
            Some(XdgToplevelInfo {
                title: Some(title.to_string()),
                app_id: Some("app".to_string()),
                maximized: false,
                fullscreen: false,
            })
        } else {
            None
        },
        minimized: false,
        output: Some(output),
    }
}

#[test]
fn toplevel_records_refresh_windows() {
    let mut records = ToplevelRecords::new();
    let windows = vec![window(Some(1), "a", true, 10), window(Some(2), "b", true, 10), window(Some(3), "x", false, 10)];
    let first = records.refresh(&windows, Some(FocusedWindow { index: 0, output: 20 }));
    assert!(first.closed.is_empty());
    // The focused window is refreshed last, on the focused output.
    assert_eq!(first.refreshed.iter().map(|(s, _)| *s).collect::<Vec<_>>(), vec![2, 1]);
    assert!(first.refreshed.iter().all(|(_, r)| r.created));
    let rec1 = &records.toplevels.iter().find(|(s, _)| *s == 1).unwrap().1;
    assert_eq!(rec1.output, Some(20));

    let again = records.refresh(&windows, Some(FocusedWindow { index: 0, output: 20 }));
    assert!(again.refreshed.iter().all(|(_, r)| !r.created && !r.something_changed()));

    let fewer = vec![window(Some(2), "b2", true, 10)];
    let third = records.refresh(&fewer, None);
    assert_eq!(third.closed, vec![1]);
    assert_eq!(third.refreshed.len(), 1);
    assert_eq!(third.refreshed[0].1.title, TextChange::ChangedTo("b2".to_string()));
    assert_eq!(records.toplevels.len(), 1);
}
