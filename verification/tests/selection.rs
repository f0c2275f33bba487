use subtake::selection::{select_all, selected_keys, step, Panels};

fn key(kind: &str, id: &str) -> (String, String) {
    (kind.to_string(), id.to_string())
}

#[test]
fn arrows_step_round_the_annotations() {
    assert_eq!(step(None, 3, false), Some(0));
    assert_eq!(step(None, 3, true), Some(0));
    assert_eq!(step(Some(0), 3, false), Some(1));
    assert_eq!(step(Some(2), 3, false), Some(0));
    assert_eq!(step(Some(0), 3, true), Some(2));
    assert_eq!(step(Some(2), 3, true), Some(1));
    assert_eq!(step(Some(0), 1, true), Some(0));
    assert_eq!(step(Some(0), 0, false), None);
    assert_eq!(step(None, 0, true), None);
    assert_eq!(step(Some(usize::MAX - 1), usize::MAX, false), Some(0));
    assert_eq!(step(Some(0), usize::MAX, true), Some(usize::MAX - 1));
}

#[test]
fn stepping_forward_then_back_returns() {
    for len in 1..6usize {
        for i in 0..len {
            let there = step(Some(i), len, false).unwrap();
            assert_eq!(step(Some(there), len, true), Some(i));
            let back = step(Some(i), len, true).unwrap();
            assert_eq!(step(Some(back), len, false), Some(i));
        }
    }
}

#[test]
fn the_selection_adds_the_main_region_and_drops_removed_ones() {
    let existing = vec![key("zoomRegions", "a"), key("trimRegions", "b"), key("autoCaptions", "c")];
    let extra = vec![key("zoomRegions", "a"), key("speedRegions", "gone")];
    let keys = selected_keys(&extra, &Some(key("autoCaptions", "c")), &existing);
    assert_eq!(keys, vec![key("zoomRegions", "a"), key("autoCaptions", "c")]);
    let keys = selected_keys(&extra, &Some(key("zoomRegions", "a")), &existing);
    assert_eq!(keys, vec![key("zoomRegions", "a")]);
    let keys = selected_keys(&vec![], &None, &existing);
    assert!(keys.is_empty());
    let keys = selected_keys(&vec![], &Some(key("trimRegions", "a")), &existing);
    assert!(keys.is_empty());
}

#[test]
fn deselecting_brings_back_the_panel() {
    let mut p = Panels { panel: "Captions".into(), before_selection: None };
    p.show_selection();
    assert_eq!(p.panel, "Selection");
    assert_eq!(p.before_selection.as_deref(), Some("Captions"));
    p.show_selection();
    assert_eq!(p.before_selection.as_deref(), Some("Captions"));
    p.deselect();
    assert_eq!(p.panel, "Captions");
    assert_eq!(p.before_selection, None);
    p.deselect();
    assert_eq!(p.panel, "Captions");
    let mut q = Panels { panel: "Selection".into(), before_selection: None };
    q.deselect();
    assert_eq!(q.panel, "Selection");
}

#[test]
fn select_all_takes_every_region_list_by_list() {
    let ids = |list: &[Option<&str>]| list.iter().map(|i| i.map(str::to_string)).collect::<Vec<_>>();
    let lists = vec![
        ("autoCaptions".to_string(), ids(&[Some("c1"), Some("c2")])),
        ("zoomRegions".to_string(), ids(&[Some("z1"), None, Some("z2")])),
        ("wallpaper".to_string(), ids(&[Some("w")])),
        ("clipRegions".to_string(), ids(&[])),
        ("zoomRegions".to_string(), ids(&[Some("later")])),
    ];
    let (keys, main) = select_all(&lists);
    assert_eq!(
        keys,
        vec![key("zoomRegions", "z1"), key("zoomRegions", "z2"), key("autoCaptions", "c1"), key("autoCaptions", "c2")]
    );
    assert_eq!(main, Some(key("autoCaptions", "c2")));
    let (keys, main) = select_all(&vec![]);
    assert!(keys.is_empty());
    assert_eq!(main, None);
}
