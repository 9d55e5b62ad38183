use zerofbuf::x11util::{
    center_position, class_matches, filter_class_windows, modifier_groups, near_pointer_request,
    WinInfo,
};

fn win(xid: u32, class: Option<&str>) -> WinInfo {
    WinInfo { xid, pid: Some(xid + 100), desktop: Some(1), class: class.map(|c| c.to_string()) }
}

#[test]
fn class_matches_any_nul_part_ignoring_ascii_case() {
    assert!(class_matches("kitty\0Kitty\0", "kitty"));
    assert!(class_matches("term\00FBUF-Shell\0", "0fbuf-shell"));
    assert!(!class_matches("0fbuf-shell-x\0", "0fbuf-shell"));
    assert!(!class_matches("\0\0", ""));
    assert!(!class_matches("", ""));
    assert!(class_matches("abc", "ABC"));
    assert!(!class_matches("Ä", "ä"));
}

#[test]
fn filter_keeps_matching_windows_in_order() {
    let wins = vec![
        win(1, Some("a\0pool\0")),
        win(2, None),
        win(3, Some("other\0")),
        win(4, Some("POOL")),
    ];
    let kept = filter_class_windows(&wins, "pool");
    let ids: Vec<u32> = kept.iter().map(|w| w.xid).collect();
    assert_eq!(ids, vec![1, 4]);
    assert_eq!(kept[1].pid, Some(104));
}

#[test]
fn modifier_groups_split_mapping_by_chunks() {
    let keycodes = vec![50, 62, 66, 0, 37, 105, 64, 64, 0, 0];
    let g = modifier_groups(&keycodes, 2);
    assert_eq!(g.len(), 8);
    assert_eq!(g[0], vec![50, 62]);
    assert_eq!(g[1], vec![66]);
    assert_eq!(g[2], vec![37, 105]);
    assert_eq!(g[3], vec![64]);
    assert!(g[4].is_empty());
    assert!(g[7].is_empty());
}

#[test]
fn centre_uses_truncating_division() {
    assert_eq!(center_position(1920, 1080, Some((800, 600))), (560, 240));
    assert_eq!(center_position(1920, 1080, None), (560, 240));
    assert_eq!(center_position(100, 100, Some((301, 100))), (-100, 0));
}

#[test]
fn near_pointer_message_centres_on_pointer() {
    let d = near_pointer_request(500, 400, Some((200, 100)));
    assert_eq!(d, [4099, 400, 350, 0, 0]);
    let d = near_pointer_request(10, 10, None);
    assert_eq!(d, [4099, (-390i32) as u32, (-290i32) as u32, 0, 0]);
    assert_eq!(WinInfo::default().xid, 0);
}
