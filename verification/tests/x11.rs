use selftop::x11wrapper::window::{class_from_property, pid_from_property, property_len, wm_name_from_property, Window};
use selftop::x11wrapper::Display;

#[test]
fn display_names_windows() {
    let d = Display { display: 77 };
    let w = d.window(1234);
    assert_eq!(w, Window { id: 1234, display: 77 });
}

#[test]
fn tree_from_reply() {
    let w = Window { id: 5, display: 9 };
    assert!(w.tree_from_reply(0, 1, &vec![2, 3]).is_none());
    let t = w.tree_from_reply(1, 4, &vec![]).unwrap();
    assert_eq!(t.parent, Window { id: 4, display: 9 });
    assert!(t.children.is_none());
    let t = w.tree_from_reply(1, 4, &vec![6, 8]).unwrap();
    assert_eq!(t.children.unwrap(), vec![Window { id: 6, display: 9 }, Window { id: 8, display: 9 }]);
}

#[test]
fn wm_name_decoding() {
    assert_eq!(wm_name_from_property(None).unwrap(), None);
    assert_eq!(wm_name_from_property(Some("Über".as_bytes().to_vec())).unwrap(), Some("Über".to_string()));
    assert_eq!(wm_name_from_property(Some(vec![])).unwrap(), Some(String::new()));
    assert!(wm_name_from_property(Some(vec![0xff, 0x41])).is_err());
}

#[test]
fn property_sizes() {
    assert_eq!(property_len(8, 10), 10);
    assert_eq!(property_len(16, 10), 20);
    assert_eq!(property_len(32, 3), 12);
    assert_eq!(property_len(0, 3), 0);
}

#[test]
fn class_names_from_property() {
    assert_eq!(class_from_property(None), None);
    assert_eq!(
        class_from_property(Some(b"xterm\0XTerm\0".to_vec())),
        Some(vec!["xterm".to_string(), "XTerm".to_string()])
    );
    assert_eq!(class_from_property(Some(b"a\0b".to_vec())), Some(vec!["a".to_string(), "b".to_string()]));
    assert_eq!(class_from_property(Some(b"\0x\0".to_vec())), Some(vec!["".to_string(), "x".to_string()]));
    assert_eq!(class_from_property(Some(vec![])), Some(vec![]));
    assert_eq!(class_from_property(Some(vec![b'a', 0, 0xff, 0])), None);
}

#[test]
fn pid_from_property_bytes() {
    assert_eq!(pid_from_property(None), None);
    assert_eq!(pid_from_property(Some(vec![1, 2, 3])), None);
    assert_eq!(pid_from_property(Some(vec![0x39, 0x30, 0, 0, 9, 9])), Some(12345));
    assert_eq!(pid_from_property(Some(vec![0xff, 0xff, 0xff, 0xff])), Some(u32::MAX));
}
