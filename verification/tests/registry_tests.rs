use hyperwm::{WindowId, WindowRegistry};

#[test]
fn ids_are_handed_out_in_order_and_never_reused() {
    let mut reg: WindowRegistry<&str> = WindowRegistry::new();
    assert!(reg.can_register());
    let a = reg.register("a", 10);
    let b = reg.register("b", 10);
    let c = reg.register("c", 20);
    assert_eq!((a, b, c), (WindowId(1), WindowId(2), WindowId(3)));
    reg.remove(b);
    let d = reg.register("d", 20);
    assert_eq!(d, WindowId(4));
    assert_eq!(reg.element_for(b), None);
    assert_eq!(reg.element_for(d), Some(&"d"));
    assert_eq!(reg.pid_for(c), Some(20));
}

#[test]
fn lookups_by_element_pid_and_window_server_id() {
    let mut reg: WindowRegistry<String> = WindowRegistry::new();
    let a = reg.register("finder-1".to_string(), 7);
    let b = reg.register("finder-2".to_string(), 7);
    let c = reg.register("term".to_string(), 9);
    assert_eq!(reg.id_for(|e: &String| e == "finder-2"), Some(b));
    assert!(reg.is_known(|e: &String| e == "term"));
    assert!(!reg.is_known(|e: &String| e == "mail"));
    assert_eq!(reg.ids_for_pid(7), vec![a, b]);
    assert_eq!(reg.ids_for_pid(8), Vec::new());

    assert_eq!(reg.id_for_cg_id(500), None);
    reg.set_cg_id(c, 500);
    reg.set_cg_id(WindowId(99), 501);
    assert_eq!(reg.id_for_cg_id(500), Some(c));
    assert_eq!(reg.id_for_cg_id(501), None);

    assert_eq!(reg.remove_by_element(|e: &String| e == "finder-1"), Some(a));
    assert_eq!(reg.remove_by_element(|e: &String| e == "finder-1"), None);
    assert_eq!(reg.ids_for_pid(7), vec![b]);
}

#[test]
fn ids_for_pid_keep_registration_order() {
    let mut reg: WindowRegistry<u8> = WindowRegistry::new();
    let a = reg.register(1, 5);
    let _b = reg.register(2, 6);
    let c = reg.register(3, 5);
    let _d = reg.register(4, 6);
    let e = reg.register(5, 5);
    assert_eq!(reg.ids_for_pid(5), vec![a, c, e]);
    reg.remove(c);
    let f = reg.register(6, 5);
    assert_eq!(reg.ids_for_pid(5), vec![a, e, f]);
}
