use ak1::com::{
    braced, check_win32, CLASS_E_CLASSNOTAVAILABLE, CLASS_E_NOAGGREGATION, E_POINTER, S_FALSE, S_OK,
};
use ak1::driver::CLSID;
use ak1::server::{create_instance, get_class_object, registered_keys, registration, text_bytes, Root, Server};

const CLASS: &str = "CLSID\\{3F1C6B2A-8E4D-4C7B-9A15-2D6E8F0B4C31}";

#[test]
fn identifiers_are_written_in_capital_groups() {
    assert_eq!(braced(CLSID), "{3F1C6B2A-8E4D-4C7B-9A15-2D6E8F0B4C31}");
    assert_eq!(braced(0x0a), "{00000000-0000-0000-0000-00000000000A}");
    assert_eq!(braced(u128::MAX), "{FFFFFFFF-FFFF-FFFF-FFFF-FFFFFFFFFFFF}");
}

#[test]
fn win32_errors_become_result_codes() {
    assert_eq!(check_win32(0), Ok(()));
    assert_eq!(check_win32(5), Err(0x8007_0005_u32 as i32));
    assert_eq!(check_win32(0x1_0005), Err(0x8007_0005_u32 as i32));
    assert_eq!(check_win32(0x8889_0008), Err(0x8889_0008_u32 as i32));
}

#[test]
fn registration_names_the_class_and_the_library() {
    let values = registration("C:\\ak1_asio.dll");
    let lines: Vec<String> = values
        .iter()
        .map(|v| format!("{:?} {} {} {}", v.root, v.subkey, v.name.unwrap_or("-"), v.value))
        .collect();
    assert_eq!(
        lines,
        [
            format!("ClassesRoot {CLASS} - Audio Kontrol 1"),
            format!("ClassesRoot {CLASS}\\InprocServer32 - C:\\ak1_asio.dll"),
            format!("ClassesRoot {CLASS}\\InprocServer32 ThreadingModel Apartment"),
            "LocalMachine SOFTWARE\\ASIO\\Audio Kontrol 1 CLSID {3F1C6B2A-8E4D-4C7B-9A15-2D6E8F0B4C31}".to_owned(),
            "LocalMachine SOFTWARE\\ASIO\\Audio Kontrol 1 Description Audio Kontrol 1".to_owned(),
        ]
    );
}

#[test]
fn unregistering_removes_all() {
    let keys = registered_keys();
    assert_eq!(keys[0], (Root::ClassesRoot, CLASS.to_owned()));
    assert_eq!(keys[1], (Root::LocalMachine, "SOFTWARE\\ASIO\\Audio Kontrol 1".to_owned()));
    for value in registration("x") {
        assert!(keys.iter().any(|(root, key)| *root == value.root && value.subkey.starts_with(key.as_str())));
    }
}

#[test]
fn registry_texts_are_utf16_with_a_nul() {
    assert_eq!(text_bytes("A\u{20ac}"), [0x41, 0, 0xac, 0x20, 0, 0]);
    assert_eq!(text_bytes("\u{1f3b5}"), [0x3c, 0xd8, 0xb5, 0xdf, 0, 0]);
    assert_eq!(text_bytes(""), [0, 0]);
}

#[test]
fn server_stays_while_it_is_used() {
    let mut server = Server::new();
    assert_eq!(server.can_unload_now(), S_OK);
    server.object_created();
    server.lock_server(true);
    server.object_released();
    assert_eq!(server.can_unload_now(), S_FALSE);
    server.lock_server(false);
    assert_eq!(server.can_unload_now(), S_OK);
}

#[test]
fn classes_and_objects_are_refused_with_reason() {
    assert_eq!(get_class_object(Some(CLSID)), S_OK);
    assert_eq!(get_class_object(Some(0)), CLASS_E_CLASSNOTAVAILABLE);
    assert_eq!(get_class_object(None), E_POINTER);
    assert_eq!(create_instance(true, false), Ok(()));
    assert_eq!(create_instance(true, true), Err(CLASS_E_NOAGGREGATION));
    assert_eq!(create_instance(false, true), Err(E_POINTER));
}
