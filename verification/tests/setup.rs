use ak1::setup::{
    driver_deleted, driver_directory, embedded, exit_message, heading, is_confirmed, is_package, is_published, key_deleted, menu_choice,
    mode, names_catalog, registry_words, removal, removed_message, signing, uninstall_values, Choice, Exit, Install,
    Mode, Outcome, Removal, RemovalStep, Signing, Step, Uninstall, DRIVER_FILES, NO_FILES, USAGE,
};

fn strings(texts: &[&str]) -> Vec<String> {
    texts.iter().map(|text| text.to_string()).collect()
}

#[test]
fn arguments_choose_what_the_setup_does() {
    assert_eq!(mode(&[]), Ok(Mode::Ask));
    assert_eq!(mode(&strings(&["/INSTALL"])), Ok(Mode::Install));
    assert_eq!(mode(&strings(&["/uninstall"])), Ok(Mode::Uninstall));
    assert_eq!(mode(&strings(&["/install", "x"])), Err(USAGE));
    assert_eq!(mode(&strings(&["install"])), Err(USAGE));
}

#[test]
fn menu_asks_until_it_understands() {
    assert_eq!(menu_choice(Some(" 1\r\n")), Choice::Install);
    assert_eq!(menu_choice(Some("2\n")), Choice::Uninstall);
    assert_eq!(menu_choice(Some("3")), Choice::Quit);
    assert_eq!(menu_choice(Some("4\n")), Choice::AskAgain);
    assert_eq!(menu_choice(None), Choice::Quit);
}

#[test]
fn only_yes_is_yes() {
    assert!(is_confirmed(Some("y\n")));
    assert!(is_confirmed(Some(" Y ")));
    assert!(!is_confirmed(Some("yes")));
    assert!(!is_confirmed(Some("")));
    assert!(!is_confirmed(None));
}

#[test]
fn heading_names_both_versions() {
    assert_eq!(driver_directory("C:"), "C:\\ak1");
    assert_eq!(heading("1.0", Some("0.9")), "Audio Kontrol 1 driver setup 1.0 (installed: 0.9)");
    assert_eq!(heading("1.0", None), "Audio Kontrol 1 driver setup 1.0 (not installed)");
}

#[test]
fn test_signing_is_recognized() {
    assert_eq!(signing(Some(" NOEXECUTE=OPTIN  testsigning"), Some(1)), Signing::On);
    assert_eq!(signing(Some("TESTSIGNING"), None), Signing::On);
    assert_eq!(signing(Some("NOTESTSIGNING"), Some(1)), Signing::SecureBoot);
    assert_eq!(signing(Some("TESTSIGNING2"), Some(0)), Signing::Confirm);
    assert_eq!(signing(None, None), Signing::Confirm);
}

#[test]
fn installation_goes_through_its_steps() {
    assert_eq!(Install::start(false), Err(NO_FILES));
    let mut install = Install::start(true).unwrap();
    let mut steps = vec![install.step];
    while install.step != Step::Finished {
        let outcome = match install.step {
            Step::AddDriver => Outcome::Exited(259),
            Step::Register => Outcome::Exited(0),
            _ => Outcome::Done { restart: false },
        };
        install.advance(outcome).unwrap();
        steps.push(install.step);
    }
    assert_eq!(steps.len(), 11);
    assert_eq!((steps[0], steps[4], steps[7]), (Step::TestSigning, Step::AddDriver, Step::Register));
    assert_eq!(install.message(), "Installed. Plug in the Audio Kontrol 1, or replug it if it is connected.");
}

#[test]
fn restarts_are_remembered_and_failures_end_the_installation() {
    let mut install = Install { step: Step::AddDriver, restart: false };
    assert_eq!(install.advance(Outcome::Exited(5)), Err(5));
    assert_eq!(install.step, Step::AddDriver);
    assert_eq!(install.advance(Outcome::Exited(3010)), Ok(()));
    assert_eq!(install.message(), "Installed. Restart Windows to finish.");
    let mut install = Install { step: Step::Register, restart: false };
    assert_eq!(install.advance(Outcome::Exited(3010)), Err(3010));
    let mut install = Install { step: Step::TestSigning, restart: false };
    install.advance(Outcome::Done { restart: true }).unwrap();
    assert_eq!(install, Install { step: Step::Extract, restart: true });
    let mut install = Install { step: Step::TestSigning, restart: false };
    assert_eq!(install.advance(Outcome::Exited(1)), Err(1));
    assert_eq!(install, Install { step: Step::TestSigning, restart: false });
    assert_eq!(install.advance(Outcome::Exited(0)), Ok(()));
    assert_eq!(install, Install { step: Step::Extract, restart: true });
}

#[test]
fn exit_codes_of_deleting_packages_are_told_apart() {
    assert_eq!([0, 3010, 259].map(driver_deleted), [Exit::Done, Exit::Restart, Exit::Failed]);
    assert_eq!(exit_message("pnputil /add-driver", -1), "pnputil /add-driver failed with exit code -1");
}

#[test]
fn removal_leaves_out_what_is_not_there() {
    assert_eq!(removal(true, false), Removal::HandOver);
    assert_eq!(removal(false, true), Removal::DeleteLater);
    assert_eq!(removal(false, false), Removal::Plain);
    let steps = |asio: bool, certificate: bool| {
        let mut uninstall = Uninstall::start();
        let mut steps = 0;
        while uninstall.step != RemovalStep::Finished {
            uninstall.advance(uninstall.step == RemovalStep::Packages, asio, certificate);
            steps += 1;
        }
        (steps, uninstall.restart)
    };
    assert_eq!((steps(true, true), steps(false, false)), ((7, true), (5, true)));
    assert_eq!(removed_message(true), "Removed. Restart Windows to finish.");
    assert_eq!(removed_message(false), "Removed.");
    assert_eq!(key_deleted(2), Ok(()));
    assert_eq!(key_deleted(0), Ok(()));
    assert_eq!(key_deleted(5), Err(0x8007_0005_u32 as i32));
}

#[test]
fn packages_of_the_driver_are_found() {
    assert!(is_published("OEM12.INF"));
    assert!(!is_published("oem12.pnf"));
    assert!(!is_published("hdaudio.inf"));
    assert!(names_catalog(b"CatalogFile = AK1ACX.cat\r\n"));
    assert!(!names_catalog(b"CatalogFile = ak1acx.ca"));
    assert!(is_package("oem1.inf", b"ak1acx.cat"));
    assert!(!is_package("ak1.inf", b"ak1acx.cat"));
    assert!(!is_package("oem1.inf", b""));
}

#[test]
fn carried_files_are_found_by_name() {
    assert_eq!(embedded(&DRIVER_FILES, "ak1acx.cat"), Some(2));
    assert_eq!(embedded(&DRIVER_FILES, "other"), None);
}

#[test]
fn apps_list_names_the_setup() {
    let values = uninstall_values("1.0", "P", "D", "S.exe");
    assert_eq!(values.len(), 7);
    let text = |index: usize| {
        let words: Vec<u16> =
            values[index].data.chunks(2).map(|pair| u16::from_le_bytes([pair[0], pair[1]])).collect();
        String::from_utf16(&words).unwrap()
    };
    assert_eq!((values[0].name, text(0).as_str()), ("DisplayName", "Audio Kontrol 1 driver\0"));
    assert_eq!((values[4].name, text(4).as_str()), ("UninstallString", "\"S.exe\" /uninstall\0"));
    assert_eq!((values[6].name, values[6].is_number, values[6].data.as_slice()), ("NoRepair", true, &[1, 0, 0, 0][..]));
}

#[test]
fn registry_texts_lose_their_nuls() {
    let words: Vec<u16> = "a\0b\0\0".encode_utf16().collect();
    assert_eq!(registry_words(&words, 10), 3);
    assert_eq!(registry_words(&words, 4), 1);
    assert_eq!(registry_words(&[0, 0], 4), 0);
}
