//! Installing the driver, the ASIO driver and the control panel, and removing
//! them again: what is asked, in which order things are done and what the
//! outcome of each means.

use vstd::prelude::*;

use crate::bytes::{le32_bytes, u32_byte};
use crate::com::{check_win32, check_win32_spec, HResult};
use crate::server::{registry_text, text_bytes};
use crate::text::{
    begins_with, chars_begin, chars_end, chars_of, contains_word, decimal, ends_with, has_word, lower,
    lower_chars, push_signed, same_but_for_case, same_chars, same_text, string_of, trim,
    trimmed_chars,
};

verus! {

pub const NAME: &'static str = "Audio Kontrol 1";

pub const INF: &'static str = "ak1acx.inf";

pub const CATALOG: &'static str = "ak1acx.cat";

pub const CERTIFICATE: &'static str = "ak1-driver-test.cer";

pub const DRIVER_FILES: [&'static str; 4] = [
    "ak1acx.inf",
    "ak1acx.sys",
    "ak1acx.cat",
    "ak1-driver-test.cer",
];

pub const ASIO_DLL: &'static str = "ak1_asio.dll";

pub const PANEL: &'static str = "ak1-panel.exe";

pub const SETUP: &'static str = "ak1-setup.exe";

pub const USAGE: &'static str = "usage: ak1-setup [/install | /uninstall]";

pub const NO_FILES: &'static str =
    "this build carries no files to install; build it with scripts\\make-bundle.ps1";

pub const SECURE_BOOT_ON: &'static str =
    "Secure Boot is on. Windows loads this test-signed driver only with Secure Boot off and test signing on: turn Secure Boot off in the PC's firmware settings, then run this setup again.";

pub const NOT_CONFIRMED: &'static str = "test signing is off; nothing was installed";

/// pnputil: no device that the driver is for is plugged in.
pub const NO_DEVICE: i32 = 259;

/// pnputil: Windows has to restart.
pub const RESTART_REQUIRED: i32 = 3010;

pub const ERROR_FILE_NOT_FOUND: u32 = 2;

/// What the setup is to do.
#[derive(Clone, Copy, Debug, PartialEq, Eq, Structural)]
pub enum Mode {
    /// Ask, as when it is started from Explorer.
    Ask,
    Install,
    Uninstall,
}

/// What arguments ask for; `None` where they are wrong.
pub open spec fn mode_spec(args: Seq<String>) -> Option<Mode> {
    if args.len() == 0 {
        Some(Mode::Ask)
    } else if args.len() == 1 && lower(args[0]@) == lower("/install"@) {
        Some(Mode::Install)
    } else if args.len() == 1 && lower(args[0]@) == lower("/uninstall"@) {
        Some(Mode::Uninstall)
    } else {
        None
    }
}

/// What the arguments ask for.
pub fn mode(args: &[String]) -> (mode: Result<Mode, &'static str>)
    ensures
        match mode {
            Ok(mode) => mode_spec(args@) == Some(mode),
            Err(usage) => mode_spec(args@) is None && usage@ == USAGE@,
        },
{
    if args.len() == 0 {
        Ok(Mode::Ask)
    } else if args.len() == 1 && same_but_for_case(args[0].as_str(), "/install") {
        Ok(Mode::Install)
    } else if args.len() == 1 && same_but_for_case(args[0].as_str(), "/uninstall") {
        Ok(Mode::Uninstall)
    } else {
        Err(USAGE)
    }
}

/// What an answer to the menu means.
#[derive(Clone, Copy, Debug, PartialEq, Eq, Structural)]
pub enum Choice {
    Install,
    Uninstall,
    Quit,
    AskAgain,
}

/// What an answer to the menu means; `None` is the end of the input.
pub fn menu_choice(answer: Option<&str>) -> (choice: Choice)
    ensures
        choice == match answer {
            None => Choice::Quit,
            Some(answer) => if trim(answer@) == "1"@ {
                Choice::Install
            } else if trim(answer@) == "2"@ {
                Choice::Uninstall
            } else if trim(answer@) == "3"@ {
                Choice::Quit
            } else {
                Choice::AskAgain
            },
        },
{
    match answer {
        None => Choice::Quit,
        Some(answer) => {
            let chars: Vec<char> = chars_of(answer);
            let trimmed: Vec<char> = trimmed_chars(chars.as_slice());
            if is_text(&trimmed, "1") {
                Choice::Install
            } else if is_text(&trimmed, "2") {
                Choice::Uninstall
            } else if is_text(&trimmed, "3") {
                Choice::Quit
            } else {
                Choice::AskAgain
            }
        },
    }
}

fn is_text(chars: &Vec<char>, text: &str) -> (same: bool)
    ensures
        same == (chars@ == text@),
{
    let other: Vec<char> = chars_of(text);
    same_chars(chars.as_slice(), other.as_slice())
}

/// Whether an answer to a yes-or-no question is yes.
pub fn is_confirmed(answer: Option<&str>) -> (yes: bool)
    ensures
        yes == match answer {
            None => false,
            Some(answer) => lower(trim(answer@)) == lower("y"@),
        },
{
    match answer {
        None => false,
        Some(answer) => {
            let chars: Vec<char> = chars_of(answer);
            let trimmed: Vec<char> = trimmed_chars(chars.as_slice());
            proof {
                reveal_strlit("y");
                reveal_strlit("Y");
                assert(lower("y"@) =~= "y"@);
                if trimmed@ == "Y"@ {
                    assert(lower(trimmed@) =~= "y"@);
                }
                if lower(trimmed@) == "y"@ {
                    assert(trimmed.len() == 1);
                    let c = trimmed@[0];
                    assert(lower(trimmed@)[0] == crate::text::ascii_lower(c));
                    assert("y"@[0] == 'y');
                    assert(c == 'y' || c == 'Y');
                    if c == 'y' {
                        assert(trimmed@ =~= "y"@);
                    } else {
                        assert(trimmed@ =~= "Y"@);
                    }
                }
            }
            is_text(&trimmed, "y") || is_text(&trimmed, "Y")
        },
    }
}

/// Where the driver package is kept on the system drive.
pub fn driver_directory(drive: &str) -> (path: String)
    ensures
        path@ == drive@ + "\\ak1"@,
{
    let mut path: String = string_of(drive);
    path.append("\\ak1");
    path
}

/// The first line of the setup, given its version and the installed one.
pub fn heading(version: &str, installed: Option<&str>) -> (text: String)
    ensures
        text@ == "Audio Kontrol 1 driver setup "@ + version@ + " ("@ + (match installed {
            Some(installed) => "installed: "@ + installed@,
            None => "not installed"@,
        }) + ")"@,
{
    let mut text: String = string_of("Audio Kontrol 1 driver setup ");
    text.append(version);
    text.append(" (");
    let ghost before = text@;
    match installed {
        Some(installed) => {
            text.append("installed: ");
            text.append(installed);
            assert(text@ =~= before + ("installed: "@ + installed@));
        },
        None => {
            text.append("not installed");
        },
    }
    text.append(")");
    text
}

/// What test signing needs.
#[derive(Clone, Copy, Debug, PartialEq, Eq, Structural)]
pub enum Signing {
    /// It is on.
    On,
    /// It cannot be turned on: Secure Boot is.
    SecureBoot,
    /// The user has to confirm that it is turned on.
    Confirm,
}

/// What test signing needs, given the options Windows started with and
/// whether Secure Boot is on. Windows loads the test-signed driver only when
/// it started with test signing on.
pub fn signing(start_options: Option<&str>, secure_boot: Option<u32>) -> (signing: Signing)
    ensures
        signing == (if (start_options matches Some(options) && has_word(options@, "TESTSIGNING"@)) {
            Signing::On
        } else if secure_boot == Some(1u32) {
            Signing::SecureBoot
        } else {
            Signing::Confirm
        }),
{
    let on = match start_options {
        Some(options) => contains_word(options, "TESTSIGNING"),
        None => false,
    };
    let secure = match secure_boot {
        Some(value) => value == 1,
        None => false,
    };
    if on {
        Signing::On
    } else if secure {
        Signing::SecureBoot
    } else {
        Signing::Confirm
    }
}

/// What the exit code of a program means for what it was run for.
#[derive(Clone, Copy, Debug, PartialEq, Eq, Structural)]
pub enum Exit {
    Done,
    /// It is done once Windows has restarted.
    Restart,
    Failed,
}

/// bcdedit turning test signing on: Windows has to restart for that.
pub open spec fn test_signing_exit(code: i32) -> Exit {
    if code == 0 {
        Exit::Restart
    } else {
        Exit::Failed
    }
}

/// pnputil adding a driver: without the device it is done too.
pub open spec fn add_driver_exit(code: i32) -> Exit {
    if code == 0 || code == NO_DEVICE {
        Exit::Done
    } else if code == RESTART_REQUIRED {
        Exit::Restart
    } else {
        Exit::Failed
    }
}

/// pnputil deleting a driver package.
pub open spec fn delete_driver_exit(code: i32) -> Exit {
    if code == 0 {
        Exit::Done
    } else if code == RESTART_REQUIRED {
        Exit::Restart
    } else {
        Exit::Failed
    }
}

/// What `pnputil /delete-driver` with the given exit code did to a package.
pub fn driver_deleted(code: i32) -> (exit: Exit)
    ensures
        exit == delete_driver_exit(code),
{
    if code == 0 {
        Exit::Done
    } else if code == RESTART_REQUIRED {
        Exit::Restart
    } else {
        Exit::Failed
    }
}

/// The steps of an installation, in order.
#[derive(Clone, Copy, Debug, PartialEq, Eq, Structural)]
pub enum Step {
    TestSigning,
    /// The driver package is put where users can find it.
    Extract,
    /// The driver's certificate is trusted.
    Trust,
    /// Windows keeps the card on an installed package with a higher version,
    /// so packages that are there are removed.
    RemovePackages,
    AddDriver,
    /// The ASIO driver and the control panel are put in place.
    Programs,
    /// The setup itself too.
    CopySetup,
    /// The ASIO driver is registered.
    Register,
    Shortcut,
    Uninstaller,
    Finished,
}

pub open spec fn step_after(step: Step) -> Step {
    match step {
        Step::TestSigning => Step::Extract,
        Step::Extract => Step::Trust,
        Step::Trust => Step::RemovePackages,
        Step::RemovePackages => Step::AddDriver,
        Step::AddDriver => Step::Programs,
        Step::Programs => Step::CopySetup,
        Step::CopySetup => Step::Register,
        Step::Register => Step::Shortcut,
        Step::Shortcut => Step::Uninstaller,
        Step::Uninstaller => Step::Finished,
        Step::Finished => Step::Finished,
    }
}

/// How a step went.
#[derive(Clone, Copy, Debug, PartialEq, Eq, Structural)]
pub enum Outcome {
    /// It is done, and may need Windows to restart.
    Done { restart: bool },
    /// The program that was run for it exited.
    Exited(i32),
}

/// How far an installation is.
#[derive(Clone, Copy, Debug, PartialEq, Eq, Structural)]
pub struct Install {
    pub step: Step,
    /// Whether Windows has to restart to finish.
    pub restart: bool,
}

/// What the outcome of a step means.
pub open spec fn step_exit(step: Step, outcome: Outcome) -> Exit {
    match outcome {
        Outcome::Done { restart } => if restart {
            Exit::Restart
        } else {
            Exit::Done
        },
        Outcome::Exited(code) => match step {
            Step::TestSigning => test_signing_exit(code),
            Step::AddDriver => add_driver_exit(code),
            _ => if code == 0 {
                Exit::Done
            } else {
                Exit::Failed
            },
        },
    }
}

impl Install {
    pub open spec fn after(self, outcome: Outcome) -> Install {
        match step_exit(self.step, outcome) {
            Exit::Done => Install { step: step_after(self.step), ..self },
            Exit::Restart => Install { step: step_after(self.step), restart: true },
            Exit::Failed => self,
        }
    }

    /// Begins an installation where the setup carries the files for it.
    pub fn start(has_files: bool) -> (install: Result<Install, &'static str>)
        ensures
            match install {
                Ok(install) => has_files && install == (Install {
                    step: Step::TestSigning,
                    restart: false,
                }),
                Err(message) => !has_files && message@ == NO_FILES@,
            },
    {
        if has_files {
            Ok(Install { step: Step::TestSigning, restart: false })
        } else {
            Err(NO_FILES)
        }
    }

    /// Goes on to the next step; gives the exit code of a program that failed,
    /// which ends the installation.
    pub fn advance(&mut self, outcome: Outcome) -> (result: Result<(), i32>)
        requires
            old(self).step !is Finished,
        ensures
            *final(self) == old(self).after(outcome),
            match result {
                Ok(()) => step_exit(old(self).step, outcome) !is Failed,
                Err(code) => step_exit(old(self).step, outcome) is Failed && outcome == Outcome::Exited(code),
            },
    {
        match outcome {
            Outcome::Done { restart } => {
                if restart {
                    self.restart = true;
                }
            },
            Outcome::Exited(code) => {
                if self.step == Step::TestSigning {
                    if code != 0 {
                        return Err(code);
                    }
                    self.restart = true;
                } else if self.step == Step::AddDriver {
                    if code == RESTART_REQUIRED {
                        self.restart = true;
                    } else if code != 0 && code != NO_DEVICE {
                        return Err(code);
                    }
                } else if code != 0 {
                    return Err(code);
                }
            },
        }
        self.step = match self.step {
            Step::TestSigning => Step::Extract,
            Step::Extract => Step::Trust,
            Step::Trust => Step::RemovePackages,
            Step::RemovePackages => Step::AddDriver,
            Step::AddDriver => Step::Programs,
            Step::Programs => Step::CopySetup,
            Step::CopySetup => Step::Register,
            Step::Register => Step::Shortcut,
            Step::Shortcut => Step::Uninstaller,
            Step::Uninstaller => Step::Finished,
            Step::Finished => Step::Finished,
        };
        Ok(())
    }

    /// What to say when all is done.
    pub fn message(&self) -> (text: &'static str)
        ensures
            text@ == (if self.restart {
                "Installed. Restart Windows to finish."@
            } else {
                "Installed. Plug in the Audio Kontrol 1, or replug it if it is connected."@
            }),
    {
        if self.restart {
            "Installed. Restart Windows to finish."
        } else {
            "Installed. Plug in the Audio Kontrol 1, or replug it if it is connected."
        }
    }
}

/// An installation after the outcomes of its first steps.
pub open spec fn installed(outcomes: Seq<Outcome>) -> Install
    decreases outcomes.len(),
{
    if outcomes.len() == 0 {
        Install { step: Step::TestSigning, restart: false }
    } else {
        installed(outcomes.drop_last()).after(outcomes.last())
    }
}

/// The `index`-th step.
pub open spec fn step_at(index: nat) -> Step
    decreases index,
{
    if index == 0 {
        Step::TestSigning
    } else {
        step_after(step_at((index - 1) as nat))
    }
}

/// An installation none of whose steps failed goes through them in order, and
/// asks for a restart exactly when one of them did.
pub proof fn law_restart_is_asked_for_when_needed(outcomes: Seq<Outcome>)
    requires
        forall|i: int|
            0 <= i < outcomes.len() ==> step_exit(step_at(i as nat), #[trigger] outcomes[i]) !is Failed,
    ensures
        installed(outcomes).step == step_at(outcomes.len()),
        installed(outcomes).restart == exists|i: int|
            0 <= i < outcomes.len() && step_exit(step_at(i as nat), #[trigger] outcomes[i]) is Restart,
    decreases outcomes.len(),
{
    if outcomes.len() > 0 {
        let before = outcomes.drop_last();
        let last = outcomes.len() - 1;
        assert forall|i: int| 0 <= i < before.len() implies step_exit(
            step_at(i as nat),
            #[trigger] before[i],
        ) !is Failed by {
            assert(before[i] == outcomes[i]);
        }
        law_restart_is_asked_for_when_needed(before);
        assert(step_exit(step_at(last as nat), outcomes[last]) !is Failed);
        if installed(before).restart {
            let i = choose|i: int|
                0 <= i < before.len() && step_exit(step_at(i as nat), #[trigger] before[i]) is Restart;
            assert(step_exit(step_at(i as nat), outcomes[i]) is Restart);
        } else {
            assert forall|i: int| 0 <= i < before.len() implies step_exit(
                step_at(i as nat),
                #[trigger] outcomes[i],
            ) !is Restart by {
                assert(before[i] == outcomes[i]);
            }
        }
    }
}

/// An installation is over after its ten steps, and not before.
pub proof fn law_installation_has_ten_steps(index: nat)
    requires
        index <= 10,
    ensures
        step_at(index) is Finished <==> index == 10,
{
    reveal_with_fuel(step_at, 11);
}

/// "pnputil /add-driver failed with exit code 5"
pub fn exit_message(what: &str, code: i32) -> (text: String)
    ensures
        text@ == what@ + " failed with exit code "@ + decimal(code as int),
{
    let mut text: String = string_of(what);
    text.append(" failed with exit code ");
    push_signed(&mut text, code as i64);
    text
}

/// How a removal begins.
#[derive(Clone, Copy, Debug, PartialEq, Eq, Structural)]
pub enum Removal {
    /// A running program cannot delete itself, so the installed copy hands
    /// over to one in the temporary directory.
    HandOver,
    /// The copy in the temporary directory has Windows delete it at the next
    /// restart.
    DeleteLater,
    Plain,
}

/// How a removal begins, given where the running setup is.
pub fn removal(in_programs: bool, is_temporary: bool) -> (removal: Removal)
    ensures
        removal == (if in_programs {
            Removal::HandOver
        } else if is_temporary {
            Removal::DeleteLater
        } else {
            Removal::Plain
        }),
{
    if in_programs {
        Removal::HandOver
    } else if is_temporary {
        Removal::DeleteLater
    } else {
        Removal::Plain
    }
}

/// The steps of a removal, in order.
#[derive(Clone, Copy, Debug, PartialEq, Eq, Structural)]
pub enum RemovalStep {
    Shortcut,
    /// The ASIO driver is unregistered, where it is there.
    Unregister,
    Programs,
    /// The driver packages are removed.
    Packages,
    /// The driver's certificate is trusted no more, where it can be had.
    Distrust,
    DriverFiles,
    /// The entry among the installed apps.
    Key,
    Finished,
}

/// How far a removal is.
#[derive(Clone, Copy, Debug, PartialEq, Eq, Structural)]
pub struct Uninstall {
    pub step: RemovalStep,
    /// Whether Windows has to restart to finish.
    pub restart: bool,
}

/// The step after `step`, given whether the ASIO driver is there and the
/// certificate can be had.
pub open spec fn removal_step_after(step: RemovalStep, asio: bool, certificate: bool) -> RemovalStep {
    match step {
        RemovalStep::Shortcut => if asio {
            RemovalStep::Unregister
        } else {
            RemovalStep::Programs
        },
        RemovalStep::Unregister => RemovalStep::Programs,
        RemovalStep::Programs => RemovalStep::Packages,
        RemovalStep::Packages => if certificate {
            RemovalStep::Distrust
        } else {
            RemovalStep::DriverFiles
        },
        RemovalStep::Distrust => RemovalStep::DriverFiles,
        RemovalStep::DriverFiles => RemovalStep::Key,
        RemovalStep::Key => RemovalStep::Finished,
        RemovalStep::Finished => RemovalStep::Finished,
    }
}

impl Uninstall {
    pub fn start() -> (uninstall: Uninstall)
        ensures
            uninstall == (Uninstall { step: RemovalStep::Shortcut, restart: false }),
    {
        Uninstall { step: RemovalStep::Shortcut, restart: false }
    }

    /// The step is done: goes on to the next one.
    pub fn advance(&mut self, restart: bool, asio: bool, certificate: bool)
        requires
            old(self).step !is Finished,
        ensures
            *final(self) == (Uninstall {
                step: removal_step_after(old(self).step, asio, certificate),
                restart: old(self).restart || restart,
            }),
    {
        self.restart = self.restart || restart;
        self.step = match self.step {
            RemovalStep::Shortcut => if asio {
                RemovalStep::Unregister
            } else {
                RemovalStep::Programs
            },
            RemovalStep::Unregister => RemovalStep::Programs,
            RemovalStep::Programs => RemovalStep::Packages,
            RemovalStep::Packages => if certificate {
                RemovalStep::Distrust
            } else {
                RemovalStep::DriverFiles
            },
            RemovalStep::Distrust => RemovalStep::DriverFiles,
            RemovalStep::DriverFiles => RemovalStep::Key,
            RemovalStep::Key => RemovalStep::Finished,
            RemovalStep::Finished => RemovalStep::Finished,
        };
    }
}

/// How many steps of a removal are left at most.
pub open spec fn steps_left(step: RemovalStep) -> nat {
    match step {
        RemovalStep::Shortcut => 7,
        RemovalStep::Unregister => 6,
        RemovalStep::Programs => 5,
        RemovalStep::Packages => 4,
        RemovalStep::Distrust => 3,
        RemovalStep::DriverFiles => 2,
        RemovalStep::Key => 1,
        RemovalStep::Finished => 0,
    }
}

/// A removal gets nearer to its end with every step, and leaves out only
/// unregistering and distrusting, where there is nothing to do for them.
pub proof fn law_removal_ends(step: RemovalStep, asio: bool, certificate: bool)
    requires
        step !is Finished,
    ensures
        steps_left(removal_step_after(step, asio, certificate)) < steps_left(step),
        asio && certificate ==> steps_left(removal_step_after(step, asio, certificate)) + 1
            == steps_left(step),
{
}

/// What to say when all is removed.
pub fn removed_message(restart: bool) -> (text: &'static str)
    ensures
        text@ == (if restart {
            "Removed. Restart Windows to finish."@
        } else {
            "Removed."@
        }),
{
    if restart {
        "Removed. Restart Windows to finish."
    } else {
        "Removed."
    }
}

/// The outcome of deleting the uninstall key: one that is not there is deleted.
pub fn key_deleted(status: u32) -> (result: Result<(), HResult>)
    ensures
        result == (if status == ERROR_FILE_NOT_FOUND {
            Ok(())
        } else {
            check_win32_spec(status)
        }),
{
    if status == ERROR_FILE_NOT_FOUND {
        Ok(())
    } else {
        check_win32(status)
    }
}

/// Whether a file name is one under which the driver store publishes a package.
pub open spec fn is_published_spec(name: Seq<char>) -> bool {
    begins_with(lower(name), "oem"@) && ends_with(lower(name), ".inf"@)
}

/// Whether a file name is one under which the driver store publishes a package.
pub fn is_published(name: &str) -> (published: bool)
    ensures
        published == is_published_spec(name@),
{
    let small: Vec<char> = lower_chars(name);
    let start: Vec<char> = chars_of("oem");
    let end: Vec<char> = chars_of(".inf");
    chars_begin(small.as_slice(), start.as_slice()) && chars_end(small.as_slice(), end.as_slice())
}

/// A byte with an ASCII capital made small.
pub open spec fn lower_byte(byte: u8) -> u8 {
    if 65 <= byte <= 90 {
        (byte + 32) as u8
    } else {
        byte
    }
}

/// Whether the bytes at `at` are `part` but for the case of ASCII letters in them.
pub open spec fn bytes_match(bytes: Seq<u8>, at: int, part: Seq<u8>) -> bool {
    0 <= at && at + part.len() <= bytes.len() && forall|i: int|
        0 <= i < part.len() ==> lower_byte(bytes[at + i]) == #[trigger] part[i]
}

/// Whether the description of a package names the driver's catalog.
pub open spec fn names_catalog_spec(inf: Seq<u8>) -> bool {
    exists|at: int| #[trigger] bytes_match(inf, at, vstd::utf8::encode_utf8(CATALOG@))
}

/// Whether the description of a package names the driver's catalog.
pub fn names_catalog(inf: &[u8]) -> (found: bool)
    ensures
        found == names_catalog_spec(inf@),
{
    let part: &[u8] = CATALOG.as_bytes();
    let mut at: usize = 0;
    while at < inf.len() && part.len() <= inf.len() - at
        invariant
            at <= inf.len(),
            part@ == vstd::utf8::encode_utf8(CATALOG@),
            forall|k: int| 0 <= k < at ==> !(#[trigger] bytes_match(inf@, k, part@)),
        decreases inf.len() - at,
    {
        let mut i: usize = 0;
        while i < part.len() && lowered(inf[at + i]) == part[i]
            invariant
                i <= part.len(),
                at + part.len() <= inf.len(),
                forall|k: int| 0 <= k < i ==> lower_byte(inf@[at + k]) == #[trigger] part@[k],
            decreases part.len() - i,
        {
            i = i + 1;
        }
        if i == part.len() {
            assert(bytes_match(inf@, at as int, part@));
            return true;
        }
        assert(lower_byte(inf@[at + i]) != part@[i as int]);
        at = at + 1;
    }
    if part.len() == 0 {
        assert(bytes_match(inf@, 0, part@));
        return true;
    }
    false
}

fn lowered(byte: u8) -> (small: u8)
    ensures
        small == lower_byte(byte),
{
    if 65 <= byte && byte <= 90 {
        byte + 32
    } else {
        byte
    }
}

/// Whether a file of the driver store is the description of one of the
/// driver's packages.
pub fn is_package(name: &str, inf: &[u8]) -> (package: bool)
    ensures
        package == (is_published_spec(name@) && names_catalog_spec(inf@)),
{
    is_published(name) && names_catalog(inf)
}

/// The first of `names` from `from` on that is `name`.
pub open spec fn embedded_spec(names: Seq<&'static str>, name: Seq<char>, from: int) -> Option<int>
    decreases names.len() - from,
{
    if from < 0 || from >= names.len() {
        None
    } else if names[from]@ == name {
        Some(from)
    } else {
        embedded_spec(names, name, from + 1)
    }
}

/// Which of the files that the setup carries has the name `name`.
pub fn embedded(names: &[&'static str], name: &str) -> (index: Option<usize>)
    ensures
        match index {
            Some(index) => embedded_spec(names@, name@, 0) == Some(index as int),
            None => embedded_spec(names@, name@, 0) is None,
        },
{
    let mut i: usize = 0;
    while i < names.len()
        invariant
            i <= names.len(),
            embedded_spec(names@, name@, 0) == embedded_spec(names@, name@, i as int),
        decreases names.len() - i,
    {
        if same_text(names[i], name) {
            return Some(i);
        }
        i = i + 1;
    }
    None
}

/// A value of the uninstall key.
#[derive(Debug)]
pub struct KeyValue {
    pub name: &'static str,
    /// Whether it is a number rather than text.
    pub is_number: bool,
    pub data: Vec<u8>,
}

/// A value of the uninstall key as a value.
pub struct KeyValueView {
    pub name: Seq<char>,
    pub is_number: bool,
    pub data: Seq<u8>,
}

impl View for KeyValue {
    type V = KeyValueView;

    open spec fn view(&self) -> KeyValueView {
        KeyValueView { name: self.name@, is_number: self.is_number, data: self.data@ }
    }
}

pub open spec fn text_value_spec(name: Seq<char>, text: Seq<char>) -> KeyValueView {
    KeyValueView { name, is_number: false, data: registry_text(text) }
}

pub open spec fn number_value_spec(name: Seq<char>, number: u32) -> KeyValueView {
    KeyValueView { name, is_number: true, data: le32_bytes(number as int) }
}

fn text_value(name: &'static str, text: &str) -> (value: KeyValue)
    ensures
        value@ == text_value_spec(name@, text@),
{
    KeyValue { name, is_number: false, data: text_bytes(text) }
}

fn number_value(name: &'static str, number: u32) -> (value: KeyValue)
    ensures
        value@ == number_value_spec(name@, number),
{
    let mut data: Vec<u8> = Vec::new();
    data.push(u32_byte(number, 0));
    data.push(u32_byte(number, 1));
    data.push(u32_byte(number, 2));
    data.push(u32_byte(number, 3));
    assert(data@ =~= le32_bytes(number as int));
    KeyValue { name, is_number: true, data }
}

/// What the uninstall key says of the driver: its version, where the panel and
/// the programs are, and the setup that removes it.
pub open spec fn uninstall_values_spec(
    version: Seq<char>,
    panel: Seq<char>,
    programs: Seq<char>,
    setup: Seq<char>,
) -> Seq<KeyValueView> {
    seq![
        text_value_spec("DisplayName"@, "Audio Kontrol 1 driver"@),
        text_value_spec("DisplayVersion"@, version),
        text_value_spec("DisplayIcon"@, panel),
        text_value_spec("InstallLocation"@, programs),
        text_value_spec("UninstallString"@, "\""@ + setup + "\" /uninstall"@),
        number_value_spec("NoModify"@, 1),
        number_value_spec("NoRepair"@, 1),
    ]
}

/// The values that list the setup among the installed apps, whose Uninstall
/// button runs it with /uninstall.
pub fn uninstall_values(version: &str, panel: &str, programs: &str, setup: &str) -> (values: Vec<KeyValue>)
    ensures
        Seq::new(values@.len(), |i: int| values@[i]@) == uninstall_values_spec(
            version@,
            panel@,
            programs@,
            setup@,
        ),
{
    let mut command: String = string_of("\"");
    command.append(setup);
    command.append("\" /uninstall");
    let mut values: Vec<KeyValue> = Vec::new();
    values.push(text_value("DisplayName", "Audio Kontrol 1 driver"));
    values.push(text_value("DisplayVersion", version));
    values.push(text_value("DisplayIcon", panel));
    values.push(text_value("InstallLocation", programs));
    values.push(text_value("UninstallString", command.as_str()));
    values.push(number_value("NoModify", 1));
    values.push(number_value("NoRepair", 1));
    assert(Seq::new(values@.len(), |i: int| values@[i]@) =~= uninstall_values_spec(
        version@,
        panel@,
        programs@,
        setup@,
    ));
    values
}

/// How many words of a text are left without the NULs at its end.
pub open spec fn text_end(words: Seq<u16>) -> nat
    decreases words.len(),
{
    if words.len() > 0 && words.last() == 0 {
        text_end(words.drop_last())
    } else {
        words.len()
    }
}

/// A text value of `size` bytes of the registry, without the NULs at its end.
pub fn registry_words(buffer: &[u16], size: u32) -> (count: usize)
    requires
        size / 2 <= buffer.len(),
    ensures
        count == text_end(buffer@.subrange(0, size as int / 2)),
        count <= size / 2,
{
    let mut end: usize = (size / 2) as usize;
    let ghost text = buffer@.subrange(0, size as int / 2);
    assert(text.subrange(0, end as int) =~= text);
    while end > 0 && buffer[end - 1] == 0
        invariant
            end <= size / 2 <= buffer.len(),
            text == buffer@.subrange(0, size as int / 2),
            text_end(text) == text_end(text.subrange(0, end as int)),
        decreases end,
    {
        assert(text.subrange(0, end as int).drop_last() =~= text.subrange(0, end - 1));
        end = end - 1;
    }
    end
}

/// The steps of an installation in their order: nothing is put in place before
/// the driver can be loaded, and the uninstaller comes last.
pub proof fn law_installation_steps_in_order()
    ensures
        step_after(Step::TestSigning) == Step::Extract,
        step_after(Step::Extract) == Step::Trust,
        step_after(Step::Trust) == Step::RemovePackages,
        step_after(Step::RemovePackages) == Step::AddDriver,
        step_after(Step::AddDriver) == Step::Programs,
        step_after(Step::Programs) == Step::CopySetup,
        step_after(Step::CopySetup) == Step::Register,
        step_after(Step::Register) == Step::Shortcut,
        step_after(Step::Shortcut) == Step::Uninstaller,
        step_after(Step::Uninstaller) == Step::Finished,
        step_after(Step::Finished) == Step::Finished,
{
}

/// What exit codes mean. Zero is success, after which test signing alone needs a
/// restart; 3010 asks for one where drivers are added or deleted, 259 says that
/// the device is not there, which is no failure; all else fails.
pub proof fn law_exit_codes(step: Step, code: i32, restart: bool)
    ensures
        step is TestSigning ==> (step_exit(step, Outcome::Exited(code)) is Restart <==> code == 0),
        step is TestSigning ==> (step_exit(step, Outcome::Exited(code)) is Failed <==> code != 0),
        step is AddDriver ==> (step_exit(step, Outcome::Exited(code)) is Done <==> code == 0 || code
            == 259),
        step is AddDriver ==> (step_exit(step, Outcome::Exited(code)) is Restart <==> code == 3010),
        !(step is TestSigning) && !(step is AddDriver) ==> (step_exit(
            step,
            Outcome::Exited(code),
        ) is Done <==> code == 0),
        !(step is TestSigning) && !(step is AddDriver) ==> (step_exit(
            step,
            Outcome::Exited(code),
        ) is Failed <==> code != 0),
        step_exit(step, Outcome::Done { restart }) is Restart <==> restart,
        step_exit(step, Outcome::Done { restart }) is Done <==> !restart,
        delete_driver_exit(code) is Done <==> code == 0,
        delete_driver_exit(code) is Restart <==> code == 3010,
{
}

/// A step that failed leaves an installation where it is. Any other takes it to
/// the next step, and a restart that was asked for once stays asked for.
pub proof fn law_installations_go_on(install: Install, outcome: Outcome)
    ensures
        step_exit(install.step, outcome) is Failed ==> install.after(outcome) == install,
        step_exit(install.step, outcome) !is Failed ==> install.after(outcome).step == step_after(
            install.step,
        ),
        step_exit(install.step, outcome) is Restart ==> install.after(outcome).restart,
        step_exit(install.step, outcome) is Done ==> install.after(outcome).restart
            == install.restart,
{
}

/// The steps of a removal in their order. The ASIO driver is unregistered while
/// its file is there, and the driver's packages go before its certificate.
pub proof fn law_removal_steps_in_order(asio: bool, certificate: bool)
    ensures
        removal_step_after(RemovalStep::Shortcut, true, certificate) == RemovalStep::Unregister,
        removal_step_after(RemovalStep::Shortcut, false, certificate) == RemovalStep::Programs,
        removal_step_after(RemovalStep::Unregister, asio, certificate) == RemovalStep::Programs,
        removal_step_after(RemovalStep::Programs, asio, certificate) == RemovalStep::Packages,
        removal_step_after(RemovalStep::Packages, asio, true) == RemovalStep::Distrust,
        removal_step_after(RemovalStep::Packages, asio, false) == RemovalStep::DriverFiles,
        removal_step_after(RemovalStep::Distrust, asio, certificate) == RemovalStep::DriverFiles,
        removal_step_after(RemovalStep::DriverFiles, asio, certificate) == RemovalStep::Key,
        removal_step_after(RemovalStep::Key, asio, certificate) == RemovalStep::Finished,
        removal_step_after(RemovalStep::Finished, asio, certificate) == RemovalStep::Finished,
{
}

/// The driver store publishes packages under names that begin with "oem" and end
/// in ".inf", in capitals or not.
pub proof fn law_published_names(name: Seq<char>, middle: Seq<char>)
    ensures
        lower(name) == "oem"@ + middle + ".inf"@ ==> is_published_spec(name),
        is_published_spec(name) ==> begins_with(lower(name), "oem"@) && ends_with(
            lower(name),
            ".inf"@,
        ),
{
    let text = "oem"@ + middle + ".inf"@;
    assert(text.subrange(0, "oem"@.len() as int) =~= "oem"@);
    assert(text.subrange(text.len() - ".inf"@.len(), text.len() as int) =~= ".inf"@);
}

/// A package is the driver's where its description has the name of the catalog
/// anywhere in it, in capitals or not.
pub proof fn law_catalogs_are_named_anywhere(inf: Seq<u8>, at: int, byte: u8)
    ensures
        ({
            let name = vstd::utf8::encode_utf8(CATALOG@);
            0 <= at && at + name.len() <= inf.len() && (forall|i: int|
                0 <= i < name.len() ==> inf[at + i] == #[trigger] name[i] && !(65 <= name[i] <= 90))
                ==> names_catalog_spec(inf)
        }),
        names_catalog_spec(inf) ==> exists|k: int|
            0 <= k <= inf.len() && #[trigger] bytes_match(
                inf,
                k,
                vstd::utf8::encode_utf8(CATALOG@),
            ),
        65 <= byte <= 90 ==> lower_byte(byte) == byte + 32,
        !(65 <= byte <= 90) ==> lower_byte(byte) == byte,
{
    let name = vstd::utf8::encode_utf8(CATALOG@);
    if 0 <= at && at + name.len() <= inf.len() && (forall|i: int|
        0 <= i < name.len() ==> inf[at + i] == #[trigger] name[i] && !(65 <= name[i] <= 90)) {
        assert(bytes_match(inf, at, name));
    }
}

/// A file is found by its name among those that the setup carries.
pub proof fn law_files_are_found_by_name(
    names: Seq<&'static str>,
    name: Seq<char>,
    from: int,
    at: int,
)
    requires
        0 <= from <= at <= names.len(),
        forall|k: int| from <= k < at ==> (#[trigger] names[k])@ != name,
    ensures
        at < names.len() && names[at]@ == name ==> embedded_spec(names, name, from) == Some(at),
        at == names.len() ==> embedded_spec(names, name, from) is None,
    decreases names.len() - from,
{
    if from < at {
        assert(names[from]@ != name);
        law_files_are_found_by_name(names, name, from + 1, at);
    }
}

/// Among the installed apps the driver has its name, its version, the panel's
/// icon and its place, is removed by its setup, and can be neither modified nor
/// repaired.
pub proof fn law_uninstall_values_in_order(
    version: Seq<char>,
    panel: Seq<char>,
    programs: Seq<char>,
    setup: Seq<char>,
    i: int,
)
    requires
        0 <= i < 5,
    ensures
        ({
            let values = uninstall_values_spec(version, panel, programs, setup);
            &&& values.len() == 7
            &&& !values[i].is_number
            &&& values[0].name == "DisplayName"@
            &&& values[0].data == registry_text("Audio Kontrol 1 driver"@)
            &&& values[1].name == "DisplayVersion"@
            &&& values[1].data == registry_text(version)
            &&& values[2].name == "DisplayIcon"@
            &&& values[2].data == registry_text(panel)
            &&& values[3].name == "InstallLocation"@
            &&& values[3].data == registry_text(programs)
            &&& values[4].name == "UninstallString"@
            &&& values[4].data == registry_text("\""@ + setup + "\" /uninstall"@)
            &&& values[5].name == "NoModify"@
            &&& values[5].is_number
            &&& values[5].data == seq![1u8, 0u8, 0u8, 0u8]
            &&& values[6].name == "NoRepair"@
            &&& values[6].is_number
            &&& values[6].data == seq![1u8, 0u8, 0u8, 0u8]
        }),
{
    assert(le32_bytes(1) =~= seq![1u8, 0u8, 0u8, 0u8]);
}

/// A text ends behind its last word that is no NUL.
pub proof fn law_texts_end_behind_their_last_word(words: Seq<u16>)
    ensures
        text_end(words) <= words.len(),
        forall|i: int| text_end(words) <= i < words.len() ==> #[trigger] words[i] == 0,
        text_end(words) > 0 ==> words[text_end(words) - 1] != 0,
    decreases words.len(),
{
    if words.len() > 0 && words.last() == 0 {
        let before = words.drop_last();
        law_texts_end_behind_their_last_word(before);
        assert forall|i: int| text_end(words) <= i < words.len() implies #[trigger] words[i] == 0 by {
            if i < before.len() {
                assert(before[i] == words[i]);
            }
        }
    }
}

/// Without arguments the setup asks; its one argument is one of two words, in
/// capitals or not.
pub proof fn law_setup_arguments(args: Seq<String>)
    ensures
        args.len() == 0 ==> mode_spec(args) == Some(Mode::Ask),
        args.len() > 1 ==> mode_spec(args) is None,
        args.len() == 1 && args[0]@ == "/install"@ ==> mode_spec(args) == Some(Mode::Install),
        args.len() == 1 && args[0]@ == "/uninstall"@ ==> mode_spec(args) == Some(Mode::Uninstall),
        args.len() == 1 && lower(args[0]@) != lower("/install"@) && lower(args[0]@) != lower(
            "/uninstall"@,
        ) ==> mode_spec(args) is None,
{
    reveal_strlit("/install");
    reveal_strlit("/uninstall");
    assert(lower("/install"@).len() != lower("/uninstall"@).len());
}

/// Test signing is on where Windows started with it. Where it did not, it cannot
/// be turned on under Secure Boot and needs a confirmation otherwise.
pub proof fn law_signing_needs(
    options: Option<&str>,
    secure_boot: Option<u32>,
    signing: Signing,
)
    requires
        call_ensures(self::signing, (options, secure_boot), signing),
    ensures
        signing == Signing::On <==> options is Some && has_word(options->0@, "TESTSIGNING"@),
        signing == Signing::SecureBoot ==> secure_boot == Some(1u32),
        options is None && secure_boot == Some(1u32) ==> signing == Signing::SecureBoot,
        options is None && secure_boot != Some(1u32) ==> signing == Signing::Confirm,
{
}

/// An installation goes from step to step and stops at the first program that
/// fails, with its exit code; a removal goes on whatever happens and remembers
/// that a restart was asked for.
pub proof fn law_installing_and_removing(
    outcome: Outcome,
    result: Result<(), i32>,
    restart: bool,
    asio: bool,
    certificate: bool,
)
    ensures
        forall|install: &mut Install| #[trigger]
            call_ensures(Install::advance, (install, outcome), result) ==> {
                let after = *final(install);
                &&& result is Ok ==> after.step == step_after(install.step)
                &&& result is Err ==> after == *install && outcome == Outcome::Exited(
                    result->Err_0,
                )
                &&& outcome is Done ==> result is Ok && after.restart == (install.restart
                    || outcome->restart)
                &&& install.restart ==> after.restart
                &&& outcome == Outcome::Exited(0) ==> result is Ok
                &&& outcome == Outcome::Exited(0) && install.step is TestSigning ==> after.restart
                &&& outcome == Outcome::Exited(3010) ==> (result is Ok <==> install.step
                    is AddDriver)
            },
        forall|uninstall: &mut Uninstall| #[trigger]
            call_ensures(Uninstall::advance, (uninstall, restart, asio, certificate), ()) ==> {
                let after = *final(uninstall);
                &&& after.restart <==> uninstall.restart || restart
                &&& after.step == removal_step_after(uninstall.step, asio, certificate)
            },
{
}

} // verus!
