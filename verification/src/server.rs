//! The COM server that the ASIO driver lives in: its objects and its entries
//! in the registry.

use vstd::prelude::*;

use crate::bytes::{byte_of, le16_bytes};
use crate::com::{
    braced, braced_spec, HResult, CLASS_E_CLASSNOTAVAILABLE, CLASS_E_NOAGGREGATION, E_POINTER,
    S_FALSE, S_OK,
};
use crate::driver::{CLSID, DRIVER_NAME};
use crate::text::{push_utf16, string_of, utf16};

verus! {

/// What keeps the server loaded: its objects and the locks on it.
#[derive(Clone, Copy, Debug, PartialEq, Eq, Structural)]
pub struct Server {
    pub objects: u32,
}

impl Server {
    pub fn new() -> (server: Server)
        ensures
            server.objects == 0,
    {
        Server { objects: 0 }
    }

    /// An object was made, or the server locked.
    pub fn object_created(&mut self)
        requires
            old(self).objects < u32::MAX,
        ensures
            final(self).objects == old(self).objects + 1,
    {
        self.objects = self.objects + 1;
    }

    /// An object is gone, or a lock.
    pub fn object_released(&mut self)
        requires
            old(self).objects > 0,
        ensures
            final(self).objects == old(self).objects - 1,
    {
        self.objects = self.objects - 1;
    }

    /// Locks the server, or takes a lock away.
    pub fn lock_server(&mut self, lock: bool)
        requires
            lock ==> old(self).objects < u32::MAX,
            !lock ==> old(self).objects > 0,
        ensures
            final(self).objects == (if lock {
                old(self).objects + 1
            } else {
                old(self).objects - 1
            }),
    {
        if lock {
            self.object_created();
        } else {
            self.object_released();
        }
    }

    /// Whether the server can go: nothing of it is in use.
    pub fn can_unload_now(&self) -> (result: HResult)
        ensures
            result == (if self.objects == 0 {
                S_OK
            } else {
                S_FALSE
            }),
    {
        if self.objects == 0 {
            S_OK
        } else {
            S_FALSE
        }
    }
}

/// Whether an object can be made for a request: `pointers` tells whether it
/// gave all the pointers needed, `aggregated` whether the object is to be part
/// of another one.
pub fn create_instance(pointers: bool, aggregated: bool) -> (result: Result<(), HResult>)
    ensures
        result == (if !pointers {
            Err(E_POINTER)
        } else if aggregated {
            Err(CLASS_E_NOAGGREGATION)
        } else {
            Ok::<(), HResult>(())
        }),
{
    if !pointers {
        Err(E_POINTER)
    } else if aggregated {
        Err(CLASS_E_NOAGGREGATION)
    } else {
        Ok(())
    }
}

/// Whether the server has the class that a request asks for; `None` where a
/// pointer is missing.
pub fn get_class_object(clsid: Option<u128>) -> (result: HResult)
    ensures
        result == match clsid {
            None => E_POINTER,
            Some(clsid) => if clsid == CLSID {
                S_OK
            } else {
                CLASS_E_CLASSNOTAVAILABLE
            },
        },
{
    match clsid {
        None => E_POINTER,
        Some(clsid) => if clsid == CLSID {
            S_OK
        } else {
            CLASS_E_CLASSNOTAVAILABLE
        },
    }
}

/// The part of the registry that a key is in.
#[derive(Clone, Copy, Debug, PartialEq, Eq, Structural)]
pub enum Root {
    ClassesRoot,
    LocalMachine,
}

/// A text to put into the registry; the default value has no name.
#[derive(Debug)]
pub struct TextValue {
    pub root: Root,
    pub subkey: String,
    pub name: Option<&'static str>,
    pub value: String,
}

/// A text value as a value.
pub struct TextValueView {
    pub root: Root,
    pub subkey: Seq<char>,
    pub name: Option<Seq<char>>,
    pub value: Seq<char>,
}

impl View for TextValue {
    type V = TextValueView;

    open spec fn view(&self) -> TextValueView {
        TextValueView {
            root: self.root,
            subkey: self.subkey@,
            name: match self.name {
                Some(name) => Some(name@),
                None => None,
            },
            value: self.value@,
        }
    }
}

/// The key of the driver's class.
pub open spec fn class_key() -> Seq<char> {
    "CLSID\\"@ + braced_spec(CLSID)
}

/// The key by which hosts find the driver.
pub open spec fn asio_key() -> Seq<char> {
    "SOFTWARE\\ASIO\\"@ + DRIVER_NAME@
}

fn class_subkey() -> (key: String)
    ensures
        key@ == class_key(),
{
    let mut key: String = string_of("CLSID\\");
    key.append(braced(CLSID).as_str());
    key
}

fn server_subkey() -> (key: String)
    ensures
        key@ == class_key() + "\\InprocServer32"@,
{
    let mut key: String = class_subkey();
    key.append("\\InprocServer32");
    key
}

fn asio_subkey() -> (key: String)
    ensures
        key@ == asio_key(),
{
    let mut key: String = string_of("SOFTWARE\\ASIO\\");
    key.append(DRIVER_NAME);
    key
}

/// What the registry says of the driver in the library at `path`.
pub open spec fn registration_spec(path: Seq<char>) -> Seq<TextValueView> {
    seq![
        TextValueView {
            root: Root::ClassesRoot,
            subkey: class_key(),
            name: None,
            value: DRIVER_NAME@,
        },
        TextValueView {
            root: Root::ClassesRoot,
            subkey: class_key() + "\\InprocServer32"@,
            name: None,
            value: path,
        },
        TextValueView {
            root: Root::ClassesRoot,
            subkey: class_key() + "\\InprocServer32"@,
            name: Some("ThreadingModel"@),
            value: "Apartment"@,
        },
        TextValueView {
            root: Root::LocalMachine,
            subkey: asio_key(),
            name: Some("CLSID"@),
            value: braced_spec(CLSID),
        },
        TextValueView {
            root: Root::LocalMachine,
            subkey: asio_key(),
            name: Some("Description"@),
            value: DRIVER_NAME@,
        },
    ]
}

/// What to write into the registry for the driver in the library at `path`,
/// in order.
pub fn registration(path: &str) -> (values: Vec<TextValue>)
    ensures
        Seq::new(values@.len(), |i: int| values@[i]@) == registration_spec(path@),
{
    let mut values: Vec<TextValue> = Vec::new();
    values.push(
        TextValue {
            root: Root::ClassesRoot,
            subkey: class_subkey(),
            name: None,
            value: string_of(DRIVER_NAME),
        },
    );
    values.push(
        TextValue {
            root: Root::ClassesRoot,
            subkey: server_subkey(),
            name: None,
            value: string_of(path),
        },
    );
    values.push(
        TextValue {
            root: Root::ClassesRoot,
            subkey: server_subkey(),
            name: Some("ThreadingModel"),
            value: string_of("Apartment"),
        },
    );
    values.push(
        TextValue {
            root: Root::LocalMachine,
            subkey: asio_subkey(),
            name: Some("CLSID"),
            value: braced(CLSID),
        },
    );
    values.push(
        TextValue {
            root: Root::LocalMachine,
            subkey: asio_subkey(),
            name: Some("Description"),
            value: string_of(DRIVER_NAME),
        },
    );
    assert(Seq::new(values@.len(), |i: int| values@[i]@) =~= registration_spec(path@));
    values
}

/// The keys to delete, with all that is in them, when the driver goes.
pub fn registered_keys() -> (keys: Vec<(Root, String)>)
    ensures
        keys.len() == 2,
        keys[0].0 == Root::ClassesRoot,
        keys[0].1@ == class_key(),
        keys[1].0 == Root::LocalMachine,
        keys[1].1@ == asio_key(),
{
    let mut keys: Vec<(Root, String)> = Vec::new();
    keys.push((Root::ClassesRoot, class_subkey()));
    keys.push((Root::LocalMachine, asio_subkey()));
    keys
}

/// Whether `key` is `tree` or below it.
pub open spec fn is_under(key: Seq<char>, tree: Seq<char>) -> bool {
    tree.is_prefix_of(key)
}

/// Deleting the registered keys takes away all that a registration wrote.
pub proof fn law_unregistering_removes_all(path: Seq<char>, index: int)
    requires
        0 <= index < registration_spec(path).len(),
    ensures
        ({
            let value = registration_spec(path)[index];
            ||| value.root == Root::ClassesRoot && is_under(value.subkey, class_key())
            ||| value.root == Root::LocalMachine && is_under(value.subkey, asio_key())
        }),
{
    let value = registration_spec(path)[index];
    if index < 3 {
        assert(value.subkey.subrange(0, class_key().len() as int) =~= class_key());
    } else {
        assert(value.subkey.subrange(0, asio_key().len() as int) =~= asio_key());
    }
}

/// The bytes of `words`, the low one of each first.
pub open spec fn word_bytes(words: Seq<u16>) -> Seq<u8>
    decreases words.len(),
{
    if words.len() == 0 {
        seq![]
    } else {
        word_bytes(words.drop_last()) + le16_bytes(words.last() as int)
    }
}

/// A text as the registry keeps it: UTF-16 with a NUL at the end.
pub open spec fn registry_text(text: Seq<char>) -> Seq<u8> {
    word_bytes(utf16(text).push(0))
}

/// The bytes under which the registry keeps `text`.
pub fn text_bytes(text: &str) -> (data: Vec<u8>)
    ensures
        data@ == registry_text(text@),
{
    let mut words: Vec<u16> = Vec::new();
    push_utf16(&mut words, text);
    words.push(0);
    assert(words@ =~= utf16(text@).push(0));
    let mut data: Vec<u8> = Vec::new();
    let mut i: usize = 0;
    while i < words.len()
        invariant
            i <= words.len(),
            data@ == word_bytes(words@.subrange(0, i as int)),
        decreases words.len() - i,
    {
        let ghost before = data@;
        let word: u16 = words[i];
        data.push((word % 256) as u8);
        data.push((word / 256) as u8);
        proof {
            assert(words@.subrange(0, i + 1).drop_last() =~= words@.subrange(0, i as int));
            assert(byte_of(word as int, 0) == (word % 256) as u8);
            assert(byte_of(word as int, 1) == (word / 256) as u8);
            assert(data@ =~= before + le16_bytes(word as int));
        }
        i = i + 1;
    }
    assert(words@.subrange(0, i as int) =~= words@);
    data
}

/// The bytes of words come in their order, the low one of each first; the
/// registry's texts end in a zero word.
pub proof fn law_word_bytes_in_order(words: Seq<u16>, i: int)
    requires
        0 <= i < words.len(),
    ensures
        word_bytes(words).len() == 2 * words.len(),
        word_bytes(words)[2 * i] + 256 * word_bytes(words)[2 * i + 1] == words[i],
    decreases words.len(),
{
    let before = words.drop_last();
    if before.len() > 0 {
        law_word_bytes_in_order(
            before,
            if i < before.len() {
                i
            } else {
                0
            },
        );
    } else {
        assert(word_bytes(before).len() == 0);
    }
    let word = words.last() as int;
    assert(byte_of(word, 0) + 256 * byte_of(word, 1) == word);
    if i < before.len() {
        assert(before[i] == words[i]);
        assert(word_bytes(words)[2 * i] == word_bytes(before)[2 * i]);
        assert(word_bytes(words)[2 * i + 1] == word_bytes(before)[2 * i + 1]);
    }
}

/// The registry's bytes of a text are the words of its UTF-16 and a zero word.
pub proof fn law_registry_texts_end_in_nul(text: Seq<char>, i: int)
    requires
        0 <= i <= utf16(text).len(),
    ensures
        ({
            let data = registry_text(text);
            let words = utf16(text);
            &&& data.len() == 2 * words.len() + 2
            &&& i < words.len() ==> data[2 * i] + 256 * data[2 * i + 1] == words[i]
            &&& data[2 * words.len() as int] == 0
            &&& data[2 * words.len() as int + 1] == 0
        }),
{
    let words = utf16(text).push(0);
    law_word_bytes_in_order(words, i);
    law_word_bytes_in_order(words, words.len() - 1);
}

/// A host finds the driver by its name, from there its class, and from the class
/// the library at `path`, which it may call from one thread at a time.
pub proof fn law_registration_leads_to_the_library(path: Seq<char>)
    ensures
        ({
            let values = registration_spec(path);
            let class = values[3].value;
            &&& values.len() == 5
            &&& values[3].root == Root::LocalMachine
            &&& values[3].subkey == "SOFTWARE\\ASIO\\"@ + "Audio Kontrol 1"@
            &&& values[3].name == Some("CLSID"@)
            &&& values[4].root == Root::LocalMachine
            &&& values[4].subkey == values[3].subkey
            &&& values[4].name == Some("Description"@)
            &&& values[4].value == "Audio Kontrol 1"@
            &&& class.len() == 38
            &&& values[0].root == Root::ClassesRoot
            &&& values[0].subkey == "CLSID\\"@ + class
            &&& values[0].name is None
            &&& values[0].value == "Audio Kontrol 1"@
            &&& values[1].root == Root::ClassesRoot
            &&& values[1].subkey == "CLSID\\"@ + class + "\\InprocServer32"@
            &&& values[1].name is None
            &&& values[1].value == path
            &&& values[2].root == Root::ClassesRoot
            &&& values[2].subkey == values[1].subkey
            &&& values[2].name == Some("ThreadingModel"@)
            &&& values[2].value == "Apartment"@
        }),
{
    crate::com::law_identifiers_are_braced(CLSID, 1);
}

/// The server makes the driver's class and no other, and only objects of their
/// own; it can go when none is left.
pub proof fn law_server_makes_one_class(
    clsid: u128,
    class: HResult,
    pointers: bool,
    aggregated: bool,
    made: Result<(), HResult>,
    server: &Server,
    unload: HResult,
)
    requires
        call_ensures(get_class_object, (Some(clsid),), class),
        call_ensures(create_instance, (pointers, aggregated), made),
        call_ensures(Server::can_unload_now, (server,), unload),
    ensures
        class == 0 <==> clsid == CLSID,
        class != 0 ==> class == 0x8004_0111 - 0x1_0000_0000,
        made is Ok <==> pointers && !aggregated,
        !pointers ==> made == Err::<(), HResult>((0x8000_4003 - 0x1_0000_0000) as i32),
        pointers && aggregated ==> made == Err::<(), HResult>((0x8004_0110 - 0x1_0000_0000) as i32),
        unload == 0 <==> server.objects == 0,
        server.objects > 0 ==> unload == 1,
{
}

} // verus!
