//! In-memory dialog templates. Dialog units follow the font and the system
//! DPI, so the layout scales without a resource compiler.

use vstd::prelude::*;

use crate::text::{push_utf16, utf16};

verus! {

pub const WS_CHILD: u32 = 0x4000_0000;

pub const WS_VISIBLE: u32 = 0x1000_0000;

/// Index of `cdit` in DLGTEMPLATE, counted in 16-bit words.
pub const ITEM_COUNT_WORD: usize = 4;

#[derive(Clone, Copy, Debug)]
pub enum Class {
    Button,
    Static,
    ComboBox,
    Named(&'static str),
}

#[derive(Debug)]
pub struct Template {
    words: Vec<u16>,
    items: u16,
}

/// A template as a value.
#[verifier::ext_equal]
pub struct TemplateView {
    pub words: Seq<u16>,
    pub items: int,
}

/// The words of a 32-bit value, the low one first.
pub open spec fn dword_words(value: u32) -> Seq<u16> {
    seq![(value % 65536) as u16, (value / 65536) as u16]
}

/// A signed word in two's complement.
pub open spec fn short_word(value: i16) -> u16 {
    if value < 0 {
        (value + 65536) as u16
    } else {
        value as u16
    }
}

pub open spec fn short_words(values: Seq<i16>) -> Seq<u16> {
    Seq::new(values.len(), |i: int| short_word(values[i]))
}

/// A text with a NUL at the end.
pub open spec fn text_words(text: Seq<char>) -> Seq<u16> {
    utf16(text).push(0)
}

pub open spec fn class_words(class: Class) -> Seq<u16> {
    match class {
        Class::Button => seq![0xffffu16, 0x0080u16],
        Class::Static => seq![0xffffu16, 0x0082u16],
        Class::ComboBox => seq![0xffffu16, 0x0085u16],
        Class::Named(name) => text_words(name@),
    }
}

/// A template without items: no menu and the default dialog class.
pub open spec fn empty_template(
    title: Seq<char>,
    style: u32,
    font: Seq<char>,
    point_size: u16,
    size: Seq<i16>,
) -> TemplateView {
    TemplateView {
        words: dword_words(style) + dword_words(0) + seq![0u16] + short_words(
            seq![0i16, 0i16, size[0], size[1]],
        ) + seq![0u16, 0u16] + text_words(title) + seq![point_size] + text_words(font),
        items: 0,
    }
}

/// The words of an item, without creation data.
pub open spec fn item_words(
    class: Class,
    text: Seq<char>,
    id: u16,
    style: u32,
    rect: Seq<i16>,
) -> Seq<u16> {
    dword_words(0x5000_0000u32 | style) + dword_words(0) + short_words(rect) + seq![id]
        + class_words(class) + text_words(text) + seq![0u16]
}

/// `words` up to the next 32-bit boundary.
pub open spec fn padded(words: Seq<u16>) -> Seq<u16> {
    if words.len() % 2 == 1 {
        words.push(0)
    } else {
        words
    }
}

impl TemplateView {
    /// A template holds its header, and in it how many items there are.
    pub open spec fn wf(self) -> bool {
        &&& self.words.len() > ITEM_COUNT_WORD
        &&& 0 <= self.items <= u16::MAX
        &&& self.words[ITEM_COUNT_WORD as int] == self.items
    }

    /// The template with one more item.
    pub open spec fn with_item(
        self,
        class: Class,
        text: Seq<char>,
        id: u16,
        style: u32,
        rect: Seq<i16>,
    ) -> TemplateView {
        TemplateView {
            words: (padded(self.words) + item_words(class, text, id, style, rect)).update(
                ITEM_COUNT_WORD as int,
                (self.items + 1) as u16,
            ),
            items: self.items + 1,
        }
    }

    /// The template in 32-bit words.
    pub open spec fn built(self) -> Seq<u32> {
        Seq::new(
            ((self.words.len() + 1) / 2) as nat,
            |i: int|
                (self.words[2 * i] + 65536 * (if 2 * i + 1 < self.words.len() {
                    self.words[2 * i + 1] as int
                } else {
                    0
                })) as u32,
        )
    }
}

impl View for Template {
    type V = TemplateView;

    closed spec fn view(&self) -> TemplateView {
        TemplateView { words: self.words@, items: self.items as int }
    }
}

fn push_dword(words: &mut Vec<u16>, value: u32)
    ensures
        final(words)@ == old(words)@ + dword_words(value),
{
    let ghost before = words@;
    words.push((value % 65536) as u16);
    words.push((value / 65536) as u16);
    assert(words@ =~= before + dword_words(value));
}

fn push_short(words: &mut Vec<u16>, value: i16)
    ensures
        final(words)@ == old(words)@.push(short_word(value)),
{
    let word: u16 = if value < 0 {
        (value as i32 + 65536) as u16
    } else {
        value as u16
    };
    words.push(word);
}

fn push_shorts(words: &mut Vec<u16>, values: [i16; 4])
    ensures
        final(words)@ == old(words)@ + short_words(values@),
{
    let ghost before = words@;
    push_short(words, values[0]);
    push_short(words, values[1]);
    push_short(words, values[2]);
    push_short(words, values[3]);
    assert(words@ =~= before + short_words(values@));
}

fn push_text(words: &mut Vec<u16>, text: &str)
    ensures
        final(words)@ == old(words)@ + text_words(text@),
{
    let ghost before = words@;
    push_utf16(words, text);
    words.push(0);
    assert(words@ =~= before + text_words(text@));
}

impl Template {
    pub fn new(title: &str, style: u32, font: &str, point_size: u16, size: [i16; 2]) -> (template: Template)
        ensures
            template@ == empty_template(title@, style, font@, point_size, size@),
            template@.wf(),
    {
        let mut words: Vec<u16> = Vec::new();
        push_dword(&mut words, style);
        push_dword(&mut words, 0);
        words.push(0);
        let corners: [i16; 4] = [0, 0, size[0], size[1]];
        push_shorts(&mut words, corners);
        words.push(0);
        words.push(0);
        push_text(&mut words, title);
        words.push(point_size);
        push_text(&mut words, font);
        proof {
            assert(corners@ =~= seq![0i16, 0i16, size@[0], size@[1]]);
            assert(words@ =~= empty_template(title@, style, font@, point_size, size@).words);
        }
        Template { words, items: 0 }
    }

    pub fn item(&mut self, class: Class, text: &str, id: u16, style: u32, rect: [i16; 4])
        requires
            old(self)@.wf(),
            old(self)@.items < u16::MAX,
        ensures
            final(self)@ == old(self)@.with_item(class, text@, id, style, rect@),
            final(self)@.wf(),
    {
        let ghost before = self@;
        if self.words.len() % 2 == 1 {
            self.words.push(0);
        }
        assert(self.words@ =~= padded(before.words));
        push_dword(&mut self.words, WS_CHILD | WS_VISIBLE | style);
        assert(0x4000_0000u32 | 0x1000_0000u32 | style == 0x5000_0000u32 | style) by (bit_vector);
        push_dword(&mut self.words, 0);
        push_shorts(&mut self.words, rect);
        self.words.push(id);
        match class {
            Class::Button => {
                self.words.push(0xffff);
                self.words.push(0x0080);
            },
            Class::Static => {
                self.words.push(0xffff);
                self.words.push(0x0082);
            },
            Class::ComboBox => {
                self.words.push(0xffff);
                self.words.push(0x0085);
            },
            Class::Named(name) => {
                push_text(&mut self.words, name);
            },
        }
        push_text(&mut self.words, text);
        self.words.push(0);
        assert(self.words@ =~= padded(before.words) + item_words(class, text@, id, style, rect@));
        self.items = self.items + 1;
        self.words.set(ITEM_COUNT_WORD, self.items);
    }

    /// The template in 32-bit words, as the system wants it aligned.
    pub fn build(&self) -> (words: Vec<u32>)
        ensures
            words@ == self@.built(),
    {
        let mut words: Vec<u32> = Vec::new();
        let mut i: usize = 0;
        while i < self.words.len()
            invariant
                i <= self.words.len() || i == self.words.len() + 1,
                i % 2 == 0,
                words@ =~= self@.built().subrange(0, i as int / 2),
                self.words.len() <= usize::MAX,
            decreases self.words.len() + 1 - i,
        {
            let low: u32 = self.words[i] as u32;
            let high: u32 = if self.words.len() - i > 1 {
                self.words[i + 1] as u32
            } else {
                0
            };
            words.push(low + 65536 * high);
            assert(self@.built()[i as int / 2] == low + 65536 * high);
            if self.words.len() - i <= 1 {
                assert(words@ =~= self@.built());
                return words;
            }
            i = i + 2;
        }
        assert(words@ =~= self@.built());
        words
    }
}

/// Every item begins on a 32-bit boundary, behind what was there before, and
/// the header counts it.
pub proof fn law_items_are_aligned_and_counted(
    template: TemplateView,
    class: Class,
    text: Seq<char>,
    id: u16,
    style: u32,
    rect: Seq<i16>,
)
    requires
        template.wf(),
        template.items < u16::MAX,
    ensures
        ({
            let start = padded(template.words).len() as int;
            let after = template.with_item(class, text, id, style, rect);
            &&& start % 2 == 0
            &&& after.words.skip(start) == item_words(class, text, id, style, rect)
            &&& after.words[ITEM_COUNT_WORD as int] == template.items + 1
            &&& forall|i: int|
                0 <= i < template.words.len() && i != ITEM_COUNT_WORD ==> #[trigger] after.words[i]
                    == template.words[i]
        }),
{
    let start = padded(template.words).len() as int;
    let after = template.with_item(class, text, id, style, rect);
    assert(after.words.skip(start) =~= item_words(class, text, id, style, rect));
}

/// Putting a template into 32-bit words loses none of it.
pub proof fn law_building_keeps_the_words(template: TemplateView, index: int)
    requires
        0 <= index < template.words.len(),
    ensures
        template.words[index] == (if index % 2 == 0 {
            template.built()[index / 2] % 65536
        } else {
            template.built()[index / 2] / 65536
        }),
{
}

/// Values of 32 bits have their low word first, negative words are in two's
/// complement, and texts end in a zero word.
pub proof fn law_words_hold_their_values(value: u32, short: i16, text: Seq<char>, shorts: Seq<i16>)
    ensures
        dword_words(value).len() == 2,
        dword_words(value)[0] + 65536 * dword_words(value)[1] == value,
        (short_word(short) - short) % 65536 == 0,
        short_words(shorts).len() == shorts.len(),
        forall|i: int|
            0 <= i < shorts.len() ==> (#[trigger] short_words(shorts)[i] - shorts[i]) % 65536 == 0,
        text_words(text).len() == utf16(text).len() + 1,
        text_words(text).drop_last() == utf16(text),
        text_words(text).last() == 0,
{
    assert(text_words(text).drop_last() =~= utf16(text));
    assert forall|i: int| 0 <= i < shorts.len() implies (#[trigger] short_words(shorts)[i]
        - shorts[i]) % 65536 == 0 by {
        assert(short_words(shorts)[i] == short_word(shorts[i]));
    }
}

/// The classes that the system has are written as numbers behind a marker,
/// others by their names.
pub proof fn law_classes_are_numbered(name: &'static str)
    ensures
        class_words(Class::Button) == seq![0xffffu16, 0x80u16],
        class_words(Class::Static) == seq![0xffffu16, 0x82u16],
        class_words(Class::ComboBox) == seq![0xffffu16, 0x85u16],
        class_words(Class::Named(name)) == utf16(name@).push(0),
{
}

/// A dialog's words: its style, no extended style, the number of its items, its
/// place and size, no menu, the system's class, its title, and the size and the
/// name of its font.
pub proof fn law_dialog_words_in_order(
    title: Seq<char>,
    style: u32,
    font: Seq<char>,
    point_size: u16,
    size: Seq<i16>,
)
    requires
        size.len() == 2,
    ensures
        ({
            let words = empty_template(title, style, font, point_size, size).words;
            let behind = 11 + utf16(title).len() as int;
            &&& empty_template(title, style, font, point_size, size).items == 0
            &&& words.len() == behind + 1 + 1 + utf16(font).len() + 1
            &&& words[0] + 65536 * words[1] == style
            &&& words[2] == 0 && words[3] == 0
            &&& words[4] == 0
            &&& words[5] == 0 && words[6] == 0
            &&& (words[7] - size[0]) % 65536 == 0
            &&& (words[8] - size[1]) % 65536 == 0
            &&& words[9] == 0 && words[10] == 0
            &&& words.subrange(11, behind) == utf16(title)
            &&& words[behind] == 0
            &&& words[behind + 1] == point_size
            &&& words.subrange(behind + 2, words.len() - 1) == utf16(font)
            &&& words[words.len() - 1] == 0
        }),
{
    let words = empty_template(title, style, font, point_size, size).words;
    let behind = 11 + utf16(title).len() as int;
    let place = short_words(seq![0i16, 0i16, size[0], size[1]]);
    assert(words[5] == place[0] && words[6] == place[1]);
    assert(words[7] == place[2] && words[8] == place[3]);
    assert(place[2] == short_word(size[0]) && place[3] == short_word(size[1]));
    assert(words.subrange(11, behind) =~= utf16(title));
    assert(words.subrange(behind + 2, words.len() - 1) =~= utf16(font));
}

/// An item's words: its style with that of a visible child, no extended style,
/// its place and size, its number, its class, its text and no creation data.
pub proof fn law_item_words_in_order(
    class: Class,
    text: Seq<char>,
    id: u16,
    style: u32,
    rect: Seq<i16>,
    i: int,
)
    requires
        rect.len() == 4,
        0 <= i < 4,
    ensures
        ({
            let words = item_words(class, text, id, style, rect);
            let behind = 9 + class_words(class).len() as int;
            &&& words.len() == behind + utf16(text).len() + 2
            &&& words[0] + 65536 * words[1] == 0x5000_0000u32 | style
            &&& words[2] == 0 && words[3] == 0
            &&& (words[4 + i] - rect[i]) % 65536 == 0
            &&& words[8] == id
            &&& words.subrange(9, behind) == class_words(class)
            &&& words.subrange(behind, behind + utf16(text).len()) == utf16(text)
            &&& words[words.len() - 2] == 0
            &&& words[words.len() - 1] == 0
        }),
{
    let words = item_words(class, text, id, style, rect);
    let behind = 9 + class_words(class).len() as int;
    assert(words[4 + i] == short_words(rect)[i]);
    assert(words.subrange(9, behind) =~= class_words(class));
    assert(words.subrange(behind, behind + utf16(text).len()) =~= utf16(text));
}

/// An item begins at the next whole 32-bit word; a word of padding is zero.
pub proof fn law_padding_is_zero(words: Seq<u16>)
    ensures
        padded(words).len() % 2 == 0,
        words.len() <= padded(words).len() <= words.len() + 1,
        padded(words).subrange(0, words.len() as int) == words,
        padded(words).len() > words.len() ==> padded(words).last() == 0,
{
    assert(padded(words).subrange(0, words.len() as int) =~= words);
}

/// A template takes the fewest 32-bit words that hold its words, and what is left
/// of the last one is zero.
pub proof fn law_built_templates_are_no_longer(template: TemplateView)
    ensures
        template.words.len() <= 2 * template.built().len() <= template.words.len() + 1,
        template.words.len() % 2 == 1 ==> template.built().last() < 65536,
{
}

} // verus!
