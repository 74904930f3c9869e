use vstd::prelude::*;

verus! {

/// Modifier masks of X key events.
pub struct KeyMod;

impl KeyMod {
    pub const NONE: u16 = 0;
    pub const ALT: u16 = 8;
    pub const META: u16 = 64;
    pub const SHIFT: u16 = 1;
    pub const CTRL: u16 = 4;
}

/// The mask that a modifier word stands for; unknown words add nothing.
pub open spec fn modifier_bits(word: Seq<char>) -> u16 {
    if word == seq!['m', 'e', 't', 'a'] {
        KeyMod::META
    } else if word == seq!['a', 'l', 't'] {
        KeyMod::ALT
    } else if word == seq!['s', 'h', 'i', 'f', 't'] {
        KeyMod::SHIFT
    } else if word == seq!['c', 't', 'r', 'l'] {
        KeyMod::CTRL
    } else {
        KeyMod::NONE
    }
}

/// Reads `s` left to right: the mask of the words closed by a space so
/// far, and the word being read.
pub open spec fn scan_binding(s: Seq<char>) -> (u16, Seq<char>)
    decreases s.len(),
{
    if s.len() == 0 {
        (KeyMod::NONE, Seq::empty())
    } else {
        let (mask, word) = scan_binding(s.drop_last());
        if s.last() == ' ' {
            (mask | modifier_bits(word), Seq::empty())
        } else {
            (mask, word.push(s.last()))
        }
    }
}

/// What `to_lowercase` makes of a string.
pub uninterp spec fn lower_of(s: Seq<char>) -> Seq<char>;

/// Relies on `str::chars`: the characters of `s`, in order.
#[verifier::external_body]
fn chars_of(s: &str) -> (r: Vec<char>)
    ensures
        r@ == s@,
{
    s.chars().collect()
}

/// Relies on `String: FromIterator<char>`: the string of these characters.
#[verifier::external_body]
fn string_of(chars: &Vec<char>) -> (r: String)
    ensures
        r@ == chars@,
{
    chars.iter().collect()
}

/// Relies on `str::to_lowercase`, whose result depends on the characters
/// alone.
#[verifier::external_body]
fn lowercase(s: &str) -> (r: String)
    ensures
        r@ == lower_of(s@),
{
    s.to_lowercase()
}

/// A key binding as written: the modifier mask, and the key's name in
/// lower case.
pub struct KeyChord {
    pub mask: u16,
    pub key: String,
}

fn same_word(word: &Vec<char>, target: &Vec<char>) -> (r: bool)
    ensures
        r == (word@ == target@),
{
    if word.len() != target.len() {
        return false;
    }
    let mut i: usize = 0;
    while i < word.len()
        invariant
            0 <= i <= word@.len(),
            word@.len() == target@.len(),
            forall|j: int| 0 <= j < i ==> word@[j] == target@[j],
        decreases word@.len() - i,
    {
        if word[i] != target[i] {
            return false;
        }
        i = i + 1;
    }
    assert(word@ =~= target@);
    true
}

/// The mask of one modifier word.
pub fn modifier_of(word: &Vec<char>) -> (r: u16)
    ensures
        r == modifier_bits(word@),
{
    let meta = vec!['m', 'e', 't', 'a'];
    let alt = vec!['a', 'l', 't'];
    let shift = vec!['s', 'h', 'i', 'f', 't'];
    let ctrl = vec!['c', 't', 'r', 'l'];
    assert(meta@ =~= seq!['m', 'e', 't', 'a']);
    assert(alt@ =~= seq!['a', 'l', 't']);
    assert(shift@ =~= seq!['s', 'h', 'i', 'f', 't']);
    assert(ctrl@ =~= seq!['c', 't', 'r', 'l']);
    if same_word(word, &meta) {
        KeyMod::META
    } else if same_word(word, &alt) {
        KeyMod::ALT
    } else if same_word(word, &shift) {
        KeyMod::SHIFT
    } else if same_word(word, &ctrl) {
        KeyMod::CTRL
    } else {
        KeyMod::NONE
    }
}

/// Reads a binding such as `"meta shift B"`: the words before the last
/// space are modifiers, combined into one mask; the last word is the key.
pub fn parse_binding(binding: &str) -> (r: KeyChord)
    ensures
        r.mask == scan_binding(binding@).0,
        r.key@ == lower_of(scan_binding(binding@).1),
{
    let chars = chars_of(binding);
    let mut mask: u16 = KeyMod::NONE;
    let mut word: Vec<char> = Vec::new();
    let mut i: usize = 0;
    while i < chars.len()
        invariant
            0 <= i <= chars@.len(),
            chars@ == binding@,
            (mask, word@) == scan_binding(chars@.take(i as int)),
        decreases chars@.len() - i,
    {
        assert(chars@.take(i + 1).drop_last() =~= chars@.take(i as int));
        let c = chars[i];
        if c == ' ' {
            mask = mask | modifier_of(&word);
            word = Vec::new();
            assert(word@ =~= Seq::<char>::empty());
        } else {
            word.push(c);
        }
        i = i + 1;
    }
    assert(chars@.take(i as int) =~= chars@);
    let key_name = string_of(&word);
    KeyChord { mask, key: lowercase(key_name.as_str()) }
}

} // verus!
