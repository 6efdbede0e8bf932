use upaint::keymap::{keymap_insert_preserve, Keymap};
use upaint::keystroke::{stringify_keystroke, stringify_keystroke_sequence, KeyCode, KeyModifiers, Keystroke, KeystrokeSequence};
use upaint::keystrokes::PresetSources;

fn key(code: KeyCode, modifiers: KeyModifiers) -> Keystroke {
    Keystroke { code, modifiers }
}

fn none() -> KeyModifiers {
    KeyModifiers::none()
}

fn control() -> KeyModifiers {
    KeyModifiers { control: true, ..KeyModifiers::none() }
}

fn shift() -> KeyModifiers {
    KeyModifiers { shift: true, ..KeyModifiers::none() }
}

#[test]
fn test_stringify() {
    let tests = vec![
        (key(KeyCode::Char('a'), none()), "a"),
        (key(KeyCode::Char('a'), control()), "<C-a>"),
        (key(KeyCode::Char('A'), shift()), "A"),
        (key(KeyCode::Char('<'), none()), "<lt>"),
        (key(KeyCode::Enter, none()), "<Enter>"),
    ];
    for (keystroke, expected) in tests {
        let actual = stringify_keystroke(keystroke);
        assert!(&actual == expected);
    }
}

#[test]
fn stringify_function_keys_and_modifiers() {
    let alt_control = KeyModifiers { control: true, alt: true, ..KeyModifiers::none() };
    assert_eq!(stringify_keystroke(key(KeyCode::F(12), none())), "<F12>");
    assert_eq!(stringify_keystroke(key(KeyCode::Char('x'), alt_control)), "<C-A-x>");
    assert_eq!(stringify_keystroke(key(KeyCode::Other, none())), "");
    let sequence = KeystrokeSequence(vec![
        key(KeyCode::Char('d'), none()),
        key(KeyCode::Char('f'), control()),
        key(KeyCode::Esc, none()),
    ]);
    assert_eq!(stringify_keystroke_sequence(&sequence), "d<C-f><Esc>");
}

fn chars(s: &str) -> Vec<Keystroke> {
    s.chars().map(|c| key(KeyCode::Char(c), none())).collect()
}

fn lookup(keymap: &Keymap<u8>, s: &str) -> Option<Vec<u8>> {
    let mut node = keymap;
    for k in chars(s) {
        node = &node.next.iter().find(|(key, _)| *key == k)?.1;
    }
    node.current.as_ref().map(|p| p.0.clone())
}

#[test]
fn insert_preserve_keeps_existing_entries() {
    let mut keymap: Keymap<u8> = Keymap::new();
    keymap_insert_preserve(&mut keymap, &chars("ab"), 0, PresetSources(vec![1]));
    keymap_insert_preserve(&mut keymap, &chars("a"), 0, PresetSources(vec![2]));
    keymap_insert_preserve(&mut keymap, &chars("ab"), 0, PresetSources(vec![3]));
    assert_eq!(lookup(&keymap, "ab"), Some(vec![1]));
    assert_eq!(lookup(&keymap, "a"), Some(vec![2]));
    assert_eq!(lookup(&keymap, "b"), None);
    assert_eq!(keymap.next.len(), 1);
}

#[test]
fn keymap_from_entries_keeps_the_first() {
    let entries = vec![
        (KeystrokeSequence(chars("x")), PresetSources(vec![7])),
        (KeystrokeSequence(chars("xy")), PresetSources(vec![8])),
        (KeystrokeSequence(chars("x")), PresetSources(vec![9])),
    ];
    let keymap = Keymap::from_entries(entries);
    assert_eq!(lookup(&keymap, "x"), Some(vec![7]));
    assert_eq!(lookup(&keymap, "xy"), Some(vec![8]));
    assert_eq!(lookup(&keymap, ""), None);
}

use upaint::keystrokes::{from_keystrokes_by_from_str, FromKeystrokesError};

#[test]
fn typed_values_from_keystrokes() {
    // A pending keystroke is always needed to end the typed value; it is not taken.
    assert_eq!(
        from_keystrokes_by_from_str::<char>(&chars("a"), 0),
        Err(FromKeystrokesError::MissingKeystrokes)
    );
    assert_eq!(from_keystrokes_by_from_str::<char>(&chars("ab"), 0), Ok(('a', 1)));
    assert_eq!(from_keystrokes_by_from_str::<u16>(&chars("42 "), 0), Ok((42, 2)));
    assert_eq!(from_keystrokes_by_from_str::<u16>(&chars("1a"), 0), Ok((1, 1)));
    assert_eq!(
        from_keystrokes_by_from_str::<u16>(&chars("x "), 0),
        Err(FromKeystrokesError::Invalid)
    );
    // A 0x prefix is read as the number 0.
    assert_eq!(from_keystrokes_by_from_str::<u16>(&chars("0xff"), 0), Ok((0, 1)));
    // Digits stop being taken where the number would not fit.
    assert_eq!(from_keystrokes_by_from_str::<u16>(&chars("99999 "), 0), Ok((9999, 4)));
    // Reading starts at the given position.
    assert_eq!(from_keystrokes_by_from_str::<u16>(&chars("a7 "), 1), Ok((7, 2)));
    // A keystroke with a modifier ends the value.
    let mut ks = chars("5");
    ks.push(Keystroke { code: KeyCode::Char('6'), modifiers: control() });
    assert_eq!(from_keystrokes_by_from_str::<u16>(&ks, 0), Ok((5, 1)));
}

use upaint::keystrokes::TypedValue;

#[test]
fn signed_and_boolean_values_from_keystrokes() {
    assert_eq!(from_keystrokes_by_from_str::<i16>(&chars("65 "), 0), Ok((65, 2)));
    // A lone sign does not read as a number, so a negative one cannot be typed.
    assert_eq!(
        from_keystrokes_by_from_str::<i16>(&chars("-65 "), 0),
        Err(FromKeystrokesError::Invalid)
    );
    // Nor can a value whose first character alone reads as nothing.
    assert_eq!(
        from_keystrokes_by_from_str::<bool>(&chars("true "), 0),
        Err(FromKeystrokesError::Invalid)
    );
    assert_eq!(i16::parse_chars(&vec!['-', '3', '2', '7', '6', '8']), Some(i16::MIN));
    assert_eq!(i16::parse_chars(&vec!['+', '3', '2', '7', '6', '7']), Some(i16::MAX));
    assert_eq!(i16::parse_chars(&vec!['3', '2', '7', '6', '8']), None);
    assert_eq!(i16::parse_chars(&vec!['-']), None);
    assert_eq!(u16::parse_chars(&vec!['+', '6', '5', '5', '3', '5']), Some(u16::MAX));
    assert_eq!(u16::parse_chars(&vec!['-', '1']), None);
    assert_eq!(bool::parse_chars(&vec!['f', 'a', 'l', 's', 'e']), Some(false));
    assert_eq!(bool::parse_chars(&vec!['t', 'r', 'u', 'e']), Some(true));
    assert_eq!(bool::parse_chars(&vec!['t']), None);
}

use upaint::keystrokes::CharKeymapEntry;
use upaint::presets::{
    from_keystrokes_by_preset_iterator, from_keystrokes_by_preset_keymap,
    from_keystrokes_by_preset_sources, Presetable,
};

fn char_keymap() -> Keymap<CharKeymapEntry> {
    Keymap::from_entries(vec![
        (KeystrokeSequence(chars("f")), PresetSources(vec![CharKeymapEntry::Type])),
        (KeystrokeSequence(chars("F")), PresetSources(vec![CharKeymapEntry::Char('F')])),
    ])
}

#[test]
fn keymap_reads_typed_and_fixed_characters() {
    let keymap = char_keymap();
    let read = |s: &str| from_keystrokes_by_preset_keymap::<(), char>(&keymap, &chars(s), 0, &());
    assert_eq!(read("fa"), Ok(('a', 2)));
    assert_eq!(read("f"), Err(FromKeystrokesError::MissingKeystrokes));
    assert_eq!(read("F"), Ok(('F', 1)));
    assert_eq!(read("x"), Err(FromKeystrokesError::Invalid));
    assert_eq!(read(""), Err(FromKeystrokesError::MissingKeystrokes));
    let mut ks = chars("f");
    ks.push(Keystroke { code: KeyCode::Char('a'), modifiers: control() });
    assert_eq!(
        from_keystrokes_by_preset_keymap::<(), char>(&keymap, &ks, 0, &()),
        Err(FromKeystrokesError::Invalid)
    );
}

#[test]
fn preset_sources_and_iterator_try_in_turn() {
    let presets = vec![CharKeymapEntry::Type, CharKeymapEntry::Char('z')];
    let sources = PresetSources(presets.clone());
    // The sources go on past a try that asks for more keystrokes; the iterator stops there.
    assert_eq!(from_keystrokes_by_preset_sources::<(), char>(&sources, &chars(""), 0, &()), Ok(('z', 0)));
    assert_eq!(
        from_keystrokes_by_preset_iterator::<(), char>(&presets, &chars(""), 0, &()),
        Err(FromKeystrokesError::MissingKeystrokes)
    );
    // The iterator does not move on past the keystrokes that the value took.
    assert_eq!(from_keystrokes_by_preset_iterator::<(), char>(&presets, &chars("q"), 0, &()), Ok(('q', 0)));
    assert_eq!(
        from_keystrokes_by_preset_sources::<(), char>(&PresetSources(vec![]), &chars("q"), 0, &()),
        Err(FromKeystrokesError::Invalid)
    );
    assert_eq!(
        <Option<char> as Presetable<()>>::from_keystrokes_by_preset(&None, &chars(""), 0, &()),
        Ok((None, 0))
    );
}
