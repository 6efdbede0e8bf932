use vstd::prelude::*;

use crate::keymap::{find_from, Keymap};
use crate::keystroke::{KeyCode, Keystroke};
use crate::keystrokes::{typed_char, CharKeymapEntry, FromKeystrokesError, PresetSources};

verus! {

/// A value that a preset from a keymap stands for, possibly after reading further keystrokes.
pub trait Presetable<Config>: Sized {
    type Preset;

    /// What `preset` gives when read from the keystrokes `ks` from position `pos` on: the value
    /// and the position after the keystrokes it took.
    spec fn spec_by_preset(preset: Self::Preset, ks: Seq<Keystroke>, pos: int, config: Config) -> Result<
        (Self, int),
        FromKeystrokesError,
    >;

    fn from_keystrokes_by_preset(
        preset: &Self::Preset,
        keystrokes: &Vec<Keystroke>,
        pos: usize,
        config: &Config,
    ) -> (r: Result<(Self, usize), FromKeystrokesError>)
        requires
            pos <= keystrokes@.len(),
        ensures
            match r {
                Ok((v, p)) => Self::spec_by_preset(*preset, keystrokes@, pos as int, *config) == Ok::<
                    (Self, int),
                    FromKeystrokesError,
                >((v, p as int)) && pos <= p <= keystrokes@.len(),
                Err(e) => Self::spec_by_preset(*preset, keystrokes@, pos as int, *config) == Err::<
                    (Self, int),
                    FromKeystrokesError,
                >(e),
            },
    ;
}

/// The error of a try that failed in either way: `MissingKeystrokes` where either asked for
/// more keystrokes.
pub open spec fn either_missing(a: FromKeystrokesError, b: FromKeystrokesError) -> FromKeystrokesError {
    if a == FromKeystrokesError::MissingKeystrokes || b == FromKeystrokesError::MissingKeystrokes {
        FromKeystrokesError::MissingKeystrokes
    } else {
        FromKeystrokesError::Invalid
    }
}

/// Trying the presets in turn from the same position: the first that gives a value wins;
/// otherwise the keystrokes are missing where a try asked for more, and invalid where none did.
pub open spec fn spec_preset_sources<Config, C: Presetable<Config>>(
    presets: Seq<C::Preset>,
    ks: Seq<Keystroke>,
    pos: int,
    config: Config,
) -> Result<(C, int), FromKeystrokesError>
    decreases presets.len(),
{
    if presets.len() == 0 {
        Err(FromKeystrokesError::Invalid)
    } else {
        match C::spec_by_preset(presets[0], ks, pos, config) {
            Ok(x) => Ok(x),
            Err(e) => match spec_preset_sources::<Config, C>(presets.drop_first(), ks, pos, config) {
                Ok(x) => Ok(x),
                Err(e2) => Err(either_missing(e, e2)),
            },
        }
    }
}

proof fn lemma_preset_sources_step<Config, C: Presetable<Config>>(
    presets: Seq<C::Preset>,
    i: int,
    ks: Seq<Keystroke>,
    pos: int,
    config: Config,
)
    requires
        0 <= i < presets.len(),
    ensures
        spec_preset_sources::<Config, C>(presets.skip(i), ks, pos, config) == (match C::spec_by_preset(
            presets[i],
            ks,
            pos,
            config,
        ) {
            Ok(x) => Ok(x),
            Err(e) => match spec_preset_sources::<Config, C>(presets.skip(i + 1), ks, pos, config) {
                Ok(x) => Ok(x),
                Err(e2) => Err(either_missing(e, e2)),
            },
        }),
{
    assert(presets.skip(i).drop_first() =~= presets.skip(i + 1));
    assert(presets.skip(i)[0] == presets[i]);
}

/// Reads a value by trying the presets of `sources` in turn, each from position `pos`.
pub fn from_keystrokes_by_preset_sources<Config, C: Presetable<Config>>(
    sources: &PresetSources<C::Preset>,
    keystrokes: &Vec<Keystroke>,
    pos: usize,
    config: &Config,
) -> (r: Result<(C, usize), FromKeystrokesError>)
    requires
        pos <= keystrokes@.len(),
    ensures
        match r {
            Ok((v, p)) => spec_preset_sources::<Config, C>(sources.0@, keystrokes@, pos as int, *config)
                == Ok::<(C, int), FromKeystrokesError>((v, p as int)) && pos <= p <= keystrokes@.len(),
            Err(e) => spec_preset_sources::<Config, C>(sources.0@, keystrokes@, pos as int, *config)
                == Err::<(C, int), FromKeystrokesError>(e),
        },
{
    let ghost goal = spec_preset_sources::<Config, C>(sources.0@, keystrokes@, pos as int, *config);
    let mut error = FromKeystrokesError::Invalid;
    let mut i: usize = 0;
    proof {
        assert(sources.0@.skip(0) =~= sources.0@);
        match goal {
            Ok(x) => {},
            Err(e2) => {
                assert(either_missing(FromKeystrokesError::Invalid, e2) == e2);
            },
        }
    }
    while i < sources.0.len()
        invariant
            0 <= i <= sources.0@.len(),
            pos <= keystrokes@.len(),
            goal == spec_preset_sources::<Config, C>(sources.0@, keystrokes@, pos as int, *config),
            goal == (match spec_preset_sources::<Config, C>(sources.0@.skip(i as int), keystrokes@, pos as int, *config) {
                Ok(x) => Ok(x),
                Err(e2) => Err(either_missing(error, e2)),
            }),
        decreases sources.0@.len() - i,
    {
        proof {
            lemma_preset_sources_step::<Config, C>(sources.0@, i as int, keystrokes@, pos as int, *config);
        }
        match C::from_keystrokes_by_preset(&sources.0[i], keystrokes, pos, config) {
            Ok(value) => {
                return Ok(value);
            },
            Err(FromKeystrokesError::MissingKeystrokes) => {
                error = FromKeystrokesError::MissingKeystrokes;
            },
            Err(FromKeystrokesError::Invalid) => {},
        }
        i += 1;
    }
    proof {
        assert(sources.0@.skip(i as int) =~= Seq::<C::Preset>::empty());
    }
    Err(error)
}

/// Trying the presets in turn: the first that gives a value wins, and the position stays where
/// it was; a try that asks for more keystrokes ends the search.
pub open spec fn spec_preset_iterator<Config, C: Presetable<Config>>(
    presets: Seq<C::Preset>,
    ks: Seq<Keystroke>,
    pos: int,
    config: Config,
) -> Result<(C, int), FromKeystrokesError>
    decreases presets.len(),
{
    if presets.len() == 0 {
        Err(FromKeystrokesError::Invalid)
    } else {
        match C::spec_by_preset(presets[0], ks, pos, config) {
            Ok((v, _)) => Ok((v, pos)),
            Err(FromKeystrokesError::MissingKeystrokes) => Err(FromKeystrokesError::MissingKeystrokes),
            Err(FromKeystrokesError::Invalid) => spec_preset_iterator::<Config, C>(
                presets.drop_first(),
                ks,
                pos,
                config,
            ),
        }
    }
}

/// Reads a value by trying the presets in turn, each from position `pos`; the position is not
/// moved on by the value that is found.
pub fn from_keystrokes_by_preset_iterator<Config, C: Presetable<Config>>(
    presets: &Vec<C::Preset>,
    keystrokes: &Vec<Keystroke>,
    pos: usize,
    config: &Config,
) -> (r: Result<(C, usize), FromKeystrokesError>)
    requires
        pos <= keystrokes@.len(),
    ensures
        match r {
            Ok((v, p)) => spec_preset_iterator::<Config, C>(presets@, keystrokes@, pos as int, *config)
                == Ok::<(C, int), FromKeystrokesError>((v, p as int)) && p == pos,
            Err(e) => spec_preset_iterator::<Config, C>(presets@, keystrokes@, pos as int, *config)
                == Err::<(C, int), FromKeystrokesError>(e),
        },
{
    let ghost goal = spec_preset_iterator::<Config, C>(presets@, keystrokes@, pos as int, *config);
    let mut i: usize = 0;
    proof {
        assert(presets@.skip(0) =~= presets@);
    }
    while i < presets.len()
        invariant
            0 <= i <= presets@.len(),
            pos <= keystrokes@.len(),
            goal == spec_preset_iterator::<Config, C>(presets@, keystrokes@, pos as int, *config),
            goal == spec_preset_iterator::<Config, C>(presets@.skip(i as int), keystrokes@, pos as int, *config),
        decreases presets@.len() - i,
    {
        proof {
            assert(presets@.skip(i as int).drop_first() =~= presets@.skip(i as int + 1));
            assert(presets@.skip(i as int)[0] == presets@[i as int]);
        }
        match C::from_keystrokes_by_preset(&presets[i], keystrokes, pos, config) {
            Ok((value, _)) => {
                return Ok((value, pos));
            },
            Err(FromKeystrokesError::MissingKeystrokes) => {
                return Err(FromKeystrokesError::MissingKeystrokes);
            },
            Err(FromKeystrokesError::Invalid) => {},
        }
        i += 1;
    }
    proof {
        assert(presets@.skip(i as int) =~= Seq::<C::Preset>::empty());
    }
    Err(FromKeystrokesError::Invalid)
}

/// Reading a value through a keymap from position `pos`: the longest path of keystrokes that
/// leads to a value wins. Where the keystroke at `pos` leads on, the rest is read from there; a
/// value found there is taken, and more keystrokes asked for there are asked for. Otherwise the
/// presets of this node are tried from `pos`; failing those, the error from further down (or
/// `Invalid` where the keystroke leads nowhere, `MissingKeystrokes` where there is none yet).
pub open spec fn spec_preset_keymap<Config, C: Presetable<Config>>(
    keymap: Keymap<C::Preset>,
    ks: Seq<Keystroke>,
    pos: int,
    config: Config,
) -> Result<(C, int), FromKeystrokesError>
    decreases ks.len() - pos,
{
    let (decided, error) = if 0 <= pos < ks.len() {
        match find_from(keymap.next@, ks[pos], 0) {
            Some(i) => match spec_preset_keymap::<Config, C>(keymap.next@[i].1, ks, pos + 1, config) {
                Ok(x) => (Some(Ok::<(C, int), FromKeystrokesError>(x)), FromKeystrokesError::Invalid),
                Err(FromKeystrokesError::MissingKeystrokes) => (
                    Some(Err::<(C, int), FromKeystrokesError>(FromKeystrokesError::MissingKeystrokes)),
                    FromKeystrokesError::Invalid,
                ),
                Err(other) => (None, other),
            },
            None => (None, FromKeystrokesError::Invalid),
        }
    } else {
        (None, FromKeystrokesError::MissingKeystrokes)
    };
    match decided {
        Some(r) => r,
        None => match keymap.current {
            Some(current) => match spec_preset_sources::<Config, C>(current.0@, ks, pos, config) {
                Ok(x) => Ok(x),
                Err(FromKeystrokesError::MissingKeystrokes) => Err(
                    FromKeystrokesError::MissingKeystrokes,
                ),
                Err(FromKeystrokesError::Invalid) => Err(error),
            },
            None => Err(error),
        },
    }
}

/// Reads a value through `keymap` from position `pos`, as `spec_preset_keymap` says.
pub fn from_keystrokes_by_preset_keymap<Config, C: Presetable<Config>>(
    keymap: &Keymap<C::Preset>,
    keystrokes: &Vec<Keystroke>,
    pos: usize,
    config: &Config,
) -> (r: Result<(C, usize), FromKeystrokesError>)
    requires
        pos <= keystrokes@.len(),
    ensures
        match r {
            Ok((v, p)) => spec_preset_keymap::<Config, C>(*keymap, keystrokes@, pos as int, *config)
                == Ok::<(C, int), FromKeystrokesError>((v, p as int)) && pos <= p <= keystrokes@.len(),
            Err(e) => spec_preset_keymap::<Config, C>(*keymap, keystrokes@, pos as int, *config)
                == Err::<(C, int), FromKeystrokesError>(e),
        },
    decreases keystrokes@.len() - pos,
{
    let error = if pos < keystrokes.len() {
        match find_child_at(&keymap.next, keystrokes[pos]) {
            Some(i) => {
                match from_keystrokes_by_preset_keymap::<Config, C>(&keymap.next[i].1, keystrokes, pos + 1, config) {
                    Ok(complete) => {
                        return Ok(complete);
                    },
                    Err(FromKeystrokesError::MissingKeystrokes) => {
                        return Err(FromKeystrokesError::MissingKeystrokes);
                    },
                    Err(other) => other,
                }
            },
            None => FromKeystrokesError::Invalid,
        }
    } else {
        FromKeystrokesError::MissingKeystrokes
    };
    match &keymap.current {
        Some(current) => {
            match from_keystrokes_by_preset_sources::<Config, C>(current, keystrokes, pos, config) {
                Ok(complete) => {
                    return Ok(complete);
                },
                Err(FromKeystrokesError::MissingKeystrokes) => {
                    return Err(FromKeystrokesError::MissingKeystrokes);
                },
                Err(FromKeystrokesError::Invalid) => {},
            }
        },
        None => {},
    }
    Err(error)
}

/// The position of the first entry for `key`.
fn find_child_at<T>(next: &Vec<(Keystroke, Keymap<T>)>, key: Keystroke) -> (r: Option<usize>)
    ensures
        r matches Some(i) ==> find_from(next@, key, 0) == Some(i as int) && i < next@.len(),
        r is None ==> find_from(next@, key, 0) is None,
{
    let r = crate::keymap::find_child(next, key);
    proof {
        crate::keymap::lemma_find_from_bounds(next@, key, 0);
    }
    r
}

impl<Config> Presetable<Config> for char {
    type Preset = CharKeymapEntry;

    /// A fixed character takes no keystroke; a typed one takes the next keystroke, which must
    /// be a character typed without modifiers.
    open spec fn spec_by_preset(preset: CharKeymapEntry, ks: Seq<Keystroke>, pos: int, config: Config) -> Result<
        (char, int),
        FromKeystrokesError,
    > {
        match preset {
            CharKeymapEntry::Char(c) => Ok((c, pos)),
            CharKeymapEntry::Type => if 0 <= pos < ks.len() {
                match typed_char(ks[pos]) {
                    Some(c) => Ok((c, pos + 1)),
                    None => Err(FromKeystrokesError::Invalid),
                }
            } else {
                Err(FromKeystrokesError::MissingKeystrokes)
            },
        }
    }

    fn from_keystrokes_by_preset(
        preset: &CharKeymapEntry,
        keystrokes: &Vec<Keystroke>,
        pos: usize,
        config: &Config,
    ) -> (r: Result<(char, usize), FromKeystrokesError>) {
        match preset {
            CharKeymapEntry::Char(c) => Ok((*c, pos)),
            CharKeymapEntry::Type => {
                if pos < keystrokes.len() {
                    let k = keystrokes[pos];
                    let m = k.modifiers;
                    if !m.shift && !m.control && !m.alt && !m.super_key && !m.hyper && !m.meta {
                        if let KeyCode::Char(ch) = k.code {
                            Ok((ch, pos + 1))
                        } else {
                            Err(FromKeystrokesError::Invalid)
                        }
                    } else {
                        Err(FromKeystrokesError::Invalid)
                    }
                } else {
                    Err(FromKeystrokesError::MissingKeystrokes)
                }
            },
        }
    }
}

impl<Config, T: Presetable<Config>> Presetable<Config> for Option<T> {
    type Preset = Option<T::Preset>;

    /// No preset stands for no value and takes no keystroke; a preset is read as `T` reads it.
    open spec fn spec_by_preset(preset: Option<T::Preset>, ks: Seq<Keystroke>, pos: int, config: Config) -> Result<
        (Option<T>, int),
        FromKeystrokesError,
    > {
        match preset {
            Some(inner) => match T::spec_by_preset(inner, ks, pos, config) {
                Ok((v, p)) => Ok((Some(v), p)),
                Err(e) => Err(e),
            },
            None => Ok((None, pos)),
        }
    }

    fn from_keystrokes_by_preset(
        preset: &Option<T::Preset>,
        keystrokes: &Vec<Keystroke>,
        pos: usize,
        config: &Config,
    ) -> (r: Result<(Option<T>, usize), FromKeystrokesError>) {
        match preset {
            Some(inner) => match T::from_keystrokes_by_preset(inner, keystrokes, pos, config) {
                Ok((v, p)) => Ok((Some(v), p)),
                Err(e) => Err(e),
            },
            None => Ok((None, pos)),
        }
    }
}

} // verus!
