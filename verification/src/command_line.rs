use vstd::prelude::*;

use crate::state::{InputMode, ProgramState};
use crate::actions::{unsaved_changes_message, ForceQuit, Quit};
use crate::text::{chars_of, is_whitespace, spec_is_whitespace};

verus! {

/// The first index from `i` on that holds no whitespace.
pub open spec fn skip_whitespace(cs: Seq<char>, i: int) -> int
    decreases cs.len() - i,
{
    if 0 <= i < cs.len() && spec_is_whitespace(cs[i]) {
        skip_whitespace(cs, i + 1)
    } else {
        i
    }
}

/// The first index from `i` on that holds whitespace, or the end.
pub open spec fn word_end(cs: Seq<char>, i: int) -> int
    decreases cs.len() - i,
{
    if 0 <= i < cs.len() && !spec_is_whitespace(cs[i]) {
        word_end(cs, i + 1)
    } else {
        i
    }
}

/// The word that starts at or after `i`, as its start and end, if there is one: what
/// `split_whitespace` hands out next.
pub open spec fn next_word(cs: Seq<char>, i: int) -> Option<(int, int)> {
    let start = skip_whitespace(cs, i);
    if start < cs.len() {
        Some((start, word_end(cs, start)))
    } else {
        None
    }
}

proof fn lemma_skip_whitespace(cs: Seq<char>, i: int)
    requires
        0 <= i <= cs.len(),
    ensures
        i <= skip_whitespace(cs, i) <= cs.len(),
    decreases cs.len() - i,
{
    if i < cs.len() && spec_is_whitespace(cs[i]) {
        lemma_skip_whitespace(cs, i + 1);
    }
}

proof fn lemma_word_end(cs: Seq<char>, i: int)
    requires
        0 <= i <= cs.len(),
    ensures
        i <= word_end(cs, i) <= cs.len(),
    decreases cs.len() - i,
{
    if i < cs.len() && !spec_is_whitespace(cs[i]) {
        lemma_word_end(cs, i + 1);
    }
}

/// The next word of `cs` from `i` on.
pub fn find_word(cs: &Vec<char>, i: usize) -> (r: Option<(usize, usize)>)
    requires
        i <= cs@.len(),
    ensures
        r is None <==> next_word(cs@, i as int) is None,
        r matches Some((s, e)) ==> next_word(cs@, i as int) == Some((s as int, e as int)) && i <= s
            < e <= cs@.len(),
{
    let mut start = i;
    while start < cs.len() && is_whitespace(cs[start])
        invariant
            i <= start <= cs@.len(),
            skip_whitespace(cs@, i as int) == skip_whitespace(cs@, start as int),
        decreases cs@.len() - start,
    {
        start += 1;
    }
    if start >= cs.len() {
        return None;
    }
    let mut end = start;
    while end < cs.len() && !is_whitespace(cs[end])
        invariant
            start <= end <= cs@.len(),
            word_end(cs@, start as int) == word_end(cs@, end as int),
        decreases cs@.len() - end,
    {
        end += 1;
    }
    proof {
        assert(!spec_is_whitespace(cs@[start as int]));
        assert(word_end(cs@, start as int) == word_end(cs@, start as int + 1));
    }
    Some((start, end))
}

/// Whether `cs[start..end]` spells `word`.
fn word_is(cs: &Vec<char>, start: usize, end: usize, word: &str) -> (b: bool)
    requires
        start <= end <= cs@.len(),
    ensures
        b == (cs@.subrange(start as int, end as int) == word@),
{
    let w = chars_of(word);
    if end - start != w.len() {
        proof {
            assert(cs@.subrange(start as int, end as int).len() != word@.len());
        }
        return false;
    }
    let mut i: usize = 0;
    while i < w.len()
        invariant
            start <= end <= cs@.len(),
            end - start == w@.len(),
            w@ == word@,
            0 <= i <= w@.len(),
            forall|j: int| 0 <= j < i ==> cs@[start + j] == w@[j],
        decreases w@.len() - i,
    {
        if cs[start + i] != w[i] {
            proof {
                assert(cs@.subrange(start as int, end as int)[i as int] != word@[i as int]);
            }
            return false;
        }
        i += 1;
    }
    proof {
        assert(cs@.subrange(start as int, end as int) =~= word@);
    }
    true
}

/// `cs[start..end]` as a string.
fn word_string(cs: &Vec<char>, start: usize, end: usize) -> (s: String)
    requires
        start <= end <= cs@.len(),
    ensures
        s@ == cs@.subrange(start as int, end as int),
{
    let mut s = String::new();
    let mut i = start;
    while i < end
        invariant
            start <= i <= end <= cs@.len(),
            s@ == cs@.subrange(start as int, i as int),
        decreases end - i,
    {
        s.push(cs[i]);
        proof {
            assert(s@ =~= cs@.subrange(start as int, i as int + 1));
        }
        i += 1;
    }
    s
}

pub open spec fn no_file_message() -> Seq<char> {
    "No file open. Use \"save as\" instead (:w <filename>)"@
}

pub open spec fn command_not_found_message(command: Seq<char>) -> Seq<char> {
    "Command not found: "@ + command
}

/// The file to write to: the open one.
fn open_file_target(program_state: &ProgramState) -> (r: Result<String, String>)
    ensures
        match program_state.open_file {
            Some(f) => r matches Ok(t) && t@ == f@,
            None => r matches Err(m) && m@ == no_file_message(),
        },
{
    match &program_state.open_file {
        Some(f) => Ok(f.clone()),
        None => Err("No file open. Use \"save as\" instead (:w <filename>)".to_owned()),
    }
}

/// Records a finished save: the current revision is the saved one.
fn record_saved(program_state: &mut ProgramState)
    ensures
        *final(program_state) == (ProgramState {
            last_saved_revision: if old(program_state).canvas.commits@.len() > 0 {
                old(program_state).canvas.commits@.last().revision
            } else {
                0
            },
            ..*old(program_state)
        }),
{
    program_state.last_saved_revision = program_state.canvas.get_current_revision();
}

/// Saves to the open file. Writing the file is the caller's: `target` names it, `finish`
/// records that it was written.
#[derive(Debug, Clone, Copy)]
pub struct Save {}

/// Saves to the open file in a format that may lose detail.
#[derive(Debug, Clone, Copy)]
pub struct LossySave {}

/// Saves to the open file, then quits.
#[derive(Debug, Clone, Copy)]
pub struct SaveQuit {}

/// Saves to the given file.
#[derive(Debug)]
pub struct SaveAs {
    pub filename: String,
}

/// Saves to the given file in a format that may lose detail.
#[derive(Debug)]
pub struct LossySaveAs {
    pub filename: String,
}

impl Save {
    pub fn target(&self, program_state: &ProgramState) -> (r: Result<String, String>)
        ensures
            match program_state.open_file {
                Some(f) => r matches Ok(t) && t@ == f@,
                None => r matches Err(m) && m@ == no_file_message(),
            },
    {
        open_file_target(program_state)
    }

    pub fn finish(&self, program_state: &mut ProgramState)
        ensures
            *final(program_state) == (ProgramState {
                last_saved_revision: if old(program_state).canvas.commits@.len() > 0 {
                    old(program_state).canvas.commits@.last().revision
                } else {
                    0
                },
                ..*old(program_state)
            }),
    {
        record_saved(program_state);
    }
}

impl LossySave {
    pub fn target(&self, program_state: &ProgramState) -> (r: Result<String, String>)
        ensures
            match program_state.open_file {
                Some(f) => r matches Ok(t) && t@ == f@,
                None => r matches Err(m) && m@ == no_file_message(),
            },
    {
        open_file_target(program_state)
    }

    pub fn finish(&self, program_state: &mut ProgramState)
        ensures
            *final(program_state) == (ProgramState {
                last_saved_revision: if old(program_state).canvas.commits@.len() > 0 {
                    old(program_state).canvas.commits@.last().revision
                } else {
                    0
                },
                ..*old(program_state)
            }),
    {
        record_saved(program_state);
    }
}

impl SaveQuit {
    pub fn target(&self, program_state: &ProgramState) -> (r: Result<String, String>)
        ensures
            match program_state.open_file {
                Some(f) => r matches Ok(t) && t@ == f@,
                None => r matches Err(m) && m@ == no_file_message(),
            },
    {
        open_file_target(program_state)
    }

    pub fn finish(&self, program_state: &mut ProgramState)
        ensures
            *final(program_state) == (ProgramState {
                last_saved_revision: if old(program_state).canvas.commits@.len() > 0 {
                    old(program_state).canvas.commits@.last().revision
                } else {
                    0
                },
                exit: true,
                ..*old(program_state)
            }),
    {
        record_saved(program_state);
        program_state.exit = true;
    }
}

impl SaveAs {
    pub fn target(&self, program_state: &ProgramState) -> (r: Result<String, String>)
        ensures
            r matches Ok(t) && t@ == self.filename@,
    {
        Ok(self.filename.clone())
    }

    pub fn finish(&self, program_state: &mut ProgramState)
        ensures
            *final(program_state) == (ProgramState {
                last_saved_revision: if old(program_state).canvas.commits@.len() > 0 {
                    old(program_state).canvas.commits@.last().revision
                } else {
                    0
                },
                ..*old(program_state)
            }),
    {
        record_saved(program_state);
    }
}

impl LossySaveAs {
    pub fn target(&self, program_state: &ProgramState) -> (r: Result<String, String>)
        ensures
            r matches Ok(t) && t@ == self.filename@,
    {
        Ok(self.filename.clone())
    }

    pub fn finish(&self, program_state: &mut ProgramState)
        ensures
            *final(program_state) == (ProgramState {
                last_saved_revision: if old(program_state).canvas.commits@.len() > 0 {
                    old(program_state).canvas.commits@.last().revision
                } else {
                    0
                },
                ..*old(program_state)
            }),
    {
        record_saved(program_state);
    }
}

/// A write that a command asks for: to `file_name`, then quit where `quit` is set.
#[derive(Debug)]
pub struct PendingWrite {
    pub file_name: String,
    pub quit: bool,
}

/// What a command line holds, as `execute_command` reads it.
pub enum CommandKind {
    /// Nothing but whitespace.
    Empty,
    Quit,
    ForceQuit,
    /// `w` with its optional file name.
    Write(Option<(int, int)>),
    SaveQuit,
    /// Any other command word, with its start and end.
    Unknown(int, int),
}

pub open spec fn command_kind(cs: Seq<char>) -> CommandKind {
    match next_word(cs, 0) {
        None => CommandKind::Empty,
        Some((s, e)) => {
            let w = cs.subrange(s, e);
            if w == "q"@ {
                CommandKind::Quit
            } else if w == "q!"@ {
                CommandKind::ForceQuit
            } else if w == "w"@ {
                CommandKind::Write(next_word(cs, e))
            } else if w == "x"@ || w == "wq"@ {
                CommandKind::SaveQuit
            } else {
                CommandKind::Unknown(s, e)
            }
        },
    }
}

/// Runs the command in `command`, as typed on the command line. A command that writes a file
/// is handed back as a pending write, for the caller to perform and then to hand to
/// `complete_write`. Otherwise the command is done: on success the input mode goes back to
/// normal, on failure the message is left as feedback. Any earlier feedback is cleared.
pub fn execute_command(program_state: &mut ProgramState, command: &str) -> (r: Option<PendingWrite>)
    ensures
        ({
            let cs = command@;
            let s0 = ProgramState { user_feedback: None, ..*old(program_state) };
            let saved_revision_matches = s0.last_saved_revision == (if s0.canvas.commits@.len() > 0 {
                s0.canvas.commits@.last().revision
            } else {
                0
            });
            match command_kind(cs) {
                CommandKind::Empty => r is None && *final(program_state) == s0,
                CommandKind::Quit => r is None && (if saved_revision_matches {
                    *final(program_state) == (ProgramState { exit: true, input_mode: InputMode::Normal, ..s0 })
                } else {
                    *final(program_state) == (ProgramState {
                        user_feedback: final(program_state).user_feedback,
                        ..s0
                    }) && (final(program_state).user_feedback matches Some(m) && m@
                        == unsaved_changes_message())
                }),
                CommandKind::ForceQuit => r is None && *final(program_state) == (ProgramState {
                    exit: true,
                    input_mode: InputMode::Normal,
                    ..s0
                }),
                CommandKind::Write(Some((fs, fe))) => *final(program_state) == s0 && (r matches Some(p)
                    && p.file_name@ == cs.subrange(fs, fe) && !p.quit),
                CommandKind::Write(None) | CommandKind::SaveQuit => {
                    let quit = command_kind(cs) is SaveQuit;
                    match s0.open_file {
                        Some(f) => *final(program_state) == s0 && (r matches Some(p) && p.file_name@
                            == f@ && p.quit == quit),
                        None => r is None && *final(program_state) == (ProgramState {
                            user_feedback: final(program_state).user_feedback,
                            ..s0
                        }) && (final(program_state).user_feedback matches Some(m) && m@
                            == no_file_message()),
                    }
                },
                CommandKind::Unknown(s, e) => r is None && *final(program_state) == (ProgramState {
                    user_feedback: final(program_state).user_feedback,
                    ..s0
                }) && (final(program_state).user_feedback matches Some(m) && m@
                    == command_not_found_message(cs.subrange(s, e))),
            }
        }),
{
    program_state.user_feedback = None;
    let cs = chars_of(command);
    let (start, end) = match find_word(&cs, 0) {
        Some(w) => w,
        None => {
            return None;
        },
    };
    let result: Result<(), String> = if word_is(&cs, start, end, "q") {
        let quit = Quit {};
        quit.try_execute(program_state)
    } else if word_is(&cs, start, end, "q!") {
        let force_quit = ForceQuit {};
        force_quit.execute(program_state);
        Ok(())
    } else if word_is(&cs, start, end, "w") {
        match find_word(&cs, end) {
            Some((fs, fe)) => {
                let save_as = SaveAs { filename: word_string(&cs, fs, fe) };
                match save_as.target(program_state) {
                    Ok(file_name) => {
                        return Some(PendingWrite { file_name, quit: false });
                    },
                    Err(m) => Err(m),
                }
            },
            None => {
                let save = Save {};
                match save.target(program_state) {
                    Ok(file_name) => {
                        return Some(PendingWrite { file_name, quit: false });
                    },
                    Err(m) => Err(m),
                }
            },
        }
    } else if word_is(&cs, start, end, "x") || word_is(&cs, start, end, "wq") {
        let save_quit = SaveQuit {};
        match save_quit.target(program_state) {
            Ok(file_name) => {
                return Some(PendingWrite { file_name, quit: true });
            },
            Err(m) => Err(m),
        }
    } else {
        let mut message = "Command not found: ".to_owned();
        let word = word_string(&cs, start, end);
        message.push_str(word.as_str());
        Err(message)
    };
    match result {
        Ok(()) => {
            program_state.input_mode = InputMode::Normal;
        },
        Err(feedback) => {
            program_state.user_feedback = Some(feedback);
        },
    }
    None
}

/// Finishes a pending write with the outcome of writing the file: on success the current
/// revision is recorded as saved, the editor quits where the write asked for it, and the input
/// mode goes back to normal; on failure the message is left as feedback.
pub fn complete_write(program_state: &mut ProgramState, pending: &PendingWrite, written: Result<(), String>)
    ensures
        match written {
            Ok(()) => *final(program_state) == (ProgramState {
                last_saved_revision: if old(program_state).canvas.commits@.len() > 0 {
                    old(program_state).canvas.commits@.last().revision
                } else {
                    0
                },
                exit: old(program_state).exit || pending.quit,
                input_mode: InputMode::Normal,
                ..*old(program_state)
            }),
            Err(m) => *final(program_state) == (ProgramState {
                user_feedback: Some(m),
                ..*old(program_state)
            }),
        },
{
    match written {
        Ok(()) => {
            record_saved(program_state);
            if pending.quit {
                program_state.exit = true;
            }
            program_state.input_mode = InputMode::Normal;
        },
        Err(m) => {
            program_state.user_feedback = Some(m);
        },
    }
}

} // verus!
