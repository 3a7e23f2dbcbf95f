//! The renderer of sheet music and audio: the SoundFont that it uses.

use vstd::prelude::*;
use std::path::PathBuf;
use crate::errors::ApiError;
use crate::text::{append_str, chars_to_string, str_chars};

verus! {

broadcast use vstd::string::group_string_axioms;

#[verifier::external_type_specification]
#[verifier::external_body]
pub struct ExPathBuf(PathBuf);

/// Renders MIDI files to sheet music with MuseScore and to audio with
/// FluidSynth.
pub struct MscoreManager {
    soundfont_path: PathBuf,
}

impl MscoreManager {
    /// The SoundFont that audio is rendered with.
    pub closed spec fn soundfont(&self) -> PathBuf {
        self.soundfont_path
    }

    /// A renderer that uses the SoundFont at `soundfont_path`.
    pub fn new(soundfont_path: PathBuf) -> (r: Self)
        ensures
            r.soundfont() == soundfont_path,
    {
        MscoreManager { soundfont_path }
    }

    /// The SoundFont that audio is rendered with.
    pub fn soundfont_path(&self) -> (r: &PathBuf)
        ensures
            *r == self.soundfont(),
    {
        &self.soundfont_path
    }
}


/// The answer when the renderer's output cannot be used: 500 with
/// `Renderer failed generating <label>: <stderr>` where the output file is
/// missing, `Renderer produced empty <label>` where it is empty.
pub open spec fn rendered_output_problem(label: Seq<char>, stderr: Seq<char>, size: Option<u64>) -> Option<Seq<char>> {
    match size {
        None => Some("Renderer failed generating "@ + label + ": "@ + stderr),
        Some(n) => if n == 0 {
            Some("Renderer produced empty "@ + label)
        } else {
            None
        },
    }
}

/// Checks the renderer's output file, given its size (`None` where it
/// cannot be found) and the renderer's error output: the checks of
/// `read_generated_file` before it reads the file.
pub fn check_rendered_output(label: &str, stderr: &str, size: Option<u64>) -> (r: Result<(), ApiError>)
    ensures
        match rendered_output_problem(label@, stderr@, size) {
            None => r is Ok,
            Some(m) => r matches Err(e) && e.status == 500 && e.message@ == m,
        },
{
    match size {
        None => {
            let mut m = str_chars("Renderer failed generating ");
            append_str(&mut m, label);
            append_str(&mut m, ": ");
            append_str(&mut m, stderr);
            Err(ApiError::new(500, chars_to_string(&m)))
        },
        Some(n) => if n == 0 {
            let mut m = str_chars("Renderer produced empty ");
            append_str(&mut m, label);
            Err(ApiError::new(500, chars_to_string(&m)))
        } else {
            Ok(())
        },
    }
}

} // verus!
