//! The editor that notes are opened in.

use crate::text::{copy_path, texts};
use crate::traversal::paths;
use vstd::prelude::*;

verus! {

/// A request to start the editor: the program, and the files it is to open
/// in the order given.
#[derive(Clone, Debug, PartialEq, Eq)]
pub struct EditorCommand {
    pub program: String,
    pub files: Vec<Vec<String>>,
}

/// The editor was asked to open no file at all.
#[derive(Clone, Copy, Debug, PartialEq, Eq, Structural)]
pub struct NoFilesGiven;

/// Prepares the start of the editor on `files`. There must be at least one
/// file.
pub fn editor_command(files: &Vec<Vec<String>>) -> (res: Result<EditorCommand, NoFilesGiven>)
    ensures
        res is Err <==> files.len() == 0,
        res matches Ok(command) ==> command.program@ == "nvim"@ && paths(command.files@) == paths(
            files@,
        ),
{
    if files.len() == 0 {
        return Err(NoFilesGiven);
    }
    let mut copied: Vec<Vec<String>> = Vec::new();
    let mut i: usize = 0;
    while i < files.len()
        invariant
            i <= files.len(),
            paths(copied@) == paths(files@).take(i as int),
        decreases files.len() - i,
    {
        let file = copy_path(&files[i]);
        proof {
            assert(paths(copied@.push(file)) =~= paths(copied@).push(texts(file@)));
            assert(paths(files@).take(i + 1) =~= paths(files@).take(i as int).push(
                texts(files@[i as int]@),
            ));
        }
        copied.push(file);
        i += 1;
    }
    proof {
        assert(paths(files@).take(files.len() as int) =~= paths(files@));
    }
    Ok(EditorCommand { program: "nvim".to_owned(), files: copied })
}

} // verus!
