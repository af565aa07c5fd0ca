//! Editor preferences: what the user chose, as opposed to what the project
//! is. They live in `<project>/.orrin/editor.ron`; reading and writing the
//! file belongs to the program, and where it lives is decided here.

use vstd::prelude::*;

verus! {

/// The preferences file's name inside the editor directory.
pub const FILE: &'static str = "editor.ron";

/// `dir` joined with the relative `file`: a separator goes between them
/// unless `dir` is empty or already ends in one.
pub open spec fn joined(dir: Seq<char>, file: Seq<char>) -> Seq<char> {
    if dir.len() == 0 {
        file
    } else if dir.last() == '/' {
        dir + file
    } else {
        dir + seq!['/'] + file
    }
}

/// Where preferences are read and written, or nowhere when the session has
/// no project: running the built-in demo must not scatter an `.orrin/`
/// directory into whatever the working directory happens to be.
pub struct PrefsFile {
    dir: Option<String>,
}

impl PrefsFile {
    /// The editor directory, if the session has one.
    pub closed spec fn dir(&self) -> Option<Seq<char>> {
        match self.dir {
            Some(d) => Some(d@),
            None => None,
        }
    }

    pub fn new(editor_dir: Option<String>) -> (r: Self)
        ensures
            r.dir() == match editor_dir {
                Some(d) => Some(d@),
                None => None::<Seq<char>>,
            },
    {
        PrefsFile { dir: editor_dir }
    }

    /// The directory that must exist before the file is written.
    pub fn directory(&self) -> (r: Option<&str>)
        ensures
            match r {
                Some(d) => self.dir() == Some(d@),
                None => self.dir() is None,
            },
    {
        match &self.dir {
            Some(d) => Some(d.as_str()),
            None => None,
        }
    }

    /// The file itself: `FILE` inside the editor directory.
    pub fn path(&self) -> (r: Option<String>)
        ensures
            match r {
                Some(p) => self.dir() matches Some(d) && p@ == joined(d, FILE@),
                None => self.dir() is None,
            },
    {
        match &self.dir {
            Some(d) => {
                let mut path = String::from_str(d.as_str());
                let n = d.as_str().unicode_len();
                if n > 0 && d.as_str().get_char(n - 1) != '/' {
                    path.append("/");
                }
                path.append(FILE);
                proof {
                    reveal_strlit("/");
                    assert(path@ =~= joined(d@, FILE@));
                }
                Some(path)
            },
            None => None,
        }
    }
}

} // verus!
