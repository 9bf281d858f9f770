//! Where the application keeps the operator's files, as lists of path
//! components.
//!
//! A path here is the sequence of its components, so joining is appending and
//! a parent is everything but the last. The platform's directories are found,
//! and the files written, outside this crate.

use vstd::prelude::*;

use crate::transmit::texts;

verus! {

/// The settings file.
pub const CONFIG_FILE: &'static str = "config.toml";

/// The buttons under the message field.
pub const MACRO_FILE: &'static str = "macros.toml";

/// The set messages beside them.
pub const TEMPLATE_FILE: &'static str = "templates.toml";

/// The rolling log the application writes under its state directory.
pub const LOG_FILE: &'static str = "grayline-rtty.log";

/// The directory the log is kept in, under the state directory.
pub const LOG_DIRECTORY: &'static str = "logs";

/// One of the directories the application keeps for the operator.
#[derive(Clone, Copy, Debug, PartialEq, Eq, Structural)]
pub enum Folder {
    Config,
}

impl Folder {
    /// Every folder, in the order the File menu offers them.
    pub const ALL: [Folder; 1] = [Folder::Config];

    /// The message key the File menu names this folder with.
    pub fn label_key(self) -> (key: &'static str)
        ensures
            key@ == "menu-open-config"@,
    {
        match self {
            Folder::Config => "menu-open-config",
        }
    }
}

/// The files and directories the application uses.
#[derive(Clone, Debug, PartialEq, Eq)]
pub struct AppPaths {
    config_file: Vec<String>,
    log_file: Vec<String>,
}

fn joined_with(base: &Vec<String>, names: &[&str]) -> (path: Vec<String>)
    ensures
        texts(path@) == texts(base@) + names@.map_values(|name: &str| name@),
{
    let mut path = base.clone();
    let mut index: usize = 0;
    proof {
        assert(texts(path@) =~= texts(base@));
        assert(names@.map_values(|name: &str| name@).take(0) =~= Seq::<Seq<char>>::empty());
    }
    while index < names.len()
        invariant
            index <= names@.len(),
            texts(path@) == texts(base@) + names@.map_values(|name: &str| name@).take(index as int),
        decreases names@.len() - index,
    {
        let ghost before = path@;
        let name = names[index].to_owned();
        path.push(name);
        proof {
            let mapped = names@.map_values(|name: &str| name@);
            assert(mapped[index as int] == names@[index as int]@);
            assert(mapped.take(index as int + 1) =~= mapped.take(index as int).push(mapped[index as int]));
            assert(texts(path@) =~= texts(before).push(name@));
            assert(texts(path@) =~= texts(base@) + names@.map_values(|name: &str| name@).take(
                index as int + 1,
            ));
        }
        index += 1;
    }
    proof {
        assert(names@.map_values(|name: &str| name@).take(index as int) =~= names@.map_values(
            |name: &str| name@,
        ));
    }
    path
}

impl AppPaths {
    pub closed spec fn config_file_spec(&self) -> Seq<Seq<char>> {
        texts(self.config_file@)
    }

    pub closed spec fn log_file_spec(&self) -> Seq<Seq<char>> {
        texts(self.log_file@)
    }

    /// The paths under a configuration root and a state root.
    ///
    /// The log belongs to the machine it was written on, so it goes under the
    /// state root rather than beside the roaming configuration.
    pub fn from_roots(config_dir: Vec<String>, state_dir: Vec<String>) -> (paths: Self)
        ensures
            paths.config_file_spec() == texts(config_dir@).push(CONFIG_FILE@),
            paths.log_file_spec() == texts(state_dir@).push(LOG_DIRECTORY@).push(LOG_FILE@),
    {
        let config_file = joined_with(&config_dir, &[CONFIG_FILE]);
        let log_file = joined_with(&state_dir, &[LOG_DIRECTORY, LOG_FILE]);
        proof {
            assert(texts(config_file@) =~= texts(config_dir@).push(CONFIG_FILE@));
            assert(texts(log_file@) =~= texts(state_dir@).push(LOG_DIRECTORY@).push(LOG_FILE@));
        }
        AppPaths { config_file, log_file }
    }

    pub fn config_file(&self) -> (path: &[String])
        ensures
            texts(path@) == self.config_file_spec(),
    {
        self.config_file.as_slice()
    }

    /// The directory holding the settings file.
    pub fn config_dir(&self) -> (path: Vec<String>)
        ensures
            texts(path@) == if self.config_file_spec().len() > 0 {
                self.config_file_spec().drop_last()
            } else {
                self.config_file_spec()
            },
    {
        let mut path = self.config_file.clone();
        if path.len() > 0 {
            path.pop();
            proof {
                assert(texts(path@) =~= texts(self.config_file@).drop_last());
            }
        } else {
            proof {
                assert(texts(path@) =~= texts(self.config_file@));
            }
        }
        path
    }

    pub fn macros_file(&self) -> (path: Vec<String>)
        ensures
            texts(path@) == (if self.config_file_spec().len() > 0 {
                self.config_file_spec().drop_last()
            } else {
                self.config_file_spec()
            }).push(MACRO_FILE@),
    {
        let directory = self.config_dir();
        let path = joined_with(&directory, &[MACRO_FILE]);
        proof {
            assert(texts(path@) =~= texts(directory@).push(MACRO_FILE@));
        }
        path
    }

    pub fn templates_file(&self) -> (path: Vec<String>)
        ensures
            texts(path@) == (if self.config_file_spec().len() > 0 {
                self.config_file_spec().drop_last()
            } else {
                self.config_file_spec()
            }).push(TEMPLATE_FILE@),
    {
        let directory = self.config_dir();
        let path = joined_with(&directory, &[TEMPLATE_FILE]);
        proof {
            assert(texts(path@) =~= texts(directory@).push(TEMPLATE_FILE@));
        }
        path
    }

    /// The directory `folder` names: for the configuration, the directory
    /// holding the file rather than the file itself.
    pub fn folder(&self, folder: Folder) -> (path: Vec<String>)
        ensures
            folder is Config ==> texts(path@) == if self.config_file_spec().len() > 0 {
                self.config_file_spec().drop_last()
            } else {
                self.config_file_spec()
            },
    {
        match folder {
            Folder::Config => self.config_dir(),
        }
    }

    pub fn log_file(&self) -> (path: &[String])
        ensures
            texts(path@) == self.log_file_spec(),
    {
        self.log_file.as_slice()
    }
}

} // verus!
