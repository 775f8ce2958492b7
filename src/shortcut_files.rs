//! The shortcut record, its builder, and the entry points that check the
//! referenced paths before handing a record to a codec.
pub mod linux;
pub mod windows;

use crate::shortcut_files::linux::{
    encode, parse, read_shortcut_file, save_shortcut_file, LinuxShortcutError,
};
use vstd::prelude::*;

verus! {

/// A failure to save or read a shortcut.
#[derive(Debug)]
pub enum FileShortcutError {
    /// The codec failed.
    NativeError(LinuxShortcutError),
    /// The target path does not exist.
    TargetPathDoesNotExist(String),
    /// The icon path does not exist.
    IconPathDoesNotExist(String),
    /// The working directory does not exist.
    WorkingDirectoryPathDoesNotExist(String),
}

impl From<LinuxShortcutError> for FileShortcutError {
    fn from(e: LinuxShortcutError) -> (r: Self) {
        FileShortcutError::NativeError(e)
    }
}

impl vstd::std_specs::convert::FromSpecImpl<LinuxShortcutError> for FileShortcutError {
    open spec fn obeys_from_spec() -> bool {
        true
    }

    open spec fn from_spec(e: LinuxShortcutError) -> FileShortcutError {
        FileShortcutError::NativeError(e)
    }
}

/// The text of each item, in order.
pub open spec fn texts(v: Seq<String>) -> Seq<Seq<char>> {
    v.map_values(|s: String| s@)
}

/// The text of an optional string.
pub open spec fn opt_text(o: Option<String>) -> Option<Seq<char>> {
    match o {
        Some(s) => Some(s@),
        None => None,
    }
}

/// The mathematical value of a shortcut record.
pub struct ShortcutModel {
    pub name: Seq<char>,
    pub description: Option<Seq<char>>,
    pub path: Seq<char>,
    pub arguments: Seq<Seq<char>>,
    pub icon: Option<Seq<char>>,
    pub working_directory: Option<Seq<char>>,
    pub show_terminal: bool,
    pub categories: Seq<Seq<char>>,
}

/// A launchable reference to an executable, with its display metadata.
///
/// Paths are held as text.
#[derive(Debug, Clone, PartialEq, Hash)]
pub struct ShortcutFile {
    /// Name of the shortcut. Ignored by the shell-link codec.
    pub name: String,
    /// Description of the shortcut.
    pub description: Option<String>,
    /// Path to the executable.
    pub path: String,
    /// Arguments passed to the executable.
    pub arguments: Vec<String>,
    /// Path to the icon.
    pub icon: Option<String>,
    /// Working directory of the shortcut.
    pub working_directory: Option<String>,
    /// Whether to show a terminal when the shortcut runs. Defaults to false.
    pub show_terminal: bool,
    /// Categories of the shortcut. Ignored by the shell-link codec.
    pub categories: Vec<String>,
}

impl View for ShortcutFile {
    type V = ShortcutModel;

    open spec fn view(&self) -> ShortcutModel {
        ShortcutModel {
            name: self.name@,
            description: opt_text(self.description),
            path: self.path@,
            arguments: texts(self.arguments@),
            icon: opt_text(self.icon),
            working_directory: opt_text(self.working_directory),
            show_terminal: self.show_terminal,
            categories: texts(self.categories@),
        }
    }
}

/// The record that `new(name, path)` builds: every optional field unset.
pub open spec fn fresh(name: Seq<char>, path: Seq<char>) -> ShortcutModel {
    ShortcutModel {
        name,
        description: None,
        path,
        arguments: Seq::empty(),
        icon: None,
        working_directory: None,
        show_terminal: false,
        categories: Seq::empty(),
    }
}

impl Default for ShortcutFile {
    fn default() -> (r: Self)
        ensures
            r@ == fresh(Seq::empty(), Seq::empty()),
    {
        let r = ShortcutFile {
            name: String::new(),
            description: None,
            path: String::new(),
            arguments: Vec::new(),
            icon: None,
            working_directory: None,
            show_terminal: false,
            categories: Vec::new(),
        };
        proof {
            assert(texts(r.arguments@) =~= Seq::<Seq<char>>::empty());
            assert(texts(r.categories@) =~= Seq::<Seq<char>>::empty());
        }
        r
    }
}

impl ShortcutFile {
    /// Creates a shortcut with the given name and target, all else unset.
    pub fn new(name: &str, path: &str) -> (r: Self)
        ensures
            r@ == fresh(name@, path@),
    {
        let r = ShortcutFile {
            name: name.to_owned(),
            description: None,
            path: path.to_owned(),
            arguments: Vec::new(),
            icon: None,
            working_directory: None,
            show_terminal: false,
            categories: Vec::new(),
        };
        proof {
            assert(texts(r.arguments@) =~= Seq::<Seq<char>>::empty());
            assert(texts(r.categories@) =~= Seq::<Seq<char>>::empty());
        }
        r
    }

    /// Sets the description.
    pub fn description(self, description: &str) -> (r: Self)
        ensures
            r@ == (ShortcutModel { description: Some(description@), ..self@ }),
    {
        let mut s = self;
        s.description = Some(description.to_owned());
        s
    }

    /// Sets the working directory.
    pub fn working_directory(self, working_directory: &str) -> (r: Self)
        ensures
            r@ == (ShortcutModel { working_directory: Some(working_directory@), ..self@ }),
    {
        let mut s = self;
        s.working_directory = Some(working_directory.to_owned());
        s
    }

    /// Appends one argument.
    pub fn arg(self, argument: &str) -> (r: Self)
        ensures
            r@ == (ShortcutModel { arguments: self@.arguments.push(argument@), ..self@ }),
    {
        let mut s = self;
        let a = argument.to_owned();
        s.arguments.push(a);
        proof {
            assert(texts(s.arguments@) =~= texts(self.arguments@).push(argument@));
        }
        s
    }

    /// Replaces the whole argument sequence.
    pub fn arguments(self, arguments: Vec<String>) -> (r: Self)
        ensures
            r@ == (ShortcutModel { arguments: texts(arguments@), ..self@ }),
    {
        let mut s = self;
        s.arguments = arguments;
        s
    }

    /// Sets the icon.
    pub fn icon(self, icon: &str) -> (r: Self)
        ensures
            r@ == (ShortcutModel { icon: Some(icon@), ..self@ }),
    {
        let mut s = self;
        s.icon = Some(icon.to_owned());
        s
    }

    /// Shows a terminal when the shortcut runs.
    pub fn show_terminal(self) -> (r: Self)
        ensures
            r@ == (ShortcutModel { show_terminal: true, ..self@ }),
    {
        let mut s = self;
        s.show_terminal = true;
        s
    }

    /// Appends one category.
    pub fn category(self, category: &str) -> (r: Self)
        ensures
            r@ == (ShortcutModel { categories: self@.categories.push(category@), ..self@ }),
    {
        let mut s = self;
        let c = category.to_owned();
        s.categories.push(c);
        proof {
            assert(texts(s.categories@) =~= texts(self.categories@).push(category@));
        }
        s
    }

    /// Replaces the whole category sequence.
    pub fn categories(self, categories: Vec<String>) -> (r: Self)
        ensures
            r@ == (ShortcutModel { categories: texts(categories@), ..self@ }),
    {
        let mut s = self;
        s.categories = categories;
        s
    }

    /// Checks the paths that the record refers to, given whether each exists,
    /// and gives the desktop-entry text to write. The target is checked
    /// first, then the icon and the working directory where they are set;
    /// the existence of an unset one is not consulted.
    pub fn save(
        self,
        target_exists: bool,
        icon_exists: bool,
        working_directory_exists: bool,
    ) -> (r: Result<String, FileShortcutError>)
        ensures
            !target_exists ==> (r matches Err(FileShortcutError::TargetPathDoesNotExist(p)) && p@
                == self.path@),
            target_exists && self.icon is Some && !icon_exists ==> (r matches Err(
                FileShortcutError::IconPathDoesNotExist(p),
            ) && Some(p@) == self@.icon),
            target_exists && (self.icon is None || icon_exists) && self.working_directory is Some
                && !working_directory_exists ==> (r matches Err(
                FileShortcutError::WorkingDirectoryPathDoesNotExist(p),
            ) && Some(p@) == self@.working_directory),
            target_exists && (self.icon is None || icon_exists) && (self.working_directory is None
                || working_directory_exists) ==> (r matches Ok(t) && t@ == encode(self@)),
    {
        if !target_exists {
            return Err(FileShortcutError::TargetPathDoesNotExist(self.path));
        }
        if let Some(icon) = &self.icon {
            if !icon_exists {
                return Err(FileShortcutError::IconPathDoesNotExist(icon.clone()));
            }
        }
        if let Some(working_directory) = &self.working_directory {
            if !working_directory_exists {
                return Err(
                    FileShortcutError::WorkingDirectoryPathDoesNotExist(working_directory.clone()),
                );
            }
        }
        Ok(save_shortcut_file(&self))
    }

    /// Reads a record from the text of a desktop-entry file; a missing
    /// required field is reported as a codec failure.
    pub fn read(content: &str) -> (r: Result<Self, FileShortcutError>)
        ensures
            match parse(content@) {
                Ok(m) => r matches Ok(s) && s@ == m,
                Err(key) => r matches Err(
                    FileShortcutError::NativeError(LinuxShortcutError::MissingValue(k)),
                ) && k@ == key,
            },
    {
        match read_shortcut_file(content) {
            Ok(s) => Ok(s),
            Err(e) => Err(FileShortcutError::NativeError(e)),
        }
    }
}

} // verus!
