//! What the editor makes of the files of a bot project: the kind of a command
//! or an event, the counts shown for a project, and the messages for a file
//! or a folder that could not be removed.
//!
//! Walking the project and reading its files are left to whoever drives
//! these functions.

use crate::text::{
    chars_of, contains, includes, option_text, same_text, string_of, trim, trim_bounds,
};
use vstd::prelude::*;

verus! {

/// The source of a command says that it is a slash command.
pub open spec fn declares_slash(content: Seq<char>) -> bool {
    contains(content, "type: 'slash'"@) || contains(content, "type: \"slash\""@)
}

/// The source of a command says that it is a message command.
pub open spec fn declares_message(content: Seq<char>) -> bool {
    contains(content, "type: 'message'"@) || contains(content, "type: \"message\""@)
}

/// Tells whether the source of a command says that it is a slash command.
pub fn is_slash_command(content: &str) -> (b: bool)
    ensures
        b == declares_slash(content@),
{
    let chars = chars_of(content);
    includes(&chars, &chars_of("type: 'slash'")) || includes(&chars, &chars_of("type: \"slash\""))
}

/// Tells whether the source of a command says that it is a message command.
pub fn is_message_command(content: &str) -> (b: bool)
    ensures
        b == declares_message(content@),
{
    let chars = chars_of(content);
    includes(&chars, &chars_of("type: 'message'")) || includes(
        &chars,
        &chars_of("type: \"message\""),
    )
}

/// The kind of the command whose source is `content`: `slash` where the
/// source says so, `message` otherwise and where the source could not be
/// read.
pub open spec fn command_kind(content: Option<Seq<char>>) -> Seq<char> {
    match content {
        Some(text) => if declares_slash(text) {
            "slash"@
        } else {
            "message"@
        },
        None => "message"@,
    }
}

/// The kind of the event file that lies in `folder` below the directory of
/// the events: `extra` where the name of the folder holds `extra`,
/// `standard` otherwise and where the file lies in no folder.
pub open spec fn event_kind(folder: Option<Seq<char>>) -> Seq<char> {
    match folder {
        Some(name) => if contains(name, "extra"@) {
            "extra"@
        } else {
            "standard"@
        },
        None => "standard"@,
    }
}

/// The kind of the command whose source is `content`.
pub fn command_type(content: &Option<String>) -> (kind: String)
    ensures
        kind@ == command_kind(option_text(*content)),
{
    match content {
        Some(text) => {
            if is_slash_command(text.as_str()) {
                "slash".to_owned()
            } else {
                "message".to_owned()
            }
        },
        None => "message".to_owned(),
    }
}

/// The kind of the event file that lies in `folder`.
pub fn event_type(folder: &Option<String>) -> (kind: String)
    ensures
        kind@ == event_kind(option_text(*folder)),
{
    match folder {
        Some(name) => {
            let chars = chars_of(name.as_str());
            if includes(&chars, &chars_of("extra")) {
                "extra".to_owned()
            } else {
                "standard".to_owned()
            }
        },
        None => "standard".to_owned(),
    }
}

/// How a scanned file is shown: its type, and the kind of command or of
/// event that it is.
#[derive(Debug)]
pub struct FileKind {
    pub file_type: String,
    pub command_type: Option<String>,
    pub event_type: Option<String>,
}

/// What a `FileKind` holds, with each string as its characters.
pub struct FileKindView {
    pub file_type: Seq<char>,
    pub command_type: Option<Seq<char>>,
    pub event_type: Option<Seq<char>>,
}

impl View for FileKind {
    type V = FileKindView;

    open spec fn view(&self) -> FileKindView {
        FileKindView {
            file_type: self.file_type@,
            command_type: option_text(self.command_type),
            event_type: option_text(self.event_type),
        }
    }
}

/// How a file found in a scan for `file_type` is shown. A command has the
/// kind that its source declares, an event the kind that its folder gives
/// it, and any other file neither.
pub open spec fn kind_of(
    file_type: Seq<char>,
    content: Option<Seq<char>>,
    folder: Option<Seq<char>>,
) -> FileKindView {
    if file_type == "command"@ {
        FileKindView {
            file_type: "command"@,
            command_type: Some(command_kind(content)),
            event_type: None,
        }
    } else if file_type == "event"@ {
        FileKindView { file_type: "event"@, command_type: None, event_type: Some(event_kind(folder)) }
    } else {
        FileKindView { file_type, command_type: None, event_type: None }
    }
}

/// Tells whether a scan for `file_type` reads the source of the files that
/// it finds.
pub fn reads_source(file_type: &str) -> (b: bool)
    ensures
        b == (file_type@ == "command"@),
{
    same_text(file_type, "command")
}

/// How a file found in a scan for `file_type` is shown. `content` is the
/// source of the file, where the scan reads it and could read it; `folder`
/// is the folder in which the file lies, where it lies in one.
pub fn classify(file_type: &str, content: &Option<String>, folder: &Option<String>) -> (kind:
    FileKind)
    ensures
        kind@ == kind_of(file_type@, option_text(*content), option_text(*folder)),
{
    if same_text(file_type, "command") {
        FileKind {
            file_type: "command".to_owned(),
            command_type: Some(command_type(content)),
            event_type: None,
        }
    } else if same_text(file_type, "event") {
        FileKind {
            file_type: "event".to_owned(),
            command_type: None,
            event_type: Some(event_type(folder)),
        }
    } else {
        FileKind { file_type: file_type.to_owned(), command_type: None, event_type: None }
    }
}

/// The counts shown for a project.
#[derive(Clone, Copy, Debug, PartialEq, Eq, Structural)]
pub struct ProjectStats {
    pub message_commands: u32,
    pub slash_commands: u32,
    pub standard_events: u32,
    pub custom_events: u32,
    pub total_commands: u32,
    pub total_events: u32,
}

/// The characters of each optional string of a list.
pub open spec fn option_texts(items: Seq<Option<String>>) -> Seq<Option<Seq<char>>> {
    Seq::new(items.len(), |i: int| option_text(items[i]))
}

/// How many of the sources, as far as they could be read, declare a slash
/// command.
pub open spec fn slash_count(sources: Seq<Option<Seq<char>>>) -> nat
    decreases sources.len(),
{
    if sources.len() == 0 {
        0
    } else {
        slash_count(sources.drop_last()) + (match sources.last() {
            Some(text) => if declares_slash(text) {
                1nat
            } else {
                0nat
            },
            None => 0nat,
        })
    }
}

/// How many of the sources, as far as they could be read, declare a message
/// command and no slash command.
pub open spec fn message_count(sources: Seq<Option<Seq<char>>>) -> nat
    decreases sources.len(),
{
    if sources.len() == 0 {
        0
    } else {
        message_count(sources.drop_last()) + (match sources.last() {
            Some(text) => if !declares_slash(text) && declares_message(text) {
                1nat
            } else {
                0nat
            },
            None => 0nat,
        })
    }
}

/// How many of the events have the kind `kind`.
pub open spec fn kind_count(kinds: Seq<Option<Seq<char>>>, kind: Seq<char>) -> nat
    decreases kinds.len(),
{
    if kinds.len() == 0 {
        0
    } else {
        kind_count(kinds.drop_last(), kind) + (if kinds.last() == Some(kind) {
            1nat
        } else {
            0nat
        })
    }
}

/// No count is more than the number of items counted.
pub proof fn lemma_counts_bounded(items: Seq<Option<Seq<char>>>, kind: Seq<char>)
    ensures
        slash_count(items) + message_count(items) <= items.len(),
        kind_count(items, kind) <= items.len(),
    decreases items.len(),
{
    if items.len() > 0 {
        lemma_counts_bounded(items.drop_last(), kind);
    }
}

/// The counts shown for a project whose command files have the sources
/// `commands`, `None` for a source that could not be read, and whose event
/// files have the kinds `events`.
pub fn project_stats(commands: &Vec<Option<String>>, events: &Vec<Option<String>>) -> (stats:
    ProjectStats)
    requires
        commands.len() <= u32::MAX,
        events.len() <= u32::MAX,
    ensures
        stats.total_commands == commands.len(),
        stats.total_events == events.len(),
        stats.slash_commands == slash_count(option_texts(commands@)),
        stats.message_commands == message_count(option_texts(commands@)),
        stats.standard_events == kind_count(option_texts(events@), "standard"@),
        stats.custom_events == kind_count(option_texts(events@), "extra"@),
{
    let ghost sources = option_texts(commands@);
    let ghost kinds = option_texts(events@);
    let mut slash: u32 = 0;
    let mut message: u32 = 0;
    let mut i: usize = 0;
    while i < commands.len()
        invariant
            i <= commands.len() <= u32::MAX,
            sources == option_texts(commands@),
            slash == slash_count(sources.take(i as int)),
            message == message_count(sources.take(i as int)),
        decreases commands.len() - i,
    {
        proof {
            assert(sources.take(i + 1).drop_last() == sources.take(i as int));
            lemma_counts_bounded(sources.take(i + 1), Seq::empty());
        }
        match &commands[i] {
            Some(text) => {
                if is_slash_command(text.as_str()) {
                    slash = slash + 1;
                } else if is_message_command(text.as_str()) {
                    message = message + 1;
                }
            },
            None => {},
        }
        i += 1;
    }
    assert(sources.take(commands@.len() as int) == sources);
    let mut standard: u32 = 0;
    let mut custom: u32 = 0;
    let mut j: usize = 0;
    proof {
        reveal_strlit("standard");
        reveal_strlit("extra");
        assert("standard"@.len() != "extra"@.len());
    }
    while j < events.len()
        invariant
            j <= events.len() <= u32::MAX,
            kinds == option_texts(events@),
            standard == kind_count(kinds.take(j as int), "standard"@),
            custom == kind_count(kinds.take(j as int), "extra"@),
            "standard"@ != "extra"@,
        decreases events.len() - j,
    {
        proof {
            assert(kinds.take(j + 1).drop_last() == kinds.take(j as int));
            lemma_counts_bounded(kinds.take(j + 1), "standard"@);
            lemma_counts_bounded(kinds.take(j + 1), "extra"@);
        }
        match &events[j] {
            Some(kind) => {
                if same_text(kind.as_str(), "standard") {
                    standard = standard + 1;
                } else if same_text(kind.as_str(), "extra") {
                    custom = custom + 1;
                }
            },
            None => {},
        }
        j += 1;
    }
    assert(kinds.take(events@.len() as int) == kinds);
    ProjectStats {
        message_commands: message,
        slash_commands: slash,
        standard_events: standard,
        custom_events: custom,
        total_commands: commands.len() as u32,
        total_events: events.len() as u32,
    }
}

/// Tells whether a file with this extension is listed among the sources of
/// a project: a TypeScript or a JavaScript file.
pub fn is_source_extension(extension: &str) -> (b: bool)
    ensures
        b == (extension@ == "ts"@ || extension@ == "js"@),
{
    same_text(extension, "ts") || same_text(extension, "js")
}

/// Tells whether a file with this extension is searched for references to
/// environment variables: a TypeScript, a JavaScript or a Prisma file.
pub fn is_env_source_extension(extension: &str) -> (b: bool)
    ensures
        b == (extension@ == "ts"@ || extension@ == "js"@ || extension@ == "prisma"@),
{
    same_text(extension, "ts") || same_text(extension, "js") || same_text(extension, "prisma")
}

/// Where a reference to an environment variable stands.
#[derive(Debug)]
pub struct VarLocation {
    pub variable: String,
    pub file: String,
    pub line: usize,
    pub snippet: String,
}

/// What a `VarLocation` holds, with each string as its characters.
pub struct VarLocationView {
    pub variable: Seq<char>,
    pub file: Seq<char>,
    pub line: nat,
    pub snippet: Seq<char>,
}

impl View for VarLocation {
    type V = VarLocationView;

    open spec fn view(&self) -> VarLocationView {
        VarLocationView {
            variable: self.variable@,
            file: self.file@,
            line: self.line as nat,
            snippet: self.snippet@,
        }
    }
}

/// The place of a reference to `variable` in the line with index
/// `line_index`, counted from 0, of `file`. Lines are shown counted from 1,
/// and the line itself without the whitespace around it.
pub fn env_location(variable: &str, file: &str, line_index: usize, line: &str) -> (location:
    VarLocation)
    requires
        line_index < usize::MAX,
    ensures
        location@ == (VarLocationView {
            variable: variable@,
            file: file@,
            line: (line_index + 1) as nat,
            snippet: trim(line@),
        }),
{
    let chars = chars_of(line);
    let (lo, hi) = trim_bounds(&chars);
    VarLocation {
        variable: variable.to_owned(),
        file: file.to_owned(),
        line: line_index + 1,
        snippet: string_of(&chars, lo, hi),
    }
}

/// Why a file or a folder could not be removed.
#[derive(Debug)]
pub enum RemovalFailure {
    /// The editor may not remove it.
    PermissionDenied,
    /// It is not there any more.
    NotFound,
    /// Anything else, with the reason.
    Other(String),
}

/// The message for a file at `path` that could not be removed.
pub open spec fn file_removal_message(path: Seq<char>, failure: RemovalFailure) -> Seq<char> {
    match failure {
        RemovalFailure::PermissionDenied => "Permiso denegado para eliminar: "@ + path
            + ". Ejecuta el editor como administrador."@,
        RemovalFailure::NotFound => "Archivo no encontrado: "@ + path,
        RemovalFailure::Other(detail) => "Error al eliminar archivo: "@ + path + " - "@ + detail@,
    }
}

/// The message for a folder at `path` that could not be removed.
pub open spec fn folder_removal_message(path: Seq<char>, failure: RemovalFailure) -> Seq<char> {
    match failure {
        RemovalFailure::PermissionDenied => "Permiso denegado para eliminar directorio: "@ + path
            + ". Ejecuta el editor como administrador."@,
        RemovalFailure::NotFound => "Directorio no encontrado: "@ + path,
        RemovalFailure::Other(detail) => "Error al eliminar directorio: "@ + path + " - "@
            + detail@,
    }
}

/// The message for a file at `path` that could not be removed.
pub fn delete_file_error(path: &str, failure: &RemovalFailure) -> (message: String)
    ensures
        message@ == file_removal_message(path@, *failure),
{
    match failure {
        RemovalFailure::PermissionDenied => {
            let mut m = "Permiso denegado para eliminar: ".to_owned();
            m.append(path);
            m.append(". Ejecuta el editor como administrador.");
            m
        },
        RemovalFailure::NotFound => {
            let mut m = "Archivo no encontrado: ".to_owned();
            m.append(path);
            m
        },
        RemovalFailure::Other(detail) => {
            let mut m = "Error al eliminar archivo: ".to_owned();
            m.append(path);
            m.append(" - ");
            m.append(detail.as_str());
            m
        },
    }
}

/// The message for a folder at `path` that could not be removed.
pub fn delete_folder_error(path: &str, failure: &RemovalFailure) -> (message: String)
    ensures
        message@ == folder_removal_message(path@, *failure),
{
    match failure {
        RemovalFailure::PermissionDenied => {
            let mut m = "Permiso denegado para eliminar directorio: ".to_owned();
            m.append(path);
            m.append(". Ejecuta el editor como administrador.");
            m
        },
        RemovalFailure::NotFound => {
            let mut m = "Directorio no encontrado: ".to_owned();
            m.append(path);
            m
        },
        RemovalFailure::Other(detail) => {
            let mut m = "Error al eliminar directorio: ".to_owned();
            m.append(path);
            m.append(" - ");
            m.append(detail.as_str());
            m
        },
    }
}

} // verus!
