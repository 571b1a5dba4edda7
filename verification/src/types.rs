//! The data model of the broker core.
//!
//! Positions come in two coordinate systems: LSP positions are 0-based with
//! a `character` counted in code units of the owning server's offset
//! encoding; editor positions are 1-based with a byte column. Documents are
//! snapshots of open buffers: a list of lines (each keeping its trailing
//! newline characters) and a monotonic version.

use vstd::prelude::*;

verus! {

/// Index of a server in the registry; registry order is insertion order
/// and defines presentation order.
pub type ServerId = usize;

/// LSP severity codes: 1 error, 2 warning, 3 information, 4 hint. Smaller
/// is more severe.
pub const SEVERITY_ERROR: u32 = 1;

pub const SEVERITY_WARNING: u32 = 2;

pub const SEVERITY_INFORMATION: u32 = 3;

pub const SEVERITY_HINT: u32 = 4;

/// Sentinel column meaning "one past end of line", used to request
/// whole-line semantics.
pub const EOL_OFFSET: u32 = 0xffff_ffff;

/// How a server counts the `character` field of positions.
#[derive(Clone, Copy, PartialEq, Eq, Structural, Debug)]
pub enum OffsetEncoding {
    Utf8,
    Utf16,
    Utf32,
}

/// A 0-based LSP position; `character` is in code units of an offset
/// encoding fixed by context.
#[derive(Clone, Copy, PartialEq, Eq, Structural, Debug)]
pub struct LspPosition {
    pub line: u32,
    pub character: u32,
}

/// A pair of LSP positions.
#[derive(Clone, Copy, PartialEq, Eq, Structural, Debug)]
pub struct LspRange {
    pub start: LspPosition,
    pub end: LspPosition,
}

/// A 1-based editor position; `column` is a 1-based byte offset into the
/// line.
#[derive(Clone, Copy, PartialEq, Eq, Structural, Debug)]
pub struct EditorPosition {
    pub line: u32,
    pub column: u32,
}

/// A pair of editor positions.
#[derive(Clone, Copy, PartialEq, Eq, Structural, Debug)]
pub struct EditorRange {
    pub start: EditorPosition,
    pub end: EditorPosition,
}

/// A snapshot of an open buffer: its lines (each including any trailing
/// newline characters) and the version the snapshot was taken at.
pub struct Document {
    pub lines: Vec<Vec<char>>,
    pub version: i32,
}

/// One entry of a diagnostic's related-information list, already reduced
/// to the file name and the start position the renderer reads.
pub struct RelatedInformation {
    pub filename: String,
    pub position: LspPosition,
    pub message: String,
}

/// A single server's diagnostic for a buffer.
pub struct Diagnostic {
    pub range: LspRange,
    /// Raw LSP severity code; `None` renders as a warning.
    pub severity: Option<u32>,
    pub message: String,
    pub related_information: Vec<RelatedInformation>,
}

/// A command attached to a code lens or code action.
pub struct Command {
    pub title: String,
    pub command: String,
    /// The command's arguments, pre-serialized as one JSON array, if any.
    pub arguments_json: Option<String>,
}

/// A resolved or unresolved code lens.
pub struct CodeLens {
    pub range: LspRange,
    pub command: Option<Command>,
}

/// Which features a server advertised at initialization.
#[derive(Clone, Copy, PartialEq, Eq, Structural, Debug)]
pub struct Capabilities {
    pub code_actions: bool,
    pub code_actions_resolve: bool,
    pub code_lens: bool,
    pub formatting: bool,
    pub range_formatting: bool,
    pub rename: bool,
    pub goto: bool,
    pub references: bool,
    pub call_hierarchy: bool,
    pub execute_command: bool,
}

/// A configured language server, read-only to the core.
pub struct ServerSettings {
    pub name: String,
    pub root_path: String,
    pub offset_encoding: OffsetEncoding,
    pub capabilities: Capabilities,
}

/// The ordered server registry; the first entry is the "main" server used
/// for presentation defaults.
pub struct ServerRegistry {
    pub servers: Vec<ServerSettings>,
}

/// One editor-originated request.
pub struct EditorMeta {
    pub buffile: String,
    pub client: String,
    /// The subset of registry indices this request consults.
    pub servers: Vec<ServerId>,
    /// True when fired from an editor hook rather than interactively.
    pub hook: bool,
    /// A synchronous reply channel, when the editor blocks on one.
    pub fifo: Option<String>,
    pub write_response_to_fifo: bool,
    /// Buffer version captured at dispatch time, for version-pinned replies.
    pub version: Option<i32>,
}

/// A normalized goto target: a file and an LSP range in it.
pub struct Location {
    pub filename: String,
    pub range: LspRange,
}

/// The texts of files consulted while rendering (goto previews, related
/// information): pairs of file name and lines.
pub struct FileContents {
    pub files: Vec<(String, Vec<Vec<char>>)>,
}

impl ServerRegistry {
    /// The settings of server `id`.
    pub fn get(&self, id: ServerId) -> (r: &ServerSettings)
        requires
            id < self.servers@.len(),
        ensures
            r == self.servers@[id as int],
    {
        &self.servers[id]
    }

    /// The main server: the first registered one.
    pub fn main(&self) -> (r: &ServerSettings)
        requires
            self.servers@.len() > 0,
        ensures
            r == self.servers@[0],
    {
        &self.servers[0]
    }
}

/// The text stored for `filename` in `files`: the first entry with that
/// name wins.
pub open spec fn lookup_file(files: Seq<(String, Vec<Vec<char>>)>, filename: Seq<char>) -> Option<
    Seq<Vec<char>>,
>
    decreases files.len(),
{
    if files.len() == 0 {
        None
    } else if files[0].0@ == filename {
        Some(files[0].1@)
    } else {
        lookup_file(files.drop_first(), filename)
    }
}

/// A found text is the text of one of the stored entries.
pub proof fn lemma_lookup_file_from_entry(
    files: Seq<(String, Vec<Vec<char>>)>,
    filename: Seq<char>,
)
    requires
        lookup_file(files, filename) is Some,
    ensures
        exists|i: int|
            0 <= i < files.len() && (#[trigger] files[i]).1@ == lookup_file(files, filename)->0,
    decreases files.len(),
{
    if files.len() > 0 {
        if files[0].0@ == filename {
            assert(files[0].1@ == lookup_file(files, filename)->0);
        } else {
            lemma_lookup_file_from_entry(files.drop_first(), filename);
            let w = choose|w: int|
                0 <= w < files.drop_first().len() && (#[trigger] files.drop_first()[w]).1@
                    == lookup_file(files.drop_first(), filename)->0;
            assert(files[w + 1] == files.drop_first()[w]);
        }
    }
}

impl FileContents {
    /// The first stored text for `filename`, if any.
    pub open spec fn spec_get(&self, filename: Seq<char>) -> Option<Seq<Vec<char>>> {
        lookup_file(self.files@, filename)
    }

    /// Looks up the text of `filename`.
    pub fn get(&self, filename: &str) -> (r: Option<&Vec<Vec<char>>>)
        ensures
            r is Some <==> self.spec_get(filename@) is Some,
            r is Some ==> r->0@ == self.spec_get(filename@)->0,
    {
        let name = filename.to_owned();
        let mut i: usize = 0;
        proof {
            assert(self.files@.skip(0) =~= self.files@);
        }
        while i < self.files.len()
            invariant
                i <= self.files@.len(),
                name@ == filename@,
                lookup_file(self.files@, filename@) == lookup_file(
                    self.files@.skip(i as int),
                    filename@,
                ),
            decreases self.files@.len() - i,
        {
            if self.files[i].0 == name {
                proof {
                    assert(self.files@.skip(i as int)[0] == self.files@[i as int]);
                }
                return Some(&self.files[i].1);
            }
            proof {
                assert(self.files@.skip(i as int).drop_first() =~= self.files@.skip(i as int + 1));
                assert(self.files@.skip(i as int)[0] == self.files@[i as int]);
            }
            i = i + 1;
        }
        proof {
            assert(self.files@.skip(i as int).len() == 0);
        }
        None
    }
}

} // verus!
