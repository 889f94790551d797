//! What the store is told: source roots, file texts, the applications that
//! files belong to, the index of modules, and what the parser and the disk
//! have yielded so far.

use crate::error::ParseError;
use crate::ids::FileId;
use crate::ids::ProjectId;
use crate::ids::SourceRootId;
use crate::seqs::find_where;
use crate::seqs::lemma_first_where_at;
use crate::seqs::lemma_first_where_none;
use std::collections::HashMap;
use vstd::prelude::*;

verus! {

broadcast use vstd::std_specs::hash::group_hash_axioms;

/// Kinds of application.
#[derive(Clone, Copy, Debug, PartialEq, Eq, Structural)]
pub enum AppType {
    App,
    Dep,
    Otp,
}

/// What is known of the application that a file belongs to.
#[derive(Debug)]
pub struct AppData {
    pub project_id: ProjectId,
    pub name: String,
    pub dir: String,
    pub include_path: Vec<String>,
    pub app_type: AppType,
    pub ebin_path: Option<String>,
    pub macros: Vec<eetf::Term>,
    pub parse_transforms: Vec<eetf::Term>,
}

/// A file of a source root, with its path.
#[derive(Debug)]
pub struct RootFile {
    pub file_id: FileId,
    pub path: String,
}

/// The files that one compilation unit sees, in order.
#[derive(Debug)]
pub struct SourceRoot {
    pub files: Vec<RootFile>,
}

impl SourceRoot {
    /// The path of a file of the root.
    pub open spec fn spec_path_for_file(self, file_id: FileId) -> Option<Seq<char>> {
        match find_where(self.files@, |f: RootFile| f.file_id == file_id) {
            Some(f) => Some(f.path@),
            None => None,
        }
    }

    /// The file of the root that has the given path.
    pub open spec fn spec_file_for_path(self, path: Seq<char>) -> Option<FileId> {
        match find_where(self.files@, |f: RootFile| f.path@ == path) {
            Some(f) => Some(f.file_id),
            None => None,
        }
    }

    pub fn path_for_file(&self, file_id: FileId) -> (path: Option<&String>)
        ensures
            match path {
                Some(p) => self.spec_path_for_file(file_id) == Some(p@),
                None => self.spec_path_for_file(file_id).is_none(),
            },
    {
        let ghost p = |f: RootFile| f.file_id == file_id;
        let mut i: usize = 0;
        while i < self.files.len()
            invariant
                i <= self.files.len(),
                forall|j: int| 0 <= j < i ==> !p(#[trigger] self.files@[j]),
                p == (|f: RootFile| f.file_id == file_id),
            decreases self.files.len() - i,
        {
            if self.files[i].file_id == file_id {
                proof {
                    lemma_first_where_at(self.files@, p, i as int);
                }
                return Some(&self.files[i].path);
            }
            i = i + 1;
        }
        proof {
            lemma_first_where_none(self.files@, p);
        }
        None
    }

    pub fn file_for_path(&self, path: &str) -> (file_id: Option<FileId>)
        ensures
            file_id == self.spec_file_for_path(path@),
    {
        let ghost p = |f: RootFile| f.path@ == path@;
        let mut i: usize = 0;
        while i < self.files.len()
            invariant
                i <= self.files.len(),
                forall|j: int| 0 <= j < i ==> !p(#[trigger] self.files@[j]),
                p == (|f: RootFile| f.path@ == path@),
            decreases self.files.len() - i,
        {
            if same_text(self.files[i].path.as_str(), path) {
                proof {
                    lemma_first_where_at(self.files@, p, i as int);
                }
                return Some(self.files[i].file_id);
            }
            i = i + 1;
        }
        proof {
            lemma_first_where_none(self.files@, p);
        }
        None
    }
}

/// Whether two string slices hold the same text.
///
/// Wraps `==` on `str`, which compares the texts.
#[verifier::external_body]
pub(crate) fn same_text(a: &str, b: &str) -> (same: bool)
    ensures
        same == (a@ == b@),
{
    a == b
}

/// A module of a project and the file that holds it.
#[derive(Debug)]
pub struct ModuleEntry {
    pub project_id: ProjectId,
    pub name: String,
    pub file_id: FileId,
}

/// What a change says of one application: its source root, what is known of
/// it, and the files, by path, that belong to it though they lie elsewhere.
#[derive(Debug)]
pub struct AppEntry {
    pub source_root: SourceRootId,
    pub data: Option<AppData>,
    pub applicable_files: Vec<String>,
}

/// The applications of all projects and the index of their modules.
#[derive(Debug)]
pub struct AppStructure {
    pub apps: Vec<AppEntry>,
    pub modules: Vec<ModuleEntry>,
}

/// What the parser made of a file: the bytes of its forms, or the errors it
/// found. The parse succeeded if there are no errors.
#[derive(Debug, PartialEq, Eq)]
pub struct ParseResult {
    pub ast: Vec<u8>,
    pub errors: Vec<ParseError>,
}

impl View for ParseResult {
    type V = (Seq<u8>, Seq<crate::error::ParseErrorV>);

    open spec fn view(&self) -> (Seq<u8>, Seq<crate::error::ParseErrorV>) {
        (self.ast@, crate::seqs::views(self.errors@))
    }
}

impl ParseResult {
    pub fn clone(&self) -> (r: ParseResult)
        ensures
            r@ == self@,
    {
        let mut errors: Vec<ParseError> = Vec::new();
        let mut i: usize = 0;
        while i < self.errors.len()
            invariant
                i <= self.errors.len(),
                errors@.len() == i,
                forall|j: int| 0 <= j < i ==> (#[trigger] errors@[j])@ == self.errors@[j]@,
            decreases self.errors.len() - i,
        {
            errors.push(self.errors[i].clone());
            i = i + 1;
        }
        proof {
            assert(crate::seqs::views(errors@) =~= crate::seqs::views(self.errors@));
        }
        ParseResult { ast: vstd::slice::slice_to_vec(self.ast.as_slice()), errors }
    }

    pub open spec fn spec_is_ok(self) -> bool {
        self.errors@.len() == 0
    }

    pub fn is_ok(&self) -> (ok: bool)
        ensures
            ok == self.spec_is_ok(),
    {
        self.errors.len() == 0
    }

    /// The result of a parse that failed with one error.
    pub fn error(error: ParseError) -> (r: ParseResult)
        ensures
            r.ast@ == Seq::<u8>::empty(),
            r.errors@ == seq![error],
            !r.spec_is_ok(),
    {
        let mut errors: Vec<ParseError> = Vec::new();
        errors.push(error);
        ParseResult { ast: Vec::new(), errors }
    }
}

/// A parse result in the store: the revision at which it was supplied, and
/// the files whose text the parser read besides the file itself.
#[derive(Debug)]
pub struct ParsedFile {
    pub stamp: u64,
    pub includes: Vec<FileId>,
    pub result: ParseResult,
}

/// The contents of a compiled artifact.
#[derive(Debug)]
pub struct BeamFile {
    pub path: String,
    pub contents: Vec<u8>,
}

/// All that the store is told. Tables keyed by a file or a source root are
/// keyed by the identifier's number.
pub struct Inputs {
    pub roots: Vec<SourceRoot>,
    pub file_roots: HashMap<u32, u32>,
    pub texts: HashMap<u32, String>,
    /// For each file, the revision at which its text last changed.
    pub text_revs: HashMap<u32, u64>,
    pub apps: HashMap<u32, AppData>,
    /// Files that belong to an application other than their source root's.
    pub file_apps: HashMap<u32, u32>,
    pub modules: Vec<ModuleEntry>,
    /// The revision at which the roots or the applications last changed.
    pub layout_rev: u64,
    pub parsed: HashMap<u32, ParsedFile>,
    pub beams: Vec<BeamFile>,
}

impl Inputs {
    pub fn new() -> (inputs: Inputs)
        ensures
            inputs.roots@.len() == 0,
            inputs.file_roots@ == Map::<u32, u32>::empty(),
            inputs.texts@ == Map::<u32, String>::empty(),
            inputs.text_revs@ == Map::<u32, u64>::empty(),
            inputs.apps@ == Map::<u32, AppData>::empty(),
            inputs.file_apps@ == Map::<u32, u32>::empty(),
            inputs.modules@.len() == 0,
            inputs.layout_rev == 0,
            inputs.parsed@ == Map::<u32, ParsedFile>::empty(),
            inputs.beams@.len() == 0,
    {
        Inputs {
            roots: Vec::new(),
            file_roots: HashMap::new(),
            texts: HashMap::new(),
            text_revs: HashMap::new(),
            apps: HashMap::new(),
            file_apps: HashMap::new(),
            modules: Vec::new(),
            layout_rev: 0,
            parsed: HashMap::new(),
            beams: Vec::new(),
        }
    }

    /// The text of a file; a file without text has none.
    pub open spec fn spec_file_text(self, file_id: FileId) -> Option<Seq<char>> {
        if self.texts@.contains_key(file_id.0) {
            Some(self.texts@[file_id.0]@)
        } else {
            None
        }
    }

    /// The revision at which the text of a file last changed; 0 if it never did.
    pub open spec fn spec_text_rev(self, file_id: FileId) -> u64 {
        if self.text_revs@.contains_key(file_id.0) {
            self.text_revs@[file_id.0]
        } else {
            0
        }
    }

    /// The source root that a file belongs to.
    pub open spec fn spec_file_source_root(self, file_id: FileId) -> Option<SourceRootId> {
        if self.file_roots@.contains_key(file_id.0) {
            Some(SourceRootId(self.file_roots@[file_id.0]))
        } else {
            None
        }
    }

    /// The source root with the given identifier.
    pub open spec fn spec_source_root(self, id: SourceRootId) -> Option<SourceRoot> {
        if id.0 < self.roots@.len() {
            Some(self.roots@[id.0 as int])
        } else {
            None
        }
    }

    /// The path of a file: the path it has in its source root.
    pub open spec fn spec_path_for_file(self, file_id: FileId) -> Option<Seq<char>> {
        match self.spec_file_source_root(file_id) {
            Some(root_id) => match self.spec_source_root(root_id) {
                Some(root) => root.spec_path_for_file(file_id),
                None => None,
            },
            None => None,
        }
    }

    /// The source root whose application a file belongs to: the one it was
    /// assigned to by name, else its own.
    pub open spec fn spec_app_root(self, file_id: FileId) -> Option<u32> {
        if self.file_apps@.contains_key(file_id.0) {
            Some(self.file_apps@[file_id.0])
        } else if self.file_roots@.contains_key(file_id.0) {
            Some(self.file_roots@[file_id.0])
        } else {
            None
        }
    }

    /// The application that a file belongs to.
    pub open spec fn spec_file_app_data(self, file_id: FileId) -> Option<AppData> {
        match self.spec_app_root(file_id) {
            Some(root) => if self.apps@.contains_key(root) {
                Some(self.apps@[root])
            } else {
                None
            },
            None => None,
        }
    }

    /// The file that holds a module of a project.
    pub open spec fn spec_file_for_module(self, project_id: ProjectId, module: Seq<char>) -> Option<
        FileId,
    > {
        match find_where(
            self.modules@,
            |e: ModuleEntry| e.project_id == project_id && e.name@ == module,
        ) {
            Some(e) => Some(e.file_id),
            None => None,
        }
    }

    /// A parse result is fresh while neither a file that the parser read nor
    /// the roots or the applications have changed since the result was
    /// supplied: the path, the macros and the parse transforms that the
    /// parser was given are then still those of the file.
    pub open spec fn spec_fresh(self, file_id: FileId, parsed: ParsedFile) -> bool {
        &&& self.layout_rev <= parsed.stamp
        &&& self.spec_text_rev(file_id) <= parsed.stamp
        &&& forall|i: int|
            0 <= i < parsed.includes@.len() ==> self.spec_text_rev(#[trigger] parsed.includes@[i])
                <= parsed.stamp
    }

    /// The parse result of a file, if a fresh one is at hand.
    pub open spec fn spec_module_ast(self, file_id: FileId) -> Option<ParseResult> {
        if self.parsed@.contains_key(file_id.0) && self.spec_fresh(
            file_id,
            self.parsed@[file_id.0],
        ) {
            Some(self.parsed@[file_id.0].result)
        } else {
            None
        }
    }

    /// The contents of the compiled artifact at a path, if at hand.
    pub open spec fn spec_beam(self, path: Seq<char>) -> Option<Seq<u8>> {
        match find_where(self.beams@, |b: BeamFile| b.path@ == path) {
            Some(b) => Some(b.contents@),
            None => None,
        }
    }

    pub fn file_text(&self, file_id: FileId) -> (text: Option<&String>)
        ensures
            match text {
                Some(t) => self.spec_file_text(file_id) == Some(t@),
                None => self.spec_file_text(file_id).is_none(),
            },
    {
        self.texts.get(&file_id.0)
    }

    pub fn text_rev(&self, file_id: FileId) -> (rev: u64)
        ensures
            rev == self.spec_text_rev(file_id),
    {
        match self.text_revs.get(&file_id.0) {
            Some(r) => *r,
            None => 0,
        }
    }

    pub fn file_source_root(&self, file_id: FileId) -> (root: Option<SourceRootId>)
        ensures
            root == self.spec_file_source_root(file_id),
    {
        match self.file_roots.get(&file_id.0) {
            Some(r) => Some(SourceRootId(*r)),
            None => None,
        }
    }

    pub fn source_root(&self, id: SourceRootId) -> (root: Option<&SourceRoot>)
        ensures
            match root {
                Some(r) => self.spec_source_root(id) == Some(*r),
                None => self.spec_source_root(id).is_none(),
            },
    {
        if (id.0 as usize) < self.roots.len() {
            Some(&self.roots[id.0 as usize])
        } else {
            None
        }
    }

    pub fn path_for_file(&self, file_id: FileId) -> (path: Option<&String>)
        ensures
            match path {
                Some(p) => self.spec_path_for_file(file_id) == Some(p@),
                None => self.spec_path_for_file(file_id).is_none(),
            },
    {
        match self.file_source_root(file_id) {
            Some(root_id) => match self.source_root(root_id) {
                Some(root) => root.path_for_file(file_id),
                None => None,
            },
            None => None,
        }
    }

    pub fn file_app_data(&self, file_id: FileId) -> (app: Option<&AppData>)
        ensures
            match app {
                Some(a) => self.spec_file_app_data(file_id) == Some(*a),
                None => self.spec_file_app_data(file_id).is_none(),
            },
    {
        let root: u32 = match self.file_apps.get(&file_id.0) {
            Some(r) => *r,
            None => match self.file_roots.get(&file_id.0) {
                Some(r) => *r,
                None => {
                    return None;
                },
            },
        };
        self.apps.get(&root)
    }

    pub fn file_for_module(&self, project_id: ProjectId, module: &str) -> (file_id: Option<FileId>)
        ensures
            file_id == self.spec_file_for_module(project_id, module@),
    {
        let ghost p = |e: ModuleEntry| e.project_id == project_id && e.name@ == module@;
        let mut i: usize = 0;
        while i < self.modules.len()
            invariant
                i <= self.modules.len(),
                forall|j: int| 0 <= j < i ==> !p(#[trigger] self.modules@[j]),
                p == (|e: ModuleEntry| e.project_id == project_id && e.name@ == module@),
            decreases self.modules.len() - i,
        {
            if self.modules[i].project_id == project_id && same_text(
                self.modules[i].name.as_str(),
                module,
            ) {
                proof {
                    lemma_first_where_at(self.modules@, p, i as int);
                }
                return Some(self.modules[i].file_id);
            }
            i = i + 1;
        }
        proof {
            lemma_first_where_none(self.modules@, p);
        }
        None
    }

    /// Whether a parse result is still fresh.
    pub fn fresh(&self, file_id: FileId, parsed: &ParsedFile) -> (fresh: bool)
        ensures
            fresh == self.spec_fresh(file_id, *parsed),
    {
        if self.layout_rev > parsed.stamp || self.text_rev(file_id) > parsed.stamp {
            return false;
        }
        let mut i: usize = 0;
        while i < parsed.includes.len()
            invariant
                i <= parsed.includes.len(),
                forall|j: int|
                    0 <= j < i ==> self.spec_text_rev(#[trigger] parsed.includes@[j])
                        <= parsed.stamp,
            decreases parsed.includes.len() - i,
        {
            if self.text_rev(parsed.includes[i]) > parsed.stamp {
                return false;
            }
            i = i + 1;
        }
        true
    }

    /// The parse result of a file, if a fresh one is at hand.
    pub fn module_ast(&self, file_id: FileId) -> (result: Option<&ParseResult>)
        ensures
            match result {
                Some(r) => self.spec_module_ast(file_id) == Some(*r),
                None => self.spec_module_ast(file_id).is_none(),
            },
    {
        match self.parsed.get(&file_id.0) {
            Some(parsed) => {
                if self.fresh(file_id, parsed) {
                    Some(&parsed.result)
                } else {
                    None
                }
            },
            None => None,
        }
    }

    pub fn beam(&self, path: &str) -> (contents: Option<&Vec<u8>>)
        ensures
            match contents {
                Some(c) => self.spec_beam(path@) == Some(c@),
                None => self.spec_beam(path@).is_none(),
            },
    {
        let ghost p = |b: BeamFile| b.path@ == path@;
        let mut i: usize = 0;
        while i < self.beams.len()
            invariant
                i <= self.beams.len(),
                forall|j: int| 0 <= j < i ==> !p(#[trigger] self.beams@[j]),
                p == (|b: BeamFile| b.path@ == path@),
            decreases self.beams.len() - i,
        {
            if same_text(self.beams[i].path.as_str(), path) {
                proof {
                    lemma_first_where_at(self.beams@, p, i as int);
                }
                return Some(&self.beams[i].contents);
            }
            i = i + 1;
        }
        proof {
            lemma_first_where_none(self.beams@, p);
        }
        None
    }
}

} // verus!
