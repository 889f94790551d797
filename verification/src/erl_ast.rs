//! Getting the syntax tree of a file: what is asked of the parser, and what
//! the parser is told when it asks for an included file.

use crate::error::ParseError;
use crate::error::ParseErrorV;
use crate::ids::FileId;
use crate::input::AppData;
use crate::input::Inputs;
use crate::input::ParseResult;
use crate::store::Store;
use crate::terms::atom;
use crate::terms::atom_term;
use crate::terms::copy_terms;
use vstd::prelude::*;
use vstd::string::StrSliceExecFns;
use vstd::string::StringExecFns;
use vstd::utf8::encode_utf8;

verus! {

/// Per-file metadata: where the lines of the file start, in bytes.
#[derive(Debug, PartialEq, Eq)]
pub struct Metadata {
    pub line_starts: Vec<usize>,
}

/// The forms in which the parser can write a syntax tree.
#[derive(Clone, Copy, Debug, PartialEq, Eq, Structural)]
pub enum Format {
    OffsetEtf,
    Text,
}

/// What the parser is told besides the text.
#[derive(Debug)]
pub enum CompileOption {
    Macros(Vec<eetf::Term>),
    ParseTransforms(Vec<eetf::Term>),
    ElpMetadata(Metadata),
}

/// A request to the parser.
#[derive(Debug)]
pub struct ParseRequest {
    pub options: Vec<CompileOption>,
    pub file_id: FileId,
    pub path: String,
    pub format: Format,
    pub file_text: String,
}

/// How an included file is named.
#[derive(Clone, Copy, Debug, PartialEq, Eq, Structural)]
pub enum IncludeType {
    Normal,
    Lib,
    Doc,
}

/// What is to be done for the syntax tree of a file.
#[derive(Debug)]
pub enum AstStep {
    /// Nothing: this is the result.
    Done(ParseResult),
    /// The parser is to be run on this request, and its result supplied.
    Parse(ParseRequest),
}

/// The starts of the lines among the first `n` bytes: 0, and the position
/// after each line feed.
pub open spec fn line_starts(bytes: Seq<u8>, n: nat) -> Seq<usize>
    decreases n,
{
    if n == 0 || n > bytes.len() {
        seq![0usize]
    } else {
        let before = line_starts(bytes, (n - 1) as nat);
        if bytes[n - 1] == 10 {
            before.push(n as usize)
        } else {
            before
        }
    }
}

/// The starts of the lines of a text.
pub open spec fn line_index(text: Seq<char>) -> Seq<usize> {
    line_starts(encode_utf8(text), encode_utf8(text).len())
}

/// The text of a file; a file without text is empty.
pub open spec fn text_or_empty(inputs: Inputs, file_id: FileId) -> Seq<char> {
    match inputs.spec_file_text(file_id) {
        Some(t) => t,
        None => Seq::empty(),
    }
}

/// The metadata of a file: the index of the lines of its text.
pub fn elp_metadata(db: &Store, file_id: FileId) -> (metadata: Metadata)
    ensures
        metadata.line_starts@ == line_index(text_or_empty(db.inputs(), file_id)),
{
    let mut starts: Vec<usize> = Vec::new();
    starts.push(0);
    match db.get_inputs().file_text(file_id) {
        None => {
            proof {
                assert(encode_utf8(Seq::<char>::empty()).len() == 0);
            }
        },
        Some(text) => {
            let bytes = text.as_str().as_bytes();
            let mut i: usize = 0;
            while i < bytes.len()
                invariant
                    i <= bytes.len(),
                    starts@ == line_starts(bytes@, i as nat),
                decreases bytes.len() - i,
            {
                if bytes[i] == 10 {
                    starts.push(i + 1);
                }
                i = i + 1;
            }
        },
    }
    Metadata { line_starts: starts }
}

/// The name by which the parser knows that it runs for this service.
pub open spec fn service_macro() -> Seq<char> {
    "ELP_ERLANG_SERVICE"@
}

/// Whether a request is the one to parse a file of an application: the
/// application's macros and one more that names this service, its parse
/// transforms, the file's metadata, and the file's text, to be parsed into
/// the form with offsets.
pub open spec fn is_request_for(
    request: ParseRequest,
    inputs: Inputs,
    file_id: FileId,
    path: Seq<char>,
    macros: Seq<eetf::Term>,
    parse_transforms: Seq<eetf::Term>,
    metadata: Seq<usize>,
) -> bool {
    &&& request.file_id == file_id
    &&& request.path@ == path
    &&& request.format == Format::OffsetEtf
    &&& request.file_text@ == text_or_empty(inputs, file_id)
    &&& request.options@.len() == 3
    &&& match request.options@[0] {
        CompileOption::Macros(ms) => ms@ == macros.push(atom_term(service_macro())),
        _ => false,
    }
    &&& match request.options@[1] {
        CompileOption::ParseTransforms(pts) => pts@ == parse_transforms,
        _ => false,
    }
    &&& match request.options@[2] {
        CompileOption::ElpMetadata(md) => md.line_starts@ == metadata,
        _ => false,
    }
}

/// The request to the parser for a file.
pub fn parse_request(
    db: &Store,
    file_id: FileId,
    path: &str,
    macros: &Vec<eetf::Term>,
    parse_transforms: &Vec<eetf::Term>,
    elp_metadata: Metadata,
) -> (request: ParseRequest)
    ensures
        is_request_for(
            request,
            db.inputs(),
            file_id,
            path@,
            macros@,
            parse_transforms@,
            elp_metadata.line_starts@,
        ),
{
    let mut macros = copy_terms(macros);
    macros.push(atom("ELP_ERLANG_SERVICE"));
    let mut options: Vec<CompileOption> = Vec::new();
    options.push(CompileOption::Macros(macros));
    options.push(CompileOption::ParseTransforms(copy_terms(parse_transforms)));
    options.push(CompileOption::ElpMetadata(elp_metadata));
    let file_text = match db.get_inputs().file_text(file_id) {
        Some(t) => t.clone(),
        None => String::new(),
    };
    ParseRequest {
        options,
        file_id,
        path: String::from_str(path),
        format: Format::OffsetEtf,
        file_text,
    }
}

/// The error for a file that belongs to no application.
pub open spec fn unknown_application(path: Seq<char>) -> ParseErrorV {
    ParseErrorV { path, location: None, msg: "Unknown application"@, code: "L0003"@ }
}

/// Whether a file can be asked for its syntax tree: it has to lie in a
/// source root.
pub open spec fn has_path(inputs: Inputs, file_id: FileId) -> bool {
    inputs.spec_path_for_file(file_id).is_some()
}

/// Whether a step is what is to be done for the syntax tree of a file:
/// nothing where the file belongs to no application, which is an error;
/// nothing where a fresh parse result is at hand, which is then the result;
/// else the parser is to be run on the request for the file.
pub open spec fn is_step_for(step: AstStep, inputs: Inputs, file_id: FileId) -> bool {
    match inputs.spec_file_app_data(file_id) {
        None => match step {
            AstStep::Done(r) => r@ == (
                Seq::<u8>::empty(),
                seq![unknown_application(inputs.spec_path_for_file(file_id).unwrap())],
            ),
            AstStep::Parse(_) => false,
        },
        Some(app) => match inputs.spec_module_ast(file_id) {
            Some(kept) => match step {
                AstStep::Done(r) => r@ == kept@,
                AstStep::Parse(_) => false,
            },
            None => match step {
                AstStep::Done(_) => false,
                AstStep::Parse(request) => is_request_for(
                    request,
                    inputs,
                    file_id,
                    inputs.spec_path_for_file(file_id).unwrap(),
                    app.macros@,
                    app.parse_transforms@,
                    line_index(text_or_empty(inputs, file_id)),
                ),
            },
        },
    }
}

/// What is to be done for the syntax tree of a file.
pub fn module_ast(db: &Store, file_id: FileId) -> (step: AstStep)
    requires
        has_path(db.inputs(), file_id),
    ensures
        is_step_for(step, db.inputs(), file_id),
{
    let inputs = db.get_inputs();
    let path = match inputs.path_for_file(file_id) {
        Some(p) => p,
        None => {
            proof {
                assert(false);
            }
            return AstStep::Done(ParseResult { ast: Vec::new(), errors: Vec::new() });
        },
    };
    let app = match inputs.file_app_data(file_id) {
        None => {
            let r = ParseResult::error(
                ParseError {
                    path: path.clone(),
                    location: None,
                    msg: String::from_str("Unknown application"),
                    code: String::from_str("L0003"),
                },
            );
            proof {
                assert(r@.1 =~= seq![unknown_application(path@)]);
            }
            return AstStep::Done(r);
        },
        Some(app) => app,
    };
    match inputs.module_ast(file_id) {
        Some(kept) => AstStep::Done(kept.clone()),
        None => {
            let metadata = elp_metadata(db, file_id);
            AstStep::Parse(
                parse_request(db, file_id, path.as_str(), &app.macros, &app.parse_transforms, metadata),
            )
        },
    }
}

/// Position of the last slash of a path.
pub open spec fn last_slash(path: Seq<char>, n: nat) -> Option<int>
    decreases n,
{
    if n == 0 || n > path.len() {
        None
    } else if path[n - 1] == '/' {
        Some(n - 1)
    } else {
        last_slash(path, (n - 1) as nat)
    }
}

/// The directory of a path: what stands before its last slash; nothing
/// where it has none.
pub open spec fn dir_of(path: Seq<char>) -> Seq<char> {
    match last_slash(path, path.len()) {
        Some(i) => path.take(i),
        None => Seq::empty(),
    }
}

/// A directory, a slash and a path.
pub open spec fn below(dir: Seq<char>, path: Seq<char>) -> Seq<char> {
    dir + "/"@ + path
}

pub fn directory_of(path: &str) -> (dir: String)
    ensures
        dir@ == dir_of(path@),
{
    let len = path.unicode_len();
    let mut n: usize = len;
    while n > 0
        invariant
            n <= len,
            len == path@.len(),
            last_slash(path@, len as nat) == last_slash(path@, n as nat),
        decreases n,
    {
        if path.get_char(n - 1) == '/' {
            return String::from_str(path.substring_char(0, n - 1));
        }
        n = n - 1;
    }
    proof {
        assert(path@.take(0) =~= Seq::<char>::empty());
    }
    String::new()
}

pub fn path_below(dir: &str, path: &str) -> (r: String)
    ensures
        r@ == below(dir@, path@),
{
    let mut r = String::from_str(dir);
    r.append("/");
    r.append(path);
    r
}

/// The file at a path among the first `n` source roots: the first root that
/// has a file with the path decides.
pub open spec fn file_at(inputs: Inputs, path: Seq<char>, n: nat) -> Option<FileId>
    decreases n,
{
    if n == 0 || n > inputs.roots@.len() {
        None
    } else {
        match file_at(inputs, path, (n - 1) as nat) {
            Some(f) => Some(f),
            None => inputs.roots@[n - 1].spec_file_for_path(path),
        }
    }
}

pub fn find_file(inputs: &Inputs, path: &str) -> (file_id: Option<FileId>)
    ensures
        file_id == file_at(*inputs, path@, inputs.roots@.len()),
{
    let mut i: usize = 0;
    while i < inputs.roots.len()
        invariant
            i <= inputs.roots.len(),
            file_at(*inputs, path@, i as nat).is_none(),
        decreases inputs.roots.len() - i,
    {
        match inputs.roots[i].file_for_path(path) {
            Some(f) => {
                proof {
                    lemma_file_at_stays(*inputs, path@, (i + 1) as nat, inputs.roots@.len());
                }
                return Some(f);
            },
            None => {},
        }
        i = i + 1;
    }
    None
}

/// A file found among the first roots is the file found among all.
pub proof fn lemma_file_at_stays(inputs: Inputs, path: Seq<char>, i: nat, n: nat)
    requires
        file_at(inputs, path, i).is_some(),
        i <= n <= inputs.roots@.len(),
    ensures
        file_at(inputs, path, n) == file_at(inputs, path, i),
    decreases n,
{
    if i < n {
        lemma_file_at_stays(inputs, path, i, (n - 1) as nat);
    }
}

/// The first of the include directories, among the first `n`, below which
/// the path is a file.
pub open spec fn in_include_path(inputs: Inputs, dirs: Seq<String>, path: Seq<char>, n: nat) -> Option<
    (Seq<char>, FileId),
>
    decreases n,
{
    if n == 0 || n > dirs.len() {
        None
    } else {
        match in_include_path(inputs, dirs, path, (n - 1) as nat) {
            Some(found) => Some(found),
            None => {
                let candidate = below(dirs[n - 1]@, path);
                match file_at(inputs, candidate, inputs.roots@.len()) {
                    Some(f) => Some((candidate, f)),
                    None => None,
                }
            },
        }
    }
}

pub proof fn lemma_include_path_stays(
    inputs: Inputs,
    dirs: Seq<String>,
    path: Seq<char>,
    i: nat,
    n: nat,
)
    requires
        in_include_path(inputs, dirs, path, i).is_some(),
        i <= n <= dirs.len(),
    ensures
        in_include_path(inputs, dirs, path, n) == in_include_path(inputs, dirs, path, i),
    decreases n,
{
    if i < n {
        lemma_include_path_stays(inputs, dirs, path, i, (n - 1) as nat);
    }
}

/// The file that an include names. A plain include is looked for beside the
/// file that asks, then below each include directory of its application. A
/// library include names an application first, and is looked for beside the
/// directory of the application of the file that asks. A documentation
/// include is looked for in the `doc` directory of that application.
pub open spec fn spec_included_file(
    inputs: Inputs,
    file_id: FileId,
    include_type: IncludeType,
    path: Seq<char>,
) -> Option<FileId> {
    match include_type {
        IncludeType::Normal => match inputs.spec_path_for_file(file_id) {
            None => None,
            Some(own) => match file_at(inputs, below(dir_of(own), path), inputs.roots@.len()) {
                Some(f) => Some(f),
                None => match inputs.spec_file_app_data(file_id) {
                    None => None,
                    Some(app) => match in_include_path(
                        inputs,
                        app.include_path@,
                        path,
                        app.include_path@.len(),
                    ) {
                        Some(found) => Some(found.1),
                        None => None,
                    },
                },
            },
        },
        IncludeType::Lib => match inputs.spec_file_app_data(file_id) {
            None => None,
            Some(app) => file_at(inputs, below(dir_of(app.dir@), path), inputs.roots@.len()),
        },
        IncludeType::Doc => match inputs.spec_file_app_data(file_id) {
            None => None,
            Some(app) => file_at(inputs, below(below(app.dir@, "doc"@), path), inputs.roots@.len()),
        },
    }
}

/// The file that an include names, with the path that the file has in its
/// source root; nothing where no file is found or the file has no path.
pub open spec fn spec_resolve_include(
    inputs: Inputs,
    file_id: FileId,
    include_type: IncludeType,
    path: Seq<char>,
) -> Option<(Seq<char>, FileId)> {
    match spec_included_file(inputs, file_id, include_type, path) {
        None => None,
        Some(f) => match inputs.spec_path_for_file(f) {
            None => None,
            Some(p) => Some((p, f)),
        },
    }
}

fn look_in_include_path(inputs: &Inputs, app: &AppData, path: &str) -> (found: Option<(String, FileId)>)
    ensures
        match found {
            Some((p, f)) => in_include_path(
                *inputs,
                app.include_path@,
                path@,
                app.include_path@.len(),
            ) == Some((p@, f)),
            None => in_include_path(*inputs, app.include_path@, path@, app.include_path@.len()).is_none(),
        },
{
    let mut i: usize = 0;
    while i < app.include_path.len()
        invariant
            i <= app.include_path.len(),
            in_include_path(*inputs, app.include_path@, path@, i as nat).is_none(),
        decreases app.include_path.len() - i,
    {
        let candidate = path_below(app.include_path[i].as_str(), path);
        match find_file(inputs, candidate.as_str()) {
            Some(f) => {
                proof {
                    lemma_include_path_stays(
                        *inputs,
                        app.include_path@,
                        path@,
                        (i + 1) as nat,
                        app.include_path@.len(),
                    );
                }
                return Some((candidate, f));
            },
            None => {},
        }
        i = i + 1;
    }
    None
}

/// The file that an include names, for the file that asks: the path that
/// the file has in its source root, its identifier and its text.
pub fn resolve_include(db: &Store, file_id: FileId, include_type: IncludeType, path: &str) -> (r: Option<
    (String, FileId, String),
>)
    ensures
        match r {
            Some((p, f, text)) => spec_resolve_include(db.inputs(), file_id, include_type, path@)
                == Some((p@, f)) && db.inputs().spec_path_for_file(f) == Some(p@) && text@
                == text_or_empty(db.inputs(), f),
            None => spec_resolve_include(db.inputs(), file_id, include_type, path@).is_none(),
        },
{
    let inputs = db.get_inputs();
    let found: Option<FileId> = match include_type {
        IncludeType::Normal => match inputs.path_for_file(file_id) {
            None => None,
            Some(own) => {
                let beside = path_below(directory_of(own.as_str()).as_str(), path);
                match find_file(inputs, beside.as_str()) {
                    Some(f) => Some(f),
                    None => match inputs.file_app_data(file_id) {
                        None => None,
                        Some(app) => match look_in_include_path(inputs, app, path) {
                            Some((_, f)) => Some(f),
                            None => None,
                        },
                    },
                }
            },
        },
        IncludeType::Lib => match inputs.file_app_data(file_id) {
            None => None,
            Some(app) => {
                let candidate = path_below(directory_of(app.dir.as_str()).as_str(), path);
                find_file(inputs, candidate.as_str())
            },
        },
        IncludeType::Doc => match inputs.file_app_data(file_id) {
            None => None,
            Some(app) => {
                let candidate = path_below(path_below(app.dir.as_str(), "doc").as_str(), path);
                find_file(inputs, candidate.as_str())
            },
        },
    };
    match found {
        None => None,
        Some(f) => match inputs.path_for_file(f) {
            None => None,
            Some(p) => {
                let text = match inputs.file_text(f) {
                    Some(t) => t.clone(),
                    None => String::new(),
                };
                Some((p.clone(), f, text))
            },
        },
    }
}

/// The questions about the syntax tree of a file.
pub trait ErlAstDatabase {
    /// The inputs that the answers are made of.
    spec fn ast_inputs(&self) -> Inputs;

    fn module_ast(&self, file_id: FileId) -> (step: AstStep)
        requires
            has_path(self.ast_inputs(), file_id),
        ensures
            is_step_for(step, self.ast_inputs(), file_id),
    ;

    fn elp_metadata(&self, file_id: FileId) -> (metadata: Metadata)
        ensures
            metadata.line_starts@ == line_index(text_or_empty(self.ast_inputs(), file_id)),
    ;
}

impl ErlAstDatabase for Store {
    open spec fn ast_inputs(&self) -> Inputs {
        self.inputs()
    }

    fn module_ast(&self, file_id: FileId) -> (step: AstStep) {
        module_ast(self, file_id)
    }

    fn elp_metadata(&self, file_id: FileId) -> (metadata: Metadata) {
        elp_metadata(self, file_id)
    }
}

} // verus!
