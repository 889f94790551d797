//! The store: the committed inputs, a clock, and what has been computed
//! from the inputs so far, each result with the time at which it was made.

use crate::error::Error;
use crate::error::ErrorV;
use crate::form::AST;
use crate::ids::FileId;
use crate::ids::ProjectId;
use crate::input::same_text;
use crate::input::AppData;
use crate::input::AppEntry;
use crate::input::Inputs;
use crate::input::ModuleEntry;
use crate::input::ParseResult;
use crate::input::ParsedFile;
use crate::input::BeamFile;
use crate::input::RootFile;
use crate::input::SourceRoot;
use crate::pipeline::spec_erl_ast_bytes;
use crate::pipeline::spec_from_beam_path;
use crate::pipeline::project_converted;
use crate::pipeline::spec_contractive;
use crate::pipeline::spec_converted_stub;
use crate::pipeline::spec_expand;
use crate::pipeline::spec_transitive;
use crate::seqs::find_where;
use crate::seqs::first_where;
use crate::seqs::lemma_first_where;
use crate::seqs::lemma_first_where_at;
use crate::seqs::lemma_first_where_none;
use crate::seqs::lemma_first_where_push;
use crate::seqs::lemma_first_where_same;
use crate::stub::ModuleStub;
use crate::stub::VStub;
use std::collections::HashMap;
use std::sync::Arc;
use vstd::prelude::*;
use vstd::string::StringExecFns;

verus! {

broadcast use vstd::std_specs::hash::group_hash_axioms;

/// Another handle on a shared value.
///
/// Wraps `Arc::clone`, which makes a pointer to the same allocation: what
/// the new handle points to is what the old one points to.
#[verifier::external_body]
pub(crate) fn share<T>(a: &Arc<T>) -> (b: Arc<T>)
    ensures
        b == *a,
{
    Arc::clone(a)
}

/// A result as pure data.
pub open spec fn result_view<T: View>(r: Result<Arc<T>, Error>) -> Result<T::V, ErrorV> {
    match r {
        Ok(v) => Ok(v@),
        Err(e) => Err(e@),
    }
}

/// A copy of a result; a value is shared, not copied.
pub fn clone_result<T: View>(r: &Result<Arc<T>, Error>) -> (c: Result<Arc<T>, Error>)
    ensures
        result_view(c) == result_view(*r),
{
    match r {
        Ok(v) => Ok(share(v)),
        Err(e) => Err(e.clone()),
    }
}

/// A result that the store keeps, with the time at which it was computed.
pub struct Cached<T> {
    pub project_id: ProjectId,
    pub module: String,
    pub stamp: u64,
    pub value: Result<Arc<T>, Error>,
}

/// The time at which something that a project's stubs stand on last changed.
pub open spec fn project_rev(revs: Map<u32, u64>, project_id: ProjectId) -> u64 {
    if revs.contains_key(project_id.0) {
        revs[project_id.0]
    } else {
        0
    }
}

/// A result is fresh if nothing it stands on has changed since it was computed.
pub open spec fn stamp_fresh(
    structure_rev: u64,
    revs: Map<u32, u64>,
    project_id: ProjectId,
    stamp: u64,
) -> bool {
    stamp >= structure_rev && stamp >= project_rev(revs, project_id)
}

/// Whether a result is a fresh one for the given module.
pub open spec fn is_entry_for<T>(
    structure_rev: u64,
    revs: Map<u32, u64>,
    project_id: ProjectId,
    module: Seq<char>,
) -> spec_fn(Cached<T>) -> bool {
    |c: Cached<T>|
        c.project_id == project_id && c.module@ == module && stamp_fresh(
            structure_rev,
            revs,
            project_id,
            c.stamp,
        )
}

/// The fresh result kept for a module, if there is one.
pub open spec fn table_get<T>(
    table: Seq<Cached<T>>,
    structure_rev: u64,
    revs: Map<u32, u64>,
    project_id: ProjectId,
    module: Seq<char>,
) -> Option<Cached<T>> {
    find_where(table, is_entry_for(structure_rev, revs, project_id, module))
}

/// Every fresh result is what `f` says it should be.
pub open spec fn table_sound<T: View>(
    table: Seq<Cached<T>>,
    structure_rev: u64,
    revs: Map<u32, u64>,
    f: spec_fn(ProjectId, Seq<char>) -> Result<T::V, ErrorV>,
) -> bool {
    forall|i: int|
        0 <= i < table.len() && stamp_fresh(
            structure_rev,
            revs,
            (#[trigger] table[i]).project_id,
            table[i].stamp,
        ) ==> result_view(table[i].value) == f(table[i].project_id, table[i].module@)
}

/// No result is from later than `clock`.
pub open spec fn table_bounded<T>(table: Seq<Cached<T>>, clock: u64) -> bool {
    forall|i: int| 0 <= i < table.len() ==> (#[trigger] table[i]).stamp <= clock
}

/// Every result is from before `clock`.
pub open spec fn table_older<T>(table: Seq<Cached<T>>, clock: u64) -> bool {
    forall|i: int| 0 <= i < table.len() ==> (#[trigger] table[i]).stamp < clock
}

fn table_lookup<T>(
    table: &Vec<Cached<T>>,
    structure_rev: u64,
    revs: &HashMap<u32, u64>,
    project_id: ProjectId,
    module: &str,
) -> (at: Option<usize>)
    ensures
        match at {
            Some(i) => i < table@.len() && table_get(
                table@,
                structure_rev,
                revs@,
                project_id,
                module@,
            ) == Some(table@[i as int]) && stamp_fresh(
                structure_rev,
                revs@,
                table@[i as int].project_id,
                table@[i as int].stamp,
            ) && table@[i as int].project_id == project_id && table@[i as int].module@ == module@,
            None => table_get(table@, structure_rev, revs@, project_id, module@).is_none(),
        },
{
    let ghost p = is_entry_for::<T>(structure_rev, revs@, project_id, module@);
    let rev: u64 = match revs.get(&project_id.0) {
        Some(r) => *r,
        None => 0,
    };
    let mut i: usize = 0;
    while i < table.len()
        invariant
            i <= table.len(),
            rev == project_rev(revs@, project_id),
            forall|j: int| 0 <= j < i ==> !p(#[trigger] table@[j]),
            p == is_entry_for::<T>(structure_rev, revs@, project_id, module@),
        decreases table.len() - i,
    {
        if table[i].project_id == project_id && table[i].stamp >= structure_rev && table[i].stamp
            >= rev && same_text(table[i].module.as_str(), module) {
            proof {
                lemma_first_where_at(table@, p, i as int);
            }
            return Some(i);
        }
        i = i + 1;
    }
    proof {
        lemma_first_where_none(table@, p);
    }
    None
}

/// A result added at the end hides no result that was found before, and is
/// found where none was.
pub proof fn lemma_table_push<T>(
    table: Seq<Cached<T>>,
    entry: Cached<T>,
    structure_rev: u64,
    revs: Map<u32, u64>,
    project_id: ProjectId,
    module: Seq<char>,
)
    ensures
        table_get(table, structure_rev, revs, project_id, module).is_some() ==> table_get(
            table.push(entry),
            structure_rev,
            revs,
            project_id,
            module,
        ) == table_get(table, structure_rev, revs, project_id, module),
        entry.project_id == project_id && entry.module@ == module && stamp_fresh(
            structure_rev,
            revs,
            project_id,
            entry.stamp,
        ) ==> table_get(table.push(entry), structure_rev, revs, project_id, module).is_some(),
{
    let p = is_entry_for::<T>(structure_rev, revs, project_id, module);
    lemma_first_where_push(table, p, entry);
    lemma_first_where(table, p);
    match first_where(table, p) {
        Some(i) => {
            assert(table.push(entry)[i] == table[i]);
        },
        None => {},
    }
}

/// The stub of a module at one stage, or the error that the stage ended
/// with.
pub enum Kept {
    Converted(Result<Arc<AST>, Error>),
    Expanded(Result<Arc<ModuleStub>, Error>),
    Contractive(Result<Arc<VStub>, Error>),
    Transitive(Result<Arc<ModuleStub>, Error>),
}

/// The stage that a kept stub belongs to.
pub open spec fn kept_stage(v: Kept) -> Stage {
    match v {
        Kept::Converted(_) => Stage::Converted,
        Kept::Expanded(_) => Stage::Expanded,
        Kept::Contractive(_) => Stage::Contractive,
        Kept::Transitive(_) => Stage::Transitive,
    }
}

/// Whether a kept stub is what its stage makes of the inputs.
pub open spec fn kept_right(inputs: Inputs, project_id: ProjectId, module: Seq<char>, v: Kept) -> bool {
    match v {
        Kept::Converted(r) => result_view(r) == spec_converted_stub(inputs, project_id, module),
        Kept::Expanded(r) => result_view(r) == spec_expanded_stub(inputs, project_id, module),
        Kept::Contractive(r) => result_view(r) == spec_contractive_stub(inputs, project_id, module),
        Kept::Transitive(r) => result_view(r) == spec_transitive_stub(inputs, project_id, module),
    }
}

/// Whether a kept stub belongs to the stage.
pub fn kept_is(v: &Kept, stage: Stage) -> (is: bool)
    ensures
        is == (kept_stage(*v) == stage),
{
    match (v, stage) {
        (Kept::Converted(_), Stage::Converted) => true,
        (Kept::Expanded(_), Stage::Expanded) => true,
        (Kept::Contractive(_), Stage::Contractive) => true,
        (Kept::Transitive(_), Stage::Transitive) => true,
        _ => false,
    }
}

/// A stub kept with the files that it depends on: the files of the modules
/// that the stub stands on.
pub struct Pinned {
    pub project_id: ProjectId,
    pub module: String,
    pub stamp: u64,
    pub deps: Vec<FileId>,
    pub value: Kept,
}

/// The time at which the parse result of a file last changed.
pub open spec fn ast_rev(revs: Map<u32, u64>, file_id: FileId) -> u64 {
    if revs.contains_key(file_id.0) {
        revs[file_id.0]
    } else {
        0
    }
}

/// A kept stub is fresh while neither the structure nor the parse result of
/// a file it depends on has changed since it was computed.
pub open spec fn pin_fresh(structure_rev: u64, revs: Map<u32, u64>, e: Pinned) -> bool {
    &&& e.stamp >= structure_rev
    &&& forall|i: int| 0 <= i < e.deps@.len() ==> ast_rev(revs, #[trigger] e.deps@[i]) <= e.stamp
}

/// Two sets of inputs with the same structure and the same parse results
/// for the given files.
pub open spec fn framed(a: Inputs, b: Inputs, deps: Seq<FileId>) -> bool {
    &&& b.file_roots@ == a.file_roots@
    &&& b.apps@ == a.apps@
    &&& b.file_apps@ == a.file_apps@
    &&& b.modules@ == a.modules@
    &&& b.beams@ == a.beams@
    &&& forall|i: int|
        0 <= i < deps.len() ==> b.spec_module_ast(#[trigger] deps[i]) == a.spec_module_ast(deps[i])
}

/// Each of the files is the file of a module.
pub open spec fn module_files(inputs: Inputs, deps: Seq<FileId>) -> bool {
    forall|i: int|
        0 <= i < deps.len() ==> exists|j: int|
            0 <= j < inputs.modules@.len() && (#[trigger] inputs.modules@[j]).file_id
                == #[trigger] deps[i]
}

/// A kept stub is what the pipeline makes of every set of inputs that has
/// the structure of the present one and its parse results for the files
/// that the stub depends on.
pub open spec fn pin_sound(inputs: Inputs, e: Pinned) -> bool {
    &&& module_files(inputs, e.deps@)
    &&& forall|b: Inputs| #[trigger]
        framed(inputs, b, e.deps@) ==> kept_right(b, e.project_id, e.module@, e.value)
}

pub open spec fn pins_sound(
    table: Seq<Pinned>,
    structure_rev: u64,
    revs: Map<u32, u64>,
    inputs: Inputs,
) -> bool {
    forall|i: int|
        0 <= i < table.len() && pin_fresh(structure_rev, revs, #[trigger] table[i]) ==> pin_sound(
            inputs,
            table[i],
        )
}

/// None of the files bears on a file that the stub depends on.
pub open spec fn clear_of(inputs: Inputs, deps: Seq<FileId>, files: Seq<FileId>) -> bool {
    forall|i: int, k: int|
        0 <= i < deps.len() && 0 <= k < files.len() ==> !bears_on(
            inputs,
            #[trigger] deps[i],
            #[trigger] files[k],
        )
}

/// Whether a kept stub is a fresh one of the stage for the module, on
/// whose files none of `files` bears.
pub open spec fn is_pin_for(
    structure_rev: u64,
    revs: Map<u32, u64>,
    inputs: Inputs,
    stage: Stage,
    project_id: ProjectId,
    module: Seq<char>,
    files: Seq<FileId>,
) -> spec_fn(Pinned) -> bool {
    |e: Pinned|
        kept_stage(e.value) == stage && e.project_id == project_id && e.module@ == module
            && pin_fresh(structure_rev, revs, e) && clear_of(inputs, e.deps@, files)
}

/// The times of the parse results after the files of the modules among the
/// first `n` that `hit` holds of have been set to `clock`.
pub open spec fn bumped_files(
    revs: Map<u32, u64>,
    modules: Seq<ModuleEntry>,
    hit: spec_fn(ModuleEntry) -> bool,
    clock: u64,
    n: nat,
) -> Map<u32, u64>
    decreases n,
{
    if n == 0 || n > modules.len() {
        revs
    } else {
        let before = bumped_files(revs, modules, hit, clock, (n - 1) as nat);
        if hit(modules[n - 1]) {
            before.insert(modules[n - 1].file_id.0, clock)
        } else {
            before
        }
    }
}

/// What `bumped_files` does to each file.
pub proof fn lemma_bumped_files(
    revs: Map<u32, u64>,
    modules: Seq<ModuleEntry>,
    hit: spec_fn(ModuleEntry) -> bool,
    clock: u64,
    n: nat,
    k: u32,
)
    requires
        n <= modules.len(),
    ensures
        revs.contains_key(k) ==> bumped_files(revs, modules, hit, clock, n).contains_key(k),
        bumped_files(revs, modules, hit, clock, n).contains_key(k) ==> revs.contains_key(k)
            || bumped_files(revs, modules, hit, clock, n)[k] == clock,
        (forall|i: int| 0 <= i < n && (#[trigger] modules[i]).file_id.0 == k ==> !hit(modules[i]))
            ==> (bumped_files(revs, modules, hit, clock, n).contains_key(k) <==> revs.contains_key(
            k,
        )) && (revs.contains_key(k) ==> bumped_files(revs, modules, hit, clock, n)[k] == revs[k]),
        revs.contains_key(k) && bumped_files(revs, modules, hit, clock, n)[k] != clock
            ==> bumped_files(revs, modules, hit, clock, n)[k] == revs[k],
    decreases n,
{
    if n > 0 {
        lemma_bumped_files(revs, modules, hit, clock, (n - 1) as nat, k);
    }
}

/// What the store holds of kept stubs: no time in them is later than the
/// clock, and every fresh one is sound.
#[verifier::opaque]
pub open spec fn pins_ok(
    table: Seq<Pinned>,
    structure_rev: u64,
    revs: Map<u32, u64>,
    inputs: Inputs,
    clock: u64,
) -> bool {
    &&& forall|k: u32| #[trigger] revs.contains_key(k) ==> revs[k] <= clock
    &&& forall|i: int| 0 <= i < table.len() ==> (#[trigger] table[i]).stamp <= clock
    &&& pins_sound(table, structure_rev, revs, inputs)
}

/// Every kept stub is from before `clock`.
#[verifier::opaque]
pub open spec fn pins_older(table: Seq<Pinned>, clock: u64) -> bool {
    forall|i: int| 0 <= i < table.len() ==> (#[trigger] table[i]).stamp < clock
}

/// No module that `hit` holds of lies in one of the files.
pub open spec fn unhit(modules: Seq<ModuleEntry>, hit: spec_fn(ModuleEntry) -> bool, deps: Seq<FileId>) -> bool {
    forall|i: int, j: int|
        0 <= i < deps.len() && 0 <= j < modules.len() && (#[trigger] modules[j]).file_id
            == #[trigger] deps[i] ==> !hit(modules[j])
}

pub proof fn lemma_pins_empty(structure_rev: u64, inputs: Inputs)
    ensures
        pins_ok(Seq::<Pinned>::empty(), structure_rev, Map::<u32, u64>::empty(), inputs, 0),
{
    reveal(pins_ok);
}

/// With the clock advanced, what was in order is in order and older.
pub proof fn lemma_pins_tick(
    table: Seq<Pinned>,
    structure_rev: u64,
    revs: Map<u32, u64>,
    inputs: Inputs,
    clock: u64,
    later: u64,
)
    requires
        pins_ok(table, structure_rev, revs, inputs, clock),
        clock < later,
    ensures
        pins_ok(table, structure_rev, revs, inputs, later),
        pins_older(table, later),
{
    reveal(pins_ok);
    reveal(pins_older);
}

/// After a change of structure no kept stub is fresh.
pub proof fn lemma_pins_stale(table: Seq<Pinned>, revs: Map<u32, u64>, old_rev: u64, a: Inputs, b: Inputs, clock: u64)
    requires
        pins_ok(table, old_rev, revs, a, clock),
        pins_older(table, clock),
    ensures
        pins_ok(table, clock, revs, b, clock),
        forall|stage: Stage, p: ProjectId, m: Seq<char>, files: Seq<FileId>|
            first_where(table, #[trigger] is_pin_for(clock, revs, b, stage, p, m, files)).is_none(),
{
    reveal(pins_ok);
    reveal(pins_older);
    assert forall|stage: Stage, p: ProjectId, m: Seq<char>, files: Seq<FileId>|
        first_where(table, #[trigger] is_pin_for(clock, revs, b, stage, p, m, files)).is_none() by {
        lemma_first_where_none(table, is_pin_for(clock, revs, b, stage, p, m, files));
    }
}

/// A sound stub added to what is in order leaves it in order, and is found.
pub proof fn lemma_pins_push(
    table: Seq<Pinned>,
    e: Pinned,
    structure_rev: u64,
    revs: Map<u32, u64>,
    inputs: Inputs,
    clock: u64,
)
    requires
        pins_ok(table, structure_rev, revs, inputs, clock),
        pin_sound(inputs, e),
        e.stamp == clock,
        structure_rev <= clock,
    ensures
        pins_ok(table.push(e), structure_rev, revs, inputs, clock),
        first_where(
            table.push(e),
            is_pin_for(structure_rev, revs, inputs, kept_stage(e.value), e.project_id, e.module@, Seq::empty()),
        ).is_some(),
        forall|stage: Stage, p: ProjectId, m: Seq<char>, files: Seq<FileId>|
            first_where(table, #[trigger] is_pin_for(structure_rev, revs, inputs, stage, p, m, files)).is_some()
                ==> first_where(
                table.push(e),
                is_pin_for(structure_rev, revs, inputs, stage, p, m, files),
            ).is_some(),
        forall|files: Seq<FileId>|
            clear_of(inputs, e.deps@, files) ==> first_where(
                table.push(e),
                #[trigger] is_pin_for(structure_rev, revs, inputs, kept_stage(e.value), e.project_id, e.module@, files),
            ).is_some(),
{
    reveal(pins_ok);
    let more = table.push(e);
    assert forall|i: int|
        0 <= i < more.len() && pin_fresh(structure_rev, revs, #[trigger] more[i]) implies pin_sound(
        inputs,
        more[i],
    ) by {
        if i < table.len() {
            assert(more[i] == table[i]);
        }
    }
    assert forall|i: int| 0 <= i < more.len() implies (#[trigger] more[i]).stamp <= clock by {
        if i < table.len() {
            assert(more[i] == table[i]);
        }
    }
    let own = is_pin_for(structure_rev, revs, inputs, kept_stage(e.value), e.project_id, e.module@, Seq::empty());
    lemma_first_where_push(table, own, e);
    assert(pin_fresh(structure_rev, revs, e));
    assert(own(e));
    assert forall|files: Seq<FileId>| clear_of(inputs, e.deps@, files) implies first_where(
        table.push(e),
        #[trigger] is_pin_for(structure_rev, revs, inputs, kept_stage(e.value), e.project_id, e.module@, files),
    ).is_some() by {
        let q = is_pin_for(structure_rev, revs, inputs, kept_stage(e.value), e.project_id, e.module@, files);
        lemma_first_where_push(table, q, e);
        assert(q(e));
    }
    assert forall|stage: Stage, p: ProjectId, m: Seq<char>, files: Seq<FileId>|
        first_where(table, #[trigger] is_pin_for(structure_rev, revs, inputs, stage, p, m, files)).is_some()
            implies first_where(
        table.push(e),
        is_pin_for(structure_rev, revs, inputs, stage, p, m, files),
    ).is_some() by {
        lemma_first_where_push(table, is_pin_for(structure_rev, revs, inputs, stage, p, m, files), e);
    }
}

/// A time below `clock` after the bump is the time before the bump.
pub proof fn lemma_dep_rev_same(
    revs: Map<u32, u64>,
    modules: Seq<ModuleEntry>,
    hit: spec_fn(ModuleEntry) -> bool,
    clock: u64,
    g: FileId,
)
    requires
        ast_rev(bumped_files(revs, modules, hit, clock, modules.len()), g) < clock,
    ensures
        ast_rev(revs, g) == ast_rev(bumped_files(revs, modules, hit, clock, modules.len()), g),
        forall|j: int| 0 <= j < modules.len() && (#[trigger] modules[j]).file_id == g ==> !hit(modules[j]),
{
    lemma_bumped_files(revs, modules, hit, clock, modules.len(), g.0);
    assert forall|j: int| 0 <= j < modules.len() && (#[trigger] modules[j]).file_id == g implies !hit(
        modules[j],
    ) by {
        if hit(modules[j]) {
            lemma_bumped_hit(revs, modules, hit, clock, modules.len(), j);
        }
    }
}

/// The time of a file in which no hit module lies is what it was.
pub proof fn lemma_dep_unhit(
    revs: Map<u32, u64>,
    modules: Seq<ModuleEntry>,
    hit: spec_fn(ModuleEntry) -> bool,
    clock: u64,
    g: FileId,
)
    requires
        forall|j: int| 0 <= j < modules.len() && (#[trigger] modules[j]).file_id == g ==> !hit(modules[j]),
    ensures
        ast_rev(bumped_files(revs, modules, hit, clock, modules.len()), g) == ast_rev(revs, g),
{
    lemma_bumped_files(revs, modules, hit, clock, modules.len(), g.0);
}

/// A kept stub that is fresh after the bump was fresh before it, and is
/// sound on the new inputs.
pub proof fn lemma_pin_after_bump(
    e: Pinned,
    structure_rev: u64,
    revs: Map<u32, u64>,
    a: Inputs,
    b: Inputs,
    hit: spec_fn(ModuleEntry) -> bool,
    clock: u64,
)
    requires
        e.stamp < clock,
        pin_fresh(structure_rev, bumped_files(revs, a.modules@, hit, clock, a.modules@.len()), e),
        pin_fresh(structure_rev, revs, e) ==> pin_sound(a, e),
        b.file_roots@ == a.file_roots@,
        b.apps@ == a.apps@,
        b.file_apps@ == a.file_apps@,
        b.modules@ == a.modules@,
        b.beams@ == a.beams@,
        forall|j: int|
            0 <= j < a.modules@.len() && !hit(#[trigger] a.modules@[j]) ==> b.spec_module_ast(
                a.modules@[j].file_id,
            ) == a.spec_module_ast(a.modules@[j].file_id),
    ensures
        pin_sound(b, e),
{
    let revs2 = bumped_files(revs, a.modules@, hit, clock, a.modules@.len());
    assert forall|d: int| 0 <= d < e.deps@.len() implies ast_rev(revs, #[trigger] e.deps@[d])
        <= e.stamp by {
        lemma_dep_rev_same(revs, a.modules@, hit, clock, e.deps@[d]);
    }
    assert(pin_fresh(structure_rev, revs, e));
    assert forall|d: int| 0 <= d < e.deps@.len() implies b.spec_module_ast(#[trigger] e.deps@[d])
        == a.spec_module_ast(e.deps@[d]) by {
        let g = e.deps@[d];
        lemma_dep_rev_same(revs, a.modules@, hit, clock, g);
        let j = choose|j: int| 0 <= j < a.modules@.len() && (#[trigger] a.modules@[j]).file_id == g;
        assert(!hit(a.modules@[j]));
    }
    assert(framed(a, b, e.deps@));
    assert forall|c: Inputs| #[trigger] framed(b, c, e.deps@) implies kept_right(
        c,
        e.project_id,
        e.module@,
        e.value,
    ) by {
        assert(framed(a, c, e.deps@));
    }
}

/// What holds of the kept stubs after the parse results of the hit modules
/// have changed: what was in order is in order.
pub proof fn lemma_pins_after_bump(
    table: Seq<Pinned>,
    structure_rev: u64,
    revs: Map<u32, u64>,
    revs2: Map<u32, u64>,
    a: Inputs,
    b: Inputs,
    hit: spec_fn(ModuleEntry) -> bool,
    clock: u64,
)
    requires
        pins_ok(table, structure_rev, revs, a, clock),
        pins_older(table, clock),
        revs2 == bumped_files(revs, a.modules@, hit, clock, a.modules@.len()),
        b.file_roots@ == a.file_roots@,
        b.apps@ == a.apps@,
        b.file_apps@ == a.file_apps@,
        b.modules@ == a.modules@,
        b.beams@ == a.beams@,
        forall|j: int|
            0 <= j < a.modules@.len() && !hit(#[trigger] a.modules@[j]) ==> b.spec_module_ast(
                a.modules@[j].file_id,
            ) == a.spec_module_ast(a.modules@[j].file_id),
    ensures
        pins_ok(table, structure_rev, revs2, b, clock),
{
    reveal(pins_ok);
    reveal(pins_older);
    assert forall|k: u32| #[trigger] revs2.contains_key(k) implies revs2[k] <= clock by {
        lemma_bumped_files(revs, a.modules@, hit, clock, a.modules@.len(), k);
    }
    assert forall|i: int|
        0 <= i < table.len() && pin_fresh(structure_rev, revs2, #[trigger] table[i]) implies pin_sound(
        b,
        table[i],
    ) by {
        lemma_pin_after_bump(table[i], structure_rev, revs, a, b, hit, clock);
    }
}

/// A fresh stub that depends on no hit module's file is fresh after the bump.
pub proof fn lemma_pins_fresh_after_bump(
    table: Seq<Pinned>,
    structure_rev: u64,
    revs: Map<u32, u64>,
    modules: Seq<ModuleEntry>,
    hit: spec_fn(ModuleEntry) -> bool,
    clock: u64,
)
    ensures
        forall|i: int|
            0 <= i < table.len() && pin_fresh(structure_rev, revs, #[trigger] table[i]) && unhit(
                modules,
                hit,
                table[i].deps@,
            ) ==> pin_fresh(
                structure_rev,
                bumped_files(revs, modules, hit, clock, modules.len()),
                table[i],
            ),
{
    assert forall|i: int|
        0 <= i < table.len() && pin_fresh(structure_rev, revs, #[trigger] table[i]) && unhit(
            modules,
            hit,
            table[i].deps@,
        ) implies pin_fresh(
        structure_rev,
        bumped_files(revs, modules, hit, clock, modules.len()),
        table[i],
    ) by {
        let e = table[i];
        assert forall|d: int| 0 <= d < e.deps@.len() implies ast_rev(
            bumped_files(revs, modules, hit, clock, modules.len()),
            #[trigger] e.deps@[d],
        ) <= e.stamp by {
            lemma_dep_unhit(revs, modules, hit, clock, e.deps@[d]);
        }
    }
}

/// The file of a hit module is at `clock`.
pub proof fn lemma_bumped_hit(
    revs: Map<u32, u64>,
    modules: Seq<ModuleEntry>,
    hit: spec_fn(ModuleEntry) -> bool,
    clock: u64,
    n: nat,
    j: int,
)
    requires
        0 <= j < n <= modules.len(),
        hit(modules[j]),
    ensures
        bumped_files(revs, modules, hit, clock, n).contains_key(modules[j].file_id.0),
        bumped_files(revs, modules, hit, clock, n)[modules[j].file_id.0] == clock,
    decreases n,
{
    if j < n - 1 {
        lemma_bumped_hit(revs, modules, hit, clock, (n - 1) as nat, j);
    }
}

/// The parse results of all files but one draw on the same files in both.
pub open spec fn reads_alike(a: Inputs, b: Inputs, but: FileId) -> bool {
    forall|g: FileId, f: FileId| g != but ==> #[trigger] bears_on(b, g, f) == bears_on(a, g, f)
}

/// A kept stub that is clear of a changed file stays kept when the modules
/// whose parse result draws on the file are hit.
pub proof fn lemma_clear_pin_survives(
    table: Seq<Pinned>,
    structure_rev: u64,
    revs: Map<u32, u64>,
    revs2: Map<u32, u64>,
    a: Inputs,
    b: Inputs,
    hit: spec_fn(ModuleEntry) -> bool,
    changed: FileId,
    stage: Stage,
    project_id: ProjectId,
    module: Seq<char>,
    files: Seq<FileId>,
)
    requires
        first_where(table, is_pin_for(structure_rev, revs, a, stage, project_id, module, files)).is_some(),
        files.contains(changed),
        forall|j: int|
            0 <= j < a.modules@.len() && hit(#[trigger] a.modules@[j]) ==> bears_on(
                a,
                a.modules@[j].file_id,
                changed,
            ),
        forall|i: int|
            0 <= i < table.len() && pin_fresh(structure_rev, revs, #[trigger] table[i]) && unhit(
                a.modules@,
                hit,
                table[i].deps@,
            ) ==> pin_fresh(structure_rev, revs2, table[i]),
    ensures
        first_where(table, is_pin_for(structure_rev, revs2, b, stage, project_id, module, Seq::empty())).is_some(),
        reads_alike(a, b, changed) ==> first_where(
            table,
            is_pin_for(structure_rev, revs2, b, stage, project_id, module, files),
        ).is_some(),
{
    let p = is_pin_for(structure_rev, revs, a, stage, project_id, module, files);
    lemma_first_where(table, p);
    let i = first_where(table, p).unwrap();
    let e = table[i];
    let k = choose|k: int| 0 <= k < files.len() && files[k] == changed;
    assert forall|d: int, j: int|
        0 <= d < e.deps@.len() && 0 <= j < a.modules@.len() && (#[trigger] a.modules@[j]).file_id
            == #[trigger] e.deps@[d] implies !hit(a.modules@[j]) by {
        assert(!bears_on(a, e.deps@[d], files[k]));
    }
    assert(pin_fresh(structure_rev, revs2, e));
    let q = is_pin_for(structure_rev, revs2, b, stage, project_id, module, Seq::empty());
    assert(q(e));
    lemma_first_where(table, q);
    if reads_alike(a, b, changed) {
        let r = is_pin_for(structure_rev, revs2, b, stage, project_id, module, files);
        assert forall|d: int, kk: int| 0 <= d < e.deps@.len() && 0 <= kk < files.len() implies !bears_on(
            b,
            #[trigger] e.deps@[d],
            #[trigger] files[kk],
        ) by {
            assert(!bears_on(a, e.deps@[d], files[kk]));
            assert(!bears_on(a, e.deps@[d], files[k]));
            assert(e.deps@[d] != changed);
            assert(bears_on(b, e.deps@[d], files[kk]) == bears_on(a, e.deps@[d], files[kk]));
        }
        assert(r(e));
        lemma_first_where(table, r);
    }
}

/// The stages of the pipeline.
#[derive(Clone, Copy, Debug, PartialEq, Eq, Structural)]
pub enum Stage {
    Converted,
    Expanded,
    Contractive,
    Transitive,
}

/// The store. The inputs change only through a committed change and through
/// what the parser and the disk supply; every result kept is either stale or
/// what the pipeline makes of the inputs as they are.
pub struct Store {
    inputs: Inputs,
    revision: u64,
    clock: u64,
    structure_rev: u64,
    project_revs: HashMap<u32, u64>,
    converted: Vec<Cached<AST>>,
    expanded: Vec<Cached<ModuleStub>>,
    contractive: Vec<Cached<VStub>>,
    transitive: Vec<Cached<ModuleStub>>,
    ast_revs: HashMap<u32, u64>,
    pinned: Vec<Pinned>,
    recomputations: u64,
    diagnostics_runs: u64,
}

/// Stage 2 as a function of the inputs.
pub open spec fn spec_expanded_stub(inputs: Inputs, project_id: ProjectId, module: Seq<char>) -> Result<
    crate::stub::ModuleStubV,
    ErrorV,
> {
    spec_expand(project_converted(inputs, project_id), module)
}

/// Stage 3 as a function of the inputs.
pub open spec fn spec_contractive_stub(inputs: Inputs, project_id: ProjectId, module: Seq<char>) -> Result<
    crate::stub::VStubV,
    ErrorV,
> {
    spec_contractive(project_converted(inputs, project_id), module)
}

/// Stage 4 as a function of the inputs.
pub open spec fn spec_transitive_stub(inputs: Inputs, project_id: ProjectId, module: Seq<char>) -> Result<
    crate::stub::ModuleStubV,
    ErrorV,
> {
    spec_transitive(project_converted(inputs, project_id), module)
}

/// Stage 1 of every module, on the given inputs.
pub open spec fn converted_on(inputs: Inputs) -> spec_fn(ProjectId, Seq<char>) -> Result<
    Seq<crate::form::ExternalFormV>,
    ErrorV,
> {
    |p: ProjectId, m: Seq<char>| spec_converted_stub(inputs, p, m)
}

/// Stage 2 of every module, on the given inputs.
pub open spec fn expanded_on(inputs: Inputs) -> spec_fn(ProjectId, Seq<char>) -> Result<
    crate::stub::ModuleStubV,
    ErrorV,
> {
    |p: ProjectId, m: Seq<char>| spec_expanded_stub(inputs, p, m)
}

/// Stage 3 of every module, on the given inputs.
pub open spec fn contractive_on(inputs: Inputs) -> spec_fn(ProjectId, Seq<char>) -> Result<
    crate::stub::VStubV,
    ErrorV,
> {
    |p: ProjectId, m: Seq<char>| spec_contractive_stub(inputs, p, m)
}

/// Stage 4 of every module, on the given inputs.
pub open spec fn transitive_on(inputs: Inputs) -> spec_fn(ProjectId, Seq<char>) -> Result<
    crate::stub::ModuleStubV,
    ErrorV,
> {
    |p: ProjectId, m: Seq<char>| spec_transitive_stub(inputs, p, m)
}

/// One more, unless the counter is at its end.
pub open spec fn counted(n: u64) -> u64 {
    if n < u64::MAX {
        (n + 1) as u64
    } else {
        n
    }
}

impl Store {
    /// The inputs as they stand.
    pub closed spec fn inputs(&self) -> Inputs {
        self.inputs
    }

    /// The number of changes committed so far.
    pub closed spec fn revision(&self) -> u64 {
        self.revision
    }

    /// The store's time: it advances with every change and every supply.
    pub closed spec fn clock(&self) -> u64 {
        self.clock
    }

    /// How often a stage has been computed.
    pub closed spec fn recomputations(&self) -> u64 {
        self.recomputations
    }

    /// How often diagnostics have been computed.
    pub closed spec fn diagnostics_runs(&self) -> u64 {
        self.diagnostics_runs
    }

    /// Whether the store keeps a fresh result of a stage for a module.
    pub closed spec fn cached(&self, stage: Stage, project_id: ProjectId, module: Seq<char>) -> bool {
        match stage {
            Stage::Converted => table_get(
                self.converted@,
                self.structure_rev,
                self.project_revs@,
                project_id,
                module,
            ).is_some(),
            Stage::Expanded => table_get(
                self.expanded@,
                self.structure_rev,
                self.project_revs@,
                project_id,
                module,
            ).is_some(),
            Stage::Contractive => table_get(
                self.contractive@,
                self.structure_rev,
                self.project_revs@,
                project_id,
                module,
            ).is_some(),
            Stage::Transitive => table_get(
                self.transitive@,
                self.structure_rev,
                self.project_revs@,
                project_id,
                module,
            ).is_some(),
        }
    }

    /// The time at which something that a project's stubs stand on last changed.
    pub closed spec fn project_changed_at(&self, project_id: ProjectId) -> u64 {
        let rev = project_rev(self.project_revs@, project_id);
        if rev >= self.structure_rev {
            rev
        } else {
            self.structure_rev
        }
    }

    /// The store's invariant: no time in it is later than the clock, and
    /// every fresh result is what the pipeline makes of the inputs.
    pub closed spec fn wf(&self) -> bool {
        &&& self.revision <= self.clock
        &&& self.structure_rev <= self.clock
        &&& self.inputs.layout_rev <= self.clock
        &&& forall|k: u32| #[trigger]
            self.project_revs@.contains_key(k) ==> self.project_revs@[k] <= self.clock
        &&& forall|k: u32| #[trigger]
            self.inputs.text_revs@.contains_key(k) ==> self.inputs.text_revs@[k] <= self.clock
        &&& forall|k: u32| #[trigger]
            self.inputs.parsed@.contains_key(k) ==> self.inputs.parsed@[k].stamp <= self.clock
        &&& pins_ok(self.pinned@, self.structure_rev, self.ast_revs@, self.inputs, self.clock)
        &&& table_bounded(self.converted@, self.clock)
        &&& table_bounded(self.expanded@, self.clock)
        &&& table_bounded(self.contractive@, self.clock)
        &&& table_bounded(self.transitive@, self.clock)
        &&& table_sound(
            self.converted@,
            self.structure_rev,
            self.project_revs@,
            converted_on(self.inputs),
        )
        &&& table_sound(
            self.expanded@,
            self.structure_rev,
            self.project_revs@,
            expanded_on(self.inputs),
        )
        &&& table_sound(
            self.contractive@,
            self.structure_rev,
            self.project_revs@,
            contractive_on(self.inputs),
        )
        &&& table_sound(
            self.transitive@,
            self.structure_rev,
            self.project_revs@,
            transitive_on(self.inputs),
        )
    }

    /// A store that has been told nothing.
    pub fn new() -> (store: Store)
        ensures
            store.wf(),
            store.revision() == 0,
            store.clock() == 0,
            store.recomputations() == 0,
            store.diagnostics_runs() == 0,
            store.inputs().roots@.len() == 0,
            store.inputs().modules@.len() == 0,
            store.inputs().beams@.len() == 0,
            store.inputs().texts@ == Map::<u32, String>::empty(),
            store.inputs().parsed@ == Map::<u32, crate::input::ParsedFile>::empty(),
            forall|stage: Stage, p: ProjectId, m: Seq<char>| !store.cached(stage, p, m),
    {
        let store = Store {
            inputs: Inputs::new(),
            revision: 0,
            clock: 0,
            structure_rev: 0,
            project_revs: HashMap::new(),
            converted: Vec::new(),
            expanded: Vec::new(),
            contractive: Vec::new(),
            transitive: Vec::new(),
            ast_revs: HashMap::new(),
            pinned: Vec::new(),
            recomputations: 0,
            diagnostics_runs: 0,
        };
        proof {
            lemma_pins_empty(0, store.inputs);
            assert(store.pinned@ =~= Seq::<Pinned>::empty());
            assert forall|stage: Stage, p: ProjectId, m: Seq<char>| !store.cached(stage, p, m) by {
                lemma_no_entry::<AST>(store.converted@, store.structure_rev, store.project_revs@, p, m);
                lemma_no_entry::<ModuleStub>(
                    store.expanded@,
                    store.structure_rev,
                    store.project_revs@,
                    p,
                    m,
                );
                lemma_no_entry::<VStub>(
                    store.contractive@,
                    store.structure_rev,
                    store.project_revs@,
                    p,
                    m,
                );
                lemma_no_entry::<ModuleStub>(
                    store.transitive@,
                    store.structure_rev,
                    store.project_revs@,
                    p,
                    m,
                );
            }
        }
        store
    }

    /// The times at which things last changed are the same in both stores.
    pub closed spec fn same_times(&self, old: Store) -> bool {
        self.structure_rev == old.structure_rev && self.project_revs@ == old.project_revs@
            && self.ast_revs@ == old.ast_revs@
    }

    /// Whether the store keeps, for a module, a fresh stub of the stage that
    /// depends on no file that one of `files` bears on.
    pub closed spec fn pinned_clear_of(
        &self,
        stage: Stage,
        project_id: ProjectId,
        module: Seq<char>,
        files: Seq<FileId>,
    ) -> bool {
        first_where(
            self.pinned@,
            is_pin_for(self.structure_rev, self.ast_revs@, self.inputs, stage, project_id, module, files),
        ).is_some()
    }

    /// Whether the store keeps, for a module, a fresh stub of the stage with
    /// the files that it depends on.
    pub open spec fn pinned(&self, stage: Stage, project_id: ProjectId, module: Seq<char>) -> bool {
        self.pinned_clear_of(stage, project_id, module, Seq::empty())
    }

    /// A stub kept clear of some files is kept.
    pub proof fn lemma_clear_is_pinned(
        &self,
        stage: Stage,
        project_id: ProjectId,
        module: Seq<char>,
        files: Seq<FileId>,
    )
        requires
            self.pinned_clear_of(stage, project_id, module, files),
        ensures
            self.pinned(stage, project_id, module),
    {
        let p = is_pin_for(self.structure_rev, self.ast_revs@, self.inputs, stage, project_id, module, files);
        let q = is_pin_for(
            self.structure_rev,
            self.ast_revs@,
            self.inputs,
            stage,
            project_id,
            module,
            Seq::empty(),
        );
        lemma_first_where(self.pinned@, p);
        lemma_first_where(self.pinned@, q);
        let i = first_where(self.pinned@, p).unwrap();
        assert(q(self.pinned@[i]));
    }

    /// The later store has the same inputs and times as the earlier one,
    /// and keeps every fresh result that the earlier one kept.
    pub open spec fn extends(&self, old: Store) -> bool {
        &&& self.inputs() == old.inputs()
        &&& self.revision() == old.revision()
        &&& self.clock() == old.clock()
        &&& self.diagnostics_runs() == old.diagnostics_runs()
        &&& old.recomputations() <= self.recomputations()
        &&& self.same_times(old)
        &&& forall|stage: Stage, p: ProjectId, m: Seq<char>| #[trigger]
            old.cached(stage, p, m) ==> self.cached(stage, p, m)
        &&& forall|stage: Stage, p: ProjectId, m: Seq<char>, files: Seq<FileId>| #[trigger]
            old.pinned_clear_of(stage, p, m, files) ==> self.pinned_clear_of(stage, p, m, files)
    }

    /// What `extends` says, for those who cannot look into the store.
    pub proof fn lemma_extends(&self, old: Store)
        requires
            self.extends(old),
        ensures
            self.inputs() == old.inputs(),
            self.revision() == old.revision(),
            self.clock() == old.clock(),
            self.diagnostics_runs() == old.diagnostics_runs(),
            old.recomputations() <= self.recomputations(),
            forall|p: ProjectId| self.project_changed_at(p) == old.project_changed_at(p),
            forall|stage: Stage, p: ProjectId, m: Seq<char>| #[trigger]
                old.cached(stage, p, m) ==> self.cached(stage, p, m),
    {
    }

    pub proof fn lemma_extends_refl(&self)
        ensures
            self.extends(*self),
    {
    }

    pub proof fn lemma_extends_trans(&self, mid: Store, old: Store)
        requires
            self.extends(mid),
            mid.extends(old),
        ensures
            self.extends(old),
    {
    }

    fn count(&mut self)
        ensures
            final(self).recomputations == counted(old(self).recomputations),
            final(self).inputs == old(self).inputs,
            final(self).revision == old(self).revision,
            final(self).clock == old(self).clock,
            final(self).structure_rev == old(self).structure_rev,
            final(self).project_revs == old(self).project_revs,
            final(self).diagnostics_runs == old(self).diagnostics_runs,
            final(self).converted == old(self).converted,
            final(self).expanded == old(self).expanded,
            final(self).contractive == old(self).contractive,
            final(self).transitive == old(self).transitive,
            final(self).ast_revs == old(self).ast_revs,
            final(self).pinned == old(self).pinned,
    {
        if self.recomputations < u64::MAX {
            self.recomputations = self.recomputations + 1;
        }
    }

    /// The converted stub kept for a module, if a fresh one is kept.
    pub(crate) fn cached_converted(&self, project_id: ProjectId, module: &str) -> (r: Option<
        Result<Arc<AST>, Error>,
    >)
        requires
            self.wf(),
        ensures
            match r {
                Some(v) => self.cached(Stage::Converted, project_id, module@) && result_view(v)
                    == spec_converted_stub(self.inputs(), project_id, module@),
                None => !self.cached(Stage::Converted, project_id, module@),
            },
    {
        match table_lookup(&self.converted, self.structure_rev, &self.project_revs, project_id, module) {
            Some(i) => Some(clone_result(&self.converted[i].value)),
            None => None,
        }
    }

    /// The expanded stub kept for a module, if a fresh one is kept.
    pub(crate) fn cached_expanded(&self, project_id: ProjectId, module: &str) -> (r: Option<
        Result<Arc<ModuleStub>, Error>,
    >)
        requires
            self.wf(),
        ensures
            match r {
                Some(v) => self.cached(Stage::Expanded, project_id, module@) && result_view(v)
                    == spec_expanded_stub(self.inputs(), project_id, module@),
                None => !self.cached(Stage::Expanded, project_id, module@),
            },
    {
        match table_lookup(&self.expanded, self.structure_rev, &self.project_revs, project_id, module) {
            Some(i) => Some(clone_result(&self.expanded[i].value)),
            None => None,
        }
    }

    /// The contractive stub kept for a module, if a fresh one is kept.
    pub(crate) fn cached_contractive(&self, project_id: ProjectId, module: &str) -> (r: Option<
        Result<Arc<VStub>, Error>,
    >)
        requires
            self.wf(),
        ensures
            match r {
                Some(v) => self.cached(Stage::Contractive, project_id, module@) && result_view(v)
                    == spec_contractive_stub(self.inputs(), project_id, module@),
                None => !self.cached(Stage::Contractive, project_id, module@),
            },
    {
        match table_lookup(
            &self.contractive,
            self.structure_rev,
            &self.project_revs,
            project_id,
            module,
        ) {
            Some(i) => Some(clone_result(&self.contractive[i].value)),
            None => None,
        }
    }

    /// The transitive stub kept for a module, if a fresh one is kept.
    pub(crate) fn cached_transitive(&self, project_id: ProjectId, module: &str) -> (r: Option<
        Result<Arc<ModuleStub>, Error>,
    >)
        requires
            self.wf(),
        ensures
            match r {
                Some(v) => self.cached(Stage::Transitive, project_id, module@) && result_view(v)
                    == spec_transitive_stub(self.inputs(), project_id, module@),
                None => !self.cached(Stage::Transitive, project_id, module@),
            },
    {
        match table_lookup(
            &self.transitive,
            self.structure_rev,
            &self.project_revs,
            project_id,
            module,
        ) {
            Some(i) => Some(clone_result(&self.transitive[i].value)),
            None => None,
        }
    }

    /// Keeps a converted stub that has just been computed.
    pub(crate) fn remember_converted(
        &mut self,
        project_id: ProjectId,
        module: &str,
        value: &Result<Arc<AST>, Error>,
    )
        requires
            old(self).wf(),
            result_view(*value) == spec_converted_stub(old(self).inputs(), project_id, module@),
        ensures
            final(self).wf(),
            final(self).extends(*old(self)),
            final(self).cached(Stage::Converted, project_id, module@),
            final(self).recomputations() == counted(old(self).recomputations()),
    {
        let ghost before = *self;
        let entry = Cached {
            project_id,
            module: String::from_str(module),
            stamp: self.clock,
            value: clone_result(value),
        };
        self.count();
        self.converted.push(entry);
        proof {
            assert forall|stage: Stage, p: ProjectId, m: Seq<char>| #[trigger]
                before.cached(stage, p, m) implies self.cached(stage, p, m) by {
                lemma_table_push(before.converted@, entry, self.structure_rev, self.project_revs@, p, m);
            }
            lemma_table_push(
                before.converted@,
                entry,
                self.structure_rev,
                self.project_revs@,
                project_id,
                module@,
            );
        }
    }

    /// Keeps an expanded stub that has just been computed.
    pub(crate) fn remember_expanded(
        &mut self,
        project_id: ProjectId,
        module: &str,
        value: &Result<Arc<ModuleStub>, Error>,
    )
        requires
            old(self).wf(),
            result_view(*value) == spec_expanded_stub(old(self).inputs(), project_id, module@),
        ensures
            final(self).wf(),
            final(self).extends(*old(self)),
            final(self).cached(Stage::Expanded, project_id, module@),
            final(self).recomputations() == counted(old(self).recomputations()),
    {
        let ghost before = *self;
        let entry = Cached {
            project_id,
            module: String::from_str(module),
            stamp: self.clock,
            value: clone_result(value),
        };
        self.count();
        self.expanded.push(entry);
        proof {
            assert forall|stage: Stage, p: ProjectId, m: Seq<char>| #[trigger]
                before.cached(stage, p, m) implies self.cached(stage, p, m) by {
                lemma_table_push(before.expanded@, entry, self.structure_rev, self.project_revs@, p, m);
            }
            lemma_table_push(
                before.expanded@,
                entry,
                self.structure_rev,
                self.project_revs@,
                project_id,
                module@,
            );
        }
    }

    /// Keeps a contractive stub that has just been computed.
    pub(crate) fn remember_contractive(
        &mut self,
        project_id: ProjectId,
        module: &str,
        value: &Result<Arc<VStub>, Error>,
    )
        requires
            old(self).wf(),
            result_view(*value) == spec_contractive_stub(old(self).inputs(), project_id, module@),
        ensures
            final(self).wf(),
            final(self).extends(*old(self)),
            final(self).cached(Stage::Contractive, project_id, module@),
            final(self).recomputations() == counted(old(self).recomputations()),
    {
        let ghost before = *self;
        let entry = Cached {
            project_id,
            module: String::from_str(module),
            stamp: self.clock,
            value: clone_result(value),
        };
        self.count();
        self.contractive.push(entry);
        proof {
            assert forall|stage: Stage, p: ProjectId, m: Seq<char>| #[trigger]
                before.cached(stage, p, m) implies self.cached(stage, p, m) by {
                lemma_table_push(
                    before.contractive@,
                    entry,
                    self.structure_rev,
                    self.project_revs@,
                    p,
                    m,
                );
            }
            lemma_table_push(
                before.contractive@,
                entry,
                self.structure_rev,
                self.project_revs@,
                project_id,
                module@,
            );
        }
    }

    /// Keeps a transitive stub that has just been computed.
    pub(crate) fn remember_transitive(
        &mut self,
        project_id: ProjectId,
        module: &str,
        value: &Result<Arc<ModuleStub>, Error>,
    )
        requires
            old(self).wf(),
            result_view(*value) == spec_transitive_stub(old(self).inputs(), project_id, module@),
        ensures
            final(self).wf(),
            final(self).extends(*old(self)),
            final(self).cached(Stage::Transitive, project_id, module@),
            final(self).recomputations() == counted(old(self).recomputations()),
    {
        let ghost before = *self;
        let entry = Cached {
            project_id,
            module: String::from_str(module),
            stamp: self.clock,
            value: clone_result(value),
        };
        self.count();
        self.transitive.push(entry);
        proof {
            assert forall|stage: Stage, p: ProjectId, m: Seq<char>| #[trigger]
                before.cached(stage, p, m) implies self.cached(stage, p, m) by {
                lemma_table_push(
                    before.transitive@,
                    entry,
                    self.structure_rev,
                    self.project_revs@,
                    p,
                    m,
                );
            }
            lemma_table_push(
                before.transitive@,
                entry,
                self.structure_rev,
                self.project_revs@,
                project_id,
                module@,
            );
        }
    }

    pub fn get_inputs(&self) -> (inputs: &Inputs)
        ensures
            *inputs == self.inputs(),
    {
        &self.inputs
    }

    pub fn get_revision(&self) -> (revision: u64)
        ensures
            revision == self.revision(),
    {
        self.revision
    }

    pub fn get_recomputations(&self) -> (n: u64)
        ensures
            n == self.recomputations(),
    {
        self.recomputations
    }
}

/// The index of files after the first `n` files of a root have been entered.
pub open spec fn index_root_files(m: Map<u32, u32>, files: Seq<RootFile>, root: u32, n: nat) -> Map<
    u32,
    u32,
>
    decreases n,
{
    if n == 0 || n > files.len() {
        m
    } else {
        index_root_files(m, files, root, (n - 1) as nat).insert(files[n - 1].file_id.0, root)
    }
}

/// The index of files after the first `n` roots have been entered, each
/// under its position; a file of several roots belongs to the last.
pub open spec fn index_roots(m: Map<u32, u32>, roots: Seq<SourceRoot>, n: nat) -> Map<u32, u32>
    decreases n,
{
    if n == 0 || n > roots.len() {
        m
    } else {
        index_root_files(
            index_roots(m, roots, (n - 1) as nat),
            roots[n - 1].files@,
            (n - 1) as u32,
            roots[n - 1].files@.len(),
        )
    }
}

/// The table of applications after the first `n` entries: an entry with
/// data puts it under its source root, one without takes away what was there.
pub open spec fn apply_apps(m: Map<u32, AppData>, apps: Seq<AppEntry>, n: nat) -> Map<u32, AppData>
    decreases n,
{
    if n == 0 || n > apps.len() {
        m
    } else {
        let before = apply_apps(m, apps, (n - 1) as nat);
        match apps[n - 1].data {
            Some(d) => before.insert(apps[n - 1].source_root.0, d),
            None => before.remove(apps[n - 1].source_root.0),
        }
    }
}

/// The table of files that belong to an application by name, after the
/// first `n` paths of an entry: each path that resolves to a file puts the
/// file under the entry's source root.
pub open spec fn assign_files(
    m: Map<u32, u32>,
    root: u32,
    resolved: Seq<Option<FileId>>,
    n: nat,
) -> Map<u32, u32>
    decreases n,
{
    if n == 0 || n > resolved.len() {
        m
    } else {
        let before = assign_files(m, root, resolved, (n - 1) as nat);
        match resolved[n - 1] {
            Some(f) => before.insert(f.0, root),
            None => before,
        }
    }
}

/// The same table after the first `n` entries.
pub open spec fn assign_all(
    m: Map<u32, u32>,
    apps: Seq<AppEntry>,
    resolved: Seq<Vec<Option<FileId>>>,
    n: nat,
) -> Map<u32, u32>
    decreases n,
{
    if n == 0 || n > apps.len() || n > resolved.len() {
        m
    } else {
        assign_files(
            assign_all(m, apps, resolved, (n - 1) as nat),
            apps[n - 1].source_root.0,
            resolved[n - 1]@,
            resolved[n - 1]@.len(),
        )
    }
}

/// Whether the parse result of `file` draws on the text of `changed`: it
/// does if they are the same file, or if the parser read `changed` for it.
pub open spec fn bears_on(inputs: Inputs, file: FileId, changed: FileId) -> bool {
    file == changed || (inputs.parsed@.contains_key(file.0)
        && inputs.parsed@[file.0].includes@.contains(changed))
}

/// Whether a project has a module entry that `hit` holds of.
pub open spec fn project_hit(
    modules: Seq<ModuleEntry>,
    hit: spec_fn(ModuleEntry) -> bool,
    project_id: ProjectId,
) -> bool {
    exists|i: int|
        0 <= i < modules.len() && (#[trigger] modules[i]).project_id == project_id && hit(modules[i])
}

/// The module entries whose parse result draws on a file.
pub open spec fn hit_by_text(inputs: Inputs, changed: FileId) -> spec_fn(ModuleEntry) -> bool {
    |e: ModuleEntry| bears_on(inputs, e.file_id, changed)
}

/// The module entries that lie in a file.
pub open spec fn hit_by_file(file: FileId) -> spec_fn(ModuleEntry) -> bool {
    |e: ModuleEntry| e.file_id == file
}

/// Whether a change to the text of a file touches a project: whether the
/// parse result of one of the project's modules draws on the file.
pub open spec fn text_touches(inputs: Inputs, project_id: ProjectId, changed: FileId) -> bool {
    project_hit(inputs.modules@, hit_by_text(inputs, changed), project_id)
}

/// Whether a project has a module in the given file.
pub open spec fn holds_file(inputs: Inputs, project_id: ProjectId, file: FileId) -> bool {
    project_hit(inputs.modules@, hit_by_file(file), project_id)
}

/// The times of the projects after those with a module among the first `n`
/// that `hit` holds of have been set to `clock`.
pub open spec fn bumped(
    revs: Map<u32, u64>,
    modules: Seq<ModuleEntry>,
    hit: spec_fn(ModuleEntry) -> bool,
    clock: u64,
    n: nat,
) -> Map<u32, u64>
    decreases n,
{
    if n == 0 || n > modules.len() {
        revs
    } else {
        let before = bumped(revs, modules, hit, clock, (n - 1) as nat);
        if hit(modules[n - 1]) {
            before.insert(modules[n - 1].project_id.0, clock)
        } else {
            before
        }
    }
}

/// What `bumped` does to each project.
pub proof fn lemma_bumped(
    revs: Map<u32, u64>,
    modules: Seq<ModuleEntry>,
    hit: spec_fn(ModuleEntry) -> bool,
    clock: u64,
    n: nat,
    k: u32,
)
    requires
        n <= modules.len(),
    ensures
        (exists|i: int| 0 <= i < n && (#[trigger] modules[i]).project_id.0 == k && hit(modules[i]))
            ==> bumped(revs, modules, hit, clock, n).contains_key(k) && bumped(
            revs,
            modules,
            hit,
            clock,
            n,
        )[k] == clock,
        !(exists|i: int| 0 <= i < n && (#[trigger] modules[i]).project_id.0 == k && hit(modules[i]))
            ==> (bumped(revs, modules, hit, clock, n).contains_key(k) <==> revs.contains_key(k))
            && (revs.contains_key(k) ==> bumped(revs, modules, hit, clock, n)[k] == revs[k]),
    decreases n,
{
    if n > 0 {
        lemma_bumped(revs, modules, hit, clock, (n - 1) as nat, k);
        let m = modules[n - 1];
        if exists|i: int| 0 <= i < n - 1 && (#[trigger] modules[i]).project_id.0 == k && hit(modules[i]) {
            let i = choose|i: int|
                0 <= i < n - 1 && (#[trigger] modules[i]).project_id.0 == k && hit(modules[i]);
            assert(0 <= i < n && modules[i].project_id.0 == k && hit(modules[i]));
        } else if m.project_id.0 == k && hit(m) {
            assert(0 <= n - 1 < n && modules[n - 1].project_id.0 == k && hit(modules[n - 1]));
        } else {
            if exists|i: int| 0 <= i < n && (#[trigger] modules[i]).project_id.0 == k && hit(modules[i]) {
                let i = choose|i: int|
                    0 <= i < n && (#[trigger] modules[i]).project_id.0 == k && hit(modules[i]);
                assert(i < n - 1);
                assert(false);
            }
        }
    }
}

/// Stage 1 of a project is the same on two sets of inputs that differ only
/// in what the parser said of files in which the project has no module.
pub proof fn lemma_converted_frame(a: Inputs, b: Inputs, project_id: ProjectId)
    requires
        b.file_roots@ == a.file_roots@,
        b.apps@ == a.apps@,
        b.file_apps@ == a.file_apps@,
        b.modules@ == a.modules@,
        b.beams@ == a.beams@,
        forall|i: int|
            0 <= i < a.modules@.len() && (#[trigger] a.modules@[i]).project_id == project_id
                ==> b.spec_module_ast(a.modules@[i].file_id) == a.spec_module_ast(
                a.modules@[i].file_id,
            ),
    ensures
        project_converted(b, project_id) == project_converted(a, project_id),
{
    assert forall|m: Seq<char>|
        spec_converted_stub(b, project_id, m) == spec_converted_stub(a, project_id, m) by {
        let p = |e: ModuleEntry| e.project_id == project_id && e.name@ == m;
        lemma_first_where(a.modules@, p);
        match first_where(a.modules@, p) {
            None => {},
            Some(i) => {
                let file_id = a.modules@[i].file_id;
                assert(a.spec_file_for_module(project_id, m) == Some(file_id));
                assert(b.spec_file_for_module(project_id, m) == Some(file_id));
                assert(b.spec_file_app_data(file_id) == a.spec_file_app_data(file_id));
                assert(spec_from_beam_path(b, file_id, m) == spec_from_beam_path(a, file_id, m));
                assert(b.spec_module_ast(file_id) == a.spec_module_ast(file_id));
                assert(spec_erl_ast_bytes(b, project_id, m) == spec_erl_ast_bytes(a, project_id, m));
            },
        }
    }
    assert(project_converted(b, project_id) =~= project_converted(a, project_id));
}

/// A signal, not an error: the store has moved on since the work began, and
/// what the work yields is of no use.
#[derive(Clone, Copy, Debug, PartialEq, Eq, Structural)]
pub struct Cancelled;

/// How the times of projects may change in one step: a project is set to
/// `clock` or left as it was.
pub open spec fn revs_step(revs: Map<u32, u64>, revs2: Map<u32, u64>, clock: u64) -> bool {
    forall|k: u32|
        (#[trigger] revs2.contains_key(k) && revs2[k] == clock) || ((revs2.contains_key(k)
            <==> revs.contains_key(k)) && (revs.contains_key(k) ==> revs2[k] == revs[k]))
}

/// Results older than `clock` stay sound when some projects are set to
/// `clock` and the others have kept what they stand on.
pub proof fn lemma_table_after_bump<T: View>(
    table: Seq<Cached<T>>,
    structure_rev: u64,
    revs: Map<u32, u64>,
    revs2: Map<u32, u64>,
    clock: u64,
    f_old: spec_fn(ProjectId, Seq<char>) -> Result<T::V, ErrorV>,
    f_new: spec_fn(ProjectId, Seq<char>) -> Result<T::V, ErrorV>,
)
    requires
        table_sound(table, structure_rev, revs, f_old),
        table_older(table, clock),
        revs_step(revs, revs2, clock),
        forall|p: ProjectId, m: Seq<char>|
            project_rev(revs2, p) != clock ==> #[trigger] f_new(p, m) == f_old(p, m),
    ensures
        table_sound(table, structure_rev, revs2, f_new),
{
    assert forall|i: int|
        0 <= i < table.len() && stamp_fresh(
            structure_rev,
            revs2,
            (#[trigger] table[i]).project_id,
            table[i].stamp,
        ) implies result_view(table[i].value) == f_new(table[i].project_id, table[i].module@) by {
        let p = table[i].project_id;
        assert(revs2.contains_key(p.0) || !revs2.contains_key(p.0));
        assert(project_rev(revs2, p) != clock);
        assert(project_rev(revs2, p) == project_rev(revs, p));
        assert(f_new(p, table[i].module@) == f_old(p, table[i].module@));
    }
}

/// A project whose time is `clock` has no fresh result among those older
/// than `clock`; a project whose time is as before has the results it had.
pub proof fn lemma_get_after_bump<T>(
    table: Seq<Cached<T>>,
    structure_rev: u64,
    revs: Map<u32, u64>,
    revs2: Map<u32, u64>,
    clock: u64,
    project_id: ProjectId,
    module: Seq<char>,
)
    requires
        table_older(table, clock),
    ensures
        project_rev(revs2, project_id) == clock ==> table_get(
            table,
            structure_rev,
            revs2,
            project_id,
            module,
        ).is_none(),
        structure_rev == clock ==> table_get(table, structure_rev, revs2, project_id, module).is_none(),
        project_rev(revs2, project_id) == project_rev(revs, project_id) ==> table_get(
            table,
            structure_rev,
            revs2,
            project_id,
            module,
        ) == table_get(table, structure_rev, revs, project_id, module),
{
    let p2 = is_entry_for::<T>(structure_rev, revs2, project_id, module);
    let p1 = is_entry_for::<T>(structure_rev, revs, project_id, module);
    if project_rev(revs2, project_id) == clock || structure_rev == clock {
        assert forall|j: int| 0 <= j < table.len() implies !p2(#[trigger] table[j]) by {}
        lemma_first_where_none(table, p2);
    }
    if project_rev(revs2, project_id) == project_rev(revs, project_id) {
        assert forall|j: int| 0 <= j < table.len() implies p2(#[trigger] table[j]) == p1(
            table[j],
        ) by {}
        lemma_first_where_same(table, p2, p1);
    }
}

/// Results older than the time of the last change of structure are not fresh.
pub proof fn lemma_table_all_stale<T: View>(
    table: Seq<Cached<T>>,
    clock: u64,
    revs: Map<u32, u64>,
    f: spec_fn(ProjectId, Seq<char>) -> Result<T::V, ErrorV>,
)
    requires
        table_older(table, clock),
    ensures
        table_sound(table, clock, revs, f),
{
}

/// A parse result that does not draw on a file is as fresh after a change
/// to the file's text as it was before.
pub proof fn lemma_ast_untouched(a: Inputs, b: Inputs, changed: FileId, file: FileId)
    requires
        b.parsed@ == a.parsed@,
        b.layout_rev == a.layout_rev,
        forall|g: FileId| g != changed ==> b.spec_text_rev(g) == a.spec_text_rev(g),
        !bears_on(a, file, changed),
    ensures
        b.spec_module_ast(file) == a.spec_module_ast(file),
{
    if a.parsed@.contains_key(file.0) {
        let pf = a.parsed@[file.0];
        assert forall|i: int| 0 <= i < pf.includes@.len() implies b.spec_text_rev(
            #[trigger] pf.includes@[i],
        ) == a.spec_text_rev(pf.includes@[i]) by {
            assert(pf.includes@.contains(pf.includes@[i]));
        }
        assert(b.spec_fresh(file, pf) == a.spec_fresh(file, pf));
    }
}

/// What setting the hit projects to `clock` does: the hit projects are at
/// `clock`; the others are where they were, and their stage 1 is what it
/// was, if the parse results of their modules are.
pub proof fn lemma_bump_facts(
    a: Inputs,
    b: Inputs,
    revs: Map<u32, u64>,
    revs2: Map<u32, u64>,
    clock: u64,
    hit: spec_fn(ModuleEntry) -> bool,
)
    requires
        revs2 == bumped(revs, a.modules@, hit, clock, a.modules@.len()),
        b.file_roots@ == a.file_roots@,
        b.apps@ == a.apps@,
        b.file_apps@ == a.file_apps@,
        b.modules@ == a.modules@,
        b.beams@ == a.beams@,
        forall|i: int|
            0 <= i < a.modules@.len() && !hit(#[trigger] a.modules@[i]) ==> b.spec_module_ast(
                a.modules@[i].file_id,
            ) == a.spec_module_ast(a.modules@[i].file_id),
    ensures
        revs_step(revs, revs2, clock),
        forall|p: ProjectId| #[trigger]
            project_hit(a.modules@, hit, p) ==> project_rev(revs2, p) == clock,
        forall|p: ProjectId|
            !#[trigger] project_hit(a.modules@, hit, p) ==> project_rev(revs2, p) == project_rev(
                revs,
                p,
            ) && project_converted(b, p) == project_converted(a, p),
{
    let n = a.modules@.len();
    assert forall|k: u32|
        (#[trigger] revs2.contains_key(k) && revs2[k] == clock) || ((revs2.contains_key(k)
            <==> revs.contains_key(k)) && (revs.contains_key(k) ==> revs2[k] == revs[k])) by {
        lemma_bumped(revs, a.modules@, hit, clock, n, k);
    }
    assert forall|p: ProjectId| #[trigger] project_hit(a.modules@, hit, p) implies project_rev(
        revs2,
        p,
    ) == clock by {
        let i = choose|i: int|
            0 <= i < a.modules@.len() && (#[trigger] a.modules@[i]).project_id == p && hit(
                a.modules@[i],
            );
        assert(a.modules@[i].project_id.0 == p.0 && hit(a.modules@[i]));
        lemma_bumped(revs, a.modules@, hit, clock, n, p.0);
    }
    assert forall|p: ProjectId| !#[trigger] project_hit(a.modules@, hit, p) implies project_rev(
        revs2,
        p,
    ) == project_rev(revs, p) && project_converted(b, p) == project_converted(a, p) by {
        lemma_bumped(revs, a.modules@, hit, clock, n, p.0);
        if exists|i: int|
            0 <= i < n && (#[trigger] a.modules@[i]).project_id.0 == p.0 && hit(a.modules@[i]) {
            let i = choose|i: int|
                0 <= i < n && (#[trigger] a.modules@[i]).project_id.0 == p.0 && hit(a.modules@[i]);
            assert(a.modules@[i].project_id == p);
            assert(false);
        }
        assert forall|i: int|
            0 <= i < a.modules@.len() && (#[trigger] a.modules@[i]).project_id
                == p implies b.spec_module_ast(a.modules@[i].file_id) == a.spec_module_ast(
            a.modules@[i].file_id,
        ) by {
            if hit(a.modules@[i]) {
                assert(project_hit(a.modules@, hit, p));
            }
        }
        lemma_converted_frame(a, b, p);
    }
}

/// Projects with the same stage 1 have the same later stages.
pub proof fn lemma_stages_agree(a: Inputs, b: Inputs, revs2: Map<u32, u64>, clock: u64)
    requires
        forall|p: ProjectId|
            project_rev(revs2, p) != clock ==> #[trigger] project_converted(b, p)
                == project_converted(a, p),
    ensures
        forall|p: ProjectId, m: Seq<char>|
            project_rev(revs2, p) != clock ==> (#[trigger] converted_on(b)(p, m)) == converted_on(a)(
                p,
                m,
            ),
        forall|p: ProjectId, m: Seq<char>|
            project_rev(revs2, p) != clock ==> (#[trigger] expanded_on(b)(p, m)) == expanded_on(a)(
                p,
                m,
            ),
        forall|p: ProjectId, m: Seq<char>|
            project_rev(revs2, p) != clock ==> (#[trigger] contractive_on(b)(p, m))
                == contractive_on(a)(p, m),
        forall|p: ProjectId, m: Seq<char>|
            project_rev(revs2, p) != clock ==> (#[trigger] transitive_on(b)(p, m)) == transitive_on(
                a,
            )(p, m),
{
    assert forall|p: ProjectId, m: Seq<char>| project_rev(revs2, p) != clock implies (
    #[trigger] converted_on(b)(p, m)) == converted_on(a)(p, m) by {
        assert(project_converted(b, p) == project_converted(a, p));
        assert(project_converted(b, p)(m) == project_converted(a, p)(m));
    }
    assert forall|p: ProjectId, m: Seq<char>| project_rev(revs2, p) != clock implies (
    #[trigger] expanded_on(b)(p, m)) == expanded_on(a)(p, m) by {
        assert(project_converted(b, p) == project_converted(a, p));
    }
    assert forall|p: ProjectId, m: Seq<char>| project_rev(revs2, p) != clock implies (
    #[trigger] contractive_on(b)(p, m)) == contractive_on(a)(p, m) by {
        assert(project_converted(b, p) == project_converted(a, p));
    }
    assert forall|p: ProjectId, m: Seq<char>| project_rev(revs2, p) != clock implies (
    #[trigger] transitive_on(b)(p, m)) == transitive_on(a)(p, m) by {
        assert(project_converted(b, p) == project_converted(a, p));
    }
}

/// The parse results after a change to the text of a file: those that draw
/// on the file are stale, the others are as they were.
pub proof fn lemma_asts_after_text(a: Inputs, b: Inputs, changed: FileId, clock: u64)
    requires
        b.parsed@ == a.parsed@,
        b.layout_rev == a.layout_rev,
        b.text_revs@ == a.text_revs@.insert(changed.0, clock),
        forall|k: u32| #[trigger] a.parsed@.contains_key(k) ==> a.parsed@[k].stamp < clock,
    ensures
        forall|g: FileId|
            bears_on(a, g, changed) ==> (#[trigger] b.spec_module_ast(g)).is_none(),
        forall|g: FileId|
            !bears_on(a, g, changed) ==> #[trigger] b.spec_module_ast(g) == a.spec_module_ast(g),
{
    assert forall|g: FileId| g != changed implies b.spec_text_rev(g) == a.spec_text_rev(g) by {
        assert(g.0 != changed.0);
    }
    assert(b.spec_text_rev(changed) == clock);
    assert forall|g: FileId| bears_on(a, g, changed) implies (#[trigger] b.spec_module_ast(
        g,
    )).is_none() by {
        if b.parsed@.contains_key(g.0) {
            let pf = b.parsed@[g.0];
            if g != changed {
                let i = choose|i: int| 0 <= i < pf.includes@.len() && pf.includes@[i] == changed;
                assert(b.spec_text_rev(pf.includes@[i]) > pf.stamp);
            }
            assert(!b.spec_fresh(g, pf));
        }
    }
    assert forall|g: FileId| !bears_on(a, g, changed) implies #[trigger] b.spec_module_ast(g)
        == a.spec_module_ast(g) by {
        lemma_ast_untouched(a, b, changed, g);
    }
}

/// Enters the files of the roots into the index of files.
fn index_files(map: &mut HashMap<u32, u32>, roots: &Vec<SourceRoot>)
    requires
        roots@.len() <= u32::MAX,
    ensures
        final(map)@ == index_roots(old(map)@, roots@, roots@.len()),
{
    let ghost start = map@;
    let mut i: usize = 0;
    while i < roots.len()
        invariant
            i <= roots.len(),
            roots@.len() <= u32::MAX,
            map@ == index_roots(start, roots@, i as nat),
        decreases roots.len() - i,
    {
        let ghost before = map@;
        let root = &roots[i];
        let mut j: usize = 0;
        while j < root.files.len()
            invariant
                j <= root.files.len(),
                i < roots.len() <= u32::MAX,
                map@ == index_root_files(before, root.files@, i as u32, j as nat),
            decreases root.files.len() - j,
        {
            map.insert(root.files[j].file_id.0, i as u32);
            j = j + 1;
        }
        i = i + 1;
    }
}

/// Enters into the table of assigned files the paths of one entry that resolve.
fn assign_entry_files(map: &mut HashMap<u32, u32>, root: u32, found: &Vec<Option<FileId>>)
    ensures
        final(map)@ == assign_files(old(map)@, root, found@, found@.len()),
{
    let ghost before = map@;
    let mut j: usize = 0;
    while j < found.len()
        invariant
            j <= found.len(),
            map@ == assign_files(before, root, found@, j as nat),
        decreases found.len() - j,
    {
        match found[j] {
            Some(f) => {
                map.insert(f.0, root);
            },
            None => {},
        }
        j = j + 1;
    }
}

/// Applies the entries of a change of structure to the table of
/// applications and to the table of assigned files.
fn apply_entries(
    table: &mut HashMap<u32, AppData>,
    assigned: &mut HashMap<u32, u32>,
    apps: Vec<AppEntry>,
    resolved: &Vec<Vec<Option<FileId>>>,
)
    requires
        resolved@.len() == apps@.len(),
    ensures
        final(table)@ == apply_apps(old(table)@, apps@, apps@.len()),
        final(assigned)@ == assign_all(old(assigned)@, apps@, resolved@, apps@.len()),
{
    let ghost all = apps@;
    let ghost table0 = table@;
    let ghost assigned0 = assigned@;
    let mut apps = apps;
    let total: usize = apps.len();
    let mut i: usize = 0;
    while apps.len() > 0
        invariant
            i + apps@.len() == all.len(),
            all.len() == total,
            apps@ == all.skip(i as int),
            resolved@.len() == all.len(),
            table@ == apply_apps(table0, all, i as nat),
            assigned@ == assign_all(assigned0, all, resolved@, i as nat),
        decreases apps@.len(),
    {
        let entry = apps.remove(0);
        proof {
            assert(entry == all[i as int]);
            assert(apps@ =~= all.skip(i + 1));
        }
        let root = entry.source_root.0;
        match entry.data {
            Some(d) => {
                table.insert(root, d);
            },
            None => {
                table.remove(&root);
            },
        }
        assign_entry_files(assigned, root, &resolved[i]);
        i = i + 1;
    }
}

/// Whether a file is in a list.
fn contains_file(files: &Vec<FileId>, file: FileId) -> (found: bool)
    ensures
        found == files@.contains(file),
{
    let mut i: usize = 0;
    while i < files.len()
        invariant
            i <= files.len(),
            forall|j: int| 0 <= j < i ==> files@[j] != file,
        decreases files.len() - i,
    {
        if files[i] == file {
            return true;
        }
        i = i + 1;
    }
    false
}

/// Sets to `clock` the time of each project with a module whose parse
/// result draws on the changed file.
fn bump_for_text(
    revs: &mut HashMap<u32, u64>,
    files: &mut HashMap<u32, u64>,
    inputs: &Inputs, changed: FileId, clock: u64)
    ensures
        final(revs)@ == bumped(
            old(revs)@,
            inputs.modules@,
            hit_by_text(*inputs, changed),
            clock,
            inputs.modules@.len(),
        ),
        final(files)@ == bumped_files(
            old(files)@,
            inputs.modules@,
            hit_by_text(*inputs, changed),
            clock,
            inputs.modules@.len(),
        ),
{
    let ghost files0 = files@;
    let ghost start = revs@;
    let ghost hit = hit_by_text(*inputs, changed);
    let mut i: usize = 0;
    while i < inputs.modules.len()
        invariant
            i <= inputs.modules.len(),
            hit == hit_by_text(*inputs, changed),
            revs@ == bumped(start, inputs.modules@, hit, clock, i as nat),
            files@ == bumped_files(files0, inputs.modules@, hit, clock, i as nat),
        decreases inputs.modules.len() - i,
    {
        let e = &inputs.modules[i];
        let draws = e.file_id == changed || match inputs.parsed.get(&e.file_id.0) {
            Some(pf) => contains_file(&pf.includes, changed),
            None => false,
        };
        if draws {
            revs.insert(e.project_id.0, clock);
            files.insert(e.file_id.0, clock);
        }
        i = i + 1;
    }
}

/// Sets to `clock` the time of each project with a module in the file.
fn bump_for_file(
    revs: &mut HashMap<u32, u64>,
    files: &mut HashMap<u32, u64>,
    inputs: &Inputs, file: FileId, clock: u64)
    ensures
        final(revs)@ == bumped(
            old(revs)@,
            inputs.modules@,
            hit_by_file(file),
            clock,
            inputs.modules@.len(),
        ),
        final(files)@ == bumped_files(
            old(files)@,
            inputs.modules@,
            hit_by_file(file),
            clock,
            inputs.modules@.len(),
        ),
{
    let ghost files0 = files@;
    let ghost start = revs@;
    let ghost hit = hit_by_file(file);
    let mut i: usize = 0;
    while i < inputs.modules.len()
        invariant
            i <= inputs.modules.len(),
            hit == hit_by_file(file),
            revs@ == bumped(start, inputs.modules@, hit, clock, i as nat),
            files@ == bumped_files(files0, inputs.modules@, hit, clock, i as nat),
        decreases inputs.modules.len() - i,
    {
        let e = &inputs.modules[i];
        if e.file_id == file {
            revs.insert(e.project_id.0, clock);
            files.insert(e.file_id.0, clock);
        }
        i = i + 1;
    }
}

/// An empty table keeps nothing.
pub proof fn lemma_no_entry<T>(
    table: Seq<Cached<T>>,
    structure_rev: u64,
    revs: Map<u32, u64>,
    project_id: ProjectId,
    module: Seq<char>,
)
    requires
        table.len() == 0,
    ensures
        table_get(table, structure_rev, revs, project_id, module).is_none(),
{
}

impl Store {
    /// The invariant while a change is being made: the store's invariant,
    /// and everything kept is from before the present time.
    pub closed spec fn wf_open(&self) -> bool {
        &&& self.wf()
        &&& table_older(self.converted@, self.clock)
        &&& table_older(self.expanded@, self.clock)
        &&& table_older(self.contractive@, self.clock)
        &&& table_older(self.transitive@, self.clock)
        &&& pins_older(self.pinned@, self.clock)
        &&& forall|k: u32| #[trigger]
            self.inputs.parsed@.contains_key(k) ==> self.inputs.parsed@[k].stamp < self.clock
    }

    pub proof fn lemma_open_is_wf(&self)
        requires
            self.wf_open(),
        ensures
            self.wf(),
    {
    }

    /// Whether the clock can advance.
    pub fn can_advance(&self) -> (ok: bool)
        ensures
            ok == (self.clock() < u64::MAX),
    {
        self.clock < u64::MAX
    }

    /// Says whether work begun at the given revision is still of use: it is
    /// not once a change has been committed since.
    pub fn check_cancelled(&self, started_at: u64) -> (r: Result<(), Cancelled>)
        ensures
            r.is_err() == (self.revision() != started_at),
    {
        if self.revision != started_at {
            Err(Cancelled)
        } else {
            Ok(())
        }
    }

    /// Opens a change: the revision and the clock advance by one.
    pub(crate) fn begin_change(&mut self)
        requires
            old(self).wf(),
            old(self).clock() < u64::MAX,
        ensures
            final(self).wf_open(),
            final(self).inputs() == old(self).inputs(),
            final(self).revision() == old(self).revision() + 1,
            final(self).clock() == old(self).clock() + 1,
            final(self).recomputations() == old(self).recomputations(),
            final(self).diagnostics_runs() == old(self).diagnostics_runs(),
            forall|stage: Stage, p: ProjectId, m: Seq<char>|
                final(self).cached(stage, p, m) == old(self).cached(stage, p, m),
            forall|p: ProjectId| final(self).project_changed_at(p) == old(self).project_changed_at(p),
            forall|stage: Stage, p: ProjectId, m: Seq<char>, files: Seq<FileId>|
                final(self).pinned_clear_of(stage, p, m, files) == old(self).pinned_clear_of(stage, p, m, files),
    {
        self.revision = self.revision + 1;
        self.clock = self.clock + 1;
        proof {
            lemma_pins_tick(
                self.pinned@,
                self.structure_rev,
                self.ast_revs@,
                self.inputs,
                old(self).clock,
                self.clock,
            );
        }
    }

    /// Installs the source roots and enters their files into the index of files.
    pub(crate) fn install_roots(&mut self, roots: Vec<SourceRoot>)
        requires
            old(self).wf_open(),
            roots@.len() <= u32::MAX,
        ensures
            final(self).wf_open(),
            final(self).inputs().roots == roots,
            final(self).inputs().file_roots@ == index_roots(
                old(self).inputs().file_roots@,
                roots@,
                roots@.len(),
            ),
            final(self).inputs().texts == old(self).inputs().texts,
            final(self).inputs().text_revs == old(self).inputs().text_revs,
            final(self).inputs().apps == old(self).inputs().apps,
            final(self).inputs().file_apps == old(self).inputs().file_apps,
            final(self).inputs().modules == old(self).inputs().modules,
            final(self).inputs().parsed == old(self).inputs().parsed,
            final(self).inputs().beams == old(self).inputs().beams,
            final(self).revision() == old(self).revision(),
            final(self).clock() == old(self).clock(),
            final(self).recomputations() == old(self).recomputations(),
            final(self).diagnostics_runs() == old(self).diagnostics_runs(),
            forall|stage: Stage, p: ProjectId, m: Seq<char>| !final(self).cached(stage, p, m),
            forall|p: ProjectId| final(self).project_changed_at(p) == final(self).clock(),
            final(self).inputs().layout_rev == final(self).clock(),
            forall|g: FileId| (#[trigger] final(self).inputs().spec_module_ast(g)).is_none(),
            forall|stage: Stage, p: ProjectId, m: Seq<char>, files: Seq<FileId>| !final(self).pinned_clear_of(stage, p, m, files),
    {
        index_files(&mut self.inputs.file_roots, &roots);
        self.inputs.roots = roots;
        self.inputs.layout_rev = self.clock;
        self.structure_rev = self.clock;
        proof {
            lemma_pins_stale(
                self.pinned@,
                self.ast_revs@,
                old(self).structure_rev,
                old(self).inputs,
                self.inputs,
                self.clock,
            );
            self.lemma_structure_changed();
        }
    }

    /// After a change of structure nothing kept is fresh.
    proof fn lemma_structure_changed(&self)
        requires
            self.structure_rev == self.clock,
            self.revision <= self.clock,
            self.inputs.layout_rev <= self.clock,
            table_older(self.converted@, self.clock),
            table_older(self.expanded@, self.clock),
            table_older(self.contractive@, self.clock),
            table_older(self.transitive@, self.clock),
            forall|k: u32| #[trigger]
                self.project_revs@.contains_key(k) ==> self.project_revs@[k] <= self.clock,
            forall|k: u32| #[trigger]
                self.inputs.text_revs@.contains_key(k) ==> self.inputs.text_revs@[k] <= self.clock,
            forall|k: u32| #[trigger]
                self.inputs.parsed@.contains_key(k) ==> self.inputs.parsed@[k].stamp < self.clock,
            pins_ok(self.pinned@, self.structure_rev, self.ast_revs@, self.inputs, self.clock),
            pins_older(self.pinned@, self.clock),
        ensures
            self.wf_open(),
            forall|stage: Stage, p: ProjectId, m: Seq<char>| !self.cached(stage, p, m),
            forall|p: ProjectId| self.project_changed_at(p) == self.clock,
    {
        let c = self.clock;
        let revs = self.project_revs@;
        lemma_table_all_stale(self.converted@, c, revs, converted_on(self.inputs));
        lemma_table_all_stale(self.expanded@, c, revs, expanded_on(self.inputs));
        lemma_table_all_stale(self.contractive@, c, revs, contractive_on(self.inputs));
        lemma_table_all_stale(self.transitive@, c, revs, transitive_on(self.inputs));
        assert forall|stage: Stage, p: ProjectId, m: Seq<char>| !self.cached(stage, p, m) by {
            lemma_get_after_bump(self.converted@, c, revs, revs, c, p, m);
            lemma_get_after_bump(self.expanded@, c, revs, revs, c, p, m);
            lemma_get_after_bump(self.contractive@, c, revs, revs, c, p, m);
            lemma_get_after_bump(self.transitive@, c, revs, revs, c, p, m);
        }
    }

    /// Installs the applications and the index of modules. `resolved` holds,
    /// for each entry and each of its paths, the file that the path belongs to.
    pub(crate) fn install_structure(
        &mut self,
        apps: Vec<AppEntry>,
        modules: Vec<ModuleEntry>,
        resolved: &Vec<Vec<Option<FileId>>>,
    )
        requires
            old(self).wf_open(),
            resolved@.len() == apps@.len(),
        ensures
            final(self).wf_open(),
            final(self).inputs().apps@ == apply_apps(old(self).inputs().apps@, apps@, apps@.len()),
            final(self).inputs().file_apps@ == assign_all(
                old(self).inputs().file_apps@,
                apps@,
                resolved@,
                apps@.len(),
            ),
            final(self).inputs().modules == modules,
            final(self).inputs().roots == old(self).inputs().roots,
            final(self).inputs().file_roots == old(self).inputs().file_roots,
            final(self).inputs().texts == old(self).inputs().texts,
            final(self).inputs().text_revs == old(self).inputs().text_revs,
            final(self).inputs().parsed == old(self).inputs().parsed,
            final(self).inputs().beams == old(self).inputs().beams,
            final(self).revision() == old(self).revision(),
            final(self).clock() == old(self).clock(),
            final(self).recomputations() == old(self).recomputations(),
            final(self).diagnostics_runs() == old(self).diagnostics_runs(),
            forall|stage: Stage, p: ProjectId, m: Seq<char>| !final(self).cached(stage, p, m),
            forall|p: ProjectId| final(self).project_changed_at(p) == final(self).clock(),
            final(self).inputs().layout_rev == final(self).clock(),
            forall|g: FileId| (#[trigger] final(self).inputs().spec_module_ast(g)).is_none(),
            forall|stage: Stage, p: ProjectId, m: Seq<char>, files: Seq<FileId>| !final(self).pinned_clear_of(stage, p, m, files),
    {
        apply_entries(&mut self.inputs.apps, &mut self.inputs.file_apps, apps, resolved);
        self.inputs.modules = modules;
        self.inputs.layout_rev = self.clock;
        self.structure_rev = self.clock;
        proof {
            lemma_pins_stale(
                self.pinned@,
                self.ast_revs@,
                old(self).structure_rev,
                old(self).inputs,
                self.inputs,
                self.clock,
            );
            self.lemma_structure_changed();
        }
    }

    /// What holds of a store after the projects that `hit` marks have been
    /// set to the present time, where the inputs of the other projects'
    /// stubs are as they were.
    #[verifier::rlimit(100)]
    proof fn lemma_bumped_store(old: Store, new: Store, hit: spec_fn(ModuleEntry) -> bool)
        requires
            old.wf(),
            old.clock <= new.clock,
            new.revision == old.revision,
            new.structure_rev == old.structure_rev,
            new.converted == old.converted,
            new.expanded == old.expanded,
            new.contractive == old.contractive,
            new.transitive == old.transitive,
            table_older(old.converted@, new.clock),
            table_older(old.expanded@, new.clock),
            table_older(old.contractive@, new.clock),
            table_older(old.transitive@, new.clock),
            new.project_revs@ == bumped(
                old.project_revs@,
                old.inputs.modules@,
                hit,
                new.clock,
                old.inputs.modules@.len(),
            ),
            new.inputs.file_roots@ == old.inputs.file_roots@,
            new.inputs.apps@ == old.inputs.apps@,
            new.inputs.file_apps@ == old.inputs.file_apps@,
            new.inputs.modules@ == old.inputs.modules@,
            new.inputs.beams@ == old.inputs.beams@,
            forall|i: int|
                0 <= i < old.inputs.modules@.len() && !hit(#[trigger] old.inputs.modules@[i])
                    ==> new.inputs.spec_module_ast(old.inputs.modules@[i].file_id)
                    == old.inputs.spec_module_ast(old.inputs.modules@[i].file_id),
            new.inputs.layout_rev <= new.clock,
            pins_ok(new.pinned@, new.structure_rev, new.ast_revs@, new.inputs, new.clock),
            forall|k: u32| #[trigger]
                new.inputs.text_revs@.contains_key(k) ==> new.inputs.text_revs@[k] <= new.clock,
            forall|k: u32| #[trigger]
                new.inputs.parsed@.contains_key(k) ==> new.inputs.parsed@[k].stamp <= new.clock,
        ensures
            new.wf(),
            forall|stage: Stage, p: ProjectId, m: Seq<char>|
                project_hit(old.inputs.modules@, hit, p) ==> !#[trigger] new.cached(stage, p, m),
            forall|stage: Stage, p: ProjectId, m: Seq<char>|
                !project_hit(old.inputs.modules@, hit, p) ==> #[trigger] new.cached(stage, p, m)
                    == old.cached(stage, p, m),
            forall|p: ProjectId|
                project_hit(old.inputs.modules@, hit, p) ==> #[trigger] new.project_changed_at(p)
                    == new.clock,
            forall|p: ProjectId|
                !project_hit(old.inputs.modules@, hit, p) ==> #[trigger] new.project_changed_at(p)
                    == old.project_changed_at(p),
    {
        let a = old.inputs;
        let b = new.inputs;
        let revs = old.project_revs@;
        let revs2 = new.project_revs@;
        let c = new.clock;
        let sr = new.structure_rev;
        lemma_bump_facts(a, b, revs, revs2, c, hit);
        assert forall|p: ProjectId| project_rev(revs2, p) != c implies #[trigger] project_converted(
            b,
            p,
        ) == project_converted(a, p) by {
            assert(!project_hit(a.modules@, hit, p));
        }
        lemma_stages_agree(a, b, revs2, c);
        lemma_table_after_bump(new.converted@, sr, revs, revs2, c, converted_on(a), converted_on(b));
        lemma_table_after_bump(new.expanded@, sr, revs, revs2, c, expanded_on(a), expanded_on(b));
        lemma_table_after_bump(new.contractive@, sr, revs, revs2, c, contractive_on(a), contractive_on(b));
        lemma_table_after_bump(new.transitive@, sr, revs, revs2, c, transitive_on(a), transitive_on(b));
        assert(new.wf()) by {
            assert forall|k: u32| #[trigger] revs2.contains_key(k) implies revs2[k] <= c by {
                lemma_bumped(revs, a.modules@, hit, c, a.modules@.len(), k);
            }
        }
        assert forall|stage: Stage, p: ProjectId, m: Seq<char>|
            (project_hit(a.modules@, hit, p) ==> !#[trigger] new.cached(stage, p, m)) && (
            !project_hit(a.modules@, hit, p) ==> new.cached(stage, p, m) == old.cached(
                stage,
                p,
                m,
            )) by {
            lemma_get_after_bump(new.converted@, sr, revs, revs2, c, p, m);
            lemma_get_after_bump(new.expanded@, sr, revs, revs2, c, p, m);
            lemma_get_after_bump(new.contractive@, sr, revs, revs2, c, p, m);
            lemma_get_after_bump(new.transitive@, sr, revs, revs2, c, p, m);
        }
    }

    /// Sets the text of a file. Every parse result that draws on the file
    /// goes stale, and with it what is kept for the projects it bears on.
    pub(crate) fn install_file_text(&mut self, file_id: FileId, text: String)
        requires
            old(self).wf_open(),
        ensures
            final(self).wf_open(),
            final(self).inputs().texts@ == old(self).inputs().texts@.insert(file_id.0, text),
            final(self).inputs().text_revs@ == old(self).inputs().text_revs@.insert(
                file_id.0,
                old(self).clock(),
            ),
            final(self).inputs().roots == old(self).inputs().roots,
            final(self).inputs().file_roots == old(self).inputs().file_roots,
            final(self).inputs().apps == old(self).inputs().apps,
            final(self).inputs().file_apps == old(self).inputs().file_apps,
            final(self).inputs().modules == old(self).inputs().modules,
            final(self).inputs().layout_rev == old(self).inputs().layout_rev,
            final(self).inputs().parsed == old(self).inputs().parsed,
            final(self).inputs().beams == old(self).inputs().beams,
            final(self).revision() == old(self).revision(),
            final(self).clock() == old(self).clock(),
            final(self).recomputations() == old(self).recomputations(),
            final(self).diagnostics_runs() == old(self).diagnostics_runs(),
            forall|g: FileId|
                bears_on(old(self).inputs(), g, file_id) ==> (#[trigger] final(self).inputs().spec_module_ast(g)).is_none(),
            forall|g: FileId|
                !bears_on(old(self).inputs(), g, file_id) ==> #[trigger] final(self).inputs().spec_module_ast(g) == old(self).inputs().spec_module_ast(g),
            forall|stage: Stage, p: ProjectId, m: Seq<char>|
                text_touches(old(self).inputs(), p, file_id) ==> !#[trigger] final(self).cached(
                    stage,
                    p,
                    m,
                ),
            forall|stage: Stage, p: ProjectId, m: Seq<char>|
                !text_touches(old(self).inputs(), p, file_id) ==> #[trigger] final(self).cached(
                    stage,
                    p,
                    m,
                ) == old(self).cached(stage, p, m),
            forall|p: ProjectId|
                !text_touches(old(self).inputs(), p, file_id) ==> #[trigger] final(self).project_changed_at(p) == old(self).project_changed_at(p),
            forall|p: ProjectId|
                text_touches(old(self).inputs(), p, file_id) ==> #[trigger] final(self).project_changed_at(p) == final(self).clock(),
            forall|stage: Stage, p: ProjectId, m: Seq<char>, files: Seq<FileId>|
                old(self).pinned_clear_of(stage, p, m, files) && files.contains(file_id) ==> #[trigger] final(self).pinned_clear_of(stage, p, m, files),
    {
        let ghost a = self.inputs;
        let ghost revs = self.project_revs@;
        let ghost c = self.clock;
        let ghost hit = hit_by_text(a, file_id);
        let ghost arevs = self.ast_revs@;
        bump_for_text(&mut self.project_revs, &mut self.ast_revs, &self.inputs, file_id, self.clock);
        self.inputs.texts.insert(file_id.0, text);
        self.inputs.text_revs.insert(file_id.0, self.clock);
        proof {
            lemma_asts_after_text(a, self.inputs, file_id, c);
            assert forall|i: int|
                0 <= i < a.modules@.len() && !hit(
                    #[trigger] a.modules@[i],
                ) implies self.inputs.spec_module_ast(a.modules@[i].file_id) == a.spec_module_ast(
                a.modules@[i].file_id,
            ) by {}
            lemma_pins_after_bump(
                self.pinned@,
                self.structure_rev,
                arevs,
                self.ast_revs@,
                a,
                self.inputs,
                hit,
                c,
            );
            lemma_pins_fresh_after_bump(self.pinned@, self.structure_rev, arevs, a.modules@, hit, c);
            Self::lemma_bumped_store(*old(self), *self, hit);
            assert(reads_alike(a, self.inputs, file_id)) by {
                assert(self.inputs.parsed@ == a.parsed@);
            }
            assert forall|stage: Stage, p: ProjectId, m: Seq<char>, files: Seq<FileId>|
                old(self).pinned_clear_of(stage, p, m, files) && files.contains(
                    file_id,
                ) implies #[trigger] self.pinned_clear_of(stage, p, m, files) by {
                lemma_clear_pin_survives(
                    self.pinned@,
                    self.structure_rev,
                    arevs,
                    self.ast_revs@,
                    a,
                    self.inputs,
                    hit,
                    file_id,
                    stage,
                    p,
                    m,
                    files,
                );
            }
        }
    }

    /// Takes in what the parser made of a file. The work must have begun at
    /// the present revision; else it is turned away and nothing changes.
    pub fn supply_parse(
        &mut self,
        started_at: u64,
        file_id: FileId,
        includes: Vec<FileId>,
        result: ParseResult,
    ) -> (r: Result<(), Cancelled>)
        requires
            old(self).wf(),
            old(self).clock() < u64::MAX,
        ensures
            final(self).wf(),
            r.is_err() == (started_at != old(self).revision()),
            r.is_err() ==> *final(self) == *old(self),
            r.is_ok() ==> {
                &&& final(self).inputs().parsed@ == old(self).inputs().parsed@.insert(
                    file_id.0,
                    ParsedFile { stamp: final(self).clock(), includes, result },
                )
                &&& final(self).inputs().spec_module_ast(file_id) == Some(result)
                &&& forall|g: FileId|
                    g != file_id ==> #[trigger] final(self).inputs().spec_module_ast(g) == old(self).inputs().spec_module_ast(g)
                &&& final(self).inputs().roots == old(self).inputs().roots
                &&& final(self).inputs().file_roots == old(self).inputs().file_roots
                &&& final(self).inputs().texts == old(self).inputs().texts
                &&& final(self).inputs().text_revs == old(self).inputs().text_revs
                &&& final(self).inputs().apps == old(self).inputs().apps
                &&& final(self).inputs().file_apps == old(self).inputs().file_apps
                &&& final(self).inputs().modules == old(self).inputs().modules
                &&& final(self).inputs().beams == old(self).inputs().beams
                &&& final(self).inputs().layout_rev == old(self).inputs().layout_rev
                &&& final(self).revision() == old(self).revision()
                &&& final(self).clock() == old(self).clock() + 1
                &&& final(self).recomputations() == old(self).recomputations()
                &&& final(self).diagnostics_runs() == old(self).diagnostics_runs()
                &&& forall|stage: Stage, p: ProjectId, m: Seq<char>|
                    holds_file(old(self).inputs(), p, file_id) ==> !#[trigger] final(self).cached(
                        stage,
                        p,
                        m,
                    )
                &&& forall|stage: Stage, p: ProjectId, m: Seq<char>|
                    !holds_file(old(self).inputs(), p, file_id) ==> #[trigger] final(self).cached(
                        stage,
                        p,
                        m,
                    ) == old(self).cached(stage, p, m)
                &&& forall|stage: Stage, p: ProjectId, m: Seq<char>, files: Seq<FileId>|
                    old(self).pinned_clear_of(stage, p, m, files) && files.contains(file_id)
                        ==> #[trigger] final(self).pinned_clear_of(stage, p, m, files)
            },
    {
        if self.revision != started_at {
            return Err(Cancelled);
        }
        let ghost a = self.inputs;
        let ghost revs = self.project_revs@;
        let ghost hit = hit_by_file(file_id);
        let ghost arevs = self.ast_revs@;
        self.clock = self.clock + 1;
        let ghost c = self.clock;
        bump_for_file(&mut self.project_revs, &mut self.ast_revs, &self.inputs, file_id, self.clock);
        self.inputs.parsed.insert(file_id.0, ParsedFile { stamp: self.clock, includes, result });
        proof {
            let b = self.inputs;
            lemma_pins_tick(self.pinned@, self.structure_rev, arevs, a, old(self).clock, c);
            assert forall|g: FileId| g != file_id implies #[trigger] b.spec_module_ast(g)
                == a.spec_module_ast(g) by {
                assert(g.0 != file_id.0);
            }
            assert(b.spec_fresh(file_id, b.parsed@[file_id.0]));
            assert forall|i: int|
                0 <= i < a.modules@.len() && !hit(#[trigger] a.modules@[i]) implies b.spec_module_ast(
                a.modules@[i].file_id,
            ) == a.spec_module_ast(a.modules@[i].file_id) by {}
            lemma_pins_after_bump(self.pinned@, self.structure_rev, arevs, self.ast_revs@, a, b, hit, c);
            lemma_pins_fresh_after_bump(self.pinned@, self.structure_rev, arevs, a.modules@, hit, c);
            Self::lemma_bumped_store(*old(self), *self, hit);
            assert(reads_alike(a, b, file_id)) by {
                assert forall|g: FileId, f: FileId| g != file_id implies #[trigger] bears_on(b, g, f)
                    == bears_on(a, g, f) by {
                    assert(g.0 != file_id.0);
                }
            }
            assert forall|stage: Stage, p: ProjectId, m: Seq<char>, files: Seq<FileId>|
                old(self).pinned_clear_of(stage, p, m, files) && files.contains(
                    file_id,
                ) implies #[trigger] self.pinned_clear_of(stage, p, m, files) by {
                lemma_clear_pin_survives(
                    self.pinned@,
                    self.structure_rev,
                    arevs,
                    self.ast_revs@,
                    a,
                    b,
                    hit,
                    file_id,
                    stage,
                    p,
                    m,
                    files,
                );
            }
        }
        Ok(())
    }

    /// Takes in the contents of a compiled artifact. The work must have
    /// begun at the present revision; else it is turned away and nothing
    /// changes. Nothing kept stays fresh.
    pub fn supply_beam(&mut self, started_at: u64, path: String, contents: Vec<u8>) -> (r: Result<
        (),
        Cancelled,
    >)
        requires
            old(self).wf(),
            old(self).clock() < u64::MAX,
        ensures
            final(self).wf(),
            r.is_err() == (started_at != old(self).revision()),
            r.is_err() ==> *final(self) == *old(self),
            r.is_ok() ==> {
                &&& final(self).inputs().beams@ == old(self).inputs().beams@.insert(
                    0,
                    BeamFile { path, contents },
                )
                &&& final(self).inputs().spec_beam(path@) == Some(contents@)
                &&& final(self).inputs().roots == old(self).inputs().roots
                &&& final(self).inputs().file_roots == old(self).inputs().file_roots
                &&& final(self).inputs().texts == old(self).inputs().texts
                &&& final(self).inputs().text_revs == old(self).inputs().text_revs
                &&& final(self).inputs().apps == old(self).inputs().apps
                &&& final(self).inputs().file_apps == old(self).inputs().file_apps
                &&& final(self).inputs().modules == old(self).inputs().modules
                &&& final(self).inputs().parsed == old(self).inputs().parsed
                &&& final(self).inputs().layout_rev == old(self).inputs().layout_rev
                &&& final(self).revision() == old(self).revision()
                &&& final(self).clock() == old(self).clock() + 1
                &&& final(self).recomputations() == old(self).recomputations()
                &&& final(self).diagnostics_runs() == old(self).diagnostics_runs()
                &&& forall|stage: Stage, p: ProjectId, m: Seq<char>| !final(self).cached(stage, p, m)
                &&& forall|stage: Stage, p: ProjectId, m: Seq<char>, files: Seq<FileId>|
                    !final(self).pinned_clear_of(stage, p, m, files)
            },
    {
        if self.revision != started_at {
            return Err(Cancelled);
        }
        self.clock = self.clock + 1;
        self.structure_rev = self.clock;
        let ghost entry = BeamFile { path, contents };
        self.inputs.beams.insert(0, BeamFile { path, contents });
        proof {
            lemma_pins_tick(
                self.pinned@,
                old(self).structure_rev,
                self.ast_revs@,
                old(self).inputs,
                old(self).clock,
                self.clock,
            );
            lemma_pins_stale(
                self.pinned@,
                self.ast_revs@,
                old(self).structure_rev,
                old(self).inputs,
                self.inputs,
                self.clock,
            );
            self.lemma_structure_changed();
            lemma_first_where_at(self.inputs.beams@, |b: BeamFile| b.path@ == path@, 0);
        }
        Ok(())
    }

    /// Counts one more run of diagnostics and gives the run its number.
    pub(crate) fn next_diagnostics_run(&mut self) -> (stamp: u64)
        requires
            old(self).wf(),
            old(self).diagnostics_runs() < u64::MAX,
        ensures
            final(self).wf(),
            stamp == old(self).diagnostics_runs() + 1,
            final(self).diagnostics_runs() == stamp,
            final(self).inputs() == old(self).inputs(),
            final(self).revision() == old(self).revision(),
            final(self).clock() == old(self).clock(),
            final(self).recomputations() == old(self).recomputations(),
            forall|stage: Stage, p: ProjectId, m: Seq<char>|
                final(self).cached(stage, p, m) == old(self).cached(stage, p, m),
            forall|stage: Stage, p: ProjectId, m: Seq<char>, files: Seq<FileId>|
                final(self).pinned_clear_of(stage, p, m, files) == old(self).pinned_clear_of(stage, p, m, files),
    {
        self.diagnostics_runs = self.diagnostics_runs + 1;
        self.diagnostics_runs
    }

    pub fn get_diagnostics_runs(&self) -> (n: u64)
        ensures
            n == self.diagnostics_runs(),
    {
        self.diagnostics_runs
    }

    /// Whether the store keeps a fresh result of a stage for a module.
    pub fn is_cached(&self, stage: Stage, project_id: ProjectId, module: &str) -> (kept: bool)
        ensures
            kept == self.cached(stage, project_id, module@),
    {
        match stage {
            Stage::Converted => table_lookup(
                &self.converted,
                self.structure_rev,
                &self.project_revs,
                project_id,
                module,
            ).is_some(),
            Stage::Expanded => table_lookup(
                &self.expanded,
                self.structure_rev,
                &self.project_revs,
                project_id,
                module,
            ).is_some(),
            Stage::Contractive => table_lookup(
                &self.contractive,
                self.structure_rev,
                &self.project_revs,
                project_id,
                module,
            ).is_some(),
            Stage::Transitive => table_lookup(
                &self.transitive,
                self.structure_rev,
                &self.project_revs,
                project_id,
                module,
            ).is_some(),
        }
    }
}

/// Whether no parse result of the files has changed since `stamp`.
fn deps_fresh(revs: &HashMap<u32, u64>, deps: &Vec<FileId>, stamp: u64) -> (ok: bool)
    ensures
        ok == (forall|i: int| 0 <= i < deps@.len() ==> ast_rev(revs@, #[trigger] deps@[i]) <= stamp),
{
    let mut i: usize = 0;
    while i < deps.len()
        invariant
            i <= deps.len(),
            forall|j: int| 0 <= j < i ==> ast_rev(revs@, #[trigger] deps@[j]) <= stamp,
        decreases deps.len() - i,
    {
        let rev: u64 = match revs.get(&deps[i].0) {
            Some(r) => *r,
            None => 0,
        };
        if rev > stamp {
            assert(ast_rev(revs@, deps@[i as int]) > stamp);
            return false;
        }
        i = i + 1;
    }
    true
}

fn pin_lookup(
    table: &Vec<Pinned>,
    structure_rev: u64,
    revs: &HashMap<u32, u64>,
    inputs: &Inputs,
    stage: Stage,
    project_id: ProjectId,
    module: &str,
) -> (at: Option<usize>)
    ensures
        match at {
            Some(i) => i < table@.len() && is_pin_for(
                structure_rev,
                revs@,
                *inputs,
                stage,
                project_id,
                module@,
                Seq::empty(),
            )(table@[i as int]),
            None => first_where(
                table@,
                is_pin_for(structure_rev, revs@, *inputs, stage, project_id, module@, Seq::empty()),
            ).is_none(),
        },
        at.is_some() == first_where(
            table@,
            is_pin_for(structure_rev, revs@, *inputs, stage, project_id, module@, Seq::empty()),
        ).is_some(),
{
    let ghost p = is_pin_for(structure_rev, revs@, *inputs, stage, project_id, module@, Seq::empty());
    let mut i: usize = 0;
    while i < table.len()
        invariant
            i <= table.len(),
            p == is_pin_for(structure_rev, revs@, *inputs, stage, project_id, module@, Seq::empty()),
            forall|j: int| 0 <= j < i ==> !p(#[trigger] table@[j]),
        decreases table.len() - i,
    {
        if kept_is(&table[i].value, stage) && table[i].project_id == project_id && table[i].stamp >= structure_rev && same_text(
            table[i].module.as_str(),
            module,
        ) && deps_fresh(revs, &table[i].deps, table[i].stamp) {
            proof {
                lemma_first_where_at(table@, p, i as int);
            }
            return Some(i);
        }
        i = i + 1;
    }
    proof {
        lemma_first_where_none(table@, p);
    }
    None
}

impl Store {
    /// The stub of the stage kept for a module with its dependencies, if a
    /// fresh one is kept.
    pub(crate) fn pinned_converted(&self, project_id: ProjectId, module: &str) -> (r: Option<
        Result<Arc<AST>, Error>,
    >)
        requires
            self.wf(),
        ensures
            match r {
                Some(v) => self.pinned(Stage::Converted, project_id, module@) && result_view(v)
                    == spec_converted_stub(self.inputs(), project_id, module@),
                None => !self.pinned(Stage::Converted, project_id, module@),
            },
    {
        match pin_lookup(
            &self.pinned,
            self.structure_rev,
            &self.ast_revs,
            &self.inputs,
            Stage::Converted,
            project_id,
            module,
        ) {
            Some(i) => {
                proof {
                    reveal(pins_ok);
                    let e = self.pinned@[i as int];
                    assert(pin_sound(self.inputs, e));
                    assert(framed(self.inputs, self.inputs, e.deps@));
                }
                match &self.pinned[i].value {
                    Kept::Converted(v) => Some(clone_result(v)),
                    _ => {
                        proof {
                            assert(false);
                        }
                        None
                    },
                }
            },
            None => None,
        }
    }

    /// The stub of the stage kept for a module with its dependencies, if a
    /// fresh one is kept.
    pub(crate) fn pinned_expanded(&self, project_id: ProjectId, module: &str) -> (r: Option<
        Result<Arc<ModuleStub>, Error>,
    >)
        requires
            self.wf(),
        ensures
            match r {
                Some(v) => self.pinned(Stage::Expanded, project_id, module@) && result_view(v)
                    == spec_expanded_stub(self.inputs(), project_id, module@),
                None => !self.pinned(Stage::Expanded, project_id, module@),
            },
    {
        match pin_lookup(
            &self.pinned,
            self.structure_rev,
            &self.ast_revs,
            &self.inputs,
            Stage::Expanded,
            project_id,
            module,
        ) {
            Some(i) => {
                proof {
                    reveal(pins_ok);
                    let e = self.pinned@[i as int];
                    assert(pin_sound(self.inputs, e));
                    assert(framed(self.inputs, self.inputs, e.deps@));
                }
                match &self.pinned[i].value {
                    Kept::Expanded(v) => Some(clone_result(v)),
                    _ => {
                        proof {
                            assert(false);
                        }
                        None
                    },
                }
            },
            None => None,
        }
    }

    /// The stub of the stage kept for a module with its dependencies, if a
    /// fresh one is kept.
    pub(crate) fn pinned_contractive(&self, project_id: ProjectId, module: &str) -> (r: Option<
        Result<Arc<VStub>, Error>,
    >)
        requires
            self.wf(),
        ensures
            match r {
                Some(v) => self.pinned(Stage::Contractive, project_id, module@) && result_view(v)
                    == spec_contractive_stub(self.inputs(), project_id, module@),
                None => !self.pinned(Stage::Contractive, project_id, module@),
            },
    {
        match pin_lookup(
            &self.pinned,
            self.structure_rev,
            &self.ast_revs,
            &self.inputs,
            Stage::Contractive,
            project_id,
            module,
        ) {
            Some(i) => {
                proof {
                    reveal(pins_ok);
                    let e = self.pinned@[i as int];
                    assert(pin_sound(self.inputs, e));
                    assert(framed(self.inputs, self.inputs, e.deps@));
                }
                match &self.pinned[i].value {
                    Kept::Contractive(v) => Some(clone_result(v)),
                    _ => {
                        proof {
                            assert(false);
                        }
                        None
                    },
                }
            },
            None => None,
        }
    }

    /// The stub of the stage kept for a module with its dependencies, if a
    /// fresh one is kept.
    pub(crate) fn pinned_transitive(&self, project_id: ProjectId, module: &str) -> (r: Option<
        Result<Arc<ModuleStub>, Error>,
    >)
        requires
            self.wf(),
        ensures
            match r {
                Some(v) => self.pinned(Stage::Transitive, project_id, module@) && result_view(v)
                    == spec_transitive_stub(self.inputs(), project_id, module@),
                None => !self.pinned(Stage::Transitive, project_id, module@),
            },
    {
        match pin_lookup(
            &self.pinned,
            self.structure_rev,
            &self.ast_revs,
            &self.inputs,
            Stage::Transitive,
            project_id,
            module,
        ) {
            Some(i) => {
                proof {
                    reveal(pins_ok);
                    let e = self.pinned@[i as int];
                    assert(pin_sound(self.inputs, e));
                    assert(framed(self.inputs, self.inputs, e.deps@));
                }
                match &self.pinned[i].value {
                    Kept::Transitive(v) => Some(clone_result(v)),
                    _ => {
                        proof {
                            assert(false);
                        }
                        None
                    },
                }
            },
            None => None,
        }
    }

    /// Keeps a stub with the files that it depends on.
    pub(crate) fn pin(&mut self, project_id: ProjectId, module: &str, deps: Vec<FileId>, value: Kept)
        requires
            old(self).wf(),
            module_files(old(self).inputs(), deps@),
            forall|b: Inputs| #[trigger]
                framed(old(self).inputs(), b, deps@) ==> kept_right(b, project_id, module@, value),
        ensures
            final(self).wf(),
            final(self).extends(*old(self)),
            final(self).pinned(kept_stage(value), project_id, module@),
            final(self).recomputations() == old(self).recomputations(),
            forall|files: Seq<FileId>|
                clear_of(old(self).inputs(), deps@, files) ==> #[trigger] final(self).pinned_clear_of(
                    kept_stage(value),
                    project_id,
                    module@,
                    files,
                ),
    {
        let entry = Pinned {
            project_id,
            module: String::from_str(module),
            stamp: self.clock,
            deps,
            value,
        };
        proof {
            lemma_pins_push(
                self.pinned@,
                entry,
                self.structure_rev,
                self.ast_revs@,
                self.inputs,
                self.clock,
            );
        }
        self.pinned.push(entry);
    }

    /// The files that the stub of a stage kept for a module depends on, if a
    /// fresh one is kept: it stays kept through every change of files none
    /// of which bears on one of these.
    pub fn pinned_files(&self, stage: Stage, project_id: ProjectId, module: &str) -> (r: Option<
        Vec<FileId>,
    >)
        ensures
            r.is_some() == self.pinned(stage, project_id, module@),
            match r {
                Some(d) => forall|files: Seq<FileId>|
                    clear_of(self.inputs(), d@, files) ==> #[trigger] self.pinned_clear_of(
                        stage, project_id,
                        module@,
                        files,
                    ),
                None => true,
            },
    {
        match pin_lookup(
            &self.pinned,
            self.structure_rev,
            &self.ast_revs,
            &self.inputs,
            stage,
            project_id,
            module,
        ) {
            Some(i) => {
                let deps = &self.pinned[i].deps;
                let mut d: Vec<FileId> = Vec::new();
                let mut k: usize = 0;
                while k < deps.len()
                    invariant
                        k <= deps.len(),
                        d@ == deps@.take(k as int),
                    decreases deps.len() - k,
                {
                    d.push(deps[k]);
                    proof {
                        assert(deps@.take(k + 1) =~= deps@.take(k as int).push(deps@[k as int]));
                    }
                    k = k + 1;
                }
                proof {
                    assert(deps@.take(deps@.len() as int) =~= deps@);
                    let e = self.pinned@[i as int];
                    assert forall|files: Seq<FileId>|
                        clear_of(self.inputs(), d@, files) implies #[trigger] self.pinned_clear_of(
                        stage, project_id,
                        module@,
                        files,
                    ) by {
                        let q = is_pin_for(
                            self.structure_rev,
                            self.ast_revs@,
                            self.inputs,
                            stage,
                            project_id,
                            module@,
                            files,
                        );
                        assert(q(e));
                        lemma_first_where(self.pinned@, q);
                    }
                }
                Some(d)
            },
            None => None,
        }
    }

    /// Whether the store keeps a fresh stub of a stage with its dependencies.
    pub fn is_pinned(&self, stage: Stage, project_id: ProjectId, module: &str) -> (kept: bool)
        ensures
            kept == self.pinned(stage, project_id, module@),
    {
        pin_lookup(
            &self.pinned,
            self.structure_rev,
            &self.ast_revs,
            &self.inputs,
            stage,
            project_id,
            module,
        ).is_some()
    }
}

} // verus!
