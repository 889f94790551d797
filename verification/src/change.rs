//! A unit of change that can be applied to the store to get its next state.
//! Changes are transactional.

use crate::ids::FileId;
use crate::ids::ProjectId;
use crate::input::AppEntry;
use crate::input::AppStructure;
use crate::input::Inputs;
use crate::input::SourceRoot;
use crate::store::apply_apps;
use crate::store::assign_all;
use crate::store::bears_on;
use crate::store::index_roots;
use crate::store::text_touches;
use crate::store::Stage;
use crate::store::Store;
use vstd::prelude::*;

verus! {

/// A bunch of changes to the inputs, to be committed in one step.
#[derive(Debug)]
pub struct Change {
    pub roots: Option<Vec<SourceRoot>>,
    pub files_changed: Vec<(FileId, Option<String>)>,
    pub app_structure: Option<AppStructure>,
}

/// What a change shows of itself: the fields that are set, and of the
/// changed files only their number, and that only where there are any.
#[derive(Debug, PartialEq, Eq)]
pub struct Shown {
    pub roots: bool,
    pub files_changed: Option<usize>,
    pub app_structure: bool,
}

/// The text that a change gives a file; a change without text blanks the file.
pub open spec fn new_text(change: (FileId, Option<String>)) -> Seq<char> {
    match change.1 {
        Some(t) => t@,
        None => Seq::empty(),
    }
}

/// The text of a file after the first `n` changes: that of the last change
/// to the file, else the text it had.
pub open spec fn text_after(
    before: Option<Seq<char>>,
    changes: Seq<(FileId, Option<String>)>,
    file_id: FileId,
    n: nat,
) -> Option<Seq<char>>
    decreases n,
{
    if n == 0 || n > changes.len() {
        before
    } else if changes[n - 1].0 == file_id {
        Some(new_text(changes[n - 1]))
    } else {
        text_after(before, changes, file_id, (n - 1) as nat)
    }
}

/// The files of the changes, in order.
pub open spec fn changed_files(changes: Seq<(FileId, Option<String>)>) -> Seq<FileId> {
    Seq::new(changes.len(), |i: int| changes[i].0)
}

/// Each of `some` is one of `files`.
pub open spec fn among(some: Seq<FileId>, files: Seq<FileId>) -> bool {
    forall|k: int| 0 <= k < some.len() ==> files.contains(#[trigger] some[k])
}

/// Whether the parse result of `file` draws on one of the first `n` changed files.
pub open spec fn draws_on_change(
    inputs: Inputs,
    changes: Seq<(FileId, Option<String>)>,
    file: FileId,
    n: nat,
) -> bool {
    exists|k: int| 0 <= k < n && k < changes.len() && bears_on(inputs, file, (#[trigger] changes[k]).0)
}

/// Whether one of the first `n` changed files touches a project.
pub open spec fn change_touches(
    inputs: Inputs,
    changes: Seq<(FileId, Option<String>)>,
    project_id: ProjectId,
    n: nat,
) -> bool {
    exists|k: int|
        0 <= k < n && k < changes.len() && text_touches(inputs, project_id, (#[trigger] changes[k]).0)
}

/// Whether `resolved` holds, for each entry and each of its paths, an answer
/// of the resolver to the path.
pub open spec fn answers<F: Fn(&String) -> Option<FileId>>(
    resolve: &F,
    apps: Seq<AppEntry>,
    resolved: Seq<Vec<Option<FileId>>>,
) -> bool {
    &&& resolved.len() == apps.len()
    &&& forall|i: int|
        0 <= i < apps.len() ==> (#[trigger] resolved[i])@.len() == apps[i].applicable_files@.len()
    &&& forall|i: int, j: int|
        0 <= i < apps.len() && 0 <= j < apps[i].applicable_files@.len() ==> resolve.ensures(
            (&apps[i].applicable_files@[j],),
            #[trigger] resolved[i]@[j],
        )
}

/// What a committed change has made of the store. The revision has advanced
/// by one. Source roots, where the change has any, are installed whole, and
/// their files entered into the index of files. The structure of
/// applications, where the change has one, is applied. Each file has the
/// text of the last change to it. A parse result that draws on a changed
/// file is gone, and where roots or structure have changed, so that a file
/// may have another path or application, every parse result is gone; the
/// others stand. Where roots or structure have changed nothing is kept.
/// Else a stub that is kept with its dependencies and clear of a list of
/// files stays so where the changed files are among these, so that it is
/// not computed again; what is kept for a whole project is gone where a
/// changed file touches the project, and is kept for the other projects.
pub open spec fn committed(
    before: Store,
    change: Change,
    resolved: Seq<Vec<Option<FileId>>>,
    after: Store,
) -> bool {
    let a = before.inputs();
    let b = after.inputs();
    let n = change.files_changed@.len();
    &&& after.wf()
    &&& after.revision() == before.revision() + 1
    &&& after.clock() == before.clock() + 1
    &&& after.recomputations() == before.recomputations()
    &&& after.diagnostics_runs() == before.diagnostics_runs()
    &&& match change.roots {
        Some(roots) => b.roots == roots && b.file_roots@ == index_roots(
            a.file_roots@,
            roots@,
            roots@.len(),
        ),
        None => b.roots == a.roots && b.file_roots == a.file_roots,
    }
    &&& match change.app_structure {
        Some(s) => b.apps@ == apply_apps(a.apps@, s.apps@, s.apps@.len()) && b.file_apps@
            == assign_all(a.file_apps@, s.apps@, resolved, s.apps@.len()) && b.modules == s.modules,
        None => b.apps == a.apps && b.file_apps == a.file_apps && b.modules == a.modules,
    }
    &&& b.parsed == a.parsed
    &&& b.beams == a.beams
    &&& forall|f: FileId| #[trigger]
        b.spec_file_text(f) == text_after(a.spec_file_text(f), change.files_changed@, f, n)
    &&& forall|g: FileId|
        (change.roots.is_some() || change.app_structure.is_some() || draws_on_change(
            a,
            change.files_changed@,
            g,
            n,
        )) ==> (#[trigger] b.spec_module_ast(g)).is_none()
    &&& forall|g: FileId|
        !(change.roots.is_some() || change.app_structure.is_some() || draws_on_change(
            a,
            change.files_changed@,
            g,
            n,
        )) ==> #[trigger] b.spec_module_ast(g) == a.spec_module_ast(g)
    &&& forall|stage: Stage, p: ProjectId, m: Seq<char>|
        (change.roots.is_some() || change.app_structure.is_some() || change_touches(
            b,
            change.files_changed@,
            p,
            n,
        )) ==> !#[trigger] after.cached(stage, p, m)
    &&& forall|stage: Stage, p: ProjectId, m: Seq<char>|
        !(change.roots.is_some() || change.app_structure.is_some() || change_touches(
            b,
            change.files_changed@,
            p,
            n,
        )) ==> #[trigger] after.cached(stage, p, m) == before.cached(stage, p, m)
    &&& forall|stage: Stage, p: ProjectId, m: Seq<char>, files: Seq<FileId>|
        !(change.roots.is_some() || change.app_structure.is_some()) && among(
            changed_files(change.files_changed@),
            files,
        ) && before.pinned_clear_of(stage, p, m, files) ==> #[trigger] after.pinned_clear_of(stage, p, m, files)
}

/// Whether a change can be applied: whether the store's clock can advance
/// and the roots can be numbered.
pub open spec fn applicable(db: Store, change: Change) -> bool {
    &&& db.clock() < u64::MAX
    &&& match change.roots {
        Some(roots) => roots@.len() <= u32::MAX,
        None => true,
    }
}

/// A project is touched on two sets of inputs alike, if they have the same
/// modules and parse results.
pub proof fn lemma_touch_same(a: Inputs, b: Inputs, project_id: ProjectId, changed: FileId)
    requires
        a.modules == b.modules,
        a.parsed == b.parsed,
    ensures
        text_touches(a, project_id, changed) == text_touches(b, project_id, changed),
{
    if text_touches(a, project_id, changed) {
        let i = choose|i: int|
            0 <= i < a.modules@.len() && (#[trigger] a.modules@[i]).project_id == project_id
                && crate::store::hit_by_text(a, changed)(a.modules@[i]);
        assert(crate::store::hit_by_text(b, changed)(b.modules@[i]));
    }
    if text_touches(b, project_id, changed) {
        let i = choose|i: int|
            0 <= i < b.modules@.len() && (#[trigger] b.modules@[i]).project_id == project_id
                && crate::store::hit_by_text(b, changed)(b.modules@[i]);
        assert(crate::store::hit_by_text(a, changed)(a.modules@[i]));
    }
}

impl Change {
    pub fn new() -> (change: Change)
        ensures
            change.roots.is_none(),
            change.files_changed@.len() == 0,
            change.app_structure.is_none(),
    {
        Change { roots: None, files_changed: Vec::new(), app_structure: None }
    }

    /// What the change shows of itself, as in a log: no field that is not
    /// set, and no text of a changed file.
    pub fn shown(&self) -> (shown: Shown)
        ensures
            shown.roots == self.roots.is_some(),
            shown.files_changed == (if self.files_changed@.len() == 0 {
                None
            } else {
                Some(self.files_changed@.len() as usize)
            }),
            shown.app_structure == self.app_structure.is_some(),
    {
        Shown {
            roots: self.roots.is_some(),
            files_changed: if self.files_changed.len() == 0 {
                None
            } else {
                Some(self.files_changed.len())
            },
            app_structure: self.app_structure.is_some(),
        }
    }

    /// Stages new source roots; they replace the table of roots whole.
    pub fn set_roots(&mut self, roots: Vec<SourceRoot>)
        ensures
            final(self).roots == Some(roots),
            final(self).files_changed == old(self).files_changed,
            final(self).app_structure == old(self).app_structure,
    {
        self.roots = Some(roots);
    }

    /// Stages a new text for a file; without a text the file is blanked.
    pub fn change_file(&mut self, file_id: FileId, new_text: Option<String>)
        ensures
            final(self).files_changed@ == old(self).files_changed@.push((file_id, new_text)),
            final(self).roots == old(self).roots,
            final(self).app_structure == old(self).app_structure,
    {
        self.files_changed.push((file_id, new_text))
    }

    /// Stages a new structure of applications.
    pub fn set_app_structure(&mut self, a: AppStructure)
        ensures
            final(self).app_structure == Some(a),
            final(self).roots == old(self).roots,
            final(self).files_changed == old(self).files_changed,
    {
        self.app_structure = Some(a);
    }

    /// Says whether the change can be applied to the store.
    pub fn can_apply(&self, db: &Store) -> (ok: bool)
        ensures
            ok == applicable(*db, *self),
    {
        db.can_advance() && match &self.roots {
            Some(roots) => roots.len() <= u32::MAX as usize,
            None => true,
        }
    }

    /// Asks the resolver for the file of each path that the staged
    /// structure assigns to an application.
    pub fn resolve_files<F: Fn(&String) -> Option<FileId>>(&self, resolve_file_id: &F) -> (resolved:
        Vec<Vec<Option<FileId>>>)
        requires
            forall|p: &String| #[trigger] resolve_file_id.requires((p,)),
        ensures
            match self.app_structure {
                Some(s) => answers(resolve_file_id, s.apps@, resolved@),
                None => resolved@.len() == 0,
            },
    {
        let mut resolved: Vec<Vec<Option<FileId>>> = Vec::new();
        match &self.app_structure {
            None => {},
            Some(s) => {
                let mut i: usize = 0;
                while i < s.apps.len()
                    invariant
                        i <= s.apps.len(),
                        resolved@.len() == i,
                        forall|p: &String| #[trigger] resolve_file_id.requires((p,)),
                        forall|k: int|
                            0 <= k < i ==> (#[trigger] resolved@[k])@.len()
                                == s.apps@[k].applicable_files@.len(),
                        forall|k: int, j: int|
                            0 <= k < i && 0 <= j < s.apps@[k].applicable_files@.len()
                                ==> resolve_file_id.ensures(
                                (&s.apps@[k].applicable_files@[j],),
                                #[trigger] resolved@[k]@[j],
                            ),
                    decreases s.apps.len() - i,
                {
                    let paths = &s.apps[i].applicable_files;
                    let mut found: Vec<Option<FileId>> = Vec::new();
                    let mut j: usize = 0;
                    while j < paths.len()
                        invariant
                            j <= paths.len(),
                            found@.len() == j,
                            forall|p: &String| #[trigger] resolve_file_id.requires((p,)),
                            forall|k: int|
                                0 <= k < j ==> resolve_file_id.ensures(
                                    (&paths@[k],),
                                    #[trigger] found@[k],
                                ),
                        decreases paths.len() - j,
                    {
                        let answer = resolve_file_id(&paths[j]);
                        found.push(answer);
                        j = j + 1;
                    }
                    resolved.push(found);
                    i = i + 1;
                }
            },
        }
        resolved
    }

    /// Commits the change, with the answers of the resolver at hand.
    /// Returns the files whose text has changed, in the order of the changes.
    pub fn apply_resolved(self, db: &mut Store, resolved: &Vec<Vec<Option<FileId>>>) -> (changed: Vec<
        FileId,
    >)
        requires
            old(db).wf(),
            applicable(*old(db), self),
            match self.app_structure {
                Some(s) => resolved@.len() == s.apps@.len(),
                None => true,
            },
        ensures
            committed(*old(db), self, resolved@, *final(db)),
            changed@ == changed_files(self.files_changed@),
    {
        let ghost before = *db;
        let ghost a = db.inputs();
        let ghost whole = self.roots.is_some() || self.app_structure.is_some();
        let Change { roots, files_changed, app_structure } = self;
        db.begin_change();
        match roots {
            Some(roots) => {
                db.install_roots(roots);
            },
            None => {},
        }
        match app_structure {
            Some(s) => {
                db.install_structure(s.apps, s.modules, resolved);
            },
            None => {},
        }
        let ghost changes = files_changed@;
        let mut res: Vec<FileId> = Vec::new();
        let mut i: usize = 0;
        proof {
            assert(res@ =~= changed_files(changes).take(0));
        }
        while i < files_changed.len()
            invariant
                i <= files_changed.len(),
                changes == files_changed@,
                db.wf_open(),
                a == before.inputs(),
                db.inputs().parsed == a.parsed,
                db.inputs().beams == a.beams,
                db.revision() == before.revision() + 1,
                db.clock() == before.clock() + 1,
                db.recomputations() == before.recomputations(),
                db.diagnostics_runs() == before.diagnostics_runs(),
                match self.roots {
                    Some(roots) => db.inputs().roots == roots && db.inputs().file_roots@
                        == index_roots(a.file_roots@, roots@, roots@.len()),
                    None => db.inputs().roots == a.roots && db.inputs().file_roots == a.file_roots,
                },
                match self.app_structure {
                    Some(s) => db.inputs().apps@ == apply_apps(a.apps@, s.apps@, s.apps@.len())
                        && db.inputs().file_apps@ == assign_all(
                        a.file_apps@,
                        s.apps@,
                        resolved@,
                        s.apps@.len(),
                    ) && db.inputs().modules == s.modules,
                    None => db.inputs().apps == a.apps && db.inputs().file_apps == a.file_apps
                        && db.inputs().modules == a.modules,
                },
                whole == (self.roots.is_some() || self.app_structure.is_some()),
                forall|f: FileId| #[trigger]
                    db.inputs().spec_file_text(f) == text_after(
                        a.spec_file_text(f),
                        changes,
                        f,
                        i as nat,
                    ),
                forall|g: FileId|
                    (whole || draws_on_change(a, changes, g, i as nat)) ==> (
                    #[trigger] db.inputs().spec_module_ast(g)).is_none(),
                forall|g: FileId|
                    !(whole || draws_on_change(a, changes, g, i as nat))
                        ==> #[trigger] db.inputs().spec_module_ast(g) == a.spec_module_ast(g),
                forall|stage: Stage, p: ProjectId, m: Seq<char>|
                    (whole || change_touches(db.inputs(), changes, p, i as nat)) ==> !#[trigger] db.cached(
                        stage,
                        p,
                        m,
                    ),
                forall|stage: Stage, p: ProjectId, m: Seq<char>|
                    !(whole || change_touches(db.inputs(), changes, p, i as nat))
                        ==> #[trigger] db.cached(stage, p, m) == before.cached(stage, p, m),
                res@ == changed_files(changes).take(i as int),
                forall|stage: Stage, p: ProjectId, m: Seq<char>, files: Seq<FileId>|
                    !whole && among(changed_files(changes), files) && before.pinned_clear_of(
                        stage, p,
                        m,
                        files,
                    ) ==> #[trigger] db.pinned_clear_of(stage, p, m, files),
            decreases files_changed.len() - i,
        {
            let ghost cur = db.inputs();
            let ghost mid = *db;
            let file_id = files_changed[i].0;
            // a file cannot be removed, only blanked
            let text = match &files_changed[i].1 {
                Some(t) => t.clone(),
                None => String::new(),
            };
            let ghost tv = text@;
            proof {
                assert(changed_files(changes)[i as int] == file_id);
                assert(changes[i as int].0 == file_id);
                assert(tv == new_text(changes[i as int]));
            }
            db.install_file_text(file_id, text);
            res.push(file_id);
            proof {
                let now = db.inputs();
                assert(res@ =~= changed_files(changes).take(i + 1));
                assert forall|f: FileId| #[trigger]
                    now.spec_file_text(f) == text_after(
                        a.spec_file_text(f),
                        changes,
                        f,
                        (i + 1) as nat,
                    ) by {
                    if f != file_id {
                        assert(f.0 != file_id.0);
                        assert(now.spec_file_text(f) == cur.spec_file_text(f));
                    } else {
                        assert(now.spec_file_text(f) == Some(tv));
                    }
                }
                assert forall|g: FileId|
                    ((whole || draws_on_change(a, changes, g, (i + 1) as nat)) ==> (
                    #[trigger] now.spec_module_ast(g)).is_none()) && (!(whole || draws_on_change(
                        a,
                        changes,
                        g,
                        (i + 1) as nat,
                    )) ==> now.spec_module_ast(g) == a.spec_module_ast(g)) by {
                    assert(bears_on(cur, g, file_id) == bears_on(a, g, changes[i as int].0));
                    if draws_on_change(a, changes, g, (i + 1) as nat) {
                        let k = choose|k: int|
                            0 <= k < i + 1 && k < changes.len() && bears_on(
                                a,
                                g,
                                (#[trigger] changes[k]).0,
                            );
                        if k < i {
                            assert(draws_on_change(a, changes, g, i as nat));
                            assert(cur.spec_module_ast(g).is_none());
                            if !bears_on(cur, g, file_id) {
                                assert(now.spec_module_ast(g) == cur.spec_module_ast(g));
                            }
                        }
                    } else {
                        assert(!bears_on(a, g, changes[i as int].0));
                        if draws_on_change(a, changes, g, i as nat) {
                            let k = choose|k: int|
                                0 <= k < i && k < changes.len() && bears_on(
                                    a,
                                    g,
                                    (#[trigger] changes[k]).0,
                                );
                            assert(0 <= k < i + 1 && bears_on(a, g, changes[k].0));
                        }
                    }
                }
                assert forall|stage: Stage, p: ProjectId, m: Seq<char>|
                    ((whole || change_touches(now, changes, p, (i + 1) as nat)) ==> !#[trigger] db.cached(
                        stage,
                        p,
                        m,
                    )) && (!(whole || change_touches(now, changes, p, (i + 1) as nat)) ==> db.cached(
                        stage,
                        p,
                        m,
                    ) == before.cached(stage, p, m)) by {
                    lemma_touch_same(cur, now, p, file_id);
                    assert(changes[i as int].0 == file_id);
                    if change_touches(now, changes, p, (i + 1) as nat) {
                        let k = choose|k: int|
                            0 <= k < i + 1 && k < changes.len() && text_touches(
                                now,
                                p,
                                (#[trigger] changes[k]).0,
                            );
                        lemma_touch_same(cur, now, p, changes[k].0);
                        if k < i {
                            assert(change_touches(cur, changes, p, i as nat));
                        }
                    } else {
                        if change_touches(cur, changes, p, i as nat) {
                            let k = choose|k: int|
                                0 <= k < i && k < changes.len() && text_touches(
                                    cur,
                                    p,
                                    (#[trigger] changes[k]).0,
                                );
                            lemma_touch_same(cur, now, p, changes[k].0);
                            assert(0 <= k < i + 1 && text_touches(now, p, changes[k].0));
                        }
                        assert(!text_touches(now, p, changes[i as int].0));
                    }
                }
            }
            i = i + 1;
        }
        proof {
            db.lemma_open_is_wf();
            assert(changed_files(changes).take(changes.len() as int) =~= changed_files(changes));
        }
        res
    }

    /// Commits the change in one step: first the source roots and the index
    /// of their files, then the structure of applications, for which the
    /// resolver says to which file a path belongs, then the texts. Returns
    /// the files whose text has changed, in the order of the changes.
    pub fn apply<F: Fn(&String) -> Option<FileId>>(self, db: &mut Store, resolve_file_id: &F) -> (changed:
        Vec<FileId>)
        requires
            old(db).wf(),
            applicable(*old(db), self),
            forall|p: &String| #[trigger] resolve_file_id.requires((p,)),
        ensures
            exists|resolved: Seq<Vec<Option<FileId>>>|
                {
                    &&& match self.app_structure {
                        Some(s) => answers(resolve_file_id, s.apps@, resolved),
                        None => true,
                    }
                    &&& #[trigger] committed(*old(db), self, resolved, *final(db))
                },
            changed@ == changed_files(self.files_changed@),
    {
        let resolved = self.resolve_files(resolve_file_id);
        let changed = self.apply_resolved(db, &resolved);
        proof {
            assert(committed(*old(db), self, resolved@, *db));
        }
        changed
    }
}

} // verus!
