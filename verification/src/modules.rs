//! Module resolution: the files that `import "path.ferro";` brings in, read
//! depth first and merged into one program.
//!
//! The resolver decides; its caller finds, canonicalizes and reads files.
//! `next_import` names the next import to follow, `enter` says whether the
//! file it leads to is new, `add_module` takes the parsed file, and `finish`
//! gives the merged program once `next_import` has nothing left.

use vstd::prelude::*;
use crate::ast::{ComptimeDef, EnumDef, Function, ImportDecl, Program, StructDef};
use crate::error::{CompileError, Span};
use crate::lexer::{error_is, lemma_lex_from_shape, lex_from, lexes_to, token_is, Lexer};
use crate::parser::grammar::{empty_sprogram, outcome_as, pprogram, program_view, Parsed};
use crate::parser::Parser;
use crate::text::{push_str, str_is, string_of};

verus! {

/// Which module an item comes from and whether it is private.
#[derive(Debug)]
pub struct ModuleItem {
    pub module_file: String,
    pub is_private: bool,
}

/// An import to follow: the directory of the file that names it, the path it
/// names, and where it stands.
pub struct ImportRequest {
    pub dir: String,
    pub path: String,
    pub span: Span,
}

/// A module whose imports are being followed: the directory its imports are
/// relative to, its imports with the index of the next one, and its items.
struct Pending {
    dir: String,
    imports: Vec<ImportDecl>,
    next: usize,
    functions: Vec<Function>,
    enums: Vec<EnumDef>,
    structs: Vec<StructDef>,
    comptimes: Vec<ComptimeDef>,
}

/// A module being resolved, as the specifications see it.
pub struct Frame {
    pub dir: Seq<char>,
    pub imports: Seq<ImportDecl>,
    pub next: nat,
    pub functions: Seq<Function>,
    pub enums: Seq<EnumDef>,
    pub structs: Seq<StructDef>,
    pub comptimes: Seq<ComptimeDef>,
}

/// What has been merged so far: the items in order, and the name and
/// privacy of every item that came from an imported file.
pub struct Merged {
    pub functions: Seq<Function>,
    pub enums: Seq<EnumDef>,
    pub structs: Seq<StructDef>,
    pub comptimes: Seq<ComptimeDef>,
    pub privates: Seq<(Seq<char>, bool)>,
}

impl Pending {
    spec fn frame(&self) -> Frame {
        Frame {
            dir: self.dir@,
            imports: self.imports@,
            next: self.next as nat,
            functions: self.functions@,
            enums: self.enums@,
            structs: self.structs@,
            comptimes: self.comptimes@,
        }
    }
}

/// A module parsed from a file in `dir`, none of its imports followed yet.
pub open spec fn frame_of(dir: Seq<char>, p: Program) -> Frame {
    Frame {
        dir,
        imports: p.imports@,
        next: 0,
        functions: p.functions@,
        enums: p.enums@,
        structs: p.structs@,
        comptimes: p.comptimes@,
    }
}

/// Nothing merged.
pub open spec fn empty_merged() -> Merged {
    Merged {
        functions: Seq::empty(),
        enums: Seq::empty(),
        structs: Seq::empty(),
        comptimes: Seq::empty(),
        privates: Seq::empty(),
    }
}

/// The name and privacy of every item of a module: its functions, enums,
/// structs and comptime constants, in that order.
pub open spec fn module_privates(f: Frame) -> Seq<(Seq<char>, bool)> {
    f.functions.map_values(|x: Function| (x.name@, x.is_private)) + f.enums.map_values(
        |x: EnumDef| (x.name@, x.is_private),
    ) + f.structs.map_values(|x: StructDef| (x.name@, x.is_private)) + f.comptimes.map_values(
        |x: ComptimeDef| (x.name@, x.is_private),
    )
}

/// A module's items added after what was merged; an imported module's
/// items are also recorded with their privacy.
pub open spec fn flush(m: Merged, f: Frame, imported: bool) -> Merged {
    Merged {
        functions: m.functions + f.functions,
        enums: m.enums + f.enums,
        structs: m.structs + f.structs,
        comptimes: m.comptimes + f.comptimes,
        privates: if imported { m.privates + module_privates(f) } else { m.privates },
    }
}

/// The next import to follow, depth first: the next import of the module
/// on top, whose index moves on; a module with none left is merged (the
/// bottom one, the main module, without recording its items as imported)
/// and the search goes on below it.
pub open spec fn unwind(frames: Seq<Frame>, m: Merged) -> (Seq<Frame>, Merged, Option<(Seq<char>, ImportDecl)>)
    decreases frames.len(),
{
    if frames.len() == 0 {
        (frames, m, None)
    } else {
        let top = frames.last();
        if top.next < top.imports.len() {
            (
                frames.update(frames.len() - 1, Frame { next: top.next + 1, ..top }),
                m,
                Some((top.dir, top.imports[top.next as int])),
            )
        } else {
            unwind(frames.drop_last(), flush(m, top, frames.len() > 1))
        }
    }
}

/// The items of modules whose imports are all followed, the top one's
/// first and the bottom one's last, as `items` picks them from a module.
pub open spec fn items_top_down<T>(frames: Seq<Frame>, items: spec_fn(Frame) -> Seq<T>) -> Seq<T>
    decreases frames.len(),
{
    if frames.len() == 0 {
        Seq::empty()
    } else {
        items(frames.last()) + items_top_down(frames.drop_last(), items)
    }
}

/// Merging loses no item: once every module on the stack has had all its
/// imports followed, unwinding merges each module's functions, enums,
/// structs and comptime constants, imported modules and the main module
/// alike, after what was merged before, the module on top first.
pub proof fn lemma_unwind_keeps_items(frames: Seq<Frame>, m: Merged)
    requires
        forall|k: int| 0 <= k < frames.len() ==> (#[trigger] frames[k]).next >= frames[k].imports.len(),
    ensures
        unwind(frames, m).1.functions == m.functions + items_top_down(frames, |f: Frame| f.functions),
        unwind(frames, m).1.enums == m.enums + items_top_down(frames, |f: Frame| f.enums),
        unwind(frames, m).1.structs == m.structs + items_top_down(frames, |f: Frame| f.structs),
        unwind(frames, m).1.comptimes == m.comptimes + items_top_down(frames, |f: Frame| f.comptimes),
        unwind(frames, m).0.len() == 0,
        unwind(frames, m).2 is None,
    decreases frames.len(),
{
    if frames.len() > 0 {
        let top = frames.last();
        let m2 = Merged {
            functions: m.functions + top.functions,
            enums: m.enums + top.enums,
            structs: m.structs + top.structs,
            comptimes: m.comptimes + top.comptimes,
            privates: flush(m, top, frames.len() > 1).privates,
        };
        assert(flush(m, top, frames.len() > 1) == m2);
        assert(frames.last() == frames[frames.len() - 1]);
        lemma_unwind_keeps_items(frames.drop_last(), m2);
        assert(m2.functions + items_top_down(frames.drop_last(), |f: Frame| f.functions) =~= m.functions
            + items_top_down(frames, |f: Frame| f.functions));
        assert(m2.enums + items_top_down(frames.drop_last(), |f: Frame| f.enums) =~= m.enums + items_top_down(
            frames,
            |f: Frame| f.enums,
        ));
        assert(m2.structs + items_top_down(frames.drop_last(), |f: Frame| f.structs) =~= m.structs
            + items_top_down(frames, |f: Frame| f.structs));
        assert(m2.comptimes + items_top_down(frames.drop_last(), |f: Frame| f.comptimes) =~= m.comptimes
            + items_top_down(frames, |f: Frame| f.comptimes));
    }
}

/// The names and privacy of recorded items.
pub open spec fn private_views(v: Seq<(String, bool)>) -> Seq<(Seq<char>, bool)> {
    v.map_values(|p: (String, bool)| (p.0@, p.1))
}

/// No path occurs twice.
pub open spec fn distinct(s: Seq<Seq<char>>) -> bool {
    forall|i: int, j: int| 0 <= i < j < s.len() ==> s[i] != s[j]
}

/// The state of resolving the imports of a main file.
pub struct ImportResolver {
    visited: Vec<String>,
    pending: Vec<Pending>,
    functions: Vec<Function>,
    enums: Vec<EnumDef>,
    structs: Vec<StructDef>,
    comptimes: Vec<ComptimeDef>,
    imported_privates: Vec<(String, bool)>,
}

impl ImportResolver {
    /// The canonical paths of the files read so far, the main file first.
    pub closed spec fn visited(&self) -> Seq<Seq<char>> {
        self.visited@.map_values(|s: String| s@)
    }

    /// The modules being resolved, the main module at the bottom.
    pub closed spec fn frames(&self) -> Seq<Frame> {
        self.pending@.map_values(|p: Pending| p.frame())
    }

    /// What has been merged.
    pub closed spec fn merged(&self) -> Merged {
        Merged {
            functions: self.functions@,
            enums: self.enums@,
            structs: self.structs@,
            comptimes: self.comptimes@,
            privates: private_views(self.imported_privates@),
        }
    }

    /// No file is visited twice, and no module's next import lies past its
    /// imports.
    pub closed spec fn wf(&self) -> bool {
        &&& distinct(self.visited())
        &&& forall|i: int| 0 <= i < self.pending@.len() ==> (#[trigger] self.pending@[i]).next <= self.pending@[i].imports@.len()
    }

    /// Start with the main file (its canonical path and its directory) and
    /// its parsed program.
    pub fn start(main_canonical: &str, main_dir: &str, main: Program) -> (r: Self)
        ensures
            r.wf(),
            r.visited() == seq![main_canonical@],
            r.frames() == seq![frame_of(main_dir@, main)],
            r.merged() == empty_merged(),
    {
        let mut visited: Vec<String> = Vec::new();
        visited.push(string_of(main_canonical));
        let Program { imports, functions, enums, structs, comptimes } = main;
        let mut pending: Vec<Pending> = Vec::new();
        pending.push(Pending { dir: string_of(main_dir), imports, next: 0, functions, enums, structs, comptimes });
        let r = ImportResolver {
            visited,
            pending,
            functions: Vec::new(),
            enums: Vec::new(),
            structs: Vec::new(),
            comptimes: Vec::new(),
            imported_privates: Vec::new(),
        };
        assert(r.visited() =~= seq![main_canonical@]);
        assert(r.frames() =~= seq![frame_of(main_dir@, main)]);
        assert(r.merged().privates =~= Seq::<(Seq<char>, bool)>::empty());
        r
    }

    /// Whether the file with this canonical path is read for the first time;
    /// if so it is now visited. A file imported again, also through a cycle,
    /// is passed over.
    pub fn enter(&mut self, canonical: &str) -> (fresh: bool)
        requires
            old(self).wf(),
        ensures
            final(self).wf(),
            fresh == !old(self).visited().contains(canonical@),
            final(self).visited() == if fresh {
                old(self).visited().push(canonical@)
            } else {
                old(self).visited()
            },
            final(self).frames() == old(self).frames(),
            final(self).merged() == old(self).merged(),
    {
        let mut i: usize = 0;
        while i < self.visited.len()
            invariant
                self.wf(),
                i <= self.visited@.len(),
                forall|j: int| 0 <= j < i ==> self.visited()[j] != canonical@,
            decreases self.visited@.len() - i,
        {
            if str_is(&self.visited[i], canonical) {
                assert(self.visited()[i as int] == canonical@);
                return false;
            }
            i += 1;
        }
        assert(!self.visited().contains(canonical@)) by {
            if self.visited().contains(canonical@) {
                let k = choose|k: int| 0 <= k < self.visited().len() && self.visited()[k] == canonical@;
                assert(self.visited()[k] != canonical@);
            }
        }
        let ghost before = self.visited();
        self.visited.push(string_of(canonical));
        assert(self.visited() =~= before.push(canonical@));
        true
    }

    /// The next import to follow, merging every module on top whose imports
    /// are all followed; `None` when the main module is merged too.
    pub fn next_import(&mut self) -> (r: Option<ImportRequest>)
        requires
            old(self).wf(),
        ensures
            final(self).wf(),
            final(self).visited() == old(self).visited(),
            ({
                let (frames, merged, next) = unwind(old(self).frames(), old(self).merged());
                &&& final(self).frames() == frames
                &&& final(self).merged() == merged
                &&& match (r, next) {
                    (Some(q), Some((dir, decl))) => q.dir@ == dir && q.path@ == decl.path@ && q.span == decl.span,
                    (None, None) => true,
                    _ => false,
                }
            }),
    {
        loop
            invariant
                self.wf(),
                self.visited() == old(self).visited(),
                unwind(self.frames(), self.merged()) == unwind(old(self).frames(), old(self).merged()),
            decreases self.pending@.len(),
        {
            let n = self.pending.len();
            if n == 0 {
                return None;
            }
            let ghost frames = self.frames();
            let ghost merged = self.merged();
            let ghost ps = self.pending@;
            let mut top = self.pending.pop().unwrap();
            assert(frames.last() == top.frame());
            assert(self.frames() =~= frames.drop_last());
            if top.next < top.imports.len() {
                let decl = &top.imports[top.next];
                let q = ImportRequest { dir: string_of(top.dir.as_str()), path: string_of(decl.path.as_str()), span: decl.span };
                top.next = top.next + 1;
                self.pending.push(top);
                assert(self.pending@ =~= ps.drop_last().push(top));
                assert(self.frames() =~= frames.update(frames.len() - 1, Frame { next: frames.last().next + 1, ..frames.last() }));
                assert(self.wf()) by {
                    assert forall|i: int| 0 <= i < self.pending@.len() implies (#[trigger] self.pending@[i]).next
                        <= self.pending@[i].imports@.len() by {
                        if i < n - 1 {
                            assert(self.pending@[i] == ps[i]);
                        }
                    }
                }
                return Some(q);
            }
            assert(self.pending@ =~= ps.drop_last());
            self.merge(top, n > 1);
            assert(self.frames() =~= frames.drop_last());
        }
    }

    /// Take an imported file, parsed, whose imports are relative to `dir`:
    /// its imports are followed next, before its items are merged.
    pub fn add_module(&mut self, dir: &str, program: Program)
        requires
            old(self).wf(),
        ensures
            final(self).wf(),
            final(self).visited() == old(self).visited(),
            final(self).frames() == old(self).frames().push(frame_of(dir@, program)),
            final(self).merged() == old(self).merged(),
    {
        let ghost frames = self.frames();
        let Program { imports, functions, enums, structs, comptimes } = program;
        self.pending.push(Pending { dir: string_of(dir), imports, next: 0, functions, enums, structs, comptimes });
        assert(self.frames() =~= frames.push(frame_of(dir@, program)));
    }

    /// The merged program, with no imports left, and the name and privacy
    /// of every item that came from an imported file; once every module is
    /// merged.
    pub fn finish(self) -> (r: (Program, Vec<(String, bool)>))
        requires
            self.frames().len() == 0,
        ensures
            r.0.imports@.len() == 0,
            r.0.functions@ == self.merged().functions,
            r.0.enums@ == self.merged().enums,
            r.0.structs@ == self.merged().structs,
            r.0.comptimes@ == self.merged().comptimes,
            private_views(r.1@) == self.merged().privates,
    {
        let ImportResolver { visited: _, pending: _, functions, enums, structs, comptimes, imported_privates } = self;
        (Program { imports: Vec::new(), functions, enums, structs, comptimes }, imported_privates)
    }

    /// Add a module's items to what was merged (recording them as imported
    /// when they come from an imported file).
    fn merge(&mut self, f: Pending, imported: bool)
        ensures
            final(self).visited() == old(self).visited(),
            final(self).pending@ == old(self).pending@,
            final(self).merged() == flush(old(self).merged(), f.frame(), imported),
            final(self).merged().functions == old(self).merged().functions + f.functions@,
            final(self).merged().enums == old(self).merged().enums + f.enums@,
            final(self).merged().structs == old(self).merged().structs + f.structs@,
            final(self).merged().comptimes == old(self).merged().comptimes + f.comptimes@,
            !imported ==> final(self).merged().privates == old(self).merged().privates,
            imported ==> final(self).merged().privates.len() == old(self).merged().privates.len() + f.functions@.len()
                + f.enums@.len() + f.structs@.len() + f.comptimes@.len(),
            imported ==> forall|j: int| 0 <= j < old(self).merged().privates.len() ==> final(self).merged().privates[j] == old(self).merged().privates[j],
            imported ==> forall|j: int|
                0 <= j < f.functions@.len() ==> final(self).merged().privates.contains(
                    ((#[trigger] f.functions@[j]).name@, f.functions@[j].is_private),
                ),
            imported ==> forall|j: int|
                0 <= j < f.enums@.len() ==> final(self).merged().privates.contains(
                    ((#[trigger] f.enums@[j]).name@, f.enums@[j].is_private),
                ),
            imported ==> forall|j: int|
                0 <= j < f.structs@.len() ==> final(self).merged().privates.contains(
                    ((#[trigger] f.structs@[j]).name@, f.structs@[j].is_private),
                ),
            imported ==> forall|j: int|
                0 <= j < f.comptimes@.len() ==> final(self).merged().privates.contains(
                    ((#[trigger] f.comptimes@[j]).name@, f.comptimes@[j].is_private),
                ),
    {
        let ghost fr = f.frame();
        let mut f = f;
        if imported {
            track_functions(&mut self.imported_privates, &f.functions);
            track_enums(&mut self.imported_privates, &f.enums);
            track_structs(&mut self.imported_privates, &f.structs);
            track_comptimes(&mut self.imported_privates, &f.comptimes);
            assert(private_views(self.imported_privates@) =~= private_views(old(self).imported_privates@)
                + module_privates(fr));
        }
        self.functions.append(&mut f.functions);
        self.enums.append(&mut f.enums);
        self.structs.append(&mut f.structs);
        self.comptimes.append(&mut f.comptimes);
        assert(self.merged() =~= flush(old(self).merged(), fr, imported));
        proof {
            if imported {
                let o = old(self).merged().privates;
                let fs = fr.functions.map_values(|x: Function| (x.name@, x.is_private));
                let es = fr.enums.map_values(|x: EnumDef| (x.name@, x.is_private));
                let ss = fr.structs.map_values(|x: StructDef| (x.name@, x.is_private));
                let cs = fr.comptimes.map_values(|x: ComptimeDef| (x.name@, x.is_private));
                let n = self.merged().privates;
                assert(n == o + (fs + es + ss + cs));
                assert forall|j: int| 0 <= j < fr.functions.len() implies n.contains(
                    ((#[trigger] fr.functions[j]).name@, fr.functions[j].is_private),
                ) by {
                    assert(n[o.len() + j] == fs[j]);
                }
                assert forall|j: int| 0 <= j < fr.enums.len() implies n.contains(
                    ((#[trigger] fr.enums[j]).name@, fr.enums[j].is_private),
                ) by {
                    assert(n[o.len() + fs.len() + j] == es[j]);
                }
                assert forall|j: int| 0 <= j < fr.structs.len() implies n.contains(
                    ((#[trigger] fr.structs[j]).name@, fr.structs[j].is_private),
                ) by {
                    assert(n[o.len() + fs.len() + es.len() + j] == ss[j]);
                }
                assert forall|j: int| 0 <= j < fr.comptimes.len() implies n.contains(
                    ((#[trigger] fr.comptimes[j]).name@, fr.comptimes[j].is_private),
                ) by {
                    assert(n[o.len() + fs.len() + es.len() + ss.len() + j] == cs[j]);
                }
            }
        }
    }
}

/// Record the name and privacy of each function.
fn track_functions(out: &mut Vec<(String, bool)>, v: &Vec<Function>)
    ensures
        private_views(final(out)@) == private_views(old(out)@) + v@.map_values(|x: Function| (x.name@, x.is_private)),
{
    let mut i: usize = 0;
    while i < v.len()
        invariant
            i <= v@.len(),
            private_views(out@) == private_views(old(out)@) + v@.take(i as int).map_values(
                |x: Function| (x.name@, x.is_private),
            ),
        decreases v@.len() - i,
    {
        let ghost before = out@;
        out.push((string_of(v[i].name.as_str()), v[i].is_private));
        assert(private_views(out@) =~= private_views(before).push((v@[i as int].name@, v@[i as int].is_private)));
        assert(v@.take(i + 1).map_values(|x: Function| (x.name@, x.is_private)) =~= v@.take(i as int).map_values(
            |x: Function| (x.name@, x.is_private),
        ).push((v@[i as int].name@, v@[i as int].is_private)));
        i += 1;
    }
    assert(v@.take(i as int) =~= v@);
}

/// Record the name and privacy of each enum.
fn track_enums(out: &mut Vec<(String, bool)>, v: &Vec<EnumDef>)
    ensures
        private_views(final(out)@) == private_views(old(out)@) + v@.map_values(|x: EnumDef| (x.name@, x.is_private)),
{
    let mut i: usize = 0;
    while i < v.len()
        invariant
            i <= v@.len(),
            private_views(out@) == private_views(old(out)@) + v@.take(i as int).map_values(
                |x: EnumDef| (x.name@, x.is_private),
            ),
        decreases v@.len() - i,
    {
        let ghost before = out@;
        out.push((string_of(v[i].name.as_str()), v[i].is_private));
        assert(private_views(out@) =~= private_views(before).push((v@[i as int].name@, v@[i as int].is_private)));
        assert(v@.take(i + 1).map_values(|x: EnumDef| (x.name@, x.is_private)) =~= v@.take(i as int).map_values(
            |x: EnumDef| (x.name@, x.is_private),
        ).push((v@[i as int].name@, v@[i as int].is_private)));
        i += 1;
    }
    assert(v@.take(i as int) =~= v@);
}

/// Record the name and privacy of each struct.
fn track_structs(out: &mut Vec<(String, bool)>, v: &Vec<StructDef>)
    ensures
        private_views(final(out)@) == private_views(old(out)@) + v@.map_values(|x: StructDef| (x.name@, x.is_private)),
{
    let mut i: usize = 0;
    while i < v.len()
        invariant
            i <= v@.len(),
            private_views(out@) == private_views(old(out)@) + v@.take(i as int).map_values(
                |x: StructDef| (x.name@, x.is_private),
            ),
        decreases v@.len() - i,
    {
        let ghost before = out@;
        out.push((string_of(v[i].name.as_str()), v[i].is_private));
        assert(private_views(out@) =~= private_views(before).push((v@[i as int].name@, v@[i as int].is_private)));
        assert(v@.take(i + 1).map_values(|x: StructDef| (x.name@, x.is_private)) =~= v@.take(i as int).map_values(
            |x: StructDef| (x.name@, x.is_private),
        ).push((v@[i as int].name@, v@[i as int].is_private)));
        i += 1;
    }
    assert(v@.take(i as int) =~= v@);
}

/// Record the name and privacy of each comptime constant.
fn track_comptimes(out: &mut Vec<(String, bool)>, v: &Vec<ComptimeDef>)
    ensures
        private_views(final(out)@) == private_views(old(out)@) + v@.map_values(|x: ComptimeDef| (x.name@, x.is_private)),
{
    let mut i: usize = 0;
    while i < v.len()
        invariant
            i <= v@.len(),
            private_views(out@) == private_views(old(out)@) + v@.take(i as int).map_values(
                |x: ComptimeDef| (x.name@, x.is_private),
            ),
        decreases v@.len() - i,
    {
        let ghost before = out@;
        out.push((string_of(v[i].name.as_str()), v[i].is_private));
        assert(private_views(out@) =~= private_views(before).push((v@[i as int].name@, v@[i as int].is_private)));
        assert(v@.take(i + 1).map_values(|x: ComptimeDef| (x.name@, x.is_private)) =~= v@.take(i as int).map_values(
            |x: ComptimeDef| (x.name@, x.is_private),
        ).push((v@[i as int].name@, v@[i as int].is_private)));
        i += 1;
    }
    assert(v@.take(i as int) =~= v@);
}

// ── Files and their errors ───────────────────────────────

/// The error for an import whose file cannot be found.
pub fn import_not_found(path: &str, span: Span) -> (e: CompileError)
    ensures
        e.message@ == "could not find imported file '"@ + path@ + "'"@,
        e.span == Some(span),
{
    let mut m = String::new();
    push_str(&mut m, "could not find imported file '");
    push_str(&mut m, path);
    push_str(&mut m, "'");
    CompileError { message: m, span: Some(span) }
}

/// The error for an imported file that cannot be read, with the reason.
pub fn import_unreadable(path: &str, reason: &str, span: Span) -> (e: CompileError)
    ensures
        e.message@ == "could not read '"@ + path@ + "': "@ + reason@,
        e.span == Some(span),
{
    let mut m = String::new();
    push_str(&mut m, "could not read '");
    push_str(&mut m, path);
    push_str(&mut m, "': ");
    push_str(&mut m, reason);
    CompileError { message: m, span: Some(span) }
}

/// The error for a main file whose path cannot be resolved, with the reason.
pub fn unresolvable_path(path: &str, reason: &str) -> (e: CompileError)
    ensures
        e.message@ == "could not resolve path '"@ + path@ + "': "@ + reason@,
        e.span is None,
{
    let mut m = String::new();
    push_str(&mut m, "could not resolve path '");
    push_str(&mut m, path);
    push_str(&mut m, "': ");
    push_str(&mut m, reason);
    CompileError { message: m, span: None }
}

/// Lex and parse a source file. Where the lexer fails, its error is the
/// result.
pub fn parse_module(source: &str) -> (r: Result<Program, CompileError>)
    requires
        source@.len() + 1 < usize::MAX,
    ensures
        lex_from(source@, 0) matches Err(x) ==> (r matches Err(e) && error_is(source@, e, x)),
        lex_from(source@, 0) is Ok ==> exists|toks: Seq<crate::lexer::token::Token>|
            #![trigger lexes_to(source@, toks)]
            lexes_to(source@, toks) && outcome_as(r, pprogram(toks, 0, empty_sprogram()), |p: Program| program_view(p)),
{
    let mut lexer = Lexer::new(source);
    let tokens = match lexer.tokenize() {
        Ok(t) => t,
        Err(e) => {
            return Err(e);
        },
    };
    let ghost toks = tokens@;
    proof {
        lemma_lex_from_shape(source@, 0);
        let ls = lex_from(source@, 0)->Ok_0;
        assert(token_is(source@, tokens@[tokens@.len() - 1], ls[ls.len() - 1]));
        assert(lexes_to(source@, toks));
    }
    let mut parser = Parser::new(tokens);
    let r = parser.parse_program();
    assert(outcome_as(r, pprogram(toks, 0, empty_sprogram()), |p: Program| program_view(p)));
    r
}

/// Lex and parse an imported file; an error's message names the file:
/// `in <path>: <message>`.
pub fn parse_imported(path: &str, source: &str) -> (r: Result<Program, CompileError>)
    requires
        source@.len() + 1 < usize::MAX,
    ensures
        lex_from(source@, 0) matches Err(x) ==> (r matches Err(e) && e.message@ == "in "@ + path@ + ": "@ + x.0
            && e.span == Some(Span { start: crate::lexer::pos_at(source@, x.1), end: crate::lexer::pos_at(source@, x.2) })),
        r matches Err(e) ==> exists|m: Seq<char>| e.message@ == "in "@ + path@ + ": "@ + m,
        lex_from(source@, 0) is Ok ==> exists|toks: Seq<crate::lexer::token::Token>|
            #![trigger lexes_to(source@, toks)]
            lexes_to(source@, toks) && match pprogram(toks, 0, empty_sprogram()) {
                Parsed::Done(sp, _) => r matches Ok(p) && program_view(p) == sp,
                Parsed::Failed(m, s) => r matches Err(e) && e.message@ == "in "@ + path@ + ": "@ + m && e.span == Some(s),
            },
{
    match parse_module(source) {
        Ok(p) => Ok(p),
        Err(e) => {
            let mut m = String::new();
            push_str(&mut m, "in ");
            push_str(&mut m, path);
            push_str(&mut m, ": ");
            crate::text::push_string(&mut m, &e.message);
            assert(m@ == "in "@ + path@ + ": "@ + e.message@);
            Err(CompileError { message: m, span: e.span })
        },
    }
}

} // verus!
