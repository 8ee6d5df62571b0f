//! Entry files: the root of an import tree and the extensions (definition
//! collections, builtin libraries, inline definitions) whose symbols it
//! brings in.

use vstd::prelude::*;

use crate::builtin::Builtin;
use crate::definitions::{add_definition, add_definition_to, def_match_spec, group_matches, Capture, DefinitionView, MatchOutcome, SourceInfo, SourceView};
use crate::map::{assoc_get, StrMap};
use crate::paths::{canonicalize, path_extension, path_join, path_parent, spec_extension, spec_join, spec_parent};

verus! {

broadcast use vstd::string::group_string_axioms;

/// A definition listed in an entry file or a definition collection file:
/// a name with an optional comment, or a bare name.
#[derive(Debug)]
pub enum Definition {
    Full { name: String, comment: Option<String> },
    Inline(String),
}

impl Definition {
    /// The defined name.
    pub open spec fn spec_name(self) -> Seq<char> {
        match self {
            Definition::Full { name, .. } => name@,
            Definition::Inline(name) => name@,
        }
    }

    /// The comment of the definition, if it has one.
    pub open spec fn spec_comment(self) -> Option<Seq<char>> {
        match self {
            Definition::Full { comment, .. } => comment.deep_view(),
            Definition::Inline(_) => None,
        }
    }

    /// The name and the comment of the definition.
    pub fn name_and_comment(&self) -> (r: (String, Option<String>))
        ensures
            r.0@ == self.spec_name(),
            r.1.deep_view() == self.spec_comment(),
    {
        match self {
            Definition::Full { name, comment } => (
                name.clone(),
                crate::definitions::clone_opt_string(comment),
            ),
            Definition::Inline(name) => (name.clone(), None),
        }
    }
}

/// An extension of an entry: a definition collection file (by its path
/// relative to the entry file's directory), a builtin library, or definitions listed
/// inline.
#[derive(Debug)]
pub enum Extension {
    Collection(String),
    Builtin(Builtin),
    Inline(Vec<Definition>),
}

/// An entry file: the main lispBM file and the extensions.
#[derive(Debug)]
pub struct EntryFile {
    pub entry_point: String,
    pub extension: Vec<Extension>,
}

/// A definition collection file.
#[derive(Debug)]
pub struct DefinitionFile {
    pub definitions: Vec<Definition>,
}

/// The definitions `ds`, each as a name and the definition it stands for,
/// with its source `src`.
pub open spec fn contributions(ds: Seq<Definition>, src: SourceView) -> Seq<(Seq<char>, DefinitionView)> {
    ds.map_values(|d: Definition| (d.spec_name(), DefinitionView { comment: d.spec_comment(), source: src }))
}

/// `l` with each definition of `cs` added at the end of its name's list.
pub open spec fn push_all(l: Seq<(Seq<char>, Seq<DefinitionView>)>, cs: Seq<(Seq<char>, DefinitionView)>) -> Seq<(Seq<char>, Seq<DefinitionView>)>
    decreases cs.len(),
{
    if cs.len() == 0 {
        l
    } else {
        add_definition(push_all(l, cs.drop_last()), cs.last().0, cs.last().1)
    }
}

/// Adding two runs of definitions one after the other adds their concatenation.
pub proof fn lemma_push_all_append(
    l: Seq<(Seq<char>, Seq<DefinitionView>)>,
    a: Seq<(Seq<char>, DefinitionView)>,
    b: Seq<(Seq<char>, DefinitionView)>,
)
    ensures
        push_all(push_all(l, a), b) == push_all(l, a + b),
    decreases b.len(),
{
    if b.len() == 0 {
        assert(a + b =~= a);
    } else {
        lemma_push_all_append(l, a, b.drop_last());
        assert((a + b).drop_last() =~= a + b.drop_last());
    }
}

/// Adds each definition of `ds` in turn at the end of its name's list,
/// with source `src`.
fn push_definitions(map: &mut StrMap<Vec<crate::definitions::Definition>>, ds: &Vec<Definition>, src: &SourceInfo)
    ensures
        final(map).deep_view() == push_all(old(map).deep_view(), contributions(ds@, src.deep_view())),
{
    let ghost start = map.deep_view();
    let ghost cs = contributions(ds@, src.deep_view());
    let n = ds.len();
    let mut i: usize = 0;
    assert(cs.take(0) =~= Seq::<(Seq<char>, DefinitionView)>::empty());
    while i < n
        invariant
            n == ds@.len(),
            cs == contributions(ds@, src.deep_view()),
            i <= n,
            map.deep_view() == push_all(start, cs.take(i as int)),
        decreases n - i,
    {
        let (name, comment) = ds[i].name_and_comment();
        let d = crate::definitions::Definition { comment, source: src.clone() };
        add_definition_to(map, name, d);
        assert(cs.take(i + 1).drop_last() =~= cs.take(i as int));
        i = i + 1;
    }
    assert(cs.take(n as int) =~= cs);
}

impl DefinitionFile {
    /// The definitions of a collection file at `path`, by name; a name
    /// listed several times keeps every definition, in the order listed.
    pub fn get_definitions(&self, path: &str) -> (r: StrMap<Vec<crate::definitions::Definition>>)
        ensures
            r.deep_view() == push_all(
                Seq::empty(),
                contributions(self.definitions@, SourceView::Collection { path: path@ }),
            ),
    {
        let mut map = StrMap::new();
        let src = SourceInfo::Collection { path: path.to_owned() };
        push_definitions(&mut map, &self.definitions, &src);
        map
    }
}

/// The inline definitions of the extensions `exts`, in order.
pub open spec fn inline_definitions(exts: Seq<Extension>) -> Seq<Definition>
    decreases exts.len(),
{
    if exts.len() == 0 {
        Seq::empty()
    } else {
        inline_definitions(exts.drop_last()) + match exts.last() {
            Extension::Inline(ds) => ds@,
            _ => Seq::empty(),
        }
    }
}

/// Why the extension imports of an entry could not be listed.
#[derive(Debug)]
pub enum ImportError {
    /// The entry file has no parent directory.
    IsADirectory,
    /// Resolving a collection's path failed with this message.
    Io(String),
}

/// The mathematical value of an `ImportError`.
pub enum ImportErrorView {
    IsADirectory,
    Io(Seq<char>),
}

impl ImportError {
    pub open spec fn view(self) -> ImportErrorView {
        match self {
            ImportError::IsADirectory => ImportErrorView::IsADirectory,
            ImportError::Io(e) => ImportErrorView::Io(e@),
        }
    }
}

/// The files that the extensions `exts` import, given the entry point, the
/// entry file's parent directory and, for each extension that is a collection, what
/// resolving its path gave: the resolved path of a collection, the entry
/// point for inline definitions, the file name of a builtin. The first
/// failure is the result.
pub open spec fn ext_imports_spec(
    exts: Seq<Extension>,
    entry_point: Seq<char>,
    parent: Option<Seq<char>>,
    resolved: Seq<Result<Seq<char>, Seq<char>>>,
) -> Result<Seq<Seq<char>>, ImportErrorView>
    decreases exts.len(),
{
    if exts.len() == 0 {
        Ok(Seq::empty())
    } else {
        let head: Result<Seq<char>, ImportErrorView> = match exts[0] {
            Extension::Collection(_) => match parent {
                None => Err(ImportErrorView::IsADirectory),
                Some(_) => match resolved[0] {
                    Ok(p) => Ok(p),
                    Err(e) => Err(ImportErrorView::Io(e)),
                },
            },
            Extension::Inline(_) => Ok(entry_point),
            Extension::Builtin(b) => Ok(b.spec_file_name()),
        };
        match head {
            Err(e) => Err(e),
            Ok(p) => match ext_imports_spec(exts.drop_first(), entry_point, parent, resolved.drop_first()) {
                Ok(rest) => Ok(seq![p] + rest),
                Err(e) => Err(e),
            },
        }
    }
}

/// `prefix` put in front of the paths of `r`.
pub open spec fn prefix_paths(prefix: Seq<Seq<char>>, r: Result<Seq<Seq<char>>, ImportErrorView>) -> Result<Seq<Seq<char>>, ImportErrorView> {
    match r {
        Ok(rest) => Ok(prefix + rest),
        Err(e) => Err(e),
    }
}

/// The mathematical value of what resolving a path gave.
pub open spec fn outcome_view(r: Result<String, String>) -> Result<Seq<char>, Seq<char>> {
    match r {
        Ok(p) => Ok(p@),
        Err(e) => Err(e@),
    }
}

/// The mathematical value of a list of resolved paths.
pub open spec fn resolved_view(v: Seq<Result<String, String>>) -> Seq<Result<Seq<char>, Seq<char>>> {
    v.map_values(|r: Result<String, String>| outcome_view(r))
}

/// Recording one more resolution keeps the outcomes in step with the
/// resolved paths.
proof fn lemma_record_resolution(
    v: Seq<Result<String, String>>,
    rs: Seq<(Seq<char>, Result<Seq<char>, Seq<char>>)>,
    path: Seq<char>,
    x: Result<String, String>,
)
    requires
        resolved_view(v) == outcomes(rs),
    ensures
        resolved_view(v.push(x)) == outcomes(rs.push((path, outcome_view(x)))),
{
    assert(resolved_view(v.push(x)) =~= resolved_view(v).push(outcome_view(x)));
    assert(outcomes(rs.push((path, outcome_view(x)))) =~= outcomes(rs).push(outcome_view(x)));
}

/// The mathematical value of a list of paths.
pub open spec fn paths_view(v: Seq<String>) -> Seq<Seq<char>> {
    v.map_values(|p: String| p@)
}

/// The mathematical value of the result of listing extension imports.
pub open spec fn imports_result_view(r: &Result<Vec<String>, ImportError>) -> Result<Seq<Seq<char>>, ImportErrorView> {
    match r {
        Ok(v) => Ok(paths_view(v@)),
        Err(e) => Err(e.view()),
    }
}

/// The paths whose resolution succeeded and whose extension is `lisp` or
/// `lispbm`, in order.
pub open spec fn lisp_imports(v: Seq<Result<Seq<char>, Seq<char>>>) -> Seq<Seq<char>>
    decreases v.len(),
{
    if v.len() == 0 {
        Seq::empty()
    } else {
        lisp_imports(v.drop_last()) + match v.last() {
            Ok(p) => if spec_extension(p) == Some("lisp"@) || spec_extension(p) == Some("lispbm"@) {
                seq![p]
            } else {
                Seq::empty()
            },
            Err(_) => Seq::empty(),
        }
    }
}

/// What a collection extension of `loaded` holds once its file was read:
/// its resolved path and its definitions, or nothing where it could not be
/// read.
pub enum LoadedExtension {
    Collection(Option<(String, DefinitionFile)>),
    Builtin(DefinitionFile),
    Inline,
}

/// `loaded[i]` is of the same kind as `exts[i]`.
pub open spec fn loaded_matches(exts: Seq<Extension>, loaded: Seq<LoadedExtension>) -> bool {
    &&& exts.len() == loaded.len()
    &&& forall|i: int|
        0 <= i < exts.len() ==> match (#[trigger] exts[i], loaded[i]) {
            (Extension::Collection(_), LoadedExtension::Collection(_)) => true,
            (Extension::Builtin(_), LoadedExtension::Builtin(_)) => true,
            (Extension::Inline(_), LoadedExtension::Inline) => true,
            _ => false,
        }
}

/// The definitions that one extension brings in, each with its source.
pub open spec fn extension_contributions(ext: Extension, loaded: LoadedExtension, entry_point: Seq<char>) -> Seq<(Seq<char>, DefinitionView)> {
    match (ext, loaded) {
        (Extension::Collection(_), LoadedExtension::Collection(Some(c))) => contributions(
            c.1.definitions@,
            SourceView::Collection { path: c.0@ },
        ),
        (Extension::Builtin(b), LoadedExtension::Builtin(f)) => contributions(
            f.definitions@,
            SourceView::Builtin { name: b },
        ),
        (Extension::Inline(ds), _) => contributions(
            ds@,
            SourceView::Collection { path: entry_point },
        ),
        _ => Seq::empty(),
    }
}

/// The definitions that the extensions bring in, in order.
pub open spec fn all_extension_contributions(exts: Seq<Extension>, loaded: Seq<LoadedExtension>, entry_point: Seq<char>) -> Seq<(Seq<char>, DefinitionView)>
    decreases exts.len(),
{
    if exts.len() == 0 || loaded.len() == 0 {
        Seq::empty()
    } else {
        all_extension_contributions(exts.drop_last(), loaded.drop_last(), entry_point)
            + extension_contributions(exts.last(), loaded.last(), entry_point)
    }
}

/// The outcomes of the resolutions `rs`, in order.
pub open spec fn outcomes(rs: Seq<(Seq<char>, Result<Seq<char>, Seq<char>>)>) -> Seq<Result<Seq<char>, Seq<char>>> {
    rs.map_values(|x: (Seq<char>, Result<Seq<char>, Seq<char>>)| x.1)
}

/// The path to resolve for each extension: a collection's path joined to
/// the directory `dir`; nothing for the others.
pub open spec fn collection_targets(exts: Seq<Extension>, dir: Seq<char>) -> Seq<Option<Seq<char>>> {
    exts.map_values(|e: Extension| match e {
        Extension::Collection(p) => Some(spec_join(dir, p@)),
        _ => None,
    })
}

/// Each import path joined to the directory `dir`.
pub open spec fn import_target_paths(dir: Seq<char>, imports: Seq<Seq<char>>) -> Seq<Seq<char>> {
    imports.map_values(|p: Seq<char>| spec_join(dir, p))
}

/// `rs` resolves the paths `targets` in order: one record per position,
/// which names the target wherever there is one.
pub open spec fn resolves_targets(rs: Seq<(Seq<char>, Result<Seq<char>, Seq<char>>)>, targets: Seq<Option<Seq<char>>>) -> bool {
    &&& rs.len() == targets.len()
    &&& forall|i: int| 0 <= i < rs.len() ==> (#[trigger] targets[i] matches Some(t) ==> rs[i].0 == t)
}

/// `rs` resolves each of the paths `targets` in order.
pub open spec fn resolves_paths(rs: Seq<(Seq<char>, Result<Seq<char>, Seq<char>>)>, targets: Seq<Seq<char>>) -> bool {
    &&& rs.len() == targets.len()
    &&& forall|i: int| 0 <= i < rs.len() ==> #[trigger] rs[i].0 == targets[i]
}

/// The paths that the extension imports resolve, given the entry file's
/// parent directory: the collections' paths joined to it, or nothing
/// where there is no parent.
pub open spec fn ext_targets(exts: Seq<Extension>, parent: Option<Seq<char>>) -> Seq<Option<Seq<char>>> {
    match parent {
        Some(d) => collection_targets(exts, d),
        None => Seq::new(exts.len(), |i: int| None),
    }
}

/// The paths that resolving the imports `imports` of an entry point
/// resolves: each joined to the entry point's parent directory.
pub open spec fn entry_import_targets(entry_point: Seq<char>, imports: Seq<Seq<char>>) -> Seq<Seq<char>> {
    match spec_parent(entry_point) {
        Some(d) => import_target_paths(d, imports),
        None => Seq::new(imports.len(), |i: int| Seq::empty()),
    }
}

/// Each import path joined to the directory `dir`, in order.
pub fn import_targets(dir: &str, imports: &Vec<String>) -> (r: Vec<String>)
    ensures
        r.deep_view() == import_target_paths(dir@, imports.deep_view()),
{
    let mut out: Vec<String> = Vec::new();
    let n = imports.len();
    let mut i: usize = 0;
    while i < n
        invariant
            n == imports@.len(),
            i <= n,
            out.deep_view() == import_target_paths(dir@, imports.deep_view().take(i as int)),
        decreases n - i,
    {
        let t = path_join(dir, imports[i].as_str());
        let ghost before = out.deep_view();
        out.push(t);
        assert(out.deep_view() =~= before.push(t@));
        assert(import_target_paths(dir@, imports.deep_view().take(i + 1)) =~= import_target_paths(
            dir@,
            imports.deep_view().take(i as int),
        ).push(spec_join(dir@, imports.deep_view()[i as int])));
        i = i + 1;
    }
    assert(imports.deep_view().take(n as int) =~= imports.deep_view());
    out
}

impl EntryFile {
    /// The inline definitions of the entry, by name; a name listed several
    /// times keeps every definition, in the order listed. Their source is
    /// the entry point.
    pub fn get_ext_inline_definitions(&self) -> (r: StrMap<Vec<crate::definitions::Definition>>)
        ensures
            r.deep_view() == push_all(
                Seq::empty(),
                contributions(
                    inline_definitions(self.extension@),
                    SourceView::Collection { path: self.entry_point@ },
                ),
            ),
    {
        let ghost src_view = SourceView::Collection { path: self.entry_point@ };
        let mut map = StrMap::new();
        let src = SourceInfo::Collection { path: self.entry_point.clone() };
        let n = self.extension.len();
        let mut i: usize = 0;
        assert(self.extension@.take(0) =~= Seq::<Extension>::empty());
        while i < n
            invariant
                n == self.extension@.len(),
                i <= n,
                src.deep_view() == src_view,
                map.deep_view() == push_all(
                    Seq::empty(),
                    contributions(inline_definitions(self.extension@.take(i as int)), src_view),
                ),
            decreases n - i,
        {
            let ghost before = inline_definitions(self.extension@.take(i as int));
            let ghost added: Seq<Definition> = match self.extension@[i as int] {
                Extension::Inline(ds) => ds@,
                _ => Seq::empty(),
            };
            assert(self.extension@.take(i + 1).drop_last() =~= self.extension@.take(i as int));
            assert(inline_definitions(self.extension@.take(i + 1)) == before + added);
            assert(contributions(before + added, src_view) =~= contributions(before, src_view)
                + contributions(added, src_view));
            proof {
                lemma_push_all_append(
                    Seq::empty(),
                    contributions(before, src_view),
                    contributions(added, src_view),
                );
            }
            match &self.extension[i] {
                Extension::Inline(ds) => {
                    push_definitions(&mut map, ds, &src);
                },
                _ => {
                    assert(contributions(added, src_view) =~= Seq::<
                        (Seq<char>, DefinitionView),
                    >::empty());
                },
            }
            i = i + 1;
        }
        assert(self.extension@.take(n as int) =~= self.extension@);
        map
    }

    /// The files that the entry's extensions import, given the entry
    /// point's parent directory and what resolving each collection's path
    /// gave (`resolved[i]` for the extension at `i`; the other positions are
    /// not read).
    pub fn ext_imports_from(&self, parent: &Option<String>, resolved: &Vec<Result<String, String>>) -> (r: Result<Vec<String>, ImportError>)
        requires
            resolved@.len() == self.extension@.len(),
        ensures
            ext_imports_spec(self.extension@, self.entry_point@, parent.deep_view(), resolved_view(resolved@))
                == imports_result_view(&r),
    {
        let ghost exts = self.extension@;
        let ghost rv = resolved_view(resolved@);
        let ghost pv = parent.deep_view();
        let ghost ep = self.entry_point@;
        let mut paths: Vec<String> = Vec::new();
        let n = self.extension.len();
        let mut i: usize = 0;
        assert(exts.skip(0) =~= exts);
        assert(rv.skip(0) =~= rv);
        assert(paths_view(paths@) =~= Seq::<Seq<char>>::empty());
        assert(prefix_paths(Seq::empty(), ext_imports_spec(exts, ep, pv, rv)) == ext_imports_spec(exts, ep, pv, rv)) by {
            match ext_imports_spec(exts, ep, pv, rv) {
                Ok(rest) => {
                    assert(Seq::<Seq<char>>::empty() + rest =~= rest);
                },
                Err(_) => {},
            }
        }
        while i < n
            invariant
                n == exts.len(),
                rv.len() == n,
                exts == self.extension@,
                rv == resolved_view(resolved@),
                pv == parent.deep_view(),
                ep == self.entry_point@,
                i <= n,
                ext_imports_spec(exts, ep, pv, rv) == prefix_paths(
                    paths_view(paths@),
                    ext_imports_spec(exts.skip(i as int), ep, pv, rv.skip(i as int)),
                ),
            decreases n - i,
        {
            assert(exts.skip(i as int).drop_first() =~= exts.skip(i + 1));
            assert(rv.skip(i as int).drop_first() =~= rv.skip(i + 1));
            assert(exts.skip(i as int)[0] == exts[i as int]);
            assert(rv.skip(i as int)[0] == rv[i as int]);
            let p = match &self.extension[i] {
                Extension::Collection(_) => {
                    match parent {
                        None => {
                            return Err(ImportError::IsADirectory);
                        },
                        Some(_) => match &resolved[i] {
                            Ok(p) => p.clone(),
                            Err(e) => {
                                return Err(ImportError::Io(e.clone()));
                            },
                        },
                    }
                },
                Extension::Inline(_) => self.entry_point.clone(),
                Extension::Builtin(b) => b.to_string(),
            };
            let ghost before = paths_view(paths@);
            paths.push(p);
            assert(paths_view(paths@) =~= before.push(p@));
            proof {
                match ext_imports_spec(exts.skip(i + 1), ep, pv, rv.skip(i + 1)) {
                    Ok(rest) => {
                        assert(before + (seq![p@] + rest) =~= before.push(p@) + rest);
                    },
                    Err(_) => {},
                }
            }
            i = i + 1;
        }
        assert(exts.skip(n as int) =~= Seq::<Extension>::empty());
        assert(paths_view(paths@) + Seq::<Seq<char>>::empty() =~= paths_view(paths@));
        Ok(paths)
    }

    /// The path to resolve for each extension: a collection's path joined
    /// to the directory `dir`; nothing for the others.
    pub fn collection_paths(&self, dir: &str) -> (r: Vec<Option<String>>)
        ensures
            r.deep_view() == collection_targets(self.extension@, dir@),
    {
        let ghost exts = self.extension@;
        let mut out: Vec<Option<String>> = Vec::new();
        let n = self.extension.len();
        let mut i: usize = 0;
        while i < n
            invariant
                n == exts.len(),
                exts == self.extension@,
                i <= n,
                out.deep_view() == collection_targets(exts.take(i as int), dir@),
            decreases n - i,
        {
            let t = match &self.extension[i] {
                Extension::Collection(p) => Some(path_join(dir, p.as_str())),
                _ => None,
            };
            let ghost before = out.deep_view();
            out.push(t);
            assert(out.deep_view() =~= before.push(t.deep_view()));
            assert(collection_targets(exts.take(i + 1), dir@) =~= collection_targets(exts.take(i as int), dir@).push(
                t.deep_view(),
            ));
            i = i + 1;
        }
        assert(exts.take(n as int) =~= exts);
        out
    }

    /// The files that the entry's extensions import, given the path of the
    /// entry file itself: the resolved path of each collection (its path
    /// joined to the entry file's directory), the entry point for inline
    /// definitions, the file name of each builtin. Fails where the entry
    /// file has no parent directory or a collection's path cannot be
    /// resolved, with the first such failure. Every
    /// collection's path is resolved; resolving reads the disk, so the
    /// contract says which paths are resolved and what holds of every
    /// outcome.
    pub fn get_ext_imports(&self, entry_file: &str) -> (r: Result<Vec<String>, ImportError>)
        ensures
            exists|rs: Seq<(Seq<char>, Result<Seq<char>, Seq<char>>)>|
                #![trigger ext_imports_spec(self.extension@, self.entry_point@, spec_parent(entry_file@), outcomes(rs))]
                resolves_targets(rs, ext_targets(self.extension@, spec_parent(entry_file@)))
                    && ext_imports_spec(
                    self.extension@,
                    self.entry_point@,
                    spec_parent(entry_file@),
                    outcomes(rs),
                ) == imports_result_view(&r),
    {
        let ghost exts = self.extension@;
        let parent = path_parent(entry_file);
        let ghost targets = ext_targets(exts, parent.deep_view());
        let mut resolved: Vec<Result<String, String>> = Vec::new();
        let ghost mut rs: Seq<(Seq<char>, Result<Seq<char>, Seq<char>>)> = Seq::empty();
        let n = self.extension.len();
        match &parent {
            Some(dir) => {
                let paths = self.collection_paths(dir.as_str());
                assert(paths@.len() == paths.deep_view().len());
                let mut i: usize = 0;
                while i < n
                    invariant
                        n == exts.len(),
                        paths.deep_view() == targets,
                        paths@.len() == n,
                        targets == collection_targets(exts, dir@),
                        i <= n,
                        rs.len() == i,
                        resolved_view(resolved@) == outcomes(rs),
                        forall|j: int| 0 <= j < i ==> (#[trigger] targets[j] matches Some(t) ==> rs[j].0 == t),
                    decreases n - i,
                {
                    assert(paths.deep_view()[i as int] == paths@[i as int].deep_view());
                    match &paths[i] {
                        Some(t) => {
                            let res = canonicalize(t.as_str());
                            proof {
                                lemma_record_resolution(resolved@, rs, res.path@, res.outcome);
                                rs = rs.push((res.path@, outcome_view(res.outcome)));
                            }
                            resolved.push(res.outcome);
                        },
                        None => {
                            let unresolved: Result<String, String> = Ok(String::new());
                            proof {
                                lemma_record_resolution(resolved@, rs, Seq::empty(), unresolved);
                                rs = rs.push((Seq::empty(), outcome_view(unresolved)));
                            }
                            resolved.push(unresolved);
                        },
                    }
                    i = i + 1;
                }
            },
            None => {
                let mut i: usize = 0;
                while i < n
                    invariant
                        n == exts.len(),
                        i <= n,
                        rs.len() == i,
                        resolved_view(resolved@) == outcomes(rs),
                    decreases n - i,
                {
                    let unresolved: Result<String, String> = Ok(String::new());
                    proof {
                        lemma_record_resolution(resolved@, rs, Seq::empty(), unresolved);
                        rs = rs.push((Seq::empty(), outcome_view(unresolved)));
                    }
                    resolved.push(unresolved);
                    i = i + 1;
                }
            },
        }
        assert(resolves_targets(rs, targets));
        self.ext_imports_from(&parent, &resolved)
    }

    /// The lispBM files that the entry point imports, given each import
    /// path as resolved against the entry point's directory: those that
    /// resolved and end in `.lisp` or `.lispbm`, in order.
    pub fn lisp_imports_from(resolved: &Vec<Result<String, String>>) -> (r: Vec<String>)
        ensures
            paths_view(r@) == lisp_imports(resolved_view(resolved@)),
    {
        let ghost rv = resolved_view(resolved@);
        let mut out: Vec<String> = Vec::new();
        let n = resolved.len();
        let mut i: usize = 0;
        assert(rv.take(0) =~= Seq::<Result<Seq<char>, Seq<char>>>::empty());
        assert(paths_view(out@) =~= Seq::<Seq<char>>::empty());
        while i < n
            invariant
                n == resolved@.len(),
                rv == resolved_view(resolved@),
                i <= n,
                paths_view(out@) == lisp_imports(rv.take(i as int)),
            decreases n - i,
        {
            assert(rv.take(i + 1).drop_last() =~= rv.take(i as int));
            assert(rv.take(i + 1).last() == rv[i as int]);
            let ghost before = paths_view(out@);
            match &resolved[i] {
                Ok(p) => {
                    let is_lisp = match path_extension(p.as_str()) {
                        Some(e) => crate::text::str_eq(e.as_str(), "lisp") || crate::text::str_eq(
                            e.as_str(),
                            "lispbm",
                        ),
                        None => false,
                    };
                    if is_lisp {
                        out.push(p.clone());
                        assert(paths_view(out@) =~= before + seq![p@]);
                    } else {
                        assert(before + Seq::<Seq<char>>::empty() =~= before);
                    }
                },
                Err(_) => {
                    assert(before + Seq::<Seq<char>>::empty() =~= before);
                },
            }
            i = i + 1;
        }
        assert(rv.take(n as int) =~= rv);
        out
    }

    /// The lispBM files that the entry point imports, given the import
    /// paths written in it (`None` where the entry point could not be read):
    /// each path is joined to the entry point's directory and resolved, and
    /// those that resolve and end in `.lisp` or `.lispbm` are kept, in
    /// order. Resolving reads the disk, so the contract says which paths are
    /// resolved and what holds of every outcome.
    pub fn get_all_imports(&self, imports: Option<Vec<String>>) -> (r: Option<Vec<String>>)
        requires
            imports matches Some(v) && v@.len() > 0 ==> spec_parent(self.entry_point@) is Some,
        ensures
            r is Some <==> imports is Some,
            r matches Some(out) ==> exists|rs: Seq<(Seq<char>, Result<Seq<char>, Seq<char>>)>|
                #![trigger lisp_imports(outcomes(rs))]
                resolves_paths(rs, entry_import_targets(self.entry_point@, imports->Some_0.deep_view()))
                    && paths_view(out@) == lisp_imports(outcomes(rs)),
    {
        let imports = match imports {
            Some(v) => v,
            None => {
                return None;
            },
        };
        let ghost targets = entry_import_targets(self.entry_point@, imports.deep_view());
        let mut resolved: Vec<Result<String, String>> = Vec::new();
        let ghost mut rs: Seq<(Seq<char>, Result<Seq<char>, Seq<char>>)> = Seq::empty();
        let n = imports.len();
        if n > 0 {
            let dir = match path_parent(self.entry_point.as_str()) {
                Some(d) => d,
                None => {
                    return None;
                },
            };
            let paths = import_targets(dir.as_str(), &imports);
            let mut i: usize = 0;
            while i < n
                invariant
                    n == imports@.len(),
                    paths.deep_view() == targets,
                    targets.len() == n,
                    i <= n,
                    rs.len() == i,
                    resolved_view(resolved@) == outcomes(rs),
                    forall|j: int| 0 <= j < i ==> #[trigger] rs[j].0 == targets[j],
                decreases n - i,
            {
                assert(paths.deep_view()[i as int] == paths@[i as int]@);
                let res = canonicalize(paths[i].as_str());
                proof {
                    lemma_record_resolution(resolved@, rs, res.path@, res.outcome);
                    rs = rs.push((res.path@, outcome_view(res.outcome)));
                }
                resolved.push(res.outcome);
                i = i + 1;
            }
        }
        assert(targets.len() == imports@.len());
        assert(resolves_paths(rs, targets));
        let out = Self::lisp_imports_from(&resolved);
        assert(paths_view(out@) == lisp_imports(outcomes(rs)));
        Some(out)
    }

    /// Every definition that the entry's extensions bring in, by name, each
    /// name's definitions in the order the extensions list them, given what
    /// each extension holds once loaded (`loaded[i]` for the extension at
    /// `i`): a collection's definitions have its resolved path as source, a
    /// builtin's the builtin, inline ones the entry point.
    pub fn get_all_ext_definitions(&self, loaded: &Vec<LoadedExtension>) -> (r: StrMap<Vec<crate::definitions::Definition>>)
        requires
            loaded_matches(self.extension@, loaded@),
        ensures
            r.deep_view() == push_all(
                Seq::empty(),
                all_extension_contributions(self.extension@, loaded@, self.entry_point@),
            ),
    {
        let ghost exts = self.extension@;
        let ghost ep = self.entry_point@;
        let mut map = StrMap::new();
        let n = self.extension.len();
        let mut i: usize = 0;
        assert(exts.take(0) =~= Seq::<Extension>::empty());
        while i < n
            invariant
                n == exts.len(),
                exts == self.extension@,
                ep == self.entry_point@,
                loaded_matches(exts, loaded@),
                i <= n,
                map.deep_view() == push_all(
                    Seq::empty(),
                    all_extension_contributions(exts.take(i as int), loaded@.take(i as int), ep),
                ),
            decreases n - i,
        {
            let ghost before = all_extension_contributions(exts.take(i as int), loaded@.take(i as int), ep);
            let ghost added = extension_contributions(exts[i as int], loaded@[i as int], ep);
            assert(exts.take(i + 1).drop_last() =~= exts.take(i as int));
            assert(loaded@.take(i + 1).drop_last() =~= loaded@.take(i as int));
            assert(all_extension_contributions(exts.take(i + 1), loaded@.take(i + 1), ep) == before + added);
            proof {
                lemma_push_all_append(Seq::empty(), before, added);
            }
            match (&self.extension[i], &loaded[i]) {
                (Extension::Collection(_), LoadedExtension::Collection(Some(c))) => {
                    let src = SourceInfo::Collection { path: c.0.clone() };
                    push_definitions(&mut map, &c.1.definitions, &src);
                },
                (Extension::Builtin(b), LoadedExtension::Builtin(f)) => {
                    let src = SourceInfo::Builtin { name: *b };
                    push_definitions(&mut map, &f.definitions, &src);
                },
                (Extension::Inline(ds), _) => {
                    let src = SourceInfo::Collection { path: self.entry_point.clone() };
                    push_definitions(&mut map, ds, &src);
                },
                _ => {
                    assert(added =~= Seq::<(Seq<char>, DefinitionView)>::empty());
                    assert(before + added =~= before);
                },
            }
            i = i + 1;
        }
        assert(exts.take(n as int) =~= exts);
        assert(loaded@.take(n as int) =~= loaded@);
        map
    }
}

/// The definitions of `cs` named `n`, in order.
pub open spec fn named(cs: Seq<(Seq<char>, DefinitionView)>, n: Seq<char>) -> Seq<DefinitionView>
    decreases cs.len(),
{
    if cs.len() == 0 {
        Seq::empty()
    } else {
        named(cs.drop_last(), n) + if cs.last().0 == n {
            seq![cs.last().1]
        } else {
            Seq::empty()
        }
    }
}

/// Definitions brought in by extensions accumulate: a name's list holds
/// every definition of that name, in the order they were brought in.
pub proof fn lemma_push_all_get(cs: Seq<(Seq<char>, DefinitionView)>, n: Seq<char>)
    ensures
        assoc_get(push_all(Seq::empty(), cs), n) == if named(cs, n).len() == 0 {
            None
        } else {
            Some(named(cs, n))
        },
    decreases cs.len(),
{
    if cs.len() == 0 {
        crate::map::lemma_find_none(Seq::<(Seq<char>, Seq<DefinitionView>)>::empty(), n);
    } else {
        let rest = cs.drop_last();
        lemma_push_all_get(rest, n);
        let prev = push_all(Seq::empty(), rest);
        let (m, d) = cs.last();
        let v = match assoc_get(prev, m) {
            Some(w) => w.push(d),
            None => seq![d],
        };
        if m == n {
            crate::map::lemma_get_insert_same(prev, m, v);
            if named(rest, n).len() == 0 {
                assert(named(rest, n) + seq![d] =~= seq![d]);
            }
        } else {
            crate::map::lemma_get_insert_other(prev, m, v, n);
            assert(named(rest, n) + Seq::<DefinitionView>::empty() =~= named(rest, n));
        }
    }
}

/// The definitions of `a + b` named `n` are those of `a`, then those of `b`.
pub proof fn lemma_named_append(a: Seq<(Seq<char>, DefinitionView)>, b: Seq<(Seq<char>, DefinitionView)>, n: Seq<char>)
    ensures
        named(a + b, n) == named(a, n) + named(b, n),
    decreases b.len(),
{
    if b.len() == 0 {
        assert(a + b =~= a);
        assert(named(a, n) + named(b, n) =~= named(a, n));
    } else {
        lemma_named_append(a, b.drop_last(), n);
        assert((a + b).drop_last() =~= a + b.drop_last());
        assert((a + b).last() == b.last());
        let tail: Seq<DefinitionView> = if b.last().0 == n {
            seq![b.last().1]
        } else {
            Seq::empty()
        };
        assert(named(a, n) + named(b.drop_last(), n) + tail =~= named(a, n) + (named(b.drop_last(), n) + tail));
    }
}

/// The contributions of `a + b` are those of `a`, then those of `b`.
proof fn lemma_contributions_append(a: Seq<Definition>, b: Seq<Definition>, src: SourceView)
    ensures
        contributions(a + b, src) == contributions(a, src) + contributions(b, src),
{
    assert(contributions(a + b, src) =~= contributions(a, src) + contributions(b, src));
}

/// For an entry whose extensions are all inline, its inline definitions
/// are all the definitions its extensions bring in: both give the same
/// symbols with the same definitions, in the same order.
pub proof fn lemma_inline_entry_definitions(exts: Seq<Extension>, loaded: Seq<LoadedExtension>, entry_point: Seq<char>)
    requires
        loaded_matches(exts, loaded),
        forall|i: int| 0 <= i < exts.len() ==> #[trigger] exts[i] is Inline,
    ensures
        push_all(
            Seq::empty(),
            contributions(inline_definitions(exts), SourceView::Collection { path: entry_point }),
        ) == push_all(Seq::empty(), all_extension_contributions(exts, loaded, entry_point)),
{
    let src = SourceView::Collection { path: entry_point };
    assert(contributions(inline_definitions(exts), src) == all_extension_contributions(exts, loaded, entry_point)) by {
        lemma_inline_contributions(exts, loaded, entry_point);
    }
}

/// Where every extension is inline, the contributions of the inline
/// definitions and of all the extensions agree.
proof fn lemma_inline_contributions(exts: Seq<Extension>, loaded: Seq<LoadedExtension>, entry_point: Seq<char>)
    requires
        loaded_matches(exts, loaded),
        forall|i: int| 0 <= i < exts.len() ==> #[trigger] exts[i] is Inline,
    ensures
        contributions(inline_definitions(exts), SourceView::Collection { path: entry_point })
            == all_extension_contributions(exts, loaded, entry_point),
    decreases exts.len(),
{
    let src = SourceView::Collection { path: entry_point };
    if exts.len() == 0 {
        assert(contributions(inline_definitions(exts), src) =~= Seq::<(Seq<char>, DefinitionView)>::empty());
    } else {
        let e0 = exts.drop_last();
        let l0 = loaded.drop_last();
        assert(loaded_matches(e0, l0)) by {
            assert forall|i: int| 0 <= i < e0.len() implies match (#[trigger] e0[i], l0[i]) {
                (Extension::Collection(_), LoadedExtension::Collection(_)) => true,
                (Extension::Builtin(_), LoadedExtension::Builtin(_)) => true,
                (Extension::Inline(_), LoadedExtension::Inline) => true,
                _ => false,
            } by {
                assert(e0[i] == exts[i] && l0[i] == loaded[i]);
            }
        }
        assert forall|i: int| 0 <= i < e0.len() implies #[trigger] e0[i] is Inline by {
            assert(e0[i] == exts[i]);
        }
        lemma_inline_contributions(e0, l0, entry_point);
        let last = exts[exts.len() - 1];
        assert(last is Inline);
        let ds = match last {
            Extension::Inline(ds) => ds@,
            _ => Seq::empty(),
        };
        lemma_contributions_append(inline_definitions(e0), ds, src);
    }
}

/// Adding an extension never drops or reorders definitions: each name's
/// definitions before are the first of its definitions after.
pub proof fn lemma_added_extension_extends(
    exts: Seq<Extension>,
    loaded: Seq<LoadedExtension>,
    ext: Extension,
    loaded_ext: LoadedExtension,
    entry_point: Seq<char>,
    n: Seq<char>,
)
    requires
        loaded_matches(exts.push(ext), loaded.push(loaded_ext)),
    ensures
        assoc_get(push_all(Seq::empty(), all_extension_contributions(exts, loaded, entry_point)), n) matches Some(before)
            ==> assoc_get(
                push_all(
                    Seq::empty(),
                    all_extension_contributions(exts.push(ext), loaded.push(loaded_ext), entry_point),
                ),
                n,
            ) matches Some(after) && before.len() <= after.len() && after.subrange(0, before.len() as int)
                == before,
{
    let a = all_extension_contributions(exts, loaded, entry_point);
    let b = extension_contributions(ext, loaded_ext, entry_point);
    assert(exts.push(ext).drop_last() =~= exts);
    assert(loaded.push(loaded_ext).drop_last() =~= loaded);
    assert(all_extension_contributions(exts.push(ext), loaded.push(loaded_ext), entry_point) == a + b);
    lemma_named_append(a, b, n);
    lemma_push_all_get(a, n);
    lemma_push_all_get(a + b, n);
    assert((named(a, n) + named(b, n)).subrange(0, named(a, n).len() as int) =~= named(a, n));
}

/// Where listing the extension imports succeeds, it gives one file per
/// extension.
pub proof fn lemma_ext_imports_len(
    exts: Seq<Extension>,
    entry_point: Seq<char>,
    parent: Option<Seq<char>>,
    resolved: Seq<Result<Seq<char>, Seq<char>>>,
)
    ensures
        ext_imports_spec(exts, entry_point, parent, resolved) matches Ok(v) ==> v.len() == exts.len(),
    decreases exts.len(),
{
    if exts.len() > 0 {
        lemma_ext_imports_len(exts.drop_first(), entry_point, parent, resolved.drop_first());
    }
}

/// The name and definition of each match of `ms` that reads into one, in order.
pub open spec fn match_contributions(ms: Seq<Seq<Capture>>, file: Seq<char>) -> Seq<(Seq<char>, DefinitionView)>
    decreases ms.len(),
{
    if ms.len() == 0 {
        Seq::empty()
    } else {
        match_contributions(ms.drop_last(), file) + match def_match_spec(ms.last(), file) {
            MatchOutcome::Parsed(n, d) => seq![(n, d)],
            _ => Seq::empty(),
        }
    }
}

/// Reading a file's matches gathers the definitions as extensions do: each
/// added at the end of its name's list.
pub proof fn lemma_group_matches_push_all(ms: Seq<Seq<Capture>>, file: Seq<char>)
    ensures
        group_matches(ms, file) == push_all(Seq::empty(), match_contributions(ms, file)),
    decreases ms.len(),
{
    if ms.len() > 0 {
        lemma_group_matches_push_all(ms.drop_last(), file);
        let rest = match_contributions(ms.drop_last(), file);
        match def_match_spec(ms.last(), file) {
            MatchOutcome::Parsed(n, d) => {
                assert((rest + seq![(n, d)]).drop_last() =~= rest);
            },
            _ => {
                assert(rest + Seq::<(Seq<char>, DefinitionView)>::empty() =~= rest);
            },
        }
    }
}

/// A symbol defined several times in a file keeps every definition, in the
/// order of the matches: goto-definition lists them all and hover merges
/// their comments.
pub proof fn lemma_group_matches_get(ms: Seq<Seq<Capture>>, file: Seq<char>, n: Seq<char>)
    ensures
        assoc_get(group_matches(ms, file), n) == if named(match_contributions(ms, file), n).len() == 0 {
            None
        } else {
            Some(named(match_contributions(ms, file), n))
        },
{
    lemma_group_matches_push_all(ms, file);
    lemma_push_all_get(match_contributions(ms, file), n);
}

} // verus!
