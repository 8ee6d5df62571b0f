//! The server's state: the entries, the files they import, each file's
//! definitions and the symbol index that goto-definition and hover read.
//!
//! A syntax tree is held as the text it was parsed from: the tree is a
//! function of that text, and the syntax queries on it run outside this
//! library, which takes their results as plain values.

use vstd::prelude::*;

use crate::builtin::Builtin;
use crate::builtin::spec_from_filename;
use crate::definitions::{SourceInfo, add_definition, all_matches_parse, def_match_spec, group_matches, Capture, Definition, DefinitionView, MatchOutcome, SourceView};
use crate::paths::{diff_paths, path_extension, path_file_name, spec_diff_paths, spec_extension, spec_file_name, spec_parent};
use crate::text::{ends_with, str_ends_with, str_eq};
use crate::entry::{contributions, entry_import_targets, ext_targets, outcomes, push_all, resolves_paths, resolves_targets};
use crate::entry::EntryFile;
use crate::map::{assoc_find, assoc_get, assoc_insert, assoc_remove, StrMap};

verus! {

broadcast use vstd::string::group_string_axioms;

/// The identifier of an entry: the path of its entry file.
#[derive(Debug)]
pub struct EntryId(pub String);

/// The identifier of a file: its path.
#[derive(Debug)]
pub struct FileId(pub String);

impl From<String> for EntryId {
    fn from(value: String) -> (r: Self) {
        EntryId(value)
    }
}

impl vstd::std_specs::convert::FromSpecImpl<String> for EntryId {
    open spec fn obeys_from_spec() -> bool {
        true
    }

    open spec fn from_spec(v: String) -> Self {
        EntryId(v)
    }
}

impl From<String> for FileId {
    fn from(value: String) -> (r: Self) {
        FileId(value)
    }
}

impl vstd::std_specs::convert::FromSpecImpl<String> for FileId {
    open spec fn obeys_from_spec() -> bool {
        true
    }

    open spec fn from_spec(v: String) -> Self {
        FileId(v)
    }
}

impl EntryId {
    /// The path of the entry file.
    pub fn as_str(&self) -> (r: &str)
        ensures
            r@ == self.0@,
    {
        self.0.as_str()
    }
}

impl FileId {
    /// The path of the file.
    pub fn as_str(&self) -> (r: &str)
        ensures
            r@ == self.0@,
    {
        self.0.as_str()
    }
}

/// An indexed file: its text, the text its syntax tree was parsed from (if
/// it has one) and its definitions by name.
#[derive(Debug)]
pub struct File {
    pub content: String,
    pub tree: Option<String>,
    pub definitions: StrMap<Vec<Definition>>,
}

/// The mathematical value of a `File`.
pub struct FileView {
    pub content: Seq<char>,
    pub tree: Option<Seq<char>>,
    pub definitions: Seq<(Seq<char>, Seq<DefinitionView>)>,
}

impl DeepView for File {
    type V = FileView;

    open spec fn deep_view(&self) -> FileView {
        FileView {
            content: self.content@,
            tree: self.tree.deep_view(),
            definitions: self.definitions.deep_view(),
        }
    }
}

impl DeepView for EntryFile {
    type V = EntryFile;

    open spec fn deep_view(&self) -> EntryFile {
        *self
    }
}

/// The symbol index: for each symbol, the definitions of each file.
pub type IndexView = Seq<(Seq<char>, Seq<(Seq<char>, Seq<DefinitionView>)>)>;

/// Definitions by name.
pub type DefsView = Seq<(Seq<char>, Seq<DefinitionView>)>;

/// The server's state.
#[derive(Debug)]
pub struct State {
    pub entry_files: StrMap<EntryFile>,
    pub entry_to_files: StrMap<Vec<String>>,
    pub symbol_index: StrMap<StrMap<Vec<Definition>>>,
    pub files: StrMap<File>,
    pub root: String,
}

/// Copies a list of definitions.
pub fn clone_definitions(v: &Vec<Definition>) -> (r: Vec<Definition>)
    ensures
        r.deep_view() == v.deep_view(),
{
    let mut out: Vec<Definition> = Vec::new();
    let n = v.len();
    let mut i: usize = 0;
    while i < n
        invariant
            n == v@.len(),
            i <= n,
            out.deep_view() == v.deep_view().take(i as int),
        decreases n - i,
    {
        let c = v[i].clone();
        assert(c.deep_view() == v@[i as int].deep_view());
        let ghost old_out = out@;
        let ghost old_dv = out.deep_view();
        out.push(c);
        assert(out@ == old_out.push(c));
        assert(old_dv.len() == i);
        assert(old_out.len() == i);
        assert forall|j: int| 0 <= j < i + 1 implies #[trigger] out.deep_view()[j] == v.deep_view()[j] by {
            if j < i {
                assert(old_dv[j] == old_out[j].deep_view());
            }
        }
        assert(out.deep_view() =~= v.deep_view().take(i + 1));
        i = i + 1;
    }
    assert(v.deep_view().take(n as int) =~= v.deep_view());
    out
}

/// Copies definitions by name.
pub fn clone_defs_map(m: &StrMap<Vec<Definition>>) -> (r: StrMap<Vec<Definition>>)
    ensures
        r.deep_view() == m.deep_view(),
{
    let mut out: StrMap<Vec<Definition>> = StrMap::new();
    let n = m.len();
    let mut i: usize = 0;
    while i < n
        invariant
            n == m.deep_view().len(),
            i <= n,
            out.deep_view() == m.deep_view().take(i as int),
            crate::map::keys_distinct(m.deep_view()),
        decreases n - i,
    {
        let k = m.key_at(i).clone();
        let v = clone_definitions(m.value_at(i));
        proof {
            crate::map::lemma_find_none(out.deep_view(), k@);
        }
        out.insert(k, v);
        assert(out.deep_view() =~= m.deep_view().take(i + 1));
        i = i + 1;
    }
    assert(m.deep_view().take(n as int) =~= m.deep_view());
    out
}

/// The symbol index once `file`'s definitions `defs` are recorded, name by
/// name: each name's entry for `file` is set (in place where `file` already
/// has one).
pub open spec fn index_file_defs(index: IndexView, file: Seq<char>, defs: DefsView) -> IndexView
    decreases defs.len(),
{
    if defs.len() == 0 {
        index
    } else {
        let prev = index_file_defs(index, file, defs.drop_last());
        let n = defs.last().0;
        let inner = match assoc_get(prev, n) {
            Some(v) => v,
            None => Seq::empty(),
        };
        assoc_insert(prev, n, assoc_insert(inner, file, defs.last().1))
    }
}

/// The symbol index once `file`'s entries are removed from the symbols `names`.
pub open spec fn unindex_file(index: IndexView, file: Seq<char>, names: Seq<Seq<char>>) -> IndexView
    decreases names.len(),
{
    if names.len() == 0 {
        index
    } else {
        let prev = unindex_file(index, file, names.drop_last());
        let n = names.last();
        match assoc_get(prev, n) {
            Some(inner) => assoc_insert(prev, n, assoc_remove(inner, file)),
            None => prev,
        }
    }
}

/// A definition's name position can be added up: its column plus its
/// length fits in a `u32`.
pub open spec fn def_in_range(d: DefinitionView) -> bool {
    match d.source {
        SourceView::Source { column, len, .. } => column + len <= u32::MAX,
        _ => true,
    }
}

/// Every definition of `l` is in range.
pub open spec fn defs_in_range(l: DefsView) -> bool {
    forall|i: int, j: int|
        0 <= i < l.len() && 0 <= j < l[i].1.len() ==> def_in_range(#[trigger] l[i].1[j])
}

/// Every definition of the symbol index is in range.
pub open spec fn index_in_range(idx: IndexView) -> bool {
    forall|i: int| 0 <= i < idx.len() ==> defs_in_range(#[trigger] idx[i].1)
}

proof fn lemma_defs_insert_in_range(l: DefsView, k: Seq<char>, v: Seq<DefinitionView>)
    requires
        defs_in_range(l),
        forall|j: int| 0 <= j < v.len() ==> def_in_range(#[trigger] v[j]),
    ensures
        defs_in_range(assoc_insert(l, k, v)),
        defs_in_range(assoc_remove(l, k)),
{
    crate::map::lemma_find_some(l, k);
    let l2 = assoc_insert(l, k, v);
    assert forall|i: int, j: int| 0 <= i < l2.len() && 0 <= j < l2[i].1.len() implies def_in_range(
        #[trigger] l2[i].1[j],
    ) by {
        if assoc_find(l, k) == Some(i) {
        } else if i < l.len() {
            assert(l2[i] == l[i]);
        }
    }
    let l3 = assoc_remove(l, k);
    assert forall|i: int, j: int| 0 <= i < l3.len() && 0 <= j < l3[i].1.len() implies def_in_range(
        #[trigger] l3[i].1[j],
    ) by {
        match assoc_find(l, k) {
            Some(p) => {
                if i < p {
                    assert(l3[i] == l[i]);
                } else {
                    assert(l3[i] == l[i + 1]);
                }
            },
            None => {},
        }
    }
}

proof fn lemma_index_insert_in_range(idx: IndexView, k: Seq<char>, v: DefsView)
    requires
        index_in_range(idx),
        defs_in_range(v),
    ensures
        index_in_range(assoc_insert(idx, k, v)),
{
    crate::map::lemma_find_some(idx, k);
    let l2 = assoc_insert(idx, k, v);
    assert forall|i: int| 0 <= i < l2.len() implies defs_in_range(#[trigger] l2[i].1) by {
        if assoc_find(idx, k) == Some(i) {
        } else if i < idx.len() {
            assert(l2[i] == idx[i]);
        }
    }
}

proof fn lemma_index_get_in_range(idx: IndexView, k: Seq<char>)
    requires
        index_in_range(idx),
    ensures
        assoc_get(idx, k) matches Some(v) ==> defs_in_range(v),
{
    crate::map::lemma_find_some(idx, k);
}

/// Recording a file's in-range definitions keeps the symbol index in range.
pub proof fn lemma_index_file_defs_in_range(idx: IndexView, file: Seq<char>, defs: DefsView)
    requires
        index_in_range(idx),
        defs_in_range(defs),
    ensures
        index_in_range(index_file_defs(idx, file, defs)),
    decreases defs.len(),
{
    if defs.len() > 0 {
        let rest = defs.drop_last();
        assert forall|i: int, j: int| 0 <= i < rest.len() && 0 <= j < rest[i].1.len() implies def_in_range(
            #[trigger] rest[i].1[j],
        ) by {
            assert(rest[i] == defs[i]);
        }
        lemma_index_file_defs_in_range(idx, file, rest);
        let prev = index_file_defs(idx, file, rest);
        let n = defs.last().0;
        lemma_index_get_in_range(prev, n);
        let inner = match assoc_get(prev, n) {
            Some(v) => v,
            None => Seq::empty(),
        };
        let d = defs.last().1;
        assert forall|j: int| 0 <= j < d.len() implies def_in_range(#[trigger] d[j]) by {
            assert(d[j] == defs[defs.len() - 1].1[j]);
        }
        lemma_defs_insert_in_range(inner, file, d);
        lemma_index_insert_in_range(prev, n, assoc_insert(inner, file, d));
    }
}

/// Removing a file's entries keeps the symbol index in range.
pub proof fn lemma_unindex_file_in_range(idx: IndexView, file: Seq<char>, names: Seq<Seq<char>>)
    requires
        index_in_range(idx),
    ensures
        index_in_range(unindex_file(idx, file, names)),
    decreases names.len(),
{
    if names.len() > 0 {
        lemma_unindex_file_in_range(idx, file, names.drop_last());
        let prev = unindex_file(idx, file, names.drop_last());
        let n = names.last();
        lemma_index_get_in_range(prev, n);
        match assoc_get(prev, n) {
            Some(inner) => {
                lemma_defs_insert_in_range(inner, file, Seq::empty());
                lemma_index_insert_in_range(prev, n, assoc_remove(inner, file));
            },
            None => {},
        }
    }
}

/// Sets `index[name][file]` to `d`.
fn set_file_entry(index: &mut StrMap<StrMap<Vec<Definition>>>, name: String, file: &str, d: Vec<Definition>)
    ensures
        final(index).deep_view() == assoc_insert(
            old(index).deep_view(),
            name@,
            assoc_insert(
                match assoc_get(old(index).deep_view(), name@) {
                    Some(v) => v,
                    None => Seq::empty(),
                },
                file@,
                d.deep_view(),
            ),
        ),
{
    let ghost l = index.deep_view();
    proof {
        crate::map::lemma_find_some(l, name@);
    }
    match index.find(name.as_str()) {
        Some(i) => {
            let mut inner = index.replace_at(i, StrMap::new());
            inner.insert(file.to_owned(), d);
            let ghost nv = inner.deep_view();
            index.replace_at(i, inner);
            assert(index.deep_view() =~= l.update(i as int, (name@, nv)));
        },
        None => {
            let mut inner: StrMap<Vec<Definition>> = StrMap::new();
            inner.insert(file.to_owned(), d);
            index.insert(name, inner);
        },
    }
}

/// Removes `index[name][file]`, where `name` has an entry.
fn remove_file_entry(index: &mut StrMap<StrMap<Vec<Definition>>>, name: &str, file: &str)
    ensures
        final(index).deep_view() == match assoc_get(old(index).deep_view(), name@) {
            Some(inner) => assoc_insert(old(index).deep_view(), name@, assoc_remove(inner, file@)),
            None => old(index).deep_view(),
        },
{
    let ghost l = index.deep_view();
    proof {
        crate::map::lemma_find_some(l, name@);
    }
    match index.find(name) {
        Some(i) => {
            let mut inner = index.replace_at(i, StrMap::new());
            let _ = inner.remove(file);
            let ghost nv = inner.deep_view();
            index.replace_at(i, inner);
            assert(index.deep_view() =~= l.update(i as int, (name@, nv)));
        },
        None => {},
    }
}

/// Records each definition list of `defs` under its name and `file`.
fn index_definitions(index: &mut StrMap<StrMap<Vec<Definition>>>, file: &str, defs: &StrMap<Vec<Definition>>)
    ensures
        final(index).deep_view() == index_file_defs(old(index).deep_view(), file@, defs.deep_view()),
{
    let ghost start = index.deep_view();
    let ghost dv = defs.deep_view();
    let n = defs.len();
    let mut i: usize = 0;
    assert(dv.take(0) =~= Seq::<(Seq<char>, Seq<DefinitionView>)>::empty());
    while i < n
        invariant
            n == dv.len(),
            dv == defs.deep_view(),
            i <= n,
            index.deep_view() == index_file_defs(start, file@, dv.take(i as int)),
        decreases n - i,
    {
        let name = defs.key_at(i).clone();
        let d = clone_definitions(defs.value_at(i));
        set_file_entry(index, name, file, d);
        assert(dv.take(i + 1).drop_last() =~= dv.take(i as int));
        i = i + 1;
    }
    assert(dv.take(n as int) =~= dv);
}

/// Removes `file`'s entry from each symbol named in `defs`.
fn unindex_definitions(index: &mut StrMap<StrMap<Vec<Definition>>>, file: &str, defs: &StrMap<Vec<Definition>>)
    ensures
        final(index).deep_view() == unindex_file(
            old(index).deep_view(),
            file@,
            crate::map::assoc_keys(defs.deep_view()),
        ),
{
    let ghost start = index.deep_view();
    let ghost names = crate::map::assoc_keys(defs.deep_view());
    let n = defs.len();
    let mut i: usize = 0;
    assert(names.take(0) =~= Seq::<Seq<char>>::empty());
    while i < n
        invariant
            n == names.len(),
            names == crate::map::assoc_keys(defs.deep_view()),
            i <= n,
            index.deep_view() == unindex_file(start, file@, names.take(i as int)),
        decreases n - i,
    {
        remove_file_entry(index, defs.key_at(i).as_str(), file);
        assert(names.take(i + 1).drop_last() =~= names.take(i as int));
        i = i + 1;
    }
    assert(names.take(n as int) =~= names);
}

proof fn lemma_defs_get_in_range(l: DefsView, k: Seq<char>)
    requires
        defs_in_range(l),
    ensures
        assoc_get(l, k) matches Some(v) ==> forall|j: int| 0 <= j < v.len() ==> def_in_range(#[trigger] v[j]),
{
    crate::map::lemma_find_some(l, k);
}

/// `d` added to the definitions of `name` keeps them in range.
proof fn lemma_add_definition_in_range(l: DefsView, name: Seq<char>, d: DefinitionView)
    requires
        defs_in_range(l),
        def_in_range(d),
    ensures
        defs_in_range(add_definition(l, name, d)),
{
    lemma_defs_get_in_range(l, name);
    let v = match assoc_get(l, name) {
        Some(v) => v.push(d),
        None => seq![d],
    };
    assert forall|j: int| 0 <= j < v.len() implies def_in_range(#[trigger] v[j]) by {
        match assoc_get(l, name) {
            Some(w) => {
                if j < w.len() {
                    assert(v[j] == w[j]);
                }
            },
            None => {},
        }
    }
    lemma_defs_insert_in_range(l, name, v);
}

/// A definition read from a match is in range: its name's column plus
/// length is the name's end column.
proof fn lemma_def_match_in_range(caps: Seq<Capture>, file: Seq<char>)
    ensures
        def_match_spec(caps, file) matches MatchOutcome::Parsed(_, d) ==> def_in_range(d),
{
}

/// The definitions read from a file's matches are in range.
pub proof fn lemma_group_matches_in_range(ms: Seq<Seq<Capture>>, file: Seq<char>)
    ensures
        defs_in_range(group_matches(ms, file)),
    decreases ms.len(),
{
    if ms.len() > 0 {
        lemma_group_matches_in_range(ms.drop_last(), file);
        lemma_def_match_in_range(ms.last(), file);
        match def_match_spec(ms.last(), file) {
            MatchOutcome::Parsed(n, d) => {
                lemma_add_definition_in_range(group_matches(ms.drop_last(), file), n, d);
            },
            _ => {},
        }
    }
}

/// Definitions listed in collections or entry files are in range.
pub proof fn lemma_push_all_in_range(l: DefsView, cs: Seq<(Seq<char>, DefinitionView)>)
    requires
        defs_in_range(l),
        forall|i: int| 0 <= i < cs.len() ==> def_in_range(#[trigger] cs[i].1),
    ensures
        defs_in_range(push_all(l, cs)),
    decreases cs.len(),
{
    if cs.len() > 0 {
        assert forall|i: int| 0 <= i < cs.drop_last().len() implies def_in_range(
            #[trigger] cs.drop_last()[i].1,
        ) by {
            assert(cs.drop_last()[i] == cs[i]);
        }
        lemma_push_all_in_range(l, cs.drop_last());
        assert(def_in_range(cs[cs.len() - 1].1));
        lemma_add_definition_in_range(push_all(l, cs.drop_last()), cs.last().0, cs.last().1);
    }
}

/// Listed definitions with a collection source are in range.
pub proof fn lemma_collection_contributions_in_range(ds: Seq<crate::entry::Definition>, path: Seq<char>)
    ensures
        defs_in_range(push_all(Seq::empty(), contributions(ds, SourceView::Collection { path }))),
{
    let cs = contributions(ds, SourceView::Collection { path });
    assert forall|i: int| 0 <= i < cs.len() implies def_in_range(#[trigger] cs[i].1) by {}
    lemma_push_all_in_range(Seq::empty(), cs);
}

/// The files once `file` is recorded with its definitions `defs`: a known
/// file keeps its text and tree and takes the new definitions; a new file is
/// added with `content`, `tree` and `defs`.
pub open spec fn record_file_spec(
    files: Seq<(Seq<char>, FileView)>,
    file: Seq<char>,
    content: Seq<char>,
    tree: Option<Seq<char>>,
    defs: DefsView,
) -> Seq<(Seq<char>, FileView)> {
    match assoc_get(files, file) {
        Some(f) => assoc_insert(
            files,
            file,
            FileView { content: f.content, tree: f.tree, definitions: defs },
        ),
        None => assoc_insert(files, file, FileView { content, tree, definitions: defs }),
    }
}

/// The files once a known `file` takes the text `content`; its tree stays
/// and its definitions are emptied (they have moved into the symbol index).
pub open spec fn update_file_spec(files: Seq<(Seq<char>, FileView)>, file: Seq<char>, content: Seq<char>) -> Seq<(Seq<char>, FileView)> {
    match assoc_get(files, file) {
        Some(f) => assoc_insert(
            files,
            file,
            FileView { content, tree: f.tree, definitions: Seq::empty() },
        ),
        None => files,
    }
}

/// The symbol index once a known file's definitions are replaced by `defs`:
/// the file's entries for the symbols of `defs` are removed and then set,
/// so that they come last among the symbol's files.
pub open spec fn reindex_file_defs(index: IndexView, file: Seq<char>, defs: DefsView) -> IndexView {
    index_file_defs(unindex_file(index, file, crate::map::assoc_keys(defs)), file, defs)
}

/// The definitions of an entry file: its inline definitions, with the
/// entry point as source, each name's in the order they are listed.
pub open spec fn entry_file_defs(entry: EntryFile) -> DefsView {
    push_all(
        Seq::empty(),
        contributions(
            crate::entry::inline_definitions(entry.extension@),
            SourceView::Collection { path: entry.entry_point@ },
        ),
    )
}

/// The definitions of a collection file at `file`, each name's in the
/// order they are listed.
pub open spec fn collection_file_defs(def_file: crate::entry::DefinitionFile, file: Seq<char>) -> DefsView {
    push_all(Seq::empty(), contributions(def_file.definitions@, SourceView::Collection { path: file }))
}

/// How a file of an entry is read for indexing.
#[derive(Debug, PartialEq, Eq, Structural)]
pub enum IndexPlan {
    /// A lispBM file: read it and query its definitions.
    LispFile,
    /// An entry file: read and load it.
    EntryFile,
    /// The file name of a builtin: take the builtin's reference document as
    /// its text, then read it as a definition collection.
    BuiltinFile(Builtin),
    /// A definition collection file: read it.
    CollectionFile,
    /// A `.builtin.ext.toml` name that names no builtin: skip it.
    UnsupportedBuiltin,
    /// Another extension: skip it.
    UnsupportedExtension,
}

/// How a file whose text changed is read again.
#[derive(Debug, PartialEq, Eq, Structural)]
pub enum UpdatePlan {
    /// The file is not indexed: nothing changes.
    NotIndexed,
    /// A lispBM file: query the definitions on its tree.
    LispFile,
    /// An entry file: load it again.
    EntryFile,
    /// A definition collection: read the new text.
    CollectionFile,
    /// Another extension: nothing changes.
    UnsupportedExtension,
}

/// Whether the file's extension marks lispBM source.
pub open spec fn is_lisp_source(file: Seq<char>) -> bool {
    spec_extension(file) == Some("lisp"@) || spec_extension(file) == Some("lsp"@)
}

/// Whether the file's extension is `toml`.
pub open spec fn is_toml(file: Seq<char>) -> bool {
    spec_extension(file) == Some("toml"@)
}

/// Whether the file is named `entry.toml`.
pub open spec fn is_entry_file(file: Seq<char>) -> bool {
    spec_file_name(file) == Some("entry.toml"@)
}

/// How a file of an entry is read for indexing, by its extension and name.
pub open spec fn index_plan_spec(file: Seq<char>) -> IndexPlan {
    if is_lisp_source(file) {
        IndexPlan::LispFile
    } else if is_toml(file) {
        if is_entry_file(file) {
            IndexPlan::EntryFile
        } else {
            match spec_file_name(file) {
                Some(s) => if ends_with(s, ".builtin.ext.toml"@) {
                    match spec_from_filename(s) {
                        Some(b) => IndexPlan::BuiltinFile(b),
                        None => IndexPlan::UnsupportedBuiltin,
                    }
                } else {
                    IndexPlan::CollectionFile
                },
                None => IndexPlan::CollectionFile,
            }
        }
    } else {
        IndexPlan::UnsupportedExtension
    }
}

/// Whether the extension of `file` is `e`.
fn extension_is(ext: &Option<String>, e: &str) -> (r: bool)
    ensures
        r == (ext.deep_view() == Some(e@)),
{
    match ext {
        Some(x) => str_eq(x.as_str(), e),
        None => false,
    }
}

impl State {
    /// The state is well formed: every definition in the symbol index is in range.
    pub open spec fn wf(&self) -> bool {
        index_in_range(self.symbol_index.deep_view())
    }

    /// An empty state, with no root.
    pub fn new() -> (s: Self)
        ensures
            s.wf(),
            s.entry_files.deep_view().len() == 0,
            s.entry_to_files.deep_view().len() == 0,
            s.symbol_index.deep_view().len() == 0,
            s.files.deep_view().len() == 0,
            s.root@.len() == 0,
    {
        State {
            entry_files: StrMap::new(),
            entry_to_files: StrMap::new(),
            symbol_index: StrMap::new(),
            files: StrMap::new(),
            root: String::new(),
        }
    }

    /// Sets the workspace root.
    pub fn set_root(&mut self, path: String)
        ensures
            final(self).root@ == path@,
            final(self).entry_files.deep_view() == old(self).entry_files.deep_view(),
            final(self).entry_to_files.deep_view() == old(self).entry_to_files.deep_view(),
            final(self).symbol_index.deep_view() == old(self).symbol_index.deep_view(),
            final(self).files.deep_view() == old(self).files.deep_view(),
    {
        self.root = path;
    }

    /// How a file of an entry is read for indexing.
    pub fn index_plan(file: &str) -> (r: IndexPlan)
        ensures
            r == index_plan_spec(file@),
    {
        let ext = path_extension(file);
        if extension_is(&ext, "lisp") || extension_is(&ext, "lsp") {
            IndexPlan::LispFile
        } else if extension_is(&ext, "toml") {
            let name = path_file_name(file);
            if extension_is(&name, "entry.toml") {
                IndexPlan::EntryFile
            } else {
                match name {
                    Some(s) => {
                        if str_ends_with(s.as_str(), ".builtin.ext.toml") {
                            match Builtin::from_filename(s.as_str()) {
                                Some(b) => IndexPlan::BuiltinFile(b),
                                None => IndexPlan::UnsupportedBuiltin,
                            }
                        } else {
                            IndexPlan::CollectionFile
                        }
                    },
                    None => IndexPlan::CollectionFile,
                }
            }
        } else {
            IndexPlan::UnsupportedExtension
        }
    }

    /// How a file whose text changed is read again.
    pub fn update_plan(&self, file: &FileId) -> (r: UpdatePlan)
        ensures
            r == (if !crate::map::assoc_contains(self.files.deep_view(), file.0@) {
                UpdatePlan::NotIndexed
            } else if is_lisp_source(file.0@) {
                UpdatePlan::LispFile
            } else if is_toml(file.0@) {
                if is_entry_file(file.0@) {
                    UpdatePlan::EntryFile
                } else {
                    UpdatePlan::CollectionFile
                }
            } else {
                UpdatePlan::UnsupportedExtension
            }),
    {
        if !self.files.contains_key(file.as_str()) {
            return UpdatePlan::NotIndexed;
        }
        let ext = path_extension(file.as_str());
        if extension_is(&ext, "lisp") || extension_is(&ext, "lsp") {
            UpdatePlan::LispFile
        } else if extension_is(&ext, "toml") {
            if extension_is(&path_file_name(file.as_str()), "entry.toml") {
                UpdatePlan::EntryFile
            } else {
                UpdatePlan::CollectionFile
            }
        } else {
            UpdatePlan::UnsupportedExtension
        }
    }

    /// Records `file` with its definitions: a known file takes the new
    /// definitions, a new one is added with `content` and `tree`.
    fn record_file(&mut self, file: &str, content: String, tree: Option<String>, defs: StrMap<Vec<Definition>>)
        ensures
            final(self).files.deep_view() == record_file_spec(
                old(self).files.deep_view(),
                file@,
                content@,
                tree.deep_view(),
                defs.deep_view(),
            ),
            final(self).entry_files.deep_view() == old(self).entry_files.deep_view(),
            final(self).entry_to_files.deep_view() == old(self).entry_to_files.deep_view(),
            final(self).symbol_index.deep_view() == old(self).symbol_index.deep_view(),
            final(self).root == old(self).root,
    {
        let ghost l = self.files.deep_view();
        proof {
            crate::map::lemma_find_some(l, file@);
        }
        match self.files.find(file) {
            Some(i) => {
                let placeholder = File { content: String::new(), tree: None, definitions: StrMap::new() };
                let mut f = self.files.replace_at(i, placeholder);
                f.definitions = defs;
                let ghost nv = f.deep_view();
                self.files.replace_at(i, f);
                assert(self.files.deep_view() =~= l.update(i as int, (file@, nv)));
            },
            None => {
                self.files.insert(file.to_owned(), File { content, tree, definitions: defs });
            },
        }
    }

    /// Records `file`'s definitions in the file table and the symbol index.
    fn index_file(&mut self, file: &str, content: String, tree: Option<String>, defs: StrMap<Vec<Definition>>)
        requires
            old(self).wf(),
            defs_in_range(defs.deep_view()),
        ensures
            final(self).wf(),
            final(self).files.deep_view() == record_file_spec(
                old(self).files.deep_view(),
                file@,
                content@,
                tree.deep_view(),
                defs.deep_view(),
            ),
            final(self).symbol_index.deep_view() == index_file_defs(
                old(self).symbol_index.deep_view(),
                file@,
                defs.deep_view(),
            ),
            final(self).entry_files.deep_view() == old(self).entry_files.deep_view(),
            final(self).entry_to_files.deep_view() == old(self).entry_to_files.deep_view(),
            final(self).root == old(self).root,
    {
        proof {
            lemma_index_file_defs_in_range(self.symbol_index.deep_view(), file@, defs.deep_view());
        }
        index_definitions(&mut self.symbol_index, file, &defs);
        self.record_file(file, content, tree, defs);
    }

    /// Indexes a lispBM file of an entry, given its text and the matches of
    /// the definition query on it: the file (new files with the text and
    /// its tree) and each definition under its name and the file.
    pub fn index_lisp_file(&mut self, file: &FileId, content: String, matches: &Vec<Vec<Capture>>)
        requires
            old(self).wf(),
            all_matches_parse(matches@.map_values(|m: Vec<Capture>| m@), file.0@),
        ensures
            final(self).wf(),
            final(self).files.deep_view() == record_file_spec(
                old(self).files.deep_view(),
                file.0@,
                content@,
                Some(content@),
                group_matches(matches@.map_values(|m: Vec<Capture>| m@), file.0@),
            ),
            final(self).symbol_index.deep_view() == index_file_defs(
                old(self).symbol_index.deep_view(),
                file.0@,
                group_matches(matches@.map_values(|m: Vec<Capture>| m@), file.0@),
            ),
            final(self).entry_files.deep_view() == old(self).entry_files.deep_view(),
            final(self).entry_to_files.deep_view() == old(self).entry_to_files.deep_view(),
            final(self).root == old(self).root,
    {
        let defs = match Definition::parse_definitions(matches, file.as_str()) {
            Ok(d) => d,
            Err(_) => StrMap::new(),
        };
        proof {
            lemma_group_matches_in_range(matches@.map_values(|m: Vec<Capture>| m@), file.0@);
        }
        let tree = Some(content.clone());
        self.index_file(file.as_str(), content, tree, defs);
    }

    /// Indexes the entry file `file` of entry `id`, given its text and the
    /// loaded entry: the file with the entry's inline definitions (no tree),
    /// the entry under `id`, and the definitions in the symbol index.
    pub fn index_entry_file(&mut self, id: &EntryId, file: &FileId, content: String, entry: EntryFile)
        requires
            old(self).wf(),
        ensures
            final(self).wf(),
            final(self).files.deep_view() == record_file_spec(
                old(self).files.deep_view(),
                file.0@,
                content@,
                None,
                entry_file_defs(entry),
            ),
            final(self).symbol_index.deep_view() == index_file_defs(
                old(self).symbol_index.deep_view(),
                file.0@,
                entry_file_defs(entry),
            ),
            final(self).entry_files.deep_view() == assoc_insert(
                old(self).entry_files.deep_view(),
                id.0@,
                entry,
            ),
            final(self).entry_to_files.deep_view() == old(self).entry_to_files.deep_view(),
            final(self).root == old(self).root,
    {
        let defs = entry.get_ext_inline_definitions();
        proof {
            lemma_collection_contributions_in_range(
                crate::entry::inline_definitions(entry.extension@),
                entry.entry_point@,
            );
        }
        self.index_file(file.as_str(), content, None, defs);
        self.entry_files.insert(id.0.clone(), entry);
    }

    /// Indexes the definition collection `file`, given its text and its
    /// parsed contents: the file with its definitions (no tree), and the
    /// definitions in the symbol index.
    pub fn index_collection_file(&mut self, file: &FileId, content: String, def_file: &crate::entry::DefinitionFile)
        requires
            old(self).wf(),
        ensures
            final(self).wf(),
            final(self).files.deep_view() == record_file_spec(
                old(self).files.deep_view(),
                file.0@,
                content@,
                None,
                collection_file_defs(*def_file, file.0@),
            ),
            final(self).symbol_index.deep_view() == index_file_defs(
                old(self).symbol_index.deep_view(),
                file.0@,
                collection_file_defs(*def_file, file.0@),
            ),
            final(self).entry_files.deep_view() == old(self).entry_files.deep_view(),
            final(self).entry_to_files.deep_view() == old(self).entry_to_files.deep_view(),
            final(self).root == old(self).root,
    {
        let defs = def_file.get_definitions(file.as_str());
        proof {
            lemma_collection_contributions_in_range(def_file.definitions@, file.0@);
        }
        self.index_file(file.as_str(), content, None, defs);
    }

    /// Replaces a known file's definitions by `defs` and its text by
    /// `content`.
    fn reindex_file(&mut self, file: &str, content: String, defs: StrMap<Vec<Definition>>)
        requires
            old(self).wf(),
            defs_in_range(defs.deep_view()),
            crate::map::assoc_contains(old(self).files.deep_view(), file@),
        ensures
            final(self).wf(),
            final(self).files.deep_view() == update_file_spec(
                old(self).files.deep_view(),
                file@,
                content@,
            ),
            final(self).symbol_index.deep_view() == reindex_file_defs(
                old(self).symbol_index.deep_view(),
                file@,
                defs.deep_view(),
            ),
            final(self).entry_files.deep_view() == old(self).entry_files.deep_view(),
            final(self).entry_to_files.deep_view() == old(self).entry_to_files.deep_view(),
            final(self).root == old(self).root,
    {
        proof {
            lemma_unindex_file_in_range(
                self.symbol_index.deep_view(),
                file@,
                crate::map::assoc_keys(defs.deep_view()),
            );
            lemma_index_file_defs_in_range(
                unindex_file(
                    self.symbol_index.deep_view(),
                    file@,
                    crate::map::assoc_keys(defs.deep_view()),
                ),
                file@,
                defs.deep_view(),
            );
        }
        unindex_definitions(&mut self.symbol_index, file, &defs);
        index_definitions(&mut self.symbol_index, file, &defs);
        let ghost l = self.files.deep_view();
        proof {
            crate::map::lemma_find_some(l, file@);
        }
        match self.files.find(file) {
            Some(i) => {
                let placeholder = File { content: String::new(), tree: None, definitions: StrMap::new() };
                let mut f = self.files.replace_at(i, placeholder);
                f.definitions = StrMap::new();
                f.content = content;
                let ghost nv = f.deep_view();
                self.files.replace_at(i, f);
                assert(self.files.deep_view() =~= l.update(i as int, (file@, nv)));
            },
            None => {},
        }
    }

    /// Reads a known lispBM file's definitions again, given its new text and
    /// the matches of the definition query on its tree.
    pub fn update_lisp_definitions(&mut self, file: &FileId, content: String, matches: &Vec<Vec<Capture>>)
        requires
            old(self).wf(),
            crate::map::assoc_contains(old(self).files.deep_view(), file.0@) ==> all_matches_parse(
                matches@.map_values(|m: Vec<Capture>| m@),
                file.0@,
            ),
        ensures
            final(self).wf(),
            crate::map::assoc_contains(old(self).files.deep_view(), file.0@) ==> {
                &&& final(self).files.deep_view() == update_file_spec(
                    old(self).files.deep_view(),
                    file.0@,
                    content@,
                )
                &&& final(self).symbol_index.deep_view() == reindex_file_defs(
                    old(self).symbol_index.deep_view(),
                    file.0@,
                    group_matches(matches@.map_values(|m: Vec<Capture>| m@), file.0@),
                )
            },
            !crate::map::assoc_contains(old(self).files.deep_view(), file.0@) ==> {
                &&& final(self).files.deep_view() == old(self).files.deep_view()
                &&& final(self).symbol_index.deep_view() == old(self).symbol_index.deep_view()
            },
            final(self).entry_files.deep_view() == old(self).entry_files.deep_view(),
            final(self).entry_to_files.deep_view() == old(self).entry_to_files.deep_view(),
            final(self).root == old(self).root,
    {
        if !self.files.contains_key(file.as_str()) {
            return;
        }
        let defs = match Definition::parse_definitions(matches, file.as_str()) {
            Ok(d) => d,
            Err(_) => StrMap::new(),
        };
        proof {
            lemma_group_matches_in_range(matches@.map_values(|m: Vec<Capture>| m@), file.0@);
        }
        self.reindex_file(file.as_str(), content, defs);
    }

    /// Reads a known entry file again, given its new text and the loaded
    /// entry: the entry is stored under the file's path, and the file's
    /// definitions become the entry's inline definitions.
    pub fn update_entry_definitions(&mut self, file: &FileId, content: String, entry: EntryFile)
        requires
            old(self).wf(),
        ensures
            final(self).wf(),
            crate::map::assoc_contains(old(self).files.deep_view(), file.0@) ==> {
                &&& final(self).files.deep_view() == update_file_spec(
                    old(self).files.deep_view(),
                    file.0@,
                    content@,
                )
                &&& final(self).symbol_index.deep_view() == reindex_file_defs(
                    old(self).symbol_index.deep_view(),
                    file.0@,
                    entry_file_defs(entry),
                )
                &&& final(self).entry_files.deep_view() == assoc_insert(
                    old(self).entry_files.deep_view(),
                    file.0@,
                    entry,
                )
            },
            !crate::map::assoc_contains(old(self).files.deep_view(), file.0@) ==> {
                &&& final(self).files.deep_view() == old(self).files.deep_view()
                &&& final(self).symbol_index.deep_view() == old(self).symbol_index.deep_view()
                &&& final(self).entry_files.deep_view() == old(self).entry_files.deep_view()
            },
            final(self).entry_to_files.deep_view() == old(self).entry_to_files.deep_view(),
            final(self).root == old(self).root,
    {
        if !self.files.contains_key(file.as_str()) {
            return;
        }
        let defs = entry.get_ext_inline_definitions();
        proof {
            lemma_collection_contributions_in_range(
                crate::entry::inline_definitions(entry.extension@),
                entry.entry_point@,
            );
        }
        self.entry_files.insert(file.0.clone(), entry);
        self.reindex_file(file.as_str(), content, defs);
    }

    /// Reads a known definition collection again, given its new text and
    /// its parsed contents.
    pub fn update_collection_definitions(&mut self, file: &FileId, content: String, def_file: &crate::entry::DefinitionFile)
        requires
            old(self).wf(),
        ensures
            final(self).wf(),
            crate::map::assoc_contains(old(self).files.deep_view(), file.0@) ==> {
                &&& final(self).files.deep_view() == update_file_spec(
                    old(self).files.deep_view(),
                    file.0@,
                    content@,
                )
                &&& final(self).symbol_index.deep_view() == reindex_file_defs(
                    old(self).symbol_index.deep_view(),
                    file.0@,
                    collection_file_defs(*def_file, file.0@),
                )
            },
            !crate::map::assoc_contains(old(self).files.deep_view(), file.0@) ==> {
                &&& final(self).files.deep_view() == old(self).files.deep_view()
                &&& final(self).symbol_index.deep_view() == old(self).symbol_index.deep_view()
            },
            final(self).entry_files.deep_view() == old(self).entry_files.deep_view(),
            final(self).entry_to_files.deep_view() == old(self).entry_to_files.deep_view(),
            final(self).root == old(self).root,
    {
        if !self.files.contains_key(file.as_str()) {
            return;
        }
        let defs = def_file.get_definitions(file.as_str());
        proof {
            lemma_collection_contributions_in_range(def_file.definitions@, file.0@);
        }
        self.reindex_file(file.as_str(), content, defs);
    }

    /// Gives a known file a syntax tree parsed from `content`.
    pub fn update_tree(&mut self, file: &FileId, content: &str)
        ensures
            final(self).files.deep_view() == match assoc_get(old(self).files.deep_view(), file.0@) {
                Some(f) => assoc_insert(
                    old(self).files.deep_view(),
                    file.0@,
                    FileView { content: f.content, tree: Some(content@), definitions: f.definitions },
                ),
                None => old(self).files.deep_view(),
            },
            final(self).symbol_index.deep_view() == old(self).symbol_index.deep_view(),
            final(self).entry_files.deep_view() == old(self).entry_files.deep_view(),
            final(self).entry_to_files.deep_view() == old(self).entry_to_files.deep_view(),
            final(self).root == old(self).root,
    {
        let ghost l = self.files.deep_view();
        proof {
            crate::map::lemma_find_some(l, file.0@);
        }
        match self.files.find(file.as_str()) {
            Some(i) => {
                let placeholder = File { content: String::new(), tree: None, definitions: StrMap::new() };
                let mut f = self.files.replace_at(i, placeholder);
                f.tree = Some(content.to_owned());
                let ghost nv = f.deep_view();
                self.files.replace_at(i, f);
                assert(self.files.deep_view() =~= l.update(i as int, (file.0@, nv)));
            },
            None => {},
        }
    }
}

/// All definitions of a symbol's files, file after file.
pub open spec fn flatten_defs(inner: DefsView) -> Seq<DefinitionView>
    decreases inner.len(),
{
    if inner.len() == 0 {
        Seq::empty()
    } else {
        flatten_defs(inner.drop_last()) + inner.last().1
    }
}

/// The mathematical value of the text of a syntax node.
pub open spec fn node_text_view(t: Option<Result<String, String>>) -> Option<Result<Seq<char>, Seq<char>>> {
    match t {
        Some(Ok(s)) => Some(Ok(s@)),
        Some(Err(e)) => Some(Err(e@)),
        None => None,
    }
}

/// The definitions of the symbol whose text is `node`: every definition
/// that any file gives the symbol, file after file; none where there is no
/// node or its text is not UTF-8.
pub open spec fn definitions_at(index: IndexView, node: Option<Result<Seq<char>, Seq<char>>>) -> Seq<DefinitionView> {
    match node {
        Some(Ok(symbol)) => match assoc_get(index, symbol) {
            Some(inner) => flatten_defs(inner),
            None => Seq::empty(),
        },
        _ => Seq::empty(),
    }
}

/// A location that goto-definition answers: a file and a range on one line.
#[derive(Debug)]
pub struct LocationInfo {
    pub file: String,
    pub line: u32,
    pub start: u32,
    pub end: u32,
}

/// The mathematical value of a `LocationInfo`.
pub struct LocationView {
    pub file: Seq<char>,
    pub line: u32,
    pub start: u32,
    pub end: u32,
}

impl LocationInfo {
    pub open spec fn view(self) -> LocationView {
        LocationView { file: self.file@, line: self.line, start: self.start, end: self.end }
    }
}

/// The locations of the definitions that lie in source files: the
/// definition's name, from its column to its column plus its length.
pub open spec fn locations_of(ds: Seq<DefinitionView>) -> Seq<LocationView>
    decreases ds.len(),
{
    if ds.len() == 0 {
        Seq::empty()
    } else {
        locations_of(ds.drop_last()) + match ds.last().source {
            SourceView::Source { file, line, column, len } => seq![
                LocationView { file, line, start: column, end: (column + len) as u32 },
            ],
            _ => Seq::empty(),
        }
    }
}

/// What hover reads of the syntax node under the cursor: its start row and
/// column, its end column, and its text.
#[derive(Debug)]
pub struct NodeInfo {
    pub start_row: usize,
    pub start_column: usize,
    pub end_column: usize,
    pub text: Result<String, String>,
}

/// The text of the node, if there is one.
pub open spec fn node_text_of(node: Option<NodeInfo>) -> Option<Result<Seq<char>, Seq<char>>> {
    match node {
        Some(n) => match n.text {
            Ok(s) => Some(Ok(s@)),
            Err(e) => Some(Err(e@)),
        },
        None => None,
    }
}

/// The hover answer: a markdown text over a range on one line.
#[derive(Debug)]
pub struct HoverInfo {
    pub text: String,
    pub line: u32,
    pub start: u32,
    pub end: u32,
}

/// The name under which hover shows where a definition comes from: a source
/// file's name, a builtin's file name, a collection's path relative to the
/// workspace root (or the path itself where there is no relative form).
pub open spec fn source_label(src: SourceView, root: Seq<char>) -> Seq<char> {
    match src {
        SourceView::Source { file, .. } => match spec_file_name(file) {
            Some(n) => n,
            None => file,
        },
        SourceView::Builtin { name } => name.spec_file_name(),
        SourceView::Collection { path } => match spec_diff_paths(path, root) {
            Some(p) => p,
            None => path,
        },
    }
}

/// A collection's definitions are labelled by the collection: by its path
/// relative to the workspace root where pathdiff forms one, and otherwise
/// by the path itself; so hovering over a single such definition with a
/// comment shows the comment, then that label in bold.
pub proof fn lemma_collection_label(path: Seq<char>, root: Seq<char>, comment: Seq<char>)
    ensures
        spec_diff_paths(path, root) is None ==> source_label(SourceView::Collection { path }, root) == path,
        spec_diff_paths(path, root) matches Some(rel) ==> source_label(SourceView::Collection { path }, root)
            == rel,
        hover_text(
            seq![DefinitionView { comment: Some(comment), source: SourceView::Collection { path } }],
            root,
        ) == comment + "\n\n__"@ + match spec_diff_paths(path, root) {
            Some(rel) => rel,
            None => path,
        } + "__"@,
{
    let d = DefinitionView { comment: Some(comment), source: SourceView::Collection { path } };
    assert(seq![d][0] == d);
    let label = match spec_diff_paths(path, root) {
        Some(rel) => rel,
        None => path,
    };
    assert(comment + ("\n\n__"@ + label + "__"@) =~= comment + "\n\n__"@ + label + "__"@);
}

/// The hover text of one definition: its comment, then its source in bold.
pub open spec fn hover_entry(d: DefinitionView, root: Seq<char>) -> Seq<char> {
    let label = "\n\n__"@ + source_label(d.source, root) + "__"@;
    match d.comment {
        Some(c) => c + label,
        None => label,
    }
}

/// The hover texts of the definitions, separated by rules.
pub open spec fn hover_text(ds: Seq<DefinitionView>, root: Seq<char>) -> Seq<char>
    decreases ds.len(),
{
    if ds.len() == 0 {
        Seq::empty()
    } else if ds.len() == 1 {
        hover_entry(ds[0], root)
    } else {
        hover_text(ds.drop_last(), root) + "\n\n---\n\n"@ + hover_entry(ds.last(), root)
    }
}

/// Whether hover would take the node's end column from its start column
/// below zero: the file is known, the symbol has definitions and the node
/// ends before it starts.
pub open spec fn hover_underflows(files: Seq<(Seq<char>, FileView)>, index: IndexView, file: Seq<char>, node: Option<NodeInfo>) -> bool {
    &&& crate::map::assoc_contains(files, file)
    &&& definitions_at(index, node_text_of(node)).len() > 0
    &&& (node matches Some(n) && (n.end_column as u32) < (n.start_column as u32))
}

/// What answering a diagnostics request asks for next.
#[derive(Debug)]
pub enum DiagnosticsPlan {
    /// No workspace root is set: answer with no diagnostics.
    NoRoot,
    /// The file is not indexed: answer with no diagnostics.
    NotIndexed,
    /// Query the error nodes of the tree parsed from this text.
    Query(String),
}

/// An error or missing node that the diagnostics query found: its kind,
/// its start and end positions, and its text (`None` where it is not UTF-8).
#[derive(Debug)]
pub struct SyntaxNode {
    pub kind: String,
    pub start_row: usize,
    pub start_column: usize,
    pub end_row: usize,
    pub end_column: usize,
    pub text: Option<String>,
}

/// A diagnostic, always of error severity: a range and a message.
#[derive(Debug)]
pub struct DiagnosticInfo {
    pub start_line: u32,
    pub start_character: u32,
    pub end_line: u32,
    pub end_character: u32,
    pub message: String,
}

/// The mathematical value of a diagnostic.
pub struct DiagnosticView {
    pub start_line: u32,
    pub start_character: u32,
    pub end_line: u32,
    pub end_character: u32,
    pub message: Seq<char>,
}

impl DiagnosticInfo {
    pub open spec fn view(self) -> DiagnosticView {
        DiagnosticView {
            start_line: self.start_line,
            start_character: self.start_character,
            end_line: self.end_line,
            end_character: self.end_character,
            message: self.message@,
        }
    }
}

/// The diagnostic of one error node: its range, and its kind, a colon and
/// its text as message.
pub open spec fn diagnostic_of(n: SyntaxNode) -> DiagnosticView {
    DiagnosticView {
        start_line: n.start_row as u32,
        start_character: n.start_column as u32,
        end_line: n.end_row as u32,
        end_character: n.end_column as u32,
        message: n.kind@ + ": "@ + match n.text {
            Some(t) => t@,
            None => Seq::empty(),
        },
    }
}

/// The diagnostics of all nodes of all matches, in order.
pub open spec fn diagnostics_of(ms: Seq<Seq<SyntaxNode>>) -> Seq<DiagnosticView>
    decreases ms.len(),
{
    if ms.len() == 0 {
        Seq::empty()
    } else {
        diagnostics_of(ms.drop_last()) + ms.last().map_values(|n: SyntaxNode| diagnostic_of(n))
    }
}

/// The nodes of all matches, match after match.
pub open spec fn nodes_of(ms: Seq<Seq<SyntaxNode>>) -> Seq<SyntaxNode>
    decreases ms.len(),
{
    if ms.len() == 0 {
        Seq::empty()
    } else {
        nodes_of(ms.drop_last()) + ms.last()
    }
}

/// Whether diagnostic `d` reports node `n`: it spans the node's rows and
/// columns, and its message is the node's kind, a colon and its text.
pub open spec fn reports(d: DiagnosticView, n: SyntaxNode) -> bool {
    &&& d.start_line == n.start_row as u32
    &&& d.start_character == n.start_column as u32
    &&& d.end_line == n.end_row as u32
    &&& d.end_character == n.end_column as u32
    &&& d.message == n.kind@ + ": "@ + match n.text {
        Some(t) => t@,
        None => Seq::empty(),
    }
}

/// There is one diagnostic per error node, in order, and each reports its
/// node: its range starts at the node's start row and column and ends at
/// its end row and column.
pub proof fn lemma_diagnostics_report_nodes(ms: Seq<Seq<SyntaxNode>>)
    ensures
        diagnostics_of(ms).len() == nodes_of(ms).len(),
        forall|i: int| 0 <= i < nodes_of(ms).len() ==> reports(#[trigger] diagnostics_of(ms)[i], nodes_of(ms)[i]),
    decreases ms.len(),
{
    if ms.len() > 0 {
        lemma_diagnostics_report_nodes(ms.drop_last());
        let a = diagnostics_of(ms.drop_last());
        let na = nodes_of(ms.drop_last());
        let m = ms.last();
        let b = m.map_values(|n: SyntaxNode| diagnostic_of(n));
        assert forall|i: int| 0 <= i < nodes_of(ms).len() implies reports(#[trigger] diagnostics_of(ms)[i], nodes_of(ms)[i]) by {
            if i < na.len() {
                assert(diagnostics_of(ms)[i] == a[i]);
                assert(nodes_of(ms)[i] == na[i]);
            } else {
                assert(diagnostics_of(ms)[i] == b[i - a.len()]);
                assert(nodes_of(ms)[i] == m[i - na.len()]);
            }
        }
    }
}

/// A set held as a list: `x` added at the end unless it is there.
pub open spec fn set_insert(s: Seq<Seq<char>>, x: Seq<char>) -> Seq<Seq<char>> {
    if s.contains(x) {
        s
    } else {
        s.push(x)
    }
}

/// The entry-to-files table once `imports` are added to entry `id`.
pub open spec fn import_files_spec(table: Seq<(Seq<char>, Seq<Seq<char>>)>, id: Seq<char>, imports: Seq<Seq<char>>) -> Seq<(Seq<char>, Seq<Seq<char>>)>
    decreases imports.len(),
{
    if imports.len() == 0 {
        table
    } else {
        let prev = import_files_spec(table, id, imports.drop_last());
        assoc_insert(
            prev,
            id,
            set_insert(
                match assoc_get(prev, id) {
                    Some(s) => s,
                    None => Seq::empty(),
                },
                imports.last(),
            ),
        )
    }
}

/// Copies the definitions of `ds` and gives them, file after file.
fn collect_definitions(inner: &StrMap<Vec<Definition>>) -> (r: Vec<Definition>)
    ensures
        r.deep_view() == flatten_defs(inner.deep_view()),
{
    let ghost l = inner.deep_view();
    let mut out: Vec<Definition> = Vec::new();
    let n = inner.len();
    let mut i: usize = 0;
    assert(out.deep_view() =~= Seq::<DefinitionView>::empty());
    assert(l.take(0) =~= Seq::<(Seq<char>, Seq<DefinitionView>)>::empty());
    while i < n
        invariant
            n == l.len(),
            l == inner.deep_view(),
            i <= n,
            out.deep_view() == flatten_defs(l.take(i as int)),
        decreases n - i,
    {
        let v = inner.value_at(i);
        let m = v.len();
        let mut j: usize = 0;
        let ghost base = out.deep_view();
        assert(v.deep_view().take(0) =~= Seq::<DefinitionView>::empty());
        assert(base + v.deep_view().take(0) =~= base);
        while j < m
            invariant
                m == v@.len(),
                v.deep_view() == l[i as int].1,
                j <= m,
                out.deep_view() == base + v.deep_view().take(j as int),
            decreases m - j,
        {
            let c = v[j].clone();
            let ghost old_out = out@;
            let ghost old_dv = out.deep_view();
            out.push(c);
            assert(out@ == old_out.push(c));
            assert(old_dv.len() == old_out.len());
            assert forall|k: int| 0 <= k < out@.len() implies #[trigger] out.deep_view()[k] == (base
                + v.deep_view().take(j + 1))[k] by {
                if k < old_out.len() {
                    assert(old_dv[k] == old_out[k].deep_view());
                }
            }
            assert(out.deep_view() =~= base + v.deep_view().take(j + 1));
            j = j + 1;
        }
        assert(v.deep_view().take(m as int) =~= v.deep_view());
        assert(l.take(i + 1).drop_last() =~= l.take(i as int));
        i = i + 1;
    }
    assert(l.take(n as int) =~= l);
    out
}

/// The label of a definition's source, as hover shows it.
fn source_label_of(src: &SourceInfo, root: &str) -> (r: String)
    ensures
        r@ == source_label(src.deep_view(), root@),
{
    match src {
        SourceInfo::Source { file, .. } => match path_file_name(file.as_str()) {
            Some(n) => n,
            None => file.clone(),
        },
        SourceInfo::Builtin { name } => name.to_string(),
        SourceInfo::Collection { path } => match diff_paths(path.as_str(), root) {
            Some(p) => p,
            None => path.clone(),
        },
    }
}

/// The hover text of one definition.
fn hover_entry_of(d: &Definition, root: &str) -> (r: String)
    ensures
        r@ == hover_entry(d.deep_view(), root@),
{
    let label = "\n\n__".to_owned().concat(source_label_of(&d.source, root).as_str()).concat("__");
    match &d.comment {
        Some(c) => c.clone().concat(label.as_str()),
        None => label,
    }
}

impl State {
    /// The definitions of the symbol under the cursor, given the text of the
    /// syntax node there: every definition that any file gives the symbol,
    /// file after file.
    pub fn get_definition(&self, node_text: &Option<Result<String, String>>) -> (r: Vec<Definition>)
        ensures
            r.deep_view() == definitions_at(self.symbol_index.deep_view(), node_text_view(*node_text)),
    {
        match node_text {
            Some(Ok(symbol)) => match self.symbol_index.get(symbol.as_str()) {
                Some(inner) => collect_definitions(inner),
                None => Vec::new(),
            },
            _ => Vec::new(),
        }
    }

    /// Answers goto-definition for a position in `file`, given the text of
    /// the syntax node there: the locations of the symbol's definitions that
    /// lie in source files. Fails where the file is not indexed.
    pub fn handle_definition(&self, file: &FileId, node_text: &Option<Result<String, String>>) -> (r: Result<Vec<LocationInfo>, String>)
        requires
            self.wf(),
        ensures
            !crate::map::assoc_contains(self.files.deep_view(), file.0@) ==> (r matches Err(e) && e@
                == "File not found in state"@),
            crate::map::assoc_contains(self.files.deep_view(), file.0@) ==> (r matches Ok(v) && v@.map_values(
                |l: LocationInfo| l.view(),
            ) == locations_of(definitions_at(self.symbol_index.deep_view(), node_text_view(*node_text)))),
    {
        if !self.files.contains_key(file.as_str()) {
            return Err("File not found in state".to_owned());
        }
        let defs = self.get_definition(node_text);
        proof {
            lemma_definitions_at_in_range(self.symbol_index.deep_view(), node_text_view(*node_text));
        }
        let ghost dv = defs.deep_view();
        let mut out: Vec<LocationInfo> = Vec::new();
        let n = defs.len();
        let mut i: usize = 0;
        assert(dv.take(0) =~= Seq::<DefinitionView>::empty());
        assert(out@.map_values(|l: LocationInfo| l.view()) =~= Seq::<LocationView>::empty());
        while i < n
            invariant
                n == dv.len(),
                dv == defs.deep_view(),
                forall|k: int| 0 <= k < dv.len() ==> def_in_range(#[trigger] dv[k]),
                i <= n,
                out@.map_values(|l: LocationInfo| l.view()) == locations_of(dv.take(i as int)),
            decreases n - i,
        {
            assert(dv.take(i + 1).drop_last() =~= dv.take(i as int));
            assert(dv[i as int] == defs@[i as int].deep_view());
            assert(def_in_range(dv[i as int]));
            let ghost before = out@.map_values(|l: LocationInfo| l.view());
            match &defs[i].source {
                SourceInfo::Source { file, line, column, len } => {
                    let loc = LocationInfo {
                        file: file.clone(),
                        line: *line,
                        start: *column,
                        end: *column + *len,
                    };
                    out.push(loc);
                    assert(out@.map_values(|l: LocationInfo| l.view()) =~= before + seq![loc.view()]);
                },
                _ => {
                    assert(before + Seq::<LocationView>::empty() =~= before);
                },
            }
            i = i + 1;
        }
        assert(dv.take(n as int) =~= dv);
        Ok(out)
    }

    /// Answers hover for a position in `file`, given the syntax node there:
    /// where the symbol has definitions, their comments and sources,
    /// separated by rules, over the node's range. Fails where the file is
    /// not indexed.
    pub fn handle_hover(&self, file: &FileId, node: &Option<NodeInfo>) -> (r: Result<Option<HoverInfo>, String>)
        requires
            !hover_underflows(self.files.deep_view(), self.symbol_index.deep_view(), file.0@, *node),
        ensures
            !crate::map::assoc_contains(self.files.deep_view(), file.0@) ==> (r matches Err(e) && e@
                == "File not found"@),
            crate::map::assoc_contains(self.files.deep_view(), file.0@) ==> (r matches Ok(h) && {
                let ds = definitions_at(self.symbol_index.deep_view(), node_text_of(*node));
                if ds.len() == 0 || node.is_none() {
                    h.is_none()
                } else {
                    let n = node->Some_0;
                    (h matches Some(hi) && hi.text@ == hover_text(ds, self.root@) && hi.line == n.start_row as u32
                        && hi.start == n.start_column as u32 && hi.end == n.end_column as u32)
                }
            }),
    {
        if !self.files.contains_key(file.as_str()) {
            return Err("File not found".to_owned());
        }
        let node_text = match node {
            Some(n) => Some(match &n.text {
                Ok(s) => Ok(s.clone()),
                Err(e) => Err(e.clone()),
            }),
            None => None,
        };
        let defs = self.get_definition(&node_text);
        if defs.len() == 0 {
            return Ok(None);
        }
        let n = match node {
            Some(n) => n,
            None => {
                return Ok(None);
            },
        };
        let line = n.start_row as u32;
        let column = n.start_column as u32;
        let end_column = n.end_column as u32;
        let len = end_column - column;
        let ghost dv = defs.deep_view();
        let mut text = String::new();
        let count = defs.len();
        let mut i: usize = 0;
        assert(dv.take(0) =~= Seq::<DefinitionView>::empty());
        while i < count
            invariant
                count == dv.len(),
                count > 0,
                dv == defs.deep_view(),
                i <= count,
                text@ == hover_text(dv.take(i as int), self.root@),
            decreases count - i,
        {
            assert(dv.take(i + 1).drop_last() =~= dv.take(i as int));
            assert(dv[i as int] == defs@[i as int].deep_view());
            let entry = hover_entry_of(&defs[i], self.root.as_str());
            if i == 0 {
                text = entry;
                assert(dv.take(1)[0] == dv[0]);
            } else {
                text = text.concat("\n\n---\n\n").concat(entry.as_str());
            }
            i = i + 1;
        }
        assert(dv.take(count as int) =~= dv);
        Ok(Some(HoverInfo { text, line, start: column, end: column + len }))
    }

    /// Prepares a diagnostics request for `file` with text `content`: with
    /// no workspace root, nothing; otherwise, where `update` is set, the
    /// file's tree is parsed again from `content`; then, for a known file,
    /// the text its tree is parsed from, whose error nodes are the
    /// diagnostics.
    pub fn begin_diagnostics(&mut self, file: &FileId, content: &str, update: bool) -> (r: DiagnosticsPlan)
        requires
            !(old(self).root@.len() > 0 && !update && (assoc_get(old(self).files.deep_view(), file.0@) matches Some(f) && f.tree is None)),
        ensures
            final(self).symbol_index.deep_view() == old(self).symbol_index.deep_view(),
            final(self).entry_files.deep_view() == old(self).entry_files.deep_view(),
            final(self).entry_to_files.deep_view() == old(self).entry_to_files.deep_view(),
            final(self).root == old(self).root,
            old(self).root@.len() == 0 ==> r is NoRoot && final(self).files.deep_view() == old(self).files.deep_view(),
            old(self).root@.len() > 0 ==> {
                let files1 = if update {
                    match assoc_get(old(self).files.deep_view(), file.0@) {
                        Some(f) => assoc_insert(
                            old(self).files.deep_view(),
                            file.0@,
                            FileView { content: f.content, tree: Some(content@), definitions: f.definitions },
                        ),
                        None => old(self).files.deep_view(),
                    }
                } else {
                    old(self).files.deep_view()
                };
                &&& final(self).files.deep_view() == files1
                &&& match assoc_get(files1, file.0@) {
                    None => r is NotIndexed,
                    Some(f) => (r matches DiagnosticsPlan::Query(t) && f.tree == Some(t@)),
                }
            },
    {
        if self.root.as_str().is_empty() {
            return DiagnosticsPlan::NoRoot;
        }
        if update {
            self.update_tree(file, content);
        }
        proof {
            crate::map::lemma_get_insert_same(old(self).files.deep_view(), file.0@, FileView {
                content: assoc_get(old(self).files.deep_view(), file.0@)->Some_0.content,
                tree: Some(content@),
                definitions: assoc_get(old(self).files.deep_view(), file.0@)->Some_0.definitions,
            });
        }
        match self.files.get(file.as_str()) {
            None => DiagnosticsPlan::NotIndexed,
            Some(f) => match &f.tree {
                Some(t) => DiagnosticsPlan::Query(t.clone()),
                None => DiagnosticsPlan::NotIndexed,
            },
        }
    }

    /// The diagnostics of the error nodes that the diagnostics query found,
    /// match after match.
    pub fn diagnostics_from(matches: &Vec<Vec<SyntaxNode>>) -> (r: Vec<DiagnosticInfo>)
        ensures
            r@.map_values(|d: DiagnosticInfo| d.view()) == diagnostics_of(
                matches@.map_values(|m: Vec<SyntaxNode>| m@),
            ),
            r@.len() == nodes_of(matches@.map_values(|m: Vec<SyntaxNode>| m@)).len(),
            forall|i: int|
                0 <= i < r@.len() ==> reports(
                    #[trigger] r@[i].view(),
                    nodes_of(matches@.map_values(|m: Vec<SyntaxNode>| m@))[i],
                ),
    {
        let ghost ms = matches@.map_values(|m: Vec<SyntaxNode>| m@);
        let mut out: Vec<DiagnosticInfo> = Vec::new();
        let n = matches.len();
        let mut i: usize = 0;
        assert(ms.take(0) =~= Seq::<Seq<SyntaxNode>>::empty());
        assert(out@.map_values(|d: DiagnosticInfo| d.view()) =~= Seq::<DiagnosticView>::empty());
        proof {
            reveal_strlit(": ");
        }
        while i < n
            invariant
                n == matches@.len(),
                ms == matches@.map_values(|m: Vec<SyntaxNode>| m@),
                i <= n,
                out@.map_values(|d: DiagnosticInfo| d.view()) == diagnostics_of(ms.take(i as int)),
            decreases n - i,
        {
            let m = &matches[i];
            assert(ms[i as int] == m@);
            let ghost base = out@.map_values(|d: DiagnosticInfo| d.view());
            let k = m.len();
            let mut j: usize = 0;
            assert(base + m@.take(0).map_values(|x: SyntaxNode| diagnostic_of(x)) =~= base);
            while j < k
                invariant
                    k == m@.len(),
                    j <= k,
                    out@.map_values(|d: DiagnosticInfo| d.view()) == base + m@.take(j as int).map_values(
                        |x: SyntaxNode| diagnostic_of(x),
                    ),
                decreases k - j,
            {
                let node = &m[j];
                let text: &str = match &node.text {
                    Some(t) => t.as_str(),
                    None => "",
                };
                proof {
                    reveal_strlit("");
                }
                let message = node.kind.clone().concat(": ").concat(text);
                let d = DiagnosticInfo {
                    start_line: node.start_row as u32,
                    start_character: node.start_column as u32,
                    end_line: node.end_row as u32,
                    end_character: node.end_column as u32,
                    message,
                };
                assert(d.view() == diagnostic_of(m@[j as int]));
                let ghost before = out@;
                out.push(d);
                assert(m@.take(j + 1).map_values(|x: SyntaxNode| diagnostic_of(x)) =~= m@.take(
                    j as int,
                ).map_values(|x: SyntaxNode| diagnostic_of(x)).push(diagnostic_of(m@[j as int])));
                assert(out@.map_values(|d: DiagnosticInfo| d.view()) =~= before.map_values(
                    |d: DiagnosticInfo| d.view(),
                ).push(d.view()));
                j = j + 1;
            }
            assert(m@.take(k as int) =~= m@);
            assert(ms.take(i + 1).drop_last() =~= ms.take(i as int));
            i = i + 1;
        }
        assert(ms.take(n as int) =~= ms);
        proof {
            lemma_diagnostics_report_nodes(ms);
            assert forall|i: int| 0 <= i < out@.len() implies reports(#[trigger] out@[i].view(), nodes_of(ms)[i]) by {
                assert(out@.map_values(|d: DiagnosticInfo| d.view())[i] == out@[i].view());
            }
        }
        out
    }

    /// Adds the files `imports` to the entry `id`, each once.
    pub fn import_files(&mut self, imports: &Vec<String>, id: &EntryId)
        ensures
            final(self).entry_to_files.deep_view() == import_files_spec(
                old(self).entry_to_files.deep_view(),
                id.0@,
                imports.deep_view(),
            ),
            final(self).entry_files.deep_view() == old(self).entry_files.deep_view(),
            final(self).symbol_index.deep_view() == old(self).symbol_index.deep_view(),
            final(self).files.deep_view() == old(self).files.deep_view(),
            final(self).root == old(self).root,
    {
        let ghost start = self.entry_to_files.deep_view();
        let ghost iv = imports.deep_view();
        let n = imports.len();
        let mut i: usize = 0;
        assert(iv.take(0) =~= Seq::<Seq<char>>::empty());
        while i < n
            invariant
                n == iv.len(),
                iv == imports.deep_view(),
                i <= n,
                self.entry_to_files.deep_view() == import_files_spec(start, id.0@, iv.take(i as int)),
                self.entry_files.deep_view() == old(self).entry_files.deep_view(),
                self.symbol_index.deep_view() == old(self).symbol_index.deep_view(),
                self.files.deep_view() == old(self).files.deep_view(),
                self.root == old(self).root,
            decreases n - i,
        {
            let ghost l = self.entry_to_files.deep_view();
            proof {
                crate::map::lemma_find_some(l, id.0@);
            }
            let import = imports[i].clone();
            assert(import@ == iv[i as int]);
            match self.entry_to_files.find(id.as_str()) {
                Some(j) => {
                    let mut set = self.entry_to_files.replace_at(j, Vec::new());
                    let ghost old_set = set.deep_view();
                    if !contains_string(&set, import.as_str()) {
                        push_string(&mut set, import);
                    }
                    assert(set.deep_view() == set_insert(old_set, iv[i as int]));
                    let ghost nv = set.deep_view();
                    self.entry_to_files.replace_at(j, set);
                    assert(self.entry_to_files.deep_view() =~= l.update(j as int, (id.0@, nv)));
                },
                None => {
                    let mut set: Vec<String> = Vec::new();
                    assert(set.deep_view() =~= Seq::<Seq<char>>::empty());
                    push_string(&mut set, import);
                    assert(set.deep_view() =~= set_insert(Seq::empty(), iv[i as int]));
                    self.entry_to_files.insert(id.0.clone(), set);
                },
            }
            assert(iv.take(i + 1).drop_last() =~= iv.take(i as int));
            i = i + 1;
        }
        assert(iv.take(n as int) =~= iv);
    }

    /// The files of entry `id`, in the order they were added.
    pub fn files_of_entry(&self, id: &EntryId) -> (r: Vec<String>)
        ensures
            r.deep_view() == match assoc_get(self.entry_to_files.deep_view(), id.0@) {
                Some(s) => s,
                None => Seq::empty(),
            },
    {
        match self.entry_to_files.get(id.as_str()) {
            Some(s) => clone_strings(s),
            None => Vec::new(),
        }
    }
}

/// Whether `set` holds `x`.
fn contains_string(set: &Vec<String>, x: &str) -> (r: bool)
    ensures
        r == set.deep_view().contains(x@),
{
    let n = set.len();
    let mut i: usize = 0;
    while i < n
        invariant
            n == set@.len(),
            i <= n,
            forall|j: int| 0 <= j < i ==> set.deep_view()[j] != x@,
        decreases n - i,
    {
        if str_eq(set[i].as_str(), x) {
            assert(set.deep_view()[i as int] == x@);
            return true;
        }
        i = i + 1;
    }
    false
}

/// Copies a list of strings.
fn clone_strings(v: &Vec<String>) -> (r: Vec<String>)
    ensures
        r.deep_view() == v.deep_view(),
{
    let mut out: Vec<String> = Vec::new();
    let n = v.len();
    let mut i: usize = 0;
    while i < n
        invariant
            n == v@.len(),
            i <= n,
            out.deep_view() == v.deep_view().take(i as int),
        decreases n - i,
    {
        push_string(&mut out, v[i].clone());
        assert(out.deep_view() =~= v.deep_view().take(i + 1));
        i = i + 1;
    }
    assert(v.deep_view().take(n as int) =~= v.deep_view());
    out
}

/// Adds `s` at the end of `v`.
fn push_string(v: &mut Vec<String>, s: String)
    ensures
        final(v).deep_view() == old(v).deep_view().push(s@),
{
    let ghost before = v@;
    let ghost before_dv = v.deep_view();
    v.push(s);
    assert(v@ == before.push(s));
    assert(before_dv.len() == before.len());
    assert forall|k: int| 0 <= k < v@.len() implies #[trigger] v.deep_view()[k] == before_dv.push(s@)[k] by {
        if k < before.len() {
            assert(before_dv[k] == before[k]@);
        }
    }
    assert(v.deep_view() =~= before_dv.push(s@));
}

/// The definitions found for a symbol in a well-formed index are in range.
proof fn lemma_definitions_at_in_range(idx: IndexView, node: Option<Result<Seq<char>, Seq<char>>>)
    requires
        index_in_range(idx),
    ensures
        forall|k: int| 0 <= k < definitions_at(idx, node).len() ==> def_in_range(#[trigger] definitions_at(idx, node)[k]),
{
    match node {
        Some(Ok(symbol)) => {
            lemma_index_get_in_range(idx, symbol);
            match assoc_get(idx, symbol) {
                Some(inner) => {
                    lemma_flatten_in_range(inner);
                },
                None => {},
            }
        },
        _ => {},
    }
}

proof fn lemma_flatten_in_range(inner: DefsView)
    requires
        defs_in_range(inner),
    ensures
        forall|k: int| 0 <= k < flatten_defs(inner).len() ==> def_in_range(#[trigger] flatten_defs(inner)[k]),
    decreases inner.len(),
{
    if inner.len() > 0 {
        let rest = inner.drop_last();
        assert forall|i: int, j: int| 0 <= i < rest.len() && 0 <= j < rest[i].1.len() implies def_in_range(
            #[trigger] rest[i].1[j],
        ) by {
            assert(rest[i] == inner[i]);
        }
        lemma_flatten_in_range(rest);
        let f = flatten_defs(inner);
        let a = flatten_defs(rest);
        let b = inner.last().1;
        assert forall|k: int| 0 <= k < f.len() implies def_in_range(#[trigger] f[k]) by {
            if k < a.len() {
                assert(f[k] == a[k]);
            } else {
                assert(f[k] == b[k - a.len()]);
                assert(def_in_range(inner[inner.len() - 1].1[k - a.len()]));
            }
        }
    }
}

/// The files that the extension imports give, or none where listing them
/// failed.
pub open spec fn ext_imports_or_none(r: Result<Seq<Seq<char>>, crate::entry::ImportErrorView>) -> Seq<Seq<char>> {
    match r {
        Ok(v) => v,
        Err(_) => Seq::empty(),
    }
}

/// The files that a new entry `id` (the path of its entry file) imports,
/// given how its lispBM imports and its collections resolved: the lispBM
/// files imported by the entry point, the entry point, the extension
/// imports (none where listing them failed), and the entry file itself.
pub open spec fn entry_imports_spec(
    id: Seq<char>,
    entry: EntryFile,
    imports_resolved: Seq<Result<Seq<char>, Seq<char>>>,
    ext_resolved: Seq<Result<Seq<char>, Seq<char>>>,
) -> Seq<Seq<char>> {
    crate::entry::lisp_imports(imports_resolved) + seq![entry.entry_point@] + ext_imports_or_none(
        crate::entry::ext_imports_spec(
            entry.extension@,
            entry.entry_point@,
            spec_parent(id),
            ext_resolved,
        ),
    ) + seq![id]
}

/// The files of entry `id` (the path of its entry file) once a new entry's
/// imports are added: they hold every lispBM file that an import of the
/// entry point resolved to, the entry point, every file the extensions
/// import (where listing them succeeded) and the entry file itself.
pub proof fn lemma_new_entry_files(
    table: Seq<(Seq<char>, Seq<Seq<char>>)>,
    id: Seq<char>,
    entry: EntryFile,
    imports_resolved: Seq<Result<Seq<char>, Seq<char>>>,
    ext_resolved: Seq<Result<Seq<char>, Seq<char>>>,
)
    ensures
        ({
            let after = import_files_spec(table, id, entry_imports_spec(id, entry, imports_resolved, ext_resolved));
            let lisp = crate::entry::lisp_imports(imports_resolved);
            let ext = crate::entry::ext_imports_spec(entry.extension@, entry.entry_point@, spec_parent(id), ext_resolved);
            assoc_get(after, id) matches Some(files) && files.contains(entry.entry_point@) && files.contains(id)
                && (forall|k: int| 0 <= k < lisp.len() ==> files.contains(#[trigger] lisp[k]))
                && (ext matches Ok(v) ==> forall|k: int| 0 <= k < v.len() ==> files.contains(#[trigger] v[k]))
        }),
{
    let all = entry_imports_spec(id, entry, imports_resolved, ext_resolved);
    let lisp = crate::entry::lisp_imports(imports_resolved);
    let ext = ext_imports_or_none(
        crate::entry::ext_imports_spec(entry.extension@, entry.entry_point@, spec_parent(id), ext_resolved),
    );
    assert(all == lisp + seq![entry.entry_point@] + ext + seq![id]);
    lemma_import_files_contains(table, id, all, lisp.len() as int);
    assert(all[lisp.len() as int] == entry.entry_point@);
    lemma_import_files_contains(table, id, all, all.len() - 1);
    assert forall|k: int| 0 <= k < lisp.len() implies (assoc_get(import_files_spec(table, id, all), id) matches Some(files) && files.contains(#[trigger] lisp[k])) by {
        lemma_import_files_contains(table, id, all, k);
        assert(all[k] == lisp[k]);
    }
    assert forall|k: int| 0 <= k < ext.len() implies (assoc_get(import_files_spec(table, id, all), id) matches Some(files) && files.contains(#[trigger] ext[k])) by {
        lemma_import_files_contains(table, id, all, lisp.len() + 1 + k);
        assert(all[lisp.len() + 1 + k] == ext[k]);
    }
}

/// Appends the strings of `w` to `v`.
fn append_strings(v: &mut Vec<String>, w: &Vec<String>)
    ensures
        final(v).deep_view() == old(v).deep_view() + w.deep_view(),
{
    let ghost start = v.deep_view();
    let n = w.len();
    let mut i: usize = 0;
    assert(start + w.deep_view().take(0) =~= start);
    while i < n
        invariant
            n == w@.len(),
            i <= n,
            v.deep_view() == start + w.deep_view().take(i as int),
        decreases n - i,
    {
        push_string(v, w[i].clone());
        assert(start + w.deep_view().take(i + 1) =~= (start + w.deep_view().take(i as int)).push(
            w.deep_view()[i as int],
        ));
        i = i + 1;
    }
    assert(w.deep_view().take(n as int) =~= w.deep_view());
}

impl State {
    /// Registers a new entry `id` with its loaded entry file, given the
    /// import paths written in the entry point: the entry's files (see
    /// `entry_imports_spec`) are added to it. Where there are import paths
    /// but the entry point has no parent directory to resolve them against,
    /// nothing changes and the result is `false`. Resolving reads the disk,
    /// so the contract says what holds of every outcome.
    pub fn new_entry(&mut self, id: &EntryId, entry: &EntryFile, imports: Vec<String>) -> (r: bool)
        ensures
            r == !(imports@.len() > 0 && crate::paths::spec_parent(entry.entry_point@) is None),
            !r ==> final(self).entry_to_files.deep_view() == old(self).entry_to_files.deep_view(),
            r ==> exists|
                ir: Seq<(Seq<char>, Result<Seq<char>, Seq<char>>)>,
                er: Seq<(Seq<char>, Result<Seq<char>, Seq<char>>)>,
            |
                #![trigger entry_imports_spec(id.0@, *entry, outcomes(ir), outcomes(er))]
                resolves_paths(ir, entry_import_targets(entry.entry_point@, imports.deep_view()))
                    && resolves_targets(er, ext_targets(entry.extension@, spec_parent(id.0@)))
                    && final(self).entry_to_files.deep_view() == import_files_spec(
                    old(self).entry_to_files.deep_view(),
                    id.0@,
                    entry_imports_spec(id.0@, *entry, outcomes(ir), outcomes(er)),
                ) && (assoc_get(final(self).entry_to_files.deep_view(), id.0@) matches Some(files)
                    && files.contains(entry.entry_point@) && files.contains(id.0@) && forall|k: int|
                    0 <= k < crate::entry::lisp_imports(outcomes(ir)).len() ==> files.contains(
                        #[trigger] crate::entry::lisp_imports(outcomes(ir))[k],
                    )),
            final(self).entry_files.deep_view() == old(self).entry_files.deep_view(),
            final(self).symbol_index.deep_view() == old(self).symbol_index.deep_view(),
            final(self).files.deep_view() == old(self).files.deep_view(),
            final(self).root == old(self).root,
    {
        if imports.len() > 0 && crate::paths::path_parent(entry.entry_point.as_str()).is_none() {
            return false;
        }
        let ghost imports_view = imports.deep_view();
        let lisp = entry.get_all_imports(Some(imports));
        let mut all = match lisp {
            Some(v) => v,
            None => Vec::new(),
        };
        let ghost ir = choose|rs: Seq<(Seq<char>, Result<Seq<char>, Seq<char>>)>|
            #![trigger crate::entry::lisp_imports(outcomes(rs))]
            resolves_paths(rs, entry_import_targets(entry.entry_point@, imports_view))
                && crate::entry::paths_view(all@) == crate::entry::lisp_imports(outcomes(rs));
        assert(all.deep_view() =~= crate::entry::paths_view(all@));
        push_string(&mut all, entry.entry_point.clone());
        let ext = entry.get_ext_imports(id.0.as_str());
        let ghost er = choose|rs: Seq<(Seq<char>, Result<Seq<char>, Seq<char>>)>|
            #![trigger crate::entry::ext_imports_spec(entry.extension@, entry.entry_point@, spec_parent(id.0@), outcomes(rs))]
            resolves_targets(rs, ext_targets(entry.extension@, spec_parent(id.0@)))
                && crate::entry::ext_imports_spec(
                entry.extension@,
                entry.entry_point@,
                spec_parent(id.0@),
                outcomes(rs),
            ) == crate::entry::imports_result_view(&ext);
        let ghost before_ext = all.deep_view();
        match &ext {
            Ok(v) => {
                assert(v.deep_view() =~= crate::entry::paths_view(v@));
                append_strings(&mut all, v);
            },
            Err(_) => {
                assert(before_ext + Seq::<Seq<char>>::empty() =~= before_ext);
            },
        }
        push_string(&mut all, id.0.clone());
        assert(all.deep_view() =~= entry_imports_spec(id.0@, *entry, outcomes(ir), outcomes(er)));
        proof {
            lemma_new_entry_files(self.entry_to_files.deep_view(), id.0@, *entry, outcomes(ir), outcomes(er));
        }
        self.import_files(&all, id);
        true
    }
}

/// The definitions that file `f` gives symbol `n` in the index.
pub open spec fn entry_of(idx: IndexView, n: Seq<char>, f: Seq<char>) -> Option<Seq<DefinitionView>> {
    match assoc_get(idx, n) {
        Some(inner) => assoc_get(inner, f),
        None => None,
    }
}

/// Recording `file`'s definitions sets, for each symbol the file defines,
/// the file's entry to exactly the file's definitions of it; every other
/// entry (other files, other symbols) stays as it was.
pub proof fn lemma_index_file_defs_get(idx: IndexView, file: Seq<char>, defs: DefsView, n: Seq<char>, f2: Seq<char>)
    requires
        crate::map::keys_distinct(defs),
    ensures
        entry_of(index_file_defs(idx, file, defs), n, file) == match assoc_get(defs, n) {
            Some(ds) => Some(ds),
            None => entry_of(idx, n, file),
        },
        f2 != file ==> entry_of(index_file_defs(idx, file, defs), n, f2) == entry_of(idx, n, f2),
        assoc_get(defs, n) is None ==> assoc_get(index_file_defs(idx, file, defs), n) == assoc_get(idx, n),
    decreases defs.len(),
{
    if defs.len() == 0 {
        crate::map::lemma_find_none(defs, n);
    } else {
        let rest = defs.drop_last();
        assert(crate::map::keys_distinct(rest)) by {
            assert forall|i: int, j: int| 0 <= i < rest.len() && 0 <= j < rest.len() && i != j implies rest[i].0 != rest[j].0 by {
                assert(rest[i] == defs[i] && rest[j] == defs[j]);
            }
        }
        lemma_index_file_defs_get(idx, file, rest, n, f2);
        crate::map::lemma_get_drop_last(defs, n);
        let prev = index_file_defs(idx, file, rest);
        let m = defs.last().0;
        let d = defs.last().1;
        let inner = match assoc_get(prev, m) {
            Some(v) => v,
            None => Seq::empty(),
        };
        if m == n {
            crate::map::lemma_get_insert_same(prev, m, assoc_insert(inner, file, d));
            crate::map::lemma_get_insert_same(inner, file, d);
            if f2 != file {
                crate::map::lemma_get_insert_other(inner, file, d, f2);
                if assoc_get(prev, m) is None {
                    crate::map::lemma_find_none(inner, f2);
                }
            }
        } else {
            crate::map::lemma_get_insert_other(prev, m, assoc_insert(inner, file, d), n);
        }
    }
}

/// Every definition of a symbol's file is among the symbol's definitions.
proof fn lemma_flatten_contains(inner: DefsView, f: Seq<char>, j: int)
    requires
        assoc_get(inner, f) matches Some(ds) && 0 <= j < ds.len(),
    ensures
        flatten_defs(inner).contains(assoc_get(inner, f)->Some_0[j]),
{
    crate::map::lemma_find_some(inner, f);
    let i = crate::map::assoc_find(inner, f)->Some_0;
    lemma_flatten_contains_at(inner, i, j);
}

proof fn lemma_flatten_contains_at(inner: DefsView, i: int, j: int)
    requires
        0 <= i < inner.len(),
        0 <= j < inner[i].1.len(),
    ensures
        flatten_defs(inner).contains(inner[i].1[j]),
    decreases inner.len(),
{
    let a = flatten_defs(inner.drop_last());
    let f = flatten_defs(inner);
    if i == inner.len() - 1 {
        assert(f[a.len() + j] == inner[i].1[j]);
    } else {
        assert(inner.drop_last()[i] == inner[i]);
        lemma_flatten_contains_at(inner.drop_last(), i, j);
        let k = choose|k: int| 0 <= k < a.len() && a[k] == inner[i].1[j];
        assert(f[k] == a[k]);
    }
}

/// Goto-definition and hover list every definition of a symbol: once a
/// file's definitions are recorded, each definition that the file gives a
/// symbol is among the definitions found for that symbol (along with the
/// other files' definitions, which stay).
pub proof fn lemma_indexed_definitions_found(idx: IndexView, file: Seq<char>, defs: DefsView, n: Seq<char>, j: int)
    requires
        crate::map::keys_distinct(defs),
        assoc_get(defs, n) matches Some(ds) && 0 <= j < ds.len(),
    ensures
        definitions_at(index_file_defs(idx, file, defs), Some(Ok(n))).contains(
            assoc_get(defs, n)->Some_0[j],
        ),
{
    lemma_index_file_defs_get(idx, file, defs, n, file);
    let idx2 = index_file_defs(idx, file, defs);
    let inner = assoc_get(idx2, n)->Some_0;
    lemma_flatten_contains(inner, file, j);
}

/// The inner tables of the index have distinct keys, and so has the index.
pub open spec fn index_keys_distinct(idx: IndexView) -> bool {
    &&& crate::map::keys_distinct(idx)
    &&& forall|i: int| 0 <= i < idx.len() ==> crate::map::keys_distinct(#[trigger] idx[i].1)
}

proof fn lemma_index_get_distinct(idx: IndexView, n: Seq<char>)
    requires
        index_keys_distinct(idx),
    ensures
        assoc_get(idx, n) matches Some(inner) ==> crate::map::keys_distinct(inner),
{
    crate::map::lemma_find_some(idx, n);
}

proof fn lemma_index_insert_distinct(idx: IndexView, n: Seq<char>, inner: DefsView)
    requires
        index_keys_distinct(idx),
        crate::map::keys_distinct(inner),
    ensures
        index_keys_distinct(assoc_insert(idx, n, inner)),
{
    crate::map::lemma_find_some(idx, n);
    crate::map::lemma_insert_distinct(idx, n, inner);
    let l2 = assoc_insert(idx, n, inner);
    assert forall|i: int| 0 <= i < l2.len() implies crate::map::keys_distinct(#[trigger] l2[i].1) by {
        if crate::map::assoc_find(idx, n) == Some(i) {
        } else if i < idx.len() {
            assert(l2[i] == idx[i]);
        }
    }
}

proof fn lemma_remove_distinct(l: DefsView, k: Seq<char>)
    requires
        crate::map::keys_distinct(l),
    ensures
        crate::map::keys_distinct(assoc_remove(l, k)),
{
    crate::map::lemma_find_some(l, k);
    let l2 = assoc_remove(l, k);
    match crate::map::assoc_find(l, k) {
        Some(p) => {
            assert forall|i: int, j: int| 0 <= i < l2.len() && 0 <= j < l2.len() && i != j implies l2[i].0 != l2[j].0 by {
                let a = if i < p { i } else { i + 1 };
                let b = if j < p { j } else { j + 1 };
                assert(l2[i] == l[a] && l2[j] == l[b]);
            }
        },
        None => {},
    }
}

/// Removing `file`'s entries from the symbols `names` leaves the symbols no
/// entry for the file, keeps the other files' entries, and leaves the other
/// symbols as they were.
pub proof fn lemma_unindex_file_get(idx: IndexView, file: Seq<char>, names: Seq<Seq<char>>, n: Seq<char>, f2: Seq<char>)
    requires
        index_keys_distinct(idx),
    ensures
        index_keys_distinct(unindex_file(idx, file, names)),
        names.contains(n) ==> entry_of(unindex_file(idx, file, names), n, file) is None,
        f2 != file ==> entry_of(unindex_file(idx, file, names), n, f2) == entry_of(idx, n, f2),
        !names.contains(n) ==> assoc_get(unindex_file(idx, file, names), n) == assoc_get(idx, n),
    decreases names.len(),
{
    if names.len() > 0 {
        let rest = names.drop_last();
        lemma_unindex_file_get(idx, file, rest, n, f2);
        let prev = unindex_file(idx, file, rest);
        let m = names.last();
        lemma_index_get_distinct(prev, m);
        match assoc_get(prev, m) {
            Some(inner) => {
                lemma_remove_distinct(inner, file);
                lemma_index_insert_distinct(prev, m, assoc_remove(inner, file));
                crate::map::lemma_get_remove(inner, file, f2);
                if m == n {
                    crate::map::lemma_get_insert_same(prev, m, assoc_remove(inner, file));
                } else {
                    crate::map::lemma_get_insert_other(prev, m, assoc_remove(inner, file), n);
                    if names.contains(n) {
                        let k = choose|k: int| 0 <= k < names.len() && names[k] == n;
                        assert(rest[k] == n);
                    }
                }
            },
            None => {
                if names.contains(n) && m != n {
                    let k = choose|k: int| 0 <= k < names.len() && names[k] == n;
                    assert(rest[k] == n);
                }
            },
        }
        if !names.contains(n) {
            assert(!rest.contains(n)) by {
                if rest.contains(n) {
                    let k = choose|k: int| 0 <= k < rest.len() && rest[k] == n;
                    assert(names[k] == n);
                }
            }
            assert(names[names.len() - 1] == m);
        }
    }
}

/// Reading a changed file again sets, for each symbol it now defines, the
/// file's entry to the file's new definitions and keeps the other files'
/// entries; a symbol the file no longer defines keeps all its entries, the
/// file's old one included.
pub proof fn lemma_reindex_file_defs_get(idx: IndexView, file: Seq<char>, defs: DefsView, n: Seq<char>, f2: Seq<char>)
    requires
        index_keys_distinct(idx),
        crate::map::keys_distinct(defs),
    ensures
        assoc_get(defs, n) matches Some(ds) ==> entry_of(reindex_file_defs(idx, file, defs), n, file) == Some(ds),
        f2 != file ==> entry_of(reindex_file_defs(idx, file, defs), n, f2) == entry_of(idx, n, f2),
        assoc_get(defs, n) is None ==> assoc_get(reindex_file_defs(idx, file, defs), n) == assoc_get(idx, n),
{
    let names = crate::map::assoc_keys(defs);
    lemma_unindex_file_get(idx, file, names, n, f2);
    let mid = unindex_file(idx, file, names);
    lemma_index_file_defs_get(mid, file, defs, n, f2);
    crate::map::lemma_find_some(defs, n);
    if assoc_get(defs, n) is None {
        assert(!names.contains(n)) by {
            if names.contains(n) {
                let k = choose|k: int| 0 <= k < names.len() && names[k] == n;
                assert(defs[k].0 == n);
            }
        }
    }
}

/// The set of an entry's files holds every file added to it, each once.
pub proof fn lemma_import_files_contains(table: Seq<(Seq<char>, Seq<Seq<char>>)>, id: Seq<char>, imports: Seq<Seq<char>>, k: int)
    requires
        0 <= k < imports.len(),
    ensures
        assoc_get(import_files_spec(table, id, imports), id) matches Some(s) && s.contains(imports[k]),
    decreases imports.len(),
{
    let prev = import_files_spec(table, id, imports.drop_last());
    let s0 = match assoc_get(prev, id) {
        Some(s) => s,
        None => Seq::empty(),
    };
    crate::map::lemma_get_insert_same(prev, id, set_insert(s0, imports.last()));
    if k < imports.len() - 1 {
        lemma_import_files_contains(table, id, imports.drop_last(), k);
        assert(imports.drop_last()[k] == imports[k]);
        if !s0.contains(imports.last()) {
            let w = choose|w: int| 0 <= w < s0.len() && s0[w] == imports[k];
            assert(s0.push(imports.last())[w] == imports[k]);
        }
    } else {
        if !s0.contains(imports.last()) {
            assert(s0.push(imports.last())[s0.len() as int] == imports.last());
        }
    }
}

/// Adding files to an entry never lists a file twice.
pub proof fn lemma_import_files_no_duplicates(table: Seq<(Seq<char>, Seq<Seq<char>>)>, id: Seq<char>, imports: Seq<Seq<char>>)
    requires
        assoc_get(table, id) matches Some(s) ==> s.no_duplicates(),
    ensures
        assoc_get(import_files_spec(table, id, imports), id) matches Some(s) ==> s.no_duplicates(),
    decreases imports.len(),
{
    if imports.len() > 0 {
        lemma_import_files_no_duplicates(table, id, imports.drop_last());
        let prev = import_files_spec(table, id, imports.drop_last());
        let s0 = match assoc_get(prev, id) {
            Some(s) => s,
            None => Seq::empty(),
        };
        crate::map::lemma_get_insert_same(prev, id, set_insert(s0, imports.last()));
        let s1 = set_insert(s0, imports.last());
        assert(s1.no_duplicates()) by {
            if !s0.contains(imports.last()) {
                assert forall|a: int, b: int| 0 <= a < s1.len() && 0 <= b < s1.len() && a != b implies s1[a] != s1[b] by {
                    if a < s0.len() && b < s0.len() {
                    } else if a < s0.len() {
                        assert(s0[a] != imports.last());
                    } else if b < s0.len() {
                        assert(s0[b] != imports.last());
                    }
                }
            }
        }
    }
}

} // verus!
