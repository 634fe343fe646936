//! Assembling the source text to compile. A source is either one file
//! or a directory of `.mel` files; a directory's files are ordered with
//! `score.mel` first and the rest alphabetical, and their contents are
//! concatenated with a line break inserted between files that do not
//! end with one. Reading from disk is a caller's concern: the caller
//! hands over the file names and contents it found.

use vstd::prelude::*;
use crate::text::{chars_of, str_eq};

verus! {

/// A loaded source: the concatenated text and the path it came from.
#[derive(Debug, PartialEq, Clone)]
pub struct LoadedSource {
    pub source: String,
    pub base_path: String,
}

/// One file of a source directory: its name and its contents.
#[derive(Debug, PartialEq, Clone)]
pub struct SourceFile {
    pub name: String,
    pub content: String,
}

/// What stands at the path to load: a single file with its contents, a
/// directory with its regular files, or nothing.
#[derive(Debug, PartialEq)]
pub enum SourceTree {
    File { path: String, content: String },
    Directory { path: String, files: Vec<SourceFile> },
    Missing { path: String },
}

/// Why loading failed.
#[derive(Debug, PartialEq, Eq, Structural, Clone, Copy)]
pub enum LoadErrorKind {
    PathDoesNotExist,
    NoMelFiles,
}

/// A loading failure, naming the offending path.
#[derive(Debug, PartialEq, Clone)]
pub struct LoadError {
    pub kind: LoadErrorKind,
    pub path: String,
}

impl LoadError {
    /// A short description of the error.
    pub fn message(&self) -> &'static str {
        match self.kind {
            LoadErrorKind::PathDoesNotExist => "Path does not exist",
            LoadErrorKind::NoMelFiles => "No .mel files found in directory",
        }
    }

    /// The path the failure is about.
    pub fn path(&self) -> (r: &str)
        ensures
            r@ == self.path@,
    {
        self.path.as_str()
    }
}

/// The spec-level image of a loading failure.
pub struct LoadErrorView {
    pub kind: LoadErrorKind,
    pub path: Seq<char>,
}

impl DeepView for LoadError {
    type V = LoadErrorView;

    open spec fn deep_view(&self) -> LoadErrorView {
        LoadErrorView { kind: self.kind, path: self.path@ }
    }
}

pub struct LoadedSourceView {
    pub source: Seq<char>,
    pub base_path: Seq<char>,
}

pub struct SourceFileView {
    pub name: Seq<char>,
    pub content: Seq<char>,
}

pub enum SourceTreeView {
    File { path: Seq<char>, content: Seq<char> },
    Directory { path: Seq<char>, files: Seq<SourceFileView> },
    Missing { path: Seq<char> },
}

impl DeepView for LoadedSource {
    type V = LoadedSourceView;

    open spec fn deep_view(&self) -> LoadedSourceView {
        LoadedSourceView { source: self.source@, base_path: self.base_path@ }
    }
}

impl DeepView for SourceFile {
    type V = SourceFileView;

    open spec fn deep_view(&self) -> SourceFileView {
        SourceFileView { name: self.name@, content: self.content@ }
    }
}

impl DeepView for SourceTree {
    type V = SourceTreeView;

    open spec fn deep_view(&self) -> SourceTreeView {
        match self {
            SourceTree::File { path, content } => SourceTreeView::File {
                path: path@,
                content: content@,
            },
            SourceTree::Directory { path, files } => SourceTreeView::Directory {
                path: path@,
                files: files.deep_view(),
            },
            SourceTree::Missing { path } => SourceTreeView::Missing { path: path@ },
        }
    }
}

/// Whether a file name ends in `.mel`.
pub open spec fn spec_is_mel(name: Seq<char>) -> bool {
    name.len() >= 4 && name.subrange(name.len() - 4, name.len() as int) == ".mel"@
}

/// The `.mel` files of a listing, in listing order, from index `i` on.
pub open spec fn spec_filter_mel(files: Seq<SourceFileView>, i: int) -> Seq<SourceFileView>
    decreases files.len() - i,
{
    if !(0 <= i < files.len()) {
        Seq::empty()
    } else if spec_is_mel(files[i].name) {
        seq![files[i]] + spec_filter_mel(files, i + 1)
    } else {
        spec_filter_mel(files, i + 1)
    }
}

/// Lexicographic order on names, from index `i` on.
pub open spec fn spec_lex_le(a: Seq<char>, b: Seq<char>, i: int) -> bool
    decreases a.len() - i,
{
    if i >= a.len() {
        true
    } else if i >= b.len() {
        false
    } else if a[i] != b[i] {
        a[i] < b[i]
    } else {
        spec_lex_le(a, b, i + 1)
    }
}

/// The loading order of file names: `score.mel` before everything,
/// then alphabetical.
pub open spec fn spec_name_le(a: Seq<char>, b: Seq<char>) -> bool {
    if a == "score.mel"@ {
        true
    } else if b == "score.mel"@ {
        false
    } else {
        spec_lex_le(a, b, 0)
    }
}

/// The insertion step of a stable sort by loading order.
pub open spec fn spec_insert_file(sorted: Seq<SourceFileView>, e: SourceFileView) -> Seq<
    SourceFileView,
>
    decreases sorted.len(),
{
    if sorted.len() == 0 {
        seq![e]
    } else if spec_name_le(sorted[0].name, e.name) {
        seq![sorted[0]] + spec_insert_file(sorted.drop_first(), e)
    } else {
        seq![e] + sorted
    }
}

/// Stable insertion sort by loading order.
pub open spec fn spec_sort_files(s: Seq<SourceFileView>) -> Seq<SourceFileView>
    decreases s.len(),
{
    if s.len() == 0 {
        s
    } else {
        spec_insert_file(spec_sort_files(s.drop_last()), s.last())
    }
}

/// The concatenation of file contents from index `i` on, with a line
/// break inserted after every non-final file that does not end with
/// one.
pub open spec fn spec_concat(files: Seq<SourceFileView>, i: int) -> Seq<char>
    decreases files.len() - i,
{
    if !(0 <= i < files.len()) {
        Seq::empty()
    } else {
        let content = files[i].content;
        let sep: Seq<char> = if i < files.len() - 1 && (content.len() == 0 || content.last()
            != '\n') {
            seq!['\n']
        } else {
            Seq::empty()
        };
        content + sep + spec_concat(files, i + 1)
    }
}

/// Loads a source tree; see `load_source`.
pub open spec fn spec_load_source(tree: SourceTreeView) -> Result<LoadedSourceView, LoadErrorView> {
    match tree {
        SourceTreeView::File { path, content } => Ok(
            LoadedSourceView { source: content, base_path: path },
        ),
        SourceTreeView::Directory { path, files } => {
            let mel = spec_filter_mel(files, 0);
            if mel.len() == 0 {
                Err(LoadErrorView { kind: LoadErrorKind::NoMelFiles, path })
            } else {
                Ok(
                    LoadedSourceView {
                        source: spec_concat(spec_sort_files(mel), 0),
                        base_path: path,
                    },
                )
            }
        },
        SourceTreeView::Missing { path } => Err(
            LoadErrorView { kind: LoadErrorKind::PathDoesNotExist, path },
        ),
    }
}

/// Whether a file name ends in `.mel`.
fn is_mel(name: &String) -> (r: bool)
    ensures
        r == spec_is_mel(name@),
{
    let cs = chars_of(name.as_str());
    if cs.len() < 4 {
        return false;
    }
    let n = cs.len();
    let r = cs[n - 4] == '.' && cs[n - 3] == 'm' && cs[n - 2] == 'e' && cs[n - 1] == 'l';
    proof {
        reveal_strlit(".mel");
        if r {
            assert(name@.subrange(name@.len() - 4, name@.len() as int) =~= ".mel"@);
        } else {
            assert(name@.subrange(name@.len() - 4, name@.len() as int) != ".mel"@) by {
                if name@.subrange(name@.len() - 4, name@.len() as int) == ".mel"@ {
                    assert(name@.subrange(name@.len() - 4, name@.len() as int)[0] == '.');
                    assert(name@.subrange(name@.len() - 4, name@.len() as int)[1] == 'm');
                    assert(name@.subrange(name@.len() - 4, name@.len() as int)[2] == 'e');
                    assert(name@.subrange(name@.len() - 4, name@.len() as int)[3] == 'l');
                }
            }
        }
    }
    r
}

/// Lexicographic comparison of two names from index `i` on.
fn lex_le(a: &Vec<char>, b: &Vec<char>, i: usize) -> (r: bool)
    requires
        i <= a@.len(),
        i <= b@.len(),
    ensures
        r == spec_lex_le(a@, b@, i as int),
    decreases a@.len() - i,
{
    if i >= a.len() {
        true
    } else if i >= b.len() {
        false
    } else if a[i] != b[i] {
        a[i] < b[i]
    } else {
        lex_le(a, b, i + 1)
    }
}

/// Whether `a` comes at or before `b` in loading order.
fn name_le(a: &String, b: &String) -> (r: bool)
    ensures
        r == spec_name_le(a@, b@),
{
    if str_eq(a.as_str(), "score.mel") {
        true
    } else if str_eq(b.as_str(), "score.mel") {
        false
    } else {
        let ca = chars_of(a.as_str());
        let cb = chars_of(b.as_str());
        lex_le(&ca, &cb, 0)
    }
}

/// Inserts a file after every file at or before it in loading order.
fn insert_file(sorted: Vec<SourceFile>, e: SourceFile) -> (r: Vec<SourceFile>)
    ensures
        r.deep_view() == spec_insert_file(sorted.deep_view(), e.deep_view()),
    decreases sorted@.len(),
{
    let mut sorted = sorted;
    if sorted.len() == 0 {
        let ghost ev = e.deep_view();
        sorted.push(e);
        proof {
            assert(sorted.deep_view() =~= seq![ev]);
        }
        sorted
    } else if name_le(&sorted[0].name, &e.name) {
        let ghost whole = sorted.deep_view();
        let first = sorted.remove(0);
        proof {
            assert(sorted.deep_view() =~= whole.drop_first());
        }
        let ghost fv = first.deep_view();
        let mut rest = insert_file(sorted, e);
        rest.insert(0, first);
        proof {
            assert(rest.deep_view() =~= seq![whole[0]] + spec_insert_file(
                whole.drop_first(),
                e.deep_view(),
            ));
        }
        rest
    } else {
        let ghost before = sorted.deep_view();
        let ghost ev = e.deep_view();
        sorted.insert(0, e);
        proof {
            assert(sorted.deep_view() =~= seq![ev] + before);
        }
        sorted
    }
}

/// Stable insertion sort by loading order.
fn sort_files(v: Vec<SourceFile>) -> (r: Vec<SourceFile>)
    ensures
        r.deep_view() == spec_sort_files(v.deep_view()),
    decreases v@.len(),
{
    let mut v = v;
    if v.len() == 0 {
        return v;
    }
    let ghost whole = v.deep_view();
    let last = match v.pop() {
        Some(e) => e,
        None => {
            return v;
        },
    };
    proof {
        assert(v.deep_view() =~= whole.drop_last());
    }
    let sorted = sort_files(v);
    insert_file(sorted, last)
}

/// The `.mel` files of a listing from index `i` on, in listing order.
fn filter_mel(files: &Vec<SourceFile>, i: usize, out: &mut Vec<SourceFile>)
    requires
        i <= files@.len(),
    ensures
        final(out).deep_view() == old(out).deep_view() + spec_filter_mel(
            files.deep_view(),
            i as int,
        ),
    decreases files@.len() - i,
{
    if i >= files.len() {
        proof {
            assert(final(out).deep_view() =~= old(out).deep_view() + Seq::<
                SourceFileView,
            >::empty());
        }
        return ;
    }
    let ghost before = out.deep_view();
    if is_mel(&files[i].name) {
        out.push(
            SourceFile { name: files[i].name.clone(), content: files[i].content.clone() },
        );
        proof {
            assert(out.deep_view() =~= before.push(files.deep_view()[i as int]));
        }
    }
    filter_mel(files, i + 1, out);
    proof {
        assert(final(out).deep_view() =~= old(out).deep_view() + spec_filter_mel(
            files.deep_view(),
            i as int,
        ));
    }
}

/// Concatenates sorted file contents from index `i` on.
fn concat_files(files: &Vec<SourceFile>, i: usize) -> (r: String)
    requires
        i <= files@.len(),
    ensures
        r@ == spec_concat(files.deep_view(), i as int),
    decreases files@.len() - i,
{
    if i >= files.len() {
        let s = String::new();
        proof {
            assert(s@ =~= spec_concat(files.deep_view(), i as int));
        }
        return s;
    }
    let mut s = files[i].content.clone();
    if i < files.len() - 1 {
        let cs = chars_of(files[i].content.as_str());
        if cs.len() == 0 || cs[cs.len() - 1] != '\n' {
            s.append("\n");
            proof {
                reveal_strlit("\n");
                assert(s@ =~= files.deep_view()[i as int].content + seq!['\n']);
            }
        }
    }
    let rest = concat_files(files, i + 1);
    s.append(rest.as_str());
    proof {
        assert(s@ =~= spec_concat(files.deep_view(), i as int));
    }
    s
}

/// Loads a source: a single file is taken as it is; a directory's
/// `.mel` files are ordered with `score.mel` first and the rest
/// alphabetical, and concatenated with a line break between files that
/// do not end with one; an empty directory and a missing path are
/// errors naming the offending path.
pub fn load_source(tree: &SourceTree) -> (r: Result<LoadedSource, LoadError>)
    ensures
        (match spec_load_source(tree.deep_view()) {
            Ok(ls) => r is Ok && r->Ok_0.deep_view() == ls,
            Err(e) => r is Err && r->Err_0.deep_view() == e,
        }),
{
    match tree {
        SourceTree::File { path, content } => Ok(
            LoadedSource { source: content.clone(), base_path: path.clone() },
        ),
        SourceTree::Directory { path, files } => {
            let mut mel: Vec<SourceFile> = Vec::new();
            filter_mel(files, 0, &mut mel);
            proof {
                assert(mel.deep_view() =~= Seq::<SourceFileView>::empty() + spec_filter_mel(
                    files.deep_view(),
                    0,
                ));
            }
            if mel.len() == 0 {
                return Err(LoadError { kind: LoadErrorKind::NoMelFiles, path: path.clone() });
            }
            let sorted = sort_files(mel);
            let source = concat_files(&sorted, 0);
            Ok(LoadedSource { source, base_path: path.clone() })
        },
        SourceTree::Missing { path } => Err(
            LoadError { kind: LoadErrorKind::PathDoesNotExist, path: path.clone() },
        ),
    }
}

} // verus!
