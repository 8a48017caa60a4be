//! Directory-tree walker.
//!
//! The walker runs over a snapshot of the source directory ([`FsTree`]):
//! each node is a file or a directory, a directory carrying the listing that
//! reading it produced, or `None` where reading it failed.  [`walk`] collects
//! every eligible file (name ending in `.svg` with a non-empty stem) as an
//! [`SVGFile`], depth first, the files of a directory strictly before its
//! subdirectories, and fails on a root that is not a directory or on an
//! unreadable directory.

use crate::xml::seq_views;
use vstd::prelude::*;
use vstd::string::StringExecFns;

verus! {

/// A snapshot of one node of the source directory tree.
///
/// `name` is the node's own file name, `path` the full filesystem path that
/// locates it.  A directory's `entries` is the listing in the order reading
/// the directory produced, or `None` where the directory could not be read.
pub enum FsTree {
    File { name: String, path: String },
    Dir { name: String, path: String, entries: Option<Vec<FsTree>> },
}

/// One discovered source file: the chain of directory names from the scan
/// root plus the file's stem, and the path the file can be read from.
pub struct SVGFile {
    pub tree_names: Vec<String>,
    pub system_path: String,
}

/// Why a walk failed: the root was not a directory, or a directory could not
/// be read during the traversal.  Both name the offending path.
#[derive(Debug)]
pub enum WalkError {
    NotADirectory { path: String },
    Traversal { path: String },
}

/// The extension, dot included, that makes a file eligible.
pub open spec fn svg_suffix() -> Seq<char> {
    seq!['.', 's', 'v', 'g']
}

/// Whether `n` ends in the eligible extension.
pub open spec fn has_svg_suffix(n: Seq<char>) -> bool {
    n.len() >= 4 && n.subrange(n.len() - 4, n.len() as int) == svg_suffix()
}

/// The name without its extension.
pub open spec fn stem_of(n: Seq<char>) -> Seq<char> {
    n.subrange(0, n.len() - 4)
}

/// An eligible file name: it ends in the extension and its stem is
/// non-empty, so that the extension is an extension and not the whole name.
pub open spec fn eligible_name(n: Seq<char>) -> bool {
    has_svg_suffix(n) && n.len() >= 5
}

/// A discovered entry, as the walker's contracts speak of it: the views of
/// the path segments paired with the view of the file's location.
pub type EntryView = (Seq<Seq<char>>, Seq<char>);

/// The views of a sequence of discovered files.
pub open spec fn entry_views(es: Seq<SVGFile>) -> Seq<EntryView> {
    es.map_values(|e: SVGFile| (seq_views(e.tree_names@), e.system_path@))
}

/// The entry that `t` contributes to its own directory's file pass: one
/// entry for an eligible file, none otherwise.
pub open spec fn file_entry(t: FsTree, anc: Seq<Seq<char>>) -> Seq<EntryView> {
    match t {
        FsTree::File { name, path } => if eligible_name(name@) {
            seq![(anc.push(stem_of(name@)), path@)]
        } else {
            Seq::empty()
        },
        FsTree::Dir { .. } => Seq::empty(),
    }
}

/// The entries of the eligible files directly in `es`, in listing order.
pub open spec fn level_files(es: Seq<FsTree>, anc: Seq<Seq<char>>) -> Seq<EntryView>
    decreases es.len(),
{
    if es.len() == 0 {
        Seq::empty()
    } else {
        level_files(es.drop_last(), anc) + file_entry(es.last(), anc)
    }
}

/// The entries a walk of `t` produces: nothing for a file or an unreadable
/// directory (the walk fails there instead), else the directory's own
/// eligible files followed, when `recursive` is set, by the entries of its
/// subdirectories in listing order.
pub open spec fn walk_entries(t: FsTree, anc: Seq<Seq<char>>, recursive: bool) -> Seq<EntryView>
    decreases t, 0int, 0int,
{
    match t {
        FsTree::File { .. } => Seq::empty(),
        FsTree::Dir { entries: None, .. } => Seq::empty(),
        FsTree::Dir { entries: Some(v), .. } => level_files(v@, anc) + if recursive {
            subdir_entries(v, 0, anc, recursive)
        } else {
            Seq::empty()
        },
    }
}

/// The entries of the subdirectories of a listing, from index `i` on.
pub open spec fn subdir_entries(
    v: Vec<FsTree>,
    i: int,
    anc: Seq<Seq<char>>,
    recursive: bool,
) -> Seq<EntryView>
    decreases v, v@.len() - i, 1int,
{
    if i < 0 || i >= v@.len() {
        Seq::empty()
    } else {
        let head = match v@[i] {
            FsTree::Dir { name, .. } => walk_entries(v@[i], anc.push(name@), recursive),
            _ => Seq::empty(),
        };
        head + subdir_entries(v, i + 1, anc, recursive)
    }
}

/// The path of the first directory, in traversal order, that the walk of `t`
/// cannot read, if any.
pub open spec fn first_blocked(t: FsTree, recursive: bool) -> Option<Seq<char>>
    decreases t, 0int, 0int,
{
    match t {
        FsTree::File { .. } => None,
        FsTree::Dir { path, entries: None, .. } => Some(path@),
        FsTree::Dir { entries: Some(v), .. } => if recursive {
            level_blocked(v, 0, recursive)
        } else {
            None
        },
    }
}

/// The first blocked directory among the subdirectories of a listing, from
/// index `i` on.
pub open spec fn level_blocked(v: Vec<FsTree>, i: int, recursive: bool) -> Option<Seq<char>>
    decreases v, v@.len() - i, 1int,
{
    if i < 0 || i >= v@.len() {
        None
    } else {
        let head = match v@[i] {
            FsTree::Dir { .. } => first_blocked(v@[i], recursive),
            _ => None,
        };
        match head {
            Some(p) => Some(p),
            None => level_blocked(v, i + 1, recursive),
        }
    }
}

impl SVGFile {
    /// A fresh entry for the file at `path`, with no segments yet.
    pub fn from(path: &str) -> (r: SVGFile)
        ensures
            r.tree_names@.len() == 0,
            r.system_path@ == path@,
    {
        SVGFile { tree_names: Vec::new(), system_path: path.to_owned() }
    }

    /// The fixed text a file entry prints.
    pub fn print(&self) -> (r: String)
        ensures
            r@ == "nice"@,
    {
        "nice".to_owned()
    }
}

impl WalkError {
    /// A descriptive message naming the offending path.
    pub fn message(&self) -> (r: String)
        ensures
            match self {
                WalkError::NotADirectory { path } => r@ == "path must be directory: "@ + path@,
                WalkError::Traversal { path } => r@ == "could not read directory: "@ + path@,
            },
    {
        match self {
            WalkError::NotADirectory { path } => {
                let mut s = "path must be directory: ".to_owned();
                s.append(path.as_str());
                s
            },
            WalkError::Traversal { path } => {
                let mut s = "could not read directory: ".to_owned();
                s.append(path.as_str());
                s
            },
        }
    }
}

/// Relies on `str::strip_suffix`: it returns the string with the suffix cut
/// off when the string ends with the suffix, and `None` otherwise.
#[verifier::external_body]
fn strip_svg_suffix(name: &str) -> (r: Option<String>)
    ensures
        match r {
            Some(stem) => name@ == stem@ + svg_suffix(),
            None => !has_svg_suffix(name@),
        },
{
    name.strip_suffix(".svg").map(|s| s.to_owned())
}

/// The stem of an eligible file name, or `None` for any other name.
pub fn eligible_stem(name: &String) -> (r: Option<String>)
    ensures
        match r {
            Some(stem) => eligible_name(name@) && stem@ == stem_of(name@),
            None => !eligible_name(name@),
        },
{
    match strip_svg_suffix(name.as_str()) {
        Some(stem) => {
            proof {
                assert(name@.subrange(name@.len() - 4, name@.len() as int) =~= svg_suffix());
                assert(stem_of(name@) =~= stem@);
            }
            if stem.as_str().is_empty() {
                None
            } else {
                Some(stem)
            }
        },
        None => None,
    }
}

/// A fresh copy of a segment list.
fn clone_segments(v: &Vec<String>) -> (r: Vec<String>)
    ensures
        r@ == v@,
{
    let mut out: Vec<String> = Vec::new();
    let mut i: usize = 0;
    while i < v.len()
        invariant
            0 <= i <= v.len(),
            out@ == v@.take(i as int),
        decreases v.len() - i,
    {
        out.push(v[i].clone());
        proof {
            assert(out@ =~= v@.take(i + 1));
        }
        i = i + 1;
    }
    proof {
        assert(v@.take(v@.len() as int) =~= v@);
    }
    out
}

/// Walks the snapshot `t`, appending every discovered file to `svgs` with
/// its segments extending `tree_names`: the eligible files of a directory
/// first, in listing order, then, when `recursive` is set, each subdirectory
/// in turn.  Fails when `t` is not a directory, and on the first directory
/// of the traversal whose listing is missing; what was already collected is
/// left in `svgs` for the caller to discard.
pub fn walk(t: &FsTree, svgs: &mut Vec<SVGFile>, tree_names: &Vec<String>, recursive: bool) -> (r:
    Result<(), WalkError>)
    ensures
        final(svgs)@.len() >= old(svgs)@.len(),
        final(svgs)@.subrange(0, old(svgs)@.len() as int) == old(svgs)@,
        match r {
            Ok(_) => (*t) matches FsTree::Dir { .. } && first_blocked(*t, recursive) is None
                && entry_views(final(svgs)@.skip(old(svgs)@.len() as int)) == walk_entries(
                *t,
                seq_views(tree_names@),
                recursive,
            ),
            Err(WalkError::NotADirectory { path }) => (*t) matches FsTree::File {
                path: p,
                ..
            } && path@ == p@,
            Err(WalkError::Traversal { path }) => (*t) matches FsTree::Dir { .. }
                && first_blocked(*t, recursive) == Some(path@),
        },
    decreases *t,
{
    let ghost base: Seq<SVGFile> = svgs@;
    let ghost base_len: int = svgs@.len() as int;
    let ghost anc: Seq<Seq<char>> = seq_views(tree_names@);
    match t {
        FsTree::File { path, .. } => Err(WalkError::NotADirectory { path: path.clone() }),
        FsTree::Dir { path, entries: None, .. } => Err(
            WalkError::Traversal { path: path.clone() },
        ),
        FsTree::Dir { entries: Some(items), .. } => {
            let mut i: usize = 0;
            proof {
                assert(entry_views(svgs@.skip(base_len)) =~= level_files(items@.take(0), anc));
            }
            while i < items.len()
                invariant
                    0 <= i <= items.len(),
                    anc == seq_views(tree_names@),
                    base == old(svgs)@,
                    base_len == base.len(),
                    svgs@.len() >= base_len,
                    svgs@.subrange(0, base_len) == base,
                    entry_views(svgs@.skip(base_len)) == level_files(items@.take(i as int), anc),
                decreases items.len() - i,
            {
                proof {
                    assert(items@.take(i + 1).drop_last() =~= items@.take(i as int));
                    assert(items@.take(i + 1).last() == items@[i as int]);
                }
                match &items[i] {
                    FsTree::File { name, path } => {
                        match eligible_stem(name) {
                            Some(stem) => {
                                let mut segs = clone_segments(tree_names);
                                segs.push(stem);
                                let entry = SVGFile {
                                    tree_names: segs,
                                    system_path: path.clone(),
                                };
                                let ghost before = svgs@;
                                svgs.push(entry);
                                proof {
                                    assert(seq_views(entry.tree_names@) =~= anc.push(
                                        stem_of(name@),
                                    ));
                                    assert(svgs@.subrange(0, base_len) =~= base);
                                    assert(entry_views(svgs@.skip(base_len)) =~= entry_views(
                                        before.skip(base_len),
                                    ).push((anc.push(stem_of(name@)), path@)));
                                    assert(level_files(items@.take(i + 1), anc) =~= entry_views(
                                        svgs@.skip(base_len),
                                    ));
                                }
                            },
                            None => {
                                proof {
                                    assert(level_files(items@.take(i + 1), anc) =~= level_files(
                                        items@.take(i as int),
                                        anc,
                                    ));
                                }
                            },
                        }
                    },
                    FsTree::Dir { .. } => {
                        proof {
                            assert(level_files(items@.take(i + 1), anc) =~= level_files(
                                items@.take(i as int),
                                anc,
                            ));
                        }
                    },
                }
                i = i + 1;
            }
            proof {
                assert(items@.take(items@.len() as int) =~= items@);
            }
            if !recursive {
                proof {
                    assert(walk_entries(*t, anc, false) =~= level_files(items@, anc));
                }
                return Ok(());
            }
            let mut j: usize = 0;
            while j < items.len()
                invariant
                    recursive,
                    0 <= j <= items.len(),
                    anc == seq_views(tree_names@),
                    base == old(svgs)@,
                    base_len == base.len(),
                    svgs@.len() >= base_len,
                    svgs@.subrange(0, base_len) == base,
                    (*t) matches FsTree::Dir { entries: Some(v), .. } && v == items,
                    entry_views(svgs@.skip(base_len)) + subdir_entries(*items, j as int, anc, true)
                        == walk_entries(*t, anc, true),
                    level_blocked(*items, j as int, true) == level_blocked(*items, 0, true),
                decreases items.len() - j,
            {
                match &items[j] {
                    FsTree::Dir { name, .. } => {
                        let mut dir_names = clone_segments(tree_names);
                        dir_names.push(name.clone());
                        proof {
                            assert(seq_views(dir_names@) =~= anc.push(name@));
                        }
                        let ghost before = svgs@;
                        match walk(&items[j], svgs, &dir_names, true) {
                            Ok(_) => {
                                proof {
                                    assert(svgs@.subrange(0, base_len) =~= base);
                                    assert(svgs@.skip(base_len) =~= before.skip(base_len)
                                        + svgs@.skip(before.len() as int));
                                    assert(entry_views(
                                        before.skip(base_len) + svgs@.skip(before.len() as int),
                                    ) =~= entry_views(before.skip(base_len)) + entry_views(
                                        svgs@.skip(before.len() as int),
                                    ));
                                }
                            },
                            Err(e) => {
                                proof {
                                    assert(svgs@.subrange(0, base_len) =~= svgs@.subrange(
                                        0,
                                        before.len() as int,
                                    ).subrange(0, base_len));
                                }
                                return Err(e);
                            },
                        }
                    },
                    FsTree::File { .. } => {},
                }
                j = j + 1;
            }
            proof {
                assert(entry_views(svgs@.skip(base_len)) + Seq::<EntryView>::empty()
                    =~= entry_views(svgs@.skip(base_len)));
            }
            Ok(())
        },
    }
}


/// Whether `t` is itself an eligible file.
pub open spec fn eligible_here(t: FsTree) -> nat {
    match t {
        FsTree::File { name, .. } => if eligible_name(name@) {
            1nat
        } else {
            0nat
        },
        FsTree::Dir { .. } => 0nat,
    }
}

/// The number of eligible files directly in `es`.
pub open spec fn level_count(es: Seq<FsTree>) -> nat
    decreases es.len(),
{
    if es.len() == 0 {
        0nat
    } else {
        level_count(es.drop_last()) + eligible_here(es.last())
    }
}

/// The number of eligible files a walk of `t` considers.
pub open spec fn eligible_count(t: FsTree, recursive: bool) -> nat
    decreases t, 0int, 0int,
{
    match t {
        FsTree::File { .. } => 0nat,
        FsTree::Dir { entries: None, .. } => 0nat,
        FsTree::Dir { entries: Some(v), .. } => level_count(v@) + if recursive {
            subdir_count(v, 0, recursive)
        } else {
            0nat
        },
    }
}

/// The number of eligible files below the subdirectories of a listing, from
/// index `i` on.
pub open spec fn subdir_count(v: Vec<FsTree>, i: int, recursive: bool) -> nat
    decreases v, v@.len() - i, 1int,
{
    if i < 0 || i >= v@.len() {
        0nat
    } else {
        (match v@[i] {
            FsTree::Dir { .. } => eligible_count(v@[i], recursive),
            _ => 0nat,
        }) + subdir_count(v, i + 1, recursive)
    }
}

/// A walk returns exactly one entry per eligible file it considers.
pub proof fn lemma_walk_count(t: FsTree, anc: Seq<Seq<char>>, recursive: bool)
    ensures
        walk_entries(t, anc, recursive).len() == eligible_count(t, recursive),
    decreases t, 0int, 0int,
{
    match t {
        FsTree::Dir { entries: Some(v), .. } => {
            lemma_level_count(v@, anc);
            if recursive {
                lemma_subdir_count(v, 0, anc, recursive);
            }
        },
        _ => {},
    }
}

proof fn lemma_level_count(es: Seq<FsTree>, anc: Seq<Seq<char>>)
    ensures
        level_files(es, anc).len() == level_count(es),
    decreases es.len(),
{
    if es.len() > 0 {
        lemma_level_count(es.drop_last(), anc);
    }
}

proof fn lemma_subdir_count(v: Vec<FsTree>, i: int, anc: Seq<Seq<char>>, recursive: bool)
    ensures
        subdir_entries(v, i, anc, recursive).len() == subdir_count(v, i, recursive),
    decreases v, v@.len() - i, 1int,
{
    if 0 <= i < v@.len() {
        match v@[i] {
            FsTree::Dir { name, .. } => {
                lemma_walk_count(v@[i], anc.push(name@), recursive);
            },
            _ => {},
        }
        lemma_subdir_count(v, i + 1, anc, recursive);
    }
}

/// What holds of every entry a walk below the ancestor chain `anc`
/// produces: its segments are non-empty, they extend `anc`, and the last
/// segment is the stem of an eligible file name.
pub open spec fn entry_wf(e: EntryView, anc: Seq<Seq<char>>) -> bool {
    &&& e.0.len() >= 1
    &&& e.0.len() >= anc.len() + 1
    &&& e.0.take(anc.len() as int) == anc
    &&& exists|nm: Seq<char>| eligible_name(nm) && e.0.last() == stem_of(nm)
}

/// Every entry of a walk is well-formed: segments non-empty, extending the
/// ancestor chain, ending in the stem of an eligible file name.
pub proof fn lemma_walk_entries_wf(t: FsTree, anc: Seq<Seq<char>>, recursive: bool)
    ensures
        forall|k: int|
            0 <= k < walk_entries(t, anc, recursive).len() ==> entry_wf(
                #[trigger] walk_entries(t, anc, recursive)[k],
                anc,
            ),
    decreases t, 0int, 0int,
{
    match t {
        FsTree::Dir { entries: Some(v), .. } => {
            lemma_level_files_wf(v@, anc);
            let lf = level_files(v@, anc);
            let we = walk_entries(t, anc, recursive);
            if recursive {
                lemma_subdir_entries_wf(v, 0, anc, recursive);
                assert forall|k: int| 0 <= k < we.len() implies entry_wf(#[trigger] we[k], anc) by {
                    if k < lf.len() {
                        assert(we[k] == lf[k]);
                    } else {
                        assert(we[k] == subdir_entries(v, 0, anc, recursive)[k - lf.len()]);
                    }
                }
            } else {
                assert(we =~= lf);
            }
        },
        _ => {},
    }
}

proof fn lemma_level_files_wf(es: Seq<FsTree>, anc: Seq<Seq<char>>)
    ensures
        forall|k: int|
            0 <= k < level_files(es, anc).len() ==> entry_wf(
                #[trigger] level_files(es, anc)[k],
                anc,
            ),
    decreases es.len(),
{
    if es.len() > 0 {
        lemma_level_files_wf(es.drop_last(), anc);
        let lf = level_files(es, anc);
        let prev = level_files(es.drop_last(), anc);
        assert forall|k: int| 0 <= k < lf.len() implies entry_wf(#[trigger] lf[k], anc) by {
            if k < prev.len() {
                assert(lf[k] == prev[k]);
            } else {
                match es.last() {
                    FsTree::File { name, path } => {
                        let e = (anc.push(stem_of(name@)), path@);
                        assert(lf[k] == e);
                        assert(e.0.take(anc.len() as int) =~= anc);
                        assert(eligible_name(name@) && e.0.last() == stem_of(name@));
                    },
                    FsTree::Dir { .. } => {},
                }
            }
        }
    }
}

proof fn lemma_subdir_entries_wf(v: Vec<FsTree>, i: int, anc: Seq<Seq<char>>, recursive: bool)
    ensures
        (forall|k: int|
            0 <= k < subdir_entries(v, i, anc, recursive).len() ==> entry_wf(
                #[trigger] subdir_entries(v, i, anc, recursive)[k],
                anc,
            )),
    decreases v, v@.len() - i, 1int,
{
    if 0 <= i < v@.len() {
        lemma_subdir_entries_wf(v, i + 1, anc, recursive);
        let se = subdir_entries(v, i, anc, recursive);
        match v@[i] {
            FsTree::Dir { name, .. } => {
                lemma_walk_entries_wf(v@[i], anc.push(name@), recursive);
                let head = walk_entries(v@[i], anc.push(name@), recursive);
                assert forall|k: int| 0 <= k < se.len() implies entry_wf(
                    #[trigger] se[k],
                    anc,
                ) by {
                    if k < head.len() {
                        let e = head[k];
                        assert(entry_wf(e, anc.push(name@)));
                        assert(se[k] == e);
                        assert(e.0.take((anc.len() + 1) as int) == anc.push(name@));
                        assert(e.0.take(anc.len() as int) =~= anc);
                    } else {
                        assert(se[k] == subdir_entries(v, i + 1, anc, recursive)[k - head.len()]);
                    }
                }
            },
            _ => {
                assert forall|k: int| 0 <= k < se.len() implies entry_wf(
                    #[trigger] se[k],
                    anc,
                ) by {
                    assert(se[k] == subdir_entries(v, i + 1, anc, recursive)[k]);
                }
            },
        }
    }
}

} // verus!
