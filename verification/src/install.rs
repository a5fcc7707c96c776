//! Putting new TLS files in place: they are first written to a directory next to
//! the target and then moved one by one, so that no file is ever seen half
//! written.

use vstd::prelude::*;
use vstd::string::*;
use vstd::utf8::*;
use crate::bytes::copied;
use crate::certgen::PkiBundle;
use crate::local_pki::{contents, layout, LocalPaths, LocalPathsView};
use crate::paths::{sibling, sibling_path};
use crate::text::joined;
use crate::utf8::{lossy_text, read_lossy};

verus! {

/// One step on the file system.
#[derive(Debug, PartialEq, Eq)]
pub enum FileOp {
    /// Remove a directory and all that is in it, left over from an earlier try.
    RemoveStale { path: Vec<u8> },
    /// Create a directory, and those above it, for the owner alone.
    CreateDir { path: Vec<u8> },
    /// Write a file.
    Write { path: Vec<u8>, contents: String },
    /// Let only the owner read and write a file.
    Restrict { path: Vec<u8> },
    /// Move a file, over one that is there.
    Rename { from: Vec<u8>, to: Vec<u8> },
    /// Remove a directory and all that is in it, if that is possible.
    Discard { path: Vec<u8> },
}

/// A [`FileOp`] as a mathematical value.
pub enum FileOpView {
    RemoveStale { path: Seq<u8> },
    CreateDir { path: Seq<u8> },
    Write { path: Seq<u8>, contents: Seq<char> },
    Restrict { path: Seq<u8> },
    Rename { from: Seq<u8>, to: Seq<u8> },
    Discard { path: Seq<u8> },
}

/// What is said of a step that failed.
#[derive(Debug, PartialEq, Eq)]
pub enum OpFailure {
    /// This text, and then why.
    Explain(String),
    /// Just why.
    PassOn,
    /// Nothing: the failure does no harm.
    Ignore,
}

impl FileOp {
    pub open spec fn view(&self) -> FileOpView {
        match self {
            FileOp::RemoveStale { path } => FileOpView::RemoveStale { path: path@ },
            FileOp::CreateDir { path } => FileOpView::CreateDir { path: path@ },
            FileOp::Write { path, contents } => FileOpView::Write {
                path: path@,
                contents: contents@,
            },
            FileOp::Restrict { path } => FileOpView::Restrict { path: path@ },
            FileOp::Rename { from, to } => FileOpView::Rename { from: from@, to: to@ },
            FileOp::Discard { path } => FileOpView::Discard { path: path@ },
        }
    }

    /// What is said where the step fails.
    pub fn on_failure(&self) -> (r: OpFailure)
        ensures
            match self@ {
                FileOpView::RemoveStale { path } => r matches OpFailure::Explain(text) && text@
                    == "failed to remove stale "@ + lossy_text(path),
                FileOpView::CreateDir { .. } => r is PassOn,
                FileOpView::Write { path, .. } => r matches OpFailure::Explain(text) && text@
                    == "failed to write "@ + lossy_text(path),
                FileOpView::Restrict { .. } => r is PassOn,
                FileOpView::Rename { from, to } => r matches OpFailure::Explain(text) && text@
                    == "failed to move "@ + lossy_text(from) + " -> "@ + lossy_text(to),
                FileOpView::Discard { .. } => r is Ignore,
            },
    {
        match self {
            FileOp::RemoveStale { path } => OpFailure::Explain(
                joined("failed to remove stale ", read_lossy(path.as_slice()).as_str()),
            ),
            FileOp::CreateDir { .. } => OpFailure::PassOn,
            FileOp::Write { path, .. } => OpFailure::Explain(
                joined("failed to write ", read_lossy(path.as_slice()).as_str()),
            ),
            FileOp::Restrict { .. } => OpFailure::PassOn,
            FileOp::Rename { from, to } => {
                let mut text = joined("failed to move ", read_lossy(from.as_slice()).as_str());
                text.append(" -> ");
                text.append(read_lossy(to.as_slice()).as_str());
                OpFailure::Explain(text)
            },
            FileOp::Discard { .. } => OpFailure::Ignore,
        }
    }
}

/// The directory next to `dir` where files are written first.
pub open spec fn temp_dir(dir: Seq<u8>) -> Seq<u8> {
    sibling(dir, encode_utf8(".certgen.tmp"@))
}

/// The directory next to `dir` where files are written first.
pub fn sibling_temp_dir(dir: &[u8]) -> (r: Vec<u8>)
    ensures
        r@ == temp_dir(dir@),
{
    sibling_path(dir, ".certgen.tmp".as_bytes())
}

/// Which of the six files are keys.
pub open spec fn is_key(i: int) -> bool {
    i == 1 || i == 3 || i == 5
}

/// Removing what an earlier try left behind, where it did.
pub open spec fn clearing(temp: Seq<u8>, stale: bool) -> Seq<FileOpView> {
    if stale {
        seq![FileOpView::RemoveStale { path: temp }]
    } else {
        Seq::empty()
    }
}

/// Creating `dir` and the two directories under it.
pub open spec fn creating(dir: Seq<u8>, paths: LocalPathsView) -> Seq<FileOpView> {
    seq![
        FileOpView::CreateDir { path: dir },
        FileOpView::CreateDir { path: paths.server_dir },
        FileOpView::CreateDir { path: paths.client_dir },
    ]
}

/// Writing one file, and hiding it from all but the owner if it is a key.
pub open spec fn writing_one(path: Seq<u8>, contents: Seq<char>, key: bool) -> Seq<FileOpView> {
    if key {
        seq![FileOpView::Write { path, contents }, FileOpView::Restrict { path }]
    } else {
        seq![FileOpView::Write { path, contents }]
    }
}

/// Writing the first `n` of the six files.
pub open spec fn writing(paths: LocalPathsView, bundle: PkiBundle, n: int) -> Seq<FileOpView>
    decreases n,
{
    if n <= 0 {
        Seq::empty()
    } else {
        writing(paths, bundle, n - 1) + writing_one(
            paths.files()[n - 1],
            contents(bundle)[n - 1],
            is_key(n - 1),
        )
    }
}

/// Moving the six files.
pub open spec fn moving(from: LocalPathsView, to: LocalPathsView) -> Seq<FileOpView> {
    Seq::new(6, |i: int| FileOpView::Rename { from: from.files()[i], to: to.files()[i] })
}

/// The steps that put the files of `bundle` in place.
pub open spec fn install_steps(
    dir: Seq<u8>,
    bundle: PkiBundle,
    paths: LocalPathsView,
    stale: bool,
) -> Seq<FileOpView> {
    let temp = temp_dir(dir);
    clearing(temp, stale) + creating(temp, layout(temp)) + writing(layout(temp), bundle, 6)
        + creating(dir, paths) + moving(layout(temp), paths) + seq![
        FileOpView::Discard { path: temp },
    ]
}

/// The views of a list of steps.
pub open spec fn views(ops: Seq<FileOp>) -> Seq<FileOpView> {
    ops.map_values(|op: FileOp| op@)
}

/// Adds a step to a list.
fn add_op(ops: &mut Vec<FileOp>, op: FileOp)
    ensures
        views(final(ops)@) == views(old(ops)@).push(op@),
{
    ops.push(op);
    assert(views(ops@) =~= views(old(ops)@).push(op@));
}

/// Adds the creation of a directory and the two under it.
fn add_creating(ops: &mut Vec<FileOp>, dir: &[u8], paths: &LocalPaths)
    ensures
        views(final(ops)@) == views(old(ops)@) + creating(dir@, paths@),
{
    add_op(ops, FileOp::CreateDir { path: copied(dir) });
    add_op(ops, FileOp::CreateDir { path: paths.server_dir.clone() });
    add_op(ops, FileOp::CreateDir { path: paths.client_dir.clone() });
    assert(views(ops@) =~= views(old(ops)@) + creating(dir@, paths@));
}

/// Adds the writing of the six files.
fn add_writing(ops: &mut Vec<FileOp>, paths: &LocalPaths, bundle: &PkiBundle)
    ensures
        views(final(ops)@) == views(old(ops)@) + writing(paths@, *bundle, 6),
{
    let files = paths.all_files();
    let texts = [
        &bundle.ca_cert_pem,
        &bundle.ca_key_pem,
        &bundle.server_cert_pem,
        &bundle.server_key_pem,
        &bundle.client_cert_pem,
        &bundle.client_key_pem,
    ];
    let mut i: usize = 0;
    let ghost before = views(ops@);
    assert(before =~= before + writing(paths@, *bundle, 0));
    while i < 6
        invariant
            i <= 6,
            forall|k: int| 0 <= k < 6 ==> (#[trigger] files@[k])@ == paths@.files()[k],
            forall|k: int| 0 <= k < 6 ==> (#[trigger] texts@[k])@ == contents(*bundle)[k],
            views(ops@) == before + writing(paths@, *bundle, i as int),
        decreases 6 - i,
    {
        let ghost so_far = views(ops@);
        assert(files@[i as int]@ == paths@.files()[i as int]);
        assert(texts@[i as int]@ == contents(*bundle)[i as int]);
        add_op(ops, FileOp::Write { path: files[i].clone(), contents: texts[i].clone() });
        if i == 1 || i == 3 || i == 5 {
            add_op(ops, FileOp::Restrict { path: files[i].clone() });
        }
        assert(views(ops@) =~= so_far + writing_one(
            paths@.files()[i as int],
            contents(*bundle)[i as int],
            is_key(i as int),
        ));
        assert(views(ops@) =~= before + writing(paths@, *bundle, i + 1));
        i = i + 1;
    }
}

/// Adds the moving of the six files.
fn add_moving(ops: &mut Vec<FileOp>, from: &LocalPaths, to: &LocalPaths)
    ensures
        views(final(ops)@) == views(old(ops)@) + moving(from@, to@),
{
    let sources = from.all_files();
    let targets = to.all_files();
    let mut i: usize = 0;
    let ghost before = views(ops@);
    assert(moving(from@, to@).take(0) =~= Seq::<FileOpView>::empty());
    while i < 6
        invariant
            i <= 6,
            forall|k: int| 0 <= k < 6 ==> (#[trigger] sources@[k])@ == from@.files()[k],
            forall|k: int| 0 <= k < 6 ==> (#[trigger] targets@[k])@ == to@.files()[k],
            views(ops@) == before + moving(from@, to@).take(i as int),
        decreases 6 - i,
    {
        assert(sources@[i as int]@ == from@.files()[i as int]);
        assert(targets@[i as int]@ == to@.files()[i as int]);
        add_op(ops, FileOp::Rename { from: sources[i].clone(), to: targets[i].clone() });
        assert(moving(from@, to@).take(i + 1) =~= moving(from@, to@).take(i as int).push(
            moving(from@, to@)[i as int],
        ));
        i = i + 1;
    }
    assert(moving(from@, to@).take(6) =~= moving(from@, to@));
}

/// The steps that put the files of `bundle` in place under `dir`, where `stale`
/// says whether an earlier try left its temporary directory behind.
pub fn write_local_bundle(
    dir: &[u8],
    bundle: &PkiBundle,
    paths: &LocalPaths,
    stale: bool,
) -> (r: Vec<FileOp>)
    ensures
        views(r@) == install_steps(dir@, *bundle, paths@, stale),
{
    let temp = sibling_temp_dir(dir);
    let staged = LocalPaths::resolve(temp.as_slice());
    let mut ops: Vec<FileOp> = Vec::new();
    assert(views(ops@) =~= Seq::<FileOpView>::empty());
    if stale {
        add_op(&mut ops, FileOp::RemoveStale { path: temp.clone() });
    }
    assert(views(ops@) =~= clearing(temp@, stale));
    add_creating(&mut ops, temp.as_slice(), &staged);
    add_writing(&mut ops, &staged, bundle);
    add_creating(&mut ops, dir, paths);
    add_moving(&mut ops, &staged, paths);
    add_op(&mut ops, FileOp::Discard { path: temp });
    assert(views(ops@) =~= install_steps(dir@, *bundle, paths@, stale));
    ops
}

} // verus!
