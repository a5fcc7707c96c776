//! What putting new TLS files in place comes to, on a model of the file system
//! that goes by the bytes of paths.

use vstd::prelude::*;
use vstd::string::*;
use vstd::utf8::*;
use crate::certgen::PkiBundle;
use crate::install::{
    clearing, creating, install_steps, is_key, moving, temp_dir, writing, writing_one, FileOpView,
};
use crate::local_pki::{all_true, contents, layout, LocalPathsView};
use crate::paths::{
    join, lemma_join_injective, lemma_join_within, lemma_sibling_apart, lemma_sibling_ends, within,
    DOT, SEPARATOR,
};

verus! {

/// A file: what it holds, and whether only its owner may read it.
pub struct FileView {
    pub contents: Seq<char>,
    pub owner_only: bool,
}

/// The files and directories there are.
pub struct FsView {
    pub files: Map<Seq<u8>, FileView>,
    pub dirs: Set<Seq<u8>>,
}

impl FsView {
    /// Whether nothing is at `dir` or under it.
    pub open spec fn nothing_within(self, dir: Seq<u8>) -> bool {
        forall|p: Seq<u8>| #[trigger]
            within(p, dir) ==> !self.files.contains_key(p) && !self.dirs.contains(p)
    }

    /// The file system without what is at `dir` or under it.
    pub open spec fn without(self, dir: Seq<u8>) -> FsView {
        FsView {
            files: Map::new(
                |p: Seq<u8>| self.files.contains_key(p) && !within(p, dir),
                |p: Seq<u8>| self.files[p],
            ),
            dirs: self.dirs.filter(|p: Seq<u8>| !within(p, dir)),
        }
    }
}

/// What a step makes of the file system. A file that is written over stays hidden
/// if it was, and a file that is not there cannot be hidden or moved.
pub open spec fn step(fs: FsView, op: FileOpView) -> FsView {
    match op {
        FileOpView::RemoveStale { path } => fs.without(path),
        FileOpView::Discard { path } => fs.without(path),
        FileOpView::CreateDir { path } => FsView { dirs: fs.dirs.insert(path), ..fs },
        FileOpView::Write { path, contents } => FsView {
            files: fs.files.insert(
                path,
                FileView {
                    contents,
                    owner_only: fs.files.contains_key(path) && fs.files[path].owner_only,
                },
            ),
            ..fs
        },
        FileOpView::Restrict { path } => if fs.files.contains_key(path) {
            FsView {
                files: fs.files.insert(path, FileView { owner_only: true, ..fs.files[path] }),
                ..fs
            }
        } else {
            fs
        },
        FileOpView::Rename { from, to } => if fs.files.contains_key(from) {
            FsView { files: fs.files.remove(from).insert(to, fs.files[from]), ..fs }
        } else {
            fs
        },
    }
}

/// What a list of steps makes of the file system.
pub open spec fn run(fs: FsView, ops: Seq<FileOpView>) -> FsView
    decreases ops.len(),
{
    if ops.len() == 0 {
        fs
    } else {
        step(run(fs, ops.drop_last()), ops.last())
    }
}

/// File `i` of a bundle as it should be.
pub open spec fn wanted(bundle: PkiBundle, i: int) -> FileView {
    FileView { contents: contents(bundle)[i], owner_only: is_key(i) }
}

proof fn lemma_run_concat(fs: FsView, a: Seq<FileOpView>, b: Seq<FileOpView>)
    ensures
        run(fs, a + b) == run(run(fs, a), b),
    decreases b.len(),
{
    if b.len() == 0 {
        assert(a + b =~= a);
    } else {
        assert((a + b).drop_last() =~= a + b.drop_last());
        assert((a + b).last() == b.last());
        lemma_run_concat(fs, a, b.drop_last());
    }
}

/// The name of file `i` under the directory.
spec fn relative(i: int) -> Seq<u8> {
    if i == 0 {
        encode_utf8("ca.crt"@)
    } else if i == 1 {
        encode_utf8("ca.key"@)
    } else if i == 2 {
        encode_utf8("server"@).push(SEPARATOR) + encode_utf8("tls.crt"@)
    } else if i == 3 {
        encode_utf8("server"@).push(SEPARATOR) + encode_utf8("tls.key"@)
    } else if i == 4 {
        encode_utf8("client"@).push(SEPARATOR) + encode_utf8("tls.crt"@)
    } else {
        encode_utf8("client"@).push(SEPARATOR) + encode_utf8("tls.key"@)
    }
}

pub proof fn lemma_names()
    ensures
        encode_utf8("ca.crt"@) =~= seq![99u8, 97, 46, 99, 114, 116],
        encode_utf8("ca.key"@) =~= seq![99u8, 97, 46, 107, 101, 121],
        encode_utf8("server"@) =~= seq![115u8, 101, 114, 118, 101, 114],
        encode_utf8("client"@) =~= seq![99u8, 108, 105, 101, 110, 116],
        encode_utf8("tls.crt"@) =~= seq![116u8, 108, 115, 46, 99, 114, 116],
        encode_utf8("tls.key"@) =~= seq![116u8, 108, 115, 46, 107, 101, 121],
        encode_utf8(".certgen.tmp"@) =~= seq![
            46u8,
            99,
            101,
            114,
            116,
            103,
            101,
            110,
            46,
            116,
            109,
            112,
        ],
{
    reveal_strlit("ca.crt");
    reveal_strlit("ca.key");
    reveal_strlit("server");
    reveal_strlit("client");
    reveal_strlit("tls.crt");
    reveal_strlit("tls.key");
    reveal_strlit(".certgen.tmp");
    is_ascii_chars_encode_utf8("ca.crt"@);
    is_ascii_chars_encode_utf8("ca.key"@);
    is_ascii_chars_encode_utf8("server"@);
    is_ascii_chars_encode_utf8("client"@);
    is_ascii_chars_encode_utf8("tls.crt"@);
    is_ascii_chars_encode_utf8("tls.key"@);
    is_ascii_chars_encode_utf8(".certgen.tmp"@);
}

proof fn lemma_file_paths(dir: Seq<u8>)
    ensures
        layout(dir).files().len() == 6,
        forall|i: int| 0 <= i < 6 ==> #[trigger] layout(dir).files()[i] == join(dir, relative(i)),
        forall|i: int| 0 <= i < 6 ==> (#[trigger] relative(i)).len() > 0 && relative(i)[0] != DOT
            && relative(i)[0] != SEPARATOR,
        forall|i: int, j: int|
            0 <= i < j < 6 ==> #[trigger] layout(dir).files()[i] != #[trigger] layout(
                dir,
            ).files()[j],
{
    lemma_names();
    assert forall|i: int| 0 <= i < 6 implies #[trigger] layout(dir).files()[i] == join(
        dir,
        relative(i),
    ) by {
        assert(layout(dir).files()[i] =~= join(dir, relative(i)));
    }
    assert forall|i: int, j: int| 0 <= i < j < 6 implies #[trigger] layout(dir).files()[i]
        != #[trigger] layout(dir).files()[j] by {
        if layout(dir).files()[i] == layout(dir).files()[j] {
            lemma_join_injective(dir, relative(i), relative(j));
            assert(relative(i)[0] == relative(j)[0]);
            assert(relative(i)[3] == relative(j)[3]);
            assert(relative(i).len() == relative(j).len());
            if i >= 2 {
                assert(relative(i)[11] == relative(j)[11]);
            }
        }
    }
}

/// The files that are written first lie in the temporary directory; those that
/// are put in place do not.
proof fn lemma_apart_from_temp(dir: Seq<u8>)
    ensures
        forall|i: int|
            0 <= i < 6 ==> within(#[trigger] layout(temp_dir(dir)).files()[i], temp_dir(dir)),
        forall|i: int| 0 <= i < 6 ==> !within(#[trigger] layout(dir).files()[i], temp_dir(dir)),
{
    let temp = temp_dir(dir);
    let suffix = encode_utf8(".certgen.tmp"@);
    lemma_names();
    lemma_file_paths(dir);
    lemma_file_paths(temp);
    lemma_sibling_ends(dir, suffix);
    assert forall|i: int| 0 <= i < 6 implies within(#[trigger] layout(temp).files()[i], temp) by {
        assert(relative(i).len() > 0);
        lemma_join_within(temp, relative(i));
    }
    assert forall|i: int| 0 <= i < 6 implies !within(#[trigger] layout(dir).files()[i], temp) by {
        assert(relative(i).len() > 0);
        lemma_sibling_apart(dir, suffix, relative(i));
    }
}

/// Whether the file at `p` is in `after` as it is in `before`, or is in neither.
pub open spec fn same_file(before: FsView, after: FsView, p: Seq<u8>) -> bool {
    &&& before.files.contains_key(p) == after.files.contains_key(p)
    &&& before.files.contains_key(p) ==> before.files[p] == after.files[p]
}

/// Whether `p` is one of the six files under `dir`.
pub open spec fn is_target(dir: Seq<u8>, p: Seq<u8>) -> bool {
    exists|i: int| 0 <= i < 6 && p == #[trigger] layout(dir).files()[i]
}

/// Whether `now` is what becomes of `fs` with the first `m` of the six files moved
/// into place: these are complete, a key with its access already restricted, the
/// others are as they were, and so is every other file outside the temporary
/// directory.
pub open spec fn moved_in(
    fs: FsView,
    now: FsView,
    dir: Seq<u8>,
    bundle: PkiBundle,
    m: int,
) -> bool {
    &&& forall|p: Seq<u8>|
        !within(p, temp_dir(dir)) && !is_target(dir, p) ==> #[trigger] same_file(fs, now, p)
    &&& forall|i: int|
        0 <= i < m ==> now.files.contains_key(#[trigger] layout(dir).files()[i])
            && now.files[layout(dir).files()[i]] == wanted(bundle, i)
    &&& forall|i: int| m <= i < 6 ==> same_file(fs, now, #[trigger] layout(dir).files()[i])
}

/// The steps before the first file is moved.
pub open spec fn staging_steps(dir: Seq<u8>, bundle: PkiBundle, stale: bool) -> Seq<FileOpView> {
    let temp = temp_dir(dir);
    clearing(temp, stale) + creating(temp, layout(temp)) + writing(layout(temp), bundle, 6)
        + creating(dir, layout(dir))
}

/// How many files have been moved after `n` steps.
pub open spec fn moves_after(dir: Seq<u8>, bundle: PkiBundle, stale: bool, n: int) -> int {
    let moves = n - staging_steps(dir, bundle, stale).len();
    if moves <= 0 {
        0
    } else if moves >= 6 {
        6
    } else {
        moves
    }
}

/// Whether a step changes no file outside `temp`.
spec fn stays_within(op: FileOpView, temp: Seq<u8>) -> bool {
    match op {
        FileOpView::RemoveStale { path } => path == temp,
        FileOpView::Discard { path } => path == temp,
        FileOpView::CreateDir { .. } => true,
        FileOpView::Write { path, .. } => within(path, temp),
        FileOpView::Restrict { path } => within(path, temp),
        FileOpView::Rename { .. } => false,
    }
}

/// Whether no file outside `temp` differs.
spec fn same_outside(fs: FsView, now: FsView, temp: Seq<u8>) -> bool {
    forall|p: Seq<u8>| !within(p, temp) ==> #[trigger] same_file(fs, now, p)
}

proof fn lemma_stays_within(fs: FsView, now: FsView, ops: Seq<FileOpView>, temp: Seq<u8>)
    requires
        same_outside(fs, now, temp),
        forall|k: int| 0 <= k < ops.len() ==> stays_within(#[trigger] ops[k], temp),
    ensures
        same_outside(fs, run(now, ops), temp),
    decreases ops.len(),
{
    if ops.len() > 0 {
        let rest = ops.drop_last();
        assert forall|k: int| 0 <= k < rest.len() implies stays_within(
            #[trigger] rest[k],
            temp,
        ) by {
            assert(stays_within(ops[k], temp));
        }
        lemma_stays_within(fs, now, rest, temp);
        assert(stays_within(ops[ops.len() - 1], temp));
        let before = run(now, rest);
        assert forall|p: Seq<u8>| !within(p, temp) implies #[trigger] same_file(
            fs,
            run(now, ops),
            p,
        ) by {
            assert(same_file(fs, before, p));
        }
    }
}

proof fn lemma_writing_stays_within(temp: Seq<u8>, bundle: PkiBundle, n: int)
    requires
        0 <= n <= 6,
        forall|i: int| 0 <= i < 6 ==> within(#[trigger] layout(temp).files()[i], temp),
    ensures
        forall|k: int|
            0 <= k < writing(layout(temp), bundle, n).len() ==> stays_within(
                #[trigger] writing(layout(temp), bundle, n)[k],
                temp,
            ),
    decreases n,
{
    if n > 0 {
        lemma_writing_stays_within(temp, bundle, n - 1);
        let most = writing(layout(temp), bundle, n - 1);
        let all = writing(layout(temp), bundle, n);
        assert(within(layout(temp).files()[n - 1], temp));
        assert forall|k: int| 0 <= k < all.len() implies stays_within(#[trigger] all[k], temp) by {
            if k < most.len() {
                assert(stays_within(most[k], temp));
            }
        }
    }
}

proof fn lemma_staging_stays_within(dir: Seq<u8>, bundle: PkiBundle, stale: bool)
    ensures
        forall|k: int|
            0 <= k < staging_steps(dir, bundle, stale).len() ==> stays_within(
                #[trigger] staging_steps(dir, bundle, stale)[k],
                temp_dir(dir),
            ),
{
    let temp = temp_dir(dir);
    let all = staging_steps(dir, bundle, stale);
    let start = clearing(temp, stale).len() + 3;
    let write = writing(layout(temp), bundle, 6);
    lemma_apart_from_temp(dir);
    lemma_writing_stays_within(temp, bundle, 6);
    assert forall|k: int| 0 <= k < all.len() implies stays_within(#[trigger] all[k], temp) by {
        if start <= k < start + write.len() {
            assert(all[k] == write[k - start]);
        }
    }
}

/// Whether none of the six files lies in the temporary directory.
spec fn none_staged(now: FsView, temp: Seq<u8>) -> bool {
    forall|i: int| 0 <= i < 6 ==> !now.files.contains_key(#[trigger] layout(temp).files()[i])
}

/// Whether the files from `m` on lie in the temporary directory, as they should be.
spec fn staged_from(now: FsView, temp: Seq<u8>, bundle: PkiBundle, m: int) -> bool {
    forall|i: int|
        m <= i < 6 ==> now.files.contains_key(#[trigger] layout(temp).files()[i])
            && now.files[layout(temp).files()[i]] == wanted(bundle, i)
}

proof fn lemma_creating(now: FsView, dir: Seq<u8>, paths: LocalPathsView)
    ensures
        run(now, creating(dir, paths)).files == now.files,
{
    let ops = creating(dir, paths);
    assert(ops.drop_last().drop_last().drop_last() =~= Seq::<FileOpView>::empty());
    reveal_with_fuel(run, 4);
}

proof fn lemma_writing_one(now: FsView, path: Seq<u8>, contents: Seq<char>, key: bool)
    requires
        !now.files.contains_key(path),
    ensures
        run(now, writing_one(path, contents, key)).files == now.files.insert(
            path,
            FileView { contents, owner_only: key },
        ),
{
    let ops = writing_one(path, contents, key);
    reveal_with_fuel(run, 3);
    if key {
        assert(ops.drop_last() =~= seq![FileOpView::Write { path, contents }]);
        assert(ops.drop_last().drop_last() =~= Seq::<FileOpView>::empty());
    } else {
        assert(ops.drop_last() =~= Seq::<FileOpView>::empty());
    }
    assert(run(now, ops).files =~= now.files.insert(path, FileView { contents, owner_only: key }));
}

proof fn lemma_writing(now: FsView, temp: Seq<u8>, bundle: PkiBundle, n: int)
    requires
        0 <= n <= 6,
        none_staged(now, temp),
    ensures
        ({
            let end = run(now, writing(layout(temp), bundle, n));
            &&& forall|i: int|
                0 <= i < n ==> end.files.contains_key(#[trigger] layout(temp).files()[i])
                    && end.files[layout(temp).files()[i]] == wanted(bundle, i)
            &&& forall|i: int|
                n <= i < 6 ==> !end.files.contains_key(#[trigger] layout(temp).files()[i])
        }),
    decreases n,
{
    if n > 0 {
        let t = layout(temp).files();
        let most = writing(layout(temp), bundle, n - 1);
        let one = writing_one(t[n - 1], contents(bundle)[n - 1], is_key(n - 1));
        let before = run(now, most);
        let end = run(now, most + one);
        lemma_writing(now, temp, bundle, n - 1);
        lemma_run_concat(now, most, one);
        lemma_writing_one(before, t[n - 1], contents(bundle)[n - 1], is_key(n - 1));
        lemma_file_paths(temp);
        assert forall|i: int| 0 <= i < n implies end.files.contains_key(#[trigger] t[i])
            && end.files[t[i]] == wanted(bundle, i) by {
            if i < n - 1 {
                assert(t[i] != t[n - 1]);
            }
        }
        assert forall|i: int| n <= i < 6 implies !end.files.contains_key(#[trigger] t[i]) by {
            assert(t[n - 1] != t[i]);
        }
    }
}

/// Where the steps before the first move lead.
proof fn lemma_staged(fs: FsView, dir: Seq<u8>, bundle: PkiBundle, stale: bool)
    requires
        !stale ==> fs.nothing_within(temp_dir(dir)),
    ensures
        staged_from(run(fs, staging_steps(dir, bundle, stale)), temp_dir(dir), bundle, 0),
{
    let temp = temp_dir(dir);
    let t = layout(temp).files();
    let head = clearing(temp, stale);
    let first = creating(temp, layout(temp));
    let write = writing(layout(temp), bundle, 6);
    let second = creating(dir, layout(dir));
    let cleared = run(fs, head);
    lemma_apart_from_temp(dir);
    assert(none_staged(cleared, temp)) by {
        if stale {
            assert(head.drop_last() =~= Seq::<FileOpView>::empty());
            reveal_with_fuel(run, 2);
        }
        assert forall|i: int| 0 <= i < 6 implies !cleared.files.contains_key(#[trigger] t[i]) by {
            assert(within(t[i], temp));
        }
    }
    lemma_run_concat(fs, head, first);
    lemma_run_concat(fs, head + first, write);
    lemma_run_concat(fs, head + first + write, second);
    lemma_creating(cleared, temp, layout(temp));
    let ready = run(cleared, first);
    assert(none_staged(ready, temp));
    lemma_writing(ready, temp, bundle, 6);
    lemma_creating(run(ready, write), dir, layout(dir));
}

proof fn lemma_moving(fs: FsView, now: FsView, dir: Seq<u8>, bundle: PkiBundle, n: int)
    requires
        moved_in(fs, now, dir, bundle, 0),
        staged_from(now, temp_dir(dir), bundle, 0),
        0 <= n <= 6,
    ensures
        ({
            let end = run(now, moving(layout(temp_dir(dir)), layout(dir)).take(n));
            moved_in(fs, end, dir, bundle, n) && staged_from(end, temp_dir(dir), bundle, n)
        }),
    decreases n,
{
    let temp = temp_dir(dir);
    let all = moving(layout(temp), layout(dir));
    if n == 0 {
        assert(all.take(0) =~= Seq::<FileOpView>::empty());
    } else {
        let t = layout(temp).files();
        let f = layout(dir).files();
        let k = n - 1;
        lemma_moving(fs, now, dir, bundle, k);
        assert(all.take(n).drop_last() =~= all.take(k));
        assert(all.take(n).last() == all[k]);
        lemma_file_paths(dir);
        lemma_file_paths(temp);
        lemma_apart_from_temp(dir);
        let before = run(now, all.take(k));
        let after = run(now, all.take(n));
        assert(after == step(before, all[k]));
        assert(before.files.contains_key(t[k]));
        assert(within(t[k], temp) && !within(f[k], temp));
        assert forall|p: Seq<u8>|
            !within(p, temp) && !is_target(dir, p) implies #[trigger] same_file(fs, after, p) by {
            assert(same_file(fs, before, p));
            assert(p != f[k]);
        }
        assert forall|i: int| 0 <= i < n implies after.files.contains_key(#[trigger] f[i])
            && after.files[f[i]] == wanted(bundle, i) by {
            assert(!within(f[i], temp));
            if i < k {
                assert(f[i] != f[k]);
            }
        }
        assert forall|i: int| n <= i < 6 implies same_file(fs, after, #[trigger] f[i]) by {
            assert(same_file(fs, before, f[i]));
            assert(!within(f[i], temp));
            assert(f[k] != f[i]);
        }
        assert forall|i: int| n <= i < 6 implies after.files.contains_key(#[trigger] t[i])
            && after.files[t[i]] == wanted(bundle, i) by {
            assert(t[k] != t[i]);
            assert(within(t[i], temp));
        }
    }
}

/// No file is ever seen half written. Wherever the installation stops, as many of
/// the six files as have been moved are complete, a key with its access already
/// restricted; the others are as they were, all of them before the first move; and
/// so is every other file outside the temporary directory.
pub proof fn lemma_install_step_by_step(
    fs: FsView,
    dir: Seq<u8>,
    bundle: PkiBundle,
    stale: bool,
    n: int,
)
    requires
        !stale ==> fs.nothing_within(temp_dir(dir)),
        0 <= n <= install_steps(dir, bundle, layout(dir), stale).len(),
    ensures
        moved_in(
            fs,
            run(fs, install_steps(dir, bundle, layout(dir), stale).take(n)),
            dir,
            bundle,
            moves_after(dir, bundle, stale, n),
        ),
{
    let temp = temp_dir(dir);
    let f = layout(dir).files();
    let all = install_steps(dir, bundle, layout(dir), stale);
    let ops = all.take(n);
    let stage = staging_steps(dir, bundle, stale);
    let shift = moving(layout(temp), layout(dir));
    let start = stage.len() as int;
    assert(all =~= stage + shift + seq![FileOpView::Discard { path: temp }]);
    lemma_apart_from_temp(dir);
    lemma_staging_stays_within(dir, bundle, stale);
    assert(same_outside(fs, fs, temp));
    if n <= start {
        assert(ops =~= stage.take(n));
        assert forall|k: int| 0 <= k < ops.len() implies stays_within(#[trigger] ops[k], temp) by {
            assert(stays_within(stage[k], temp));
        }
        lemma_stays_within(fs, fs, ops, temp);
        assert forall|i: int| 0 <= i < 6 implies same_file(fs, run(fs, ops), #[trigger] f[i]) by {
            assert(!within(f[i], temp));
        }
    } else {
        let now = run(fs, stage);
        lemma_stays_within(fs, fs, stage, temp);
        lemma_staged(fs, dir, bundle, stale);
        assert forall|i: int| 0 <= i < 6 implies same_file(fs, now, #[trigger] f[i]) by {
            assert(!within(f[i], temp));
        }
        let m = moves_after(dir, bundle, stale, n);
        lemma_moving(fs, now, dir, bundle, m);
        let some = shift.take(m);
        lemma_run_concat(fs, stage, some);
        if n <= start + 6 {
            assert(ops =~= stage + some);
        } else {
            let last = seq![FileOpView::Discard { path: temp }];
            let end = run(fs, stage + some);
            assert(ops =~= stage + some + last);
            lemma_run_concat(fs, stage + some, last);
            assert(stays_within(last[0], temp));
            assert(same_outside(end, end, temp));
            lemma_stays_within(end, end, last, temp);
            let done = run(end, last);
            assert forall|p: Seq<u8>|
                !within(p, temp) && !is_target(dir, p) implies #[trigger] same_file(
                fs,
                done,
                p,
            ) by {
                assert(same_file(fs, end, p));
                assert(same_file(end, done, p));
            }
            assert forall|i: int| 0 <= i < 6 implies done.files.contains_key(#[trigger] f[i])
                && done.files[f[i]] == wanted(bundle, i) by {
                assert(!within(f[i], temp));
                assert(same_file(end, done, f[i]));
            }
        }
    }
}

/// Once the installation is through, each of the six files holds its part of the
/// bundle, only the owner may read the keys, nothing is left of the temporary
/// directory, and no other file has changed. What an earlier try left behind does
/// not matter.
pub proof fn lemma_install_puts_bundle_in_place(
    fs: FsView,
    dir: Seq<u8>,
    bundle: PkiBundle,
    stale: bool,
)
    requires
        !stale ==> fs.nothing_within(temp_dir(dir)),
    ensures
        ({
            let end = run(fs, install_steps(dir, bundle, layout(dir), stale));
            moved_in(fs, end, dir, bundle, 6) && end.nothing_within(temp_dir(dir))
        }),
{
    let ops = install_steps(dir, bundle, layout(dir), stale);
    lemma_install_step_by_step(fs, dir, bundle, stale, ops.len() as int);
    assert(ops.take(ops.len() as int) =~= ops);
    assert(ops.last() == FileOpView::Discard { path: temp_dir(dir) });
}

/// What was put in place is found again: the next run sees all six files, so it
/// generates nothing, and reads the bundle that was written.
pub proof fn lemma_installed_bundle_reads_back(
    fs: FsView,
    dir: Seq<u8>,
    bundle: PkiBundle,
    stale: bool,
    present: Seq<bool>,
    read: Seq<Seq<char>>,
)
    requires
        !stale ==> fs.nothing_within(temp_dir(dir)),
        present.len() == 6,
        read.len() == 6,
        ({
            let end = run(fs, install_steps(dir, bundle, layout(dir), stale));
            forall|i: int|
                0 <= i < 6 ==> present[i] == end.files.contains_key(
                    #[trigger] layout(dir).files()[i],
                ) && read[i] == end.files[layout(dir).files()[i]].contents
        }),
    ensures
        all_true(present),
        read == contents(bundle),
{
    lemma_install_puts_bundle_in_place(fs, dir, bundle, stale);
    assert forall|i: int| 0 <= i < present.len() implies #[trigger] present[i] by {
        assert(layout(dir).files()[i] == layout(dir).files()[i]);
    }
    assert forall|i: int| 0 <= i < 6 implies read[i] == contents(bundle)[i] by {
        assert(layout(dir).files()[i] == layout(dir).files()[i]);
    }
    assert(read =~= contents(bundle));
}

} // verus!
