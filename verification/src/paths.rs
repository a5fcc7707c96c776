//! Unix paths as bytes: joining a name on, the last component, and the path of a
//! sibling.

use vstd::prelude::*;
use crate::bytes::{copied, copy_bytes};

verus! {

/// The byte that separates components.
pub const SEPARATOR: u8 = 47;

/// The byte of a full stop.
pub const DOT: u8 = 46;

/// `base` with `name` joined on. A name that starts at the root stands for
/// itself, and no second separator is put after one.
pub open spec fn join(base: Seq<u8>, name: Seq<u8>) -> Seq<u8> {
    if name.len() > 0 && name[0] == SEPARATOR {
        name
    } else if base.len() == 0 || base.last() == SEPARATOR {
        base + name
    } else {
        base.push(SEPARATOR) + name
    }
}

/// How many bytes come before the components that can be taken off a path: the
/// root, or a full stop at the start that stands for the current directory.
pub open spec fn fixed_part(path: Seq<u8>) -> int {
    if path.len() > 0 && (path[0] == SEPARATOR || (path[0] == DOT && (path.len() == 1 || path[1]
        == SEPARATOR))) {
        1
    } else {
        0
    }
}

/// Where the last component of the first `n` bytes starts, at `floor` or after
/// it.
pub open spec fn component_start(path: Seq<u8>, n: int, floor: int) -> int
    decreases n - floor,
{
    if n <= floor {
        floor
    } else if path[n - 1] == SEPARATOR {
        n
    } else {
        component_start(path, n - 1, floor)
    }
}

/// Where the last component of a path starts.
pub open spec fn last_start(path: Seq<u8>) -> int {
    component_start(path, path.len() as int, fixed_part(path))
}

/// Where what stands before the last component ends, without the separator in
/// between.
pub open spec fn before_last(path: Seq<u8>) -> int {
    if last_start(path) > fixed_part(path) {
        last_start(path) - 1
    } else {
        fixed_part(path)
    }
}

/// Whether a component says nothing: it is empty, or a full stop.
pub open spec fn idle_component(component: Seq<u8>) -> bool {
    component.len() == 0 || (component.len() == 1 && component[0] == DOT)
}

/// Whether a component leads to the directory above.
pub open spec fn parent_component(component: Seq<u8>) -> bool {
    component.len() == 2 && component[0] == DOT && component[1] == DOT
}

pub proof fn lemma_component_start(path: Seq<u8>, n: int, floor: int)
    requires
        0 <= floor <= n <= path.len(),
    ensures
        floor <= component_start(path, n, floor) <= n,
        component_start(path, n, floor) > floor ==> path[component_start(path, n, floor) - 1]
            == SEPARATOR,
        forall|i: int| component_start(path, n, floor) <= i < n ==> path[i] != SEPARATOR,
    decreases n - floor,
{
    if n > floor && path[n - 1] != SEPARATOR {
        lemma_component_start(path, n - 1, floor);
    }
}

/// A path without the components at its end that say nothing.
pub open spec fn trimmed_path(path: Seq<u8>) -> Seq<u8>
    decreases path.len(),
{
    if path.len() <= fixed_part(path) || !idle_component(path.skip(last_start(path))) {
        path
    } else {
        proof {
            lemma_component_start(path, path.len() as int, fixed_part(path));
        }
        trimmed_path(path.take(before_last(path)))
    }
}

/// The last component of a path, where it is a name.
pub open spec fn file_name(path: Seq<u8>) -> Option<Seq<u8>> {
    let whole = trimmed_path(path);
    let last = whole.skip(last_start(whole));
    if whole.len() <= fixed_part(whole) || parent_component(last) {
        None
    } else {
        Some(last)
    }
}

/// What stands before the last component of a path.
pub open spec fn parent(path: Seq<u8>) -> Seq<u8> {
    let whole = trimmed_path(path);
    trimmed_path(whole.take(before_last(whole)))
}

/// The path next to `path` whose name has `suffix` put behind it. A path without
/// a name gets one that is just the suffix.
pub open spec fn sibling(path: Seq<u8>, suffix: Seq<u8>) -> Seq<u8> {
    match file_name(path) {
        Some(name) => join(parent(path), name + suffix),
        None => join(path, suffix),
    }
}

/// `base` with `name` joined on.
pub fn join_path(base: &[u8], name: &[u8]) -> (r: Vec<u8>)
    ensures
        r@ == join(base@, name@),
{
    if name.len() > 0 && name[0] == SEPARATOR {
        return copied(name);
    }
    let mut r = copied(base);
    if base.len() > 0 && base[base.len() - 1] != SEPARATOR {
        r.push(SEPARATOR);
    }
    r.extend_from_slice(name);
    assert(r@ == join(base@, name@));
    r
}

/// How many bytes come before the components that can be taken off.
fn fixed_len(path: &[u8]) -> (r: usize)
    ensures
        r == fixed_part(path@),
        r <= path@.len(),
{
    if path.len() > 0 && (path[0] == SEPARATOR || (path[0] == DOT && (path.len() == 1 || path[1]
        == SEPARATOR))) {
        1
    } else {
        0
    }
}

/// Where the last component starts.
fn find_last_start(path: &[u8]) -> (r: usize)
    ensures
        r == last_start(path@),
        fixed_part(path@) <= r <= path@.len(),
{
    let floor = fixed_len(path);
    let mut n: usize = path.len();
    while n > floor && path[n - 1] != SEPARATOR
        invariant
            floor == fixed_part(path@),
            floor <= n <= path@.len(),
            last_start(path@) == component_start(path@, n as int, floor as int),
        decreases n,
    {
        n = n - 1;
    }
    n
}

/// Where what stands before the last component ends.
fn find_before_last(path: &[u8]) -> (r: usize)
    ensures
        r == before_last(path@),
        fixed_part(path@) <= r <= path@.len(),
        path@.len() > fixed_part(path@) && idle_component(path@.skip(last_start(path@))) ==> r
            < path@.len(),
{
    let start = find_last_start(path);
    let floor = fixed_len(path);
    if start > floor {
        start - 1
    } else {
        floor
    }
}

/// Whether the last component says nothing.
fn ends_idle(path: &[u8]) -> (r: bool)
    ensures
        r == idle_component(path@.skip(last_start(path@))),
{
    let start = find_last_start(path);
    path.len() == start || (path.len() - start == 1 && path[start] == DOT)
}

/// A path without the components at its end that say nothing.
fn trim_path(path: &[u8]) -> (r: Vec<u8>)
    ensures
        r@ == trimmed_path(path@),
{
    let mut r = copied(path);
    while r.len() > fixed_len(r.as_slice()) && ends_idle(r.as_slice())
        invariant
            trimmed_path(path@) == trimmed_path(r@),
        decreases r@.len(),
    {
        let n = find_before_last(r.as_slice());
        assert(r@.subrange(0, n as int) == r@.take(n as int));
        r.truncate(n);
    }
    r
}

/// The path next to `path` whose name has `suffix` put behind it.
pub fn sibling_path(path: &[u8], suffix: &[u8]) -> (r: Vec<u8>)
    ensures
        r@ == sibling(path@, suffix@),
{
    let whole = trim_path(path);
    let start = find_last_start(whole.as_slice());
    let n: usize = whole.len();
    let climbs: bool = n - start == 2 && whole[start] == DOT && whole[start + 1] == DOT;
    assert(climbs == parent_component(whole@.skip(start as int)));
    if n <= fixed_len(whole.as_slice()) || climbs {
        return join_path(path, suffix);
    }
    let mut name = copy_bytes(whole.as_slice(), start, n);
    assert(name@ == whole@.skip(start as int));
    name.extend_from_slice(suffix);
    assert(name@ == whole@.skip(start as int) + suffix@);
    let above = copy_bytes(whole.as_slice(), 0, find_before_last(whole.as_slice()));
    assert(above@ == whole@.take(before_last(whole@)));
    join_path(trim_path(above.as_slice()).as_slice(), name.as_slice())
}

/// Whether `path` is `dir` or lies under it, going by the bytes alone.
pub open spec fn within(path: Seq<u8>, dir: Seq<u8>) -> bool {
    ||| path == dir
    ||| path.len() > dir.len() && path.take(dir.len() as int) == dir && path[dir.len() as int]
        == SEPARATOR
}

proof fn lemma_apart(path: Seq<u8>, dir: Seq<u8>, k: int)
    requires
        0 <= k < dir.len(),
        k < path.len() ==> path[k] != dir[k],
    ensures
        !within(path, dir),
{
    if path.len() > dir.len() && path.take(dir.len() as int) == dir {
        assert(path.take(dir.len() as int)[k] == path[k]);
    }
}

/// Whether a component that says nothing stands at `k`.
spec fn idle_at(path: Seq<u8>, k: int) -> bool {
    ||| k >= path.len()
    ||| path[k] == SEPARATOR
    ||| path[k] == DOT && (k + 1 >= path.len() || path[k + 1] == SEPARATOR)
}

/// Whether what stands from `k` on starts, behind a separator, with a component
/// that says nothing.
spec fn idle_from(path: Seq<u8>, k: int) -> bool {
    if k > 0 && path[k - 1] == SEPARATOR {
        idle_at(path, k)
    } else {
        path[k] == SEPARATOR && idle_at(path, k + 1)
    }
}

proof fn lemma_trimmed_path(path: Seq<u8>)
    ensures
        ({
            let t = trimmed_path(path);
            &&& t.len() <= path.len()
            &&& t == path.take(t.len() as int)
            &&& path.len() > 0 ==> t.len() > 0
            &&& t.len() > fixed_part(t) ==> !idle_component(t.skip(last_start(t)))
            &&& t.len() < path.len() ==> idle_from(path, t.len() as int)
        }),
    decreases path.len(),
{
    let floor = fixed_part(path);
    let start = last_start(path);
    lemma_component_start(path, path.len() as int, floor);
    if path.len() <= floor || !idle_component(path.skip(start)) {
        assert(path.take(path.len() as int) == path);
    } else {
        let n = before_last(path);
        let rest = path.take(n);
        lemma_trimmed_path(rest);
        let t = trimmed_path(rest);
        let k = t.len() as int;
        assert(path.take(k) == rest.take(k));
        let last = path.skip(start);
        if last.len() == 1 {
            assert(last[0] == path[start]);
        }
        assert(n > 0) by {
            if start > floor {
                assert(path[start - 1] == SEPARATOR);
            } else {
                assert(last.len() >= 1);
            }
        }
        if k < n {
            assert(idle_from(rest, k));
            if start > floor {
                assert(path[n] == SEPARATOR);
            }
        } else {
            assert(k == n);
            if start > floor {
                assert(path[n] == SEPARATOR);
                if n > 0 && path[n - 1] == SEPARATOR {
                    assert(idle_at(path, n));
                } else {
                    assert(idle_at(path, n + 1));
                }
            } else {
                assert(n == floor && floor == 1);
                if path[0] == DOT {
                    assert(path[1] == SEPARATOR);
                }
                assert(path[0] == SEPARATOR);
                assert(idle_at(path, 1));
            }
        }
    }
}

/// What a name is put behind when it is joined on to `base`.
spec fn stem(base: Seq<u8>) -> Seq<u8> {
    if base.len() == 0 || base.last() == SEPARATOR {
        base
    } else {
        base.push(SEPARATOR)
    }
}

/// The stem of the parent of a path with a name is where the name starts, or
/// something that says nothing starts there.
proof fn lemma_parent_stem(path: Seq<u8>)
    requires
        file_name(path) is Some,
    ensures
        ({
            let t = trimmed_path(path);
            let j = stem(parent(path));
            let start = last_start(t);
            &&& j.len() <= start < t.len()
            &&& j == t.take(j.len() as int)
            &&& j.len() == start || idle_at(t, j.len() as int)
        }),
{
    let t = trimmed_path(path);
    lemma_trimmed_path(path);
    let floor = fixed_part(t);
    let start = last_start(t);
    lemma_component_start(t, t.len() as int, floor);
    let n = before_last(t);
    let rest = t.take(n);
    let p = parent(path);
    lemma_trimmed_path(rest);
    let k = p.len() as int;
    assert(p == t.take(k)) by {
        assert(rest.take(k) == t.take(k));
    }
    let last = t.skip(start);
    assert(start < t.len()) by {
        assert(!idle_component(last));
    }
    if start > floor {
        assert(t[n] == SEPARATOR);
    } else if floor == 1 && t[0] == DOT {
        assert(t[1] == SEPARATOR);
    }
    if k > 0 {
        assert(p.last() == t[k - 1]);
    }
    let j = stem(p);
    if k < n {
        assert(idle_from(rest, k));
    }
    assert(j =~= t.take(j.len() as int));
}

/// A path next to `path` lies apart from all that is under `path`: nothing that
/// is joined on to `path` by a name without a full stop at its start lies within
/// the sibling.
pub proof fn lemma_sibling_apart(path: Seq<u8>, suffix: Seq<u8>, name: Seq<u8>)
    requires
        suffix.len() > 0,
        suffix[0] == DOT,
        name.len() > 0,
        name[0] != DOT,
        name[0] != SEPARATOR,
    ensures
        !within(join(path, name), sibling(path, suffix)),
{
    let inner = join(path, name);
    let outer = sibling(path, suffix);
    match file_name(path) {
        None => {
            lemma_apart(inner, outer, stem(path).len() as int);
        },
        Some(own) => {
            let t = trimmed_path(path);
            lemma_trimmed_path(path);
            lemma_parent_stem(path);
            lemma_component_start(t, t.len() as int, fixed_part(t));
            let j = stem(parent(path));
            let start = last_start(t);
            assert(own == t.skip(start));
            assert(own[0] == t[start]);
            assert(outer == j + (own + suffix));
            assert forall|i: int| 0 <= i < t.len() implies inner[i] == t[i] by {
                assert(path.take(t.len() as int)[i] == path[i]);
            }
            if j.len() == start {
                let k = t.len() as int;
                assert(outer[k] == suffix[0]);
                assert(t.last() == t[k - 1]);
                assert(path[k - 1] == t[k - 1]);
                assert(inner[k] == SEPARATOR);
                lemma_apart(inner, outer, k);
            } else {
                let k = j.len() as int;
                assert(outer[k] == own[0]);
                if own[0] == DOT && t[k] == DOT {
                    assert(own.len() >= 2);
                    assert(own[1] == t[start + 1]);
                    assert(outer[k + 1] == own[1]);
                    lemma_apart(inner, outer, k + 1);
                } else {
                    lemma_apart(inner, outer, k);
                }
            }
        },
    }
}

/// Different names joined on to the same path give different paths.
pub proof fn lemma_join_injective(base: Seq<u8>, a: Seq<u8>, b: Seq<u8>)
    requires
        a.len() > 0 ==> a[0] != SEPARATOR,
        b.len() > 0 ==> b[0] != SEPARATOR,
        join(base, a) == join(base, b),
    ensures
        a == b,
{
    let n = stem(base).len() as int;
    assert(join(base, a).skip(n) =~= a);
    assert(join(base, b).skip(n) =~= b);
}

/// What is joined on to a path that does not end in a separator lies under it.
pub proof fn lemma_join_within(base: Seq<u8>, name: Seq<u8>)
    requires
        base.len() > 0,
        base.last() != SEPARATOR,
        name.len() > 0 ==> name[0] != SEPARATOR,
    ensures
        within(join(base, name), base),
{
    assert(join(base, name).take(base.len() as int) =~= base);
}

/// A sibling ends as its suffix does.
pub proof fn lemma_sibling_ends(path: Seq<u8>, suffix: Seq<u8>)
    requires
        suffix.len() > 0,
        suffix[0] != SEPARATOR,
    ensures
        sibling(path, suffix).len() > 0,
        sibling(path, suffix).last() == suffix.last(),
{
}

pub proof fn lemma_last_start_is(path: Seq<u8>, n: int, floor: int, start: int)
    requires
        0 <= floor <= start <= n <= path.len(),
        start > floor ==> path[start - 1] == SEPARATOR,
        forall|i: int| start <= i < n ==> path[i] != SEPARATOR,
    ensures
        component_start(path, n, floor) == start,
    decreases n,
{
    if n > start {
        lemma_last_start_is(path, n - 1, floor, start);
    }
}

proof fn lemma_trimmed_twice(path: Seq<u8>)
    ensures
        trimmed_path(trimmed_path(path)) == trimmed_path(path),
    decreases path.len(),
{
    if path.len() <= fixed_part(path) || !idle_component(path.skip(last_start(path))) {
    } else {
        lemma_component_start(path, path.len() as int, fixed_part(path));
        lemma_trimmed_twice(path.take(before_last(path)));
    }
}

/// Only the root ends in a separator once it is trimmed.
proof fn lemma_trimmed_ends(path: Seq<u8>)
    requires
        trimmed_path(path).len() > 0,
        trimmed_path(path).last() == SEPARATOR,
    ensures
        trimmed_path(path).len() == 1,
{
    let t = trimmed_path(path);
    lemma_trimmed_path(path);
    if t.len() > fixed_part(t) {
        lemma_last_start_is(t, t.len() as int, fixed_part(t), t.len() as int);
        assert(t.skip(last_start(t)).len() == 0);
    }
}

/// A sibling stands next to its path: both have the same parent, and the name of
/// the sibling is that of the path with the suffix behind it.
pub proof fn lemma_sibling_is_adjacent(path: Seq<u8>, suffix: Seq<u8>)
    requires
        file_name(path) is Some,
        suffix.len() > 1,
        forall|i: int| 0 <= i < suffix.len() ==> suffix[i] != SEPARATOR,
    ensures
        file_name(sibling(path, suffix)) == Some(file_name(path)->0 + suffix),
        parent(sibling(path, suffix)) == parent(path),
{
    let t = trimmed_path(path);
    let own = file_name(path)->0;
    let p = parent(path);
    let j = stem(p);
    let name = own + suffix;
    let outer = sibling(path, suffix);
    lemma_trimmed_path(path);
    lemma_component_start(t, t.len() as int, fixed_part(t));
    lemma_parent_stem(path);
    let start = last_start(t);
    assert(own == t.skip(start));
    assert forall|i: int| 0 <= i < own.len() implies own[i] != SEPARATOR by {
        assert(own[i] == t[start + i]);
    }
    assert(own.len() > 0 && name.len() > 2);
    assert(outer =~= j + name);
    let above = t.take(before_last(t));
    lemma_trimmed_twice(above);
    lemma_trimmed_path(above);
    if p.len() > 0 && p.last() == SEPARATOR {
        lemma_trimmed_ends(above);
        assert(p =~= seq![SEPARATOR]);
    }
    let n = j.len() as int;
    assert(!(name[0] == DOT && name[1] == SEPARATOR));
    if p.len() > 0 {
        assert(outer[0] == p[0]);
    }
    assert(fixed_part(outer) <= n);
    assert forall|i: int| n <= i < outer.len() implies outer[i] != SEPARATOR by {
        assert(outer[i] == name[i - n]);
    }
    if n > fixed_part(outer) {
        assert(outer[n - 1] == SEPARATOR);
    }
    lemma_last_start_is(outer, outer.len() as int, fixed_part(outer), n);
    assert(last_start(outer) == n);
    assert(outer.skip(n) =~= name);
    assert(trimmed_path(outer) == outer);
    if n > fixed_part(outer) {
        assert(outer.take(n - 1) =~= p);
    } else {
        assert(outer.take(n) =~= p);
    }
}

} // verus!
