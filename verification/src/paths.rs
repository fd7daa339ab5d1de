//! Unix paths, as the bytes by which the system knows them. A path need not be
//! text.

use vstd::prelude::*;
use vstd::slice::slice_to_vec;

verus! {

/// The byte that separates the components of a path.
pub const SEPARATOR: u8 = 47;

/// The component that names the directory itself.
pub open spec fn here() -> Seq<u8> {
    seq![46u8]
}

/// The bytes of optional paths.
pub open spec fn opt_bytes(path: Option<Vec<u8>>) -> Option<Seq<u8>> {
    match path {
        Some(p) => Some(p@),
        None => None,
    }
}

/// The bytes of optional borrowed paths.
pub open spec fn opt_path(path: Option<&[u8]>) -> Option<Seq<u8>> {
    match path {
        Some(p) => Some(p@),
        None => None,
    }
}

/// The bytes of paths.
pub open spec fn path_views(paths: Seq<Vec<u8>>) -> Seq<Seq<u8>> {
    paths.map_values(|p: Vec<u8>| p@)
}

/// `base` with `rest` appended as further components: an absolute `rest`
/// replaces `base`, and one separator stands between the two otherwise.
pub open spec fn path_join(base: Seq<u8>, rest: Seq<u8>) -> Seq<u8> {
    if rest.len() > 0 && rest[0] == SEPARATOR {
        rest
    } else if base.len() == 0 || base.last() == SEPARATOR {
        base + rest
    } else {
        base + seq![SEPARATOR] + rest
    }
}

/// `base` with `rest` appended as further components.
pub fn join(base: &[u8], rest: &[u8]) -> (r: Vec<u8>)
    ensures
        r@ == path_join(base@, rest@),
{
    let mut tail = slice_to_vec(rest);
    if rest.len() > 0 && rest[0] == SEPARATOR {
        return tail;
    }
    let mut r = slice_to_vec(base);
    if !(base.len() == 0 || base[base.len() - 1] == SEPARATOR) {
        r.push(SEPARATOR);
        assert(r@ =~= base@ + seq![SEPARATOR]);
    }
    r.append(&mut tail);
    r
}

/// What stands between the separators of a path.
pub open spec fn parts_of(path: Seq<u8>) -> Seq<Seq<u8>>
    decreases path.len(),
{
    if path.len() == 0 {
        seq![Seq::empty()]
    } else {
        let before = parts_of(path.drop_last());
        if path.last() == SEPARATOR {
            before.push(Seq::empty())
        } else {
            before.drop_last().push(before.last().push(path.last()))
        }
    }
}

/// The components among the parts of a path: without empty ones and those that
/// name the directory itself.
pub open spec fn kept_parts(parts: Seq<Seq<u8>>) -> Seq<Seq<u8>>
    decreases parts.len(),
{
    if parts.len() == 0 {
        Seq::empty()
    } else {
        let before = kept_parts(parts.drop_last());
        if parts.last().len() == 0 || parts.last() == here() {
            before
        } else {
            before.push(parts.last())
        }
    }
}

/// The components of a path.
pub open spec fn components_of(path: Seq<u8>) -> Seq<Seq<u8>> {
    kept_parts(parts_of(path))
}

/// Put a part to the components where it is one.
fn keep(part: Vec<u8>, kept: &mut Vec<Vec<u8>>, Ghost(parts): Ghost<Seq<Seq<u8>>>)
    requires
        path_views(old(kept)@) == kept_parts(parts),
    ensures
        path_views(final(kept)@) == kept_parts(parts.push(part@)),
{
    let ghost next = parts.push(part@);
    let ghost before = path_views(kept@);
    let ghost view = part@;
    proof {
        assert(next.drop_last() =~= parts);
        if view.len() == 1 && view[0] == 46 {
            assert(view =~= here());
        }
    }
    if part.len() > 0 && !(part.len() == 1 && part[0] == 46) {
        kept.push(part);
        assert(path_views(kept@) =~= before.push(view));
    }
}

/// The components of a path.
pub fn components(path: &[u8]) -> (r: Vec<Vec<u8>>)
    ensures
        path_views(r@) == components_of(path@),
{
    let mut kept: Vec<Vec<u8>> = Vec::new();
    let mut part: Vec<u8> = Vec::new();
    let ghost mut done: Seq<Seq<u8>> = Seq::empty();
    let mut i: usize = 0;
    assert(path_views(kept@) =~= Seq::<Seq<u8>>::empty());
    assert(path@.take(0) =~= Seq::<u8>::empty());
    assert(done.push(part@) =~= seq![Seq::<u8>::empty()]);
    while i < path.len()
        invariant
            i <= path.len(),
            path_views(kept@) == kept_parts(done),
            parts_of(path@.take(i as int)) == done.push(part@),
        decreases path.len() - i,
    {
        let ghost now = done.push(part@);
        let ghost view = part@;
        assert(path@.take(i as int + 1).drop_last() =~= path@.take(i as int));
        assert(now.drop_last() =~= done);
        if path[i] == SEPARATOR {
            keep(part, &mut kept, Ghost(done));
            part = Vec::new();
            proof {
                done = now;
                assert(part@ =~= Seq::<u8>::empty());
            }
        } else {
            part.push(path[i]);
            assert(part@ =~= view.push(path@[i as int]));
        }
        i += 1;
    }
    assert(path@.take(i as int) =~= path@);
    keep(part, &mut kept, Ghost(done));
    kept
}

/// Where a path starts: at the root, at the directory that it names itself as, or
/// at neither.
pub open spec fn start_of(path: Seq<u8>) -> Option<u8> {
    if path.len() > 0 && path[0] == SEPARATOR {
        Some(SEPARATOR)
    } else if path.len() > 0 && path[0] == 46 && (path.len() == 1 || path[1] == SEPARATOR) {
        Some(46u8)
    } else {
        None
    }
}

/// Whether a path lies in a directory, or is that directory.
pub open spec fn is_within(path: Seq<u8>, dir: Seq<u8>) -> bool {
    let a = components_of(path);
    let b = components_of(dir);
    (start_of(dir) is None && b.len() == 0) || (start_of(path) == start_of(dir) && b.len()
        <= a.len() && a.take(b.len() as int) == b)
}

/// Where a path starts.
fn start(path: &[u8]) -> (r: Option<u8>)
    ensures
        r == start_of(path@),
{
    if path.len() > 0 && path[0] == SEPARATOR {
        Some(SEPARATOR)
    } else if path.len() > 0 && path[0] == 46 && (path.len() == 1 || path[1] == SEPARATOR) {
        Some(46)
    } else {
        None
    }
}

/// Whether two components are the same.
fn same_bytes(a: &Vec<u8>, b: &Vec<u8>) -> (r: bool)
    ensures
        r == (a@ == b@),
{
    if a.len() != b.len() {
        return false;
    }
    let mut i: usize = 0;
    while i < a.len()
        invariant
            i <= a.len() == b.len(),
            forall|k: int| 0 <= k < i ==> a@[k] == b@[k],
        decreases a.len() - i,
    {
        if a[i] != b[i] {
            assert(a@[i as int] != b@[i as int]);
            return false;
        }
        i += 1;
    }
    assert(a@ =~= b@);
    true
}

/// Whether a path lies in a directory, component by component, or is that
/// directory.
pub fn lies_within(path: &[u8], dir: &[u8]) -> (r: bool)
    ensures
        r == is_within(path@, dir@),
{
    let a = components(path);
    let b = components(dir);
    let ghost (x, y) = (path_views(a@), path_views(b@));
    let (from, to) = (start(path), start(dir));
    if to.is_none() && b.len() == 0 {
        return true;
    }
    let alike = match (from, to) {
        (Some(m), Some(n)) => m == n,
        (None, None) => true,
        _ => false,
    };
    if !alike || b.len() > a.len() {
        return false;
    }
    let mut i: usize = 0;
    while i < b.len()
        invariant
            i <= b.len() <= a.len(),
            x == path_views(a@),
            y == path_views(b@),
            x == components_of(path@),
            y == components_of(dir@),
            forall|k: int| 0 <= k < i ==> x[k] == y[k],
        decreases b.len() - i,
    {
        assert(x[i as int] == a[i as int]@ && y[i as int] == b[i as int]@);
        if !same_bytes(&a[i], &b[i]) {
            assert(x.take(y.len() as int)[i as int] != y[i as int]);
            return false;
        }
        i += 1;
    }
    assert(x.take(y.len() as int) =~= y);
    true
}

/// What lies in a directory lies in every directory that this one lies in.
pub proof fn law_within_is_transitive(a: Seq<u8>, b: Seq<u8>, c: Seq<u8>)
    requires
        is_within(a, b),
        is_within(b, c),
    ensures
        is_within(a, c),
        is_within(a, a),
{
    let x = components_of(a);
    let y = components_of(b);
    let z = components_of(c);
    assert(x.take(x.len() as int) =~= x);
    if z.len() <= y.len() && y.len() <= x.len() {
        assert(x.take(y.len() as int).take(z.len() as int) =~= x.take(z.len() as int));
    }
}

/// Paths without a separator between them have the parts of both.
proof fn lemma_parts_joined(base: Seq<u8>, rest: Seq<u8>)
    ensures
        parts_of(base + seq![SEPARATOR] + rest) == parts_of(base) + parts_of(rest),
        parts_of(rest).len() > 0,
    decreases rest.len(),
{
    let all = base + seq![SEPARATOR] + rest;
    if rest.len() == 0 {
        assert(all.drop_last() =~= base);
        assert(all.last() == SEPARATOR);
        assert(parts_of(base) + parts_of(rest) =~= parts_of(base).push(Seq::empty()));
    } else {
        let less = rest.drop_last();
        lemma_parts_joined(base, less);
        assert(all.drop_last() =~= base + seq![SEPARATOR] + less);
        assert(all.last() == rest.last());
        let (a, b) = (parts_of(base), parts_of(less));
        if rest.last() == SEPARATOR {
            assert((a + b).push(Seq::empty()) =~= a + b.push(Seq::empty()));
        } else {
            assert((a + b).drop_last() =~= a + b.drop_last());
            assert((a + b).last() == b.last());
            assert((a + b).drop_last().push(b.last().push(rest.last())) =~= a
                + b.drop_last().push(b.last().push(rest.last())));
        }
    }
}

proof fn lemma_kept_both(a: Seq<Seq<u8>>, b: Seq<Seq<u8>>)
    ensures
        kept_parts(a + b) == kept_parts(a) + kept_parts(b),
    decreases b.len(),
{
    if b.len() == 0 {
        assert(a + b =~= a);
        assert(kept_parts(a) + kept_parts(b) =~= kept_parts(a));
    } else {
        lemma_kept_both(a, b.drop_last());
        assert((a + b).drop_last() =~= a + b.drop_last());
        assert((a + b).last() == b.last());
        assert(kept_parts(a + b) =~= kept_parts(a) + kept_parts(b));
    }
}

/// What is named below a directory lies in it, and its components are those of the
/// directory followed by its own; a name that starts at the root stands for itself.
pub proof fn law_joined_paths(base: Seq<u8>, rest: Seq<u8>)
    requires
        base.len() > 0,
        base.last() != SEPARATOR,
    ensures
        rest.len() == 0 || rest[0] != SEPARATOR ==> is_within(path_join(base, rest), base)
            && components_of(path_join(base, rest)) == components_of(base) + components_of(rest),
        rest.len() > 0 && rest[0] == SEPARATOR ==> path_join(base, rest) == rest,
{
    if rest.len() == 0 || rest[0] != SEPARATOR {
        let all = path_join(base, rest);
        lemma_parts_joined(base, rest);
        lemma_kept_both(parts_of(base), parts_of(rest));
        let (a, b) = (components_of(all), components_of(base));
        assert(a.take(b.len() as int) =~= b);
        assert(all[0] == base[0]);
        if base.len() == 1 {
            assert(all[1] == SEPARATOR);
        } else {
            assert(all[1] == base[1]);
        }
    }
}

/// Whether bytes are a name: one component, and neither the directory itself nor
/// empty.
pub open spec fn is_name(name: Seq<u8>) -> bool {
    &&& name.len() > 0
    &&& !name.contains(SEPARATOR)
    &&& name != here()
}

proof fn lemma_name(name: Seq<u8>)
    requires
        !name.contains(SEPARATOR),
    ensures
        parts_of(name) == seq![name],
    decreases name.len(),
{
    if name.len() > 0 {
        let less = name.drop_last();
        assert(name.contains(name[name.len() - 1]));
        assert(!less.contains(SEPARATOR)) by {
            if less.contains(SEPARATOR) {
                let k = choose|k: int| 0 <= k < less.len() && less[k] == SEPARATOR;
                assert(name[k] == SEPARATOR);
            }
        }
        lemma_name(less);
        assert(seq![less].drop_last() =~= Seq::<Seq<u8>>::empty());
        assert(less.push(name.last()) =~= name);
        assert(parts_of(name) =~= seq![name]);
    } else {
        assert(name =~= Seq::<u8>::empty());
    }
}

/// Two directories of different names below one directory do not lie in each other,
/// even where one name starts with the other.
pub proof fn law_siblings_are_apart(base: Seq<u8>, a: Seq<u8>, b: Seq<u8>)
    requires
        base.len() > 0,
        base.last() != SEPARATOR,
        is_name(a),
        is_name(b),
        a != b,
    ensures
        !is_within(path_join(base, a), path_join(base, b)),
{
    assert(a.contains(a[0]) && b.contains(b[0]));
    lemma_name(a);
    lemma_name(b);
    law_joined_paths(base, a);
    law_joined_paths(base, b);
    let n = components_of(base).len() as int;
    let (x, y) = (path_join(base, a), path_join(base, b));
    let none = Seq::<Seq<u8>>::empty();
    assert(seq![a].drop_last() =~= none && seq![b].drop_last() =~= none);
    reveal_with_fuel(kept_parts, 2);
    assert(seq![a].last() == a && seq![b].last() == b);
    assert(components_of(a) =~= seq![a]);
    assert(components_of(b) =~= seq![b]);
    assert(components_of(x)[n] == a && components_of(y)[n] == b);
    if is_within(x, y) {
        assert(components_of(x).take(n + 1)[n] == a);
    }
}

} // verus!
