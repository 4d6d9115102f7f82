//! Paths as text: their parts, the file name and its extension, and the path
//! of a file relative to a base directory. A path is split at `/`; empty parts
//! and `.` parts count for nothing.

use crate::text::{
    append, copy_range, join, joined, replace_char, replaced, same, split, split_on,
    strip_leading, to_chars, to_string, trim_leading, views,
};
use vstd::prelude::*;

verus! {

/// The part that stands for the directory itself.
pub open spec fn dot() -> Seq<char> {
    seq!['.']
}

/// The part that stands for the directory above.
pub open spec fn dot_dot() -> Seq<char> {
    seq!['.', '.']
}

/// The separator of the parts.
pub open spec fn slash() -> Seq<char> {
    seq!['/']
}

/// The test that holds of the pieces of a path that count as parts.
pub open spec fn is_part() -> spec_fn(Seq<char>) -> bool {
    |piece: Seq<char>| piece.len() > 0 && piece != dot()
}

/// The parts of a path, in order.
pub open spec fn parts(path: Seq<char>) -> Seq<Seq<char>> {
    split_on(path, '/').filter(is_part())
}

/// Whether the path starts at the root.
pub open spec fn is_absolute(path: Seq<char>) -> bool {
    path.len() > 0 && path[0] == '/'
}

/// The name of the file or directory that the path ends in; none where the
/// path has no part or ends in `..`.
pub open spec fn file_name(path: Seq<char>) -> Option<Seq<char>> {
    let all = parts(path);
    if all.len() == 0 || all.last() == dot_dot() {
        None
    } else {
        Some(all.last())
    }
}

/// The position of the last `c` in `s`, or -1 where it holds none.
pub open spec fn last_index(s: Seq<char>, c: char) -> int
    decreases s.len(),
{
    if s.len() == 0 {
        -1
    } else if s.last() == c {
        s.len() - 1
    } else {
        last_index(s.drop_last(), c)
    }
}

/// The extension of a name: what follows its last dot, unless the name has no
/// dot or only the one it begins with.
pub open spec fn extension_of_name(name: Seq<char>) -> Option<Seq<char>> {
    let k = last_index(name, '.');
    if k <= 0 {
        None
    } else {
        Some(name.skip(k + 1))
    }
}

/// The extension of the file that the path names, without the dot.
pub open spec fn extension(path: Seq<char>) -> Option<Seq<char>> {
    match file_name(path) {
        Some(name) => extension_of_name(name),
        None => None,
    }
}

/// Whether the path lies in the base directory or is the base directory: both
/// start at the root or neither does, and the parts of the base are the first
/// parts of the path.
pub open spec fn is_under(path: Seq<char>, base: Seq<char>) -> bool {
    &&& is_absolute(path) == is_absolute(base)
    &&& parts(base).len() <= parts(path).len()
    &&& parts(path).take(parts(base).len() as int) == parts(base)
}

/// The path without the base directory in front, where it lies in it; the path
/// as it stands where it does not. What is left of a path in the base
/// directory is made of its parts with one `/` between them: doubled slashes
/// and `.` parts do not reach the result.
pub open spec fn under_base(path: Seq<char>, base: Seq<char>) -> Seq<char> {
    if is_under(path, base) {
        joined(parts(path).skip(parts(base).len() as int), slash())
    } else {
        path
    }
}

/// The path that a header states: relative to the base directory, with `/` for
/// every `\`, and without `./` in front.
pub open spec fn relative_path(path: Seq<char>, base: Seq<char>) -> Seq<char> {
    strip_leading(replaced(under_base(path, base), '\\', '/'), "./"@)
}

/// Whether one of the named parts of the path is in the set. The parts `..`
/// name nothing.
pub open spec fn has_part_in(path: Seq<char>, names: Set<Seq<char>>) -> bool {
    exists|i: int|
        0 <= i < parts(path).len() && #[trigger] parts(path)[i] != dot_dot() && names.contains(
            parts(path)[i],
        )
}

/// Whether the piece is `.`.
fn is_dot(piece: &Vec<char>) -> (r: bool)
    ensures
        r == (piece@ == dot()),
{
    let r = piece.len() == 1 && piece[0] == '.';
    if r {
        assert(piece@ =~= dot());
    }
    r
}

/// Whether the part is `..`.
pub fn is_dot_dot(part: &Vec<char>) -> (r: bool)
    ensures
        r == (part@ == dot_dot()),
{
    let r = part.len() == 2 && part[0] == '.' && part[1] == '.';
    if r {
        assert(part@ =~= dot_dot());
    }
    r
}

/// The parts of a path, in order.
pub fn path_parts(path: &Vec<char>) -> (out: Vec<Vec<char>>)
    ensures
        views(out@) == parts(path@),
{
    let pieces = split(path, '/');
    let ghost all = views(pieces@);
    let mut out: Vec<Vec<char>> = Vec::new();
    let mut i: usize = 0;
    proof {
        reveal(Seq::filter);
        assert(all.take(0) =~= Seq::<Seq<char>>::empty());
        assert(views(out@) =~= all.take(0).filter(is_part()));
    }
    while i < pieces.len()
        invariant
            i <= pieces.len(),
            all == views(pieces@),
            views(out@) == all.take(i as int).filter(is_part()),
        decreases pieces.len() - i,
    {
        let ghost before = views(out@);
        proof {
            reveal(Seq::filter);
            assert(all.take(i + 1).drop_last() =~= all.take(i as int));
            assert(all.take(i + 1).last() == pieces[i as int]@);
        }
        if pieces[i].len() > 0 && !is_dot(&pieces[i]) {
            let part = copy_range(&pieces[i], 0, pieces[i].len());
            assert(part@ == pieces[i as int]@) by {
                assert(pieces[i as int]@.subrange(0, pieces[i as int]@.len() as int)
                    == pieces[i as int]@);
            }
            out.push(part);
            assert(views(out@) =~= before.push(part@));
        }
        i += 1;
    }
    assert(all.take(pieces.len() as int) == all);
    out
}

/// The extension of a name, without the dot.
pub fn name_extension(name: &Vec<char>) -> (r: Option<Vec<char>>)
    ensures
        r is Some == extension_of_name(name@) is Some,
        r matches Some(ext) ==> ext@ == extension_of_name(name@)->Some_0,
{
    let mut i: usize = name.len();
    assert(name@.take(i as int) == name@);
    while i > 0 && name[i - 1] != '.'
        invariant
            i <= name.len(),
            last_index(name@, '.') == last_index(name@.take(i as int), '.'),
        decreases i,
    {
        assert(name@.take(i as int).drop_last() == name@.take(i - 1));
        i -= 1;
    }
    if i <= 1 {
        None
    } else {
        assert(name@.subrange(i as int, name@.len() as int) == name@.skip(i as int));
        Some(copy_range(name, i, name.len()))
    }
}

/// The extension of the file that the path names, without the dot.
pub fn path_extension(path: &str) -> (r: Option<String>)
    ensures
        r is Some == extension(path@) is Some,
        r matches Some(ext) ==> ext@ == extension(path@)->Some_0,
{
    let all = path_parts(&to_chars(path));
    if all.len() == 0 {
        return None;
    }
    let name = &all[all.len() - 1];
    assert(name@ == parts(path@).last());
    if is_dot_dot(name) {
        return None;
    }
    match name_extension(name) {
        Some(ext) => Some(to_string(&ext)),
        None => None,
    }
}

/// The path that a header states for the file at `path`, given the base
/// directory.
pub fn relative_to(path: &str, base: &str) -> (r: String)
    ensures
        r@ == relative_path(path@, base@),
{
    let whole = to_chars(path);
    let root = to_chars(base);
    let file_parts = path_parts(&whole);
    let base_parts = path_parts(&root);
    let absolute = whole.len() > 0 && whole[0] == '/';
    let base_absolute = root.len() > 0 && root[0] == '/';
    let mut under = absolute == base_absolute && base_parts.len() <= file_parts.len();
    let mut i: usize = 0;
    while under && i < base_parts.len()
        invariant
            i <= base_parts.len(),
            under ==> base_parts.len() <= file_parts.len(),
            under ==> forall|j: int| 0 <= j < i ==> file_parts[j]@ == base_parts[j]@,
            !under ==> !is_under(whole@, root@),
            views(file_parts@) == parts(whole@),
            views(base_parts@) == parts(root@),
            under ==> is_absolute(whole@) == is_absolute(root@),
        decreases base_parts.len() - i, under as int,
    {
        if !same(&file_parts[i], &base_parts[i]) {
            assert(parts(whole@).take(parts(root@).len() as int)[i as int] == file_parts[i as int]@);
            assert(parts(root@)[i as int] == base_parts[i as int]@);
            under = false;
        } else {
            i += 1;
        }
    }
    let stripped = if under {
        assert(parts(whole@).take(parts(root@).len() as int) =~= parts(root@));
        let mut rest: Vec<Vec<char>> = Vec::new();
        let mut k: usize = base_parts.len();
        while k < file_parts.len()
            invariant
                base_parts.len() <= k <= file_parts.len(),
                views(rest@) == views(file_parts@).subrange(base_parts.len() as int, k as int),
            decreases file_parts.len() - k,
        {
            let ghost before = views(rest@);
            let part = copy_range(&file_parts[k], 0, file_parts[k].len());
            assert(part@ == file_parts[k as int]@) by {
                assert(file_parts[k as int]@.subrange(0, file_parts[k as int]@.len() as int)
                    == file_parts[k as int]@);
            }
            rest.push(part);
            assert(views(rest@) =~= before.push(part@));
            assert(before.push(part@) =~= views(file_parts@).subrange(
                base_parts.len() as int,
                k + 1,
            ));
            k += 1;
        }
        assert(views(file_parts@).subrange(base_parts.len() as int, file_parts.len() as int)
            == views(file_parts@).skip(base_parts.len() as int));
        let mut sep: Vec<char> = Vec::new();
        sep.push('/');
        assert(sep@ =~= slash());
        join(&rest, &sep)
    } else {
        whole
    };
    let forward = replace_char(&stripped, '\\', '/');
    let r = trim_leading(&forward, &to_chars("./"));
    to_string(&r)
}

/// The directory made of the first `k` parts of the path.
pub open spec fn ancestor(path: Seq<char>, k: int) -> Seq<char> {
    if is_absolute(path) {
        slash() + joined(parts(path).take(k), slash())
    } else {
        joined(parts(path).take(k), slash())
    }
}

/// The directory itself and the directories above it, the nearest first, up
/// to the root or, for a relative path, to the empty path.
pub open spec fn ancestors(path: Seq<char>) -> Seq<Seq<char>> {
    Seq::new(parts(path).len() + 1, |i: int| ancestor(path, parts(path).len() - i))
}

/// The position of the first `true`, or the length of `flags` where there is
/// none.
pub open spec fn first_true(flags: Seq<bool>) -> int
    decreases flags.len(),
{
    if flags.len() == 0 {
        0
    } else if flags[0] {
        0
    } else {
        1 + first_true(flags.drop_first())
    }
}

/// The nearest of the directories that is marked as holding a repository:
/// `has_git[i]` marks the directory at place `i` of `ancestors`.
pub open spec fn git_root(start_dir: Seq<char>, has_git: Seq<bool>) -> Option<Seq<char>> {
    let i = first_true(has_git);
    if i < has_git.len() && i < ancestors(start_dir).len() {
        Some(ancestors(start_dir)[i])
    } else {
        None
    }
}

/// The directory itself and the directories above it, the nearest first:
/// where to look for the root of a repository.
pub fn git_root_candidates(start_dir: &str) -> (out: Vec<String>)
    ensures
        out.len() == ancestors(start_dir@).len(),
        forall|i: int| 0 <= i < out.len() ==> (#[trigger] out[i])@ == ancestors(start_dir@)[i],
{
    let whole = to_chars(start_dir);
    let all = path_parts(&whole);
    let absolute = whole.len() > 0 && whole[0] == '/';
    let mut sep: Vec<char> = Vec::new();
    sep.push('/');
    assert(sep@ =~= slash());
    let mut out: Vec<String> = Vec::new();
    let mut k: usize = all.len();
    loop
        invariant_except_break
            out.len() == all.len() - k,
        invariant
            k <= all.len(),
            sep@ == slash(),
            absolute == is_absolute(whole@),
            views(all@) == parts(whole@),
            forall|j: int| 0 <= j < out.len() ==> (#[trigger] out[j])@ == ancestors(whole@)[j],
        ensures
            out.len() == all.len() + 1,
        decreases k,
    {
        let mut head: Vec<Vec<char>> = Vec::new();
        let mut j: usize = 0;
        while j < k
            invariant
                j <= k <= all.len(),
                views(head@) == views(all@).take(j as int),
            decreases k - j,
        {
            let ghost before = views(head@);
            let part = copy_range(&all[j], 0, all[j].len());
            assert(part@ == all[j as int]@) by {
                assert(all[j as int]@.subrange(0, all[j as int]@.len() as int) == all[j as int]@);
            }
            head.push(part);
            assert(views(head@) =~= before.push(part@));
            assert(before.push(part@) =~= views(all@).take(j + 1));
            j += 1;
        }
        let tail = join(&head, &sep);
        let mut dir: Vec<char> = Vec::new();
        if absolute {
            dir.push('/');
        }
        assert(dir@ =~= if absolute {
            slash()
        } else {
            Seq::<char>::empty()
        });
        append(&mut dir, &tail);
        assert(dir@ =~= ancestor(whole@, k as int));
        out.push(to_string(&dir));
        if k == 0 {
            break;
        }
        k -= 1;
    }
    out
}

/// The nearest of the candidates that holds a repository, where `has_git[i]`
/// says whether the candidate at place `i` of `git_root_candidates` does.
pub fn find_git_root(start_dir: &str, has_git: &Vec<bool>) -> (r: Option<String>)
    ensures
        r is Some == git_root(start_dir@, has_git@) is Some,
        r matches Some(root) ==> root@ == git_root(start_dir@, has_git@)->Some_0,
{
    let candidates = git_root_candidates(start_dir);
    let mut i: usize = 0;
    assert(has_git@.skip(0) == has_git@);
    while i < has_git.len() && i < candidates.len()
        invariant
            i <= has_git.len(),
            candidates.len() == ancestors(start_dir@).len(),
            forall|j: int|
                0 <= j < candidates.len() ==> (#[trigger] candidates[j])@ == ancestors(
                    start_dir@,
                )[j],
            first_true(has_git@) == i + first_true(has_git@.skip(i as int)),
        decreases has_git.len() - i,
    {
        if has_git[i] {
            assert(has_git@.skip(i as int)[0]);
            let root = to_string(&to_chars(candidates[i].as_str()));
            return Some(root);
        }
        assert(!has_git@.skip(i as int)[0]);
        assert(has_git@.skip(i as int).drop_first() == has_git@.skip(i + 1));
        i += 1;
    }
    proof {
        lemma_first_true(has_git@.skip(i as int));
    }
    None
}

/// The first `true` stands inside `flags` or at its end.
pub proof fn lemma_first_true(flags: Seq<bool>)
    ensures
        0 <= first_true(flags) <= flags.len(),
    decreases flags.len(),
{
    if flags.len() > 0 && !flags[0] {
        lemma_first_true(flags.drop_first());
    }
}

} // verus!
