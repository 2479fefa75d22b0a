//! Paths as texts: names separated by slashes.

use crate::text;
use vstd::prelude::*;

verus! {

/// Whether a path starts at the root.
pub open spec fn absolute(path: Seq<char>) -> bool {
    path.len() > 0 && path[0] == '/'
}

/// The names between the slashes of a path, without empty ones.
pub open spec fn pieces(path: Seq<char>) -> Seq<Seq<char>>
    decreases path.len(),
{
    if path.len() == 0 {
        Seq::empty()
    } else {
        let init = pieces(path.drop_last());
        if path.last() == '/' {
            init
        } else if path.len() == 1 || path[path.len() - 2] == '/' {
            init.push(seq![path.last()])
        } else {
            init.drop_last().push(init.last().push(path.last()))
        }
    }
}

/// The names without those that stand for the directory itself.
pub open spec fn without_dots(names: Seq<Seq<char>>) -> Seq<Seq<char>>
    decreases names.len(),
{
    if names.len() == 0 {
        Seq::empty()
    } else if names.last() == "."@ {
        without_dots(names.drop_last())
    } else {
        without_dots(names.drop_last()).push(names.last())
    }
}

/// The components of a path below its root: a `.` counts only where a relative
/// path starts with it.
pub open spec fn components(path: Seq<char>) -> Seq<Seq<char>> {
    let names = pieces(path);
    if !absolute(path) && names.len() > 0 && names[0] == "."@ {
        seq![names[0]] + without_dots(names.subrange(1, names.len() as int))
    } else {
        without_dots(names)
    }
}

/// Whether two paths have the same root and the same components.
pub open spec fn same_path(a: Seq<char>, b: Seq<char>) -> bool {
    absolute(a) == absolute(b) && components(a) == components(b)
}

/// Whether a path lies under a directory, or is the directory itself. Every
/// path lies under the empty one.
pub open spec fn is_within(path: Seq<char>, directory: Seq<char>) -> bool {
    let p = components(path);
    let d = components(directory);
    &&& absolute(path) == absolute(directory) || !absolute(directory) && d.len() == 0
    &&& d.len() <= p.len()
    &&& p.subrange(0, d.len() as int) == d
}

/// Whether a path lies directly in a directory.
pub open spec fn is_child(path: Seq<char>, directory: Seq<char>) -> bool {
    &&& absolute(path) == absolute(directory)
    &&& is_within(path, directory)
    &&& components(path).len() == components(directory).len() + 1
}

/// Whether a component goes up or stays where it is.
pub open spec fn is_special(name: Seq<char>) -> bool {
    name == ".."@ || name == "."@
}

/// The last component of a path, unless it goes up or stays.
pub open spec fn file_name(path: Seq<char>) -> Option<Seq<char>> {
    let names = components(path);
    if names.len() == 0 || is_special(names.last()) {
        None
    } else {
        Some(names.last())
    }
}

/// The position of the last dot of a name, or -1.
pub open spec fn last_dot(name: Seq<char>) -> int
    decreases name.len(),
{
    if name.len() == 0 {
        -1
    } else if name.last() == '.' {
        name.len() - 1
    } else {
        last_dot(name.drop_last())
    }
}

/// What follows the last dot of a name that does not start with it.
pub open spec fn extension_of(name: Seq<char>) -> Option<Seq<char>> {
    if last_dot(name) > 0 {
        Some(name.subrange(last_dot(name) + 1, name.len() as int))
    } else {
        None
    }
}

/// A name without its extension.
pub open spec fn stem_of(name: Seq<char>) -> Seq<char> {
    if last_dot(name) > 0 {
        name.subrange(0, last_dot(name))
    } else {
        name
    }
}

/// The extension of the file that a path names.
pub open spec fn extension(path: Seq<char>) -> Option<Seq<char>> {
    match file_name(path) {
        Some(name) => extension_of(name),
        None => None,
    }
}

/// The stem of the file that a path names.
pub open spec fn file_stem(path: Seq<char>) -> Option<Seq<char>> {
    match file_name(path) {
        Some(name) => Some(stem_of(name)),
        None => None,
    }
}

/// A path seen from a directory: an absolute one stays as it is.
pub open spec fn join(directory: Seq<char>, path: Seq<char>) -> Seq<char> {
    if absolute(path) {
        path
    } else if directory.len() == 0 || directory.last() == '/' {
        directory + path
    } else {
        directory + "/"@ + path
    }
}

pub fn is_absolute(path: &str) -> (r: bool)
    ensures
        r == absolute(path@),
{
    let chars = text::chars_of(path);
    chars.len() > 0 && chars[0] == '/'
}

/// The names between the slashes of a path.
pub fn split_path(path: &str) -> (r: Vec<String>)
    ensures
        text::texts(r@) == pieces(path@),
{
    let chars = text::chars_of(path);
    let mut done: Vec<String> = Vec::new();
    let mut cur = String::new();
    let mut open: bool = false;
    let mut i: usize = 0;
    assert(text::texts(done@) =~= Seq::<Seq<char>>::empty());
    while i < chars.len()
        invariant
            i <= chars.len(),
            open == (i > 0 && chars@[i - 1] != '/'),
            open ==> pieces(chars@.subrange(0, i as int)) == text::texts(done@).push(cur@),
            !open ==> pieces(chars@.subrange(0, i as int)) == text::texts(done@),
            !open ==> cur@.len() == 0,
        decreases chars.len() - i,
    {
        let c = chars[i];
        let ghost before = chars@.subrange(0, i as int);
        let ghost after = chars@.subrange(0, i + 1);
        let ghost old_done = done@;
        assert(after.drop_last() == before);
        assert(after.last() == c);
        if i > 0 {
            assert(after[after.len() - 2] == chars@[i - 1]);
        }
        if c == '/' {
            if open {
                done.push(cur);
                cur = String::new();
                open = false;
                assert(text::texts(done@) =~= text::texts(old_done).push(done@.last()@));
            }
        } else {
            let ghost old_cur = cur@;
            cur.push(c);
            if open {
                assert(text::texts(done@).push(old_cur).drop_last() == text::texts(done@));
            } else {
                assert(cur@ =~= seq![c]);
            }
            open = true;
        }
        i += 1;
    }
    assert(chars@.subrange(0, chars@.len() as int) == chars@);
    if open {
        let ghost old_done = done@;
        done.push(cur);
        assert(text::texts(done@) =~= text::texts(old_done).push(done@.last()@));
    }
    done
}

/// The components of a path below its root.
pub fn path_components(path: &str) -> (r: Vec<String>)
    ensures
        text::texts(r@) == components(path@),
{
    let names = split_path(path);
    let ghost all = text::texts(names@);
    let mut out: Vec<String> = Vec::new();
    let mut start: usize = 0;
    assert(names.len() > 0 ==> all[0] == names@[0]@);
    if !is_absolute(path) && names.len() > 0 && text::same_text(names[0].as_str(), ".") {
        out.push(names[0].clone());
        start = 1;
    }
    let ghost head = text::texts(out@);
    let ghost tail = all.subrange(start as int, all.len() as int);
    assert(head =~= all.subrange(0, start as int));
    let mut i: usize = start;
    assert(tail.subrange(0, 0) =~= Seq::<Seq<char>>::empty());
    assert(head + without_dots(tail.subrange(0, 0)) =~= head);
    while i < names.len()
        invariant
            start <= i <= names.len(),
            all == text::texts(names@),
            tail == all.subrange(start as int, all.len() as int),
            text::texts(out@) == head + without_dots(tail.subrange(0, i - start)),
        decreases names.len() - i,
    {
        let ghost part = tail.subrange(0, i - start + 1);
        let ghost old_out = text::texts(out@);
        assert(part.drop_last() =~= tail.subrange(0, i - start));
        assert(part.last() == names@[i as int]@);
        if !text::same_text(names[i].as_str(), ".") {
            out.push(names[i].clone());
            assert(text::texts(out@) =~= old_out.push(names@[i as int]@));
            assert(text::texts(out@) =~= head + without_dots(part));
        }
        i += 1;
    }
    assert(tail.subrange(0, tail.len() as int) =~= tail);
    if start == 0 {
        assert(tail =~= all);
        assert(head + without_dots(tail) =~= without_dots(all));
    }
    out
}

/// Whether two lists hold the same texts up to a length.
fn same_prefix(a: &Vec<String>, b: &Vec<String>, n: usize) -> (r: bool)
    requires
        n <= a.len(),
        n <= b.len(),
    ensures
        r == (text::texts(a@).subrange(0, n as int) == text::texts(b@).subrange(0, n as int)),
{
    let ghost x = text::texts(a@);
    let ghost y = text::texts(b@);
    let mut i: usize = 0;
    while i < n
        invariant
            i <= n <= a.len(),
            n <= b.len(),
            x == text::texts(a@),
            y == text::texts(b@),
            forall|j: int| 0 <= j < i ==> #[trigger] x[j] == y[j],
        decreases n - i,
    {
        if !text::same_text(a[i].as_str(), b[i].as_str()) {
            assert(x[i as int] != y[i as int]);
            assert(x.subrange(0, n as int)[i as int] != y.subrange(0, n as int)[i as int]);
            return false;
        }
        i += 1;
    }
    assert(x.subrange(0, n as int) =~= y.subrange(0, n as int));
    true
}

pub fn are_same_path(a: &str, b: &str) -> (r: bool)
    ensures
        r == same_path(a@, b@),
{
    let x = path_components(a);
    let y = path_components(b);
    let rooted = is_absolute(a) == is_absolute(b);
    assert(text::texts(x@).len() == x.len() && text::texts(y@).len() == y.len());
    if !rooted || x.len() != y.len() {
        return false;
    }
    let r = same_prefix(&x, &y, x.len());
    proof {
        let s = text::texts(x@);
        let t = text::texts(y@);
        assert(s.subrange(0, s.len() as int) =~= s);
        assert(t.subrange(0, t.len() as int) =~= t);
    }
    r
}

pub fn path_is_within(path: &str, directory: &str) -> (r: bool)
    ensures
        r == is_within(path@, directory@),
{
    let p = path_components(path);
    let d = path_components(directory);
    let rooted = is_absolute(path) == is_absolute(directory) || !is_absolute(directory) && d.len()
        == 0;
    assert(text::texts(p@).len() == p.len() && text::texts(d@).len() == d.len());
    if !rooted || d.len() > p.len() {
        return false;
    }
    let r = same_prefix(&p, &d, d.len());
    proof {
        let t = text::texts(d@);
        assert(t.subrange(0, t.len() as int) =~= t);
    }
    r
}

pub fn path_is_child(path: &str, directory: &str) -> (r: bool)
    ensures
        r == is_child(path@, directory@),
{
    if is_absolute(path) != is_absolute(directory) || !path_is_within(path, directory) {
        return false;
    }
    let p = path_components(path);
    let d = path_components(directory);
    assert(text::texts(p@).len() == p.len() && text::texts(d@).len() == d.len());
    p.len() > d.len() && p.len() - d.len() == 1
}

/// The last component of a path, unless it goes up or stays.
pub fn path_file_name(path: &str) -> (r: Option<String>)
    ensures
        text::text_opt(r) == file_name(path@),
{
    let names = path_components(path);
    let ghost all = text::texts(names@);
    if names.len() == 0 {
        return None;
    }
    let last = &names[names.len() - 1];
    assert(all.last() == last@);
    if text::same_text(last.as_str(), "..") || text::same_text(last.as_str(), ".") {
        return None;
    }
    Some(last.clone())
}

/// The position of the last dot after the first character, if there is one.
fn find_last_dot(chars: &Vec<char>) -> (r: Option<usize>)
    ensures
        match r {
            Some(i) => 0 < i < chars.len() && last_dot(chars@) == i,
            None => last_dot(chars@) <= 0,
        },
{
    let mut i: usize = chars.len();
    assert(chars@.subrange(0, i as int) =~= chars@);
    while i > 0
        invariant
            i <= chars.len(),
            last_dot(chars@) == last_dot(chars@.subrange(0, i as int)),
        decreases i,
    {
        let ghost part = chars@.subrange(0, i as int);
        assert(part.last() == chars@[i - 1]);
        if chars[i - 1] == '.' {
            if i - 1 > 0 {
                return Some(i - 1);
            }
            return None;
        }
        assert(part.drop_last() =~= chars@.subrange(0, i - 1));
        i -= 1;
    }
    None
}

/// The extension of the file that a path names.
pub fn path_extension(path: &str) -> (r: Option<String>)
    ensures
        text::text_opt(r) == extension(path@),
{
    match path_file_name(path) {
        None => None,
        Some(name) => {
            let chars = text::chars_of(name.as_str());
            match find_last_dot(&chars) {
                Some(at) => Some(text::string_from(&chars, at + 1, chars.len())),
                None => None,
            }
        },
    }
}

/// The stem of the file that a path names.
pub fn path_file_stem(path: &str) -> (r: Option<String>)
    ensures
        text::text_opt(r) == file_stem(path@),
{
    match path_file_name(path) {
        None => None,
        Some(name) => {
            let chars = text::chars_of(name.as_str());
            match find_last_dot(&chars) {
                Some(at) => Some(text::string_from(&chars, 0, at)),
                None => Some(name),
            }
        },
    }
}

/// A path seen from a directory.
pub fn join_path(directory: &str, path: &str) -> (r: String)
    ensures
        r@ == join(directory@, path@),
{
    if is_absolute(path) {
        return path.to_owned();
    }
    let chars = text::chars_of(directory);
    if chars.len() == 0 || chars[chars.len() - 1] == '/' {
        text::joined(directory, path)
    } else {
        text::concat3(directory, "/", path)
    }
}

/// A name after a slash is one more piece.
proof fn lemma_pieces_of_joined(directory: Seq<char>, name: Seq<char>)
    requires
        directory.len() == 0 || directory.last() == '/',
        name.len() > 0,
        !name.contains('/'),
    ensures
        pieces(directory + name) == pieces(directory).push(name),
    decreases name.len(),
{
    let path = directory + name;
    let c = name.last();
    assert(name.contains(c));
    assert(path.last() == c);
    let shorter = name.drop_last();
    assert(path.drop_last() =~= directory + shorter);
    if name.len() == 1 {
        assert(directory + shorter =~= directory);
        assert(name =~= seq![c]);
        if path.len() > 1 {
            assert(path[path.len() - 2] == directory.last());
        }
    } else {
        assert forall|x: char| shorter.contains(x) implies name.contains(x) by {
            let k = choose|k: int| 0 <= k < shorter.len() && shorter[k] == x;
            assert(name[k] == x);
        }
        lemma_pieces_of_joined(directory, shorter);
        assert(path[path.len() - 2] == name[name.len() - 2]);
        assert(name.contains(name[name.len() - 2]));
        let init = pieces(directory + shorter);
        assert(init.drop_last() =~= pieces(directory));
        assert(init.last() == shorter);
        assert(shorter.push(c) =~= name);
    }
}

/// A name in a directory is the last component of the joined path.
pub proof fn lemma_join_child(directory: Seq<char>, name: Seq<char>)
    requires
        name.len() > 0,
        !name.contains('/'),
        !is_special(name),
    ensures
        is_child(join(directory, name), directory),
        file_name(join(directory, name)) == Some(name),
{
    reveal_strlit("/");
    let path = join(directory, name);
    assert(name.contains(name[0]));
    let base = if directory.len() == 0 || directory.last() == '/' {
        directory
    } else {
        directory + "/"@
    };
    assert(path =~= base + name);
    assert(pieces(base) == pieces(directory)) by {
        if base != directory {
            assert(base.last() == '/');
            assert(base.drop_last() =~= directory);
        }
    }
    lemma_pieces_of_joined(base, name);
    let names = pieces(directory);
    let all = names.push(name);
    assert(pieces(path) == all);
    assert(absolute(path) == absolute(directory)) by {
        if directory.len() > 0 {
            assert(path[0] == directory[0]);
        } else {
            assert(path[0] == name[0]);
        }
    }
    assert(all.drop_last() =~= names);
    assert(without_dots(all) == without_dots(names).push(name));
    if names.len() > 0 {
        assert(all[0] == names[0]);
        let rest = names.subrange(1, names.len() as int);
        let rest_all = all.subrange(1, all.len() as int);
        assert(rest_all.drop_last() =~= rest);
        assert(rest_all.last() == name);
        assert(without_dots(rest_all) == without_dots(rest).push(name));
        assert(seq![names[0]] + without_dots(rest).push(name) =~= (seq![names[0]]
            + without_dots(rest)).push(name));
    }
    let d = components(directory);
    assert(components(path) =~= d.push(name));
    assert(components(path).subrange(0, d.len() as int) =~= d);
}

/// The last dot is the one after which there is none.
pub proof fn lemma_last_dot(name: Seq<char>, at: int)
    requires
        0 <= at < name.len(),
        name[at] == '.',
        forall|i: int| at < i < name.len() ==> (#[trigger] name[i]) != '.',
    ensures
        last_dot(name) == at,
    decreases name.len(),
{
    if at < name.len() - 1 {
        assert(name[name.len() - 1] != '.');
        lemma_last_dot(name.drop_last(), at);
    }
}

// ---------------------------------------------------------------------------
// Order.

/// Where a component stands among those of other kinds.
pub open spec fn name_rank(name: Seq<char>) -> int {
    if name == "."@ {
        0
    } else if name == ".."@ {
        1
    } else {
        2
    }
}

/// The order of components: those that stay or go up before names, names as
/// texts.
pub open spec fn name_at_most(a: Seq<char>, b: Seq<char>) -> bool {
    if name_rank(a) == name_rank(b) {
        text::text_at_most(a, b)
    } else {
        name_rank(a) < name_rank(b)
    }
}

/// The order of lists of components: by the first that differs.
pub open spec fn names_at_most(a: Seq<Seq<char>>, b: Seq<Seq<char>>) -> bool
    decreases a.len(),
{
    if a.len() == 0 {
        true
    } else if b.len() == 0 {
        false
    } else if a[0] != b[0] {
        name_at_most(a[0], b[0])
    } else {
        names_at_most(a.subrange(1, a.len() as int), b.subrange(1, b.len() as int))
    }
}

/// The order of paths: the empty path, those that start at the root, the others;
/// of two that start alike, by their components.
pub open spec fn path_at_most(a: Seq<char>, b: Seq<char>) -> bool {
    if absolute(a) == absolute(b) {
        names_at_most(components(a), components(b))
    } else if absolute(a) {
        components(b).len() > 0
    } else {
        components(a).len() == 0
    }
}

proof fn lemma_name_order(a: Seq<char>, b: Seq<char>, c: Seq<char>)
    ensures
        name_at_most(a, b) || name_at_most(b, a),
        name_at_most(a, b) && name_at_most(b, a) ==> a == b,
        name_at_most(a, b) && name_at_most(b, c) ==> name_at_most(a, c),
{
    text::lemma_text_total(a, b);
    if name_at_most(a, b) && name_at_most(b, a) {
        text::lemma_text_antisymmetric(a, b);
    }
    if name_at_most(a, b) && name_at_most(b, c) && name_rank(a) == name_rank(b) && name_rank(b)
        == name_rank(c) {
        text::lemma_text_transitive(a, b, c);
    }
}

proof fn lemma_names_total(a: Seq<Seq<char>>, b: Seq<Seq<char>>)
    ensures
        names_at_most(a, b) || names_at_most(b, a),
    decreases a.len(),
{
    if a.len() > 0 && b.len() > 0 {
        if a[0] == b[0] {
            lemma_names_total(a.subrange(1, a.len() as int), b.subrange(1, b.len() as int));
        } else {
            lemma_name_order(a[0], b[0], b[0]);
        }
    }
}

proof fn lemma_names_transitive(a: Seq<Seq<char>>, b: Seq<Seq<char>>, c: Seq<Seq<char>>)
    requires
        names_at_most(a, b),
        names_at_most(b, c),
    ensures
        names_at_most(a, c),
    decreases a.len(),
{
    if a.len() > 0 && b.len() > 0 && c.len() > 0 {
        if a[0] == b[0] && b[0] == c[0] {
            lemma_names_transitive(
                a.subrange(1, a.len() as int),
                b.subrange(1, b.len() as int),
                c.subrange(1, c.len() as int),
            );
        } else {
            lemma_name_order(a[0], b[0], c[0]);
            lemma_name_order(c[0], b[0], a[0]);
        }
    }
}

/// Of two paths one may stand before the other.
pub proof fn lemma_path_total(a: Seq<char>, b: Seq<char>)
    ensures
        path_at_most(a, b) || path_at_most(b, a),
{
    lemma_names_total(components(a), components(b));
}

pub proof fn lemma_path_transitive(a: Seq<char>, b: Seq<char>, c: Seq<char>)
    requires
        path_at_most(a, b),
        path_at_most(b, c),
    ensures
        path_at_most(a, c),
{
    let (x, y, z) = (components(a), components(b), components(c));
    if absolute(a) == absolute(b) && absolute(b) == absolute(c) {
        lemma_names_transitive(x, y, z);
    }
}

fn rank_of(name: &str) -> (r: u8)
    ensures
        r == name_rank(name@),
{
    if text::same_text(name, ".") {
        0
    } else if text::same_text(name, "..") {
        1
    } else {
        2
    }
}

fn is_name_at_most(a: &str, b: &str) -> (r: bool)
    ensures
        r == name_at_most(a@, b@),
{
    let x: u8 = rank_of(a);
    let y: u8 = rank_of(b);
    if x == y {
        text::is_text_at_most(a, b)
    } else {
        x < y
    }
}

pub fn is_path_at_most(a: &str, b: &str) -> (r: bool)
    ensures
        r == path_at_most(a@, b@),
{
    let x = path_components(a);
    let y = path_components(b);
    let ghost s = text::texts(x@);
    let ghost t = text::texts(y@);
    assert(s.len() == x.len() && t.len() == y.len());
    if is_absolute(a) != is_absolute(b) {
        return if is_absolute(a) {
            y.len() > 0
        } else {
            x.len() == 0
        };
    }
    let mut i: usize = 0;
    assert(s.subrange(0, s.len() as int) =~= s);
    assert(t.subrange(0, t.len() as int) =~= t);
    while i < x.len() && i < y.len()
        invariant
            i <= x.len(),
            i <= y.len(),
            s == text::texts(x@),
            t == text::texts(y@),
            s.len() == x.len(),
            t.len() == y.len(),
            absolute(a@) == absolute(b@),
            path_at_most(a@, b@) == names_at_most(
                s.subrange(i as int, s.len() as int),
                t.subrange(i as int, t.len() as int),
            ),
        decreases x.len() - i,
    {
        let ghost u = s.subrange(i as int, s.len() as int);
        let ghost v = t.subrange(i as int, t.len() as int);
        assert(u[0] == x@[i as int]@);
        assert(v[0] == y@[i as int]@);
        if !text::same_text(x[i].as_str(), y[i].as_str()) {
            return is_name_at_most(x[i].as_str(), y[i].as_str());
        }
        assert(u.subrange(1, u.len() as int) =~= s.subrange(i + 1, s.len() as int));
        assert(v.subrange(1, v.len() as int) =~= t.subrange(i + 1, t.len() as int));
        i += 1;
    }
    i == x.len()
}

// ---------------------------------------------------------------------------
// Laws.

proof fn lemma_last_piece(s: Seq<char>)
    ensures
        s.len() > 0 && s.last() != '/' ==> pieces(s).len() > 0,
    decreases s.len(),
{
    if s.len() > 0 {
        lemma_last_piece(s.drop_last());
    }
}

/// The names on both sides of a slash are those of the whole path.
pub proof fn law_slashes_part_names(a: Seq<char>, b: Seq<char>)
    ensures
        pieces(a.push('/') + b) == pieces(a) + pieces(b),
    decreases b.len(),
{
    let s = a.push('/') + b;
    if b.len() == 0 {
        assert(s =~= a.push('/'));
        assert(s.drop_last() =~= a);
        assert(pieces(a) + pieces(b) =~= pieces(a));
    } else {
        let init = b.drop_last();
        law_slashes_part_names(a, init);
        assert(s.drop_last() =~= a.push('/') + init);
        assert(s.last() == b.last());
        if b.len() == 1 {
            assert(s[s.len() - 2] == '/');
            assert(pieces(init) =~= Seq::<Seq<char>>::empty());
        } else {
            assert(s[s.len() - 2] == b[b.len() - 2]);
            assert(init.last() == b[b.len() - 2]);
            lemma_last_piece(init);
        }
        assert(pieces(s) =~= pieces(a) + pieces(b));
    }
}

/// A text without a slash is a name.
pub proof fn law_text_without_slashes_is_a_name(s: Seq<char>)
    requires
        s.len() > 0,
        forall|i: int| 0 <= i < s.len() ==> #[trigger] s[i] != '/',
    ensures
        pieces(s) == seq![s],
    decreases s.len(),
{
    let init = s.drop_last();
    assert(s[s.len() - 1] != '/');
    if s.len() == 1 {
        assert(pieces(init) =~= Seq::<Seq<char>>::empty());
        assert(seq![s.last()] =~= s);
        assert(pieces(s) =~= seq![s]);
    } else {
        assert forall|i: int| 0 <= i < init.len() implies #[trigger] init[i] != '/' by {
            assert(init[i] == s[i]);
        }
        law_text_without_slashes_is_a_name(init);
        assert(s[s.len() - 2] != '/');
        assert(init.push(s.last()) =~= s);
        assert(pieces(s) =~= seq![s]);
    }
}

/// Names that stand for the directory itself are left out, all others stay.
pub proof fn law_dots_are_left_out(names: Seq<Seq<char>>, name: Seq<char>)
    ensures
        without_dots(names).contains(name) <==> names.contains(name) && name != "."@,
        without_dots(names.push(name)) == (if name == "."@ {
            without_dots(names)
        } else {
            without_dots(names).push(name)
        }),
    decreases names.len(),
{
    assert(names.push(name).drop_last() =~= names);
    if names.len() > 0 {
        let init = names.drop_last();
        let kept = without_dots(init);
        let out = without_dots(names);
        law_dots_are_left_out(init, name);
        if names.contains(name) {
            let k = choose|k: int| 0 <= k < names.len() && names[k] == name;
            if k < init.len() {
                assert(init[k] == name);
            }
        }
        if init.contains(name) {
            let k = choose|k: int| 0 <= k < init.len() && init[k] == name;
            assert(names[k] == name);
        }
        if kept.contains(name) {
            let k = choose|k: int| 0 <= k < kept.len() && kept[k] == name;
            assert(out[k] == name);
        }
        if out.contains(name) {
            let k = choose|k: int| 0 <= k < out.len() && out[k] == name;
            if k < kept.len() {
                assert(kept[k] == name);
            } else {
                assert(names[names.len() - 1] == name);
            }
        }
        if names.last() != "."@ {
            assert(out[kept.len() as int] == names.last());
        }
    }
}

/// A relative path below a directory has the names of the directory and then its
/// own; an absolute one is not moved.
pub proof fn law_joined_paths(directory: Seq<char>, path: Seq<char>)
    ensures
        absolute(path) ==> join(directory, path) == path,
        !absolute(path) ==> pieces(join(directory, path)) == pieces(directory) + pieces(path),
        !absolute(path) && directory.len() > 0 ==> absolute(join(directory, path)) == absolute(
            directory,
        ),
{
    if !absolute(path) {
        if directory.len() == 0 {
            assert(join(directory, path) =~= path);
            assert(pieces(directory) + pieces(path) =~= pieces(path));
        } else if directory.last() == '/' {
            let front = directory.drop_last();
            assert(front.push('/') =~= directory);
            law_slashes_part_names(front, path);
        } else {
            reveal_strlit("/");
            assert(directory + "/"@ + path =~= directory.push('/') + path);
            law_slashes_part_names(directory, path);
        }
    }
}

proof fn lemma_dots_split(a: Seq<Seq<char>>, b: Seq<Seq<char>>)
    ensures
        without_dots(a + b) == without_dots(a) + without_dots(b),
    decreases b.len(),
{
    if b.len() == 0 {
        assert(a + b =~= a);
        assert(without_dots(a) + without_dots(b) =~= without_dots(a));
    } else {
        assert((a + b).drop_last() =~= a + b.drop_last());
        lemma_dots_split(a, b.drop_last());
        assert(without_dots(a + b) =~= without_dots(a) + without_dots(b));
    }
}

/// What is joined to an absolute directory lies within it.
pub proof fn law_joined_path_lies_within(directory: Seq<char>, path: Seq<char>)
    requires
        absolute(directory),
        !absolute(path),
    ensures
        is_within(join(directory, path), directory),
        components(join(directory, path)) == components(directory) + without_dots(pieces(path)),
{
    law_joined_paths(directory, path);
    lemma_dots_split(pieces(directory), pieces(path));
    assert(components(join(directory, path)).subrange(0, components(directory).len() as int)
        =~= components(directory));
}

/// A path lies within another where it begins with all its components, and
/// nowhere else.
pub proof fn law_paths_within(path: Seq<char>, directory: Seq<char>, other: Seq<char>, i: int)
    ensures
        is_within(path, path),
        is_within(path, directory) && is_within(directory, other) ==> is_within(path, other),
        is_within(path, directory) && 0 <= i < components(directory).len() ==> i < components(
            path,
        ).len() && components(path)[i] == components(directory)[i],
        absolute(path) == absolute(directory) && components(directory).len() <= components(
            path,
        ).len() && (forall|k: int|
            0 <= k < components(directory).len() ==> components(path)[k]
                == #[trigger] components(directory)[k]) ==> is_within(path, directory),
        absolute(directory) && !absolute(path) ==> !is_within(path, directory),
        is_child(path, directory) <==> absolute(path) == absolute(directory) && is_within(
            path,
            directory,
        ) && components(path).len() == components(directory).len() + 1,
{
    let p = components(path);
    let d = components(directory);
    let o = components(other);
    assert(p.subrange(0, p.len() as int) =~= p);
    if is_within(path, directory) && 0 <= i < d.len() {
        assert(p.subrange(0, d.len() as int)[i] == d[i]);
    }
    if is_within(path, directory) && is_within(directory, other) {
        assert(p.subrange(0, o.len() as int) =~= p.subrange(0, d.len() as int).subrange(
            0,
            o.len() as int,
        ));
    }
    if absolute(path) == absolute(directory) && d.len() <= p.len() && (forall|k: int|
        0 <= k < d.len() ==> p[k] == #[trigger] d[k]) {
        assert(p.subrange(0, d.len() as int) =~= d);
    }
}

/// The file of a path is its last component, unless that goes up or stays.
pub proof fn law_file_names(path: Seq<char>)
    ensures
        file_name(path) is Some <==> components(path).len() > 0 && components(path).last() != "."@
            && components(path).last() != ".."@,
        file_name(path) is Some ==> file_name(path)->0 == components(path).last(),
        extension(path) is Some ==> file_name(path) is Some && file_stem(path) is Some,
        file_name(path) is Some ==> file_stem(path) == Some(stem_of(file_name(path)->0))
            && extension(path) == extension_of(file_name(path)->0),
{
}

proof fn lemma_dots(name: Seq<char>)
    ensures
        -1 <= last_dot(name) < name.len(),
        last_dot(name) >= 0 ==> name[last_dot(name)] == '.',
        forall|i: int| last_dot(name) < i < name.len() ==> #[trigger] name[i] != '.',
    decreases name.len(),
{
    if name.len() > 0 && name.last() != '.' {
        lemma_dots(name.drop_last());
        assert forall|i: int| last_dot(name) < i < name.len() implies #[trigger] name[i]
            != '.' by {
            if i < name.len() - 1 {
                assert(name.drop_last()[i] != '.');
            }
        }
    }
}

/// A name is its stem, a dot and its extension, which has no dot; it has none
/// where it has no dot but at its start.
pub proof fn law_extensions(name: Seq<char>)
    ensures
        extension_of(name) is Some ==> name == stem_of(name) + seq!['.'] + extension_of(name)->0
            && stem_of(name).len() > 0 && forall|i: int|
            0 <= i < extension_of(name)->0.len() ==> #[trigger] extension_of(name)->0[i] != '.',
        extension_of(name) is None ==> stem_of(name) == name,
        extension_of(name) is None <==> forall|i: int|
            0 < i < name.len() ==> #[trigger] name[i] != '.',
{
    lemma_dots(name);
    let at = last_dot(name);
    if at > 0 {
        assert(name =~= name.subrange(0, at) + seq!['.'] + name.subrange(
            at + 1,
            name.len() as int,
        ));
        assert(name[at] == '.');
        assert forall|i: int| 0 <= i < extension_of(name)->0.len() implies #[trigger] extension_of(
            name,
        )->0[i] != '.' by {
            assert(name[at + 1 + i] != '.');
        }
    }
}

/// Paths come in the order of their components; what stays or goes up comes
/// before names, and a directory before what lies in it.
pub proof fn law_path_order(a: Seq<char>, b: Seq<char>)
    ensures
        absolute(a) == absolute(b) && components(a).is_prefix_of(components(b)) ==> path_at_most(
            a,
            b,
        ),
        absolute(a) == absolute(b) && components(a).len() > 0 && components(b).len() > 0
            && components(a)[0] != components(b)[0] ==> (path_at_most(a, b) <==> name_at_most(
            components(a)[0],
            components(b)[0],
        )),
        absolute(a) && !absolute(b) && components(b).len() > 0 ==> path_at_most(a, b)
            && !path_at_most(b, a),
        a == "."@ && b == ".."@ ==> name_at_most(a, b) && !name_at_most(b, a),
        a == ".."@ && b != "."@ && b != ".."@ ==> name_at_most(a, b) && !name_at_most(b, a),
        a != "."@ && a != ".."@ && b != "."@ && b != ".."@ ==> (name_at_most(a, b)
            <==> text::text_at_most(a, b)),
{
    if absolute(a) == absolute(b) && components(a).is_prefix_of(components(b)) {
        lemma_prefix_first(components(a), components(b));
    }
    reveal_strlit(".");
    reveal_strlit("..");
    assert("."@.len() == 1 && ".."@.len() == 2);
}

proof fn lemma_prefix_first(a: Seq<Seq<char>>, b: Seq<Seq<char>>)
    requires
        a.is_prefix_of(b),
    ensures
        names_at_most(a, b),
    decreases a.len(),
{
    if a.len() > 0 {
        let x = a.subrange(1, a.len() as int);
        let y = b.subrange(1, b.len() as int);
        assert(a[0] == b[0]);
        assert(x =~= y.subrange(0, x.len() as int));
        lemma_prefix_first(x, y);
    }
}

} // verus!
