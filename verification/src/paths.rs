//! Paths as text, with the slash as separator.

use vstd::prelude::*;
use vstd::string::*;

use crate::text::{
    chars_of, lemma_split_append, same, split, split_text, string_between, texts,
};

verus! {

/// A path with another joined to it: an absolute path takes its place; else the two have one
/// separator between them, and an empty first path none.
pub open spec fn joined(base: Seq<char>, rest: Seq<char>) -> Seq<char> {
    if rest.len() > 0 && rest[0] == '/' {
        rest
    } else if base.len() == 0 || base.last() == '/' {
        base + rest
    } else {
        base + seq!['/'] + rest
    }
}

/// `base` with `rest` joined to it.
pub fn join_path(base: &str, rest: &str) -> (r: String)
    ensures
        r@ == joined(base@, rest@),
{
    let b = chars_of(base);
    let t = chars_of(rest);
    if t.len() > 0 && t[0] == '/' {
        return rest.to_owned();
    }
    let mut r = base.to_owned();
    if b.len() > 0 && b[b.len() - 1] != '/' {
        r.push('/');
        r.append(rest);
        assert(r@ =~= base@ + seq!['/'] + rest@);
    } else {
        r.append(rest);
    }
    r
}

/// A piece of a path that names something: not empty and not the current directory.
pub open spec fn is_named(piece: Seq<char>) -> bool {
    piece.len() > 0 && piece != "."@
}

/// The named pieces of a path, in order.
pub open spec fn pieces(path: Seq<char>) -> Seq<Seq<char>> {
    named_of(split(path, '/'))
}

/// The named pieces of a list.
pub open spec fn named_of(list: Seq<Seq<char>>) -> Seq<Seq<char>>
    decreases list.len(),
{
    if list.len() == 0 {
        list
    } else {
        let before = named_of(list.drop_last());
        if is_named(list.last()) {
            before.push(list.last())
        } else {
            before
        }
    }
}

/// The named pieces of `path`, in order.
pub fn path_pieces(path: &str) -> (r: Vec<String>)
    ensures
        texts(r@) == pieces(path@),
{
    let parts = split_text(path, '/');
    let mut r: Vec<String> = Vec::new();
    let mut i: usize = 0;
    assert(texts(parts@).take(0) =~= Seq::empty());
    assert(texts(r@) =~= Seq::empty());
    while i < parts.len()
        invariant
            i <= parts.len(),
            texts(r@) == named_of(texts(parts@).take(i as int)),
        decreases parts.len() - i,
    {
        let ghost now = texts(parts@).take(i + 1);
        let ghost was = texts(r@);
        assert(now.drop_last() =~= texts(parts@).take(i as int));
        assert(now.last() == parts@[i as int]@);
        if !parts[i].as_str().is_empty() && !same(parts[i].as_str(), ".") {
            r.push(parts[i].clone());
            assert(texts(r@) =~= was.push(parts@[i as int]@));
        }
        i = i + 1;
    }
    assert(texts(parts@).take(parts@.len() as int) =~= texts(parts@));
    r
}

/// The last named piece of a path; none where there is none or it goes up.
pub open spec fn file_name(path: Seq<char>) -> Option<Seq<char>> {
    let all = pieces(path);
    if all.len() == 0 || all.last() == ".."@ {
        None
    } else {
        Some(all.last())
    }
}

/// The last named piece of `path`.
pub fn file_name_of(path: &str) -> (r: Option<String>)
    ensures
        match r {
            Some(name) => file_name(path@) == Some(name@),
            None => file_name(path@) is None,
        },
{
    let all = path_pieces(path);
    if all.len() == 0 {
        return None;
    }
    let last = &all[all.len() - 1];
    assert(texts(all@).last() == last@);
    if same(last.as_str(), "..") {
        None
    } else {
        Some(last.clone())
    }
}

/// Where the last dot of a name stands; none where it has none behind its first character.
pub open spec fn dot_place(name: Seq<char>) -> Option<int>
    decreases name.len(),
{
    if name.len() <= 1 {
        None
    } else if name.last() == '.' {
        Some(name.len() - 1)
    } else {
        dot_place(name.drop_last())
    }
}

/// A file name without its extension. A dot at the start of the name begins no extension.
pub open spec fn stem(name: Seq<char>) -> Seq<char> {
    match dot_place(name) {
        Some(at) => name.take(at),
        None => name,
    }
}

/// The extension of a file name: what stands behind its last dot.
pub open spec fn extension(name: Seq<char>) -> Option<Seq<char>> {
    match dot_place(name) {
        Some(at) => Some(name.skip(at + 1)),
        None => None,
    }
}

fn find_dot(name: &Vec<char>) -> (r: Option<usize>)
    ensures
        match r {
            Some(at) => dot_place(name@) == Some(at as int) && 0 < at < name@.len(),
            None => dot_place(name@) is None,
        },
{
    let mut i: usize = name.len();
    assert(name@.take(i as int) =~= name@);
    while i > 1
        invariant
            i <= name.len(),
            dot_place(name@) == dot_place(name@.take(i as int)),
        decreases i,
    {
        assert(name@.take(i as int).drop_last() =~= name@.take(i - 1));
        if name[i - 1] == '.' {
            return Some(i - 1);
        }
        i = i - 1;
    }
    None
}

/// The file name `name` without its extension.
pub fn stem_of(name: &str) -> (r: String)
    ensures
        r@ == stem(name@),
{
    let v = chars_of(name);
    match find_dot(&v) {
        Some(at) => {
            let r = string_between(&v, 0, at);
            assert(r@ =~= name@.take(at as int));
            r
        },
        None => name.to_owned(),
    }
}

/// The extension of the file name `name`.
pub fn extension_of(name: &str) -> (r: Option<String>)
    ensures
        match r {
            Some(text) => extension(name@) == Some(text@),
            None => extension(name@) is None,
        },
{
    let v = chars_of(name);
    match find_dot(&v) {
        Some(at) => {
            let r = string_between(&v, at + 1, v.len());
            assert(r@ =~= name@.skip(at + 1));
            Some(r)
        },
        None => None,
    }
}

/// A path without the separators and current-directory pieces it ends with; the root keeps its
/// separator.
pub open spec fn without_end_slashes(path: Seq<char>) -> Seq<char>
    decreases path.len(),
{
    if path.len() > 1 && (path.last() == '/' || (path.last() == '.' && path[path.len() - 2]
        == '/')) {
        without_end_slashes(path.drop_last())
    } else {
        path
    }
}

/// Where the last separator of a path stands.
pub open spec fn last_slash(path: Seq<char>) -> Option<int>
    decreases path.len(),
{
    if path.len() == 0 {
        None
    } else if path.last() == '/' {
        Some(path.len() - 1)
    } else {
        last_slash(path.drop_last())
    }
}

/// The path of the directory a path stands in: none for the root and for the empty path.
pub open spec fn parent(path: Seq<char>) -> Option<Seq<char>> {
    let bare = without_end_slashes(path);
    if bare.len() == 0 || bare == seq!['/'] {
        None
    } else {
        match last_slash(bare) {
            Some(at) => Some(without_end_slashes(bare.take(at + 1))),
            None => Some(Seq::empty()),
        }
    }
}

fn trim_end_slashes(v: &Vec<char>, from: usize) -> (to: usize)
    requires
        from <= v.len(),
    ensures
        to <= from,
        v@.take(to as int) == without_end_slashes(v@.take(from as int)),
{
    let mut to: usize = from;
    while to > 1 && (v[to - 1] == '/' || (v[to - 1] == '.' && v[to - 2] == '/'))
        invariant
            to <= from <= v.len(),
            without_end_slashes(v@.take(from as int)) == without_end_slashes(v@.take(to as int)),
        decreases to,
    {
        assert(v@.take(to as int).drop_last() =~= v@.take(to - 1));
        to = to - 1;
    }
    to
}

/// The path of the directory that `path` stands in.
pub fn parent_of(path: &str) -> (r: Option<String>)
    ensures
        match r {
            Some(text) => parent(path@) == Some(text@),
            None => parent(path@) is None,
        },
{
    let v = chars_of(path);
    assert(v@.take(v@.len() as int) =~= v@);
    let to = trim_end_slashes(&v, v.len());
    let ghost bare = v@.take(to as int);
    if to == 0 {
        return None;
    }
    if to == 1 && v[0] == '/' {
        assert(bare =~= seq!['/']);
        return None;
    }
    assert(bare != seq!['/']) by {
        if bare == seq!['/'] {
            assert(bare.len() == 1);
            assert(bare[0] == '/');
        }
    }
    let mut at: usize = to;
    while at > 0 && v[at - 1] != '/'
        invariant
            at <= to <= v.len(),
            bare == v@.take(to as int),
            last_slash(bare) == last_slash(v@.take(at as int)),
        decreases at,
    {
        assert(v@.take(at as int).drop_last() =~= v@.take(at - 1));
        at = at - 1;
    }
    if at == 0 {
        assert(last_slash(bare) is None);
        return Some(String::new());
    }
    assert(v@.take(at as int).last() == '/');
    assert(bare.take(at as int) =~= v@.take(at as int));
    let end = trim_end_slashes(&v, at);
    let r = string_between(&v, 0, end);
    assert(r@ =~= v@.take(end as int));
    Some(r)
}

/// Whether a path is absolute.
pub open spec fn is_absolute(path: Seq<char>) -> bool {
    path.len() > 0 && path[0] == '/'
}

/// Whether a path begins with the current directory.
pub open spec fn begins_here(path: Seq<char>) -> bool {
    path.len() > 0 && path[0] == '.' && (path.len() == 1 || path[1] == '/')
}

/// Whether two texts are the same path: separators in a row, one at the end, and current-directory
/// pieces behind the first make no difference.
pub open spec fn same_path(a: Seq<char>, b: Seq<char>) -> bool {
    &&& is_absolute(a) == is_absolute(b)
    &&& begins_here(a) == begins_here(b)
    &&& pieces(a) == pieces(b)
}

/// Whether two texts are the same path.
pub fn are_same_path(a: &str, b: &str) -> (r: bool)
    ensures
        r == same_path(a@, b@),
{
    let x = chars_of(a);
    let y = chars_of(b);
    let x_absolute = x.len() > 0 && x[0] == '/';
    let y_absolute = y.len() > 0 && y[0] == '/';
    let x_here = x.len() > 0 && x[0] == '.' && (x.len() == 1 || x[1] == '/');
    let y_here = y.len() > 0 && y[0] == '.' && (y.len() == 1 || y[1] == '/');
    if x_absolute != y_absolute || x_here != y_here {
        return false;
    }
    let p = path_pieces(a);
    let q = path_pieces(b);
    assert(texts(p@).len() == p@.len());
    assert(texts(q@).len() == q@.len());
    if p.len() != q.len() {
        return false;
    }
    let mut i: usize = 0;
    while i < p.len()
        invariant
            i <= p.len(),
            p@.len() == q@.len(),
            texts(p@) == pieces(a@),
            texts(q@) == pieces(b@),
            forall|j: int| 0 <= j < i ==> texts(p@)[j] == texts(q@)[j],
        decreases p.len() - i,
    {
        if !same(p[i].as_str(), q[i].as_str()) {
            assert(texts(p@)[i as int] != texts(q@)[i as int]);
            return false;
        }
        i = i + 1;
    }
    assert(texts(p@) =~= texts(q@));
    true
}

/// Whether a text is the name of a single file: not empty, without a separator, and neither of the
/// two names that stand for a directory.
pub open spec fn is_plain_name(name: Seq<char>) -> bool {
    name.len() > 0 && !name.contains('/') && name != "."@ && name != ".."@
}

proof fn lemma_joined_pieces(base: Seq<char>, name: Seq<char>)
    requires
        is_plain_name(name),
    ensures
        pieces(joined(base, name)) == pieces(base).push(name),
{
    assert(name.contains(name[0]));
    let whole = joined(base, name);
    if base.len() == 0 {
        assert(base + name =~= Seq::<char>::empty() + name);
        lemma_split_append(Seq::empty(), name, '/');
        assert(Seq::<char>::empty() + name =~= name);
        assert(split(base, '/') =~= seq![Seq::<char>::empty()]);
        assert(split(whole, '/') =~= seq![name]);
        reveal_with_fuel(named_of, 2);
        assert(seq![name].drop_last() =~= Seq::empty());
        assert(seq![Seq::<char>::empty()].drop_last() =~= Seq::empty());
        assert(pieces(whole) =~= seq![name]);
        assert(pieces(base).push(name) =~= seq![name]);
    } else if base.last() == '/' {
        lemma_split_append(base, name, '/');
        let was = split(base, '/');
        assert(was == split(base.drop_last(), '/').push(Seq::empty()));
        assert(was.last() + name =~= name);
        let now = split(whole, '/');
        assert(now.drop_last() =~= was.drop_last());
        assert(now.last() == name);
    } else {
        let slashed = base + seq!['/'];
        assert(whole =~= slashed + name);
        lemma_split_append(slashed, name, '/');
        assert(slashed.drop_last() =~= base);
        let was = split(slashed, '/');
        assert(was == split(base, '/').push(Seq::empty()));
        assert(was.last() + name =~= name);
        let now = split(whole, '/');
        assert(now.drop_last() =~= split(base, '/'));
        assert(now.last() == name);
    }
}

/// A name joined to a directory is the last piece of the path, behind all pieces of the directory;
/// the file of that path has that name.
pub proof fn law_a_joined_name_is_the_file_name(base: Seq<char>, name: Seq<char>)
    requires
        is_plain_name(name),
    ensures
        pieces(joined(base, name)) == pieces(base).push(name),
        file_name(joined(base, name)) == Some(name),
        is_absolute(joined(base, name)) == is_absolute(base),
{
    lemma_joined_pieces(base, name);
    assert(name.contains(name[0]));
}

/// An absolute path takes the place of the directory it is joined to.
pub proof fn law_an_absolute_path_stands_alone(base: Seq<char>, rest: Seq<char>)
    requires
        rest.len() > 0,
        rest[0] == '/',
    ensures
        joined(base, rest) == rest,
        is_absolute(rest),
{
}

proof fn lemma_dot_place(name: Seq<char>)
    ensures
        match dot_place(name) {
            Some(at) => {
                &&& 0 < at < name.len()
                &&& name[at] == '.'
                &&& forall|i: int| at < i < name.len() ==> #[trigger] name[i] != '.'
            },
            None => forall|i: int| 0 < i < name.len() ==> #[trigger] name[i] != '.',
        },
    decreases name.len(),
{
    if name.len() > 1 && name.last() != '.' {
        lemma_dot_place(name.drop_last());
        assert forall|i: int| 0 <= i < name.len() - 1 implies name.drop_last()[i]
            == #[trigger] name[i] by {}
    }
}

/// A name is its stem, a dot and its extension, which holds no dot; a name without an extension is
/// all stem. The stem is never empty, so a leading dot begins no extension.
pub proof fn law_a_name_is_its_stem_and_extension(name: Seq<char>)
    requires
        name.len() > 0,
    ensures
        stem(name).len() > 0,
        match extension(name) {
            Some(ext) => name == stem(name).push('.') + ext && !ext.contains('.'),
            None => stem(name) == name && forall|i: int|
                0 < i < name.len() ==> #[trigger] name[i] != '.',
        },
{
    lemma_dot_place(name);
    match dot_place(name) {
        Some(at) => {
            let ext = name.skip(at + 1);
            assert(name =~= name.take(at).push('.') + ext);
            assert forall|i: int| 0 <= i < ext.len() implies ext[i] != '.' by {
                assert(ext[i] == name[at + 1 + i]);
            }
        },
        None => {},
    }
}

proof fn lemma_last_slash(base: Seq<char>, name: Seq<char>)
    requires
        !name.contains('/'),
    ensures
        last_slash(base.push('/') + name) == Some(base.len() as int),
    decreases name.len(),
{
    let whole = base.push('/') + name;
    if name.len() > 0 {
        let front = name.drop_last();
        assert(name.contains(name.last()));
        assert forall|i: int| 0 <= i < front.len() implies front[i] != '/' by {
            assert(name.contains(name[i]));
        }
        lemma_last_slash(base, front);
        assert(whole.drop_last() =~= base.push('/') + front);
    }
}

/// The directory of a file in a directory is that directory.
pub proof fn law_the_parent_of_a_joined_name_is_the_base(base: Seq<char>, name: Seq<char>)
    requires
        base.len() > 0,
        without_end_slashes(base) == base,
        base != seq!['/'],
        is_plain_name(name),
        !(name.last() == '.' && name.len() == 1),
    ensures
        parent(joined(base, name)) == Some(base),
{
    assert(name.contains(name[0]));
    assert(name.contains(name.last()));
    if base.last() == '/' {
        if base.len() == 1 {
            assert(base =~= seq!['/']);
        } else {
            lemma_end_slashes_shrink(base.drop_last());
            assert(false);
        }
    }
    let whole = joined(base, name);
    assert(whole =~= base.push('/') + name);
    assert(whole.last() == name.last());
    if name.len() > 1 {
        assert(whole[whole.len() - 2] == name[name.len() - 2]);
        assert(name.contains(name[name.len() - 2]));
    } else if name.last() == '.' {
        reveal_strlit(".");
        assert(name =~= "."@);
    }
    assert(without_end_slashes(whole) == whole);
    lemma_last_slash(base, name);
    assert(whole.len() >= 2);
    assert(whole.take((base.len() + 1) as int) =~= base.push('/'));
    assert(base.push('/').drop_last() =~= base);
}

proof fn lemma_end_slashes_shrink(path: Seq<char>)
    ensures
        without_end_slashes(path).len() <= path.len(),
    decreases path.len(),
{
    if path.len() > 1 && (path.last() == '/' || (path.last() == '.' && path[path.len() - 2]
        == '/')) {
        lemma_end_slashes_shrink(path.drop_last());
    }
}

/// A separator at the end of a path makes no other path of it.
pub proof fn law_a_separator_at_the_end_makes_no_difference(path: Seq<char>)
    requires
        path.len() > 0,
    ensures
        same_path(path.push('/'), path),
        same_path(path, path),
{
    let longer = path.push('/');
    assert(longer.drop_last() =~= path);
    assert(split(longer, '/').drop_last() =~= split(path, '/'));
    assert(longer[0] == path[0]);
    if path.len() > 1 {
        assert(longer[1] == path[1]);
    }
}

} // verus!
