//! Unix paths as texts: how they are taken apart into components and put together.

use crate::text::{
    find, join as join_texts, joined, lemma_find, same, slice, split, split_at_char, to_chars,
};
use vstd::prelude::*;

verus! {

/// What `{:?}` makes of a path: the path in double quotes, with escapes.
pub uninterp spec fn quoted_path(path: Seq<char>) -> Seq<char>;

/// `<std::path::Path as Debug>::fmt`: the path in double quotes, with escapes.
#[verifier::external_body]
pub(crate) fn quoted(path: &str) -> (r: String)
    ensures
        r@ == quoted_path(path@),
{
    format!("{:?}", std::path::Path::new(path))
}

/// Whether a piece between separators counts as a component: empty pieces and `.` do not.
pub open spec fn counts(piece: Seq<char>) -> bool {
    piece.len() > 0 && piece != "."@
}

/// The pieces that count, in order.
pub open spec fn counting(pieces: Seq<Seq<char>>) -> Seq<Seq<char>>
    decreases pieces.len(),
{
    if pieces.len() == 0 {
        Seq::empty()
    } else if counts(pieces.last()) {
        counting(pieces.drop_last()).push(pieces.last())
    } else {
        counting(pieces.drop_last())
    }
}

/// The path begins at the root directory.
pub open spec fn is_absolute(path: Seq<char>) -> bool {
    path.len() > 0 && path[0] == '/'
}

/// What a path begins with before its names: `/` for the root directory, `.` for the
/// current one where the path spells it out, or nothing.
pub open spec fn start_of(path: Seq<char>) -> Seq<Seq<char>> {
    if is_absolute(path) {
        seq!["/"@]
    } else if split_at_char(path, '/')[0] == "."@ {
        seq!["."@]
    } else {
        Seq::empty()
    }
}

/// The components of a path as texts. The root directory is `/`; separators in a row,
/// a separator at the end and `.` after the start count for nothing.
pub open spec fn components_of(path: Seq<char>) -> Seq<Seq<char>> {
    start_of(path) + counting(split_at_char(path, '/'))
}

/// A component that is a name, not `/`, `.` or `..`.
pub open spec fn is_name(component: Seq<char>) -> bool {
    component != "/"@ && component != "."@ && component != ".."@
}

/// The path names the root directory and nothing below it.
pub open spec fn is_root_dir(path: Seq<char>) -> bool {
    components_of(path) == seq!["/"@]
}

/// The components of a path.
pub fn components(path: &str) -> (r: Vec<String>)
    ensures
        r.deep_view() == components_of(path@),
{
    let pieces = split(path, '/');
    let ghost all = split_at_char(path@, '/');
    let v = to_chars(path);
    let mut out: Vec<String> = Vec::new();
    assert(all.len() > 0);
    assert(pieces@.len() > 0 && pieces@[0]@ == all[0]);
    if v.len() > 0 && v[0] == '/' {
        out.push("/".to_owned());
    } else if same(pieces[0].as_str(), ".") {
        out.push(".".to_owned());
    }
    assert(out.deep_view() =~= start_of(path@));
    let mut i: usize = 0;
    assert(all.take(0) =~= Seq::<Seq<char>>::empty());
    while i < pieces.len()
        invariant
            i <= pieces@.len(),
            pieces.deep_view() == all,
            out.deep_view() =~= start_of(path@) + counting(all.take(i as int)),
        decreases pieces@.len() - i,
    {
        let ghost before = out.deep_view();
        assert(pieces@[i as int]@ == all[i as int]);
        assert(all.take(i + 1).drop_last() =~= all.take(i as int));
        if !pieces[i].as_str().is_empty() && !same(pieces[i].as_str(), ".") {
            out.push(pieces[i].clone());
            assert(out.deep_view() =~= before.push(all[i as int]));
        }
        i += 1;
    }
    assert(all.take(i as int) =~= all);
    out
}

/// Whether the path names the root directory and nothing below it.
pub fn root_dir(path: &str) -> (r: bool)
    ensures
        r == is_root_dir(path@),
{
    let c = components(path);
    let ghost all = components_of(path@);
    assert(c@.len() == all.len());
    if c.len() == 1 && same(c[0].as_str(), "/") {
        assert(c@[0]@ == all[0]);
        assert(all =~= seq!["/"@]);
        true
    } else {
        assert(c@.len() == 1 ==> c@[0]@ == all[0]);
        assert(seq!["/"@].len() == 1 && seq!["/"@][0] == "/"@);
        false
    }
}

/// The last component, where it is a name.
pub open spec fn file_name_of(path: Seq<char>) -> Option<Seq<char>> {
    let c = components_of(path);
    if c.len() > 0 && is_name(c.last()) {
        Some(c.last())
    } else {
        None
    }
}

/// The last component, where it is a name.
pub fn file_name(path: &str) -> (r: Option<String>)
    ensures
        r.deep_view() == file_name_of(path@),
{
    let c = components(path);
    if c.len() == 0 {
        return None;
    }
    let last = c[c.len() - 1].clone();
    assert(last@ == components_of(path@).last());
    if same(last.as_str(), "/") || same(last.as_str(), ".") || same(last.as_str(), "..") {
        None
    } else {
        Some(last)
    }
}

/// The length, at least `from`, of the shortest prefix of `path` with the components `want`.
pub open spec fn shortest_prefix(path: Seq<char>, want: Seq<Seq<char>>, from: int) -> int
    decreases path.len() - from,
{
    if from >= path.len() || components_of(path.take(from)) == want {
        from
    } else {
        shortest_prefix(path, want, from + 1)
    }
}

/// The path without its last component: the shortest prefix that has all the others.
/// The root directory and the empty path have no parent.
pub open spec fn parent_of(path: Seq<char>) -> Option<Seq<char>> {
    let c = components_of(path);
    if c.len() == 0 || c.last() == "/"@ {
        None
    } else {
        Some(path.take(shortest_prefix(path, c.drop_last(), 0)))
    }
}

/// Whether the two lists hold the same texts in the same order.
fn same_list(a: &Vec<String>, b: &Vec<String>) -> (r: bool)
    ensures
        r == (a.deep_view() == b.deep_view()),
{
    let ghost x = a.deep_view();
    let ghost y = b.deep_view();
    if a.len() != b.len() {
        assert(x.len() != y.len());
        return false;
    }
    let mut i: usize = 0;
    while i < a.len()
        invariant
            i <= a@.len(),
            a@.len() == b@.len(),
            x == a.deep_view(),
            y == b.deep_view(),
            forall|k: int| 0 <= k < i ==> x[k] == y[k],
        decreases a@.len() - i,
    {
        if !same(a[i].as_str(), b[i].as_str()) {
            assert(x[i as int] != y[i as int]);
            return false;
        }
        assert(x[i as int] == y[i as int]);
        i += 1;
    }
    assert(x =~= y);
    true
}

/// The path without its last component.
pub fn parent(path: &str) -> (r: Option<String>)
    ensures
        r.deep_view() == parent_of(path@),
{
    let mut want = components(path);
    let ghost all = components_of(path@);
    if want.len() == 0 {
        return None;
    }
    let last: usize = want.len() - 1;
    assert(want@[last as int]@ == all.last());
    if same(want[last].as_str(), "/") {
        return None;
    }
    want.pop();
    assert(want.deep_view() =~= all.drop_last());
    let v = to_chars(path);
    let mut n: usize = 0;
    while n < v.len()
        invariant
            n <= v@.len(),
            v@ == path@,
            want.deep_view() == all.drop_last(),
            shortest_prefix(path@, all.drop_last(), 0) == shortest_prefix(
                path@,
                all.drop_last(),
                n as int,
            ),
        ensures
            n <= v@.len(),
            shortest_prefix(path@, all.drop_last(), 0) == n,
        decreases v@.len() - n,
    {
        let start = slice(&v, 0, n);
        assert(start@ =~= path@.take(n as int));
        let c = components(start.as_str());
        if same_list(&c, &want) {
            break;
        }
        n += 1;
    }
    let out = slice(&v, 0, n);
    assert(out@ =~= path@.take(n as int));
    Some(out)
}

/// `path` below `base`; an absolute `path` stands for itself.
pub open spec fn joined_path(base: Seq<char>, path: Seq<char>) -> Seq<char> {
    if is_absolute(path) {
        path
    } else if base.len() == 0 || base.last() == '/' {
        base + path
    } else {
        base + "/"@ + path
    }
}

/// `path` below `base`.
pub fn join(base: &str, path: &str) -> (r: String)
    ensures
        r@ == joined_path(base@, path@),
{
    let b = to_chars(base);
    let p = to_chars(path);
    if p.len() > 0 && p[0] == '/' {
        path.to_owned()
    } else if b.len() == 0 || b[b.len() - 1] == '/' {
        base.to_owned().concat(path)
    } else {
        base.to_owned().concat("/").concat(path)
    }
}

/// Each of `parts` in turn joined below `base`.
pub open spec fn below(base: Seq<char>, parts: Seq<Seq<char>>) -> Seq<char>
    decreases parts.len(),
{
    if parts.len() == 0 {
        base
    } else {
        joined_path(below(base, parts.drop_last()), parts.last())
    }
}

/// The components of `path` other than the root directory.
pub open spec fn relative_components(path: Seq<char>) -> Seq<Seq<char>> {
    if is_absolute(path) {
        components_of(path).drop_first()
    } else {
        components_of(path)
    }
}

/// Where `path` stands when `root` takes the place of the root directory.
pub open spec fn rebased_path(root: Seq<char>, path: Seq<char>) -> Seq<char> {
    below(root, relative_components(path))
}

/// Where `path` stands when `root` takes the place of the root directory.
pub fn rebased(root: &str, path: &str) -> (r: String)
    ensures
        r@ == rebased_path(root@, path@),
{
    let c = components(path);
    let ghost all = components_of(path@);
    let ghost rel = relative_components(path@);
    let v = to_chars(path);
    let mut out = root.to_owned();
    let first: usize = if v.len() > 0 && v[0] == '/' {
        1
    } else {
        0
    };
    let mut i: usize = first;
    assert(c@.len() == all.len() && first <= all.len());
    assert(rel.take(0) =~= Seq::<Seq<char>>::empty());
    while i < c.len()
        invariant
            first <= i <= c@.len(),
            c.deep_view() == all,
            all.len() == rel.len() + first,
            forall|k: int| 0 <= k < rel.len() ==> rel[k] == all[k + first],
            out@ == below(root@, rel.take(i - first)),
        decreases c@.len() - i,
    {
        assert(c@[i as int]@ == all[i as int]);
        assert(rel.take(i + 1 - first).drop_last() =~= rel.take(i - first));
        out = join(out.as_str(), c[i].as_str());
        i += 1;
    }
    assert(rel.take(i - first) =~= rel);
    out
}

/// The names among the components.
pub open spec fn names_among(components: Seq<Seq<char>>) -> Seq<Seq<char>>
    decreases components.len(),
{
    if components.len() == 0 {
        Seq::empty()
    } else if is_name(components.last()) {
        names_among(components.drop_last()).push(components.last())
    } else {
        names_among(components.drop_last())
    }
}

/// The names in `path`, with `/` between them.
pub open spec fn names_path(path: Seq<char>) -> Seq<char> {
    joined(names_among(components_of(path)), "/"@)
}

/// The names in `path`, with `/` between them.
pub fn only_names(path: &str) -> (r: String)
    ensures
        r@ == names_path(path@),
{
    let c = components(path);
    let ghost all = components_of(path@);
    let mut out: Vec<String> = Vec::new();
    let mut i: usize = 0;
    assert(all.take(0) =~= Seq::<Seq<char>>::empty());
    while i < c.len()
        invariant
            i <= c@.len(),
            c.deep_view() == all,
            out.deep_view() =~= names_among(all.take(i as int)),
        decreases c@.len() - i,
    {
        let ghost before = out.deep_view();
        assert(c@[i as int]@ == all[i as int]);
        assert(all.take(i + 1).drop_last() =~= all.take(i as int));
        let part = c[i].as_str();
        if !same(part, "/") && !same(part, ".") && !same(part, "..") {
            out.push(c[i].clone());
            assert(out.deep_view() =~= before.push(all[i as int]));
        }
        i += 1;
    }
    assert(all.take(i as int) =~= all);
    join_texts(&out, "/")
}

/// The position of the last dot in a name, or -1.
pub open spec fn last_dot(name: Seq<char>) -> int
    decreases name.len(),
{
    if name.len() == 0 {
        -1
    } else if name.last() == '.' {
        name.len() - 1
    } else {
        last_dot(name.drop_last())
    }
}

/// A name taken apart at its last dot into stem and extension. A name without a dot, or
/// with its only dot in front, is all stem.
pub open spec fn stem_and_extension(name: Seq<char>) -> (Seq<char>, Option<Seq<char>>) {
    let n = last_dot(name);
    if 0 < n < name.len() {
        (name.take(n), Some(name.skip(n + 1)))
    } else {
        (name, None)
    }
}

/// A name taken apart at its last dot into stem and extension.
pub fn split_extension(name: &str) -> (r: (String, Option<String>))
    ensures
        r.deep_view() == stem_and_extension(name@),
{
    let v = to_chars(name);
    let mut n: usize = v.len();
    assert(name@.take(n as int) =~= name@);
    while n > 0 && v[n - 1] != '.'
        invariant
            n <= v@.len(),
            v@ == name@,
            last_dot(name@.take(n as int)) == last_dot(name@),
        decreases n,
    {
        assert(name@.take(n as int).drop_last() =~= name@.take(n - 1));
        n -= 1;
    }
    if n > 1 {
        let stem = slice(&v, 0, n - 1);
        let extension = slice(&v, n, v.len());
        assert(stem@ =~= name@.take(n - 1));
        assert(extension@ =~= name@.skip(n as int));
        (stem, Some(extension))
    } else {
        (name.to_owned(), None)
    }
}

/// A name that can be joined to a path as one component.
pub open spec fn is_plain(name: Seq<char>) -> bool {
    name.len() > 0 && name != "."@ && !name.contains('/')
}

/// A text in which `c` stands at `k` and not before is split there first.
proof fn lemma_find_at(s: Seq<char>, c: char, k: int)
    requires
        0 <= k < s.len(),
        s[k] == c,
        forall|j: int| 0 <= j < k ==> s[j] != c,
    ensures
        find(s, c) == k,
{
    lemma_find(s, c);
}

/// A text without the separator is one piece.
proof fn lemma_split_whole(s: Seq<char>, c: char)
    requires
        !s.contains(c),
    ensures
        split_at_char(s, c) == seq![s],
{
    lemma_find(s, c);
    if find(s, c) < s.len() {
        assert(s.contains(s[find(s, c)]));
    }
}

/// Texts with a separator between them have the pieces of both.
proof fn lemma_split_between(a: Seq<char>, b: Seq<char>, c: char)
    ensures
        split_at_char(a + seq![c] + b, c) == split_at_char(a, c) + split_at_char(b, c),
    decreases a.len(),
{
    let s = a + seq![c] + b;
    let n = find(a, c);
    lemma_find(a, c);
    if n < a.len() {
        lemma_find_at(s, c, n);
        assert(s.take(n) =~= a.take(n));
        assert(s.skip(n + 1) =~= a.skip(n + 1) + seq![c] + b);
        lemma_split_between(a.skip(n + 1), b, c);
        assert(split_at_char(s, c) =~= split_at_char(a, c) + split_at_char(b, c));
    } else {
        assert forall|j: int| 0 <= j < a.len() implies s[j] != c by {
            assert(s[j] == a[j]);
        }
        lemma_find_at(s, c, a.len() as int);
        assert(s.take(a.len() as int) =~= a);
        assert(s.skip(a.len() as int + 1) =~= b);
    }
}

/// There is always a first piece.
proof fn lemma_split_nonempty(s: Seq<char>, c: char)
    ensures
        split_at_char(s, c).len() > 0,
{
}

/// The pieces that count among two lists.
proof fn lemma_counting_between(a: Seq<Seq<char>>, b: Seq<Seq<char>>)
    ensures
        counting(a + b) == counting(a) + counting(b),
    decreases b.len(),
{
    if b.len() == 0 {
        assert(a + b =~= a);
        assert(counting(a) + counting(b) =~= counting(a));
    } else {
        assert((a + b).drop_last() =~= a + b.drop_last());
        assert((a + b).last() == b.last());
        lemma_counting_between(a, b.drop_last());
        assert(counting(a + b) =~= counting(a) + counting(b));
    }
}

/// The pieces that count in a list of one piece.
proof fn lemma_counting_one(piece: Seq<char>)
    ensures
        counting(seq![piece]) == (if counts(piece) {
            seq![piece]
        } else {
            Seq::empty()
        }),
{
    let one = seq![piece];
    assert(one.drop_last() =~= Seq::<Seq<char>>::empty());
    assert(one.last() == piece);
    assert(counting(Seq::<Seq<char>>::empty()) =~= Seq::<Seq<char>>::empty());
    assert(Seq::<Seq<char>>::empty().push(piece) =~= one);
}

/// What stands behind a separator adds its pieces that count.
proof fn lemma_behind(front: Seq<char>, tail: Seq<char>)
    ensures
        components_of(front + seq!['/'] + tail) == components_of(front + seq!['/']) + counting(
            split_at_char(tail, '/'),
        ),
{
    let short = front + seq!['/'];
    let long = front + seq!['/'] + tail;
    let none = Seq::<char>::empty();
    assert(short + none =~= short);
    lemma_split_between(front, none, '/');
    lemma_split_between(front, tail, '/');
    assert(!none.contains('/'));
    lemma_split_whole(none, '/');
    lemma_split_nonempty(front, '/');
    let f = split_at_char(front, '/');
    let t = split_at_char(tail, '/');
    assert(split_at_char(short, '/') == f + seq![none]);
    assert(split_at_char(long, '/') == f + t);
    lemma_counting_between(f, seq![none]);
    lemma_counting_between(f, t);
    lemma_counting_one(none);
    assert((f + seq![none])[0] == f[0]);
    assert((f + t)[0] == f[0]);
    assert(is_absolute(short) == is_absolute(long)) by {
        assert(short[0] == long[0]);
    }
    assert(start_of(short) == start_of(long));
    assert(counting(f + seq![none]) =~= counting(f));
    assert(components_of(long) =~= components_of(short) + counting(t));
}

/// The components of a path that ends in a separator, and of the path with a piece behind it.
proof fn lemma_piece_behind(front: Seq<char>, piece: Seq<char>)
    requires
        !piece.contains('/'),
    ensures
        components_of(front + seq!['/'] + piece) == components_of(front + seq!['/']) + (if counts(
            piece,
        ) {
            seq![piece]
        } else {
            Seq::empty()
        }),
{
    lemma_behind(front, piece);
    lemma_split_whole(piece, '/');
    lemma_counting_one(piece);
}

/// A separator at the end of a path counts for nothing, unless it is the root directory.
proof fn lemma_trailing_separator(front: Seq<char>)
    requires
        front.len() > 0,
    ensures
        components_of(front + seq!['/']) == components_of(front),
{
    let short = front + seq!['/'];
    let none = Seq::<char>::empty();
    assert(short + none =~= short);
    lemma_split_between(front, none, '/');
    assert(!none.contains('/'));
    lemma_split_whole(none, '/');
    lemma_split_nonempty(front, '/');
    let f = split_at_char(front, '/');
    lemma_counting_between(f, seq![none]);
    lemma_counting_one(none);
    assert((f + seq![none])[0] == f[0]);
    assert(counting(f + seq![none]) =~= counting(f));
    assert(short[0] == front[0]);
}

/// Joining a plain name to a path adds it as the last component.
pub proof fn lemma_join_adds_component(base: Seq<char>, name: Seq<char>)
    requires
        is_plain(name),
    ensures
        components_of(joined_path(base, name)) == components_of(base).push(name),
{
    if name[0] == '/' {
        assert(name.contains(name[0]));
    }
    if base.len() == 0 {
        assert(base + name =~= name);
        lemma_split_whole(name, '/');
        assert(!base.contains('/'));
        lemma_split_whole(base, '/');
        lemma_counting_one(name);
        lemma_counting_one(base);
        assert(seq![name][0] == name);
        assert(seq![base][0] == base);
        reveal_strlit(".");
        assert("."@.len() == 1);
        assert(components_of(base) =~= Seq::empty());
        assert(components_of(name) =~= components_of(base).push(name));
    } else if base.last() == '/' {
        let front = base.drop_last();
        assert(front + seq!['/'] =~= base);
        lemma_piece_behind(front, name);
        assert(components_of(base + name) =~= components_of(base).push(name));
    } else {
        reveal_strlit("/");
        assert("/"@ =~= seq!['/']);
        lemma_piece_behind(base, name);
        lemma_trailing_separator(base);
        assert(components_of(base + "/"@ + name) =~= components_of(base).push(name));
    }
}

/// A path of several components is joined one component after the other.
pub proof fn lemma_join_in_steps(base: Seq<char>, path: Seq<char>, name: Seq<char>)
    requires
        path.len() > 0,
        path.last() != '/',
        !is_absolute(path),
        is_plain(name),
    ensures
        components_of(joined_path(base, path + "/"@ + name)) == components_of(
            joined_path(base, path),
        ).push(name),
{
    reveal_strlit("/");
    let longer = path + "/"@ + name;
    if name[0] == '/' {
        assert(name.contains(name[0]));
    }
    assert(longer[0] == path[0]);
    assert(joined_path(base, path).last() == path.last());
    assert(joined_path(base, longer) =~= joined_path(joined_path(base, path), name));
    lemma_join_adds_component(joined_path(base, path), name);
}

/// What is joined to a path lies at or below it, unless it begins at the root directory.
pub proof fn lemma_join_below(base: Seq<char>, path: Seq<char>)
    requires
        !is_absolute(path),
    ensures
        components_of(base).is_prefix_of(components_of(joined_path(base, path))),
{
    if base.len() == 0 {
        assert(!base.contains('/'));
        lemma_split_whole(base, '/');
        lemma_counting_one(base);
        assert(seq![base][0] == base);
        reveal_strlit(".");
        assert("."@.len() == 1);
        assert(components_of(base) =~= Seq::empty());
    } else if base.last() == '/' {
        let front = base.drop_last();
        assert(front + seq!['/'] =~= base);
        lemma_behind(front, path);
    } else {
        reveal_strlit("/");
        assert("/"@ =~= seq!['/']);
        lemma_behind(base, path);
        lemma_trailing_separator(base);
    }
}

/// A prefix with the wanted components is found where there is one.
proof fn lemma_shortest_prefix(path: Seq<char>, want: Seq<Seq<char>>, from: int, k: int)
    requires
        0 <= from <= k <= path.len(),
        components_of(path.take(k)) == want,
    ensures
        components_of(path.take(shortest_prefix(path, want, from))) == want,
        from <= shortest_prefix(path, want, from) <= k,
    decreases path.len() - from,
{
    if from < path.len() && components_of(path.take(from)) != want {
        lemma_shortest_prefix(path, want, from + 1, k);
    }
}

/// Where a path without its last component ends. The last component is plain, or `.` or `..`.
proof fn lemma_last_component(path: Seq<char>) -> (k: int)
    requires
        components_of(path).len() > 0,
        components_of(path).last() != "/"@,
    ensures
        0 <= k <= path.len(),
        components_of(path.take(k)) == components_of(path).drop_last(),
        is_plain(components_of(path).last()) || components_of(path).last() == "."@,
    decreases path.len(),
{
    let c = components_of(path);
    if path.len() == 0 {
        assert(!path.contains('/'));
        lemma_split_whole(path, '/');
        lemma_counting_one(path);
        assert(seq![path][0] == path);
        reveal_strlit(".");
        assert(c =~= Seq::empty());
        0
    } else if path.last() == '/' {
        let front = path.drop_last();
        assert(front + seq!['/'] =~= path);
        if front.len() == 0 {
            let none = Seq::<char>::empty();
            assert(path =~= front + seq!['/'] + none);
            lemma_split_between(front, none, '/');
            assert(front =~= none);
            assert(!none.contains('/'));
            lemma_split_whole(none, '/');
            lemma_counting_between(seq![none], seq![none]);
            lemma_counting_one(none);
            assert(c =~= seq!["/"@]);
            0
        } else {
            lemma_trailing_separator(front);
            let k = lemma_last_component(front);
            assert(path.take(k) =~= front.take(k));
            k
        }
    } else {
        let k = lemma_last_separator(path);
        let piece = path.skip(k);
        let short = path.take(k);
        assert(path =~= short + piece);
        if k == 0 {
            assert(piece =~= path);
            lemma_split_whole(path, '/');
            lemma_counting_one(path);
            assert(seq![path][0] == path);
            assert(!short.contains('/'));
            lemma_split_whole(short, '/');
            lemma_counting_one(short);
            assert(seq![short][0] == short);
            reveal_strlit(".");
            assert("."@.len() == 1);
            assert(components_of(short) =~= Seq::empty());
            if path[0] == '/' {
                assert(path.contains(path[0]));
            }
            if path == "."@ {
                assert(c =~= seq!["."@]);
            } else {
                assert(c =~= seq![path]);
            }
            assert(c.drop_last() =~= Seq::empty());
            0
        } else {
            let front = path.take(k - 1);
            assert(short =~= front + seq!['/']);
            lemma_piece_behind(front, piece);
            if counts(piece) {
                assert(c.drop_last() =~= components_of(short));
                k
            } else {
                assert(c =~= components_of(short));
                let j = lemma_last_component(short);
                assert(path.take(j) =~= short.take(j));
                j
            }
        }
    }
}

/// Where the last piece of a path begins: behind its last separator.
proof fn lemma_last_separator(path: Seq<char>) -> (k: int)
    requires
        path.len() > 0,
        path.last() != '/',
    ensures
        0 <= k < path.len(),
        k > 0 ==> path[k - 1] == '/',
        !path.skip(k).contains('/'),
    decreases path.len(),
{
    let front = path.drop_last();
    if front.len() == 0 || front.last() == '/' {
        let k = front.len() as int;
        assert(path.skip(k) =~= seq![path.last()]);
        k
    } else {
        let k = lemma_last_separator(front);
        assert forall|i: int| 0 <= i < path.skip(k).len() implies path.skip(k)[i] != '/' by {
            if i < front.skip(k).len() {
                assert(path.skip(k)[i] == front.skip(k)[i]);
                assert(front.skip(k).contains(front.skip(k)[i]));
            }
        }
        k
    }
}

/// A path is its parent and its name: the components of the parent are those of the path
/// without the last, which is a plain name.
pub proof fn lemma_parent_and_name(path: Seq<char>)
    requires
        parent_of(path) is Some,
        file_name_of(path) is Some,
    ensures
        components_of(path) == components_of(parent_of(path)->0).push(file_name_of(path)->0),
        is_plain(file_name_of(path)->0),
{
    let c = components_of(path);
    let k = lemma_last_component(path);
    lemma_shortest_prefix(path, c.drop_last(), 0, k);
    assert(c.drop_last().push(c.last()) =~= c);
}

/// An empty path has no components.
pub(crate) proof fn lemma_no_components(path: Seq<char>)
    requires
        path.len() == 0,
    ensures
        components_of(path).len() == 0,
{
    assert(!path.contains('/'));
    lemma_split_whole(path, '/');
    lemma_counting_one(path);
    assert(seq![path][0] == path);
    reveal_strlit(".");
    assert("."@.len() == 1);
}

/// The root directory is its only component.
pub(crate) proof fn lemma_root_components()
    ensures
        components_of("/"@) == seq!["/"@],
{
    let path = "/"@;
    reveal_strlit("/");
    let none = Seq::<char>::empty();
    lemma_find(path, '/');
    assert(path.take(0) =~= none);
    assert(path.skip(1) =~= none);
    assert(!none.contains('/'));
    lemma_split_whole(none, '/');
    assert(split_at_char(path, '/') =~= seq![none] + seq![none]);
    let pieces = seq![none] + seq![none];
    assert(pieces.last() == none);
    assert(pieces.drop_last() =~= seq![none]);
    lemma_counting_one(none);
    assert(counting(pieces) =~= Seq::empty());
    assert(seq!["/"@] + counting(pieces) =~= seq!["/"@]);
}

/// Below the root directory all components of a path are plain.
pub(crate) proof fn lemma_relative_plain(path: Seq<char>)
    requires
        is_absolute(path),
    ensures
        forall|i: int|
            0 <= i < relative_components(path).len() ==> is_plain(
                #[trigger] relative_components(path)[i],
            ),
{
    let pieces = split_at_char(path, '/');
    lemma_pieces(path, '/');
    lemma_counting_among(pieces);
    let c = counting(pieces);
    assert(relative_components(path) =~= c);
    assert forall|i: int| 0 <= i < c.len() implies is_plain(#[trigger] c[i]) by {
        assert(pieces.contains(c[i]));
    }
}

/// The name at the end of a path is plain.
pub proof fn lemma_name_is_plain(path: Seq<char>)
    requires
        file_name_of(path) is Some,
    ensures
        is_plain(file_name_of(path)->0),
{
    let k = lemma_last_component(path);
}

/// A piece between separators holds none.
proof fn lemma_pieces(s: Seq<char>, c: char)
    ensures
        forall|i: int|
            0 <= i < split_at_char(s, c).len() ==> !(#[trigger] split_at_char(s, c)[i]).contains(c),
    decreases s.len(),
{
    let n = find(s, c);
    let all = split_at_char(s, c);
    lemma_find(s, c);
    if n < s.len() {
        lemma_pieces(s.skip(n + 1), c);
        assert forall|i: int| 0 <= i < all.len() implies !(#[trigger] all[i]).contains(c) by {
            if i > 0 {
                assert(all[i] == split_at_char(s.skip(n + 1), c)[i - 1]);
            }
        }
    }
}

/// A piece that counts is a piece.
proof fn lemma_counting_among(pieces: Seq<Seq<char>>)
    ensures
        forall|i: int|
            0 <= i < counting(pieces).len() ==> pieces.contains(#[trigger] counting(pieces)[i])
                && counts(counting(pieces)[i]),
    decreases pieces.len(),
{
    if pieces.len() > 0 {
        let rest = pieces.drop_last();
        lemma_counting_among(rest);
        assert forall|i: int| 0 <= i < counting(pieces).len() implies pieces.contains(
            #[trigger] counting(pieces)[i],
        ) && counts(counting(pieces)[i]) by {
            if i < counting(rest).len() {
                assert(counting(pieces)[i] == counting(rest)[i]);
                let k = choose|k: int| 0 <= k < rest.len() && rest[k] == counting(rest)[i];
                assert(pieces[k] == rest[k]);
            } else {
                assert(pieces[pieces.len() - 1] == pieces.last());
            }
        }
    }
}

/// No component of a path but the root directory holds a separator, and none is empty.
pub proof fn lemma_components(path: Seq<char>)
    ensures
        forall|i: int|
            0 <= i < components_of(path).len() ==> {
                let c = #[trigger] components_of(path)[i];
                c == "/"@ || c.len() > 0 && !c.contains('/')
            },
{
    let pieces = split_at_char(path, '/');
    lemma_pieces(path, '/');
    lemma_counting_among(pieces);
    reveal_strlit(".");
    let c = components_of(path);
    assert forall|i: int| 0 <= i < c.len() implies {
        let x = #[trigger] c[i];
        x == "/"@ || x.len() > 0 && !x.contains('/')
    } by {
        let n = start_of(path).len();
        if i < n {
            assert(c[i] == start_of(path)[i]);
        } else {
            assert(c[i] == counting(pieces)[i - n]);
            let k = choose|k: int| 0 <= k < pieces.len() && pieces[k] == counting(pieces)[i - n];
            assert(!pieces[k].contains('/'));
        }
    }
}

/// The name at the end of a path to which a plain name was joined.
pub proof fn lemma_joined_name(base: Seq<char>, name: Seq<char>)
    requires
        is_plain(name),
        name != ".."@,
    ensures
        file_name_of(joined_path(base, name)) == Some(name),
{
    lemma_join_adds_component(base, name);
    reveal_strlit("/");
    if name == "/"@ {
        assert(name.contains(name[0]));
    }
}

}
