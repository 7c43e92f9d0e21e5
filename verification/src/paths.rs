//! Paths as text, with `/` between components, as Unix-like systems have them.
//!
//! What `std::path` documents of a path is stated here over its components;
//! the functions themselves are the ones of `std::path`.
use vstd::prelude::*;
use vstd::string::*;

verus! {

/// The pieces of `s` between the characters `/`, empty pieces included.
pub open spec fn pieces(s: Seq<char>) -> Seq<Seq<char>>
    decreases s.len(),
{
    if s.len() == 0 {
        seq![Seq::empty()]
    } else {
        let front = pieces(s.drop_last());
        if s.last() == '/' {
            front.push(Seq::empty())
        } else {
            front.drop_last().push(front.last().push(s.last()))
        }
    }
}

/// A piece that counts as a component wherever it stands.
pub open spec fn is_name(piece: Seq<char>) -> bool {
    piece.len() > 0 && piece != seq!['.']
}

/// The component that makes a path absolute.
pub open spec fn root() -> Seq<char> {
    seq!['/']
}

/// The components of a path. Repeated and trailing separators are ignored, and so
/// is `.` everywhere but at the front of a relative path. An absolute path starts
/// with the component `/`.
pub open spec fn components(p: Seq<char>) -> Seq<Seq<char>> {
    let names = pieces(p).filter(|piece: Seq<char>| is_name(piece));
    if p.len() > 0 && p[0] == '/' {
        seq![root()] + names
    } else if pieces(p)[0] == seq!['.'] {
        seq![seq!['.']] + names
    } else {
        names
    }
}

pub open spec fn is_absolute(p: Seq<char>) -> bool {
    p.len() > 0 && p[0] == '/'
}

/// Components without the `.` that may stand first.
pub open spec fn without_dot(c: Seq<Seq<char>>) -> Seq<Seq<char>> {
    if c.len() > 0 && c[0] == seq!['.'] {
        c.drop_first()
    } else {
        c
    }
}

/// The components of `p` without the `.` that may stand first.
pub open spec fn components_below(p: Seq<char>) -> Seq<Seq<char>> {
    without_dot(components(p))
}

/// The last of these components, unless it is `/`, `.` or `..`.
pub open spec fn last_name(c: Seq<Seq<char>>) -> Option<Seq<char>> {
    if c.len() > 0 && c.last() != root() && c.last() != seq!['.'] && c.last() != seq!['.', '.'] {
        Some(c.last())
    } else {
        None
    }
}

/// The last component of a path, unless it is `/`, `.` or `..`.
pub open spec fn file_name_of(p: Seq<char>) -> Option<Seq<char>> {
    last_name(components(p))
}

/// The position of the last `.` in a name.
pub open spec fn last_dot(name: Seq<char>) -> Option<int>
    decreases name.len(),
{
    if name.len() == 0 {
        None
    } else if name.last() == '.' {
        Some(name.len() - 1)
    } else {
        last_dot(name.drop_last())
    }
}

/// What follows the last `.` of a name, unless that `.` is the first character.
pub open spec fn extension_of_name(name: Seq<char>) -> Option<Seq<char>> {
    match last_dot(name) {
        Some(i) => if i > 0 {
            Some(name.skip(i + 1))
        } else {
            None
        },
        None => None,
    }
}

/// What precedes the `.` of the extension; the whole name where there is none.
pub open spec fn stem_of_name(name: Seq<char>) -> Seq<char> {
    match last_dot(name) {
        Some(i) => if i > 0 {
            name.take(i)
        } else {
            name
        },
        None => name,
    }
}

/// A name with its extension replaced, or added where it has none.
pub open spec fn renamed(name: Seq<char>, ext: Seq<char>) -> Seq<char> {
    stem_of_name(name) + seq!['.'] + ext
}

/// Components with the extension of the last one replaced, if that is a name.
pub open spec fn renamed_last(c: Seq<Seq<char>>, ext: Seq<char>) -> Seq<Seq<char>> {
    match last_name(c) {
        Some(name) => c.drop_last().push(renamed(name, ext)),
        None => c,
    }
}

proof fn lemma_last_dot(name: Seq<char>, j: int)
    requires
        0 <= j < name.len(),
        name[j] == '.',
    ensures
        last_dot(name) matches Some(i) && j <= i < name.len(),
    decreases name.len(),
{
    if name.last() != '.' {
        lemma_last_dot(name.drop_last(), j);
    }
}

/// The last `.` of a name stands in it.
pub proof fn lemma_last_dot_bounds(name: Seq<char>)
    ensures
        last_dot(name) matches Some(i) ==> 0 <= i < name.len() && name[i] == '.',
    decreases name.len(),
{
    if name.len() > 0 && name.last() != '.' {
        lemma_last_dot_bounds(name.drop_last());
    }
}

/// Names with the same extension that are the same with another are the same.
proof fn lemma_renamed_apart(a: Seq<char>, b: Seq<char>, ext: Seq<char>)
    requires
        extension_of_name(a) is Some,
        extension_of_name(a) == extension_of_name(b),
        renamed(a, ext) == renamed(b, ext),
    ensures
        a == b,
{
    let own = extension_of_name(a).unwrap();
    let (s, t) = (stem_of_name(a), stem_of_name(b));
    lemma_last_dot_bounds(a);
    lemma_last_dot_bounds(b);
    assert(a =~= s + seq!['.'] + own);
    assert(b =~= t + seq!['.'] + own);
    assert(renamed(a, ext).len() == s.len() + 1 + ext.len());
    assert(renamed(b, ext).len() == t.len() + 1 + ext.len());
    assert(s =~= renamed(a, ext).take(s.len() as int));
    assert(t =~= renamed(b, ext).take(t.len() as int));
}

/// The extension of the last component can be told from what it replaced: components
/// that end in names with the same extension stay apart.
pub proof fn lemma_renamed_last_apart(c: Seq<Seq<char>>, d: Seq<Seq<char>>, ext: Seq<char>)
    requires
        last_name(c) matches Some(name) && extension_of_name(name) is Some,
        last_name(d) matches Some(name) && extension_of_name(name) is Some,
        extension_of_name(last_name(c).unwrap()) == extension_of_name(last_name(d).unwrap()),
        renamed_last(c, ext) == renamed_last(d, ext),
    ensures
        c == d,
{
    let (a, b) = (last_name(c).unwrap(), last_name(d).unwrap());
    let (x, y) = (renamed_last(c, ext), renamed_last(d, ext));
    assert(x.last() == renamed(a, ext));
    assert(y.last() == renamed(b, ext));
    lemma_renamed_apart(a, b, ext);
    assert(x.drop_last() =~= c.drop_last());
    assert(y.drop_last() =~= d.drop_last());
    assert(c =~= c.drop_last().push(a));
    assert(d =~= d.drop_last().push(b));
}

/// A name does not stay the same under an extension that holds a `.`, nor under any
/// where it has none.
proof fn lemma_renamed_differs(name: Seq<char>, ext: Seq<char>)
    requires
        ext.contains('.') || extension_of_name(name) is None,
    ensures
        renamed(name, ext) != name,
{
    let r = renamed(name, ext);
    let stem = stem_of_name(name);
    if r == name {
        assert(r.len() == stem.len() + 1 + ext.len());
        if ext.contains('.') {
            let k = choose|k: int| 0 <= k < ext.len() && ext[k] == '.';
            assert(r[stem.len() + 1 + k] == '.');
            lemma_last_dot(name, stem.len() + 1 + k);
        }
    }
}

proof fn lemma_pieces_hold_no_separator(s: Seq<char>)
    ensures
        pieces(s).len() > 0,
        forall|i: int| 0 <= i < pieces(s).len() ==> !(#[trigger] pieces(s)[i]).contains('/'),
    decreases s.len(),
{
    if s.len() > 0 {
        let front = pieces(s.drop_last());
        lemma_pieces_hold_no_separator(s.drop_last());
        assert forall|i: int| 0 <= i < pieces(s).len() implies !(#[trigger] pieces(s)[i]).contains(
            '/',
        ) by {
            let piece = pieces(s)[i];
            if piece.contains('/') {
                let j = choose|j: int| 0 <= j < piece.len() && piece[j] == '/';
                if s.last() == '/' {
                    assert(i < front.len());
                    assert(piece == front[i]);
                } else if i < front.len() - 1 {
                    assert(piece == front[i]);
                } else {
                    assert(piece == front.last().push(s.last()));
                    assert(j < front.last().len());
                    assert(front.last()[j] == '/');
                    assert(front[front.len() - 1].contains('/'));
                }
            }
        }
    }
}

proof fn lemma_filter_elements<A>(s: Seq<A>, pred: spec_fn(A) -> bool)
    ensures
        forall|i: int|
            0 <= i < s.filter(pred).len() ==> pred(#[trigger] s.filter(pred)[i]) && s.contains(
                s.filter(pred)[i],
            ),
    decreases s.len(),
{
    reveal(Seq::filter);
    if s.len() > 0 {
        lemma_filter_elements(s.drop_last(), pred);
        assert forall|i: int| 0 <= i < s.filter(pred).len() implies pred(
            #[trigger] s.filter(pred)[i],
        ) && s.contains(s.filter(pred)[i]) by {
            let front = s.drop_last().filter(pred);
            if i < front.len() {
                let x = front[i];
                let j = choose|j: int| 0 <= j < s.drop_last().len() && s.drop_last()[j] == x;
                assert(s[j] == x);
            } else {
                assert(s[s.len() - 1] == s.filter(pred)[i]);
            }
        }
    }
}

/// A component is `/`, or a name that holds no separator. Only the first can be `/`
/// or `.`.
pub proof fn lemma_components(p: Seq<char>)
    ensures
        forall|i: int|
            0 <= i < components(p).len() ==> (#[trigger] components(p)[i] == root() && i == 0)
                || !components(p)[i].contains('/'),
        forall|i: int| 0 < i < components(p).len() ==> is_name(#[trigger] components(p)[i]),
        is_absolute(p) == (components(p).len() > 0 && components(p)[0] == root()),
{
    assert(root()[0] == '/');
    assert(root().contains('/'));
    let pred = |piece: Seq<char>| is_name(piece);
    let names = pieces(p).filter(pred);
    lemma_pieces_hold_no_separator(p);
    lemma_filter_elements(pieces(p), pred);
    assert forall|i: int| 0 <= i < names.len() implies !(#[trigger] names[i]).contains('/')
        && is_name(names[i]) by {
        assert(pieces(p).contains(names[i]));
    }
    if !is_absolute(p) && pieces(p)[0] == seq!['.'] {
        assert(components(p)[0] == seq!['.']);
        assert(!pieces(p)[0].contains('/'));
    }
}

/// What follows the first components of a path, at least one, is a relative path: it
/// starts with neither `/` nor `.`.
pub proof fn law_remainder_is_relative(p: Seq<char>, base_len: int, rel: Seq<char>)
    requires
        0 < base_len <= components(p).len(),
        components(rel) == components(p).skip(base_len),
    ensures
        !is_absolute(rel),
        components_below(rel) == components(rel),
{
    lemma_components(p);
    lemma_components(rel);
    if components(rel).len() > 0 {
        assert(components(rel)[0] == components(p)[base_len]);
        assert(is_name(components(p)[base_len]));
        assert(root()[0] == '/');
        assert(root().contains('/'));
    }
}

proof fn lemma_extension_holds_no_separator(path: Seq<char>)
    ensures
        file_name_of(path) matches Some(name) ==> !name.contains('/') && (extension_of_name(
            name,
        ) matches Some(ext) ==> !ext.contains('/')),
{
    lemma_components(path);
    if let Some(name) = file_name_of(path) {
        assert(name == components(path)[components(path).len() - 1]);
        if let Some(ext) = extension_of_name(name) {
            lemma_last_dot_bounds(name);
            if ext.contains('/') {
                let j = choose|j: int| 0 <= j < ext.len() && ext[j] == '/';
                let i = last_dot(name).unwrap();
                assert(name[i + 1 + j] == '/');
            }
        }
    }
}

/// The text of `Path::strip_prefix`.
pub uninterp spec fn remainder(path: Seq<char>, base: Seq<char>) -> Option<Seq<char>>;

/// `Path::strip_prefix` succeeds where the components of `base` are the first of
/// `path`, and gives the others. The text that it gives is named, not spelled out:
/// it is a part of `path`, with its separators as they stood there.
#[verifier::external_body]
pub(crate) fn strip_prefix(path: &str, base: &str) -> (r: Option<String>)
    ensures
        r is Some == remainder(path@, base@) is Some,
        r is Some == components(base@).is_prefix_of(components(path@)),
        r matches Some(t) ==> {
            &&& remainder(path@, base@) == Some(t@)
            &&& components(t@) == components(path@).skip(components(base@).len() as int)
        },
{
    std::path::Path::new(path).strip_prefix(base).ok().map(
        |p| p.to_string_lossy().into_owned(),
    )
}

/// The text of `Path::join`.
pub uninterp spec fn joined_path(base: Seq<char>, path: Seq<char>) -> Seq<char>;

/// `Path::join` gives `path` where it is absolute, and else a path with the
/// components of `base` and then those of `path`. The text of the latter is named,
/// not spelled out.
#[verifier::external_body]
pub(crate) fn join(base: &str, path: &str) -> (r: String)
    ensures
        r@ == joined_path(base@, path@),
        is_absolute(path@) ==> r@ == path@,
        !is_absolute(path@) && components(base@).len() > 0 ==> components(r@) == components(base@)
            + components_below(path@),
        components(base@).len() == 0 ==> components(r@) == components(path@),
{
    std::path::Path::new(base).join(path).to_string_lossy().into_owned()
}

/// The text of `Path::with_extension`.
pub uninterp spec fn path_with_extension(path: Seq<char>, ext: Seq<char>) -> Seq<char>;

/// `Path::with_extension`, for an extension that is not empty: a path without a
/// file name stays as it is, in any other the last component gets the extension
/// in place of its own. The text is named, not spelled out.
#[verifier::external_body]
pub(crate) fn with_extension(path: &str, ext: &str) -> (r: String)
    requires
        ext@.len() > 0,
        !ext@.contains('/'),
    ensures
        r@ == path_with_extension(path@, ext@),
        match file_name_of(path@) {
            Some(name) => components(r@) == components(path@).drop_last().push(
                renamed(name, ext@),
            ),
            None => r@ == path@,
        },
{
    std::path::Path::new(path).with_extension(ext).to_string_lossy().into_owned()
}

/// `Path::file_name` gives the last component, unless it is `/`, `.` or `..`.
#[verifier::external_body]
pub(crate) fn file_name(path: &str) -> (r: Option<String>)
    ensures
        match r {
            Some(name) => file_name_of(path@) == Some(name@),
            None => file_name_of(path@) is None,
        },
{
    std::path::Path::new(path).file_name().map(|n| n.to_string_lossy().into_owned())
}

/// `Path::extension` gives what follows the last `.` of the file name, unless that
/// `.` is its first character.
#[verifier::external_body]
pub(crate) fn extension(path: &str) -> (r: Option<String>)
    ensures
        match r {
            Some(ext) => file_name_of(path@) matches Some(name) && extension_of_name(name)
                == Some(ext@),
            None => file_name_of(path@) matches Some(name) ==> extension_of_name(name) is None,
        },
{
    std::path::Path::new(path).extension().map(|e| e.to_string_lossy().into_owned())
}

/// `==` of two `Path`s holds where they have the same components.
#[verifier::external_body]
pub(crate) fn same_path(a: &str, b: &str) -> (r: bool)
    ensures
        r == (components(a@) == components(b@)),
{
    std::path::Path::new(a) == std::path::Path::new(b)
}

/// The text of `Path::parent`.
pub uninterp spec fn parent_path(path: Seq<char>) -> Option<Seq<char>>;

/// `Path::parent` gives the path without its last component, and nothing where there
/// is no component or the last one is `/`. The text is named, not spelled out.
#[verifier::external_body]
pub(crate) fn parent(path: &str) -> (r: Option<String>)
    ensures
        r is Some == parent_path(path@) is Some,
        r is Some == (components(path@).len() > 0 && components(path@).last() != root()),
        r matches Some(t) ==> {
            &&& parent_path(path@) == Some(t@)
            &&& components(t@) == components(path@).drop_last()
        },
{
    std::path::Path::new(path).parent().map(|p| p.to_string_lossy().into_owned())
}

/// The extension that marks a file as not finished: `.tmp` behind the extension that
/// the path has.
pub open spec fn temporary_extension(path: Seq<char>) -> Seq<char> {
    match file_name_of(path) {
        Some(name) => match extension_of_name(name) {
            Some(ext) => ext + ".tmp"@,
            None => "tmp"@,
        },
        None => "tmp"@,
    }
}

/// The path under which the file at `path` is written before it is complete.
pub open spec fn temporary_of(path: Seq<char>) -> Seq<char> {
    path_with_extension(path, temporary_extension(path))
}

/// The path under which the file at `path` is written before it is complete. It
/// stands beside the file, under another name.
pub fn temporary_path(path: &str) -> (r: String)
    ensures
        r@ == temporary_of(path@),
        file_name_of(path@) matches Some(name) ==> {
            &&& components(r@) == components(path@).drop_last().push(
                renamed(name, temporary_extension(path@)),
            )
            &&& components(r@) != components(path@)
        },
{
    proof {
        reveal_strlit(".tmp");
        reveal_strlit("tmp");
        lemma_extension_holds_no_separator(path@);
    }
    let ext = match extension(path) {
        Some(ext) => {
            let mut e = ext;
            e.append(".tmp");
            proof {
                let old_ext = extension_of_name(file_name_of(path@).unwrap()).unwrap();
                assert(e@[old_ext.len() as int] == '.');
                assert(e@.contains('.'));
                if e@.contains('/') {
                    let j = choose|j: int| 0 <= j < e@.len() && e@[j] == '/';
                    assert(j < old_ext.len());
                    assert(old_ext[j] == '/');
                }
            }
            e
        },
        None => {
            assert(!"tmp"@.contains('/'));
            String::from_str("tmp")
        },
    };
    let r = with_extension(path, ext.as_str());
    proof {
        if let Some(name) = file_name_of(path@) {
            lemma_renamed_differs(name, ext@);
            assert(components(r@).last() != components(path@).last());
        }
    }
    r
}

/// The name of the temporary file is that of the file, with `.tmp` behind it.
pub proof fn law_temporary_name_adds_tmp(path: Seq<char>)
    ensures
        file_name_of(path) matches Some(name) ==> renamed(name, temporary_extension(path)) == name
            + ".tmp"@,
{
    reveal_strlit(".tmp");
    reveal_strlit("tmp");
    if let Some(name) = file_name_of(path) {
        lemma_last_dot_bounds(name);
        if let Some(ext) = extension_of_name(name) {
            assert(name =~= stem_of_name(name) + seq!['.'] + ext);
            assert(renamed(name, temporary_extension(path)) =~= name + ".tmp"@);
        } else {
            assert(renamed(name, temporary_extension(path)) =~= name + ".tmp"@);
        }
    }
}

proof fn lemma_last_dot_is_last(stem: Seq<char>, ext: Seq<char>)
    requires
        !ext.contains('.'),
    ensures
        last_dot(stem + seq!['.'] + ext) == Some(stem.len() as int),
    decreases ext.len(),
{
    let name = stem + seq!['.'] + ext;
    if ext.len() > 0 {
        assert(name.drop_last() =~= stem + seq!['.'] + ext.drop_last());
        assert(ext[ext.len() - 1] == name.last());
        assert(ext.contains(ext[ext.len() - 1]));
        assert forall|i: int| 0 <= i < ext.drop_last().len() implies ext.drop_last()[i] != '.' by {
            assert(ext.contains(ext[i]));
        }
        lemma_last_dot_is_last(stem, ext.drop_last());
    } else {
        assert(name =~= stem + seq!['.']);
    }
}

/// Only what follows the last `.` of a name is its extension, and only that is replaced.
pub proof fn law_only_the_last_extension_is_replaced(
    stem: Seq<char>,
    ext: Seq<char>,
    other: Seq<char>,
)
    requires
        stem.len() > 0,
        !ext.contains('.'),
    ensures
        extension_of_name(stem + seq!['.'] + ext) == Some(ext),
        renamed(stem + seq!['.'] + ext, other) == stem + seq!['.'] + other,
{
    let name = stem + seq!['.'] + ext;
    lemma_last_dot_is_last(stem, ext);
    assert(name.skip(stem.len() + 1 as int) =~= ext);
    assert(name.take(stem.len() as int) =~= stem);
}

proof fn lemma_pieces_of_names(s: Seq<char>, name: Seq<char>)
    requires
        !name.contains('/'),
    ensures
        pieces(s + seq!['/'] + name) == pieces(s).push(name),
    decreases name.len(),
{
    let all = s + seq!['/'] + name;
    if name.len() > 0 {
        let front = name.drop_last();
        assert(all.drop_last() =~= s + seq!['/'] + front);
        assert(name[name.len() - 1] == all.last());
        assert(name.contains(name[name.len() - 1]));
        assert forall|i: int| 0 <= i < front.len() implies front[i] != '/' by {
            assert(name.contains(name[i]));
        }
        lemma_pieces_of_names(s, front);
        assert(pieces(s).push(front).drop_last() =~= pieces(s));
        assert(front.push(name.last()) =~= name);
    } else {
        assert(all.drop_last() =~= s);
        assert(name =~= Seq::empty());
    }
}

/// One name more, behind a `/`, is one component more. An empty name and `.` are none.
pub proof fn law_names_are_components(p: Seq<char>, name: Seq<char>)
    requires
        p.len() > 0,
        !name.contains('/'),
    ensures
        name.len() > 0 && name != seq!['.'] ==> components(p + seq!['/'] + name) == components(
            p,
        ).push(name),
        name.len() == 0 || name == seq!['.'] ==> components(p + seq!['/'] + name) == components(p),
{
    reveal(Seq::filter);
    let pred = |piece: Seq<char>| is_name(piece);
    let all = p + seq!['/'] + name;
    lemma_pieces_of_names(p, name);
    lemma_pieces_hold_no_separator(p);
    assert(pieces(all).drop_last() =~= pieces(p));
    assert(pieces(all)[0] == pieces(p)[0]);
    assert(all[0] == p[0]);
    if is_name(name) {
        assert(pieces(all).filter(pred) == pieces(p).filter(pred).push(name));
        assert(components(all) =~= components(p).push(name));
    } else {
        assert(components(all) =~= components(p));
    }
}

} // verus!
