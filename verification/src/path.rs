//! Slash-separated archive paths and their components.

use vstd::prelude::*;

verus! {

/// A path is rooted when it begins with a slash.
pub open spec fn is_rooted(path: Seq<char>) -> bool {
    path.len() > 0 && path[0] == '/'
}

/// A component is a plain name unless it is `.` or `..`.
pub open spec fn is_plain_name(component: Seq<char>) -> bool {
    component != seq!['.'] && component != seq!['.', '.']
}

/// `current`, as the one component it is, unless it is empty.
pub open spec fn finished(current: Seq<char>) -> Seq<Seq<char>> {
    if current.len() == 0 {
        Seq::empty()
    } else {
        seq![current]
    }
}

/// The components of `text` when the component in progress is `current`: a
/// slash ends the component in progress, any other character extends it, and
/// empty components are left out.
pub open spec fn split(text: Seq<char>, current: Seq<char>) -> Seq<Seq<char>>
    decreases text.len(),
{
    if text.len() == 0 {
        finished(current)
    } else if text[0] == '/' {
        finished(current) + split(text.drop_first(), Seq::empty())
    } else {
        split(text.drop_first(), current.push(text[0]))
    }
}

/// The components of a path: its maximal runs of characters other than a
/// slash, in order.
pub open spec fn components(path: Seq<char>) -> Seq<Seq<char>> {
    split(path, Seq::empty())
}

/// The texts that a sequence of strings holds.
pub open spec fn texts(strings: Seq<String>) -> Seq<Seq<char>> {
    Seq::new(strings.len(), |i: int| strings[i]@)
}

/// Tells whether `path` begins with a slash.
pub fn starts_at_root(path: &str) -> (rooted: bool)
    ensures
        rooted == is_rooted(path@),
{
    path.unicode_len() > 0 && path.get_char(0) == '/'
}

/// Tells whether `component` is a plain name.
pub fn plain_name(component: &str) -> (plain: bool)
    ensures
        plain == is_plain_name(component@),
{
    let n = component.unicode_len();
    if n == 1 {
        let plain = component.get_char(0) != '.';
        assert(!plain ==> component@ =~= seq!['.']);
        plain
    } else if n == 2 {
        let plain = component.get_char(0) != '.' || component.get_char(1) != '.';
        assert(!plain ==> component@ =~= seq!['.', '.']);
        plain
    } else {
        true
    }
}

/// Splits `path` into its components.
pub fn split_path(path: &str) -> (parts: Vec<String>)
    ensures
        texts(parts@) == components(path@),
{
    let n = path.unicode_len();
    let mut parts: Vec<String> = Vec::new();
    let mut start: usize = 0;
    let mut i: usize = 0;
    assert(path@.skip(0) =~= path@);
    assert(path@.subrange(0, 0) =~= Seq::<char>::empty());
    assert(texts(parts@) =~= Seq::<Seq<char>>::empty());
    while i < n
        invariant
            n == path@.len(),
            start <= i <= n,
            components(path@) == texts(parts@) + split(
                path@.skip(i as int),
                path@.subrange(start as int, i as int),
            ),
        decreases n - i,
    {
        let ghost rest = path@.skip(i as int);
        let ghost current = path@.subrange(start as int, i as int);
        let ghost before = texts(parts@);
        assert(rest.drop_first() =~= path@.skip(i + 1));
        if path.get_char(i) == '/' {
            if start < i {
                parts.push(path.substring_char(start, i).to_owned());
                assert(texts(parts@) =~= before + finished(current));
            }
            start = i + 1;
            assert(path@.subrange(start as int, start as int) =~= Seq::<char>::empty());
        } else {
            assert(current.push(rest[0]) =~= path@.subrange(start as int, i + 1));
        }
        i = i + 1;
    }
    if start < n {
        let ghost before = texts(parts@);
        parts.push(path.substring_char(start, n).to_owned());
        assert(texts(parts@) =~= before + finished(path@.subrange(start as int, n as int)));
    }
    parts
}

} // verus!
