//! Turning the name an archive stores for an entry into a path that cannot
//! leave the directory it is extracted into.
//!
//! A stored name is cut into pieces at every `/` and `\`. The pieces are then
//! walked from left to right: an empty piece and `.` change nothing, `..` gives
//! up the last component gathered so far, and any other piece becomes a new
//! component. A name is refused when it holds a NUL, starts with a separator,
//! climbs above its starting point at any moment, or ends up naming the
//! starting point itself.

use vstd::prelude::*;
use vstd::string::{StrSliceExecFns, StringExecFns};
use crate::text::chars_of;

verus! {

/// Both the forward slash and the backslash separate the pieces of a stored name.
pub open spec fn is_separator(c: char) -> bool {
    c == '/' || c == '\\'
}

/// The pieces of `s` between its separators: `n` separators give `n + 1` pieces.
pub open spec fn pieces(s: Seq<char>) -> Seq<Seq<char>>
    decreases s.len(),
{
    if s.len() == 0 {
        seq![Seq::empty()]
    } else {
        let before = pieces(s.drop_last());
        if is_separator(s.last()) {
            before.push(Seq::empty())
        } else {
            before.drop_last().push(before.last().push(s.last()))
        }
    }
}

/// The piece that names the directory itself.
pub open spec fn current_dir() -> Seq<char> {
    seq!['.']
}

/// The piece that names the directory above.
pub open spec fn parent_dir() -> Seq<char> {
    seq!['.', '.']
}

/// Whether a piece becomes a component of the path, rather than steering the walk.
pub open spec fn is_component(piece: Seq<char>) -> bool {
    piece.len() > 0 && piece != current_dir() && piece != parent_dir()
}

/// What one piece does to the components gathered so far; `None` where the
/// piece would climb above the starting point.
pub open spec fn descend(stack: Seq<Seq<char>>, piece: Seq<char>) -> Option<Seq<Seq<char>>> {
    if piece == parent_dir() {
        if stack.len() == 0 {
            None
        } else {
            Some(stack.drop_last())
        }
    } else if is_component(piece) {
        Some(stack.push(piece))
    } else {
        Some(stack)
    }
}

/// The components left after walking all of `ps`; `None` where the walk climbs
/// above its starting point at any moment.
pub open spec fn resolve(ps: Seq<Seq<char>>) -> Option<Seq<Seq<char>>>
    decreases ps.len(),
{
    if ps.len() == 0 {
        Some(Seq::empty())
    } else {
        match resolve(ps.drop_last()) {
            Some(stack) => descend(stack, ps.last()),
            None => None,
        }
    }
}

/// The components of the path that a stored name stands for, or `None` where
/// the name is refused.
pub open spec fn normalize(name: Seq<char>) -> Option<Seq<Seq<char>>> {
    if name.contains('\0') || (name.len() > 0 && is_separator(name.first())) {
        None
    } else {
        match resolve(pieces(name)) {
            Some(components) => if components.len() > 0 {
                Some(components)
            } else {
                None
            },
            None => None,
        }
    }
}

/// A stored name that ends with a separator marks a directory.
pub open spec fn is_directory_marker(name: Seq<char>) -> bool {
    name.len() > 0 && is_separator(name.last())
}

/// The components joined by `/`.
pub open spec fn joined(components: Seq<Seq<char>>) -> Seq<char>
    decreases components.len(),
{
    if components.len() == 0 {
        Seq::empty()
    } else if components.len() == 1 {
        components.last()
    } else {
        joined(components.drop_last()) + seq!['/'] + components.last()
    }
}

/// The path of what lies at `components` below `root`. An empty `root` stands
/// for the working directory, and no components for `root` itself.
pub open spec fn path_under(root: Seq<char>, components: Seq<Seq<char>>) -> Seq<char> {
    if components.len() == 0 {
        root
    } else if root.len() == 0 {
        joined(components)
    } else {
        root + seq!['/'] + joined(components)
    }
}

/// A name is always cut into at least one piece.
pub proof fn lemma_pieces_nonempty(s: Seq<char>)
    ensures
        pieces(s).len() >= 1,
    decreases s.len(),
{
    if s.len() > 0 {
        lemma_pieces_nonempty(s.drop_last());
    }
}

/// How the pieces change when one character is added at the end of a name.
pub proof fn lemma_pieces_push(s: Seq<char>, c: char)
    ensures
        pieces(s).len() >= 1,
        is_separator(c) ==> pieces(s.push(c)) == pieces(s).push(Seq::empty()),
        !is_separator(c) ==> pieces(s.push(c)) == pieces(s).drop_last().push(
            pieces(s).last().push(c),
        ),
{
    lemma_pieces_nonempty(s);
    assert(s.push(c).drop_last() == s);
    assert(s.push(c).last() == c);
}

/// A component that is safe to hand to a file system: it is no empty name, no
/// `.` and no `..`, and holds neither a separator nor a NUL.
pub open spec fn is_plain(component: Seq<char>) -> bool {
    &&& is_component(component)
    &&& forall|i: int|
        0 <= i < component.len() ==> !is_separator(#[trigger] component[i]) && component[i] != '\0'
}

/// Whether every component is plain.
pub open spec fn all_plain(components: Seq<Seq<char>>) -> bool {
    forall|i: int| 0 <= i < components.len() ==> is_plain(#[trigger] components[i])
}

/// How far below its starting point a walk along `ps` ends: every component
/// goes one level down and every `..` one level up.
pub open spec fn depth(ps: Seq<Seq<char>>) -> int
    decreases ps.len(),
{
    if ps.len() == 0 {
        0
    } else if ps.last() == parent_dir() {
        depth(ps.drop_last()) - 1
    } else if is_component(ps.last()) {
        depth(ps.drop_last()) + 1
    } else {
        depth(ps.drop_last())
    }
}

/// A walk escapes where, at some moment, it stands above its starting point.
pub open spec fn escapes(ps: Seq<Seq<char>>) -> bool {
    exists|k: int| 0 <= k <= ps.len() && depth(#[trigger] ps.take(k)) < 0
}

/// No piece holds a separator, and every character of a piece is one of the name.
pub proof fn lemma_pieces_chars(s: Seq<char>)
    ensures
        forall|i: int, j: int|
            0 <= i < pieces(s).len() && 0 <= j < pieces(s)[i].len() ==> !is_separator(
                #[trigger] pieces(s)[i][j],
            ) && s.contains(pieces(s)[i][j]),
    decreases s.len(),
{
    if s.len() > 0 {
        let t = s.drop_last();
        lemma_pieces_chars(t);
        lemma_pieces_nonempty(t);
        assert forall|i: int, j: int|
            0 <= i < pieces(s).len() && 0 <= j < pieces(s)[i].len() implies !is_separator(
            #[trigger] pieces(s)[i][j],
        ) && s.contains(pieces(s)[i][j]) by {
            let c = pieces(s)[i][j];
            if !is_separator(s.last()) && i == pieces(s).len() - 1 && j == pieces(s)[i].len() - 1 {
                assert(c == s.last());
                assert(s[s.len() - 1] == c);
            } else {
                assert(c == pieces(t)[i][j]);
                assert(t.contains(c));
                let k = choose|k: int| 0 <= k < t.len() && t[k] == c;
                assert(s[k] == c);
            }
        }
    }
}

/// A walk that succeeds has succeeded at every moment before.
pub proof fn lemma_resolve_prefix(ps: Seq<Seq<char>>, k: int)
    requires
        0 <= k <= ps.len(),
        resolve(ps) is Some,
    ensures
        resolve(ps.take(k)) is Some,
    decreases ps.len(),
{
    if k == ps.len() {
        assert(ps.take(k) == ps);
    } else {
        assert(ps.drop_last().take(k) == ps.take(k));
        lemma_resolve_prefix(ps.drop_last(), k);
    }
}

/// What a walk gathers are components among the pieces it walked along, as
/// many as it ends below its starting point.
pub proof fn lemma_resolve_components(ps: Seq<Seq<char>>)
    requires
        resolve(ps) is Some,
    ensures
        resolve(ps)->0.len() == depth(ps),
        forall|i: int|
            0 <= i < resolve(ps)->0.len() ==> is_component(#[trigger] resolve(ps)->0[i])
                && ps.contains(resolve(ps)->0[i]),
    decreases ps.len(),
{
    if ps.len() > 0 {
        let before = ps.drop_last();
        lemma_resolve_components(before);
        let stack = resolve(before)->0;
        let after = resolve(ps)->0;
        assert forall|i: int| 0 <= i < after.len() implies is_component(#[trigger] after[i])
            && ps.contains(after[i]) by {
            if i < stack.len() {
                assert(after[i] == stack[i]);
                let j = choose|j: int| 0 <= j < before.len() && before[j] == stack[i];
                assert(ps[j] == after[i]);
            } else {
                assert(after[i] == ps.last());
                assert(ps[ps.len() - 1] == after[i]);
            }
        }
    }
}

/// A walk is refused exactly where it escapes.
pub proof fn lemma_escape_is_refused(ps: Seq<Seq<char>>)
    ensures
        escapes(ps) <==> resolve(ps) is None,
    decreases ps.len(),
{
    if resolve(ps) is Some {
        assert forall|k: int| 0 <= k <= ps.len() implies depth(#[trigger] ps.take(k)) >= 0 by {
            lemma_resolve_prefix(ps, k);
            lemma_resolve_components(ps.take(k));
        }
    } else {
        let before = ps.drop_last();
        if resolve(before) is None {
            lemma_escape_is_refused(before);
            let k = choose|k: int| 0 <= k <= before.len() && depth(#[trigger] before.take(k)) < 0;
            assert(ps.take(k) == before.take(k));
        } else {
            lemma_resolve_components(before);
            assert(ps.take(ps.len() as int) == ps);
        }
    }
}

/// A stored name whose path escapes, such as `../x` or `a/../../x`, is refused.
pub proof fn lemma_escaping_name_is_refused(name: Seq<char>)
    requires
        escapes(pieces(name)),
    ensures
        normalize(name) is None,
{
    lemma_escape_is_refused(pieces(name));
}

/// A stored name that starts with a separator, as an absolute path does, is refused.
pub proof fn lemma_absolute_name_is_refused(name: Seq<char>)
    requires
        name.len() > 0,
        is_separator(name.first()),
    ensures
        normalize(name) is None,
{
}

/// What a stored name is normalized into is never empty and made of plain
/// components only: no `.`, no `..`, no separator and no NUL is left in it.
pub proof fn lemma_normalized_is_plain(name: Seq<char>)
    requires
        normalize(name) is Some,
    ensures
        normalize(name)->0.len() > 0,
        all_plain(normalize(name)->0),
{
    let ps = pieces(name);
    let components = normalize(name)->0;
    lemma_resolve_components(ps);
    lemma_pieces_chars(name);
    assert forall|i: int| 0 <= i < components.len() implies is_plain(#[trigger] components[i]) by {
        let c = components[i];
        let j = choose|j: int| 0 <= j < ps.len() && ps[j] == c;
        assert forall|k: int| 0 <= k < c.len() implies !is_separator(#[trigger] c[k]) && c[k]
            != '\0' by {
            assert(c[k] == pieces(name)[j][k]);
            assert(name.contains(c[k]));
        }
    }
}

/// How the pieces change when text without a separator is added at the end of
/// a name: the last piece grows by that text.
pub proof fn lemma_pieces_append(s: Seq<char>, t: Seq<char>)
    requires
        forall|i: int| 0 <= i < t.len() ==> !is_separator(#[trigger] t[i]),
    ensures
        pieces(s).len() >= 1,
        pieces(s + t) == pieces(s).drop_last().push(pieces(s).last() + t),
    decreases t.len(),
{
    lemma_pieces_nonempty(s);
    if t.len() == 0 {
        assert(s + t == s);
        assert(pieces(s).last() + t == pieces(s).last());
        assert(pieces(s).drop_last().push(pieces(s).last()) == pieces(s));
    } else {
        let shorter = t.drop_last();
        lemma_pieces_append(s, shorter);
        lemma_pieces_push(s + shorter, t.last());
        assert((s + shorter).push(t.last()) == s + t);
        assert((pieces(s).last() + shorter).push(t.last()) == pieces(s).last() + t);
    }
}

/// Cutting what was joined gives the components back.
pub proof fn lemma_pieces_of_joined(components: Seq<Seq<char>>)
    requires
        components.len() > 0,
        all_plain(components),
    ensures
        pieces(joined(components)) == components,
        joined(components).len() > 0,
        joined(components).first() == components.first().first(),
        forall|i: int|
            0 <= i < joined(components).len() ==> #[trigger] joined(components)[i] != '\0',
    decreases components.len(),
{
    let last = components.last();
    assert(is_plain(last));
    if components.len() == 1 {
        let none = Seq::<char>::empty();
        lemma_pieces_append(none, last);
        assert(none + last == last);
        assert(pieces(none) == seq![none]);
        assert(seq![none].drop_last().push(none + last) == components);
    } else {
        let before = components.drop_last();
        assert forall|i: int| 0 <= i < before.len() implies is_plain(#[trigger] before[i]) by {
            assert(before[i] == components[i]);
        }
        lemma_pieces_of_joined(before);
        let head = joined(before);
        lemma_pieces_push(head, '/');
        lemma_pieces_append(head.push('/'), last);
        assert(head.push('/') + last == joined(components));
        assert(before.push(Seq::empty()).drop_last() == before);
        assert(Seq::<char>::empty() + last == last);
        assert(before.push(last) == components);
        assert(before.first() == components.first());
    }
}

/// A walk along components alone gathers them all.
pub proof fn lemma_resolve_of_components(components: Seq<Seq<char>>)
    requires
        forall|i: int| 0 <= i < components.len() ==> is_component(#[trigger] components[i]),
    ensures
        resolve(components) == Some(components),
    decreases components.len(),
{
    if components.len() > 0 {
        let before = components.drop_last();
        assert forall|i: int| 0 <= i < before.len() implies is_component(#[trigger] before[i]) by {
            assert(before[i] == components[i]);
        }
        lemma_resolve_of_components(before);
        assert(is_component(components.last()));
        assert(before.push(components.last()) == components);
    }
}

/// The path that plain components are joined into is a name that is
/// normalized into these very components: read again, it leads nowhere else.
pub proof fn lemma_joined_is_normal(components: Seq<Seq<char>>)
    requires
        components.len() > 0,
        all_plain(components),
    ensures
        normalize(joined(components)) == Some(components),
{
    lemma_pieces_of_joined(components);
    assert forall|i: int| 0 <= i < components.len() implies is_component(
        #[trigger] components[i],
    ) by {
        assert(is_plain(components[i]));
    }
    lemma_resolve_of_components(components);
    let name = joined(components);
    assert(is_plain(components.first()));
    assert(!is_separator(components.first()[0]));
}

/// Below a destination that is named, every path starts with the name of the
/// destination and a `/`, and goes on with the components joined.
pub proof fn lemma_path_starts_with_root(root: Seq<char>, components: Seq<Seq<char>>)
    requires
        root.len() > 0,
        components.len() > 0,
    ensures
        (root + seq!['/']).is_prefix_of(path_under(root, components)),
        path_under(root, components).skip(root.len() as int + 1) == joined(components),
{
    let path = path_under(root, components);
    assert(path.subrange(0, root.len() as int + 1) == root + seq!['/']);
}

fn is_separator_char(c: char) -> (r: bool)
    ensures
        r == is_separator(c),
{
    c == '/' || c == '\\'
}

/// Applies the piece `name[from..to]` to the components gathered so far.
/// Returns `false`, and leaves `stack` as it was, where the piece would climb
/// above the start.
fn descend_into(
    stack: &mut Vec<String>,
    name: &str,
    chars: &Vec<char>,
    from: usize,
    to: usize,
) -> (ok: bool)
    requires
        chars@ == name@,
        from <= to <= chars.len(),
    ensures
        match descend(old(stack).deep_view(), name@.subrange(from as int, to as int)) {
            Some(next) => ok && final(stack).deep_view() == next,
            None => !ok && *final(stack) == *old(stack),
        },
{
    let ghost piece = name@.subrange(from as int, to as int);
    let n = to - from;
    assert(piece.len() == n);
    if n == 2 && chars[from] == '.' && chars[from + 1] == '.' {
        assert(piece =~= parent_dir());
        if stack.len() == 0 {
            assert(stack.deep_view().len() == 0);
            false
        } else {
            let ghost before = stack.deep_view();
            stack.pop();
            assert(stack.deep_view() =~= before.drop_last());
            true
        }
    } else if n == 0 || (n == 1 && chars[from] == '.') {
        assert(n == 1 ==> piece =~= current_dir());
        assert(piece != parent_dir());
        true
    } else {
        assert(piece != parent_dir()) by {
            if piece == parent_dir() {
                assert(piece.len() == 2);
                assert(piece[0] == '.' && piece[1] == '.');
            }
        }
        assert(piece != current_dir()) by {
            if piece == current_dir() {
                assert(piece.len() == 1);
                assert(piece[0] == '.');
            }
        }
        let ghost before = stack.deep_view();
        stack.push(name.substring_char(from, to).to_owned());
        assert(stack.deep_view() =~= before.push(piece));
        true
    }
}

/// The first `count` components joined by `/`.
fn join(components: &Vec<String>, count: usize) -> (path: String)
    requires
        count <= components.len(),
    ensures
        path@ == joined(components.deep_view().take(count as int)),
{
    let mut path = String::new();
    let mut i: usize = 0;
    while i < count
        invariant
            i <= count <= components.len(),
            path@ == joined(components.deep_view().take(i as int)),
        decreases count - i,
    {
        proof {
            let before = components.deep_view().take(i as int);
            let after = components.deep_view().take(i + 1);
            assert(after.drop_last() == before);
            assert(after.last() == components[i as int]@);
            if i == 0 {
                assert(path@ + components[i as int]@ == components[i as int]@);
            }
            reveal_strlit("/");
            assert("/"@ == seq!['/']);
        }
        if i > 0 {
            path.append("/");
        }
        path.append(components[i].as_str());
        assert(path@ == joined(components.deep_view().take(i + 1)));
        i = i + 1;
    }
    path
}

/// The path of what lies at the first `count` components below `root`.
fn join_under(root: &str, components: &Vec<String>, count: usize) -> (path: String)
    requires
        count <= components.len(),
    ensures
        path@ == path_under(root@, components.deep_view().take(count as int)),
{
    let below = join(components, count);
    if count == 0 {
        root.to_owned()
    } else if root.is_empty() {
        below
    } else {
        proof {
            reveal_strlit("/");
            assert("/"@ == seq!['/']);
        }
        let mut path = root.to_owned();
        path.append("/");
        path.append(below.as_str());
        path
    }
}

/// A path below a destination directory: one plain component or more.
///
/// A value of this type is made from a stored name only, by [`RelPath::parse`],
/// and nothing changes it afterwards. So whatever is joined onto a destination
/// from it lies below that destination.
#[derive(Debug, PartialEq, Eq)]
pub struct RelPath {
    components: Vec<String>,
}

impl View for RelPath {
    type V = Seq<Seq<char>>;

    closed spec fn view(&self) -> Seq<Seq<char>> {
        self.components.deep_view()
    }
}

impl RelPath {
    #[verifier::type_invariant]
    spec fn plain(&self) -> bool {
        self@.len() > 0 && all_plain(self@)
    }

    /// Normalizes the name that an archive stores for an entry into a path
    /// below the destination, or refuses it.
    pub fn parse(name: &str) -> (r: Option<RelPath>)
        ensures
            match r {
                Some(path) => normalize(name@) == Some(path@),
                None => normalize(name@) is None,
            },
    {
        let chars = chars_of(name);
        let n = chars.len();
        if n > 0 && is_separator_char(chars[0]) {
            return None;
        }
        let mut stack: Vec<String> = Vec::new();
        let mut start: usize = 0;
        let mut climbed = false;
        let mut has_nul = false;
        let mut i: usize = 0;
        assert(stack.deep_view() =~= Seq::<Seq<char>>::empty());
        assert(chars@.take(0) =~= Seq::<char>::empty());
        assert(pieces(chars@.take(0)).drop_last() =~= Seq::<Seq<char>>::empty());
        assert(pieces(chars@.take(0)).last() =~= chars@.subrange(0, 0));
        while i < n
            invariant
                n == chars.len(),
                chars@ == name@,
                start <= i <= n,
                pieces(chars@.take(i as int)).len() >= 1,
                pieces(chars@.take(i as int)).last() == chars@.subrange(start as int, i as int),
                climbed ==> resolve(pieces(chars@.take(i as int)).drop_last()) is None,
                !climbed ==> resolve(pieces(chars@.take(i as int)).drop_last()) == Some(
                    stack.deep_view(),
                ),
                has_nul == chars@.take(i as int).contains('\0'),
            decreases n - i,
        {
            let c = chars[i];
            proof {
                let before = chars@.take(i as int);
                let after = chars@.take(i + 1);
                let piece = chars@.subrange(start as int, i as int);
                assert(after == before.push(c));
                lemma_pieces_push(before, c);
                if is_separator(c) {
                    assert(pieces(after).drop_last() == pieces(before));
                    assert(pieces(before).drop_last().push(piece) == pieces(before));
                    assert(pieces(after).last() =~= chars@.subrange(i + 1, i + 1));
                } else {
                    assert(pieces(after).drop_last() == pieces(before).drop_last());
                    assert(piece.push(c) =~= chars@.subrange(start as int, i + 1));
                }
                if c == '\0' {
                    assert(after[i as int] == '\0');
                } else if after.contains('\0') {
                    let j = choose|j: int| 0 <= j < after.len() && after[j] == '\0';
                    assert(before[j] == '\0');
                } else if before.contains('\0') {
                    let j = choose|j: int| 0 <= j < before.len() && before[j] == '\0';
                    assert(after[j] == '\0');
                }
            }
            if c == '\0' {
                has_nul = true;
            }
            if is_separator_char(c) {
                if !climbed {
                    climbed = !descend_into(&mut stack, name, &chars, start, i);
                }
                start = i + 1;
            }
            i = i + 1;
        }
        proof {
            assert(chars@.take(n as int) == chars@);
            let ps = pieces(chars@);
            assert(ps.drop_last().push(ps.last()) == ps);
        }
        if !climbed {
            climbed = !descend_into(&mut stack, name, &chars, start, n);
        }
        if climbed || has_nul || stack.len() == 0 {
            assert(stack.len() == 0 ==> stack.deep_view().len() == 0);
            None
        } else {
            proof {
                assert(stack.deep_view().len() == stack.len());
                lemma_normalized_is_plain(name@);
            }
            Some(RelPath { components: stack })
        }
    }

    /// The components of the path, from the destination downwards. There is
    /// at least one, and each of them is plain.
    pub fn components(&self) -> (components: &Vec<String>)
        ensures
            components.deep_view() == self@,
            self@.len() > 0,
            all_plain(self@),
    {
        proof {
            use_type_invariant(self);
        }
        &self.components
    }

    /// The path joined onto `root`.
    pub fn below(&self, root: &str) -> (path: String)
        ensures
            path@ == path_under(root@, self@),
    {
        let n = self.components.len();
        assert(self.components.deep_view().take(n as int) == self.components.deep_view());
        join_under(root, &self.components, n)
    }

    /// The directory that holds the path, joined onto `root`: for a path of one
    /// component, `root` itself.
    pub fn parent_below(&self, root: &str) -> (path: String)
        ensures
            path@ == path_under(root@, self@.drop_last()),
    {
        proof {
            use_type_invariant(self);
        }
        let n = self.components.len();
        assert(self.components.deep_view().take(n - 1) == self.components.deep_view().drop_last());
        join_under(root, &self.components, n - 1)
    }
}

/// Whether a stored name marks a directory.
pub fn ends_with_separator(name: &str) -> (r: bool)
    ensures
        r == is_directory_marker(name@),
{
    let chars = chars_of(name);
    let n = chars.len();
    n > 0 && is_separator_char(chars[n - 1])
}

} // verus!
