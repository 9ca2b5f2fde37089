//! Deriving a book's name from the path of its archive.

use vstd::prelude::*;
use vstd::string::StrSliceExecFns;
use crate::text::chars_of;

verus! {

/// What follows the last `sep` in `s`; all of `s` where it holds no `sep`.
pub open spec fn after_last(s: Seq<char>, sep: char) -> Seq<char>
    decreases s.len(),
{
    if s.len() == 0 || s.last() == sep {
        Seq::empty()
    } else {
        after_last(s.drop_last(), sep).push(s.last())
    }
}

/// What precedes the first `sep` in `s`; all of `s` where it holds no `sep`.
pub open spec fn before_first(s: Seq<char>, sep: char) -> Seq<char>
    decreases s.len(),
{
    if s.len() == 0 || s.first() == sep {
        Seq::empty()
    } else {
        seq![s.first()] + before_first(s.drop_first(), sep)
    }
}

/// The name of the book stored at `path`: the last `/`-separated segment of the
/// path, cut at its first `.`.
///
/// Only the part before the *first* dot is kept, so `archive.tar.epub` is the
/// book `archive`.
pub open spec fn book_name(path: Seq<char>) -> Seq<char> {
    before_first(after_last(path, '/'), '.')
}

/// `after_last(s, sep)` is the one suffix of `s` that holds no `sep` and starts
/// right behind a `sep` or at the start of `s`.
pub proof fn lemma_after_last(s: Seq<char>, sep: char)
    ensures
        after_last(s, sep).len() <= s.len(),
        after_last(s, sep) == s.subrange(s.len() - after_last(s, sep).len(), s.len() as int),
        !after_last(s, sep).contains(sep),
        after_last(s, sep).len() < s.len() ==> s[s.len() - after_last(s, sep).len() - 1] == sep,
    decreases s.len(),
{
    if s.len() == 0 || s.last() == sep {
        assert(after_last(s, sep) =~= s.subrange(s.len() as int, s.len() as int));
    } else {
        let t = s.drop_last();
        lemma_after_last(t, sep);
        let a = after_last(t, sep);
        assert(a.push(s.last()) =~= s.subrange(s.len() - a.len() - 1, s.len() as int));
    }
}

/// `before_first(s, sep)` is the one prefix of `s` that holds no `sep` and ends
/// right before a `sep` or at the end of `s`.
pub proof fn lemma_before_first(s: Seq<char>, sep: char)
    ensures
        before_first(s, sep).len() <= s.len(),
        before_first(s, sep) == s.take(before_first(s, sep).len() as int),
        !before_first(s, sep).contains(sep),
        before_first(s, sep).len() < s.len() ==> s[before_first(s, sep).len() as int] == sep,
    decreases s.len(),
{
    if s.len() == 0 || s.first() == sep {
        assert(before_first(s, sep) =~= s.take(0));
    } else {
        let t = s.drop_first();
        lemma_before_first(t, sep);
        let h = before_first(t, sep);
        assert(seq![s.first()] + h =~= s.take(h.len() as int + 1));
        if h.len() + 1 < s.len() {
            assert(s[h.len() as int + 1] == t[h.len() as int]);
        }
    }
}

/// How `before_first` grows when one character is added at the end.
proof fn lemma_before_first_push(s: Seq<char>, c: char, sep: char)
    ensures
        before_first(s.push(c), sep) == if before_first(s, sep).len() == s.len() && c != sep {
            s.push(c)
        } else {
            before_first(s, sep)
        },
    decreases s.len(),
{
    let t = s.push(c);
    if s.len() == 0 {
        assert(t.first() == c);
        assert(t.drop_first() =~= Seq::<char>::empty());
        assert(before_first(Seq::<char>::empty(), sep) =~= Seq::<char>::empty());
        assert(before_first(s, sep) =~= Seq::<char>::empty());
        assert(seq![c] + Seq::<char>::empty() =~= t);
    } else if s.first() == sep {
        assert(t.first() == sep);
    } else {
        lemma_before_first_push(s.drop_first(), c, sep);
        assert(t.first() == s.first());
        assert(t.drop_first() =~= s.drop_first().push(c));
        assert(seq![s.first()] + s.drop_first().push(c) =~= t);
        assert(seq![s.first()] + s.drop_first() =~= s);
    }
}

/// A book's name holds neither a `/` nor a `.`, and stands inside the path it
/// was taken from: right behind the last `/`, up to the first `.` after it.
pub proof fn lemma_book_name(path: Seq<char>)
    ensures
        !book_name(path).contains('/'),
        !book_name(path).contains('.'),
        book_name(path).len() <= after_last(path, '/').len() <= path.len(),
        book_name(path) == path.subrange(
            path.len() - after_last(path, '/').len(),
            path.len() - after_last(path, '/').len() + book_name(path).len(),
        ),
{
    let file = after_last(path, '/');
    lemma_after_last(path, '/');
    lemma_before_first(file, '.');
    let name = book_name(path);
    assert forall|i: int| 0 <= i < name.len() implies name[i] != '/' by {
        assert(name[i] == file[i]);
        assert(file.contains(file[i]));
    }
    assert(name =~= path.subrange(path.len() - file.len(), path.len() - file.len() + name.len()));
}

/// Get a file's name without its directories and without its extension:
/// `/path/to/file.txt` becomes `file`.
pub fn strip_filename(filename: &str) -> (name: String)
    ensures
        name@ == book_name(filename@),
{
    let chars = chars_of(filename);
    let mut file_len: usize = 0;
    let mut name_len: usize = 0;
    let mut i: usize = 0;
    while i < chars.len()
        invariant
            i <= chars.len(),
            file_len == after_last(chars@.take(i as int), '/').len(),
            name_len == book_name(chars@.take(i as int)).len(),
            name_len <= file_len <= i,
        decreases chars.len() - i,
    {
        let c = chars[i];
        proof {
            let before = chars@.take(i as int);
            let after = chars@.take(i + 1);
            assert(after.drop_last() == before);
            assert(after.last() == c);
            let file = after_last(before, '/');
            if c != '/' {
                assert(after_last(after, '/') == file.push(c));
                lemma_before_first_push(file, c, '.');
            }
        }
        if c == '/' {
            file_len = 0;
            name_len = 0;
        } else {
            if c != '.' && name_len == file_len {
                name_len = name_len + 1;
            }
            file_len = file_len + 1;
        }
        i = i + 1;
    }
    proof {
        assert(chars@.take(chars@.len() as int) == chars@);
        lemma_book_name(filename@);
    }
    let start = chars.len() - file_len;
    filename.substring_char(start, start + name_len).to_owned()
}

} // verus!
