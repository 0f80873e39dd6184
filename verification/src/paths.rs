//! Path strings and the small pieces of lexical path logic the rest of the
//! crate builds on: joining, absolute-path tests, locating the last occurrence
//! of a separator or dot, and file-name extensions.

use vstd::prelude::*;
use vstd::string::*;

verus! {

/// The lexical join of two path strings: an empty tail leaves the base alone,
/// an absolute tail replaces the base, anything else is `base/tail`.
pub open spec fn join_path(base: Seq<char>, tail: Seq<char>) -> Seq<char> {
    if tail.len() == 0 {
        base
    } else if tail[0] == '/' {
        tail
    } else {
        base + seq!['/'] + tail
    }
}

pub open spec fn is_absolute(p: Seq<char>) -> bool {
    p.len() > 0 && p[0] == '/'
}

/// Joins `tail` onto `base` exactly as `join_path` describes.
pub fn path_join(base: &str, tail: &str) -> (r: String)
    ensures
        r@ == join_path(base@, tail@),
{
    let n = tail.unicode_len();
    if n == 0 {
        base.to_owned()
    } else if tail.get_char(0) == '/' {
        tail.to_owned()
    } else {
        let mut s = base.to_owned();
        s.append("/");
        proof {
            reveal_strlit("/");
            assert(s@ =~= base@ + seq!['/']);
        }
        s.append(tail);
        s
    }
}

pub fn path_is_absolute(p: &str) -> (r: bool)
    ensures
        r == is_absolute(p@),
{
    p.unicode_len() > 0 && p.get_char(0) == '/'
}

/// Drops the leading separator of an absolute path, giving the path relative
/// to the filesystem root.
pub fn strip_root(p: &str) -> (r: String)
    requires
        is_absolute(p@),
    ensures
        r@ == p@.skip(1),
{
    let n = p.unicode_len();
    p.substring_char(1, n).to_owned()
}

/// The index of the last occurrence of `c` in `s`, if any.
pub open spec fn last_index_of(s: Seq<char>, c: char) -> Option<int>
    decreases s.len(),
{
    if s.len() == 0 {
        None
    } else if s.last() == c {
        Some(s.len() - 1)
    } else {
        last_index_of(s.drop_last(), c)
    }
}

/// `last_index_of` returns exactly the rightmost occurrence, or `None` when
/// the character does not occur at all.
pub proof fn lemma_last_index_of(s: Seq<char>, c: char)
    ensures
        match last_index_of(s, c) {
            Some(i) => 0 <= i < s.len() && s[i] == c && forall|j: int| i < j < s.len() ==> s[j] != c,
            None => forall|j: int| 0 <= j < s.len() ==> s[j] != c,
        },
    decreases s.len(),
{
    if s.len() > 0 && s.last() != c {
        lemma_last_index_of(s.drop_last(), c);
        assert forall|j: int| 0 <= j < s.len() - 1 implies s.drop_last()[j] == s[j] by {}
    }
}

/// A position that holds `c` with no later occurrence is the one
/// `last_index_of` picks.
pub proof fn lemma_last_index_of_unique(s: Seq<char>, c: char, i: int)
    requires
        0 <= i < s.len(),
        s[i] == c,
        forall|j: int| i < j < s.len() ==> s[j] != c,
    ensures
        last_index_of(s, c) == Some(i),
    decreases s.len(),
{
    if i == s.len() - 1 {
    } else {
        assert(s.last() != c);
        assert forall|j: int| i < j < s.drop_last().len() implies s.drop_last()[j] != c by {}
        lemma_last_index_of_unique(s.drop_last(), c, i);
    }
}

/// Scans `s` from the right for `c`.
pub fn find_last(s: &str, c: char) -> (r: Option<usize>)
    ensures
        match r {
            Some(i) => last_index_of(s@, c) == Some(i as int),
            None => last_index_of(s@, c) is None,
        },
{
    proof {
        lemma_last_index_of(s@, c);
    }
    let n = s.unicode_len();
    let mut i: usize = n;
    while i > 0
        invariant
            i <= n,
            n == s@.len(),
            forall|j: int| i <= j < s@.len() ==> s@[j] != c,
        decreases i,
    {
        i = i - 1;
        if s.get_char(i) == c {
            proof {
                lemma_last_index_of_unique(s@, c, i as int);
            }
            return Some(i);
        }
    }
    None
}

/// The extension of a file name: what follows the last dot, provided that dot
/// is neither the first character (a hidden name such as `.tmp` has no
/// extension) nor absent.
pub open spec fn extension_of(name: Seq<char>) -> Option<Seq<char>> {
    match last_index_of(name, '.') {
        None => None,
        Some(i) => if i == 0 {
            None
        } else {
            Some(name.skip(i + 1))
        },
    }
}

/// Extracts the extension exactly as `extension_of` describes.
pub fn extension(name: &str) -> (r: Option<String>)
    ensures
        match r {
            Some(e) => extension_of(name@) == Some(e@),
            None => extension_of(name@) is None,
        },
{
    proof {
        lemma_last_index_of(name@, '.');
    }
    match find_last(name, '.') {
        None => None,
        Some(i) => {
            if i == 0 {
                None
            } else {
                let n = name.unicode_len();
                Some(name.substring_char(i + 1, n).to_owned())
            }
        },
    }
}

/// The final component of a path: what follows the last separator, or the
/// whole path when it has none.
pub open spec fn file_name_of(p: Seq<char>) -> Seq<char> {
    match last_index_of(p, '/') {
        None => p,
        Some(i) => p.skip(i + 1),
    }
}

/// The directory part of a path: what precedes the last separator, or `.`
/// when it has none.
pub open spec fn dir_name_of(p: Seq<char>) -> Seq<char> {
    match last_index_of(p, '/') {
        None => seq!['.'],
        Some(i) => p.take(i),
    }
}

/// Splits a path into its directory part and its final component.
pub fn split_dir_file(p: &str) -> (r: (String, String))
    ensures
        r.0@ == dir_name_of(p@),
        r.1@ == file_name_of(p@),
{
    proof {
        lemma_last_index_of(p@, '/');
    }
    match find_last(p, '/') {
        None => {
            proof {
                reveal_strlit(".");
                assert((".")@ =~= seq!['.']);
            }
            (".".to_owned(), p.to_owned())
        },
        Some(i) => {
            let n = p.unicode_len();
            (p.substring_char(0, i).to_owned(), p.substring_char(i + 1, n).to_owned())
        },
    }
}

/// The length of the leading separator-free run of `s`.
pub open spec fn component_len(s: Seq<char>) -> int
    decreases s.len(),
{
    if s.len() == 0 {
        0
    } else if s[0] == '/' {
        0
    } else {
        1 + component_len(s.skip(1))
    }
}

pub proof fn lemma_component_len_bounds(s: Seq<char>)
    ensures
        0 <= component_len(s) <= s.len(),
        forall|m: int| 0 <= m < component_len(s) ==> s[m] != '/',
        component_len(s) < s.len() ==> s[component_len(s)] == '/',
    decreases s.len(),
{
    if s.len() > 0 && s[0] != '/' {
        lemma_component_len_bounds(s.skip(1));
        assert forall|m: int| 0 <= m < component_len(s) implies s[m] != '/' by {
            if m > 0 {
                assert(s.skip(1)[m - 1] == s[m]);
            }
        }
        if component_len(s) < s.len() {
            assert(s.skip(1)[component_len(s) - 1] == s[component_len(s)]);
        }
    }
}

/// A run of characters without a separator is exactly one component long.
pub proof fn lemma_component_len_is(s: Seq<char>, k: int)
    requires
        0 <= k <= s.len(),
        forall|m: int| 0 <= m < k ==> s[m] != '/',
        k == s.len() || s[k] == '/',
    ensures
        component_len(s) == k,
    decreases s.len(),
{
    if s.len() > 0 && s[0] != '/' {
        assert(k >= 1);
        assert forall|m: int| 0 <= m < k - 1 implies s.skip(1)[m] != '/' by {
            assert(s.skip(1)[m] == s[m + 1]);
        }
        lemma_component_len_is(s.skip(1), k - 1);
    }
}

/// The components of a path: its maximal separator-free runs, in order.
/// Repeated separators contribute nothing.
pub open spec fn path_components(s: Seq<char>) -> Seq<Seq<char>>
    decreases s.len(),
    via path_components_decreases
{
    if s.len() == 0 {
        Seq::empty()
    } else if s[0] == '/' {
        path_components(s.skip(1))
    } else {
        seq![s.take(component_len(s))] + path_components(s.skip(component_len(s)))
    }
}

#[via_fn]
proof fn path_components_decreases(s: Seq<char>) {
    lemma_component_len_bounds(s);
}

/// Splits the tail of `s` from position `i` on, appending the components
/// to `acc`.
fn split_components_from(s: &str, i: usize, acc: &mut Vec<String>)
    requires
        i <= s@.len(),
    ensures
        final(acc).deep_view() == old(acc).deep_view() + path_components(s@.skip(i as int)),
    decreases s@.len() - i,
{
    let n = s.unicode_len();
    if i == n {
        proof {
            assert(acc.deep_view() =~= acc.deep_view() + path_components(s@.skip(i as int)));
        }
    } else if s.get_char(i) == '/' {
        proof {
            assert(s@.skip(i as int).skip(1) =~= s@.skip(i + 1));
        }
        split_components_from(s, i + 1, acc);
    } else {
        let ghost tail = s@.skip(i as int);
        let mut j = i + 1;
        while j < n && s.get_char(j) != '/'
            invariant
                i < j <= n,
                n == s@.len(),
                s@[i as int] != '/',
                forall|m: int| i <= m < j ==> s@[m] != '/',
            decreases n - j,
        {
            j = j + 1;
        }
        proof {
            assert forall|m: int| 0 <= m < j - i implies tail[m] != '/' by {
                assert(tail[m] == s@[i + m]);
            }
            if j < n {
                assert(tail[j - i] == s@[j as int]);
            }
            lemma_component_len_is(tail, j - i);
        }
        let comp = s.substring_char(i, j).to_owned();
        proof {
            assert(comp@ =~= tail.take(j - i));
        }
        let ghost before = acc.deep_view();
        acc.push(comp);
        proof {
            assert(acc.deep_view() =~= before.push(tail.take(j - i)));
            assert(tail.skip(j - i) =~= s@.skip(j as int));
        }
        split_components_from(s, j, acc);
        proof {
            assert(acc.deep_view() =~= before + path_components(tail));
        }
    }
}

/// The components of a path, as `path_components` describes them.
pub fn split_components(s: &str) -> (r: Vec<String>)
    ensures
        r.deep_view() == path_components(s@),
{
    let mut acc: Vec<String> = Vec::new();
    split_components_from(s, 0, &mut acc);
    proof {
        assert(s@.skip(0) =~= s@);
        assert(acc.deep_view() =~= path_components(s@));
    }
    acc
}

/// What one component does to the depth of a relative walk: `.` stays,
/// `..` climbs one level, anything else descends one.
pub open spec fn comp_delta(c: Seq<char>) -> int {
    if c == seq!['.'] {
        0
    } else if c == seq!['.', '.'] {
        -1
    } else {
        1
    }
}

/// The depth a walk of the components ends at, relative to its start.
pub open spec fn walk_depth(cs: Seq<Seq<char>>) -> int
    decreases cs.len(),
{
    if cs.len() == 0 {
        0
    } else {
        walk_depth(cs.drop_last()) + comp_delta(cs.last())
    }
}

/// A walk escapes when some prefix of it climbs above its start.
pub open spec fn escapes(cs: Seq<Seq<char>>) -> bool
    decreases cs.len(),
{
    if cs.len() == 0 {
        false
    } else {
        escapes(cs.drop_last()) || walk_depth(cs) < 0
    }
}

/// Once a prefix of the walk has escaped, the whole walk has.
pub proof fn lemma_escapes_prefix(cs: Seq<Seq<char>>, k: int)
    requires
        0 <= k <= cs.len(),
        escapes(cs.take(k)),
    ensures
        escapes(cs),
    decreases cs.len(),
{
    if k < cs.len() {
        assert(cs.drop_last().take(k) =~= cs.take(k));
        lemma_escapes_prefix(cs.drop_last(), k);
    } else {
        assert(cs.take(k) =~= cs);
    }
}

/// Walks the components, reporting whether they ever climb above the
/// start, exactly as `escapes` describes.
pub fn components_escape(comps: &Vec<String>) -> (r: bool)
    ensures
        r == escapes(comps.deep_view()),
{
    let dot: String = ".".to_owned();
    let dotdot: String = "..".to_owned();
    proof {
        reveal_strlit(".");
        reveal_strlit("..");
        assert(dot@ =~= seq!['.']);
        assert(dotdot@ =~= seq!['.', '.']);
    }
    let mut depth: usize = 0;
    let mut k: usize = 0;
    while k < comps.len()
        invariant
            k <= comps.len(),
            dot@ == seq!['.'],
            dotdot@ == seq!['.', '.'],
            !escapes(comps.deep_view().take(k as int)),
            depth as int == walk_depth(comps.deep_view().take(k as int)),
            depth <= k,
        decreases comps.len() - k,
    {
        proof {
            assert(comps.deep_view().take(k + 1).drop_last() =~= comps.deep_view().take(k as int));
            assert(comps.deep_view().take(k + 1).last() == comps[k as int]@);
        }
        if comps[k] == dotdot {
            if depth == 0 {
                proof {
                    lemma_escapes_prefix(comps.deep_view(), k + 1);
                }
                return true;
            }
            depth = depth - 1;
        } else if comps[k] == dot {
        } else {
            depth = depth + 1;
        }
        k = k + 1;
    }
    proof {
        assert(comps.deep_view().take(comps.len() as int) =~= comps.deep_view());
    }
    false
}

} // verus!
