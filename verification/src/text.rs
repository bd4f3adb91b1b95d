//! Character-level text predicates: substring search and the extension of a path.

use vstd::prelude::*;

verus! {

/// `needle` stands in `haystack` at position `at`.
pub open spec fn occurs_at(haystack: Seq<char>, needle: Seq<char>, at: int) -> bool {
    &&& 0 <= at
    &&& at + needle.len() <= haystack.len()
    &&& haystack.subrange(at, at + needle.len()) == needle
}

/// `needle` stands somewhere in `haystack`.
pub open spec fn has_substring(haystack: Seq<char>, needle: Seq<char>) -> bool {
    exists|at: int| occurs_at(haystack, needle, at)
}

/// `haystack` ends with `suffix`.
pub open spec fn has_suffix(haystack: Seq<char>, suffix: Seq<char>) -> bool {
    occurs_at(haystack, suffix, haystack.len() - suffix.len())
}

/// The greatest index at which `c` stands in `s`, or -1 where it stands nowhere.
pub open spec fn last_index(s: Seq<char>, c: char) -> int
    decreases s.len(),
{
    if s.len() == 0 {
        -1
    } else if s.last() == c {
        s.len() - 1
    } else {
        last_index(s.drop_last(), c)
    }
}

/// The length of `path` once the slashes at its end are taken off.
pub open spec fn trimmed_len(path: Seq<char>) -> int
    decreases path.len(),
{
    if path.len() > 0 && path.last() == '/' {
        trimmed_len(path.drop_last())
    } else {
        path.len() as int
    }
}

/// The last segment of `path`, slashes at the end of the path set aside.
pub open spec fn file_name(path: Seq<char>) -> Seq<char> {
    let trimmed = path.take(trimmed_len(path));
    trimmed.skip(last_index(trimmed, '/') + 1)
}

/// The extension of `path`: what follows the last dot of its file name. A file name without a
/// dot has none, and neither has one whose only dot is its first character.
pub open spec fn extension_of(path: Seq<char>) -> Option<Seq<char>> {
    let name = file_name(path);
    let dot = last_index(name, '.');
    if dot > 0 {
        Some(name.skip(dot + 1))
    } else {
        None
    }
}

/// The characters of a list of strings.
pub open spec fn texts(list: Seq<String>) -> Seq<Seq<char>> {
    list.map_values(|s: String| s@)
}

/// A string that contains `middle` contains whatever `middle` contains.
pub proof fn lemma_substring_transitive(outer: Seq<char>, middle: Seq<char>, inner: Seq<char>)
    requires
        has_substring(outer, middle),
        has_substring(middle, inner),
    ensures
        has_substring(outer, inner),
{
    let i = choose|at: int| occurs_at(outer, middle, at);
    let j = choose|at: int| occurs_at(middle, inner, at);
    assert(outer.subrange(i + j, i + j + inner.len()) =~= middle.subrange(j, j + inner.len()));
    assert(occurs_at(outer, inner, i + j));
}

/// A suffix is a substring.
pub proof fn lemma_suffix_is_substring(haystack: Seq<char>, suffix: Seq<char>)
    requires
        has_suffix(haystack, suffix),
    ensures
        has_substring(haystack, suffix),
{
    assert(occurs_at(haystack, suffix, haystack.len() - suffix.len()));
}

/// The characters of a string slice.
pub fn to_chars(s: &str) -> (v: Vec<char>)
    ensures
        v@ == s@,
{
    let mut v: Vec<char> = Vec::new();
    for c in it: s.chars()
        invariant
            v@ == it.seq().take(it.index() as int),
            it.seq() == s@,
    {
        v.push(c);
    }
    v
}

/// Tells whether `list` holds a string with the characters of `s`.
pub fn holds_text(list: &Vec<String>, s: &String) -> (r: bool)
    ensures
        r == texts(list@).contains(s@),
{
    let mut i: usize = 0;
    while i < list.len()
        invariant
            i <= list@.len(),
            forall|j: int| 0 <= j < i ==> texts(list@)[j] != s@,
        decreases list@.len() - i,
    {
        if list[i] == *s {
            assert(texts(list@)[i as int] == s@);
            return true;
        }
        i += 1;
    }
    false
}

/// Tells whether `needle` stands in `haystack` at `at`.
pub fn starts_at(haystack: &Vec<char>, needle: &Vec<char>, at: usize) -> (r: bool)
    ensures
        r == occurs_at(haystack@, needle@, at as int),
{
    if needle.len() > haystack.len() || at > haystack.len() - needle.len() {
        return false;
    }
    let mut k: usize = 0;
    while k < needle.len()
        invariant
            k <= needle.len(),
            at + needle.len() <= haystack.len(),
            forall|j: int| 0 <= j < k ==> haystack@[at + j] == needle@[j],
        decreases needle.len() - k,
    {
        if haystack[at + k] != needle[k] {
            proof {
                let window = haystack@.subrange(at as int, at + needle.len());
                assert(window[k as int] == haystack@[at + k]);
            }
            return false;
        }
        k += 1;
    }
    assert(haystack@.subrange(at as int, at + needle.len()) =~= needle@);
    true
}

/// Tells whether `needle` stands somewhere in `haystack`.
pub fn contains(haystack: &Vec<char>, needle: &Vec<char>) -> (r: bool)
    ensures
        r == has_substring(haystack@, needle@),
{
    if needle.len() > haystack.len() {
        return false;
    }
    let last: usize = haystack.len() - needle.len();
    let mut at: usize = 0;
    loop
        invariant
            at <= last,
            last == haystack.len() - needle.len(),
            needle.len() <= haystack.len(),
            forall|i: int| 0 <= i < at ==> !occurs_at(haystack@, needle@, i),
        decreases last - at,
    {
        if starts_at(haystack, needle, at) {
            return true;
        }
        if at == last {
            return false;
        }
        at += 1;
    }
}

/// Tells whether the string `needle` stands somewhere in the string `haystack`.
pub fn str_contains(haystack: &str, needle: &str) -> (r: bool)
    ensures
        r == has_substring(haystack@, needle@),
{
    let h = to_chars(haystack);
    let n = to_chars(needle);
    contains(&h, &n)
}

/// Tells whether two sequences of characters are the same.
pub fn same_chars(a: &Vec<char>, b: &Vec<char>) -> (r: bool)
    ensures
        r == (a@ == b@),
{
    assert(a@.subrange(0, a@.len() as int) =~= a@);
    a.len() == b.len() && starts_at(a, b, 0)
}

/// The greatest index in `start..end` at which `c` stands in `s`, if there is one.
fn find_last(s: &Vec<char>, start: usize, end: usize, c: char) -> (r: Option<usize>)
    requires
        start <= end <= s.len(),
    ensures
        match r {
            Some(i) => start <= i < end && i - start == last_index(
                s@.subrange(start as int, end as int),
                c,
            ),
            None => last_index(s@.subrange(start as int, end as int), c) == -1,
        },
{
    let mut k: usize = end;
    while k > start
        invariant
            start <= k <= end <= s.len(),
            last_index(s@.subrange(start as int, end as int), c) == last_index(
                s@.subrange(start as int, k as int),
                c,
            ),
        decreases k,
    {
        assert(s@.subrange(start as int, k as int).drop_last() =~= s@.subrange(
            start as int,
            k - 1,
        ));
        if s[k - 1] == c {
            return Some(k - 1);
        }
        k -= 1;
    }
    None
}

/// The characters of `s` in `start..end`.
fn slice_of(s: &Vec<char>, start: usize, end: usize) -> (r: Vec<char>)
    requires
        start <= end <= s.len(),
    ensures
        r@ == s@.subrange(start as int, end as int),
{
    let mut r: Vec<char> = Vec::new();
    let mut j: usize = start;
    while j < end
        invariant
            start <= j <= end <= s.len(),
            r@ == s@.subrange(start as int, j as int),
        decreases end - j,
    {
        r.push(s[j]);
        assert(r@ =~= s@.subrange(start as int, j + 1));
        j += 1;
    }
    r
}

/// The extension of `path`, as `extension_of` defines it.
pub fn extension(path: &Vec<char>) -> (r: Option<Vec<char>>)
    ensures
        match r {
            Some(e) => extension_of(path@) == Some(e@),
            None => extension_of(path@) is None,
        },
{
    let mut end: usize = path.len();
    assert(path@.take(end as int) =~= path@);
    while end > 0 && path[end - 1] == '/'
        invariant
            end <= path.len(),
            trimmed_len(path@) == trimmed_len(path@.take(end as int)),
        decreases end,
    {
        assert(path@.take(end as int).drop_last() =~= path@.take(end - 1));
        end -= 1;
    }
    let ghost trimmed = path@.take(end as int);
    assert(trimmed_len(path@) == end) by {
        if end > 0 {
            assert(trimmed.last() == path@[end - 1]);
        }
    }
    assert(trimmed =~= path@.subrange(0, end as int));
    let start: usize = match find_last(path, 0, end, '/') {
        Some(i) => i + 1,
        None => 0,
    };
    assert(file_name(path@) =~= path@.subrange(start as int, end as int));
    match find_last(path, start, end, '.') {
        Some(dot) => {
            if dot == start {
                None
            } else {
                let e = slice_of(path, dot + 1, end);
                assert(e@ =~= file_name(path@).skip(dot - start + 1));
                Some(e)
            }
        },
        None => None,
    }
}

} // verus!
