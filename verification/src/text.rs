//! Moving between strings and sequences of characters, and searching in them.

use vstd::prelude::*;

verus! {

/// `String::push` of the standard library appends the given character at the
/// end of the string.
pub assume_specification[ String::push ](s: &mut String, ch: char)
    ensures
        final(s)@ == old(s)@.push(ch),
;

/// The characters of `s`, in order.
pub fn chars_of(s: &str) -> (out: Vec<char>)
    ensures
        out@ == s@,
{
    let mut out: Vec<char> = Vec::new();
    for c in it: s.chars()
        invariant
            out@ == it.seq().take(it.index()),
            it.seq() == s@,
    {
        out.push(c);
    }
    out
}

/// The string made of the characters of `v` from `from` up to, not including, `to`.
pub fn string_of_span(v: &Vec<char>, from: usize, to: usize) -> (out: String)
    requires
        from <= to <= v.len(),
    ensures
        out@ == v@.subrange(from as int, to as int),
{
    let mut out = String::new();
    let mut i: usize = from;
    while i < to
        invariant
            from <= i <= to <= v.len(),
            out@ == v@.subrange(from as int, i as int),
        decreases to - i,
    {
        out.push(v[i]);
        i = i + 1;
    }
    out
}

/// The string made of the characters of `v`, in order.
pub fn string_of(v: &Vec<char>) -> (out: String)
    ensures
        out@ == v@,
{
    assert(v@.subrange(0, v.len() as int) == v@);
    string_of_span(v, 0, v.len())
}

/// The position of the first `c` in `s`, or the length of `s` where it holds none.
pub open spec fn find_char(s: Seq<char>, c: char) -> nat
    decreases s.len(),
{
    if s.len() == 0 || s[0] == c {
        0
    } else {
        1 + find_char(s.skip(1), c)
    }
}

/// `find_char` stays within the sequence, stops on a `c`, and passes over none.
pub proof fn lemma_find_char(s: Seq<char>, c: char)
    ensures
        find_char(s, c) <= s.len(),
        find_char(s, c) < s.len() ==> s[find_char(s, c) as int] == c,
        forall|j: int| 0 <= j < find_char(s, c) ==> s[j] != c,
    decreases s.len(),
{
    if s.len() != 0 && s[0] != c {
        let rest = s.skip(1);
        lemma_find_char(rest, c);
        assert forall|j: int| 0 <= j < find_char(s, c) implies s[j] != c by {
            if j > 0 {
                assert(s[j] == rest[j - 1]);
            }
        }
    }
}

/// An index that holds the first `c` of `s`, or the length past a `c`-free `s`,
/// is what `find_char` gives.
pub proof fn lemma_find_char_is(s: Seq<char>, c: char, i: int)
    requires
        0 <= i <= s.len(),
        i < s.len() ==> s[i] == c,
        forall|j: int| 0 <= j < i ==> s[j] != c,
    ensures
        find_char(s, c) == i,
{
    lemma_find_char(s, c);
    let k = find_char(s, c) as int;
    if k < i {
        assert(s[k] == c);
    }
}

/// The index of the first `c` in `v` at or after `from`, or the length of `v`
/// where none follows.
pub fn find_from(v: &Vec<char>, c: char, from: usize) -> (at: usize)
    requires
        from <= v.len(),
    ensures
        at == from + find_char(v@.skip(from as int), c),
        from <= at <= v.len(),
{
    let mut i: usize = from;
    while i < v.len() && v[i] != c
        invariant
            from <= i <= v.len(),
            forall|j: int| from <= j < i ==> v@[j] != c,
        decreases v.len() - i,
    {
        i = i + 1;
    }
    proof {
        lemma_find_char_is(v@.skip(from as int), c, i - from);
    }
    i
}

/// Whether `s` holds no `c`.
pub open spec fn holds_no(s: Seq<char>, c: char) -> bool {
    forall|i: int| 0 <= i < s.len() ==> s[i] != c
}

/// The pieces of `s` that lie between its occurrences of `sep`: one more piece
/// than there are occurrences, each free of `sep`, some perhaps empty.
pub open spec fn split_on(s: Seq<char>, sep: char) -> Seq<Seq<char>>
    decreases s.len(),
{
    let i = find_char(s, sep);
    if i >= s.len() {
        seq![s]
    } else {
        seq![s.take(i as int)] + split_on(s.skip((i + 1) as int), sep)
    }
}

/// A split gives at least one piece, and no piece holds the separator.
pub proof fn lemma_split_on(s: Seq<char>, sep: char)
    ensures
        split_on(s, sep).len() >= 1,
        forall|k: int| 0 <= k < split_on(s, sep).len() ==> holds_no(#[trigger] split_on(s, sep)[k], sep),
    decreases s.len(),
{
    lemma_find_char(s, sep);
    let i = find_char(s, sep) as int;
    if i < s.len() {
        let rest = s.skip(i + 1);
        lemma_split_on(rest, sep);
        assert forall|k: int| 0 <= k < split_on(s, sep).len() implies holds_no(
            #[trigger] split_on(s, sep)[k],
            sep,
        ) by {
            if k > 0 {
                assert(split_on(s, sep)[k] == split_on(rest, sep)[k - 1]);
            }
        }
    }
}

/// Whether `pattern` stands in `s` at index `at`.
pub open spec fn occurs_at(s: Seq<char>, at: int, pattern: Seq<char>) -> bool {
    0 <= at && at + pattern.len() <= s.len() && s.subrange(at, at + pattern.len()) == pattern
}

/// `s` without its occurrences of `pattern`: they are looked for from the
/// left, and the search goes on behind each one found, so that of two that
/// overlap the first one goes. An empty pattern occurs nowhere.
pub open spec fn without(s: Seq<char>, pattern: Seq<char>) -> Seq<char>
    decreases s.len(),
{
    if pattern.len() == 0 || s.len() < pattern.len() {
        s
    } else if occurs_at(s, 0, pattern) {
        without(s.skip(pattern.len() as int), pattern)
    } else {
        seq![s[0]] + without(s.skip(1), pattern)
    }
}

/// Removal passes over a stretch that lacks the first character of the pattern.
pub proof fn lemma_without_passes(stretch: Seq<char>, rest: Seq<char>, pattern: Seq<char>)
    requires
        pattern.len() > 0,
        holds_no(stretch, pattern[0]),
    ensures
        without(stretch + rest, pattern) == stretch + without(rest, pattern),
    decreases stretch.len(),
{
    let s = stretch + rest;
    if stretch.len() == 0 {
        assert(s == rest);
        assert(stretch + without(rest, pattern) == without(rest, pattern));
    } else {
        let shorter = stretch.skip(1);
        lemma_without_passes(shorter, rest, pattern);
        assert(s.skip(1) == shorter + rest);
        assert(s[0] == stretch[0]);
        if s.len() < pattern.len() {
            assert(without(rest, pattern) == rest);
        } else {
            assert(!occurs_at(s, 0, pattern)) by {
                if occurs_at(s, 0, pattern) {
                    assert(s.subrange(0, pattern.len() as int)[0] == pattern[0]);
                }
            }
            assert(seq![s[0]] + (shorter + without(rest, pattern)) == stretch + without(
                rest,
                pattern,
            ));
        }
    }
}

/// Removal takes away a pattern that stands in front.
pub proof fn lemma_without_takes(rest: Seq<char>, pattern: Seq<char>)
    requires
        pattern.len() > 0,
    ensures
        without(pattern + rest, pattern) == without(rest, pattern),
{
    let s = pattern + rest;
    assert(s.subrange(0, pattern.len() as int) == pattern);
    assert(s.skip(pattern.len() as int) == rest);
}

/// Whether `pattern` stands in `chars` at index `at`.
pub fn starts_at(chars: &Vec<char>, at: usize, pattern: &Vec<char>) -> (found: bool)
    requires
        at <= chars.len(),
    ensures
        found == occurs_at(chars@, at as int, pattern@),
{
    let m: usize = pattern.len();
    if chars.len() - at < m {
        return false;
    }
    let mut k: usize = 0;
    while k < m
        invariant
            k <= m == pattern.len(),
            at + m <= chars.len(),
            chars@.subrange(at as int, at + k) == pattern@.take(k as int),
        decreases m - k,
    {
        if chars[at + k] != pattern[k] {
            assert(chars@.subrange(at as int, at + m)[k as int] != pattern@[k as int]);
            return false;
        }
        assert(chars@.subrange(at as int, at + k + 1) == chars@.subrange(at as int, at + k).push(
            chars@[at + k],
        ));
        assert(pattern@.take(k + 1) == pattern@.take(k as int).push(pattern@[k as int]));
        k = k + 1;
    }
    assert(pattern@.take(m as int) == pattern@);
    true
}

/// Removes the occurrences of `pattern` from `chars`.
pub fn remove_all(chars: &Vec<char>, pattern: &Vec<char>) -> (out: Vec<char>)
    ensures
        out@ == without(chars@, pattern@),
{
    let n: usize = chars.len();
    let m: usize = pattern.len();
    let mut out: Vec<char> = Vec::new();
    let mut i: usize = 0;
    assert(chars@.skip(0) == chars@);
    while i < n
        invariant
            i <= n == chars.len(),
            m == pattern.len(),
            without(chars@, pattern@) == out@ + without(chars@.skip(i as int), pattern@),
        decreases n - i,
    {
        let ghost rest = chars@.skip(i as int);
        if m > 0 && starts_at(chars, i, pattern) {
            assert(rest.subrange(0, m as int) == chars@.subrange(i as int, i + m));
            assert(rest.skip(m as int) == chars@.skip(i + m));
            i = i + m;
        } else {
            proof {
                let tail = chars@.skip(i + 1);
                assert(rest.skip(1) == tail);
                assert(rest == seq![rest[0]] + tail);
                if m > 0 && rest.len() >= m {
                    assert(rest.subrange(0, m as int) == chars@.subrange(i as int, i + m));
                }
            }
            out.push(chars[i]);
            i = i + 1;
        }
    }
    assert(without(chars@.skip(n as int), pattern@) == Seq::<char>::empty());
    out
}

/// Whether `c` is white space, as Unicode's property `White_Space` has it.
pub open spec fn is_space(c: char) -> bool {
    let u = c as u32;
    ||| 0x09 <= u <= 0x0D
    ||| u == 0x20
    ||| u == 0x85
    ||| u == 0xA0
    ||| u == 0x1680
    ||| 0x2000 <= u <= 0x200A
    ||| u == 0x2028
    ||| u == 0x2029
    ||| u == 0x202F
    ||| u == 0x205F
    ||| u == 0x3000
}

/// `s` without the white space that ends it.
pub open spec fn trimmed_end(s: Seq<char>) -> Seq<char>
    decreases s.len(),
{
    if s.len() > 0 && is_space(s.last()) {
        trimmed_end(s.drop_last())
    } else {
        s
    }
}

/// Whether `c` is white space.
pub fn is_white_space(c: char) -> (space: bool)
    ensures
        space == is_space(c),
{
    let u: u32 = c as u32;
    (0x09 <= u && u <= 0x0D) || u == 0x20 || u == 0x85 || u == 0xA0 || u == 0x1680 || (0x2000 <= u
        && u <= 0x200A) || u == 0x2028 || u == 0x2029 || u == 0x202F || u == 0x205F || u == 0x3000
}

/// How many characters of `chars` come before the white space that ends it.
pub fn trimmed_len(chars: &Vec<char>) -> (len: usize)
    ensures
        len <= chars.len(),
        chars@.take(len as int) == trimmed_end(chars@),
{
    let mut len: usize = chars.len();
    assert(chars@.take(len as int) == chars@);
    while len > 0 && is_white_space(chars[len - 1])
        invariant
            len <= chars.len(),
            trimmed_end(chars@.take(len as int)) == trimmed_end(chars@),
        decreases len,
    {
        assert(chars@.take(len as int).drop_last() == chars@.take(len - 1));
        len = len - 1;
    }
    len
}

} // verus!
