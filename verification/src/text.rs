//! Character sequences: white space, trimming and tokens.
//!
//! Every function here is stated over `Seq<char>`, the view of `str` and
//! `String`. Executable code works on `Vec<char>`, which it can index in
//! constant time, and converts at its edges.

use vstd::prelude::*;

verus! {

/// `String::push` appends one character.
pub assume_specification[ String::push ](s: &mut String, c: char)
    ensures
        final(s)@ == old(s)@.push(c),
;

/// The characters of `s`, in order.
pub fn chars_of(s: &str) -> (v: Vec<char>)
    ensures
        v@ == s@,
{
    let mut v: Vec<char> = Vec::new();
    for c in it: s.chars()
        invariant
            v@ == it.seq().take(it.index() as int),
            it.seq() == s@,
    {
        v.push(c);
    }
    v
}

/// The string made of the characters `v[from..to]`, in order.
pub(crate) fn string_of_range(v: &Vec<char>, from: usize, to: usize) -> (s: String)
    requires
        from <= to <= v.len(),
    ensures
        s@ == v@.subrange(from as int, to as int),
{
    let mut s = String::new();
    let mut i: usize = from;
    while i < to
        invariant
            from <= i <= to <= v.len(),
            s@ == v@.subrange(from as int, i as int),
        decreases to - i,
    {
        s.push(v[i]);
        i += 1;
    }
    s
}

/// White space: the characters that carry the Unicode property of that name.
pub open spec fn is_space(c: char) -> bool {
    let u = c as u32;
    (0x09 <= u <= 0x0D) || u == 0x20 || u == 0x85 || u == 0xA0 || u == 0x1680 || (0x2000 <= u
        <= 0x200A) || u == 0x2028 || u == 0x2029 || u == 0x202F || u == 0x205F || u == 0x3000
}

/// Whether `c` is white space.
pub fn is_space_char(c: char) -> (b: bool)
    ensures
        b == is_space(c),
{
    let u: u32 = c as u32;
    (0x09 <= u && u <= 0x0D) || u == 0x20 || u == 0x85 || u == 0xA0 || u == 0x1680 || (0x2000 <= u
        && u <= 0x200A) || u == 0x2028 || u == 0x2029 || u == 0x202F || u == 0x205F || u == 0x3000
}

/// The first position at or after `i` that holds no white space, or the
/// length of `s` if there is none.
pub open spec fn space_run_end(s: Seq<char>, i: int) -> int
    decreases s.len() - i,
{
    if 0 <= i < s.len() && is_space(s[i]) {
        space_run_end(s, i + 1)
    } else {
        i
    }
}

/// The first position at or after `i` that holds white space, or the length
/// of `s` if there is none.
pub open spec fn word_run_end(s: Seq<char>, i: int) -> int
    decreases s.len() - i,
{
    if 0 <= i < s.len() && !is_space(s[i]) {
        word_run_end(s, i + 1)
    } else {
        i
    }
}

/// A run of white space ends within the text, holds nothing but white
/// space, and is followed by none.
pub proof fn lemma_space_run_end(s: Seq<char>, i: int)
    requires
        0 <= i <= s.len(),
    ensures
        i <= space_run_end(s, i) <= s.len(),
        forall|j: int| i <= j < space_run_end(s, i) ==> is_space(#[trigger] s[j]),
        space_run_end(s, i) < s.len() ==> !is_space(s[space_run_end(s, i)]),
    decreases s.len() - i,
{
    if i < s.len() && is_space(s[i]) {
        lemma_space_run_end(s, i + 1);
    }
}

/// A run of other characters ends within the text, holds no white space,
/// and is followed by some or by nothing.
pub proof fn lemma_word_run_end(s: Seq<char>, i: int)
    requires
        0 <= i <= s.len(),
    ensures
        i <= word_run_end(s, i) <= s.len(),
        forall|j: int| i <= j < word_run_end(s, i) ==> !is_space(#[trigger] s[j]),
        word_run_end(s, i) < s.len() ==> is_space(s[word_run_end(s, i)]),
    decreases s.len() - i,
{
    if i < s.len() && !is_space(s[i]) {
        lemma_word_run_end(s, i + 1);
    }
}

/// Skips white space from `i` on.
pub(crate) fn skip_space(s: &Vec<char>, i: usize) -> (j: usize)
    requires
        i <= s.len(),
    ensures
        j == space_run_end(s@, i as int),
        i <= j <= s.len(),
{
    let mut j: usize = i;
    while j < s.len() && is_space_char(s[j])
        invariant
            i <= j <= s.len(),
            space_run_end(s@, i as int) == space_run_end(s@, j as int),
        decreases s.len() - j,
    {
        j += 1;
    }
    j
}

/// Skips everything but white space from `i` on.
pub(crate) fn skip_word(s: &Vec<char>, i: usize) -> (j: usize)
    requires
        i <= s.len(),
    ensures
        j == word_run_end(s@, i as int),
        i <= j <= s.len(),
{
    let mut j: usize = i;
    while j < s.len() && !is_space_char(s[j])
        invariant
            i <= j <= s.len(),
            word_run_end(s@, i as int) == word_run_end(s@, j as int),
        decreases s.len() - j,
    {
        j += 1;
    }
    j
}

/// `s` without the white space at its end.
pub open spec fn trim_end(s: Seq<char>) -> Seq<char>
    decreases s.len(),
{
    if s.len() > 0 && is_space(s.last()) {
        trim_end(s.drop_last())
    } else {
        s
    }
}

/// `s` without the white space at its start and at its end.
pub open spec fn trim(s: Seq<char>) -> Seq<char> {
    trim_end(s.subrange(space_run_end(s, 0), s.len() as int))
}

/// The positions `(a, b)` between which the trimmed text of `s` stands.
pub(crate) fn trim_bounds(s: &Vec<char>) -> (r: (usize, usize))
    ensures
        r.0 <= r.1 <= s.len(),
        s@.subrange(r.0 as int, r.1 as int) == trim(s@),
{
    let a = skip_space(s, 0);
    let mut b: usize = s.len();
    let ghost tail = s@.subrange(a as int, s.len() as int);
    while b > a && is_space_char(s[b - 1])
        invariant
            a <= b <= s.len(),
            tail == s@.subrange(a as int, s.len() as int),
            trim_end(tail) == trim_end(s@.subrange(a as int, b as int)),
        decreases b,
    {
        proof {
            let cur = s@.subrange(a as int, b as int);
            assert(cur.last() == s@[b - 1]);
            assert(cur.drop_last() == s@.subrange(a as int, b - 1));
        }
        b -= 1;
    }
    proof {
        let cur = s@.subrange(a as int, b as int);
        if b > a {
            assert(cur.last() == s@[b - 1]);
        }
    }
    (a, b)
}

/// Whether `s` holds nothing but white space.
pub(crate) fn is_blank(s: &Vec<char>) -> (b: bool)
    ensures
        b == (trim(s@).len() == 0),
{
    let (a, b) = trim_bounds(s);
    a == b
}

/// What each of `strings` holds, in order.
pub open spec fn string_views(strings: Seq<String>) -> Seq<Seq<char>> {
    Seq::new(strings.len(), |i: int| strings[i]@)
}

/// The tokens of `s` from `i` on: the runs of characters other than white
/// space, as long as they can be, in order.
pub open spec fn tokens_from(s: Seq<char>, i: int) -> Seq<Seq<char>>
    decreases s.len() - i,
{
    let a = space_run_end(s, i);
    if i < 0 || a >= s.len() {
        Seq::empty()
    } else {
        let b = word_run_end(s, a);
        proof {
            lemma_space_run_end(s, i);
            lemma_word_run_end(s, a + 1);
        }
        seq![s.subrange(a, b)] + tokens_from(s, b)
    }
}

/// The tokens of `s`.
pub open spec fn tokens(s: Seq<char>) -> Seq<Seq<char>> {
    tokens_from(s, 0)
}

/// `parts` with one space between each two.
pub open spec fn joined(parts: Seq<Seq<char>>) -> Seq<char>
    decreases parts.len(),
{
    if parts.len() == 0 {
        Seq::empty()
    } else if parts.len() == 1 {
        parts[0]
    } else {
        joined(parts.drop_last()) + seq![' '] + parts.last()
    }
}

/// The tokens of `s`.
pub fn split_tokens(s: &str) -> (r: Vec<String>)
    ensures
        string_views(r@) == tokens(s@),
{
    let chars = chars_of(s);
    let mut r: Vec<String> = Vec::new();
    let mut i: usize = 0;
    assert(string_views(r@) + tokens_from(chars@, 0) =~= tokens(s@));
    loop
        invariant
            i <= chars.len(),
            chars@ == s@,
            string_views(r@) + tokens_from(chars@, i as int) == tokens(s@),
        ensures
            string_views(r@) == tokens(s@),
        decreases chars.len() - i,
    {
        let a = skip_space(&chars, i);
        if a >= chars.len() {
            assert(string_views(r@) + Seq::<Seq<char>>::empty() =~= string_views(r@));
            break;
        }
        let b = skip_word(&chars, a);
        proof {
            lemma_word_run_end(chars@, a + 1);
        }
        let token = string_of_range(&chars, a, b);
        let ghost front = string_views(r@);
        r.push(token);
        assert(string_views(r@) + tokens_from(chars@, b as int) =~= front + (seq![
            chars@.subrange(a as int, b as int),
        ] + tokens_from(chars@, b as int)));
        i = b;
    }
    r
}

/// `parts` with one space between each two.
pub fn join_tokens(parts: &Vec<String>) -> (r: String)
    ensures
        r@ == joined(string_views(parts@)),
{
    let mut r = String::new();
    let mut i: usize = 0;
    let ghost all = string_views(parts@);
    assert(all.take(0) =~= Seq::<Seq<char>>::empty());
    while i < parts.len()
        invariant
            i <= parts.len(),
            all == string_views(parts@),
            r@ == joined(all.take(i as int)),
        decreases parts.len() - i,
    {
        proof {
            assert(all.take(i + 1).drop_last() =~= all.take(i as int));
            assert(all.take(i + 1).last() == parts@[i as int]@);
        }
        if i > 0 {
            r.push(' ');
        } else {
            assert(r@ + parts@[i as int]@ =~= parts@[i as int]@);
        }
        r.append(parts[i].as_str());
        i += 1;
    }
    assert(all.take(i as int) =~= all);
    r
}

/// Whether `t` can be a token: it holds something, and no white space.
pub open spec fn is_token(t: Seq<char>) -> bool {
    t.len() > 0 && forall|i: int| 0 <= i < t.len() ==> !is_space(#[trigger] t[i])
}

/// Whether each of `parts` can be a token.
pub open spec fn all_tokens(parts: Seq<Seq<char>>) -> bool {
    forall|k: int| 0 <= k < parts.len() ==> is_token(#[trigger] parts[k])
}

/// A run of white space is the same run in a text that starts earlier.
proof fn lemma_space_run_shift(u: Seq<char>, t: Seq<char>, j: int)
    requires
        0 <= j <= t.len(),
    ensures
        space_run_end(u + t, u.len() + j) == u.len() + space_run_end(t, j),
    decreases t.len() - j,
{
    if j < t.len() {
        assert((u + t)[u.len() + j] == t[j]);
        if is_space(t[j]) {
            lemma_space_run_shift(u, t, j + 1);
        }
    }
}

/// A run of other characters is the same run in a text that starts earlier.
proof fn lemma_word_run_shift(u: Seq<char>, t: Seq<char>, j: int)
    requires
        0 <= j <= t.len(),
    ensures
        word_run_end(u + t, u.len() + j) == u.len() + word_run_end(t, j),
    decreases t.len() - j,
{
    if j < t.len() {
        assert((u + t)[u.len() + j] == t[j]);
        if !is_space(t[j]) {
            lemma_word_run_shift(u, t, j + 1);
        }
    }
}

/// The tokens of a text from some position on are the same in a text that
/// starts earlier.
proof fn lemma_tokens_shift(u: Seq<char>, t: Seq<char>, j: int)
    requires
        0 <= j <= t.len(),
    ensures
        tokens_from(u + t, u.len() + j) == tokens_from(t, j),
    decreases t.len() - j,
{
    let s = u + t;
    lemma_space_run_shift(u, t, j);
    lemma_space_run_end(t, j);
    let a = space_run_end(t, j);
    if a < t.len() {
        lemma_word_run_shift(u, t, a);
        lemma_word_run_end(t, a + 1);
        let b = word_run_end(t, a);
        assert(s.subrange(u.len() + a, u.len() + b) =~= t.subrange(a, b));
        lemma_tokens_shift(u, t, b);
    }
}

/// Every token of a text holds something, and no white space.
pub proof fn lemma_tokens_are_tokens(s: Seq<char>, i: int)
    requires
        0 <= i <= s.len(),
    ensures
        all_tokens(tokens_from(s, i)),
    decreases s.len() - i,
{
    lemma_space_run_end(s, i);
    let a = space_run_end(s, i);
    if a < s.len() {
        lemma_word_run_end(s, a);
        lemma_word_run_end(s, a + 1);
        let b = word_run_end(s, a);
        lemma_tokens_are_tokens(s, b);
        let first = s.subrange(a, b);
        let rest = tokens_from(s, b);
        assert(is_token(first)) by {
            assert forall|k: int| 0 <= k < first.len() implies !is_space(#[trigger] first[k]) by {
                assert(first[k] == s[a + k]);
            }
        }
        assert forall|k: int| 0 <= k < (seq![first] + rest).len() implies is_token(
            #[trigger] (seq![first] + rest)[k],
        ) by {
            if k > 0 {
                assert((seq![first] + rest)[k] == rest[k - 1]);
            }
        }
    }
}

/// Parts joined are the first part and, after a space, the others joined.
proof fn lemma_joined_front(parts: Seq<Seq<char>>)
    requires
        parts.len() >= 2,
    ensures
        joined(parts) == parts[0] + seq![' '] + joined(parts.drop_first()),
    decreases parts.len(),
{
    let front = parts.drop_last();
    let tail = parts.drop_first();
    if parts.len() == 2 {
        assert(front.len() == 1 && tail.len() == 1);
        assert(joined(front) == parts[0]);
        assert(joined(tail) == parts[1]);
    } else {
        lemma_joined_front(front);
        assert(front.drop_first() =~= tail.drop_last());
        assert(front[0] == parts[0]);
        assert(tail.last() == parts.last());
        assert(joined(parts) =~= parts[0] + seq![' '] + joined(tail));
    }
}

/// A run of characters other than white space ends where white space
/// stands, or the text ends.
proof fn lemma_word_run_is(s: Seq<char>, q: int, e: int)
    requires
        0 <= q <= e <= s.len(),
        forall|j: int| q <= j < e ==> !is_space(#[trigger] s[j]),
        e == s.len() || is_space(s[e]),
    ensures
        word_run_end(s, q) == e,
    decreases e - q,
{
    if q < e {
        lemma_word_run_is(s, q + 1, e);
    }
}

/// Tokens joined have those tokens.
pub proof fn lemma_tokens_of_joined(parts: Seq<Seq<char>>)
    requires
        all_tokens(parts),
    ensures
        tokens(joined(parts)) == parts,
    decreases parts.len(),
{
    let s = joined(parts);
    if parts.len() == 0 {
        assert(tokens(s) =~= parts);
    } else {
        let p0 = parts[0];
        assert(is_token(p0));
        let tail = parts.drop_first();
        assert(all_tokens(tail)) by {
            assert forall|k: int| 0 <= k < tail.len() implies is_token(#[trigger] tail[k]) by {
                assert(tail[k] == parts[k + 1]);
            }
        }
        if parts.len() == 1 {
            assert(s == p0);
            lemma_word_run_is(s, 0, s.len() as int);
            assert(s.subrange(0, s.len() as int) =~= p0);
            assert(tokens_from(s, s.len() as int) =~= Seq::<Seq<char>>::empty());
            assert(tokens(s) =~= parts);
        } else {
            lemma_joined_front(parts);
            let u = p0 + seq![' '];
            let t = joined(tail);
            assert(s =~= u + t);
            lemma_tokens_of_joined(tail);
            assert(is_token(tail[0]));
            if tail.len() >= 2 {
                lemma_joined_front(tail);
            }
            assert(t.len() > 0 && t[0] == tail[0][0]);
            assert forall|j: int| 0 <= j < p0.len() implies !is_space(#[trigger] s[j]) by {
                assert(s[j] == p0[j]);
            }
            assert(s[p0.len() as int] == ' ');
            assert(is_space(' '));
            let n = p0.len() as int;
            lemma_word_run_is(s, 0, n);
            assert(s.subrange(0, n) =~= p0);
            // after the first token, the space, and then the tokens of the rest
            assert(s[n + 1] == t[0]);
            assert(space_run_end(s, n + 1) == n + 1);
            assert(space_run_end(s, n) == n + 1);
            assert(tokens_from(s, n) == tokens_from(s, n + 1));
            lemma_tokens_shift(u, t, 0);
            assert(tokens_from(s, n + 1) == tail);
            assert(seq![p0] + tail =~= parts);
        }
    }
}

/// A sequence as it is kept has the tokens of the sequence as it was
/// given.
pub proof fn lemma_tokens_of_entry(input: Seq<char>)
    ensures
        tokens(joined(tokens(input))) == tokens(input),
{
    lemma_tokens_are_tokens(input, 0);
    lemma_tokens_of_joined(tokens(input));
}

/// The letter `c` in lower case, where it is one of A to Z; else `c`.
pub open spec fn ascii_lower(c: char) -> char {
    if 0x41 <= c as u32 <= 0x5A {
        ((c as u32 + 0x20) as u8) as char
    } else {
        c
    }
}

/// Whether `a` and `b` are the same but for the case of the letters A to Z.
pub open spec fn same_without_case(a: Seq<char>, b: Seq<char>) -> bool {
    a.len() == b.len() && forall|i: int| 0 <= i < a.len() ==> ascii_lower(#[trigger] a[i]) == ascii_lower(b[i])
}

/// The position of the last dot in `s`, or -1 if it has none.
pub open spec fn last_dot(s: Seq<char>) -> int
    decreases s.len(),
{
    if s.len() == 0 {
        -1
    } else if s.last() == '.' {
        s.len() - 1
    } else {
        last_dot(s.drop_last())
    }
}

/// The extension of the file name `name`: what follows its last dot. A
/// name without a dot has none, and neither has a name whose only dot is
/// its first character.
pub open spec fn extension(name: Seq<char>) -> Option<Seq<char>> {
    let d = last_dot(name);
    if d <= 0 {
        None
    } else {
        Some(name.subrange(d + 1, name.len() as int))
    }
}

/// The letter `c` in lower case, where it is one of A to Z; else `c`.
fn lower(c: char) -> (r: char)
    ensures
        r == ascii_lower(c),
{
    let u: u32 = c as u32;
    if 0x41 <= u && u <= 0x5A {
        ((u + 0x20) as u8) as char
    } else {
        c
    }
}

/// The name of a file without its extension: what stands before the last
/// dot, or the whole name where it has no extension.
pub open spec fn stem(name: Seq<char>) -> Seq<char> {
    let d = last_dot(name);
    if d <= 0 {
        name
    } else {
        name.take(d)
    }
}

/// Finds the last dot in `s`.
fn find_last_dot(s: &Vec<char>) -> (dot: Option<usize>)
    ensures
        match dot {
            Some(d) => d < s.len() && last_dot(s@) == d,
            None => last_dot(s@) == -1,
        },
{
    let mut dot: Option<usize> = None;
    let mut i: usize = 0;
    assert(s@.take(0) =~= Seq::<char>::empty());
    while i < s.len()
        invariant
            i <= s.len(),
            match dot {
                Some(d) => d < i && last_dot(s@.take(i as int)) == d,
                None => last_dot(s@.take(i as int)) == -1,
            },
        decreases s.len() - i,
    {
        proof {
            assert(s@.take(i + 1).drop_last() =~= s@.take(i as int));
            assert(s@.take(i + 1).last() == s@[i as int]);
        }
        if s[i] == '.' {
            dot = Some(i);
        }
        i += 1;
    }
    assert(s@.take(i as int) =~= s@);
    dot
}

/// The name of a file without its extension.
pub fn file_stem(name: &str) -> (r: String)
    ensures
        r@ == stem(name@),
{
    let s = chars_of(name);
    let to: usize = match find_last_dot(&s) {
        Some(d) => if d == 0 {
            s.len()
        } else {
            d
        },
        None => s.len(),
    };
    assert(s@.subrange(0, s.len() as int) =~= s@);
    string_of_range(&s, 0, to)
}

/// Whether the file name `name` has the extension `wanted`, without regard
/// to the case of the letters A to Z.
pub fn has_extension(name: &str, wanted: &str) -> (b: bool)
    ensures
        b == match extension(name@) {
            Some(e) => same_without_case(e, wanted@),
            None => false,
        },
{
    let s = chars_of(name);
    let w = chars_of(wanted);
    let d = match find_last_dot(&s) {
        Some(d) => d,
        None => {
            return false;
        },
    };
    if d == 0 {
        return false;
    }
    let ghost e = s@.subrange(d + 1, s.len() as int);
    if s.len() - (d + 1) != w.len() {
        return false;
    }
    let mut j: usize = 0;
    while j < w.len()
        invariant
            j <= w.len(),
            d + 1 + w.len() == s.len(),
            s@ == name@,
            w@ == wanted@,
            d > 0,
            last_dot(s@) == d,
            e == s@.subrange(d + 1, s.len() as int),
            forall|k: int| 0 <= k < j ==> ascii_lower(#[trigger] e[k]) == ascii_lower(w@[k]),
        decreases w.len() - j,
    {
        assert(e[j as int] == s@[d + 1 + j]);
        if lower(s[d + 1 + j]) != lower(w[j]) {
            assert(ascii_lower(e[j as int]) != ascii_lower(w@[j as int]));
            return false;
        }
        j += 1;
    }
    true
}

} // verus!
