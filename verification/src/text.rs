//! Character-level text handling: white space, trimming, words and lines.
//!
//! Every function is stated over the sequence of characters of a string
//! (`s@`), never over its bytes.

use vstd::prelude::*;

verus! {

/// White space: the characters that carry the Unicode property `White_Space`.
pub open spec fn is_space(c: char) -> bool {
    let u = c as u32;
    (0x09 <= u <= 0x0D) || u == 0x20 || u == 0x85 || u == 0xA0 || u == 0x1680 || (0x2000 <= u
        <= 0x200A) || u == 0x2028 || u == 0x2029 || u == 0x202F || u == 0x205F || u == 0x3000
}

/// The first position at or after `i` that holds no white space, or the
/// length of `s` where there is none.
pub open spec fn skip_spaces(s: Seq<char>, i: int) -> int
    decreases s.len() - i,
{
    if 0 <= i < s.len() && is_space(s[i]) {
        skip_spaces(s, i + 1)
    } else {
        i
    }
}

/// The first position at or after `i` that holds white space, or the length
/// of `s` where there is none.
pub open spec fn skip_word(s: Seq<char>, i: int) -> int
    decreases s.len() - i,
{
    if 0 <= i < s.len() && !is_space(s[i]) {
        skip_word(s, i + 1)
    } else {
        i
    }
}

/// The length of `s` without its trailing white space.
pub open spec fn trimmed_len(s: Seq<char>) -> int
    decreases s.len(),
{
    if s.len() > 0 && is_space(s.last()) {
        trimmed_len(s.drop_last())
    } else {
        s.len() as int
    }
}

/// `s` without its leading white space.
pub open spec fn trim_start_of(s: Seq<char>) -> Seq<char> {
    s.skip(skip_spaces(s, 0))
}

/// `s` without its leading and trailing white space.
pub open spec fn trim_of(s: Seq<char>) -> Seq<char> {
    trim_start_of(s.take(trimmed_len(s)))
}

/// The words of `s` from position `i` on: the maximal runs of characters
/// that are not white space, in order.
pub open spec fn words_from(s: Seq<char>, i: int) -> Seq<Seq<char>>
    decreases s.len() - i,
{
    let a = skip_spaces(s, i);
    let b = skip_word(s, a);
    if 0 <= i <= a < b <= s.len() {
        seq![s.subrange(a, b)] + words_from(s, b)
    } else {
        Seq::empty()
    }
}

/// The words of `s`.
pub open spec fn words_of(s: Seq<char>) -> Seq<Seq<char>> {
    words_from(s, 0)
}

/// The first position at or after `i` that holds a line feed, or the length
/// of `s` where there is none.
pub open spec fn line_end(s: Seq<char>, i: int) -> int
    decreases s.len() - i,
{
    if 0 <= i < s.len() && s[i] != '\n' {
        line_end(s, i + 1)
    } else {
        i
    }
}

/// The line that occupies `s[i..n]`. Where a line feed follows it
/// (`n < s.len()`), a carriage return directly before that line feed belongs
/// to the line ending and not to the line.
pub open spec fn line_at(s: Seq<char>, i: int, n: int) -> Seq<char> {
    if n < s.len() && i < n && s[n - 1] == '\r' {
        s.subrange(i, n - 1)
    } else {
        s.subrange(i, n)
    }
}

/// The lines of `s` from position `i` on. A line ends at a line feed or at
/// the end of the text; text that ends in a line feed has no further, empty
/// line after it.
pub open spec fn lines_from(s: Seq<char>, i: int) -> Seq<Seq<char>>
    decreases s.len() - i,
{
    let n = line_end(s, i);
    if 0 <= i < s.len() && i <= n < s.len() {
        seq![line_at(s, i, n)] + lines_from(s, n + 1)
    } else if 0 <= i < s.len() {
        seq![line_at(s, i, s.len() as int)]
    } else {
        Seq::empty()
    }
}

/// The lines of `s`.
pub open spec fn lines_of(s: Seq<char>) -> Seq<Seq<char>> {
    lines_from(s, 0)
}

/// The views of a vector of strings, in order.
pub open spec fn views_of(v: Seq<String>) -> Seq<Seq<char>> {
    Seq::new(v.len(), |i: int| v[i]@)
}

/// Where `skip_spaces` stops: within the text, after white space only,
/// and not at white space.
pub proof fn lemma_skip_spaces_bounds(s: Seq<char>, i: int)
    requires
        0 <= i <= s.len(),
    ensures
        i <= skip_spaces(s, i) <= s.len(),
        skip_spaces(s, i) < s.len() ==> !is_space(s[skip_spaces(s, i)]),
        forall|j: int| i <= j < skip_spaces(s, i) ==> is_space(#[trigger] s[j]),
    decreases s.len() - i,
{
    if i < s.len() && is_space(s[i]) {
        lemma_skip_spaces_bounds(s, i + 1);
    }
}

/// Where `skip_word` stops: within the text, after a run without white
/// space, and at white space or at the end.
pub proof fn lemma_skip_word_bounds(s: Seq<char>, i: int)
    requires
        0 <= i <= s.len(),
    ensures
        i <= skip_word(s, i) <= s.len(),
        skip_word(s, i) < s.len() ==> is_space(s[skip_word(s, i)]),
        forall|j: int| i <= j < skip_word(s, i) ==> !is_space(#[trigger] s[j]),
        i < s.len() && !is_space(s[i]) ==> i < skip_word(s, i),
    decreases s.len() - i,
{
    if i < s.len() && !is_space(s[i]) {
        lemma_skip_word_bounds(s, i + 1);
    }
}

/// Where `line_end` stops: within the text, after a run without a line
/// feed, and at a line feed or at the end.
pub proof fn lemma_line_end_bounds(s: Seq<char>, i: int)
    requires
        0 <= i <= s.len(),
    ensures
        i <= line_end(s, i) <= s.len(),
        line_end(s, i) < s.len() ==> s[line_end(s, i)] == '\n',
        forall|j: int| i <= j < line_end(s, i) ==> #[trigger] s[j] != '\n',
    decreases s.len() - i,
{
    if i < s.len() && s[i] != '\n' {
        lemma_line_end_bounds(s, i + 1);
    }
}

/// What `trimmed_len` cuts off is white space, and what it leaves does
/// not end in white space.
pub proof fn lemma_trimmed_len_bounds(s: Seq<char>)
    ensures
        0 <= trimmed_len(s) <= s.len(),
        trimmed_len(s) > 0 ==> !is_space(s[trimmed_len(s) - 1]),
        forall|j: int| trimmed_len(s) <= j < s.len() ==> is_space(#[trigger] s[j]),
    decreases s.len(),
{
    if s.len() > 0 && is_space(s.last()) {
        let t = s.drop_last();
        lemma_trimmed_len_bounds(t);
        assert forall|j: int| trimmed_len(s) <= j < s.len() implies is_space(#[trigger] s[j]) by {
            if j < t.len() {
                assert(t[j] == s[j]);
            }
        }
        if trimmed_len(s) > 0 {
            assert(t[trimmed_len(t) - 1] == s[trimmed_len(s) - 1]);
        }
    }
}

/// Whether `c` is white space.
pub fn is_space_char(c: char) -> (b: bool)
    ensures
        b == is_space(c),
{
    let u: u32 = c as u32;
    (0x09 <= u && u <= 0x0D) || u == 0x20 || u == 0x85 || u == 0xA0 || u == 0x1680 || (0x2000 <= u
        && u <= 0x200A) || u == 0x2028 || u == 0x2029 || u == 0x202F || u == 0x205F || u == 0x3000
}

/// The characters of `s`, in order.
pub fn to_chars(s: &str) -> (v: Vec<char>)
    ensures
        v@ == s@,
{
    let mut v: Vec<char> = Vec::new();
    for c in it: s.chars()
        invariant
            v@ == it.seq().take(it.index() as int),
            it.seq() == s@,
    {
        v.push(c);
    }
    v
}

/// Appends `c` to `s` with `String::push`, which adds the character at the
/// end and leaves what was there unchanged.
#[verifier::external_body]
fn push_char(s: &mut String, c: char)
    ensures
        final(s)@ == old(s)@.push(c),
{
    s.push(c)
}

/// The string made of `v[from..to]`.
pub fn from_chars(v: &Vec<char>, from: usize, to: usize) -> (s: String)
    requires
        from <= to <= v.len(),
    ensures
        s@ == v@.subrange(from as int, to as int),
{
    let mut s = String::new();
    let mut i: usize = from;
    while i < to
        invariant
            from <= i <= to <= v.len(),
            s@ == v@.subrange(from as int, i as int),
        decreases to - i,
    {
        push_char(&mut s, v[i]);
        i = i + 1;
    }
    s
}

/// The position of the first character at or after `i` that is no white
/// space.
fn scan_spaces(v: &Vec<char>, i: usize) -> (a: usize)
    requires
        i <= v.len(),
    ensures
        a == skip_spaces(v@, i as int),
        i <= a <= v.len(),
{
    let mut a: usize = i;
    while a < v.len() && is_space_char(v[a])
        invariant
            i <= a <= v.len(),
            skip_spaces(v@, a as int) == skip_spaces(v@, i as int),
        decreases v.len() - a,
    {
        a = a + 1;
    }
    a
}

/// The position of the first white space at or after `i`.
fn scan_word(v: &Vec<char>, i: usize) -> (b: usize)
    requires
        i <= v.len(),
    ensures
        b == skip_word(v@, i as int),
        i <= b <= v.len(),
{
    let mut b: usize = i;
    while b < v.len() && !is_space_char(v[b])
        invariant
            i <= b <= v.len(),
            skip_word(v@, b as int) == skip_word(v@, i as int),
        decreases v.len() - b,
    {
        b = b + 1;
    }
    b
}

/// The length of `v` without its trailing white space.
fn scan_trailing(v: &Vec<char>) -> (n: usize)
    ensures
        n == trimmed_len(v@),
        n <= v.len(),
{
    let mut n: usize = v.len();
    assert(v@.take(n as int) =~= v@);
    while n > 0 && is_space_char(v[n - 1])
        invariant
            n <= v.len(),
            trimmed_len(v@.take(n as int)) == trimmed_len(v@),
        decreases n,
    {
        assert(v@.take(n as int).drop_last() =~= v@.take(n - 1));
        n = n - 1;
    }
    n
}

/// `s` without its leading white space.
pub fn trim_start(s: &str) -> (r: String)
    ensures
        r@ == trim_start_of(s@),
{
    let v = to_chars(s);
    let a = scan_spaces(&v, 0);
    let r = from_chars(&v, a, v.len());
    assert(v@.subrange(a as int, v.len() as int) =~= v@.skip(a as int));
    r
}

/// `s` without its leading and trailing white space.
pub fn trim(s: &str) -> (r: String)
    ensures
        r@ == trim_of(s@),
{
    let v = to_chars(s);
    let n = scan_trailing(&v);
    let mut a: usize = 0;
    let ghost head = v@.take(n as int);
    while a < n && is_space_char(v[a])
        invariant
            a <= n <= v.len(),
            head == v@.take(n as int),
            skip_spaces(head, a as int) == skip_spaces(head, 0),
        decreases n - a,
    {
        a = a + 1;
    }
    let r = from_chars(&v, a, n);
    assert(v@.subrange(a as int, n as int) =~= head.skip(a as int));
    r
}

/// The words of `s`: what `s` holds between runs of white space.
pub fn words(s: &str) -> (r: Vec<String>)
    ensures
        views_of(r@) == words_of(s@),
{
    let v = to_chars(s);
    let mut r: Vec<String> = Vec::new();
    let mut i: usize = 0;
    loop
        invariant
            i <= v.len(),
            v@ == s@,
            views_of(r@) + words_from(v@, i as int) == words_of(s@),
        ensures
            views_of(r@) == words_of(s@),
        decreases v.len() - i,
    {
        let a = scan_spaces(&v, i);
        if a >= v.len() {
            proof {
                lemma_skip_word_bounds(v@, a as int);
                assert(words_from(v@, i as int) =~= Seq::empty());
                assert(views_of(r@) + Seq::<Seq<char>>::empty() =~= views_of(r@));
            }
            break;
        }
        let b = scan_word(&v, a);
        proof {
            lemma_skip_spaces_bounds(v@, i as int);
            lemma_skip_word_bounds(v@, a as int);
        }
        let w = from_chars(&v, a, b);
        let ghost before = views_of(r@);
        r.push(w);
        proof {
            assert(views_of(r@) =~= before + seq![v@.subrange(a as int, b as int)]);
            assert(words_from(v@, i as int) == seq![v@.subrange(a as int, b as int)]
                + words_from(v@, b as int));
            assert(views_of(r@) + words_from(v@, b as int) =~= before + words_from(v@, i as int));
        }
        i = b;
    }
    r
}

/// The lines of `s`, without their line endings.
pub fn lines(s: &str) -> (r: Vec<String>)
    ensures
        views_of(r@) == lines_of(s@),
{
    let v = to_chars(s);
    let mut r: Vec<String> = Vec::new();
    let mut i: usize = 0;
    while i < v.len()
        invariant
            i <= v.len(),
            v@ == s@,
            views_of(r@) + lines_from(v@, i as int) == lines_of(s@),
        decreases v.len() - i,
    {
        let mut n: usize = i;
        while n < v.len() && v[n] != '\n'
            invariant
                i <= n <= v.len(),
                line_end(v@, n as int) == line_end(v@, i as int),
            decreases v.len() - n,
        {
            n = n + 1;
        }
        let stop: usize = if n < v.len() && i < n && v[n - 1] == '\r' {
            n - 1
        } else {
            n
        };
        let line = from_chars(&v, i, stop);
        let ghost before = views_of(r@);
        r.push(line);
        proof {
            lemma_line_end_bounds(v@, i as int);
            assert(views_of(r@) =~= before + seq![line_at(v@, i as int, n as int)]);
            let rest = if n < v.len() {
                lines_from(v@, n + 1)
            } else {
                Seq::empty()
            };
            assert(lines_from(v@, i as int) =~= seq![line_at(v@, i as int, n as int)] + rest);
            assert(views_of(r@) + rest =~= before + lines_from(v@, i as int));
            if n == v.len() {
                assert(lines_from(v@, n as int) =~= Seq::empty());
            }
        }
        if n < v.len() {
            i = n + 1;
        } else {
            i = n;
        }
    }
    proof {
        assert(lines_from(v@, i as int) =~= Seq::empty());
        assert(views_of(r@) + Seq::<Seq<char>>::empty() =~= views_of(r@));
    }
    r
}

/// Whether `a` and `b` hold the same characters.
pub fn same_text(a: &str, b: &str) -> (r: bool)
    ensures
        r == (a@ == b@),
{
    let x = to_chars(a);
    let y = to_chars(b);
    if x.len() != y.len() {
        return false;
    }
    let mut i: usize = 0;
    while i < x.len()
        invariant
            i <= x.len(),
            x.len() == y.len(),
            x@ == a@,
            y@ == b@,
            forall|j: int| 0 <= j < i ==> x@[j] == y@[j],
        decreases x.len() - i,
    {
        if x[i] != y[i] {
            assert(a@[i as int] != b@[i as int]);
            return false;
        }
        i = i + 1;
    }
    assert(x@ =~= y@);
    true
}

} // verus!
