//! Character-level text utilities used by the parsers and display helpers.
//!
//! Text is handled as `Vec<char>` whose view is the `Seq<char>` that
//! Rust's `str` exposes.  Each helper states its result over that view.

use vstd::prelude::*;

verus! {

broadcast use vstd::string::group_string_axioms;

// ---------------------------------------------------------------------
// Character classification
// ---------------------------------------------------------------------

/// Whether `c` has the Unicode `White_Space` property, which is what
/// `char::is_whitespace` reports: the ASCII tab, line feed, vertical tab,
/// form feed, carriage return and space, the next line and no-break
/// spaces, the Ogham space mark, the spaces from en quad to hair space,
/// the line and paragraph separators, the narrow no-break space, the
/// medium mathematical space and the ideographic space.
pub open spec fn unicode_whitespace(c: char) -> bool {
    let v = c as u32;
    ||| 0x09 <= v <= 0x0D
    ||| v == 0x20
    ||| v == 0x85
    ||| v == 0xA0
    ||| v == 0x1680
    ||| 0x2000 <= v <= 0x200A
    ||| v == 0x2028
    ||| v == 0x2029
    ||| v == 0x202F
    ||| v == 0x205F
    ||| v == 0x3000
}

/// Whether `c` is Unicode alphanumeric, as `char::is_alphanumeric` decides.
pub uninterp spec fn unicode_alphanumeric(c: char) -> bool;

pub open spec fn is_ascii_digit(c: char) -> bool {
    48 <= (c as u32) && (c as u32) <= 57
}

pub open spec fn is_ascii_upper(c: char) -> bool {
    65 <= (c as u32) && (c as u32) <= 90
}

/// `char::to_ascii_lowercase`: ASCII capitals move down by 32, everything
/// else is left alone.
pub open spec fn ascii_lower(c: char) -> char {
    if is_ascii_upper(c) {
        ((c as u32) + 32) as char
    } else {
        c
    }
}

pub open spec fn lower_seq(s: Seq<char>) -> Seq<char> {
    s.map_values(|c: char| ascii_lower(c))
}

/// Whether `c` is white space, as `char::is_whitespace` answers.
pub(crate) fn char_is_whitespace(c: char) -> (r: bool)
    ensures
        r == unicode_whitespace(c),
{
    let v = c as u32;
    (0x09 <= v && v <= 0x0D) || v == 0x20 || v == 0x85 || v == 0xA0 || v == 0x1680 || (0x2000 <= v && v <= 0x200A)
        || v == 0x2028 || v == 0x2029 || v == 0x202F || v == 0x205F || v == 0x3000
}

/// Calls `char::is_alphanumeric`.
#[verifier::external_body]
pub(crate) fn char_is_alphanumeric(c: char) -> (r: bool)
    ensures
        r == unicode_alphanumeric(c),
{
    c.is_alphanumeric()
}

/// `c` in ASCII lower case, as `char::to_ascii_lowercase` gives it:
/// `'A'..='Z'` become `'a'..='z'`, every other character stays.
pub(crate) fn char_to_ascii_lowercase(c: char) -> (r: char)
    ensures
        r == ascii_lower(c),
{
    if 'A' <= c && c <= 'Z' {
        let b: u8 = c as u8;
        (b + 32) as char
    } else {
        c
    }
}

/// Calls `String::push`, which appends one character.
#[verifier::external_body]
pub(crate) fn string_push(s: &mut String, c: char)
    ensures
        final(s)@ == old(s)@.push(c),
{
    s.push(c)
}

pub fn is_digit(c: char) -> (r: bool)
    ensures
        r == is_ascii_digit(c),
{
    let v = c as u32;
    48 <= v && v <= 57
}

// ---------------------------------------------------------------------
// Conversions between strings and character vectors
// ---------------------------------------------------------------------

pub fn chars_of(s: &str) -> (r: Vec<char>)
    ensures
        r@ == s@,
{
    let mut r: Vec<char> = Vec::new();
    for c in it: s.chars()
        invariant
            r@ == it.seq().take(it.index() as int),
            it.seq() == s@,
    {
        r.push(c);
        assert(r@ =~= it.seq().take(it.index() + 1));
    }
    assert(r@ =~= s@);
    r
}

pub fn string_of(v: &Vec<char>) -> (r: String)
    ensures
        r@ == v@,
{
    let mut r = String::new();
    let mut i: usize = 0;
    while i < v.len()
        invariant
            i <= v.len(),
            r@ == v@.take(i as int),
        decreases v.len() - i,
    {
        string_push(&mut r, v[i]);
        assert(r@ =~= v@.take(i + 1));
        i = i + 1;
    }
    assert(r@ =~= v@);
    r
}


// ---------------------------------------------------------------------
// Trimming
// ---------------------------------------------------------------------

/// Drops leading characters for which `p` holds.
pub open spec fn strip_start(s: Seq<char>, p: spec_fn(char) -> bool) -> Seq<char>
    decreases s.len(),
{
    if s.len() > 0 && p(s[0]) {
        strip_start(s.drop_first(), p)
    } else {
        s
    }
}

/// Drops trailing characters for which `p` holds.
pub open spec fn strip_end(s: Seq<char>, p: spec_fn(char) -> bool) -> Seq<char>
    decreases s.len(),
{
    if s.len() > 0 && p(s.last()) {
        strip_end(s.drop_last(), p)
    } else {
        s
    }
}

pub open spec fn is_ws() -> spec_fn(char) -> bool {
    |c: char| unicode_whitespace(c)
}

pub open spec fn is_char(x: char) -> spec_fn(char) -> bool {
    |c: char| c == x
}

/// `str::trim`: leading and trailing white space removed.
pub open spec fn trim(s: Seq<char>) -> Seq<char> {
    strip_end(strip_start(s, is_ws()), is_ws())
}

/// `str::trim_matches(x)` for a single character `x`.
pub open spec fn trim_char(s: Seq<char>, x: char) -> Seq<char> {
    strip_end(strip_start(s, is_char(x)), is_char(x))
}

pub proof fn lemma_strip_start_skip(s: Seq<char>, p: spec_fn(char) -> bool, k: int)
    requires
        0 <= k <= s.len(),
        forall|i: int| 0 <= i < k ==> p(#[trigger] s[i]),
        k == s.len() || !p(s[k]),
    ensures
        strip_start(s, p) == s.skip(k),
    decreases k,
{
    if k == 0 {
        assert(s.skip(0) =~= s);
    } else {
        let t = s.drop_first();
        assert forall|i: int| 0 <= i < k - 1 implies p(#[trigger] t[i]) by {
            assert(t[i] == s[i + 1]);
        }
        assert(p(s[0]));
        lemma_strip_start_skip(t, p, k - 1);
        assert(t.skip(k - 1) =~= s.skip(k));
    }
}

pub proof fn lemma_strip_end_take(s: Seq<char>, p: spec_fn(char) -> bool, k: int)
    requires
        0 <= k <= s.len(),
        forall|i: int| k <= i < s.len() ==> p(#[trigger] s[i]),
        k == 0 || !p(s[k - 1]),
    ensures
        strip_end(s, p) == s.take(k),
    decreases s.len() - k,
{
    if k == s.len() {
        assert(s.take(k) =~= s);
    } else {
        let t = s.drop_last();
        assert forall|i: int| k <= i < t.len() implies p(#[trigger] t[i]) by {
            assert(t[i] == s[i]);
        }
        assert(p(s.last()));
        lemma_strip_end_take(t, p, k);
        assert(t.take(k) =~= s.take(k));
    }
}

proof fn lemma_strip_start_head(s: Seq<char>, p: spec_fn(char) -> bool)
    ensures
        strip_start(s, p).len() == 0 || !p(strip_start(s, p)[0]),
    decreases s.len(),
{
    if s.len() > 0 && p(s[0]) {
        lemma_strip_start_head(s.drop_first(), p);
    }
}

proof fn lemma_strip_end_prefix(s: Seq<char>, p: spec_fn(char) -> bool)
    ensures
        strip_end(s, p) == s.take(strip_end(s, p).len() as int),
        strip_end(s, p).len() <= s.len(),
        strip_end(s, p).len() == 0 || !p(strip_end(s, p).last()),
    decreases s.len(),
{
    if s.len() > 0 && p(s.last()) {
        lemma_strip_end_prefix(s.drop_last(), p);
        let r = strip_end(s.drop_last(), p);
        assert(s.drop_last().take(r.len() as int) =~= s.take(r.len() as int));
    } else {
        assert(s.take(s.len() as int) =~= s);
    }
}

proof fn lemma_strip_start_len(s: Seq<char>, p: spec_fn(char) -> bool)
    ensures
        strip_start(s, p).len() <= s.len(),
    decreases s.len(),
{
    if s.len() > 0 && p(s[0]) {
        lemma_strip_start_len(s.drop_first(), p);
    }
}

/// Trimming never lengthens a text.
pub proof fn lemma_trim_len(s: Seq<char>)
    ensures
        trim(s).len() <= s.len(),
{
    lemma_strip_start_len(s, is_ws());
    lemma_strip_end_prefix(strip_start(s, is_ws()), is_ws());
}

/// Trimming twice is trimming once.
pub proof fn lemma_trim_idempotent(s: Seq<char>)
    ensures
        trim(trim(s)) == trim(s),
{
    let a = strip_start(s, is_ws());
    let t = trim(s);
    lemma_strip_start_head(s, is_ws());
    lemma_strip_end_prefix(a, is_ws());
    if t.len() > 0 {
        assert(t[0] == a[0]);
    }
    lemma_strip_start_skip(t, is_ws(), 0);
    assert(t.skip(0) =~= t);
    lemma_strip_end_take(t, is_ws(), t.len() as int);
    assert(t.take(t.len() as int) =~= t);
}

/// Index of the first character of `s@[from..to]` that is not white
/// space (or `to`).
fn first_non_ws(s: &Vec<char>, from: usize, to: usize) -> (k: usize)
    requires
        from <= to <= s.len(),
    ensures
        from <= k <= to,
        forall|i: int| from <= i < k ==> unicode_whitespace(#[trigger] s@[i]),
        k == to || !unicode_whitespace(s@[k as int]),
{
    let mut k = from;
    while k < to && char_is_whitespace(s[k])
        invariant
            from <= k <= to,
            to <= s.len(),
            forall|i: int| from <= i < k ==> unicode_whitespace(#[trigger] s@[i]),
        decreases to - k,
    {
        k = k + 1;
    }
    k
}

/// One past the last character of `s@[from..to]` that is not white space
/// (or `from`).
fn last_non_ws(s: &Vec<char>, from: usize, to: usize) -> (k: usize)
    requires
        from <= to <= s.len(),
    ensures
        from <= k <= to,
        forall|i: int| k <= i < to ==> unicode_whitespace(#[trigger] s@[i]),
        k == from || !unicode_whitespace(s@[k - 1]),
{
    let mut k = to;
    while k > from && char_is_whitespace(s[k - 1])
        invariant
            from <= k <= to,
            to <= s.len(),
            forall|i: int| k <= i < to ==> unicode_whitespace(#[trigger] s@[i]),
        decreases k - from,
    {
        k = k - 1;
    }
    k
}

pub fn slice_of(s: &Vec<char>, from: usize, to: usize) -> (r: Vec<char>)
    requires
        from <= to <= s.len(),
    ensures
        r@ == s@.subrange(from as int, to as int),
{
    let mut r: Vec<char> = Vec::new();
    let mut i = from;
    while i < to
        invariant
            from <= i <= to,
            to <= s.len(),
            r@ == s@.subrange(from as int, i as int),
        decreases to - i,
    {
        r.push(s[i]);
        assert(r@ =~= s@.subrange(from as int, i + 1));
        i = i + 1;
    }
    r
}

/// `str::trim`.
pub fn trim_chars(s: &Vec<char>) -> (r: Vec<char>)
    ensures
        r@ == trim(s@),
{
    let a = first_non_ws(s, 0, s.len());
    let b = last_non_ws(s, a, s.len());
    proof {
        lemma_strip_start_skip(s@, is_ws(), a as int);
        let t = s@.skip(a as int);
        assert forall|i: int| (b - a) <= i < t.len() implies is_ws()(#[trigger] t[i]) by {
            assert(t[i] == s@[i + a]);
        }
        if b > a {
            assert(t[b - a - 1] == s@[b - 1]);
        }
        lemma_strip_end_take(t, is_ws(), (b - a) as int);
        assert(t.take((b - a) as int) =~= s@.subrange(a as int, b as int));
    }
    slice_of(s, a, b)
}

/// `str::trim_matches(x)` for a single character `x`.
pub fn trim_char_chars(s: &Vec<char>, x: char) -> (r: Vec<char>)
    ensures
        r@ == trim_char(s@, x),
{
    let mut a: usize = 0;
    while a < s.len() && s[a] == x
        invariant
            a <= s.len(),
            forall|i: int| 0 <= i < a ==> #[trigger] s@[i] == x,
        decreases s.len() - a,
    {
        a = a + 1;
    }
    let mut b: usize = s.len();
    while b > a && s[b - 1] == x
        invariant
            a <= b <= s.len(),
            forall|i: int| b <= i < s.len() ==> #[trigger] s@[i] == x,
        decreases b - a,
    {
        b = b - 1;
    }
    proof {
        assert forall|i: int| 0 <= i < a implies is_char(x)(#[trigger] s@[i]) by {}
        lemma_strip_start_skip(s@, is_char(x), a as int);
        let t = s@.skip(a as int);
        assert forall|i: int| (b - a) <= i < t.len() implies is_char(x)(#[trigger] t[i]) by {
            assert(t[i] == s@[i + a]);
        }
        if b > a {
            assert(t[b - a - 1] == s@[b - 1]);
        }
        lemma_strip_end_take(t, is_char(x), (b - a) as int);
        assert(t.take((b - a) as int) =~= s@.subrange(a as int, b as int));
    }
    slice_of(s, a, b)
}

// ---------------------------------------------------------------------
// Case folding and comparison
// ---------------------------------------------------------------------

/// `str::to_ascii_lowercase`.
pub fn lower_chars(s: &Vec<char>) -> (r: Vec<char>)
    ensures
        r@ == lower_seq(s@),
{
    let mut r: Vec<char> = Vec::new();
    let mut i: usize = 0;
    while i < s.len()
        invariant
            i <= s.len(),
            r@ == lower_seq(s@.take(i as int)),
        decreases s.len() - i,
    {
        r.push(char_to_ascii_lowercase(s[i]));
        assert(r@ =~= lower_seq(s@.take(i + 1)));
        i = i + 1;
    }
    assert(s@.take(s.len() as int) =~= s@);
    r
}

pub fn chars_eq(a: &Vec<char>, b: &Vec<char>) -> (r: bool)
    ensures
        r == (a@ == b@),
{
    if a.len() != b.len() {
        return false;
    }
    let mut i: usize = 0;
    while i < a.len()
        invariant
            i <= a.len(),
            a.len() == b.len(),
            forall|j: int| 0 <= j < i ==> a@[j] == b@[j],
        decreases a.len() - i,
    {
        if a[i] != b[i] {
            return false;
        }
        i = i + 1;
    }
    assert(a@ =~= b@);
    true
}

/// Whether `needle` occurs as a contiguous run inside `hay`.
pub open spec fn contains_run(hay: Seq<char>, needle: Seq<char>) -> bool {
    exists|i: int| 0 <= i <= hay.len() - needle.len() && #[trigger] hay.subrange(i, i + needle.len()) == needle
}

pub fn run_at_index(hay: &Vec<char>, needle: &Vec<char>, at: usize) -> (r: bool)
    requires
        at + needle.len() <= hay.len(),
    ensures
        r == (hay@.subrange(at as int, at + needle.len()) == needle@),
{
    let mut j: usize = 0;
    while j < needle.len()
        invariant
            j <= needle.len(),
            at + needle.len() <= hay.len(),
            forall|k: int| 0 <= k < j ==> hay@[at + k] == needle@[k],
        decreases needle.len() - j,
    {
        if hay[at + j] != needle[j] {
            assert(hay@.subrange(at as int, at + needle.len())[j as int] != needle@[j as int]);
            return false;
        }
        j = j + 1;
    }
    assert(hay@.subrange(at as int, at + needle.len()) =~= needle@);
    true
}

/// `str::contains` with a string pattern.
pub fn contains_chars(hay: &Vec<char>, needle: &Vec<char>) -> (r: bool)
    ensures
        r == contains_run(hay@, needle@),
{
    if needle.len() > hay.len() {
        return false;
    }
    let last = hay.len() - needle.len();
    let mut i: usize = 0;
    loop
        invariant
            i <= last,
            last == hay.len() - needle.len(),
            needle.len() <= hay.len(),
            forall|k: int| 0 <= k < i ==> #[trigger] hay@.subrange(k, k + needle.len()) != needle@,
        decreases last - i,
    {
        if run_at_index(hay, needle, i) {
            return true;
        }
        if i == last {
            assert(!contains_run(hay@, needle@)) by {
                assert forall|k: int| 0 <= k <= hay.len() - needle.len() implies
                    #[trigger] hay@.subrange(k, k + needle.len()) != needle@ by {}
            }
            return false;
        }
        i = i + 1;
    }
}


// ---------------------------------------------------------------------
// Splitting
// ---------------------------------------------------------------------

pub open spec fn views(v: Seq<Vec<char>>) -> Seq<Seq<char>> {
    v.map_values(|x: Vec<char>| x@)
}

/// `str::split(x)` for a single character `x`: the pieces between the
/// occurrences of `x`, so an empty text gives one empty piece.
pub open spec fn split_on(s: Seq<char>, x: char) -> Seq<Seq<char>>
    decreases s.len(),
{
    if s.len() == 0 {
        seq![Seq::empty()]
    } else {
        let r = split_on(s.drop_last(), x);
        if s.last() == x {
            r.push(Seq::empty())
        } else {
            r.update(r.len() - 1, r.last().push(s.last()))
        }
    }
}

pub proof fn lemma_split_on_nonempty(s: Seq<char>, x: char)
    ensures
        split_on(s, x).len() >= 1,
    decreases s.len(),
{
    if s.len() > 0 {
        lemma_split_on_nonempty(s.drop_last(), x);
    }
}

pub fn split_chars(s: &Vec<char>, x: char) -> (r: Vec<Vec<char>>)
    ensures
        views(r@) == split_on(s@, x),
        r.len() >= 1,
{
    let mut r: Vec<Vec<char>> = Vec::new();
    let mut cur: Vec<char> = Vec::new();
    let mut i: usize = 0;
    while i < s.len()
        invariant
            i <= s.len(),
            views(r@.push(cur)) == split_on(s@.take(i as int), x),
        decreases s.len() - i,
    {
        let c = s[i];
        let ghost prev = split_on(s@.take(i as int), x);
        proof {
            lemma_split_on_nonempty(s@.take(i as int), x);
            assert(s@.take(i + 1).drop_last() =~= s@.take(i as int));
        }
        if c == x {
            let done = cur;
            r.push(done);
            cur = Vec::new();
            assert(views(r@.push(cur)) =~= prev.push(Seq::empty()));
        } else {
            let ghost old_cur = cur@;
            cur.push(c);
            assert(views(r@.push(cur)) =~= prev.update(prev.len() - 1, prev.last().push(c)));
        }
        i = i + 1;
    }
    assert(s@.take(s.len() as int) =~= s@);
    r.push(cur);
    r
}

/// Drops one trailing `'\r'`, if there is one.
pub open spec fn strip_cr(s: Seq<char>) -> Seq<char> {
    if s.len() > 0 && s.last() == '\r' {
        s.drop_last()
    } else {
        s
    }
}

/// `str::lines`: the text split at `'\n'`; a `'\r'` just before a `'\n'`
/// belongs to the line ending, and a final line ending does not start
/// another line.
pub open spec fn lines(s: Seq<char>) -> Seq<Seq<char>> {
    let parts = split_on(s, '\n');
    let n = parts.len();
    if s.len() == 0 {
        Seq::empty()
    } else if s.last() == '\n' {
        Seq::new((n - 1) as nat, |i: int| strip_cr(parts[i]))
    } else {
        Seq::new(n as nat, |i: int| if i < n - 1 { strip_cr(parts[i]) } else { parts[i] })
    }
}

proof fn lemma_split_last_empty(s: Seq<char>, x: char)
    requires
        s.len() > 0,
    ensures
        (s.last() == x) == (split_on(s, x).last().len() == 0),
        s.last() != x ==> split_on(s, x).last().last() == s.last(),
{
    lemma_split_on_nonempty(s.drop_last(), x);
}

pub fn lines_of(s: &Vec<char>) -> (r: Vec<Vec<char>>)
    ensures
        views(r@) == lines(s@),
{
    if s.len() == 0 {
        let r: Vec<Vec<char>> = Vec::new();
        assert(views(r@) =~= lines(s@));
        return r;
    }
    let parts = split_chars(s, '\n');
    let ghost p = split_on(s@, '\n');
    let ends_with_newline = s[s.len() - 1] == '\n';
    let n = parts.len();
    let mut r: Vec<Vec<char>> = Vec::new();
    let mut i: usize = 0;
    let count = if ends_with_newline { n - 1 } else { n };
    while i < count
        invariant
            i <= count,
            count <= n,
            n == parts.len(),
            views(parts@) == p,
            views(r@) == Seq::new(i as nat, |k: int| if k < n - 1 { strip_cr(p[k]) } else { p[k] }),
        decreases count - i,
    {
        let part = &parts[i];
        assert(part@ == p[i as int]);
        let line = if i + 1 < n && part.len() > 0 && part[part.len() - 1] == '\r' {
            slice_of(part, 0, part.len() - 1)
        } else {
            slice_of(part, 0, part.len())
        };
        proof {
            assert(part@.subrange(0, part@.len() as int) =~= part@);
            if part@.len() > 0 {
                assert(part@.drop_last() =~= part@.subrange(0, part@.len() - 1));
            }
            assert(line@ == (if i < n - 1 { strip_cr(p[i as int]) } else { p[i as int] }));
        }
        let ghost old_r = r@;
        r.push(line);
        assert(views(r@) =~= views(old_r).push(line@));
        assert(views(r@) =~= Seq::new((i + 1) as nat, |k: int| if k < n - 1 { strip_cr(p[k]) } else { p[k] }));
        i = i + 1;
    }
    proof {
        lemma_split_last_empty(s@, '\n');
        assert(views(r@) =~= lines(s@));
    }
    r
}

/// The pieces of `parts` joined with a single space between neighbours.
pub open spec fn join_spaces(parts: Seq<Seq<char>>) -> Seq<char>
    decreases parts.len(),
{
    if parts.len() == 0 {
        Seq::empty()
    } else if parts.len() == 1 {
        parts[0]
    } else {
        join_spaces(parts.drop_last()) + seq![' '] + parts.last()
    }
}

/// `<[String]>::join(" ")`.
pub fn join_with_spaces(parts: &Vec<Vec<char>>) -> (r: Vec<char>)
    ensures
        r@ == join_spaces(views(parts@)),
{
    let mut r: Vec<char> = Vec::new();
    let mut i: usize = 0;
    while i < parts.len()
        invariant
            i <= parts.len(),
            r@ == join_spaces(views(parts@).take(i as int)),
        decreases parts.len() - i,
    {
        let ghost prefix = views(parts@).take(i as int);
        assert(views(parts@).take(i + 1).drop_last() =~= prefix);
        if i > 0 {
            r.push(' ');
        }
        let mut j: usize = 0;
        let ghost base = r@;
        while j < parts[i].len()
            invariant
                i < parts.len(),
                j <= parts[i as int].len(),
                r@ == base + parts[i as int]@.take(j as int),
            decreases parts[i as int].len() - j,
        {
            r.push(parts[i][j]);
            assert(r@ =~= base + parts[i as int]@.take(j + 1));
            j = j + 1;
        }
        assert(parts[i as int]@.take(j as int) =~= parts[i as int]@);
        if i == 0 {
            assert(r@ =~= join_spaces(views(parts@).take(1)));
        } else {
            assert(r@ =~= join_spaces(views(parts@).take(i + 1)));
        }
        i = i + 1;
    }
    assert(views(parts@).take(parts.len() as int) =~= views(parts@));
    r
}

// ---------------------------------------------------------------------
// Decimal numbers
// ---------------------------------------------------------------------

pub open spec fn digit_char(d: nat) -> char {
    if d == 0 { '0' }
    else if d == 1 { '1' }
    else if d == 2 { '2' }
    else if d == 3 { '3' }
    else if d == 4 { '4' }
    else if d == 5 { '5' }
    else if d == 6 { '6' }
    else if d == 7 { '7' }
    else if d == 8 { '8' }
    else { '9' }
}

/// The decimal digits of `n`, as `Display` writes them.
pub open spec fn decimal(n: nat) -> Seq<char>
    decreases n,
{
    if n < 10 {
        seq![digit_char(n)]
    } else {
        decimal(n / 10).push(digit_char(n % 10))
    }
}

/// `Display` of a signed integer: a minus sign before the digits of the
/// magnitude when negative.
pub open spec fn signed_decimal(n: int) -> Seq<char> {
    if n < 0 {
        seq!['-'] + decimal((-n) as nat)
    } else {
        decimal(n as nat)
    }
}

fn digit_to_char(d: u64) -> (c: char)
    requires
        d < 10,
    ensures
        c == digit_char(d as nat),
{
    if d == 0 { '0' }
    else if d == 1 { '1' }
    else if d == 2 { '2' }
    else if d == 3 { '3' }
    else if d == 4 { '4' }
    else if d == 5 { '5' }
    else if d == 6 { '6' }
    else if d == 7 { '7' }
    else if d == 8 { '8' }
    else { '9' }
}

pub fn push_decimal(out: &mut Vec<char>, n: u64)
    ensures
        final(out)@ == old(out)@ + decimal(n as nat),
    decreases n,
{
    if n < 10 {
        out.push(digit_to_char(n));
        assert(final(out)@ =~= old(out)@ + decimal(n as nat));
    } else {
        push_decimal(out, n / 10);
        out.push(digit_to_char(n % 10));
        assert(final(out)@ =~= old(out)@ + decimal(n as nat));
    }
}

pub fn push_signed_decimal(out: &mut Vec<char>, n: i64)
    ensures
        final(out)@ == old(out)@ + signed_decimal(n as int),
{
    if n < 0 {
        out.push('-');
        let m: u64 = (0i128 - (n as i128)) as u64;
        push_decimal(out, m);
        assert(final(out)@ =~= old(out)@ + signed_decimal(n as int));
    } else {
        push_decimal(out, n as u64);
    }
}

/// Appends the characters of `s`.
pub fn push_str(out: &mut Vec<char>, s: &str)
    ensures
        final(out)@ == old(out)@ + s@,
{
    let v = chars_of(s);
    push_all(out, &v);
}

/// Appends the characters of `v`.
pub fn push_all(out: &mut Vec<char>, v: &Vec<char>)
    ensures
        final(out)@ == old(out)@ + v@,
{
    let ghost base = out@;
    let mut i: usize = 0;
    while i < v.len()
        invariant
            i <= v.len(),
            out@ == base + v@.take(i as int),
        decreases v.len() - i,
    {
        out.push(v[i]);
        assert(out@ =~= base + v@.take(i + 1));
        i = i + 1;
    }
    assert(v@.take(v.len() as int) =~= v@);
}


// ---------------------------------------------------------------------
// Integer parsing (`str::parse` for `i64` and `u64`)
// ---------------------------------------------------------------------

pub open spec fn all_digits(s: Seq<char>) -> bool {
    forall|i: int| 0 <= i < s.len() ==> is_ascii_digit(#[trigger] s[i])
}

/// The number that a run of ASCII digits denotes.
pub open spec fn digits_value(s: Seq<char>) -> nat
    decreases s.len(),
{
    if s.len() == 0 {
        0
    } else {
        digits_value(s.drop_last()) * 10 + ((s.last() as u32) - 48) as nat
    }
}

/// `i64::from_str`: an optional `+` or `-`, then at least one ASCII
/// digit, and the value must fit in an `i64`.
pub open spec fn parse_i64_spec(s: Seq<char>) -> Option<i64> {
    let neg = s.len() > 0 && s[0] == '-';
    let signed = s.len() > 0 && (s[0] == '-' || s[0] == '+');
    let body = if signed { s.drop_first() } else { s };
    let v: int = if neg { -(digits_value(body) as int) } else { digits_value(body) as int };
    if body.len() == 0 || !all_digits(body) || v < i64::MIN || v > i64::MAX {
        None
    } else {
        Some(v as i64)
    }
}

/// `u64::from_str`: an optional `+`, then at least one ASCII digit, and
/// the value must fit in a `u64`.
pub open spec fn parse_u64_spec(s: Seq<char>) -> Option<u64> {
    let body = if s.len() > 0 && s[0] == '+' { s.drop_first() } else { s };
    if body.len() == 0 || !all_digits(body) || digits_value(body) > u64::MAX {
        None
    } else {
        Some(digits_value(body) as u64)
    }
}

proof fn lemma_digits_value_grows(s: Seq<char>, k: int)
    requires
        0 <= k <= s.len(),
    ensures
        digits_value(s.take(k)) <= digits_value(s),
    decreases s.len() - k,
{
    if k < s.len() {
        lemma_digits_value_grows(s, k + 1);
        assert(s.take(k + 1).drop_last() =~= s.take(k));
    } else {
        assert(s.take(k) =~= s);
    }
}

/// The value of the digits `s@[from..]`, or `None` when one of them is not
/// an ASCII digit, there are none, or the value exceeds `limit`.
fn digits_up_to(s: &Vec<char>, from: usize, limit: u128) -> (r: Option<u128>)
    requires
        from <= s.len(),
        9 <= limit,
    ensures
        ({
            let body = s@.skip(from as int);
            match r {
                Some(v) => body.len() > 0 && all_digits(body) && v == digits_value(body) && v <= limit,
                None => body.len() == 0 || !all_digits(body) || digits_value(body) > limit,
            }
        }),
{
    let ghost body = s@.skip(from as int);
    if from == s.len() {
        return None;
    }
    let mut acc: u128 = 0;
    let mut i = from;
    while i < s.len()
        invariant
            from <= i <= s.len(),
            body == s@.skip(from as int),
            all_digits(body.take(i - from)),
            9 <= limit,
            acc == digits_value(body.take(i - from)),
            acc <= limit,
        decreases s.len() - i,
    {
        let c = s[i];
        assert(body[i - from] == c);
        if !is_digit(c) {
            assert(!all_digits(body));
            return None;
        }
        let d = (c as u32 - 48) as u128;
        assert(body.take(i - from + 1).drop_last() =~= body.take(i - from));
        if acc > (limit - d) / 10 {
            proof {
                assert(acc * 10 + d > limit) by (nonlinear_arith)
                    requires acc > (limit - d) / 10, d <= limit;
                lemma_digits_value_grows(body, i - from + 1);
            }
            return None;
        }
        proof {
            assert(acc * 10 + d <= limit) by (nonlinear_arith)
                requires acc <= (limit - d) / 10, d <= 9, acc >= 0;
        }
        acc = acc * 10 + d;
        i = i + 1;
    }
    assert(body.take(s.len() - from) =~= body);
    Some(acc)
}

/// `s.parse::<i64>()`.
pub fn parse_i64(s: &Vec<char>) -> (r: Option<i64>)
    ensures
        r == parse_i64_spec(s@),
{
    let neg = s.len() > 0 && s[0] == '-';
    let signed = s.len() > 0 && (s[0] == '-' || s[0] == '+');
    let from: usize = if signed { 1 } else { 0 };
    proof {
        if signed {
            assert(s@.skip(1) =~= s@.drop_first());
        } else {
            assert(s@.skip(0) =~= s@);
        }
    }
    let limit: u128 = if neg { 9223372036854775808 } else { 9223372036854775807 };
    match digits_up_to(s, from, limit) {
        None => None,
        Some(v) => {
            if neg {
                Some((0i128 - (v as i128)) as i64)
            } else {
                Some(v as i64)
            }
        },
    }
}

/// `s.parse::<u64>()`.
pub fn parse_u64(s: &Vec<char>) -> (r: Option<u64>)
    ensures
        r == parse_u64_spec(s@),
{
    let from: usize = if s.len() > 0 && s[0] == '+' { 1 } else { 0 };
    proof {
        if from == 1 {
            assert(s@.skip(1) =~= s@.drop_first());
        } else {
            assert(s@.skip(0) =~= s@);
        }
    }
    match digits_up_to(s, from, 18446744073709551615) {
        None => None,
        Some(v) => Some(v as u64),
    }
}


// ---------------------------------------------------------------------
// Splitting at characters chosen by a predicate
// ---------------------------------------------------------------------

/// `str::split(pred)`: the pieces between the characters for which `p`
/// holds.
pub open spec fn split_where(s: Seq<char>, p: spec_fn(char) -> bool) -> Seq<Seq<char>>
    decreases s.len(),
{
    if s.len() == 0 {
        seq![Seq::empty()]
    } else {
        let r = split_where(s.drop_last(), p);
        if p(s.last()) {
            r.push(Seq::empty())
        } else {
            r.update(r.len() - 1, r.last().push(s.last()))
        }
    }
}

pub proof fn lemma_split_where_nonempty(s: Seq<char>, p: spec_fn(char) -> bool)
    ensures
        split_where(s, p).len() >= 1,
    decreases s.len(),
{
    if s.len() > 0 {
        lemma_split_where_nonempty(s.drop_last(), p);
    }
}

pub open spec fn not_alphanumeric() -> spec_fn(char) -> bool {
    |c: char| !unicode_alphanumeric(c)
}

/// The non-empty pieces of `parts`, each lowered to ASCII lower case.
pub open spec fn nonempty_lowered(parts: Seq<Seq<char>>) -> Seq<Seq<char>>
    decreases parts.len(),
{
    if parts.len() == 0 {
        Seq::empty()
    } else {
        let r = nonempty_lowered(parts.drop_last());
        if parts.last().len() > 0 {
            r.push(lower_seq(parts.last()))
        } else {
            r
        }
    }
}

/// The words of `s`: its maximal runs of alphanumeric characters, in
/// ASCII lower case.
pub open spec fn tokens(s: Seq<char>) -> Seq<Seq<char>> {
    nonempty_lowered(split_where(s, not_alphanumeric()))
}

fn split_non_alphanumeric(s: &Vec<char>) -> (r: Vec<Vec<char>>)
    ensures
        views(r@) == split_where(s@, not_alphanumeric()),
{
    let mut r: Vec<Vec<char>> = Vec::new();
    let mut cur: Vec<char> = Vec::new();
    let mut i: usize = 0;
    while i < s.len()
        invariant
            i <= s.len(),
            views(r@.push(cur)) == split_where(s@.take(i as int), not_alphanumeric()),
        decreases s.len() - i,
    {
        let c = s[i];
        let ghost prev = split_where(s@.take(i as int), not_alphanumeric());
        proof {
            lemma_split_where_nonempty(s@.take(i as int), not_alphanumeric());
            assert(s@.take(i + 1).drop_last() =~= s@.take(i as int));
        }
        if !char_is_alphanumeric(c) {
            let done = cur;
            r.push(done);
            cur = Vec::new();
            assert(views(r@.push(cur)) =~= prev.push(Seq::empty()));
        } else {
            cur.push(c);
            assert(views(r@.push(cur)) =~= prev.update(prev.len() - 1, prev.last().push(c)));
        }
        i = i + 1;
    }
    assert(s@.take(s.len() as int) =~= s@);
    r.push(cur);
    r
}

/// The words of a text, as `normalized_tokens` finds them: split at every
/// character that is not alphanumeric, empty pieces dropped, ASCII lower
/// case.
pub fn normalized_tokens(value: &Vec<char>) -> (r: Vec<Vec<char>>)
    ensures
        views(r@) == tokens(value@),
        r@.len() <= value@.len(),
{
    let parts = split_non_alphanumeric(value);
    let ghost p = views(parts@);
    let mut r: Vec<Vec<char>> = Vec::new();
    let mut i: usize = 0;
    let ghost mut used: nat = 0;
    while i < parts.len()
        invariant
            i <= parts.len(),
            p == views(parts@),
            views(r@) == nonempty_lowered(p.take(i as int)),
            r@.len() <= i,
        decreases parts.len() - i,
    {
        assert(p.take(i + 1).drop_last() =~= p.take(i as int));
        if parts[i].len() > 0 {
            let low = lower_chars(&parts[i]);
            let ghost old_r = r@;
            r.push(low);
            assert(views(r@) =~= views(old_r).push(low@));
        }
        i = i + 1;
    }
    assert(p.take(parts.len() as int) =~= p);
    proof {
        lemma_split_pieces_bound(value@, not_alphanumeric());
        lemma_nonempty_lowered_len(p);
    }
    r
}

/// The non-empty pieces of a split are no more than the characters.
proof fn lemma_split_pieces_bound(s: Seq<char>, p: spec_fn(char) -> bool)
    ensures
        nonempty_count(split_where(s, p)) <= s.len(),
        split_where(s, p).last().len() <= s.len(),
    decreases s.len(),
{
    if s.len() == 0 {
        let e = split_where(s, p);
        assert(e.drop_last() =~= Seq::<Seq<char>>::empty());
        assert(nonempty_count(e.drop_last()) == 0);
    }
    if s.len() > 0 {
        let r = split_where(s.drop_last(), p);
        lemma_split_pieces_bound(s.drop_last(), p);
        lemma_split_where_nonempty(s.drop_last(), p);
        if p(s.last()) {
            assert(r.push(Seq::empty()).drop_last() =~= r);
            assert(nonempty_count(r.push(Seq::empty())) == nonempty_count(r));
        } else {
            let u = r.update(r.len() - 1, r.last().push(s.last()));
            lemma_nonempty_count_update_last(r, r.last().push(s.last()));
            assert(u.last() == r.last().push(s.last()));
            assert(u.drop_last() =~= r.drop_last());
            if r.last().len() > 0 {
                assert(nonempty_count(r) == nonempty_count(r.drop_last()) + 1);
                assert(nonempty_count(u) == nonempty_count(r.drop_last()) + 1);
            }
            if r.last().len() == 0 {
                assert(nonempty_count(r) == nonempty_count(r.drop_last()));
                assert(u.drop_last() =~= r.drop_last());
                assert(nonempty_count(u) == nonempty_count(r.drop_last()) + 1);
                lemma_nonempty_count_le_len(r.drop_last());
            }
        }
    }
}

pub open spec fn nonempty_count(parts: Seq<Seq<char>>) -> nat
    decreases parts.len(),
{
    if parts.len() == 0 {
        0
    } else {
        nonempty_count(parts.drop_last()) + if parts.last().len() > 0 { 1nat } else { 0nat }
    }
}

proof fn lemma_nonempty_count_le_len(r: Seq<Seq<char>>)
    ensures
        nonempty_count(r) <= r.len(),
    decreases r.len(),
{
    if r.len() > 0 {
        lemma_nonempty_count_le_len(r.drop_last());
    }
}

proof fn lemma_nonempty_count_update_last(r: Seq<Seq<char>>, x: Seq<char>)
    requires
        r.len() >= 1,
        x.len() > 0,
    ensures
        nonempty_count(r.update(r.len() - 1, x)) <= nonempty_count(r) + 1,
{
    assert(r.update(r.len() - 1, x).drop_last() =~= r.drop_last());
}

proof fn lemma_nonempty_lowered_len(p: Seq<Seq<char>>)
    ensures
        nonempty_lowered(p).len() == nonempty_count(p),
    decreases p.len(),
{
    if p.len() > 0 {
        lemma_nonempty_lowered_len(p.drop_last());
    }
}

// ---------------------------------------------------------------------
// Token sequences
// ---------------------------------------------------------------------

/// How many of `needles` a left-to-right scan of `hay` matches in turn.
pub open spec fn greedy_matched(needles: Seq<Seq<char>>, hay: Seq<Seq<char>>) -> nat
    decreases hay.len(),
{
    if hay.len() == 0 {
        0
    } else {
        let c = greedy_matched(needles, hay.drop_last());
        if c < needles.len() && hay.last() == needles[c as int] {
            c + 1
        } else {
            c
        }
    }
}

proof fn lemma_greedy_matched_bound(needles: Seq<Seq<char>>, hay: Seq<Seq<char>>)
    ensures
        greedy_matched(needles, hay) <= needles.len(),
    decreases hay.len(),
{
    if hay.len() > 0 {
        lemma_greedy_matched_bound(needles, hay.drop_last());
    }
}

/// Whether the needles occur in `hay` in their order (not necessarily
/// next to each other).
pub open spec fn in_order(needles: Seq<Seq<char>>, hay: Seq<Seq<char>>) -> bool {
    greedy_matched(needles, hay) == needles.len()
}

proof fn lemma_greedy_stays_full(needles: Seq<Seq<char>>, hay: Seq<Seq<char>>, k: int)
    requires
        0 <= k <= hay.len(),
        greedy_matched(needles, hay.take(k)) == needles.len(),
    ensures
        greedy_matched(needles, hay) == needles.len(),
    decreases hay.len() - k,
{
    if k == hay.len() {
        assert(hay.take(k) =~= hay);
    } else {
        assert(hay.take(k + 1).drop_last() =~= hay.take(k));
        lemma_greedy_stays_full(needles, hay, k + 1);
    }
}

/// `tokens_appear_in_order`: the scan stops as soon as the last needle
/// is matched.  It reads the first needle at the first token, so with no
/// needle the haystack must be empty, and then the answer is `false`.
pub fn tokens_appear_in_order(needles: &Vec<Vec<char>>, haystack: &Vec<Vec<char>>) -> (r: bool)
    requires
        needles.len() > 0 || haystack.len() == 0,
    ensures
        r == (needles.len() > 0 && in_order(views(needles@), views(haystack@))),
{
    if needles.len() == 0 {
        return false;
    }
    let ghost n = views(needles@);
    let ghost h = views(haystack@);
    let mut next: usize = 0;
    let mut i: usize = 0;
    while i < haystack.len()
        invariant
            i <= haystack.len(),
            n == views(needles@),
            h == views(haystack@),
            needles.len() > 0,
            next == greedy_matched(n, h.take(i as int)),
            next < needles.len(),
        decreases haystack.len() - i,
    {
        assert(h.take(i + 1).drop_last() =~= h.take(i as int));
        if chars_eq(&haystack[i], &needles[next]) {
            next = next + 1;
            if next == needles.len() {
                proof {
                    lemma_greedy_stays_full(n, h, i + 1);
                }
                return true;
            }
        }
        i = i + 1;
    }
    assert(h.take(haystack.len() as int) =~= h);
    false
}

// ---------------------------------------------------------------------
// Ordering of texts
// ---------------------------------------------------------------------

/// The code points of a text.
pub open spec fn codes(s: Seq<char>) -> Seq<u32> {
    s.map_values(|c: char| c as u32)
}

/// Lexicographic order of code point sequences.
pub open spec fn codes_lt(a: Seq<u32>, b: Seq<u32>) -> bool
    decreases a.len(),
{
    if a.len() == 0 {
        b.len() > 0
    } else if b.len() == 0 {
        false
    } else if a[0] != b[0] {
        a[0] < b[0]
    } else {
        codes_lt(a.drop_first(), b.drop_first())
    }
}

/// Lexicographic order by code point, which is the order `String`'s `Ord`
/// gives (UTF-8 keeps the code point order of characters).
pub open spec fn seq_lt(a: Seq<char>, b: Seq<char>) -> bool {
    codes_lt(codes(a), codes(b))
}

pub proof fn lemma_codes_lt_transitive(a: Seq<u32>, b: Seq<u32>, c: Seq<u32>)
    requires
        codes_lt(a, b),
        codes_lt(b, c),
    ensures
        codes_lt(a, c),
    decreases a.len(),
{
    if a.len() > 0 && b.len() > 0 && c.len() > 0 && a[0] == b[0] && b[0] == c[0] {
        lemma_codes_lt_transitive(a.drop_first(), b.drop_first(), c.drop_first());
    }
}

pub proof fn lemma_codes_lt_irreflexive(a: Seq<u32>)
    ensures
        !codes_lt(a, a),
    decreases a.len(),
{
    if a.len() > 0 {
        lemma_codes_lt_irreflexive(a.drop_first());
    }
}

pub proof fn lemma_codes_lt_total(a: Seq<u32>, b: Seq<u32>)
    ensures
        codes_lt(a, b) || codes_lt(b, a) || a == b,
        !(codes_lt(a, b) && codes_lt(b, a)),
    decreases a.len(),
{
    if a.len() > 0 && b.len() > 0 {
        lemma_codes_lt_total(a.drop_first(), b.drop_first());
        if a[0] == b[0] && a.drop_first() == b.drop_first() {
            assert forall|i: int| 0 <= i < a.len() implies a[i] == b[i] by {
                if i > 0 {
                    assert(a[i] == a.drop_first()[i - 1]);
                    assert(b[i] == b.drop_first()[i - 1]);
                }
            }
            assert(a =~= b);
        }
    } else if a.len() == 0 && b.len() == 0 {
        assert(a =~= b);
    }
}

fn lt_from(a: &Vec<char>, b: &Vec<char>, i: usize) -> (r: bool)
    requires
        i <= a.len(),
        i <= b.len(),
    ensures
        r == seq_lt(a@.skip(i as int), b@.skip(i as int)),
    decreases a.len() - i,
{
    let ghost x = a@.skip(i as int);
    let ghost y = b@.skip(i as int);
    if i == a.len() {
        assert(x.len() == 0);
        return i < b.len();
    }
    if i == b.len() {
        return false;
    }
    assert(codes(x)[0] == a@[i as int] as u32 && codes(y)[0] == b@[i as int] as u32);
    let ca = a[i] as u32;
    let cb = b[i] as u32;
    if ca != cb {
        return ca < cb;
    }
    assert(codes(x).drop_first() =~= codes(a@.skip(i + 1)));
    assert(codes(y).drop_first() =~= codes(b@.skip(i + 1)));
    lt_from(a, b, i + 1)
}

pub fn chars_lt(a: &Vec<char>, b: &Vec<char>) -> (r: bool)
    ensures
        r == seq_lt(a@, b@),
{
    assert(a@.skip(0) =~= a@);
    assert(b@.skip(0) =~= b@);
    lt_from(a, b, 0)
}


/// The non-empty pieces of `parts`, in order.
pub open spec fn nonempty_pieces(parts: Seq<Seq<char>>) -> Seq<Seq<char>>
    decreases parts.len(),
{
    if parts.len() == 0 {
        Seq::empty()
    } else {
        let r = nonempty_pieces(parts.drop_last());
        if parts.last().len() > 0 {
            r.push(parts.last())
        } else {
            r
        }
    }
}

/// `str::split_whitespace`: the maximal runs of characters that are not
/// white space.
pub open spec fn words(s: Seq<char>) -> Seq<Seq<char>> {
    nonempty_pieces(split_where(s, is_ws()))
}

fn split_at_whitespace(s: &Vec<char>) -> (r: Vec<Vec<char>>)
    ensures
        views(r@) == split_where(s@, is_ws()),
{
    let mut r: Vec<Vec<char>> = Vec::new();
    let mut cur: Vec<char> = Vec::new();
    let mut i: usize = 0;
    while i < s.len()
        invariant
            i <= s.len(),
            views(r@.push(cur)) == split_where(s@.take(i as int), is_ws()),
        decreases s.len() - i,
    {
        let c = s[i];
        let ghost prev = split_where(s@.take(i as int), is_ws());
        proof {
            lemma_split_where_nonempty(s@.take(i as int), is_ws());
            assert(s@.take(i + 1).drop_last() =~= s@.take(i as int));
        }
        if char_is_whitespace(c) {
            let done = cur;
            r.push(done);
            cur = Vec::new();
            assert(views(r@.push(cur)) =~= prev.push(Seq::empty()));
        } else {
            cur.push(c);
            assert(views(r@.push(cur)) =~= prev.update(prev.len() - 1, prev.last().push(c)));
        }
        i = i + 1;
    }
    assert(s@.take(s.len() as int) =~= s@);
    r.push(cur);
    r
}

/// The words of a text as `str::split_whitespace` yields them.
pub fn split_whitespace_chars(s: &Vec<char>) -> (r: Vec<Vec<char>>)
    ensures
        views(r@) == words(s@),
{
    let parts = split_at_whitespace(s);
    let ghost p = views(parts@);
    let mut r: Vec<Vec<char>> = Vec::new();
    let mut i: usize = 0;
    while i < parts.len()
        invariant
            i <= parts.len(),
            p == views(parts@),
            views(r@) == nonempty_pieces(p.take(i as int)),
        decreases parts.len() - i,
    {
        assert(p.take(i + 1).drop_last() =~= p.take(i as int));
        if parts[i].len() > 0 {
            let piece = slice_of(&parts[i], 0, parts[i].len());
            assert(parts[i as int]@.subrange(0, parts[i as int]@.len() as int) =~= parts[i as int]@);
            let ghost old_r = r@;
            r.push(piece);
            assert(views(r@) =~= views(old_r).push(piece@));
        }
        i = i + 1;
    }
    assert(p.take(parts.len() as int) =~= p);
    r
}


/// `[T]::join(sep)`: the pieces with `sep` between neighbours.
pub open spec fn join_with(parts: Seq<Seq<char>>, sep: Seq<char>) -> Seq<char>
    decreases parts.len(),
{
    if parts.len() == 0 {
        Seq::empty()
    } else if parts.len() == 1 {
        parts[0]
    } else {
        join_with(parts.drop_last(), sep) + sep + parts.last()
    }
}

pub fn join_chars(parts: &Vec<Vec<char>>, sep: &Vec<char>) -> (r: Vec<char>)
    ensures
        r@ == join_with(views(parts@), sep@),
{
    let mut out: Vec<char> = Vec::new();
    let mut i: usize = 0;
    while i < parts.len()
        invariant
            i <= parts.len(),
            out@ == join_with(views(parts@).take(i as int), sep@),
        decreases parts.len() - i,
    {
        let ghost before = out@;
        assert(views(parts@).take(i + 1).drop_last() =~= views(parts@).take(i as int));
        if i > 0 {
            push_all(&mut out, sep);
        }
        push_all(&mut out, &parts[i]);
        proof {
            if i == 0 {
                assert(out@ =~= views(parts@).take(1)[0]);
            } else {
                assert(views(parts@).take(i + 1).last() == parts@[i as int]@);
            }
        }
        i = i + 1;
    }
    assert(views(parts@).take(parts.len() as int) =~= views(parts@));
    out
}


/// What `str::to_lowercase` (Unicode lower case) makes of a text.
pub uninterp spec fn unicode_lower(s: Seq<char>) -> Seq<char>;

/// Calls `str::to_lowercase`; the contract claims only that the result is
/// the named function of the text.
#[verifier::external_body]
pub(crate) fn to_lowercase_text(s: &str) -> (r: String)
    ensures
        r@ == unicode_lower(s@),
{
    s.to_lowercase()
}

} // verus!
