//! Character-level text handling shared by every parser of the crate.
//!
//! Input text is turned into a `Vec<char>` once; the parsers then work on
//! index ranges of it, and every helper here states its result over the
//! `Seq<char>` of the range it was given.
use vstd::prelude::*;
use vstd::string::StrSliceExecFns;

verus! {

broadcast use vstd::string::group_string_axioms;

// ---------------------------------------------------------------------------
// Specifications
// ---------------------------------------------------------------------------

/// White space as `char::is_whitespace` defines it (the Unicode White_Space property).
pub open spec fn is_space(c: char) -> bool {
    let u = c as u32;
    ||| 0x09 <= u <= 0x0D
    ||| u == 0x20
    ||| u == 0x85
    ||| u == 0xA0
    ||| u == 0x1680
    ||| 0x2000 <= u <= 0x200A
    ||| u == 0x2028
    ||| u == 0x2029
    ||| u == 0x202F
    ||| u == 0x205F
    ||| u == 0x3000
}

/// `s` without its leading white space.
pub open spec fn trim_start(s: Seq<char>) -> Seq<char>
    decreases s.len(),
{
    if s.len() > 0 && is_space(s[0]) {
        trim_start(s.drop_first())
    } else {
        s
    }
}

/// `s` without its trailing white space.
pub open spec fn trim_end(s: Seq<char>) -> Seq<char>
    decreases s.len(),
{
    if s.len() > 0 && is_space(s.last()) {
        trim_end(s.drop_last())
    } else {
        s
    }
}

/// `s` without leading and trailing white space, as `str::trim` gives it.
pub open spec fn trim(s: Seq<char>) -> Seq<char> {
    trim_end(trim_start(s))
}

/// `s` without any number of leading `c`, as `str::trim_start_matches(c)` gives it.
pub open spec fn trim_start_char(s: Seq<char>, c: char) -> Seq<char>
    decreases s.len(),
{
    if s.len() > 0 && s[0] == c {
        trim_start_char(s.drop_first(), c)
    } else {
        s
    }
}

/// `k` is the position of the first `c` in `s`.
pub open spec fn is_first_char(s: Seq<char>, c: char, k: int) -> bool {
    &&& 0 <= k < s.len()
    &&& s[k] == c
    &&& forall|j: int| 0 <= j < k ==> s[j] != c
}

/// The position of the first `c` in `s`, if there is one.
pub open spec fn first_char(s: Seq<char>, c: char) -> Option<int> {
    if exists|k: int| is_first_char(s, c, k) {
        Some(choose|k: int| is_first_char(s, c, k))
    } else {
        None
    }
}

/// `p` occurs in `s` starting at `k`.
pub open spec fn matches_at(s: Seq<char>, k: int, p: Seq<char>) -> bool {
    &&& 0 <= k
    &&& k + p.len() <= s.len()
    &&& s.subrange(k, k + p.len()) == p
}

/// `k` is where the leftmost occurrence of `p` in `s` starts.
pub open spec fn is_first_match(s: Seq<char>, p: Seq<char>, k: int) -> bool {
    &&& matches_at(s, k, p)
    &&& forall|j: int| 0 <= j < k ==> !matches_at(s, j, p)
}

/// `k` is where the rightmost occurrence of `p` in `s` starts.
pub open spec fn is_last_match(s: Seq<char>, p: Seq<char>, k: int) -> bool {
    &&& matches_at(s, k, p)
    &&& forall|j: int| k < j ==> !matches_at(s, j, p)
}

/// Start of the leftmost occurrence of `p` in `s` (`str::find`).
pub open spec fn first_match(s: Seq<char>, p: Seq<char>) -> Option<int> {
    if exists|k: int| is_first_match(s, p, k) {
        Some(choose|k: int| is_first_match(s, p, k))
    } else {
        None
    }
}

/// Start of the rightmost occurrence of `p` in `s` (`str::rfind`).
pub open spec fn last_match(s: Seq<char>, p: Seq<char>) -> Option<int> {
    if exists|k: int| is_last_match(s, p, k) {
        Some(choose|k: int| is_last_match(s, p, k))
    } else {
        None
    }
}

/// `str::split_once` with a character pattern.
pub open spec fn split_once_char(s: Seq<char>, c: char) -> Option<(Seq<char>, Seq<char>)> {
    match first_char(s, c) {
        Some(i) => Some((s.take(i), s.skip(i + 1))),
        None => None,
    }
}

/// `str::split_once` with a string pattern.
pub open spec fn split_once_pat(s: Seq<char>, p: Seq<char>) -> Option<(Seq<char>, Seq<char>)> {
    match first_match(s, p) {
        Some(i) => Some((s.take(i), s.skip(i + p.len()))),
        None => None,
    }
}

/// The pieces of `s` between occurrences of `c` (`str::split` with a character).
pub open spec fn split_all(s: Seq<char>, c: char) -> Seq<Seq<char>>
    decreases s.len(),
{
    match first_char(s, c) {
        Some(i) => seq![s.take(i)] + split_all(s.skip(i + 1), c),
        None => seq![s],
    }
}

/// A line without the carriage return of a `\r\n` ending.
pub open spec fn strip_cr(line: Seq<char>) -> Seq<char> {
    if line.len() > 0 && line.last() == '\r' {
        line.drop_last()
    } else {
        line
    }
}

/// The lines of `s`, as `str::lines` yields them: split at `\n`, a `\r` before
/// the `\n` dropped, and no empty line after a final line ending.
pub open spec fn lines(s: Seq<char>) -> Seq<Seq<char>>
    decreases s.len(),
{
    if s.len() == 0 {
        seq![]
    } else {
        match first_char(s, '\n') {
            Some(i) => seq![strip_cr(s.take(i))] + lines(s.skip(i + 1)),
            None => seq![s],
        }
    }
}

/// The code of `c` with ASCII upper case mapped to lower case.
pub open spec fn ascii_fold(c: char) -> u32 {
    let u = c as u32;
    if 0x41 <= u <= 0x5A {
        (u + 0x20) as u32
    } else {
        u
    }
}

/// `str::eq_ignore_ascii_case`.
pub open spec fn eq_ignore_ascii_case(a: Seq<char>, b: Seq<char>) -> bool {
    &&& a.len() == b.len()
    &&& forall|i: int| 0 <= i < a.len() ==> ascii_fold(a[i]) == ascii_fold(b[i])
}

/// `s` starts with `c`.
pub open spec fn starts_with_char(s: Seq<char>, c: char) -> bool {
    s.len() > 0 && s[0] == c
}

/// The decimal digit for `d < 10`.
pub open spec fn digit(d: nat) -> char {
    if d == 0 {
        '0'
    } else if d == 1 {
        '1'
    } else if d == 2 {
        '2'
    } else if d == 3 {
        '3'
    } else if d == 4 {
        '4'
    } else if d == 5 {
        '5'
    } else if d == 6 {
        '6'
    } else if d == 7 {
        '7'
    } else if d == 8 {
        '8'
    } else {
        '9'
    }
}

/// The decimal representation of `n`, without leading zeros.
pub open spec fn decimal(n: nat) -> Seq<char>
    decreases n,
{
    if n < 10 {
        seq![digit(n)]
    } else {
        decimal(n / 10).push(digit(n % 10))
    }
}

/// What `str::to_lowercase` returns for a string with these characters.
pub uninterp spec fn lowercase(s: Seq<char>) -> Seq<char>;

/// `k` is the position of the first white space in `s`.
pub open spec fn is_first_space(s: Seq<char>, k: int) -> bool {
    &&& 0 <= k < s.len()
    &&& is_space(s[k])
    &&& forall|j: int| 0 <= j < k ==> !is_space(s[j])
}

/// Where the word at the start of `s` ends: at the first white space, or at the end.
pub open spec fn word_end(s: Seq<char>) -> int {
    if exists|k: int| is_first_space(s, k) {
        choose|k: int| is_first_space(s, k)
    } else {
        s.len() as int
    }
}

/// The first white-space separated word of `s`, and the text after it.
pub open spec fn first_word(s: Seq<char>) -> Option<(Seq<char>, Seq<char>)> {
    let t = trim_start(s);
    if t.len() == 0 {
        None
    } else {
        Some((t.take(word_end(t)), t.skip(word_end(t))))
    }
}

/// The white-space separated words of `s` (`str::split_whitespace`).
pub open spec fn words(s: Seq<char>) -> Seq<Seq<char>>
    decreases s.len(),
{
    match first_word(s) {
        Some((w, rest)) => {
            proof {
                lemma_first_word_shrinks(s);
            }
            seq![w] + words(rest)
        },
        None => seq![],
    }
}

/// The lines after the first one (`Iterator::skip(1)` on lines).
pub open spec fn after_header(ls: Seq<Seq<char>>) -> Seq<Seq<char>> {
    if ls.len() == 0 {
        ls
    } else {
        ls.skip(1)
    }
}

/// The views of an optional string.
pub open spec fn opt_view(o: Option<String>) -> Option<Seq<char>> {
    match o {
        Some(s) => Some(s@),
        None => None,
    }
}

// ---------------------------------------------------------------------------
// Lemmas
// ---------------------------------------------------------------------------

/// Trimming leading white space leaves a suffix that starts with a non-space.
pub proof fn lemma_trim_start(s: Seq<char>)
    ensures
        trim_start(s).len() <= s.len(),
        trim_start(s) == s.skip(s.len() - trim_start(s).len()),
        trim_start(s).len() > 0 ==> !is_space(trim_start(s)[0]),
    decreases s.len(),
{
    if s.len() > 0 && is_space(s[0]) {
        lemma_trim_start(s.drop_first());
        assert(s.drop_first().skip(s.drop_first().len() - trim_start(s).len()) =~= s.skip(
            s.len() - trim_start(s).len(),
        ));
    } else {
        assert(s.skip(0) =~= s);
    }
}

/// The text after a word is shorter than the text the word starts.
pub proof fn lemma_first_word_shrinks(s: Seq<char>)
    ensures
        first_word(s) matches Some((w, rest)) ==> rest.len() < s.len() && w.len() > 0,
{
    lemma_trim_start(s);
    let t = trim_start(s);
    if t.len() > 0 {
        if exists|k: int| is_first_space(t, k) {
            let k = choose|k: int| is_first_space(t, k);
            assert(k != 0);
        }
    }
}

pub proof fn lemma_first_char_is(s: Seq<char>, c: char, k: int)
    requires
        is_first_char(s, c, k),
    ensures
        first_char(s, c) == Some(k),
{
    let k2 = choose|k2: int| is_first_char(s, c, k2);
    assert(is_first_char(s, c, k2));
    if k2 < k {
        assert(s[k2] != c);
    } else if k < k2 {
        assert(s[k] != c);
    }
}

pub proof fn lemma_first_char_none(s: Seq<char>, c: char)
    requires
        forall|j: int| 0 <= j < s.len() ==> s[j] != c,
    ensures
        first_char(s, c) is None,
{
}

pub proof fn lemma_first_match_some(s: Seq<char>, p: Seq<char>)
    requires
        first_match(s, p) is Some,
    ensures
        is_first_match(s, p, first_match(s, p)->0),
{
}

pub proof fn lemma_last_match_some(s: Seq<char>, p: Seq<char>)
    requires
        last_match(s, p) is Some,
    ensures
        is_last_match(s, p, last_match(s, p)->0),
{
}

pub proof fn lemma_first_match_is(s: Seq<char>, p: Seq<char>, k: int)
    requires
        is_first_match(s, p, k),
    ensures
        first_match(s, p) == Some(k),
{
    let k2 = choose|k2: int| is_first_match(s, p, k2);
    assert(is_first_match(s, p, k2));
    if k2 < k {
        assert(!matches_at(s, k2, p));
    } else if k < k2 {
        assert(!matches_at(s, k, p));
    }
}

pub proof fn lemma_last_match_is(s: Seq<char>, p: Seq<char>, k: int)
    requires
        is_last_match(s, p, k),
    ensures
        last_match(s, p) == Some(k),
{
    let k2 = choose|k2: int| is_last_match(s, p, k2);
    assert(is_last_match(s, p, k2));
    if k2 < k {
        assert(!matches_at(s, k, p));
    } else if k < k2 {
        assert(!matches_at(s, k2, p));
    }
}

/// The lines of `s` start with the line that ends at the first `\n` (or at the end).
pub proof fn lemma_lines_step(s: Seq<char>, i: int)
    requires
        0 <= i <= s.len(),
        s.len() > 0,
        forall|j: int| 0 <= j < i ==> s[j] != '\n',
        i < s.len() ==> s[i] == '\n',
    ensures
        i < s.len() ==> lines(s) == seq![strip_cr(s.take(i))] + lines(s.skip(i + 1)),
        i == s.len() ==> lines(s) == seq![s],
{
    if i < s.len() {
        lemma_first_char_is(s, '\n', i);
    } else {
        lemma_first_char_none(s, '\n');
    }
}

/// A character that occurs has a first occurrence.
proof fn lemma_first_char_exists(s: Seq<char>, c: char, k: int)
    requires
        0 <= k < s.len(),
        s[k] == c,
    ensures
        exists|i: int| is_first_char(s, c, i),
    decreases k,
{
    if exists|j: int| 0 <= j < k && s[j] == c {
        let j = choose|j: int| 0 <= j < k && s[j] == c;
        lemma_first_char_exists(s, c, j);
    } else {
        assert(is_first_char(s, c, k));
    }
}

/// A line put after a text that ends in neither `\n` nor `\r` becomes its
/// last line.
pub proof fn lemma_lines_append(c: Seq<char>, l: Seq<char>)
    requires
        c.len() > 0,
        c.last() != '\n',
        c.last() != '\r',
        l.len() > 0,
        forall|j: int| 0 <= j < l.len() ==> l[j] != '\n',
    ensures
        lines(c + seq!['\n'] + l) == lines(c).push(l),
    decreases c.len(),
{
    let s = c + seq!['\n'] + l;
    if exists|k: int| is_first_char(c, '\n', k) {
        let i = choose|k: int| is_first_char(c, '\n', k);
        assert(i < c.len() - 1);
        lemma_lines_step(c, i);
        assert forall|j: int| 0 <= j < i implies s[j] != '\n' by {
            assert(s[j] == c[j]);
        }
        assert(s[i] == c[i]);
        lemma_lines_step(s, i);
        let rest = c.skip(i + 1);
        assert(s.take(i) =~= c.take(i));
        assert(s.skip(i + 1) =~= rest + seq!['\n'] + l);
        assert(rest.last() == c.last());
        lemma_lines_append(rest, l);
        assert(lines(s) =~= lines(c).push(l));
    } else {
        assert forall|j: int| 0 <= j < c.len() implies c[j] != '\n' by {
            if c[j] == '\n' {
                lemma_first_char_exists(c, '\n', j);
            }
        }
        lemma_first_char_none(c, '\n');
        lemma_lines_step(c, c.len() as int);
        assert forall|j: int| 0 <= j < c.len() implies s[j] != '\n' by {
            assert(s[j] == c[j]);
        }
        assert(s[c.len() as int] == '\n');
        lemma_lines_step(s, c.len() as int);
        assert(s.take(c.len() as int) =~= c);
        assert(s.skip(c.len() as int + 1) =~= l);
        lemma_first_char_none(l, '\n');
        lemma_lines_step(l, l.len() as int);
        assert(strip_cr(c) == c);
        assert(lines(s) =~= lines(c).push(l));
    }
}

/// Joins what `next_line` says of one line into the running split of a text.
pub proof fn lemma_lines_advance(
    all: Seq<Seq<char>>,
    done: Seq<Seq<char>>,
    line: Seq<char>,
    rest: Seq<Seq<char>>,
    after: Seq<Seq<char>>,
)
    requires
        all == done + rest,
        rest == seq![line] + after,
    ensures
        all == done.push(line) + after,
{
    assert(done + (seq![line] + after) =~= done.push(line) + after);
}

/// Skipping the first line, one line later.
pub proof fn lemma_after_header_push(done: Seq<Seq<char>>, line: Seq<char>)
    ensures
        done.len() == 0 ==> after_header(done.push(line)) == Seq::<Seq<char>>::empty(),
        done.len() > 0 ==> after_header(done.push(line)) == after_header(done).push(line),
{
    if done.len() == 0 {
        assert(done.push(line).skip(1) =~= Seq::<Seq<char>>::empty());
    } else {
        assert(done.push(line).skip(1) =~= done.skip(1).push(line));
    }
}

/// A text cut at its end has no lines left.
pub proof fn lemma_lines_done(v: Seq<char>, all: Seq<Seq<char>>, done: Seq<Seq<char>>)
    requires
        all == done + lines(v.subrange(v.len() as int, v.len() as int)),
    ensures
        all == done,
{
    assert(v.subrange(v.len() as int, v.len() as int) =~= Seq::<char>::empty());
    assert(lines(Seq::<char>::empty()) =~= Seq::<Seq<char>>::empty());
    assert(done + Seq::<Seq<char>>::empty() =~= done);
}

/// The split of a whole text starts with nothing done.
pub proof fn lemma_lines_start(v: Seq<char>)
    ensures
        lines(v) == Seq::<Seq<char>>::empty() + lines(v.subrange(0, v.len() as int)),
{
    assert(v.subrange(0, v.len() as int) =~= v);
    assert(Seq::<Seq<char>>::empty() + lines(v) =~= lines(v));
}

// ---------------------------------------------------------------------------
// Executable helpers over character ranges
// ---------------------------------------------------------------------------

/// The characters of a string slice, in order.
pub fn chars_of(s: &str) -> (v: Vec<char>)
    ensures
        v@ == s@,
{
    let mut v: Vec<char> = Vec::new();
    for c in it: s.chars()
        invariant
            v@ == it.seq().take(it.index() as int),
            it.seq() == s@,
    {
        v.push(c);
    }
    v
}

/// Appends one character (`String::push`). Claimed of it: the string gains
/// exactly that character at its end.
#[verifier::external_body]
pub(crate) fn push_char(s: &mut String, c: char)
    ensures
        final(s)@ == old(s)@.push(c),
{
    s.push(c)
}

/// Whether two string slices hold the same characters.
pub(crate) fn same_text(a: &str, b: &str) -> (r: bool)
    ensures
        r == (a@ == b@),
{
    let v = chars_of(a);
    let w = chars_of(b);
    assert(v@.subrange(0, v@.len() as int) =~= v@);
    range_eq(&v, 0, v.len(), &w)
}

/// The lower-case form of a string (`str::to_lowercase`). Claimed of it: the
/// result is what [`lowercase`] names for these characters, and it is empty
/// exactly when the input is (every character lowers to one or more
/// characters). The Unicode case mapping itself is left unsaid.
#[verifier::external_body]
pub(crate) fn to_lower(s: &str) -> (r: String)
    ensures
        r@ == lowercase(s@),
        r@.len() == 0 <==> s@.len() == 0,
{
    s.to_lowercase()
}

/// An owned copy of a string slice.
pub fn own(s: &str) -> (r: String)
    ensures
        r@ == s@,
{
    s.to_string()
}

/// `char::is_whitespace`.
pub fn is_space_char(c: char) -> (r: bool)
    ensures
        r == is_space(c),
{
    let u = c as u32;
    (0x09 <= u && u <= 0x0D) || u == 0x20 || u == 0x85 || u == 0xA0 || u == 0x1680 || (0x2000
        <= u && u <= 0x200A) || u == 0x2028 || u == 0x2029 || u == 0x202F || u == 0x205F || u
        == 0x3000
}

/// A new string holding the characters `v[lo..hi]`.
pub fn string_of(v: &Vec<char>, lo: usize, hi: usize) -> (s: String)
    requires
        lo <= hi <= v@.len(),
    ensures
        s@ == v@.subrange(lo as int, hi as int),
{
    let mut s = String::new();
    let mut i = lo;
    while i < hi
        invariant
            lo <= i <= hi <= v@.len(),
            s@ == v@.subrange(lo as int, i as int),
        decreases hi - i,
    {
        push_char(&mut s, v[i]);
        assert(v@.subrange(lo as int, i + 1) =~= v@.subrange(lo as int, i as int).push(v@[i as int]));
        i = i + 1;
    }
    s
}

/// Appends the characters `v[lo..hi]` to `s`.
pub fn append_range(s: &mut String, v: &Vec<char>, lo: usize, hi: usize)
    requires
        lo <= hi <= v@.len(),
    ensures
        final(s)@ == old(s)@ + v@.subrange(lo as int, hi as int),
{
    let mut i = lo;
    while i < hi
        invariant
            lo <= i <= hi <= v@.len(),
            s@ == old(s)@ + v@.subrange(lo as int, i as int),
        decreases hi - i,
    {
        push_char(s, v[i]);
        assert(v@.subrange(lo as int, i + 1) =~= v@.subrange(lo as int, i as int).push(v@[i as int]));
        i = i + 1;
    }
}

/// Appends a string slice to `s`.
pub fn append_str(s: &mut String, t: &str)
    ensures
        final(s)@ == old(s)@ + t@,
{
    let v = chars_of(t);
    append_range(s, &v, 0, v.len());
    assert(v@.subrange(0, v@.len() as int) =~= v@);
}

/// The range of `v[lo..hi]` that is left once white space is trimmed from both ends.
pub fn trim_range(v: &Vec<char>, lo: usize, hi: usize) -> (r: (usize, usize))
    requires
        lo <= hi <= v@.len(),
    ensures
        lo <= r.0 <= r.1 <= hi,
        v@.subrange(r.0 as int, r.1 as int) == trim(v@.subrange(lo as int, hi as int)),
{
    let mut a = lo;
    while a < hi && is_space_char(v[a])
        invariant
            lo <= a <= hi <= v@.len(),
            trim_start(v@.subrange(lo as int, hi as int)) == trim_start(v@.subrange(a as int, hi as int)),
        decreases hi - a,
    {
        assert(v@.subrange(a as int, hi as int).drop_first() =~= v@.subrange(a + 1, hi as int));
        a = a + 1;
    }
    assert(trim_start(v@.subrange(a as int, hi as int)) == v@.subrange(a as int, hi as int));
    let mut b = hi;
    while b > a && is_space_char(v[b - 1])
        invariant
            lo <= a <= b <= hi <= v@.len(),
            trim_end(v@.subrange(a as int, hi as int)) == trim_end(v@.subrange(a as int, b as int)),
        decreases b - a,
    {
        assert(v@.subrange(a as int, b as int).drop_last() =~= v@.subrange(a as int, b - 1));
        b = b - 1;
    }
    (a, b)
}

/// Where `v[lo..hi]` continues once every leading `c` is skipped.
pub fn skip_leading(v: &Vec<char>, lo: usize, hi: usize, c: char) -> (r: usize)
    requires
        lo <= hi <= v@.len(),
    ensures
        lo <= r <= hi,
        v@.subrange(r as int, hi as int) == trim_start_char(v@.subrange(lo as int, hi as int), c),
{
    let mut a = lo;
    while a < hi && v[a] == c
        invariant
            lo <= a <= hi <= v@.len(),
            trim_start_char(v@.subrange(lo as int, hi as int), c) == trim_start_char(
                v@.subrange(a as int, hi as int),
                c,
            ),
        decreases hi - a,
    {
        assert(v@.subrange(a as int, hi as int).drop_first() =~= v@.subrange(a + 1, hi as int));
        a = a + 1;
    }
    a
}

/// The range of the first white-space separated word of `v[lo..hi]`.
pub fn next_word(v: &Vec<char>, lo: usize, hi: usize) -> (r: Option<(usize, usize)>)
    requires
        lo <= hi <= v@.len(),
    ensures
        match r {
            Some((ws, we)) => lo <= ws < we <= hi && first_word(v@.subrange(lo as int, hi as int))
                == Some((v@.subrange(ws as int, we as int), v@.subrange(we as int, hi as int))),
            None => first_word(v@.subrange(lo as int, hi as int)) is None,
        },
{
    let mut a = lo;
    while a < hi && is_space_char(v[a])
        invariant
            lo <= a <= hi <= v@.len(),
            trim_start(v@.subrange(lo as int, hi as int)) == trim_start(v@.subrange(a as int, hi as int)),
        decreases hi - a,
    {
        assert(v@.subrange(a as int, hi as int).drop_first() =~= v@.subrange(a + 1, hi as int));
        a = a + 1;
    }
    let ghost t = v@.subrange(a as int, hi as int);
    assert(trim_start(t) == t);
    if a == hi {
        return None;
    }
    let mut e = a;
    while e < hi && !is_space_char(v[e])
        invariant
            a <= e <= hi <= v@.len(),
            t == v@.subrange(a as int, hi as int),
            forall|j: int| 0 <= j < e - a ==> !is_space(t[j]),
        decreases hi - e,
    {
        e = e + 1;
    }
    proof {
        if e < hi {
            assert(is_first_space(t, e - a));
            let k = choose|k: int| is_first_space(t, k);
            if k < e - a {
                assert(!is_space(t[k]));
            } else if k > e - a {
                assert(!is_space(t[e - a]));
            }
            assert(word_end(t) == e - a);
        } else {
            assert(!exists|k: int| is_first_space(t, k));
        }
        assert(t.take(e - a) =~= v@.subrange(a as int, e as int));
        assert(t.skip(e - a) =~= v@.subrange(e as int, hi as int));
    }
    Some((a, e))
}

/// Position of the first `c` in `v[lo..hi]`.
pub fn find_char(v: &Vec<char>, lo: usize, hi: usize, c: char) -> (r: Option<usize>)
    requires
        lo <= hi <= v@.len(),
    ensures
        match r {
            Some(k) => lo <= k < hi && first_char(v@.subrange(lo as int, hi as int), c) == Some(
                k - lo,
            ),
            None => first_char(v@.subrange(lo as int, hi as int), c) is None,
        },
{
    let ghost s = v@.subrange(lo as int, hi as int);
    let mut i = lo;
    while i < hi
        invariant
            lo <= i <= hi <= v@.len(),
            s == v@.subrange(lo as int, hi as int),
            forall|j: int| 0 <= j < i - lo ==> s[j] != c,
        decreases hi - i,
    {
        if v[i] == c {
            proof {
                lemma_first_char_is(s, c, i - lo);
            }
            return Some(i);
        }
        i = i + 1;
    }
    proof {
        lemma_first_char_none(s, c);
    }
    None
}

/// Whether `v[lo..hi]` holds exactly the characters of `p`.
pub fn range_eq(v: &Vec<char>, lo: usize, hi: usize, p: &Vec<char>) -> (r: bool)
    requires
        lo <= hi <= v@.len(),
    ensures
        r == (v@.subrange(lo as int, hi as int) == p@),
{
    if hi - lo != p.len() {
        return false;
    }
    let mut i: usize = 0;
    while i < p.len()
        invariant
            lo <= hi <= v@.len(),
            hi - lo == p@.len(),
            0 <= i <= p@.len(),
            forall|j: int| 0 <= j < i ==> v@[lo + j] == p@[j],
        decreases p@.len() - i,
    {
        if v[lo + i] != p[i] {
            assert(v@.subrange(lo as int, hi as int)[i as int] != p@[i as int]);
            return false;
        }
        i = i + 1;
    }
    assert(v@.subrange(lo as int, hi as int) =~= p@);
    true
}

/// Whether `v[lo..hi]` equals `p` when ASCII letters are compared without case.
pub fn range_eq_ignore_ascii_case(v: &Vec<char>, lo: usize, hi: usize, p: &Vec<char>) -> (r:
    bool)
    requires
        lo <= hi <= v@.len(),
    ensures
        r == eq_ignore_ascii_case(v@.subrange(lo as int, hi as int), p@),
{
    let ghost s = v@.subrange(lo as int, hi as int);
    if hi - lo != p.len() {
        return false;
    }
    let mut i: usize = 0;
    while i < p.len()
        invariant
            lo <= hi <= v@.len(),
            s == v@.subrange(lo as int, hi as int),
            hi - lo == p@.len(),
            0 <= i <= p@.len(),
            forall|j: int| 0 <= j < i ==> ascii_fold(s[j]) == ascii_fold(p@[j]),
        decreases p@.len() - i,
    {
        if fold_char(v[lo + i]) != fold_char(p[i]) {
            return false;
        }
        i = i + 1;
    }
    true
}

/// The code of `c` with ASCII upper case folded to lower case.
pub fn fold_char(c: char) -> (r: u32)
    ensures
        r == ascii_fold(c),
{
    let u = c as u32;
    if 0x41 <= u && u <= 0x5A {
        u + 0x20
    } else {
        u
    }
}

/// Start of the leftmost occurrence of `p` in `v[lo..hi]`.
pub fn find_pat(v: &Vec<char>, lo: usize, hi: usize, p: &Vec<char>) -> (r: Option<usize>)
    requires
        lo <= hi <= v@.len(),
    ensures
        match r {
            Some(k) => lo <= k <= hi && first_match(v@.subrange(lo as int, hi as int), p@) == Some(
                k - lo,
            ),
            None => first_match(v@.subrange(lo as int, hi as int), p@) is None,
        },
{
    let ghost s = v@.subrange(lo as int, hi as int);
    if p.len() > hi - lo {
        proof {
            assert forall|k: int| !is_first_match(s, p@, k) by {}
        }
        return None;
    }
    if p.len() == 0 {
        proof {
            assert(s.subrange(0, 0) =~= p@);
            lemma_first_match_is(s, p@, 0);
        }
        return Some(lo);
    }
    let last = hi - p.len();
    let mut i = lo;
    while i <= last
        invariant
            lo <= i <= last + 1,
            last + p@.len() == hi,
            p@.len() >= 1,
            hi <= v@.len(),
            s == v@.subrange(lo as int, hi as int),
            forall|j: int| 0 <= j < i - lo ==> !matches_at(s, j, p@),
        decreases last + 1 - i,
    {
        let m = range_eq(v, i, i + p.len(), p);
        assert(s.subrange(i - lo, i - lo + p@.len()) =~= v@.subrange(i as int, i + p@.len()));
        if m {
            proof {
                lemma_first_match_is(s, p@, i - lo);
            }
            return Some(i);
        }
        i = i + 1;
    }
    proof {
        assert forall|k: int| !is_first_match(s, p@, k) by {
            if is_first_match(s, p@, k) {
                assert(!matches_at(s, k, p@));
            }
        }
    }
    None
}

/// Start of the rightmost occurrence of `p` in `v[lo..hi]`.
pub fn rfind_pat(v: &Vec<char>, lo: usize, hi: usize, p: &Vec<char>) -> (r: Option<usize>)
    requires
        lo <= hi <= v@.len(),
    ensures
        match r {
            Some(k) => lo <= k <= hi && last_match(v@.subrange(lo as int, hi as int), p@) == Some(
                k - lo,
            ),
            None => last_match(v@.subrange(lo as int, hi as int), p@) is None,
        },
{
    let ghost s = v@.subrange(lo as int, hi as int);
    if p.len() > hi - lo {
        proof {
            assert forall|k: int| !is_last_match(s, p@, k) by {}
        }
        return None;
    }
    if p.len() == 0 {
        proof {
            assert(s.subrange(s.len() as int, s.len() as int) =~= p@);
            lemma_last_match_is(s, p@, s.len() as int);
        }
        return Some(hi);
    }
    let mut i = hi - p.len() + 1;
    while i > lo
        invariant
            lo <= i <= hi - p@.len() + 1,
            1 <= p@.len() <= hi - lo,
            hi <= v@.len(),
            s == v@.subrange(lo as int, hi as int),
            forall|j: int| i - lo <= j ==> !matches_at(s, j, p@),
        decreases i - lo,
    {
        let k = i - 1;
        let m = range_eq(v, k, k + p.len(), p);
        assert(s.subrange(k - lo, k - lo + p@.len()) =~= v@.subrange(k as int, k + p@.len()));
        if m {
            proof {
                lemma_last_match_is(s, p@, k - lo);
            }
            return Some(k);
        }
        i = k;
    }
    proof {
        assert forall|k: int| !is_last_match(s, p@, k) by {
            if is_last_match(s, p@, k) {
                assert(!matches_at(s, k, p@));
            }
        }
    }
    None
}

/// Splits the line that starts at `pos`: returns where its text starts and
/// ends (without the line ending) and where the next line starts.
pub fn next_line(v: &Vec<char>, pos: usize) -> (r: (usize, usize, usize))
    requires
        pos < v@.len(),
    ensures
        pos == r.0 <= r.1 <= r.2 <= v@.len(),
        pos < r.2,
        lines(v@.subrange(pos as int, v@.len() as int)) == seq![
            v@.subrange(r.0 as int, r.1 as int),
        ] + lines(v@.subrange(r.2 as int, v@.len() as int)),
{
    let n = v.len();
    let ghost s = v@.subrange(pos as int, n as int);
    let mut i = pos;
    while i < n && v[i] != '\n'
        invariant
            pos <= i <= n == v@.len(),
            s == v@.subrange(pos as int, n as int),
            forall|j: int| 0 <= j < i - pos ==> s[j] != '\n',
        decreases n - i,
    {
        i = i + 1;
    }
    proof {
        lemma_lines_step(s, i - pos);
    }
    if i < n {
        assert(s.skip(i - pos + 1) =~= v@.subrange(i + 1, n as int));
        let end = if i > pos && v[i - 1] == '\r' {
            i - 1
        } else {
            i
        };
        assert(strip_cr(s.take(i - pos)) =~= v@.subrange(pos as int, end as int));
        (pos, end, i + 1)
    } else {
        assert(s =~= v@.subrange(pos as int, n as int));
        assert(v@.subrange(n as int, n as int) =~= Seq::<char>::empty());
        assert(lines(Seq::<char>::empty()) == Seq::<Seq<char>>::empty());
        assert(seq![s] + Seq::<Seq<char>>::empty() =~= seq![s]);
        (pos, n, n)
    }
}

/// Appends the decimal digits of `n`.
pub fn push_decimal(s: &mut String, n: usize)
    ensures
        final(s)@ == old(s)@ + decimal(n as nat),
    decreases n,
{
    if n >= 10 {
        push_decimal(s, n / 10);
    }
    let d = n % 10;
    let c = if d == 0 {
        '0'
    } else if d == 1 {
        '1'
    } else if d == 2 {
        '2'
    } else if d == 3 {
        '3'
    } else if d == 4 {
        '4'
    } else if d == 5 {
        '5'
    } else if d == 6 {
        '6'
    } else if d == 7 {
        '7'
    } else if d == 8 {
        '8'
    } else {
        '9'
    };
    push_char(s, c);
    proof {
        if n >= 10 {
            assert(decimal(n as nat) == decimal((n / 10) as nat).push(digit((n % 10) as nat)));
        }
    }
    assert(s@ =~= old(s)@ + decimal(n as nat));
}

} // verus!
