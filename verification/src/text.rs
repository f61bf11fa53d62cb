//! Character-level text primitives shared by the parsers.
//!
//! Every primitive is specified over `Seq<char>` (the view of `str`/`String`) and implemented on
//! `Vec<char>`, so the parsers above can state their behaviour in terms of these spec functions.
use vstd::prelude::*;

verus! {

broadcast use vstd::string::group_string_axioms;

// ---------------------------------------------------------------------------------------------
// Character classes
// ---------------------------------------------------------------------------------------------

/// The Unicode `White_Space` property (what `char::is_whitespace` tests).
pub open spec fn is_ws(c: char) -> bool {
    let u = c as u32;
    (0x09 <= u && u <= 0x0D) || u == 0x20 || u == 0x85 || u == 0xA0 || u == 0x1680
        || (0x2000 <= u && u <= 0x200A) || u == 0x2028 || u == 0x2029 || u == 0x202F
        || u == 0x205F || u == 0x3000
}

pub open spec fn is_ascii_digit(c: char) -> bool {
    '0' <= c && c <= '9'
}

pub open spec fn is_ascii_upper(c: char) -> bool {
    'A' <= c && c <= 'Z'
}

pub open spec fn is_ascii_lower_letter(c: char) -> bool {
    'a' <= c && c <= 'z'
}

pub open spec fn is_ascii_alnum(c: char) -> bool {
    is_ascii_digit(c) || is_ascii_upper(c) || is_ascii_lower_letter(c)
}

pub open spec fn is_ascii_hex(c: char) -> bool {
    is_ascii_digit(c) || ('a' <= c && c <= 'f') || ('A' <= c && c <= 'F')
}

/// `char::to_ascii_lowercase`.
pub open spec fn lower_char(c: char) -> char {
    if is_ascii_upper(c) {
        ((c as u32) + 32) as char
    } else {
        c
    }
}

/// `char::to_ascii_uppercase`.
pub open spec fn upper_char(c: char) -> char {
    if is_ascii_lower_letter(c) {
        ((c as u32) - 32) as char
    } else {
        c
    }
}

pub fn char_is_ws(c: char) -> (r: bool)
    ensures
        r == is_ws(c),
{
    let u = c as u32;
    (0x09 <= u && u <= 0x0D) || u == 0x20 || u == 0x85 || u == 0xA0 || u == 0x1680 || (0x2000
        <= u && u <= 0x200A) || u == 0x2028 || u == 0x2029 || u == 0x202F || u == 0x205F || u
        == 0x3000
}

pub fn char_is_digit(c: char) -> (r: bool)
    ensures
        r == is_ascii_digit(c),
{
    '0' <= c && c <= '9'
}

pub fn char_is_alnum(c: char) -> (r: bool)
    ensures
        r == is_ascii_alnum(c),
{
    ('0' <= c && c <= '9') || ('A' <= c && c <= 'Z') || ('a' <= c && c <= 'z')
}

pub fn char_is_hex(c: char) -> (r: bool)
    ensures
        r == is_ascii_hex(c),
{
    ('0' <= c && c <= '9') || ('a' <= c && c <= 'f') || ('A' <= c && c <= 'F')
}

pub fn char_lower(c: char) -> (r: char)
    ensures
        r == lower_char(c),
{
    if 'A' <= c && c <= 'Z' {
        let u: u32 = (c as u32) + 32;
        assert(u < 0xD800);
        char_from_ascii_code(u)
    } else {
        c
    }
}

pub fn char_upper(c: char) -> (r: char)
    ensures
        r == upper_char(c),
{
    if 'a' <= c && c <= 'z' {
        let u: u32 = (c as u32) - 32;
        char_from_ascii_code(u)
    } else {
        c
    }
}

/// The character with an ASCII code point.
fn char_from_ascii_code(u: u32) -> (r: char)
    requires
        u < 128,
    ensures
        r == u as char,
{
    let b: u8 = u as u8;
    b as char
}

// ---------------------------------------------------------------------------------------------
// Sequence shapes
// ---------------------------------------------------------------------------------------------

pub open spec fn lower_seq(s: Seq<char>) -> Seq<char> {
    s.map_values(|c: char| lower_char(c))
}

pub open spec fn upper_seq(s: Seq<char>) -> Seq<char> {
    s.map_values(|c: char| upper_char(c))
}

pub open spec fn trim_start(s: Seq<char>) -> Seq<char>
    decreases s.len(),
{
    if s.len() > 0 && is_ws(s[0]) {
        trim_start(s.drop_first())
    } else {
        s
    }
}

pub open spec fn trim_end(s: Seq<char>) -> Seq<char>
    decreases s.len(),
{
    if s.len() > 0 && is_ws(s.last()) {
        trim_end(s.drop_last())
    } else {
        s
    }
}

/// `str::trim`.
pub open spec fn trim(s: Seq<char>) -> Seq<char> {
    trim_end(trim_start(s))
}

pub open spec fn starts_with(s: Seq<char>, p: Seq<char>) -> bool {
    p.len() <= s.len() && s.take(p.len() as int) == p
}

pub open spec fn ends_with(s: Seq<char>, p: Seq<char>) -> bool {
    p.len() <= s.len() && s.skip(s.len() - p.len()) == p
}

/// `p` occurs in `s` at position `i`.
pub open spec fn occurs_at(s: Seq<char>, p: Seq<char>, i: int) -> bool {
    0 <= i && i + p.len() <= s.len() && s.subrange(i, i + p.len()) == p
}

/// `str::find` with a string pattern: the first position where `p` occurs.
pub open spec fn find_sub(s: Seq<char>, p: Seq<char>) -> Option<int>
    decreases s.len(),
{
    if starts_with(s, p) {
        Some(0)
    } else if s.len() == 0 {
        None
    } else {
        match find_sub(s.drop_first(), p) {
            Some(i) => Some(i + 1),
            None => None,
        }
    }
}

/// `str::contains` with a string pattern.
pub open spec fn contains_sub(s: Seq<char>, p: Seq<char>) -> bool {
    exists|i: int| occurs_at(s, p, i)
}

/// The first position of a character satisfying `f`.
pub open spec fn find_char_by(s: Seq<char>, f: spec_fn(char) -> bool) -> Option<int>
    decreases s.len(),
{
    if s.len() == 0 {
        None
    } else if f(s[0]) {
        Some(0)
    } else {
        match find_char_by(s.drop_first(), f) {
            Some(i) => Some(i + 1),
            None => None,
        }
    }
}

/// The test "is the character `c`".
pub open spec fn eq_to(c: char) -> spec_fn(char) -> bool {
    |x: char| x == c
}

pub open spec fn find_char(s: Seq<char>, c: char) -> Option<int> {
    find_char_by(s, eq_to(c))
}

/// `str::split_once` with a character pattern.
pub open spec fn split_once_char(s: Seq<char>, c: char) -> Option<(Seq<char>, Seq<char>)> {
    match find_char(s, c) {
        Some(i) => Some((s.take(i), s.skip(i + 1))),
        None => None,
    }
}

/// `str::split_once` with a string pattern.
pub open spec fn split_once_sub(s: Seq<char>, p: Seq<char>) -> Option<(Seq<char>, Seq<char>)> {
    match find_sub(s, p) {
        Some(i) => Some((s.take(i), s.skip(i + p.len()))),
        None => None,
    }
}

/// `str::trim_end_matches` with a single character.
pub open spec fn trim_end_char(s: Seq<char>, c: char) -> Seq<char>
    decreases s.len(),
{
    if s.len() > 0 && s.last() == c {
        trim_end_char(s.drop_last(), c)
    } else {
        s
    }
}

/// Leading run of characters satisfying `f` (`chars().take_while(f)`).
pub open spec fn take_while(s: Seq<char>, f: spec_fn(char) -> bool) -> Seq<char>
    decreases s.len(),
{
    if s.len() > 0 && f(s[0]) {
        seq![s[0]] + take_while(s.drop_first(), f)
    } else {
        Seq::empty()
    }
}

/// `chars().take(n)`.
pub open spec fn take_chars(s: Seq<char>, n: nat) -> Seq<char> {
    if s.len() <= n {
        s
    } else {
        s.take(n as int)
    }
}

/// `str::replace`: every non-overlapping occurrence of `p`, scanning left to right, becomes `r`.
pub open spec fn replace_all(s: Seq<char>, p: Seq<char>, r: Seq<char>) -> Seq<char>
    decreases s.len(),
{
    if s.len() == 0 {
        Seq::empty()
    } else if p.len() > 0 && starts_with(s, p) {
        r + replace_all(s.skip(p.len() as int), p, r)
    } else {
        seq![s[0]] + replace_all(s.drop_first(), p, r)
    }
}

/// The first line as `str::lines` yields it: up to the first `\n`, a `\r` before that `\n`
/// dropped.
pub open spec fn first_line_of(s: Seq<char>) -> Seq<char> {
    match find_char(s, '\n') {
        None => s,
        Some(i) => {
            let l = s.take(i);
            if l.len() > 0 && l.last() == '\r' {
                l.drop_last()
            } else {
                l
            }
        },
    }
}

/// `str::lines`, written as a scan that carries the line being read.
pub open spec fn lines_from(s: Seq<char>, cur: Seq<char>) -> Seq<Seq<char>>
    decreases s.len(),
{
    if s.len() == 0 {
        if cur.len() == 0 {
            Seq::empty()
        } else {
            seq![cur]
        }
    } else if s[0] == '\n' {
        let l = if cur.len() > 0 && cur.last() == '\r' {
            cur.drop_last()
        } else {
            cur
        };
        seq![l] + lines_from(s.drop_first(), Seq::empty())
    } else {
        lines_from(s.drop_first(), cur.push(s[0]))
    }
}

pub open spec fn lines(s: Seq<char>) -> Seq<Seq<char>> {
    lines_from(s, Seq::empty())
}

/// `str::split` on any of a set of characters, written as a scan that carries the piece being
/// read. Empty pieces are kept, as `split` keeps them.
pub open spec fn split_from(s: Seq<char>, delims: Seq<char>, cur: Seq<char>) -> Seq<Seq<char>>
    decreases s.len(),
{
    if s.len() == 0 {
        seq![cur]
    } else if delims.contains(s[0]) {
        seq![cur] + split_from(s.drop_first(), delims, Seq::empty())
    } else {
        split_from(s.drop_first(), delims, cur.push(s[0]))
    }
}

pub open spec fn split_on(s: Seq<char>, delims: Seq<char>) -> Seq<Seq<char>> {
    split_from(s, delims, Seq::empty())
}

/// A split always yields at least one piece.
pub proof fn lemma_split_nonempty(s: Seq<char>, delims: Seq<char>, cur: Seq<char>)
    ensures
        split_from(s, delims, cur).len() >= 1,
    decreases s.len(),
{
    if s.len() > 0 {
        if delims.contains(s[0]) {
            lemma_split_nonempty(s.drop_first(), delims, Seq::empty());
        } else {
            lemma_split_nonempty(s.drop_first(), delims, cur.push(s[0]));
        }
    }
}

/// `split_whitespace().collect::<Vec<_>>().join(" ")`, written as a scan: `pending` says a gap
/// was seen after some word, `started` that a word was emitted.
pub open spec fn collapse_from(s: Seq<char>, pending: bool, started: bool) -> Seq<char>
    decreases s.len(),
{
    if s.len() == 0 {
        Seq::empty()
    } else if is_ws(s[0]) {
        collapse_from(s.drop_first(), started, started)
    } else {
        (if pending {
            seq![' ']
        } else {
            Seq::empty()
        }) + seq![s[0]] + collapse_from(s.drop_first(), false, true)
    }
}

pub open spec fn collapse_ws(s: Seq<char>) -> Seq<char> {
    collapse_from(s, false, false)
}

/// Leading run of non-whitespace characters.
pub open spec fn word_prefix(s: Seq<char>) -> Seq<char> {
    take_while(s, |c: char| !is_ws(c))
}

/// `split_whitespace().next().unwrap_or(s)`.
pub open spec fn first_token(s: Seq<char>) -> Seq<char> {
    let t = trim_start(s);
    if t.len() == 0 {
        s
    } else {
        word_prefix(t)
    }
}

/// The trimmed text when it is not empty.
pub open spec fn nonempty(s: Seq<char>) -> Option<Seq<char>> {
    let t = trim(s);
    if t.len() == 0 {
        None
    } else {
        Some(t)
    }
}

/// The decimal digits of `n`, most significant first.
pub open spec fn decimal(n: nat) -> Seq<char>
    decreases n,
{
    if n < 10 {
        seq![digit_char(n)]
    } else {
        decimal(n / 10).push(digit_char(n % 10))
    }
}

pub open spec fn digit_char(d: nat) -> char {
    ((d + 48) as u32) as char
}

// ---------------------------------------------------------------------------------------------
// Lemmas
// ---------------------------------------------------------------------------------------------

pub proof fn lemma_trim_start_skip(s: Seq<char>, i: int)
    requires
        0 <= i <= s.len(),
        forall|j: int| 0 <= j < i ==> is_ws(s[j]),
    ensures
        trim_start(s) == trim_start(s.skip(i)),
    decreases i,
{
    if i > 0 {
        assert(s.drop_first().skip(i - 1) =~= s.skip(i));
        lemma_trim_start_skip(s.drop_first(), i - 1);
    } else {
        assert(s.skip(0) =~= s);
    }
}

pub proof fn lemma_trim_end_take(s: Seq<char>, j: int)
    requires
        0 <= j <= s.len(),
        forall|k: int| j <= k < s.len() ==> is_ws(s[k]),
    ensures
        trim_end(s) == trim_end(s.take(j)),
    decreases s.len() - j,
{
    if j < s.len() {
        assert(s.drop_last().take(j) =~= s.take(j));
        lemma_trim_end_take(s.drop_last(), j);
    } else {
        assert(s.take(j) =~= s);
    }
}

proof fn lemma_trim_start_edge(s: Seq<char>)
    ensures
        trim_start(s).len() > 0 ==> !is_ws(trim_start(s)[0]),
    decreases s.len(),
{
    if s.len() > 0 && is_ws(s[0]) {
        lemma_trim_start_edge(s.drop_first());
    }
}

proof fn lemma_trim_end_edge(s: Seq<char>)
    ensures
        trim_end(s).len() <= s.len(),
        trim_end(s) == s.take(trim_end(s).len() as int),
        trim_end(s).len() > 0 ==> !is_ws(trim_end(s).last()),
    decreases s.len(),
{
    if s.len() > 0 && is_ws(s.last()) {
        lemma_trim_end_edge(s.drop_last());
        assert(s.drop_last().take(trim_end(s).len() as int) =~= s.take(trim_end(s).len() as int));
    } else {
        assert(s.take(s.len() as int) =~= s);
    }
}

/// A text whose first and last characters are not whitespace is its own trim.
pub proof fn lemma_trim_of_trimmed(s: Seq<char>)
    requires
        s.len() > 0 ==> !is_ws(s[0]) && !is_ws(s.last()),
    ensures
        trim(s) == s,
{
}

/// Trimming twice is trimming once.
pub proof fn lemma_trim_idempotent(s: Seq<char>)
    ensures
        trim(trim(s)) == trim(s),
{
    let t = trim_start(s);
    let u = trim_end(t);
    lemma_trim_start_edge(s);
    lemma_trim_end_edge(t);
    if u.len() > 0 {
        assert(u[0] == t[0]);
    }
    lemma_trim_of_trimmed(u);
}

/// What `find_char_by` gives: the first position whose character satisfies `f`.
pub proof fn lemma_find_char_by(s: Seq<char>, f: spec_fn(char) -> bool)
    ensures
        match find_char_by(s, f) {
            Some(i) => 0 <= i < s.len() && f(s[i]) && forall|j: int| 0 <= j < i ==> !f(s[j]),
            None => forall|j: int| 0 <= j < s.len() ==> !f(s[j]),
        },
    decreases s.len(),
{
    if s.len() > 0 && !f(s[0]) {
        lemma_find_char_by(s.drop_first(), f);
        assert forall|j: int| 1 <= j < s.len() implies s[j] == s.drop_first()[j - 1] by {}
    }
}

/// A position is what `find_char_by` gives when it is the first one whose character
/// satisfies `f`.
pub proof fn lemma_find_char_by_at(s: Seq<char>, f: spec_fn(char) -> bool, i: int)
    requires
        0 <= i < s.len(),
        f(s[i]),
        forall|j: int| 0 <= j < i ==> !f(s[j]),
    ensures
        find_char_by(s, f) == Some(i),
{
    lemma_find_char_by(s, f);
    match find_char_by(s, f) {
        Some(k) => {
            if k < i {
                assert(!f(s[k]));
            } else if k > i {
                assert(!f(s[i]));
            }
        },
        None => {
            assert(!f(s[i]));
        },
    }
}

pub proof fn lemma_occurs_at_shift(s: Seq<char>, p: Seq<char>, j: int)
    requires
        s.len() > 0,
        0 <= j,
    ensures
        occurs_at(s, p, j + 1) == occurs_at(s.drop_first(), p, j),
{
    if j + 1 + p.len() <= s.len() {
        assert(s.subrange(j + 1, j + 1 + p.len()) =~= s.drop_first().subrange(j, j + p.len()));
    }
}

/// What `find_sub` gives: the first position where `p` occurs.
pub proof fn lemma_find_sub(s: Seq<char>, p: Seq<char>)
    ensures
        match find_sub(s, p) {
            Some(i) => occurs_at(s, p, i) && forall|j: int| 0 <= j < i ==> !occurs_at(s, p, j),
            None => forall|j: int| !occurs_at(s, p, j),
        },
    decreases s.len(),
{
    assert(starts_with(s, p) == occurs_at(s, p, 0)) by {
        if p.len() <= s.len() {
            assert(s.take(p.len() as int) =~= s.subrange(0, p.len() as int));
        }
    }
    if !starts_with(s, p) && s.len() > 0 {
        lemma_find_sub(s.drop_first(), p);
        assert forall|j: int| 0 <= j implies occurs_at(s, p, j + 1) == occurs_at(s.drop_first(), p, j) by {
            lemma_occurs_at_shift(s, p, j);
        }
        match find_sub(s, p) {
            Some(i) => {
                assert(occurs_at(s, p, i));
                assert forall|j: int| 0 <= j < i implies !occurs_at(s, p, j) by {
                    if j > 0 {
                        assert(occurs_at(s, p, (j - 1) + 1) == occurs_at(s.drop_first(), p, j - 1));
                    }
                }
            },
            None => {
                assert forall|j: int| !occurs_at(s, p, j) by {
                    if j > 0 {
                        assert(occurs_at(s, p, (j - 1) + 1) == occurs_at(s.drop_first(), p, j - 1));
                    }
                }
            },
        }
    }
}

/// A position is what `find_sub` gives when it is the first one where `p` occurs.
pub proof fn lemma_find_sub_at(s: Seq<char>, p: Seq<char>, i: int)
    requires
        occurs_at(s, p, i),
        forall|j: int| 0 <= j < i ==> !occurs_at(s, p, j),
    ensures
        find_sub(s, p) == Some(i),
{
    lemma_find_sub(s, p);
    match find_sub(s, p) {
        Some(k) => {
            if k < i {
                assert(!occurs_at(s, p, k));
            } else if k > i {
                assert(!occurs_at(s, p, i));
            }
        },
        None => {},
    }
}

// ---------------------------------------------------------------------------------------------
// Conversions between `str`/`String` and `Vec<char>`
// ---------------------------------------------------------------------------------------------

/// Appends one character (`String::push`).
#[verifier::external_body]
fn push_char(s: &mut String, c: char)
    ensures
        final(s)@ == old(s)@.push(c),
{
    s.push(c)
}

pub fn to_chars(s: &str) -> (r: Vec<char>)
    ensures
        r@ == s@,
{
    let mut r: Vec<char> = Vec::new();
    for c in it: s.chars()
        invariant
            r@ == it.seq().take(it.index() as int),
            it.seq() == s@,
    {
        proof {
            assert(it.seq().take(it.index() + 1) =~= it.seq().take(it.index() as int).push(c));
        }
        r.push(c);
    }
    assert(r@ =~= s@);
    r
}

pub fn from_chars(v: &Vec<char>) -> (r: String)
    ensures
        r@ == v@,
{
    let mut r = String::new();
    let mut i: usize = 0;
    while i < v.len()
        invariant
            i <= v.len(),
            r@ == v@.take(i as int),
        decreases v.len() - i,
    {
        proof {
            assert(v@.take(i + 1) =~= v@.take(i as int).push(v@[i as int]));
        }
        push_char(&mut r, v[i]);
        i += 1;
    }
    assert(r@ =~= v@);
    r
}


// ---------------------------------------------------------------------------------------------
// Executable primitives on `Vec<char>`
// ---------------------------------------------------------------------------------------------

/// The views of a sequence of character vectors.
pub open spec fn views(v: Seq<Vec<char>>) -> Seq<Seq<char>> {
    v.map_values(|x: Vec<char>| x@)
}

pub proof fn lemma_views_push(v: Seq<Vec<char>>, x: Vec<char>)
    ensures
        views(v.push(x)) == views(v).push(x@),
{
    assert(views(v.push(x)) =~= views(v).push(x@));
}

pub fn lit(s: &str) -> (r: Vec<char>)
    ensures
        r@ == s@,
{
    to_chars(s)
}

pub fn copy_chars(s: &Vec<char>) -> (r: Vec<char>)
    ensures
        r@ == s@,
{
    subrange(s, 0, s.len())
}

pub fn subrange(s: &Vec<char>, lo: usize, hi: usize) -> (r: Vec<char>)
    requires
        lo <= hi <= s.len(),
    ensures
        r@ == s@.subrange(lo as int, hi as int),
{
    let mut r: Vec<char> = Vec::new();
    let mut i = lo;
    while i < hi
        invariant
            lo <= i <= hi <= s.len(),
            r@ == s@.subrange(lo as int, i as int),
        decreases hi - i,
    {
        proof {
            assert(s@.subrange(lo as int, i + 1) =~= s@.subrange(lo as int, i as int).push(s@[i as int]));
        }
        r.push(s[i]);
        i += 1;
    }
    r
}

pub fn append(v: &mut Vec<char>, w: &Vec<char>)
    ensures
        final(v)@ == old(v)@ + w@,
{
    let ghost v0 = v@;
    let mut i: usize = 0;
    while i < w.len()
        invariant
            i <= w.len(),
            v@ == v0 + w@.take(i as int),
        decreases w.len() - i,
    {
        proof {
            assert(w@.take(i + 1) =~= w@.take(i as int).push(w@[i as int]));
            assert(v0 + w@.take(i + 1) =~= (v0 + w@.take(i as int)).push(w@[i as int]));
        }
        v.push(w[i]);
        i += 1;
    }
    assert(w@.take(w.len() as int) =~= w@);
}

pub fn concat(a: &Vec<char>, b: &Vec<char>) -> (r: Vec<char>)
    ensures
        r@ == a@ + b@,
{
    let mut r = copy_chars(a);
    append(&mut r, b);
    r
}

pub fn lower_v(s: &Vec<char>) -> (r: Vec<char>)
    ensures
        r@ == lower_seq(s@),
{
    let mut r: Vec<char> = Vec::new();
    let mut i: usize = 0;
    while i < s.len()
        invariant
            i <= s.len(),
            r@ == lower_seq(s@.take(i as int)),
        decreases s.len() - i,
    {
        proof {
            assert(lower_seq(s@.take(i + 1)) =~= lower_seq(s@.take(i as int)).push(lower_char(s@[i as int])));
        }
        r.push(char_lower(s[i]));
        i += 1;
    }
    assert(s@.take(s.len() as int) =~= s@);
    r
}

pub fn upper_v(s: &Vec<char>) -> (r: Vec<char>)
    ensures
        r@ == upper_seq(s@),
{
    let mut r: Vec<char> = Vec::new();
    let mut i: usize = 0;
    while i < s.len()
        invariant
            i <= s.len(),
            r@ == upper_seq(s@.take(i as int)),
        decreases s.len() - i,
    {
        proof {
            assert(upper_seq(s@.take(i + 1)) =~= upper_seq(s@.take(i as int)).push(upper_char(s@[i as int])));
        }
        r.push(char_upper(s[i]));
        i += 1;
    }
    assert(s@.take(s.len() as int) =~= s@);
    r
}

pub fn eq_v(a: &Vec<char>, b: &Vec<char>) -> (r: bool)
    ensures
        r == (a@ == b@),
{
    if a.len() != b.len() {
        return false;
    }
    let mut i: usize = 0;
    while i < a.len()
        invariant
            i <= a.len() == b.len(),
            forall|j: int| 0 <= j < i ==> a@[j] == b@[j],
        decreases a.len() - i,
    {
        if a[i] != b[i] {
            return false;
        }
        i += 1;
    }
    assert(a@ =~= b@);
    true
}

/// Whether `p` occurs in `s` at `i`.
pub fn occurs_at_v(s: &Vec<char>, p: &Vec<char>, i: usize) -> (r: bool)
    ensures
        r == occurs_at(s@, p@, i as int),
{
    if p.len() > s.len() || i > s.len() - p.len() {
        return false;
    }
    let mut k: usize = 0;
    while k < p.len()
        invariant
            k <= p.len(),
            i + p.len() <= s.len(),
            forall|j: int| 0 <= j < k ==> s@[i + j] == p@[j],
        decreases p.len() - k,
    {
        if s[i + k] != p[k] {
            assert(s@.subrange(i as int, i + p.len())[k as int] != p@[k as int]);
            return false;
        }
        k += 1;
    }
    assert(s@.subrange(i as int, i + p.len()) =~= p@);
    true
}

pub fn starts_with_v(s: &Vec<char>, p: &Vec<char>) -> (r: bool)
    ensures
        r == starts_with(s@, p@),
{
    let r = occurs_at_v(s, p, 0);
    proof {
        if p.len() <= s.len() {
            assert(s@.take(p.len() as int) =~= s@.subrange(0, p.len() as int));
        }
    }
    r
}

pub fn ends_with_v(s: &Vec<char>, p: &Vec<char>) -> (r: bool)
    ensures
        r == ends_with(s@, p@),
{
    if p.len() > s.len() {
        return false;
    }
    let r = occurs_at_v(s, p, s.len() - p.len());
    proof {
        assert(s@.skip(s.len() - p.len()) =~= s@.subrange(s.len() - p.len(), s.len() as int));
    }
    r
}

/// `str::find` with a string pattern.
pub fn find_sub_v(s: &Vec<char>, p: &Vec<char>) -> (r: Option<usize>)
    ensures
        match r {
            Some(i) => find_sub(s@, p@) == Some(i as int) && occurs_at(s@, p@, i as int),
            None => find_sub(s@, p@) is None,
        },
{
    let mut i: usize = 0;
    while i < s.len()
        invariant
            i <= s.len(),
            forall|j: int| 0 <= j < i ==> !occurs_at(s@, p@, j),
        decreases s.len() - i,
    {
        if occurs_at_v(s, p, i) {
            proof {
                lemma_find_sub_at(s@, p@, i as int);
            }
            return Some(i);
        }
        i += 1;
    }
    if occurs_at_v(s, p, i) {
        proof {
            lemma_find_sub_at(s@, p@, i as int);
        }
        return Some(i);
    }
    proof {
        lemma_find_sub(s@, p@);
        match find_sub(s@, p@) {
            Some(k) => {
                assert(occurs_at(s@, p@, k));
                assert(k <= s.len());
            },
            None => {},
        }
    }
    None
}

pub fn contains_v(s: &Vec<char>, p: &Vec<char>) -> (r: bool)
    ensures
        r == contains_sub(s@, p@),
{
    let f = find_sub_v(s, p);
    proof {
        lemma_find_sub(s@, p@);
    }
    f.is_some()
}

/// The first position of `c` in `s`.
pub fn find_char_v(s: &Vec<char>, c: char) -> (r: Option<usize>)
    ensures
        match r {
            Some(i) => find_char(s@, c) == Some(i as int) && i < s.len() && s@[i as int] == c,
            None => find_char(s@, c) is None,
        },
{
    let mut i: usize = 0;
    while i < s.len()
        invariant
            i <= s.len(),
            forall|j: int| 0 <= j < i ==> s@[j] != c,
        decreases s.len() - i,
    {
        if s[i] == c {
            proof {
                assert(eq_to(c)(s@[i as int]));
                assert forall|j: int| 0 <= j < i implies !eq_to(c)(s@[j]) by {}
                lemma_find_char_by_at(s@, eq_to(c), i as int);
            }
            return Some(i);
        }
        i += 1;
    }
    proof {
        lemma_find_char_by(s@, eq_to(c));
        assert forall|j: int| 0 <= j < s.len() implies !eq_to(c)(s@[j]) by {}
    }
    None
}

pub fn trim_start_v(s: &Vec<char>) -> (r: Vec<char>)
    ensures
        r@ == trim_start(s@),
{
    let mut i: usize = 0;
    while i < s.len() && char_is_ws(s[i])
        invariant
            i <= s.len(),
            forall|j: int| 0 <= j < i ==> is_ws(s@[j]),
        decreases s.len() - i,
    {
        i += 1;
    }
    proof {
        lemma_trim_start_skip(s@, i as int);
        assert(s@.skip(i as int) =~= s@.subrange(i as int, s.len() as int));
    }
    subrange(s, i, s.len())
}

pub fn trim_end_v(s: &Vec<char>) -> (r: Vec<char>)
    ensures
        r@ == trim_end(s@),
{
    let mut j: usize = s.len();
    while j > 0 && char_is_ws(s[j - 1])
        invariant
            j <= s.len(),
            forall|k: int| j <= k < s.len() ==> is_ws(s@[k]),
        decreases j,
    {
        j -= 1;
    }
    proof {
        lemma_trim_end_take(s@, j as int);
        assert(s@.take(j as int) =~= s@.subrange(0, j as int));
    }
    subrange(s, 0, j)
}

pub fn trim_v(s: &Vec<char>) -> (r: Vec<char>)
    ensures
        r@ == trim(s@),
{
    let a = trim_start_v(s);
    trim_end_v(&a)
}

pub fn nonempty_v(s: &Vec<char>) -> (r: Option<Vec<char>>)
    ensures
        match r {
            Some(t) => nonempty(s@) == Some(t@),
            None => nonempty(s@) is None,
        },
{
    let t = trim_v(s);
    if t.len() == 0 {
        None
    } else {
        Some(t)
    }
}

pub fn trim_end_char_v(s: &Vec<char>, c: char) -> (r: Vec<char>)
    ensures
        r@ == trim_end_char(s@, c),
{
    let mut j: usize = s.len();
    assert(s@.take(s.len() as int) =~= s@);
    while j > 0 && s[j - 1] == c
        invariant
            j <= s.len(),
            trim_end_char(s@, c) == trim_end_char(s@.take(j as int), c),
        decreases j,
    {
        proof {
            assert(s@.take(j as int).drop_last() =~= s@.take(j - 1));
        }
        j -= 1;
    }
    proof {
        assert(s@.take(j as int) =~= s@.subrange(0, j as int));
    }
    subrange(s, 0, j)
}

pub fn take_chars_v(s: &Vec<char>, n: usize) -> (r: Vec<char>)
    ensures
        r@ == take_chars(s@, n as nat),
{
    if s.len() <= n {
        copy_chars(s)
    } else {
        proof {
            assert(s@.take(n as int) =~= s@.subrange(0, n as int));
        }
        subrange(s, 0, n)
    }
}

pub fn first_line_v(s: &Vec<char>) -> (r: Vec<char>)
    ensures
        r@ == first_line_of(s@),
{
    match find_char_v(s, '\n') {
        None => copy_chars(s),
        Some(i) => {
            proof {
                assert(s@.take(i as int) =~= s@.subrange(0, i as int));
            }
            let l = subrange(s, 0, i);
            if l.len() > 0 && l[l.len() - 1] == '\r' {
                proof {
                    assert(l@.drop_last() =~= l@.subrange(0, l.len() - 1));
                }
                subrange(&l, 0, l.len() - 1)
            } else {
                l
            }
        },
    }
}

pub proof fn lemma_skip_step(s: Seq<char>, i: int)
    requires
        0 <= i < s.len(),
    ensures
        s.skip(i).len() > 0,
        s.skip(i)[0] == s[i],
        s.skip(i).drop_first() == s.skip(i + 1),
{
    assert(s.skip(i).drop_first() =~= s.skip(i + 1));
}

/// `str::lines`.
pub fn lines_v(s: &Vec<char>) -> (r: Vec<Vec<char>>)
    ensures
        views(r@) == lines(s@),
{
    let mut out: Vec<Vec<char>> = Vec::new();
    let mut cur: Vec<char> = Vec::new();
    let mut i: usize = 0;
    assert(s@.skip(0) =~= s@);
    while i < s.len()
        invariant
            i <= s.len(),
            views(out@) + lines_from(s@.skip(i as int), cur@) == lines(s@),
        decreases s.len() - i,
    {
        proof {
            lemma_skip_step(s@, i as int);
        }
        if s[i] == '\n' {
            let l = if cur.len() > 0 && cur[cur.len() - 1] == '\r' {
                proof {
                    assert(cur@.drop_last() =~= cur@.subrange(0, cur.len() - 1));
                }
                subrange(&cur, 0, cur.len() - 1)
            } else {
                cur
            };
            proof {
                lemma_views_push(out@, l);
                assert(views(out@.push(l)) + lines_from(s@.skip(i + 1), Seq::empty()) =~= views(out@)
                    + (seq![l@] + lines_from(s@.skip(i + 1), Seq::empty())));
            }
            out.push(l);
            cur = Vec::new();
        } else {
            cur.push(s[i]);
        }
        i += 1;
    }
    proof {
        assert(s@.skip(i as int) =~= Seq::<char>::empty());
    }
    if cur.len() > 0 {
        proof {
            lemma_views_push(out@, cur);
        }
        out.push(cur);
    } else {
        assert(views(out@) + Seq::<Seq<char>>::empty() =~= views(out@));
    }
    out
}

pub fn char_in(delims: &Vec<char>, c: char) -> (r: bool)
    ensures
        r == delims@.contains(c),
{
    let mut i: usize = 0;
    while i < delims.len()
        invariant
            i <= delims.len(),
            forall|j: int| 0 <= j < i ==> delims@[j] != c,
        decreases delims.len() - i,
    {
        if delims[i] == c {
            return true;
        }
        i += 1;
    }
    false
}

/// `str::split` on any of the characters in `delims`.
pub fn split_on_v(s: &Vec<char>, delims: &Vec<char>) -> (r: Vec<Vec<char>>)
    ensures
        views(r@) == split_on(s@, delims@),
{
    let mut out: Vec<Vec<char>> = Vec::new();
    let mut cur: Vec<char> = Vec::new();
    let mut i: usize = 0;
    assert(s@.skip(0) =~= s@);
    while i < s.len()
        invariant
            i <= s.len(),
            views(out@) + split_from(s@.skip(i as int), delims@, cur@) == split_on(s@, delims@),
        decreases s.len() - i,
    {
        proof {
            lemma_skip_step(s@, i as int);
        }
        if char_in(delims, s[i]) {
            proof {
                lemma_views_push(out@, cur);
                assert(views(out@.push(cur)) + split_from(s@.skip(i + 1), delims@, Seq::empty())
                    =~= views(out@) + (seq![cur@] + split_from(s@.skip(i + 1), delims@, Seq::empty())));
            }
            out.push(cur);
            cur = Vec::new();
        } else {
            cur.push(s[i]);
        }
        i += 1;
    }
    proof {
        assert(s@.skip(i as int) =~= Seq::<char>::empty());
        lemma_views_push(out@, cur);
        assert(views(out@) + seq![cur@] =~= views(out@).push(cur@));
    }
    out.push(cur);
    out
}

/// `split_whitespace().collect::<Vec<_>>().join(" ")`.
pub fn collapse_ws_v(s: &Vec<char>) -> (r: Vec<char>)
    ensures
        r@ == collapse_ws(s@),
{
    let mut out: Vec<char> = Vec::new();
    let mut pending = false;
    let mut started = false;
    let mut i: usize = 0;
    assert(s@.skip(0) =~= s@);
    while i < s.len()
        invariant
            i <= s.len(),
            out@ + collapse_from(s@.skip(i as int), pending, started) == collapse_ws(s@),
        decreases s.len() - i,
    {
        proof {
            lemma_skip_step(s@, i as int);
        }
        let c = s[i];
        if char_is_ws(c) {
            pending = started;
        } else {
            let ghost before = out@;
            if pending {
                out.push(' ');
            }
            out.push(c);
            proof {
                let sp: Seq<char> = if pending { seq![' '] } else { Seq::empty() };
                assert(out@ =~= before + sp + seq![c]);
                assert(before + (sp + seq![c] + collapse_from(s@.skip(i + 1), false, true)) =~= out@
                    + collapse_from(s@.skip(i + 1), false, true));
            }
            pending = false;
            started = true;
        }
        i += 1;
    }
    proof {
        assert(s@.skip(i as int) =~= Seq::<char>::empty());
        assert(out@ + Seq::<char>::empty() =~= out@);
    }
    out
}

/// `take_while` stops at the first character that fails the test.
pub proof fn lemma_take_while(s: Seq<char>, f: spec_fn(char) -> bool, k: int)
    requires
        0 <= k <= s.len(),
        forall|j: int| 0 <= j < k ==> f(s[j]),
        k == s.len() || !f(s[k]),
    ensures
        take_while(s, f) == s.take(k),
    decreases k,
{
    if k > 0 {
        lemma_take_while(s.drop_first(), f, k - 1);
        assert(seq![s[0]] + s.drop_first().take(k - 1) =~= s.take(k));
    } else {
        assert(s.take(0) =~= Seq::<char>::empty());
    }
}

/// Leading run of non-whitespace characters.
pub fn word_prefix_v(s: &Vec<char>) -> (r: Vec<char>)
    ensures
        r@ == word_prefix(s@),
{
    let mut k: usize = 0;
    while k < s.len() && !char_is_ws(s[k])
        invariant
            k <= s.len(),
            forall|j: int| 0 <= j < k ==> !is_ws(s@[j]),
        decreases s.len() - k,
    {
        k += 1;
    }
    proof {
        lemma_take_while(s@, |c: char| !is_ws(c), k as int);
        assert(s@.take(k as int) =~= s@.subrange(0, k as int));
    }
    subrange(s, 0, k)
}

/// `split_whitespace().next().unwrap_or(s)`.
pub fn first_token_v(s: &Vec<char>) -> (r: Vec<char>)
    ensures
        r@ == first_token(s@),
{
    let t = trim_start_v(s);
    if t.len() == 0 {
        copy_chars(s)
    } else {
        word_prefix_v(&t)
    }
}

/// `str::replace`.
pub fn replace_all_v(s: &Vec<char>, p: &Vec<char>, rep: &Vec<char>) -> (r: Vec<char>)
    ensures
        r@ == replace_all(s@, p@, rep@),
{
    let mut out: Vec<char> = Vec::new();
    let mut i: usize = 0;
    assert(s@.skip(0) =~= s@);
    while i < s.len()
        invariant
            i <= s.len(),
            out@ + replace_all(s@.skip(i as int), p@, rep@) == replace_all(s@, p@, rep@),
        decreases s.len() - i,
    {
        proof {
            lemma_skip_step(s@, i as int);
        }
        let hit = p.len() > 0 && occurs_at_v(s, p, i);
        proof {
            let t = s@.skip(i as int);
            if p.len() <= t.len() {
                assert(t.take(p.len() as int) =~= s@.subrange(i as int, i + p.len()));
            }
            assert(hit == (p.len() > 0 && starts_with(t, p@)));
        }
        if hit {
            proof {
                assert(s@.skip(i as int).skip(p.len() as int) =~= s@.skip(i + p.len()));
                assert(out@ + (rep@ + replace_all(s@.skip(i + p.len()), p@, rep@)) =~= (out@ + rep@)
                    + replace_all(s@.skip(i + p.len()), p@, rep@));
            }
            append(&mut out, rep);
            i += p.len();
        } else {
            proof {
                assert(out@ + (seq![s@[i as int]] + replace_all(s@.skip(i + 1), p@, rep@)) =~= out@.push(
                    s@[i as int],
                ) + replace_all(s@.skip(i + 1), p@, rep@));
            }
            out.push(s[i]);
            i += 1;
        }
    }
    proof {
        assert(s@.skip(i as int) =~= Seq::<char>::empty());
        assert(out@ + Seq::<char>::empty() =~= out@);
    }
    out
}

pub fn digit(d: u64) -> (r: char)
    requires
        d < 10,
    ensures
        r == digit_char(d as nat),
{
    char_from_ascii_code((d + 48) as u32)
}

/// Decimal rendering of an unsigned integer.
pub fn decimal_v(n: u64) -> (r: Vec<char>)
    ensures
        r@ == decimal(n as nat),
    decreases n,
{
    if n < 10 {
        let mut v: Vec<char> = Vec::new();
        v.push(digit(n));
        assert(v@ =~= seq![digit_char(n as nat)]);
        v
    } else {
        let mut v = decimal_v(n / 10);
        v.push(digit(n % 10));
        v
    }
}

} // verus!
