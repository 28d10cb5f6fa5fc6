use vstd::prelude::*;
use vstd::string::StrSliceExecFns;

verus! {

broadcast use vstd::string::group_string_axioms;

/// ASCII lower-casing of one character.
pub open spec fn ascii_lower(c: char) -> char {
    if 'A' <= c <= 'Z' {
        ((c as u32) + 32) as char
    } else {
        c
    }
}

/// ASCII lower-casing of a string.
pub open spec fn lower_seq(s: Seq<char>) -> Seq<char> {
    s.map_values(|c: char| ascii_lower(c))
}

/// Whether two strings are equal when ASCII letters are compared without case.
pub open spec fn eq_ignore_ascii_case(a: Seq<char>, b: Seq<char>) -> bool {
    a.len() == b.len() && forall|i: int|
        0 <= i < a.len() ==> ascii_lower(#[trigger] a[i]) == ascii_lower(b[i])
}

/// Whether `s` begins with `p`.
pub open spec fn starts_with(s: Seq<char>, p: Seq<char>) -> bool {
    p.len() <= s.len() && s.subrange(0, p.len() as int) == p
}

/// Whether `p` occurs in `s` starting at `i`.
pub open spec fn occurs_at(s: Seq<char>, p: Seq<char>, i: int) -> bool {
    0 <= i && i + p.len() <= s.len() && s.subrange(i, i + p.len()) == p
}

/// Whether `p` occurs somewhere in `s`.
pub open spec fn contains_seq(s: Seq<char>, p: Seq<char>) -> bool {
    exists|i: int| #[trigger] occurs_at(s, p, i)
}

/// The characters that `char::is_whitespace` accepts (Unicode `White_Space`).
pub open spec fn is_ws(c: char) -> bool {
    let u = c as u32;
    ||| 0x09 <= u <= 0x0D
    ||| u == 0x20
    ||| u == 0x85
    ||| u == 0xA0
    ||| u == 0x1680
    ||| 0x2000 <= u <= 0x200A
    ||| u == 0x2028
    ||| u == 0x2029
    ||| u == 0x202F
    ||| u == 0x205F
    ||| u == 0x3000
}

/// `s` without its leading whitespace.
pub open spec fn trim_start(s: Seq<char>) -> Seq<char>
    decreases s.len(),
{
    if s.len() > 0 && is_ws(s[0]) {
        trim_start(s.drop_first())
    } else {
        s
    }
}

/// `s` without its trailing whitespace.
pub open spec fn trim_end(s: Seq<char>) -> Seq<char>
    decreases s.len(),
{
    if s.len() > 0 && is_ws(s.last()) {
        trim_end(s.drop_last())
    } else {
        s
    }
}

/// `s` without leading and trailing whitespace, as `str::trim` gives it.
pub open spec fn trim(s: Seq<char>) -> Seq<char> {
    trim_end(trim_start(s))
}

/// Index of the first `c` at or after `pos` (the length when there is none).
pub open spec fn next_char(s: Seq<char>, pos: int, c: char) -> int
    decreases s.len() - pos,
{
    if pos < 0 || pos >= s.len() {
        s.len() as int
    } else if s[pos] == c {
        pos
    } else {
        next_char(s, pos + 1, c)
    }
}

pub proof fn lemma_next_char_bounds(s: Seq<char>, pos: int, c: char)
    requires
        0 <= pos,
    ensures
        pos <= s.len() ==> pos <= next_char(s, pos, c) <= s.len(),
        next_char(s, pos, c) < s.len() ==> s[next_char(s, pos, c)] == c,
    decreases s.len() - pos,
{
    if pos < s.len() && s[pos] != c {
        lemma_next_char_bounds(s, pos + 1, c);
    }
}

/// The characters of a string.
pub fn chars_of(s: &str) -> (v: Vec<char>)
    ensures
        v@ == s@,
{
    let mut v: Vec<char> = Vec::new();
    for c in iter: s.chars()
        invariant
            v@.len() == iter.index(),
            forall|i: int| 0 <= i < v@.len() ==> v@[i] == iter.seq()[i],
    {
        v.push(c);
    }
    proof {
        assert(v@ =~= s@);
    }
    v
}

/// ASCII lower-casing of one character.
pub fn lower_ascii(c: char) -> (r: char)
    ensures
        r == ascii_lower(c),
{
    if 'A' <= c && c <= 'Z' {
        ((c as u8) + 32) as char
    } else {
        c
    }
}

/// ASCII lower-casing of a string of characters.
pub fn lower_chars(s: &Vec<char>) -> (r: Vec<char>)
    ensures
        r@ == lower_seq(s@),
{
    let mut r: Vec<char> = Vec::new();
    let mut i: usize = 0;
    while i < s.len()
        invariant
            i <= s@.len(),
            r@ == lower_seq(s@.take(i as int)),
        decreases s@.len() - i,
    {
        r.push(lower_ascii(s[i]));
        proof {
            assert(lower_seq(s@.take(i + 1)) =~= lower_seq(s@.take(i as int)).push(
                ascii_lower(s@[i as int]),
            ));
        }
        i = i + 1;
    }
    proof {
        assert(s@.take(i as int) =~= s@);
    }
    r
}

/// Whether `c` is whitespace.
pub fn is_whitespace(c: char) -> (r: bool)
    ensures
        r == is_ws(c),
{
    let u = c as u32;
    (0x09 <= u && u <= 0x0D) || u == 0x20 || u == 0x85 || u == 0xA0 || u == 0x1680 || (0x2000 <= u
        && u <= 0x200A) || u == 0x2028 || u == 0x2029 || u == 0x202F || u == 0x205F || u == 0x3000
}

/// Whether `p` occurs in `s` at index `i`.
pub fn occurs_at_exec(s: &Vec<char>, p: &Vec<char>, i: usize) -> (r: bool)
    ensures
        r == occurs_at(s@, p@, i as int),
{
    if i > s.len() || p.len() > s.len() - i {
        return false;
    }
    let mut k: usize = 0;
    while k < p.len()
        invariant
            s@.len() <= usize::MAX,
            i + p@.len() <= s@.len(),
            k <= p@.len(),
            forall|j: int| 0 <= j < k ==> s@[i + j] == p@[j],
        decreases p@.len() - k,
    {
        if s[i + k] != p[k] {
            proof {
                assert(s@.subrange(i as int, i + p@.len())[k as int] != p@[k as int]);
            }
            return false;
        }
        k = k + 1;
    }
    proof {
        assert(s@.subrange(i as int, i + p@.len()) =~= p@);
    }
    true
}

/// Whether `s` begins with `p`.
pub fn starts_with_exec(s: &Vec<char>, p: &Vec<char>) -> (r: bool)
    ensures
        r == starts_with(s@, p@),
{
    occurs_at_exec(s, p, 0)
}

/// Whether `p` occurs somewhere in `s`.
pub fn contains_exec(s: &Vec<char>, p: &Vec<char>) -> (r: bool)
    ensures
        r == contains_seq(s@, p@),
{
    if p.len() > s.len() {
        proof {
            assert forall|i: int| !occurs_at(s@, p@, i) by {}
        }
        return false;
    }
    let last = s.len() - p.len();
    let mut i: usize = 0;
    loop
        invariant
            last == s@.len() - p@.len(),
            i <= last,
            forall|j: int| 0 <= j < i ==> !occurs_at(s@, p@, j),
        decreases last - i,
    {
        if occurs_at_exec(s, p, i) {
            return true;
        }
        if i == last {
            proof {
                assert forall|j: int| !occurs_at(s@, p@, j) by {
                    if 0 <= j <= i {
                    }
                }
            }
            return false;
        }
        i = i + 1;
    }
}

/// The bounds, within `[from, to)`, of the characters left once whitespace is trimmed from both ends.
pub fn trim_bounds(s: &Vec<char>, from: usize, to: usize) -> (r: (usize, usize))
    requires
        from <= to <= s@.len(),
    ensures
        from <= r.0 <= r.1 <= to,
        s@.subrange(r.0 as int, r.1 as int) == trim(s@.subrange(from as int, to as int)),
{
    let mut a = from;
    while a < to && is_whitespace(s[a])
        invariant
            from <= a <= to <= s@.len(),
            trim_start(s@.subrange(from as int, to as int)) == trim_start(
                s@.subrange(a as int, to as int),
            ),
        decreases to - a,
    {
        proof {
            assert(s@.subrange(a as int, to as int).drop_first() =~= s@.subrange(a + 1, to as int));
        }
        a = a + 1;
    }
    proof {
        assert(trim_start(s@.subrange(a as int, to as int)) == s@.subrange(a as int, to as int));
    }
    let mut b = to;
    while b > a && is_whitespace(s[b - 1])
        invariant
            from <= a <= b <= to <= s@.len(),
            trim_end(s@.subrange(a as int, to as int)) == trim_end(s@.subrange(a as int, b as int)),
        decreases b,
    {
        proof {
            assert(s@.subrange(a as int, b as int).drop_last() =~= s@.subrange(a as int, b - 1));
        }
        b = b - 1;
    }
    (a, b)
}

/// Index of the first `c` at or after `pos`, or the length.
pub fn find_char(s: &Vec<char>, pos: usize, c: char) -> (r: usize)
    requires
        pos <= s@.len(),
    ensures
        r == next_char(s@, pos as int, c),
        pos <= r <= s@.len(),
{
    let mut i = pos;
    while i < s.len() && s[i] != c
        invariant
            pos <= i <= s@.len(),
            next_char(s@, pos as int, c) == next_char(s@, i as int, c),
        decreases s@.len() - i,
    {
        i = i + 1;
    }
    i
}

/// The characters of `s` from `from` to `to` as a string.
pub fn substring(s: &str, from: usize, to: usize) -> (r: String)
    requires
        from <= to <= s@.len(),
    ensures
        r@ == s@.subrange(from as int, to as int),
{
    s.substring_char(from, to).to_owned()
}

/// Whether two character sequences are equal.
pub fn chars_eq(a: &Vec<char>, b: &Vec<char>) -> (r: bool)
    ensures
        r == (a@ == b@),
{
    if a.len() != b.len() {
        return false;
    }
    let r = starts_with_exec(a, b);
    proof {
        if r {
            assert(a@ =~= b@);
        }
        if a@ == b@ {
            assert(a@.subrange(0, b@.len() as int) =~= b@);
        }
    }
    r
}

/// Lexicographic order of character sequences by code point (the order of `str` and
/// `String`, whose UTF-8 bytes compare as their code points do).
pub open spec fn seq_lt(a: Seq<char>, b: Seq<char>) -> bool
    decreases a.len(),
{
    if a.len() == 0 {
        b.len() > 0
    } else if b.len() == 0 {
        false
    } else if a[0] != b[0] {
        (a[0] as int) < (b[0] as int)
    } else {
        seq_lt(a.drop_first(), b.drop_first())
    }
}

/// No sequence is below itself.
pub proof fn lemma_seq_lt_irreflexive(a: Seq<char>)
    ensures
        !seq_lt(a, a),
    decreases a.len(),
{
    if a.len() > 0 {
        lemma_seq_lt_irreflexive(a.drop_first());
    }
}

/// The order is transitive.
pub proof fn lemma_seq_lt_transitive(a: Seq<char>, b: Seq<char>, c: Seq<char>)
    requires
        seq_lt(a, b),
        seq_lt(b, c),
    ensures
        seq_lt(a, c),
    decreases a.len(),
{
    if a.len() > 0 && b.len() > 0 && c.len() > 0 && a[0] == b[0] && b[0] == c[0] {
        lemma_seq_lt_transitive(a.drop_first(), b.drop_first(), c.drop_first());
    }
}

/// Any two different sequences are ordered one way or the other.
pub proof fn lemma_seq_lt_total(a: Seq<char>, b: Seq<char>)
    requires
        a != b,
    ensures
        seq_lt(a, b) || seq_lt(b, a),
    decreases a.len(),
{
    if a.len() > 0 && b.len() > 0 && a[0] == b[0] {
        if a.drop_first() == b.drop_first() {
            assert(a =~= seq![a[0]] + a.drop_first());
            assert(b =~= seq![b[0]] + b.drop_first());
        }
        lemma_seq_lt_total(a.drop_first(), b.drop_first());
    } else if a.len() > 0 && b.len() > 0 {
        assert((a[0] as int) != (b[0] as int));
    } else if a.len() == 0 && b.len() == 0 {
        assert(a =~= b);
    }
}

/// Whether `a` comes before `b` in lexicographic code point order.
pub fn chars_lt(a: &Vec<char>, b: &Vec<char>) -> (r: bool)
    ensures
        r == seq_lt(a@, b@),
{
    let mut i: usize = 0;
    proof {
        assert(a@.skip(0) =~= a@);
        assert(b@.skip(0) =~= b@);
    }
    while i < a.len() && i < b.len()
        invariant
            i <= a@.len(),
            i <= b@.len(),
            seq_lt(a@, b@) == seq_lt(a@.skip(i as int), b@.skip(i as int)),
        decreases a@.len() - i,
    {
        if a[i] != b[i] {
            return a[i] < b[i];
        }
        proof {
            assert(a@.skip(i as int).drop_first() =~= a@.skip(i + 1));
            assert(b@.skip(i as int).drop_first() =~= b@.skip(i + 1));
        }
        i = i + 1;
    }
    i < b.len()
}

/// Whether `a` comes before `b` in the order of strings.
pub fn str_lt(a: &str, b: &str) -> (r: bool)
    ensures
        r == seq_lt(a@, b@),
{
    chars_lt(&chars_of(a), &chars_of(b))
}

/// The decimal digit `d` (0 to 9) as a character.
pub open spec fn digit_char(d: int) -> char {
    if d == 0 {
        '0'
    } else if d == 1 {
        '1'
    } else if d == 2 {
        '2'
    } else if d == 3 {
        '3'
    } else if d == 4 {
        '4'
    } else if d == 5 {
        '5'
    } else if d == 6 {
        '6'
    } else if d == 7 {
        '7'
    } else if d == 8 {
        '8'
    } else {
        '9'
    }
}

/// The decimal spelling of `n`, without leading zeros.
pub open spec fn decimal(n: nat) -> Seq<char>
    decreases n,
{
    if n < 10 {
        seq![digit_char(n as int)]
    } else {
        decimal(n / 10).push(digit_char((n % 10) as int))
    }
}

/// The one-character string of a decimal digit.
fn digit_str(d: usize) -> (r: &'static str)
    requires
        d < 10,
    ensures
        r@ == seq![digit_char(d as int)],
{
    proof {
        reveal_strlit("0");
        reveal_strlit("1");
        reveal_strlit("2");
        reveal_strlit("3");
        reveal_strlit("4");
        reveal_strlit("5");
        reveal_strlit("6");
        reveal_strlit("7");
        reveal_strlit("8");
        reveal_strlit("9");
    }
    let r = match d {
        0 => "0",
        1 => "1",
        2 => "2",
        3 => "3",
        4 => "4",
        5 => "5",
        6 => "6",
        7 => "7",
        8 => "8",
        _ => "9",
    };
    proof {
        assert(r@ =~= seq![digit_char(d as int)]);
    }
    r
}

/// The decimal spelling of `n`, as `n.to_string()` gives it.
pub fn decimal_string(n: usize) -> (r: String)
    ensures
        r@ == decimal(n as nat),
    decreases n,
{
    if n < 10 {
        String::from_str(digit_str(n))
    } else {
        let mut s = decimal_string(n / 10);
        s.append(digit_str(n % 10));
        proof {
            assert(s@ =~= decimal((n / 10) as nat).push(digit_char((n % 10) as int)));
        }
        s
    }
}

/// Index of the first whitespace character at or after `i` (the length where there is none).
pub open spec fn next_ws(s: Seq<char>, i: int) -> int
    decreases s.len() - i,
{
    if i < 0 || i >= s.len() {
        s.len() as int
    } else if is_ws(s[i]) {
        i
    } else {
        next_ws(s, i + 1)
    }
}

/// The first whitespace-separated word of `s`, or `s` itself where it has none.
pub open spec fn first_word(s: Seq<char>) -> Seq<char> {
    let t = trim_start(s);
    if t.len() == 0 {
        s
    } else {
        t.take(next_ws(t, 0))
    }
}

/// The first whitespace-separated word of `s`, or all of `s` where it has none.
pub fn first_word_of(s: &str) -> (r: String)
    ensures
        r@ == first_word(s@),
{
    let chars = chars_of(s);
    let n = chars.len();
    let mut a: usize = 0;
    proof {
        assert(s@.subrange(0, n as int) =~= s@);
    }
    while a < n && is_whitespace(chars[a])
        invariant
            a <= n == s@.len(),
            chars@ == s@,
            trim_start(s@) == trim_start(s@.subrange(a as int, n as int)),
        decreases n - a,
    {
        proof {
            assert(s@.subrange(a as int, n as int).drop_first() =~= s@.subrange(a + 1, n as int));
        }
        a = a + 1;
    }
    let ghost t = s@.subrange(a as int, n as int);
    proof {
        assert(trim_start(t) == t);
    }
    if a == n {
        return s.to_owned();
    }
    let mut b = a;
    while b < n && !is_whitespace(chars[b])
        invariant
            a <= b <= n == s@.len(),
            chars@ == s@,
            t == s@.subrange(a as int, n as int),
            next_ws(t, 0) == next_ws(t, b - a),
        decreases n - b,
    {
        b = b + 1;
    }
    let r = substring(s, a, b);
    proof {
        assert(r@ =~= t.take(b - a));
    }
    r
}

/// Trimming twice trims no more than once.
pub proof fn lemma_trim_idempotent(s: Seq<char>)
    ensures
        trim(trim(s)) == trim(s),
{
    lemma_trim_start_of_trim(s);
    lemma_trim_end_idempotent(trim_start(s));
}

/// A trimmed start stays trimmed when its end is trimmed.
proof fn lemma_trim_start_of_trim(s: Seq<char>)
    ensures
        trim_start(trim_end(trim_start(s))) == trim_end(trim_start(s)),
{
    let t = trim_start(s);
    lemma_trim_start_first(s);
    lemma_trim_end_prefix(t);
    let u = trim_end(t);
    if u.len() > 0 {
        assert(u[0] == t[0]);
    }
}

/// The first character left by `trim_start` is not whitespace.
proof fn lemma_trim_start_first(s: Seq<char>)
    ensures
        trim_start(s).len() > 0 ==> !is_ws(trim_start(s)[0]),
    decreases s.len(),
{
    if s.len() > 0 && is_ws(s[0]) {
        lemma_trim_start_first(s.drop_first());
    }
}

/// `trim_end` keeps a leading part.
proof fn lemma_trim_end_prefix(s: Seq<char>)
    ensures
        trim_end(s).len() <= s.len(),
        trim_end(s) == s.subrange(0, trim_end(s).len() as int),
    decreases s.len(),
{
    if s.len() > 0 && is_ws(s.last()) {
        lemma_trim_end_prefix(s.drop_last());
        assert(s.drop_last().subrange(0, trim_end(s).len() as int) =~= s.subrange(
            0,
            trim_end(s).len() as int,
        ));
    } else {
        assert(s.subrange(0, s.len() as int) =~= s);
    }
}

/// Trimming the end twice trims no more than once.
proof fn lemma_trim_end_idempotent(s: Seq<char>)
    ensures
        trim_end(trim_end(s)) == trim_end(s),
    decreases s.len(),
{
    if s.len() > 0 && is_ws(s.last()) {
        lemma_trim_end_idempotent(s.drop_last());
    }
}

/// Index of the last `c` in `s` (-1 where there is none).
pub open spec fn last_index(s: Seq<char>, c: char) -> int
    decreases s.len(),
{
    if s.len() == 0 {
        -1
    } else if s.last() == c {
        s.len() - 1
    } else {
        last_index(s.drop_last(), c)
    }
}

/// The text of a path after its last '/'.
pub open spec fn final_component(path: Seq<char>) -> Seq<char> {
    path.skip(last_index(path, '/') + 1)
}

/// A path whose file name is its text after the last '/' on every platform: no '\\' or ':',
/// no leading "//", and a final part that is neither empty, "." nor "..".
pub open spec fn is_simple_path(path: Seq<char>) -> bool {
    let name = final_component(path);
    &&& !path.contains('\\')
    &&& !path.contains(':')
    &&& !(path.len() >= 2 && path[0] == '/' && path[1] == '/')
    &&& name.len() > 0
    &&& name != "."@
    &&& name != ".."@
}

/// The extension of a file name: the text after its last '.', unless that '.' starts the
/// name or there is none.
pub open spec fn name_extension(name: Seq<char>) -> Option<Seq<char>> {
    let d = last_index(name, '.');
    if d <= 0 {
        None
    } else {
        Some(name.skip(d + 1))
    }
}

/// A simple path whose parts are separated by single '/' and have no "." part after the
/// first: neither "//" nor "/./" stands in it.
pub open spec fn is_plain_path(path: Seq<char>) -> bool {
    &&& is_simple_path(path)
    &&& forall|i: int| 0 <= i < path.len() - 1 && #[trigger] path[i] == '/' ==> path[i + 1] != '/'
    &&& forall|i: int|
        0 <= i < path.len() - 2 && #[trigger] path[i] == '/' && path[i + 1] == '.' ==> path[i + 2]
            != '/'
}

/// The text of a path before its last '/': "/" where that '/' is the first character, and
/// empty where there is none.
pub open spec fn parent_text(path: Seq<char>) -> Seq<char> {
    let k = last_index(path, '/');
    if k < 0 {
        Seq::empty()
    } else if k == 0 {
        seq!['/']
    } else {
        path.subrange(0, k)
    }
}

/// Nothing but separators ('/' or '\\') and '.' stand in the text: what may follow a file
/// name at the end of a path.
pub open spec fn only_separators_and_dots(s: Seq<char>) -> bool {
    forall|k: int| 0 <= k < s.len() ==> #[trigger] s[k] == '/' || s[k] == '\\' || s[k] == '.'
}

/// Whether `c` separates path components on some platform: '/' everywhere, '\\' on Windows.
pub open spec fn is_separator(c: char) -> bool {
    c == '/' || c == '\\'
}

/// The path without its trailing '/' separators and "." parts after a '/', which
/// `Path::components` drops on every platform.
pub open spec fn trim_trailing_parts(p: Seq<char>) -> Seq<char>
    decreases p.len(),
{
    if p.len() > 0 && p.last() == '/' {
        trim_trailing_parts(p.drop_last())
    } else if p.len() >= 2 && p.last() == '.' && p[p.len() - 2] == '/' {
        trim_trailing_parts(p.subrange(0, p.len() - 2))
    } else {
        p
    }
}

/// Index of the last separator of either kind (-1 where there is none).
pub open spec fn last_separator(s: Seq<char>) -> int {
    let a = last_index(s, '/');
    let b = last_index(s, '\\');
    if a > b {
        a
    } else {
        b
    }
}

/// The path starts with two separators: a UNC, device or verbatim prefix on Windows.
pub open spec fn starts_with_two_separators(p: Seq<char>) -> bool {
    p.len() >= 2 && is_separator(p[0]) && is_separator(p[1])
}

/// The last part of a path once its trailing separators and "." parts are dropped: the
/// text after its last separator of either kind.
pub open spec fn last_part(p: Seq<char>) -> Seq<char> {
    let t = trim_trailing_parts(p);
    t.skip(last_separator(t) + 1)
}

/// The last part stands right after a '/', or starts the path: it is then the final part
/// on every platform, also where '\\' is no separator.
pub open spec fn last_part_after_slash(p: Seq<char>) -> bool {
    let t = trim_trailing_parts(p);
    let k = last_separator(t);
    k < 0 || t[k] == '/'
}

/// Every platform reads the end of the path alike: it does not start with two separators
/// (no UNC or verbatim prefix) and its last part holds no ':' (no drive prefix).
pub open spec fn portable_end(p: Seq<char>) -> bool {
    !starts_with_two_separators(p) && !last_part(p).contains(':')
}

/// The extension `Path::extension` finds, wherever every platform finds the same one:
/// `Some` of the answer, `None` where the platforms may differ. A last part with a '.'
/// after its first character, other than "..", is the file name on every platform, and the
/// extension is its text after its last '.'. A last part without such a '.' (or "..") that
/// follows a '/' or starts the path gives no extension anywhere.
pub open spec fn portable_extension(p: Seq<char>) -> Option<Option<Seq<char>>> {
    let n = last_part(p);
    if !portable_end(p) {
        None
    } else if n != ".."@ && last_index(n, '.') > 0 {
        Some(name_extension(n))
    } else if last_part_after_slash(p) {
        Some(None)
    } else {
        None
    }
}

/// The file name `Path::file_name` finds, wherever every platform finds the same one: the
/// last part where it follows a '/' or starts the path, none where that part is empty, "."
/// or "..".
pub open spec fn portable_file_name(p: Seq<char>) -> Option<Option<Seq<char>>> {
    let n = last_part(p);
    if !portable_end(p) || !last_part_after_slash(p) {
        None
    } else if n.len() == 0 || n == "."@ || n == ".."@ {
        Some(None)
    } else {
        Some(Some(n))
    }
}

/// The parent of a path without '\\' or ':' that is not empty once trimmed: the text before
/// its last '/', trimmed in turn, the root "/" where nothing is left before it, and empty
/// where there is no '/'.
pub open spec fn parent_of_trimmed(t: Seq<char>) -> Seq<char> {
    let k = last_index(t, '/');
    if k < 0 {
        Seq::empty()
    } else {
        let q = trim_trailing_parts(t.subrange(0, k));
        if q.len() == 0 {
            seq!['/']
        } else {
            q
        }
    }
}

/// The parent `Path::parent` finds, wherever every platform finds the same one: for a path
/// without '\\' or ':' that does not start with "//", none where nothing is left once the
/// trailing separators and "." parts are dropped, else `parent_of_trimmed` of what is left.
pub open spec fn portable_parent(p: Seq<char>) -> Option<Option<Seq<char>>> {
    if p.contains('\\') || p.contains(':') || starts_with_two_separators(p) {
        None
    } else {
        let t = trim_trailing_parts(p);
        if t.len() == 0 {
            Some(None)
        } else {
            Some(Some(parent_of_trimmed(t)))
        }
    }
}

/// Where the last `c` of `s` stands.
pub proof fn lemma_last_index(s: Seq<char>, c: char)
    ensures
        -1 <= last_index(s, c) < s.len(),
        last_index(s, c) >= 0 ==> s[last_index(s, c)] == c,
        forall|j: int| last_index(s, c) < j < s.len() ==> s[j] != c,
        !s.contains(c) ==> last_index(s, c) == -1,
    decreases s.len(),
{
    if s.len() > 0 {
        lemma_last_index(s.drop_last(), c);
        if s.last() != c {
            assert forall|j: int| last_index(s, c) < j < s.len() implies s[j] != c by {
                if j < s.len() - 1 {
                    assert(s[j] == s.drop_last()[j]);
                }
            }
            if !s.contains(c) {
                assert(!s.drop_last().contains(c)) by {
                    if s.drop_last().contains(c) {
                        let j = choose|j: int| 0 <= j < s.drop_last().len() && s.drop_last()[j] == c;
                        assert(s[j] == c);
                    }
                }
            }
        } else {
            assert(s.contains(c) ==> true);
            assert(s[s.len() - 1] == c);
        }
    }
}

/// A simple path keeps its text when trimmed, and its last part is its final component.
pub proof fn lemma_simple_path_last_part(p: Seq<char>)
    requires
        is_simple_path(p),
    ensures
        trim_trailing_parts(p) == p,
        last_separator(p) == last_index(p, '/'),
        last_part(p) == final_component(p),
        last_part_after_slash(p),
        portable_end(p),
{
    lemma_last_index(p, '/');
    lemma_last_index(p, '\\');
    let li = last_index(p, '/');
    let name = final_component(p);
    assert(name.len() == p.len() - li - 1);
    assert(p.last() == name.last());
    if p.len() >= 2 && p.last() == '.' && p[p.len() - 2] == '/' {
        assert(li == p.len() - 2);
        assert(name =~= "."@) by {
            reveal_strlit(".");
        }
    }
    assert(!(p.len() > 0 && p.last() == '/'));
    assert(trim_trailing_parts(p) == p);
    if p.len() >= 2 && is_separator(p[0]) && is_separator(p[1]) {
        assert(p[0] != '\\') by {
            if p[0] == '\\' {
                assert(p.contains('\\'));
            }
        }
        assert(p[1] != '\\') by {
            if p[1] == '\\' {
                assert(p.contains('\\'));
            }
        }
    }
    if name.contains(':') {
        let j = choose|j: int| 0 <= j < name.len() && name[j] == ':';
        assert(p[li + 1 + j] == ':');
        assert(p.contains(':'));
    }
}

/// On a simple path the portable extension and file name are those of its final component.
pub proof fn lemma_simple_path_portable(p: Seq<char>)
    requires
        is_simple_path(p),
    ensures
        portable_extension(p) == Some(name_extension(final_component(p))),
        portable_file_name(p) == Some(Some(final_component(p))),
        portable_parent(p) matches Some(Some(_)),
        !p.contains('/') ==> portable_parent(p) == Some(Some(Seq::<char>::empty())),
{
    lemma_simple_path_last_part(p);
    lemma_last_index(p, '/');
    reveal_strlit(".");
    reveal_strlit("..");
    let name = final_component(p);
    assert(name.len() > 0);
    assert(p.len() > 0);
}

/// On a plain path the portable parent is the text before its last '/'.
pub proof fn lemma_plain_path_parent(p: Seq<char>)
    requires
        is_plain_path(p),
    ensures
        portable_parent(p) == Some(Some(parent_text(p))),
{
    lemma_simple_path_portable(p);
    lemma_simple_path_last_part(p);
    lemma_last_index(p, '/');
    let k = last_index(p, '/');
    if k > 0 {
        let q = p.subrange(0, k);
        assert(p[k] == '/');
        assert(q.last() != '/') by {
            assert(q.last() == p[k - 1]);
        }
        if q.len() >= 2 && q.last() == '.' && q[q.len() - 2] == '/' {
            assert(p[k - 2] == '/' && p[k - 1] == '.');
        }
        assert(trim_trailing_parts(q) == q);
    } else if k == 0 {
        assert(trim_trailing_parts(p.subrange(0, 0)) =~= Seq::<char>::empty());
    }
}

} // verus!
