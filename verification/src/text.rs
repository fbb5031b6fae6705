//! Text functions on sequences of characters.
//!
//! Each function has a spec function of the same meaning over `Seq<char>`, so
//! that contracts elsewhere can speak of words, lines and trimmed text.

use vstd::prelude::*;
use vstd::string::{StrSliceExecFns, StringExecFns};

verus! {

broadcast use vstd::string::group_string_axioms;

/// `String::push` appends one character to the end of the string.
pub assume_specification[ String::push ](s: &mut String, c: char)
    ensures
        final(s)@ == old(s)@.push(c),
;

// ---------------------------------------------------------------------------
// Models
// ---------------------------------------------------------------------------

/// The characters with the Unicode property `White_Space`.
pub open spec fn is_space(c: char) -> bool {
    ||| '\u{9}' <= c <= '\u{d}'
    ||| c == ' '
    ||| c == '\u{85}'
    ||| c == '\u{a0}'
    ||| c == '\u{1680}'
    ||| '\u{2000}' <= c <= '\u{200a}'
    ||| c == '\u{2028}'
    ||| c == '\u{2029}'
    ||| c == '\u{202f}'
    ||| c == '\u{205f}'
    ||| c == '\u{3000}'
}

/// Whether no character of `s` is white space.
pub open spec fn space_free(s: Seq<char>) -> bool {
    forall|i: int| 0 <= i < s.len() ==> !is_space(#[trigger] s[i])
}

/// A word: not empty, and without white space.
pub open spec fn is_word(s: Seq<char>) -> bool {
    s.len() > 0 && space_free(s)
}

/// `s` begins with `prefix`.
pub open spec fn has_prefix(s: Seq<char>, prefix: Seq<char>) -> bool {
    prefix.len() <= s.len() && s.take(prefix.len() as int) == prefix
}

/// `needle` occurs in `s` at index `at`.
pub open spec fn occurs_at(s: Seq<char>, needle: Seq<char>, at: int) -> bool {
    0 <= at && at + needle.len() <= s.len() && s.subrange(at, at + needle.len()) == needle
}

/// `needle` occurs somewhere in `s`.
pub open spec fn has_substring(s: Seq<char>, needle: Seq<char>) -> bool {
    exists|at: int| occurs_at(s, needle, at)
}

/// `s` without white space at its start.
pub open spec fn trim_start(s: Seq<char>) -> Seq<char>
    decreases s.len(),
{
    if s.len() > 0 && is_space(s[0]) {
        trim_start(s.drop_first())
    } else {
        s
    }
}

/// `s` without white space at its end.
pub open spec fn trim_end(s: Seq<char>) -> Seq<char>
    decreases s.len(),
{
    if s.len() > 0 && is_space(s.last()) {
        trim_end(s.drop_last())
    } else {
        s
    }
}

/// `s` without white space at either end.
pub open spec fn trim(s: Seq<char>) -> Seq<char> {
    trim_end(trim_start(s))
}

/// Whether `s` ends inside a word: with a character that is not white space.
pub open spec fn ends_in_word(s: Seq<char>) -> bool {
    s.len() > 0 && !is_space(s.last())
}

/// The maximal runs of characters in `s` that are not white space, in order.
pub open spec fn words(s: Seq<char>) -> Seq<Seq<char>>
    decreases s.len(),
{
    if s.len() == 0 {
        Seq::empty()
    } else {
        let before = words(s.drop_last());
        if is_space(s.last()) {
            before
        } else if ends_in_word(s.drop_last()) {
            before.drop_last().push(before.last().push(s.last()))
        } else {
            before.push(seq![s.last()])
        }
    }
}

/// The parts of `parts` in order, with `sep` between two neighbours.
pub open spec fn join(parts: Seq<Seq<char>>, sep: Seq<char>) -> Seq<char>
    decreases parts.len(),
{
    if parts.len() == 0 {
        Seq::empty()
    } else if parts.len() == 1 {
        parts[0]
    } else {
        join(parts.drop_last(), sep) + sep + parts.last()
    }
}

/// The index of the first `c` in `s`, or the length of `s` if there is none.
pub open spec fn first_index(s: Seq<char>, c: char) -> nat
    decreases s.len(),
{
    if s.len() == 0 || s[0] == c {
        0
    } else {
        1 + first_index(s.drop_first(), c)
    }
}

/// What stands in `s` behind its last `c`, or all of `s` if there is none.
pub open spec fn after_last(s: Seq<char>, c: char) -> Seq<char>
    decreases s.len(),
{
    if s.len() == 0 || s.last() == c {
        Seq::empty()
    } else {
        after_last(s.drop_last(), c).push(s.last())
    }
}

/// The parts of `s` between its line feeds. A line feed at the end of `s`
/// closes the last part and opens no other.
pub open spec fn lines(s: Seq<char>) -> Seq<Seq<char>>
    decreases s.len(),
{
    if s.len() == 0 {
        Seq::empty()
    } else {
        let n = first_index(s, '\n') as int;
        if n < s.len() {
            seq![s.take(n)] + lines(s.skip(n + 1))
        } else {
            seq![s]
        }
    }
}

/// `s` with every `c` replaced by `with`.
pub open spec fn replace_char(s: Seq<char>, c: char, with: Seq<char>) -> Seq<char>
    decreases s.len(),
{
    if s.len() == 0 {
        Seq::empty()
    } else {
        replace_char(s.drop_last(), c, with) + if s.last() == c {
            with
        } else {
            seq![s.last()]
        }
    }
}

/// `s` with `prefix` taken off its start as often as it stands there.
pub open spec fn strip_all(s: Seq<char>, prefix: Seq<char>) -> Seq<char>
    decreases s.len(),
{
    if prefix.len() > 0 && has_prefix(s, prefix) {
        strip_all(s.skip(prefix.len() as int), prefix)
    } else {
        s
    }
}

/// `s` without any `c` at its start.
pub open spec fn trim_char_start(s: Seq<char>, c: char) -> Seq<char>
    decreases s.len(),
{
    if s.len() > 0 && s[0] == c {
        trim_char_start(s.drop_first(), c)
    } else {
        s
    }
}

/// `s` without any `c` at its end.
pub open spec fn trim_char_end(s: Seq<char>, c: char) -> Seq<char>
    decreases s.len(),
{
    if s.len() > 0 && s.last() == c {
        trim_char_end(s.drop_last(), c)
    } else {
        s
    }
}

/// The character of the digit `d`.
pub open spec fn digit(d: nat) -> char {
    (('0' as nat) + d) as char
}

/// The decimal digits of `n`, without leading zeros.
pub open spec fn decimal(n: nat) -> Seq<char>
    decreases n,
{
    if n < 10 {
        seq![digit(n)]
    } else {
        decimal(n / 10).push(digit(n % 10))
    }
}

/// The decimal text of an integer, with a minus sign if it is negative.
pub open spec fn signed_decimal(n: int) -> Seq<char> {
    if n < 0 {
        "-"@ + decimal((-n) as nat)
    } else {
        decimal(n as nat)
    }
}

/// The text of a truth value.
pub open spec fn bool_text(b: bool) -> Seq<char> {
    if b {
        "true"@
    } else {
        "false"@
    }
}

/// `a` stands before `b` in the dictionary order of character codes.
pub open spec fn precedes(a: Seq<char>, b: Seq<char>) -> bool
    decreases a.len(),
{
    if b.len() == 0 {
        false
    } else if a.len() == 0 {
        true
    } else if a[0] != b[0] {
        a[0] < b[0]
    } else {
        precedes(a.drop_first(), b.drop_first())
    }
}

// ---------------------------------------------------------------------------
// Characters
// ---------------------------------------------------------------------------

/// The characters of `s`.
pub fn chars_of(s: &str) -> (r: Vec<char>)
    ensures
        r@ == s@,
{
    let mut r: Vec<char> = Vec::new();
    for c in it: s.chars()
        invariant
            it.seq() == s@,
            r@ == s@.take(it.index() as int),
    {
        r.push(c);
    }
    r
}

/// Whether `c` is white space.
pub fn char_is_space(c: char) -> (r: bool)
    ensures
        r == is_space(c),
{
    ('\u{9}' <= c && c <= '\u{d}') || c == ' ' || c == '\u{85}' || c == '\u{a0}' || c == '\u{1680}'
        || ('\u{2000}' <= c && c <= '\u{200a}') || c == '\u{2028}' || c == '\u{2029}'
        || c == '\u{202f}' || c == '\u{205f}' || c == '\u{3000}'
}

/// Whether `a` and `b` hold the same characters.
pub fn str_eq(a: &str, b: &str) -> (r: bool)
    ensures
        r == (a@ == b@),
{
    let x = chars_of(a);
    let y = chars_of(b);
    if x.len() != y.len() {
        return false;
    }
    let mut i: usize = 0;
    while i < x.len()
        invariant
            x@ == a@,
            y@ == b@,
            x.len() == y.len(),
            i <= x.len(),
            forall|j: int| 0 <= j < i ==> a@[j] == b@[j],
        decreases x.len() - i,
    {
        if x[i] != y[i] {
            return false;
        }
        i += 1;
    }
    assert(a@ =~= b@);
    true
}

/// Whether `c` occurs in `s`.
pub fn holds_char(s: &str, c: char) -> (r: bool)
    ensures
        r == s@.contains(c),
{
    let chars = chars_of(s);
    let mut i: usize = 0;
    while i < chars.len()
        invariant
            chars@ == s@,
            i <= chars@.len(),
            forall|j: int| 0 <= j < i ==> s@[j] != c,
        decreases chars@.len() - i,
    {
        if chars[i] == c {
            return true;
        }
        i += 1;
    }
    false
}

/// Whether `s` begins with `prefix`.
pub fn starts_with(s: &str, prefix: &str) -> (r: bool)
    ensures
        r == has_prefix(s@, prefix@),
{
    let n: usize = prefix.unicode_len();
    n <= s.unicode_len() && str_eq(s.substring_char(0, n), prefix)
}

/// What stands in `s` behind `prefix`, if `s` begins with it.
pub fn strip_prefix<'a>(s: &'a str, prefix: &str) -> (r: Option<&'a str>)
    ensures
        r is Some <==> has_prefix(s@, prefix@),
        r matches Some(rest) ==> rest@ == s@.skip(prefix@.len() as int),
{
    if starts_with(s, prefix) {
        let n: usize = prefix.unicode_len();
        Some(s.substring_char(n, s.unicode_len()))
    } else {
        None
    }
}

/// Whether `needle` occurs in `s`.
pub fn contains(s: &str, needle: &str) -> (r: bool)
    ensures
        r == has_substring(s@, needle@),
{
    let n: usize = s.unicode_len();
    let m: usize = needle.unicode_len();
    if m > n {
        return false;
    }
    let mut at: usize = 0;
    loop
        invariant
            n == s@.len(),
            m == needle@.len(),
            at + m <= n,
            forall|k: int| 0 <= k < at ==> !occurs_at(s@, needle@, k),
        decreases n - at,
    {
        if str_eq(s.substring_char(at, at + m), needle) {
            assert(occurs_at(s@, needle@, at as int));
            return true;
        }
        if at + m == n {
            return false;
        }
        at += 1;
    }
}

/// `s` without white space at its start.
pub fn trim_start_of(s: &str) -> (r: &str)
    ensures
        r@ == trim_start(s@),
{
    let chars = chars_of(s);
    let n: usize = chars.len();
    let mut i: usize = 0;
    assert(s@.skip(0) =~= s@);
    while i < n && char_is_space(chars[i])
        invariant
            chars@ == s@,
            n == s@.len(),
            i <= n,
            trim_start(s@) == trim_start(s@.skip(i as int)),
        decreases n - i,
    {
        assert(s@.skip(i as int).drop_first() =~= s@.skip(i + 1));
        i += 1;
    }
    let r = s.substring_char(i, n);
    assert(r@ =~= s@.skip(i as int));
    r
}

/// `s` without white space at either end.
pub fn trim_of(s: &str) -> (r: &str)
    ensures
        r@ == trim(s@),
{
    let t = trim_start_of(s);
    let chars = chars_of(t);
    let mut n: usize = chars.len();
    assert(t@.take(n as int) =~= t@);
    while n > 0 && char_is_space(chars[n - 1])
        invariant
            chars@ == t@,
            n <= t@.len(),
            trim_end(t@) == trim_end(t@.take(n as int)),
        decreases n,
    {
        assert(t@.take(n as int).drop_last() =~= t@.take(n - 1));
        n -= 1;
    }
    let r = t.substring_char(0, n);
    assert(r@ =~= t@.take(n as int));
    r
}

/// The contents of each string of `v`.
pub open spec fn views(v: Seq<String>) -> Seq<Seq<char>> {
    v.map_values(|x: String| x@)
}

/// The contents of a string that may be absent.
pub open spec fn opt_view(s: Option<String>) -> Option<Seq<char>> {
    match s {
        Some(t) => Some(t@),
        None => None,
    }
}

/// The words of `s`.
pub fn words_of(s: &str) -> (r: Vec<String>)
    ensures
        views(r@) == words(s@),
{
    let chars = chars_of(s);
    let n: usize = chars.len();
    let mut r: Vec<String> = Vec::new();
    let mut inside: bool = false;
    let mut i: usize = 0;
    assert(s@.take(0) =~= Seq::<char>::empty());
    assert(views(r@) =~= Seq::<Seq<char>>::empty());
    while i < n
        invariant
            chars@ == s@,
            n == s@.len(),
            i <= n,
            inside == ends_in_word(s@.take(i as int)),
            inside ==> r@.len() > 0,
            views(r@) == words(s@.take(i as int)),
        decreases n - i,
    {
        let c = chars[i];
        let ghost before = r@;
        assert(s@.take(i + 1).drop_last() =~= s@.take(i as int));
        if char_is_space(c) {
            inside = false;
        } else {
            let mut word = if inside {
                r.pop().unwrap()
            } else {
                String::new()
            };
            word.push(c);
            r.push(word);
            assert(views(r@) =~= if inside {
                views(before).drop_last().push(views(before).last().push(c))
            } else {
                views(before).push(seq![c])
            });
            inside = true;
        }
        i += 1;
    }
    assert(s@.take(n as int) =~= s@);
    r
}

/// The strings of `parts` with `sep` between two neighbours.
pub fn join_of(parts: &Vec<String>, sep: &str) -> (r: String)
    ensures
        r@ == join(views(parts@), sep@),
{
    let mut r = String::new();
    let mut i: usize = 0;
    assert(views(parts@).take(0) =~= Seq::<Seq<char>>::empty());
    while i < parts.len()
        invariant
            i <= parts@.len(),
            r@ == join(views(parts@).take(i as int), sep@),
        decreases parts@.len() - i,
    {
        assert(views(parts@).take(i + 1).drop_last() =~= views(parts@).take(i as int));
        if i > 0 {
            r.append(sep);
        }
        r.append(parts[i].as_str());
        assert(r@ =~= join(views(parts@).take(i + 1), sep@));
        i += 1;
    }
    assert(views(parts@).take(i as int) =~= views(parts@));
    r
}

/// The two sides of the first `c` in `s`, if there is one.
pub fn split_once(s: &str, c: char) -> (r: Option<(&str, &str)>)
    ensures
        r is Some <==> first_index(s@, c) < s@.len(),
        r matches Some(sides) ==> sides.0@ == s@.take(first_index(s@, c) as int) && sides.1@
            == s@.skip(first_index(s@, c) as int + 1),
{
    let chars = chars_of(s);
    let n: usize = chars.len();
    let mut i: usize = 0;
    assert(s@.skip(0) =~= s@);
    while i < n
        invariant
            chars@ == s@,
            n == s@.len(),
            i <= n,
            first_index(s@, c) == i + first_index(s@.skip(i as int), c),
        decreases n - i,
    {
        if chars[i] == c {
            return Some((s.substring_char(0, i), s.substring_char(i + 1, n)));
        }
        assert(s@.skip(i as int).drop_first() =~= s@.skip(i + 1));
        i += 1;
    }
    None
}

/// What stands in `s` behind its last `c`, or all of `s` if there is none.
pub fn after_last_of(s: &str, c: char) -> (r: &str)
    ensures
        r@ == after_last(s@, c),
{
    let chars = chars_of(s);
    let n: usize = chars.len();
    let mut i: usize = n;
    assert(s@.take(n as int) =~= s@);
    assert(after_last(s@, c) =~= after_last(s@, c) + s@.skip(n as int));
    while i > 0 && chars[i - 1] != c
        invariant
            chars@ == s@,
            n == s@.len(),
            i <= n,
            after_last(s@, c) == after_last(s@.take(i as int), c) + s@.skip(i as int),
        decreases i,
    {
        assert(s@.take(i as int).drop_last() =~= s@.take(i - 1));
        assert(after_last(s@.take(i as int), c) + s@.skip(i as int) =~= after_last(
            s@.take(i - 1),
            c,
        ) + s@.skip(i - 1));
        i -= 1;
    }
    let r = s.substring_char(i, n);
    assert(r@ =~= after_last(s@.take(i as int), c) + s@.skip(i as int));
    r
}

/// `s` with every `c` replaced by `with`.
pub fn replace_char_in(s: &str, c: char, with: &str) -> (r: String)
    ensures
        r@ == replace_char(s@, c, with@),
{
    let chars = chars_of(s);
    let n: usize = chars.len();
    let mut r = String::new();
    let mut i: usize = 0;
    assert(s@.take(0) =~= Seq::<char>::empty());
    while i < n
        invariant
            chars@ == s@,
            n == s@.len(),
            i <= n,
            r@ == replace_char(s@.take(i as int), c, with@),
        decreases n - i,
    {
        assert(s@.take(i + 1).drop_last() =~= s@.take(i as int));
        if chars[i] == c {
            r.append(with);
        } else {
            r.push(chars[i]);
        }
        assert(r@ =~= replace_char(s@.take(i + 1), c, with@));
        i += 1;
    }
    assert(s@.take(n as int) =~= s@);
    r
}

/// `s` with `prefix` taken off its start as often as it stands there.
pub fn strip_all_of<'a>(s: &'a str, prefix: &str) -> (r: &'a str)
    ensures
        r@ == strip_all(s@, prefix@),
{
    let mut r = s;
    let n: usize = prefix.unicode_len();
    if n > 0 {
        while starts_with(r, prefix)
            invariant
                n == prefix@.len(),
                n > 0,
                strip_all(s@, prefix@) == strip_all(r@, prefix@),
            decreases r@.len(),
        {
            let m: usize = r.unicode_len();
            assert(r@.skip(n as int) =~= r@.subrange(n as int, m as int));
            r = r.substring_char(n, m);
        }
    }
    r
}

/// `s` without any `c` at either end.
pub fn trim_char_of(s: &str, c: char) -> (r: &str)
    ensures
        r@ == trim_char_end(trim_char_start(s@, c), c),
{
    let chars = chars_of(s);
    let n: usize = chars.len();
    let mut from: usize = 0;
    assert(s@.skip(0) =~= s@);
    while from < n && chars[from] == c
        invariant
            chars@ == s@,
            n == s@.len(),
            from <= n,
            trim_char_start(s@, c) == trim_char_start(s@.skip(from as int), c),
        decreases n - from,
    {
        assert(s@.skip(from as int).drop_first() =~= s@.skip(from + 1));
        from += 1;
    }
    let ghost tail = s@.skip(from as int);
    let mut to: usize = n;
    assert(s@.subrange(from as int, n as int) =~= tail);
    while to > from && chars[to - 1] == c
        invariant
            chars@ == s@,
            n == s@.len(),
            from <= to <= n,
            trim_char_end(tail, c) == trim_char_end(s@.subrange(from as int, to as int), c),
        decreases to,
    {
        assert(s@.subrange(from as int, to as int).drop_last() =~= s@.subrange(
            from as int,
            to - 1,
        ));
        to -= 1;
    }
    s.substring_char(from, to)
}

/// The digit `d` as a character.
fn digit_char(d: u128) -> (c: char)
    requires
        d < 10,
    ensures
        c == digit(d as nat),
{
    if d == 0 {
        '0'
    } else if d == 1 {
        '1'
    } else if d == 2 {
        '2'
    } else if d == 3 {
        '3'
    } else if d == 4 {
        '4'
    } else if d == 5 {
        '5'
    } else if d == 6 {
        '6'
    } else if d == 7 {
        '7'
    } else if d == 8 {
        '8'
    } else {
        '9'
    }
}

/// The decimal digits of `n`.
pub fn decimal_of(n: u128) -> (r: String)
    ensures
        r@ == decimal(n as nat),
    decreases n,
{
    let mut r = if n < 10 {
        String::new()
    } else {
        decimal_of(n / 10)
    };
    r.push(digit_char(n % 10));
    assert(r@ =~= decimal(n as nat));
    r
}

/// The decimal text of `n`, with a minus sign if it is negative.
pub fn signed_decimal_of(n: i64) -> (r: String)
    ensures
        r@ == signed_decimal(n as int),
{
    if n < 0 {
        let mut r = "-".to_owned();
        r.append(decimal_of((-(n as i128)) as u128).as_str());
        r
    } else {
        decimal_of(n as u128)
    }
}

/// The text of a truth value.
pub fn bool_text_of(b: bool) -> (r: String)
    ensures
        r@ == bool_text(b),
{
    if b {
        "true".to_owned()
    } else {
        "false".to_owned()
    }
}

/// Whether `a` stands before `b` in the dictionary order of character codes.
pub fn str_precedes(a: &str, b: &str) -> (r: bool)
    ensures
        r == precedes(a@, b@),
{
    let x = chars_of(a);
    let y = chars_of(b);
    let mut i: usize = 0;
    assert(a@.skip(0) =~= a@ && b@.skip(0) =~= b@);
    while i < x.len() && i < y.len() && x[i] == y[i]
        invariant
            x@ == a@,
            y@ == b@,
            i <= x@.len(),
            i <= y@.len(),
            precedes(a@, b@) == precedes(a@.skip(i as int), b@.skip(i as int)),
        decreases x@.len() - i,
    {
        assert(a@.skip(i as int).drop_first() =~= a@.skip(i + 1));
        assert(b@.skip(i as int).drop_first() =~= b@.skip(i + 1));
        i += 1;
    }
    if i == y.len() {
        false
    } else if i == x.len() {
        true
    } else {
        x[i] < y[i]
    }
}

// ---------------------------------------------------------------------------
// Laws
// ---------------------------------------------------------------------------

/// The dictionary order is irreflexive.
pub proof fn precedes_irreflexive(a: Seq<char>)
    ensures
        !precedes(a, a),
    decreases a.len(),
{
    if a.len() > 0 {
        precedes_irreflexive(a.drop_first());
    }
}

/// The dictionary order is transitive.
pub proof fn precedes_transitive(a: Seq<char>, b: Seq<char>, c: Seq<char>)
    requires
        precedes(a, b),
        precedes(b, c),
    ensures
        precedes(a, c),
    decreases a.len(),
{
    if a.len() > 0 && a[0] == b[0] && b[0] == c[0] {
        precedes_transitive(a.drop_first(), b.drop_first(), c.drop_first());
    }
}

/// Of two different texts, one stands before the other in the dictionary order.
pub proof fn precedes_total(a: Seq<char>, b: Seq<char>)
    ensures
        a == b || precedes(a, b) || precedes(b, a),
    decreases a.len(),
{
    if a.len() > 0 && b.len() > 0 && a[0] == b[0] {
        precedes_total(a.drop_first(), b.drop_first());
        if a.drop_first() == b.drop_first() {
            assert(a =~= seq![a[0]] + a.drop_first());
            assert(b =~= seq![b[0]] + b.drop_first());
        }
    } else if a.len() == 0 && b.len() == 0 {
        assert(a =~= b);
    }
}

/// A word behind a text that does not end inside one is a word of its own.
pub proof fn words_add_word(s: Seq<char>, w: Seq<char>)
    requires
        !ends_in_word(s),
        is_word(w),
    ensures
        words(s + w) == words(s).push(w),
        ends_in_word(s + w),
    decreases w.len(),
{
    let head = w.drop_last();
    assert((s + w).drop_last() =~= s + head);
    assert((s + w).last() == w.last());
    if head.len() == 0 {
        assert(s + head =~= s);
        assert(w =~= seq![w.last()]);
    } else {
        assert forall|i: int| 0 <= i < head.len() implies !is_space(#[trigger] head[i]) by {
            assert(head[i] == w[i]);
        }
        words_add_word(s, head);
        assert(words(s).push(head).drop_last() =~= words(s));
        assert(head.push(w.last()) =~= w);
    }
}

/// White space at the end of a text makes no difference to its words.
pub proof fn words_add_space(s: Seq<char>, c: char)
    requires
        is_space(c),
    ensures
        words(s.push(c)) == words(s),
        !ends_in_word(s.push(c)),
{
    assert(s.push(c).drop_last() =~= s);
}

/// The words of two texts, the first of which does not end inside a word, are
/// those of the one and then those of the other.
pub proof fn words_concat(s: Seq<char>, t: Seq<char>)
    requires
        !ends_in_word(s),
    ensures
        words(s + t) == words(s) + words(t),
    decreases t.len(),
{
    if t.len() == 0 {
        assert(s + t =~= s);
        assert(words(s) + words(t) =~= words(s));
    } else {
        let head = t.drop_last();
        words_concat(s, head);
        words_are_words(head);
        assert((s + t).drop_last() =~= s + head);
        assert((s + t).last() == t.last());
        assert(ends_in_word(s + head) == ends_in_word(head)) by {
            if head.len() == 0 {
                assert(s + head =~= s);
            } else {
                assert((s + head).last() == head.last());
            }
        }
        assert(words(s + t) =~= words(s) + words(t));
    }
}

/// The words of all of `parts`, part by part.
pub open spec fn all_words(parts: Seq<Seq<char>>) -> Seq<Seq<char>>
    decreases parts.len(),
{
    if parts.len() == 0 {
        Seq::empty()
    } else {
        all_words(parts.drop_last()) + words(parts.last())
    }
}

/// Texts that are joined by single spaces keep their words.
pub proof fn words_of_join(parts: Seq<Seq<char>>)
    ensures
        words(join(parts, " "@)) == all_words(parts),
    decreases parts.len(),
{
    reveal_strlit(" ");
    assert(" "@ =~= seq![' ']);
    let none = Seq::<char>::empty();
    if parts.len() > 0 {
        let head = parts.drop_last();
        words_of_join(head);
        let s = if parts.len() == 1 {
            none
        } else {
            join(head, " "@).push(' ')
        };
        if parts.len() > 1 {
            words_add_space(join(head, " "@), ' ');
            assert(join(head, " "@) + " "@ =~= s);
        }
        assert(join(parts, " "@) =~= s + parts.last());
        words_concat(s, parts.last());
    }
}

/// A word has itself for its only word.
pub proof fn words_of_word(w: Seq<char>)
    requires
        is_word(w),
    ensures
        words(w) == seq![w],
{
    let none = Seq::<char>::empty();
    words_add_word(none, w);
    assert(none + w =~= w);
    assert(words(none).push(w) =~= seq![w]);
}

/// Words that are joined by single spaces are found again.
pub proof fn words_of_joined_words(parts: Seq<Seq<char>>)
    requires
        forall|i: int| 0 <= i < parts.len() ==> is_word(#[trigger] parts[i]),
    ensures
        words(join(parts, " "@)) == parts,
{
    words_of_join(parts);
    all_words_of_words(parts);
}

/// The words of words are those words.
pub proof fn all_words_of_words(parts: Seq<Seq<char>>)
    requires
        forall|i: int| 0 <= i < parts.len() ==> is_word(#[trigger] parts[i]),
    ensures
        all_words(parts) == parts,
    decreases parts.len(),
{
    if parts.len() > 0 {
        let head = parts.drop_last();
        assert forall|i: int| 0 <= i < head.len() implies is_word(#[trigger] head[i]) by {
            assert(head[i] == parts[i]);
        }
        all_words_of_words(head);
        assert(is_word(parts[parts.len() - 1]));
        words_of_word(parts.last());
        assert(head + seq![parts.last()] =~= parts);
    } else {
        assert(all_words(parts) =~= parts);
    }
}

/// The words of two lists of texts are those of the one and then those of the
/// other.
pub proof fn all_words_concat(a: Seq<Seq<char>>, b: Seq<Seq<char>>)
    ensures
        all_words(a + b) == all_words(a) + all_words(b),
    decreases b.len(),
{
    if b.len() == 0 {
        assert(a + b =~= a);
        assert(all_words(a) + all_words(b) =~= all_words(a));
    } else {
        all_words_concat(a, b.drop_last());
        assert((a + b).drop_last() =~= a + b.drop_last());
        assert(all_words(a + b) =~= all_words(a) + all_words(b));
    }
}

/// A selection of everything is everything.
pub proof fn filter_all<A>(all: Seq<A>, keep: spec_fn(A) -> bool)
    requires
        forall|i: int| 0 <= i < all.len() ==> keep(#[trigger] all[i]),
    ensures
        all.filter(keep) == all,
    decreases all.len(),
{
    reveal(Seq::filter);
    if all.len() > 0 {
        let head = all.drop_last();
        assert forall|i: int| 0 <= i < head.len() implies keep(#[trigger] head[i]) by {
            assert(head[i] == all[i]);
        }
        filter_all(head, keep);
        assert(all[all.len() - 1] == all.last());
        assert(head.push(all.last()) =~= all);
    } else {
        assert(all.filter(keep) =~= all);
    }
}

/// Each of the words of a text is a word.
pub proof fn words_are_words(s: Seq<char>)
    ensures
        forall|i: int| 0 <= i < words(s).len() ==> is_word(#[trigger] words(s)[i]),
        ends_in_word(s) ==> words(s).len() > 0,
    decreases s.len(),
{
    if s.len() > 0 {
        let head = s.drop_last();
        words_are_words(head);
        let before = words(head);
        if !is_space(s.last()) && ends_in_word(head) {
            let grown = before.last().push(s.last());
            assert(is_word(before[before.len() - 1]));
            assert forall|i: int| 0 <= i < grown.len() implies !is_space(#[trigger] grown[i]) by {
                if i < before.last().len() {
                    assert(grown[i] == before.last()[i]);
                }
            }
        }
    }
}

/// Decimal digits are no white space, and a number has one at least.
pub proof fn decimal_is_word(n: nat)
    ensures
        is_word(decimal(n)),
    decreases n,
{
    if n >= 10 {
        decimal_is_word(n / 10);
        let head = decimal(n / 10);
        let all = decimal(n);
        assert forall|i: int| 0 <= i < all.len() implies !is_space(#[trigger] all[i]) by {
            if i < head.len() {
                assert(all[i] == head[i]);
            }
        }
    }
}

/// The text of an integer is one word.
pub proof fn signed_decimal_is_word(n: int)
    ensures
        is_word(signed_decimal(n)),
{
    reveal_strlit("-");
    if n < 0 {
        decimal_is_word((-n) as nat);
        let digits = decimal((-n) as nat);
        let all = signed_decimal(n);
        assert forall|i: int| 0 <= i < all.len() implies !is_space(#[trigger] all[i]) by {
            if i > 0 {
                assert(all[i] == digits[i - 1]);
            }
        }
    } else {
        decimal_is_word(n as nat);
    }
}

/// A further part stands behind the others and a separator.
pub proof fn join_grows(parts: Seq<Seq<char>>, sep: Seq<char>, part: Seq<char>)
    ensures
        parts.len() > 0 ==> join(parts.push(part), sep) == join(parts, sep) + sep + part,
        parts.len() == 0 ==> join(parts.push(part), sep) == part,
{
    assert(parts.push(part).drop_last() =~= parts);
}

/// A digit is a number of its own.
pub proof fn one_digit(n: nat)
    requires
        n < 10,
    ensures
        decimal(n) == seq!["0123456789"@[n as int]],
{
    reveal_strlit("0123456789");
}

/// White space around a text is taken off, and nothing else.
pub proof fn trimmed(before: Seq<char>, s: Seq<char>, after: Seq<char>)
    requires
        forall|i: int| 0 <= i < before.len() ==> is_space(#[trigger] before[i]),
        forall|i: int| 0 <= i < after.len() ==> is_space(#[trigger] after[i]),
        s.len() > 0 ==> !is_space(s[0]) && !is_space(s.last()),
    ensures
        trim(before + s + after) == s,
        trim_start(before + s) == s,
{
    start_trimmed(before, s);
    if s.len() > 0 {
        start_trimmed(before, s + after);
        assert(before + (s + after) =~= before + s + after);
        end_trimmed(s, after);
    } else {
        let all = before + s + after;
        let none = Seq::<char>::empty();
        assert forall|i: int| 0 <= i < all.len() implies is_space(#[trigger] all[i]) by {
            if i < before.len() {
                assert(all[i] == before[i]);
            } else {
                assert(all[i] == after[i - before.len()]);
            }
        }
        start_trimmed(all, none);
        assert(all + none =~= all);
        assert(trim(all) =~= s);
    }
}

/// White space at the start is taken off, up to the first other character.
pub proof fn start_trimmed(before: Seq<char>, s: Seq<char>)
    requires
        forall|i: int| 0 <= i < before.len() ==> is_space(#[trigger] before[i]),
        s.len() > 0 ==> !is_space(s[0]),
    ensures
        trim_start(before + s) == s,
    decreases before.len(),
{
    if before.len() == 0 {
        assert(before + s =~= s);
    } else {
        let tail = before.drop_first();
        assert forall|i: int| 0 <= i < tail.len() implies is_space(#[trigger] tail[i]) by {
            assert(tail[i] == before[i + 1]);
        }
        assert(is_space(before[0]));
        start_trimmed(tail, s);
        assert((before + s).drop_first() =~= tail + s);
    }
}

/// White space at the end is taken off, back to the last other character.
proof fn end_trimmed(s: Seq<char>, after: Seq<char>)
    requires
        forall|i: int| 0 <= i < after.len() ==> is_space(#[trigger] after[i]),
        s.len() > 0 ==> !is_space(s.last()),
    ensures
        trim_end(s + after) == s,
    decreases after.len(),
{
    if after.len() == 0 {
        assert(s + after =~= s);
    } else {
        let head = after.drop_last();
        assert forall|i: int| 0 <= i < head.len() implies is_space(#[trigger] head[i]) by {
            assert(head[i] == after[i]);
        }
        assert(is_space(after[after.len() - 1]));
        end_trimmed(s, head);
        assert((s + after).drop_last() =~= s + head);
    }
}

/// The same character is taken off both ends of a text as often as it stands there,
/// and nothing else.
pub proof fn char_trimmed(n: nat, s: Seq<char>, m: nat, c: char)
    requires
        s.len() > 0 ==> s[0] != c && s.last() != c,
    ensures
        trim_char_end(
            trim_char_start(Seq::new(n, |i: int| c) + s + Seq::new(m, |i: int| c), c),
            c,
        ) == s,
    decreases n + m,
{
    let before = Seq::new(n, |i: int| c);
    let after = Seq::new(m, |i: int| c);
    let all = before + s + after;
    if n > 0 {
        char_trimmed((n - 1) as nat, s, m, c);
        assert(all.drop_first() =~= Seq::new((n - 1) as nat, |i: int| c) + s + after);
    } else if s.len() == 0 && m > 0 {
        char_trimmed(0, s, (m - 1) as nat, c);
        assert(all.drop_first() =~= Seq::new(0, |i: int| c) + s + Seq::new(
            (m - 1) as nat,
            |i: int| c,
        ));
    } else if m > 0 {
        char_trimmed(0, s, (m - 1) as nat, c);
        let less = Seq::new(0, |i: int| c) + s + Seq::new((m - 1) as nat, |i: int| c);
        assert(all.drop_last() =~= less);
        assert(all[0] == s[0] && less[0] == s[0]);
        assert(all.last() == c);
    } else {
        assert(all =~= s);
    }
}

/// A prefix is taken off as often as it stands in front, and nothing else.
pub proof fn prefix_stripped(s: Seq<char>, prefix: Seq<char>)
    requires
        prefix.len() > 0,
    ensures
        strip_all(prefix + s, prefix) == strip_all(s, prefix),
        !has_prefix(s, prefix) ==> strip_all(s, prefix) == s,
{
    assert((prefix + s).take(prefix.len() as int) =~= prefix);
    assert((prefix + s).skip(prefix.len() as int) =~= s);
}

/// A text begins with another if, and only if, it is that text with something, or
/// nothing, behind it.
pub proof fn prefix_stands_first(s: Seq<char>, prefix: Seq<char>, rest: Seq<char>)
    ensures
        has_prefix(prefix + rest, prefix),
        has_prefix(s, prefix) ==> s == prefix + s.skip(prefix.len() as int),
{
    assert((prefix + rest).take(prefix.len() as int) =~= prefix);
    if has_prefix(s, prefix) {
        assert(s =~= s.take(prefix.len() as int) + s.skip(prefix.len() as int));
    }
}

/// A text occurs in another if, and only if, that one is made of it and of what
/// stands before and behind it.
pub proof fn substring_stands_between(before: Seq<char>, needle: Seq<char>, after: Seq<char>)
    ensures
        has_substring(before + needle + after, needle),
        forall|s: Seq<char>|
            #![trigger has_substring(s, needle)]
            has_substring(s, needle) ==> exists|a: Seq<char>, b: Seq<char>|
                s == #[trigger] (a + needle + b),
{
    let all = before + needle + after;
    let at = before.len() as int;
    assert(all.subrange(at, at + needle.len()) =~= needle);
    assert(occurs_at(all, needle, at));
    assert forall|s: Seq<char>| has_substring(s, needle) implies exists|a: Seq<char>, b: Seq<char>|
        s == #[trigger] (a + needle + b) by {
        let i = choose|i: int| occurs_at(s, needle, i);
        let a = s.take(i);
        let b = s.skip(i + needle.len());
        assert(s =~= a + s.subrange(i, i + needle.len()) + b);
        assert(s == a + needle + b);
    }
}

/// The first `c` of a text is one, and none stands before it.
pub proof fn first_is_first(s: Seq<char>, c: char)
    ensures
        first_index(s, c) <= s.len(),
        first_index(s, c) < s.len() <==> s.contains(c),
        first_index(s, c) < s.len() ==> s[first_index(s, c) as int] == c,
        forall|i: int| 0 <= i < first_index(s, c) ==> #[trigger] s[i] != c,
    decreases s.len(),
{
    if s.len() > 0 && s[0] != c {
        let tail = s.drop_first();
        first_is_first(tail, c);
        let n = first_index(tail, c) as int;
        assert forall|i: int| 0 <= i < n + 1 implies #[trigger] s[i] != c by {
            if i > 0 {
                assert(tail[i - 1] != c);
            }
        }
        if s.contains(c) {
            let k = choose|k: int| 0 <= k < s.len() && s[k] == c;
            assert(tail[k - 1] == c);
        }
        if n < tail.len() {
            assert(s[n + 1] == c);
        }
    } else if s.len() > 0 {
        assert(s.contains(s[0]));
    }
}

/// What stands behind the last `c` is what follows it without another one.
pub proof fn last_is_last(before: Seq<char>, c: char, after: Seq<char>)
    requires
        !after.contains(c),
    ensures
        after_last(before.push(c) + after, c) == after,
        after_last(after, c) == after,
    decreases after.len(),
{
    let all = before.push(c) + after;
    if after.len() == 0 {
        assert(all.last() == c);
        assert(after_last(all, c) =~= after);
    } else {
        let head = after.drop_last();
        assert(after.contains(after[after.len() - 1]));
        assert forall|i: int| 0 <= i < head.len() implies head[i] != c by {
            assert(after.contains(after[i]));
        }
        last_is_last(before, c, head);
        assert(all.drop_last() =~= before.push(c) + head);
        assert(head.push(after.last()) =~= after);
    }
}

/// Each character is replaced by itself, wherever it stands.
pub proof fn replaced_one_by_one(s: Seq<char>, t: Seq<char>, c: char, with: Seq<char>)
    ensures
        replace_char(s + t, c, with) == replace_char(s, c, with) + replace_char(t, c, with),
        replace_char(seq![c], c, with) == with,
        forall|d: char| d != c ==> #[trigger] replace_char(seq![d], c, with) == seq![d],
        replace_char(Seq::empty(), c, with) == Seq::<char>::empty(),
    decreases t.len(),
{
    let none = Seq::<char>::empty();
    assert forall|d: char| #[trigger] replace_char(seq![d], c, with) == if d == c {
        with
    } else {
        seq![d]
    } by {
        let one = seq![d];
        assert(one.drop_last() =~= none);
        assert(one.last() == d);
        assert(replace_char(none, c, with) == none);
        assert(none + with =~= with);
        assert(none + one =~= one);
    }
    assert(replace_char(seq![c], c, with) == with);
    if t.len() == 0 {
        assert(s + t =~= s);
        assert(replace_char(s, c, with) + none =~= replace_char(s, c, with));
    } else {
        let head = t.drop_last();
        replaced_one_by_one(s, head, c, with);
        assert((s + t).drop_last() =~= s + head);
        let last = if t.last() == c {
            with
        } else {
            seq![t.last()]
        };
        assert(replace_char(s, c, with) + replace_char(head, c, with) + last =~= replace_char(
            s,
            c,
            with,
        ) + (replace_char(head, c, with) + last));
    }
}

/// A line ends with the first line feed; the lines behind it are those of the rest.
pub proof fn line_ends(line: Seq<char>, rest: Seq<char>)
    requires
        !line.contains('\n'),
    ensures
        lines(line.push('\n') + rest) == seq![line] + lines(rest),
        line.len() > 0 ==> lines(line) == seq![line],
        lines(Seq::empty()) == Seq::<Seq<char>>::empty(),
{
    let all = line.push('\n') + rest;
    let n = line.len() as int;
    first_is_first(all, '\n');
    first_is_first(line, '\n');
    let i = first_index(all, '\n') as int;
    assert(all[n] == '\n');
    assert(i <= n) by {
        if n < i {
            assert(all[n] != '\n');
        }
    }
    assert(i == n) by {
        if i < n {
            assert(line[i] == all[i]);
            assert(line.contains(line[i]));
        }
    }
    assert(all.take(n) =~= line);
    assert(all.skip(n + 1) =~= rest);
}

/// One text stands before another if, and only if, it is a beginning of it, or has
/// the smaller character where the two first differ.
pub proof fn precedes_at_difference(a: Seq<char>, b: Seq<char>, k: int)
    requires
        0 <= k <= a.len(),
        k <= b.len(),
        forall|i: int| 0 <= i < k ==> #[trigger] a[i] == b[i],
        k == a.len() || k == b.len() || a[k] != b[k],
    ensures
        precedes(a, b) <==> k < b.len() && (k == a.len() || a[k] < b[k]),
    decreases k,
{
    if k > 0 {
        assert(a[0] == b[0]);
        let x = a.drop_first();
        let y = b.drop_first();
        assert forall|i: int| 0 <= i < k - 1 implies #[trigger] x[i] == y[i] by {
            assert(a[i + 1] == b[i + 1]);
        }
        precedes_at_difference(x, y, k - 1);
    }
}

/// The number that decimal digits stand for.
pub open spec fn value_of(digits: Seq<char>) -> int
    decreases digits.len(),
{
    if digits.len() == 0 {
        0
    } else {
        10 * value_of(digits.drop_last()) + (digits.last() as int - '0' as int)
    }
}

/// The decimal text of a number is made of digits, stands for the number, and does
/// not begin with a zero unless it is one digit long.
pub proof fn decimal_read(n: nat)
    ensures
        value_of(decimal(n)) == n,
        decimal(n).len() > 0,
        decimal(n).len() > 1 ==> decimal(n)[0] != '0',
        forall|i: int| 0 <= i < decimal(n).len() ==> '0' <= #[trigger] decimal(n)[i] <= '9',
    decreases n,
{
    let all = decimal(n);
    if n < 10 {
        assert(value_of(all.drop_last()) == 0);
    } else {
        decimal_read(n / 10);
        let head = decimal(n / 10);
        assert(all.drop_last() =~= head);
        assert forall|i: int| 0 <= i < all.len() implies '0' <= #[trigger] all[i] <= '9' by {
            if i < head.len() {
                assert(all[i] == head[i]);
            }
        }
        if head.len() == 1 {
            assert(head.drop_last().len() == 0);
            assert(value_of(head.drop_last()) == 0);
            assert(value_of(head) == head[0] as int - '0' as int);
        }
    }
}

/// An integer is written with a minus sign if, and only if, it is below zero.
pub proof fn signed_decimal_read(n: int)
    ensures
        n >= 0 ==> value_of(signed_decimal(n)) == n && signed_decimal(n)[0] != '-',
        n < 0 ==> signed_decimal(n)[0] == '-' && value_of(signed_decimal(n).drop_first()) == -n,
{
    reveal_strlit("-");
    if n < 0 {
        let digits = decimal((-n) as nat);
        decimal_read((-n) as nat);
        assert(signed_decimal(n).drop_first() =~= digits);
    } else {
        decimal_read(n as nat);
        assert('0' <= decimal(n as nat)[0]);
    }
}

/// Different integers have different texts.
pub proof fn signed_decimals_differ(m: int, n: int)
    requires
        m != n,
    ensures
        signed_decimal(m) != signed_decimal(n),
{
    signed_decimal_read(m);
    signed_decimal_read(n);
}

/// Among the characters of ASCII, white space is the blank and what lies between the
/// tab and the carriage return.
pub proof fn ascii_space(c: char)
    requires
        c < '\u{80}',
    ensures
        is_space(c) <==> c == ' ' || c == '\t' || c == '\n' || c == '\u{b}' || c == '\u{c}' || c
            == '\r',
{
}

/// White space is what Unicode lists as such, code point by code point.
pub proof fn unicode_space(c: char)
    ensures
        is_space(c) <==> seq![
            0x9int, 0xa, 0xb, 0xc, 0xd, 0x20, 0x85, 0xa0, 0x1680, 0x2000, 0x2001, 0x2002, 0x2003,
            0x2004, 0x2005, 0x2006, 0x2007, 0x2008, 0x2009, 0x200a, 0x2028, 0x2029, 0x202f, 0x205f,
            0x3000,
        ].contains(c as int),
{
    let all = seq![
        0x9int, 0xa, 0xb, 0xc, 0xd, 0x20, 0x85, 0xa0, 0x1680, 0x2000, 0x2001, 0x2002, 0x2003,
        0x2004, 0x2005, 0x2006, 0x2007, 0x2008, 0x2009, 0x200a, 0x2028, 0x2029, 0x202f, 0x205f,
        0x3000,
    ];
    let n = c as int;
    if is_space(c) {
        let i: int = if n <= 0xd {
            n - 9
        } else if n == 0x20 {
            5
        } else if n == 0x85 {
            6
        } else if n == 0xa0 {
            7
        } else if n == 0x1680 {
            8
        } else if n <= 0x200a {
            n - 0x2000 + 9
        } else if n == 0x2028 {
            20
        } else if n == 0x2029 {
            21
        } else if n == 0x202f {
            22
        } else if n == 0x205f {
            23
        } else {
            24
        };
        assert(all[i] == n);
    }
    if all.contains(n) {
        let i = choose|i: int| 0 <= i < all.len() && all[i] == n;
        assert(all.len() == 25);
    }
}

} // verus!
