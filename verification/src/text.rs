//! Text as sequences of characters.
//!
//! The specification functions say what a piece of text is once it has been
//! trimmed, split, searched or compared; the executable functions beside them
//! compute exactly that.
use vstd::prelude::*;

verus! {

/// `String::push` appends one character to the end of the string.
pub assume_specification[ String::push ](s: &mut String, c: char)
    ensures
        final(s)@ == old(s)@.push(c),
;

/// What `str::to_lowercase` makes of a piece of text.
pub uninterp spec fn lowercase_of(s: Seq<char>) -> Seq<char>;

/// Whether text holds only ASCII characters.
pub open spec fn all_ascii(s: Seq<char>) -> bool {
    forall|i: int| 0 <= i < s.len() ==> #[trigger] s[i] <= '\u{7f}'
}

/// Calls `str::to_lowercase`. The result is named. Each ASCII character
/// becomes its own lower case, so ASCII text becomes that text with its
/// upper-case letters replaced, and text that ends in ASCII characters ends in
/// these, replaced likewise, whatever comes before them.
#[verifier::external_body]
pub(crate) fn to_lowercase(s: &str) -> (r: String)
    ensures
        r@ == lowercase_of(s@),
        all_ascii(s@) ==> r@ == ascii_lower(s@),
        forall|tail: Seq<char>|
            all_ascii(tail) && #[trigger] has_suffix(s@, tail) ==> has_suffix(r@, ascii_lower(tail)),
{
    s.to_lowercase()
}

// ---------------------------------------------------------------------------
// Conversions and comparison

/// The texts held by a list of strings.
pub open spec fn texts(v: Seq<String>) -> Seq<Seq<char>> {
    v.map_values(|s: String| s@)
}

/// Copies the characters of a string into a vector.
pub fn to_chars(s: &str) -> (r: Vec<char>)
    ensures
        r@ == s@,
{
    let mut out: Vec<char> = Vec::new();
    for c in it: s.chars()
        invariant
            out@ == it.seq().take(it.index()),
            it.seq() == s@,
    {
        out.push(c);
        assert(it.seq().take(it.index() + 1) =~= it.seq().take(it.index()).push(c));
    }
    assert(out@ =~= s@);
    out
}

/// Builds a string from a range of characters.
pub fn range_string(c: &[char], from: usize, to: usize) -> (r: String)
    requires
        from <= to <= c@.len(),
    ensures
        r@ == c@.subrange(from as int, to as int),
{
    let mut out = String::new();
    let mut i: usize = from;
    while i < to
        invariant
            from <= i <= to <= c@.len(),
            out@ == c@.subrange(from as int, i as int),
        decreases to - i,
    {
        out.push(c[i]);
        i = i + 1;
        assert(c@.subrange(from as int, i as int) =~= c@.subrange(from as int, i - 1).push(
            c@[i - 1],
        ));
    }
    out
}

/// Builds a string from characters.
pub fn from_chars(c: &[char]) -> (r: String)
    ensures
        r@ == c@,
{
    let r = range_string(c, 0, c.len());
    assert(c@.subrange(0, c@.len() as int) =~= c@);
    r
}

/// Whether two pieces of text are the same.
pub fn same(a: &str, b: &str) -> (r: bool)
    ensures
        r == (a@ == b@),
{
    a.to_owned() == b.to_owned()
}

/// Concatenates two pieces of text.
pub fn join2(a: &str, b: &str) -> (r: String)
    ensures
        r@ == a@ + b@,
{
    a.to_owned().concat(b)
}

/// Concatenates three pieces of text.
pub fn join3(a: &str, b: &str, c: &str) -> (r: String)
    ensures
        r@ == a@ + b@ + c@,
{
    a.to_owned().concat(b).concat(c)
}

/// Concatenates four pieces of text.
pub fn join4(a: &str, b: &str, c: &str, d: &str) -> (r: String)
    ensures
        r@ == a@ + b@ + c@ + d@,
{
    a.to_owned().concat(b).concat(c).concat(d)
}

/// Concatenates five pieces of text.
pub fn join5(a: &str, b: &str, c: &str, d: &str, e: &str) -> (r: String)
    ensures
        r@ == a@ + b@ + c@ + d@ + e@,
{
    a.to_owned().concat(b).concat(c).concat(d).concat(e)
}

/// Copies a string.
pub fn copy(s: &String) -> (r: String)
    ensures
        r@ == s@,
{
    s.clone()
}

/// Copies a list of strings.
pub fn copy_all(v: &Vec<String>) -> (r: Vec<String>)
    ensures
        texts(r@) == texts(v@),
{
    let mut out: Vec<String> = Vec::new();
    let mut i: usize = 0;
    while i < v.len()
        invariant
            i <= v@.len(),
            texts(out@) == texts(v@).take(i as int),
        decreases v@.len() - i,
    {
        let ghost before = out@;
        out.push(copy(&v[i]));
        assert(texts(out@) =~= texts(before).push(v@[i as int]@));
        i = i + 1;
        assert(texts(out@) =~= texts(v@).take(i as int));
    }
    assert(texts(v@).take(v@.len() as int) =~= texts(v@));
    out
}

/// Whether a list of strings holds a given text.
pub fn list_contains(v: &Vec<String>, s: &str) -> (r: bool)
    ensures
        r == texts(v@).contains(s@),
{
    let mut i: usize = 0;
    while i < v.len()
        invariant
            i <= v@.len(),
            forall|j: int| 0 <= j < i ==> #[trigger] texts(v@)[j] != s@,
        decreases v@.len() - i,
    {
        if same(&v[i], s) {
            assert(texts(v@)[i as int] == s@);
            return true;
        }
        i = i + 1;
    }
    false
}

/// The order of text: character by character, a proper prefix first.
pub open spec fn text_less(a: Seq<char>, b: Seq<char>) -> bool
    decreases a.len(),
{
    if b.len() == 0 {
        false
    } else if a.len() == 0 {
        true
    } else if a[0] != b[0] {
        a[0] < b[0]
    } else {
        text_less(a.drop_first(), b.drop_first())
    }
}

/// Whether one piece of text comes before another.
pub fn less(a: &str, b: &str) -> (r: bool)
    ensures
        r == text_less(a@, b@),
{
    let x = to_chars(a);
    let y = to_chars(b);
    let mut i: usize = 0;
    assert(x@.skip(0) =~= x@);
    assert(y@.skip(0) =~= y@);
    while i < x.len() && i < y.len() && x[i] == y[i]
        invariant
            i <= x@.len(),
            i <= y@.len(),
            text_less(x@, y@) == text_less(x@.skip(i as int), y@.skip(i as int)),
        decreases x@.len() - i,
    {
        assert(x@.skip(i as int).drop_first() =~= x@.skip(i + 1));
        assert(y@.skip(i as int).drop_first() =~= y@.skip(i + 1));
        i = i + 1;
    }
    if i >= y.len() {
        false
    } else if i >= x.len() {
        true
    } else {
        x[i] < y[i]
    }
}

/// The order is total.
pub proof fn text_less_total(a: Seq<char>, b: Seq<char>)
    ensures
        a == b || text_less(a, b) || text_less(b, a),
    decreases a.len(),
{
    if a.len() > 0 && b.len() > 0 && a[0] == b[0] {
        text_less_total(a.drop_first(), b.drop_first());
        if a.drop_first() == b.drop_first() {
            assert(a =~= seq![a[0]] + a.drop_first());
            assert(b =~= seq![b[0]] + b.drop_first());
        }
    } else if a.len() == 0 && b.len() == 0 {
        assert(a =~= b);
    }
}

/// The order is irreflexive and asymmetric.
pub proof fn text_less_asymmetric(a: Seq<char>, b: Seq<char>)
    ensures
        !(text_less(a, b) && text_less(b, a)),
        !text_less(a, a),
    decreases a.len(),
{
    if a.len() > 0 {
        if b.len() > 0 {
            text_less_asymmetric(a.drop_first(), b.drop_first());
        } else {
            text_less_asymmetric(a.drop_first(), b);
        }
    }
}

/// The order is transitive.
pub proof fn text_less_transitive(a: Seq<char>, b: Seq<char>, c: Seq<char>)
    requires
        text_less(a, b),
        text_less(b, c),
    ensures
        text_less(a, c),
    decreases a.len(),
{
    if a.len() > 0 && b.len() > 0 && c.len() > 0 && a[0] == b[0] && b[0] == c[0] {
        text_less_transitive(a.drop_first(), b.drop_first(), c.drop_first());
    }
}


// ---------------------------------------------------------------------------
// Letter case

/// The lower-case form of an ASCII letter; any other character is unchanged.
pub open spec fn lower_char(c: char) -> char {
    if 'A' <= c <= 'Z' {
        ((c as u8 + 32) as u8) as char
    } else {
        c
    }
}

/// Text with its ASCII upper-case letters replaced by lower-case ones.
pub open spec fn ascii_lower(s: Seq<char>) -> Seq<char> {
    s.map_values(|c: char| lower_char(c))
}

/// Lower-cases the ASCII letters of a piece of text.
pub fn to_ascii_lower(s: &str) -> (r: String)
    ensures
        r@ == ascii_lower(s@),
{
    let c = to_chars(s);
    let mut out = String::new();
    let mut i: usize = 0;
    while i < c.len()
        invariant
            i <= c@.len(),
            out@ == ascii_lower(c@.take(i as int)),
        decreases c@.len() - i,
    {
        let ch = c[i];
        if 'A' <= ch && ch <= 'Z' {
            out.push((ch as u8 + 32) as char);
        } else {
            out.push(ch);
        }
        i = i + 1;
        assert(ascii_lower(c@.take(i as int)) =~= ascii_lower(c@.take(i - 1)).push(
            lower_char(c@[i - 1]),
        ));
    }
    assert(c@.take(c@.len() as int) =~= c@);
    out
}

// ---------------------------------------------------------------------------
// Trimming

/// The characters with the Unicode property `White_Space`.
pub open spec fn is_space(c: char) -> bool {
    ||| '\u{9}' <= c <= '\u{d}'
    ||| c == ' '
    ||| c == '\u{85}'
    ||| c == '\u{a0}'
    ||| c == '\u{1680}'
    ||| '\u{2000}' <= c <= '\u{200a}'
    ||| c == '\u{2028}'
    ||| c == '\u{2029}'
    ||| c == '\u{202f}'
    ||| c == '\u{205f}'
    ||| c == '\u{3000}'
}

/// Whether a character is white space.
pub fn space(c: char) -> (r: bool)
    ensures
        r == is_space(c),
{
    ('\u{9}' <= c && c <= '\u{d}') || c == ' ' || c == '\u{85}' || c == '\u{a0}' || c == '\u{1680}'
        || ('\u{2000}' <= c && c <= '\u{200a}') || c == '\u{2028}' || c == '\u{2029}' || c
        == '\u{202f}' || c == '\u{205f}' || c == '\u{3000}'
}

/// Text without the white space at its start.
pub open spec fn trimmed_start(s: Seq<char>) -> Seq<char>
    decreases s.len(),
{
    if s.len() > 0 && is_space(s[0]) {
        trimmed_start(s.drop_first())
    } else {
        s
    }
}

/// Text without the white space at its end.
pub open spec fn trimmed_end(s: Seq<char>) -> Seq<char>
    decreases s.len(),
{
    if s.len() > 0 && is_space(s.last()) {
        trimmed_end(s.drop_last())
    } else {
        s
    }
}

/// Text without the white space around it.
pub open spec fn trimmed(s: Seq<char>) -> Seq<char> {
    trimmed_end(trimmed_start(s))
}

/// Text without the given character at its start.
pub open spec fn without_leading(s: Seq<char>, ch: char) -> Seq<char>
    decreases s.len(),
{
    if s.len() > 0 && s[0] == ch {
        without_leading(s.drop_first(), ch)
    } else {
        s
    }
}

/// Text without the given character at its end.
pub open spec fn without_trailing(s: Seq<char>, ch: char) -> Seq<char>
    decreases s.len(),
{
    if s.len() > 0 && s.last() == ch {
        without_trailing(s.drop_last(), ch)
    } else {
        s
    }
}

/// The index of the first character from `i` on that is not white space.
fn space_end(c: &[char], from: usize) -> (i: usize)
    requires
        from <= c@.len(),
    ensures
        from <= i <= c@.len(),
        c@.skip(i as int) == trimmed_start(c@.skip(from as int)),
        i < c@.len() ==> !is_space(c@[i as int]),
        forall|k: int| from <= k < i ==> is_space(#[trigger] c@[k]),
{
    let mut i: usize = from;
    while i < c.len() && space(c[i])
        invariant
            from <= i <= c@.len(),
            trimmed_start(c@.skip(i as int)) == trimmed_start(c@.skip(from as int)),
            forall|k: int| from <= k < i ==> is_space(#[trigger] c@[k]),
        decreases c@.len() - i,
    {
        assert(c@.skip(i as int).drop_first() =~= c@.skip(i + 1));
        i = i + 1;
    }
    i
}

/// Removes the white space at the start of a piece of text.
pub fn trim_start(s: &str) -> (r: String)
    ensures
        r@ == trimmed_start(s@),
{
    let c = to_chars(s);
    assert(c@.skip(0) =~= c@);
    let i = space_end(&c, 0);
    range_string(&c, i, c.len())
}

/// Removes the white space around a piece of text.
pub fn trim(s: &str) -> (r: String)
    ensures
        r@ == trimmed(s@),
{
    let c = to_chars(s);
    assert(c@.skip(0) =~= c@);
    let from = space_end(&c, 0);
    let mut to: usize = c.len();
    assert(c@.subrange(from as int, c@.len() as int) =~= c@.skip(from as int));
    while from < to && space(c[to - 1])
        invariant
            from <= to <= c@.len(),
            trimmed_end(c@.subrange(from as int, to as int)) == trimmed(s@),
        decreases to,
    {
        assert(c@.subrange(from as int, to as int).drop_last() =~= c@.subrange(
            from as int,
            to - 1,
        ));
        to = to - 1;
    }
    range_string(&c, from, to)
}

/// Removes a character from the start of a piece of text, as often as it stands there.
pub fn trim_leading(s: &str, ch: char) -> (r: String)
    ensures
        r@ == without_leading(s@, ch),
{
    let c = to_chars(s);
    assert(c@.skip(0) =~= c@);
    let mut i: usize = 0;
    while i < c.len() && c[i] == ch
        invariant
            i <= c@.len(),
            without_leading(c@.skip(i as int), ch) == without_leading(s@, ch),
        decreases c@.len() - i,
    {
        assert(c@.skip(i as int).drop_first() =~= c@.skip(i + 1));
        i = i + 1;
    }
    assert(c@.skip(i as int) =~= c@.subrange(i as int, c@.len() as int));
    range_string(&c, i, c.len())
}

/// Removes a character from the end of a piece of text, as often as it stands there.
pub fn trim_trailing(s: &str, ch: char) -> (r: String)
    ensures
        r@ == without_trailing(s@, ch),
{
    let c = to_chars(s);
    let mut to: usize = c.len();
    assert(c@.take(to as int) =~= c@);
    while to > 0 && c[to - 1] == ch
        invariant
            to <= c@.len(),
            without_trailing(c@.take(to as int), ch) == without_trailing(s@, ch),
        decreases to,
    {
        assert(c@.take(to as int).drop_last() =~= c@.take(to - 1));
        to = to - 1;
    }
    assert(c@.take(to as int) =~= c@.subrange(0, to as int));
    range_string(&c, 0, to)
}

// ---------------------------------------------------------------------------
// Prefixes, suffixes and searching

/// Whether text begins with a prefix.
pub open spec fn has_prefix(s: Seq<char>, p: Seq<char>) -> bool {
    p.len() <= s.len() && s.take(p.len() as int) == p
}

/// Whether text ends with a suffix.
pub open spec fn has_suffix(s: Seq<char>, p: Seq<char>) -> bool {
    p.len() <= s.len() && s.skip(s.len() - p.len()) == p
}

/// What follows a prefix, if the text begins with it.
pub open spec fn after_prefix(s: Seq<char>, p: Seq<char>) -> Option<Seq<char>> {
    if has_prefix(s, p) {
        Some(s.skip(p.len() as int))
    } else {
        None
    }
}

/// Whether the characters of `p` stand in `c` from index `at` on.
fn matches_at(c: &[char], at: usize, p: &[char]) -> (r: bool)
    requires
        at <= c@.len(),
    ensures
        r == has_prefix(c@.skip(at as int), p@),
{
    let n: usize = c.len();
    if n - at < p.len() {
        return false;
    }
    let mut i: usize = 0;
    while i < p.len()
        invariant
            n == c@.len(),
            at <= c@.len(),
            p@.len() <= c@.len() - at,
            i <= p@.len(),
            forall|j: int| 0 <= j < i ==> c@[at + j] == #[trigger] p@[j],
        decreases p@.len() - i,
    {
        if c[at + i] != p[i] {
            assert(c@.skip(at as int).take(p@.len() as int)[i as int] != p@[i as int]);
            return false;
        }
        i = i + 1;
    }
    assert(c@.skip(at as int).take(p@.len() as int) =~= p@);
    true
}

/// Whether text begins with a prefix.
pub fn starts_with(s: &str, p: &str) -> (r: bool)
    ensures
        r == has_prefix(s@, p@),
{
    let c = to_chars(s);
    assert(c@.skip(0) =~= c@);
    matches_at(&c, 0, &to_chars(p))
}

/// Whether text ends with a suffix.
pub fn ends_with(s: &str, p: &str) -> (r: bool)
    ensures
        r == has_suffix(s@, p@),
{
    let c = to_chars(s);
    let q = to_chars(p);
    if c.len() < q.len() {
        return false;
    }
    let at: usize = c.len() - q.len();
    assert(c@.skip(at as int).take(q@.len() as int) =~= c@.skip(at as int));
    matches_at(&c, at, &q)
}

/// What follows a prefix, if the text begins with it.
pub fn strip_prefix(s: &str, p: &str) -> (r: Option<String>)
    ensures
        (match r {
            Some(t) => Some(t@),
            None => None,
        }) == after_prefix(s@, p@),
{
    let c = to_chars(s);
    let q = to_chars(p);
    assert(c@.skip(0) =~= c@);
    if matches_at(&c, 0, &q) {
        assert(c@.skip(q@.len() as int) =~= c@.subrange(q@.len() as int, c@.len() as int));
        Some(range_string(&c, q.len(), c.len()))
    } else {
        None
    }
}

/// The index of the first occurrence of a character; the length if there is none.
pub open spec fn first_index(s: Seq<char>, ch: char) -> nat
    decreases s.len(),
{
    if s.len() == 0 || s[0] == ch {
        0
    } else {
        1 + first_index(s.drop_first(), ch)
    }
}

/// The index of the last occurrence of a character; -1 if there is none.
pub open spec fn last_index(s: Seq<char>, ch: char) -> int
    decreases s.len(),
{
    if s.len() == 0 {
        -1
    } else if s.last() == ch {
        s.len() - 1
    } else {
        last_index(s.drop_last(), ch)
    }
}

/// The index of the first occurrence of a piece of text.
pub open spec fn find_text(s: Seq<char>, p: Seq<char>) -> Option<nat>
    decreases s.len(),
{
    if has_prefix(s, p) {
        Some(0)
    } else if s.len() == 0 {
        None
    } else {
        match find_text(s.drop_first(), p) {
            Some(i) => Some(i + 1),
            None => None,
        }
    }
}

/// The first index is where the character first stands.
pub proof fn first_index_bounds(s: Seq<char>, ch: char)
    ensures
        first_index(s, ch) <= s.len(),
        first_index(s, ch) < s.len() ==> s[first_index(s, ch) as int] == ch,
        forall|i: int| 0 <= i < first_index(s, ch) ==> s[i] != ch,
    decreases s.len(),
{
    if s.len() > 0 && s[0] != ch {
        first_index_bounds(s.drop_first(), ch);
        assert forall|i: int| 0 <= i < first_index(s, ch) implies s[i] != ch by {
            if i > 0 {
                assert(s.drop_first()[i - 1] == s[i]);
            }
        }
    }
}

/// Where the character first stands is the first index.
pub proof fn first_index_is(s: Seq<char>, ch: char, at: int)
    requires
        0 <= at <= s.len(),
        forall|i: int| 0 <= i < at ==> s[i] != ch,
        at < s.len() ==> s[at] == ch,
    ensures
        first_index(s, ch) == at,
{
    first_index_bounds(s, ch);
}

/// The last index is where the character last stands.
pub proof fn last_index_bounds(s: Seq<char>, ch: char)
    ensures
        -1 <= last_index(s, ch) < s.len(),
        last_index(s, ch) >= 0 ==> s[last_index(s, ch)] == ch,
        forall|i: int| last_index(s, ch) < i < s.len() ==> s[i] != ch,
    decreases s.len(),
{
    if s.len() > 0 && s.last() != ch {
        last_index_bounds(s.drop_last(), ch);
        assert forall|i: int| last_index(s, ch) < i < s.len() implies s[i] != ch by {
            if i < s.len() - 1 {
                assert(s.drop_last()[i] == s[i]);
            }
        }
    }
}

/// The index of the first occurrence of a character at or after `from`.
pub fn index_from(c: &[char], from: usize, ch: char) -> (r: usize)
    requires
        from <= c@.len(),
    ensures
        r == from + first_index(c@.skip(from as int), ch),
        from <= r <= c@.len(),
        r < c@.len() ==> c@[r as int] == ch,
        forall|k: int| from <= k < r ==> c@[k] != ch,
{
    let mut i: usize = from;
    while i < c.len() && c[i] != ch
        invariant
            from <= i <= c@.len(),
            forall|k: int| from <= k < i ==> c@[k] != ch,
        decreases c@.len() - i,
    {
        i = i + 1;
    }
    proof {
        first_index_is(c@.skip(from as int), ch, i - from);
    }
    i
}

/// The index of the last occurrence of a character, if there is one.
pub fn last_position(c: &[char], ch: char) -> (r: Option<usize>)
    ensures
        match r {
            Some(i) => i == last_index(c@, ch) && i < c@.len(),
            None => last_index(c@, ch) == -1,
        },
{
    let mut i: usize = c.len();
    assert(c@.take(i as int) =~= c@);
    while i > 0
        invariant
            i <= c@.len(),
            last_index(c@, ch) == last_index(c@.take(i as int), ch),
        decreases i,
    {
        if c[i - 1] == ch {
            return Some(i - 1);
        }
        assert(c@.take(i as int).drop_last() =~= c@.take(i - 1));
        i = i - 1;
    }
    None
}

/// The index of the first occurrence of a piece of text.
pub fn find(s: &[char], p: &[char]) -> (r: Option<usize>)
    ensures
        match r {
            Some(i) => find_text(s@, p@) == Some(i as nat) && i + p@.len() <= s@.len(),
            None => find_text(s@, p@) is None,
        },
{
    let mut i: usize = 0;
    assert(s@.skip(0) =~= s@);
    loop
        invariant
            i <= s@.len(),
            find_text(s@, p@) == (match find_text(s@.skip(i as int), p@) {
                Some(k) => Some((k + i) as nat),
                None => None,
            }),
        decreases s@.len() - i,
    {
        if matches_at(s, i, p) {
            return Some(i);
        }
        if i == s.len() {
            return None;
        }
        assert(s@.skip(i as int).drop_first() =~= s@.skip(i + 1));
        i = i + 1;
    }
}

/// Whether a piece of text occurs in another.
pub fn contains(s: &str, p: &str) -> (r: bool)
    ensures
        r == (find_text(s@, p@) is Some),
{
    find(&to_chars(s), &to_chars(p)).is_some()
}

// ---------------------------------------------------------------------------
// Splitting and joining

/// The pieces of text between the occurrences of a character.
pub open spec fn pieces(s: Seq<char>, ch: char) -> Seq<Seq<char>>
    decreases s.len(),
{
    let i = first_index(s, ch);
    if i >= s.len() {
        seq![s]
    } else {
        seq![s.take(i as int)] + pieces(s.skip(i as int + 1), ch)
    }
}

/// A line without the carriage return that may stand before its line feed.
pub open spec fn without_return(s: Seq<char>) -> Seq<char> {
    if s.len() > 0 && s.last() == '\r' {
        s.drop_last()
    } else {
        s
    }
}

/// The lines of a text. Each ends in a line feed, with or without a carriage
/// return before it; the last one need not.
pub open spec fn lines_of(s: Seq<char>) -> Seq<Seq<char>>
    decreases s.len(),
{
    let i = first_index(s, '\n');
    if s.len() == 0 {
        seq![]
    } else if i >= s.len() {
        seq![s]
    } else {
        seq![without_return(s.take(i as int))] + lines_of(s.skip(i as int + 1))
    }
}

/// The number of characters before the first white space.
pub open spec fn word_len(s: Seq<char>) -> nat
    decreases s.len(),
{
    if s.len() == 0 || is_space(s[0]) {
        0
    } else {
        1 + word_len(s.drop_first())
    }
}

/// The first word is no longer than the text.
pub proof fn word_len_bound(s: Seq<char>)
    ensures
        word_len(s) <= s.len(),
    decreases s.len(),
{
    if s.len() > 0 && !is_space(s[0]) {
        word_len_bound(s.drop_first());
    }
}

/// Trimming the start leaves text that is no longer, and starts with no white space.
pub proof fn trimmed_start_shape(s: Seq<char>)
    ensures
        trimmed_start(s).len() <= s.len(),
        trimmed_start(s).len() > 0 ==> !is_space(trimmed_start(s)[0]),
        trimmed_start(s) == s.skip(s.len() - trimmed_start(s).len()),
    decreases s.len(),
{
    if s.len() > 0 && is_space(s[0]) {
        trimmed_start_shape(s.drop_first());
        assert(s.drop_first().skip(s.len() - 1 - trimmed_start(s).len()) =~= s.skip(
            s.len() - trimmed_start(s).len(),
        ));
    } else {
        assert(s.skip(0) =~= s);
    }
}

/// The words of a text: the runs of characters that are not white space.
pub open spec fn words_of(s: Seq<char>) -> Seq<Seq<char>>
    decreases s.len(),
{
    proof {
        trimmed_start_shape(s);
        word_len_bound(trimmed_start(s));
    }
    let t = trimmed_start(s);
    let n = word_len(t);
    if t.len() == 0 {
        seq![]
    } else {
        seq![t.take(n as int)] + words_of(t.skip(n as int))
    }
}

/// A list of texts as one text, with a separator between neighbours.
pub open spec fn joined(parts: Seq<Seq<char>>, sep: Seq<char>) -> Seq<char>
    decreases parts.len(),
{
    if parts.len() == 0 {
        seq![]
    } else if parts.len() == 1 {
        parts[0]
    } else {
        joined(parts.drop_last(), sep) + sep + parts.last()
    }
}

/// Text in which each occurrence of a character is replaced by other text.
pub open spec fn replaced(s: Seq<char>, ch: char, with: Seq<char>) -> Seq<char>
    decreases s.len(),
{
    if s.len() == 0 {
        seq![]
    } else {
        replaced(s.drop_last(), ch, with) + (if s.last() == ch {
            with
        } else {
            seq![s.last()]
        })
    }
}

/// Splits text at each occurrence of a character.
pub fn split(s: &str, ch: char) -> (r: Vec<String>)
    ensures
        texts(r@) == pieces(s@, ch),
{
    let c = to_chars(s);
    let mut out: Vec<String> = Vec::new();
    let mut pos: usize = 0;
    assert(c@.skip(0) =~= c@);
    assert(texts(out@) + pieces(c@.skip(0), ch) =~= pieces(s@, ch));
    loop
        invariant
            pos <= c@.len(),
            texts(out@) + pieces(c@.skip(pos as int), ch) == pieces(s@, ch),
        decreases c@.len() + 1 - pos,
    {
        let ghost rest = c@.skip(pos as int);
        let ghost before = out@;
        let j = index_from(&c, pos, ch);
        let piece = range_string(&c, pos, j);
        assert(piece@ =~= rest.take(j - pos));
        out.push(piece);
        assert(texts(out@) =~= texts(before).push(piece@));
        if j >= c.len() {
            assert(rest.take(rest.len() as int) =~= rest);
            assert(texts(out@) =~= texts(before) + seq![rest]);
            return out;
        }
        assert(rest.skip(j - pos + 1) =~= c@.skip(j + 1));
        assert(texts(out@) + pieces(c@.skip(j + 1), ch) =~= texts(before) + (seq![piece@]
            + pieces(c@.skip(j + 1), ch)));
        pos = j + 1;
    }
}

/// Splits a text into its lines.
pub fn lines(s: &str) -> (r: Vec<String>)
    ensures
        texts(r@) == lines_of(s@),
{
    let c = to_chars(s);
    let mut out: Vec<String> = Vec::new();
    let mut pos: usize = 0;
    assert(c@.skip(0) =~= c@);
    assert(texts(out@) + lines_of(c@.skip(0)) =~= lines_of(s@));
    while pos < c.len()
        invariant
            pos <= c@.len(),
            texts(out@) + lines_of(c@.skip(pos as int)) == lines_of(s@),
        decreases c@.len() - pos,
    {
        let ghost rest = c@.skip(pos as int);
        let ghost before = out@;
        let j = index_from(&c, pos, '\n');
        if j >= c.len() {
            let piece = range_string(&c, pos, j);
            assert(piece@ =~= rest);
            out.push(piece);
            assert(texts(out@) =~= texts(before).push(piece@));
            assert(texts(out@) =~= texts(before) + seq![rest]);
            return out;
        }
        let end: usize = if pos < j && c[j - 1] == '\r' {
            j - 1
        } else {
            j
        };
        let piece = range_string(&c, pos, end);
        assert(piece@ =~= without_return(rest.take(j - pos)));
        out.push(piece);
        assert(texts(out@) =~= texts(before).push(piece@));
        assert(rest.skip(j - pos + 1) =~= c@.skip(j + 1));
        assert(texts(out@) + lines_of(c@.skip(j + 1)) =~= texts(before) + (seq![piece@]
            + lines_of(c@.skip(j + 1))));
        pos = j + 1;
    }
    assert(c@.skip(pos as int) =~= Seq::<char>::empty());
    assert(texts(out@) + Seq::<Seq<char>>::empty() =~= texts(out@));
    out
}

/// The index of the first white space at or after `from`.
fn word_end(c: &[char], from: usize) -> (i: usize)
    requires
        from <= c@.len(),
    ensures
        from <= i <= c@.len(),
        i - from == word_len(c@.skip(from as int)),
{
    let mut i: usize = from;
    while i < c.len() && !space(c[i])
        invariant
            from <= i <= c@.len(),
            word_len(c@.skip(from as int)) == i - from + word_len(c@.skip(i as int)),
        decreases c@.len() - i,
    {
        assert(c@.skip(i as int).drop_first() =~= c@.skip(i + 1));
        i = i + 1;
    }
    i
}

/// Splits a text into its words.
pub fn words(s: &str) -> (r: Vec<String>)
    ensures
        texts(r@) == words_of(s@),
{
    let c = to_chars(s);
    let mut out: Vec<String> = Vec::new();
    let mut pos: usize = 0;
    assert(c@.skip(0) =~= c@);
    assert(texts(out@) + words_of(c@.skip(0)) =~= words_of(s@));
    loop
        invariant
            pos <= c@.len(),
            texts(out@) + words_of(c@.skip(pos as int)) == words_of(s@),
        decreases c@.len() - pos,
    {
        let ghost before = out@;
        let i = space_end(&c, pos);
        if i == c.len() {
            assert(texts(out@) + Seq::<Seq<char>>::empty() =~= texts(out@));
            return out;
        }
        let ghost t = c@.skip(i as int);
        let j = word_end(&c, i);
        let piece = range_string(&c, i, j);
        assert(piece@ =~= t.take(j - i));
        out.push(piece);
        assert(texts(out@) =~= texts(before).push(piece@));
        assert(t.skip(j - i) =~= c@.skip(j as int));
        assert(texts(out@) + words_of(c@.skip(j as int)) =~= texts(before) + (seq![piece@]
            + words_of(c@.skip(j as int))));
        assert(j > i);
        pos = j;
    }
}

/// Joins a list of strings with a separator.
pub fn join(v: &Vec<String>, sep: &str) -> (r: String)
    ensures
        r@ == joined(texts(v@), sep@),
{
    let mut out = String::new();
    let mut i: usize = 0;
    while i < v.len()
        invariant
            i <= v@.len(),
            out@ == joined(texts(v@).take(i as int), sep@),
        decreases v@.len() - i,
    {
        let ghost now = texts(v@).take(i + 1);
        assert(now.drop_last() =~= texts(v@).take(i as int));
        assert(now.last() == v@[i as int]@);
        if i > 0 {
            out.append(sep);
        }
        out.append(&v[i]);
        assert(out@ =~= joined(now, sep@));
        i = i + 1;
    }
    assert(texts(v@).take(v@.len() as int) =~= texts(v@));
    out
}

/// Replaces each occurrence of a character by other text.
pub fn replace(s: &str, ch: char, with: &str) -> (r: String)
    ensures
        r@ == replaced(s@, ch, with@),
{
    let c = to_chars(s);
    let mut out = String::new();
    let mut i: usize = 0;
    while i < c.len()
        invariant
            i <= c@.len(),
            out@ == replaced(c@.take(i as int), ch, with@),
        decreases c@.len() - i,
    {
        assert(c@.take(i + 1).drop_last() =~= c@.take(i as int));
        let ghost before = out@;
        if c[i] == ch {
            out.append(with);
        } else {
            out.push(c[i]);
            assert(out@ =~= before + seq![c@[i as int]]);
        }
        i = i + 1;
    }
    assert(c@.take(c@.len() as int) =~= c@);
    out
}

/// The text before and after the last occurrence of a character.
pub open spec fn cut_last(s: Seq<char>, ch: char) -> Option<(Seq<char>, Seq<char>)> {
    let i = last_index(s, ch);
    if i >= 0 {
        Some((s.take(i), s.skip(i + 1)))
    } else {
        None
    }
}

/// Splits text at the last occurrence of a character.
pub fn rsplit_once(s: &str, ch: char) -> (r: Option<(String, String)>)
    ensures
        match r {
            Some(p) => cut_last(s@, ch) == Some((p.0@, p.1@)),
            None => cut_last(s@, ch) is None,
        },
{
    let c = to_chars(s);
    let n: usize = c.len();
    match last_position(&c, ch) {
        Some(i) => {
            assert(c@.take(i as int) =~= c@.subrange(0, i as int));
            assert(c@.skip(i + 1) =~= c@.subrange(i + 1, c@.len() as int));
            Some((range_string(&c, 0, i), range_string(&c, i + 1, n)))
        },
        None => None,
    }
}

/// The text after the last occurrence of a character, or the whole of it.
pub open spec fn last_piece(s: Seq<char>, ch: char) -> Seq<char> {
    s.skip(last_index(s, ch) + 1)
}

/// The text after the last occurrence of a character, or the whole of it.
pub fn last_part(s: &str, ch: char) -> (r: String)
    ensures
        r@ == last_piece(s@, ch),
{
    let c = to_chars(s);
    let n: usize = c.len();
    match last_position(&c, ch) {
        Some(i) => {
            assert(c@.skip(i + 1) =~= c@.subrange(i + 1, c@.len() as int));
            range_string(&c, i + 1, n)
        },
        None => {
            assert(c@.skip(0) =~= c@);
            from_chars(&c)
        },
    }
}

/// The text before the first occurrence of a character, or the whole of it.
pub open spec fn first_piece(s: Seq<char>, ch: char) -> Seq<char> {
    s.take(first_index(s, ch) as int)
}

/// The text before the first occurrence of a character, or the whole of it.
pub fn first_part(s: &str, ch: char) -> (r: String)
    ensures
        r@ == first_piece(s@, ch),
{
    let c = to_chars(s);
    assert(c@.skip(0) =~= c@);
    let i = index_from(&c, 0, ch);
    assert(c@.take(i as int) =~= c@.subrange(0, i as int));
    range_string(&c, 0, i)
}

// ---------------------------------------------------------------------------
// Numbers

/// The character of a decimal digit.
pub open spec fn digit_char(d: nat) -> char {
    ((48 + d) as u8) as char
}

/// A number written in decimal.
pub open spec fn decimal_of(n: nat) -> Seq<char>
    decreases n,
{
    if n < 10 {
        seq![digit_char(n)]
    } else {
        decimal_of(n / 10).push(digit_char(n % 10))
    }
}

/// Writes a number in decimal.
pub fn decimal(n: u64) -> (r: String)
    ensures
        r@ == decimal_of(n as nat),
{
    decimal_wide(n as u128)
}

/// Writes a number of up to 128 bits in decimal.
pub fn decimal_wide(n: u128) -> (r: String)
    ensures
        r@ == decimal_of(n as nat),
    decreases n,
{
    let mut out = if n < 10 {
        String::new()
    } else {
        decimal_wide(n / 10)
    };
    let ghost before = out@;
    out.push((48 + (n % 10) as u8) as char);
    assert(out@ =~= decimal_of(n as nat));
    out
}

/// A number written in decimal, with a minus sign before it if it is negative.
pub open spec fn signed_decimal_of(n: int) -> Seq<char> {
    if n < 0 {
        "-"@ + decimal_of((-n) as nat)
    } else {
        decimal_of(n as nat)
    }
}

/// Writes a number in decimal, with a minus sign before it if it is negative.
pub fn signed_decimal(n: i32) -> (r: String)
    ensures
        r@ == signed_decimal_of(n as int),
{
    if n < 0 {
        join2("-", &decimal((-(n as i64)) as u64))
    } else {
        decimal(n as u64)
    }
}

/// Whether a character is a decimal digit.
pub open spec fn is_digit(c: char) -> bool {
    '0' <= c <= '9'
}

/// The number that a run of decimal digits writes.
pub open spec fn digits_value(s: Seq<char>) -> nat
    decreases s.len(),
{
    if s.len() == 0 {
        0
    } else {
        10 * digits_value(s.drop_last()) + (s.last() as nat - 48) as nat
    }
}

/// The unsigned 64-bit number that a run of decimal digits writes, if it is
/// one, and the number fits.
pub open spec fn digits_number(d: Seq<char>) -> Option<u64> {
    if d.len() > 0 && (forall|i: int| 0 <= i < d.len() ==> is_digit(#[trigger] d[i]))
        && digits_value(d) <= u64::MAX {
        Some(digits_value(d) as u64)
    } else {
        None
    }
}

/// The unsigned 64-bit number that a text writes: decimal digits, with or
/// without a plus sign before them, whose value fits.
pub open spec fn number_of(s: Seq<char>) -> Option<u64> {
    if s.len() > 0 && s[0] == '+' {
        digits_number(s.drop_first())
    } else {
        digits_number(s)
    }
}

/// More digits never make a number smaller.
pub proof fn digits_value_grows(s: Seq<char>, k: int)
    requires
        0 <= k <= s.len(),
        forall|i: int| 0 <= i < s.len() ==> is_digit(#[trigger] s[i]),
    ensures
        digits_value(s.take(k)) <= digits_value(s),
    decreases s.len(),
{
    if k == s.len() {
        assert(s.take(k) =~= s);
    } else {
        digits_value_grows(s.drop_last(), k);
        assert(s.drop_last().take(k) =~= s.take(k));
    }
}

/// A number written in decimal is a run of digits that writes it.
pub proof fn decimal_digits(n: nat)
    ensures
        decimal_of(n).len() > 0,
        forall|i: int| 0 <= i < decimal_of(n).len() ==> is_digit(#[trigger] decimal_of(n)[i]),
        digits_value(decimal_of(n)) == n,
    decreases n,
{
    if n < 10 {
        let s = decimal_of(n);
        assert(s.drop_last() =~= seq![]);
        assert(s.last() == digit_char(n));
        assert(digit_char(n) as nat == 48 + n);
        assert(digits_value(s.drop_last()) == 0);
    } else {
        decimal_digits(n / 10);
        let s = decimal_of(n);
        assert(s.drop_last() =~= decimal_of(n / 10));
        assert(s.last() == digit_char(n % 10));
        assert(digit_char(n % 10) as nat == 48 + n % 10);
        assert(digits_value(s) == 10 * digits_value(s.drop_last()) + n % 10);
        assert forall|i: int| 0 <= i < s.len() implies is_digit(#[trigger] s[i]) by {
            if i < s.len() - 1 {
                assert(s.drop_last()[i] == s[i]);
            }
        }
    }
}

/// A number written in decimal is read back as that number.
pub proof fn decimal_reads_back(n: u64)
    ensures
        number_of(decimal_of(n as nat)) == Some(n),
{
    decimal_digits(n as nat);
    assert(is_digit(decimal_of(n as nat)[0]));
}

/// Reads an unsigned 64-bit number.
pub fn parse_number(s: &str) -> (r: Option<u64>)
    ensures
        r == number_of(s@),
{
    let c = to_chars(s);
    let from: usize = if c.len() > 0 && c[0] == '+' {
        1
    } else {
        0
    };
    let ghost d = c@.skip(from as int);
    proof {
        assert(from == 1 ==> d =~= c@.drop_first());
        assert(from == 0 ==> d =~= c@);
    }
    if from == c.len() {
        return None;
    }
    let mut value: u64 = 0;
    let mut i: usize = from;
    while i < c.len()
        invariant
            from <= i <= c@.len(),
            d == c@.skip(from as int),
            d.len() > 0,
            number_of(s@) == digits_number(d),
            forall|k: int| 0 <= k < i - from ==> is_digit(#[trigger] d[k]),
            value == digits_value(d.take(i - from)),
        decreases c@.len() - i,
    {
        let ch = c[i];
        assert(d[i - from] == ch);
        if ch < '0' || ch > '9' {
            assert(!is_digit(d[i - from]));
            return None;
        }
        let digit: u64 = (ch as u8 - 48) as u64;
        assert(d.take(i - from + 1).drop_last() =~= d.take(i - from));
        assert(digits_value(d.take(i - from + 1)) == 10 * value + digit);
        if value > (u64::MAX - digit) / 10 {
            proof {
                if forall|k: int| 0 <= k < d.len() ==> is_digit(#[trigger] d[k]) {
                    digits_value_grows(d, i - from + 1);
                }
            }
            return None;
        }
        value = 10 * value + digit;
        i = i + 1;
    }
    assert(d.take(d.len() as int) =~= d);
    Some(value)
}

// ---------------------------------------------------------------------------
// Sorting

/// Whether a list is in strictly ascending order.
pub open spec fn ascending(v: Seq<Seq<char>>) -> bool {
    forall|i: int, j: int| 0 <= i < j < v.len() ==> text_less(#[trigger] v[i], #[trigger] v[j])
}

/// Inserts a text into an ascending list, unless it is there.
fn insert_ascending(v: &mut Vec<String>, s: String)
    requires
        ascending(texts(old(v)@)),
    ensures
        ascending(texts(final(v)@)),
        forall|t: Seq<char>|
            texts(final(v)@).contains(t) <==> (texts(old(v)@).contains(t) || t == s@),
{
    let ghost before = texts(v@);
    let mut i: usize = 0;
    while i < v.len() && less(&v[i], &s)
        invariant
            i <= v@.len(),
            before == texts(v@),
            forall|j: int| 0 <= j < i ==> text_less(#[trigger] before[j], s@),
        decreases v@.len() - i,
    {
        i = i + 1;
    }
    if i < v.len() && same(&v[i], &s) {
        assert(before[i as int] == s@);
        return;
    }
    let ghost t = s@;
    let ghost at = i as int;
    let ghost after = before.insert(at, t);
    v.insert(i, s);
    proof {
        assert(texts(v@) =~= after);
        assert forall|j: int| at <= j < before.len() implies text_less(t, #[trigger] before[j]) by {
            text_less_total(t, before[at]);
            if j > at {
                text_less_transitive(t, before[at], before[j]);
            }
        }
        assert forall|a: int, b: int| 0 <= a < b < after.len() implies text_less(
            #[trigger] after[a],
            #[trigger] after[b],
        ) by {
            let x = if a < at {
                a
            } else {
                a - 1
            };
            let y = if b < at {
                b
            } else {
                b - 1
            };
            if a != at {
                assert(after[a] == before[x]);
            }
            if b != at {
                assert(after[b] == before[y]);
            }
        }
        assert forall|u: Seq<char>| after.contains(u) <==> (before.contains(u) || u == t) by {
            if after.contains(u) {
                let k = choose|k: int| 0 <= k < after.len() && after[k] == u;
                if k < at {
                    assert(before[k] == u);
                } else if k > at {
                    assert(before[k - 1] == u);
                }
            }
            if before.contains(u) {
                let k = choose|k: int| 0 <= k < before.len() && before[k] == u;
                if k < at {
                    assert(after[k] == u);
                } else {
                    assert(after[k + 1] == u);
                }
            }
            if u == t {
                assert(after[at] == u);
            }
        }
    }
}

/// Sorts a list of strings and removes what occurs more than once.
pub fn sort_unique(v: &Vec<String>) -> (r: Vec<String>)
    ensures
        ascending(texts(r@)),
        forall|t: Seq<char>| texts(r@).contains(t) <==> texts(v@).contains(t),
{
    let mut out: Vec<String> = Vec::new();
    let mut i: usize = 0;
    while i < v.len()
        invariant
            i <= v@.len(),
            ascending(texts(out@)),
            forall|t: Seq<char>|
                texts(out@).contains(t) <==> texts(v@).take(i as int).contains(t),
        decreases v@.len() - i,
    {
        let ghost before = texts(v@).take(i as int);
        let ghost now = texts(v@).take(i + 1);
        insert_ascending(&mut out, copy(&v[i]));
        proof {
            assert(now =~= before.push(v@[i as int]@));
            assert forall|t: Seq<char>| now.contains(t) <==> (before.contains(t) || t
                == v@[i as int]@) by {
                if before.contains(t) {
                    let k = choose|k: int| 0 <= k < before.len() && before[k] == t;
                    assert(now[k] == t);
                }
                if t == v@[i as int]@ {
                    assert(now[i as int] == t);
                }
                if now.contains(t) {
                    let k = choose|k: int| 0 <= k < now.len() && now[k] == t;
                    if k < i {
                        assert(before[k] == t);
                    }
                }
            }
        }
        i = i + 1;
    }
    assert(texts(v@).take(v@.len() as int) =~= texts(v@));
    out
}

// ---------------------------------------------------------------------------
// Characters at the end

/// Text that ends in another character keeps its end.
pub proof fn end_kept(s: Seq<char>, ch: char)
    requires
        s.len() == 0 || s.last() != ch,
    ensures
        without_trailing(s, ch) == s,
        without_trailing(s.push(ch), ch) == s,
{
    assert(s.push(ch).drop_last() =~= s);
}

// ---------------------------------------------------------------------------
// Taking text apart and putting it together

/// The first character in which two texts differ decides which comes first.
pub proof fn first_difference_decides(a: Seq<char>, b: Seq<char>, i: int)
    requires
        0 <= i <= a.len(),
        i < b.len(),
        forall|k: int| 0 <= k < i ==> a[k] == b[k],
    ensures
        i < a.len() && a[i] < b[i] ==> text_less(a, b),
        i < a.len() && b[i] < a[i] ==> !text_less(a, b),
        i == a.len() ==> text_less(a, b),
    decreases i,
{
    if i > 0 {
        assert(a[0] == b[0]);
        assert forall|k: int| 0 <= k < i - 1 implies a.drop_first()[k] == b.drop_first()[k] by {
            assert(a[k + 1] == b[k + 1]);
        }
        first_difference_decides(a.drop_first(), b.drop_first(), i - 1);
    }
}

/// White space around a text is all that trimming takes away.
pub proof fn space_around_is_trimmed(a: Seq<char>, s: Seq<char>, b: Seq<char>)
    requires
        forall|i: int| 0 <= i < a.len() ==> is_space(#[trigger] a[i]),
        forall|i: int| 0 <= i < b.len() ==> is_space(#[trigger] b[i]),
        s.len() > 0,
        !is_space(s[0]),
        !is_space(s.last()),
    ensures
        trimmed(a + s + b) == s,
    decreases a.len() + b.len(),
{
    let all = a + s + b;
    if a.len() > 0 {
        assert(is_space(a[0]));
        assert(all[0] == a[0]);
        assert(all.drop_first() =~= a.drop_first() + s + b);
        assert forall|i: int| 0 <= i < a.drop_first().len() implies is_space(
            #[trigger] a.drop_first()[i],
        ) by {
            assert(is_space(a[i + 1]));
        }
        space_around_is_trimmed(a.drop_first(), s, b);
    } else {
        assert(all =~= s + b);
        assert(all[0] == s[0]);
        assert(trimmed_start(all) == all);
        end_is_trimmed(s, b);
    }
}

proof fn end_is_trimmed(s: Seq<char>, b: Seq<char>)
    requires
        forall|i: int| 0 <= i < b.len() ==> is_space(#[trigger] b[i]),
        s.len() > 0,
        !is_space(s.last()),
    ensures
        trimmed_end(s + b) == s,
    decreases b.len(),
{
    let all = s + b;
    if b.len() > 0 {
        assert(is_space(b[b.len() - 1]));
        assert(all.last() == b.last());
        assert(all.drop_last() =~= s + b.drop_last());
        end_is_trimmed(s, b.drop_last());
    } else {
        assert(all =~= s);
    }
}

/// A text has as its beginning exactly what it was made with, and what follows
/// is the rest.
pub proof fn prefix_leaves_the_rest(s: Seq<char>, p: Seq<char>, rest: Seq<char>)
    ensures
        after_prefix(s, p) == Some(rest) <==> s == p + rest,
{
    if s == p + rest {
        assert(s.take(p.len() as int) =~= p);
        assert(s.skip(p.len() as int) =~= rest);
    }
    if after_prefix(s, p) == Some(rest) {
        assert(s =~= s.take(p.len() as int) + s.skip(p.len() as int));
    }
}

/// A text that differs from another in one of its characters does not begin
/// with it.
pub proof fn other_beginning(s: Seq<char>, p: Seq<char>, i: int)
    requires
        0 <= i < p.len(),
        i < s.len() ==> s[i] != p[i],
    ensures
        after_prefix(s, p) is None,
{
    if has_prefix(s, p) {
        assert(s.take(p.len() as int)[i] == p[i]);
    }
}

/// A text ends with what was put at its end.
pub proof fn suffix_is_the_end(s: Seq<char>, p: Seq<char>)
    ensures
        has_suffix(s + p, p),
{
    assert((s + p).skip(s.len() as int) =~= p);
}

/// A text that differs from another in a character, counted from the end, does
/// not end with it.
pub proof fn other_ending(s: Seq<char>, p: Seq<char>, i: int)
    requires
        0 < i <= p.len(),
        i <= s.len() ==> s[s.len() - i] != p[p.len() - i],
    ensures
        !has_suffix(s, p),
{
    if has_suffix(s, p) {
        assert(s.skip(s.len() - p.len())[p.len() - i] == p[p.len() - i]);
    }
}

/// A separator cuts off the piece before it, and text without one is a single
/// piece.
pub proof fn pieces_between_separators(a: Seq<char>, ch: char, b: Seq<char>)
    requires
        forall|i: int| 0 <= i < a.len() ==> a[i] != ch,
    ensures
        pieces(a, ch) == seq![a],
        pieces(a.push(ch) + b, ch) == seq![a] + pieces(b, ch),
        first_piece(a, ch) == a,
        first_piece(a.push(ch) + b, ch) == a,
{
    let s = a.push(ch) + b;
    first_index_is(a, ch, a.len() as int);
    first_index_is(s, ch, a.len() as int);
    assert(s.take(a.len() as int) =~= a);
    assert(s.skip(a.len() as int + 1) =~= b);
    assert(a.take(a.len() as int) =~= a);
}

/// The last separator parts what stands before it from what stands after it.
pub proof fn last_separator_parts(a: Seq<char>, ch: char, b: Seq<char>)
    requires
        forall|i: int| 0 <= i < b.len() ==> b[i] != ch,
    ensures
        cut_last(a.push(ch) + b, ch) == Some((a, b)),
        last_piece(a.push(ch) + b, ch) == b,
        cut_last(b, ch) is None,
        last_piece(b, ch) == b,
{
    let s = a.push(ch) + b;
    last_index_bounds(s, ch);
    last_index_bounds(b, ch);
    assert(s[a.len() as int] == ch);
    assert forall|i: int| a.len() < i < s.len() implies s[i] != ch by {
        assert(s[i] == b[i - a.len() - 1]);
    }
    assert(last_index(s, ch) == a.len());
    assert(s.take(a.len() as int) =~= a);
    assert(s.skip(a.len() as int + 1) =~= b);
    assert(last_index(b, ch) == -1);
    assert(b.skip(0) =~= b);
}

/// A line ends at its line break, of either kind; the last one needs none.
pub proof fn lines_end_at_breaks(a: Seq<char>, b: Seq<char>)
    requires
        forall|i: int| 0 <= i < a.len() ==> a[i] != '\n',
        a.len() > 0 ==> a.last() != '\r',
    ensures
        a.len() > 0 ==> lines_of(a) == seq![a],
        lines_of(a.push('\n') + b) == seq![a] + lines_of(b),
        lines_of(a.push('\r').push('\n') + b) == seq![a] + lines_of(b),
{
    let s = a.push('\n') + b;
    let c = a.push('\r');
    let t = c.push('\n') + b;
    first_index_is(a, '\n', a.len() as int);
    first_index_is(s, '\n', a.len() as int);
    first_index_is(t, '\n', c.len() as int);
    assert(s.take(a.len() as int) =~= a);
    assert(s.skip(a.len() as int + 1) =~= b);
    assert(t.take(c.len() as int) =~= c);
    assert(t.skip(c.len() as int + 1) =~= b);
    assert(c.drop_last() =~= a);
}

proof fn word_len_is(a: Seq<char>, b: Seq<char>)
    requires
        forall|i: int| 0 <= i < a.len() ==> !is_space(#[trigger] a[i]),
        b.len() > 0 ==> is_space(b[0]),
    ensures
        word_len(a + b) == a.len(),
    decreases a.len(),
{
    let s = a + b;
    if a.len() > 0 {
        assert(!is_space(a[0]));
        assert(s[0] == a[0]);
        assert(s.drop_first() =~= a.drop_first() + b);
        assert forall|i: int| 0 <= i < a.drop_first().len() implies !is_space(
            #[trigger] a.drop_first()[i],
        ) by {
            assert(!is_space(a[i + 1]));
        }
        word_len_is(a.drop_first(), b);
    } else {
        assert(s =~= b);
    }
}

/// White space parts words, however much of it there is.
pub proof fn space_parts_words(a: Seq<char>, sp: char, b: Seq<char>)
    requires
        a.len() > 0,
        forall|i: int| 0 <= i < a.len() ==> !is_space(#[trigger] a[i]),
        is_space(sp),
    ensures
        words_of(a) == seq![a],
        words_of(a.push(sp) + b) == seq![a] + words_of(b),
        words_of(seq![sp] + b) == words_of(b),
{
    let rest = seq![sp] + b;
    let s = a + rest;
    assert(a.push(sp) + b =~= s);
    assert(!is_space(a[0]));
    assert(s[0] == a[0]);
    word_len_is(a, rest);
    word_len_is(a, seq![]);
    assert(a + seq![] =~= a);
    assert(s.take(a.len() as int) =~= a);
    assert(s.skip(a.len() as int) =~= rest);
    assert(a.take(a.len() as int) =~= a);
    assert(a.skip(a.len() as int) =~= seq![]);
    assert(words_of(seq![]) =~= seq![]);
    assert(rest.drop_first() =~= b);
    assert(trimmed_start(rest) == trimmed_start(b));
    assert(words_of(rest) =~= words_of(b));
    assert(words_of(a) =~= seq![a]);
}

/// Replacing a character leaves every other character as it is.
pub proof fn only_that_character_is_replaced(
    a: Seq<char>,
    b: Seq<char>,
    ch: char,
    with: Seq<char>,
)
    ensures
        replaced(a + b, ch, with) == replaced(a, ch, with) + replaced(b, ch, with),
        b.len() == 1 ==> replaced(b, ch, with) == (if b[0] == ch {
            with
        } else {
            b
        }),
        (forall|i: int| 0 <= i < b.len() ==> b[i] != ch) ==> replaced(b, ch, with) == b,
    decreases b.len(),
{
    if b.len() == 0 {
        assert(a + b =~= a);
        assert(replaced(a, ch, with) + replaced(b, ch, with) =~= replaced(a, ch, with));
        assert(replaced(b, ch, with) =~= b);
    } else {
        let init = b.drop_last();
        only_that_character_is_replaced(a, init, ch, with);
        assert((a + b).drop_last() =~= a + init);
        assert((a + b).last() == b.last());
        assert(replaced(a + b, ch, with) =~= replaced(a, ch, with) + replaced(b, ch, with));
        assert(init.push(b.last()) =~= b);
        if b.len() == 1 {
            assert(init =~= seq![]);
            assert(replaced(init, ch, with) =~= seq![]);
            assert(b =~= seq![b[0]]);
            assert(replaced(b, ch, with) =~= (if b[0] == ch {
                with
            } else {
                b
            }));
        }
        if forall|i: int| 0 <= i < b.len() ==> b[i] != ch {
            assert forall|i: int| 0 <= i < init.len() implies init[i] != ch by {
                assert(init[i] == b[i]);
            }
            assert(b[b.len() - 1] != ch);
            assert(replaced(b, ch, with) =~= b);
        }
    }
}

/// A text is found where it first stands.
pub proof fn text_is_found_where_it_first_stands(s: Seq<char>, p: Seq<char>)
    ensures
        match find_text(s, p) {
            Some(at) => {
                &&& at + p.len() <= s.len()
                &&& s.subrange(at as int, (at + p.len()) as int) == p
                &&& forall|k: int| 0 <= k < at ==> !has_prefix(#[trigger] s.skip(k), p)
            },
            None => forall|k: int| 0 <= k <= s.len() ==> !has_prefix(#[trigger] s.skip(k), p),
        },
    decreases s.len(),
{
    assert(s.skip(0) =~= s);
    if has_prefix(s, p) {
        assert(s.subrange(0, p.len() as int) =~= p);
    } else if s.len() > 0 {
        let t = s.drop_first();
        text_is_found_where_it_first_stands(t, p);
        assert forall|k: int| 0 < k <= s.len() implies #[trigger] s.skip(k) == t.skip(k - 1) by {
            assert(s.skip(k) =~= t.skip(k - 1));
        }
        match find_text(t, p) {
            Some(at) => {
                assert(s.subrange((at + 1) as int, (at + 1 + p.len()) as int) =~= t.subrange(
                    at as int,
                    (at + p.len()) as int,
                ));
            },
            None => {},
        }
    }
}

/// Lower-casing changes the letters from `A` to `Z`, each into its own small
/// letter, and nothing else.
pub proof fn only_capitals_are_lowered(s: Seq<char>, i: int)
    requires
        0 <= i < s.len(),
    ensures
        ascii_lower(s).len() == s.len(),
        'A' <= s[i] <= 'Z' ==> ascii_lower(s)[i] as int == s[i] as int + 32,
        !('A' <= s[i] <= 'Z') ==> ascii_lower(s)[i] == s[i],
{
}

/// Texts are put together in order, with the separator between each two of
/// them.
pub proof fn separators_stand_between(parts: Seq<Seq<char>>, sep: Seq<char>, part: Seq<char>)
    ensures
        joined(seq![], sep) == Seq::<char>::empty(),
        joined(seq![part], sep) == part,
        parts.len() > 0 ==> joined(parts.push(part), sep) == joined(parts, sep) + sep + part,
{
    assert(parts.push(part).drop_last() =~= parts);
}

} // verus!
