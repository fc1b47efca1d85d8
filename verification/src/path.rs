//! Unix paths as text.
//!
//! A path is a root, or none, followed by names between slashes. Repeated
//! slashes and single dots after the start count for nothing.
use vstd::prelude::*;

use crate::text;

verus! {

/// Whether a path begins at the root.
pub open spec fn is_absolute(s: Seq<char>) -> bool {
    s.len() > 0 && s[0] == '/'
}

/// Where the next name begins at or after `i`; the length if there is none.
/// A single dot is a name only at the very start.
pub open spec fn name_start(s: Seq<char>, i: int) -> int
    decreases s.len() - i,
{
    if i < 0 || i >= s.len() {
        s.len() as int
    } else if s[i] == '/' {
        name_start(s, i + 1)
    } else if i > 0 && s[i] == '.' && (i + 1 == s.len() || s[i + 1] == '/') {
        name_start(s, i + 1)
    } else {
        i
    }
}

/// Where the name that begins at `i` ends.
pub open spec fn name_end(s: Seq<char>, i: int) -> int {
    i + text::first_index(s.skip(i), '/')
}

/// Where a name begins and ends lies inside the path.
pub proof fn name_bounds(s: Seq<char>, i: int)
    requires
        0 <= i <= s.len(),
    ensures
        i <= name_start(s, i) <= s.len(),
        name_start(s, i) < s.len() ==> {
            &&& s[name_start(s, i)] != '/'
            &&& name_start(s, i) < name_end(s, name_start(s, i)) <= s.len()
        },
    decreases s.len() - i,
{
    let a = name_start(s, i);
    if i < s.len() {
        name_bounds(s, i + 1);
    }
    if a < s.len() {
        assert(s[a] != '/');
        let rest = s.skip(a);
        text::first_index_bounds(rest, '/');
        assert(rest[0] == s[a]);
        assert(text::first_index(rest, '/') == 1 + text::first_index(rest.drop_first(), '/'));
    }
}

/// Where the names at or after `i` begin and end.
pub open spec fn spans_from(s: Seq<char>, i: int) -> Seq<(int, int)>
    decreases s.len() - i,
{
    proof {
        if 0 <= i <= s.len() {
            name_bounds(s, i);
        }
    }
    let a = name_start(s, i);
    if i < 0 || i > s.len() || a >= s.len() {
        seq![]
    } else {
        seq![(a, name_end(s, a))] + spans_from(s, name_end(s, a))
    }
}

/// Where the names of a path begin and end.
pub open spec fn spans(s: Seq<char>) -> Seq<(int, int)> {
    spans_from(s, 0)
}

/// The names that a path holds after its root.
pub open spec fn names(s: Seq<char>) -> Seq<Seq<char>> {
    spans(s).map_values(|p: (int, int)| s.subrange(p.0, p.1))
}

/// Whether two paths are the same: the same names, from the root or not.
pub open spec fn same_path(a: Seq<char>, b: Seq<char>) -> bool {
    is_absolute(a) == is_absolute(b) && names(a) == names(b)
}

/// The spans stand in order and inside the path.
proof fn spans_ordered(s: Seq<char>, i: int)
    requires
        0 <= i <= s.len(),
    ensures
        forall|k: int|
            0 <= k < spans_from(s, i).len() ==> {
                &&& i <= (#[trigger] spans_from(s, i)[k]).0 < spans_from(s, i)[k].1 <= s.len()
            },
        forall|k: int, m: int|
            0 <= k < m < spans_from(s, i).len() ==> (#[trigger] spans_from(s, i)[k]).1
                <= (#[trigger] spans_from(s, i)[m]).0,
    decreases s.len() - i,
{
    name_bounds(s, i);
    let a = name_start(s, i);
    if a < s.len() {
        let e = name_end(s, a);
        spans_ordered(s, e);
        let rest = spans_from(s, e);
        let all = spans_from(s, i);
        assert(all =~= seq![(a, e)] + rest);
        assert forall|k: int| 0 <= k < all.len() implies {
            &&& i <= (#[trigger] all[k]).0 < all[k].1 <= s.len()
        } by {
            if k > 0 {
                assert(all[k] == rest[k - 1]);
            }
        }
        assert forall|k: int, m: int| 0 <= k < m < all.len() implies (#[trigger] all[k]).1
            <= (#[trigger] all[m]).0 by {
            assert(all[m] == rest[m - 1]);
            if k > 0 {
                assert(all[k] == rest[k - 1]);
            }
        }
    }
}

/// Where a list of spans, kept as machine integers, stands.
pub open spec fn span_ints(v: Seq<(usize, usize)>) -> Seq<(int, int)> {
    v.map_values(|p: (usize, usize)| (p.0 as int, p.1 as int))
}

/// The spans lie inside the path.
pub proof fn spans_inside(s: Seq<char>)
    ensures
        forall|k: int|
            0 <= k < spans(s).len() ==> 0 <= (#[trigger] spans(s)[k]).0 < spans(s)[k].1
                <= s.len(),
{
    spans_ordered(s, 0);
}

/// Finds the names of a path.
pub(crate) fn find_spans(c: &Vec<char>) -> (r: Vec<(usize, usize)>)
    ensures
        span_ints(r@) == spans(c@),
        forall|k: int|
            0 <= k < r@.len() ==> (#[trigger] r@[k]).0 < r@[k].1 && r@[k].1 <= c@.len(),
        forall|k: int, m: int|
            0 <= k < m < r@.len() ==> (#[trigger] r@[k]).1 <= (#[trigger] r@[m]).0,
{
    let mut out: Vec<(usize, usize)> = Vec::new();
    let mut i: usize = 0;
    let n: usize = c.len();
    assert(span_ints(out@) + spans_from(c@, 0) =~= spans(c@));
    loop
        invariant
            n == c@.len(),
            i <= n,
            span_ints(out@) + spans_from(c@, i as int) == spans(c@),
        ensures
            span_ints(out@) == spans(c@),
        decreases n - i,
    {
        let ghost at = i as int;
        proof {
            name_bounds(c@, at);
        }
        while i < n && (c[i] == '/' || (i > 0 && c[i] == '.' && (i + 1 == n || c[i + 1] == '/')))
            invariant
                n == c@.len(),
                at <= i <= n,
                name_start(c@, at) == name_start(c@, i as int),
            decreases n - i,
        {
            i = i + 1;
        }
        if i == n {
            assert(span_ints(out@) + Seq::<(int, int)>::empty() =~= span_ints(out@));
            break;
        }
        let e = text::index_from(c, i, '/');
        let ghost before = out@;
        out.push((i, e));
        assert(span_ints(out@) =~= span_ints(before).push((i as int, e as int)));
        assert(span_ints(out@) + spans_from(c@, e as int) =~= span_ints(before) + (seq![
            (i as int, e as int),
        ] + spans_from(c@, e as int)));
        i = e;
    }
    proof {
        spans_ordered(c@, 0);
        assert forall|k: int| 0 <= k < out@.len() implies (#[trigger] out@[k]).0 < out@[k].1
            && out@[k].1 <= c@.len() by {
            assert(span_ints(out@)[k] == (out@[k].0 as int, out@[k].1 as int));
        }
        assert forall|k: int, m: int| 0 <= k < m < out@.len() implies (#[trigger] out@[k]).1 <= (
        #[trigger] out@[m]).0 by {
            assert(span_ints(out@)[k] == (out@[k].0 as int, out@[k].1 as int));
            assert(span_ints(out@)[m] == (out@[m].0 as int, out@[m].1 as int));
        }
    }
    out
}

/// The names that a path holds after its root.
pub fn names_of(s: &str) -> (r: Vec<String>)
    ensures
        text::texts(r@) == names(s@),
{
    let c = text::to_chars(s);
    let sp = find_spans(&c);
    let mut out: Vec<String> = Vec::new();
    let mut i: usize = 0;
    while i < sp.len()
        invariant
            i <= sp@.len(),
            c@ == s@,
            span_ints(sp@) == spans(c@),
            forall|k: int|
                0 <= k < sp@.len() ==> (#[trigger] sp@[k]).0 < sp@[k].1 && sp@[k].1 <= c@.len(),
            text::texts(out@) == names(s@).take(i as int),
        decreases sp@.len() - i,
    {
        let ghost before = out@;
        assert(span_ints(sp@)[i as int] == (sp@[i as int].0 as int, sp@[i as int].1 as int));
        out.push(text::range_string(&c, sp[i].0, sp[i].1));
        assert(text::texts(out@) =~= text::texts(before).push(names(s@)[i as int]));
        i = i + 1;
        assert(text::texts(out@) =~= names(s@).take(i as int));
    }
    assert(names(s@).len() == sp@.len());
    assert(names(s@).take(sp@.len() as int) =~= names(s@));
    out
}

/// Whether a path begins at the root.
pub fn absolute(s: &str) -> (r: bool)
    ensures
        r == is_absolute(s@),
{
    let c = text::to_chars(s);
    c.len() > 0 && c[0] == '/'
}

/// Whether two lists of strings are the same.
fn same_list(a: &Vec<String>, b: &Vec<String>) -> (r: bool)
    ensures
        r == (text::texts(a@) == text::texts(b@)),
{
    if a.len() != b.len() {
        assert(text::texts(a@).len() != text::texts(b@).len());
        return false;
    }
    let mut i: usize = 0;
    while i < a.len()
        invariant
            a@.len() == b@.len(),
            i <= a@.len(),
            forall|k: int| 0 <= k < i ==> #[trigger] text::texts(a@)[k] == text::texts(b@)[k],
        decreases a@.len() - i,
    {
        if !text::same(&a[i], &b[i]) {
            assert(text::texts(a@)[i as int] != text::texts(b@)[i as int]);
            return false;
        }
        i = i + 1;
    }
    assert(text::texts(a@) =~= text::texts(b@));
    true
}

/// Whether two paths are the same.
pub fn paths_equal(a: &str, b: &str) -> (r: bool)
    ensures
        r == same_path(a@, b@),
{
    absolute(a) == absolute(b) && same_list(&names_of(a), &names_of(b))
}

/// Whether a list of paths holds a path.
pub open spec fn holds_path(list: Seq<Seq<char>>, p: Seq<char>) -> bool {
    exists|i: int| 0 <= i < list.len() && same_path(#[trigger] list[i], p)
}

/// Whether a list of paths holds a path.
pub fn list_holds_path(list: &Vec<String>, p: &str) -> (r: bool)
    ensures
        r == holds_path(text::texts(list@), p@),
{
    let mut i: usize = 0;
    while i < list.len()
        invariant
            i <= list@.len(),
            forall|k: int| 0 <= k < i ==> !same_path(#[trigger] text::texts(list@)[k], p@),
        decreases list@.len() - i,
    {
        if paths_equal(&list[i], p) {
            assert(same_path(text::texts(list@)[i as int], p@));
            return true;
        }
        i = i + 1;
    }
    false
}

// ---------------------------------------------------------------------------
// Joining

/// A path with another after it; an absolute path stands for itself.
pub open spec fn joined(base: Seq<char>, p: Seq<char>) -> Seq<char> {
    if is_absolute(p) || base.len() == 0 {
        p
    } else if base.last() == '/' {
        base + p
    } else {
        base + "/"@ + p
    }
}

/// A path with another after it.
pub fn join(base: &str, p: &str) -> (r: String)
    ensures
        r@ == joined(base@, p@),
{
    let c = text::to_chars(base);
    if absolute(p) || c.len() == 0 {
        p.to_owned()
    } else if c[c.len() - 1] == '/' {
        text::join2(base, p)
    } else {
        text::join3(base, "/", p)
    }
}

// ---------------------------------------------------------------------------
// Taking paths apart

/// The path that holds another, if it has a name at its end.
pub open spec fn parent_of(s: Seq<char>) -> Option<Seq<char>> {
    let sp = spans(s);
    if sp.len() == 0 {
        None
    } else if sp.len() == 1 {
        Some(s.take(if is_absolute(s) { 1 } else { 0 }))
    } else {
        Some(s.take(sp[sp.len() - 2].1))
    }
}

/// The path that holds another.
pub fn parent(s: &str) -> (r: Option<String>)
    ensures
        match r {
            Some(p) => parent_of(s@) == Some(p@),
            None => parent_of(s@) is None,
        },
{
    let c = text::to_chars(s);
    let sp = find_spans(&c);
    let n: usize = sp.len();
    assert(spans(s@).len() == n);
    if n == 0 {
        return None;
    }
    let end: usize = if n == 1 {
        if c[0] == '/' {
            1
        } else {
            0
        }
    } else {
        assert(span_ints(sp@)[n - 2] == (sp@[n - 2].0 as int, sp@[n - 2].1 as int));
        sp[n - 2].1
    };
    assert(c@.take(end as int) =~= c@.subrange(0, end as int));
    Some(text::range_string(&c, 0, end))
}

/// The last name of a path, unless it goes up or stays.
pub open spec fn file_name_of(s: Seq<char>) -> Option<Seq<char>> {
    let n = names(s);
    if n.len() == 0 || n.last() == ".."@ || n.last() == "."@ {
        None
    } else {
        Some(n.last())
    }
}

/// The last name of a path, unless it goes up or stays.
pub fn file_name(s: &str) -> (r: Option<String>)
    ensures
        match r {
            Some(p) => file_name_of(s@) == Some(p@),
            None => file_name_of(s@) is None,
        },
{
    let mut n = names_of(s);
    assert(names(s@).len() == n@.len());
    match n.pop() {
        Some(last) => {
            assert(names(s@).last() == last@);
            if text::same(&last, "..") || text::same(&last, ".") {
                None
            } else {
                Some(last)
            }
        },
        None => None,
    }
}

/// A path with its last name replaced; a path without one gets the name.
pub open spec fn renamed(s: Seq<char>, name: Seq<char>) -> Seq<char> {
    match (file_name_of(s), parent_of(s)) {
        (Some(_), Some(p)) => joined(p, name),
        _ => joined(s, name),
    }
}

/// A path with its last name replaced.
pub fn with_file_name(s: &str, name: &str) -> (r: String)
    ensures
        r@ == renamed(s@, name@),
{
    if file_name(s).is_some() {
        match parent(s) {
            Some(p) => join(&p, name),
            None => join(s, name),
        }
    } else {
        join(s, name)
    }
}

/// A name without its extension: what stands before its last dot, unless the
/// name begins with that dot.
pub open spec fn stem_len(name: Seq<char>) -> int {
    let dot = text::last_index(name, '.');
    if dot > 0 {
        dot
    } else {
        name.len() as int
    }
}

/// A path without the extension of its last name.
pub open spec fn without_extension(s: Seq<char>) -> Seq<char> {
    match file_name_of(s) {
        Some(name) => s.take(spans(s).last().0 + stem_len(name)),
        None => s,
    }
}

/// A path without the extension of its last name.
pub fn strip_extension(s: &str) -> (r: String)
    ensures
        r@ == without_extension(s@),
{
    match file_name(s) {
        Some(name) => {
            let c = text::to_chars(s);
            let sp = find_spans(&c);
            assert(names(s@).len() == sp@.len());
            let k: usize = sp.len() - 1;
            assert(span_ints(sp@)[k as int] == (sp@[k as int].0 as int, sp@[k as int].1 as int));
            let q = text::to_chars(&name);
            let len: usize = q.len();
            assert(len == sp@[k as int].1 - sp@[k as int].0);
            let stem: usize = match text::last_position(&q, '.') {
                Some(d) => if d > 0 {
                    d
                } else {
                    len
                },
                None => len,
            };
            assert(sp@[k as int].0 + stem <= sp@[k as int].1);
            let end: usize = sp[k].0 + stem;
            assert(c@.take(end as int) =~= c@.subrange(0, end as int));
            text::range_string(&c, 0, end)
        },
        None => s.to_owned(),
    }
}

/// What is left of a path below another, if it lies below it.
pub open spec fn relative_to(s: Seq<char>, base: Seq<char>) -> Option<Seq<char>> {
    let sp = spans(s);
    let k = names(base).len() as int;
    if k == 0 && !is_absolute(base) {
        Some(
            s.take(
                if sp.len() > 0 {
                    sp.last().1
                } else if is_absolute(s) {
                    1
                } else {
                    0
                },
            ),
        )
    } else if is_absolute(s) != is_absolute(base) || names(s).len() < k || names(s).take(k)
        != names(base) {
        None
    } else if sp.len() == k {
        Some(seq![])
    } else {
        Some(s.subrange(sp[k].0, sp.last().1))
    }
}

/// What is left of a path below another.
pub fn strip_prefix(s: &str, base: &str) -> (r: Option<String>)
    ensures
        match r {
            Some(p) => relative_to(s@, base@) == Some(p@),
            None => relative_to(s@, base@) is None,
        },
{
    let c = text::to_chars(s);
    let sp = find_spans(&c);
    let n: usize = sp.len();
    assert(names(s@).len() == n && spans(s@).len() == n);
    let base_names = names_of(base);
    let k: usize = base_names.len();
    assert(names(base@).len() == k);
    if n > 0 {
        assert(span_ints(sp@)[n - 1] == (sp@[n - 1].0 as int, sp@[n - 1].1 as int));
    }
    if k == 0 && !absolute(base) {
        let end: usize = if n > 0 {
            sp[n - 1].1
        } else if absolute(s) {
            1
        } else {
            0
        };
        assert(c@.take(end as int) =~= c@.subrange(0, end as int));
        return Some(text::range_string(&c, 0, end));
    }
    if absolute(s) != absolute(base) || n < k {
        return None;
    }
    let mut first = names_of(s);
    let ghost all = first@;
    first.truncate(k);
    assert(text::texts(first@) =~= text::texts(all).take(k as int));
    if !same_list(&first, &base_names) {
        return None;
    }
    if n == k {
        return Some(String::new());
    }
    assert(span_ints(sp@)[k as int] == (sp@[k as int].0 as int, sp@[k as int].1 as int));
    assert(sp@[k as int].0 <= sp@[n - 1].1);
    Some(text::range_string(&c, sp[k].0, sp[n - 1].1))
}

/// The chain of directories that lead to a path, the outermost first.
pub open spec fn chain(s: Seq<char>) -> Seq<Seq<char>>
    decreases s.len(),
{
    proof {
        parent_shorter(s);
    }
    match parent_of(s) {
        Some(p) => chain(p).push(s),
        None => seq![s],
    }
}

/// The path that holds another is shorter.
pub proof fn parent_shorter(s: Seq<char>)
    ensures
        parent_of(s) matches Some(p) ==> p.len() < s.len(),
{
    spans_ordered(s, 0);
    let sp = spans(s);
    if sp.len() == 1 {
        assert(sp[0].0 < sp[0].1 <= s.len());
        if is_absolute(s) {
            name_bounds(s, 0);
            assert(sp[0].0 == name_start(s, 0));
            assert(s[sp[0].0] != '/');
        }
    } else if sp.len() > 1 {
        let n = sp.len() as int;
        assert(sp[n - 2].1 <= sp[n - 1].0);
        assert(sp[n - 1].0 < sp[n - 1].1 <= s.len());
    }
}

/// The chain of directories that lead to a path, the outermost first.
pub fn directory_chain(s: &str) -> (r: Vec<String>)
    ensures
        text::texts(r@) == chain(s@),
    decreases s@.len(),
{
    proof {
        parent_shorter(s@);
    }
    let mut out = match parent(s) {
        Some(p) => directory_chain(&p),
        None => Vec::new(),
    };
    let ghost before = out@;
    out.push(s.to_owned());
    assert(text::texts(out@) =~= text::texts(before).push(s@));
    assert(text::texts(out@) =~= chain(s@));
    out
}

// ---------------------------------------------------------------------------
// Names of joined paths

/// Whether a text can be a name: not empty, without a slash, and not the dot
/// that stays where it is.
pub open spec fn is_plain(name: Seq<char>) -> bool {
    &&& name.len() > 0
    &&& forall|i: int| 0 <= i < name.len() ==> #[trigger] name[i] != '/'
    &&& name != "."@
}

/// Where the name that begins at `i` ends does not change when a slash and
/// more text follow.
proof fn name_end_kept(a: Seq<char>, s: Seq<char>, i: int)
    requires
        0 <= i < a.len() < s.len(),
        s.take(a.len() as int) == a,
        s[a.len() as int] == '/',
    ensures
        name_end(s, i) == name_end(a, i),
{
    let at = text::first_index(a.skip(i), '/') as int;
    text::first_index_bounds(a.skip(i), '/');
    assert forall|k: int| 0 <= k < at implies s.skip(i)[k] != '/' by {
        assert(a.skip(i)[k] == a[i + k]);
        assert(s.take(a.len() as int)[i + k] == s[i + k]);
    }
    if at < a.skip(i).len() {
        assert(a.skip(i)[at] == a[i + at]);
        assert(s.take(a.len() as int)[i + at] == s[i + at]);
    }
    text::first_index_is(s.skip(i), '/', at);
}

/// Where a name begins does not change when a slash and more text follow; past
/// the last name, the next one is looked for after the slash.
proof fn name_start_kept(a: Seq<char>, s: Seq<char>, i: int)
    requires
        0 <= i <= a.len() < s.len(),
        s.take(a.len() as int) == a,
        s[a.len() as int] == '/',
    ensures
        name_start(a, i) < a.len() ==> name_start(s, i) == name_start(a, i),
        name_start(a, i) >= a.len() ==> name_start(s, i) == name_start(s, a.len() as int + 1),
    decreases a.len() - i,
{
    if i < a.len() {
        assert(s.take(a.len() as int)[i] == s[i]);
        if i + 1 < a.len() {
            assert(s.take(a.len() as int)[i + 1] == s[i + 1]);
        }
        name_start_kept(a, s, i + 1);
        name_bounds(a, i + 1);
    }
}

/// The names of a path stay when a slash and more text follow.
proof fn spans_kept(a: Seq<char>, s: Seq<char>, i: int)
    requires
        0 <= i <= a.len() < s.len(),
        s.take(a.len() as int) == a,
        s[a.len() as int] == '/',
    ensures
        spans_from(s, i) == spans_from(a, i) + spans_from(s, a.len() as int + 1),
    decreases a.len() - i,
{
    name_start_kept(a, s, i);
    name_bounds(a, i);
    name_bounds(s, i);
    let at = name_start(a, i);
    if at < a.len() {
        name_end_kept(a, s, at);
        let e = name_end(a, at);
        spans_kept(a, s, e);
        assert(spans_from(s, i) =~= seq![(at, e)] + spans_from(s, e));
        assert(spans_from(a, i) + spans_from(s, a.len() as int + 1) =~= seq![(at, e)] + (spans_from(
            a,
            e,
        ) + spans_from(s, a.len() as int + 1)));
    } else {
        assert(spans_from(a, i) =~= seq![]);
        assert(spans_from(s, i) =~= spans_from(s, a.len() as int + 1));
        assert(spans_from(a, i) + spans_from(s, a.len() as int + 1) =~= spans_from(
            s,
            a.len() as int + 1,
        ));
    }
}

/// The names of a path stay its names when a slash follows.
pub proof fn names_before_slash(a: Seq<char>)
    ensures
        names(a + "/"@) == names(a),
{
    reveal_strlit("/");
    let s = a + "/"@;
    assert(s.take(a.len() as int) =~= a);
    spans_kept(a, s, 0);
    assert(spans_from(s, a.len() as int + 1) =~= seq![]);
    assert(spans(s) =~= spans(a));
    spans_ordered(a, 0);
    assert(names(s) =~= names(a)) by {
        assert forall|k: int| 0 <= k < names(a).len() implies names(s)[k] == names(a)[k] by {
            let p = spans(a)[k];
            assert(p.0 < p.1 <= a.len());
            assert(s.subrange(p.0, p.1) =~= a.subrange(p.0, p.1));
        }
    }
}

/// A name alone is a path with that name.
pub proof fn names_of_one(name: Seq<char>)
    requires
        is_plain(name),
    ensures
        names(name) == seq![name],
{
    text::first_index_is(name.skip(0), '/', name.len() as int);
    assert(name_start(name, 0) == 0);
    assert(name_end(name, 0) == name.len());
    assert(spans_from(name, name.len() as int) =~= seq![]);
    assert(spans(name) =~= seq![(0int, name.len() as int)]);
    assert(name.subrange(0, name.len() as int) =~= name);
    assert(names(name) =~= seq![name]);
}

/// A path followed by a slash and a name has one name more, up to its end.
proof fn spans_with_one(a: Seq<char>, name: Seq<char>)
    requires
        is_plain(name),
    ensures
        ({
            let s = a + "/"@ + name;
            spans(s) == spans(a).push((a.len() as int + 1, s.len() as int))
        }),
{
    reveal_strlit("/");
    reveal_strlit(".");
    let s = a + "/"@ + name;
    let from = a.len() as int + 1;
    assert(s.take(a.len() as int) =~= a);
    spans_kept(a, s, 0);
    assert(s[from] == name[0]);
    if name.len() > 1 {
        assert(s[from + 1] == name[1]);
    } else {
        if name[0] == '.' {
            assert(name =~= "."@);
        }
    }
    assert(name_start(s, from) == from);
    assert(s.skip(from) =~= name);
    text::first_index_is(name, '/', name.len() as int);
    assert(name_end(s, from) == s.len());
    assert(spans_from(s, s.len() as int) =~= seq![]);
    assert(spans_from(s, from) =~= seq![(from, s.len() as int)]);
    assert(spans(s) =~= spans(a).push((from, s.len() as int)));
}

/// A path followed by a slash and a name has one name more.
pub proof fn names_with_one(a: Seq<char>, name: Seq<char>)
    requires
        is_plain(name),
    ensures
        names(a + "/"@ + name) == names(a).push(name),
{
    reveal_strlit("/");
    let s = a + "/"@ + name;
    let from = a.len() as int + 1;
    spans_with_one(a, name);
    spans_ordered(a, 0);
    assert(names(s) =~= names(a).push(name)) by {
        assert forall|k: int| 0 <= k < names(a).len() implies names(s)[k] == names(a)[k] by {
            let p = spans(a)[k];
            assert(p.0 < p.1 <= a.len());
            assert(s.subrange(p.0, p.1) =~= a.subrange(p.0, p.1));
        }
        assert(s.subrange(from, s.len() as int) =~= name);
    }
}

/// The names of names joined by slashes are those names.
pub proof fn names_of_joined(parts: Seq<Seq<char>>)
    requires
        forall|i: int| 0 <= i < parts.len() ==> is_plain(#[trigger] parts[i]),
    ensures
        names(text::joined(parts, "/"@)) == parts,
        !is_absolute(text::joined(parts, "/"@)),
        parts.len() > 0 ==> text::joined(parts, "/"@).len() > 0,
    decreases parts.len(),
{
    if parts.len() == 0 {
        assert(spans(text::joined(parts, "/"@)) =~= seq![]);
        assert(names(text::joined(parts, "/"@)) =~= parts);
    } else if parts.len() == 1 {
        names_of_one(parts[0]);
        assert(parts =~= seq![parts[0]]);
    } else {
        let init = parts.drop_last();
        assert forall|i: int| 0 <= i < init.len() implies is_plain(#[trigger] init[i]) by {
            assert(init[i] == parts[i]);
        }
        names_of_joined(init);
        names_with_one(text::joined(init, "/"@), parts.last());
        assert(init.push(parts.last()) =~= parts);
        assert(text::joined(parts, "/"@)[0] == text::joined(init, "/"@)[0]);
    }
}

/// A path with names joined by slashes after it has its own names and those.
pub proof fn names_below(base: Seq<char>, parts: Seq<Seq<char>>)
    requires
        forall|i: int| 0 <= i < parts.len() ==> is_plain(#[trigger] parts[i]),
    ensures
        names(base + "/"@ + text::joined(parts, "/"@)) == names(base) + parts,
    decreases parts.len(),
{
    let all = text::joined(parts, "/"@);
    if parts.len() == 0 {
        names_before_slash(base);
        assert(base + "/"@ + all =~= base + "/"@);
        assert(names(base) + parts =~= names(base));
    } else if parts.len() == 1 {
        names_with_one(base, parts[0]);
        assert(names(base) + parts =~= names(base).push(parts[0]));
    } else {
        let init = parts.drop_last();
        assert forall|i: int| 0 <= i < init.len() implies is_plain(#[trigger] init[i]) by {
            assert(init[i] == parts[i]);
        }
        names_below(base, init);
        let head = base + "/"@ + text::joined(init, "/"@);
        names_with_one(head, parts.last());
        assert(base + "/"@ + all =~= head + "/"@ + parts.last());
        assert((names(base) + init).push(parts.last()) =~= names(base) + parts);
    }
}

/// Names joined by slashes after a path begin after its slash and end at its end.
proof fn spans_below(base: Seq<char>, parts: Seq<Seq<char>>)
    requires
        parts.len() > 0,
        forall|i: int| 0 <= i < parts.len() ==> is_plain(#[trigger] parts[i]),
    ensures
        ({
            let s = base + "/"@ + text::joined(parts, "/"@);
            &&& spans(s).len() == spans(base).len() + parts.len()
            &&& spans(s)[spans(base).len() as int].0 == base.len() + 1
            &&& spans(s).last().1 == s.len()
        }),
    decreases parts.len(),
{
    if parts.len() == 1 {
        spans_with_one(base, parts[0]);
    } else {
        let init = parts.drop_last();
        assert forall|i: int| 0 <= i < init.len() implies is_plain(#[trigger] init[i]) by {
            assert(init[i] == parts[i]);
        }
        spans_below(base, init);
        let head = base + "/"@ + text::joined(init, "/"@);
        spans_with_one(head, parts.last());
        assert(base + "/"@ + text::joined(parts, "/"@) =~= head + "/"@ + parts.last());
    }
}

/// What is left of a path below another, where it was made by putting names
/// after the other, is those names.
pub proof fn relative_below(base: Seq<char>, parts: Seq<Seq<char>>)
    requires
        base.len() > 0,
        parts.len() > 0,
        forall|i: int| 0 <= i < parts.len() ==> is_plain(#[trigger] parts[i]),
    ensures
        ({
            let rel = text::joined(parts, "/"@);
            relative_to(joined(base, rel), base) == Some(rel)
        }),
{
    reveal_strlit("/");
    let rel = text::joined(parts, "/"@);
    let s = joined(base, rel);
    names_of_joined(parts);
    let above = if base.last() == '/' {
        base.drop_last()
    } else {
        base
    };
    assert(s =~= above + "/"@ + rel);
    names_below(above, parts);
    spans_below(above, parts);
    if base.last() == '/' {
        names_before_slash(above);
        assert(base =~= above + "/"@);
    }
    let k = names(base).len() as int;
    assert(s[0] == base[0]);
    if base[0] != '/' {
        name_bounds(base, 0);
        assert(name_start(base, 0) == 0);
        assert(spans(base).len() > 0);
    }
    assert(names(s).take(k) =~= names(base));
    assert(s.subrange(above.len() as int + 1, s.len() as int) =~= rel);
}

/// The names of a path are not empty and hold no slash.
pub proof fn names_without_slash(s: Seq<char>, k: int)
    requires
        0 <= k < names(s).len(),
    ensures
        names(s)[k].len() > 0,
        forall|i: int| 0 <= i < names(s)[k].len() ==> #[trigger] names(s)[k][i] != '/',
{
    spans_without_slash(s, 0, k);
}

proof fn spans_without_slash(s: Seq<char>, from: int, k: int)
    requires
        0 <= from <= s.len(),
        0 <= k < spans_from(s, from).len(),
    ensures
        0 <= spans_from(s, from)[k].0 < spans_from(s, from)[k].1 <= s.len(),
        forall|i: int|
            spans_from(s, from)[k].0 <= i < spans_from(s, from)[k].1 ==> #[trigger] s[i] != '/',
    decreases s.len() - from,
{
    name_bounds(s, from);
    let a = name_start(s, from);
    let e = name_end(s, a);
    if k == 0 {
        text::first_index_bounds(s.skip(a), '/');
        assert forall|i: int| a <= i < e implies #[trigger] s[i] != '/' by {
            assert(s.skip(a)[i - a] == s[i]);
        }
    } else {
        assert(spans_from(s, from)[k] == spans_from(s, e)[k - 1]);
        spans_without_slash(s, e, k - 1);
    }
}

/// A path whose last two names are plain has the last for its file name and
/// the rest for its parent, and another name put in place of the last one
/// stands in the same directory.
pub proof fn last_name_can_be_replaced(
    up: Seq<char>,
    dir: Seq<char>,
    name: Seq<char>,
    new: Seq<char>,
)
    requires
        is_plain(dir),
        is_plain(name) && name != ".."@,
        is_plain(new),
    ensures
        ({
            let parent = up + "/"@ + dir;
            let p = parent + "/"@ + name;
            &&& file_name_of(p) == Some(name)
            &&& parent_of(p) == Some(parent)
            &&& renamed(p, new) == parent + "/"@ + new
        }),
{
    reveal_strlit("/");
    let parent = up + "/"@ + dir;
    let p = parent + "/"@ + name;
    spans_with_one(up, dir);
    spans_with_one(parent, name);
    names_with_one(parent, name);
    let n = names(parent).push(name);
    assert(n.last() == name);
    let sp = spans(p);
    assert(sp.len() >= 2);
    assert(sp[sp.len() - 2].1 == parent.len());
    assert(p.take(parent.len() as int) =~= parent);
    assert(parent.last() == dir.last());
    assert(dir[dir.len() - 1] != '/');
    assert(new[0] != '/');
}

/// The way to a path leads through its parent.
pub proof fn the_way_leads_through_the_parent(up: Seq<char>, dir: Seq<char>, name: Seq<char>)
    requires
        is_plain(dir),
        is_plain(name) && name != ".."@,
    ensures
        ({
            let parent = up + "/"@ + dir;
            let p = parent + "/"@ + name;
            chain(p) == chain(parent).push(p)
        }),
{
    last_name_can_be_replaced(up, dir, name, name);
}

/// A path that starts at the root is not placed below another.
pub proof fn absolute_paths_stand_alone(base: Seq<char>, p: Seq<char>)
    requires
        is_absolute(p),
    ensures
        joined(base, p) == p,
{
}

/// The extension of a file is what follows the last dot of its name.
pub proof fn extensions_follow_the_last_dot(
    dir: Seq<char>,
    stem: Seq<char>,
    extension: Seq<char>,
)
    requires
        is_plain(stem + "."@ + extension),
        stem.len() > 0,
        stem + "."@ + extension != ".."@,
        forall|i: int| 0 <= i < extension.len() ==> extension[i] != '.',
    ensures
        without_extension(dir + "/"@ + stem + "."@ + extension) == dir + "/"@ + stem,
{
    reveal_strlit("/");
    reveal_strlit(".");
    let name = stem + "."@ + extension;
    let p = dir + "/"@ + name;
    assert(p =~= dir + "/"@ + stem + "."@ + extension);
    names_with_one(dir, name);
    spans_with_one(dir, name);
    assert(names(dir).push(name).last() == name);
    text::last_index_bounds(name, '.');
    assert(name[stem.len() as int] == '.');
    assert forall|i: int| stem.len() < i < name.len() implies name[i] != '.' by {
        assert(name[i] == extension[i - stem.len() - 1]);
    }
    assert(text::last_index(name, '.') == stem.len());
    assert(spans(p).last().0 == dir.len() + 1);
    assert(p.take((dir.len() + 1 + stem.len()) as int) =~= dir + "/"@ + stem);
}

/// A path lies below another exactly if it starts where the other starts and
/// goes through all of its names.
pub proof fn only_paths_below_are_relative(s: Seq<char>, base: Seq<char>)
    requires
        is_absolute(base) || names(base).len() > 0,
    ensures
        relative_to(s, base) is Some <==> {
            &&& is_absolute(s) == is_absolute(base)
            &&& names(base).len() <= names(s).len()
            &&& forall|i: int|
                0 <= i < names(base).len() ==> #[trigger] names(s)[i] == names(base)[i]
        },
{
    let k = names(base).len() as int;
    if k <= names(s).len() {
        if names(s).take(k) == names(base) {
            assert forall|i: int| 0 <= i < k implies #[trigger] names(s)[i] == names(base)[i] by {
                assert(names(s).take(k)[i] == names(base)[i]);
            }
        }
        if forall|i: int| 0 <= i < k ==> #[trigger] names(s)[i] == names(base)[i] {
            assert(names(s).take(k) =~= names(base));
        }
    }
}

/// A list holds a path exactly if one of its paths leads to the same place, by
/// the same names from the same start.
pub proof fn lists_hold_paths_by_their_names(list: Seq<Seq<char>>, p: Seq<char>)
    ensures
        holds_path(list, p) <==> exists|i: int|
            0 <= i < list.len() && names(#[trigger] list[i]) == names(p) && is_absolute(list[i])
                == is_absolute(p),
{
    if exists|i: int|
        0 <= i < list.len() && names(#[trigger] list[i]) == names(p) && is_absolute(list[i])
            == is_absolute(p) {
        let i = choose|i: int|
            0 <= i < list.len() && names(#[trigger] list[i]) == names(p) && is_absolute(list[i])
                == is_absolute(p);
        assert(same_path(list[i], p));
    }
}

} // verus!
