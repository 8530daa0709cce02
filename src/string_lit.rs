//! Re-wrapping of string literals: the escaped text is cut into segments that
//! fit the width, preferably after whitespace and otherwise between two
//! escapes, joined by line continuations.
use vstd::prelude::*;
use crate::text::{is_ws, spaces, is_whitespace, make_indent, push_range, push_all};

verus! {

/// Walking left from `e`, the first cut that lands right after whitespace,
/// or `None` once the segment would be shorter than `min`.
pub open spec fn walk_ws(s: Seq<char>, start: int, e: int, min: int) -> Option<int>
    decreases e - start,
{
    if e <= start || e > s.len() || start < 0 {
        None
    } else if is_ws(s[e - 1]) {
        Some(e)
    } else if e - 1 - start < min || e - 1 == start {
        None
    } else {
        walk_ws(s, start, e - 1, min)
    }
}

/// Walking left from `e`, the last position after `start` that lies between
/// two escapes (`bounds` marks them).
pub open spec fn last_boundary(bounds: Seq<bool>, start: int, e: int) -> Option<int>
    decreases e - start,
{
    if e <= start {
        None
    } else if 0 <= e < bounds.len() && bounds[e] {
        Some(e)
    } else {
        last_boundary(bounds, start, e - 1)
    }
}

/// Walking right from `e` over whitespace.
pub open spec fn skip_ws(s: Seq<char>, e: int) -> int
    decreases s.len() - e,
{
    if 0 <= e < s.len() && is_ws(s[e]) {
        skip_ws(s, e + 1)
    } else {
        e
    }
}

/// Walking right from `e`, the first position that lies between two escapes,
/// or the end of the text.
pub open spec fn next_boundary(bounds: Seq<bool>, e: int) -> int
    decreases bounds.len() - e,
{
    if 0 <= e < bounds.len() - 1 && !bounds[e] {
        next_boundary(bounds, e + 1)
    } else {
        e
    }
}

/// Where the segment that starts at `start`, with room for `cap` characters,
/// ends: after whitespace if that leaves at least `min` characters, else at
/// the last boundary between escapes within the room, else (an escape longer
/// than the room) at the end of the escape that the room's end falls in.
pub open spec fn cut_point(s: Seq<char>, bounds: Seq<bool>, start: int, cap: int, min: int) -> int {
    let e = start + cap;
    let c = match walk_ws(s, start, e, min) {
        Some(w) => w,
        None => match last_boundary(bounds, start, e) {
            Some(b) => b,
            None => next_boundary(bounds, e),
        },
    };
    skip_ws(s, c)
}

/// The segments of `s` from `start` on with `glue` between them; the first
/// has room for `cap` characters, every later one for `rest_cap`. `None`
/// where a room is negative, or zero while text is left to place.
pub open spec fn wrap_body(
    s: Seq<char>,
    bounds: Seq<bool>,
    start: int,
    cap: int,
    rest_cap: int,
    min: int,
    glue: Seq<char>,
) -> Option<Seq<char>>
    decreases s.len() - start,
{
    if cap < 0 || start < 0 || start > s.len() {
        None
    } else if start + cap >= s.len() {
        Some(s.subrange(start, s.len() as int))
    } else if cap == 0 {
        None
    } else {
        let c = cut_point(s, bounds, start, cap, min);
        if c <= start || c > s.len() {
            None
        } else {
            match wrap_body(s, bounds, c, rest_cap, rest_cap, min, glue) {
                Some(b) => Some(s.subrange(start, c) + glue + b),
                None => None,
            }
        }
    }
}

/// A line continuation: a backslash, a line break and the indentation.
pub open spec fn continuation(indent: nat) -> Seq<char> {
    seq!['\\', '\n'] + spaces(indent)
}

/// The escaped text `s`, with its escape boundaries `bounds`, wrapped for a
/// literal whose first line has `width` columns and whose later lines start
/// at column `offset + 1`, in quotes.
pub open spec fn wrapped(s: Seq<char>, bounds: Seq<bool>, width: int, max_width: int, offset: int, min: int) -> Option<
    Seq<char>,
> {
    let indent = offset + 1;
    if indent > usize::MAX {
        None
    } else {
        match wrap_body(s, bounds, 0, width - 2, max_width - indent - 1, min, continuation(indent as nat)) {
            Some(b) => Some(seq!['"'] + b + seq!['"']),
            None => None,
        }
    }
}

fn walk_ws_exec(s: &Vec<char>, start: usize, e0: usize, min: usize) -> (r: Option<usize>)
    requires
        start < e0 < s.len(),
    ensures
        match r {
            Some(x) => walk_ws(s@, start as int, e0 as int, min as int) == Some(x as int),
            None => walk_ws(s@, start as int, e0 as int, min as int) is None,
        },
{
    let mut e = e0;
    while e > start
        invariant
            start <= e <= e0 < s.len(),
            walk_ws(s@, start as int, e0 as int, min as int) == walk_ws(
                s@,
                start as int,
                e as int,
                min as int,
            ),
        decreases e,
    {
        if is_whitespace(s[e - 1]) {
            return Some(e);
        }
        e = e - 1;
        if e - start < min || e == start {
            return None;
        }
    }
    None
}

fn last_boundary_exec(bounds: &Vec<bool>, start: usize, e0: usize) -> (r: Option<usize>)
    requires
        start < e0 < bounds.len(),
    ensures
        match r {
            Some(x) => last_boundary(bounds@, start as int, e0 as int) == Some(x as int) && start < x <= e0,
            None => last_boundary(bounds@, start as int, e0 as int) is None,
        },
{
    let mut e = e0;
    while e > start
        invariant
            start <= e <= e0 < bounds.len(),
            last_boundary(bounds@, start as int, e0 as int) == last_boundary(bounds@, start as int, e as int),
        decreases e,
    {
        if bounds[e] {
            return Some(e);
        }
        e = e - 1;
    }
    None
}

fn skip_ws_exec(s: &Vec<char>, e0: usize) -> (r: usize)
    requires
        e0 <= s.len(),
    ensures
        r as int == skip_ws(s@, e0 as int),
        e0 <= r <= s.len(),
{
    let mut e = e0;
    while e < s.len() && is_whitespace(s[e])
        invariant
            e0 <= e <= s.len(),
            skip_ws(s@, e0 as int) == skip_ws(s@, e as int),
        decreases s.len() - e,
    {
        e = e + 1;
    }
    e
}

fn next_boundary_exec(bounds: &Vec<bool>, e0: usize) -> (r: usize)
    requires
        0 < bounds.len(),
        e0 < bounds.len(),
    ensures
        r as int == next_boundary(bounds@, e0 as int),
        e0 <= r < bounds.len(),
{
    let mut e = e0;
    while e < bounds.len() - 1 && !bounds[e]
        invariant
            e0 <= e < bounds.len(),
            next_boundary(bounds@, e0 as int) == next_boundary(bounds@, e as int),
        decreases bounds.len() - e,
    {
        e = e + 1;
    }
    e
}

fn cut_point_exec(s: &Vec<char>, bounds: &Vec<bool>, start: usize, cap: usize, min: usize) -> (r: usize)
    requires
        0 < cap,
        start + cap < s.len(),
        bounds.len() == s.len() + 1,
    ensures
        r as int == cut_point(s@, bounds@, start as int, cap as int, min as int),
        start < r <= s.len(),
{
    let e = start + cap;
    let c = match walk_ws_exec(s, start, e, min) {
        Some(w) => {
            proof {
                lemma_walk_ws_bounds(s@, start as int, e as int, min as int);
            }
            w
        },
        None => match last_boundary_exec(bounds, start, e) {
            Some(b) => b,
            None => next_boundary_exec(bounds, e),
        },
    };
    skip_ws_exec(s, c)
}

pub(crate) proof fn lemma_walk_ws_bounds(s: Seq<char>, start: int, e: int, min: int)
    ensures
        walk_ws(s, start, e, min) matches Some(w) ==> start < w <= e && w <= s.len(),
    decreases e - start,
{
    if e > start && e <= s.len() && start >= 0 && !is_ws(s[e - 1]) && !(e - 1 - start < min
        || e - 1 == start) {
        lemma_walk_ws_bounds(s, start, e - 1, min);
    }
}

/// Wraps the escaped text `s`, whose escape boundaries `bounds` marks, as
/// `wrapped` describes.
pub fn wrap_escaped(s: &Vec<char>, bounds: &Vec<bool>, width: usize, max_width: usize, offset: usize, min: usize) -> (r:
    Option<Vec<char>>)
    requires
        bounds.len() == s.len() + 1,
    ensures
        match r {
            Some(v) => wrapped(
                s@,
                bounds@,
                width as int,
                max_width as int,
                offset as int,
                min as int,
            ) == Some(v@),
            None => wrapped(s@, bounds@, width as int, max_width as int, offset as int, min as int) is None,
        },
{
    if offset == usize::MAX || width < 2 {
        return None;
    }
    let indent = offset + 1;
    let mut glue: Vec<char> = Vec::new();
    glue.push('\\');
    glue.push('\n');
    let spaces_v = make_indent(indent);
    push_all(&mut glue, &spaces_v);
    assert(glue@ =~= continuation(indent as nat));
    let ghost rest_cap: int = max_width - indent - 1;
    let ghost g = continuation(indent as nat);
    let ghost whole = wrap_body(s@, bounds@, 0, width - 2, rest_cap, min as int, g);
    assert(wrapped(s@, bounds@, width as int, max_width as int, offset as int, min as int) == match whole {
        Some(b) => Some(seq!['"'] + b + seq!['"']),
        None => None::<Seq<char>>,
    });
    let mut result: Vec<char> = Vec::new();
    result.push('"');
    let ghost mut acc: Seq<char> = Seq::empty();
    let mut start: usize = 0;
    let mut cap: usize = width - 2;
    loop
        invariant
            start <= s.len(),
            bounds.len() == s.len() + 1,
            indent == offset + 1,
            glue@ == g,
            g == continuation(indent as nat),
            whole == wrap_body(s@, bounds@, 0, width - 2, rest_cap, min as int, g),
            wrapped(s@, bounds@, width as int, max_width as int, offset as int, min as int) == match whole {
                Some(b) => Some(seq!['"'] + b + seq!['"']),
                None => None::<Seq<char>>,
            },
            rest_cap == max_width - indent - 1,
            result@ == seq!['"'] + acc,
            whole == match wrap_body(s@, bounds@, start as int, cap as int, rest_cap, min as int, g) {
                Some(b) => Some(acc + b),
                None => None::<Seq<char>>,
            },
        decreases s.len() - start,
    {
        if cap >= s.len() - start {
            push_range(&mut result, s, start, s.len());
            proof {
                acc = acc + s@.subrange(start as int, s.len() as int);
            }
            result.push('"');
            assert(result@ =~= seq!['"'] + acc + seq!['"']);
            assert(whole == Some(acc));
            return Some(result);
        }
        if cap == 0 {
            assert(whole is None);
            return None;
        }
        let c = cut_point_exec(s, bounds, start, cap, min);
        push_range(&mut result, s, start, c);
        push_all(&mut result, &glue);
        proof {
            let prev = acc;
            let piece = s@.subrange(start as int, c as int);
            acc = acc + piece + g;
            let next = wrap_body(s@, bounds@, c as int, rest_cap, rest_cap, min as int, g);
            if next is Some {
                assert(prev + (piece + g + next->0) =~= acc + next->0);
            }
        }
        assert(result@ =~= seq!['"'] + acc);
        if max_width <= indent {
            assert(whole is None);
            return None;
        }
        start = c;
        cap = max_width - indent - 1;
    }
}

} // verus!
