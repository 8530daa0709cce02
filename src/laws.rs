//! Properties of the layout rules that hold for every input.
use vstd::prelude::*;
use crate::config::Config;
use crate::expr::{
    call_layout, in_range, list_fmt, struct_layout, tuple_layout, any_multiline, Expr, Span, column_of, on_one_line, rewrite_spec, snippet_of, span_ok, string_lit_spec,
};
use crate::lists::{
    ListFormatting, ListTactic, SeparatorTactic, fits_horizontally, joined, list_glue, list_layout, needs_trailing, total_len,
};
use crate::escape::{escape_bounds, escape_char, escape_text, hex_digit, hex_digits};
use crate::string_lit::{
    cut_point, last_boundary, next_boundary, skip_ws, walk_ws, wrap_body, wrapped,
};
use crate::text::is_ws;

verus! {

/// A string literal that already stands on one line ending within the
/// maximum width keeps its source text, character for character.
pub proof fn lemma_short_literal_kept(
    src: Seq<char>,
    cfg: Config,
    text: Seq<char>,
    sp: Span,
    width: int,
    offset: int,
)
    requires
        span_ok(src, sp),
        on_one_line(src, sp.lo as int, sp.hi as int),
        column_of(src, sp.hi as int) <= cfg.max_width,
    ensures
        string_lit_spec(src, cfg, text, sp, width, offset) == Ok::<
            Seq<char>,
            crate::config::RewriteError,
        >(snippet_of(src, sp)),
{
}

/// Cutting `s` into segments loses and adds nothing: the same cuts with
/// nothing between the segments give back the text from `start` on.
pub proof fn lemma_segments_rejoin(
    s: Seq<char>,
    bounds: Seq<bool>,
    start: int,
    cap: int,
    rest_cap: int,
    min: int,
    glue: Seq<char>,
)
    requires
        wrap_body(s, bounds, start, cap, rest_cap, min, glue) is Some,
    ensures
        wrap_body(s, bounds, start, cap, rest_cap, min, Seq::empty()) == Some(
            s.subrange(start, s.len() as int),
        ),
    decreases s.len() - start,
{
    if start + cap < s.len() {
        let c = cut_point(s, bounds, start, cap, min);
        lemma_segments_rejoin(s, bounds, c, rest_cap, rest_cap, min, glue);
        assert(s.subrange(start, c) + Seq::<char>::empty() + s.subrange(c, s.len() as int)
            =~= s.subrange(start, s.len() as int));
    }
}

/// A wrapped string literal is its escaped text `s` in quotes, with line
/// continuations between segments: dropping the continuations gives back `s`
/// exactly.
pub proof fn lemma_wrap_keeps_escaped_text(
    s: Seq<char>,
    bounds: Seq<bool>,
    width: int,
    max_width: int,
    offset: int,
    min: int,
)
    requires
        wrapped(s, bounds, width, max_width, offset, min) is Some,
    ensures
        wrap_body(s, bounds, 0, width - 2, max_width - (offset + 1) - 1, min, Seq::empty()) == Some(
            s,
        ),
        wrapped(s, bounds, width, max_width, offset, min)->0.first() == '"',
        wrapped(s, bounds, width, max_width, offset, min)->0.last() == '"',
{
    let g = crate::string_lit::continuation((offset + 1) as nat);
    lemma_segments_rejoin(s, bounds, 0, width - 2, max_width - (offset + 1) - 1, min, g);
    assert(s.subrange(0, s.len() as int) =~= s);
}

/// A one-element tuple keeps its trailing comma at every width: it is
/// `(item,)`, the item rendered three columns narrower.
pub proof fn lemma_singleton_tuple(src: Seq<char>, cfg: Config, e: Expr, width: int, offset: int)
    requires
        e matches Expr::Tuple { items } && items.len() == 1,
    ensures
        match e {
            Expr::Tuple { items } => match rewrite_spec(src, cfg, e, width, offset) {
                Ok(r) => rewrite_spec(src, cfg, items@[0], width - 3, offset + 1) == Ok::<
                    Seq<char>,
                    crate::config::RewriteError,
                >(r.subrange(1, r.len() - 2)) && r == seq!['('] + r.subrange(1, r.len() - 2)
                    + seq![',', ')'],
                Err(_) => true,
            },
            _ => true,
        },
{
    if let Expr::Tuple { items } = e {
        if let Ok(r) = rewrite_spec(src, cfg, e, width, offset) {
            let x = rewrite_spec(src, cfg, items@[0], width - 3, offset + 1)->Ok_0;
            assert(r =~= seq!['('] + x + seq![',', ')']);
            assert(r.subrange(1, r.len() - 2) =~= x);
        }
    }
}

/// Every kind without a rule of its own keeps its source text exactly.
pub proof fn lemma_fallback_verbatim(src: Seq<char>, cfg: Config, sp: Span, width: int, offset: int)
    requires
        span_ok(src, sp),
    ensures
        rewrite_spec(src, cfg, Expr::Other { span: sp }, width, offset) == Ok::<
            Seq<char>,
            crate::config::RewriteError,
        >(snippet_of(src, sp)),
{
}

proof fn lemma_joined_len(items: Seq<Seq<char>>, glue: Seq<char>)
    requires
        items.len() > 0,
    ensures
        joined(items, glue).len() == total_len(items) + (items.len() - 1) * glue.len(),
    decreases items.len(),
{
    if items.len() > 1 {
        lemma_joined_len(items.drop_last(), glue);
        assert((items.len() - 2) * glue.len() + glue.len() == (items.len() - 1) * glue.len())
            by (nonlinear_arith);
    } else {
        assert(items.drop_last().len() == 0);
        assert(total_len(items.drop_last()) == 0);
    }
}

/// A list laid out on one line, trailing separator included, is no wider
/// than the width it was given.
pub proof fn lemma_horizontal_list_fits(items: Seq<Seq<char>>, fmt: ListFormatting)
    requires
        fits_horizontally(items, fmt),
    ensures
        list_layout(items, fmt).len() <= fmt.h_width,
{
    if items.len() > 0 {
        lemma_joined_len(items, list_glue(true, fmt.indent as nat));
        assert(list_glue(true, fmt.indent as nat).len() == 2);
        assert((items.len() - 1) * 2 == 2 * items.len() - 2);
        if needs_trailing(fmt.trailing_separator, true) {
            assert(fmt.trailing_separator == crate::lists::SeparatorTactic::Always);
        }
    }
}

/// A string literal that is rewrapped is its escaped text in quotes, and
/// dropping the line continuations gives back that escaped text exactly.
pub proof fn lemma_literal_rejoins_to_escaped(
    src: Seq<char>,
    cfg: Config,
    text: Seq<char>,
    sp: Span,
    width: int,
    offset: int,
)
    requires
        !(on_one_line(src, sp.lo as int, sp.hi as int) && column_of(src, sp.hi as int)
            <= cfg.max_width),
        string_lit_spec(src, cfg, text, sp, width, offset) is Ok,
    ensures
        wrapped(
            escape_text(text),
            escape_bounds(text),
            width,
            cfg.max_width as int,
            offset,
            cfg.min_string as int,
        ) == Some(string_lit_spec(src, cfg, text, sp, width, offset)->Ok_0),
        wrap_body(
            escape_text(text),
            escape_bounds(text),
            0,
            width - 2,
            cfg.max_width - (offset + 1) - 1,
            cfg.min_string as int,
            Seq::empty(),
        ) == Some(escape_text(text)),
        cuts_on_bounds(
            escape_text(text),
            escape_bounds(text),
            0,
            width - 2,
            cfg.max_width - (offset + 1) - 1,
            cfg.min_string as int,
        ),
{
    lemma_literal_cuts_between_escapes(
        text,
        width,
        cfg.max_width as int,
        offset,
        cfg.min_string as int,
    );
    lemma_wrap_keeps_escaped_text(
        escape_text(text),
        escape_bounds(text),
        width,
        cfg.max_width as int,
        offset,
        cfg.min_string as int,
    );
}

proof fn lemma_walk_ws_at_space(s: Seq<char>, start: int, e: int, min: int)
    ensures
        walk_ws(s, start, e, min) matches Some(w) ==> 0 < w <= s.len() && is_ws(s[w - 1]),
    decreases e - start,
{
    if e > start && e <= s.len() && start >= 0 && !is_ws(s[e - 1]) && !(e - 1 - start < min
        || e - 1 == start) {
        lemma_walk_ws_at_space(s, start, e - 1, min);
    }
}

proof fn lemma_skip_ws_ends_at_space(s: Seq<char>, e: int)
    requires
        0 < e <= s.len(),
    ensures
        e <= skip_ws(s, e) <= s.len(),
        skip_ws(s, e) > e ==> is_ws(s[skip_ws(s, e) - 1]),
    decreases s.len() - e,
{
    if e < s.len() && is_ws(s[e]) {
        lemma_skip_ws_ends_at_space(s, e + 1);
    }
}

/// Whitespace in `s` stands alone as an escape: a boundary follows it.
pub open spec fn spaces_stand_alone(s: Seq<char>, bounds: Seq<bool>) -> bool {
    forall|k: int| 0 <= k < s.len() && is_ws(#[trigger] s[k]) ==> k + 1 < bounds.len() && bounds[k + 1]
}

/// Every cut lies between two escapes, whatever the room: no escape
/// sequence is split across a line continuation.
pub proof fn lemma_cut_on_boundary(s: Seq<char>, bounds: Seq<bool>, start: int, cap: int, min: int)
    requires
        0 <= start,
        0 < cap,
        start + cap < s.len(),
        bounds.len() == s.len() + 1,
        bounds[s.len() as int],
        spaces_stand_alone(s, bounds),
    ensures
        start < cut_point(s, bounds, start, cap, min) <= s.len(),
        bounds[cut_point(s, bounds, start, cap, min)],
{
    let e = start + cap;
    lemma_walk_ws_at_space(s, start, e, min);
    crate::string_lit::lemma_walk_ws_bounds(s, start, e, min);
    lemma_last_boundary_is_boundary(bounds, start, e);
    lemma_next_boundary_is_boundary(bounds, e);
    let c = match walk_ws(s, start, e, min) {
        Some(w) => w,
        None => match last_boundary(bounds, start, e) {
            Some(b) => b,
            None => next_boundary(bounds, e),
        },
    };
    lemma_skip_ws_ends_at_space(s, c);
}

proof fn lemma_next_boundary_is_boundary(bounds: Seq<bool>, e: int)
    requires
        0 <= e < bounds.len(),
        bounds[bounds.len() - 1],
    ensures
        e <= next_boundary(bounds, e) < bounds.len(),
        bounds[next_boundary(bounds, e)],
    decreases bounds.len() - e,
{
    if e < bounds.len() - 1 && !bounds[e] {
        lemma_next_boundary_is_boundary(bounds, e + 1);
    }
}

proof fn lemma_last_boundary_is_boundary(bounds: Seq<bool>, start: int, e: int)
    ensures
        last_boundary(bounds, start, e) matches Some(b) ==> start < b <= e && 0 <= b < bounds.len()
            && bounds[b],
    decreases e - start,
{
    if e > start && !(0 <= e < bounds.len() && bounds[e]) {
        lemma_last_boundary_is_boundary(bounds, start, e - 1);
    }
}

proof fn lemma_hex_digits_plain(n: nat)
    ensures
        forall|k: int|
            0 <= k < hex_digits(n).len() ==> 0x30 <= (#[trigger] hex_digits(n)[k]) as u32 <= 0x66,
    decreases n,
{
    let ds = seq!['0', '1', '2', '3', '4', '5', '6', '7', '8', '9', 'a', 'b', 'c', 'd', 'e', 'f'];
    assert(forall|d: int| 0 <= d < 16 ==> 0x30 <= (#[trigger] ds[d]) as u32 <= 0x66);
    if n >= 16 {
        lemma_hex_digits_plain(n / 16);
        let r = n % 16;
        assert(0 <= r < 16);
        assert(hex_digit(r) == ds[r as int]);
        let h = hex_digits(n / 16).push(hex_digit(r));
        assert(hex_digits(n) == h);
        assert forall|k: int| 0 <= k < h.len() implies 0x30 <= (#[trigger] h[k]) as u32 <= 0x66 by {
            if k < h.len() - 1 {
                assert(h[k] == hex_digits(n / 16)[k]);
            }
        }
    } else {
        assert(hex_digit(n) == ds[n as int]);
    }
}

proof fn lemma_escape_char_plain(c: char)
    ensures
        forall|k: int|
            0 <= k < escape_char(c).len() ==> 0x20 <= (#[trigger] escape_char(c)[k]) as u32 <= 0x7e,
        forall|k: int| 0 <= k < escape_char(c).len() && is_ws(#[trigger] escape_char(c)[k]) ==> c
            == ' ' && escape_char(c).len() == 1,
{
    lemma_hex_digits_plain(c as u32 as nat);
    let u = c as u32;
    if !(c == '\t' || c == '\r' || c == '\n' || c == '\'' || c == '"' || c == '\\' || (0x20 <= u
        && u <= 0x7e)) {
        let h = hex_digits(u as nat);
        assert forall|k: int| 0 <= k < escape_char(c).len() implies 0x21 <= (#[trigger] escape_char(
            c,
        )[k]) as u32 <= 0x7e by {
            if 3 <= k < 3 + h.len() {
                assert(escape_char(c)[k] == h[k - 3]);
            }
        }
    }
}

/// Escaped text holds printable ASCII only, so no line break; the one
/// whitespace character in it is the space, which is an escape of its own.
pub proof fn lemma_escaped_text_plain(t: Seq<char>)
    ensures
        forall|k: int| 0 <= k < escape_text(t).len() ==> (#[trigger] escape_text(t)[k]) != '\n',
        escape_bounds(t).len() == escape_text(t).len() + 1,
        spaces_stand_alone(escape_text(t), escape_bounds(t)),
    decreases t.len(),
{
    if t.len() > 0 {
        let p = t.drop_last();
        let c = t.last();
        lemma_escaped_text_plain(p);
        lemma_escape_char_plain(c);
        let e0 = escape_text(p);
        let ec = escape_char(c);
        let b0 = escape_bounds(p);
        let bs = escape_bounds(t);
        assert(escape_text(t) == e0 + ec);
        assert(ec.len() >= 1) by {
            if ec.len() == 0 {
                assert(false);
            }
        }
        assert(bs == b0 + Seq::new((ec.len() - 1) as nat, |_i: int| false) + seq![true]);
        assert forall|k: int| 0 <= k < escape_text(t).len() implies (#[trigger] escape_text(t)[k])
            != '\n' by {
            if k >= e0.len() {
                assert(escape_text(t)[k] == ec[k - e0.len()]);
            }
        }
        assert forall|k: int|
            0 <= k < escape_text(t).len() && is_ws(#[trigger] escape_text(t)[k]) implies k + 1
            < bs.len() && bs[k + 1] by {
            if k >= e0.len() {
                assert(escape_text(t)[k] == ec[k - e0.len()]);
            } else {
                assert(escape_text(t)[k] == e0[k]);
                assert(bs[k + 1] == b0[k + 1]);
            }
        }
    }
}

/// A call whose arguments stay on one line is no wider than its width: the
/// callee, the parentheses and the arguments together fit.
pub proof fn lemma_one_line_call_fits(callee: Seq<char>, args: Seq<Seq<char>>, width: int, indent: int)
    requires
        in_range(width - callee.len() - 2),
        in_range(indent),
        fits_horizontally(
            args,
            list_fmt(ListTactic::HorizontalVertical, SeparatorTactic::Never, indent, width - callee.len() - 2),
        ),
    ensures
        call_layout(callee, args, width - callee.len() - 2, indent).len() <= width,
{
    lemma_horizontal_list_fits(
        args,
        list_fmt(ListTactic::HorizontalVertical, SeparatorTactic::Never, indent, width - callee.len() - 2),
    );
}

/// A struct literal whose fields stay on one line is no wider than its width:
/// the path, `" {  }"` and the fields together fit.
pub proof fn lemma_one_line_struct_fits(
    path: Seq<char>,
    fields: Seq<Seq<char>>,
    trailing: SeparatorTactic,
    width: int,
    indent: int,
)
    requires
        in_range(width - (path.len() + 5)),
        in_range(indent),
        fits_horizontally(
            fields,
            list_fmt(ListTactic::HorizontalVertical, trailing, indent, width - (path.len() + 5)),
        ),
    ensures
        struct_layout(path, fields, trailing, width - (path.len() + 5), indent).len() <= width,
{
    lemma_horizontal_list_fits(
        fields,
        list_fmt(ListTactic::HorizontalVertical, trailing, indent, width - (path.len() + 5)),
    );
}

/// A tuple whose items stay on one line is no wider than its width: the
/// parentheses and the items together fit.
pub proof fn lemma_one_line_tuple_fits(items: Seq<Seq<char>>, width: int, indent: int)
    requires
        in_range(width - 2),
        in_range(indent),
        !any_multiline(items),
        fits_horizontally(
            items,
            list_fmt(ListTactic::HorizontalVertical, SeparatorTactic::Never, indent, width - 2),
        ),
    ensures
        tuple_layout(items, width - 2, indent).len() <= width,
{
    lemma_horizontal_list_fits(
        items,
        list_fmt(ListTactic::HorizontalVertical, SeparatorTactic::Never, indent, width - 2),
    );
}

/// Every cut that `wrap_body` makes from `start` on lies on a boundary.
pub open spec fn cuts_on_bounds(
    s: Seq<char>,
    bounds: Seq<bool>,
    start: int,
    cap: int,
    rest_cap: int,
    min: int,
) -> bool
    decreases s.len() - start,
{
    if cap <= 0 || start < 0 || start >= s.len() || start + cap >= s.len() {
        true
    } else {
        let c = cut_point(s, bounds, start, cap, min);
        if c <= start || c > s.len() {
            true
        } else {
            0 <= c < bounds.len() && bounds[c] && cuts_on_bounds(s, bounds, c, rest_cap, rest_cap, min)
        }
    }
}

proof fn lemma_cuts_on_bounds_from(t: Seq<char>, start: int, cap: int, rest_cap: int, min: int)
    requires
        0 <= start <= escape_text(t).len(),
        escape_bounds(t)[start],
    ensures
        cuts_on_bounds(escape_text(t), escape_bounds(t), start, cap, rest_cap, min),
    decreases escape_text(t).len() - start,
{
    let s = escape_text(t);
    let bs = escape_bounds(t);
    if start + cap < s.len() {
        lemma_escaped_text_plain(t);
        lemma_escape_bounds_ends(t);
        if cap > 0 {
            lemma_cut_on_boundary(s, bs, start, cap, min);
            let c = cut_point(s, bs, start, cap, min);
            lemma_cuts_on_bounds_from(t, c, rest_cap, rest_cap, min);
        }
    }
}

/// A rewrapped string literal never splits an escape sequence across a line
/// continuation, whatever the widths: every cut lies between two escapes.
pub proof fn lemma_literal_cuts_between_escapes(text: Seq<char>, width: int, max_width: int, offset: int, min: int)
    ensures
        cuts_on_bounds(
            escape_text(text),
            escape_bounds(text),
            0,
            width - 2,
            max_width - (offset + 1) - 1,
            min,
        ),
{
    lemma_escape_bounds_ends(text);
    lemma_cuts_on_bounds_from(text, 0, width - 2, max_width - (offset + 1) - 1, min);
}

proof fn lemma_escape_bounds_ends(t: Seq<char>)
    ensures
        escape_bounds(t).len() == escape_text(t).len() + 1,
        escape_bounds(t)[0],
        escape_bounds(t)[escape_text(t).len() as int],
    decreases t.len(),
{
    lemma_escaped_text_plain(t);
    if t.len() > 0 {
        lemma_escape_bounds_ends(t.drop_last());
        let b0 = escape_bounds(t.drop_last());
        assert(escape_bounds(t)[0] == b0[0]);
    }
}

/// A call whose arguments do not fit on one line puts each on a line of its
/// own, starting at `indent`, with no comma after the last and the closing
/// parenthesis right behind it.
pub proof fn lemma_call_goes_vertical(callee: Seq<char>, args: Seq<Seq<char>>, width: int, indent: int)
    requires
        args.len() > 0,
        in_range(indent),
        !fits_horizontally(
            args,
            list_fmt(ListTactic::HorizontalVertical, SeparatorTactic::Never, indent, width),
        ),
    ensures
        call_layout(callee, args, width, indent) == callee + seq!['('] + joined(
            args,
            seq![',', '\n'] + crate::text::spaces(indent as nat),
        ) + seq![')'],
{
    let fmt = list_fmt(ListTactic::HorizontalVertical, SeparatorTactic::Never, indent, width);
    assert(list_glue(false, fmt.indent as nat) == seq![',', '\n'] + crate::text::spaces(indent as nat));
    assert(list_layout(args, fmt) =~= joined(args, list_glue(false, fmt.indent as nat)));
}

/// The cut after whitespace is the last one within the room that leaves at
/// least `min` characters (or the room's very end); where there is none, no
/// such position follows whitespace, and the cut falls back to escapes.
pub proof fn lemma_whitespace_cut_is_last(s: Seq<char>, start: int, e: int, min: int)
    requires
        0 <= start < e <= s.len(),
    ensures
        walk_ws(s, start, e, min) matches Some(w) ==> start < w <= e && is_ws(s[w - 1]) && (w
            >= start + min || w == e) && forall|k: int| w < k <= e ==> !is_ws(#[trigger] s[k - 1]),
        walk_ws(s, start, e, min) is None ==> forall|k: int|
            start < k <= e && k >= start + min ==> !is_ws(#[trigger] s[k - 1]),
    decreases e - start,
{
    if !is_ws(s[e - 1]) && !(e - 1 - start < min || e - 1 == start) {
        lemma_whitespace_cut_is_last(s, start, e - 1, min);
    }
}

} // verus!
