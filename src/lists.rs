//! Lays out a sequence of already rendered items, separated by commas, either
//! on one line or one item per line.
use vstd::prelude::*;
use crate::text::{spaces, make_indent, push_all};

verus! {

/// How a list may be laid out.
#[derive(Clone, Copy, Debug, PartialEq, Eq, Structural)]
pub enum ListTactic {
    /// One line if everything fits, one item per line otherwise.
    HorizontalVertical,
    /// Always one item per line.
    Vertical,
}

/// When a separator follows the last item.
#[derive(Clone, Copy, Debug, PartialEq, Eq, Structural)]
pub enum SeparatorTactic {
    Always,
    Never,
    /// Only when the list is laid out one item per line.
    Vertical,
}

#[derive(Clone, Copy, Debug)]
pub struct ListFormatting {
    pub tactic: ListTactic,
    pub trailing_separator: SeparatorTactic,
    /// Column at which every line after the first starts.
    pub indent: usize,
    /// Columns available when the list stays on one line.
    pub h_width: usize,
}

pub open spec fn views(items: Seq<Vec<char>>) -> Seq<Seq<char>> {
    Seq::new(items.len(), |i: int| items[i]@)
}

/// The sum of the lengths of the items.
pub open spec fn total_len(items: Seq<Seq<char>>) -> int
    decreases items.len(),
{
    if items.len() == 0 {
        0
    } else {
        total_len(items.drop_last()) + items.last().len()
    }
}

/// How many separators a one-line layout prints.
pub open spec fn sep_count(n: int, trailing: SeparatorTactic) -> int {
    if trailing == SeparatorTactic::Always {
        n
    } else {
        n - 1
    }
}

/// A list stays on one line when its tactic allows it and the items, each
/// with a separator and a space, fit in `h_width`.
pub open spec fn fits_horizontally(items: Seq<Seq<char>>, fmt: ListFormatting) -> bool {
    fmt.tactic == ListTactic::HorizontalVertical && total_len(items) + 2 * sep_count(
        items.len() as int,
        fmt.trailing_separator,
    ) <= fmt.h_width
}

pub open spec fn needs_trailing(t: SeparatorTactic, horizontal: bool) -> bool {
    match t {
        SeparatorTactic::Always => true,
        SeparatorTactic::Never => false,
        SeparatorTactic::Vertical => !horizontal,
    }
}

/// The items with `glue` between each two of them.
pub open spec fn joined(items: Seq<Seq<char>>, glue: Seq<char>) -> Seq<char>
    decreases items.len(),
{
    if items.len() == 0 {
        Seq::empty()
    } else if items.len() == 1 {
        items[0]
    } else {
        joined(items.drop_last(), glue) + glue + items.last()
    }
}

/// What stands between two items: a comma, then a space or a line break and
/// the indentation.
pub open spec fn list_glue(horizontal: bool, indent: nat) -> Seq<char> {
    if horizontal {
        seq![',', ' ']
    } else {
        seq![',', '\n'] + spaces(indent)
    }
}

pub open spec fn list_layout(items: Seq<Seq<char>>, fmt: ListFormatting) -> Seq<char> {
    if items.len() == 0 {
        Seq::empty()
    } else {
        let h = fits_horizontally(items, fmt);
        joined(items, list_glue(h, fmt.indent as nat)) + if needs_trailing(
            fmt.trailing_separator,
            h,
        ) {
            seq![',']
        } else {
            Seq::<char>::empty()
        }
    }
}

fn fits(items: &Vec<Vec<char>>, fmt: &ListFormatting) -> (r: bool)
    ensures
        r == fits_horizontally(views(items@), *fmt),
{
    if fmt.tactic != ListTactic::HorizontalVertical {
        return false;
    }
    let mut acc: usize = 0;
    let mut i: usize = 0;
    while i < items.len()
        invariant
            i <= items.len(),
            acc == total_len(views(items@).take(i as int)),
            acc <= fmt.h_width,
        decreases items.len() - i,
    {
        assert(views(items@).take(i + 1).drop_last() =~= views(items@).take(i as int));
        if items[i].len() > fmt.h_width - acc {
            proof {
                lemma_total_len_prefix(views(items@), i + 1);
            }
            return false;
        }
        acc = acc + items[i].len();
        i = i + 1;
    }
    assert(views(items@).take(i as int) =~= views(items@));
    let sep: usize = if fmt.trailing_separator != SeparatorTactic::Always && items.len() > 0 {
        items.len() - 1
    } else {
        items.len()
    };
    let rem = fmt.h_width - acc;
    if items.len() == 0 {
        return true;
    }
    rem >= sep && rem - sep >= sep
}

proof fn lemma_total_len_prefix(items: Seq<Seq<char>>, k: int)
    requires
        0 <= k <= items.len(),
    ensures
        total_len(items.take(k)) <= total_len(items),
    decreases items.len() - k,
{
    if k < items.len() {
        lemma_total_len_prefix(items, k + 1);
        assert(items.take(k + 1).drop_last() =~= items.take(k));
    } else {
        assert(items.take(k) =~= items);
    }
}

/// Lays out `items` with a comma after each but the last; after the last one
/// too where the trailing-separator policy asks for it.
pub fn write_list(items: &Vec<Vec<char>>, fmt: &ListFormatting) -> (r: Vec<char>)
    ensures
        r@ == list_layout(views(items@), *fmt),
{
    let mut result: Vec<char> = Vec::new();
    if items.len() == 0 {
        return result;
    }
    let h = fits(items, fmt);
    let trailing = match fmt.trailing_separator {
        SeparatorTactic::Always => true,
        SeparatorTactic::Never => false,
        SeparatorTactic::Vertical => !h,
    };
    let indent = make_indent(fmt.indent);
    let ghost glue = list_glue(h, fmt.indent as nat);
    let ghost vs = views(items@);
    push_all(&mut result, &items[0]);
    assert(vs.take(1).drop_last().len() == 0);
    assert(result@ == joined(vs.take(1), glue));
    let mut i: usize = 1;
    while i < items.len()
        invariant
            1 <= i <= items.len(),
            vs == views(items@),
            glue == list_glue(h, fmt.indent as nat),
            indent@ == spaces(fmt.indent as nat),
            result@ == joined(vs.take(i as int), glue),
        decreases items.len() - i,
    {
        result.push(',');
        if h {
            result.push(' ');
        } else {
            result.push('\n');
            push_all(&mut result, &indent);
        }
        push_all(&mut result, &items[i]);
        assert(vs.take(i + 1).drop_last() =~= vs.take(i as int));
        assert(result@ =~= joined(vs.take(i + 1), glue));
        i = i + 1;
    }
    assert(vs.take(i as int) =~= vs);
    if trailing {
        result.push(',');
    }
    assert(result@ =~= list_layout(vs, *fmt));
    result
}

} // verus!
